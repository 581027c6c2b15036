use vstd::prelude::*;

use crate::name_type::NameType;
use crate::types::Endpoint;

verus! {

/// The live-connection registry: one entry per connected peer, pairing the
/// transport endpoint with the peer's name.  Kept as a single list of pairs,
/// so the two lookup directions can never disagree; well-formedness makes
/// both components unique.
pub struct ConnectionRegistry {
    pub entries: Vec<(Endpoint, NameType)>,
}

impl ConnectionRegistry {
    /// No endpoint and no name occurs twice.
    pub open spec fn wf(&self) -> bool {
        forall|i: int, j: int|
            0 <= i < j < self.entries@.len() ==> (#[trigger] self.entries@[i]).0 != (
            #[trigger] self.entries@[j]).0 && self.entries@[i].1@ != self.entries@[j].1@
    }

    /// The registry binds `e` to the name `n`.
    pub open spec fn has_pair(&self, e: Endpoint, n: Seq<u8>) -> bool {
        exists|i: int|
            0 <= i < self.entries@.len() && (#[trigger] self.entries@[i]).0 == e
                && self.entries@[i].1@ == n
    }

    pub open spec fn has_endpoint(&self, e: Endpoint) -> bool {
        exists|i: int| 0 <= i < self.entries@.len() && (#[trigger] self.entries@[i]).0 == e
    }

    pub open spec fn has_name(&self, n: Seq<u8>) -> bool {
        exists|i: int| 0 <= i < self.entries@.len() && (#[trigger] self.entries@[i]).1@ == n
    }

    pub fn new() -> (r: ConnectionRegistry)
        ensures
            r.wf(),
            r.entries@.len() == 0,
    {
        ConnectionRegistry { entries: Vec::new() }
    }

    pub fn len(&self) -> (r: usize)
        ensures
            r == self.entries@.len(),
    {
        self.entries.len()
    }

    /// The name bound to an endpoint, if the endpoint is registered.
    pub fn name_for_endpoint(&self, e: &Endpoint) -> (r: Option<NameType>)
        ensures
            match r {
                Some(n) => self.has_pair(*e, n@),
                None => !self.has_endpoint(*e),
            },
    {
        let mut i: usize = 0;
        while i < self.entries.len()
            invariant
                0 <= i <= self.entries@.len(),
                forall|j: int| 0 <= j < i ==> (#[trigger] self.entries@[j]).0 != *e,
            decreases self.entries@.len() - i,
        {
            if self.entries[i].0 == *e {
                return Some(self.entries[i].1);
            }
            i = i + 1;
        }
        None
    }

    /// The endpoint bound to a name, if the name is registered.
    pub fn endpoint_for_name(&self, n: &NameType) -> (r: Option<Endpoint>)
        ensures
            match r {
                Some(e) => self.has_pair(e, n@),
                None => !self.has_name(n@),
            },
    {
        let mut i: usize = 0;
        while i < self.entries.len()
            invariant
                0 <= i <= self.entries@.len(),
                forall|j: int| 0 <= j < i ==> (#[trigger] self.entries@[j]).1@ != n@,
            decreases self.entries@.len() - i,
        {
            if self.entries[i].1.equals(n) {
                return Some(self.entries[i].0);
            }
            i = i + 1;
        }
        None
    }

    /// Some registered endpoint, if any: the fallback target when a relay
    /// client is unknown.
    pub fn any_endpoint(&self) -> (r: Option<Endpoint>)
        ensures
            match r {
                Some(e) => self.has_endpoint(e),
                None => self.entries@.len() == 0,
            },
    {
        if self.entries.len() > 0 {
            proof {
                assert((self.entries@[0]).0 == self.entries@[0].0);
            }
            Some(self.entries[0].0)
        } else {
            None
        }
    }

    /// Remove the entry carrying this endpoint, if any; both lookup
    /// directions lose it at once.  Returns the name that was bound.
    pub fn remove_by_endpoint(&mut self, e: &Endpoint) -> (r: Option<NameType>)
        requires
            old(self).wf(),
        ensures
            final(self).wf(),
            !final(self).has_endpoint(*e),
            match r {
                Some(n) => old(self).has_pair(*e, n@) && !final(self).has_name(n@),
                None => !old(self).has_endpoint(*e) && *final(self) == *old(self),
            },
            forall|e2: Endpoint, n2: Seq<u8>|
                e2 != *e ==> #[trigger] final(self).has_pair(e2, n2) == old(self).has_pair(e2, n2),
    {
        let mut i: usize = 0;
        while i < self.entries.len()
            invariant
                old(self) == self,
                self.wf(),
                0 <= i <= self.entries@.len(),
                forall|j: int| 0 <= j < i ==> (#[trigger] self.entries@[j]).0 != *e,
            decreases self.entries@.len() - i,
        {
            if self.entries[i].0 == *e {
                let name = self.entries[i].1;
                let ghost k = i as int;
                let ghost oldentries = self.entries@;
                self.entries.remove(i);
                proof {
                    assert(self.entries@ == oldentries.remove(k));
                    assert(forall|a: int|
                        0 <= a < self.entries@.len() ==> #[trigger] self.entries@[a] == (if a < k {
                            oldentries[a]
                        } else {
                            oldentries[a + 1]
                        }));
                    assert forall|a: int, b: int|
                        0 <= a < b < self.entries@.len() implies (#[trigger] self.entries@[a]).0
                        != (#[trigger] self.entries@[b]).0 && self.entries@[a].1@
                        != self.entries@[b].1@ by {
                        let a0 = if a < k { a } else { a + 1 };
                        let b0 = if b < k { b } else { b + 1 };
                        assert(old(self).entries@[a0] == self.entries@[a]);
                        assert(old(self).entries@[b0] == self.entries@[b]);
                    }
                    assert forall|a: int| 0 <= a < self.entries@.len() implies (
                    #[trigger] self.entries@[a]).0 != *e && self.entries@[a].1@ != name@ by {
                        let a0 = if a < k { a } else { a + 1 };
                        assert(old(self).entries@[a0] == self.entries@[a]);
                    }
                    assert(old(self).has_pair(*e, name@));
                    assert forall|e2: Endpoint, n2: Seq<u8>|
                        e2 != *e implies #[trigger] final(self).has_pair(e2, n2) == old(
                        self,
                    ).has_pair(e2, n2) by {
                        if final(self).has_pair(e2, n2) {
                            let a = choose|a: int|
                                0 <= a < final(self).entries@.len() && (#[trigger] final(self).entries@[a]).0 == e2 && final(self).entries@[a].1@ == n2;
                            let a0 = if a < k { a } else { a + 1 };
                            assert(old(self).entries@[a0] == final(self).entries@[a]);
                        }
                        if old(self).has_pair(e2, n2) {
                            let a = choose|a: int|
                                0 <= a < old(self).entries@.len() && (#[trigger] old(
                                    self,
                                ).entries@[a]).0 == e2 && old(self).entries@[a].1@ == n2;
                            if a < k {
                                assert(final(self).entries@[a] == old(self).entries@[a]);
                            } else {
                                assert(a != k);
                                assert(final(self).entries@[a - 1] == old(self).entries@[a]);
                            }
                        }
                    }
                }
                return Some(name);
            }
            i = i + 1;
        }
        None
    }

    /// Bind an endpoint to a name.  Any earlier binding of either side is
    /// removed first, so the registry stays a bijection.
    pub fn insert_pair(&mut self, e: Endpoint, n: NameType)
        requires
            old(self).wf(),
        ensures
            final(self).wf(),
            final(self).has_pair(e, n@),
            forall|e2: Endpoint, n2: Seq<u8>|
                #[trigger] final(self).has_pair(e2, n2) == ((old(self).has_pair(e2, n2) && e2 != e
                    && n2 != n@) || (e2 == e && n2 == n@)),
    {
        let _ = self.remove_by_endpoint(&e);
        let ghost mid = *self;
        let _ = self.remove_by_name(&n);
        let ghost pre = *self;
        proof {
            assert(!pre.has_endpoint(e)) by {
                if pre.has_endpoint(e) {
                    let a = choose|a: int|
                        0 <= a < pre.entries@.len() && (#[trigger] pre.entries@[a]).0 == e;
                    let n2 = pre.entries@[a].1@;
                    assert(pre.has_pair(e, n2));
                    if n2 == n@ {
                        assert(pre.has_name(n@));
                    } else {
                        assert(mid.has_pair(e, n2));
                        let b = choose|b: int|
                            0 <= b < mid.entries@.len() && (#[trigger] mid.entries@[b]).0 == e
                                && mid.entries@[b].1@ == n2;
                        assert(mid.has_endpoint(e));
                    }
                }
            };
        }
        self.entries.push((e, n));
        proof {
            let len = pre.entries@.len() as int;
            assert(self.entries@ == pre.entries@.push((e, n)));
            assert(forall|a: int|
                0 <= a < len ==> #[trigger] self.entries@[a] == pre.entries@[a]);
            assert(self.entries@[len] == (e, n));
            assert forall|a: int, b: int|
                0 <= a < b < self.entries@.len() implies (#[trigger] self.entries@[a]).0 != (
            #[trigger] self.entries@[b]).0 && self.entries@[a].1@ != self.entries@[b].1@ by {
                if b == len {
                    assert(self.entries@[a] == pre.entries@[a]);
                    assert(!pre.has_endpoint(e) && !pre.has_name(n@));
                }
            }
            assert(final(self).has_pair(e, n@)) by {
                assert((self.entries@[len]).0 == e && self.entries@[len].1@ == n@);
            }
            assert forall|e2: Endpoint, n2: Seq<u8>| #[trigger] final(self).has_pair(e2, n2) == ((
            old(self).has_pair(e2, n2) && e2 != e && n2 != n@) || (e2 == e && n2 == n@)) by {
                if final(self).has_pair(e2, n2) {
                    let a = choose|a: int|
                        0 <= a < final(self).entries@.len() && (#[trigger] final(self).entries@[a]).0 == e2 && final(self).entries@[a].1@ == n2;
                    if a < len {
                        assert(pre.entries@[a] == final(self).entries@[a]);
                        assert(pre.has_pair(e2, n2));
                    }
                }
                if pre.has_pair(e2, n2) && !(e2 == e && n2 == n@) {
                    let a = choose|a: int|
                        0 <= a < pre.entries@.len() && (#[trigger] pre.entries@[a]).0 == e2
                            && pre.entries@[a].1@ == n2;
                    assert(final(self).entries@[a] == pre.entries@[a]);
                    assert(final(self).has_pair(e2, n2));
                }
            }
        }
    }

    /// Remove the entry carrying this name, if any.
    pub fn remove_by_name(&mut self, n: &NameType) -> (r: Option<Endpoint>)
        requires
            old(self).wf(),
        ensures
            final(self).wf(),
            !final(self).has_name(n@),
            match r {
                Some(e) => old(self).has_pair(e, n@) && !final(self).has_endpoint(e),
                None => !old(self).has_name(n@) && *final(self) == *old(self),
            },
            forall|e2: Endpoint, n2: Seq<u8>|
                n2 != n@ ==> #[trigger] final(self).has_pair(e2, n2) == old(self).has_pair(e2, n2),
    {
        let mut i: usize = 0;
        while i < self.entries.len()
            invariant
                old(self) == self,
                self.wf(),
                0 <= i <= self.entries@.len(),
                forall|j: int| 0 <= j < i ==> (#[trigger] self.entries@[j]).1@ != n@,
            decreases self.entries@.len() - i,
        {
            if self.entries[i].1.equals(n) {
                let ep = self.entries[i].0;
                let ghost k = i as int;
                let ghost oldentries = self.entries@;
                self.entries.remove(i);
                proof {
                    assert(self.entries@ == oldentries.remove(k));
                    assert(forall|a: int|
                        0 <= a < self.entries@.len() ==> #[trigger] self.entries@[a] == (if a < k {
                            oldentries[a]
                        } else {
                            oldentries[a + 1]
                        }));
                    assert forall|a: int, b: int|
                        0 <= a < b < self.entries@.len() implies (#[trigger] self.entries@[a]).0
                        != (#[trigger] self.entries@[b]).0 && self.entries@[a].1@
                        != self.entries@[b].1@ by {
                        let a0 = if a < k { a } else { a + 1 };
                        let b0 = if b < k { b } else { b + 1 };
                        assert(old(self).entries@[a0] == self.entries@[a]);
                        assert(old(self).entries@[b0] == self.entries@[b]);
                    }
                    assert forall|a: int| 0 <= a < self.entries@.len() implies (
                    #[trigger] self.entries@[a]).1@ != n@ && self.entries@[a].0 != ep by {
                        let a0 = if a < k { a } else { a + 1 };
                        assert(old(self).entries@[a0] == self.entries@[a]);
                    }
                    assert(old(self).has_pair(ep, n@));
                    assert forall|e2: Endpoint, n2: Seq<u8>|
                        n2 != n@ implies #[trigger] final(self).has_pair(e2, n2) == old(
                        self,
                    ).has_pair(e2, n2) by {
                        if final(self).has_pair(e2, n2) {
                            let a = choose|a: int|
                                0 <= a < final(self).entries@.len() && (#[trigger] final(self).entries@[a]).0 == e2 && final(self).entries@[a].1@ == n2;
                            let a0 = if a < k { a } else { a + 1 };
                            assert(old(self).entries@[a0] == final(self).entries@[a]);
                        }
                        if old(self).has_pair(e2, n2) {
                            let a = choose|a: int|
                                0 <= a < old(self).entries@.len() && (#[trigger] old(
                                    self,
                                ).entries@[a]).0 == e2 && old(self).entries@[a].1@ == n2;
                            if a < k {
                                assert(final(self).entries@[a] == old(self).entries@[a]);
                            } else {
                                assert(a != k);
                                assert(final(self).entries@[a - 1] == old(self).entries@[a]);
                            }
                        }
                    }
                }
                return Some(ep);
            }
            i = i + 1;
        }
        None
    }
}

/// Under well-formedness an endpoint is bound to at most one name.
pub proof fn lemma_unique_name(r: &ConnectionRegistry, e: Endpoint, n1: Seq<u8>, n2: Seq<u8>)
    requires
        r.wf(),
        r.has_pair(e, n1),
        r.has_pair(e, n2),
    ensures
        n1 == n2,
{
    let i = choose|i: int|
        0 <= i < r.entries@.len() && (#[trigger] r.entries@[i]).0 == e && r.entries@[i].1@ == n1;
    let j = choose|j: int|
        0 <= j < r.entries@.len() && (#[trigger] r.entries@[j]).0 == e && r.entries@[j].1@ == n2;
    if i != j {
        if i < j {
            assert((r.entries@[i]).0 != (r.entries@[j]).0);
        } else {
            assert((r.entries@[j]).0 != (r.entries@[i]).0);
        }
    }
}

/// The endpoint-to-name direction of the registry, as a map.
pub open spec fn endpoint_map(s: Seq<(Endpoint, NameType)>) -> Map<Endpoint, Seq<u8>>
    decreases s.len(),
{
    if s.len() == 0 {
        Map::empty()
    } else {
        endpoint_map(s.drop_last()).insert(s.last().0, s.last().1@)
    }
}

/// The name-to-endpoint direction of the registry, as a map.
pub open spec fn name_map(s: Seq<(Endpoint, NameType)>) -> Map<Seq<u8>, Endpoint>
    decreases s.len(),
{
    if s.len() == 0 {
        Map::empty()
    } else {
        name_map(s.drop_last()).insert(s.last().1@, s.last().0)
    }
}

proof fn lemma_endpoint_map_char(s: Seq<(Endpoint, NameType)>)
    ensures
        forall|e: Endpoint|
            #[trigger] endpoint_map(s).contains_key(e) == exists|i: int|
                0 <= i < s.len() && (#[trigger] s[i]).0 == e,
        forall|i: int|
            0 <= i < s.len() && (forall|j: int| i < j < s.len() ==> (#[trigger] s[j]).0 != s[i].0)
                ==> endpoint_map(s).contains_key((#[trigger] s[i]).0) && endpoint_map(s)[s[i].0]
                == s[i].1@,
    decreases s.len(),
{
    if s.len() > 0 {
        lemma_endpoint_map_char(s.drop_last());
        let sub = s.drop_last();
        assert(endpoint_map(s) == endpoint_map(sub).insert(s.last().0, s.last().1@));
        assert forall|e: Endpoint| #[trigger] endpoint_map(s).contains_key(e) == exists|i: int|
            0 <= i < s.len() && (#[trigger] s[i]).0 == e by {
            assert(forall|i: int| 0 <= i < sub.len() ==> #[trigger] sub[i] == s[i]);
            if endpoint_map(s).contains_key(e) {
                if e == s.last().0 {
                    assert((s[s.len() - 1]).0 == e);
                } else {
                    assert(endpoint_map(sub).contains_key(e));
                    assert(exists|i: int| 0 <= i < sub.len() && (#[trigger] sub[i]).0 == e);
                    let i = choose|i: int| 0 <= i < sub.len() && (#[trigger] sub[i]).0 == e;
                    assert((s[i]).0 == e);
                }
            }
            if exists|i: int| 0 <= i < s.len() && (#[trigger] s[i]).0 == e {
                let i = choose|i: int| 0 <= i < s.len() && (#[trigger] s[i]).0 == e;
                if i < s.len() - 1 {
                    assert((sub[i]).0 == e);
                    assert(endpoint_map(sub).contains_key(e));
                }
            }
        }
        assert forall|i: int|
            0 <= i < s.len() && (forall|j: int| i < j < s.len() ==> (#[trigger] s[j]).0 != s[i].0)
            implies endpoint_map(s).contains_key((#[trigger] s[i]).0) && endpoint_map(s)[s[i].0]
            == s[i].1@ by {
            if i == s.len() - 1 {
            } else {
                assert((s[s.len() - 1]).0 != s[i].0);
                assert((sub[i]).0 == s[i].0 && sub[i].1@ == s[i].1@);
                assert(forall|j: int| i < j < sub.len() ==> (#[trigger] sub[j]).0 != sub[i].0);
            }
        }
    }
}

proof fn lemma_name_map_char(s: Seq<(Endpoint, NameType)>)
    ensures
        forall|n: Seq<u8>|
            #[trigger] name_map(s).contains_key(n) == exists|i: int|
                0 <= i < s.len() && (#[trigger] s[i]).1@ == n,
        forall|i: int|
            0 <= i < s.len() && (forall|j: int| i < j < s.len() ==> (#[trigger] s[j]).1@ != s[i].1@)
                ==> name_map(s).contains_key((#[trigger] s[i]).1@) && name_map(s)[s[i].1@]
                == s[i].0,
    decreases s.len(),
{
    if s.len() > 0 {
        lemma_name_map_char(s.drop_last());
        let sub = s.drop_last();
        assert(name_map(s) == name_map(sub).insert(s.last().1@, s.last().0));
        assert forall|n: Seq<u8>| #[trigger] name_map(s).contains_key(n) == exists|i: int|
            0 <= i < s.len() && (#[trigger] s[i]).1@ == n by {
            assert(forall|i: int| 0 <= i < sub.len() ==> #[trigger] sub[i] == s[i]);
            if name_map(s).contains_key(n) {
                if n == s.last().1@ {
                    assert((s[s.len() - 1]).1@ == n);
                } else {
                    assert(name_map(sub).contains_key(n));
                    assert(exists|i: int| 0 <= i < sub.len() && (#[trigger] sub[i]).1@ == n);
                    let i = choose|i: int| 0 <= i < sub.len() && (#[trigger] sub[i]).1@ == n;
                    assert((s[i]).1@ == n);
                }
            }
            if exists|i: int| 0 <= i < s.len() && (#[trigger] s[i]).1@ == n {
                let i = choose|i: int| 0 <= i < s.len() && (#[trigger] s[i]).1@ == n;
                if i < s.len() - 1 {
                    assert((sub[i]).1@ == n);
                    assert(name_map(sub).contains_key(n));
                }
            }
        }
        assert forall|i: int|
            0 <= i < s.len() && (forall|j: int| i < j < s.len() ==> (#[trigger] s[j]).1@
                != s[i].1@) implies name_map(s).contains_key((#[trigger] s[i]).1@) && name_map(
            s,
        )[s[i].1@] == s[i].0 by {
            if i == s.len() - 1 {
            } else {
                assert((s[s.len() - 1]).1@ != s[i].1@);
                assert((sub[i]).1@ == s[i].1@ && sub[i].0 == s[i].0);
                assert(forall|j: int| i < j < sub.len() ==> (#[trigger] sub[j]).1@ != sub[i].1@);
            }
        }
    }
}

/// The registry is a bijection: the two lookup directions are mutual
/// inverses, entry for entry.
pub proof fn lemma_registry_bijection(r: &ConnectionRegistry)
    requires
        r.wf(),
    ensures
        forall|e: Endpoint|
            #[trigger] endpoint_map(r.entries@).contains_key(e) ==> name_map(
                r.entries@,
            ).contains_key(endpoint_map(r.entries@)[e]) && name_map(r.entries@)[endpoint_map(
                r.entries@,
            )[e]] == e,
        forall|n: Seq<u8>|
            #[trigger] name_map(r.entries@).contains_key(n) ==> endpoint_map(
                r.entries@,
            ).contains_key(name_map(r.entries@)[n]) && endpoint_map(r.entries@)[name_map(
                r.entries@,
            )[n]] == n,
{
    let s = r.entries@;
    lemma_endpoint_map_char(s);
    lemma_name_map_char(s);
    assert forall|e: Endpoint| #[trigger] endpoint_map(s).contains_key(e) implies name_map(
        s,
    ).contains_key(endpoint_map(s)[e]) && name_map(s)[endpoint_map(s)[e]] == e by {
        let i = choose|i: int| 0 <= i < s.len() && (#[trigger] s[i]).0 == e;
        assert(forall|j: int| i < j < s.len() ==> (#[trigger] s[j]).0 != s[i].0);
        assert(endpoint_map(s)[e] == s[i].1@);
        assert(forall|j: int| i < j < s.len() ==> (#[trigger] s[j]).1@ != s[i].1@);
    }
    assert forall|n: Seq<u8>| #[trigger] name_map(s).contains_key(n) implies endpoint_map(
        s,
    ).contains_key(name_map(s)[n]) && endpoint_map(s)[name_map(s)[n]] == n by {
        let i = choose|i: int| 0 <= i < s.len() && (#[trigger] s[i]).1@ == n;
        assert(forall|j: int| i < j < s.len() ==> (#[trigger] s[j]).1@ != s[i].1@);
        assert(name_map(s)[n] == s[i].0);
        assert(forall|j: int| i < j < s.len() ==> (#[trigger] s[j]).0 != s[i].0);
    }
}

} // verus!
