use vstd::prelude::*;

use crate::name_type::{
    closer_to_target, closer_to_target_spec, lemma_closer_asymmetric, lemma_closer_irreflexive,
    lemma_closer_total, lemma_closer_transitive, NameType,
};
use crate::types::{Endpoint, PublicPmid, PublicPmidV, PublicSignKey};

verus! {

/// Nodes whose close group collectively manages an address.
pub const GROUP_SIZE: usize = 32;

/// The table stops being eager to add peers beyond this size.
pub const OPTIMAL_SIZE: usize = 64;

/// How many peers a swarm send fans out to at most.
pub const PARALLELISM: usize = 4;

/// One peer the table knows: its published identity, the endpoints it can be
/// reached on, and the endpoint we are connected to it on, if any.
pub struct NodeInfo {
    pub fob: PublicPmid,
    pub endpoints: Vec<Endpoint>,
    pub connected_endpoint: Option<Endpoint>,
}

/// Mathematical model of a `NodeInfo`.
#[verifier::ext_equal]
pub ghost struct NodeInfoV {
    pub fob: PublicPmidV,
    pub endpoints: Seq<Endpoint>,
    pub connected_endpoint: Option<Endpoint>,
}

impl View for NodeInfo {
    type V = NodeInfoV;

    open spec fn view(&self) -> NodeInfoV {
        NodeInfoV {
            fob: self.fob@,
            endpoints: self.endpoints@,
            connected_endpoint: self.connected_endpoint,
        }
    }
}

/// The models of a sequence of peers.
pub open spec fn infos_view(v: Seq<NodeInfo>) -> Seq<NodeInfoV> {
    Seq::new(v.len(), |i: int| v[i]@)
}

impl NodeInfo {
    pub fn new(fob: PublicPmid, endpoints: Vec<Endpoint>, connected_endpoint: Option<Endpoint>)
        -> (r: NodeInfo)
        ensures
            r@ == (NodeInfoV { fob: fob@, endpoints: endpoints@, connected_endpoint }),
    {
        NodeInfo { fob, endpoints, connected_endpoint }
    }

    pub fn id(&self) -> (r: NameType)
        ensures
            r@ == self.fob.name@,
    {
        self.fob.name
    }

    /// Field-for-field copy, proved to preserve the model.
    pub fn duplicate(&self) -> (r: NodeInfo)
        ensures
            r@ == self@,
    {
        let mut eps: Vec<Endpoint> = Vec::new();
        let mut i: usize = 0;
        while i < self.endpoints.len()
            invariant
                0 <= i <= self.endpoints@.len(),
                eps@ == self.endpoints@.subrange(0, i as int),
            decreases self.endpoints@.len() - i,
        {
            eps.push(self.endpoints[i]);
            proof {
                assert(eps@ =~= self.endpoints@.subrange(0, i + 1));
            }
            i = i + 1;
        }
        proof {
            assert(eps@ =~= self.endpoints@);
        }
        NodeInfo {
            fob: PublicPmid {
                public_sign_key: PublicSignKey {
                    key: crate::codec::copy_bytes(&self.fob.public_sign_key.key),
                },
                name: self.fob.name,
            },
            endpoints: eps,
            connected_endpoint: self.connected_endpoint,
        }
    }
}

/// The local slice of the overlay: peers kept strictly ordered by XOR
/// distance from this node's own name.
pub struct RoutingTable {
    pub our_id: NameType,
    pub nodes: Vec<NodeInfo>,
}

impl RoutingTable {
    /// The name of peer `i`.
    pub open spec fn name_at(&self, i: int) -> Seq<u8> {
        self.nodes@[i].fob.name@
    }

    pub open spec fn spec_len(&self) -> int {
        self.nodes@.len() as int
    }

    pub open spec fn our_id_spec(&self) -> Seq<u8> {
        self.our_id@
    }

    pub open spec fn nodes_view(&self) -> Seq<NodeInfoV> {
        infos_view(self.nodes@)
    }

    /// The table invariant: peers strictly ordered by closeness to our own
    /// name, and never our own name.  Strict order makes names pairwise
    /// distinct.
    pub open spec fn wf(&self) -> bool {
        &&& forall|i: int, j: int|
            0 <= i < j < self.spec_len() ==> closer_to_target_spec(
                #[trigger] self.name_at(i),
                #[trigger] self.name_at(j),
                self.our_id@,
            )
        &&& forall|i: int| 0 <= i < self.spec_len() ==> #[trigger] self.name_at(i) != self.our_id@
    }

    /// Whether some peer carries this name.
    pub open spec fn contains_name(&self, n: Seq<u8>) -> bool {
        exists|i: int| 0 <= i < self.spec_len() && #[trigger] self.name_at(i) == n
    }

    /// An address is in range of our close group: always, while the table is
    /// smaller than a group; else when it is closer to us than the furthest
    /// close-group member.
    pub open spec fn in_close_group_range(&self, a: Seq<u8>) -> bool {
        if self.spec_len() < GROUP_SIZE {
            true
        } else {
            closer_to_target_spec(a, self.name_at(GROUP_SIZE - 1), self.our_id@)
        }
    }

    pub fn new(our_id: NameType) -> (r: RoutingTable)
        ensures
            r.wf(),
            r.spec_len() == 0,
            r.our_id_spec() == our_id@,
    {
        RoutingTable { our_id, nodes: Vec::new() }
    }

    pub fn get_group_size() -> (r: usize)
        ensures
            r == GROUP_SIZE,
    {
        GROUP_SIZE
    }

    pub fn get_optimal_size() -> (r: usize)
        ensures
            r == OPTIMAL_SIZE,
    {
        OPTIMAL_SIZE
    }

    pub fn size(&self) -> (r: usize)
        ensures
            r == self.spec_len(),
    {
        self.nodes.len()
    }

    /// Whether the table holds a peer of this name.
    pub fn has_node(&self, n: &NameType) -> (r: bool)
        ensures
            r == self.contains_name(n@),
    {
        let mut i: usize = 0;
        while i < self.nodes.len()
            invariant
                0 <= i <= self.spec_len(),
                forall|j: int| 0 <= j < i ==> #[trigger] self.name_at(j) != n@,
            decreases self.spec_len() - i,
        {
            if self.nodes[i].fob.name.equals(n) {
                proof {
                    assert(self.name_at(i as int) == n@);
                }
                return true;
            }
            i = i + 1;
        }
        false
    }

    /// Whether we would accept this peer: it is not us and not yet known.
    pub fn check_node(&self, n: &NameType) -> (r: bool)
        ensures
            r == (n@ != self.our_id@ && !self.contains_name(n@)),
    {
        if self.our_id.equals(n) {
            return false;
        }
        !self.has_node(n)
    }

    /// Add a peer, keeping the order.  A peer carrying our own name or one
    /// already present is rejected; nothing is ever evicted.
    pub fn add_node(&mut self, info: NodeInfo) -> (r: (bool, Option<NodeInfo>))
        requires
            old(self).wf(),
        ensures
            final(self).wf(),
            final(self).our_id_spec() == old(self).our_id_spec(),
            r.1 is None,
            r.0 == (info.fob.name@ != old(self).our_id@ && !old(self).contains_name(
                info.fob.name@,
            )),
            !r.0 ==> *final(self) == *old(self),
            r.0 ==> exists|k: int|
                0 <= k <= old(self).spec_len() && final(self).nodes@ == old(self).nodes@.insert(
                    k,
                    info,
                ),
            forall|x: Seq<u8>|
                #[trigger] final(self).contains_name(x) == (old(self).contains_name(x) || (r.0 && x
                    == info.fob.name@)),
    {
        let nn = info.id();
        if self.our_id.equals(&nn) {
            proof {
                assert(forall|x: Seq<u8>|
                    #[trigger] final(self).contains_name(x) == old(self).contains_name(x));
            }
            return (false, None);
        }
        if self.has_node(&nn) {
            return (false, None);
        }
        // find the first peer the newcomer is closer than
        let mut pos: usize = 0;
        let mut searching: bool = true;
        while searching && pos < self.nodes.len()
            invariant
                old(self) == self,
                self.wf(),
                nn@ == info.fob.name@,
                nn@ != self.our_id@,
                !self.contains_name(nn@),
                0 <= pos <= self.spec_len(),
                forall|j: int|
                    0 <= j < pos ==> closer_to_target_spec(
                        #[trigger] self.name_at(j),
                        nn@,
                        self.our_id@,
                    ),
                !searching ==> pos < self.spec_len() && closer_to_target_spec(
                    nn@,
                    self.name_at(pos as int),
                    self.our_id@,
                ),
            decreases self.spec_len() - pos + (if searching { 1int } else { 0int }),
        {
            if closer_to_target(&nn, &self.nodes[pos].fob.name, &self.our_id) {
                searching = false;
            } else {
                proof {
                    assert(self.name_at(pos as int) != nn@);
                    lemma_closer_total(self.name_at(pos as int), nn@, self.our_id@);
                }
                pos = pos + 1;
            }
        }
        proof {
            if pos < self.spec_len() {
                assert(closer_to_target_spec(nn@, self.name_at(pos as int), self.our_id@));
            }
        }
        let ghost oldnodes = self.nodes@;
        let ghost p = pos as int;
        self.nodes.insert(pos, info);
        proof {
            let newnodes = self.nodes@;
            assert(newnodes == oldnodes.insert(p, info));
            // strict order is preserved around the insertion point
            assert forall|i: int, j: int| 0 <= i < j < newnodes.len() implies closer_to_target_spec(
                #[trigger] self.name_at(i),
                #[trigger] self.name_at(j),
                self.our_id@,
            ) by {
                let t = self.our_id@;
                if i < p && j < p {
                    assert(old(self).name_at(i) == self.name_at(i));
                    assert(old(self).name_at(j) == self.name_at(j));
                } else if i < p && j == p {
                    assert(self.name_at(j) == nn@);
                    assert(self.name_at(i) == old(self).name_at(i));
                } else if i < p && j > p {
                    assert(self.name_at(i) == old(self).name_at(i));
                    assert(self.name_at(j) == old(self).name_at(j - 1));
                } else if i == p && j > p {
                    assert(self.name_at(i) == nn@);
                    assert(self.name_at(j) == old(self).name_at(j - 1));
                    if j - 1 == p {
                        assert(closer_to_target_spec(nn@, old(self).name_at(p), t));
                    } else {
                        assert(closer_to_target_spec(nn@, old(self).name_at(p), t));
                        assert(closer_to_target_spec(
                            old(self).name_at(p),
                            old(self).name_at(j - 1),
                            t,
                        ));
                        lemma_closer_transitive(
                            nn@,
                            old(self).name_at(p),
                            old(self).name_at(j - 1),
                            t,
                        );
                    }
                } else {
                    assert(i > p && j > p);
                    assert(self.name_at(i) == old(self).name_at(i - 1));
                    assert(self.name_at(j) == old(self).name_at(j - 1));
                }
            }
            assert forall|i: int| 0 <= i < self.spec_len() implies #[trigger] self.name_at(i)
                != self.our_id@ by {
                if i < p {
                    assert(self.name_at(i) == old(self).name_at(i));
                } else if i == p {
                } else {
                    assert(self.name_at(i) == old(self).name_at(i - 1));
                }
            }
            // membership after insertion
            assert forall|x: Seq<u8>| #[trigger] final(self).contains_name(x) == (old(
                self,
            ).contains_name(x) || x == info.fob.name@) by {
                if final(self).contains_name(x) {
                    let i = choose|i: int|
                        0 <= i < final(self).spec_len() && #[trigger] final(self).name_at(i) == x;
                    if i < p {
                        assert(old(self).name_at(i) == x);
                    } else if i == p {
                    } else {
                        assert(old(self).name_at(i - 1) == x);
                    }
                }
                if old(self).contains_name(x) {
                    let i = choose|i: int|
                        0 <= i < old(self).spec_len() && #[trigger] old(self).name_at(i) == x;
                    if i < p {
                        assert(final(self).name_at(i) == x);
                    } else {
                        assert(final(self).name_at(i + 1) == x);
                    }
                }
                if x == info.fob.name@ {
                    assert(final(self).name_at(p) == x);
                }
            }
        }
        (true, None)
    }

    /// Drop the peer of this name, if present.
    pub fn drop_node(&mut self, n: &NameType)
        requires
            old(self).wf(),
        ensures
            final(self).wf(),
            final(self).our_id_spec() == old(self).our_id_spec(),
            !final(self).contains_name(n@),
            !old(self).contains_name(n@) ==> *final(self) == *old(self),
            old(self).contains_name(n@) ==> exists|k: int|
                0 <= k < old(self).spec_len() && old(self).name_at(k) == n@ && final(self).nodes@
                    == old(self).nodes@.remove(k),
            forall|x: Seq<u8>|
                x != n@ ==> #[trigger] final(self).contains_name(x) == old(self).contains_name(x),
    {
        let mut i: usize = 0;
        while i < self.nodes.len()
            invariant
                old(self) == self,
                self.wf(),
                0 <= i <= self.spec_len(),
                forall|j: int| 0 <= j < i ==> #[trigger] self.name_at(j) != n@,
            decreases self.spec_len() - i,
        {
            if self.nodes[i].fob.name.equals(n) {
                let ghost oldnodes = self.nodes@;
                let ghost k = i as int;
                self.nodes.remove(i);
                proof {
                    assert(self.nodes@ == oldnodes.remove(k));
                    assert forall|a: int, b: int|
                        0 <= a < b < self.spec_len() implies closer_to_target_spec(
                        #[trigger] self.name_at(a),
                        #[trigger] self.name_at(b),
                        self.our_id@,
                    ) by {
                        let a0 = if a < k { a } else { a + 1 };
                        let b0 = if b < k { b } else { b + 1 };
                        assert(self.name_at(a) == old(self).name_at(a0));
                        assert(self.name_at(b) == old(self).name_at(b0));
                    }
                    assert forall|a: int| 0 <= a < self.spec_len() implies #[trigger] self.name_at(
                        a,
                    ) != self.our_id@ by {
                        let a0 = if a < k { a } else { a + 1 };
                        assert(self.name_at(a) == old(self).name_at(a0));
                    }
                    // the removed name is gone: it occurred only at k
                    assert forall|a: int| 0 <= a < self.spec_len() implies #[trigger] self.name_at(
                        a,
                    ) != n@ by {
                        let a0 = if a < k { a } else { a + 1 };
                        assert(self.name_at(a) == old(self).name_at(a0));
                        if a0 != k {
                            if a0 < k {
                                lemma_closer_asymmetric(
                                    old(self).name_at(a0),
                                    old(self).name_at(k),
                                    self.our_id@,
                                );
                            } else {
                                lemma_closer_asymmetric(
                                    old(self).name_at(k),
                                    old(self).name_at(a0),
                                    self.our_id@,
                                );
                            }
                        }
                    }
                    assert forall|x: Seq<u8>|
                        x != n@ implies #[trigger] final(self).contains_name(x) == old(
                        self,
                    ).contains_name(x) by {
                        if final(self).contains_name(x) {
                            let a = choose|a: int|
                                0 <= a < final(self).spec_len() && #[trigger] final(self).name_at(a)
                                    == x;
                            let a0 = if a < k { a } else { a + 1 };
                            assert(old(self).name_at(a0) == x);
                        }
                        if old(self).contains_name(x) {
                            let a = choose|a: int|
                                0 <= a < old(self).spec_len() && #[trigger] old(self).name_at(a)
                                    == x;
                            if a < k {
                                assert(final(self).name_at(a) == x);
                            } else if a > k {
                                assert(final(self).name_at(a - 1) == x);
                            }
                        }
                    }
                    assert(old(self).name_at(k) == n@);
                    assert(old(self).contains_name(n@));
                }
                return ;
            }
            i = i + 1;
        }
    }

    /// Record that a listed endpoint of some peer is now live.  Returns
    /// whether any peer had listed it.
    pub fn mark_as_connected(&mut self, ep: &Endpoint) -> (r: bool)
        requires
            old(self).wf(),
        ensures
            final(self).wf(),
            final(self).our_id_spec() == old(self).our_id_spec(),
            final(self).spec_len() == old(self).spec_len(),
            forall|i: int|
                0 <= i < final(self).spec_len() ==> #[trigger] final(self).name_at(i) == old(
                    self,
                ).name_at(i),
            forall|x: Seq<u8>|
                #[trigger] final(self).contains_name(x) == old(self).contains_name(x),
            r == exists|i: int|
                0 <= i < old(self).spec_len() && #[trigger] old(
                    self,
                ).nodes_view()[i].endpoints.contains(*ep),
            r ==> exists|i: int|
                {
                    &&& 0 <= i < old(self).spec_len()
                    &&& #[trigger] old(self).nodes_view()[i].endpoints.contains(*ep)
                    &&& final(self).nodes_view() == old(self).nodes_view().update(
                        i,
                        NodeInfoV {
                            connected_endpoint: Some(*ep),
                            ..old(self).nodes_view()[i]
                        },
                    )
                },
            !r ==> *final(self) == *old(self),
    {
        let mut i: usize = 0;
        while i < self.nodes.len()
            invariant
                old(self) == self,
                self.wf(),
                0 <= i <= self.spec_len(),
                forall|j: int|
                    0 <= j < i ==> !#[trigger] self.nodes_view()[j].endpoints.contains(*ep),
            decreases self.spec_len() - i,
        {
            let mut found: bool = false;
            let mut k: usize = 0;
            while k < self.nodes[i].endpoints.len()
                invariant
                    old(self) == self,
                    0 <= i < self.spec_len(),
                    0 <= k <= self.nodes@[i as int].endpoints@.len(),
                    found == exists|m: int|
                        0 <= m < k && #[trigger] self.nodes@[i as int].endpoints@[m] == *ep,
                decreases self.nodes@[i as int].endpoints@.len() - k,
            {
                if self.nodes[i].endpoints[k] == *ep {
                    found = true;
                }
                k = k + 1;
            }
            if found {
                let picked = self.nodes[i].duplicate();
                let replacement = NodeInfo {
                    fob: picked.fob,
                    endpoints: picked.endpoints,
                    connected_endpoint: Some(*ep),
                };
                let ghost oldnodes = self.nodes@;
                let ghost kk = i as int;
                self.nodes.remove(i);
                self.nodes.insert(i, replacement);
                proof {
                    assert(self.nodes@ =~= oldnodes.update(kk, replacement));
                    assert(final(self).nodes_view() =~~= old(self).nodes_view().update(
                        kk,
                        NodeInfoV {
                            connected_endpoint: Some(*ep),
                            ..old(self).nodes_view()[kk]
                        },
                    ));
                    assert forall|a: int, b: int|
                        0 <= a < b < self.spec_len() implies closer_to_target_spec(
                        #[trigger] self.name_at(a),
                        #[trigger] self.name_at(b),
                        self.our_id@,
                    ) by {
                        assert(self.name_at(a) == old(self).name_at(a));
                        assert(self.name_at(b) == old(self).name_at(b));
                    }
                    assert forall|a: int| 0 <= a < self.spec_len() implies #[trigger] self.name_at(
                        a,
                    ) != self.our_id@ by {
                        assert(self.name_at(a) == old(self).name_at(a));
                    }
                    assert(old(self).nodes_view()[kk].endpoints.contains(*ep));
                    assert(forall|a: int|
                        0 <= a < self.spec_len() ==> #[trigger] self.name_at(a) == old(
                            self,
                        ).name_at(a));
                    assert forall|x: Seq<u8>| #[trigger] final(self).contains_name(x) == old(
                        self,
                    ).contains_name(x) by {
                        if final(self).contains_name(x) {
                            let a = choose|a: int|
                                0 <= a < final(self).spec_len() && #[trigger] final(self).name_at(a)
                                    == x;
                            assert(old(self).name_at(a) == x);
                        }
                        if old(self).contains_name(x) {
                            let a = choose|a: int|
                                0 <= a < old(self).spec_len() && #[trigger] old(self).name_at(a)
                                    == x;
                            assert(final(self).name_at(a) == x);
                        }
                    }
                }
                return true;
            }
            i = i + 1;
        }
        false
    }

    /// Our close group: the `GROUP_SIZE` peers nearest to us, fewer while the
    /// table is small.
    pub fn our_close_group(&self) -> (r: Vec<NodeInfo>)
        ensures
            r@.len() == if self.spec_len() < GROUP_SIZE {
                self.spec_len()
            } else {
                GROUP_SIZE as int
            },
            forall|i: int| 0 <= i < r@.len() ==> #[trigger] r@[i]@ == self.nodes_view()[i],
    {
        let count = if self.nodes.len() < GROUP_SIZE {
            self.nodes.len()
        } else {
            GROUP_SIZE
        };
        let mut r: Vec<NodeInfo> = Vec::new();
        let mut i: usize = 0;
        while i < count
            invariant
                count == if self.spec_len() < GROUP_SIZE {
                    self.spec_len()
                } else {
                    GROUP_SIZE as int
                },
                0 <= i <= count,
                r@.len() == i,
                forall|j: int| 0 <= j < i ==> #[trigger] r@[j]@ == self.nodes_view()[j],
            decreases count - i,
        {
            r.push(self.nodes[i].duplicate());
            i = i + 1;
        }
        r
    }

    pub fn address_in_our_close_group_range(&self, a: &NameType) -> (r: bool)
        ensures
            r == self.in_close_group_range(a@),
    {
        if self.nodes.len() < GROUP_SIZE {
            return true;
        }
        closer_to_target(a, &self.nodes[GROUP_SIZE - 1].fob.name, &self.our_id)
    }

    /// The peers a message toward `target` fans out to: up to `PARALLELISM`
    /// table entries, none of which is further from the target than any peer
    /// left behind.
    pub fn target_nodes(&self, target: &NameType) -> (r: Vec<NodeInfo>)
        requires
            self.wf(),
        ensures
            r@.len() == if self.spec_len() < PARALLELISM {
                self.spec_len()
            } else {
                PARALLELISM as int
            },
            forall|i: int| #![trigger r@[i]@] 0 <= i < r@.len() ==> table_entry(self, r@[i]@),
            forall|i: int, j: int|
                #![trigger closer_to_target_spec(self.name_at(j), r@[i]@.fob.name, target@)]
                0 <= i < r@.len() && 0 <= j < self.spec_len() && none_picked(
                    self,
                    r@,
                    r@.len() as int,
                    j,
                ) ==> !closer_to_target_spec(self.name_at(j), r@[i]@.fob.name, target@),
    {
        let count = if self.nodes.len() < PARALLELISM {
            self.nodes.len()
        } else {
            PARALLELISM
        };
        let mut picked: Vec<NodeInfo> = Vec::new();
        let mut round: usize = 0;
        while round < count
            invariant
                self.wf(),
                count == if self.spec_len() < PARALLELISM {
                    self.spec_len()
                } else {
                    PARALLELISM as int
                },
                count <= self.spec_len(),
                0 <= round <= count,
                picked@.len() == round,
                forall|i: int|
                    #![trigger picked@[i]@]
                    0 <= i < round ==> table_entry(self, picked@[i]@),
                forall|i: int, j: int|
                    #![trigger closer_to_target_spec(self.name_at(j), picked@[i]@.fob.name, target@)]
                    0 <= i < round && 0 <= j < self.spec_len() && none_picked(
                        self,
                        picked@,
                        round as int,
                        j,
                    ) ==> !closer_to_target_spec(self.name_at(j), picked@[i]@.fob.name, target@),
            decreases count - round,
        {
            // pick the unpicked peer closest to the target
            let mut best: usize = self.nodes.len();
            let mut scan: usize = 0;
            while scan < self.nodes.len()
                invariant
                    self.wf(),
                    picked@.len() == round,
                    round < count <= self.spec_len(),
                    0 <= scan <= self.spec_len(),
                    best <= self.spec_len(),
                    best == self.spec_len() ==> forall|j: int|
                        0 <= j < scan ==> #[trigger] covered_by(self, picked@, round as int, j),
                    best < self.spec_len() ==> {
                        &&& none_picked(self, picked@, round as int, best as int)
                        &&& forall|j: int|
                            0 <= j < scan && #[trigger] none_picked(self, picked@, round as int, j)
                                ==> !closer_to_target_spec(
                                self.name_at(j),
                                self.name_at(best as int),
                                target@,
                            )
                    },
                decreases self.spec_len() - scan,
            {
                // is the scanned peer already picked?
                let mut taken: bool = false;
                let mut m: usize = 0;
                while m < picked.len()
                    invariant
                        picked@.len() == round,
                        0 <= scan < self.spec_len(),
                        0 <= m <= round,
                        taken == exists|q: int|
                            0 <= q < m && #[trigger] picked@[q]@.fob.name == self.name_at(
                                scan as int,
                            ),
                    decreases picked@.len() - m,
                {
                    if picked[m].fob.name.equals(&self.nodes[scan].fob.name) {
                        proof {
                            assert(picked@[m as int]@.fob.name == self.name_at(scan as int));
                        }
                        taken = true;
                    }
                    m = m + 1;
                }
                if taken {
                    proof {
                        assert(covered_by(self, picked@, round as int, scan as int));
                    }
                } else {
                    proof {
                        assert(none_picked(self, picked@, round as int, scan as int));
                    }
                    if best == self.nodes.len() {
                        proof {
                            lemma_closer_irreflexive(self.name_at(scan as int), target@);
                            assert forall|j: int|
                                0 <= j < scan + 1 && #[trigger] none_picked(
                                    self,
                                    picked@,
                                    round as int,
                                    j,
                                ) implies !closer_to_target_spec(
                                self.name_at(j),
                                self.name_at(scan as int),
                                target@,
                            ) by {
                                if j < scan {
                                    assert(covered_by(self, picked@, round as int, j));
                                    let q = choose|q: int|
                                        0 <= q < round && #[trigger] picked@[q]@.fob.name
                                            == self.name_at(j);
                                    assert(picked@[q]@.fob.name != self.name_at(j));
                                }
                            }
                        }
                        best = scan;
                    } else if closer_to_target(
                        &self.nodes[scan].fob.name,
                        &self.nodes[best].fob.name,
                        target,
                    ) {
                        proof {
                            lemma_closer_irreflexive(self.name_at(scan as int), target@);
                            assert forall|j: int|
                                0 <= j < scan + 1 && #[trigger] none_picked(
                                    self,
                                    picked@,
                                    round as int,
                                    j,
                                ) implies !closer_to_target_spec(
                                self.name_at(j),
                                self.name_at(scan as int),
                                target@,
                            ) by {
                                if j < scan {
                                    if closer_to_target_spec(
                                        self.name_at(j),
                                        self.name_at(scan as int),
                                        target@,
                                    ) {
                                        lemma_closer_transitive(
                                            self.name_at(j),
                                            self.name_at(scan as int),
                                            self.name_at(best as int),
                                            target@,
                                        );
                                    }
                                }
                            }
                        }
                        best = scan;
                    }
                }
                scan = scan + 1;
            }
            proof {
                // fewer peers are picked than the table holds, so a
                // candidate was always found
                if best == self.spec_len() {
                    lemma_covered_bound(self, picked@, round as int);
                }
            }
            let chosen = self.nodes[best].duplicate();
            let ghost prepicked = picked@;
            picked.push(chosen);
            proof {
                assert(picked@ == prepicked.push(chosen));
                assert(forall|m: int| 0 <= m < round ==> #[trigger] picked@[m] == prepicked[m]);
                assert(picked@[round as int]@ == self.nodes_view()[best as int]);
                assert forall|i: int| #![trigger picked@[i]@] 0 <= i < round + 1 implies table_entry(
                    self,
                    picked@[i]@,
                ) by {
                    if i == round {
                        assert(self.nodes_view()[best as int] == picked@[i]@);
                    } else {
                        assert(picked@[i]@ == prepicked[i]@);
                        assert(table_entry(self, prepicked[i]@));
                    }
                }
                assert forall|i: int, j: int|
                    #![trigger closer_to_target_spec(self.name_at(j), picked@[i]@.fob.name, target@)]
                    0 <= i < round + 1 && 0 <= j < self.spec_len() && none_picked(
                        self,
                        picked@,
                        (round + 1) as int,
                        j,
                    ) implies !closer_to_target_spec(
                    self.name_at(j),
                    picked@[i]@.fob.name,
                    target@,
                ) by {
                    assert forall|m: int|
                        0 <= m < round implies #[trigger] prepicked[m]@.fob.name != self.name_at(
                        j,
                    ) by {
                        assert(picked@[m]@.fob.name != self.name_at(j));
                    }
                    assert(none_picked(self, prepicked, round as int, j));
                    if i == round {
                        assert(picked@[i]@.fob.name == self.name_at(best as int));
                    } else {
                        assert(picked@[i]@.fob.name == prepicked[i]@.fob.name);
                        assert(!closer_to_target_spec(
                            self.name_at(j),
                            prepicked[i]@.fob.name,
                            target@,
                        ));
                    }
                }
            }
            round = round + 1;
        }
        picked
    }
}

/// `v` is the model of some table entry.
pub open spec fn table_entry(t: &RoutingTable, v: NodeInfoV) -> bool {
    exists|j: int| 0 <= j < t.spec_len() && #[trigger] t.nodes_view()[j] == v
}

/// The first `n` picked peers include the table name at `j`.
pub open spec fn covered_by(t: &RoutingTable, picked: Seq<NodeInfo>, n: int, j: int) -> bool {
    exists|m: int| 0 <= m < n && #[trigger] picked[m]@.fob.name == t.name_at(j)
}

/// None of the first `n` picked peers carries the table name at `j`.
pub open spec fn none_picked(t: &RoutingTable, picked: Seq<NodeInfo>, n: int, j: int) -> bool {
    forall|m: int| 0 <= m < n ==> #[trigger] picked[m]@.fob.name != t.name_at(j)
}

/// A picked list that covers every table name is at least as long as the
/// table: distinct table names cannot share a picked slot.
proof fn lemma_covered_bound(t: &RoutingTable, picked: Seq<NodeInfo>, round: int)
    requires
        t.wf(),
        0 <= round,
        picked.len() == round,
        forall|j: int| 0 <= j < t.spec_len() ==> #[trigger] covered_by(t, picked, round, j),
    ensures
        t.spec_len() <= round,
{
    let f = |j: int|
        choose|m: int| 0 <= m < round && #[trigger] picked[m]@.fob.name == t.name_at(j);
    assert forall|j: int| 0 <= j < t.spec_len() implies 0 <= #[trigger] f(j) < round
        && picked[f(j)]@.fob.name == t.name_at(j) by {
        assert(covered_by(t, picked, round, j));
    }
    // distinct table names cannot share a picked slot
    assert forall|a: int, b: int| 0 <= a < b < t.spec_len() implies #[trigger] f(a) != #[trigger] f(
        b,
    ) by {
        if f(a) == f(b) {
            assert(t.name_at(a) == t.name_at(b));
            lemma_closer_asymmetric(t.name_at(a), t.name_at(b), t.our_id@);
        }
    }
    lemma_injective_card(f, t.spec_len(), round);
}

/// An injective map from `0..n` into `0..m` gives `n <= m`.
proof fn lemma_injective_card(f: spec_fn(int) -> int, n: int, m: int)
    requires
        0 <= n,
        0 <= m,
        forall|j: int| 0 <= j < n ==> 0 <= #[trigger] f(j) < m,
        forall|a: int, b: int| 0 <= a < b < n ==> #[trigger] f(a) != #[trigger] f(b),
    ensures
        n <= m,
    decreases n,
{
    if n > 0 {
        let last = f(n - 1);
        let g = |j: int|
            if f(j) < last {
                f(j)
            } else {
                f(j) - 1
            };
        assert forall|j: int| 0 <= j < n - 1 implies 0 <= #[trigger] g(j) < m - 1 by {
            assert(f(j) != last);
        }
        assert forall|a: int, b: int| 0 <= a < b < n - 1 implies #[trigger] g(a) != #[trigger] g(
            b,
        ) by {
            assert(f(a) != last && f(b) != last && f(a) != f(b));
        }
        lemma_injective_card(g, n - 1, m - 1);
    }
}

} // verus!
