use vstd::prelude::*;

verus! {

/// Number of bytes in a `NameType`: overlay addresses are 512 bits wide.
pub const NAME_TYPE_LEN: usize = 64;

/// A fixed-width 512-bit overlay address.
///
/// Equality, XOR distance and `closer_to_target` are the only operations the
/// routing logic needs from an address.
#[derive(Clone, Copy)]
pub struct NameType {
    pub id: [u8; 64],
}

impl View for NameType {
    type V = Seq<u8>;

    open spec fn view(&self) -> Seq<u8> {
        self.id@
    }
}

impl NameType {
    pub fn new(id: [u8; 64]) -> (r: NameType)
        ensures
            r@ == id@,
    {
        NameType { id }
    }

    pub fn get_id(&self) -> (r: [u8; 64])
        ensures
            r@ == self@,
    {
        self.id
    }

    /// Byte-for-byte equality of two addresses.
    pub fn equals(&self, other: &NameType) -> (r: bool)
        ensures
            r == (self@ == other@),
    {
        let mut i: usize = 0;
        while i < 64
            invariant
                0 <= i <= 64,
                forall|j: int| 0 <= j < i ==> self@[j] == other@[j],
            decreases 64 - i,
        {
            if self.id[i] != other.id[i] {
                assert(self@[i as int] != other@[i as int]);
                return false;
            }
            i = i + 1;
        }
        assert(self@ =~= other@);
        true
    }
}

/// `closer_rec(a, b, t, i)` compares the XOR distances of `a` and `b` to the
/// pivot `t` lexicographically, starting at byte `i`.
pub open spec fn closer_rec(a: Seq<u8>, b: Seq<u8>, t: Seq<u8>, i: int) -> bool
    recommends
        a.len() == 64,
        b.len() == 64,
        t.len() == 64,
        0 <= i <= 64,
    decreases 64 - i when 0 <= i <= 64
{
    if i >= 64 {
        false
    } else if (a[i] ^ t[i]) == (b[i] ^ t[i]) {
        closer_rec(a, b, t, i + 1)
    } else {
        (a[i] ^ t[i]) < (b[i] ^ t[i])
    }
}

/// `a` is strictly closer to the pivot `t` than `b` is, in XOR distance.
pub open spec fn closer_to_target_spec(a: Seq<u8>, b: Seq<u8>, t: Seq<u8>) -> bool {
    closer_rec(a, b, t, 0)
}

/// If the first `i` distance bytes agree, the comparison is decided from byte `i` on.
proof fn lemma_closer_rec_skip(a: Seq<u8>, b: Seq<u8>, t: Seq<u8>, i: int)
    requires
        a.len() == 64,
        b.len() == 64,
        t.len() == 64,
        0 <= i <= 64,
        forall|j: int| 0 <= j < i ==> (a[j] ^ t[j]) == (b[j] ^ t[j]),
    ensures
        closer_rec(a, b, t, 0) == closer_rec(a, b, t, i),
    decreases i,
{
    if i > 0 {
        lemma_closer_rec_skip(a, b, t, i - 1);
        assert(closer_rec(a, b, t, i - 1) == closer_rec(a, b, t, i));
    }
}

/// Decide whether `a` is closer to the pivot `t` than `b`, the primitive every
/// routing decision is built on.
pub fn closer_to_target(a: &NameType, b: &NameType, t: &NameType) -> (r: bool)
    ensures
        r == closer_to_target_spec(a@, b@, t@),
{
    let mut i: usize = 0;
    while i < 64
        invariant
            0 <= i <= 64,
            forall|j: int| 0 <= j < i ==> (a@[j] ^ t@[j]) == (b@[j] ^ t@[j]),
        decreases 64 - i,
    {
        let xa = a.id[i] ^ t.id[i];
        let xb = b.id[i] ^ t.id[i];
        if xa != xb {
            proof {
                lemma_closer_rec_skip(a@, b@, t@, i as int);
            }
            return xa < xb;
        }
        i = i + 1;
    }
    proof {
        lemma_closer_rec_skip(a@, b@, t@, 64);
    }
    false
}


/// Bytes with equal XOR against the same key are equal.
proof fn lemma_xor_cancel(x: u8, y: u8, z: u8)
    requires
        (x ^ z) == (y ^ z),
    ensures
        x == y,
{
    assert((x ^ z) == (y ^ z) ==> x == y) by (bit_vector);
}

proof fn lemma_closer_rec_total(a: Seq<u8>, b: Seq<u8>, t: Seq<u8>, i: int)
    requires
        a.len() == 64,
        b.len() == 64,
        t.len() == 64,
        0 <= i <= 64,
    ensures
        closer_rec(a, b, t, i) || closer_rec(b, a, t, i) || (forall|j: int|
            i <= j < 64 ==> a[j] == b[j]),
    decreases 64 - i,
{
    if i < 64 {
        if (a[i] ^ t[i]) == (b[i] ^ t[i]) {
            lemma_xor_cancel(a[i], b[i], t[i]);
            lemma_closer_rec_total(a, b, t, i + 1);
        }
    }
}

proof fn lemma_closer_rec_asymmetric(a: Seq<u8>, b: Seq<u8>, t: Seq<u8>, i: int)
    requires
        a.len() == 64,
        b.len() == 64,
        t.len() == 64,
        0 <= i <= 64,
        closer_rec(a, b, t, i),
    ensures
        !closer_rec(b, a, t, i),
    decreases 64 - i,
{
    if i < 64 {
        if (a[i] ^ t[i]) == (b[i] ^ t[i]) {
            lemma_closer_rec_asymmetric(a, b, t, i + 1);
        }
    }
}

proof fn lemma_closer_rec_transitive(a: Seq<u8>, b: Seq<u8>, c: Seq<u8>, t: Seq<u8>, i: int)
    requires
        a.len() == 64,
        b.len() == 64,
        c.len() == 64,
        t.len() == 64,
        0 <= i <= 64,
        closer_rec(a, b, t, i),
        closer_rec(b, c, t, i),
    ensures
        closer_rec(a, c, t, i),
    decreases 64 - i,
{
    if i < 64 {
        if (a[i] ^ t[i]) == (b[i] ^ t[i]) && (b[i] ^ t[i]) == (c[i] ^ t[i]) {
            lemma_closer_rec_transitive(a, b, c, t, i + 1);
        }
    }
}

/// XOR distance orders any two distinct addresses: one of them is strictly
/// closer to the pivot, never both.
pub proof fn lemma_closer_total(a: Seq<u8>, b: Seq<u8>, t: Seq<u8>)
    requires
        a.len() == 64,
        b.len() == 64,
        t.len() == 64,
        a != b,
    ensures
        closer_to_target_spec(a, b, t) || closer_to_target_spec(b, a, t),
{
    lemma_closer_rec_total(a, b, t, 0);
    if !closer_rec(a, b, t, 0) && !closer_rec(b, a, t, 0) {
        assert(a =~= b);
    }
}

/// At most one of two addresses is strictly closer to the pivot.
pub proof fn lemma_closer_asymmetric(a: Seq<u8>, b: Seq<u8>, t: Seq<u8>)
    requires
        a.len() == 64,
        b.len() == 64,
        t.len() == 64,
        closer_to_target_spec(a, b, t),
    ensures
        !closer_to_target_spec(b, a, t),
        a != b,
{
    lemma_closer_rec_asymmetric(a, b, t, 0);
    if a == b {
        assert(!closer_rec(a, a, t, 0)) by {
            lemma_closer_rec_irreflexive(a, t, 0);
        }
    }
}

proof fn lemma_closer_rec_irreflexive(a: Seq<u8>, t: Seq<u8>, i: int)
    requires
        a.len() == 64,
        t.len() == 64,
        0 <= i <= 64,
    ensures
        !closer_rec(a, a, t, i),
    decreases 64 - i,
{
    if i < 64 {
        lemma_closer_rec_irreflexive(a, t, i + 1);
    }
}

/// No address is strictly closer to the pivot than itself.
pub proof fn lemma_closer_irreflexive(a: Seq<u8>, t: Seq<u8>)
    requires
        a.len() == 64,
        t.len() == 64,
    ensures
        !closer_to_target_spec(a, a, t),
{
    lemma_closer_rec_irreflexive(a, t, 0);
}

/// Strict closeness to a pivot is transitive.
pub proof fn lemma_closer_transitive(a: Seq<u8>, b: Seq<u8>, c: Seq<u8>, t: Seq<u8>)
    requires
        a.len() == 64,
        b.len() == 64,
        c.len() == 64,
        t.len() == 64,
        closer_to_target_spec(a, b, t),
        closer_to_target_spec(b, c, t),
    ensures
        closer_to_target_spec(a, c, t),
{
    lemma_closer_rec_transitive(a, b, c, t, 0);
}

} // verus!
