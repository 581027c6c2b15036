use vstd::prelude::*;

use crate::name_type::NameType;
use crate::types::{Authority, Endpoint};
use crate::messages::MessageTypeTag;

verus! {

// ---------------------------------------------------------------------------
// The wire format.
//
// Every frame and body is a flat big-endian byte string:
//   * fixed-width integers are written big-endian;
//   * a name is its 64 raw bytes;
//   * a byte string is an 8-byte length followed by the bytes;
//   * an optional name is a presence byte, then the name if present;
//   * enums are a single tag byte;
//   * lists are an 8-byte count followed by the elements.
//
// Each `spec` encoder below has a matching `spec` parser working at an
// absolute offset, an executable encoder and decoder proved exact against
// them, and a lemma showing the parser inverts the encoder.
// ---------------------------------------------------------------------------

/// Byte-for-byte copy of a byte vector.
pub fn copy_bytes(v: &Vec<u8>) -> (r: Vec<u8>)
    ensures
        r@ == v@,
{
    let r = v.clone();
    proof {
        assert(r@ =~= v@);
    }
    r
}

// --------------------------- spec encoders --------------------------------

pub open spec fn enc_u8(x: u8) -> Seq<u8> {
    seq![x]
}

pub open spec fn enc_u16(x: u16) -> Seq<u8> {
    seq![((x >> 8) & 0xff) as u8, (x & 0xff) as u8]
}

pub open spec fn enc_u32(x: u32) -> Seq<u8> {
    seq![
        ((x >> 24) & 0xff) as u8,
        ((x >> 16) & 0xff) as u8,
        ((x >> 8) & 0xff) as u8,
        (x & 0xff) as u8,
    ]
}

pub open spec fn enc_u64(x: u64) -> Seq<u8> {
    seq![
        ((x >> 56) & 0xff) as u8,
        ((x >> 48) & 0xff) as u8,
        ((x >> 40) & 0xff) as u8,
        ((x >> 32) & 0xff) as u8,
        ((x >> 24) & 0xff) as u8,
        ((x >> 16) & 0xff) as u8,
        ((x >> 8) & 0xff) as u8,
        (x & 0xff) as u8,
    ]
}

/// A name is written as its raw bytes; it always has 64 of them.
pub open spec fn enc_name(n: Seq<u8>) -> Seq<u8> {
    n
}

pub open spec fn enc_bytes(b: Seq<u8>) -> Seq<u8> {
    enc_u64(b.len() as u64) + b
}

pub open spec fn enc_opt_name(o: Option<Seq<u8>>) -> Seq<u8> {
    match o {
        Option::Some(n) => seq![1u8] + n,
        Option::None => seq![0u8],
    }
}

pub open spec fn authority_tag(a: Authority) -> u8 {
    match a {
        Authority::ClientManager => 0,
        Authority::NaeManager => 1,
        Authority::NodeManager => 2,
        Authority::ManagedNode => 3,
        Authority::Client => 4,
        Authority::Unknown => 5,
    }
}

pub open spec fn enc_authority(a: Authority) -> Seq<u8> {
    seq![authority_tag(a)]
}

pub open spec fn message_type_tag(t: MessageTypeTag) -> u8 {
    match t {
        MessageTypeTag::BootstrapIdRequest => 0,
        MessageTypeTag::BootstrapIdResponse => 1,
        MessageTypeTag::ConnectRequest => 2,
        MessageTypeTag::ConnectResponse => 3,
        MessageTypeTag::FindGroup => 4,
        MessageTypeTag::FindGroupResponse => 5,
        MessageTypeTag::GetData => 6,
        MessageTypeTag::GetDataResponse => 7,
        MessageTypeTag::GetGroupKey => 8,
        MessageTypeTag::GetGroupKeyResponse => 9,
        MessageTypeTag::GetKey => 10,
        MessageTypeTag::GetKeyResponse => 11,
        MessageTypeTag::Post => 12,
        MessageTypeTag::PostResponse => 13,
        MessageTypeTag::PutData => 14,
        MessageTypeTag::PutDataResponse => 15,
        MessageTypeTag::PutPublicPmid => 16,
        MessageTypeTag::UnauthorisedPut => 17,
    }
}

pub open spec fn enc_message_type(t: MessageTypeTag) -> Seq<u8> {
    seq![message_type_tag(t)]
}

pub open spec fn enc_endpoint(e: Endpoint) -> Seq<u8> {
    enc_u32(e.ip) + enc_u16(e.port)
}

// --------------------------- spec parsers ----------------------------------

pub open spec fn parse_u8(s: Seq<u8>, i: int) -> Option<(u8, int)> {
    if 0 <= i && i + 1 <= s.len() {
        Option::Some((s[i], 1int))
    } else {
        Option::None
    }
}

pub open spec fn combine_u16(b0: u8, b1: u8) -> u16 {
    (((b0 as u16) << 8) | (b1 as u16)) as u16
}

pub open spec fn parse_u16(s: Seq<u8>, i: int) -> Option<(u16, int)> {
    if 0 <= i && i + 2 <= s.len() {
        Option::Some((combine_u16(s[i], s[i + 1]), 2int))
    } else {
        Option::None
    }
}

pub open spec fn combine_u32(b0: u8, b1: u8, b2: u8, b3: u8) -> u32 {
    (((b0 as u32) << 24) | ((b1 as u32) << 16) | ((b2 as u32) << 8) | (b3 as u32)) as u32
}

pub open spec fn parse_u32(s: Seq<u8>, i: int) -> Option<(u32, int)> {
    if 0 <= i && i + 4 <= s.len() {
        Option::Some((combine_u32(s[i], s[i + 1], s[i + 2], s[i + 3]), 4int))
    } else {
        Option::None
    }
}

pub open spec fn combine_u64(b0: u8, b1: u8, b2: u8, b3: u8, b4: u8, b5: u8, b6: u8, b7: u8) -> u64 {
    (((b0 as u64) << 56) | ((b1 as u64) << 48) | ((b2 as u64) << 40) | ((b3 as u64) << 32)
        | ((b4 as u64) << 24) | ((b5 as u64) << 16) | ((b6 as u64) << 8) | (b7 as u64)) as u64
}

pub open spec fn parse_u64(s: Seq<u8>, i: int) -> Option<(u64, int)> {
    if 0 <= i && i + 8 <= s.len() {
        Option::Some(
            (
                combine_u64(
                    s[i],
                    s[i + 1],
                    s[i + 2],
                    s[i + 3],
                    s[i + 4],
                    s[i + 5],
                    s[i + 6],
                    s[i + 7],
                ),
                8int,
            ),
        )
    } else {
        Option::None
    }
}

pub open spec fn parse_name(s: Seq<u8>, i: int) -> Option<(Seq<u8>, int)> {
    if 0 <= i && i + 64 <= s.len() {
        Option::Some((s.subrange(i, i + 64), 64int))
    } else {
        Option::None
    }
}

pub open spec fn parse_bytes(s: Seq<u8>, i: int) -> Option<(Seq<u8>, int)> {
    match parse_u64(s, i) {
        Option::Some((n, _)) => {
            if i + 8 + n <= s.len() {
                Option::Some((s.subrange(i + 8, i + 8 + n), 8 + n))
            } else {
                Option::None
            }
        },
        Option::None => Option::None,
    }
}

pub open spec fn parse_opt_name(s: Seq<u8>, i: int) -> Option<(Option<Seq<u8>>, int)> {
    match parse_u8(s, i) {
        Option::Some((t, _)) => {
            if t == 0 {
                Option::Some((Option::None, 1int))
            } else if t == 1 {
                match parse_name(s, i + 1) {
                    Option::Some((n, _)) => Option::Some((Option::Some(n), 65int)),
                    Option::None => Option::None,
                }
            } else {
                Option::None
            }
        },
        Option::None => Option::None,
    }
}

pub open spec fn authority_of_tag(t: u8) -> Option<Authority> {
    if t == 0 {
        Option::Some(Authority::ClientManager)
    } else if t == 1 {
        Option::Some(Authority::NaeManager)
    } else if t == 2 {
        Option::Some(Authority::NodeManager)
    } else if t == 3 {
        Option::Some(Authority::ManagedNode)
    } else if t == 4 {
        Option::Some(Authority::Client)
    } else if t == 5 {
        Option::Some(Authority::Unknown)
    } else {
        Option::None
    }
}

pub open spec fn parse_authority(s: Seq<u8>, i: int) -> Option<(Authority, int)> {
    match parse_u8(s, i) {
        Option::Some((t, _)) => match authority_of_tag(t) {
            Option::Some(a) => Option::Some((a, 1int)),
            Option::None => Option::None,
        },
        Option::None => Option::None,
    }
}

pub open spec fn message_type_of_tag(t: u8) -> Option<MessageTypeTag> {
    if t == 0 {
        Option::Some(MessageTypeTag::BootstrapIdRequest)
    } else if t == 1 {
        Option::Some(MessageTypeTag::BootstrapIdResponse)
    } else if t == 2 {
        Option::Some(MessageTypeTag::ConnectRequest)
    } else if t == 3 {
        Option::Some(MessageTypeTag::ConnectResponse)
    } else if t == 4 {
        Option::Some(MessageTypeTag::FindGroup)
    } else if t == 5 {
        Option::Some(MessageTypeTag::FindGroupResponse)
    } else if t == 6 {
        Option::Some(MessageTypeTag::GetData)
    } else if t == 7 {
        Option::Some(MessageTypeTag::GetDataResponse)
    } else if t == 8 {
        Option::Some(MessageTypeTag::GetGroupKey)
    } else if t == 9 {
        Option::Some(MessageTypeTag::GetGroupKeyResponse)
    } else if t == 10 {
        Option::Some(MessageTypeTag::GetKey)
    } else if t == 11 {
        Option::Some(MessageTypeTag::GetKeyResponse)
    } else if t == 12 {
        Option::Some(MessageTypeTag::Post)
    } else if t == 13 {
        Option::Some(MessageTypeTag::PostResponse)
    } else if t == 14 {
        Option::Some(MessageTypeTag::PutData)
    } else if t == 15 {
        Option::Some(MessageTypeTag::PutDataResponse)
    } else if t == 16 {
        Option::Some(MessageTypeTag::PutPublicPmid)
    } else if t == 17 {
        Option::Some(MessageTypeTag::UnauthorisedPut)
    } else {
        Option::None
    }
}

pub open spec fn parse_message_type(s: Seq<u8>, i: int) -> Option<(MessageTypeTag, int)> {
    match parse_u8(s, i) {
        Option::Some((t, _)) => match message_type_of_tag(t) {
            Option::Some(m) => Option::Some((m, 1int)),
            Option::None => Option::None,
        },
        Option::None => Option::None,
    }
}

pub open spec fn parse_endpoint(s: Seq<u8>, i: int) -> Option<(Endpoint, int)> {
    match parse_u32(s, i) {
        Option::Some((ip, _)) => match parse_u16(s, i + 4) {
            Option::Some((port, _)) => Option::Some((Endpoint { ip, port }, 6int)),
            Option::None => Option::None,
        },
        Option::None => Option::None,
    }
}

// ------------------------ splitting helper lemmas --------------------------

/// If a range of `s` holds the concatenation `x + y`, the two halves of the
/// range hold `x` and `y`.
pub proof fn lemma_split_range(s: Seq<u8>, i: int, x: Seq<u8>, y: Seq<u8>)
    requires
        0 <= i,
        i + x.len() + y.len() <= s.len(),
        s.subrange(i, i + x.len() + y.len()) == x + y,
    ensures
        s.subrange(i, i + x.len() as int) == x,
        s.subrange(i + x.len() as int, i + x.len() + y.len()) == y,
{
    assert(s.subrange(i, i + x.len() as int) =~= x) by {
        assert forall|j: int| 0 <= j < x.len() implies s[i + j] == x[j] by {
            assert((x + y)[j] == x[j]);
            assert(s.subrange(i, i + x.len() + y.len())[j] == s[i + j]);
        }
    }
    assert(s.subrange(i + x.len() as int, i + x.len() + y.len()) =~= y) by {
        assert forall|j: int| 0 <= j < y.len() implies s[i + x.len() + j] == y[j] by {
            assert((x + y)[x.len() + j] == y[j]);
            assert(s.subrange(i, i + x.len() + y.len())[x.len() + j] == s[i + x.len() + j]);
        }
    }
}

// ----------------------- parse-of-encode lemmas ----------------------------

pub proof fn lemma_parse_u8(s: Seq<u8>, i: int, x: u8)
    requires
        0 <= i,
        i + 1 <= s.len(),
        s.subrange(i, i + 1) == enc_u8(x),
    ensures
        parse_u8(s, i) == Option::Some((x, 1int)),
{
    assert(s[i] == s.subrange(i, i + 1)[0]);
}

pub proof fn lemma_parse_u16(s: Seq<u8>, i: int, x: u16)
    requires
        0 <= i,
        i + 2 <= s.len(),
        s.subrange(i, i + 2) == enc_u16(x),
    ensures
        parse_u16(s, i) == Option::Some((x, 2int)),
{
    let e = enc_u16(x);
    assert(s[i] == s.subrange(i, i + 2)[0]);
    assert(s[i + 1] == s.subrange(i, i + 2)[1]);
    assert(combine_u16(((x >> 8) & 0xff) as u8, (x & 0xff) as u8) == x) by (bit_vector);
}

pub proof fn lemma_parse_u32(s: Seq<u8>, i: int, x: u32)
    requires
        0 <= i,
        i + 4 <= s.len(),
        s.subrange(i, i + 4) == enc_u32(x),
    ensures
        parse_u32(s, i) == Option::Some((x, 4int)),
{
    assert(s[i] == s.subrange(i, i + 4)[0]);
    assert(s[i + 1] == s.subrange(i, i + 4)[1]);
    assert(s[i + 2] == s.subrange(i, i + 4)[2]);
    assert(s[i + 3] == s.subrange(i, i + 4)[3]);
    assert(combine_u32(
        ((x >> 24) & 0xff) as u8,
        ((x >> 16) & 0xff) as u8,
        ((x >> 8) & 0xff) as u8,
        (x & 0xff) as u8,
    ) == x) by (bit_vector);
}

pub proof fn lemma_parse_u64(s: Seq<u8>, i: int, x: u64)
    requires
        0 <= i,
        i + 8 <= s.len(),
        s.subrange(i, i + 8) == enc_u64(x),
    ensures
        parse_u64(s, i) == Option::Some((x, 8int)),
{
    assert(s[i] == s.subrange(i, i + 8)[0]);
    assert(s[i + 1] == s.subrange(i, i + 8)[1]);
    assert(s[i + 2] == s.subrange(i, i + 8)[2]);
    assert(s[i + 3] == s.subrange(i, i + 8)[3]);
    assert(s[i + 4] == s.subrange(i, i + 8)[4]);
    assert(s[i + 5] == s.subrange(i, i + 8)[5]);
    assert(s[i + 6] == s.subrange(i, i + 8)[6]);
    assert(s[i + 7] == s.subrange(i, i + 8)[7]);
    assert(combine_u64(
        ((x >> 56) & 0xff) as u8,
        ((x >> 48) & 0xff) as u8,
        ((x >> 40) & 0xff) as u8,
        ((x >> 32) & 0xff) as u8,
        ((x >> 24) & 0xff) as u8,
        ((x >> 16) & 0xff) as u8,
        ((x >> 8) & 0xff) as u8,
        (x & 0xff) as u8,
    ) == x) by (bit_vector);
}

pub proof fn lemma_parse_name(s: Seq<u8>, i: int, n: Seq<u8>)
    requires
        0 <= i,
        n.len() == 64,
        i + 64 <= s.len(),
        s.subrange(i, i + 64) == enc_name(n),
    ensures
        parse_name(s, i) == Option::Some((n, 64int)),
{
}

pub proof fn lemma_parse_bytes(s: Seq<u8>, i: int, b: Seq<u8>)
    requires
        0 <= i,
        b.len() < 0x1_0000_0000_0000_0000,
        i + 8 + b.len() <= s.len(),
        s.subrange(i, i + 8 + b.len()) == enc_bytes(b),
    ensures
        parse_bytes(s, i) == Option::Some((b, 8 + b.len() as int)),
{
    lemma_split_range(s, i, enc_u64(b.len() as u64), b);
    lemma_parse_u64(s, i, b.len() as u64);
}

pub proof fn lemma_parse_opt_name(s: Seq<u8>, i: int, o: Option<Seq<u8>>)
    requires
        0 <= i,
        o is Some ==> o.unwrap().len() == 64,
        i + enc_opt_name(o).len() <= s.len(),
        s.subrange(i, i + enc_opt_name(o).len()) == enc_opt_name(o),
    ensures
        parse_opt_name(s, i) == Option::Some((o, enc_opt_name(o).len() as int)),
{
    match o {
        Option::Some(n) => {
            lemma_split_range(s, i, seq![1u8], n);
            lemma_parse_u8(s, i, 1u8);
            lemma_parse_name(s, i + 1, n);
        },
        Option::None => {
            lemma_parse_u8(s, i, 0u8);
        },
    }
}

pub proof fn lemma_parse_authority(s: Seq<u8>, i: int, a: Authority)
    requires
        0 <= i,
        i + 1 <= s.len(),
        s.subrange(i, i + 1) == enc_authority(a),
    ensures
        parse_authority(s, i) == Option::Some((a, 1int)),
{
    lemma_parse_u8(s, i, authority_tag(a));
}

pub proof fn lemma_parse_message_type(s: Seq<u8>, i: int, t: MessageTypeTag)
    requires
        0 <= i,
        i + 1 <= s.len(),
        s.subrange(i, i + 1) == enc_message_type(t),
    ensures
        parse_message_type(s, i) == Option::Some((t, 1int)),
{
    lemma_parse_u8(s, i, message_type_tag(t));
}

pub proof fn lemma_parse_endpoint(s: Seq<u8>, i: int, e: Endpoint)
    requires
        0 <= i,
        i + 6 <= s.len(),
        s.subrange(i, i + 6) == enc_endpoint(e),
    ensures
        parse_endpoint(s, i) == Option::Some((e, 6int)),
{
    lemma_split_range(s, i, enc_u32(e.ip), enc_u16(e.port));
    lemma_parse_u32(s, i, e.ip);
    lemma_parse_u16(s, i + 4, e.port);
}

// --------------------------- exec encoders ---------------------------------

pub fn put_u8(out: &mut Vec<u8>, x: u8)
    ensures
        final(out)@ == old(out)@ + enc_u8(x),
{
    out.push(x);
    proof {
        assert(final(out)@ =~= old(out)@ + enc_u8(x));
    }
}

pub fn put_u16(out: &mut Vec<u8>, x: u16)
    ensures
        final(out)@ == old(out)@ + enc_u16(x),
{
    proof {
        assert((x >> 8) & 0xff < 256 && x & 0xff < 256) by (bit_vector);
    }
    out.push(((x >> 8) & 0xff) as u8);
    out.push((x & 0xff) as u8);
    proof {
        assert(final(out)@ =~= old(out)@ + enc_u16(x));
    }
}

pub fn put_u32(out: &mut Vec<u8>, x: u32)
    ensures
        final(out)@ == old(out)@ + enc_u32(x),
{
    proof {
        assert((x >> 24) & 0xff < 256 && (x >> 16) & 0xff < 256 && (x >> 8) & 0xff < 256 && x
            & 0xff < 256) by (bit_vector);
    }
    out.push(((x >> 24) & 0xff) as u8);
    out.push(((x >> 16) & 0xff) as u8);
    out.push(((x >> 8) & 0xff) as u8);
    out.push((x & 0xff) as u8);
    proof {
        assert(final(out)@ =~= old(out)@ + enc_u32(x));
    }
}

pub fn put_u64(out: &mut Vec<u8>, x: u64)
    ensures
        final(out)@ == old(out)@ + enc_u64(x),
{
    proof {
        assert((x >> 56) & 0xff < 256 && (x >> 48) & 0xff < 256 && (x >> 40) & 0xff < 256 && (x
            >> 32) & 0xff < 256 && (x >> 24) & 0xff < 256 && (x >> 16) & 0xff < 256 && (x >> 8)
            & 0xff < 256 && x & 0xff < 256) by (bit_vector);
    }
    out.push(((x >> 56) & 0xff) as u8);
    out.push(((x >> 48) & 0xff) as u8);
    out.push(((x >> 40) & 0xff) as u8);
    out.push(((x >> 32) & 0xff) as u8);
    out.push(((x >> 24) & 0xff) as u8);
    out.push(((x >> 16) & 0xff) as u8);
    out.push(((x >> 8) & 0xff) as u8);
    out.push((x & 0xff) as u8);
    proof {
        assert(final(out)@ =~= old(out)@ + enc_u64(x));
    }
}

pub fn put_raw(out: &mut Vec<u8>, v: &Vec<u8>)
    ensures
        final(out)@ == old(out)@ + v@,
{
    out.extend_from_slice(v.as_slice());
    proof {
        assert(final(out)@ =~= old(out)@ + v@);
    }
}

pub fn put_name(out: &mut Vec<u8>, n: &NameType)
    ensures
        final(out)@ == old(out)@ + enc_name(n@),
{
    let id = n.get_id();
    let mut i: usize = 0;
    while i < 64
        invariant
            0 <= i <= 64,
            id@ == n@,
            out@ == old(out)@ + n@.subrange(0, i as int),
        decreases 64 - i,
    {
        out.push(id[i]);
        proof {
            assert(old(out)@ + n@.subrange(0, i + 1) =~= (old(out)@ + n@.subrange(0, i as int)).push(
                n@[i as int],
            ));
        }
        i = i + 1;
    }
    proof {
        assert(n@.subrange(0, 64) =~= n@);
    }
}

pub fn put_bytes(out: &mut Vec<u8>, b: &Vec<u8>)
    ensures
        final(out)@ == old(out)@ + enc_bytes(b@),
{
    put_u64(out, b.len() as u64);
    put_raw(out, b);
    proof {
        assert(final(out)@ =~= old(out)@ + enc_bytes(b@));
    }
}

pub fn put_opt_name(out: &mut Vec<u8>, o: &Option<NameType>)
    ensures
        final(out)@ == old(out)@ + enc_opt_name(crate::types::opt_name_view(*o)),
{
    match o {
        Some(n) => {
            put_u8(out, 1);
            put_name(out, n);
            proof {
                assert(final(out)@ =~= old(out)@ + enc_opt_name(
                    crate::types::opt_name_view(*o),
                ));
            }
        },
        None => {
            put_u8(out, 0);
            proof {
                assert(final(out)@ =~= old(out)@ + enc_opt_name(
                    crate::types::opt_name_view(*o),
                ));
            }
        },
    }
}

pub fn put_authority(out: &mut Vec<u8>, a: Authority)
    ensures
        final(out)@ == old(out)@ + enc_authority(a),
{
    let t: u8 = match a {
        Authority::ClientManager => 0,
        Authority::NaeManager => 1,
        Authority::NodeManager => 2,
        Authority::ManagedNode => 3,
        Authority::Client => 4,
        Authority::Unknown => 5,
    };
    put_u8(out, t);
}

pub fn put_message_type(out: &mut Vec<u8>, t: MessageTypeTag)
    ensures
        final(out)@ == old(out)@ + enc_message_type(t),
{
    let b: u8 = match t {
        MessageTypeTag::BootstrapIdRequest => 0,
        MessageTypeTag::BootstrapIdResponse => 1,
        MessageTypeTag::ConnectRequest => 2,
        MessageTypeTag::ConnectResponse => 3,
        MessageTypeTag::FindGroup => 4,
        MessageTypeTag::FindGroupResponse => 5,
        MessageTypeTag::GetData => 6,
        MessageTypeTag::GetDataResponse => 7,
        MessageTypeTag::GetGroupKey => 8,
        MessageTypeTag::GetGroupKeyResponse => 9,
        MessageTypeTag::GetKey => 10,
        MessageTypeTag::GetKeyResponse => 11,
        MessageTypeTag::Post => 12,
        MessageTypeTag::PostResponse => 13,
        MessageTypeTag::PutData => 14,
        MessageTypeTag::PutDataResponse => 15,
        MessageTypeTag::PutPublicPmid => 16,
        MessageTypeTag::UnauthorisedPut => 17,
    };
    put_u8(out, b);
}

pub fn put_endpoint(out: &mut Vec<u8>, e: Endpoint)
    ensures
        final(out)@ == old(out)@ + enc_endpoint(e),
{
    put_u32(out, e.ip);
    put_u16(out, e.port);
    proof {
        assert(final(out)@ =~= old(out)@ + enc_endpoint(e));
    }
}

// --------------------------- exec decoders ---------------------------------

pub fn get_u8(buf: &Vec<u8>, pos: &mut usize) -> (r: Result<u8, ()>)
    requires
        *old(pos) <= buf@.len(),
    ensures
        *old(pos) <= *final(pos) <= buf@.len(),
        match parse_u8(buf@, *old(pos) as int) {
            Option::Some(p) => r == Result::<u8, ()>::Ok(p.0) && *final(pos) == *old(pos) + p.1,
            Option::None => r is Err && *final(pos) == *old(pos),
        },
{
    if *pos < buf.len() {
        let b = buf[*pos];
        *pos = *pos + 1;
        Ok(b)
    } else {
        Err(())
    }
}

pub fn get_u16(buf: &Vec<u8>, pos: &mut usize) -> (r: Result<u16, ()>)
    requires
        *old(pos) <= buf@.len(),
    ensures
        *old(pos) <= *final(pos) <= buf@.len(),
        match parse_u16(buf@, *old(pos) as int) {
            Option::Some(p) => r == Result::<u16, ()>::Ok(p.0) && *final(pos) == *old(pos) + p.1,
            Option::None => r is Err && *final(pos) == *old(pos),
        },
{
    if buf.len() - *pos >= 2 {
        let b0 = buf[*pos];
        let b1 = buf[*pos + 1];
        *pos = *pos + 2;
        Ok(((b0 as u16) << 8) | (b1 as u16))
    } else {
        Err(())
    }
}

pub fn get_u32(buf: &Vec<u8>, pos: &mut usize) -> (r: Result<u32, ()>)
    requires
        *old(pos) <= buf@.len(),
    ensures
        *old(pos) <= *final(pos) <= buf@.len(),
        match parse_u32(buf@, *old(pos) as int) {
            Option::Some(p) => r == Result::<u32, ()>::Ok(p.0) && *final(pos) == *old(pos) + p.1,
            Option::None => r is Err && *final(pos) == *old(pos),
        },
{
    if buf.len() - *pos >= 4 {
        let b0 = buf[*pos];
        let b1 = buf[*pos + 1];
        let b2 = buf[*pos + 2];
        let b3 = buf[*pos + 3];
        *pos = *pos + 4;
        Ok(((b0 as u32) << 24) | ((b1 as u32) << 16) | ((b2 as u32) << 8) | (b3 as u32))
    } else {
        Err(())
    }
}

pub fn get_u64(buf: &Vec<u8>, pos: &mut usize) -> (r: Result<u64, ()>)
    requires
        *old(pos) <= buf@.len(),
    ensures
        *old(pos) <= *final(pos) <= buf@.len(),
        match parse_u64(buf@, *old(pos) as int) {
            Option::Some(p) => r == Result::<u64, ()>::Ok(p.0) && *final(pos) == *old(pos) + p.1,
            Option::None => r is Err && *final(pos) == *old(pos),
        },
{
    if buf.len() - *pos >= 8 {
        let b0 = buf[*pos];
        let b1 = buf[*pos + 1];
        let b2 = buf[*pos + 2];
        let b3 = buf[*pos + 3];
        let b4 = buf[*pos + 4];
        let b5 = buf[*pos + 5];
        let b6 = buf[*pos + 6];
        let b7 = buf[*pos + 7];
        *pos = *pos + 8;
        Ok(((b0 as u64) << 56) | ((b1 as u64) << 48) | ((b2 as u64) << 40) | ((b3 as u64) << 32)
            | ((b4 as u64) << 24) | ((b5 as u64) << 16) | ((b6 as u64) << 8) | (b7 as u64))
    } else {
        Err(())
    }
}

pub fn get_name(buf: &Vec<u8>, pos: &mut usize) -> (r: Result<NameType, ()>)
    requires
        *old(pos) <= buf@.len(),
    ensures
        *old(pos) <= *final(pos) <= buf@.len(),
        match parse_name(buf@, *old(pos) as int) {
            Option::Some(p) => {
                &&& r is Ok
                &&& (r matches Result::Ok(n) ==> n@ == p.0)
                &&& *final(pos) == *old(pos) + p.1
            },
            Option::None => r is Err && *final(pos) == *old(pos),
        },
{
    if buf.len() - *pos >= 64 {
        let start = *pos;
        let mut id: [u8; 64] = [0u8; 64];
        let mut i: usize = 0;
        while i < 64
            invariant
                0 <= i <= 64,
                start + 64 <= buf@.len(),
                id@.subrange(0, i as int) == buf@.subrange(start as int, start + i),
            decreases 64 - i,
        {
            proof {
                assert(buf.len() == buf@.len());
            }
            id[i] = buf[start + i];
            proof {
                assert(id@.subrange(0, i + 1) =~= buf@.subrange(start as int, start + i + 1));
            }
            i = i + 1;
        }
        *pos = start + 64;
        proof {
            assert(id@ =~= id@.subrange(0, 64));
        }
        Ok(NameType::new(id))
    } else {
        Err(())
    }
}

pub fn get_bytes(buf: &Vec<u8>, pos: &mut usize) -> (r: Result<Vec<u8>, ()>)
    requires
        *old(pos) <= buf@.len(),
    ensures
        *old(pos) <= *final(pos) <= buf@.len(),
        match parse_bytes(buf@, *old(pos) as int) {
            Option::Some(p) => {
                &&& r is Ok
                &&& (r matches Result::Ok(b) ==> b@ == p.0)
                &&& *final(pos) == *old(pos) + p.1
            },
            Option::None => r is Err,
        },
{
    let start = *pos;
    let n = match get_u64(buf, pos) {
        Ok(n) => n,
        Err(()) => {
            return Err(());
        },
    };
    if n > (buf.len() - *pos) as u64 {
        return Err(());
    }
    let len = n as usize;
    let data_start = *pos;
    let mut out: Vec<u8> = Vec::new();
    let mut i: usize = 0;
    while i < len
        invariant
            0 <= i <= len,
            data_start + len <= buf@.len(),
            out@ == buf@.subrange(data_start as int, data_start + i),
        decreases len - i,
    {
        proof {
            assert(buf.len() == buf@.len());
        }
        out.push(buf[data_start + i]);
        proof {
            assert(out@ =~= buf@.subrange(data_start as int, data_start + i + 1));
        }
        i = i + 1;
    }
    *pos = data_start + len;
    Ok(out)
}

pub fn get_opt_name(buf: &Vec<u8>, pos: &mut usize) -> (r: Result<Option<NameType>, ()>)
    requires
        *old(pos) <= buf@.len(),
    ensures
        *old(pos) <= *final(pos) <= buf@.len(),
        match parse_opt_name(buf@, *old(pos) as int) {
            Option::Some(p) => {
                &&& r is Ok
                &&& (r matches Result::Ok(o) ==> crate::types::opt_name_view(o) == p.0)
                &&& *final(pos) == *old(pos) + p.1
            },
            Option::None => r is Err,
        },
{
    let t = match get_u8(buf, pos) {
        Ok(t) => t,
        Err(()) => {
            return Err(());
        },
    };
    if t == 0 {
        Ok(None)
    } else if t == 1 {
        match get_name(buf, pos) {
            Ok(n) => Ok(Some(n)),
            Err(()) => Err(()),
        }
    } else {
        Err(())
    }
}

pub fn get_authority(buf: &Vec<u8>, pos: &mut usize) -> (r: Result<Authority, ()>)
    requires
        *old(pos) <= buf@.len(),
    ensures
        *old(pos) <= *final(pos) <= buf@.len(),
        match parse_authority(buf@, *old(pos) as int) {
            Option::Some(p) => r == Result::<Authority, ()>::Ok(p.0) && *final(pos) == *old(pos)
                + p.1,
            Option::None => r is Err,
        },
{
    let t = match get_u8(buf, pos) {
        Ok(t) => t,
        Err(()) => {
            return Err(());
        },
    };
    if t == 0 {
        Ok(Authority::ClientManager)
    } else if t == 1 {
        Ok(Authority::NaeManager)
    } else if t == 2 {
        Ok(Authority::NodeManager)
    } else if t == 3 {
        Ok(Authority::ManagedNode)
    } else if t == 4 {
        Ok(Authority::Client)
    } else if t == 5 {
        Ok(Authority::Unknown)
    } else {
        Err(())
    }
}

pub fn get_message_type(buf: &Vec<u8>, pos: &mut usize) -> (r: Result<MessageTypeTag, ()>)
    requires
        *old(pos) <= buf@.len(),
    ensures
        *old(pos) <= *final(pos) <= buf@.len(),
        match parse_message_type(buf@, *old(pos) as int) {
            Option::Some(p) => r == Result::<MessageTypeTag, ()>::Ok(p.0) && *final(pos) == *old(
                pos,
            ) + p.1,
            Option::None => r is Err,
        },
{
    let t = match get_u8(buf, pos) {
        Ok(t) => t,
        Err(()) => {
            return Err(());
        },
    };
    if t == 0 {
        Ok(MessageTypeTag::BootstrapIdRequest)
    } else if t == 1 {
        Ok(MessageTypeTag::BootstrapIdResponse)
    } else if t == 2 {
        Ok(MessageTypeTag::ConnectRequest)
    } else if t == 3 {
        Ok(MessageTypeTag::ConnectResponse)
    } else if t == 4 {
        Ok(MessageTypeTag::FindGroup)
    } else if t == 5 {
        Ok(MessageTypeTag::FindGroupResponse)
    } else if t == 6 {
        Ok(MessageTypeTag::GetData)
    } else if t == 7 {
        Ok(MessageTypeTag::GetDataResponse)
    } else if t == 8 {
        Ok(MessageTypeTag::GetGroupKey)
    } else if t == 9 {
        Ok(MessageTypeTag::GetGroupKeyResponse)
    } else if t == 10 {
        Ok(MessageTypeTag::GetKey)
    } else if t == 11 {
        Ok(MessageTypeTag::GetKeyResponse)
    } else if t == 12 {
        Ok(MessageTypeTag::Post)
    } else if t == 13 {
        Ok(MessageTypeTag::PostResponse)
    } else if t == 14 {
        Ok(MessageTypeTag::PutData)
    } else if t == 15 {
        Ok(MessageTypeTag::PutDataResponse)
    } else if t == 16 {
        Ok(MessageTypeTag::PutPublicPmid)
    } else if t == 17 {
        Ok(MessageTypeTag::UnauthorisedPut)
    } else {
        Err(())
    }
}

pub fn get_endpoint(buf: &Vec<u8>, pos: &mut usize) -> (r: Result<Endpoint, ()>)
    requires
        *old(pos) <= buf@.len(),
    ensures
        *old(pos) <= *final(pos) <= buf@.len(),
        match parse_endpoint(buf@, *old(pos) as int) {
            Option::Some(p) => r == Result::<Endpoint, ()>::Ok(p.0) && *final(pos) == *old(pos)
                + p.1,
            Option::None => r is Err,
        },
{
    let ip = match get_u32(buf, pos) {
        Ok(x) => x,
        Err(()) => {
            return Err(());
        },
    };
    let port = match get_u16(buf, pos) {
        Ok(x) => x,
        Err(()) => {
            return Err(());
        },
    };
    Ok(Endpoint { ip, port })
}


// ----------------------- composite spec codecs -----------------------------

pub open spec fn enc_source(v: crate::types::SourceAddressV) -> Seq<u8> {
    enc_name(v.from_node) + enc_opt_name(v.from_group) + enc_opt_name(v.reply_to)
}

pub open spec fn parse_source(s: Seq<u8>, i: int) -> Option<(crate::types::SourceAddressV, int)> {
    match parse_name(s, i) {
        Option::None => Option::None,
        Option::Some((from_node, n1)) => match parse_opt_name(s, i + n1) {
            Option::None => Option::None,
            Option::Some((from_group, n2)) => match parse_opt_name(s, i + n1 + n2) {
                Option::None => Option::None,
                Option::Some((reply_to, n3)) => Option::Some(
                    (crate::types::SourceAddressV { from_node, from_group, reply_to }, n1 + n2 + n3),
                ),
            },
        },
    }
}

pub open spec fn enc_destination(v: crate::types::DestinationAddressV) -> Seq<u8> {
    enc_name(v.dest) + enc_opt_name(v.reply_to)
}

pub open spec fn parse_destination(s: Seq<u8>, i: int) -> Option<
    (crate::types::DestinationAddressV, int),
> {
    match parse_name(s, i) {
        Option::None => Option::None,
        Option::Some((dest, n1)) => match parse_opt_name(s, i + n1) {
            Option::None => Option::None,
            Option::Some((reply_to, n2)) => Option::Some(
                (crate::types::DestinationAddressV { dest, reply_to }, n1 + n2),
            ),
        },
    }
}

pub open spec fn enc_header(v: crate::message_header::MessageHeaderV) -> Seq<u8> {
    enc_u32(v.message_id) + enc_destination(v.destination) + enc_source(v.source) + enc_authority(
        v.authority,
    )
}

pub open spec fn parse_header(s: Seq<u8>, i: int) -> Option<
    (crate::message_header::MessageHeaderV, int),
> {
    match parse_u32(s, i) {
        Option::None => Option::None,
        Option::Some((message_id, n1)) => match parse_destination(s, i + n1) {
            Option::None => Option::None,
            Option::Some((destination, n2)) => match parse_source(s, i + n1 + n2) {
                Option::None => Option::None,
                Option::Some((source, n3)) => match parse_authority(s, i + n1 + n2 + n3) {
                    Option::None => Option::None,
                    Option::Some((authority, n4)) => Option::Some(
                        (
                            crate::message_header::MessageHeaderV {
                                message_id,
                                destination,
                                source,
                                authority,
                            },
                            n1 + n2 + n3 + n4,
                        ),
                    ),
                },
            },
        },
    }
}

pub open spec fn enc_message(v: crate::messages::RoutingMessageV) -> Seq<u8> {
    enc_message_type(v.message_type) + enc_header(v.message_header) + enc_bytes(v.serialised_body)
        + enc_bytes(v.signature)
}

pub open spec fn parse_message(s: Seq<u8>, i: int) -> Option<
    (crate::messages::RoutingMessageV, int),
> {
    match parse_message_type(s, i) {
        Option::None => Option::None,
        Option::Some((message_type, n1)) => match parse_header(s, i + n1) {
            Option::None => Option::None,
            Option::Some((message_header, n2)) => match parse_bytes(s, i + n1 + n2) {
                Option::None => Option::None,
                Option::Some((serialised_body, n3)) => match parse_bytes(s, i + n1 + n2 + n3) {
                    Option::None => Option::None,
                    Option::Some((signature, n4)) => Option::Some(
                        (
                            crate::messages::RoutingMessageV {
                                message_type,
                                message_header,
                                serialised_body,
                                signature,
                            },
                            n1 + n2 + n3 + n4,
                        ),
                    ),
                },
            },
        },
    }
}

// ---------------------- well-formed views ----------------------------------

pub open spec fn opt_name_wf(o: Option<Seq<u8>>) -> bool {
    match o {
        Option::Some(n) => n.len() == 64,
        Option::None => true,
    }
}

pub open spec fn source_wf(v: crate::types::SourceAddressV) -> bool {
    &&& v.from_node.len() == 64
    &&& opt_name_wf(v.from_group)
    &&& opt_name_wf(v.reply_to)
}

pub open spec fn destination_wf(v: crate::types::DestinationAddressV) -> bool {
    &&& v.dest.len() == 64
    &&& opt_name_wf(v.reply_to)
}

pub open spec fn header_wf(v: crate::message_header::MessageHeaderV) -> bool {
    &&& destination_wf(v.destination)
    &&& source_wf(v.source)
}

pub open spec fn message_wf(v: crate::messages::RoutingMessageV) -> bool {
    &&& header_wf(v.message_header)
    &&& v.serialised_body.len() < 0x1_0000_0000_0000_0000
    &&& v.signature.len() < 0x1_0000_0000_0000_0000
}

// ------------------- composite parse-of-encode lemmas ----------------------

pub proof fn lemma_parse_source(s: Seq<u8>, i: int, v: crate::types::SourceAddressV)
    requires
        0 <= i,
        source_wf(v),
        i + enc_source(v).len() <= s.len(),
        s.subrange(i, i + enc_source(v).len()) == enc_source(v),
    ensures
        parse_source(s, i) == Option::Some((v, enc_source(v).len() as int)),
{
    let e1 = enc_name(v.from_node);
    let e2 = enc_opt_name(v.from_group);
    let e3 = enc_opt_name(v.reply_to);
    assert(s.subrange(i, i + (e1 + e2).len() + e3.len()) == (e1 + e2) + e3) by {
        assert((e1 + e2) + e3 =~= enc_source(v));
    }
    lemma_split_range(s, i, e1 + e2, e3);
    lemma_split_range(s, i, e1, e2);
    lemma_parse_name(s, i, v.from_node);
    lemma_parse_opt_name(s, i + 64, v.from_group);
    lemma_parse_opt_name(s, i + 64 + e2.len() as int, v.reply_to);
}

pub proof fn lemma_parse_destination(s: Seq<u8>, i: int, v: crate::types::DestinationAddressV)
    requires
        0 <= i,
        destination_wf(v),
        i + enc_destination(v).len() <= s.len(),
        s.subrange(i, i + enc_destination(v).len()) == enc_destination(v),
    ensures
        parse_destination(s, i) == Option::Some((v, enc_destination(v).len() as int)),
{
    let e1 = enc_name(v.dest);
    let e2 = enc_opt_name(v.reply_to);
    lemma_split_range(s, i, e1, e2);
    lemma_parse_name(s, i, v.dest);
    lemma_parse_opt_name(s, i + 64, v.reply_to);
}

pub proof fn lemma_parse_header(s: Seq<u8>, i: int, v: crate::message_header::MessageHeaderV)
    requires
        0 <= i,
        header_wf(v),
        i + enc_header(v).len() <= s.len(),
        s.subrange(i, i + enc_header(v).len()) == enc_header(v),
    ensures
        parse_header(s, i) == Option::Some((v, enc_header(v).len() as int)),
{
    let e1 = enc_u32(v.message_id);
    let e2 = enc_destination(v.destination);
    let e3 = enc_source(v.source);
    let e4 = enc_authority(v.authority);
    assert(s.subrange(i, i + ((e1 + e2) + e3).len() + e4.len()) == ((e1 + e2) + e3) + e4) by {
        assert(((e1 + e2) + e3) + e4 =~= enc_header(v));
    }
    lemma_split_range(s, i, (e1 + e2) + e3, e4);
    assert(s.subrange(i, i + (e1 + e2).len() + e3.len()) == (e1 + e2) + e3) by {
        assert(s.subrange(i, i + ((e1 + e2) + e3).len() as int) == (e1 + e2) + e3);
    }
    lemma_split_range(s, i, e1 + e2, e3);
    lemma_split_range(s, i, e1, e2);
    lemma_parse_u32(s, i, v.message_id);
    lemma_parse_destination(s, i + 4, v.destination);
    lemma_parse_source(s, i + 4 + e2.len() as int, v.source);
    lemma_parse_authority(s, i + 4 + e2.len() + e3.len() as int, v.authority);
}

pub proof fn lemma_parse_message(s: Seq<u8>, i: int, v: crate::messages::RoutingMessageV)
    requires
        0 <= i,
        message_wf(v),
        i + enc_message(v).len() <= s.len(),
        s.subrange(i, i + enc_message(v).len()) == enc_message(v),
    ensures
        parse_message(s, i) == Option::Some((v, enc_message(v).len() as int)),
{
    let e1 = enc_message_type(v.message_type);
    let e2 = enc_header(v.message_header);
    let e3 = enc_bytes(v.serialised_body);
    let e4 = enc_bytes(v.signature);
    assert(s.subrange(i, i + ((e1 + e2) + e3).len() + e4.len()) == ((e1 + e2) + e3) + e4) by {
        assert(((e1 + e2) + e3) + e4 =~= enc_message(v));
    }
    lemma_split_range(s, i, (e1 + e2) + e3, e4);
    assert(s.subrange(i, i + (e1 + e2).len() + e3.len()) == (e1 + e2) + e3) by {
        assert(s.subrange(i, i + ((e1 + e2) + e3).len() as int) == (e1 + e2) + e3);
    }
    lemma_split_range(s, i, e1 + e2, e3);
    lemma_split_range(s, i, e1, e2);
    lemma_parse_message_type(s, i, v.message_type);
    lemma_parse_header(s, i + 1, v.message_header);
    lemma_parse_bytes(s, i + 1 + e2.len() as int, v.serialised_body);
    lemma_parse_bytes(s, i + 1 + e2.len() + e3.len() as int, v.signature);
}

/// The frame encoding is injective: equal encodings come from equal frames.
pub proof fn lemma_enc_message_injective(
    a: crate::messages::RoutingMessageV,
    b: crate::messages::RoutingMessageV,
)
    requires
        message_wf(a),
        message_wf(b),
        enc_message(a) == enc_message(b),
    ensures
        a == b,
{
    let s = enc_message(a);
    assert(s.subrange(0, s.len() as int) =~= s);
    lemma_parse_message(s, 0, a);
    lemma_parse_message(s, 0, b);
}

// ----------------------- composite exec encoders ---------------------------

pub fn put_source(out: &mut Vec<u8>, v: &crate::types::SourceAddress)
    ensures
        final(out)@ == old(out)@ + enc_source(v@),
{
    put_name(out, &v.from_node);
    put_opt_name(out, &v.from_group);
    put_opt_name(out, &v.reply_to);
    proof {
        assert(final(out)@ =~= old(out)@ + enc_source(v@));
    }
}

pub fn put_destination(out: &mut Vec<u8>, v: &crate::types::DestinationAddress)
    ensures
        final(out)@ == old(out)@ + enc_destination(v@),
{
    put_name(out, &v.dest);
    put_opt_name(out, &v.reply_to);
    proof {
        assert(final(out)@ =~= old(out)@ + enc_destination(v@));
    }
}

pub fn put_header(out: &mut Vec<u8>, v: &crate::message_header::MessageHeader)
    ensures
        final(out)@ == old(out)@ + enc_header(v@),
{
    put_u32(out, v.message_id);
    put_destination(out, &v.destination);
    put_source(out, &v.source);
    put_authority(out, v.authority);
    proof {
        assert(final(out)@ =~= old(out)@ + enc_header(v@));
    }
}

/// Serialise one frame for the wire.
pub fn encode_routing_message(v: &crate::messages::RoutingMessage) -> (r: Vec<u8>)
    ensures
        r@ == enc_message(v@),
{
    let mut out: Vec<u8> = Vec::new();
    put_message_type(&mut out, v.message_type);
    put_header(&mut out, &v.message_header);
    put_bytes(&mut out, &v.serialised_body);
    put_bytes(&mut out, &v.signature);
    proof {
        assert(out@ =~= enc_message(v@));
    }
    out
}

// ----------------------- composite exec decoders ---------------------------

pub fn get_source(buf: &Vec<u8>, pos: &mut usize) -> (r: Result<crate::types::SourceAddress, ()>)
    requires
        *old(pos) <= buf@.len(),
    ensures
        *old(pos) <= *final(pos) <= buf@.len(),
        match parse_source(buf@, *old(pos) as int) {
            Option::Some(p) => {
                &&& r is Ok
                &&& (r matches Result::Ok(v) ==> v@ == p.0)
                &&& *final(pos) == *old(pos) + p.1
            },
            Option::None => r is Err,
        },
{
    let from_node = match get_name(buf, pos) {
        Ok(v) => v,
        Err(()) => {
            return Err(());
        },
    };
    let from_group = match get_opt_name(buf, pos) {
        Ok(v) => v,
        Err(()) => {
            return Err(());
        },
    };
    let reply_to = match get_opt_name(buf, pos) {
        Ok(v) => v,
        Err(()) => {
            return Err(());
        },
    };
    Ok(crate::types::SourceAddress { from_node, from_group, reply_to })
}

pub fn get_destination(buf: &Vec<u8>, pos: &mut usize) -> (r: Result<
    crate::types::DestinationAddress,
    (),
>)
    requires
        *old(pos) <= buf@.len(),
    ensures
        *old(pos) <= *final(pos) <= buf@.len(),
        match parse_destination(buf@, *old(pos) as int) {
            Option::Some(p) => {
                &&& r is Ok
                &&& (r matches Result::Ok(v) ==> v@ == p.0)
                &&& *final(pos) == *old(pos) + p.1
            },
            Option::None => r is Err,
        },
{
    let dest = match get_name(buf, pos) {
        Ok(v) => v,
        Err(()) => {
            return Err(());
        },
    };
    let reply_to = match get_opt_name(buf, pos) {
        Ok(v) => v,
        Err(()) => {
            return Err(());
        },
    };
    Ok(crate::types::DestinationAddress { dest, reply_to })
}

pub fn get_header(buf: &Vec<u8>, pos: &mut usize) -> (r: Result<
    crate::message_header::MessageHeader,
    (),
>)
    requires
        *old(pos) <= buf@.len(),
    ensures
        *old(pos) <= *final(pos) <= buf@.len(),
        match parse_header(buf@, *old(pos) as int) {
            Option::Some(p) => {
                &&& r is Ok
                &&& (r matches Result::Ok(v) ==> v@ == p.0)
                &&& *final(pos) == *old(pos) + p.1
            },
            Option::None => r is Err,
        },
{
    let message_id = match get_u32(buf, pos) {
        Ok(v) => v,
        Err(()) => {
            return Err(());
        },
    };
    let destination = match get_destination(buf, pos) {
        Ok(v) => v,
        Err(()) => {
            return Err(());
        },
    };
    let source = match get_source(buf, pos) {
        Ok(v) => v,
        Err(()) => {
            return Err(());
        },
    };
    let authority = match get_authority(buf, pos) {
        Ok(v) => v,
        Err(()) => {
            return Err(());
        },
    };
    Ok(crate::message_header::MessageHeader { message_id, destination, source, authority })
}

/// Read one frame off the wire.  A frame must hold exactly one message:
/// trailing bytes fail the decode.
pub fn decode_routing_message(buf: &Vec<u8>) -> (r: Result<
    crate::messages::RoutingMessage,
    crate::error::RoutingError,
>)
    ensures
        match parse_message(buf@, 0) {
            Option::Some(p) => {
                if p.1 == buf@.len() {
                    &&& r is Ok
                    &&& (r matches Result::Ok(v) ==> v@ == p.0)
                } else {
                    r == Result::<
                        crate::messages::RoutingMessage,
                        crate::error::RoutingError,
                    >::Err(crate::error::RoutingError::ParseFailure)
                }
            },
            Option::None => r == Result::<
                crate::messages::RoutingMessage,
                crate::error::RoutingError,
            >::Err(crate::error::RoutingError::ParseFailure),
        },
{
    let mut pos: usize = 0;
    let message_type = match get_message_type(buf, &mut pos) {
        Ok(v) => v,
        Err(()) => {
            return Err(crate::error::RoutingError::ParseFailure);
        },
    };
    let message_header = match get_header(buf, &mut pos) {
        Ok(v) => v,
        Err(()) => {
            return Err(crate::error::RoutingError::ParseFailure);
        },
    };
    let serialised_body = match get_bytes(buf, &mut pos) {
        Ok(v) => v,
        Err(()) => {
            return Err(crate::error::RoutingError::ParseFailure);
        },
    };
    let signature = match get_bytes(buf, &mut pos) {
        Ok(v) => v,
        Err(()) => {
            return Err(crate::error::RoutingError::ParseFailure);
        },
    };
    if pos != buf.len() {
        return Err(crate::error::RoutingError::ParseFailure);
    }
    Ok(crate::messages::RoutingMessage { message_type, message_header, serialised_body, signature })
}

/// Round trip at the frame level: a well-formed message always decodes back
/// from its own encoding.
pub proof fn lemma_message_round_trip(v: crate::messages::RoutingMessageV)
    requires
        message_wf(v),
    ensures
        parse_message(enc_message(v), 0) == Option::Some((v, enc_message(v).len() as int)),
{
    let s = enc_message(v);
    assert(s.subrange(0, s.len() as int) =~= s);
    lemma_parse_message(s, 0, v);
}


// --------------------------- list codecs -----------------------------------

/// Upper bound on every list carried on the wire; longer lists fail to
/// parse.  Endpoint lists and group enumerations are always far smaller.
pub const MAX_LIST_LEN: u64 = 1024;

pub open spec fn enc_endpoint_list(es: Seq<Endpoint>) -> Seq<u8>
    decreases es.len(),
{
    if es.len() == 0 {
        Seq::empty()
    } else {
        enc_endpoint(es[0]) + enc_endpoint_list(es.skip(1))
    }
}

pub open spec fn enc_endpoints(es: Seq<Endpoint>) -> Seq<u8> {
    enc_u64(es.len() as u64) + enc_endpoint_list(es)
}

pub open spec fn parse_endpoint_list(s: Seq<u8>, i: int, n: nat) -> Option<(Seq<Endpoint>, int)>
    decreases n,
{
    if n == 0 {
        Option::Some((Seq::empty(), 0int))
    } else {
        match parse_endpoint(s, i) {
            Option::None => Option::None,
            Option::Some((e, k)) => match parse_endpoint_list(s, i + k, (n - 1) as nat) {
                Option::None => Option::None,
                Option::Some((es, m)) => Option::Some((seq![e] + es, k + m)),
            },
        }
    }
}

pub open spec fn parse_endpoints(s: Seq<u8>, i: int) -> Option<(Seq<Endpoint>, int)> {
    match parse_u64(s, i) {
        Option::None => Option::None,
        Option::Some((n, _)) => {
            if n <= MAX_LIST_LEN {
                match parse_endpoint_list(s, i + 8, n as nat) {
                    Option::None => Option::None,
                    Option::Some((es, m)) => Option::Some((es, 8 + m)),
                }
            } else {
                Option::None
            }
        },
    }
}

proof fn lemma_enc_endpoint_list_snoc(es: Seq<Endpoint>)
    requires
        es.len() > 0,
    ensures
        enc_endpoint_list(es) == enc_endpoint_list(es.drop_last()) + enc_endpoint(es.last()),
    decreases es.len(),
{
    if es.len() == 1 {
        assert(es.drop_last() =~= Seq::<Endpoint>::empty());
        assert(es.skip(1) =~= Seq::<Endpoint>::empty());
        assert(enc_endpoint_list(es) =~= enc_endpoint_list(es.drop_last()) + enc_endpoint(
            es.last(),
        ));
    } else {
        let tail = es.skip(1);
        lemma_enc_endpoint_list_snoc(tail);
        assert(es.drop_last().skip(1) =~= tail.drop_last());
        assert(es.drop_last()[0] == es[0]);
        assert(tail.last() == es.last());
        assert(enc_endpoint_list(es) =~= enc_endpoint_list(es.drop_last()) + enc_endpoint(
            es.last(),
        ));
    }
}

proof fn lemma_parse_endpoint_list(s: Seq<u8>, i: int, es: Seq<Endpoint>)
    requires
        0 <= i,
        i + enc_endpoint_list(es).len() <= s.len(),
        s.subrange(i, i + enc_endpoint_list(es).len()) == enc_endpoint_list(es),
    ensures
        parse_endpoint_list(s, i, es.len() as nat) == Option::Some(
            (es, enc_endpoint_list(es).len() as int),
        ),
    decreases es.len(),
{
    if es.len() == 0 {
        assert(Seq::<Endpoint>::empty() =~= es);
    } else {
        lemma_split_range(s, i, enc_endpoint(es[0]), enc_endpoint_list(es.skip(1)));
        lemma_parse_endpoint(s, i, es[0]);
        lemma_parse_endpoint_list(s, i + 6, es.skip(1));
        assert(seq![es[0]] + es.skip(1) =~= es);
    }
}

pub proof fn lemma_parse_endpoints(s: Seq<u8>, i: int, es: Seq<Endpoint>)
    requires
        0 <= i,
        es.len() <= MAX_LIST_LEN,
        i + enc_endpoints(es).len() <= s.len(),
        s.subrange(i, i + enc_endpoints(es).len()) == enc_endpoints(es),
    ensures
        parse_endpoints(s, i) == Option::Some((es, enc_endpoints(es).len() as int)),
{
    lemma_split_range(s, i, enc_u64(es.len() as u64), enc_endpoint_list(es));
    lemma_parse_u64(s, i, es.len() as u64);
    lemma_parse_endpoint_list(s, i + 8, es);
}

pub fn put_endpoints(out: &mut Vec<u8>, es: &Vec<Endpoint>)
    requires
        es@.len() <= MAX_LIST_LEN,
    ensures
        final(out)@ == old(out)@ + enc_endpoints(es@),
{
    put_u64(out, es.len() as u64);
    let mut i: usize = 0;
    while i < es.len()
        invariant
            0 <= i <= es@.len(),
            out@ == old(out)@ + enc_u64(es@.len() as u64) + enc_endpoint_list(
                es@.subrange(0, i as int),
            ),
        decreases es@.len() - i,
    {
        put_endpoint(out, es[i]);
        proof {
            let pre = es@.subrange(0, i as int);
            let post = es@.subrange(0, i + 1);
            lemma_enc_endpoint_list_snoc(post);
            assert(post.drop_last() =~= pre);
            assert(post.last() == es@[i as int]);
            assert(out@ =~= old(out)@ + enc_u64(es@.len() as u64) + enc_endpoint_list(post));
        }
        i = i + 1;
    }
    proof {
        assert(es@.subrange(0, es@.len() as int) =~= es@);
        assert(out@ =~= old(out)@ + enc_endpoints(es@));
    }
}

pub fn get_endpoint_list(buf: &Vec<u8>, pos: &mut usize, n: u64) -> (r: Result<Vec<Endpoint>, ()>)
    requires
        *old(pos) <= buf@.len(),
        n <= MAX_LIST_LEN,
    ensures
        *old(pos) <= *final(pos) <= buf@.len(),
        match parse_endpoint_list(buf@, *old(pos) as int, n as nat) {
            Option::Some(p) => {
                &&& r is Ok
                &&& (r matches Result::Ok(v) ==> v@ == p.0)
                &&& *final(pos) == *old(pos) + p.1
            },
            Option::None => r is Err,
        },
    decreases n,
{
    if n == 0 {
        let empty: Vec<Endpoint> = Vec::new();
        proof {
            assert(empty@ =~= Seq::<Endpoint>::empty());
        }
        Ok(empty)
    } else {
        let e = match get_endpoint(buf, pos) {
            Ok(v) => v,
            Err(()) => {
                return Err(());
            },
        };
        let mut rest = match get_endpoint_list(buf, pos, n - 1) {
            Ok(v) => v,
            Err(()) => {
                return Err(());
            },
        };
        rest.insert(0, e);
        proof {
            match parse_endpoint_list(buf@, *old(pos) as int, n as nat) {
                Option::Some(p) => {
                    assert(rest@ =~= p.0);
                },
                Option::None => {},
            }
        }
        Ok(rest)
    }
}

pub fn get_endpoints(buf: &Vec<u8>, pos: &mut usize) -> (r: Result<Vec<Endpoint>, ()>)
    requires
        *old(pos) <= buf@.len(),
    ensures
        *old(pos) <= *final(pos) <= buf@.len(),
        match parse_endpoints(buf@, *old(pos) as int) {
            Option::Some(p) => {
                &&& r is Ok
                &&& (r matches Result::Ok(v) ==> v@ == p.0)
                &&& *final(pos) == *old(pos) + p.1
            },
            Option::None => r is Err,
        },
{
    let n = match get_u64(buf, pos) {
        Ok(v) => v,
        Err(()) => {
            return Err(());
        },
    };
    if n > MAX_LIST_LEN {
        return Err(());
    }
    get_endpoint_list(buf, pos, n)
}

// --------------------- public identity codec -------------------------------

pub open spec fn enc_public_pmid(p: crate::types::PublicPmidV) -> Seq<u8> {
    enc_bytes(p.public_sign_key) + enc_name(p.name)
}

pub open spec fn public_pmid_wf(p: crate::types::PublicPmidV) -> bool {
    &&& p.name.len() == 64
    &&& p.public_sign_key.len() < 0x1_0000_0000_0000_0000
}

pub open spec fn parse_public_pmid(s: Seq<u8>, i: int) -> Option<(crate::types::PublicPmidV, int)> {
    match parse_bytes(s, i) {
        Option::None => Option::None,
        Option::Some((public_sign_key, n1)) => match parse_name(s, i + n1) {
            Option::None => Option::None,
            Option::Some((name, n2)) => Option::Some(
                (crate::types::PublicPmidV { public_sign_key, name }, n1 + n2),
            ),
        },
    }
}

pub proof fn lemma_parse_public_pmid(s: Seq<u8>, i: int, p: crate::types::PublicPmidV)
    requires
        0 <= i,
        public_pmid_wf(p),
        i + enc_public_pmid(p).len() <= s.len(),
        s.subrange(i, i + enc_public_pmid(p).len()) == enc_public_pmid(p),
    ensures
        parse_public_pmid(s, i) == Option::Some((p, enc_public_pmid(p).len() as int)),
{
    lemma_split_range(s, i, enc_bytes(p.public_sign_key), enc_name(p.name));
    lemma_parse_bytes(s, i, p.public_sign_key);
    lemma_parse_name(s, i + enc_bytes(p.public_sign_key).len() as int, p.name);
}

pub fn put_public_pmid(out: &mut Vec<u8>, p: &crate::types::PublicPmid)
    ensures
        final(out)@ == old(out)@ + enc_public_pmid(p@),
{
    put_bytes(out, &p.public_sign_key.key);
    put_name(out, &p.name);
    proof {
        assert(final(out)@ =~= old(out)@ + enc_public_pmid(p@));
    }
}

pub fn get_public_pmid(buf: &Vec<u8>, pos: &mut usize) -> (r: Result<crate::types::PublicPmid, ()>)
    requires
        *old(pos) <= buf@.len(),
    ensures
        *old(pos) <= *final(pos) <= buf@.len(),
        match parse_public_pmid(buf@, *old(pos) as int) {
            Option::Some(p) => {
                &&& r is Ok
                &&& (r matches Result::Ok(v) ==> v@ == p.0)
                &&& *final(pos) == *old(pos) + p.1
            },
            Option::None => r is Err,
        },
{
    let key = match get_bytes(buf, pos) {
        Ok(v) => v,
        Err(()) => {
            return Err(());
        },
    };
    let name = match get_name(buf, pos) {
        Ok(v) => v,
        Err(()) => {
            return Err(());
        },
    };
    Ok(crate::types::PublicPmid {
        public_sign_key: crate::types::PublicSignKey { key },
        name,
    })
}

// ------------------- response payload codec --------------------------------

pub open spec fn enc_response(r: Result<Seq<u8>, Seq<u8>>) -> Seq<u8> {
    match r {
        Result::Ok(d) => seq![0u8] + enc_bytes(d),
        Result::Err(e) => seq![1u8] + enc_bytes(e),
    }
}

pub open spec fn response_wf(r: Result<Seq<u8>, Seq<u8>>) -> bool {
    match r {
        Result::Ok(d) => d.len() < 0x1_0000_0000_0000_0000,
        Result::Err(e) => e.len() < 0x1_0000_0000_0000_0000,
    }
}

pub open spec fn parse_response(s: Seq<u8>, i: int) -> Option<(Result<Seq<u8>, Seq<u8>>, int)> {
    match parse_u8(s, i) {
        Option::None => Option::None,
        Option::Some((t, _)) => {
            if t == 0 {
                match parse_bytes(s, i + 1) {
                    Option::None => Option::None,
                    Option::Some((d, n)) => Option::Some((Result::Ok(d), 1 + n)),
                }
            } else if t == 1 {
                match parse_bytes(s, i + 1) {
                    Option::None => Option::None,
                    Option::Some((e, n)) => Option::Some((Result::Err(e), 1 + n)),
                }
            } else {
                Option::None
            }
        },
    }
}

pub proof fn lemma_parse_response(s: Seq<u8>, i: int, r: Result<Seq<u8>, Seq<u8>>)
    requires
        0 <= i,
        response_wf(r),
        i + enc_response(r).len() <= s.len(),
        s.subrange(i, i + enc_response(r).len()) == enc_response(r),
    ensures
        parse_response(s, i) == Option::Some((r, enc_response(r).len() as int)),
{
    match r {
        Result::Ok(d) => {
            lemma_split_range(s, i, seq![0u8], enc_bytes(d));
            lemma_parse_u8(s, i, 0u8);
            lemma_parse_bytes(s, i + 1, d);
        },
        Result::Err(e) => {
            lemma_split_range(s, i, seq![1u8], enc_bytes(e));
            lemma_parse_u8(s, i, 1u8);
            lemma_parse_bytes(s, i + 1, e);
        },
    }
}

pub fn put_response(out: &mut Vec<u8>, r: &Result<Vec<u8>, crate::error::ResponseError>)
    ensures
        final(out)@ == old(out)@ + enc_response(crate::messages::response_view(*r)),
{
    match r {
        Ok(d) => {
            put_u8(out, 0);
            put_bytes(out, d);
        },
        Err(e) => {
            put_u8(out, 1);
            put_bytes(out, &e.reason);
        },
    }
    proof {
        assert(final(out)@ =~= old(out)@ + enc_response(crate::messages::response_view(*r)));
    }
}

pub fn get_response(buf: &Vec<u8>, pos: &mut usize) -> (r: Result<
    Result<Vec<u8>, crate::error::ResponseError>,
    (),
>)
    requires
        *old(pos) <= buf@.len(),
    ensures
        *old(pos) <= *final(pos) <= buf@.len(),
        match parse_response(buf@, *old(pos) as int) {
            Option::Some(p) => {
                &&& r is Ok
                &&& (r matches Result::Ok(v) ==> crate::messages::response_view(v) == p.0)
                &&& *final(pos) == *old(pos) + p.1
            },
            Option::None => r is Err,
        },
{
    let t = match get_u8(buf, pos) {
        Ok(v) => v,
        Err(()) => {
            return Err(());
        },
    };
    if t == 0 {
        match get_bytes(buf, pos) {
            Ok(d) => Ok(Ok(d)),
            Err(()) => Err(()),
        }
    } else if t == 1 {
        match get_bytes(buf, pos) {
            Ok(e) => Ok(Err(crate::error::ResponseError { reason: e })),
            Err(()) => Err(()),
        }
    } else {
        Err(())
    }
}


// ---------------------- name/key pair codec --------------------------------

pub open spec fn enc_name_and_key(v: crate::messages::NameAndKeyV) -> Seq<u8> {
    enc_name(v.name) + enc_bytes(v.public_sign_key)
}

pub open spec fn name_and_key_wf(v: crate::messages::NameAndKeyV) -> bool {
    &&& v.name.len() == 64
    &&& v.public_sign_key.len() < 0x1_0000_0000_0000_0000
}

pub open spec fn parse_name_and_key(s: Seq<u8>, i: int) -> Option<
    (crate::messages::NameAndKeyV, int),
> {
    match parse_name(s, i) {
        Option::None => Option::None,
        Option::Some((name, n1)) => match parse_bytes(s, i + n1) {
            Option::None => Option::None,
            Option::Some((public_sign_key, n2)) => Option::Some(
                (crate::messages::NameAndKeyV { name, public_sign_key }, n1 + n2),
            ),
        },
    }
}

pub proof fn lemma_parse_name_and_key(s: Seq<u8>, i: int, v: crate::messages::NameAndKeyV)
    requires
        0 <= i,
        name_and_key_wf(v),
        i + enc_name_and_key(v).len() <= s.len(),
        s.subrange(i, i + enc_name_and_key(v).len()) == enc_name_and_key(v),
    ensures
        parse_name_and_key(s, i) == Option::Some((v, enc_name_and_key(v).len() as int)),
{
    lemma_split_range(s, i, enc_name(v.name), enc_bytes(v.public_sign_key));
    lemma_parse_name(s, i, v.name);
    lemma_parse_bytes(s, i + 64, v.public_sign_key);
}

pub fn put_name_and_key(out: &mut Vec<u8>, v: &crate::messages::NameAndKey)
    ensures
        final(out)@ == old(out)@ + enc_name_and_key(v@),
{
    put_name(out, &v.name);
    put_bytes(out, &v.public_sign_key.key);
    proof {
        assert(final(out)@ =~= old(out)@ + enc_name_and_key(v@));
    }
}

pub fn get_name_and_key(buf: &Vec<u8>, pos: &mut usize) -> (r: Result<
    crate::messages::NameAndKey,
    (),
>)
    requires
        *old(pos) <= buf@.len(),
    ensures
        *old(pos) <= *final(pos) <= buf@.len(),
        match parse_name_and_key(buf@, *old(pos) as int) {
            Option::Some(p) => {
                &&& r is Ok
                &&& (r matches Result::Ok(v) ==> v@ == p.0)
                &&& *final(pos) == *old(pos) + p.1
            },
            Option::None => r is Err,
        },
{
    let name = match get_name(buf, pos) {
        Ok(v) => v,
        Err(()) => {
            return Err(());
        },
    };
    let key = match get_bytes(buf, pos) {
        Ok(v) => v,
        Err(()) => {
            return Err(());
        },
    };
    Ok(crate::messages::NameAndKey {
        name,
        public_sign_key: crate::types::PublicSignKey { key },
    })
}

// the list decoder below takes its element decoder under this fixed name

fn get_public_pmid_ref(buf: &Vec<u8>, pos: &mut usize) -> (r: Result<crate::types::PublicPmid, ()>)
    requires
        *old(pos) <= buf@.len(),
    ensures
        *old(pos) <= *final(pos) <= buf@.len(),
        match parse_public_pmid(buf@, *old(pos) as int) {
            Option::Some(p) => {
                &&& r is Ok
                &&& (r matches Result::Ok(v) ==> v@ == p.0)
                &&& *final(pos) == *old(pos) + p.1
            },
            Option::None => r is Err,
        },
{
    get_public_pmid(buf, pos)
}

pub open spec fn enc_pmid_list(es: Seq<crate::types::PublicPmidV>) -> Seq<u8>
    decreases es.len(),
{
    if es.len() == 0 {
        Seq::empty()
    } else {
        enc_public_pmid(es[0]) + enc_pmid_list(es.skip(1))
    }
}

pub open spec fn enc_pmids(es: Seq<crate::types::PublicPmidV>) -> Seq<u8> {
    enc_u64(es.len() as u64) + enc_pmid_list(es)
}

pub open spec fn parse_pmid_list(s: Seq<u8>, i: int, n: nat) -> Option<(Seq<crate::types::PublicPmidV>, int)>
    decreases n,
{
    if n == 0 {
        Option::Some((Seq::empty(), 0int))
    } else {
        match parse_public_pmid(s, i) {
            Option::None => Option::None,
            Option::Some((e, k)) => match parse_pmid_list(s, i + k, (n - 1) as nat) {
                Option::None => Option::None,
                Option::Some((es, m)) => Option::Some((seq![e] + es, k + m)),
            },
        }
    }
}

pub open spec fn parse_pmids(s: Seq<u8>, i: int) -> Option<(Seq<crate::types::PublicPmidV>, int)> {
    match parse_u64(s, i) {
        Option::None => Option::None,
        Option::Some((n, _)) => {
            if n <= MAX_LIST_LEN {
                match parse_pmid_list(s, i + 8, n as nat) {
                    Option::None => Option::None,
                    Option::Some((es, m)) => Option::Some((es, 8 + m)),
                }
            } else {
                Option::None
            }
        },
    }
}

proof fn lemma_enc_pmid_list_snoc(es: Seq<crate::types::PublicPmidV>)
    requires
        es.len() > 0,
    ensures
        enc_pmid_list(es) == enc_pmid_list(es.drop_last()) + enc_public_pmid(es.last()),
    decreases es.len(),
{
    if es.len() == 1 {
        assert(es.drop_last() =~= Seq::<crate::types::PublicPmidV>::empty());
        assert(es.skip(1) =~= Seq::<crate::types::PublicPmidV>::empty());
        assert(enc_pmid_list(es) =~= enc_pmid_list(es.drop_last()) + enc_public_pmid(es.last()));
    } else {
        let tail = es.skip(1);
        lemma_enc_pmid_list_snoc(tail);
        assert(es.drop_last().skip(1) =~= tail.drop_last());
        assert(es.drop_last()[0] == es[0]);
        assert(tail.last() == es.last());
        assert(enc_pmid_list(es) =~= enc_pmid_list(es.drop_last()) + enc_public_pmid(es.last()));
    }
}

proof fn lemma_parse_pmid_list(s: Seq<u8>, i: int, es: Seq<crate::types::PublicPmidV>)
    requires
        0 <= i,
        forall|j: int| 0 <= j < es.len() ==> public_pmid_wf(#[trigger] es[j]),
        i + enc_pmid_list(es).len() <= s.len(),
        s.subrange(i, i + enc_pmid_list(es).len()) == enc_pmid_list(es),
    ensures
        parse_pmid_list(s, i, es.len() as nat) == Option::Some(
            (es, enc_pmid_list(es).len() as int),
        ),
    decreases es.len(),
{
    if es.len() == 0 {
        assert(Seq::<crate::types::PublicPmidV>::empty() =~= es);
    } else {
        lemma_split_range(s, i, enc_public_pmid(es[0]), enc_pmid_list(es.skip(1)));
        lemma_parse_public_pmid(s, i, es[0]);
        lemma_parse_pmid_list(s, i + enc_public_pmid(es[0]).len() as int, es.skip(1));
        assert(seq![es[0]] + es.skip(1) =~= es);
    }
}

pub proof fn lemma_parse_pmids(s: Seq<u8>, i: int, es: Seq<crate::types::PublicPmidV>)
    requires
        0 <= i,
        es.len() <= MAX_LIST_LEN,
        forall|j: int| 0 <= j < es.len() ==> public_pmid_wf(#[trigger] es[j]),
        i + enc_pmids(es).len() <= s.len(),
        s.subrange(i, i + enc_pmids(es).len()) == enc_pmids(es),
    ensures
        parse_pmids(s, i) == Option::Some((es, enc_pmids(es).len() as int)),
{
    lemma_split_range(s, i, enc_u64(es.len() as u64), enc_pmid_list(es));
    lemma_parse_u64(s, i, es.len() as u64);
    lemma_parse_pmid_list(s, i + 8, es);
}

pub fn put_pmids(out: &mut Vec<u8>, es: &Vec<crate::types::PublicPmid>)
    requires
        es@.len() <= MAX_LIST_LEN,
    ensures
        final(out)@ == old(out)@ + enc_pmids(crate::messages::pmids_view(es@)),
{
    put_u64(out, es.len() as u64);
    let mut i: usize = 0;
    while i < es.len()
        invariant
            0 <= i <= es@.len(),
            out@ == old(out)@ + enc_u64(es@.len() as u64) + enc_pmid_list(
                crate::messages::pmids_view(es@).subrange(0, i as int),
            ),
        decreases es@.len() - i,
    {
        put_public_pmid(out, &es[i]);
        proof {
            let vw = crate::messages::pmids_view(es@);
            let pre = vw.subrange(0, i as int);
            let post = vw.subrange(0, i + 1);
            lemma_enc_pmid_list_snoc(post);
            assert(post.drop_last() =~= pre);
            assert(post.last() == vw[i as int]);
            assert(out@ =~= old(out)@ + enc_u64(es@.len() as u64) + enc_pmid_list(post));
        }
        i = i + 1;
    }
    proof {
        let vw = crate::messages::pmids_view(es@);
        assert(vw.subrange(0, vw.len() as int) =~= vw);
        assert(out@ =~= old(out)@ + enc_pmids(vw));
    }
}

pub fn get_pmid_list(buf: &Vec<u8>, pos: &mut usize, n: u64) -> (r: Result<Vec<crate::types::PublicPmid>, ()>)
    requires
        *old(pos) <= buf@.len(),
        n <= MAX_LIST_LEN,
    ensures
        *old(pos) <= *final(pos) <= buf@.len(),
        match parse_pmid_list(buf@, *old(pos) as int, n as nat) {
            Option::Some(p) => {
                &&& r is Ok
                &&& (r matches Result::Ok(v) ==> crate::messages::pmids_view(v@) == p.0)
                &&& *final(pos) == *old(pos) + p.1
            },
            Option::None => r is Err,
        },
    decreases n,
{
    if n == 0 {
        let empty: Vec<crate::types::PublicPmid> = Vec::new();
        proof {
            assert(crate::messages::pmids_view(empty@) =~= Seq::<crate::types::PublicPmidV>::empty());
        }
        Ok(empty)
    } else {
        let e = match get_public_pmid_ref(buf, pos) {
            Ok(v) => v,
            Err(()) => {
                return Err(());
            },
        };
        let mut rest = match get_pmid_list(buf, pos, n - 1) {
            Ok(v) => v,
            Err(()) => {
                return Err(());
            },
        };
        rest.insert(0, e);
        proof {
            match parse_pmid_list(buf@, *old(pos) as int, n as nat) {
                Option::Some(p) => {
                    assert(crate::messages::pmids_view(rest@) =~= p.0);
                },
                Option::None => {},
            }
        }
        Ok(rest)
    }
}

pub fn get_pmids(buf: &Vec<u8>, pos: &mut usize) -> (r: Result<Vec<crate::types::PublicPmid>, ()>)
    requires
        *old(pos) <= buf@.len(),
    ensures
        *old(pos) <= *final(pos) <= buf@.len(),
        match parse_pmids(buf@, *old(pos) as int) {
            Option::Some(p) => {
                &&& r is Ok
                &&& (r matches Result::Ok(v) ==> crate::messages::pmids_view(v@) == p.0)
                &&& *final(pos) == *old(pos) + p.1
            },
            Option::None => r is Err,
        },
{
    let n = match get_u64(buf, pos) {
        Ok(v) => v,
        Err(()) => {
            return Err(());
        },
    };
    if n > MAX_LIST_LEN {
        return Err(());
    }
    get_pmid_list(buf, pos, n)
}

pub open spec fn enc_name_key_list(es: Seq<crate::messages::NameAndKeyV>) -> Seq<u8>
    decreases es.len(),
{
    if es.len() == 0 {
        Seq::empty()
    } else {
        enc_name_and_key(es[0]) + enc_name_key_list(es.skip(1))
    }
}

pub open spec fn enc_name_keys(es: Seq<crate::messages::NameAndKeyV>) -> Seq<u8> {
    enc_u64(es.len() as u64) + enc_name_key_list(es)
}

pub open spec fn parse_name_key_list(s: Seq<u8>, i: int, n: nat) -> Option<(Seq<crate::messages::NameAndKeyV>, int)>
    decreases n,
{
    if n == 0 {
        Option::Some((Seq::empty(), 0int))
    } else {
        match parse_name_and_key(s, i) {
            Option::None => Option::None,
            Option::Some((e, k)) => match parse_name_key_list(s, i + k, (n - 1) as nat) {
                Option::None => Option::None,
                Option::Some((es, m)) => Option::Some((seq![e] + es, k + m)),
            },
        }
    }
}

pub open spec fn parse_name_keys(s: Seq<u8>, i: int) -> Option<(Seq<crate::messages::NameAndKeyV>, int)> {
    match parse_u64(s, i) {
        Option::None => Option::None,
        Option::Some((n, _)) => {
            if n <= MAX_LIST_LEN {
                match parse_name_key_list(s, i + 8, n as nat) {
                    Option::None => Option::None,
                    Option::Some((es, m)) => Option::Some((es, 8 + m)),
                }
            } else {
                Option::None
            }
        },
    }
}

proof fn lemma_enc_name_key_list_snoc(es: Seq<crate::messages::NameAndKeyV>)
    requires
        es.len() > 0,
    ensures
        enc_name_key_list(es) == enc_name_key_list(es.drop_last()) + enc_name_and_key(es.last()),
    decreases es.len(),
{
    if es.len() == 1 {
        assert(es.drop_last() =~= Seq::<crate::messages::NameAndKeyV>::empty());
        assert(es.skip(1) =~= Seq::<crate::messages::NameAndKeyV>::empty());
        assert(enc_name_key_list(es) =~= enc_name_key_list(es.drop_last()) + enc_name_and_key(es.last()));
    } else {
        let tail = es.skip(1);
        lemma_enc_name_key_list_snoc(tail);
        assert(es.drop_last().skip(1) =~= tail.drop_last());
        assert(es.drop_last()[0] == es[0]);
        assert(tail.last() == es.last());
        assert(enc_name_key_list(es) =~= enc_name_key_list(es.drop_last()) + enc_name_and_key(es.last()));
    }
}

proof fn lemma_parse_name_key_list(s: Seq<u8>, i: int, es: Seq<crate::messages::NameAndKeyV>)
    requires
        0 <= i,
        forall|j: int| 0 <= j < es.len() ==> name_and_key_wf(#[trigger] es[j]),
        i + enc_name_key_list(es).len() <= s.len(),
        s.subrange(i, i + enc_name_key_list(es).len()) == enc_name_key_list(es),
    ensures
        parse_name_key_list(s, i, es.len() as nat) == Option::Some(
            (es, enc_name_key_list(es).len() as int),
        ),
    decreases es.len(),
{
    if es.len() == 0 {
        assert(Seq::<crate::messages::NameAndKeyV>::empty() =~= es);
    } else {
        lemma_split_range(s, i, enc_name_and_key(es[0]), enc_name_key_list(es.skip(1)));
        lemma_parse_name_and_key(s, i, es[0]);
        lemma_parse_name_key_list(s, i + enc_name_and_key(es[0]).len() as int, es.skip(1));
        assert(seq![es[0]] + es.skip(1) =~= es);
    }
}

pub proof fn lemma_parse_name_keys(s: Seq<u8>, i: int, es: Seq<crate::messages::NameAndKeyV>)
    requires
        0 <= i,
        es.len() <= MAX_LIST_LEN,
        forall|j: int| 0 <= j < es.len() ==> name_and_key_wf(#[trigger] es[j]),
        i + enc_name_keys(es).len() <= s.len(),
        s.subrange(i, i + enc_name_keys(es).len()) == enc_name_keys(es),
    ensures
        parse_name_keys(s, i) == Option::Some((es, enc_name_keys(es).len() as int)),
{
    lemma_split_range(s, i, enc_u64(es.len() as u64), enc_name_key_list(es));
    lemma_parse_u64(s, i, es.len() as u64);
    lemma_parse_name_key_list(s, i + 8, es);
}

pub fn put_name_keys(out: &mut Vec<u8>, es: &Vec<crate::messages::NameAndKey>)
    requires
        es@.len() <= MAX_LIST_LEN,
    ensures
        final(out)@ == old(out)@ + enc_name_keys(crate::messages::name_keys_view(es@)),
{
    put_u64(out, es.len() as u64);
    let mut i: usize = 0;
    while i < es.len()
        invariant
            0 <= i <= es@.len(),
            out@ == old(out)@ + enc_u64(es@.len() as u64) + enc_name_key_list(
                crate::messages::name_keys_view(es@).subrange(0, i as int),
            ),
        decreases es@.len() - i,
    {
        put_name_and_key(out, &es[i]);
        proof {
            let vw = crate::messages::name_keys_view(es@);
            let pre = vw.subrange(0, i as int);
            let post = vw.subrange(0, i + 1);
            lemma_enc_name_key_list_snoc(post);
            assert(post.drop_last() =~= pre);
            assert(post.last() == vw[i as int]);
            assert(out@ =~= old(out)@ + enc_u64(es@.len() as u64) + enc_name_key_list(post));
        }
        i = i + 1;
    }
    proof {
        let vw = crate::messages::name_keys_view(es@);
        assert(vw.subrange(0, vw.len() as int) =~= vw);
        assert(out@ =~= old(out)@ + enc_name_keys(vw));
    }
}

pub fn get_name_key_list(buf: &Vec<u8>, pos: &mut usize, n: u64) -> (r: Result<Vec<crate::messages::NameAndKey>, ()>)
    requires
        *old(pos) <= buf@.len(),
        n <= MAX_LIST_LEN,
    ensures
        *old(pos) <= *final(pos) <= buf@.len(),
        match parse_name_key_list(buf@, *old(pos) as int, n as nat) {
            Option::Some(p) => {
                &&& r is Ok
                &&& (r matches Result::Ok(v) ==> crate::messages::name_keys_view(v@) == p.0)
                &&& *final(pos) == *old(pos) + p.1
            },
            Option::None => r is Err,
        },
    decreases n,
{
    if n == 0 {
        let empty: Vec<crate::messages::NameAndKey> = Vec::new();
        proof {
            assert(crate::messages::name_keys_view(empty@) =~= Seq::<crate::messages::NameAndKeyV>::empty());
        }
        Ok(empty)
    } else {
        let e = match get_name_and_key(buf, pos) {
            Ok(v) => v,
            Err(()) => {
                return Err(());
            },
        };
        let mut rest = match get_name_key_list(buf, pos, n - 1) {
            Ok(v) => v,
            Err(()) => {
                return Err(());
            },
        };
        rest.insert(0, e);
        proof {
            match parse_name_key_list(buf@, *old(pos) as int, n as nat) {
                Option::Some(p) => {
                    assert(crate::messages::name_keys_view(rest@) =~= p.0);
                },
                Option::None => {},
            }
        }
        Ok(rest)
    }
}

pub fn get_name_keys(buf: &Vec<u8>, pos: &mut usize) -> (r: Result<Vec<crate::messages::NameAndKey>, ()>)
    requires
        *old(pos) <= buf@.len(),
    ensures
        *old(pos) <= *final(pos) <= buf@.len(),
        match parse_name_keys(buf@, *old(pos) as int) {
            Option::Some(p) => {
                &&& r is Ok
                &&& (r matches Result::Ok(v) ==> crate::messages::name_keys_view(v@) == p.0)
                &&& *final(pos) == *old(pos) + p.1
            },
            Option::None => r is Err,
        },
{
    let n = match get_u64(buf, pos) {
        Ok(v) => v,
        Err(()) => {
            return Err(());
        },
    };
    if n > MAX_LIST_LEN {
        return Err(());
    }
    get_name_key_list(buf, pos, n)
}


// ----------------------------- get_data body --------------------------------

pub open spec fn enc_get_data(v: crate::messages::GetDataV) -> Seq<u8> {
    enc_source(v.requester) + enc_name(v.name_and_type_id.name) + enc_u64(v.name_and_type_id.type_id)
}

pub open spec fn get_data_wf(v: crate::messages::GetDataV) -> bool {
    &&& source_wf(v.requester)
    &&& v.name_and_type_id.name.len() == 64
}

pub open spec fn parse_get_data(s: Seq<u8>, i: int) -> Option<(crate::messages::GetDataV, int)> {
    match parse_source(s, i) {
        Option::None => Option::None,
        Option::Some((f1, n1)) => match parse_name(s, i + n1) {
        Option::None => Option::None,
        Option::Some((f2, n2)) => match parse_u64(s, i + n1 + n2) {
        Option::None => Option::None,
        Option::Some((f3, n3)) => Option::Some((crate::messages::GetDataV { requester: f1, name_and_type_id: crate::types::NameAndTypeIdV { name: f2, type_id: f3 } }, n1 + n2 + n3)),
    },
    },
    }
}

pub proof fn lemma_parse_get_data(s: Seq<u8>, i: int, v: crate::messages::GetDataV)
    requires
        0 <= i,
        get_data_wf(v),
        i + enc_get_data(v).len() <= s.len(),
        s.subrange(i, i + enc_get_data(v).len()) == enc_get_data(v),
    ensures
        parse_get_data(s, i) == Option::Some((v, enc_get_data(v).len() as int)),
{
    let e1 = enc_source(v.requester); let e2 = enc_name(v.name_and_type_id.name); let e3 = enc_u64(v.name_and_type_id.type_id);
    assert(s.subrange(i, i + (e1 + e2).len() + e3.len()) == (e1 + e2) + e3) by {
        assert((e1 + e2) + e3 =~= enc_get_data(v));
    };
    lemma_split_range(s, i, (e1 + e2), e3);
    assert(s.subrange(i, i + e1.len() + e2.len()) == e1 + e2) by {
        assert(e1 + e2 =~= (e1 + e2));
    };
    lemma_split_range(s, i, e1, e2);
    lemma_parse_source(s, i, v.requester);
    lemma_parse_name(s, i + e1.len(), v.name_and_type_id.name);
    lemma_parse_u64(s, i + e1.len() + e2.len(), v.name_and_type_id.type_id);
}

/// Serialise a content request
pub fn encode_get_data(x: &crate::messages::GetData) -> (r: Vec<u8>)
    ensures
        r@ == enc_get_data(x@),
{
    let mut out: Vec<u8> = Vec::new();
    put_source(&mut out, &x.requester);
    put_name(&mut out, &x.name_and_type_id.name);
    put_u64(&mut out, x.name_and_type_id.type_id);
    proof {
        assert(out@ =~= enc_get_data(x@));
    }
    out
}

/// Decode a content request; the buffer must hold exactly one body.
pub fn decode_get_data(buf: &Vec<u8>) -> (r: Result<crate::messages::GetData, crate::error::RoutingError>)
    ensures
        match parse_get_data(buf@, 0) {
            Option::Some(p) => {
                if p.1 == buf@.len() {
                    &&& r is Ok
                    &&& (r matches Result::Ok(v) ==> v@ == p.0)
                } else {
                    r == Result::<crate::messages::GetData, crate::error::RoutingError>::Err(
                        crate::error::RoutingError::ParseFailure,
                    )
                }
            },
            Option::None => r == Result::<crate::messages::GetData, crate::error::RoutingError>::Err(
                crate::error::RoutingError::ParseFailure,
            ),
        },
{
    let mut pos: usize = 0;
    let d1 = match get_source(buf, &mut pos) {
        Ok(v) => v,
        Err(()) => {
            return Err(crate::error::RoutingError::ParseFailure);
        },
    };
    let d2 = match get_name(buf, &mut pos) {
        Ok(v) => v,
        Err(()) => {
            return Err(crate::error::RoutingError::ParseFailure);
        },
    };
    let d3 = match get_u64(buf, &mut pos) {
        Ok(v) => v,
        Err(()) => {
            return Err(crate::error::RoutingError::ParseFailure);
        },
    };
    if pos != buf.len() {
        return Err(crate::error::RoutingError::ParseFailure);
    }
    Ok(crate::messages::GetData { requester: d1, name_and_type_id: crate::types::NameAndTypeId { name: d2, type_id: d3 } })
}


// ----------------------------- get_data_response body --------------------------------

pub open spec fn enc_get_data_response(v: crate::messages::GetDataResponseV) -> Seq<u8> {
    enc_name(v.name_and_type_id.name) + enc_u64(v.name_and_type_id.type_id) + enc_response(v.data)
}

pub open spec fn get_data_response_wf(v: crate::messages::GetDataResponseV) -> bool {
    &&& v.name_and_type_id.name.len() == 64
    &&& response_wf(v.data)
}

pub open spec fn parse_get_data_response(s: Seq<u8>, i: int) -> Option<(crate::messages::GetDataResponseV, int)> {
    match parse_name(s, i) {
        Option::None => Option::None,
        Option::Some((f1, n1)) => match parse_u64(s, i + n1) {
        Option::None => Option::None,
        Option::Some((f2, n2)) => match parse_response(s, i + n1 + n2) {
        Option::None => Option::None,
        Option::Some((f3, n3)) => Option::Some((crate::messages::GetDataResponseV { name_and_type_id: crate::types::NameAndTypeIdV { name: f1, type_id: f2 }, data: f3 }, n1 + n2 + n3)),
    },
    },
    }
}

pub proof fn lemma_parse_get_data_response(s: Seq<u8>, i: int, v: crate::messages::GetDataResponseV)
    requires
        0 <= i,
        get_data_response_wf(v),
        i + enc_get_data_response(v).len() <= s.len(),
        s.subrange(i, i + enc_get_data_response(v).len()) == enc_get_data_response(v),
    ensures
        parse_get_data_response(s, i) == Option::Some((v, enc_get_data_response(v).len() as int)),
{
    let e1 = enc_name(v.name_and_type_id.name); let e2 = enc_u64(v.name_and_type_id.type_id); let e3 = enc_response(v.data);
    assert(s.subrange(i, i + (e1 + e2).len() + e3.len()) == (e1 + e2) + e3) by {
        assert((e1 + e2) + e3 =~= enc_get_data_response(v));
    };
    lemma_split_range(s, i, (e1 + e2), e3);
    assert(s.subrange(i, i + e1.len() + e2.len()) == e1 + e2) by {
        assert(e1 + e2 =~= (e1 + e2));
    };
    lemma_split_range(s, i, e1, e2);
    lemma_parse_name(s, i, v.name_and_type_id.name);
    lemma_parse_u64(s, i + e1.len(), v.name_and_type_id.type_id);
    lemma_parse_response(s, i + e1.len() + e2.len(), v.data);
}

/// Serialise a content answer
pub fn encode_get_data_response(x: &crate::messages::GetDataResponse) -> (r: Vec<u8>)
    ensures
        r@ == enc_get_data_response(x@),
{
    let mut out: Vec<u8> = Vec::new();
    put_name(&mut out, &x.name_and_type_id.name);
    put_u64(&mut out, x.name_and_type_id.type_id);
    put_response(&mut out, &x.data);
    proof {
        assert(out@ =~= enc_get_data_response(x@));
    }
    out
}

/// Decode a content answer; the buffer must hold exactly one body.
pub fn decode_get_data_response(buf: &Vec<u8>) -> (r: Result<crate::messages::GetDataResponse, crate::error::RoutingError>)
    ensures
        match parse_get_data_response(buf@, 0) {
            Option::Some(p) => {
                if p.1 == buf@.len() {
                    &&& r is Ok
                    &&& (r matches Result::Ok(v) ==> v@ == p.0)
                } else {
                    r == Result::<crate::messages::GetDataResponse, crate::error::RoutingError>::Err(
                        crate::error::RoutingError::ParseFailure,
                    )
                }
            },
            Option::None => r == Result::<crate::messages::GetDataResponse, crate::error::RoutingError>::Err(
                crate::error::RoutingError::ParseFailure,
            ),
        },
{
    let mut pos: usize = 0;
    let d1 = match get_name(buf, &mut pos) {
        Ok(v) => v,
        Err(()) => {
            return Err(crate::error::RoutingError::ParseFailure);
        },
    };
    let d2 = match get_u64(buf, &mut pos) {
        Ok(v) => v,
        Err(()) => {
            return Err(crate::error::RoutingError::ParseFailure);
        },
    };
    let d3 = match get_response(buf, &mut pos) {
        Ok(v) => v,
        Err(()) => {
            return Err(crate::error::RoutingError::ParseFailure);
        },
    };
    if pos != buf.len() {
        return Err(crate::error::RoutingError::ParseFailure);
    }
    Ok(crate::messages::GetDataResponse { name_and_type_id: crate::types::NameAndTypeId { name: d1, type_id: d2 }, data: d3 })
}


// ----------------------------- put_data body --------------------------------

pub open spec fn enc_put_data(v: crate::messages::PutDataV) -> Seq<u8> {
    enc_name(v.name) + enc_bytes(v.data)
}

pub open spec fn put_data_wf(v: crate::messages::PutDataV) -> bool {
    &&& v.name.len() == 64
    &&& v.data.len() < 0x1_0000_0000_0000_0000
}

pub open spec fn parse_put_data(s: Seq<u8>, i: int) -> Option<(crate::messages::PutDataV, int)> {
    match parse_name(s, i) {
        Option::None => Option::None,
        Option::Some((f1, n1)) => match parse_bytes(s, i + n1) {
        Option::None => Option::None,
        Option::Some((f2, n2)) => Option::Some((crate::messages::PutDataV { name: f1, data: f2 }, n1 + n2)),
    },
    }
}

pub proof fn lemma_parse_put_data(s: Seq<u8>, i: int, v: crate::messages::PutDataV)
    requires
        0 <= i,
        put_data_wf(v),
        i + enc_put_data(v).len() <= s.len(),
        s.subrange(i, i + enc_put_data(v).len()) == enc_put_data(v),
    ensures
        parse_put_data(s, i) == Option::Some((v, enc_put_data(v).len() as int)),
{
    let e1 = enc_name(v.name); let e2 = enc_bytes(v.data);
    assert(s.subrange(i, i + e1.len() + e2.len()) == e1 + e2) by {
        assert(e1 + e2 =~= enc_put_data(v));
    };
    lemma_split_range(s, i, e1, e2);
    lemma_parse_name(s, i, v.name);
    lemma_parse_bytes(s, i + e1.len(), v.data);
}

/// Serialise a store request
pub fn encode_put_data(x: &crate::messages::PutData) -> (r: Vec<u8>)
    ensures
        r@ == enc_put_data(x@),
{
    let mut out: Vec<u8> = Vec::new();
    put_name(&mut out, &x.name);
    put_bytes(&mut out, &x.data);
    proof {
        assert(out@ =~= enc_put_data(x@));
    }
    out
}

/// Decode a store request; the buffer must hold exactly one body.
pub fn decode_put_data(buf: &Vec<u8>) -> (r: Result<crate::messages::PutData, crate::error::RoutingError>)
    ensures
        match parse_put_data(buf@, 0) {
            Option::Some(p) => {
                if p.1 == buf@.len() {
                    &&& r is Ok
                    &&& (r matches Result::Ok(v) ==> v@ == p.0)
                } else {
                    r == Result::<crate::messages::PutData, crate::error::RoutingError>::Err(
                        crate::error::RoutingError::ParseFailure,
                    )
                }
            },
            Option::None => r == Result::<crate::messages::PutData, crate::error::RoutingError>::Err(
                crate::error::RoutingError::ParseFailure,
            ),
        },
{
    let mut pos: usize = 0;
    let d1 = match get_name(buf, &mut pos) {
        Ok(v) => v,
        Err(()) => {
            return Err(crate::error::RoutingError::ParseFailure);
        },
    };
    let d2 = match get_bytes(buf, &mut pos) {
        Ok(v) => v,
        Err(()) => {
            return Err(crate::error::RoutingError::ParseFailure);
        },
    };
    if pos != buf.len() {
        return Err(crate::error::RoutingError::ParseFailure);
    }
    Ok(crate::messages::PutData { name: d1, data: d2 })
}


// ----------------------------- put_data_response body --------------------------------

pub open spec fn enc_put_data_response(v: crate::messages::PutDataResponseV) -> Seq<u8> {
    enc_name(v.name) + enc_response(v.data)
}

pub open spec fn put_data_response_wf(v: crate::messages::PutDataResponseV) -> bool {
    &&& v.name.len() == 64
    &&& response_wf(v.data)
}

pub open spec fn parse_put_data_response(s: Seq<u8>, i: int) -> Option<(crate::messages::PutDataResponseV, int)> {
    match parse_name(s, i) {
        Option::None => Option::None,
        Option::Some((f1, n1)) => match parse_response(s, i + n1) {
        Option::None => Option::None,
        Option::Some((f2, n2)) => Option::Some((crate::messages::PutDataResponseV { name: f1, data: f2 }, n1 + n2)),
    },
    }
}

pub proof fn lemma_parse_put_data_response(s: Seq<u8>, i: int, v: crate::messages::PutDataResponseV)
    requires
        0 <= i,
        put_data_response_wf(v),
        i + enc_put_data_response(v).len() <= s.len(),
        s.subrange(i, i + enc_put_data_response(v).len()) == enc_put_data_response(v),
    ensures
        parse_put_data_response(s, i) == Option::Some((v, enc_put_data_response(v).len() as int)),
{
    let e1 = enc_name(v.name); let e2 = enc_response(v.data);
    assert(s.subrange(i, i + e1.len() + e2.len()) == e1 + e2) by {
        assert(e1 + e2 =~= enc_put_data_response(v));
    };
    lemma_split_range(s, i, e1, e2);
    lemma_parse_name(s, i, v.name);
    lemma_parse_response(s, i + e1.len(), v.data);
}

/// Serialise a store answer
pub fn encode_put_data_response(x: &crate::messages::PutDataResponse) -> (r: Vec<u8>)
    ensures
        r@ == enc_put_data_response(x@),
{
    let mut out: Vec<u8> = Vec::new();
    put_name(&mut out, &x.name);
    put_response(&mut out, &x.data);
    proof {
        assert(out@ =~= enc_put_data_response(x@));
    }
    out
}

/// Decode a store answer; the buffer must hold exactly one body.
pub fn decode_put_data_response(buf: &Vec<u8>) -> (r: Result<crate::messages::PutDataResponse, crate::error::RoutingError>)
    ensures
        match parse_put_data_response(buf@, 0) {
            Option::Some(p) => {
                if p.1 == buf@.len() {
                    &&& r is Ok
                    &&& (r matches Result::Ok(v) ==> v@ == p.0)
                } else {
                    r == Result::<crate::messages::PutDataResponse, crate::error::RoutingError>::Err(
                        crate::error::RoutingError::ParseFailure,
                    )
                }
            },
            Option::None => r == Result::<crate::messages::PutDataResponse, crate::error::RoutingError>::Err(
                crate::error::RoutingError::ParseFailure,
            ),
        },
{
    let mut pos: usize = 0;
    let d1 = match get_name(buf, &mut pos) {
        Ok(v) => v,
        Err(()) => {
            return Err(crate::error::RoutingError::ParseFailure);
        },
    };
    let d2 = match get_response(buf, &mut pos) {
        Ok(v) => v,
        Err(()) => {
            return Err(crate::error::RoutingError::ParseFailure);
        },
    };
    if pos != buf.len() {
        return Err(crate::error::RoutingError::ParseFailure);
    }
    Ok(crate::messages::PutDataResponse { name: d1, data: d2 })
}


// ----------------------------- post body --------------------------------

pub open spec fn enc_post(v: crate::messages::PostV) -> Seq<u8> {
    enc_name(v.name) + enc_bytes(v.data)
}

pub open spec fn post_wf(v: crate::messages::PostV) -> bool {
    &&& v.name.len() == 64
    &&& v.data.len() < 0x1_0000_0000_0000_0000
}

pub open spec fn parse_post(s: Seq<u8>, i: int) -> Option<(crate::messages::PostV, int)> {
    match parse_name(s, i) {
        Option::None => Option::None,
        Option::Some((f1, n1)) => match parse_bytes(s, i + n1) {
        Option::None => Option::None,
        Option::Some((f2, n2)) => Option::Some((crate::messages::PostV { name: f1, data: f2 }, n1 + n2)),
    },
    }
}

pub proof fn lemma_parse_post(s: Seq<u8>, i: int, v: crate::messages::PostV)
    requires
        0 <= i,
        post_wf(v),
        i + enc_post(v).len() <= s.len(),
        s.subrange(i, i + enc_post(v).len()) == enc_post(v),
    ensures
        parse_post(s, i) == Option::Some((v, enc_post(v).len() as int)),
{
    let e1 = enc_name(v.name); let e2 = enc_bytes(v.data);
    assert(s.subrange(i, i + e1.len() + e2.len()) == e1 + e2) by {
        assert(e1 + e2 =~= enc_post(v));
    };
    lemma_split_range(s, i, e1, e2);
    lemma_parse_name(s, i, v.name);
    lemma_parse_bytes(s, i + e1.len(), v.data);
}

/// Serialise a mutation request
pub fn encode_post(x: &crate::messages::Post) -> (r: Vec<u8>)
    ensures
        r@ == enc_post(x@),
{
    let mut out: Vec<u8> = Vec::new();
    put_name(&mut out, &x.name);
    put_bytes(&mut out, &x.data);
    proof {
        assert(out@ =~= enc_post(x@));
    }
    out
}

/// Decode a mutation request; the buffer must hold exactly one body.
pub fn decode_post(buf: &Vec<u8>) -> (r: Result<crate::messages::Post, crate::error::RoutingError>)
    ensures
        match parse_post(buf@, 0) {
            Option::Some(p) => {
                if p.1 == buf@.len() {
                    &&& r is Ok
                    &&& (r matches Result::Ok(v) ==> v@ == p.0)
                } else {
                    r == Result::<crate::messages::Post, crate::error::RoutingError>::Err(
                        crate::error::RoutingError::ParseFailure,
                    )
                }
            },
            Option::None => r == Result::<crate::messages::Post, crate::error::RoutingError>::Err(
                crate::error::RoutingError::ParseFailure,
            ),
        },
{
    let mut pos: usize = 0;
    let d1 = match get_name(buf, &mut pos) {
        Ok(v) => v,
        Err(()) => {
            return Err(crate::error::RoutingError::ParseFailure);
        },
    };
    let d2 = match get_bytes(buf, &mut pos) {
        Ok(v) => v,
        Err(()) => {
            return Err(crate::error::RoutingError::ParseFailure);
        },
    };
    if pos != buf.len() {
        return Err(crate::error::RoutingError::ParseFailure);
    }
    Ok(crate::messages::Post { name: d1, data: d2 })
}


// ----------------------------- connect_request body --------------------------------

pub open spec fn enc_connect_request(v: crate::messages::ConnectRequestV) -> Seq<u8> {
    enc_endpoints(v.local_endpoints) + enc_endpoints(v.external_endpoints) + enc_name(v.requester_id) + enc_name(v.receiver_id) + enc_public_pmid(v.requester_fob)
}

pub open spec fn connect_request_wf(v: crate::messages::ConnectRequestV) -> bool {
    &&& v.local_endpoints.len() <= MAX_LIST_LEN
    &&& v.external_endpoints.len() <= MAX_LIST_LEN
    &&& v.requester_id.len() == 64
    &&& v.receiver_id.len() == 64
    &&& public_pmid_wf(v.requester_fob)
}

pub open spec fn parse_connect_request(s: Seq<u8>, i: int) -> Option<(crate::messages::ConnectRequestV, int)> {
    match parse_endpoints(s, i) {
        Option::None => Option::None,
        Option::Some((f1, n1)) => match parse_endpoints(s, i + n1) {
        Option::None => Option::None,
        Option::Some((f2, n2)) => match parse_name(s, i + n1 + n2) {
        Option::None => Option::None,
        Option::Some((f3, n3)) => match parse_name(s, i + n1 + n2 + n3) {
        Option::None => Option::None,
        Option::Some((f4, n4)) => match parse_public_pmid(s, i + n1 + n2 + n3 + n4) {
        Option::None => Option::None,
        Option::Some((f5, n5)) => Option::Some((crate::messages::ConnectRequestV { local_endpoints: f1, external_endpoints: f2, requester_id: f3, receiver_id: f4, requester_fob: f5 }, n1 + n2 + n3 + n4 + n5)),
    },
    },
    },
    },
    }
}

pub proof fn lemma_parse_connect_request(s: Seq<u8>, i: int, v: crate::messages::ConnectRequestV)
    requires
        0 <= i,
        connect_request_wf(v),
        i + enc_connect_request(v).len() <= s.len(),
        s.subrange(i, i + enc_connect_request(v).len()) == enc_connect_request(v),
    ensures
        parse_connect_request(s, i) == Option::Some((v, enc_connect_request(v).len() as int)),
{
    let e1 = enc_endpoints(v.local_endpoints); let e2 = enc_endpoints(v.external_endpoints); let e3 = enc_name(v.requester_id); let e4 = enc_name(v.receiver_id); let e5 = enc_public_pmid(v.requester_fob);
    assert(s.subrange(i, i + (((e1 + e2) + e3) + e4).len() + e5.len()) == (((e1 + e2) + e3) + e4) + e5) by {
        assert((((e1 + e2) + e3) + e4) + e5 =~= enc_connect_request(v));
    };
    lemma_split_range(s, i, (((e1 + e2) + e3) + e4), e5);
    assert(s.subrange(i, i + ((e1 + e2) + e3).len() + e4.len()) == ((e1 + e2) + e3) + e4) by {
        assert(((e1 + e2) + e3) + e4 =~= (((e1 + e2) + e3) + e4));
    };
    lemma_split_range(s, i, ((e1 + e2) + e3), e4);
    assert(s.subrange(i, i + (e1 + e2).len() + e3.len()) == (e1 + e2) + e3) by {
        assert((e1 + e2) + e3 =~= ((e1 + e2) + e3));
    };
    lemma_split_range(s, i, (e1 + e2), e3);
    assert(s.subrange(i, i + e1.len() + e2.len()) == e1 + e2) by {
        assert(e1 + e2 =~= (e1 + e2));
    };
    lemma_split_range(s, i, e1, e2);
    lemma_parse_endpoints(s, i, v.local_endpoints);
    lemma_parse_endpoints(s, i + e1.len(), v.external_endpoints);
    lemma_parse_name(s, i + e1.len() + e2.len(), v.requester_id);
    lemma_parse_name(s, i + e1.len() + e2.len() + e3.len(), v.receiver_id);
    lemma_parse_public_pmid(s, i + e1.len() + e2.len() + e3.len() + e4.len(), v.requester_fob);
}

/// Serialise a connect request
pub fn encode_connect_request(x: &crate::messages::ConnectRequest) -> (r: Vec<u8>)
    requires
        x.local_endpoints@.len() <= MAX_LIST_LEN,
        x.external_endpoints@.len() <= MAX_LIST_LEN,
    ensures
        r@ == enc_connect_request(x@),
{
    let mut out: Vec<u8> = Vec::new();
    put_endpoints(&mut out, &x.local_endpoints);
    put_endpoints(&mut out, &x.external_endpoints);
    put_name(&mut out, &x.requester_id);
    put_name(&mut out, &x.receiver_id);
    put_public_pmid(&mut out, &x.requester_fob);
    proof {
        assert(out@ =~= enc_connect_request(x@));
    }
    out
}

/// Decode a connect request; the buffer must hold exactly one body.
pub fn decode_connect_request(buf: &Vec<u8>) -> (r: Result<crate::messages::ConnectRequest, crate::error::RoutingError>)
    ensures
        match parse_connect_request(buf@, 0) {
            Option::Some(p) => {
                if p.1 == buf@.len() {
                    &&& r is Ok
                    &&& (r matches Result::Ok(v) ==> v@ == p.0)
                } else {
                    r == Result::<crate::messages::ConnectRequest, crate::error::RoutingError>::Err(
                        crate::error::RoutingError::ParseFailure,
                    )
                }
            },
            Option::None => r == Result::<crate::messages::ConnectRequest, crate::error::RoutingError>::Err(
                crate::error::RoutingError::ParseFailure,
            ),
        },
{
    let mut pos: usize = 0;
    let d1 = match get_endpoints(buf, &mut pos) {
        Ok(v) => v,
        Err(()) => {
            return Err(crate::error::RoutingError::ParseFailure);
        },
    };
    let d2 = match get_endpoints(buf, &mut pos) {
        Ok(v) => v,
        Err(()) => {
            return Err(crate::error::RoutingError::ParseFailure);
        },
    };
    let d3 = match get_name(buf, &mut pos) {
        Ok(v) => v,
        Err(()) => {
            return Err(crate::error::RoutingError::ParseFailure);
        },
    };
    let d4 = match get_name(buf, &mut pos) {
        Ok(v) => v,
        Err(()) => {
            return Err(crate::error::RoutingError::ParseFailure);
        },
    };
    let d5 = match get_public_pmid(buf, &mut pos) {
        Ok(v) => v,
        Err(()) => {
            return Err(crate::error::RoutingError::ParseFailure);
        },
    };
    if pos != buf.len() {
        return Err(crate::error::RoutingError::ParseFailure);
    }
    Ok(crate::messages::ConnectRequest { local_endpoints: d1, external_endpoints: d2, requester_id: d3, receiver_id: d4, requester_fob: d5 })
}


// ----------------------------- connect_response body --------------------------------

pub open spec fn enc_connect_response(v: crate::messages::ConnectResponseV) -> Seq<u8> {
    enc_endpoints(v.requester_local_endpoints) + enc_endpoints(v.requester_external_endpoints) + enc_endpoints(v.receiver_local_endpoints) + enc_endpoints(v.receiver_external_endpoints) + enc_name(v.requester_id) + enc_name(v.receiver_id) + enc_public_pmid(v.receiver_fob)
}

pub open spec fn connect_response_wf(v: crate::messages::ConnectResponseV) -> bool {
    &&& v.requester_local_endpoints.len() <= MAX_LIST_LEN
    &&& v.requester_external_endpoints.len() <= MAX_LIST_LEN
    &&& v.receiver_local_endpoints.len() <= MAX_LIST_LEN
    &&& v.receiver_external_endpoints.len() <= MAX_LIST_LEN
    &&& v.requester_id.len() == 64
    &&& v.receiver_id.len() == 64
    &&& public_pmid_wf(v.receiver_fob)
}

pub open spec fn parse_connect_response(s: Seq<u8>, i: int) -> Option<(crate::messages::ConnectResponseV, int)> {
    match parse_endpoints(s, i) {
        Option::None => Option::None,
        Option::Some((f1, n1)) => match parse_endpoints(s, i + n1) {
        Option::None => Option::None,
        Option::Some((f2, n2)) => match parse_endpoints(s, i + n1 + n2) {
        Option::None => Option::None,
        Option::Some((f3, n3)) => match parse_endpoints(s, i + n1 + n2 + n3) {
        Option::None => Option::None,
        Option::Some((f4, n4)) => match parse_name(s, i + n1 + n2 + n3 + n4) {
        Option::None => Option::None,
        Option::Some((f5, n5)) => match parse_name(s, i + n1 + n2 + n3 + n4 + n5) {
        Option::None => Option::None,
        Option::Some((f6, n6)) => match parse_public_pmid(s, i + n1 + n2 + n3 + n4 + n5 + n6) {
        Option::None => Option::None,
        Option::Some((f7, n7)) => Option::Some((crate::messages::ConnectResponseV { requester_local_endpoints: f1, requester_external_endpoints: f2, receiver_local_endpoints: f3, receiver_external_endpoints: f4, requester_id: f5, receiver_id: f6, receiver_fob: f7 }, n1 + n2 + n3 + n4 + n5 + n6 + n7)),
    },
    },
    },
    },
    },
    },
    }
}

pub proof fn lemma_parse_connect_response(s: Seq<u8>, i: int, v: crate::messages::ConnectResponseV)
    requires
        0 <= i,
        connect_response_wf(v),
        i + enc_connect_response(v).len() <= s.len(),
        s.subrange(i, i + enc_connect_response(v).len()) == enc_connect_response(v),
    ensures
        parse_connect_response(s, i) == Option::Some((v, enc_connect_response(v).len() as int)),
{
    let e1 = enc_endpoints(v.requester_local_endpoints); let e2 = enc_endpoints(v.requester_external_endpoints); let e3 = enc_endpoints(v.receiver_local_endpoints); let e4 = enc_endpoints(v.receiver_external_endpoints); let e5 = enc_name(v.requester_id); let e6 = enc_name(v.receiver_id); let e7 = enc_public_pmid(v.receiver_fob);
    assert(s.subrange(i, i + (((((e1 + e2) + e3) + e4) + e5) + e6).len() + e7.len()) == (((((e1 + e2) + e3) + e4) + e5) + e6) + e7) by {
        assert((((((e1 + e2) + e3) + e4) + e5) + e6) + e7 =~= enc_connect_response(v));
    };
    lemma_split_range(s, i, (((((e1 + e2) + e3) + e4) + e5) + e6), e7);
    assert(s.subrange(i, i + ((((e1 + e2) + e3) + e4) + e5).len() + e6.len()) == ((((e1 + e2) + e3) + e4) + e5) + e6) by {
        assert(((((e1 + e2) + e3) + e4) + e5) + e6 =~= (((((e1 + e2) + e3) + e4) + e5) + e6));
    };
    lemma_split_range(s, i, ((((e1 + e2) + e3) + e4) + e5), e6);
    assert(s.subrange(i, i + (((e1 + e2) + e3) + e4).len() + e5.len()) == (((e1 + e2) + e3) + e4) + e5) by {
        assert((((e1 + e2) + e3) + e4) + e5 =~= ((((e1 + e2) + e3) + e4) + e5));
    };
    lemma_split_range(s, i, (((e1 + e2) + e3) + e4), e5);
    assert(s.subrange(i, i + ((e1 + e2) + e3).len() + e4.len()) == ((e1 + e2) + e3) + e4) by {
        assert(((e1 + e2) + e3) + e4 =~= (((e1 + e2) + e3) + e4));
    };
    lemma_split_range(s, i, ((e1 + e2) + e3), e4);
    assert(s.subrange(i, i + (e1 + e2).len() + e3.len()) == (e1 + e2) + e3) by {
        assert((e1 + e2) + e3 =~= ((e1 + e2) + e3));
    };
    lemma_split_range(s, i, (e1 + e2), e3);
    assert(s.subrange(i, i + e1.len() + e2.len()) == e1 + e2) by {
        assert(e1 + e2 =~= (e1 + e2));
    };
    lemma_split_range(s, i, e1, e2);
    lemma_parse_endpoints(s, i, v.requester_local_endpoints);
    lemma_parse_endpoints(s, i + e1.len(), v.requester_external_endpoints);
    lemma_parse_endpoints(s, i + e1.len() + e2.len(), v.receiver_local_endpoints);
    lemma_parse_endpoints(s, i + e1.len() + e2.len() + e3.len(), v.receiver_external_endpoints);
    lemma_parse_name(s, i + e1.len() + e2.len() + e3.len() + e4.len(), v.requester_id);
    lemma_parse_name(s, i + e1.len() + e2.len() + e3.len() + e4.len() + e5.len(), v.receiver_id);
    lemma_parse_public_pmid(s, i + e1.len() + e2.len() + e3.len() + e4.len() + e5.len() + e6.len(), v.receiver_fob);
}

/// Serialise a connect answer
pub fn encode_connect_response(x: &crate::messages::ConnectResponse) -> (r: Vec<u8>)
    requires
        x.requester_local_endpoints@.len() <= MAX_LIST_LEN,
        x.requester_external_endpoints@.len() <= MAX_LIST_LEN,
        x.receiver_local_endpoints@.len() <= MAX_LIST_LEN,
        x.receiver_external_endpoints@.len() <= MAX_LIST_LEN,
    ensures
        r@ == enc_connect_response(x@),
{
    let mut out: Vec<u8> = Vec::new();
    put_endpoints(&mut out, &x.requester_local_endpoints);
    put_endpoints(&mut out, &x.requester_external_endpoints);
    put_endpoints(&mut out, &x.receiver_local_endpoints);
    put_endpoints(&mut out, &x.receiver_external_endpoints);
    put_name(&mut out, &x.requester_id);
    put_name(&mut out, &x.receiver_id);
    put_public_pmid(&mut out, &x.receiver_fob);
    proof {
        assert(out@ =~= enc_connect_response(x@));
    }
    out
}

/// Decode a connect answer; the buffer must hold exactly one body.
pub fn decode_connect_response(buf: &Vec<u8>) -> (r: Result<crate::messages::ConnectResponse, crate::error::RoutingError>)
    ensures
        match parse_connect_response(buf@, 0) {
            Option::Some(p) => {
                if p.1 == buf@.len() {
                    &&& r is Ok
                    &&& (r matches Result::Ok(v) ==> v@ == p.0)
                } else {
                    r == Result::<crate::messages::ConnectResponse, crate::error::RoutingError>::Err(
                        crate::error::RoutingError::ParseFailure,
                    )
                }
            },
            Option::None => r == Result::<crate::messages::ConnectResponse, crate::error::RoutingError>::Err(
                crate::error::RoutingError::ParseFailure,
            ),
        },
{
    let mut pos: usize = 0;
    let d1 = match get_endpoints(buf, &mut pos) {
        Ok(v) => v,
        Err(()) => {
            return Err(crate::error::RoutingError::ParseFailure);
        },
    };
    let d2 = match get_endpoints(buf, &mut pos) {
        Ok(v) => v,
        Err(()) => {
            return Err(crate::error::RoutingError::ParseFailure);
        },
    };
    let d3 = match get_endpoints(buf, &mut pos) {
        Ok(v) => v,
        Err(()) => {
            return Err(crate::error::RoutingError::ParseFailure);
        },
    };
    let d4 = match get_endpoints(buf, &mut pos) {
        Ok(v) => v,
        Err(()) => {
            return Err(crate::error::RoutingError::ParseFailure);
        },
    };
    let d5 = match get_name(buf, &mut pos) {
        Ok(v) => v,
        Err(()) => {
            return Err(crate::error::RoutingError::ParseFailure);
        },
    };
    let d6 = match get_name(buf, &mut pos) {
        Ok(v) => v,
        Err(()) => {
            return Err(crate::error::RoutingError::ParseFailure);
        },
    };
    let d7 = match get_public_pmid(buf, &mut pos) {
        Ok(v) => v,
        Err(()) => {
            return Err(crate::error::RoutingError::ParseFailure);
        },
    };
    if pos != buf.len() {
        return Err(crate::error::RoutingError::ParseFailure);
    }
    Ok(crate::messages::ConnectResponse { requester_local_endpoints: d1, requester_external_endpoints: d2, receiver_local_endpoints: d3, receiver_external_endpoints: d4, requester_id: d5, receiver_id: d6, receiver_fob: d7 })
}


// ----------------------------- find_group body --------------------------------

pub open spec fn enc_find_group(v: crate::messages::FindGroupV) -> Seq<u8> {
    enc_name(v.requester_id) + enc_name(v.target_id)
}

pub open spec fn find_group_wf(v: crate::messages::FindGroupV) -> bool {
    &&& v.requester_id.len() == 64
    &&& v.target_id.len() == 64
}

pub open spec fn parse_find_group(s: Seq<u8>, i: int) -> Option<(crate::messages::FindGroupV, int)> {
    match parse_name(s, i) {
        Option::None => Option::None,
        Option::Some((f1, n1)) => match parse_name(s, i + n1) {
        Option::None => Option::None,
        Option::Some((f2, n2)) => Option::Some((crate::messages::FindGroupV { requester_id: f1, target_id: f2 }, n1 + n2)),
    },
    }
}

pub proof fn lemma_parse_find_group(s: Seq<u8>, i: int, v: crate::messages::FindGroupV)
    requires
        0 <= i,
        find_group_wf(v),
        i + enc_find_group(v).len() <= s.len(),
        s.subrange(i, i + enc_find_group(v).len()) == enc_find_group(v),
    ensures
        parse_find_group(s, i) == Option::Some((v, enc_find_group(v).len() as int)),
{
    let e1 = enc_name(v.requester_id); let e2 = enc_name(v.target_id);
    assert(s.subrange(i, i + e1.len() + e2.len()) == e1 + e2) by {
        assert(e1 + e2 =~= enc_find_group(v));
    };
    lemma_split_range(s, i, e1, e2);
    lemma_parse_name(s, i, v.requester_id);
    lemma_parse_name(s, i + e1.len(), v.target_id);
}

/// Serialise a group enumeration request
pub fn encode_find_group(x: &crate::messages::FindGroup) -> (r: Vec<u8>)
    ensures
        r@ == enc_find_group(x@),
{
    let mut out: Vec<u8> = Vec::new();
    put_name(&mut out, &x.requester_id);
    put_name(&mut out, &x.target_id);
    proof {
        assert(out@ =~= enc_find_group(x@));
    }
    out
}

/// Decode a group enumeration request; the buffer must hold exactly one body.
pub fn decode_find_group(buf: &Vec<u8>) -> (r: Result<crate::messages::FindGroup, crate::error::RoutingError>)
    ensures
        match parse_find_group(buf@, 0) {
            Option::Some(p) => {
                if p.1 == buf@.len() {
                    &&& r is Ok
                    &&& (r matches Result::Ok(v) ==> v@ == p.0)
                } else {
                    r == Result::<crate::messages::FindGroup, crate::error::RoutingError>::Err(
                        crate::error::RoutingError::ParseFailure,
                    )
                }
            },
            Option::None => r == Result::<crate::messages::FindGroup, crate::error::RoutingError>::Err(
                crate::error::RoutingError::ParseFailure,
            ),
        },
{
    let mut pos: usize = 0;
    let d1 = match get_name(buf, &mut pos) {
        Ok(v) => v,
        Err(()) => {
            return Err(crate::error::RoutingError::ParseFailure);
        },
    };
    let d2 = match get_name(buf, &mut pos) {
        Ok(v) => v,
        Err(()) => {
            return Err(crate::error::RoutingError::ParseFailure);
        },
    };
    if pos != buf.len() {
        return Err(crate::error::RoutingError::ParseFailure);
    }
    Ok(crate::messages::FindGroup { requester_id: d1, target_id: d2 })
}


// ----------------------------- find_group_response body --------------------------------

pub open spec fn enc_find_group_response(v: crate::messages::FindGroupResponseV) -> Seq<u8> {
    enc_pmids(v.group)
}

pub open spec fn find_group_response_wf(v: crate::messages::FindGroupResponseV) -> bool {
    v.group.len() <= MAX_LIST_LEN && (forall|j: int| 0 <= j < v.group.len() ==> public_pmid_wf(#[trigger] v.group[j]))
}

pub open spec fn parse_find_group_response(s: Seq<u8>, i: int) -> Option<(crate::messages::FindGroupResponseV, int)> {
    match parse_pmids(s, i) {
        Option::None => Option::None,
        Option::Some((f1, n1)) => Option::Some((crate::messages::FindGroupResponseV { group: f1 }, n1)),
    }
}

pub proof fn lemma_parse_find_group_response(s: Seq<u8>, i: int, v: crate::messages::FindGroupResponseV)
    requires
        0 <= i,
        find_group_response_wf(v),
        i + enc_find_group_response(v).len() <= s.len(),
        s.subrange(i, i + enc_find_group_response(v).len()) == enc_find_group_response(v),
    ensures
        parse_find_group_response(s, i) == Option::Some((v, enc_find_group_response(v).len() as int)),
{
    let e1 = enc_pmids(v.group);
    lemma_parse_pmids(s, i, v.group);
}

/// Serialise a group enumeration answer
pub fn encode_find_group_response(x: &crate::messages::FindGroupResponse) -> (r: Vec<u8>)
    requires
        x.group@.len() <= MAX_LIST_LEN,
    ensures
        r@ == enc_find_group_response(x@),
{
    let mut out: Vec<u8> = Vec::new();
    put_pmids(&mut out, &x.group);
    proof {
        assert(out@ =~= enc_find_group_response(x@));
    }
    out
}

/// Decode a group enumeration answer; the buffer must hold exactly one body.
pub fn decode_find_group_response(buf: &Vec<u8>) -> (r: Result<crate::messages::FindGroupResponse, crate::error::RoutingError>)
    ensures
        match parse_find_group_response(buf@, 0) {
            Option::Some(p) => {
                if p.1 == buf@.len() {
                    &&& r is Ok
                    &&& (r matches Result::Ok(v) ==> v@ == p.0)
                } else {
                    r == Result::<crate::messages::FindGroupResponse, crate::error::RoutingError>::Err(
                        crate::error::RoutingError::ParseFailure,
                    )
                }
            },
            Option::None => r == Result::<crate::messages::FindGroupResponse, crate::error::RoutingError>::Err(
                crate::error::RoutingError::ParseFailure,
            ),
        },
{
    let mut pos: usize = 0;
    let d1 = match get_pmids(buf, &mut pos) {
        Ok(v) => v,
        Err(()) => {
            return Err(crate::error::RoutingError::ParseFailure);
        },
    };
    if pos != buf.len() {
        return Err(crate::error::RoutingError::ParseFailure);
    }
    Ok(crate::messages::FindGroupResponse { group: d1 })
}


// ----------------------------- get_group_key_response body --------------------------------

pub open spec fn enc_get_group_key_response(v: crate::messages::GetGroupKeyResponseV) -> Seq<u8> {
    enc_name_keys(v.public_sign_keys)
}

pub open spec fn get_group_key_response_wf(v: crate::messages::GetGroupKeyResponseV) -> bool {
    v.public_sign_keys.len() <= MAX_LIST_LEN && (forall|j: int| 0 <= j < v.public_sign_keys.len() ==> name_and_key_wf(#[trigger] v.public_sign_keys[j]))
}

pub open spec fn parse_get_group_key_response(s: Seq<u8>, i: int) -> Option<(crate::messages::GetGroupKeyResponseV, int)> {
    match parse_name_keys(s, i) {
        Option::None => Option::None,
        Option::Some((f1, n1)) => Option::Some((crate::messages::GetGroupKeyResponseV { public_sign_keys: f1 }, n1)),
    }
}

pub proof fn lemma_parse_get_group_key_response(s: Seq<u8>, i: int, v: crate::messages::GetGroupKeyResponseV)
    requires
        0 <= i,
        get_group_key_response_wf(v),
        i + enc_get_group_key_response(v).len() <= s.len(),
        s.subrange(i, i + enc_get_group_key_response(v).len()) == enc_get_group_key_response(v),
    ensures
        parse_get_group_key_response(s, i) == Option::Some((v, enc_get_group_key_response(v).len() as int)),
{
    let e1 = enc_name_keys(v.public_sign_keys);
    lemma_parse_name_keys(s, i, v.public_sign_keys);
}

/// Serialise a group key answer
pub fn encode_get_group_key_response(x: &crate::messages::GetGroupKeyResponse) -> (r: Vec<u8>)
    requires
        x.public_sign_keys@.len() <= MAX_LIST_LEN,
    ensures
        r@ == enc_get_group_key_response(x@),
{
    let mut out: Vec<u8> = Vec::new();
    put_name_keys(&mut out, &x.public_sign_keys);
    proof {
        assert(out@ =~= enc_get_group_key_response(x@));
    }
    out
}

/// Decode a group key answer; the buffer must hold exactly one body.
pub fn decode_get_group_key_response(buf: &Vec<u8>) -> (r: Result<crate::messages::GetGroupKeyResponse, crate::error::RoutingError>)
    ensures
        match parse_get_group_key_response(buf@, 0) {
            Option::Some(p) => {
                if p.1 == buf@.len() {
                    &&& r is Ok
                    &&& (r matches Result::Ok(v) ==> v@ == p.0)
                } else {
                    r == Result::<crate::messages::GetGroupKeyResponse, crate::error::RoutingError>::Err(
                        crate::error::RoutingError::ParseFailure,
                    )
                }
            },
            Option::None => r == Result::<crate::messages::GetGroupKeyResponse, crate::error::RoutingError>::Err(
                crate::error::RoutingError::ParseFailure,
            ),
        },
{
    let mut pos: usize = 0;
    let d1 = match get_name_keys(buf, &mut pos) {
        Ok(v) => v,
        Err(()) => {
            return Err(crate::error::RoutingError::ParseFailure);
        },
    };
    if pos != buf.len() {
        return Err(crate::error::RoutingError::ParseFailure);
    }
    Ok(crate::messages::GetGroupKeyResponse { public_sign_keys: d1 })
}


// ----------------------------- get_key body --------------------------------

pub open spec fn enc_get_key(v: crate::messages::GetKeyV) -> Seq<u8> {
    enc_source(v.requester) + enc_name(v.target_id)
}

pub open spec fn get_key_wf(v: crate::messages::GetKeyV) -> bool {
    &&& source_wf(v.requester)
    &&& v.target_id.len() == 64
}

pub open spec fn parse_get_key(s: Seq<u8>, i: int) -> Option<(crate::messages::GetKeyV, int)> {
    match parse_source(s, i) {
        Option::None => Option::None,
        Option::Some((f1, n1)) => match parse_name(s, i + n1) {
        Option::None => Option::None,
        Option::Some((f2, n2)) => Option::Some((crate::messages::GetKeyV { requester: f1, target_id: f2 }, n1 + n2)),
    },
    }
}

pub proof fn lemma_parse_get_key(s: Seq<u8>, i: int, v: crate::messages::GetKeyV)
    requires
        0 <= i,
        get_key_wf(v),
        i + enc_get_key(v).len() <= s.len(),
        s.subrange(i, i + enc_get_key(v).len()) == enc_get_key(v),
    ensures
        parse_get_key(s, i) == Option::Some((v, enc_get_key(v).len() as int)),
{
    let e1 = enc_source(v.requester); let e2 = enc_name(v.target_id);
    assert(s.subrange(i, i + e1.len() + e2.len()) == e1 + e2) by {
        assert(e1 + e2 =~= enc_get_key(v));
    };
    lemma_split_range(s, i, e1, e2);
    lemma_parse_source(s, i, v.requester);
    lemma_parse_name(s, i + e1.len(), v.target_id);
}

/// Serialise a key request
pub fn encode_get_key(x: &crate::messages::GetKey) -> (r: Vec<u8>)
    ensures
        r@ == enc_get_key(x@),
{
    let mut out: Vec<u8> = Vec::new();
    put_source(&mut out, &x.requester);
    put_name(&mut out, &x.target_id);
    proof {
        assert(out@ =~= enc_get_key(x@));
    }
    out
}

/// Decode a key request; the buffer must hold exactly one body.
pub fn decode_get_key(buf: &Vec<u8>) -> (r: Result<crate::messages::GetKey, crate::error::RoutingError>)
    ensures
        match parse_get_key(buf@, 0) {
            Option::Some(p) => {
                if p.1 == buf@.len() {
                    &&& r is Ok
                    &&& (r matches Result::Ok(v) ==> v@ == p.0)
                } else {
                    r == Result::<crate::messages::GetKey, crate::error::RoutingError>::Err(
                        crate::error::RoutingError::ParseFailure,
                    )
                }
            },
            Option::None => r == Result::<crate::messages::GetKey, crate::error::RoutingError>::Err(
                crate::error::RoutingError::ParseFailure,
            ),
        },
{
    let mut pos: usize = 0;
    let d1 = match get_source(buf, &mut pos) {
        Ok(v) => v,
        Err(()) => {
            return Err(crate::error::RoutingError::ParseFailure);
        },
    };
    let d2 = match get_name(buf, &mut pos) {
        Ok(v) => v,
        Err(()) => {
            return Err(crate::error::RoutingError::ParseFailure);
        },
    };
    if pos != buf.len() {
        return Err(crate::error::RoutingError::ParseFailure);
    }
    Ok(crate::messages::GetKey { requester: d1, target_id: d2 })
}


// ----------------------------- get_key_response body --------------------------------

pub open spec fn enc_get_key_response(v: crate::messages::GetKeyResponseV) -> Seq<u8> {
    enc_name(v.address) + enc_bytes(v.public_sign_key)
}

pub open spec fn get_key_response_wf(v: crate::messages::GetKeyResponseV) -> bool {
    &&& v.address.len() == 64
    &&& v.public_sign_key.len() < 0x1_0000_0000_0000_0000
}

pub open spec fn parse_get_key_response(s: Seq<u8>, i: int) -> Option<(crate::messages::GetKeyResponseV, int)> {
    match parse_name(s, i) {
        Option::None => Option::None,
        Option::Some((f1, n1)) => match parse_bytes(s, i + n1) {
        Option::None => Option::None,
        Option::Some((f2, n2)) => Option::Some((crate::messages::GetKeyResponseV { address: f1, public_sign_key: f2 }, n1 + n2)),
    },
    }
}

pub proof fn lemma_parse_get_key_response(s: Seq<u8>, i: int, v: crate::messages::GetKeyResponseV)
    requires
        0 <= i,
        get_key_response_wf(v),
        i + enc_get_key_response(v).len() <= s.len(),
        s.subrange(i, i + enc_get_key_response(v).len()) == enc_get_key_response(v),
    ensures
        parse_get_key_response(s, i) == Option::Some((v, enc_get_key_response(v).len() as int)),
{
    let e1 = enc_name(v.address); let e2 = enc_bytes(v.public_sign_key);
    assert(s.subrange(i, i + e1.len() + e2.len()) == e1 + e2) by {
        assert(e1 + e2 =~= enc_get_key_response(v));
    };
    lemma_split_range(s, i, e1, e2);
    lemma_parse_name(s, i, v.address);
    lemma_parse_bytes(s, i + e1.len(), v.public_sign_key);
}

/// Serialise a key answer
pub fn encode_get_key_response(x: &crate::messages::GetKeyResponse) -> (r: Vec<u8>)
    ensures
        r@ == enc_get_key_response(x@),
{
    let mut out: Vec<u8> = Vec::new();
    put_name(&mut out, &x.address);
    put_bytes(&mut out, &x.public_sign_key.key);
    proof {
        assert(out@ =~= enc_get_key_response(x@));
    }
    out
}

/// Decode a key answer; the buffer must hold exactly one body.
pub fn decode_get_key_response(buf: &Vec<u8>) -> (r: Result<crate::messages::GetKeyResponse, crate::error::RoutingError>)
    ensures
        match parse_get_key_response(buf@, 0) {
            Option::Some(p) => {
                if p.1 == buf@.len() {
                    &&& r is Ok
                    &&& (r matches Result::Ok(v) ==> v@ == p.0)
                } else {
                    r == Result::<crate::messages::GetKeyResponse, crate::error::RoutingError>::Err(
                        crate::error::RoutingError::ParseFailure,
                    )
                }
            },
            Option::None => r == Result::<crate::messages::GetKeyResponse, crate::error::RoutingError>::Err(
                crate::error::RoutingError::ParseFailure,
            ),
        },
{
    let mut pos: usize = 0;
    let d1 = match get_name(buf, &mut pos) {
        Ok(v) => v,
        Err(()) => {
            return Err(crate::error::RoutingError::ParseFailure);
        },
    };
    let d2 = match get_bytes(buf, &mut pos) {
        Ok(v) => v,
        Err(()) => {
            return Err(crate::error::RoutingError::ParseFailure);
        },
    };
    if pos != buf.len() {
        return Err(crate::error::RoutingError::ParseFailure);
    }
    Ok(crate::messages::GetKeyResponse { address: d1, public_sign_key: crate::types::PublicSignKey { key: d2 } })
}


// ----------------------------- put_public_pmid body --------------------------------

pub open spec fn enc_put_public_pmid(v: crate::messages::PutPublicPmidV) -> Seq<u8> {
    enc_public_pmid(v.public_pmid)
}

pub open spec fn put_public_pmid_wf(v: crate::messages::PutPublicPmidV) -> bool {
    public_pmid_wf(v.public_pmid)
}

pub open spec fn parse_put_public_pmid(s: Seq<u8>, i: int) -> Option<(crate::messages::PutPublicPmidV, int)> {
    match parse_public_pmid(s, i) {
        Option::None => Option::None,
        Option::Some((f1, n1)) => Option::Some((crate::messages::PutPublicPmidV { public_pmid: f1 }, n1)),
    }
}

pub proof fn lemma_parse_put_public_pmid(s: Seq<u8>, i: int, v: crate::messages::PutPublicPmidV)
    requires
        0 <= i,
        put_public_pmid_wf(v),
        i + enc_put_public_pmid(v).len() <= s.len(),
        s.subrange(i, i + enc_put_public_pmid(v).len()) == enc_put_public_pmid(v),
    ensures
        parse_put_public_pmid(s, i) == Option::Some((v, enc_put_public_pmid(v).len() as int)),
{
    let e1 = enc_public_pmid(v.public_pmid);
    lemma_parse_public_pmid(s, i, v.public_pmid);
}

/// Serialise an identity publication
pub fn encode_put_public_pmid(x: &crate::messages::PutPublicPmid) -> (r: Vec<u8>)
    ensures
        r@ == enc_put_public_pmid(x@),
{
    let mut out: Vec<u8> = Vec::new();
    put_public_pmid(&mut out, &x.public_pmid);
    proof {
        assert(out@ =~= enc_put_public_pmid(x@));
    }
    out
}

/// Decode an identity publication; the buffer must hold exactly one body.
pub fn decode_put_public_pmid(buf: &Vec<u8>) -> (r: Result<crate::messages::PutPublicPmid, crate::error::RoutingError>)
    ensures
        match parse_put_public_pmid(buf@, 0) {
            Option::Some(p) => {
                if p.1 == buf@.len() {
                    &&& r is Ok
                    &&& (r matches Result::Ok(v) ==> v@ == p.0)
                } else {
                    r == Result::<crate::messages::PutPublicPmid, crate::error::RoutingError>::Err(
                        crate::error::RoutingError::ParseFailure,
                    )
                }
            },
            Option::None => r == Result::<crate::messages::PutPublicPmid, crate::error::RoutingError>::Err(
                crate::error::RoutingError::ParseFailure,
            ),
        },
{
    let mut pos: usize = 0;
    let d1 = match get_public_pmid(buf, &mut pos) {
        Ok(v) => v,
        Err(()) => {
            return Err(crate::error::RoutingError::ParseFailure);
        },
    };
    if pos != buf.len() {
        return Err(crate::error::RoutingError::ParseFailure);
    }
    Ok(crate::messages::PutPublicPmid { public_pmid: d1 })
}


// ------------------- single-name bodies and the key codec ------------------

pub open spec fn enc_single_name(n: Seq<u8>) -> Seq<u8> {
    enc_name(n)
}

pub open spec fn parse_single_name(s: Seq<u8>, i: int) -> Option<(Seq<u8>, int)> {
    parse_name(s, i)
}

/// Serialise the body of a bootstrap handshake frame or a group key request:
/// one name.
pub fn encode_single_name(n: &NameType) -> (r: Vec<u8>)
    ensures
        r@ == enc_single_name(n@),
{
    let mut out: Vec<u8> = Vec::new();
    put_name(&mut out, n);
    proof {
        assert(out@ =~= enc_single_name(n@));
    }
    out
}

/// Decode a single-name body; the buffer must hold exactly the 64 bytes.
pub fn decode_single_name(buf: &Vec<u8>) -> (r: Result<NameType, crate::error::RoutingError>)
    ensures
        match parse_single_name(buf@, 0) {
            Option::Some(p) => {
                if p.1 == buf@.len() {
                    &&& r is Ok
                    &&& (r matches Result::Ok(v) ==> v@ == p.0)
                } else {
                    r == Result::<NameType, crate::error::RoutingError>::Err(
                        crate::error::RoutingError::ParseFailure,
                    )
                }
            },
            Option::None => r == Result::<NameType, crate::error::RoutingError>::Err(
                crate::error::RoutingError::ParseFailure,
            ),
        },
{
    let mut pos: usize = 0;
    let n = match get_name(buf, &mut pos) {
        Ok(v) => v,
        Err(()) => {
            return Err(crate::error::RoutingError::ParseFailure);
        },
    };
    if pos != buf.len() {
        return Err(crate::error::RoutingError::ParseFailure);
    }
    Ok(n)
}

pub open spec fn enc_public_sign_key(k: Seq<u8>) -> Seq<u8> {
    enc_bytes(k)
}

pub open spec fn parse_public_sign_key(s: Seq<u8>, i: int) -> Option<(Seq<u8>, int)> {
    parse_bytes(s, i)
}

/// Serialise a bare public signing key, as carried inside a key answer's
/// payload.
pub fn encode_public_sign_key(k: &crate::types::PublicSignKey) -> (r: Vec<u8>)
    ensures
        r@ == enc_public_sign_key(k@),
{
    let mut out: Vec<u8> = Vec::new();
    put_bytes(&mut out, &k.key);
    proof {
        assert(out@ =~= enc_public_sign_key(k@));
    }
    out
}

/// Decode a bare public signing key.
pub fn decode_public_sign_key(buf: &Vec<u8>) -> (r: Result<
    crate::types::PublicSignKey,
    crate::error::RoutingError,
>)
    ensures
        match parse_public_sign_key(buf@, 0) {
            Option::Some(p) => {
                if p.1 == buf@.len() {
                    &&& r is Ok
                    &&& (r matches Result::Ok(v) ==> v@ == p.0)
                } else {
                    r == Result::<
                        crate::types::PublicSignKey,
                        crate::error::RoutingError,
                    >::Err(crate::error::RoutingError::ParseFailure)
                }
            },
            Option::None => r == Result::<
                crate::types::PublicSignKey,
                crate::error::RoutingError,
            >::Err(crate::error::RoutingError::ParseFailure),
        },
{
    let mut pos: usize = 0;
    let k = match get_bytes(buf, &mut pos) {
        Ok(v) => v,
        Err(()) => {
            return Err(crate::error::RoutingError::ParseFailure);
        },
    };
    if pos != buf.len() {
        return Err(crate::error::RoutingError::ParseFailure);
    }
    Ok(crate::types::PublicSignKey { key: k })
}

// ----------------------------- fingerprint ---------------------------------

/// The fingerprint that identifies one logical message across hops: the
/// source, the destination, the message counter and the type tag.  Two
/// frames carry the same fingerprint exactly when these four agree.
pub open spec fn fingerprint_spec(
    h: crate::message_header::MessageHeaderV,
    t: MessageTypeTag,
) -> Seq<u8> {
    enc_source(h.source) + enc_destination(h.destination) + enc_u32(h.message_id)
        + enc_message_type(t)
}

/// Compute the duplicate-filter fingerprint of a message.
pub fn fingerprint(h: &crate::message_header::MessageHeader, t: MessageTypeTag) -> (r: Vec<u8>)
    ensures
        r@ == fingerprint_spec(h@, t),
{
    let mut out: Vec<u8> = Vec::new();
    put_source(&mut out, &h.source);
    put_destination(&mut out, &h.destination);
    put_u32(&mut out, h.message_id);
    put_message_type(&mut out, t);
    proof {
        assert(out@ =~= fingerprint_spec(h@, t));
    }
    out
}


/// A parsed endpoint list has exactly the announced element count.
proof fn lemma_parse_endpoint_list_len(s: Seq<u8>, i: int, n: nat)
    ensures
        match parse_endpoint_list(s, i, n) {
            Option::Some(p) => p.0.len() == n,
            Option::None => true,
        },
    decreases n,
{
    if n > 0 {
        match parse_endpoint(s, i) {
            Option::Some((e, k)) => {
                lemma_parse_endpoint_list_len(s, i + k, (n - 1) as nat);
            },
            Option::None => {},
        }
    }
}

/// Parsed endpoint lists respect the wire cap.
pub proof fn lemma_parse_endpoints_len(s: Seq<u8>, i: int)
    ensures
        match parse_endpoints(s, i) {
            Option::Some(p) => p.0.len() <= MAX_LIST_LEN,
            Option::None => true,
        },
{
    match parse_u64(s, i) {
        Option::Some((n, _)) => {
            if n <= MAX_LIST_LEN {
                lemma_parse_endpoint_list_len(s, i + 8, n as nat);
            }
        },
        Option::None => {},
    }
}

/// Both endpoint lists of a parsed connect request respect the wire cap.
pub proof fn lemma_connect_request_lens(b: Seq<u8>)
    ensures
        match parse_connect_request(b, 0) {
            Option::Some(p) => p.0.local_endpoints.len() <= MAX_LIST_LEN
                && p.0.external_endpoints.len() <= MAX_LIST_LEN,
            Option::None => true,
        },
{
    lemma_parse_endpoints_len(b, 0);
    match parse_endpoints(b, 0) {
        Option::Some((_, n1)) => {
            lemma_parse_endpoints_len(b, n1);
        },
        Option::None => {},
    }
}

} // verus!
