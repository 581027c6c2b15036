use vstd::prelude::*;

use message_filter::MessageFilter;

verus! {

#[verifier::external_type_specification]
#[verifier::external_body]
#[verifier::reject_recursive_types(Message)]
pub struct ExMessageFilter<Message>(MessageFilter<Message>);

/// The messages the filter currently remembers.  The filter stores a hash
/// code per message with an expiry time; a message belongs to this set when
/// a stored, unexpired code equals its hash, so the set absorbs hash
/// collisions and shrinks as entries expire.
pub uninterp spec fn filter_seen(f: &MessageFilter<Vec<u8>>) -> Set<Seq<u8>>;

/// Relies on message_filter::MessageFilter::with_expiry_duration: a fresh
/// filter remembers nothing.  The lifetime is bounded because the filter
/// adds it to the current time on every insert and lookup, and a lifetime
/// near the top of the range would overflow that addition.
#[verifier::external_body]
pub fn filter_with_ttl_secs(secs: u64) -> (r: MessageFilter<Vec<u8>>)
    requires
        secs <= 0x4000_0000,
    ensures
        filter_seen(&r) == Set::<Seq<u8>>::empty(),
{
    MessageFilter::with_expiry_duration(std::time::Duration::from_secs(secs))
}

/// Relies on message_filter::MessageFilter::contains: it first drops expired
/// entries, then answers whether the message's hash is among those kept.
#[verifier::external_body]
pub fn filter_contains(f: &mut MessageFilter<Vec<u8>>, m: &Vec<u8>) -> (r: bool)
    ensures
        filter_seen(final(f)).subset_of(filter_seen(old(f))),
        r == filter_seen(final(f)).contains(m@),
{
    f.contains(m)
}

/// Relies on message_filter::MessageFilter::insert: afterwards the message's
/// hash is stored unexpired, so the message is remembered.
#[verifier::external_body]
pub fn filter_insert(f: &mut MessageFilter<Vec<u8>>, m: &Vec<u8>)
    ensures
        filter_seen(final(f)).contains(m@),
{
    let _ = f.insert(m);
}

} // verus!
