use vstd::prelude::*;

use lru_time_cache::LruCache;

verus! {

#[verifier::external_type_specification]
#[verifier::external_body]
#[verifier::reject_recursive_types(Key)]
#[verifier::reject_recursive_types(Value)]
pub struct ExLruCache<Key, Value>(LruCache<Key, Value>);

/// The keys the cache currently stores, expired entries included: lookups
/// skip expired entries, and mutating calls may drop them, so the stored set
/// only ever shrinks between insertions.
pub uninterp spec fn cache_keys(c: &LruCache<Vec<u8>, Vec<u8>>) -> Set<Seq<u8>>;

/// Relies on lru_time_cache::LruCache::with_expiry_duration: a fresh cache
/// stores nothing.  The lifetime is bounded because the cache adds it to
/// entry timestamps on every insert, lookup and count, and a lifetime near
/// the top of the range would overflow those additions.
#[verifier::external_body]
pub fn cache_with_ttl_secs(secs: u64) -> (r: LruCache<Vec<u8>, Vec<u8>>)
    requires
        secs <= 0x4000_0000,
    ensures
        cache_keys(&r) == Set::<Seq<u8>>::empty(),
{
    LruCache::with_expiry_duration(std::time::Duration::from_secs(secs))
}

/// Relies on lru_time_cache::LruCache::insert: the key is stored afterwards,
/// and the call only ever evicts other entries, never adds them.
#[verifier::external_body]
pub fn cache_insert(c: &mut LruCache<Vec<u8>, Vec<u8>>, k: &Vec<u8>, v: Vec<u8>)
    ensures
        cache_keys(final(c)).contains(k@),
        cache_keys(final(c)).subset_of(cache_keys(old(c)).insert(k@)),
{
    let _ = c.insert(k.clone(), v);
}

/// Relies on lru_time_cache::LruCache::contains_key: it answers true only
/// for a stored, unexpired key.
#[verifier::external_body]
pub fn cache_contains(c: &LruCache<Vec<u8>, Vec<u8>>, k: &Vec<u8>) -> (r: bool)
    ensures
        r ==> cache_keys(c).contains(k@),
{
    c.contains_key(k)
}

/// Relies on lru_time_cache::LruCache::len: it counts the stored unexpired
/// entries, never more than all stored keys.
#[verifier::external_body]
pub fn cache_len(c: &LruCache<Vec<u8>, Vec<u8>>) -> (r: usize)
    ensures
        cache_keys(c).finite() ==> r <= cache_keys(c).len(),
{
    c.len()
}

} // verus!
