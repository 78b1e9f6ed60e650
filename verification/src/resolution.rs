//! Resolutions served from memory: the resolver behind the cache.
//!
//! A resolution is kept under the bucket and the request path, whether it
//! found a key or not, and served from there while it is fresh.

use vstd::prelude::*;
use vstd::string::*;
use crate::cache::{Cache, CacheView, Lookup, LookupView};
use crate::resolver::{candidates, find_exists_key, key_view, probe_outcome};

verus! {

/// The number of resolutions that are kept.
pub const RESOLUTION_CAPACITY: usize = 32768;

/// The number of seconds for which a resolution is served from memory.
pub const RESOLUTION_TTL_SECS: u64 = 120;

/// The key under which what belongs to a bucket and a path is kept: the
/// bucket, a colon, the path.
pub open spec fn cache_key_of(bucket: Seq<char>, path: Seq<char>) -> Seq<char> {
    bucket + ":"@ + path
}

/// The key under which what belongs to a bucket and a path is kept.
pub fn cache_key(bucket: &str, path: &str) -> (key: String)
    ensures
        key@ == cache_key_of(bucket@, path@),
{
    String::from_str(bucket).concat(":").concat(path)
}

/// An empty cache for resolutions: 32768 of them, each for 120 seconds.
pub fn create_short_cache() -> (cache: Cache)
    ensures
        cache@.wf(),
        cache@ == (CacheView {
            ready: Seq::empty(),
            pending: Set::empty(),
            capacity: 32768,
            ttl: 120,
        }),
{
    Cache::new(RESOLUTION_CAPACITY, RESOLUTION_TTL_SECS)
}

/// Resolves a request path of a bucket, from memory where a fresh
/// resolution is kept. A kept resolution is returned as it is, without
/// asking the oracle. Otherwise the path is resolved against the oracle,
/// and the result, a key or none, is kept from `now` on; unless another
/// resolution of the same path is marked as under way, in which case the
/// result is returned and the cache is left as it is.
pub fn find_exists_key_with_cache<F: Fn(&String) -> bool>(
    cache: &mut Cache,
    oracle: &F,
    bucket: &str,
    pathname: &str,
    now: u64,
) -> (key: Option<String>)
    requires
        forall|k: &String| call_requires(oracle, (k,)),
    ensures
        old(cache)@.wf(),
        final(cache)@.wf(),
        match old(cache)@.lookup(cache_key_of(bucket@, pathname@), now) {
            LookupView::Hit(kept) => {
                &&& key_view(key) == kept
                &&& final(cache)@ == old(cache)@.after_begin(
                    cache_key_of(bucket@, pathname@),
                    now,
                )
            },
            LookupView::Compute => {
                &&& probe_outcome(oracle, candidates(pathname@), key_view(key))
                &&& final(cache)@ == old(cache)@.after_begin(
                    cache_key_of(bucket@, pathname@),
                    now,
                ).after_complete(cache_key_of(bucket@, pathname@), key_view(key), now)
            },
            LookupView::Wait => {
                &&& probe_outcome(oracle, candidates(pathname@), key_view(key))
                &&& final(cache)@ == old(cache)@
            },
        },
{
    let entry = cache_key(bucket, pathname);
    match cache.begin(entry.as_str(), now) {
        Lookup::Hit(kept) => kept,
        Lookup::Wait => {
            proof {
                crate::cache::law_single_flight(old(cache)@, entry@, now, entry@);
            }
            find_exists_key(oracle, pathname)
        },
        Lookup::Compute => {
            let key = find_exists_key(oracle, pathname);
            let copy = match &key {
                Some(k) => Some(k.clone()),
                None => None,
            };
            cache.complete(entry.as_str(), copy, now);
            key
        },
    }
}

/// Two buckets and paths are kept under one key only if they are the same
/// bucket and the same path, as long as no colon stands in a bucket's name.
pub proof fn law_cache_key_is_injective(
    bucket: Seq<char>,
    path: Seq<char>,
    other_bucket: Seq<char>,
    other_path: Seq<char>,
)
    requires
        !bucket.contains(':'),
        !other_bucket.contains(':'),
        cache_key_of(bucket, path) == cache_key_of(other_bucket, other_path),
    ensures
        bucket == other_bucket,
        path == other_path,
{
    reveal_strlit(":");
    let key = cache_key_of(bucket, path);
    let other = cache_key_of(other_bucket, other_path);
    assert(key[bucket.len() as int] == ':');
    assert(other[other_bucket.len() as int] == ':');
    if bucket.len() < other_bucket.len() {
        assert(other[bucket.len() as int] == other_bucket[bucket.len() as int]);
        assert(other_bucket.contains(other_bucket[bucket.len() as int]));
    } else if other_bucket.len() < bucket.len() {
        assert(key[other_bucket.len() as int] == bucket[other_bucket.len() as int]);
        assert(bucket.contains(bucket[other_bucket.len() as int]));
    } else {
        assert(bucket =~= key.take(bucket.len() as int));
        assert(other_bucket =~= other.take(bucket.len() as int));
        assert(path =~= key.skip(bucket.len() as int + 1));
        assert(other_path =~= other.skip(bucket.len() as int + 1));
    }
}

} // verus!
