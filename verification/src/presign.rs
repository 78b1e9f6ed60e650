//! Signed URLs served from memory.
//!
//! A signed URL is valid for [`PRESIGN_VALIDITY_SECS`] from the moment it
//! is made. It is kept under the bucket and the object key, and served from
//! there for [`URL_CACHE_TTL_SECS`], which is less: a URL that is served
//! has not expired. Request paths that resolve to one key share its URL.
//!
//! Making the URL is the caller's part: it holds the credentials.

use vstd::prelude::*;
use crate::cache::{is_fresh, Cache, CacheView, Lookup, LookupView};
use crate::path::text_view;
use crate::proxy::ProxyError;
use crate::resolution::{cache_key, cache_key_of};

verus! {

/// The number of seconds for which a signed URL is valid.
pub const PRESIGN_VALIDITY_SECS: u64 = 3600;

/// The longest validity that a signed URL can have: one week.
pub const MAX_PRESIGN_VALIDITY_SECS: u64 = 604800;

/// The number of seconds for which a signed URL is served from memory.
pub const URL_CACHE_TTL_SECS: u64 = 1800;

/// The number of signed URLs that are kept.
pub const URL_CACHE_CAPACITY: usize = 8192;

/// The signer may return `url` when asked to sign the key of the bucket
/// for the validity of [`PRESIGN_VALIDITY_SECS`].
pub open spec fn signed<S: Fn(&String, &String, u64) -> Option<String>>(
    signer: &S,
    bucket: Seq<char>,
    object: Seq<char>,
    url: Option<Seq<char>>,
) -> bool {
    exists|b: String, o: String, out: Option<String>|
        b@ == bucket && o@ == object && text_view(out) == url && call_ensures(
            signer,
            (&b, &o, 3600u64),
            out,
        )
}

/// An empty cache for signed URLs: 8192 of them, each for 1800 seconds.
pub fn create_url_cache() -> (cache: Cache)
    ensures
        cache@.wf(),
        cache@ == (CacheView {
            ready: Seq::empty(),
            pending: Set::empty(),
            capacity: 8192,
            ttl: 1800,
        }),
{
    Cache::new(URL_CACHE_CAPACITY, URL_CACHE_TTL_SECS)
}

/// The validity to sign with, checked against the longest that a signed
/// URL can have. A longer one cannot be signed.
pub fn presign_validity(secs: u64) -> (validity: Result<u64, ProxyError>)
    ensures
        secs <= MAX_PRESIGN_VALIDITY_SECS ==> validity == Ok::<u64, ProxyError>(secs),
        secs > MAX_PRESIGN_VALIDITY_SECS ==> validity == Err::<u64, ProxyError>(
            ProxyError::SigningFailure,
        ),
{
    if secs <= MAX_PRESIGN_VALIDITY_SECS {
        Ok(secs)
    } else {
        Err(ProxyError::SigningFailure)
    }
}

/// The signed URL for a key of a bucket, from memory where a fresh one is
/// kept. A kept URL is returned as it is, without asking the signer.
/// Otherwise the signer is asked; a URL that it makes is kept from `now`
/// on, a failure is not kept and is reported as a signing failure. While
/// the signing of the same key is marked as under way, the signer is asked
/// and the cache is left as it is.
pub fn generate_presigned_url<S: Fn(&String, &String, u64) -> Option<String>>(
    cache: &mut Cache,
    signer: &S,
    bucket_name: &str,
    object: &str,
    now: u64,
) -> (url: Result<String, ProxyError>)
    requires
        forall|b: &String, o: &String, secs: u64| call_requires(signer, (b, o, secs)),
    ensures
        old(cache)@.wf(),
        final(cache)@.wf(),
        url matches Err(e) ==> e == ProxyError::SigningFailure,
        match old(cache)@.lookup(cache_key_of(bucket_name@, object@), now) {
            LookupView::Hit(Some(kept)) => {
                &&& url matches Ok(u) && u@ == kept
                &&& final(cache)@ == old(cache)@.after_begin(
                    cache_key_of(bucket_name@, object@),
                    now,
                )
            },
            LookupView::Hit(None) => {
                &&& url is Err
                &&& final(cache)@ == old(cache)@.after_begin(
                    cache_key_of(bucket_name@, object@),
                    now,
                )
            },
            LookupView::Compute => match url {
                Ok(u) => {
                    &&& signed(signer, bucket_name@, object@, Some(u@))
                    &&& final(cache)@ == old(cache)@.after_begin(
                        cache_key_of(bucket_name@, object@),
                        now,
                    ).after_complete(cache_key_of(bucket_name@, object@), Some(u@), now)
                },
                Err(_) => {
                    &&& signed(signer, bucket_name@, object@, None)
                    &&& final(cache)@ == old(cache)@.after_begin(
                        cache_key_of(bucket_name@, object@),
                        now,
                    ).after_abandon(cache_key_of(bucket_name@, object@))
                },
            },
            LookupView::Wait => {
                &&& final(cache)@ == old(cache)@
                &&& match url {
                    Ok(u) => signed(signer, bucket_name@, object@, Some(u@)),
                    Err(_) => signed(signer, bucket_name@, object@, None),
                }
            },
        },
{
    let entry = cache_key(bucket_name, object);
    let told = cache.begin(entry.as_str(), now);
    match told {
        Lookup::Hit(Some(kept)) => Ok(kept),
        Lookup::Hit(None) => Err(ProxyError::SigningFailure),
        Lookup::Wait => {
            proof {
                crate::cache::law_single_flight(old(cache)@, entry@, now, entry@);
            }
            let bucket = bucket_name.to_owned();
            let key = object.to_owned();
            let made = signer(&bucket, &key, PRESIGN_VALIDITY_SECS);
            assert(signed(signer, bucket_name@, object@, text_view(made)));
            match made {
                Some(u) => Ok(u),
                None => Err(ProxyError::SigningFailure),
            }
        },
        Lookup::Compute => {
            let bucket = bucket_name.to_owned();
            let key = object.to_owned();
            let made = signer(&bucket, &key, PRESIGN_VALIDITY_SECS);
            assert(signed(signer, bucket_name@, object@, text_view(made)));
            match made {
                Some(u) => {
                    cache.complete(entry.as_str(), Some(u.clone()), now);
                    Ok(u)
                },
                None => {
                    cache.abandon(entry.as_str());
                    Err(ProxyError::SigningFailure)
                },
            }
        },
    }
}

/// A signed URL that is served from memory has not expired: whenever a URL
/// made at `created` is still fresh for the cache at `now`, less than its
/// validity has passed since it was made, and at least half an hour of its
/// validity is left.
pub proof fn law_served_url_is_valid(created: u64, now: u64)
    requires
        is_fresh(now, created, URL_CACHE_TTL_SECS),
    ensures
        URL_CACHE_TTL_SECS < PRESIGN_VALIDITY_SECS,
        PRESIGN_VALIDITY_SECS <= MAX_PRESIGN_VALIDITY_SECS,
        now - created < PRESIGN_VALIDITY_SECS,
        created + PRESIGN_VALIDITY_SECS - now >= 1800,
{
}

} // verus!
