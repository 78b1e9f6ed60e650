use static_server::cache::{Cache, Lookup};
use static_server::presign::{
    create_url_cache, generate_presigned_url, presign_validity, MAX_PRESIGN_VALIDITY_SECS,
    PRESIGN_VALIDITY_SECS, URL_CACHE_CAPACITY, URL_CACHE_TTL_SECS,
};
use static_server::proxy::ProxyError;
use static_server::resolution::{
    cache_key, create_short_cache, find_exists_key_with_cache, RESOLUTION_CAPACITY,
    RESOLUTION_TTL_SECS,
};
use std::cell::Cell;

fn hit(value: &str) -> Lookup {
    Lookup::Hit(Some(value.to_string()))
}

fn same(told: Lookup, expected: Lookup) -> bool {
    match (told, expected) {
        (Lookup::Hit(a), Lookup::Hit(b)) => a == b,
        (Lookup::Wait, Lookup::Wait) => true,
        (Lookup::Compute, Lookup::Compute) => true,
        _ => false,
    }
}

#[test]
fn cache_key_joins_bucket_and_path_with_a_colon() {
    assert_eq!(cache_key("assets", "site/about"), "assets:site/about");
    assert_eq!(cache_key("assets", ""), "assets:");
    assert_eq!(cache_key("", "x"), ":x");
}

#[test]
fn short_cache_has_the_documented_bounds() {
    let cache = create_short_cache();
    assert_eq!(cache.capacity(), 32768);
    assert_eq!(cache.ttl(), 120);
    assert_eq!(cache.len(), 0);
    assert_eq!(RESOLUTION_CAPACITY, 32 * 1024);
    assert_eq!(RESOLUTION_TTL_SECS, 120);
}

#[test]
fn first_request_computes_and_the_next_ones_hit() {
    let mut cache = Cache::new(4, 60);
    assert!(same(cache.begin("k", 1000), Lookup::Compute));
    assert!(cache.complete("k", Some("v".to_string()), 1000));
    assert_eq!(cache.len(), 1);
    assert!(same(cache.begin("k", 1000), hit("v")));
    assert!(same(cache.begin("k", 1030), hit("v")));
    assert!(same(cache.begin("k", 1060), hit("v")));
    assert_eq!(cache.len(), 1);
}

#[test]
fn value_expires_after_the_time_to_live() {
    let mut cache = Cache::new(4, 60);
    assert!(same(cache.begin("k", 1000), Lookup::Compute));
    assert!(cache.complete("k", Some("v".to_string()), 1000));
    assert!(same(cache.begin("k", 1060), hit("v")));
    assert!(same(cache.begin("k", 1061), Lookup::Compute));
    assert_eq!(cache.len(), 0);
    assert!(cache.complete("k", Some("w".to_string()), 1061));
    assert!(same(cache.begin("k", 1100), hit("w")));
}

#[test]
fn a_clock_that_steps_back_keeps_values_fresh() {
    let mut cache = Cache::new(4, 60);
    assert!(same(cache.begin("k", 1000), Lookup::Compute));
    assert!(cache.complete("k", None, 1000));
    assert!(same(cache.begin("k", 10), Lookup::Hit(None)));
}

#[test]
fn negative_results_are_kept_like_positive_ones() {
    let mut cache = Cache::new(4, 60);
    assert!(same(cache.begin("missing", 5), Lookup::Compute));
    assert!(cache.complete("missing", None, 5));
    assert!(same(cache.begin("missing", 6), Lookup::Hit(None)));
    assert!(same(cache.begin("missing", 65), Lookup::Hit(None)));
    assert!(same(cache.begin("missing", 66), Lookup::Compute));
}

#[test]
fn report_without_a_mark_is_ignored() {
    let mut cache = Cache::new(4, 60);
    assert!(!cache.complete("k", Some("v".to_string()), 0));
    assert_eq!(cache.len(), 0);
    assert!(same(cache.begin("k", 0), Lookup::Compute));
    assert!(cache.complete("k", Some("v".to_string()), 0));
    assert!(!cache.complete("k", Some("other".to_string()), 1));
    assert!(same(cache.begin("k", 2), hit("v")));
}

#[test]
fn waiting_callers_do_not_compute() {
    let mut cache = Cache::new(4, 60);
    assert!(same(cache.begin("k", 0), Lookup::Compute));
    assert!(same(cache.begin("k", 0), Lookup::Wait));
    assert!(same(cache.begin("k", 7), Lookup::Wait));
    assert!(same(cache.begin("other", 7), Lookup::Compute));
    assert!(same(cache.begin("k", 8), Lookup::Wait));
    assert!(cache.complete("k", Some("v".to_string()), 9));
    assert!(same(cache.begin("k", 9), hit("v")));
    assert!(same(cache.begin("other", 9), Lookup::Wait));
}

#[test]
fn fifty_requests_for_one_uncached_key_share_one_resolution() {
    let calls = Cell::new(0);
    let oracle = |key: &String| {
        calls.set(calls.get() + 1);
        key == "site/index.html"
    };
    let mut cache = create_short_cache();
    let entry = cache_key("bucket", "site/about");
    let mut leaders = 0;
    let mut waiters = 0;
    for _ in 0..50 {
        match cache.begin(&entry, 100) {
            Lookup::Compute => leaders += 1,
            Lookup::Wait => waiters += 1,
            Lookup::Hit(_) => panic!("nothing was stored yet"),
        }
    }
    assert_eq!(leaders, 1);
    assert_eq!(waiters, 49);

    let resolved = static_server::resolver::find_exists_key(&oracle, "site/about");
    assert_eq!(calls.get(), 3);
    assert!(cache.complete(&entry, resolved.clone(), 101));

    for _ in 0..50 {
        assert!(same(cache.begin(&entry, 101), Lookup::Hit(resolved.clone())));
    }
    assert_eq!(resolved, Some("site/index.html".to_string()));
    assert_eq!(calls.get(), 3);
}

#[test]
fn abandoned_computation_lets_the_next_caller_compute() {
    let mut cache = Cache::new(4, 60);
    assert!(same(cache.begin("k", 0), Lookup::Compute));
    assert!(same(cache.begin("k", 0), Lookup::Wait));
    cache.abandon("k");
    assert!(same(cache.begin("k", 0), Lookup::Compute));
    cache.abandon("never-asked");
    assert_eq!(cache.len(), 0);
}

#[test]
fn least_recently_used_value_makes_room() {
    let mut cache = Cache::new(2, 60);
    for key in ["a", "b"] {
        assert!(same(cache.begin(key, 0), Lookup::Compute));
        assert!(cache.complete(key, Some(key.to_uppercase()), 0));
    }
    assert!(same(cache.begin("a", 1), hit("A")));
    assert!(same(cache.begin("c", 1), Lookup::Compute));
    assert!(cache.complete("c", Some("C".to_string()), 1));
    assert_eq!(cache.len(), 2);
    assert!(same(cache.begin("a", 2), hit("A")));
    assert!(same(cache.begin("c", 2), hit("C")));
    assert!(same(cache.begin("b", 2), Lookup::Compute));
}

#[test]
fn cache_without_room_stores_nothing() {
    let mut cache = Cache::new(0, 60);
    assert!(same(cache.begin("k", 0), Lookup::Compute));
    assert!(!cache.complete("k", Some("v".to_string()), 0));
    assert!(same(cache.begin("k", 0), Lookup::Compute));
    assert_eq!(cache.len(), 0);
}

#[test]
fn cached_resolution_asks_the_oracle_once_within_the_time_to_live() {
    let calls = Cell::new(0);
    let oracle = |key: &String| {
        calls.set(calls.get() + 1);
        key == "index.html"
    };
    let mut cache = create_short_cache();
    let first = find_exists_key_with_cache(&mut cache, &oracle, "bucket", "about", 1000);
    assert_eq!(first, Some("index.html".to_string()));
    assert_eq!(calls.get(), 4);
    let second = find_exists_key_with_cache(&mut cache, &oracle, "bucket", "about", 1120);
    assert_eq!(second, first);
    assert_eq!(calls.get(), 4);
    let third = find_exists_key_with_cache(&mut cache, &oracle, "bucket", "about", 1121);
    assert_eq!(third, first);
    assert_eq!(calls.get(), 8);
}

#[test]
fn cached_negative_result_turns_positive_only_after_expiry() {
    let present = Cell::new(false);
    let oracle = |key: &String| present.get() && key == "x";
    let mut cache = create_short_cache();
    assert_eq!(find_exists_key_with_cache(&mut cache, &oracle, "b", "x", 0), None);
    present.set(true);
    assert_eq!(find_exists_key_with_cache(&mut cache, &oracle, "b", "x", 1), None);
    assert_eq!(find_exists_key_with_cache(&mut cache, &oracle, "b", "x", 120), None);
    assert_eq!(find_exists_key_with_cache(&mut cache, &oracle, "b", "x", 121), Some("x".to_string()));
    present.set(false);
    assert_eq!(find_exists_key_with_cache(&mut cache, &oracle, "b", "x", 200), Some("x".to_string()));
    assert_eq!(find_exists_key_with_cache(&mut cache, &oracle, "b", "x", 242), None);
}

#[test]
fn cached_resolutions_are_kept_per_bucket_and_path() {
    let oracle = |key: &String| key == "index.html";
    let mut cache = create_short_cache();
    assert_eq!(
        find_exists_key_with_cache(&mut cache, &oracle, "one", "a", 0),
        Some("index.html".to_string())
    );
    let empty = |_: &String| false;
    assert_eq!(find_exists_key_with_cache(&mut cache, &empty, "two", "a", 0), None);
    assert_eq!(find_exists_key_with_cache(&mut cache, &empty, "one", "b/", 0), None);
    assert_eq!(
        find_exists_key_with_cache(&mut cache, &empty, "one", "a", 0),
        Some("index.html".to_string())
    );
    assert_eq!(cache.len(), 3);
}

#[test]
fn cached_resolution_while_another_is_under_way_leaves_the_cache() {
    let oracle = |key: &String| key == "a";
    let mut cache = create_short_cache();
    assert!(same(cache.begin("b:a", 0), Lookup::Compute));
    assert_eq!(find_exists_key_with_cache(&mut cache, &oracle, "b", "a", 0), Some("a".to_string()));
    assert_eq!(cache.len(), 0);
    assert!(same(cache.begin("b:a", 0), Lookup::Wait));
}

#[test]
fn url_cache_serves_for_less_than_the_signature_lasts() {
    let cache = create_url_cache();
    assert_eq!(cache.capacity(), 8192);
    assert_eq!(cache.ttl(), 1800);
    assert_eq!(URL_CACHE_CAPACITY, 8 * 1024);
    assert_eq!(URL_CACHE_TTL_SECS, 30 * 60);
    assert_eq!(PRESIGN_VALIDITY_SECS, 3600);
    assert!(URL_CACHE_TTL_SECS < PRESIGN_VALIDITY_SECS);
}

#[test]
fn presign_validity_is_at_most_one_week() {
    assert_eq!(MAX_PRESIGN_VALIDITY_SECS, 7 * 24 * 3600);
    assert_eq!(presign_validity(0), Ok(0));
    assert_eq!(presign_validity(3600), Ok(3600));
    assert_eq!(presign_validity(604800), Ok(604800));
    assert_eq!(presign_validity(604801), Err(ProxyError::SigningFailure));
    assert_eq!(presign_validity(u64::MAX), Err(ProxyError::SigningFailure));
}

#[test]
fn signed_url_is_made_once_and_shared_by_key() {
    let calls = Cell::new(0);
    let signer = |bucket: &String, key: &String, secs: u64| {
        calls.set(calls.get() + 1);
        Some(format!("https://{}.store/{}?expires={}&n={}", bucket, key, secs, calls.get()))
    };
    let mut cache = create_url_cache();
    let first = generate_presigned_url(&mut cache, &signer, "b", "index.html", 0);
    assert_eq!(first, Ok("https://b.store/index.html?expires=3600&n=1".to_string()));
    let again = generate_presigned_url(&mut cache, &signer, "b", "index.html", 1800);
    assert_eq!(again, first);
    assert_eq!(calls.get(), 1);
    let later = generate_presigned_url(&mut cache, &signer, "b", "index.html", 1801);
    assert_eq!(later, Ok("https://b.store/index.html?expires=3600&n=2".to_string()));
    let other = generate_presigned_url(&mut cache, &signer, "b", "main.js", 1801);
    assert_eq!(other, Ok("https://b.store/main.js?expires=3600&n=3".to_string()));
}

#[test]
fn signing_failure_is_reported_and_not_kept() {
    let works = Cell::new(false);
    let signer = |_: &String, key: &String, _: u64| {
        if works.get() {
            Some(format!("https://store/{}", key))
        } else {
            None
        }
    };
    let mut cache = create_url_cache();
    assert_eq!(
        generate_presigned_url(&mut cache, &signer, "b", "k", 0),
        Err(ProxyError::SigningFailure)
    );
    assert_eq!(cache.len(), 0);
    works.set(true);
    assert_eq!(
        generate_presigned_url(&mut cache, &signer, "b", "k", 0),
        Ok("https://store/k".to_string())
    );
    works.set(false);
    assert_eq!(
        generate_presigned_url(&mut cache, &signer, "b", "k", 100),
        Ok("https://store/k".to_string())
    );
}
