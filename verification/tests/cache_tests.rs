use hopper::cache::new_resolve_aturi_cache;
use hopper::cache::new_resolve_webhostmeta_cache;
use hopper::cache::DiscoveryCache;
use hopper::cache::ResolutionCache;
use hopper::cache::ResolveAtUriResult;
use hopper::cache::ResolveWebHostMetaResult;
use hopper::webhostmeta::Link;
use hopper::webhostmeta::WebHostMeta;

const MIN_10: u64 = 10 * 60 * 1000;
const MIN_30: u64 = 30 * 60 * 1000;

fn sample_doc() -> WebHostMeta {
    WebHostMeta::new(vec![Link::new("https://srv.example/{identity}", None)])
}

#[test]
fn discovery_success_never_expires_on_time() {
    let mut cache = new_resolve_webhostmeta_cache();
    cache.insert("srv.example", ResolveWebHostMetaResult::Found(sample_doc()), 0);
    let far_future: u64 = 1000 * 24 * 60 * 60 * 1000;
    match cache.get("srv.example", far_future) {
        Some(ResolveWebHostMetaResult::Found(doc)) => {
            assert_eq!(doc.links.len(), 1);
        }
        _ => panic!("success entry should still be cached"),
    }
}

#[test]
fn discovery_failure_expires_after_ten_minutes() {
    let mut cache = new_resolve_webhostmeta_cache();
    cache.insert(
        "srv.example",
        ResolveWebHostMetaResult::NotFound("connection refused".to_string()),
        0,
    );
    match cache.get("srv.example", MIN_10 - 1) {
        Some(ResolveWebHostMetaResult::NotFound(m)) => assert_eq!(m, "connection refused"),
        _ => panic!("failure should still be remembered just before expiry"),
    }
    assert!(cache.get("srv.example", MIN_10).is_none());
    assert!(cache.get("srv.example", MIN_10 + 1).is_none());
}

#[test]
fn discovery_capacity_is_enforced() {
    let mut cache = DiscoveryCache::with_capacity(3);
    for (i, host) in ["a.example", "b.example", "c.example", "d.example", "e.example"]
        .iter()
        .enumerate()
    {
        cache.insert(host, ResolveWebHostMetaResult::Found(sample_doc()), i as u64);
    }
    assert!(cache.len() <= 3);
    assert!(cache.get("e.example", 10).is_some());
}

#[test]
fn discovery_reinsert_replaces() {
    let mut cache = new_resolve_webhostmeta_cache();
    cache.insert("srv.example", ResolveWebHostMetaResult::NotFound("boom".to_string()), 0);
    cache.insert("srv.example", ResolveWebHostMetaResult::Found(sample_doc()), 1);
    assert_eq!(cache.len(), 1);
    match cache.get("srv.example", 2) {
        Some(ResolveWebHostMetaResult::Found(_)) => {}
        _ => panic!("replacement should win"),
    }
}

#[test]
fn resolution_success_expires_after_thirty_minutes() {
    let mut cache = new_resolve_aturi_cache();
    cache.insert("12345", ResolveAtUriResult::Found("https://x.example/a".to_string()), 0);
    match cache.get("12345", MIN_30 - 1) {
        Some(ResolveAtUriResult::Found(u)) => assert_eq!(u, "https://x.example/a"),
        _ => panic!("success should be remembered just before expiry"),
    }
    assert!(cache.get("12345", MIN_30).is_none());
}

#[test]
fn resolution_failure_expires_after_ten_minutes() {
    let mut cache = new_resolve_aturi_cache();
    cache.insert(
        "12345",
        ResolveAtUriResult::NotFound("error-web-unsupported-aturi Unsupported AT-URI".to_string()),
        0,
    );
    match cache.get("12345", MIN_10 - 1) {
        Some(ResolveAtUriResult::NotFound(_)) => {}
        _ => panic!("failure should be remembered just before expiry"),
    }
    assert!(cache.get("12345", MIN_10).is_none());
}

#[test]
fn resolution_capacity_is_enforced() {
    let mut cache = ResolutionCache::with_capacity(2);
    cache.insert("1", ResolveAtUriResult::Found("https://a.example".to_string()), 0);
    cache.insert("2", ResolveAtUriResult::Found("https://b.example".to_string()), 1);
    cache.insert("3", ResolveAtUriResult::Found("https://c.example".to_string()), 2);
    assert!(cache.len() <= 2);
    assert!(cache.get("3", 3).is_some());
}

#[test]
fn distinct_keys_do_not_collide() {
    let mut cache = new_resolve_aturi_cache();
    cache.insert("1", ResolveAtUriResult::Found("https://a.example".to_string()), 0);
    cache.insert("2", ResolveAtUriResult::Found("https://b.example".to_string()), 0);
    match cache.get("1", 1) {
        Some(ResolveAtUriResult::Found(u)) => assert_eq!(u, "https://a.example"),
        _ => panic!("entry for key 1 should survive inserting key 2"),
    }
    assert!(cache.get("nope", 1).is_none());
}
