use hopper::cache::new_resolve_aturi_cache;
use hopper::cache::new_resolve_webhostmeta_cache;
use hopper::cache::ResolveAtUriResult;
use hopper::cache::ResolveWebHostMetaResult;
use hopper::model::validate_aturi;
use hopper::resolve::cache_key;
use hopper::resolve::parse_servers;
use hopper::resolve::Resolver;
use hopper::resolve::Step;
use hopper::webhostmeta::Link;
use hopper::webhostmeta::WebHostMeta;

const MIN_10: u64 = 10 * 60 * 1000;
const MIN_30: u64 = 30 * 60 * 1000;

fn fresh_resolver() -> Resolver {
    Resolver::new(new_resolve_webhostmeta_cache(), new_resolve_aturi_cache())
}

/// Drives one resolution to completion, answering every fetch request from
/// `lookup` and counting the fetches made.
fn resolve_once(
    resolver: &mut Resolver,
    input: &str,
    servers: &Vec<String>,
    now: u64,
    lookup: &dyn Fn(&str) -> ResolveWebHostMetaResult,
    fetches: &mut usize,
) -> Result<String, String> {
    let aturi = validate_aturi(input).expect("test inputs are valid identifiers");
    let (mut st, cached) = resolver.begin(input, servers, now);
    if let Some(outcome) = cached {
        return match outcome {
            ResolveAtUriResult::Found(u) => Ok(u),
            ResolveAtUriResult::NotFound(m) => Err(m),
        };
    }
    loop {
        match resolver.step(&aturi, servers, &mut st, now) {
            Step::Resolved(u) => return Ok(u),
            Step::Unresolved(m) => return Err(m),
            Step::NeedFetch(host) => {
                *fetches += 1;
                let outcome = lookup(&host);
                resolver.supply_discovery(&host, outcome, now);
            }
        }
    }
}

fn bsky_doc() -> WebHostMeta {
    WebHostMeta::new(vec![
        Link::new("https://bsky.app/profile/{identity}", None),
        Link::new(
            "https://bsky.app/profile/{identity}/post/{rkey}",
            Some("app.bsky.feed.post"),
        ),
    ])
}

#[test]
fn end_to_end_scenario() {
    let mut resolver = fresh_resolver();
    resolver.supply_discovery("bsky.app", ResolveWebHostMetaResult::Found(bsky_doc()), 0);
    let servers = vec!["bsky.app".to_string()];
    let mut fetches: usize = 0;
    let no_fetch = |_: &str| -> ResolveWebHostMetaResult {
        panic!("discovery is preloaded; nothing should be fetched")
    };

    assert_eq!(
        resolve_once(&mut resolver, "at://alice.bsky.social", &servers, 1, &no_fetch, &mut fetches),
        Ok("https://bsky.app/profile/alice.bsky.social".to_string())
    );
    assert_eq!(
        resolve_once(
            &mut resolver,
            "at://alice.bsky.social/app.bsky.feed.post/abc123",
            &servers,
            2,
            &no_fetch,
            &mut fetches,
        ),
        Ok("https://bsky.app/profile/alice.bsky.social/post/abc123".to_string())
    );
    let unknown = resolve_once(
        &mut resolver,
        "at://alice.bsky.social/com.example.unknown/abc123",
        &servers,
        3,
        &no_fetch,
        &mut fetches,
    );
    assert_eq!(
        unknown,
        Err("error-web-unsupported-aturi Unsupported AT-URI".to_string())
    );
    assert_eq!(fetches, 0);
}

#[test]
fn cached_resolution_suppresses_fetches_until_expiry() {
    let mut resolver = fresh_resolver();
    let servers = vec!["bsky.app".to_string()];
    let mut fetches: usize = 0;
    let serve = |host: &str| -> ResolveWebHostMetaResult {
        assert_eq!(host, "bsky.app");
        ResolveWebHostMetaResult::Found(bsky_doc())
    };

    let first = resolve_once(&mut resolver, "at://alice.bsky.social", &servers, 0, &serve, &mut fetches);
    assert_eq!(first, Ok("https://bsky.app/profile/alice.bsky.social".to_string()));
    assert_eq!(fetches, 1);

    // identical input and servers within the TTL: answered from the cache
    let again =
        resolve_once(&mut resolver, "at://alice.bsky.social", &servers, MIN_30 - 1, &serve, &mut fetches);
    assert_eq!(again, Ok("https://bsky.app/profile/alice.bsky.social".to_string()));
    assert_eq!(fetches, 1);

    // after thirty minutes the resolution is recomputed; the discovery
    // document itself never expires, so still nothing is fetched
    let later =
        resolve_once(&mut resolver, "at://alice.bsky.social", &servers, MIN_30, &serve, &mut fetches);
    assert_eq!(later, Ok("https://bsky.app/profile/alice.bsky.social".to_string()));
    assert_eq!(fetches, 1);
}

#[test]
fn failed_resolution_expires_after_ten_minutes() {
    let mut resolver = fresh_resolver();
    let servers = vec!["empty.example".to_string()];
    let mut fetches: usize = 0;
    let serve = |_: &str| -> ResolveWebHostMetaResult {
        ResolveWebHostMetaResult::Found(WebHostMeta::new(Vec::new()))
    };

    let first = resolve_once(&mut resolver, "at://alice.bsky.social", &servers, 0, &serve, &mut fetches);
    assert!(first.is_err());
    assert_eq!(fetches, 1);

    // the failure is remembered just before its expiry
    let again =
        resolve_once(&mut resolver, "at://alice.bsky.social", &servers, MIN_10 - 1, &serve, &mut fetches);
    assert!(again.is_err());
    assert_eq!(fetches, 1);
}

#[test]
fn failed_fetch_retried_only_after_ten_minutes() {
    let mut resolver = fresh_resolver();
    resolver.supply_discovery(
        "down.example",
        ResolveWebHostMetaResult::NotFound("connection refused".to_string()),
        0,
    );
    let servers = vec!["down.example".to_string()];
    let aturi = validate_aturi("at://alice.bsky.social").unwrap();

    // before expiry the remembered failure is used: no fetch is requested
    let (mut st, cached) = resolver.begin("at://alice.bsky.social", &servers, MIN_10 - 1);
    assert!(cached.is_none());
    match resolver.step(&aturi, &servers, &mut st, MIN_10 - 1) {
        Step::Unresolved(_) => {}
        _ => panic!("a live failure entry must be skipped, not refetched"),
    }

    // at expiry a fresh fetch is requested
    let (mut st2, _) = resolver.begin("at://alice.bsky.social/x.y.z/1", &servers, MIN_10);
    let aturi2 = validate_aturi("at://alice.bsky.social/x.y.z/1").unwrap();
    match resolver.step(&aturi2, &servers, &mut st2, MIN_10) {
        Step::NeedFetch(host) => assert_eq!(host, "down.example"),
        _ => panic!("an expired failure entry must trigger a new fetch"),
    }
}

#[test]
fn second_server_matches_under_either_order() {
    let matching = WebHostMeta::new(vec![Link::new("https://hit.example/{identity}", None)]);
    let empty = WebHostMeta::new(Vec::new());

    for servers in [
        vec!["miss.example".to_string(), "hit.example".to_string()],
        vec!["hit.example".to_string(), "miss.example".to_string()],
    ] {
        let mut resolver = fresh_resolver();
        resolver.supply_discovery("miss.example", ResolveWebHostMetaResult::Found(empty.clone()), 0);
        resolver.supply_discovery("hit.example", ResolveWebHostMetaResult::Found(matching.clone()), 0);
        let mut fetches: usize = 0;
        let no_fetch = |_: &str| -> ResolveWebHostMetaResult {
            panic!("discovery is preloaded; nothing should be fetched")
        };
        let got =
            resolve_once(&mut resolver, "at://alice.bsky.social", &servers, 1, &no_fetch, &mut fetches);
        assert_eq!(got, Ok("https://hit.example/alice.bsky.social".to_string()));
    }
}

#[test]
fn fetch_errors_fall_through_to_next_server() {
    let mut resolver = fresh_resolver();
    let servers = vec!["down.example".to_string(), "up.example".to_string()];
    let mut fetches: usize = 0;
    let serve = |host: &str| -> ResolveWebHostMetaResult {
        if host == "down.example" {
            ResolveWebHostMetaResult::NotFound("timeout".to_string())
        } else {
            ResolveWebHostMetaResult::Found(WebHostMeta::new(vec![Link::new(
                "https://up.example/{identity}",
                None,
            )]))
        }
    };
    let got = resolve_once(&mut resolver, "at://alice.bsky.social", &servers, 0, &serve, &mut fetches);
    assert_eq!(got, Ok("https://up.example/alice.bsky.social".to_string()));
    assert_eq!(fetches, 2);
}

#[test]
fn cache_key_is_deterministic_and_order_sensitive() {
    // cityhasher::hash::<u64>("world") is documented as 16436542438370751598
    assert_eq!(cache_key("world", &Vec::new()), "16436542438370751598");

    let ab = vec!["a.example".to_string(), "b.example".to_string()];
    let ba = vec!["b.example".to_string(), "a.example".to_string()];
    assert_eq!(cache_key("at://x.y", &ab), cache_key("at://x.y", &ab));
    assert_ne!(cache_key("at://x.y", &ab), cache_key("at://x.y", &ba));
}

#[test]
fn parse_servers_trims_dedups_and_appends_defaults() {
    let got = parse_servers(" one.example, two.example ,one.example,, ");
    assert_eq!(
        got,
        vec![
            "one.example".to_string(),
            "two.example".to_string(),
            "smokesignal.events".to_string(),
            "frontpage.fyi".to_string(),
            "whtwnd.com".to_string(),
            "bsky.app".to_string(),
        ]
    );

    let with_default = parse_servers("bsky.app");
    assert_eq!(
        with_default,
        vec![
            "bsky.app".to_string(),
            "smokesignal.events".to_string(),
            "frontpage.fyi".to_string(),
            "whtwnd.com".to_string(),
        ]
    );
}
