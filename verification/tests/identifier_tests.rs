use hopper::model::is_valid_hostname;
use hopper::model::is_valid_identity;
use hopper::model::is_valid_nsid;
use hopper::model::validate_aturi;

#[test]
fn handle_parses_to_identity_only() {
    let parsed = validate_aturi("at://alice.bsky.social").expect("handle should parse");
    assert_eq!(parsed.identity, "alice.bsky.social");
    assert_eq!(parsed.collection, None);
    assert_eq!(parsed.rkey, None);
}

#[test]
fn handle_parses_with_surrounding_whitespace() {
    let parsed = validate_aturi("  at://alice.bsky.social\t").expect("trimmed handle should parse");
    assert_eq!(parsed.identity, "alice.bsky.social");
}

#[test]
fn full_aturi_parses_all_segments() {
    let parsed = validate_aturi("at://alice.bsky.social/app.bsky.feed.post/abc123")
        .expect("full identifier should parse");
    assert_eq!(parsed.identity, "alice.bsky.social");
    assert_eq!(parsed.collection.as_deref(), Some("app.bsky.feed.post"));
    assert_eq!(parsed.rkey.as_deref(), Some("abc123"));
}

#[test]
fn plc_identifier_valid_iff_24_characters() {
    let body24 = "abcdefghijklmnopqrstuvwx";
    assert_eq!(body24.len(), 24);
    let parsed = validate_aturi(&format!("at://did:plc:{}", body24));
    assert!(parsed.is_some());
    assert_eq!(parsed.unwrap().identity, format!("did:plc:{}", body24));

    let body23 = "abcdefghijklmnopqrstuvw";
    assert!(validate_aturi(&format!("at://did:plc:{}", body23)).is_none());
    let body25 = "abcdefghijklmnopqrstuvwxy";
    assert!(validate_aturi(&format!("at://did:plc:{}", body25)).is_none());
}

#[test]
fn web_identifier_requires_dotted_hostname() {
    assert!(validate_aturi("at://did:web:example.com:8080").is_some());
    assert!(validate_aturi("at://did:web:localhost").is_none());
}

#[test]
fn handle_without_dot_is_invalid() {
    assert!(validate_aturi("at://nodothandle").is_none());
}

#[test]
fn four_segments_are_invalid() {
    assert!(validate_aturi("at://a/b/c/d").is_none());
}

#[test]
fn missing_prefix_is_invalid() {
    assert!(validate_aturi("alice.bsky.social").is_none());
    assert!(validate_aturi("https://alice.bsky.social").is_none());
}

#[test]
fn invalid_collection_is_rejected() {
    assert!(validate_aturi("at://alice.bsky.social/notansid").is_none());
    assert!(validate_aturi("at://alice.bsky.social/two.labels").is_none());
}

#[test]
fn nsid_rejects_fewer_than_three_labels() {
    assert!(!is_valid_nsid("app"));
    assert!(!is_valid_nsid("app.bsky"));
    assert!(is_valid_nsid("app.bsky.feed"));
}

#[test]
fn nsid_rejects_long_label() {
    let long_label = "a".repeat(64);
    assert!(!is_valid_nsid(&format!("{}.bsky.feed", long_label)));
    let just_fits = "a".repeat(63);
    assert!(is_valid_nsid(&format!("{}.bsky.feed", just_fits)));
}

#[test]
fn nsid_rejects_hyphen_at_label_edge() {
    assert!(!is_valid_nsid("-app.bsky.feed"));
    assert!(!is_valid_nsid("app-.bsky.feed"));
    assert!(!is_valid_nsid("app.bsky.feed-"));
    assert!(is_valid_nsid("ap-p.bs-ky.fe-ed"));
}

#[test]
fn nsid_rejects_bad_characters_and_empty() {
    assert!(!is_valid_nsid(""));
    assert!(!is_valid_nsid("app..feed"));
    assert!(!is_valid_nsid("app.bsky.fe_ed"));
}

#[test]
fn hostname_rejects_reserved_suffixes() {
    assert!(!is_valid_hostname("example.localhost"));
    assert!(!is_valid_hostname("example.internal"));
    assert!(!is_valid_hostname("example.arpa"));
    assert!(!is_valid_hostname("example.local"));
    assert!(is_valid_hostname("example.com"));
}

#[test]
fn hostname_rejects_bad_shapes() {
    assert!(!is_valid_hostname(""));
    assert!(!is_valid_hostname("exa mple.com"));
    assert!(!is_valid_hostname("-example.com"));
    assert!(!is_valid_hostname("example-.com"));
    let long = format!("{}.com", "a".repeat(250));
    assert!(!is_valid_hostname(&long));
}

#[test]
fn identity_accepts_each_shape() {
    assert!(is_valid_identity("alice.bsky.social"));
    assert!(is_valid_identity("did:plc:abcdefghijklmnopqrstuvwx"));
    assert!(is_valid_identity("did:web:example.com"));
    assert!(!is_valid_identity("alice"));
    assert!(!is_valid_identity("did:plc:short"));
    assert!(!is_valid_identity("did:web:localhost"));
}
