use hopper::errors::expand_error;
use hopper::model::AtUri;
use hopper::webfinger;
use hopper::webfinger::webfinger_url;
use hopper::webfinger::Webfinger;
use hopper::webhostmeta;
use hopper::webhostmeta::host_meta_url;
use hopper::webhostmeta::Link;
use hopper::webhostmeta::WebHostMeta;

#[test]
fn webfinger_test_match_uri() {
    let hostname = "smokesignal.events".to_string();
    let web_finger1 = Webfinger {
        subject: "acct:smokesignal.events".to_string(),
        links: vec![webfinger::Link {
            rel: "https://hopper.at/spec/schema/1.0/link".to_string(),
            href: "https://smokesignal.events/{identity}".to_string(),
            properties: vec![(
                "https://hopper.at/spec/schema/1.0/link#collection".into(),
                "identity".into(),
            )],
        }],
        properties: Vec::new(),
    };

    assert_eq!(
        web_finger1.match_uri(
            &hostname,
            &AtUri {
                identity: "ngerakines.me".to_string(),
                collection: None,
                rkey: None,
            }
        ),
        Some("https://smokesignal.events/ngerakines.me".into())
    );

    assert_eq!(
        web_finger1.match_uri(
            &hostname,
            &AtUri {
                identity: "smokesignal.events".to_string(),
                collection: Some("event".into()),
                rkey: Some("s0xnr5kqnp".into()),
            }
        ),
        None,
    );
}

#[test]
fn webhostmeta_test_match_uri() {
    let hostname = "smokesignal.events".to_string();
    let web_finger1 = WebHostMeta {
        links: vec![webhostmeta::Link {
            rel: "http://hopper.at/rel/link".to_string(),
            template: Some("https://smokesignal.events/{identity}".to_string()),
            properties: vec![(
                "https://hopper.at/spec/schema/1.0/link#collection".into(),
                "identity".into(),
            )],
        }],
        properties: Vec::new(),
    };

    assert_eq!(
        web_finger1.match_uri(
            &hostname,
            &AtUri {
                identity: "ngerakines.me".to_string(),
                collection: None,
                rkey: None,
            }
        ),
        Some("https://smokesignal.events/ngerakines.me".into())
    );

    assert_eq!(
        web_finger1.match_uri(
            &hostname,
            &AtUri {
                identity: "smokesignal.events".to_string(),
                collection: Some("event".into()),
                rkey: Some("s0xnr5kqnp".into()),
            }
        ),
        None,
    );
}

#[test]
fn unscoped_link_matches_identity_only() {
    let doc = WebHostMeta::new(vec![Link::new("https://srv.example/{identity}", None)]);

    let bare = AtUri {
        identity: "alice.bsky.social".to_string(),
        collection: None,
        rkey: None,
    };
    assert_eq!(
        doc.match_uri("srv.example", &bare),
        Some("https://srv.example/alice.bsky.social".to_string())
    );

    let scoped = AtUri {
        identity: "alice.bsky.social".to_string(),
        collection: Some("x".to_string()),
        rkey: None,
    };
    assert_eq!(doc.match_uri("srv.example", &scoped), None);
}

#[test]
fn first_matching_link_wins() {
    let doc = WebHostMeta::new(vec![
        Link::new("https://srv.example/one/{identity}", None),
        Link::new("https://srv.example/two/{identity}", None),
    ]);
    let uri = AtUri {
        identity: "alice.bsky.social".to_string(),
        collection: None,
        rkey: None,
    };
    assert_eq!(
        doc.match_uri("srv.example", &uri),
        Some("https://srv.example/one/alice.bsky.social".to_string())
    );
}

#[test]
fn wrong_server_prefix_does_not_match() {
    let doc = WebHostMeta::new(vec![Link::new("https://other.example/{identity}", None)]);
    let uri = AtUri {
        identity: "alice.bsky.social".to_string(),
        collection: None,
        rkey: None,
    };
    assert_eq!(doc.match_uri("srv.example", &uri), None);
}

#[test]
fn scoped_link_expands_collection_and_rkey() {
    let doc = WebHostMeta::new(vec![Link::new(
        "https://srv.example/x/{identity}/{collection}/{rkey}",
        Some("app.bsky.feed.post"),
    )]);
    let uri = AtUri {
        identity: "alice.bsky.social".to_string(),
        collection: Some("app.bsky.feed.post".to_string()),
        rkey: Some("abc123".to_string()),
    };
    assert_eq!(
        doc.match_uri("srv.example", &uri),
        Some("https://srv.example/x/alice.bsky.social/app.bsky.feed.post/abc123".to_string())
    );
}

#[test]
fn webfinger_subject_check() {
    let doc = Webfinger {
        subject: "acct:smokesignal.events".to_string(),
        properties: Vec::new(),
        links: Vec::new(),
    };
    assert!(doc.subject_matches("smokesignal.events"));
    assert!(!doc.subject_matches("other.example"));
}

#[test]
fn discovery_urls() {
    assert_eq!(
        host_meta_url("srv.example"),
        "https://srv.example/.well-known/host-meta.json"
    );
    assert_eq!(
        webfinger_url("srv.example"),
        "https://srv.example/.well-known/webfinger?resource=acct%3Asrv.example&"
    );
}

#[test]
fn stringify_renders_pairs_in_order() {
    assert_eq!(hopper::webfinger::stringify(vec![("a", "1"), ("b", "2")]), "a=1&b=2&");
    assert_eq!(hopper::webfinger::stringify(Vec::new()), "");
}

#[test]
fn hopper_error_carries_its_message() {
    let err = hopper::errors::HopperError::new("error-web-invalid-aturi Invalid AT-URI".to_string());
    assert_eq!(err.message(), "error-web-invalid-aturi Invalid AT-URI");
    let (bare, _) = expand_error(err.message());
    assert_eq!(bare, "error-web-invalid-aturi");
}

#[test]
fn subject_mismatch_message_has_its_tag() {
    let (bare, _) = expand_error(hopper::webfinger::error_subject_mismatch());
    assert_eq!(bare, "error-webfinger-subject-mismatch");
}

#[test]
fn expand_error_splits_tag_and_head() {
    let (bare, partial) = expand_error("error-web-invalid-aturi Invalid AT-URI");
    assert_eq!(bare, "error-web-invalid-aturi");
    assert_eq!(partial, "error-web-invalid-aturi Invalid AT-URI");

    let (bare2, partial2) = expand_error("tag with: colon");
    assert_eq!(bare2, "tag");
    assert_eq!(partial2, "tag with");
}
