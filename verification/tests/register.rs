use guestbook::admin::AdminAccess;
use guestbook::error::Failure;
use guestbook::service::{resolve_client_ip, Guestbook, RegisterRequest};
use guestbook::store::{Visitor, VisitorStore};
use guestbook::time::{ConstantTimeService, TimeService};

fn request(nick: &str, group: Option<&str>, email: Option<&str>, extra: Option<&str>) -> RegisterRequest {
    RegisterRequest {
        nick: nick.to_owned(),
        group: group.map(|s| s.to_owned()),
        email: email.map(|s| s.to_owned()),
        extra: extra.map(|s| s.to_owned()),
    }
}

fn admin_key() -> Option<String> {
    Some("key".to_owned())
}

fn bearer_key() -> String {
    "Bearer key".to_owned()
}

#[test]
fn can_register_using_only_nick() {
    let time = ConstantTimeService::new();
    let mut api = Guestbook::new(admin_key(), 60, 3);
    let client = "127.0.0.1:8080".to_owned();

    let now = time.now();
    let result = api.register(now, &client, request("Test", None, None, None));
    assert_eq!(result.unwrap(), 1);

    let credential = bearer_key();
    let visitors = api.admin_list_visitors(Some(&credential)).unwrap();
    assert_eq!(visitors.len(), 1);
    let visitor = &visitors[0];
    assert_eq!(visitor.id, 1);
    assert_eq!(visitor.created_at, time.now());
    assert_eq!(visitor.ip, "127.0.0.1:8080");
    assert_eq!(visitor.nick, "Test");
    assert_eq!(visitor.group, None);
    assert_eq!(visitor.email, None);
    assert_eq!(visitor.extra, None);
}

#[test]
fn can_register_with_all_fields() {
    let time = ConstantTimeService::new();
    let mut api = Guestbook::new(admin_key(), 60, 3);
    let client = "127.0.0.1:8080".to_owned();

    let now = time.now();
    let result = api.register(
        now,
        &client,
        request("Test", Some("Testerz"), Some("test@example.com"), Some("Snacks")),
    );
    assert_eq!(result.unwrap(), 1);

    let credential = bearer_key();
    let visitors = api.admin_list_visitors(Some(&credential)).unwrap();
    assert_eq!(visitors.len(), 1);
    let visitor = &visitors[0];
    assert_eq!(visitor.id, 1);
    assert_eq!(visitor.created_at, time.now());
    assert_eq!(visitor.ip, "127.0.0.1:8080");
    assert_eq!(visitor.nick, "Test");
    assert_eq!(visitor.group.as_deref(), Some("Testerz"));
    assert_eq!(visitor.email.as_deref(), Some("test@example.com"));
    assert_eq!(visitor.extra.as_deref(), Some("Snacks"));
}

#[test]
fn can_only_register_single_nick() {
    let mut api = Guestbook::new(admin_key(), 60, 3);
    let client = "127.0.0.1:8080".to_owned();

    let first = api.register(100, &client, request("Only One Nick", None, None, None));
    assert_eq!(first.unwrap(), 1);

    let second = api.register(101, &client, request("Only One Nick", None, None, None));
    let failure = second.unwrap_err();
    assert!(matches!(
        &failure,
        Failure::DuplicateNick { message } if message == "UNIQUE constraint failed: visitor.nick"
    ));
    let response = failure.into_response();
    assert_eq!(response.status, 400);
    assert_eq!(response.error, "UNIQUE constraint failed: visitor.nick");

    let credential = bearer_key();
    let visitors = api.admin_list_visitors(Some(&credential)).unwrap();
    assert_eq!(visitors.len(), 1);
}

#[test]
fn should_rate_limit_register() {
    let mut api = Guestbook::new(None, 60, 3);
    let client = "127.0.0.1:8080".to_owned();
    let now = 1_000;

    assert_eq!(api.register(now, &client, request("One", None, None, None)).unwrap(), 1);
    assert_eq!(api.register(now, &client, request("Two", None, None, None)).unwrap(), 2);
    assert_eq!(api.register(now, &client, request("Three", None, None, None)).unwrap(), 3);

    let fourth = api.register(now, &client, request("Four should fail", None, None, None));
    let failure = fourth.unwrap_err();
    assert!(matches!(failure, Failure::TooManyRequests));
    let response = failure.into_response();
    assert_eq!(response.status, 429);
    assert_eq!(response.error, "too many requests");

    // No row was written for the refused attempt.
    assert_eq!(api.list_visitors().len(), 3);
}

#[test]
fn rate_limit_is_per_client() {
    let mut api = Guestbook::new(None, 60, 3);
    let first = "10.0.0.1".to_owned();
    let other = "10.0.0.2".to_owned();
    let now = 1_000;

    for nick in ["One", "Two", "Three"] {
        api.register(now, &first, request(nick, None, None, None)).unwrap();
    }
    assert!(matches!(
        api.register(now, &first, request("Four should fail", None, None, None)),
        Err(Failure::TooManyRequests)
    ));

    // A distinct client is unaffected by the exhausted bucket.
    assert_eq!(api.register(now, &other, request("Other", None, None, None)).unwrap(), 4);
}

#[test]
fn rate_limit_replenishes_after_interval() {
    let mut api = Guestbook::new(None, 60, 3);
    let client = "10.0.0.1".to_owned();

    for nick in ["One", "Two", "Three"] {
        api.register(1_000, &client, request(nick, None, None, None)).unwrap();
    }
    assert!(matches!(
        api.register(1_000, &client, request("Four should fail", None, None, None)),
        Err(Failure::TooManyRequests)
    ));

    // One full replenish interval later a single token is back.
    assert_eq!(api.register(1_060, &client, request("Five", None, None, None)).unwrap(), 4);
    assert!(matches!(
        api.register(1_060, &client, request("Six should fail", None, None, None)),
        Err(Failure::TooManyRequests)
    ));
}

#[test]
fn can_list_visitors() {
    let mut api = Guestbook::new(None, 60, 3);
    let client = "127.0.0.1:8080".to_owned();

    api.register(100, &client, request("Groupless", None, None, None)).unwrap();
    api.register(100, &client, request("With Group", Some("Awesome"), None, None)).unwrap();

    let visitors = api.list_visitors();
    assert_eq!(visitors.len(), 2);
    assert_eq!(visitors[0].id, 1);
    assert_eq!(visitors[0].nick, "Groupless");
    assert_eq!(visitors[0].group, None);
    assert_eq!(visitors[1].id, 2);
    assert_eq!(visitors[1].nick, "With Group");
    assert_eq!(visitors[1].group.as_deref(), Some("Awesome"));
}

#[test]
fn resolves_forwarded_header_before_peer() {
    let resolved = resolve_client_ip(Some("203.0.113.9".to_owned()), "127.0.0.1:8080".to_owned());
    assert_eq!(resolved, "203.0.113.9");

    let peer = resolve_client_ip(None, "127.0.0.1:8080".to_owned());
    assert_eq!(peer, "127.0.0.1:8080");
}

#[test]
fn resolves_first_forwarded_value_only() {
    // Behind a chain of proxies only the first listed value names the
    // client; surrounding spaces are not part of it.
    let chain = "203.0.113.9, 198.51.100.1, 192.0.2.7".to_owned();
    assert_eq!(resolve_client_ip(Some(chain), "127.0.0.1:8080".to_owned()), "203.0.113.9");

    let padded = "  203.0.113.9  , 198.51.100.1".to_owned();
    assert_eq!(resolve_client_ip(Some(padded), "127.0.0.1:8080".to_owned()), "203.0.113.9");

    // Degenerate headers resolve to what they hold before the comma.
    assert_eq!(resolve_client_ip(Some(",203.0.113.9".to_owned()), "p".to_owned()), "");
    assert_eq!(resolve_client_ip(Some("   ".to_owned()), "p".to_owned()), "");
}

#[test]
fn registration_resumes_after_a_restore() {
    let restored = VisitorStore::restore(vec![Visitor {
        id: 3,
        created_at: 50,
        ip: "127.0.0.1:8080".to_owned(),
        nick: "Kept".to_owned(),
        group: None,
        email: None,
        extra: None,
    }])
    .unwrap();
    let mut api = Guestbook::from_parts(admin_key(), 60, 3, restored);
    let client = "127.0.0.1:8080".to_owned();

    // The restored nick still blocks duplicates, and ids continue after the
    // highest restored id.
    assert!(matches!(
        api.register(100, &client, request("Kept", None, None, None)),
        Err(Failure::DuplicateNick { .. })
    ));
    assert_eq!(api.register(100, &client, request("New", None, None, None)).unwrap(), 4);

    let credential = bearer_key();
    let visitors = api.admin_list_visitors(Some(&credential)).unwrap();
    assert_eq!(visitors.len(), 2);
    assert_eq!(visitors[0].created_at, 50);
    assert_eq!(visitors[1].id, 4);
}

#[test]
fn public_view_is_reachable_without_credential() {
    let mut api = Guestbook::new(admin_key(), 60, 3);
    let client = "127.0.0.1:8080".to_owned();
    api.register(100, &client, request("Test", None, None, None)).unwrap();

    // The public listing needs no credential, while the admin view does.
    assert_eq!(api.list_visitors().len(), 1);
    assert!(matches!(api.admin_list_visitors(None), Err(AdminAccess::Unauthorized)));
}
