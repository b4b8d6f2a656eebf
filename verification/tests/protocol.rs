use roomcast::bytes_eq;
use roomcast::clone_bytes;
use roomcast::protocol::{parse_negotiation, Role};

#[test]
fn parse_publisher_line() {
    let r = parse_negotiation(b"pub room1\r\n");
    assert_eq!(r, Some((Role::Publisher, b"room1".to_vec())));
}

#[test]
fn parse_subscriber_line() {
    let r = parse_negotiation(b"sub topic\r\n");
    assert_eq!(r, Some((Role::Subscriber, b"topic".to_vec())));
}

#[test]
fn parse_without_line_ending() {
    assert_eq!(
        parse_negotiation(b"pub x"),
        Some((Role::Publisher, b"x".to_vec()))
    );
}

#[test]
fn parse_tolerates_extra_whitespace() {
    assert_eq!(
        parse_negotiation(b"  pub \t room1  \r\n"),
        Some((Role::Publisher, b"room1".to_vec()))
    );
}

#[test]
fn parse_ignores_trailing_tokens() {
    // only the first two tokens matter
    assert_eq!(
        parse_negotiation(b"sub room1 extra junk\r\n"),
        Some((Role::Subscriber, b"room1".to_vec()))
    );
}

#[test]
fn parse_rejects_unknown_keyword() {
    assert_eq!(parse_negotiation(b"get room1\r\n"), None);
    assert_eq!(parse_negotiation(b"published room1\r\n"), None);
    assert_eq!(parse_negotiation(b"PUB room1\r\n"), None);
}

#[test]
fn parse_rejects_missing_tag() {
    assert_eq!(parse_negotiation(b"pub\r\n"), None);
    assert_eq!(parse_negotiation(b"sub \r\n"), None);
    assert_eq!(parse_negotiation(b""), None);
    assert_eq!(parse_negotiation(b"\r\n"), None);
}

#[test]
fn bytes_eq_compares_contents() {
    assert!(bytes_eq(b"room", b"room"));
    assert!(!bytes_eq(b"room", b"roam"));
    assert!(!bytes_eq(b"room", b"room1"));
    assert!(bytes_eq(b"", b""));
}

#[test]
fn clone_bytes_copies() {
    let m = b"payload".to_vec();
    assert_eq!(clone_bytes(&m), m);
}
