use coderunner::common::{split_at_colon, Id, Port, Tag};

#[test]
fn split_at_first_colon() {
    let (a, b) = split_at_colon("sha256:abc123").unwrap();
    assert_eq!(a, "sha256");
    assert_eq!(b, "abc123");
}

#[test]
fn split_keeps_later_colons() {
    let (a, b) = split_at_colon("repo:tag:extra").unwrap();
    assert_eq!(a, "repo");
    assert_eq!(b, "tag:extra");
}

#[test]
fn split_without_colon_is_empty() {
    let (a, b) = split_at_colon("plain").unwrap();
    assert_eq!(a, "");
    assert_eq!(b, "");
}

#[test]
fn tag_joins_its_parts() {
    let t = Tag::from(("debian", "stable"));
    assert_eq!(t.joined(), "debian:stable");
    let empty = Tag::from(("", ""));
    assert_eq!(empty.joined(), "");
}

#[test]
fn id_joins_its_parts() {
    let i = Id::from(("sha256", "abc"));
    assert_eq!(i.encoding, "sha256");
    assert_eq!(i.hash, "abc");
    assert_eq!(i.joined(), "sha256:abc");
}

#[test]
fn port_carries_its_fields() {
    let p = Port { IP: None, PrivatePort: 80, PublicPort: Some(8080), Type: "tcp".to_owned() };
    assert_eq!(p.PrivatePort, 80);
    assert_eq!(p.PublicPort, Some(8080));
    assert_eq!(p.Type, "tcp");
}
