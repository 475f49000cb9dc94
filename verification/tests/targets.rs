use hyro::{Matcher, RequestTarget};

#[test]
fn path_without_query() {
    let target = RequestTarget::AbsolutePath("/bars/42/edit.json");
    let m = Matcher::build(&target);
    assert_eq!(m.path(), "/bars/42/edit.json");
    assert_eq!(m.query(), None);
    assert_eq!(m.cursor(), 0);
}

#[test]
fn path_with_query() {
    let target = RequestTarget::AbsolutePath("/where?q=now");
    let m = Matcher::build(&target);
    assert_eq!(m.path(), "/where");
    assert_eq!(m.query(), Some("q=now"));
    assert_eq!(m.cursor(), 0);
}

#[test]
fn query_starts_after_the_first_question_mark() {
    let target = RequestTarget::AbsolutePath("/a?b?c");
    let m = Matcher::build(&target);
    assert_eq!(m.path(), "/a");
    assert_eq!(m.query(), Some("b?c"));
}

#[test]
fn empty_query() {
    let target = RequestTarget::AbsolutePath("/a?");
    let m = Matcher::build(&target);
    assert_eq!(m.path(), "/a");
    assert_eq!(m.query(), Some(""));
}

#[test]
fn empty_path_before_the_query() {
    let target = RequestTarget::AbsolutePath("?x");
    let m = Matcher::build(&target);
    assert_eq!(m.path(), "");
    assert_eq!(m.query(), Some("x"));
    assert!(m.complete("").is_some());
}

#[test]
fn empty_source() {
    let target = RequestTarget::AbsolutePath("");
    let m = Matcher::build(&target);
    assert_eq!(m.path(), "");
    assert_eq!(m.query(), None);
}

#[test]
fn wide_characters_before_the_query() {
    let target = RequestTarget::AbsolutePath("/caf\u{e9}?\u{4e16}=\u{1f600}");
    let m = Matcher::build(&target);
    assert_eq!(m.path(), "/caf\u{e9}");
    assert_eq!(m.query(), Some("\u{4e16}=\u{1f600}"));
}

#[test]
fn absolute_uri_parts_are_taken_as_given() {
    let target = RequestTarget::AbsoluteUri { path: "/pub/WWW", query: Some("page=2") };
    let m = Matcher::build(&target);
    assert_eq!(m.path(), "/pub/WWW");
    assert_eq!(m.query(), Some("page=2"));
    let plain = RequestTarget::AbsoluteUri { path: "/a?b", query: None };
    let n = Matcher::build(&plain);
    assert_eq!(n.path(), "/a?b");
    assert_eq!(n.query(), None);
}

#[test]
fn the_query_is_not_matched() {
    let target = RequestTarget::AbsolutePath("/foo?bar");
    let m = Matcher::build(&target).chomp("/foo").unwrap();
    assert!(m.complete("").is_some());
    assert!(m.chomp('?').is_none());
    assert_eq!(m.capture_rest().captures(), ("",));
}

#[test]
fn which_targets_carry_a_path() {
    assert!(RequestTarget::AbsolutePath("/").carries_path());
    assert!(RequestTarget::AbsoluteUri { path: "/", query: None }.carries_path());
    assert!(!RequestTarget::Authority("example.org:80").carries_path());
    assert!(!RequestTarget::Star.carries_path());
}
