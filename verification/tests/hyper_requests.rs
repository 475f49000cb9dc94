use hyper::uri::RequestUri;
use hyper::Url;
use hyro::{Matcher, RequestTarget};

fn target(uri: &RequestUri) -> RequestTarget<'_> {
    match *uri {
        RequestUri::AbsolutePath(ref source) => RequestTarget::AbsolutePath(source),
        RequestUri::AbsoluteUri(ref url) => {
            RequestTarget::AbsoluteUri { path: url.path(), query: url.query() }
        }
        RequestUri::Authority(ref authority) => RequestTarget::Authority(authority),
        RequestUri::Star => RequestTarget::Star,
    }
}

#[test]
fn request_with_an_absolute_path() {
    let uri: RequestUri = "/bars/42/edit.json?draft=1".parse().unwrap();
    let target = target(&uri);
    assert!(target.carries_path());
    let m = Matcher::build(&target);
    assert_eq!(m.path(), "/bars/42/edit.json");
    assert_eq!(m.query(), Some("draft=1"));
    let m = m
        .chomp("/bars/")
        .and_then(|m| m.capture_while(char::is_numeric))
        .and_then(|m| m.chomp('/'))
        .map(|m| m.capture_until('.'))
        .map(|m| m.capture_rest())
        .unwrap();
    assert_eq!(m.captures(), ("42", "edit", ".json"));
}

#[test]
fn request_with_an_absolute_uri() {
    let uri: RequestUri = "http://www.example.org/pub/WWW/TheProject.html?page=2".parse().unwrap();
    assert!(matches!(uri, RequestUri::AbsoluteUri(_)));
    let target = target(&uri);
    assert!(target.carries_path());
    let m = Matcher::build(&target);
    assert_eq!(m.path(), "/pub/WWW/TheProject.html");
    assert_eq!(m.query(), Some("page=2"));
    let m = m.chomp("/pub/").unwrap().capture_until('/').chomp('/').unwrap().capture_rest();
    assert_eq!(m.captures(), ("WWW", "TheProject.html"));
}

#[test]
fn request_with_an_absolute_uri_without_query() {
    let uri = RequestUri::AbsoluteUri(Url::parse("http://hyper.rs/").unwrap());
    let target = target(&uri);
    let m = Matcher::build(&target);
    assert_eq!(m.path(), "/");
    assert_eq!(m.query(), None);
    assert!(m.complete('/').is_some());
}

#[test]
fn requests_without_a_path() {
    let star: RequestUri = "*".parse().unwrap();
    assert_eq!(star, RequestUri::Star);
    assert!(!target(&star).carries_path());
    let authority = RequestUri::Authority("hyper.rs:443".to_owned());
    assert!(!target(&authority).carries_path());
}
