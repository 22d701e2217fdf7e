use web_router::filter::{
    try_header, All, Any, Connect, Delete, Get, Head, Header, Host, Not, Options, Patch, Post, Put,
    Trace,
};
use web_router::{Method, RequestHead};

fn request(method: Method) -> RequestHead {
    RequestHead::new(method, "/", "localhost", "http")
}

#[test]
fn test_header() {
    let mut req = request(Method::Get);
    assert!(req.insert_header("transfer-encoding", "chunked"));

    let pred = Header("transfer-encoding", "chunked");
    assert!(pred.check(&req));

    let pred = Header("transfer-encoding", "other");
    assert!(!pred.check(&req));

    let pred = Header("content-type", "other");
    assert!(!pred.check(&req));
}

#[test]
fn test_host() {
    let req = RequestHead::new(Method::Get, "/", "www.rust-lang.org", "http");

    let pred = Host("www.rust-lang.org");
    assert!(pred.check(&req));

    let pred = Host("localhost");
    assert!(!pred.check(&req));
}

#[test]
fn test_methods() {
    let req = request(Method::Get);
    let req2 = request(Method::Post);

    assert!(Get().check(&req));
    assert!(!Get().check(&req2));
    assert!(Post().check(&req2));
    assert!(!Post().check(&req));

    let r = request(Method::Put);
    assert!(Put().check(&r));
    assert!(!Put().check(&req));

    let r = request(Method::Delete);
    assert!(Delete().check(&r));
    assert!(!Delete().check(&req));

    let r = request(Method::Head);
    assert!(Head().check(&r));
    assert!(!Head().check(&req));

    let r = request(Method::Options);
    assert!(Options().check(&r));
    assert!(!Options().check(&req));

    let r = request(Method::Connect);
    assert!(Connect().check(&r));
    assert!(!Connect().check(&req));

    let r = request(Method::Patch);
    assert!(Patch().check(&r));
    assert!(!Patch().check(&req));

    let r = request(Method::Trace);
    assert!(Trace().check(&r));
    assert!(!Trace().check(&req));
}

#[test]
fn test_preds() {
    let r = request(Method::Trace);

    assert!(Not(Get().into_filter()).check(&r));
    assert!(!Not(Trace().into_filter()).check(&r));

    assert!(All(Trace().into_filter()).and(Trace().into_filter()).check(&r));
    assert!(!All(Get().into_filter()).and(Trace().into_filter()).check(&r));

    assert!(Any(Get().into_filter()).or(Trace().into_filter()).check(&r));
    assert!(!Any(Get().into_filter()).or(Get().into_filter()).check(&r));
}

#[test]
fn header_names_are_normalized() {
    let mut req = request(Method::Get);
    assert!(req.insert_header("Content-Type", "text/plain"));
    assert_eq!(req.header("content-type"), Some("text/plain"));
    assert!(Header("CONTENT-TYPE", "text/plain").check(&req));
    assert!(!Header("content-type", "text/html").check(&req));
}

#[test]
fn invalid_header_names_and_values_are_refused() {
    let mut req = request(Method::Get);
    assert!(!req.insert_header("bad header", "x"));
    assert_eq!(req.header("bad header"), None);
    assert!(try_header("bad header", "x").is_none());
    assert!(try_header("x-ok", "line\nbreak").is_none());
    assert!(try_header("x-ok", "fine").is_some());
}

#[test]
fn host_filter_with_scheme() {
    let req = RequestHead::new(Method::Get, "/", "example.com", "https");
    let mut pred = Host("example.com");
    pred.scheme("https");
    assert!(pred.check(&req));
    pred.scheme("http");
    assert!(!pred.check(&req));
}

#[test]
fn nested_combinators() {
    let r = request(Method::Post);
    let inner = Any(Get().into_filter()).or(Post().into_filter()).into_filter();
    let f = All(inner).and(Not(Put().into_filter()).into_filter());
    assert!(f.check(&r));
    let f = f.and(Host("elsewhere").into_filter());
    assert!(!f.check(&r));
}

#[test]
fn overlong_header_name_is_refused() {
    let long = "x".repeat(70000);
    let mut req = request(Method::Get);
    assert!(!req.insert_header(&long, "v"));
    assert!(try_header(&long, "v").is_none());
    assert!(web_router::request::header_name(&long).is_none());
}
