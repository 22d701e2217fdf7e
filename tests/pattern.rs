use web_router::{Method, Recognized, RequestHead, ResourcePattern, RouteDef, Router};

fn request(path: &str) -> RequestHead {
    RequestHead::new(Method::Get, path, "localhost:8080", "http")
}

fn router_of(templates: &[&str]) -> Router {
    let mut router = Router::new();
    for t in templates {
        router = router.route(RouteDef::new(ResourcePattern::new(t), Vec::new()));
    }
    router
}

fn route_index(r: &Recognized) -> Option<usize> {
    match r {
        Recognized::Route(i, _) => Some(*i),
        Recognized::Default => None,
    }
}

fn param<'a>(r: &'a Recognized, name: &str) -> &'a str {
    match r {
        Recognized::Route(_, p) => p.get(name).unwrap(),
        Recognized::Default => panic!("no route matched"),
    }
}

#[test]
fn test_recognizer10() {
    let router = router_of(&[
        "/name",
        "/name/{val}",
        "/name/{val}/index.html",
        "/file/{file}.{ext}",
        "/v{val}/{val2}/index.html",
        "/v/{tail:.*}",
        "/test2/{test}.html",
        "/{test}/index.html",
    ]);

    let info = router.recognize(&request("/name"), 0);
    assert_eq!(route_index(&info), Some(0));
    match &info {
        Recognized::Route(_, p) => assert!(p.is_empty()),
        Recognized::Default => panic!("no route matched"),
    }

    let info = router.recognize(&request("/name/value"), 0);
    assert_eq!(route_index(&info), Some(1));
    assert_eq!(param(&info, "val"), "value");

    let info = router.recognize(&request("/name/value2/index.html"), 0);
    assert_eq!(route_index(&info), Some(2));
    assert_eq!(param(&info, "val"), "value2");

    let info = router.recognize(&request("/file/file.gz"), 0);
    assert_eq!(route_index(&info), Some(3));
    assert_eq!(param(&info, "file"), "file");
    assert_eq!(param(&info, "ext"), "gz");

    let info = router.recognize(&request("/vtest/ttt/index.html"), 0);
    assert_eq!(route_index(&info), Some(4));
    assert_eq!(param(&info, "val"), "test");
    assert_eq!(param(&info, "val2"), "ttt");

    let info = router.recognize(&request("/v/blah-blah/index.html"), 0);
    assert_eq!(route_index(&info), Some(5));
    assert_eq!(param(&info, "tail"), "blah-blah/index.html");

    let info = router.recognize(&request("/test2/index.html"), 0);
    assert_eq!(route_index(&info), Some(6));
    assert_eq!(param(&info, "test"), "index");

    let info = router.recognize(&request("/bbb/index.html"), 0);
    assert_eq!(route_index(&info), Some(7));
    assert_eq!(param(&info, "test"), "bbb");
}

#[test]
fn test_recognizer_2() {
    let router = router_of(&["/index.json", "/{source}.json"]);

    let info = router.recognize(&request("/index.json"), 0);
    assert_eq!(route_index(&info), Some(0));

    let info = router.recognize(&request("/test.json"), 0);
    assert_eq!(route_index(&info), Some(1));
}

#[test]
fn test_recognizer_with_prefix() {
    let router = router_of(&["/name", "/name/{val}"]);

    let info = router.recognize(&request("/name"), 5);
    assert_eq!(route_index(&info), None);

    let info = router.recognize(&request("/test/name"), 5);
    assert_eq!(route_index(&info), Some(0));

    let info = router.recognize(&request("/test/name/value"), 5);
    assert_eq!(route_index(&info), Some(1));
    assert_eq!(param(&info, "val"), "value");

    // same patterns
    let router = router_of(&["/name", "/name/{val}"]);

    let info = router.recognize(&request("/name"), 6);
    assert_eq!(route_index(&info), None);

    let info = router.recognize(&request("/test2/name"), 6);
    assert_eq!(route_index(&info), Some(0));

    let info = router.recognize(&request("/test2/name-test"), 6);
    assert_eq!(route_index(&info), None);

    let info = router.recognize(&request("/test2/name/ttt"), 6);
    assert_eq!(route_index(&info), Some(1));
    assert_eq!(param(&info, "val"), "ttt");
}

#[test]
fn test_parse_static() {
    let re = ResourcePattern::new("/");
    assert!(re.is_match("/"));
    assert!(!re.is_match("/a"));

    let re = ResourcePattern::new("/name");
    assert!(re.is_match("/name"));
    assert!(!re.is_match("/name1"));
    assert!(!re.is_match("/name/"));
    assert!(!re.is_match("/name~"));

    let re = ResourcePattern::new("/name/");
    assert!(re.is_match("/name/"));
    assert!(!re.is_match("/name"));
    assert!(!re.is_match("/name/gs"));

    let re = ResourcePattern::new("/user/profile");
    assert!(re.is_match("/user/profile"));
    assert!(!re.is_match("/user/profile/profile"));
}

#[test]
fn test_parse_param() {
    let re = ResourcePattern::new("/user/{id}");
    assert!(re.is_match("/user/profile"));
    assert!(re.is_match("/user/2345"));
    assert!(!re.is_match("/user/2345/"));
    assert!(!re.is_match("/user/2345/sdg"));

    let info = re.match_with_params("/user/profile", 0).unwrap();
    assert_eq!(info.get("id").unwrap(), "profile");

    let info = re.match_with_params("/user/1245125", 0).unwrap();
    assert_eq!(info.get("id").unwrap(), "1245125");

    let re = ResourcePattern::new("/v{version}/resource/{id}");
    assert!(re.is_match("/v1/resource/320120"));
    assert!(!re.is_match("/v/resource/1"));
    assert!(!re.is_match("/resource"));

    let info = re.match_with_params("/v151/resource/adahg32", 0).unwrap();
    assert_eq!(info.get("version").unwrap(), "151");
    assert_eq!(info.get("id").unwrap(), "adahg32");

    let re = ResourcePattern::new("/{id:[[:digit:]]{6}}");
    assert!(re.is_match("/012345"));
    assert!(!re.is_match("/012"));
    assert!(!re.is_match("/01234567"));
    assert!(!re.is_match("/XXXXXX"));

    let info = re.match_with_params("/012345", 0).unwrap();
    assert_eq!(info.get("id").unwrap(), "012345");
}

#[test]
fn test_resource_prefix() {
    let re = ResourcePattern::prefix("/name");
    assert!(re.is_match("/name"));
    assert!(re.is_match("/name/"));
    assert!(re.is_match("/name/test/test"));
    // a prefix matches only at a `/` boundary
    assert!(!re.is_match("/name1"));
    assert!(!re.is_match("/name~"));

    let re = ResourcePattern::prefix("/name/");
    assert!(re.is_match("/name/"));
    assert!(re.is_match("/name/gs"));
    assert!(!re.is_match("/name"));
}

#[test]
fn test_reousrce_prefix_dynamic() {
    let re = ResourcePattern::prefix("/{name}/");
    assert!(re.is_match("/name/"));
    assert!(re.is_match("/name/gs"));
    assert!(!re.is_match("/name"));

    let info = re.match_with_params("/test2/", 0).unwrap();
    assert_eq!(info.get("name").unwrap(), "test2");
    assert_eq!(info.value_at(0), "test2");

    let info = re
        .match_with_params("/test2/subpath1/subpath2/index.html", 0)
        .unwrap();
    assert_eq!(info.get("name").unwrap(), "test2");
    assert_eq!(info.value_at(0), "test2");
}
