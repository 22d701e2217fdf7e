use web_router::filter::{Header, Post};
use web_router::{
    Method, Params, Recognized, RequestHead, Resource, ResourcePattern, ResourceType, RouteDef,
    RouteOutcome,
    BuildStatus, Finished, Outcome, ResourceService, Router, RouterService, State,
};

fn get(path: &str) -> RequestHead {
    RequestHead::new(Method::Get, path, "localhost", "http")
}

fn two_routes() -> Router {
    Router::new()
        .route(RouteDef::new(ResourcePattern::new("/name"), Vec::new()))
        .route(RouteDef::new(ResourcePattern::new("/name/{val}"), Vec::new()))
}

#[test]
fn static_match_is_exact_equality() {
    let re = ResourcePattern::new("/name");
    assert_eq!(re.pattern(), "/name");
    assert!(re.is_match("/name"));
    assert!(!re.is_match("/name/"));
    assert!(!re.is_match(""));
    let re = ResourcePattern::new("name");
    assert_eq!(re.pattern(), "/name");
    assert!(re.is_match("/name"));
}

#[test]
fn prefix_matches_only_at_slash_boundary() {
    let re = ResourcePattern::prefix("/name");
    assert!(re.is_match("/name/x/y"));
    assert!(!re.is_match("/name2"));
    assert!(!re.is_match("/nam"));
}

#[test]
fn first_registered_route_wins() {
    let router = Router::new()
        .route(RouteDef::new(ResourcePattern::new("/user/{id}"), Vec::new()))
        .route(RouteDef::new(ResourcePattern::new("/user/{name}"), Vec::new()));
    match router.recognize(&get("/user/42"), 0) {
        Recognized::Route(i, p) => {
            assert_eq!(i, 0);
            assert_eq!(p.get("id"), Some("42"));
            assert_eq!(p.get("name"), None);
        }
        Recognized::Default => panic!("no route matched"),
    }
}

#[test]
fn filtered_route_falls_through() {
    let router = Router::new()
        .route(RouteDef::new(
            ResourcePattern::new("/item"),
            vec![Post().into_filter()],
        ))
        .route(RouteDef::new(ResourcePattern::new("/item"), Vec::new()));
    let def = RouteDef::new(ResourcePattern::new("/item"), vec![Post().into_filter()]);
    assert!(matches!(def.handle(&get("/item"), 0), RouteOutcome::Filtered));
    assert!(matches!(def.handle(&get("/other"), 0), RouteOutcome::NoMatch));
    match router.recognize(&get("/item"), 0) {
        Recognized::Route(i, _) => assert_eq!(i, 1),
        Recognized::Default => panic!("no route matched"),
    }
    let post = RequestHead::new(Method::Post, "/item", "localhost", "http");
    match router.recognize(&post, 0) {
        Recognized::Route(i, _) => assert_eq!(i, 0),
        Recognized::Default => panic!("no route matched"),
    }
}

#[test]
fn compiling_twice_gives_the_same_matcher() {
    let a = ResourcePattern::new("/v{version}/resource/{id}");
    let b = ResourcePattern::new("/v{version}/resource/{id}");
    for path in ["/v1/resource/2", "/v/resource/2", "/v1/resource/", "/v12/resource/abc"] {
        assert_eq!(a.is_match(path), b.is_match(path));
    }
    let pa = a.match_with_params("/v3/resource/xyz", 0).unwrap();
    let pb = b.match_with_params("/v3/resource/xyz", 0).unwrap();
    assert_eq!(pa.iter(), pb.iter());
    assert_eq!(pa.iter(), vec![("version", "3"), ("id", "xyz")]);
}

#[test]
fn template_rematches_itself() {
    for t in ["/a/b", "/", "/x/"] {
        assert!(ResourcePattern::new(t).is_match(t));
        assert!(ResourcePattern::prefix(t).is_match(t));
    }
}

fn build(router: Router) -> RouterService<&'static str> {
    let mut b = router.start_build::<&'static str, u16>();
    assert!(!b.is_ready());
    // first turn: route 1 and the default are still being created
    assert_eq!(
        b.poll(vec![Outcome::Ready("name"), Outcome::Pending], Outcome::Pending),
        BuildStatus::Pending
    );
    assert!(!b.is_ready());
    let mut b = match b.finish() {
        Finished::Pending(b) => b,
        _ => panic!("finished before every service was ready"),
    };
    assert_eq!(
        b.poll(vec![Outcome::Pending, Outcome::Ready("name-val")], Outcome::Pending),
        BuildStatus::Pending
    );
    assert_eq!(
        b.poll(vec![Outcome::Pending, Outcome::Pending], Outcome::Ready("not-found")),
        BuildStatus::Ready
    );
    let services = match b.finish() {
        Finished::Assembled(s) => s,
        _ => panic!("not assembled though every service was ready"),
    };
    RouterService::new(router, services).unwrap()
}

#[test]
fn nothing_served_until_every_service_is_ready() {
    let service = build(two_routes());
    let (s, r) = service.call(&get("/name"), 0);
    assert_eq!(s, Some(&"name"));
    assert!(matches!(r, Recognized::Route(0, _)));
    let (s, r) = service.call(&get("/name/x"), 0);
    assert_eq!(s, Some(&"name-val"));
    match r {
        Recognized::Route(i, p) => {
            assert_eq!(i, 1);
            assert_eq!(p.get("val"), Some("x"));
        }
        Recognized::Default => panic!("no route matched"),
    }
}

#[test]
fn unknown_path_goes_to_default() {
    let service = build(two_routes());
    let (s, r) = service.call(&get("/unknown"), 0);
    assert_eq!(s, Some(&"not-found"));
    assert!(matches!(r, Recognized::Default));
}

#[test]
fn resolved_slot_keeps_first_service() {
    let router = two_routes();
    let mut b = router.start_build::<u32, ()>();
    b.resolve(0, 1);
    b.resolve(0, 2);
    b.resolve(1, 3);
    b.resolve_default(4);
    b.resolve_default(5);
    let services = match b.finish() {
        Finished::Assembled(s) => s,
        _ => panic!("not assembled"),
    };
    let s = RouterService::new(router, services).unwrap();
    assert_eq!(s.call(&get("/name"), 0).0, Some(&1));
    assert_eq!(s.call(&get("/name/a"), 0).0, Some(&3));
    assert_eq!(s.call(&get("/zzz"), 0).0, Some(&4));
}

#[test]
fn failed_build_aborts_with_first_error() {
    let router = two_routes();
    let mut b = router.start_build::<u32, &'static str>();
    // route 0 becomes ready; then the default fails before route 1 does
    assert_eq!(
        b.poll(vec![Outcome::Ready(1), Outcome::Failed("route")], Outcome::Failed("default")),
        BuildStatus::Aborted
    );
    assert!(b.is_aborted());
    // an aborted build stays aborted, whatever comes later
    assert_eq!(
        b.poll(vec![Outcome::Ready(1), Outcome::Ready(2)], Outcome::Ready(3)),
        BuildStatus::Aborted
    );
    b.resolve(0, 1);
    b.resolve(1, 2);
    b.resolve_default(3);
    match b.finish() {
        Finished::Aborted(e) => assert_eq!(e, "default"),
        _ => panic!("an aborted build was not reported"),
    }

    let mut b = router.start_build::<u32, &'static str>();
    b.resolve(0, 1);
    // a ready slot is not polled again, so its failure is ignored
    assert_eq!(
        b.poll(vec![Outcome::Failed("again"), Outcome::Failed("second")], Outcome::Pending),
        BuildStatus::Aborted
    );
    match b.finish() {
        Finished::Aborted(e) => assert_eq!(e, "second"),
        _ => panic!("an aborted build was not reported"),
    }
}

#[test]
fn resource_build_has_no_default() {
    let res = Resource::new().get().post();
    let mut b = res.start_build::<&'static str, ()>();
    assert_eq!(
        b.poll(vec![Outcome::Ready("get"), Outcome::Ready("post")], Outcome::Pending),
        BuildStatus::Ready
    );
    let services = match b.finish() {
        Finished::Assembled(s) => s,
        _ => panic!("not assembled"),
    };
    assert_eq!(services.default_service(), None);
    let svc = ResourceService::new(res, services).unwrap();
    let post = RequestHead::new(Method::Post, "/", "localhost", "http");
    assert_eq!(svc.call(&post), Some(&"post"));
    let put = RequestHead::new(Method::Put, "/", "localhost", "http");
    assert_eq!(svc.call(&put), None);
}

#[test]
fn services_and_router_must_agree_in_number() {
    let mut b = Router::new().start_build::<u8, ()>();
    b.resolve_default(0);
    let services = match b.finish() {
        Finished::Assembled(s) => s,
        _ => panic!("not assembled"),
    };
    assert!(RouterService::new(two_routes(), services).is_none());
}

#[test]
fn test_request_resource() {
    let router = Router::new()
        .route(RouteDef::new(ResourcePattern::new("/index.json"), Vec::new()).named("r1"))
        .route(RouteDef::new(ResourcePattern::new("/test.json"), Vec::new()).named("r2"));

    let info = router.recognize(&get("/index.json"), 0);
    assert!(matches!(info, Recognized::Route(0, _)));
    assert_eq!(router.route_name(0), Some("r1"));

    let info = router.recognize(&get("/test.json"), 0);
    assert!(matches!(info, Recognized::Route(1, _)));
    assert_eq!(router.route_name(1), Some("r2"));
}

#[test]
fn scenario_single_param() {
    let p = ResourcePattern::new("/name/{val}")
        .match_with_params("/name/value", 0)
        .unwrap();
    assert_eq!(p.len(), 1);
    assert_eq!(p.get("val"), Some("value"));
}

#[test]
fn scenario_two_params() {
    let p = ResourcePattern::new("/v{version}/resource/{id}")
        .match_with_params("/v151/resource/adahg32", 0)
        .unwrap();
    assert_eq!(p.len(), 2);
    assert_eq!(p.get("version"), Some("151"));
    assert_eq!(p.get("id"), Some("adahg32"));
}

#[test]
fn scenario_custom_tail() {
    let p = ResourcePattern::new("/v/{tail:.*}")
        .match_with_params("/v/blah-blah/index.html", 0)
        .unwrap();
    assert_eq!(p.get("tail"), Some("blah-blah/index.html"));
}

#[test]
fn scenario_route_order() {
    let router = two_routes();
    assert!(matches!(router.recognize(&get("/name"), 0), Recognized::Route(0, _)));
    assert!(matches!(router.recognize(&get("/name/x"), 0), Recognized::Route(1, _)));
    assert!(matches!(router.recognize(&get("/unknown"), 0), Recognized::Default));
}

#[test]
fn literal_dots_are_escaped() {
    let re = ResourcePattern::new("/file/{file}.{ext}");
    assert!(re.is_match("/file/a.gz"));
    assert!(!re.is_match("/file/aXgz"));
}

#[test]
fn malformed_templates_are_refused() {
    assert!(ResourcePattern::try_new("/user/{id").is_none());
    assert!(ResourcePattern::try_new("/user/{id:(}").is_none());
    assert!(ResourcePattern::try_prefix("/{a}/{b").is_none());
    assert!(ResourcePattern::try_external("/x/{y:[}").is_none());
    assert!(ResourcePattern::try_new("/user/{id}").is_some());
    assert!(ResourcePattern::try_with_prefix("user", false, true).is_some());
}

#[test]
fn resource_types() {
    assert_eq!(ResourcePattern::new("/a").rtype(), ResourceType::Normal);
    let e = ResourcePattern::external("https://youtube.com/watch/{video_id}");
    assert_eq!(e.rtype(), ResourceType::External);
    assert_eq!(e.pattern(), "https://youtube.com/watch/{video_id}");
}

#[test]
fn prefix_match_sets_the_tail() {
    let re = ResourcePattern::prefix("/app");
    let p = re.match_prefix_with_params("/app/users/1", 0).unwrap();
    assert_eq!(p.unprocessed(), "/users/1");
    let re = ResourcePattern::prefix("/app/");
    let p = re.match_prefix_with_params("/app/users/1", 0).unwrap();
    assert_eq!(p.unprocessed(), "/users/1");
    let re = ResourcePattern::new("/app");
    let p = re.match_prefix_with_params("/app", 0).unwrap();
    assert_eq!(p.unprocessed(), "");
    let re = ResourcePattern::prefix("/{scope}/");
    let p = re.match_prefix_with_params("/api/v1/items", 0).unwrap();
    assert_eq!(p.get("scope"), Some("api"));
    assert_eq!(p.unprocessed(), "v1/items");
    assert!(ResourcePattern::prefix("/app")
        .match_prefix_with_params("/apple", 0)
        .is_none());
}

#[test]
fn nested_prefix_matching() {
    let outer = ResourcePattern::prefix("/api");
    let p = outer.match_prefix_with_params("/api/user/7", 0).unwrap();
    let inner = ResourcePattern::new("/user/{id}");
    let q = inner.match_with_params("/api/user/7", 4).unwrap();
    assert_eq!(p.unprocessed(), "/user/7");
    assert_eq!(q.get("id"), Some("7"));
}

#[test]
fn is_prefix_match_lengths() {
    assert_eq!(ResourcePattern::new("/name").is_prefix_match("/name"), Some(5));
    assert_eq!(ResourcePattern::new("/name").is_prefix_match("/other"), None);
    assert_eq!(ResourcePattern::prefix("/name").is_prefix_match("/name/x"), Some(5));
    assert_eq!(ResourcePattern::prefix("/name/").is_prefix_match("/name/x"), Some(5));
    assert_eq!(ResourcePattern::prefix("/name").is_prefix_match("/namex"), None);
    assert_eq!(ResourcePattern::prefix("/").is_prefix_match(""), Some(0));
    assert_eq!(ResourcePattern::prefix("/{a}/").is_prefix_match("/x/y"), Some(4 + 2 + 1));
}

#[test]
fn params_access() {
    let mut p = Params::with_path("/a/b");
    assert!(p.is_empty());
    p.add_static("kind", "fixed");
    assert_eq!(p.len(), 1);
    assert_eq!(p.get("kind"), Some("fixed"));
    assert_eq!(p.query("kind"), "fixed");
    assert_eq!(p.query("missing"), "");
    assert_eq!(p.get("tail"), Some("/a/b"));
    p.set_tail(2);
    assert_eq!(p.unprocessed(), "/b");
    assert_eq!(p.get("tail"), Some("/b"));
    assert_eq!(p.path(), "/a/b");
    p.clear();
    assert!(p.is_empty());
    assert_eq!(Params::new().len(), 0);
}

#[test]
fn first_of_equal_names_wins() {
    let p = ResourcePattern::new("/{x}/{x2}")
        .match_with_params("/one/two", 0)
        .unwrap();
    assert_eq!(p.get("x"), Some("one"));
    assert_eq!(p.value_at(1), "two");
}

#[test]
fn shared_state() {
    let s = State::new(vec![1, 2, 3]);
    let t = s.share();
    assert_eq!(s.get_ref(), &vec![1, 2, 3]);
    assert_eq!(t.get_ref().len(), 3);
}

#[test]
fn resource_picks_first_passing_route() {
    let res = Resource::new()
        .route(vec![Header("content-type", "text/plain").into_filter()])
        .get()
        .post();
    let mut req = RequestHead::new(Method::Post, "/", "localhost", "http");
    assert_eq!(res.select(&req), Some(2));
    req.insert_header("Content-Type", "text/plain");
    assert_eq!(res.select(&req), Some(0));
    assert_eq!(res.select(&get("/")), Some(1));
    let put = RequestHead::new(Method::Put, "/", "localhost", "http");
    assert_eq!(res.select(&put), None);
    assert_eq!(Resource::new().put().delete().head().select(&put), Some(0));
}
