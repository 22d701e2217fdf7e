//! Route tables: registration in priority order, the build phase that turns
//! every route's factory into a ready service, and first-match dispatch.
use vstd::prelude::*;

use crate::filter;
use crate::filter::{holds, Filter};
use crate::param::{model_valid, Params, ParamsModel};
use crate::pattern::{match_spec, PatternModel, ResourcePattern};
use crate::request::{Method, RequestHead, RequestModel};

verus! {

/// What a route is: its pattern and the filters that gate it.
pub struct RouteModel {
    pub pattern: PatternModel,
    pub filters: Seq<Filter>,
    pub name: Option<Seq<char>>,
}

/// Whether every filter of `fs` holds of the request.
pub open spec fn all_hold(fs: Seq<Filter>, req: RequestModel) -> bool {
    forall|i: int| 0 <= i < fs.len() ==> holds(#[trigger] fs[i], req)
}

/// Whether a route takes a request whose first `plen` path bytes are consumed:
/// its pattern matches and all its filters pass.
pub open spec fn route_takes(r: RouteModel, req: RequestModel, plen: int) -> bool {
    match_spec(r.pattern.matcher, req.path, plen) is Some && all_hold(r.filters, req)
}

/// The first route at or after `from` that takes the request.
pub open spec fn first_taker(routes: Seq<RouteModel>, req: RequestModel, plen: int, from: int) -> Option<
    int,
>
    decreases routes.len() - from,
{
    if from < 0 || from >= routes.len() {
        None
    } else if route_takes(routes[from], req, plen) {
        Some(from)
    } else {
        first_taker(routes, req, plen, from + 1)
    }
}

/// What one route makes of a request.
pub enum RouteOutcome {
    /// The pattern matched and every filter passed.
    Matched(Params),
    /// The pattern matched but a filter failed: the next route is tried.
    Filtered,
    /// The pattern did not match.
    NoMatch,
}

/// Which route a router hands a request to.
pub enum Recognized {
    /// The route at this index, with the parameters its pattern extracted.
    Route(usize, Params),
    /// No route takes the request: the default service does.
    Default,
}

/// Checks filters in order, stopping at the first that fails.
pub fn check_all(filters: &Vec<Filter>, req: &RequestHead) -> (r: bool)
    ensures
        r == all_hold(filters@, req@),
{
    let mut i: usize = 0;
    while i < filters.len()
        invariant
            i <= filters@.len(),
            forall|j: int| 0 <= j < i ==> holds(#[trigger] filters@[j], req@),
        decreases filters@.len() - i,
    {
        if !filters[i].check(req) {
            return false;
        }
        i = i + 1;
    }
    true
}

/// A route: a pattern, and filters that must all pass.
pub struct RouteDef {
    pattern: ResourcePattern,
    filters: Vec<Filter>,
    name: Option<String>,
}

impl View for RouteDef {
    type V = RouteModel;

    closed spec fn view(&self) -> RouteModel {
        RouteModel {
            pattern: self.pattern@,
            filters: self.filters@,
            name: match self.name {
                Some(n) => Some(n@),
                None => None,
            },
        }
    }
}

impl RouteDef {
    /// A route for `pattern` gated by `filters`.
    pub fn new(pattern: ResourcePattern, filters: Vec<Filter>) -> (r: RouteDef)
        ensures
            r@ == (RouteModel { pattern: pattern@, filters: filters@, name: None }),
    {
        RouteDef { pattern, filters, name: None }
    }

    /// The route with a name.
    pub fn named(self, name: &str) -> (r: RouteDef)
        ensures
            r@ == (RouteModel { name: Some(name@), ..self@ }),
    {
        RouteDef { pattern: self.pattern, filters: self.filters, name: Some(name.to_owned()) }
    }

    /// The route's name, if it has one.
    pub fn name(&self) -> (r: Option<&str>)
        ensures
            match self@.name {
                Some(n) => r matches Some(x) && x@ == n,
                None => r is None,
            },
    {
        match &self.name {
            Some(n) => Some(n.as_str()),
            None => None,
        }
    }

    /// Checks every filter, in order, stopping at the first that fails.
    pub fn check(&self, req: &RequestHead) -> (r: bool)
        ensures
            r == all_hold(self@.filters, req@),
    {
        check_all(&self.filters, req)
    }

    /// Matches the request path after its first `plen` bytes, then checks
    /// the filters.
    pub fn handle(&self, req: &RequestHead, plen: usize) -> (r: RouteOutcome)
        ensures
            match match_spec(self@.pattern.matcher, req@.path, plen as int) {
                None => r is NoMatch,
                Some(m) => if all_hold(self@.filters, req@) {
                    r matches RouteOutcome::Matched(p) && p@ == m && model_valid(p@)
                } else {
                    r is Filtered
                },
            },
    {
        match self.pattern.match_with_params(req.path(), plen) {
            None => RouteOutcome::NoMatch,
            Some(p) => {
                if self.check(req) {
                    RouteOutcome::Matched(p)
                } else {
                    RouteOutcome::Filtered
                }
            },
        }
    }
}

/// Routes in registration order, which is their match priority.
pub struct Router {
    routes: Vec<RouteDef>,
}

/// The models of a list of routes.
pub open spec fn routes_view(routes: Seq<RouteDef>) -> Seq<RouteModel> {
    routes.map_values(|r: RouteDef| r@)
}

proof fn lemma_first_taker_skip(routes: Seq<RouteModel>, req: RequestModel, plen: int, i: int)
    requires
        0 <= i <= routes.len(),
        forall|j: int| 0 <= j < i ==> !route_takes(#[trigger] routes[j], req, plen),
    ensures
        first_taker(routes, req, plen, 0) == first_taker(routes, req, plen, i),
    decreases i,
{
    if i > 0 {
        lemma_first_taker_skip(routes, req, plen, i - 1);
    }
}

impl Router {
    /// A router without routes.
    pub fn new() -> (r: Router)
        ensures
            r.routes().len() == 0,
    {
        Router { routes: Vec::new() }
    }

    /// The routes, in priority order.
    pub closed spec fn routes(&self) -> Seq<RouteModel> {
        routes_view(self.routes@)
    }

    /// Adds a route after the present ones.
    pub fn route(self, def: RouteDef) -> (r: Router)
        ensures
            r.routes() == self.routes().push(def@),
    {
        let mut routes = self.routes;
        let ghost before = routes@;
        routes.push(def);
        let r = Router { routes };
        proof {
            assert(routes_view(r.routes@) =~= routes_view(before).push(def@));
        }
        r
    }

    /// The number of routes.
    pub fn len(&self) -> (r: usize)
        ensures
            r == self.routes().len(),
    {
        self.routes.len()
    }

    /// The name of route `i`, if it has one.
    pub fn route_name(&self, i: usize) -> (r: Option<&str>)
        requires
            i < self.routes().len(),
        ensures
            match self.routes()[i as int].name {
                Some(n) => r matches Some(x) && x@ == n,
                None => r is None,
            },
    {
        self.routes[i].name()
    }

    /// Scans the routes in registration order; the first whose pattern
    /// matches and whose filters pass takes the request.
    pub fn recognize(&self, req: &RequestHead, plen: usize) -> (r: Recognized)
        ensures
            match first_taker(self.routes(), req@, plen as int, 0) {
                Some(i) => r matches Recognized::Route(k, p) && k == i && p@ == match_spec(
                    self.routes()[i].pattern.matcher,
                    req@.path,
                    plen as int,
                )->Some_0 && model_valid(p@),
                None => r is Default,
            },
    {
        let ghost routes = self.routes();
        let mut i: usize = 0;
        while i < self.routes.len()
            invariant
                routes == self.routes(),
                routes.len() == self.routes@.len(),
                i <= routes.len(),
                forall|j: int| 0 <= j < i ==> !route_takes(#[trigger] routes[j], req@, plen as int),
            decreases routes.len() - i,
        {
            let outcome = self.routes[i].handle(req, plen);
            proof {
                assert(routes[i as int] == self.routes@[i as int]@);
            }
            match outcome {
                RouteOutcome::Matched(p) => {
                    proof {
                        lemma_first_taker_skip(routes, req@, plen as int, i as int);
                    }
                    return Recognized::Route(i, p);
                },
                _ => {},
            }
            i = i + 1;
        }
        proof {
            lemma_first_taker_skip(routes, req@, plen as int, i as int);
        }
        Recognized::Default
    }
}

/// The first route that takes a request wins: a later route that takes it
/// too is never chosen, and nothing before the winner takes it.
pub proof fn lemma_first_match_wins(routes: Seq<RouteModel>, req: RequestModel, plen: int, a: int, b: int)
    requires
        0 <= a < b < routes.len(),
        route_takes(routes[a], req, plen),
        route_takes(routes[b], req, plen),
    ensures
        first_taker(routes, req, plen, 0) matches Some(k) && k <= a,
        first_taker(routes, req, plen, 0) != Some(b),
{
    lemma_first_taker_bound(routes, req, plen, 0, a);
}

/// The route that `first_taker` finds lies in the table.
pub proof fn lemma_first_taker_range(routes: Seq<RouteModel>, req: RequestModel, plen: int, from: int)
    ensures
        first_taker(routes, req, plen, from) matches Some(k) ==> from <= k < routes.len(),
    decreases routes.len() - from,
{
    if 0 <= from < routes.len() && !route_takes(routes[from], req, plen) {
        lemma_first_taker_range(routes, req, plen, from + 1);
    }
}

proof fn lemma_first_taker_bound(routes: Seq<RouteModel>, req: RequestModel, plen: int, from: int, a: int)
    requires
        0 <= from <= a < routes.len(),
        route_takes(routes[a], req, plen),
    ensures
        first_taker(routes, req, plen, from) matches Some(k) && from <= k <= a,
    decreases a - from,
{
    if !route_takes(routes[from], req, plen) {
        lemma_first_taker_bound(routes, req, plen, from + 1, a);
    }
}

/// The index of the first filter list at or after `from` whose filters
/// all hold of the request.
pub open spec fn first_passing(routes: Seq<Seq<Filter>>, req: RequestModel, from: int) -> Option<int>
    decreases routes.len() - from,
{
    if from < 0 || from >= routes.len() {
        None
    } else if all_hold(routes[from], req) {
        Some(from)
    } else {
        first_passing(routes, req, from + 1)
    }
}

proof fn lemma_first_passing_skip(routes: Seq<Seq<Filter>>, req: RequestModel, i: int)
    requires
        0 <= i <= routes.len(),
        forall|j: int| 0 <= j < i ==> !all_hold(#[trigger] routes[j], req),
    ensures
        first_passing(routes, req, 0) == first_passing(routes, req, i),
    decreases i,
{
    if i > 0 {
        lemma_first_passing_skip(routes, req, i - 1);
    }
}

/// The routes of one resource, each a list of filters: a request goes to
/// the first route whose filters all pass, or is not found.
pub struct Resource {
    routes: Vec<RouteDefFilters>,
}

/// The filters of one route of a resource.
pub struct RouteDefFilters {
    filters: Vec<Filter>,
}

/// The route that `first_passing` finds lies in the resource.
pub proof fn lemma_first_passing_range(routes: Seq<Seq<Filter>>, req: RequestModel, from: int)
    ensures
        first_passing(routes, req, from) matches Some(k) ==> from <= k < routes.len(),
    decreases routes.len() - from,
{
    if 0 <= from < routes.len() && !all_hold(routes[from], req) {
        lemma_first_passing_range(routes, req, from + 1);
    }
}

impl Resource {
    /// The number of routes.
    pub fn len(&self) -> (r: usize)
        ensures
            r == self.routes().len(),
    {
        self.routes.len()
    }

    /// A resource without routes.
    pub fn new() -> (r: Resource)
        ensures
            r.routes().len() == 0,
    {
        Resource { routes: Vec::new() }
    }

    /// The filters of each route, in registration order.
    pub closed spec fn routes(&self) -> Seq<Seq<Filter>> {
        self.routes@.map_values(|r: RouteDefFilters| r.filters@)
    }

    /// Adds a route gated by `filters` after the present ones.
    pub fn route(self, filters: Vec<Filter>) -> (r: Resource)
        ensures
            r.routes() == self.routes().push(filters@),
    {
        let mut routes = self.routes;
        let ghost before = routes@;
        routes.push(RouteDefFilters { filters });
        let r = Resource { routes };
        proof {
            assert(r.routes() =~= before.map_values(|r: RouteDefFilters| r.filters@).push(
                filters@,
            ));
        }
        r
    }

    /// Adds a route for one method.
    pub fn method(self, method: Method) -> (r: Resource)
        ensures
            r.routes().len() == self.routes().len() + 1,
            r.routes().subrange(0, self.routes().len() as int) == self.routes(),
            forall|req: RequestModel|
                all_hold(#[trigger] r.routes()[self.routes().len() as int], req) == (req.method
                    == method),
    {
        let f = filter::Method(method).into_filter();
        let mut v: Vec<Filter> = Vec::new();
        v.push(f);
        let r = self.route(v);
        proof {
            assert(r.routes().subrange(0, self.routes().len() as int) =~= self.routes());
            assert forall|req: RequestModel|
                all_hold(#[trigger] r.routes()[self.routes().len() as int], req) == (req.method
                    == method) by {
                assert(r.routes()[self.routes().len() as int] == v@);
                assert(v@[0] == f);
            }
        }
        r
    }

    /// Adds a `GET` route.
    pub fn get(self) -> (r: Resource)
        ensures
            r.routes().len() == self.routes().len() + 1,
            r.routes().subrange(0, self.routes().len() as int) == self.routes(),
            forall|req: RequestModel|
                all_hold(#[trigger] r.routes()[self.routes().len() as int], req) == (req.method
                    == Method::Get),
    {
        self.method(Method::Get)
    }

    /// Adds a `POST` route.
    pub fn post(self) -> (r: Resource)
        ensures
            r.routes().len() == self.routes().len() + 1,
            r.routes().subrange(0, self.routes().len() as int) == self.routes(),
            forall|req: RequestModel|
                all_hold(#[trigger] r.routes()[self.routes().len() as int], req) == (req.method
                    == Method::Post),
    {
        self.method(Method::Post)
    }

    /// Adds a `PUT` route.
    pub fn put(self) -> (r: Resource)
        ensures
            r.routes().len() == self.routes().len() + 1,
            r.routes().subrange(0, self.routes().len() as int) == self.routes(),
            forall|req: RequestModel|
                all_hold(#[trigger] r.routes()[self.routes().len() as int], req) == (req.method
                    == Method::Put),
    {
        self.method(Method::Put)
    }

    /// Adds a `DELETE` route.
    pub fn delete(self) -> (r: Resource)
        ensures
            r.routes().len() == self.routes().len() + 1,
            r.routes().subrange(0, self.routes().len() as int) == self.routes(),
            forall|req: RequestModel|
                all_hold(#[trigger] r.routes()[self.routes().len() as int], req) == (req.method
                    == Method::Delete),
    {
        self.method(Method::Delete)
    }

    /// Adds a `HEAD` route.
    pub fn head(self) -> (r: Resource)
        ensures
            r.routes().len() == self.routes().len() + 1,
            r.routes().subrange(0, self.routes().len() as int) == self.routes(),
            forall|req: RequestModel|
                all_hold(#[trigger] r.routes()[self.routes().len() as int], req) == (req.method
                    == Method::Head),
    {
        self.method(Method::Head)
    }

    /// The route that takes the request: the first whose filters all pass,
    /// checked in registration order; `None` (not found) where none does.
    pub fn select(&self, req: &RequestHead) -> (r: Option<usize>)
        ensures
            match first_passing(self.routes(), req@, 0) {
                Some(i) => r matches Some(k) && k == i,
                None => r is None,
            },
    {
        let ghost routes = self.routes();
        let mut i: usize = 0;
        while i < self.routes.len()
            invariant
                routes == self.routes(),
                routes.len() == self.routes@.len(),
                i <= routes.len(),
                forall|j: int| 0 <= j < i ==> !all_hold(#[trigger] routes[j], req@),
            decreases routes.len() - i,
        {
            let fs = &self.routes[i].filters;
            let pass = check_all(fs, req);
            proof {
                assert(routes[i as int] == fs@);
            }
            if pass {
                proof {
                    lemma_first_passing_skip(routes, req@, i as int);
                }
                return Some(i);
            }
            i = i + 1;
        }
        proof {
            lemma_first_passing_skip(routes, req@, i as int);
        }
        None
    }
}

} // verus!
