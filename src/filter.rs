//! Route filters: predicates over a request head that gate a route after
//! its path matched.
#![allow(non_snake_case)]
use vstd::prelude::*;

use crate::request::{header_from, header_name, header_name_spec, Method, RequestHead, RequestModel};
use crate::text::{bytes_of, same_text};

verus! {

broadcast use vstd::std_specs::vec::axiom_vec_index_decreases;

/// A request predicate.
pub enum Filter {
    /// Holds where any of its filters holds.
    Any(AnyFilter),
    /// Holds where all of its filters hold.
    All(AllFilter),
    /// Holds where its filter does not.
    Not(NotFilter),
    /// Holds for one method.
    Method(MethodFilter),
    /// Holds where a header has a given value.
    Header(HeaderFilter),
    /// Holds for a host, and a scheme if one is set.
    Host(HostFilter),
}

/// Matches if any of its filters matches.
pub struct AnyFilter(Vec<Filter>);

/// Matches if all of its filters match.
pub struct AllFilter(Vec<Filter>);

/// Matches if its filter does not match.
pub struct NotFilter(Box<Filter>);

/// Matches requests of one method.
pub struct MethodFilter(Method);

/// Matches requests whose first header of a (normalized) name has a value.
pub struct HeaderFilter(String, String);

/// Matches requests for a host, and a scheme where one is set.
pub struct HostFilter(String, Option<String>);

/// Whether a filter holds of a request.
pub closed spec fn holds(f: Filter, req: RequestModel) -> bool
    decreases f, 0nat,
{
    match f {
        Filter::Any(a) => any_from(a.0, 0, req),
        Filter::All(a) => all_from(a.0, 0, req),
        Filter::Not(n) => !holds(*n.0, req),
        Filter::Method(m) => req.method == m.0,
        Filter::Header(h) => header_from(req.headers, h.0@, 0) == Some(h.1@),
        Filter::Host(h) => req.host == h.0@ && match h.1 {
            Some(s) => req.scheme == s@,
            None => true,
        },
    }
}

/// Whether some filter of `fs` from index `i` on holds.
pub closed spec fn any_from(fs: Vec<Filter>, i: int, req: RequestModel) -> bool
    decreases fs, fs.len() - i,
{
    if i < 0 || i >= fs.len() {
        false
    } else {
        holds(fs[i], req) || any_from(fs, i + 1, req)
    }
}

/// Whether every filter of `fs` from index `i` on holds.
pub closed spec fn all_from(fs: Vec<Filter>, i: int, req: RequestModel) -> bool
    decreases fs, fs.len() - i,
{
    if i < 0 || i >= fs.len() {
        true
    } else {
        holds(fs[i], req) && all_from(fs, i + 1, req)
    }
}

/// Whether a header value holds only visible ASCII and tabs, as
/// `http::header::HeaderValue::from_static` asks.
pub open spec fn header_value_valid(v: Seq<u8>) -> bool {
    forall|i: int| 0 <= i < v.len() ==> (32 <= #[trigger] v[i] < 127 || v[i] == 9u8)
}

/// Whether a header value holds only visible ASCII and tabs.
pub fn is_header_value(value: &str) -> (r: bool)
    ensures
        r == header_value_valid(bytes_of(value@)),
{
    let b = value.as_bytes();
    let mut i: usize = 0;
    while i < b.len()
        invariant
            b@ == bytes_of(value@),
            i <= b@.len(),
            forall|j: int| 0 <= j < i ==> (32 <= #[trigger] b@[j] < 127 || b@[j] == 9u8),
        decreases b@.len() - i,
    {
        let c = b[i];
        if !(32 <= c && c < 127 || c == 9) {
            return false;
        }
        i = i + 1;
    }
    true
}

impl Filter {
    /// Checks the request against this filter.
    pub fn check(&self, req: &RequestHead) -> (r: bool)
        ensures
            r == holds(*self, req@),
        decreases self,
    {
        match self {
            Filter::Any(a) => a.check(req),
            Filter::All(a) => a.check(req),
            Filter::Not(n) => n.check(req),
            Filter::Method(m) => m.check(req),
            Filter::Header(h) => h.check(req),
            Filter::Host(h) => h.check(req),
        }
    }
}

impl AnyFilter {
    /// Checks the filters in order, stopping at the first that matches.
    pub fn check(&self, req: &RequestHead) -> (r: bool)
        ensures
            r == holds(Filter::Any(*self), req@),
        decreases self,
    {
        proof {
            assert(decreases_to!(*self => self.0));
        }
        let mut i: usize = 0;
        while i < self.0.len()
            invariant
                i <= self.0@.len(),
                decreases_to!(*self => self.0),
                any_from(self.0, 0, req@) == any_from(self.0, i as int, req@),
            decreases self.0@.len() - i,
        {
            proof {
                assert(decreases_to!(self.0 => self.0[i as int]));
            }
            if self.0[i].check(req) {
                assert(any_from(self.0, i as int, req@));
                return true;
            }
            i = i + 1;
        }
        false
    }
}

impl AllFilter {
    /// Checks the filters in order, stopping at the first that fails.
    pub fn check(&self, req: &RequestHead) -> (r: bool)
        ensures
            r == holds(Filter::All(*self), req@),
        decreases self,
    {
        proof {
            assert(decreases_to!(*self => self.0));
        }
        let mut i: usize = 0;
        while i < self.0.len()
            invariant
                i <= self.0@.len(),
                decreases_to!(*self => self.0),
                all_from(self.0, 0, req@) == all_from(self.0, i as int, req@),
            decreases self.0@.len() - i,
        {
            proof {
                assert(decreases_to!(self.0 => self.0[i as int]));
            }
            if !self.0[i].check(req) {
                assert(!all_from(self.0, i as int, req@));
                return false;
            }
            i = i + 1;
        }
        true
    }
}

impl NotFilter {
    /// Whether the inner filter fails.
    pub fn check(&self, req: &RequestHead) -> (r: bool)
        ensures
            r == holds(Filter::Not(*self), req@),
        decreases self,
    {
        !self.0.check(req)
    }
}

impl MethodFilter {
    /// Whether the request has this filter's method.
    pub fn check(&self, req: &RequestHead) -> (r: bool)
        ensures
            r == holds(Filter::Method(*self), req@),
    {
        req.method() == self.0
    }
}

impl HeaderFilter {
    /// Whether the request's first header of this name has this value.
    pub fn check(&self, req: &RequestHead) -> (r: bool)
        ensures
            r == holds(Filter::Header(*self), req@),
    {
        match req.header(self.0.as_str()) {
            Some(v) => same_text(v, self.1.as_str()),
            None => false,
        }
    }
}

impl HostFilter {
    /// Whether the request is for this host, and scheme where one is set.
    pub fn check(&self, req: &RequestHead) -> (r: bool)
        ensures
            r == holds(Filter::Host(*self), req@),
    {
        if !same_text(req.host(), self.0.as_str()) {
            false
        } else {
            match &self.1 {
                Some(s) => same_text(req.scheme(), s.as_str()),
                None => true,
            }
        }
    }
}

proof fn lemma_any_push(fs: Vec<Filter>, gs: Vec<Filter>, f: Filter, req: RequestModel, i: int)
    requires
        gs@ == fs@.push(f),
        0 <= i <= fs.len(),
    ensures
        any_from(gs, i, req) == (any_from(fs, i, req) || holds(f, req)),
    decreases fs.len() - i,
{
    if i < fs.len() {
        lemma_any_push(fs, gs, f, req, i + 1);
        assert(gs[i] == fs[i]);
    } else {
        assert(gs[i] == f);
        assert(!any_from(gs, i + 1, req));
    }
}

proof fn lemma_all_push(fs: Vec<Filter>, gs: Vec<Filter>, f: Filter, req: RequestModel, i: int)
    requires
        gs@ == fs@.push(f),
        0 <= i <= fs.len(),
    ensures
        all_from(gs, i, req) == (all_from(fs, i, req) && holds(f, req)),
    decreases fs.len() - i,
{
    if i < fs.len() {
        lemma_all_push(fs, gs, f, req, i + 1);
        assert(gs[i] == fs[i]);
    } else {
        assert(gs[i] == f);
        assert(all_from(gs, i + 1, req));
    }
}

proof fn lemma_any_extended(a: AnyFilter, r: AnyFilter, f: Filter)
    requires
        r.0@ == a.0@.push(f),
    ensures
        forall|req: RequestModel|
            #[trigger] holds(Filter::Any(r), req) == (holds(Filter::Any(a), req) || holds(f, req)),
{
    assert forall|req: RequestModel|
        #[trigger] holds(Filter::Any(r), req) == (holds(Filter::Any(a), req) || holds(f, req)) by {
        lemma_any_push(a.0, r.0, f, req, 0);
    }
}

proof fn lemma_all_extended(a: AllFilter, r: AllFilter, f: Filter)
    requires
        r.0@ == a.0@.push(f),
    ensures
        forall|req: RequestModel|
            #[trigger] holds(Filter::All(r), req) == (holds(Filter::All(a), req) && holds(f, req)),
{
    assert forall|req: RequestModel|
        #[trigger] holds(Filter::All(r), req) == (holds(Filter::All(a), req) && holds(f, req)) by {
        lemma_all_push(a.0, r.0, f, req, 0);
    }
}

/// A filter that matches if the given filter matches; more are added with `or`.
pub fn Any(filter: Filter) -> (r: AnyFilter)
    ensures
        forall|req: RequestModel| holds(Filter::Any(r), req) == holds(filter, req),
{
    let mut v: Vec<Filter> = Vec::new();
    let ghost empty = v;
    v.push(filter);
    let r = AnyFilter(v);
    proof {
        assert forall|req: RequestModel| holds(Filter::Any(r), req) == holds(filter, req) by {
            lemma_any_push(empty, r.0, filter, req, 0);
        }
    }
    r
}

impl AnyFilter {
    /// Adds a filter to check after the present ones.
    pub fn or(self, filter: Filter) -> (r: AnyFilter)
        ensures
            forall|req: RequestModel|
                #[trigger] holds(Filter::Any(r), req) == (holds(Filter::Any(self), req) || holds(
                    filter,
                    req,
                )),
    {
        let ghost this = self;
        let mut v = self.0;
        v.push(filter);
        let r = AnyFilter(v);
        proof {
            lemma_any_extended(this, r, filter);
        }
        r
    }

    /// This filter as a `Filter`.
    pub fn into_filter(self) -> (r: Filter)
        ensures
            r == Filter::Any(self),
    {
        Filter::Any(self)
    }
}

/// A filter that matches if the given filter matches; more are added with `and`.
pub fn All(filter: Filter) -> (r: AllFilter)
    ensures
        forall|req: RequestModel| holds(Filter::All(r), req) == holds(filter, req),
{
    let mut v: Vec<Filter> = Vec::new();
    let ghost empty = v;
    v.push(filter);
    let r = AllFilter(v);
    proof {
        assert forall|req: RequestModel| holds(Filter::All(r), req) == holds(filter, req) by {
            lemma_all_push(empty, r.0, filter, req, 0);
        }
    }
    r
}

impl AllFilter {
    /// Adds a filter to check after the present ones.
    pub fn and(self, filter: Filter) -> (r: AllFilter)
        ensures
            forall|req: RequestModel|
                #[trigger] holds(Filter::All(r), req) == (holds(Filter::All(self), req) && holds(
                    filter,
                    req,
                )),
    {
        let ghost this = self;
        let mut v = self.0;
        v.push(filter);
        let r = AllFilter(v);
        proof {
            lemma_all_extended(this, r, filter);
        }
        r
    }

    /// This filter as a `Filter`.
    pub fn into_filter(self) -> (r: Filter)
        ensures
            r == Filter::All(self),
    {
        Filter::All(self)
    }
}

/// A filter that matches if the given filter does not.
pub fn Not(filter: Filter) -> (r: NotFilter)
    ensures
        forall|req: RequestModel| holds(Filter::Not(r), req) == !holds(filter, req),
{
    NotFilter(Box::new(filter))
}

impl NotFilter {
    /// This filter as a `Filter`.
    pub fn into_filter(self) -> (r: Filter)
        ensures
            r == Filter::Not(self),
    {
        Filter::Not(self)
    }
}

/// A filter that matches requests of the given method.
pub fn Method(method: Method) -> (r: MethodFilter)
    ensures
        forall|req: RequestModel| holds(Filter::Method(r), req) == (req.method == method),
{
    MethodFilter(method)
}

/// A filter that matches `GET` requests.
pub fn Get() -> (r: MethodFilter)
    ensures
        forall|req: RequestModel| holds(Filter::Method(r), req) == (req.method == Method::Get),
{
    MethodFilter(Method::Get)
}

/// A filter that matches `POST` requests.
pub fn Post() -> (r: MethodFilter)
    ensures
        forall|req: RequestModel| holds(Filter::Method(r), req) == (req.method == Method::Post),
{
    MethodFilter(Method::Post)
}

/// A filter that matches `PUT` requests.
pub fn Put() -> (r: MethodFilter)
    ensures
        forall|req: RequestModel| holds(Filter::Method(r), req) == (req.method == Method::Put),
{
    MethodFilter(Method::Put)
}

/// A filter that matches `DELETE` requests.
pub fn Delete() -> (r: MethodFilter)
    ensures
        forall|req: RequestModel| holds(Filter::Method(r), req) == (req.method == Method::Delete),
{
    MethodFilter(Method::Delete)
}

/// A filter that matches `HEAD` requests.
pub fn Head() -> (r: MethodFilter)
    ensures
        forall|req: RequestModel| holds(Filter::Method(r), req) == (req.method == Method::Head),
{
    MethodFilter(Method::Head)
}

/// A filter that matches `OPTIONS` requests.
pub fn Options() -> (r: MethodFilter)
    ensures
        forall|req: RequestModel| holds(Filter::Method(r), req) == (req.method == Method::Options),
{
    MethodFilter(Method::Options)
}

/// A filter that matches `CONNECT` requests.
pub fn Connect() -> (r: MethodFilter)
    ensures
        forall|req: RequestModel| holds(Filter::Method(r), req) == (req.method == Method::Connect),
{
    MethodFilter(Method::Connect)
}

/// A filter that matches `PATCH` requests.
pub fn Patch() -> (r: MethodFilter)
    ensures
        forall|req: RequestModel| holds(Filter::Method(r), req) == (req.method == Method::Patch),
{
    MethodFilter(Method::Patch)
}

/// A filter that matches `TRACE` requests.
pub fn Trace() -> (r: MethodFilter)
    ensures
        forall|req: RequestModel| holds(Filter::Method(r), req) == (req.method == Method::Trace),
{
    MethodFilter(Method::Trace)
}

impl MethodFilter {
    /// This filter as a `Filter`.
    pub fn into_filter(self) -> (r: Filter)
        ensures
            r == Filter::Method(self),
    {
        Filter::Method(self)
    }
}

/// A filter that matches requests whose first header named `name` (once
/// normalized) has the value `value`.
pub fn Header(name: &str, value: &str) -> (r: HeaderFilter)
    requires
        header_name_spec(name@) is Some,
        header_value_valid(bytes_of(value@)),
    ensures
        forall|req: RequestModel|
            holds(Filter::Header(r), req) == (header_from(
                req.headers,
                header_name_spec(name@)->Some_0,
                0,
            ) == Some(value@)),
{
    match header_name(name) {
        Some(n) => HeaderFilter(n, value.to_owned()),
        None => vstd::pervasive::unreached(),
    }
}

/// `Header`, or `None` where the name or the value is invalid.
pub fn try_header(name: &str, value: &str) -> (r: Option<HeaderFilter>)
    ensures
        r is Some <==> (header_name_spec(name@) is Some && header_value_valid(
            bytes_of(value@),
        )),
        r matches Some(f) ==> forall|req: RequestModel|
            holds(Filter::Header(f), req) == (header_from(
                req.headers,
                header_name_spec(name@)->Some_0,
                0,
            ) == Some(value@)),
{
    match header_name(name) {
        Some(_) => {
            if is_header_value(value) {
                Some(Header(name, value))
            } else {
                None
            }
        },
        None => None,
    }
}

impl HeaderFilter {
    /// This filter as a `Filter`.
    pub fn into_filter(self) -> (r: Filter)
        ensures
            r == Filter::Header(self),
    {
        Filter::Header(self)
    }
}

/// A filter that matches requests for the given host.
pub fn Host(host: &str) -> (r: HostFilter)
    ensures
        r.host() == host@,
        forall|req: RequestModel| holds(Filter::Host(r), req) == (req.host == host@),
{
    HostFilter(host.to_owned(), None)
}

impl HostFilter {
    /// The host this filter matches.
    pub closed spec fn host(&self) -> Seq<char> {
        self.0@
    }

    /// Sets the request scheme to match as well.
    pub fn scheme(&mut self, scheme: &str)
        ensures
            final(self).host() == old(self).host(),
            forall|req: RequestModel|
                holds(Filter::Host(*final(self)), req) == (req.host == old(self).host()
                    && req.scheme == scheme@),
    {
        self.1 = Some(scheme.to_owned());
    }

    /// This filter as a `Filter`.
    pub fn into_filter(self) -> (r: Filter)
        ensures
            r == Filter::Host(self),
    {
        Filter::Host(self)
    }
}

} // verus!
