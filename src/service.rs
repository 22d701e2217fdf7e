//! The two-phase build of a set of services: every route's service (and
//! the default's, where there is one) is created, possibly over several
//! scheduler turns, before any request is served; a failed creation aborts
//! the whole build.
use vstd::prelude::*;

use crate::param::model_valid;
use crate::pattern::match_spec;
use crate::request::RequestHead;
use crate::router::{
    first_passing, first_taker, lemma_first_passing_range, lemma_first_taker_range, Recognized,
    Resource, RouteModel, Router,
};

verus! {

/// What polling the creation of one service gave in a turn.
pub enum Outcome<S, E> {
    /// Still being created.
    Pending,
    /// Created.
    Ready(S),
    /// Creation failed.
    Failed(E),
}

/// Where a build stands after a turn.
#[derive(Debug, Clone, Copy, PartialEq, Eq, Structural)]
pub enum BuildStatus {
    /// Some service is still being created.
    Pending,
    /// Every service is ready: the build can be assembled.
    Ready,
    /// A creation failed: the build is aborted and can never be assembled.
    Aborted,
}

/// What a build holds: one slot per route (`None` while its service is
/// being created), whether there is a default service and its slot, and
/// the error that aborted the build.
pub struct BuildModel<S, E> {
    pub slots: Seq<Option<S>>,
    pub has_default: bool,
    pub default: Option<S>,
    pub error: Option<E>,
}

/// Whether the default service (where there is one) and every route's
/// service are ready.
pub open spec fn all_ready<S, E>(m: BuildModel<S, E>) -> bool {
    &&& (m.has_default ==> m.default is Some)
    &&& forall|i: int| 0 <= i < m.slots.len() ==> (#[trigger] m.slots[i]) is Some
}

/// The first slot at or after `from` that is still pending and whose
/// creation failed this turn.
pub open spec fn first_failed<S, E>(slots: Seq<Option<S>>, outs: Seq<Outcome<S, E>>, from: int) -> Option<
    int,
>
    decreases slots.len() - from,
{
    if from < 0 || from >= slots.len() || from >= outs.len() {
        None
    } else if slots[from] is None && outs[from] is Failed {
        Some(from)
    } else {
        first_failed(slots, outs, from + 1)
    }
}

/// The error that aborts a build this turn, in polling order: the default
/// first, then the routes in registration order; only services still being
/// created are polled.
pub open spec fn poll_failure<S, E>(m: BuildModel<S, E>, outs: Seq<Outcome<S, E>>, d: Outcome<S, E>) -> Option<E> {
    if m.has_default && m.default is None && d is Failed {
        Some(d->Failed_0)
    } else {
        match first_failed(m.slots, outs, 0) {
            Some(i) => Some(outs[i]->Failed_0),
            None => None,
        }
    }
}

/// A slot after a turn without failure.
pub open spec fn next_slot<S, E>(slot: Option<S>, out: Outcome<S, E>) -> Option<S> {
    if slot is None {
        match out {
            Outcome::Ready(s) => Some(s),
            _ => None,
        }
    } else {
        slot
    }
}

/// A build of services in progress.
pub struct ServiceBuild<S, E> {
    slots: Vec<Option<S>>,
    has_default: bool,
    default: Option<S>,
    error: Option<E>,
}

impl<S, E> View for ServiceBuild<S, E> {
    type V = BuildModel<S, E>;

    closed spec fn view(&self) -> BuildModel<S, E> {
        BuildModel {
            slots: self.slots@,
            has_default: self.has_default,
            default: self.default,
            error: self.error,
        }
    }
}

/// How a build ends.
pub enum Finished<S, E> {
    /// Every service was ready.
    Assembled(ReadyServices<S>),
    /// Some service is still being created: the build, unchanged.
    Pending(ServiceBuild<S, E>),
    /// A creation failed, with this error.
    Aborted(E),
}

proof fn lemma_first_failed_none<S, E>(slots: Seq<Option<S>>, outs: Seq<Outcome<S, E>>, i: int)
    requires
        0 <= i <= slots.len(),
        slots.len() == outs.len(),
        forall|j: int| 0 <= j < i ==> !(slots[j] is None && (#[trigger] outs[j]) is Failed),
    ensures
        first_failed(slots, outs, 0) == first_failed(slots, outs, i),
    decreases i,
{
    if i > 0 {
        lemma_first_failed_none(slots, outs, i - 1);
    }
}

proof fn lemma_first_failed_range<S, E>(slots: Seq<Option<S>>, outs: Seq<Outcome<S, E>>, from: int)
    ensures
        first_failed(slots, outs, from) matches Some(k) ==> from <= k < slots.len() && k
            < outs.len() && slots[k] is None && outs[k] is Failed,
    decreases slots.len() - from,
{
    if 0 <= from < slots.len() && from < outs.len() && !(slots[from] is None
        && outs[from] is Failed) {
        lemma_first_failed_range(slots, outs, from + 1);
    }
}

impl<S, E> ServiceBuild<S, E> {
    /// Starts a build of `n` route services, with a default service where
    /// `has_default` holds; nothing is ready yet.
    pub fn new(n: usize, has_default: bool) -> (r: ServiceBuild<S, E>)
        ensures
            r@.slots.len() == n,
            forall|i: int| 0 <= i < n ==> (#[trigger] r@.slots[i]) is None,
            r@.has_default == has_default,
            r@.default is None,
            r@.error is None,
    {
        let mut slots: Vec<Option<S>> = Vec::new();
        let mut i: usize = 0;
        while i < n
            invariant
                i <= n,
                slots@.len() == i,
                forall|j: int| 0 <= j < i ==> (#[trigger] slots@[j]) is None,
            decreases n - i,
        {
            slots.push(None);
            i = i + 1;
        }
        ServiceBuild { slots, has_default, default: None, error: None }
    }

    /// Whether the default service (where there is one) and every route's
    /// service are ready.
    pub fn is_ready(&self) -> (r: bool)
        ensures
            r == all_ready(self@),
    {
        if self.has_default && self.default.is_none() {
            return false;
        }
        let mut i: usize = 0;
        while i < self.slots.len()
            invariant
                i <= self@.slots.len(),
                self@.has_default ==> self@.default is Some,
                forall|j: int| 0 <= j < i ==> (#[trigger] self@.slots[j]) is Some,
            decreases self@.slots.len() - i,
        {
            if self.slots[i].is_none() {
                return false;
            }
            i = i + 1;
        }
        true
    }

    /// Whether a creation failed.
    pub fn is_aborted(&self) -> (r: bool)
        ensures
            r == (self@.error is Some),
    {
        self.error.is_some()
    }

    /// One scheduler turn: `outcomes[i]` is what polling the creation of
    /// route `i`'s service gave, `default` the same for the default service.
    /// Services that are ready already are not polled, so their outcomes are
    /// ignored. The first failure, in polling order, aborts the build and is
    /// kept; an aborted build stays aborted and changes no more.
    pub fn poll(&mut self, outcomes: Vec<Outcome<S, E>>, default: Outcome<S, E>) -> (r: BuildStatus)
        requires
            outcomes@.len() == old(self)@.slots.len(),
        ensures
            old(self)@.error is Some ==> r == BuildStatus::Aborted && final(self)@ == old(self)@,
            old(self)@.error is None ==> match poll_failure(old(self)@, outcomes@, default) {
                Some(e) => r == BuildStatus::Aborted && final(self)@ == (BuildModel {
                    error: Some(e),
                    ..old(self)@
                }),
                None => {
                    &&& final(self)@.error is None
                    &&& final(self)@.has_default == old(self)@.has_default
                    &&& final(self)@.slots.len() == old(self)@.slots.len()
                    &&& forall|i: int|
                        0 <= i < old(self)@.slots.len() ==> (#[trigger] final(self)@.slots[i])
                            == next_slot(old(self)@.slots[i], outcomes@[i])
                    &&& final(self)@.default == if old(self)@.has_default {
                        next_slot(old(self)@.default, default)
                    } else {
                        old(self)@.default
                    }
                    &&& r == if all_ready(final(self)@) {
                        BuildStatus::Ready
                    } else {
                        BuildStatus::Pending
                    }
                },
            },
    {
        if self.error.is_some() {
            return BuildStatus::Aborted;
        }
        let ghost start = self@;
        let ghost all = outcomes@;
        let default_pending = self.has_default && self.default.is_none();
        let d = match default {
            Outcome::Failed(e) => {
                if default_pending {
                    self.error = Some(e);
                    return BuildStatus::Aborted;
                }
                None
            },
            Outcome::Ready(s) => Some(s),
            Outcome::Pending => None,
        };
        let mut i: usize = 0;
        while i < outcomes.len()
            invariant
                i <= all.len(),
                all.len() == start.slots.len(),
                outcomes@ == all,
                self@ == start,
                start == old(self)@,
                start.error is None,
                !(start.has_default && start.default is None && default is Failed),
                forall|j: int|
                    0 <= j < i ==> !(start.slots[j] is None && (#[trigger] all[j]) is Failed),
            decreases all.len() - i,
        {
            if self.slots[i].is_none() {
                if let Outcome::Failed(_) = &outcomes[i] {
                    proof {
                        lemma_first_failed_none(start.slots, all, i as int);
                    }
                    let mut rest = outcomes;
                    let o = rest.remove(i);
                    assert(o == all[i as int]);
                    match o {
                        Outcome::Failed(e) => {
                            self.error = Some(e);
                        },
                        _ => {
                            assert(false);
                        },
                    }
                    return BuildStatus::Aborted;
                }
            }
            i = i + 1;
        }
        proof {
            lemma_first_failed_none(start.slots, all, i as int);
        }
        if default_pending {
            if let Some(s) = d {
                self.default = Some(s);
            }
        }
        let mut rest = outcomes;
        let mut k: usize = rest.len();
        while k > 0
            invariant
                k <= start.slots.len(),
                rest@ == all.subrange(0, k as int),
                all.len() == start.slots.len(),
                self@.error is None,
                self@.has_default == start.has_default,
                self@.default == if start.has_default {
                    next_slot(start.default, default)
                } else {
                    start.default
                },
                self@.slots.len() == start.slots.len(),
                forall|j: int| 0 <= j < k ==> (#[trigger] self@.slots[j]) == start.slots[j],
                forall|j: int|
                    k <= j < start.slots.len() ==> (#[trigger] self@.slots[j]) == next_slot(
                        start.slots[j],
                        all[j],
                    ),
            decreases k,
        {
            k = k - 1;
            let o = rest.pop();
            proof {
                assert(all.subrange(0, k as int + 1)[k as int] == all[k as int]);
            }
            if self.slots[k].is_none() {
                match o {
                    Some(Outcome::Ready(s)) => {
                        self.slots.set(k, Some(s));
                    },
                    _ => {},
                }
            }
            proof {
                assert(rest@ =~= all.subrange(0, k as int));
            }
        }
        if self.is_ready() {
            BuildStatus::Ready
        } else {
            BuildStatus::Pending
        }
    }

    /// Records that the service of route `i` is ready; a slot that is ready
    /// already keeps its service.
    pub fn resolve(&mut self, i: usize, service: S)
        requires
            i < old(self)@.slots.len(),
        ensures
            final(self)@ == (BuildModel {
                slots: if old(self)@.slots[i as int] is None {
                    old(self)@.slots.update(i as int, Some(service))
                } else {
                    old(self)@.slots
                },
                ..old(self)@
            }),
    {
        if self.slots[i].is_none() {
            self.slots.set(i, Some(service));
        }
    }

    /// Records that the default service is ready; one that is ready already
    /// is kept.
    pub fn resolve_default(&mut self, service: S)
        requires
            old(self)@.has_default,
        ensures
            final(self)@ == (BuildModel {
                default: if old(self)@.default is None {
                    Some(service)
                } else {
                    old(self)@.default
                },
                ..old(self)@
            }),
    {
        if self.default.is_none() {
            self.default = Some(service);
        }
    }

    /// Records that a creation failed; the first failure is the one kept.
    pub fn fail(&mut self, error: E)
        ensures
            final(self)@ == (BuildModel {
                error: if old(self)@.error is None {
                    Some(error)
                } else {
                    old(self)@.error
                },
                ..old(self)@
            }),
    {
        if self.error.is_none() {
            self.error = Some(error);
        }
    }

    /// Ends the build: its error where it was aborted, else the services
    /// where all are ready, else the build back unchanged.
    pub fn finish(self) -> (r: Finished<S, E>)
        ensures
            match self@.error {
                Some(e) => r == Finished::<S, E>::Aborted(e),
                None => if all_ready(self@) {
                    r matches Finished::Assembled(s) && s.len() == self@.slots.len() && s.default()
                        == (if self@.has_default {
                        self@.default
                    } else {
                        None
                    }) && forall|i: int|
                        0 <= i < self@.slots.len() ==> s.service(i) == (#[trigger] self@.slots[i])->Some_0
                } else {
                    r matches Finished::Pending(b) && b@ == self@
                },
            },
    {
        if self.error.is_some() {
            match self.error {
                Some(e) => Finished::Aborted(e),
                None => vstd::pervasive::unreached(),
            }
        } else if self.is_ready() {
            let default = if self.has_default {
                self.default
            } else {
                None
            };
            Finished::Assembled(ReadyServices { services: self.slots, default })
        } else {
            Finished::Pending(self)
        }
    }
}

/// Services that are all ready: what only a finished build gives.
pub struct ReadyServices<S> {
    services: Vec<Option<S>>,
    default: Option<S>,
}

impl<S> ReadyServices<S> {
    #[verifier::type_invariant]
    closed spec fn inv(&self) -> bool {
        forall|i: int| 0 <= i < self.services@.len() ==> (#[trigger] self.services@[i]) is Some
    }

    /// The number of route services.
    pub closed spec fn len(&self) -> nat {
        self.services@.len()
    }

    /// The service of route `i`.
    pub closed spec fn service(&self, i: int) -> S {
        self.services@[i]->Some_0
    }

    /// The default service, if any.
    pub closed spec fn default(&self) -> Option<S> {
        self.default
    }

    /// The number of route services.
    pub fn count(&self) -> (r: usize)
        ensures
            r == self.len(),
    {
        self.services.len()
    }

    /// The service of route `i`.
    pub fn get(&self, i: usize) -> (r: &S)
        requires
            i < self.len(),
        ensures
            *r == self.service(i as int),
    {
        proof {
            use_type_invariant(self);
        }
        match &self.services[i] {
            Some(s) => s,
            None => vstd::pervasive::unreached(),
        }
    }

    /// The default service, if any.
    pub fn default_service(&self) -> (r: Option<&S>)
        ensures
            match self.default() {
                Some(d) => r matches Some(x) && *x == d,
                None => r is None,
            },
    {
        match &self.default {
            Some(d) => Some(d),
            None => None,
        }
    }
}

/// A router with a ready service for each route: the only thing that
/// serves requests.
pub struct RouterService<S> {
    router: Router,
    services: ReadyServices<S>,
}

impl<S> RouterService<S> {
    #[verifier::type_invariant]
    closed spec fn inv(&self) -> bool {
        self.services.len() == self.router.routes().len()
    }

    /// The routes, in priority order.
    pub closed spec fn routes(&self) -> Seq<RouteModel> {
        self.router.routes()
    }

    /// The services.
    pub closed spec fn ready(&self) -> ReadyServices<S> {
        self.services
    }

    /// Puts a router and the services built for it together; `None` where
    /// their numbers differ.
    pub fn new(router: Router, services: ReadyServices<S>) -> (r: Option<RouterService<S>>)
        ensures
            r is Some <==> services.len() == router.routes().len(),
            r matches Some(s) ==> s.routes() == router.routes() && s.ready() == services,
    {
        if services.count() == router.len() {
            Some(RouterService { router, services })
        } else {
            None
        }
    }

    /// Hands the request to the first route that takes it, else to the
    /// default service: gives that service (`None` where there is no
    /// default) and the decision.
    pub fn call(&self, req: &RequestHead, plen: usize) -> (r: (Option<&S>, Recognized))
        ensures
            match first_taker(self.routes(), req@, plen as int, 0) {
                Some(i) => (r.0 matches Some(x) && *x == self.ready().service(i)) && (r.1 matches Recognized::Route(
                    k,
                    p,
                ) && k == i && p@ == match_spec(
                    self.routes()[i].pattern.matcher,
                    req@.path,
                    plen as int,
                )->Some_0 && model_valid(p@)),
                None => r.1 is Default && match self.ready().default() {
                    Some(d) => r.0 matches Some(x) && *x == d,
                    None => r.0 is None,
                },
            },
    {
        proof {
            use_type_invariant(self);
        }
        let rec = self.router.recognize(req, plen);
        proof {
            lemma_first_taker_range(self.routes(), req@, plen as int, 0);
        }
        match rec {
            Recognized::Route(i, p) => (Some(self.services.get(i)), Recognized::Route(i, p)),
            Recognized::Default => (self.services.default_service(), Recognized::Default),
        }
    }
}

/// A resource with a ready service for each of its routes.
pub struct ResourceService<S> {
    resource: Resource,
    services: ReadyServices<S>,
}

impl<S> ResourceService<S> {
    #[verifier::type_invariant]
    closed spec fn inv(&self) -> bool {
        self.services.len() == self.resource.routes().len()
    }

    /// The filters of each route.
    pub closed spec fn routes(&self) -> Seq<Seq<crate::filter::Filter>> {
        self.resource.routes()
    }

    /// The services.
    pub closed spec fn ready(&self) -> ReadyServices<S> {
        self.services
    }

    /// Puts a resource and the services built for it together; `None` where
    /// their numbers differ.
    pub fn new(resource: Resource, services: ReadyServices<S>) -> (r: Option<ResourceService<S>>)
        ensures
            r is Some <==> services.len() == resource.routes().len(),
            r matches Some(s) ==> s.routes() == resource.routes() && s.ready() == services,
    {
        if services.count() == resource.len() {
            Some(ResourceService { resource, services })
        } else {
            None
        }
    }

    /// The service of the first route whose filters all pass; `None` (not
    /// found) where none does.
    pub fn call(&self, req: &RequestHead) -> (r: Option<&S>)
        ensures
            match first_passing(self.routes(), req@, 0) {
                Some(i) => r matches Some(x) && *x == self.ready().service(i),
                None => r is None,
            },
    {
        proof {
            use_type_invariant(self);
        }
        let sel = self.resource.select(req);
        proof {
            lemma_first_passing_range(self.routes(), req@, 0);
        }
        match sel {
            Some(i) => Some(self.services.get(i)),
            None => None,
        }
    }
}

impl Router {
    /// Starts building the services of this router's routes and its default
    /// service.
    pub fn start_build<S, E>(&self) -> (r: ServiceBuild<S, E>)
        ensures
            r@.slots.len() == self.routes().len(),
            forall|i: int| 0 <= i < r@.slots.len() ==> (#[trigger] r@.slots[i]) is None,
            r@.has_default,
            r@.default is None,
            r@.error is None,
    {
        ServiceBuild::new(self.len(), true)
    }
}

impl Resource {
    /// Starts building the services of this resource's routes; a resource
    /// has no default service.
    pub fn start_build<S, E>(&self) -> (r: ServiceBuild<S, E>)
        ensures
            r@.slots.len() == self.routes().len(),
            forall|i: int| 0 <= i < r@.slots.len() ==> (#[trigger] r@.slots[i]) is None,
            !r@.has_default,
            r@.default is None,
            r@.error is None,
    {
        ServiceBuild::new(self.len(), false)
    }
}

/// While some service is still being created the build is not ready, so
/// finishing it assembles nothing and no request can be served.
pub proof fn lemma_nothing_served_before_ready<S, E>(m: BuildModel<S, E>, i: int)
    requires
        0 <= i < m.slots.len(),
        m.slots[i] is None,
    ensures
        !all_ready(m),
{
}

} // verus!
