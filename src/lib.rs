//! Request routing core: path pattern compilation and matching, match
//! parameters, request filters, route dispatch and the two-phase build of
//! a router's services.

pub mod engine;
pub mod extract;
pub mod filter;
pub mod param;
pub mod pattern;
pub mod request;
pub mod router;
pub mod service;
pub mod state;
pub mod text;

pub use param::{ParamItem, Params};
pub use pattern::{ResourcePattern, ResourceType};
pub use request::{Method, RequestHead};
pub use router::{Recognized, Resource, RouteDef, RouteOutcome, Router};
pub use service::{BuildStatus, Finished, Outcome, ReadyServices, ResourceService, RouterService, ServiceBuild};
pub use state::State;
