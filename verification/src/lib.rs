//! Route registration and scoping for an HTTP dispatch table.
//!
//! A [`Router`] collects `(method, path, handler)` bindings under a mount
//! path, nested routers are folded into their parent with [`Router::scope`],
//! and the flattened list is handed to the matching engine by
//! [`Router::compile`].

pub mod content;
pub mod engine;
pub mod matcher;
pub mod method;
pub mod path;
pub mod router;

pub use matcher::{Matcher, PatternRejected};
pub use method::Method;
pub use path::join_paths;
pub use router::{RouteEntry, Router};
