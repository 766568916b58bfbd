//! Dispatch core of a middleware router.
//!
//! Units of middleware are registered under a method and a path pattern. For
//! a request, the units whose pattern matches its path are put together, in
//! the order of their registration, into one chain that threads a context
//! through them: each unit gets the context and the rest of the chain, and
//! may hand the context on, change what comes back, or end the chain.
//!
//! - [`matcher`] decides whether a pattern matches a path;
//! - [`http_method`] holds the methods that key the route table;
//! - [`middleware`] holds the route entry, the contract of a unit and the
//!   continuation that a unit is handed;
//! - [`chain`] composes matched entries into a chain and runs it;
//! - [`app`] holds the route table, registration and resolution.
//!
//! Units run to their end before they return. The chain is run within one
//! thread, and a table is not changed while requests are resolved on it.

pub mod app;
pub mod chain;
pub mod http_method;
pub mod matcher;
pub mod middleware;
