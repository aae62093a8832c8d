//! The core of a federated GraphQL gateway: query plans and their
//! validation, the plan cache with its least-recently-used eviction and its
//! one computation per key, the introspection snapshot, the plan executor and
//! the two phases, prepare and execute, that a request goes through.
//!
//! Nothing here waits or performs I/O. Where the gateway has to wait for the
//! planning engine or for a downstream service, the library hands its caller
//! an action, and takes the outcome back as a plain value.

pub mod path;
pub mod response;
pub mod plan;
pub mod registry;
pub mod executor;
pub mod lru;
pub mod plan_cache;
pub mod introspection;
pub mod config;
pub mod query;
pub mod router;
