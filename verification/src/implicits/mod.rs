//! Implicit arguments.

pub mod error;
pub mod partition;
pub mod resolve;
pub mod resolver;
pub mod search;
pub mod store;
pub mod visit;
