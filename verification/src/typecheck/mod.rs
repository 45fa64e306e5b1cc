//! The inference of types.

pub mod model;
pub mod error;
pub mod fill;
pub mod infer;
pub mod intersect;
pub mod kinds;
pub mod names;
pub mod noted;
pub mod pattern;
pub mod rename;
pub mod settle;
pub mod state;
pub mod table;
