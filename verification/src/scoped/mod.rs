//! User-scoped operations.

pub mod admission;
pub mod engine;
pub mod flow;
pub mod listing;
pub mod path;
pub mod quota;

pub use engine::ScopedVfsStorageEngine;
