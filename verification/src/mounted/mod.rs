//! Remote storages mounted into a user's tree.

pub mod route;
pub mod sync;
pub mod transfer;

pub use route::{Endpoint, MountPoint, MountTable};
