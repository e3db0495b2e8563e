//! Read and write caches.

pub mod policy;
pub mod read_cache;
pub mod write_cache;

pub use policy::CachePathPolicy;
pub use read_cache::ReadCacheManager;
