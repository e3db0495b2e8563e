//! Virtual file system storage hub.

pub mod android_saf;
pub mod batch;
pub mod cache;
pub mod connector;
pub mod error;
pub mod hub;
pub mod ios_scoped_fs;
pub mod journal;
pub mod ledger;
pub mod listing;
pub mod maintenance;
pub mod maintenance_mode;
pub mod metrics;
pub mod mounted;
pub mod octets;
pub mod order;
pub mod pathname;
pub mod pool;
pub mod protected;
pub mod scoped;
pub mod settings;
pub mod text;
pub mod types;
pub mod wal;
pub mod weights;
