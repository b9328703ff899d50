//! Block-based file storage core: content chunking and digests, block stores,
//! resumable upload sessions, the file version ledger and the ID allocator.

pub mod block;
pub mod chunker;
pub mod cloud_mgr;
pub mod digest;
pub mod error;
pub mod ledger;
pub mod snowflake;
pub mod storages;
pub mod store_service;
pub mod upload;
