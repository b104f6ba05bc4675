//! Storage engine of a small file-hosting server: a bounded in-memory cache in
//! front of a flat directory of uploads, byte-range resolution, upload naming,
//! and signed deletion links.

pub mod cache;
pub mod config;
pub mod names;
pub mod disk;
pub mod hash;
pub mod range;
pub mod deletion;
pub mod engine;
pub mod requests;
