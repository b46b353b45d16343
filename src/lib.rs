//! Persistence layer of an image-hosting service: naming of stored variants,
//! the records handed to callers, and the decisions of the local filesystem
//! backend (what to write, how to rebuild a record from a directory listing,
//! which entries form a page, how the per-partition counts move).
//! The filesystem calls themselves are made by the caller with the values
//! this library computes.

pub mod laws;
pub mod local;
pub mod models;
pub mod naming;
pub mod paging;
pub mod picture;
pub mod pictures;

