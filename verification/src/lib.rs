//! A one-way content-synchronization core: it decides which recent posts of a
//! source account still have to be mirrored to a destination platform,
//! constructs the publish requests (text rewriting, reply threading, media
//! selection), schedules chunked media uploads, and maintains the persistent
//! map from source post ids to destination post ids that makes every run
//! idempotent.
//!
//! All network and key-value I/O lives outside this crate; the functions here
//! are pure decisions from plain values to plain values, each with a verified
//! contract.

pub mod laws;
pub mod media;
pub mod model;
pub mod reconcile;
pub mod sync_status;
pub mod upload;
