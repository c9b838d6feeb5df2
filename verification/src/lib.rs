//! An encrypted, versioned key-value store.
//!
//! Values live under slash-delimited keys, one encrypted entry file per key,
//! and every mutation is recorded in an append-only history. The library
//! holds the verified logic: key and path handling, the listing filter, the
//! removal rules, the planning of the external tool invocations, the
//! in-memory reference store and the versioning decorator. The calls into
//! the external encryption and version-control tools themselves are made by
//! the surrounding application.

pub mod errors;
pub mod git;
pub mod gpg;
pub mod paths;
pub mod store;
pub mod text;
