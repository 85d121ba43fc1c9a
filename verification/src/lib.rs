//! Synchronization engine for a locally cached mirror of a remote content
//! deployment: a content-addressed blob store, an index of logical paths, a
//! linear-history remote, and the fetch/update state machine that reconciles
//! them under a read-only or read-write operating mode.

pub mod cli;
pub mod codec;
pub mod digest;
pub mod engine;
pub mod error;
pub mod index;
pub mod mode;
pub mod remote;
pub mod setup;
pub mod store;
pub mod sync;
pub mod tree;
