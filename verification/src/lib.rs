//! Verified core of a release-artifact publishing pipeline.
//!
//! The library classifies CI build artifacts against a registry of release
//! targets, computes the wanted release assets for an upload run, models the
//! idempotent upload protocol with its retry policy, and builds and checks
//! the integrity manifest that is published alongside a release.

pub mod byteseq;
pub mod classify;
pub mod digest;
pub mod fetch;
pub mod lit;
pub mod manifest;
pub mod registry;
pub mod retry;
pub mod upload;
pub mod version;
