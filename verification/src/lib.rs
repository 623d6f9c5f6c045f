//! Verified core of an addon manager for a desktop game.
//!
//! The library covers the logic that carries the engineering risk: parsing
//! and totally ordering heterogeneous version strings, planning archive
//! extraction with path remapping and glob-based exclusion, resolving
//! transitive dependency graphs against a catalog with cycle protection,
//! selecting download sources in priority order, and parsing addon
//! manifests.  File, network and database access live outside the library
//! and hand it plain values.

pub mod chars;
pub mod error;
pub mod models;
pub mod paths;
pub mod resolver;
pub mod version;
pub mod archive;
pub mod downloader;
pub mod installer;
pub mod manifest;
pub mod updates;
