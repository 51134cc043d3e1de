//! Resolution of a multi-region deployment configuration down to one region.
//!
//! A configuration is checked (`Config::verify`), a context is resolved to a
//! region and a cluster, the configuration is narrowed to that region, and the
//! region's secret placeholders are filled from what a secret store gave.

pub mod compact;
pub mod config;
pub mod error;
pub mod kong;
pub mod version;

pub use error::ConfigError;
pub use version::{Version, VersionScheme};
