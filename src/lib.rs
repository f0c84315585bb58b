//! Configuration consolidation, alias resolution and pin strapping for
//! debug-hardware transports.
pub mod config;
pub mod names;
pub mod error;
pub mod alias;
pub mod confmap;
pub mod consolidate;
pub mod transport;
pub mod file;
pub mod pin;
pub mod wrapper;
pub mod builder;
