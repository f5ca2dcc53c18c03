//! A verified catalog of cities and their weather observations.
//!
//! The store enforces the catalog's two uniqueness constraints — one row
//! per city name, one observation per (city, time) pair — and every
//! operation on it carries a contract that pins its result and its effect
//! on the stored rows. The catalog and synchronizer modules hold the
//! decision logic around the store; the network calls they react to happen
//! outside this crate and are handed in as values.

pub mod catalog;
pub mod order;
pub mod queries;
pub mod store;
pub mod sync;
pub mod timestamp;
