//! Dual-database JEPA: the verified core.
//!
//! Perception and prediction vectors live in two separate stores; relevance
//! between them is computed by a comparison method. This crate holds the parts
//! of that design that are exact: the stores and their id index, the ranking of
//! scored entries, the deterministic generator used for test vectors, fresh
//! vector ids, and the construction of the identity-shaped comparison methods.

pub mod db;
pub mod ids;
pub mod method;
pub mod ranking;
pub mod rng;
pub mod score;
