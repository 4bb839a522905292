//! An in-memory store of time-varying scalar signals attached to discrete
//! entities. A registry owns entities; each entity owns one graph per signal
//! label; each graph holds (timestamp, value) keys, strictly ordered by
//! timestamp, and answers point-in-time queries by linear interpolation or
//! by step (zero-order) hold.

pub mod entity;
pub mod graph;
pub mod interpolate;
pub mod state;
