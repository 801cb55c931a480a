//! Temperature readings of hardware-monitoring devices, taken from a snapshot
//! of the monitoring tree and rendered as text metrics.

pub mod laws;
pub mod model;
pub mod pattern;
pub mod render;
pub mod scan;
pub mod text;
pub mod value;
