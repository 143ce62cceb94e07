//! Metric points, their store and their text form.

pub mod definitions;
pub mod exposition;
pub mod exposition_laws;
pub mod laws;
pub mod point_laws;
pub mod points;
pub mod registry;
pub mod table;
pub mod types;
