//! Where metrics go.

pub mod otel;
pub mod prometheus;
