//! The collection loop of one cluster.

pub mod manager;
