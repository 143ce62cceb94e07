//! Verified core of a Kafka consumer-group lag exporter.

pub mod cluster;
pub mod collector;
pub mod config;
pub mod export;
pub mod http;
pub mod kafka;
pub mod keymap;
pub mod leadership;
pub mod metrics;
pub mod retry;
pub mod text;
pub mod views;
