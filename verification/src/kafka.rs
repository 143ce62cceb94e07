//! What the exporter reads from a Kafka cluster.

pub mod admin;
pub mod answer_laws;
pub mod assignment;
pub mod assignment_laws;
pub mod client;
pub mod configs;
pub mod consumer;
pub mod memory;
pub mod replies;
pub mod reply_laws;
pub mod requests;
