//! The HTTP interface.

pub mod server;
