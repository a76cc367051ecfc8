//! The plain-text protocol of the broker with single consumers.

pub mod client_handler;
pub mod laws;
pub mod protocol_parser;
