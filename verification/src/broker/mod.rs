//! A broker that hands each message to one consumer at a time and tries again
//! until it is acknowledged.

pub mod engine;
pub mod exchange;
pub mod laws;
pub mod message;
pub mod queue;
pub mod state;
