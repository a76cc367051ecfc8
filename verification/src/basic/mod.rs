//! A broker without roles, limits and queue sizes: every client may do everything,
//! and messages stay queued until they are fetched or acknowledged.

pub mod config;
pub mod laws;
pub mod server;
pub mod state;
