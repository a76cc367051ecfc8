//! A message broker with end-to-end encrypted payloads: its state machine, its
//! wire protocol, its access rules and the two client roles.

pub mod acl;
pub mod admin;
pub mod basic;
pub mod broker;
pub mod config;
pub mod credentials;
pub mod crypto;
pub mod directory;
pub mod framing;
pub mod heartbeat;
pub mod hybrid;
pub mod identity;
pub mod ids;
pub mod metrics;
pub mod model_laws;
pub mod networking;
pub mod protocol;
pub mod rate_limiter;
pub mod receiver;
pub mod request_laws;
pub mod sender;
pub mod sender_laws;
pub mod sender_run;
pub mod seqs;
pub mod server;
pub mod state;
pub mod state_laws;
pub mod state_model;
pub mod storage;
pub mod storage_laws;
pub mod text;
pub mod text_laws;
pub mod totals;
