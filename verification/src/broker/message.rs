//! Messages and their delivery attempts.

use vstd::prelude::*;
use vstd::string::*;

verus! {

/// An encrypted message, in Base64.
#[derive(Debug)]
pub struct EncryptedInputData {
    pub data: String,
}

/// A message on its way, with the time it was published at in seconds.
#[derive(Debug)]
pub struct MessageStatus {
    pub message_id: u128,
    pub data: EncryptedInputData,
    pub timestamp: i64,
    pub attempts: u32,
}

/// A message as mathematical values.
pub struct StatusModel {
    pub message_id: u128,
    pub data: Seq<char>,
    pub timestamp: i64,
    pub attempts: u32,
}

impl DeepView for MessageStatus {
    type V = StatusModel;

    open spec fn deep_view(&self) -> StatusModel {
        StatusModel {
            message_id: self.message_id,
            data: self.data.data@,
            timestamp: self.timestamp,
            attempts: self.attempts,
        }
    }
}

impl Clone for EncryptedInputData {
    fn clone(&self) -> (r: Self)
        ensures
            r.data@ == self.data@,
    {
        EncryptedInputData { data: self.data.clone() }
    }
}

impl Clone for MessageStatus {
    fn clone(&self) -> (r: Self)
        ensures
            r.deep_view() == self.deep_view(),
    {
        MessageStatus {
            message_id: self.message_id,
            data: self.data.clone(),
            timestamp: self.timestamp,
            attempts: self.attempts,
        }
    }
}

} // verus!
