//! Where conversation packets are kept.

use vstd::prelude::*;
use crate::storage::{topic_dir_of, topic_dir_text};

verus! {

/// Where conversation packets are kept.
#[derive(Debug, Clone)]
pub struct PacketStorage {
    pub data_dir: String,
}

/// Failures of packet files.
#[derive(Debug, Clone)]
pub enum StorageError {
    ReadFailed(String, String),
    ParseFailed(String, String),
    CreateDirFailed(String, String),
    SerializeFailed(String),
    WriteFailed(String, String),
    DeleteFailed(String, String),
}

impl PacketStorage {
    pub fn new(data_dir: String) -> (r: PacketStorage)
        ensures
            r.data_dir == data_dir,
    {
        PacketStorage { data_dir }
    }

    /// The packet file of a topic.
    pub fn get_packet_path(&self, assistant_id: &str, topic_id: &str) -> (r: String)
        ensures
            r@ == topic_dir_of(self.data_dir@, assistant_id@, topic_id@)
                + "/conversation_state.json"@,
    {
        let mut r = topic_dir_text(self.data_dir.as_str(), assistant_id, topic_id);
        r.append("/conversation_state.json");
        r
    }
}

} // verus!
