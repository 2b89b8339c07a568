//! The topic summaries handed to clients: plain data, no behaviour.

use vstd::prelude::*;

verus! {

/// Summary of one partition.
#[derive(Debug, Clone, PartialEq)]
pub struct Partition {
    /// The partition's id inside its topic.
    pub id: u32,
    /// Microseconds since the Unix epoch at creation.
    pub created_at: u64,
    /// How many segments the partition holds.
    pub segments_count: u32,
    /// Offset of the last assigned message.
    pub current_offset: u64,
    /// Total bytes across the partition's segments.
    pub size_bytes: u64,
    /// Total messages in the partition.
    pub messages_count: u64,
}

/// Summary of one topic.
#[derive(Debug, Clone, PartialEq)]
pub struct Topic {
    /// The topic's numeric id.
    pub id: u32,
    /// Microseconds since the Unix epoch at creation.
    pub created_at: u64,
    /// The topic's name.
    pub name: String,
    /// Total bytes across the topic's partitions.
    pub size_bytes: u64,
    /// Message expiry in seconds; `None` means messages never expire.
    pub message_expiry_secs: Option<u32>,
    /// Maximum topic size in bytes; `None` means unlimited.
    pub max_topic_size_bytes: Option<u64>,
    /// Replication factor for the topic.
    pub replication_factor: u8,
    /// Total messages in the topic.
    pub messages_count: u64,
    /// How many partitions the topic holds.
    pub partitions_count: u32,
}

/// Detailed information about one topic: the summary plus its partitions.
#[derive(Debug, Clone, PartialEq)]
pub struct TopicDetails {
    /// The topic's numeric id.
    pub id: u32,
    /// Microseconds since the Unix epoch at creation.
    pub created_at: u64,
    /// The topic's name.
    pub name: String,
    /// Total bytes across the topic's partitions.
    pub size_bytes: u64,
    /// Message expiry in seconds; `None` means messages never expire.
    pub message_expiry_secs: Option<u32>,
    /// Maximum topic size in bytes; `None` means unlimited.
    pub max_topic_size_bytes: Option<u64>,
    /// Replication factor for the topic.
    pub replication_factor: u8,
    /// Total messages in the topic.
    pub messages_count: u64,
    /// How many partitions the topic holds.
    pub partitions_count: u32,
    /// The partitions themselves.
    pub partitions: Vec<Partition>,
}

} // verus!
