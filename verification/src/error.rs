//! Domain errors of the streaming core.

use vstd::prelude::*;

verus! {

/// Every failure the core can report. Wire parsing, name validation,
/// uniqueness checks, lookups, segment state and storage failures each
/// have their own kind so that callers can react precisely.
#[derive(Debug, Clone)]
pub enum Error {
    /// Wire frame too short, wrong field count, bad UTF-8 or extra bytes.
    InvalidCommand,
    /// Identifier value rejected (numeric zero, empty or oversized name).
    InvalidIdentifier,
    /// Topic id is zero.
    InvalidTopicId,
    /// Topic name empty, longer than 255 bytes, or outside the resource charset.
    InvalidTopicName,
    /// Stream id is zero.
    InvalidStreamId,
    /// Stream name empty, longer than 255 bytes, or outside the resource charset.
    InvalidStreamName,
    /// `partitions_count` exceeds the maximum.
    TooManyPartitions,
    /// `replication_factor` is zero.
    InvalidReplicationFactor,
    /// Topic id already present in the parent stream: `(topic_id, stream_id)`.
    TopicIdAlreadyExists(u32, u32),
    /// Normalized topic name already present: `(name, stream_id)`.
    TopicNameAlreadyExists(String, u32),
    /// Topic id lookup miss: `(topic_id, stream_id)`.
    TopicIdNotFound(u32, u32),
    /// Topic name lookup miss: `(name, stream_id)`.
    TopicNameNotFound(String, u32),
    /// Stream id already present: `(stream_id)`.
    StreamIdAlreadyExists(u32),
    /// Stream name already present.
    StreamNameAlreadyExists(String),
    /// Stream id lookup miss.
    StreamIdNotFound(u32),
    /// Stream name lookup miss.
    StreamNameNotFound(String),
    /// Partition id absent from the topic: `(partition_id, topic_id, stream_id)`.
    PartitionNotFound(u32, u32, u32),
    /// Append to a closed segment: `(start_offset, partition_id)`.
    SegmentClosed(u64, u32),
    /// Unknown compression code in batch attributes.
    InvalidCompressionAlgorithm(u8),
    /// Session is not authenticated.
    Unauthenticated,
    /// The permission matrix rejected the operation.
    PermissionDenied,
    /// Storage failed to delete the topic: `(topic_id, stream_id)`.
    CannotDeleteTopic(u32, u32),
    /// Wrapped storage failure.
    IoError,
}

} // verus!
