//! Core of a persistent, partitioned message streaming broker.
//!
//! Producers append messages to topics inside streams; consumers read message
//! ranges by offset. Messages are framed into compressed batches and persisted
//! to size-bounded log segments with offset indices.

pub mod batching;
pub mod cmd;
pub mod compression;
pub mod create_topic;
pub mod decimal;
pub mod error;
pub mod identifier;
pub mod index;
pub mod message;
pub mod models;
pub mod partition;
pub mod permissions;
pub mod segment;
pub mod stdx;
pub mod storage;
pub mod stream;
pub mod system;
pub mod text;
pub mod topic;
pub mod update_topic;
pub mod wire;
