//! Offset indices: one entry per appended batch, mapping a relative offset
//! to the byte position of the batch header in the segment file.

use vstd::prelude::*;

verus! {

/// One offset-index entry: 8 bytes on disk.
#[derive(Debug, Clone, Copy, PartialEq, Eq, Structural)]
pub struct Index {
    /// Offset of the batch's last message, relative to the segment start.
    pub relative_offset: u32,
    /// Byte position of the batch header in the segment file.
    pub position: u32,
}

/// One time-index entry: 12 bytes on disk. Carried by segments but not yet
/// populated by the append path.
#[derive(Debug, Clone, Copy, PartialEq, Eq, Structural)]
pub struct TimeIndex {
    /// Offset of the batch's last message, relative to the segment start.
    pub relative_offset: u32,
    /// Timestamp of the batch's last message.
    pub timestamp: u64,
}

/// A pair of index entries bracketing the byte range to read.
#[derive(Debug, Clone, Copy, PartialEq, Eq, Structural)]
pub struct IndexRange {
    pub start: Index,
    pub end: Index,
}

} // verus!
