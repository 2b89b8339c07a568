//! One append-only log file of a partition, bounded by size.
//!
//! A segment is Active, then Full, then Closed: appends are only accepted
//! while active; a full segment closes on the next persist; a closed segment
//! only serves reads until it is deleted.

use crate::batching::{batch_wf, BatchV, MessagesBatch, METADATA_BYTES_LEN};
use crate::error::Error;
use crate::index::{Index, IndexRange, TimeIndex};
use crate::message::{Message, MessageV};
use crate::storage::{spec_batch_size, spec_batches_size, SegmentStorage};
use crate::wire;
use vstd::bytes::{spec_u32_to_le_bytes};
use vstd::prelude::*;

verus! {

/// One size-bounded log segment.
#[derive(Debug)]
pub struct Segment {
    /// The stream this segment's topic belongs to.
    pub stream_id: u32,
    /// The topic this segment's partition belongs to.
    pub topic_id: u32,
    /// The partition this segment belongs to.
    pub partition_id: u32,
    /// Offset of the first message the segment may hold.
    pub start_offset: u64,
    /// Offset of the last message once the segment is closed.
    pub end_offset: u64,
    /// Offset of the last message appended so far.
    pub current_offset: u64,
    /// Total bytes appended: persisted plus buffered.
    pub current_size_bytes: u32,
    /// The size cap: at or past it, the segment is full.
    pub max_segment_size: u32,
    /// Closed segments accept no appends.
    pub is_closed: bool,
    /// In-memory offset index cache, one entry per appended batch.
    pub indexes: Option<Vec<Index>>,
    /// In-memory time index cache; carried but not yet populated.
    pub time_indexes: Option<Vec<TimeIndex>>,
    /// Batches appended but not yet persisted.
    pub unsaved_messages: Option<Vec<MessagesBatch>>,
    /// Index bytes appended but not yet persisted.
    pub unsaved_indexes: Vec<u8>,
    /// Read-time expiry, propagated from the topic.
    pub message_expiry_secs: Option<u32>,
}

impl Segment {
    /// The buffered batches, as views; empty when the buffer is absent.
    pub open spec fn unsaved_views(&self) -> Seq<BatchV> {
        match self.unsaved_messages {
            Some(v) => v.deep_view(),
            None => Seq::empty(),
        }
    }

    /// The name of this segment's files in storage.
    pub open spec fn key(&self) -> crate::storage::SegmentKey {
        crate::storage::SegmentKey {
            stream_id: self.stream_id,
            topic_id: self.topic_id,
            partition_id: self.partition_id,
            start_offset: self.start_offset,
        }
    }

    /// The name of this segment's files in storage.
    pub fn storage_key(&self) -> (r: crate::storage::SegmentKey)
        ensures
            r == self.key(),
    {
        crate::storage::SegmentKey {
            stream_id: self.stream_id,
            topic_id: self.topic_id,
            partition_id: self.partition_id,
            start_offset: self.start_offset,
        }
    }

    /// The in-memory index entries; empty when the cache is off.
    pub open spec fn index_views(&self) -> Seq<Index> {
        match self.indexes {
            Some(v) => v@,
            None => Seq::empty(),
        }
    }

    /// Internal consistency: offsets are ordered and fit the relative
    /// `u32` space, a closed segment is sealed at its current offset with
    /// no buffer, buffered batches are well formed and their total size is
    /// accounted inside `current_size_bytes`.
    pub open spec fn inv(&self) -> bool {
        &&& self.start_offset <= self.current_offset
        &&& self.current_offset - self.start_offset <= u32::MAX
        &&& (self.is_closed ==> self.end_offset == self.current_offset
            && self.unsaved_messages is None)
        &&& (forall|i: int|
            0 <= i < self.unsaved_views().len() ==> batch_wf(#[trigger] self.unsaved_views()[i]))
        &&& spec_batches_size(self.unsaved_views()) <= self.current_size_bytes
    }

    /// Builds a fresh active segment starting at `start_offset`.
    pub fn create(
        stream_id: u32,
        topic_id: u32,
        partition_id: u32,
        start_offset: u64,
        max_segment_size: u32,
        message_expiry_secs: Option<u32>,
    ) -> (r: Segment)
        ensures
            r.inv(),
            r.stream_id == stream_id,
            r.topic_id == topic_id,
            r.partition_id == partition_id,
            r.start_offset == start_offset,
            r.current_offset == start_offset,
            r.end_offset == 0,
            r.current_size_bytes == 0,
            r.max_segment_size == max_segment_size,
            r.is_closed == false,
            r.unsaved_messages is None,
            r.unsaved_indexes@.len() == 0,
            r.indexes is Some,
            r.index_views() == Seq::<Index>::empty(),
            r.message_expiry_secs == message_expiry_secs,
    {
        let r = Segment {
            stream_id,
            topic_id,
            partition_id,
            start_offset,
            end_offset: 0,
            current_offset: start_offset,
            current_size_bytes: 0,
            max_segment_size,
            is_closed: false,
            indexes: Some(Vec::new()),
            time_indexes: Some(Vec::new()),
            unsaved_messages: None,
            unsaved_indexes: Vec::new(),
            message_expiry_secs,
        };
        proof {
            assert(r.unsaved_views() =~= Seq::<BatchV>::empty());
            assert(match r.indexes {
                Some(v) => v@ =~= Seq::<Index>::empty(),
                None => false,
            });
        }
        r
    }

    /// How many messages the segment holds: none while empty, otherwise one
    /// per offset from the start to the current offset.
    pub fn get_messages_count(&self) -> (r: u64)
        requires
            self.inv(),
        ensures
            r == (if self.current_size_bytes == 0 {
                0int
            } else {
                self.current_offset - self.start_offset + 1
            }),
    {
        if self.current_size_bytes == 0 {
            return 0;
        }
        self.current_offset - self.start_offset + 1
    }

    /// A segment is full once its size reaches the cap.
    pub fn is_full(&self) -> (r: bool)
        ensures
            r == (self.current_size_bytes >= self.max_segment_size),
    {
        self.current_size_bytes >= self.max_segment_size
    }

    /// Records one index entry for a batch ending at `batch_last_offset`:
    /// into the in-memory cache when it is on, and always into the unsaved
    /// index byte buffer.
    pub fn store_offset_and_timestamp_index_for_batch(&mut self, batch_last_offset: u64)
        requires
            old(self).start_offset <= batch_last_offset,
            batch_last_offset - old(self).start_offset <= u32::MAX,
            old(self).unsaved_indexes@.len() + 8 <= usize::MAX,
        ensures
            ({
                let rel = (batch_last_offset - old(self).start_offset) as u32;
                let entry = Index { relative_offset: rel, position: old(self).current_size_bytes };
                &&& (final(self).indexes is Some <==> old(self).indexes is Some)
                &&& final(self).index_views() == (match old(self).indexes {
                    Some(_) => old(self).index_views().push(entry),
                    None => old(self).index_views(),
                })
                &&& final(self).unsaved_indexes@ == old(self).unsaved_indexes@
                    + spec_u32_to_le_bytes(rel) + spec_u32_to_le_bytes(
                    old(self).current_size_bytes,
                )
                &&& final(self).time_indexes == old(self).time_indexes
                &&& final(self).unsaved_messages == old(self).unsaved_messages
                &&& final(self).stream_id == old(self).stream_id
                &&& final(self).topic_id == old(self).topic_id
                &&& final(self).partition_id == old(self).partition_id
                &&& final(self).start_offset == old(self).start_offset
                &&& final(self).end_offset == old(self).end_offset
                &&& final(self).current_offset == old(self).current_offset
                &&& final(self).current_size_bytes == old(self).current_size_bytes
                &&& final(self).max_segment_size == old(self).max_segment_size
                &&& final(self).is_closed == old(self).is_closed
                &&& final(self).message_expiry_secs == old(self).message_expiry_secs
            }),
    {
        let relative_offset = (batch_last_offset - self.start_offset) as u32;
        let position = self.current_size_bytes;
        proof {
            vstd::bytes::lemma_auto_spec_u32_to_from_le_bytes();
        }
        match &mut self.indexes {
            Some(indexes) => {
                indexes.push(Index { relative_offset, position });
            },
            None => {},
        }
        wire::put_u32_le(&mut self.unsaved_indexes, relative_offset);
        wire::put_u32_le(&mut self.unsaved_indexes, position);
    }

    /// Appends one framed batch: fails with `SegmentClosed` on a closed
    /// segment; otherwise records the index entry, grows the size by the
    /// batch's framed size, advances the current offset to the batch's last
    /// message and buffers the batch.
    pub fn append_messages(&mut self, messages: MessagesBatch, last_message_offset: u64) -> (r:
        Result<(), Error>)
        requires
            old(self).inv(),
            batch_wf(messages@),
            old(self).start_offset <= last_message_offset,
            last_message_offset - old(self).start_offset <= u32::MAX,
            old(self).current_size_bytes + spec_batch_size(messages@) <= u32::MAX,
            old(self).unsaved_indexes@.len() + 8 <= usize::MAX,
        ensures
            match r {
                Ok(()) => !old(self).is_closed && final(self).inv() && ({
                    let rel = (last_message_offset - old(self).start_offset) as u32;
                    let entry = Index {
                        relative_offset: rel,
                        position: old(self).current_size_bytes,
                    };
                    &&& final(self).current_offset == last_message_offset
                    &&& final(self).current_size_bytes == old(self).current_size_bytes
                        + spec_batch_size(messages@)
                    &&& final(self).unsaved_views() == old(self).unsaved_views().push(messages@)
                    &&& (final(self).indexes is Some <==> old(self).indexes is Some)
                    &&& final(self).index_views() == (match old(self).indexes {
                        Some(_) => old(self).index_views().push(entry),
                        None => old(self).index_views(),
                    })
                    &&& final(self).unsaved_indexes@ == old(self).unsaved_indexes@
                        + spec_u32_to_le_bytes(rel) + spec_u32_to_le_bytes(
                        old(self).current_size_bytes,
                    )
                    &&& final(self).is_closed == false
                    &&& final(self).start_offset == old(self).start_offset
                    &&& final(self).end_offset == old(self).end_offset
                    &&& final(self).stream_id == old(self).stream_id
                    &&& final(self).topic_id == old(self).topic_id
                    &&& final(self).partition_id == old(self).partition_id
                    &&& final(self).max_segment_size == old(self).max_segment_size
                    &&& final(self).message_expiry_secs == old(self).message_expiry_secs
                }),
                Err(e) => old(self).is_closed && *final(self) == *old(self) && e
                    == Error::SegmentClosed(old(self).start_offset, old(self).partition_id),
            },
    {
        if self.is_closed {
            return Err(Error::SegmentClosed(self.start_offset, self.partition_id));
        }
        self.store_offset_and_timestamp_index_for_batch(last_message_offset);
        let batch_size = messages.get_size_bytes();
        let ghost bview = messages@;
        let ghost old_views = self.unsaved_views();
        match &mut self.unsaved_messages {
            Some(unsaved) => {
                unsaved.push(messages);
            },
            None => {
                let mut fresh: Vec<MessagesBatch> = Vec::new();
                fresh.push(messages);
                self.unsaved_messages = Some(fresh);
            },
        }
        self.current_size_bytes = self.current_size_bytes + batch_size;
        self.current_offset = last_message_offset;
        proof {
            assert(self.unsaved_views() =~= old_views.push(bview));
            crate::storage::lemma_batches_size_push(old_views, bview);
        }
        Ok(())
    }

    /// Persists the buffered batches and index bytes, then either closes
    /// the segment (when full) or clears the buffer. A no-op when nothing
    /// is buffered. On failure nothing in the segment changes, and the
    /// on-disk log is either unchanged or extended by exactly the buffered
    /// batches with its index unchanged.
    pub fn persist_messages<S: SegmentStorage>(&mut self, storage: &mut S) -> (r: Result<
        (),
        Error,
    >)
        requires
            old(self).inv(),
        ensures
            final(self).inv(),
            old(self).unsaved_views().len() == 0 ==> r is Ok,
            match r {
                Ok(()) => {
                    if old(self).unsaved_views().len() == 0 {
                        *final(self) == *old(self) && *final(storage) == *old(storage)
                    } else {
                        &&& final(storage).batches(old(self).key()) == old(storage).batches(
                            old(self).key(),
                        ) + old(self).unsaved_views()
                        &&& final(storage).index_bytes(old(self).key()) == old(
                            storage,
                        ).index_bytes(old(self).key()) + old(self).unsaved_indexes@
                        &&& (forall|k2: crate::storage::SegmentKey|
                            k2 != old(self).key() ==> final(storage).batches(k2) == old(
                                storage,
                            ).batches(k2))
                        &&& (forall|k2: crate::storage::SegmentKey|
                            k2 != old(self).key() ==> final(storage).index_bytes(k2) == old(
                                storage,
                            ).index_bytes(k2))
                        &&& final(self).unsaved_indexes@.len() == 0
                        &&& final(self).current_size_bytes == old(self).current_size_bytes
                        &&& final(self).current_offset == old(self).current_offset
                        &&& final(self).start_offset == old(self).start_offset
                        &&& final(self).end_offset == (if old(self).current_size_bytes >= old(
                            self,
                        ).max_segment_size {
                            old(self).current_offset
                        } else {
                            old(self).end_offset
                        })
                        &&& final(self).is_closed == (old(self).current_size_bytes >= old(
                            self,
                        ).max_segment_size)
                        &&& final(self).unsaved_views() == Seq::<BatchV>::empty()
                        &&& (final(self).is_closed <==> final(self).unsaved_messages is None)
                        &&& final(self).indexes == old(self).indexes
                        &&& final(self).stream_id == old(self).stream_id
                        &&& final(self).topic_id == old(self).topic_id
                        &&& final(self).partition_id == old(self).partition_id
                        &&& final(self).max_segment_size == old(self).max_segment_size
                        &&& final(self).message_expiry_secs == old(self).message_expiry_secs
                    }
                },
                Err(e) => e is IoError && *final(self) == *old(self) && (forall|
                    k2: crate::storage::SegmentKey,
                |
                    final(storage).index_bytes(k2) == old(storage).index_bytes(k2)) && (forall|
                    k2: crate::storage::SegmentKey,
                |
                    k2 != old(self).key() ==> final(storage).batches(k2) == old(storage).batches(
                        k2,
                    )) && (final(storage).batches(old(self).key()) == old(storage).batches(
                    old(self).key(),
                ) || final(storage).batches(old(self).key()) == old(storage).batches(
                    old(self).key(),
                ) + old(self).unsaved_views()),
            },
    {
        let has_buffer = match &self.unsaved_messages {
            Some(v) => v.len() > 0,
            None => false,
        };
        if !has_buffer {
            proof {
                assert(self.unsaved_views().len() == 0);
            }
            return Ok(());
        }
        let key = self.storage_key();
        let mut result: Result<u32, Error> = Err(Error::IoError);
        match &self.unsaved_messages {
            Some(unsaved) => {
                result = storage.save_messages(key, unsaved);
            },
            None => {},
        }
        match result {
            Ok(_) => {},
            Err(e) => {
                return Err(e);
            },
        }
        match storage.save_index(key, &self.unsaved_indexes) {
            Ok(()) => {},
            Err(e) => {
                return Err(e);
            },
        }
        self.unsaved_indexes = Vec::new();
        if self.current_size_bytes >= self.max_segment_size {
            self.end_offset = self.current_offset;
            self.is_closed = true;
            self.unsaved_messages = None;
            proof {
                assert(self.unsaved_views() =~= Seq::<BatchV>::empty());
            }
        } else {
            self.unsaved_messages = Some(Vec::new());
            proof {
                assert(self.unsaved_views() =~= Seq::<BatchV>::empty());
            }
        }
        Ok(())
    }
}

/// Size accounting: `current_size_bytes` always equals the total framed
/// size of every batch ever appended, that is, of the persisted batches
/// plus the buffered ones. The accounting holds of a fresh segment, is kept
/// by `append_messages`, and is kept by `persist_messages`, which only
/// moves batches from the buffer to the persisted log.
pub open spec fn size_accounts(seg: &Segment, persisted: Seq<BatchV>) -> bool {
    seg.current_size_bytes == spec_batches_size(persisted) + spec_batches_size(seg.unsaved_views())
}

/// A fresh segment accounts for an empty log.
pub proof fn lemma_size_accounts_create(seg: &Segment)
    requires
        seg.current_size_bytes == 0,
        seg.unsaved_views() == Seq::<BatchV>::empty(),
    ensures
        size_accounts(seg, Seq::<BatchV>::empty()),
{
}

/// Appending keeps the accounting: the size grows by exactly the framed
/// size of the appended batch, which joins the buffer.
pub proof fn lemma_size_accounts_append(
    old_seg: &Segment,
    new_seg: &Segment,
    persisted: Seq<BatchV>,
    b: BatchV,
)
    requires
        size_accounts(old_seg, persisted),
        new_seg.current_size_bytes == old_seg.current_size_bytes + spec_batch_size(b),
        new_seg.unsaved_views() == old_seg.unsaved_views().push(b),
    ensures
        size_accounts(new_seg, persisted),
{
    crate::storage::lemma_batches_size_push(old_seg.unsaved_views(), b);
}

/// Persisting keeps the accounting: the buffered batches move to the end
/// of the persisted log and the size stays.
pub proof fn lemma_size_accounts_persist(
    old_seg: &Segment,
    new_seg: &Segment,
    persisted: Seq<BatchV>,
)
    requires
        size_accounts(old_seg, persisted),
        new_seg.current_size_bytes == old_seg.current_size_bytes,
        new_seg.unsaved_views() == Seq::<BatchV>::empty(),
    ensures
        size_accounts(new_seg, persisted + old_seg.unsaved_views()),
{
    crate::storage::lemma_batches_size_concat(persisted, old_seg.unsaved_views());
}


/// Messages with offsets inside `[lo, hi]`, in order.
pub open spec fn spec_filter_offsets(ms: Seq<MessageV>, lo: u64, hi: u64) -> Seq<MessageV>
    decreases ms.len(),
{
    if ms.len() == 0 {
        Seq::empty()
    } else {
        let p = spec_filter_offsets(ms.drop_last(), lo, hi);
        if lo <= ms.last().offset && ms.last().offset <= hi {
            p.push(ms.last())
        } else {
            p
        }
    }
}

/// Decodes every batch and concatenates the messages; the first decode
/// error wins.
pub open spec fn spec_messages_of_batches(bs: Seq<BatchV>) -> Result<Seq<MessageV>, Error>
    decreases bs.len(),
{
    if bs.len() == 0 {
        Ok(Seq::empty())
    } else {
        match crate::batching::spec_into_messages(bs[0]) {
            Err(e) => Err(e),
            Ok(ms) => match spec_messages_of_batches(bs.drop_first()) {
                Err(e) => Err(e),
                Ok(rest) => Ok(ms + rest),
            },
        }
    }
}

/// The greatest index entry at or before `rel_start`.
pub open spec fn find_lower(ix: Seq<Index>, rel_start: u32) -> Option<Index>
    decreases ix.len(),
{
    if ix.len() == 0 {
        None
    } else if ix.last().relative_offset <= rel_start {
        Some(ix.last())
    } else {
        find_lower(ix.drop_last(), rel_start)
    }
}

/// The smallest index entry at or past `rel_end`.
pub open spec fn find_upper(ix: Seq<Index>, rel_end: u32) -> Option<Index>
    decreases ix.len(),
{
    if ix.len() == 0 {
        None
    } else if ix[0].relative_offset >= rel_end {
        Some(ix[0])
    } else {
        find_upper(ix.drop_first(), rel_end)
    }
}

/// The index bracket for a read: the greatest entry at or before
/// `rel_start` (or the first entry) down to the smallest entry at or past
/// `rel_end` (or the last entry); nothing when the index is empty.
pub open spec fn spec_index_range(ix: Seq<Index>, rel_start: u32, rel_end: u32) -> Option<
    IndexRange,
> {
    if ix.len() == 0 {
        None
    } else {
        Some(
            IndexRange {
                start: match find_lower(ix, rel_start) {
                    Some(e) => e,
                    None => ix[0],
                },
                end: match find_upper(ix, rel_end) {
                    Some(e) => e,
                    None => ix.last(),
                },
            },
        )
    }
}

/// Position of the last batch whose base offset is at or before `rel`, or
/// zero when there is none: where the buffer scan starts.
pub open spec fn spec_slice_start(bs: Seq<BatchV>, rel: u64) -> int
    decreases bs.len(),
{
    if bs.len() == 0 {
        0int
    } else if bs.last().base_offset <= rel {
        bs.len() - 1
    } else {
        spec_slice_start(bs.drop_last(), rel)
    }
}

/// The batches kept by the buffer scan: those intersecting the relative
/// range in the batch-intersection sense.
pub open spec fn spec_filter_contained(bs: Seq<BatchV>, rel_s: u64, rel_e: u64) -> Seq<BatchV>
    decreases bs.len(),
{
    if bs.len() == 0 {
        Seq::empty()
    } else {
        let p = spec_filter_contained(bs.drop_last(), rel_s, rel_e);
        if crate::batching::spec_contained_or_overlapping(bs.last(), rel_s, rel_e) {
            p.push(bs.last())
        } else {
            p
        }
    }
}

/// The buffer read: scan from the last batch whose base
/// offset is at or before the relative start, keep the intersecting
/// batches, decode them and keep the messages whose absolute offsets fall
/// in the requested range.
pub open spec fn spec_buffer_messages(seg: &Segment, offset: u64, end_offset: u64) -> Result<
    Seq<MessageV>,
    Error,
> {
    let rel_s = (offset - seg.start_offset) as u64;
    let rel_e = (end_offset - seg.start_offset) as u64;
    let bs = seg.unsaved_views();
    let selected = spec_filter_contained(
        bs.subrange(spec_slice_start(bs, rel_s), bs.len() as int),
        rel_s,
        rel_e,
    );
    match spec_messages_of_batches(selected) {
        Err(e) => Err(e),
        Ok(ms) => Ok(spec_filter_offsets(ms, offset, end_offset)),
    }
}

/// The bracketed file read: load the batches inside the byte bracket,
/// decode them and keep the messages in the requested offset range.
pub open spec fn spec_file_messages<S: SegmentStorage>(
    seg: &Segment,
    storage: &S,
    range: IndexRange,
    start: u64,
    end: u64,
) -> Result<Seq<MessageV>, Error> {
    match spec_messages_of_batches(
        crate::storage::spec_select_batches(
            storage.batches(seg.key()),
            range.start.position as int,
            range.end.position as int,
        ),
    ) {
        Err(e) => Err(e),
        Ok(ms) => Ok(spec_filter_offsets(ms, start, end)),
    }
}

/// The disk read: empty on an inverted range or when the
/// index gives no bracket, otherwise the bracketed file read.
pub open spec fn spec_disk_messages<S: SegmentStorage>(
    seg: &Segment,
    storage: &S,
    start: u64,
    end: u64,
) -> Result<Seq<MessageV>, Error> {
    if start > end {
        Ok(Seq::empty())
    } else {
        let rel_s = (start - seg.start_offset) as u32;
        let rel_e = (end - seg.start_offset) as u32;
        match spec_index_range(seg.index_views(), rel_s, rel_e) {
            None => Ok(Seq::empty()),
            Some(range) => spec_file_messages(seg, storage, range, start, end),
        }
    }
}

/// Does this read consult the persisted log? It does not for a zero
/// count, nor for a range lying wholly inside the unsaved-buffer span:
/// those reads are decided by the segment alone and always succeed.
pub open spec fn spec_read_uses_disk(seg: &Segment, offset0: u64, count: u32) -> bool {
    if count == 0 {
        false
    } else {
        let offset = if offset0 < seg.start_offset {
            seg.start_offset
        } else {
            offset0
        };
        let end = (offset + count - 1) as u64;
        let bs = seg.unsaved_views();
        if bs.len() == 0 {
            true
        } else {
            let first = bs[0].base_offset;
            if end < first {
                true
            } else {
                let last = crate::batching::spec_last_offset(bs.last());
                !(offset >= first && end <= last)
            }
        }
    }
}

/// How many messages a whole-segment read asks for.
pub open spec fn spec_all_count(seg: &Segment) -> u32 {
    if seg.current_size_bytes == 0 {
        0u32
    } else {
        ((seg.current_offset - seg.start_offset + 1) as u32)
    }
}

/// Merge of two message runs in offset order; on ties the first run wins.
pub open spec fn spec_merge(a: Seq<MessageV>, b: Seq<MessageV>) -> Seq<MessageV>
    decreases a.len() + b.len(),
{
    if a.len() == 0 {
        b
    } else if b.len() == 0 {
        a
    } else if a[0].offset <= b[0].offset {
        seq![a[0]] + spec_merge(a.drop_first(), b)
    } else {
        seq![b[0]] + spec_merge(a, b.drop_first())
    }
}

/// The whole read: empty for a zero count; the offset is
/// clamped to the segment start; without a buffer, or when the range ends
/// before the buffer, read from disk; when the range sits inside the
/// buffer span, read from the buffer; otherwise read both and merge in
/// offset order.
pub open spec fn spec_get_messages<S: SegmentStorage>(
    seg: &Segment,
    storage: &S,
    offset0: u64,
    count: u32,
) -> Result<Seq<MessageV>, Error> {
    if count == 0 {
        Ok(Seq::empty())
    } else {
        let offset = if offset0 < seg.start_offset {
            seg.start_offset
        } else {
            offset0
        };
        let end = (offset + count - 1) as u64;
        let bs = seg.unsaved_views();
        if bs.len() == 0 {
            spec_disk_messages(seg, storage, offset, end)
        } else {
            let first = bs[0].base_offset;
            if end < first {
                spec_disk_messages(seg, storage, offset, end)
            } else {
                let last = crate::batching::spec_last_offset(bs.last());
                if offset >= first && end <= last {
                    spec_buffer_messages(seg, offset, end)
                } else {
                    match spec_disk_messages(seg, storage, offset, end) {
                        Err(e) => Err(e),
                        Ok(d) => match spec_buffer_messages(seg, offset, end) {
                            Err(e) => Err(e),
                            Ok(u) => Ok(spec_merge(d, u)),
                        },
                    }
                }
            }
        }
    }
}


/// Decodes every batch in order and concatenates the messages.
fn messages_of_batches(bs: Vec<MessagesBatch>) -> (r: Result<Vec<Message>, Error>)
    ensures
        match r {
            Ok(ms) => spec_messages_of_batches(bs.deep_view()) == Ok::<Seq<MessageV>, Error>(
                ms.deep_view(),
            ),
            Err(e) => spec_messages_of_batches(bs.deep_view()) == Err::<Seq<MessageV>, Error>(e),
        },
{
    let ghost dv = bs.deep_view();
    let n = bs.len();
    let mut out: Vec<Message> = Vec::new();
    let mut k: usize = 0;
    proof {
        assert(dv.subrange(0, n as int) =~= dv);
        match spec_messages_of_batches(dv) {
            Ok(rest) => {
                assert(out.deep_view() + rest =~= rest);
            },
            Err(_) => {},
        }
    }
    while k < n
        invariant
            k <= n,
            n == bs@.len(),
            dv == bs.deep_view(),
            spec_messages_of_batches(dv) == (match spec_messages_of_batches(
                dv.subrange(k as int, n as int),
            ) {
                Ok(rest) => Ok::<Seq<MessageV>, Error>(out.deep_view() + rest),
                Err(e) => Err::<Seq<MessageV>, Error>(e),
            }),
        decreases n - k,
    {
        proof {
            assert(dv.subrange(k as int, n as int)[0] == dv[k as int]);
            assert(dv.subrange(k as int, n as int).drop_first() =~= dv.subrange(
                k + 1,
                n as int,
            ));
        }
        let batch = bs[k].clone();
        let mut part = match batch.into_messages() {
            Ok(ms) => ms,
            Err(e) => {
                return Err(e);
            },
        };
        let ghost out_before = out.deep_view();
        let ghost part_dv = part.deep_view();
        out.append(&mut part);
        k = k + 1;
        proof {
            assert(out.deep_view() =~= out_before + part_dv);
            match spec_messages_of_batches(dv.subrange(k as int, n as int)) {
                Ok(rest) => {
                    assert(out.deep_view() + rest =~= out_before + (part_dv + rest));
                },
                Err(_) => {},
            }
        }
    }
    proof {
        assert(dv.subrange(n as int, n as int) =~= Seq::<BatchV>::empty());
        assert(out.deep_view() + Seq::<MessageV>::empty() =~= out.deep_view());
    }
    Ok(out)
}

/// Keeps the messages whose offsets fall in `[lo, hi]`.
fn filter_by_offset(ms: Vec<Message>, lo: u64, hi: u64) -> (r: Vec<Message>)
    ensures
        r.deep_view() == spec_filter_offsets(ms.deep_view(), lo, hi),
{
    let ghost dv = ms.deep_view();
    let n = ms.len();
    let mut out: Vec<Message> = Vec::new();
    let mut i: usize = 0;
    proof {
        assert(dv.subrange(0, 0) =~= Seq::<MessageV>::empty());
    }
    while i < n
        invariant
            i <= n,
            n == ms@.len(),
            dv == ms.deep_view(),
            out.deep_view() == spec_filter_offsets(dv.subrange(0, i as int), lo, hi),
        decreases n - i,
    {
        proof {
            assert(dv.subrange(0, i + 1).drop_last() =~= dv.subrange(0, i as int));
            assert(dv.subrange(0, i + 1).last() == dv[i as int]);
        }
        let m = &ms[i];
        if lo <= m.offset && m.offset <= hi {
            let ghost before = out.deep_view();
            out.push(m.clone());
            proof {
                assert(out.deep_view() =~= before.push(dv[i as int]));
            }
        }
        i = i + 1;
    }
    proof {
        assert(dv.subrange(0, n as int) =~= dv);
    }
    out
}

/// Merges two runs of messages in offset order; ties favor the first run.
fn merge_messages(a: Vec<Message>, b: Vec<Message>) -> (r: Vec<Message>)
    ensures
        r.deep_view() == spec_merge(a.deep_view(), b.deep_view()),
{
    let ghost adv = a.deep_view();
    let ghost bdv = b.deep_view();
    let mut ra = a;
    let mut rb = b;
    let mut out: Vec<Message> = Vec::new();
    proof {
        assert(out.deep_view() + spec_merge(adv, bdv) =~= spec_merge(adv, bdv));
    }
    while ra.len() > 0 && rb.len() > 0
        invariant
            spec_merge(adv, bdv) == out.deep_view() + spec_merge(ra.deep_view(), rb.deep_view()),
        decreases ra@.len() + rb@.len(),
    {
        let ghost radv = ra.deep_view();
        let ghost rbdv = rb.deep_view();
        let ghost out_before = out.deep_view();
        if ra[0].offset <= rb[0].offset {
            let m = ra.remove(0);
            let ghost mv = m@;
            out.push(m);
            proof {
                assert(ra.deep_view() =~= radv.drop_first());
                assert(out.deep_view() =~= out_before.push(mv));
                assert(spec_merge(radv, rbdv) == seq![mv] + spec_merge(radv.drop_first(), rbdv));
                assert(out.deep_view() + spec_merge(ra.deep_view(), rb.deep_view())
                    =~= out_before + (seq![mv] + spec_merge(radv.drop_first(), rbdv)));
            }
        } else {
            let m = rb.remove(0);
            let ghost mv = m@;
            out.push(m);
            proof {
                assert(rb.deep_view() =~= rbdv.drop_first());
                assert(out.deep_view() =~= out_before.push(mv));
                assert(spec_merge(radv, rbdv) == seq![mv] + spec_merge(radv, rbdv.drop_first()));
                assert(out.deep_view() + spec_merge(ra.deep_view(), rb.deep_view())
                    =~= out_before + (seq![mv] + spec_merge(radv, rbdv.drop_first())));
            }
        }
    }
    let ghost out_before = out.deep_view();
    let ghost radv = ra.deep_view();
    let ghost rbdv = rb.deep_view();
    if ra.len() > 0 {
        out.append(&mut ra);
        proof {
            assert(spec_merge(radv, rbdv) == radv);
            assert(out.deep_view() =~= out_before + radv);
        }
    } else {
        out.append(&mut rb);
        proof {
            assert(spec_merge(radv, rbdv) == rbdv);
            assert(out.deep_view() =~= out_before + rbdv);
        }
    }
    out
}

impl Segment {
    /// The index bracket for a relative offset range;
    /// nothing when the index cache is off or empty.
    pub fn load_highest_lower_bound_index(&self, rel_start: u32, rel_end: u32) -> (r: Option<
        IndexRange,
    >)
        ensures
            r == spec_index_range(self.index_views(), rel_start, rel_end),
    {
        let ix: &Vec<Index> = match &self.indexes {
            Some(v) => v,
            None => {
                proof {
                    assert(self.index_views() =~= Seq::<Index>::empty());
                }
                return None;
            },
        };
        let n = ix.len();
        if n == 0 {
            return None;
        }
        let ghost ixv = self.index_views();
        let mut lower_opt: Option<Index> = None;
        let mut j: usize = 0;
        proof {
            assert(ixv.subrange(0, 0) =~= Seq::<Index>::empty());
        }
        while j < n
            invariant
                j <= n,
                n == ixv.len(),
                ix@ == ixv,
                ixv == self.index_views(),
                lower_opt == find_lower(ixv.subrange(0, j as int), rel_start),
            decreases n - j,
        {
            proof {
                assert(ixv.subrange(0, j + 1).drop_last() =~= ixv.subrange(0, j as int));
                assert(ixv.subrange(0, j + 1).last() == ixv[j as int]);
            }
            if ix[j].relative_offset <= rel_start {
                lower_opt = Some(ix[j]);
            }
            j = j + 1;
        }
        proof {
            assert(ixv.subrange(0, n as int) =~= ixv);
        }
        let mut upper_opt: Option<Index> = None;
        let mut found = false;
        let mut k: usize = 0;
        proof {
            assert(ixv.subrange(0, ixv.len() as int) =~= ixv);
        }
        while k < n && !found
            invariant
                k <= n,
                n == ixv.len(),
                ix@ == ixv,
                ixv == self.index_views(),
                !found ==> upper_opt is None && find_upper(ixv, rel_end) == find_upper(
                    ixv.subrange(k as int, n as int),
                    rel_end,
                ),
                found ==> find_upper(ixv, rel_end) == upper_opt,
            decreases n - k + (if found {
                0int
            } else {
                1int
            }),
        {
            proof {
                assert(ixv.subrange(k as int, n as int)[0] == ixv[k as int]);
                assert(ixv.subrange(k as int, n as int).drop_first() =~= ixv.subrange(
                    k + 1,
                    n as int,
                ));
            }
            if ix[k].relative_offset >= rel_end {
                upper_opt = Some(ix[k]);
                found = true;
            } else {
                k = k + 1;
            }
        }
        proof {
            if !found {
                assert(ixv.subrange(n as int, n as int) =~= Seq::<Index>::empty());
            }
        }
        let start_entry = match lower_opt {
            Some(e) => e,
            None => ix[0],
        };
        let end_entry = match upper_opt {
            Some(e) => e,
            None => ix[n - 1],
        };
        proof {
            assert(ixv.last() == ixv[n - 1]);
        }
        Some(IndexRange { start: start_entry, end: end_entry })
    }

    /// The buffer read over the unsaved batches.
    pub fn load_messages_from_unsaved_buffer(&self, offset: u64, end_offset: u64) -> (r: Result<
        Vec<Message>,
        Error,
    >)
        requires
            self.inv(),
            self.unsaved_messages is Some,
            self.start_offset <= offset <= end_offset,
        ensures
            match r {
                Ok(ms) => spec_buffer_messages(self, offset, end_offset) == Ok::<
                    Seq<MessageV>,
                    Error,
                >(ms.deep_view()),
                Err(e) => spec_buffer_messages(self, offset, end_offset) == Err::<
                    Seq<MessageV>,
                    Error,
                >(e),
            },
    {
        let relative_start_offset = offset - self.start_offset;
        let relative_end_offset = end_offset - self.start_offset;
        let unsaved: &Vec<MessagesBatch> = match &self.unsaved_messages {
            Some(v) => v,
            None => {
                proof {
                    assert(false);
                }
                return Err(Error::IoError);
            },
        };
        let ghost dv = self.unsaved_views();
        let n = unsaved.len();
        let mut slice_start: usize = 0;
        let mut j: usize = 0;
        proof {
            assert(dv.subrange(0, 0) =~= Seq::<BatchV>::empty());
        }
        while j < n
            invariant
                j <= n,
                n == dv.len(),
                unsaved.deep_view() == dv,
                n == unsaved@.len(),
                dv == self.unsaved_views(),
                slice_start as int == spec_slice_start(
                    dv.subrange(0, j as int),
                    relative_start_offset,
                ),
                slice_start < n || slice_start == 0,
            decreases n - j,
        {
            proof {
                assert(dv.subrange(0, j + 1).drop_last() =~= dv.subrange(0, j as int));
                assert(dv.subrange(0, j + 1).last() == dv[j as int]);
            }
            if unsaved[j].base_offset <= relative_start_offset {
                slice_start = j;
            }
            j = j + 1;
        }
        proof {
            assert(dv.subrange(0, n as int) =~= dv);
        }
        let mut selected: Vec<MessagesBatch> = Vec::new();
        let mut k: usize = slice_start;
        proof {
            assert(dv.subrange(slice_start as int, slice_start as int) =~= Seq::<BatchV>::empty());
            assert(selected.deep_view() =~= spec_filter_contained(
                dv.subrange(slice_start as int, slice_start as int),
                relative_start_offset,
                relative_end_offset,
            ));
        }
        while k < n
            invariant
                slice_start <= k,
                k <= n,
                n == dv.len(),
                unsaved.deep_view() == dv,
                n == unsaved@.len(),
                dv == self.unsaved_views(),
                self.inv(),
                selected.deep_view() == spec_filter_contained(
                    dv.subrange(slice_start as int, k as int),
                    relative_start_offset,
                    relative_end_offset,
                ),
            decreases n - k,
    {
            proof {
                assert(dv.subrange(slice_start as int, k + 1).drop_last() =~= dv.subrange(
                    slice_start as int,
                    k as int,
                ));
                assert(dv.subrange(slice_start as int, k + 1).last() == dv[k as int]);
                assert(batch_wf(dv[k as int]));
            }
            let b = &unsaved[k];
            if b.is_contained_or_overlapping_within_offset_range(
                relative_start_offset,
                relative_end_offset,
            ) {
                let ghost before = selected.deep_view();
                selected.push(b.clone());
                proof {
                    assert(selected.deep_view() =~= before.push(dv[k as int]));
                }
            }
            k = k + 1;
        }
        let ms = match messages_of_batches(selected) {
            Ok(ms) => ms,
            Err(e) => {
                return Err(e);
            },
        };
        Ok(filter_by_offset(ms, offset, end_offset))
    }

    /// The bracketed file read: load, decode, filter.
    fn load_messages_from_segment_file<S: SegmentStorage>(
        &self,
        storage: &S,
        index_range: &IndexRange,
        start_offset: u64,
        end_offset: u64,
    ) -> (r: Result<Vec<Message>, Error>)
        ensures
            match r {
                Ok(ms) => spec_file_messages(self, storage, *index_range, start_offset, end_offset)
                    == Ok::<Seq<MessageV>, Error>(ms.deep_view()),
                Err(e) => spec_file_messages(
                    self,
                    storage,
                    *index_range,
                    start_offset,
                    end_offset,
                ) == Err::<Seq<MessageV>, Error>(e) || e is IoError,
            },
    {
        let batches = match storage.load_messages(self.storage_key(), index_range) {
            Ok(bs) => bs,
            Err(e) => {
                return Err(e);
            },
        };
        let ms = match messages_of_batches(batches) {
            Ok(ms) => ms,
            Err(e) => {
                return Err(e);
            },
        };
        Ok(filter_by_offset(ms, start_offset, end_offset))
    }

    /// The disk read through the offset index.
    fn load_messages_from_disk<S: SegmentStorage>(
        &self,
        storage: &S,
        start_offset: u64,
        end_offset: u64,
    ) -> (r: Result<Vec<Message>, Error>)
        requires
            self.inv(),
            start_offset <= end_offset ==> self.start_offset <= start_offset,
            start_offset <= end_offset ==> end_offset - self.start_offset <= u32::MAX,
        ensures
            start_offset > end_offset ==> r is Ok,
            (start_offset <= end_offset && spec_index_range(
                self.index_views(),
                (start_offset - self.start_offset) as u32,
                (end_offset - self.start_offset) as u32,
            ) is None) ==> r is Ok,
            match r {
                Ok(ms) => spec_disk_messages(self, storage, start_offset, end_offset) == Ok::<
                    Seq<MessageV>,
                    Error,
                >(ms.deep_view()),
                Err(e) => spec_disk_messages(self, storage, start_offset, end_offset) == Err::<
                    Seq<MessageV>,
                    Error,
                >(e) || e is IoError,
            },
    {
        if start_offset > end_offset {
            let empty: Vec<Message> = Vec::new();
            proof {
                assert(empty.deep_view() =~= Seq::<MessageV>::empty());
            }
            return Ok(empty);
        }
        let relative_start_offset = (start_offset - self.start_offset) as u32;
        let relative_end_offset = (end_offset - self.start_offset) as u32;
        let index_range = match self.load_highest_lower_bound_index(
            relative_start_offset,
            relative_end_offset,
        ) {
            Some(range) => range,
            None => {
                let empty: Vec<Message> = Vec::new();
                proof {
                    assert(empty.deep_view() =~= Seq::<MessageV>::empty());
                }
                return Ok(empty);
            },
        };
        self.load_messages_from_segment_file(storage, &index_range, start_offset, end_offset)
    }

    /// The whole read: clamp the offset, then read from the
    /// buffer, the disk, or both merged in offset order.
    pub fn get_messages<S: SegmentStorage>(&self, storage: &S, offset: u64, count: u32) -> (r:
        Result<Vec<Message>, Error>)
        requires
            self.inv(),
            count > 0 ==> (if offset < self.start_offset {
                self.start_offset
            } else {
                offset
            }) + count - 1 <= u64::MAX,
            count > 0 ==> (if offset < self.start_offset {
                self.start_offset
            } else {
                offset
            }) + count - 1 - self.start_offset <= u32::MAX,
        ensures
            count == 0 ==> r is Ok,
            match r {
                Ok(ms) => spec_get_messages(self, storage, offset, count) == Ok::<
                    Seq<MessageV>,
                    Error,
                >(ms.deep_view()),
                Err(e) => spec_get_messages(self, storage, offset, count) == Err::<
                    Seq<MessageV>,
                    Error,
                >(e) || (e is IoError && spec_read_uses_disk(self, offset, count)),
            },
    {
        if count == 0 {
            let empty: Vec<Message> = Vec::new();
            proof {
                assert(empty.deep_view() =~= Seq::<MessageV>::empty());
            }
            return Ok(empty);
        }
        let offset = if offset < self.start_offset {
            self.start_offset
        } else {
            offset
        };
        let end_offset = offset + (count - 1) as u64;
        let span = match &self.unsaved_messages {
            Some(v) => if v.len() == 0 {
                None
            } else {
                let first = v[0].base_offset;
                proof {
                    assert(batch_wf(self.unsaved_views()[v@.len() - 1]));
                    assert(self.unsaved_views().last() == self.unsaved_views()[v@.len() - 1]);
                    assert(v@[v@.len() - 1]@ == self.unsaved_views()[v@.len() - 1]);
                }
                let last = v[v.len() - 1].get_last_offset();
                Some((first, last))
            },
            None => None,
        };
        match span {
            None => self.load_messages_from_disk(storage, offset, end_offset),
            Some((first, last)) => {
                if end_offset < first {
                    self.load_messages_from_disk(storage, offset, end_offset)
                } else if offset >= first && end_offset <= last {
                    self.load_messages_from_unsaved_buffer(offset, end_offset)
                } else {
                    let disk = match self.load_messages_from_disk(storage, offset, end_offset) {
                        Ok(ms) => ms,
                        Err(e) => {
                            return Err(e);
                        },
                    };
                    let buffered = match self.load_messages_from_unsaved_buffer(
                        offset,
                        end_offset,
                    ) {
                        Ok(ms) => ms,
                        Err(e) => {
                            return Err(e);
                        },
                    };
                    Ok(merge_messages(disk, buffered))
                }
            },
        }
    }

    /// Reads every message the segment holds.
    pub fn get_all_messages<S: SegmentStorage>(&self, storage: &S) -> (r: Result<
        Vec<Message>,
        Error,
    >)
        requires
            self.inv(),
            self.current_offset - self.start_offset + 1 <= u32::MAX,
        ensures
            self.current_size_bytes == 0 ==> r is Ok,
            match r {
                Ok(ms) => spec_get_messages(self, storage, self.start_offset, spec_all_count(self))
                    == Ok::<Seq<MessageV>, Error>(ms.deep_view()),
                Err(e) => spec_get_messages(self, storage, self.start_offset, spec_all_count(self))
                    == Err::<Seq<MessageV>, Error>(e) || (e is IoError && spec_read_uses_disk(
                    self,
                    self.start_offset,
                    spec_all_count(self),
                )),
            },
    {
        let count = self.get_messages_count() as u32;
        self.get_messages(storage, self.start_offset, count)
    }

    /// Size-bounded tail read; not wired to storage yet, so it always
    /// returns no messages.
    pub fn get_newest_messages_by_size(&self, size_bytes: u64) -> (r: Result<
        Vec<std::sync::Arc<Message>>,
        Error,
    >)
        ensures
            match r {
                Ok(ms) => ms@.len() == 0,
                Err(_) => false,
            },
    {
        let msgs: Vec<std::sync::Arc<Message>> = Vec::new();
        Ok(msgs)
    }
}

/// Reading zero messages yields nothing, whatever the segment and storage
/// hold.
pub proof fn lemma_get_messages_zero_count<S: SegmentStorage>(seg: &Segment, storage: &S, offset: u64)
    ensures
        spec_get_messages(seg, storage, offset, 0) == Ok::<Seq<MessageV>, Error>(Seq::empty()),
{
}

/// Reading from before the segment start is the same as reading from the
/// start: the offset is clamped before anything else happens.
pub proof fn lemma_get_messages_clamped<S: SegmentStorage>(
    seg: &Segment,
    storage: &S,
    offset: u64,
    count: u32,
)
    requires
        offset < seg.start_offset,
    ensures
        spec_get_messages(seg, storage, offset, count) == spec_get_messages(
            seg,
            storage,
            seg.start_offset,
            count,
        ),
{
}

} // verus!
