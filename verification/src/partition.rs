//! The unit of ordering: an append-only list of segments with a monotonic
//! offset counter.
//!
//! The partition assigns every message its offset: producers never supply
//! one. Exactly one segment — the last — is active; when a persist closes
//! it, a fresh active segment starts one offset past the current one.

use crate::batching::{spec_attr_code, BatchV, MessagesBatch};
use crate::error::Error;
use crate::message::{msg_wf, spec_messages_bytes, Message, MessageV};
use crate::segment::{spec_get_messages, Segment};
use crate::storage::{spec_batches_size, SegmentStorage};
use vstd::prelude::*;

verus! {

/// One partition of a topic.
#[derive(Debug)]
pub struct Partition {
    /// The stream this partition's topic belongs to.
    pub stream_id: u32,
    /// The topic this partition belongs to.
    pub topic_id: u32,
    /// This partition's id inside the topic.
    pub partition_id: u32,
    /// Offset of the last assigned message; see `should_increment_offset`.
    pub current_offset: u64,
    /// False only while the partition has never assigned an offset: the
    /// very first message takes offset zero itself.
    pub should_increment_offset: bool,
    /// The segments, ordered by start offset; the last one is active.
    pub segments: Vec<Segment>,
    /// The size cap handed to every segment.
    pub max_segment_size: u32,
    /// Read-time expiry, propagated from the topic.
    pub message_expiry_secs: Option<u32>,
}

/// The total framed size of a batch list is at least 17 bytes per batch.
pub proof fn lemma_batches_size_lower(bs: Seq<BatchV>)
    ensures
        spec_batches_size(bs) >= 17 * bs.len(),
    decreases bs.len(),
{
    if bs.len() > 0 {
        lemma_batches_size_lower(bs.drop_first());
    }
}

impl Partition {
    /// The offset the next appended message will take.
    pub open spec fn spec_base(&self) -> int {
        if self.should_increment_offset {
            self.current_offset + 1
        } else {
            self.current_offset as int
        }
    }

    /// The active segment: always the last one.
    pub open spec fn active(&self) -> Segment {
        self.segments@.last()
    }

    /// Internal consistency: at least one segment; every segment is
    /// consistent, carries this partition's id and size cap, and pairs 8
    /// unsaved index bytes with each buffered batch; segments are ordered
    /// strictly by start offset; only the last is open, and it reaches at
    /// most one offset past the counter.
    pub open spec fn inv(&self) -> bool {
        &&& self.segments@.len() >= 1
        &&& (forall|k: int| 0 <= k < self.segments@.len() ==> (#[trigger] self.segments@[k]).inv())
        &&& (forall|k: int|
            0 <= k < self.segments@.len() ==> (#[trigger] self.segments@[k]).partition_id
                == self.partition_id)
        &&& (forall|k: int|
            0 <= k < self.segments@.len() ==> (#[trigger] self.segments@[k]).stream_id
                == self.stream_id)
        &&& (forall|k: int|
            0 <= k < self.segments@.len() ==> (#[trigger] self.segments@[k]).topic_id
                == self.topic_id)
        &&& (forall|k: int|
            0 <= k < self.segments@.len() ==> (#[trigger] self.segments@[k]).max_segment_size
                == self.max_segment_size)
        &&& (forall|k: int|
            0 <= k < self.segments@.len() ==> (#[trigger] self.segments@[k]).unsaved_indexes@.len()
                == 8 * self.segments@[k].unsaved_views().len())
        &&& (forall|k: int|
            0 <= k < self.segments@.len() - 1 ==> (#[trigger] self.segments@[k]).is_closed)
        &&& !self.active().is_closed
        &&& (forall|i: int, j: int|
            0 <= i < j < self.segments@.len() ==> (#[trigger] self.segments@[i]).start_offset < (
            #[trigger] self.segments@[j]).start_offset)
        &&& self.active().start_offset <= self.spec_base()
        &&& self.active().current_offset <= self.current_offset || self.active().current_offset
            == self.active().start_offset
        &&& (!self.should_increment_offset ==> self.current_offset == 0
            && self.active().start_offset == 0)
    }

    /// Builds a partition with one fresh active segment at offset zero.
    pub fn create(
        stream_id: u32,
        topic_id: u32,
        partition_id: u32,
        max_segment_size: u32,
        message_expiry_secs: Option<u32>,
    ) -> (r: Partition)
        ensures
            r.inv(),
            r.stream_id == stream_id,
            r.topic_id == topic_id,
            r.partition_id == partition_id,
            r.current_offset == 0,
            r.should_increment_offset == false,
            r.segments@.len() == 1,
            r.max_segment_size == max_segment_size,
            r.message_expiry_secs == message_expiry_secs,
            r.active().current_size_bytes == 0,
            r.active().start_offset == 0,
    {
        let seg = Segment::create(
            stream_id,
            topic_id,
            partition_id,
            0,
            max_segment_size,
            message_expiry_secs,
        );
        let mut segments: Vec<Segment> = Vec::new();
        segments.push(seg);
        Partition {
            stream_id,
            topic_id,
            partition_id,
            current_offset: 0,
            should_increment_offset: false,
            segments,
            max_segment_size,
            message_expiry_secs,
        }
    }

    /// Total bytes across the partition's segments.
    pub fn get_size_bytes(&self) -> (r: u64)
        requires
            self.segments@.len() * 0x1_0000_0000 <= u64::MAX,
        ensures
            r == spec_partition_size(self.segments@),
    {
        let mut total: u64 = 0;
        let mut k: usize = 0;
        proof {
            assert(self.segments@.subrange(0, 0) =~= Seq::<Segment>::empty());
        }
        while k < self.segments.len()
            invariant
                k <= self.segments@.len(),
                total == spec_partition_size(self.segments@.subrange(0, k as int)),
                total <= k * 0x1_0000_0000,
                self.segments@.len() * 0x1_0000_0000 <= u64::MAX,
            decreases self.segments@.len() - k,
        {
            proof {
                assert(self.segments@.subrange(0, k + 1).drop_last() =~= self.segments@.subrange(
                    0,
                    k as int,
                ));
                assert(self.segments@.subrange(0, k + 1).last() == self.segments@[k as int]);
                assert((k + 1) * 0x1_0000_0000 == k * 0x1_0000_0000 + 0x1_0000_0000);
                assert(k * 0x1_0000_0000 <= self.segments@.len() * 0x1_0000_0000) by (
                nonlinear_arith)
                    requires
                        0 <= k < self.segments@.len(),
                ;
            }
            total = total + self.segments[k].current_size_bytes as u64;
            k = k + 1;
        }
        proof {
            assert(self.segments@.subrange(0, self.segments@.len() as int) =~= self.segments@);
        }
        total
    }

    /// Total messages across the partition: offsets are contiguous, so the
    /// count is the span of assigned offsets.
    pub fn get_messages_count(&self) -> (r: u64)
        requires
            self.inv(),
            self.current_offset < u64::MAX,
        ensures
            r == (if !self.should_increment_offset {
                0int
            } else {
                self.current_offset + 1
            }),
    {
        if !self.should_increment_offset {
            0
        } else {
            self.current_offset + 1
        }
    }
}

/// A partition's size is non-negative and at most one `u32` range per
/// segment.
pub proof fn lemma_partition_size_bounds(segs: Seq<Segment>)
    ensures
        0 <= spec_partition_size(segs) <= segs.len() * 0x1_0000_0000,
    decreases segs.len(),
{
    if segs.len() > 0 {
        lemma_partition_size_bounds(segs.drop_last());
        assert((segs.len() - 1) * 0x1_0000_0000 + 0x1_0000_0000 == segs.len() * 0x1_0000_0000) by (
        nonlinear_arith);
    }
}

/// Sum of the segments' sizes.
pub open spec fn spec_partition_size(segs: Seq<Segment>) -> int
    decreases segs.len(),
{
    if segs.len() == 0 {
        0int
    } else {
        spec_partition_size(segs.drop_last()) + segs.last().current_size_bytes
    }
}

/// The batch an append would frame: the messages with their assigned
/// offsets, framed at the partition's next base offset.
pub open spec fn spec_append_batch(p: &Partition, messages: Seq<MessageV>, attributes: u8) -> Result<
    BatchV,
    Error,
> {
    crate::batching::spec_messages_to_batch(
        p.spec_base() as u64,
        (messages.len() - 1) as u32,
        attributes,
        spec_assign_offsets(messages, p.spec_base() as u64),
    )
}

/// The error an append on `p` reports, tied to its cause: a reserved
/// compression code, then a frame that cannot fit the length field or the
/// segment size counter, then a compression or storage failure.
pub open spec fn spec_append_err(p: Partition, messages: Seq<MessageV>, attributes: u8, e: Error) -> bool {
    let code = spec_attr_code(attributes);
    let enc = spec_append_batch(&p, messages, attributes);
    ||| (code > 1 && e == Error::InvalidCompressionAlgorithm(code))
    ||| (code <= 1 && e is InvalidCommand && (enc == Err::<BatchV, Error>(Error::InvalidCommand)
        || (enc matches Ok(b) && p.active().current_size_bytes
            + crate::storage::spec_batch_size(b) > u32::MAX)))
    ||| (code <= 1 && e is IoError)
}

/// The message list with offsets `base, base+1, ...` assigned in order.
pub open spec fn spec_assign_offsets(ms: Seq<MessageV>, base: u64) -> Seq<MessageV> {
    Seq::new(ms.len(), |i: int| MessageV { offset: (base + i) as u64, ..ms[i] })
}

impl Partition {
    /// Appends a message list: assigns the offsets `base .. base+N-1`
    /// (where `base` is the offset counter, advanced by one once the
    /// partition is non-empty), frames the messages into one batch,
    /// appends it to the active segment, persists, and, when the persist
    /// closed the segment, rolls over to a fresh active segment starting
    /// one past the new current offset. Offset assignment and the buffer
    /// append happen together, with no suspension between them.
    pub fn append_messages<S: SegmentStorage>(
        &mut self,
        storage: &mut S,
        messages: Vec<Message>,
        attributes: u8,
    ) -> (r: Result<(), Error>)
        requires
            old(self).inv(),
            messages@.len() >= 1,
            messages@.len() <= u32::MAX,
            forall|i: int|
                0 <= i < messages.deep_view().len() ==> msg_wf(#[trigger] messages.deep_view()[i]),
            spec_messages_bytes(messages.deep_view()).len() <= usize::MAX,
            old(self).spec_base() + messages@.len() <= u64::MAX,
            old(self).spec_base() + messages@.len() - 1 - old(self).active().start_offset
                <= u32::MAX,
        ensures
            match r {
                Ok(()) => {
                    let base = old(self).spec_base();
                    let n = messages@.len() as int;
                    &&& final(self).inv()
                    &&& final(self).current_offset == base + n - 1
                    &&& final(self).should_increment_offset == true
                    &&& (final(self).segments@.len() == old(self).segments@.len() || final(self).segments@.len() == old(self).segments@.len() + 1)
                    &&& (final(self).segments@.len() == old(self).segments@.len() + 1 ==> final(self).active().start_offset == final(self).current_offset + 1 && final(self).active().current_size_bytes == 0 && !final(self).active().is_closed && final(self).segments@[old(self).segments@.len() - 1].is_closed && final(self).segments@[old(self).segments@.len() - 1].end_offset == final(self).current_offset)
                    &&& (final(self).segments@.len() == old(self).segments@.len() ==> !final(self).active().is_closed)
                    &&& (spec_append_batch(old(self), messages.deep_view(), attributes) matches Ok(
                        b,
                    ) && (final(self).segments@.len() == old(self).segments@.len() + 1 <==> old(
                        self,
                    ).active().current_size_bytes + crate::storage::spec_batch_size(b) >= old(
                        self,
                    ).max_segment_size))
                },
                Err(e) => final(self).inv() && final(self).segments@.len() == old(self).segments@.len() && ({
                    let code = spec_attr_code(attributes);
                    let enc = spec_append_batch(old(self), messages.deep_view(), attributes);
                    ||| (code > 1 && e == Error::InvalidCompressionAlgorithm(code) && *final(self)
                        == *old(self))
                    ||| (code <= 1 && e is InvalidCommand && *final(self) == *old(self) && (enc
                        == Err::<BatchV, Error>(Error::InvalidCommand) || (enc matches Ok(b) && old(
                        self,
                    ).active().current_size_bytes + crate::storage::spec_batch_size(b)
                        > u32::MAX)))
                    ||| (code <= 1 && e is IoError && (*final(self) == *old(self) || (enc
                        matches Ok(b) && final(self).current_offset == old(self).spec_base()
                        + messages@.len() - 1 && final(self).should_increment_offset == true
                        && final(self).active().unsaved_views() == old(
                        self,
                    ).active().unsaved_views().push(b))))
                }),
            },
            final(self).stream_id == old(self).stream_id,
            final(self).topic_id == old(self).topic_id,
            final(self).partition_id == old(self).partition_id,
            final(self).max_segment_size == old(self).max_segment_size,
            final(self).message_expiry_secs == old(self).message_expiry_secs,
    {
        let n = messages.len();
        let base: u64 = if self.should_increment_offset {
            self.current_offset + 1
        } else {
            self.current_offset
        };
        let ghost dv0 = messages.deep_view();
        let mut input = messages;
        let mut assigned_vec: Vec<Message> = Vec::new();
        let mut i: usize = 0;
        proof {
            assert(input.deep_view() =~= dv0.subrange(0, n as int));
            assert(assigned_vec.deep_view() =~= spec_assign_offsets(dv0, base).subrange(0, 0));
        }
        while i < n
            invariant
                i <= n,
                n == dv0.len(),
                i + input@.len() == n,
                base + n <= u64::MAX,
                forall|k: int| 0 <= k < n ==> msg_wf(#[trigger] dv0[k]),
                input.deep_view() == dv0.subrange(i as int, n as int),
                assigned_vec.deep_view() == spec_assign_offsets(dv0, base).subrange(0, i as int),
            decreases n - i,
        {
            let ghost in_before = input.deep_view();
            let ghost out_before = assigned_vec.deep_view();
            let mut m = input.remove(0);
            proof {
                assert(m@ == in_before[0]);
                assert(in_before[0] == dv0[i as int]);
            }
            m.offset = base + i as u64;
            proof {
                assert(m@ =~= spec_assign_offsets(dv0, base)[i as int]);
            }
            assigned_vec.push(m);
            i = i + 1;
            proof {
                assert(input.deep_view() =~= in_before.subrange(1, in_before.len() as int));
                assert(input.deep_view() =~= dv0.subrange(i as int, n as int));
                assert(assigned_vec.deep_view() =~= out_before.push(
                    spec_assign_offsets(dv0, base)[i - 1],
                ));
                assert(out_before.push(spec_assign_offsets(dv0, base)[i - 1])
                    =~= spec_assign_offsets(dv0, base).subrange(0, i as int));
            }
        }
        let messages = assigned_vec;
        let ghost assigned = messages.deep_view();
        proof {
            assert(spec_assign_offsets(dv0, base).subrange(0, n as int) =~= spec_assign_offsets(
                dv0,
                base,
            ));
            assert(assigned =~= spec_assign_offsets(dv0, base));
            assert forall|k: int| 0 <= k < assigned.len() implies msg_wf(
                #[trigger] assigned[k],
            ) by {
                assert(msg_wf(dv0[k]));
            }
            lemma_assign_offsets_bytes(dv0, base);
        }
        let last_offset: u64 = base + (n - 1) as u64;
        let batch = match MessagesBatch::messages_to_batch(
            base,
            (n - 1) as u32,
            attributes,
            messages,
        ) {
            Ok(b) => b,
            Err(e) => {
                return Err(e);
            },
        };
        let active_index = self.segments.len() - 1;
        let fits = {
            let seg = &self.segments[active_index];
            batch.messages.len() as u64 <= (u32::MAX - 17) as u64 && seg.current_size_bytes as u64
                + 17 + batch.messages.len() as u64 <= u32::MAX as u64
        };
        if !fits {
            return Err(Error::InvalidCommand);
        }
        let ghost bview = batch@;
        let ghost segs_before = self.segments@;
        proof {
            lemma_batches_size_lower(segs_before[active_index as int].unsaved_views());
        }
        let seg = &mut self.segments[active_index];
        match seg.append_messages(batch, last_offset) {
            Ok(()) => {},
            Err(e) => {
                proof {
                    assert(false);
                }
                return Err(e);
            },
        }
        proof {
            crate::storage::lemma_batches_size_push(
                segs_before[active_index as int].unsaved_views(),
                bview,
            );
        }
        self.current_offset = last_offset;
        self.should_increment_offset = true;
        let ghost segs_mid = self.segments@;
        let seg2 = &mut self.segments[active_index];
        match seg2.persist_messages(storage) {
            Ok(()) => {},
            Err(e) => {
                proof {
                    vstd::bytes::lemma_auto_spec_u32_to_from_le_bytes();
                    assert(forall|k: int|
                        0 <= k < self.segments@.len() && k != active_index as int
                            ==> #[trigger] self.segments@[k] == segs_before[k]);
                    assert forall|k: int|
                        0 <= k < self.segments@.len() implies (
                    #[trigger] self.segments@[k]).inv() by {
                        if k != active_index as int {
                            assert(self.segments@[k] == segs_before[k]);
                        }
                    }
                    assert forall|i2: int, j2: int|
                        0 <= i2 < j2 < self.segments@.len() implies (
                    #[trigger] self.segments@[i2]).start_offset < (
                    #[trigger] self.segments@[j2]).start_offset by {
                        if i2 != active_index as int {
                            assert(self.segments@[i2] == segs_before[i2]);
                        }
                        if j2 != active_index as int {
                            assert(self.segments@[j2] == segs_before[j2]);
                        }
                    }
                }
                return Err(e);
            },
        }
        let rolled = self.segments[active_index].is_closed;
        if rolled {
            let fresh = Segment::create(
                self.stream_id,
                self.topic_id,
                self.partition_id,
                self.current_offset + 1,
                self.max_segment_size,
                self.message_expiry_secs,
            );
            self.segments.push(fresh);
        }
        proof {
            vstd::bytes::lemma_auto_spec_u32_to_from_le_bytes();
            assert(forall|k: int|
                0 <= k < segs_before.len() && k != active_index as int
                    ==> #[trigger] self.segments@[k] == segs_before[k]);
            assert forall|k: int|
                0 <= k < self.segments@.len() implies (#[trigger] self.segments@[k]).inv() by {
                if k < active_index as int {
                    assert(self.segments@[k] == segs_before[k]);
                }
            }
            assert forall|i2: int, j2: int|
                0 <= i2 < j2 < self.segments@.len() implies (
            #[trigger] self.segments@[i2]).start_offset < (
            #[trigger] self.segments@[j2]).start_offset by {
                if i2 < active_index as int {
                    assert(self.segments@[i2] == segs_before[i2]);
                }
                if j2 < active_index as int {
                    assert(self.segments@[j2] == segs_before[j2]);
                }
            }
        }
        Ok(())
    }
}

/// Assigning offsets does not change the total encoded size: every field
/// but the offset is kept, and the offset field has a fixed width.
pub proof fn lemma_assign_offsets_bytes(ms: Seq<MessageV>, base: u64)
    requires
        base + ms.len() <= u64::MAX + 1,
    ensures
        spec_messages_bytes(spec_assign_offsets(ms, base)).len() == spec_messages_bytes(ms).len(),
    decreases ms.len(),
{
    let a = spec_assign_offsets(ms, base);
    if ms.len() == 0 {
        assert(a =~= Seq::<MessageV>::empty());
    } else {
        crate::message::lemma_message_bytes_len(ms[0]);
        crate::message::lemma_message_bytes_len(a[0]);
        assert(a[0].headers == ms[0].headers && a[0].payload == ms[0].payload);
        let tail = spec_assign_offsets(ms.drop_first(), (base + 1) as u64);
        assert(a.drop_first() =~= tail);
        lemma_assign_offsets_bytes(ms.drop_first(), (base + 1) as u64);
    }
}


/// The first segment whose offset span covers `offset`: its start is at or
/// before `offset`, and `offset` is at or before its end (when closed) or
/// its current offset (while active).
pub open spec fn spec_first_covering(segs: Seq<Segment>, offset: u64) -> Option<int>
    decreases segs.len(),
{
    if segs.len() == 0 {
        None
    } else if segs[0].start_offset <= offset && offset <= (if segs[0].is_closed {
        segs[0].end_offset
    } else {
        segs[0].current_offset
    }) {
        Some(0int)
    } else {
        match spec_first_covering(segs.drop_first(), offset) {
            Some(i) => Some(i + 1),
            None => None,
        }
    }
}

/// The position characterization of `spec_first_covering`.
pub proof fn lemma_first_covering_at(segs: Seq<Segment>, offset: u64, i: int)
    requires
        0 <= i < segs.len(),
        segs[i].start_offset <= offset,
        offset <= (if segs[i].is_closed {
            segs[i].end_offset
        } else {
            segs[i].current_offset
        }),
        forall|j: int|
            0 <= j < i ==> !((#[trigger] segs[j]).start_offset <= offset && offset <= (if segs[j].is_closed {
                segs[j].end_offset
            } else {
                segs[j].current_offset
            })),
    ensures
        spec_first_covering(segs, offset) == Some(i),
    decreases segs.len(),
{
    if i > 0 {
        let t = segs.drop_first();
        assert(t[i - 1] == segs[i]);
        assert(forall|j: int| 0 <= j < i - 1 ==> #[trigger] t[j] == segs[j + 1]);
        lemma_first_covering_at(t, offset, i - 1);
    }
}

/// No segment covers `offset`.
pub proof fn lemma_first_covering_none(segs: Seq<Segment>, offset: u64)
    requires
        forall|j: int|
            0 <= j < segs.len() ==> !((#[trigger] segs[j]).start_offset <= offset && offset <= (if segs[j].is_closed {
                segs[j].end_offset
            } else {
                segs[j].current_offset
            })),
    ensures
        spec_first_covering(segs, offset) is None,
    decreases segs.len(),
{
    if segs.len() > 0 {
        let t = segs.drop_first();
        assert(forall|j: int| 0 <= j < t.len() ==> #[trigger] t[j] == segs[j + 1]);
        lemma_first_covering_none(t, offset);
    }
}

/// What polling from segment `i` onward yields: read from
/// segment `i`; when fewer than `count` messages come back and a next
/// segment exists, continue into it from its start with the remaining
/// count.
pub open spec fn spec_poll_from<S: SegmentStorage>(
    segs: Seq<Segment>,
    storage: &S,
    i: int,
    offset: u64,
    count: u32,
) -> Result<Seq<MessageV>, Error>
    decreases segs.len() - i,
{
    if i < 0 || i >= segs.len() || count == 0 {
        Ok(Seq::empty())
    } else {
        let seg = segs[i];
        match spec_get_messages(&seg, storage, offset, count) {
            Err(e) => Err(e),
            Ok(ms) => if ms.len() >= count {
                Ok(ms)
            } else if i + 1 >= segs.len() {
                Ok(ms)
            } else {
                match spec_poll_from(
                    segs,
                    storage,
                    i + 1,
                    segs[i + 1].start_offset,
                    (count - ms.len()) as u32,
                ) {
                    Err(e) => Err(e),
                    Ok(rest) => Ok(ms + rest),
                }
            },
        }
    }
}

/// What polling a partition yields: nothing when no segment covers the
/// requested offset, otherwise a read starting at the covering segment.
pub open spec fn spec_poll<S: SegmentStorage>(
    segs: Seq<Segment>,
    storage: &S,
    offset: u64,
    count: u32,
) -> Result<Seq<MessageV>, Error> {
    match spec_first_covering(segs, offset) {
        None => Ok(Seq::empty()),
        Some(i) => spec_poll_from(segs, storage, i, offset, count),
    }
}

impl Partition {
    /// Polls from segment `i` onward.
    fn poll_from<S: SegmentStorage>(&self, storage: &S, i: usize, offset: u64, count: u32) -> (r:
        Result<Vec<Message>, Error>)
        requires
            self.inv(),
            i <= self.segments@.len(),
            count > 0 ==> offset + count - 1 <= u64::MAX,
            count > 0 && i < self.segments@.len() ==> (if offset
                < self.segments@[i as int].start_offset {
                self.segments@[i as int].start_offset
            } else {
                offset
            }) + count - 1 <= u64::MAX && (if offset < self.segments@[i as int].start_offset {
                self.segments@[i as int].start_offset
            } else {
                offset
            }) + count - 1 - self.segments@[i as int].start_offset <= u32::MAX,
            forall|k: int|
                i < k < self.segments@.len() ==> (#[trigger] self.segments@[k]).start_offset + count
                    <= u64::MAX,
        ensures
            match r {
                Ok(ms) => spec_poll_from(self.segments@, storage, i as int, offset, count) == Ok::<
                    Seq<MessageV>,
                    Error,
                >(ms.deep_view()),
                Err(e) => spec_poll_from(self.segments@, storage, i as int, offset, count) == Err::<
                    Seq<MessageV>,
                    Error,
                >(e) || e is IoError,
            },
        decreases self.segments@.len() - i,
    {
        if i >= self.segments.len() || count == 0 {
            let empty: Vec<Message> = Vec::new();
            proof {
                assert(empty.deep_view() =~= Seq::<MessageV>::empty());
            }
            return Ok(empty);
        }
        let seg = &self.segments[i];
        let ms = match seg.get_messages(storage, offset, count) {
            Ok(ms) => ms,
            Err(e) => {
                return Err(e);
            },
        };
        if ms.len() >= count as usize {
            return Ok(ms);
        }
        if i + 1 >= self.segments.len() {
            return Ok(ms);
        }
        let next_offset = self.segments[i + 1].start_offset;
        let remaining = count - ms.len() as u32;
        let mut rest = match self.poll_from(storage, i + 1, next_offset, remaining) {
            Ok(rest) => rest,
            Err(e) => {
                return Err(e);
            },
        };
        let ghost ms_dv = ms.deep_view();
        let ghost rest_dv = rest.deep_view();
        let mut out = ms;
        out.append(&mut rest);
        proof {
            assert(out.deep_view() =~= ms_dv + rest_dv);
        }
        Ok(out)
    }

    /// Polls up to `count` messages starting at `offset`: reads from the
    /// first segment covering the offset and continues into subsequent
    /// segments until the count is met or the segments run out.
    pub fn poll_messages<S: SegmentStorage>(&self, storage: &S, offset: u64, count: u32) -> (r:
        Result<Vec<Message>, Error>)
        requires
            self.inv(),
            count > 0 ==> offset + count - 1 <= u64::MAX,
            forall|k: int|
                0 <= k < self.segments@.len() ==> (#[trigger] self.segments@[k]).start_offset
                    + count <= u64::MAX,
            count > 0 && offset >= self.segments@[0].start_offset ==> offset + count - 1
                - self.segments@[0].start_offset <= u32::MAX,
        ensures
            spec_first_covering(self.segments@, offset) is None ==> r is Ok,
            match r {
                Ok(ms) => spec_poll(self.segments@, storage, offset, count) == Ok::<
                    Seq<MessageV>,
                    Error,
                >(ms.deep_view()),
                Err(e) => spec_first_covering(self.segments@, offset) is Some && (spec_poll(
                    self.segments@,
                    storage,
                    offset,
                    count,
                ) == Err::<Seq<MessageV>, Error>(e) || e is IoError),
            },
    {
        let n = self.segments.len();
        let mut i: usize = 0;
        while i < n
            invariant
                i <= n,
                n == self.segments@.len(),
                self.inv(),
                count > 0 ==> offset + count - 1 <= u64::MAX,
                forall|k: int|
                    0 <= k < self.segments@.len() ==> (#[trigger] self.segments@[k]).start_offset
                        + count <= u64::MAX,
                count > 0 && offset >= self.segments@[0].start_offset ==> offset + count - 1
                    - self.segments@[0].start_offset <= u32::MAX,
                forall|j: int|
                    0 <= j < i ==> !((#[trigger] self.segments@[j]).start_offset <= offset && offset
                        <= (if self.segments@[j].is_closed {
                        self.segments@[j].end_offset
                    } else {
                        self.segments@[j].current_offset
                    })),
            decreases n - i,
        {
            let seg = &self.segments[i];
            let upper = if seg.is_closed {
                seg.end_offset
            } else {
                seg.current_offset
            };
            if seg.start_offset <= offset && offset <= upper {
                proof {
                    lemma_first_covering_at(self.segments@, offset, i as int);
                    if i > 0 {
                        assert(self.segments@[0].start_offset < self.segments@[i as int].start_offset);
                    }
                    assert(offset >= self.segments@[0].start_offset);
                }
                return self.poll_from(storage, i, offset, count);
            }
            i = i + 1;
        }
        proof {
            lemma_first_covering_none(self.segments@, offset);
        }
        let empty: Vec<Message> = Vec::new();
        proof {
            assert(empty.deep_view() =~= Seq::<MessageV>::empty());
        }
        Ok(empty)
    }

    /// Deletes every segment's files and resets the partition to a fresh
    /// active segment at offset zero: all messages are gone, the partition
    /// itself stays.
    pub fn purge<S: SegmentStorage>(&mut self, storage: &mut S) -> (r: Result<(), Error>)
        requires
            old(self).inv(),
        ensures
            final(self).inv(),
            final(self).stream_id == old(self).stream_id,
            final(self).topic_id == old(self).topic_id,
            final(self).partition_id == old(self).partition_id,
            final(self).max_segment_size == old(self).max_segment_size,
            final(self).message_expiry_secs == old(self).message_expiry_secs,
            match r {
                Ok(()) => final(self).current_offset == 0 && final(self).should_increment_offset
                    == false && final(self).segments@.len() == 1 && (forall|k: int|
                    0 <= k < old(self).segments@.len() ==> final(storage).batches(
                        (#[trigger] old(self).segments@[k]).key(),
                    ) == Seq::<BatchV>::empty() && final(storage).index_bytes(
                        old(self).segments@[k].key(),
                    ) == Seq::<u8>::empty()),
                Err(e) => e is IoError && *final(self) == *old(self),
            },
    {
        let n = self.segments.len();
        let mut k: usize = 0;
        while k < n
            invariant
                k <= n,
                n == self.segments@.len(),
                self == old(self),
                self.inv(),
                forall|j: int|
                    0 <= j < k ==> storage.batches((#[trigger] self.segments@[j]).key())
                        == Seq::<BatchV>::empty() && storage.index_bytes(self.segments@[j].key())
                        == Seq::<u8>::empty(),
            decreases n - k,
        {
            let ghost pre = *storage;
            match storage.delete_segment(self.segments[k].storage_key()) {
                Ok(()) => {},
                Err(e) => {
                    return Err(e);
                },
            }
            k = k + 1;
            proof {
                assert forall|j: int|
                    0 <= j < k implies storage.batches((#[trigger] self.segments@[j]).key())
                    == Seq::<BatchV>::empty() && storage.index_bytes(self.segments@[j].key())
                    == Seq::<u8>::empty() by {
                    if j < k - 1 {
                        assert(self.segments@[j].start_offset
                            < self.segments@[k - 1].start_offset);
                        assert(self.segments@[j].key() != self.segments@[k - 1].key());
                        assert(storage.batches(self.segments@[j].key()) == pre.batches(
                            self.segments@[j].key(),
                        ));
                        assert(storage.index_bytes(self.segments@[j].key()) == pre.index_bytes(
                            self.segments@[j].key(),
                        ));
                    }
                }
            }
        }
        let fresh = Segment::create(
            self.stream_id,
            self.topic_id,
            self.partition_id,
            0,
            self.max_segment_size,
            self.message_expiry_secs,
        );
        let mut segments: Vec<Segment> = Vec::new();
        segments.push(fresh);
        self.segments = segments;
        self.current_offset = 0;
        self.should_increment_offset = false;
        Ok(())
    }
}

/// Sum of a list of per-append message counts.
pub open spec fn spec_total(counts: Seq<int>) -> int
    decreases counts.len(),
{
    if counts.len() == 0 {
        0int
    } else {
        spec_total(counts.drop_last()) + counts.last()
    }
}

/// Prefix sums of positive counts grow monotonically.
pub proof fn lemma_prefix_total_mono(counts: Seq<int>, i: int, j: int)
    requires
        forall|k: int| 0 <= k < counts.len() ==> counts[k] >= 1,
        0 <= i <= j <= counts.len(),
    ensures
        spec_total(counts.subrange(0, i)) <= spec_total(counts.subrange(0, j)),
        spec_total(counts.subrange(0, i)) + (j - i) <= spec_total(counts.subrange(0, j)),
    decreases j - i,
{
    if i < j {
        lemma_prefix_total_mono(counts, i, j - 1);
        assert(counts.subrange(0, j).drop_last() =~= counts.subrange(0, j - 1));
        assert(counts.subrange(0, j).last() == counts[j - 1]);
    }
}

/// The offset contiguity of the append path: each append with a positive
/// message count takes the next block of offsets, so every offset between
/// the first assigned and the last assigned belongs to exactly one append,
/// with no gaps and no duplicates.
pub proof fn lemma_offsets_contiguous(base: int, counts: Seq<int>, o: int)
    requires
        forall|k: int| 0 <= k < counts.len() ==> counts[k] >= 1,
    ensures
        (base <= o < base + spec_total(counts)) <==> (exists|k: int|
            0 <= k < counts.len() && base + spec_total(counts.subrange(0, k)) <= o < base
                + spec_total(#[trigger] counts.subrange(0, k + 1))),
        forall|k1: int, k2: int|
            (0 <= k1 < counts.len() && base + spec_total(counts.subrange(0, k1)) <= o < base
                + spec_total(#[trigger] counts.subrange(0, k1 + 1)) && 0 <= k2 < counts.len()
                && base + spec_total(counts.subrange(0, k2)) <= o < base + spec_total(
                #[trigger] counts.subrange(0, k2 + 1),
            )) ==> k1 == k2,
    decreases counts.len(),
{
    let n = counts.len() as int;
    if n > 0 {
        let p = counts.drop_last();
        assert(forall|k: int| 0 <= k < p.len() ==> #[trigger] p[k] == counts[k]);
        lemma_offsets_contiguous(base, p, o);
        assert(counts.subrange(0, n) =~= counts);
        assert(counts.subrange(0, n - 1) =~= p);
        assert(forall|k: int|
            0 <= k <= p.len() ==> #[trigger] p.subrange(0, k) =~= counts.subrange(0, k));
        if base <= o < base + spec_total(counts) {
            if o < base + spec_total(p) {
                assert(base <= o < base + spec_total(p));
                let k = choose|k: int|
                    0 <= k < p.len() && base + spec_total(p.subrange(0, k)) <= o < base
                        + spec_total(#[trigger] p.subrange(0, k + 1));
                assert(p.subrange(0, k) =~= counts.subrange(0, k));
                assert(p.subrange(0, k + 1) =~= counts.subrange(0, k + 1));
                assert(0 <= k < counts.len() && base + spec_total(counts.subrange(0, k)) <= o
                    < base + spec_total(#[trigger] counts.subrange(0, k + 1)));
            } else {
                let k = n - 1;
                assert(counts.subrange(0, k) =~= p);
                assert(0 <= k < counts.len() && base + spec_total(counts.subrange(0, k)) <= o
                    < base + spec_total(#[trigger] counts.subrange(0, k + 1)));
            }
        }
        assert forall|k: int|
            0 <= k < counts.len() && base + spec_total(counts.subrange(0, k)) <= o < base
                + spec_total(#[trigger] counts.subrange(0, k + 1)) implies base <= o < base
            + spec_total(counts) by {
            lemma_prefix_total_mono(counts, 0, k);
            lemma_prefix_total_mono(counts, k + 1, n);
            assert(counts.subrange(0, 0) =~= Seq::<int>::empty());
        }
        assert forall|k1: int, k2: int|
            (0 <= k1 < counts.len() && base + spec_total(counts.subrange(0, k1)) <= o < base
                + spec_total(#[trigger] counts.subrange(0, k1 + 1)) && 0 <= k2 < counts.len()
                && base + spec_total(counts.subrange(0, k2)) <= o < base + spec_total(
                #[trigger] counts.subrange(0, k2 + 1),
            )) implies k1 == k2 by {
            if k1 < k2 {
                lemma_prefix_total_mono(counts, k1 + 1, k2);
            }
            if k2 < k1 {
                lemma_prefix_total_mono(counts, k2 + 1, k1);
            }
        }
    }
}

} // verus!
