//! A named group of partitions sharing retention and size policy.
//!
//! A topic owns a fixed set of partitions, numbered 1 upward; it routes
//! appends and polls to the partition named in the request and propagates
//! policy updates downward to every partition and segment.

use crate::create_topic::MAX_PARTITIONS_COUNT;
use crate::error::Error;
use crate::message::{Message, MessageV};
use crate::partition::{spec_partition_size, spec_poll, Partition};
use crate::segment::Segment;
use crate::storage::SegmentStorage;
use vstd::prelude::*;

verus! {

/// One topic of a stream.
#[derive(Debug)]
pub struct Topic {
    /// The stream this topic belongs to.
    pub stream_id: u32,
    /// The topic's numeric id, unique inside its stream.
    pub topic_id: u32,
    /// The topic's normalized name, unique inside its stream.
    pub name: String,
    /// The partitions; partition `i + 1` lives at position `i`.
    pub partitions: Vec<Partition>,
    /// Message expiry in seconds; `None` means messages never expire.
    pub message_expiry_secs: Option<u32>,
    /// Maximum topic size in bytes; `None` means unlimited.
    pub max_topic_size_bytes: Option<u64>,
    /// Replication factor; carried, not enforced by the core.
    pub replication_factor: u8,
    /// Microseconds since the Unix epoch at creation.
    pub created_at: u64,
    /// The segment size cap handed down to every partition.
    pub max_segment_size: u32,
}

impl Topic {
    /// Internal consistency: partition `i + 1` sits at position `i`, and
    /// every partition is consistent and carries this topic's identity,
    /// size cap and expiry.
    pub open spec fn inv(&self) -> bool {
        &&& (forall|k: int| 0 <= k < self.partitions@.len() ==> (#[trigger] self.partitions@[k]).inv())
        &&& (forall|k: int|
            0 <= k < self.partitions@.len() ==> (#[trigger] self.partitions@[k]).partition_id == k
                + 1)
        &&& (forall|k: int|
            0 <= k < self.partitions@.len() ==> (#[trigger] self.partitions@[k]).stream_id
                == self.stream_id)
        &&& (forall|k: int|
            0 <= k < self.partitions@.len() ==> (#[trigger] self.partitions@[k]).topic_id
                == self.topic_id)
        &&& (forall|k: int|
            0 <= k < self.partitions@.len() ==> (#[trigger] self.partitions@[k]).max_segment_size
                == self.max_segment_size)
        &&& (forall|k: int|
            0 <= k < self.partitions@.len() ==> (#[trigger] self.partitions@[k]).message_expiry_secs
                == self.message_expiry_secs)
        &&& self.partitions@.len() <= MAX_PARTITIONS_COUNT
    }

    /// Builds a topic with `partitions_count` fresh partitions. Fails with
    /// `TooManyPartitions` past the partition cap, and rejects a size cap
    /// smaller than the segment size. A zero expiry or size cap means
    /// "unset".
    pub fn create(
        stream_id: u32,
        topic_id: u32,
        name: String,
        partitions_count: u32,
        max_segment_size: u32,
        message_expiry_secs: Option<u32>,
        max_topic_size_bytes: Option<u64>,
        replication_factor: u8,
        created_at: u64,
    ) -> (r: Result<Topic, Error>)
        ensures
            ({
                let expiry = crate::wire::code_opt_u32(
                    crate::wire::opt_u32_code(message_expiry_secs),
                );
                let max_size = crate::wire::code_opt_u64(
                    crate::wire::opt_u64_code(max_topic_size_bytes),
                );
                match r {
                    Ok(t) => {
                        &&& partitions_count <= MAX_PARTITIONS_COUNT
                        &&& (max_size matches Some(s) ==> s >= max_segment_size)
                        &&& t.inv()
                        &&& t.stream_id == stream_id
                        &&& t.topic_id == topic_id
                        &&& t.name@ == name@
                        &&& t.partitions@.len() == partitions_count
                        &&& (forall|k: int|
                            0 <= k < partitions_count ==> (#[trigger] t.partitions@[k]).segments@.len()
                                == 1 && t.partitions@[k].current_offset == 0
                                && t.partitions@[k].should_increment_offset == false
                                && t.partitions@[k].active().current_size_bytes == 0
                                && t.partitions@[k].active().start_offset == 0)
                        &&& t.message_expiry_secs == expiry
                        &&& t.max_topic_size_bytes == max_size
                        &&& t.replication_factor == replication_factor
                        &&& t.created_at == created_at
                        &&& t.max_segment_size == max_segment_size
                    },
                    Err(e) => (partitions_count > MAX_PARTITIONS_COUNT && e
                        is TooManyPartitions) || (partitions_count <= MAX_PARTITIONS_COUNT && (
                    max_size matches Some(s) && s < max_segment_size) && e is InvalidCommand),
                }
            }),
    {
        if partitions_count > MAX_PARTITIONS_COUNT {
            return Err(Error::TooManyPartitions);
        }
        let message_expiry_secs = crate::wire::u32_opt(
            crate::wire::opt_u32_value(&message_expiry_secs),
        );
        let max_topic_size_bytes = crate::wire::u64_opt(
            crate::wire::opt_u64_value(&max_topic_size_bytes),
        );
        match max_topic_size_bytes {
            Some(s) => {
                if s < max_segment_size as u64 {
                    return Err(Error::InvalidCommand);
                }
            },
            None => {},
        }
        let mut partitions: Vec<Partition> = Vec::new();
        let mut i: u32 = 0;
        while i < partitions_count
            invariant
                i <= partitions_count,
                partitions@.len() == i,
                forall|k: int| 0 <= k < i ==> (#[trigger] partitions@[k]).inv(),
                forall|k: int| 0 <= k < i ==> (#[trigger] partitions@[k]).partition_id == k + 1,
                forall|k: int| 0 <= k < i ==> (#[trigger] partitions@[k]).stream_id == stream_id,
                forall|k: int| 0 <= k < i ==> (#[trigger] partitions@[k]).topic_id == topic_id,
                forall|k: int|
                    0 <= k < i ==> (#[trigger] partitions@[k]).max_segment_size == max_segment_size,
                forall|k: int|
                    0 <= k < i ==> (#[trigger] partitions@[k]).message_expiry_secs
                        == message_expiry_secs,
                forall|k: int|
                    0 <= k < i ==> (#[trigger] partitions@[k]).segments@.len() == 1
                        && partitions@[k].current_offset == 0
                        && partitions@[k].should_increment_offset == false
                        && partitions@[k].active().current_size_bytes == 0
                        && partitions@[k].active().start_offset == 0,
            decreases partitions_count - i,
        {
            let p = Partition::create(
                stream_id,
                topic_id,
                i + 1,
                max_segment_size,
                message_expiry_secs,
            );
            partitions.push(p);
            i = i + 1;
        }
        Ok(
            Topic {
                stream_id,
                topic_id,
                name,
                partitions,
                message_expiry_secs,
                max_topic_size_bytes,
                replication_factor,
                created_at,
                max_segment_size,
            },
        )
    }

    /// Builds an empty topic: no partitions, no name, default policy.
    pub fn empty(stream_id: u32, topic_id: u32, max_segment_size: u32, created_at: u64) -> (r:
        Topic)
        ensures
            r.inv(),
            r.stream_id == stream_id,
            r.topic_id == topic_id,
            r.partitions@.len() == 0,
            r.name@ == Seq::<char>::empty(),
    {
        match Topic::create(
            stream_id,
            topic_id,
            String::new(),
            0,
            max_segment_size,
            None,
            None,
            1,
            created_at,
        ) {
            Ok(t) => t,
            Err(_) => {
                proof {
                    assert(false);
                }
                Topic {
                    stream_id,
                    topic_id,
                    name: String::new(),
                    partitions: Vec::new(),
                    message_expiry_secs: None,
                    max_topic_size_bytes: None,
                    replication_factor: 1,
                    created_at,
                    max_segment_size,
                }
            },
        }
    }

    /// Total bytes across the topic's partitions.
    pub fn get_size_bytes(&self) -> (r: u64)
        requires
            self.inv(),
            self.partitions@.len() * 0x2_0000_0000_0000 <= u64::MAX,
            forall|k: int|
                0 <= k < self.partitions@.len() ==> (#[trigger] self.partitions@[k]).segments@.len()
                    * 0x1_0000_0000 <= 0x2_0000_0000_0000,
        ensures
            r == spec_topic_size(self.partitions@),
    {
        let mut total: u64 = 0;
        let mut k: usize = 0;
        proof {
            assert(self.partitions@.subrange(0, 0) =~= Seq::<Partition>::empty());
        }
        while k < self.partitions.len()
            invariant
                k <= self.partitions@.len(),
                self.inv(),
                self.partitions@.len() * 0x2_0000_0000_0000 <= u64::MAX,
                forall|j: int|
                    0 <= j < self.partitions@.len() ==> (#[trigger] self.partitions@[j]).segments@.len()
                        * 0x1_0000_0000 <= 0x2_0000_0000_0000,
                total == spec_topic_size(self.partitions@.subrange(0, k as int)),
                total <= k * 0x2_0000_0000_0000,
            decreases self.partitions@.len() - k,
        {
            proof {
                assert(self.partitions@.subrange(0, k + 1).drop_last()
                    =~= self.partitions@.subrange(0, k as int));
                assert(self.partitions@.subrange(0, k + 1).last() == self.partitions@[k as int]);
                assert((k + 1) * 0x2_0000_0000_0000 == k * 0x2_0000_0000_0000
                    + 0x2_0000_0000_0000);
                assert(k * 0x2_0000_0000_0000 <= self.partitions@.len() * 0x2_0000_0000_0000) by (
                nonlinear_arith)
                    requires
                        0 <= k < self.partitions@.len(),
                ;
                crate::partition::lemma_partition_size_bounds(self.partitions@[k as int].segments@);
            }
            let sz = self.partitions[k].get_size_bytes();
            total = total + sz;
            k = k + 1;
        }
        proof {
            assert(self.partitions@.subrange(0, self.partitions@.len() as int)
                =~= self.partitions@);
        }
        total
    }

    /// Total messages across the topic's partitions.
    pub fn get_messages_count(&self) -> (r: u64)
        requires
            self.inv(),
            self.partitions@.len() * 0x2_0000_0000_0000 <= u64::MAX,
            forall|k: int|
                0 <= k < self.partitions@.len() ==> (#[trigger] self.partitions@[k]).current_offset
                    < 0x2_0000_0000_0000,
        ensures
            r == spec_topic_messages_count(self.partitions@),
    {
        let mut total: u64 = 0;
        let mut k: usize = 0;
        proof {
            assert(self.partitions@.subrange(0, 0) =~= Seq::<Partition>::empty());
        }
        while k < self.partitions.len()
            invariant
                k <= self.partitions@.len(),
                self.inv(),
                self.partitions@.len() * 0x2_0000_0000_0000 <= u64::MAX,
                forall|j: int|
                    0 <= j < self.partitions@.len() ==> (
                    #[trigger] self.partitions@[j]).current_offset < 0x2_0000_0000_0000,
                total == spec_topic_messages_count(self.partitions@.subrange(0, k as int)),
                total <= k * 0x2_0000_0000_0001,
            decreases self.partitions@.len() - k,
        {
            proof {
                assert(self.partitions@.subrange(0, k + 1).drop_last()
                    =~= self.partitions@.subrange(0, k as int));
                assert(self.partitions@.subrange(0, k + 1).last() == self.partitions@[k as int]);
                assert((k + 1) * 0x2_0000_0000_0001 == k * 0x2_0000_0000_0001
                    + 0x2_0000_0000_0001);
                assert(k * 0x2_0000_0000_0001 <= self.partitions@.len() * 0x2_0000_0000_0001) by (
                nonlinear_arith)
                    requires
                        0 <= k < self.partitions@.len(),
                ;
                assert(self.partitions@.len() * 0x2_0000_0000_0001 <= u64::MAX + 0x2_0000_0000_0001)
                    by (nonlinear_arith)
                    requires
                        self.partitions@.len() * 0x2_0000_0000_0000 <= u64::MAX,
                ;
            }
            let c = self.partitions[k].get_messages_count();
            total = total + c;
            k = k + 1;
        }
        proof {
            assert(self.partitions@.subrange(0, self.partitions@.len() as int)
                =~= self.partitions@);
        }
        total
    }

    /// The partitions themselves.
    pub fn get_partitions(&self) -> (r: &Vec<Partition>)
        ensures
            r == &self.partitions,
    {
        &self.partitions
    }

    /// The partition with the given id; partition ids start at 1.
    pub fn get_partition(&self, partition_id: u32) -> (r: Result<&Partition, Error>)
        requires
            self.inv(),
        ensures
            match r {
                Ok(p) => 1 <= partition_id <= self.partitions@.len() && *p == self.partitions@[
                    partition_id - 1
                ] && p.partition_id == partition_id,
                Err(e) => !(1 <= partition_id <= self.partitions@.len()) && e
                    == Error::PartitionNotFound(partition_id, self.topic_id, self.stream_id),
            },
    {
        if partition_id >= 1 && (partition_id as usize) <= self.partitions.len() {
            Ok(&self.partitions[(partition_id - 1) as usize])
        } else {
            Err(Error::PartitionNotFound(partition_id, self.topic_id, self.stream_id))
        }
    }

    /// Routes an append to the partition with the given id.
    pub fn append_messages<S: SegmentStorage>(
        &mut self,
        storage: &mut S,
        partition_id: u32,
        messages: Vec<Message>,
        attributes: u8,
    ) -> (r: Result<(), Error>)
        requires
            old(self).inv(),
            messages@.len() >= 1,
            messages@.len() <= u32::MAX,
            forall|i: int|
                0 <= i < messages.deep_view().len() ==> crate::message::msg_wf(
                    #[trigger] messages.deep_view()[i],
                ),
            crate::message::spec_messages_bytes(messages.deep_view()).len() <= usize::MAX,
            1 <= partition_id <= old(self).partitions@.len() ==> ({
                let p = old(self).partitions@[partition_id - 1];
                p.spec_base() + messages@.len() <= u64::MAX && p.spec_base() + messages@.len() - 1
                    - p.active().start_offset <= u32::MAX
            }),
        ensures
            final(self).inv(),
            final(self).partitions@.len() == old(self).partitions@.len(),
            final(self).stream_id == old(self).stream_id,
            final(self).topic_id == old(self).topic_id,
            final(self).name == old(self).name,
            match r {
                Ok(()) => 1 <= partition_id <= old(self).partitions@.len() && ({
                    let p = old(self).partitions@[partition_id - 1];
                    let q = final(self).partitions@[partition_id - 1];
                    &&& q.current_offset == p.spec_base() + messages@.len() - 1
                    &&& q.should_increment_offset == true
                }) && (forall|k: int|
                    0 <= k < old(self).partitions@.len() && k != partition_id - 1
                        ==> #[trigger] final(self).partitions@[k] == old(self).partitions@[k]),
                Err(e) => (!(1 <= partition_id <= old(self).partitions@.len()) ==> e
                    == Error::PartitionNotFound(
                    partition_id,
                    old(self).topic_id,
                    old(self).stream_id,
                )) && (1 <= partition_id <= old(self).partitions@.len()
                    ==> crate::partition::spec_append_err(
                    old(self).partitions@[partition_id - 1],
                    messages.deep_view(),
                    attributes,
                    e,
                )),
            },
    {
        if !(partition_id >= 1 && (partition_id as usize) <= self.partitions.len()) {
            return Err(Error::PartitionNotFound(partition_id, self.topic_id, self.stream_id));
        }
        let idx = (partition_id - 1) as usize;
        let ghost before = self.partitions@;
        let part = &mut self.partitions[idx];
        let res = part.append_messages(storage, messages, attributes);
        proof {
            assert(forall|k: int|
                0 <= k < self.partitions@.len() && k != idx as int
                    ==> #[trigger] self.partitions@[k] == before[k]);
            assert forall|k: int|
                0 <= k < self.partitions@.len() implies (#[trigger] self.partitions@[k]).inv() by {
                if k != idx as int {
                    assert(self.partitions@[k] == before[k]);
                }
            }
        }
        res
    }

    /// Routes a poll to the partition with the given id.
    pub fn poll_messages<S: SegmentStorage>(
        &self,
        storage: &S,
        partition_id: u32,
        offset: u64,
        count: u32,
    ) -> (r: Result<Vec<Message>, Error>)
        requires
            self.inv(),
            count > 0 ==> offset + count - 1 <= u64::MAX,
            1 <= partition_id <= self.partitions@.len() ==> ({
                let p = self.partitions@[partition_id - 1];
                (forall|k: int|
                    0 <= k < p.segments@.len() ==> (#[trigger] p.segments@[k]).start_offset + count
                        <= u64::MAX) && (count > 0 && offset >= p.segments@[0].start_offset
                    ==> offset + count - 1 - p.segments@[0].start_offset <= u32::MAX)
            }),
        ensures
            match r {
                Ok(ms) => 1 <= partition_id <= self.partitions@.len() && spec_poll(
                    self.partitions@[partition_id - 1].segments@,
                    storage,
                    offset,
                    count,
                ) == Ok::<Seq<MessageV>, Error>(ms.deep_view()),
                Err(e) => (!(1 <= partition_id <= self.partitions@.len()) && e
                    == Error::PartitionNotFound(partition_id, self.topic_id, self.stream_id)) || (1
                    <= partition_id <= self.partitions@.len()
                    && crate::partition::spec_first_covering(
                    self.partitions@[partition_id - 1].segments@,
                    offset,
                ) is Some && (spec_poll(
                    self.partitions@[partition_id - 1].segments@,
                    storage,
                    offset,
                    count,
                ) == Err::<Seq<MessageV>, Error>(e) || e is IoError)),
            },
    {
        if !(partition_id >= 1 && (partition_id as usize) <= self.partitions.len()) {
            return Err(Error::PartitionNotFound(partition_id, self.topic_id, self.stream_id));
        }
        let part = &self.partitions[(partition_id - 1) as usize];
        part.poll_messages(storage, offset, count)
    }

    /// Renames the topic and resets its policy, propagating the new expiry
    /// downward to every partition and every segment, so read-time expiry
    /// checks see the new value.
    pub fn update(
        &mut self,
        name: String,
        message_expiry_secs: Option<u32>,
        max_topic_size_bytes: Option<u64>,
        replication_factor: u8,
    )
        requires
            old(self).inv(),
        ensures
            final(self).inv(),
            final(self).name == name,
            final(self).message_expiry_secs == message_expiry_secs,
            final(self).max_topic_size_bytes == max_topic_size_bytes,
            final(self).replication_factor == replication_factor,
            final(self).stream_id == old(self).stream_id,
            final(self).topic_id == old(self).topic_id,
            final(self).created_at == old(self).created_at,
            final(self).max_segment_size == old(self).max_segment_size,
            final(self).partitions@.len() == old(self).partitions@.len(),
            forall|k: int|
                0 <= k < old(self).partitions@.len() ==> (#[trigger] final(self).partitions@[k]).message_expiry_secs
                    == message_expiry_secs,
            forall|k: int, s: int|
                0 <= k < old(self).partitions@.len() && 0 <= s < old(self).partitions@[k].segments@.len()
                    ==> (#[trigger] final(self).partitions@[k].segments@[s]).message_expiry_secs
                    == message_expiry_secs,
            forall|k: int|
                0 <= k < old(self).partitions@.len() ==> (#[trigger] final(self).partitions@[k]).current_offset
                    == old(self).partitions@[k].current_offset,
    {
        self.name = name;
        self.message_expiry_secs = message_expiry_secs;
        self.max_topic_size_bytes = max_topic_size_bytes;
        self.replication_factor = replication_factor;
        let ghost before = self.partitions@;
        let n = self.partitions.len();
        let mut k: usize = 0;
        while k < n
            invariant
                k <= n,
                n == self.partitions@.len(),
                n == before.len(),
                self.name == name,
                self.message_expiry_secs == message_expiry_secs,
                self.max_topic_size_bytes == max_topic_size_bytes,
                self.replication_factor == replication_factor,
                self.stream_id == old(self).stream_id,
                self.topic_id == old(self).topic_id,
                self.created_at == old(self).created_at,
                self.max_segment_size == old(self).max_segment_size,
                forall|j: int| k <= j < n ==> #[trigger] self.partitions@[j] == before[j],
                forall|j: int| 0 <= j < n ==> (#[trigger] before[j]).inv(),
                forall|j: int|
                    0 <= j < k ==> #[trigger] self.partitions@[j] == (Partition {
                        message_expiry_secs: message_expiry_secs,
                        segments: self.partitions@[j].segments,
                        ..before[j]
                    }),
                forall|j: int|
                    0 <= j < k ==> (#[trigger] self.partitions@[j]).segments@.len()
                        == before[j].segments@.len(),
                forall|j: int, s: int|
                    0 <= j < k && 0 <= s < before[j].segments@.len()
                        ==> #[trigger] self.partitions@[j].segments@[s] == (Segment {
                        message_expiry_secs: message_expiry_secs,
                        ..before[j].segments@[s]
                    }),
            decreases n - k,
        {
            let ghost part_before = self.partitions@;
            let part = &mut self.partitions[k];
            part.message_expiry_secs = message_expiry_secs;
            let ghost segs_before = part.segments@;
            let m = part.segments.len();
            let mut s: usize = 0;
            while s < m
                invariant
                    s <= m,
                    m == part.segments@.len(),
                    m == segs_before.len(),
                    k < n,
                    n == before.len(),
                    *part == (Partition {
                        message_expiry_secs: message_expiry_secs,
                        segments: part.segments,
                        ..before[k as int]
                    }),
                    forall|t: int| s <= t < m ==> #[trigger] part.segments@[t] == segs_before[t],
                    forall|t: int|
                        0 <= t < s ==> #[trigger] part.segments@[t] == (Segment {
                            message_expiry_secs: message_expiry_secs,
                            ..segs_before[t]
                        }),
                decreases m - s,
            {
                let seg = &mut part.segments[s];
                seg.message_expiry_secs = message_expiry_secs;
                s = s + 1;
            }
            k = k + 1;
            proof {
                assert(forall|j: int|
                    0 <= j < n && j != k - 1 ==> #[trigger] self.partitions@[j] == part_before[j]);
                assert(self.partitions@[k - 1] == (Partition {
                    message_expiry_secs: message_expiry_secs,
                    segments: self.partitions@[k - 1].segments,
                    ..before[k - 1]
                }));
            }
        }
        proof {
            assert forall|j: int|
                0 <= j < n implies (#[trigger] self.partitions@[j]).inv() by {
                assert(before[j].inv());
                assert forall|t: int|
                    0 <= t < self.partitions@[j].segments@.len() implies (
                #[trigger] self.partitions@[j].segments@[t]).inv() by {
                    assert(before[j].segments@[t].inv());
                }
            }
        }
    }

    /// Deletes every partition's segment files. On success the topic's
    /// on-disk data is gone; the caller then drops the topic itself.
    pub fn delete<S: SegmentStorage>(&mut self, storage: &mut S) -> (r: Result<(), Error>)
        requires
            old(self).inv(),
        ensures
            final(self).inv(),
            *final(self) == *old(self),
            match r {
                Ok(()) => forall|k: int, s2: int|
                    0 <= k < old(self).partitions@.len() && 0 <= s2 < (
                    #[trigger] old(self).partitions@[k]).segments@.len() ==> final(storage).batches(
                        (#[trigger] old(self).partitions@[k].segments@[s2]).key(),
                    ) == Seq::<crate::batching::BatchV>::empty() && final(storage).index_bytes(
                        old(self).partitions@[k].segments@[s2].key(),
                    ) == Seq::<u8>::empty(),
                Err(e) => e is IoError,
            },
    {
        let n = self.partitions.len();
        let mut k: usize = 0;
        while k < n
            invariant
                k <= n,
                n == self.partitions@.len(),
                self == old(self),
                self.inv(),
                forall|k2: int, s2: int|
                    0 <= k2 < k && 0 <= s2 < (#[trigger] self.partitions@[k2]).segments@.len()
                        ==> storage.batches(
                        (#[trigger] self.partitions@[k2].segments@[s2]).key(),
                    ) == Seq::<crate::batching::BatchV>::empty() && storage.index_bytes(
                        self.partitions@[k2].segments@[s2].key(),
                    ) == Seq::<u8>::empty(),
            decreases n - k,
        {
            let part = &self.partitions[k];
            let m = part.segments.len();
            let mut s: usize = 0;
            while s < m
                invariant
                    s <= m,
                    k < n,
                    n == self.partitions@.len(),
                    m == part.segments@.len(),
                    part == &self.partitions[k as int],
                    self == old(self),
                    self.inv(),
                    forall|k2: int, s2: int|
                        0 <= k2 < k && 0 <= s2 < (#[trigger] self.partitions@[k2]).segments@.len()
                            ==> storage.batches(
                            (#[trigger] self.partitions@[k2].segments@[s2]).key(),
                        ) == Seq::<crate::batching::BatchV>::empty() && storage.index_bytes(
                            self.partitions@[k2].segments@[s2].key(),
                        ) == Seq::<u8>::empty(),
                    forall|s2: int|
                        0 <= s2 < s ==> storage.batches((#[trigger] part.segments@[s2]).key())
                            == Seq::<crate::batching::BatchV>::empty() && storage.index_bytes(
                            part.segments@[s2].key(),
                        ) == Seq::<u8>::empty(),
                decreases m - s,
            {
                let ghost pre = *storage;
                match storage.delete_segment(part.segments[s].storage_key()) {
                    Ok(()) => {},
                    Err(e) => {
                        return Err(e);
                    },
                }
                s = s + 1;
                proof {
                    assert forall|k2: int, s2: int|
                        0 <= k2 < k && 0 <= s2 < (
                    #[trigger] self.partitions@[k2]).segments@.len() implies storage.batches(
                        (#[trigger] self.partitions@[k2].segments@[s2]).key(),
                    ) == Seq::<crate::batching::BatchV>::empty() && storage.index_bytes(
                        self.partitions@[k2].segments@[s2].key(),
                    ) == Seq::<u8>::empty() by {
                        let t = self.partitions@[k2].segments@[s2].key();
                        if t != part.segments@[s - 1].key() {
                            assert(storage.batches(t) == pre.batches(t));
                            assert(storage.index_bytes(t) == pre.index_bytes(t));
                        }
                    }
                    assert forall|s2: int|
                        0 <= s2 < s implies storage.batches((#[trigger] part.segments@[s2]).key())
                        == Seq::<crate::batching::BatchV>::empty() && storage.index_bytes(
                        part.segments@[s2].key(),
                    ) == Seq::<u8>::empty() by {
                        let t = part.segments@[s2].key();
                        if t != part.segments@[s - 1].key() {
                            assert(storage.batches(t) == pre.batches(t));
                            assert(storage.index_bytes(t) == pre.index_bytes(t));
                        }
                    }
                }
            }
            k = k + 1;
        }
        Ok(())
    }

    /// Purges every partition: deletes its data and resets it to a fresh
    /// state; the topic itself stays.
    pub fn purge<S: SegmentStorage>(&mut self, storage: &mut S) -> (r: Result<(), Error>)
        requires
            old(self).inv(),
        ensures
            final(self).inv(),
            final(self).partitions@.len() == old(self).partitions@.len(),
            final(self).stream_id == old(self).stream_id,
            final(self).topic_id == old(self).topic_id,
            final(self).name == old(self).name,
            final(self).max_segment_size == old(self).max_segment_size,
            final(self).message_expiry_secs == old(self).message_expiry_secs,
            match r {
                Ok(()) => forall|k: int|
                    0 <= k < final(self).partitions@.len() ==> (
                    #[trigger] final(self).partitions@[k]).current_offset == 0 && final(self).partitions@[k].should_increment_offset == false,
                Err(e) => e is IoError,
            },
    {
        let n = self.partitions.len();
        let ghost before = self.partitions@;
        let mut k: usize = 0;
        while k < n
            invariant
                k <= n,
                n == self.partitions@.len(),
                n == before.len(),
                self.stream_id == old(self).stream_id,
                self.topic_id == old(self).topic_id,
                self.name == old(self).name,
                self.message_expiry_secs == old(self).message_expiry_secs,
                self.max_segment_size == old(self).max_segment_size,
                self.partitions@.len() == old(self).partitions@.len(),
                self.partitions@.len() <= MAX_PARTITIONS_COUNT,
                forall|j: int| k <= j < n ==> #[trigger] self.partitions@[j] == before[j],
                forall|j: int| 0 <= j < n ==> (#[trigger] before[j]).inv(),
                forall|j: int|
                    0 <= j < n ==> (#[trigger] before[j]).partition_id == j + 1 && before[j].stream_id
                        == old(self).stream_id && before[j].topic_id == old(self).topic_id
                        && before[j].max_segment_size == old(self).max_segment_size
                        && before[j].message_expiry_secs == old(self).message_expiry_secs,
                forall|j: int|
                    0 <= j < k ==> (#[trigger] self.partitions@[j]).inv() && self.partitions@[j].current_offset
                        == 0 && self.partitions@[j].should_increment_offset == false
                        && self.partitions@[j].partition_id == j + 1 && self.partitions@[j].stream_id
                        == old(self).stream_id && self.partitions@[j].topic_id == old(self).topic_id && self.partitions@[j].max_segment_size == old(self).max_segment_size && self.partitions@[j].message_expiry_secs == old(self).message_expiry_secs,
            decreases n - k,
        {
            let ghost part_before = self.partitions@;
            let part = &mut self.partitions[k];
            match part.purge(storage) {
                Ok(()) => {},
                Err(e) => {
                    proof {
                        assert(forall|j: int|
                            0 <= j < n ==> #[trigger] self.partitions@[j] == part_before[j]);
                        assert forall|j: int|
                            0 <= j < n implies (#[trigger] self.partitions@[j]).inv() && (
                            self.partitions@[j]).partition_id == j + 1 && (
                            self.partitions@[j]).stream_id == old(self).stream_id && (
                            self.partitions@[j]).topic_id == old(self).topic_id && (
                            self.partitions@[j]).max_segment_size == old(self).max_segment_size
                            && (self.partitions@[j]).message_expiry_secs == old(self).message_expiry_secs by {
                            assert(self.partitions@[j] == part_before[j]);
                            if j < k as int {
                            } else {
                                assert(part_before[j] == before[j]);
                            }
                        }
                    }
                    return Err(e);
                },
            }
            k = k + 1;
            proof {
                assert(forall|j: int|
                    0 <= j < n && j != k - 1 ==> #[trigger] self.partitions@[j]
                        == part_before[j]);
            }
        }
        Ok(())
    }
}

/// Sum of the partitions' sizes.
pub open spec fn spec_topic_size(parts: Seq<Partition>) -> int
    decreases parts.len(),
{
    if parts.len() == 0 {
        0int
    } else {
        spec_topic_size(parts.drop_last()) + spec_partition_size(parts.last().segments@)
    }
}

/// Sum of the partitions' message counts.
pub open spec fn spec_topic_messages_count(parts: Seq<Partition>) -> int
    decreases parts.len(),
{
    if parts.len() == 0 {
        0int
    } else {
        spec_topic_messages_count(parts.drop_last()) + (if !parts.last().should_increment_offset {
            0int
        } else {
            parts.last().current_offset + 1
        })
    }
}

} // verus!
