//! A named container of topics, enforcing unique topic ids and names.
//!
//! The stream keeps its topics and a name-to-id map in lockstep: entry `k`
//! of the map carries the normalized name and the id of topic `k`.

use crate::error::Error;
use crate::identifier::{IdKind, Identifier};
use crate::storage::SegmentStorage;
use crate::text::{spec_normalize, to_lowercase_non_whitespace};
use crate::topic::Topic;
use vstd::prelude::*;
use vstd::utf8::{decode_utf8, valid_utf8};

verus! {

/// One stream of the broker.
#[derive(Debug)]
pub struct Stream {
    /// The stream's numeric id.
    pub stream_id: u32,
    /// The stream's name.
    pub name: String,
    /// The topics, in creation order.
    pub topics: Vec<Topic>,
    /// The name-to-id map, aligned with `topics`: entry `k` holds topic
    /// `k`'s normalized name and id.
    pub topics_ids: Vec<(String, u32)>,
    /// Microseconds since the Unix epoch at creation.
    pub created_at: u64,
    /// The segment size cap handed down to every topic.
    pub max_segment_size: u32,
}

/// Does some topic carry this id?
pub open spec fn spec_has_topic_id(topics: Seq<Topic>, id: u32) -> bool {
    exists|k: int| 0 <= k < topics.len() && (#[trigger] topics[k]).topic_id == id
}

/// Does some topic carry this name?
pub open spec fn spec_has_topic_name(topics: Seq<Topic>, name: Seq<char>) -> bool {
    exists|k: int| 0 <= k < topics.len() && (#[trigger] topics[k]).name@ == name
}

/// One topic of `old_st` — the one answering to `id` — was renamed to the
/// normalized `name`, had its policy reset, and had the new expiry pushed
/// down to every partition and segment; every other topic is untouched.
pub open spec fn spec_topic_updated(
    old_st: Stream,
    new_st: Stream,
    id: crate::identifier::IdView,
    name: Seq<char>,
    message_expiry_secs: Option<u32>,
    max_topic_size_bytes: Option<u64>,
    replication_factor: u8,
) -> bool {
    exists|k: int|
        {
            &&& 0 <= k < old_st.topics@.len()
            &&& (match id.kind {
                IdKind::Numeric => (#[trigger] old_st.topics@[k]).topic_id
                    == vstd::bytes::spec_u32_from_le_bytes(id.value),
                IdKind::Named => old_st.topics@[k].name@ == decode_utf8(id.value),
            })
            &&& new_st.topics@[k].name@ == spec_normalize(name)
            &&& new_st.topics@[k].message_expiry_secs == message_expiry_secs
            &&& new_st.topics@[k].max_topic_size_bytes == max_topic_size_bytes
            &&& new_st.topics@[k].replication_factor == replication_factor
            &&& new_st.topics@[k].topic_id == old_st.topics@[k].topic_id
            &&& (forall|p: int|
                0 <= p < old_st.topics@[k].partitions@.len() ==> (
                #[trigger] new_st.topics@[k].partitions@[p]).message_expiry_secs
                    == message_expiry_secs)
            &&& (forall|p: int, s2: int|
                0 <= p < old_st.topics@[k].partitions@.len() && 0 <= s2 < old_st.topics@[k].partitions@[p].segments@.len()
                    ==> (#[trigger] new_st.topics@[k].partitions@[p].segments@[s2]).message_expiry_secs
                    == message_expiry_secs)
            &&& (forall|j: int|
                0 <= j < old_st.topics@.len() && j != k ==> #[trigger] new_st.topics@[j]
                    == old_st.topics@[j])
        }
}

/// The error a topic creation on `st` reports, tied to its cause: a taken
/// id, then a taken normalized name, then the partition cap, then a size
/// cap below the segment size.
pub open spec fn spec_create_topic_err(
    st: Stream,
    id: u32,
    name: Seq<char>,
    partitions_count: u32,
    max_topic_size_bytes: Option<u64>,
    e: Error,
) -> bool {
    ||| (e matches Error::TopicIdAlreadyExists(i2, si) && i2 == id && si == st.stream_id
        && spec_has_topic_id(st.topics@, id))
    ||| (e matches Error::TopicNameAlreadyExists(n2, si) && n2@ == spec_normalize(name) && si
        == st.stream_id && !spec_has_topic_id(st.topics@, id) && spec_has_topic_name(
        st.topics@,
        spec_normalize(name),
    ))
    ||| (!spec_has_topic_id(st.topics@, id) && !spec_has_topic_name(
        st.topics@,
        spec_normalize(name),
    ) && ((partitions_count > crate::create_topic::MAX_PARTITIONS_COUNT
        && e is TooManyPartitions) || (partitions_count
        <= crate::create_topic::MAX_PARTITIONS_COUNT && (crate::wire::code_opt_u64(
        crate::wire::opt_u64_code(max_topic_size_bytes),
    ) matches Some(sz) && sz < st.max_segment_size) && e is InvalidCommand)))
}

impl Stream {
    /// Internal consistency: the two maps are in lockstep entry by entry,
    /// topic ids and names are unique, and every topic is consistent and
    /// carries this stream's id and size cap.
    pub open spec fn inv(&self) -> bool {
        &&& self.topics_ids@.len() == self.topics@.len()
        &&& (forall|k: int|
            0 <= k < self.topics@.len() ==> (#[trigger] self.topics_ids@[k]).1
                == self.topics@[k].topic_id)
        &&& (forall|k: int|
            0 <= k < self.topics@.len() ==> (#[trigger] self.topics_ids@[k]).0@
                == self.topics@[k].name@)
        &&& (forall|i: int, j: int|
            0 <= i < j < self.topics@.len() ==> (#[trigger] self.topics@[i]).topic_id != (
            #[trigger] self.topics@[j]).topic_id)
        &&& (forall|i: int, j: int|
            0 <= i < j < self.topics@.len() ==> (#[trigger] self.topics@[i]).name@ != (
            #[trigger] self.topics@[j]).name@)
        &&& (forall|k: int| 0 <= k < self.topics@.len() ==> (#[trigger] self.topics@[k]).inv())
        &&& (forall|k: int|
            0 <= k < self.topics@.len() ==> (#[trigger] self.topics@[k]).stream_id
                == self.stream_id)
        &&& (forall|k: int|
            0 <= k < self.topics@.len() ==> (#[trigger] self.topics@[k]).max_segment_size
                == self.max_segment_size)
    }

    /// Builds an empty stream.
    pub fn create(stream_id: u32, name: &str, max_segment_size: u32) -> (r: Stream)
        ensures
            r.inv(),
            r.stream_id == stream_id,
            r.name@ == name@,
            r.topics@.len() == 0,
            r.max_segment_size == max_segment_size,
    {
        Stream {
            stream_id,
            name: name.to_owned(),
            topics: Vec::new(),
            topics_ids: Vec::new(),
            created_at: crate::stdx::now_micros(),
            max_segment_size,
        }
    }

    /// How many topics the stream holds.
    pub fn get_topics_count(&self) -> (r: u32)
        requires
            self.topics@.len() <= u32::MAX,
        ensures
            r == self.topics@.len(),
    {
        self.topics.len() as u32
    }

    /// The topics themselves.
    pub fn get_topics(&self) -> (r: &Vec<Topic>)
        ensures
            r == &self.topics,
    {
        &self.topics
    }

    /// Creates a topic: fails with `TopicIdAlreadyExists` when the id is
    /// taken and with `TopicNameAlreadyExists` when the normalized name is,
    /// then builds the topic and inserts it into both maps.
    pub fn create_topic(
        &mut self,
        id: u32,
        name: &str,
        partitions_count: u32,
        message_expiry_secs: Option<u32>,
        max_topic_size_bytes: Option<u64>,
        replication_factor: u8,
    ) -> (r: Result<(), Error>)
        requires
            old(self).inv(),
        ensures
            final(self).inv(),
            final(self).stream_id == old(self).stream_id,
            final(self).name == old(self).name,
            final(self).max_segment_size == old(self).max_segment_size,
            match r {
                Ok(()) => {
                    &&& !spec_has_topic_id(old(self).topics@, id)
                    &&& !spec_has_topic_name(old(self).topics@, spec_normalize(name@))
                    &&& final(self).topics@.len() == old(self).topics@.len() + 1
                    &&& (forall|k: int|
                        0 <= k < old(self).topics@.len() ==> #[trigger] final(self).topics@[k]
                            == old(self).topics@[k])
                    &&& final(self).topics@.last().topic_id == id
                    &&& final(self).topics@.last().name@ == spec_normalize(name@)
                    &&& final(self).topics@.last().partitions@.len() == partitions_count
                    &&& final(self).topics@.last().replication_factor == replication_factor
                },
                Err(e) => *final(self) == *old(self) && spec_create_topic_err(
                    *old(self),
                    id,
                    name@,
                    partitions_count,
                    max_topic_size_bytes,
                    e,
                ),
            },
    {
        let n = self.topics.len();
        let mut k: usize = 0;
        while k < n
            invariant
                k <= n,
                n == self.topics@.len(),
                self == old(self),
                self.inv(),
                forall|j: int| 0 <= j < k ==> (#[trigger] self.topics@[j]).topic_id != id,
            decreases n - k,
        {
            if self.topics[k].topic_id == id {
                return Err(Error::TopicIdAlreadyExists(id, self.stream_id));
            }
            k = k + 1;
        }
        let normalized = to_lowercase_non_whitespace(name);
        let mut k: usize = 0;
        while k < n
            invariant
                k <= n,
                n == self.topics@.len(),
                self == old(self),
                self.inv(),
                normalized@ == spec_normalize(name@),
                forall|j: int| 0 <= j < n ==> (#[trigger] self.topics@[j]).topic_id != id,
                forall|j: int| 0 <= j < k ==> (#[trigger] self.topics@[j]).name@ != normalized@,
            decreases n - k,
        {
            if self.topics[k].name == normalized {
                return Err(Error::TopicNameAlreadyExists(normalized, self.stream_id));
            }
            k = k + 1;
        }
        let topic_name = normalized.clone();
        let topic = match Topic::create(
            self.stream_id,
            id,
            topic_name,
            partitions_count,
            self.max_segment_size,
            message_expiry_secs,
            max_topic_size_bytes,
            replication_factor,
            crate::stdx::now_micros(),
        ) {
            Ok(t) => t,
            Err(e) => {
                return Err(e);
            },
        };
        self.topics_ids.push((normalized, id));
        self.topics.push(topic);
        Ok(())
    }

    /// The topic named by the identifier: by numeric id, or by name.
    pub fn get_topic(&self, identifier: &Identifier) -> (r: Result<&Topic, Error>)
        requires
            self.inv(),
            identifier.wf(),
            identifier@.kind is Named ==> valid_utf8(identifier@.value),
        ensures
            match r {
                Ok(t) => (match identifier@.kind {
                    IdKind::Numeric => spec_has_topic_id(
                        self.topics@,
                        vstd::bytes::spec_u32_from_le_bytes(identifier@.value),
                    ) && t.topic_id == vstd::bytes::spec_u32_from_le_bytes(identifier@.value),
                    IdKind::Named => spec_has_topic_name(
                        self.topics@,
                        decode_utf8(identifier@.value),
                    ) && t.name@ == decode_utf8(identifier@.value),
                }) && (exists|k: int|
                    0 <= k < self.topics@.len() && *t == #[trigger] self.topics@[k]),
                Err(e) => match identifier@.kind {
                    IdKind::Numeric => !spec_has_topic_id(
                        self.topics@,
                        vstd::bytes::spec_u32_from_le_bytes(identifier@.value),
                    ) && (e matches Error::TopicIdNotFound(i, s) && i
                        == vstd::bytes::spec_u32_from_le_bytes(identifier@.value) && s
                        == self.stream_id),
                    IdKind::Named => !spec_has_topic_name(
                        self.topics@,
                        decode_utf8(identifier@.value),
                    ) && (e matches Error::TopicNameNotFound(n, s) && n@ == decode_utf8(
                        identifier@.value,
                    ) && s == self.stream_id),
                },
            },
    {
        match identifier.kind {
            IdKind::Numeric => {
                let id = match identifier.get_u32_value() {
                    Ok(v) => v,
                    Err(_) => {
                        proof {
                            assert(false);
                        }
                        return Err(Error::IoError);
                    },
                };
                self.get_topic_by_id(id)
            },
            IdKind::Named => {
                let name = match identifier.get_string_value() {
                    Ok(v) => v,
                    Err(_) => {
                        proof {
                            assert(false);
                        }
                        return Err(Error::IoError);
                    },
                };
                self.get_topic_by_name(&name)
            },
        }
    }

    /// The topic with the given numeric id.
    pub fn get_topic_by_id(&self, id: u32) -> (r: Result<&Topic, Error>)
        requires
            self.inv(),
        ensures
            match r {
                Ok(t) => spec_has_topic_id(self.topics@, id) && t.topic_id == id && (exists|k: int|
                    0 <= k < self.topics@.len() && *t == #[trigger] self.topics@[k]),
                Err(e) => !spec_has_topic_id(self.topics@, id) && e == Error::TopicIdNotFound(
                    id,
                    self.stream_id,
                ),
            },
    {
        let n = self.topics.len();
        let mut k: usize = 0;
        while k < n
            invariant
                k <= n,
                n == self.topics@.len(),
                self.inv(),
                forall|j: int| 0 <= j < k ==> (#[trigger] self.topics@[j]).topic_id != id,
            decreases n - k,
        {
            if self.topics[k].topic_id == id {
                return Ok(&self.topics[k]);
            }
            k = k + 1;
        }
        Err(Error::TopicIdNotFound(id, self.stream_id))
    }

    /// The topic with the given name.
    pub fn get_topic_by_name(&self, name: &str) -> (r: Result<&Topic, Error>)
        requires
            self.inv(),
        ensures
            match r {
                Ok(t) => spec_has_topic_name(self.topics@, name@) && t.name@ == name@ && (exists|
                    k: int,
                |
                    0 <= k < self.topics@.len() && *t == #[trigger] self.topics@[k]),
                Err(e) => !spec_has_topic_name(self.topics@, name@) && (e
                    matches Error::TopicNameNotFound(n, s) && n@ == name@ && s
                    == self.stream_id),
            },
    {
        let name_string = name.to_owned();
        let n = self.topics.len();
        let mut k: usize = 0;
        while k < n
            invariant
                k <= n,
                n == self.topics@.len(),
                self.inv(),
                name_string@ == name@,
                forall|j: int| 0 <= j < k ==> (#[trigger] self.topics@[j]).name@ != name@,
            decreases n - k,
        {
            if self.topics[k].name == name_string {
                return Ok(&self.topics[k]);
            }
            k = k + 1;
        }
        Err(Error::TopicNameNotFound(name_string, self.stream_id))
    }

    /// The topic named by the identifier, for mutation.
    pub fn get_topic_mut(&mut self, identifier: &Identifier) -> (r: Result<&mut Topic, Error>)
        requires
            old(self).inv(),
            identifier.wf(),
            identifier@.kind is Named ==> valid_utf8(identifier@.value),
        ensures
            match r {
                Ok(t) => (match identifier@.kind {
                    IdKind::Numeric => t.topic_id == vstd::bytes::spec_u32_from_le_bytes(
                        identifier@.value,
                    ),
                    IdKind::Named => t.name@ == decode_utf8(identifier@.value),
                }),
                Err(e) => match identifier@.kind {
                    IdKind::Numeric => !spec_has_topic_id(
                        old(self).topics@,
                        vstd::bytes::spec_u32_from_le_bytes(identifier@.value),
                    ) && (e matches Error::TopicIdNotFound(i, si) && i
                        == vstd::bytes::spec_u32_from_le_bytes(identifier@.value) && si == old(
                        self,
                    ).stream_id),
                    IdKind::Named => !spec_has_topic_name(
                        old(self).topics@,
                        decode_utf8(identifier@.value),
                    ) && (e matches Error::TopicNameNotFound(n2, si) && n2@ == decode_utf8(
                        identifier@.value,
                    ) && si == old(self).stream_id),
                },
            },
    {
        let idx = match self.get_topic_index(identifier) {
            Ok(k) => k,
            Err(e) => {
                return Err(e);
            },
        };
        Ok(&mut self.topics[idx])
    }

    /// The position of the topic named by the identifier.
    fn get_topic_index(&self, identifier: &Identifier) -> (r: Result<usize, Error>)
        requires
            self.inv(),
            identifier.wf(),
            identifier@.kind is Named ==> valid_utf8(identifier@.value),
        ensures
            match r {
                Ok(k) => k < self.topics@.len() && (match identifier@.kind {
                    IdKind::Numeric => self.topics@[k as int].topic_id
                        == vstd::bytes::spec_u32_from_le_bytes(identifier@.value),
                    IdKind::Named => self.topics@[k as int].name@ == decode_utf8(
                        identifier@.value,
                    ),
                }),
                Err(e) => match identifier@.kind {
                    IdKind::Numeric => !spec_has_topic_id(
                        self.topics@,
                        vstd::bytes::spec_u32_from_le_bytes(identifier@.value),
                    ) && (e matches Error::TopicIdNotFound(i, s) && i
                        == vstd::bytes::spec_u32_from_le_bytes(identifier@.value) && s
                        == self.stream_id),
                    IdKind::Named => !spec_has_topic_name(
                        self.topics@,
                        decode_utf8(identifier@.value),
                    ) && (e matches Error::TopicNameNotFound(n, s) && n@ == decode_utf8(
                        identifier@.value,
                    ) && s == self.stream_id),
                },
            },
    {
        match identifier.kind {
            IdKind::Numeric => {
                let id = match identifier.get_u32_value() {
                    Ok(v) => v,
                    Err(_) => {
                        proof {
                            assert(false);
                        }
                        return Err(Error::IoError);
                    },
                };
                let n = self.topics.len();
                let mut k: usize = 0;
                while k < n
                    invariant
                        k <= n,
                        n == self.topics@.len(),
                        self.inv(),
                        identifier@.kind is Numeric,
                        id == vstd::bytes::spec_u32_from_le_bytes(identifier@.value),
                        forall|j: int| 0 <= j < k ==> (#[trigger] self.topics@[j]).topic_id != id,
                    decreases n - k,
                {
                    if self.topics[k].topic_id == id {
                        return Ok(k);
                    }
                    k = k + 1;
                }
                Err(Error::TopicIdNotFound(id, self.stream_id))
            },
            IdKind::Named => {
                let name = match identifier.get_string_value() {
                    Ok(v) => v,
                    Err(_) => {
                        proof {
                            assert(false);
                        }
                        return Err(Error::IoError);
                    },
                };
                let n = self.topics.len();
                let mut k: usize = 0;
                while k < n
                    invariant
                        k <= n,
                        n == self.topics@.len(),
                        self.inv(),
                        identifier@.kind is Named,
                        name@ == decode_utf8(identifier@.value),
                        forall|j: int| 0 <= j < k ==> (#[trigger] self.topics@[j]).name@ != name@,
                    decreases n - k,
                {
                    if self.topics[k].name == name {
                        return Ok(k);
                    }
                    k = k + 1;
                }
                Err(Error::TopicNameNotFound(name, self.stream_id))
            },
        }
    }

    /// Updates the topic named by the identifier: renames it — only when
    /// the new normalized name is free or already the topic's own — resets
    /// its policy, and propagates the new expiry downward.
    pub fn update_topic(
        &mut self,
        id: &Identifier,
        name: &str,
        message_expiry_secs: Option<u32>,
        max_topic_size_bytes: Option<u64>,
        replication_factor: u8,
    ) -> (r: Result<(), Error>)
        requires
            old(self).inv(),
            id.wf(),
            id@.kind is Named ==> valid_utf8(id@.value),
        ensures
            final(self).inv(),
            final(self).stream_id == old(self).stream_id,
            final(self).name == old(self).name,
            final(self).max_segment_size == old(self).max_segment_size,
            final(self).topics@.len() == old(self).topics@.len(),
            match r {
                Ok(()) => spec_topic_updated(
                    *old(self),
                    *final(self),
                    id@,
                    name@,
                    message_expiry_secs,
                    max_topic_size_bytes,
                    replication_factor,
                ),
                Err(e) => *final(self) == *old(self) && ((match id@.kind {
                    IdKind::Numeric => !spec_has_topic_id(
                        old(self).topics@,
                        vstd::bytes::spec_u32_from_le_bytes(id@.value),
                    ) && (e matches Error::TopicIdNotFound(i, si) && i
                        == vstd::bytes::spec_u32_from_le_bytes(id@.value) && si == old(self).stream_id),
                    IdKind::Named => !spec_has_topic_name(
                        old(self).topics@,
                        decode_utf8(id@.value),
                    ) && (e matches Error::TopicNameNotFound(n2, si) && n2@ == decode_utf8(
                        id@.value,
                    ) && si == old(self).stream_id),
                }) || ((exists|k: int, j: int|
                    0 <= k < old(self).topics@.len() && 0 <= j < old(self).topics@.len() && j != k
                        && (match id@.kind {
                        IdKind::Numeric => (#[trigger] old(self).topics@[k]).topic_id
                            == vstd::bytes::spec_u32_from_le_bytes(id@.value),
                        IdKind::Named => old(self).topics@[k].name@ == decode_utf8(id@.value),
                    }) && (#[trigger] old(self).topics@[j]).name@ == spec_normalize(name@)) && (e
                    matches Error::TopicNameAlreadyExists(n2, si) && n2@ == spec_normalize(name@)
                    && si == old(self).stream_id))),
            },
    {
        let idx = match self.get_topic_index(id) {
            Ok(k) => k,
            Err(e) => {
                return Err(e);
            },
        };
        let updated_name = to_lowercase_non_whitespace(name);
        let n = self.topics.len();
        let mut k: usize = 0;
        while k < n
            invariant
                k <= n,
                n == self.topics@.len(),
                self == old(self),
                self.inv(),
                idx < n,
                updated_name@ == spec_normalize(name@),
                (match id@.kind {
                    IdKind::Numeric => self.topics@[idx as int].topic_id
                        == vstd::bytes::spec_u32_from_le_bytes(id@.value),
                    IdKind::Named => self.topics@[idx as int].name@ == decode_utf8(id@.value),
                }),
                forall|j: int|
                    0 <= j < k && j != idx ==> (#[trigger] self.topics@[j]).name@
                        != updated_name@,
            decreases n - k,
        {
            if k != idx && self.topics[k].name == updated_name {
                proof {
                    assert(0 <= idx < self.topics@.len() && 0 <= k < self.topics@.len() && k as int
                        != idx as int && (match id@.kind {
                        IdKind::Numeric => self.topics@[idx as int].topic_id
                            == vstd::bytes::spec_u32_from_le_bytes(id@.value),
                        IdKind::Named => self.topics@[idx as int].name@ == decode_utf8(id@.value),
                    }) && self.topics@[k as int].name@ == spec_normalize(name@));
                }
                return Err(Error::TopicNameAlreadyExists(updated_name, self.stream_id));
            }
            k = k + 1;
        }
        let tid = self.topics[idx].topic_id;
        let map_name = updated_name.clone();
        self.topics_ids.set(idx, (map_name, tid));
        let ghost topics_before = self.topics@;
        let topic = &mut self.topics[idx];
        topic.update(updated_name, message_expiry_secs, max_topic_size_bytes, replication_factor);
        proof {
            assert(forall|j: int|
                0 <= j < self.topics@.len() && j != idx as int ==> #[trigger] self.topics@[j]
                    == topics_before[j]);
            assert forall|j: int|
                0 <= j < self.topics@.len() implies (#[trigger] self.topics@[j]).inv() by {
                if j != idx as int {
                    assert(self.topics@[j] == topics_before[j]);
                }
            }
        }
        Ok(())
    }

    /// Deletes the topic named by the identifier: removes its on-disk data
    /// and takes it out of both maps; the removed topic is handed back.
    /// A storage failure surfaces as `CannotDeleteTopic` and changes
    /// nothing in the stream's maps.
    pub fn delete_topic<S: SegmentStorage>(&mut self, storage: &mut S, id: &Identifier) -> (r:
        Result<Topic, Error>)
        requires
            old(self).inv(),
            id.wf(),
            id@.kind is Named ==> valid_utf8(id@.value),
        ensures
            final(self).inv(),
            final(self).stream_id == old(self).stream_id,
            final(self).name == old(self).name,
            final(self).max_segment_size == old(self).max_segment_size,
            match r {
                Ok(t) => exists|k: int|
                    {
                        &&& 0 <= k < old(self).topics@.len()
                        &&& t == #[trigger] old(self).topics@[k]
                        &&& (match id@.kind {
                            IdKind::Numeric => old(self).topics@[k].topic_id
                                == vstd::bytes::spec_u32_from_le_bytes(id@.value),
                            IdKind::Named => old(self).topics@[k].name@ == decode_utf8(id@.value),
                        })
                        &&& final(self).topics@.len() == old(self).topics@.len() - 1
                        &&& final(self).topics@ == old(self).topics@.remove(k)
                    },
                Err(e) => final(self).topics@ == old(self).topics@ && final(self).topics_ids
                    == old(self).topics_ids && ((match id@.kind {
                    IdKind::Numeric => !spec_has_topic_id(
                        old(self).topics@,
                        vstd::bytes::spec_u32_from_le_bytes(id@.value),
                    ) && (e matches Error::TopicIdNotFound(i, si) && i
                        == vstd::bytes::spec_u32_from_le_bytes(id@.value) && si == old(self).stream_id),
                    IdKind::Named => !spec_has_topic_name(
                        old(self).topics@,
                        decode_utf8(id@.value),
                    ) && (e matches Error::TopicNameNotFound(n2, si) && n2@ == decode_utf8(
                        id@.value,
                    ) && si == old(self).stream_id),
                }) || (exists|k: int|
                    0 <= k < old(self).topics@.len() && (match id@.kind {
                        IdKind::Numeric => (#[trigger] old(self).topics@[k]).topic_id
                            == vstd::bytes::spec_u32_from_le_bytes(id@.value),
                        IdKind::Named => old(self).topics@[k].name@ == decode_utf8(id@.value),
                    }) && (e matches Error::CannotDeleteTopic(t2, si) && t2 == old(self).topics@[k].topic_id
                        && si == old(self).stream_id))),
            },
    {
        let idx = match self.get_topic_index(id) {
            Ok(k) => k,
            Err(e) => {
                return Err(e);
            },
        };
        let tid = self.topics[idx].topic_id;
        let ghost topics_before = self.topics@;
        let topic = &mut self.topics[idx];
        match topic.delete(storage) {
            Ok(()) => {},
            Err(_) => {
                proof {
                    assert(forall|j: int|
                        0 <= j < self.topics@.len() && j != idx as int ==> #[trigger] self.topics@[j]
                            == topics_before[j]);
                    assert forall|j: int|
                        0 <= j < self.topics@.len() implies (#[trigger] self.topics@[j]).inv() by {
                        if j != idx as int {
                            assert(self.topics@[j] == topics_before[j]);
                        }
                    }
                }
                return Err(Error::CannotDeleteTopic(tid, self.stream_id));
            },
        }
        proof {
            assert(forall|j: int|
                0 <= j < self.topics@.len() && j != idx as int ==> #[trigger] self.topics@[j]
                    == topics_before[j]);
        }
        let removed = self.topics.remove(idx);
        self.topics_ids.remove(idx);
        proof {
            assert forall|j: int|
                0 <= j < self.topics@.len() implies (#[trigger] self.topics@[j]).inv() by {
                if j < idx as int {
                    assert(self.topics@[j] == topics_before[j]);
                } else {
                    assert(self.topics@[j] == topics_before[j + 1]);
                }
            }
        }
        Ok(removed)
    }
}

impl Stream {
    /// Deletes every topic's on-disk data: the stream's bookkeeping is
    /// untouched, so the caller can then drop the stream whole.
    pub fn delete_all_topics<S: SegmentStorage>(&mut self, storage: &mut S) -> (r: Result<
        (),
        Error,
    >)
        requires
            old(self).inv(),
        ensures
            final(self).inv(),
            final(self).stream_id == old(self).stream_id,
            final(self).name == old(self).name,
            final(self).max_segment_size == old(self).max_segment_size,
            final(self).topics@ == old(self).topics@,
            final(self).topics_ids == old(self).topics_ids,
            r matches Err(e) ==> e is IoError,
    {
        let n = self.topics.len();
        let ghost snap = self.topics@;
        let mut t: usize = 0;
        while t < n
            invariant
                t <= n,
                n == self.topics@.len(),
                self.topics@ == snap,
                snap == old(self).topics@,
                self.topics_ids == old(self).topics_ids,
                self.stream_id == old(self).stream_id,
                self.name == old(self).name,
                self.max_segment_size == old(self).max_segment_size,
                self.created_at == old(self).created_at,
                self.inv(),
            decreases n - t,
        {
            let ghost pre = self.topics@;
            let topic = &mut self.topics[t];
            match topic.delete(storage) {
                Ok(()) => {},
                Err(e) => {
                    proof {
                        assert(self.topics@ =~= pre);
                    }
                    return Err(e);
                },
            }
            t = t + 1;
            proof {
                assert(self.topics@ =~= pre);
            }
        }
        Ok(())
    }

    /// Purges the topic named by the identifier: its data is deleted and
    /// its partitions reset; the topic stays in the stream.
    pub fn purge_topic<S: SegmentStorage>(&mut self, storage: &mut S, id: &Identifier) -> (r:
        Result<(), Error>)
        requires
            old(self).inv(),
            id.wf(),
            id@.kind is Named ==> valid_utf8(id@.value),
        ensures
            final(self).inv(),
            final(self).stream_id == old(self).stream_id,
            final(self).name == old(self).name,
            final(self).max_segment_size == old(self).max_segment_size,
            final(self).topics@.len() == old(self).topics@.len(),
            match r {
                Ok(()) => exists|k: int|
                    {
                        &&& 0 <= k < old(self).topics@.len()
                        &&& (match id@.kind {
                            IdKind::Numeric => (#[trigger] old(self).topics@[k]).topic_id
                                == vstd::bytes::spec_u32_from_le_bytes(id@.value),
                            IdKind::Named => old(self).topics@[k].name@ == decode_utf8(id@.value),
                        })
                        &&& final(self).topics@[k].topic_id == old(self).topics@[k].topic_id
                        &&& final(self).topics@[k].name == old(self).topics@[k].name
                        &&& (forall|p: int|
                            0 <= p < final(self).topics@[k].partitions@.len() ==> (#[trigger] final(self).topics@[k].partitions@[p]).current_offset
                                == 0 && final(self).topics@[k].partitions@[p].should_increment_offset
                                == false)
                        &&& (forall|j: int|
                            0 <= j < old(self).topics@.len() && j != k ==> #[trigger] final(self).topics@[j] == old(self).topics@[j])
                    },
                Err(e) => ((final(self).topics@ == old(self).topics@ && final(self).topics_ids
                    == old(self).topics_ids && (match id@.kind {
                    IdKind::Numeric => !spec_has_topic_id(
                        old(self).topics@,
                        vstd::bytes::spec_u32_from_le_bytes(id@.value),
                    ) && (e matches Error::TopicIdNotFound(i, si) && i
                        == vstd::bytes::spec_u32_from_le_bytes(id@.value) && si == old(self).stream_id),
                    IdKind::Named => !spec_has_topic_name(
                        old(self).topics@,
                        decode_utf8(id@.value),
                    ) && (e matches Error::TopicNameNotFound(n2, si) && n2@ == decode_utf8(
                        id@.value,
                    ) && si == old(self).stream_id),
                })) || e is IoError),
            },
    {
        let idx = match self.get_topic_index(id) {
            Ok(k) => k,
            Err(e) => {
                return Err(e);
            },
        };
        let ghost topics_before = self.topics@;
        let topic = &mut self.topics[idx];
        let r = topic.purge(storage);
        proof {
            assert(forall|j: int|
                0 <= j < self.topics@.len() && j != idx as int ==> #[trigger] self.topics@[j]
                    == topics_before[j]);
            assert forall|j: int|
                0 <= j < self.topics@.len() implies (#[trigger] self.topics@[j]).inv() by {
                if j != idx as int {
                    assert(self.topics@[j] == topics_before[j]);
                }
            }
        }
        r
    }
}

/// The two maps stay in lockstep: at every quiescent point the topic ids
/// held by the topics map and the ids the name map points to are the same
/// multiset.
pub proof fn lemma_topics_maps_in_lockstep(s: &Stream)
    requires
        s.inv(),
    ensures
        s.topics@.map_values(|t: Topic| t.topic_id).to_multiset()
            == s.topics_ids@.map_values(|p: (String, u32)| p.1).to_multiset(),
{
    let a = s.topics@.map_values(|t: Topic| t.topic_id);
    let b = s.topics_ids@.map_values(|p: (String, u32)| p.1);
    assert(a =~= b);
}

} // verus!
