//! The root aggregate: streams by id, the session check and the permission
//! consult in front of every topic operation.

use crate::error::Error;
use crate::identifier::{IdKind, Identifier};
use crate::permissions::Permissioner;
use crate::storage::SegmentStorage;
use crate::stream::Stream;
use crate::topic::Topic;
use vstd::bytes::spec_u32_from_le_bytes;
use vstd::prelude::*;
use vstd::utf8::{decode_utf8, valid_utf8};

verus! {

/// One client session: a connection and the user authenticated on it.
/// User id zero means "not authenticated".
#[derive(Debug, Clone, Copy, PartialEq, Eq, Structural)]
pub struct Session {
    pub client_id: u32,
    pub user_id: u32,
}

impl Session {
    /// Is a user authenticated on this session?
    pub open spec fn spec_is_authenticated(&self) -> bool {
        self.user_id != 0
    }

    /// Is a user authenticated on this session?
    pub fn is_authenticated(&self) -> (r: bool)
        ensures
            r == self.spec_is_authenticated(),
    {
        self.user_id != 0
    }
}

/// Does some stream carry this id?
pub open spec fn spec_has_stream_id(streams: Seq<Stream>, id: u32) -> bool {
    exists|k: int| 0 <= k < streams.len() && (#[trigger] streams[k]).stream_id == id
}

/// Does some stream carry this name?
pub open spec fn spec_has_stream_name(streams: Seq<Stream>, name: Seq<char>) -> bool {
    exists|k: int| 0 <= k < streams.len() && (#[trigger] streams[k]).name@ == name
}

/// Does this stream answer to the identifier: by id, or by name?
pub open spec fn spec_stream_matches(s: Stream, id: crate::identifier::IdView) -> bool {
    match id.kind {
        IdKind::Numeric => s.stream_id == spec_u32_from_le_bytes(id.value),
        IdKind::Named => s.name@ == decode_utf8(id.value),
    }
}

/// Does this topic answer to the identifier: by id, or by name?
pub open spec fn spec_topic_matches(t: Topic, id: crate::identifier::IdView) -> bool {
    match id.kind {
        IdKind::Numeric => t.topic_id == spec_u32_from_le_bytes(id.value),
        IdKind::Named => t.name@ == decode_utf8(id.value),
    }
}

/// No stream answers to the identifier, and `e` is the matching lookup
/// error.
pub open spec fn spec_stream_miss(streams: Seq<Stream>, id: crate::identifier::IdView, e: Error) -> bool {
    match id.kind {
        IdKind::Numeric => !spec_has_stream_id(streams, spec_u32_from_le_bytes(id.value)) && (e
            matches Error::StreamIdNotFound(i) && i == spec_u32_from_le_bytes(id.value)),
        IdKind::Named => !spec_has_stream_name(streams, decode_utf8(id.value)) && (e
            matches Error::StreamNameNotFound(n) && n@ == decode_utf8(id.value)),
    }
}

/// No topic of `st` answers to the identifier, and `e` is the matching
/// lookup error.
pub open spec fn spec_topic_miss(st: Stream, id: crate::identifier::IdView, e: Error) -> bool {
    match id.kind {
        IdKind::Numeric => !crate::stream::spec_has_topic_id(
            st.topics@,
            spec_u32_from_le_bytes(id.value),
        ) && (e matches Error::TopicIdNotFound(i, si) && i == spec_u32_from_le_bytes(id.value)
            && si == st.stream_id),
        IdKind::Named => !crate::stream::spec_has_topic_name(st.topics@, decode_utf8(id.value))
            && (e matches Error::TopicNameNotFound(n, si) && n@ == decode_utf8(id.value) && si
            == st.stream_id),
    }
}

/// The broker core's root state.
#[derive(Debug)]
pub struct System {
    /// The streams, in creation order.
    pub streams: Vec<Stream>,
    /// The permission matrix consulted before every operation.
    pub permissioner: Permissioner,
    /// The segment size cap handed down to every stream.
    pub max_segment_size: u32,
}

impl System {
    /// Internal consistency: stream ids and names are unique and every
    /// stream is consistent and carries the configured size cap.
    pub open spec fn inv(&self) -> bool {
        &&& (forall|k: int| 0 <= k < self.streams@.len() ==> (#[trigger] self.streams@[k]).inv())
        &&& (forall|i: int, j: int|
            0 <= i < j < self.streams@.len() ==> (#[trigger] self.streams@[i]).stream_id != (
            #[trigger] self.streams@[j]).stream_id)
        &&& (forall|i: int, j: int|
            0 <= i < j < self.streams@.len() ==> (#[trigger] self.streams@[i]).name@ != (
            #[trigger] self.streams@[j]).name@)
        &&& (forall|k: int|
            0 <= k < self.streams@.len() ==> (#[trigger] self.streams@[k]).max_segment_size
                == self.max_segment_size)
    }

    /// Builds an empty system with a disabled permission matrix.
    pub fn create(max_segment_size: u32) -> (r: System)
        ensures
            r.inv(),
            r.streams@.len() == 0,
            !r.permissioner.enabled,
            r.max_segment_size == max_segment_size,
    {
        System { streams: Vec::new(), permissioner: Permissioner::new(), max_segment_size }
    }

    /// Fails with `Unauthenticated` exactly when no user is authenticated
    /// on the session.
    pub fn ensure_authenticated(&self, session: &Session) -> (r: Result<(), Error>)
        ensures
            match r {
                Ok(()) => session.spec_is_authenticated(),
                Err(e) => !session.spec_is_authenticated() && e is Unauthenticated,
            },
    {
        if session.is_authenticated() {
            Ok(())
        } else {
            Err(Error::Unauthenticated)
        }
    }

    /// Creates an empty stream with a unique id and name.
    pub fn create_stream(&mut self, stream_id: u32, name: &str) -> (r: Result<(), Error>)
        requires
            old(self).inv(),
        ensures
            final(self).inv(),
            final(self).max_segment_size == old(self).max_segment_size,
            match r {
                Ok(()) => {
                    &&& !spec_has_stream_id(old(self).streams@, stream_id)
                    &&& !spec_has_stream_name(old(self).streams@, name@)
                    &&& final(self).streams@.len() == old(self).streams@.len() + 1
                    &&& (forall|k: int|
                        0 <= k < old(self).streams@.len() ==> #[trigger] final(self).streams@[k]
                            == old(self).streams@[k])
                    &&& final(self).streams@.last().stream_id == stream_id
                    &&& final(self).streams@.last().name@ == name@
                    &&& final(self).streams@.last().topics@.len() == 0
                },
                Err(e) => *final(self) == *old(self) && ((spec_has_stream_id(
                    old(self).streams@,
                    stream_id,
                ) && e is StreamIdAlreadyExists) || (!spec_has_stream_id(
                    old(self).streams@,
                    stream_id,
                ) && spec_has_stream_name(old(self).streams@, name@)
                    && e is StreamNameAlreadyExists)),
            },
    {
        let n = self.streams.len();
        let mut k: usize = 0;
        while k < n
            invariant
                k <= n,
                n == self.streams@.len(),
                self == old(self),
                self.inv(),
                forall|j: int| 0 <= j < k ==> (#[trigger] self.streams@[j]).stream_id != stream_id,
            decreases n - k,
        {
            if self.streams[k].stream_id == stream_id {
                return Err(Error::StreamIdAlreadyExists(stream_id));
            }
            k = k + 1;
        }
        let name_string = name.to_owned();
        let mut k: usize = 0;
        while k < n
            invariant
                k <= n,
                n == self.streams@.len(),
                self == old(self),
                self.inv(),
                name_string@ == name@,
                forall|j: int| 0 <= j < n ==> (#[trigger] self.streams@[j]).stream_id != stream_id,
                forall|j: int| 0 <= j < k ==> (#[trigger] self.streams@[j]).name@ != name@,
            decreases n - k,
        {
            if self.streams[k].name == name_string {
                return Err(Error::StreamNameAlreadyExists(name_string));
            }
            k = k + 1;
        }
        let stream = Stream::create(stream_id, name, self.max_segment_size);
        self.streams.push(stream);
        Ok(())
    }

    /// The stream named by the identifier: by numeric id, or by name.
    pub fn get_stream(&self, identifier: &Identifier) -> (r: Result<&Stream, Error>)
        requires
            self.inv(),
            identifier.wf(),
            identifier@.kind is Named ==> valid_utf8(identifier@.value),
        ensures
            match r {
                Ok(s) => (match identifier@.kind {
                    IdKind::Numeric => spec_has_stream_id(
                        self.streams@,
                        spec_u32_from_le_bytes(identifier@.value),
                    ) && s.stream_id == spec_u32_from_le_bytes(identifier@.value),
                    IdKind::Named => spec_has_stream_name(
                        self.streams@,
                        decode_utf8(identifier@.value),
                    ) && s.name@ == decode_utf8(identifier@.value),
                }) && (exists|k: int|
                    0 <= k < self.streams@.len() && *s == #[trigger] self.streams@[k]),
                Err(e) => match identifier@.kind {
                    IdKind::Numeric => !spec_has_stream_id(
                        self.streams@,
                        spec_u32_from_le_bytes(identifier@.value),
                    ) && e is StreamIdNotFound,
                    IdKind::Named => !spec_has_stream_name(
                        self.streams@,
                        decode_utf8(identifier@.value),
                    ) && e is StreamNameNotFound,
                },
            },
    {
        let idx = match self.get_stream_index(identifier) {
            Ok(k) => k,
            Err(e) => {
                return Err(e);
            },
        };
        Ok(&self.streams[idx])
    }

    /// The position of the stream named by the identifier.
    fn get_stream_index(&self, identifier: &Identifier) -> (r: Result<usize, Error>)
        requires
            self.inv(),
            identifier.wf(),
            identifier@.kind is Named ==> valid_utf8(identifier@.value),
        ensures
            match r {
                Ok(k) => k < self.streams@.len() && (match identifier@.kind {
                    IdKind::Numeric => self.streams@[k as int].stream_id == spec_u32_from_le_bytes(
                        identifier@.value,
                    ),
                    IdKind::Named => self.streams@[k as int].name@ == decode_utf8(
                        identifier@.value,
                    ),
                }),
                Err(e) => match identifier@.kind {
                    IdKind::Numeric => !spec_has_stream_id(
                        self.streams@,
                        spec_u32_from_le_bytes(identifier@.value),
                    ) && (e matches Error::StreamIdNotFound(i) && i == spec_u32_from_le_bytes(
                        identifier@.value,
                    )),
                    IdKind::Named => !spec_has_stream_name(
                        self.streams@,
                        decode_utf8(identifier@.value),
                    ) && (e matches Error::StreamNameNotFound(n) && n@ == decode_utf8(
                        identifier@.value,
                    )),
                },
            },
    {
        match identifier.kind {
            IdKind::Numeric => {
                let id = match identifier.get_u32_value() {
                    Ok(v) => v,
                    Err(_) => {
                        proof {
                            assert(false);
                        }
                        return Err(Error::IoError);
                    },
                };
                let n = self.streams.len();
                let mut k: usize = 0;
                while k < n
                    invariant
                        k <= n,
                        n == self.streams@.len(),
                        self.inv(),
                        identifier@.kind is Numeric,
                        id == spec_u32_from_le_bytes(identifier@.value),
                        forall|j: int| 0 <= j < k ==> (#[trigger] self.streams@[j]).stream_id != id,
                    decreases n - k,
                {
                    if self.streams[k].stream_id == id {
                        return Ok(k);
                    }
                    k = k + 1;
                }
                Err(Error::StreamIdNotFound(id))
            },
            IdKind::Named => {
                let name = match identifier.get_string_value() {
                    Ok(v) => v,
                    Err(_) => {
                        proof {
                            assert(false);
                        }
                        return Err(Error::IoError);
                    },
                };
                let n = self.streams.len();
                let mut k: usize = 0;
                while k < n
                    invariant
                        k <= n,
                        n == self.streams@.len(),
                        self.inv(),
                        identifier@.kind is Named,
                        name@ == decode_utf8(identifier@.value),
                        forall|j: int| 0 <= j < k ==> (#[trigger] self.streams@[j]).name@ != name@,
                    decreases n - k,
                {
                    if self.streams[k].name == name {
                        return Ok(k);
                    }
                    k = k + 1;
                }
                Err(Error::StreamNameNotFound(name))
            },
        }
    }

    /// Looks one topic up: authentication first, then the stream and topic,
    /// then the permission to read it.
    pub fn find_topic(&self, session: &Session, stream_id: &Identifier, topic_id: &Identifier) -> (r:
        Result<&Topic, Error>)
        requires
            self.inv(),
            stream_id.wf(),
            stream_id@.kind is Named ==> valid_utf8(stream_id@.value),
            topic_id.wf(),
            topic_id@.kind is Named ==> valid_utf8(topic_id@.value),
        ensures
            match r {
                Ok(t) => session.spec_is_authenticated() && (exists|k: int, j: int|
                    0 <= k < self.streams@.len() && spec_stream_matches(
                        #[trigger] self.streams@[k],
                        stream_id@,
                    ) && 0 <= j < self.streams@[k].topics@.len() && *t
                        == #[trigger] self.streams@[k].topics@[j] && spec_topic_matches(
                        *t,
                        topic_id@,
                    ) && self.permissioner.spec_can_read_topics(
                        session.user_id,
                        self.streams@[k].stream_id,
                    )),
                Err(e) => (!session.spec_is_authenticated() && e is Unauthenticated) || (
                session.spec_is_authenticated() && spec_stream_miss(self.streams@, stream_id@, e))
                    || (session.spec_is_authenticated() && (exists|k: int|
                    0 <= k < self.streams@.len() && spec_stream_matches(
                        #[trigger] self.streams@[k],
                        stream_id@,
                    ) && (spec_topic_miss(self.streams@[k], topic_id@, e) || ((exists|j: int|
                        0 <= j < self.streams@[k].topics@.len() && spec_topic_matches(
                            #[trigger] self.streams@[k].topics@[j],
                            topic_id@,
                        )) && !self.permissioner.spec_can_read_topics(
                        session.user_id,
                        self.streams@[k].stream_id,
                    ) && e is PermissionDenied)))),
            },
    {
        match self.ensure_authenticated(session) {
            Ok(()) => {},
            Err(e) => {
                return Err(e);
            },
        }
        let idx = match self.get_stream_index(stream_id) {
            Ok(k) => k,
            Err(e) => {
                return Err(e);
            },
        };
        let stream = &self.streams[idx];
        let topic = match stream.get_topic(topic_id) {
            Ok(t) => t,
            Err(e) => {
                return Err(e);
            },
        };
        match self.permissioner.get_topic(session.user_id, stream.stream_id, topic.topic_id) {
            Ok(()) => {},
            Err(e) => {
                return Err(e);
            },
        }
        Ok(topic)
    }

    /// Lists a stream's topics: authentication, the stream, then the
    /// permission to read its topics.
    pub fn find_topics(&self, session: &Session, stream_id: &Identifier) -> (r: Result<
        &Vec<Topic>,
        Error,
    >)
        requires
            self.inv(),
            stream_id.wf(),
            stream_id@.kind is Named ==> valid_utf8(stream_id@.value),
        ensures
            match r {
                Ok(ts) => session.spec_is_authenticated() && (exists|k: int|
                    0 <= k < self.streams@.len() && spec_stream_matches(
                        #[trigger] self.streams@[k],
                        stream_id@,
                    ) && ts == &self.streams@[k].topics
                        && self.permissioner.spec_can_read_topics(
                        session.user_id,
                        self.streams@[k].stream_id,
                    )),
                Err(e) => (!session.spec_is_authenticated() && e is Unauthenticated) || (
                session.spec_is_authenticated() && spec_stream_miss(self.streams@, stream_id@, e))
                    || (session.spec_is_authenticated() && (exists|k: int|
                    0 <= k < self.streams@.len() && spec_stream_matches(
                        #[trigger] self.streams@[k],
                        stream_id@,
                    ) && !self.permissioner.spec_can_read_topics(
                        session.user_id,
                        self.streams@[k].stream_id,
                    ) && e is PermissionDenied)),
            },
    {
        match self.ensure_authenticated(session) {
            Ok(()) => {},
            Err(e) => {
                return Err(e);
            },
        }
        let idx = match self.get_stream_index(stream_id) {
            Ok(k) => k,
            Err(e) => {
                return Err(e);
            },
        };
        let stream = &self.streams[idx];
        match self.permissioner.get_topics(session.user_id, stream.stream_id) {
            Ok(()) => {},
            Err(e) => {
                return Err(e);
            },
        }
        Ok(stream.get_topics())
    }

    /// Creates a topic: authentication, the stream, the permission to
    /// manage its topics, then the stream-level creation with its
    /// uniqueness checks.
    pub fn create_topic(
        &mut self,
        session: &Session,
        stream_id: &Identifier,
        topic_id: u32,
        name: &str,
        partitions_count: u32,
        message_expiry_secs: Option<u32>,
        max_topic_size_bytes: Option<u64>,
        replication_factor: u8,
    ) -> (r: Result<(), Error>)
        requires
            old(self).inv(),
            stream_id.wf(),
            stream_id@.kind is Named ==> valid_utf8(stream_id@.value),
        ensures
            final(self).inv(),
            final(self).streams@.len() == old(self).streams@.len(),
            match r {
                Ok(()) => session.spec_is_authenticated() && (exists|k: int|
                    0 <= k < old(self).streams@.len() && spec_stream_matches(
                        #[trigger] old(self).streams@[k],
                        stream_id@,
                    ) && old(self).permissioner.spec_can_manage_topics(
                        session.user_id,
                        old(self).streams@[k].stream_id,
                    ) && !crate::stream::spec_has_topic_id(old(self).streams@[k].topics@, topic_id)
                        && !crate::stream::spec_has_topic_name(
                        old(self).streams@[k].topics@,
                        crate::text::spec_normalize(name@),
                    ) && final(self).streams@[k].topics@.len() == old(self).streams@[k].topics@.len()
                        + 1 && final(self).streams@[k].topics@.last().topic_id == topic_id && final(self).streams@[k].topics@.last().name@ == crate::text::spec_normalize(name@)
                        && final(self).streams@[k].topics@.last().partitions@.len()
                        == partitions_count && (forall|j: int|
                        0 <= j < old(self).streams@.len() && j != k ==> #[trigger] final(self).streams@[j] == old(self).streams@[j])),
                Err(e) => final(self).streams@ == old(self).streams@ && ((
                !session.spec_is_authenticated() && e is Unauthenticated) || (
                session.spec_is_authenticated() && spec_stream_miss(old(self).streams@, stream_id@, e))
                    || (session.spec_is_authenticated() && (exists|k: int|
                    0 <= k < old(self).streams@.len() && spec_stream_matches(
                        #[trigger] old(self).streams@[k],
                        stream_id@,
                    ) && ((!old(self).permissioner.spec_can_manage_topics(
                        session.user_id,
                        old(self).streams@[k].stream_id,
                    ) && e is PermissionDenied) || (old(self).permissioner.spec_can_manage_topics(
                        session.user_id,
                        old(self).streams@[k].stream_id,
                    ) && crate::stream::spec_create_topic_err(
                        old(self).streams@[k],
                        topic_id,
                        name@,
                        partitions_count,
                        max_topic_size_bytes,
                        e,
                    )))))),
            },
    {
        match self.ensure_authenticated(session) {
            Ok(()) => {},
            Err(e) => {
                return Err(e);
            },
        }
        let idx = match self.get_stream_index(stream_id) {
            Ok(k) => k,
            Err(e) => {
                return Err(e);
            },
        };
        match self.permissioner.create_topic(session.user_id, self.streams[idx].stream_id) {
            Ok(()) => {},
            Err(e) => {
                return Err(e);
            },
        }
        let ghost streams_before = self.streams@;
        let stream = &mut self.streams[idx];
        let res = stream.create_topic(
            topic_id,
            name,
            partitions_count,
            message_expiry_secs,
            max_topic_size_bytes,
            replication_factor,
        );
        proof {
            assert(forall|j: int|
                0 <= j < self.streams@.len() && j != idx as int ==> #[trigger] self.streams@[j]
                    == streams_before[j]);
            assert forall|j: int|
                0 <= j < self.streams@.len() implies (#[trigger] self.streams@[j]).inv() by {
                if j != idx as int {
                    assert(self.streams@[j] == streams_before[j]);
                }
            }
            assert forall|i2: int, j2: int|
                0 <= i2 < j2 < self.streams@.len() implies (
            #[trigger] self.streams@[i2]).stream_id != (
            #[trigger] self.streams@[j2]).stream_id by {
                if i2 != idx as int {
                    assert(self.streams@[i2] == streams_before[i2]);
                }
                if j2 != idx as int {
                    assert(self.streams@[j2] == streams_before[j2]);
                }
            }
            assert forall|i2: int, j2: int|
                0 <= i2 < j2 < self.streams@.len() implies (#[trigger] self.streams@[i2]).name@
                != (#[trigger] self.streams@[j2]).name@ by {
                if i2 != idx as int {
                    assert(self.streams@[i2] == streams_before[i2]);
                }
                if j2 != idx as int {
                    assert(self.streams@[j2] == streams_before[j2]);
                }
            }
            assert forall|j: int|
                0 <= j < self.streams@.len() implies (#[trigger] self.streams@[j]).max_segment_size
                == self.max_segment_size by {
                if j != idx as int {
                    assert(self.streams@[j] == streams_before[j]);
                }
            }
        }
        res
    }

    /// Updates a topic: authentication, the stream and topic, the
    /// permission to manage it, then the stream-level update.
    pub fn update_topic(
        &mut self,
        session: &Session,
        stream_id: &Identifier,
        topic_id: &Identifier,
        name: &str,
        message_expiry_secs: Option<u32>,
        max_topic_size_bytes: Option<u64>,
        replication_factor: u8,
    ) -> (r: Result<(), Error>)
        requires
            old(self).inv(),
            stream_id.wf(),
            stream_id@.kind is Named ==> valid_utf8(stream_id@.value),
            topic_id.wf(),
            topic_id@.kind is Named ==> valid_utf8(topic_id@.value),
        ensures
            final(self).inv(),
            final(self).streams@.len() == old(self).streams@.len(),
            match r {
                Ok(()) => session.spec_is_authenticated() && (exists|k: int|
                    0 <= k < old(self).streams@.len() && spec_stream_matches(
                        #[trigger] old(self).streams@[k],
                        stream_id@,
                    ) && old(self).permissioner.spec_can_manage_topics(
                        session.user_id,
                        old(self).streams@[k].stream_id,
                    ) && crate::stream::spec_topic_updated(
                        old(self).streams@[k],
                        final(self).streams@[k],
                        topic_id@,
                        name@,
                        message_expiry_secs,
                        max_topic_size_bytes,
                        replication_factor,
                    ) && (forall|j: int|
                        0 <= j < old(self).streams@.len() && j != k ==> #[trigger] final(self).streams@[j] == old(self).streams@[j])),
                Err(e) => final(self).streams@ == old(self).streams@ && ((
                !session.spec_is_authenticated() && e is Unauthenticated) || (
                session.spec_is_authenticated() && spec_stream_miss(old(self).streams@, stream_id@, e))
                    || (session.spec_is_authenticated() && (exists|k: int|
                    0 <= k < old(self).streams@.len() && spec_stream_matches(
                        #[trigger] old(self).streams@[k],
                        stream_id@,
                    ) && (spec_topic_miss(old(self).streams@[k], topic_id@, e) || (
                    !old(self).permissioner.spec_can_manage_topics(
                        session.user_id,
                        old(self).streams@[k].stream_id,
                    ) && e is PermissionDenied) || (e matches Error::TopicNameAlreadyExists(n2, si)
                        && n2@ == crate::text::spec_normalize(name@) && si == old(self).streams@[k].stream_id))))),
            },
    {
        match self.ensure_authenticated(session) {
            Ok(()) => {},
            Err(e) => {
                return Err(e);
            },
        }
        let idx = match self.get_stream_index(stream_id) {
            Ok(k) => k,
            Err(e) => {
                return Err(e);
            },
        };
        {
            let stream = &self.streams[idx];
            let topic = match stream.get_topic(topic_id) {
                Ok(t) => t,
                Err(e) => {
                    return Err(e);
                },
            };
            match self.permissioner.update_topic(
                session.user_id,
                stream.stream_id,
                topic.topic_id,
            ) {
                Ok(()) => {},
                Err(e) => {
                    return Err(e);
                },
            }
        }
        let ghost streams_before = self.streams@;
        let stream = &mut self.streams[idx];
        let res = stream.update_topic(
            topic_id,
            name,
            message_expiry_secs,
            max_topic_size_bytes,
            replication_factor,
        );
        proof {
            assert(forall|j: int|
                0 <= j < self.streams@.len() && j != idx as int ==> #[trigger] self.streams@[j]
                    == streams_before[j]);
            assert forall|j: int|
                0 <= j < self.streams@.len() implies (#[trigger] self.streams@[j]).inv() by {
                if j != idx as int {
                    assert(self.streams@[j] == streams_before[j]);
                }
            }
            assert forall|i2: int, j2: int|
                0 <= i2 < j2 < self.streams@.len() implies (
            #[trigger] self.streams@[i2]).stream_id != (
            #[trigger] self.streams@[j2]).stream_id by {
                if i2 != idx as int {
                    assert(self.streams@[i2] == streams_before[i2]);
                }
                if j2 != idx as int {
                    assert(self.streams@[j2] == streams_before[j2]);
                }
            }
            assert forall|i2: int, j2: int|
                0 <= i2 < j2 < self.streams@.len() implies (#[trigger] self.streams@[i2]).name@
                != (#[trigger] self.streams@[j2]).name@ by {
                if i2 != idx as int {
                    assert(self.streams@[i2] == streams_before[i2]);
                }
                if j2 != idx as int {
                    assert(self.streams@[j2] == streams_before[j2]);
                }
            }
            assert forall|j: int|
                0 <= j < self.streams@.len() implies (#[trigger] self.streams@[j]).max_segment_size
                == self.max_segment_size by {
                if j != idx as int {
                    assert(self.streams@[j] == streams_before[j]);
                }
            }
        }
        res
    }

    /// Deletes a topic: authentication, the stream and topic, the
    /// permission to manage it, then the stream-level deletion.
    pub fn delete_topic<S: SegmentStorage>(
        &mut self,
        session: &Session,
        storage: &mut S,
        stream_id: &Identifier,
        topic_id: &Identifier,
    ) -> (r: Result<(), Error>)
        requires
            old(self).inv(),
            stream_id.wf(),
            stream_id@.kind is Named ==> valid_utf8(stream_id@.value),
            topic_id.wf(),
            topic_id@.kind is Named ==> valid_utf8(topic_id@.value),
        ensures
            final(self).inv(),
            final(self).streams@.len() == old(self).streams@.len(),
            match r {
                Ok(()) => session.spec_is_authenticated() && (exists|k: int, j: int|
                    0 <= k < old(self).streams@.len() && spec_stream_matches(
                        #[trigger] old(self).streams@[k],
                        stream_id@,
                    ) && old(self).permissioner.spec_can_manage_topics(
                        session.user_id,
                        old(self).streams@[k].stream_id,
                    ) && 0 <= j < old(self).streams@[k].topics@.len() && spec_topic_matches(
                        #[trigger] old(self).streams@[k].topics@[j],
                        topic_id@,
                    ) && final(self).streams@[k].topics@ == old(self).streams@[k].topics@.remove(j)
                        && (forall|j2: int|
                        0 <= j2 < old(self).streams@.len() && j2 != k ==> #[trigger] final(self).streams@[j2] == old(self).streams@[j2])),
                Err(e) => (!session.spec_is_authenticated() && e is Unauthenticated) || (
                session.spec_is_authenticated() && spec_stream_miss(old(self).streams@, stream_id@, e))
                    || (session.spec_is_authenticated() && (exists|k: int|
                    0 <= k < old(self).streams@.len() && spec_stream_matches(
                        #[trigger] old(self).streams@[k],
                        stream_id@,
                    ) && (spec_topic_miss(old(self).streams@[k], topic_id@, e) || (
                    !old(self).permissioner.spec_can_manage_topics(
                        session.user_id,
                        old(self).streams@[k].stream_id,
                    ) && e is PermissionDenied) || (e matches Error::CannotDeleteTopic(t2, si) && si
                        == old(self).streams@[k].stream_id)))),
            },
    {
        match self.ensure_authenticated(session) {
            Ok(()) => {},
            Err(e) => {
                return Err(e);
            },
        }
        let idx = match self.get_stream_index(stream_id) {
            Ok(k) => k,
            Err(e) => {
                return Err(e);
            },
        };
        {
            let stream = &self.streams[idx];
            let topic = match stream.get_topic(topic_id) {
                Ok(t) => t,
                Err(e) => {
                    return Err(e);
                },
            };
            match self.permissioner.delete_topic(
                session.user_id,
                stream.stream_id,
                topic.topic_id,
            ) {
                Ok(()) => {},
                Err(e) => {
                    return Err(e);
                },
            }
        }
        let ghost streams_before = self.streams@;
        let stream = &mut self.streams[idx];
        let res = match stream.delete_topic(storage, topic_id) {
            Ok(_) => Ok(()),
            Err(e) => Err(e),
        };
        proof {
            assert(forall|j: int|
                0 <= j < self.streams@.len() && j != idx as int ==> #[trigger] self.streams@[j]
                    == streams_before[j]);
            assert forall|j: int|
                0 <= j < self.streams@.len() implies (#[trigger] self.streams@[j]).inv() by {
                if j != idx as int {
                    assert(self.streams@[j] == streams_before[j]);
                }
            }
            assert forall|i2: int, j2: int|
                0 <= i2 < j2 < self.streams@.len() implies (
            #[trigger] self.streams@[i2]).stream_id != (
            #[trigger] self.streams@[j2]).stream_id by {
                if i2 != idx as int {
                    assert(self.streams@[i2] == streams_before[i2]);
                }
                if j2 != idx as int {
                    assert(self.streams@[j2] == streams_before[j2]);
                }
            }
            assert forall|i2: int, j2: int|
                0 <= i2 < j2 < self.streams@.len() implies (#[trigger] self.streams@[i2]).name@
                != (#[trigger] self.streams@[j2]).name@ by {
                if i2 != idx as int {
                    assert(self.streams@[i2] == streams_before[i2]);
                }
                if j2 != idx as int {
                    assert(self.streams@[j2] == streams_before[j2]);
                }
            }
            assert forall|j: int|
                0 <= j < self.streams@.len() implies (#[trigger] self.streams@[j]).max_segment_size
                == self.max_segment_size by {
                if j != idx as int {
                    assert(self.streams@[j] == streams_before[j]);
                }
            }
        }
        res
    }

    /// Purges a topic: the stream and topic, the permission to manage it,
    /// then the topic-level purge. As in the rest of the purge path, no
    /// session check happens here: the permission consult alone decides.
    pub fn purge_topic<S: SegmentStorage>(
        &mut self,
        session: &Session,
        storage: &mut S,
        stream_id: &Identifier,
        topic_id: &Identifier,
    ) -> (r: Result<(), Error>)
        requires
            old(self).inv(),
            stream_id.wf(),
            stream_id@.kind is Named ==> valid_utf8(stream_id@.value),
            topic_id.wf(),
            topic_id@.kind is Named ==> valid_utf8(topic_id@.value),
        ensures
            final(self).inv(),
            final(self).streams@.len() == old(self).streams@.len(),
            match r {
                Ok(()) => exists|k: int, j: int|
                    0 <= k < old(self).streams@.len() && spec_stream_matches(
                        #[trigger] old(self).streams@[k],
                        stream_id@,
                    ) && old(self).permissioner.spec_can_manage_topics(
                        session.user_id,
                        old(self).streams@[k].stream_id,
                    ) && 0 <= j < old(self).streams@[k].topics@.len() && spec_topic_matches(
                        #[trigger] old(self).streams@[k].topics@[j],
                        topic_id@,
                    ) && (forall|p: int|
                        0 <= p < final(self).streams@[k].topics@[j].partitions@.len() ==> (
                        #[trigger] final(self).streams@[k].topics@[j].partitions@[p]).current_offset
                            == 0 && final(self).streams@[k].topics@[j].partitions@[p].should_increment_offset
                            == false),
                Err(e) => (spec_stream_miss(old(self).streams@, stream_id@, e)) || (exists|k: int|
                    0 <= k < old(self).streams@.len() && spec_stream_matches(
                        #[trigger] old(self).streams@[k],
                        stream_id@,
                    ) && (spec_topic_miss(old(self).streams@[k], topic_id@, e) || (
                    !old(self).permissioner.spec_can_manage_topics(
                        session.user_id,
                        old(self).streams@[k].stream_id,
                    ) && e is PermissionDenied) || e is IoError)),
            },
    {
        let idx = match self.get_stream_index(stream_id) {
            Ok(k) => k,
            Err(e) => {
                return Err(e);
            },
        };
        {
            let stream = &self.streams[idx];
            let topic = match stream.get_topic(topic_id) {
                Ok(t) => t,
                Err(e) => {
                    return Err(e);
                },
            };
            match self.permissioner.purge_topic(
                session.user_id,
                stream.stream_id,
                topic.topic_id,
            ) {
                Ok(()) => {},
                Err(e) => {
                    return Err(e);
                },
            }
        };
        let ghost streams_before = self.streams@;
        let stream = &mut self.streams[idx];
        let ghost topics_before = stream.topics@;
        let r = stream.purge_topic(storage, topic_id);
        proof {
            assert(forall|j: int|
                0 <= j < self.streams@.len() && j != idx as int ==> #[trigger] self.streams@[j]
                    == streams_before[j]);
            assert forall|j: int|
                0 <= j < self.streams@.len() implies (#[trigger] self.streams@[j]).inv() by {
                if j != idx as int {
                    assert(self.streams@[j] == streams_before[j]);
                }
            }
            assert forall|i2: int, j2: int|
                0 <= i2 < j2 < self.streams@.len() implies (
            #[trigger] self.streams@[i2]).stream_id != (
            #[trigger] self.streams@[j2]).stream_id by {
                if i2 != idx as int {
                    assert(self.streams@[i2] == streams_before[i2]);
                }
                if j2 != idx as int {
                    assert(self.streams@[j2] == streams_before[j2]);
                }
            }
            assert forall|i2: int, j2: int|
                0 <= i2 < j2 < self.streams@.len() implies (#[trigger] self.streams@[i2]).name@
                != (#[trigger] self.streams@[j2]).name@ by {
                if i2 != idx as int {
                    assert(self.streams@[i2] == streams_before[i2]);
                }
                if j2 != idx as int {
                    assert(self.streams@[j2] == streams_before[j2]);
                }
            }
            assert forall|j: int|
                0 <= j < self.streams@.len() implies (#[trigger] self.streams@[j]).max_segment_size
                == self.max_segment_size by {
                if j != idx as int {
                    assert(self.streams@[j] == streams_before[j]);
                }
            }
        }
        r
    }

    /// Deletes a stream by numeric id: removes every topic's on-disk data,
    /// then the stream itself.
    pub fn delete_stream<S: SegmentStorage>(&mut self, storage: &mut S, stream_id: u32) -> (r:
        Result<(), Error>)
        requires
            old(self).inv(),
        ensures
            final(self).inv(),
            match r {
                Ok(()) => spec_has_stream_id(old(self).streams@, stream_id) && final(self).streams@.len() == old(self).streams@.len() - 1 && !spec_has_stream_id(
                    final(self).streams@,
                    stream_id,
                ),
                Err(e) => (!spec_has_stream_id(old(self).streams@, stream_id) && (e
                    matches Error::StreamIdNotFound(i) && i == stream_id)) || (spec_has_stream_id(
                    old(self).streams@,
                    stream_id,
                ) && e is IoError),
            },
    {
        let n = self.streams.len();
        let mut k: usize = 0;
        while k < n
            invariant
                k <= n,
                n == self.streams@.len(),
                self == old(self),
                self.inv(),
                forall|j: int| 0 <= j < k ==> (#[trigger] self.streams@[j]).stream_id != stream_id,
            decreases n - k,
        {
            if self.streams[k].stream_id == stream_id {
                let ghost streams_before = self.streams@;
                let stream = &mut self.streams[k];
                match stream.delete_all_topics(storage) {
                    Ok(()) => {},
                    Err(e) => {
                        proof {
                            lemma_system_inv_one_changed(self, streams_before, k as int);
                        }
                        return Err(e);
                    },
                }
                proof {
                    lemma_system_inv_one_changed(self, streams_before, k as int);
                }
                self.streams.remove(k);
                proof {
                    assert forall|j: int|
                        0 <= j < self.streams@.len() implies (#[trigger] self.streams@[j]).inv()
                        && self.streams@[j].stream_id != stream_id && self.streams@[j].max_segment_size
                        == self.max_segment_size by {
                        if j < k as int {
                            assert(self.streams@[j] == streams_before[j]);
                        } else {
                            assert(self.streams@[j] == streams_before[j + 1]);
                        }
                    }
                    assert forall|i2: int, j2: int|
                        0 <= i2 < j2 < self.streams@.len() implies (
                    #[trigger] self.streams@[i2]).stream_id != (
                    #[trigger] self.streams@[j2]).stream_id && self.streams@[i2].name@
                        != self.streams@[j2].name@ by {
                        if i2 < k as int {
                            assert(self.streams@[i2] == streams_before[i2]);
                        } else {
                            assert(self.streams@[i2] == streams_before[i2 + 1]);
                        }
                        if j2 < k as int {
                            assert(self.streams@[j2] == streams_before[j2]);
                        } else {
                            assert(self.streams@[j2] == streams_before[j2 + 1]);
                        }
                    }
                }
                return Ok(());
            }
            k = k + 1;
        }
        Err(Error::StreamIdNotFound(stream_id))
    }
}

/// After mutating one stream in a way that keeps its consistency, id, name
/// and size cap, the whole system is still consistent.
proof fn lemma_system_inv_one_changed(sys: &System, before: Seq<Stream>, idx: int)
    requires
        sys.streams@.len() == before.len(),
        0 <= idx < before.len(),
        forall|j: int| 0 <= j < before.len() && j != idx ==> #[trigger] sys.streams@[j] == before[j],
        forall|j: int| 0 <= j < before.len() ==> (#[trigger] before[j]).inv(),
        forall|i: int, j: int|
            0 <= i < j < before.len() ==> (#[trigger] before[i]).stream_id != (
            #[trigger] before[j]).stream_id,
        forall|i: int, j: int|
            0 <= i < j < before.len() ==> (#[trigger] before[i]).name@ != (
            #[trigger] before[j]).name@,
        forall|j: int|
            0 <= j < before.len() ==> (#[trigger] before[j]).max_segment_size
                == sys.max_segment_size,
        sys.streams@[idx].inv(),
        sys.streams@[idx].stream_id == before[idx].stream_id,
        sys.streams@[idx].name@ == before[idx].name@,
        sys.streams@[idx].max_segment_size == before[idx].max_segment_size,
    ensures
        sys.inv(),
{
    assert forall|j: int|
        0 <= j < sys.streams@.len() implies (#[trigger] sys.streams@[j]).inv()
        && sys.streams@[j].max_segment_size == sys.max_segment_size by {
        if j != idx {
            assert(sys.streams@[j] == before[j]);
        }
    }
    assert forall|i2: int, j2: int|
        0 <= i2 < j2 < sys.streams@.len() implies (#[trigger] sys.streams@[i2]).stream_id != (
    #[trigger] sys.streams@[j2]).stream_id && sys.streams@[i2].name@ != sys.streams@[j2].name@ by {
        if i2 != idx {
            assert(sys.streams@[i2] == before[i2]);
        }
        if j2 != idx {
            assert(sys.streams@[j2] == before[j2]);
        }
    }
}

/// The compute part of the legacy delete-stream datagram: a frame of
/// exactly four bytes holding the little-endian stream id.
pub fn parse_delete_stream(input: &[u8]) -> (r: Result<u32, Error>)
    ensures
        match r {
            Ok(v) => input@.len() == 4 && v == spec_u32_from_le_bytes(input@),
            Err(e) => input@.len() != 4 && e is InvalidCommand,
        },
{
    let n: usize = input.len();
    if n != 4 {
        return Err(Error::InvalidCommand);
    }
    let v = crate::wire::get_u32_le(input, 0);
    proof {
        assert(input@.subrange(0, 4) =~= input@);
    }
    Ok(v)
}

} // verus!
