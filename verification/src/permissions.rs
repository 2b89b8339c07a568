//! The authorization matrix consulted before every operation.
//!
//! When disabled, everything is permitted. When enabled, a topic operation
//! needs the matching management or read flag, either globally or on the
//! stream at hand.

use crate::error::Error;
use vstd::prelude::*;

verus! {

/// Global permission flags of one user.
#[derive(Debug, Clone, Copy, PartialEq, Eq, Structural)]
pub struct GlobalPermissions {
    pub manage_servers: bool,
    pub read_servers: bool,
    pub manage_users: bool,
    pub read_users: bool,
    pub manage_streams: bool,
    pub read_streams: bool,
    pub manage_topics: bool,
    pub read_topics: bool,
    pub poll_messages: bool,
    pub send_messages: bool,
}

/// Stream-scoped permission flags of one user.
#[derive(Debug, Clone, Copy, PartialEq, Eq, Structural)]
pub struct StreamPermissions {
    pub manage_stream: bool,
    pub read_stream: bool,
    pub manage_topics: bool,
    pub read_topics: bool,
    pub poll_messages: bool,
    pub send_messages: bool,
}

/// One user's permissions: global flags plus per-stream overrides.
#[derive(Debug, Clone, PartialEq)]
pub struct Permissions {
    pub global: GlobalPermissions,
    pub streams: Option<Vec<(u32, StreamPermissions)>>,
}

/// One user, as the permissioner learns of it.
#[derive(Debug, Clone, PartialEq)]
pub struct User {
    pub id: u32,
    pub permissions: Option<Permissions>,
}

/// The permission matrix: per-user global flags, per-user-and-stream flags,
/// and the four fast-path sets for the message paths.
#[derive(Debug)]
pub struct Permissioner {
    pub enabled: bool,
    pub users_permissions: Vec<(u32, GlobalPermissions)>,
    pub users_streams_permissions: Vec<((u32, u32), StreamPermissions)>,
    pub users_that_can_poll_messages_from_all_streams: Vec<u32>,
    pub users_that_can_send_messages_to_all_streams: Vec<u32>,
    pub users_that_can_poll_messages_from_specific_streams: Vec<(u32, u32)>,
    pub users_that_can_send_messages_to_specific_streams: Vec<(u32, u32)>,
}

/// The per-stream permission entries of one user, or none.
pub open spec fn spec_user_streams(u: User) -> Seq<(u32, StreamPermissions)> {
    match u.permissions {
        Some(p) => match p.streams {
            Some(v) => v@,
            None => Seq::empty(),
        },
        None => Seq::empty(),
    }
}

/// The users with a given global flag, in input order.
pub open spec fn spec_poll_all(users: Seq<User>) -> Seq<u32>
    decreases users.len(),
{
    if users.len() == 0 {
        Seq::empty()
    } else {
        spec_poll_all(users.drop_last()) + (match users.last().permissions {
            Some(p) => if p.global.poll_messages {
                seq![users.last().id]
            } else {
                Seq::empty()
            },
            None => Seq::empty(),
        })
    }
}

/// The users whose global flags allow sending everywhere, in input order.
pub open spec fn spec_send_all(users: Seq<User>) -> Seq<u32>
    decreases users.len(),
{
    if users.len() == 0 {
        Seq::empty()
    } else {
        spec_send_all(users.drop_last()) + (match users.last().permissions {
            Some(p) => if p.global.send_messages {
                seq![users.last().id]
            } else {
                Seq::empty()
            },
            None => Seq::empty(),
        })
    }
}

/// The global-permission entries, one per user that has permissions.
pub open spec fn spec_globals(users: Seq<User>) -> Seq<(u32, GlobalPermissions)>
    decreases users.len(),
{
    if users.len() == 0 {
        Seq::empty()
    } else {
        spec_globals(users.drop_last()) + (match users.last().permissions {
            Some(p) => seq![(users.last().id, p.global)],
            None => Seq::empty(),
        })
    }
}

/// One user's stream entries that carry the poll flag.
pub open spec fn spec_poll_entries(id: u32, ss: Seq<(u32, StreamPermissions)>) -> Seq<(u32, u32)>
    decreases ss.len(),
{
    if ss.len() == 0 {
        Seq::empty()
    } else {
        spec_poll_entries(id, ss.drop_last()) + (if ss.last().1.poll_messages {
            seq![(id, ss.last().0)]
        } else {
            Seq::empty()
        })
    }
}

/// One user's stream entries that carry the send flag.
pub open spec fn spec_send_entries(id: u32, ss: Seq<(u32, StreamPermissions)>) -> Seq<(u32, u32)>
    decreases ss.len(),
{
    if ss.len() == 0 {
        Seq::empty()
    } else {
        spec_send_entries(id, ss.drop_last()) + (if ss.last().1.send_messages {
            seq![(id, ss.last().0)]
        } else {
            Seq::empty()
        })
    }
}

/// One user's stream-permission map entries.
pub open spec fn spec_stream_entries(id: u32, ss: Seq<(u32, StreamPermissions)>) -> Seq<
    ((u32, u32), StreamPermissions),
>
    decreases ss.len(),
{
    if ss.len() == 0 {
        Seq::empty()
    } else {
        spec_stream_entries(id, ss.drop_last()) + seq![((id, ss.last().0), ss.last().1)]
    }
}

/// The poll entries contributed by a user list.
pub open spec fn spec_poll_specific(users: Seq<User>) -> Seq<(u32, u32)>
    decreases users.len(),
{
    if users.len() == 0 {
        Seq::empty()
    } else {
        spec_poll_specific(users.drop_last()) + spec_poll_entries(
            users.last().id,
            spec_user_streams(users.last()),
        )
    }
}

/// The send entries contributed by a user list.
pub open spec fn spec_send_specific(users: Seq<User>) -> Seq<(u32, u32)>
    decreases users.len(),
{
    if users.len() == 0 {
        Seq::empty()
    } else {
        spec_send_specific(users.drop_last()) + spec_send_entries(
            users.last().id,
            spec_user_streams(users.last()),
        )
    }
}

/// The stream-permission map entries contributed by a user list.
pub open spec fn spec_streams_map(users: Seq<User>) -> Seq<((u32, u32), StreamPermissions)>
    decreases users.len(),
{
    if users.len() == 0 {
        Seq::empty()
    } else {
        spec_streams_map(users.drop_last()) + spec_stream_entries(
            users.last().id,
            spec_user_streams(users.last()),
        )
    }
}

impl Permissioner {
    /// Builds a disabled matrix with no entries.
    pub fn new() -> (r: Permissioner)
        ensures
            !r.enabled,
            r.users_permissions@.len() == 0,
            r.users_streams_permissions@.len() == 0,
            r.users_that_can_poll_messages_from_all_streams@.len() == 0,
            r.users_that_can_send_messages_to_all_streams@.len() == 0,
            r.users_that_can_poll_messages_from_specific_streams@.len() == 0,
            r.users_that_can_send_messages_to_specific_streams@.len() == 0,
    {
        Permissioner {
            enabled: false,
            users_permissions: Vec::new(),
            users_streams_permissions: Vec::new(),
            users_that_can_poll_messages_from_all_streams: Vec::new(),
            users_that_can_send_messages_to_all_streams: Vec::new(),
            users_that_can_poll_messages_from_specific_streams: Vec::new(),
            users_that_can_send_messages_to_specific_streams: Vec::new(),
        }
    }

    /// Turns enforcement on.
    pub fn enable(&mut self)
        ensures
            final(self).enabled == true,
            final(self).users_permissions == old(self).users_permissions,
            final(self).users_streams_permissions == old(self).users_streams_permissions,
            final(self).users_that_can_poll_messages_from_all_streams == old(self).users_that_can_poll_messages_from_all_streams,
            final(self).users_that_can_send_messages_to_all_streams == old(self).users_that_can_send_messages_to_all_streams,
            final(self).users_that_can_poll_messages_from_specific_streams == old(self).users_that_can_poll_messages_from_specific_streams,
            final(self).users_that_can_send_messages_to_specific_streams == old(self).users_that_can_send_messages_to_specific_streams,
    {
        self.enabled = true;
    }

    /// Loads the matrix from a user list: every user with permissions
    /// contributes its global entry, its stream entries, and membership in
    /// the fast-path sets for each flag it carries, in input order.
    pub fn init(&mut self, users: Vec<User>)
        ensures
            final(self).enabled == old(self).enabled,
            final(self).users_permissions@ == old(self).users_permissions@ + spec_globals(users@),
            final(self).users_streams_permissions@ == old(self).users_streams_permissions@
                + spec_streams_map(users@),
            final(self).users_that_can_poll_messages_from_all_streams@ == old(self).users_that_can_poll_messages_from_all_streams@
                + spec_poll_all(users@),
            final(self).users_that_can_send_messages_to_all_streams@ == old(self).users_that_can_send_messages_to_all_streams@
                + spec_send_all(users@),
            final(self).users_that_can_poll_messages_from_specific_streams@ == old(self).users_that_can_poll_messages_from_specific_streams@
                + spec_poll_specific(users@),
            final(self).users_that_can_send_messages_to_specific_streams@ == old(self).users_that_can_send_messages_to_specific_streams@
                + spec_send_specific(users@),
    {
        let n = users.len();
        let mut i: usize = 0;
        proof {
            assert(users@.subrange(0, 0) =~= Seq::<User>::empty());
            lemma_init_prefix_empty(self, users@);
        }
        while i < n
            invariant
                i <= n,
                n == users@.len(),
                self.enabled == old(self).enabled,
                self.users_permissions@ == old(self).users_permissions@ + spec_globals(
                    users@.subrange(0, i as int),
                ),
                self.users_streams_permissions@ == old(self).users_streams_permissions@
                    + spec_streams_map(users@.subrange(0, i as int)),
                self.users_that_can_poll_messages_from_all_streams@ == old(self).users_that_can_poll_messages_from_all_streams@
                    + spec_poll_all(users@.subrange(0, i as int)),
                self.users_that_can_send_messages_to_all_streams@ == old(self).users_that_can_send_messages_to_all_streams@
                    + spec_send_all(users@.subrange(0, i as int)),
                self.users_that_can_poll_messages_from_specific_streams@ == old(self).users_that_can_poll_messages_from_specific_streams@
                    + spec_poll_specific(users@.subrange(0, i as int)),
                self.users_that_can_send_messages_to_specific_streams@ == old(self).users_that_can_send_messages_to_specific_streams@
                    + spec_send_specific(users@.subrange(0, i as int)),
            decreases n - i,
        {
            let u = &users[i];
            proof {
                assert(users@.subrange(0, i + 1).drop_last() =~= users@.subrange(0, i as int));
                assert(users@.subrange(0, i + 1).last() == users@[i as int]);
            }
            match &u.permissions {
                None => {
                    proof {
                        assert(spec_user_streams(users@[i as int]) =~= Seq::<
                            (u32, StreamPermissions),
                        >::empty());
                        lemma_entries_empty(users@[i as int].id);
                        assert(self.users_permissions@ =~= old(self).users_permissions@
                            + spec_globals(users@.subrange(0, i + 1)));
                        assert(self.users_streams_permissions@
                            =~= old(self).users_streams_permissions@ + spec_streams_map(
                            users@.subrange(0, i + 1),
                        ));
                        assert(self.users_that_can_poll_messages_from_all_streams@
                            =~= old(self).users_that_can_poll_messages_from_all_streams@
                            + spec_poll_all(users@.subrange(0, i + 1)));
                        assert(self.users_that_can_send_messages_to_all_streams@
                            =~= old(self).users_that_can_send_messages_to_all_streams@
                            + spec_send_all(users@.subrange(0, i + 1)));
                        assert(self.users_that_can_poll_messages_from_specific_streams@
                            =~= old(self).users_that_can_poll_messages_from_specific_streams@
                            + spec_poll_specific(users@.subrange(0, i + 1)));
                        assert(self.users_that_can_send_messages_to_specific_streams@
                            =~= old(self).users_that_can_send_messages_to_specific_streams@
                            + spec_send_specific(users@.subrange(0, i + 1)));
                    }
                },
                Some(p) => {
                    if p.global.poll_messages {
                        self.users_that_can_poll_messages_from_all_streams.push(u.id);
                    }
                    if p.global.send_messages {
                        self.users_that_can_send_messages_to_all_streams.push(u.id);
                    }
                    self.users_permissions.push((u.id, p.global));
                    match &p.streams {
                        None => {
                            proof {
                                assert(spec_user_streams(users@[i as int]) =~= Seq::<
                                    (u32, StreamPermissions),
                                >::empty());
                                lemma_entries_empty(users@[i as int].id);
                            }
                        },
                        Some(streams) => {
                            let m = streams.len();
                            let mut s: usize = 0;
                            proof {
                                assert(streams@.subrange(0, 0) =~= Seq::<
                                    (u32, StreamPermissions),
                                >::empty());
                                lemma_entries_empty(users@[i as int].id);
                            }
                            while s < m
                                invariant
                                    s <= m,
                                    m == streams@.len(),
                                    streams@ == spec_user_streams(users@[i as int]),
                                    u.id == users@[i as int].id,
                                    self.users_that_can_poll_messages_from_specific_streams@
                                        == old(self).users_that_can_poll_messages_from_specific_streams@
                                        + spec_poll_specific(users@.subrange(0, i as int))
                                        + spec_poll_entries(u.id, streams@.subrange(0, s as int)),
                                    self.users_that_can_send_messages_to_specific_streams@
                                        == old(self).users_that_can_send_messages_to_specific_streams@
                                        + spec_send_specific(users@.subrange(0, i as int))
                                        + spec_send_entries(u.id, streams@.subrange(0, s as int)),
                                    self.users_streams_permissions@
                                        == old(self).users_streams_permissions@ + spec_streams_map(
                                        users@.subrange(0, i as int),
                                    ) + spec_stream_entries(u.id, streams@.subrange(0, s as int)),
                                    self.enabled == old(self).enabled,
                                    self.users_permissions@ == old(self).users_permissions@
                                        + spec_globals(users@.subrange(0, i as int)) + seq![
                                        (u.id, users@[i as int].permissions->Some_0.global),
                                    ],
                                    self.users_that_can_poll_messages_from_all_streams@
                                        == old(self).users_that_can_poll_messages_from_all_streams@
                                        + spec_poll_all(users@.subrange(0, i as int)) + (if users@[
                                        i as int
                                    ].permissions->Some_0.global.poll_messages {
                                        seq![u.id]
                                    } else {
                                        Seq::<u32>::empty()
                                    }),
                                    self.users_that_can_send_messages_to_all_streams@
                                        == old(self).users_that_can_send_messages_to_all_streams@
                                        + spec_send_all(users@.subrange(0, i as int)) + (if users@[
                                        i as int
                                    ].permissions->Some_0.global.send_messages {
                                        seq![u.id]
                                    } else {
                                        Seq::<u32>::empty()
                                    }),
                                decreases m - s,
                            {
                                proof {
                                    assert(streams@.subrange(0, s + 1).drop_last()
                                        =~= streams@.subrange(0, s as int));
                                    assert(streams@.subrange(0, s + 1).last()
                                        == streams@[s as int]);
                                }
                                let (stream_id, sp) = streams[s];
                                if sp.poll_messages {
                                    self.users_that_can_poll_messages_from_specific_streams.push(
                                        (u.id, stream_id),
                                    );
                                }
                                if sp.send_messages {
                                    self.users_that_can_send_messages_to_specific_streams.push(
                                        (u.id, stream_id),
                                    );
                                }
                                self.users_streams_permissions.push(((u.id, stream_id), sp));
                                s = s + 1;
                                proof {
                                    assert(self.users_that_can_poll_messages_from_specific_streams@
                                        =~= old(self).users_that_can_poll_messages_from_specific_streams@
                                        + spec_poll_specific(users@.subrange(0, i as int))
                                        + spec_poll_entries(u.id, streams@.subrange(0, s as int)));
                                    assert(self.users_that_can_send_messages_to_specific_streams@
                                        =~= old(self).users_that_can_send_messages_to_specific_streams@
                                        + spec_send_specific(users@.subrange(0, i as int))
                                        + spec_send_entries(u.id, streams@.subrange(0, s as int)));
                                    assert(self.users_streams_permissions@
                                        =~= old(self).users_streams_permissions@ + spec_streams_map(
                                        users@.subrange(0, i as int),
                                    ) + spec_stream_entries(
                                        u.id,
                                        streams@.subrange(0, s as int),
                                    ));
                                }
                            }
                            proof {
                                assert(streams@.subrange(0, m as int) =~= streams@);
                            }
                        },
                    }
                },
            }
            i = i + 1;
            proof {
                assert(users@.subrange(0, i as int).drop_last() =~= users@.subrange(0, i - 1));
                assert(users@.subrange(0, i as int).last() == users@[i - 1]);
                assert(self.users_permissions@ =~= old(self).users_permissions@ + spec_globals(
                    users@.subrange(0, i as int),
                ));
                assert(self.users_streams_permissions@ =~= old(self).users_streams_permissions@
                    + spec_streams_map(users@.subrange(0, i as int)));
                assert(self.users_that_can_poll_messages_from_all_streams@
                    =~= old(self).users_that_can_poll_messages_from_all_streams@ + spec_poll_all(
                    users@.subrange(0, i as int),
                ));
                assert(self.users_that_can_send_messages_to_all_streams@
                    =~= old(self).users_that_can_send_messages_to_all_streams@ + spec_send_all(
                    users@.subrange(0, i as int),
                ));
                assert(self.users_that_can_poll_messages_from_specific_streams@
                    =~= old(self).users_that_can_poll_messages_from_specific_streams@
                    + spec_poll_specific(users@.subrange(0, i as int)));
                assert(self.users_that_can_send_messages_to_specific_streams@
                    =~= old(self).users_that_can_send_messages_to_specific_streams@
                    + spec_send_specific(users@.subrange(0, i as int)));
            }
        }
        proof {
            assert(users@.subrange(0, n as int) =~= users@);
        }
    }

    /// Can this user manage topics in this stream: globally, or on the
    /// stream itself? Always, while enforcement is off.
    pub open spec fn spec_can_manage_topics(&self, user_id: u32, stream_id: u32) -> bool {
        !self.enabled || (exists|k: int|
            0 <= k < self.users_permissions@.len() && (
            #[trigger] self.users_permissions@[k]).0 == user_id && (
            self.users_permissions@[k].1.manage_topics
                || self.users_permissions@[k].1.manage_streams)) || (exists|k: int|
            0 <= k < self.users_streams_permissions@.len() && (
            #[trigger] self.users_streams_permissions@[k]).0 == (user_id, stream_id) && (
            self.users_streams_permissions@[k].1.manage_topics
                || self.users_streams_permissions@[k].1.manage_stream))
    }

    /// Can this user read topics in this stream: any topic management
    /// right, or a read flag, globally or on the stream itself?
    pub open spec fn spec_can_read_topics(&self, user_id: u32, stream_id: u32) -> bool {
        self.spec_can_manage_topics(user_id, stream_id) || (exists|k: int|
            0 <= k < self.users_permissions@.len() && (
            #[trigger] self.users_permissions@[k]).0 == user_id && (
            self.users_permissions@[k].1.read_topics
                || self.users_permissions@[k].1.read_streams)) || (exists|k: int|
            0 <= k < self.users_streams_permissions@.len() && (
            #[trigger] self.users_streams_permissions@[k]).0 == (user_id, stream_id) && (
            self.users_streams_permissions@[k].1.read_topics
                || self.users_streams_permissions@[k].1.read_stream))
    }

    /// Decides topic management rights.
    fn can_manage_topics(&self, user_id: u32, stream_id: u32) -> (r: bool)
        ensures
            r == self.spec_can_manage_topics(user_id, stream_id),
    {
        if !self.enabled {
            return true;
        }
        let n = self.users_permissions.len();
        let mut k: usize = 0;
        while k < n
            invariant
                k <= n,
                n == self.users_permissions@.len(),
                forall|j: int|
                    0 <= j < k ==> !((#[trigger] self.users_permissions@[j]).0 == user_id && (
                    self.users_permissions@[j].1.manage_topics
                        || self.users_permissions@[j].1.manage_streams)),
            decreases n - k,
        {
            let (uid, g) = self.users_permissions[k];
            if uid == user_id && (g.manage_topics || g.manage_streams) {
                return true;
            }
            k = k + 1;
        }
        let m = self.users_streams_permissions.len();
        let mut k: usize = 0;
        while k < m
            invariant
                k <= m,
                m == self.users_streams_permissions@.len(),
                forall|j: int|
                    0 <= j < n ==> !((#[trigger] self.users_permissions@[j]).0 == user_id && (
                    self.users_permissions@[j].1.manage_topics
                        || self.users_permissions@[j].1.manage_streams)),
                n == self.users_permissions@.len(),
                forall|j: int|
                    0 <= j < k ==> !((#[trigger] self.users_streams_permissions@[j]).0 == (
                    user_id,
                    stream_id,
                ) && (self.users_streams_permissions@[j].1.manage_topics
                    || self.users_streams_permissions@[j].1.manage_stream)),
            decreases m - k,
        {
            let ((uid, sid), sp) = self.users_streams_permissions[k];
            if uid == user_id && sid == stream_id && (sp.manage_topics || sp.manage_stream) {
                return true;
            }
            k = k + 1;
        }
        false
    }

    /// Decides topic read rights.
    fn can_read_topics(&self, user_id: u32, stream_id: u32) -> (r: bool)
        ensures
            r == self.spec_can_read_topics(user_id, stream_id),
    {
        if self.can_manage_topics(user_id, stream_id) {
            return true;
        }
        let n = self.users_permissions.len();
        let mut k: usize = 0;
        while k < n
            invariant
                k <= n,
                n == self.users_permissions@.len(),
                forall|j: int|
                    0 <= j < k ==> !((#[trigger] self.users_permissions@[j]).0 == user_id && (
                    self.users_permissions@[j].1.read_topics
                        || self.users_permissions@[j].1.read_streams)),
            decreases n - k,
        {
            let (uid, g) = self.users_permissions[k];
            if uid == user_id && (g.read_topics || g.read_streams) {
                return true;
            }
            k = k + 1;
        }
        let m = self.users_streams_permissions.len();
        let mut k: usize = 0;
        while k < m
            invariant
                k <= m,
                m == self.users_streams_permissions@.len(),
                forall|j: int|
                    0 <= j < n ==> !((#[trigger] self.users_permissions@[j]).0 == user_id && (
                    self.users_permissions@[j].1.read_topics
                        || self.users_permissions@[j].1.read_streams)),
                n == self.users_permissions@.len(),
                forall|j: int|
                    0 <= j < k ==> !((#[trigger] self.users_streams_permissions@[j]).0 == (
                    user_id,
                    stream_id,
                ) && (self.users_streams_permissions@[j].1.read_topics
                    || self.users_streams_permissions@[j].1.read_stream)),
            decreases m - k,
        {
            let ((uid, sid), sp) = self.users_streams_permissions[k];
            if uid == user_id && sid == stream_id && (sp.read_topics || sp.read_stream) {
                return true;
            }
            k = k + 1;
        }
        false
    }

    /// Permission to read one topic.
    pub fn get_topic(&self, user_id: u32, stream_id: u32, topic_id: u32) -> (r: Result<(), Error>)
        ensures
            match r {
                Ok(()) => self.spec_can_read_topics(user_id, stream_id),
                Err(e) => !self.spec_can_read_topics(user_id, stream_id) && e is PermissionDenied,
            },
    {
        if self.can_read_topics(user_id, stream_id) {
            Ok(())
        } else {
            Err(Error::PermissionDenied)
        }
    }

    /// Permission to list a stream's topics.
    pub fn get_topics(&self, user_id: u32, stream_id: u32) -> (r: Result<(), Error>)
        ensures
            match r {
                Ok(()) => self.spec_can_read_topics(user_id, stream_id),
                Err(e) => !self.spec_can_read_topics(user_id, stream_id) && e is PermissionDenied,
            },
    {
        if self.can_read_topics(user_id, stream_id) {
            Ok(())
        } else {
            Err(Error::PermissionDenied)
        }
    }

    /// Permission to create a topic.
    pub fn create_topic(&self, user_id: u32, stream_id: u32) -> (r: Result<(), Error>)
        ensures
            match r {
                Ok(()) => self.spec_can_manage_topics(user_id, stream_id),
                Err(e) => !self.spec_can_manage_topics(user_id, stream_id)
                    && e is PermissionDenied,
            },
    {
        if self.can_manage_topics(user_id, stream_id) {
            Ok(())
        } else {
            Err(Error::PermissionDenied)
        }
    }

    /// Permission to update a topic.
    pub fn update_topic(&self, user_id: u32, stream_id: u32, topic_id: u32) -> (r: Result<
        (),
        Error,
    >)
        ensures
            match r {
                Ok(()) => self.spec_can_manage_topics(user_id, stream_id),
                Err(e) => !self.spec_can_manage_topics(user_id, stream_id)
                    && e is PermissionDenied,
            },
    {
        if self.can_manage_topics(user_id, stream_id) {
            Ok(())
        } else {
            Err(Error::PermissionDenied)
        }
    }

    /// Permission to delete a topic.
    pub fn delete_topic(&self, user_id: u32, stream_id: u32, topic_id: u32) -> (r: Result<
        (),
        Error,
    >)
        ensures
            match r {
                Ok(()) => self.spec_can_manage_topics(user_id, stream_id),
                Err(e) => !self.spec_can_manage_topics(user_id, stream_id)
                    && e is PermissionDenied,
            },
    {
        if self.can_manage_topics(user_id, stream_id) {
            Ok(())
        } else {
            Err(Error::PermissionDenied)
        }
    }

    /// Permission to purge a topic.
    pub fn purge_topic(&self, user_id: u32, stream_id: u32, topic_id: u32) -> (r: Result<
        (),
        Error,
    >)
        ensures
            match r {
                Ok(()) => self.spec_can_manage_topics(user_id, stream_id),
                Err(e) => !self.spec_can_manage_topics(user_id, stream_id)
                    && e is PermissionDenied,
            },
    {
        if self.can_manage_topics(user_id, stream_id) {
            Ok(())
        } else {
            Err(Error::PermissionDenied)
        }
    }
}

/// A user without permissions contributes no entries.
proof fn lemma_entries_empty(id: u32)
    ensures
        spec_poll_entries(id, Seq::empty()) == Seq::<(u32, u32)>::empty(),
        spec_send_entries(id, Seq::empty()) == Seq::<(u32, u32)>::empty(),
        spec_stream_entries(id, Seq::empty()) == Seq::<((u32, u32), StreamPermissions)>::empty(),
{
}

/// Seeding the loop: appending nothing changes nothing.
proof fn lemma_init_prefix_empty(p: &Permissioner, users: Seq<User>)
    ensures
        p.users_permissions@ + spec_globals(Seq::empty()) =~= p.users_permissions@,
        p.users_streams_permissions@ + spec_streams_map(Seq::empty())
            =~= p.users_streams_permissions@,
        p.users_that_can_poll_messages_from_all_streams@ + spec_poll_all(Seq::empty())
            =~= p.users_that_can_poll_messages_from_all_streams@,
        p.users_that_can_send_messages_to_all_streams@ + spec_send_all(Seq::empty())
            =~= p.users_that_can_send_messages_to_all_streams@,
        p.users_that_can_poll_messages_from_specific_streams@ + spec_poll_specific(Seq::empty())
            =~= p.users_that_can_poll_messages_from_specific_streams@,
        p.users_that_can_send_messages_to_specific_streams@ + spec_send_specific(Seq::empty())
            =~= p.users_that_can_send_messages_to_specific_streams@,
{
}

} // verus!
