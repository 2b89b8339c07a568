//! The administration command wrappers: each carries one command payload
//! and describes itself in words before it is carried out.

use crate::create_topic::CreateTopic;
use crate::decimal::{spec_dec, u32_to_dec, u64_to_dec};
use crate::identifier::{spec_id_text, Identifier};
use crate::update_topic::UpdateTopic;
use vstd::prelude::*;
use vstd::string::StrSliceExecFns;
use vstd::string::StringExecFns;
use vstd::utf8::valid_utf8;

verus! {

/// Fetches one topic's details.
#[derive(Debug, Clone, PartialEq)]
pub struct GetTopic {
    /// The stream holding the topic (numeric id or name).
    pub stream_id: Identifier,
    /// The topic to fetch (numeric id or name).
    pub topic_id: Identifier,
}

/// The create-topic command wrapper.
pub struct CreateTopicCmd {
    pub create_topic: CreateTopic,
    pub message_expiry_secs: Option<u32>,
}

/// The words `CreateTopicCmd::explain` says.
pub open spec fn spec_create_topic_cmd_explain(c: &CreateTopicCmd) -> Seq<char> {
    "create topic with ID: "@ + spec_dec(c.create_topic.topic_id as nat) + ", name: "@
        + c.create_topic.name@ + ", partitions count: "@ + spec_dec(
        c.create_topic.partitions_count as nat,
    ) + " and "@ + (match c.message_expiry_secs {
        Some(v) => "message expire time: "@ + spec_dec(v as nat),
        None => "without message expire time"@,
    }) + " in stream with ID: "@ + spec_id_text(c.create_topic.stream_id@)
}

impl CreateTopicCmd {
    /// Wraps a create-topic payload.
    pub fn new(
        stream_id: Identifier,
        topic_id: u32,
        partitions_count: u32,
        name: String,
        message_expiry_secs: Option<u32>,
        max_topic_size_bytes: Option<u64>,
        replication_factor: u8,
    ) -> (r: Self)
        ensures
            r.create_topic.stream_id == stream_id,
            r.create_topic.topic_id == topic_id,
            r.create_topic.partitions_count == partitions_count,
            r.create_topic.name == name,
            r.create_topic.message_expiry_secs == message_expiry_secs,
            r.create_topic.max_topic_size_bytes == max_topic_size_bytes,
            r.create_topic.replication_factor == replication_factor,
            r.message_expiry_secs == message_expiry_secs,
    {
        Self {
            create_topic: CreateTopic {
                stream_id,
                topic_id,
                partitions_count,
                message_expiry_secs,
                max_topic_size_bytes,
                replication_factor,
                name,
            },
            message_expiry_secs,
        }
    }

    /// Says what carrying the command out would do.
    pub fn explain(&self) -> (r: String)
        requires
            self.create_topic.wf(),
            self.create_topic@.stream_id.kind is Named ==> valid_utf8(
                self.create_topic@.stream_id.value,
            ),
        ensures
            r@ == spec_create_topic_cmd_explain(self),
    {
        let mut out = String::new();
        out.append("create topic with ID: ");
        out.append(u32_to_dec(self.create_topic.topic_id).as_str());
        out.append(", name: ");
        out.append(self.create_topic.name.as_str());
        out.append(", partitions count: ");
        out.append(u32_to_dec(self.create_topic.partitions_count).as_str());
        out.append(" and ");
        match &self.message_expiry_secs {
            Some(v) => {
                out.append("message expire time: ");
                out.append(u32_to_dec(*v).as_str());
            },
            None => {
                out.append("without message expire time");
            },
        }
        out.append(" in stream with ID: ");
        out.append(self.create_topic.stream_id.to_text().as_str());
        proof {
            assert(out@ =~= spec_create_topic_cmd_explain(self));
        }
        out
    }
}

/// The get-topic command wrapper.
pub struct GetTopicCmd {
    pub get_topic: GetTopic,
}

/// The words `GetTopicCmd::explain` says.
pub open spec fn spec_get_topic_cmd_explain(c: &GetTopicCmd) -> Seq<char> {
    "get topic with ID: "@ + spec_id_text(c.get_topic.topic_id@) + " from stream with ID: "@
        + spec_id_text(c.get_topic.stream_id@)
}

impl GetTopicCmd {
    /// Wraps a get-topic payload.
    pub fn new(stream_id: Identifier, topic_id: Identifier) -> (r: Self)
        ensures
            r.get_topic.stream_id == stream_id,
            r.get_topic.topic_id == topic_id,
    {
        Self { get_topic: GetTopic { stream_id, topic_id } }
    }

    /// Says what carrying the command out would do.
    pub fn explain(&self) -> (r: String)
        requires
            self.get_topic.stream_id.wf(),
            self.get_topic.topic_id.wf(),
            self.get_topic.stream_id@.kind is Named ==> valid_utf8(self.get_topic.stream_id@.value),
            self.get_topic.topic_id@.kind is Named ==> valid_utf8(self.get_topic.topic_id@.value),
        ensures
            r@ == spec_get_topic_cmd_explain(self),
    {
        let mut out = String::new();
        out.append("get topic with ID: ");
        out.append(self.get_topic.topic_id.to_text().as_str());
        out.append(" from stream with ID: ");
        out.append(self.get_topic.stream_id.to_text().as_str());
        proof {
            assert(out@ =~= spec_get_topic_cmd_explain(self));
        }
        out
    }
}

/// The update-topic command wrapper.
pub struct UpdateTopicCmd {
    pub update_topic: UpdateTopic,
    pub message_expiry_secs: Option<u32>,
    pub max_topic_size_bytes: Option<u64>,
    pub replication_factor: u8,
}

/// The words `UpdateTopicCmd::explain` says.
pub open spec fn spec_update_topic_cmd_explain(c: &UpdateTopicCmd) -> Seq<char> {
    "update topic with ID: "@ + spec_id_text(c.update_topic.topic_id@) + ", name: "@
        + c.update_topic.name@ + (match c.message_expiry_secs {
        Some(v) => " with message expire time: "@ + spec_dec(v as nat),
        None => Seq::<char>::empty(),
    }) + (match c.max_topic_size_bytes {
        Some(v) => " with max topic size: "@ + spec_dec(v as nat),
        None => Seq::<char>::empty(),
    }) + (if c.replication_factor == 0 {
        Seq::<char>::empty()
    } else {
        " with replication factor: "@ + spec_dec(c.replication_factor as nat)
    }) + " in stream with ID: "@ + spec_id_text(c.update_topic.stream_id@)
}

impl UpdateTopicCmd {
    /// Wraps an update-topic payload.
    pub fn new(
        stream_id: Identifier,
        topic_id: Identifier,
        name: String,
        message_expiry_secs: Option<u32>,
        max_topic_size_bytes: Option<u64>,
        replication_factor: u8,
    ) -> (r: Self)
        ensures
            r.update_topic.stream_id == stream_id,
            r.update_topic.topic_id == topic_id,
            r.update_topic.name == name,
            r.update_topic.message_expiry_secs == message_expiry_secs,
            r.update_topic.max_topic_size_bytes == max_topic_size_bytes,
            r.update_topic.replication_factor == replication_factor,
            r.message_expiry_secs == message_expiry_secs,
            r.max_topic_size_bytes == max_topic_size_bytes,
            r.replication_factor == replication_factor,
    {
        Self {
            update_topic: UpdateTopic {
                stream_id,
                topic_id,
                message_expiry_secs,
                max_topic_size_bytes,
                replication_factor,
                name,
            },
            message_expiry_secs,
            max_topic_size_bytes,
            replication_factor,
        }
    }

    /// Says what carrying the command out would do.
    pub fn explain(&self) -> (r: String)
        requires
            self.update_topic.wf(),
            self.update_topic@.stream_id.kind is Named ==> valid_utf8(
                self.update_topic@.stream_id.value,
            ),
            self.update_topic@.topic_id.kind is Named ==> valid_utf8(
                self.update_topic@.topic_id.value,
            ),
        ensures
            r@ == spec_update_topic_cmd_explain(self),
    {
        let mut out = String::new();
        out.append("update topic with ID: ");
        out.append(self.update_topic.topic_id.to_text().as_str());
        out.append(", name: ");
        out.append(self.update_topic.name.as_str());
        match &self.message_expiry_secs {
            Some(v) => {
                out.append(" with message expire time: ");
                out.append(u32_to_dec(*v).as_str());
            },
            None => {},
        }
        match &self.max_topic_size_bytes {
            Some(v) => {
                out.append(" with max topic size: ");
                out.append(u64_to_dec(*v).as_str());
            },
            None => {},
        }
        if self.replication_factor != 0 {
            out.append(" with replication factor: ");
            out.append(u64_to_dec(self.replication_factor as u64).as_str());
        }
        out.append(" in stream with ID: ");
        out.append(self.update_topic.stream_id.to_text().as_str());
        proof {
            assert(out@ =~= spec_update_topic_cmd_explain(self));
        }
        out
    }
}

} // verus!
