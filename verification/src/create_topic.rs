//! The `CreateTopic` admin command, with its binary and textual encodings.
//!
//! Binary layout: `stream_id:Identifier | topic_id:u32 | partitions_count:u32
//! | message_expiry_secs:u32 | max_topic_size_bytes:u64 | replication_factor:u8
//! | name_len:u8 | name`. Zero encodes "unset" for the two optional fields.
//! Textual form: `stream_id|topic_id|partitions_count|expiry|max_size|replication|name`.

use crate::decimal::{parse_u32, parse_u8, spec_dec, spec_parse_u32, spec_parse_u64, spec_parse_u8, u32_to_dec, u64_to_dec};
use crate::error::Error;
use crate::identifier::{
    id_wf, spec_id_bytes, spec_id_from_bytes, spec_id_from_text, spec_id_text, IdView, Identifier,
};
use crate::text::{is_resource_name, is_resource_name_valid, spec_join, spec_split, split_on_pipe};
use crate::wire;
use crate::wire::{code_opt_u32, code_opt_u64, opt_u32_code, opt_u64_code};
use vstd::bytes::{
    spec_u32_from_le_bytes, spec_u32_to_le_bytes, spec_u64_from_le_bytes, spec_u64_to_le_bytes,
};
use vstd::prelude::*;
use vstd::string::StrSliceExecFns;
use vstd::string::StringSliceAdditionalSpecFns;
use vstd::utf8::{decode_utf8, encode_utf8, valid_utf8};

verus! {

/// The most partitions one topic may hold.
pub const MAX_PARTITIONS_COUNT: u32 = 1000;

/// The mathematical view of a [`CreateTopic`] command.
#[verifier::ext_equal]
pub struct CreateTopicV {
    pub stream_id: IdView,
    pub topic_id: u32,
    pub partitions_count: u32,
    pub message_expiry_secs: Option<u32>,
    pub max_topic_size_bytes: Option<u64>,
    pub replication_factor: u8,
    pub name: Seq<char>,
}

/// Creates a new topic in a stream.
#[derive(Debug, Clone, PartialEq)]
pub struct CreateTopic {
    /// The stream to create the topic in (numeric id or name).
    pub stream_id: Identifier,
    /// Unique numeric topic id.
    pub topic_id: u32,
    /// Number of partitions, at most [`MAX_PARTITIONS_COUNT`].
    pub partitions_count: u32,
    /// Message expiry in seconds; `None` means messages never expire.
    pub message_expiry_secs: Option<u32>,
    /// Maximum topic size in bytes; `None` means unlimited.
    pub max_topic_size_bytes: Option<u64>,
    /// Replication factor, at least 1.
    pub replication_factor: u8,
    /// Topic name, 1 to 255 resource-charset characters.
    pub name: String,
}

impl View for CreateTopic {
    type V = CreateTopicV;

    open spec fn view(&self) -> CreateTopicV {
        CreateTopicV {
            stream_id: self.stream_id@,
            topic_id: self.topic_id,
            partitions_count: self.partitions_count,
            message_expiry_secs: self.message_expiry_secs,
            max_topic_size_bytes: self.max_topic_size_bytes,
            replication_factor: self.replication_factor,
            name: self.name@,
        }
    }
}

/// The validation error of a `CreateTopic`, if any: a zero topic id, a name
/// outside the resource rules, too many partitions, or a zero replication
/// factor, checked in that order.
pub open spec fn spec_create_topic_error(v: CreateTopicV) -> Option<Error> {
    if v.topic_id == 0 {
        Some(Error::InvalidTopicId)
    } else if !is_resource_name(v.name) {
        Some(Error::InvalidTopicName)
    } else if v.partitions_count > MAX_PARTITIONS_COUNT {
        Some(Error::TooManyPartitions)
    } else if v.replication_factor == 0 {
        Some(Error::InvalidReplicationFactor)
    } else {
        None
    }
}

/// The binary frame of a `CreateTopic`.
pub open spec fn spec_create_topic_bytes(v: CreateTopicV) -> Seq<u8> {
    spec_id_bytes(v.stream_id) + spec_u32_to_le_bytes(v.topic_id) + spec_u32_to_le_bytes(
        v.partitions_count,
    ) + spec_u32_to_le_bytes(opt_u32_code(v.message_expiry_secs)) + spec_u64_to_le_bytes(
        opt_u64_code(v.max_topic_size_bytes),
    ) + seq![v.replication_factor] + seq![encode_utf8(v.name).len() as u8] + encode_utf8(v.name)
}

/// What parsing a binary `CreateTopic` frame yields, error kinds included.
pub open spec fn spec_parse_create_topic(s: Seq<u8>) -> Result<CreateTopicV, Error> {
    if s.len() < 18 {
        Err(Error::InvalidCommand)
    } else {
        match spec_id_from_bytes(s) {
            Err(e) => Err(e),
            Ok(sid) => {
                let p = 2 + sid.value.len() as int;
                if s.len() < p + 22 {
                    Err(Error::InvalidCommand)
                } else {
                    let name_len = s[p + 21];
                    if s.len() < p + 22 + name_len {
                        Err(Error::InvalidCommand)
                    } else {
                        let name_bytes = s.subrange(p + 22, p + 22 + name_len);
                        if !valid_utf8(name_bytes) {
                            Err(Error::InvalidCommand)
                        } else {
                            let v = CreateTopicV {
                                stream_id: sid,
                                topic_id: spec_u32_from_le_bytes(s.subrange(p, p + 4)),
                                partitions_count: spec_u32_from_le_bytes(s.subrange(p + 4, p + 8)),
                                message_expiry_secs: code_opt_u32(
                                    spec_u32_from_le_bytes(s.subrange(p + 8, p + 12)),
                                ),
                                max_topic_size_bytes: code_opt_u64(
                                    spec_u64_from_le_bytes(s.subrange(p + 12, p + 20)),
                                ),
                                replication_factor: s[p + 20],
                                name: decode_utf8(name_bytes),
                            };
                            match spec_create_topic_error(v) {
                                Some(e) => Err(e),
                                None => Ok(v),
                            }
                        }
                    }
                }
            },
        }
    }
}

impl CreateTopic {
    /// Internal consistency of the held identifier.
    pub open spec fn wf(&self) -> bool {
        self.stream_id.wf()
    }

    /// Checks the command's fields; `Ok` exactly when no rule is broken.
    pub fn validate(&self) -> (r: Result<(), Error>)
        ensures
            match r {
                Ok(()) => spec_create_topic_error(self@) is None,
                Err(e) => spec_create_topic_error(self@) == Some(e),
            },
    {
        if self.topic_id == 0 {
            return Err(Error::InvalidTopicId);
        }
        if !is_resource_name_valid(self.name.as_str()) {
            return Err(Error::InvalidTopicName);
        }
        if self.partitions_count > MAX_PARTITIONS_COUNT {
            return Err(Error::TooManyPartitions);
        }
        if self.replication_factor == 0 {
            return Err(Error::InvalidReplicationFactor);
        }
        Ok(())
    }

    /// Serializes the command into its binary frame.
    pub fn as_bytes(&self) -> (r: Vec<u8>)
        requires
            self.wf(),
            spec_create_topic_error(self@) is None,
        ensures
            r@ == spec_create_topic_bytes(self@),
    {
        proof {
            lemma_resource_name_ascii(self.name@);
            vstd::bytes::lemma_auto_spec_u32_to_from_le_bytes();
            vstd::bytes::lemma_auto_spec_u64_to_from_le_bytes();
        }
        let mut bytes = self.stream_id.as_bytes();
        wire::put_u32_le(&mut bytes, self.topic_id);
        wire::put_u32_le(&mut bytes, self.partitions_count);
        wire::put_u32_le(&mut bytes, wire::opt_u32_value(&self.message_expiry_secs));
        wire::put_u64_le(&mut bytes, wire::opt_u64_value(&self.max_topic_size_bytes));
        wire::put_u8(&mut bytes, self.replication_factor);
        let name_bytes = self.name.as_str().as_bytes();
        wire::put_u8(&mut bytes, name_bytes.len() as u8);
        wire::put_bytes(&mut bytes, name_bytes);
        proof {
            assert(bytes@ =~= spec_create_topic_bytes(self@));
        }
        bytes
    }

    /// Parses a binary `CreateTopic` frame. Frames cut short or holding a
    /// name that is not UTF-8 fail with `InvalidCommand`; a parsed command
    /// that breaks a validation rule fails with that rule's error.
    pub fn from_bytes(bytes: &[u8]) -> (r: Result<CreateTopic, Error>)
        ensures
            match r {
                Ok(c) => c.wf() && spec_parse_create_topic(bytes@) == Ok::<CreateTopicV, Error>(
                    c@,
                ),
                Err(e) => spec_parse_create_topic(bytes@) == Err::<CreateTopicV, Error>(e),
            },
    {
        let n: usize = bytes.len();
        if n < 18 {
            return Err(Error::InvalidCommand);
        }
        let stream_id = match Identifier::from_bytes(bytes) {
            Ok(id) => id,
            Err(e) => {
                return Err(e);
            },
        };
        let p = stream_id.get_size_bytes() as usize;
        if n < p + 22 {
            return Err(Error::InvalidCommand);
        }
        let topic_id = wire::get_u32_le(bytes, p);
        let partitions_count = wire::get_u32_le(bytes, p + 4);
        let message_expiry_secs = wire::u32_opt(wire::get_u32_le(bytes, p + 8));
        let max_topic_size_bytes = wire::u64_opt(wire::get_u64_le(bytes, p + 12));
        let replication_factor = bytes[p + 20];
        let name_len = bytes[p + 21];
        if n < p + 22 + name_len as usize {
            return Err(Error::InvalidCommand);
        }
        let name_vec = wire::copy_range(bytes, p + 22, name_len as usize);
        let name = match core::str::from_utf8(name_vec.as_slice()) {
            Ok(s) => s.to_owned(),
            Err(_) => {
                return Err(Error::InvalidCommand);
            },
        };
        proof {
            vstd::utf8::encode_utf8_decode_utf8(name@);
        }
        let command = CreateTopic {
            stream_id,
            topic_id,
            partitions_count,
            message_expiry_secs,
            max_topic_size_bytes,
            replication_factor,
            name,
        };
        match command.validate() {
            Ok(()) => Ok(command),
            Err(e) => Err(e),
        }
    }
}

/// The textual form of a `CreateTopic`: seven `|`-separated fields, the two
/// optional fields written as their wire codes (zero for "unset").
pub open spec fn spec_create_topic_text(v: CreateTopicV) -> Seq<char> {
    spec_id_text(v.stream_id) + seq!['|'] + spec_dec(v.topic_id as nat) + seq!['|'] + spec_dec(
        v.partitions_count as nat,
    ) + seq!['|'] + spec_dec(opt_u32_code(v.message_expiry_secs) as nat) + seq!['|'] + spec_dec(
        opt_u64_code(v.max_topic_size_bytes) as nat,
    ) + seq!['|'] + spec_dec(v.replication_factor as nat) + seq!['|'] + v.name
}

/// What parsing the textual form yields, error kinds included. A field count
/// other than seven fails with `InvalidCommand`; unparsable optional fields
/// read as "unset": the textual format forgives them.
pub open spec fn spec_create_topic_from_text(s: Seq<char>) -> Result<CreateTopicV, Error> {
    let parts = spec_split(s, '|');
    if parts.len() != 7 {
        Err(Error::InvalidCommand)
    } else {
        match spec_id_from_text(parts[0]) {
            Err(e) => Err(e),
            Ok(sid) => {
                match spec_parse_u32(parts[1]) {
                    None => Err(Error::InvalidCommand),
                    Some(topic_id) => {
                        match spec_parse_u32(parts[2]) {
                            None => Err(Error::InvalidCommand),
                            Some(pc) => {
                                match spec_parse_u8(parts[5]) {
                                    None => Err(Error::InvalidCommand),
                                    Some(rf) => {
                                        let expiry = match spec_parse_u32(parts[3]) {
                                            Some(x) => code_opt_u32(x),
                                            None => None,
                                        };
                                        let max = match spec_parse_u64(parts[4]) {
                                            Some(x) => code_opt_u64(x),
                                            None => None,
                                        };
                                        let v = CreateTopicV {
                                            stream_id: sid,
                                            topic_id,
                                            partitions_count: pc,
                                            message_expiry_secs: expiry,
                                            max_topic_size_bytes: max,
                                            replication_factor: rf,
                                            name: parts[6],
                                        };
                                        match spec_create_topic_error(v) {
                                            Some(e) => Err(e),
                                            None => Ok(v),
                                        }
                                    },
                                }
                            },
                        }
                    },
                }
            },
        }
    }
}

impl CreateTopic {
    /// Parses the textual form: seven `|`-separated fields.
    pub fn from_str(input: &str) -> (r: Result<CreateTopic, Error>)
        ensures
            match r {
                Ok(c) => c.wf() && spec_create_topic_from_text(input@) == Ok::<
                    CreateTopicV,
                    Error,
                >(c@),
                Err(e) => spec_create_topic_from_text(input@) == Err::<CreateTopicV, Error>(e),
            },
    {
        let parts = split_on_pipe(input);
        if parts.len() != 7 {
            return Err(Error::InvalidCommand);
        }
        let stream_id = match Identifier::from_str_value(parts[0].as_str()) {
            Ok(x) => x,
            Err(e) => {
                return Err(e);
            },
        };
        let topic_id = match parse_u32(parts[1].as_str()) {
            Ok(x) => x,
            Err(_) => {
                return Err(Error::InvalidCommand);
            },
        };
        let partitions_count = match parse_u32(parts[2].as_str()) {
            Ok(x) => x,
            Err(_) => {
                return Err(Error::InvalidCommand);
            },
        };
        let message_expiry_secs = match parse_u32(parts[3].as_str()) {
            Ok(x) => wire::u32_opt(x),
            Err(_) => None,
        };
        let max_topic_size_bytes = match crate::decimal::parse_u64(parts[4].as_str()) {
            Ok(x) => wire::u64_opt(x),
            Err(_) => None,
        };
        let replication_factor = match parse_u8(parts[5].as_str()) {
            Ok(x) => x,
            Err(_) => {
                return Err(Error::InvalidCommand);
            },
        };
        let name = parts[6].clone();
        let command = CreateTopic {
            stream_id,
            topic_id,
            partitions_count,
            message_expiry_secs,
            max_topic_size_bytes,
            replication_factor,
            name,
        };
        match command.validate() {
            Ok(()) => Ok(command),
            Err(e) => Err(e),
        }
    }

    /// Renders the textual form.
    pub fn to_text(&self) -> (r: String)
        requires
            self.wf(),
            self@.stream_id.kind is Named ==> valid_utf8(self@.stream_id.value),
        ensures
            r@ == spec_create_topic_text(self@),
    {
        let mut out = self.stream_id.to_text();
        out.push('|');
        out.append(u32_to_dec(self.topic_id).as_str());
        out.push('|');
        out.append(u32_to_dec(self.partitions_count).as_str());
        out.push('|');
        out.append(u32_to_dec(wire::opt_u32_value(&self.message_expiry_secs)).as_str());
        out.push('|');
        out.append(u64_to_dec(wire::opt_u64_value(&self.max_topic_size_bytes)).as_str());
        out.push('|');
        out.append(u64_to_dec(self.replication_factor as u64).as_str());
        out.push('|');
        out.append(self.name.as_str());
        proof {
            assert(out@ =~= spec_create_topic_text(self@));
        }
        out
    }
}

impl Default for CreateTopic {
    /// The default command: default stream id, topic id 1, one partition,
    /// no expiry, no size cap, replication factor 1, name `topic`.
    fn default() -> (r: CreateTopic)
        ensures
            r.wf(),
            r@.stream_id == crate::identifier::spec_numeric_id(1),
            r@.topic_id == 1,
            r@.partitions_count == 1,
            r@.message_expiry_secs is None,
            r@.max_topic_size_bytes is None,
            r@.replication_factor == 1,
            r@.name == "topic"@,
    {
        CreateTopic {
            stream_id: Identifier::default(),
            topic_id: 1,
            partitions_count: 1,
            message_expiry_secs: None,
            max_topic_size_bytes: None,
            replication_factor: 1,
            name: "topic".to_owned(),
        }
    }
}

/// Serializing a valid `CreateTopic` and parsing the frame back gives the
/// same command. Optional fields set to zero are excluded: zero is the wire
/// code of "unset", so `Some(0)` cannot survive any encoding.
pub proof fn lemma_create_topic_bytes_round_trip(v: CreateTopicV)
    requires
        id_wf(v.stream_id),
        spec_create_topic_error(v) is None,
        v.message_expiry_secs != Some(0u32),
        v.max_topic_size_bytes != Some(0u64),
    ensures
        spec_parse_create_topic(spec_create_topic_bytes(v)) == Ok::<CreateTopicV, Error>(v),
{
    let s = spec_create_topic_bytes(v);
    lemma_resource_name_ascii(v.name);
    vstd::bytes::lemma_auto_spec_u32_to_from_le_bytes();
    vstd::bytes::lemma_auto_spec_u64_to_from_le_bytes();
    let idb = spec_id_bytes(v.stream_id);
    let p = idb.len() as int;
    let nb = encode_utf8(v.name);
    let rest = s.subrange(p, s.len() as int);
    assert(s =~= idb + rest);
    crate::identifier::lemma_id_bytes_round_trip(v.stream_id, rest);
    assert(s.len() == p + 22 + nb.len());
    assert(s.subrange(p, p + 4) =~= spec_u32_to_le_bytes(v.topic_id));
    assert(s.subrange(p + 4, p + 8) =~= spec_u32_to_le_bytes(v.partitions_count));
    assert(s.subrange(p + 8, p + 12) =~= spec_u32_to_le_bytes(opt_u32_code(v.message_expiry_secs)));
    assert(s.subrange(p + 12, p + 20) =~= spec_u64_to_le_bytes(
        opt_u64_code(v.max_topic_size_bytes),
    ));
    assert(s[p + 20] == v.replication_factor);
    assert(s[p + 21] == nb.len() as u8);
    assert(nb.len() <= 255);
    assert(s.subrange(p + 22, p + 22 + nb.len()) =~= nb);
    match spec_parse_create_topic(s) {
        Ok(w) => {
            assert(w =~= v);
        },
        Err(_) => {
            assert(false);
        },
    }
}

/// Rendering a valid `CreateTopic` as text and parsing it back gives the
/// same command. Beyond the zero-valued optional fields, a named stream id
/// only survives when its name is UTF-8, does not itself read as a number,
/// and contains no `|`.
pub proof fn lemma_create_topic_text_round_trip(v: CreateTopicV)
    requires
        id_wf(v.stream_id),
        spec_create_topic_error(v) is None,
        v.message_expiry_secs != Some(0u32),
        v.max_topic_size_bytes != Some(0u64),
        v.stream_id.kind is Named ==> valid_utf8(v.stream_id.value) && spec_parse_u32(
            decode_utf8(v.stream_id.value),
        ) is None && (forall|j: int|
            0 <= j < decode_utf8(v.stream_id.value).len() ==> #[trigger] decode_utf8(
                v.stream_id.value,
            )[j] != '|'),
    ensures
        spec_create_topic_from_text(spec_create_topic_text(v)) == Ok::<CreateTopicV, Error>(v),
{
    let parts = seq![
        spec_id_text(v.stream_id),
        spec_dec(v.topic_id as nat),
        spec_dec(v.partitions_count as nat),
        spec_dec(opt_u32_code(v.message_expiry_secs) as nat),
        spec_dec(opt_u64_code(v.max_topic_size_bytes) as nat),
        spec_dec(v.replication_factor as nat),
        v.name,
    ];
    let text = spec_create_topic_text(v);
    crate::decimal::lemma_spec_dec_digits(v.topic_id as nat);
    crate::decimal::lemma_spec_dec_digits(v.partitions_count as nat);
    crate::decimal::lemma_spec_dec_digits(opt_u32_code(v.message_expiry_secs) as nat);
    crate::decimal::lemma_spec_dec_digits(opt_u64_code(v.max_topic_size_bytes) as nat);
    crate::decimal::lemma_spec_dec_digits(v.replication_factor as nat);
    assert forall|k: int| 1 <= k <= 5 implies crate::decimal::all_dec_digits(
        #[trigger] parts[k],
    ) by {
        if k == 1 {
            assert(parts[1] == spec_dec(v.topic_id as nat));
        } else if k == 2 {
            assert(parts[2] == spec_dec(v.partitions_count as nat));
        } else if k == 3 {
            assert(parts[3] == spec_dec(opt_u32_code(v.message_expiry_secs) as nat));
        } else if k == 4 {
            assert(parts[4] == spec_dec(opt_u64_code(v.max_topic_size_bytes) as nat));
        } else {
            assert(parts[5] == spec_dec(v.replication_factor as nat));
        }
    }
    lemma_parts_sep_free(parts, v.stream_id, v.name);
    lemma_join7(parts);
    assert(text =~= spec_join(parts, '|'));
    crate::text::lemma_split_join(parts, '|');
    assert(spec_split(text, '|') == parts);
    crate::identifier::lemma_id_text_round_trip(v.stream_id);
    crate::decimal::lemma_dec_round_trip(v.topic_id as u64);
    crate::decimal::lemma_dec_round_trip(v.partitions_count as u64);
    crate::decimal::lemma_dec_round_trip(opt_u32_code(v.message_expiry_secs) as u64);
    crate::decimal::lemma_dec_round_trip(opt_u64_code(v.max_topic_size_bytes));
    crate::decimal::lemma_dec_round_trip(v.replication_factor as u64);
    match spec_create_topic_from_text(text) {
        Ok(w) => {
            assert(w =~= v);
        },
        Err(_) => {
            assert(false);
        },
    }
}

/// Every field of the textual form is free of the separator: digit strings
/// and resource names exclude `|` by construction.
proof fn lemma_parts_sep_free(parts: Seq<Seq<char>>, sid: IdView, name: Seq<char>)
    requires
        parts.len() == 7,
        parts[0] == spec_id_text(sid),
        id_wf(sid),
        sid.kind is Named ==> (forall|j: int|
            0 <= j < decode_utf8(sid.value).len() ==> #[trigger] decode_utf8(sid.value)[j] != '|'),
        parts[6] == name,
        is_resource_name(name),
        forall|k: int| 1 <= k <= 5 ==> crate::decimal::all_dec_digits(#[trigger] parts[k]),
    ensures
        forall|k: int, j: int|
            0 <= k < parts.len() && 0 <= j < parts[k].len() ==> #[trigger] parts[k][j] != '|',
{
    match sid.kind {
        crate::identifier::IdKind::Numeric => {
            crate::decimal::lemma_spec_dec_digits(
                vstd::bytes::spec_u32_from_le_bytes(sid.value) as nat,
            );
        },
        crate::identifier::IdKind::Named => {},
    }
    assert forall|k: int, j: int|
        0 <= k < parts.len() && 0 <= j < parts[k].len() implies #[trigger] parts[k][j] != '|' by {
        let c = parts[k][j];
        if k == 0 {
            match sid.kind {
                crate::identifier::IdKind::Numeric => {
                    assert(crate::decimal::is_dec_digit(c));
                    assert(c as u32 != 124);
                    if c == '|' {
                        assert(c as u32 == 124);
                    }
                },
                crate::identifier::IdKind::Named => {
                    assert(c != '|');
                },
            }
        } else if k == 6 {
            assert(crate::text::is_resource_char(c));
            assert(c as u32 != 124);
            if c == '|' {
                assert(c as u32 == 124);
            }
        } else {
            assert(crate::decimal::is_dec_digit(c));
            assert(c as u32 != 124);
            if c == '|' {
                assert(c as u32 == 124);
            }
        }
    }
}

/// Unfolds `spec_join` over exactly seven parts.
proof fn lemma_join7(parts: Seq<Seq<char>>)
    requires
        parts.len() == 7,
    ensures
        spec_join(parts, '|') == parts[0] + seq!['|'] + parts[1] + seq!['|'] + parts[2] + seq!['|']
            + parts[3] + seq!['|'] + parts[4] + seq!['|'] + parts[5] + seq!['|'] + parts[6],
{
    let p6 = parts.subrange(6, 7);
    let p5 = parts.subrange(5, 7);
    let p4 = parts.subrange(4, 7);
    let p3 = parts.subrange(3, 7);
    let p2 = parts.subrange(2, 7);
    let p1 = parts.subrange(1, 7);
    assert(p6.len() == 1 && p6[0] == parts[6]);
    assert(spec_join(p6, '|') == parts[6]);
    assert(p5[0] == parts[5]);
    assert(p5.subrange(1, 2) =~= p6);
    assert(spec_join(p5, '|') =~= parts[5] + seq!['|'] + parts[6]);
    assert(p4[0] == parts[4]);
    assert(p4.subrange(1, 3) =~= p5);
    assert(spec_join(p4, '|') =~= parts[4] + seq!['|'] + parts[5] + seq!['|'] + parts[6]);
    assert(p3[0] == parts[3]);
    assert(p3.subrange(1, 4) =~= p4);
    assert(spec_join(p3, '|') =~= parts[3] + seq!['|'] + parts[4] + seq!['|'] + parts[5]
        + seq!['|'] + parts[6]);
    assert(p2[0] == parts[2]);
    assert(p2.subrange(1, 5) =~= p3);
    assert(spec_join(p2, '|') =~= parts[2] + seq!['|'] + parts[3] + seq!['|'] + parts[4]
        + seq!['|'] + parts[5] + seq!['|'] + parts[6]);
    assert(p1[0] == parts[1]);
    assert(p1.subrange(1, 6) =~= p2);
    assert(spec_join(p1, '|') =~= parts[1] + seq!['|'] + parts[2] + seq!['|'] + parts[3]
        + seq!['|'] + parts[4] + seq!['|'] + parts[5] + seq!['|'] + parts[6]);
    assert(parts.subrange(1, 7) =~= p1);
    assert(spec_join(parts, '|') =~= parts[0] + seq!['|'] + parts[1] + seq!['|'] + parts[2]
        + seq!['|'] + parts[3] + seq!['|'] + parts[4] + seq!['|'] + parts[5] + seq!['|']
        + parts[6]);
}

/// A resource name is ASCII, and its UTF-8 encoding is it, byte for byte.
pub proof fn lemma_resource_name_ascii(s: Seq<char>)
    requires
        is_resource_name(s),
    ensures
        vstd::utf8::is_ascii_chars(s),
        encode_utf8(s).len() == s.len(),
        valid_utf8(encode_utf8(s)),
        decode_utf8(encode_utf8(s)) == s,
{
    assert forall|i: int| 0 <= i < s.len() implies ('\0' <= #[trigger] s[i] && s[i]
        <= '\u{7f}') by {
        let c: char = s[i];
        assert(crate::text::is_resource_char(c));
        vstd::utf8::char_is_scalar(c);
        vstd::utf8::char_u32_cast(c, c as u32);
    }
    assert(vstd::utf8::is_ascii_chars(s));
    vstd::utf8::is_ascii_chars_encode_utf8(s);
    vstd::utf8::encode_utf8_valid_utf8(s);
    vstd::utf8::encode_utf8_decode_utf8(s);
}

} // verus!
