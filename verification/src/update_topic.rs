//! The `UpdateTopic` admin command, with its binary and textual encodings.
//!
//! Binary layout: `stream_id:Identifier | topic_id:Identifier |
//! message_expiry_secs:u32 | max_topic_size_bytes:u64 | replication_factor:u8
//! | name_len:u8 | name`. Zero encodes "unset" for the two optional fields.
//! Textual form: `stream_id|topic_id|expiry|max_size|replication|name`.

use crate::create_topic::lemma_resource_name_ascii;
use crate::decimal::{parse_u32, parse_u64, parse_u8, spec_dec, spec_parse_u32, spec_parse_u64, spec_parse_u8, u32_to_dec, u64_to_dec};
use crate::error::Error;
use crate::identifier::{
    id_wf, spec_id_bytes, spec_id_from_bytes, spec_id_from_text, spec_id_text, IdView, Identifier,
};
use crate::text::{is_resource_name, is_resource_name_valid, spec_join, spec_split, split_on_pipe};
use crate::wire;
use crate::wire::{code_opt_u32, code_opt_u64, opt_u32_code, opt_u64_code};
use vstd::bytes::{
    spec_u32_from_le_bytes, spec_u32_to_le_bytes, spec_u64_from_le_bytes, spec_u64_to_le_bytes,
};
use vstd::prelude::*;
use vstd::string::StrSliceExecFns;
use vstd::string::StringSliceAdditionalSpecFns;
use vstd::utf8::{decode_utf8, encode_utf8, valid_utf8};

verus! {

/// The mathematical view of an [`UpdateTopic`] command.
#[verifier::ext_equal]
pub struct UpdateTopicV {
    pub stream_id: IdView,
    pub topic_id: IdView,
    pub message_expiry_secs: Option<u32>,
    pub max_topic_size_bytes: Option<u64>,
    pub replication_factor: u8,
    pub name: Seq<char>,
}

/// Updates a topic in a stream: renames it and resets its retention policy.
#[derive(Debug, Clone, PartialEq)]
pub struct UpdateTopic {
    /// The stream holding the topic (numeric id or name).
    pub stream_id: Identifier,
    /// The topic to update (numeric id or name).
    pub topic_id: Identifier,
    /// Message expiry in seconds; `None` means messages never expire.
    pub message_expiry_secs: Option<u32>,
    /// Maximum topic size in bytes; `None` means unlimited.
    pub max_topic_size_bytes: Option<u64>,
    /// Replication factor, at least 1.
    pub replication_factor: u8,
    /// New topic name, 1 to 255 resource-charset characters.
    pub name: String,
}

impl View for UpdateTopic {
    type V = UpdateTopicV;

    open spec fn view(&self) -> UpdateTopicV {
        UpdateTopicV {
            stream_id: self.stream_id@,
            topic_id: self.topic_id@,
            message_expiry_secs: self.message_expiry_secs,
            max_topic_size_bytes: self.max_topic_size_bytes,
            replication_factor: self.replication_factor,
            name: self.name@,
        }
    }
}

/// The validation error of an `UpdateTopic`, if any: a name outside the
/// resource rules, or a zero replication factor, checked in that order.
pub open spec fn spec_update_topic_error(v: UpdateTopicV) -> Option<Error> {
    if !is_resource_name(v.name) {
        Some(Error::InvalidTopicName)
    } else if v.replication_factor == 0 {
        Some(Error::InvalidReplicationFactor)
    } else {
        None
    }
}

/// The binary frame of an `UpdateTopic`.
pub open spec fn spec_update_topic_bytes(v: UpdateTopicV) -> Seq<u8> {
    spec_id_bytes(v.stream_id) + spec_id_bytes(v.topic_id) + spec_u32_to_le_bytes(
        opt_u32_code(v.message_expiry_secs),
    ) + spec_u64_to_le_bytes(opt_u64_code(v.max_topic_size_bytes)) + seq![v.replication_factor]
        + seq![encode_utf8(v.name).len() as u8] + encode_utf8(v.name)
}

/// What parsing a binary `UpdateTopic` frame yields, error kinds included.
pub open spec fn spec_parse_update_topic(s: Seq<u8>) -> Result<UpdateTopicV, Error> {
    if s.len() < 12 {
        Err(Error::InvalidCommand)
    } else {
        match spec_id_from_bytes(s) {
            Err(e) => Err(e),
            Ok(sid) => {
                let p1 = 2 + sid.value.len() as int;
                let s1 = s.subrange(p1, s.len() as int);
                match spec_id_from_bytes(s1) {
                    Err(e) => Err(e),
                    Ok(tid) => {
                        let p = p1 + 2 + tid.value.len() as int;
                        if s.len() < p + 14 {
                            Err(Error::InvalidCommand)
                        } else {
                            let name_len = s[p + 13];
                            if s.len() < p + 14 + name_len {
                                Err(Error::InvalidCommand)
                            } else {
                                let name_bytes = s.subrange(p + 14, p + 14 + name_len);
                                if !valid_utf8(name_bytes) {
                                    Err(Error::InvalidCommand)
                                } else {
                                    let v = UpdateTopicV {
                                        stream_id: sid,
                                        topic_id: tid,
                                        message_expiry_secs: code_opt_u32(
                                            spec_u32_from_le_bytes(s.subrange(p, p + 4)),
                                        ),
                                        max_topic_size_bytes: code_opt_u64(
                                            spec_u64_from_le_bytes(s.subrange(p + 4, p + 12)),
                                        ),
                                        replication_factor: s[p + 12],
                                        name: decode_utf8(name_bytes),
                                    };
                                    match spec_update_topic_error(v) {
                                        Some(e) => Err(e),
                                        None => Ok(v),
                                    }
                                }
                            }
                        }
                    },
                }
            },
        }
    }
}

impl UpdateTopic {
    /// Internal consistency of the held identifiers.
    pub open spec fn wf(&self) -> bool {
        self.stream_id.wf() && self.topic_id.wf()
    }

    /// Checks the command's fields; `Ok` exactly when no rule is broken.
    pub fn validate(&self) -> (r: Result<(), Error>)
        ensures
            match r {
                Ok(()) => spec_update_topic_error(self@) is None,
                Err(e) => spec_update_topic_error(self@) == Some(e),
            },
    {
        if !is_resource_name_valid(self.name.as_str()) {
            return Err(Error::InvalidTopicName);
        }
        if self.replication_factor == 0 {
            return Err(Error::InvalidReplicationFactor);
        }
        Ok(())
    }

    /// Serializes the command into its binary frame.
    pub fn as_bytes(&self) -> (r: Vec<u8>)
        requires
            self.wf(),
            spec_update_topic_error(self@) is None,
        ensures
            r@ == spec_update_topic_bytes(self@),
    {
        proof {
            lemma_resource_name_ascii(self.name@);
            vstd::bytes::lemma_auto_spec_u32_to_from_le_bytes();
            vstd::bytes::lemma_auto_spec_u64_to_from_le_bytes();
        }
        let mut bytes = self.stream_id.as_bytes();
        let tid_bytes = self.topic_id.as_bytes();
        wire::put_bytes(&mut bytes, tid_bytes.as_slice());
        wire::put_u32_le(&mut bytes, wire::opt_u32_value(&self.message_expiry_secs));
        wire::put_u64_le(&mut bytes, wire::opt_u64_value(&self.max_topic_size_bytes));
        wire::put_u8(&mut bytes, self.replication_factor);
        let name_bytes = self.name.as_str().as_bytes();
        wire::put_u8(&mut bytes, name_bytes.len() as u8);
        wire::put_bytes(&mut bytes, name_bytes);
        proof {
            assert(bytes@ =~= spec_update_topic_bytes(self@));
        }
        bytes
    }

    /// Parses a binary `UpdateTopic` frame. Frames cut short or holding a
    /// name that is not UTF-8 fail with `InvalidCommand`; a parsed command
    /// that breaks a validation rule fails with that rule's error.
    pub fn from_bytes(bytes: &[u8]) -> (r: Result<UpdateTopic, Error>)
        ensures
            match r {
                Ok(c) => c.wf() && spec_parse_update_topic(bytes@) == Ok::<UpdateTopicV, Error>(
                    c@,
                ),
                Err(e) => spec_parse_update_topic(bytes@) == Err::<UpdateTopicV, Error>(e),
            },
    {
        let n: usize = bytes.len();
        if n < 12 {
            return Err(Error::InvalidCommand);
        }
        let stream_id = match Identifier::from_bytes(bytes) {
            Ok(id) => id,
            Err(e) => {
                return Err(e);
            },
        };
        let p1 = stream_id.get_size_bytes() as usize;
        let tail = vstd::slice::slice_subrange(bytes, p1, n);
        let topic_id = match Identifier::from_bytes(tail) {
            Ok(id) => id,
            Err(e) => {
                return Err(e);
            },
        };
        let p = p1 + topic_id.get_size_bytes() as usize;
        if n < p + 14 {
            return Err(Error::InvalidCommand);
        }
        proof {
            assert(bytes@.subrange(p as int, p + 4) =~= tail@.subrange(
                p - p1 as int,
                p - p1 + 4 as int,
            ));
        }
        let message_expiry_secs = wire::u32_opt(wire::get_u32_le(bytes, p));
        let max_topic_size_bytes = wire::u64_opt(wire::get_u64_le(bytes, p + 4));
        let replication_factor = bytes[p + 12];
        let name_len = bytes[p + 13];
        if n < p + 14 + name_len as usize {
            return Err(Error::InvalidCommand);
        }
        let name_vec = wire::copy_range(bytes, p + 14, name_len as usize);
        let name = match core::str::from_utf8(name_vec.as_slice()) {
            Ok(s) => s.to_owned(),
            Err(_) => {
                return Err(Error::InvalidCommand);
            },
        };
        proof {
            vstd::utf8::encode_utf8_decode_utf8(name@);
        }
        let command = UpdateTopic {
            stream_id,
            topic_id,
            message_expiry_secs,
            max_topic_size_bytes,
            replication_factor,
            name,
        };
        match command.validate() {
            Ok(()) => Ok(command),
            Err(e) => Err(e),
        }
    }
}

/// The textual form of an `UpdateTopic`: six `|`-separated fields, the two
/// optional fields written as their wire codes (zero for "unset").
pub open spec fn spec_update_topic_text(v: UpdateTopicV) -> Seq<char> {
    spec_id_text(v.stream_id) + seq!['|'] + spec_id_text(v.topic_id) + seq!['|'] + spec_dec(
        opt_u32_code(v.message_expiry_secs) as nat,
    ) + seq!['|'] + spec_dec(opt_u64_code(v.max_topic_size_bytes) as nat) + seq!['|'] + spec_dec(
        v.replication_factor as nat,
    ) + seq!['|'] + v.name
}

/// What parsing the textual form yields, error kinds included. Unlike the
/// `CreateTopic` textual format, unparsable optional fields are errors here.
pub open spec fn spec_update_topic_from_text(s: Seq<char>) -> Result<UpdateTopicV, Error> {
    let parts = spec_split(s, '|');
    if parts.len() != 6 {
        Err(Error::InvalidCommand)
    } else {
        match spec_id_from_text(parts[0]) {
            Err(e) => Err(e),
            Ok(sid) => {
                match spec_id_from_text(parts[1]) {
                    Err(e) => Err(e),
                    Ok(tid) => {
                        match spec_parse_u32(parts[2]) {
                            None => Err(Error::InvalidCommand),
                            Some(expiry_code) => {
                                match spec_parse_u64(parts[3]) {
                                    None => Err(Error::InvalidCommand),
                                    Some(max_code) => {
                                        match spec_parse_u8(parts[4]) {
                                            None => Err(Error::InvalidCommand),
                                            Some(rf) => {
                                                let v = UpdateTopicV {
                                                    stream_id: sid,
                                                    topic_id: tid,
                                                    message_expiry_secs: code_opt_u32(expiry_code),
                                                    max_topic_size_bytes: code_opt_u64(max_code),
                                                    replication_factor: rf,
                                                    name: parts[5],
                                                };
                                                match spec_update_topic_error(v) {
                                                    Some(e) => Err(e),
                                                    None => Ok(v),
                                                }
                                            },
                                        }
                                    },
                                }
                            },
                        }
                    },
                }
            },
        }
    }
}

impl UpdateTopic {
    /// Parses the textual form: six `|`-separated fields.
    pub fn from_str(input: &str) -> (r: Result<UpdateTopic, Error>)
        ensures
            match r {
                Ok(c) => c.wf() && spec_update_topic_from_text(input@) == Ok::<
                    UpdateTopicV,
                    Error,
                >(c@),
                Err(e) => spec_update_topic_from_text(input@) == Err::<UpdateTopicV, Error>(e),
            },
    {
        let parts = split_on_pipe(input);
        if parts.len() != 6 {
            return Err(Error::InvalidCommand);
        }
        let stream_id = match Identifier::from_str_value(parts[0].as_str()) {
            Ok(x) => x,
            Err(e) => {
                return Err(e);
            },
        };
        let topic_id = match Identifier::from_str_value(parts[1].as_str()) {
            Ok(x) => x,
            Err(e) => {
                return Err(e);
            },
        };
        let message_expiry_secs = match parse_u32(parts[2].as_str()) {
            Ok(x) => wire::u32_opt(x),
            Err(_) => {
                return Err(Error::InvalidCommand);
            },
        };
        let max_topic_size_bytes = match parse_u64(parts[3].as_str()) {
            Ok(x) => wire::u64_opt(x),
            Err(_) => {
                return Err(Error::InvalidCommand);
            },
        };
        let replication_factor = match parse_u8(parts[4].as_str()) {
            Ok(x) => x,
            Err(_) => {
                return Err(Error::InvalidCommand);
            },
        };
        let name = parts[5].clone();
        let command = UpdateTopic {
            stream_id,
            topic_id,
            message_expiry_secs,
            max_topic_size_bytes,
            replication_factor,
            name,
        };
        match command.validate() {
            Ok(()) => Ok(command),
            Err(e) => Err(e),
        }
    }

    /// Renders the textual form.
    pub fn to_text(&self) -> (r: String)
        requires
            self.wf(),
            self@.stream_id.kind is Named ==> valid_utf8(self@.stream_id.value),
            self@.topic_id.kind is Named ==> valid_utf8(self@.topic_id.value),
        ensures
            r@ == spec_update_topic_text(self@),
    {
        let mut out = self.stream_id.to_text();
        out.push('|');
        out.append(self.topic_id.to_text().as_str());
        out.push('|');
        out.append(u32_to_dec(wire::opt_u32_value(&self.message_expiry_secs)).as_str());
        out.push('|');
        out.append(u64_to_dec(wire::opt_u64_value(&self.max_topic_size_bytes)).as_str());
        out.push('|');
        out.append(u64_to_dec(self.replication_factor as u64).as_str());
        out.push('|');
        out.append(self.name.as_str());
        proof {
            assert(out@ =~= spec_update_topic_text(self@));
        }
        out
    }
}

impl Default for UpdateTopic {
    /// The default command: default identifiers, no expiry, no size cap,
    /// replication factor 1, name `topic`.
    fn default() -> (r: UpdateTopic)
        ensures
            r.wf(),
            r@.stream_id == crate::identifier::spec_numeric_id(1),
            r@.topic_id == crate::identifier::spec_numeric_id(1),
            r@.message_expiry_secs is None,
            r@.max_topic_size_bytes is None,
            r@.replication_factor == 1,
            r@.name == "topic"@,
    {
        UpdateTopic {
            stream_id: Identifier::default(),
            topic_id: Identifier::default(),
            message_expiry_secs: None,
            max_topic_size_bytes: None,
            replication_factor: 1,
            name: "topic".to_owned(),
        }
    }
}

/// Serializing a valid `UpdateTopic` and parsing the frame back gives the
/// same command, with the same zero-valued-option exclusion as for
/// `CreateTopic`.
pub proof fn lemma_update_topic_bytes_round_trip(v: UpdateTopicV)
    requires
        id_wf(v.stream_id),
        id_wf(v.topic_id),
        spec_update_topic_error(v) is None,
        v.message_expiry_secs != Some(0u32),
        v.max_topic_size_bytes != Some(0u64),
    ensures
        spec_parse_update_topic(spec_update_topic_bytes(v)) == Ok::<UpdateTopicV, Error>(v),
{
    let s = spec_update_topic_bytes(v);
    lemma_resource_name_ascii(v.name);
    vstd::bytes::lemma_auto_spec_u32_to_from_le_bytes();
    vstd::bytes::lemma_auto_spec_u64_to_from_le_bytes();
    let sidb = spec_id_bytes(v.stream_id);
    let tidb = spec_id_bytes(v.topic_id);
    let p1 = sidb.len() as int;
    let p = p1 + tidb.len() as int;
    let nb = encode_utf8(v.name);
    let rest1 = s.subrange(p1, s.len() as int);
    assert(s =~= sidb + rest1);
    crate::identifier::lemma_id_bytes_round_trip(v.stream_id, rest1);
    let rest2 = s.subrange(p, s.len() as int);
    assert(rest1 =~= tidb + rest2);
    crate::identifier::lemma_id_bytes_round_trip(v.topic_id, rest2);
    assert(s.len() == p + 14 + nb.len());
    assert(s.subrange(p, p + 4) =~= spec_u32_to_le_bytes(opt_u32_code(v.message_expiry_secs)));
    assert(s.subrange(p + 4, p + 12) =~= spec_u64_to_le_bytes(opt_u64_code(v.max_topic_size_bytes)));
    assert(s[p + 12] == v.replication_factor);
    assert(s[p + 13] == nb.len() as u8);
    assert(nb.len() <= 255);
    assert(s.subrange(p + 14, p + 14 + nb.len()) =~= nb);
    match spec_parse_update_topic(s) {
        Ok(w) => {
            assert(w =~= v);
        },
        Err(_) => {
            assert(false);
        },
    }
}

/// Rendering a valid `UpdateTopic` as text and parsing it back gives the
/// same command, under the same conditions as for `CreateTopic`, applied to
/// both identifiers.
pub proof fn lemma_update_topic_text_round_trip(v: UpdateTopicV)
    requires
        id_wf(v.stream_id),
        id_wf(v.topic_id),
        spec_update_topic_error(v) is None,
        v.message_expiry_secs != Some(0u32),
        v.max_topic_size_bytes != Some(0u64),
        v.stream_id.kind is Named ==> valid_utf8(v.stream_id.value) && spec_parse_u32(
            decode_utf8(v.stream_id.value),
        ) is None && (forall|j: int|
            0 <= j < decode_utf8(v.stream_id.value).len() ==> #[trigger] decode_utf8(
                v.stream_id.value,
            )[j] != '|'),
        v.topic_id.kind is Named ==> valid_utf8(v.topic_id.value) && spec_parse_u32(
            decode_utf8(v.topic_id.value),
        ) is None && (forall|j: int|
            0 <= j < decode_utf8(v.topic_id.value).len() ==> #[trigger] decode_utf8(
                v.topic_id.value,
            )[j] != '|'),
    ensures
        spec_update_topic_from_text(spec_update_topic_text(v)) == Ok::<UpdateTopicV, Error>(v),
{
    let parts = seq![
        spec_id_text(v.stream_id),
        spec_id_text(v.topic_id),
        spec_dec(opt_u32_code(v.message_expiry_secs) as nat),
        spec_dec(opt_u64_code(v.max_topic_size_bytes) as nat),
        spec_dec(v.replication_factor as nat),
        v.name,
    ];
    let text = spec_update_topic_text(v);
    crate::decimal::lemma_spec_dec_digits(opt_u32_code(v.message_expiry_secs) as nat);
    crate::decimal::lemma_spec_dec_digits(opt_u64_code(v.max_topic_size_bytes) as nat);
    crate::decimal::lemma_spec_dec_digits(v.replication_factor as nat);
    lemma_id_text_sep_free(v.stream_id);
    lemma_id_text_sep_free(v.topic_id);
    assert forall|k: int, j: int|
        0 <= k < parts.len() && 0 <= j < parts[k].len() implies #[trigger] parts[k][j] != '|' by {
        let c = parts[k][j];
        if k == 0 || k == 1 {
        } else if k == 5 {
            assert(crate::text::is_resource_char(c));
            if c == '|' {
                assert(c as u32 == 124);
            }
        } else {
            assert(crate::decimal::is_dec_digit(c));
            if c == '|' {
                assert(c as u32 == 124);
            }
        }
    }
    lemma_join6(parts);
    assert(text =~= spec_join(parts, '|'));
    crate::text::lemma_split_join(parts, '|');
    assert(spec_split(text, '|') == parts);
    crate::identifier::lemma_id_text_round_trip(v.stream_id);
    crate::identifier::lemma_id_text_round_trip(v.topic_id);
    crate::decimal::lemma_dec_round_trip(opt_u32_code(v.message_expiry_secs) as u64);
    crate::decimal::lemma_dec_round_trip(opt_u64_code(v.max_topic_size_bytes));
    crate::decimal::lemma_dec_round_trip(v.replication_factor as u64);
    match spec_update_topic_from_text(text) {
        Ok(w) => {
            assert(w =~= v);
        },
        Err(_) => {
            assert(false);
        },
    }
}

/// The textual form of a well-formed identifier contains no `|`, provided a
/// named identifier's text does not (numeric text is all digits).
proof fn lemma_id_text_sep_free(v: IdView)
    requires
        id_wf(v),
        v.kind is Named ==> (forall|j: int|
            0 <= j < decode_utf8(v.value).len() ==> #[trigger] decode_utf8(v.value)[j] != '|'),
    ensures
        forall|j: int| 0 <= j < spec_id_text(v).len() ==> #[trigger] spec_id_text(v)[j] != '|',
{
    match v.kind {
        crate::identifier::IdKind::Numeric => {
            crate::decimal::lemma_spec_dec_digits(spec_u32_from_le_bytes(v.value) as nat);
            assert forall|j: int| 0 <= j < spec_id_text(v).len() implies #[trigger] spec_id_text(
                v,
            )[j] != '|' by {
                let c = spec_id_text(v)[j];
                assert(crate::decimal::is_dec_digit(c));
                if c == '|' {
                    assert(c as u32 == 124);
                }
            }
        },
        crate::identifier::IdKind::Named => {},
    }
}

/// Unfolds `spec_join` over exactly six parts.
proof fn lemma_join6(parts: Seq<Seq<char>>)
    requires
        parts.len() == 6,
    ensures
        spec_join(parts, '|') == parts[0] + seq!['|'] + parts[1] + seq!['|'] + parts[2] + seq!['|']
            + parts[3] + seq!['|'] + parts[4] + seq!['|'] + parts[5],
{
    let p5 = parts.subrange(5, 6);
    let p4 = parts.subrange(4, 6);
    let p3 = parts.subrange(3, 6);
    let p2 = parts.subrange(2, 6);
    let p1 = parts.subrange(1, 6);
    assert(p5.len() == 1 && p5[0] == parts[5]);
    assert(spec_join(p5, '|') == parts[5]);
    assert(p4[0] == parts[4]);
    assert(p4.subrange(1, 2) =~= p5);
    assert(spec_join(p4, '|') =~= parts[4] + seq!['|'] + parts[5]);
    assert(p3[0] == parts[3]);
    assert(p3.subrange(1, 3) =~= p4);
    assert(spec_join(p3, '|') =~= parts[3] + seq!['|'] + parts[4] + seq!['|'] + parts[5]);
    assert(p2[0] == parts[2]);
    assert(p2.subrange(1, 4) =~= p3);
    assert(spec_join(p2, '|') =~= parts[2] + seq!['|'] + parts[3] + seq!['|'] + parts[4]
        + seq!['|'] + parts[5]);
    assert(p1[0] == parts[1]);
    assert(p1.subrange(1, 5) =~= p2);
    assert(spec_join(p1, '|') =~= parts[1] + seq!['|'] + parts[2] + seq!['|'] + parts[3]
        + seq!['|'] + parts[4] + seq!['|'] + parts[5]);
    assert(parts.subrange(1, 6) =~= p1);
    assert(spec_join(parts, '|') =~= parts[0] + seq!['|'] + parts[1] + seq!['|'] + parts[2]
        + seq!['|'] + parts[3] + seq!['|'] + parts[4] + seq!['|'] + parts[5]);
}

} // verus!
