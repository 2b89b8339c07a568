//! The per-message wire layout inside a batch payload.
//!
//! Little-endian: `offset:u64 | state:u8 | timestamp:u64 | id:u128 |
//! checksum:u32 | headers_len:u32 | headers | payload_len:u32 | payload`.
//! Each header is `key_len:u32 | key | kind:u8 | value_len:u32 | value`.

use crate::error::Error;
use crate::wire;
use vstd::bytes::{
    spec_u128_to_le_bytes, spec_u32_from_le_bytes, spec_u32_to_le_bytes, spec_u64_to_le_bytes,
};
use vstd::prelude::*;

verus! {

/// The delivery state of one message.
#[derive(Debug, Clone, Copy, PartialEq, Eq, Structural)]
pub enum MessageState {
    /// Deliverable.
    Available,
    /// Temporarily not deliverable.
    Unavailable,
    /// Rejected by consumers.
    Poisoned,
    /// Awaiting deletion.
    MarkedForDeletion,
}

impl MessageState {
    /// The wire code of the state.
    pub open spec fn spec_as_code(self) -> u8 {
        match self {
            MessageState::Available => 1u8,
            MessageState::Unavailable => 10u8,
            MessageState::Poisoned => 20u8,
            MessageState::MarkedForDeletion => 30u8,
        }
    }

    /// Is `code` the wire code of some state?
    pub open spec fn spec_valid_code(code: u8) -> bool {
        code == 1 || code == 10 || code == 20 || code == 30
    }

    /// The state a valid wire code denotes.
    pub open spec fn spec_from_code(code: u8) -> MessageState {
        if code == 1 {
            MessageState::Available
        } else if code == 10 {
            MessageState::Unavailable
        } else if code == 20 {
            MessageState::Poisoned
        } else {
            MessageState::MarkedForDeletion
        }
    }

    /// The wire code of the state.
    pub fn as_code(&self) -> (r: u8)
        ensures
            r == self.spec_as_code(),
    {
        match self {
            MessageState::Available => 1,
            MessageState::Unavailable => 10,
            MessageState::Poisoned => 20,
            MessageState::MarkedForDeletion => 30,
        }
    }

    /// The state a wire code denotes; unknown codes are rejected.
    pub fn from_code(code: u8) -> (r: Result<MessageState, Error>)
        ensures
            match r {
                Ok(s) => MessageState::spec_valid_code(code) && s == MessageState::spec_from_code(
                    code,
                ),
                Err(e) => !MessageState::spec_valid_code(code) && e is InvalidCommand,
            },
    {
        if code == 1 {
            Ok(MessageState::Available)
        } else if code == 10 {
            Ok(MessageState::Unavailable)
        } else if code == 20 {
            Ok(MessageState::Poisoned)
        } else if code == 30 {
            Ok(MessageState::MarkedForDeletion)
        } else {
            Err(Error::InvalidCommand)
        }
    }
}

/// The mathematical view of one message header.
#[verifier::ext_equal]
pub struct HeaderV {
    pub key: Seq<u8>,
    pub kind: u8,
    pub value: Seq<u8>,
}

/// One header attached to a message: a key, a value kind tag, and the raw
/// value bytes.
#[derive(Debug, PartialEq)]
pub struct MessageHeader {
    pub key: Vec<u8>,
    pub kind: u8,
    pub value: Vec<u8>,
}

impl View for MessageHeader {
    type V = HeaderV;

    open spec fn view(&self) -> HeaderV {
        HeaderV { key: self.key@, kind: self.kind, value: self.value@ }
    }
}

impl DeepView for MessageHeader {
    type V = HeaderV;

    open spec fn deep_view(&self) -> HeaderV {
        self@
    }
}

/// Is `code` a known header value kind? The kinds cover raw bytes, text,
/// booleans, the signed and unsigned integer widths, and the two float
/// widths: codes 1 through 15.
pub open spec fn spec_valid_header_kind(code: u8) -> bool {
    1 <= code <= 15
}

/// A header whose key and value lengths fit their wire fields and whose
/// kind byte names a known value kind.
pub open spec fn header_wf(h: HeaderV) -> bool {
    h.key.len() <= u32::MAX && h.value.len() <= u32::MAX && spec_valid_header_kind(h.kind)
}

/// The wire bytes of one header.
pub open spec fn spec_header_bytes(h: HeaderV) -> Seq<u8> {
    spec_u32_to_le_bytes(h.key.len() as u32) + h.key + seq![h.kind] + spec_u32_to_le_bytes(
        h.value.len() as u32,
    ) + h.value
}

/// The wire bytes of a header list, in order.
pub open spec fn spec_headers_bytes(hs: Seq<HeaderV>) -> Seq<u8>
    decreases hs.len(),
{
    if hs.len() == 0 {
        Seq::empty()
    } else {
        spec_header_bytes(hs[0]) + spec_headers_bytes(hs.drop_first())
    }
}

/// The header block of a message: empty when there are no headers.
pub open spec fn spec_headers_code(h: Option<Seq<HeaderV>>) -> Seq<u8> {
    match h {
        Some(hs) => spec_headers_bytes(hs),
        None => Seq::empty(),
    }
}

/// The mathematical view of one message.
#[verifier::ext_equal]
pub struct MessageV {
    pub offset: u64,
    pub state: MessageState,
    pub timestamp: u64,
    pub id: u128,
    pub checksum: u32,
    pub headers: Option<Seq<HeaderV>>,
    pub length: u32,
    pub payload: Seq<u8>,
}

/// One message: broker-assigned offset, state, producer timestamp and id,
/// checksum, optional headers, and the opaque payload.
#[derive(Debug, PartialEq)]
pub struct Message {
    pub offset: u64,
    pub state: MessageState,
    pub timestamp: u64,
    pub id: u128,
    pub checksum: u32,
    pub headers: Option<Vec<MessageHeader>>,
    pub length: u32,
    pub payload: Vec<u8>,
}

impl View for Message {
    type V = MessageV;

    open spec fn view(&self) -> MessageV {
        MessageV {
            offset: self.offset,
            state: self.state,
            timestamp: self.timestamp,
            id: self.id,
            checksum: self.checksum,
            headers: match self.headers {
                Some(hs) => Some(hs.deep_view()),
                None => None,
            },
            length: self.length,
            payload: self.payload@,
        }
    }
}

impl DeepView for Message {
    type V = MessageV;

    open spec fn deep_view(&self) -> MessageV {
        self@
    }
}

impl Clone for MessageHeader {
    /// A clone carries the same header.
    fn clone(&self) -> (r: Self)
        ensures
            r@ == self@,
    {
        MessageHeader {
            key: crate::wire::copy_bytes(&self.key),
            kind: self.kind,
            value: crate::wire::copy_bytes(&self.value),
        }
    }
}

impl Clone for Message {
    /// A clone carries the same message.
    fn clone(&self) -> (r: Self)
        ensures
            r@ == self@,
    {
        let headers = match &self.headers {
            None => None,
            Some(hs) => {
                let mut out: Vec<MessageHeader> = Vec::new();
                let mut i: usize = 0;
                while i < hs.len()
                    invariant
                        i <= hs@.len(),
                        out.deep_view() == hs.deep_view().subrange(0, i as int),
                    decreases hs@.len() - i,
                {
                    let ghost before = out.deep_view();
                    out.push(hs[i].clone());
                    i = i + 1;
                    proof {
                        assert(out.deep_view() =~= before.push(hs@[i - 1]@));
                        assert(before.push(hs@[i - 1]@) =~= hs.deep_view().subrange(0, i as int));
                    }
                }
                proof {
                    assert(hs.deep_view().subrange(0, hs.deep_view().len() as int)
                        =~= hs.deep_view());
                }
                Some(out)
            },
        };
        let r = Message {
            offset: self.offset,
            state: self.state,
            timestamp: self.timestamp,
            id: self.id,
            checksum: self.checksum,
            headers,
            length: self.length,
            payload: crate::wire::copy_bytes(&self.payload),
        };
        proof {
            assert(r@ =~= self@);
        }
        r
    }
}

/// A message whose fields agree with its wire layout: the length field is
/// the payload length, a present header list is non-empty, each header fits
/// its fields and the whole header block fits its length field.
pub open spec fn msg_wf(m: MessageV) -> bool {
    &&& m.length == m.payload.len()
    &&& match m.headers {
        Some(hs) => hs.len() >= 1 && (forall|i: int|
            0 <= i < hs.len() ==> header_wf(#[trigger] hs[i])) && spec_headers_bytes(hs).len()
            <= u32::MAX,
        None => true,
    }
}

/// The wire bytes of one message.
pub open spec fn spec_message_bytes(m: MessageV) -> Seq<u8> {
    spec_u64_to_le_bytes(m.offset) + seq![m.state.spec_as_code()] + spec_u64_to_le_bytes(
        m.timestamp,
    ) + spec_u128_to_le_bytes(m.id) + spec_u32_to_le_bytes(m.checksum) + spec_u32_to_le_bytes(
        spec_headers_code(m.headers).len() as u32,
    ) + spec_headers_code(m.headers) + spec_u32_to_le_bytes(m.length) + m.payload
}

/// The wire bytes of a message list, in order.
pub open spec fn spec_messages_bytes(ms: Seq<MessageV>) -> Seq<u8>
    decreases ms.len(),
{
    if ms.len() == 0 {
        Seq::empty()
    } else {
        spec_message_bytes(ms[0]) + spec_messages_bytes(ms.drop_first())
    }
}

/// What parsing a header block yields: the headers in order, or an
/// `InvalidCommand` error on any cut-short field.
pub open spec fn spec_parse_headers(s: Seq<u8>) -> Result<Seq<HeaderV>, Error>
    decreases s.len(),
{
    if s.len() == 0 {
        Ok(Seq::empty())
    } else if s.len() < 4 {
        Err(Error::InvalidCommand)
    } else {
        let kl = spec_u32_from_le_bytes(s.subrange(0, 4)) as int;
        if s.len() < 9 + kl {
            Err(Error::InvalidCommand)
        } else {
            let vl = spec_u32_from_le_bytes(s.subrange(5 + kl, 9 + kl)) as int;
            if !spec_valid_header_kind(s[4 + kl]) {
                Err(Error::InvalidCommand)
            } else if s.len() < 9 + kl + vl {
                Err(Error::InvalidCommand)
            } else {
                let h = HeaderV {
                    key: s.subrange(4, 4 + kl),
                    kind: s[4 + kl],
                    value: s.subrange(9 + kl, 9 + kl + vl),
                };
                match spec_parse_headers(s.subrange(9 + kl + vl, s.len() as int)) {
                    Err(e) => Err(e),
                    Ok(rest) => Ok(seq![h] + rest),
                }
            }
        }
    }
}

/// What parsing a concatenation of message frames yields: the messages in
/// order, or an `InvalidCommand` error on any cut-short field or unknown
/// state code.
pub open spec fn spec_parse_messages(s: Seq<u8>) -> Result<Seq<MessageV>, Error>
    decreases s.len(),
{
    if s.len() == 0 {
        Ok(Seq::empty())
    } else if s.len() < 45 {
        Err(Error::InvalidCommand)
    } else {
        let hl = spec_u32_from_le_bytes(s.subrange(37, 41)) as int;
        if s.len() < 45 + hl {
            Err(Error::InvalidCommand)
        } else if !MessageState::spec_valid_code(s[8]) {
            Err(Error::InvalidCommand)
        } else {
            let pl = spec_u32_from_le_bytes(s.subrange(41 + hl, 45 + hl)) as int;
            if s.len() < 45 + hl + pl {
                Err(Error::InvalidCommand)
            } else {
                let headers_r: Result<Option<Seq<HeaderV>>, Error> = if hl == 0 {
                    Ok(None)
                } else {
                    match spec_parse_headers(s.subrange(41, 41 + hl)) {
                        Err(e) => Err(e),
                        Ok(hs) => Ok(Some(hs)),
                    }
                };
                match headers_r {
                    Err(e) => Err(e),
                    Ok(headers) => {
                        let m = MessageV {
                            offset: vstd::bytes::spec_u64_from_le_bytes(s.subrange(0, 8)),
                            state: MessageState::spec_from_code(s[8]),
                            timestamp: vstd::bytes::spec_u64_from_le_bytes(s.subrange(9, 17)),
                            id: vstd::bytes::spec_u128_from_le_bytes(s.subrange(17, 33)),
                            checksum: spec_u32_from_le_bytes(s.subrange(33, 37)),
                            headers,
                            length: spec_u32_from_le_bytes(s.subrange(41 + hl, 45 + hl)),
                            payload: s.subrange(45 + hl, 45 + hl + pl),
                        };
                        match spec_parse_messages(s.subrange(45 + hl + pl, s.len() as int)) {
                            Err(e) => Err(e),
                            Ok(rest) => Ok(seq![m] + rest),
                        }
                    },
                }
            }
        }
    }
}

/// The length of one encoded header.
pub proof fn lemma_header_bytes_len(h: HeaderV)
    requires
        header_wf(h),
    ensures
        spec_header_bytes(h).len() == 9 + h.key.len() + h.value.len(),
{
    vstd::bytes::lemma_auto_spec_u32_to_from_le_bytes();
}

/// Parsing an encoded header list, with nothing behind it, gives it back.
pub proof fn lemma_parse_headers_round_trip(hs: Seq<HeaderV>)
    requires
        forall|i: int| 0 <= i < hs.len() ==> header_wf(#[trigger] hs[i]),
    ensures
        spec_parse_headers(spec_headers_bytes(hs)) == Ok::<Seq<HeaderV>, Error>(hs),
    decreases hs.len(),
{
    vstd::bytes::lemma_auto_spec_u32_to_from_le_bytes();
    if hs.len() == 0 {
        assert(hs =~= Seq::<HeaderV>::empty());
        assert(spec_headers_bytes(hs) =~= Seq::<u8>::empty());
    } else {
        let h = hs[0];
        let rest = hs.drop_first();
        let s = spec_headers_bytes(hs);
        let kl = h.key.len() as int;
        let vl = h.value.len() as int;
        lemma_header_bytes_len(h);
        assert(s =~= spec_header_bytes(h) + spec_headers_bytes(rest));
        assert(s.subrange(0, 4) =~= spec_u32_to_le_bytes(h.key.len() as u32));
        assert(s.subrange(4, 4 + kl) =~= h.key);
        assert(s[4 + kl] == h.kind);
        assert(s.subrange(5 + kl, 9 + kl) =~= spec_u32_to_le_bytes(h.value.len() as u32));
        assert(s.subrange(9 + kl, 9 + kl + vl) =~= h.value);
        assert(s.subrange(9 + kl + vl, s.len() as int) =~= spec_headers_bytes(rest));
        lemma_parse_headers_round_trip(rest);
        match spec_parse_headers(s) {
            Ok(w) => {
                assert(w[0] =~= h);
                assert(w =~= hs);
            },
            Err(_) => {
                assert(false);
            },
        }
    }
}

/// A parsed header list re-encodes to exactly the bytes it was parsed from.
pub proof fn lemma_parse_headers_exact(s: Seq<u8>)
    requires
        spec_parse_headers(s) is Ok,
    ensures
        (forall|i: int|
            0 <= i < spec_parse_headers(s)->Ok_0.len() ==> header_wf(
                #[trigger] spec_parse_headers(s)->Ok_0[i],
            )),
        spec_headers_bytes(spec_parse_headers(s)->Ok_0) == s,
        s.len() > 0 ==> spec_parse_headers(s)->Ok_0.len() >= 1,
    decreases s.len(),
{
    vstd::bytes::lemma_auto_spec_u32_to_from_le_bytes();
    if s.len() == 0 {
        assert(spec_headers_bytes(spec_parse_headers(s)->Ok_0) =~= s);
    } else {
        let kl = spec_u32_from_le_bytes(s.subrange(0, 4)) as int;
        let vl = spec_u32_from_le_bytes(s.subrange(5 + kl, 9 + kl)) as int;
        let tail = s.subrange(9 + kl + vl, s.len() as int);
        lemma_parse_headers_exact(tail);
        let h = spec_parse_headers(s)->Ok_0[0];
        let rest = spec_parse_headers(tail)->Ok_0;
        assert(spec_parse_headers(s)->Ok_0 == seq![h] + rest);
        assert(h.key.len() == kl && h.value.len() == vl);
        lemma_header_bytes_len(h);
        assert(spec_parse_headers(s)->Ok_0.drop_first() =~= rest);
        assert(spec_header_bytes(h) =~= s.subrange(0, 9 + kl + vl));
        assert(spec_headers_bytes(spec_parse_headers(s)->Ok_0) =~= s);
    }
}

/// Parsing an encoded message list gives it back.
#[verifier::rlimit(60)]
pub proof fn lemma_parse_messages_round_trip(ms: Seq<MessageV>)
    requires
        forall|i: int| 0 <= i < ms.len() ==> msg_wf(#[trigger] ms[i]),
    ensures
        spec_parse_messages(spec_messages_bytes(ms)) == Ok::<Seq<MessageV>, Error>(ms),
    decreases ms.len(),
{
    vstd::bytes::lemma_auto_spec_u32_to_from_le_bytes();
    vstd::bytes::lemma_auto_spec_u64_to_from_le_bytes();
    vstd::bytes::lemma_auto_spec_u128_to_from_le_bytes();
    if ms.len() == 0 {
        assert(ms =~= Seq::<MessageV>::empty());
        assert(spec_messages_bytes(ms) =~= Seq::<u8>::empty());
    } else {
        let m = ms[0];
        let rest = ms.drop_first();
        let s = spec_messages_bytes(ms);
        let hb = spec_headers_code(m.headers);
        let hl = hb.len() as int;
        let pl = m.payload.len() as int;
        assert(s =~= spec_message_bytes(m) + spec_messages_bytes(rest));
        assert(s.subrange(0, 8) =~= spec_u64_to_le_bytes(m.offset));
        assert(s[8] == m.state.spec_as_code());
        assert(s.subrange(9, 17) =~= spec_u64_to_le_bytes(m.timestamp));
        assert(s.subrange(17, 33) =~= spec_u128_to_le_bytes(m.id));
        assert(s.subrange(33, 37) =~= spec_u32_to_le_bytes(m.checksum));
        assert(s.subrange(37, 41) =~= spec_u32_to_le_bytes(hb.len() as u32));
        assert(s.subrange(41, 41 + hl) =~= hb);
        assert(s.subrange(41 + hl, 45 + hl) =~= spec_u32_to_le_bytes(m.length));
        assert(s.subrange(45 + hl, 45 + hl + pl) =~= m.payload);
        assert(s.subrange(45 + hl + pl, s.len() as int) =~= spec_messages_bytes(rest));
        match m.headers {
            Some(hs) => {
                assert(hs.len() >= 1);
                lemma_header_bytes_len(hs[0]);
                assert(spec_headers_bytes(hs) =~= spec_header_bytes(hs[0]) + spec_headers_bytes(
                    hs.drop_first(),
                ));
                assert(hl >= 9);
                lemma_parse_headers_round_trip(hs);
            },
            None => {
                assert(hl == 0);
            },
        }
        lemma_parse_messages_round_trip(rest);
        match spec_parse_messages(s) {
            Ok(w) => {
                assert(w[0] =~= m);
                assert(w =~= ms);
            },
            Err(_) => {
                assert(false);
            },
        }
    }
}

impl Message {
    /// Fields agree with the wire layout.
    pub open spec fn wf(&self) -> bool {
        msg_wf(self@)
    }

    /// The encoded size of the message in bytes.
    pub open spec fn spec_size(&self) -> int {
        spec_message_bytes(self@).len() as int
    }

    /// Appends the message's wire bytes to `bytes`.
    pub fn extend(&self, bytes: &mut Vec<u8>)
        requires
            self.wf(),
            old(bytes)@.len() + spec_message_bytes(self@).len() <= usize::MAX,
        ensures
            final(bytes)@ == old(bytes)@ + spec_message_bytes(self@),
    {
        proof {
            vstd::bytes::lemma_auto_spec_u32_to_from_le_bytes();
            vstd::bytes::lemma_auto_spec_u64_to_from_le_bytes();
            vstd::bytes::lemma_auto_spec_u128_to_from_le_bytes();
            lemma_message_bytes_len(self@);
        }
        wire::put_u64_le(bytes, self.offset);
        wire::put_u8(bytes, self.state.as_code());
        wire::put_u64_le(bytes, self.timestamp);
        wire::put_u128_le(bytes, self.id);
        wire::put_u32_le(bytes, self.checksum);
        let ghost hb = spec_headers_code(self@.headers);
        match &self.headers {
            Some(hs) => {
                let header_block = headers_to_bytes(hs);
                wire::put_u32_le(bytes, header_block.len() as u32);
                wire::put_bytes(bytes, header_block.as_slice());
            },
            None => {
                wire::put_u32_le(bytes, 0);
            },
        }
        wire::put_u32_le(bytes, self.length);
        wire::put_bytes(bytes, self.payload.as_slice());
        proof {
            assert(bytes@ =~= old(bytes)@ + spec_message_bytes(self@));
        }
    }
}

/// The encoded length of one message: the 45 fixed bytes plus headers and
/// payload.
pub proof fn lemma_message_bytes_len(m: MessageV)
    ensures
        spec_message_bytes(m).len() == 45 + spec_headers_code(m.headers).len() + m.payload.len(),
{
    vstd::bytes::lemma_auto_spec_u32_to_from_le_bytes();
    vstd::bytes::lemma_auto_spec_u64_to_from_le_bytes();
    vstd::bytes::lemma_auto_spec_u128_to_from_le_bytes();
}

/// Appending one header list entry extends the encoding by that header's
/// bytes.
pub proof fn lemma_headers_bytes_push(hs: Seq<HeaderV>, h: HeaderV)
    ensures
        spec_headers_bytes(hs.push(h)) == spec_headers_bytes(hs) + spec_header_bytes(h),
    decreases hs.len(),
{
    if hs.len() == 0 {
        assert(hs.push(h)[0] == h);
        assert(hs.push(h).drop_first() =~= Seq::<HeaderV>::empty());
        assert(spec_headers_bytes(hs.push(h)) == spec_header_bytes(hs.push(h)[0])
            + spec_headers_bytes(hs.push(h).drop_first()));
        assert(spec_headers_bytes(Seq::<HeaderV>::empty()) =~= Seq::<u8>::empty());
        assert(spec_headers_bytes(hs.push(h)) =~= spec_header_bytes(h));
        assert(spec_headers_bytes(hs) + spec_header_bytes(h) =~= spec_header_bytes(h));
    } else {
        assert(hs.push(h)[0] == hs[0]);
        assert(hs.push(h).drop_first() =~= hs.drop_first().push(h));
        lemma_headers_bytes_push(hs.drop_first(), h);
        assert(spec_headers_bytes(hs.push(h)) =~= spec_headers_bytes(hs) + spec_header_bytes(h));
    }
}

/// Appending one message extends the encoding by that message's bytes.
pub proof fn lemma_messages_bytes_push(ms: Seq<MessageV>, m: MessageV)
    ensures
        spec_messages_bytes(ms.push(m)) == spec_messages_bytes(ms) + spec_message_bytes(m),
    decreases ms.len(),
{
    if ms.len() == 0 {
        assert(ms.push(m)[0] == m);
        assert(ms.push(m).drop_first() =~= Seq::<MessageV>::empty());
        assert(spec_messages_bytes(ms.push(m)) == spec_message_bytes(ms.push(m)[0])
            + spec_messages_bytes(ms.push(m).drop_first()));
        assert(spec_messages_bytes(Seq::<MessageV>::empty()) =~= Seq::<u8>::empty());
        assert(spec_messages_bytes(ms.push(m)) =~= spec_message_bytes(m));
        assert(spec_messages_bytes(ms) + spec_message_bytes(m) =~= spec_message_bytes(m));
    } else {
        assert(ms.push(m)[0] == ms[0]);
        assert(ms.push(m).drop_first() =~= ms.drop_first().push(m));
        lemma_messages_bytes_push(ms.drop_first(), m);
        assert(spec_messages_bytes(ms.push(m)) =~= spec_messages_bytes(ms) + spec_message_bytes(
            m,
        ));
    }
}

/// Serializes a header list.
fn headers_to_bytes(hs: &Vec<MessageHeader>) -> (r: Vec<u8>)
    requires
        forall|i: int| 0 <= i < hs.deep_view().len() ==> header_wf(#[trigger] hs.deep_view()[i]),
        spec_headers_bytes(hs.deep_view()).len() <= u32::MAX,
    ensures
        r@ == spec_headers_bytes(hs.deep_view()),
{
    proof {
        vstd::bytes::lemma_auto_spec_u32_to_from_le_bytes();
    }
    let mut out: Vec<u8> = Vec::new();
    let mut i: usize = 0;
    while i < hs.len()
        invariant
            i <= hs@.len(),
            forall|k: int|
                0 <= k < hs.deep_view().len() ==> header_wf(#[trigger] hs.deep_view()[k]),
            spec_headers_bytes(hs.deep_view()).len() <= u32::MAX,
            out@ == spec_headers_bytes(hs.deep_view().subrange(0, i as int)),
        decreases hs@.len() - i,
    {
        let h = &hs[i];
        proof {
            vstd::bytes::lemma_auto_spec_u32_to_from_le_bytes();
            let dv = hs.deep_view();
            assert(h@ == dv[i as int]);
            assert(header_wf(h@));
            lemma_header_bytes_len(h@);
            lemma_headers_bytes_push(dv.subrange(0, i as int), dv[i as int]);
            assert(dv.subrange(0, i as int).push(dv[i as int]) =~= dv.subrange(0, i + 1));
            lemma_headers_prefix_len(dv, i + 1);
            assert(spec_headers_bytes(dv.subrange(0, i + 1)).len() == out@.len() + 9 + h@.key.len()
                + h@.value.len());
        }
        wire::put_u32_le(&mut out, h.key.len() as u32);
        wire::put_bytes(&mut out, h.key.as_slice());
        wire::put_u8(&mut out, h.kind);
        wire::put_u32_le(&mut out, h.value.len() as u32);
        wire::put_bytes(&mut out, h.value.as_slice());
        i = i + 1;
        proof {
            lemma_headers_bytes_push(hs.deep_view().subrange(0, i - 1), hs.deep_view()[i - 1]);
            assert(hs.deep_view().subrange(0, i - 1).push(hs.deep_view()[i - 1])
                =~= hs.deep_view().subrange(0, i as int));
            assert(out@ =~= spec_headers_bytes(hs.deep_view().subrange(0, i as int)));
        }
    }
    proof {
        assert(hs.deep_view().subrange(0, hs.deep_view().len() as int) =~= hs.deep_view());
    }
    out
}

/// The encoding of a prefix of a header list is a prefix of the whole
/// encoding, so its length is bounded by the whole encoding's length.
pub proof fn lemma_headers_prefix_len(hs: Seq<HeaderV>, i: int)
    requires
        0 <= i <= hs.len(),
    ensures
        spec_headers_bytes(hs.subrange(0, i)).len() <= spec_headers_bytes(hs).len(),
    decreases i,
{
    if i > 0 {
        lemma_headers_split(hs, i);
    }
}

/// Splitting a header list splits its encoding.
pub proof fn lemma_headers_split(hs: Seq<HeaderV>, i: int)
    requires
        0 <= i <= hs.len(),
    ensures
        spec_headers_bytes(hs) == spec_headers_bytes(hs.subrange(0, i)) + spec_headers_bytes(
            hs.subrange(i, hs.len() as int),
        ),
    decreases i,
{
    if i == 0 {
        assert(hs.subrange(0, 0) =~= Seq::<HeaderV>::empty());
        assert(hs.subrange(0, hs.len() as int) =~= hs);
        assert(spec_headers_bytes(hs) =~= spec_headers_bytes(hs.subrange(0, 0))
            + spec_headers_bytes(hs.subrange(0, hs.len() as int)));
    } else {
        let p = hs.subrange(0, i);
        lemma_headers_split(hs, i - 1);
        lemma_headers_bytes_push(hs.subrange(0, i - 1), hs[i - 1]);
        assert(hs.subrange(0, i - 1).push(hs[i - 1]) =~= p);
        assert(hs.subrange(i - 1, hs.len() as int)[0] == hs[i - 1]);
        assert(hs.subrange(i - 1, hs.len() as int).drop_first() =~= hs.subrange(
            i,
            hs.len() as int,
        ));
        assert(spec_headers_bytes(hs.subrange(i - 1, hs.len() as int)) =~= spec_header_bytes(
            hs[i - 1],
        ) + spec_headers_bytes(hs.subrange(i, hs.len() as int)));
        assert(spec_headers_bytes(hs) =~= spec_headers_bytes(p) + spec_headers_bytes(
            hs.subrange(i, hs.len() as int),
        ));
    }
}


/// Splitting a message list splits its encoding.
pub proof fn lemma_messages_split(ms: Seq<MessageV>, i: int)
    requires
        0 <= i <= ms.len(),
    ensures
        spec_messages_bytes(ms) == spec_messages_bytes(ms.subrange(0, i)) + spec_messages_bytes(
            ms.subrange(i, ms.len() as int),
        ),
    decreases i,
{
    if i == 0 {
        assert(ms.subrange(0, 0) =~= Seq::<MessageV>::empty());
        assert(ms.subrange(0, ms.len() as int) =~= ms);
        assert(spec_messages_bytes(ms) =~= spec_messages_bytes(ms.subrange(0, 0))
            + spec_messages_bytes(ms.subrange(0, ms.len() as int)));
    } else {
        let p = ms.subrange(0, i);
        lemma_messages_split(ms, i - 1);
        lemma_messages_bytes_push(ms.subrange(0, i - 1), ms[i - 1]);
        assert(ms.subrange(0, i - 1).push(ms[i - 1]) =~= p);
        assert(ms.subrange(i - 1, ms.len() as int)[0] == ms[i - 1]);
        assert(ms.subrange(i - 1, ms.len() as int).drop_first() =~= ms.subrange(
            i,
            ms.len() as int,
        ));
        assert(spec_messages_bytes(ms.subrange(i - 1, ms.len() as int)) =~= spec_message_bytes(
            ms[i - 1],
        ) + spec_messages_bytes(ms.subrange(i, ms.len() as int)));
        assert(spec_messages_bytes(ms) =~= spec_messages_bytes(p) + spec_messages_bytes(
            ms.subrange(i, ms.len() as int),
        ));
    }
}

/// Parses a header block into its header list.
pub fn parse_headers(block: &[u8]) -> (r: Result<Vec<MessageHeader>, Error>)
    ensures
        match r {
            Ok(hs) => spec_parse_headers(block@) == Ok::<Seq<HeaderV>, Error>(hs.deep_view()),
            Err(e) => spec_parse_headers(block@) == Err::<Seq<HeaderV>, Error>(e),
        },
{
    let n: usize = block.len();
    let mut pos: usize = 0;
    let mut out: Vec<MessageHeader> = Vec::new();
    proof {
        assert(block@.subrange(0, n as int) =~= block@);
        match spec_parse_headers(block@) {
            Ok(rest) => {
                assert(out.deep_view() + rest =~= rest);
            },
            Err(_) => {},
        }
    }
    while pos < n
        invariant
            pos <= n,
            n == block@.len(),
            spec_parse_headers(block@) == (match spec_parse_headers(
                block@.subrange(pos as int, n as int),
            ) {
                Ok(rest) => Ok::<Seq<HeaderV>, Error>(out.deep_view() + rest),
                Err(e) => Err::<Seq<HeaderV>, Error>(e),
            }),
        decreases n - pos,
    {
        let ghost tail = block@.subrange(pos as int, n as int);
        let rem = n - pos;
        if rem < 4 {
            return Err(Error::InvalidCommand);
        }
        proof {
            assert(tail.subrange(0, 4) =~= block@.subrange(pos as int, pos + 4));
        }
        let kl32 = wire::get_u32_le(block, pos);
        let kl = kl32 as usize;
        if kl > rem - 4 || rem - 4 - kl < 5 {
            return Err(Error::InvalidCommand);
        }
        proof {
            assert(tail.subrange(5 + kl, 9 + kl) =~= block@.subrange(
                pos + 5 + kl,
                pos + 9 + kl,
            ));
        }
        let vl32 = wire::get_u32_le(block, pos + 5 + kl);
        let vl = vl32 as usize;
        let kind = block[pos + 4 + kl];
        proof {
            assert(tail[4 + kl] == block@[pos + 4 + kl]);
        }
        if !(1 <= kind && kind <= 15) {
            return Err(Error::InvalidCommand);
        }
        if vl > rem - 9 - kl {
            return Err(Error::InvalidCommand);
        }
        let key = wire::copy_range(block, pos + 4, kl);
        let value = wire::copy_range(block, pos + 9 + kl, vl);
        let h = MessageHeader { key, kind, value };
        proof {
            assert(tail.subrange(4, 4 + kl) =~= block@.subrange(pos + 4, pos + 4 + kl));
            assert(tail[4 + kl] == block@[pos + 4 + kl]);
            assert(tail.subrange(9 + kl, 9 + kl + vl) =~= block@.subrange(
                pos + 9 + kl,
                pos + 9 + kl + vl,
            ));
            assert(tail.subrange(9 + kl + vl, tail.len() as int) =~= block@.subrange(
                pos + 9 + kl + vl,
                n as int,
            ));
            assert(h@ =~= (HeaderV {
                key: tail.subrange(4, 4 + kl),
                kind: tail[4 + kl],
                value: tail.subrange(9 + kl, 9 + kl + vl),
            }));
        }
        let ghost old_out = out.deep_view();
        out.push(h);
        pos = pos + 9 + kl + vl;
        proof {
            assert(out.deep_view() =~= old_out.push(h@));
            let newtail = block@.subrange(pos as int, n as int);
            match spec_parse_headers(newtail) {
                Ok(rest) => {
                    assert(out.deep_view() + rest =~= old_out + (seq![h@] + rest));
                },
                Err(_) => {},
            }
        }
    }
    proof {
        assert(block@.subrange(n as int, n as int) =~= Seq::<u8>::empty());
        assert(out.deep_view() + Seq::<HeaderV>::empty() =~= out.deep_view());
    }
    Ok(out)
}

/// Parses a concatenation of message frames into its message list.
pub fn parse_messages(buffer: &[u8]) -> (r: Result<Vec<Message>, Error>)
    ensures
        match r {
            Ok(ms) => spec_parse_messages(buffer@) == Ok::<Seq<MessageV>, Error>(ms.deep_view())
                && (forall|i: int|
                0 <= i < ms.deep_view().len() ==> msg_wf(#[trigger] ms.deep_view()[i])),
            Err(e) => spec_parse_messages(buffer@) == Err::<Seq<MessageV>, Error>(e),
        },
{
    let n: usize = buffer.len();
    let mut pos: usize = 0;
    let mut out: Vec<Message> = Vec::new();
    proof {
        assert(buffer@.subrange(0, n as int) =~= buffer@);
        match spec_parse_messages(buffer@) {
            Ok(rest) => {
                assert(out.deep_view() + rest =~= rest);
            },
            Err(_) => {},
        }
    }
    while pos < n
        invariant
            pos <= n,
            n == buffer@.len(),
            spec_parse_messages(buffer@) == (match spec_parse_messages(
                buffer@.subrange(pos as int, n as int),
            ) {
                Ok(rest) => Ok::<Seq<MessageV>, Error>(out.deep_view() + rest),
                Err(e) => Err::<Seq<MessageV>, Error>(e),
            }),
            forall|i: int| 0 <= i < out.deep_view().len() ==> msg_wf(#[trigger] out.deep_view()[i]),
        decreases n - pos,
    {
        let ghost tail = buffer@.subrange(pos as int, n as int);
        let rem = n - pos;
        if rem < 45 {
            return Err(Error::InvalidCommand);
        }
        proof {
            assert(tail.subrange(37, 41) =~= buffer@.subrange(pos + 37, pos + 41));
        }
        let hl32 = wire::get_u32_le(buffer, pos + 37);
        let hl = hl32 as usize;
        if hl > rem - 45 {
            return Err(Error::InvalidCommand);
        }
        let state_code = buffer[pos + 8];
        proof {
            assert(tail[8] == buffer@[pos + 8]);
        }
        let state = match MessageState::from_code(state_code) {
            Ok(st) => st,
            Err(e) => {
                return Err(e);
            },
        };
        proof {
            assert(tail.subrange(41 + hl, 45 + hl) =~= buffer@.subrange(
                pos + 41 + hl,
                pos + 45 + hl,
            ));
        }
        let pl32 = wire::get_u32_le(buffer, pos + 41 + hl);
        let pl = pl32 as usize;
        if pl > rem - 45 - hl {
            return Err(Error::InvalidCommand);
        }
        let offset = wire::get_u64_le(buffer, pos);
        let timestamp = wire::get_u64_le(buffer, pos + 9);
        let id = wire::get_u128_le(buffer, pos + 17);
        let checksum = wire::get_u32_le(buffer, pos + 33);
        let ghost hblock_spec = tail.subrange(41, 41 + hl);
        proof {
            assert(hblock_spec =~= buffer@.subrange(pos + 41, pos + 41 + hl));
        }
        let headers = if hl == 0 {
            None
        } else {
            let hblock = vstd::slice::slice_subrange(buffer, pos + 41, pos + 41 + hl);
            match parse_headers(hblock) {
                Ok(hs) => Some(hs),
                Err(e) => {
                    return Err(e);
                },
            }
        };
        let payload = wire::copy_range(buffer, pos + 45 + hl, pl);
        let m = Message { offset, state, timestamp, id, checksum, headers, length: pl32, payload };
        proof {
            assert(tail.subrange(0, 8) =~= buffer@.subrange(pos as int, pos + 8));
            assert(tail.subrange(9, 17) =~= buffer@.subrange(pos + 9, pos + 17));
            assert(tail.subrange(17, 33) =~= buffer@.subrange(pos + 17, pos + 33));
            assert(tail.subrange(33, 37) =~= buffer@.subrange(pos + 33, pos + 37));
            assert(tail.subrange(45 + hl, 45 + hl + pl) =~= buffer@.subrange(
                pos + 45 + hl,
                pos + 45 + hl + pl,
            ));
            assert(tail.subrange(45 + hl + pl, tail.len() as int) =~= buffer@.subrange(
                pos + 45 + hl + pl,
                n as int,
            ));
            if hl > 0 {
                lemma_parse_headers_exact(hblock_spec);
            }
            assert(msg_wf(m@));
        }
        let ghost old_out = out.deep_view();
        out.push(m);
        pos = pos + 45 + hl + pl;
        proof {
            assert(out.deep_view() =~= old_out.push(m@));
            let newtail = buffer@.subrange(pos as int, n as int);
            match spec_parse_messages(newtail) {
                Ok(rest) => {
                    assert(out.deep_view() + rest =~= old_out + (seq![m@] + rest));
                },
                Err(_) => {},
            }
        }
    }
    proof {
        assert(buffer@.subrange(n as int, n as int) =~= Seq::<u8>::empty());
        assert(out.deep_view() + Seq::<MessageV>::empty() =~= out.deep_view());
    }
    Ok(out)
}

} // verus!
