//! Batches: the on-disk frame wrapping N messages with one compression
//! choice and one base offset.
//!
//! Frame layout: `base_offset:u64 | length:u32 | last_offset_delta:u32 |
//! attributes:u8 | messages`. Bits 6-7 of `attributes` carry the compression
//! code; the other bits are reserved zero.

use crate::compression::{gunzip_of, gzip_of, CompressionAlgorithm, Compressor, GzCompressor};
use crate::error::Error;
use crate::message::{
    msg_wf, spec_messages_bytes, spec_parse_messages, Message, MessageV,
};
use crate::wire;
use vstd::bytes::{spec_u32_to_le_bytes, spec_u64_to_le_bytes};
use vstd::prelude::*;

verus! {

/// Frame metadata bytes: base offset (8), length (4), delta (4), attributes (1).
pub const METADATA_BYTES_LEN: u32 = 17;

/// The compression code occupies the attribute byte's two top bits.
pub const COMPRESSION_ALGORITHM_SHIFT: u8 = 6;

/// Mask of the compression code bits.
pub const COMPRESSION_ALGORITHM_MASK: u8 = 0b1100_0000;

/// Chooses the batch attributes: which compression the payload carries.
pub struct MessagesBatchAttributes {
    pub compression_algorithm: CompressionAlgorithm,
}

/// The attribute byte carrying `a` in its compression bits.
pub open spec fn spec_attributes(a: CompressionAlgorithm) -> u8 {
    match a {
        CompressionAlgorithm::Uncompressed => 0u8,
        CompressionAlgorithm::Gzip => 0x40u8,
    }
}

/// The compression code stored in an attribute byte.
pub open spec fn spec_attr_code(attributes: u8) -> u8 {
    (attributes & COMPRESSION_ALGORITHM_MASK) >> 6
}

impl MessagesBatchAttributes {
    /// Builds attributes for one compression choice.
    pub fn new(compression_algorithm: CompressionAlgorithm) -> (r: Self)
        ensures
            r.compression_algorithm == compression_algorithm,
    {
        Self { compression_algorithm }
    }

    /// The attribute byte: the compression code in bits 6-7, the rest zero.
    pub fn create(&self) -> (r: u8)
        ensures
            r == spec_attributes(self.compression_algorithm),
            spec_attr_code(r) == self.compression_algorithm.spec_as_code(),
    {
        let mut attributes: u8 = 0;
        let compression_bits = (self.compression_algorithm.as_code() << COMPRESSION_ALGORITHM_SHIFT)
            & COMPRESSION_ALGORITHM_MASK;
        attributes |= compression_bits;
        proof {
            let c = self.compression_algorithm.spec_as_code();
            assert(c == 0 || c == 1);
            assert(((0u8 << 6) & 0xC0u8) == 0u8) by (bit_vector);
            assert(((1u8 << 6) & 0xC0u8) == 0x40u8) by (bit_vector);
            assert(((0u8 & 0xC0u8) >> 6) == 0u8) by (bit_vector);
            assert(((0x40u8 & 0xC0u8) >> 6) == 1u8) by (bit_vector);
            assert((0u8 | ((0u8 << 6) & 0xC0u8)) == ((0u8 << 6) & 0xC0u8)) by (bit_vector);
            assert((0u8 | ((1u8 << 6) & 0xC0u8)) == ((1u8 << 6) & 0xC0u8)) by (bit_vector);
        }
        attributes
    }

    /// Extracts the compression code from an attribute byte.
    pub fn get_compression_algorithm_code(attributes: &u8) -> (r: u8)
        ensures
            r == spec_attr_code(*attributes),
    {
        (*attributes & COMPRESSION_ALGORITHM_MASK) >> 6
    }
}

/// The mathematical view of a [`MessagesBatch`].
#[verifier::ext_equal]
pub struct BatchV {
    pub base_offset: u64,
    pub length: u32,
    pub last_offset_delta: u32,
    pub attributes: u8,
    pub messages: Seq<u8>,
}

/// The last absolute offset a batch covers.
pub open spec fn spec_last_offset(v: BatchV) -> int {
    v.base_offset + v.last_offset_delta
}

/// The batch-intersection test: the batch's offset interval either
/// reaches past `end_offset`, or starts at or before `start_offset` and ends
/// within `end_offset`.
pub open spec fn spec_contained_or_overlapping(v: BatchV, start_offset: u64, end_offset: u64) -> bool {
    (v.base_offset <= end_offset && spec_last_offset(v) >= end_offset) || (v.base_offset
        <= start_offset && spec_last_offset(v) <= end_offset)
}

/// One batch frame: metadata plus the (possibly compressed) concatenated
/// message bytes.
#[derive(Debug, PartialEq)]
pub struct MessagesBatch {
    /// Offset of the first message in the batch.
    pub base_offset: u64,
    /// Frame length: metadata plus payload.
    pub length: u32,
    /// Offset distance from the first to the last message.
    pub last_offset_delta: u32,
    /// Attribute byte: compression code in the top two bits.
    pub attributes: u8,
    /// The payload: concatenated message frames, possibly compressed.
    pub messages: Vec<u8>,
}

impl View for MessagesBatch {
    type V = BatchV;

    open spec fn view(&self) -> BatchV {
        BatchV {
            base_offset: self.base_offset,
            length: self.length,
            last_offset_delta: self.last_offset_delta,
            attributes: self.attributes,
            messages: self.messages@,
        }
    }
}

impl DeepView for MessagesBatch {
    type V = BatchV;

    open spec fn deep_view(&self) -> BatchV {
        self@
    }
}

impl Clone for MessagesBatch {
    /// A clone carries the same frame.
    fn clone(&self) -> (r: Self)
        ensures
            r@ == self@,
    {
        MessagesBatch {
            base_offset: self.base_offset,
            length: self.length,
            last_offset_delta: self.last_offset_delta,
            attributes: self.attributes,
            messages: wire::copy_bytes(&self.messages),
        }
    }
}

/// A batch whose size fields fit: the payload plus metadata fits a `u32`
/// and the offset interval fits a `u64`.
pub open spec fn batch_wf(v: BatchV) -> bool {
    &&& v.messages.len() + METADATA_BYTES_LEN <= u32::MAX
    &&& v.length == METADATA_BYTES_LEN + v.messages.len()
    &&& v.base_offset + v.last_offset_delta <= u64::MAX
}

/// The wire bytes of a batch frame.
pub open spec fn spec_batch_bytes(v: BatchV) -> Seq<u8> {
    spec_u64_to_le_bytes(v.base_offset) + spec_u32_to_le_bytes(v.length) + spec_u32_to_le_bytes(
        v.last_offset_delta,
    ) + seq![v.attributes] + v.messages
}

/// The payload a batch stores for the given attribute byte: compressed only
/// when the attributes ask for gzip and the input is over the threshold.
pub open spec fn spec_batch_payload(attributes: u8, payload: Seq<u8>) -> Seq<u8> {
    if spec_attr_code(attributes) == 1 && payload.len() > 132 {
        gzip_of(payload)
    } else {
        payload
    }
}

/// What framing a message list yields: the batch, or the error. Unknown
/// compression codes are rejected; a payload whose framed size cannot fit
/// the length field is rejected as an invalid command.
pub open spec fn spec_messages_to_batch(
    base_offset: u64,
    last_offset_delta: u32,
    attributes: u8,
    ms: Seq<MessageV>,
) -> Result<BatchV, Error> {
    let code = spec_attr_code(attributes);
    if code > 1 {
        Err(Error::InvalidCompressionAlgorithm(code))
    } else {
        let cp = spec_batch_payload(attributes, spec_messages_bytes(ms));
        if cp.len() + METADATA_BYTES_LEN > u32::MAX {
            Err(Error::InvalidCommand)
        } else {
            Ok(
                BatchV {
                    base_offset,
                    length: (METADATA_BYTES_LEN + cp.len()) as u32,
                    last_offset_delta,
                    attributes,
                    messages: cp,
                },
            )
        }
    }
}

/// What unframing a batch yields: the decoded messages, or the error.
/// Unknown compression codes are rejected; a gzip batch whose payload is
/// not a valid stream fails with an I/O error; the payload then parses per
/// the message layout.
pub open spec fn spec_into_messages(v: BatchV) -> Result<Seq<MessageV>, Error> {
    let code = spec_attr_code(v.attributes);
    if code > 1 {
        Err(Error::InvalidCompressionAlgorithm(code))
    } else if code == 1 {
        match gunzip_of(v.messages) {
            None => Err(Error::IoError),
            Some(pv) => spec_parse_messages(pv),
        }
    } else {
        spec_parse_messages(v.messages)
    }
}

impl MessagesBatch {
    /// Builds a batch from its frame fields.
    pub fn new(
        base_offset: u64,
        length: u32,
        last_offset_delta: u32,
        attributes: u8,
        messages: Vec<u8>,
    ) -> (r: Self)
        ensures
            r@ == (BatchV { base_offset, length, last_offset_delta, attributes, messages: messages@ }),
    {
        Self { base_offset, length, last_offset_delta, attributes, messages }
    }

    /// The compression algorithm named by the attribute bits.
    pub fn get_compression_algorithm(&self) -> (r: Result<CompressionAlgorithm, Error>)
        ensures
            match r {
                Ok(a) => spec_attr_code(self@.attributes) <= 1 && a.spec_as_code() == spec_attr_code(
                    self@.attributes,
                ),
                Err(e) => spec_attr_code(self@.attributes) > 1 && e
                    == Error::InvalidCompressionAlgorithm(spec_attr_code(self@.attributes)),
            },
    {
        let code = MessagesBatchAttributes::get_compression_algorithm_code(&self.attributes);
        CompressionAlgorithm::from_code(code)
    }

    /// The framed size of the batch: metadata plus payload.
    pub fn get_size_bytes(&self) -> (r: u32)
        requires
            self@.messages.len() + METADATA_BYTES_LEN <= u32::MAX,
        ensures
            r == METADATA_BYTES_LEN + self@.messages.len(),
    {
        METADATA_BYTES_LEN + self.messages.len() as u32
    }

    /// The last absolute offset the batch covers.
    pub fn get_last_offset(&self) -> (r: u64)
        requires
            self@.base_offset + self@.last_offset_delta <= u64::MAX,
        ensures
            r == spec_last_offset(self@),
    {
        self.base_offset + self.last_offset_delta as u64
    }

    /// The batch-intersection test: true iff the batch's offset
    /// interval intersects `[start_offset, end_offset]` in that sense.
    pub fn is_contained_or_overlapping_within_offset_range(
        &self,
        start_offset: u64,
        end_offset: u64,
    ) -> (r: bool)
        requires
            self@.base_offset + self@.last_offset_delta <= u64::MAX,
        ensures
            r == spec_contained_or_overlapping(self@, start_offset, end_offset),
    {
        let last = self.get_last_offset();
        (self.base_offset <= end_offset && last >= end_offset) || (self.base_offset <= start_offset
            && last <= end_offset)
    }

    /// Appends the batch's frame bytes to `bytes`.
    pub fn extend(&self, bytes: &mut Vec<u8>)
        requires
            old(bytes)@.len() + 17 + self@.messages.len() <= usize::MAX,
        ensures
            final(bytes)@ == old(bytes)@ + spec_batch_bytes(self@),
    {
        proof {
            vstd::bytes::lemma_auto_spec_u32_to_from_le_bytes();
            vstd::bytes::lemma_auto_spec_u64_to_from_le_bytes();
        }
        wire::put_u64_le(bytes, self.base_offset);
        wire::put_u32_le(bytes, self.length);
        wire::put_u32_le(bytes, self.last_offset_delta);
        wire::put_u8(bytes, self.attributes);
        wire::put_bytes(bytes, self.messages.as_slice());
        proof {
            assert(bytes@ =~= old(bytes)@ + spec_batch_bytes(self@));
        }
    }

    /// Frames a message list into one batch, compressing the payload when
    /// the attributes ask for it and the payload is over the threshold.
    /// Besides the outcomes of the framing spec, compression itself may
    /// fail with an I/O error.
    pub fn messages_to_batch(
        base_offset: u64,
        last_offset_delta: u32,
        attributes: u8,
        messages: Vec<Message>,
    ) -> (r: Result<Self, Error>)
        requires
            forall|i: int|
                0 <= i < messages.deep_view().len() ==> msg_wf(#[trigger] messages.deep_view()[i]),
            spec_messages_bytes(messages.deep_view()).len() <= usize::MAX,
            base_offset + last_offset_delta <= u64::MAX,
        ensures
            match r {
                Ok(b) => batch_wf(b@) && spec_messages_to_batch(
                    base_offset,
                    last_offset_delta,
                    attributes,
                    messages.deep_view(),
                ) == Ok::<BatchV, Error>(b@),
                Err(e) => spec_messages_to_batch(
                    base_offset,
                    last_offset_delta,
                    attributes,
                    messages.deep_view(),
                ) == Err::<BatchV, Error>(e) || (spec_attr_code(attributes) == 1
                    && spec_messages_bytes(messages.deep_view()).len() > 132 && e is IoError),
            },
    {
        let ghost dv = messages.deep_view();
        let code = MessagesBatchAttributes::get_compression_algorithm_code(&attributes);
        let algorithm = match CompressionAlgorithm::from_code(code) {
            Ok(a) => a,
            Err(e) => {
                return Err(e);
            },
        };
        let mut payload: Vec<u8> = Vec::new();
        let mut i: usize = 0;
        while i < messages.len()
            invariant
                i <= messages@.len(),
                dv == messages.deep_view(),
                forall|k: int| 0 <= k < dv.len() ==> msg_wf(#[trigger] dv[k]),
                spec_messages_bytes(dv).len() <= usize::MAX,
                payload@ == spec_messages_bytes(dv.subrange(0, i as int)),
            decreases messages@.len() - i,
        {
            let m = &messages[i];
            proof {
                assert(m@ == dv[i as int]);
                crate::message::lemma_messages_bytes_push(dv.subrange(0, i as int), dv[i as int]);
                assert(dv.subrange(0, i as int).push(dv[i as int]) =~= dv.subrange(0, i + 1));
                crate::message::lemma_messages_split(dv, i + 1);
            }
            m.extend(&mut payload);
            i = i + 1;
        }
        proof {
            assert(dv.subrange(0, dv.len() as int) =~= dv);
        }
        let ghost pv = spec_messages_bytes(dv);
        let ghost cp = spec_batch_payload(attributes, pv);
        let compressed: Vec<u8> = match algorithm {
            CompressionAlgorithm::Uncompressed => {
                proof {
                    assert(cp == pv);
                }
                payload
            },
            CompressionAlgorithm::Gzip => {
                if payload.len() > algorithm.min_data_size() {
                    let buffer: Vec<u8> = Vec::new();
                    match GzCompressor::new().compress(payload, buffer) {
                        Ok(out) => {
                            proof {
                                assert(out@ =~= gzip_of(pv));
                                assert(cp == gzip_of(pv));
                            }
                            out
                        },
                        Err(_) => {
                            return Err(Error::IoError);
                        },
                    }
                } else {
                    proof {
                        assert(cp == pv);
                    }
                    payload
                }
            },
        };
        proof {
            assert(compressed@ == cp);
        }
        if compressed.len() as u64 > (u32::MAX - METADATA_BYTES_LEN) as u64 {
            return Err(Error::InvalidCommand);
        }
        let len = METADATA_BYTES_LEN + compressed.len() as u32;
        let b = Self::new(base_offset, len, last_offset_delta, attributes, compressed);
        proof {
            assert(b@ =~= spec_messages_to_batch(
                base_offset,
                last_offset_delta,
                attributes,
                dv,
            )->Ok_0);
        }
        Ok(b)
    }

    /// Unframes the batch back into its messages: decompresses the payload
    /// when the attributes ask for it, then parses the message frames.
    pub fn into_messages(self) -> (r: Result<Vec<Message>, Error>)
        ensures
            match r {
                Ok(ms) => spec_into_messages(self@) == Ok::<Seq<MessageV>, Error>(ms.deep_view())
                    && (forall|i: int|
                    0 <= i < ms.deep_view().len() ==> msg_wf(#[trigger] ms.deep_view()[i])),
                Err(e) => spec_into_messages(self@) == Err::<Seq<MessageV>, Error>(e),
            },
    {
        let algorithm = match self.get_compression_algorithm() {
            Ok(a) => a,
            Err(e) => {
                return Err(e);
            },
        };
        match algorithm {
            CompressionAlgorithm::Uncompressed => crate::message::parse_messages(
                self.messages.as_slice(),
            ),
            CompressionAlgorithm::Gzip => {
                let mut decompression_buffer: Vec<u8> = Vec::new();
                match GzCompressor::new().decompress(
                    self.messages.as_slice(),
                    &mut decompression_buffer,
                ) {
                    Ok(()) => {
                        proof {
                            assert(decompression_buffer@ == gunzip_of(self@.messages)->Some_0);
                        }
                        crate::message::parse_messages(decompression_buffer.as_slice())
                    },
                    Err(_) => Err(Error::IoError),
                }
            },
        }
    }
}

/// Unframing a framed batch yields the framed messages again: the round trip
/// `decode(encode(messages)) == messages`, taken under the hypothesis that
/// gzip is lossless on the payload (which every call of the compressor
/// establishes for its output). A gzip batch whose payload is at or under
/// the compression threshold is excluded: its payload is stored raw but
/// would be decompressed on read.
pub proof fn lemma_batch_round_trip(
    base_offset: u64,
    last_offset_delta: u32,
    attributes: u8,
    ms: Seq<MessageV>,
)
    requires
        forall|i: int| 0 <= i < ms.len() ==> msg_wf(#[trigger] ms[i]),
        spec_messages_to_batch(base_offset, last_offset_delta, attributes, ms) is Ok,
        spec_attr_code(attributes) == 1 ==> spec_messages_bytes(ms).len() > 132,
        spec_attr_code(attributes) == 1 ==> gunzip_of(gzip_of(spec_messages_bytes(ms))) == Some(
            spec_messages_bytes(ms),
        ),
    ensures
        spec_into_messages(
            spec_messages_to_batch(base_offset, last_offset_delta, attributes, ms)->Ok_0,
        ) == Ok::<Seq<MessageV>, Error>(ms),
{
    let b = spec_messages_to_batch(base_offset, last_offset_delta, attributes, ms)->Ok_0;
    crate::message::lemma_parse_messages_round_trip(ms);
    if spec_attr_code(attributes) == 1 {
        assert(b.messages == gzip_of(spec_messages_bytes(ms)));
    } else {
        assert(b.messages == spec_messages_bytes(ms));
    }
}

/// Re-framing the messages of a framed batch yields the same batch: the
/// round trip `encode(decode(batch)) == batch` for batches that came out of
/// the encoder, under the same hypotheses.
pub proof fn lemma_batch_reencode(
    base_offset: u64,
    last_offset_delta: u32,
    attributes: u8,
    ms: Seq<MessageV>,
)
    requires
        forall|i: int| 0 <= i < ms.len() ==> msg_wf(#[trigger] ms[i]),
        spec_messages_to_batch(base_offset, last_offset_delta, attributes, ms) is Ok,
        spec_attr_code(attributes) == 1 ==> spec_messages_bytes(ms).len() > 132,
        spec_attr_code(attributes) == 1 ==> gunzip_of(gzip_of(spec_messages_bytes(ms))) == Some(
            spec_messages_bytes(ms),
        ),
    ensures
        ({
            let b = spec_messages_to_batch(base_offset, last_offset_delta, attributes, ms)->Ok_0;
            spec_messages_to_batch(
                b.base_offset,
                b.last_offset_delta,
                b.attributes,
                spec_into_messages(b)->Ok_0,
            ) == Ok::<BatchV, Error>(b)
        }),
{
    lemma_batch_round_trip(base_offset, last_offset_delta, attributes, ms);
}

} // verus!
