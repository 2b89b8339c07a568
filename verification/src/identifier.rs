//! Uniform addressing of streams and topics: either a numeric id or a name.
//!
//! Binary layout: `kind:u8 | length:u8 | value`. Numeric: kind 1, length 4,
//! value a little-endian non-zero `u32`. Named: kind 2, length 1..=255,
//! value the UTF-8 name bytes.

use crate::decimal::{parse_u32, spec_dec, spec_parse_u32, u32_to_dec};
use crate::error::Error;
use crate::wire;
use vstd::bytes::{spec_u32_from_le_bytes, spec_u32_to_le_bytes};
use vstd::prelude::*;
use vstd::string::StrSliceExecFns;
use vstd::string::StringSliceAdditionalSpecFns;
use vstd::utf8::{decode_utf8, encode_utf8, valid_utf8};

verus! {

/// Which of the two identifier forms a value carries.
#[derive(Debug, Clone, Copy, PartialEq, Eq, Structural)]
pub enum IdKind {
    /// A numeric id.
    Numeric,
    /// A textual name.
    Named,
}

/// The mathematical view of an [`Identifier`].
#[verifier::ext_equal]
pub struct IdView {
    pub kind: IdKind,
    pub value: Seq<u8>,
}

/// An identifier as it travels on the wire: a kind tag, a length byte and
/// the raw value bytes.
#[derive(Debug, Clone, PartialEq)]
pub struct Identifier {
    pub kind: IdKind,
    pub length: u8,
    pub value: Vec<u8>,
}

impl View for Identifier {
    type V = IdView;

    open spec fn view(&self) -> IdView {
        IdView { kind: self.kind, value: self.value@ }
    }
}

/// Well-formedness of an identifier view: numeric values are non-zero
/// 4-byte little-endian integers, names hold 1 to 255 bytes.
pub open spec fn id_wf(v: IdView) -> bool {
    match v.kind {
        IdKind::Numeric => v.value.len() == 4 && spec_u32_from_le_bytes(v.value) != 0,
        IdKind::Named => 1 <= v.value.len() <= 255 && valid_utf8(v.value),
    }
}

/// The wire tag of an identifier kind.
pub open spec fn kind_code(k: IdKind) -> u8 {
    match k {
        IdKind::Numeric => 1u8,
        IdKind::Named => 2u8,
    }
}

/// The numeric identifier view holding `value`.
pub open spec fn spec_numeric_id(value: u32) -> IdView {
    IdView { kind: IdKind::Numeric, value: spec_u32_to_le_bytes(value) }
}

/// The named identifier view holding the bytes `value`.
pub open spec fn spec_named_id(value: Seq<u8>) -> IdView {
    IdView { kind: IdKind::Named, value: value }
}

/// The wire bytes of an identifier.
pub open spec fn spec_id_bytes(v: IdView) -> Seq<u8> {
    seq![kind_code(v.kind), v.value.len() as u8] + v.value
}

/// Does `s` begin with a well-formed identifier frame?
pub open spec fn spec_id_prefix_ok(s: Seq<u8>) -> bool {
    &&& s.len() >= 2
    &&& (s[0] == 1 || s[0] == 2)
    &&& s.len() >= 2 + s[1]
    &&& (s[0] == 1 ==> s[1] == 4 && spec_u32_from_le_bytes(s.subrange(2, 6)) != 0)
    &&& (s[0] == 2 ==> s[1] >= 1 && valid_utf8(s.subrange(2, 2 + s[1])))
}

/// The identifier at the head of `s` (meaningful when `spec_id_prefix_ok`).
pub open spec fn spec_parse_id(s: Seq<u8>) -> IdView {
    IdView {
        kind: if s[0] == 1 {
            IdKind::Numeric
        } else {
            IdKind::Named
        },
        value: s.subrange(2, 2 + s[1]),
    }
}

/// What parsing an identifier frame from the head of `s` yields, error
/// kinds included: frames cut short fail with `InvalidCommand`, a bad kind
/// tag, a zero numeric value or a bad length with `InvalidIdentifier`.
pub open spec fn spec_id_from_bytes(s: Seq<u8>) -> Result<IdView, Error> {
    if s.len() < 2 {
        Err(Error::InvalidCommand)
    } else if s[0] != 1 && s[0] != 2 {
        Err(Error::InvalidIdentifier)
    } else if s.len() < 2 + s[1] {
        Err(Error::InvalidCommand)
    } else if s[0] == 1 && s[1] != 4 {
        Err(Error::InvalidIdentifier)
    } else if s[0] == 1 && spec_u32_from_le_bytes(s.subrange(2, 6)) == 0 {
        Err(Error::InvalidIdentifier)
    } else if s[0] == 2 && s[1] < 1 {
        Err(Error::InvalidIdentifier)
    } else if s[0] == 2 && !valid_utf8(s.subrange(2, 2 + s[1])) {
        Err(Error::InvalidIdentifier)
    } else {
        Ok(spec_parse_id(s))
    }
}

/// Encoding an identifier and parsing it back, with any suffix behind it,
/// gives it back.
pub proof fn lemma_id_bytes_round_trip(v: IdView, rest: Seq<u8>)
    requires
        id_wf(v),
    ensures
        spec_id_bytes(v).len() == 2 + v.value.len(),
        spec_id_prefix_ok(spec_id_bytes(v) + rest),
        spec_parse_id(spec_id_bytes(v) + rest) == v,
        spec_id_from_bytes(spec_id_bytes(v) + rest) == Ok::<IdView, Error>(v),
{
    let s = spec_id_bytes(v) + rest;
    assert(s[0] == kind_code(v.kind));
    assert(s[1] == v.value.len() as u8);
    assert(s.subrange(2, 2 + s[1]) =~= v.value);
    match v.kind {
        IdKind::Numeric => {
            assert(s.subrange(2, 6) =~= v.value);
        },
        IdKind::Named => {},
    }
    assert(spec_parse_id(s) =~= v);
}

impl Identifier {
    /// Internal consistency: the length byte matches the stored bytes and
    /// the view is well formed.
    pub open spec fn wf(&self) -> bool {
        self.length == self.value@.len() && id_wf(self@)
    }

    /// Builds a numeric identifier; zero is rejected.
    pub fn numeric(value: u32) -> (r: Result<Identifier, Error>)
        ensures
            match r {
                Ok(id) => value != 0 && id.wf() && id@ == spec_numeric_id(value),
                Err(e) => value == 0 && e is InvalidIdentifier,
            },
    {
        if value == 0 {
            return Err(Error::InvalidIdentifier);
        }
        let mut bytes: Vec<u8> = Vec::new();
        wire::put_u32_le(&mut bytes, value);
        proof {
            vstd::bytes::lemma_auto_spec_u32_to_from_le_bytes();
            assert(bytes@ =~= spec_u32_to_le_bytes(value));
        }
        Ok(Identifier { kind: IdKind::Numeric, length: 4, value: bytes })
    }

    /// Builds a named identifier; the name must hold 1 to 255 bytes.
    pub fn named(value: &str) -> (r: Result<Identifier, Error>)
        ensures
            match r {
                Ok(id) => 1 <= value.spec_bytes().len() <= 255 && id.wf() && id@ == spec_named_id(
                    value.spec_bytes(),
                ),
                Err(e) => !(1 <= value.spec_bytes().len() <= 255) && e is InvalidIdentifier,
            },
    {
        let bytes = value.as_bytes_vec();
        if bytes.len() < 1 || bytes.len() > 255 {
            return Err(Error::InvalidIdentifier);
        }
        proof {
            vstd::utf8::encode_utf8_valid_utf8(value@);
        }
        let len = bytes.len() as u8;
        Ok(Identifier { kind: IdKind::Named, length: len, value: bytes })
    }

    /// The numeric value, for numeric identifiers.
    pub fn get_u32_value(&self) -> (r: Result<u32, Error>)
        requires
            self.wf(),
        ensures
            match r {
                Ok(v) => self@.kind is Numeric && v == spec_u32_from_le_bytes(self@.value),
                Err(e) => !(self@.kind is Numeric) && e is InvalidIdentifier,
            },
    {
        match self.kind {
            IdKind::Numeric => {
                let v = wire::get_u32_le(self.value.as_slice(), 0);
                proof {
                    assert(self.value@.subrange(0, 4) =~= self.value@);
                }
                Ok(v)
            },
            IdKind::Named => Err(Error::InvalidIdentifier),
        }
    }

    /// The name, for named identifiers whose bytes are valid UTF-8.
    pub fn get_string_value(&self) -> (r: Result<String, Error>)
        requires
            self.wf(),
        ensures
            match r {
                Ok(s) => self@.kind is Named && valid_utf8(self@.value) && encode_utf8(s@)
                    == self@.value && s@ == decode_utf8(self@.value),
                Err(e) => (!(self@.kind is Named) || !valid_utf8(self@.value))
                    && e is InvalidIdentifier,
            },
    {
        match self.kind {
            IdKind::Numeric => Err(Error::InvalidIdentifier),
            IdKind::Named => {
                match core::str::from_utf8(self.value.as_slice()) {
                    Ok(s) => {
                        proof {
                            vstd::utf8::encode_utf8_decode_utf8(s@);
                            vstd::utf8::decode_utf8_encode_utf8(self.value@);
                        }
                        Ok(s.to_owned())
                    },
                    Err(_) => Err(Error::InvalidIdentifier),
                }
            },
        }
    }

    /// Total size of the wire frame: the two header bytes plus the value.
    pub fn get_size_bytes(&self) -> (r: u32)
        requires
            self.wf(),
        ensures
            r == spec_id_bytes(self@).len(),
            r == 2 + self@.value.len(),
    {
        2 + self.length as u32
    }

    /// Serializes the identifier frame.
    pub fn as_bytes(&self) -> (r: Vec<u8>)
        requires
            self.wf(),
        ensures
            r@ == spec_id_bytes(self@),
    {
        let mut bytes: Vec<u8> = Vec::new();
        let code: u8 = match self.kind {
            IdKind::Numeric => 1,
            IdKind::Named => 2,
        };
        wire::put_u8(&mut bytes, code);
        wire::put_u8(&mut bytes, self.length);
        wire::put_bytes(&mut bytes, self.value.as_slice());
        proof {
            assert(bytes@ =~= spec_id_bytes(self@));
        }
        bytes
    }

    /// Parses the identifier frame at the head of `bytes`. Frames cut short
    /// fail with `InvalidCommand`; a bad kind tag, a zero numeric value or a
    /// bad length fail with `InvalidIdentifier`.
    pub fn from_bytes(bytes: &[u8]) -> (r: Result<Identifier, Error>)
        ensures
            match r {
                Ok(id) => spec_id_prefix_ok(bytes@) && id.wf() && id@ == spec_parse_id(bytes@)
                    && spec_id_from_bytes(bytes@) == Ok::<IdView, Error>(id@),
                Err(e) => !spec_id_prefix_ok(bytes@) && spec_id_from_bytes(bytes@) == Err::<
                    IdView,
                    Error,
                >(e),
            },
    {
        let n: usize = bytes.len();
        if n < 2 {
            return Err(Error::InvalidCommand);
        }
        let code = bytes[0];
        let length = bytes[1];
        if code != 1 && code != 2 {
            return Err(Error::InvalidIdentifier);
        }
        if n < 2 + length as usize {
            return Err(Error::InvalidCommand);
        }
        let value = wire::copy_range(bytes, 2, length as usize);
        if code == 1 {
            if length != 4 {
                return Err(Error::InvalidIdentifier);
            }
            let v = wire::get_u32_le(bytes, 2);
            proof {
                assert(bytes@.subrange(2, 6) =~= value@);
            }
            if v == 0 {
                return Err(Error::InvalidIdentifier);
            }
            Ok(Identifier { kind: IdKind::Numeric, length, value })
        } else {
            if length < 1 {
                return Err(Error::InvalidIdentifier);
            }
            match core::str::from_utf8(value.as_slice()) {
                Ok(_) => {},
                Err(_) => {
                    return Err(Error::InvalidIdentifier);
                },
            }
            Ok(Identifier { kind: IdKind::Named, length, value })
        }
    }
}

/// What parsing an identifier from text yields: a numeric identifier when
/// the text parses as a `u32`, otherwise a named identifier.
pub open spec fn spec_id_from_text(s: Seq<char>) -> Result<IdView, Error> {
    match spec_parse_u32(s) {
        Some(v) => if v != 0 {
            Ok(spec_numeric_id(v))
        } else {
            Err(Error::InvalidIdentifier)
        },
        None => if 1 <= encode_utf8(s).len() <= 255 {
            Ok(spec_named_id(encode_utf8(s)))
        } else {
            Err(Error::InvalidIdentifier)
        },
    }
}

/// The textual form of an identifier: the decimal number, or the name.
pub open spec fn spec_id_text(v: IdView) -> Seq<char> {
    match v.kind {
        IdKind::Numeric => spec_dec(spec_u32_from_le_bytes(v.value) as nat),
        IdKind::Named => decode_utf8(v.value),
    }
}

impl Identifier {
    /// Parses an identifier from its textual form.
    pub fn from_str_value(input: &str) -> (r: Result<Identifier, Error>)
        ensures
            match r {
                Ok(id) => id.wf() && spec_id_from_text(input@) == Ok::<IdView, Error>(id@),
                Err(e) => spec_id_from_text(input@) == Err::<IdView, Error>(e),
            },
    {
        match parse_u32(input) {
            Ok(v) => Self::numeric(v),
            Err(_) => {
                match Self::named(input) {
                    Ok(id) => Ok(id),
                    Err(e) => Err(e),
                }
            },
        }
    }

    /// Renders the identifier as text: the decimal id, or the name itself.
    pub fn to_text(&self) -> (r: String)
        requires
            self.wf(),
            self@.kind is Named ==> valid_utf8(self@.value),
        ensures
            r@ == spec_id_text(self@),
    {
        match self.kind {
            IdKind::Numeric => {
                let v = wire::get_u32_le(self.value.as_slice(), 0);
                proof {
                    assert(self.value@.subrange(0, 4) =~= self.value@);
                }
                u32_to_dec(v)
            },
            IdKind::Named => {
                match self.get_string_value() {
                    Ok(s) => s,
                    Err(_) => {
                        proof {
                            assert(false);
                        }
                        String::new()
                    },
                }
            },
        }
    }
}

impl Default for Identifier {
    /// The default identifier: numeric 1.
    fn default() -> (r: Identifier)
        ensures
            r.wf(),
            r@ == spec_numeric_id(1),
    {
        match Identifier::numeric(1) {
            Ok(id) => id,
            Err(_) => {
                proof {
                    assert(false);
                }
                Identifier { kind: IdKind::Numeric, length: 0, value: Vec::new() }
            },
        }
    }
}

/// Parsing the textual form of a well-formed identifier gives it back,
/// provided a named identifier's bytes are UTF-8 and its text does not
/// itself read as a non-zero number.
pub proof fn lemma_id_text_round_trip(v: IdView)
    requires
        id_wf(v),
        v.kind is Named ==> valid_utf8(v.value),
        v.kind is Named ==> spec_parse_u32(decode_utf8(v.value)) is None,
    ensures
        spec_id_from_text(spec_id_text(v)) == Ok::<IdView, Error>(v),
{
    match v.kind {
        IdKind::Numeric => {
            let n = spec_u32_from_le_bytes(v.value);
            crate::decimal::lemma_dec_round_trip(n as u64);
            assert(spec_parse_u32(spec_dec(n as nat)) == Some(n));
            vstd::bytes::lemma_auto_spec_u32_to_from_le_bytes();
            assert(spec_u32_to_le_bytes(spec_u32_from_le_bytes(v.value)) == v.value);
            assert(spec_numeric_id(n) =~= v);
        },
        IdKind::Named => {
            let t = decode_utf8(v.value);
            vstd::utf8::decode_utf8_encode_utf8(v.value);
            assert(encode_utf8(t) == v.value);
            assert(spec_named_id(encode_utf8(t)) =~= v);
        },
    }
}

} // verus!
