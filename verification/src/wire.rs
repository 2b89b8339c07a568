//! Little-endian read/write primitives for the binary wire format.
//!
//! All multi-byte integers on the wire are little-endian. The spec-level
//! encodings come from `vstd::bytes`, so every writer states exactly which
//! bytes it appends and every reader states exactly which value it decodes.

use vstd::bytes::*;
use vstd::prelude::*;
use vstd::slice::slice_subrange;

verus! {

/// Appends every byte of `other` to `bytes`.
pub fn put_bytes(bytes: &mut Vec<u8>, other: &[u8])
    requires
        old(bytes)@.len() + other@.len() <= usize::MAX,
    ensures
        final(bytes)@ == old(bytes)@ + other@,
{
    let mut i: usize = 0;
    while i < other.len()
        invariant
            i <= other@.len(),
            old(bytes)@.len() + other@.len() <= usize::MAX,
            bytes@ == old(bytes)@ + other@.subrange(0, i as int),
        decreases other@.len() - i,
    {
        bytes.push(other[i]);
        i = i + 1;
        proof {
            assert(bytes@ =~= old(bytes)@ + other@.subrange(0, i as int));
        }
    }
    proof {
        assert(bytes@ =~= old(bytes)@ + other@);
    }
}

/// Appends one byte.
pub fn put_u8(bytes: &mut Vec<u8>, value: u8)
    requires
        old(bytes)@.len() < usize::MAX,
    ensures
        final(bytes)@ == old(bytes)@ + seq![value],
{
    bytes.push(value);
    proof {
        assert(bytes@ =~= old(bytes)@ + seq![value]);
    }
}

/// Appends the 4 little-endian bytes of `value`.
pub fn put_u32_le(bytes: &mut Vec<u8>, value: u32)
    requires
        old(bytes)@.len() + 4 <= usize::MAX,
    ensures
        final(bytes)@ == old(bytes)@ + spec_u32_to_le_bytes(value),
{
    proof {
        lemma_auto_spec_u32_to_from_le_bytes();
    }
    let le = u32_to_le_bytes(value);
    put_bytes(bytes, le.as_slice());
}

/// Appends the 8 little-endian bytes of `value`.
pub fn put_u64_le(bytes: &mut Vec<u8>, value: u64)
    requires
        old(bytes)@.len() + 8 <= usize::MAX,
    ensures
        final(bytes)@ == old(bytes)@ + spec_u64_to_le_bytes(value),
{
    proof {
        lemma_auto_spec_u64_to_from_le_bytes();
    }
    let le = u64_to_le_bytes(value);
    put_bytes(bytes, le.as_slice());
}

/// Appends the 16 little-endian bytes of `value`.
pub fn put_u128_le(bytes: &mut Vec<u8>, value: u128)
    requires
        old(bytes)@.len() + 16 <= usize::MAX,
    ensures
        final(bytes)@ == old(bytes)@ + spec_u128_to_le_bytes(value),
{
    proof {
        lemma_auto_spec_u128_to_from_le_bytes();
    }
    let le = u128_to_le_bytes(value);
    put_bytes(bytes, le.as_slice());
}

/// The wire code of an optional `u32`: zero encodes "unset".
pub open spec fn opt_u32_code(v: Option<u32>) -> u32 {
    match v {
        Some(x) => x,
        None => 0,
    }
}

/// The optional `u32` a wire code denotes: zero decodes to "unset".
pub open spec fn code_opt_u32(x: u32) -> Option<u32> {
    if x == 0 {
        None
    } else {
        Some(x)
    }
}

/// The wire code of an optional `u64`: zero encodes "unset".
pub open spec fn opt_u64_code(v: Option<u64>) -> u64 {
    match v {
        Some(x) => x,
        None => 0,
    }
}

/// The optional `u64` a wire code denotes: zero decodes to "unset".
pub open spec fn code_opt_u64(x: u64) -> Option<u64> {
    if x == 0 {
        None
    } else {
        Some(x)
    }
}

/// The wire code of an optional `u32`.
pub fn opt_u32_value(v: &Option<u32>) -> (r: u32)
    ensures
        r == opt_u32_code(*v),
{
    match v {
        Some(x) => *x,
        None => 0,
    }
}

/// The wire code of an optional `u64`.
pub fn opt_u64_value(v: &Option<u64>) -> (r: u64)
    ensures
        r == opt_u64_code(*v),
{
    match v {
        Some(x) => *x,
        None => 0,
    }
}

/// Decodes an optional `u32` from its wire code.
pub fn u32_opt(x: u32) -> (r: Option<u32>)
    ensures
        r == code_opt_u32(x),
{
    if x == 0 {
        None
    } else {
        Some(x)
    }
}

/// Decodes an optional `u64` from its wire code.
pub fn u64_opt(x: u64) -> (r: Option<u64>)
    ensures
        r == code_opt_u64(x),
{
    if x == 0 {
        None
    } else {
        Some(x)
    }
}

/// Copies a byte vector.
pub fn copy_bytes(v: &Vec<u8>) -> (r: Vec<u8>)
    ensures
        r@ == v@,
{
    let n: usize = v.len();
    let mut out: Vec<u8> = Vec::new();
    put_bytes(&mut out, v.as_slice());
    proof {
        assert(out@ =~= v@);
    }
    out
}

/// Reads the `u32` whose little-endian bytes sit at `bytes[pos..pos + 4]`.
pub fn get_u32_le(bytes: &[u8], pos: usize) -> (r: u32)
    requires
        pos + 4 <= bytes@.len(),
    ensures
        r == spec_u32_from_le_bytes(bytes@.subrange(pos as int, pos + 4)),
{
    let n: usize = bytes.len();
    proof {
        assert(pos + 4 <= n);
    }
    let s = slice_subrange(bytes, pos, pos + 4);
    u32_from_le_bytes(s)
}

/// Reads the `u64` whose little-endian bytes sit at `bytes[pos..pos + 8]`.
pub fn get_u64_le(bytes: &[u8], pos: usize) -> (r: u64)
    requires
        pos + 8 <= bytes@.len(),
    ensures
        r == spec_u64_from_le_bytes(bytes@.subrange(pos as int, pos + 8)),
{
    let n: usize = bytes.len();
    proof {
        assert(pos + 8 <= n);
    }
    let s = slice_subrange(bytes, pos, pos + 8);
    u64_from_le_bytes(s)
}

/// Reads the `u128` whose little-endian bytes sit at `bytes[pos..pos + 16]`.
pub fn get_u128_le(bytes: &[u8], pos: usize) -> (r: u128)
    requires
        pos + 16 <= bytes@.len(),
    ensures
        r == spec_u128_from_le_bytes(bytes@.subrange(pos as int, pos + 16)),
{
    let n: usize = bytes.len();
    proof {
        assert(pos + 16 <= n);
    }
    let s = slice_subrange(bytes, pos, pos + 16);
    u128_from_le_bytes(s)
}

/// Copies `bytes[pos..pos + len]` into a fresh vector.
pub fn copy_range(bytes: &[u8], pos: usize, len: usize) -> (r: Vec<u8>)
    requires
        pos + len <= bytes@.len(),
    ensures
        r@ == bytes@.subrange(pos as int, pos + len),
{
    let n: usize = bytes.len();
    proof {
        assert(pos + len <= n);
    }
    let s = slice_subrange(bytes, pos, pos + len);
    let mut out: Vec<u8> = Vec::new();
    put_bytes(&mut out, s);
    proof {
        assert(out@ =~= bytes@.subrange(pos as int, pos + len));
    }
    out
}

} // verus!
