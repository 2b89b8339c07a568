//! Decimal rendering and parsing of unsigned integers, used by the textual
//! command encoding.

use crate::error::Error;
use vstd::prelude::*;
use vstd::string::StrSliceExecFns;

verus! {

/// The character for one decimal digit.
pub open spec fn dec_digit(d: int) -> char {
    if d == 0 {
        '0'
    } else if d == 1 {
        '1'
    } else if d == 2 {
        '2'
    } else if d == 3 {
        '3'
    } else if d == 4 {
        '4'
    } else if d == 5 {
        '5'
    } else if d == 6 {
        '6'
    } else if d == 7 {
        '7'
    } else if d == 8 {
        '8'
    } else {
        '9'
    }
}

/// The decimal rendering of `n`, most significant digit first, no sign and
/// no leading zeros (`0` renders as `"0"`).
pub open spec fn spec_dec(n: nat) -> Seq<char>
    decreases n,
{
    if n < 10 {
        seq![dec_digit(n as int)]
    } else {
        spec_dec(n / 10).push(dec_digit((n % 10) as int))
    }
}

/// Is `c` an ASCII decimal digit?
pub open spec fn is_dec_digit(c: char) -> bool {
    48 <= c as u32 <= 57
}

/// The numeric value of a digit character.
pub open spec fn dec_digit_val(c: char) -> int {
    c as u32 - 48
}

pub open spec fn all_dec_digits(s: Seq<char>) -> bool {
    forall|i: int| 0 <= i < s.len() ==> is_dec_digit(#[trigger] s[i])
}

/// The value of a digit string, most significant digit first.
pub open spec fn spec_dec_val(s: Seq<char>) -> int
    decreases s.len(),
{
    if s.len() == 0 {
        0
    } else {
        spec_dec_val(s.drop_last()) * 10 + dec_digit_val(s.last())
    }
}

/// The digit part of a decimal input: an optional leading `+` is skipped,
/// as Rust's own unsigned parsers accept one.
pub open spec fn dec_body(s: Seq<char>) -> Seq<char> {
    if s.len() > 0 && s[0] as u32 == 43 {
        s.subrange(1, s.len() as int)
    } else {
        s
    }
}

/// Is `s` a well-formed decimal input (optional `+`, then one or more digits)?
pub open spec fn is_dec_input(s: Seq<char>) -> bool {
    dec_body(s).len() > 0 && all_dec_digits(dec_body(s))
}

/// What parsing `s` as a `u64` yields: the digits' value when the input is
/// well formed and the value fits, nothing otherwise.
pub open spec fn spec_parse_u64(s: Seq<char>) -> Option<u64> {
    if is_dec_input(s) && spec_dec_val(dec_body(s)) <= u64::MAX {
        Some(spec_dec_val(dec_body(s)) as u64)
    } else {
        None
    }
}

/// What parsing `s` as a `u32` yields.
pub open spec fn spec_parse_u32(s: Seq<char>) -> Option<u32> {
    match spec_parse_u64(s) {
        Some(v) => if v <= u32::MAX {
            Some(v as u32)
        } else {
            None
        },
        None => None,
    }
}

/// What parsing `s` as a `u8` yields.
pub open spec fn spec_parse_u8(s: Seq<char>) -> Option<u8> {
    match spec_parse_u64(s) {
        Some(v) => if v <= u8::MAX {
            Some(v as u8)
        } else {
            None
        },
        None => None,
    }
}

/// A digit string has a non-negative value.
pub proof fn lemma_dec_val_nonneg(s: Seq<char>)
    requires
        all_dec_digits(s),
    ensures
        spec_dec_val(s) >= 0,
    decreases s.len(),
{
    if s.len() > 0 {
        assert(all_dec_digits(s.drop_last()));
        lemma_dec_val_nonneg(s.drop_last());
    }
}

/// Extending a digit string never lowers its value.
pub proof fn lemma_dec_val_extend(s: Seq<char>, t: Seq<char>)
    requires
        all_dec_digits(t),
        s.len() <= t.len(),
        s == t.subrange(0, s.len() as int),
    ensures
        spec_dec_val(s) <= spec_dec_val(t),
    decreases t.len() - s.len(),
{
    if s.len() < t.len() {
        let t1 = t.drop_last();
        assert(all_dec_digits(t1));
        assert(s =~= t1.subrange(0, s.len() as int));
        lemma_dec_val_extend(s, t1);
        lemma_dec_val_nonneg(t1);
        assert(is_dec_digit(t.last()));
        assert(dec_digit_val(t.last()) >= 0);
        assert(spec_dec_val(t) == spec_dec_val(t1) * 10 + dec_digit_val(t.last()));
    } else {
        assert(s =~= t);
    }
}

/// The decimal rendering consists of digits, is non-empty, and renders the
/// value it came from.
pub proof fn lemma_spec_dec_digits(n: nat)
    ensures
        spec_dec(n).len() >= 1,
        all_dec_digits(spec_dec(n)),
        spec_dec_val(spec_dec(n)) == n,
        is_dec_digit(spec_dec(n)[0]),
    decreases n,
{
    if n < 10 {
        let s0 = seq![dec_digit(n as int)];
        assert(spec_dec(n) =~= s0);
        assert(is_dec_digit(dec_digit(n as int)));
        assert(s0.drop_last() =~= Seq::<char>::empty());
        assert(spec_dec_val(s0.drop_last()) == 0);
        assert(s0.last() == dec_digit(n as int));
        assert(spec_dec_val(s0) == 0 * 10 + dec_digit_val(dec_digit(n as int)));
        assert(dec_digit_val(dec_digit(n as int)) == n);
    } else {
        lemma_spec_dec_digits(n / 10);
        let p = spec_dec(n / 10);
        let w = p.push(dec_digit((n % 10) as int));
        assert(w.drop_last() =~= p);
        assert(w.last() == dec_digit((n % 10) as int));
        assert(dec_digit_val(dec_digit((n % 10) as int)) == n % 10);
        assert(spec_dec_val(w) == spec_dec_val(p) * 10 + n % 10);
        assert(forall|i: int| 0 <= i < p.len() ==> w[i] == p[i]);
        assert(all_dec_digits(w));
        assert(w[0] == p[0]);
    }
}

/// Rendering then parsing gives back the number.
pub proof fn lemma_dec_round_trip(n: u64)
    ensures
        spec_parse_u64(spec_dec(n as nat)) == Some(n),
    decreases n,
{
    lemma_spec_dec_digits(n as nat);
    let s = spec_dec(n as nat);
    assert(s[0] as u32 != 43);
    assert(dec_body(s) == s);
}

/// One digit as a character.
fn dec_digit_char(d: u64) -> (c: char)
    requires
        d < 10,
    ensures
        c == dec_digit(d as int),
{
    if d == 0 {
        '0'
    } else if d == 1 {
        '1'
    } else if d == 2 {
        '2'
    } else if d == 3 {
        '3'
    } else if d == 4 {
        '4'
    } else if d == 5 {
        '5'
    } else if d == 6 {
        '6'
    } else if d == 7 {
        '7'
    } else if d == 8 {
        '8'
    } else {
        '9'
    }
}

/// Renders `n` in decimal.
pub fn u64_to_dec(n: u64) -> (r: String)
    ensures
        r@ == spec_dec(n as nat),
    decreases n,
{
    if n < 10 {
        let mut s = String::new();
        s.push(dec_digit_char(n));
        proof {
            assert(s@ =~= spec_dec(n as nat));
        }
        s
    } else {
        let mut s = u64_to_dec(n / 10);
        s.push(dec_digit_char(n % 10));
        s
    }
}

/// Renders `n` in decimal.
pub fn u32_to_dec(n: u32) -> (r: String)
    ensures
        r@ == spec_dec(n as nat),
{
    u64_to_dec(n as u64)
}

/// Parses `s` as a `u64`: an optional `+`, then one or more digits whose
/// value fits. Anything else is an `InvalidCommand` error.
pub fn parse_u64(s: &str) -> (r: Result<u64, Error>)
    ensures
        match r {
            Ok(v) => spec_parse_u64(s@) == Some(v),
            Err(e) => spec_parse_u64(s@) is None && e is InvalidCommand,
        },
{
    let len = s.unicode_len();
    let mut start: usize = 0;
    if len > 0 {
        let c0 = s.get_char(0);
        if c0 as u32 == 43 {
            start = 1;
        }
    }
    let ghost body = dec_body(s@);
    proof {
        assert(body =~= s@.subrange(start as int, len as int));
    }
    if start >= len {
        return Err(Error::InvalidCommand);
    }
    let mut acc: u64 = 0;
    let mut i: usize = start;
    while i < len
        invariant
            start <= i <= len,
            len == s@.len(),
            start < len,
            body == dec_body(s@),
            body == s@.subrange(start as int, len as int),
            all_dec_digits(s@.subrange(start as int, i as int)),
            acc == spec_dec_val(s@.subrange(start as int, i as int)),
        decreases len - i,
    {
        let c = s.get_char(i);
        let u = c as u32;
        if !(48 <= u && u <= 57) {
            proof {
                assert(body[i - start] == s@[i as int]);
                assert(!is_dec_digit(body[i - start]));
            }
            return Err(Error::InvalidCommand);
        }
        let d: u64 = (u - 48) as u64;
        let ghost prefix = s@.subrange(start as int, i as int);
        let ghost prefix1 = s@.subrange(start as int, i + 1);
        proof {
            assert(prefix1.drop_last() =~= prefix);
            assert(prefix1.last() == s@[i as int]);
        }
        match acc.checked_mul(10) {
            Some(m) => {
                match m.checked_add(d) {
                    Some(v) => {
                        acc = v;
                    },
                    None => {
                        proof {
                            lemma_overflow_stays(s@, start as int, i + 1, acc * 10 + d);
                        }
                        return Err(Error::InvalidCommand);
                    },
                }
            },
            None => {
                proof {
                    lemma_dec_val_nonneg(prefix);
                    assert(spec_dec_val(prefix1) == acc * 10 + dec_digit_val(s@[i as int]));
                    assert(spec_dec_val(prefix1) > u64::MAX);
                    lemma_overflow_stays(s@, start as int, i + 1, spec_dec_val(prefix1));
                }
                return Err(Error::InvalidCommand);
            },
        }
        i = i + 1;
    }
    proof {
        assert(s@.subrange(start as int, len as int) =~= body);
    }
    Ok(acc)
}

/// Once a digit prefix exceeds `u64::MAX`, the whole input does too.
proof fn lemma_overflow_stays(s: Seq<char>, start: int, upto: int, v: int)
    requires
        0 <= start <= upto <= s.len(),
        all_dec_digits(s.subrange(start, upto)),
        spec_dec_val(s.subrange(start, upto)) == v,
        v > u64::MAX,
    ensures
        !(all_dec_digits(s.subrange(start, s.len() as int)) && spec_dec_val(
            s.subrange(start, s.len() as int),
        ) <= u64::MAX),
{
    let whole = s.subrange(start, s.len() as int);
    if all_dec_digits(whole) {
        let prefix = s.subrange(start, upto);
        assert(prefix =~= whole.subrange(0, upto - start));
        lemma_dec_val_extend(prefix, whole);
    }
}

/// Parses `s` as a `u32`.
pub fn parse_u32(s: &str) -> (r: Result<u32, Error>)
    ensures
        match r {
            Ok(v) => spec_parse_u32(s@) == Some(v),
            Err(e) => spec_parse_u32(s@) is None && e is InvalidCommand,
        },
{
    let v = parse_u64(s)?;
    if v > u32::MAX as u64 {
        return Err(Error::InvalidCommand);
    }
    Ok(v as u32)
}

/// Parses `s` as a `u8`.
pub fn parse_u8(s: &str) -> (r: Result<u8, Error>)
    ensures
        match r {
            Ok(v) => spec_parse_u8(s@) == Some(v),
            Err(e) => spec_parse_u8(s@) is None && e is InvalidCommand,
        },
{
    let v = parse_u64(s)?;
    if v > u8::MAX as u64 {
        return Err(Error::InvalidCommand);
    }
    Ok(v as u8)
}

} // verus!
