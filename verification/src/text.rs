//! Resource-name validation and normalization.
//!
//! Stream and topic names use a restricted ASCII charset (alphanumerics,
//! `.`, `_`, `-`) and are normalized before lookup: ASCII uppercase letters
//! are lowered and whitespace becomes `-`.

use vstd::prelude::*;
use vstd::string::StrSliceExecFns;

verus! {

/// A character accepted inside a resource name.
pub open spec fn is_resource_char(c: char) -> bool {
    let u = c as u32;
    (48 <= u && u <= 57)  // '0'..='9'
     || (65 <= u && u <= 90)  // 'A'..='Z'
     || (97 <= u && u <= 122)  // 'a'..='z'
     || u == 46 || u == 95 || u == 45  // '.', '_', '-'

}

/// A valid resource name: 1 to 255 characters, all from the resource charset.
pub open spec fn is_resource_name(s: Seq<char>) -> bool {
    1 <= s.len() <= 255 && (forall|i: int| 0 <= i < s.len() ==> is_resource_char(#[trigger] s[i]))
}

/// Returns true iff `s` is a valid resource name.
pub fn is_resource_name_valid(s: &str) -> (r: bool)
    ensures
        r == is_resource_name(s@),
{
    let len = s.unicode_len();
    if len < 1 || len > 255 {
        return false;
    }
    let mut i: usize = 0;
    while i < len
        invariant
            i <= len,
            len == s@.len(),
            1 <= len <= 255,
            forall|j: int| 0 <= j < i ==> is_resource_char(#[trigger] s@[j]),
        decreases len - i,
    {
        let c = s.get_char(i);
        let u = c as u32;
        let ok = (48 <= u && u <= 57) || (65 <= u && u <= 90) || (97 <= u && u <= 122) || u == 46
            || u == 95 || u == 45;
        if !ok {
            return false;
        }
        i = i + 1;
    }
    true
}

/// The normalized form of one character: ASCII uppercase is lowered,
/// ASCII whitespace becomes `-`, everything else is unchanged.
pub open spec fn spec_normalize_char(c: char) -> char {
    let u = c as u32;
    if u == 32 || u == 9 || u == 10 || u == 13 {
        '-'
    } else if 65 <= u && u <= 90 {
        (((u + 32) as u8) as char)
    } else {
        c
    }
}

/// The normalized form of a whole name.
pub open spec fn spec_normalize(s: Seq<char>) -> Seq<char> {
    s.map_values(|c: char| spec_normalize_char(c))
}

/// Normalizes a name for lookup: lowers ASCII uppercase and replaces
/// ASCII whitespace with `-`.
pub fn to_lowercase_non_whitespace(s: &str) -> (r: String)
    ensures
        r@ == spec_normalize(s@),
{
    let len = s.unicode_len();
    let mut out = String::new();
    let mut i: usize = 0;
    while i < len
        invariant
            i <= len,
            len == s@.len(),
            out@ == spec_normalize(s@.subrange(0, i as int)),
        decreases len - i,
    {
        let c = s.get_char(i);
        let u = c as u32;
        let nc: char = if u == 32 || u == 9 || u == 10 || u == 13 {
            '-'
        } else if 65 <= u && u <= 90 {
            ((u + 32) as u8) as char
        } else {
            c
        };
        out.push(nc);
        i = i + 1;
        proof {
            assert(out@ =~= spec_normalize(s@.subrange(0, i as int)));
        }
    }
    proof {
        assert(s@.subrange(0, len as int) =~= s@);
    }
    out
}

/// A normalized resource name stays a valid resource name, and a name
/// that is already normalized is unchanged by normalization.
pub proof fn lemma_normalize_resource_name(s: Seq<char>)
    requires
        is_resource_name(s),
    ensures
        is_resource_name(spec_normalize(s)),
        (forall|i: int|
            0 <= i < s.len() ==> !(65 <= (#[trigger] s[i]) as u32 <= 90)) ==> spec_normalize(s)
            =~= s,
{
    assert forall|i: int| 0 <= i < spec_normalize(s).len() implies is_resource_char(
        #[trigger] spec_normalize(s)[i],
    ) by {
        assert(is_resource_char(s[i]));
        assert(spec_normalize(s)[i] == spec_normalize_char(s[i]));
    }
}

/// Index of the first occurrence of `sep` in `s`, or `s.len()` if absent.
pub open spec fn first_sep(s: Seq<char>, sep: char) -> nat
    decreases s.len(),
{
    if s.len() == 0 {
        0
    } else if s[0] == sep {
        0
    } else {
        1 + first_sep(s.subrange(1, s.len() as int), sep)
    }
}

/// `first_sep` is the unique position with no separator before it that is
/// either a separator or the end of the string.
pub proof fn lemma_first_sep_char(s: Seq<char>, sep: char, i: int)
    requires
        0 <= i <= s.len(),
        forall|j: int| 0 <= j < i ==> s[j] != sep,
        i < s.len() ==> s[i] == sep,
    ensures
        first_sep(s, sep) == i,
    decreases s.len(),
{
    if s.len() == 0 {
    } else if s[0] == sep {
        assert(i == 0);
    } else {
        assert(i != 0);
        let t = s.subrange(1, s.len() as int);
        assert(forall|j: int| 0 <= j < i - 1 ==> #[trigger] t[j] == s[j + 1]);
        assert(i - 1 < t.len() ==> t[i - 1] == s[i as int]);
        lemma_first_sep_char(t, sep, i - 1);
    }
}

/// Splits `s` at every occurrence of `sep`. Splitting the empty string gives
/// one empty part, as Rust's own `split` does.
pub open spec fn spec_split(s: Seq<char>, sep: char) -> Seq<Seq<char>>
    decreases s.len(),
{
    let i = first_sep(s, sep);
    if i >= s.len() {
        seq![s]
    } else {
        seq![s.subrange(0, i as int)] + spec_split(s.subrange(i + 1 as int, s.len() as int), sep)
    }
}

/// Joins `parts` with `sep` between consecutive parts.
pub open spec fn spec_join(parts: Seq<Seq<char>>, sep: char) -> Seq<char>
    decreases parts.len(),
{
    if parts.len() == 0 {
        Seq::empty()
    } else if parts.len() == 1 {
        parts[0]
    } else {
        parts[0] + seq![sep] + spec_join(parts.subrange(1, parts.len() as int), sep)
    }
}

/// Splitting a joined string recovers the parts, provided no part contains
/// the separator.
pub proof fn lemma_split_join(parts: Seq<Seq<char>>, sep: char)
    requires
        parts.len() >= 1,
        forall|k: int, j: int|
            0 <= k < parts.len() && 0 <= j < parts[k].len() ==> #[trigger] parts[k][j] != sep,
    ensures
        spec_split(spec_join(parts, sep), sep) == parts,
    decreases parts.len(),
{
    let s = spec_join(parts, sep);
    if parts.len() == 1 {
        assert(s == parts[0]);
        assert(forall|j: int| 0 <= j < s.len() ==> s[j] != sep);
        lemma_first_sep_char(s, sep, s.len() as int);
        assert(spec_split(s, sep) =~= parts);
    } else {
        let p0 = parts[0];
        let rest = parts.subrange(1, parts.len() as int);
        let t = spec_join(rest, sep);
        assert(s == p0 + seq![sep] + t);
        assert(forall|j: int| 0 <= j < p0.len() ==> #[trigger] s[j] == p0[j]);
        assert(s[p0.len() as int] == sep);
        lemma_first_sep_char(s, sep, p0.len() as int);
        assert(s.subrange(0, p0.len() as int) =~= p0);
        assert(s.subrange(p0.len() + 1 as int, s.len() as int) =~= t);
        assert(forall|k: int, j: int|
            0 <= k < rest.len() && 0 <= j < rest[k].len() ==> #[trigger] rest[k][j] != sep);
        lemma_split_join(rest, sep);
        assert(spec_split(s, sep) =~= seq![p0] + rest);
        assert(seq![p0] + rest =~= parts);
    }
}

/// Splits `s` at every `|`.
pub fn split_on_pipe(s: &str) -> (r: Vec<String>)
    ensures
        r@.map_values(|t: String| t@) == spec_split(s@, '|'),
    decreases s@.len(),
{
    let len = s.unicode_len();
    let mut i: usize = 0;
    while i < len && s.get_char(i) as u32 != 124
        invariant
            i <= len,
            len == s@.len(),
            forall|j: int| 0 <= j < i ==> s@[j] != '|',
        decreases len - i,
    {
        i = i + 1;
    }
    proof {
        assert(i < len ==> s@[i as int] == '|') by {
            if i < len {
                assert(s@[i as int] as u32 == 124);
            }
        }
        lemma_first_sep_char(s@, '|', i as int);
    }
    if i >= len {
        let mut r: Vec<String> = Vec::new();
        r.push(s.to_owned());
        proof {
            assert(r@.map_values(|t: String| t@) =~= spec_split(s@, '|'));
        }
        r
    } else {
        let head = s.substring_char(0, i);
        let tail = s.substring_char(i + 1, len);
        proof {
            assert(tail@ == s@.subrange(i + 1, len as int));
        }
        let mut r = split_on_pipe(tail);
        r.insert(0, head.to_owned());
        proof {
            assert(r@.map_values(|t: String| t@) =~= spec_split(s@, '|'));
        }
        r
    }
}

} // verus!
