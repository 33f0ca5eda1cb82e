//! Small verified text helpers shared across the crate: string equality,
//! decimal parsing for command payloads, and (case-insensitive) substring
//! search used by the market lookups.

use vstd::prelude::*;

verus! {

/// Relies on str's `PartialEq`: two string slices are equal exactly when
/// their character contents are equal.
#[verifier::external_body]
pub fn str_eq(a: &str, b: &str) -> (r: bool)
    ensures
        r == (a@ == b@),
{
    a == b
}

/// A decimal digit.
pub open spec fn is_dec_digit(c: char) -> bool {
    48 <= c as u32 <= 57
}

/// Every character of `s` is a decimal digit, and there is at least one.
pub open spec fn is_dec_string(s: Seq<char>) -> bool {
    s.len() > 0 && forall|i: int| 0 <= i < s.len() ==> is_dec_digit(#[trigger] s[i])
}

/// Numeric value of a digit string, most significant digit first.
pub open spec fn dec_value(s: Seq<char>) -> int
    decreases s.len(),
{
    if s.len() == 0 {
        0
    } else {
        dec_value(s.drop_last()) * 10 + (s.last() as u32 - 48)
    }
}

proof fn lemma_dec_value_nonneg(s: Seq<char>)
    requires
        forall|i: int| 0 <= i < s.len() ==> is_dec_digit(#[trigger] s[i]),
    ensures
        dec_value(s) >= 0,
    decreases s.len(),
{
    if s.len() > 0 {
        lemma_dec_value_nonneg(s.drop_last());
    }
}

proof fn lemma_dec_value_prefix(s: Seq<char>, i: int)
    requires
        forall|k: int| 0 <= k < s.len() ==> is_dec_digit(#[trigger] s[k]),
        0 <= i <= s.len(),
    ensures
        dec_value(s.take(i)) <= dec_value(s),
    decreases s.len() - i,
{
    if i < s.len() {
        lemma_dec_value_prefix(s, i + 1);
        assert(s.take(i + 1).drop_last() =~= s.take(i));
        lemma_dec_value_nonneg(s.take(i));
    } else {
        assert(s.take(i) =~= s);
    }
}

/// Parse an unsigned decimal number, as found in the payload of an `update`
/// command. Returns `None` on an empty string, a non-digit character, or a
/// value that does not fit in a `u64`.
pub fn parse_u64(s: &str) -> (r: Option<u64>)
    ensures
        r is Some <==> is_dec_string(s@) && dec_value(s@) <= u64::MAX,
        r matches Some(v) ==> v == dec_value(s@),
{
    let n: usize = s.unicode_len();
    if n == 0 {
        return None;
    }
    let mut acc: u64 = 0;
    let mut i: usize = 0;
    while i < n
        invariant
            0 <= i <= n,
            n == s@.len(),
            forall|k: int| 0 <= k < i ==> is_dec_digit(#[trigger] s@[k]),
            acc == dec_value(s@.take(i as int)),
        decreases n - i,
    {
        let c = s.get_char(i);
        let u = c as u32;
        if u < 48 || u > 57 {
            assert(!is_dec_digit(s@[i as int]));
            return None;
        }
        let d: u64 = (u - 48) as u64;
        proof {
            assert(s@.take(i + 1).drop_last() =~= s@.take(i as int));
            assert(s@.take(i + 1).last() == s@[i as int]);
        }
        if acc > (u64::MAX - d) / 10 {
            proof {
                if is_dec_string(s@) {
                    lemma_dec_value_prefix(s@, i + 1);
                }
            }
            return None;
        }
        acc = acc * 10 + d;
        i = i + 1;
    }
    proof {
        assert(s@.take(n as int) =~= s@);
    }
    Some(acc)
}

/// The value of a character with ASCII upper-case letters folded to lower
/// case; other characters keep their own code point.
pub open spec fn fold_lower(c: char) -> u32 {
    if 65 <= c as u32 <= 90 {
        (c as u32 + 32) as u32
    } else {
        c as u32
    }
}

/// `needle` occurs in `hay` starting at position `i`, comparing characters
/// case-insensitively on ASCII letters.
pub open spec fn matches_at_ci(hay: Seq<char>, needle: Seq<char>, i: int) -> bool {
    &&& 0 <= i
    &&& i + needle.len() <= hay.len()
    &&& forall|j: int|
        0 <= j < needle.len() ==> fold_lower(hay[i + j]) == fold_lower(#[trigger] needle[j])
}

/// `needle` occurs somewhere in `hay`, ASCII-case-insensitively.
pub open spec fn contains_ci(hay: Seq<char>, needle: Seq<char>) -> bool {
    exists|i: int| matches_at_ci(hay, needle, i)
}

/// `needle` occurs in `hay` starting at position `i`, exactly.
pub open spec fn matches_at(hay: Seq<char>, needle: Seq<char>, i: int) -> bool {
    &&& 0 <= i
    &&& i + needle.len() <= hay.len()
    &&& forall|j: int| 0 <= j < needle.len() ==> hay[i + j] == #[trigger] needle[j]
}

/// `needle` occurs somewhere in `hay`, exactly.
pub open spec fn contains_seq(hay: Seq<char>, needle: Seq<char>) -> bool {
    exists|i: int| matches_at(hay, needle, i)
}

/// Fold an ASCII upper-case letter to lower case, leaving everything else as
/// its own code point.
fn fold_lower_exec(c: char) -> (r: u32)
    ensures
        r == fold_lower(c),
{
    let u = c as u32;
    if 65 <= u && u <= 90 {
        u + 32
    } else {
        u
    }
}

/// Substring search, comparing ASCII letters case-insensitively.
pub fn str_contains_ci(hay: &str, needle: &str) -> (r: bool)
    ensures
        r == contains_ci(hay@, needle@),
{
    let hl: usize = hay.unicode_len();
    let nl: usize = needle.unicode_len();
    if nl > hl {
        assert(forall|i: int| !matches_at_ci(hay@, needle@, i));
        return false;
    }
    let mut i: usize = 0;
    while i <= hl - nl
        invariant
            0 <= i <= hl - nl + 1,
            nl <= hl,
            hl == hay@.len(),
            nl == needle@.len(),
            forall|i2: int| 0 <= i2 < i ==> !matches_at_ci(hay@, needle@, i2),
        decreases hl + 1 - nl - i,
    {
        let mut j: usize = 0;
        let mut mismatch = false;
        while j < nl && !mismatch
            invariant
                0 <= j <= nl,
                nl <= hl,
                i + nl <= hl,
                hl == hay@.len(),
                nl == needle@.len(),
                !mismatch ==> forall|k: int|
                    0 <= k < j ==> fold_lower(hay@[i + k]) == fold_lower(#[trigger] needle@[k]),
                mismatch ==> !matches_at_ci(hay@, needle@, i as int),
            decreases nl - j + (if mismatch { 0int } else { 1int }),
        {
            if fold_lower_exec(hay.get_char(i + j)) != fold_lower_exec(needle.get_char(j)) {
                mismatch = true;
            } else {
                j = j + 1;
            }
        }
        if !mismatch {
            assert(matches_at_ci(hay@, needle@, i as int));
            return true;
        }
        i = i + 1;
    }
    assert(forall|i2: int| matches_at_ci(hay@, needle@, i2) ==> 0 <= i2 <= hl - nl);
    return false;
}

/// Exact substring search.
pub fn str_contains(hay: &str, needle: &str) -> (r: bool)
    ensures
        r == contains_seq(hay@, needle@),
{
    let hl: usize = hay.unicode_len();
    let nl: usize = needle.unicode_len();
    if nl > hl {
        assert(forall|i: int| !matches_at(hay@, needle@, i));
        return false;
    }
    let mut i: usize = 0;
    while i <= hl - nl
        invariant
            0 <= i <= hl - nl + 1,
            nl <= hl,
            hl == hay@.len(),
            nl == needle@.len(),
            forall|i2: int| 0 <= i2 < i ==> !matches_at(hay@, needle@, i2),
        decreases hl + 1 - nl - i,
    {
        let mut j: usize = 0;
        let mut mismatch = false;
        while j < nl && !mismatch
            invariant
                0 <= j <= nl,
                nl <= hl,
                i + nl <= hl,
                hl == hay@.len(),
                nl == needle@.len(),
                !mismatch ==> forall|k: int| 0 <= k < j ==> hay@[i + k] == #[trigger] needle@[k],
                mismatch ==> !matches_at(hay@, needle@, i as int),
            decreases nl - j + (if mismatch { 0int } else { 1int }),
        {
            if hay.get_char(i + j) != needle.get_char(j) {
                mismatch = true;
            } else {
                j = j + 1;
            }
        }
        if !mismatch {
            assert(matches_at(hay@, needle@, i as int));
            return true;
        }
        i = i + 1;
    }
    assert(forall|i2: int| matches_at(hay@, needle@, i2) ==> 0 <= i2 <= hl - nl);
    return false;
}

} // verus!
