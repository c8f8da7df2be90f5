//! The path grammar, stated as spec functions over byte sequences.
//!
//! A request path matches when it begins with the literal `apple-touch-icon`,
//! followed by an optional size group `-<W>x<H>` (two non-empty decimal digit
//! runs), an optional `-precomposed` marker, and the literal `.png`; any
//! bytes may follow. The grammar is greedy and unambiguous: each digit run
//! extends as far as the digits do, and the byte after the prefix decides
//! whether a size group is present.

use crate::icon::{IconRequest, ParseError};
use vstd::prelude::*;

verus! {

/// The edge length served when the path carries no size group.
pub const DEFAULT_EDGE: u32 = 60;

/// ASCII `0`.
pub const DIGIT_ZERO: u8 = 48;

/// ASCII `9`.
pub const DIGIT_NINE: u8 = 57;

/// ASCII `-`.
pub const DASH: u8 = 45;

/// ASCII `x`.
pub const LOWER_X: u8 = 120;

/// ASCII decimal digit.
pub open spec fn is_digit(b: u8) -> bool {
    DIGIT_ZERO <= b && b <= DIGIT_NINE
}

/// Every byte of `s` is a decimal digit.
pub open spec fn all_digits(s: Seq<u8>) -> bool {
    forall|i: int| 0 <= i < s.len() ==> is_digit(#[trigger] s[i])
}

/// Length of the longest run of digits at the front of `s`.
pub open spec fn digit_run(s: Seq<u8>) -> nat
    decreases s.len(),
{
    if s.len() > 0 && is_digit(s[0]) {
        (1 + digit_run(s.skip(1))) as nat
    } else {
        0
    }
}

/// The base-10 value denoted by a digit run, most significant digit first.
pub open spec fn digits_val(s: Seq<u8>) -> nat
    decreases s.len(),
{
    if s.len() == 0 {
        0
    } else {
        (digits_val(s.drop_last()) * 10 + (s.last() - DIGIT_ZERO)) as nat
    }
}

/// `p` is a prefix of `s`.
pub open spec fn starts_with(s: Seq<u8>, p: Seq<u8>) -> bool {
    p.len() <= s.len() && forall|i: int| 0 <= i < p.len() ==> s[i] == #[trigger] p[i]
}

/// The bytes of `apple-touch-icon`.
pub open spec fn prefix_bytes() -> Seq<u8> {
    seq![97u8, 112, 112, 108, 101, 45, 116, 111, 117, 99, 104, 45, 105, 99, 111, 110]
}

/// The bytes of `-precomposed`.
pub open spec fn precomposed_bytes() -> Seq<u8> {
    seq![45u8, 112, 114, 101, 99, 111, 109, 112, 111, 115, 101, 100]
}

/// The bytes of `.png`.
pub open spec fn png_bytes() -> Seq<u8> {
    seq![46u8, 112, 110, 103]
}

/// How a match may end after the dimensions: the `-precomposed` marker
/// followed by `.png` (flag true), or `.png` alone (flag false); in either
/// case any bytes may follow. `None` when neither ending is present.
pub open spec fn tail_flag(v: Seq<u8>) -> Option<bool> {
    if starts_with(v, precomposed_bytes() + png_bytes()) {
        Some(true)
    } else if starts_with(v, png_bytes()) {
        Some(false)
    } else {
        None
    }
}

/// Combines the dimension values with the match ending: a missing ending is
/// no match at all, and a digit run denoting more than `u32::MAX` cannot be
/// represented.
pub open spec fn finish_match(wv: nat, hv: nat, v: Seq<u8>) -> Result<IconRequest, ParseError> {
    match tail_flag(v) {
        None => Err(ParseError::NoMatch),
        Some(pre) => if wv > u32::MAX || hv > u32::MAX {
            Err(ParseError::IntegerOverflow)
        } else {
            Ok(IconRequest { width: wv as u32, height: hv as u32, precomposed: pre })
        },
    }
}

/// The meaning of a request path: the result parsing must produce.
///
/// After the literal prefix, a `-` followed by a digit opens the size group;
/// both digit runs are maximal, and `x` separates them. Without a size group
/// both dimensions default to `DEFAULT_EDGE`. The byte that opens a size
/// group can open neither match ending, so the case split is exact.
pub open spec fn spec_parse(s: Seq<u8>) -> Result<IconRequest, ParseError> {
    if !starts_with(s, prefix_bytes()) {
        Err(ParseError::NoMatch)
    } else {
        let t = s.skip(prefix_bytes().len() as int);
        if t.len() >= 2 && t[0] == DASH && is_digit(t[1]) {
            let w = t.skip(1).take(digit_run(t.skip(1)) as int);
            let u = t.skip(1 + digit_run(t.skip(1)) as int);
            if u.len() >= 2 && u[0] == LOWER_X && is_digit(u[1]) {
                let h = u.skip(1).take(digit_run(u.skip(1)) as int);
                let v = u.skip(1 + digit_run(u.skip(1)) as int);
                finish_match(digits_val(w), digits_val(h), v)
            } else {
                Err(ParseError::NoMatch)
            }
        } else {
            finish_match(DEFAULT_EDGE as nat, DEFAULT_EDGE as nat, t)
        }
    }
}

/// A digit run never reaches past the end of the sequence.
pub proof fn lemma_digit_run_le(s: Seq<u8>)
    ensures
        digit_run(s) <= s.len(),
    decreases s.len(),
{
    if s.len() > 0 && is_digit(s[0]) {
        lemma_digit_run_le(s.skip(1));
    }
}

/// A run of `k` digits stopped by the end or by a non-digit is the longest:
/// `digit_run` is exactly `k`.
pub proof fn lemma_digit_run_at(s: Seq<u8>, k: int)
    requires
        0 <= k <= s.len(),
        forall|i: int| 0 <= i < k ==> is_digit(#[trigger] s[i]),
        k == s.len() || !is_digit(s[k]),
    ensures
        digit_run(s) == k,
    decreases k,
{
    if k == 0 {
    } else {
        assert(is_digit(s[0]));
        let r = s.skip(1);
        assert forall|i: int| 0 <= i < k - 1 implies is_digit(#[trigger] r[i]) by {
            assert(r[i] == s[i + 1]);
        }
        if k - 1 < r.len() {
            assert(r[k - 1] == s[k]);
        }
        lemma_digit_run_at(r, k - 1);
    }
}

/// Appending one digit multiplies the denoted value by ten and adds it.
pub proof fn lemma_digits_val_push(s: Seq<u8>, b: u8)
    requires
        is_digit(b),
    ensures
        digits_val(s.push(b)) == digits_val(s) * 10 + (b - DIGIT_ZERO),
{
    let p = s.push(b);
    assert(p.drop_last() =~= s);
    assert(p.last() == b);
}

} // verus!
