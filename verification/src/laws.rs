//! The laws relating the grammar, the parser's meaning, and the canonical
//! rendering, proved once for all inputs.

use crate::canon::{dec_digits, lemma_dec_digits, spec_canonical};
use crate::grammar::{
    all_digits, digits_val, is_digit, lemma_digit_run_at, png_bytes, precomposed_bytes,
    prefix_bytes, spec_parse, starts_with, tail_flag, DASH, DEFAULT_EDGE, LOWER_X,
};
use crate::icon::{IconRequest, ParseError};
use vstd::prelude::*;

verus! {

/// The ending of a matching path: the `-precomposed` marker when the flag
/// is set, then `.png`, then arbitrary trailing bytes.
pub open spec fn match_ending(pre: bool, rest: Seq<u8>) -> Seq<u8> {
    (if pre {
        precomposed_bytes()
    } else {
        Seq::<u8>::empty()
    }) + png_bytes() + rest
}

/// The ending is read off as the flag it encodes, whatever follows `.png`.
proof fn lemma_tail_flag_of_ending(pre: bool, rest: Seq<u8>)
    ensures
        tail_flag(match_ending(pre, rest)) == Some(pre),
{
    let v = match_ending(pre, rest);
    if pre {
        assert(starts_with(v, precomposed_bytes() + png_bytes()));
    } else {
        assert(v[0] == 46);
        assert((precomposed_bytes() + png_bytes())[0] == 45);
        assert(!starts_with(v, precomposed_bytes() + png_bytes()));
        assert(starts_with(v, png_bytes()));
    }
}

/// A path without a size group parses to the default dimensions.
///
/// For every trailing byte sequence `rest` and either state of the
/// `-precomposed` marker, the path `apple-touch-icon` + ending parses
/// successfully, with width and height both `DEFAULT_EDGE` and the
/// `precomposed` flag read off the marker.
pub proof fn lemma_parse_default(pre: bool, rest: Seq<u8>)
    ensures
        spec_parse(prefix_bytes() + match_ending(pre, rest)) == Ok::<IconRequest, ParseError>(
            IconRequest { width: DEFAULT_EDGE, height: DEFAULT_EDGE, precomposed: pre },
        ),
{
    let s = prefix_bytes() + match_ending(pre, rest);
    assert(starts_with(s, prefix_bytes()));
    let t = s.skip(prefix_bytes().len() as int);
    assert(t =~= match_ending(pre, rest));
    lemma_tail_flag_of_ending(pre, rest);
    if pre {
        assert(t[1] == 112);
        assert(!is_digit(t[1]));
    } else {
        assert(t[0] == 46);
        assert(t[0] != DASH);
    }
}

/// A path with a size group parses to exactly the digits it carries.
///
/// For all non-empty digit runs `w` and `h`, either state of the
/// `-precomposed` marker and every trailing byte sequence `rest`, the path
/// `apple-touch-icon-` + `w` + `x` + `h` + ending parses to the values the
/// two runs denote, or to the overflow error when a run denotes a value
/// above `u32::MAX`.
#[verifier::rlimit(60)]
pub proof fn lemma_parse_sized(w: Seq<u8>, h: Seq<u8>, pre: bool, rest: Seq<u8>)
    requires
        w.len() > 0,
        all_digits(w),
        h.len() > 0,
        all_digits(h),
    ensures
        spec_parse(prefix_bytes() + seq![DASH] + w + seq![LOWER_X] + h + match_ending(pre, rest))
            == (if digits_val(w) > u32::MAX || digits_val(h) > u32::MAX {
            Err::<IconRequest, ParseError>(ParseError::IntegerOverflow)
        } else {
            Ok::<IconRequest, ParseError>(
                IconRequest {
                    width: digits_val(w) as u32,
                    height: digits_val(h) as u32,
                    precomposed: pre,
                },
            )
        }),
{
    let ending = match_ending(pre, rest);
    let s = prefix_bytes() + seq![DASH] + w + seq![LOWER_X] + h + ending;
    assert(starts_with(s, prefix_bytes()));
    let t = s.skip(prefix_bytes().len() as int);
    assert(t =~= seq![DASH] + w + seq![LOWER_X] + h + ending);
    assert(t[0] == DASH);
    assert(t[1] == w[0]);
    let t1 = t.skip(1);
    assert(t1 =~= w + (seq![LOWER_X] + h + ending));
    assert forall|i: int| 0 <= i < w.len() implies is_digit(#[trigger] t1[i]) by {
        assert(t1[i] == w[i]);
    }
    assert(t1[w.len() as int] == LOWER_X);
    lemma_digit_run_at(t1, w.len() as int);
    assert(t1.take(w.len() as int) =~= w);
    let u = t.skip(1 + w.len() as int);
    assert(u =~= seq![LOWER_X] + h + ending);
    assert(u[0] == LOWER_X);
    assert(u[1] == h[0]);
    let u1 = u.skip(1);
    assert(u1 =~= h + ending);
    assert forall|i: int| 0 <= i < h.len() implies is_digit(#[trigger] u1[i]) by {
        assert(u1[i] == h[i]);
    }
    assert(u1[h.len() as int] == ending[0]);
    if pre {
        assert(ending[0] == 45);
    } else {
        assert(ending[0] == 46);
    }
    lemma_digit_run_at(u1, h.len() as int);
    assert(u1.take(h.len() as int) =~= h);
    let v = u.skip(1 + h.len() as int);
    assert(v =~= ending);
    lemma_tail_flag_of_ending(pre, rest);
}

/// Round trip: a request rendered as its canonical path parses back to the
/// identical request, so parsing after rendering is idempotent.
pub proof fn lemma_canonical_round_trip(icon: IconRequest)
    ensures
        spec_parse(spec_canonical(icon)) == Ok::<IconRequest, ParseError>(icon),
{
    let w = dec_digits(icon.width as nat);
    let h = dec_digits(icon.height as nat);
    lemma_dec_digits(icon.width as nat);
    lemma_dec_digits(icon.height as nat);
    lemma_parse_sized(w, h, icon.precomposed, Seq::<u8>::empty());
    assert(spec_canonical(icon) =~= prefix_bytes() + seq![DASH] + w + seq![LOWER_X] + h
        + match_ending(icon.precomposed, Seq::<u8>::empty()));
}

} // verus!
