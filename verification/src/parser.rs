//! The executable path parser, proved to agree with the grammar.

use crate::grammar::{
    all_digits, digit_run, digits_val, is_digit, lemma_digit_run_at,
    lemma_digit_run_le, lemma_digits_val_push, png_bytes, precomposed_bytes, prefix_bytes,
    spec_parse, starts_with, tail_flag, DASH, DEFAULT_EDGE, DIGIT_NINE, DIGIT_ZERO, LOWER_X,
};
use crate::icon::{IconRequest, ParseError};
use vstd::prelude::*;

verus! {

fn byte_is_digit(b: u8) -> (r: bool)
    ensures
        r == is_digit(b),
{
    DIGIT_ZERO <= b && b <= DIGIT_NINE
}

/// The bytes of `apple-touch-icon`, as a runtime value.
pub(crate) fn prefix_vec() -> (v: Vec<u8>)
    ensures
        v@ == prefix_bytes(),
{
    let mut v: Vec<u8> = Vec::new();
    v.push(97);
    v.push(112);
    v.push(112);
    v.push(108);
    v.push(101);
    v.push(45);
    v.push(116);
    v.push(111);
    v.push(117);
    v.push(99);
    v.push(104);
    v.push(45);
    v.push(105);
    v.push(99);
    v.push(111);
    v.push(110);
    proof {
        assert(v@ =~= prefix_bytes());
    }
    v
}

/// The bytes of `-precomposed.png`, as a runtime value.
pub(crate) fn precomposed_png_vec() -> (v: Vec<u8>)
    ensures
        v@ == precomposed_bytes() + png_bytes(),
{
    let mut v: Vec<u8> = Vec::new();
    v.push(45);
    v.push(112);
    v.push(114);
    v.push(101);
    v.push(99);
    v.push(111);
    v.push(109);
    v.push(112);
    v.push(111);
    v.push(115);
    v.push(101);
    v.push(100);
    v.push(46);
    v.push(112);
    v.push(110);
    v.push(103);
    proof {
        assert(v@ =~= precomposed_bytes() + png_bytes());
    }
    v
}

/// The bytes of `.png`, as a runtime value.
pub(crate) fn png_vec() -> (v: Vec<u8>)
    ensures
        v@ == png_bytes(),
{
    let mut v: Vec<u8> = Vec::new();
    v.push(46);
    v.push(112);
    v.push(110);
    v.push(103);
    proof {
        assert(v@ =~= png_bytes());
    }
    v
}

/// Does `pat` occur in `s` at offset `off`?
fn match_at(s: &[u8], off: usize, pat: &Vec<u8>) -> (b: bool)
    requires
        off <= s@.len(),
    ensures
        b == starts_with(s@.skip(off as int), pat@),
{
    let ghost suf = s@.skip(off as int);
    if s.len() - off < pat.len() {
        return false;
    }
    let mut k: usize = 0;
    while k < pat.len()
        invariant
            off + pat.len() <= s@.len(),
            s@.len() <= usize::MAX,
            k <= pat.len(),
            suf == s@.skip(off as int),
            forall|i: int| 0 <= i < k ==> suf[i] == #[trigger] pat@[i],
        decreases pat.len() - k,
    {
        if s[off + k] != pat[k] {
            proof {
                assert(suf[k as int] == s@[off + k]);
            }
            return false;
        }
        proof {
            assert(suf[k as int] == s@[off + k]);
        }
        k += 1;
    }
    true
}

/// Scans the digit run starting at `start` and accumulates its value.
///
/// Returns the index just past the run, the value when it fits in `u32`,
/// and whether it overflowed instead.
fn scan_number(s: &[u8], start: usize) -> (res: (usize, u32, bool))
    requires
        start <= s@.len(),
    ensures
        ({
            let run = digit_run(s@.skip(start as int));
            let ds = s@.subrange(start as int, start as int + run);
            &&& res.0 == start + run
            &&& (res.2 <==> digits_val(ds) > u32::MAX)
            &&& (!res.2 ==> res.1 == digits_val(ds))
        }),
{
    let mut end: usize = start;
    let mut acc: u32 = 0;
    let mut over: bool = false;
    while end < s.len() && DIGIT_ZERO <= s[end] && s[end] <= DIGIT_NINE
        invariant
            start <= end <= s@.len(),
            all_digits(s@.subrange(start as int, end as int)),
            over <==> digits_val(s@.subrange(start as int, end as int)) > u32::MAX,
            !over ==> acc == digits_val(s@.subrange(start as int, end as int)),
        decreases s@.len() - end,
    {
        let d = s[end] - DIGIT_ZERO;
        proof {
            let ds = s@.subrange(start as int, end as int);
            assert(s@.subrange(start as int, end as int + 1) =~= ds.push(s@[end as int]));
            lemma_digits_val_push(ds, s@[end as int]);
        }
        if !over {
            let wide: u64 = acc as u64 * 10 + d as u64;
            if wide > u32::MAX as u64 {
                over = true;
            } else {
                acc = wide as u32;
            }
        } else {
            proof {
                let ds = s@.subrange(start as int, end as int);
                assert(digits_val(ds.push(s@[end as int])) >= digits_val(ds));
            }
        }
        end += 1;
    }
    proof {
        let suf = s@.skip(start as int);
        let k = end - start;
        assert forall|i: int| 0 <= i < k implies is_digit(#[trigger] suf[i]) by {
            assert(suf[i] == s@[start + i]);
            assert(s@.subrange(start as int, end as int)[i] == s@[start + i]);
        }
        if k < suf.len() {
            assert(suf[k as int] == s@[end as int]);
        }
        lemma_digit_run_at(suf, k as int);
        assert(s@.subrange(start as int, end as int) =~= s@.subrange(
            start as int,
            start as int + digit_run(suf),
        ));
    }
    (end, acc, over)
}

/// The match-ending check at offset `off`: `-precomposed.png`, `.png`, or
/// no match ending at all.
fn tail_at(s: &[u8], off: usize) -> (f: Option<bool>)
    requires
        off <= s@.len(),
    ensures
        f == tail_flag(s@.skip(off as int)),
{
    let pp = precomposed_png_vec();
    if match_at(s, off, &pp) {
        return Some(true);
    }
    let pg = png_vec();
    if match_at(s, off, &pg) {
        return Some(false);
    }
    None
}

/// Parses a request path into the dimensions it asks for.
///
/// The result is exactly what the grammar assigns to the path: `Ok` with
/// both dimensions and the `precomposed` flag when the path matches,
/// `NoMatch` when it does not, and `IntegerOverflow` when a matched digit
/// group denotes a value above `u32::MAX`. Never panics: any byte string
/// is an acceptable input.
pub fn parse_icon_path(path: &[u8]) -> (r: Result<IconRequest, ParseError>)
    ensures
        r == spec_parse(path@),
{
    proof {
        assert(path@.skip(0) =~= path@);
    }
    let pre = prefix_vec();
    if !match_at(path, 0, &pre) {
        return Err(ParseError::NoMatch);
    }
    let n = path.len();
    let ghost t = path@.skip(16);
    proof {
        assert(prefix_bytes().len() == 16);
    }
    if n >= 18 && path[16] == DASH && byte_is_digit(path[17]) {
        proof {
            assert(t[0] == path@[16]);
            assert(t[1] == path@[17]);
            assert(t.skip(1) =~= path@.skip(17));
            lemma_digit_run_le(path@.skip(17));
        }
        let (wend, wv, wover) = scan_number(path, 17);
        let ghost run_w = digit_run(path@.skip(17));
        let ghost w = t.skip(1).take(run_w as int);
        let ghost u = t.skip(1 + run_w as int);
        proof {
            assert(w =~= path@.subrange(17, wend as int));
            assert(u =~= path@.skip(wend as int));
        }
        if wend < n && path[wend] == LOWER_X && wend + 1 < n && byte_is_digit(path[wend + 1]) {
            proof {
                assert(u[0] == path@[wend as int]);
                assert(u[1] == path@[wend + 1]);
                assert(u.skip(1) =~= path@.skip(wend + 1));
                lemma_digit_run_le(path@.skip(wend + 1));
            }
            let (hend, hv, hover) = scan_number(path, wend + 1);
            let ghost run_h = digit_run(path@.skip(wend + 1));
            let ghost h = u.skip(1).take(run_h as int);
            let ghost v = u.skip(1 + run_h as int);
            proof {
                assert(h =~= path@.subrange(wend + 1, hend as int));
                assert(v =~= path@.skip(hend as int));
            }
            match tail_at(path, hend) {
                None => Err(ParseError::NoMatch),
                Some(precomposed) => {
                    if wover || hover {
                        Err(ParseError::IntegerOverflow)
                    } else {
                        Ok(IconRequest { width: wv, height: hv, precomposed })
                    }
                },
            }
        } else {
            Err(ParseError::NoMatch)
        }
    } else {
        proof {
            if t.len() >= 2 {
                assert(t[0] == path@[16]);
                assert(t[1] == path@[17]);
            }
        }
        match tail_at(path, 16) {
            None => Err(ParseError::NoMatch),
            Some(precomposed) => Ok(
                IconRequest { width: DEFAULT_EDGE, height: DEFAULT_EDGE, precomposed },
            ),
        }
    }
}

} // verus!
