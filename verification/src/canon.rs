//! Rendering a request back into the canonical path form.

use crate::grammar::{
    all_digits, digits_val, is_digit, lemma_digits_val_push, png_bytes, precomposed_bytes,
    prefix_bytes, DASH, DIGIT_ZERO, LOWER_X,
};
use crate::icon::IconRequest;
use crate::parser::{png_vec, precomposed_png_vec, prefix_vec};
use vstd::arithmetic::div_mod::{lemma_fundamental_div_mod, lemma_small_mod};
use vstd::prelude::*;

verus! {

/// The decimal digits of `n`, most significant first; zero is a single `0`.
pub open spec fn dec_digits(n: nat) -> Seq<u8>
    decreases n,
{
    if n < 10 {
        seq![(DIGIT_ZERO + n) as u8]
    } else {
        dec_digits(n / 10).push((DIGIT_ZERO + n % 10) as u8)
    }
}

/// The decimal rendering of `n` is a non-empty digit run denoting `n`.
pub proof fn lemma_dec_digits(n: nat)
    ensures
        dec_digits(n).len() >= 1,
        all_digits(dec_digits(n)),
        digits_val(dec_digits(n)) == n,
    decreases n,
{
    if n < 10 {
        let s = dec_digits(n);
        assert(s.len() == 1);
        assert(s.last() == (DIGIT_ZERO + n) as u8);
        assert(s.drop_last() =~= Seq::<u8>::empty());
        assert(digits_val(s.drop_last()) == 0);
        assert(digits_val(s) == ((DIGIT_ZERO + n) as u8 - DIGIT_ZERO) as nat);
        assert(all_digits(s));
    } else {
        lemma_dec_digits(n / 10);
        lemma_fundamental_div_mod(n as int, 10);
        let p = dec_digits(n / 10);
        let d = (DIGIT_ZERO + n % 10) as u8;
        lemma_digits_val_push(p, d);
        assert forall|i: int| 0 <= i < dec_digits(n).len() implies is_digit(
            #[trigger] dec_digits(n)[i],
        ) by {
            if i < p.len() {
                assert(dec_digits(n)[i] == p[i]);
            }
        }
    }
}

/// Appends the decimal digits of `n` to `out`.
fn push_decimal(out: &mut Vec<u8>, n: u32)
    ensures
        final(out)@ == old(out)@ + dec_digits(n as nat),
    decreases n,
{
    if n >= 10 {
        push_decimal(out, n / 10);
    }
    out.push(DIGIT_ZERO + (n % 10) as u8);
    proof {
        if n < 10 {
            lemma_small_mod(n as nat, 10);
        }
        assert(out@ =~= old(out)@ + dec_digits(n as nat));
    }
}

/// The canonical path for a request: `apple-touch-icon-<W>x<H>.png`, with
/// the `-precomposed` marker kept in front of `.png` when the flag is set.
pub open spec fn spec_canonical(icon: IconRequest) -> Seq<u8> {
    prefix_bytes() + seq![DASH] + dec_digits(icon.width as nat) + seq![LOWER_X] + dec_digits(
        icon.height as nat,
    ) + (if icon.precomposed {
        precomposed_bytes()
    } else {
        Seq::<u8>::empty()
    }) + png_bytes()
}

impl IconRequest {
    /// Renders the request as the canonical path its dimensions come from.
    pub fn canonical_path(&self) -> (r: Vec<u8>)
        ensures
            r@ == spec_canonical(*self),
    {
        let mut out = prefix_vec();
        out.push(DASH);
        push_decimal(&mut out, self.width);
        out.push(LOWER_X);
        push_decimal(&mut out, self.height);
        let mut ending = if self.precomposed {
            precomposed_png_vec()
        } else {
            png_vec()
        };
        out.append(&mut ending);
        proof {
            assert(out@ =~= spec_canonical(*self));
        }
        out
    }
}

} // verus!
