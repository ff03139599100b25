//! Rendering of one attribute value as a ten-segment bar followed by the
//! value in parentheses: one filled block per full ten points, light
//! blocks for the rest.

use vstd::prelude::*;

use crate::pet::Pet;
use crate::storage::{attr_chars, attr_digits, string_from_chars};

verus! {

/// n copies of one character.
pub open spec fn repeat_char(c: char, n: int) -> Seq<char>
    decreases n,
{
    if n <= 0 {
        Seq::empty()
    } else {
        repeat_char(c, n - 1).push(c)
    }
}

/// The bar text of an attribute value: value / 10 filled blocks, light
/// blocks up to ten, a space, and the value in parentheses.
pub open spec fn stat_chars(value: int) -> Seq<char> {
    repeat_char('\u{2588}', value / 10) + repeat_char('\u{2591}', 10 - value / 10) + seq![
        ' ',
        '(',
    ] + attr_digits(value) + seq![')']
}

impl Pet {
    /// Render one attribute value as its bar text.
    pub fn display_stat(&self, value: i32) -> (r: String)
        requires
            0 <= value <= 100,
        ensures
            r@ == stat_chars(value as int),
    {
        let bars: i32 = value / 10;
        let gaps: i32 = 10 - bars;
        let mut out: Vec<char> = Vec::new();
        let mut k: i32 = 0;
        while k < bars
            invariant
                0 <= k <= bars,
                bars == value as int / 10,
                out@ == repeat_char('\u{2588}', k as int),
            decreases bars - k,
        {
            out.push('\u{2588}');
            k = k + 1;
        }
        let ghost full = repeat_char('\u{2588}', bars as int);
        let mut g: i32 = 0;
        while g < gaps
            invariant
                0 <= g <= gaps,
                bars == value as int / 10,
                gaps == 10 - bars,
                full == repeat_char('\u{2588}', bars as int),
                out@ == full + repeat_char('\u{2591}', g as int),
            decreases gaps - g,
        {
            out.push('\u{2591}');
            proof {
                assert(full + repeat_char('\u{2591}', g as int + 1) =~= (full + repeat_char(
                    '\u{2591}',
                    g as int,
                )).push('\u{2591}'));
            }
            g = g + 1;
        }
        out.push(' ');
        out.push('(');
        let ghost mid = out@;
        let digits = attr_chars(value);
        let mut t: usize = 0;
        while t < digits.len()
            invariant
                t <= digits.len(),
                digits@ == attr_digits(value as int),
                mid == full + repeat_char('\u{2591}', (10 - value as int / 10)) + seq![' ', '('],
                full == repeat_char('\u{2588}', value as int / 10),
                out@ == mid + digits@.take(t as int),
            decreases digits.len() - t,
        {
            out.push(digits[t]);
            proof {
                assert(mid + digits@.take(t as int + 1) =~= (mid + digits@.take(t as int)).push(
                    digits@[t as int],
                ));
            }
            t = t + 1;
        }
        out.push(')');
        proof {
            assert(digits@.take(digits@.len() as int) =~= digits@);
            assert(out@ =~= stat_chars(value as int));
        }
        string_from_chars(&out)
    }
}

} // verus!
