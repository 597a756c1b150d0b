//! Pixel emission: quantize a finished color into 8-bit channel values
//! and append its text line to the image buffer.
//!
//! The channel is clamped just under one so the scaled value never reaches
//! 256, then scaled and truncated; the decimal rendering of each channel
//! is built digit by digit and stated exactly.

use crate::color::Color;
use crate::fixed::{lemma_tdiv_nonneg, tdiv, SCALE};
use crate::interval::Interval;
use vstd::arithmetic::div_mod::{lemma_div_is_ordered, lemma_div_pos_is_pos, lemma_mod_bound};
use vstd::prelude::*;

verus! {

/// The 8-bit value of one color channel: the channel clamped into
/// `[0, SCALE - 1]`, scaled by 256 and truncated.
pub open spec fn quantize_spec(ch: int) -> int {
    tdiv(256 * (Interval { min: 0, max: (SCALE - 1) as i64 }).clamp_spec(ch), SCALE as int)
}

/// The character of one decimal digit.
pub open spec fn digit_char(d: int) -> char {
    if d == 0 {
        '0'
    } else if d == 1 {
        '1'
    } else if d == 2 {
        '2'
    } else if d == 3 {
        '3'
    } else if d == 4 {
        '4'
    } else if d == 5 {
        '5'
    } else if d == 6 {
        '6'
    } else if d == 7 {
        '7'
    } else if d == 8 {
        '8'
    } else {
        '9'
    }
}

/// The decimal rendering of `0 <= n <= 255`, without leading zeros.
pub open spec fn dec_spec(n: int) -> Seq<char> {
    if n < 10 {
        seq![digit_char(n)]
    } else if n < 100 {
        seq![digit_char(n / 10)] + seq![digit_char(n % 10)]
    } else {
        seq![digit_char(n / 100)] + seq![digit_char((n / 10) % 10)] + seq![digit_char(n % 10)]
    }
}

/// The text line one pixel contributes: the three quantized channels
/// separated by spaces, closed by a newline.
pub open spec fn pixel_line_spec(color: Color) -> Seq<char> {
    dec_spec(quantize_spec(color.red as int)) + seq![' '] + dec_spec(
        quantize_spec(color.green as int),
    ) + seq![' '] + dec_spec(quantize_spec(color.blue as int)) + seq!['\n']
}

fn digit_str(d: i64) -> (r: &'static str)
    requires
        0 <= d <= 9,
    ensures
        r@ == seq![digit_char(d as int)],
{
    proof {
        reveal_strlit("0");
        reveal_strlit("1");
        reveal_strlit("2");
        reveal_strlit("3");
        reveal_strlit("4");
        reveal_strlit("5");
        reveal_strlit("6");
        reveal_strlit("7");
        reveal_strlit("8");
        reveal_strlit("9");
    }
    let r = match d {
        0 => "0",
        1 => "1",
        2 => "2",
        3 => "3",
        4 => "4",
        5 => "5",
        6 => "6",
        7 => "7",
        8 => "8",
        _ => "9",
    };
    proof {
        assert(r@ =~= seq![digit_char(d as int)]);
    }
    r
}

fn dec_string(n: i64) -> (r: String)
    requires
        0 <= n <= 255,
    ensures
        r@ == dec_spec(n as int),
{
    proof {
        lemma_div_pos_is_pos(n as int, 10);
        lemma_div_pos_is_pos(n as int, 100);
        lemma_div_is_ordered(n as int, 255, 10);
        lemma_div_is_ordered(n as int, 255, 100);
        lemma_mod_bound(n as int, 10);
        lemma_mod_bound((n as int) / 10, 10);
    }
    if n < 10 {
        String::from_str(digit_str(n))
    } else if n < 100 {
        let mut s = String::from_str(digit_str(n / 10));
        s.append(digit_str(n % 10));
        proof {
            assert(s@ =~= dec_spec(n as int));
        }
        s
    } else {
        proof {
            lemma_mod_bound(n as int, 100);
        }
        let mut s = String::from_str(digit_str(n / 100));
        s.append(digit_str((n / 10) % 10));
        s.append(digit_str(n % 10));
        proof {
            assert(s@ =~= dec_spec(n as int));
        }
        s
    }
}

/// Append one pixel's text line to the image buffer: the three channels
/// clamped, quantized to `0..=255` and rendered in decimal.
pub fn render_pixel(image_buffer: &mut Vec<String>, color: Color)
    ensures
        final(image_buffer)@.len() == old(image_buffer)@.len() + 1,
        forall|k: int|
            0 <= k < old(image_buffer)@.len() ==> final(image_buffer)@[k] == old(
                image_buffer,
            )@[k],
        final(image_buffer)@[old(image_buffer)@.len() as int]@ == pixel_line_spec(color),
{
    let intensity = Interval::new(0, SCALE - 1);
    let r = quantize(intensity.clamp(color.red));
    let g = quantize(intensity.clamp(color.green));
    let b = quantize(intensity.clamp(color.blue));
    let mut line = dec_string(r);
    line.append(" ");
    let gs = dec_string(g);
    line.append(gs.as_str());
    line.append(" ");
    let bs = dec_string(b);
    line.append(bs.as_str());
    line.append("\n");
    proof {
        reveal_strlit(" ");
        reveal_strlit("\n");
        assert(line@ =~= pixel_line_spec(color));
    }
    image_buffer.push(line);
}

/// Scale a clamped channel value to its 8-bit range.
fn quantize(clamped: i64) -> (q: i64)
    requires
        0 <= clamped <= SCALE - 1,
    ensures
        q == tdiv(256 * clamped, SCALE as int),
        0 <= q <= 255,
{
    proof {
        lemma_tdiv_nonneg(256 * clamped as int, SCALE as int);
        lemma_div_is_ordered(256 * clamped as int, 256 * (SCALE as int - 1), SCALE as int);
        assert((256 * ((SCALE as int) - 1)) / (SCALE as int) == 255) by (nonlinear_arith);
    }
    (256 * clamped) / SCALE
}

} // verus!
