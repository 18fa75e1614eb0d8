use vstd::prelude::*;
use crate::fx::{FRAC, FX_LIM, fsqrt, fsqrt_s, clamp, clamp_s};
use crate::vec3::Color;

verus! {

/// Relies on String::push: appends exactly the given character.
pub assume_specification[ String::push ](s: &mut String, ch: char)
    ensures
        final(s)@ == old(s)@.push(ch),
;

/// The character for one decimal digit.
pub open spec fn digit_char_s(d: int) -> char {
    if d == 0 {
        '0'
    } else if d == 1 {
        '1'
    } else if d == 2 {
        '2'
    } else if d == 3 {
        '3'
    } else if d == 4 {
        '4'
    } else if d == 5 {
        '5'
    } else if d == 6 {
        '6'
    } else if d == 7 {
        '7'
    } else if d == 8 {
        '8'
    } else {
        '9'
    }
}

/// The decimal digit string of a value below 1000, without leading
/// zeros.
pub open spec fn decimal_s(n: int) -> Seq<char> {
    if n < 10 {
        seq![digit_char_s(n)]
    } else if n < 100 {
        seq![digit_char_s(n / 10), digit_char_s(n % 10)]
    } else {
        seq![digit_char_s(n / 100), digit_char_s((n / 10) % 10), digit_char_s(n % 10)]
    }
}

fn digit_to_char(d: u8) -> (c: char)
    requires
        d < 10,
    ensures
        c == digit_char_s(d as int),
{
    if d == 0 {
        '0'
    } else if d == 1 {
        '1'
    } else if d == 2 {
        '2'
    } else if d == 3 {
        '3'
    } else if d == 4 {
        '4'
    } else if d == 5 {
        '5'
    } else if d == 6 {
        '6'
    } else if d == 7 {
        '7'
    } else if d == 8 {
        '8'
    } else {
        '9'
    }
}

/// Appends the decimal digits of a byte value.
fn push_decimal(out: &mut String, n: u8)
    ensures
        final(out)@ == old(out)@ + decimal_s(n as int),
{
    if n < 10 {
        out.push(digit_to_char(n));
    } else if n < 100 {
        out.push(digit_to_char(n / 10));
        out.push(digit_to_char(n % 10));
    } else {
        out.push(digit_to_char(n / 100));
        out.push(digit_to_char((n / 10) % 10));
        out.push(digit_to_char(n % 10));
    }
    proof {
        assert(final(out)@ =~= old(out)@ + decimal_s(n as int));
    }
}

/// One output channel: the accumulated sum averaged over the sample
/// count, gamma-corrected by a square root, clamped to just below one,
/// and mapped to an integer in `0..=255`.
pub open spec fn channel_byte_s(sum: int, n: int) -> int {
    let c = sum / n;
    let g = fsqrt_s(c);
    let cl = clamp_s(g, 0, FRAC - 1);
    (cl * 255999) / 65536000
}

/// Computes one output channel in fixed point.
fn channel_byte(sum: i64, samples_per_pixel: i64) -> (r: u8)
    requires
        0 <= sum <= FX_LIM,
        1 <= samples_per_pixel <= 100000,
    ensures
        r as int == channel_byte_s(sum as int, samples_per_pixel as int),
{
    proof {
        crate::fx::lemma_div_range(sum as int, samples_per_pixel as int);
    }
    let c: i64 = sum / samples_per_pixel;
    let g = fsqrt(c);
    let cl = clamp(g, 0, FRAC - 1);
    proof {
        crate::fx::lemma_div_range(cl as int * 255999, 65536000);
        vstd::arithmetic::div_mod::lemma_div_is_ordered(
            cl as int * 255999,
            65535int * 255999,
            65536000,
        );
        crate::fx::lemma_mul_bound(cl as int, 255999, 65535, 255999);
    }
    let num: i64 = cl * 255999;
    let b: i64 = num / 65536000;
    b as u8
}

/// Formats an accumulated pixel color as its PPM body line
/// `"R G B"`, averaging over the sample count and gamma-correcting each
/// channel.
pub fn format_color(pixel_color: &Color, samples_per_pixel: i64) -> (out: String)
    requires
        0 <= pixel_color.x <= FX_LIM,
        0 <= pixel_color.y <= FX_LIM,
        0 <= pixel_color.z <= FX_LIM,
        1 <= samples_per_pixel <= 100000,
    ensures
        out@ == decimal_s(channel_byte_s(pixel_color.x as int, samples_per_pixel as int)) + seq![
            ' ',
        ] + decimal_s(channel_byte_s(pixel_color.y as int, samples_per_pixel as int)) + seq![' ']
            + decimal_s(channel_byte_s(pixel_color.z as int, samples_per_pixel as int)),
{
    let rb = channel_byte(pixel_color.x, samples_per_pixel);
    let gb = channel_byte(pixel_color.y, samples_per_pixel);
    let bb = channel_byte(pixel_color.z, samples_per_pixel);
    let mut out = String::new();
    push_decimal(&mut out, rb);
    out.push(' ');
    push_decimal(&mut out, gb);
    out.push(' ');
    push_decimal(&mut out, bb);
    proof {
        assert(out@ =~= Seq::<char>::empty() + decimal_s(rb as int) + seq![' '] + decimal_s(
            gb as int,
        ) + seq![' '] + decimal_s(bb as int));
        assert(Seq::<char>::empty() + decimal_s(rb as int) + seq![' '] + decimal_s(gb as int)
            + seq![' '] + decimal_s(bb as int) =~= decimal_s(rb as int) + seq![' '] + decimal_s(
            gb as int,
        ) + seq![' '] + decimal_s(bb as int));
    }
    out
}

} // verus!
