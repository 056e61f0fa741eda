use vstd::prelude::*;

verus! {

/// The largest value of a color channel in the output.
pub const MAX_CHANNEL: i32 = 255;

/// ASCII codes of the characters that the format writes besides digits.
pub const SPACE: u8 = 32;
pub const NEWLINE: u8 = 10;
pub const LETTER_P: u8 = 80;
pub const DIGIT_ZERO: u8 = 48;

/// A channel value brought into `0..=MAX_CHANNEL`.
pub open spec fn clamped(v: int) -> int {
    if v < 0 {
        0
    } else if v > MAX_CHANNEL {
        MAX_CHANNEL as int
    } else {
        v
    }
}

/// Brings a channel value that was scaled and truncated from a color into the range
/// that the output format allows.
pub fn clamp_channel(v: i32) -> (r: u8)
    ensures
        r as int == clamped(v as int),
{
    if v < 0 {
        0
    } else if v > MAX_CHANNEL {
        255
    } else {
        v as u8
    }
}

/// The ASCII digit for `d < 10`.
pub open spec fn digit(d: nat) -> u8 {
    (DIGIT_ZERO + d) as u8
}

/// The decimal text of `n`: its digits, most significant first, with no leading zero.
pub open spec fn decimal(n: nat) -> Seq<u8>
    decreases n,
{
    if n < 10 {
        seq![digit(n)]
    } else {
        decimal(n / 10).push(digit(n % 10))
    }
}

/// Appends the decimal text of `n` to `out`.
fn push_decimal(out: &mut Vec<u8>, n: u32)
    ensures
        final(out)@ == old(out)@ + decimal(n as nat),
    decreases n,
{
    if n >= 10 {
        push_decimal(out, n / 10);
    }
    out.push(DIGIT_ZERO + (n % 10) as u8);
    assert(old(out)@ + decimal(n as nat) =~= final(out)@);
}

/// The header of an ASCII pixel map of `width` by `height` pixels with channels up to
/// `MAX_CHANNEL`.
pub open spec fn header(width: nat, height: nat) -> Seq<u8> {
    seq![LETTER_P, digit(3), NEWLINE] + decimal(width) + seq![SPACE] + decimal(height) + seq![
        NEWLINE,
        digit(2),
        digit(5),
        digit(5),
        NEWLINE,
    ]
}

/// The line of one pixel: its three channels in decimal, separated by spaces.
pub open spec fn pixel_line(r: nat, g: nat, b: nat) -> Seq<u8> {
    decimal(r) + seq![SPACE] + decimal(g) + seq![SPACE] + decimal(b) + seq![NEWLINE]
}

/// Writes the header of the image.
pub fn ppm_header(width: u32, height: u32) -> (r: Vec<u8>)
    ensures
        r@ == header(width as nat, height as nat),
{
    let mut r: Vec<u8> = Vec::new();
    r.push(LETTER_P);
    r.push(DIGIT_ZERO + 3);
    r.push(NEWLINE);
    push_decimal(&mut r, width);
    r.push(SPACE);
    push_decimal(&mut r, height);
    r.push(NEWLINE);
    r.push(DIGIT_ZERO + 2);
    r.push(DIGIT_ZERO + 5);
    r.push(DIGIT_ZERO + 5);
    r.push(NEWLINE);
    assert(r@ =~= header(width as nat, height as nat));
    r
}

/// Appends the line of a pixel whose channels, scaled and truncated, are `r`, `g` and
/// `b`, each first clamped to `0..=MAX_CHANNEL`.
pub fn push_pixel_line(out: &mut Vec<u8>, r: i32, g: i32, b: i32)
    ensures
        final(out)@ == old(out)@ + pixel_line(
            clamped(r as int) as nat,
            clamped(g as int) as nat,
            clamped(b as int) as nat,
        ),
{
    let ghost start = out@;
    push_decimal(out, clamp_channel(r) as u32);
    out.push(SPACE);
    push_decimal(out, clamp_channel(g) as u32);
    out.push(SPACE);
    push_decimal(out, clamp_channel(b) as u32);
    out.push(NEWLINE);
    assert(out@ =~= start + pixel_line(
        clamped(r as int) as nat,
        clamped(g as int) as nat,
        clamped(b as int) as nat,
    ));
}

} // verus!
