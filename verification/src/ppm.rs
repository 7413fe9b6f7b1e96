//! The image as text: the plain portable pixmap format.
//!
//! A header of three lines: the letter `P` with the digit 3, which names the format;
//! then width and height separated by a space; then the largest channel value, `255`.
//! After it comes one line per pixel in output order, the three channels in decimal
//! separated by a space. Every line ends with a line feed.

use vstd::prelude::*;
use crate::image::Image;
use crate::image::Pixel;

verus! {

/// ASCII code of the letter `P`.
pub const LETTER_P: u8 = 80;

/// ASCII code of the digit zero.
pub const DIGIT_ZERO: u8 = 48;

/// ASCII code of the space.
pub const SPACE: u8 = 32;

/// ASCII code of the line feed.
pub const LINE_FEED: u8 = 10;

/// The decimal digits of `n` in ASCII, most significant first, without leading zeros.
pub open spec fn decimal(n: nat) -> Seq<u8>
    decreases n,
{
    if n < 10 {
        seq![(DIGIT_ZERO + n) as u8]
    } else {
        decimal(n / 10).push((DIGIT_ZERO + n % 10) as u8)
    }
}

/// The number that a run of ASCII digits denotes.
pub open spec fn number(digits: Seq<u8>) -> nat
    decreases digits.len(),
{
    if digits.len() == 0 {
        0
    } else {
        (10 * number(digits.drop_last()) + (digits.last() - DIGIT_ZERO)) as nat
    }
}

/// Nothing is lost in writing a number down: its decimal form is a run of at least one
/// digit, has no leading zero unless it is the single digit zero, and denotes the number.
pub proof fn lemma_decimal_reads_back(n: nat)
    ensures
        decimal(n).len() >= 1,
        forall|i: int|
            0 <= i < decimal(n).len() ==> DIGIT_ZERO <= #[trigger] decimal(n)[i] <= DIGIT_ZERO + 9,
        n > 0 ==> decimal(n)[0] != DIGIT_ZERO,
        number(decimal(n)) == n,
    decreases n,
{
    let digits = decimal(n);
    if n < 10 {
        assert(number(digits.drop_last()) == 0);
    } else {
        lemma_decimal_reads_back(n / 10);
        assert(digits.drop_last() == decimal(n / 10));
    }
}

/// The three header lines for an image of the given size.
pub open spec fn header(width: nat, height: nat) -> Seq<u8> {
    seq![LETTER_P, 51u8, LINE_FEED] + decimal(width) + seq![SPACE] + decimal(height) + seq![
        LINE_FEED,
        50u8,
        53u8,
        53u8,
        LINE_FEED,
    ]
}

/// The line for one pixel.
pub open spec fn pixel_line(p: Pixel) -> Seq<u8> {
    decimal(p.r as nat) + seq![SPACE] + decimal(p.g as nat) + seq![SPACE] + decimal(p.b as nat)
        + seq![LINE_FEED]
}

/// The lines for the given pixels, in order.
pub open spec fn pixel_lines(pixels: Seq<Pixel>) -> Seq<u8>
    decreases pixels.len(),
{
    if pixels.len() == 0 {
        Seq::empty()
    } else {
        pixel_lines(pixels.drop_last()) + pixel_line(pixels.last())
    }
}

/// The whole file for an image of the given size and pixels.
pub open spec fn ppm(width: nat, height: nat, pixels: Seq<Pixel>) -> Seq<u8> {
    header(width, height) + pixel_lines(pixels)
}

/// Appends the decimal digits of `n`.
fn push_decimal(out: &mut Vec<u8>, n: u32)
    ensures
        final(out)@ == old(out)@ + decimal(n as nat),
    decreases n,
{
    if n >= 10 {
        push_decimal(out, n / 10);
    }
    let digit: u8 = DIGIT_ZERO + (n % 10) as u8;
    out.push(digit);
    assert(out@ == old(out)@ + decimal(n as nat));
}

/// Appends the line for one pixel.
fn push_pixel_line(out: &mut Vec<u8>, p: Pixel)
    ensures
        final(out)@ == old(out)@ + pixel_line(p),
{
    push_decimal(out, p.r as u32);
    out.push(SPACE);
    push_decimal(out, p.g as u32);
    out.push(SPACE);
    push_decimal(out, p.b as u32);
    out.push(LINE_FEED);
    assert(out@ == old(out)@ + pixel_line(p));
}

/// The image as the bytes of a plain portable pixmap file.
pub fn to_ppm(image: &Image) -> (bytes: Vec<u8>)
    ensures
        bytes@ == ppm(image.width() as nat, image.height() as nat, image@),
{
    let mut out: Vec<u8> = Vec::new();
    out.push(LETTER_P);
    out.push(51u8);
    out.push(LINE_FEED);
    push_decimal(&mut out, image.width());
    out.push(SPACE);
    push_decimal(&mut out, image.height());
    out.push(LINE_FEED);
    out.push(50u8);
    out.push(53u8);
    out.push(53u8);
    out.push(LINE_FEED);
    assert(out@ == header(image.width() as nat, image.height() as nat));
    let count = image.len();
    let mut k: usize = 0;
    while k < count
        invariant
            k <= count,
            count == image@.len(),
            out@ == header(image.width() as nat, image.height() as nat) + pixel_lines(
                image@.take(k as int),
            ),
        decreases count - k,
    {
        let p = image.at(k);
        proof {
            assert(image@.take(k + 1).drop_last() == image@.take(k as int));
            assert(image@.take(k + 1).last() == p);
        }
        push_pixel_line(&mut out, p);
        k += 1;
    }
    proof {
        assert(image@.take(count as int) == image@);
    }
    out
}

} // verus!
