use vstd::prelude::*;

verus! {

/// One output pixel: a red, green and blue level from 0 to 255.
#[derive(Clone, Copy, Debug, PartialEq, Eq, Structural)]
pub struct Rgb8 {
    pub r: u8,
    pub g: u8,
    pub b: u8,
}

/// ASCII text of `n` in decimal, without leading zeros.
pub open spec fn decimal(n: nat) -> Seq<u8>
    decreases n,
{
    if n < 10 {
        seq![(48 + n) as u8]
    } else {
        decimal(n / 10).push((48 + n % 10) as u8)
    }
}

/// Header of a plain-text PPM image: the magic number `P3`, the width and height on one line,
/// the largest level `255`, then a blank line.
pub open spec fn header_text(width: nat, height: nat) -> Seq<u8> {
    seq![80u8, 51u8, 10u8] + decimal(width) + seq![32u8] + decimal(height) + seq![
        10u8,
        50u8,
        53u8,
        53u8,
        10u8,
        10u8,
    ]
}

/// One pixel's line: its three levels in decimal, apart by spaces.
pub open spec fn pixel_text(p: Rgb8) -> Seq<u8> {
    decimal(p.r as nat) + seq![32u8] + decimal(p.g as nat) + seq![32u8] + decimal(p.b as nat)
        + seq![10u8]
}

/// The lines of the pixels, in the order given.
pub open spec fn pixels_text(pixels: Seq<Rgb8>) -> Seq<u8>
    decreases pixels.len(),
{
    if pixels.len() == 0 {
        Seq::empty()
    } else {
        pixels_text(pixels.drop_last()) + pixel_text(pixels.last())
    }
}

/// The whole image file: the header, then one line per pixel.
pub open spec fn ppm_text(width: nat, height: nat, pixels: Seq<Rgb8>) -> Seq<u8> {
    header_text(width, height) + pixels_text(pixels)
}

fn push_decimal(out: &mut Vec<u8>, n: u32)
    ensures
        final(out)@ == old(out)@ + decimal(n as nat),
    decreases n,
{
    if n >= 10 {
        push_decimal(out, n / 10);
    }
    let d: u8 = (n % 10) as u8;
    out.push(48 + d);
    assert(final(out)@ =~= old(out)@ + decimal(n as nat));
}

/// Header of a PPM image of `width` by `height` pixels.
pub fn ppm_header(width: u32, height: u32) -> (text: Vec<u8>)
    ensures
        text@ == header_text(width as nat, height as nat),
{
    let mut text: Vec<u8> = Vec::new();
    text.push(80);
    text.push(51);
    text.push(10);
    push_decimal(&mut text, width);
    text.push(32);
    push_decimal(&mut text, height);
    text.push(10);
    text.push(50);
    text.push(53);
    text.push(53);
    text.push(10);
    text.push(10);
    assert(text@ =~= header_text(width as nat, height as nat));
    text
}

/// Appends the line of one pixel to `out`.
pub fn push_pixel(out: &mut Vec<u8>, pixel: Rgb8)
    ensures
        final(out)@ == old(out)@ + pixel_text(pixel),
{
    push_decimal(out, pixel.r as u32);
    out.push(32);
    push_decimal(out, pixel.g as u32);
    out.push(32);
    push_decimal(out, pixel.b as u32);
    out.push(10);
    assert(final(out)@ =~= old(out)@ + pixel_text(pixel));
}

/// The plain-text PPM file of an image of `width` by `height` pixels, whose
/// pixels are listed row by row from the top, each row from the left.
pub fn encode_ppm(width: u32, height: u32, pixels: &Vec<Rgb8>) -> (text: Vec<u8>)
    ensures
        text@ == ppm_text(width as nat, height as nat, pixels@),
{
    let mut text = ppm_header(width, height);
    let mut i: usize = 0;
    while i < pixels.len()
        invariant
            i <= pixels@.len(),
            text@ == header_text(width as nat, height as nat) + pixels_text(
                pixels@.subrange(0, i as int),
            ),
        decreases pixels@.len() - i,
    {
        let ghost before = text@;
        push_pixel(&mut text, pixels[i]);
        proof {
            let next = pixels@.subrange(0, i + 1);
            assert(next.drop_last() =~= pixels@.subrange(0, i as int));
            assert(text@ =~= header_text(width as nat, height as nat) + pixels_text(next));
        }
        i = i + 1;
    }
    assert(pixels@.subrange(0, pixels@.len() as int) =~= pixels@);
    text
}

} // verus!
