//! Channel order of the output buffer and packing of one pixel into it.

use vstd::prelude::*;

verus! {

/// Order of the four bytes that make up one pixel of the output buffer.
#[derive(Clone, Copy, Debug, PartialEq, Eq, Structural)]
pub enum PixelFormat {
    /// Red, green, blue, then alpha.
    RGBA8,
    /// Blue, green, red, then alpha.
    BGRA8,
}

/// Alpha value of every pixel: fully opaque.
pub const OPAQUE: u8 = 255;

/// The four bytes that encode `rgb` in `format`.
pub open spec fn pixel_bytes(format: PixelFormat, rgb: (u8, u8, u8)) -> Seq<u8> {
    match format {
        PixelFormat::RGBA8 => seq![rgb.0, rgb.1, rgb.2, OPAQUE],
        PixelFormat::BGRA8 => seq![rgb.2, rgb.1, rgb.0, OPAQUE],
    }
}

/// The four bytes of a pixel that lies inside the set: opaque black.
pub open spec fn black_bytes() -> Seq<u8> {
    seq![0u8, 0u8, 0u8, OPAQUE]
}

/// Appends the four bytes of `rgb`, in the channel order of `format`.
pub fn push_pixel(image: &mut Vec<u8>, format: PixelFormat, rgb: (u8, u8, u8))
    ensures
        final(image)@ == old(image)@ + pixel_bytes(format, rgb),
{
    match format {
        PixelFormat::RGBA8 => {
            image.push(rgb.0);
            image.push(rgb.1);
            image.push(rgb.2);
        },
        PixelFormat::BGRA8 => {
            image.push(rgb.2);
            image.push(rgb.1);
            image.push(rgb.0);
        },
    }
    image.push(OPAQUE);
    assert(image@ =~= old(image)@ + pixel_bytes(format, rgb));
}

/// Appends one opaque black pixel; black reads the same in every channel order.
pub fn push_black(image: &mut Vec<u8>)
    ensures
        final(image)@ == old(image)@ + black_bytes(),
{
    image.push(0);
    image.push(0);
    image.push(0);
    image.push(OPAQUE);
    assert(image@ =~= old(image)@ + black_bytes());
}

} // verus!
