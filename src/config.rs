//! Checks on the integer part of a render configuration.

use vstd::prelude::*;

verus! {

/// Why a configuration cannot be rendered.
#[derive(Clone, Copy, Debug, PartialEq, Eq, Structural)]
pub enum ConfigError {
    /// The image is zero pixels wide.
    ZeroWidth,
    /// The image is zero pixels high.
    ZeroHeight,
    /// The iteration cap is zero.
    ZeroIterations,
    /// The zoom factor is not a positive number.
    NonPositiveZoom,
    /// The output buffer, four bytes per pixel, does not fit in memory.
    TooLarge,
}

/// The number of bytes of the output buffer: four per pixel.
pub open spec fn buffer_len(width: u32, height: u32) -> int {
    4 * width * height
}

/// Checks the dimensions and the iteration cap of a configuration. The first
/// failing check, in the order width, height, cap, size, gives the error.
pub fn check_dimensions(width: u32, height: u32, iter: u16) -> (r: Result<usize, ConfigError>)
    ensures
        width == 0 <==> r == Err::<usize, ConfigError>(ConfigError::ZeroWidth),
        width > 0 && height == 0 <==> r == Err::<usize, ConfigError>(ConfigError::ZeroHeight),
        width > 0 && height > 0 && iter == 0 <==> r == Err::<usize, ConfigError>(
            ConfigError::ZeroIterations,
        ),
        width > 0 && height > 0 && iter > 0 && buffer_len(width, height) > usize::MAX <==> r
            == Err::<usize, ConfigError>(ConfigError::TooLarge),
        r is Ok ==> r == Ok::<usize, ConfigError>(buffer_len(width, height) as usize),
        r is Ok <==> (width > 0 && height > 0 && iter > 0 && buffer_len(width, height)
            <= usize::MAX),
{
    if width == 0 {
        return Err(ConfigError::ZeroWidth);
    }
    if height == 0 {
        return Err(ConfigError::ZeroHeight);
    }
    if iter == 0 {
        return Err(ConfigError::ZeroIterations);
    }
    assert((width as int) * (height as int) <= 0xffff_ffff * 0xffff_ffff) by (nonlinear_arith)
        requires
            width <= 0xffff_ffff,
            height <= 0xffff_ffff,
    ;
    let pixels = (width as u64) * (height as u64);
    let limit = (usize::MAX / 4) as u64;
    assert(pixels > limit <==> 4 * pixels > usize::MAX);
    assert(buffer_len(width, height) == 4 * pixels) by (nonlinear_arith)
        requires
            pixels == width * height,
    ;
    if pixels > limit {
        return Err(ConfigError::TooLarge);
    }
    Ok(4 * (pixels as usize))
}

} // verus!
