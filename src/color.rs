//! Hue sextants of the HSL color model.
//!
//! The hue circle is cut into six arcs of sixty degrees. In each arc the three
//! channels take, in a fixed arrangement, the chroma, the secondary component
//! and zero; the arithmetic that yields those values is left to the caller.

use vstd::prelude::*;

verus! {

/// The sextant of a hue whose whole degrees (truncated toward zero) are `deg`:
/// the quotient of `deg` by sixty, truncated toward zero, where it lies in
/// `0..=4`, and the last sextant for every other value.
pub open spec fn sextant_of(deg: int) -> nat {
    if -60 < deg < 60 {
        0
    } else if 60 <= deg < 120 {
        1
    } else if 120 <= deg < 180 {
        2
    } else if 180 <= deg < 240 {
        3
    } else if 240 <= deg < 300 {
        4
    } else {
        5
    }
}

/// Red, green and blue before the lightness offset, for sextant `s`, chroma `c`,
/// secondary component `x` and zero `z`.
pub open spec fn arrange<T>(s: nat, c: T, x: T, z: T) -> (T, T, T) {
    if s == 0 {
        (c, x, z)
    } else if s == 1 {
        (x, c, z)
    } else if s == 2 {
        (z, c, x)
    } else if s == 3 {
        (z, x, c)
    } else if s == 4 {
        (x, z, c)
    } else {
        (c, z, x)
    }
}

/// Picks the red, green and blue components for a hue of `deg` whole degrees
/// from the chroma `c`, the secondary component `x` and zero `z`.
pub fn sextant_channels<T: Copy>(deg: i32, c: T, x: T, z: T) -> (r: (T, T, T))
    ensures
        r == arrange(sextant_of(deg as int), c, x, z),
{
    if -60 < deg && deg < 60 {
        (c, x, z)
    } else if 60 <= deg && deg < 120 {
        (x, c, z)
    } else if 120 <= deg && deg < 180 {
        (z, c, x)
    } else if 180 <= deg && deg < 240 {
        (z, x, c)
    } else if 240 <= deg && deg < 300 {
        (x, z, c)
    } else {
        (c, z, x)
    }
}

} // verus!
