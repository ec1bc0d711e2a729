//! Channel accessors for packed `0xRRGGBB` colours used by the console
//! logging output.

use vstd::prelude::*;

verus! {

/// The red channel of a packed `0xRRGGBB` colour.
pub fn r(num: u32) -> (res: u8)
    ensures
        res == ((num >> 16) & 0xff) as u8,
{
    ((num >> 16) & 255) as u8
}

/// The green channel of a packed `0xRRGGBB` colour.
pub fn g(num: u32) -> (res: u8)
    ensures
        res == ((num >> 8) & 0xff) as u8,
{
    ((num >> 8) & 255) as u8
}

/// The blue channel of a packed `0xRRGGBB` colour.
pub fn b(num: u32) -> (res: u8)
    ensures
        res == (num & 0xff) as u8,
{
    (num & 255) as u8
}

} // verus!
