//! Output-stage colour correction: a precomputed gamma table applied to each channel.
//!
//! LED brightness is perceptually non-linear; applying gamma at the output keeps effects in
//! clean linear-ish colour. The table is computed once from the exponent; applying it is one
//! indexed read per channel.

use vstd::prelude::*;

verus! {

/// An 8-bit RGB pixel colour.
#[derive(Clone, Copy, Debug, Default, PartialEq, Eq, Hash, Structural)]
pub struct PixelColor {
    pub r: u8,
    pub g: u8,
    pub b: u8,
}

impl PixelColor {
    /// The colour with these three channels.
    pub fn rgb(r: u8, g: u8, b: u8) -> (c: Self)
        ensures
            c == (PixelColor { r, g, b }),
    {
        PixelColor { r, g, b }
    }
}

/// A precomputed gamma lookup table, applied at the output edge.
#[derive(Clone, Copy, Debug)]
pub struct Gamma {
    lut: [u8; 256],
}

impl View for Gamma {
    type V = Seq<u8>;

    closed spec fn view(&self) -> Seq<u8> {
        self.lut@
    }
}

impl Gamma {
    /// A table with the given entries: entry `i` is the corrected value of channel value `i`.
    pub fn from_table(lut: [u8; 256]) -> (g: Self)
        ensures
            g@ == lut@,
    {
        Gamma { lut }
    }

    /// Corrects each channel of a colour through the table.
    pub fn apply(&self, c: PixelColor) -> (o: PixelColor)
        ensures
            o == (PixelColor {
                r: self@[c.r as int],
                g: self@[c.g as int],
                b: self@[c.b as int],
            }),
    {
        PixelColor { r: self.lut[c.r as usize], g: self.lut[c.g as usize], b: self.lut[c.b as usize] }
    }
}

} // verus!
