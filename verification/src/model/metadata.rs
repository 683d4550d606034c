//! Document settings that PBN header lines carry.

use vstd::prelude::*;

verus! {

/// Paper sizes.
#[derive(Debug, Clone, Copy, PartialEq, Eq, Structural)]
pub enum PaperSize {
    Letter,
    A4,
    Legal,
}

impl Default for PaperSize {
    fn default() -> (p: PaperSize)
        ensures
            p == PaperSize::Letter,
    {
        PaperSize::Letter
    }
}

/// The colours of the suits, as red, green and blue.
#[derive(Debug, Clone, Copy, PartialEq, Eq)]
pub struct ColorSettings {
    pub spades: (u8, u8, u8),
    pub hearts: (u8, u8, u8),
    pub diamonds: (u8, u8, u8),
    pub clubs: (u8, u8, u8),
}

impl Default for ColorSettings {
    /// Black spades and clubs, red hearts and diamonds.
    fn default() -> (c: ColorSettings)
        ensures
            c.spades == (0u8, 0u8, 0u8),
            c.hearts == (255u8, 0u8, 0u8),
            c.diamonds == (255u8, 0u8, 0u8),
            c.clubs == (0u8, 0u8, 0u8),
    {
        ColorSettings { spades: (0, 0, 0), hearts: (255, 0, 0), diamonds: (255, 0, 0), clubs: (0, 0, 0) }
    }
}

} // verus!
