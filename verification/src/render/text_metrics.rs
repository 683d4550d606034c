//! Font measurements kept in font units.

use vstd::prelude::*;

verus! {

/// The fonts that text is measured with.
#[derive(Debug, Clone, Copy, PartialEq, Eq, Structural)]
pub enum MeasurementFont {
    /// DejaVu Sans.
    SansSerif,
    /// TeX Gyre Termes.
    Serif,
}

/// The vertical measurements of a font, in font units.
#[derive(Debug, Clone, Copy, PartialEq, Eq, Structural)]
pub struct FontMetrics {
    /// Units per em (for scaling).
    pub units_per_em: i32,
    /// Ascender height.
    pub ascender: i16,
    /// Descender depth (typically negative).
    pub descender: i16,
    /// Line gap.
    pub line_gap: i16,
    /// Height of capital letters.
    pub cap_height: i16,
}

} // verus!
