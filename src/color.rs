use vstd::prelude::*;

verus! {

/// An RGB color with red, green and blue components.
#[derive(Debug, Clone, Copy, PartialEq, Eq, Structural)]
pub struct Color {
    /// The red component of the color (0-255).
    pub r: u8,
    /// The green component of the color (0-255).
    pub g: u8,
    /// The blue component of the color (0-255).
    pub b: u8,
}

/// A single half-block pixel with a specific color.
#[derive(Debug, Clone, Copy, PartialEq, Eq, Structural)]
pub struct TerminalPixel {
    /// The color of this half-block pixel.
    pub color: Color,
}

/// One terminal character cell after compositing its half-block pixels: the
/// resolved colors of its top and bottom halves.
#[derive(Debug, Clone, Copy, PartialEq, Eq, Structural)]
pub struct CompositedCell {
    /// The color of the top half of the terminal character cell.
    pub top_color: Color,
    /// The color of the bottom half of the terminal character cell.
    pub bottom_color: Color,
}

/// The channel-wise complement of a color.
pub open spec fn complement(c: Color) -> Color {
    Color { r: (255 - c.r) as u8, g: (255 - c.g) as u8, b: (255 - c.b) as u8 }
}

/// A cell whose two halves have the same color.
pub open spec fn solid_cell(c: Color) -> CompositedCell {
    CompositedCell { top_color: c, bottom_color: c }
}

/// No color equals its complement, since 255 is odd.
pub proof fn lemma_complement_differs(c: Color)
    ensures
        complement(c) != c,
{
}

impl Color {
    /// The channel-wise complement of this color.
    pub fn complement(&self) -> (r: Color)
        ensures
            r == complement(*self),
    {
        Color { r: 255 - self.r, g: 255 - self.g, b: 255 - self.b }
    }
}

} // verus!
