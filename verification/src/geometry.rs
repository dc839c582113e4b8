//! Terminal geometry and styling values: rectangles of cells, horizontal
//! alignment, and the `ratatui` style values that the library carries through
//! to the cells it plans.

use vstd::prelude::*;
use ratatui::style::Style;

verus! {

/// `ratatui::style::Style`, carried by the library as an opaque value.
#[verifier::external_type_specification]
#[verifier::external_body]
pub struct ExStyle(ratatui::style::Style);

/// The style that `style_with_modifiers` builds from a modifier bit set.
pub uninterp spec fn modifier_style(bits: u16) -> Style;

/// Modifier bit of bold text.
pub const BOLD: u16 = 0x0001;
/// Modifier bit of dimmed text.
pub const DIM: u16 = 0x0002;
/// Modifier bit of reversed foreground and background.
pub const REVERSED: u16 = 0x0040;

/// Calls `Style::default().add_modifier(..)` of `ratatui` with the modifier
/// set whose bits are `bits` (`Modifier::from_bits_truncate`). The result is a
/// function of the bits alone, named `modifier_style`; with no bits it is the
/// default style. Nothing is stated of what the style holds.
#[verifier::external_body]
pub(crate) fn style_with_modifiers(bits: u16) -> (s: Style)
    ensures
        s == modifier_style(bits),
{
    Style::default().add_modifier(ratatui::style::Modifier::from_bits_truncate(bits))
}

/// A rectangle of terminal cells.
#[derive(Debug, Clone, Copy, PartialEq, Eq, Hash, Default, Structural)]
pub struct Rect {
    /// Leftmost column.
    pub x: u16,
    /// Topmost row.
    pub y: u16,
    /// Number of columns.
    pub width: u16,
    /// Number of rows.
    pub height: u16,
}

/// `x` capped at `u16::MAX`.
pub open spec fn sat_u16(x: int) -> int {
    if x > u16::MAX {
        u16::MAX as int
    } else {
        x
    }
}

/// The point `(x, y)` lies inside `rect`, whose right and bottom edges are
/// computed with saturating arithmetic.
pub open spec fn rect_contains(rect: Rect, x: u16, y: u16) -> bool {
    &&& rect.x <= x
    &&& x < sat_u16(rect.x + rect.width)
    &&& rect.y <= y
    &&& y < sat_u16(rect.y + rect.height)
}

impl Rect {
    /// A rectangle with the given position and size.
    pub fn new(x: u16, y: u16, width: u16, height: u16) -> (r: Rect)
        ensures
            r == (Rect { x, y, width, height }),
    {
        Rect { x, y, width, height }
    }

    /// The rectangle has no cells.
    pub fn is_empty(&self) -> (b: bool)
        ensures
            b == (self.width == 0 || self.height == 0),
    {
        self.width == 0 || self.height == 0
    }

    /// Whether the point at column `x` and row `y` lies inside the rectangle.
    pub fn contains(&self, x: u16, y: u16) -> (b: bool)
        ensures
            b == rect_contains(*self, x, y),
    {
        x >= self.x && x < self.x.saturating_add(self.width) && y >= self.y && y
            < self.y.saturating_add(self.height)
    }
}

/// Horizontal alignment of a trail inside its area.
#[derive(Debug, Clone, Copy, PartialEq, Eq, Hash, Default, Structural)]
pub enum Alignment {
    /// Flush left.
    #[default]
    Left,
    /// Centred.
    Center,
    /// Flush right.
    Right,
}

} // verus!
