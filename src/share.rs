//! Anchoring of the share picker.

use vstd::prelude::*;

verus! {

/// The corner of the anchor a share picker prefers to open towards.
#[derive(Debug, Clone, Copy, PartialEq, Eq, Structural)]
pub enum PreferredEdge {
    TopLeft,
    TopRight,
    BottomLeft,
    BottomRight,
}

/// An edge of a rectangle, as AppKit names them.
#[derive(Debug, Clone, Copy, PartialEq, Eq, Structural)]
pub enum RectEdge {
    MinX,
    MinY,
    MaxX,
    MaxY,
}

impl PreferredEdge {
    pub open spec fn spec_rect_edge(self) -> RectEdge {
        match self {
            PreferredEdge::TopLeft => RectEdge::MinX,
            PreferredEdge::TopRight => RectEdge::MaxX,
            PreferredEdge::BottomLeft => RectEdge::MinY,
            PreferredEdge::BottomRight => RectEdge::MaxY,
        }
    }

    /// The rectangle edge the picker is shown against.
    pub fn to_rect_edge(&self) -> (r: RectEdge)
        ensures
            r == self.spec_rect_edge(),
    {
        match self {
            PreferredEdge::TopLeft => RectEdge::MinX,
            PreferredEdge::TopRight => RectEdge::MaxX,
            PreferredEdge::BottomLeft => RectEdge::MinY,
            PreferredEdge::BottomRight => RectEdge::MaxY,
        }
    }
}

} // verus!
