//! The paint operations the backend emits. The host canvas offers exactly two
//! primitives: fill a closed polygon with a solid color, and paint shaped text
//! at a position. Every protocol call translates into a sequence of these.

use crate::color::NormColor;
use crate::geometry::Point;
use vstd::prelude::*;

verus! {

/// A request to shape and paint a piece of text. `size` is the font size in
/// device pixels and `position` the top-left corner of the laid-out text box.
#[derive(Clone, Debug)]
pub struct TextOp {
    pub text: String,
    pub size: u32,
    pub color: NormColor,
    pub position: Point,
}

/// One paint call against the host canvas.
#[derive(Clone, Debug)]
pub enum PaintOp {
    /// Fill the closed polygon with the given vertices (the canvas closes the
    /// boundary from the last vertex back to the first).
    FillPolygon { vertices: Vec<Point>, color: NormColor },
    /// Shape the text and paint it.
    PaintText { op: TextOp },
}

/// `op` fills exactly the polygon `vs` with color `c`.
pub open spec fn is_fill(op: PaintOp, vs: Seq<Point>, c: NormColor) -> bool {
    match op {
        PaintOp::FillPolygon { vertices, color } => vertices@ == vs && color == c,
        _ => false,
    }
}

/// `op` paints exactly the text `text` at `position` with the given size and
/// color.
pub open spec fn is_text(
    op: PaintOp,
    text: Seq<char>,
    size: int,
    c: NormColor,
    position: Point,
) -> bool {
    match op {
        PaintOp::PaintText { op: t } => {
            &&& t.text@ == text
            &&& t.size == size
            &&& t.color == c
            &&& t.position == position
        },
        _ => false,
    }
}

} // verus!
