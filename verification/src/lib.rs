//! A drawing backend core: it turns a small vector-drawing protocol (pixels,
//! lines, rectangles, open paths, filled polygons, text) into concrete paint
//! operations for a host canvas that only knows how to fill a closed polygon
//! and paint shaped text, together with the stroke geometry engine that turns
//! a styled polyline into a single closed fill outline.

pub mod backend;
pub mod canvas;
pub mod color;
pub mod geometry;
pub mod line;

use vstd::prelude::*;

verus! {

} // verus!
