//! The drawing backend adapter: it implements the abstract drawing protocol
//! (pixel, line, rectangle, open path, filled polygon, text) by translating
//! each call, immediately and statelessly, into zero or more paint operations
//! for the host canvas. The only state is the fixed device-space origin added
//! to every incoming coordinate and the fixed canvas size.

use crate::canvas::{is_fill, is_text, PaintOp, TextOp};
use crate::color::{normalize, normalize_spec, InputColor};
use crate::geometry::{in_bounds, Point, WIDTH_LIMIT};
use crate::line::{stroke_outline_spec, stroke_shift_spec, Line};
use vstd::prelude::*;

verus! {

/// Horizontal anchor of a text box relative to its anchor coordinate.
#[derive(Clone, Copy, PartialEq, Eq, Structural, Debug)]
pub enum HPos {
    Left,
    Right,
    Center,
}

/// Vertical anchor of a text box relative to its anchor coordinate.
#[derive(Clone, Copy, PartialEq, Eq, Structural, Debug)]
pub enum VPos {
    Top,
    Center,
    Bottom,
}

/// Per-call style of a stroked or filled protocol operation: a color and a
/// stroke width in device pixels.
#[derive(Clone, Copy, PartialEq, Eq, Structural, Debug)]
pub struct StrokeStyle {
    pub color: InputColor,
    pub stroke_width: u32,
}

/// Per-call style of a text operation: font size in device pixels, color,
/// and the anchor the text box is positioned by.
#[derive(Clone, Copy, PartialEq, Eq, Structural, Debug)]
pub struct TextStyle {
    pub size: u32,
    pub color: InputColor,
    pub h_pos: HPos,
    pub v_pos: VPos,
}

/// The axis-aligned layout box of a piece of shaped text, as the external
/// text shaper reports it: minimal and maximal corner in layout coordinates.
#[derive(Clone, Copy, PartialEq, Eq, Structural, Debug)]
pub struct LayoutBox {
    pub min_x: i32,
    pub min_y: i32,
    pub max_x: i32,
    pub max_y: i32,
}

impl LayoutBox {
    /// The box's corners are ordered.
    pub open spec fn wf(self) -> bool {
        self.min_x <= self.max_x && self.min_y <= self.max_y
    }
}

/// The device point of a protocol coordinate: the backend's origin plus the
/// coordinate.
pub open spec fn coord_to_point_spec(origin: Point, coord: (i32, i32)) -> Point {
    Point { x: (origin.x + coord.0) as i64, y: (origin.y + coord.1) as i64 }
}

/// The device point of `coord` stays within the coordinate range the backend
/// works in.
pub open spec fn coord_ok(origin: Point, coord: (i32, i32)) -> bool {
    in_bounds(coord_to_point_spec(origin, coord))
}

/// Convert a protocol coordinate to a device point by adding the origin.
pub fn coord_to_point(origin: Point, coord: (i32, i32)) -> (p: Point)
    requires
        in_bounds(origin),
    ensures
        p == coord_to_point_spec(origin, coord),
        p.x == origin.x + coord.0,
        p.y == origin.y + coord.1,
{
    Point { x: origin.x + coord.0 as i64, y: origin.y + coord.1 as i64 }
}

/// Every protocol coordinate of `coords`, converted to a device point.
pub open spec fn device_points_spec(origin: Point, coords: Seq<(i32, i32)>) -> Seq<Point> {
    coords.map_values(|c: (i32, i32)| coord_to_point_spec(origin, c))
}

/// The unit square whose top-left corner is `p`, as a fill polygon.
pub open spec fn pixel_square_spec(p: Point) -> Seq<Point> {
    seq![
        p,
        Point { x: (p.x + 1) as i64, y: p.y },
        Point { x: (p.x + 1) as i64, y: (p.y + 1) as i64 },
        Point { x: p.x, y: (p.y + 1) as i64 },
    ]
}

/// The four corners of the axis-aligned rectangle spanned by `ul` and `br`,
/// in drawing order, as a fill polygon.
pub open spec fn rect_corners_spec(ul: Point, br: Point) -> Seq<Point> {
    seq![ul, Point { x: ul.x, y: br.y }, br, Point { x: br.x, y: ul.y }]
}

/// The stroke outline of the single edge from `a` to `b` with the default
/// stroke width of one pixel.
pub open spec fn edge_stroke_spec(a: Point, b: Point) -> Seq<Point> {
    stroke_outline_spec(seq![a, b], stroke_shift_spec(a, b, 1))
}

/// The anchor offset of a text box of width `w` and height `h`: how far the
/// box's top-left corner lies from the anchor coordinate.
pub open spec fn anchor_offset_spec(w: int, h: int, hp: HPos, vp: VPos) -> (int, int) {
    (
        match hp {
            HPos::Left => 0,
            HPos::Right => -w,
            HPos::Center => -(w / 2),
        },
        match vp {
            VPos::Top => 0,
            VPos::Center => -(h / 2),
            VPos::Bottom => -h,
        },
    )
}

/// Where the top-left corner of the shaped text box is painted: the device
/// point of the anchor coordinate plus the anchor offset of the box.
pub open spec fn text_position_spec(
    origin: Point,
    pos: (i32, i32),
    layout: LayoutBox,
    hp: HPos,
    vp: VPos,
) -> Point {
    let p = coord_to_point_spec(origin, pos);
    let off = anchor_offset_spec(
        layout.max_x - layout.min_x,
        layout.max_y - layout.min_y,
        hp,
        vp,
    );
    Point { x: (p.x + off.0) as i64, y: (p.y + off.1) as i64 }
}

/// A zero-length stroke still paints: the degenerate two-point spine
/// `[a, a]` strokes to a single region of four vertices that touches `a`
/// itself, whatever the width, so drawing a line from a point to itself
/// fills exactly one region at that point.
pub proof fn lemma_zero_length_stroke(a: Point, width: int)
    ensures
        stroke_outline_spec(seq![a, a], stroke_shift_spec(a, a, width)).len() == 4,
        stroke_outline_spec(seq![a, a], stroke_shift_spec(a, a, width))[0] == a,
        stroke_outline_spec(seq![a, a], stroke_shift_spec(a, a, width)).contains(a),
{
    let outline = stroke_outline_spec(seq![a, a], stroke_shift_spec(a, a, width));
    crate::line::lemma_outline_shape(seq![a, a], stroke_shift_spec(a, a, width));
    assert(outline[0] == a);
    assert(outline.contains(a));
}

/// A drawn pixel touches its point: the unit square painted for `p` has four
/// vertices and begins at `p` itself.
pub proof fn lemma_pixel_square_touches(p: Point)
    ensures
        pixel_square_spec(p).len() == 4,
        pixel_square_spec(p)[0] == p,
        pixel_square_spec(p).contains(p),
{
    assert(pixel_square_spec(p)[0] == p);
    assert(pixel_square_spec(p).contains(p));
}

/// The drawing backend adapter. One instance serves one paint pass: it holds
/// the fixed device-space origin and the canvas size, and nothing else.
pub struct DrawBackend {
    pub origin: Point,
    pub width: u32,
    pub height: u32,
}

impl DrawBackend {
    /// The backend's origin lies within the coordinate range it works in.
    pub open spec fn wf(self) -> bool {
        in_bounds(self.origin)
    }

    /// Create a backend for one paint pass over a canvas of the given size,
    /// with the given device-space origin.
    pub fn new(origin: Point, width: u32, height: u32) -> (b: DrawBackend)
        requires
            in_bounds(origin),
        ensures
            b.origin == origin,
            b.width == width,
            b.height == height,
            b.wf(),
    {
        DrawBackend { origin, width, height }
    }

    /// The canvas size in device pixels: a pure query, no paint operations.
    pub fn get_size(&self) -> (r: (u32, u32))
        ensures
            r.0 == self.width,
            r.1 == self.height,
    {
        (self.width, self.height)
    }

    /// Nothing to prepare: this backend paints immediately per call.
    pub fn ensure_prepared(&self) -> (ops: Vec<PaintOp>)
        ensures
            ops@.len() == 0,
    {
        Vec::new()
    }

    /// Nothing to present: this backend paints immediately per call.
    pub fn present(&self) -> (ops: Vec<PaintOp>)
        ensures
            ops@.len() == 0,
    {
        Vec::new()
    }

    /// Draw a single pixel: exactly one filled unit square whose top-left
    /// corner is the device point of `pos`.
    pub fn draw_pixel(&self, pos: (i32, i32), color: InputColor) -> (ops: Vec<PaintOp>)
        requires
            self.wf(),
            coord_ok(self.origin, pos),
        ensures
            ops@.len() == 1,
            is_fill(
                ops@[0],
                pixel_square_spec(coord_to_point_spec(self.origin, pos)),
                normalize_spec(color),
            ),
    {
        let p = coord_to_point(self.origin, pos);
        let mut vertices: Vec<Point> = Vec::new();
        vertices.push(p);
        vertices.push(Point { x: p.x + 1, y: p.y });
        vertices.push(Point { x: p.x + 1, y: p.y + 1 });
        vertices.push(Point { x: p.x, y: p.y + 1 });
        proof {
            assert(vertices@ =~= pixel_square_spec(coord_to_point_spec(self.origin, pos)));
        }
        let mut ops: Vec<PaintOp> = Vec::new();
        ops.push(PaintOp::FillPolygon { vertices, color: normalize(color) });
        ops
    }

    /// Draw a line: exactly one filled stroke outline of the two-point spine
    /// from the device point of `from` to the device point of `to`, with the
    /// style's width and color.
    pub fn draw_line(&self, from: (i32, i32), to: (i32, i32), style: StrokeStyle) -> (ops: Vec<
        PaintOp,
    >)
        requires
            self.wf(),
            coord_ok(self.origin, from),
            coord_ok(self.origin, to),
            style.stroke_width <= WIDTH_LIMIT,
        ensures
            ops@.len() == 1,
            ({
                let df = coord_to_point_spec(self.origin, from);
                let dt = coord_to_point_spec(self.origin, to);
                is_fill(
                    ops@[0],
                    stroke_outline_spec(
                        seq![df, dt],
                        stroke_shift_spec(df, dt, style.stroke_width as int),
                    ),
                    normalize_spec(style.color),
                )
            }),
    {
        let df = coord_to_point(self.origin, from);
        let dt = coord_to_point(self.origin, to);
        let line = Line::between_points(df, dt).width(style.stroke_width as i64).color(
            normalize(style.color),
        );
        line.render_pixels()
    }

    /// Draw a rectangle spanned by the device points of `upper_left` and
    /// `bottom_right`. Filled: exactly one fill call whose four vertices are
    /// the rectangle's corners; the stroke width plays no part. Not filled:
    /// exactly four independent stroke-engine invocations, one per edge, each
    /// stroked with the default width of one pixel in the style's color.
    pub fn draw_rect(
        &self,
        upper_left: (i32, i32),
        bottom_right: (i32, i32),
        style: StrokeStyle,
        filled: bool,
    ) -> (ops: Vec<PaintOp>)
        requires
            self.wf(),
            coord_ok(self.origin, upper_left),
            coord_ok(self.origin, bottom_right),
        ensures
            ({
                let ul = coord_to_point_spec(self.origin, upper_left);
                let br = coord_to_point_spec(self.origin, bottom_right);
                let ur = Point { x: br.x, y: ul.y };
                let bl = Point { x: ul.x, y: br.y };
                let c = normalize_spec(style.color);
                if filled {
                    ops@.len() == 1 && is_fill(ops@[0], rect_corners_spec(ul, br), c)
                } else {
                    &&& ops@.len() == 4
                    &&& is_fill(ops@[0], edge_stroke_spec(ul, ur), c)
                    &&& is_fill(ops@[1], edge_stroke_spec(ur, br), c)
                    &&& is_fill(ops@[2], edge_stroke_spec(br, bl), c)
                    &&& is_fill(ops@[3], edge_stroke_spec(bl, ul), c)
                }
            }),
    {
        let ul = coord_to_point(self.origin, upper_left);
        let br = coord_to_point(self.origin, bottom_right);
        let ur = Point { x: br.x, y: ul.y };
        let bl = Point { x: ul.x, y: br.y };
        let c = normalize(style.color);
        let mut ops: Vec<PaintOp> = Vec::new();
        if filled {
            let mut vertices: Vec<Point> = Vec::new();
            vertices.push(ul);
            vertices.push(bl);
            vertices.push(br);
            vertices.push(ur);
            proof {
                assert(vertices@ =~= rect_corners_spec(
                    coord_to_point_spec(self.origin, upper_left),
                    coord_to_point_spec(self.origin, bottom_right),
                ));
            }
            ops.push(PaintOp::FillPolygon { vertices, color: c });
        } else {
            let mut e1 = Line::between_points(ul, ur).color(c).render_pixels();
            let mut e2 = Line::between_points(ur, br).color(c).render_pixels();
            let mut e3 = Line::between_points(br, bl).color(c).render_pixels();
            let mut e4 = Line::between_points(bl, ul).color(c).render_pixels();
            ops.append(&mut e1);
            ops.append(&mut e2);
            ops.append(&mut e3);
            ops.append(&mut e4);
        }
        ops
    }

    /// Draw an open path: every coordinate is converted to a device point,
    /// an empty or single-point path paints nothing, and a longer path is
    /// handed whole to the stroke engine, giving exactly one filled outline.
    /// The path is never closed implicitly.
    pub fn draw_path(&self, path: &Vec<(i32, i32)>, style: StrokeStyle) -> (ops: Vec<PaintOp>)
        requires
            self.wf(),
            forall|i: int| 0 <= i < path@.len() ==> coord_ok(self.origin, #[trigger] path@[i]),
            style.stroke_width <= WIDTH_LIMIT,
        ensures
            path@.len() < 2 ==> ops@.len() == 0,
            path@.len() >= 2 ==> ({
                let dev = device_points_spec(self.origin, path@);
                ops@.len() == 1 && is_fill(
                    ops@[0],
                    stroke_outline_spec(
                        dev,
                        stroke_shift_spec(dev[0], dev.last(), style.stroke_width as int),
                    ),
                    normalize_spec(style.color),
                )
            }),
    {
        let ghost dev = device_points_spec(self.origin, path@);
        let n: usize = path.len();
        let mut points: Vec<Point> = Vec::new();
        let mut i: usize = 0;
        while i < n
            invariant
                i <= n,
                n == path@.len(),
                self.wf(),
                forall|k: int| 0 <= k < path@.len() ==> coord_ok(self.origin, #[trigger] path@[k]),
                points@ == dev.subrange(0, i as int),
                dev == device_points_spec(self.origin, path@),
            decreases n - i,
        {
            let p = coord_to_point(self.origin, path[i]);
            points.push(p);
            proof {
                assert(dev[i as int] == coord_to_point_spec(self.origin, path@[i as int]));
                assert(points@ =~= dev.subrange(0, i + 1));
            }
            i = i + 1;
        }
        proof {
            assert(points@ =~= dev);
        }
        let line = Line {
            points,
            width: style.stroke_width as i64,
            color: normalize(style.color),
        };
        line.render_pixels()
    }

    /// Fill a polygon with the device points of the given vertices, directly
    /// and without the stroke engine: exactly one fill call. A vertex list
    /// that cannot form a closed polygon (fewer than three vertices) paints
    /// nothing.
    pub fn fill_polygon(&self, vertices: &Vec<(i32, i32)>, style: StrokeStyle) -> (ops: Vec<
        PaintOp,
    >)
        requires
            self.wf(),
            forall|i: int|
                0 <= i < vertices@.len() ==> coord_ok(self.origin, #[trigger] vertices@[i]),
        ensures
            vertices@.len() < 3 ==> ops@.len() == 0,
            vertices@.len() >= 3 ==> ops@.len() == 1 && is_fill(
                ops@[0],
                device_points_spec(self.origin, vertices@),
                normalize_spec(style.color),
            ),
    {
        let ghost dev = device_points_spec(self.origin, vertices@);
        let mut ops: Vec<PaintOp> = Vec::new();
        if vertices.len() < 3 {
            return ops;
        }
        let n: usize = vertices.len();
        let mut points: Vec<Point> = Vec::new();
        let mut i: usize = 0;
        while i < n
            invariant
                i <= n,
                n == vertices@.len(),
                self.wf(),
                forall|k: int|
                    0 <= k < vertices@.len() ==> coord_ok(self.origin, #[trigger] vertices@[k]),
                points@ == dev.subrange(0, i as int),
                dev == device_points_spec(self.origin, vertices@),
            decreases n - i,
        {
            let p = coord_to_point(self.origin, vertices[i]);
            points.push(p);
            proof {
                assert(dev[i as int] == coord_to_point_spec(self.origin, vertices@[i as int]));
                assert(points@ =~= dev.subrange(0, i + 1));
            }
            i = i + 1;
        }
        proof {
            assert(points@ =~= dev);
        }
        ops.push(PaintOp::FillPolygon { vertices: points, color: normalize(style.color) });
        ops
    }

    /// Draw text: exactly one paint-text operation. The external text shaper
    /// has already measured the text into `layout`; the box is positioned so
    /// that the anchor point of the box chosen by the style's anchors falls
    /// on the device point of `pos`.
    pub fn draw_text(&self, text: &str, style: TextStyle, pos: (i32, i32), layout: LayoutBox)
        -> (ops: Vec<PaintOp>)
        requires
            self.wf(),
            coord_ok(self.origin, pos),
            layout.wf(),
        ensures
            ops@.len() == 1,
            is_text(
                ops@[0],
                text@,
                style.size as int,
                normalize_spec(style.color),
                text_position_spec(self.origin, pos, layout, style.h_pos, style.v_pos),
            ),
    {
        let p = coord_to_point(self.origin, pos);
        let w: i64 = layout.max_x as i64 - layout.min_x as i64;
        let h: i64 = layout.max_y as i64 - layout.min_y as i64;
        let dx: i64 = match style.h_pos {
            HPos::Left => 0,
            HPos::Right => -w,
            HPos::Center => -(((w as u64) / 2) as i64),
        };
        let dy: i64 = match style.v_pos {
            VPos::Top => 0,
            VPos::Center => -(((h as u64) / 2) as i64),
            VPos::Bottom => -h,
        };
        let position = Point { x: p.x + dx, y: p.y + dy };
        let op = TextOp {
            text: text.to_string(),
            size: style.size,
            color: normalize(style.color),
            position,
        };
        let mut ops: Vec<PaintOp> = Vec::new();
        ops.push(PaintOp::PaintText { op });
        ops
    }
}

} // verus!
