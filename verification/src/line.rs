//! The stroke geometry engine and the styled polyline it renders.
//!
//! A polyline of `n >= 2` points with a stroke width `w` becomes one closed
//! fill outline: the spine points in order, followed by every spine point
//! translated by a single shift vector, in reverse order. The shift is `w`
//! times the unit vector perpendicular (rotated +90 degrees) to the direction
//! from the last point to the first point of the spine; it is not recomputed
//! per segment, so sharp bends keep a uniform offset direction rather than
//! mitered corners. The band is one-sided: it lies between the spine and the
//! spine shifted by the full width.

use crate::canvas::{is_fill, PaintOp};
use crate::color::{black, NormColor, ALPHA_ONE};
use crate::geometry::{
    cross, div_round, div_round_spec, in_bounds, isqrt, isqrt_spec, lemma_div_round_odd,
    lemma_div_round_sign, lemma_isqrt_bounds, lemma_shoelace_concat, neg_spec, shoelace,
    signed_area_2x, small_shift, translate, translate_spec, Point, COORD_LIMIT, WIDTH_LIMIT,
};
use vstd::arithmetic::div_mod::{
    lemma_basic_div, lemma_div_is_ordered, lemma_div_pos_is_pos, lemma_hoist_over_denominator,
};
use vstd::math::abs;
use vstd::prelude::*;

verus! {

/// The shift vector of a stroke: `width` times the unit vector perpendicular
/// to the direction from `last` to `first`, rounded to whole device pixels.
/// When `first == last` the direction angle degenerates to zero and the shift
/// points straight down the y axis with the full width.
pub open spec fn stroke_shift_spec(first: Point, last: Point, width: int) -> Point {
    let vx = first.x - last.x;
    let vy = first.y - last.y;
    if vx == 0 && vy == 0 {
        Point { x: 0, y: width as i64 }
    } else {
        let d = isqrt_spec((vx * vx + vy * vy) as nat) as int;
        Point { x: div_round_spec(-(width * vy), d) as i64, y: div_round_spec(width * vx, d) as i64 }
    }
}

/// Facts about the length `d = isqrt(vx * vx + vy * vy)` of a nonzero
/// direction vector: it is positive, at least each component's magnitude,
/// below twice the larger magnitude, and small enough for the divisions the
/// engine performs.
proof fn lemma_direction_norm(vx: int, vy: int)
    requires
        -2 * COORD_LIMIT <= vx <= 2 * COORD_LIMIT,
        -2 * COORD_LIMIT <= vy <= 2 * COORD_LIMIT,
        !(vx == 0 && vy == 0),
    ensures
        vx * vx + vy * vy >= 1,
        ({
            let d = isqrt_spec((vx * vx + vy * vy) as nat) as int;
            &&& 1 <= d <= 0x1_0000_0000
            &&& d >= abs(vx)
            &&& d >= abs(vy)
            &&& d <= 2 * vstd::math::max(abs(vx) as int, abs(vy) as int) - 1
        }),
{
    let ax = abs(vx) as int;
    let ay = abs(vy) as int;
    let m = vstd::math::max(ax, ay);
    let s = vx * vx + vy * vy;
    assert(vx * vx == ax * ax && vy * vy == ay * ay) by (nonlinear_arith)
        requires
            ax == abs(vx) && ay == abs(vy),
    ;
    assert(s >= 1) by (nonlinear_arith)
        requires
            s == ax * ax + ay * ay,
            ax >= 0,
            ay >= 0,
            ax >= 1 || ay >= 1,
    ;
    lemma_isqrt_bounds(s as nat);
    let d = isqrt_spec(s as nat) as int;
    assert(d >= 1) by (nonlinear_arith)
        requires
            s >= 1,
            d >= 0,
            s < (d + 1) * (d + 1),
    ;
    assert(d >= ax && d >= ay) by (nonlinear_arith)
        requires
            0 <= ax,
            0 <= ay,
            ax * ax <= s,
            ay * ay <= s,
            s < (d + 1) * (d + 1),
            d >= 0,
    ;
    assert(d <= 2 * m - 1) by (nonlinear_arith)
        requires
            d * d <= s,
            s == ax * ax + ay * ay,
            0 <= ax <= m,
            0 <= ay <= m,
            1 <= m,
            d >= 0,
    ;
    assert(d <= 0x1_0000_0000) by (nonlinear_arith)
        requires
            d * d <= s,
            s == ax * ax + ay * ay,
            0 <= ax <= 2 * COORD_LIMIT,
            0 <= ay <= 2 * COORD_LIMIT,
            d >= 0,
    ;
}

/// Rounded division of a dividend no larger in magnitude than `w * d` gives a
/// quotient no larger in magnitude than `w`.
proof fn lemma_div_round_le(a: int, d: int, w: int)
    requires
        d >= 1,
        w >= 0,
        -(w * d) <= a <= w * d,
    ensures
        -w <= div_round_spec(a, d) <= w,
{
    lemma_basic_div(d / 2, d);
    lemma_hoist_over_denominator(d / 2, w, d as nat);
    assert((d / 2 + w * d) / d == w);
    if a >= 0 {
        lemma_div_pos_is_pos(a + d / 2, d);
        lemma_div_is_ordered(a + d / 2, w * d + d / 2, d);
    } else {
        lemma_div_pos_is_pos(-a + d / 2, d);
        lemma_div_is_ordered(-a + d / 2, w * d + d / 2, d);
    }
}

/// The stroke shift stays within the stroke width in each component.
pub proof fn lemma_stroke_shift_bounds(first: Point, last: Point, width: int)
    requires
        in_bounds(first),
        in_bounds(last),
        0 <= width <= WIDTH_LIMIT,
    ensures
        ({
            let s = stroke_shift_spec(first, last, width);
            &&& -width <= s.x <= width
            &&& -width <= s.y <= width
            &&& small_shift(s)
        }),
        ({
            let vx = first.x - last.x;
            let vy = first.y - last.y;
            !(vx == 0 && vy == 0) ==> {
                let d = isqrt_spec((vx * vx + vy * vy) as nat) as int;
                &&& -width <= div_round_spec(-(width * vy), d) <= width
                &&& -width <= div_round_spec(width * vx, d) <= width
            }
        }),
{
    let vx = first.x - last.x;
    let vy = first.y - last.y;
    if vx == 0 && vy == 0 {
    } else {
        lemma_direction_norm(vx, vy);
        let d = isqrt_spec((vx * vx + vy * vy) as nat) as int;
        assert(-(width * d) <= -(width * vy) <= width * d && -(width * d) <= width * vx <= width
            * d) by (nonlinear_arith)
            requires
                0 <= width,
                abs(vx) <= d,
                abs(vy) <= d,
        ;
        lemma_div_round_le(-(width * vy), d, width);
        lemma_div_round_le(width * vx, d, width);
    }
}

/// Compute the stroke shift vector for a spine running from `first` to
/// `last` with the given stroke width.
pub fn stroke_shift(first: Point, last: Point, width: i64) -> (s: Point)
    requires
        in_bounds(first),
        in_bounds(last),
        0 <= width <= WIDTH_LIMIT,
    ensures
        s == stroke_shift_spec(first, last, width as int),
        -width <= s.x <= width,
        -width <= s.y <= width,
        small_shift(s),
{
    proof {
        lemma_stroke_shift_bounds(first, last, width as int);
    }
    let vx: i64 = first.x - last.x;
    let vy: i64 = first.y - last.y;
    if vx == 0 && vy == 0 {
        Point { x: 0, y: width }
    } else {
        proof {
            lemma_direction_norm(vx as int, vy as int);
        }
        let ax: u64 = if vx >= 0 {
            vx as u64
        } else {
            (-vx) as u64
        };
        let ay: u64 = if vy >= 0 {
            vy as u64
        } else {
            (-vy) as u64
        };
        assert(ax as int * ax as int == vx * vx && ay as int * ay as int == vy * vy
            && ax as int * ax as int + ay as int * ay as int <= 8 * COORD_LIMIT
            * COORD_LIMIT) by (nonlinear_arith)
            requires
                ax == abs(vx as int),
                ay == abs(vy as int),
                ax <= 2 * COORD_LIMIT,
                ay <= 2 * COORD_LIMIT,
        ;
        let d: u64 = isqrt(ax * ax + ay * ay);
        assert(-0x8_0000_0000_0000 <= width * vy <= 0x8_0000_0000_0000 && -0x8_0000_0000_0000
            <= width * vx <= 0x8_0000_0000_0000) by (nonlinear_arith)
            requires
                0 <= width <= WIDTH_LIMIT,
                -2 * COORD_LIMIT <= vx <= 2 * COORD_LIMIT,
                -2 * COORD_LIMIT <= vy <= 2 * COORD_LIMIT,
        ;
        let sx: i64 = div_round(-(width * vy), d);
        let sy: i64 = div_round(width * vx, d);
        Point { x: sx, y: sy }
    }
}

/// All points of `pts` translated by `s`, in order.
pub open spec fn shifted_points_spec(pts: Seq<Point>, s: Point) -> Seq<Point> {
    pts.map_values(|p: Point| translate_spec(p, s))
}

/// The closed fill outline of a stroked spine: the spine points in order,
/// then every spine point translated by `s`, in reverse order. The canvas
/// closes the boundary from the last vertex back to the first.
pub open spec fn stroke_outline_spec(pts: Seq<Point>, s: Point) -> Seq<Point> {
    pts + shifted_points_spec(pts, s).reverse()
}

/// Build the stroke outline of `points` for the shift vector `s`.
pub fn stroke_outline(points: &Vec<Point>, s: Point) -> (outline: Vec<Point>)
    requires
        forall|i: int| 0 <= i < points@.len() ==> in_bounds(#[trigger] points@[i]),
        small_shift(s),
    ensures
        outline@ == stroke_outline_spec(points@, s),
{
    let n: usize = points.len();
    let mut outline: Vec<Point> = Vec::new();
    let mut i: usize = 0;
    while i < n
        invariant
            i <= n,
            n == points@.len(),
            outline@ == points@.subrange(0, i as int),
        decreases n - i,
    {
        outline.push(points[i]);
        proof {
            assert(outline@ =~= points@.subrange(0, i + 1));
        }
        i = i + 1;
    }
    proof {
        assert(outline@ =~= points@);
        assert(shifted_points_spec(points@, s).subrange(n as int, n as int).reverse()
            =~= Seq::<Point>::empty());
        assert(outline@ =~= points@ + shifted_points_spec(points@, s).subrange(
            n as int,
            n as int,
        ).reverse());
    }
    let mut j: usize = n;
    while j > 0
        invariant
            j <= n,
            n == points@.len(),
            forall|k: int| 0 <= k < points@.len() ==> in_bounds(#[trigger] points@[k]),
            small_shift(s),
            outline@ == points@ + shifted_points_spec(points@, s).subrange(
                j as int,
                n as int,
            ).reverse(),
        decreases j,
    {
        let t = translate(points[j - 1], s);
        outline.push(t);
        proof {
            let shifted = shifted_points_spec(points@, s);
            assert(shifted[j - 1] == translate_spec(points@[j - 1], s));
            assert(shifted.subrange(j - 1, n as int).reverse() =~= shifted.subrange(
                j as int,
                n as int,
            ).reverse().push(shifted[j - 1]));
            assert(outline@ =~= points@ + shifted.subrange(j - 1, n as int).reverse());
        }
        j = j - 1;
    }
    proof {
        assert(shifted_points_spec(points@, s).subrange(0, n as int) =~= shifted_points_spec(
            points@,
            s,
        ));
    }
    outline
}

/// A styled polyline: an ordered spine of points, a stroke width in device
/// pixels, and a color. Rendering a spine with fewer than two points paints
/// nothing.
#[derive(Clone, Debug)]
pub struct Line {
    pub points: Vec<Point>,
    pub width: i64,
    pub color: NormColor,
}

impl Line {
    /// The polyline's points, width and color are within the ranges the
    /// engine works in.
    pub open spec fn wf(self) -> bool {
        &&& forall|i: int| 0 <= i < self.points@.len() ==> in_bounds(#[trigger] self.points@[i])
        &&& 0 <= self.width <= WIDTH_LIMIT
    }

    /// The shift vector of this polyline's stroke.
    pub open spec fn shift_spec(self) -> Point {
        stroke_shift_spec(self.points@.first(), self.points@.last(), self.width as int)
    }

    /// The closed fill outline this polyline strokes to.
    pub open spec fn outline_spec(self) -> Seq<Point> {
        stroke_outline_spec(self.points@, self.shift_spec())
    }

    /// An empty polyline with the default style: width one, opaque black.
    pub fn new() -> (l: Line)
        ensures
            l.points@.len() == 0,
            l.width == 1,
            l.color == (NormColor { r_num: 0, g_num: 0, b_num: 0, alpha: ALPHA_ONE }),
            l.wf(),
    {
        Line { points: Vec::new(), width: 1, color: black() }
    }

    /// The two-point polyline from `start` to `end` with the default style.
    pub fn between_points(start: Point, end: Point) -> (l: Line)
        ensures
            l.points@ =~= seq![start, end],
            l.width == 1,
            l.color == (NormColor { r_num: 0, g_num: 0, b_num: 0, alpha: ALPHA_ONE }),
    {
        let mut l = Line::new();
        l.add_point(start);
        l.add_point(end);
        l
    }

    /// This polyline with its stroke width replaced.
    pub fn width(self, width: i64) -> (l: Line)
        ensures
            l.points@ == self.points@,
            l.width == width,
            l.color == self.color,
    {
        Line { width, ..self }
    }

    /// This polyline with its color replaced.
    pub fn color(self, color: NormColor) -> (l: Line)
        ensures
            l.points@ == self.points@,
            l.width == self.width,
            l.color == color,
    {
        Line { color, ..self }
    }

    /// Append a point to the spine.
    pub fn add_point(&mut self, point: Point)
        ensures
            final(self).points@ == old(self).points@.push(point),
            final(self).width == old(self).width,
            final(self).color == old(self).color,
    {
        self.points.push(point);
    }

    /// Render this polyline: a spine with at least two points becomes exactly
    /// one filled outline in the polyline's color; an empty or single-point
    /// spine is a degenerate stroke and paints nothing.
    pub fn render_pixels(&self) -> (ops: Vec<PaintOp>)
        requires
            self.wf(),
        ensures
            self.points@.len() < 2 ==> ops@.len() == 0,
            self.points@.len() >= 2 ==> ops@.len() == 1 && is_fill(
                ops@[0],
                self.outline_spec(),
                self.color,
            ),
    {
        let mut ops: Vec<PaintOp> = Vec::new();
        if self.points.len() < 2 {
            return ops;
        }
        let first = self.points[0];
        let last = self.points[self.points.len() - 1];
        let s = stroke_shift(first, last, self.width);
        let outline = stroke_outline(&self.points, s);
        ops.push(PaintOp::FillPolygon { vertices: outline, color: self.color });
        ops
    }
}

impl Default for Line {
    /// The same empty polyline as `Line::new`.
    fn default() -> (l: Line)
        ensures
            l.points@.len() == 0,
            l.width == 1,
            l.color == (NormColor { r_num: 0, g_num: 0, b_num: 0, alpha: ALPHA_ONE }),
    {
        Line::new()
    }
}

/// The outline of an `n`-point spine has exactly `2 n` vertices: the spine
/// itself in order, then every spine point shifted, in reverse order. The
/// band is closed by the canvas back to its first vertex, the first spine
/// point, which lies beside the last outline vertex, the first spine point
/// shifted.
pub proof fn lemma_outline_shape(pts: Seq<Point>, s: Point)
    requires
        pts.len() >= 1,
    ensures
        stroke_outline_spec(pts, s).len() == 2 * pts.len(),
        forall|i: int| 0 <= i < pts.len() ==> stroke_outline_spec(pts, s)[i] == pts[i],
        forall|i: int|
            0 <= i < pts.len() ==> #[trigger] stroke_outline_spec(pts, s)[pts.len() + i]
                == translate_spec(pts[pts.len() - 1 - i], s),
        stroke_outline_spec(pts, s)[0] == pts[0],
        stroke_outline_spec(pts, s).last() == translate_spec(pts[0], s),
{
    let outline = stroke_outline_spec(pts, s);
    let shifted = shifted_points_spec(pts, s);
    assert(forall|i: int| 0 <= i < pts.len() ==> outline[i] == pts[i]);
    assert forall|i: int| 0 <= i < pts.len() implies #[trigger] outline[pts.len() + i]
        == translate_spec(pts[pts.len() - 1 - i], s) by {
        assert(outline[pts.len() + i] == shifted.reverse()[i]);
        assert(shifted.reverse()[i] == shifted[pts.len() - 1 - i]);
    }
}

/// Reversing the spine flips the stroke shift's sign exactly, as long as the
/// spine's endpoints differ: the stroke band of the reversed spine lies on
/// the other side of the spine.
pub proof fn lemma_shift_reverse_flips(first: Point, last: Point, width: int)
    requires
        in_bounds(first),
        in_bounds(last),
        0 <= width <= WIDTH_LIMIT,
        first != last,
    ensures
        stroke_shift_spec(last, first, width) == neg_spec(stroke_shift_spec(first, last, width)),
{
    let vx = first.x - last.x;
    let vy = first.y - last.y;
    lemma_direction_norm(vx, vy);
    let d = isqrt_spec((vx * vx + vy * vy) as nat) as int;
    assert((-vx) * (-vx) == vx * vx && (-vy) * (-vy) == vy * vy && width * (-vy) == -(width * vy)
        && width * (-vx) == -(width * vx) && -(width * (-vy)) == width * vy) by (nonlinear_arith);
    lemma_div_round_odd(width * vx, d);
    lemma_div_round_odd(width * vy, d);
    lemma_stroke_shift_bounds(first, last, width);
    lemma_stroke_shift_bounds(last, first, width);
}

/// Reversing the spine moves the stroke band to the other side: with the
/// flipped shift, the reversed spine's outline holds exactly the vertices of
/// the original outline translated by the flipped shift.
pub proof fn lemma_outline_reverse_side(pts: Seq<Point>, s: Point)
    requires
        forall|i: int| 0 <= i < pts.len() ==> in_bounds(#[trigger] pts[i]),
        small_shift(s),
    ensures
        stroke_outline_spec(pts.reverse(), neg_spec(s)).to_multiset() == shifted_points_spec(
            stroke_outline_spec(pts, s),
            neg_spec(s),
        ).to_multiset(),
{
    let ns = neg_spec(s);
    let n = pts.len() as int;
    let left = pts.reverse();
    let right = shifted_points_spec(pts, ns);
    assert(shifted_points_spec(left, ns).reverse() =~= right) by {
        assert forall|i: int| 0 <= i < n implies shifted_points_spec(left, ns).reverse()[i]
            == right[i] by {
            assert(shifted_points_spec(left, ns).reverse()[i] == shifted_points_spec(left, ns)[n
                - 1 - i]);
            assert(shifted_points_spec(left, ns)[n - 1 - i] == translate_spec(left[n - 1 - i], ns));
            assert(left[n - 1 - i] == pts[i]);
        }
    }
    assert(stroke_outline_spec(left, ns) =~= left + right);
    let outline = stroke_outline_spec(pts, s);
    assert(shifted_points_spec(outline, ns) =~= right + left) by {
        assert forall|i: int| 0 <= i < n implies shifted_points_spec(outline, ns)[i] == right[i] by {
            assert(outline[i] == pts[i]);
        }
        assert forall|i: int| n <= i < 2 * n implies shifted_points_spec(outline, ns)[i] == left[i
            - n] by {
            let k = i - n;
            assert(outline[i] == shifted_points_spec(pts, s).reverse()[k]);
            assert(shifted_points_spec(pts, s).reverse()[k] == shifted_points_spec(pts, s)[n - 1
                - k]);
            assert(shifted_points_spec(pts, s)[n - 1 - k] == translate_spec(pts[n - 1 - k], s));
            assert(translate_spec(translate_spec(pts[n - 1 - k], s), ns) == pts[n - 1 - k]);
            assert(left[k] == pts[n - 1 - k]);
        }
    }
    vstd::seq_lib::lemma_multiset_commutative(left, right);
    vstd::seq_lib::lemma_multiset_commutative(right, left);
    assert(left.to_multiset().add(right.to_multiset()) =~= right.to_multiset().add(
        left.to_multiset(),
    )) by {
        broadcast use vstd::multiset::group_multiset_axioms;

    }
}

/// Inserting the corner `q` next to `a` into a band changes twice its signed
/// area by twice the cross product of the step from `a` to `q` with the
/// shift: a ring identity on the shoelace terms of the four affected edges.
proof fn lemma_corner_delta(ax: int, ay: int, qx: int, qy: int, sx: int, sy: int)
    by (nonlinear_arith)
    ensures
        (ax * qy - ay * qx) + (qx * (qy + sy) - qy * (qx + sx)) + ((qx + sx) * (ay + sy) - (qy
            + sy) * (ax + sx)) - (ax * (ay + sy) - ay * (ax + sx)) == 2 * ((qx - ax) * sy - (qy
            - ay) * sx),
{
}

/// Twice the signed area of a stroke band is twice the cross product of the
/// spine's end-to-end vector with the shift: the zig-zag middle of the band
/// cancels out of the shoelace sum, whatever the spine does in between.
pub proof fn lemma_band_area(pts: Seq<Point>, s: Point)
    requires
        pts.len() >= 1,
        forall|i: int| 0 <= i < pts.len() ==> in_bounds(#[trigger] pts[i]),
        small_shift(s),
    ensures
        signed_area_2x(stroke_outline_spec(pts, s)) == 2 * ((pts.last().x - pts[0].x) * s.y - (
        pts.last().y - pts[0].y) * s.x),
    decreases pts.len(),
{
    let n = pts.len() as int;
    let outline = stroke_outline_spec(pts, s);
    let shifted = shifted_points_spec(pts, s);
    let p0 = pts[0];
    if n == 1 {
        let p = pts[0];
        let tp = translate_spec(p, s);
        assert(outline =~= seq![p, tp]);
        assert(outline.drop_first() =~= seq![tp]);
        assert(outline.len() == 2 && outline[0] == p && outline[1] == tp);
        assert(shoelace(outline.drop_first()) == 0);
        assert(shoelace(outline) == cross(p, tp) + shoelace(outline.drop_first()));
        assert(signed_area_2x(outline) == cross(p, tp) + cross(tp, p));
        assert(cross(p, tp) + cross(tp, p) == 0) by (nonlinear_arith)
            requires
                cross(p, tp) == p.x * tp.y - p.y * tp.x,
                cross(tp, p) == tp.x * p.y - tp.y * p.x,
        ;
        assert((pts.last().x - pts[0].x) * s.y - (pts.last().y - pts[0].y) * s.x == 0)
            by (nonlinear_arith)
            requires
                pts.last().x == pts[0].x,
                pts.last().y == pts[0].y,
        ;
    } else {
        let u = pts.drop_last();
        let q = pts.last();
        let a = u.last();
        assert(forall|i: int| 0 <= i < u.len() ==> u[i] == pts[i]);
        lemma_band_area(u, s);
        let su = shifted_points_spec(u, s);
        let tq = translate_spec(q, s);
        let ta = translate_spec(a, s);
        let tp0 = translate_spec(p0, s);
        let outline_u = stroke_outline_spec(u, s);
        assert(shifted =~= su.push(tq));
        assert(shifted.reverse() =~= seq![tq] + su.reverse()) by {
            assert forall|i: int| 0 <= i < n implies shifted.reverse()[i] == (seq![tq]
                + su.reverse())[i] by {
                assert(shifted.reverse()[i] == shifted[n - 1 - i]);
                if i >= 1 {
                    assert((seq![tq] + su.reverse())[i] == su.reverse()[i - 1]);
                    assert(su.reverse()[i - 1] == su[n - 1 - i]);
                }
            }
        }
        assert(outline =~= (u + seq![q]) + (seq![tq] + su.reverse()));
        assert(outline_u =~= u + su.reverse());
        // split the open shoelace sums at the joining edges
        lemma_shoelace_concat(u + seq![q], seq![tq] + su.reverse());
        lemma_shoelace_concat(u, seq![q]);
        lemma_shoelace_concat(seq![tq], su.reverse());
        lemma_shoelace_concat(u, su.reverse());
        assert((u + seq![q]).last() == q);
        assert((seq![tq] + su.reverse())[0] == tq);
        assert(shoelace(seq![q]) == 0);
        assert(shoelace(seq![tq]) == 0);
        assert(su.reverse()[0] == su[u.len() - 1]);
        assert(su[u.len() - 1] == ta);
        // both outlines share the first vertex and the closing vertex
        assert(outline[0] == p0 && outline_u[0] == p0);
        assert(outline.last() == shifted.reverse().last());
        assert(shifted.reverse().last() == shifted[0]);
        assert(outline_u.last() == su.reverse().last());
        assert(su.reverse().last() == su[0]);
        assert(su[0] == tp0 && shifted[0] == tp0);
        assert(signed_area_2x(outline) == shoelace(outline) + cross(tp0, p0));
        assert(signed_area_2x(outline_u) == shoelace(outline_u) + cross(tp0, p0));
        // the inserted corner contributes exactly the end-to-end growth
        assert(cross(a, q) == a.x * q.y - a.y * q.x);
        assert(cross(q, tq) == q.x * (q.y + s.y) - q.y * (q.x + s.x));
        assert(cross(tq, ta) == (q.x + s.x) * (a.y + s.y) - (q.y + s.y) * (a.x + s.x));
        assert(cross(a, ta) == a.x * (a.y + s.y) - a.y * (a.x + s.x));
        lemma_corner_delta(a.x as int, a.y as int, q.x as int, q.y as int, s.x as int, s.y as int);
        assert(cross(a, q) + cross(q, tq) + cross(tq, ta) - cross(a, ta) == 2 * ((q.x - a.x) * s.y
            - (q.y - a.y) * s.x));
        assert(2 * ((q.x - a.x) * s.y - (q.y - a.y) * s.x) + 2 * ((a.x - p0.x) * s.y - (a.y - p0.y)
            * s.x) == 2 * ((q.x - p0.x) * s.y - (q.y - p0.y) * s.x)) by (nonlinear_arith);
    }
}

/// With a positive width and a nonzero spine direction, the rounded
/// perpendicular shift is swept far enough that its cross product with the
/// direction stays away from zero.
proof fn lemma_perp_cross_positive(vx: int, vy: int, w: int, d: int, sx: int, sy: int)
    requires
        d >= 1,
        w >= 1,
        !(vx == 0 && vy == 0),
        d - d / 2 <= vstd::math::max(abs(vx) as int, abs(vy) as int),
        sy == div_round_spec(w * vx, d),
        sx == div_round_spec(-(w * vy), d),
    ensures
        vx * sy - vy * sx >= 1,
{
    let m = vstd::math::max(abs(vx) as int, abs(vy) as int);
    let syv = div_round_spec(w * vy, d);
    lemma_div_round_odd(w * vy, d);
    assert(sx == -syv);
    lemma_div_round_sign(w * vx, d);
    lemma_div_round_sign(w * vy, d);
    // sign matching of each term
    assert(vx >= 0 ==> w * vx >= 0 && w * vx >= vx) by (nonlinear_arith)
        requires
            w >= 1,
    ;
    assert(vx <= 0 ==> w * vx <= 0 && w * vx <= vx) by (nonlinear_arith)
        requires
            w >= 1,
    ;
    assert(vy >= 0 ==> w * vy >= 0 && w * vy >= vy) by (nonlinear_arith)
        requires
            w >= 1,
    ;
    assert(vy <= 0 ==> w * vy <= 0 && w * vy <= vy) by (nonlinear_arith)
        requires
            w >= 1,
    ;
    assert(vy * syv >= 0) by (nonlinear_arith)
        requires
            vy >= 0 ==> syv >= 0,
            vy <= 0 ==> syv <= 0,
    ;
    assert(vx * sy >= 0) by (nonlinear_arith)
        requires
            vx >= 0 ==> sy >= 0,
            vx <= 0 ==> sy <= 0,
    ;
    if abs(vx) as int == m {
        assert(vx * sy >= 1) by (nonlinear_arith)
            requires
                vx >= 1 ==> sy >= 1,
                vx <= -1 ==> sy <= -1,
                vx == m || vx == -m,
                m >= 1,
        ;
    } else {
        assert(abs(vy) as int == m);
        assert(vy * syv >= 1) by (nonlinear_arith)
            requires
                vy >= 1 ==> syv >= 1,
                vy <= -1 ==> syv <= -1,
                vy == m || vy == -m,
                m >= 1,
        ;
    }
    assert(vx * sy - vy * sx == vx * sy + vy * syv) by (nonlinear_arith)
        requires
            sx == -syv,
    ;
}

/// With a positive width and distinct spine endpoints, the stroke band is
/// swept to a definite side of the spine: the cross product of the spine's
/// end-to-end vector with the shift is strictly negative.
pub proof fn lemma_stroke_cross_negative(first: Point, last: Point, width: int)
    requires
        in_bounds(first),
        in_bounds(last),
        1 <= width <= WIDTH_LIMIT,
        first != last,
    ensures
        ({
            let s = stroke_shift_spec(first, last, width);
            (last.x - first.x) * s.y - (last.y - first.y) * s.x < 0
        }),
{
    let vx = first.x - last.x;
    let vy = first.y - last.y;
    lemma_direction_norm(vx, vy);
    let d = isqrt_spec((vx * vx + vy * vy) as nat) as int;
    let m = vstd::math::max(abs(vx) as int, abs(vy) as int);
    vstd::arithmetic::div_mod::lemma_fundamental_div_mod(d, 2);
    assert(d - d / 2 <= m);
    lemma_stroke_shift_bounds(first, last, width);
    let s = stroke_shift_spec(first, last, width);
    let sxv = div_round_spec(-(width * vy), d);
    let syv = div_round_spec(width * vx, d);
    assert(s.x == sxv && s.y == syv);
    lemma_perp_cross_positive(vx, vy, width, d, sxv, syv);
    assert((last.x - first.x) * s.y - (last.y - first.y) * s.x == -(vx * syv - vy * sxv))
        by (nonlinear_arith)
        requires
            last.x - first.x == -vx,
            last.y - first.y == -vy,
            s.y == syv,
            s.x == sxv,
    ;
}

/// For a spine of at least two points, a positive width and distinct spine
/// endpoints, the stroke outline encloses a region of nonzero signed area.
pub proof fn lemma_outline_area_nonzero(pts: Seq<Point>, width: int)
    requires
        pts.len() >= 2,
        forall|i: int| 0 <= i < pts.len() ==> in_bounds(#[trigger] pts[i]),
        1 <= width <= WIDTH_LIMIT,
        pts[0] != pts.last(),
    ensures
        signed_area_2x(
            stroke_outline_spec(pts, stroke_shift_spec(pts[0], pts.last(), width)),
        ) != 0,
{
    let s = stroke_shift_spec(pts[0], pts.last(), width);
    lemma_stroke_shift_bounds(pts[0], pts.last(), width);
    lemma_band_area(pts, s);
    lemma_stroke_cross_negative(pts[0], pts.last(), width);
}

} // verus!
