use plotters_gpui::canvas::PaintOp;
use plotters_gpui::color::{NormColor, ALPHA_ONE};
use plotters_gpui::geometry::{div_round, isqrt, Point};
use plotters_gpui::line::{stroke_outline, stroke_shift, Line};

fn pt(x: i64, y: i64) -> Point {
    Point { x, y }
}

fn fill_vertices(op: &PaintOp) -> Vec<Point> {
    match op {
        PaintOp::FillPolygon { vertices, .. } => vertices.clone(),
        _ => panic!("expected a fill operation"),
    }
}

#[test]
fn isqrt_small_values() {
    assert_eq!(isqrt(0), 0);
    assert_eq!(isqrt(1), 1);
    assert_eq!(isqrt(2), 1);
    assert_eq!(isqrt(3), 1);
    assert_eq!(isqrt(4), 2);
    assert_eq!(isqrt(200), 14);
    assert_eq!(isqrt(10000), 100);
}

#[test]
fn isqrt_large_values() {
    assert_eq!(isqrt(u64::MAX), 0xFFFF_FFFF);
    assert_eq!(isqrt(1 << 62), 1 << 31);
    assert_eq!(isqrt((1 << 62) - 1), (1 << 31) - 1);
}

#[test]
fn div_round_rounds_to_nearest() {
    assert_eq!(div_round(10, 4), 3);
    assert_eq!(div_round(9, 4), 2);
    assert_eq!(div_round(-10, 4), -3);
    assert_eq!(div_round(-9, 4), -2);
    assert_eq!(div_round(0, 7), 0);
    assert_eq!(div_round(20, 14), 1);
}

#[test]
fn shift_of_horizontal_spine_points_down() {
    // spine from (0,0) to (100,0): the perpendicular of the last-to-first
    // direction points to negative y
    let s = stroke_shift(pt(0, 0), pt(100, 0), 4);
    assert_eq!(s, pt(0, -4));
}

#[test]
fn shift_of_vertical_spine_points_right() {
    let s = stroke_shift(pt(0, 0), pt(0, 100), 4);
    assert_eq!(s, pt(4, 0));
}

#[test]
fn shift_of_degenerate_spine_is_full_width_down() {
    let s = stroke_shift(pt(7, 9), pt(7, 9), 5);
    assert_eq!(s, pt(0, 5));
}

#[test]
fn shift_of_diagonal_spine_rounds() {
    // direction (-10,-10), length isqrt(200) = 14, width 2
    let s = stroke_shift(pt(0, 0), pt(10, 10), 2);
    assert_eq!(s, pt(1, -1));
}

#[test]
fn shift_flips_sign_when_spine_reverses() {
    let s = stroke_shift(pt(3, 4), pt(90, -17), 6);
    let r = stroke_shift(pt(90, -17), pt(3, 4), 6);
    assert_eq!(r, pt(-s.x, -s.y));
}

#[test]
fn outline_is_spine_then_shifted_reverse() {
    let spine = vec![pt(0, 0), pt(10, 0), pt(10, 10)];
    let outline = stroke_outline(&spine, pt(1, -1));
    assert_eq!(
        outline,
        vec![pt(0, 0), pt(10, 0), pt(10, 10), pt(11, 9), pt(11, -1), pt(1, -1)]
    );
}

#[test]
fn outline_has_twice_the_spine_vertices() {
    let spine = vec![pt(0, 0), pt(5, 5), pt(9, 2), pt(-3, 7)];
    let outline = stroke_outline(&spine, pt(0, 3));
    assert_eq!(outline.len(), 2 * spine.len());
    assert_eq!(outline[0], spine[0]);
    assert_eq!(*outline.last().unwrap(), pt(0, 3));
}

#[test]
fn outline_of_empty_spine_is_empty() {
    let outline = stroke_outline(&Vec::new(), pt(0, 1));
    assert!(outline.is_empty());
}

#[test]
fn line_new_has_default_style() {
    let l = Line::new();
    assert!(l.points.is_empty());
    assert_eq!(l.width, 1);
    assert_eq!(
        l.color,
        NormColor { r_num: 0, g_num: 0, b_num: 0, alpha: ALPHA_ONE }
    );
}

#[test]
fn line_default_matches_new() {
    let l = Line::default();
    assert!(l.points.is_empty());
    assert_eq!(l.width, 1);
}

#[test]
fn line_builders_set_fields() {
    let c = NormColor { r_num: 10, g_num: 20, b_num: 30, alpha: 40 };
    let mut l = Line::between_points(pt(1, 2), pt(3, 4)).width(9).color(c);
    assert_eq!(l.points, vec![pt(1, 2), pt(3, 4)]);
    assert_eq!(l.width, 9);
    assert_eq!(l.color, c);
    l.add_point(pt(5, 6));
    assert_eq!(l.points, vec![pt(1, 2), pt(3, 4), pt(5, 6)]);
}

#[test]
fn empty_line_renders_nothing() {
    let l = Line::new();
    assert!(l.render_pixels().is_empty());
}

#[test]
fn single_point_line_renders_nothing() {
    let mut l = Line::new();
    l.add_point(pt(4, 4));
    assert!(l.render_pixels().is_empty());
}

#[test]
fn two_point_line_renders_one_band() {
    let l = Line::between_points(pt(0, 0), pt(100, 0)).width(4);
    let ops = l.render_pixels();
    assert_eq!(ops.len(), 1);
    assert_eq!(
        fill_vertices(&ops[0]),
        vec![pt(0, 0), pt(100, 0), pt(100, -4), pt(0, -4)]
    );
}

#[test]
fn reversed_line_strokes_the_other_side() {
    // the reversed spine's outline holds the forward outline's vertices
    // translated by the flipped shift
    let forward = Line::between_points(pt(0, 0), pt(100, 0)).width(4);
    let backward = Line::between_points(pt(100, 0), pt(0, 0)).width(4);
    let mut fwd: Vec<Point> = fill_vertices(&forward.render_pixels()[0])
        .iter()
        .map(|p| pt(p.x, p.y + 4))
        .collect();
    let mut bwd = fill_vertices(&backward.render_pixels()[0]);
    fwd.sort_by_key(|p| (p.x, p.y));
    bwd.sort_by_key(|p| (p.x, p.y));
    assert_eq!(fwd, bwd);
}

#[test]
fn degenerate_two_point_line_still_paints_one_region() {
    let l = Line::between_points(pt(5, 5), pt(5, 5)).width(4);
    let ops = l.render_pixels();
    assert_eq!(ops.len(), 1);
    let vs = fill_vertices(&ops[0]);
    assert_eq!(vs.len(), 4);
    assert_eq!(vs[0], pt(5, 5));
    assert_eq!(vs, vec![pt(5, 5), pt(5, 5), pt(5, 9), pt(5, 9)]);
}

#[test]
fn zero_width_line_renders_flat_band() {
    let l = Line::between_points(pt(0, 0), pt(10, 0)).width(0);
    let ops = l.render_pixels();
    assert_eq!(ops.len(), 1);
    assert_eq!(
        fill_vertices(&ops[0]),
        vec![pt(0, 0), pt(10, 0), pt(10, 0), pt(0, 0)]
    );
}
