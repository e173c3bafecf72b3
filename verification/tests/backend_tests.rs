use plotters_gpui::backend::{
    coord_to_point, DrawBackend, HPos, LayoutBox, StrokeStyle, TextStyle, VPos,
};
use plotters_gpui::canvas::PaintOp;
use plotters_gpui::color::{InputColor, NormColor, ALPHA_ONE};
use plotters_gpui::geometry::Point;

fn pt(x: i64, y: i64) -> Point {
    Point { x, y }
}

fn red() -> InputColor {
    InputColor { r: 255, g: 0, b: 0, alpha: ALPHA_ONE }
}

fn norm_red() -> NormColor {
    NormColor { r_num: 255, g_num: 0, b_num: 0, alpha: ALPHA_ONE }
}

fn style(width: u32) -> StrokeStyle {
    StrokeStyle { color: red(), stroke_width: width }
}

fn fill_parts(op: &PaintOp) -> (Vec<Point>, NormColor) {
    match op {
        PaintOp::FillPolygon { vertices, color } => (vertices.clone(), *color),
        _ => panic!("expected a fill operation"),
    }
}

fn backend() -> DrawBackend {
    DrawBackend::new(pt(0, 0), 640, 480)
}

#[test]
fn get_size_returns_the_canvas_size() {
    let b = DrawBackend::new(pt(10, 20), 800, 600);
    assert_eq!(b.get_size(), (800, 600));
}

#[test]
fn ensure_prepared_and_present_paint_nothing() {
    let b = backend();
    assert!(b.ensure_prepared().is_empty());
    assert!(b.present().is_empty());
}

#[test]
fn coord_to_point_adds_the_origin() {
    let p = coord_to_point(pt(10, 20), (3, -4));
    assert_eq!(p, pt(13, 16));
}

#[test]
fn draw_pixel_fills_one_unit_square() {
    let b = DrawBackend::new(pt(100, 200), 640, 480);
    let ops = b.draw_pixel((5, 6), red());
    assert_eq!(ops.len(), 1);
    let (vs, c) = fill_parts(&ops[0]);
    assert_eq!(vs, vec![pt(105, 206), pt(106, 206), pt(106, 207), pt(105, 207)]);
    assert_eq!(c, norm_red());
}

#[test]
fn horizontal_line_fills_the_expected_band() {
    // drawing (0,0) to (100,0) with width 4 gives the rectangle
    // (0,0) (100,0) (100,-4) (0,-4): the band lies on the shift side
    let b = backend();
    let ops = b.draw_line((0, 0), (100, 0), style(4));
    assert_eq!(ops.len(), 1);
    let (vs, c) = fill_parts(&ops[0]);
    assert_eq!(vs, vec![pt(0, 0), pt(100, 0), pt(100, -4), pt(0, -4)]);
    assert_eq!(c, norm_red());
}

#[test]
fn line_respects_the_origin() {
    let b = DrawBackend::new(pt(7, 11), 640, 480);
    let ops = b.draw_line((0, 0), (100, 0), style(4));
    let (vs, _) = fill_parts(&ops[0]);
    assert_eq!(vs, vec![pt(7, 11), pt(107, 11), pt(107, 7), pt(7, 7)]);
}

#[test]
fn zero_length_line_fills_one_region_touching_the_point() {
    let b = backend();
    let ops = b.draw_line((5, 5), (5, 5), style(4));
    assert_eq!(ops.len(), 1);
    let (vs, _) = fill_parts(&ops[0]);
    assert_eq!(vs.len(), 4);
    assert!(vs.contains(&pt(5, 5)));
    assert_eq!(vs[0], pt(5, 5));
}

#[test]
fn filled_rect_is_one_fill_with_the_four_corners() {
    let b = backend();
    // the stroke width must play no part in a filled rectangle
    let ops = b.draw_rect((2, 3), (12, 23), style(7), true);
    assert_eq!(ops.len(), 1);
    let (vs, c) = fill_parts(&ops[0]);
    assert_eq!(vs, vec![pt(2, 3), pt(2, 23), pt(12, 23), pt(12, 3)]);
    assert_eq!(c, norm_red());
}

#[test]
fn unfilled_rect_is_four_independent_edge_strokes() {
    let b = backend();
    let ops = b.draw_rect((0, 0), (10, 8), style(7), false);
    assert_eq!(ops.len(), 4);
    // each edge is a two-point spine, so each outline has four vertices,
    // stroked with the default width of one pixel
    let (e1, _) = fill_parts(&ops[0]);
    assert_eq!(e1, vec![pt(0, 0), pt(10, 0), pt(10, -1), pt(0, -1)]);
    let (e2, _) = fill_parts(&ops[1]);
    assert_eq!(e2, vec![pt(10, 0), pt(10, 8), pt(11, 8), pt(11, 0)]);
    let (e3, _) = fill_parts(&ops[2]);
    assert_eq!(e3, vec![pt(10, 8), pt(0, 8), pt(0, 9), pt(10, 9)]);
    let (e4, _) = fill_parts(&ops[3]);
    assert_eq!(e4, vec![pt(0, 8), pt(0, 0), pt(-1, 0), pt(-1, 8)]);
}

#[test]
fn empty_path_paints_nothing() {
    let b = backend();
    let ops = b.draw_path(&Vec::new(), style(2));
    assert!(ops.is_empty());
}

#[test]
fn single_point_path_paints_nothing() {
    let b = backend();
    let ops = b.draw_path(&vec![(4, 4)], style(2));
    assert!(ops.is_empty());
}

#[test]
fn path_strokes_the_whole_spine_at_once() {
    let b = backend();
    let ops = b.draw_path(&vec![(0, 0), (10, 0), (10, 10)], style(2));
    assert_eq!(ops.len(), 1);
    let (vs, c) = fill_parts(&ops[0]);
    assert_eq!(
        vs,
        vec![pt(0, 0), pt(10, 0), pt(10, 10), pt(11, 9), pt(11, -1), pt(1, -1)]
    );
    assert_eq!(c, norm_red());
}

#[test]
fn fill_polygon_with_no_vertices_paints_nothing() {
    let b = backend();
    let ops = b.fill_polygon(&Vec::new(), style(1));
    assert!(ops.is_empty());
}

#[test]
fn fill_polygon_with_two_vertices_paints_nothing() {
    // fewer than three vertices cannot form a closed polygon, so the fill
    // primitive is never reached
    let b = backend();
    let ops = b.fill_polygon(&vec![(0, 0), (5, 5)], style(1));
    assert!(ops.is_empty());
}

#[test]
fn fill_polygon_fills_the_origin_shifted_vertices() {
    let b = DrawBackend::new(pt(3, 4), 640, 480);
    let ops = b.fill_polygon(&vec![(0, 0), (10, 0), (5, 8)], style(1));
    assert_eq!(ops.len(), 1);
    let (vs, c) = fill_parts(&ops[0]);
    assert_eq!(vs, vec![pt(3, 4), pt(13, 4), pt(8, 12)]);
    assert_eq!(c, norm_red());
}

#[test]
fn draw_text_anchors_center_bottom() {
    // a 10 x 20 text box anchored center/bottom at (50,50): its top-left
    // corner lands at (45,30), so the box's center-x and bottom-y meet the
    // anchor point
    let b = backend();
    let text_style = TextStyle {
        size: 16,
        color: red(),
        h_pos: HPos::Center,
        v_pos: VPos::Bottom,
    };
    let layout = LayoutBox { min_x: 0, min_y: 0, max_x: 10, max_y: 20 };
    let ops = b.draw_text("X", text_style, (50, 50), layout);
    assert_eq!(ops.len(), 1);
    match &ops[0] {
        PaintOp::PaintText { op } => {
            assert_eq!(op.text, "X");
            assert_eq!(op.size, 16);
            assert_eq!(op.color, norm_red());
            assert_eq!(op.position, pt(45, 30));
        }
        _ => panic!("expected a text operation"),
    }
}

#[test]
fn draw_text_centers_an_odd_box_by_half_rounded_down() {
    let b = backend();
    let text_style = TextStyle {
        size: 12,
        color: red(),
        h_pos: HPos::Center,
        v_pos: VPos::Center,
    };
    let layout = LayoutBox { min_x: 0, min_y: 0, max_x: 11, max_y: 7 };
    let ops = b.draw_text("odd", text_style, (50, 50), layout);
    match &ops[0] {
        PaintOp::PaintText { op } => assert_eq!(op.position, pt(45, 47)),
        _ => panic!("expected a text operation"),
    }
}

#[test]
fn draw_text_anchor_offsets() {
    let b = backend();
    let layout = LayoutBox { min_x: 2, min_y: 3, max_x: 12, max_y: 23 };
    let cases = [
        (HPos::Left, VPos::Top, pt(50, 50)),
        (HPos::Right, VPos::Bottom, pt(40, 30)),
        (HPos::Center, VPos::Center, pt(45, 40)),
    ];
    for (h, v, expected) in cases {
        let text_style = TextStyle { size: 12, color: red(), h_pos: h, v_pos: v };
        let ops = b.draw_text("hi", text_style, (50, 50), layout);
        match &ops[0] {
            PaintOp::PaintText { op } => assert_eq!(op.position, expected),
            _ => panic!("expected a text operation"),
        }
    }
}
