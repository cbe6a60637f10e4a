use termraster::drawing::circle;
use termraster::drawing::pixel;
use termraster::drawing::Color;
use termraster::drawing::PlotRecorder;
use termraster::display::draw_circle;
use termraster::display::draw_line;
use termraster::display::GlyphRecorder;

fn recorded(rec: &PlotRecorder) -> Vec<(i64, i64)> {
    let mut v: Vec<(i64, i64)> = Vec::new();
    for i in 0..rec.len() {
        let p = rec.get(i);
        v.push((p.0, p.1));
    }
    v
}

fn recorded_glyphs(rec: &GlyphRecorder) -> Vec<(i64, i64, char)> {
    let mut v: Vec<(i64, i64, char)> = Vec::new();
    for i in 0..rec.len() {
        v.push(rec.get(i));
    }
    v
}

#[test]
fn pixel_plots_one_point() {
    let mut rec = PlotRecorder::new();
    pixel(&mut rec, 3, -7, &Color(9, 8, 7));
    assert_eq!(rec.len(), 1);
    let p = rec.get(0);
    assert_eq!((p.0, p.1), (3, -7));
    assert!(p.2 == Color(9, 8, 7));
}

#[test]
fn line_horizontal_counts() {
    let mut rec = PlotRecorder::new();
    termraster::drawing::line(&mut rec, 0, 5, 2, 2, &Color(1, 2, 3));
    let pts = recorded(&rec);
    assert_eq!(pts, vec![(0, 2), (1, 2), (2, 2), (3, 2), (4, 2)]);
}

#[test]
fn line_plots_one_point_per_column() {
    // One point per integer x in [x0, x1), for several slopes.
    for &(x0, x1, y0, y1) in &[
        (0i64, 7i64, 0i64, 3i64),
        (0, 7, 3, 0),
        (-3, 4, -2, 9),
        (2, 12, 5, 5),
        (0, 5, 0, 40),
    ] {
        let mut rec = PlotRecorder::new();
        termraster::drawing::line(&mut rec, x0, x1, y0, y1, &Color(0, 0, 0));
        let pts = recorded(&rec);
        assert_eq!(pts.len() as i64, x1 - x0, "count for {:?}", (x0, x1, y0, y1));
        for (i, p) in pts.iter().enumerate() {
            assert_eq!(p.0, x0 + i as i64, "x coverage for {:?}", (x0, x1, y0, y1));
        }
    }
}

#[test]
fn line_rows_monotonic_in_slope_sign() {
    for &(x0, x1, y0, y1) in &[(0i64, 9i64, 0i64, 4i64), (0, 9, 4, 0), (0, 6, -1, 11), (0, 6, 11, -1)] {
        let mut rec = PlotRecorder::new();
        termraster::drawing::line(&mut rec, x0, x1, y0, y1, &Color(0, 0, 0));
        let pts = recorded(&rec);
        for w in pts.windows(2) {
            if y1 >= y0 {
                assert!(w[0].1 <= w[1].1, "nondecreasing for {:?}", (x0, x1, y0, y1));
            } else {
                assert!(w[0].1 >= w[1].1, "nonincreasing for {:?}", (x0, x1, y0, y1));
            }
        }
    }
}

#[test]
fn line_empty_when_endpoints_reversed() {
    // The walk runs x from x0 up to x1: with the endpoints swapped it
    // plots nothing, so endpoint order matters by contract.
    let mut fwd = PlotRecorder::new();
    termraster::drawing::line(&mut fwd, 0, 3, 0, 2, &Color(0, 0, 0));
    assert_eq!(recorded(&fwd), vec![(0, 0), (1, 0), (2, 1)]);
    let mut rev = PlotRecorder::new();
    termraster::drawing::line(&mut rev, 3, 0, 2, 0, &Color(0, 0, 0));
    assert_eq!(rev.len(), 0);
}

fn reference_circle_r3(cx: i64, cy: i64) -> Vec<(i64, i64)> {
    // Hand-computed midpoint walk for radius 3: octant pairs
    // (0,3), (1,3), (2,2), reflected eight ways around the center.
    let mut v: Vec<(i64, i64)> = Vec::new();
    for &(x, y) in &[(0i64, 3i64), (1, 3), (2, 2)] {
        v.push((cx + x, cy + y));
        v.push((cx + x, cy - y));
        v.push((cx - x, cy + y));
        v.push((cx - x, cy - y));
        v.push((cx + y, cy + x));
        v.push((cx + y, cy - x));
        v.push((cx - y, cy + x));
        v.push((cx - y, cy - x));
    }
    v
}

#[test]
fn circle_radius_three_matches_reference() {
    // On a 10x4 grid with unit aspect the mapper is the identity,
    // so the plot calls themselves are the cell targets.
    let mut rec = PlotRecorder::new();
    circle(&mut rec, 5, 2, 3, &Color(0, 0, 0));
    let pts = recorded(&rec);
    let expected = reference_circle_r3(5, 2);
    assert_eq!(pts.len(), 24);
    assert_eq!(pts, expected);
}

#[test]
fn circle_point_set_has_eightfold_symmetry() {
    for &r in &[1i64, 2, 3, 5, 8, 13] {
        let mut rec = PlotRecorder::new();
        circle(&mut rec, 0, 0, r, &Color(0, 0, 0));
        let pts = recorded(&rec);
        assert!(!pts.is_empty());
        let contains = |p: (i64, i64)| pts.iter().any(|&q| q == p);
        for &(a, b) in &pts {
            assert!(contains((-a, b)), "x mirror for r={}", r);
            assert!(contains((a, -b)), "y mirror for r={}", r);
            assert!(contains((b, a)), "swap for r={}", r);
        }
    }
}

#[test]
fn circle_negative_radius_plots_nothing() {
    let mut rec = PlotRecorder::new();
    circle(&mut rec, 4, 4, -1, &Color(0, 0, 0));
    assert_eq!(rec.len(), 0);
}

#[test]
fn draw_line_matches_line_with_marker_glyph() {
    let mut rec = GlyphRecorder::new();
    draw_line(&mut rec, 0, 4, 1, 3);
    let pts = recorded_glyphs(&rec);
    let mut colored = PlotRecorder::new();
    termraster::drawing::line(&mut colored, 0, 4, 1, 3, &Color(0, 0, 0));
    let reference = recorded(&colored);
    assert_eq!(pts.len(), reference.len());
    for (g, r) in pts.iter().zip(reference.iter()) {
        assert_eq!((g.0, g.1), *r);
        assert_eq!(g.2, '@');
    }
}

#[test]
fn draw_circle_matches_circle_with_marker_glyph() {
    let mut rec = GlyphRecorder::new();
    draw_circle(&mut rec, 5, 2, 3);
    let pts = recorded_glyphs(&rec);
    let expected = reference_circle_r3(5, 2);
    assert_eq!(pts.len(), expected.len());
    for (g, r) in pts.iter().zip(expected.iter()) {
        assert_eq!((g.0, g.1), *r);
        assert_eq!(g.2, '@');
    }
}
