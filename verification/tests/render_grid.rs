use termraster::drawing::Color;
use termraster::framebuffer::Framebuffer;
use termraster::render::Render;
use termraster::render::RenderMode;

fn grid_snapshot(fb: &Framebuffer) -> Vec<(char, Color)> {
    let mut v: Vec<(char, Color)> = Vec::new();
    for y in 0..fb.height() {
        for x in 0..fb.width() {
            v.push((fb.glyph_at(x, y), fb.color_at(x, y)));
        }
    }
    v
}

#[test]
fn new_framebuffer_is_blank() {
    let fb = Framebuffer::new(4, 3);
    for (g, c) in grid_snapshot(&fb) {
        assert_eq!(g, ' ');
        assert!(c == Color(0, 0, 0));
    }
}

#[test]
fn set_writes_one_cell() {
    let mut fb = Framebuffer::new(4, 3);
    fb.set(2, 1, 'x', Color(10, 20, 30));
    assert_eq!(fb.glyph_at(2, 1), 'x');
    assert!(fb.color_at(2, 1) == Color(10, 20, 30));
    assert_eq!(fb.glyph_at(1, 2), ' ');
}

#[test]
fn set_out_of_bounds_is_total_noop() {
    let mut fb = Framebuffer::new(4, 3);
    fb.set(1, 1, 'x', Color(1, 1, 1));
    let before = grid_snapshot(&fb);
    fb.set(-1, 0, 'z', Color(2, 2, 2));
    fb.set(0, -1, 'z', Color(2, 2, 2));
    fb.set(4, 0, 'z', Color(2, 2, 2));
    fb.set(0, 3, 'z', Color(2, 2, 2));
    fb.set(i64::MIN, i64::MAX, 'z', Color(2, 2, 2));
    let after = grid_snapshot(&fb);
    assert_eq!(before.len(), after.len());
    for (a, b) in before.iter().zip(after.iter()) {
        assert_eq!(a.0, b.0);
        assert!(a.1 == b.1);
    }
}

#[test]
fn clear_resets_every_cell() {
    let mut fb = Framebuffer::new(3, 3);
    fb.set(0, 0, 'a', Color(5, 5, 5));
    fb.set(2, 2, 'b', Color(6, 6, 6));
    fb.clear();
    for (g, c) in grid_snapshot(&fb) {
        assert_eq!(g, ' ');
        assert!(c == Color(0, 0, 0));
    }
}

fn escape_count(s: &str) -> usize {
    s.chars().filter(|&c| c == '\u{1b}').count()
}

#[test]
fn cleared_blocks_draw_emits_exactly_one_escape() {
    // Round trip: clear then draw on an untouched grid emits exactly one
    // color escape, whatever the grid dimensions.
    for &(w, h) in &[(1u16, 1u16), (10, 4), (3, 7), (80, 25)] {
        let mut r = Render::new(w, h, 1, 1, RenderMode::Blocks);
        r.clear();
        let out: String = r.draw().into_iter().collect();
        assert_eq!(escape_count(&out), 1, "grid {}x{}", w, h);
    }
}

#[test]
fn blocks_draw_exact_encoding_small_grid() {
    let r = Render::new(2, 1, 1, 1, RenderMode::Blocks);
    let out: String = r.draw().into_iter().collect();
    assert_eq!(out, "\u{1b}[38;2;0;0;0m  ");
}

#[test]
fn blocks_draw_escape_per_color_transition() {
    let mut r = Render::new(4, 1, 1, 1, RenderMode::Blocks);
    // Rows 0 and 1 pack into terminal row 0 in blocks mode.
    r.plot_point(1, 0, &Color(255, 0, 0));
    r.plot_point(2, 0, &Color(255, 0, 0));
    let out: String = r.draw().into_iter().collect();
    // black, red, red, black: three transitions.
    assert_eq!(escape_count(&out), 3);
    assert!(out.contains("\u{1b}[38;2;255;0;0m"));
}

#[test]
fn ascii_draw_emits_bare_glyphs() {
    let mut r = Render::new(3, 2, 1, 1, RenderMode::Ascii);
    r.plot_point(1, 1, &Color(255, 255, 255));
    let out: String = r.draw().into_iter().collect();
    assert_eq!(out.len(), 6);
    assert_eq!(escape_count(&out), 0);
}

#[test]
fn ascii_plot_scales_row_and_picks_gradient_glyph() {
    // 4x4 grid with unit aspect: the mapper is the identity. White has
    // full brightness and picks the densest glyph.
    let mut r = Render::new(4, 4, 1, 1, RenderMode::Ascii);
    r.plot_point(2, 3, &Color(255, 255, 255));
    assert_eq!(r.framebuffer().glyph_at(2, 3), '$');
    // Black sits at the other end of the gradient: the blank.
    r.plot_point(1, 2, &Color(0, 0, 0));
    assert_eq!(r.framebuffer().glyph_at(1, 2), ' ');
}

#[test]
fn ascii_plot_rejects_row_zero_and_out_of_range() {
    let mut r = Render::new(4, 4, 1, 1, RenderMode::Ascii);
    r.plot_point(1, 0, &Color(255, 255, 255));
    r.plot_point(-1, 2, &Color(255, 255, 255));
    r.plot_point(4, 2, &Color(255, 255, 255));
    r.plot_point(1, 4, &Color(255, 255, 255));
    for y in 0..4 {
        for x in 0..4 {
            assert_eq!(r.framebuffer().glyph_at(x, y), ' ');
        }
    }
}

#[test]
fn ascii_plot_applies_aspect_scale() {
    // 8 columns, 4 rows, square pixels: the scale is 4/8, so drawing row
    // y lands on terminal row y/2.
    let mut r = Render::new(8, 4, 1, 1, RenderMode::Ascii);
    r.plot_point(3, 5, &Color(255, 255, 255));
    assert_eq!(r.framebuffer().glyph_at(3, 2), '$');
}

#[test]
fn blocks_plot_packs_two_rows_per_cell() {
    let mut r = Render::new(4, 2, 1, 1, RenderMode::Blocks);
    r.plot_point(1, 2, &Color(9, 9, 9));
    assert_eq!(r.framebuffer().glyph_at(1, 1), '\u{2580}');
    r.plot_point(1, 3, &Color(9, 9, 9));
    assert_eq!(r.framebuffer().glyph_at(1, 1), '\u{2588}');
    // The lower half first, in another cell.
    r.plot_point(2, 1, &Color(9, 9, 9));
    assert_eq!(r.framebuffer().glyph_at(2, 0), '\u{2584}');
    assert!(r.framebuffer().color_at(2, 0) == Color(9, 9, 9));
}

#[test]
fn blocks_plot_out_of_range_is_noop() {
    let mut r = Render::new(4, 2, 1, 1, RenderMode::Blocks);
    r.plot_point(-1, 0, &Color(9, 9, 9));
    r.plot_point(0, -1, &Color(9, 9, 9));
    r.plot_point(4, 0, &Color(9, 9, 9));
    r.plot_point(0, 4, &Color(9, 9, 9));
    for y in 0..2 {
        for x in 0..4 {
            assert_eq!(r.framebuffer().glyph_at(x, y), ' ');
        }
    }
}

#[test]
fn put_writes_text_on_second_to_last_row() {
    let mut r = Render::new(5, 3, 1, 1, RenderMode::Blocks);
    r.put(b"AB");
    assert_eq!(r.framebuffer().glyph_at(0, 1), 'A');
    assert_eq!(r.framebuffer().glyph_at(1, 1), 'B');
    assert!(r.framebuffer().color_at(0, 1) == Color(255, 255, 255));
    assert_eq!(r.framebuffer().glyph_at(2, 1), ' ');
}

#[test]
fn circle_on_grid_through_mapper() {
    // A 10x4 grid with unit aspect, radius 3 around (5, 2). In
    // blocks mode a plotted row y lands in cell row y/2;
    // plotting both halves of a cell upgrades it to the full block.
    let mut r = Render::new(10, 4, 1, 1, RenderMode::Blocks);
    termraster::drawing::circle(&mut r, 5, 2, 3, &Color(200, 10, 10));
    let fb = r.framebuffer();
    // (8,2) then (8,3): upper half, then the lower completes the block.
    assert_eq!(fb.glyph_at(8, 1), '\u{2588}');
    // (2,2) then (2,3): the mirror image on the left.
    assert_eq!(fb.glyph_at(2, 1), '\u{2588}');
    // (5,5): only the lower half of cell (5,2).
    assert_eq!(fb.glyph_at(5, 2), '\u{2584}');
    // (7,0): the upper half of cell (7,0).
    assert_eq!(fb.glyph_at(7, 0), '\u{2580}');
    assert!(fb.color_at(8, 1) == Color(200, 10, 10));
    // A cell the ring never touches stays blank.
    assert_eq!(fb.glyph_at(0, 0), ' ');
}

#[test]
fn render_zero_pixel_geometry_defaults_scale_to_one() {
    // A zero pixel measurement falls back to a scale of 1: the mapper
    // behaves as with unit aspect.
    let mut r = Render::new(4, 4, 0, 0, RenderMode::Ascii);
    r.plot_point(2, 3, &Color(255, 255, 255));
    assert_eq!(r.framebuffer().glyph_at(2, 3), '$');
}
