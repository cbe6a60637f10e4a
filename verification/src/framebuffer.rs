//! The cell grid: a fixed-size row-major grid of (glyph, color) cells
//! with a single bounds-checked write entry point.

use vstd::prelude::*;

use crate::drawing::Color;

verus! {

/// The glyph of a blank cell.
pub open spec fn blank_glyph() -> char {
    ' '
}

/// The color of a blank cell: black.
pub open spec fn black() -> Color {
    Color(0, 0, 0)
}

/// The row-major index of cell (x, y) in a grid of the given width.
pub open spec fn cell_index(x: int, y: int, width: int) -> int {
    x + y * width
}

/// A 2-D grid of (glyph, color) cells, stored row-major. All writes go
/// through `set`, which ignores out-of-bounds coordinates.
pub struct Framebuffer {
    width: usize,
    height: usize,
    glyphs: Vec<char>,
    colors: Vec<Color>,
}

impl Framebuffer {
    /// Both backing vectors hold exactly width * height cells.
    pub closed spec fn wf(&self) -> bool {
        &&& self.glyphs@.len() == self.width * self.height
        &&& self.colors@.len() == self.width * self.height
    }

    pub closed spec fn spec_width(&self) -> int {
        self.width as int
    }

    pub closed spec fn spec_height(&self) -> int {
        self.height as int
    }

    /// The glyph of every cell, row-major.
    pub closed spec fn glyph_seq(&self) -> Seq<char> {
        self.glyphs@
    }

    /// The color of every cell, row-major.
    pub closed spec fn color_seq(&self) -> Seq<Color> {
        self.colors@
    }

    /// Whether (x, y) lands inside the grid.
    pub open spec fn in_bounds(&self, x: int, y: int) -> bool {
        0 <= x < self.spec_width() && 0 <= y < self.spec_height()
    }

    /// Every cell is blank: the default glyph with the default color.
    pub open spec fn all_blank(&self) -> bool {
        &&& forall|i: int|
            0 <= i < self.glyph_seq().len() ==> self.glyph_seq()[i] == blank_glyph()
        &&& forall|i: int| 0 <= i < self.color_seq().len() ==> self.color_seq()[i] == black()
    }

    pub fn width(&self) -> (w: usize)
        ensures
            w == self.spec_width(),
    {
        self.width
    }

    pub fn height(&self) -> (h: usize)
        ensures
            h == self.spec_height(),
    {
        self.height
    }

    proof fn lemma_area_fits(&self)
        requires
            self.wf(),
        ensures
            self.width * self.height <= usize::MAX,
    {
        assert(vstd::std_specs::vec::spec_vec_len(&self.glyphs) == self.glyphs@.len());
    }

    /// Allocates a grid of blank cells.
    pub fn new(width: usize, height: usize) -> (fb: Framebuffer)
        requires
            width * height <= usize::MAX,
        ensures
            fb.wf(),
            fb.spec_width() == width,
            fb.spec_height() == height,
            fb.glyph_seq().len() == width * height,
            fb.color_seq().len() == width * height,
            fb.all_blank(),
    {
        let n: usize = width * height;
        let mut glyphs: Vec<char> = Vec::new();
        let mut colors: Vec<Color> = Vec::new();
        let mut i: usize = 0;
        while i < n
            invariant
                i <= n,
                glyphs@.len() == i,
                colors@.len() == i,
                forall|j: int| 0 <= j < i ==> glyphs@[j] == blank_glyph(),
                forall|j: int| 0 <= j < i ==> colors@[j] == black(),
            decreases n - i,
        {
            glyphs.push(' ');
            colors.push(Color(0, 0, 0));
            i += 1;
        }
        Framebuffer { width, height, glyphs, colors }
    }

    /// Resets every cell to blank.
    pub fn clear(&mut self)
        requires
            old(self).wf(),
        ensures
            final(self).wf(),
            final(self).spec_width() == old(self).spec_width(),
            final(self).spec_height() == old(self).spec_height(),
            final(self).glyph_seq().len() == old(self).glyph_seq().len(),
            final(self).color_seq().len() == old(self).color_seq().len(),
            final(self).all_blank(),
    {
        let n: usize = self.glyphs.len();
        let mut i: usize = 0;
        while i < n
            invariant
                i <= n,
                self.wf(),
                self.width == old(self).width,
                self.height == old(self).height,
                n == self.glyphs@.len(),
                n == self.colors@.len(),
                forall|j: int| 0 <= j < i ==> self.glyphs@[j] == blank_glyph(),
                forall|j: int| 0 <= j < i ==> self.colors@[j] == black(),
            decreases n - i,
        {
            self.glyphs[i] = ' ';
            self.colors[i] = Color(0, 0, 0);
            i += 1;
        }
    }

    /// Writes one cell; a total no-op when (x, y) is out of bounds.
    /// This is the only mutation path besides `clear`.
    pub fn set(&mut self, x: i64, y: i64, glyph: char, color: Color)
        requires
            old(self).wf(),
        ensures
            final(self).wf(),
            final(self).spec_width() == old(self).spec_width(),
            final(self).spec_height() == old(self).spec_height(),
            old(self).in_bounds(x as int, y as int) ==> {
                &&& final(self).glyph_seq() == old(self).glyph_seq().update(
                    cell_index(x as int, y as int, old(self).spec_width()),
                    glyph,
                )
                &&& final(self).color_seq() == old(self).color_seq().update(
                    cell_index(x as int, y as int, old(self).spec_width()),
                    color,
                )
            },
            !old(self).in_bounds(x as int, y as int) ==> *final(self) == *old(self),
    {
        if x >= 0 && y >= 0 && (x as u64) < (self.width as u64) && (y as u64) < (self.height
            as u64) {
            let xi: usize = x as usize;
            let yi: usize = y as usize;
            proof {
                self.lemma_area_fits();
                assert(xi + yi * self.width < self.width * self.height) by (nonlinear_arith)
                    requires
                        xi < self.width,
                        yi < self.height,
                        0 <= xi,
                        0 <= yi,
                ;
            }
            let idx: usize = xi + yi * self.width;
            self.glyphs[idx] = glyph;
            self.colors[idx] = color;
        }
    }

    /// The two backing sequences have the same length: the grid area.
    pub proof fn lemma_wf_lens(&self)
        requires
            self.wf(),
        ensures
            self.glyph_seq().len() == self.color_seq().len(),
            self.glyph_seq().len() == self.spec_width() * self.spec_height(),
    {
    }

    /// Writes one cell by its row-major index; used by the renderer for
    /// text overlays.
    pub(crate) fn set_index(&mut self, i: usize, glyph: char, color: Color)
        requires
            old(self).wf(),
            i < old(self).glyph_seq().len(),
            i < old(self).color_seq().len(),
        ensures
            final(self).wf(),
            final(self).spec_width() == old(self).spec_width(),
            final(self).spec_height() == old(self).spec_height(),
            final(self).glyph_seq() == old(self).glyph_seq().update(i as int, glyph),
            final(self).color_seq() == old(self).color_seq().update(i as int, color),
    {
        self.glyphs[i] = glyph;
        self.colors[i] = color;
    }

    /// Reads one cell's glyph by its row-major index.
    pub fn glyph_at_index(&self, i: usize) -> (g: char)
        requires
            self.wf(),
            i < self.glyph_seq().len(),
        ensures
            g == self.glyph_seq()[i as int],
    {
        self.glyphs[i]
    }

    /// Reads one cell's color by its row-major index.
    pub fn color_at_index(&self, i: usize) -> (c: Color)
        requires
            self.wf(),
            i < self.color_seq().len(),
        ensures
            c == self.color_seq()[i as int],
    {
        self.colors[i]
    }

    /// The number of cells.
    pub fn len(&self) -> (n: usize)
        requires
            self.wf(),
        ensures
            n == self.glyph_seq().len(),
            n == self.color_seq().len(),
            n == self.spec_width() * self.spec_height(),
    {
        self.glyphs.len()
    }

    /// Reads one cell's glyph.
    pub fn glyph_at(&self, x: usize, y: usize) -> (g: char)
        requires
            self.wf(),
            self.in_bounds(x as int, y as int),
        ensures
            g == self.glyph_seq()[cell_index(x as int, y as int, self.spec_width())],
    {
        proof {
            self.lemma_area_fits();
            assert(x + y * self.width < self.width * self.height) by (nonlinear_arith)
                requires
                    x < self.width,
                    y < self.height,
                    0 <= x,
                    0 <= y,
            ;
        }
        self.glyphs[x + y * self.width]
    }

    /// Reads one cell's color.
    pub fn color_at(&self, x: usize, y: usize) -> (c: Color)
        requires
            self.wf(),
            self.in_bounds(x as int, y as int),
        ensures
            c == self.color_seq()[cell_index(x as int, y as int, self.spec_width())],
    {
        proof {
            self.lemma_area_fits();
            assert(x + y * self.width < self.width * self.height) by (nonlinear_arith)
                requires
                    x < self.width,
                    y < self.height,
                    0 <= x,
                    0 <= y,
            ;
        }
        self.colors[x + y * self.width]
    }
}

} // verus!
