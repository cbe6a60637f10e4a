//! The renderer: owns the framebuffer, maps drawing-space coordinates to
//! cells (aspect correction or vertical cell-doubling, chosen at
//! construction), and serializes the grid with run-length color escapes.

use vstd::prelude::*;

use crate::drawing::Color;
use crate::drawing::Display;
use crate::framebuffer::Framebuffer;
use crate::framebuffer::black;
use crate::framebuffer::cell_index;

verus! {

/// How plotted points become cells and how the grid is serialized.
#[derive(Clone, Copy, PartialEq, Eq, Structural, Debug)]
pub enum RenderMode {
    /// Brightness-gradient glyphs; the row is scaled by the aspect
    /// correction; output is the bare glyph grid.
    Ascii,
    /// Two logical rows per terminal row using half-block glyphs; output
    /// carries run-length compressed color escapes.
    Blocks,
}

/// The brightness gradient, brightest glyph first; the last glyph is the
/// blank.
pub open spec fn gradient_seq() -> Seq<char> {
    seq![
        '$', '@', 'B', '%', '8', '&', 'W', 'M', '#', '*', 'o', 'a', 'h', 'k', 'b', 'd', 'p', 'q',
        'w', 'm', 'Z', 'O', '0', 'Q', 'L', 'C', 'J', 'U', 'Y', 'X', 'z', 'c', 'v', 'u', 'n', 'x',
        'r', 'j', 'f', 't', '/', '\\', '|', '(', ')', '1', '{', '}', '[', ']', '?', '-', '_', '+',
        '~', '<', '>', 'i', '!', 'l', 'I', ';', ':', ',', '"', '^', '`', '\'', '.', ' ',
    ]
}

/// The gradient position of a color: full brightness (white) is 69, the
/// gradient's last step.
pub open spec fn brightness_index(c: Color) -> int {
    (c.0 + c.1 + c.2) * 69 / 765
}

/// The glyph the ascii mode draws for a color: dark colors pick dense
/// glyphs, bright colors sparse ones.
pub open spec fn ascii_glyph(c: Color) -> char {
    gradient_seq()[69 - brightness_index(c)]
}

/// The terminal row a drawing-space row lands on after aspect
/// correction: `y * num / den`, meaningful for `y > 0`.
pub open spec fn scaled_row(y: int, num: int, den: int) -> int {
    (y * num) / den
}

/// The upgrade of a half-block cell: plotting the other half of an
/// already half-set cell yields the full block; plotting an already
/// covered half, or over a full block, changes nothing.
pub open spec fn half_merge(cur: char, upper: bool) -> char {
    if cur == ' ' {
        if upper {
            '\u{2580}'
        } else {
            '\u{2584}'
        }
    } else if cur == '\u{2580}' {
        if !upper {
            '\u{2588}'
        } else {
            cur
        }
    } else if cur == '\u{2584}' {
        if upper {
            '\u{2588}'
        } else {
            cur
        }
    } else {
        cur
    }
}

/// The decimal digit character for one digit value.
pub open spec fn digit_char(d: int) -> char {
    if d == 0 {
        '0'
    } else if d == 1 {
        '1'
    } else if d == 2 {
        '2'
    } else if d == 3 {
        '3'
    } else if d == 4 {
        '4'
    } else if d == 5 {
        '5'
    } else if d == 6 {
        '6'
    } else if d == 7 {
        '7'
    } else if d == 8 {
        '8'
    } else {
        '9'
    }
}

/// The decimal digits of a color channel (0 to 255), without leading
/// zeros.
pub open spec fn dec3(n: int) -> Seq<char> {
    if n < 10 {
        seq![digit_char(n)]
    } else if n < 100 {
        seq![digit_char(n / 10), digit_char(n % 10)]
    } else {
        seq![digit_char(n / 100), digit_char((n / 10) % 10), digit_char(n % 10)]
    }
}

/// The truecolor foreground escape for a color: `ESC[38;2;{r};{g};{b}m`.
pub open spec fn color_escape(c: Color) -> Seq<char> {
    seq!['\u{1b}', '[', '3', '8', ';', '2', ';'] + dec3(c.0 as int) + seq![';'] + dec3(c.1 as int)
        + seq![';'] + dec3(c.2 as int) + seq!['m']
}

/// The serialized grid from cell `i` on, given the color of the last
/// emitted cell: a cell whose color matches the previous one emits its
/// glyph alone; any other cell emits a color escape first.
pub open spec fn encode_cells(
    glyphs: Seq<char>,
    colors: Seq<Color>,
    i: int,
    prev: Option<Color>,
) -> Seq<char>
    decreases colors.len() - i,
{
    if i >= colors.len() {
        Seq::empty()
    } else if prev != Some(colors[i]) {
        color_escape(colors[i]) + seq![glyphs[i]] + encode_cells(
            glyphs,
            colors,
            i + 1,
            Some(colors[i]),
        )
    } else {
        seq![glyphs[i]] + encode_cells(glyphs, colors, i + 1, prev)
    }
}

/// How many times a character occurs in a sequence.
pub open spec fn count_char(s: Seq<char>, ch: char) -> int
    decreases s.len(),
{
    if s.len() == 0 {
        0
    } else {
        (if s[0] == ch {
            1int
        } else {
            0int
        }) + count_char(s.drop_first(), ch)
    }
}

/// The renderer: the framebuffer, the coordinate-mapping parameters, and
/// the mode chosen at construction.
pub struct Render {
    fb: Framebuffer,
    mode: RenderMode,
    num: u32,
    den: u32,
    gradient: Vec<char>,
    history: Ghost<Seq<(int, int, Color)>>,
}

impl Render {
    /// The framebuffer is well formed, the scale ratio is positive, and
    /// the gradient table is the fixed one.
    pub closed spec fn wf(&self) -> bool {
        &&& self.fb.wf()
        &&& self.fb.spec_width() <= 0xFFFF
        &&& self.fb.spec_height() <= 0xFFFF
        &&& self.num >= 1
        &&& self.den >= 1
        &&& self.gradient@ == gradient_seq()
    }

    /// Whether an ascii-mode plot at (x, y) lands on a cell: the row is
    /// aspect-scaled first, and row zero and below is rejected.
    pub open spec fn ascii_hits(&self, x: int, y: int) -> bool {
        &&& y > 0
        &&& 0 <= x < self.spec_fb().spec_width()
        &&& scaled_row(y, self.scale_num(), self.scale_den()) < self.spec_fb().spec_height()
    }

    /// The cell an in-range ascii-mode plot at (x, y) writes.
    pub open spec fn ascii_index(&self, x: int, y: int) -> int {
        cell_index(
            x,
            scaled_row(y, self.scale_num(), self.scale_den()),
            self.spec_fb().spec_width(),
        )
    }

    /// Whether a blocks-mode plot at (x, y) lands on a cell: two logical
    /// rows per terminal row.
    pub open spec fn blocks_hits(&self, x: int, y: int) -> bool {
        &&& 0 <= x < self.spec_fb().spec_width()
        &&& 0 <= y
        &&& y / 2 < self.spec_fb().spec_height()
    }

    /// The cell an in-range blocks-mode plot at (x, y) writes.
    pub open spec fn blocks_index(&self, x: int, y: int) -> int {
        cell_index(x, y / 2, self.spec_fb().spec_width())
    }

    pub closed spec fn spec_mode(&self) -> RenderMode {
        self.mode
    }

    /// Numerator of the row scale factor: grid height times pixel height.
    pub closed spec fn scale_num(&self) -> int {
        self.num as int
    }

    /// Denominator of the row scale factor: grid width times pixel width.
    pub closed spec fn scale_den(&self) -> int {
        self.den as int
    }

    pub closed spec fn spec_fb(&self) -> Framebuffer {
        self.fb
    }

    /// The history of plot calls accepted through the `Display`
    /// capability.
    pub closed spec fn history_seq(&self) -> Seq<(int, int, Color)> {
        self.history@
    }

    pub fn mode(&self) -> (m: RenderMode)
        ensures
            m == self.spec_mode(),
    {
        self.mode
    }

    /// The grid, for reading cells back.
    pub fn framebuffer(&self) -> (fb: &Framebuffer)
        ensures
            fb == self.spec_fb(),
    {
        &self.fb
    }

    /// Builds a renderer for a terminal of `width` x `height` character
    /// cells whose full window measures `pixel_width` x `pixel_height`
    /// physical pixels. The row scale is the exact ratio
    /// `(height * pixel_height) / (width * pixel_width)`; a zero in any
    /// measurement (a failed geometry query) falls back to a scale of 1.
    pub fn new(width: u16, height: u16, pixel_width: u16, pixel_height: u16, mode: RenderMode) -> (r:
        Render)
        ensures
            r.wf(),
            r.spec_mode() == mode,
            r.spec_fb().spec_width() == width,
            r.spec_fb().spec_height() == height,
            r.spec_fb().all_blank(),
            r.spec_fb().glyph_seq().len() == width * height,
            r.spec_fb().color_seq().len() == width * height,
            r.history_seq() == Seq::<(int, int, Color)>::empty(),
            (width as int) * (pixel_width as int) >= 1 && (height as int) * (pixel_height as int)
                >= 1 ==> r.scale_num() == (height as int) * (pixel_height as int) && r.scale_den()
                == (width as int) * (pixel_width as int),
            (width as int) * (pixel_width as int) == 0 || (height as int) * (pixel_height as int)
                == 0 ==> r.scale_num() == 1 && r.scale_den() == 1,
    {
        proof {
            assert((height as int) * (pixel_height as int) <= 0xFFFF_FFFF && (width as int) * (
            pixel_width as int) <= 0xFFFF_FFFF && (width as int) * (height as int)
                <= 0xFFFF_FFFF) by (nonlinear_arith)
                requires
                    height <= 0xFFFF,
                    pixel_height <= 0xFFFF,
                    width <= 0xFFFF,
                    pixel_width <= 0xFFFF,
            ;
        }
        let num32: u32 = (height as u32) * (pixel_height as u32);
        let den32: u32 = (width as u32) * (pixel_width as u32);
        let (num, den): (u32, u32) = if num32 == 0 || den32 == 0 {
            (1, 1)
        } else {
            (num32, den32)
        };
        let fb = Framebuffer::new(width as usize, height as usize);
        Render { fb, mode, num, den, gradient: make_gradient(), history: Ghost(Seq::empty()) }
    }

    /// Resets every cell to blank. The plot history is unchanged.
    pub fn clear(&mut self)
        requires
            old(self).wf(),
        ensures
            final(self).wf(),
            final(self).spec_mode() == old(self).spec_mode(),
            final(self).scale_num() == old(self).scale_num(),
            final(self).scale_den() == old(self).scale_den(),
            final(self).history_seq() == old(self).history_seq(),
            final(self).spec_fb().spec_width() == old(self).spec_fb().spec_width(),
            final(self).spec_fb().spec_height() == old(self).spec_fb().spec_height(),
            final(self).spec_fb().glyph_seq().len() == old(self).spec_fb().glyph_seq().len(),
            final(self).spec_fb().color_seq().len() == old(self).spec_fb().color_seq().len(),
            final(self).spec_fb().all_blank(),
    {
        self.fb.clear();
    }

    /// Routes one plotted point into the grid, by the construction-time
    /// mode. Out-of-range points change no cell; every call is recorded
    /// in the plot history.
    pub fn plot_point(&mut self, x: i64, y: i64, color: &Color)
        requires
            old(self).wf(),
        ensures
            final(self).wf(),
            final(self).spec_mode() == old(self).spec_mode(),
            final(self).scale_num() == old(self).scale_num(),
            final(self).scale_den() == old(self).scale_den(),
            final(self).spec_fb().spec_width() == old(self).spec_fb().spec_width(),
            final(self).spec_fb().spec_height() == old(self).spec_fb().spec_height(),
            final(self).history_seq() == old(self).history_seq().push(
                (x as int, y as int, *color),
            ),
            old(self).spec_mode() == RenderMode::Ascii ==> {
                &&& old(self).ascii_hits(x as int, y as int) ==> final(self).spec_fb().glyph_seq()
                    == old(self).spec_fb().glyph_seq().update(
                    old(self).ascii_index(x as int, y as int),
                    ascii_glyph(*color),
                ) && final(self).spec_fb().color_seq() == old(self).spec_fb().color_seq().update(
                    old(self).ascii_index(x as int, y as int),
                    *color,
                )
                &&& !old(self).ascii_hits(x as int, y as int) ==> final(self).spec_fb().glyph_seq()
                    == old(self).spec_fb().glyph_seq() && final(self).spec_fb().color_seq() == old(
                    self,
                ).spec_fb().color_seq()
            },
            old(self).spec_mode() == RenderMode::Blocks ==> {
                &&& old(self).blocks_hits(x as int, y as int) ==> final(self).spec_fb().glyph_seq()
                    == old(self).spec_fb().glyph_seq().update(
                    old(self).blocks_index(x as int, y as int),
                    half_merge(
                        old(self).spec_fb().glyph_seq()[old(self).blocks_index(
                            x as int,
                            y as int,
                        )],
                        y as int % 2 == 0,
                    ),
                ) && final(self).spec_fb().color_seq() == old(self).spec_fb().color_seq().update(
                    old(self).blocks_index(x as int, y as int),
                    *color,
                )
                &&& !old(self).blocks_hits(x as int, y as int) ==> final(self).spec_fb().glyph_seq()
                    == old(self).spec_fb().glyph_seq() && final(self).spec_fb().color_seq() == old(
                    self,
                ).spec_fb().color_seq()
            },
    {
        match self.mode {
            RenderMode::Ascii => {
                let w: usize = self.fb.width();
                let h: usize = self.fb.height();
                if y > 0 && x >= 0 && (x as u64) < (w as u64) {
                    proof {
                        assert((y as int) * (self.num as int) <= 0x7FFF_FFFF_FFFF_FFFF
                            * 0x1_0000_0000) by (nonlinear_arith)
                            requires
                                0 < y <= 0x7FFF_FFFF_FFFF_FFFF,
                                0 < self.num <= 0xFFFF_FFFF,
                        ;
                    }
                    let srow128: i128 = (y as i128) * (self.num as i128) / (self.den as i128);
                    if srow128 < h as i128 {
                        let srow: i64 = srow128 as i64;
                        let sum: u32 = color.0 as u32 + color.1 as u32 + color.2 as u32;
                        let bidx: u32 = sum * 69 / 765;
                        let g: char = self.gradient[(69 - bidx) as usize];
                        self.fb.set(x, srow, g, *color);
                    }
                }
            },
            RenderMode::Blocks => {
                let w: usize = self.fb.width();
                let h: usize = self.fb.height();
                if x >= 0 && y >= 0 && (x as u64) < (w as u64) && ((y / 2) as u64) < (h as u64) {
                    let row: i64 = y / 2;
                    let cur: char = self.fb.glyph_at(x as usize, row as usize);
                    let next: char = if cur == ' ' {
                        if y % 2 == 0 {
                            '\u{2580}'
                        } else {
                            '\u{2584}'
                        }
                    } else if cur == '\u{2580}' {
                        if y % 2 == 1 {
                            '\u{2588}'
                        } else {
                            cur
                        }
                    } else if cur == '\u{2584}' {
                        if y % 2 == 0 {
                            '\u{2588}'
                        } else {
                            cur
                        }
                    } else {
                        cur
                    };
                    self.fb.set(x, row, next, *color);
                }
            },
        }
        proof {
            self.history@ = self.history@.push((x as int, y as int, *color));
        }
    }
}

/// The color of overlay text: white.
pub open spec fn white() -> Color {
    Color(255, 255, 255)
}

impl Render {
    /// The cell index where overlay text starts: the beginning of the
    /// second-to-last row.
    pub open spec fn put_start(&self) -> int {
        (self.spec_fb().spec_height() - 2) * self.spec_fb().spec_width()
    }

    /// Writes a line of text bytes into the grid starting at the
    /// second-to-last row, glyph per byte, in white.
    pub fn put(&mut self, text: &[u8])
        requires
            old(self).wf(),
            old(self).spec_fb().spec_height() >= 2,
            text@.len() <= 2 * old(self).spec_fb().spec_width(),
        ensures
            final(self).wf(),
            final(self).spec_mode() == old(self).spec_mode(),
            final(self).scale_num() == old(self).scale_num(),
            final(self).scale_den() == old(self).scale_den(),
            final(self).history_seq() == old(self).history_seq(),
            final(self).spec_fb().spec_width() == old(self).spec_fb().spec_width(),
            final(self).spec_fb().spec_height() == old(self).spec_fb().spec_height(),
            final(self).spec_fb().glyph_seq().len() == old(self).spec_fb().glyph_seq().len(),
            final(self).spec_fb().color_seq().len() == old(self).spec_fb().color_seq().len(),
            forall|j: int|
                0 <= j < text@.len() ==> final(self).spec_fb().glyph_seq()[old(self).put_start()
                    + j] == (text@[j] as char) && final(self).spec_fb().color_seq()[old(
                    self,
                ).put_start() + j] == white(),
            forall|i: int|
                0 <= i < old(self).spec_fb().glyph_seq().len() && !(old(self).put_start() <= i
                    < old(self).put_start() + text@.len()) ==> final(self).spec_fb().glyph_seq()[i]
                    == old(self).spec_fb().glyph_seq()[i] && final(self).spec_fb().color_seq()[i]
                    == old(self).spec_fb().color_seq()[i],
    {
        let w: usize = self.fb.width();
        let h: usize = self.fb.height();
        let total: usize = self.fb.len();
        proof {
            assert((h - 2) * w + 2 * w == h * w) by (nonlinear_arith);
            assert(w * h == h * w) by (nonlinear_arith);
            assert((h - 2) * w + 2 * w <= 0xFFFF_FFFF) by (nonlinear_arith)
                requires
                    2 <= h <= 0xFFFF,
                    w <= 0xFFFF,
            ;
        }
        let start: usize = (h - 2) * w;
        let mut j: usize = 0;
        let n: usize = text.len();
        while j < n
            invariant
                self.wf(),
                j <= n,
                n == text@.len(),
                w == self.spec_fb().spec_width(),
                h == self.spec_fb().spec_height(),
                start == (h - 2) * w,
                start + n <= self.spec_fb().glyph_seq().len(),
                start + n <= self.spec_fb().color_seq().len(),
                start + n <= 0xFFFF_FFFF,
                old(self).spec_fb().glyph_seq().len() == old(self).spec_fb().color_seq().len(),
                self.mode == old(self).mode,
                self.num == old(self).num,
                self.den == old(self).den,
                self.history@ == old(self).history@,
                self.spec_fb().spec_width() == old(self).spec_fb().spec_width(),
                self.spec_fb().spec_height() == old(self).spec_fb().spec_height(),
                self.spec_fb().glyph_seq().len() == old(self).spec_fb().glyph_seq().len(),
                self.spec_fb().color_seq().len() == old(self).spec_fb().color_seq().len(),
                forall|k: int|
                    0 <= k < j ==> self.spec_fb().glyph_seq()[start + k] == (text@[k] as char)
                        && self.spec_fb().color_seq()[start + k] == white(),
                forall|i: int|
                    0 <= i < old(self).spec_fb().glyph_seq().len() && !(start <= i < start + j)
                        ==> self.spec_fb().glyph_seq()[i] == old(self).spec_fb().glyph_seq()[i]
                        && self.spec_fb().color_seq()[i] == old(self).spec_fb().color_seq()[i],
            decreases n - j,
        {
            let b: u8 = text[j];
            let ghost g0 = self.spec_fb().glyph_seq();
            let ghost c0 = self.spec_fb().color_seq();
            self.fb.set_index(start + j, b as char, Color(255, 255, 255));
            proof {
                assert(self.spec_fb().glyph_seq() == g0.update(start + j, b as char));
                assert(self.spec_fb().color_seq() == c0.update(start + j, Color(255, 255, 255)));
                assert forall|i: int|
                    0 <= i < old(self).spec_fb().glyph_seq().len() && !(start <= i < start + j
                        + 1) implies self.spec_fb().glyph_seq()[i] == old(
                    self,
                ).spec_fb().glyph_seq()[i] && self.spec_fb().color_seq()[i] == old(
                    self,
                ).spec_fb().color_seq()[i] by {
                    assert(i != start + j);
                    assert(g0.update(start + j, b as char)[i] == g0[i]);
                    assert(c0.update(start + j, Color(255, 255, 255))[i] == c0[i]);
                }
            }
            j += 1;
        }
    }
}

proof fn lemma_count_char_concat(a: Seq<char>, b: Seq<char>, ch: char)
    ensures
        count_char(a + b, ch) == count_char(a, ch) + count_char(b, ch),
    decreases a.len(),
{
    if a.len() == 0 {
        assert(a + b =~= b);
    } else {
        assert((a + b).drop_first() =~= a.drop_first() + b);
        lemma_count_char_concat(a.drop_first(), b, ch);
        assert((a + b)[0] == a[0]);
    }
}

proof fn lemma_count_char_none(s: Seq<char>, ch: char)
    requires
        forall|k: int| 0 <= k < s.len() ==> s[k] != ch,
    ensures
        count_char(s, ch) == 0,
    decreases s.len(),
{
    if s.len() == 0 {
    } else {
        assert(forall|k: int| 0 <= k < s.drop_first().len() ==> s.drop_first()[k] == s[k + 1]);
        lemma_count_char_none(s.drop_first(), ch);
    }
}

proof fn lemma_dec3_no_escape(n: int)
    ensures
        count_char(dec3(n), '\u{1b}') == 0,
{
    lemma_count_char_none(dec3(n), '\u{1b}');
}

proof fn lemma_escape_count_one(c: Color)
    ensures
        count_char(color_escape(c), '\u{1b}') == 1,
{
    let head = seq!['\u{1b}', '[', '3', '8', ';', '2', ';'];
    let e = '\u{1b}';
    assert(count_char(head, e) == 1) by {
        assert(head.drop_first() =~= seq!['[', '3', '8', ';', '2', ';']);
        lemma_count_char_none(seq!['[', '3', '8', ';', '2', ';'], e);
    }
    lemma_dec3_no_escape(c.0 as int);
    lemma_dec3_no_escape(c.1 as int);
    lemma_dec3_no_escape(c.2 as int);
    lemma_count_char_none(seq![';'], e);
    lemma_count_char_none(seq!['m'], e);
    lemma_count_char_concat(head, dec3(c.0 as int), e);
    lemma_count_char_concat(head + dec3(c.0 as int), seq![';'], e);
    lemma_count_char_concat(head + dec3(c.0 as int) + seq![';'], dec3(c.1 as int), e);
    lemma_count_char_concat(head + dec3(c.0 as int) + seq![';'] + dec3(c.1 as int), seq![';'], e);
    lemma_count_char_concat(
        head + dec3(c.0 as int) + seq![';'] + dec3(c.1 as int) + seq![';'],
        dec3(c.2 as int),
        e,
    );
    lemma_count_char_concat(
        head + dec3(c.0 as int) + seq![';'] + dec3(c.1 as int) + seq![';'] + dec3(c.2 as int),
        seq!['m'],
        e,
    );
}

proof fn lemma_encode_uniform_tail(
    glyphs: Seq<char>,
    colors: Seq<Color>,
    i: int,
    col: Color,
    ch: char,
)
    requires
        glyphs.len() == colors.len(),
        forall|k: int| 0 <= k < colors.len() ==> colors[k] == col,
        forall|k: int| 0 <= k < glyphs.len() ==> glyphs[k] != ch,
        0 <= i,
    ensures
        count_char(encode_cells(glyphs, colors, i, Some(col)), ch) == 0,
    decreases colors.len() - i + 1,
{
    if i >= colors.len() {
    } else {
        assert(encode_cells(glyphs, colors, i, Some(col)) == seq![glyphs[i]] + encode_cells(
            glyphs,
            colors,
            i + 1,
            Some(col),
        ));
        lemma_count_char_concat(seq![glyphs[i]], encode_cells(glyphs, colors, i + 1, Some(col)), ch);
        lemma_count_char_none(seq![glyphs[i]], ch);
        lemma_encode_uniform_tail(glyphs, colors, i + 1, col, ch);
    }
}

/// Serializing a grid whose cells all hold one color emits exactly one
/// color escape, whatever the grid size: the first cell emits it, every
/// later cell matches the previously emitted color.
pub proof fn lemma_uniform_grid_single_escape(glyphs: Seq<char>, colors: Seq<Color>, col: Color)
    requires
        glyphs.len() == colors.len(),
        colors.len() >= 1,
        forall|k: int| 0 <= k < colors.len() ==> colors[k] == col,
        forall|k: int| 0 <= k < glyphs.len() ==> glyphs[k] != '\u{1b}',
    ensures
        count_char(encode_cells(glyphs, colors, 0, None::<Color>), '\u{1b}') == 1,
{
    let e = '\u{1b}';
    assert(encode_cells(glyphs, colors, 0, None::<Color>) == color_escape(colors[0])
        + seq![glyphs[0]] + encode_cells(glyphs, colors, 1, Some(colors[0])));
    lemma_escape_count_one(colors[0]);
    lemma_count_char_none(seq![glyphs[0]], e);
    lemma_encode_uniform_tail(glyphs, colors, 1, col, e);
    lemma_count_char_concat(color_escape(colors[0]), seq![glyphs[0]], e);
    lemma_count_char_concat(
        color_escape(colors[0]) + seq![glyphs[0]],
        encode_cells(glyphs, colors, 1, Some(colors[0])),
        e,
    );
}

/// A cleared grid serializes with exactly one color escape (for the
/// default background color), regardless of its dimensions.
pub proof fn lemma_cleared_draw_single_escape(r: &Render)
    requires
        r.wf(),
        r.spec_fb().all_blank(),
        r.spec_fb().color_seq().len() >= 1,
    ensures
        count_char(
            encode_cells(r.spec_fb().glyph_seq(), r.spec_fb().color_seq(), 0, None::<Color>),
            '\u{1b}',
        ) == 1,
{
    r.spec_fb().lemma_wf_lens();
    lemma_uniform_grid_single_escape(r.spec_fb().glyph_seq(), r.spec_fb().color_seq(), black());
}

fn digit(d: u8) -> (ch: char)
    requires
        d < 10,
    ensures
        ch == digit_char(d as int),
{
    if d == 0 {
        '0'
    } else if d == 1 {
        '1'
    } else if d == 2 {
        '2'
    } else if d == 3 {
        '3'
    } else if d == 4 {
        '4'
    } else if d == 5 {
        '5'
    } else if d == 6 {
        '6'
    } else if d == 7 {
        '7'
    } else if d == 8 {
        '8'
    } else {
        '9'
    }
}

fn push_dec3(out: &mut Vec<char>, n: u8)
    ensures
        final(out)@ == old(out)@ + dec3(n as int),
{
    if n >= 100 {
        out.push(digit(n / 100));
        out.push(digit((n / 10) % 10));
        out.push(digit(n % 10));
        proof {
            assert(final(out)@ =~= old(out)@ + dec3(n as int));
        }
    } else if n >= 10 {
        out.push(digit(n / 10));
        out.push(digit(n % 10));
        proof {
            assert(final(out)@ =~= old(out)@ + dec3(n as int));
        }
    } else {
        out.push(digit(n));
        proof {
            assert(final(out)@ =~= old(out)@ + dec3(n as int));
        }
    }
}

#[verifier::rlimit(60)]
fn push_escape(out: &mut Vec<char>, c: Color)
    ensures
        final(out)@ == old(out)@ + color_escape(c),
{
    out.push('\u{1b}');
    out.push('[');
    out.push('3');
    out.push('8');
    out.push(';');
    out.push('2');
    out.push(';');
    push_dec3(out, c.0);
    out.push(';');
    push_dec3(out, c.1);
    out.push(';');
    push_dec3(out, c.2);
    out.push('m');
    proof {
        assert(final(out)@ =~= old(out)@ + color_escape(c));
    }
}

impl Render {
    /// Serializes the grid, row-major. Ascii mode emits the bare glyphs;
    /// blocks mode prefixes each cell whose color differs from the
    /// previously emitted cell with a truecolor escape, so the number of
    /// escapes is the number of color transitions, not the cell count.
    pub fn draw(&self) -> (out: Vec<char>)
        requires
            self.wf(),
        ensures
            self.spec_mode() == RenderMode::Ascii ==> out@ == self.spec_fb().glyph_seq(),
            self.spec_mode() == RenderMode::Blocks ==> out@ == encode_cells(
                self.spec_fb().glyph_seq(),
                self.spec_fb().color_seq(),
                0,
                None::<Color>,
            ),
    {
        let total: usize = self.fb.len();
        let mut out: Vec<char> = Vec::new();
        match self.mode {
            RenderMode::Ascii => {
                let mut i: usize = 0;
                while i < total
                    invariant
                        self.wf(),
                        i <= total,
                        total == self.spec_fb().glyph_seq().len(),
                        out@.len() == i,
                        forall|k: int| 0 <= k < i ==> out@[k] == self.spec_fb().glyph_seq()[k],
                    decreases total - i,
                {
                    out.push(self.fb.glyph_at_index(i));
                    i += 1;
                }
                proof {
                    assert(out@ =~= self.spec_fb().glyph_seq());
                }
            },
            RenderMode::Blocks => {
                let ghost g = self.spec_fb().glyph_seq();
                let ghost c = self.spec_fb().color_seq();
                let mut prev: Option<Color> = None;
                let mut i: usize = 0;
                while i < total
                    invariant
                        self.wf(),
                        i <= total,
                        total == c.len(),
                        g.len() == c.len(),
                        g == self.spec_fb().glyph_seq(),
                        c == self.spec_fb().color_seq(),
                        encode_cells(g, c, 0, None::<Color>) == out@ + encode_cells(
                            g,
                            c,
                            i as int,
                            prev,
                        ),
                    decreases total - i,
                {
                    let cur: Color = self.fb.color_at_index(i);
                    let gl: char = self.fb.glyph_at_index(i);
                    let same: bool = match &prev {
                        Some(p) => *p == cur,
                        None => false,
                    };
                    let ghost out0 = out@;
                    let ghost prev0 = prev;
                    if !same {
                        push_escape(&mut out, cur);
                        out.push(gl);
                        prev = Some(cur);
                        proof {
                            assert(prev0 != Some(c[i as int]));
                            assert(encode_cells(g, c, i as int, prev0) == color_escape(
                                c[i as int],
                            ) + seq![g[i as int]] + encode_cells(
                                g,
                                c,
                                i + 1,
                                Some(c[i as int]),
                            ));
                            assert(out@ =~= out0 + (color_escape(cur) + seq![gl]));
                            assert(out0 + ((color_escape(cur) + seq![gl]) + encode_cells(
                                g,
                                c,
                                i + 1,
                                Some(c[i as int]),
                            )) =~= (out0 + (color_escape(cur) + seq![gl])) + encode_cells(
                                g,
                                c,
                                i + 1,
                                Some(c[i as int]),
                            ));
                            assert(color_escape(c[i as int]) + seq![g[i as int]] + encode_cells(
                                g,
                                c,
                                i + 1,
                                Some(c[i as int]),
                            ) =~= (color_escape(cur) + seq![gl]) + encode_cells(
                                g,
                                c,
                                i + 1,
                                Some(c[i as int]),
                            ));
                        }
                    } else {
                        out.push(gl);
                        proof {
                            assert(prev0 == Some(c[i as int]));
                            assert(encode_cells(g, c, i as int, prev0) == seq![g[i as int]]
                                + encode_cells(g, c, i + 1, prev0));
                            assert(out@ =~= out0 + seq![gl]);
                            assert(out0 + (seq![gl] + encode_cells(g, c, i + 1, prev0)) =~= (out0
                                + seq![gl]) + encode_cells(g, c, i + 1, prev0));
                        }
                    }
                    i += 1;
                }
                proof {
                    assert(encode_cells(g, c, i as int, prev) =~= Seq::<char>::empty());
                    assert(out@ + Seq::<char>::empty() =~= out@);
                }
            },
        }
        out
    }
}

impl Display for Render {
    open spec fn inv(&self) -> bool {
        self.wf()
    }

    open spec fn plots(&self) -> Seq<(int, int, Color)> {
        self.history_seq()
    }

    fn plot(&mut self, x: i64, y: i64, color: &Color) {
        self.plot_point(x, y, color);
    }
}

#[verifier::rlimit(100)]
fn make_gradient() -> (v: Vec<char>)
    ensures
        v@ == gradient_seq(),
{
    let mut v: Vec<char> = Vec::new();
    v.push('$');
    v.push('@');
    v.push('B');
    v.push('%');
    v.push('8');
    v.push('&');
    v.push('W');
    v.push('M');
    v.push('#');
    v.push('*');
    v.push('o');
    v.push('a');
    v.push('h');
    v.push('k');
    v.push('b');
    v.push('d');
    v.push('p');
    v.push('q');
    v.push('w');
    v.push('m');
    v.push('Z');
    v.push('O');
    v.push('0');
    v.push('Q');
    v.push('L');
    v.push('C');
    v.push('J');
    v.push('U');
    v.push('Y');
    v.push('X');
    v.push('z');
    v.push('c');
    v.push('v');
    v.push('u');
    v.push('n');
    v.push('x');
    v.push('r');
    v.push('j');
    v.push('f');
    v.push('t');
    v.push('/');
    v.push('\\');
    v.push('|');
    v.push('(');
    v.push(')');
    v.push('1');
    v.push('{');
    v.push('}');
    v.push('[');
    v.push(']');
    v.push('?');
    v.push('-');
    v.push('_');
    v.push('+');
    v.push('~');
    v.push('<');
    v.push('>');
    v.push('i');
    v.push('!');
    v.push('l');
    v.push('I');
    v.push(';');
    v.push(':');
    v.push(',');
    v.push('"');
    v.push('^');
    v.push('`');
    v.push('\'');
    v.push('.');
    v.push(' ');
    proof {
        assert(v@ =~= gradient_seq());
    }
    v
}

} // verus!
