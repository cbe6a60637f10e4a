//! The glyph-based plotting capability and its line/circle rasterizers:
//! the same walks as `drawing`, plotting a fixed marker glyph instead of
//! a color.

use vstd::prelude::*;

use crate::drawing::circle_points;
use crate::drawing::line_points;
use crate::drawing::line_rec;
use crate::drawing::diff;
use crate::drawing::sign;
use crate::drawing::octant_rec;
use crate::drawing::emit_pairs;
use crate::drawing::lemma_emit_pairs_push;
use crate::drawing::reflect8;

verus! {

/// A plotting capability that takes a glyph per point; `plots()` is the
/// history of accepted plot calls as (x, y, glyph).
pub trait Display: Sized {
    /// Well-formedness of the backend; preserved by every plot call.
    spec fn inv(&self) -> bool;

    /// The sequence of plot calls received so far.
    spec fn plots(&self) -> Seq<(int, int, char)>;

    fn plot(&mut self, x: i64, y: i64, symbol: char)
        requires
            old(self).inv(),
        ensures
            final(self).inv(),
            final(self).plots() == old(self).plots().push((x as int, y as int, symbol)),
    ;
}

/// A plain backend that records every glyph plot call verbatim, to
/// observe exactly what the rasterizer emits.
pub struct GlyphRecorder {
    log: Vec<(i64, i64, char)>,
}

impl GlyphRecorder {
    pub fn new() -> (r: GlyphRecorder)
        ensures
            r.inv(),
            r.plots() == Seq::<(int, int, char)>::empty(),
    {
        let r = GlyphRecorder { log: Vec::new() };
        proof {
            assert(r.plots() =~= Seq::<(int, int, char)>::empty());
        }
        r
    }

    /// How many plot calls were recorded.
    pub fn len(&self) -> (n: usize)
        ensures
            n == self.plots().len(),
    {
        self.log.len()
    }

    /// Reads one recorded plot call.
    pub fn get(&self, i: usize) -> (p: (i64, i64, char))
        requires
            i < self.plots().len(),
        ensures
            (p.0 as int, p.1 as int, p.2) == self.plots()[i as int],
    {
        self.log[i]
    }
}

impl Display for GlyphRecorder {
    open spec fn inv(&self) -> bool {
        true
    }

    closed spec fn plots(&self) -> Seq<(int, int, char)> {
        self.log@.map_values(|t: (i64, i64, char)| (t.0 as int, t.1 as int, t.2))
    }

    fn plot(&mut self, x: i64, y: i64, symbol: char) {
        self.log.push((x, y, symbol));
        proof {
            assert(self.plots() =~= old(self).plots().push((x as int, y as int, symbol)));
        }
    }
}

/// Pairs every point with one glyph, in order.
pub open spec fn with_glyph(s: Seq<(int, int)>, g: char) -> Seq<(int, int, char)> {
    s.map_values(|p: (int, int)| (p.0, p.1, g))
}

/// Integer line rasterization with accumulated error, plotting the `'@'`
/// marker: the same point walk as `drawing::line`.
///
/// The coordinate bound keeps the error accumulator within `i64`.
pub fn draw_line<D: Display>(display: &mut D, x0: i64, x1: i64, y0: i64, y1: i64)
    requires
        old(display).inv(),
        -0x2000_0000 <= x0 <= 0x2000_0000,
        -0x2000_0000 <= x1 <= 0x2000_0000,
        -0x2000_0000 <= y0 <= 0x2000_0000,
        -0x2000_0000 <= y1 <= 0x2000_0000,
    ensures
        final(display).inv(),
        final(display).plots() == old(display).plots() + with_glyph(
            line_points(x0 as int, x1 as int, y0 as int, y1 as int),
            '@',
        ),
{
    let deltax: i64 = if x1 >= x0 {
        x1 - x0
    } else {
        x0 - x1
    };
    let deltay: i64 = if y1 >= y0 {
        y1 - y0
    } else {
        y0 - y1
    };
    let mut error: i64 = 0;
    let deltaerr: i64 = deltay + 1;
    let mut y: i64 = y0;
    let mut diry: i64 = y1 - y0;
    if diry > 0 {
        diry = 1;
    }
    if diry < 0 {
        diry = -1;
    }
    let mut x: i64 = x0;
    let ghost full = line_points(x0 as int, x1 as int, y0 as int, y1 as int);
    let ghost mut taken: Seq<(int, int)> = Seq::empty();
    proof {
        assert(full == taken + line_rec(
            x as int,
            x1 as int,
            y as int,
            error as int,
            deltax as int,
            deltaerr as int,
            diry as int,
        ));
        assert(with_glyph(taken, '@') =~= Seq::<(int, int, char)>::empty());
    }
    while x < x1
        invariant
            display.inv(),
            x0 <= x,
            x1 <= x0 ==> x == x0,
            x0 < x1 ==> x <= x1,
            deltax == diff(x1 as int, x0 as int),
            deltaerr == diff(y1 as int, y0 as int) + 1,
            1 <= deltaerr <= 0x4000_0001,
            diry == sign(y1 as int - y0 as int),
            y0 - (x - x0) <= y <= y0 + (x - x0),
            -0x2000_0000 <= x0 <= 0x2000_0000,
            -0x2000_0000 <= x1 <= 0x2000_0000,
            -0x2000_0000 <= y0 <= 0x2000_0000,
            -0x2000_0000 <= y1 <= 0x2000_0000,
            0 <= error,
            error <= (x - x0) * 0x4000_0001,
            full == taken + line_rec(
                x as int,
                x1 as int,
                y as int,
                error as int,
                deltax as int,
                deltaerr as int,
                diry as int,
            ),
            display.plots() == old(display).plots() + with_glyph(taken, '@'),
        decreases x1 - x,
    {
        display.plot(x, y, '@');
        proof {
            let rest = line_rec(
                x as int,
                x1 as int,
                y as int,
                error as int,
                deltax as int,
                deltaerr as int,
                diry as int,
            );
            let e2 = error as int + deltaerr as int;
            let rest2 = if e2 >= deltax + 1 {
                line_rec(
                    x + 1 as int,
                    x1 as int,
                    y + diry as int,
                    e2 - (deltax + 1),
                    deltax as int,
                    deltaerr as int,
                    diry as int,
                )
            } else {
                line_rec(
                    x + 1 as int,
                    x1 as int,
                    y as int,
                    e2,
                    deltax as int,
                    deltaerr as int,
                    diry as int,
                )
            };
            assert(rest == seq![(x as int, y as int)] + rest2);
            assert(taken + rest =~= taken.push((x as int, y as int)) + rest2);
            assert(with_glyph(taken.push((x as int, y as int)), '@') =~= with_glyph(
                taken,
                '@',
            ).push((x as int, y as int, '@')));
            taken = taken.push((x as int, y as int));
        }
        error = error + deltaerr;
        if error >= deltax + 1 {
            y = y + diry;
            error = error - (deltax + 1);
        }
        x = x + 1;
    }
    proof {
        assert(line_rec(
            x as int,
            x1 as int,
            y as int,
            error as int,
            deltax as int,
            deltaerr as int,
            diry as int,
        ) =~= Seq::<(int, int)>::empty());
        assert(full =~= taken);
    }
}

/// Midpoint circle rasterization plotting the `'@'` marker: the same
/// octant walk as `drawing::circle`. A negative radius plots nothing.
///
/// The center bound keeps the plotted coordinates within `i64`.
pub fn draw_circle<D: Display>(display: &mut D, cx: i64, cy: i64, radius: i64)
    requires
        old(display).inv(),
        -0x1000_0000_0000_0000 <= cx <= 0x1000_0000_0000_0000,
        -0x1000_0000_0000_0000 <= cy <= 0x1000_0000_0000_0000,
        radius <= 0x8000_0000,
    ensures
        final(display).inv(),
        final(display).plots() == old(display).plots() + with_glyph(
            circle_points(cx as int, cy as int, radius as int),
            '@',
        ),
{
    let mut x: i64 = 0;
    let mut y: i64 = radius;
    let mut delta: i128 = 1 - 2 * (radius as i128);
    let ghost full = circle_points(cx as int, cy as int, radius as int);
    let ghost mut taken: Seq<(int, int)> = Seq::empty();
    proof {
        assert(full == emit_pairs(cx as int, cy as int, taken) + emit_pairs(
            cx as int,
            cy as int,
            octant_rec(x as int, y as int, delta as int),
        ));
        assert(with_glyph(emit_pairs(cx as int, cy as int, taken), '@') =~= Seq::<
            (int, int, char),
        >::empty());
    }
    while y >= x
        invariant
            display.inv(),
            radius >= 0 ==> 0 <= x <= radius + 1 && -1 <= y <= radius,
            radius < 0 ==> x == 0 && y == radius,
            radius <= 0x8000_0000,
            -0x1000_0000_0000_0000 <= cx <= 0x1000_0000_0000_0000,
            -0x1000_0000_0000_0000 <= cy <= 0x1000_0000_0000_0000,
            radius >= 0 ==> -(2 * (radius as int) + 1) - (radius + 1 - (y - x)) * 0x2_0000_0001
                <= delta as int <= (2 * (radius as int) + 1) + (radius + 1 - (y - x))
                * 0x2_0000_0001,
            full == emit_pairs(cx as int, cy as int, taken) + emit_pairs(
                cx as int,
                cy as int,
                octant_rec(x as int, y as int, delta as int),
            ),
            display.plots() == old(display).plots() + with_glyph(
                emit_pairs(cx as int, cy as int, taken),
                '@',
            ),
        decreases y - x + 2,
    {
        let ghost ox = x as int;
        let ghost oy = y as int;
        let ghost od = delta as int;
        display.plot(cx + x, cy + y, '@');
        display.plot(cx + x, cy - y, '@');
        display.plot(cx - x, cy + y, '@');
        display.plot(cx - x, cy - y, '@');
        display.plot(cx + y, cy + x, '@');
        display.plot(cx + y, cy - x, '@');
        display.plot(cx - y, cy + x, '@');
        display.plot(cx - y, cy - x, '@');
        let err: i128 = 2 * (delta + (y as i128)) - 1;
        if delta < 0 && err <= 0 {
            x += 1;
            delta += 2 * (x as i128) + 1;
        } else if delta > 0 && err > 0 {
            y -= 1;
            delta -= 2 * (y as i128) + 1;
        } else {
            x += 1;
            y -= 1;
            delta += 2 * ((x as i128) - (y as i128));
        }
        proof {
            let rest = octant_rec(ox, oy, od);
            assert(err as int == 2 * (od + oy) - 1);
            assert(rest == seq![(ox, oy)] + octant_rec(x as int, y as int, delta as int));
            lemma_emit_pairs_push(cx as int, cy as int, taken, (ox, oy));
            let emitted_old = emit_pairs(cx as int, cy as int, taken);
            let refl = reflect8(cx as int, cy as int, (ox, oy));
            assert(emit_pairs(cx as int, cy as int, rest) == refl + emit_pairs(
                cx as int,
                cy as int,
                rest.drop_first(),
            ));
            assert(rest.drop_first() =~= octant_rec(x as int, y as int, delta as int));
            assert(emitted_old + (refl + emit_pairs(
                cx as int,
                cy as int,
                octant_rec(x as int, y as int, delta as int),
            )) =~= (emitted_old + refl) + emit_pairs(
                cx as int,
                cy as int,
                octant_rec(x as int, y as int, delta as int),
            ));
            assert(with_glyph(emitted_old + refl, '@') =~= with_glyph(emitted_old, '@')
                + with_glyph(refl, '@'));
            assert(display.plots() =~= old(display).plots() + with_glyph(
                emitted_old + refl,
                '@',
            ));
            taken = taken.push((ox, oy));
            assert(emit_pairs(cx as int, cy as int, taken) == emitted_old + refl);
        }
    }
    proof {
        assert(octant_rec(x as int, y as int, delta as int) =~= Seq::<(int, int)>::empty());
        assert(emit_pairs(cx as int, cy as int, octant_rec(x as int, y as int, delta as int)) =~= Seq::<
            (int, int),
        >::empty());
        assert(full =~= emit_pairs(cx as int, cy as int, taken));
    }
}

} // verus!
