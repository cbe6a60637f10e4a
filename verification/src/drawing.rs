//! Colors, the plotting capability, and the single-point rasterizer.

use vstd::prelude::*;

verus! {

/// An immutable 24-bit RGB color, compared structurally.
#[derive(Clone, Copy, PartialEq, Eq, Structural, Debug)]
pub struct Color(pub u8, pub u8, pub u8);

/// The plotting capability the rasterizer draws through: any backing
/// store that can accept one colored point at a time.
///
/// `plots()` is the history of accepted plot calls, so callers of the
/// rasterizer learn exactly which points were handed to the backend.
pub trait Display: Sized {
    /// Well-formedness of the backend; preserved by every plot call.
    spec fn inv(&self) -> bool;

    /// The sequence of plot calls received so far, as (x, y, color).
    spec fn plots(&self) -> Seq<(int, int, Color)>;

    fn plot(&mut self, x: i64, y: i64, color: &Color)
        requires
            old(self).inv(),
        ensures
            final(self).inv(),
            final(self).plots() == old(self).plots().push((x as int, y as int, *color)),
    ;
}

/// Absolute difference of two integers.
pub open spec fn diff(a: int, b: int) -> int {
    if a >= b {
        a - b
    } else {
        b - a
    }
}

/// The sign of an integer: -1, 0 or 1.
pub open spec fn sign(d: int) -> int {
    if d > 0 {
        1
    } else if d < 0 {
        -1
    } else {
        0
    }
}

/// The points visited by the error-accumulation line walk, starting from
/// column `x` at row `y` with accumulated error `error`, one point per
/// column up to (excluding) `x1`. The row steps by `diry` whenever the
/// error reaches `deltax + 1`.
pub open spec fn line_rec(
    x: int,
    x1: int,
    y: int,
    error: int,
    deltax: int,
    deltaerr: int,
    diry: int,
) -> Seq<(int, int)>
    decreases x1 - x,
{
    if x1 <= x {
        Seq::empty()
    } else {
        let e2 = error + deltaerr;
        if e2 >= deltax + 1 {
            seq![(x, y)] + line_rec(x + 1, x1, y + diry, e2 - (deltax + 1), deltax, deltaerr, diry)
        } else {
            seq![(x, y)] + line_rec(x + 1, x1, y, e2, deltax, deltaerr, diry)
        }
    }
}

/// The exact point sequence `line` plots for the given endpoints: one
/// point per integer x in `[x0, x1)`, rows chosen by accumulated error
/// with `deltaerr = deltay + 1`.
pub open spec fn line_points(x0: int, x1: int, y0: int, y1: int) -> Seq<(int, int)> {
    line_rec(x0, x1, y0, 0, diff(x1, x0), diff(y1, y0) + 1, sign(y1 - y0))
}

/// Pairs every point with one color, in order.
pub open spec fn with_color(s: Seq<(int, int)>, c: Color) -> Seq<(int, int, Color)> {
    s.map_values(|p: (int, int)| (p.0, p.1, c))
}

/// A plain backend that records every plot call verbatim: a stand-in
/// for a pixel surface, and the way to observe exactly what the
/// rasterizer emits.
pub struct PlotRecorder {
    log: Vec<(i64, i64, Color)>,
}

impl PlotRecorder {
    pub fn new() -> (r: PlotRecorder)
        ensures
            r.inv(),
            r.plots() == Seq::<(int, int, Color)>::empty(),
    {
        let r = PlotRecorder { log: Vec::new() };
        proof {
            assert(r.plots() =~= Seq::<(int, int, Color)>::empty());
        }
        r
    }

    /// How many plot calls were recorded.
    pub fn len(&self) -> (n: usize)
        ensures
            n == self.plots().len(),
    {
        self.log.len()
    }

    /// Reads one recorded plot call.
    pub fn get(&self, i: usize) -> (p: (i64, i64, Color))
        requires
            i < self.plots().len(),
        ensures
            (p.0 as int, p.1 as int, p.2) == self.plots()[i as int],
    {
        self.log[i]
    }
}

impl Display for PlotRecorder {
    open spec fn inv(&self) -> bool {
        true
    }

    closed spec fn plots(&self) -> Seq<(int, int, Color)> {
        self.log@.map_values(|t: (i64, i64, Color)| (t.0 as int, t.1 as int, t.2))
    }

    fn plot(&mut self, x: i64, y: i64, color: &Color) {
        self.log.push((x, y, *color));
        proof {
            assert(self.plots() =~= old(self).plots().push((x as int, y as int, *color)));
        }
    }
}

/// Plots a single point: pure delegation to the display.
pub fn pixel<D: Display>(display: &mut D, x: i64, y: i64, color: &Color)
    requires
        old(display).inv(),
    ensures
        final(display).inv(),
        final(display).plots() == old(display).plots().push((x as int, y as int, *color)),
{
    display.plot(x, y, color);
}

proof fn lemma_line_rec_props(
    x: int,
    x1: int,
    y: int,
    error: int,
    deltax: int,
    deltaerr: int,
    diry: int,
)
    ensures
        line_rec(x, x1, y, error, deltax, deltaerr, diry).len() == if x1 >= x {
            x1 - x
        } else {
            0
        },
        forall|i: int|
            0 <= i < line_rec(x, x1, y, error, deltax, deltaerr, diry).len() ==> (#[trigger] line_rec(
                x,
                x1,
                y,
                error,
                deltax,
                deltaerr,
                diry,
            )[i]).0 == x + i,
        diry >= 0 ==> forall|i: int|
            0 <= i < line_rec(x, x1, y, error, deltax, deltaerr, diry).len() ==> (#[trigger] line_rec(
                x,
                x1,
                y,
                error,
                deltax,
                deltaerr,
                diry,
            )[i]).1 >= y,
        diry <= 0 ==> forall|i: int|
            0 <= i < line_rec(x, x1, y, error, deltax, deltaerr, diry).len() ==> (#[trigger] line_rec(
                x,
                x1,
                y,
                error,
                deltax,
                deltaerr,
                diry,
            )[i]).1 <= y,
        diry >= 0 ==> forall|i: int, j: int|
            0 <= i <= j < line_rec(x, x1, y, error, deltax, deltaerr, diry).len() ==> (
            #[trigger] line_rec(x, x1, y, error, deltax, deltaerr, diry)[i]).1 <= (
            #[trigger] line_rec(x, x1, y, error, deltax, deltaerr, diry)[j]).1,
        diry <= 0 ==> forall|i: int, j: int|
            0 <= i <= j < line_rec(x, x1, y, error, deltax, deltaerr, diry).len() ==> (
            #[trigger] line_rec(x, x1, y, error, deltax, deltaerr, diry)[i]).1 >= (
            #[trigger] line_rec(x, x1, y, error, deltax, deltaerr, diry)[j]).1,
    decreases x1 - x,
{
    if x1 <= x {
    } else {
        let e2 = error + deltaerr;
        if e2 >= deltax + 1 {
            lemma_line_rec_props(x + 1, x1, y + diry, e2 - (deltax + 1), deltax, deltaerr, diry);
        } else {
            lemma_line_rec_props(x + 1, x1, y, e2, deltax, deltaerr, diry);
        }
    }
}

/// For `x1 > x0` the line plots exactly `x1 - x0` points, one per integer
/// x in `[x0, x1)` in order, and the plotted rows are monotonic in the
/// sign of `y1 - y0`: non-decreasing when `y1 >= y0`, non-increasing when
/// `y1 <= y0`.
pub proof fn lemma_line_count_and_monotonic(x0: int, x1: int, y0: int, y1: int)
    ensures
        line_points(x0, x1, y0, y1).len() == if x1 >= x0 {
            x1 - x0
        } else {
            0
        },
        forall|i: int|
            0 <= i < line_points(x0, x1, y0, y1).len() ==> (#[trigger] line_points(
                x0,
                x1,
                y0,
                y1,
            )[i]).0 == x0 + i,
        y1 >= y0 ==> forall|i: int, j: int|
            0 <= i <= j < line_points(x0, x1, y0, y1).len() ==> (#[trigger] line_points(
                x0,
                x1,
                y0,
                y1,
            )[i]).1 <= (#[trigger] line_points(x0, x1, y0, y1)[j]).1,
        y1 <= y0 ==> forall|i: int, j: int|
            0 <= i <= j < line_points(x0, x1, y0, y1).len() ==> (#[trigger] line_points(
                x0,
                x1,
                y0,
                y1,
            )[i]).1 >= (#[trigger] line_points(x0, x1, y0, y1)[j]).1,
{
    lemma_line_rec_props(x0, x1, y0, 0, diff(x1, x0), diff(y1, y0) + 1, sign(y1 - y0));
}

/// Integer line rasterization with accumulated error: one point per
/// integer x in `[x0, x1)`, the row stepping by the sign of `y1 - y0`
/// whenever the error reaches `deltax + 1`. Swapping the endpoints may
/// plot a different point set; that asymmetry is part of the contract.
///
/// The coordinate bound keeps the error accumulator within `i64`.
pub fn line<D: Display>(display: &mut D, x0: i64, x1: i64, y0: i64, y1: i64, color: &Color)
    requires
        old(display).inv(),
        -0x2000_0000 <= x0 <= 0x2000_0000,
        -0x2000_0000 <= x1 <= 0x2000_0000,
        -0x2000_0000 <= y0 <= 0x2000_0000,
        -0x2000_0000 <= y1 <= 0x2000_0000,
    ensures
        final(display).inv(),
        final(display).plots() == old(display).plots() + with_color(
            line_points(x0 as int, x1 as int, y0 as int, y1 as int),
            *color,
        ),
{
    let deltax: i64 = if x1 >= x0 {
        x1 - x0
    } else {
        x0 - x1
    };
    let deltay: i64 = if y1 >= y0 {
        y1 - y0
    } else {
        y0 - y1
    };
    let mut error: i64 = 0;
    let deltaerr: i64 = deltay + 1;
    let mut y: i64 = y0;
    let mut diry: i64 = y1 - y0;
    if diry > 0 {
        diry = 1;
    }
    if diry < 0 {
        diry = -1;
    }
    let mut x: i64 = x0;
    let ghost full = line_points(x0 as int, x1 as int, y0 as int, y1 as int);
    let ghost mut taken: Seq<(int, int)> = Seq::empty();
    proof {
        assert(full == taken + line_rec(
            x as int,
            x1 as int,
            y as int,
            error as int,
            deltax as int,
            deltaerr as int,
            diry as int,
        ));
        assert(with_color(taken, *color) =~= Seq::<(int, int, Color)>::empty());
    }
    while x < x1
        invariant
            display.inv(),
            x0 <= x,
            x1 <= x0 ==> x == x0,
            x0 < x1 ==> x <= x1,
            deltax == diff(x1 as int, x0 as int),
            deltaerr == diff(y1 as int, y0 as int) + 1,
            1 <= deltaerr <= 0x4000_0001,
            diry == sign(y1 as int - y0 as int),
            y0 - (x - x0) <= y <= y0 + (x - x0),
            -0x2000_0000 <= x0 <= 0x2000_0000,
            -0x2000_0000 <= x1 <= 0x2000_0000,
            -0x2000_0000 <= y0 <= 0x2000_0000,
            -0x2000_0000 <= y1 <= 0x2000_0000,
            0 <= error,
            error <= (x - x0) * 0x4000_0001,
            full == taken + line_rec(
                x as int,
                x1 as int,
                y as int,
                error as int,
                deltax as int,
                deltaerr as int,
                diry as int,
            ),
            display.plots() == old(display).plots() + with_color(taken, *color),
        decreases x1 - x,
    {
        display.plot(x, y, color);
        proof {
            let rest = line_rec(
                x as int,
                x1 as int,
                y as int,
                error as int,
                deltax as int,
                deltaerr as int,
                diry as int,
            );
            let e2 = error as int + deltaerr as int;
            let rest2 = if e2 >= deltax + 1 {
                line_rec(
                    x + 1 as int,
                    x1 as int,
                    y + diry as int,
                    e2 - (deltax + 1),
                    deltax as int,
                    deltaerr as int,
                    diry as int,
                )
            } else {
                line_rec(
                    x + 1 as int,
                    x1 as int,
                    y as int,
                    e2,
                    deltax as int,
                    deltaerr as int,
                    diry as int,
                )
            };
            assert(rest == seq![(x as int, y as int)] + rest2);
            assert(taken + rest =~= taken.push((x as int, y as int)) + rest2);
            assert(with_color(taken.push((x as int, y as int)), *color) =~= with_color(
                taken,
                *color,
            ).push((x as int, y as int, *color)));
            taken = taken.push((x as int, y as int));
        }
        error = error + deltaerr;
        if error >= deltax + 1 {
            y = y + diry;
            error = error - (deltax + 1);
        }
        x = x + 1;
    }
    proof {
        assert(line_rec(
            x as int,
            x1 as int,
            y as int,
            error as int,
            deltax as int,
            deltaerr as int,
            diry as int,
        ) =~= Seq::<(int, int)>::empty());
        assert(full =~= taken);
    }
}

/// The (x, y) octant pairs visited by the midpoint circle walk from the
/// given state: per step the walk advances x, retreats y, or both,
/// guided by the decision variable `delta`, until `y < x`.
pub open spec fn octant_rec(x: int, y: int, delta: int) -> Seq<(int, int)>
    decreases y - x + 2,
{
    if y < x {
        Seq::empty()
    } else {
        let err = 2 * (delta + y) - 1;
        if delta < 0 && err <= 0 {
            seq![(x, y)] + octant_rec(x + 1, y, delta + 2 * (x + 1) + 1)
        } else if delta > 0 && err > 0 {
            seq![(x, y)] + octant_rec(x, y - 1, delta - (2 * (y - 1) + 1))
        } else {
            seq![(x, y)] + octant_rec(x + 1, y - 1, delta + 2 * ((x + 1) - (y - 1)))
        }
    }
}

/// The octant pairs of a circle of the given radius, starting at
/// (0, radius) with decision variable `1 - 2*radius`.
pub open spec fn octant_pairs(radius: int) -> Seq<(int, int)> {
    octant_rec(0, radius, 1 - 2 * radius)
}

/// The eight reflections of one octant pair around a center, in the
/// order the circle rasterizer plots them.
pub open spec fn reflect8(cx: int, cy: int, p: (int, int)) -> Seq<(int, int)> {
    seq![
        (cx + p.0, cy + p.1),
        (cx + p.0, cy - p.1),
        (cx - p.0, cy + p.1),
        (cx - p.0, cy - p.1),
        (cx + p.1, cy + p.0),
        (cx + p.1, cy - p.0),
        (cx - p.1, cy + p.0),
        (cx - p.1, cy - p.0),
    ]
}

/// All points plotted for a sequence of octant pairs: eight reflections
/// per pair, in order.
pub open spec fn emit_pairs(cx: int, cy: int, pairs: Seq<(int, int)>) -> Seq<(int, int)>
    decreases pairs.len(),
{
    if pairs.len() == 0 {
        Seq::empty()
    } else {
        reflect8(cx, cy, pairs[0]) + emit_pairs(cx, cy, pairs.drop_first())
    }
}

/// The exact point sequence `circle` plots: the eight reflections of
/// every octant pair, around the center, in walk order.
pub open spec fn circle_points(cx: int, cy: int, radius: int) -> Seq<(int, int)> {
    emit_pairs(cx, cy, octant_pairs(radius))
}

/// Whether `p` is one of the eight sign/swap reflections of `q`.
pub open spec fn in_reflections(p: (int, int), q: (int, int)) -> bool {
    ||| p == (q.0, q.1)
    ||| p == (q.0, -q.1)
    ||| p == (-q.0, q.1)
    ||| p == (-q.0, -q.1)
    ||| p == (q.1, q.0)
    ||| p == (q.1, -q.0)
    ||| p == (-q.1, q.0)
    ||| p == (-q.1, -q.0)
}

/// The set of offsets from the center that a circle of the given radius
/// plots: every reflection of every octant pair.
#[verifier::opaque]
pub open spec fn circle_offsets(radius: int) -> Set<(int, int)> {
    Set::new(
        |p: (int, int)|
            exists|i: int|
                0 <= i < octant_pairs(radius).len() && in_reflections(
                    p,
                    #[trigger] octant_pairs(radius)[i],
                ),
    )
}

proof fn lemma_emit_pairs_contains(cx: int, cy: int, pairs: Seq<(int, int)>)
    ensures
        forall|p: (int, int)|
            #[trigger] emit_pairs(cx, cy, pairs).contains(p) <==> exists|i: int|
                0 <= i < pairs.len() && in_reflections(
                    (p.0 - cx, p.1 - cy),
                    #[trigger] pairs[i],
                ),
    decreases pairs.len(),
{
    if pairs.len() == 0 {
        assert forall|p: (int, int)| !(#[trigger] emit_pairs(cx, cy, pairs).contains(p)) by {
            assert(emit_pairs(cx, cy, pairs).len() == 0);
        }
    } else {
        lemma_emit_pairs_contains(cx, cy, pairs.drop_first());
        let refl = reflect8(cx, cy, pairs[0]);
        let rest = emit_pairs(cx, cy, pairs.drop_first());
        assert(emit_pairs(cx, cy, pairs) == refl + rest);
        assert forall|p: (int, int)| #[trigger]
            emit_pairs(cx, cy, pairs).contains(p) implies exists|i: int|
            0 <= i < pairs.len() && in_reflections((p.0 - cx, p.1 - cy), #[trigger] pairs[i]) by {
            let k = choose|k: int| 0 <= k < (refl + rest).len() && (refl + rest)[k] == p;
            if k < 8 {
                assert(in_reflections((p.0 - cx, p.1 - cy), pairs[0]));
            } else {
                assert(rest[k - 8] == p);
                assert(rest.contains(p));
                let i = choose|i: int|
                    0 <= i < pairs.drop_first().len() && in_reflections(
                        (p.0 - cx, p.1 - cy),
                        #[trigger] pairs.drop_first()[i],
                    );
                assert(pairs.drop_first()[i] == pairs[i + 1]);
            }
        }
        assert forall|p: (int, int)|
            (exists|i: int|
                0 <= i < pairs.len() && in_reflections(
                    (p.0 - cx, p.1 - cy),
                    #[trigger] pairs[i],
                )) implies #[trigger] emit_pairs(cx, cy, pairs).contains(p) by {
            let i = choose|i: int|
                0 <= i < pairs.len() && in_reflections((p.0 - cx, p.1 - cy), #[trigger] pairs[i]);
            if i == 0 {
                let q = pairs[0];
                let o = (p.0 - cx, p.1 - cy);
                assert(refl.len() == 8);
                if o == (q.0, q.1) {
                    assert((refl + rest)[0] == p);
                } else if o == (q.0, -q.1) {
                    assert((refl + rest)[1] == p);
                } else if o == (-q.0, q.1) {
                    assert((refl + rest)[2] == p);
                } else if o == (-q.0, -q.1) {
                    assert((refl + rest)[3] == p);
                } else if o == (q.1, q.0) {
                    assert((refl + rest)[4] == p);
                } else if o == (q.1, -q.0) {
                    assert((refl + rest)[5] == p);
                } else if o == (-q.1, q.0) {
                    assert((refl + rest)[6] == p);
                } else {
                    assert((refl + rest)[7] == p);
                }
                assert(emit_pairs(cx, cy, pairs).contains(p));
            } else {
                assert(pairs.drop_first()[i - 1] == pairs[i]);
                assert(rest.contains(p));
                let k = choose|k: int| 0 <= k < rest.len() && rest[k] == p;
                assert((refl + rest)[k + 8] == p);
                assert(emit_pairs(cx, cy, pairs).contains(p));
            }
        }
    }
}

/// The point set a circle plots is exactly the offset set shifted to the
/// center: a point is plotted iff its offset from the center is in
/// `circle_offsets`.
pub proof fn lemma_circle_point_set(cx: int, cy: int, radius: int)
    ensures
        forall|p: (int, int)|
            #[trigger] circle_points(cx, cy, radius).contains(p) <==> circle_offsets(
                radius,
            ).contains((p.0 - cx, p.1 - cy)),
{
    reveal(circle_offsets);
    lemma_emit_pairs_contains(cx, cy, octant_pairs(radius));
}

proof fn lemma_reflections_closed(a: int, b: int, q: (int, int))
    requires
        in_reflections((a, b), q),
    ensures
        in_reflections((-a, b), q),
        in_reflections((a, -b), q),
        in_reflections((b, a), q),
{
}

/// One-way closure of the offset set under the three reflections.
pub proof fn lemma_circle_offsets_closed(radius: int, a: int, b: int)
    requires
        circle_offsets(radius).contains((a, b)),
    ensures
        circle_offsets(radius).contains((-a, b)),
        circle_offsets(radius).contains((a, -b)),
        circle_offsets(radius).contains((b, a)),
{
    reveal(circle_offsets);
    let i = choose|i: int|
        0 <= i < octant_pairs(radius).len() && in_reflections(
            (a, b),
            #[trigger] octant_pairs(radius)[i],
        );
    lemma_reflections_closed(a, b, octant_pairs(radius)[i]);
    assert(circle_offsets(radius).contains((-a, b)));
    assert(circle_offsets(radius).contains((a, -b)));
    assert(circle_offsets(radius).contains((b, a)));
}

/// 8-way symmetry: the offset set of a circle is closed under both axis
/// reflections and the swap of the two coordinates.
pub proof fn lemma_circle_symmetry(radius: int)
    ensures
        forall|a: int, b: int|
            #[trigger] circle_offsets(radius).contains((a, b)) <==> circle_offsets(
                radius,
            ).contains((-a, b)),
        forall|a: int, b: int|
            #[trigger] circle_offsets(radius).contains((a, b)) <==> circle_offsets(
                radius,
            ).contains((a, -b)),
        forall|a: int, b: int|
            #[trigger] circle_offsets(radius).contains((a, b)) <==> circle_offsets(
                radius,
            ).contains((b, a)),
{
    assert forall|a: int, b: int| #[trigger]
        circle_offsets(radius).contains((a, b)) <==> circle_offsets(radius).contains((-a, b)) by {
        if circle_offsets(radius).contains((a, b)) {
            lemma_circle_offsets_closed(radius, a, b);
        }
        if circle_offsets(radius).contains((-a, b)) {
            lemma_circle_offsets_closed(radius, -a, b);
        }
    }
    assert forall|a: int, b: int| #[trigger]
        circle_offsets(radius).contains((a, b)) <==> circle_offsets(radius).contains((a, -b)) by {
        if circle_offsets(radius).contains((a, b)) {
            lemma_circle_offsets_closed(radius, a, b);
        }
        if circle_offsets(radius).contains((a, -b)) {
            lemma_circle_offsets_closed(radius, a, -b);
        }
    }
    assert forall|a: int, b: int| #[trigger]
        circle_offsets(radius).contains((a, b)) <==> circle_offsets(radius).contains((b, a)) by {
        if circle_offsets(radius).contains((a, b)) {
            lemma_circle_offsets_closed(radius, a, b);
        }
        if circle_offsets(radius).contains((b, a)) {
            lemma_circle_offsets_closed(radius, b, a);
        }
    }
}

pub(crate) proof fn lemma_emit_pairs_push(cx: int, cy: int, pairs: Seq<(int, int)>, p: (int, int))
    ensures
        emit_pairs(cx, cy, pairs.push(p)) == emit_pairs(cx, cy, pairs) + reflect8(cx, cy, p),
    decreases pairs.len(),
{
    if pairs.len() == 0 {
        assert(pairs.push(p)[0] == p);
        assert(pairs.push(p).drop_first() =~= Seq::<(int, int)>::empty());
        assert(emit_pairs(cx, cy, pairs.push(p)) == reflect8(cx, cy, p) + emit_pairs(
            cx,
            cy,
            Seq::<(int, int)>::empty(),
        ));
        assert(emit_pairs(cx, cy, pairs.push(p)) =~= emit_pairs(cx, cy, pairs) + reflect8(
            cx,
            cy,
            p,
        ));
    } else {
        assert(pairs.push(p)[0] == pairs[0]);
        assert(pairs.push(p).drop_first() =~= pairs.drop_first().push(p));
        lemma_emit_pairs_push(cx, cy, pairs.drop_first(), p);
        assert(emit_pairs(cx, cy, pairs.push(p)) == reflect8(cx, cy, pairs[0]) + (emit_pairs(
            cx,
            cy,
            pairs.drop_first(),
        ) + reflect8(cx, cy, p)));
        assert(emit_pairs(cx, cy, pairs) == reflect8(cx, cy, pairs[0]) + emit_pairs(
            cx,
            cy,
            pairs.drop_first(),
        ));
        assert(reflect8(cx, cy, pairs[0]) + (emit_pairs(cx, cy, pairs.drop_first()) + reflect8(
            cx,
            cy,
            p,
        )) =~= (reflect8(cx, cy, pairs[0]) + emit_pairs(cx, cy, pairs.drop_first())) + reflect8(
            cx,
            cy,
            p,
        ));
    }
}

/// Midpoint circle rasterization with 8-way octant symmetry: each octant
/// step plots the eight sign/swap reflections of one (x, y) pair around
/// the center. A negative radius plots nothing.
///
/// The center bound keeps the plotted coordinates within `i64`.
pub fn circle<D: Display>(display: &mut D, cx: i64, cy: i64, radius: i64, color: &Color)
    requires
        old(display).inv(),
        -0x1000_0000_0000_0000 <= cx <= 0x1000_0000_0000_0000,
        -0x1000_0000_0000_0000 <= cy <= 0x1000_0000_0000_0000,
        radius <= 0x8000_0000,
    ensures
        final(display).inv(),
        final(display).plots() == old(display).plots() + with_color(
            circle_points(cx as int, cy as int, radius as int),
            *color,
        ),
{
    let mut x: i64 = 0;
    let mut y: i64 = radius;
    let mut delta: i128 = 1 - 2 * (radius as i128);
    let ghost full = circle_points(cx as int, cy as int, radius as int);
    let ghost mut taken: Seq<(int, int)> = Seq::empty();
    proof {
        assert(full == emit_pairs(cx as int, cy as int, taken) + emit_pairs(
            cx as int,
            cy as int,
            octant_rec(x as int, y as int, delta as int),
        ));
        assert(with_color(emit_pairs(cx as int, cy as int, taken), *color) =~= Seq::<
            (int, int, Color),
        >::empty());
    }
    while y >= x
        invariant
            display.inv(),
            radius >= 0 ==> 0 <= x <= radius + 1 && -1 <= y <= radius,
            radius < 0 ==> x == 0 && y == radius,
            radius <= 0x8000_0000,
            -0x1000_0000_0000_0000 <= cx <= 0x1000_0000_0000_0000,
            -0x1000_0000_0000_0000 <= cy <= 0x1000_0000_0000_0000,
            radius >= 0 ==> -(2 * (radius as int) + 1) - (radius + 1 - (y - x)) * 0x2_0000_0001
                <= delta as int <= (2 * (radius as int) + 1) + (radius + 1 - (y - x))
                * 0x2_0000_0001,
            full == emit_pairs(cx as int, cy as int, taken) + emit_pairs(
                cx as int,
                cy as int,
                octant_rec(x as int, y as int, delta as int),
            ),
            display.plots() == old(display).plots() + with_color(
                emit_pairs(cx as int, cy as int, taken),
                *color,
            ),
        decreases y - x + 2,
    {
        let ghost ox = x as int;
        let ghost oy = y as int;
        let ghost od = delta as int;
        display.plot(cx + x, cy + y, color);
        display.plot(cx + x, cy - y, color);
        display.plot(cx - x, cy + y, color);
        display.plot(cx - x, cy - y, color);
        display.plot(cx + y, cy + x, color);
        display.plot(cx + y, cy - x, color);
        display.plot(cx - y, cy + x, color);
        display.plot(cx - y, cy - x, color);
        let err: i128 = 2 * (delta + (y as i128)) - 1;
        if delta < 0 && err <= 0 {
            x += 1;
            delta += 2 * (x as i128) + 1;
        } else if delta > 0 && err > 0 {
            y -= 1;
            delta -= 2 * (y as i128) + 1;
        } else {
            x += 1;
            y -= 1;
            delta += 2 * ((x as i128) - (y as i128));
        }
        proof {
            let rest = octant_rec(ox, oy, od);
            assert(err as int == 2 * (od + oy) - 1);
            assert(rest == seq![(ox, oy)] + octant_rec(x as int, y as int, delta as int));
            lemma_emit_pairs_push(cx as int, cy as int, taken, (ox, oy));
            let emitted_old = emit_pairs(cx as int, cy as int, taken);
            let refl = reflect8(cx as int, cy as int, (ox, oy));
            assert(emit_pairs(cx as int, cy as int, rest) == refl + emit_pairs(
                cx as int,
                cy as int,
                rest.drop_first(),
            ));
            assert(rest.drop_first() =~= octant_rec(x as int, y as int, delta as int));
            assert(emitted_old + (refl + emit_pairs(
                cx as int,
                cy as int,
                octant_rec(x as int, y as int, delta as int),
            )) =~= (emitted_old + refl) + emit_pairs(
                cx as int,
                cy as int,
                octant_rec(x as int, y as int, delta as int),
            ));
            assert(with_color(emitted_old + refl, *color) =~= with_color(emitted_old, *color)
                + with_color(refl, *color));
            assert(display.plots() =~= old(display).plots() + with_color(
                emitted_old + refl,
                *color,
            ));
            taken = taken.push((ox, oy));
            assert(emit_pairs(cx as int, cy as int, taken) == emitted_old + refl);
        }
    }
    proof {
        assert(octant_rec(x as int, y as int, delta as int) =~= Seq::<(int, int)>::empty());
        assert(emit_pairs(cx as int, cy as int, octant_rec(x as int, y as int, delta as int)) =~= Seq::<
            (int, int),
        >::empty());
        assert(full =~= emit_pairs(cx as int, cy as int, taken));
    }
}

} // verus!
