//! The point model: coordinates as scaled integers, the unit-disk classifier,
//! and the two fixed reference outlines (circle steps and bounding square).

use vstd::prelude::*;

verus! {

/// Number of integer units that stand for the real value 1.0. A coordinate
/// `c: i64` denotes the real number `c / SCALE`.
pub const SCALE: i64 = 1_000_000_000;

/// A sampled point; `x` and `y` are scaled by [`SCALE`].
#[derive(Clone, Copy, PartialEq, Eq, Structural, Debug)]
pub struct Point {
    pub x: i64,
    pub y: i64,
}

/// The closed unit disk: x^2 + y^2 <= 1, in scaled units.
pub open spec fn in_unit_disk(x: int, y: int) -> bool {
    x * x + y * y <= (SCALE as int) * (SCALE as int)
}

/// The half-open square [-1, 1) x [-1, 1) that the dart generator draws from.
pub open spec fn in_sample_square(p: Point) -> bool {
    -SCALE <= p.x < SCALE && -SCALE <= p.y < SCALE
}

/// The closed square [-1, 1] x [-1, 1]; every stored point stays inside it.
pub open spec fn in_closed_square(p: Point) -> bool {
    -SCALE <= p.x <= SCALE && -SCALE <= p.y <= SCALE
}

/// True iff `(x, y)` lies within or on the unit circle centered at the
/// origin. Total: any representable coordinates are accepted.
pub fn classify(x: i64, y: i64) -> (r: bool)
    ensures
        r == in_unit_disk(x as int, y as int),
{
    let xw: i128 = x as i128;
    let yw: i128 = y as i128;
    proof {
        assert(xw * xw <= 0x8000_0000_0000_0000i128 * 0x8000_0000_0000_0000i128
            && xw * xw >= 0) by (nonlinear_arith)
            requires
                -0x8000_0000_0000_0000i128 <= xw <= 0x8000_0000_0000_0000i128,
        ;
        assert(yw * yw <= 0x8000_0000_0000_0000i128 * 0x8000_0000_0000_0000i128
            && yw * yw >= 0) by (nonlinear_arith)
            requires
                -0x8000_0000_0000_0000i128 <= yw <= 0x8000_0000_0000_0000i128,
        ;
    }
    let xx: i128 = xw * xw;
    let yy: i128 = yw * yw;
    proof {
        assert(SCALE == 1_000_000_000i64);
        assert((SCALE as i128) * (SCALE as i128) == 1_000_000_000_000_000_000i128)
            by (nonlinear_arith)
            requires
                SCALE == 1_000_000_000i64,
        ;
    }
    let ss: i128 = (SCALE as i128) * (SCALE as i128);
    if xx > ss {
        false
    } else {
        yy <= ss - xx
    }
}

/// How many of the points of `ps` lie in the closed unit disk.
pub open spec fn count_inside(ps: Seq<Point>) -> int
    decreases ps.len(),
{
    if ps.len() == 0 {
        0
    } else {
        count_inside(ps.drop_last()) + if in_unit_disk(ps.last().x as int, ps.last().y as int) {
            1int
        } else {
            0int
        }
    }
}

/// Number of segments of the reference circle polyline; the polyline itself
/// has one vertex more, so that it closes.
pub const CIRCLE_SEGMENTS: u64 = 512;

/// The vertices of the reference circle, by angle step: entry `i` stands for
/// the direction at angle `i / CIRCLE_SEGMENTS` of a full turn, that is the
/// point `(cos(2*pi*i/512), sin(2*pi*i/512))`. The first and the last entry
/// denote the same direction (step 0 and step 512 differ by a full turn), so
/// the polyline is closed.
pub fn circle_steps() -> (r: Vec<u64>)
    ensures
        r@.len() == CIRCLE_SEGMENTS + 1,
        forall|i: int| 0 <= i < r@.len() ==> r@[i] == i,
        (r@[0] as int) % (CIRCLE_SEGMENTS as int) == (r@[r@.len() - 1] as int) % (
        CIRCLE_SEGMENTS as int),
{
    let mut r: Vec<u64> = Vec::new();
    let mut i: u64 = 0;
    while i <= CIRCLE_SEGMENTS
        invariant
            i <= CIRCLE_SEGMENTS + 1,
            r@.len() == i,
            forall|j: int| 0 <= j < r@.len() ==> r@[j] == j,
        decreases CIRCLE_SEGMENTS + 1 - i,
    {
        r.push(i);
        i = i + 1;
    }
    r
}

/// The vertices of the reference square outline, in drawing order.
pub open spec fn square_outline_spec() -> Seq<Point> {
    seq![
        (Point { x: ((-SCALE) as i64), y: ((-SCALE) as i64) }),
        (Point { x: SCALE, y: ((-SCALE) as i64) }),
        (Point { x: SCALE, y: SCALE }),
        (Point { x: ((-SCALE) as i64), y: SCALE }),
        (Point { x: ((-SCALE) as i64), y: ((-SCALE) as i64) }),
    ]
}

/// The closed 5-point outline of the bounding square
/// (-1,-1) -> (1,-1) -> (1,1) -> (-1,1) -> (-1,-1).
pub fn square_outline() -> (r: Vec<Point>)
    ensures
        r@ == square_outline_spec(),
        r@.len() == 5,
        r@[0] == r@[4],
{
    let mut r: Vec<Point> = Vec::new();
    r.push(Point { x: -SCALE, y: -SCALE });
    r.push(Point { x: SCALE, y: -SCALE });
    r.push(Point { x: SCALE, y: SCALE });
    r.push(Point { x: -SCALE, y: SCALE });
    r.push(Point { x: -SCALE, y: -SCALE });
    proof {
        assert(r@ =~= square_outline_spec());
    }
    r
}

} // verus!
