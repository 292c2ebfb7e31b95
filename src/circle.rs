use vstd::prelude::*;

use crate::point::{abs, Coord, Point2D};

verus! {

/// A circle centred on the origin.
#[derive(Copy, Clone, Debug, PartialEq, Eq, Structural)]
pub struct Circle {
    pub radius: Coord,
}

/// `k` is the integer nearest to the square root of `d`: `k - 1/2 < sqrt(d) < k + 1/2`,
/// squared and scaled by four. The square root of an integer is never halfway between two
/// integers, so no tie arises and `k` is unique.
pub open spec fn rounds_sqrt(d: int, k: int) -> bool {
    &&& 0 <= k
    &&& 4 * d < (2 * k + 1) * (2 * k + 1)
    &&& (k == 0 || (2 * k - 1) * (2 * k - 1) < 4 * d)
}

/// The signed error of `p` against the circle: `x^2 + y^2 - radius^2`.
pub open spec fn error_of(c: Circle, p: Point2D) -> int {
    p.x * p.x + p.y * p.y - c.radius * c.radius
}

/// The ordinate nearest to the circle in column `x`, for `|x| <= radius`; none elsewhere.
pub open spec fn nearest_y_of(c: Circle, x: int) -> Option<int> {
    if abs(x) > c.radius {
        None
    } else {
        Some(choose|k: int| #[trigger] rounds_sqrt(c.radius * c.radius - x * x, k))
    }
}

/// `p` is on the row-scan boundary: its row lies within the radius and its abscissa, up to
/// sign, is the rounded `sqrt(radius^2 - y^2)`.
pub open spec fn on_row_scan(c: Circle, p: Point2D) -> bool {
    &&& -c.radius <= p.y <= c.radius
    &&& rounds_sqrt(c.radius * c.radius - p.y * p.y, abs(p.x as int))
}

/// At most one integer is nearest to a square root.
pub proof fn lemma_rounds_sqrt_unique(d: int, k1: int, k2: int)
    requires
        rounds_sqrt(d, k1),
        rounds_sqrt(d, k2),
    ensures
        k1 == k2,
{
    if k1 < k2 {
        assert((2 * k1 + 1) * (2 * k1 + 1) <= (2 * k2 - 1) * (2 * k2 - 1)) by (nonlinear_arith)
            requires
                0 <= 2 * k1 + 1 <= 2 * k2 - 1,
        ;
    } else if k2 < k1 {
        assert((2 * k2 + 1) * (2 * k2 + 1) <= (2 * k1 - 1) * (2 * k1 - 1)) by (nonlinear_arith)
            requires
                0 <= 2 * k2 + 1 <= 2 * k1 - 1,
        ;
    }
}

/// The rounded square root of `d` is at most `r` when `d <= r^2`.
proof fn lemma_rounds_sqrt_le(d: int, k: int, r: int)
    requires
        rounds_sqrt(d, k),
        0 <= r,
        d <= r * r,
    ensures
        k <= r,
{
    if k > r {
        assert(4 * (r * r) < (2 * k - 1) * (2 * k - 1)) by (nonlinear_arith)
            requires
                0 <= r,
                r + 1 <= k,
        ;
    }
}

/// The nearest ordinate, given that `k` is the rounded root of its column.
proof fn lemma_nearest_y_is(c: Circle, x: int, k: int)
    requires
        abs(x) <= c.radius,
        rounds_sqrt(c.radius * c.radius - x * x, k),
    ensures
        nearest_y_of(c, x) == Some(k),
{
    let d = c.radius * c.radius - x * x;
    let j = choose|j: int| #[trigger] rounds_sqrt(d, j);
    lemma_rounds_sqrt_unique(d, j, k);
}

/// The nearest ordinate is `0` in the column of the radius, and there is none one column
/// further out.
pub proof fn lemma_nearest_y_at_radius(c: Circle)
    requires
        0 <= c.radius,
    ensures
        nearest_y_of(c, c.radius as int) == Some(0int),
        nearest_y_of(c, c.radius + 1) is None,
{
    assert(c.radius * c.radius - c.radius * c.radius == 0);
    assert((2 * 0int + 1) * (2 * 0int + 1) == 1) by (nonlinear_arith);
    assert(rounds_sqrt(0, 0));
    lemma_nearest_y_is(c, c.radius as int, 0);
}

/// The row scan is symmetric about the vertical axis.
pub proof fn lemma_row_scan_symmetric(c: Circle, p: Point2D)
    requires
        on_row_scan(c, p),
        p.x != 0,
    ensures
        on_row_scan(c, Point2D { x: (-p.x) as Coord, y: p.y }),
{
    lemma_row_scan_within(c, p);
}

/// Each point of the row scan falls on the canvas of side `2 * radius + 1`.
pub proof fn lemma_row_scan_within(c: Circle, p: Point2D)
    requires
        on_row_scan(c, p),
    ensures
        abs(p.x as int) <= c.radius,
        abs(p.y as int) <= c.radius,
{
    assert(0 <= c.radius * c.radius - p.y * p.y <= c.radius * c.radius) by (nonlinear_arith)
        requires
            -c.radius <= p.y <= c.radius,
    ;
    lemma_rounds_sqrt_le(c.radius * c.radius - p.y * p.y, abs(p.x as int), c.radius as int);
}

/// The integer nearest to the square root of `d`.
pub(crate) fn round_sqrt(d: i64) -> (k: i64)
    requires
        0 <= d <= 0x4000_0000_0000_0000,
    ensures
        rounds_sqrt(d as int, k as int),
{
    // the smallest `k` with `4d < (2k + 1)^2`; the bound `hi` already meets it
    let four_d: u128 = 4 * (d as u128);
    let mut lo: u64 = 0;
    let mut hi: u64 = 0x8000_0001;
    assert(4 * d < 0x1_0000_0003 * 0x1_0000_0003);
    while lo < hi
        invariant
            lo <= hi <= 0x8000_0001,
            four_d == 4 * d,
            4 * d < (2 * hi + 1) * (2 * hi + 1),
            lo == 0 || (2 * lo - 1) * (2 * lo - 1) <= 4 * d,
        decreases hi - lo,
    {
        let mid: u64 = lo + (hi - lo) / 2;
        let t: u128 = 2 * (mid as u128) + 1;
        assert(t * t <= 0x1_0000_0003 * 0x1_0000_0003) by (nonlinear_arith)
            requires
                0 <= t <= 0x1_0000_0003,
        ;
        if four_d < t * t {
            hi = mid;
        } else {
            lo = mid + 1;
        }
    }
    // an odd square never equals the even `4d`
    assert((2 * lo - 1) * (2 * lo - 1) == 4 * (lo * lo - lo) + 1) by (nonlinear_arith);
    lo as i64
}

impl Circle {
    /// The signed error of `point`: zero on the circle, negative inside, positive outside.
    pub fn err(&self, point: Point2D) -> (r: i64)
        requires
            error_of(*self, point) <= i64::MAX,
        ensures
            r == error_of(*self, point),
    {
        let x = point.x as i64;
        let y = point.y as i64;
        let r = self.radius as i64;
        assert(0 <= x * x <= 0x4000_0000_0000_0000) by (nonlinear_arith)
            requires -0x8000_0000 <= x <= 0x7fff_ffff;
        assert(0 <= y * y <= 0x4000_0000_0000_0000) by (nonlinear_arith)
            requires -0x8000_0000 <= y <= 0x7fff_ffff;
        assert(0 <= r * r <= 0x4000_0000_0000_0000) by (nonlinear_arith)
            requires -0x8000_0000 <= r <= 0x7fff_ffff;
        x * x - r * r + y * y
    }

    /// The ordinate nearest to the circle in column `x`: the rounded `sqrt(radius^2 - x^2)`
    /// where `|x| <= radius`, and none where the column misses the circle.
    pub fn get_y(&self, x: Coord) -> (r: Option<Coord>)
        ensures
            r matches Some(y) ==> rounds_sqrt(self.radius * self.radius - x * x, y as int),
            r matches Some(y) ==> nearest_y_of(*self, x as int) == Some(y as int),
            r is None <==> abs(x as int) > self.radius,
    {
        let r = self.radius as i64;
        let x = x as i64;
        if x > r || -x > r {
            None
        } else {
            assert(0 <= r * r - x * x <= r * r) by (nonlinear_arith)
                requires
                    -r <= x <= r,
            ;
            assert(r * r <= 0x4000_0000_0000_0000) by (nonlinear_arith)
                requires 0 <= r <= 0x7fff_ffff;
            let k = round_sqrt(r * r - x * x);
            proof {
                lemma_rounds_sqrt_le((r * r - x * x) as int, k as int, r as int);
                lemma_nearest_y_is(*self, x as int, k as int);
            }
            Some(k as Coord)
        }
    }

    /// The boundary found row by row: for each `y` in `[-radius, radius]`, the points
    /// `(x, y)` and `(-x, y)` with `x` the rounded `sqrt(radius^2 - y^2)` (one point where
    /// `x` is zero).
    pub fn boundary(&self) -> (r: Vec<Point2D>)
        ensures
            forall|p: Point2D| r@.contains(p) <==> #[trigger] on_row_scan(*self, p),
    {
        let r = self.radius as i64;
        let mut out: Vec<Point2D> = Vec::new();
        if r < 0 {
            return out;
        }
        assert(r * r <= 0x4000_0000_0000_0000) by (nonlinear_arith)
            requires 0 <= r <= 0x7fff_ffff;
        let mut y: i64 = -r;
        while y <= r
            invariant
                0 <= r <= 0x7fff_ffff,
                r == self.radius,
                r * r <= 0x4000_0000_0000_0000,
                -r <= y <= r + 1,
                forall|p: Point2D| out@.contains(p) <==> (#[trigger] on_row_scan(*self, p) && p.y < y),
            decreases r + 1 - y,
        {
            assert(0 <= r * r - y * y <= r * r) by (nonlinear_arith)
                requires
                    -r <= y <= r,
            ;
            let k = round_sqrt(r * r - y * y);
            proof {
                lemma_rounds_sqrt_le((r * r - y * y) as int, k as int, r as int);
            }
            let ghost before = out@;
            let right = Point2D { x: k as Coord, y: y as Coord };
            let left = Point2D { x: -k as Coord, y: y as Coord };
            out.push(right);
            assert(out@[before.len() as int] == right);
            if k != 0 {
                out.push(left);
                assert(out@[before.len() + 1int] == left);
            }
            assert(out@[before.len() as int] == right);
            assert(forall|i: int| 0 <= i < before.len() ==> out@[i] == before[i]);
            proof {
                assert forall|p: Point2D| out@.contains(p) <==> (#[trigger] on_row_scan(*self, p) && p.y < y + 1) by {
                    if out@.contains(p) && !before.contains(p) {
                        assert(p == right || p == left);
                    }
                    if on_row_scan(*self, p) && p.y == y {
                        lemma_rounds_sqrt_unique((r * r - y * y) as int, k as int, abs(p.x as int));
                        assert(p == right || p == left);
                        assert(out@.contains(right));
                        if k != 0 {
                            assert(out@.contains(left));
                        }
                    }
                    if before.contains(p) {
                        let i = choose|i: int| 0 <= i < before.len() && before[i] == p;
                        assert(out@[i] == p);
                    }
                }
            }
            y = y + 1;
        }
        out
    }
}

} // verus!
