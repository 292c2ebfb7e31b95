use vstd::prelude::*;

use crate::circle::{error_of, nearest_y_of, Circle};
use crate::error::ShapeError;
use crate::point::{abs, adjacent, has_neighbours, neighbours_of, Coord, Point2D, lemma_neighbours_adjacent};

verus! {

/// A walk at `cur` that came from `prev` may step to `q`: it never steps straight back.
pub open spec fn allowed(prev: Option<Point2D>, q: Point2D) -> bool {
    prev != Some(q)
}

/// The closeness of `p` to the circle: the absolute value of its error.
pub open spec fn abs_error(c: Circle, p: Point2D) -> int {
    abs(error_of(c, p))
}

/// Neighbour `i` of `cur` is the walk's choice: among the allowed neighbours it has the least
/// absolute error, and no allowed neighbour before it in the enumeration order has as little.
pub open spec fn is_choice(c: Circle, cur: Point2D, prev: Option<Point2D>, i: int) -> bool {
    let n = neighbours_of(cur);
    &&& 0 <= i < 8
    &&& allowed(prev, n[i])
    &&& forall|j: int|
        0 <= j < 8 && allowed(prev, #[trigger] n[j]) ==> abs_error(c, n[i]) <= abs_error(c, n[j])
    &&& forall|j: int|
        0 <= j < i && allowed(prev, #[trigger] n[j]) ==> abs_error(c, n[i]) < abs_error(c, n[j])
}

/// The point that a walk at `cur`, having come from `prev`, steps to; none where no neighbour
/// is allowed.
#[verifier::opaque]
pub open spec fn select(c: Circle, cur: Point2D, prev: Option<Point2D>) -> Option<Point2D> {
    if exists|i: int| is_choice(c, cur, prev, i) {
        Some(neighbours_of(cur)[choose|i: int| is_choice(c, cur, prev, i)])
    } else {
        None
    }
}

/// Where a walk on the circle starts: the top of the circle, in column zero.
pub open spec fn start_of(c: Circle) -> Option<Point2D> {
    match nearest_y_of(c, 0) {
        Some(y) => Some(Point2D { x: 0, y: y as Coord }),
        None => None,
    }
}

/// `p` lies on the canvas of the circle widened by one cell on each side.
pub open spec fn in_box(c: Circle, p: Point2D) -> bool {
    abs(p.x as int) <= c.radius + 1 && abs(p.y as int) <= c.radius + 1
}

/// The most points a closed walk can have: each of them is a distinct state (the point
/// and where the walk came from), and there are `9 * (2 * radius + 3)^2` such states in
/// the widened canvas.
pub open spec fn walk_cap(c: Circle) -> int {
    9 * ((2 * c.radius + 3) * (2 * c.radius + 3))
}

/// The point before index `i` of a walk; none at its start.
pub open spec fn prev_of(v: Seq<Point2D>, i: int) -> Option<Point2D> {
    if i == 0 {
        None
    } else {
        Some(v[i - 1])
    }
}

/// `v` is a walk on the circle that has not yet returned: it begins at the start, each point
/// is the selected step from the one before, and none after the first is the start.
pub open spec fn is_walk(c: Circle, v: Seq<Point2D>) -> bool {
    &&& v.len() >= 1
    &&& start_of(c) == Some(v[0])
    &&& forall|i: int|
        0 <= i < v.len() - 1 ==> select(c, #[trigger] v[i], prev_of(v, i)) == Some(v[i + 1])
            && v[i + 1] != v[0]
}

/// `v` is a complete walk: the step from its last point leads back to its first.
pub open spec fn is_closed_walk(c: Circle, v: Seq<Point2D>) -> bool {
    &&& is_walk(c, v)
    &&& select(c, v.last(), prev_of(v, v.len() - 1)) == Some(v[0])
}

/// All points of `v` but the last lie in the widened canvas.
pub open spec fn boxed_before_last(c: Circle, v: Seq<Point2D>) -> bool {
    forall|i: int| 0 <= i < v.len() - 1 ==> in_box(c, #[trigger] v[i])
}

/// `v` is what tracing the circle returns: the closed walk, within the widened canvas and
/// within the cap, its consecutive points adjacent and never stepping straight back.
pub open spec fn traced_walk(c: Circle, v: Seq<Point2D>) -> bool {
    &&& is_closed_walk(c, v)
    &&& v.len() <= walk_cap(c)
    &&& forall|i: int| 0 <= i < v.len() ==> in_box(c, #[trigger] v[i])
    &&& forall|i: int| 0 <= i < v.len() - 1 ==> adjacent(#[trigger] v[i], v[i + 1])
    &&& forall|i: int| 1 <= i < v.len() - 1 ==> #[trigger] v[i + 1] != v[i - 1]
}

/// The points that tracing the circle returns: the single point at the origin for radius
/// zero, whose circle is that point (a walk from it would step off it), and the traced walk
/// otherwise.
pub open spec fn trace_points(c: Circle, v: Seq<Point2D>) -> bool {
    if c.radius == 0 {
        v == seq![Point2D { x: 0, y: 0 }]
    } else {
        traced_walk(c, v)
    }
}

/// What tracing the circle gives: its points, or the error that the walk met. Radius zero
/// never fails.
pub open spec fn traces(c: Circle, r: Result<Vec<Point2D>, ShapeError>) -> bool {
    match r {
        Ok(v) => trace_points(c, v@),
        Err(ShapeError::NoIntersection) => start_of(c) is None,
        Err(_) if c.radius == 0 => false,
        Err(ShapeError::NoTraceableNeighbor) => exists|w: Seq<Point2D>|
            {
                &&& #[trigger] is_walk(c, w)
                &&& forall|i: int| 0 <= i < w.len() ==> in_box(c, #[trigger] w[i])
                &&& select(c, w.last(), prev_of(w, w.len() - 1)) is None
            },
        Err(ShapeError::OutOfBounds) => exists|w: Seq<Point2D>|
            {
                &&& #[trigger] is_walk(c, w)
                &&& boxed_before_last(c, w)
                &&& !in_box(c, w.last())
            },
        Err(ShapeError::Unclosed) => exists|w: Seq<Point2D>|
            {
                &&& #[trigger] is_walk(c, w)
                &&& boxed_before_last(c, w)
                &&& w.len() == walk_cap(c) + 1
            },
    }
}

/// At most one neighbour is the walk's choice.
proof fn lemma_choice_unique(c: Circle, cur: Point2D, prev: Option<Point2D>, i: int, k: int)
    requires
        is_choice(c, cur, prev, i),
        is_choice(c, cur, prev, k),
    ensures
        i == k,
{
    let n = neighbours_of(cur);
    if i < k {
        assert(abs_error(c, n[k]) < abs_error(c, n[i]));
    } else if k < i {
        assert(abs_error(c, n[i]) < abs_error(c, n[k]));
    }
}

/// The step of a walk is an allowed neighbour.
proof fn lemma_select_steps(c: Circle, cur: Point2D, prev: Option<Point2D>)
    requires
        has_neighbours(cur),
    ensures
        select(c, cur, prev) matches Some(q) ==> adjacent(cur, q) && allowed(prev, q),
{
    reveal(select);
    lemma_neighbours_adjacent(cur);
    if exists|i: int| is_choice(c, cur, prev, i) {
        let k = choose|i: int| is_choice(c, cur, prev, i);
        assert(adjacent(cur, neighbours_of(cur)[k]));
    }
}

/// The best allowed neighbour among the first `m`, or `-1` where none of them is allowed.
proof fn lemma_best_below(c: Circle, cur: Point2D, prev: Option<Point2D>, m: int) -> (b: int)
    requires
        0 <= m <= 8,
    ensures
        b == -1 ==> forall|j: int| 0 <= j < m ==> !allowed(prev, #[trigger] neighbours_of(cur)[j]),
        b != -1 ==> {
            let n = neighbours_of(cur);
            &&& 0 <= b < m
            &&& allowed(prev, n[b])
            &&& forall|j: int|
                0 <= j < m && allowed(prev, #[trigger] n[j]) ==> abs_error(c, n[b]) <= abs_error(c, n[j])
            &&& forall|j: int|
                0 <= j < b && allowed(prev, #[trigger] n[j]) ==> abs_error(c, n[b]) < abs_error(c, n[j])
        },
    decreases m,
{
    if m == 0 {
        -1
    } else {
        let n = neighbours_of(cur);
        let b = lemma_best_below(c, cur, prev, m - 1);
        if !allowed(prev, n[m - 1]) {
            b
        } else if b == -1 || abs_error(c, n[m - 1]) < abs_error(c, n[b]) {
            m - 1
        } else {
            b
        }
    }
}

/// A walk always has a step: only one neighbour is ever excluded, and there are eight.
pub proof fn lemma_step_exists(c: Circle, cur: Point2D, prev: Option<Point2D>)
    requires
        has_neighbours(cur),
    ensures
        select(c, cur, prev) is Some,
{
    reveal(select);
    let n = neighbours_of(cur);
    let b = lemma_best_below(c, cur, prev, 8);
    if b == -1 {
        assert(!allowed(prev, n[0]) && !allowed(prev, n[1]));
        assert(n[0] != n[1]);
    }
    assert(is_choice(c, cur, prev, b));
}

/// Two walks of the circle agree on their first `m` points.
proof fn lemma_walks_agree(c: Circle, v1: Seq<Point2D>, v2: Seq<Point2D>, m: int)
    requires
        is_walk(c, v1),
        is_walk(c, v2),
        1 <= m <= v1.len(),
        m <= v2.len(),
    ensures
        forall|i: int| 0 <= i < m ==> v1[i] == v2[i],
    decreases m,
{
    if m > 1 {
        lemma_walks_agree(c, v1, v2, m - 1);
        let i = m - 2;
        assert(v1[i] == v2[i]);
        assert(prev_of(v1, i) == prev_of(v2, i));
        assert(select(c, v1[i], prev_of(v1, i)) == Some(v1[i + 1]));
        assert(select(c, v2[i], prev_of(v2, i)) == Some(v2[i + 1]));
    }
}

/// The circle has at most one closed walk: tracing it has a single possible result.
pub proof fn lemma_closed_walk_unique(c: Circle, v1: Seq<Point2D>, v2: Seq<Point2D>)
    requires
        is_closed_walk(c, v1),
        is_closed_walk(c, v2),
    ensures
        v1 == v2,
{
    if v1.len() <= v2.len() {
        lemma_walks_agree(c, v1, v2, v1.len() as int);
    } else {
        lemma_walks_agree(c, v1, v2, v2.len() as int);
    }
    if v1.len() < v2.len() {
        let m = v1.len() - 1;
        assert(prev_of(v1, m) == prev_of(v2, m));
        assert(select(c, v2[m], prev_of(v2, m)) == Some(v2[m + 1]));
    } else if v2.len() < v1.len() {
        let m = v2.len() - 1;
        assert(prev_of(v1, m) == prev_of(v2, m));
        assert(select(c, v1[m], prev_of(v1, m)) == Some(v1[m + 1]));
    }
    assert(v1 =~= v2);
}

/// Every walk on the circle, finished or not, steps between adjacent points and never
/// straight back to the point it came from.
pub proof fn lemma_walk_steps(c: Circle, v: Seq<Point2D>)
    requires
        is_walk(c, v),
        boxed_before_last(c, v),
        c.radius <= Coord::MAX - 2,
    ensures
        forall|i: int| 0 <= i < v.len() - 1 ==> adjacent(#[trigger] v[i], v[i + 1]),
        forall|i: int| 1 <= i < v.len() - 1 ==> #[trigger] v[i + 1] != v[i - 1],
{
    assert forall|i: int| 0 <= i < v.len() - 1 implies adjacent(#[trigger] v[i], v[i + 1])
        && allowed(prev_of(v, i), v[i + 1]) by {
        assert(in_box(c, v[i]));
        lemma_select_steps(c, v[i], prev_of(v, i));
    }
    assert forall|i: int| 1 <= i < v.len() - 1 implies #[trigger] v[i + 1] != v[i - 1] by {
        assert(adjacent(v[i], v[i + 1]) && allowed(prev_of(v, i), v[i + 1]));
    }
}

/// A walk that has not returned grows by its next step.
proof fn lemma_walk_extends(c: Circle, w: Seq<Point2D>, next: Point2D)
    requires
        is_walk(c, w),
        select(c, w.last(), prev_of(w, w.len() - 1)) == Some(next),
        next != w[0],
    ensures
        is_walk(c, w.push(next)),
{
    let w2 = w.push(next);
    assert forall|i: int| 0 <= i < w2.len() - 1 implies select(c, #[trigger] w2[i], prev_of(w2, i))
        == Some(w2[i + 1]) && w2[i + 1] != w2[0] by {
        if i < w2.len() - 2 {
            assert(w2[i] == w[i] && w2[i + 1] == w[i + 1]);
            assert(prev_of(w2, i) == prev_of(w, i));
        } else {
            assert(w2[i] == w.last());
            assert(prev_of(w2, i) == prev_of(w, w.len() - 1));
        }
    }
}

impl Circle {
    /// Whether `p` lies in the canvas widened by one cell on each side.
    fn in_box(&self, p: Point2D) -> (r: bool)
        ensures
            r == in_box(*self, p),
    {
        let r = self.radius as i64 + 1;
        let x = p.x as i64;
        let y = p.y as i64;
        -r <= x && x <= r && -r <= y && y <= r
    }

    /// The step of a walk at `cur` that came from `prev`.
    fn select(&self, cur: Point2D, prev: Option<Point2D>) -> (r: Option<Point2D>)
        requires
            0 <= self.radius <= Coord::MAX - 2,
            in_box(*self, cur),
        ensures
            r == select(*self, cur, prev),
    {
        let n = cur.neighbours();
        let ghost ns = neighbours_of(cur);
        let ghost rr = self.radius as int;
        let mut best: usize = 8;
        let mut best_err: i64 = 0;
        let mut i: usize = 0;
        while i < 8
            invariant
                0 <= rr <= Coord::MAX - 2,
                rr == self.radius,
                in_box(*self, cur),
                n@ == ns,
                ns == neighbours_of(cur),
                i <= 8,
                best <= 8,
                best == 8 ==> forall|j: int| 0 <= j < i ==> !allowed(prev, #[trigger] ns[j]),
                best < 8 ==> {
                    &&& best < i
                    &&& allowed(prev, ns[best as int])
                    &&& best_err == abs_error(*self, ns[best as int])
                    &&& forall|j: int|
                        0 <= j < i && allowed(prev, #[trigger] ns[j]) ==> best_err <= abs_error(*self, ns[j])
                    &&& forall|j: int|
                        0 <= j < best && allowed(prev, #[trigger] ns[j]) ==> best_err < abs_error(*self, ns[j])
                },
            decreases 8 - i,
        {
            let q = n[i];
            let ok = match prev {
                Some(p) => p != q,
                None => true,
            };
            assert(q == ns[i as int]);
            assert(ok == allowed(prev, q));
            if ok {
                let ghost x = q.x as int;
                let ghost y = q.y as int;
                assert(x * x + y * y - rr * rr <= rr * rr + 8 * rr + 8) by (nonlinear_arith)
                    requires
                        0 <= rr,
                        -rr - 2 <= x <= rr + 2,
                        -rr - 2 <= y <= rr + 2,
                ;
                assert(rr * rr + 8 * rr + 8 <= 0x4000_0004_0000_0000) by (nonlinear_arith)
                    requires
                        0 <= rr <= 0x7fff_fffd,
                ;
                assert(0 <= x * x + y * y) by (nonlinear_arith);
                assert(rr * rr <= 0x4000_0000_0000_0000) by (nonlinear_arith)
                    requires
                        0 <= rr <= 0x7fff_fffd,
                ;
                let e = self.err(q);
                let a = if e < 0 { -e } else { e };
                assert(a == abs_error(*self, q));
                if best == 8 || a < best_err {
                    best = i;
                    best_err = a;
                }
            }
            i = i + 1;
        }
        proof {
            reveal(select);
        }
        if best == 8 {
            None
        } else {
            proof {
                assert(is_choice(*self, cur, prev, best as int));
                let k = choose|k: int| is_choice(*self, cur, prev, k);
                lemma_choice_unique(*self, cur, prev, best as int, k);
            }
            Some(n[best])
        }
    }

    /// Traces the circle by a walk on the lattice: from the top of the circle, step each time
    /// to the allowed neighbour of least absolute error (the first in enumeration order on a
    /// tie), never straight back, and stop on returning to the start. The start is not
    /// repeated at the end. A circle of radius zero is the origin alone, and traces to it.
    pub fn trace(&self) -> (r: Result<Vec<Point2D>, ShapeError>)
        requires
            self.radius <= Coord::MAX - 2,
        ensures
            traces(*self, r),
    {
        let start = match self.get_y(0) {
            Some(y) => Point2D { x: 0, y },
            None => {
                return Err(ShapeError::NoIntersection);
            },
        };
        assert(self.radius >= 0);
        if self.radius == 0 {
            let v = vec![start];
            assert(v@ =~= seq![Point2D { x: 0, y: 0 }]);
            return Ok(v);
        }
        let side: u128 = 2 * (self.radius as u128) + 3;
        assert(side * side <= 0x1_0000_0001 * 0x1_0000_0001) by (nonlinear_arith)
            requires
                0 <= side <= 0x1_0000_0001,
        ;
        assert(9 <= side * side) by (nonlinear_arith)
            requires
                3 <= side,
        ;
        let cap: u128 = 9 * (side * side);
        let mut curve: Vec<Point2D> = Vec::new();
        let mut current = start;
        let mut last: Option<Point2D> = None;
        let ghost mut w: Seq<Point2D> = seq![start];
        loop
            invariant
                1 <= self.radius <= Coord::MAX - 2,
                start_of(*self) == Some(start),
                cap == walk_cap(*self),
                curve.len() < cap,
                w == curve@.push(current),
                is_walk(*self, w),
                boxed_before_last(*self, w),
                last == prev_of(w, curve.len() as int),
                forall|i: int| 0 <= i < w.len() - 1 ==> adjacent(#[trigger] w[i], w[i + 1]),
                forall|i: int| 1 <= i < w.len() - 1 ==> #[trigger] w[i + 1] != w[i - 1],
            decreases cap - curve.len(),
        {
            assert(w[0] == start);
            if !self.in_box(current) {
                return Err(ShapeError::OutOfBounds);
            }
            curve.push(current);
            assert(curve@ == w);
            assert(w.last() == current);
            let next = match self.select(current, last) {
                Some(q) => q,
                None => {
                    return Err(ShapeError::NoTraceableNeighbor);
                },
            };
            proof {
                lemma_select_steps(*self, current, last);
            }
            if next == start {
                return Ok(curve);
            }
            proof {
                lemma_walk_extends(*self, w, next);
            }
            let ghost w2 = w.push(next);
            if curve.len() as u128 >= cap {
                assert(boxed_before_last(*self, w2));
                return Err(ShapeError::Unclosed);
            }
            assert(forall|i: int| 0 <= i < w2.len() - 1 ==> adjacent(#[trigger] w2[i], w2[i + 1]));
            assert(forall|i: int| 1 <= i < w2.len() - 1 ==> #[trigger] w2[i + 1] != w2[i - 1]);
            last = Some(current);
            current = next;
            proof {
                w = w2;
            }
        }
    }
}

} // verus!
