use vstd::prelude::*;

verus! {

/// A coordinate on the lattice.
pub type Coord = i32;

/// A point of the integer plane.
#[derive(Copy, Clone, Debug, PartialEq, Eq, Structural)]
pub struct Point2D {
    pub x: Coord,
    pub y: Coord,
}

/// The point at offset `(dx, dy)` from `p`.
pub open spec fn offset(p: Point2D, dx: int, dy: int) -> Point2D {
    Point2D { x: (p.x + dx) as Coord, y: (p.y + dy) as Coord }
}

/// The eight neighbours of `p`, row by row from the top left: this order breaks ties
/// when a walk chooses among them.
pub open spec fn neighbours_of(p: Point2D) -> Seq<Point2D> {
    seq![
        offset(p, -1, 1), offset(p, 0, 1), offset(p, 1, 1),
        offset(p, -1, 0), offset(p, 1, 0),
        offset(p, -1, -1), offset(p, 0, -1), offset(p, 1, -1),
    ]
}

/// Neither coordinate of `p` sits at an end of the `Coord` range, so all its neighbours exist.
pub open spec fn has_neighbours(p: Point2D) -> bool {
    Coord::MIN < p.x < Coord::MAX && Coord::MIN < p.y < Coord::MAX
}

pub open spec fn abs(v: int) -> int {
    if v < 0 { -v } else { v }
}

/// `p` and `q` are 8-adjacent: the larger of the coordinate distances is one.
pub open spec fn adjacent(p: Point2D, q: Point2D) -> bool {
    let dx = abs(p.x - q.x);
    let dy = abs(p.y - q.y);
    (if dx >= dy { dx } else { dy }) == 1
}

const OFFSETS: [(i32, i32); 8] = [(-1, 1), (0, 1), (1, 1), (-1, 0), (1, 0), (-1, -1), (0, -1), (1, -1)];

impl Point2D {
    /// The eight neighbours of this point, in the order of `neighbours_of`.
    pub fn neighbours(&self) -> (r: Vec<Point2D>)
        requires
            has_neighbours(*self),
        ensures
            r@ == neighbours_of(*self),
    {
        let mut r: Vec<Point2D> = Vec::new();
        let mut i: usize = 0;
        while i < 8
            invariant
                i <= 8,
                has_neighbours(*self),
                r@ == neighbours_of(*self).take(i as int),
            decreases 8 - i,
        {
            let (dx, dy) = OFFSETS[i];
            r.push(Point2D { x: self.x + dx, y: self.y + dy });
            i = i + 1;
        }
        r
    }
}

/// Every neighbour of a point is 8-adjacent to it, and differs from it.
pub proof fn lemma_neighbours_adjacent(p: Point2D)
    requires
        has_neighbours(p),
    ensures
        forall|i: int| 0 <= i < 8 ==> #[trigger] adjacent(p, neighbours_of(p)[i]),
        forall|i: int| 0 <= i < 8 ==> #[trigger] neighbours_of(p)[i] != p,
{
}

} // verus!
