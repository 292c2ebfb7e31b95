use vstd::prelude::*;

use crate::error::ShapeError;
use crate::point::{Coord, Point2D};

verus! {

/// The glyph of a canvas cell: a mark where a point lies, background elsewhere.
pub open spec fn glyph(marked: bool) -> char {
    if marked {
        'o'
    } else {
        '.'
    }
}

/// The side of the canvas for `radius`.
pub open spec fn width(radius: int) -> int {
    2 * radius + 1
}

/// The point drawn in cell (`row`, `col`): rows run from `y = radius` at the top down to
/// `y = -radius`, columns from `x = -radius` on the left.
pub open spec fn cell_point(radius: int, row: int, col: int) -> Point2D {
    Point2D { x: (col - radius) as Coord, y: (radius - row) as Coord }
}

/// `p` falls on a cell of the canvas for `radius`.
pub open spec fn on_canvas(radius: int, p: Point2D) -> bool {
    &&& 0 <= radius - p.y < width(radius)
    &&& 0 <= radius + p.x < width(radius)
}

/// Every point falls on the canvas.
pub open spec fn fits(points: Seq<Point2D>, radius: int) -> bool {
    forall|i: int| 0 <= i < points.len() ==> on_canvas(radius, #[trigger] points[i])
}

/// Row `row` of the canvas that marks `points`.
pub open spec fn row_text(points: Seq<Point2D>, radius: int, row: int) -> Seq<char> {
    Seq::new(width(radius) as nat, |col: int| glyph(points.contains(cell_point(radius, row, col))))
}

/// What rasterizing `points` on the canvas for `radius` gives: all rows of the canvas when
/// every point falls on it, and `OutOfBounds` otherwise.
pub open spec fn rasterizes(points: Seq<Point2D>, radius: int, r: Result<Vec<String>, ShapeError>) -> bool {
    match r {
        Ok(rows) => {
            &&& fits(points, radius)
            &&& rows@.len() == width(radius)
            &&& forall|i: int| 0 <= i < rows@.len() ==> (#[trigger] rows@[i])@.len() == width(radius)
            &&& forall|i: int| 0 <= i < rows@.len() ==> (#[trigger] rows@[i])@ == row_text(points, radius, i)
        },
        Err(e) => e == ShapeError::OutOfBounds && !fits(points, radius),
    }
}

/// One row of the canvas.
fn raster_row(points: &Vec<Point2D>, radius: i64, row: i64) -> (s: String)
    requires
        0 <= radius <= Coord::MAX,
        0 <= row < width(radius as int),
    ensures
        s@ == row_text(points@, radius as int, row as int),
{
    let w: usize = (2 * radius + 1) as usize;
    let mut cells: Vec<bool> = Vec::new();
    while cells.len() < w
        invariant
            w == width(radius as int),
            cells.len() <= w,
            forall|c: int| 0 <= c < cells.len() ==> !#[trigger] cells@[c],
        decreases w - cells.len(),
    {
        cells.push(false);
    }
    let mut i: usize = 0;
    while i < points.len()
        invariant
            0 <= radius <= Coord::MAX,
            0 <= row < width(radius as int),
            w == width(radius as int),
            cells.len() == w,
            i <= points.len(),
            forall|c: int|
                0 <= c < w ==> #[trigger] cells@[c] == points@.take(i as int).contains(
                    cell_point(radius as int, row as int, c),
                ),
        decreases points.len() - i,
    {
        let p = points[i];
        let col: i64 = radius + p.x as i64;
        let ghost before = points@.take(i as int);
        let ghost after = points@.take(i + 1);
        assert(after == before.push(p));
        if radius - (p.y as i64) == row && 0 <= col && col < w as i64 {
            assert(cell_point(radius as int, row as int, col as int) == p);
            cells.set(col as usize, true);
            assert(after[i as int] == p);
        }
        assert forall|c: int| 0 <= c < w implies #[trigger] cells@[c] == after.contains(
            cell_point(radius as int, row as int, c),
        ) by {
            let q = cell_point(radius as int, row as int, c);
            if before.contains(q) {
                let j = choose|j: int| 0 <= j < before.len() && before[j] == q;
                assert(after[j] == q);
            }
            if after.contains(q) && !before.contains(q) {
                let j = choose|j: int| 0 <= j < after.len() && after[j] == q;
                assert(j == i);
            }
        }
        i = i + 1;
    }
    assert(points@.take(points.len() as int) == points@);
    let mut s = String::new();
    let mut c: usize = 0;
    while c < w
        invariant
            w == width(radius as int),
            cells.len() == w,
            c <= w,
            forall|k: int| 0 <= k < w ==> #[trigger] cells@[k] == points@.contains(
                cell_point(radius as int, row as int, k),
            ),
            s@ == row_text(points@, radius as int, row as int).take(c as int),
        decreases w - c,
    {
        proof {
            reveal_strlit("o");
            reveal_strlit(".");
        }
        if cells[c] {
            s.append("o");
        } else {
            s.append(".");
        }
        assert(s@ =~= row_text(points@, radius as int, row as int).take(c + 1));
        c = c + 1;
    }
    assert(s@ =~= row_text(points@, radius as int, row as int));
    s
}

/// Draws `points` on a square canvas of side `2 * radius + 1`: the cell in row
/// `radius - y` and column `radius + x` is marked for each point `(x, y)`, every other cell
/// is background, and each row becomes one line of text. Fails with `OutOfBounds`, and
/// draws nothing, where a point falls off the canvas.
pub fn rasterize(points: &Vec<Point2D>, radius: Coord) -> (r: Result<Vec<String>, ShapeError>)
    requires
        0 <= radius,
    ensures
        rasterizes(points@, radius as int, r),
{
    let rr = radius as i64;
    let w: i64 = 2 * rr + 1;
    let mut i: usize = 0;
    while i < points.len()
        invariant
            rr == radius,
            w == width(rr as int),
            i <= points.len(),
            forall|j: int| 0 <= j < i ==> on_canvas(rr as int, #[trigger] points@[j]),
        decreases points.len() - i,
    {
        let p = points[i];
        let row = rr - p.y as i64;
        let col = rr + p.x as i64;
        if row < 0 || row >= w || col < 0 || col >= w {
            return Err(ShapeError::OutOfBounds);
        }
        i = i + 1;
    }
    let mut rows: Vec<String> = Vec::new();
    let mut row: i64 = 0;
    while row < w
        invariant
            0 <= rr <= Coord::MAX,
            w == width(rr as int),
            0 <= row <= w,
            rows@.len() == row,
            forall|k: int| 0 <= k < row ==> (#[trigger] rows@[k])@ == row_text(points@, rr as int, k),
        decreases w - row,
    {
        let line = raster_row(points, rr, row);
        rows.push(line);
        row = row + 1;
    }
    Ok(rows)
}

} // verus!
