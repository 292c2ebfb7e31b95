use vstd::prelude::*;

use crate::circle::{error_of, lemma_row_scan_within, nearest_y_of, on_row_scan, Circle};
use crate::error::ShapeError;
use crate::point::{Coord, Point2D};
use crate::raster::{cell_point, glyph, on_canvas, rasterize, rasterizes, width};
use crate::trace::{trace_points, traces};

verus! {

/// How the points of a drawing are found.
#[derive(Copy, Clone, Debug, PartialEq, Eq, Structural)]
pub enum Strategy {
    /// The lattice walk guided by the error.
    Trace,
    /// The closed-form scan of each row.
    RowScan,
}

/// What drawing the traced circle gives: the canvas of its traced points, or the error that
/// tracing or rasterizing met.
pub open spec fn draws(c: Circle, r: Result<Vec<String>, ShapeError>) -> bool {
    ||| r matches Err(e) && traces(c, Err(e))
    ||| exists|v: Seq<Point2D>| #[trigger] trace_points(c, v) && rasterizes(v, c.radius as int, r)
}

/// Row `row` of the canvas of the row-scan boundary.
pub open spec fn row_scan_text(c: Circle, row: int) -> Seq<char> {
    Seq::new(
        width(c.radius as int) as nat,
        |col: int| glyph(on_row_scan(c, cell_point(c.radius as int, row, col))),
    )
}

/// What drawing the row-scan boundary gives: every row of its canvas, or `NoIntersection`
/// for a negative radius.
pub open spec fn draws_row_scan(c: Circle, r: Result<Vec<String>, ShapeError>) -> bool {
    match r {
        Ok(rows) => {
            &&& 0 <= c.radius
            &&& rows@.len() == width(c.radius as int)
            &&& forall|i: int| 0 <= i < rows@.len() ==> (#[trigger] rows@[i])@ == row_scan_text(c, i)
        },
        Err(e) => e == ShapeError::NoIntersection && c.radius < 0,
    }
}

impl Circle {
    /// Draws the traced circle: the lines of the canvas that marks the points of its walk.
    pub fn draw(&self) -> (r: Result<Vec<String>, ShapeError>)
        requires
            self.radius <= Coord::MAX - 2,
        ensures
            draws(*self, r),
    {
        match self.trace() {
            Ok(v) => {
                assert(trace_points(*self, v@));
                let r = rasterize(&v, self.radius);
                assert(rasterizes(v@, self.radius as int, r));
                r
            },
            Err(e) => Err(e),
        }
    }

    /// Draws the row-scan boundary: the lines of the canvas that marks its points.
    pub fn draw_boundary(&self) -> (r: Result<Vec<String>, ShapeError>)
        ensures
            draws_row_scan(*self, r),
    {
        if self.radius < 0 {
            return Err(ShapeError::NoIntersection);
        }
        let points = self.boundary();
        let ghost rr = self.radius as int;
        assert forall|i: int| 0 <= i < points@.len() implies #[trigger] on_canvas(rr, points@[i]) by {
            let p = points@[i];
            assert(points@.contains(p));
            lemma_row_scan_within(*self, p);
        }
        match rasterize(&points, self.radius) {
            Ok(rows) => {
                assert forall|i: int| 0 <= i < rows@.len() implies (#[trigger] rows@[i])@
                    == row_scan_text(*self, i) by {
                    assert(rows@[i]@ =~= row_scan_text(*self, i));
                }
                Ok(rows)
            },
            Err(e) => Err(e),
        }
    }
}

/// A shape of the plane, each kind with its own parameters.
#[derive(Copy, Clone, Debug, PartialEq, Eq, Structural)]
pub enum Shape2D {
    Circle(Circle),
}

impl Shape2D {
    /// The signed error of `point` against the shape.
    pub fn err(&self, point: Point2D) -> (r: i64)
        requires
            match *self {
                Shape2D::Circle(c) => error_of(c, point) <= i64::MAX,
            },
        ensures
            match *self {
                Shape2D::Circle(c) => r == error_of(c, point),
            },
    {
        match self {
            Shape2D::Circle(c) => c.err(point),
        }
    }

    /// The ordinate nearest to the shape in column `x`, if the column meets it.
    pub fn get_y(&self, x: Coord) -> (r: Option<Coord>)
        ensures
            match *self {
                Shape2D::Circle(c) => {
                    &&& r matches Some(y) ==> nearest_y_of(c, x as int) == Some(y as int)
                    &&& r is None <==> nearest_y_of(c, x as int) is None
                },
            },
    {
        match self {
            Shape2D::Circle(c) => c.get_y(x),
        }
    }

    /// The walk that traces the shape.
    pub fn trace(&self) -> (r: Result<Vec<Point2D>, ShapeError>)
        requires
            match *self {
                Shape2D::Circle(c) => c.radius <= Coord::MAX - 2,
            },
        ensures
            match *self {
                Shape2D::Circle(c) => traces(c, r),
            },
    {
        match self {
            Shape2D::Circle(c) => c.trace(),
        }
    }

    /// The boundary found row by row.
    pub fn boundary(&self) -> (r: Vec<Point2D>)
        ensures
            match *self {
                Shape2D::Circle(c) => forall|p: Point2D| r@.contains(p) <==> #[trigger] on_row_scan(c, p),
            },
    {
        match self {
            Shape2D::Circle(c) => c.boundary(),
        }
    }

    /// The lines of the shape's canvas, with its points found by `strategy`.
    pub fn rasterize(&self, strategy: Strategy) -> (r: Result<Vec<String>, ShapeError>)
        requires
            match *self {
                Shape2D::Circle(c) => strategy == Strategy::Trace ==> c.radius <= Coord::MAX - 2,
            },
        ensures
            match *self {
                Shape2D::Circle(c) => match strategy {
                    Strategy::Trace => draws(c, r),
                    Strategy::RowScan => draws_row_scan(c, r),
                },
            },
    {
        match self {
            Shape2D::Circle(c) => match strategy {
                Strategy::Trace => c.draw(),
                Strategy::RowScan => c.draw_boundary(),
            },
        }
    }
}

} // verus!
