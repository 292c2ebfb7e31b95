use circle_trace::{rasterize, Circle, Point2D, Shape2D, ShapeError, Strategy};

fn pt(x: i32, y: i32) -> Point2D {
    Point2D { x, y }
}

fn contains(points: &[Point2D], p: Point2D) -> bool {
    points.iter().any(|q| *q == p)
}

/// The step of a walk at `cur` that came from `prev`, worked out from the public pieces.
fn next_step(c: &Circle, cur: Point2D, prev: Option<Point2D>) -> Point2D {
    let mut best: Option<(Point2D, i64)> = None;
    for q in cur.neighbours() {
        if Some(q) == prev {
            continue;
        }
        let e = c.err(q).abs();
        match best {
            Some((_, b)) if b <= e => {}
            _ => best = Some((q, e)),
        }
    }
    best.unwrap().0
}

#[test]
fn neighbours_in_fixed_order() {
    let n = pt(3, -2).neighbours();
    assert_eq!(
        n,
        vec![
            pt(2, -1), pt(3, -1), pt(4, -1),
            pt(2, -2), pt(4, -2),
            pt(2, -3), pt(3, -3), pt(4, -3),
        ]
    );
}

#[test]
fn err_is_signed_distance_of_squares() {
    let c = Circle { radius: 5 };
    assert_eq!(c.err(pt(3, 4)), 0);
    assert_eq!(c.err(pt(0, 0)), -25);
    assert_eq!(c.err(pt(6, 0)), 11);
    assert_eq!(c.err(pt(-4, -4)), 7);
}

#[test]
fn get_y_rounds_the_root() {
    let c = Circle { radius: 5 };
    assert_eq!(c.get_y(3), Some(4));
    assert_eq!(c.get_y(-3), Some(4));
    assert_eq!(c.get_y(0), Some(5));
    // sqrt(12) = 3.46 rounds down, sqrt(13) = 3.61 rounds up
    assert_eq!(Circle { radius: 4 }.get_y(2), Some(3));
    assert_eq!(Circle { radius: 7 }.get_y(6), Some(4));
    // sqrt(3) = 1.73 rounds up
    assert_eq!(Circle { radius: 2 }.get_y(1), Some(2));
}

#[test]
fn get_y_at_and_beyond_the_radius() {
    for r in [0, 1, 2, 17, 1000, 46340, i32::MAX - 2] {
        let c = Circle { radius: r };
        assert_eq!(c.get_y(r), Some(0));
        assert_eq!(c.get_y(r + 1), None);
        assert_eq!(c.get_y(-r - 1), None);
    }
}

#[test]
fn get_y_large_radius() {
    let c = Circle { radius: i32::MAX };
    assert_eq!(c.get_y(0), Some(i32::MAX));
    assert_eq!(c.get_y(i32::MAX), Some(0));
    assert_eq!(c.get_y(i32::MIN), None);
}

#[test]
fn negative_radius_has_no_intersection() {
    let c = Circle { radius: -1 };
    assert_eq!(c.get_y(0), None);
    assert_eq!(c.trace(), Err(ShapeError::NoIntersection));
    assert_eq!(c.draw(), Err(ShapeError::NoIntersection));
    assert_eq!(c.draw_boundary(), Err(ShapeError::NoIntersection));
    assert!(c.boundary().is_empty());
}

#[test]
fn trace_radius_one() {
    let c = Circle { radius: 1 };
    assert_eq!(c.trace(), Ok(vec![pt(0, 1), pt(-1, 0), pt(0, -1), pt(1, 0)]));
}

#[test]
fn trace_radius_zero() {
    let c = Circle { radius: 0 };
    assert_eq!(c.trace(), Ok(vec![pt(0, 0)]));
}

#[test]
fn trace_steps_are_adjacent() {
    for r in [1, 2, 3, 5, 17, 40] {
        let v = Circle { radius: r }.trace().unwrap();
        for w in v.windows(2) {
            let d = (w[0].x - w[1].x).abs().max((w[0].y - w[1].y).abs());
            assert_eq!(d, 1);
        }
    }
}

#[test]
fn trace_never_steps_back() {
    for r in [1, 2, 3, 5, 17, 40] {
        let v = Circle { radius: r }.trace().unwrap();
        for w in v.windows(3) {
            assert_ne!(w[2], w[0]);
        }
    }
}

#[test]
fn trace_closes_on_its_start() {
    for r in [1, 2, 3, 5, 17, 40] {
        let c = Circle { radius: r };
        let v = c.trace().unwrap();
        assert_eq!(v[0], pt(0, r));
        let n = v.len();
        let prev = if n >= 2 { Some(v[n - 2]) } else { None };
        assert_eq!(next_step(&c, v[n - 1], prev), v[0]);
        for i in 0..n - 1 {
            let prev = if i >= 1 { Some(v[i - 1]) } else { None };
            assert_eq!(next_step(&c, v[i], prev), v[i + 1]);
        }
        assert!(!v[1..].contains(&v[0]));
    }
}

#[test]
fn grid_has_side_two_r_plus_one() {
    for r in [1, 2, 5, 17] {
        let c = Circle { radius: r };
        let side = (2 * r + 1) as usize;
        for rows in [c.draw().unwrap(), c.draw_boundary().unwrap()] {
            assert_eq!(rows.len(), side);
            for row in &rows {
                assert_eq!(row.len(), side);
                assert!(row.chars().all(|ch| ch == '.' || ch == 'o'));
            }
        }
    }
}

#[test]
fn row_scan_is_symmetric() {
    for r in [1, 2, 5, 17, 40] {
        let b = Circle { radius: r }.boundary();
        for p in &b {
            if p.x != 0 {
                assert!(contains(&b, pt(-p.x, p.y)));
            }
        }
    }
}

#[test]
fn row_scan_radius_five() {
    let b = Circle { radius: 5 }.boundary();
    let expected = [
        pt(0, -5), pt(3, -4), pt(-3, -4), pt(4, -3), pt(-4, -3), pt(5, -2), pt(-5, -2),
        pt(5, -1), pt(-5, -1), pt(5, 0), pt(-5, 0), pt(5, 1), pt(-5, 1), pt(5, 2), pt(-5, 2),
        pt(4, 3), pt(-4, 3), pt(3, 4), pt(-3, 4), pt(0, 5),
    ];
    assert_eq!(b.len(), expected.len());
    for p in expected {
        assert!(contains(&b, p));
    }
}

#[test]
fn radius_one_boundary_and_grid() {
    let c = Circle { radius: 1 };
    let b = c.boundary();
    assert_eq!(b.len(), 4);
    for p in [pt(0, -1), pt(1, 0), pt(-1, 0), pt(0, 1)] {
        assert!(contains(&b, p));
    }
    let expected = vec![".o.".to_string(), "o.o".to_string(), ".o.".to_string()];
    assert_eq!(c.draw_boundary(), Ok(expected.clone()));
    assert_eq!(c.draw(), Ok(expected));
}

#[test]
fn radius_zero_policy() {
    let c = Circle { radius: 0 };
    assert_eq!(c.boundary(), vec![pt(0, 0)]);
    assert_eq!(c.draw_boundary(), Ok(vec!["o".to_string()]));
    assert_eq!(c.draw(), Ok(vec!["o".to_string()]));
    let s = Shape2D::Circle(c);
    assert_eq!(s.rasterize(Strategy::Trace), Ok(vec!["o".to_string()]));
    assert_eq!(s.rasterize(Strategy::RowScan), Ok(vec!["o".to_string()]));
}

#[test]
fn rasterize_marks_cells() {
    let rows = rasterize(&vec![pt(-2, 2), pt(0, 0), pt(2, -1)], 2).unwrap();
    assert_eq!(rows, vec!["o....", ".....", "..o..", "....o", "....."]);
}

#[test]
fn rasterize_empty_is_background() {
    assert_eq!(rasterize(&vec![], 1), Ok(vec!["...".to_string(); 3]));
}

#[test]
fn rasterize_rejects_points_off_the_canvas() {
    assert_eq!(rasterize(&vec![pt(0, 0), pt(3, 0)], 2), Err(ShapeError::OutOfBounds));
    assert_eq!(rasterize(&vec![pt(0, -3)], 2), Err(ShapeError::OutOfBounds));
    assert_eq!(rasterize(&vec![pt(0, 1)], 0), Err(ShapeError::OutOfBounds));
}

#[test]
fn draw_radius_three() {
    let rows = Circle { radius: 3 }.draw().unwrap();
    let expected = vec!["..ooo..", ".o...o.", "o.....o", "o.....o", "o.....o", ".o...o.", "..ooo.."];
    assert_eq!(rows, expected);
}

#[test]
fn shape_dispatches_to_circle() {
    let s = Shape2D::Circle(Circle { radius: 1 });
    assert_eq!(s.err(pt(1, 1)), 1);
    assert_eq!(s.get_y(1), Some(0));
    assert_eq!(s.get_y(2), None);
    assert_eq!(s.trace(), Circle { radius: 1 }.trace());
    assert_eq!(s.boundary(), Circle { radius: 1 }.boundary());
    let expected = vec![".o.".to_string(), "o.o".to_string(), ".o.".to_string()];
    assert_eq!(s.rasterize(Strategy::Trace), Ok(expected.clone()));
    assert_eq!(s.rasterize(Strategy::RowScan), Ok(expected));
}

#[test]
fn trace_closes_for_radii_up_to_a_thousand() {
    for r in 1..=1000 {
        let c = Circle { radius: r };
        if r == 9 || r == 161 {
            assert_eq!(c.trace(), Err(ShapeError::Unclosed));
            continue;
        }
        let v = c.trace().unwrap();
        for w in v.windows(2) {
            assert_eq!((w[0].x - w[1].x).abs().max((w[0].y - w[1].y).abs()), 1);
        }
        for w in v.windows(3) {
            assert_ne!(w[2], w[0]);
        }
        for p in &v {
            assert!(p.x.abs() <= r && p.y.abs() <= r);
        }
        let n = v.len();
        assert_eq!(next_step(&c, v[n - 1], Some(v[n - 2])), v[0]);
    }
}

#[test]
fn draw_shape_for_radii_up_to_a_hundred() {
    for r in (1..=100).filter(|r| *r != 9) {
        let rows = Circle { radius: r }.draw().unwrap();
        let side = (2 * r + 1) as usize;
        assert_eq!(rows.len(), side);
        assert!(rows.iter().all(|row| row.len() == side));
    }
}

#[test]
fn walk_of_radius_nine_cycles_without_closing() {
    // past (-8, 4) the walk falls into a loop through (-6, 7) and (-4, 8) that misses its start
    let c = Circle { radius: 9 };
    assert_eq!(c.trace(), Err(ShapeError::Unclosed));
    assert_eq!(c.draw(), Err(ShapeError::Unclosed));
    assert_eq!(c.draw_boundary().unwrap().len(), 19);
}
