use clipper2::ClipperError;
use coverage_geometry::clip::{signed_area, ClipContourPoint, LineJoin};
use coverage_geometry::solver::{
    boolean_paths, delta, diff, narrow_paths, union, EndType, GeometryError, MITER_LIMIT, SIMPLIFY_EPSILON,
};

fn pt(x: i32, y: i32) -> ClipContourPoint {
    ClipContourPoint::new(x, y)
}

fn square(x0: i32, y0: i32, side: i32) -> Vec<ClipContourPoint> {
    vec![pt(x0, y0), pt(x0 + side, y0), pt(x0 + side, y0 + side), pt(x0, y0 + side)]
}

fn bounds(path: &[ClipContourPoint]) -> (i32, i32, i32, i32) {
    let min_x = path.iter().map(|p| p.x).min().unwrap();
    let max_x = path.iter().map(|p| p.x).max().unwrap();
    let min_y = path.iter().map(|p| p.y).min().unwrap();
    let max_y = path.iter().map(|p| p.y).max().unwrap();
    (min_x, min_y, max_x, max_y)
}

/// Whether two loops hold the same points in the same cyclic order.
fn same_loop(a: &[ClipContourPoint], b: &[ClipContourPoint]) -> bool {
    a.len() == b.len() && (a.is_empty() || (0..a.len()).any(|s| (0..a.len()).all(|i| a[(i + s) % a.len()] == b[i])))
}

#[test]
fn the_fixed_tolerances() {
    assert_eq!(MITER_LIMIT, 4);
    assert_eq!(SIMPLIFY_EPSILON, 5);
}

#[test]
fn delta_grows_a_square_by_the_amount() {
    let grown = delta(&square(0, 0, 1000), LineJoin::Miter, EndType::Polygon, 100);
    assert_eq!(grown.len(), 1);
    assert!(same_loop(&grown[0], &square(-100, -100, 1200)));
    assert_eq!(signed_area(&grown[0]), 2 * 1200 * 1200);
}

#[test]
fn delta_shrinks_a_square_by_the_amount() {
    let shrunk = delta(&square(0, 0, 1000), LineJoin::Miter, EndType::Polygon, -100);
    assert_eq!(shrunk.len(), 1);
    assert!(same_loop(&shrunk[0], &square(100, 100, 800)));
}

#[test]
fn delta_that_shrinks_past_the_middle_leaves_nothing() {
    let gone = delta(&square(0, 0, 1000), LineJoin::Miter, EndType::Polygon, -600);
    assert!(gone.is_empty());
}

#[test]
fn delta_of_nothing_is_nothing() {
    assert!(delta(&vec![], LineJoin::Miter, EndType::Polygon, 100).is_empty());
}

#[test]
fn delta_bevels_and_rounds_convex_corners() {
    let bevel = delta(&square(0, 0, 1000), LineJoin::Bevel, EndType::Polygon, 100);
    assert_eq!(bevel.len(), 1);
    assert!(same_loop(
        &bevel[0],
        &[pt(1100, 0), pt(1100, 1000), pt(1000, 1100), pt(0, 1100), pt(-100, 1000), pt(-100, 0), pt(0, -100), pt(1000, -100)]
    ));
    let round = delta(&square(0, 0, 1000), LineJoin::Round, EndType::Polygon, 100);
    assert_eq!(round.len(), 1);
    assert_eq!(bounds(&round[0]), (-100, -100, 1100, 1100));
    assert!(round[0].len() > 8);
    let (mitered, bevelled, rounded) = (2 * 1200 * 1200, signed_area(&bevel[0]), signed_area(&round[0]));
    assert_eq!(bevelled, 2 * (1200 * 1200 - 2 * 100 * 100));
    assert!(bevelled < rounded && rounded < mitered);
}

#[test]
fn delta_cuts_a_miter_longer_than_the_limit() {
    let sharp = delta(&vec![pt(0, 0), pt(10000, 0), pt(0, 500)], LineJoin::Miter, EndType::Polygon, 100);
    assert_eq!(sharp.len(), 1);
    let (_, _, max_x, _) = bounds(&sharp[0]);
    // The uncut miter would reach x = 10000 + 100 / tan(half the corner's angle), past 14000.
    assert!(max_x <= 10000 + 100 * MITER_LIMIT as i32);
    assert_eq!(sharp[0].len(), 4);
}

#[test]
fn delta_offsets_an_open_path_with_its_ends() {
    let line = vec![pt(0, 0), pt(10000, 0)];
    let butt = delta(&line, LineJoin::Miter, EndType::Butt, 300);
    assert_eq!(butt.len(), 1);
    assert!(same_loop(&butt[0], &[pt(10000, 300), pt(0, 300), pt(0, -300), pt(10000, -300)]));
    let square_ends = delta(&line, LineJoin::Miter, EndType::Square, 300);
    assert_eq!(square_ends.len(), 1);
    assert!(same_loop(&square_ends[0], &[pt(10300, 300), pt(-300, 300), pt(-300, -300), pt(10300, -300)]));
    let round = delta(&line, LineJoin::Miter, EndType::Round, 300);
    assert_eq!(round.len(), 1);
    assert_eq!(bounds(&round[0]), (-299, -300, 10299, 300));
}

#[test]
fn delta_removes_a_vertex_nearer_to_its_neighbours_line_than_the_tolerance() {
    let nearly_flat = vec![pt(0, 0), pt(5000, 2), pt(10000, 0), pt(10000, 10000), pt(0, 10000)];
    let simplified = delta(&nearly_flat, LineJoin::Miter, EndType::Polygon, 0);
    assert_eq!(simplified, vec![square(0, 0, 10000)]);
    let bent = vec![pt(0, 0), pt(5000, 20), pt(10000, 0), pt(10000, 10000), pt(0, 10000)];
    assert_eq!(delta(&bent, LineJoin::Miter, EndType::Polygon, 0), vec![bent]);
}

#[test]
fn growing_then_shrinking_a_convex_polygon_gives_it_back() {
    let square = square(0, 0, 1000);
    let grown = delta(&square, LineJoin::Miter, EndType::Polygon, 100);
    let back = delta(&grown[0], LineJoin::Miter, EndType::Polygon, -100);
    assert_eq!(back.len(), 1);
    assert!(same_loop(&back[0], &square));

    let hexagon = vec![pt(2000, 0), pt(1000, 1732), pt(-1000, 1732), pt(-2000, 0), pt(-1000, -1732), pt(1000, -1732)];
    let grown = delta(&hexagon, LineJoin::Miter, EndType::Polygon, 50);
    assert_eq!(grown.len(), 1);
    let back = delta(&grown[0], LineJoin::Miter, EndType::Polygon, -50);
    assert_eq!(back.len(), 1);
    assert_eq!(back[0].len(), hexagon.len());
    for p in &back[0] {
        let nearest = hexagon.iter().map(|q| (p.x - q.x).abs().max((p.y - q.y).abs())).min().unwrap();
        assert!(nearest <= SIMPLIFY_EPSILON as i32);
    }
}

#[test]
fn union_of_overlapping_squares_is_one_outline() {
    let joined = union(&vec![square(0, 0, 1000)], &vec![square(500, 500, 1000)]).unwrap();
    assert_eq!(joined.len(), 1);
    assert!(same_loop(
        &joined[0],
        &[pt(1000, 500), pt(1500, 500), pt(1500, 1500), pt(500, 1500), pt(500, 1000), pt(0, 1000), pt(0, 0), pt(1000, 0)]
    ));
    assert_eq!(signed_area(&joined[0]), 2 * (2 * 1000 * 1000 - 500 * 500));
}

#[test]
fn union_of_a_shape_with_itself_is_the_shape() {
    let shapes = vec![
        square(0, 0, 1000),
        vec![pt(2000, 0), pt(1000, 1732), pt(-1000, 1732), pt(-2000, 0), pt(-1000, -1732), pt(1000, -1732)],
        vec![pt(0, 0), pt(900, 0), pt(900, 300), pt(300, 300), pt(300, 900), pt(0, 900)],
    ];
    for shape in shapes {
        let joined = union(&vec![shape.clone()], &vec![shape.clone()]).unwrap();
        assert_eq!(joined.len(), 1);
        assert!(same_loop(&joined[0], &shape));
    }
}

#[test]
fn union_of_disjoint_squares_keeps_both() {
    let joined = union(&vec![square(0, 0, 1000)], &vec![square(5000, 5000, 1000)]).unwrap();
    assert_eq!(joined.len(), 2);
    assert!(joined.iter().any(|p| same_loop(p, &square(0, 0, 1000))));
    assert!(joined.iter().any(|p| same_loop(p, &square(5000, 5000, 1000))));
}

#[test]
fn union_turns_a_clockwise_subject_counter_clockwise() {
    let clockwise = vec![pt(0, 0), pt(0, 1000), pt(1000, 1000), pt(1000, 0)];
    let joined = union(&vec![clockwise], &vec![]).unwrap();
    assert_eq!(joined.len(), 1);
    assert_eq!(signed_area(&joined[0]), 2 * 1000 * 1000);
}

#[test]
fn diff_cuts_the_overlap_away() {
    let rest = diff(&vec![square(0, 0, 1000)], &vec![square(500, 500, 1000)]).unwrap();
    assert_eq!(rest.len(), 1);
    assert!(same_loop(
        &rest[0],
        &[pt(1000, 500), pt(500, 500), pt(500, 1000), pt(0, 1000), pt(0, 0), pt(1000, 0)]
    ));
    assert_eq!(signed_area(&rest[0]), 2 * (1000 * 1000 - 500 * 500));
}

#[test]
fn diff_of_an_inner_square_leaves_a_hole_that_runs_clockwise() {
    let rest = diff(&vec![square(0, 0, 1000)], &vec![square(200, 200, 100)]).unwrap();
    assert_eq!(rest.len(), 2);
    assert_eq!(signed_area(&rest[0]), 2 * 1000 * 1000);
    assert_eq!(signed_area(&rest[1]), -2 * 100 * 100);
    assert!(same_loop(&rest[1], &[pt(200, 200), pt(200, 300), pt(300, 300), pt(300, 200)]));
}

#[test]
fn diff_by_a_cover_leaves_nothing() {
    let rest = diff(&vec![square(0, 0, 1000)], &vec![square(-10, -10, 2000)]).unwrap();
    assert!(rest.is_empty());
}

#[test]
fn diff_by_nothing_keeps_the_subject() {
    let rest = diff(&vec![square(0, 0, 1000)], &vec![]).unwrap();
    assert_eq!(rest.len(), 1);
    assert!(same_loop(&rest[0], &square(0, 0, 1000)));
}

#[test]
fn a_solver_failure_becomes_the_crates_error() {
    assert_eq!(boolean_paths(Err(ClipperError::FailedBooleanOperation)), Err(GeometryError::BooleanOpFailed));
}

#[test]
fn a_solver_result_is_brought_onto_the_grid() {
    let raw = vec![vec![(0i64, 5i64), (-7, 9)], vec![], vec![(1i64 << 40, -(1i64 << 40))]];
    assert_eq!(
        boolean_paths(Ok(raw)),
        Ok(vec![vec![pt(0, 5), pt(-7, 9)], vec![], vec![pt(i32::MAX, i32::MIN)]])
    );
}

#[test]
fn narrow_paths_keeps_what_fits_and_clamps_what_does_not() {
    let raw = vec![
        vec![(i32::MAX as i64, i32::MIN as i64), (i32::MAX as i64 + 1, i32::MIN as i64 - 1)],
        vec![(i64::MAX, i64::MIN), (12, -12)],
    ];
    assert_eq!(
        narrow_paths(&raw),
        vec![
            vec![pt(i32::MAX, i32::MIN), pt(i32::MAX, i32::MIN)],
            vec![pt(i32::MAX, i32::MIN), pt(12, -12)],
        ]
    );
    assert_eq!(narrow_paths(&vec![]), Vec::<Vec<ClipContourPoint>>::new());
}
