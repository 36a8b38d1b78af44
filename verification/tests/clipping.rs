use coverage_geometry::clip::{
    clip_by_path, clip_outcome, clip_path_to_contour, clip_paths, contour_to_clip_path, signed_area, ClipContour,
    ClipContourPoint,
};
use coverage_geometry::flat::{subtract_outcome, FlattenedPath};
use coverage_geometry::solver::GeometryError;

fn pt(x: i32, y: i32) -> ClipContourPoint {
    ClipContourPoint::new(x, y)
}

fn square(x0: i32, y0: i32, side: i32) -> Vec<ClipContourPoint> {
    vec![pt(x0, y0), pt(x0 + side, y0), pt(x0 + side, y0 + side), pt(x0, y0 + side)]
}

fn closed(points: Vec<ClipContourPoint>) -> ClipContour {
    ClipContour { points, closed: true }
}

fn open(points: Vec<ClipContourPoint>) -> ClipContour {
    ClipContour { points, closed: false }
}

fn shapes(contours: &[ClipContour]) -> Vec<(Vec<ClipContourPoint>, bool)> {
    contours.iter().map(|c| (c.points.clone(), c.closed)).collect()
}

fn same_loop(a: &[ClipContourPoint], b: &[ClipContourPoint]) -> bool {
    a.len() == b.len() && (a.is_empty() || (0..a.len()).any(|s| (0..a.len()).all(|i| a[(i + s) % a.len()] == b[i])))
}

#[test]
fn contours_and_paths_convert_both_ways() {
    assert_eq!(contour_to_clip_path(closed(square(0, 0, 10))), square(0, 0, 10));
    let contours = clip_path_to_contour(vec![square(0, 0, 10), vec![pt(1, 1)], vec![]], true);
    assert_eq!(shapes(&contours), vec![(square(0, 0, 10), true), (vec![pt(1, 1)], true), (vec![], true)]);
    let contours = clip_path_to_contour(vec![vec![pt(1, 1), pt(2, 2)]], false);
    assert_eq!(shapes(&contours), vec![(vec![pt(1, 1), pt(2, 2)], false)]);
    assert_eq!(
        clip_paths(&vec![closed(square(0, 0, 10)), open(vec![pt(1, 1), pt(2, 2)])]),
        vec![square(0, 0, 10), vec![pt(1, 1), pt(2, 2)]]
    );
}

#[test]
fn clip_by_path_unites_a_closed_contour_with_the_clip_region() {
    let out = clip_by_path(vec![closed(square(0, 0, 1000))], &vec![closed(square(500, 500, 1000))]);
    assert_eq!(out.len(), 1);
    assert!(out[0].closed);
    assert!(same_loop(
        &out[0].points,
        &[pt(1000, 500), pt(1500, 500), pt(1500, 1500), pt(500, 1500), pt(500, 1000), pt(0, 1000), pt(0, 0), pt(1000, 0)]
    ));
}

#[test]
fn clip_by_path_passes_open_contours_through() {
    let out = clip_by_path(
        vec![open(vec![pt(-50, -50), pt(77, 77)]), closed(square(0, 0, 1000)), open(vec![pt(1, 2), pt(3, 4)])],
        &vec![closed(square(0, 0, 1000))],
    );
    assert_eq!(out.len(), 3);
    assert_eq!((out[0].points.clone(), out[0].closed), (vec![pt(-50, -50), pt(77, 77)], false));
    assert!(out[1].closed && same_loop(&out[1].points, &square(0, 0, 1000)));
    assert_eq!((out[2].points.clone(), out[2].closed), (vec![pt(1, 2), pt(3, 4)], false));
}

#[test]
fn clipping_a_triangle_that_lies_outside_the_clip_region_is_no_error() {
    let triangle = vec![pt(20000, 20000), pt(21000, 20000), pt(20000, 21000)];
    let out = clip_by_path(vec![closed(triangle.clone())], &vec![closed(square(0, 0, 1000))]);
    // The clip is a union: what lies apart stays apart, and both shapes come back.
    assert_eq!(out.len(), 2);
    assert!(out.iter().all(|c| c.closed));
    assert!(out.iter().any(|c| same_loop(&c.points, &triangle)));
    assert!(out.iter().any(|c| same_loop(&c.points, &square(0, 0, 1000))));
}

#[test]
fn clipping_nothing_gives_nothing() {
    assert!(clip_by_path(vec![], &vec![closed(square(0, 0, 1000))]).is_empty());
}

#[test]
fn clip_by_an_empty_region_keeps_the_shape() {
    let out = clip_by_path(vec![closed(square(0, 0, 1000))], &vec![]);
    assert_eq!(out.len(), 1);
    assert!(same_loop(&out[0].points, &square(0, 0, 1000)));
}

#[test]
fn a_failed_union_leaves_the_contour_as_it_was() {
    let out = clip_outcome(closed(square(0, 0, 1000)), Err(GeometryError::BooleanOpFailed));
    assert_eq!(shapes(&out), vec![(square(0, 0, 1000), true)]);
}

#[test]
fn a_solved_union_replaces_the_contour() {
    let out = clip_outcome(closed(square(0, 0, 1000)), Ok(vec![square(5, 5, 5), square(7, 7, 7)]));
    assert_eq!(shapes(&out), vec![(square(5, 5, 5), true), (square(7, 7, 7), true)]);
    let out = clip_outcome(closed(square(0, 0, 1000)), Ok(vec![]));
    assert!(out.is_empty());
}

#[test]
fn a_failed_difference_leaves_the_contours_as_they_were() {
    let before = vec![closed(square(0, 0, 1000)), closed(square(9, 9, 9))];
    let out = subtract_outcome(before, Err(GeometryError::BooleanOpFailed));
    assert_eq!(shapes(&out), vec![(square(0, 0, 1000), true), (square(9, 9, 9), true)]);
    let out = subtract_outcome(vec![closed(square(0, 0, 1000))], Ok(vec![square(1, 1, 1)]));
    assert_eq!(shapes(&out), vec![(square(1, 1, 1), true)]);
}

#[test]
fn flattened_path_clip_without_arguments_puts_closed_before_open() {
    let path = FlattenedPath {
        contours: vec![
            open(vec![pt(-50, -50), pt(77, 77)]),
            closed(square(0, 0, 1000)),
            open(vec![pt(1, 2), pt(3, 4)]),
            closed(square(5000, 5000, 10)),
        ],
    };
    let out = path.clip(None, None, None);
    assert_eq!(
        shapes(&out.contours),
        vec![
            (square(0, 0, 1000), true),
            (square(5000, 5000, 10), true),
            (vec![pt(-50, -50), pt(77, 77)], false),
            (vec![pt(1, 2), pt(3, 4)], false),
        ]
    );
}

#[test]
fn flattened_path_clip_offsets_the_region_and_cuts_the_hole() {
    let subject = FlattenedPath {
        contours: vec![closed(square(0, 0, 1000)), open(vec![pt(-50, -50), pt(77, 77)])],
    };
    let region = FlattenedPath { contours: vec![closed(square(500, 500, 1000))] };
    let hole = FlattenedPath { contours: vec![closed(square(200, 200, 100))] };
    let out = subject.clip(Some(&region), Some(-100), Some(&hole));
    assert_eq!(out.contours.len(), 3);
    assert!(out.contours[0].closed);
    assert!(same_loop(
        &out.contours[0].points,
        &[pt(1000, 600), pt(1400, 600), pt(1400, 1400), pt(600, 1400), pt(600, 1000), pt(0, 1000), pt(0, 0), pt(1000, 0)]
    ));
    assert!(out.contours[1].closed);
    assert_eq!(signed_area(&out.contours[1].points), -2 * 100 * 100);
    assert!(same_loop(&out.contours[1].points, &[pt(200, 200), pt(200, 300), pt(300, 300), pt(300, 200)]));
    assert_eq!((out.contours[2].points.clone(), out.contours[2].closed), (vec![pt(-50, -50), pt(77, 77)], false));
}

#[test]
fn flattened_path_clip_with_only_a_hole() {
    let subject = FlattenedPath { contours: vec![closed(square(0, 0, 1000))] };
    let hole = FlattenedPath { contours: vec![closed(square(500, 500, 1000))] };
    let out = subject.clip(None, None, Some(&hole));
    assert_eq!(out.contours.len(), 1);
    assert!(same_loop(
        &out.contours[0].points,
        &[pt(1000, 500), pt(500, 500), pt(500, 1000), pt(0, 1000), pt(0, 0), pt(1000, 0)]
    ));
}

#[test]
fn flattened_path_clip_without_an_offset_uses_the_region_as_it_is() {
    let subject = FlattenedPath { contours: vec![closed(square(0, 0, 1000))] };
    let region = FlattenedPath { contours: vec![closed(square(500, 500, 1000))] };
    let out = subject.clip(Some(&region), None, None);
    assert_eq!(out.contours.len(), 1);
    assert_eq!(signed_area(&out.contours[0].points), 2 * (2 * 1000 * 1000 - 500 * 500));
}

#[test]
fn flattened_path_delta_offsets_every_contour() {
    let path = FlattenedPath {
        contours: vec![
            closed(vec![pt(0, 0), pt(0, 1000), pt(1000, 1000), pt(1000, 0)]),
            open(vec![pt(0, 5000), pt(1000, 5000)]),
        ],
    };
    let grown = path.delta(100);
    assert_eq!(grown.contours.len(), 2);
    assert!(grown.contours.iter().all(|c| c.closed));
    assert!(same_loop(&grown.contours[0].points, &square(-100, -100, 1200)));
    assert!(same_loop(&grown.contours[1].points, &[pt(1000, 5100), pt(0, 5100), pt(0, 4900), pt(1000, 4900)]));
    let shrunk = path.delta(-100);
    assert!(same_loop(&shrunk.contours[0].points, &square(100, 100, 800)));
}

#[test]
fn contour_delta_grows_whatever_the_drawing_direction() {
    let clockwise = closed(vec![pt(0, 0), pt(0, 1000), pt(1000, 1000), pt(1000, 0)]);
    let grown = clockwise.delta(100);
    assert_eq!(grown.len(), 1);
    assert!(grown[0].closed);
    assert_eq!(signed_area(&grown[0].points), 2 * 1200 * 1200);
    let counter = closed(square(0, 0, 1000));
    let grown = counter.delta(100);
    assert_eq!(signed_area(&grown[0].points), 2 * 1200 * 1200);
}
