use coverage_geometry::clip::ClipContourPoint;
use coverage_geometry::coverage_aa::{
    build_aa_mesh, build_mesh_from_coverage_vertices, clamp_miter, Corner, CoverageMesh, CoverageVertex, Indexed,
    Style, COVERED, UNCOVERED,
};
use coverage_geometry::point::distance;

fn pt(x: i32, y: i32) -> ClipContourPoint {
    ClipContourPoint::new(x, y)
}

/// Stands in for the corner primitive: a point near the corner that shows
/// which corner and which radius it was made for.
fn tagged(corner: Corner, radius: u32) -> ClipContourPoint {
    pt(
        corner.at.x + (corner.next.x - corner.prev.x).signum() * radius as i32,
        corner.at.y - (corner.next.y - corner.prev.y).signum() * radius as i32,
    )
}

fn parts<S: Copy, G: Copy>(mesh: &CoverageMesh<S, G>) -> (Vec<(ClipContourPoint, u8)>, Vec<u32>) {
    match mesh {
        CoverageMesh::Solid { buffers } => {
            (buffers.vertices.iter().map(|v| (v.position, v.coverage)).collect(), buffers.indices.clone())
        },
        CoverageMesh::Gradient { buffers } => {
            (buffers.vertices.iter().map(|v| (v.position, v.coverage)).collect(), buffers.indices.clone())
        },
    }
}

#[test]
fn coverage_vertex_new_keeps_its_arguments() {
    let v = CoverageVertex::new(pt(3, 4), COVERED);
    assert_eq!(v.position, pt(3, 4));
    assert_eq!(v.coverage, 1);
    assert_eq!(CoverageVertex::new(pt(0, 0), UNCOVERED).coverage, 0);
}

#[test]
fn a_triangle_gives_one_closed_strip() {
    let paths = vec![vec![pt(0, 0), pt(100, 0), pt(0, 100)]];
    let mesh = build_aa_mesh(&paths, Style::<u32, u64>::Solid(0xff00ff), 7, &tagged).unwrap();
    let (vertices, indices) = parts(&mesh);
    assert_eq!(
        vertices,
        vec![
            (pt(0, 0), 1),
            (pt(7, 7), 0),
            (pt(100, 0), 1),
            (pt(100, -7), 0),
            (pt(0, 100), 1),
            (pt(-7, 100), 0),
        ]
    );
    assert_eq!(
        indices,
        vec![
            0, 1, 3, 0, 3, 2,
            2, 3, 5, 2, 5, 4,
            4, 5, 1, 4, 1, 0,
        ]
    );
}

#[test]
fn a_contour_of_n_points_gives_2n_vertices_and_6n_indices() {
    for n in 3..40usize {
        let path: Vec<ClipContourPoint> = (0..n).map(|i| pt(i as i32 * 10, (i * i) as i32)).collect();
        let mesh = build_aa_mesh(&vec![path], Style::<u32, u64>::Solid(1), 100, &tagged).unwrap();
        let (vertices, indices) = parts(&mesh);
        assert_eq!(vertices.len(), 2 * n);
        assert_eq!(indices.len(), 6 * n);
    }
}

#[test]
fn every_coverage_is_zero_or_one() {
    let paths = vec![
        vec![pt(0, 0), pt(100, 0), pt(0, 100)],
        vec![pt(5, 5), pt(50, 5), pt(50, 50), pt(5, 50), pt(1, 20)],
    ];
    let mesh = build_aa_mesh(&paths, Style::<u32, u64>::Gradient(9), 100, &tagged).unwrap();
    let (vertices, _) = parts(&mesh);
    assert_eq!(vertices.len(), 16);
    for (k, (_, coverage)) in vertices.iter().enumerate() {
        assert!(*coverage == 0 || *coverage == 1);
        assert_eq!(*coverage, if k % 2 == 0 { 1 } else { 0 });
    }
}

#[test]
fn contours_of_fewer_than_three_points_add_nothing() {
    let paths = vec![vec![], vec![pt(1, 1)], vec![pt(1, 1), pt(2, 2)]];
    let mesh = build_aa_mesh(&paths, Style::<u32, u64>::Solid(1), 100, &tagged).unwrap();
    let (vertices, indices) = parts(&mesh);
    assert!(vertices.is_empty());
    assert!(indices.is_empty());
    let none: Vec<Vec<ClipContourPoint>> = vec![];
    let mesh = build_aa_mesh(&none, Style::<u32, u64>::Solid(1), 100, &tagged).unwrap();
    let (vertices, indices) = parts(&mesh);
    assert!(vertices.is_empty());
    assert!(indices.is_empty());
}

#[test]
fn each_strip_is_based_at_the_vertices_before_it() {
    let paths = vec![
        vec![pt(0, 0), pt(100, 0), pt(0, 100)],
        vec![pt(7, 7), pt(8, 8)],
        vec![pt(5, 5), pt(50, 5), pt(50, 50), pt(5, 50)],
    ];
    let mesh = build_aa_mesh(&paths, Style::<u32, u64>::Solid(1), 100, &tagged).unwrap();
    let (vertices, indices) = parts(&mesh);
    assert_eq!(vertices.len(), 14);
    assert_eq!(indices.len(), 42);
    assert_eq!(vertices[6], (pt(5, 5), 1));
    assert_eq!(vertices[12], (pt(5, 50), 1));
    assert_eq!(
        indices[18..].to_vec(),
        vec![
            6, 7, 9, 6, 9, 8,
            8, 9, 11, 8, 11, 10,
            10, 11, 13, 10, 13, 12,
            12, 13, 7, 12, 7, 6,
        ]
    );
    assert!(indices.iter().all(|i| (*i as usize) < vertices.len()));
}

#[test]
fn each_corner_is_given_its_neighbours_round_the_loop() {
    let path = vec![pt(0, 0), pt(10, 0), pt(10, 10), pt(0, 10)];
    let seen = std::cell::RefCell::new(vec![]);
    let record = |corner: Corner, radius: u32| {
        seen.borrow_mut().push((corner.prev, corner.at, corner.next, radius));
        corner.at
    };
    let mesh = build_aa_mesh(&vec![path], Style::<u32, u64>::Solid(1), 25, &record);
    assert!(mesh.is_some());
    assert_eq!(
        seen.into_inner(),
        vec![
            (pt(0, 10), pt(0, 0), pt(10, 0), 25),
            (pt(0, 0), pt(10, 0), pt(10, 10), 25),
            (pt(10, 0), pt(10, 10), pt(0, 10), 25),
            (pt(10, 10), pt(0, 10), pt(0, 0), 25),
        ]
    );
}

#[test]
fn a_solid_style_tags_the_mesh_and_every_vertex() {
    let paths = vec![vec![pt(0, 0), pt(100, 0), pt(0, 100)]];
    match build_aa_mesh(&paths, Style::<u32, u64>::Solid(0xabcdef), 100, &tagged).unwrap() {
        CoverageMesh::Solid { buffers } => {
            assert_eq!(buffers.vertices.len(), 6);
            assert!(buffers.vertices.iter().all(|v| v.color == 0xabcdef));
        },
        CoverageMesh::Gradient { .. } => panic!("a solid style gave a gradient mesh"),
    }
}

#[test]
fn a_gradient_style_tags_the_mesh_and_every_vertex() {
    let paths = vec![vec![pt(0, 0), pt(100, 0), pt(0, 100)]];
    match build_aa_mesh(&paths, Style::<u32, u64>::Gradient(77), 100, &tagged).unwrap() {
        CoverageMesh::Gradient { buffers } => {
            assert_eq!(buffers.vertices.len(), 6);
            assert!(buffers.vertices.iter().all(|v| v.gradient == 77));
        },
        CoverageMesh::Solid { .. } => panic!("a gradient style gave a solid mesh"),
    }
}

#[test]
fn styling_keeps_vertices_and_indices_as_they_are() {
    let vertices = vec![
        CoverageVertex::new(pt(1, 2), COVERED),
        CoverageVertex::new(pt(3, 4), UNCOVERED),
        CoverageVertex::new(pt(5, 6), COVERED),
    ];
    let indices = vec![0, 1, 2, 2, 1, 0];
    match build_mesh_from_coverage_vertices(vertices.clone(), indices.clone(), Style::<u8, u16>::Solid(200)) {
        CoverageMesh::Solid { buffers: Indexed { vertices: styled, indices: kept } } => {
            assert_eq!(kept, indices);
            let plain: Vec<(ClipContourPoint, u8, u8)> =
                styled.iter().map(|v| (v.position, v.coverage, v.color)).collect();
            assert_eq!(plain, vec![(pt(1, 2), 1, 200), (pt(3, 4), 0, 200), (pt(5, 6), 1, 200)]);
        },
        CoverageMesh::Gradient { .. } => panic!("a solid style gave a gradient mesh"),
    }
    match build_mesh_from_coverage_vertices(vertices, indices.clone(), Style::<u8, u16>::Gradient(40000)) {
        CoverageMesh::Gradient { buffers: Indexed { vertices: styled, indices: kept } } => {
            assert_eq!(kept, indices);
            let plain: Vec<(ClipContourPoint, u8, u16)> =
                styled.iter().map(|v| (v.position, v.coverage, v.gradient)).collect();
            assert_eq!(plain, vec![(pt(1, 2), 1, 40000), (pt(3, 4), 0, 40000), (pt(5, 6), 1, 40000)]);
        },
        CoverageMesh::Solid { .. } => panic!("a gradient style gave a solid mesh"),
    }
}

#[test]
fn an_outer_point_within_the_miter_reach_is_kept() {
    assert_eq!(clamp_miter(pt(10, 10), pt(10, 10), 100), pt(10, 10));
    assert_eq!(clamp_miter(pt(0, 0), pt(100, -100), 100), pt(100, -100));
    assert_eq!(clamp_miter(pt(0, 0), pt(240, 320), 100), pt(240, 320));
    assert_eq!(clamp_miter(pt(0, 0), pt(-400, 0), 100), pt(-400, 0));
    // 400.9 grid steps away: the length is rounded down before it is compared.
    assert_eq!(clamp_miter(pt(0, 0), pt(400, 27), 100), pt(400, 27));
}

#[test]
fn an_outer_point_beyond_the_miter_reach_is_pulled_back_to_it() {
    assert_eq!(clamp_miter(pt(0, 0), pt(3000, 4000), 100), pt(240, 320));
    assert_eq!(clamp_miter(pt(50, -50), pt(50, 100000), 100), pt(50, 350));
    assert_eq!(clamp_miter(pt(0, 0), pt(-401, 0), 100), pt(-400, 0));
    assert_eq!(clamp_miter(pt(0, 0), pt(1000, 1000), 25), pt(70, 70));
    assert_eq!(clamp_miter(pt(7, 7), pt(8, 8), 0), pt(7, 7));
    assert_eq!(clamp_miter(pt(i32::MIN, i32::MAX), pt(i32::MAX, i32::MIN), 1), pt(i32::MIN + 2, i32::MAX - 2));
}

#[test]
fn no_outer_vertex_lies_beyond_the_miter_reach() {
    let far = |corner: Corner, _radius: u32| pt(corner.at.x * 50 + 3, corner.at.y * 50 - 70000);
    let paths = vec![
        vec![pt(0, 0), pt(100, 0), pt(0, 100)],
        vec![pt(5, 5), pt(50, 5), pt(50, 50), pt(5, 50), pt(1, 20)],
    ];
    let mesh = build_aa_mesh(&paths, Style::<u32, u64>::Solid(1), 30, &far).unwrap();
    let (vertices, _) = parts(&mesh);
    for pair in vertices.chunks(2) {
        assert!(distance(pair[0].0, pair[1].0) <= 120);
        assert!(distance(pair[0].0, pair[1].0) >= 119);
    }
}
