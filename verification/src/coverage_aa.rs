//! The anti-aliasing mesh: one closed triangle strip round every contour.

use vstd::prelude::*;
use crate::point::{
    distance, lemma_point_along_reach, point_along, point_at, segment_length, ClipContourPoint,
};
use crate::solver::{paths_view, MITER_LIMIT};

verus! {

/// Coverage of a vertex on the shape's own boundary.
pub const COVERED: u8 = 1;

/// Coverage of a vertex on the outer edge of the anti-aliasing ramp.
pub const UNCOVERED: u8 = 0;

/// A mesh vertex before it is given its style: a position and a coverage of
/// 0 or 1. The ramp between the two is made by the rasterizer.
#[derive(Clone, Copy, Debug, PartialEq, Eq, Structural)]
pub struct CoverageVertex {
    pub position: ClipContourPoint,
    pub coverage: u8,
}

impl CoverageVertex {
    /// A vertex at `position` with a coverage of 0 or 1.
    pub fn new(position: ClipContourPoint, coverage: u8) -> (v: Self)
        requires
            coverage == UNCOVERED || coverage == COVERED,
        ensures
            v == (CoverageVertex { position, coverage }),
    {
        CoverageVertex { position, coverage }
    }
}

/// A vertex of a solid mesh. The colour is carried, never read.
#[derive(Debug)]
pub struct SolidVertex2D<S> {
    pub position: ClipContourPoint,
    pub color: S,
    pub coverage: u8,
}

/// A vertex of a gradient mesh. The gradient is carried, never read.
#[derive(Debug)]
pub struct GradientVertex2D<G> {
    pub position: ClipContourPoint,
    pub gradient: G,
    pub coverage: u8,
}

/// A vertex buffer with the triangle list that indexes it, three entries per
/// triangle.
#[derive(Debug)]
pub struct Indexed<T> {
    pub vertices: Vec<T>,
    pub indices: Vec<u32>,
}

/// How a shape is painted. Both payloads are opaque to this crate.
#[derive(Clone, Copy, Debug)]
pub enum Style<S, G> {
    Solid(S),
    Gradient(G),
}

/// A drawable mesh, tagged by the kind of its style.
#[derive(Debug)]
#[allow(inconsistent_fields)]
pub enum CoverageMesh<S, G> {
    /// A mesh with a solid colour.
    Solid { buffers: Indexed<SolidVertex2D<S>> },
    /// A mesh with a gradient.
    Gradient { buffers: Indexed<GradientVertex2D<G>> },
}

impl<S, G> CoverageMesh<S, G> {
    /// The vertices without their style.
    pub open spec fn vertices(self) -> Seq<CoverageVertex> {
        match self {
            CoverageMesh::Solid { buffers } => buffers.vertices@.map_values(
                |v: SolidVertex2D<S>| CoverageVertex { position: v.position, coverage: v.coverage },
            ),
            CoverageMesh::Gradient { buffers } => buffers.vertices@.map_values(
                |v: GradientVertex2D<G>| CoverageVertex { position: v.position, coverage: v.coverage },
            ),
        }
    }

    /// The triangle list.
    pub open spec fn indices(self) -> Seq<u32> {
        match self {
            CoverageMesh::Solid { buffers } => buffers.indices@,
            CoverageMesh::Gradient { buffers } => buffers.indices@,
        }
    }

    /// Whether every vertex carries the payload of `style`, under its tag.
    pub open spec fn styled_as(self, style: Style<S, G>) -> bool {
        match (self, style) {
            (CoverageMesh::Solid { buffers }, Style::Solid(color)) => forall|k: int|
                0 <= k < buffers.vertices.len() ==> (#[trigger] buffers.vertices[k]).color == color,
            (CoverageMesh::Gradient { buffers }, Style::Gradient(gradient)) => forall|k: int|
                0 <= k < buffers.vertices.len() ==> (#[trigger] buffers.vertices[k]).gradient == gradient,
            _ => false,
        }
    }
}

/// Wraps vertices and indices into the mesh variant that matches `style`,
/// giving every vertex the style's payload.
pub fn build_mesh_from_coverage_vertices<S: Copy, G: Copy>(
    vertices: Vec<CoverageVertex>,
    indices: Vec<u32>,
    style: Style<S, G>,
) -> (mesh: CoverageMesh<S, G>)
    ensures
        mesh.vertices() == vertices@,
        mesh.indices() == indices@,
        mesh.styled_as(style),
{
    match style {
        Style::Solid(color) => {
            let mut styled: Vec<SolidVertex2D<S>> = Vec::new();
            let mut i: usize = 0;
            while i < vertices.len()
                invariant
                    i <= vertices.len(),
                    styled.len() == i,
                    forall|k: int| 0 <= k < i ==> #[trigger] styled[k] == (SolidVertex2D {
                        position: vertices[k].position,
                        color,
                        coverage: vertices[k].coverage,
                    }),
                decreases vertices.len() - i,
            {
                let v = vertices[i];
                styled.push(SolidVertex2D { position: v.position, color, coverage: v.coverage });
                i += 1;
            }
            CoverageMesh::Solid { buffers: Indexed { vertices: styled, indices } }
        },
        Style::Gradient(gradient) => {
            let mut styled: Vec<GradientVertex2D<G>> = Vec::new();
            let mut i: usize = 0;
            while i < vertices.len()
                invariant
                    i <= vertices.len(),
                    styled.len() == i,
                    forall|k: int| 0 <= k < i ==> #[trigger] styled[k] == (GradientVertex2D {
                        position: vertices[k].position,
                        gradient,
                        coverage: vertices[k].coverage,
                    }),
                decreases vertices.len() - i,
            {
                let v = vertices[i];
                styled.push(GradientVertex2D { position: v.position, gradient, coverage: v.coverage });
                i += 1;
            }
            CoverageMesh::Gradient { buffers: Indexed { vertices: styled, indices } }
        },
    }
}

/// A vertex of a contour together with the vertices before and after it.
#[derive(Clone, Copy, Debug, PartialEq, Eq, Structural)]
pub struct Corner {
    pub prev: ClipContourPoint,
    pub at: ClipContourPoint,
    pub next: ClipContourPoint,
}

/// The corner at vertex `i` of a contour that is walked as a closed loop.
pub open spec fn corner_at(points: Seq<ClipContourPoint>, i: int) -> Corner {
    let n = points.len() as int;
    Corner { prev: points[(i + n - 1) % n], at: points[i], next: points[(i + 1) % n] }
}

/// The corners of one contour, in order. A contour of fewer than three points
/// is degenerate and has none.
pub open spec fn contour_corners(points: Seq<ClipContourPoint>) -> Seq<Corner> {
    if points.len() < 3 {
        Seq::empty()
    } else {
        Seq::new(points.len(), |i: int| corner_at(points, i))
    }
}

/// The corners of all contours, contour after contour.
pub open spec fn mesh_corners(paths: Seq<Seq<ClipContourPoint>>) -> Seq<Corner>
    decreases paths.len(),
{
    if paths.len() == 0 {
        Seq::empty()
    } else {
        mesh_corners(paths.drop_last()) + contour_corners(paths.last())
    }
}

/// The two triangles that join vertex pair `i` of a strip to the pair after
/// it. Pair `i` is the inner vertex `base + 2i` and the outer vertex next to
/// it; the pair after the last one is the first.
pub open spec fn quad_indices(base: int, n: int, i: int) -> Seq<int> {
    let inner = base + 2 * i;
    let outer = inner + 1;
    let next_inner = base + 2 * ((i + 1) % n);
    let next_outer = next_inner + 1;
    seq![inner, outer, next_outer, inner, next_outer, next_inner]
}

/// The indices of the first `count` quads of a strip of `n` vertex pairs.
pub open spec fn strip_indices(base: int, n: int, count: int) -> Seq<int>
    decreases count,
{
    if count <= 0 {
        Seq::empty()
    } else {
        strip_indices(base, n, count - 1) + quad_indices(base, n, count - 1)
    }
}

/// The triangle list of all contours: one closed strip for each contour of
/// three points or more, each based at the number of vertices before it.
pub open spec fn mesh_indices(paths: Seq<Seq<ClipContourPoint>>) -> Seq<int>
    decreases paths.len(),
{
    if paths.len() == 0 {
        Seq::empty()
    } else {
        let n = paths.last().len() as int;
        mesh_indices(paths.drop_last()) + if n >= 3 {
            strip_indices(2 * (mesh_corners(paths.drop_last()).len() as int), n, n)
        } else {
            Seq::empty()
        }
    }
}

/// How far, in grid steps, an outer point may lie from its corner: the
/// miter limit times the anti-aliasing radius.
pub open spec fn miter_reach(aa_radius: u32) -> int {
    MITER_LIMIT * aa_radius
}

/// The outer point for a corner at `at`, given the point where the two
/// pushed-out edges meet: that point, or, where it lies beyond the miter
/// reach, the point at the miter reach on the way to it.
pub open spec fn limit_miter(at: ClipContourPoint, candidate: ClipContourPoint, aa_radius: u32) -> ClipContourPoint {
    let len = segment_length(at, candidate);
    if len > miter_reach(aa_radius) {
        point_along(at, candidate, miter_reach(aa_radius), len)
    } else {
        candidate
    }
}

/// An outer point is never farther from its corner than the miter reach.
pub proof fn lemma_limit_miter_reach(at: ClipContourPoint, candidate: ClipContourPoint, aa_radius: u32)
    ensures
        segment_length(at, limit_miter(at, candidate, aa_radius)) <= miter_reach(aa_radius),
{
    let len = segment_length(at, candidate);
    if len > miter_reach(aa_radius) {
        lemma_point_along_reach(at, candidate, miter_reach(aa_radius), len);
    }
}

/// Holds the point where the pushed-out edges of a corner meet to the miter
/// limit, so that a sharp corner makes no spike.
pub fn clamp_miter(at: ClipContourPoint, candidate: ClipContourPoint, aa_radius: u32) -> (outer: ClipContourPoint)
    ensures
        outer == limit_miter(at, candidate, aa_radius),
        segment_length(at, outer) <= miter_reach(aa_radius),
{
    proof {
        lemma_limit_miter_reach(at, candidate, aa_radius);
    }
    let reach: u64 = MITER_LIMIT as u64 * aa_radius as u64;
    let len = distance(at, candidate);
    if len > reach {
        point_at(at, candidate, reach, len)
    } else {
        candidate
    }
}

/// Whether `position` is the outer point of `corner`: what `extrude` gave
/// for the corner and `aa_radius`, held to the miter limit.
pub open spec fn is_outer_point<F: Fn(Corner, u32) -> ClipContourPoint>(
    extrude: F,
    corner: Corner,
    aa_radius: u32,
    position: ClipContourPoint,
) -> bool {
    exists|candidate: ClipContourPoint|
        #[trigger] call_ensures(extrude, (corner, aa_radius), candidate) && position == limit_miter(
            corner.at,
            candidate,
            aa_radius,
        )
}

/// Whether `vertices` are the vertex pairs of `corners`: for each corner the
/// corner's own point with full coverage, then its outer point with none.
pub open spec fn strip_vertices<F: Fn(Corner, u32) -> ClipContourPoint>(
    vertices: Seq<CoverageVertex>,
    corners: Seq<Corner>,
    aa_radius: u32,
    extrude: F,
) -> bool {
    &&& vertices.len() == 2 * corners.len()
    &&& forall|k: int|
        0 <= k < corners.len() ==> {
            &&& vertices[2 * k] == (CoverageVertex { position: (#[trigger] corners[k]).at, coverage: COVERED })
            &&& vertices[2 * k + 1].coverage == UNCOVERED
            &&& is_outer_point(extrude, corners[k], aa_radius, vertices[2 * k + 1].position)
        }
}

/// The indices as mathematical integers.
pub open spec fn to_ints(indices: Seq<u32>) -> Seq<int> {
    indices.map_values(|v: u32| v as int)
}

/// Whether `mesh` is the anti-aliasing mesh of `paths`: present exactly when
/// 32-bit indices can address its vertices, and then styled as `style`, with
/// the vertex pairs of all corners and the strips over them.
pub open spec fn is_aa_mesh<S, G, F: Fn(Corner, u32) -> ClipContourPoint>(
    mesh: Option<CoverageMesh<S, G>>,
    paths: Seq<Seq<ClipContourPoint>>,
    style: Style<S, G>,
    aa_radius: u32,
    extrude: F,
) -> bool {
    &&& mesh is Some <==> 2 * mesh_corners(paths).len() <= u32::MAX
    &&& mesh matches Some(m) ==> {
        &&& m.styled_as(style)
        &&& strip_vertices(m.vertices(), mesh_corners(paths), aa_radius, extrude)
        &&& to_ints(m.indices()) == mesh_indices(paths)
    }
}

/// In an anti-aliasing mesh every coverage is 0 or 1, every outer vertex
/// lies within the miter reach of the inner vertex before it, there are
/// three index entries for every vertex, and every index addresses a vertex.
pub proof fn lemma_aa_mesh_shape<S, G, F: Fn(Corner, u32) -> ClipContourPoint>(
    mesh: CoverageMesh<S, G>,
    paths: Seq<Seq<ClipContourPoint>>,
    style: Style<S, G>,
    aa_radius: u32,
    extrude: F,
)
    requires
        is_aa_mesh(Some(mesh), paths, style, aa_radius, extrude),
    ensures
        mesh.vertices().len() == 2 * mesh_corners(paths).len(),
        mesh.indices().len() == 3 * mesh.vertices().len(),
        forall|k: int|
            0 <= k < mesh.vertices().len() ==> {
                ||| (#[trigger] mesh.vertices()[k]).coverage == UNCOVERED
                ||| mesh.vertices()[k].coverage == COVERED
            },
        forall|k: int|
            0 <= k < mesh_corners(paths).len() ==> segment_length(
                (#[trigger] mesh.vertices()[2 * k]).position,
                mesh.vertices()[2 * k + 1].position,
            ) <= miter_reach(aa_radius),
        forall|k: int| 0 <= k < mesh.indices().len() ==> (#[trigger] mesh.indices()[k]) < mesh.vertices().len(),
{
    lemma_mesh_indices(paths);
    assert forall|k: int| 0 <= k < mesh_corners(paths).len() implies segment_length(
        (#[trigger] mesh.vertices()[2 * k]).position,
        mesh.vertices()[2 * k + 1].position,
    ) <= miter_reach(aa_radius) by {
        let corner = mesh_corners(paths)[k];
        let candidate = choose|candidate: ClipContourPoint|
            #[trigger] call_ensures(extrude, (corner, aa_radius), candidate) && mesh.vertices()[2 * k + 1].position
                == limit_miter(corner.at, candidate, aa_radius);
        lemma_limit_miter_reach(corner.at, candidate, aa_radius);
    }
    assert forall|k: int| 0 <= k < mesh.vertices().len() implies {
        ||| (#[trigger] mesh.vertices()[k]).coverage == UNCOVERED
        ||| mesh.vertices()[k].coverage == COVERED
    } by {
        assert(mesh.vertices()[2 * (k / 2)].position == mesh_corners(paths)[k / 2].at);
    }
    assert forall|k: int| 0 <= k < mesh.indices().len() implies (#[trigger] mesh.indices()[k])
        < mesh.vertices().len() by {
        assert(to_ints(mesh.indices())[k] == mesh_indices(paths)[k]);
    }
}

/// A strip of `count` quads has six indices for each.
pub proof fn lemma_strip_indices_len(base: int, n: int, count: int)
    requires
        count >= 0,
    ensures
        strip_indices(base, n, count).len() == 6 * count,
    decreases count,
{
    if count > 0 {
        lemma_strip_indices_len(base, n, count - 1);
    }
}

/// Every index of a strip points at one of the strip's own `2n` vertices.
pub proof fn lemma_strip_indices_range(base: int, n: int, count: int)
    requires
        0 <= count <= n,
    ensures
        forall|k: int|
            0 <= k < strip_indices(base, n, count).len() ==> base <= #[trigger] strip_indices(base, n, count)[k]
                < base + 2 * n,
    decreases count,
{
    if count > 0 {
        lemma_strip_indices_range(base, n, count - 1);
        lemma_strip_indices_len(base, n, count - 1);
        let head = strip_indices(base, n, count - 1);
        assert forall|k: int| 0 <= k < strip_indices(base, n, count).len() implies base
            <= #[trigger] strip_indices(base, n, count)[k] < base + 2 * n by {
            if k < head.len() {
                assert(strip_indices(base, n, count)[k] == head[k]);
            }
        }
    }
}

/// The corners of a prefix of the contours are a prefix of all corners.
pub proof fn lemma_mesh_corners_prefix(paths: Seq<Seq<ClipContourPoint>>, i: int)
    requires
        0 <= i <= paths.len(),
    ensures
        mesh_corners(paths.take(i)).len() <= mesh_corners(paths).len(),
    decreases paths.len(),
{
    if i < paths.len() {
        assert(paths.drop_last().take(i) =~= paths.take(i));
        lemma_mesh_corners_prefix(paths.drop_last(), i);
    } else {
        assert(paths.take(i) =~= paths);
    }
}

/// A mesh has six indices for every corner, each below the number of
/// vertices, which is two for every corner.
pub proof fn lemma_mesh_indices(paths: Seq<Seq<ClipContourPoint>>)
    ensures
        mesh_indices(paths).len() == 6 * mesh_corners(paths).len(),
        forall|k: int|
            0 <= k < mesh_indices(paths).len() ==> 0 <= #[trigger] mesh_indices(paths)[k] < 2 * mesh_corners(
                paths,
            ).len(),
    decreases paths.len(),
{
    if paths.len() > 0 {
        lemma_mesh_indices(paths.drop_last());
        let n = paths.last().len() as int;
        if n >= 3 {
            let base = 2 * (mesh_corners(paths.drop_last()).len() as int);
            lemma_strip_indices_len(base, n, n);
            lemma_strip_indices_range(base, n, n);
        }
    }
}

/// One contour of `n >= 3` points gives a strip of `2n` vertices and `6n`
/// index entries.
pub proof fn lemma_single_strip_size(points: Seq<ClipContourPoint>)
    requires
        points.len() >= 3,
    ensures
        2 * mesh_corners(seq![points]).len() == 2 * points.len(),
        mesh_indices(seq![points]).len() == 6 * points.len(),
{
    let paths = seq![points];
    lemma_mesh_indices(paths);
}

/// Twice the number of corners, when that fits the index type.
fn mesh_vertex_total(paths: &Vec<Vec<ClipContourPoint>>) -> (total: Option<u32>)
    ensures
        match total {
            Some(t) => t == 2 * mesh_corners(paths_view(paths@)).len(),
            None => 2 * mesh_corners(paths_view(paths@)).len() > u32::MAX,
        },
{
    let ghost pv = paths_view(paths@);
    let mut total: u32 = 0;
    let mut c: usize = 0;
    while c < paths.len()
        invariant
            c <= paths.len(),
            pv == paths_view(paths@),
            total == 2 * mesh_corners(pv.take(c as int)).len(),
        decreases paths.len() - c,
    {
        let n = paths[c].len();
        proof {
            assert(pv.take(c + 1).drop_last() =~= pv.take(c as int));
            lemma_mesh_corners_prefix(pv, c + 1);
        }
        if n >= 3 {
            if n > (u32::MAX / 2) as usize {
                return None;
            }
            let pairs: u32 = 2 * (n as u32);
            if total > u32::MAX - pairs {
                return None;
            }
            total = total + pairs;
        }
        c += 1;
    }
    proof {
        assert(pv.take(c as int) =~= pv);
    }
    Some(total)
}

/// Builds the anti-aliasing mesh of a set of contours.
///
/// Every contour of three points or more becomes one closed triangle strip.
/// Each of its vertices gives two mesh vertices: the vertex itself with
/// coverage 1, and an outer point with coverage 0. The outer point is asked
/// of `extrude`, which is given the corner at that vertex and `aa_radius`
/// and returns where the two edges meet once they are pushed out by the
/// radius; what it returns is held to the miter limit. Contours of fewer
/// points add nothing. The result is `None` exactly when the vertices would
/// outnumber what a 32-bit index can address.
pub fn build_aa_mesh<S: Copy, G: Copy, F: Fn(Corner, u32) -> ClipContourPoint>(
    paths: &Vec<Vec<ClipContourPoint>>,
    style: Style<S, G>,
    aa_radius: u32,
    extrude: &F,
) -> (mesh: Option<CoverageMesh<S, G>>)
    requires
        forall|corner: Corner, radius: u32| call_requires(*extrude, (corner, radius)),
    ensures
        is_aa_mesh(mesh, paths_view(paths@), style, aa_radius, *extrude),
        mesh matches Some(m) ==> {
            &&& m.vertices().len() == 2 * mesh_corners(paths_view(paths@)).len()
            &&& m.indices().len() == 3 * m.vertices().len()
            &&& forall|k: int|
                0 <= k < m.vertices().len() ==> {
                    ||| (#[trigger] m.vertices()[k]).coverage == UNCOVERED
                    ||| m.vertices()[k].coverage == COVERED
                }
            &&& forall|k: int|
                0 <= k < mesh_corners(paths_view(paths@)).len() ==> segment_length(
                    (#[trigger] m.vertices()[2 * k]).position,
                    m.vertices()[2 * k + 1].position,
                ) <= miter_reach(aa_radius)
            &&& forall|k: int| 0 <= k < m.indices().len() ==> (#[trigger] m.indices()[k]) < m.vertices().len()
        },
{
    let ghost pv = paths_view(paths@);
    let total = match mesh_vertex_total(paths) {
        Some(t) => t,
        None => {
            return None;
        },
    };
    let mut vertices: Vec<CoverageVertex> = Vec::new();
    let mut indices: Vec<u32> = Vec::new();
    let mut c: usize = 0;
    while c < paths.len()
        invariant
            c <= paths.len(),
            pv == paths_view(paths@),
            total == 2 * mesh_corners(pv).len(),
            forall|corner: Corner, radius: u32| call_requires(*extrude, (corner, radius)),
            strip_vertices(vertices@, mesh_corners(pv.take(c as int)), aa_radius, *extrude),
            to_ints(indices@) == mesh_indices(pv.take(c as int)),
        decreases paths.len() - c,
    {
        let path = &paths[c];
        let n = path.len();
        let ghost before = mesh_corners(pv.take(c as int));
        let ghost before_indices = mesh_indices(pv.take(c as int));
        proof {
            assert(pv.take(c + 1).drop_last() =~= pv.take(c as int));
            lemma_mesh_corners_prefix(pv, c + 1);
        }
        if n >= 3 {
            let base = vertices.len();
            let mut i: usize = 0;
            while i < n
                invariant
                    i <= n,
                    n == path.len(),
                    n >= 3,
                    2 * (before.len() + n) <= u32::MAX,
                    forall|corner: Corner, radius: u32| call_requires(*extrude, (corner, radius)),
                    strip_vertices(vertices@, before + contour_corners(path@).take(i as int), aa_radius, *extrude),
                decreases n - i,
            {
                let corner = Corner { prev: path[(i + n - 1) % n], at: path[i], next: path[(i + 1) % n] };
                let candidate = extrude(corner, aa_radius);
                let outer = clamp_miter(corner.at, candidate, aa_radius);
                assert(is_outer_point(*extrude, corner, aa_radius, outer));
                let ghost old_corners = before + contour_corners(path@).take(i as int);
                vertices.push(CoverageVertex::new(corner.at, COVERED));
                vertices.push(CoverageVertex::new(outer, UNCOVERED));
                proof {
                    let new_corners = before + contour_corners(path@).take(i + 1);
                    assert forall|k: int| 0 <= k < new_corners.len() implies {
                        &&& vertices@[2 * k] == (CoverageVertex {
                            position: (#[trigger] new_corners[k]).at,
                            coverage: COVERED,
                        })
                        &&& vertices@[2 * k + 1].coverage == UNCOVERED
                        &&& is_outer_point(*extrude, new_corners[k], aa_radius, vertices@[2 * k + 1].position)
                    } by {
                        if k < old_corners.len() {
                            assert(new_corners[k] == old_corners[k]);
                        }
                    }
                }
                i += 1;
            }
            proof {
                assert(contour_corners(path@).take(n as int) =~= contour_corners(path@));
            }
            let mut i: usize = 0;
            while i < n
                invariant
                    i <= n,
                    n >= 3,
                    base == 2 * before.len(),
                    2 * (before.len() + n) <= u32::MAX,
                    to_ints(indices@) == before_indices + strip_indices(base as int, n as int, i as int),
                decreases n - i,
            {
                let next = (i + 1) % n;
                let i0: u32 = (base + 2 * i) as u32;
                let i1: u32 = (base + 2 * i + 1) as u32;
                let i2: u32 = (base + 2 * next) as u32;
                let i3: u32 = (base + 2 * next + 1) as u32;
                let ghost old_indices = to_ints(indices@);
                indices.push(i0);
                indices.push(i1);
                indices.push(i3);
                indices.push(i0);
                indices.push(i3);
                indices.push(i2);
                proof {
                    assert(before_indices + strip_indices(base as int, n as int, i + 1) =~= old_indices
                        + quad_indices(base as int, n as int, i as int));
                }
                i += 1;
            }
        }
        c += 1;
    }
    proof {
        assert(pv.take(c as int) =~= pv);
    }
    let mesh = build_mesh_from_coverage_vertices(vertices, indices, style);
    proof {
        lemma_aa_mesh_shape(mesh, pv, style, aa_radius, *extrude);
    }
    Some(mesh)
}

} // verus!
