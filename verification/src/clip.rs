//! Contours, their winding, and the regions that strokes, fills and clips
//! cover.

use vstd::prelude::*;
use vstd::arithmetic::div_mod::{lemma_mod_self_0, lemma_small_mod};
use crate::coverage_aa::{build_aa_mesh, is_aa_mesh, Corner, CoverageMesh, Style};
use crate::point::lemma_cross_antisymmetric;
pub use crate::point::ClipContourPoint;
use crate::solver::{
    copy_points, delta, diff, difference_result, narrowed, offset_paths, paths_view, union, union_result, widened,
    EndType, FillRule, GeometryError,
};
use crate::dashed::LineDash;
use crate::flat::{line_events, PathEvent};

verus! {

/// What a contour is in contracts: its points in order, and whether
/// the last point connects back to the first.
pub struct ContourView {
    pub points: Seq<ClipContourPoint>,
    pub closed: bool,
}

/// One connected piece of a flattened path.
#[derive(Debug)]
pub struct ClipContour {
    pub points: Vec<ClipContourPoint>,
    pub closed: bool,
}

impl View for ClipContour {
    type V = ContourView;

    open spec fn view(&self) -> ContourView {
        ContourView { points: self.points@, closed: self.closed }
    }
}

/// What a list of contours is in contracts.
pub open spec fn contours_view(contours: Seq<ClipContour>) -> Seq<ContourView> {
    contours.map_values(|c: ClipContour| c@)
}

impl ContourView {
    /// The shape that every stored contour has: at least two points, no point
    /// repeated immediately, and, when closed, a last point that differs from
    /// the first.
    pub open spec fn wf(self) -> bool {
        &&& self.points.len() >= 2
        &&& forall|i: int| 0 < i < self.points.len() ==> self.points[i - 1] != #[trigger] self.points[i]
        &&& self.closed ==> self.points[0] != self.points.last()
    }
}

/// The sum of the cross products of the first `k` edges of the closed loop
/// through `points`; edge `i` leads from point `i` to the point after it, the
/// last edge back to the first point.
pub open spec fn edge_sum(points: Seq<ClipContourPoint>, k: int) -> int
    decreases k,
{
    if k <= 0 {
        0
    } else {
        edge_sum(points, k - 1) + points[k - 1].spec_cross(points[k % (points.len() as int)])
    }
}

/// Twice the signed area that the closed loop through `points` encloses, by
/// the shoelace formula: positive when the loop runs counter-clockwise,
/// zero for fewer than three points.
pub open spec fn shoelace(points: Seq<ClipContourPoint>) -> int {
    if points.len() < 3 {
        0
    } else {
        edge_sum(points, points.len() as int)
    }
}

/// The points in the order in which their loop has non-negative area.
pub open spec fn normalized(points: Seq<ClipContourPoint>) -> Seq<ClipContourPoint> {
    if shoelace(points) < 0 {
        points.reverse()
    } else {
        points
    }
}

/// Walking the reversed points adds up, edge by edge, the negated tail of the
/// sum over the points themselves.
proof fn lemma_edge_sum_reverse(points: Seq<ClipContourPoint>, k: int)
    requires
        points.len() >= 3,
        0 <= k <= points.len() - 1,
    ensures
        edge_sum(points.reverse(), k) == -(edge_sum(points, points.len() - 1) - edge_sum(
            points,
            points.len() - 1 - k,
        )),
    decreases k,
{
    if k > 0 {
        lemma_edge_sum_reverse(points, k - 1);
        let n = points.len() as int;
        lemma_small_mod(k as nat, n as nat);
        lemma_small_mod((n - k) as nat, n as nat);
        lemma_cross_antisymmetric(points[n - k], points[n - 1 - k]);
    }
}

/// Reversing the order of the points negates the shoelace sum.
pub proof fn lemma_shoelace_reverse(points: Seq<ClipContourPoint>)
    ensures
        shoelace(points.reverse()) == -shoelace(points),
{
    if points.len() >= 3 {
        let n = points.len() as int;
        lemma_edge_sum_reverse(points, n - 1);
        lemma_mod_self_0(n);
        lemma_cross_antisymmetric(points[0], points[n - 1]);
    }
}

/// After winding is normalized, the signed area is never negative.
pub proof fn lemma_normalized_area(points: Seq<ClipContourPoint>)
    ensures
        shoelace(normalized(points)) >= 0,
{
    lemma_shoelace_reverse(points);
}

/// Twice the signed area of the closed loop through `path`.
pub fn signed_area(path: &Vec<ClipContourPoint>) -> (area: i128)
    ensures
        area == shoelace(path@),
{
    let n = path.len();
    if n < 3 {
        return 0;
    }
    let mut area: i128 = 0;
    let mut i: usize = 0;
    while i < n
        invariant
            i <= n,
            n == path.len(),
            n >= 3,
            area == edge_sum(path@, i as int),
            -(i as int) * 0x8000_0000_0000_0000 <= area <= (i as int) * 0x8000_0000_0000_0000,
        decreases n - i,
    {
        let term = path[i].cross(path[(i + 1) % n]);
        area = area + term;
        i += 1;
    }
    area
}

/// Returns the points in reverse order.
fn reversed(points: &Vec<ClipContourPoint>) -> (out: Vec<ClipContourPoint>)
    ensures
        out@ == points@.reverse(),
{
    let n = points.len();
    let mut out: Vec<ClipContourPoint> = Vec::new();
    let mut i: usize = 0;
    while i < n
        invariant
            i <= n,
            n == points.len(),
            out.len() == i,
            forall|k: int| 0 <= k < i ==> out[k] == points[n - 1 - k],
        decreases n - i,
    {
        out.push(points[n - 1 - i]);
        i += 1;
    }
    out
}

/// Puts the points in counter-clockwise order, so that a positive offset
/// grows the shape whatever direction it was drawn in.
pub fn normalize_winding(points: Vec<ClipContourPoint>) -> (out: Vec<ClipContourPoint>)
    ensures
        out@ == normalized(points@),
        shoelace(out@) >= 0,
{
    proof {
        lemma_normalized_area(points@);
    }
    if signed_area(&points) < 0 {
        reversed(&points)
    } else {
        points
    }
}

/// How an offset treats a convex corner.
#[derive(Clone, Copy, Debug, PartialEq, Eq, Structural)]
pub enum LineJoin {
    Miter,
    Round,
    Bevel,
}

/// How a stroke ends on an open contour.
#[derive(Clone, Copy, Debug, PartialEq, Eq, Structural)]
pub enum LineCap {
    Butt,
    Round,
    Square,
}

/// How a contour is stroked.
#[derive(Debug)]
pub struct Stroke<S, G> {
    pub style: Style<S, G>,
    /// The width of the stroke in grid steps.
    pub width: u32,
    pub line_cap: LineCap,
    pub line_join: LineJoin,
    /// The dash pattern, if the stroke is dashed. Dashing is done on the
    /// path before it is stroked.
    pub line_dash: Option<LineDash>,
}

/// A region ready to draw: its exact boundary, free of anti-aliasing, its
/// style, and the mesh that feathers its edge.
#[derive(Debug)]
pub struct CoverageFillPath<S, G> {
    pub fill_path: Vec<PathEvent>,
    pub style: Style<S, G>,
    pub aa_mesh: CoverageMesh<S, G>,
}

/// The events that draw one contour: a begin at its first point, a line to
/// each further point, and an end.
pub open spec fn contour_events(points: Seq<ClipContourPoint>, close: bool) -> Seq<PathEvent>
    recommends
        points.len() > 0,
{
    seq![PathEvent::Begin { at: points[0] }] + line_events(points.skip(1)) + seq![PathEvent::End { close }]
}

/// The events that draw the boundary of a region: each path of three points
/// or more, in counter-clockwise order, as one sub-path.
pub open spec fn boundary_events(paths: Seq<Seq<ClipContourPoint>>, is_closed: bool) -> Seq<PathEvent>
    decreases paths.len(),
{
    if paths.len() == 0 {
        Seq::empty()
    } else {
        boundary_events(paths.drop_last(), is_closed) + if paths.last().len() >= 3 {
            contour_events(normalized(paths.last()), is_closed)
        } else {
            Seq::empty()
        }
    }
}

/// Adds to `events` the events that draw one contour.
pub fn push_contour_events(events: &mut Vec<PathEvent>, points: &Vec<ClipContourPoint>, close: bool)
    requires
        points.len() > 0,
    ensures
        final(events)@ == old(events)@ + contour_events(points@, close),
{
    let ghost before = events@;
    events.push(PathEvent::Begin { at: points[0] });
    let mut i: usize = 1;
    while i < points.len()
        invariant
            1 <= i <= points.len(),
            events@ == before + seq![PathEvent::Begin { at: points[0] }] + line_events(
                points@.subrange(1, i as int),
            ),
        decreases points.len() - i,
    {
        events.push(PathEvent::Line { to: points[i] });
        i += 1;
    }
    events.push(PathEvent::End { close });
}

/// The exact boundary of a region as path events: every path of three points
/// or more, put in counter-clockwise order, ended closed or open as
/// `is_closed` says. Paths of fewer points are left out.
pub fn build_lyon_path_from_paths(outer_paths: &Vec<Vec<ClipContourPoint>>, is_closed: bool) -> (events: Vec<
    PathEvent,
>)
    ensures
        events@ == boundary_events(paths_view(outer_paths@), is_closed),
{
    let ghost pv = paths_view(outer_paths@);
    let mut events: Vec<PathEvent> = Vec::new();
    let mut i: usize = 0;
    while i < outer_paths.len()
        invariant
            i <= outer_paths.len(),
            pv == paths_view(outer_paths@),
            events@ == boundary_events(pv.take(i as int), is_closed),
        decreases outer_paths.len() - i,
    {
        proof {
            assert(pv.take(i + 1).drop_last() =~= pv.take(i as int));
        }
        if outer_paths[i].len() >= 3 {
            let oriented = normalize_winding(copy_points(&outer_paths[i]));
            push_contour_events(&mut events, &oriented, is_closed);
        }
        i += 1;
    }
    proof {
        assert(pv.take(i as int) =~= pv);
    }
    events
}

/// Whether `out` is what `paths` give to draw: the boundary of the region
/// and the anti-aliasing mesh round it, or nothing where the mesh would
/// outgrow its indices.
pub open spec fn covers<S, G, F: Fn(Corner, u32) -> ClipContourPoint>(
    out: Option<CoverageFillPath<S, G>>,
    paths: Seq<Seq<ClipContourPoint>>,
    closed: bool,
    style: Style<S, G>,
    aa_radius: u32,
    extrude: F,
) -> bool {
    match out {
        Some(c) => {
            &&& c.fill_path@ == boundary_events(paths, closed)
            &&& c.style == style
            &&& is_aa_mesh(Some(c.aa_mesh), paths, style, aa_radius, extrude)
        },
        None => is_aa_mesh(None::<CoverageMesh<S, G>>, paths, style, aa_radius, extrude),
    }
}

/// Makes the drawable form of a region that is given by its paths.
pub fn coverage_path<S: Copy, G: Copy, F: Fn(Corner, u32) -> ClipContourPoint>(
    paths: Vec<Vec<ClipContourPoint>>,
    closed: bool,
    style: Style<S, G>,
    aa_radius: u32,
    extrude: &F,
) -> (out: Option<CoverageFillPath<S, G>>)
    requires
        forall|corner: Corner, radius: u32| call_requires(*extrude, (corner, radius)),
    ensures
        covers(out, paths_view(paths@), closed, style, aa_radius, *extrude),
{
    let fill_path = build_lyon_path_from_paths(&paths, closed);
    match build_aa_mesh(&paths, style, aa_radius, extrude) {
        Some(aa_mesh) => Some(CoverageFillPath { fill_path, style, aa_mesh }),
        None => None,
    }
}

/// The end treatment of an offset: a closed contour is a polygon, an open
/// one ends as its cap says.
pub open spec fn spec_end_type(closed: bool, cap: LineCap) -> EndType {
    if closed {
        EndType::Polygon
    } else {
        match cap {
            LineCap::Butt => EndType::Butt,
            LineCap::Round => EndType::Round,
            LineCap::Square => EndType::Square,
        }
    }
}

/// The end treatment of an offset for a contour and a cap.
pub fn end_type(closed: bool, cap: LineCap) -> (end: EndType)
    ensures
        end == spec_end_type(closed, cap),
{
    if closed {
        EndType::Polygon
    } else {
        match cap {
            LineCap::Butt => EndType::Butt,
            LineCap::Round => EndType::Round,
            LineCap::Square => EndType::Square,
        }
    }
}

/// Half the width at which a stroke is offset. The mesh adds one
/// anti-aliasing radius outside each edge of the stroke, so the stroke is
/// narrowed by two radii first, though never below one radius.
pub open spec fn spec_stroke_half_width(width: u32, aa_radius: u32) -> int {
    let narrowed = width - 2 * aa_radius;
    (if narrowed > aa_radius {
        narrowed
    } else {
        aa_radius as int
    }) / 2
}

/// Half the width at which a stroke of `width` is offset.
pub fn stroke_half_width(width: u32, aa_radius: u32) -> (half: i32)
    ensures
        half == spec_stroke_half_width(width, aa_radius),
{
    let narrowed: i64 = width as i64 - 2 * (aa_radius as i64);
    let effective: i64 = if narrowed > aa_radius as i64 {
        narrowed
    } else {
        aa_radius as i64
    };
    (effective / 2) as i32
}

/// The distance by which a fill is inset: one anti-aliasing radius inward,
/// which the mesh adds back as its ramp.
pub open spec fn spec_fill_inset(aa_radius: u32) -> int {
    if aa_radius > i32::MAX {
        -(i32::MAX as int)
    } else {
        -(aa_radius as int)
    }
}

/// The distance by which a fill is inset, as an offset amount.
pub fn fill_inset(aa_radius: u32) -> (amount: i32)
    ensures
        amount == spec_fill_inset(aa_radius),
{
    if aa_radius > i32::MAX as u32 {
        -i32::MAX
    } else {
        -(aa_radius as i32)
    }
}

/// The region that a stroke covers before anti-aliasing. A closed contour
/// gives the ring between its outward and its inward offset; should the
/// solver fail on the ring, the outward offset stands. An open contour gives
/// its offset with the stroke's caps.
pub open spec fn stroke_region(
    contour: ContourView,
    join: LineJoin,
    cap: LineCap,
    width: u32,
    aa_radius: u32,
) -> Seq<Seq<ClipContourPoint>> {
    let path = normalized(contour.points);
    let half = spec_stroke_half_width(width, aa_radius);
    let end = spec_end_type(contour.closed, cap);
    let outer = offset_paths(path, join, end, half);
    if contour.closed {
        match difference_result(
            widened(outer),
            widened(offset_paths(path, join, end, -half)),
            FillRule::NonZero,
        ) {
            Some(ring) => narrowed(ring),
            None => outer,
        }
    } else {
        outer
    }
}

/// The region that a fill covers before anti-aliasing: the contour, inset
/// by one anti-aliasing radius.
pub open spec fn fill_region(contour: ContourView, aa_radius: u32) -> Seq<Seq<ClipContourPoint>> {
    offset_paths(normalized(contour.points), LineJoin::Miter, EndType::Polygon, spec_fill_inset(aa_radius))
}

/// The ring of a closed stroke from its two offsets and what the solver made
/// of their difference.
pub fn stroke_ring(
    outer: Vec<Vec<ClipContourPoint>>,
    solved: Result<Vec<Vec<ClipContourPoint>>, GeometryError>,
) -> (ring: Vec<Vec<ClipContourPoint>>)
    ensures
        ring == match solved {
            Ok(paths) => paths,
            Err(_) => outer,
        },
{
    match solved {
        Ok(paths) => paths,
        Err(_) => outer,
    }
}

impl ClipContour {
    /// Makes the drawable form of the stroke along this contour.
    pub fn to_coverage_stroke_path<S: Copy, G: Copy, F: Fn(Corner, u32) -> ClipContourPoint>(
        self,
        stroke: &Stroke<S, G>,
        aa_radius: u32,
        extrude: &F,
    ) -> (out: Option<CoverageFillPath<S, G>>)
        requires
            forall|corner: Corner, radius: u32| call_requires(*extrude, (corner, radius)),
        ensures
            covers(
                out,
                stroke_region(self@, stroke.line_join, stroke.line_cap, stroke.width, aa_radius),
                self.closed,
                stroke.style,
                aa_radius,
                *extrude,
            ),
    {
        let closed = self.closed;
        let path = normalize_winding(self.points);
        let join = stroke.line_join;
        let end = end_type(closed, stroke.line_cap);
        let stroke_delta = stroke_half_width(stroke.width, aa_radius);
        let region = if closed {
            let stroke_outer = delta(&path, join, end, stroke_delta);
            let stroke_inner = delta(&path, join, end, -stroke_delta);
            let solved = diff(&stroke_outer, &stroke_inner);
            stroke_ring(stroke_outer, solved)
        } else {
            delta(&path, join, end, stroke_delta)
        };
        coverage_path(region, closed, stroke.style, aa_radius, extrude)
    }

    /// Makes the drawable form of the fill inside this contour.
    pub fn to_coverage_fill_path<S: Copy, G: Copy, F: Fn(Corner, u32) -> ClipContourPoint>(
        self,
        style: Style<S, G>,
        aa_radius: u32,
        extrude: &F,
    ) -> (out: Option<CoverageFillPath<S, G>>)
        requires
            forall|corner: Corner, radius: u32| call_requires(*extrude, (corner, radius)),
        ensures
            covers(out, fill_region(self@, aa_radius), self.closed, style, aa_radius, *extrude),
    {
        let closed = self.closed;
        let path = normalize_winding(self.points);
        let region = delta(&path, LineJoin::Miter, EndType::Polygon, fill_inset(aa_radius));
        coverage_path(region, closed, style, aa_radius, extrude)
    }
}

/// Paths as contours that are all closed, or all open.
pub open spec fn as_contours(paths: Seq<Seq<ClipContourPoint>>, closed: bool) -> Seq<ContourView> {
    paths.map_values(|points: Seq<ClipContourPoint>| ContourView { points, closed })
}

/// The point lists of contours.
pub open spec fn contour_points(contours: Seq<ContourView>) -> Seq<Seq<ClipContourPoint>> {
    contours.map_values(|c: ContourView| c.points)
}

/// The points of a contour as a path for the polygon solver.
pub fn contour_to_clip_path(contour: ClipContour) -> (path: Vec<ClipContourPoint>)
    ensures
        path@ == contour@.points,
{
    contour.points
}

/// Wraps each path into a contour with the given flag.
pub fn clip_path_to_contour(paths: Vec<Vec<ClipContourPoint>>, is_closed: bool) -> (contours: Vec<ClipContour>)
    ensures
        contours_view(contours@) == as_contours(paths_view(paths@), is_closed),
{
    let ghost pv = paths_view(paths@);
    let mut contours: Vec<ClipContour> = Vec::new();
    for points in it: paths.into_iter()
        invariant
            it.seq() == paths@,
            pv == paths_view(paths@),
            contours.len() == it.index(),
            forall|k: int|
                0 <= k < it.index() ==> (#[trigger] contours[k])@ == (ContourView {
                    points: pv[k],
                    closed: is_closed,
                }),
    {
        contours.push(ClipContour { points, closed: is_closed });
    }
    contours
}

/// What clipping makes of one contour. A closed contour is united with the
/// clip region; should the solver fail, it is kept as it is. An open contour
/// takes no part in boolean operations and is kept as it is.
pub open spec fn clipped_contour(contour: ContourView, clip: Seq<Seq<ClipContourPoint>>) -> Seq<ContourView> {
    if contour.closed {
        match union_result(widened(seq![contour.points]), widened(clip), FillRule::NonZero) {
            Some(raw) => as_contours(narrowed(raw), true),
            None => seq![contour],
        }
    } else {
        seq![contour]
    }
}

/// What clipping makes of a list of contours, contour after contour.
pub open spec fn clipped(contours: Seq<ContourView>, clip: Seq<Seq<ClipContourPoint>>) -> Seq<ContourView>
    decreases contours.len(),
{
    if contours.len() == 0 {
        Seq::empty()
    } else {
        clipped(contours.drop_last(), clip) + clipped_contour(contours.last(), clip)
    }
}

/// The contours that stand for a closed contour after the solver has been
/// asked for its union with the clip region: the union, or the contour
/// itself where the solver failed.
pub fn clip_outcome(contour: ClipContour, solved: Result<Vec<Vec<ClipContourPoint>>, GeometryError>) -> (out: Vec<
    ClipContour,
>)
    ensures
        contours_view(out@) == match solved {
            Ok(paths) => as_contours(paths_view(paths@), true),
            Err(_) => seq![contour@],
        },
{
    match solved {
        Ok(paths) => clip_path_to_contour(paths, true),
        Err(_) => {
            let mut kept: Vec<ClipContour> = Vec::new();
            kept.push(contour);
            kept
        },
    }
}

/// The point lists of a list of contours.
pub fn clip_paths(contours: &Vec<ClipContour>) -> (paths: Vec<Vec<ClipContourPoint>>)
    ensures
        paths_view(paths@) == contour_points(contours_view(contours@)),
{
    let mut paths: Vec<Vec<ClipContourPoint>> = Vec::new();
    let mut i: usize = 0;
    while i < contours.len()
        invariant
            i <= contours.len(),
            paths.len() == i,
            forall|k: int| 0 <= k < i ==> (#[trigger] paths[k])@ == contours[k].points@,
        decreases contours.len() - i,
    {
        paths.push(copy_points(&contours[i].points));
        i += 1;
    }
    paths
}

/// Clips contours by a clip region: every closed contour is united with the
/// whole of the region; open contours pass through.
pub fn clip_by_path(contours: Vec<ClipContour>, clip_path: &Vec<ClipContour>) -> (results: Vec<ClipContour>)
    ensures
        contours_view(results@) == clipped(contours_view(contours@), contour_points(contours_view(clip_path@))),
{
    let ghost cv = contours_view(contours@);
    let ghost clip = contour_points(contours_view(clip_path@));
    let clip_set = clip_paths(clip_path);
    let mut results: Vec<ClipContour> = Vec::new();
    for contour in it: contours.into_iter()
        invariant
            it.seq() == contours@,
            cv == contours_view(contours@),
            clip == paths_view(clip_set@),
            contours_view(results@) == clipped(cv.take(it.index() as int), clip),
    {
        proof {
            assert(cv.take(it.index() + 1).drop_last() =~= cv.take(it.index() as int));
        }
        let mut piece = if contour.closed {
            let mut subject: Vec<Vec<ClipContourPoint>> = Vec::new();
            subject.push(copy_points(&contour.points));
            assert(paths_view(subject@) =~= seq![contour@.points]);
            let solved = union(&subject, &clip_set);
            clip_outcome(contour, solved)
        } else {
            let mut kept: Vec<ClipContour> = Vec::new();
            kept.push(contour);
            kept
        };
        results.append(&mut piece);
    }
    proof {
        assert(cv.take(contours@.len() as int) =~= cv);
    }
    results
}

} // verus!
