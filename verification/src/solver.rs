//! The polygon solver: offsets and boolean operations by Clipper2.
//!
//! Everything that is believed of Clipper2 without proof stands in this
//! file: its error type, one opaque type for its path sets, the names of
//! what it returns, and six functions marked `external_body`. Clipper2
//! works on 64-bit integers and is given grid coordinates as they are; what
//! it returns is brought back onto the grid by verified code.

use vstd::prelude::*;
use clipper2::{ClipperError, EndType as ClipperEnd, FillRule as ClipperRule, JoinType as ClipperJoin, One, Point};
use crate::clip::LineJoin;
use crate::point::{clamp_coord, narrow_coord, ClipContourPoint};

verus! {

/// The ratio of offset distance beyond which a mitered corner is cut off.
pub const MITER_LIMIT: u8 = 4;

/// Vertices closer than this many grid steps to the line through their
/// neighbours are removed after an offset.
pub const SIMPLIFY_EPSILON: u32 = 5;

/// What a list of point lists is in contracts.
pub open spec fn paths_view(paths: Seq<Vec<ClipContourPoint>>) -> Seq<Seq<ClipContourPoint>> {
    paths.map_values(|p: Vec<ClipContourPoint>| p@)
}

/// Copies the points of a path.
pub fn copy_points(points: &Vec<ClipContourPoint>) -> (out: Vec<ClipContourPoint>)
    ensures
        out@ == points@,
{
    let mut out: Vec<ClipContourPoint> = Vec::new();
    let mut i: usize = 0;
    while i < points.len()
        invariant
            i <= points.len(),
            out@ == points@.take(i as int),
        decreases points.len() - i,
    {
        out.push(points[i]);
        i += 1;
    }
    out
}

/// How an offset treats the two ends of a path.
#[derive(Clone, Copy, Debug, PartialEq, Eq, Structural)]
pub enum EndType {
    /// The path is a polygon: its last point joins its first.
    Polygon,
    /// Open, cut off square at the end points.
    Butt,
    /// Open, with a half disc around each end point.
    Round,
    /// Open, extended by the offset distance and cut off square.
    Square,
}

/// Which regions a boolean operation takes as filled.
#[derive(Clone, Copy, Debug, PartialEq, Eq, Structural)]
pub enum FillRule {
    EvenOdd,
    NonZero,
    Positive,
    Negative,
}

/// What can go wrong in this crate.
#[derive(Clone, Copy, Debug, PartialEq, Eq, Structural)]
pub enum GeometryError {
    /// The polygon solver could not produce a result.
    BooleanOpFailed,
}

/// Declares `clipper2::ClipperError`, which Clipper2 returns when a boolean
/// operation fails. Nothing is claimed of its values.
#[verifier::external_type_specification]
#[verifier::external_body]
pub struct ExClipperError(ClipperError);

/// A set of paths in the form in which Clipper2 takes and returns them:
/// `clipper2::Paths` at scale one, so that a coordinate in it is a grid
/// coordinate. Verus sees nothing inside; what a set holds goes by the name
/// `polygon_points`.
///
/// Sets are made in this file only, from grid points or by Clipper2 from
/// such sets, which keeps every coordinate far inside the range that
/// Clipper2 works in. Its binding counts the paths and points of a result
/// in 32 bits and stops the program on a larger one.
#[verifier::external_body]
pub struct PolygonSet {
    inner: clipper2::Paths<One>,
}

/// The coordinates that a polygon set holds, path by path.
pub uninterp spec fn polygon_points(set: PolygonSet) -> Seq<Seq<(i64, i64)>>;

/// The paths that Clipper2 returns for offsetting `paths` by `amount`.
pub uninterp spec fn inflate_result(
    paths: Seq<Seq<(i64, i64)>>,
    amount: int,
    join: LineJoin,
    end: EndType,
    miter_limit: int,
) -> Seq<Seq<(i64, i64)>>;

/// The paths that Clipper2 returns for simplifying `paths`.
pub uninterp spec fn simplify_result(paths: Seq<Seq<(i64, i64)>>, epsilon: int, is_open: bool) -> Seq<
    Seq<(i64, i64)>,
>;

/// The paths that Clipper2 returns for the union of `subject` and `clip`, or
/// `None` where it reports failure.
pub uninterp spec fn union_result(
    subject: Seq<Seq<(i64, i64)>>,
    clip: Seq<Seq<(i64, i64)>>,
    rule: FillRule,
) -> Option<Seq<Seq<(i64, i64)>>>;

/// The paths that Clipper2 returns for `subject` without `clip`, or `None`
/// where it reports failure.
pub uninterp spec fn difference_result(
    subject: Seq<Seq<(i64, i64)>>,
    clip: Seq<Seq<(i64, i64)>>,
    rule: FillRule,
) -> Option<Seq<Seq<(i64, i64)>>>;

/// What a list of raw coordinate lists is in contracts.
pub open spec fn raw_view(paths: Seq<Vec<(i64, i64)>>) -> Seq<Seq<(i64, i64)>> {
    paths.map_values(|p: Vec<(i64, i64)>| p@)
}

/// Grid points as raw coordinate pairs.
pub open spec fn widened(paths: Seq<Seq<ClipContourPoint>>) -> Seq<Seq<(i64, i64)>> {
    paths.map_values(
        |path: Seq<ClipContourPoint>| path.map_values(|p: ClipContourPoint| (p.x as i64, p.y as i64)),
    )
}

/// Trusted: builds a `clipper2::Paths` with `clipper2::Point::from_scaled`
/// for every point. The contract claims that the set holds the coordinates
/// of the points, path by path and in order.
#[verifier::external_body]
fn polygon_set(paths: &Vec<Vec<ClipContourPoint>>) -> (set: PolygonSet)
    ensures
        polygon_points(set) == widened(paths_view(paths@)),
{
    let path_of = |points: &Vec<ClipContourPoint>| -> clipper2::Path<One> {
        points.iter().map(|p| Point::from_scaled(p.x.into(), p.y.into())).collect()
    };
    PolygonSet { inner: paths.iter().map(path_of).collect() }
}

/// Trusted: reads a `clipper2::Paths` with `clipper2::Point::x_scaled` and
/// `y_scaled` for every point. The contract claims that what comes out are
/// the coordinates that the set holds, path by path and in order.
#[verifier::external_body]
fn polygon_paths(set: &PolygonSet) -> (out: Vec<Vec<(i64, i64)>>)
    ensures
        raw_view(out@) == polygon_points(*set),
{
    set.inner.iter().map(|path| path.iter().map(|p| (p.x_scaled(), p.y_scaled())).collect()).collect()
}

/// Trusted: `clipper2::Paths::inflate`. The contract claims only that the
/// paths that come out are a function of what goes in, and gives that
/// function a name. The distance and the miter limit are handed over by
/// lossless conversion.
#[verifier::external_body]
fn clipper_inflate(set: &PolygonSet, amount: i32, join: LineJoin, end: EndType, miter_limit: u8) -> (out: PolygonSet)
    ensures
        polygon_points(out) == inflate_result(polygon_points(*set), amount as int, join, end, miter_limit as int),
{
    let join_type = match join {
        LineJoin::Miter => ClipperJoin::Miter,
        LineJoin::Round => ClipperJoin::Round,
        LineJoin::Bevel => ClipperJoin::Bevel,
    };
    let end_type = match end {
        EndType::Polygon => ClipperEnd::Polygon,
        EndType::Butt => ClipperEnd::Butt,
        EndType::Round => ClipperEnd::Round,
        EndType::Square => ClipperEnd::Square,
    };
    PolygonSet { inner: set.inner.inflate(amount.into(), join_type, end_type, miter_limit.into()) }
}

/// Trusted: `clipper2::Paths::simplify`. The contract claims only that the
/// paths that come out are a function of what goes in, and gives that
/// function a name. The tolerance is handed over by lossless conversion.
#[verifier::external_body]
fn clipper_simplify(set: &PolygonSet, epsilon: u32, is_open: bool) -> (out: PolygonSet)
    ensures
        polygon_points(out) == simplify_result(polygon_points(*set), epsilon as int, is_open),
{
    PolygonSet { inner: set.inner.simplify(epsilon.into(), is_open) }
}

/// Trusted: `clipper2::union`. The contract claims that success or failure,
/// and the paths on success, are a function of what goes in, and gives that
/// function a name.
#[verifier::external_body]
fn clipper_union(subject: &PolygonSet, clip: &PolygonSet, rule: FillRule) -> (out: Result<PolygonSet, ClipperError>)
    ensures
        match out {
            Ok(set) => union_result(polygon_points(*subject), polygon_points(*clip), rule) == Some(
                polygon_points(set),
            ),
            Err(_) => union_result(polygon_points(*subject), polygon_points(*clip), rule) is None,
        },
{
    let fill_rule = match rule {
        FillRule::EvenOdd => ClipperRule::EvenOdd,
        FillRule::NonZero => ClipperRule::NonZero,
        FillRule::Positive => ClipperRule::Positive,
        FillRule::Negative => ClipperRule::Negative,
    };
    Ok(PolygonSet { inner: clipper2::union(subject.inner.clone(), clip.inner.clone(), fill_rule)? })
}

/// Trusted: `clipper2::difference`. The contract claims that success or
/// failure, and the paths on success, are a function of what goes in, and
/// gives that function a name.
#[verifier::external_body]
fn clipper_difference(subject: &PolygonSet, clip: &PolygonSet, rule: FillRule) -> (out: Result<
    PolygonSet,
    ClipperError,
>)
    ensures
        match out {
            Ok(set) => difference_result(polygon_points(*subject), polygon_points(*clip), rule) == Some(
                polygon_points(set),
            ),
            Err(_) => difference_result(polygon_points(*subject), polygon_points(*clip), rule) is None,
        },
{
    let fill_rule = match rule {
        FillRule::EvenOdd => ClipperRule::EvenOdd,
        FillRule::NonZero => ClipperRule::NonZero,
        FillRule::Positive => ClipperRule::Positive,
        FillRule::Negative => ClipperRule::Negative,
    };
    Ok(PolygonSet { inner: clipper2::difference(subject.inner.clone(), clip.inner.clone(), fill_rule)? })
}

/// The grid point nearest to a raw coordinate pair.
pub open spec fn clamp_point(raw: (i64, i64)) -> ClipContourPoint {
    ClipContourPoint { x: clamp_coord(raw.0 as int), y: clamp_coord(raw.1 as int) }
}

/// Raw paths brought onto the grid, point by point.
pub open spec fn narrowed(raw: Seq<Seq<(i64, i64)>>) -> Seq<Seq<ClipContourPoint>> {
    raw.map_values(|path: Seq<(i64, i64)>| path.map_values(|q: (i64, i64)| clamp_point(q)))
}

/// Brings raw paths onto the grid: a coordinate beyond the grid's range
/// becomes the nearest one in range.
pub fn narrow_paths(raw: &Vec<Vec<(i64, i64)>>) -> (out: Vec<Vec<ClipContourPoint>>)
    ensures
        paths_view(out@) == narrowed(raw_view(raw@)),
{
    let mut out: Vec<Vec<ClipContourPoint>> = Vec::new();
    let mut i: usize = 0;
    while i < raw.len()
        invariant
            i <= raw.len(),
            out.len() == i,
            forall|k: int| 0 <= k < i ==> (#[trigger] out[k])@ == raw[k]@.map_values(|q: (i64, i64)| clamp_point(q)),
        decreases raw.len() - i,
    {
        let path = &raw[i];
        let mut points: Vec<ClipContourPoint> = Vec::new();
        let mut j: usize = 0;
        while j < path.len()
            invariant
                j <= path.len(),
                points.len() == j,
                forall|k: int| 0 <= k < j ==> #[trigger] points[k] == clamp_point(path[k]),
            decreases path.len() - j,
        {
            let q = path[j];
            points.push(ClipContourPoint { x: narrow_coord(q.0), y: narrow_coord(q.1) });
            j += 1;
        }
        out.push(points);
        i += 1;
    }
    out
}

/// The offset of `path` by `amount` as this crate uses it: inflated with the
/// fixed miter limit, simplified with the fixed tolerance, and brought onto
/// the grid.
pub open spec fn offset_paths(path: Seq<ClipContourPoint>, join: LineJoin, end: EndType, amount: int) -> Seq<
    Seq<ClipContourPoint>,
> {
    narrowed(
        simplify_result(
            inflate_result(widened(seq![path]), amount, join, end, MITER_LIMIT as int),
            SIMPLIFY_EPSILON as int,
            false,
        ),
    )
}

/// Offsets `path` by `amount` grid steps: outward for a positive amount on a
/// closed path, inward for a negative one. The result may be several paths,
/// or none.
pub fn delta(path: &Vec<ClipContourPoint>, join_type: LineJoin, end_type: EndType, amount: i32) -> (out: Vec<
    Vec<ClipContourPoint>,
>)
    ensures
        paths_view(out@) == offset_paths(path@, join_type, end_type, amount as int),
{
    let mut single: Vec<Vec<ClipContourPoint>> = Vec::new();
    single.push(copy_points(path));
    assert(paths_view(single@) =~= seq![path@]);
    let grown = clipper_inflate(&polygon_set(&single), amount, join_type, end_type, MITER_LIMIT);
    let reduced = clipper_simplify(&grown, SIMPLIFY_EPSILON, false);
    narrow_paths(&polygon_paths(&reduced))
}

/// What a boolean operation returns for a solver outcome: the paths brought
/// onto the grid, or the one error that stands for every solver failure.
pub open spec fn boolean_outcome(solved: Option<Seq<Seq<(i64, i64)>>>) -> Result<
    Seq<Seq<ClipContourPoint>>,
    GeometryError,
> {
    match solved {
        Some(raw) => Ok(narrowed(raw)),
        None => Err(GeometryError::BooleanOpFailed),
    }
}

/// What a result holding paths is in contracts.
pub open spec fn outcome_view(outcome: Result<Vec<Vec<ClipContourPoint>>, GeometryError>) -> Result<
    Seq<Seq<ClipContourPoint>>,
    GeometryError,
> {
    match outcome {
        Ok(paths) => Ok(paths_view(paths@)),
        Err(e) => Err(e),
    }
}

/// Turns a solver outcome into this crate's own: the paths brought onto the
/// grid, or the one error that stands for every solver failure.
pub fn boolean_paths(solved: Result<Vec<Vec<(i64, i64)>>, ClipperError>) -> (out: Result<
    Vec<Vec<ClipContourPoint>>,
    GeometryError,
>)
    ensures
        match solved {
            Ok(raw) => outcome_view(out) == Ok::<Seq<Seq<ClipContourPoint>>, GeometryError>(
                narrowed(raw_view(raw@)),
            ),
            Err(_) => out == Err::<Vec<Vec<ClipContourPoint>>, GeometryError>(GeometryError::BooleanOpFailed),
        },
{
    match solved {
        Ok(raw) => Ok(narrow_paths(&raw)),
        Err(_) => Err(GeometryError::BooleanOpFailed),
    }
}

/// Reads the paths out of a solver outcome.
fn solved_paths(solved: Result<PolygonSet, ClipperError>) -> (out: Result<Vec<Vec<(i64, i64)>>, ClipperError>)
    ensures
        match (solved, out) {
            (Ok(set), Ok(raw)) => raw_view(raw@) == polygon_points(set),
            (Err(_), Err(_)) => true,
            _ => false,
        },
{
    match solved {
        Ok(set) => Ok(polygon_paths(&set)),
        Err(e) => Err(e),
    }
}

/// The union of two sets of closed paths under the non-zero rule.
pub fn union(subject: &Vec<Vec<ClipContourPoint>>, clip: &Vec<Vec<ClipContourPoint>>) -> (out: Result<
    Vec<Vec<ClipContourPoint>>,
    GeometryError,
>)
    ensures
        outcome_view(out) == boolean_outcome(
            union_result(widened(paths_view(subject@)), widened(paths_view(clip@)), FillRule::NonZero),
        ),
{
    let solved = clipper_union(&polygon_set(subject), &polygon_set(clip), FillRule::NonZero);
    boolean_paths(solved_paths(solved))
}

/// The part of `subject` that `clip` does not cover, under the non-zero rule.
pub fn diff(subject: &Vec<Vec<ClipContourPoint>>, clip: &Vec<Vec<ClipContourPoint>>) -> (out: Result<
    Vec<Vec<ClipContourPoint>>,
    GeometryError,
>)
    ensures
        outcome_view(out) == boolean_outcome(
            difference_result(widened(paths_view(subject@)), widened(paths_view(clip@)), FillRule::NonZero),
        ),
{
    let solved = clipper_difference(&polygon_set(subject), &polygon_set(clip), FillRule::NonZero);
    boolean_paths(solved_paths(solved))
}

} // verus!
