//! Flattened paths: path events in, contours out, and what is done to
//! whole paths.

use vstd::prelude::*;
use crate::clip::{
    as_contours, clip_by_path, clip_path_to_contour, clip_paths, clipped, contour_events, contour_points,
    contours_view, normalize_winding, normalized, push_contour_events, ClipContour, ClipContourPoint, ContourView,
    LineJoin,
};
use crate::solver::{
    copy_points, delta, diff, difference_result, narrowed, offset_paths, paths_view, widened, EndType, FillRule,
    GeometryError,
};
use crate::dashed::{dashed_events, dashed_path, lemma_dashed_events_open, pattern_ok, LineDash};

verus! {

/// One step of a polyline path description.
#[derive(Clone, Copy, Debug, PartialEq, Eq, Structural)]
pub enum PathEvent {
    /// A new sub-path starts at `at`.
    Begin { at: ClipContourPoint },
    /// A straight segment leads from the current point to `to`.
    Line { to: ClipContourPoint },
    /// The sub-path ends; `close` says whether it returns to its start.
    End { close: bool },
}

/// The contours found so far and the points of the sub-path under way.
pub struct FlattenState {
    pub done: Seq<ContourView>,
    pub current: Seq<ClipContourPoint>,
}

/// The points a sub-path leaves behind when it ends: a closed one gives up a
/// last point that repeats its first.
pub open spec fn finished_points(current: Seq<ClipContourPoint>, close: bool) -> Seq<ClipContourPoint> {
    if close && current.len() >= 2 && current[0] == current.last() {
        current.drop_last()
    } else {
        current
    }
}

/// How one event changes the state.
pub open spec fn flatten_step(state: FlattenState, event: PathEvent) -> FlattenState {
    match event {
        PathEvent::Begin { at } => FlattenState { done: state.done, current: seq![at] },
        PathEvent::Line { to } => FlattenState {
            done: state.done,
            current: if state.current.len() > 0 && state.current.last() == to {
                state.current
            } else {
                state.current.push(to)
            },
        },
        PathEvent::End { close } => {
            let points = finished_points(state.current, close);
            FlattenState {
                done: if points.len() >= 2 {
                    state.done.push(ContourView { points, closed: close })
                } else {
                    state.done
                },
                current: Seq::empty(),
            }
        },
    }
}

/// The state after `events`, starting from `state`.
pub open spec fn flatten_from(state: FlattenState, events: Seq<PathEvent>) -> FlattenState
    decreases events.len(),
{
    if events.len() == 0 {
        state
    } else {
        flatten_step(flatten_from(state, events.drop_last()), events.last())
    }
}

/// The state after all of `events`, starting with nothing.
pub open spec fn flatten_state(events: Seq<PathEvent>) -> FlattenState {
    flatten_from(FlattenState { done: Seq::empty(), current: Seq::empty() }, events)
}

/// The contours that a sequence of events describes. Points of a sub-path
/// that never ends are dropped.
pub open spec fn flattened(events: Seq<PathEvent>) -> Seq<ContourView> {
    flatten_state(events).done
}

/// A flattened path: contours in the order in which they were found.
#[derive(Debug)]
pub struct FlattenedPath {
    pub contours: Vec<ClipContour>,
}

impl View for FlattenedPath {
    type V = Seq<ContourView>;

    open spec fn view(&self) -> Seq<ContourView> {
        contours_view(self.contours@)
    }
}

impl FlattenedPath {
    /// A path without contours.
    pub fn new() -> (path: Self)
        ensures
            path@ == Seq::<ContourView>::empty(),
    {
        FlattenedPath { contours: Vec::new() }
    }

    /// Adds a contour after those that the path holds.
    pub fn push(&mut self, contour: ClipContour)
        ensures
            final(self)@ == old(self)@.push(contour@),
    {
        self.contours.push(contour);
    }

    /// Splits the path into the point lists of its closed contours and
    /// those of its open ones, each in order.
    pub fn to_clipper_paths(self) -> (parts: (Vec<Vec<ClipContourPoint>>, Vec<Vec<ClipContourPoint>>))
        ensures
            paths_view(parts.0@) == paths_of(self@, true),
            paths_view(parts.1@) == paths_of(self@, false),
    {
        let ghost cv = self@;
        let contours = self.contours;
        let mut close: Vec<Vec<ClipContourPoint>> = Vec::new();
        let mut open: Vec<Vec<ClipContourPoint>> = Vec::new();
        let mut i: usize = 0;
        while i < contours.len()
            invariant
                i <= contours.len(),
                cv == contours_view(contours@),
                paths_view(close@) == paths_of(cv.take(i as int), true),
                paths_view(open@) == paths_of(cv.take(i as int), false),
            decreases contours.len() - i,
        {
            proof {
                assert(cv.take(i + 1).drop_last() =~= cv.take(i as int));
            }
            let points = copy_points(&contours[i].points);
            if contours[i].closed {
                close.push(points);
            } else {
                open.push(points);
            }
            i += 1;
        }
        proof {
            assert(cv.take(i as int) =~= cv);
        }
        (close, open)
    }

    /// The contours of `first`, then those of `second`.
    pub fn merge(first: FlattenedPath, second: FlattenedPath) -> (path: FlattenedPath)
        ensures
            path@ == first@ + second@,
    {
        let mut contours = first.contours;
        let mut rest = second.contours;
        contours.append(&mut rest);
        FlattenedPath { contours }
    }

    /// The path as events: each contour of two points or more as one
    /// sub-path.
    pub fn to_iced_path(&self) -> (events: Vec<PathEvent>)
        ensures
            events@ == path_events(self@),
    {
        let ghost cv = self@;
        let mut events: Vec<PathEvent> = Vec::new();
        let mut i: usize = 0;
        while i < self.contours.len()
            invariant
                i <= self.contours.len(),
                cv == contours_view(self.contours@),
                events@ == path_events(cv.take(i as int)),
            decreases self.contours.len() - i,
        {
            proof {
                assert(cv.take(i + 1).drop_last() =~= cv.take(i as int));
            }
            let contour = &self.contours[i];
            if contour.points.len() > 1 {
                push_contour_events(&mut events, &contour.points, contour.closed);
            }
            i += 1;
        }
        proof {
            assert(cv.take(i as int) =~= cv);
        }
        events
    }

    /// Moves every point by `vector`. A coordinate that would leave the
    /// grid stops at its edge.
    pub fn transform(self, vector: ClipContourPoint) -> (path: Self)
        ensures
            path@ == shifted(self@, vector),
    {
        let ghost cv = self@;
        let contours = self.contours;
        let mut moved: Vec<ClipContour> = Vec::new();
        let mut i: usize = 0;
        while i < contours.len()
            invariant
                i <= contours.len(),
                cv == contours_view(contours@),
                moved.len() == i,
                forall|k: int| 0 <= k < i ==> (#[trigger] moved[k])@ == shifted_contour(cv[k], vector),
            decreases contours.len() - i,
        {
            let contour = &contours[i];
            let mut points: Vec<ClipContourPoint> = Vec::new();
            let mut j: usize = 0;
            while j < contour.points.len()
                invariant
                    j <= contour.points.len(),
                    points.len() == j,
                    forall|k: int| 0 <= k < j ==> #[trigger] points[k] == contour.points[k].spec_add(vector),
                decreases contour.points.len() - j,
            {
                points.push(contour.points[j].add(vector));
                j += 1;
            }
            assert(points@ =~= contour.points@.map_values(|p: ClipContourPoint| p.spec_add(vector)));
            moved.push(ClipContour { points, closed: contour.closed });
            i += 1;
        }
        FlattenedPath { contours: moved }
    }

    /// Offsets every contour by `amount` grid steps and gathers the
    /// resulting outlines.
    pub fn delta(&self, amount: i32) -> (path: FlattenedPath)
        ensures
            path@ == offset_contours(self@, amount as int),
    {
        let ghost cv = self@;
        let mut contours: Vec<ClipContour> = Vec::new();
        let mut i: usize = 0;
        while i < self.contours.len()
            invariant
                i <= self.contours.len(),
                cv == contours_view(self.contours@),
                contours_view(contours@) == offset_contours(cv.take(i as int), amount as int),
            decreases self.contours.len() - i,
        {
            proof {
                assert(cv.take(i + 1).drop_last() =~= cv.take(i as int));
            }
            let mut piece = self.contours[i].delta(amount);
            contours.append(&mut piece);
            i += 1;
        }
        proof {
            assert(cv.take(i as int) =~= cv);
        }
        FlattenedPath { contours }
    }

    /// Dashes the path: the stretches that fall on drawn lengths of the
    /// pattern, as open contours.
    pub fn dashed(&self, dash: &LineDash) -> (path: FlattenedPath)
        requires
            pattern_ok(dash.segments@),
        ensures
            path@ == flattened(dashed_events(dash.segments@, dash.offset as int, path_events(self@))),
            forall|k: int| 0 <= k < path@.len() ==> (#[trigger] path@[k]).wf() && !path@[k].closed,
    {
        let events = self.to_iced_path();
        let cut = dashed_path(&events, dash);
        proof {
            lemma_dashed_events_open(dash.segments@, dash.offset as int, events@);
            lemma_flatten_open(FlattenState { done: Seq::empty(), current: Seq::empty() }, cut@);
        }
        geometry_path_flatten(&cut)
    }

    /// The contours that a sequence of path events describes.
    pub fn from_path(path: &Vec<PathEvent>) -> (flat: FlattenedPath)
        ensures
            flat@ == flattened(path@),
            forall|k: int| 0 <= k < flat@.len() ==> (#[trigger] flat@[k]).wf(),
    {
        geometry_path_flatten(path)
    }

    /// Restricts the path by another. Its closed contours are clipped by
    /// `clip_path`, which is first offset by `clip_offset` if one is given;
    /// then `diff_path` is cut out of them. A step on which the solver fails
    /// leaves its input as it was. Open contours take no part and follow
    /// the closed ones unchanged.
    pub fn clip(
        self,
        clip_path: Option<&FlattenedPath>,
        clip_offset: Option<i32>,
        diff_path: Option<&FlattenedPath>,
    ) -> (path: FlattenedPath)
        ensures
            path@ == clip_result(
                self@,
                match clip_path {
                    Some(c) => Some(c@),
                    None => None,
                },
                match clip_offset {
                    Some(a) => Some(a as int),
                    None => None,
                },
                match diff_path {
                    Some(d) => Some(d@),
                    None => None,
                },
            ),
    {
        let (close_paths, open_paths) = self.to_clipper_paths();
        let closed = clip_path_to_contour(close_paths, true);
        let open = clip_path_to_contour(open_paths, false);
        let restricted = match clip_path {
            Some(region) => match clip_offset {
                Some(amount) => {
                    let grown = region.delta(amount);
                    clip_by_path(closed, &grown.contours)
                },
                None => clip_by_path(closed, &region.contours),
            },
            None => closed,
        };
        let cut = match diff_path {
            Some(hole) => {
                let solved = diff(&clip_paths(&restricted), &clip_paths(&hole.contours));
                subtract_outcome(restricted, solved)
            },
            None => restricted,
        };
        FlattenedPath::merge(FlattenedPath { contours: cut }, FlattenedPath { contours: open })
    }
}

impl ClipContour {
    /// Offsets the contour by `amount` grid steps, with mitered corners. A
    /// closed contour is offset as a polygon, an open one as a line with
    /// butt ends; what comes out are closed outlines.
    pub fn delta(&self, amount: i32) -> (out: Vec<ClipContour>)
        ensures
            contours_view(out@) == offset_contour(self@, amount as int),
    {
        let path = normalize_winding(copy_points(&self.points));
        let end = if self.closed {
            EndType::Polygon
        } else {
            EndType::Butt
        };
        clip_path_to_contour(delta(&path, LineJoin::Miter, end, amount), true)
    }
}

/// The point lists of the contours whose flag is `closed`, in order.
pub open spec fn paths_of(contours: Seq<ContourView>, closed: bool) -> Seq<Seq<ClipContourPoint>>
    decreases contours.len(),
{
    if contours.len() == 0 {
        Seq::empty()
    } else if contours.last().closed == closed {
        paths_of(contours.drop_last(), closed).push(contours.last().points)
    } else {
        paths_of(contours.drop_last(), closed)
    }
}

/// The events that draw a list of contours; a contour of fewer than two
/// points draws nothing.
pub open spec fn path_events(contours: Seq<ContourView>) -> Seq<PathEvent>
    decreases contours.len(),
{
    if contours.len() == 0 {
        Seq::empty()
    } else {
        path_events(contours.drop_last()) + if contours.last().points.len() > 1 {
            contour_events(contours.last().points, contours.last().closed)
        } else {
            Seq::empty()
        }
    }
}

/// A contour moved by `vector`.
pub open spec fn shifted_contour(contour: ContourView, vector: ClipContourPoint) -> ContourView {
    ContourView {
        points: contour.points.map_values(|p: ClipContourPoint| p.spec_add(vector)),
        closed: contour.closed,
    }
}

/// Contours moved by `vector`.
pub open spec fn shifted(contours: Seq<ContourView>, vector: ClipContourPoint) -> Seq<ContourView> {
    contours.map_values(|c: ContourView| shifted_contour(c, vector))
}

/// The outlines of one contour offset by `amount`.
pub open spec fn offset_contour(contour: ContourView, amount: int) -> Seq<ContourView> {
    as_contours(
        offset_paths(
            normalized(contour.points),
            LineJoin::Miter,
            if contour.closed {
                EndType::Polygon
            } else {
                EndType::Butt
            },
            amount,
        ),
        true,
    )
}

/// The outlines of all contours offset by `amount`, contour after contour.
pub open spec fn offset_contours(contours: Seq<ContourView>, amount: int) -> Seq<ContourView>
    decreases contours.len(),
{
    if contours.len() == 0 {
        Seq::empty()
    } else {
        offset_contours(contours.drop_last(), amount) + offset_contour(contours.last(), amount)
    }
}

/// Closed contours without the region `hole`; as they were, should the
/// solver fail.
pub open spec fn subtracted(contours: Seq<ContourView>, hole: Seq<ContourView>) -> Seq<ContourView> {
    match difference_result(
        widened(contour_points(contours)),
        widened(contour_points(hole)),
        FillRule::NonZero,
    ) {
        Some(raw) => as_contours(narrowed(raw), true),
        None => contours,
    }
}

/// What `FlattenedPath::clip` returns.
pub open spec fn clip_result(
    contours: Seq<ContourView>,
    clip_path: Option<Seq<ContourView>>,
    clip_offset: Option<int>,
    diff_path: Option<Seq<ContourView>>,
) -> Seq<ContourView> {
    let closed = as_contours(paths_of(contours, true), true);
    let open = as_contours(paths_of(contours, false), false);
    let clipped = match clip_path {
        Some(region) => clipped(
            closed,
            contour_points(
                match clip_offset {
                    Some(amount) => offset_contours(region, amount),
                    None => region,
                },
            ),
        ),
        None => closed,
    };
    let cut = match diff_path {
        Some(hole) => subtracted(clipped, hole),
        None => clipped,
    };
    cut + open
}

/// The contours that stand for closed contours after the solver has been
/// asked to cut a region out of them: what is left, or the contours
/// themselves where the solver failed.
pub fn subtract_outcome(contours: Vec<ClipContour>, solved: Result<Vec<Vec<ClipContourPoint>>, GeometryError>) -> (out:
    Vec<ClipContour>)
    ensures
        contours_view(out@) == match solved {
            Ok(paths) => as_contours(paths_view(paths@), true),
            Err(_) => contours_view(contours@),
        },
{
    match solved {
        Ok(paths) => clip_path_to_contour(paths, true),
        Err(_) => contours,
    }
}

/// The contours that a sequence of path events describes.
pub fn geometry_path_flatten(path: &Vec<PathEvent>) -> (flat: FlattenedPath)
    ensures
        flat@ == flattened(path@),
        forall|k: int| 0 <= k < flat@.len() ==> (#[trigger] flat@[k]).wf(),
{
    lyon_path_flatten(path)
}

/// Whether no point of the sub-path under way repeats the one before it,
/// and every finished contour is well formed.
pub open spec fn state_wf(state: FlattenState) -> bool {
    &&& forall|i: int| 0 < i < state.current.len() ==> state.current[i - 1] != #[trigger] state.current[i]
    &&& forall|k: int| 0 <= k < state.done.len() ==> (#[trigger] state.done[k]).wf()
}

/// One event keeps a state well formed.
pub proof fn lemma_flatten_step_wf(state: FlattenState, event: PathEvent)
    requires
        state_wf(state),
    ensures
        state_wf(flatten_step(state, event)),
{
    if let PathEvent::End { close } = event {
        let points = finished_points(state.current, close);
        if close && points.len() >= 2 && state.current[0] == state.current.last() {
            // The point before the dropped one differs from it, and so from
            // the first point.
            assert(points.last() == state.current[state.current.len() - 2]);
        }
    }
}

/// Events keep a state well formed.
pub proof fn lemma_flatten_from_wf(state: FlattenState, events: Seq<PathEvent>)
    requires
        state_wf(state),
    ensures
        state_wf(flatten_from(state, events)),
    decreases events.len(),
{
    if events.len() > 0 {
        lemma_flatten_from_wf(state, events.drop_last());
        lemma_flatten_step_wf(flatten_from(state, events.drop_last()), events.last());
    }
}

/// Every contour that flattening finds is well formed: it has two points or
/// more, none repeats the one before it, and a closed one does not end on
/// its first point.
pub proof fn lemma_flattened_wf(events: Seq<PathEvent>)
    ensures
        forall|k: int| 0 <= k < flattened(events).len() ==> (#[trigger] flattened(events)[k]).wf(),
{
    lemma_flatten_from_wf(FlattenState { done: Seq::empty(), current: Seq::empty() }, events);
}

/// Going through two runs of events one after the other is going through
/// both as one.
pub proof fn lemma_flatten_from_concat(state: FlattenState, first: Seq<PathEvent>, second: Seq<PathEvent>)
    ensures
        flatten_from(state, first + second) == flatten_from(flatten_from(state, first), second),
    decreases second.len(),
{
    if second.len() > 0 {
        assert((first + second).drop_last() =~= first + second.drop_last());
        lemma_flatten_from_concat(state, first, second.drop_last());
    }
}

/// The line events to each of `points`.
pub open spec fn line_events(points: Seq<ClipContourPoint>) -> Seq<PathEvent> {
    points.map_values(|p: ClipContourPoint| PathEvent::Line { to: p })
}

/// Lines to points of which none repeats the one before it add those points
/// to the sub-path under way.
proof fn lemma_flatten_lines(state: FlattenState, points: Seq<ClipContourPoint>)
    requires
        state.current.len() > 0,
        points.len() > 0 ==> points[0] != state.current.last(),
        forall|i: int| 0 < i < points.len() ==> points[i - 1] != #[trigger] points[i],
    ensures
        flatten_from(state, line_events(points)) == (FlattenState {
            done: state.done,
            current: state.current + points,
        }),
    decreases points.len(),
{
    if points.len() > 0 {
        let head = points.drop_last();
        lemma_flatten_lines(state, head);
        assert(line_events(points).drop_last() =~= line_events(head));
        assert((state.current + head).push(points.last()) =~= state.current + points);
    }
}

/// The events that draw a well-formed contour flatten to that contour,
/// whatever was under way before.
pub proof fn lemma_flatten_contour(state: FlattenState, contour: ContourView)
    requires
        contour.wf(),
    ensures
        flatten_from(state, contour_events(contour.points, contour.closed)) == (FlattenState {
            done: state.done.push(contour),
            current: Seq::empty(),
        }),
{
    let points = contour.points;
    let start = seq![PathEvent::Begin { at: points[0] }];
    let lines = line_events(points.skip(1));
    let stop = seq![PathEvent::End { close: contour.closed }];
    lemma_flatten_from_concat(state, start + lines, stop);
    lemma_flatten_from_concat(state, start, lines);
    let begun = flatten_from(state, start);
    assert(flatten_from(state, start.drop_last()) == state);
    assert forall|i: int| 0 < i < points.skip(1).len() implies points.skip(1)[i - 1] != #[trigger] points.skip(1)[i] by {
    }
    lemma_flatten_lines(begun, points.skip(1));
    let drawn = flatten_from(begun, lines);
    assert(seq![points[0]] + points.skip(1) =~= points);
    assert(flatten_from(drawn, stop.drop_last()) == drawn);
}

/// Drawing well-formed contours and flattening what was drawn gives the
/// contours back.
pub proof fn lemma_flatten_path_events(contours: Seq<ContourView>)
    requires
        forall|k: int| 0 <= k < contours.len() ==> (#[trigger] contours[k]).wf(),
    ensures
        flattened(path_events(contours)) == contours,
        flatten_state(path_events(contours)).current == Seq::<ClipContourPoint>::empty(),
    decreases contours.len(),
{
    let start = FlattenState { done: Seq::empty(), current: Seq::empty() };
    if contours.len() > 0 {
        let head = contours.drop_last();
        let last = contours.last();
        assert forall|k: int| 0 <= k < head.len() implies (#[trigger] head[k]).wf() by {
            assert(head[k] == contours[k]);
        }
        lemma_flatten_path_events(head);
        lemma_flatten_from_concat(start, path_events(head), contour_events(last.points, last.closed));
        lemma_flatten_contour(flatten_state(path_events(head)), last);
    }
}

/// Whether an event is no end that closes its sub-path.
pub open spec fn leaves_open(event: PathEvent) -> bool {
    event matches PathEvent::End { close } ==> !close
}

/// Whether every end among the events leaves its sub-path open.
pub open spec fn ends_open(events: Seq<PathEvent>) -> bool {
    forall|i: int| 0 <= i < events.len() ==> leaves_open(#[trigger] events[i])
}

/// Whether every contour is open.
pub open spec fn all_open(contours: Seq<ContourView>) -> bool {
    forall|k: int| 0 <= k < contours.len() ==> !(#[trigger] contours[k]).closed
}

/// Events whose ends are all open flatten to open contours.
pub proof fn lemma_flatten_open(state: FlattenState, events: Seq<PathEvent>)
    requires
        ends_open(events),
        all_open(state.done),
    ensures
        all_open(flatten_from(state, events).done),
    decreases events.len(),
{
    if events.len() > 0 {
        assert forall|i: int| 0 <= i < events.drop_last().len() implies leaves_open(
            #[trigger] events.drop_last()[i],
        ) by {
            assert(events.drop_last()[i] == events[i]);
        }
        lemma_flatten_open(state, events.drop_last());
        assert(leaves_open(events[events.len() - 1]));
    }
}

/// Turns path events into contours. A point that repeats the one before it
/// is left out; a closed sub-path drops a last point equal to its first; a
/// sub-path left with fewer than two points is dropped.
pub fn lyon_path_flatten(events: &Vec<PathEvent>) -> (path: FlattenedPath)
    ensures
        path@ == flattened(events@),
        forall|k: int| 0 <= k < path@.len() ==> (#[trigger] path@[k]).wf(),
{
    let mut contours = FlattenedPath::new();
    let mut current_points: Vec<ClipContourPoint> = Vec::new();
    let mut i: usize = 0;
    while i < events.len()
        invariant
            i <= events.len(),
            contours@ == flatten_state(events@.take(i as int)).done,
            current_points@ == flatten_state(events@.take(i as int)).current,
        decreases events.len() - i,
    {
        proof {
            assert(events@.take(i + 1).drop_last() =~= events@.take(i as int));
        }
        match events[i] {
            PathEvent::Begin { at } => {
                current_points = Vec::new();
                current_points.push(at);
            },
            PathEvent::Line { to } => {
                let n = current_points.len();
                if n == 0 || current_points[n - 1] != to {
                    current_points.push(to);
                }
            },
            PathEvent::End { close } => {
                let n = current_points.len();
                if close && n >= 2 && current_points[0] == current_points[n - 1] {
                    current_points.pop();
                }
                if current_points.len() >= 2 {
                    contours.push(ClipContour { points: current_points, closed: close });
                }
                current_points = Vec::new();
            },
        }
        i += 1;
    }
    proof {
        assert(events@.take(i as int) =~= events@);
        lemma_flattened_wf(events@);
        assert forall|k: int| 0 <= k < contours@.len() implies (#[trigger] contours@[k]).wf() by {
            assert(contours@[k] == flattened(events@)[k]);
        }
    }
    contours
}

} // verus!
