//! Dashing: walking a path along a repeating pattern of drawn and skipped
//! lengths.

use vstd::prelude::*;
use vstd::arithmetic::div_mod::{lemma_add_mod_noop_right, lemma_mod_bound};
use crate::point::{
    distance, lemma_segment_length_nonnegative, lemma_sqrt_floor_unique, point_along, point_at, segment_length,
    ClipContourPoint,
};
use crate::flat::{ends_open, leaves_open, PathEvent};

verus! {

/// A dash pattern: lengths in grid steps that are drawn and skipped in turn,
/// and the index of the length to start with.
#[derive(Debug)]
pub struct LineDash {
    pub segments: Vec<u32>,
    pub offset: usize,
}

/// Whether a pattern can be walked: it has a length, and every length is
/// positive.
pub open spec fn pattern_ok(pattern: Seq<u32>) -> bool {
    &&& pattern.len() > 0
    &&& forall|i: int| 0 <= i < pattern.len() ==> #[trigger] pattern[i] > 0
}

/// Where a walk stands in the pattern: the current length, what is left of
/// it, and whether it is a drawn one.
pub struct DashPhase {
    pub idx: int,
    pub remaining: int,
    pub draw: bool,
}

/// Whether a phase belongs to a pattern.
pub open spec fn phase_ok(pattern: Seq<u32>, phase: DashPhase) -> bool {
    &&& 0 <= phase.idx < pattern.len()
    &&& 0 < phase.remaining <= pattern[phase.idx]
}

/// The phase at the start of a walk: the whole of the length at `offset`,
/// counted round the pattern; lengths at even indices are drawn.
pub open spec fn start_phase(pattern: Seq<u32>, offset: int) -> DashPhase {
    let idx = offset % (pattern.len() as int);
    DashPhase { idx, remaining: pattern[idx] as int, draw: idx % 2 == 0 }
}

/// The phase when the current length is used up: the whole of the next
/// length, round the pattern, drawn if this one was not.
pub open spec fn next_phase(pattern: Seq<u32>, phase: DashPhase) -> DashPhase {
    let idx = (phase.idx + 1) % (pattern.len() as int);
    DashPhase { idx, remaining: pattern[idx] as int, draw: !phase.draw }
}

/// How far a walk with `left` to go gets before the current length or the
/// walk ends.
pub open spec fn take_of(phase: DashPhase, left: int) -> int {
    if left < phase.remaining {
        left
    } else {
        phase.remaining
    }
}

/// The phase after going `take` further, at most to the end of the current
/// length.
pub open spec fn after_take(pattern: Seq<u32>, phase: DashPhase, take: int) -> DashPhase {
    if take >= phase.remaining {
        next_phase(pattern, phase)
    } else {
        DashPhase { idx: phase.idx, remaining: phase.remaining - take, draw: phase.draw }
    }
}

/// The phase after walking `length` grid steps.
pub open spec fn walk_phase(pattern: Seq<u32>, phase: DashPhase, length: int) -> DashPhase
    decreases length,
{
    if length <= 0 || phase.remaining <= 0 {
        phase
    } else {
        let take = take_of(phase, length);
        walk_phase(pattern, after_take(pattern, phase, take), length - take)
    }
}

impl LineDash {
    /// Tells whether the pattern can be walked.
    pub fn is_valid(&self) -> (ok: bool)
        ensures
            ok == pattern_ok(self.segments@),
    {
        if self.segments.len() == 0 {
            return false;
        }
        let mut i: usize = 0;
        while i < self.segments.len()
            invariant
                i <= self.segments.len(),
                forall|k: int| 0 <= k < i ==> #[trigger] self.segments[k] > 0,
            decreases self.segments.len() - i,
        {
            if self.segments[i] == 0 {
                return false;
            }
            i += 1;
        }
        true
    }
}

/// The cursor of a walk along a dash pattern.
#[derive(Debug)]
pub struct DashState<'a> {
    pub segments: &'a Vec<u32>,
    pub idx: usize,
    pub remaining: u32,
    pub draw: bool,
}

impl<'a> DashState<'a> {
    /// The cursor without the pattern.
    pub open spec fn phase(&self) -> DashPhase {
        DashPhase { idx: self.idx as int, remaining: self.remaining as int, draw: self.draw }
    }

    /// Whether the cursor stands inside a length of a pattern that can be
    /// walked, with some of that length left.
    pub open spec fn wf(&self) -> bool {
        &&& pattern_ok(self.segments@)
        &&& phase_ok(self.segments@, self.phase())
    }

    /// The cursor at the start of a walk.
    pub fn new(dash: &'a LineDash) -> (state: Self)
        requires
            pattern_ok(dash.segments@),
        ensures
            state.segments@ == dash.segments@,
            state.phase() == start_phase(dash.segments@, dash.offset as int),
            state.wf(),
    {
        let idx = dash.offset % dash.segments.len();
        DashState { segments: &dash.segments, idx, remaining: dash.segments[idx], draw: idx % 2 == 0 }
    }

    /// Moves to the start of the next length, round the pattern, and from
    /// drawing to skipping or back.
    pub fn advance(&mut self)
        requires
            pattern_ok(old(self).segments@),
            old(self).idx < old(self).segments.len(),
        ensures
            final(self).segments == old(self).segments,
            final(self).phase() == next_phase(old(self).segments@, old(self).phase()),
            final(self).wf(),
    {
        self.idx = (self.idx + 1) % self.segments.len();
        self.remaining = self.segments[self.idx];
        self.draw = !self.draw;
    }
}

/// One stretch of a walk on which the pattern stands at one length: how
/// long the stretch is, whether it is drawn, and whether it uses the
/// pattern's length up.
pub struct DashRun {
    pub length: int,
    pub draw: bool,
    pub complete: bool,
}

/// The stretches into which the pattern cuts a walk of `length` grid steps.
/// Every stretch but the last uses up one length of the pattern; the last
/// ends with the walk.
pub open spec fn runs(pattern: Seq<u32>, phase: DashPhase, length: int) -> Seq<DashRun>
    decreases length,
{
    if length <= 0 || phase.remaining <= 0 {
        Seq::empty()
    } else {
        let take = take_of(phase, length);
        seq![DashRun { length: take, draw: phase.draw, complete: take >= phase.remaining }] + runs(
            pattern,
            after_take(pattern, phase, take),
            length - take,
        )
    }
}

/// The events of one stretch: if it is drawn, a line to its end, after a
/// begin at its start unless the pen is down already; and an end where
/// `ended` says so.
pub open spec fn cut_events(
    draw: bool,
    drawing: bool,
    cursor: ClipContourPoint,
    next: ClipContourPoint,
    ended: bool,
) -> Seq<PathEvent> {
    let begun = if draw && !drawing {
        seq![PathEvent::Begin { at: cursor }]
    } else {
        Seq::empty()
    };
    let drawn = if draw {
        begun.push(PathEvent::Line { to: next })
    } else {
        begun
    };
    if ended {
        drawn.push(PathEvent::End { close: false })
    } else {
        drawn
    }
}

/// Whether the pen is down after a stretch: it is lifted when a length of
/// the pattern is used up, and put down by a drawn stretch.
pub open spec fn pen_after_run(run: DashRun, drawing: bool) -> bool {
    (drawing || run.draw) && !run.complete
}

/// The events of the stretches `rs`, laid along the segment from `from` to
/// `to`, of length `len`, starting `t` grid steps along it. A contour under
/// way ends where a stretch uses up its length of the pattern.
pub open spec fn run_events(
    rs: Seq<DashRun>,
    drawing: bool,
    from: ClipContourPoint,
    to: ClipContourPoint,
    len: int,
    t: int,
) -> Seq<PathEvent>
    decreases rs.len(),
{
    if rs.len() == 0 {
        Seq::empty()
    } else {
        let run = rs[0];
        cut_events(
            run.draw,
            drawing,
            point_along(from, to, t, len),
            point_along(from, to, t + run.length, len),
            (drawing || run.draw) && run.complete,
        ) + run_events(rs.skip(1), pen_after_run(run, drawing), from, to, len, t + run.length)
    }
}

/// Whether the pen is down after the stretches `rs`.
pub open spec fn pen_after(rs: Seq<DashRun>, drawing: bool) -> bool
    decreases rs.len(),
{
    if rs.len() == 0 {
        drawing
    } else {
        pen_after(rs.skip(1), pen_after_run(rs[0], drawing))
    }
}

/// What walking a segment gives: the events drawn, and the phase and the pen
/// at its end. The pen is down while a contour is under way.
pub struct DashWalk {
    pub events: Seq<PathEvent>,
    pub phase: DashPhase,
    pub drawing: bool,
}

/// Walking the segment from `from` to `to`. Its length, rounded down to
/// whole grid steps, is cut into stretches by the pattern; the drawn ones
/// give the events. A segment of no length changes nothing.
pub open spec fn walk_segment(
    pattern: Seq<u32>,
    phase: DashPhase,
    drawing: bool,
    from: ClipContourPoint,
    to: ClipContourPoint,
) -> DashWalk {
    let len = segment_length(from, to);
    let rs = runs(pattern, phase, len);
    DashWalk {
        events: run_events(rs, drawing, from, to, len, 0),
        phase: walk_phase(pattern, phase, len),
        drawing: pen_after(rs, drawing),
    }
}

/// Walks the segment from `from` to `to` along the dash pattern, adding to
/// `builder` the events of what is drawn.
pub fn dash_line(
    from: ClipContourPoint,
    to: ClipContourPoint,
    state: &mut DashState<'_>,
    builder: &mut Vec<PathEvent>,
    drawing: &mut bool,
)
    requires
        old(state).wf(),
    ensures
        final(state).wf(),
        final(state).segments == old(state).segments,
        final(builder)@ == old(builder)@ + walk_segment(
            old(state).segments@,
            old(state).phase(),
            *old(drawing),
            from,
            to,
        ).events,
        final(state).phase() == walk_segment(old(state).segments@, old(state).phase(), *old(drawing), from, to).phase,
        *final(drawing) == walk_segment(old(state).segments@, old(state).phase(), *old(drawing), from, to).drawing,
{
    let ghost pattern = state.segments@;
    let ghost full = walk_segment(pattern, state.phase(), *drawing, from, to);
    let ghost before = builder@;
    let ghost mut emitted: Seq<PathEvent> = Seq::empty();
    let len = distance(from, to);
    if len == 0 {
        return;
    }
    let mut t: u64 = 0;
    let mut cursor = from;
    while t < len
        invariant
            t <= len,
            0 < len,
            state.wf(),
            state.segments == old(state).segments,
            pattern == state.segments@,
            cursor == point_along(from, to, t as int, len as int),
            builder@ == before + emitted,
            full.events == emitted + run_events(
                runs(pattern, state.phase(), len - t),
                *drawing,
                from,
                to,
                len as int,
                t as int,
            ),
            full.phase == walk_phase(pattern, state.phase(), len - t),
            full.drawing == pen_after(runs(pattern, state.phase(), len - t), *drawing),
        decreases len - t,
    {
        let ghost phase = state.phase();
        let ghost pen = *drawing;
        let ghost rs = runs(pattern, phase, len - t);
        let left = len - t;
        let take: u32 = if left < state.remaining as u64 {
            left as u32
        } else {
            state.remaining
        };
        let next = point_at(from, to, t + take as u64, len);
        if state.draw {
            if !*drawing {
                builder.push(PathEvent::Begin { at: cursor });
                *drawing = true;
            }
            builder.push(PathEvent::Line { to: next });
        }
        cursor = next;
        t = t + take as u64;
        state.remaining = state.remaining - take;
        if state.remaining == 0 {
            if *drawing {
                builder.push(PathEvent::End { close: false });
                *drawing = false;
            }
            state.advance();
        }
        proof {
            let run = DashRun { length: take as int, draw: phase.draw, complete: take >= phase.remaining };
            let rest = runs(pattern, state.phase(), len - t);
            assert(rs.skip(1) =~= rest);
            let cut = cut_events(
                run.draw,
                pen,
                point_along(from, to, t - take, len as int),
                point_along(from, to, t as int, len as int),
                (pen || run.draw) && run.complete,
            );
            emitted = emitted + cut;
        }
    }
}

/// Where a dash walk stands between two path events: what it has drawn,
/// its phase and pen, and the first and the latest point of the sub-path
/// under way.
pub struct DashTrace {
    pub events: Seq<PathEvent>,
    pub phase: DashPhase,
    pub drawing: bool,
    pub first: Option<ClipContourPoint>,
    pub current: Option<ClipContourPoint>,
    /// The length walked so far, in grid steps.
    pub traveled: int,
}

/// How one path event moves a dash walk on. A line is walked from the latest
/// point; a closing end is walked back to the first point; every end lifts
/// the pen. The phase carries over from one sub-path to the next.
pub open spec fn dash_step(pattern: Seq<u32>, trace: DashTrace, event: PathEvent) -> DashTrace {
    match event {
        PathEvent::Begin { at } => DashTrace { first: Some(at), current: Some(at), ..trace },
        PathEvent::Line { to } => match trace.current {
            Some(from) => {
                let w = walk_segment(pattern, trace.phase, trace.drawing, from, to);
                DashTrace {
                    events: trace.events + w.events,
                    phase: w.phase,
                    drawing: w.drawing,
                    first: trace.first,
                    current: Some(to),
                    traveled: trace.traveled + segment_length(from, to),
                }
            },
            None => DashTrace { first: Some(to), current: Some(to), ..trace },
        },
        PathEvent::End { close } => {
            let (w, length) = match (trace.current, trace.first) {
                (Some(from), Some(to)) if close => (
                    walk_segment(pattern, trace.phase, trace.drawing, from, to),
                    segment_length(from, to),
                ),
                _ => (DashWalk { events: Seq::empty(), phase: trace.phase, drawing: trace.drawing }, 0),
            };
            DashTrace {
                events: if w.drawing {
                    (trace.events + w.events).push(PathEvent::End { close: false })
                } else {
                    trace.events + w.events
                },
                phase: w.phase,
                drawing: false,
                first: None,
                current: None,
                traveled: trace.traveled + length,
            }
        },
    }
}

/// The dash walk after all of `events`.
pub open spec fn dash_trace(pattern: Seq<u32>, offset: int, events: Seq<PathEvent>) -> DashTrace
    decreases events.len(),
{
    if events.len() == 0 {
        DashTrace {
            events: Seq::empty(),
            phase: start_phase(pattern, offset),
            drawing: false,
            first: None,
            current: None,
            traveled: 0,
        }
    } else {
        dash_step(pattern, dash_trace(pattern, offset, events.drop_last()), events.last())
    }
}

/// The events of the dashed path: those of the walk, and an end for a
/// contour still under way when the events run out.
pub open spec fn dashed_events(pattern: Seq<u32>, offset: int, events: Seq<PathEvent>) -> Seq<PathEvent> {
    let trace = dash_trace(pattern, offset, events);
    if trace.drawing {
        trace.events.push(PathEvent::End { close: false })
    } else {
        trace.events
    }
}

/// Dashes a polyline path: walks its segments end to end along the pattern
/// and returns, as open sub-paths, the stretches that fall on drawn lengths.
pub fn dashed_path(path: &Vec<PathEvent>, dash: &LineDash) -> (out: Vec<PathEvent>)
    requires
        pattern_ok(dash.segments@),
    ensures
        out@ == dashed_events(dash.segments@, dash.offset as int, path@),
{
    let ghost pattern = dash.segments@;
    let mut state = DashState::new(dash);
    let mut builder: Vec<PathEvent> = Vec::new();
    let mut drawing = false;
    let mut first: Option<ClipContourPoint> = None;
    let mut current: Option<ClipContourPoint> = None;
    let ghost mut traveled: int = 0;
    let mut i: usize = 0;
    while i < path.len()
        invariant
            i <= path.len(),
            state.wf(),
            state.segments@ == pattern,
            pattern == dash.segments@,
            (DashTrace { events: builder@, phase: state.phase(), drawing, first, current, traveled }) == dash_trace(
                pattern,
                dash.offset as int,
                path@.take(i as int),
            ),
        decreases path.len() - i,
    {
        proof {
            assert(path@.take(i + 1).drop_last() =~= path@.take(i as int));
        }
        let ghost trace = dash_trace(pattern, dash.offset as int, path@.take(i as int));
        match path[i] {
            PathEvent::Begin { at } => {
                first = Some(at);
                current = Some(at);
            },
            PathEvent::Line { to } => {
                match current {
                    Some(from) => {
                        dash_line(from, to, &mut state, &mut builder, &mut drawing);
                    },
                    None => {
                        first = Some(to);
                    },
                }
                current = Some(to);
            },
            PathEvent::End { close } => {
                if close {
                    match (current, first) {
                        (Some(from), Some(to)) => {
                            dash_line(from, to, &mut state, &mut builder, &mut drawing);
                        },
                        _ => {},
                    }
                }
                if drawing {
                    builder.push(PathEvent::End { close: false });
                    drawing = false;
                }
                first = None;
                current = None;
            },
        }
        proof {
            let after = dash_step(pattern, trace, path@[i as int]);
            traveled = after.traveled;
        }
        i += 1;
    }
    proof {
        assert(path@.take(i as int) =~= path@);
    }
    if drawing {
        builder.push(PathEvent::End { close: false });
    }
    builder
}

/// Going on within the current length, or to its end, leaves a phase that
/// belongs to the pattern.
pub proof fn lemma_after_take_ok(pattern: Seq<u32>, phase: DashPhase, take: int)
    requires
        pattern_ok(pattern),
        phase_ok(pattern, phase),
        0 < take <= phase.remaining,
    ensures
        phase_ok(pattern, after_take(pattern, phase, take)),
{
    lemma_mod_bound(phase.idx + 1, pattern.len() as int);
}

/// The phase at the start of a walk belongs to the pattern.
pub proof fn lemma_start_phase_ok(pattern: Seq<u32>, offset: int)
    requires
        pattern_ok(pattern),
    ensures
        phase_ok(pattern, start_phase(pattern, offset)),
{
    lemma_mod_bound(offset, pattern.len() as int);
}

/// Every walk leaves a phase that belongs to the pattern.
pub proof fn lemma_walk_phase_ok(pattern: Seq<u32>, phase: DashPhase, length: int)
    requires
        pattern_ok(pattern),
        phase_ok(pattern, phase),
    ensures
        phase_ok(pattern, walk_phase(pattern, phase, length)),
    decreases length,
{
    if length > 0 {
        let take = take_of(phase, length);
        lemma_after_take_ok(pattern, phase, take);
        lemma_walk_phase_ok(pattern, after_take(pattern, phase, take), length - take);
    }
}

/// Walking `a` grid steps and then `b` more leaves the pattern where one
/// walk of `a + b` leaves it: the phase depends only on the distance gone.
pub proof fn lemma_walk_phase_additive(pattern: Seq<u32>, phase: DashPhase, a: int, b: int)
    requires
        pattern_ok(pattern),
        phase_ok(pattern, phase),
        0 <= a,
        0 <= b,
    ensures
        walk_phase(pattern, phase, a + b) == walk_phase(pattern, walk_phase(pattern, phase, a), b),
    decreases a,
{
    if a > 0 {
        if phase.remaining <= a {
            let next = after_take(pattern, phase, phase.remaining);
            lemma_after_take_ok(pattern, phase, phase.remaining);
            lemma_walk_phase_additive(pattern, next, a - phase.remaining, b);
        } else {
            let part = after_take(pattern, phase, a);
            assert(walk_phase(pattern, part, 0) == part);
        }
    }
}

/// The length of the pattern on which stretch `j` of a walk from `phase`
/// stands: what is left of the current length for the first stretch, and for
/// each further one the whole of the next length, round the pattern.
pub open spec fn run_limit(pattern: Seq<u32>, phase: DashPhase, j: int) -> int {
    if j == 0 {
        phase.remaining
    } else {
        pattern[(phase.idx + j) % (pattern.len() as int)] as int
    }
}

/// The summed length of stretches.
pub open spec fn runs_total(rs: Seq<DashRun>) -> int
    decreases rs.len(),
{
    if rs.len() == 0 {
        0
    } else {
        rs[0].length + runs_total(rs.skip(1))
    }
}

/// The stretches of a walk add up to its length. They are drawn and skipped
/// in turn, starting as the phase says. Each is as long as the pattern's
/// length on which it stands, but for the last, which the end of the walk may
/// cut short.
pub proof fn lemma_runs_follow_pattern(pattern: Seq<u32>, phase: DashPhase, length: int)
    requires
        pattern_ok(pattern),
        phase_ok(pattern, phase),
        0 <= length,
    ensures
        runs_total(runs(pattern, phase, length)) == length,
        forall|j: int|
            0 <= j < runs(pattern, phase, length).len() ==> {
                &&& (#[trigger] runs(pattern, phase, length)[j]).draw == (phase.draw == (j % 2 == 0))
                &&& 0 < runs(pattern, phase, length)[j].length <= run_limit(pattern, phase, j)
                &&& runs(pattern, phase, length)[j].complete == (runs(pattern, phase, length)[j].length
                    == run_limit(pattern, phase, j))
                &&& j < runs(pattern, phase, length).len() - 1 ==> runs(pattern, phase, length)[j].complete
            },
    decreases length,
{
    let rs = runs(pattern, phase, length);
    if length > 0 {
        let n = pattern.len() as int;
        let take = take_of(phase, length);
        let next = after_take(pattern, phase, take);
        let rest = runs(pattern, next, length - take);
        lemma_after_take_ok(pattern, phase, take);
        lemma_runs_follow_pattern(pattern, next, length - take);
        assert(rs.skip(1) =~= rest);
        assert forall|j: int| 0 <= j < rs.len() implies {
            &&& (#[trigger] rs[j]).draw == (phase.draw == (j % 2 == 0))
            &&& 0 < rs[j].length <= run_limit(pattern, phase, j)
            &&& rs[j].complete == (rs[j].length == run_limit(pattern, phase, j))
            &&& j < rs.len() - 1 ==> rs[j].complete
        } by {
            if j > 0 {
                if j > 1 {
                    lemma_add_mod_noop_right(j - 1, phase.idx + 1, n);
                }
            }
        }
    }
}

/// Dashing a stretch of `length` grid steps from the start of the pattern
/// gives runs that are drawn and skipped in turn, each as long as the
/// pattern's next length, the last one cut where the stretch ends; together
/// they are as long as the stretch.
pub proof fn lemma_dash_runs(pattern: Seq<u32>, offset: int, length: int)
    requires
        pattern_ok(pattern),
        0 <= offset,
        0 <= length,
    ensures
        runs_total(runs(pattern, start_phase(pattern, offset), length)) == length,
        forall|j: int|
            0 <= j < runs(pattern, start_phase(pattern, offset), length).len() ==> {
                let run = #[trigger] runs(pattern, start_phase(pattern, offset), length)[j];
                let whole = pattern[(offset + j) % (pattern.len() as int)] as int;
                &&& run.draw == (start_phase(pattern, offset).draw == (j % 2 == 0))
                &&& 0 < run.length <= whole
                &&& run.complete == (run.length == whole)
                &&& j < runs(pattern, start_phase(pattern, offset), length).len() - 1 ==> run.length == whole
            },
{
    let phase = start_phase(pattern, offset);
    let n = pattern.len() as int;
    lemma_start_phase_ok(pattern, offset);
    lemma_runs_follow_pattern(pattern, phase, length);
    assert forall|j: int| 0 <= j < runs(pattern, phase, length).len() implies run_limit(pattern, phase, j)
        == pattern[(offset + j) % n] as int by {
        lemma_add_mod_noop_right(j, offset, n);
    }
}

/// The stretches of a walk that is made in two parts: those of the first
/// part, then those of the second; but a stretch that the end of the first
/// part cut short goes on as one stretch with the stretch that starts the
/// second part.
pub open spec fn join_runs(first: Seq<DashRun>, second: Seq<DashRun>) -> Seq<DashRun> {
    if first.len() == 0 {
        second
    } else if second.len() == 0 || first.last().complete {
        first + second
    } else {
        first.drop_last().push(
            DashRun {
                length: first.last().length + second[0].length,
                draw: first.last().draw,
                complete: second[0].complete,
            },
        ) + second.skip(1)
    }
}

/// Cutting a walk in two parts cuts at most one stretch in two and changes
/// nothing else: the stretches of a walk of `a + b` grid steps are those of
/// a walk of `a` joined to those of the walk of `b` that follows it.
pub proof fn lemma_runs_split(pattern: Seq<u32>, phase: DashPhase, a: int, b: int)
    requires
        pattern_ok(pattern),
        phase_ok(pattern, phase),
        0 <= a,
        0 <= b,
    ensures
        runs(pattern, phase, a + b) == join_runs(
            runs(pattern, phase, a),
            runs(pattern, walk_phase(pattern, phase, a), b),
        ),
    decreases a,
{
    if a > 0 {
        if phase.remaining <= a {
            // The first stretch is whole in both walks; the rest is split.
            let next = after_take(pattern, phase, phase.remaining);
            lemma_after_take_ok(pattern, phase, phase.remaining);
            lemma_runs_split(pattern, next, a - phase.remaining, b);
        } else {
            // The first part ends inside the first stretch, which the second
            // part takes up where it was cut.
            let part = after_take(pattern, phase, a);
            assert(runs(pattern, part, 0) =~= Seq::<DashRun>::empty());
            assert(walk_phase(pattern, part, 0) == part);
        }
    }
}

/// A segment of no length is skipped: it draws nothing and leaves the
/// pattern and the pen as they were.
pub proof fn lemma_zero_segment_skipped(pattern: Seq<u32>, phase: DashPhase, drawing: bool, at: ClipContourPoint)
    ensures
        walk_segment(pattern, phase, drawing, at, at) == (DashWalk { events: Seq::empty(), phase, drawing }),
{
    lemma_sqrt_floor_unique(0, 0);
    assert((at.x - at.x) * (at.x - at.x) + (at.y - at.y) * (at.y - at.y) == 0) by (nonlinear_arith);
}

/// However a path is cut into segments, the dash pattern stands after it
/// where a single straight walk of the same length would leave it.
pub proof fn lemma_dash_trace_phase(pattern: Seq<u32>, offset: int, events: Seq<PathEvent>)
    requires
        pattern_ok(pattern),
    ensures
        dash_trace(pattern, offset, events).traveled >= 0,
        phase_ok(pattern, dash_trace(pattern, offset, events).phase),
        dash_trace(pattern, offset, events).phase == walk_phase(
            pattern,
            start_phase(pattern, offset),
            dash_trace(pattern, offset, events).traveled,
        ),
    decreases events.len(),
{
    lemma_start_phase_ok(pattern, offset);
    if events.len() > 0 {
        let start = start_phase(pattern, offset);
        let before = dash_trace(pattern, offset, events.drop_last());
        lemma_dash_trace_phase(pattern, offset, events.drop_last());
        match events.last() {
            PathEvent::Begin { at } => {},
            PathEvent::Line { to } => {
                if let Some(from) = before.current {
                    lemma_segment_length_nonnegative(from, to);
                    lemma_walk_phase_additive(pattern, start, before.traveled, segment_length(from, to));
                    lemma_walk_phase_ok(pattern, before.phase, segment_length(from, to));
                }
            },
            PathEvent::End { close } => {
                if close {
                    if let (Some(from), Some(to)) = (before.current, before.first) {
                        lemma_segment_length_nonnegative(from, to);
                        lemma_walk_phase_additive(pattern, start, before.traveled, segment_length(from, to));
                        lemma_walk_phase_ok(pattern, before.phase, segment_length(from, to));
                    }
                }
            },
        }
    }
}

/// Joining events whose ends are all open gives events whose ends are all
/// open.
pub proof fn lemma_ends_open_concat(first: Seq<PathEvent>, second: Seq<PathEvent>)
    requires
        ends_open(first),
        ends_open(second),
    ensures
        ends_open(first + second),
{
    assert forall|i: int| 0 <= i < (first + second).len() implies leaves_open(#[trigger] (first + second)[i]) by {
        if i < first.len() {
            assert((first + second)[i] == first[i]);
        } else {
            assert((first + second)[i] == second[i - first.len()]);
        }
    }
}

/// The events of stretches never close a sub-path.
pub proof fn lemma_run_events_open(
    rs: Seq<DashRun>,
    drawing: bool,
    from: ClipContourPoint,
    to: ClipContourPoint,
    len: int,
    t: int,
)
    ensures
        ends_open(run_events(rs, drawing, from, to, len, t)),
    decreases rs.len(),
{
    if rs.len() > 0 {
        let run = rs[0];
        let cut = cut_events(
            run.draw,
            drawing,
            point_along(from, to, t, len),
            point_along(from, to, t + run.length, len),
            (drawing || run.draw) && run.complete,
        );
        lemma_run_events_open(rs.skip(1), pen_after_run(run, drawing), from, to, len, t + run.length);
        lemma_ends_open_concat(cut, run_events(rs.skip(1), pen_after_run(run, drawing), from, to, len, t + run.length));
    }
}

/// A dashed path never closes a sub-path.
pub proof fn lemma_dashed_events_open(pattern: Seq<u32>, offset: int, events: Seq<PathEvent>)
    ensures
        ends_open(dash_trace(pattern, offset, events).events),
        ends_open(dashed_events(pattern, offset, events)),
    decreases events.len(),
{
    if events.len() > 0 {
        let before = dash_trace(pattern, offset, events.drop_last());
        lemma_dashed_events_open(pattern, offset, events.drop_last());
        match events.last() {
            PathEvent::Begin { at } => {},
            PathEvent::Line { to } => {
                if let Some(from) = before.current {
                    let len = segment_length(from, to);
                    lemma_run_events_open(runs(pattern, before.phase, len), before.drawing, from, to, len, 0);
                    lemma_ends_open_concat(
                        before.events,
                        walk_segment(pattern, before.phase, before.drawing, from, to).events,
                    );
                }
            },
            PathEvent::End { close } => {
                if let (Some(from), Some(to)) = (before.current, before.first) {
                    let len = segment_length(from, to);
                    lemma_run_events_open(runs(pattern, before.phase, len), before.drawing, from, to, len, 0);
                    lemma_ends_open_concat(
                        before.events,
                        walk_segment(pattern, before.phase, before.drawing, from, to).events,
                    );
                }
            },
        }
    }
}

} // verus!
