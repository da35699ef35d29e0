//! The stroke tessellator: from the events of a path to the triangles of its
//! stroke.

use vstd::prelude::*;
use crate::encoding;
use crate::record;
use crate::events::PathEvent;
use crate::geometry_builder::{
    StrokeGeometryBuilder, TessellationError, TessellationResult, VertexSource,
};
use crate::record::SinkCall;
use crate::ids::EndpointId;
use crate::iter::IdEvents;
use crate::math::{Flatten, Point, Scalar};
use crate::options::{LineCap, StrokeOptions};
use crate::position::{AttributeStore, PositionStore};
use crate::stroke::StrokeBuilder;

verus! {

/// The calls of `log` between its first and its last.
pub open spec fn body<S>(log: Seq<SinkCall<S>>) -> Seq<SinkCall<S>> {
    log.subrange(1, log.len() - 1)
}

/// `log` is the record of one tessellation that returned `result`.
///
/// It begins with `begin_geometry`, the one call of it. Then come vertices
/// and triangles and nothing else. Where the sink took every vertex, the
/// last call is `end_geometry`, the one call of it, and the result is the
/// count that the sink returned. Where the sink refused a vertex, the last
/// call is `abort_geometry`, and the result is the first failure.
pub open spec fn tessellated<S>(log: Seq<SinkCall<S>>, result: TessellationResult) -> bool {
    &&& log.len() >= 2
    &&& log[0] is BeginGeometry
    &&& forall|i: int|
        1 <= i < log.len() - 1 ==> (#[trigger] log[i] is Vertex || log[i] is Triangle)
    &&& match result {
        Ok(count) => {
            &&& log.last() == (SinkCall::<S>::EndGeometry { count })
            &&& record::first_failure(body(log)) is None
        },
        Err(e) => {
            &&& log.last() is AbortGeometry
            &&& record::first_failure(body(log)) == Some(e)
        },
    }
}

/// `id` names one of the first `bound` endpoints, or no endpoint.
pub open spec fn endpoint_below(id: EndpointId, bound: int) -> bool {
    id.0 < bound || id.0 == u32::MAX
}

/// Every vertex handed over by the calls of `log` comes from one of the
/// first `bound` endpoints, from an edge between two of them, or from no
/// endpoint.
pub open spec fn sources_below<S>(log: Seq<SinkCall<S>>, bound: int) -> bool {
    forall|i: int|
        0 <= i < log.len() ==> (#[trigger] log[i] matches SinkCall::Vertex { attributes, .. }
            ==> match attributes.src {
            VertexSource::Endpoint { id } => endpoint_below(id, bound),
            VertexSource::Edge { from, to, .. } => endpoint_below(from, bound) && endpoint_below(
                to,
                bound,
            ),
        })
}

/// The stroke `states[i]` has no failure, and `states[i + 1]` is that
/// stroke after the event `events[i]` was taken in.
pub open spec fn step_at<S: Flatten>(
    states: Seq<StrokeBuilder<S>>,
    events: Seq<PathEvent<Point<S>, Point<S>>>,
    i: int,
) -> bool {
    states[i].error() is None && states[i].took_event(&states[i + 1], events[i])
}

/// How a tessellation ends that has gone through `states` and returns
/// `result`, with `last` the stroke whose record the sink has seen. `done`
/// says that every event was taken in.
///
/// Where every event was taken in without a failure, the last sub-path is
/// finished, and the result is the failure that this has brought, or `Ok`.
/// Where an event has brought a failure, the stroke stops behind that event
/// and the result is the failure.
pub open spec fn concluded<S: Scalar>(
    states: Seq<StrokeBuilder<S>>,
    last: StrokeBuilder<S>,
    done: bool,
    result: TessellationResult,
) -> bool {
    match result {
        Ok(_) => {
            &&& done
            &&& states.last().error() is None
            &&& states.last().finished_as(&last)
            &&& last.error() is None
        },
        Err(e) => {
            &&& last.error() == Some(e)
            &&& last == states.last() || {
                &&& done
                &&& states.last().error() is None
                &&& states.last().finished_as(&last)
            }
        },
    }
}

/// The record `calls` of vertices and triangles is that of a stroke which
/// was new with the given options, has taken in the events of `events` in
/// their order, one after the other, as long as none brought a failure, and
/// has ended as `concluded` says.
pub open spec fn path_stroked<S: Flatten>(
    states: Seq<StrokeBuilder<S>>,
    last: StrokeBuilder<S>,
    events: Seq<PathEvent<Point<S>, Point<S>>>,
    options: StrokeOptions<S>,
    calls: Seq<SinkCall<S>>,
    result: TessellationResult,
) -> bool {
    &&& 1 <= states.len() <= events.len() + 1
    &&& states[0].is_new(options)
    &&& forall|i: int| 0 <= i < states.len() - 1 ==> #[trigger] step_at(states, events, i)
    &&& calls == last.calls()
    &&& concluded(states, last, states.len() == events.len() + 1, result)
}

/// The offset of the event that a walk from `start` reads after `i` others.
pub open spec fn nth_offset(cells: Seq<u32>, start: int, i: nat) -> int
    decreases i,
{
    if i == 0 {
        start
    } else {
        let before = nth_offset(cells, start, (i - 1) as nat);
        before + encoding::span(cells[before])
    }
}

/// The stroke `states[i]` has no failure, and `states[i + 1]` is that
/// stroke after the event was taken in that a walk from `start` reads after
/// `i` others.
pub open spec fn id_step_at<S: Flatten, P: PositionStore<Number = S>>(
    states: Seq<StrokeBuilder<S>>,
    cells: Seq<u32>,
    start: int,
    positions: &P,
    i: int,
) -> bool {
    let at = nth_offset(cells, start, i as nat);
    &&& states[i].error() is None
    &&& encoding::is_event(cells, at)
    &&& states[i].took_id_event(&states[i + 1], encoding::event_at(cells, at), positions)
}

/// The record `calls` of vertices and triangles is that of a stroke which
/// was new with the given options, has taken in the events that a walk
/// over `cells` from `start` reads, in their order, one after the other, as
/// long as none brought a failure, and has ended as `concluded` says.
pub open spec fn ids_stroked<S: Flatten, P: PositionStore<Number = S>>(
    states: Seq<StrokeBuilder<S>>,
    last: StrokeBuilder<S>,
    cells: Seq<u32>,
    start: int,
    positions: &P,
    options: StrokeOptions<S>,
    calls: Seq<SinkCall<S>>,
    result: TessellationResult,
) -> bool {
    &&& 1 <= states.len()
    &&& states[0].is_new(options)
    &&& forall|i: int|
        0 <= i < states.len() - 1 ==> #[trigger] id_step_at(states, cells, start, positions, i)
    &&& calls == last.calls()
    &&& concluded(
        states,
        last,
        nth_offset(cells, start, (states.len() - 1) as nat) >= cells.len(),
        result,
    )
}

/// A line with these options is next to no width: its round caps are left
/// out.
pub open spec fn hairline<S: Scalar>(options: StrokeOptions<S>) -> bool {
    options.line_width.magnitude().is_less(S::ratio_of(1, 10000))
}

/// Every event of `events` begins a sub-path.
pub open spec fn only_points<S>(events: Seq<PathEvent<Point<S>, Point<S>>>) -> bool {
    forall|i: int| 0 <= i < events.len() ==> #[trigger] events[i] is Begin
}

/// Tessellates the strokes of paths.
pub struct StrokeTessellator<S> {
    log: Ghost<Seq<SinkCall<S>>>,
}

impl<S: Flatten> Default for StrokeTessellator<S> {
    fn default() -> (t: Self)
        ensures
            t.calls() == Seq::<SinkCall<S>>::empty(),
    {
        StrokeTessellator { log: Ghost(Seq::empty()) }
    }
}

impl<S: Flatten> StrokeTessellator<S> {
    /// The calls that the last tessellation made on its sink, in order.
    pub closed spec fn calls(&self) -> Seq<SinkCall<S>> {
        self.log@
    }

    pub fn new() -> (t: Self)
        ensures
            t.calls() == Seq::<SinkCall<S>>::empty(),
    {
        StrokeTessellator { log: Ghost(Seq::empty()) }
    }

    /// Computes the tessellation of the stroke of a path whose points are
    /// given by position, and hands it to `builder`.
    ///
    /// A path without events gives no vertex and no triangle. A path of
    /// sub-paths that have a single point each gives nothing with butt
    /// caps, with square caps four vertices and two triangles for each
    /// point, and with round caps, unless the line is next to no width,
    /// four vertices and two triangles for each point at least, if the
    /// sink takes them all.
    pub fn tessellate_path<B: StrokeGeometryBuilder<S>>(
        &mut self,
        input: &[PathEvent<Point<S>, Point<S>>],
        options: &StrokeOptions<S>,
        builder: &mut B,
    ) -> (r: TessellationResult)
        ensures
            final(builder).received() == old(builder).received() + final(self).calls(),
            tessellated(final(self).calls(), r),
            exists|states: Seq<StrokeBuilder<S>>, last: StrokeBuilder<S>|
                path_stroked(states, last, input@, *options, body(final(self).calls()), r),
            record::triangles_issued(body(final(self).calls())),
            sources_below(body(final(self).calls()), 0),
            input@.len() == 0 ==> r is Ok && final(self).calls().len() == 2,
            only_points(input@) && options.start_cap is Butt ==> r is Ok
                && final(self).calls().len() == 2,
            only_points(input@) && options.start_cap is Square && r is Ok ==> {
                &&& final(self).calls().len() == 2 + 6 * input@.len()
                &&& record::vertex_count(body(final(self).calls())) == 4
                    * input@.len()
                &&& record::triangle_count(body(final(self).calls())) == 2
                    * input@.len()
            },
            only_points(input@) && options.start_cap is Round && !hairline(*options) && r is Ok
                ==> {
                &&& record::vertex_count(body(final(self).calls())) >= 4 * input@.len()
                &&& record::triangle_count(body(final(self).calls())) >= 2 * input@.len()
            },
    {
        builder.begin_geometry();
        let mut stroker = StrokeBuilder::new(options, builder);
        let ghost mut states: Seq<StrokeBuilder<S>> = seq![stroker];
        proof {
            record::lemma_grown_none(Seq::<SinkCall<S>>::empty());
        }
        let mut i: usize = 0;
        while i < input.len()
            invariant
                i <= input@.len(),
                states.len() == i + 1,
                states[i as int] == stroker,
                stroker.in_step(*builder),
                stroker.base() == old(builder).received().push(SinkCall::BeginGeometry),
                states[0].is_new(*options),
                forall|j: int| 0 <= j < i ==> #[trigger] step_at(states, input@, j),
                stroker.wf(),
                stroker.error() is None,
                stroker.options() == *options,
                stroker.given() == Set::<EndpointId>::empty().insert(EndpointId(u32::MAX)),
                record::grown(Seq::<SinkCall<S>>::empty(), stroker.calls()),
                i == 0 ==> stroker.calls().len() == 0 && stroker.points_seen() == 0
                    && !stroker.after_move(),
                only_points(input@) ==> {
                    &&& stroker.points_seen() == 0
                    &&& stroker.after_move() == (i > 0)
                    &&& options.start_cap is Butt ==> stroker.calls().len() == 0
                    &&& options.start_cap is Square ==> {
                        &&& i > 0 ==> stroker.calls().len() == 6 * (i - 1)
                        &&& i == 0 ==> stroker.calls().len() == 0
                        &&& record::vertex_count(stroker.calls()) * 6 == 4
                            * stroker.calls().len()
                        &&& record::triangle_count(stroker.calls()) * 6 == 2
                            * stroker.calls().len()
                    }
                    &&& options.start_cap is Round && !hairline(*options) && i > 0 ==> {
                        &&& record::vertex_count(stroker.calls()) >= 4 * (i - 1)
                        &&& record::triangle_count(stroker.calls()) >= 2 * (i - 1)
                    }
                },
            decreases input@.len() - i,
        {
            let ghost before = stroker.calls();
            stroker.path_event(builder, input[i]);
            proof {
                let longer = states.push(stroker);
                assert forall|j: int| 0 <= j < i + 1 implies #[trigger] step_at(
                    longer,
                    input@,
                    j,
                ) by {
                    if j < i {
                        assert(step_at(states, input@, j));
                    }
                }
                states = longer;
                record::lemma_grown_on(Seq::<SinkCall<S>>::empty(), before, stroker.calls());
                if only_points(input@) {
                    assert(input@[i as int] is Begin);
                    record::lemma_single_point_counts(
                        before,
                        stroker.calls(),
                        i > 0,
                        options.start_cap,
                    );
                    if options.start_cap is Round && i > 0 {
                        let prev = states[i as int];
                        assert(step_at(states, input@, i as int));
                        prev.lemma_took_event(&stroker, input@[i as int]);
                        let at = input@[i as int]->Begin_at;
                        let none = EndpointId(u32::MAX);
                        prev.lemma_begun(&stroker, at, none);
                        let flushed = choose|flushed: StrokeBuilder<S>|
                            prev.begun_through(&stroker, flushed, at, none);
                        prev.lemma_round_point_counts(&flushed);
                    }
                }
            }
            match stroker.failure() {
                Some(error) => {
                    builder.abort_geometry();
                    self.log = Ghost(
                        seq![SinkCall::BeginGeometry] + stroker.calls()
                            + seq![SinkCall::AbortGeometry],
                    );
                    proof {
                        stroker.lemma_sources_given();
                        stroker.lemma_triangles_issued();
                        lemma_framed(stroker.calls(), SinkCall::AbortGeometry);
                        assert(path_stroked(
                            states,
                            stroker,
                            input@,
                            *options,
                            body(self.calls()),
                            Err(error),
                        ));
                    }
                    return Err(error);
                },
                None => {},
            }
            i += 1;
        }
        let ghost before = stroker.calls();
        let ghost had_points = stroker.after_move();
        let built = stroker.build(builder);
        proof {
            assert(states.last() == states[i as int]);
        }
        proof {
            record::lemma_grown_on(Seq::<SinkCall<S>>::empty(), before, stroker.calls());
            if only_points(input@) {
                record::lemma_single_point_counts(
                    before,
                    stroker.calls(),
                    had_points,
                    options.start_cap,
                );
                if options.start_cap is Round && i > 0 {
                    states[i as int].lemma_round_point_counts(&stroker);
                }
            }
        }
        match built {
            Err(error) => {
                builder.abort_geometry();
                self.log = Ghost(
                    seq![SinkCall::BeginGeometry] + stroker.calls() + seq![SinkCall::AbortGeometry],
                );
                proof {
                    stroker.lemma_sources_given();
                    stroker.lemma_triangles_issued();
                    lemma_framed(stroker.calls(), SinkCall::AbortGeometry);
                    assert(path_stroked(
                        states,
                        stroker,
                        input@,
                        *options,
                        body(self.calls()),
                        Err(error),
                    ));
                    assert(exists|states: Seq<StrokeBuilder<S>>, last: StrokeBuilder<S>|
                        path_stroked(states, last, input@, *options, body(self.calls()), Err(error)));
                }
                Err(error)
            },
            Ok(_) => {
                let count = builder.end_geometry();
                self.log = Ghost(
                    seq![SinkCall::BeginGeometry] + stroker.calls() + seq![
                        SinkCall::EndGeometry { count },
                    ],
                );
                proof {
                    stroker.lemma_sources_given();
                    stroker.lemma_triangles_issued();
                    lemma_framed(stroker.calls(), SinkCall::EndGeometry { count });
                    assert(path_stroked(
                        states,
                        stroker,
                        input@,
                        *options,
                        body(self.calls()),
                        Ok(count),
                    ));
                    assert(exists|states: Seq<StrokeBuilder<S>>, last: StrokeBuilder<S>|
                        path_stroked(states, last, input@, *options, body(self.calls()), Ok(count)));
                }
                Ok(count)
            },
        }
    }

    /// Computes the tessellation of the stroke of a path whose points are
    /// given by id, with their positions from `positions`, and hands it to
    /// `builder`. Each vertex says from which endpoint or edge it comes.
    ///
    /// Further attributes of the endpoints are not taken in.
    pub fn tessellate_path_with_ids<
        B: StrokeGeometryBuilder<S>,
        P: PositionStore<Number = S>,
        A: AttributeStore<S>,
    >(
        &mut self,
        path: &mut IdEvents<'_>,
        positions: &P,
        custom_attributes: Option<&A>,
        options: &StrokeOptions<S>,
        builder: &mut B,
    ) -> (r: TessellationResult)
        requires
            old(path).wf(),
            encoding::ids_below(
                old(path).cells(),
                positions.endpoint_count() as int,
                positions.ctrl_point_count() as int,
            ),
            custom_attributes is None,
        ensures
            final(builder).received() == old(builder).received() + final(self).calls(),
            tessellated(final(self).calls(), r),
            exists|states: Seq<StrokeBuilder<S>>, last: StrokeBuilder<S>|
                ids_stroked(
                    states,
                    last,
                    old(path).cells(),
                    old(path).position(),
                    positions,
                    *options,
                    body(final(self).calls()),
                    r,
                ),
            record::triangles_issued(body(final(self).calls())),
            sources_below(body(final(self).calls()), positions.endpoint_count() as int),
            final(path).wf(),
            final(path).cells() == old(path).cells(),
            r is Ok ==> final(path).position() == old(path).cells().len(),
            old(path).position() >= old(path).cells().len() ==> r is Ok
                && final(self).calls().len() == 2,
    {
        builder.begin_geometry();
        let mut stroker = StrokeBuilder::new(options, builder);
        let ghost mut states: Seq<StrokeBuilder<S>> = seq![stroker];
        proof {
            record::lemma_grown_none(Seq::<SinkCall<S>>::empty());
        }
        let ghost cells = path.cells();
        let ghost start = path.position();
        let mut done = false;
        let mut failed: Option<TessellationError> = None;
        proof {
            path.lemma_in_range();
        }
        while !done && failed.is_none()
            invariant
                states.len() >= 1,
                states.last() == stroker,
                stroker.in_step(*builder),
                stroker.base() == old(builder).received().push(SinkCall::BeginGeometry),
                states[0].is_new(*options),
                forall|j: int|
                    0 <= j < states.len() - 1 ==> #[trigger] id_step_at(
                        states,
                        cells,
                        start,
                        positions,
                        j,
                    ),
                path.position() == nth_offset(cells, start, (states.len() - 1) as nat),
                path.wf(),
                path.cells() == cells,
                path.position() >= start,
                path.position() <= cells.len(),
                done ==> path.position() == cells.len(),
                stroker.wf(),
                failed == stroker.error(),
                failed == record::first_failure(stroker.calls()),
                forall|id: EndpointId| #[trigger]
                    stroker.given().contains(id) ==> endpoint_below(
                        id,
                        positions.endpoint_count() as int,
                    ),
                record::grown(Seq::<SinkCall<S>>::empty(), stroker.calls()),
                start >= cells.len() ==> stroker.calls().len() == 0 && stroker.points_seen() == 0
                    && !stroker.after_move(),
                encoding::ids_below(
                    cells,
                    positions.endpoint_count() as int,
                    positions.ctrl_point_count() as int,
                ),
            decreases
                    cells.len() - path.position() + if done {
                        0int
                    } else {
                        1int
                    },
        {
            let ghost at = path.position();
            match path.next() {
                None => {
                    done = true;
                },
                Some(event) => {
                    let ghost before = stroker.calls();
                    proof {
                        encoding::lemma_event_ids(
                            cells,
                            at,
                            positions.endpoint_count() as int,
                            positions.ctrl_point_count() as int,
                        );
                    }
                    stroker.id_event(builder, event, positions);
                    proof {
                        let longer = states.push(stroker);
                        assert forall|j: int| 0 <= j < longer.len() - 1 implies #[trigger] id_step_at(
                            longer,
                            cells,
                            start,
                            positions,
                            j,
                        ) by {
                            if j < states.len() - 1 {
                                assert(id_step_at(states, cells, start, positions, j));
                            }
                        }
                        states = longer;
                        record::lemma_grown_on(
                            Seq::<SinkCall<S>>::empty(),
                            before,
                            stroker.calls(),
                        );
                    }
                    failed = stroker.failure();
                },
            }
        }
        match failed {
            Some(error) => {
                builder.abort_geometry();
                self.log = Ghost(
                    seq![SinkCall::BeginGeometry] + stroker.calls() + seq![SinkCall::AbortGeometry],
                );
                proof {
                    stroker.lemma_sources_given();
                    stroker.lemma_triangles_issued();
                    lemma_framed(stroker.calls(), SinkCall::AbortGeometry);
                    assert(ids_stroked(
                        states,
                        stroker,
                        cells,
                        start,
                        positions,
                        *options,
                        body(self.calls()),
                        Err(error),
                    ));
                }
                return Err(error);
            },
            None => {},
        }
        let ghost before = stroker.calls();
        let built = stroker.build(builder);
        proof {
            record::lemma_grown_on(Seq::<SinkCall<S>>::empty(), before, stroker.calls());
        }
        match built {
            Err(error) => {
                builder.abort_geometry();
                self.log = Ghost(
                    seq![SinkCall::BeginGeometry] + stroker.calls() + seq![SinkCall::AbortGeometry],
                );
                proof {
                    stroker.lemma_sources_given();
                    stroker.lemma_triangles_issued();
                    lemma_framed(stroker.calls(), SinkCall::AbortGeometry);
                    assert(ids_stroked(
                        states,
                        stroker,
                        cells,
                        start,
                        positions,
                        *options,
                        body(self.calls()),
                        Err(error),
                    ));
                }
                Err(error)
            },
            Ok(_) => {
                let count = builder.end_geometry();
                self.log = Ghost(
                    seq![SinkCall::BeginGeometry] + stroker.calls() + seq![
                        SinkCall::EndGeometry { count },
                    ],
                );
                proof {
                    stroker.lemma_sources_given();
                    stroker.lemma_triangles_issued();
                    lemma_framed(stroker.calls(), SinkCall::EndGeometry { count });
                    assert(ids_stroked(
                        states,
                        stroker,
                        cells,
                        start,
                        positions,
                        *options,
                        body(self.calls()),
                        Ok(count),
                    ));
                }
                Ok(count)
            },
        }
    }
}

/// Between `begin_geometry` and a last call, the calls of a stroke are the
/// body of the record.
proof fn lemma_framed<S>(calls: Seq<SinkCall<S>>, last: SinkCall<S>)
    requires
        record::grown(Seq::<SinkCall<S>>::empty(), calls),
    ensures
        ({
            let log = seq![SinkCall::<S>::BeginGeometry] + calls + seq![last];
            &&& log.len() == calls.len() + 2
            &&& log[0] is BeginGeometry
            &&& log.last() == last
            &&& body(log) == calls
            &&& forall|before: Seq<SinkCall<S>>|
                #![trigger (before.push(SinkCall::<S>::BeginGeometry) + calls).push(last)]
                (before.push(SinkCall::<S>::BeginGeometry) + calls).push(last) == before + log
            &&& forall|i: int|
                1 <= i < log.len() - 1 ==> (#[trigger] log[i] is Vertex || log[i] is Triangle)
        }),
{
    let log = seq![SinkCall::<S>::BeginGeometry] + calls + seq![last];
    assert(body(log) =~= calls);
    assert forall|before: Seq<SinkCall<S>>|
        #![trigger (before.push(SinkCall::<S>::BeginGeometry) + calls).push(last)]
        (before.push(SinkCall::<S>::BeginGeometry) + calls).push(last) == before + log by {
        assert((before.push(SinkCall::<S>::BeginGeometry) + calls).push(last) =~= before + log);
    }
    assert forall|i: int| 1 <= i < log.len() - 1 implies (#[trigger] log[i] is Vertex
        || log[i] is Triangle) by {
        assert(log[i] == calls[i - 1]);
    }
}

} // verus!
