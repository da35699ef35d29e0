//! Stroke tessellation: a strip of triangles along a path.
//!
//! The tessellator goes over the events of a path once. For each edge it
//! hands the sink the vertices of the join at the start of the edge and the
//! two triangles that connect the join before it to this one; at the ends of
//! an open sub-path it adds caps.
//!
//! What is sent to the sink is recorded, call by call. The contracts of this
//! module speak of that record: which vertices and triangles are handed over,
//! in what order, on which side of the path, from which endpoint, and with
//! which position and normal. What the arithmetic decides, and the numbers
//! that it gives, are spoken of by the names that `Scalar` has for them. The
//! later vertices of a round join and the fans of a round cap are turned by
//! sines and cosines, which have no name: of them the contracts give the
//! order, the sides, the endpoints and the advancement, and say that each
//! stands off its point of the path along the normal that it has.
//!
//! The relations between a stroke before and after a step are open. Those
//! that are marked opaque come with a proof function that takes them apart.

use vstd::prelude::*;
use crate::encoding;
use crate::math;
use crate::record;
use crate::events::{IdEvent, PathEvent};
use crate::geometry_builder::{
    GeometryBuilderError, Order, Side, StrokeAttributes, StrokeGeometryBuilder,
    TessellationError, VertexId, VertexSource,
};
use crate::record::{JoinGeometry, JoinShape, SinkCall};
use crate::ids::EndpointId;
use crate::math::{Flatten, LineSegment, Point, Scalar, Vector};
use crate::options::{LineCap, LineJoin, StrokeOptions};

verus! {

/// A stroke in the making: what the tessellator remembers between two
/// events of a path.
pub struct StrokeBuilder<S> {
    /// The first point of the current sub-path.
    pub first: Point<S>,
    /// The point before the current one.
    pub previous: Point<S>,
    /// The last point that was given.
    pub current: Point<S>,
    /// The second point of the current sub-path.
    pub second: Point<S>,
    /// The endpoints from which these four points come.
    pub first_endpoint: EndpointId,
    pub previous_endpoint: EndpointId,
    pub current_endpoint: EndpointId,
    /// Where on its edge the current point lies: 0 or 1 at an endpoint.
    pub current_t: S,
    pub second_endpoint: EndpointId,
    pub second_t: S,
    /// The vertices at which the edge to the current point starts.
    pub previous_left_id: VertexId,
    pub previous_right_id: VertexId,
    /// The vertices at which the first edge of the sub-path ends.
    pub second_left_id: VertexId,
    pub second_right_id: VertexId,
    /// The normal that the last join has left behind, seen from the left.
    pub prev_normal: Vector<S>,
    /// The front side of the last join.
    pub previous_front_side: Side,
    /// Number of points seen in the current sub-path behind its first:
    /// 0, 1, or 2 for two or more.
    pub nth: u32,
    /// The length of the path up to the last join.
    pub length: S,
    /// The length of the path where the current sub-path starts.
    pub sub_path_start_length: S,
    pub options: StrokeOptions<S>,
    /// The last event started a sub-path.
    pub previous_command_was_move: bool,
    /// The first failure that a call on the sink brought.
    pub error: Option<TessellationError>,
    /// The calls made on the sink so far, in order.
    pub log: Ghost<Seq<SinkCall<S>>>,
    /// What the sink had received when this stroke was made.
    pub base: Ghost<Seq<SinkCall<S>>>,
    /// The endpoints from which points were given.
    pub given: Ghost<Set<EndpointId>>,
}

impl<S: Scalar> StrokeBuilder<S> {
    /// The endpoints from which points were given to this stroke, and the
    /// id that stands for no endpoint.
    pub open spec fn given(&self) -> Set<EndpointId> {
        self.given@
    }

    /// What the sink had received when this stroke was made.
    pub open spec fn base(&self) -> Seq<SinkCall<S>> {
        self.base@
    }

    /// The sink `output` has received what it had received when this
    /// stroke was made, and then the calls of this stroke and no other.
    pub open spec fn in_step<B: StrokeGeometryBuilder<S>>(&self, output: B) -> bool {
        output.received() == self.base@ + self.log@
    }

    /// The calls made on the sink so far, in order.
    pub open spec fn calls(&self) -> Seq<SinkCall<S>> {
        self.log@
    }

    /// The failure that is remembered: the first that a call brought.
    pub open spec fn error(&self) -> Option<TessellationError> {
        self.error
    }

    /// Number of points seen in the current sub-path since its start: 0, 1,
    /// or 2 for two or more.
    pub open spec fn points_seen(&self) -> nat {
        self.nth as nat
    }

    /// The last event started a sub-path.
    pub open spec fn after_move(&self) -> bool {
        self.previous_command_was_move
    }

    /// The options with which the stroke goes on.
    pub open spec fn options(&self) -> StrokeOptions<S> {
        self.options
    }

    /// The last point that was given.
    pub open spec fn current(&self) -> Point<S> {
        self.current
    }

    /// The endpoint from which the last point comes.
    pub open spec fn current_endpoint(&self) -> EndpointId {
        self.current_endpoint
    }

    /// The endpoint at which the current sub-path starts.
    pub open spec fn first_endpoint(&self) -> EndpointId {
        self.first_endpoint
    }

    /// The endpoint from which the point before the last comes.
    pub open spec fn previous_endpoint(&self) -> EndpointId {
        self.previous_endpoint
    }

    /// The failure that is remembered is the first in the record, the
    /// count of points is 0, 1 or 2, and the endpoints that are remembered
    /// and those that the vertices in the record come from were given.
    pub open spec fn wf(&self) -> bool {
        &&& self.error == record::first_failure(self.log@)
        &&& self.nth <= 2
        &&& self.given@.contains(EndpointId(u32::MAX))
        &&& self.given@.contains(self.first_endpoint)
        &&& self.given@.contains(self.previous_endpoint)
        &&& self.given@.contains(self.current_endpoint)
        &&& self.given@.contains(self.second_endpoint)
        &&& record::sources_given(self.log@, self.given@)
        &&& record::triangles_issued(self.log@)
        &&& record::issued(self.log@).contains(self.previous_left_id)
        &&& record::issued(self.log@).contains(self.previous_right_id)
        &&& record::issued(self.log@).contains(self.second_left_id)
        &&& record::issued(self.log@).contains(self.second_right_id)
    }

    /// Every triangle in the record is made of ids that were issued before
    /// it: ids that the sink gave for vertices, or the id 0.
    pub proof fn lemma_triangles_issued(&self)
        requires
            self.wf(),
        ensures
            record::triangles_issued(self.calls()),
    {
    }

    /// Every vertex in the record comes from an endpoint that was given, or
    /// from an edge between two of them.
    pub proof fn lemma_sources_given(&self)
        requires
            self.wf(),
        ensures
            record::sources_given(self.calls(), self.given()),
    {
    }

    /// `later` is `self` but for the record of calls and the failure.
    pub open spec fn steady(&self, later: &Self) -> bool {
        *later == (StrokeBuilder { error: later.error, log: later.log, ..*self })
    }

    /// `later` is `self` but for the record of calls, the failure, the
    /// length and the last normal.
    spec fn same_course(&self, later: &Self) -> bool {
        *later == (StrokeBuilder {
            error: later.error,
            log: later.log,
            length: later.length,
            prev_normal: later.prev_normal,
            ..*self
        })
    }

    /// `self` is a new stroke with the given options: nothing was sent,
    /// no sub-path is open, and every point and number that is remembered
    /// is 0.
    pub open spec fn is_new(&self, options: StrokeOptions<S>) -> bool {
        let zero = S::ratio_of(0, 1);
        let origin = Point { x: zero, y: zero };
        *self == (StrokeBuilder {
            first: origin,
            second: origin,
            previous: origin,
            current: origin,
            prev_normal: Vector { x: zero, y: zero },
            previous_left_id: VertexId(0),
            previous_right_id: VertexId(0),
            second_left_id: VertexId(0),
            second_right_id: VertexId(0),
            current_endpoint: EndpointId(u32::MAX),
            first_endpoint: EndpointId(u32::MAX),
            previous_endpoint: EndpointId(u32::MAX),
            second_endpoint: EndpointId(u32::MAX),
            current_t: zero,
            second_t: zero,
            previous_front_side: Side::Left,
            nth: 0,
            length: zero,
            sub_path_start_length: zero,
            options,
            previous_command_was_move: false,
            error: None,
            log: Ghost(Seq::empty()),
            base: self.base,
            given: Ghost(Set::empty().insert(EndpointId(u32::MAX))),
        })
    }

    /// Of a new stroke: it has made no call and remembers no failure, no
    /// sub-path is open, the path has no length yet, and the only id that
    /// it has been given is the one that stands for no endpoint.
    pub proof fn lemma_new(&self, options: StrokeOptions<S>)
        requires
            self.is_new(options),
        ensures
            self.calls() == Seq::<SinkCall<S>>::empty(),
            self.error() is None,
            self.points_seen() == 0,
            !self.after_move(),
            self.options() == options,
            self.length == S::ratio_of(0, 1),
            self.given() == Set::<EndpointId>::empty().insert(EndpointId(u32::MAX)),
            self.wf(),
    {
    }

    /// A new stroke with the given options, for the sink `output`. Nothing
    /// was sent yet.
    pub fn new<B: StrokeGeometryBuilder<S>>(options: &StrokeOptions<S>, output: &B) -> (b: Self)
        ensures
            b.wf(),
            b.in_step(*output),
            b.base() == output.received(),
            b.is_new(*options),
            b.calls() == Seq::<SinkCall<S>>::empty(),
            b.error() is None,
            b.points_seen() == 0,
            !b.after_move(),
            b.options() == *options,
            b.given() == Set::<EndpointId>::empty().insert(EndpointId(u32::MAX)),
    {
        let zero = Point { x: S::ratio(0, 1), y: S::ratio(0, 1) };
        StrokeBuilder {
            first: zero,
            second: zero,
            previous: zero,
            current: zero,
            prev_normal: Vector { x: S::ratio(0, 1), y: S::ratio(0, 1) },
            previous_left_id: VertexId(0),
            previous_right_id: VertexId(0),
            second_left_id: VertexId(0),
            second_right_id: VertexId(0),
            current_endpoint: EndpointId::invalid(),
            first_endpoint: EndpointId::invalid(),
            previous_endpoint: EndpointId::invalid(),
            second_endpoint: EndpointId::invalid(),
            current_t: S::ratio(0, 1),
            second_t: S::ratio(0, 1),
            previous_front_side: Side::Left,
            nth: 0,
            length: S::ratio(0, 1),
            sub_path_start_length: S::ratio(0, 1),
            options: *options,
            previous_command_was_move: false,
            error: None,
            log: Ghost(Seq::empty()),
            base: Ghost(output.received()),
            given: Ghost(Set::empty().insert(EndpointId(u32::MAX))),
        }
    }

    /// Replaces the options. What was sent and what is remembered of the
    /// path stay as they are.
    pub fn set_options(&mut self, options: &StrokeOptions<S>)
        ensures
            final(self).options() == *options,
            final(self).wf() == old(self).wf(),
            final(self).calls() == old(self).calls(),
            final(self).error() == old(self).error(),
            final(self).points_seen() == old(self).points_seen(),
            final(self).after_move() == old(self).after_move(),
            final(self).current() == old(self).current(),
            final(self).current_endpoint() == old(self).current_endpoint(),
            final(self).first_endpoint() == old(self).first_endpoint(),
            final(self).previous_endpoint() == old(self).previous_endpoint(),
            final(self).given() == old(self).given(),
            final(self).base() == old(self).base(),
    {
        self.options = *options;
    }

    /// Remembers the failure `e` if none is remembered yet.
    fn builder_error(&mut self, e: GeometryBuilderError)
        ensures
            *final(self) == (StrokeBuilder {
                error: if old(self).error is Some {
                    old(self).error
                } else {
                    Some(TessellationError::of(e))
                },
                ..*old(self)
            }),
    {
        if self.error.is_none() {
            self.error = Some(TessellationError::from_builder_error(e));
        }
    }

    /// Hands a vertex to the sink, puts the call on record and remembers
    /// the failure if the sink refuses the vertex and none is remembered
    /// yet. No vertex reaches the sink in another way.
    fn send_vertex<B: StrokeGeometryBuilder<S>>(
        &mut self,
        output: &mut B,
        position: Point<S>,
        attributes: StrokeAttributes<S>,
    ) -> (reply: Result<VertexId, GeometryBuilderError>)
        requires
            old(self).in_step(*old(output)),
            old(self).wf(),
            record::names_given(attributes.src, old(self).given@),
        ensures
            final(self).in_step(*final(output)),
            final(self).base() == old(self).base(),
            final(self).wf(),
            old(self).steady(final(self)),
            final(self).log@ == old(self).log@.push(
                SinkCall::Vertex { position, attributes, reply },
            ),
            final(output).received() == old(output).received().push(
                SinkCall::Vertex { position, attributes, reply },
            ),
            record::grown_by(old(self).log@, final(self).log@, 1),
            reply is Ok ==> final(self).error == old(self).error,
            reply is Err ==> final(self).error is Some,
            record::issued_kept(old(self).log@, final(self).log@),
            record::issued(final(self).log@).contains(record::used_id(reply)),
    {
        let reply = output.add_stroke_vertex(position, attributes);
        let ghost call = SinkCall::Vertex { position, attributes, reply };
        proof {
            assert((self.base@ + self.log@).push(call) =~= self.base@ + self.log@.push(call));
            record::lemma_failure_after(self.log@, call);
            record::lemma_issued_after(self.log@, call);
            assert(self.log@.push(call).subrange(0, self.log@.len() as int) =~= self.log@);
        }
        self.log = Ghost(self.log@.push(call));
        match reply {
            Ok(_) => {},
            Err(e) => {
                self.builder_error(e);
            },
        }
        reply
    }

    /// Where a vertex goes that belongs to `position` on the path and has
    /// the given normal: to `position`, or, where the options say so, half
    /// the line width off it along the normal.
    pub open spec fn placed(&self, position: Point<S>, normal: Vector<S>) -> Point<S> {
        record::offset(position, normal, self.width())
    }

    /// The call at `i` of `log` hands over a vertex for the current point
    /// with the given normal: where `placed` puts it, at the length of the
    /// path so far.
    spec fn set_vertex(
        &self,
        log: Seq<SinkCall<S>>,
        i: int,
        normal: Vector<S>,
        side: Side,
        src: VertexSource<S>,
    ) -> bool {
        record::sent_exactly(
            log,
            i,
            self.placed(self.current, normal),
            (StrokeAttributes { normal, advancement: self.length, side, src }),
        )
    }

    /// The vertex of segment `j` of a round front whose first call is at
    /// `n` in `log` stands at the current point, off the path by its own
    /// normal, at the length of the path so far.
    spec fn fan_placed(&self, log: Seq<SinkCall<S>>, n: int, j: int) -> bool {
        record::stands_at(log, n + 2 * j + 1, self.current, self.width(), self.length)
    }

    /// The line width, where the options say that it is applied.
    pub open spec fn width(&self) -> Option<S> {
        if self.options.apply_line_width {
            Some(self.options.line_width)
        } else {
            None
        }
    }

    /// The numbers of a join at the current point between two edges with
    /// the given unit tangents, with the given normal.
    pub open spec fn geometry(
        &self,
        prev_tangent: Vector<S>,
        next_tangent: Vector<S>,
        normal: Vector<S>,
    ) -> JoinGeometry<S> {
        JoinGeometry {
            at: self.current,
            advancement: self.length,
            prev_tangent,
            next_tangent,
            normal,
            width: self.width(),
            line_width: self.options.line_width,
            miter_limit: self.options.miter_limit,
        }
    }

    /// The numbers of the join at the current point between an edge
    /// `previous_edge` that arrives and an edge `next_edge` that leaves.
    /// The length of the path up to the join is the length so far and the
    /// length of the edge that arrives.
    pub open spec fn join_geometry(
        &self,
        previous_edge: Vector<S>,
        next_edge: Vector<S>,
    ) -> JoinGeometry<S> {
        let prev_tangent = math::vec_normalized(previous_edge);
        let next_tangent = math::vec_normalized(next_edge);
        JoinGeometry {
            at: self.current,
            advancement: self.length.sum(math::vec_length(previous_edge)),
            prev_tangent,
            next_tangent,
            normal: math::join_normal(prev_tangent, next_tangent),
            width: self.width(),
            line_width: self.options.line_width,
            miter_limit: self.options.miter_limit,
        }
    }

    /// The vertex at the tip of a round cap around `center` in the
    /// direction `dir`: off the centre along the direction, at the length
    /// of the path so far, and counted as left.
    pub open spec fn tip(&self, center: Point<S>, dir: Vector<S>, src: VertexSource<S>) -> (
        Point<S>,
        StrokeAttributes<S>,
    ) {
        let normal = math::vec_normalized(dir);
        (
            self.placed(center, normal),
            StrokeAttributes { normal, advancement: self.length, side: Side::Left, src },
        )
    }

    /// The call at `i` of `log` hands over a vertex for a sub-path of a
    /// single point, the current one, with the normal `(x, y)`.
    pub open spec fn point_vertex(
        &self,
        log: Seq<SinkCall<S>>,
        i: int,
        x: i32,
        y: i32,
        side: Side,
    ) -> bool {
        let normal = Vector { x: S::ratio_of(x, 1), y: S::ratio_of(y, 1) };
        record::sent_exactly(
            log,
            i,
            self.placed(self.current, normal),
            (StrokeAttributes {
                normal,
                advancement: S::ratio_of(0, 1),
                side,
                src: VertexSource::Endpoint { id: self.current_endpoint },
            }),
        )
    }

    /// `log` is `before` with the two round caps of a single point behind
    /// it, between the vertices `left` and `right`: one as at the start of
    /// a sub-path that goes up, one as at the end of it.
    pub open spec fn dotted(
        &self,
        before: Seq<SinkCall<S>>,
        mid: Seq<SinkCall<S>>,
        log: Seq<SinkCall<S>>,
        left: VertexId,
        right: VertexId,
    ) -> bool {
        let src = VertexSource::Endpoint { id: self.current_endpoint };
        let down = Vector { x: S::ratio_of(0, 1), y: S::ratio_of(-1i32, 1) };
        let up = Vector { x: S::ratio_of(0, 1), y: S::ratio_of(1, 1) };
        &&& record::round_capped(
            before,
            mid,
            self.thin(),
            left,
            right,
            true,
            src,
            self.tip(self.current, down, src),
            self.current,
            self.reach(),
        )
        &&& record::round_capped(
            mid,
            log,
            self.thin(),
            left,
            right,
            false,
            src,
            self.tip(self.current, up, src),
            self.current,
            self.reach(),
        )
    }

    /// The calls of `log` from `n` on are two vertices and the two round
    /// caps of a single point between them, with `mid` the record between
    /// the two caps.
    pub open spec fn dotted_at(&self, log: Seq<SinkCall<S>>, n: int, mid: Seq<SinkCall<S>>) -> bool {
        self.dotted(
            log.subrange(0, n + 2),
            mid,
            log,
            record::id_at(log, n),
            record::id_at(log, n + 1),
        )
    }

    /// `later` is `self` after the cap of its sub-path was sent, which
    /// has a single point: for a square cap the four corners of a square
    /// around the point, for a round cap a vertex on either side of the
    /// point and two round caps between them.
    pub open spec fn point_capped(&self, later: &Self) -> bool {
        let n = self.log@.len() as int;
        let log = later.log@;
        match self.options.start_cap {
            LineCap::Butt => true,
            LineCap::Square => {
                &&& self.point_vertex(log, n, 1, 1, Side::Right)
                &&& self.point_vertex(log, n + 1, 1, -1i32, Side::Left)
                &&& self.point_vertex(log, n + 2, -1i32, -1i32, Side::Left)
                &&& self.point_vertex(log, n + 3, -1i32, 1, Side::Right)
            },
            LineCap::Round => {
                &&& self.point_vertex(log, n, -1i32, 0, Side::Left)
                &&& self.point_vertex(log, n + 1, 1, 0, Side::Right)
                &&& exists|mid: Seq<SinkCall<S>>| self.dotted_at(log, n, mid)
            },
        }
    }

    /// How far the vertices of the fans of a round cap stand off its
    /// centre, in lengths of their normals: half the line width where the
    /// options say that it is applied, else nothing.
    pub open spec fn reach(&self) -> S {
        if self.options.apply_line_width {
            self.options.line_width.product(S::ratio_of(1, 2))
        } else {
            S::ratio_of(0, 1)
        }
    }

    /// The line is next to no width: a round cap of it is left out.
    pub open spec fn thin(&self) -> bool {
        self.options.line_width.magnitude().is_less(S::ratio_of(1, 10000))
    }

    /// Hands a vertex to the sink, moved off the path by half the line
    /// width along its normal where the options say so. Where the sink
    /// refuses it, the id 0 stands for the vertex.
    fn add_vertex<B: StrokeGeometryBuilder<S>>(
        &mut self,
        output: &mut B,
        position: Point<S>,
        attributes: StrokeAttributes<S>,
    ) -> (id: VertexId)
        requires
            old(self).in_step(*old(output)),
            old(self).wf(),
            record::names_given(attributes.src, old(self).given@),
        ensures
            final(self).in_step(*final(output)),
            final(self).base() == old(self).base(),
            final(self).wf(),
            old(self).steady(final(self)),
            record::grown_by(old(self).log@, final(self).log@, 1),
            record::issued_kept(old(self).log@, final(self).log@),
            final(self).log@.last() matches SinkCall::Vertex { position: p, attributes: a, reply }
                && a == attributes && id == record::used_id(reply) && (
            !old(self).options.apply_line_width ==> p == position),
            record::sent_exactly(
                final(self).log@,
                old(self).log@.len() as int,
                old(self).placed(position, attributes.normal),
                attributes,
            ),
            id == record::id_at(final(self).log@, old(self).log@.len() as int),
            record::issued(final(self).log@).contains(id),
    {
        let mut position = position;
        if self.options.apply_line_width {
            position = position.moved(
                attributes.normal.scaled(self.options.line_width).divided(S::ratio(2, 1)),
            );
        }
        match self.send_vertex(output, position, attributes) {
            Ok(v) => v,
            Err(_) => VertexId(0),
        }
    }

    /// Hands a triangle to the sink and puts the call on record. No
    /// triangle reaches the sink in another way.
    fn add_triangle<B: StrokeGeometryBuilder<S>>(
        &mut self,
        output: &mut B,
        a: VertexId,
        b: VertexId,
        c: VertexId,
    )
        requires
            old(self).in_step(*old(output)),
            old(self).wf(),
            record::issued(old(self).log@).contains(a),
            record::issued(old(self).log@).contains(b),
            record::issued(old(self).log@).contains(c),
        ensures
            final(self).in_step(*final(output)),
            final(self).base() == old(self).base(),
            final(self).wf(),
            old(self).steady(final(self)),
            final(self).error == old(self).error,
            record::grown_by(old(self).log@, final(self).log@, 1),
            final(self).log@ == old(self).log@.push(SinkCall::Triangle { a, b, c }),
            final(output).received() == old(output).received().push(SinkCall::Triangle { a, b, c }),
            record::issued_kept(old(self).log@, final(self).log@),
    {
        output.add_triangle(a, b, c);
        let ghost call = SinkCall::<S>::Triangle { a, b, c };
        proof {
            assert((self.base@ + self.log@).push(call) =~= self.base@ + self.log@.push(call));
            record::lemma_failure_after(self.log@, call);
            record::lemma_issued_after(self.log@, call);
            assert(self.log@.push(call).subrange(0, self.log@.len() as int) =~= self.log@);
        }
        self.log = Ghost(self.log@.push(call));
    }

    /// A square around the current point, which stands for a sub-path that
    /// has a single point: four vertices at the corners, right, left, left
    /// and right of the path, and the two triangles that fill the square.
    fn tessellate_empty_square_cap<B: StrokeGeometryBuilder<S>>(
        &mut self,
        output: &mut B,
        src: VertexSource<S>,
    )
        requires
            old(self).in_step(*old(output)),
            old(self).wf(),
            record::names_given(src, old(self).given@),
        ensures
            final(self).in_step(*final(output)),
            final(self).base() == old(self).base(),
            final(self).wf(),
            old(self).steady(final(self)),
            record::grown_by(old(self).log@, final(self).log@, 6),
            record::issued_kept(old(self).log@, final(self).log@),
            record::all_from(final(self).log@, old(self).log@.len() as int, src),
            ({
                let n = old(self).log@.len() as int;
                let log = final(self).log@;
                &&& record::sent_vertex(log, n, Side::Right, src)
                &&& record::sent_vertex(log, n + 1, Side::Left, src)
                &&& record::sent_vertex(log, n + 2, Side::Left, src)
                &&& record::sent_vertex(log, n + 3, Side::Right, src)
                &&& record::sent_triangle(
                    log,
                    n + 4,
                    record::id_at(log, n),
                    record::id_at(log, n + 1),
                    record::id_at(log, n + 2),
                )
                &&& record::sent_triangle(
                    log,
                    n + 5,
                    record::id_at(log, n),
                    record::id_at(log, n + 2),
                    record::id_at(log, n + 3),
                )
            }),
            src == old(self).endpoint_source() && old(self).options.start_cap is Square
                ==> old(self).point_capped(final(self)),
    {
        let one = S::ratio(1, 1);
        let minus_one = S::ratio(-1, 1);
        let zero = S::ratio(0, 1);
        let position = self.current;
        let a = self.add_vertex(
            output,
            position,
            StrokeAttributes {
                normal: Vector { x: one, y: one },
                advancement: zero,
                side: Side::Right,
                src,
            },
        );
        let b = self.add_vertex(
            output,
            position,
            StrokeAttributes {
                normal: Vector { x: one, y: minus_one },
                advancement: zero,
                side: Side::Left,
                src,
            },
        );
        let c = self.add_vertex(
            output,
            position,
            StrokeAttributes {
                normal: Vector { x: minus_one, y: minus_one },
                advancement: zero,
                side: Side::Left,
                src,
            },
        );
        let d = self.add_vertex(
            output,
            position,
            StrokeAttributes {
                normal: Vector { x: minus_one, y: one },
                advancement: zero,
                side: Side::Right,
                src,
            },
        );
        self.add_triangle(output, a, b, c);
        self.add_triangle(output, a, c, d);
        proof {
            assert(final(self).log@.subrange(0, old(self).log@.len() as int) =~= old(self).log@);
        }
    }


    /// Half of a round cap, by bisection: one vertex in the middle of the
    /// arc between the vertices `va` and `vb`, the triangle of the three,
    /// and then the same for each half of the arc, `num_recursions` levels
    /// deep. It stops at the first vertex that the sink refuses.
    fn tess_round_cap<B: StrokeGeometryBuilder<S>>(
        &mut self,
        output: &mut B,
        center: Point<S>,
        angle: (S, S),
        radius: S,
        va: VertexId,
        vb: VertexId,
        num_recursions: u32,
        advancement: S,
        side: Side,
        line_width: S,
        invert_winding: bool,
        src: VertexSource<S>,
    ) -> (r: Result<(), GeometryBuilderError>)
        requires
            old(self).in_step(*old(output)),
            old(self).wf(),
            record::names_given(src, old(self).given@),
            record::issued(old(self).log@).contains(va),
            record::issued(old(self).log@).contains(vb),
        ensures
            final(self).in_step(*final(output)),
            final(self).base() == old(self).base(),
            final(self).wf(),
            old(self).steady(final(self)),
            record::grown(old(self).log@, final(self).log@),
            record::issued_kept(old(self).log@, final(self).log@),
            record::all_from(final(self).log@, old(self).log@.len() as int, src),
            record::all_on(final(self).log@, old(self).log@.len() as int, side),
            record::all_fanned(
                final(self).log@,
                old(self).log@.len() as int,
                center,
                line_width,
                advancement,
            ),
            r is Ok ==> {
                &&& final(self).error == old(self).error
                &&& final(self).log@.len() == old(self).log@.len() + 2 * (
                vstd::arithmetic::power2::pow2(num_recursions as nat) - 1)
                &&& record::vertex_count(final(self).log@) == record::vertex_count(old(self).log@)
                    + vstd::arithmetic::power2::pow2(num_recursions as nat) - 1
                &&& record::triangle_count(final(self).log@) == record::triangle_count(
                    old(self).log@,
                ) + vstd::arithmetic::power2::pow2(num_recursions as nat) - 1
            },
            r is Err ==> final(self).error is Some,
            r matches Err(e) ==> final(self).log@.len() > old(self).log@.len() && (
            final(self).log@.last() matches SinkCall::Vertex { reply: Err(refused), .. }
                && refused == e),
        decreases num_recursions,
    {
        proof {
            vstd::arithmetic::power2::lemma2_to64();
            assert(old(self).log@.subrange(0, old(self).log@.len() as int) =~= old(self).log@);
        }
        if num_recursions == 0 {
            return Ok(());
        }
        proof {
            vstd::arithmetic::power2::lemma_pow2_unfold(num_recursions as nat);
        }
        let mid_angle = angle.0.plus(angle.1).times(S::ratio(1, 2));
        let normal = Vector { x: mid_angle.cos(), y: mid_angle.sin() };
        let position = center.moved(normal.scaled(line_width));
        let attributes = StrokeAttributes { normal, advancement, side, src };
        let sent = self.send_vertex(output, position, attributes);
        proof {
            record::lemma_counts_after(
                old(self).log@,
                SinkCall::Vertex { position, attributes, reply: sent },
            );
        }
        let vertex = match sent {
            Ok(v) => v,
            Err(e) => {
                return Err(e);
            },
        };
        let ghost log0 = self.log@;
        if invert_winding {
            self.add_triangle(output, vertex, vb, va);
            proof {
                record::lemma_counts_after(log0, SinkCall::Triangle { a: vertex, b: vb, c: va });
            }
        } else {
            self.add_triangle(output, vertex, va, vb);
            proof {
                record::lemma_counts_after(log0, SinkCall::Triangle { a: vertex, b: va, c: vb });
            }
        }
        let ghost log1 = self.log@;
        proof {
            record::lemma_grown_on(old(self).log@, log0, log1);
        }
        let first = self.tess_round_cap(
            output,
            center,
            (angle.0, mid_angle),
            radius,
            va,
            vertex,
            num_recursions - 1,
            advancement,
            side,
            line_width,
            invert_winding,
            src,
        );
        proof {
            record::lemma_grown_on(old(self).log@, log1, self.log@);
        }
        match first {
            Ok(_) => {},
            Err(e) => {
                return Err(e);
            },
        }
        let ghost log2 = self.log@;
        let second = self.tess_round_cap(
            output,
            center,
            (mid_angle, angle.1),
            radius,
            vertex,
            vb,
            num_recursions - 1,
            advancement,
            side,
            line_width,
            invert_winding,
            src,
        );
        proof {
            record::lemma_grown_on(old(self).log@, log2, self.log@);
        }
        second
    }

    /// A round cap around `center`, in the direction `dir`, between the
    /// vertices `left` and `right`: a vertex at the tip, the triangle of
    /// the three, and a fan on each side of the tip. Nothing is sent for a
    /// line that is next to no width.
    fn tessellate_round_cap<B: StrokeGeometryBuilder<S>>(
        &mut self,
        output: &mut B,
        center: Point<S>,
        dir: Vector<S>,
        left: VertexId,
        right: VertexId,
        is_start: bool,
        src: VertexSource<S>,
    )
        requires
            old(self).in_step(*old(output)),
            old(self).wf(),
            record::names_given(src, old(self).given@),
            record::issued(old(self).log@).contains(left),
            record::issued(old(self).log@).contains(right),
        ensures
            final(self).in_step(*final(output)),
            final(self).base() == old(self).base(),
            final(self).wf(),
            old(self).steady(final(self)),
            record::grown(old(self).log@, final(self).log@),
            record::issued_kept(old(self).log@, final(self).log@),
            record::all_from(final(self).log@, old(self).log@.len() as int, src),
            old(self).thin() ==> final(self).log@ == old(self).log@,
            !old(self).thin() ==> record::tipped(
                final(self).log@,
                old(self).log@.len() as int,
                left,
                right,
                is_start,
                src,
                old(self).tip(center, dir, src),
            ),
            record::all_fanned(
                final(self).log@,
                old(self).log@.len() as int + 2,
                center,
                old(self).reach(),
                old(self).length,
            ),
    {
        proof {
            assert(old(self).log@.subrange(0, old(self).log@.len() as int) =~= old(self).log@);
        }
        let radius = self.options.line_width.abs();
        if radius.less(S::ratio(1, 10000)) {
            return ;
        }
        let half = S::ratio(1, 2);
        let arc_len = half.times(S::pi()).times(radius);
        let step = math::circle_flattening_step(radius, self.options.tolerance);
        let num_segments = arc_len.over(step).ceil();
        let levels = num_segments.log2().to_u32();
        let num_recursions = if levels > u32::MAX / 2 {
            u32::MAX
        } else {
            levels * 2
        };

        let dir = dir.normalized();
        let advancement = self.length;

        let quarter_angle = if is_start {
            S::pi().negated().times(half)
        } else {
            S::pi().times(half)
        };
        let mid_angle = math::directed_angle(
            Vector { x: S::ratio(1, 1), y: S::ratio(0, 1) },
            dir,
        );
        let left_angle = mid_angle.plus(quarter_angle);
        let right_angle = mid_angle.minus(quarter_angle);

        let mid_vertex = self.add_vertex(
            output,
            center,
            StrokeAttributes { normal: dir, advancement, side: Side::Left, src },
        );

        let ghost log0 = self.log@;
        if is_start {
            self.add_triangle(output, left, right, mid_vertex);
        } else {
            self.add_triangle(output, left, mid_vertex, right);
        }
        proof {
            record::lemma_grown_on(old(self).log@, log0, self.log@);
        }

        let apply_width = if self.options.apply_line_width {
            self.options.line_width.times(half)
        } else {
            S::ratio(0, 1)
        };

        let ghost log1 = self.log@;
        let _ = self.tess_round_cap(
            output,
            center,
            (left_angle, mid_angle),
            radius,
            left,
            mid_vertex,
            num_recursions,
            advancement,
            Side::Left,
            apply_width,
            !is_start,
            src,
        );
        proof {
            record::lemma_grown_on(old(self).log@, log1, self.log@);
        }
        let ghost log2 = self.log@;
        let _ = self.tess_round_cap(
            output,
            center,
            (mid_angle, right_angle),
            radius,
            mid_vertex,
            right,
            num_recursions,
            advancement,
            Side::Right,
            apply_width,
            !is_start,
            src,
        );
        proof {
            record::lemma_grown_on(old(self).log@, log2, self.log@);
        }
    }

    /// A disc around the current point, which stands for a sub-path that
    /// has a single point: a vertex to the left and one to the right, and a
    /// round cap on each side of the two.
    fn tessellate_empty_round_cap<B: StrokeGeometryBuilder<S>>(
        &mut self,
        output: &mut B,
        src: VertexSource<S>,
    )
        requires
            old(self).in_step(*old(output)),
            old(self).wf(),
            record::names_given(src, old(self).given@),
        ensures
            final(self).in_step(*final(output)),
            final(self).base() == old(self).base(),
            final(self).wf(),
            old(self).steady(final(self)),
            record::grown(old(self).log@, final(self).log@),
            record::issued_kept(old(self).log@, final(self).log@),
            record::all_from(final(self).log@, old(self).log@.len() as int, src),
            ({
                let n = old(self).log@.len() as int;
                let log = final(self).log@;
                &&& record::sent_vertex(log, n, Side::Left, src)
                &&& record::sent_vertex(log, n + 1, Side::Right, src)
            }),
            src == old(self).endpoint_source() && old(self).options.start_cap is Round
                ==> old(self).point_capped(final(self)),
    {
        let zero = S::ratio(0, 1);
        let one = S::ratio(1, 1);
        let minus_one = S::ratio(-1, 1);
        let center = self.current;
        let left_id = self.add_vertex(
            output,
            center,
            StrokeAttributes {
                normal: Vector { x: minus_one, y: zero },
                advancement: zero,
                side: Side::Left,
                src,
            },
        );
        let right_id = self.add_vertex(
            output,
            center,
            StrokeAttributes {
                normal: Vector { x: one, y: zero },
                advancement: zero,
                side: Side::Right,
                src,
            },
        );
        let ghost log1 = self.log@;
        proof {
            assert(log1.subrange(0, old(self).log@.len() as int) =~= old(self).log@);
        }
        self.tessellate_round_cap(
            output,
            center,
            Vector { x: zero, y: minus_one },
            left_id,
            right_id,
            true,
            src,
        );
        proof {
            record::lemma_grown_on(old(self).log@, log1, self.log@);
        }
        let ghost log2 = self.log@;
        self.tessellate_round_cap(
            output,
            center,
            Vector { x: zero, y: one },
            left_id,
            right_id,
            false,
            src,
        );
        proof {
            record::lemma_grown_on(old(self).log@, log2, self.log@);
            record::lemma_grown_on(log1, log2, self.log@);
            let n = old(self).log@.len() as int;
            assert(self.log@.subrange(0, n + 2) =~= log1);
            if src == old(self).endpoint_source() {
                assert(old(self).dotted(log1, log2, self.log@, left_id, right_id));
                assert(old(self).dotted_at(self.log@, n, log2));
            }
        }
    }

    /// Whether the back of a join is split, and for which edge: how far the
    /// stroke of each edge reaches beyond the other edge is measured along
    /// the front normal, and the back is split where the greater of the two
    /// is more than nothing. `Before` says that the measure taken against
    /// the length of the edge that arrives is the greater, `After` that it
    /// is not.
    pub open spec fn overshoot_order(
        &self,
        prev_tangent: Vector<S>,
        next_tangent: Vector<S>,
        prev_length: S,
        next_length: S,
        front_normal: Vector<S>,
    ) -> Option<Order> {
        let half_width = self.options.line_width.opposite().quotient(S::ratio_of(2, 1));
        let d_next = half_width.product(math::vec_dot(front_normal, next_tangent)).difference(
            next_length,
        );
        let d_prev = half_width.product(
            math::vec_dot(front_normal, math::vec_negated(prev_tangent)),
        ).difference(prev_length);
        let before = d_next.is_less(d_prev);
        let d = if before {
            d_prev
        } else {
            d_next
        };
        if S::ratio_of(0, 1).is_less(d) {
            if before {
                Some(Order::Before)
            } else {
                Some(Order::After)
            }
        } else {
            None
        }
    }

    /// The square of the length of `normal` is more than the square of the
    /// miter limit.
    pub open spec fn exceeds_miter_limit(&self, normal: Vector<S>) -> bool {
        self.options.miter_limit.product(self.options.miter_limit).is_less(
            math::vec_square_length(normal),
        )
    }

    /// The shape that the front of a join takes where `requested` is asked
    /// for: a miter where the two tangents are nearly in line, by a
    /// product of 95/100 or more; else a bevel in place of a miter that
    /// exceeds the miter limit, a miter in place of a clipped miter that
    /// does not, and what was asked for in every other case.
    pub open spec fn join_kind(
        &self,
        prev_tangent: Vector<S>,
        next_tangent: Vector<S>,
        normal: Vector<S>,
        requested: LineJoin,
    ) -> LineJoin {
        if S::ratio_of(95, 100).is_less_eq(math::vec_dot(prev_tangent, next_tangent)) {
            LineJoin::Miter
        } else {
            match requested {
                LineJoin::Miter => if self.exceeds_miter_limit(normal) {
                    LineJoin::Bevel
                } else {
                    LineJoin::Miter
                },
                LineJoin::MiterClip => if self.exceeds_miter_limit(normal) {
                    LineJoin::MiterClip
                } else {
                    LineJoin::Miter
                },
                other => other,
            }
        }
    }

    /// What the arithmetic decides of the join at the current point,
    /// between an edge `previous_edge` that arrives and an edge
    /// `next_edge` that leaves, where `requested` is asked for and a round
    /// front has `segments` segments.
    ///
    /// The front is the left where the cross product of the tangent that
    /// leaves and the tangent that arrives is 0 or more, else the right.
    /// The point lies within an edge unless its parameter is 0 or 1.
    pub open spec fn join_shape(
        &self,
        previous_edge: Vector<S>,
        next_edge: Vector<S>,
        requested: LineJoin,
        segments: nat,
    ) -> JoinShape {
        let prev_tangent = math::vec_normalized(previous_edge);
        let next_tangent = math::vec_normalized(next_edge);
        let normal = math::join_normal(prev_tangent, next_tangent);
        let left = S::ratio_of(0, 1).is_less_eq(math::vec_cross(next_tangent, prev_tangent));
        let front_normal = if left {
            normal
        } else {
            math::vec_negated(normal)
        };
        JoinShape {
            front_side: if left {
                Side::Left
            } else {
                Side::Right
            },
            order: self.overshoot_order(
                prev_tangent,
                next_tangent,
                math::vec_length(previous_edge),
                math::vec_length(next_edge),
                front_normal,
            ),
            join: self.join_kind(prev_tangent, next_tangent, normal, requested),
            segments,
            within_edge: !(self.current_t.is_same(S::ratio_of(0, 1)) || self.current_t.is_same(
                S::ratio_of(1, 1),
            )),
        }
    }

    /// Number of segments of a round front between two edges with the
    /// given unit tangents: the angle of the join, divided by the greatest
    /// angle that a segment of half the line width may span within the
    /// tolerance, and rounded up.
    pub open spec fn round_segments(&self, prev_tangent: Vector<S>, next_tangent: Vector<S>) -> nat {
        math::join_angle(prev_tangent, next_tangent).magnitude().quotient(
            math::max_segment_angle(
                self.options.line_width.quotient(S::ratio_of(2, 1)),
                self.options.tolerance,
            ),
        ).ceiling().whole() as nat
    }

    /// Number of segments of the front of the join at the current point
    /// when `to` is given as the next point: that of a round front, and 0
    /// for every other.
    pub open spec fn segments_for(&self, to: Point<S>, with_join: bool) -> nat {
        if self.shape_for(to, with_join, 0).join is Round {
            self.round_segments(
                math::vec_normalized(math::point_minus(self.current, self.previous)),
                math::vec_normalized(math::point_minus(to, self.current)),
            )
        } else {
            0
        }
    }

    /// What the arithmetic decides of the join at the current point when
    /// `to` is given as the next point, with the join of the options if
    /// `with_join`, else with a miter.
    pub open spec fn shape_for(&self, to: Point<S>, with_join: bool, segments: nat) -> JoinShape {
        self.join_shape(
            math::point_minus(self.current, self.previous),
            math::point_minus(to, self.current),
            if with_join {
                self.options.line_join
            } else {
                LineJoin::Miter
            },
            segments,
        )
    }

    /// The vertices on the back of a join, the side towards which the path
    /// turns. One vertex serves both edges, unless the stroke of one edge
    /// would reach beyond the other edge: then each edge has its own, off
    /// the path by the normal of that edge, and the result says which of
    /// the two edges is the short one.
    ///
    /// Returns the vertex for the edge that arrives, the vertex for the
    /// edge that leaves, and the order if there are two.
    fn tessellate_back_join<B: StrokeGeometryBuilder<S>>(
        &mut self,
        output: &mut B,
        prev_tangent: Vector<S>,
        next_tangent: Vector<S>,
        prev_length: S,
        next_length: S,
        front_side: Side,
        front_normal: Vector<S>,
        src: VertexSource<S>,
    ) -> (r: (VertexId, VertexId, Option<Order>))
        requires
            old(self).in_step(*old(output)),
            old(self).wf(),
            record::names_given(src, old(self).given@),
        ensures
            final(self).in_step(*final(output)),
            final(self).base() == old(self).base(),
            final(self).wf(),
            old(self).steady(final(self)),
            record::issued_kept(old(self).log@, final(self).log@),
            record::issued(final(self).log@).contains(r.0),
            record::issued(final(self).log@).contains(r.1),
            record::all_from(final(self).log@, old(self).log@.len() as int, src),
            record::all_on(final(self).log@, old(self).log@.len() as int, front_side.flipped()),
            r.2 == old(self).overshoot_order(
                prev_tangent,
                next_tangent,
                prev_length,
                next_length,
                front_normal,
            ),
            forall|normal: Vector<S>|
                front_normal == record::front_normal(
                    old(self).geometry(prev_tangent, next_tangent, normal),
                    front_side,
                ) ==> #[trigger] record::back_set(
                    final(self).log@,
                    old(self).log@.len() as int,
                    front_side,
                    r.2,
                    old(self).geometry(prev_tangent, next_tangent, normal),
                    src,
                ),
            ({
                let n = old(self).log@.len() as int;
                let log = final(self).log@;
                match r.2 {
                    None => {
                        &&& record::grown_by(old(self).log@, log, 1)
                        &&& record::sent_vertex(log, n, front_side.flipped(), src)
                        &&& r.0 == record::id_at(log, n)
                        &&& r.1 == record::id_at(log, n)
                    },
                    Some(order) => {
                        &&& record::grown_by(old(self).log@, log, 2)
                        &&& record::sent_vertex(log, n, front_side.flipped(), src)
                        &&& record::sent_vertex(log, n + 1, front_side.flipped(), src)
                        &&& r.0 == if order is Before {
                            record::id_at(log, n)
                        } else {
                            record::id_at(log, n + 1)
                        }
                        &&& r.1 == if order is Before {
                            record::id_at(log, n + 1)
                        } else {
                            record::id_at(log, n)
                        }
                    },
                }
            }),
    {
        let zero = S::ratio(0, 1);
        let half_width = self.options.line_width.negated().over(S::ratio(2, 1));
        let d_next = half_width.times(front_normal.dot(next_tangent)).minus(next_length);
        let d_prev = half_width.times(front_normal.dot(prev_tangent.negated())).minus(prev_length);

        let (d, t2, order) = if d_next.less(d_prev) {
            (d_prev, next_tangent, Order::Before)
        } else {
            (d_next, prev_tangent.negated(), Order::After)
        };

        let position = self.current;
        let advancement = self.length;
        let side = front_side.opposite();

        if zero.less(d) {
            let turned = match front_side {
                Side::Right => Vector { x: t2.y, y: t2.x.negated() },
                Side::Left => Vector { x: t2.y.negated(), y: t2.x },
            };
            let n2 = turned.scaled(
                if order.is_after() {
                    S::ratio(-1, 1)
                } else {
                    S::ratio(1, 1)
                },
            );
            let back_end_vertex_normal = n2.negated();
            let own = match order {
                Order::Before => prev_tangent,
                Order::After => next_tangent,
            };
            let own_front = match front_side {
                Side::Right => Vector { x: own.y, y: own.x.negated() },
                Side::Left => Vector { x: own.y.negated(), y: own.x },
            };
            let back_start_vertex_normal = own_front.negated();
            let back_start_vertex = self.add_vertex(
                output,
                position,
                StrokeAttributes { normal: back_start_vertex_normal, advancement, side, src },
            );
            let back_end_vertex = self.add_vertex(
                output,
                position,
                StrokeAttributes { normal: back_end_vertex_normal, advancement, side, src },
            );
            proof {
                assert(self.log@.subrange(0, old(self).log@.len() as int) =~= old(self).log@);
            }
            return match order {
                Order::Before => (back_start_vertex, back_end_vertex, Some(order)),
                Order::After => (back_end_vertex, back_start_vertex, Some(order)),
            };
        }
        let back_start_vertex = self.add_vertex(
            output,
            position,
            StrokeAttributes { normal: front_normal.negated(), advancement, side, src },
        );
        (back_start_vertex, back_start_vertex, None)
    }

    /// A sharp corner on the front of a join: one vertex at the tip. Where
    /// the back of the join has two vertices, the front has a second one,
    /// beside the short edge, and the triangle of the two and the back
    /// vertex.
    ///
    /// Returns the vertex for the edge that arrives and the vertex for the
    /// edge that leaves.
    fn tessellate_miter_join<B: StrokeGeometryBuilder<S>>(
        &mut self,
        output: &mut B,
        prev_tangent: Vector<S>,
        next_tangent: Vector<S>,
        front_side: Side,
        front_normal: Vector<S>,
        normal: Vector<S>,
        back_vertex: VertexId,
        order: Option<Order>,
        src: VertexSource<S>,
    ) -> (r: (VertexId, VertexId))
        requires
            old(self).in_step(*old(output)),
            old(self).wf(),
            record::names_given(src, old(self).given@),
            record::issued(old(self).log@).contains(back_vertex),
        ensures
            final(self).in_step(*final(output)),
            final(self).base() == old(self).base(),
            final(self).wf(),
            old(self).set_vertex(
                final(self).log@,
                old(self).log@.len() as int,
                front_normal,
                front_side,
                src,
            ),
            order matches Some(o) ==> old(self).set_vertex(
                final(self).log@,
                old(self).log@.len() as int + 1,
                record::miter_side_normal(prev_tangent, next_tangent, front_side, o),
                front_side,
                src,
            ),
            record::issued(final(self).log@).contains(r.0),
            record::issued(final(self).log@).contains(r.1),
            record::issued_kept(old(self).log@, final(self).log@),
            old(self).same_course(final(self)),
            final(self).length == old(self).length,
            final(self).prev_normal == normal,
            record::all_from(final(self).log@, old(self).log@.len() as int, src),
            record::all_on(final(self).log@, old(self).log@.len() as int, front_side),
            ({
                let n = old(self).log@.len() as int;
                let log = final(self).log@;
                match order {
                    None => {
                        &&& record::grown_by(old(self).log@, log, 1)
                        &&& record::sent_vertex(log, n, front_side, src)
                        &&& r.0 == record::id_at(log, n)
                        &&& r.1 == record::id_at(log, n)
                    },
                    Some(o) => {
                        &&& record::grown_by(old(self).log@, log, 3)
                        &&& record::sent_vertex(log, n, front_side, src)
                        &&& record::sent_vertex(log, n + 1, front_side, src)
                        &&& record::sent_triangle(
                            log,
                            n + 2,
                            record::id_at(log, n + 1),
                            record::id_at(log, n),
                            back_vertex,
                        )
                        &&& r.0 == if o is Before {
                            record::id_at(log, n)
                        } else {
                            record::id_at(log, n + 1)
                        }
                        &&& r.1 == if o is Before {
                            record::id_at(log, n + 1)
                        } else {
                            record::id_at(log, n)
                        }
                    },
                }
            }),
    {
        let position = self.current;
        let advancement = self.length;
        let end_vertex = self.add_vertex(
            output,
            position,
            StrokeAttributes { normal: front_normal, advancement, side: front_side, src },
        );
        self.prev_normal = normal;
        match order {
            Some(o) => {
                let t2 = match o {
                    Order::Before => next_tangent,
                    Order::After => prev_tangent,
                };
                let n1 = match front_side {
                    Side::Right => Vector { x: t2.y, y: t2.x.negated() },
                    Side::Left => Vector { x: t2.y.negated(), y: t2.x },
                };
                let start_vertex = self.add_vertex(
                    output,
                    position,
                    StrokeAttributes { normal: n1, advancement, side: front_side, src },
                );
                self.add_triangle(output, start_vertex, end_vertex, back_vertex);
                proof {
                    assert(self.log@.subrange(0, old(self).log@.len() as int) =~= old(self).log@);
                }
                match o {
                    Order::Before => (end_vertex, start_vertex),
                    Order::After => (start_vertex, end_vertex),
                }
            },
            None => (end_vertex, end_vertex),
        }
    }

    /// A flat corner on the front of a join: one vertex beside each edge,
    /// and the triangle of the two and the back vertex.
    ///
    /// Returns the vertex for the edge that arrives and the vertex for the
    /// edge that leaves.
    fn tessellate_bevel_join<B: StrokeGeometryBuilder<S>>(
        &mut self,
        output: &mut B,
        prev_tangent: Vector<S>,
        next_tangent: Vector<S>,
        front_side: Side,
        back_vertex: VertexId,
        src: VertexSource<S>,
    ) -> (r: (VertexId, VertexId))
        requires
            old(self).in_step(*old(output)),
            old(self).wf(),
            record::names_given(src, old(self).given@),
            record::issued(old(self).log@).contains(back_vertex),
        ensures
            final(self).in_step(*final(output)),
            final(self).base() == old(self).base(),
            final(self).wf(),
            old(self).set_vertex(
                final(self).log@,
                old(self).log@.len() as int,
                record::edge_normal(prev_tangent, front_side),
                front_side,
                src,
            ),
            old(self).set_vertex(
                final(self).log@,
                old(self).log@.len() as int + 1,
                record::edge_normal(next_tangent, front_side),
                front_side,
                src,
            ),
            record::issued(final(self).log@).contains(r.0),
            record::issued(final(self).log@).contains(r.1),
            old(self).same_course(final(self)),
            final(self).length == old(self).length,
            final(self).prev_normal == math::vec_tangent(next_tangent),
            record::grown_by(old(self).log@, final(self).log@, 3),
            record::issued_kept(old(self).log@, final(self).log@),
            record::all_from(final(self).log@, old(self).log@.len() as int, src),
            record::all_on(final(self).log@, old(self).log@.len() as int, front_side),
            ({
                let n = old(self).log@.len() as int;
                let log = final(self).log@;
                &&& record::sent_vertex(log, n, front_side, src)
                &&& record::sent_vertex(log, n + 1, front_side, src)
                &&& r.0 == record::id_at(log, n)
                &&& r.1 == record::id_at(log, n + 1)
                &&& if front_side is Left {
                    record::sent_triangle(log, n + 2, r.0, r.1, back_vertex)
                } else {
                    record::sent_triangle(log, n + 2, r.1, r.0, back_vertex)
                }
            }),
    {
        let neg_if_right = if front_side.is_left() {
            S::ratio(1, 1)
        } else {
            S::ratio(-1, 1)
        };
        let prev_normal = prev_tangent.tangent();
        let next_normal = next_tangent.tangent();
        let position = self.current;
        let advancement = self.length;

        let start_vertex = self.add_vertex(
            output,
            position,
            StrokeAttributes {
                normal: prev_normal.scaled(neg_if_right),
                advancement,
                side: front_side,
                src,
            },
        );
        let last_vertex = self.add_vertex(
            output,
            position,
            StrokeAttributes {
                normal: next_normal.scaled(neg_if_right),
                advancement,
                side: front_side,
                src,
            },
        );
        self.prev_normal = next_normal;

        if front_side.is_left() {
            self.add_triangle(output, start_vertex, last_vertex, back_vertex);
        } else {
            self.add_triangle(output, last_vertex, start_vertex, back_vertex);
        }
        proof {
            assert(self.log@.subrange(0, old(self).log@.len() as int) =~= old(self).log@);
        }
        (start_vertex, last_vertex)
    }

    /// Whether a miter with the given normal is longer than the miter
    /// limit allows.
    fn miter_limit_is_exceeded(&self, normal: Vector<S>) -> (r: bool)
        ensures
            r == self.exceeds_miter_limit(normal),
    {
        self.options.miter_limit.times(self.options.miter_limit).less(normal.square_length())
    }

    /// Where the line at the miter limit, across `normal`, cuts the lines
    /// from the normal of each edge to the tip of the miter. Where it cuts
    /// none, the normal of the edge stands for the point.
    fn get_clip_intersections(
        &self,
        prev_normal: Vector<S>,
        next_normal: Vector<S>,
        normal: Vector<S>,
    ) -> (r: (Vector<S>, Vector<S>))
        ensures
            r == record::clip_normals(
                prev_normal,
                next_normal,
                normal,
                self.options.miter_limit,
                self.options.line_width,
            ),
    {
        let miter_length = self.options.miter_limit.times(self.options.line_width);
        let normal_limit = normal.normalized().scaled(miter_length);

        let normal_limit_perp = LineSegment {
            from: Point {
                x: normal_limit.x.minus(normal_limit.y),
                y: normal_limit.y.plus(normal_limit.x),
            },
            to: Point {
                x: normal_limit.x.plus(normal_limit.y),
                y: normal_limit.y.minus(normal_limit.x),
            },
        };

        let prev_normal = prev_normal.to_point();
        let next_normal = next_normal.to_point();
        let normal = normal.to_point();

        let l1 = LineSegment { from: prev_normal, to: normal };
        let l2 = LineSegment { from: next_normal, to: normal };

        let i1 = match l1.intersection(&normal_limit_perp) {
            Some(p) => p,
            None => prev_normal,
        };
        let i2 = match l2.intersection(&normal_limit_perp) {
            Some(p) => p,
            None => next_normal,
        };
        (i1.to_vector(), i2.to_vector())
    }

    /// A sharp corner cut off at the miter limit, on the front of a join:
    /// one vertex at each end of the cut, and the triangle of the two and
    /// the back vertex.
    ///
    /// Returns the vertex for the edge that arrives and the vertex for the
    /// edge that leaves.
    fn tessellate_miter_clip_join<B: StrokeGeometryBuilder<S>>(
        &mut self,
        output: &mut B,
        prev_tangent: Vector<S>,
        next_tangent: Vector<S>,
        front_side: Side,
        back_vertex: VertexId,
        normal: Vector<S>,
        src: VertexSource<S>,
    ) -> (r: (VertexId, VertexId))
        requires
            old(self).in_step(*old(output)),
            old(self).wf(),
            record::names_given(src, old(self).given@),
            record::issued(old(self).log@).contains(back_vertex),
        ensures
            final(self).in_step(*final(output)),
            final(self).base() == old(self).base(),
            final(self).wf(),
            old(self).set_vertex(
                final(self).log@,
                old(self).log@.len() as int,
                record::clipped_normals(
                    old(self).geometry(prev_tangent, next_tangent, normal),
                    front_side,
                ).0,
                front_side,
                src,
            ),
            old(self).set_vertex(
                final(self).log@,
                old(self).log@.len() as int + 1,
                record::clipped_normals(
                    old(self).geometry(prev_tangent, next_tangent, normal),
                    front_side,
                ).1,
                front_side,
                src,
            ),
            record::issued(final(self).log@).contains(r.0),
            record::issued(final(self).log@).contains(r.1),
            old(self).same_course(final(self)),
            final(self).length == old(self).length,
            final(self).prev_normal == normal,
            record::grown_by(old(self).log@, final(self).log@, 3),
            record::issued_kept(old(self).log@, final(self).log@),
            record::all_from(final(self).log@, old(self).log@.len() as int, src),
            record::all_on(final(self).log@, old(self).log@.len() as int, front_side),
            ({
                let n = old(self).log@.len() as int;
                let log = final(self).log@;
                &&& record::sent_vertex(log, n, front_side, src)
                &&& record::sent_vertex(log, n + 1, front_side, src)
                &&& r.0 == record::id_at(log, n)
                &&& r.1 == record::id_at(log, n + 1)
                &&& if front_side is Left {
                    record::sent_triangle(log, n + 2, back_vertex, r.0, r.1)
                } else {
                    record::sent_triangle(log, n + 2, back_vertex, r.1, r.0)
                }
            }),
    {
        let neg_if_right = if front_side.is_left() {
            S::ratio(1, 1)
        } else {
            S::ratio(-1, 1)
        };
        let prev_normal = prev_tangent.tangent();
        let next_normal = next_tangent.tangent();
        let position = self.current;
        let advancement = self.length;

        let (v1, v2) = self.get_clip_intersections(prev_normal, next_normal, normal);

        let start_vertex = self.add_vertex(
            output,
            position,
            StrokeAttributes {
                normal: v1.scaled(neg_if_right),
                advancement,
                side: front_side,
                src,
            },
        );
        let last_vertex = self.add_vertex(
            output,
            position,
            StrokeAttributes {
                normal: v2.scaled(neg_if_right),
                advancement,
                side: front_side,
                src,
            },
        );
        self.prev_normal = normal;

        if front_side.is_left() {
            self.add_triangle(output, back_vertex, start_vertex, last_vertex);
        } else {
            self.add_triangle(output, back_vertex, last_vertex, start_vertex);
        }
        proof {
            assert(self.log@.subrange(0, old(self).log@.len() as int) =~= old(self).log@);
        }
        (start_vertex, last_vertex)
    }

    /// A round corner on the front of a join: a first vertex beside the
    /// edge that arrives, then segment by segment a further vertex and the
    /// triangle of the back vertex, the vertex before and the new one.
    ///
    /// Returns the first vertex and the last one.
    fn tessellate_round_join<B: StrokeGeometryBuilder<S>>(
        &mut self,
        output: &mut B,
        prev_tangent: Vector<S>,
        next_tangent: Vector<S>,
        front_side: Side,
        back_vertex: VertexId,
        src: VertexSource<S>,
    ) -> (r: (VertexId, VertexId))
        requires
            old(self).in_step(*old(output)),
            old(self).wf(),
            record::names_given(src, old(self).given@),
            record::issued(old(self).log@).contains(back_vertex),
        ensures
            final(self).in_step(*final(output)),
            final(self).base() == old(self).base(),
            final(self).wf(),
            (final(self).log@.len() - old(self).log@.len() - 1) / 2 == old(self).round_segments(
                prev_tangent,
                next_tangent,
            ),
            old(self).set_vertex(
                final(self).log@,
                old(self).log@.len() as int,
                record::edge_normal(prev_tangent, front_side),
                front_side,
                src,
            ),
            record::issued(final(self).log@).contains(r.0),
            record::issued(final(self).log@).contains(r.1),
            old(self).same_course(final(self)),
            final(self).length == old(self).length,
            record::grown(old(self).log@, final(self).log@),
            record::issued_kept(old(self).log@, final(self).log@),
            record::all_from(final(self).log@, old(self).log@.len() as int, src),
            record::all_on(final(self).log@, old(self).log@.len() as int, front_side),
            record::round_fan(
                final(self).log@,
                old(self).log@.len() as int,
                (final(self).log@.len() - old(self).log@.len() - 1) / 2,
                front_side,
                back_vertex,
                src,
            ),
            r.0 == record::id_at(final(self).log@, old(self).log@.len() as int),
            r.1 == record::id_at(
                final(self).log@,
                record::fan_vertex(
                    old(self).log@.len() as int,
                    (final(self).log@.len() - old(self).log@.len() - 1) / 2,
                ),
            ),
            forall|j: int|
                0 <= j < (final(self).log@.len() - old(self).log@.len() - 1) / 2
                    ==> #[trigger] old(self).fan_placed(
                    final(self).log@,
                    old(self).log@.len() as int,
                    j,
                ),
            final(self).prev_normal == math::vec_scaled(
                record::normal_at(
                    final(self).log@,
                    record::fan_vertex(
                        old(self).log@.len() as int,
                        (final(self).log@.len() - old(self).log@.len() - 1) / 2,
                    ),
                ),
                record::facing(front_side),
            ),
    {
        let join_angle = math::get_join_angle(prev_tangent, next_tangent);
        let max_radius_segment_angle = math::compute_max_radius_segment_angle(
            self.options.line_width.over(S::ratio(2, 1)),
            self.options.tolerance,
        );
        let num_segments = join_angle.abs().over(max_radius_segment_angle).ceil().to_u32();
        let segment_angle = join_angle.over(S::from_u32(num_segments));

        let neg_if_right = if front_side.is_left() {
            S::ratio(1, 1)
        } else {
            S::ratio(-1, 1)
        };
        let initial_normal = prev_tangent.tangent().scaled(neg_if_right);
        let position = self.current;
        let advancement = self.length;

        let start_vertex = self.add_vertex(
            output,
            position,
            StrokeAttributes { normal: initial_normal, advancement, side: front_side, src },
        );
        let mut last_vertex = start_vertex;

        let sin = segment_angle.sin();
        let cos = segment_angle.cos();

        let ghost n = old(self).log@.len() as int;
        proof {
            assert(self.log@.subrange(0, n) =~= old(self).log@);
        }
        let mut normal = initial_normal;
        let mut i: u32 = 0;
        while i < num_segments
            invariant
                i <= num_segments,
                self.wf(),
                self.in_step(*output),
                self.base@ == old(self).base@,
                old(self).same_course(self),
                self.length == old(self).length,
                self.prev_normal == old(self).prev_normal,
                n == old(self).log@.len(),
                position == old(self).current,
                advancement == old(self).length,
                record::grown(old(self).log@, self.log@),
                record::all_from(self.log@, n, src),
                record::all_on(self.log@, n, front_side),
                record::round_fan(self.log@, n, i as int, front_side, back_vertex, src),
                old(self).set_vertex(
                    self.log@,
                    n,
                    record::edge_normal(prev_tangent, front_side),
                    front_side,
                    src,
                ),
                record::issued_kept(old(self).log@, self.log@),
                record::issued(self.log@).contains(back_vertex),
                record::issued(self.log@).contains(start_vertex),
                record::issued(self.log@).contains(last_vertex),
                start_vertex == record::id_at(self.log@, n),
                last_vertex == record::id_at(self.log@, record::fan_vertex(n, i as int)),
                normal == record::normal_at(self.log@, record::fan_vertex(n, i as int)),
                neg_if_right == record::facing::<S>(front_side),
                forall|j: int| 0 <= j < i ==> #[trigger] old(self).fan_placed(self.log@, n, j),
            decreases num_segments - i,
        {
            let ghost log0 = self.log@;
            normal = Vector {
                x: normal.x.times(cos).plus(normal.y.times(sin)),
                y: normal.x.times(sin.negated()).plus(normal.y.times(cos)),
            };
            let current_vertex = self.add_vertex(
                output,
                position,
                StrokeAttributes { normal, advancement, side: front_side, src },
            );
            let ghost log1 = self.log@;
            if front_side.is_left() {
                self.add_triangle(output, back_vertex, last_vertex, current_vertex);
            } else {
                self.add_triangle(output, back_vertex, current_vertex, last_vertex);
            }
            proof {
                record::lemma_grown_on(old(self).log@, log0, log1);
                record::lemma_grown_on(old(self).log@, log1, self.log@);
                record::lemma_grown_on(log0, log1, self.log@);
                assert forall|j: int| 0 <= j < i + 1 implies #[trigger] record::fan_step(
                    self.log@,
                    n,
                    j,
                    front_side,
                    back_vertex,
                    src,
                ) by {
                    if j < i {
                        assert(record::fan_step(log0, n, j, front_side, back_vertex, src));
                    }
                }
                assert forall|j: int| 0 <= j < i + 1 implies #[trigger] old(self).fan_placed(
                    self.log@,
                    n,
                    j,
                ) by {
                    if j < i {
                        assert(old(self).fan_placed(log0, n, j));
                    }
                }
            }
            last_vertex = current_vertex;
            i += 1;
        }
        self.prev_normal = normal.scaled(neg_if_right);
        (start_vertex, last_vertex)
    }

    /// Where the vertices of a join at the current point come from: the
    /// endpoint of the point, if the point is an end of its edge.
    pub open spec fn endpoint_source(&self) -> VertexSource<S> {
        VertexSource::Endpoint { id: self.current_endpoint }
    }

    /// Where the vertices of a join at the current point come from, if the
    /// point lies within an edge.
    pub open spec fn edge_source(&self) -> VertexSource<S> {
        VertexSource::Edge {
            from: self.previous_endpoint,
            to: self.current_endpoint,
            t: self.current_t,
        }
    }

    /// The front of a join in the shape that `join_type` asks for.
    ///
    /// Returns the vertex for the edge that arrives and the vertex for the
    /// edge that leaves, and the number of segments of a round front.
    fn tessellate_front_join<B: StrokeGeometryBuilder<S>>(
        &mut self,
        output: &mut B,
        join_type: LineJoin,
        prev_tangent: Vector<S>,
        next_tangent: Vector<S>,
        front_side: Side,
        front_normal: Vector<S>,
        normal: Vector<S>,
        back_vertex: VertexId,
        order: Option<Order>,
        src: VertexSource<S>,
        Ghost(within_edge): Ghost<bool>,
    ) -> (r: ((VertexId, VertexId), Ghost<nat>))
        requires
            old(self).in_step(*old(output)),
            old(self).wf(),
            record::names_given(src, old(self).given@),
            record::issued(old(self).log@).contains(back_vertex),
        ensures
            final(self).in_step(*final(output)),
            final(self).base() == old(self).base(),
            final(self).wf(),
            old(self).same_course(final(self)),
            final(self).length == old(self).length,
            record::grown(old(self).log@, final(self).log@),
            record::issued_kept(old(self).log@, final(self).log@),
            record::issued(final(self).log@).contains(r.0.0),
            record::issued(final(self).log@).contains(r.0.1),
            record::all_from(final(self).log@, old(self).log@.len() as int, src),
            ({
                let shape = JoinShape {
                    front_side,
                    order,
                    join: join_type,
                    segments: r.1@,
                    within_edge,
                };
                let m = old(self).log@.len() as int;
                &&& record::front_at(final(self).log@, m, shape, back_vertex, src)
                &&& front_normal == record::front_normal(
                    old(self).geometry(prev_tangent, next_tangent, normal),
                    front_side,
                ) ==> record::front_set(
                    final(self).log@,
                    m,
                    shape,
                    old(self).geometry(prev_tangent, next_tangent, normal),
                    src,
                )
                &&& final(self).prev_normal == record::normal_behind(
                    final(self).log@,
                    m,
                    shape,
                    old(self).geometry(prev_tangent, next_tangent, normal),
                )
                &&& final(self).log@.len() == m + record::front_calls(shape)
                &&& r.1@ == if join_type is Round {
                    old(self).round_segments(prev_tangent, next_tangent)
                } else {
                    0
                }
                &&& r.0.0 == record::front_start(final(self).log@, m, shape)
                &&& r.0.1 == record::front_end(final(self).log@, m, shape)
            }),
    {
        match join_type {
            LineJoin::Round => {
                let ids = self.tessellate_round_join(
                    output,
                    prev_tangent,
                    next_tangent,
                    front_side,
                    back_vertex,
                    src,
                );
                proof {
                    let g = old(self).geometry(prev_tangent, next_tangent, normal);
                    let m = old(self).log@.len() as int;
                    let k = (self.log@.len() - m - 1) / 2;
                    assert forall|j: int| 0 <= j < k implies #[trigger] record::fan_set(
                        self.log@,
                        m,
                        j,
                        g,
                    ) by {
                        assert(old(self).fan_placed(self.log@, m, j));
                    }
                }
                (ids, Ghost(((self.log@.len() - old(self).log@.len() - 1) / 2) as nat))
            },
            LineJoin::Bevel => {
                let ids = self.tessellate_bevel_join(
                    output,
                    prev_tangent,
                    next_tangent,
                    front_side,
                    back_vertex,
                    src,
                );
                (ids, Ghost(0))
            },
            LineJoin::MiterClip => {
                let ids = self.tessellate_miter_clip_join(
                    output,
                    prev_tangent,
                    next_tangent,
                    front_side,
                    back_vertex,
                    normal,
                    src,
                );
                (ids, Ghost(0))
            },
            LineJoin::Miter => {
                let ids = self.tessellate_miter_join(
                    output,
                    prev_tangent,
                    next_tangent,
                    front_side,
                    front_normal,
                    normal,
                    back_vertex,
                    order,
                    src,
                );
                (ids, Ghost(0))
            },
        }
    }

    /// Where the vertices of a join of the given shape at the current
    /// point come from.
    pub open spec fn join_source(&self, shape: JoinShape) -> VertexSource<S> {
        if shape.within_edge {
            self.edge_source()
        } else {
            self.endpoint_source()
        }
    }

    /// The join at the current point, between the edge `previous_edge` that
    /// arrives and the edge `next_edge` that leaves.
    ///
    /// The front of the join is the side away from which the path turns,
    /// the left if it goes straight on. First come the vertices of the
    /// back, then those of the front in the shape that `join_type` asks for
    /// (a miter where the two edges are nearly in line, a bevel in place of
    /// a miter that is too long, a miter in place of a clipped one that is
    /// not), with their triangles; last, where the back has two vertices
    /// with different ids, the triangle that fills the back.
    ///
    /// Returns the vertices at which the edge that arrives ends, left and
    /// right, those at which the edge that leaves starts, left and right,
    /// and the front side; and what was decided of the join.
    #[verifier::rlimit(60)]
    fn tessellate_join<B: StrokeGeometryBuilder<S>>(
        &mut self,
        output: &mut B,
        previous_edge: Vector<S>,
        next_edge: Vector<S>,
        join_type: LineJoin,
    ) -> (r: ((VertexId, VertexId, VertexId, VertexId, Side), Ghost<JoinShape>))
        requires
            old(self).in_step(*old(output)),
            old(self).wf(),
        ensures
            final(self).in_step(*final(output)),
            final(self).base() == old(self).base(),
            final(self).wf(),
            old(self).same_course(final(self)),
            record::grown(old(self).log@, final(self).log@),
            record::issued_kept(old(self).log@, final(self).log@),
            record::issued(final(self).log@).contains(r.0.0),
            record::issued(final(self).log@).contains(r.0.1),
            record::issued(final(self).log@).contains(r.0.2),
            record::issued(final(self).log@).contains(r.0.3),
            final(self).log@.len() >= old(self).log@.len() + 2,
            final(self).log@[old(self).log@.len() as int] is Vertex,
            record::joined(old(self).log@, final(self).log@, r.1@, old(self).join_source(r.1@)),
            r.0.4 == r.1@.front_side,
            (r.0.0, r.0.1, r.0.2, r.0.3) == record::join_ids(
                final(self).log@,
                old(self).log@.len() as int,
                r.1@,
            ),
            r.1@ == old(self).join_shape(previous_edge, next_edge, join_type, r.1@.segments),
            r.1@.segments == if r.1@.join is Round {
                old(self).round_segments(
                    math::vec_normalized(previous_edge),
                    math::vec_normalized(next_edge),
                )
            } else {
                0
            },
            record::join_set(
                final(self).log@,
                old(self).log@.len() as int,
                r.1@,
                old(self).join_geometry(previous_edge, next_edge),
                old(self).join_source(r.1@),
            ),
            final(self).length == old(self).length.sum(math::vec_length(previous_edge)),
            final(self).prev_normal == record::normal_behind(
                final(self).log@,
                old(self).log@.len() as int + record::back_calls(r.1@),
                r.1@,
                old(self).join_geometry(previous_edge, next_edge),
            ),
    {
        let zero = S::ratio(0, 1);
        let one = S::ratio(1, 1);
        let prev_tangent = previous_edge.normalized();
        let next_tangent = next_edge.normalized();
        let previous_edge_length = previous_edge.length();
        let next_edge_length = next_edge.length();
        self.length = self.length.plus(previous_edge_length);

        let at_endpoint = self.current_t.same(zero) || self.current_t.same(one);
        let src = if at_endpoint {
            VertexSource::Endpoint { id: self.current_endpoint }
        } else {
            VertexSource::Edge {
                from: self.previous_endpoint,
                to: self.current_endpoint,
                t: self.current_t,
            }
        };

        let normal = math::compute_normal(prev_tangent, next_tangent);

        let (front_side, front_normal) = if zero.less_eq(next_tangent.cross(prev_tangent)) {
            (Side::Left, normal)
        } else {
            (Side::Right, normal.negated())
        };

        let ghost n = old(self).log@.len() as int;
        let ghost g = self.geometry(prev_tangent, next_tangent, normal);
        let (back_start_vertex, back_end_vertex, order) = self.tessellate_back_join(
            output,
            prev_tangent,
            next_tangent,
            previous_edge_length,
            next_edge_length,
            front_side,
            front_normal,
            src,
        );
        let ghost log1 = self.log@;
        proof {
            assert(record::grown(old(self).log@, log1));
            assert(record::back_set(log1, n, front_side, order, g, src));
        }

        let threshold = S::ratio(95, 100);
        let join_type = if threshold.less_eq(prev_tangent.dot(next_tangent)) {
            LineJoin::Miter
        } else {
            match join_type {
                LineJoin::Miter => if self.miter_limit_is_exceeded(normal) {
                    LineJoin::Bevel
                } else {
                    LineJoin::Miter
                },
                LineJoin::MiterClip => if self.miter_limit_is_exceeded(normal) {
                    LineJoin::MiterClip
                } else {
                    LineJoin::Miter
                },
                other => other,
            }
        };

        let back_join_vertex = match order {
            Some(Order::After) => back_end_vertex,
            _ => back_start_vertex,
        };

        let ((start_vertex, end_vertex), segments) = self.tessellate_front_join(
            output,
            join_type,
            prev_tangent,
            next_tangent,
            front_side,
            front_normal,
            normal,
            back_join_vertex,
            order,
            src,
            Ghost(!at_endpoint),
        );
        let ghost log2 = self.log@;
        proof {
            assert(record::grown(log1, log2));
            record::lemma_grown_on(old(self).log@, log1, log2);
        }

        if back_end_vertex.0 != back_start_vertex.0 {
            let b = match order {
                Some(Order::After) => start_vertex,
                _ => end_vertex,
            };
            match front_side {
                Side::Left => self.add_triangle(output, back_end_vertex, b, back_start_vertex),
                Side::Right => self.add_triangle(output, back_end_vertex, back_start_vertex, b),
            }
            proof {
                record::lemma_grown_on(old(self).log@, log2, self.log@);
            }
        }
        let ghost shape = JoinShape {
            front_side,
            order,
            join: join_type,
            segments: segments@,
            within_edge: !at_endpoint,
        };
        proof {
            assert(record::all_from(self.log@, n, src));
            record::lemma_grown_none(log2);
            record::lemma_set_kept(log1, log2, n, shape, g, src);
            record::lemma_set_kept(log2, self.log@, n, shape, g, src);
            record::lemma_back_kept(log1, log2, n, shape, src);
            record::lemma_back_kept(log2, self.log@, n, shape, src);
            record::lemma_front_kept(
                log2,
                self.log@,
                n + record::back_calls(shape),
                shape,
                back_join_vertex,
                src,
            );
        }

        let ids = match front_side {
            Side::Left => (
                start_vertex,
                back_start_vertex,
                end_vertex,
                back_end_vertex,
                front_side,
            ),
            Side::Right => (
                back_start_vertex,
                start_vertex,
                back_end_vertex,
                end_vertex,
                front_side,
            ),
        };
        (ids, Ghost(shape))
    }

    /// `later` is `self` after the point `to` of a sub-path was taken in
    /// behind its second point or a later one: the point that was current
    /// is the previous one, `to` is current, and the path is longer by the
    /// edge that arrived at the point that was current. The second point
    /// of the sub-path is remembered when the point behind it comes.
    pub open spec fn advanced(&self, later: &Self, to: Point<S>, endpoint: EndpointId, t: S) -> bool {
        &&& later.nth == 2
        &&& later.current == to
        &&& later.current_endpoint == endpoint
        &&& later.current_t == t
        &&& later.previous == self.current
        &&& later.previous_endpoint == self.current_endpoint
        &&& !later.previous_command_was_move
        &&& later.first == self.first
        &&& later.first_endpoint == self.first_endpoint
        &&& later.sub_path_start_length == self.sub_path_start_length
        &&& later.length == self.length.sum(
            math::vec_length(math::point_minus(self.current, self.previous)),
        )
        &&& later.options == self.options
        &&& later.given@ == self.given@.insert(endpoint)
        &&& self.nth == 1 ==> later.second == self.current && later.second_endpoint
            == self.current_endpoint && later.second_t == self.current_t
        &&& self.nth == 2 ==> later.second == self.second && later.second_endpoint
            == self.second_endpoint && later.second_t == self.second_t && later.second_left_id
            == self.second_left_id && later.second_right_id == self.second_right_id
    }


    /// `later` is `self` after the point `to` was taken in behind the first
    /// point of a sub-path, with a join of the given shape at the point
    /// that was current.
    ///
    /// The calls of the join come first, with its vertices where
    /// `join_geometry` puts them. Where an edge arrives at that join from
    /// another join, the two triangles of that edge follow. The
    /// vertices at which the edge to `to` starts are remembered for the
    /// triangles of that edge, and the normal that the join leaves behind
    /// for the time when the sub-path is closed; and where the join is the
    /// first of its sub-path, so are the vertices at which the edge before
    /// it ends, for the time when the sub-path is finished or closed.
    #[verifier::opaque]
    pub open spec fn joined_on(
        &self,
        later: &Self,
        to: Point<S>,
        endpoint: EndpointId,
        t: S,
        shape: JoinShape,
    ) -> bool {
        let n = self.log@.len() as int;
        let log = later.log@;
        let end = if self.nth == 2 {
            log.len() - 2
        } else {
            log.len() as int
        };
        let ids = record::join_ids(log, n, shape);
        &&& self.nth >= 1
        &&& self.advanced(later, to, endpoint, t)
        &&& later.previous_front_side == shape.front_side
        &&& n + 2 <= end
        &&& record::joined(self.log@, log.subrange(0, end), shape, self.join_source(shape))
        &&& record::join_set(
            log.subrange(0, end),
            n,
            shape,
            self.join_geometry(
                math::point_minus(self.current, self.previous),
                math::point_minus(to, self.current),
            ),
            self.join_source(shape),
        )
        &&& later.prev_normal == record::normal_behind(
            log.subrange(0, end),
            n + record::back_calls(shape),
            shape,
            self.join_geometry(
                math::point_minus(self.current, self.previous),
                math::point_minus(to, self.current),
            ),
        )
        &&& later.previous_left_id == ids.2
        &&& later.previous_right_id == ids.3
        &&& self.nth == 1 ==> later.second_left_id == ids.0 && later.second_right_id == ids.1
        &&& self.nth == 2 ==> record::edge_pair(
            log,
            end,
            self.previous_front_side,
            self.previous_left_id,
            self.previous_right_id,
            ids.0,
            ids.1,
        )
    }

    /// Takes in a point behind the first point of a sub-path: the join at
    /// the point that was current, between the edge that arrives there
    /// and the edge to `to`, and, if an edge arrives at that join from
    /// another join, the two triangles of that edge. They connect the two
    /// vertices at which the edge left the join before to the two at which
    /// it arrives at this one.
    ///
    /// Returns what was decided of the join.
    #[verifier::rlimit(60)]
    fn take_point<B: StrokeGeometryBuilder<S>>(
        &mut self,
        output: &mut B,
        to: Point<S>,
        endpoint: EndpointId,
        t: S,
        with_join: bool,
    ) -> (shape: Ghost<JoinShape>)
        requires
            old(self).in_step(*old(output)),
            old(self).wf(),
            old(self).nth >= 1,
        ensures
            final(self).in_step(*final(output)),
            final(self).base() == old(self).base(),
            final(self).wf(),
            record::grown(old(self).log@, final(self).log@),
            record::issued_kept(old(self).log@, final(self).log@),
            old(self).joined_on(final(self), to, endpoint, t, shape@),
            shape@ == old(self).shape_for(to, with_join, shape@.segments),
            shape@.segments == old(self).segments_for(to, with_join),
            final(self).log@.len() >= old(self).log@.len() + 2,
            final(self).log@[old(self).log@.len() as int] is Vertex,
    {
        let previous_edge = self.current.minus(self.previous);
        let next_edge = to.minus(self.current);
        let join_type = if with_join {
            self.options.line_join
        } else {
            LineJoin::Miter
        };

        let ((start_left_id, start_right_id, end_left_id, end_right_id, front_side), shape) =
            self.tessellate_join(output, previous_edge, next_edge, join_type);
        let ghost log1 = self.log@;
        proof {
            assert(log1.subrange(0, log1.len() as int) =~= log1);
        }

        if self.nth > 1 {
            let left = self.previous_left_id;
            let right = self.previous_right_id;
            match self.previous_front_side {
                Side::Left => {
                    self.add_triangle(output, right, left, start_right_id);
                    let ghost log2 = self.log@;
                    self.add_triangle(output, left, start_left_id, start_right_id);
                    proof {
                        record::lemma_grown_on(old(self).log@, log1, log2);
                        record::lemma_grown_on(old(self).log@, log2, self.log@);
                        assert(self.log@.subrange(0, self.log@.len() - 2) =~= log1);
                    }
                },
                Side::Right => {
                    self.add_triangle(output, right, left, start_left_id);
                    let ghost log2 = self.log@;
                    self.add_triangle(output, right, start_left_id, start_right_id);
                    proof {
                        record::lemma_grown_on(old(self).log@, log1, log2);
                        record::lemma_grown_on(old(self).log@, log2, self.log@);
                        assert(self.log@.subrange(0, self.log@.len() - 2) =~= log1);
                    }
                },
            }
        }
        self.previous_command_was_move = false;
        self.previous_front_side = front_side;
        if self.nth == 1 {
            self.second = self.current;
            self.second_endpoint = self.current_endpoint;
            self.second_t = self.current_t;
            self.second_left_id = start_left_id;
            self.second_right_id = start_right_id;
        }
        self.previous = self.current;
        self.previous_endpoint = self.current_endpoint;
        self.previous_left_id = end_left_id;
        self.previous_right_id = end_right_id;
        self.current = to;
        self.current_endpoint = endpoint;
        self.current_t = t;
        self.given = Ghost(self.given@.insert(endpoint));
        self.nth = 2;
        proof {
            reveal(StrokeBuilder::joined_on);
            let n = old(self).log@.len() as int;
            let log = self.log@;
            let end = if old(self).nth == 2 {
                log.len() - 2
            } else {
                log.len() as int
            };
            assert(log.subrange(0, end) == log1);
            assert(record::join_ids(log, n, shape@) == record::join_ids(log1, n, shape@)) by {
                record::lemma_grown_none(log1);
                if old(self).nth == 2 {
                    assert(record::grown(log1, log));
                }
                record::lemma_ids_kept(log1, log, n, shape@, old(self).join_source(shape@));
            }
        }
        shape
    }

    /// `later` is `self` after `to` was given as the next point of the
    /// current sub-path, a point that comes from `endpoint`, at parameter
    /// `t` of its edge.
    ///
    /// Where the arithmetic finds `to` the same as the current point,
    /// nothing has changed and nothing was sent. The first point behind
    /// the start of the sub-path is only remembered. Each later one brings
    /// the join at the point that was current, in the shape that
    /// `shape_for` gives, with the number of segments that `segments_for`
    /// gives, and the triangles of the edge that arrives there from
    /// another join.
    #[verifier::opaque]
    pub open spec fn edged(
        &self,
        later: &Self,
        to: Point<S>,
        endpoint: EndpointId,
        t: S,
        with_join: bool,
    ) -> bool {
        if math::points_same(to, self.current) {
            *later == *self
        } else if self.nth == 0 {
            *later == (StrokeBuilder {
                previous: self.first,
                previous_endpoint: self.first_endpoint,
                current: to,
                current_endpoint: endpoint,
                current_t: t,
                nth: 1,
                given: Ghost(self.given@.insert(endpoint)),
                ..*self
            })
        } else {
            self.joined_on(
                later,
                to,
                endpoint,
                t,
                self.shape_for(to, with_join, self.segments_for(to, with_join)),
            )
        }
    }

    /// `edged`, case by case: a point that the arithmetic finds the same as
    /// the current one changes nothing; the first point behind the start
    /// of a sub-path is remembered and nothing is sent; each later one
    /// brings a join, as `joined_on` says.
    pub proof fn lemma_edged(
        &self,
        later: &Self,
        to: Point<S>,
        endpoint: EndpointId,
        t: S,
        with_join: bool,
    )
        requires
            self.edged(later, to, endpoint, t, with_join),
        ensures
            math::points_same(to, self.current()) ==> *later == *self,
            !math::points_same(to, self.current()) && self.points_seen() == 0 ==> {
                &&& later.calls() == self.calls()
                &&& later.error() == self.error()
                &&& later.points_seen() == 1
                &&& later.current() == to
                &&& later.current_endpoint() == endpoint
                &&& later.current_t == t
                &&& later.previous == self.first
                &&& later.previous_endpoint() == self.first_endpoint()
                &&& later.length == self.length
                &&& later.given() == self.given().insert(endpoint)
            },
            !math::points_same(to, self.current()) && self.points_seen() >= 1 ==> self.joined_on(
                later,
                to,
                endpoint,
                t,
                self.shape_for(to, with_join, self.segments_for(to, with_join)),
            ),
    {
        reveal(StrokeBuilder::edged);
    }

    /// `joined_on`, taken apart. With `end` the place in the record behind
    /// the calls of the join (the two triangles of the edge that arrived
    /// come behind it, where there is such an edge): the calls up to `end`
    /// are the join of the given shape, its vertices stand where
    /// `join_geometry` puts them, the path is longer by the edge that
    /// arrived, and the normal that is kept for the next edge is the one
    /// that the join leaves behind.
    pub proof fn lemma_joined_on(
        &self,
        later: &Self,
        to: Point<S>,
        endpoint: EndpointId,
        t: S,
        shape: JoinShape,
    )
        requires
            self.joined_on(later, to, endpoint, t, shape),
        ensures
            ({
                let n = self.calls().len() as int;
                let log = later.calls();
                let end = if self.points_seen() == 2 {
                    log.len() - 2
                } else {
                    log.len() as int
                };
                let g = self.join_geometry(
                    math::point_minus(self.current(), self.previous),
                    math::point_minus(to, self.current()),
                );
                let ids = record::join_ids(log, n, shape);
                &&& n + 2 <= end
                &&& later.points_seen() == 2
                &&& later.current() == to
                &&& later.current_endpoint() == endpoint
                &&& later.previous == self.current()
                &&& record::joined(self.calls(), log.subrange(0, end), shape, self.join_source(shape))
                &&& record::join_set(log.subrange(0, end), n, shape, g, self.join_source(shape))
                &&& later.length == self.length.sum(
                    math::vec_length(math::point_minus(self.current(), self.previous)),
                )
                &&& later.prev_normal == record::normal_behind(
                    log.subrange(0, end),
                    n + record::back_calls(shape),
                    shape,
                    g,
                )
                &&& later.previous_left_id == ids.2
                &&& later.previous_right_id == ids.3
                &&& self.points_seen() == 2 ==> record::edge_pair(
                    log,
                    end,
                    self.previous_front_side,
                    self.previous_left_id,
                    self.previous_right_id,
                    ids.0,
                    ids.1,
                )
            }),
    {
        reveal(StrokeBuilder::joined_on);
    }

    /// Takes in the next point of the current sub-path.
    ///
    /// A point equal to the current one is passed over. The first point
    /// after the start of the sub-path is only remembered. Each later one
    /// brings the join at the point that was current, and, from the third
    /// on, the two triangles of the edge that ends in that join.
    fn edge_to<B: StrokeGeometryBuilder<S>>(
        &mut self,
        output: &mut B,
        to: Point<S>,
        endpoint: EndpointId,
        t: S,
        with_join: bool,
    )
        requires
            old(self).in_step(*old(output)),
            old(self).wf(),
        ensures
            final(self).in_step(*final(output)),
            final(self).base() == old(self).base(),
            final(self).wf(),
            record::grown(old(self).log@, final(self).log@),
            record::issued_kept(old(self).log@, final(self).log@),
            *final(self) == *old(self) || if old(self).nth == 0 {
                *final(self) == (StrokeBuilder {
                    previous: old(self).first,
                    previous_endpoint: old(self).first_endpoint,
                    current: to,
                    current_endpoint: endpoint,
                    current_t: t,
                    nth: 1,
                    given: Ghost(old(self).given@.insert(endpoint)),
                    ..*old(self)
                })
            } else {
                &&& old(self).advanced(final(self), to, endpoint, t)
                &&& final(self).log@.len() >= old(self).log@.len() + 2
                &&& final(self).log@[old(self).log@.len() as int] is Vertex
                &&& exists|shape: JoinShape| old(self).joined_on(final(self), to, endpoint, t, shape)
            },
            math::points_same(to, old(self).current) ==> *final(self) == *old(self),
            old(self).edged(final(self), to, endpoint, t, with_join),
    {
        proof {
            assert(old(self).log@.subrange(0, old(self).log@.len() as int) =~= old(self).log@);
        }
        proof {
            reveal(StrokeBuilder::edged);
        }
        if to.same(self.current) {
            return ;
        }
        if self.nth == 0 {
            self.previous = self.first;
            self.previous_endpoint = self.first_endpoint;
            self.current = to;
            self.current_endpoint = endpoint;
            self.current_t = t;
            self.nth = 1;
            self.given = Ghost(self.given@.insert(endpoint));
            return ;
        }
        let shape = self.take_point(output, to, endpoint, t, with_join);
        proof {
            assert(old(self).joined_on(
                self,
                to,
                endpoint,
                t,
                old(self).shape_for(to, with_join, shape@.segments),
            ));
            reveal(StrokeBuilder::joined_on);
        }
    }


    /// `later` is `self` after its sub-path was finished: the points of
    /// the sub-path and the options are as they were.
    pub open spec fn finished(&self, later: &Self) -> bool {
        &&& later.first == self.first
        &&& later.first_endpoint == self.first_endpoint
        &&& later.current == self.current
        &&& later.options == self.options
        &&& later.given@ == self.given@
        &&& later.sub_path_start_length == self.sub_path_start_length
        &&& later.previous_command_was_move ==> self.previous_command_was_move
        &&& self.nth == 0 ==> later.nth == 0
        &&& self.nth > 0 ==> later.nth > 0
    }

    /// Half the line width.
    pub open spec fn half_width(&self) -> S {
        self.options.line_width.quotient(S::ratio_of(2, 1))
    }

    /// The point at which the last edge of an open sub-path is taken to
    /// end: the current point, or, for a square cap, the point half a line
    /// width beyond it along the last edge.
    pub open spec fn end_point(&self) -> Point<S> {
        let d = math::point_minus(self.current, self.previous);
        if self.options.end_cap is Square {
            math::point_moved(
                self.current,
                math::vec_scaled(math::vec_normalized(d), self.half_width()),
            )
        } else {
            self.current
        }
    }

    /// The point at which the first edge of an open sub-path is taken to
    /// start: the first point, or, for a square cap, the point half a line
    /// width before it along the first edge.
    pub open spec fn start_point(&self) -> Point<S> {
        let d = math::point_minus(self.first, self.second);
        if self.options.start_cap is Square {
            math::point_moved(
                self.first,
                math::vec_scaled(math::vec_normalized(d), self.half_width()),
            )
        } else {
            self.first
        }
    }

    /// `later` is `self` after the end of its sub-path, which has an edge,
    /// was finished, and `mid` is the stroke in between, before the cap.
    ///
    /// The last edge is taken to end at `end_point`, and a point as far
    /// beyond it as the edge is long is taken in as the next point. That
    /// brings the join at the end, in line with the last edge, and the
    /// triangles of the last edge. The current point is then what it was.
    /// A round cap follows between the two vertices of that join.
    pub open spec fn end_finished(&self, later: &Self, mid: Self) -> bool {
        let d = math::point_minus(self.current, self.previous);
        let from = StrokeBuilder { current: self.end_point(), ..*self };
        let back = StrokeBuilder { current: self.current, ..mid };
        &&& from.edged(
            &mid,
            math::point_moved(self.end_point(), d),
            self.previous_endpoint,
            S::ratio_of(0, 1),
            true,
        )
        &&& back.steady(later)
        &&& if self.options.end_cap is Round {
            record::round_capped(
                back.log@,
                later.log@,
                back.thin(),
                back.previous_left_id,
                back.previous_right_id,
                false,
                VertexSource::Endpoint { id: back.previous_endpoint },
                back.tip(self.current, d, VertexSource::Endpoint { id: back.previous_endpoint }),
                self.current,
                back.reach(),
            )
        } else {
            *later == back
        }
    }

    /// Finishes the end of the current sub-path, which has an edge.
    fn finish_end<B: StrokeGeometryBuilder<S>>(&mut self, output: &mut B)
        requires
            old(self).in_step(*old(output)),
            old(self).wf(),
            old(self).nth >= 1,
        ensures
            final(self).in_step(*final(output)),
            final(self).base() == old(self).base(),
            final(self).wf(),
            record::grown(old(self).log@, final(self).log@),
            record::issued_kept(old(self).log@, final(self).log@),
            old(self).finished(final(self)),
            exists|mid: Self| old(self).end_finished(final(self), mid),
    {
        proof {
            record::lemma_grown_none(old(self).log@);
        }
        let current = self.current;
        let d = self.current.minus(self.previous);
        match self.options.end_cap {
            LineCap::Square => {
                self.current = self.current.moved(
                    d.normalized().scaled(self.options.line_width.over(S::ratio(2, 1))),
                );
            },
            _ => {},
        }
        let p = self.current.moved(d);
        let previous_endpoint = self.previous_endpoint;
        self.edge_to(output, p, previous_endpoint, S::ratio(0, 1), true);
        let ghost mid = *self;
        self.current = current;
        proof {
            assert(self.given@ =~= old(self).given@);
        }
        let ghost log2 = self.log@;
        match self.options.end_cap {
            LineCap::Round => {
                let src = VertexSource::Endpoint { id: self.previous_endpoint };
                let left_id = self.previous_left_id;
                let right_id = self.previous_right_id;
                self.tessellate_round_cap(output, current, d, left_id, right_id, false, src);
                proof {
                    record::lemma_grown_on(old(self).log@, log2, self.log@);
                }
            },
            _ => {},
        }
        proof {
            assert(old(self).end_finished(self, mid));
        }
    }

    /// `later` is `self` after the start of its sub-path, which has two
    /// points or more behind the first, was finished.
    ///
    /// Two vertices are sent for the first point, left and right of the
    /// path, at `start_point` and with the normals of the first edge. A
    /// round cap follows between them. Last come the two triangles of the
    /// first edge, which connect the two vertices to those at which the
    /// first edge arrives at the first join.
    pub open spec fn start_finished(&self, later: &Self) -> bool {
        let n = self.log@.len() as int;
        let log = later.log@;
        let m = log.len() as int;
        let d = math::point_minus(self.first, self.second);
        let n2 = math::vec_normalized(math::vec_tangent(d));
        let n1 = math::vec_negated(n2);
        let src = VertexSource::Endpoint { id: self.first_endpoint };
        let advancement = self.sub_path_start_length;
        &&& self.steady(later)
        &&& n + 4 <= m
        &&& record::sent_exactly(
            log,
            n,
            self.placed(self.start_point(), n1),
            (StrokeAttributes { normal: n1, advancement, side: Side::Left, src }),
        )
        &&& record::sent_exactly(
            log,
            n + 1,
            self.placed(self.start_point(), n2),
            (StrokeAttributes { normal: n2, advancement, side: Side::Right, src }),
        )
        &&& if self.options.start_cap is Round {
            record::round_capped(
                log.subrange(0, n + 2),
                log.subrange(0, m - 2),
                self.thin(),
                record::id_at(log, n),
                record::id_at(log, n + 1),
                true,
                src,
                self.tip(self.start_point(), d, src),
                self.start_point(),
                self.reach(),
            )
        } else {
            m == n + 4
        }
        &&& record::sent_triangle(
            log,
            m - 2,
            record::id_at(log, n + 1),
            record::id_at(log, n),
            self.second_right_id,
        )
        &&& record::sent_triangle(
            log,
            m - 1,
            record::id_at(log, n),
            self.second_left_id,
            self.second_right_id,
        )
    }

    /// Finishes the start of the current sub-path, which has two points or
    /// more behind the first.
    fn finish_start<B: StrokeGeometryBuilder<S>>(&mut self, output: &mut B)
        requires
            old(self).in_step(*old(output)),
            old(self).wf(),
            old(self).nth > 1,
        ensures
            final(self).in_step(*final(output)),
            final(self).base() == old(self).base(),
            final(self).wf(),
            record::grown(old(self).log@, final(self).log@),
            record::issued_kept(old(self).log@, final(self).log@),
            old(self).steady(final(self)),
            old(self).start_finished(final(self)),
    {
        let mut first = self.first;
        let d = first.minus(self.second);
        match self.options.start_cap {
            LineCap::Square => {
                first = first.moved(
                    d.normalized().scaled(self.options.line_width.over(S::ratio(2, 1))),
                );
            },
            _ => {},
        }
        let n2 = math::normalized_tangent(d);
        let n1 = n2.negated();
        let src = VertexSource::Endpoint { id: self.first_endpoint };
        let advancement = self.sub_path_start_length;

        let first_left_id = self.add_vertex(
            output,
            first,
            StrokeAttributes { normal: n1, advancement, side: Side::Left, src },
        );
        let ghost log4 = self.log@;
        let first_right_id = self.add_vertex(
            output,
            first,
            StrokeAttributes { normal: n2, advancement, side: Side::Right, src },
        );
        let ghost log5 = self.log@;
        proof {
            record::lemma_grown_on(old(self).log@, log4, log5);
        }
        match self.options.start_cap {
            LineCap::Round => {
                self.tessellate_round_cap(
                    output,
                    first,
                    d,
                    first_left_id,
                    first_right_id,
                    true,
                    src,
                );
                proof {
                    record::lemma_grown_on(old(self).log@, log5, self.log@);
                }
            },
            _ => {
                proof {
                    record::lemma_grown_none(log5);
                }
            },
        }
        let second_left_id = self.second_left_id;
        let second_right_id = self.second_right_id;
        let ghost log6 = self.log@;
        self.add_triangle(output, first_right_id, first_left_id, second_right_id);
        let ghost log7 = self.log@;
        self.add_triangle(output, first_left_id, second_left_id, second_right_id);
        proof {
            record::lemma_grown_on(old(self).log@, log6, log7);
            record::lemma_grown_on(old(self).log@, log7, self.log@);
            record::lemma_grown_on(log5, log6, log7);
            record::lemma_grown_on(log5, log7, self.log@);
            record::lemma_grown_on(log4, log5, self.log@);
            let n = old(self).log@.len() as int;
            let m = self.log@.len() as int;
            assert(self.log@.subrange(0, n + 2) =~= log5);
            assert(self.log@.subrange(0, m - 2) =~= log6);
        }
    }

    /// `later` is `self` after its sub-path was finished as an open one.
    ///
    /// A sub-path that has a single point gets the start cap around that
    /// point, if the point was given by the start of a sub-path. A
    /// sub-path that has an edge gets its end finished, and then, if it
    /// has two points or more behind the first, its start.
    #[verifier::opaque]
    pub open spec fn finished_as(&self, later: &Self) -> bool {
        if self.nth == 0 {
            &&& self.steady(later)
            &&& record::single_point_cap(
                self.log@,
                later.log@,
                self.previous_command_was_move,
                self.options.start_cap,
                self.current_endpoint,
            )
            &&& self.previous_command_was_move ==> self.point_capped(later)
        } else {
            exists|mid: Self, ended: Self| self.finished_through(later, mid, ended)
        }
    }

    /// `finished_as`, case by case: a sub-path without an edge gets the cap
    /// of a single point, or nothing; one with an edge is finished at its
    /// end and then, where it has a join, at its start.
    pub proof fn lemma_finished_as(&self, later: &Self)
        requires
            self.finished_as(later),
        ensures
            self.points_seen() == 0 ==> self.steady(later) && record::single_point_cap(
                self.calls(),
                later.calls(),
                self.after_move(),
                self.options().start_cap,
                self.current_endpoint(),
            ) && (self.after_move() ==> self.point_capped(later)),
            self.points_seen() >= 1 ==> exists|mid: Self, ended: Self|
                self.finished_through(later, mid, ended),
    {
        reveal(StrokeBuilder::finished_as);
    }

    /// A round cap around a single point is never empty: it has the two
    /// vertices beside the point, and, unless the line is next to no
    /// width, the tips of its two halves with a triangle each. How many
    /// more it has depends on the tolerance, by a logarithm that has no
    /// name.
    pub proof fn lemma_round_point_counts(&self, later: &Self)
        requires
            self.finished_as(later),
            self.points_seen() == 0,
            self.after_move(),
            self.options().start_cap is Round,
        ensures
            record::vertex_count(later.calls()) >= record::vertex_count(self.calls()) + 2,
            self.thin() ==> later.calls().len() == self.calls().len() + 2,
            !self.thin() ==> {
                &&& record::vertex_count(later.calls()) >= record::vertex_count(self.calls()) + 4
                &&& record::triangle_count(later.calls()) >= record::triangle_count(
                    self.calls(),
                ) + 2
            },
    {
        reveal(StrokeBuilder::finished_as);
        let n = self.log@.len() as int;
        let log = later.log@;
        let mid = choose|mid: Seq<SinkCall<S>>| self.dotted_at(log, n, mid);
        let one = log.subrange(0, n + 1);
        let two = log.subrange(0, n + 2);
        assert(one.subrange(0, n) =~= log.subrange(0, n));
        assert(two.subrange(0, n + 1) =~= one);
        assert(record::grown(self.log@, one));
        assert(record::grown(one, two));
        record::lemma_counts_grown(self.log@, one, n);
        record::lemma_counts_grown(one, two, n + 1);
        record::lemma_counts_grown(two, mid, n + 2);
        if self.thin() {
            assert(log == two);
            record::lemma_counts_grown(mid, log, n + 2);
        } else {
            let m = mid.len() as int;
            let tipped = mid.subrange(0, n + 3);
            assert(tipped.subrange(0, n + 2) =~= mid.subrange(0, n + 2));
            assert(record::grown(two, tipped));
            assert(record::grown(tipped, mid));
            record::lemma_counts_grown(two, tipped, n + 2);
            record::lemma_counts_grown(tipped, mid, n + 3);
            let again = log.subrange(0, m + 1);
            assert(again.subrange(0, m) =~= log.subrange(0, m));
            assert(record::grown(mid, again));
            assert(record::grown(again, log));
            record::lemma_counts_grown(mid, again, m);
            record::lemma_counts_grown(again, log, m + 1);
        }
    }

    /// `later` is `self` after its sub-path, which has an edge, was
    /// finished as an open one: `ended` is the stroke after the end was
    /// finished, with `mid` on the way to it, and the start is finished
    /// behind it where the sub-path has a join.
    pub open spec fn finished_through(&self, later: &Self, mid: Self, ended: Self) -> bool {
        &&& self.end_finished(&ended, mid)
        &&& if ended.nth > 1 {
            ended.start_finished(later)
        } else {
            *later == ended
        }
    }

    /// Finishes the current sub-path as an open one.
    ///
    /// A sub-path that has a single point gets the start cap around that
    /// point. A sub-path that has an edge gets the join at its last point
    /// with the end cap behind it, then the two vertices at its first
    /// point, the start cap before them, and the two triangles of its
    /// first edge.
    fn finish<B: StrokeGeometryBuilder<S>>(&mut self, output: &mut B)
        requires
            old(self).in_step(*old(output)),
            old(self).wf(),
        ensures
            final(self).in_step(*final(output)),
            final(self).base() == old(self).base(),
            final(self).wf(),
            record::grown(old(self).log@, final(self).log@),
            record::issued_kept(old(self).log@, final(self).log@),
            old(self).finished(final(self)),
            old(self).finished_as(final(self)),
            old(self).nth == 0 ==> old(self).steady(final(self)) && record::single_point_cap(
                old(self).log@,
                final(self).log@,
                old(self).previous_command_was_move,
                old(self).options.start_cap,
                old(self).current_endpoint,
            ),
    {
        proof {
            record::lemma_grown_none(old(self).log@);
        }
        if self.nth == 0 {
            if self.previous_command_was_move {
                let src = VertexSource::Endpoint { id: self.current_endpoint };
                match self.options.start_cap {
                    LineCap::Square => {
                        self.tessellate_empty_square_cap(output, src);
                    },
                    LineCap::Round => {
                        self.tessellate_empty_round_cap(output, src);
                    },
                    LineCap::Butt => {},
                }
            }
            proof {
                reveal(StrokeBuilder::finished_as);
            }
        } else {
            self.finish_end(output);
            let ghost ended = *self;
            let ghost mid = choose|mid: Self| old(self).end_finished(&ended, mid);
            if self.nth > 1 {
                self.finish_start(output);
                proof {
                    record::lemma_grown_on(old(self).log@, ended.log@, self.log@);
                }
            }
            proof {
                reveal(StrokeBuilder::finished_as);
                assert(old(self).finished_through(self, mid, ended));
            }
        }
    }

    /// `later` is `self` after a sub-path was started at `to`, a point
    /// that comes from `endpoint`: the sub-path before was finished as an
    /// open one, and `to` is the first point and the current one of a
    /// sub-path that has no other point yet.
    #[verifier::opaque]
    pub open spec fn begun(&self, later: &Self, to: Point<S>, endpoint: EndpointId) -> bool {
        exists|flushed: Self| self.begun_through(later, flushed, to, endpoint)
    }

    /// `begun`, taken apart: there is a stroke in between, as
    /// `begun_through` says.
    pub proof fn lemma_begun(&self, later: &Self, to: Point<S>, endpoint: EndpointId)
        ensures
            self.begun(later, to, endpoint) <==> exists|flushed: Self|
                self.begun_through(later, flushed, to, endpoint),
    {
        reveal(StrokeBuilder::begun);
    }

    /// `later` is `self` after a sub-path was started at `to`: the
    /// sub-path before it was finished as an open one, which gave
    /// `flushed`, and `to` is the first point and the current one of a
    /// sub-path that starts at the length that the path had.
    pub open spec fn begun_through(
        &self,
        later: &Self,
        flushed: Self,
        to: Point<S>,
        endpoint: EndpointId,
    ) -> bool {
        &&& self.finished_as(&flushed)
        &&& *later == (StrokeBuilder {
            given: Ghost(flushed.given@.insert(endpoint)),
            first: to,
            current: to,
            first_endpoint: endpoint,
            current_endpoint: endpoint,
            current_t: S::ratio_of(0, 1),
            nth: 0,
            sub_path_start_length: flushed.length,
            previous_command_was_move: true,
            ..flushed
        })
    }

    /// Starts a sub-path at `to`, a point that comes from `endpoint`. The
    /// sub-path before it is finished first.
    fn begin<B: StrokeGeometryBuilder<S>>(
        &mut self,
        output: &mut B,
        to: Point<S>,
        endpoint: EndpointId,
    )
        requires
            old(self).in_step(*old(output)),
            old(self).wf(),
        ensures
            final(self).in_step(*final(output)),
            final(self).base() == old(self).base(),
            final(self).wf(),
            record::grown(old(self).log@, final(self).log@),
            record::issued_kept(old(self).log@, final(self).log@),
            final(self).nth == 0,
            final(self).previous_command_was_move,
            final(self).first == to,
            final(self).current == to,
            final(self).first_endpoint == endpoint,
            final(self).current_endpoint == endpoint,
            final(self).options == old(self).options,
            final(self).given@ == old(self).given@.insert(endpoint),
            old(self).begun(final(self), to, endpoint),
            old(self).nth == 0 ==> record::single_point_cap(
                old(self).log@,
                final(self).log@,
                old(self).previous_command_was_move,
                old(self).options.start_cap,
                old(self).current_endpoint,
            ),
    {
        self.finish(output);
        let ghost flushed = *self;
        self.given = Ghost(self.given@.insert(endpoint));
        self.first = to;
        self.current = to;
        self.first_endpoint = endpoint;
        self.current_endpoint = endpoint;
        self.current_t = S::ratio(0, 1);
        self.nth = 0;
        self.sub_path_start_length = self.length;
        self.previous_command_was_move = true;
        proof {
            reveal(StrokeBuilder::begun);
            assert(old(self).begun_through(self, flushed, to, endpoint));
        }
    }

    /// `later` is `self` after its sub-path was ended as an open one: it
    /// was finished, and no sub-path is open.
    #[verifier::opaque]
    pub open spec fn ended_as(&self, later: &Self) -> bool {
        exists|flushed: Self| self.ended_through(later, flushed)
    }

    /// `ended_as`, taken apart: there is a stroke in between, as
    /// `ended_through` says.
    pub proof fn lemma_ended_as(&self, later: &Self)
        ensures
            self.ended_as(later) <==> exists|flushed: Self| self.ended_through(later, flushed),
    {
        reveal(StrokeBuilder::ended_as);
    }

    /// `later` is `self` after its sub-path was ended as an open one: it
    /// was finished, which gave `flushed`, and no sub-path is open.
    pub open spec fn ended_through(&self, later: &Self, flushed: Self) -> bool {
        &&& self.finished_as(&flushed)
        &&& *later == (StrokeBuilder {
            nth: 0,
            sub_path_start_length: flushed.length,
            previous_command_was_move: false,
            ..flushed
        })
    }

    /// Ends the current sub-path as an open one: it is finished, and no
    /// sub-path is open afterwards, so that nothing is left to finish when
    /// the next one begins.
    fn end_sub_path<B: StrokeGeometryBuilder<S>>(&mut self, output: &mut B)
        requires
            old(self).in_step(*old(output)),
            old(self).wf(),
        ensures
            final(self).in_step(*final(output)),
            final(self).base() == old(self).base(),
            final(self).wf(),
            record::grown(old(self).log@, final(self).log@),
            record::issued_kept(old(self).log@, final(self).log@),
            final(self).nth == 0,
            !final(self).previous_command_was_move,
            final(self).first == old(self).first,
            final(self).current == old(self).current,
            final(self).first_endpoint == old(self).first_endpoint,
            final(self).options == old(self).options,
            final(self).given@ == old(self).given@,
            old(self).ended_as(final(self)),
            old(self).nth == 0 ==> record::single_point_cap(
                old(self).log@,
                final(self).log@,
                old(self).previous_command_was_move,
                old(self).options.start_cap,
                old(self).current_endpoint,
            ),
    {
        self.finish(output);
        let ghost flushed = *self;
        self.nth = 0;
        self.sub_path_start_length = self.length;
        self.previous_command_was_move = false;
        proof {
            reveal(StrokeBuilder::ended_as);
            assert(old(self).ended_through(self, flushed));
        }
    }

    /// The arithmetic finds the current point more than a thousandth off
    /// the first point of the sub-path, by the square of the distance.
    pub open spec fn far_from_first(&self) -> bool {
        S::ratio_of(1, 1000).is_less(
            math::vec_square_length(math::point_minus(self.first, self.current)),
        )
    }

    /// `later` is `self` after the ring of its sub-path, which has two
    /// points or more behind the first and stands at its first point
    /// again, was closed, and `mid` is the stroke in between.
    ///
    /// The second point of the sub-path is taken in once more, which
    /// brings the join at the first point and the triangles of the edge
    /// back to it. Then two vertices are sent for the first point, left
    /// and right of the path, with the normal that the join has left, and
    /// the two triangles of the first edge.
    pub open spec fn ring_closed(&self, later: &Self, mid: Self) -> bool {
        let n = mid.log@.len() as int;
        let log = later.log@;
        let src = VertexSource::Endpoint { id: mid.previous_endpoint };
        let advancement = mid.sub_path_start_length;
        let normal = mid.prev_normal;
        &&& self.edged(&mid, self.second, self.second_endpoint, self.second_t, true)
        &&& mid.steady(later)
        &&& log.len() == n + 4
        &&& record::sent_exactly(
            log,
            n,
            mid.placed(mid.previous, normal),
            (StrokeAttributes { normal, advancement, side: Side::Left, src }),
        )
        &&& record::sent_exactly(
            log,
            n + 1,
            mid.placed(mid.previous, math::vec_negated(normal)),
            (StrokeAttributes {
                normal: math::vec_negated(normal),
                advancement,
                side: Side::Right,
                src,
            }),
        )
        &&& record::sent_triangle(
            log,
            n + 2,
            record::id_at(log, n + 1),
            record::id_at(log, n),
            mid.second_right_id,
        )
        &&& record::sent_triangle(
            log,
            n + 3,
            record::id_at(log, n),
            mid.second_left_id,
            mid.second_right_id,
        )
    }

    /// Closes the ring of the current sub-path, which has two points or
    /// more behind the first.
    fn close_ring<B: StrokeGeometryBuilder<S>>(&mut self, output: &mut B)
        requires
            old(self).in_step(*old(output)),
            old(self).wf(),
            old(self).nth > 1,
        ensures
            final(self).in_step(*final(output)),
            final(self).base() == old(self).base(),
            final(self).wf(),
            record::grown(old(self).log@, final(self).log@),
            record::issued_kept(old(self).log@, final(self).log@),
            final(self).first == old(self).first,
            final(self).first_endpoint == old(self).first_endpoint,
            final(self).options == old(self).options,
            final(self).given@ == old(self).given@,
            exists|mid: Self| old(self).ring_closed(final(self), mid),
    {
        let second = self.second;
        let second_endpoint = self.second_endpoint;
        let second_t = self.second_t;
        self.edge_to(output, second, second_endpoint, second_t, true);
        let ghost mid = *self;
        let ghost log2 = self.log@;
        proof {
            assert(self.given@ =~= old(self).given@);
        }
        let src = VertexSource::Endpoint { id: self.previous_endpoint };
        let position = self.previous;
        let normal = self.prev_normal;
        let advancement = self.sub_path_start_length;
        let first_left_id = self.add_vertex(
            output,
            position,
            StrokeAttributes { normal, advancement, side: Side::Left, src },
        );
        let ghost log3 = self.log@;
        let first_right_id = self.add_vertex(
            output,
            position,
            StrokeAttributes { normal: normal.negated(), advancement, side: Side::Right, src },
        );
        let ghost log4 = self.log@;
        let second_left_id = self.second_left_id;
        let second_right_id = self.second_right_id;
        self.add_triangle(output, first_right_id, first_left_id, second_right_id);
        let ghost log5 = self.log@;
        self.add_triangle(output, first_left_id, second_left_id, second_right_id);
        proof {
            record::lemma_grown_on(old(self).log@, log2, log3);
            record::lemma_grown_on(old(self).log@, log3, log4);
            record::lemma_grown_on(old(self).log@, log4, log5);
            record::lemma_grown_on(old(self).log@, log5, self.log@);
            record::lemma_grown_on(log3, log4, log5);
            record::lemma_grown_on(log3, log5, self.log@);
            record::lemma_grown_on(log4, log5, self.log@);
            assert(old(self).ring_closed(self, mid));
        }
    }

    /// `later` is `self` after its sub-path was closed.
    ///
    /// Where the arithmetic finds the current point far from the first,
    /// the first point is taken in as the next point. Where the sub-path
    /// then has two points or more behind the first, its ring is closed.
    /// Afterwards no sub-path is open, and the current point is the first.
    #[verifier::opaque]
    pub open spec fn closed_as(&self, later: &Self) -> bool {
        exists|back: Self, mid: Self, ring: Self| self.closed_through(later, back, mid, ring)
    }

    /// `closed_as`, taken apart: there are strokes in between, as
    /// `closed_through` says.
    pub proof fn lemma_closed_as(&self, later: &Self)
        ensures
            self.closed_as(later) <==> exists|back: Self, mid: Self, ring: Self|
                self.closed_through(later, back, mid, ring),
    {
        reveal(StrokeBuilder::closed_as);
    }

    /// `later` is `self` after its sub-path was closed: `back` is the
    /// stroke after the edge back to the first point, where that point is
    /// not next to the current one; `ring` the stroke after the ring was
    /// closed, with `mid` on the way to it, where the sub-path has two
    /// edges or more; and afterwards no sub-path is open and the current
    /// point is the first.
    pub open spec fn closed_through(&self, later: &Self, back: Self, mid: Self, ring: Self) -> bool {
        &&& if self.far_from_first() {
            self.edged(&back, self.first, self.first_endpoint, S::ratio_of(0, 1), true)
        } else {
            back == *self
        }
        &&& if back.nth > 1 {
            back.ring_closed(&ring, mid)
        } else {
            ring == back
        }
        &&& *later == (StrokeBuilder {
            nth: 0,
            current: ring.first,
            sub_path_start_length: ring.length,
            previous_command_was_move: false,
            ..ring
        })
    }

    /// Closes the current sub-path: the edge back to its first point, if
    /// that point is not next to the current one, and, where the sub-path
    /// has two edges or more, the join at its first point and the two
    /// triangles of its first edge. A sub-path with less is dropped.
    fn close_sub_path<B: StrokeGeometryBuilder<S>>(&mut self, output: &mut B)
        requires
            old(self).in_step(*old(output)),
            old(self).wf(),
        ensures
            final(self).in_step(*final(output)),
            final(self).base() == old(self).base(),
            final(self).wf(),
            record::grown(old(self).log@, final(self).log@),
            record::issued_kept(old(self).log@, final(self).log@),
            final(self).nth == 0,
            !final(self).previous_command_was_move,
            final(self).first == old(self).first,
            final(self).current == old(self).first,
            final(self).first_endpoint == old(self).first_endpoint,
            final(self).options == old(self).options,
            final(self).given@ == old(self).given@,
            old(self).closed_as(final(self)),
            old(self).nth == 0 ==> final(self).log@ == old(self).log@,
    {
        proof {
            record::lemma_grown_none(old(self).log@);
        }
        let threshold = S::ratio(1, 1000);
        if threshold.less(self.first.minus(self.current).square_length()) {
            let first = self.first;
            let first_endpoint = self.first_endpoint;
            self.edge_to(output, first, first_endpoint, S::ratio(0, 1), true);
            proof {
                assert(self.given@ =~= old(self).given@);
            }
        }
        let ghost back = *self;
        let ghost mid = back;
        if self.nth > 1 {
            self.close_ring(output);
            proof {
                record::lemma_grown_on(old(self).log@, back.log@, self.log@);
            }
        }
        let ghost ring = *self;
        let ghost mid = if back.nth > 1 {
            choose|mid: Self| back.ring_closed(&ring, mid)
        } else {
            back
        };
        self.nth = 0;
        self.current = self.first;
        self.sub_path_start_length = self.length;
        self.previous_command_was_move = false;
        proof {
            reveal(StrokeBuilder::closed_as);
            assert(old(self).closed_through(self, back, mid, ring));
        }
    }

    /// `later` is `self` after one point of a flattened curve was taken in,
    /// and `mid` the stroke in between: the point is given as the next
    /// point of the sub-path, and then the endpoint from which the point
    /// before comes is set to `keep`, if there is one.
    pub open spec fn curve_step(
        &self,
        later: &Self,
        mid: Self,
        point: (Point<S>, S),
        endpoint: EndpointId,
        keep: Option<EndpointId>,
        with_join: bool,
    ) -> bool {
        &&& self.edged(&mid, point.0, endpoint, point.1, with_join)
        &&& *later == match keep {
            Some(e) => StrokeBuilder { previous_endpoint: e, ..mid },
            None => mid,
        }
    }

    /// Step `i` of a flattened curve: from `states[i]` to `states[i + 1]`
    /// by the point `points[i]`, with `mids[i]` in between. Only the first
    /// point brings a join of the kind that the options ask for.
    pub open spec fn curve_step_at(
        states: Seq<Self>,
        mids: Seq<Self>,
        points: Seq<(Point<S>, S)>,
        endpoint: EndpointId,
        keep: Option<EndpointId>,
        i: int,
    ) -> bool {
        states[i].curve_step(&states[i + 1], mids[i], points[i], endpoint, keep, i == 0)
    }

    /// `later` is `self` after the points of a flattened curve were taken
    /// in, and `states` are the strokes before and after each point, with
    /// `mids` in between.
    pub open spec fn curved_through(
        &self,
        later: &Self,
        states: Seq<Self>,
        mids: Seq<Self>,
        points: Seq<(Point<S>, S)>,
        endpoint: EndpointId,
        keep_previous: bool,
    ) -> bool {
        let keep = if keep_previous {
            Some(self.current_endpoint)
        } else {
            None
        };
        &&& states.len() == points.len() + 1
        &&& mids.len() == points.len()
        &&& states[0] == *self
        &&& states[points.len() as int] == *later
        &&& forall|i: int|
            0 <= i < points.len() ==> #[trigger] Self::curve_step_at(
                states,
                mids,
                points,
                endpoint,
                keep,
                i,
            )
    }

    /// `later` is `self` after the points of a flattened curve were taken
    /// in, one after the other, each with its parameter, as points that
    /// come from `endpoint`. The first brings a join of the kind that the
    /// options ask for, the others bring miters. With `keep_previous`, each point but the
    /// first is taken to follow a point that comes from the endpoint at
    /// which the curve starts.
    #[verifier::opaque]
    pub open spec fn curved(
        &self,
        later: &Self,
        points: Seq<(Point<S>, S)>,
        endpoint: EndpointId,
        keep_previous: bool,
    ) -> bool {
        exists|states: Seq<Self>, mids: Seq<Self>|
            self.curved_through(later, states, mids, points, endpoint, keep_previous)
    }

    /// `curved`, taken apart: there are strokes before and after each
    /// point, as `curved_through` says; and a curve without a point
    /// changes nothing.
    pub proof fn lemma_curved(
        &self,
        later: &Self,
        points: Seq<(Point<S>, S)>,
        endpoint: EndpointId,
        keep_previous: bool,
    )
        ensures
            self.curved(later, points, endpoint, keep_previous) <==> exists|
                states: Seq<Self>,
                mids: Seq<Self>,
            | self.curved_through(later, states, mids, points, endpoint, keep_previous),
            self.curved(later, points, endpoint, keep_previous) && points.len() == 0 ==> *later
                == *self,
    {
        reveal(StrokeBuilder::curved);
    }

    /// `later` is `self` after a point was taken in by `line_to` or by the
    /// flattening of a curve, as far as the record and the count of points
    /// go: the first point of a sub-path is only remembered, and each
    /// later one brings at least the two vertices of a join, the first of
    /// them on the back of the join.
    pub open spec fn took_point(&self, later: &Self) -> bool {
        if self.nth == 0 {
            later.nth == 1 && later.log@ == self.log@ && later.previous_command_was_move
                == self.previous_command_was_move
        } else {
            &&& later.nth == 2
            &&& !later.previous_command_was_move
            &&& later.log@.len() >= self.log@.len() + 2
            &&& later.log@[self.log@.len() as int] is Vertex
        }
    }

    /// Starts a sub-path at `to`, and finishes the sub-path before it as
    /// an open one.
    pub fn move_to<B: StrokeGeometryBuilder<S>>(&mut self, output: &mut B, to: Point<S>)
        requires
            old(self).in_step(*old(output)),
            old(self).wf(),
        ensures
            final(self).in_step(*final(output)),
            final(self).base() == old(self).base(),
            final(self).wf(),
            record::grown(old(self).calls(), final(self).calls()),
            final(self).points_seen() == 0,
            final(self).after_move(),
            final(self).current() == to,
            final(self).current_endpoint().0 == u32::MAX,
            final(self).first_endpoint().0 == u32::MAX,
            final(self).options() == old(self).options(),
            final(self).given() == old(self).given(),
            old(self).begun(final(self), to, EndpointId(u32::MAX)),
            old(self).points_seen() == 0 ==> record::single_point_cap(
                old(self).calls(),
                final(self).calls(),
                old(self).after_move(),
                old(self).options().start_cap,
                old(self).current_endpoint(),
            ),
    {
        self.begin(output, to, EndpointId::invalid());
        proof {
            assert(self.given@ =~= old(self).given@);
        }
    }

    /// Adds a line to `to`. A point equal to the current one changes
    /// nothing.
    pub fn line_to<B: StrokeGeometryBuilder<S>>(&mut self, output: &mut B, to: Point<S>)
        requires
            old(self).in_step(*old(output)),
            old(self).wf(),
        ensures
            final(self).in_step(*final(output)),
            final(self).base() == old(self).base(),
            final(self).wf(),
            record::grown(old(self).calls(), final(self).calls()),
            final(self).options() == old(self).options(),
            final(self).given() == old(self).given(),
            *final(self) == *old(self) || (old(self).took_point(final(self))
                && final(self).current() == to),
            old(self).edged(final(self), to, EndpointId(u32::MAX), S::ratio_of(0, 1), true),
    {
        self.edge_to(output, to, EndpointId::invalid(), S::ratio(0, 1), true);
        proof {
            assert(self.given@ =~= old(self).given@);
        }
    }

    /// Closes the current sub-path. The next sub-path starts where this
    /// one started, unless it is started elsewhere.
    pub fn close<B: StrokeGeometryBuilder<S>>(&mut self, output: &mut B)
        requires
            old(self).in_step(*old(output)),
            old(self).wf(),
        ensures
            final(self).in_step(*final(output)),
            final(self).base() == old(self).base(),
            final(self).wf(),
            record::grown(old(self).calls(), final(self).calls()),
            final(self).points_seen() == 0,
            !final(self).after_move(),
            final(self).first_endpoint() == old(self).first_endpoint(),
            final(self).options() == old(self).options(),
            final(self).given() == old(self).given(),
            old(self).closed_as(final(self)),
            old(self).points_seen() == 0 ==> final(self).calls() == old(self).calls(),
    {
        self.close_sub_path(output);
    }

    /// Ends the current sub-path as an open one, with its caps. No
    /// sub-path is open afterwards.
    pub fn end<B: StrokeGeometryBuilder<S>>(&mut self, output: &mut B)
        requires
            old(self).in_step(*old(output)),
            old(self).wf(),
        ensures
            final(self).in_step(*final(output)),
            final(self).base() == old(self).base(),
            final(self).wf(),
            record::grown(old(self).calls(), final(self).calls()),
            final(self).points_seen() == 0,
            !final(self).after_move(),
            final(self).first_endpoint() == old(self).first_endpoint(),
            final(self).options() == old(self).options(),
            final(self).given() == old(self).given(),
            old(self).points_seen() == 0 ==> record::single_point_cap(
                old(self).calls(),
                final(self).calls(),
                old(self).after_move(),
                old(self).options().start_cap,
                old(self).current_endpoint(),
            ),
            old(self).ended_as(final(self)),
    {
        self.end_sub_path(output);
    }

    /// The failure that is remembered: the first in the record of calls.
    pub fn failure(&self) -> (r: Option<TessellationError>)
        requires
            self.wf(),
        ensures
            r == self.error(),
            r == record::first_failure(self.calls()),
    {
        self.error
    }

    pub fn current_position(&self) -> (p: Point<S>)
        ensures
            p == self.current(),
    {
        self.current
    }

    /// Finishes the last sub-path as an open one, and says whether the
    /// sink has refused a vertex since this stroke was made.
    pub fn build<B: StrokeGeometryBuilder<S>>(&mut self, output: &mut B) -> (r: Result<
        (),
        TessellationError,
    >)
        requires
            old(self).in_step(*old(output)),
            old(self).wf(),
        ensures
            final(self).in_step(*final(output)),
            final(self).base() == old(self).base(),
            final(self).wf(),
            record::grown(old(self).calls(), final(self).calls()),
            final(self).options() == old(self).options(),
            final(self).given() == old(self).given(),
            old(self).points_seen() == 0 ==> record::single_point_cap(
                old(self).calls(),
                final(self).calls(),
                old(self).after_move(),
                old(self).options().start_cap,
                old(self).current_endpoint(),
            ),
            match r {
                Ok(_) => final(self).error() is None,
                Err(e) => final(self).error() == Some(e),
            },
            final(self).error() == record::first_failure(final(self).calls()),
            old(self).finished_as(final(self)),
    {
        self.finish(output);
        match self.error {
            Some(e) => Err(e),
            None => Ok(()),
        }
    }

    /// Forgets the sub-path in the making, without finishing it. The
    /// record of calls, the failure and the options stay.
    pub fn build_and_reset(&mut self)
        requires
            old(self).wf(),
        ensures
            final(self).wf(),
            final(self).calls() == old(self).calls(),
            final(self).error() == old(self).error(),
            final(self).options() == old(self).options(),
            final(self).given() == old(self).given(),
            final(self).points_seen() == 0,
            !final(self).after_move(),
            final(self).current_endpoint().0 == u32::MAX,
            final(self).first_endpoint().0 == u32::MAX,
    {
        let zero = S::ratio(0, 1);
        let origin = Point { x: zero, y: zero };
        self.first = origin;
        self.previous = origin;
        self.current = origin;
        self.second = origin;
        self.prev_normal = Vector { x: zero, y: zero };
        self.first_endpoint = EndpointId::invalid();
        self.second_endpoint = EndpointId::invalid();
        self.current_endpoint = EndpointId::invalid();
        self.current_t = zero;
        self.second_t = zero;
        self.nth = 0;
        self.length = zero;
        self.sub_path_start_length = zero;
        self.previous_command_was_move = false;
    }
}

impl<S: Flatten> StrokeBuilder<S> {
    /// `later` is `self` after a curve was taken in that comes to
    /// `count` points: the record has grown, the options are as they were,
    /// and without a point nothing has changed.
    pub open spec fn took_curve(&self, later: &Self, count: nat) -> bool {
        &&& later.wf()
        &&& record::grown(self.log@, later.log@)
        &&& later.options == self.options
        &&& later.first_endpoint == self.first_endpoint
        &&& later.nth >= self.nth
        &&& count == 0 ==> *later == *self
    }

    /// `later` has been given what `self` has been given and at most
    /// `endpoint` besides.
    pub open spec fn given_at_most(&self, later: &Self, endpoint: EndpointId) -> bool {
        later.given@ == self.given@ || later.given@ == self.given@.insert(endpoint)
    }

    /// Takes in the points of a flattened curve that goes to `endpoint`.
    /// Only the first of them brings a join of the kind that the options
    /// ask for, the others bring miters. Each point but the last comes
    /// from the edge between the endpoint before the curve and `endpoint`.
    fn flattened_to<B: StrokeGeometryBuilder<S>>(
        &mut self,
        output: &mut B,
        points: &Vec<(Point<S>, S)>,
        endpoint: EndpointId,
        keep_previous: bool,
    )
        requires
            old(self).in_step(*old(output)),
            old(self).wf(),
        ensures
            final(self).in_step(*final(output)),
            final(self).base() == old(self).base(),
            old(self).took_curve(final(self), points@.len()),
            old(self).given_at_most(final(self), endpoint),
            keep_previous && points@.len() > 0 ==> final(self).previous_endpoint
                == old(self).current_endpoint,
            old(self).curved(final(self), points@, endpoint, keep_previous),
    {
        proof {
            assert(old(self).log@.subrange(0, old(self).log@.len() as int) =~= old(self).log@);
        }
        let previous_endpoint = self.current_endpoint;
        let ghost keep = if keep_previous {
            Some(previous_endpoint)
        } else {
            None
        };
        let ghost mut states: Seq<Self> = seq![*self];
        let ghost mut mids: Seq<Self> = Seq::empty();
        let mut first = true;
        let mut i: usize = 0;
        while i < points.len()
            invariant
                states.len() == i + 1,
                mids.len() == i,
                first == (i == 0),
                self.in_step(*output),
                self.base@ == old(self).base@,
                states[0] == *old(self),
                states[i as int] == *self,
                keep == if keep_previous {
                    Some(previous_endpoint)
                } else {
                    None::<EndpointId>
                },
                forall|j: int|
                    0 <= j < i ==> #[trigger] Self::curve_step_at(
                        states,
                        mids,
                        points@,
                        endpoint,
                        keep,
                        j,
                    ),
                i <= points@.len(),
                self.wf(),
                record::grown(old(self).log@, self.log@),
                self.options == old(self).options,
                self.first_endpoint == old(self).first_endpoint,
                self.nth >= old(self).nth,
                i == 0 ==> *self == *old(self),
                old(self).given_at_most(self, endpoint),
                old(self).given@.contains(previous_endpoint),
                previous_endpoint == old(self).current_endpoint,
                keep_previous && i > 0 ==> self.previous_endpoint == previous_endpoint,
            decreases points@.len() - i,
        {
            let ghost log0 = self.log@;
            let (point, t) = points[i];
            self.edge_to(output, point, endpoint, t, first);
            let ghost mid = *self;
            if keep_previous {
                self.previous_endpoint = previous_endpoint;
            }
            first = false;
            proof {
                record::lemma_grown_on(old(self).log@, log0, self.log@);
                assert(self.given@ =~= old(self).given@ || self.given@ =~= old(self).given@.insert(
                    endpoint,
                ));
                let longer = states.push(*self);
                let more = mids.push(mid);
                assert forall|j: int| 0 <= j < i + 1 implies #[trigger] Self::curve_step_at(
                    longer,
                    more,
                    points@,
                    endpoint,
                    keep,
                    j,
                ) by {
                    if j < i {
                        assert(Self::curve_step_at(states, mids, points@, endpoint, keep, j));
                    }
                }
                states = longer;
                mids = more;
            }
            i += 1;
        }
        proof {
            reveal(StrokeBuilder::curved);
            assert(old(self).curved_through(self, states, mids, points@, endpoint, keep_previous));
        }
    }

    /// Adds a quadratic curve to `to`, as the line of segments that the
    /// flattening gives for it.
    pub fn quadratic_bezier_to<B: StrokeGeometryBuilder<S>>(
        &mut self,
        output: &mut B,
        ctrl: Point<S>,
        to: Point<S>,
    )
        requires
            old(self).in_step(*old(output)),
            old(self).wf(),
        ensures
            final(self).in_step(*final(output)),
            final(self).base() == old(self).base(),
            final(self).wf(),
            record::grown(old(self).calls(), final(self).calls()),
            final(self).options() == old(self).options(),
            final(self).given() == old(self).given(),
            old(self).curved(
                final(self),
                zeroed(S::quadratic_points(old(self).current(), ctrl, to, old(self).options().tolerance)),
                EndpointId(u32::MAX),
                false,
            ),
    {
        let points = S::flatten_quadratic(self.current, ctrl, to, self.options.tolerance);
        let points = with_zero_parameters(points);
        self.flattened_to(output, &points, EndpointId::invalid(), false);
        proof {
            assert(self.given@ =~= old(self).given@);
        }
    }

    /// Adds a cubic curve to `to`, as the line of segments that the
    /// flattening gives for it.
    pub fn cubic_bezier_to<B: StrokeGeometryBuilder<S>>(
        &mut self,
        output: &mut B,
        ctrl1: Point<S>,
        ctrl2: Point<S>,
        to: Point<S>,
    )
        requires
            old(self).in_step(*old(output)),
            old(self).wf(),
        ensures
            final(self).in_step(*final(output)),
            final(self).base() == old(self).base(),
            final(self).wf(),
            record::grown(old(self).calls(), final(self).calls()),
            final(self).options() == old(self).options(),
            final(self).given() == old(self).given(),
            old(self).curved(
                final(self),
                zeroed(
                    S::cubic_points(old(self).current(), ctrl1, ctrl2, to, old(self).options().tolerance),
                ),
                EndpointId(u32::MAX),
                false,
            ),
    {
        let points = S::flatten_cubic(self.current, ctrl1, ctrl2, to, self.options.tolerance);
        let points = with_zero_parameters(points);
        self.flattened_to(output, &points, EndpointId::invalid(), false);
        proof {
            assert(self.given@ =~= old(self).given@);
        }
    }

    /// Adds an arc of an ellipse around `center` that starts at the
    /// current point, as the line of segments that the flattening gives
    /// for it, whichever points those are.
    pub fn arc<B: StrokeGeometryBuilder<S>>(
        &mut self,
        output: &mut B,
        center: Point<S>,
        radii: Vector<S>,
        sweep_angle: S,
        x_rotation: S,
    )
        requires
            old(self).in_step(*old(output)),
            old(self).wf(),
        ensures
            final(self).in_step(*final(output)),
            final(self).base() == old(self).base(),
            final(self).wf(),
            record::grown(old(self).calls(), final(self).calls()),
            final(self).options() == old(self).options(),
            final(self).given() == old(self).given(),
            exists|points: Seq<Point<S>>|
                old(self).curved(final(self), paired(points), EndpointId(u32::MAX), false),
    {
        let points = S::flatten_arc(
            self.current,
            center,
            radii,
            sweep_angle,
            x_rotation,
            self.options.tolerance,
        );
        let ghost found = points@;
        let points = with_parameters(points);
        self.flattened_to(output, &points, EndpointId::invalid(), false);
        proof {
            assert(self.given@ =~= old(self).given@);
            assert(old(self).curved(self, paired(found), EndpointId(u32::MAX), false));
        }
    }

    /// `later` is `self` after one event of a path was taken in whose
    /// points are given by position. They come from no endpoint.
    ///
    /// A Begin starts a sub-path, a Line gives the next point, a curve
    /// gives the points that its flattening returns, each with the
    /// parameter 0, and an End closes the sub-path or ends it as an open
    /// one.
    #[verifier::opaque]
    pub open spec fn took_event(
        &self,
        later: &Self,
        event: PathEvent<Point<S>, Point<S>>,
    ) -> bool {
        let none = EndpointId(u32::MAX);
        match event {
            PathEvent::Begin { at } => self.begun(later, at, none),
            PathEvent::Line { to, .. } => self.edged(later, to, none, S::ratio_of(0, 1), true),
            PathEvent::Quadratic { ctrl, to, .. } => self.curved(
                later,
                zeroed(S::quadratic_points(self.current, ctrl, to, self.options.tolerance)),
                none,
                false,
            ),
            PathEvent::Cubic { ctrl1, ctrl2, to, .. } => self.curved(
                later,
                zeroed(S::cubic_points(self.current, ctrl1, ctrl2, to, self.options.tolerance)),
                none,
                false,
            ),
            PathEvent::End { close, .. } => if close {
                self.closed_as(later)
            } else {
                self.ended_as(later)
            },
        }
    }

    /// `took_event`, event by event.
    pub proof fn lemma_took_event(&self, later: &Self, event: PathEvent<Point<S>, Point<S>>)
        requires
            self.took_event(later, event),
        ensures
            event matches PathEvent::Begin { at } ==> self.begun(later, at, EndpointId(u32::MAX)),
            event matches PathEvent::Line { to, .. } ==> self.edged(
                later,
                to,
                EndpointId(u32::MAX),
                S::ratio_of(0, 1),
                true,
            ),
            event matches PathEvent::Quadratic { ctrl, to, .. } ==> self.curved(
                later,
                zeroed(S::quadratic_points(self.current(), ctrl, to, self.options().tolerance)),
                EndpointId(u32::MAX),
                false,
            ),
            event matches PathEvent::Cubic { ctrl1, ctrl2, to, .. } ==> self.curved(
                later,
                zeroed(
                    S::cubic_points(self.current(), ctrl1, ctrl2, to, self.options().tolerance),
                ),
                EndpointId(u32::MAX),
                false,
            ),
            event matches PathEvent::End { close, .. } ==> if close {
                self.closed_as(later)
            } else {
                self.ended_as(later)
            },
    {
        reveal(StrokeBuilder::took_event);
    }

    /// `later` is `self` after one event of a path was taken in whose
    /// points are given by id, with their positions from `positions`.
    ///
    /// A Begin starts a sub-path, a Line gives the next point, a curve
    /// gives the points that its flattening returns, each with its
    /// parameter, and an End closes the sub-path or ends it as an open
    /// one. Each point comes from the endpoint to which its event goes.
    #[verifier::opaque]
    pub open spec fn took_id_event<P: crate::position::PositionStore<Number = S>>(
        &self,
        later: &Self,
        event: IdEvent,
        positions: &P,
    ) -> bool {
        match event {
            IdEvent::Begin { at } => self.begun(later, positions.endpoint_at(at), at),
            IdEvent::Line { to, .. } => self.edged(
                later,
                positions.endpoint_at(to),
                to,
                S::ratio_of(0, 1),
                true,
            ),
            IdEvent::Quadratic { ctrl, to, .. } => self.curved(
                later,
                S::quadratic_points(
                    self.current,
                    positions.ctrl_point_at(ctrl),
                    positions.endpoint_at(to),
                    self.options.tolerance,
                ),
                to,
                true,
            ),
            IdEvent::Cubic { ctrl1, ctrl2, to, .. } => self.curved(
                later,
                S::cubic_points(
                    self.current,
                    positions.ctrl_point_at(ctrl1),
                    positions.ctrl_point_at(ctrl2),
                    positions.endpoint_at(to),
                    self.options.tolerance,
                ),
                to,
                true,
            ),
            IdEvent::End { close, .. } => if close {
                self.closed_as(later)
            } else {
                self.ended_as(later)
            },
        }
    }

    /// `took_id_event`, event by event.
    pub proof fn lemma_took_id_event<P: crate::position::PositionStore<Number = S>>(
        &self,
        later: &Self,
        event: IdEvent,
        positions: &P,
    )
        requires
            self.took_id_event(later, event, positions),
        ensures
            event matches IdEvent::Begin { at } ==> self.begun(
                later,
                positions.endpoint_at(at),
                at,
            ),
            event matches IdEvent::Line { to, .. } ==> self.edged(
                later,
                positions.endpoint_at(to),
                to,
                S::ratio_of(0, 1),
                true,
            ),
            event matches IdEvent::Quadratic { ctrl, to, .. } ==> self.curved(
                later,
                S::quadratic_points(
                    self.current(),
                    positions.ctrl_point_at(ctrl),
                    positions.endpoint_at(to),
                    self.options().tolerance,
                ),
                to,
                true,
            ),
            event matches IdEvent::Cubic { ctrl1, ctrl2, to, .. } ==> self.curved(
                later,
                S::cubic_points(
                    self.current(),
                    positions.ctrl_point_at(ctrl1),
                    positions.ctrl_point_at(ctrl2),
                    positions.endpoint_at(to),
                    self.options().tolerance,
                ),
                to,
                true,
            ),
            event matches IdEvent::End { close, .. } ==> if close {
                self.closed_as(later)
            } else {
                self.ended_as(later)
            },
    {
        reveal(StrokeBuilder::took_id_event);
    }

    /// Takes in one event of a path whose points are given by position.
    /// A Begin finishes the sub-path before it, if one is open; an End
    /// finishes its own, as a closed one or as an open one.
    pub fn path_event<B: StrokeGeometryBuilder<S>>(
        &mut self,
        output: &mut B,
        event: PathEvent<Point<S>, Point<S>>,
    )
        requires
            old(self).in_step(*old(output)),
            old(self).wf(),
        ensures
            final(self).in_step(*final(output)),
            final(self).base() == old(self).base(),
            final(self).wf(),
            record::grown(old(self).calls(), final(self).calls()),
            final(self).options() == old(self).options(),
            final(self).given() == old(self).given(),
            old(self).took_event(final(self), event),
            event is Begin ==> {
                &&& final(self).points_seen() == 0
                &&& final(self).after_move()
                &&& old(self).points_seen() == 0 ==> record::single_point_cap(
                    old(self).calls(),
                    final(self).calls(),
                    old(self).after_move(),
                    old(self).options().start_cap,
                    old(self).current_endpoint(),
                )
            },
            event matches PathEvent::End { close, .. } ==> {
                &&& final(self).points_seen() == 0
                &&& !final(self).after_move()
                &&& old(self).points_seen() == 0 ==> if close {
                    final(self).calls() == old(self).calls()
                } else {
                    record::single_point_cap(
                        old(self).calls(),
                        final(self).calls(),
                        old(self).after_move(),
                        old(self).options().start_cap,
                        old(self).current_endpoint(),
                    )
                }
            },
    {
        proof {
            assert(old(self).log@.subrange(0, old(self).log@.len() as int) =~= old(self).log@);
        }
        proof {
            reveal(StrokeBuilder::took_event);
        }
        match event {
            PathEvent::Begin { at } => self.move_to(output, at),
            PathEvent::Line { to, .. } => self.line_to(output, to),
            PathEvent::Quadratic { ctrl, to, .. } => self.quadratic_bezier_to(output, ctrl, to),
            PathEvent::Cubic { ctrl1, ctrl2, to, .. } => self.cubic_bezier_to(
                output,
                ctrl1,
                ctrl2,
                to,
            ),
            PathEvent::End { close, .. } => {
                if close {
                    self.close(output)
                } else {
                    self.end(output)
                }
            },
        }
    }

    /// Takes in one event of a path whose points are given by id, with
    /// their positions from `positions`. The vertices of each join say
    /// from which endpoint they come, or from which edge.
    pub fn id_event<B: StrokeGeometryBuilder<S>, P: crate::position::PositionStore<Number = S>>(
        &mut self,
        output: &mut B,
        event: IdEvent,
        positions: &P,
    )
        requires
            old(self).in_step(*old(output)),
            old(self).wf(),
            encoding::event_ids_below(
                event,
                positions.endpoint_count() as int,
                positions.ctrl_point_count() as int,
            ),
        ensures
            final(self).in_step(*final(output)),
            final(self).base() == old(self).base(),
            final(self).wf(),
            record::grown(old(self).calls(), final(self).calls()),
            final(self).options() == old(self).options(),
            final(self).given() == old(self).given() || final(self).given()
                == old(self).given().insert(target(event)),
            old(self).took_id_event(final(self), event, positions),
            event matches IdEvent::Begin { at } ==> {
                &&& final(self).points_seen() == 0
                &&& final(self).after_move()
                &&& final(self).current_endpoint() == at
                &&& final(self).first_endpoint() == at
                &&& final(self).current() == positions.endpoint_at(at)
                &&& old(self).points_seen() == 0 ==> record::single_point_cap(
                    old(self).calls(),
                    final(self).calls(),
                    old(self).after_move(),
                    old(self).options().start_cap,
                    old(self).current_endpoint(),
                )
            },
            event matches IdEvent::End { close, .. } ==> {
                &&& final(self).points_seen() == 0
                &&& !final(self).after_move()
                &&& old(self).points_seen() == 0 ==> if close {
                    final(self).calls() == old(self).calls()
                } else {
                    record::single_point_cap(
                        old(self).calls(),
                        final(self).calls(),
                        old(self).after_move(),
                        old(self).options().start_cap,
                        old(self).current_endpoint(),
                    )
                }
            },
    {
        proof {
            reveal(StrokeBuilder::took_id_event);
        }
        match event {
            IdEvent::Begin { at } => {
                let position = positions.endpoint_position(at);
                self.begin(output, position, at);
            },
            IdEvent::Line { to, .. } => {
                let position = positions.endpoint_position(to);
                self.edge_to(output, position, to, S::ratio(0, 1), true);
            },
            IdEvent::Quadratic { ctrl, to, .. } => {
                let points = S::flatten_quadratic(
                    self.current,
                    positions.ctrl_point_position(ctrl),
                    positions.endpoint_position(to),
                    self.options.tolerance,
                );
                self.flattened_to(output, &points, to, true);
            },
            IdEvent::Cubic { ctrl1, ctrl2, to, .. } => {
                let points = S::flatten_cubic(
                    self.current,
                    positions.ctrl_point_position(ctrl1),
                    positions.ctrl_point_position(ctrl2),
                    positions.endpoint_position(to),
                    self.options.tolerance,
                );
                self.flattened_to(output, &points, to, true);
            },
            IdEvent::End { close, .. } => {
                if close {
                    self.close_sub_path(output);
                } else {
                    self.end_sub_path(output);
                }
            },
        }
    }
}

/// The endpoint to which an event goes: where a sub-path begins, where an
/// edge ends, where a sub-path ended has come back to.
pub open spec fn target(event: IdEvent) -> EndpointId {
    match event {
        IdEvent::Begin { at } => at,
        IdEvent::Line { to, .. } => to,
        IdEvent::Quadratic { to, .. } => to,
        IdEvent::Cubic { to, .. } => to,
        IdEvent::End { first, .. } => first,
    }
}

/// The points of `points`, each with the parameter 0 in place of its own.
pub open spec fn zeroed<S: Scalar>(points: Seq<(Point<S>, S)>) -> Seq<(Point<S>, S)> {
    Seq::new(points.len(), |i: int| (points[i].0, S::ratio_of(0, 1)))
}

/// The points of `points`, each paired with the parameter 0.
pub open spec fn paired<S: Scalar>(points: Seq<Point<S>>) -> Seq<(Point<S>, S)> {
    Seq::new(points.len(), |i: int| (points[i], S::ratio_of(0, 1)))
}

/// The points of `points`, each with the parameter 0 in place of its own.
fn with_zero_parameters<S: Scalar>(points: Vec<(Point<S>, S)>) -> (r: Vec<(Point<S>, S)>)
    ensures
        r@ == zeroed(points@),
{
    let zero = S::ratio(0, 1);
    let mut r: Vec<(Point<S>, S)> = Vec::new();
    let mut i: usize = 0;
    while i < points.len()
        invariant
            i <= points@.len(),
            r@.len() == i,
            zero == S::ratio_of(0, 1),
            forall|j: int| 0 <= j < i ==> #[trigger] r@[j] == (points@[j].0, zero),
        decreases points@.len() - i,
    {
        let (point, _) = points[i];
        r.push((point, zero));
        i += 1;
    }
    proof {
        assert(r@ =~= zeroed(points@));
    }
    r
}

/// The points of `points`, each paired with the parameter 0.
fn with_parameters<S: Scalar>(points: Vec<Point<S>>) -> (r: Vec<(Point<S>, S)>)
    ensures
        r@ == paired(points@),
{
    let zero = S::ratio(0, 1);
    let mut r: Vec<(Point<S>, S)> = Vec::new();
    let mut i: usize = 0;
    while i < points.len()
        invariant
            i <= points@.len(),
            r@.len() == i,
            zero == S::ratio_of(0, 1),
            forall|j: int| 0 <= j < i ==> #[trigger] r@[j] == (points@[j], zero),
        decreases points@.len() - i,
    {
        r.push((points[i], zero));
        i += 1;
    }
    proof {
        assert(r@ =~= paired(points@));
    }
    r
}

} // verus!
