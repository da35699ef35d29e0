//! The record of what a tessellation sends to its sink.
//!
//! A sink is given by the user of the library, and nothing is known of what
//! it does. What is proved of a tessellation is therefore stated of the calls
//! that it makes: which vertices and triangles it hands over, in what order,
//! and what it does with the answers.

use vstd::prelude::*;
use crate::geometry_builder::{
    Count, GeometryBuilderError, Order, Side, StrokeAttributes, TessellationError, VertexId,
    VertexSource,
};
use crate::ids::EndpointId;
use crate::math;
use crate::math::{Point, Scalar, Vector};
use crate::options::{LineCap, LineJoin};

verus! {

/// One call on a sink, with what the sink answered.
pub enum SinkCall<S> {
    BeginGeometry,
    Vertex {
        position: Point<S>,
        attributes: StrokeAttributes<S>,
        reply: Result<VertexId, GeometryBuilderError>,
    },
    Triangle { a: VertexId, b: VertexId, c: VertexId },
    EndGeometry { count: Count },
    AbortGeometry,
}

/// Calls on a sink, in order, as contracts speak of them.
pub type Calls<S> = Seq<SinkCall<S>>;

/// The id that a tessellation goes on with after the sink answered `reply`:
/// the id that the sink gave, or the id 0 in place of one that it refused.
pub open spec fn used_id(reply: Result<VertexId, GeometryBuilderError>) -> VertexId {
    match reply {
        Ok(id) => id,
        Err(_) => VertexId(0),
    }
}

/// The failure that `call` brought, if it is a vertex that the sink refused.
pub open spec fn failure<S>(call: SinkCall<S>) -> Option<TessellationError> {
    match call {
        SinkCall::Vertex { reply: Err(e), .. } => Some(TessellationError::of(e)),
        _ => None,
    }
}

/// The first failure among the calls of `log`.
pub open spec fn first_failure<S>(log: Seq<SinkCall<S>>) -> Option<TessellationError>
    decreases log.len(),
{
    if log.len() == 0 {
        None
    } else if first_failure(log.drop_last()) is Some {
        first_failure(log.drop_last())
    } else {
        failure(log.last())
    }
}

/// `longer` is `log` with `n` further calls behind it, each of which hands
/// over a vertex or a triangle.
pub open spec fn grown_by<S>(log: Seq<SinkCall<S>>, longer: Seq<SinkCall<S>>, n: int) -> bool {
    &&& n >= 0
    &&& longer.len() == log.len() + n
    &&& longer.subrange(0, log.len() as int) == log
    &&& forall|i: int|
        log.len() <= i < longer.len() ==> (#[trigger] longer[i] is Vertex || longer[i] is Triangle)
}

/// `longer` is `log` with further calls behind it, each of which hands over
/// a vertex or a triangle.
pub open spec fn grown<S>(log: Seq<SinkCall<S>>, longer: Seq<SinkCall<S>>) -> bool {
    grown_by(log, longer, longer.len() - log.len())
}

/// Number of triangles handed over in `log`.
pub open spec fn triangle_count<S>(log: Seq<SinkCall<S>>) -> nat
    decreases log.len(),
{
    if log.len() == 0 {
        0
    } else if log.last() is Triangle {
        triangle_count(log.drop_last()) + 1
    } else {
        triangle_count(log.drop_last())
    }
}

/// Number of vertices handed over in `log`, those that the sink refused
/// included.
pub open spec fn vertex_count<S>(log: Seq<SinkCall<S>>) -> nat
    decreases log.len(),
{
    if log.len() == 0 {
        0
    } else if log.last() is Vertex {
        vertex_count(log.drop_last()) + 1
    } else {
        vertex_count(log.drop_last())
    }
}

/// The calls of `log` from `n` on begin with the tip of a round cap
/// between the vertices `left` and `right`: the vertex `tip`, which counts
/// as left and comes from `src`, and the triangle of the three, turned by
/// the end of the sub-path at which the cap stands.
pub open spec fn tipped<S>(
    log: Seq<SinkCall<S>>,
    n: int,
    left: VertexId,
    right: VertexId,
    is_start: bool,
    src: VertexSource<S>,
    tip: (Point<S>, StrokeAttributes<S>),
) -> bool {
    &&& sent_vertex(log, n, Side::Left, src)
    &&& sent_exactly(log, n, tip.0, tip.1)
    &&& if is_start {
        sent_triangle(log, n + 1, left, right, id_at(log, n))
    } else {
        sent_triangle(log, n + 1, left, id_at(log, n), right)
    }
}

/// Every vertex that the calls of `log` hand over from `from` on belongs
/// to a fan around `center`: it stands off the centre along its own
/// normal, `reach` times as far as the normal is long, and has the given
/// advancement. The normals themselves are turned by a sine and a cosine.
pub open spec fn all_fanned<S: Scalar>(
    log: Seq<SinkCall<S>>,
    from: int,
    center: Point<S>,
    reach: S,
    advancement: S,
) -> bool {
    forall|i: int|
        from <= i < log.len() ==> (#[trigger] log[i] matches SinkCall::Vertex {
            position,
            attributes,
            ..
        } ==> position == math::point_moved(center, math::vec_scaled(attributes.normal, reach))
            && attributes.advancement == advancement)
}

/// `log` is `before` with the calls of a round cap around `center` behind
/// it, between the vertices `left` and `right`: nothing for a line that is
/// next to no width, else the tip and the fans on either side of it,
/// whose vertices all come from `src`, stand `reach` off the centre and
/// have the advancement of the tip.
pub open spec fn round_capped<S: Scalar>(
    before: Seq<SinkCall<S>>,
    log: Seq<SinkCall<S>>,
    thin: bool,
    left: VertexId,
    right: VertexId,
    is_start: bool,
    src: VertexSource<S>,
    tip: (Point<S>, StrokeAttributes<S>),
    center: Point<S>,
    reach: S,
) -> bool {
    &&& grown(before, log)
    &&& all_from(log, before.len() as int, src)
    &&& if thin {
        log == before
    } else {
        &&& tipped(log, before.len() as int, left, right, is_start, src, tip)
        &&& all_fanned(log, before.len() as int + 2, center, reach, tip.1.advancement)
    }
}

/// The counts of vertices and triangles after one more call.
pub proof fn lemma_counts_after<S>(log: Seq<SinkCall<S>>, call: SinkCall<S>)
    ensures
        vertex_count(log.push(call)) == vertex_count(log) + if call is Vertex {
            1nat
        } else {
            0nat
        },
        triangle_count(log.push(call)) == triangle_count(log) + if call is Triangle {
            1nat
        } else {
            0nat
        },
{
    assert(log.push(call).drop_last() =~= log);
}

/// The call at `i` of `log` hands over the vertex at `position` with the
/// given attributes.
pub open spec fn sent_exactly<S>(
    log: Seq<SinkCall<S>>,
    i: int,
    position: Point<S>,
    attributes: StrokeAttributes<S>,
) -> bool {
    &&& 0 <= i < log.len()
    &&& log[i] matches SinkCall::Vertex { position: p, attributes: a, .. }
    &&& p == position
    &&& a == attributes
}

/// The call at `i` of `log` hands over a vertex on `side` that comes from
/// `src`.
pub open spec fn sent_vertex<S>(
    log: Seq<SinkCall<S>>,
    i: int,
    side: Side,
    src: VertexSource<S>,
) -> bool {
    &&& 0 <= i < log.len()
    &&& log[i] matches SinkCall::Vertex { attributes, .. }
    &&& attributes.side == side
    &&& attributes.src == src
}

/// The id with which the tessellation goes on for the vertex handed over
/// by the call at `i` of `log`.
pub open spec fn id_at<S>(log: Seq<SinkCall<S>>, i: int) -> VertexId {
    match log[i] {
        SinkCall::Vertex { reply, .. } => used_id(reply),
        _ => VertexId(0),
    }
}

/// The call at `i` of `log` hands over the triangle `a`, `b`, `c`.
pub open spec fn sent_triangle<S>(
    log: Seq<SinkCall<S>>,
    i: int,
    a: VertexId,
    b: VertexId,
    c: VertexId,
) -> bool {
    0 <= i < log.len() && log[i] == (SinkCall::<S>::Triangle { a, b, c })
}

/// Every vertex handed over by the calls of `log` from `from` on comes
/// from `src`.
pub open spec fn all_from<S>(log: Seq<SinkCall<S>>, from: int, src: VertexSource<S>) -> bool {
    forall|i: int|
        from <= i < log.len() ==> (#[trigger] log[i] matches SinkCall::Vertex { attributes, .. }
            ==> attributes.src == src)
}

/// Every vertex handed over by the calls of `log` from `from` on lies on
/// `side`.
pub open spec fn all_on<S>(log: Seq<SinkCall<S>>, from: int, side: Side) -> bool {
    forall|i: int|
        from <= i < log.len() ==> (#[trigger] log[i] matches SinkCall::Vertex { attributes, .. }
            ==> attributes.side == side)
}

/// The ids with which a tessellation has gone on for the vertices handed
/// over in `log`, and the id 0.
pub open spec fn issued<S>(log: Seq<SinkCall<S>>) -> Set<VertexId>
    decreases log.len(),
{
    if log.len() == 0 {
        Set::<VertexId>::empty().insert(VertexId(0))
    } else if log.last() is Vertex {
        issued(log.drop_last()).insert(id_at(log, log.len() - 1))
    } else {
        issued(log.drop_last())
    }
}

/// Every triangle handed over in `log` is made of ids that were issued
/// before it.
pub open spec fn triangles_issued<S>(log: Seq<SinkCall<S>>) -> bool
    decreases log.len(),
{
    log.len() == 0 || {
        &&& triangles_issued(log.drop_last())
        &&& log.last() matches SinkCall::Triangle { a, b, c } ==> {
            &&& issued(log.drop_last()).contains(a)
            &&& issued(log.drop_last()).contains(b)
            &&& issued(log.drop_last()).contains(c)
        }
    }
}

/// Every id issued in `log` is issued in `longer`.
pub open spec fn issued_kept<S>(log: Seq<SinkCall<S>>, longer: Seq<SinkCall<S>>) -> bool {
    forall|v: VertexId| #[trigger] issued(log).contains(v) ==> issued(longer).contains(v)
}

/// What is issued after one more call.
pub proof fn lemma_issued_after<S>(log: Seq<SinkCall<S>>, call: SinkCall<S>)
    ensures
        issued(log.push(call)) == if call is Vertex {
            issued(log).insert(id_at(log.push(call), log.len() as int))
        } else {
            issued(log)
        },
        issued_kept(log, log.push(call)),
        triangles_issued(log.push(call)) == (triangles_issued(log) && (call matches SinkCall::Triangle {
            a,
            b,
            c,
        } ==> issued(log).contains(a) && issued(log).contains(b) && issued(log).contains(c))),
{
    assert(log.push(call).drop_last() =~= log);
}

/// `src` names only endpoints of `given`.
pub open spec fn names_given<S>(src: VertexSource<S>, given: Set<EndpointId>) -> bool {
    match src {
        VertexSource::Endpoint { id } => given.contains(id),
        VertexSource::Edge { from, to, .. } => given.contains(from) && given.contains(to),
    }
}

/// Every vertex handed over by the calls of `log` comes from an endpoint of
/// `given`, or from an edge between two of them.
pub open spec fn sources_given<S>(log: Seq<SinkCall<S>>, given: Set<EndpointId>) -> bool {
    forall|i: int|
        0 <= i < log.len() ==> (#[trigger] log[i] matches SinkCall::Vertex { attributes, .. }
            ==> names_given(attributes.src, given))
}

/// Place in the record of the vertex at the end of segment `j` of a round
/// join whose first call is at `n`; for `j` = 0, of its first vertex.
pub open spec fn fan_vertex(n: int, j: int) -> int {
    if j <= 0 {
        n
    } else {
        n + 2 * j - 1
    }
}

/// Segment `j` of a round join whose first call is at `n`: a vertex, and
/// the triangle of the back vertex, the vertex before and this one, turned
/// so that it winds the same way on either side.
pub open spec fn fan_step<S>(
    log: Seq<SinkCall<S>>,
    n: int,
    j: int,
    front_side: Side,
    back: VertexId,
    src: VertexSource<S>,
) -> bool {
    let before = id_at(log, fan_vertex(n, j));
    let this = id_at(log, n + 2 * j + 1);
    &&& sent_vertex(log, n + 2 * j + 1, front_side, src)
    &&& if front_side is Left {
        sent_triangle(log, n + 2 * j + 2, back, before, this)
    } else {
        sent_triangle(log, n + 2 * j + 2, back, this, before)
    }
}

/// The calls of `log` from `n` on are a round join of `k` segments: a
/// first vertex and then the segments.
pub open spec fn round_fan<S>(
    log: Seq<SinkCall<S>>,
    n: int,
    k: int,
    front_side: Side,
    back: VertexId,
    src: VertexSource<S>,
) -> bool {
    &&& k >= 0
    &&& log.len() == n + 1 + 2 * k
    &&& sent_vertex(log, n, front_side, src)
    &&& forall|j: int| 0 <= j < k ==> #[trigger] fan_step(log, n, j, front_side, back, src)
}

/// The failure after one more call.
pub proof fn lemma_failure_after<S>(log: Seq<SinkCall<S>>, call: SinkCall<S>)
    ensures
        first_failure(log.push(call)) == if first_failure(log) is Some {
            first_failure(log)
        } else {
            failure(call)
        },
{
    assert(log.push(call).drop_last() =~= log);
}

/// A record has grown from itself, by nothing.
pub proof fn lemma_grown_none<S>(log: Seq<SinkCall<S>>)
    ensures
        grown(log, log),
{
    assert(log.subrange(0, log.len() as int) =~= log);
}

/// Growth of a record goes on: what has grown from `a` to `b` and from `b`
/// to `c` has grown from `a` to `c`.
pub proof fn lemma_grown_on<S>(a: Seq<SinkCall<S>>, b: Seq<SinkCall<S>>, c: Seq<SinkCall<S>>)
    requires
        grown(a, b),
        grown(b, c),
    ensures
        grown(a, c),
        forall|i: int| 0 <= i < b.len() ==> b[i] == c[i],
{
    assert forall|i: int| 0 <= i < b.len() implies b[i] == c[i] by {
        assert(b[i] == c.subrange(0, b.len() as int)[i]);
    }
    assert forall|i: int| 0 <= i < a.len() implies a[i] == c[i] by {
        assert(a[i] == b.subrange(0, a.len() as int)[i]);
    }
    assert(c.subrange(0, a.len() as int) =~= a);
}

/// What the arithmetic decides of a join.
pub struct JoinShape {
    /// The side away from which the path turns.
    pub front_side: Side,
    /// Whether the back has a vertex for each edge, and if so, which edge
    /// is the short one: the one that leaves, for `Before`, or the one that
    /// arrives, for `After`.
    pub order: Option<Order>,
    /// The shape of the front.
    pub join: LineJoin,
    /// Number of segments of a round front.
    pub segments: nat,
    /// Whether the point of the join lies within an edge.
    pub within_edge: bool,
}

/// Number of calls for the back of a join.
pub open spec fn back_calls(shape: JoinShape) -> int {
    if shape.order is None {
        1
    } else {
        2
    }
}

/// Number of calls for the front of a join.
pub open spec fn front_calls(shape: JoinShape) -> int {
    match shape.join {
        LineJoin::Miter => if shape.order is None {
            1
        } else {
            3
        },
        LineJoin::MiterClip => 3,
        LineJoin::Bevel => 3,
        LineJoin::Round => 1 + 2 * (shape.segments as int),
    }
}

/// The vertex on the back of the join at `n` for the edge that arrives.
pub open spec fn back_start<S>(log: Seq<SinkCall<S>>, n: int, shape: JoinShape) -> VertexId {
    match shape.order {
        Some(Order::After) => id_at(log, n + 1),
        _ => id_at(log, n),
    }
}

/// The vertex on the back of the join at `n` for the edge that leaves.
pub open spec fn back_end<S>(log: Seq<SinkCall<S>>, n: int, shape: JoinShape) -> VertexId {
    match shape.order {
        Some(Order::Before) => id_at(log, n + 1),
        _ => id_at(log, n),
    }
}

/// The vertex for the edge that arrives, on a front whose first call is at
/// `m`.
pub open spec fn front_start<S>(log: Seq<SinkCall<S>>, m: int, shape: JoinShape) -> VertexId {
    match shape.join {
        LineJoin::Miter => match shape.order {
            Some(Order::After) => id_at(log, m + 1),
            _ => id_at(log, m),
        },
        _ => id_at(log, m),
    }
}

/// The vertex for the edge that leaves, on a front whose first call is at
/// `m`.
pub open spec fn front_end<S>(log: Seq<SinkCall<S>>, m: int, shape: JoinShape) -> VertexId {
    match shape.join {
        LineJoin::Miter => match shape.order {
            Some(Order::Before) => id_at(log, m + 1),
            _ => id_at(log, m),
        },
        LineJoin::Round => id_at(log, fan_vertex(m, shape.segments as int)),
        _ => id_at(log, m + 1),
    }
}

/// The vertices of the join at `n` at which the edge that arrives ends,
/// left and right, and those at which the edge that leaves starts, left
/// and right.
pub open spec fn join_ids<S>(log: Seq<SinkCall<S>>, n: int, shape: JoinShape) -> (
    VertexId,
    VertexId,
    VertexId,
    VertexId,
) {
    let m = n + back_calls(shape);
    if shape.front_side is Left {
        (front_start(log, m, shape), back_start(log, n, shape), front_end(log, m, shape), back_end(
            log,
            n,
            shape,
        ))
    } else {
        (back_start(log, n, shape), front_start(log, m, shape), back_end(log, n, shape), front_end(
            log,
            m,
            shape,
        ))
    }
}

/// The calls of `log` from `n` on begin with the back of a join: one
/// vertex, or two where the back is split, on the side that is not the
/// front.
pub open spec fn back_at<S>(
    log: Seq<SinkCall<S>>,
    n: int,
    shape: JoinShape,
    src: VertexSource<S>,
) -> bool {
    &&& log.len() >= n + back_calls(shape)
    &&& sent_vertex(log, n, shape.front_side.flipped(), src)
    &&& shape.order is Some ==> sent_vertex(log, n + 1, shape.front_side.flipped(), src)
}

/// The calls of `log` from `m` on begin with the front of a join, whose
/// triangles turn about the vertex `pivot`: for a miter one vertex, or two
/// and their triangle where the back is split; for a bevel and for a
/// clipped miter two vertices and their triangle; for a round front a
/// vertex and then a vertex and a triangle for each segment. Every
/// triangle is turned so that it winds the same way whichever side is the
/// front.
pub open spec fn front_at<S>(
    log: Seq<SinkCall<S>>,
    m: int,
    shape: JoinShape,
    pivot: VertexId,
    src: VertexSource<S>,
) -> bool {
    let front = shape.front_side;
    &&& log.len() >= m + front_calls(shape)
    &&& sent_vertex(log, m, front, src)
    &&& match shape.join {
        LineJoin::Miter => shape.order is Some ==> {
            &&& sent_vertex(log, m + 1, front, src)
            &&& sent_triangle(log, m + 2, id_at(log, m + 1), id_at(log, m), pivot)
        },
        LineJoin::Bevel => {
            &&& sent_vertex(log, m + 1, front, src)
            &&& if front is Left {
                sent_triangle(log, m + 2, id_at(log, m), id_at(log, m + 1), pivot)
            } else {
                sent_triangle(log, m + 2, id_at(log, m + 1), id_at(log, m), pivot)
            }
        },
        LineJoin::MiterClip => {
            &&& sent_vertex(log, m + 1, front, src)
            &&& if front is Left {
                sent_triangle(log, m + 2, pivot, id_at(log, m), id_at(log, m + 1))
            } else {
                sent_triangle(log, m + 2, pivot, id_at(log, m + 1), id_at(log, m))
            }
        },
        LineJoin::Round => forall|j: int|
            0 <= j < shape.segments ==> #[trigger] fan_step(log, m, j, front, pivot, src),
    }
}

/// `log` is `before` with the calls of a join of the given shape behind
/// it, whose vertices come from `src`.
///
/// First comes the back, then the front, whose triangles turn about the
/// first vertex of the back. Last, where the two vertices of a split back
/// have different ids, comes the triangle that fills the back.
pub open spec fn joined<S>(
    before: Seq<SinkCall<S>>,
    log: Seq<SinkCall<S>>,
    shape: JoinShape,
    src: VertexSource<S>,
) -> bool {
    let n = before.len() as int;
    let m = n + back_calls(shape);
    let e = m + front_calls(shape);
    let filler = if shape.order matches Some(Order::After) {
        front_start(log, m, shape)
    } else {
        front_end(log, m, shape)
    };
    &&& grown(before, log)
    &&& all_from(log, n, src)
    &&& back_at(log, n, shape, src)
    &&& front_at(log, m, shape, id_at(log, n), src)
    &&& if back_end(log, n, shape) != back_start(log, n, shape) {
        &&& log.len() == e + 1
        &&& if shape.front_side is Left {
            sent_triangle(log, e, back_end(log, n, shape), filler, back_start(log, n, shape))
        } else {
            sent_triangle(log, e, back_end(log, n, shape), back_start(log, n, shape), filler)
        }
    } else {
        log.len() == e
    }
}

/// The vertices of a join are the same in every record that goes on from
/// the record of the join.
pub proof fn lemma_ids_kept<S>(
    log: Seq<SinkCall<S>>,
    longer: Seq<SinkCall<S>>,
    n: int,
    shape: JoinShape,
    src: VertexSource<S>,
)
    requires
        0 <= n,
        grown(log, longer),
        log.len() >= n + back_calls(shape) + front_calls(shape),
    ensures
        join_ids(longer, n, shape) == join_ids(log, n, shape),
{
    assert forall|i: int| 0 <= i < log.len() implies log[i] == longer[i] by {
        assert(log[i] == longer.subrange(0, log.len() as int)[i]);
    }
}

/// The back of a join stays what it is when further calls follow.
pub proof fn lemma_back_kept<S>(
    log: Seq<SinkCall<S>>,
    longer: Seq<SinkCall<S>>,
    n: int,
    shape: JoinShape,
    src: VertexSource<S>,
)
    requires
        0 <= n,
        grown(log, longer),
        back_at(log, n, shape, src),
    ensures
        back_at(longer, n, shape, src),
        back_start(longer, n, shape) == back_start(log, n, shape),
        back_end(longer, n, shape) == back_end(log, n, shape),
        id_at(longer, n) == id_at(log, n),
{
    assert forall|i: int| 0 <= i < log.len() implies log[i] == longer[i] by {
        assert(log[i] == longer.subrange(0, log.len() as int)[i]);
    }
}

/// The front of a join stays what it is when further calls follow.
pub proof fn lemma_front_kept<S>(
    log: Seq<SinkCall<S>>,
    longer: Seq<SinkCall<S>>,
    m: int,
    shape: JoinShape,
    pivot: VertexId,
    src: VertexSource<S>,
)
    requires
        0 <= m,
        grown(log, longer),
        front_at(log, m, shape, pivot, src),
    ensures
        front_at(longer, m, shape, pivot, src),
        front_start(longer, m, shape) == front_start(log, m, shape),
        front_end(longer, m, shape) == front_end(log, m, shape),
{
    assert forall|i: int| 0 <= i < log.len() implies log[i] == longer[i] by {
        assert(log[i] == longer.subrange(0, log.len() as int)[i]);
    }
    if shape.join is Round {
        assert forall|j: int| 0 <= j < shape.segments implies #[trigger] fan_step(
            longer,
            m,
            j,
            shape.front_side,
            pivot,
            src,
        ) by {
            assert(fan_step(log, m, j, shape.front_side, pivot, src));
        }
    }
}

/// Where a vertex goes that belongs to `position` on the path and has the
/// given normal: to `position`, or, where a line width is applied, half
/// that width off it along the normal.
pub open spec fn offset<S: Scalar>(position: Point<S>, normal: Vector<S>, width: Option<S>) -> Point<
    S,
> {
    match width {
        Some(w) => math::point_moved(
            position,
            math::vec_divided(math::vec_scaled(normal, w), S::ratio_of(2, 1)),
        ),
        None => position,
    }
}

/// The numbers of a join: the point of the path at which it stands, the
/// length of the path up to it, the unit tangents of the edge that arrives
/// and of the edge that leaves, the normal of the join, and the line width
/// where one is applied.
pub struct JoinGeometry<S> {
    pub at: Point<S>,
    pub advancement: S,
    pub prev_tangent: Vector<S>,
    pub next_tangent: Vector<S>,
    pub normal: Vector<S>,
    pub width: Option<S>,
    pub line_width: S,
    pub miter_limit: S,
}

/// 1 where the front is the left, else -1.
pub open spec fn facing<S: Scalar>(front: Side) -> S {
    if front is Left {
        S::ratio_of(1, 1)
    } else {
        S::ratio_of(-1i32, 1)
    }
}

/// The normals of the two vertices of a clipped miter, seen from the
/// left: where the line across the normal of the join, at the distance of
/// the miter limit in line widths, cuts the line from the normal of each
/// edge to the tip of the miter. Where it cuts none, the normal of the
/// edge stands for the point.
pub open spec fn clip_normals<S: Scalar>(
    prev_normal: Vector<S>,
    next_normal: Vector<S>,
    normal: Vector<S>,
    miter_limit: S,
    line_width: S,
) -> (Vector<S>, Vector<S>) {
    let limit = math::vec_scaled(math::vec_normalized(normal), miter_limit.product(line_width));
    let from = Point { x: limit.x.difference(limit.y), y: limit.y.sum(limit.x) };
    let to = Point { x: limit.x.sum(limit.y), y: limit.y.difference(limit.x) };
    let p = Point { x: prev_normal.x, y: prev_normal.y };
    let q = Point { x: next_normal.x, y: next_normal.y };
    let tip = Point { x: normal.x, y: normal.y };
    let i1 = match math::segment_crossing(p, tip, from, to) {
        Some(c) => c,
        None => p,
    };
    let i2 = match math::segment_crossing(q, tip, from, to) {
        Some(c) => c,
        None => q,
    };
    (Vector { x: i1.x, y: i1.y }, Vector { x: i2.x, y: i2.y })
}

/// The tangent `t`, turned a quarter towards the front.
pub open spec fn turned<S: Scalar>(t: Vector<S>, front: Side) -> Vector<S> {
    match front {
        Side::Right => Vector { x: t.y, y: t.x.opposite() },
        Side::Left => Vector { x: t.y.opposite(), y: t.x },
    }
}

/// The normal of an edge along the unit tangent `t`, on the front.
pub open spec fn edge_normal<S: Scalar>(t: Vector<S>, front: Side) -> Vector<S> {
    math::vec_scaled(math::vec_tangent(t), facing(front))
}

/// The normals of the two vertices of a clipped miter of the join with the
/// geometry `g`, on the front.
pub open spec fn clipped_normals<S: Scalar>(g: JoinGeometry<S>, front: Side) -> (
    Vector<S>,
    Vector<S>,
) {
    let seen = clip_normals(
        math::vec_tangent(g.prev_tangent),
        math::vec_tangent(g.next_tangent),
        g.normal,
        g.miter_limit,
        g.line_width,
    );
    (math::vec_scaled(seen.0, facing(front)), math::vec_scaled(seen.1, facing(front)))
}

/// The normal of the join, turned to the front.
pub open spec fn front_normal<S: Scalar>(g: JoinGeometry<S>, front: Side) -> Vector<S> {
    if front is Left {
        g.normal
    } else {
        math::vec_negated(g.normal)
    }
}

/// The normal of the first vertex on the back of a join: opposite the
/// front normal where one vertex serves both edges. Where the back is
/// split, each vertex has the normal of its own edge, on the back, and the
/// first is that of the edge that arrives for `Before`, of the edge that
/// leaves for `After`. It is of the length of a tangent, never nothing.
pub open spec fn back_normal<S: Scalar>(
    prev_tangent: Vector<S>,
    next_tangent: Vector<S>,
    front: Side,
    front_normal: Vector<S>,
    order: Option<Order>,
) -> Vector<S> {
    match order {
        None => math::vec_negated(front_normal),
        Some(o) => math::vec_negated(
            turned(
                if o is Before {
                    prev_tangent
                } else {
                    next_tangent
                },
                front,
            ),
        ),
    }
}

/// The normal of the second vertex on a split back: that of the short
/// edge, on the back.
pub open spec fn split_normal<S: Scalar>(
    prev_tangent: Vector<S>,
    next_tangent: Vector<S>,
    front: Side,
    order: Order,
) -> Vector<S> {
    let t2 = if order is Before {
        next_tangent
    } else {
        math::vec_negated(prev_tangent)
    };
    let sign = if order is After {
        S::ratio_of(-1i32, 1)
    } else {
        S::ratio_of(1, 1)
    };
    math::vec_negated(math::vec_scaled(turned(t2, front), sign))
}

/// The normal of the second vertex of a miter over a split back: that of
/// the short edge, on the front.
pub open spec fn miter_side_normal<S: Scalar>(
    prev_tangent: Vector<S>,
    next_tangent: Vector<S>,
    front: Side,
    order: Order,
) -> Vector<S> {
    turned(
        if order is Before {
            next_tangent
        } else {
            prev_tangent
        },
        front,
    )
}

/// The call at `i` of `log` hands over a vertex of the join with the
/// geometry `g`: it stands where the join stands, off the path by its
/// normal, at the length of the path up to the join.
pub open spec fn vertex_set<S: Scalar>(
    log: Seq<SinkCall<S>>,
    i: int,
    g: JoinGeometry<S>,
    normal: Vector<S>,
    side: Side,
    src: VertexSource<S>,
) -> bool {
    sent_exactly(
        log,
        i,
        offset(g.at, normal, g.width),
        (StrokeAttributes { normal, advancement: g.advancement, side, src }),
    )
}

/// The vertices on the back of the join at `n` are where the geometry `g`
/// puts them.
pub open spec fn back_set<S: Scalar>(
    log: Seq<SinkCall<S>>,
    n: int,
    front: Side,
    order: Option<Order>,
    g: JoinGeometry<S>,
    src: VertexSource<S>,
) -> bool {
    &&& vertex_set(
        log,
        n,
        g,
        back_normal(g.prev_tangent, g.next_tangent, front, front_normal(g, front), order),
        front.flipped(),
        src,
    )
    &&& order matches Some(o) ==> vertex_set(
        log,
        n + 1,
        g,
        split_normal(g.prev_tangent, g.next_tangent, front, o),
        front.flipped(),
        src,
    )
}

/// The normal of the vertex that the call at `i` of `log` hands over; of
/// another call, no length at all.
pub open spec fn normal_at<S: Scalar>(log: Seq<SinkCall<S>>, i: int) -> Vector<S> {
    match log[i] {
        SinkCall::Vertex { attributes, .. } => attributes.normal,
        _ => Vector { x: S::ratio_of(0, 1), y: S::ratio_of(0, 1) },
    }
}

/// The call at `i` of `log` hands over a vertex for the point `at` of the
/// path, whatever its normal is: it stands off the path by its own normal,
/// half the width where one is applied, and has the given advancement.
pub open spec fn stands_at<S: Scalar>(
    log: Seq<SinkCall<S>>,
    i: int,
    at: Point<S>,
    width: Option<S>,
    advancement: S,
) -> bool {
    0 <= i < log.len() && (log[i] matches SinkCall::Vertex { position, attributes, .. }
        && position == offset(at, attributes.normal, width) && attributes.advancement
        == advancement)
}

/// The vertex of segment `j` of a round front whose first call is at `m`
/// stands at the join with the geometry `g`, at the length of the path up
/// to the join.
pub open spec fn fan_set<S: Scalar>(log: Seq<SinkCall<S>>, m: int, j: int, g: JoinGeometry<S>) -> bool {
    stands_at(log, m + 2 * j + 1, g.at, g.width, g.advancement)
}

/// The normal that a join leaves behind for the edge that leaves, seen
/// from the left, where the first call of its front is at `m`: the normal
/// of the join behind a miter, clipped or not; the normal of the edge that
/// leaves behind a bevel; behind a round front the normal of its last
/// vertex, turned back from the front to the left.
pub open spec fn normal_behind<S: Scalar>(
    log: Seq<SinkCall<S>>,
    m: int,
    shape: JoinShape,
    g: JoinGeometry<S>,
) -> Vector<S> {
    match shape.join {
        LineJoin::Miter => g.normal,
        LineJoin::MiterClip => g.normal,
        LineJoin::Bevel => math::vec_tangent(g.next_tangent),
        LineJoin::Round => math::vec_scaled(
            normal_at(log, fan_vertex(m, shape.segments as int)),
            facing(shape.front_side),
        ),
    }
}

/// The vertices on the front of a join, whose first call is at `m`, are
/// where the geometry `g` puts them: the tip of a miter off the path by
/// the normal of the join, with the normal of the short edge beside it
/// where the back is split; the two vertices of a bevel by the normals of
/// the two edges; those of a clipped miter by `clipped_normals`; the first
/// vertex of a round front by the normal of the edge that arrives. The
/// later vertices of a round front are turned by a sine and a cosine: each
/// stands at the join, off the path by the normal that it has.
pub open spec fn front_set<S: Scalar>(
    log: Seq<SinkCall<S>>,
    m: int,
    shape: JoinShape,
    g: JoinGeometry<S>,
    src: VertexSource<S>,
) -> bool {
    let front = shape.front_side;
    match shape.join {
        LineJoin::Miter => {
            &&& vertex_set(log, m, g, front_normal(g, front), front, src)
            &&& shape.order matches Some(o) ==> vertex_set(
                log,
                m + 1,
                g,
                miter_side_normal(g.prev_tangent, g.next_tangent, front, o),
                front,
                src,
            )
        },
        LineJoin::Bevel => {
            &&& vertex_set(log, m, g, edge_normal(g.prev_tangent, front), front, src)
            &&& vertex_set(log, m + 1, g, edge_normal(g.next_tangent, front), front, src)
        },
        LineJoin::MiterClip => {
            &&& vertex_set(log, m, g, clipped_normals(g, front).0, front, src)
            &&& vertex_set(log, m + 1, g, clipped_normals(g, front).1, front, src)
        },
        LineJoin::Round => {
            &&& vertex_set(log, m, g, edge_normal(g.prev_tangent, front), front, src)
            &&& forall|j: int| 0 <= j < shape.segments ==> #[trigger] fan_set(log, m, j, g)
        },
    }
}

/// The vertices of the join at `n` are where the geometry `g` puts them.
pub open spec fn join_set<S: Scalar>(
    log: Seq<SinkCall<S>>,
    n: int,
    shape: JoinShape,
    g: JoinGeometry<S>,
    src: VertexSource<S>,
) -> bool {
    &&& back_set(log, n, shape.front_side, shape.order, g, src)
    &&& front_set(log, n + back_calls(shape), shape, g, src)
}

/// Where the vertices of a join are stays what it is when further calls
/// follow.
pub proof fn lemma_set_kept<S: Scalar>(
    log: Seq<SinkCall<S>>,
    longer: Seq<SinkCall<S>>,
    n: int,
    shape: JoinShape,
    g: JoinGeometry<S>,
    src: VertexSource<S>,
)
    requires
        0 <= n,
        grown(log, longer),
    ensures
        back_set(log, n, shape.front_side, shape.order, g, src) ==> back_set(
            longer,
            n,
            shape.front_side,
            shape.order,
            g,
            src,
        ),
        front_set(log, n + back_calls(shape), shape, g, src) ==> front_set(
            longer,
            n + back_calls(shape),
            shape,
            g,
            src,
        ),
{
    assert forall|i: int| 0 <= i < log.len() implies log[i] == longer[i] by {
        assert(log[i] == longer.subrange(0, log.len() as int)[i]);
    }
    let m = n + back_calls(shape);
    if shape.join is Round && front_set(log, m, shape, g, src) {
        assert forall|j: int| 0 <= j < shape.segments implies #[trigger] fan_set(
            longer,
            m,
            j,
            g,
        ) by {
            assert(fan_set(log, m, j, g));
        }
    }
}

/// The calls at `i` and behind it in `log` are the two triangles of an
/// edge. They connect the vertices `left` and `right` at which the edge
/// starts to the vertices `far_left` and `far_right` at which it ends, and
/// are turned by the front side of the join at the start so that both wind
/// the same way.
pub open spec fn edge_pair<S>(
    log: Seq<SinkCall<S>>,
    i: int,
    front: Side,
    left: VertexId,
    right: VertexId,
    far_left: VertexId,
    far_right: VertexId,
) -> bool {
    if front is Left {
        &&& sent_triangle(log, i, right, left, far_right)
        &&& sent_triangle(log, i + 1, left, far_left, far_right)
    } else {
        &&& sent_triangle(log, i, right, left, far_left)
        &&& sent_triangle(log, i + 1, right, far_left, far_right)
    }
}

/// What finishing a stroke sends for a sub-path that has a single point, a point
/// that comes from `endpoint`: nothing where it has no point at all or
/// the start cap is a butt; for a square cap four vertices, right,
/// left, left and right of the path, and two triangles; for a round cap
/// a vertex on each side and the caps between them. Every vertex comes
/// from `endpoint`.
pub open spec fn single_point_cap<S>(
    before: Seq<SinkCall<S>>,
    log: Seq<SinkCall<S>>,
    after_move: bool,
    start_cap: LineCap,
    endpoint: EndpointId,
) -> bool {
    let n = before.len() as int;
    let src = VertexSource::Endpoint { id: endpoint };
    if !after_move {
        log == before
    } else {
        match start_cap {
            LineCap::Butt => log == before,
            LineCap::Square => {
                &&& grown_by(before, log, 6)
                &&& all_from(log, n, src)
                &&& sent_vertex(log, n, Side::Right, src)
                &&& sent_vertex(log, n + 1, Side::Left, src)
                &&& sent_vertex(log, n + 2, Side::Left, src)
                &&& sent_vertex(log, n + 3, Side::Right, src)
                &&& sent_triangle(
                    log,
                    n + 4,
                    id_at(log, n),
                    id_at(log, n + 1),
                    id_at(log, n + 2),
                )
                &&& sent_triangle(
                    log,
                    n + 5,
                    id_at(log, n),
                    id_at(log, n + 2),
                    id_at(log, n + 3),
                )
            },
            LineCap::Round => {
                &&& grown(before, log)
                &&& all_from(log, n, src)
                &&& sent_vertex(log, n, Side::Left, src)
                &&& sent_vertex(log, n + 1, Side::Right, src)
            },
        }
    }
}

/// The counts of a record that has grown are no less than they were, and
/// more by one at least where the call at `i`, behind the old end, hands
/// over a vertex or a triangle.
pub proof fn lemma_counts_grown<S>(log: Seq<SinkCall<S>>, longer: Seq<SinkCall<S>>, i: int)
    requires
        grown(log, longer),
    ensures
        vertex_count(longer) >= vertex_count(log),
        triangle_count(longer) >= triangle_count(log),
        log.len() <= i < longer.len() && longer[i] is Vertex ==> vertex_count(longer)
            >= vertex_count(log) + 1,
        log.len() <= i < longer.len() && longer[i] is Triangle ==> triangle_count(longer)
            >= triangle_count(log) + 1,
    decreases longer.len(),
{
    if longer.len() > log.len() {
        let shorter = longer.drop_last();
        assert(shorter.subrange(0, log.len() as int) =~= longer.subrange(0, log.len() as int));
        assert forall|j: int| log.len() <= j < shorter.len() implies (#[trigger] shorter[j]
            is Vertex || shorter[j] is Triangle) by {
            assert(shorter[j] == longer[j]);
        }
        lemma_counts_grown(log, shorter, i);
    } else {
        assert(longer =~= longer.subrange(0, log.len() as int));
    }
}

/// The counts of vertices and triangles after the cap of a sub-path that
/// has a single point: a butt cap adds nothing, a square cap adds six
/// calls, four of them vertices and two of them triangles.
pub proof fn lemma_single_point_counts<S>(
    before: Seq<SinkCall<S>>,
    log: Seq<SinkCall<S>>,
    after_move: bool,
    start_cap: LineCap,
)
    requires
        exists|endpoint: EndpointId|
            single_point_cap(before, log, after_move, start_cap, endpoint),
    ensures
        !after_move || start_cap is Butt ==> log == before,
        after_move && start_cap is Square ==> {
            &&& log.len() == before.len() + 6
            &&& vertex_count(log) == vertex_count(before) + 4
            &&& triangle_count(log) == triangle_count(before) + 2
        },
{
    if after_move && start_cap is Square {
        let l5 = log.drop_last();
        let l4 = l5.drop_last();
        let l3 = l4.drop_last();
        let l2 = l3.drop_last();
        let l1 = l2.drop_last();
        let l0 = l1.drop_last();
        assert(l0 =~= before);
        assert(vertex_count(l1) == vertex_count(l0) + 1);
        assert(vertex_count(l2) == vertex_count(l1) + 1);
        assert(vertex_count(l3) == vertex_count(l2) + 1);
        assert(vertex_count(l4) == vertex_count(l3) + 1);
        assert(vertex_count(l5) == vertex_count(l4));
        assert(vertex_count(log) == vertex_count(l5));
        assert(triangle_count(l1) == triangle_count(l0));
        assert(triangle_count(l2) == triangle_count(l1));
        assert(triangle_count(l3) == triangle_count(l2));
        assert(triangle_count(l4) == triangle_count(l3));
        assert(triangle_count(l5) == triangle_count(l4) + 1);
        assert(triangle_count(log) == triangle_count(l5) + 1);
    }
}

} // verus!
