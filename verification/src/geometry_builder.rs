//! The sink that receives the vertices and triangles of a tessellation, and
//! what is said to it of each vertex.

use vstd::prelude::*;
use crate::ids::EndpointId;
use crate::math::{Point, Vector};
use crate::record::{Calls, SinkCall};

verus! {

/// Identifies a vertex in a sink. The sink chooses it.
#[derive(Clone, Copy, Debug, PartialEq, Eq, Structural, Hash)]
pub struct VertexId(pub u32);

/// Number of vertices and indices that a tessellation has produced.
#[derive(Clone, Copy, Debug, PartialEq, Eq, Structural, Hash)]
pub struct Count {
    pub vertices: u32,
    pub indices: u32,
}

/// Why a sink could not take a vertex.
#[derive(Clone, Copy, Debug, PartialEq, Eq, Structural, Hash)]
pub enum GeometryBuilderError {
    InvalidVertex,
    TooManyVertices,
}

/// Why a tessellation failed.
#[derive(Clone, Copy, Debug, PartialEq, Eq, Structural, Hash)]
pub enum TessellationError {
    InvalidVertex,
    TooManyVertices,
}

/// The result of a tessellation.
pub type TessellationResult = Result<Count, TessellationError>;

impl TessellationError {
    /// The failure of the tessellation that the failure `e` of its sink
    /// causes.
    pub open spec fn of(e: GeometryBuilderError) -> TessellationError {
        match e {
            GeometryBuilderError::InvalidVertex => TessellationError::InvalidVertex,
            GeometryBuilderError::TooManyVertices => TessellationError::TooManyVertices,
        }
    }

    pub fn from_builder_error(e: GeometryBuilderError) -> (r: TessellationError)
        ensures
            r == Self::of(e),
    {
        match e {
            GeometryBuilderError::InvalidVertex => TessellationError::InvalidVertex,
            GeometryBuilderError::TooManyVertices => TessellationError::TooManyVertices,
        }
    }
}

/// Left or right of the path, seen in the direction of the path.
#[derive(Clone, Copy, Debug, PartialEq, Eq, Structural, Hash)]
pub enum Side {
    Left,
    Right,
}

impl Side {
    pub open spec fn flipped(self) -> Side {
        match self {
            Side::Left => Side::Right,
            Side::Right => Side::Left,
        }
    }

    pub fn opposite(self) -> (r: Side)
        ensures
            r == self.flipped(),
    {
        match self {
            Side::Left => Side::Right,
            Side::Right => Side::Left,
        }
    }

    pub fn is_left(self) -> (r: bool)
        ensures
            r == (self is Left),
    {
        match self {
            Side::Left => true,
            Side::Right => false,
        }
    }

    pub fn is_right(self) -> (r: bool)
        ensures
            r == (self is Right),
    {
        match self {
            Side::Left => false,
            Side::Right => true,
        }
    }
}

/// Before or after.
#[derive(Clone, Copy, Debug, PartialEq, Eq, Structural, Hash)]
pub enum Order {
    Before,
    After,
}

impl Order {
    pub fn is_before(self) -> (r: bool)
        ensures
            r == (self is Before),
    {
        match self {
            Order::Before => true,
            Order::After => false,
        }
    }

    pub fn is_after(self) -> (r: bool)
        ensures
            r == (self is After),
    {
        match self {
            Order::Before => false,
            Order::After => true,
        }
    }
}

/// Where a vertex comes from: an endpoint of the path, or a point on the
/// edge between two endpoints, at parameter `t` of that edge.
#[derive(Clone, Copy, Debug, PartialEq)]
pub enum VertexSource<S> {
    Endpoint { id: EndpointId },
    Edge { from: EndpointId, to: EndpointId, t: S },
}

/// What a stroke tessellation says of a vertex besides its position.
#[derive(Clone, Copy, Debug, PartialEq)]
pub struct StrokeAttributes<S> {
    pub normal: Vector<S>,
    pub advancement: S,
    pub side: Side,
    pub src: VertexSource<S>,
}

impl<S: Copy> StrokeAttributes<S> {
    /// The direction in which the vertex is moved off the path.
    pub fn normal(&self) -> (r: Vector<S>)
        ensures
            r == self.normal,
    {
        self.normal
    }

    /// The length of the path from its start to the vertex.
    pub fn advancement(&self) -> (r: S)
        ensures
            r == self.advancement,
    {
        self.advancement
    }

    /// The side of the path on which the vertex lies.
    pub fn side(&self) -> (r: Side)
        ensures
            r == self.side,
    {
        self.side
    }

    /// Where the vertex comes from.
    pub fn source(&self) -> (r: VertexSource<S>)
        ensures
            r == self.src,
    {
        self.src
    }
}

/// A sink for the triangles of a tessellation.
///
/// A tessellation calls `begin_geometry` once, then adds vertices and
/// triangles, then calls `end_geometry` once, or `abort_geometry` in its
/// place if it failed. After `abort_geometry` the sink holds nothing of what
/// it was given since `begin_geometry`.
///
/// A sink is spoken of by the calls that it has received. Nothing is said
/// of what it answers or of what it does with them.
pub trait GeometryBuilder<S> {
    /// The calls that this sink has received, in order, each with what the
    /// sink answered.
    spec fn received(&self) -> Calls<S>;

    fn begin_geometry(&mut self)
        ensures
            final(self).received() == old(self).received().push(SinkCall::BeginGeometry),
    ;

    fn end_geometry(&mut self) -> (count: Count)
        ensures
            final(self).received() == old(self).received().push(SinkCall::EndGeometry { count }),
    ;

    /// Takes the triangle of the vertices `a`, `b` and `c`. Each is an id
    /// that this sink has returned for a vertex, or the id 0, which stands
    /// for a vertex that it has refused.
    fn add_triangle(&mut self, a: VertexId, b: VertexId, c: VertexId)
        ensures
            final(self).received() == old(self).received().push(SinkCall::Triangle { a, b, c }),
    ;

    fn abort_geometry(&mut self)
        ensures
            final(self).received() == old(self).received().push(SinkCall::AbortGeometry),
    ;
}

/// A sink for the vertices and triangles of a stroke tessellation.
pub trait StrokeGeometryBuilder<S>: GeometryBuilder<S> {
    /// Takes a vertex and returns the id by which triangles refer to it, or
    /// says why it cannot take it.
    fn add_stroke_vertex(&mut self, position: Point<S>, attributes: StrokeAttributes<S>) -> (reply:
        Result<VertexId, GeometryBuilderError>)
        ensures
            final(self).received() == old(self).received().push(
                SinkCall::Vertex { position, attributes, reply },
            ),
    ;
}

} // verus!
