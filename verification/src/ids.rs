//! Identifiers of endpoints, control points and path events.

use vstd::prelude::*;

verus! {

/// Index of an endpoint in the endpoint store of a path.
#[derive(Clone, Copy, Debug, PartialEq, Eq, Structural, Hash)]
pub struct EndpointId(pub u32);

/// Index of a control point in the control point store of a path.
#[derive(Clone, Copy, Debug, PartialEq, Eq, Structural, Hash)]
pub struct CtrlPointId(pub u32);

/// Offset of the tag cell of an event in a command stream.
///
/// This is a position in the stream, not the number of the event.
#[derive(Clone, Copy, Debug, PartialEq, Eq, Structural, Hash)]
pub struct PathEventId(pub u32);

impl EndpointId {
    /// The id that stands for no endpoint.
    pub fn invalid() -> (r: EndpointId)
        ensures
            r.0 == u32::MAX,
    {
        EndpointId(u32::MAX)
    }

    pub fn to_usize(self) -> (r: usize)
        ensures
            r == self.0,
    {
        self.0 as usize
    }

    pub fn from_usize(val: usize) -> (r: EndpointId)
        requires
            val <= u32::MAX,
        ensures
            r.0 == val,
    {
        EndpointId(val as u32)
    }
}

impl CtrlPointId {
    /// The id that stands for no control point.
    pub fn invalid() -> (r: CtrlPointId)
        ensures
            r.0 == u32::MAX,
    {
        CtrlPointId(u32::MAX)
    }

    pub fn to_usize(self) -> (r: usize)
        ensures
            r == self.0,
    {
        self.0 as usize
    }

    pub fn from_usize(val: usize) -> (r: CtrlPointId)
        requires
            val <= u32::MAX,
        ensures
            r.0 == val,
    {
        CtrlPointId(val as u32)
    }
}

impl PathEventId {
    /// The id that stands for no event.
    pub fn invalid() -> (r: PathEventId)
        ensures
            r.0 == u32::MAX,
    {
        PathEventId(u32::MAX)
    }

    pub fn to_usize(self) -> (r: usize)
        ensures
            r == self.0,
    {
        self.0 as usize
    }
}

} // verus!
