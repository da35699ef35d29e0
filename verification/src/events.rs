//! The events of a path.

use vstd::prelude::*;
use crate::ids::{CtrlPointId, EndpointId, PathEventId};

verus! {

/// One step of a path: the start of a sub-path, an edge, or the end of a
/// sub-path. `Edge` identifies the event, `Endpoint` and `CtrlPoint` say how
/// the points are given.
#[derive(Copy, Clone, Debug, PartialEq, Eq, Hash)]
pub enum Event<Edge, Endpoint, CtrlPoint> {
    Begin { at: Endpoint },
    Line { edge: Edge, from: Endpoint, to: Endpoint },
    Quadratic { edge: Edge, from: Endpoint, ctrl: CtrlPoint, to: Endpoint },
    Cubic { edge: Edge, from: Endpoint, ctrl1: CtrlPoint, ctrl2: CtrlPoint, to: Endpoint },
    End { edge: Edge, last: Endpoint, first: Endpoint, close: bool },
}

/// A path event whose points are given by id. `edge` is the offset of the
/// event in its command stream.
pub type IdEvent = Event<PathEventId, EndpointId, CtrlPointId>;

/// A path event whose points are given by value or by reference.
#[derive(Copy, Clone, Debug, PartialEq, Eq, Hash)]
pub enum PathEvent<Endpoint, CtrlPoint> {
    Begin { at: Endpoint },
    Line { from: Endpoint, to: Endpoint },
    Quadratic { from: Endpoint, ctrl: CtrlPoint, to: Endpoint },
    Cubic { from: Endpoint, ctrl1: CtrlPoint, ctrl2: CtrlPoint, to: Endpoint },
    End { last: Endpoint, first: Endpoint, close: bool },
}

} // verus!
