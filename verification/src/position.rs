//! Where endpoints and control points are.

use vstd::prelude::*;
use crate::ids::{CtrlPointId, EndpointId};
use crate::math::Point;

verus! {

/// A value that has a position in the plane.
pub trait Position {
    /// The numbers in which the position is given.
    type Number;

    /// The position of this value.
    spec fn at(&self) -> Point<Self::Number>;

    fn position(&self) -> (p: Point<Self::Number>)
        ensures
            p == self.at(),
    ;
}

impl<S: Copy> Position for Point<S> {
    type Number = S;

    open spec fn at(&self) -> Point<S> {
        *self
    }

    fn position(&self) -> (p: Point<S>) {
        *self
    }
}

/// A store that gives the positions of endpoints and control points by id.
pub trait PositionStore {
    /// The numbers in which positions are given.
    type Number;

    /// Number of endpoints in the store.
    spec fn endpoint_count(&self) -> nat;

    /// Number of control points in the store.
    spec fn ctrl_point_count(&self) -> nat;

    /// The position of the endpoint `id`.
    spec fn endpoint_at(&self, id: EndpointId) -> Point<Self::Number>;

    /// The position of the control point `id`.
    spec fn ctrl_point_at(&self, id: CtrlPointId) -> Point<Self::Number>;

    fn endpoint_position(&self, id: EndpointId) -> (p: Point<Self::Number>)
        requires
            id.0 < self.endpoint_count(),
        ensures
            p == self.endpoint_at(id),
    ;

    fn ctrl_point_position(&self, id: CtrlPointId) -> (p: Point<Self::Number>)
        requires
            id.0 < self.ctrl_point_count(),
        ensures
            p == self.ctrl_point_at(id),
    ;
}


impl<'l, S: Copy> PositionStore for (&'l [Point<S>], &'l [Point<S>]) {
    type Number = S;

    open spec fn endpoint_count(&self) -> nat {
        self.0@.len()
    }

    open spec fn ctrl_point_count(&self) -> nat {
        self.1@.len()
    }

    open spec fn endpoint_at(&self, id: EndpointId) -> Point<S> {
        self.0@[id.0 as int]
    }

    open spec fn ctrl_point_at(&self, id: CtrlPointId) -> Point<S> {
        self.1@[id.0 as int]
    }

    fn endpoint_position(&self, id: EndpointId) -> (p: Point<S>) {
        self.0[id.to_usize()]
    }

    fn ctrl_point_position(&self, id: CtrlPointId) -> (p: Point<S>) {
        self.1[id.to_usize()]
    }
}

/// A store of further numbers that belong to the endpoints of a path.
pub trait AttributeStore<S> {
    /// Number of attributes of each endpoint.
    fn num_attributes(&self) -> usize;

    /// The attributes of the endpoint `id`.
    fn interpolated_attributes(&self, id: EndpointId) -> &[S];
}

/// The slice that holds nothing.
pub open spec fn no_attributes<'l, S>() -> &'l [S] {
    choose|r: &[S]| r@.len() == 0
}

/// The store of endpoints that have no further attributes.
impl<S> AttributeStore<S> for () {
    fn num_attributes(&self) -> usize
        returns
            0usize,
    {
        0
    }

    fn interpolated_attributes(&self, _id: EndpointId) -> &[S]
        returns
            no_attributes::<S>(),
    {
        &[]
    }
}

} // verus!
