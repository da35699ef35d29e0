//! Paths that own their endpoints and control points.

use vstd::prelude::*;
use crate::builder;
use crate::encoding;
use crate::builder::PathCommandsBuilder;
use crate::commands::{PathCommands, PathCommandsSlice};
use crate::events::{IdEvent, PathEvent};
use crate::ids::{CtrlPointId, EndpointId, PathEventId};
use crate::iter::IdEvents;
use crate::math::Point;
use crate::position::{Position, PositionStore};

verus! {

/// The event `e` with each id replaced by a reference to the value that it
/// names.
pub open spec fn resolved<'l, Endpoint, CtrlPoint>(
    e: IdEvent,
    endpoints: Seq<Endpoint>,
    ctrl_points: Seq<CtrlPoint>,
) -> PathEvent<&'l Endpoint, &'l CtrlPoint> {
    match e {
        IdEvent::Begin { at } => PathEvent::Begin { at: &endpoints[at.0 as int] },
        IdEvent::Line { from, to, .. } => PathEvent::Line {
            from: &endpoints[from.0 as int],
            to: &endpoints[to.0 as int],
        },
        IdEvent::Quadratic { from, ctrl, to, .. } => PathEvent::Quadratic {
            from: &endpoints[from.0 as int],
            ctrl: &ctrl_points[ctrl.0 as int],
            to: &endpoints[to.0 as int],
        },
        IdEvent::Cubic { from, ctrl1, ctrl2, to, .. } => PathEvent::Cubic {
            from: &endpoints[from.0 as int],
            ctrl1: &ctrl_points[ctrl1.0 as int],
            ctrl2: &ctrl_points[ctrl2.0 as int],
            to: &endpoints[to.0 as int],
        },
        IdEvent::End { last, first, close, .. } => PathEvent::End {
            last: &endpoints[last.0 as int],
            first: &endpoints[first.0 as int],
            close,
        },
    }
}

/// The event `e` with each id replaced by the position of the value that it
/// names.
pub open spec fn located<Endpoint: Position, CtrlPoint: Position<Number = Endpoint::Number>>(
    e: IdEvent,
    endpoints: Seq<Endpoint>,
    ctrl_points: Seq<CtrlPoint>,
) -> PathEvent<Point<Endpoint::Number>, Point<Endpoint::Number>> {
    match e {
        IdEvent::Begin { at } => PathEvent::Begin { at: endpoints[at.0 as int].at() },
        IdEvent::Line { from, to, .. } => PathEvent::Line {
            from: endpoints[from.0 as int].at(),
            to: endpoints[to.0 as int].at(),
        },
        IdEvent::Quadratic { from, ctrl, to, .. } => PathEvent::Quadratic {
            from: endpoints[from.0 as int].at(),
            ctrl: ctrl_points[ctrl.0 as int].at(),
            to: endpoints[to.0 as int].at(),
        },
        IdEvent::Cubic { from, ctrl1, ctrl2, to, .. } => PathEvent::Cubic {
            from: endpoints[from.0 as int].at(),
            ctrl1: ctrl_points[ctrl1.0 as int].at(),
            ctrl2: ctrl_points[ctrl2.0 as int].at(),
            to: endpoints[to.0 as int].at(),
        },
        IdEvent::End { last, first, close, .. } => PathEvent::End {
            last: endpoints[last.0 as int].at(),
            first: endpoints[first.0 as int].at(),
            close,
        },
    }
}

fn resolve<'l, Endpoint, CtrlPoint>(
    e: IdEvent,
    endpoints: &'l [Endpoint],
    ctrl_points: &'l [CtrlPoint],
) -> (r: PathEvent<&'l Endpoint, &'l CtrlPoint>)
    requires
        encoding::event_ids_below(e, endpoints@.len() as int, ctrl_points@.len() as int),
    ensures
        r == resolved(e, endpoints@, ctrl_points@),
{
    match e {
        IdEvent::Begin { at } => PathEvent::Begin { at: &endpoints[at.to_usize()] },
        IdEvent::Line { from, to, .. } => PathEvent::Line {
            from: &endpoints[from.to_usize()],
            to: &endpoints[to.to_usize()],
        },
        IdEvent::Quadratic { from, ctrl, to, .. } => PathEvent::Quadratic {
            from: &endpoints[from.to_usize()],
            ctrl: &ctrl_points[ctrl.to_usize()],
            to: &endpoints[to.to_usize()],
        },
        IdEvent::Cubic { from, ctrl1, ctrl2, to, .. } => PathEvent::Cubic {
            from: &endpoints[from.to_usize()],
            ctrl1: &ctrl_points[ctrl1.to_usize()],
            ctrl2: &ctrl_points[ctrl2.to_usize()],
            to: &endpoints[to.to_usize()],
        },
        IdEvent::End { last, first, close, .. } => PathEvent::End {
            last: &endpoints[last.to_usize()],
            first: &endpoints[first.to_usize()],
            close,
        },
    }
}

fn locate<Endpoint: Position, CtrlPoint: Position<Number = Endpoint::Number>>(
    e: IdEvent,
    endpoints: &[Endpoint],
    ctrl_points: &[CtrlPoint],
) -> (r: PathEvent<Point<Endpoint::Number>, Point<Endpoint::Number>>)
    requires
        encoding::event_ids_below(e, endpoints@.len() as int, ctrl_points@.len() as int),
    ensures
        r == located(e, endpoints@, ctrl_points@),
{
    match e {
        IdEvent::Begin { at } => PathEvent::Begin { at: endpoints[at.to_usize()].position() },
        IdEvent::Line { from, to, .. } => PathEvent::Line {
            from: endpoints[from.to_usize()].position(),
            to: endpoints[to.to_usize()].position(),
        },
        IdEvent::Quadratic { from, ctrl, to, .. } => PathEvent::Quadratic {
            from: endpoints[from.to_usize()].position(),
            ctrl: ctrl_points[ctrl.to_usize()].position(),
            to: endpoints[to.to_usize()].position(),
        },
        IdEvent::Cubic { from, ctrl1, ctrl2, to, .. } => PathEvent::Cubic {
            from: endpoints[from.to_usize()].position(),
            ctrl1: ctrl_points[ctrl1.to_usize()].position(),
            ctrl2: ctrl_points[ctrl2.to_usize()].position(),
            to: endpoints[to.to_usize()].position(),
        },
        IdEvent::End { last, first, close, .. } => PathEvent::End {
            last: endpoints[last.to_usize()].position(),
            first: endpoints[first.to_usize()].position(),
            close,
        },
    }
}

/// A forward walk over the events of a path, with references to its
/// endpoints and control points.
#[derive(Clone)]
pub struct Events<'l, Endpoint, CtrlPoint> {
    ids: IdEvents<'l>,
    endpoints: &'l [Endpoint],
    ctrl_points: &'l [CtrlPoint],
}

impl<'l, Endpoint, CtrlPoint> Events<'l, Endpoint, CtrlPoint> {
    /// The cells of the stream that is walked.
    pub closed spec fn cells(&self) -> Seq<u32> {
        self.ids.cells()
    }

    /// Offset of the event that `next` returns next.
    pub closed spec fn position(&self) -> int {
        self.ids.position()
    }

    pub closed spec fn endpoints_view(&self) -> Seq<Endpoint> {
        self.endpoints@
    }

    pub closed spec fn ctrl_points_view(&self) -> Seq<CtrlPoint> {
        self.ctrl_points@
    }

    /// The walk is well formed, and every id in the stream names a value.
    pub closed spec fn wf(&self) -> bool {
        &&& self.ids.wf()
        &&& encoding::ids_below(
            self.ids.cells(),
            self.endpoints@.len() as int,
            self.ctrl_points@.len() as int,
        )
    }

    pub(crate) fn new(
        ids: IdEvents<'l>,
        endpoints: &'l [Endpoint],
        ctrl_points: &'l [CtrlPoint],
    ) -> (it: Self)
        requires
            ids.wf(),
            encoding::ids_below(
                ids.cells(),
                endpoints@.len() as int,
                ctrl_points@.len() as int,
            ),
        ensures
            it.wf(),
            it.cells() == ids.cells(),
            it.position() == ids.position(),
            it.endpoints_view() == endpoints@,
            it.ctrl_points_view() == ctrl_points@,
    {
        Events { ids, endpoints, ctrl_points }
    }

    /// Returns the event at the current position and moves behind it, or
    /// returns `None` at the end of the stream.
    pub fn next(&mut self) -> (r: Option<PathEvent<&'l Endpoint, &'l CtrlPoint>>)
        requires
            old(self).wf(),
        ensures
            final(self).wf(),
            final(self).cells() == old(self).cells(),
            final(self).endpoints_view() == old(self).endpoints_view(),
            final(self).ctrl_points_view() == old(self).ctrl_points_view(),
            old(self).position() >= old(self).cells().len() ==> r is None && final(self).position()
                == old(self).position(),
            old(self).position() < old(self).cells().len() ==> {
                &&& r == Some(
                    resolved(
                        encoding::event_at(old(self).cells(), old(self).position()),
                        old(self).endpoints_view(),
                        old(self).ctrl_points_view(),
                    ),
                )
                &&& final(self).position() == old(self).position() + encoding::span(
                    old(self).cells()[old(self).position()],
                )
            },
    {
        let ghost cells = self.ids.cells();
        let ghost pos = self.ids.position();
        match self.ids.next() {
            None => None,
            Some(e) => {
                proof {
                    encoding::lemma_event_ids(
                        cells,
                        pos,
                        self.endpoints@.len() as int,
                        self.ctrl_points@.len() as int,
                    );
                }
                Some(resolve(e, self.endpoints, self.ctrl_points))
            },
        }
    }

    /// The same walk, giving positions in place of references.
    pub fn points(self) -> (it: PointEvents<'l, Endpoint, CtrlPoint>) where
        Endpoint: Position,
        CtrlPoint: Position<Number = Endpoint::Number>,

        requires
            self.wf(),
        ensures
            it.wf(),
            it.cells() == self.cells(),
            it.position() == self.position(),
            it.endpoints_view() == self.endpoints_view(),
            it.ctrl_points_view() == self.ctrl_points_view(),
    {
        PointEvents { ids: self.ids, endpoints: self.endpoints, ctrl_points: self.ctrl_points }
    }
}

/// A forward walk over the events of a path, with the positions of its
/// endpoints and control points.
#[derive(Clone)]
pub struct PointEvents<'l, Endpoint, CtrlPoint> {
    ids: IdEvents<'l>,
    endpoints: &'l [Endpoint],
    ctrl_points: &'l [CtrlPoint],
}

impl<'l, Endpoint, CtrlPoint> PointEvents<'l, Endpoint, CtrlPoint> {
    /// The cells of the stream that is walked.
    pub closed spec fn cells(&self) -> Seq<u32> {
        self.ids.cells()
    }

    /// Offset of the event that `next` returns next.
    pub closed spec fn position(&self) -> int {
        self.ids.position()
    }

    pub closed spec fn endpoints_view(&self) -> Seq<Endpoint> {
        self.endpoints@
    }

    pub closed spec fn ctrl_points_view(&self) -> Seq<CtrlPoint> {
        self.ctrl_points@
    }

    /// The walk is well formed, and every id in the stream names a value.
    pub closed spec fn wf(&self) -> bool {
        &&& self.ids.wf()
        &&& encoding::ids_below(
            self.ids.cells(),
            self.endpoints@.len() as int,
            self.ctrl_points@.len() as int,
        )
    }

    /// Returns the event at the current position and moves behind it, or
    /// returns `None` at the end of the stream.
    pub fn next(&mut self) -> (r: Option<
        PathEvent<Point<Endpoint::Number>, Point<Endpoint::Number>>,
    >) where
        Endpoint: Position,
        CtrlPoint: Position<Number = Endpoint::Number>,

        requires
            old(self).wf(),
        ensures
            final(self).wf(),
            final(self).cells() == old(self).cells(),
            final(self).endpoints_view() == old(self).endpoints_view(),
            final(self).ctrl_points_view() == old(self).ctrl_points_view(),
            old(self).position() >= old(self).cells().len() ==> r is None && final(self).position()
                == old(self).position(),
            old(self).position() < old(self).cells().len() ==> {
                &&& r == Some(
                    located(
                        encoding::event_at(old(self).cells(), old(self).position()),
                        old(self).endpoints_view(),
                        old(self).ctrl_points_view(),
                    ),
                )
                &&& final(self).position() == old(self).position() + encoding::span(
                    old(self).cells()[old(self).position()],
                )
            },
    {
        let ghost cells = self.ids.cells();
        let ghost pos = self.ids.position();
        match self.ids.next() {
            None => None,
            Some(e) => {
                proof {
                    encoding::lemma_event_ids(
                        cells,
                        pos,
                        self.endpoints@.len() as int,
                        self.ctrl_points@.len() as int,
                    );
                }
                Some(locate(e, self.endpoints, self.ctrl_points))
            },
        }
    }
}

/// A borrowed view of a path: commands, endpoints and control points.
#[derive(Copy, Clone)]
pub struct GenericPathSlice<'l, Endpoint, CtrlPoint> {
    endpoints: &'l [Endpoint],
    ctrl_points: &'l [CtrlPoint],
    cmds: PathCommandsSlice<'l>,
}

impl<'l, Endpoint, CtrlPoint> GenericPathSlice<'l, Endpoint, CtrlPoint> {
    /// The cells of the command stream.
    pub closed spec fn cells(&self) -> Seq<u32> {
        self.cmds@
    }

    pub closed spec fn endpoints_view(&self) -> Seq<Endpoint> {
        self.endpoints@
    }

    pub closed spec fn ctrl_points_view(&self) -> Seq<CtrlPoint> {
        self.ctrl_points@
    }

    /// The command stream is well formed.
    pub open spec fn wf(&self) -> bool {
        encoding::well_formed(self.cells())
    }

    /// Every id in the command stream names an endpoint or a control point
    /// of this path.
    pub open spec fn ids_valid(&self) -> bool {
        encoding::ids_below(
            self.cells(),
            self.endpoints_view().len() as int,
            self.ctrl_points_view().len() as int,
        )
    }

    pub(crate) fn new(
        cmds: PathCommandsSlice<'l>,
        endpoints: &'l [Endpoint],
        ctrl_points: &'l [CtrlPoint],
    ) -> (s: Self)
        ensures
            s.cells() == cmds@,
            s.endpoints_view() == endpoints@,
            s.ctrl_points_view() == ctrl_points@,
    {
        GenericPathSlice { endpoints, ctrl_points, cmds }
    }

    /// Returns an iterator over the events of the path using IDs.
    pub fn id_events(&self) -> (it: IdEvents<'l>)
        requires
            self.wf(),
        ensures
            it.wf(),
            it.cells() == self.cells(),
            it.position() == 0,
    {
        self.cmds.id_events()
    }

    /// Returns an iterator over the events of the path using endpoint
    /// and control point references.
    pub fn events(&self) -> (it: Events<'l, Endpoint, CtrlPoint>)
        requires
            self.wf(),
            self.ids_valid(),
        ensures
            it.wf(),
            it.cells() == self.cells(),
            it.position() == 0,
            it.endpoints_view() == self.endpoints_view(),
            it.ctrl_points_view() == self.ctrl_points_view(),
    {
        Events::new(self.cmds.id_events(), self.endpoints, self.ctrl_points)
    }
}

/// A path: commands, endpoints and control points, each in an array of its
/// own.
pub struct GenericPath<Endpoint, CtrlPoint> {
    cmds: PathCommands,
    endpoints: Vec<Endpoint>,
    ctrl_points: Vec<CtrlPoint>,
}

impl<Endpoint, CtrlPoint> GenericPath<Endpoint, CtrlPoint> {
    /// The cells of the command stream.
    pub closed spec fn cells(&self) -> Seq<u32> {
        self.cmds@
    }

    pub closed spec fn endpoints_view(&self) -> Seq<Endpoint> {
        self.endpoints@
    }

    pub closed spec fn ctrl_points_view(&self) -> Seq<CtrlPoint> {
        self.ctrl_points@
    }

    /// The command stream is well formed.
    pub open spec fn wf(&self) -> bool {
        encoding::well_formed(self.cells())
    }

    /// Every id in the command stream names an endpoint or a control point
    /// of this path.
    pub open spec fn ids_valid(&self) -> bool {
        encoding::ids_below(
            self.cells(),
            self.endpoints_view().len() as int,
            self.ctrl_points_view().len() as int,
        )
    }

    /// Creates a builder of paths.
    pub fn builder() -> (b: GenericPathBuilder<Endpoint, CtrlPoint>)
        ensures
            b.wf(),
            b.ids_valid(),
            b.cells() == Seq::<u32>::empty(),
            b.endpoints_view() == Seq::<Endpoint>::empty(),
            b.ctrl_points_view() == Seq::<CtrlPoint>::empty(),
    {
        GenericPathBuilder::new()
    }

    /// Returns a view on this path.
    pub fn as_slice(&self) -> (s: GenericPathSlice<'_, Endpoint, CtrlPoint>)
        ensures
            s.cells() == self.cells(),
            s.endpoints_view() == self.endpoints_view(),
            s.ctrl_points_view() == self.ctrl_points_view(),
    {
        GenericPathSlice::new(
            self.cmds.as_slice(),
            self.endpoints.as_slice(),
            self.ctrl_points.as_slice(),
        )
    }

    /// Returns an iterator over the path commands, using endpoint
    /// and control point ids instead of positions.
    pub fn id_events(&self) -> (it: IdEvents<'_>)
        requires
            self.wf(),
        ensures
            it.wf(),
            it.cells() == self.cells(),
            it.position() == 0,
    {
        self.cmds.id_events()
    }

    /// Returns an iterator over the path, with endpoints and control points.
    pub fn events(&self) -> (it: Events<'_, Endpoint, CtrlPoint>)
        requires
            self.wf(),
            self.ids_valid(),
        ensures
            it.wf(),
            it.cells() == self.cells(),
            it.position() == 0,
            it.endpoints_view() == self.endpoints_view(),
            it.ctrl_points_view() == self.ctrl_points_view(),
    {
        Events::new(self.cmds.id_events(), self.endpoints.as_slice(), self.ctrl_points.as_slice())
    }

    /// Returns the event for a given event ID, with ids.
    pub fn id_event(&self, id: PathEventId) -> (r: IdEvent)
        requires
            encoding::is_event(self.cells(), id.0 as int),
        ensures
            r == encoding::event_at(self.cells(), id.0 as int),
    {
        self.cmds.event(id)
    }

    /// Returns the event for a given event ID.
    pub fn event(&self, id: PathEventId) -> (r: PathEvent<&Endpoint, &CtrlPoint>)
        requires
            self.ids_valid(),
            encoding::is_event(self.cells(), id.0 as int),
        ensures
            r == resolved(
                encoding::event_at(self.cells(), id.0 as int),
                self.endpoints_view(),
                self.ctrl_points_view(),
            ),
    {
        let e = self.id_event(id);
        proof {
            encoding::lemma_event_ids(
                self.cells(),
                id.0 as int,
                self.endpoints@.len() as int,
                self.ctrl_points@.len() as int,
            );
        }
        resolve(e, self.endpoints.as_slice(), self.ctrl_points.as_slice())
    }

    /// Returns the next event id within the path.
    pub fn next_event_id_in_path(&self, id: PathEventId) -> (r: Option<PathEventId>)
        requires
            encoding::is_event(self.cells(), id.0 as int),
        ensures
            r == encoding::next_in_path(self.cells(), id.0 as int),
    {
        self.cmds.next_event_id_in_path(id)
    }

    /// Returns the next event id within the sub-path.
    ///
    /// Loops back to the first event after the end of the sub-path.
    pub fn next_event_id_in_sub_path(&self, id: PathEventId) -> (r: PathEventId)
        requires
            encoding::is_event(self.cells(), id.0 as int),
        ensures
            r == encoding::next_in_sub_path(self.cells(), id.0 as int),
    {
        self.cmds.next_event_id_in_sub_path(id)
    }

    /// Whether every id in the command stream names an endpoint or a
    /// control point of this path.
    pub fn has_valid_ids(&self) -> (ok: bool)
        requires
            self.wf(),
        ensures
            ok == self.ids_valid(),
    {
        self.cmds.ids_within(self.endpoints.len(), self.ctrl_points.len())
    }

    pub fn endpoints(&self) -> (r: &[Endpoint])
        ensures
            r@ == self.endpoints_view(),
    {
        self.endpoints.as_slice()
    }

    pub fn ctrl_points(&self) -> (r: &[CtrlPoint])
        ensures
            r@ == self.ctrl_points_view(),
    {
        self.ctrl_points.as_slice()
    }

    /// The endpoint that `id` names.
    pub fn endpoint(&self, id: EndpointId) -> (r: &Endpoint)
        requires
            id.0 < self.endpoints_view().len(),
        ensures
            *r == self.endpoints_view()[id.0 as int],
    {
        &self.endpoints[id.to_usize()]
    }

    /// The control point that `id` names.
    pub fn ctrl_point(&self, id: CtrlPointId) -> (r: &CtrlPoint)
        requires
            id.0 < self.ctrl_points_view().len(),
        ensures
            *r == self.ctrl_points_view()[id.0 as int],
    {
        &self.ctrl_points[id.to_usize()]
    }
}

impl<Endpoint, CtrlPoint> PositionStore for GenericPath<Endpoint, CtrlPoint> where
    Endpoint: Position,
    CtrlPoint: Position<Number = Endpoint::Number>,
 {
    type Number = Endpoint::Number;

    closed spec fn endpoint_count(&self) -> nat {
        self.endpoints@.len()
    }

    closed spec fn ctrl_point_count(&self) -> nat {
        self.ctrl_points@.len()
    }

    closed spec fn endpoint_at(&self, id: EndpointId) -> Point<Endpoint::Number> {
        self.endpoints@[id.0 as int].at()
    }

    closed spec fn ctrl_point_at(&self, id: CtrlPointId) -> Point<Endpoint::Number> {
        self.ctrl_points@[id.0 as int].at()
    }

    fn endpoint_position(&self, id: EndpointId) -> (p: Point<Endpoint::Number>) {
        self.endpoints[id.to_usize()].position()
    }

    fn ctrl_point_position(&self, id: CtrlPointId) -> (p: Point<Endpoint::Number>) {
        self.ctrl_points[id.to_usize()].position()
    }
}

impl<'l, Endpoint, CtrlPoint> PositionStore for GenericPathSlice<'l, Endpoint, CtrlPoint> where
    Endpoint: Position,
    CtrlPoint: Position<Number = Endpoint::Number>,
 {
    type Number = Endpoint::Number;

    closed spec fn endpoint_count(&self) -> nat {
        self.endpoints@.len()
    }

    closed spec fn ctrl_point_count(&self) -> nat {
        self.ctrl_points@.len()
    }

    closed spec fn endpoint_at(&self, id: EndpointId) -> Point<Endpoint::Number> {
        self.endpoints@[id.0 as int].at()
    }

    closed spec fn ctrl_point_at(&self, id: CtrlPointId) -> Point<Endpoint::Number> {
        self.ctrl_points@[id.0 as int].at()
    }

    fn endpoint_position(&self, id: EndpointId) -> (p: Point<Endpoint::Number>) {
        self.endpoints[id.to_usize()].position()
    }

    fn ctrl_point_position(&self, id: CtrlPointId) -> (p: Point<Endpoint::Number>) {
        self.ctrl_points[id.to_usize()].position()
    }
}

/// Builds path commands as well as endpoint and control point vectors.
pub struct GenericPathBuilder<Endpoint, CtrlPoint> {
    endpoints: Vec<Endpoint>,
    ctrl_points: Vec<CtrlPoint>,
    cmds: PathCommandsBuilder,
}

impl<Endpoint, CtrlPoint> GenericPathBuilder<Endpoint, CtrlPoint> {
    /// The cells written so far.
    pub closed spec fn cells(&self) -> Seq<u32> {
        self.cmds@
    }

    pub closed spec fn endpoints_view(&self) -> Seq<Endpoint> {
        self.endpoints@
    }

    pub closed spec fn ctrl_points_view(&self) -> Seq<CtrlPoint> {
        self.ctrl_points@
    }

    pub closed spec fn wf(&self) -> bool {
        self.cmds.wf()
    }

    /// Every id written so far names an endpoint or a control point added
    /// so far.
    pub open spec fn ids_valid(&self) -> bool {
        encoding::ids_below(
            self.cells(),
            self.endpoints_view().len() as int,
            self.ctrl_points_view().len() as int,
        )
    }

    /// There is room for the cells and the points of one more call.
    pub open spec fn has_room(&self) -> bool {
        &&& self.cells().len() + 6 <= u32::MAX
        &&& self.endpoints_view().len() < u32::MAX
        &&& self.ctrl_points_view().len() + 1 < u32::MAX
    }

    /// Creates a builder without allocating memory.
    pub fn new() -> (b: Self)
        ensures
            b.wf(),
            b.ids_valid(),
            b.cells() == Seq::<u32>::empty(),
            b.endpoints_view() == Seq::<Endpoint>::empty(),
            b.ctrl_points_view() == Seq::<CtrlPoint>::empty(),
    {
        let b = GenericPathBuilder {
            endpoints: Vec::new(),
            ctrl_points: Vec::new(),
            cmds: PathCommandsBuilder::new(),
        };
        proof {
            builder::lemma_empty_has_no_event();
        }
        b
    }

    /// Creates a pre-allocated builder.
    pub fn with_capacity(n_endpoints: usize, n_ctrl_points: usize, n_edges: usize) -> (b: Self)
        ensures
            b.wf(),
            b.ids_valid(),
            b.cells() == Seq::<u32>::empty(),
            b.endpoints_view() == Seq::<Endpoint>::empty(),
            b.ctrl_points_view() == Seq::<CtrlPoint>::empty(),
    {
        let cells = n_edges.saturating_add(n_endpoints).saturating_add(n_ctrl_points);
        let b = GenericPathBuilder {
            endpoints: Vec::with_capacity(n_endpoints),
            ctrl_points: Vec::with_capacity(n_ctrl_points),
            cmds: PathCommandsBuilder::with_capacity(cells),
        };
        proof {
            builder::lemma_empty_has_no_event();
        }
        b
    }

    /// The endpoint that an edge written now would start from if no
    /// sub-path is open names an endpoint, once one more is added.
    pub open spec fn implied_valid(&self) -> bool {
        builder::tail(self.cells()).phase is Closed ==> builder::implied_endpoint(
            self.cells(),
        ).0 <= self.endpoints_view().len()
    }

    /// Adds the endpoint `to` and starts a sub-path there. Returns the
    /// offset of the Begin.
    pub fn move_to(&mut self, to: Endpoint) -> (id: PathEventId)
        requires
            old(self).wf(),
            old(self).has_room(),
        ensures
            final(self).wf(),
            final(self).endpoints_view() == old(self).endpoints_view().push(to),
            final(self).ctrl_points_view() == old(self).ctrl_points_view(),
            final(self).cells() == builder::with_end(old(self).cells()).push(
                encoding::BEGIN,
            ).push(old(self).endpoints_view().len() as u32),
            id.0 == builder::with_end(old(self).cells()).len(),
            encoding::is_event(final(self).cells(), id.0 as int),
            old(self).ids_valid() ==> final(self).ids_valid(),
    {
        let ghost c0 = self.cmds@;
        let ghost ne = self.endpoints@.len() as int;
        let ghost nc = self.ctrl_points@.len() as int;
        let to_id = self.add_endpoint(to);
        let id = self.cmds.move_to(to_id);
        proof {
            old(self).cmds.lemma_buildable();
            if encoding::ids_below(c0, ne, nc) {
                builder::lemma_ids_monotone(c0, ne, nc, ne + 1, nc);
                builder::lemma_with_end(c0, ne + 1, nc);
                builder::lemma_push_begin(
                    builder::with_end(c0),
                    to_id.0,
                    ne + 1,
                    nc,
                );
            }
        }
        id
    }

    /// Adds the endpoint `to` and a line to it. Returns the offset of the
    /// Line.
    pub fn line_to(&mut self, to: Endpoint) -> (id: PathEventId)
        requires
            old(self).wf(),
            old(self).has_room(),
        ensures
            final(self).wf(),
            final(self).endpoints_view() == old(self).endpoints_view().push(to),
            final(self).ctrl_points_view() == old(self).ctrl_points_view(),
            final(self).cells() == builder::with_begin(old(self).cells()).push(
                encoding::LINE,
            ).push(old(self).endpoints_view().len() as u32),
            id.0 == builder::with_begin(old(self).cells()).len(),
            encoding::is_event(final(self).cells(), id.0 as int),
            old(self).ids_valid() && old(self).implied_valid() ==> final(self).ids_valid(),
    {
        let ghost c0 = self.cmds@;
        let ghost ne = self.endpoints@.len() as int;
        let ghost nc = self.ctrl_points@.len() as int;
        let to_id = self.add_endpoint(to);
        let id = self.cmds.line_to(to_id);
        proof {
            old(self).cmds.lemma_buildable();
            if encoding::ids_below(c0, ne, nc) && old(self).implied_valid() {
                builder::lemma_ids_monotone(c0, ne, nc, ne + 1, nc);
                builder::lemma_with_begin(c0, ne + 1, nc);
                builder::lemma_push_line(builder::with_begin(c0), to_id.0, ne + 1, nc);
            }
        }
        id
    }

    /// Adds the control point `ctrl`, the endpoint `to` and a quadratic
    /// curve to it. Returns the offset of the Quadratic.
    pub fn quadratic_bezier_to(&mut self, ctrl: CtrlPoint, to: Endpoint) -> (id: PathEventId)
        requires
            old(self).wf(),
            old(self).has_room(),
        ensures
            final(self).wf(),
            final(self).endpoints_view() == old(self).endpoints_view().push(to),
            final(self).ctrl_points_view() == old(self).ctrl_points_view().push(ctrl),
            final(self).cells() == builder::with_begin(old(self).cells()).push(
                encoding::QUADRATIC,
            ).push(old(self).ctrl_points_view().len() as u32).push(
                old(self).endpoints_view().len() as u32,
            ),
            id.0 == builder::with_begin(old(self).cells()).len(),
            encoding::is_event(final(self).cells(), id.0 as int),
            old(self).ids_valid() && old(self).implied_valid() ==> final(self).ids_valid(),
    {
        let ghost c0 = self.cmds@;
        let ghost ne = self.endpoints@.len() as int;
        let ghost nc = self.ctrl_points@.len() as int;
        let ctrl_id = self.add_ctrl_point(ctrl);
        let to_id = self.add_endpoint(to);
        let id = self.cmds.quadratic_bezier_to(ctrl_id, to_id);
        proof {
            old(self).cmds.lemma_buildable();
            if encoding::ids_below(c0, ne, nc) && old(self).implied_valid() {
                builder::lemma_ids_monotone(c0, ne, nc, ne + 1, nc + 1);
                builder::lemma_with_begin(c0, ne + 1, nc + 1);
                builder::lemma_push_quadratic(
                    builder::with_begin(c0),
                    ctrl_id.0,
                    to_id.0,
                    ne + 1,
                    nc + 1,
                );
            }
        }
        id
    }

    /// Adds the control points `ctrl1` and `ctrl2`, the endpoint `to` and a
    /// cubic curve to it. Returns the offset of the Cubic.
    pub fn cubic_bezier_to(&mut self, ctrl1: CtrlPoint, ctrl2: CtrlPoint, to: Endpoint) -> (id:
        PathEventId)
        requires
            old(self).wf(),
            old(self).has_room(),
        ensures
            final(self).wf(),
            final(self).endpoints_view() == old(self).endpoints_view().push(to),
            final(self).ctrl_points_view() == old(self).ctrl_points_view().push(ctrl1).push(ctrl2),
            final(self).cells() == builder::with_begin(old(self).cells()).push(
                encoding::CUBIC,
            ).push(old(self).ctrl_points_view().len() as u32).push(
                (old(self).ctrl_points_view().len() + 1) as u32,
            ).push(old(self).endpoints_view().len() as u32),
            id.0 == builder::with_begin(old(self).cells()).len(),
            encoding::is_event(final(self).cells(), id.0 as int),
            old(self).ids_valid() && old(self).implied_valid() ==> final(self).ids_valid(),
    {
        let ghost c0 = self.cmds@;
        let ghost ne = self.endpoints@.len() as int;
        let ghost nc = self.ctrl_points@.len() as int;
        let ctrl1_id = self.add_ctrl_point(ctrl1);
        let ctrl2_id = self.add_ctrl_point(ctrl2);
        let to_id = self.add_endpoint(to);
        let id = self.cmds.cubic_bezier_to(ctrl1_id, ctrl2_id, to_id);
        proof {
            old(self).cmds.lemma_buildable();
            if encoding::ids_below(c0, ne, nc) && old(self).implied_valid() {
                builder::lemma_ids_monotone(c0, ne, nc, ne + 1, nc + 2);
                builder::lemma_with_begin(c0, ne + 1, nc + 2);
                builder::lemma_push_cubic(
                    builder::with_begin(c0),
                    ctrl1_id.0,
                    ctrl2_id.0,
                    to_id.0,
                    ne + 1,
                    nc + 2,
                );
            }
        }
        id
    }

    /// Closes the open sub-path. Where none is open nothing is written.
    /// Returns the offset at which the Close stands or would stand.
    pub fn close(&mut self) -> (id: PathEventId)
        requires
            old(self).wf(),
            old(self).has_room(),
        ensures
            final(self).wf(),
            final(self).endpoints_view() == old(self).endpoints_view(),
            final(self).ctrl_points_view() == old(self).ctrl_points_view(),
            final(self).cells() == builder::with_close(old(self).cells()),
            id.0 == old(self).cells().len(),
            old(self).ids_valid() ==> final(self).ids_valid(),
    {
        let id = self.cmds.close();
        proof {
            old(self).cmds.lemma_buildable();
            builder::lemma_with_close(
                old(self).cmds@,
                self.endpoints@.len() as int,
                self.ctrl_points@.len() as int,
            );
        }
        id
    }

    /// Consumes the builder and returns the path, ended if it stops after
    /// an edge.
    pub fn build(self) -> (path: GenericPath<Endpoint, CtrlPoint>)
        requires
            self.wf(),
            self.has_room(),
        ensures
            path.wf(),
            path.cells() == builder::with_end(self.cells()),
            path.endpoints_view() == self.endpoints_view(),
            path.ctrl_points_view() == self.ctrl_points_view(),
            self.ids_valid() ==> path.ids_valid(),
    {
        proof {
            self.cmds.lemma_buildable();
            builder::lemma_with_end(
                self.cmds@,
                self.endpoints@.len() as int,
                self.ctrl_points@.len() as int,
            );
        }
        GenericPath {
            cmds: self.cmds.build(),
            endpoints: self.endpoints,
            ctrl_points: self.ctrl_points,
        }
    }

    /// Adds an endpoint and returns its id.
    pub fn add_endpoint(&mut self, ep: Endpoint) -> (id: EndpointId)
        requires
            old(self).endpoints_view().len() < u32::MAX,
        ensures
            id.0 == old(self).endpoints_view().len(),
            final(self).endpoints_view() == old(self).endpoints_view().push(ep),
            final(self).ctrl_points_view() == old(self).ctrl_points_view(),
            final(self).cells() == old(self).cells(),
            final(self).wf() == old(self).wf(),
    {
        let id = EndpointId(self.endpoints.len() as u32);
        self.endpoints.push(ep);
        id
    }

    /// Adds a control point and returns its id.
    pub fn add_ctrl_point(&mut self, cp: CtrlPoint) -> (id: CtrlPointId)
        requires
            old(self).ctrl_points_view().len() < u32::MAX,
        ensures
            id.0 == old(self).ctrl_points_view().len(),
            final(self).ctrl_points_view() == old(self).ctrl_points_view().push(cp),
            final(self).endpoints_view() == old(self).endpoints_view(),
            final(self).cells() == old(self).cells(),
            final(self).wf() == old(self).wf(),
    {
        let id = CtrlPointId(self.ctrl_points.len() as u32);
        self.ctrl_points.push(cp);
        id
    }
}

} // verus!
