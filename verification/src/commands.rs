//! Command streams: the commands of a path in a single array of cells, with
//! ids that refer to endpoints and control points.

use vstd::prelude::*;
use crate::encoding;
use crate::builder::PathCommandsBuilder;
use crate::encoding::{BEGIN, CLOSE, CUBIC, END, LINE, QUADRATIC};
use crate::events::IdEvent;
use crate::ids::{CtrlPointId, EndpointId, PathEventId};
use crate::generic::{Events, GenericPathSlice};
use crate::iter::IdEvents;

verus! {

/// The commands of a path, encoded in a single array.
///
/// A value of this type is built by a `PathCommandsBuilder` and never changes
/// afterwards.
#[derive(Clone)]
pub struct PathCommands {
    cmds: Vec<u32>,
}

/// A borrowed view of the commands of a path.
#[derive(Copy, Clone)]
pub struct PathCommandsSlice<'l> {
    cmds: &'l [u32],
}

impl View for PathCommands {
    type V = Seq<u32>;

    /// The cells of the stream.
    closed spec fn view(&self) -> Seq<u32> {
        self.cmds@
    }
}

impl<'l> View for PathCommandsSlice<'l> {
    type V = Seq<u32>;

    /// The cells of the stream.
    closed spec fn view(&self) -> Seq<u32> {
        self.cmds@
    }
}

/// Decodes the event at `id` from the cells around it, without a walk.
pub(crate) fn decode_at(cmds: &[u32], id: PathEventId) -> (r: IdEvent)
    requires
        encoding::is_event(cmds@, id.0 as int),
    ensures
        r == encoding::read_at(cmds@, id.0 as int),
        r == encoding::event_at(cmds@, id.0 as int),
{
    let idx = id.to_usize();
    proof {
        encoding::lemma_walk_inv(cmds@, idx as int);
    }
    let tag = cmds[idx];
    if tag == BEGIN {
        IdEvent::Begin { at: EndpointId(cmds[idx + 1]) }
    } else if tag == LINE {
        IdEvent::Line { edge: id, from: EndpointId(cmds[idx - 1]), to: EndpointId(cmds[idx + 1]) }
    } else if tag == QUADRATIC {
        IdEvent::Quadratic {
            edge: id,
            from: EndpointId(cmds[idx - 1]),
            ctrl: CtrlPointId(cmds[idx + 1]),
            to: EndpointId(cmds[idx + 2]),
        }
    } else if tag == CUBIC {
        IdEvent::Cubic {
            edge: id,
            from: EndpointId(cmds[idx - 1]),
            ctrl1: CtrlPointId(cmds[idx + 1]),
            ctrl2: CtrlPointId(cmds[idx + 2]),
            to: EndpointId(cmds[idx + 3]),
        }
    } else {
        let first_event = cmds[idx + 1] as usize;
        IdEvent::End {
            edge: id,
            last: EndpointId(cmds[idx - 1]),
            first: EndpointId(cmds[first_event + 1]),
            close: tag == CLOSE,
        }
    }
}

impl<'l> PathCommandsSlice<'l> {
    /// The stream is well formed.
    pub open spec fn wf(&self) -> bool {
        encoding::well_formed(self@)
    }

    /// Returns an iterator over the path commands.
    pub fn id_events(&self) -> (it: IdEvents<'l>)
        requires
            self.wf(),
        ensures
            it.wf(),
            it.cells() == self@,
            it.position() == 0,
    {
        IdEvents::new(self.cmds)
    }

    /// Returns the event for a given event ID.
    pub fn event(&self, id: PathEventId) -> (r: IdEvent)
        requires
            encoding::is_event(self@, id.0 as int),
        ensures
            r == encoding::event_at(self@, id.0 as int),
    {
        decode_at(self.cmds, id)
    }

    /// Returns the next event id within the sub-path.
    ///
    /// Loops back to the first event after the end of the sub-path.
    pub fn next_event_id_in_sub_path(&self, id: PathEventId) -> (r: PathEventId)
        requires
            encoding::is_event(self@, id.0 as int),
        ensures
            r == encoding::next_in_sub_path(self@, id.0 as int),
    {
        let idx = id.to_usize();
        proof {
            encoding::lemma_walk_inv(self.cmds@, idx as int);
        }
        let tag = self.cmds[idx];
        if tag == LINE || tag == BEGIN {
            PathEventId(id.0 + 2)
        } else if tag == QUADRATIC {
            PathEventId(id.0 + 3)
        } else if tag == CUBIC {
            PathEventId(id.0 + 4)
        } else {
            PathEventId(self.cmds[idx + 1])
        }
    }

    /// Whether every endpoint id in the stream is below `endpoints` and
    /// every control point id below `ctrl_points`.
    pub fn ids_within(&self, endpoints: usize, ctrl_points: usize) -> (ok: bool)
        requires
            self.wf(),
        ensures
            ok == encoding::ids_below(self@, endpoints as int, ctrl_points as int),
    {
        let ghost cells = self.cmds@;
        let mut idx: usize = 0;
        proof {
            encoding::lemma_walk_inv(cells, cells.len() as int);
        }
        while idx < self.cmds.len()
            invariant
                cells == self.cmds@,
                encoding::well_formed(cells),
                cells.len() <= u32::MAX,
                idx <= cells.len(),
                encoding::arrives(cells, idx as int) is Some,
                forall|id: int|
                    id < idx && #[trigger] encoding::is_event(cells, id) ==> encoding::payload_below(
                        cells,
                        id,
                        endpoints as int,
                        ctrl_points as int,
                    ),
            decreases cells.len() - idx,
        {
            proof {
                encoding::lemma_event_or_end(cells, idx as int);
                encoding::lemma_walk_inv(cells, idx as int);
            }
            let tag = self.cmds[idx];
            let next = if tag == QUADRATIC {
                idx + 3
            } else if tag == CUBIC {
                idx + 4
            } else {
                idx + 2
            };
            let ok = if tag == BEGIN || tag == LINE {
                (self.cmds[idx + 1] as usize) < endpoints
            } else if tag == QUADRATIC {
                (self.cmds[idx + 1] as usize) < ctrl_points && (self.cmds[idx + 2] as usize)
                    < endpoints
            } else if tag == CUBIC {
                (self.cmds[idx + 1] as usize) < ctrl_points && (self.cmds[idx + 2] as usize)
                    < ctrl_points && (self.cmds[idx + 3] as usize) < endpoints
            } else {
                true
            };
            if !ok {
                return false;
            }
            proof {
                assert forall|id: int| id < next && #[trigger] encoding::is_event(cells, id) implies
                    encoding::payload_below(cells, id, endpoints as int, ctrl_points as int) by {
                    if id > idx {
                        encoding::lemma_no_event_within(cells, idx as int, id);
                    }
                }
            }
            idx = next;
        }
        proof {
            assert forall|id: int| #[trigger] encoding::is_event(cells, id) implies
                encoding::payload_below(cells, id, endpoints as int, ctrl_points as int) by {
                encoding::lemma_walk_inv(cells, id);
            }
        }
        true
    }

    /// Returns the next event id within the path.
    pub fn next_event_id_in_path(&self, id: PathEventId) -> (r: Option<PathEventId>)
        requires
            encoding::is_event(self@, id.0 as int),
        ensures
            r == encoding::next_in_path(self@, id.0 as int),
    {
        let idx = id.to_usize();
        proof {
            encoding::lemma_walk_inv(self.cmds@, idx as int);
        }
        let tag = self.cmds[idx];
        let next = if tag == QUADRATIC {
            id.0 + 3
        } else if tag == CUBIC {
            id.0 + 4
        } else {
            id.0 + 2
        };
        if (next as usize) < self.cmds.len() {
            Some(PathEventId(next))
        } else {
            None
        }
    }
}

impl PathCommands {
    /// The stream is well formed.
    pub open spec fn wf(&self) -> bool {
        encoding::well_formed(self@)
    }

    pub(crate) fn from_cells(cmds: Vec<u32>) -> (path: PathCommands)
        ensures
            path@ == cmds@,
    {
        PathCommands { cmds }
    }

    /// Creates a builder of path commands.
    pub fn builder() -> (b: PathCommandsBuilder)
        ensures
            b.wf(),
            b@ == Seq::<u32>::empty(),
    {
        PathCommandsBuilder::new()
    }

    /// Returns an iterator over the path commands.
    pub fn id_events(&self) -> (it: IdEvents<'_>)
        requires
            self.wf(),
        ensures
            it.wf(),
            it.cells() == self@,
            it.position() == 0,
    {
        IdEvents::new(self.cmds.as_slice())
    }

    /// Returns a view on the path commands.
    pub fn as_slice(&self) -> (s: PathCommandsSlice<'_>)
        ensures
            s@ == self@,
    {
        PathCommandsSlice { cmds: self.cmds.as_slice() }
    }

    /// Returns a view on a path made of these commands with endpoint and
    /// control point slices.
    pub fn path_slice<'l, Endpoint, CtrlPoint>(
        &'l self,
        endpoints: &'l [Endpoint],
        ctrl_points: &'l [CtrlPoint],
    ) -> (s: GenericPathSlice<'l, Endpoint, CtrlPoint>)
        ensures
            s.cells() == self@,
            s.endpoints_view() == endpoints@,
            s.ctrl_points_view() == ctrl_points@,
    {
        GenericPathSlice::new(self.as_slice(), endpoints, ctrl_points)
    }

    /// Returns an iterator over the path, with endpoints and control points.
    pub fn events<'l, Endpoint, CtrlPoint>(
        &'l self,
        endpoints: &'l [Endpoint],
        ctrl_points: &'l [CtrlPoint],
    ) -> (it: Events<'l, Endpoint, CtrlPoint>)
        requires
            self.wf(),
            encoding::ids_below(self@, endpoints@.len() as int, ctrl_points@.len() as int),
        ensures
            it.wf(),
            it.cells() == self@,
            it.position() == 0,
            it.endpoints_view() == endpoints@,
            it.ctrl_points_view() == ctrl_points@,
    {
        Events::new(self.id_events(), endpoints, ctrl_points)
    }

    /// Whether every endpoint id in the stream is below `endpoints` and
    /// every control point id below `ctrl_points`.
    pub fn ids_within(&self, endpoints: usize, ctrl_points: usize) -> (ok: bool)
        requires
            self.wf(),
        ensures
            ok == encoding::ids_below(self@, endpoints as int, ctrl_points as int),
    {
        self.as_slice().ids_within(endpoints, ctrl_points)
    }

    /// Returns the event for a given event ID.
    pub fn event(&self, id: PathEventId) -> (r: IdEvent)
        requires
            encoding::is_event(self@, id.0 as int),
        ensures
            r == encoding::event_at(self@, id.0 as int),
    {
        self.as_slice().event(id)
    }

    /// Returns the next event id within the path.
    pub fn next_event_id_in_path(&self, id: PathEventId) -> (r: Option<PathEventId>)
        requires
            encoding::is_event(self@, id.0 as int),
        ensures
            r == encoding::next_in_path(self@, id.0 as int),
    {
        self.as_slice().next_event_id_in_path(id)
    }

    /// Returns the next event id within the sub-path.
    ///
    /// Loops back to the first event after the end of the sub-path.
    pub fn next_event_id_in_sub_path(&self, id: PathEventId) -> (r: PathEventId)
        requires
            encoding::is_event(self@, id.0 as int),
        ensures
            r == encoding::next_in_sub_path(self@, id.0 as int),
    {
        self.as_slice().next_event_id_in_sub_path(id)
    }
}

} // verus!
