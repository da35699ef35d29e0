//! Walking a command stream event by event.

use vstd::prelude::*;
use crate::encoding;
use crate::encoding::{BEGIN, CLOSE, CUBIC, END, LINE, QUADRATIC};
use crate::events::IdEvent;
use crate::ids::{CtrlPointId, EndpointId, PathEventId};

verus! {

/// A forward walk over the events of a command stream, by id.
#[derive(Clone)]
pub struct IdEvents<'l> {
    cmds: &'l [u32],
    idx: usize,
    prev_endpoint: EndpointId,
    first_endpoint: EndpointId,
}

impl<'l> IdEvents<'l> {
    /// The cells of the stream that is walked.
    pub closed spec fn cells(&self) -> Seq<u32> {
        self.cmds@
    }

    /// Offset of the event that `next` returns next.
    pub closed spec fn position(&self) -> int {
        self.idx as int
    }

    /// The stream is well formed, and this walk stands where a walk from the
    /// start of the stream arrives, in the same state.
    pub closed spec fn wf(&self) -> bool {
        &&& encoding::well_formed(self.cmds@)
        &&& encoding::arrives(self.cmds@, self.idx as int) matches Some(w)
        &&& w.prev == self.prev_endpoint
        &&& w.first == self.first_endpoint
    }

    /// A well-formed walk stands within its stream or at its end.
    pub proof fn lemma_in_range(&self)
        requires
            self.wf(),
        ensures
            0 <= self.position() <= self.cells().len(),
    {
        encoding::lemma_walk_inv(self.cmds@, self.idx as int);
    }

    pub(crate) fn new(cmds: &'l [u32]) -> (it: IdEvents<'l>)
        requires
            encoding::well_formed(cmds@),
        ensures
            it.wf(),
            it.cells() == cmds@,
            it.position() == 0,
    {
        proof {
            encoding::lemma_walk_inv(cmds@, cmds@.len() as int);
        }
        IdEvents { cmds, idx: 0, prev_endpoint: EndpointId(0), first_endpoint: EndpointId(0) }
    }

    /// Returns the event at the current position and moves behind it, or
    /// returns `None` at the end of the stream.
    pub fn next(&mut self) -> (r: Option<IdEvent>)
        requires
            old(self).wf(),
        ensures
            final(self).wf(),
            final(self).cells() == old(self).cells(),
            old(self).position() <= old(self).cells().len(),
            final(self).position() <= old(self).cells().len(),
            old(self).position() >= old(self).cells().len() ==> r is None && final(self).position()
                == old(self).position(),
            old(self).position() < old(self).cells().len() ==> {
                &&& encoding::is_event(old(self).cells(), old(self).position())
                &&& r == Some(encoding::event_at(old(self).cells(), old(self).position()))
                &&& final(self).position() == old(self).position() + encoding::span(
                    old(self).cells()[old(self).position()],
                )
                &&& encoding::next_in_path(old(self).cells(), old(self).position())
                    == if final(self).position() < old(self).cells().len() {
                    Some(PathEventId(final(self).position() as u32))
                } else {
                    None
                }
            },
    {
        let idx = self.idx;
        proof {
            encoding::lemma_walk_inv(self.cmds@, idx as int);
        }
        if idx >= self.cmds.len() {
            return None;
        }
        proof {
            encoding::lemma_event_or_end(self.cmds@, idx as int);
        }
        let edge = PathEventId(idx as u32);
        let tag = self.cmds[idx];
        if tag == BEGIN {
            let to = EndpointId(self.cmds[idx + 1]);
            self.prev_endpoint = to;
            self.first_endpoint = to;
            self.idx = idx + 2;
            Some(IdEvent::Begin { at: to })
        } else if tag == LINE {
            let to = EndpointId(self.cmds[idx + 1]);
            let from = self.prev_endpoint;
            self.prev_endpoint = to;
            self.idx = idx + 2;
            Some(IdEvent::Line { edge, from, to })
        } else if tag == QUADRATIC {
            let ctrl = CtrlPointId(self.cmds[idx + 1]);
            let to = EndpointId(self.cmds[idx + 2]);
            let from = self.prev_endpoint;
            self.prev_endpoint = to;
            self.idx = idx + 3;
            Some(IdEvent::Quadratic { edge, from, ctrl, to })
        } else if tag == CUBIC {
            let ctrl1 = CtrlPointId(self.cmds[idx + 1]);
            let ctrl2 = CtrlPointId(self.cmds[idx + 2]);
            let to = EndpointId(self.cmds[idx + 3]);
            let from = self.prev_endpoint;
            self.prev_endpoint = to;
            self.idx = idx + 4;
            Some(IdEvent::Cubic { edge, from, ctrl1, ctrl2, to })
        } else {
            let last = self.prev_endpoint;
            let first = self.first_endpoint;
            self.prev_endpoint = first;
            self.idx = idx + 2;
            Some(IdEvent::End { edge, last, first, close: tag == CLOSE })
        }
    }
}

} // verus!
