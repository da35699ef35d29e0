//! The cell encoding of a command stream, as a mathematical model.
//!
//! A stream is a sequence of 32-bit cells. An event is a tag cell followed by
//! its payload cells:
//!
//! | verb      | cells                        |
//! |-----------|------------------------------|
//! | Begin     | tag, endpoint                |
//! | Line      | tag, endpoint                |
//! | Quadratic | tag, ctrl, endpoint          |
//! | Cubic     | tag, ctrl1, ctrl2, endpoint  |
//! | End/Close | tag, offset of the Begin tag |
//!
//! A cell carries no mark of its own: whether it is a tag or a payload
//! follows from where a walk from the start of the stream arrives. The
//! meaning of a stream is therefore defined by such a walk.

use vstd::prelude::*;
use crate::events::IdEvent;
use crate::ids::{CtrlPointId, EndpointId, PathEventId};

verus! {

pub const LINE: u32 = 0;
pub const QUADRATIC: u32 = 1;
pub const CUBIC: u32 = 2;
pub const BEGIN: u32 = 3;
pub const CLOSE: u32 = 4;
pub const END: u32 = 5;

/// Where a walk stands with respect to sub-paths.
pub enum Phase {
    /// No sub-path is open: nothing was read yet, or the last event was an
    /// End or a Close.
    Closed,
    /// The last event was a Begin.
    Begun,
    /// The last event was an edge.
    Edge,
}

/// The state of a walk over a stream, standing before the event at `pos`.
pub struct Walk {
    /// Offset of the next tag cell.
    pub pos: int,
    pub phase: Phase,
    /// Offset of the Begin of the sub-path read last.
    pub begin: int,
    /// The endpoint at which the last event ended.
    pub prev: EndpointId,
    /// The endpoint of the Begin of the sub-path read last.
    pub first: EndpointId,
}

/// The walk before anything was read.
pub open spec fn walk_start() -> Walk {
    Walk { pos: 0, phase: Phase::Closed, begin: 0, prev: EndpointId(0), first: EndpointId(0) }
}

/// Number of cells of an event, its tag cell included.
pub open spec fn span(tag: u32) -> int {
    if tag == QUADRATIC {
        3
    } else if tag == CUBIC {
        4
    } else {
        2
    }
}

/// A complete event stands at `w.pos`, and it may follow what was read:
/// an edge needs an open sub-path, a Begin comes only when no edge is
/// pending, an End closes a sub-path that has an edge, and an End or Close
/// carries the offset of the Begin of its sub-path.
pub open spec fn admits(cells: Seq<u32>, w: Walk) -> bool {
    let p = w.pos;
    &&& 0 <= p
    &&& p + 1 < cells.len()
    &&& p + span(cells[p]) <= cells.len()
    &&& p + span(cells[p]) <= u32::MAX
    &&& if cells[p] == BEGIN {
        !(w.phase is Edge)
    } else if cells[p] == LINE || cells[p] == QUADRATIC || cells[p] == CUBIC {
        !(w.phase is Closed)
    } else if cells[p] == END {
        w.phase is Edge && cells[p + 1] == w.begin
    } else if cells[p] == CLOSE {
        !(w.phase is Closed) && cells[p + 1] == w.begin
    } else {
        false
    }
}

/// The event that a walk in state `w` reads at `w.pos`.
pub open spec fn event_in(cells: Seq<u32>, w: Walk) -> IdEvent {
    let p = w.pos;
    let edge = PathEventId(p as u32);
    if cells[p] == BEGIN {
        IdEvent::Begin { at: EndpointId(cells[p + 1]) }
    } else if cells[p] == LINE {
        IdEvent::Line { edge, from: w.prev, to: EndpointId(cells[p + 1]) }
    } else if cells[p] == QUADRATIC {
        IdEvent::Quadratic {
            edge,
            from: w.prev,
            ctrl: CtrlPointId(cells[p + 1]),
            to: EndpointId(cells[p + 2]),
        }
    } else if cells[p] == CUBIC {
        IdEvent::Cubic {
            edge,
            from: w.prev,
            ctrl1: CtrlPointId(cells[p + 1]),
            ctrl2: CtrlPointId(cells[p + 2]),
            to: EndpointId(cells[p + 3]),
        }
    } else {
        IdEvent::End { edge, last: w.prev, first: w.first, close: cells[p] == CLOSE }
    }
}

/// The state of the walk once it has read the event at `w.pos`.
pub open spec fn after(cells: Seq<u32>, w: Walk) -> Walk {
    let p = w.pos;
    let next = p + span(cells[p]);
    if cells[p] == BEGIN {
        Walk {
            pos: next,
            phase: Phase::Begun,
            begin: p,
            prev: EndpointId(cells[p + 1]),
            first: EndpointId(cells[p + 1]),
        }
    } else if cells[p] == END || cells[p] == CLOSE {
        Walk { pos: next, phase: Phase::Closed, begin: w.begin, prev: w.first, first: w.first }
    } else {
        Walk {
            pos: next,
            phase: Phase::Edge,
            begin: w.begin,
            prev: EndpointId(cells[next - 1]),
            first: w.first,
        }
    }
}

/// The state in which a walk from `w` arrives at offset `target`, if every
/// event on the way is admitted and one of them ends exactly there.
pub open spec fn walk_to(cells: Seq<u32>, w: Walk, target: int) -> Option<Walk>
    decreases target - w.pos,
{
    if w.pos == target {
        Some(w)
    } else if w.pos > target || !admits(cells, w) || after(cells, w).pos > target {
        None
    } else {
        walk_to(cells, after(cells, w), target)
    }
}

/// The state in which a walk from the start of the stream arrives at `id`.
pub open spec fn arrives(cells: Seq<u32>, id: int) -> Option<Walk> {
    walk_to(cells, walk_start(), id)
}

/// `id` is the offset of the tag cell of an event of the stream.
pub open spec fn is_event(cells: Seq<u32>, id: int) -> bool {
    arrives(cells, id) matches Some(w) && admits(cells, w)
}

/// The event at offset `id`, as a walk from the start of the stream reads it.
pub open spec fn event_at(cells: Seq<u32>, id: int) -> IdEvent {
    event_in(cells, arrives(cells, id).unwrap())
}

/// The stream is made of admitted events from its first cell to its last,
/// and does not end in the middle of a sub-path that has an edge.
pub open spec fn well_formed(cells: Seq<u32>) -> bool {
    arrives(cells, cells.len() as int) matches Some(w) && !(w.phase is Edge)
}

/// The offset of the event that follows the one at `id`, if there is one.
pub open spec fn next_in_path(cells: Seq<u32>, id: int) -> Option<PathEventId> {
    let next = id + span(cells[id]);
    if next < cells.len() {
        Some(PathEventId(next as u32))
    } else {
        None
    }
}

/// The offset of the event that follows the one at `id` in its sub-path:
/// after an End or a Close comes the Begin of the same sub-path.
pub open spec fn next_in_sub_path(cells: Seq<u32>, id: int) -> PathEventId {
    if cells[id] == END || cells[id] == CLOSE {
        PathEventId(arrives(cells, id).unwrap().begin as u32)
    } else {
        PathEventId((id + span(cells[id])) as u32)
    }
}

/// The ids in the payload of the event at `id` are below the given counts.
pub open spec fn payload_below(cells: Seq<u32>, id: int, endpoints: int, ctrl_points: int) -> bool {
    if cells[id] == BEGIN || cells[id] == LINE {
        cells[id + 1] < endpoints
    } else if cells[id] == QUADRATIC {
        cells[id + 1] < ctrl_points && cells[id + 2] < endpoints
    } else if cells[id] == CUBIC {
        cells[id + 1] < ctrl_points && cells[id + 2] < ctrl_points && cells[id + 3] < endpoints
    } else {
        true
    }
}

/// Every endpoint id in the stream is below `endpoints`, and every control
/// point id below `ctrl_points`.
pub open spec fn ids_below(cells: Seq<u32>, endpoints: int, ctrl_points: int) -> bool {
    forall|id: int| #[trigger]
        is_event(cells, id) ==> payload_below(cells, id, endpoints, ctrl_points)
}

/// The ids that an event names are below the given counts.
pub open spec fn event_ids_below(e: IdEvent, endpoints: int, ctrl_points: int) -> bool {
    match e {
        IdEvent::Begin { at } => at.0 < endpoints,
        IdEvent::Line { from, to, .. } => from.0 < endpoints && to.0 < endpoints,
        IdEvent::Quadratic { from, ctrl, to, .. } => {
            from.0 < endpoints && ctrl.0 < ctrl_points && to.0 < endpoints
        },
        IdEvent::Cubic { from, ctrl1, ctrl2, to, .. } => {
            from.0 < endpoints && ctrl1.0 < ctrl_points && ctrl2.0 < ctrl_points && to.0
                < endpoints
        },
        IdEvent::End { last, first, .. } => last.0 < endpoints && first.0 < endpoints,
    }
}

/// What holds of every state in which a walk from the start arrives.
pub open spec fn walk_inv(cells: Seq<u32>, w: Walk) -> bool {
    &&& arrives(cells, w.pos) == Some(w)
    &&& 0 <= w.pos <= cells.len()
    &&& w.pos <= u32::MAX
    &&& w.phase is Closed ==> w.pos == 0 || w.pos >= 2
    &&& !(w.phase is Closed) ==> {
        &&& 0 <= w.begin
        &&& w.begin + 2 <= w.pos
        &&& cells[w.begin] == BEGIN
        &&& w.first == EndpointId(cells[w.begin + 1])
        &&& w.prev == EndpointId(cells[w.pos - 1])
        &&& is_event(cells, w.begin)
    }
}

/// A walk that arrives at `mid` goes on from there as a walk of its own.
pub proof fn lemma_walk_through(cells: Seq<u32>, w: Walk, mid: int, target: int)
    requires
        walk_to(cells, w, mid) is Some,
        mid <= target,
    ensures
        walk_to(cells, w, target) == walk_to(cells, walk_to(cells, w, mid).unwrap(), target),
    decreases mid - w.pos,
{
    if w.pos != mid {
        lemma_walk_through(cells, after(cells, w), mid, target);
    }
}

/// Every state in which a walk from the start arrives meets `walk_inv`.
pub proof fn lemma_walk_inv(cells: Seq<u32>, id: int)
    requires
        arrives(cells, id) is Some,
    ensures
        walk_inv(cells, arrives(cells, id).unwrap()),
        arrives(cells, id).unwrap().pos == id,
{
    lemma_walk_pos(cells, walk_start(), id);
    lemma_walk_inv_from(cells, walk_start(), id);
}

proof fn lemma_walk_inv_from(cells: Seq<u32>, w: Walk, target: int)
    requires
        walk_inv(cells, w),
        walk_to(cells, w, target) is Some,
    ensures
        walk_inv(cells, walk_to(cells, w, target).unwrap()),
        arrives(cells, target) == walk_to(cells, w, target),
    decreases target - w.pos,
{
    if w.pos != target {
        let n = after(cells, w);
        lemma_walk_through(cells, walk_start(), w.pos, n.pos);
        assert(walk_to(cells, w, n.pos) == walk_to(cells, n, n.pos));
        assert(arrives(cells, n.pos) == Some(n));
        assert(walk_inv(cells, n));
        lemma_walk_inv_from(cells, n, target);
    } else {
        lemma_walk_through(cells, walk_start(), w.pos, target);
    }
}

/// In a well-formed stream a walk that arrives before the end stands at an
/// event, and goes on to the next event or to the end of the stream.
pub proof fn lemma_event_or_end(cells: Seq<u32>, id: int)
    requires
        well_formed(cells),
        arrives(cells, id) is Some,
        id < cells.len(),
    ensures
        is_event(cells, id),
        arrives(cells, id + span(cells[id])) == Some(after(cells, arrives(cells, id).unwrap())),
        id + span(cells[id]) <= cells.len(),
{
    let w = arrives(cells, id).unwrap();
    lemma_walk_inv(cells, id);
    lemma_walk_through(cells, walk_start(), id, cells.len() as int);
    assert(admits(cells, w));
    lemma_step(cells, id);
}

/// No event stands within the cells of another.
pub proof fn lemma_no_event_within(cells: Seq<u32>, id: int, within: int)
    requires
        is_event(cells, id),
        id < within < id + span(cells[id]),
    ensures
        arrives(cells, within) is None,
{
    lemma_walk_inv(cells, id);
    if arrives(cells, within) is Some {
        lemma_walk_through(cells, walk_start(), id, within);
    }
}

/// From an event the walk arrives at the offset right behind it.
pub proof fn lemma_step(cells: Seq<u32>, id: int)
    requires
        is_event(cells, id),
    ensures
        arrives(cells, id + span(cells[id])) == Some(after(cells, arrives(cells, id).unwrap())),
{
    let w = arrives(cells, id).unwrap();
    lemma_walk_inv(cells, id);
    let n = after(cells, w);
    lemma_walk_through(cells, walk_start(), id, n.pos);
    assert(walk_to(cells, w, n.pos) == walk_to(cells, n, n.pos));
}

proof fn lemma_ids_from(cells: Seq<u32>, w: Walk, target: int, endpoints: int, ctrl_points: int)
    requires
        ids_below(cells, endpoints, ctrl_points),
        arrives(cells, w.pos) == Some(w),
        !(w.phase is Closed) ==> w.prev.0 < endpoints && w.first.0 < endpoints,
        walk_to(cells, w, target) is Some,
    ensures
        ({
            let t = walk_to(cells, w, target).unwrap();
            !(t.phase is Closed) ==> t.prev.0 < endpoints && t.first.0 < endpoints
        }),
    decreases target - w.pos,
{
    if w.pos != target {
        assert(is_event(cells, w.pos));
        lemma_walk_inv(cells, w.pos);
        lemma_step(cells, w.pos);
        lemma_ids_from(cells, after(cells, w), target, endpoints, ctrl_points);
    }
}

/// Where every id in the stream is below the counts, so is every id that
/// an event of the stream names, those taken over from earlier events
/// included.
pub proof fn lemma_event_ids(cells: Seq<u32>, id: int, endpoints: int, ctrl_points: int)
    requires
        ids_below(cells, endpoints, ctrl_points),
        is_event(cells, id),
    ensures
        event_ids_below(event_at(cells, id), endpoints, ctrl_points),
{
    lemma_ids_from(cells, walk_start(), id, endpoints, ctrl_points);
    lemma_walk_inv(cells, id);
}

/// A walk over a stream is a walk over every stream that begins with it.
pub proof fn lemma_walk_extend(cells: Seq<u32>, longer: Seq<u32>, w: Walk, target: int)
    requires
        cells.len() <= longer.len(),
        longer.subrange(0, cells.len() as int) == cells,
        walk_to(cells, w, target) is Some,
    ensures
        walk_to(longer, w, target) == walk_to(cells, w, target),
    decreases target - w.pos,
{
    if w.pos != target {
        assert(admits(cells, w));
        let p = w.pos;
        assert forall|i: int| 0 <= i < cells.len() implies cells[i] == longer[i] by {
            assert(cells[i] == longer.subrange(0, cells.len() as int)[i]);
        }
        assert(admits(longer, w));
        assert(after(longer, w) == after(cells, w));
        lemma_walk_extend(cells, longer, after(cells, w), target);
    }
}

/// A walk over a stream that stays within a prefix is a walk over the prefix.
pub proof fn lemma_walk_restrict(cells: Seq<u32>, longer: Seq<u32>, w: Walk, target: int)
    requires
        cells.len() <= longer.len(),
        longer.subrange(0, cells.len() as int) == cells,
        walk_to(longer, w, target) is Some,
        target <= cells.len(),
    ensures
        walk_to(cells, w, target) == walk_to(longer, w, target),
    decreases target - w.pos,
{
    if w.pos != target {
        let n = after(longer, w);
        lemma_walk_pos(longer, n, target);
        assert forall|i: int| 0 <= i < cells.len() implies cells[i] == longer[i] by {
            assert(cells[i] == longer.subrange(0, cells.len() as int)[i]);
        }
        assert(admits(cells, w));
        assert(after(longer, w) == after(cells, w));
        lemma_walk_restrict(cells, longer, n, target);
    }
}

/// A walk arrives where it was sent, and never goes back.
pub proof fn lemma_walk_pos(cells: Seq<u32>, w: Walk, target: int)
    requires
        walk_to(cells, w, target) is Some,
    ensures
        w.pos <= target,
        walk_to(cells, w, target).unwrap().pos == target,
    decreases target - w.pos,
{
    if w.pos != target {
        lemma_walk_pos(cells, after(cells, w), target);
    }
}


/// The event at `id`, read from the cells at fixed distances from `id`
/// alone, without a walk: the endpoint before an edge is the cell in front
/// of its tag, and the first endpoint of a sub-path is found through the
/// offset that its End or Close carries.
pub open spec fn read_at(cells: Seq<u32>, id: int) -> IdEvent {
    let edge = PathEventId(id as u32);
    if cells[id] == BEGIN {
        IdEvent::Begin { at: EndpointId(cells[id + 1]) }
    } else if cells[id] == LINE {
        IdEvent::Line { edge, from: EndpointId(cells[id - 1]), to: EndpointId(cells[id + 1]) }
    } else if cells[id] == QUADRATIC {
        IdEvent::Quadratic {
            edge,
            from: EndpointId(cells[id - 1]),
            ctrl: CtrlPointId(cells[id + 1]),
            to: EndpointId(cells[id + 2]),
        }
    } else if cells[id] == CUBIC {
        IdEvent::Cubic {
            edge,
            from: EndpointId(cells[id - 1]),
            ctrl1: CtrlPointId(cells[id + 1]),
            ctrl2: CtrlPointId(cells[id + 2]),
            to: EndpointId(cells[id + 3]),
        }
    } else {
        IdEvent::End {
            edge,
            last: EndpointId(cells[id - 1]),
            first: EndpointId(cells[cells[id + 1] + 1]),
            close: cells[id] == CLOSE,
        }
    }
}

/// Random access agrees with the walk. At every event of a stream, reading
/// at fixed distances gives the event that a walk from the start decodes
/// there, and the offset behind the event is where that walk stands next:
/// at the next event, or at the end of a well-formed stream.
pub proof fn lemma_random_access_agrees(cells: Seq<u32>, id: int)
    requires
        is_event(cells, id),
    ensures
        read_at(cells, id) == event_at(cells, id),
        arrives(cells, id + span(cells[id])) == Some(after(cells, arrives(cells, id).unwrap())),
        next_in_path(cells, id) matches Some(next) ==> next.0 == id + span(cells[id]) && (
        well_formed(cells) ==> is_event(cells, next.0 as int)),
        next_in_path(cells, id) is None ==> id + span(cells[id]) == cells.len(),
{
    lemma_walk_inv(cells, id);
    lemma_step(cells, id);
    let next = id + span(cells[id]);
    if well_formed(cells) && next < cells.len() {
        lemma_event_or_end(cells, next);
    }
}

/// No Begin stands between the Begin of the sub-path read last and the
/// place of the walk.
pub open spec fn in_one_sub_path(cells: Seq<u32>, w: Walk) -> bool {
    !(w.phase is Closed) ==> forall|j: int|
        w.begin < j < w.pos && #[trigger] is_event(cells, j) ==> cells[j] != BEGIN
}

proof fn lemma_one_sub_path_from(cells: Seq<u32>, w: Walk, target: int)
    requires
        arrives(cells, w.pos) == Some(w),
        in_one_sub_path(cells, w),
        walk_to(cells, w, target) is Some,
    ensures
        in_one_sub_path(cells, walk_to(cells, w, target).unwrap()),
    decreases target - w.pos,
{
    if w.pos != target {
        let n = after(cells, w);
        assert(is_event(cells, w.pos));
        lemma_walk_inv(cells, w.pos);
        lemma_step(cells, w.pos);
        assert forall|j: int| w.pos < j < n.pos implies !#[trigger] is_event(cells, j) by {
            if arrives(cells, j) is Some {
                lemma_walk_through(cells, walk_start(), w.pos, j);
            }
        }
        assert(in_one_sub_path(cells, n));
        lemma_one_sub_path_from(cells, n, target);
    }
}

/// A sub-path loops back to its own Begin. At an End or a Close, the
/// offset that the event carries is the one that `next_in_sub_path`
/// gives; it lies before the event and is the offset of a Begin, whose
/// endpoint is the one that the End reports as first; and no other Begin
/// lies between the two.
pub proof fn lemma_sub_path_loops(cells: Seq<u32>, id: int)
    requires
        is_event(cells, id),
        cells[id] == END || cells[id] == CLOSE,
    ensures
        ({
            let begin = next_in_sub_path(cells, id).0 as int;
            &&& begin == cells[id + 1]
            &&& 0 <= begin < id
            &&& is_event(cells, begin)
            &&& cells[begin] == BEGIN
            &&& event_at(cells, id) matches IdEvent::End { first, .. } && event_at(cells, begin)
                == (IdEvent::Begin { at: first })
            &&& forall|j: int| begin < j < id && #[trigger] is_event(cells, j) ==> cells[j] != BEGIN
        }),
{
    lemma_walk_inv(cells, id);
    let w = arrives(cells, id).unwrap();
    lemma_walk_inv(cells, w.begin);
    lemma_one_sub_path_from(cells, walk_start(), id);
}

} // verus!
