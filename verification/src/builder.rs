//! Building command streams.

use vstd::prelude::*;
use crate::encoding;
use crate::events;
use crate::commands::PathCommands;
use crate::encoding::{BEGIN, CLOSE, CUBIC, END, LINE, QUADRATIC};
use crate::encoding::{Phase, Walk};
use crate::ids::{CtrlPointId, EndpointId, PathEventId};

verus! {

/// The state in which a walk arrives at the end of `cells`.
pub open spec fn tail(cells: Seq<u32>) -> Walk {
    encoding::arrives(cells, cells.len() as int).unwrap()
}

/// `cells` is what a builder may hold: admitted events from the first cell
/// to the last. The last sub-path may still be open.
pub open spec fn buildable(cells: Seq<u32>) -> bool {
    encoding::arrives(cells, cells.len() as int) is Some
}

/// `cells`, with an End behind it if it stops after an edge.
pub open spec fn with_end(cells: Seq<u32>) -> Seq<u32> {
    if tail(cells).phase is Edge {
        cells.push(END).push(tail(cells).begin as u32)
    } else {
        cells
    }
}

/// The endpoint of a Begin that is put in before an edge where no sub-path
/// is open: the value of the last cell, or 0 in an empty stream.
pub open spec fn implied_endpoint(cells: Seq<u32>) -> EndpointId {
    if cells.len() > 0 {
        EndpointId(cells.last())
    } else {
        EndpointId(0)
    }
}

/// `cells`, with a Begin behind it if no sub-path is open.
pub open spec fn with_begin(cells: Seq<u32>) -> Seq<u32> {
    if tail(cells).phase is Closed {
        cells.push(BEGIN).push(implied_endpoint(cells).0)
    } else {
        cells
    }
}

/// `cells`, with a Close behind it if a sub-path is open.
pub open spec fn with_close(cells: Seq<u32>) -> Seq<u32> {
    if tail(cells).phase is Closed {
        cells
    } else {
        cells.push(CLOSE).push(tail(cells).begin as u32)
    }
}

/// Putting one admitted event behind a buildable stream gives a buildable
/// stream, and the walk arrives at its end in the state behind that event.
pub proof fn lemma_append(cells: Seq<u32>, longer: Seq<u32>)
    requires
        buildable(cells),
        cells.len() < longer.len(),
        longer.subrange(0, cells.len() as int) == cells,
        encoding::admits(longer, tail(cells)),
        cells.len() + encoding::span(longer[cells.len() as int]) == longer.len(),
    ensures
        buildable(longer),
        tail(longer) == encoding::after(longer, tail(cells)),
        encoding::is_event(longer, cells.len() as int),
        encoding::arrives(longer, cells.len() as int) == Some(tail(cells)),
{
    let n = cells.len() as int;
    encoding::lemma_walk_pos(cells, encoding::walk_start(), n);
    encoding::lemma_walk_extend(cells, longer, encoding::walk_start(), n);
    encoding::lemma_walk_through(
        longer,
        encoding::walk_start(),
        n,
        longer.len() as int,
    );
    let w = tail(cells);
    let a = encoding::after(longer, w);
    assert(encoding::walk_to(longer, w, longer.len() as int)
        == encoding::walk_to(longer, a, longer.len() as int));
}

/// Putting one admitted event behind a stream adds that event to its events
/// and no other: ids stay below the counts if those of the new event are.
pub proof fn lemma_ids_append(cells: Seq<u32>, longer: Seq<u32>, endpoints: int, ctrl_points: int)
    requires
        buildable(cells),
        cells.len() < longer.len(),
        longer.subrange(0, cells.len() as int) == cells,
        encoding::admits(longer, tail(cells)),
        cells.len() + encoding::span(longer[cells.len() as int]) == longer.len(),
        encoding::ids_below(cells, endpoints, ctrl_points),
        encoding::payload_below(longer, cells.len() as int, endpoints, ctrl_points),
    ensures
        encoding::ids_below(longer, endpoints, ctrl_points),
{
    let n = cells.len() as int;
    lemma_append(cells, longer);
    lemma_tail(cells);
    assert forall|id: int| #[trigger] encoding::is_event(longer, id) implies
        encoding::payload_below(longer, id, endpoints, ctrl_points) by {
        encoding::lemma_walk_inv(longer, id);
        if id < n {
            encoding::lemma_walk_restrict(cells, longer, encoding::walk_start(), id);
            encoding::lemma_walk_through(cells, encoding::walk_start(), id, n);
            let w = encoding::arrives(cells, id).unwrap();
            assert(encoding::admits(cells, w));
            assert(encoding::is_event(cells, id));
            assert forall|i: int| 0 <= i < n implies cells[i] == longer[i] by {
                assert(cells[i] == longer.subrange(0, n)[i]);
            }
        } else if id > n {
            encoding::lemma_walk_through(longer, encoding::walk_start(), n, id);
        }
    }
}

/// Ids that are below some counts are below all greater counts.
pub proof fn lemma_ids_monotone(
    cells: Seq<u32>,
    endpoints: int,
    ctrl_points: int,
    more_endpoints: int,
    more_ctrl_points: int,
)
    requires
        encoding::ids_below(cells, endpoints, ctrl_points),
        endpoints <= more_endpoints,
        ctrl_points <= more_ctrl_points,
    ensures
        encoding::ids_below(cells, more_endpoints, more_ctrl_points),
{
    assert forall|id: int| #[trigger] encoding::is_event(cells, id) implies
        encoding::payload_below(cells, id, more_endpoints, more_ctrl_points) by {
        assert(encoding::payload_below(cells, id, endpoints, ctrl_points));
    }
}

/// A Begin behind a stream that does not stop after an edge adds its
/// endpoint and no other id.
pub proof fn lemma_push_begin(cells: Seq<u32>, to: u32, endpoints: int, ctrl_points: int)
    requires
        buildable(cells),
        !(tail(cells).phase is Edge),
        cells.len() + 2 <= u32::MAX,
        encoding::ids_below(cells, endpoints, ctrl_points),
        to < endpoints,
    ensures
        encoding::ids_below(cells.push(BEGIN).push(to), endpoints, ctrl_points),
{
    let longer = cells.push(BEGIN).push(to);
    lemma_tail(cells);
    assert(longer.subrange(0, cells.len() as int) == cells);
    lemma_ids_append(cells, longer, endpoints, ctrl_points);
}

/// A Line behind a stream with an open sub-path adds its endpoint and no
/// other id.
pub proof fn lemma_push_line(cells: Seq<u32>, to: u32, endpoints: int, ctrl_points: int)
    requires
        buildable(cells),
        !(tail(cells).phase is Closed),
        cells.len() + 2 <= u32::MAX,
        encoding::ids_below(cells, endpoints, ctrl_points),
        to < endpoints,
    ensures
        encoding::ids_below(cells.push(LINE).push(to), endpoints, ctrl_points),
{
    let longer = cells.push(LINE).push(to);
    lemma_tail(cells);
    assert(longer.subrange(0, cells.len() as int) == cells);
    lemma_ids_append(cells, longer, endpoints, ctrl_points);
}

/// A Quadratic behind a stream with an open sub-path adds its two ids and
/// no other.
pub proof fn lemma_push_quadratic(
    cells: Seq<u32>,
    ctrl: u32,
    to: u32,
    endpoints: int,
    ctrl_points: int,
)
    requires
        buildable(cells),
        !(tail(cells).phase is Closed),
        cells.len() + 3 <= u32::MAX,
        encoding::ids_below(cells, endpoints, ctrl_points),
        ctrl < ctrl_points,
        to < endpoints,
    ensures
        encoding::ids_below(
            cells.push(QUADRATIC).push(ctrl).push(to),
            endpoints,
            ctrl_points,
        ),
{
    let longer = cells.push(QUADRATIC).push(ctrl).push(to);
    lemma_tail(cells);
    assert(longer.subrange(0, cells.len() as int) == cells);
    lemma_ids_append(cells, longer, endpoints, ctrl_points);
}

/// A Cubic behind a stream with an open sub-path adds its three ids and no
/// other.
pub proof fn lemma_push_cubic(
    cells: Seq<u32>,
    ctrl1: u32,
    ctrl2: u32,
    to: u32,
    endpoints: int,
    ctrl_points: int,
)
    requires
        buildable(cells),
        !(tail(cells).phase is Closed),
        cells.len() + 4 <= u32::MAX,
        encoding::ids_below(cells, endpoints, ctrl_points),
        ctrl1 < ctrl_points,
        ctrl2 < ctrl_points,
        to < endpoints,
    ensures
        encoding::ids_below(
            cells.push(CUBIC).push(ctrl1).push(ctrl2).push(to),
            endpoints,
            ctrl_points,
        ),
{
    let longer = cells.push(CUBIC).push(ctrl1).push(ctrl2).push(to);
    lemma_tail(cells);
    assert(longer.subrange(0, cells.len() as int) == cells);
    lemma_ids_append(cells, longer, endpoints, ctrl_points);
}

/// The empty stream is well formed and has no event.
pub proof fn lemma_empty_has_no_event()
    ensures
        buildable(Seq::<u32>::empty()),
        encoding::well_formed(Seq::<u32>::empty()),
        forall|endpoints: int, ctrl_points: int|
            encoding::ids_below(Seq::<u32>::empty(), endpoints, ctrl_points),
{
    let e = Seq::<u32>::empty();
    assert forall|id: int| !#[trigger] encoding::is_event(e, id) by {
        if encoding::arrives(e, id) is Some {
            encoding::lemma_walk_inv(e, id);
        }
    }
}

/// Ending a buildable stream keeps it buildable and adds no id.
pub proof fn lemma_with_end(cells: Seq<u32>, endpoints: int, ctrl_points: int)
    requires
        buildable(cells),
        cells.len() + 2 <= u32::MAX,
    ensures
        buildable(with_end(cells)),
        !(tail(with_end(cells)).phase is Edge),
        encoding::well_formed(with_end(cells)),
        encoding::ids_below(cells, endpoints, ctrl_points) ==> encoding::ids_below(
            with_end(cells),
            endpoints,
            ctrl_points,
        ),
{
    lemma_tail(cells);
    if tail(cells).phase is Edge {
        let longer = with_end(cells);
        assert(longer.subrange(0, cells.len() as int) == cells);
        lemma_append(cells, longer);
        if encoding::ids_below(cells, endpoints, ctrl_points) {
            lemma_ids_append(cells, longer, endpoints, ctrl_points);
        }
    }
}

/// Beginning a sub-path where none is open keeps the stream buildable; it
/// adds the implied endpoint and no other id.
pub proof fn lemma_with_begin(cells: Seq<u32>, endpoints: int, ctrl_points: int)
    requires
        buildable(cells),
        cells.len() + 2 <= u32::MAX,
    ensures
        buildable(with_begin(cells)),
        !(tail(with_begin(cells)).phase is Closed),
        encoding::ids_below(cells, endpoints, ctrl_points) && (tail(cells).phase is Closed
            ==> implied_endpoint(cells).0 < endpoints) ==> encoding::ids_below(
            with_begin(cells),
            endpoints,
            ctrl_points,
        ),
{
    lemma_tail(cells);
    if tail(cells).phase is Closed {
        let longer = with_begin(cells);
        assert(longer.subrange(0, cells.len() as int) == cells);
        lemma_append(cells, longer);
        if encoding::ids_below(cells, endpoints, ctrl_points) && implied_endpoint(cells).0
            < endpoints {
            lemma_ids_append(cells, longer, endpoints, ctrl_points);
        }
    }
}

/// Closing a buildable stream keeps it buildable, leaves no sub-path open
/// and adds no id.
pub proof fn lemma_with_close(cells: Seq<u32>, endpoints: int, ctrl_points: int)
    requires
        buildable(cells),
        cells.len() + 2 <= u32::MAX,
    ensures
        buildable(with_close(cells)),
        tail(with_close(cells)).phase is Closed,
        encoding::well_formed(with_close(cells)),
        encoding::ids_below(cells, endpoints, ctrl_points) ==> encoding::ids_below(
            with_close(cells),
            endpoints,
            ctrl_points,
        ),
{
    lemma_tail(cells);
    if !(tail(cells).phase is Closed) {
        let longer = with_close(cells);
        assert(longer.subrange(0, cells.len() as int) == cells);
        lemma_append(cells, longer);
        if encoding::ids_below(cells, endpoints, ctrl_points) {
            lemma_ids_append(cells, longer, endpoints, ctrl_points);
        }
    }
}

/// A stream that stops after an edge is ended when it is built. The cells
/// put behind it are an End event that is not a close; it carries the
/// offset of the Begin of the sub-path that was open, and reports the
/// endpoint of that Begin as first. The result is well formed.
pub proof fn lemma_build_ends_open_sub_path(cells: Seq<u32>)
    requires
        buildable(cells),
        tail(cells).phase is Edge,
        cells.len() + 2 <= u32::MAX,
    ensures
        ({
            let built = with_end(cells);
            let id = cells.len() as int;
            let begin = tail(cells).begin;
            &&& encoding::well_formed(built)
            &&& built.len() == id + 2
            &&& encoding::is_event(built, id)
            &&& encoding::event_at(built, id) == (events::IdEvent::End {
                edge: PathEventId(id as u32),
                last: tail(cells).prev,
                first: tail(cells).first,
                close: false,
            })
            &&& built[id + 1] == begin
            &&& encoding::next_in_sub_path(built, id) == PathEventId(begin as u32)
            &&& encoding::is_event(built, begin)
            &&& encoding::event_at(built, begin) == (events::IdEvent::Begin {
                at: tail(cells).first,
            })
        }),
{
    let built = with_end(cells);
    let id = cells.len() as int;
    lemma_tail(cells);
    lemma_with_end(cells, 0, 0);
    assert(built.subrange(0, id) == cells);
    lemma_append(cells, built);
    encoding::lemma_sub_path_loops(built, id);
}

/// Closing twice is closing once.
pub proof fn lemma_close_is_idempotent(cells: Seq<u32>)
    requires
        buildable(cells),
        cells.len() + 2 <= u32::MAX,
    ensures
        with_close(with_close(cells)) == with_close(cells),
{
    lemma_with_close(cells, 0, 0);
}

/// A walk arrives at the end of a buildable stream in a state that meets
/// `walk_inv`.
pub proof fn lemma_tail(cells: Seq<u32>)
    requires
        buildable(cells),
    ensures
        tail(cells).pos == cells.len(),
        encoding::walk_inv(cells, tail(cells)),
{
    encoding::lemma_walk_inv(cells, cells.len() as int);
}

/// Builds path commands.
#[derive(Clone)]
pub struct PathCommandsBuilder {
    cmds: Vec<u32>,
    last_cmd: u32,
    first_event_index: u32,
}

impl View for PathCommandsBuilder {
    type V = Seq<u32>;

    /// The cells written so far.
    closed spec fn view(&self) -> Seq<u32> {
        self.cmds@
    }
}

impl PathCommandsBuilder {
    /// The cells written so far are buildable, and the builder remembers
    /// the kind of the last event and the Begin of the open sub-path.
    pub closed spec fn wf(&self) -> bool {
        &&& buildable(self.cmds@)
        &&& self.cmds@.len() <= u32::MAX
        &&& self.last_cmd <= END
        &&& self.last_cmd == BEGIN <==> tail(self.cmds@).phase is Begun
        &&& self.last_cmd == END || self.last_cmd == CLOSE <==> tail(self.cmds@).phase is Closed
        &&& !(tail(self.cmds@).phase is Closed) ==> self.first_event_index == tail(self.cmds@).begin
    }

    /// There is room for the cells of one more call.
    pub open spec fn has_room(&self) -> bool {
        self@.len() + 6 <= u32::MAX
    }

    /// What a well-formed builder holds is buildable.
    pub proof fn lemma_buildable(&self)
        requires
            self.wf(),
        ensures
            buildable(self@),
    {
    }

    /// Creates a builder without allocating memory.
    pub fn new() -> (b: Self)
        ensures
            b.wf(),
            b@ == Seq::<u32>::empty(),
    {
        PathCommandsBuilder { cmds: Vec::new(), last_cmd: END, first_event_index: 0 }
    }

    /// Creates a pre-allocated builder.
    pub fn with_capacity(cap: usize) -> (b: Self)
        ensures
            b.wf(),
            b@ == Seq::<u32>::empty(),
    {
        PathCommandsBuilder { cmds: Vec::with_capacity(cap), last_cmd: END, first_event_index: 0 }
    }

    /// Starts a sub-path at `to`, ending the open sub-path first if it has
    /// an edge. Returns the offset of the Begin.
    pub fn move_to(&mut self, to: EndpointId) -> (id: PathEventId)
        requires
            old(self).wf(),
            old(self).has_room(),
        ensures
            final(self).wf(),
            final(self)@ == with_end(old(self)@).push(BEGIN).push(to.0),
            id.0 == with_end(old(self)@).len(),
            encoding::is_event(final(self)@, id.0 as int),
    {
        self.end_if_needed();
        let ghost before = self.cmds@;
        proof {
            lemma_tail(before);
        }
        let index = self.cmds.len() as u32;
        self.first_event_index = index;
        self.cmds.push(BEGIN);
        self.cmds.push(to.0);
        self.last_cmd = BEGIN;
        proof {
            assert(self.cmds@.subrange(0, before.len() as int) == before);
            lemma_append(before, self.cmds@);
        }
        PathEventId(index)
    }

    /// Adds a line to `to`, starting a sub-path first if none is open.
    /// Returns the offset of the Line.
    pub fn line_to(&mut self, to: EndpointId) -> (id: PathEventId)
        requires
            old(self).wf(),
            old(self).has_room(),
        ensures
            final(self).wf(),
            final(self)@ == with_begin(old(self)@).push(LINE).push(to.0),
            id.0 == with_begin(old(self)@).len(),
            encoding::is_event(final(self)@, id.0 as int),
    {
        self.begin_if_needed();
        let ghost before = self.cmds@;
        proof {
            lemma_tail(before);
        }
        let index = self.cmds.len() as u32;
        self.cmds.push(LINE);
        self.cmds.push(to.0);
        self.last_cmd = LINE;
        proof {
            assert(self.cmds@.subrange(0, before.len() as int) == before);
            lemma_append(before, self.cmds@);
        }
        PathEventId(index)
    }

    /// Adds a quadratic curve to `to`, starting a sub-path first if none is
    /// open. Returns the offset of the Quadratic.
    pub fn quadratic_bezier_to(&mut self, ctrl: CtrlPointId, to: EndpointId) -> (id: PathEventId)
        requires
            old(self).wf(),
            old(self).has_room(),
        ensures
            final(self).wf(),
            final(self)@ == with_begin(old(self)@).push(QUADRATIC).push(ctrl.0).push(to.0),
            id.0 == with_begin(old(self)@).len(),
            encoding::is_event(final(self)@, id.0 as int),
    {
        self.begin_if_needed();
        let ghost before = self.cmds@;
        proof {
            lemma_tail(before);
        }
        let index = self.cmds.len() as u32;
        self.cmds.push(QUADRATIC);
        self.cmds.push(ctrl.0);
        self.cmds.push(to.0);
        self.last_cmd = QUADRATIC;
        proof {
            assert(self.cmds@.subrange(0, before.len() as int) == before);
            lemma_append(before, self.cmds@);
        }
        PathEventId(index)
    }

    /// Adds a cubic curve to `to`, starting a sub-path first if none is
    /// open. Returns the offset of the Cubic.
    pub fn cubic_bezier_to(&mut self, ctrl1: CtrlPointId, ctrl2: CtrlPointId, to: EndpointId) -> (id:
        PathEventId)
        requires
            old(self).wf(),
            old(self).has_room(),
        ensures
            final(self).wf(),
            final(self)@ == with_begin(old(self)@).push(CUBIC).push(ctrl1.0).push(ctrl2.0).push(to.0),
            id.0 == with_begin(old(self)@).len(),
            encoding::is_event(final(self)@, id.0 as int),
    {
        self.begin_if_needed();
        let ghost before = self.cmds@;
        proof {
            lemma_tail(before);
        }
        let index = self.cmds.len() as u32;
        self.cmds.push(CUBIC);
        self.cmds.push(ctrl1.0);
        self.cmds.push(ctrl2.0);
        self.cmds.push(to.0);
        self.last_cmd = CUBIC;
        proof {
            assert(self.cmds@.subrange(0, before.len() as int) == before);
            lemma_append(before, self.cmds@);
        }
        PathEventId(index)
    }

    /// Closes the open sub-path. Where none is open nothing is written.
    /// Returns the offset at which the Close stands or would stand.
    pub fn close(&mut self) -> (id: PathEventId)
        requires
            old(self).wf(),
            old(self).has_room(),
        ensures
            final(self).wf(),
            final(self)@ == with_close(old(self)@),
            id.0 == old(self)@.len(),
            tail(final(self)@).phase is Closed,
    {
        let index = self.cmds.len() as u32;
        if self.last_cmd == CLOSE || self.last_cmd == END {
            return PathEventId(index);
        }
        let ghost before = self.cmds@;
        proof {
            lemma_tail(before);
        }
        self.cmds.push(CLOSE);
        self.cmds.push(self.first_event_index);
        self.last_cmd = CLOSE;
        proof {
            assert(self.cmds@.subrange(0, before.len() as int) == before);
            lemma_append(before, self.cmds@);
        }
        PathEventId(index)
    }

    fn begin_if_needed(&mut self)
        requires
            old(self).wf(),
            old(self)@.len() + 2 <= u32::MAX,
        ensures
            final(self).wf(),
            final(self)@ == with_begin(old(self)@),
            !(tail(final(self)@).phase is Closed),
    {
        if self.last_cmd == CLOSE || self.last_cmd == END {
            let n = self.cmds.len();
            let first = if n > 0 {
                self.cmds[n - 1]
            } else {
                0
            };
            let ghost before = self.cmds@;
            proof {
                lemma_tail(before);
            }
            let index = n as u32;
            self.first_event_index = index;
            self.cmds.push(BEGIN);
            self.cmds.push(first);
            self.last_cmd = BEGIN;
            proof {
                assert(self.cmds@.subrange(0, before.len() as int) == before);
                lemma_append(before, self.cmds@);
            }
        }
    }

    /// Ends the open sub-path if it has an edge.
    pub fn end_if_needed(&mut self)
        requires
            old(self).wf(),
            old(self)@.len() + 2 <= u32::MAX,
        ensures
            final(self).wf(),
            final(self)@ == with_end(old(self)@),
            !(tail(final(self)@).phase is Edge),
    {
        if self.last_cmd == LINE || self.last_cmd == QUADRATIC || self.last_cmd == CUBIC {
            let ghost before = self.cmds@;
            proof {
                lemma_tail(before);
            }
            self.cmds.push(END);
            self.cmds.push(self.first_event_index);
            self.last_cmd = END;
            proof {
                assert(self.cmds@.subrange(0, before.len() as int) == before);
                lemma_append(before, self.cmds@);
            }
        }
    }

    /// Consumes the builder and returns the path commands, ended if they
    /// stop after an edge.
    pub fn build(self) -> (path: PathCommands)
        requires
            self.wf(),
            self.has_room(),
        ensures
            path.wf(),
            path@ == with_end(self@),
    {
        let mut this = self;
        this.end_if_needed();
        PathCommands::from_cells(this.cmds)
    }
}

} // verus!
