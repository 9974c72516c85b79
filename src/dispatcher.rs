//! The row dispatcher: hands rows to workers in increasing order, takes their
//! finished rows back in any order, writes each into the field once, and keeps
//! the completion watermark.
//!
//! The dispatcher makes decisions only. Whoever owns the workers (threads, or
//! the serial driver in `run`) performs each action and reports each event.
use crate::watermark::CompletionWatermark;
use vstd::prelude::*;
use vstd::set_lib::{lemma_int_range, lemma_len_subset, set_int_range};

verus! {

/// One cell of the field: the escape time of a point, or `None` when the point
/// did not diverge within the cell function's budget.
pub type Cell = Option<u64>;

/// Why a run cannot go on.
#[derive(Debug, Clone, Copy, PartialEq, Eq, Structural)]
pub enum DispatchError {
    /// No workers were asked for.
    InvalidConfiguration,
    /// A worker's channel closed before it was told to stop.
    WorkerDisconnected,
}

/// What the owner of a worker must do with it after `dispatch`.
#[derive(Debug, Clone, Copy, PartialEq, Eq, Structural)]
pub enum DispatchAction {
    /// The worker still holds a row: leave it be.
    Wait,
    /// Send the worker this row index.
    Assign(usize),
    /// Send the worker the stop signal and poll it no more.
    Terminate,
}

/// What polling a worker's result channel gave.
#[derive(Debug, PartialEq, Eq)]
pub enum WorkerEvent {
    /// Nothing has arrived yet.
    Pending,
    /// The worker sent the finished row it was assigned.
    RowDone(Vec<Cell>),
    /// The channel closed.
    Disconnected,
}

/// The view of a field: one sequence of cells per row.
pub open spec fn field_view(field: Seq<Vec<Cell>>) -> Seq<Seq<Cell>> {
    field.map_values(|row: Vec<Cell>| row@)
}

/// The state of one run: assignments, the field and the watermark.
pub struct Dispatcher {
    grid_size: usize,
    next_row: usize,
    assigned: Vec<Option<usize>>,
    active: Vec<bool>,
    field: Vec<Vec<Cell>>,
    progress: CompletionWatermark,
}

impl Dispatcher {
    pub closed spec fn spec_grid_size(&self) -> nat {
        self.grid_size as nat
    }

    pub closed spec fn spec_worker_count(&self) -> nat {
        self.assigned@.len()
    }

    /// Rows `0..next_row` have been handed out; the others have not.
    pub closed spec fn spec_next_row(&self) -> nat {
        self.next_row as nat
    }

    /// The row that worker `w` holds, if any.
    pub closed spec fn spec_assignment(&self, w: int) -> Option<usize> {
        self.assigned@[w]
    }

    /// Whether worker `w` has not been told to stop.
    pub closed spec fn spec_is_active(&self, w: int) -> bool {
        self.active@[w]
    }

    /// The field: one row per index; a row not yet written is empty.
    pub closed spec fn spec_field(&self) -> Seq<Seq<Cell>> {
        field_view(self.field@)
    }

    pub closed spec fn spec_watermark(&self) -> nat {
        self.progress.spec_watermark()
    }

    /// Whether row `r` holds its computed cells.
    pub open spec fn is_written(&self, r: int) -> bool {
        self.spec_field()[r].len() == self.spec_grid_size()
    }

    /// Whether some worker holds row `r`.
    pub open spec fn in_flight(&self, r: int) -> bool {
        exists|w: int|
            0 <= w < self.spec_worker_count() && #[trigger] self.spec_assignment(w) == Some(
                r as usize,
            )
    }

    /// Whether every row has been written.
    pub open spec fn spec_is_done(&self) -> bool {
        self.spec_watermark() == self.spec_grid_size()
    }

    pub closed spec fn wf(&self) -> bool {
        let n = self.grid_size as int;
        &&& self.assigned@.len() >= 1
        &&& self.active@.len() == self.assigned@.len()
        &&& self.field@.len() == n
        &&& self.next_row <= n
        &&& self.progress.wf()
        &&& forall|r: nat| r < n ==> (#[trigger] self.progress.is_complete(r) <==> self.is_written(r as int))
        &&& forall|r: nat| r >= n ==> !#[trigger] self.progress.is_complete(r)
        &&& forall|r: int| 0 <= r < n ==> #[trigger] self.spec_field()[r].len() == 0 || self.is_written(r)
        &&& forall|r: int| self.next_row <= r < n ==> !#[trigger] self.is_written(r)
        &&& forall|r: int| 0 <= r < self.next_row && !#[trigger] self.is_written(r) ==> self.in_flight(r)
        &&& forall|w: int|
            0 <= w < self.assigned@.len() && #[trigger] self.assigned@[w] is Some ==> {
                let r = self.assigned@[w]->Some_0 as int;
                &&& r < self.next_row
                &&& !self.is_written(r)
                &&& self.active@[w]
            }
        &&& forall|w1: int, w2: int|
            0 <= w1 < self.assigned@.len() && 0 <= w2 < self.assigned@.len()
                && #[trigger] self.assigned@[w1] is Some && #[trigger] self.assigned@[w2]
                == self.assigned@[w1] ==> w1 == w2
        &&& forall|w: int|
            0 <= w < self.active@.len() && !#[trigger] self.active@[w] ==> self.next_row == n
    }

    /// Starts a run over `grid_size` rows with `worker_count` idle workers.
    pub fn new(worker_count: usize, grid_size: usize) -> (res: Result<Dispatcher, DispatchError>)
        ensures
            worker_count == 0 <==> res == Err::<Dispatcher, DispatchError>(
                DispatchError::InvalidConfiguration,
            ),
            worker_count > 0 <==> res is Ok,
            res matches Ok(d) ==> {
                &&& d.wf()
                &&& d.spec_worker_count() == worker_count
                &&& d.spec_grid_size() == grid_size
                &&& d.spec_next_row() == 0
                &&& d.spec_watermark() == 0
                &&& d.spec_field() == Seq::new(grid_size as nat, |r: int| Seq::<Cell>::empty())
                &&& forall|w: int| 0 <= w < worker_count ==> #[trigger] d.spec_is_active(w)
                &&& forall|w: int| 0 <= w < worker_count ==> #[trigger] d.spec_assignment(w) is None
            },
    {
        if worker_count == 0 {
            return Err(DispatchError::InvalidConfiguration);
        }
        let mut assigned: Vec<Option<usize>> = Vec::new();
        let mut active: Vec<bool> = Vec::new();
        let mut i: usize = 0;
        while i < worker_count
            invariant
                i <= worker_count,
                assigned@.len() == i,
                active@.len() == i,
                forall|w: int| 0 <= w < i ==> #[trigger] assigned@[w] == None::<usize>,
                forall|w: int| 0 <= w < i ==> #[trigger] active@[w],
            decreases worker_count - i,
        {
            assigned.push(None);
            active.push(true);
            i = i + 1;
        }
        let mut field: Vec<Vec<Cell>> = Vec::new();
        let mut r: usize = 0;
        while r < grid_size
            invariant
                r <= grid_size,
                field@.len() == r,
                forall|j: int| 0 <= j < r ==> #[trigger] field@[j]@ == Seq::<Cell>::empty(),
            decreases grid_size - r,
        {
            field.push(Vec::new());
            r = r + 1;
        }
        let d = Dispatcher {
            grid_size,
            next_row: 0,
            assigned,
            active,
            field,
            progress: CompletionWatermark::new(),
        };
        assert(d.spec_field() =~= Seq::new(grid_size as nat, |r: int| Seq::<Cell>::empty()));
        Ok(d)
    }
    /// The rows written so far.
    pub open spec fn written_rows(&self) -> Set<int> {
        Set::new(|r: int| 0 <= r < self.spec_grid_size() && self.is_written(r))
    }

    /// Everything but the given worker's assignment and activity is as in `old`.
    pub open spec fn same_but_worker(&self, old: &Dispatcher, w: int) -> bool {
        &&& self.spec_worker_count() == old.spec_worker_count()
        &&& self.spec_grid_size() == old.spec_grid_size()
        &&& forall|v: int|
            0 <= v < self.spec_worker_count() && v != w ==> #[trigger] self.spec_assignment(v)
                == old.spec_assignment(v) && self.spec_is_active(v) == old.spec_is_active(v)
    }

    /// Every row below the watermark is written, the watermark never exceeds
    /// the number of written rows, and the row at the watermark, if any, is
    /// not written yet.
    pub proof fn lemma_watermark_bounds(&self)
        requires
            self.wf(),
        ensures
            self.spec_watermark() <= self.spec_grid_size(),
            forall|r: int| 0 <= r < self.spec_watermark() ==> #[trigger] self.is_written(r),
            self.spec_watermark() < self.spec_grid_size() ==> !self.is_written(
                self.spec_watermark() as int,
            ),
            self.written_rows().finite(),
            self.spec_watermark() <= self.written_rows().len(),
    {
        let m = self.spec_watermark();
        self.progress.lemma_watermark_is_lowest_incomplete();
        if m > self.spec_grid_size() {
            assert(self.progress.is_complete((m - 1) as nat));
        }
        assert forall|r: int| 0 <= r < m implies #[trigger] self.is_written(r) by {
            assert(self.progress.is_complete(r as nat));
        }
        lemma_int_range(0, self.spec_grid_size() as int);
        lemma_int_range(0, m as int);
        assert(self.written_rows().subset_of(set_int_range(0, self.spec_grid_size() as int)));
        lemma_len_subset(self.written_rows(), set_int_range(0, self.spec_grid_size() as int));
        assert(set_int_range(0, m as int).subset_of(self.written_rows()));
        lemma_len_subset(set_int_range(0, m as int), self.written_rows());
    }

    /// The bookkeeping of assignments: a held row is handed out, unwritten and
    /// held by an active worker; a handed-out row that is not written is held
    /// by some worker; a row not yet handed out is not written; a worker is
    /// stopped only once every row has been handed out.
    pub proof fn lemma_assignments(&self)
        requires
            self.wf(),
        ensures
            forall|w: int|
                0 <= w < self.spec_worker_count() && #[trigger] self.spec_assignment(w) is Some ==> {
                    &&& self.spec_assignment(w)->Some_0 < self.spec_next_row()
                    &&& !self.is_written(self.spec_assignment(w)->Some_0 as int)
                    &&& self.spec_is_active(w)
                },
            forall|r: int|
                0 <= r < self.spec_next_row() && !#[trigger] self.is_written(r) ==> self.in_flight(r),
            forall|r: int|
                self.spec_next_row() <= r < self.spec_grid_size() ==> !#[trigger] self.is_written(r),
            forall|w: int|
                0 <= w < self.spec_worker_count() && !#[trigger] self.spec_is_active(w)
                    ==> self.spec_next_row() == self.spec_grid_size(),
            self.spec_next_row() <= self.spec_grid_size(),
            self.spec_worker_count() >= 1,
            self.spec_field().len() == self.spec_grid_size(),
    {
        assert forall|w: int|
            0 <= w < self.spec_worker_count() && #[trigger] self.spec_assignment(w) is Some implies {
                &&& self.spec_assignment(w)->Some_0 < self.spec_next_row()
                &&& !self.is_written(self.spec_assignment(w)->Some_0 as int)
                &&& self.spec_is_active(w)
            } by {
            assert(self.assigned@[w] is Some);
        }
        assert forall|w: int|
            0 <= w < self.spec_worker_count() && !#[trigger] self.spec_is_active(w) implies
                self.spec_next_row() == self.spec_grid_size() by {
            assert(!self.active@[w]);
        }
    }

    pub fn worker_count(&self) -> (k: usize)
        requires
            self.wf(),
        ensures
            k == self.spec_worker_count(),
    {
        self.assigned.len()
    }

    pub fn grid_size(&self) -> (n: usize)
        ensures
            n == self.spec_grid_size(),
    {
        self.grid_size
    }

    /// How many rows have been handed out so far.
    pub fn rows_dispatched(&self) -> (d: usize)
        ensures
            d == self.spec_next_row(),
    {
        self.next_row
    }

    /// The lowest row index not yet written: every row below it is written.
    pub fn watermark(&self) -> (m: usize)
        ensures
            m == self.spec_watermark(),
    {
        self.progress.watermark()
    }

    /// Whether every row has been written.
    pub fn is_done(&self) -> (b: bool)
        ensures
            b == self.spec_is_done(),
    {
        self.progress.watermark() == self.grid_size
    }

    /// The row that worker `w` holds, if any.
    pub fn assignment(&self, w: usize) -> (a: Option<usize>)
        requires
            self.wf(),
            w < self.spec_worker_count(),
        ensures
            a == self.spec_assignment(w as int),
    {
        self.assigned[w]
    }

    /// Whether worker `w` has not been told to stop.
    pub fn is_active(&self, w: usize) -> (b: bool)
        requires
            self.wf(),
            w < self.spec_worker_count(),
        ensures
            b == self.spec_is_active(w as int),
    {
        self.active[w]
    }

    /// Decides what to do with worker `w`: leave it be while it holds a row,
    /// else give it the next row in increasing order, else stop it.
    pub fn dispatch(&mut self, w: usize) -> (action: DispatchAction)
        requires
            old(self).wf(),
            w < old(self).spec_worker_count(),
            old(self).spec_is_active(w as int),
        ensures
            final(self).wf(),
            final(self).same_but_worker(old(self), w as int),
            final(self).spec_field() == old(self).spec_field(),
            final(self).spec_watermark() == old(self).spec_watermark(),
            old(self).spec_assignment(w as int) is Some ==> action == DispatchAction::Wait && *final(self) == *old(self),
            old(self).spec_assignment(w as int) is None && old(self).spec_next_row() < old(self).spec_grid_size() ==> {
                &&& action == DispatchAction::Assign(old(self).spec_next_row() as usize)
                &&& final(self).spec_next_row() == old(self).spec_next_row() + 1
                &&& final(self).spec_assignment(w as int) == Some(old(self).spec_next_row() as usize)
                &&& final(self).spec_is_active(w as int)
            },
            old(self).spec_assignment(w as int) is None && old(self).spec_next_row() == old(self).spec_grid_size() ==> {
                &&& action == DispatchAction::Terminate
                &&& final(self).spec_next_row() == old(self).spec_next_row()
                &&& final(self).spec_assignment(w as int) is None
                &&& !final(self).spec_is_active(w as int)
            },
    {
        if self.assigned[w].is_some() {
            return DispatchAction::Wait;
        }
        let ghost before = *self;
        if self.next_row < self.grid_size {
            let r = self.next_row;
            self.assigned.set(w, Some(r));
            self.next_row = r + 1;
            proof {
                assert(self.spec_field() == before.spec_field());
                assert forall|q: int| 0 <= q < self.next_row && !#[trigger] self.is_written(q) implies self.in_flight(q) by {
                    if q == r {
                        assert(self.spec_assignment(w as int) == Some(q as usize));
                    } else {
                        assert(!before.is_written(q));
                        let v = choose|v: int| 0 <= v < before.spec_worker_count() && #[trigger] before.spec_assignment(v) == Some(q as usize);
                        assert(self.spec_assignment(v) == Some(q as usize));
                    }
                }
                assert forall|v: int| 0 <= v < self.assigned@.len() && #[trigger] self.assigned@[v] is Some && v != w implies self.assigned@[v]->Some_0 < r by {
                    assert(before.assigned@[v] is Some);
                }
                assert(self.spec_field() == before.spec_field());
            }
            DispatchAction::Assign(r)
        } else {
            self.active.set(w, false);
            proof {
                assert(self.spec_field() == before.spec_field());
                assert forall|q: int| 0 <= q < self.next_row && !#[trigger] self.is_written(q) implies self.in_flight(q) by {
                    assert(!before.is_written(q));
                    let v = choose|v: int| 0 <= v < before.spec_worker_count() && #[trigger] before.spec_assignment(v) == Some(q as usize);
                    assert(self.spec_assignment(v) == Some(q as usize));
                }
            }
            DispatchAction::Terminate
        }
    }

    /// Row `r` while the run goes on, if it lies below the watermark: such a
    /// row is written and will not change.
    pub fn prefix_row(&self, r: usize) -> (row: Option<&Vec<Cell>>)
        requires
            self.wf(),
        ensures
            row is Some <==> r < self.spec_watermark(),
            row matches Some(v) ==> v@ == self.spec_field()[r as int] && self.is_written(r as int),
    {
        proof {
            self.lemma_watermark_bounds();
        }
        if r < self.progress.watermark() {
            Some(&self.field[r])
        } else {
            None
        }
    }

    /// Takes what polling worker `w` gave. A finished row is written into the
    /// field at the index the worker held, exactly once, and the watermark
    /// moves past every written row at its front. A closed channel is fatal.
    pub fn handle_event(&mut self, w: usize, event: WorkerEvent) -> (res: Result<Option<usize>, DispatchError>)
        requires
            old(self).wf(),
            w < old(self).spec_worker_count(),
            old(self).spec_is_active(w as int),
            event matches WorkerEvent::RowDone(row) ==> old(self).spec_assignment(w as int) is Some
                && row@.len() == old(self).spec_grid_size(),
        ensures
            final(self).wf(),
            final(self).spec_watermark() >= old(self).spec_watermark(),
            event is Pending ==> res == Ok::<Option<usize>, DispatchError>(None) && *final(self) == *old(self),
            event is Disconnected ==> res == Err::<Option<usize>, DispatchError>(DispatchError::WorkerDisconnected)
                && *final(self) == *old(self),
            event matches WorkerEvent::RowDone(row) ==> {
                let r = old(self).spec_assignment(w as int)->Some_0;
                &&& res == Ok::<Option<usize>, DispatchError>(Some(r))
                &&& !old(self).is_written(r as int)
                &&& final(self).spec_field() == old(self).spec_field().update(r as int, row@)
                &&& final(self).spec_assignment(w as int) is None
                &&& final(self).spec_is_active(w as int)
                &&& final(self).same_but_worker(old(self), w as int)
                &&& final(self).spec_next_row() == old(self).spec_next_row()
            },
    {
        match event {
            WorkerEvent::Pending => Ok(None),
            WorkerEvent::Disconnected => Err(DispatchError::WorkerDisconnected),
            WorkerEvent::RowDone(row) => {
                let r = self.assigned[w].unwrap();
                let ghost before = *self;
                proof {
                    assert(self.progress.is_complete(r as nat) == self.is_written(r as int));
                }
                self.field.set(r, row);
                self.assigned.set(w, None);
                self.progress.mark_complete(r);
                proof {
                    assert(self.spec_field() =~= before.spec_field().update(r as int, row@));
                    assert forall|q: nat| q < self.grid_size implies (#[trigger] self.progress.is_complete(q) <==> self.is_written(q as int)) by {
                        assert(before.progress.is_complete(q) <==> before.is_written(q as int));
                    }
                    assert forall|q: int| 0 <= q < self.next_row && !#[trigger] self.is_written(q) implies self.in_flight(q) by {
                        assert(!before.is_written(q));
                        let v = choose|v: int| 0 <= v < before.spec_worker_count() && #[trigger] before.spec_assignment(v) == Some(q as usize);
                        assert(v != w);
                        assert(self.spec_assignment(v) == Some(q as usize));
                    }
                }
                Ok(Some(r))
            },
        }
    }

    /// Hands the finished field over: one row of `grid_size` cells per index.
    pub fn into_field(self) -> (field: Vec<Vec<Cell>>)
        requires
            self.wf(),
            self.spec_is_done(),
        ensures
            field_view(field@) == self.spec_field(),
            field@.len() == self.spec_grid_size(),
            forall|r: int| 0 <= r < self.spec_grid_size() ==> #[trigger] self.is_written(r),
    {
        proof {
            self.lemma_watermark_bounds();
        }
        self.field
    }
}

} // verus!
