//! Running the whole protocol: a worker's row computation, and a driver in
//! which the workers take turns on the calling thread.
use crate::dispatcher::{field_view, Cell, DispatchError, Dispatcher, WorkerEvent};
use vstd::prelude::*;

verus! {

/// `row` is what a worker computes for row `y` of an `n`-wide grid: cell `x`
/// is a result of the cell function at `(x, y)`.
pub open spec fn is_row_of<F: Fn(usize, usize) -> Cell>(cell: F, n: nat, y: usize, row: Seq<Cell>) -> bool {
    &&& row.len() == n
    &&& forall|x: int| 0 <= x < n ==> cell.ensures((x as usize, y), #[trigger] row[x])
}

/// `field` is a complete `n`-by-`n` field of the cell function.
pub open spec fn is_field_of<F: Fn(usize, usize) -> Cell>(cell: F, n: nat, field: Seq<Seq<Cell>>) -> bool {
    &&& field.len() == n
    &&& forall|y: int| 0 <= y < n ==> is_row_of(cell, n, y as usize, #[trigger] field[y])
}

/// The cell function gives one result per point.
pub open spec fn is_deterministic<F: Fn(usize, usize) -> Cell>(cell: F) -> bool {
    forall|x: usize, y: usize, a: Cell, b: Cell|
        #[trigger] cell.ensures((x, y), a) && #[trigger] cell.ensures((x, y), b) ==> a == b
}

/// A worker's job: computes every cell of row `y` with the cell function.
pub fn compute_row<F: Fn(usize, usize) -> Cell>(cell: &F, grid_size: usize, y: usize) -> (row: Vec<Cell>)
    requires
        forall|x: usize| x < grid_size ==> #[trigger] cell.requires((x, y)),
    ensures
        is_row_of(*cell, grid_size as nat, y, row@),
{
    let mut row: Vec<Cell> = Vec::new();
    let mut x: usize = 0;
    while x < grid_size
        invariant
            x <= grid_size,
            row@.len() == x,
            forall|x: usize| x < grid_size ==> #[trigger] cell.requires((x, y)),
            forall|i: int| 0 <= i < x ==> cell.ensures((i as usize, y), #[trigger] row@[i]),
        decreases grid_size - x,
    {
        let v = cell(x, y);
        row.push(v);
        x = x + 1;
    }
    row
}

/// Computes the whole `grid_size`-by-`grid_size` field with `worker_count`
/// workers that take turns on the calling thread.
///
/// Each round hands the next rows, in increasing order, to the idle workers
/// (stopping those for which no row is left), then collects their finished
/// rows from the last worker to the first, so that rows complete out of
/// order as they do under threads. The run ends when the watermark reaches
/// `grid_size`.
pub fn run<F: Fn(usize, usize) -> Cell>(worker_count: usize, grid_size: usize, cell: &F) -> (res: Result<
    Vec<Vec<Cell>>,
    DispatchError,
>)
    requires
        forall|x: usize, y: usize| x < grid_size && y < grid_size ==> #[trigger] cell.requires((x, y)),
    ensures
        worker_count == 0 <==> res == Err::<Vec<Vec<Cell>>, DispatchError>(
            DispatchError::InvalidConfiguration,
        ),
        worker_count > 0 <==> res is Ok,
        res matches Ok(field) ==> is_field_of(*cell, grid_size as nat, field_view(field@)),
{
    let mut d = match Dispatcher::new(worker_count, grid_size) {
        Ok(d) => d,
        Err(e) => return Err(e),
    };
    let n = grid_size;
    while !d.is_done()
        invariant
            d.wf(),
            d.spec_worker_count() == worker_count,
            d.spec_grid_size() == n,
            forall|x: usize, y: usize| x < n && y < n ==> #[trigger] cell.requires((x, y)),
            forall|v: int| 0 <= v < worker_count ==> #[trigger] d.spec_assignment(v) is None,
            forall|y: int| 0 <= y < n && d.is_written(y) ==> is_row_of(*cell, n as nat, y as usize, #[trigger] d.spec_field()[y]),
        decreases n - d.spec_next_row(),
    {
        proof {
            d.lemma_watermark_bounds();
            d.lemma_assignments();
            let m = d.spec_watermark() as int;
            if m < d.spec_next_row() {
                let v = choose|v: int| 0 <= v < d.spec_worker_count() && #[trigger] d.spec_assignment(v) == Some(m as usize);
                assert(d.spec_assignment(v) is None);
            }
        }
        let start = d.rows_dispatched();
        let mut w: usize = 0;
        while w < worker_count
            invariant
                d.wf(),
                d.spec_worker_count() == worker_count,
                d.spec_grid_size() == n,
                start < n,
                w <= worker_count,
                d.spec_next_row() >= start,
                w > 0 ==> d.spec_next_row() > start,
                w == 0 ==> d.spec_next_row() == start,
                forall|v: int| w <= v < worker_count ==> #[trigger] d.spec_assignment(v) is None,
                forall|y: int| 0 <= y < n && d.is_written(y) ==> is_row_of(*cell, n as nat, y as usize, #[trigger] d.spec_field()[y]),
            decreases worker_count - w,
        {
            proof {
                d.lemma_assignments();
            }
            if d.is_active(w) {
                let _ = d.dispatch(w);
            }
            w = w + 1;
        }
        let mut w: usize = worker_count;
        while w > 0
            invariant
                d.wf(),
                d.spec_worker_count() == worker_count,
                d.spec_grid_size() == n,
                w <= worker_count,
                d.spec_next_row() > start,
                forall|x: usize, y: usize| x < n && y < n ==> #[trigger] cell.requires((x, y)),
                forall|v: int| w <= v < worker_count ==> #[trigger] d.spec_assignment(v) is None,
                forall|y: int| 0 <= y < n && d.is_written(y) ==> is_row_of(*cell, n as nat, y as usize, #[trigger] d.spec_field()[y]),
            decreases w,
        {
            w = w - 1;
            proof {
                d.lemma_assignments();
            }
            if let Some(r) = d.assignment(w) {
                let row = compute_row(cell, n, r);
                let _ = d.handle_event(w, WorkerEvent::RowDone(row));
            }
        }
        proof {
            d.lemma_assignments();
        }
    }
    proof {
        d.lemma_watermark_bounds();
    }
    let field = d.into_field();
    Ok(field)
}

/// The field does not depend on how many workers computed it: two complete
/// fields of the same deterministic cell function over the same grid size,
/// such as two results of `run` with different worker counts, are equal.
pub proof fn lemma_field_independent_of_worker_count<F: Fn(usize, usize) -> Cell>(
    cell: F,
    grid_size: nat,
    a: Seq<Seq<Cell>>,
    b: Seq<Seq<Cell>>,
)
    requires
        is_deterministic(cell),
        is_field_of(cell, grid_size, a),
        is_field_of(cell, grid_size, b),
    ensures
        a == b,
{
    assert forall|y: int| 0 <= y < grid_size implies #[trigger] a[y] == b[y] by {
        assert(is_row_of(cell, grid_size, y as usize, a[y]));
        assert(is_row_of(cell, grid_size, y as usize, b[y]));
        assert forall|x: int| 0 <= x < grid_size implies a[y][x] == b[y][x] by {
            assert(cell.ensures((x as usize, y as usize), a[y][x]));
            assert(cell.ensures((x as usize, y as usize), b[y][x]));
        }
        assert(a[y] =~= b[y]);
    }
    assert(a =~= b);
}

} // verus!
