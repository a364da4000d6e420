use crate::constants::{GPU_MAX_CELLS, INP_CHS, N_PARAMS};
use vstd::prelude::*;

verus! {

/// Bytes of one channel value on the device.
pub const VALUE_BYTES: usize = 4;

/// Number of cells of the largest of the grids, given as `(height, width)`.
pub open spec fn max_cells(shapes: Seq<(usize, usize)>, upto: int) -> int
    decreases upto,
{
    if upto <= 0 {
        0
    } else {
        let rest = max_cells(shapes, upto - 1);
        let here = shapes[upto - 1].0 * shapes[upto - 1].1;
        if here > rest {
            here
        } else {
            rest
        }
    }
}

/// Every grid has at most as many cells as the batched backend takes.
pub open spec fn fits_device(shapes: Seq<(usize, usize)>) -> bool {
    forall|i: int|
        0 <= i < shapes.len() ==> (#[trigger] shapes[i]).0 * shapes[i].1 <= GPU_MAX_CELLS
}

/// All individuals have the same step budget.
pub open spec fn equal_budgets(max_steps: Seq<usize>) -> bool {
    forall|i: int| 0 <= i < max_steps.len() ==> #[trigger] max_steps[i] == max_steps[0]
}

/// Whether every grid is small enough for the batched backend.
pub fn grids_fit(shapes: &Vec<(usize, usize)>) -> (fit: bool)
    ensures
        fit == fits_device(shapes@),
{
    let mut i: usize = 0;
    while i < shapes.len()
        invariant
            i <= shapes.len(),
            forall|j: int|
                0 <= j < i ==> (#[trigger] shapes@[j]).0 * shapes@[j].1 <= GPU_MAX_CELLS,
        decreases shapes.len() - i,
    {
        let (h, w) = shapes[i];
        let cells: Option<usize> = h.checked_mul(w);
        let small: bool = match cells {
            Some(c) => c <= GPU_MAX_CELLS,
            None => false,
        };
        if !small {
            return false;
        }
        i += 1;
    }
    true
}

/// Whether all individuals of a batch share one step budget.
pub fn budgets_equal(max_steps: &Vec<usize>) -> (equal: bool)
    ensures
        equal == equal_budgets(max_steps@),
{
    let mut i: usize = 1;
    while i < max_steps.len()
        invariant
            1 <= i,
            forall|j: int| 0 <= j < i && j < max_steps@.len() ==> #[trigger] max_steps@[j] == max_steps@[0],
        decreases max_steps.len() - i,
    {
        if max_steps[i] != max_steps[0] {
            return false;
        }
        i += 1;
    }
    true
}

/// The shape of one kernel launch and of the buffers that go with it.
#[derive(Clone, Copy, Debug, PartialEq, Eq, Structural)]
pub struct LaunchPlan {
    /// Number of example grids: the first grid dimension.
    pub n_grids: usize,
    /// Number of individuals: the second grid dimension.
    pub pop_size: usize,
    /// Cells of the largest grid: the block dimension.
    pub max_grid_size: usize,
    /// Steps that the kernel runs.
    pub max_steps: usize,
    /// Bytes of shared memory: one cell's input channels per thread.
    pub shared_mem_bytes: usize,
    /// Values reserved for one substrate.
    pub sub_max_len: usize,
    /// Values reserved for the substrates of one individual.
    pub ind_subs_total_len: usize,
    /// Values reserved for all substrates.
    pub pop_sub_total_len: usize,
    /// Values reserved for all parameters.
    pub pop_params_len: usize,
}

impl LaunchPlan {
    /// The plan for `pop_size` individuals with the step budgets `max_steps`
    /// on grids of the given shapes.
    pub fn new(shapes: &Vec<(usize, usize)>, max_steps: &Vec<usize>) -> (plan: Self)
        requires
            shapes@.len() > 0,
            max_steps@.len() > 0,
            fits_device(shapes@),
            equal_budgets(max_steps@),
            INP_CHS * GPU_MAX_CELLS * shapes@.len() * max_steps@.len() <= usize::MAX,
            max_steps@.len() * N_PARAMS <= usize::MAX,
        ensures
            plan.n_grids == shapes@.len(),
            plan.pop_size == max_steps@.len(),
            plan.max_grid_size == max_cells(shapes@, shapes@.len() as int),
            plan.max_grid_size <= GPU_MAX_CELLS,
            plan.max_steps == max_steps@[0],
            plan.shared_mem_bytes == plan.max_grid_size * INP_CHS * VALUE_BYTES,
            plan.sub_max_len == INP_CHS * plan.max_grid_size,
            plan.ind_subs_total_len == plan.sub_max_len * plan.n_grids,
            plan.pop_sub_total_len == plan.ind_subs_total_len * plan.pop_size,
            plan.pop_params_len == plan.pop_size * N_PARAMS,
    {
        let mut max_grid_size: usize = 0;
        let mut i: usize = 0;
        while i < shapes.len()
            invariant
                i <= shapes.len(),
                fits_device(shapes@),
                max_grid_size == max_cells(shapes@, i as int),
                max_grid_size <= GPU_MAX_CELLS,
            decreases shapes.len() - i,
        {
            let (h, w) = shapes[i];
            assert(shapes@[i as int].0 * shapes@[i as int].1 <= GPU_MAX_CELLS);
            let cells: usize = h * w;
            if cells > max_grid_size {
                max_grid_size = cells;
            }
            i += 1;
        }
        let n_grids: usize = shapes.len();
        let pop_size: usize = max_steps.len();
        let sub_max_len: usize = INP_CHS * max_grid_size;
        proof {
            assert(sub_max_len * n_grids <= INP_CHS * GPU_MAX_CELLS * n_grids) by (nonlinear_arith)
                requires
                    sub_max_len <= INP_CHS * GPU_MAX_CELLS,
                    n_grids >= 0,
            ;
            assert(INP_CHS * GPU_MAX_CELLS * n_grids <= INP_CHS * GPU_MAX_CELLS * n_grids * pop_size)
                by (nonlinear_arith)
                requires
                    pop_size >= 1,
                    n_grids >= 0,
            ;
            assert(sub_max_len * n_grids * pop_size <= INP_CHS * GPU_MAX_CELLS * n_grids * pop_size)
                by (nonlinear_arith)
                requires
                    sub_max_len * n_grids <= INP_CHS * GPU_MAX_CELLS * n_grids,
                    pop_size >= 0,
            ;
        }
        let ind_subs_total_len: usize = sub_max_len * n_grids;
        let pop_sub_total_len: usize = ind_subs_total_len * pop_size;
        LaunchPlan {
            n_grids,
            pop_size,
            max_grid_size,
            max_steps: max_steps[0],
            shared_mem_bytes: max_grid_size * INP_CHS * VALUE_BYTES,
            sub_max_len,
            ind_subs_total_len,
            pop_sub_total_len,
            pop_params_len: pop_size * N_PARAMS,
        }
    }

    /// Where the substrate of individual `ind_idx` for grid `grid_idx` starts
    /// in the buffer of all substrates.
    pub fn substrate_start(&self, ind_idx: usize, grid_idx: usize) -> (start: usize)
        requires
            ind_idx < self.pop_size,
            grid_idx < self.n_grids,
            self.ind_subs_total_len == self.sub_max_len * self.n_grids,
            self.pop_sub_total_len == self.ind_subs_total_len * self.pop_size,
        ensures
            start == ind_idx * self.ind_subs_total_len + grid_idx * self.sub_max_len,
            start + self.sub_max_len <= self.pop_sub_total_len,
    {
        proof {
            let a = self.ind_subs_total_len as int;
            let s = self.sub_max_len as int;
            let g = self.n_grids as int;
            let p = self.pop_size as int;
            assert(grid_idx * s + s <= g * s) by (nonlinear_arith)
                requires
                    0 <= grid_idx < g,
                    s >= 0,
            ;
            assert(g * s == s * g) by (nonlinear_arith);
            assert(ind_idx * a + a <= p * a) by (nonlinear_arith)
                requires
                    0 <= ind_idx < p,
                    a >= 0,
            ;
            assert(p * a == a * p) by (nonlinear_arith);
            assert(ind_idx * a >= 0) by (nonlinear_arith)
                requires
                    ind_idx >= 0,
                    a >= 0,
            ;
            assert(grid_idx * s >= 0) by (nonlinear_arith)
                requires
                    grid_idx >= 0,
                    s >= 0,
            ;
        }
        ind_idx * self.ind_subs_total_len + grid_idx * self.sub_max_len
    }
}

/// The slot of the device pool that a worker uses: its index in the worker
/// pool, or zero outside of one, modulo the size of the device pool.
pub fn pool_slot(thread_index: Option<usize>, pool_size: usize) -> (slot: usize)
    requires
        pool_size > 0,
    ensures
        slot == (match thread_index {
            Some(i) => i as int,
            None => 0,
        }) % (pool_size as int),
        slot < pool_size,
{
    let index: usize = match thread_index {
        Some(i) => i,
        None => 0,
    };
    index % pool_size
}

} // verus!
