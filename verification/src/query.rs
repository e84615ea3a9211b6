//! Turning a similarity query into an exact plan for the numeric kernel.
//!
//! A query names a metric, two loaded sources, a step of each, and one cell
//! of the first. The planner looks both entries up, validates the metric
//! name, and extracts every bit pattern the kernel folds: the base vector,
//! its norm, the full target step block in row-major cell order, the target
//! norms, and the per-channel means. The floating-point folds over the plan
//! run with the host; the plan pins down word for word what they are fed,
//! and with it the row-major index convention of the returned grid.

use crate::error::SimError;
use crate::metric::{metric_of_name, Metric};
use crate::store::{CacheEntry, Store};
use crate::tensor::{
    flat_index, lemma_block_index, lemma_cell_in_grid, lemma_cell_offset, lemma_cell_window,
    lemma_flat_index_bounds, lemma_stat_offsets, lemma_step_offset,
};
use vstd::prelude::*;

verus! {

/// Everything the numeric kernel folds for one query, extracted exactly.
pub struct QueryPlan {
    /// The validated metric.
    pub metric: Metric,
    /// Side length of the spatial grid.
    pub n: usize,
    /// Channels per cell.
    pub m: usize,
    /// The m storage words of the queried cell at step1 of the first tensor.
    pub base: Vec<u16>,
    /// Norm bits of the queried cell at step1.
    pub base_norm: u32,
    /// The n * n * m storage words of step2 of the second tensor, cells in
    /// row-major order: cell (i, j) occupies the window (i * n + j) * m.
    pub targets: Vec<u16>,
    /// Norm bits of every cell at step2, same cell order.
    pub target_norms: Vec<u32>,
    /// Mean bits of the m channels at step1 of the first entry.
    pub base_means: Vec<u32>,
    /// Mean bits of the m channels at step2 of the second entry.
    pub target_means: Vec<u32>,
}

/// The plan holds exactly the windows of the two entries that the query
/// selects. Stated for entries that share one shape.
pub open spec fn plan_matches(
    p: QueryPlan,
    e1: CacheEntry,
    e2: CacheEntry,
    metric: Metric,
    step1: int,
    step2: int,
    row: int,
    col: int,
) -> bool {
    let shape = e1.tensor.shape;
    let cell = row * shape.n + col;
    let cells = shape.cells();
    let m = shape.m;
    &&& p.metric == metric
    &&& p.n == shape.n
    &&& p.m == m
    &&& p.base@ == e1.tensor.data@.subrange(
        flat_index(shape, step1, cell, 0),
        flat_index(shape, step1, cell, 0) + m,
    )
    &&& p.base_norm == e1.stats.norms@[step1 * cells + cell]
    &&& p.targets@ == e2.tensor.data@.subrange(
        step2 * (cells * m),
        step2 * (cells * m) + cells * m,
    )
    &&& p.target_norms@ == e2.stats.norms@.subrange(step2 * cells, step2 * cells + cells)
    &&& p.base_means@ == e1.stats.means@.subrange(step1 * m, step1 * m + m)
    &&& p.target_means@ == e2.stats.means@.subrange(step2 * m, step2 * m + m)
}

/// Copies a window of a statistics array.
fn copy_range(v: &Vec<u32>, start: usize, len: usize) -> (r: Vec<u32>)
    requires
        start + len <= v@.len(),
    ensures
        r@ == v@.subrange(start as int, start as int + len),
{
    let total = v.len();
    let mut r: Vec<u32> = Vec::new();
    let mut k: usize = 0;
    while k < len
        invariant
            start + len <= v@.len(),
            v@.len() == total,
            k <= len,
            r@.len() == k,
            forall|j: int| 0 <= j < k ==> r@[j] == v@[start + j],
        decreases len - k,
    {
        r.push(v[start + k]);
        k += 1;
    }
    proof {
        assert(r@ =~= v@.subrange(start as int, start as int + len));
    }
    r
}

/// Extracts the plan of one query from two loaded entries.
///
/// The bounds and the shared shape are the caller's preconditions, exactly as
/// the kernel's contract has them; the two entries may alias one entry.
pub fn plan_query(
    e1: &CacheEntry,
    e2: &CacheEntry,
    metric: Metric,
    step1: usize,
    step2: usize,
    row: usize,
    col: usize,
) -> (p: QueryPlan)
    requires
        e1.wf(),
        e2.wf(),
        e1.shape() == e2.shape(),
        step1 < e1.shape().steps,
        step2 < e1.shape().steps,
        row < e1.shape().n,
        col < e1.shape().n,
    ensures
        plan_matches(p, *e1, *e2, metric, step1 as int, step2 as int, row as int, col as int),
{
    let shape = e1.tensor.shape;
    proof {
        lemma_cell_in_grid(row as int, col as int, shape.n as int);
        lemma_stat_offsets(shape, step1 as int);
        lemma_stat_offsets(shape, step2 as int);
    }
    let cell = row * shape.n + col;
    let cells = shape.cell_count();
    let m = shape.m;
    proof {
        lemma_cell_offset(shape, step1 as int, cell as int);
    }
    let norms1_len = e1.stats.norms.len();
    let norms2_len = e2.stats.norms.len();
    let means1_len = e1.stats.means.len();
    let means2_len = e2.stats.means.len();
    let base_norm = e1.stats.norms[step1 * cells + cell];
    let base = e1.tensor.cell_vector(step1, cell);
    let targets = e2.tensor.step_block(step2);
    let target_norms = copy_range(&e2.stats.norms, step2 * cells, cells);
    let base_means = copy_range(&e1.stats.means, step1 * m, m);
    let target_means = copy_range(&e2.stats.means, step2 * m, m);
    QueryPlan {
        metric,
        n: shape.n,
        m,
        base,
        base_norm,
        targets,
        target_norms,
        base_means,
        target_means,
    }
}

/// Answers one similarity query up to the numeric folds: looks both sources
/// up, validates the metric name, and extracts the plan.
///
/// A missing source is the not-loaded failure (checked first, as loading is
/// the caller's usual remedy); an unknown metric name is the
/// invalid-argument failure. The bounds and the shared shape of entries that
/// are both present are the caller's preconditions.
pub fn prepare_similarity(
    store: &Store,
    metric_name: &str,
    id1: &str,
    id2: &str,
    step1: usize,
    step2: usize,
    row: usize,
    col: usize,
) -> (r: Result<QueryPlan, SimError>)
    requires
        store.wf(),
        store@.dom().contains(id1@) && store@.dom().contains(id2@) ==> {
            let e1 = store@[id1@];
            let e2 = store@[id2@];
            &&& e1.shape() == e2.shape()
            &&& step1 < e1.shape().steps
            &&& step2 < e1.shape().steps
            &&& row < e1.shape().n
            &&& col < e1.shape().n
        },
    ensures
        r == Err::<QueryPlan, SimError>(SimError::NotLoaded) <==> !(store@.dom().contains(id1@)
            && store@.dom().contains(id2@)),
        store@.dom().contains(id1@) && store@.dom().contains(id2@) ==> match r {
            Ok(p) => {
                &&& metric_of_name(metric_name@) == Ok::<Metric, SimError>(p.metric)
                &&& plan_matches(
                    p,
                    store@[id1@],
                    store@[id2@],
                    p.metric,
                    step1 as int,
                    step2 as int,
                    row as int,
                    col as int,
                )
            },
            Err(e) => {
                &&& e == SimError::InvalidMetric
                &&& metric_of_name(metric_name@) == Err::<Metric, SimError>(
                    SimError::InvalidMetric,
                )
            },
        },
{
    let e1 = match store.get(id1) {
        Some(e) => e,
        None => {
            return Err(SimError::NotLoaded);
        },
    };
    let e2 = match store.get(id2) {
        Some(e) => e,
        None => {
            return Err(SimError::NotLoaded);
        },
    };
    let metric = match Metric::parse(metric_name) {
        Ok(m) => m,
        Err(e) => {
            return Err(e);
        },
    };
    proof {
        store.lemma_entries_wf();
    }
    Ok(plan_query(e1, e2, metric, step1, step2, row, col))
}

/// What the plan hands the kernel, word by word: channel `chan` of the base
/// vector is the first tensor's word at (step1, row * n + col, chan); within
/// the target block, cell `cell` occupies the window cell * m .. cell * m + m
/// and its channel `chan` is the second tensor's word at (step2, cell, chan);
/// the statistics windows read the same way.
pub proof fn lemma_plan_words(
    p: QueryPlan,
    e1: CacheEntry,
    e2: CacheEntry,
    metric: Metric,
    step1: int,
    step2: int,
    row: int,
    col: int,
    cell: int,
    chan: int,
)
    requires
        e1.wf(),
        e2.wf(),
        e1.shape() == e2.shape(),
        0 <= step1 < e1.shape().steps,
        0 <= step2 < e1.shape().steps,
        0 <= row < e1.shape().n,
        0 <= col < e1.shape().n,
        plan_matches(p, e1, e2, metric, step1, step2, row, col),
        0 <= cell < e1.shape().cells(),
        0 <= chan < e1.shape().m,
    ensures
        p.base@[chan] == e1.tensor.at(step1, row * e1.shape().n + col, chan),
        p.targets@[cell * e1.shape().m + chan] == e2.tensor.at(step2, cell, chan),
        p.target_norms@[cell] == e2.stats.norms@[step2 * e1.shape().cells() + cell],
        p.base_means@[chan] == e1.stats.means@[step1 * e1.shape().m + chan],
        p.target_means@[chan] == e2.stats.means@[step2 * e1.shape().m + chan],
{
    let shape = e1.tensor.shape;
    let qcell = row * shape.n + col;
    lemma_cell_in_grid(row, col, shape.n as int);
    lemma_flat_index_bounds(shape, step1, qcell, chan);
    lemma_block_index(shape, step2, cell, chan);
    lemma_step_offset(shape, step2);
    lemma_stat_offsets(shape, step1);
    lemma_stat_offsets(shape, step2);
}

/// Law (self-comparison alignment): in a query that compares an entry with
/// itself at one step, the target-block window of the queried cell holds
/// exactly the base vector's words, and the target norm at the queried cell
/// is exactly the base norm — the kernel folds the queried vector against the
/// very same bit pattern.
pub proof fn lemma_self_comparison_aligned(
    p: QueryPlan,
    e: CacheEntry,
    metric: Metric,
    step: int,
    row: int,
    col: int,
)
    requires
        e.wf(),
        0 <= step < e.shape().steps,
        0 <= row < e.shape().n,
        0 <= col < e.shape().n,
        plan_matches(p, e, e, metric, step, step, row, col),
    ensures
        ({
            let cell = row * e.shape().n + col;
            let m = e.shape().m;
            p.targets@.subrange(cell * m, cell * m + m) == p.base@
        }),
        p.target_norms@[row * e.shape().n + col] == p.base_norm,
{
    let shape = e.tensor.shape;
    let cell = row * shape.n + col;
    let m = shape.m;
    lemma_cell_in_grid(row, col, shape.n as int);
    lemma_step_offset(shape, step);
    lemma_cell_window(shape, step, cell);
    assert forall|c: int| 0 <= c < m implies p.targets@.subrange(cell * m, cell * m + m)[c]
        == p.base@[c] by {
        lemma_block_index(shape, step, cell, c);
        lemma_flat_index_bounds(shape, step, cell, c);
    }
    assert(p.targets@.subrange(cell * m, cell * m + m) =~= p.base@);
    lemma_stat_offsets(shape, step);
}

} // verus!
