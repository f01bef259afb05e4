//! The grid of samples: one optional escape estimate per cell.

use crate::config::{check_config, config_fault, ConfigError};
use rayon::iter::{IndexedParallelIterator, IntoParallelRefMutIterator, ParallelIterator};
use vstd::prelude::*;

verus! {

/// `rayon::ThreadPool`, a pool of worker threads. Nothing is known of what
/// it holds.
#[verifier::external_type_specification]
#[verifier::external_body]
pub struct ExThreadPool(rayon::ThreadPool);

/// `rayon::ThreadPoolBuildError`, the reason why a pool could not be
/// started. Nothing is known of what it holds.
#[verifier::external_type_specification]
#[verifier::external_body]
pub struct ExThreadPoolBuildError(rayon::ThreadPoolBuildError);

/// The samples of a rectangular grid of cells, column by column: the cell
/// `(x, y)` is `grid[x][y]`.
///
/// A cell is `None` where the point did not escape within the iteration
/// budget, and otherwise holds the ordering key of its escape estimate.
pub struct SampleResult {
    pub x_res: u32,
    pub y_res: u32,
    pub grid: Vec<Vec<Option<u64>>>,
}

impl View for SampleResult {
    type V = Seq<Seq<Option<u64>>>;

    /// The columns of the grid.
    open spec fn view(&self) -> Seq<Seq<Option<u64>>> {
        Seq::new(self.grid@.len(), |x: int| self.grid@[x]@)
    }
}

impl SampleResult {
    /// There are `x_res` columns of `y_res` cells each.
    pub open spec fn well_formed(&self) -> bool {
        &&& self@.len() == self.x_res
        &&& forall|x: int| 0 <= x < self@.len() ==> (#[trigger] self@[x]).len() == self.y_res
    }
}

/// The estimates among a run of samples, in their order: those of one
/// column, top to bottom, without the cells that did not escape.
pub open spec fn estimates(samples: Seq<Option<u64>>) -> Seq<u64>
    decreases samples.len(),
{
    if samples.len() == 0 {
        Seq::empty()
    } else {
        match samples.last() {
            Some(value) => estimates(samples.drop_last()).push(value),
            None => estimates(samples.drop_last()),
        }
    }
}

/// The estimates of all columns, first column first.
pub open spec fn diverged_values(columns: Seq<Seq<Option<u64>>>) -> Seq<u64>
    decreases columns.len(),
{
    if columns.len() == 0 {
        Seq::empty()
    } else {
        diverged_values(columns.drop_last()) + estimates(columns.last())
    }
}

/// Every cell of the column `x` holds what the sampler gave for it.
pub open spec fn column_sampled_by<F: Fn(u32, u32) -> Option<u64>>(
    column: Seq<Option<u64>>,
    x: u32,
    sampler: &F,
) -> bool {
    forall|y: u32| y < column.len() ==> sampler.ensures((x, y), #[trigger] column[y as int])
}

/// Every cell of every column holds what the sampler gave for it.
pub open spec fn sampled_by<F: Fn(u32, u32) -> Option<u64>>(
    columns: Seq<Seq<Option<u64>>>,
    sampler: &F,
) -> bool {
    forall|x: u32| x < columns.len() ==> column_sampled_by(#[trigger] columns[x as int], x, sampler)
}

/// A grid of `x_res` columns of `y_res` cells, none of them sampled yet.
fn empty_grid(x_res: u32, y_res: u32) -> (grid: Vec<Vec<Option<u64>>>)
    ensures
        grid.len() == x_res,
        forall|x: int| 0 <= x < grid.len() ==> (#[trigger] grid[x]).len() == y_res,
{
    let mut grid: Vec<Vec<Option<u64>>> = Vec::new();
    let mut x: u32 = 0;
    while x < x_res
        invariant
            x <= x_res,
            grid.len() == x,
            forall|i: int| 0 <= i < grid.len() ==> (#[trigger] grid[i]).len() == y_res,
        decreases x_res - x,
    {
        let mut column: Vec<Option<u64>> = Vec::new();
        let mut y: u32 = 0;
        while y < y_res
            invariant
                y <= y_res,
                column.len() == y,
            decreases y_res - y,
        {
            column.push(None);
            y += 1;
        }
        grid.push(column);
        x += 1;
    }
    grid
}

/// Samples the cells of the column `x`, top to bottom.
pub fn fill_column<F: Fn(u32, u32) -> Option<u64>>(
    column: &mut Vec<Option<u64>>,
    x: u32,
    sampler: &F,
)
    requires
        old(column).len() <= u32::MAX,
        forall|y: u32| y < old(column).len() ==> sampler.requires((x, y)),
    ensures
        final(column).len() == old(column).len(),
        column_sampled_by(final(column)@, x, sampler),
{
    let height: usize = column.len();
    let mut y: usize = 0;
    while y < height
        invariant
            y <= height,
            height == column.len(),
            height <= u32::MAX,
            forall|j: u32| j < height ==> sampler.requires((x, j)),
            forall|j: u32| j < y ==> sampler.ensures((x, j), #[trigger] column@[j as int]),
        decreases height - y,
    {
        let sample = sampler(x, y as u32);
        column[y] = sample;
        y += 1;
    }
}

/// Starts a pool of `workers` threads with `rayon::ThreadPoolBuilder`:
/// `new`, `num_threads` and `build`. Whether the threads could be started
/// lies with the machine, so nothing is said of the outcome. For no workers
/// rayon would choose a number of its own, which is the caller's to choose:
/// `requires` leaves that out.
#[verifier::external_body]
fn build_pool(workers: u32) -> (pool: Result<rayon::ThreadPool, rayon::ThreadPoolBuildError>)
    requires
        workers > 0,
{
    rayon::ThreadPoolBuilder::new().num_threads(workers as usize).build()
}

/// Runs `fill_column` on every column of the grid inside the pool, through
/// `rayon::ThreadPool::install` and rayon's `par_iter_mut`, `enumerate` and
/// `for_each`: each column is handed to the closure once, together with its
/// index, and the call returns when all of them are done. So the grid keeps
/// its shape and every column has been filled by `fill_column`.
#[verifier::external_body]
fn fill_columns_in_pool<F: Fn(u32, u32) -> Option<u64> + Sync>(
    pool: &rayon::ThreadPool,
    grid: &mut Vec<Vec<Option<u64>>>,
    sampler: &F,
)
    requires
        old(grid).len() <= u32::MAX,
        forall|x: u32|
            x < old(grid).len() ==> {
                &&& (#[trigger] old(grid)[x as int]).len() <= u32::MAX
                &&& forall|y: u32| y < old(grid)[x as int].len() ==> sampler.requires((x, y))
            },
    ensures
        final(grid).len() == old(grid).len(),
        forall|x: u32|
            x < final(grid).len() ==> {
                &&& (#[trigger] final(grid)[x as int]).len() == old(grid)[x as int].len()
                &&& column_sampled_by(final(grid)[x as int]@, x, sampler)
            },
{
    pool.install(
        || grid.par_iter_mut().enumerate().for_each(
            |(x, column)| fill_column(column, x as u32, sampler),
        ),
    );
}

/// Runs `fill_column` on every column of the grid, first column first.
fn fill_columns<F: Fn(u32, u32) -> Option<u64>>(grid: &mut Vec<Vec<Option<u64>>>, sampler: &F)
    requires
        old(grid).len() <= u32::MAX,
        forall|x: u32|
            x < old(grid).len() ==> {
                &&& (#[trigger] old(grid)[x as int]).len() <= u32::MAX
                &&& forall|y: u32| y < old(grid)[x as int].len() ==> sampler.requires((x, y))
            },
    ensures
        final(grid).len() == old(grid).len(),
        forall|x: u32|
            x < final(grid).len() ==> {
                &&& (#[trigger] final(grid)[x as int]).len() == old(grid)[x as int].len()
                &&& column_sampled_by(final(grid)[x as int]@, x, sampler)
            },
{
    let width: usize = grid.len();
    let mut x: usize = 0;
    while x < width
        invariant
            x <= width,
            width == grid.len(),
            width == old(grid).len(),
            width <= u32::MAX,
            forall|i: u32|
                i < width ==> (#[trigger] grid[i as int]).len() == old(grid)[i as int].len(),
            forall|i: u32|
                i < width ==> {
                    &&& (#[trigger] old(grid)[i as int]).len() <= u32::MAX
                    &&& forall|y: u32| y < old(grid)[i as int].len() ==> sampler.requires((i, y))
                },
            forall|i: u32| i < x ==> column_sampled_by((#[trigger] grid[i as int])@, i, sampler),
        decreases width - x,
    {
        fill_column(&mut grid[x], x as u32, sampler);
        x += 1;
    }
}

/// Samples a grid of `x_res` by `y_res` cells: the cell `(x, y)` holds what
/// `sampler(x, y)` returned.
///
/// The configuration is checked first, and a faulty one is turned down
/// before any cell is sampled: a grid without cells, a zoom that is not above
/// zero, a threshold that is not above one. Zoom and threshold are doubles,
/// given by their bit patterns; the sampler has them in its own form.
///
/// The columns are handed to a pool of `worker_count` threads, each column
/// to one of them. Where no pool can be had, with no workers or because the
/// threads do not start, the calling thread computes every column itself.
/// Either way the call returns when every cell has been sampled.
pub fn sample_grid<F: Fn(u32, u32) -> Option<u64> + Sync>(
    x_res: u32,
    y_res: u32,
    zoom: u64,
    threshold: u64,
    worker_count: u32,
    sampler: &F,
) -> (result: Result<SampleResult, ConfigError>)
    requires
        forall|x: u32, y: u32| x < x_res && y < y_res ==> sampler.requires((x, y)),
    ensures
        match config_fault(x_res, y_res, zoom, threshold) {
            Some(fault) => result matches Err(found) && found == fault,
            None => result matches Ok(data) && {
                &&& data.x_res == x_res
                &&& data.y_res == y_res
                &&& data.well_formed()
                &&& sampled_by(data@, sampler)
            },
        },
{
    if let Err(fault) = check_config(x_res, y_res, zoom, threshold) {
        return Err(fault);
    }
    let mut grid = empty_grid(x_res, y_res);
    if worker_count == 0 {
        fill_columns(&mut grid, sampler);
    } else {
        match build_pool(worker_count) {
            Ok(pool) => fill_columns_in_pool(&pool, &mut grid, sampler),
            Err(_) => fill_columns(&mut grid, sampler),
        }
    }
    let data = SampleResult { x_res, y_res, grid };
    assert(data@.len() == x_res);
    assert forall|x: u32| x < data@.len() implies column_sampled_by(
        #[trigger] data@[x as int],
        x,
        sampler,
    ) by {
        assert(data@[x as int] == data.grid[x as int]@);
    }
    Ok(data)
}

/// Whether the sampler can give each cell of the grid one value only.
pub open spec fn single_valued<F: Fn(u32, u32) -> Option<u64>>(
    sampler: &F,
    x_res: u32,
    y_res: u32,
) -> bool {
    forall|x: u32, y: u32, first: Option<u64>, second: Option<u64>|
        x < x_res && y < y_res && #[trigger] sampler.ensures((x, y), first)
            && #[trigger] sampler.ensures((x, y), second) ==> first == second
}

/// Two grids of one size that were sampled by the same single-valued sampler
/// hold the same cells: the number of workers, and which of them computed a
/// column, leave no trace in the result.
pub proof fn lemma_sampling_determined<F: Fn(u32, u32) -> Option<u64>>(
    first: SampleResult,
    second: SampleResult,
    sampler: &F,
)
    requires
        first.well_formed(),
        second.well_formed(),
        first.x_res == second.x_res,
        first.y_res == second.y_res,
        sampled_by(first@, sampler),
        sampled_by(second@, sampler),
        single_valued(sampler, first.x_res, first.y_res),
    ensures
        first@ == second@,
{
    assert forall|x: int| 0 <= x < first@.len() implies first@[x] == second@[x] by {
        let column: u32 = x as u32;
        assert(column_sampled_by(first@[column as int], column, sampler));
        assert(column_sampled_by(second@[column as int], column, sampler));
        assert forall|y: int| 0 <= y < first@[x].len() implies first@[x][y] == second@[x][y] by {
            let row: u32 = y as u32;
            assert(sampler.ensures((column, row), first@[x][row as int]));
            assert(sampler.ensures((column, row), second@[x][row as int]));
        }
        assert(first@[x] =~= second@[x]);
    }
    assert(first@ =~= second@);
}

} // verus!
