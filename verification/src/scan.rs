//! One pass over the grid, pixel by pixel.
//!
//! A [`Scan`] hands out the pixels of the grid in its visiting order and
//! takes back the iteration count of each.  It stores the count in the cell
//! of the pixel and adds it to a running checksum.

use vstd::prelude::*;
use crate::checksum::{
    lemma_sum_bounded, lemma_sum_where_add, lemma_sum_where_range, sum_of, sum_where,
};
use crate::grid::Grid;
use crate::order::{
    cell_index, lemma_each_cell_once, lemma_index_of_cell, lemma_pixel_of_step, pixel_at,
    step_of_cell, ScanOrder,
};

verus! {

/// Why a count was not recorded.
#[derive(Clone, Copy, Debug, PartialEq, Eq, Structural)]
pub enum ScanError {
    /// Every pixel has its count already.
    Complete,
    /// The count is larger than the grid's limit.
    CountTooLarge,
}

/// A finished pass: the grid and the sum of its counts.
#[derive(Debug)]
pub struct Pass {
    /// The counts of all pixels.
    pub grid: Grid,
    /// The sum of all counts.
    pub checksum: u64,
}

impl Pass {
    /// The checksum is the sum of the cells of a well-formed grid.
    pub open spec fn wf(&self) -> bool {
        &&& self.grid.wf()
        &&& self.checksum == sum_of(self.grid@)
    }
}

/// The cells that a pass in the given order has visited after `steps`
/// steps.
pub open spec fn visited(order: ScanOrder, width: int, height: int, steps: int) -> spec_fn(
    int,
) -> bool {
    |index: int| step_of_cell(order, width, height, index) < steps
}

/// A pass in progress.
#[derive(Debug)]
pub struct Scan {
    grid: Grid,
    order: ScanOrder,
    steps: usize,
    checksum: u64,
}

impl Scan {
    /// The grid as the pass has filled it so far.
    pub closed spec fn spec_grid(&self) -> Grid {
        self.grid
    }

    /// The visiting order of the pass.
    pub closed spec fn spec_order(&self) -> ScanOrder {
        self.order
    }

    /// Number of pixels whose count has been recorded.
    pub closed spec fn spec_steps(&self) -> usize {
        self.steps
    }

    /// Sum of the counts recorded so far.
    pub closed spec fn spec_checksum(&self) -> u64 {
        self.checksum
    }

    /// The sum of the cells that the pass has visited.
    pub open spec fn visited_sum(&self) -> int {
        let grid = self.spec_grid();
        sum_where(
            grid@,
            visited(
                self.spec_order(),
                grid.spec_width() as int,
                grid.spec_height() as int,
                self.spec_steps() as int,
            ),
            grid@.len(),
        )
    }

    /// The pass has visited no more cells than the grid has, and its
    /// checksum is the sum of the cells it has visited.
    pub open spec fn wf(&self) -> bool {
        &&& self.spec_grid().wf()
        &&& self.spec_steps() <= self.spec_grid()@.len()
        &&& self.spec_checksum() == self.visited_sum()
    }

    /// Every pixel has its count.
    pub open spec fn complete(&self) -> bool {
        self.spec_steps() == self.spec_grid()@.len()
    }

    /// The pixel whose count the pass takes next.
    pub open spec fn next(&self) -> (int, int) {
        pixel_at(
            self.spec_order(),
            self.spec_grid().spec_width() as int,
            self.spec_grid().spec_height() as int,
            self.spec_steps() as int,
        )
    }

    /// Once every pixel has its count, the checksum is the sum of the whole
    /// grid, whatever the visiting order was.
    pub proof fn lemma_complete_checksum(&self)
        requires
            self.wf(),
            self.complete(),
        ensures
            self.spec_checksum() == sum_of(self.spec_grid()@),
    {
        let cells = self.spec_grid()@;
        let width = self.spec_grid().spec_width() as int;
        let height = self.spec_grid().spec_height() as int;
        let seen = visited(self.spec_order(), width, height, self.spec_steps() as int);
        lemma_each_cell_once(self.spec_order(), width, height);
        assert forall|i: int| 0 <= i < cells.len() implies #[trigger] seen(i) by {
            assert(step_of_cell(self.spec_order(), width, height, i) < cells.len());
        }
        lemma_sum_where_range(cells, seen, cells.len());
        assert(cells.take(cells.len() as int) =~= cells);
    }

    /// Starts a pass over `grid`.  The counts of an earlier pass stay in
    /// the grid until this pass overwrites them; they do not enter its
    /// checksum.
    pub fn begin(grid: Grid, order: ScanOrder) -> (scan: Scan)
        requires
            grid.wf(),
        ensures
            scan.wf(),
            scan.spec_grid() == grid,
            scan.spec_order() == order,
            scan.spec_steps() == 0,
            scan.spec_checksum() == 0,
    {
        proof {
            let width = grid.spec_width() as int;
            let height = grid.spec_height() as int;
            lemma_each_cell_once(order, width, height);
            lemma_sum_where_range(grid@, visited(order, width, height, 0), grid@.len());
        }
        Scan { grid, order, steps: 0, checksum: 0 }
    }

    /// The grid as the pass has filled it so far.
    pub fn grid(&self) -> (grid: &Grid)
        ensures
            *grid == self.spec_grid(),
    {
        &self.grid
    }

    /// The visiting order of the pass.
    #[verifier::when_used_as_spec(spec_order)]
    pub fn order(&self) -> (order: ScanOrder)
        ensures
            order == self.spec_order(),
    {
        self.order
    }

    /// Number of pixels whose count has been recorded.
    #[verifier::when_used_as_spec(spec_steps)]
    pub fn steps(&self) -> (steps: usize)
        ensures
            steps == self.spec_steps(),
    {
        self.steps
    }

    /// Sum of the counts recorded so far.
    #[verifier::when_used_as_spec(spec_checksum)]
    pub fn checksum(&self) -> (checksum: u64)
        ensures
            checksum == self.spec_checksum(),
    {
        self.checksum
    }

    /// Whether every pixel has its count.
    pub fn is_complete(&self) -> (complete: bool)
        requires
            self.wf(),
        ensures
            complete == self.complete(),
    {
        self.steps == self.grid.len()
    }

    /// The pixel whose count the pass takes next.
    fn current(&self) -> (pixel: (usize, usize))
        requires
            self.wf(),
            !self.complete(),
        ensures
            (pixel.0 as int, pixel.1 as int) == self.next(),
            self.spec_grid().contains_pixel(pixel.0 as int, pixel.1 as int),
    {
        proof {
            lemma_pixel_of_step(
                self.order,
                self.grid.spec_width() as int,
                self.grid.spec_height() as int,
                self.steps as int,
            );
        }
        match self.order {
            ScanOrder::RowMajor => (self.steps % self.grid.width(), self.steps / self.grid.width()),
            ScanOrder::ColumnMajor => (
                self.steps / self.grid.height(),
                self.steps % self.grid.height(),
            ),
        }
    }

    /// The pixel whose count the pass takes next, or nothing once every
    /// pixel has its count.
    pub fn next_pixel(&self) -> (pixel: Option<(usize, usize)>)
        requires
            self.wf(),
        ensures
            self.complete() <==> pixel.is_none(),
            pixel matches Some((x, y)) ==> {
                &&& (x as int, y as int) == self.next()
                &&& self.spec_grid().contains_pixel(x as int, y as int)
            },
    {
        if self.is_complete() {
            None
        } else {
            Some(self.current())
        }
    }

    /// Records `count` for the next pixel: stores it in the pixel's cell,
    /// adds it to the checksum and moves on.  Once the pass is complete, or
    /// for a count above the grid's limit, nothing changes.
    pub fn record(&mut self, count: u64) -> (recorded: Result<(), ScanError>)
        requires
            old(self).wf(),
        ensures
            final(self).wf(),
            final(self).spec_order() == old(self).spec_order(),
            final(self).spec_grid().same_shape(&old(self).spec_grid()),
            recorded == if old(self).complete() {
                Err::<(), ScanError>(ScanError::Complete)
            } else if count > old(self).spec_grid().spec_limit() {
                Err::<(), ScanError>(ScanError::CountTooLarge)
            } else {
                Ok::<(), ScanError>(())
            },
            recorded.is_ok() ==> {
                let (x, y) = old(self).next();
                let width = old(self).spec_grid().spec_width() as int;
                &&& final(self).spec_grid()@ == old(self).spec_grid()@.update(
                    cell_index(width, x, y),
                    count,
                )
                &&& final(self).spec_steps() == old(self).spec_steps() + 1
                &&& final(self).spec_checksum() == old(self).spec_checksum() + count
            },
            recorded.is_err() ==> *final(self) == *old(self),
    {
        let total = self.grid.len();
        if self.steps == total {
            return Err(ScanError::Complete);
        }
        if count > self.grid.limit() {
            return Err(ScanError::CountTooLarge);
        }
        let (x, y) = self.current();
        let ghost width = self.grid.spec_width() as int;
        let ghost height = self.grid.spec_height() as int;
        let ghost index = cell_index(width, x as int, y as int);
        let ghost before = self.grid@;
        let ghost steps = self.steps as int;
        proof {
            let order = self.order;
            let after = before.update(index, count);
            lemma_index_of_cell(width, height, x as int, y as int);
            lemma_each_cell_once(order, width, height);
            assert(step_of_cell(order, width, height, index) == steps);
            assert forall|i: int| 0 <= i < before.len() && i != index implies #[trigger] visited(
                order,
                width,
                height,
                steps,
            )(i) == #[trigger] visited(order, width, height, steps + 1)(i) by {
                assert(step_of_cell(order, width, height, i) != steps);
            }
            lemma_sum_where_add(
                before,
                visited(order, width, height, steps),
                visited(order, width, height, steps + 1),
                index,
                count,
                before.len(),
            );
            lemma_sum_where_range(
                after,
                visited(order, width, height, steps + 1),
                after.len(),
            );
            assert(after.take(after.len() as int) =~= after);
            lemma_sum_bounded(after, self.grid.spec_limit() as int);
        }
        self.grid.store(y * self.grid.width() + x, count);
        self.checksum = self.checksum + count;
        self.steps = self.steps + 1;
        Ok(())
    }

    /// The finished pass of a complete scan.
    fn seal(self) -> (pass: Pass)
        requires
            self.wf(),
            self.complete(),
        ensures
            pass.wf(),
            pass.grid == self.spec_grid(),
            pass.checksum == self.spec_checksum(),
    {
        proof {
            self.lemma_complete_checksum();
        }
        Pass { grid: self.grid, checksum: self.checksum }
    }

    /// The finished pass, whose checksum is the sum of the whole grid, or
    /// nothing while a pixel is still without its count.
    pub fn finish(self) -> (done: Option<Pass>)
        requires
            self.wf(),
        ensures
            self.complete() <==> done.is_some(),
            done matches Some(pass) ==> {
                &&& pass.wf()
                &&& pass.grid == self.spec_grid()
                &&& pass.checksum == self.spec_checksum()
            },
    {
        if self.is_complete() {
            Some(self.seal())
        } else {
            None
        }
    }

    /// Gives the pass up and hands the grid back as it stands.
    pub fn into_grid(self) -> (grid: Grid)
        ensures
            grid == self.spec_grid(),
    {
        self.grid
    }
}

} // verus!
