//! The grid buffer: one iteration count per pixel, stored row by row.

use vstd::prelude::*;
use crate::checksum::{
    all_within, lemma_sum_bounded, lemma_sum_nonnegative, lemma_sum_prefix, sum_of,
};
use crate::config::{Config, ConfigError};
use crate::order::{cell_index, in_grid, lemma_index_of_cell};

verus! {

/// Why a cell was not written.
#[derive(Clone, Copy, Debug, PartialEq, Eq, Structural)]
pub enum GridError {
    /// The pixel lies outside the grid.
    OutOfBounds,
    /// The count is larger than the grid's limit.
    CountTooLarge,
}

/// A `width` by `height` buffer of iteration counts, none above `limit`.
#[derive(Debug)]
pub struct Grid {
    width: usize,
    height: usize,
    limit: u64,
    cells: Vec<u64>,
}

impl View for Grid {
    type V = Seq<u64>;

    /// The counts of the grid, row by row.
    closed spec fn view(&self) -> Seq<u64> {
        self.cells@
    }
}

impl Grid {
    /// Number of pixel columns.
    pub closed spec fn spec_width(&self) -> usize {
        self.width
    }

    /// Number of pixel rows.
    pub closed spec fn spec_height(&self) -> usize {
        self.height
    }

    /// Largest count a cell may hold.
    pub closed spec fn spec_limit(&self) -> u64 {
        self.limit
    }

    /// The grid has one cell per pixel, no cell is above the limit, and the
    /// sum of a grid full of limit counts still fits 64 bits.
    pub open spec fn wf(&self) -> bool {
        &&& self.spec_width() > 0
        &&& self.spec_height() > 0
        &&& self@.len() == self.spec_width() * self.spec_height()
        &&& all_within(self@, self.spec_limit() as int)
        &&& self@.len() * self.spec_limit() <= u64::MAX
    }

    /// Two grids have the same shape and the same limit.
    pub open spec fn same_shape(&self, other: &Grid) -> bool {
        &&& self.spec_width() == other.spec_width()
        &&& self.spec_height() == other.spec_height()
        &&& self.spec_limit() == other.spec_limit()
    }

    /// The pixel `(x, y)` lies inside the grid.
    pub open spec fn contains_pixel(&self, x: int, y: int) -> bool {
        in_grid(self.spec_width() as int, self.spec_height() as int, x, y)
    }

    /// The count stored for pixel `(x, y)`.
    pub open spec fn at(&self, x: int, y: int) -> u64 {
        self@[cell_index(self.spec_width() as int, x, y)]
    }

    /// The checksum of a well-formed grid fits 64 bits.
    pub proof fn lemma_checksum_fits(&self)
        requires
            self.wf(),
        ensures
            0 <= sum_of(self@) <= u64::MAX,
    {
        lemma_sum_nonnegative(self@);
        lemma_sum_bounded(self@, self.spec_limit() as int);
    }

    /// A grid of zero counts for a valid configuration; the configuration's
    /// first defect otherwise.
    pub fn new(config: &Config) -> (made: Result<Grid, ConfigError>)
        ensures
            match made {
                Ok(grid) => {
                    &&& config.valid()
                    &&& grid.wf()
                    &&& grid.spec_width() == config.width
                    &&& grid.spec_height() == config.height
                    &&& grid.spec_limit() == config.max_iter
                    &&& grid@ == Seq::new(config.cell_count() as nat, |i: int| 0u64)
                },
                Err(defect) => config.verdict() == Err::<(), ConfigError>(defect),
            },
    {
        match config.validate() {
            Err(defect) => Err(defect),
            Ok(()) => {
                let count: usize = config.width * config.height;
                let cells: Vec<u64> = vec![0u64; count];
                let grid = Grid {
                    width: config.width,
                    height: config.height,
                    limit: config.max_iter,
                    cells,
                };
                assert(grid@ =~= Seq::new(config.cell_count() as nat, |i: int| 0u64));
                Ok(grid)
            },
        }
    }

    /// Number of pixel columns.
    #[verifier::when_used_as_spec(spec_width)]
    pub fn width(&self) -> (width: usize)
        ensures
            width == self.spec_width(),
    {
        self.width
    }

    /// Number of pixel rows.
    #[verifier::when_used_as_spec(spec_height)]
    pub fn height(&self) -> (height: usize)
        ensures
            height == self.spec_height(),
    {
        self.height
    }

    /// Largest count a cell may hold.
    #[verifier::when_used_as_spec(spec_limit)]
    pub fn limit(&self) -> (limit: u64)
        ensures
            limit == self.spec_limit(),
    {
        self.limit
    }

    /// The counts of the grid, row by row.
    pub fn cells(&self) -> (cells: &Vec<u64>)
        ensures
            cells@ == self@,
    {
        &self.cells
    }

    /// Number of cells: one per pixel.
    pub fn len(&self) -> (len: usize)
        requires
            self.wf(),
        ensures
            len == self@.len(),
            len == self.spec_width() * self.spec_height(),
    {
        self.cells.len()
    }

    /// Stores `count` in the cell at `index`.
    pub(crate) fn store(&mut self, index: usize, count: u64)
        requires
            old(self).wf(),
            index < old(self)@.len(),
            count <= old(self).spec_limit(),
        ensures
            final(self).wf(),
            final(self).same_shape(old(self)),
            final(self)@ == old(self)@.update(index as int, count),
    {
        self.cells[index] = count;
    }

    /// The count of pixel `(x, y)`, or nothing for a pixel outside the grid.
    pub fn get(&self, x: usize, y: usize) -> (count: Option<u64>)
        requires
            self.wf(),
        ensures
            count == if self.contains_pixel(x as int, y as int) {
                Some(self.at(x as int, y as int))
            } else {
                None
            },
    {
        if x < self.width && y < self.height {
            proof {
                lemma_index_of_cell(self.width as int, self.height as int, x as int, y as int);
                assert(self.cells.len() == self.width * self.height);
            }
            Some(self.cells[y * self.width + x])
        } else {
            None
        }
    }

    /// Stores `count` for pixel `(x, y)` and leaves every other cell as it
    /// was.  A pixel outside the grid or a count above the limit is turned
    /// down and the grid stays unchanged.
    pub fn set(&mut self, x: usize, y: usize, count: u64) -> (stored: Result<(), GridError>)
        requires
            old(self).wf(),
        ensures
            final(self).wf(),
            final(self).same_shape(old(self)),
            stored == if !old(self).contains_pixel(x as int, y as int) {
                Err::<(), GridError>(GridError::OutOfBounds)
            } else if count > old(self).spec_limit() {
                Err::<(), GridError>(GridError::CountTooLarge)
            } else {
                Ok::<(), GridError>(())
            },
            stored.is_ok() ==> final(self)@ == old(self)@.update(
                cell_index(old(self).spec_width() as int, x as int, y as int),
                count,
            ),
            stored.is_err() ==> final(self)@ == old(self)@,
    {
        if !(x < self.width && y < self.height) {
            return Err(GridError::OutOfBounds);
        }
        if count > self.limit {
            return Err(GridError::CountTooLarge);
        }
        proof {
            lemma_index_of_cell(self.width as int, self.height as int, x as int, y as int);
            assert(self.cells.len() == self.width * self.height);
        }
        self.store(y * self.width + x, count);
        Ok(())
    }

    /// The checksum of the grid: the sum of all its counts.
    pub fn checksum(&self) -> (sum: u64)
        requires
            self.wf(),
        ensures
            sum == sum_of(self@),
    {
        let mut sum: u64 = 0;
        let mut i: usize = 0;
        proof {
            self.lemma_checksum_fits();
            assert(self.cells@.take(0) =~= Seq::<u64>::empty());
        }
        while i < self.cells.len()
            invariant
                i <= self.cells.len(),
                sum == sum_of(self.cells@.take(i as int)),
                sum_of(self.cells@) <= u64::MAX,
            decreases self.cells.len() - i,
        {
            proof {
                let next = self.cells@.take(i + 1);
                assert(next.drop_last() =~= self.cells@.take(i as int));
                assert(next.last() == self.cells@[i as int]);
                lemma_sum_prefix(self.cells@, i + 1);
            }
            sum = sum + self.cells[i];
            i = i + 1;
        }
        proof {
            assert(self.cells@.take(i as int) =~= self.cells@);
        }
        sum
    }
}

} // verus!
