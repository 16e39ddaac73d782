//! Benchmark configuration and its validation.

use vstd::prelude::*;
use crate::order::ScanOrder;

verus! {

/// Why a configuration was turned down.
#[derive(Clone, Copy, Debug, PartialEq, Eq, Structural)]
pub enum ConfigError {
    /// The grid has no columns.
    ZeroWidth,
    /// The grid has no rows.
    ZeroHeight,
    /// `width * height` does not fit the machine's index type.
    GridTooLarge,
    /// `width * height * max_iter` does not fit the 64-bit checksum.
    ChecksumTooLarge,
}

/// The fixed parameters of one benchmark.
#[derive(Clone, Copy, Debug, PartialEq, Eq, Structural)]
pub struct Config {
    /// Number of pixel columns.
    pub width: usize,
    /// Number of pixel rows.
    pub height: usize,
    /// Largest iteration count a pixel may have.
    pub max_iter: u64,
    /// Number of timed passes over the grid.
    pub trials: usize,
    /// Visiting order of every pass.
    pub order: ScanOrder,
}

impl Config {
    /// Number of pixels of the grid.
    pub open spec fn cell_count(&self) -> int {
        self.width * self.height
    }

    /// The largest checksum any pass over the grid can reach.
    pub open spec fn checksum_bound(&self) -> int {
        self.width * self.height * self.max_iter
    }

    /// The verdict on a configuration: the first defect found, in the order
    /// width, height, grid size, checksum range.
    pub open spec fn verdict(&self) -> Result<(), ConfigError> {
        if self.width == 0 {
            Err(ConfigError::ZeroWidth)
        } else if self.height == 0 {
            Err(ConfigError::ZeroHeight)
        } else if self.cell_count() > usize::MAX {
            Err(ConfigError::GridTooLarge)
        } else if self.checksum_bound() > u64::MAX {
            Err(ConfigError::ChecksumTooLarge)
        } else {
            Ok(())
        }
    }

    /// A configuration is valid when it has no defect.
    pub open spec fn valid(&self) -> bool {
        &&& self.width > 0
        &&& self.height > 0
        &&& self.cell_count() <= usize::MAX
        &&& self.checksum_bound() <= u64::MAX
    }

    /// A single row-major pass over a `width` by `height` grid.
    pub fn new(width: usize, height: usize, max_iter: u64) -> (config: Config)
        ensures
            config == (Config { width, height, max_iter, trials: 1, order: ScanOrder::RowMajor }),
    {
        Config { width, height, max_iter, trials: 1, order: ScanOrder::RowMajor }
    }

    /// Checks the configuration and names its first defect.
    pub fn validate(&self) -> (verdict: Result<(), ConfigError>)
        ensures
            verdict == self.verdict(),
            verdict.is_ok() <==> self.valid(),
    {
        if self.width == 0 {
            return Err(ConfigError::ZeroWidth);
        }
        if self.height == 0 {
            return Err(ConfigError::ZeroHeight);
        }
        match self.width.checked_mul(self.height) {
            None => Err(ConfigError::GridTooLarge),
            Some(cells) => match (cells as u64).checked_mul(self.max_iter) {
                None => Err(ConfigError::ChecksumTooLarge),
                Some(_) => Ok(()),
            },
        }
    }
}

impl Default for Config {
    /// One row-major pass over a 1000 by 1000 grid with at most 256
    /// iterations per pixel.
    fn default() -> (config: Config)
        ensures
            config == (Config {
                width: 1000,
                height: 1000,
                max_iter: 256,
                trials: 1,
                order: ScanOrder::RowMajor,
            }),
            config.valid(),
    {
        Config { width: 1000, height: 1000, max_iter: 256, trials: 1, order: ScanOrder::RowMajor }
    }
}

} // verus!
