//! The whole benchmark: a fixed number of timed passes over one grid.

use vstd::prelude::*;
use crate::checksum::sum_of;
use crate::config::{Config, ConfigError};
use crate::grid::Grid;
use crate::render::{render, rendered_by, RejectedCount};
use crate::trials::{Phase, Trials};

verus! {

/// Why a benchmark did not run to its end.
#[derive(Clone, Copy, Debug, PartialEq, Eq, Structural)]
pub enum RunError {
    /// The configuration has this defect; nothing was run.
    Config(ConfigError),
    /// The kernel returned a count above `max_iter`; the run ended there.
    Kernel(RejectedCount),
}

/// A benchmark that has run all its trials.
#[derive(Debug)]
pub struct Finished {
    /// The elapsed time of every trial, the best of them and the checksum.
    pub trials: Trials,
    /// The grid as the last trial left it.
    pub grid: Grid,
}

/// The time from `start` to `stop`, and zero where the clock ran backwards.
pub open spec fn elapsed_between(start: u64, stop: u64) -> u64 {
    if stop >= start {
        (stop - start) as u64
    } else {
        0
    }
}

/// `sample` is the time between two readings of the clock.
pub open spec fn measured_by<C: Fn() -> u64>(clock: C, sample: u64) -> bool {
    exists|start: u64, stop: u64|
        call_ensures(clock, (), start) && call_ensures(clock, (), stop) && sample
            == #[trigger] elapsed_between(start, stop)
}

/// Every sample is the time between two readings of the clock.
pub open spec fn timed_by<C: Fn() -> u64>(clock: C, samples: Seq<u64>) -> bool {
    forall|i: int| 0 <= i < samples.len() ==> measured_by(clock, #[trigger] samples[i])
}

/// The kernel may be called on every pixel of the configured grid.
pub open spec fn accepts_config<K: Fn(usize, usize) -> u64>(kernel: K, config: Config) -> bool {
    forall|x: usize, y: usize|
        x < config.width && y < config.height ==> #[trigger] call_requires(kernel, (x, y))
}

/// The kernel never returns more than `max_iter` for a pixel of the
/// configured grid.
pub open spec fn within_max_iter<K: Fn(usize, usize) -> u64>(kernel: K, config: Config) -> bool {
    forall|x: usize, y: usize, count: u64|
        x < config.width && y < config.height && #[trigger] call_ensures(kernel, (x, y), count)
            ==> count <= config.max_iter
}

/// What a benchmark that ran to its end hands back: a closed log of all
/// planned trials, timed by the clock, and the grid of the configured
/// shape.  After at least one trial the grid holds the kernel's counts and
/// the log holds their sum; without a trial the grid is all zero.
pub open spec fn completes<K: Fn(usize, usize) -> u64, C: Fn() -> u64>(
    done: Finished,
    config: Config,
    kernel: K,
    clock: C,
) -> bool {
    &&& done.trials.wf()
    &&& done.trials.done()
    &&& done.trials.spec_planned() == config.trials
    &&& timed_by(clock, done.trials.spec_samples())
    &&& done.grid.wf()
    &&& done.grid.spec_width() == config.width
    &&& done.grid.spec_height() == config.height
    &&& done.grid.spec_limit() == config.max_iter
    &&& if config.trials == 0 {
        done.grid@ == Seq::new(config.cell_count() as nat, |i: int| 0u64)
    } else {
        &&& rendered_by(done.grid, kernel)
        &&& done.trials.spec_checksum() matches Some(checksum)
        &&& checksum == sum_of(done.grid@)
    }
}

/// Runs the benchmark: `config.trials` passes over one grid, each between
/// two readings of `clock`, each reported with its number and its elapsed
/// time as soon as it has finished.
///
/// An invalid configuration ends the run before anything is timed.  A
/// count above `max_iter` ends it at the pixel where the kernel returned
/// it.  Otherwise every trial is run.
pub fn run<K, C, R>(config: &Config, kernel: &K, clock: &C, report: &R) -> (outcome: Result<
    Finished,
    RunError,
>) where K: Fn(usize, usize) -> u64, C: Fn() -> u64, R: Fn(usize, u64)
    requires
        accepts_config(*kernel, *config),
        call_requires(*clock, ()),
        forall|trial: usize, elapsed: u64| #[trigger] call_requires(*report, (trial, elapsed)),
    ensures
        match outcome {
            Ok(done) => config.valid() && completes(done, *config, *kernel, *clock),
            Err(RunError::Config(defect)) => config.verdict() == Err::<(), ConfigError>(defect),
            Err(RunError::Kernel(rejected)) => {
                &&& config.valid()
                &&& config.trials > 0
                &&& rejected.x < config.width
                &&& rejected.y < config.height
                &&& call_ensures(*kernel, (rejected.x, rejected.y), rejected.count)
                &&& rejected.count > config.max_iter
            },
        },
        config.valid() && within_max_iter(*kernel, *config) ==> outcome.is_ok(),
{
    let mut grid = match Grid::new(config) {
        Ok(grid) => grid,
        Err(defect) => {
            return Err(RunError::Config(defect));
        },
    };
    let mut trials = Trials::new(config.trials);
    loop
        invariant
            config.valid(),
            accepts_config(*kernel, *config),
            call_requires(*clock, ()),
            forall|trial: usize, elapsed: u64| #[trigger] call_requires(*report, (trial, elapsed)),
            trials.wf(),
            trials.spec_planned() == config.trials,
            trials.spec_phase() == Phase::Idle,
            timed_by(*clock, trials.spec_samples()),
            grid.wf(),
            grid.spec_width() == config.width,
            grid.spec_height() == config.height,
            grid.spec_limit() == config.max_iter,
            if trials.spec_samples().len() == 0 {
                grid@ == Seq::new(config.cell_count() as nat, |i: int| 0u64)
            } else {
                &&& rendered_by(grid, *kernel)
                &&& trials.spec_checksum() matches Some(checksum)
                &&& checksum == sum_of(grid@)
            },
        decreases config.trials - trials.spec_samples().len(),
    {
        let trial = match trials.begin() {
            Some(trial) => trial,
            None => {
                return Ok(Finished { trials, grid });
            },
        };
        let ghost before = trials.spec_samples();
        let start = clock();
        let pass = match render(grid, config.order, kernel) {
            Ok(pass) => pass,
            Err(rejected) => {
                return Err(RunError::Kernel(rejected));
            },
        };
        let stop = clock();
        let elapsed = if stop >= start {
            stop - start
        } else {
            0
        };
        let closed = trials.end(elapsed, pass.checksum);
        assert(closed.is_ok());
        report(trial, elapsed);
        grid = pass.grid;
        proof {
            assert(elapsed == elapsed_between(start, stop));
            assert(measured_by(*clock, elapsed));
            assert forall|i: int| 0 <= i < before.push(elapsed).len() implies measured_by(
                *clock,
                #[trigger] before.push(elapsed)[i],
            ) by {
                if i < before.len() {
                    assert(before.push(elapsed)[i] == before[i]);
                }
            }
        }
    }
}

} // verus!
