//! What holds across passes: the checksum does not depend on the visiting
//! order, and a kernel that returns one count per pixel gives one grid and
//! one checksum, however often the benchmark is run.

use vstd::prelude::*;
use crate::checksum::sum_of;
use crate::config::Config;
use crate::driver::{completes, Finished};
use crate::grid::Grid;
use crate::order::lemma_cell_of_index;
use crate::render::rendered_by;
use crate::scan::{Pass, Scan};

verus! {

/// The kernel returns one count per pixel of the grid, however often it is
/// asked.
pub open spec fn single_valued<F: Fn(usize, usize) -> u64>(kernel: F, grid: Grid) -> bool {
    forall|x: usize, y: usize, a: u64, b: u64|
        grid.contains_pixel(x as int, y as int) && #[trigger] call_ensures(kernel, (x, y), a)
            && #[trigger] call_ensures(kernel, (x, y), b) ==> a == b
}

/// Two complete scans that have filled their grids with the same counts
/// have the same checksum, whichever order each of them went by.
pub proof fn checksum_ignores_order(first: Scan, second: Scan)
    requires
        first.wf(),
        second.wf(),
        first.complete(),
        second.complete(),
        first.spec_grid()@ == second.spec_grid()@,
    ensures
        first.spec_checksum() == second.spec_checksum(),
{
    first.lemma_complete_checksum();
    second.lemma_complete_checksum();
}

/// Two passes over grids of one shape, rendered by the same single-valued
/// kernel, end with the same cells and the same checksum.  Neither the
/// visiting order nor what the grids held before plays a part.
pub proof fn render_is_deterministic<F: Fn(usize, usize) -> u64>(
    kernel: F,
    first: Pass,
    second: Pass,
)
    requires
        first.wf(),
        second.wf(),
        first.grid.same_shape(&second.grid),
        single_valued(kernel, first.grid),
        rendered_by(first.grid, kernel),
        rendered_by(second.grid, kernel),
    ensures
        first.grid@ == second.grid@,
        first.checksum == second.checksum,
{
    let width = first.grid.spec_width() as int;
    let height = first.grid.spec_height() as int;
    assert forall|i: int| 0 <= i < first.grid@.len() implies first.grid@[i] == second.grid@[i] by {
        lemma_cell_of_index(width, height, i);
        let x = (i % width) as usize;
        let y = (i / width) as usize;
        assert(first.grid.at(x as int, y as int) == first.grid@[i]);
        assert(second.grid.at(x as int, y as int) == second.grid@[i]);
        assert(call_ensures(kernel, (x, y), first.grid@[i]));
        assert(call_ensures(kernel, (x, y), second.grid@[i]));
    }
    assert(first.grid@ =~= second.grid@);
}

/// Two runs of the benchmark with one configuration and the same
/// single-valued kernel end with the same cells and the same checksum,
/// whatever their clocks showed.
pub proof fn run_is_deterministic<K: Fn(usize, usize) -> u64, C: Fn() -> u64, D: Fn() -> u64>(
    config: Config,
    kernel: K,
    first: Finished,
    first_clock: C,
    second: Finished,
    second_clock: D,
)
    requires
        completes(first, config, kernel, first_clock),
        completes(second, config, kernel, second_clock),
        single_valued(kernel, first.grid),
    ensures
        first.grid@ == second.grid@,
        first.trials.spec_checksum() == second.trials.spec_checksum(),
{
    if config.trials > 0 {
        first.grid.lemma_checksum_fits();
        second.grid.lemma_checksum_fits();
        render_is_deterministic(
            kernel,
            Pass { grid: first.grid, checksum: sum_of(first.grid@) as u64 },
            Pass { grid: second.grid, checksum: sum_of(second.grid@) as u64 },
        );
    }
}

} // verus!
