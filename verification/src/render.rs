//! A whole pass driven by a kernel that computes the count of a pixel.

use vstd::prelude::*;
use crate::grid::Grid;
use crate::order::{
    cell_index, lemma_index_of_cell, lemma_pixel_of_step, lemma_step_of_pixel, pixel_at, step_of,
    ScanOrder,
};
use crate::scan::{Pass, Scan};

verus! {

/// A count that the kernel returned for pixel `(x, y)` and that is larger
/// than the grid's limit.
#[derive(Clone, Copy, Debug, PartialEq, Eq, Structural)]
pub struct RejectedCount {
    /// Column of the pixel.
    pub x: usize,
    /// Row of the pixel.
    pub y: usize,
    /// What the kernel returned for it.
    pub count: u64,
}

/// The kernel may be called on every pixel of the grid.
pub open spec fn accepts_grid<F: Fn(usize, usize) -> u64>(kernel: F, grid: Grid) -> bool {
    forall|x: usize, y: usize|
        grid.contains_pixel(x as int, y as int) ==> #[trigger] call_requires(kernel, (x, y))
}

/// The kernel never returns a count above the grid's limit for a pixel of
/// the grid.
pub open spec fn stays_within_limit<F: Fn(usize, usize) -> u64>(kernel: F, grid: Grid) -> bool {
    forall|x: usize, y: usize, count: u64|
        grid.contains_pixel(x as int, y as int) && #[trigger] call_ensures(kernel, (x, y), count)
            ==> count <= grid.spec_limit()
}

/// Every cell of `grid` holds a count that the kernel returned for the
/// pixel of that cell.
pub open spec fn rendered_by<F: Fn(usize, usize) -> u64>(grid: Grid, kernel: F) -> bool {
    forall|x: usize, y: usize|
        grid.contains_pixel(x as int, y as int) ==> call_ensures(
            kernel,
            (x, y),
            #[trigger] grid.at(x as int, y as int),
        )
}

/// Every cell that a pass in the given order reaches within its first
/// `steps` steps holds a count that the kernel returned for its pixel.
spec fn rendered_up_to<F: Fn(usize, usize) -> u64>(
    grid: Grid,
    kernel: F,
    order: ScanOrder,
    steps: int,
) -> bool {
    forall|x: usize, y: usize|
        grid.contains_pixel(x as int, y as int) && step_of(
            order,
            grid.spec_width() as int,
            grid.spec_height() as int,
            x as int,
            y as int,
        ) < steps ==> call_ensures(kernel, (x, y), #[trigger] grid.at(x as int, y as int))
}

/// For every pixel that a pass in the given order reaches before pixel
/// `(x, y)`, the kernel returned a count within the grid's limit.
pub open spec fn accepted_before<F: Fn(usize, usize) -> u64>(
    grid: Grid,
    kernel: F,
    order: ScanOrder,
    x: int,
    y: int,
) -> bool {
    let width = grid.spec_width() as int;
    let height = grid.spec_height() as int;
    forall|px: usize, py: usize|
        grid.contains_pixel(px as int, py as int) && #[trigger] step_of(
            order,
            width,
            height,
            px as int,
            py as int,
        ) < step_of(order, width, height, x, y) ==> exists|count: u64|
            count <= grid.spec_limit() && #[trigger] call_ensures(kernel, (px, py), count)
}

/// Storing what the kernel returned for the pixel of step `steps` extends
/// the rendered part of the grid by that step.
proof fn lemma_render_step<F: Fn(usize, usize) -> u64>(
    before: Grid,
    after: Grid,
    kernel: F,
    order: ScanOrder,
    steps: int,
    x: usize,
    y: usize,
    count: u64,
)
    requires
        before.wf(),
        after.same_shape(&before),
        0 <= steps < before@.len(),
        (x as int, y as int) == pixel_at(
            order,
            before.spec_width() as int,
            before.spec_height() as int,
            steps,
        ),
        after@ == before@.update(cell_index(before.spec_width() as int, x as int, y as int), count),
        call_ensures(kernel, (x, y), count),
        rendered_up_to(before, kernel, order, steps),
    ensures
        rendered_up_to(after, kernel, order, steps + 1),
{
    let width = before.spec_width() as int;
    let height = before.spec_height() as int;
    lemma_pixel_of_step(order, width, height, steps);
    lemma_index_of_cell(width, height, x as int, y as int);
    assert forall|px: usize, py: usize|
        after.contains_pixel(px as int, py as int) && step_of(
            order,
            width,
            height,
            px as int,
            py as int,
        ) < steps + 1 implies call_ensures(
        kernel,
        (px, py),
        #[trigger] after.at(px as int, py as int),
    ) by {
        lemma_index_of_cell(width, height, px as int, py as int);
        lemma_step_of_pixel(order, width, height, px as int, py as int);
        if px == x && py == y {
        } else {
            assert(before.at(px as int, py as int) == after.at(px as int, py as int));
        }
    }
}

/// Runs one pass over `grid` in the given order: asks the kernel for the
/// count of every pixel, stores it in the pixel's cell and sums the counts.
///
/// The pass succeeds unless the kernel returns a count above the grid's
/// limit; the first such count ends the pass and is handed back with its
/// pixel, and the grid is given up.
pub fn render<F: Fn(usize, usize) -> u64>(grid: Grid, order: ScanOrder, kernel: &F) -> (outcome:
    Result<Pass, RejectedCount>)
    requires
        grid.wf(),
        accepts_grid(*kernel, grid),
    ensures
        match outcome {
            Ok(pass) => {
                &&& pass.wf()
                &&& pass.grid.same_shape(&grid)
                &&& rendered_by(pass.grid, *kernel)
            },
            Err(rejected) => {
                &&& grid.contains_pixel(rejected.x as int, rejected.y as int)
                &&& call_ensures(*kernel, (rejected.x, rejected.y), rejected.count)
                &&& rejected.count > grid.spec_limit()
                &&& accepted_before(grid, *kernel, order, rejected.x as int, rejected.y as int)
            },
        },
        stays_within_limit(*kernel, grid) ==> outcome.is_ok(),
{
    let mut scan = Scan::begin(grid, order);
    loop
        invariant
            scan.wf(),
            scan.spec_order() == order,
            scan.spec_grid().same_shape(&grid),
            accepts_grid(*kernel, grid),
            rendered_up_to(scan.spec_grid(), *kernel, order, scan.spec_steps() as int),
        decreases scan.spec_grid()@.len() - scan.spec_steps(),
    {
        match scan.next_pixel() {
            None => {
                proof {
                    let full = scan.spec_grid();
                    assert forall|x: usize, y: usize|
                        full.contains_pixel(x as int, y as int) implies call_ensures(
                        *kernel,
                        (x, y),
                        #[trigger] full.at(x as int, y as int),
                    ) by {
                        lemma_step_of_pixel(
                            order,
                            full.spec_width() as int,
                            full.spec_height() as int,
                            x as int,
                            y as int,
                        );
                    }
                }
                let done = scan.finish();
                return Ok(done.unwrap());
            },
            Some((x, y)) => {
                let ghost before = scan.spec_grid();
                let ghost steps = scan.spec_steps() as int;
                let count = kernel(x, y);
                if scan.record(count).is_err() {
                    proof {
                        let width = grid.spec_width() as int;
                        let height = grid.spec_height() as int;
                        lemma_pixel_of_step(order, width, height, steps);
                        assert forall|px: usize, py: usize|
                            grid.contains_pixel(px as int, py as int) && #[trigger] step_of(
                                order,
                                width,
                                height,
                                px as int,
                                py as int,
                            ) < steps implies exists|count: u64|
                            count <= grid.spec_limit() && #[trigger] call_ensures(
                                *kernel,
                                (px, py),
                                count,
                            ) by {
                            lemma_index_of_cell(width, height, px as int, py as int);
                            let stored = before.at(px as int, py as int);
                            assert(call_ensures(*kernel, (px, py), stored));
                        }
                    }
                    return Err(RejectedCount { x, y, count });
                }
                proof {
                    lemma_render_step(before, scan.spec_grid(), *kernel, order, steps, x, y, count);
                }
            },
        }
    }
}

} // verus!
