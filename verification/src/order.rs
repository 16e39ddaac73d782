//! Visiting orders: which pixel a pass reaches at which step.

use vstd::prelude::*;
use vstd::arithmetic::div_mod::{lemma_fundamental_div_mod, lemma_fundamental_div_mod_converse};

verus! {

/// The order in which a pass visits the pixels of the grid.
#[derive(Clone, Copy, Debug, PartialEq, Eq, Structural)]
pub enum ScanOrder {
    /// Rows outermost: `y` advances after a whole row of `x`.
    RowMajor,
    /// Columns outermost: `x` advances after a whole column of `y`.
    ColumnMajor,
}

/// The position of pixel `(x, y)` in a buffer that stores a grid of `width`
/// columns row by row.
pub open spec fn cell_index(width: int, x: int, y: int) -> int {
    y * width + x
}

/// The pixel `(x, y)` lies inside a `width` by `height` grid.
pub open spec fn in_grid(width: int, height: int, x: int, y: int) -> bool {
    0 <= x < width && 0 <= y < height
}

/// The pixel that a pass in the given order visits at `step`, counting
/// from zero.
pub open spec fn pixel_at(order: ScanOrder, width: int, height: int, step: int) -> (int, int) {
    match order {
        ScanOrder::RowMajor => (step % width, step / width),
        ScanOrder::ColumnMajor => (step / height, step % height),
    }
}

/// The step at which a pass in the given order visits pixel `(x, y)`.
pub open spec fn step_of(order: ScanOrder, width: int, height: int, x: int, y: int) -> int {
    match order {
        ScanOrder::RowMajor => y * width + x,
        ScanOrder::ColumnMajor => x * height + y,
    }
}

/// The step at which a pass in the given order visits the cell stored at
/// `index`.
pub open spec fn step_of_cell(order: ScanOrder, width: int, height: int, index: int) -> int {
    step_of(order, width, height, index % width, index / width)
}

/// `outer * stride + inner` with `inner` below `stride` and `outer` below
/// `count` lies below `count * stride` and splits back into its two parts.
proof fn lemma_compose(outer: int, inner: int, count: int, stride: int)
    requires
        0 <= outer < count,
        0 <= inner < stride,
    ensures
        0 <= outer * stride + inner < count * stride,
        (outer * stride + inner) / stride == outer,
        (outer * stride + inner) % stride == inner,
{
    assert(0 <= outer * stride && outer * stride + stride <= count * stride) by (nonlinear_arith)
        requires
            0 <= outer < count,
            0 < stride,
    ;
    lemma_fundamental_div_mod_converse(outer * stride + inner, stride, outer, inner);
}

/// A number below `count * stride` splits into a quotient below `count`
/// and a remainder below `stride`, and is put together again from them.
proof fn lemma_split(n: int, count: int, stride: int)
    requires
        0 <= n < count * stride,
        0 < stride,
    ensures
        0 <= n / stride < count,
        0 <= n % stride < stride,
        (n / stride) * stride + n % stride == n,
{
    lemma_fundamental_div_mod(n, stride);
    let q = n / stride;
    let r = n % stride;
    assert(q * stride == stride * q) by (nonlinear_arith);
    assert(0 <= q < count) by (nonlinear_arith)
        requires
            0 <= n < count * stride,
            0 < stride,
            0 <= r < stride,
            n == q * stride + r,
    ;
}

/// Every cell of the buffer belongs to exactly one pixel of the grid:
/// cell `index` holds pixel `(index % width, index / width)`.
pub proof fn lemma_cell_of_index(width: int, height: int, index: int)
    requires
        0 < width,
        0 <= index < width * height,
    ensures
        in_grid(width, height, index % width, index / width),
        cell_index(width, index % width, index / width) == index,
{
    assert(width * height == height * width) by (nonlinear_arith);
    lemma_split(index, height, width);
}

/// Every pixel of the grid has a cell of its own, and the cell leads back
/// to the pixel.
pub proof fn lemma_index_of_cell(width: int, height: int, x: int, y: int)
    requires
        in_grid(width, height, x, y),
    ensures
        0 <= cell_index(width, x, y) < width * height,
        cell_index(width, x, y) % width == x,
        cell_index(width, x, y) / width == y,
{
    assert(width * height == height * width) by (nonlinear_arith);
    lemma_compose(y, x, height, width);
}

/// Every step of a pass reaches a pixel of the grid, and that pixel is
/// visited at that step only.
pub proof fn lemma_pixel_of_step(order: ScanOrder, width: int, height: int, step: int)
    requires
        0 < width,
        0 < height,
        0 <= step < width * height,
    ensures
        ({
            let (x, y) = pixel_at(order, width, height, step);
            in_grid(width, height, x, y) && step_of(order, width, height, x, y) == step
        }),
{
    match order {
        ScanOrder::RowMajor => {
            assert(width * height == height * width) by (nonlinear_arith);
            lemma_split(step, height, width);
        },
        ScanOrder::ColumnMajor => {
            lemma_split(step, width, height);
        },
    }
}

/// Every pixel of the grid is reached at a step of the pass, and that step
/// reaches no other pixel.
pub proof fn lemma_step_of_pixel(order: ScanOrder, width: int, height: int, x: int, y: int)
    requires
        in_grid(width, height, x, y),
    ensures
        0 <= step_of(order, width, height, x, y) < width * height,
        pixel_at(order, width, height, step_of(order, width, height, x, y)) == (x, y),
{
    match order {
        ScanOrder::RowMajor => {
            assert(width * height == height * width) by (nonlinear_arith);
            lemma_compose(y, x, height, width);
        },
        ScanOrder::ColumnMajor => {
            lemma_compose(x, y, width, height);
        },
    }
}

/// The first pixel of the grid has the first cell of the buffer and the
/// last pixel has the last cell.
pub proof fn lemma_corner_cells(width: int, height: int)
    requires
        0 < width,
        0 < height,
    ensures
        cell_index(width, 0, 0) == 0,
        cell_index(width, width - 1, height - 1) == width * height - 1,
{
    assert((height - 1) * width + (width - 1) == width * height - 1) by (nonlinear_arith);
}

/// A pass visits every cell exactly once: the steps below
/// `width * height` and the cells of the buffer correspond one to one.
pub proof fn lemma_each_cell_once(order: ScanOrder, width: int, height: int)
    requires
        0 < width,
        0 < height,
    ensures
        forall|step: int|
            0 <= step < width * height ==> {
                let (x, y) = #[trigger] pixel_at(order, width, height, step);
                &&& 0 <= cell_index(width, x, y) < width * height
                &&& step_of_cell(order, width, height, cell_index(width, x, y)) == step
            },
        forall|index: int|
            0 <= index < width * height ==> {
                let step = #[trigger] step_of_cell(order, width, height, index);
                let (x, y) = pixel_at(order, width, height, step);
                &&& 0 <= step < width * height
                &&& cell_index(width, x, y) == index
            },
{
    assert forall|step: int| 0 <= step < width * height implies ({
        let (x, y) = #[trigger] pixel_at(order, width, height, step);
        &&& 0 <= cell_index(width, x, y) < width * height
        &&& step_of_cell(order, width, height, cell_index(width, x, y)) == step
    }) by {
        let (x, y) = pixel_at(order, width, height, step);
        lemma_pixel_of_step(order, width, height, step);
        lemma_index_of_cell(width, height, x, y);
    }
    assert forall|index: int| 0 <= index < width * height implies ({
        let step = #[trigger] step_of_cell(order, width, height, index);
        let (x, y) = pixel_at(order, width, height, step);
        &&& 0 <= step < width * height
        &&& cell_index(width, x, y) == index
    }) by {
        lemma_cell_of_index(width, height, index);
        lemma_step_of_pixel(order, width, height, index % width, index / width);
    }
}

} // verus!
