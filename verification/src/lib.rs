//! Driver for escape-time grid benchmarks.
//!
//! A benchmark samples a rectangular grid of pixels, asks a kernel for the
//! escape-iteration count of every pixel, stores the counts, sums them into
//! a checksum and times every pass over the grid.  This crate is the
//! integer side of that work; the kernel, the clock and the reporting of a
//! finished trial are closures of the caller.
//!
//! - [`config`]: the parameters of a benchmark and their validation.
//! - [`grid`]: the buffer of counts, one cell per pixel.
//! - [`order`]: which pixel a pass reaches at which step.
//! - [`checksum`]: the sum of a grid and what holds of it.
//! - [`scan`]: a pass in progress, one count at a time.
//! - [`render`]: a whole pass driven by a kernel.
//! - [`trials`]: the log of timed passes and its best time.
//! - [`driver`]: the whole benchmark.
//! - [`theorems`]: what holds across passes.

pub mod checksum;
pub mod config;
pub mod driver;
pub mod grid;
pub mod order;
pub mod render;
pub mod scan;
pub mod theorems;
pub mod trials;
