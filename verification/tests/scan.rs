use mandelbrot::config::Config;
use mandelbrot::grid::Grid;
use mandelbrot::order::ScanOrder;
use mandelbrot::scan::{Scan, ScanError};

fn grid_of(width: usize, height: usize, max_iter: u64) -> Grid {
    Grid::new(&Config::new(width, height, max_iter)).unwrap()
}

fn pixels_in(order: ScanOrder, width: usize, height: usize) -> Vec<(usize, usize)> {
    let mut scan = Scan::begin(grid_of(width, height, 10), order);
    let mut pixels = Vec::new();
    while let Some(pixel) = scan.next_pixel() {
        pixels.push(pixel);
        assert_eq!(scan.record(1), Ok(()));
    }
    pixels
}

#[test]
fn fresh_scan_has_seen_nothing() {
    let scan = Scan::begin(grid_of(3, 2, 10), ScanOrder::ColumnMajor);
    assert_eq!(scan.steps(), 0);
    assert_eq!(scan.checksum(), 0);
    assert_eq!(scan.order(), ScanOrder::ColumnMajor);
    assert!(!scan.is_complete());
    assert_eq!(scan.next_pixel(), Some((0, 0)));
    assert_eq!(scan.grid().cells(), &vec![0u64; 6]);
}

#[test]
fn row_major_visits_rows_outermost() {
    assert_eq!(
        pixels_in(ScanOrder::RowMajor, 3, 2),
        vec![(0, 0), (1, 0), (2, 0), (0, 1), (1, 1), (2, 1)]
    );
}

#[test]
fn column_major_visits_columns_outermost() {
    assert_eq!(
        pixels_in(ScanOrder::ColumnMajor, 3, 2),
        vec![(0, 0), (0, 1), (1, 0), (1, 1), (2, 0), (2, 1)]
    );
}

#[test]
fn every_pixel_is_visited_exactly_once() {
    for order in [ScanOrder::RowMajor, ScanOrder::ColumnMajor] {
        let mut pixels = pixels_in(order, 7, 5);
        assert_eq!(pixels.len(), 35);
        pixels.sort();
        pixels.dedup();
        assert_eq!(pixels.len(), 35);
        assert!(pixels.iter().all(|&(x, y)| x < 7 && y < 5));
    }
}

#[test]
fn record_stores_the_count_and_adds_it_to_the_checksum() {
    let mut scan = Scan::begin(grid_of(2, 2, 256), ScanOrder::ColumnMajor);
    assert_eq!(scan.record(3), Ok(()));
    assert_eq!(scan.steps(), 1);
    assert_eq!(scan.checksum(), 3);
    assert_eq!(scan.next_pixel(), Some((0, 1)));
    assert_eq!(scan.record(4), Ok(()));
    assert_eq!(scan.record(5), Ok(()));
    assert_eq!(scan.record(6), Ok(()));
    assert_eq!(scan.steps(), 4);
    assert_eq!(scan.checksum(), 18);
    assert!(scan.is_complete());
    assert_eq!(scan.next_pixel(), None);
    assert_eq!(scan.grid().cells(), &vec![3, 5, 4, 6]);
}

#[test]
fn count_above_the_limit_changes_nothing() {
    let mut scan = Scan::begin(grid_of(2, 2, 256), ScanOrder::RowMajor);
    assert_eq!(scan.record(7), Ok(()));
    assert_eq!(scan.record(257), Err(ScanError::CountTooLarge));
    assert_eq!(scan.steps(), 1);
    assert_eq!(scan.checksum(), 7);
    assert_eq!(scan.next_pixel(), Some((1, 0)));
    assert_eq!(scan.grid().cells(), &vec![7, 0, 0, 0]);
    assert_eq!(scan.record(256), Ok(()));
    assert_eq!(scan.checksum(), 263);
}

#[test]
fn complete_scan_takes_no_further_count() {
    let mut scan = Scan::begin(grid_of(1, 2, 9), ScanOrder::RowMajor);
    assert_eq!(scan.record(1), Ok(()));
    assert_eq!(scan.record(2), Ok(()));
    assert_eq!(scan.record(3), Err(ScanError::Complete));
    assert_eq!(scan.record(1000), Err(ScanError::Complete));
    assert_eq!(scan.steps(), 2);
    assert_eq!(scan.checksum(), 3);
    assert_eq!(scan.grid().cells(), &vec![1, 2]);
}

#[test]
fn finish_needs_every_pixel() {
    let mut scan = Scan::begin(grid_of(2, 1, 9), ScanOrder::RowMajor);
    assert_eq!(scan.record(4), Ok(()));
    assert!(scan.finish().is_none());
}

#[test]
fn finished_pass_carries_grid_and_checksum() {
    let mut scan = Scan::begin(grid_of(2, 1, 9), ScanOrder::RowMajor);
    assert_eq!(scan.record(4), Ok(()));
    assert_eq!(scan.record(9), Ok(()));
    let pass = scan.finish().unwrap();
    assert_eq!(pass.checksum, 13);
    assert_eq!(pass.grid.cells(), &vec![4, 9]);
    assert_eq!(pass.grid.checksum(), 13);
}

#[test]
fn checksum_does_not_depend_on_the_visiting_order() {
    let value = |x: usize, y: usize| (x * 31 + y * 17 + 3) as u64 % 200;
    let mut passes = Vec::new();
    for order in [ScanOrder::RowMajor, ScanOrder::ColumnMajor] {
        let mut scan = Scan::begin(grid_of(6, 4, 256), order);
        while let Some((x, y)) = scan.next_pixel() {
            assert_eq!(scan.record(value(x, y)), Ok(()));
        }
        passes.push(scan.finish().unwrap());
    }
    assert_eq!(passes[0].checksum, passes[1].checksum);
    assert_eq!(passes[0].grid.cells(), passes[1].grid.cells());
    let mut expected = 0u64;
    for y in 0..4 {
        for x in 0..6 {
            expected += value(x, y);
        }
    }
    assert_eq!(passes[0].checksum, expected);
}

#[test]
fn counts_of_an_earlier_pass_stay_out_of_the_checksum() {
    let mut first = Scan::begin(grid_of(2, 2, 256), ScanOrder::RowMajor);
    for count in [100, 100, 100, 100] {
        assert_eq!(first.record(count), Ok(()));
    }
    let grid = first.finish().unwrap().grid;
    let mut second = Scan::begin(grid, ScanOrder::ColumnMajor);
    assert_eq!(second.checksum(), 0);
    assert_eq!(second.record(1), Ok(()));
    assert_eq!(second.checksum(), 1);
    assert_eq!(second.grid().cells(), &vec![1, 100, 100, 100]);
    assert_eq!(second.record(2), Ok(()));
    assert_eq!(second.record(3), Ok(()));
    assert_eq!(second.record(4), Ok(()));
    let pass = second.finish().unwrap();
    assert_eq!(pass.checksum, 10);
    assert_eq!(pass.grid.cells(), &vec![1, 3, 2, 4]);
}

#[test]
fn abandoned_scan_hands_its_grid_back() {
    let mut scan = Scan::begin(grid_of(2, 2, 256), ScanOrder::RowMajor);
    assert_eq!(scan.record(8), Ok(()));
    let grid = scan.into_grid();
    assert_eq!(grid.cells(), &vec![8, 0, 0, 0]);
    assert_eq!(grid.width(), 2);
    assert_eq!(grid.height(), 2);
    assert_eq!(grid.limit(), 256);
}
