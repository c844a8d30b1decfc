use monochrome::bayer;
use monochrome::grid::Grid;

fn make(width: u32, height: u32, samples: &[u8]) -> Grid {
    Grid::from_samples(width, height, samples.to_vec()).expect("length matches the dimensions")
}

#[test]
fn from_samples_keeps_dimensions_and_samples() {
    let grid = make(3, 2, &[1, 2, 3, 4, 5, 6]);
    assert_eq!(grid.dimensions(), (3, 2));
    assert_eq!(grid.samples(), vec![1, 2, 3, 4, 5, 6]);
}

#[test]
fn from_samples_refuses_a_short_vector() {
    assert!(Grid::from_samples(3, 2, vec![1, 2, 3, 4, 5]).is_none());
    assert!(Grid::from_samples(1, 1, vec![]).is_none());
}

#[test]
fn from_samples_refuses_a_long_vector() {
    assert!(Grid::from_samples(3, 2, vec![1, 2, 3, 4, 5, 6, 7]).is_none());
    assert!(Grid::from_samples(0, 0, vec![9]).is_none());
}

#[test]
fn from_samples_refuses_an_area_that_does_not_match() {
    assert!(Grid::from_samples(2, 4, vec![0; 6]).is_none());
    assert!(Grid::from_samples(u32::MAX, u32::MAX, vec![0; 4]).is_none());
}

#[test]
fn from_samples_accepts_images_without_pixels() {
    for (width, height) in [(0, 0), (0, 5), (5, 0)] {
        let grid = make(width, height, &[]);
        assert_eq!(grid.dimensions(), (width, height));
        assert!(grid.samples().is_empty());
    }
}

#[test]
fn dimensions_tell_width_from_height() {
    assert_eq!(make(4, 1, &[0; 4]).dimensions(), (4, 1));
    assert_eq!(make(1, 4, &[0; 4]).dimensions(), (1, 4));
}

#[test]
fn samples_run_along_rows_first() {
    // The same four samples laid out as one row and as one column meet
    // different cells of the threshold matrix.
    let as_row = bayer::dither(&make(4, 1, &[150; 4]));
    let as_column = bayer::dither(&make(1, 4, &[150; 4]));
    assert_eq!(as_row.samples(), vec![255, 255, 255, 0]);
    assert_eq!(as_column.samples(), vec![255, 0, 255, 0]);
}

#[test]
fn samples_of_a_single_pixel() {
    assert_eq!(make(1, 1, &[42]).samples(), vec![42]);
}

#[test]
fn samples_round_trip_through_a_second_grid() {
    let listed: Vec<u8> = (0..35u8).map(|k| k.wrapping_mul(37)).collect();
    let first = make(7, 5, &listed);
    let second = make(7, 5, &first.samples());
    assert_eq!(second.samples(), listed);
}
