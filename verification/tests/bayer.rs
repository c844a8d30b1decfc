use monochrome::bayer::{dither, BAYER_PATTERN};
use monochrome::grid::Grid;

fn image(width: u32, height: u32, samples: &[u8]) -> Grid {
    Grid::from_samples(width, height, samples.to_vec()).expect("length matches the dimensions")
}

#[test]
fn flat_gray_4x4_becomes_a_checkerboard() {
    let mono = dither(&image(4, 4, &[128; 16]));
    assert_eq!(mono.dimensions(), (4, 4));
    assert_eq!(
        mono.samples(),
        vec![255, 0, 255, 0, 0, 255, 0, 255, 255, 0, 255, 0, 0, 255, 0, 255]
    );
}

#[test]
fn sample_equal_to_threshold_is_white() {
    // Cell (0, 0) has threshold 8, the cell right of it 136.
    assert_eq!(dither(&image(1, 1, &[8])).samples(), vec![255]);
    assert_eq!(dither(&image(2, 1, &[0, 136])).samples(), vec![0, 255]);
}

#[test]
fn sample_just_below_threshold_is_black() {
    assert_eq!(dither(&image(1, 1, &[7])).samples(), vec![0]);
    assert_eq!(dither(&image(2, 1, &[0, 135])).samples(), vec![0, 0]);
}

#[test]
fn highest_threshold_is_248() {
    // Row 3, column 0 holds the matrix entry 15.
    assert_eq!(dither(&image(1, 4, &[0, 0, 0, 247])).samples(), vec![0, 0, 0, 0]);
    assert_eq!(dither(&image(1, 4, &[0, 0, 0, 248])).samples(), vec![0, 0, 0, 255]);
}

#[test]
fn black_stays_black_and_white_stays_white() {
    assert_eq!(dither(&image(5, 3, &[0; 15])).samples(), vec![0; 15]);
    assert_eq!(dither(&image(5, 3, &[255; 15])).samples(), vec![255; 15]);
}

#[test]
fn every_cell_of_the_tile_has_its_own_threshold() {
    for row in 0..4u32 {
        for col in 0..4u32 {
            let threshold = BAYER_PATTERN[row as usize][col as usize] * 16 + 8;
            let mut samples = vec![0u8; 16];
            samples[(row * 4 + col) as usize] = threshold;
            let mut expected = vec![0u8; 16];
            expected[(row * 4 + col) as usize] = 255;
            assert_eq!(dither(&image(4, 4, &samples)).samples(), expected);
            samples[(row * 4 + col) as usize] = threshold - 1;
            assert_eq!(dither(&image(4, 4, &samples)).samples(), vec![0u8; 16]);
        }
    }
}

#[test]
fn matrix_holds_each_rank_once() {
    let mut ranks: Vec<u8> = BAYER_PATTERN.iter().flatten().copied().collect();
    ranks.sort();
    assert_eq!(ranks, (0..16).collect::<Vec<u8>>());
    assert_eq!(BAYER_PATTERN[0], [0, 8, 2, 10]);
    assert_eq!(BAYER_PATTERN[3], [15, 7, 13, 5]);
}

#[test]
fn pattern_repeats_every_four_columns_and_rows() {
    let mono = dither(&image(8, 8, &[100; 64])).samples();
    assert_eq!(
        mono,
        vec![
            255, 0, 255, 0, 255, 0, 255, 0, 0, 255, 0, 0, 0, 255, 0, 0, 255, 0, 255, 0, 255, 0,
            255, 0, 0, 0, 0, 255, 0, 0, 0, 255, 255, 0, 255, 0, 255, 0, 255, 0, 0, 255, 0, 0, 0,
            255, 0, 0, 255, 0, 255, 0, 255, 0, 255, 0, 0, 0, 0, 255, 0, 0, 0, 255
        ]
    );
    for y in 0..8usize {
        for x in 0..4usize {
            assert_eq!(mono[y * 8 + x], mono[y * 8 + x + 4]);
        }
    }
    for y in 0..4usize {
        for x in 0..8usize {
            assert_eq!(mono[y * 8 + x], mono[(y + 4) * 8 + x]);
        }
    }
}

#[test]
fn tiling_wraps_at_borders_that_are_no_multiple_of_four() {
    let samples = [
        68, 32, 130, 60, 253, 230, 241, 194, 107, 48, 249, 14, 199, 221, 1, 228, 136, 117, 52, 162,
    ];
    let mono = dither(&image(5, 4, &samples));
    assert_eq!(mono.dimensions(), (5, 4));
    assert_eq!(
        mono.samples(),
        vec![255, 0, 255, 0, 255, 255, 255, 0, 255, 0, 255, 0, 255, 255, 0, 0, 255, 0, 0, 0]
    );
}

#[test]
fn dark_gradient_6x5() {
    let samples: Vec<u8> = (0..5u32)
        .flat_map(|y| (0..6u32).map(move |x| (x * 16 + y * 4) as u8))
        .collect();
    let mono = dither(&image(6, 5, &samples));
    assert_eq!(
        mono.samples(),
        vec![
            0, 0, 0, 0, 255, 0, 0, 0, 0, 0, 0, 255, 0, 0, 255, 0, 255, 0, 0, 0, 0, 0, 0, 0, 255,
            0, 255, 0, 255, 0
        ]
    );
}

#[test]
fn bayer_output_is_black_and_white_only() {
    let samples: Vec<u8> = (0..=255u8).collect();
    let mono = dither(&image(16, 16, &samples));
    assert!(mono.samples().iter().all(|&v| v == 0 || v == 255));
}

#[test]
fn bayer_keeps_dimensions() {
    for (width, height) in [(0, 0), (0, 3), (3, 0), (1, 1), (7, 2), (2, 7), (9, 9)] {
        let gray = image(width, height, &vec![77; (width * height) as usize]);
        assert_eq!(dither(&gray).dimensions(), (width, height));
    }
}

#[test]
fn bayer_gives_the_same_result_every_time() {
    let samples: Vec<u8> = (0..60u8).map(|k| k.wrapping_mul(53)).collect();
    let first = dither(&image(10, 6, &samples)).samples();
    let second = dither(&image(10, 6, &samples)).samples();
    assert_eq!(first, second);
}

#[test]
fn bayer_leaves_its_input_alone() {
    let gray = image(3, 3, &[10, 20, 30, 40, 50, 60, 70, 80, 90]);
    let _ = dither(&gray);
    assert_eq!(gray.samples(), vec![10, 20, 30, 40, 50, 60, 70, 80, 90]);
}
