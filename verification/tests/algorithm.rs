use monochrome::algorithm::Algorithm;
use monochrome::grid::Grid;
use monochrome::{bayer, floyd_steinberg};

const SAMPLES_3X3: [u8; 9] = [0, 0, 0, 0, 100, 0, 109, 0, 0];

fn canvas() -> Grid {
    Grid::from_samples(3, 3, SAMPLES_3X3.to_vec()).expect("length matches the dimensions")
}

#[test]
fn names_of_the_algorithms() {
    assert_eq!(Algorithm::from_name("bayer"), Some(Algorithm::Bayer));
    assert_eq!(Algorithm::from_name("floyd"), Some(Algorithm::FloydSteinberg));
    assert_eq!(Algorithm::from_name("floyd-steinberg"), Some(Algorithm::FloydSteinberg));
    assert_eq!(Algorithm::from_name("floyd2"), Some(Algorithm::Serpentine));
    assert_eq!(Algorithm::from_name("serpentine"), Some(Algorithm::Serpentine));
}

#[test]
fn other_names_are_unknown() {
    let unknown =
        ["", "Bayer", "bayer ", "floyd3", "floyd-steinberg2", "atkinson", "floyd_steinberg"];
    for name in unknown {
        assert_eq!(Algorithm::from_name(name), None);
    }
}

#[test]
fn each_choice_runs_its_algorithm() {
    let gray = canvas();
    assert_eq!(Algorithm::Bayer.dither(&gray).samples(), bayer::dither(&gray).samples());
    assert_eq!(
        Algorithm::FloydSteinberg.dither(&gray).samples(),
        floyd_steinberg::dither(&gray).samples()
    );
    assert_eq!(
        Algorithm::Serpentine.dither(&gray).samples(),
        floyd_steinberg::serpentine_scanning_dither(&gray).samples()
    );
}

#[test]
fn the_three_choices_differ() {
    let gray = canvas();
    assert_eq!(Algorithm::Bayer.dither(&gray).samples(), vec![0, 0, 0, 0, 255, 0, 255, 0, 0]);
    assert_eq!(Algorithm::FloydSteinberg.dither(&gray).samples(), vec![0; 9]);
    assert_eq!(
        Algorithm::Serpentine.dither(&gray).samples(),
        vec![0, 0, 0, 0, 0, 0, 255, 255, 0]
    );
}
