use deriche::detector::{direction, double_thresholding, magnitude_calculation, non_maximum_suppression};
use deriche::image::GreyscaleImage;

fn uniform(width: usize, height: usize, value: u8) -> GreyscaleImage {
    let samples = vec![value; width * height];
    GreyscaleImage::from_samples(width, height, samples)
}

#[test]
fn magnitude_of_three_four_is_five() {
    let xd = uniform(2, 2, 3);
    let yd = uniform(2, 2, 4);
    let mag = magnitude_calculation(&xd, &yd);
    assert_eq!(mag.at(0, 0), 5);
    // the final row and column stay at zero
    assert_eq!(mag.at(1, 0), 0);
    assert_eq!(mag.at(0, 1), 0);
    assert_eq!(mag.at(1, 1), 0);
}

#[test]
fn zero_derivatives_give_zero_magnitude_everywhere() {
    let xd = uniform(4, 4, 0);
    let yd = uniform(4, 4, 0);
    let mag = magnitude_calculation(&xd, &yd);
    assert_eq!(mag.into_samples(), vec![0; 16]);
}

#[test]
fn magnitude_saturates_at_the_sample_maximum() {
    let xd = uniform(2, 2, 255);
    let yd = uniform(2, 2, 255);
    let mag = magnitude_calculation(&xd, &yd);
    // sqrt(255^2 + 255^2) rounds to 361, which saturates to 255
    assert_eq!(mag.at(0, 0), 255);
}

#[test]
fn magnitude_rounds_to_the_nearest_integer() {
    // sqrt(2^2 + 2^2) = 2.828..., which rounds up to 3
    let xd = uniform(2, 2, 2);
    let yd = uniform(2, 2, 2);
    let mag = magnitude_calculation(&xd, &yd);
    assert_eq!(mag.at(0, 0), 3);
}

#[test]
fn flat_slope_gives_direction_zero() {
    for dy in [0u8, 1, 17, 255] {
        let xd = uniform(2, 2, 0);
        let yd = uniform(2, 2, dy);
        let dir = direction(&xd, &yd);
        assert_eq!(dir.at(0, 0), 0);
    }
}

#[test]
fn direction_quantises_the_folded_arctangent() {
    // dy == 0: atan 0, folded to 90 degrees
    let dir = direction(&uniform(2, 2, 9), &uniform(2, 2, 0));
    assert_eq!(dir.at(0, 0), 90);
    // dy == dx: atan 45 degrees, folded to 135
    let dir = direction(&uniform(2, 2, 5), &uniform(2, 2, 5));
    assert_eq!(dir.at(0, 0), 135);
    // the steepest representable slope folds to 180
    let dir = direction(&uniform(2, 2, 1), &uniform(2, 2, 255));
    assert_eq!(dir.at(0, 0), 180);
    // 3/255 lies between the first two half-degree boundaries
    let dir = direction(&uniform(2, 2, 255), &uniform(2, 2, 3));
    assert_eq!(dir.at(0, 0), 91);
    // 2/255 stays below the first half-degree boundary
    let dir = direction(&uniform(2, 2, 255), &uniform(2, 2, 2));
    assert_eq!(dir.at(0, 0), 90);
}

#[test]
fn plateau_survives_suppression() {
    let mag = uniform(4, 4, 7);
    let dir = uniform(4, 4, 0);
    let out = non_maximum_suppression(&mag, &dir);
    for y in 0..4 {
        for x in 0..4 {
            let expected = if x < 3 && y < 3 { 7 } else { 0 };
            assert_eq!(out.at(x, y), expected);
        }
    }
}

#[test]
fn weaker_pixels_are_suppressed() {
    // direction 0 compares against the pixels above and below
    let mut mag = uniform(3, 3, 9);
    mag.set(1, 1, 5);
    let dir = uniform(3, 3, 0);
    let out = non_maximum_suppression(&mag, &dir);
    assert_eq!(out.at(1, 1), 0);
    // its stronger neighbours survive the tie-inclusive comparison
    assert_eq!(out.at(0, 0), 9);
}

#[test]
fn vertical_sector_compares_sideways() {
    // direction 90 falls in the vertical-edge sector: neighbours left/right
    let mut mag = uniform(3, 3, 4);
    mag.set(0, 1, 8);
    let dir = uniform(3, 3, 90);
    let out = non_maximum_suppression(&mag, &dir);
    // (1,1) is weaker than its left neighbour
    assert_eq!(out.at(1, 1), 0);
    // (0,1) clamps its left read onto itself and beats its right neighbour
    assert_eq!(out.at(0, 1), 8);
}

#[test]
fn double_thresholding_classifies_three_ways() {
    let img = GreyscaleImage::from_samples(3, 1, vec![10, 70, 120]);
    let out = double_thresholding(&img, 50, 90, 25);
    assert_eq!(out.at(0, 0), 0);
    assert_eq!(out.at(1, 0), 25);
    assert_eq!(out.at(2, 0), 255);
}

#[test]
fn double_thresholding_covers_the_border() {
    let img = uniform(2, 2, 200);
    let out = double_thresholding(&img, 50, 90, 25);
    assert_eq!(out.into_samples(), vec![255, 255, 255, 255]);
}

#[test]
fn thresholds_are_inclusive_at_the_boundaries() {
    let img = GreyscaleImage::from_samples(2, 1, vec![50, 90]);
    let out = double_thresholding(&img, 50, 90, 25);
    assert_eq!(out.at(0, 0), 25);
    assert_eq!(out.at(1, 0), 255);
}
