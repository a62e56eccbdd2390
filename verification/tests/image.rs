use deriche::image::GreyscaleImage;
use deriche::image::Row;

#[test]
fn test_transpose() {
    let mut m = GreyscaleImage::new(2, 3);
    m.set(1, 0, 2);

    m.transpose();
    assert_eq!(m.at(0, 1), 2);
    assert_ne!(m.at(1, 0), 2);

    m.transpose();

    assert_eq!(m.at(1, 0), 2);
    assert_ne!(m.at(0, 1), 2);
}

#[test]
fn new_buffer_is_zero_filled() {
    let m = GreyscaleImage::new(4, 3);
    assert_eq!(m.width(), 4);
    assert_eq!(m.height(), 3);
    for y in 0..3 {
        for x in 0..4 {
            assert_eq!(m.at(x, y), 0);
        }
    }
}

#[test]
fn reads_clamp_to_the_nearest_edge() {
    let m = GreyscaleImage::from_samples(2, 2, vec![1, 2, 3, 4]);
    assert_eq!(m.at(-5, -5), 1);
    assert_eq!(m.at(9, -1), 2);
    assert_eq!(m.at(-1, 9), 3);
    assert_eq!(m.at(9, 9), 4);
    assert_eq!(m.at(0, 1), 3);
}

#[test]
fn copy_from_duplicates_samples_and_extents() {
    let mut a = GreyscaleImage::new(3, 2);
    a.set(2, 1, 77);
    let b = GreyscaleImage::copy_from(&a);
    assert_eq!(b.width(), 3);
    assert_eq!(b.height(), 2);
    assert_eq!(b.at(2, 1), 77);
    assert_eq!(b.at(0, 0), 0);
}

#[test]
fn samples_round_trip() {
    let v = vec![9, 8, 7, 6, 5, 4];
    let m = GreyscaleImage::from_samples(3, 2, v.clone());
    assert_eq!(m.into_samples(), v);
}

#[test]
fn transpose_swaps_extents_and_samples() {
    let m = GreyscaleImage::from_samples(3, 2, vec![1, 2, 3, 4, 5, 6]);
    let mut t = GreyscaleImage::copy_from(&m);
    t.transpose();
    assert_eq!(t.width(), 2);
    assert_eq!(t.height(), 3);
    for y in 0..2i64 {
        for x in 0..3i64 {
            assert_eq!(m.at(x as isize, y as isize), t.at(y as isize, x as isize));
        }
    }
}

#[test]
fn transpose_twice_restores_sizes_beyond_one_block() {
    // 33 rows crosses the 32-row copy block.
    let mut samples = Vec::new();
    for i in 0..(5 * 33) {
        samples.push((i % 251) as u8);
    }
    let m = GreyscaleImage::from_samples(5, 33, samples.clone());
    let mut t = GreyscaleImage::copy_from(&m);
    t.transpose();
    assert_eq!(t.width(), 33);
    assert_eq!(t.height(), 5);
    assert_eq!(t.at(32, 4), m.at(4, 32));
    t.transpose();
    assert_eq!(t.width(), 5);
    assert_eq!(t.height(), 33);
    assert_eq!(t.into_samples(), samples);
}

#[test]
fn row_reads_zero_outside_its_bounds() {
    let data = [5u8, 6, 7];
    let row = Row::new(&data);
    assert_eq!(row.at(-1), 0);
    assert_eq!(row.at(-100), 0);
    assert_eq!(row.at(0), 5);
    assert_eq!(row.at(2), 7);
    assert_eq!(row.at(3), 0);
}
