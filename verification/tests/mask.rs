use jpeg_dct::mask::{apply_low_frequency_mask, mask_region, KeepFraction};

fn fraction(value: f32) -> KeepFraction {
    KeepFraction::from_bits(value.to_bits()).unwrap()
}

#[test]
fn new_accepts_fractions_in_the_unit_interval() {
    let half = KeepFraction::new(1, 1).unwrap();
    assert_eq!((half.mantissa(), half.shift()), (1, 1));
    let one = KeepFraction::new(2, 1).unwrap();
    assert_eq!((one.mantissa(), one.shift()), (2, 1));
    let tiny = KeepFraction::new(1, 200).unwrap();
    assert_eq!((tiny.mantissa(), tiny.shift()), (1, 200));
    assert!(KeepFraction::new(u32::MAX, 32).is_some());
    assert!(KeepFraction::new(1, 0).is_some());
}

#[test]
fn new_rejects_zero_and_fractions_above_one() {
    assert!(KeepFraction::new(0, 3).is_none());
    assert!(KeepFraction::new(0, 0).is_none());
    assert!(KeepFraction::new(3, 1).is_none());
    assert!(KeepFraction::new(2, 0).is_none());
    assert!(KeepFraction::new(u32::MAX, 31).is_none());
}

#[test]
fn one_is_one_over_one() {
    let one = KeepFraction::one();
    assert_eq!((one.mantissa(), one.shift()), (1, 0));
    assert_eq!(one.cutoff(17), 17);
}

#[test]
fn from_bits_decodes_normal_values() {
    let half = KeepFraction::from_bits(0.5f32.to_bits()).unwrap();
    assert_eq!((half.mantissa(), half.shift()), (0x80_0000, 24));
    let one = KeepFraction::from_bits(1.0f32.to_bits()).unwrap();
    assert_eq!((one.mantissa(), one.shift()), (0x80_0000, 23));
    let three_quarters = KeepFraction::from_bits(0.75f32.to_bits()).unwrap();
    assert_eq!((three_quarters.mantissa(), three_quarters.shift()), (0xc0_0000, 24));
    let step = KeepFraction::from_bits(0.001953125f32.to_bits()).unwrap();
    assert_eq!((step.mantissa(), step.shift()), (0x80_0000, 32));
}

#[test]
fn from_bits_is_exact() {
    for value in [0.3f32, 0.1, 0.999_999_94, 1.0e-20, 0.062_5, 0.333_333_34] {
        let k = KeepFraction::from_bits(value.to_bits()).unwrap();
        let rebuilt = (k.mantissa() as f64) * 2f64.powi(-(k.shift() as i32));
        assert_eq!(rebuilt, value as f64);
    }
}

#[test]
fn from_bits_decodes_subnormal_values() {
    let least = KeepFraction::from_bits(1).unwrap();
    assert_eq!((least.mantissa(), least.shift()), (1, 149));
    let largest = KeepFraction::from_bits(0x7f_ffff).unwrap();
    assert_eq!((largest.mantissa(), largest.shift()), (0x7f_ffff, 149));
    let least_normal = KeepFraction::from_bits(0x80_0000).unwrap();
    assert_eq!((least_normal.mantissa(), least_normal.shift()), (0x80_0000, 149));
}

#[test]
fn from_bits_rejects_what_lies_outside_the_unit_interval() {
    assert!(KeepFraction::from_bits(0.0f32.to_bits()).is_none());
    assert!(KeepFraction::from_bits((-0.0f32).to_bits()).is_none());
    assert!(KeepFraction::from_bits((-0.5f32).to_bits()).is_none());
    assert!(KeepFraction::from_bits(1.000_000_1f32.to_bits()).is_none());
    assert!(KeepFraction::from_bits(1.5f32.to_bits()).is_none());
    assert!(KeepFraction::from_bits(2.0f32.to_bits()).is_none());
    assert!(KeepFraction::from_bits(f32::MAX.to_bits()).is_none());
    assert!(KeepFraction::from_bits(f32::INFINITY.to_bits()).is_none());
    assert!(KeepFraction::from_bits(f32::NEG_INFINITY.to_bits()).is_none());
    assert!(KeepFraction::from_bits(f32::NAN.to_bits()).is_none());
    assert!(KeepFraction::from_bits(0x7fc0_0001).is_none());
    assert!(KeepFraction::from_bits(0xffff_ffff).is_none());
}

#[test]
fn cutoff_is_the_fraction_of_the_extent_rounded_up() {
    let quarter = KeepFraction::new(1, 2).unwrap();
    assert_eq!(quarter.cutoff(8), 2);
    assert_eq!(quarter.cutoff(10), 3);
    assert_eq!(quarter.cutoff(1), 1);
    assert_eq!(quarter.cutoff(0), 0);
    assert_eq!(quarter.cutoff(u32::MAX), 0x4000_0000);
    // 0.3 as binary32 lies just above 3/10
    assert_eq!(fraction(0.3).cutoff(10), 4);
    assert_eq!(fraction(0.3).cutoff(9), 3);
    assert_eq!(fraction(1.0).cutoff(u32::MAX), u32::MAX);
}

#[test]
fn cutoff_of_a_tiny_fraction_is_one_cell() {
    assert_eq!(KeepFraction::new(1, 100).unwrap().cutoff(u32::MAX), 1);
    assert_eq!(KeepFraction::new(1, 64).unwrap().cutoff(1000), 1);
    assert_eq!(KeepFraction::new(1, 63).unwrap().cutoff(1000), 1);
    assert_eq!(KeepFraction::from_bits(1).unwrap().cutoff(512), 1);
    assert_eq!(KeepFraction::new(1, 100).unwrap().cutoff(0), 0);
    assert_eq!(fraction(0.001953125).cutoff(512), 1);
    assert_eq!(fraction(0.001953125).cutoff(513), 2);
}

#[test]
fn mask_keeps_the_low_frequency_corner() {
    let grid: Vec<i32> = (1..=16).collect();
    let out = apply_low_frequency_mask(grid, 4, 4, fraction(0.5), 0);
    assert_eq!(out, vec![1, 2, 0, 0, 5, 6, 0, 0, 0, 0, 0, 0, 0, 0, 0, 0]);
}

#[test]
fn mask_keeps_a_cell_that_the_fraction_only_touches() {
    // a quarter of 6 columns is 1.5: columns 0 and 1 lie below it
    let grid: Vec<i32> = (1..=12).collect();
    let out = apply_low_frequency_mask(grid, 6, 2, fraction(0.25), -1);
    assert_eq!(out, vec![1, 2, -1, -1, -1, -1, -1, -1, -1, -1, -1, -1]);
}

#[test]
fn mask_region_takes_a_fraction_for_each_axis() {
    let grid: Vec<i32> = (1..=8).collect();
    let out = mask_region(grid.clone(), 4, 2, fraction(0.25), fraction(1.0), 0);
    assert_eq!(out, vec![1, 0, 0, 0, 5, 0, 0, 0]);
    let out = mask_region(grid, 4, 2, fraction(1.0), fraction(0.5), 0);
    assert_eq!(out, vec![1, 2, 3, 4, 0, 0, 0, 0]);
}

#[test]
fn mask_with_the_whole_fraction_changes_nothing() {
    let grid: Vec<i32> = (0..35).map(|v| v * 3 - 50).collect();
    let out = apply_low_frequency_mask(grid.clone(), 7, 5, fraction(1.0), 0);
    assert_eq!(out, grid);
    let out = apply_low_frequency_mask(grid.clone(), 5, 7, KeepFraction::one(), 0);
    assert_eq!(out, grid);
}

#[test]
fn mask_with_a_tiny_fraction_keeps_the_origin_only() {
    let grid: Vec<i32> = (1..=12).collect();
    let out = apply_low_frequency_mask(grid, 4, 3, fraction(0.001953125), 0);
    assert_eq!(out, vec![1, 0, 0, 0, 0, 0, 0, 0, 0, 0, 0, 0]);
}

#[test]
fn mask_with_a_larger_fraction_keeps_what_a_smaller_one_keeps() {
    let grid: Vec<i32> = (1..=64).collect();
    let fractions = [0.125f32, 0.25, 0.3, 0.5, 0.8, 1.0];
    for pair in fractions.windows(2) {
        let small = apply_low_frequency_mask(grid.clone(), 8, 8, fraction(pair[0]), 0);
        let large = apply_low_frequency_mask(grid.clone(), 8, 8, fraction(pair[1]), 0);
        for i in 0..64 {
            assert!(small[i] == 0 || small[i] == large[i]);
        }
        let both = apply_low_frequency_mask(large, 8, 8, fraction(pair[0]), 0);
        assert_eq!(both, small);
    }
}
