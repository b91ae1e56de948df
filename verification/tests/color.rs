use jpeg_dct::color::ycbr_to_rgb;

fn reference(y: u8, cb: u8, cr: u8) -> Vec<u8> {
    let y = y as f64;
    let cb = cb as f64;
    let cr = cr as f64;
    vec![
        (y + 1.402 * (cr - 128.)) as u8,
        (y - 0.344136 * (cb - 128.) - 0.714136 * (cr - 128.)) as u8,
        (y + 1.772 * (cb - 128.)) as u8,
    ]
}

#[test]
fn neutral_chroma_gives_grey() {
    assert_eq!(ycbr_to_rgb(&[128, 128, 128]), vec![128, 128, 128]);
    assert_eq!(ycbr_to_rgb(&[0, 128, 128]), vec![0, 0, 0]);
    assert_eq!(ycbr_to_rgb(&[255, 128, 128]), vec![255, 255, 255]);
}

#[test]
fn channels_are_truncated_and_clamped() {
    // 255 - 1.402 * 128 = 75.544; green above 255; 255 - 1.772 * 128 = 28.184
    assert_eq!(ycbr_to_rgb(&[255, 0, 0]), vec![75, 255, 28]);
    // 1.402 * 127 = 178.054; green below 0; 1.772 * 127 = 225.044
    assert_eq!(ycbr_to_rgb(&[0, 255, 255]), vec![178, 0, 225]);
    // 100 + 1.402 * 72 = 200.944; 100 + 9.636 - 51.418 = 58.218; 100 - 49.616 = 50.384
    assert_eq!(ycbr_to_rgb(&[100, 100, 200]), vec![200, 58, 50]);
}

#[test]
fn only_the_first_three_bytes_are_read() {
    assert_eq!(ycbr_to_rgb(&[100, 100, 200, 7, 9]), vec![200, 58, 50]);
}

#[test]
fn chroma_set_to_zero_is_converted_like_any_other() {
    assert_eq!(ycbr_to_rgb(&[90, 60, 0]), reference(90, 60, 0));
    assert_eq!(ycbr_to_rgb(&[90, 0, 60]), reference(90, 0, 60));
    assert_eq!(ycbr_to_rgb(&[90, 60, 0]), vec![0, 204, 0]);
}

#[test]
fn green_follows_the_rounding_of_each_step() {
    // The exact value is y - 37, an integer, but the rounded sum falls just
    // short of it from y = 222 on.
    assert_eq!(ycbr_to_rgb(&[221, 28, 228])[1], 184);
    assert_eq!(ycbr_to_rgb(&[222, 28, 228])[1], 184);
    assert_eq!(ycbr_to_rgb(&[223, 28, 228])[1], 185);
    assert_eq!(ycbr_to_rgb(&[255, 28, 228])[1], 217);
    for y in 0..=255u8 {
        assert_eq!(ycbr_to_rgb(&[y, 28, 228]), reference(y, 28, 228));
        assert_eq!(ycbr_to_rgb(&[y, 228, 28]), reference(y, 228, 28));
    }
}

#[test]
fn red_and_blue_agree_with_double_precision_everywhere() {
    for y in 0..=255u8 {
        for c in 0..=255u8 {
            let got = ycbr_to_rgb(&[y, c, c]);
            let want = reference(y, c, c);
            assert_eq!(got[0], want[0]);
            assert_eq!(got[2], want[2]);
        }
    }
}

#[test]
fn green_agrees_with_double_precision_on_every_chroma() {
    for y in [0u8, 1, 37, 100, 128, 200, 221, 222, 255] {
        for cb in 0..=255u8 {
            for cr in 0..=255u8 {
                assert_eq!(ycbr_to_rgb(&[y, cb, cr])[1], reference(y, cb, cr)[1]);
            }
        }
    }
}

#[test]
fn green_agrees_with_double_precision_on_every_luma() {
    for y in 0..=255u8 {
        for cb in (0..=255u8).step_by(5) {
            for cr in (0..=255u8).step_by(3) {
                assert_eq!(ycbr_to_rgb(&[y, cb, cr])[1], reference(y, cb, cr)[1]);
            }
        }
    }
}
