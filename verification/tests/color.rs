use julia_set::color::{colorize, Pixel, OPAQUE};

#[test]
fn count_zero_is_opaque_black() {
    assert_eq!(colorize(0), Pixel { red: 0, green: 0, blue: 0, alpha: 255 });
}

#[test]
fn count_at_cap_wraps_green_and_blue() {
    assert_eq!(colorize(1000), Pixel { red: 250, green: 244, blue: 232, alpha: 255 });
}

#[test]
fn channels_divide_by_four_two_and_one() {
    assert_eq!(colorize(1), Pixel { red: 0, green: 0, blue: 1, alpha: 255 });
    assert_eq!(colorize(7), Pixel { red: 1, green: 3, blue: 7, alpha: 255 });
    assert_eq!(colorize(100), Pixel { red: 25, green: 50, blue: 100, alpha: 255 });
    assert_eq!(colorize(255), Pixel { red: 63, green: 127, blue: 255, alpha: 255 });
}

#[test]
fn channels_below_256_do_not_wrap() {
    for i in 0u32..256 {
        let px = colorize(i);
        assert_eq!(u32::from(px.red), i / 4);
        assert_eq!(u32::from(px.green), i / 2);
        assert_eq!(u32::from(px.blue), i);
        assert_eq!(px.alpha, 255);
    }
}

#[test]
fn channels_keep_the_low_byte() {
    assert_eq!(colorize(256), Pixel { red: 64, green: 128, blue: 0, alpha: 255 });
    assert_eq!(colorize(512), Pixel { red: 128, green: 0, blue: 0, alpha: 255 });
    assert_eq!(colorize(999), Pixel { red: 249, green: 243, blue: 231, alpha: 255 });
    assert_eq!(colorize(1024), Pixel { red: 0, green: 0, blue: 0, alpha: 255 });
    assert_eq!(
        colorize(u32::MAX),
        Pixel { red: 255, green: 255, blue: 255, alpha: 255 }
    );
}

#[test]
fn alpha_is_opaque_for_every_count_up_to_the_cap() {
    assert_eq!(OPAQUE, 255);
    for i in 0u32..=1000 {
        assert_eq!(colorize(i).alpha, OPAQUE);
    }
}
