use led_anim::color::{from_hsv, from_hsv_turn, scale_brightness, Rgb, FULL};

#[test]
fn hsv_primaries_and_secondaries() {
    assert_eq!(from_hsv(0, FULL, FULL), Rgb::new(255, 0, 0));
    assert_eq!(from_hsv(60, FULL, FULL), Rgb::new(255, 255, 0));
    assert_eq!(from_hsv(120, FULL, FULL), Rgb::new(0, 255, 0));
    assert_eq!(from_hsv(180, FULL, FULL), Rgb::new(0, 255, 255));
    assert_eq!(from_hsv(240, FULL, FULL), Rgb::new(0, 0, 255));
    assert_eq!(from_hsv(300, FULL, FULL), Rgb::new(255, 0, 255));
    assert_eq!(from_hsv(360, FULL, FULL), Rgb::new(255, 0, 0));
}

#[test]
fn hsv_between_sectors_is_linear() {
    assert_eq!(from_hsv(30, FULL, FULL), Rgb::new(255, 128, 0));
    assert_eq!(from_hsv(90, FULL, FULL), Rgb::new(128, 255, 0));
    assert_eq!(from_hsv(0, 128, FULL), Rgb::new(255, 127, 127));
}

#[test]
fn hsv_zero_saturation_is_gray() {
    for h in 0..720u16 {
        assert_eq!(from_hsv(h, 0, 200), Rgb::new(200, 200, 200));
        assert_eq!(from_hsv(h, 0, 0), Rgb::new(0, 0, 0));
    }
}

#[test]
fn hsv_zero_value_is_black() {
    for h in 0..360u16 {
        assert_eq!(from_hsv(h, 90, 0), Rgb::new(0, 0, 0));
    }
}

#[test]
fn hsv_has_no_jumps() {
    for h in 0..360u16 {
        let a = from_hsv(h, FULL, FULL);
        let b = from_hsv((h + 1) % 360, FULL, FULL);
        assert!((a.r as i32 - b.r as i32).abs() <= 5);
        assert!((a.g as i32 - b.g as i32).abs() <= 5);
        assert!((a.b as i32 - b.b as i32).abs() <= 5);
    }
}

#[test]
fn scale_at_full_keeps_color() {
    for v in 0..=255u8 {
        let c = Rgb::new(v, 255 - v, v / 3);
        assert_eq!(scale_brightness(c, FULL), c);
    }
}

#[test]
fn scale_rounds_to_nearest() {
    assert_eq!(scale_brightness(Rgb::new(200, 100, 3), 128), Rgb::new(100, 50, 2));
    assert_eq!(scale_brightness(Rgb::new(200, 100, 3), 0), Rgb::new(0, 0, 0));
}

#[test]
fn hsv_turn_keeps_fractional_hue() {
    assert_eq!(from_hsv_turn(0, 300, FULL, FULL), Rgb::new(255, 0, 0));
    assert_eq!(from_hsv_turn(50, 300, FULL, FULL), Rgb::new(255, 255, 0));
    assert_eq!(from_hsv_turn(100, 300, FULL, FULL), Rgb::new(0, 255, 0));
    assert_eq!(from_hsv_turn(200, 300, FULL, FULL), Rgb::new(0, 0, 255));
    // 3.6 degrees: whole degrees would give a green of 13
    assert_eq!(from_hsv_turn(1, 100, FULL, FULL), Rgb::new(255, 15, 0));
    assert_eq!(from_hsv_turn(37, 100, 0, 90), Rgb::new(90, 90, 90));
}
