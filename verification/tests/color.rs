use stickyboard::color::{hex_color_readable, is_light_color, light_color_readable, rgba_channels, rgba_prefix};

#[test]
fn white_is_light_black_is_dark() {
    assert!(is_light_color("#ffffff"));
    assert!(is_light_color("#fff"));
    assert!(!is_light_color("#000000"));
    assert!(!is_light_color("#000"));
    assert!(!is_light_color("  ##000000  "));
}

#[test]
fn unreadable_codes_count_as_light() {
    assert!(is_light_color(""));
    assert!(is_light_color("#12345"));
    assert!(is_light_color("#gggggg"));
    assert!(is_light_color("#-1-1-1"));
}

#[test]
fn plus_sign_before_a_digit_is_read() {
    assert_eq!(rgba_channels("#+f+f+f"), (15, 15, 15));
    assert!(!is_light_color("#+f+f+f"));
}

#[test]
fn luminance_threshold() {
    // 2126*30 + 7152*153 + 722*162 == 1275000, which single precision rounds up
    assert!(is_light_color("#1e99a2"));
    // 2126*13 + 7152*163 + 722*113 == 1275000, which single precision does not
    assert!(!is_light_color("#0da371"));
    // just above and just below
    assert!(is_light_color("#1e99a3"));
    assert!(!is_light_color("#1e99a1"));
    // mid grey: 127 is dark, 128 is light
    assert!(!is_light_color("#7f7f7f"));
    assert!(is_light_color("#808080"));
}

#[test]
fn channels_of_codes() {
    assert_eq!(rgba_channels("#1e99a2"), (30, 153, 162));
    assert_eq!(rgba_channels("#abc"), (0xaa, 0xbb, 0xcc));
    assert_eq!(rgba_channels("ABC"), (0xaa, 0xbb, 0xcc));
    assert_eq!(rgba_channels("nonsense"), (0, 0, 0));
}

#[test]
fn codes_that_cannot_be_sliced() {
    assert!(!hex_color_readable("a\u{e9}\u{e9}b"));
    assert!(!hex_color_readable("\u{e9}a"));
    assert!(!hex_color_readable("#a\u{e9}"));
    assert!(hex_color_readable("\u{e9}\u{e9}\u{e9}"));
    assert!(hex_color_readable("\u{e9}ab"));
    assert!(hex_color_readable("#123456"));
    assert!(is_light_color("\u{e9}\u{e9}\u{e9}"));
}

#[test]
fn css_rgba_text() {
    assert_eq!(rgba_prefix("#ff8000"), "rgba(255, 128, 0, ");
    assert_eq!(rgba_prefix("#fff"), "rgba(255, 255, 255, ");
    assert_eq!(rgba_prefix("bad"), "rgba(187, 170, 221, ");
    assert_eq!(rgba_prefix("nope"), "rgba(0, 0, 0, ");
}

#[test]
fn lightness_stops_at_the_first_bad_channel() {
    assert!(light_color_readable("zza\u{e9}b"));
    assert!(!hex_color_readable("zza\u{e9}b"));
    assert!(is_light_color("zza\u{e9}b"));
    assert!(light_color_readable("ff\u{e9}12"));
    assert!(!light_color_readable("ff1\u{e9}2"));
    assert!(!light_color_readable("a\u{e9}123"));
    assert!(light_color_readable("\u{e9}1234"));
    assert!(light_color_readable("g\u{e9}"));
    assert!(!light_color_readable("a\u{e9}"));
    assert!(light_color_readable("#123456"));
    assert!(!is_light_color("#123456"));
}
