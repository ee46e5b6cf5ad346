use bezier_rust::color::{
    color_from_hex, hexcolor, Rgba, BACKGROUND_COLOR, BEZIER_COLOR, LINE_COLOR, MARKER_COLOR,
};

fn rgba(r: u8, g: u8, b: u8, a: u8) -> Rgba {
    Rgba { r, g, b, a }
}

#[test]
fn palette_colors_read_as_their_bytes() {
    assert_eq!(hexcolor(BACKGROUND_COLOR), (rgba(0x0D, 0x0C, 0x1D, 255), false));
    assert_eq!(hexcolor(BEZIER_COLOR), (rgba(0xF1, 0xDA, 0xC4, 255), false));
    assert_eq!(hexcolor(LINE_COLOR), (rgba(0x16, 0x1B, 0x33, 255), false));
    assert_eq!(hexcolor(MARKER_COLOR), (rgba(0x47, 0x49, 0x73, 255), false));
}

#[test]
fn red_and_white_and_lower_case() {
    assert_eq!(color_from_hex("ff0000"), Some(rgba(255, 0, 0, 255)));
    assert_eq!(color_from_hex("ffffff"), Some(rgba(255, 255, 255, 255)));
    assert_eq!(color_from_hex("00Ff00"), Some(rgba(0, 255, 0, 255)));
}

#[test]
fn unreadable_text_falls_back_to_white() {
    assert_eq!(color_from_hex("zzzzzz"), None);
    assert_eq!(hexcolor("zzzzzz"), (Rgba::white(), true));
    assert_eq!(hexcolor(""), (rgba(255, 255, 255, 255), true));
    assert_eq!(color_from_hex("#0D0C1D"), None);
    assert_eq!(color_from_hex("-"), None);
    assert_eq!(color_from_hex("+"), None);
    assert_eq!(color_from_hex(" ff"), None);
}

#[test]
fn out_of_range_values_are_refused() {
    assert_eq!(color_from_hex("80000000"), None);
    assert_eq!(color_from_hex("-80000001"), None);
    assert_eq!(color_from_hex("123456789"), None);
}

#[test]
fn short_and_signed_strings() {
    assert_eq!(color_from_hex("ff"), Some(rgba(0, 0, 255, 255)));
    assert_eq!(color_from_hex("+ff"), Some(rgba(0, 0, 255, 255)));
    assert_eq!(color_from_hex("1"), Some(rgba(0, 0, 1, 255)));
    // -1: blue is -1 % 256 = -1, kept as the byte 255; green and red are 0.
    assert_eq!(color_from_hex("-1"), Some(rgba(0, 0, 255, 255)));
    assert_eq!(color_from_hex("-80000000"), Some(rgba(0, 0, 0, 255)));
}

#[test]
fn long_strings_keep_the_low_byte_of_red() {
    // 0x12345678: blue 0x78, green 0x56, red (0x12345678 - 0x56) / 65536 = 0x1234 -> 0x34
    assert_eq!(color_from_hex("12345678"), Some(rgba(0x34, 0x56, 0x78, 255)));
    assert_eq!(color_from_hex("7fffffff"), Some(rgba(0xff, 0xff, 0xff, 255)));
}
