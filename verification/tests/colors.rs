use code_highlight::color::{write_css_color, Color};

fn css(c: Color) -> String {
    let mut s = String::new();
    write_css_color(&mut s, c);
    s
}

#[test]
fn opaque_colour_has_six_digits() {
    assert_eq!(css(Color { r: 0x12, g: 0xab, b: 0xff, a: 0xff }), "#12abff");
    assert_eq!(css(Color { r: 0, g: 0, b: 0, a: 0xff }), "#000000");
    assert_eq!(css(Color { r: 255, g: 255, b: 255, a: 255 }), "#ffffff");
    assert_eq!(css(Color { r: 0x09, g: 0x0a, b: 0x9f, a: 0xff }), "#090a9f");
}

#[test]
fn other_alpha_has_eight_digits() {
    assert_eq!(css(Color { r: 0x12, g: 0xab, b: 0xff, a: 0xfe }), "#12abfffe");
    assert_eq!(css(Color { r: 255, g: 255, b: 0, a: 0 }), "#ffff0000");
    assert_eq!(css(Color { r: 1, g: 2, b: 3, a: 0x80 }), "#01020380");
}

#[test]
fn colour_is_appended_to_what_is_there() {
    let mut s = String::from("color:");
    write_css_color(&mut s, Color { r: 0xde, g: 0xad, b: 0xbe, a: 0xef });
    assert_eq!(s, "color:#deadbeef");
    write_css_color(&mut s, Color { r: 0, g: 0x10, b: 0x0f, a: 0xff });
    assert_eq!(s, "color:#deadbeef#00100f");
}

#[test]
fn every_byte_is_written_as_the_standard_library_writes_it() {
    for n in 0..=255u8 {
        assert_eq!(css(Color { r: n, g: 0, b: 0, a: 0xff }), format!("#{:02x}0000", n));
        if n != 0xff {
            assert_eq!(css(Color { r: 0, g: 0, b: 0, a: n }), format!("#000000{:02x}", n));
        }
    }
}
