//! RGBA colours and their CSS hexadecimal notation.

use vstd::prelude::*;

verus! {

/// A colour with red, green, blue and alpha components.
#[derive(Clone, Copy, Debug, PartialEq, Eq, Structural)]
pub struct Color {
    pub r: u8,
    pub g: u8,
    pub b: u8,
    pub a: u8,
}

/// The sixteen lower-case hexadecimal digits, in order of value.
pub open spec fn hex_digits() -> Seq<char> {
    seq!['0', '1', '2', '3', '4', '5', '6', '7', '8', '9', 'a', 'b', 'c', 'd', 'e', 'f']
}

/// The two hexadecimal digits of a byte, high nibble first.
pub open spec fn hex_pair(byte: u8) -> Seq<char> {
    seq![hex_digits()[byte as int / 16], hex_digits()[byte as int % 16]]
}

/// The CSS notation of a colour: `#rrggbb` when it is fully opaque,
/// `#rrggbbaa` otherwise.
pub open spec fn css_color(c: Color) -> Seq<char> {
    let rgb = seq!['#'] + hex_pair(c.r) + hex_pair(c.g) + hex_pair(c.b);
    if c.a == 0xFF {
        rgb
    } else {
        rgb + hex_pair(c.a)
    }
}

impl Color {
    /// Opaque black.
    pub open spec fn black() -> Color {
        Color { r: 0, g: 0, b: 0, a: 0xFF }
    }

    /// Opaque white.
    pub open spec fn white() -> Color {
        Color { r: 0xFF, g: 0xFF, b: 0xFF, a: 0xFF }
    }
}

/// The hexadecimal digit of a value below sixteen.
fn hex_digit(nibble: u8) -> (c: char)
    requires
        nibble < 16,
    ensures
        c == hex_digits()[nibble as int],
{
    if nibble < 10 {
        ('0' as u8 + nibble) as char
    } else {
        ('a' as u8 + (nibble - 10)) as char
    }
}

/// Appends the two hexadecimal digits of a byte.
fn push_hex_pair(s: &mut String, byte: u8)
    ensures
        final(s)@ == old(s)@ + hex_pair(byte),
{
    s.push(hex_digit(byte / 16));
    s.push(hex_digit(byte % 16));
    assert(s@ =~= old(s)@ + hex_pair(byte));
}

/// Appends the CSS notation of a colour to a string.
pub fn write_css_color(s: &mut String, c: Color)
    ensures
        final(s)@ == old(s)@ + css_color(c),
{
    s.push('#');
    push_hex_pair(s, c.r);
    push_hex_pair(s, c.g);
    push_hex_pair(s, c.b);
    if c.a != 0xFF {
        push_hex_pair(s, c.a);
    }
    assert(s@ =~= old(s)@ + css_color(c));
}

} // verus!
