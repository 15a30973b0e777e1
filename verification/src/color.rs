//! Colours of tabs, profiles and hosts, stored as "#rrggbb".

use crate::ids::hex_char;
use crate::paths::str_view;
use crate::text::{
    digit_value, digits_value, drop_front, number, opt_view, parse_number, to_chars, trim_front, Class,
};
use vstd::prelude::*;

verus! {

#[derive(Clone, Copy, PartialEq, Eq, Structural, Debug)]
pub struct Color {
    pub r: u8,
    pub g: u8,
    pub b: u8,
}

/// Why a text is no colour.
#[derive(Clone, Copy, PartialEq, Eq, Structural, Debug)]
pub enum ColorError {
    /// Not a hexadecimal number that fits in 32 bits.
    Number,
    /// Not six digits.
    Length,
}

/// Two hexadecimal digits.
pub open spec fn hex_pair(v: u8) -> Seq<char> {
    seq![hex_char(v as int / 16), hex_char(v as int % 16)]
}

/// How a colour is stored.
pub open spec fn hex_color(c: Color) -> Seq<char> {
    seq!['#'] + hex_pair(c.r) + hex_pair(c.g) + hex_pair(c.b)
}

fn digit(d: u8) -> (r: char)
    requires
        d < 16,
    ensures
        r == hex_char(d as int),
{
    if d < 10 {
        (48 + d) as char
    } else {
        (87 + d) as char
    }
}

/// Writes a colour as it is stored.
pub fn to_hex(c: Color) -> (r: String)
    ensures
        r@ == hex_color(c),
{
    let mut r = String::new();
    r.push('#');
    r.push(digit(c.r / 16));
    r.push(digit(c.r % 16));
    r.push(digit(c.g / 16));
    r.push(digit(c.g % 16));
    r.push(digit(c.b / 16));
    r.push(digit(c.b % 16));
    assert(r@ =~= hex_color(c));
    r
}

/// The colour whose parts are the bytes of a number.
pub open spec fn from_number(v: int) -> Color {
    Color { r: (v / 65536 % 256) as u8, g: (v / 256 % 256) as u8, b: (v % 256) as u8 }
}

/// What a stored text stands for: leading hash signs are dropped, the rest is
/// a hexadecimal number written with six characters.
pub open spec fn color_of(s: Seq<char>) -> Result<Color, ColorError> {
    let hex = drop_front(s, Class::Is('#'));
    match number(hex, 16, 0xffff_ffff) {
        None => Err(ColorError::Number),
        Some(v) => if hex.len() != 6 {
            Err(ColorError::Length)
        } else {
            Ok(from_number(v as int))
        },
    }
}

/// Reads a stored colour.
pub fn from_hex(s: &str) -> (r: Result<Color, ColorError>)
    ensures
        r == color_of(s@),
{
    let hex = trim_front(&to_chars(s), Class::Is('#'));
    match parse_number(&hex, 16, 0xffff_ffff) {
        None => Err(ColorError::Number),
        Some(v) => {
            if hex.len() != 6 {
                return Err(ColorError::Length);
            }
            Ok(
                Color {
                    r: (v / 65536 % 256) as u8,
                    g: (v / 256 % 256) as u8,
                    b: (v % 256) as u8,
                },
            )
        },
    }
}

/// How the colour of a tab is stored: nothing where it has none.
pub open spec fn stored(c: Option<Color>) -> Option<Seq<char>> {
    match c {
        Some(c) => Some(hex_color(c)),
        None => None,
    }
}

/// What is read for the colour of a tab: none where nothing is stored.
pub open spec fn loaded(s: Option<Seq<char>>) -> Result<Option<Color>, ColorError> {
    match s {
        Some(s) => match color_of(s) {
            Ok(c) => Ok(Some(c)),
            Err(e) => Err(e),
        },
        None => Ok(None),
    }
}

/// Writes the colour of a tab, if it has one.
pub fn serialize(color: Option<Color>) -> (r: Option<String>)
    ensures
        opt_view(r) == stored(color),
{
    match color {
        Some(c) => Some(to_hex(c)),
        None => None,
    }
}

/// Reads the colour of a tab, if one is stored.
pub fn deserialize(s: Option<&str>) -> (r: Result<Option<Color>, ColorError>)
    ensures
        r == loaded(str_view(s)),
{
    match s {
        Some(s) => match from_hex(s) {
            Ok(c) => Ok(Some(c)),
            Err(e) => Err(e),
        },
        None => Ok(None),
    }
}

/// A digit written by `hex_char` is read back as its value.
proof fn lemma_hex_char(d: int)
    requires
        0 <= d < 16,
    ensures
        digit_value(hex_char(d)) == Some(d as nat),
        hex_char(d) != '#',
        hex_char(d) != '+',
{
    if d < 10 {
        assert(hex_char(d) as int == 48 + d);
    } else {
        assert(hex_char(d) as int == 87 + d);
    }
}

/// One more digit.
proof fn lemma_one_digit(s: Seq<char>, v: nat, d: int)
    requires
        digits_value(s, 16) == Some(v),
        0 <= d < 16,
    ensures
        digits_value(s.push(hex_char(d)), 16) == Some((v * 16 + d) as nat),
{
    lemma_hex_char(d);
    assert(s.push(hex_char(d)).drop_last() =~= s);
}

/// The bytes of a number made of three.
proof fn lemma_bytes(r: int, g: int, b: int)
    requires
        0 <= r < 256,
        0 <= g < 256,
        0 <= b < 256,
    ensures
        (r * 65536 + g * 256 + b) / 65536 % 256 == r,
        (r * 65536 + g * 256 + b) / 256 % 256 == g,
        (r * 65536 + g * 256 + b) % 256 == b,
{
}

/// The six digits of a colour are worth its three bytes.
proof fn lemma_six_digits(c: Color)
    ensures
        digits_value(hex_pair(c.r) + hex_pair(c.g) + hex_pair(c.b), 16) == Some(
            (c.r * 65536 + c.g * 256 + c.b) as nat,
        ),
{
    let (r, g, b) = (c.r as int, c.g as int, c.b as int);
    let s0 = Seq::<char>::empty();
    let s1 = s0.push(hex_char(r / 16));
    let s2 = s1.push(hex_char(r % 16));
    let s3 = s2.push(hex_char(g / 16));
    let s4 = s3.push(hex_char(g % 16));
    let s5 = s4.push(hex_char(b / 16));
    let s6 = s5.push(hex_char(b % 16));
    lemma_one_digit(s0, 0, r / 16);
    lemma_one_digit(s1, (r / 16) as nat, r % 16);
    lemma_one_digit(s2, r as nat, g / 16);
    lemma_one_digit(s3, (r * 16 + g / 16) as nat, g % 16);
    lemma_one_digit(s4, (r * 256 + g) as nat, b / 16);
    lemma_one_digit(s5, (r * 4096 + g * 16 + b / 16) as nat, b % 16);
    assert(hex_pair(c.r) + hex_pair(c.g) + hex_pair(c.b) =~= s6);
}

proof fn lemma_read_back(c: Color)
    ensures
        color_of(hex_color(c)) == Ok::<Color, ColorError>(c),
{
    let text = hex_color(c);
    let hex = hex_pair(c.r) + hex_pair(c.g) + hex_pair(c.b);
    lemma_six_digits(c);
    lemma_bytes(c.r as int, c.g as int, c.b as int);
    lemma_hex_char(c.r as int / 16);
    assert(text.drop_first() =~= hex);
    assert(hex[0] == hex_char(c.r as int / 16));
    assert(drop_front(hex, Class::Is('#')) == hex);
    assert(drop_front(text, Class::Is('#')) == hex);
}

/// A stored colour is read back as it was, and a missing one as missing.
pub proof fn law_color_round_trip(c: Option<Color>)
    ensures
        loaded(stored(c)) == Ok::<Option<Color>, ColorError>(c),
{
    if let Some(c) = c {
        lemma_read_back(c);
    }
}

/// A text that has not six characters after its leading hash signs is refused.
pub proof fn law_color_length(s: Seq<char>)
    requires
        drop_front(s, Class::Is('#')).len() != 6,
    ensures
        loaded(Some(s)) is Err,
{
}

} // verus!
