//! Colors: hex triplets, the built-in color names, and the escape sequences
//! that select them on a terminal.

use crate::config::RootConfig;
use crate::string_map::StringMap;
use crate::text::{from_chars, is_text, to_chars};
use vstd::prelude::*;

verus! {

/// A foreground color: one of the built-in ones, or a 24-bit value.
#[derive(Clone, Copy, Debug, PartialEq, Eq, Structural)]
pub enum Color {
    Black,
    Red,
    Green,
    Yellow,
    Blue,
    Magenta,
    Cyan,
    White,
    Grey,
    Rgb(u8, u8, u8),
}

/// How text is to be shown: with a foreground color, or as the terminal
/// shows it by default.
#[derive(Clone, Copy, Debug, PartialEq, Eq, Structural)]
pub struct Style {
    pub foreground: Option<Color>,
}

/// The value of a hexadecimal digit, in either case.
pub open spec fn hex_digit(c: char) -> Option<int> {
    let u = c as u32;
    if 0x30 <= u <= 0x39 {
        Some(u - 0x30)
    } else if 0x41 <= u <= 0x46 {
        Some(u - 0x41 + 10)
    } else if 0x61 <= u <= 0x66 {
        Some(u - 0x61 + 10)
    } else {
        None
    }
}

/// The byte that two hexadecimal digits write, the high one first.
pub open spec fn hex_byte(hi: char, lo: char) -> Option<u8> {
    match (hex_digit(hi), hex_digit(lo)) {
        (Some(h), Some(l)) => Some((16 * h + l) as u8),
        _ => None,
    }
}

/// `s` without the `#` at its start, if it starts with one. Only one `#` is
/// taken off: a second one stays and counts as a character of the rest.
pub open spec fn strip_hash(s: Seq<char>) -> Seq<char> {
    if s.len() > 0 && s[0] == '#' {
        s.skip(1)
    } else {
        s
    }
}

/// The color that a hex triplet names: after one `#` at the start, which
/// may be left out, exactly six hexadecimal digits, two each for red, green
/// and blue. Anything else names no color.
pub open spec fn parse_hex_color(s: Seq<char>) -> Option<(u8, u8, u8)> {
    let h = strip_hash(s);
    if h.len() != 6 {
        None
    } else {
        match (hex_byte(h[0], h[1]), hex_byte(h[2], h[3]), hex_byte(h[4], h[5])) {
            (Some(r), Some(g), Some(b)) => Some((r, g, b)),
            _ => None,
        }
    }
}

/// The character that writes the decimal digit `d`.
pub open spec fn digit_char(d: int) -> char {
    seq!['0', '1', '2', '3', '4', '5', '6', '7', '8', '9'][d]
}

/// `n` in decimal, without leading zeros.
pub open spec fn decimal(n: nat) -> Seq<char>
    decreases n,
{
    if n < 10 {
        seq![digit_char(n as int)]
    } else {
        decimal(n / 10).push(digit_char((n % 10) as int))
    }
}

/// The escape sequence that sets the one display attribute `code`.
pub open spec fn sgr(code: nat) -> Seq<char> {
    seq!['\x1B', '['] + decimal(code) + seq!['m']
}

/// The escape sequence that selects a 24-bit foreground color.
pub open spec fn rgb_escape(r: u8, g: u8, b: u8) -> Seq<char> {
    seq!['\x1B', '[', '3', '8', ';', '2', ';'] + decimal(r as nat) + seq![';'] + decimal(g as nat)
        + seq![';'] + decimal(b as nat) + seq!['m']
}

/// The escape sequence that returns the terminal to its defaults.
pub open spec fn reset_escape() -> Seq<char> {
    sgr(0)
}

impl Color {
    /// The escape sequence that selects this color as the foreground.
    pub open spec fn escape(self) -> Seq<char> {
        match self {
            Color::Black => sgr(30),
            Color::Red => sgr(31),
            Color::Green => sgr(32),
            Color::Yellow => sgr(33),
            Color::Blue => sgr(34),
            Color::Magenta => sgr(35),
            Color::Cyan => sgr(36),
            Color::White => sgr(37),
            Color::Grey => sgr(90),
            Color::Rgb(r, g, b) => rgb_escape(r, g, b),
        }
    }

    /// Appends [`Color::escape`] to `out`.
    pub fn push_escape(&self, out: &mut Vec<char>)
        ensures
            final(out)@ == old(out)@ + self.escape(),
    {
        match self {
            Color::Black => push_sgr(out, 30),
            Color::Red => push_sgr(out, 31),
            Color::Green => push_sgr(out, 32),
            Color::Yellow => push_sgr(out, 33),
            Color::Blue => push_sgr(out, 34),
            Color::Magenta => push_sgr(out, 35),
            Color::Cyan => push_sgr(out, 36),
            Color::White => push_sgr(out, 37),
            Color::Grey => push_sgr(out, 90),
            Color::Rgb(r, g, b) => push_rgb_escape(out, *r, *g, *b),
        }
    }

    /// The escape sequence that selects this color as the foreground.
    pub fn ansi(&self) -> (s: String)
        ensures
            s@ == self.escape(),
    {
        let mut out: Vec<char> = Vec::new();
        self.push_escape(&mut out);
        from_chars(&out)
    }
}

/// The built-in color that `name` names, if it names one.
pub open spec fn named_color(name: Seq<char>) -> Option<Color> {
    if name == "black"@ {
        Some(Color::Black)
    } else if name == "red"@ {
        Some(Color::Red)
    } else if name == "green"@ {
        Some(Color::Green)
    } else if name == "yellow"@ {
        Some(Color::Yellow)
    } else if name == "blue"@ {
        Some(Color::Blue)
    } else if name == "magenta"@ {
        Some(Color::Magenta)
    } else if name == "cyan"@ {
        Some(Color::Cyan)
    } else if name == "white"@ {
        Some(Color::White)
    } else if name == "grey"@ || name == "gray"@ {
        Some(Color::Grey)
    } else {
        None
    }
}

/// The color that `name` stands for: the palette's, where the palette has
/// the name with a well-formed hex triplet, else the built-in one.
pub open spec fn resolve(name: Seq<char>, palette: Map<Seq<char>, Seq<char>>) -> Option<Color> {
    if palette.contains_key(name) && parse_hex_color(palette[name]) is Some {
        let rgb = parse_hex_color(palette[name])->0;
        Some(Color::Rgb(rgb.0, rgb.1, rgb.2))
    } else {
        named_color(name)
    }
}

/// The text that [`hex_to_ansi`] gives for a hex triplet.
pub open spec fn hex_escape(hex: Seq<char>) -> Option<Seq<char>> {
    match parse_hex_color(hex) {
        Some(rgb) => Some(rgb_escape(rgb.0, rgb.1, rgb.2)),
        None => None,
    }
}

/// The escape sequence that [`get_ansi_from_config`] gives for a name: that
/// of the color it stands for, or the reset sequence where it stands for
/// none.
pub open spec fn ansi_of(name: Seq<char>, palette: Map<Seq<char>, Seq<char>>) -> Seq<char> {
    match resolve(name, palette) {
        Some(c) => c.escape(),
        None => reset_escape(),
    }
}

/// Computes [`hex_digit`].
fn hex_digit_value(c: char) -> (r: Option<u8>)
    ensures
        r is Some == hex_digit(c) is Some,
        r matches Some(v) ==> v == hex_digit(c)->0,
{
    let u: u32 = c as u32;
    if 0x30 <= u && u <= 0x39 {
        Some((u - 0x30) as u8)
    } else if 0x41 <= u && u <= 0x46 {
        Some((u - 0x41 + 10) as u8)
    } else if 0x61 <= u && u <= 0x66 {
        Some((u - 0x61 + 10) as u8)
    } else {
        None
    }
}

/// Computes [`hex_byte`].
fn hex_byte_value(hi: char, lo: char) -> (r: Option<u8>)
    ensures
        r == hex_byte(hi, lo),
{
    match (hex_digit_value(hi), hex_digit_value(lo)) {
        (Some(h), Some(l)) => Some(16 * h + l),
        _ => None,
    }
}

/// Computes [`parse_hex_color`] on characters.
pub fn parse_hex_chars(s: &Vec<char>) -> (r: Option<(u8, u8, u8)>)
    ensures
        r == parse_hex_color(s@),
{
    let start: usize = if s.len() > 0 && s[0] == '#' {
        1
    } else {
        0
    };
    assert(strip_hash(s@) == s@.skip(start as int));
    if s.len() - start != 6 {
        return None;
    }
    match (
        hex_byte_value(s[start], s[start + 1]),
        hex_byte_value(s[start + 2], s[start + 3]),
        hex_byte_value(s[start + 4], s[start + 5]),
    ) {
        (Some(r), Some(g), Some(b)) => Some((r, g, b)),
        _ => None,
    }
}

/// The red, green and blue values of a hex triplet such as `#FFC0CB`, or
/// `None` where `hex` is not one.
pub fn hex_to_rgb(hex: &str) -> (r: Option<(u8, u8, u8)>)
    ensures
        r == parse_hex_color(hex@),
{
    let chars = to_chars(hex);
    parse_hex_chars(&chars)
}

/// Computes [`digit_char`].
fn digit(d: u8) -> (c: char)
    requires
        d < 10,
    ensures
        c == digit_char(d as int),
{
    if d == 0 {
        '0'
    } else if d == 1 {
        '1'
    } else if d == 2 {
        '2'
    } else if d == 3 {
        '3'
    } else if d == 4 {
        '4'
    } else if d == 5 {
        '5'
    } else if d == 6 {
        '6'
    } else if d == 7 {
        '7'
    } else if d == 8 {
        '8'
    } else {
        '9'
    }
}

/// Appends [`decimal`] of `n` to `out`.
pub fn push_decimal(out: &mut Vec<char>, n: u8)
    ensures
        final(out)@ == old(out)@ + decimal(n as nat),
{
    proof {
        reveal_with_fuel(decimal, 3);
    }
    if n >= 100 {
        out.push(digit(n / 100));
        out.push(digit((n / 10) % 10));
        out.push(digit(n % 10));
        assert(out@ == old(out)@ + decimal(n as nat));
    } else if n >= 10 {
        out.push(digit(n / 10));
        out.push(digit(n % 10));
        assert(out@ == old(out)@ + decimal(n as nat));
    } else {
        out.push(digit(n));
        assert(out@ == old(out)@ + decimal(n as nat));
    }
}

/// Appends [`sgr`] of `code` to `out`.
pub fn push_sgr(out: &mut Vec<char>, code: u8)
    ensures
        final(out)@ == old(out)@ + sgr(code as nat),
{
    out.push('\x1B');
    out.push('[');
    push_decimal(out, code);
    out.push('m');
    assert(out@ == old(out)@ + sgr(code as nat));
}

/// Appends [`rgb_escape`] to `out`.
pub fn push_rgb_escape(out: &mut Vec<char>, r: u8, g: u8, b: u8)
    ensures
        final(out)@ == old(out)@ + rgb_escape(r, g, b),
{
    out.push('\x1B');
    out.push('[');
    out.push('3');
    out.push('8');
    out.push(';');
    out.push('2');
    out.push(';');
    push_decimal(out, r);
    out.push(';');
    push_decimal(out, g);
    out.push(';');
    push_decimal(out, b);
    out.push('m');
    assert(out@ == old(out)@ + rgb_escape(r, g, b));
}

/// The characters of [`reset_escape`].
pub fn reset_text() -> (v: Vec<char>)
    ensures
        v@ == reset_escape(),
{
    let mut out: Vec<char> = Vec::new();
    push_sgr(&mut out, 0);
    out
}

/// The escape sequence that selects the color of a hex triplet as the
/// foreground, or `None` where `hex` is not a hex triplet.
pub fn hex_to_ansi(hex: &str) -> (r: Option<String>)
    ensures
        match r {
            Some(s) => hex_escape(hex@) == Some(s@),
            None => hex_escape(hex@) is None,
        },
{
    match hex_to_rgb(hex) {
        Some((r, g, b)) => {
            let mut out: Vec<char> = Vec::new();
            push_rgb_escape(&mut out, r, g, b);
            Some(from_chars(&out))
        },
        None => None,
    }
}

/// Computes [`named_color`].
pub fn builtin_color(name: &Vec<char>) -> (c: Option<Color>)
    ensures
        c == named_color(name@),
{
    if is_text(name, "black") {
        Some(Color::Black)
    } else if is_text(name, "red") {
        Some(Color::Red)
    } else if is_text(name, "green") {
        Some(Color::Green)
    } else if is_text(name, "yellow") {
        Some(Color::Yellow)
    } else if is_text(name, "blue") {
        Some(Color::Blue)
    } else if is_text(name, "magenta") {
        Some(Color::Magenta)
    } else if is_text(name, "cyan") {
        Some(Color::Cyan)
    } else if is_text(name, "white") {
        Some(Color::White)
    } else if is_text(name, "grey") || is_text(name, "gray") {
        Some(Color::Grey)
    } else {
        None
    }
}

/// The color that `name` stands for under `palette`: see [`resolve`].
pub fn resolve_color(name: &str, palette: &StringMap) -> (c: Option<Color>)
    ensures
        c == resolve(name@, palette@),
{
    match palette.get(name) {
        Some(hex) => {
            match hex_to_rgb(hex.as_str()) {
                Some((r, g, b)) => {
                    return Some(Color::Rgb(r, g, b));
                },
                None => {},
            }
        },
        None => {},
    }
    let chars = to_chars(name);
    builtin_color(&chars)
}

/// The escape sequence for the color that `color_name` stands for in
/// `config`, or the reset sequence where it stands for none.
pub fn get_ansi_from_config(color_name: &str, config: &RootConfig) -> (s: String)
    ensures
        s@ == ansi_of(color_name@, config.colors@),
{
    let mut out: Vec<char> = Vec::new();
    match resolve_color(color_name, &config.colors) {
        Some(c) => c.push_escape(&mut out),
        None => push_sgr(&mut out, 0),
    }
    from_chars(&out)
}

/// The style that shows text in the color that `color_name` stands for in
/// `config`, or the default style where it stands for none.
pub fn get_style_from_config(color_name: &str, config: &RootConfig) -> (style: Style)
    ensures
        style.foreground == resolve(color_name@, config.colors@),
{
    Style { foreground: resolve_color(color_name, &config.colors) }
}

} // verus!
