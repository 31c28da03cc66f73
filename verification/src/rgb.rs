//! An RGB colour.

use vstd::prelude::*;

verus! {

/// The lower-case hexadecimal digit that stands for `n`, for `n` below
/// sixteen.
pub open spec fn hex_digit(n: u8) -> char {
    if n == 0 {
        '0'
    } else if n == 1 {
        '1'
    } else if n == 2 {
        '2'
    } else if n == 3 {
        '3'
    } else if n == 4 {
        '4'
    } else if n == 5 {
        '5'
    } else if n == 6 {
        '6'
    } else if n == 7 {
        '7'
    } else if n == 8 {
        '8'
    } else if n == 9 {
        '9'
    } else if n == 10 {
        'a'
    } else if n == 11 {
        'b'
    } else if n == 12 {
        'c'
    } else if n == 13 {
        'd'
    } else if n == 14 {
        'e'
    } else {
        'f'
    }
}

/// A byte in lower-case hexadecimal, without a leading zero: one digit below
/// sixteen, two from there on.
pub open spec fn hex_text(v: u8) -> Seq<char> {
    if v < 16 {
        seq![hex_digit(v)]
    } else {
        seq![hex_digit(v / 16), hex_digit(v % 16)]
    }
}

/// `String::push` of std: appends the character `c` to the end of `text`
/// and leaves what was there before as it is.
#[verifier::external_body]
fn push_char(text: &mut String, c: char)
    ensures
        final(text)@ == old(text)@.push(c),
{
    text.push(c)
}

/// The lower-case hexadecimal digit that stands for `n`.
fn digit(n: u8) -> (c: char)
    requires
        n < 16,
    ensures
        c == hex_digit(n),
{
    match n {
        0 => '0',
        1 => '1',
        2 => '2',
        3 => '3',
        4 => '4',
        5 => '5',
        6 => '6',
        7 => '7',
        8 => '8',
        9 => '9',
        10 => 'a',
        11 => 'b',
        12 => 'c',
        13 => 'd',
        14 => 'e',
        _ => 'f',
    }
}

/// Appends `v` in lower-case hexadecimal, without a leading zero.
fn push_hex(text: &mut String, v: u8)
    ensures
        final(text)@ == old(text)@ + hex_text(v),
{
    if v >= 16 {
        push_char(text, digit(v / 16));
    }
    push_char(text, digit(v % 16));
    assert(text@ =~= old(text)@ + hex_text(v));
}

/// A struct representing an RGB color.
#[derive(Debug, Copy, Clone, PartialEq, Eq, Structural)]
#[allow(clippy::upper_case_acronyms)]
pub struct RGB(pub u8, pub u8, pub u8);

impl RGB {
    /// The three bytes that encode this colour: red, green, blue.
    pub open spec fn bytes(&self) -> Seq<u8> {
        seq![self.0, self.1, self.2]
    }

    /// This colour as text: a hash sign, then red, green and blue in
    /// lower-case hexadecimal, none of them padded.
    pub open spec fn text(&self) -> Seq<char> {
        seq!['#'] + hex_text(self.0) + hex_text(self.1) + hex_text(self.2)
    }

    /// Create a new RGB color.
    pub fn new(r: u8, g: u8, b: u8) -> (rgb: Self)
        ensures
            rgb == RGB(r, g, b),
    {
        Self(r, g, b)
    }

    /// Get the color.
    pub fn color(&self) -> (c: (u8, u8, u8))
        ensures
            c == (self.0, self.1, self.2),
    {
        (self.0, self.1, self.2)
    }

    /// Returns this colour as text, such as `#ff800` for `(255, 128, 0)`.
    #[allow(clippy::inherent_to_string)]
    pub fn to_string(&self) -> (text: String)
        ensures
            text@ == self.text(),
    {
        let mut text = String::new();
        push_char(&mut text, '#');
        push_hex(&mut text, self.0);
        push_hex(&mut text, self.1);
        push_hex(&mut text, self.2);
        assert(text@ =~= self.text());
        text
    }

    /// Returns this RGB struct as three bytes.
    pub fn as_bytes(&self) -> (out: Vec<u8>)
        ensures
            out@ == self.bytes(),
    {
        let mut out: Vec<u8> = Vec::new();
        out.push(self.0);
        out.push(self.1);
        out.push(self.2);
        assert(out@ =~= self.bytes());
        out
    }
}

} // verus!
