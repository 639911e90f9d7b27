//! Colours with 8 bits per channel, and the grammar that reads one from text:
//! six hexadecimal digits with an optional `#` in front, or three decimal
//! numbers separated by commas.

use crate::text::{
    all_hex_digits, decimal, decimal_text, hex_digit_value, hex_pair, hex_pair_value,
    is_hex_digit, lemma_split_at_separator, lemma_split_without_separator, parse_u8,
    parse_u8_range, split, split_ranges, trim, trim_range,
};
use rgb::RGB8;
use vstd::prelude::*;

verus! {

/// The pixel type `rgb::RGB`, with its three public fields `r`, `g` and `b`.
#[verifier::external_type_specification]
#[verifier::reject_recursive_types(T)]
pub struct RgbPixel<T>(rgb::RGB<T>);

/// A colour: red, green and blue, each from 0 to 255.
#[derive(Clone, Copy, Debug, PartialEq, Eq)]
pub struct Colour {
    pub rgb: RGB8,
}

impl View for Colour {
    type V = (u8, u8, u8);

    /// Red, green and blue, in this order.
    open spec fn view(&self) -> (u8, u8, u8) {
        (self.rgb.r, self.rgb.g, self.rgb.b)
    }
}

/// One of the three channels of a colour.
#[derive(Clone, Copy, Debug, PartialEq, Eq, Structural)]
pub enum Channel {
    Red,
    Green,
    Blue,
}

/// Why a text is not a colour.
#[derive(Clone, Debug, PartialEq, Eq)]
pub enum ParseError {
    /// The text has neither of the two shapes; it is carried along.
    InvalidFormat(String),
    /// The text has no comma, and is not six hexadecimal digits after an
    /// optional `#`.
    InvalidHexFormat,
    /// The text has a comma, and is not made of exactly three parts.
    InvalidComponentCount,
    /// One of the three parts is not a decimal number from 0 to 255.
    InvalidChannelValue(Channel),
}

/// What a `ParseError` says, with the text it carries as a sequence.
pub enum ParseFault {
    InvalidFormat(Seq<char>),
    InvalidHexFormat,
    InvalidComponentCount,
    InvalidChannelValue(Channel),
}

impl View for ParseError {
    type V = ParseFault;

    open spec fn view(&self) -> ParseFault {
        match self {
            ParseError::InvalidFormat(text) => ParseFault::InvalidFormat(text@),
            ParseError::InvalidHexFormat => ParseFault::InvalidHexFormat,
            ParseError::InvalidComponentCount => ParseFault::InvalidComponentCount,
            ParseError::InvalidChannelValue(channel) => ParseFault::InvalidChannelValue(*channel),
        }
    }
}

/// The letter that names a channel.
pub open spec fn channel_letter(channel: Channel) -> Seq<char> {
    match channel {
        Channel::Red => "R"@,
        Channel::Green => "G"@,
        Channel::Blue => "B"@,
    }
}

/// What a reader is told of a fault. Where the fault carries the text that
/// was read, the message quotes it.
pub open spec fn fault_message(fault: ParseFault) -> Seq<char> {
    match fault {
        ParseFault::InvalidFormat(text) => "Invalid colour '"@ + text
            + "'. Use hex (FFFFFF or #FFFFFF) or RGB (0,0,0)"@,
        ParseFault::InvalidHexFormat => "Hex format must be six hex digits (FFFFFF or #FFFFFF)"@,
        ParseFault::InvalidComponentCount => "RGB format must be R,G,B"@,
        ParseFault::InvalidChannelValue(channel) => "Invalid "@ + channel_letter(channel)
            + " value"@,
    }
}

impl Channel {
    /// The letter that names the channel: `R`, `G` or `B`.
    pub fn letter(&self) -> (text: &'static str)
        ensures
            text@ == channel_letter(*self),
    {
        match self {
            Channel::Red => "R",
            Channel::Green => "G",
            Channel::Blue => "B",
        }
    }
}

impl ParseError {
    /// The message for a reader.
    pub fn message(&self) -> (text: String)
        ensures
            text@ == fault_message(self@),
    {
        match self {
            ParseError::InvalidFormat(input) => {
                let mut text = String::from_str("Invalid colour '");
                text.append(input.as_str());
                text.append("'. Use hex (FFFFFF or #FFFFFF) or RGB (0,0,0)");
                text
            },
            ParseError::InvalidHexFormat => String::from_str(
                "Hex format must be six hex digits (FFFFFF or #FFFFFF)",
            ),
            ParseError::InvalidComponentCount => String::from_str("RGB format must be R,G,B"),
            ParseError::InvalidChannelValue(channel) => {
                let mut text = String::from_str("Invalid ");
                text.append(channel.letter());
                text.append(" value");
                text
            },
        }
    }
}

/// `s` without the one `#` that may stand in front.
pub open spec fn strip_hash(s: Seq<char>) -> Seq<char> {
    if s.len() > 0 && s.first() == '#' {
        s.drop_first()
    } else {
        s
    }
}

/// The colour that six hexadecimal digits write, two digits per channel.
pub open spec fn hex_colour(s: Seq<char>) -> Result<(u8, u8, u8), ParseFault> {
    if s.len() == 6 && all_hex_digits(s) {
        Ok(
            (
                hex_pair_value(s[0], s[1]) as u8,
                hex_pair_value(s[2], s[3]) as u8,
                hex_pair_value(s[4], s[5]) as u8,
            ),
        )
    } else {
        Err(ParseFault::InvalidHexFormat)
    }
}

/// The value of one part of a decimal triple: the part is trimmed and read
/// as an 8-bit decimal number.
pub open spec fn channel_value(part: Seq<char>) -> Option<u8> {
    parse_u8(trim(part))
}

/// The colour that a decimal triple writes. The parts are read in the order
/// red, green, blue, and the first that fails is reported.
pub open spec fn decimal_colour(s: Seq<char>) -> Result<(u8, u8, u8), ParseFault> {
    let parts = split(s, ',');
    if parts.len() != 3 {
        Err(ParseFault::InvalidComponentCount)
    } else if channel_value(parts[0]).is_none() {
        Err(ParseFault::InvalidChannelValue(Channel::Red))
    } else if channel_value(parts[1]).is_none() {
        Err(ParseFault::InvalidChannelValue(Channel::Green))
    } else if channel_value(parts[2]).is_none() {
        Err(ParseFault::InvalidChannelValue(Channel::Blue))
    } else {
        Ok((channel_value(parts[0])->0, channel_value(parts[1])->0, channel_value(parts[2])->0))
    }
}

/// The colour that a text writes, or why it writes none. A text with a comma
/// is read as a decimal triple, the empty text has no shape at all, and any
/// other text is read as hexadecimal digits.
pub open spec fn colour_of(s: Seq<char>) -> Result<(u8, u8, u8), ParseFault> {
    if s.contains(',') {
        decimal_colour(s)
    } else if s.len() == 0 {
        Err(ParseFault::InvalidFormat(s))
    } else {
        hex_colour(strip_hash(s))
    }
}

/// Three parts with a comma after the first and after the second.
pub open spec fn triple(red: Seq<char>, green: Seq<char>, blue: Seq<char>) -> Seq<char> {
    red + seq![','] + green + seq![','] + blue
}

/// A decimal triple is read from what trimming leaves of its three parts:
/// two triples whose parts differ only in the white space around them write
/// the same colour, or fail in the same way.
pub proof fn lemma_white_space_is_ignored(
    red: Seq<char>,
    green: Seq<char>,
    blue: Seq<char>,
    red2: Seq<char>,
    green2: Seq<char>,
    blue2: Seq<char>,
)
    requires
        !red.contains(',') && !green.contains(',') && !blue.contains(','),
        !red2.contains(',') && !green2.contains(',') && !blue2.contains(','),
        trim(red) == trim(red2),
        trim(green) == trim(green2),
        trim(blue) == trim(blue2),
    ensures
        colour_of(triple(red, green, blue)) == colour_of(triple(red2, green2, blue2)),
{
    lemma_split_triple(red, green, blue);
    lemma_split_triple(red2, green2, blue2);
}

/// A triple whose parts hold no comma has a comma, and splits into its
/// parts.
pub proof fn lemma_split_triple(red: Seq<char>, green: Seq<char>, blue: Seq<char>)
    requires
        !red.contains(','),
        !green.contains(','),
        !blue.contains(','),
    ensures
        triple(red, green, blue).contains(','),
        split(triple(red, green, blue), ',') == seq![red, green, blue],
{
    let whole = triple(red, green, blue);
    assert(whole[red.len() as int] == ',');
    lemma_split_at_separator(red + seq![','] + green, blue, ',');
    lemma_split_at_separator(red, green, ',');
    lemma_split_without_separator(red, ',');
    lemma_split_without_separator(green, ',');
    lemma_split_without_separator(blue, ',');
}

/// A `#` in front of a text that has none, and no comma, changes nothing.
pub proof fn lemma_hash_is_optional(s: Seq<char>)
    requires
        s.len() > 0,
        s.first() != '#',
        !s.contains(','),
    ensures
        colour_of(seq!['#'] + s) == colour_of(s),
{
    assert(!(seq!['#'] + s).contains(','));
}

/// A letter from `A` to `Z` as the small letter, any other character as it
/// is.
pub open spec fn ascii_lower(c: char) -> char {
    if 'A' <= c <= 'Z' {
        ((c as u8) + 32) as char
    } else {
        c
    }
}

/// Hexadecimal digits are read without regard to their case.
pub proof fn lemma_hex_ignores_case(s: Seq<char>)
    ensures
        hex_colour(s.map_values(|c: char| ascii_lower(c))) == hex_colour(s),
{
    let lower = s.map_values(|c: char| ascii_lower(c));
    assert forall|c: char|
        is_hex_digit(ascii_lower(c)) == is_hex_digit(c) && (is_hex_digit(c) ==> hex_digit_value(
            ascii_lower(c),
        ) == hex_digit_value(c)) by {}
    if all_hex_digits(lower) {
        assert forall|i: int| 0 <= i < s.len() implies is_hex_digit(#[trigger] s[i]) by {
            assert(is_hex_digit(lower[i]));
        }
    }
}

/// A colour as it is shown to a reader: `RGB(`, the three channels in decimal
/// with `, ` between them, and `)`.
pub open spec fn colour_text(colour: (u8, u8, u8)) -> Seq<char> {
    "RGB("@ + decimal(colour.0 as nat) + ", "@ + decimal(colour.1 as nat) + ", "@ + decimal(
        colour.2 as nat,
    ) + ")"@
}

/// The characters of `s`, one by one.
fn to_chars(s: &str) -> (chars: Vec<char>)
    ensures
        chars@ == s@,
{
    let mut chars: Vec<char> = Vec::new();
    for c in it: s.chars()
        invariant
            chars@ == it.seq().take(it.index() as int),
            it.seq() == s@,
    {
        chars.push(c);
    }
    chars
}

/// Tells whether `c` occurs in `s`.
fn contains_char(s: &Vec<char>, c: char) -> (found: bool)
    ensures
        found == s@.contains(c),
{
    let mut i: usize = 0;
    while i < s.len()
        invariant
            i <= s.len(),
            forall|k: int| 0 <= k < i ==> s@[k] != c,
        decreases s.len() - i,
    {
        if s[i] == c {
            return true;
        }
        i += 1;
    }
    false
}

/// Reads a decimal triple.
fn decimal_triple(s: &Vec<char>) -> (res: Result<Colour, ParseError>)
    ensures
        match res {
            Ok(colour) => decimal_colour(s@) == Ok::<(u8, u8, u8), ParseFault>(colour@),
            Err(error) => decimal_colour(s@) == Err::<(u8, u8, u8), ParseFault>(error@),
        },
{
    let parts = split_ranges(s, ',');
    if parts.len() != 3 {
        return Err(ParseError::InvalidComponentCount);
    }
    let red = trim_range(s, parts[0].0, parts[0].1);
    let r: u8 = match parse_u8_range(s, red.0, red.1) {
        Some(value) => value,
        None => { return Err(ParseError::InvalidChannelValue(Channel::Red)); },
    };
    let green = trim_range(s, parts[1].0, parts[1].1);
    let g: u8 = match parse_u8_range(s, green.0, green.1) {
        Some(value) => value,
        None => { return Err(ParseError::InvalidChannelValue(Channel::Green)); },
    };
    let blue = trim_range(s, parts[2].0, parts[2].1);
    let b: u8 = match parse_u8_range(s, blue.0, blue.1) {
        Some(value) => value,
        None => { return Err(ParseError::InvalidChannelValue(Channel::Blue)); },
    };
    Ok(Colour { rgb: rgb::RGB { r, g, b } })
}

/// Reads six hexadecimal digits, which start at `from` and end with `s`.
fn hex_digits(s: &Vec<char>, from: usize) -> (res: Result<Colour, ParseError>)
    requires
        from <= s.len(),
    ensures
        match res {
            Ok(colour) => hex_colour(s@.subrange(from as int, s@.len() as int)) == Ok::<
                (u8, u8, u8),
                ParseFault,
            >(colour@),
            Err(error) => hex_colour(s@.subrange(from as int, s@.len() as int)) == Err::<
                (u8, u8, u8),
                ParseFault,
            >(error@),
        },
{
    if s.len() - from != 6 {
        return Err(ParseError::InvalidHexFormat);
    }
    let red = hex_pair(s[from], s[from + 1]);
    let green = hex_pair(s[from + 2], s[from + 3]);
    let blue = hex_pair(s[from + 4], s[from + 5]);
    match (red, green, blue) {
        (Some(r), Some(g), Some(b)) => {
            Ok(Colour { rgb: rgb::RGB { r, g, b } })
        },
        _ => {
            Err(ParseError::InvalidHexFormat)
        },
    }
}

impl Colour {
    /// The colour as a pixel of the `rgb` crate.
    pub fn to_rgb8(&self) -> (pixel: RGB8)
        ensures
            pixel == self.rgb,
            (pixel.r, pixel.g, pixel.b) == self@,
    {
        self.rgb
    }

    /// The colour as a text, such as `RGB(255, 128, 0)`.
    pub fn to_text(&self) -> (text: String)
        ensures
            text@ == colour_text(self@),
    {
        let mut text = String::from_str("RGB(");
        text.append(decimal_text(self.rgb.r as u128).as_str());
        text.append(", ");
        text.append(decimal_text(self.rgb.g as u128).as_str());
        text.append(", ");
        text.append(decimal_text(self.rgb.b as u128).as_str());
        text.append(")");
        text
    }

    /// Reads a colour from a text: six hexadecimal digits in either case,
    /// with or without `#` in front, or three decimal numbers from 0 to 255
    /// separated by commas, each with any white space around it.
    pub fn from_str(s: &str) -> (res: Result<Colour, ParseError>)
        ensures
            match res {
                Ok(colour) => colour_of(s@) == Ok::<(u8, u8, u8), ParseFault>(colour@),
                Err(error) => colour_of(s@) == Err::<(u8, u8, u8), ParseFault>(error@),
            },
    {
        let chars = to_chars(s);
        if contains_char(&chars, ',') {
            return decimal_triple(&chars);
        }
        if chars.len() == 0 {
            return Err(ParseError::InvalidFormat(String::from_str(s)));
        }
        let from: usize = if chars[0] == '#' {
            1
        } else {
            0
        };
        hex_digits(&chars, from)
    }
}

impl std::str::FromStr for Colour {
    type Err = ParseError;

    /// The same as `Colour::from_str`, for `str::parse`.
    fn from_str(s: &str) -> (res: Result<Colour, ParseError>)
        ensures
            match res {
                Ok(colour) => colour_of(s@) == Ok::<(u8, u8, u8), ParseFault>(colour@),
                Err(error) => colour_of(s@) == Err::<(u8, u8, u8), ParseFault>(error@),
            },
    {
        Colour::from_str(s)
    }
}

/// Puts `#` in front of `arg`, so that six bare hexadecimal digits become a
/// colour code in the usual notation.
pub fn parse_hex(arg: &str) -> (hex: String)
    ensures
        hex@ == seq!['#'] + arg@,
{
    let mut hex = String::from_str("#");
    proof {
        reveal_strlit("#");
    }
    hex.append(arg);
    hex
}

} // verus!
