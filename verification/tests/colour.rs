use contrast_checker::colour::{parse_hex, Channel, Colour, ParseError};
use rgb::RGB8;
use std::str::FromStr;

// --- Parsing: valid inputs ---

#[test]
fn test_parse_hex_uppercase() {
    let colour = Colour::from_str("FFFFFF").unwrap();
    assert_eq!(colour.to_rgb8(), RGB8::new(255, 255, 255));
}

#[test]
fn test_parse_hex_lowercase() {
    let colour = Colour::from_str("000000").unwrap();
    assert_eq!(colour.to_rgb8(), RGB8::new(0, 0, 0));
}

#[test]
fn test_parse_hex_with_hash_prefix() {
    let colour = Colour::from_str("#ff0000").unwrap();
    assert_eq!(colour.to_rgb8(), RGB8::new(255, 0, 0));
}

#[test]
fn test_parse_hex_mixed_case() {
    let colour = Colour::from_str("fF0000").unwrap();
    assert_eq!(colour.to_rgb8(), RGB8::new(255, 0, 0));
}

#[test]
fn test_parse_rgb_no_spaces() {
    let colour = Colour::from_str("10,20,30").unwrap();
    assert_eq!(colour.to_rgb8(), RGB8::new(10, 20, 30));
}

#[test]
fn test_parse_rgb_with_spaces() {
    let colour = Colour::from_str("10, 20, 30").unwrap();
    assert_eq!(colour.to_rgb8(), RGB8::new(10, 20, 30));
}

#[test]
fn test_parse_rgb_black() {
    let colour = Colour::from_str("0,0,0").unwrap();
    assert_eq!(colour.to_rgb8(), RGB8::new(0, 0, 0));
}

#[test]
fn test_parse_rgb_white() {
    let colour = Colour::from_str("255,255,255").unwrap();
    assert_eq!(colour.to_rgb8(), RGB8::new(255, 255, 255));
}

// --- Parsing: invalid inputs ---

#[test]
fn test_err_on_five_char_hex() {
    assert!(Colour::from_str("12345").is_err());
}

#[test]
fn test_err_on_seven_char_hex_without_hash() {
    assert!(Colour::from_str("FFFFFFF").is_err());
}

#[test]
fn test_err_on_non_hex_characters() {
    assert!(Colour::from_str("GGGGGG").is_err());
}

#[test]
fn test_err_on_rgb_too_few_components() {
    assert!(Colour::from_str("10,20").is_err());
}

#[test]
fn test_err_on_rgb_too_many_components() {
    assert!(Colour::from_str("10,20,30,40").is_err());
}

#[test]
fn test_err_on_rgb_non_numeric() {
    assert!(Colour::from_str("abc,def,ghi").is_err());
}

#[test]
fn test_err_on_rgb_out_of_range() {
    assert!(Colour::from_str("256,0,0").is_err());
}

#[test]
fn test_err_on_empty_string() {
    assert!(Colour::from_str("").is_err());
}

// --- Which error comes on which input ---

#[test]
fn empty_text_has_no_shape() {
    assert_eq!(Colour::from_str(""), Err(ParseError::InvalidFormat(String::new())));
}

#[test]
fn hex_of_wrong_length_is_invalid_hex() {
    assert_eq!(Colour::from_str("12345"), Err(ParseError::InvalidHexFormat));
    assert_eq!(Colour::from_str("FFFFFFF"), Err(ParseError::InvalidHexFormat));
    assert_eq!(Colour::from_str("#"), Err(ParseError::InvalidHexFormat));
    assert_eq!(Colour::from_str("#12345"), Err(ParseError::InvalidHexFormat));
    assert_eq!(Colour::from_str("#1234567"), Err(ParseError::InvalidHexFormat));
    assert_eq!(Colour::from_str("##ffffff"), Err(ParseError::InvalidHexFormat));
}

#[test]
fn hex_with_other_characters_is_invalid_hex() {
    assert_eq!(Colour::from_str("GGGGGG"), Err(ParseError::InvalidHexFormat));
    assert_eq!(Colour::from_str("#12345g"), Err(ParseError::InvalidHexFormat));
    assert_eq!(Colour::from_str("12 456"), Err(ParseError::InvalidHexFormat));
    assert_eq!(Colour::from_str(" ffffff"), Err(ParseError::InvalidHexFormat));
    assert_eq!(Colour::from_str("ffffff "), Err(ParseError::InvalidHexFormat));
    assert_eq!(Colour::from_str("\u{e9}fffff"), Err(ParseError::InvalidHexFormat));
    assert_eq!(Colour::from_str("\u{ff11}23456"), Err(ParseError::InvalidHexFormat));
}

#[test]
fn wrong_number_of_parts_is_invalid_component_count() {
    assert_eq!(Colour::from_str("10,20"), Err(ParseError::InvalidComponentCount));
    assert_eq!(Colour::from_str("10,20,30,40"), Err(ParseError::InvalidComponentCount));
    assert_eq!(Colour::from_str(","), Err(ParseError::InvalidComponentCount));
    assert_eq!(Colour::from_str("1,2,3,"), Err(ParseError::InvalidComponentCount));
    assert_eq!(Colour::from_str("ffffff,"), Err(ParseError::InvalidComponentCount));
}

#[test]
fn first_bad_channel_is_reported() {
    let red = Err(ParseError::InvalidChannelValue(Channel::Red));
    let green = Err(ParseError::InvalidChannelValue(Channel::Green));
    let blue = Err(ParseError::InvalidChannelValue(Channel::Blue));
    assert_eq!(Colour::from_str("256,0,0"), red);
    assert_eq!(Colour::from_str("abc,def,ghi"), red);
    assert_eq!(Colour::from_str(",,"), red);
    assert_eq!(Colour::from_str("-1,0,0"), red);
    assert_eq!(Colour::from_str("1 0,0,0"), red);
    assert_eq!(Colour::from_str("0,256,0"), green);
    assert_eq!(Colour::from_str("0,,x"), green);
    assert_eq!(Colour::from_str("0,1.5,0"), green);
    assert_eq!(Colour::from_str("0,0,300"), blue);
    assert_eq!(Colour::from_str("0,0,"), blue);
    assert_eq!(Colour::from_str("0,0,0x10"), blue);
    assert_eq!(Colour::from_str("0,0,+"), blue);
}

// --- The two notations ---

#[test]
fn hash_and_case_do_not_matter() {
    let white = Colour { rgb: RGB8::new(255, 255, 255) };
    assert_eq!(Colour::from_str("#FFFFFF"), Ok(white));
    assert_eq!(Colour::from_str("ffffff"), Ok(white));
    assert_eq!(Colour::from_str("#FFFFFF"), Colour::from_str("ffffff"));
}

#[test]
fn spaces_around_decimal_parts_do_not_matter() {
    let colour = Colour { rgb: RGB8::new(10, 20, 30) };
    assert_eq!(Colour::from_str("10, 20, 30"), Ok(colour));
    assert_eq!(Colour::from_str("10,20,30"), Ok(colour));
    assert_eq!(Colour::from_str(" 10 ,\t20\n, 30 "), Ok(colour));
    assert_eq!(Colour::from_str("\u{a0}10\u{3000},\u{2003}20,30\u{85}"), Ok(colour));
}

#[test]
fn decimal_parts_allow_a_plus_and_leading_zeros() {
    let colour = Colour { rgb: RGB8::new(1, 20, 255) };
    assert_eq!(Colour::from_str("+1,020,0000000255"), Ok(colour));
    assert_eq!(Colour::from_str("1,20,+0255"), Ok(colour));
}

#[test]
fn hex_digits_are_read_two_by_two() {
    assert_eq!(Colour::from_str("0a1B9f"), Ok(Colour { rgb: RGB8::new(10, 27, 159) }));
    assert_eq!(Colour::from_str("#767676"), Ok(Colour { rgb: RGB8::new(118, 118, 118) }));
    assert_eq!(Colour::from_str("AbCdEf"), Ok(Colour { rgb: RGB8::new(171, 205, 239) }));
}

#[test]
fn every_hex_pair_reads_as_its_number() {
    for n in 0..=255u8 {
        let lower = format!("{:02x}00{:02x}", n, 255 - n);
        let upper = format!("#00{:02X}{:02X}", n, n);
        assert_eq!(Colour::from_str(&lower), Ok(Colour { rgb: RGB8::new(n, 0, 255 - n) }));
        assert_eq!(Colour::from_str(&upper), Ok(Colour { rgb: RGB8::new(0, n, n) }));
    }
}

#[test]
fn decimal_parts_read_as_std_reads_them() {
    let mut parts: Vec<String> = Vec::new();
    for n in 0..1200u32 {
        parts.push(format!("{}", n));
        parts.push(format!("+{}", n));
        parts.push(format!("00{}", n));
        parts.push(format!(" {}\t", n));
        parts.push(format!("-{}", n));
        parts.push(format!("{}a", n));
        parts.push(format!("{} 0", n));
    }
    for odd in ["", " ", "+", "-", "++1", "+-1", "1+", "0x1", "1e1", "1_0", "\u{664}", "\u{200b}5", "4294967297"] {
        parts.push(odd.to_string());
    }
    for part in parts {
        let text = format!("{},7,{}", part, part);
        let expected: Result<u8, std::num::ParseIntError> = part.trim().parse::<u8>();
        match (Colour::from_str(&text), expected) {
            (Ok(colour), Ok(n)) => assert_eq!(colour.to_rgb8(), RGB8::new(n, 7, n)),
            (Err(error), Err(_)) => {
                assert_eq!(error, ParseError::InvalidChannelValue(Channel::Red))
            }
            (ours, theirs) => panic!("{:?}: {:?} against {:?}", part, ours, theirs),
        }
    }
}

#[test]
fn parse_of_str_is_from_str() {
    let parsed: Result<Colour, ParseError> = "10, 20, 30".parse();
    assert_eq!(parsed, Ok(Colour { rgb: RGB8::new(10, 20, 30) }));
    let failed: Result<Colour, ParseError> = "10, 20".parse();
    assert_eq!(failed, Err(ParseError::InvalidComponentCount));
    assert_eq!(<Colour as FromStr>::from_str("#000000"), Colour::from_str("000000"));
}

// --- Showing a colour ---

#[test]
fn colour_is_shown_with_its_three_channels() {
    assert_eq!(Colour { rgb: RGB8::new(0, 0, 0) }.to_text(), "RGB(0, 0, 0)");
    assert_eq!(Colour { rgb: RGB8::new(255, 128, 7) }.to_text(), "RGB(255, 128, 7)");
    assert_eq!(Colour { rgb: RGB8::new(10, 100, 99) }.to_text(), "RGB(10, 100, 99)");
}

#[test]
fn shown_channels_read_back() {
    for n in 0..=255u8 {
        let colour = Colour { rgb: RGB8::new(n, 255 - n, n / 2) };
        let text = colour.to_text();
        let inner = &text[4..text.len() - 1];
        assert_eq!(Colour::from_str(inner), Ok(colour));
    }
}

#[test]
fn parse_hex_puts_a_hash_in_front() {
    assert_eq!(parse_hex("ffffff"), "#ffffff");
    assert_eq!(parse_hex(""), "#");
    assert_eq!(parse_hex("#12"), "##12");
    assert_eq!(Colour::from_str(&parse_hex("0000ff")), Ok(Colour { rgb: RGB8::new(0, 0, 255) }));
}

// --- Messages ---

#[test]
fn each_error_has_its_message() {
    assert_eq!(
        ParseError::InvalidFormat("xyz".to_string()).message(),
        "Invalid colour 'xyz'. Use hex (FFFFFF or #FFFFFF) or RGB (0,0,0)"
    );
    assert_eq!(
        ParseError::InvalidHexFormat.message(),
        "Hex format must be six hex digits (FFFFFF or #FFFFFF)"
    );
    assert_eq!(ParseError::InvalidComponentCount.message(), "RGB format must be R,G,B");
    assert_eq!(ParseError::InvalidChannelValue(Channel::Red).message(), "Invalid R value");
    assert_eq!(ParseError::InvalidChannelValue(Channel::Green).message(), "Invalid G value");
    assert_eq!(ParseError::InvalidChannelValue(Channel::Blue).message(), "Invalid B value");
}

#[test]
fn messages_of_failed_readings() {
    assert_eq!(Colour::from_str("10,20").unwrap_err().message(), "RGB format must be R,G,B");
    assert_eq!(Colour::from_str("10,20,x").unwrap_err().message(), "Invalid B value");
    assert_eq!(
        Colour::from_str("").unwrap_err().message(),
        "Invalid colour ''. Use hex (FFFFFF or #FFFFFF) or RGB (0,0,0)"
    );
}

#[test]
fn channels_have_their_letters() {
    assert_eq!(Channel::Red.letter(), "R");
    assert_eq!(Channel::Green.letter(), "G");
    assert_eq!(Channel::Blue.letter(), "B");
}
