use ecg_acquisition::framer::LineFramer;
use ecg_acquisition::numeric::{is_float_text, parse_i64};
use ecg_acquisition::parser::{
    parse_frame, parse_serial_entry, trim_bounds, DeviceReading, ParseError,
};

fn reading(millis: i64, value: &str) -> DeviceReading {
    DeviceReading { device_millis: millis, value: value.as_bytes().to_vec() }
}

#[test]
fn well_formed_entries_parse_exactly() {
    assert_eq!(parse_serial_entry(b"(100 0.1)"), Ok(reading(100, "0.1")));
    assert_eq!(parse_serial_entry(b"(-5 1e3)"), Ok(reading(-5, "1e3")));
    assert_eq!(parse_serial_entry(b"(+7 .5)"), Ok(reading(7, ".5")));
    assert_eq!(parse_serial_entry(b"(0 -inf)"), Ok(reading(0, "-inf")));
    assert_eq!(parse_serial_entry(b"(12 NaN)"), Ok(reading(12, "NaN")));
    assert_eq!(parse_serial_entry(b"(3 2.5E-4)"), Ok(reading(3, "2.5E-4")));
    assert_eq!(
        parse_serial_entry(b"(9223372036854775807 1.)"),
        Ok(reading(i64::MAX, "1."))
    );
    assert_eq!(
        parse_serial_entry(b"(-9223372036854775808 0)"),
        Ok(reading(i64::MIN, "0"))
    );
}

#[test]
fn parsed_value_matches_f64_parse() {
    for text in ["0.1", "1e3", ".5", "-inf", "NaN", "2.5E-4", "+3", "Infinity"] {
        let frame = format!("(1 {})", text);
        let r = parse_serial_entry(frame.as_bytes()).unwrap();
        let parsed: f64 = std::str::from_utf8(&r.value).unwrap().parse().unwrap();
        let expected: f64 = text.parse().unwrap();
        assert!(parsed == expected || (parsed.is_nan() && expected.is_nan()));
    }
}

#[test]
fn malformed_entries_fail() {
    assert_eq!(parse_serial_entry(b""), Err(ParseError::Empty));
    assert_eq!(parse_serial_entry(b"100 0.1)"), Err(ParseError::Unbracketed));
    assert_eq!(parse_serial_entry(b"(100 0.1"), Err(ParseError::Unbracketed));
    assert_eq!(parse_serial_entry(b"("), Err(ParseError::Unbracketed));
    assert_eq!(parse_serial_entry(b"()"), Err(ParseError::BadMillis));
    assert_eq!(parse_serial_entry(b"(abc 0.1)"), Err(ParseError::BadMillis));
    assert_eq!(parse_serial_entry(b"( 100 0.1)"), Err(ParseError::BadMillis));
    assert_eq!(
        parse_serial_entry(b"(9223372036854775808 0.1)"),
        Err(ParseError::BadMillis)
    );
    assert_eq!(parse_serial_entry(b"(100)"), Err(ParseError::MissingValue));
    assert_eq!(parse_serial_entry(b"(100 abc)"), Err(ParseError::BadValue));
    assert_eq!(parse_serial_entry(b"(100 )"), Err(ParseError::BadValue));
    assert_eq!(parse_serial_entry(b"(100 0.1 2)"), Err(ParseError::BadValue));
    assert_eq!(parse_serial_entry(b"(100 1e)"), Err(ParseError::BadValue));
    assert_eq!(parse_serial_entry(b"(100 .)"), Err(ParseError::BadValue));
}

#[test]
fn frames_are_trimmed_before_parsing() {
    assert_eq!(parse_frame(b"(100 0.1)\r\n"), Ok(reading(100, "0.1")));
    assert_eq!(parse_frame(b"  (100 0.1)\t\n"), Ok(reading(100, "0.1")));
    assert_eq!(parse_frame(b"\r\n"), Err(ParseError::Empty));
    assert_eq!(parse_serial_entry(b"(100 0.1)\n"), Err(ParseError::Unbracketed));
}

#[test]
fn integer_literals() {
    assert_eq!(parse_i64(b"0"), Some(0));
    assert_eq!(parse_i64(b"-12"), Some(-12));
    assert_eq!(parse_i64(b"+12"), Some(12));
    assert_eq!(parse_i64(b"9223372036854775807"), Some(i64::MAX));
    assert_eq!(parse_i64(b"-9223372036854775808"), Some(i64::MIN));
    assert_eq!(parse_i64(b"9223372036854775808"), None);
    assert_eq!(parse_i64(b"-9223372036854775809"), None);
    assert_eq!(parse_i64(b"99999999999999999999"), None);
    assert_eq!(parse_i64(b""), None);
    assert_eq!(parse_i64(b"-"), None);
    assert_eq!(parse_i64(b"1 2"), None);
    assert_eq!(parse_i64(b"1.0"), None);
}

#[test]
fn float_literals_agree_with_std() {
    let cases = [
        "0", "0.1", "-0.1", "+1", "1.", ".1", ".", "", "e5", "1e5", "1E+5", "1e-5", "1e", "1e+",
        "inf", "-INF", "infinity", "InFiNiTy", "nan", "NaN", "+nan", "infin", "1.2.3", "1e5e5",
        "0x10", "1_000", " 1", "1 ", "--1", "1e5.0",
    ];
    for c in cases {
        assert_eq!(is_float_text(c.as_bytes()), c.parse::<f64>().is_ok(), "{}", c);
    }
}

fn feed(framer: &mut LineFramer, bytes: &[u8]) -> Vec<Vec<u8>> {
    let mut frames = Vec::new();
    for &b in bytes {
        if let Some(f) = framer.push_byte(b) {
            frames.push(f);
        }
    }
    frames
}

#[test]
fn framer_splits_lines() {
    let mut framer = LineFramer::new();
    let frames = feed(&mut framer, b"(1 2)\n(3 4)\r\n(5");
    assert_eq!(frames, vec![b"(1 2)\n".to_vec(), b"(3 4)\r\n".to_vec()]);
    let frames = feed(&mut framer, b" 6)\n");
    assert_eq!(frames, vec![b"(5 6)\n".to_vec()]);
}

#[test]
fn framer_drops_invalid_bytes() {
    let mut framer = LineFramer::new();
    let frames = feed(&mut framer, b"(1\xff0 2\x80)\n");
    assert_eq!(frames, vec![b"(10 2)\n".to_vec()]);
}

#[test]
fn framer_keeps_multibyte_characters() {
    let mut framer = LineFramer::new();
    let text = "é€😀\n";
    let frames = feed(&mut framer, text.as_bytes());
    assert_eq!(frames, vec![text.as_bytes().to_vec()]);
}

#[test]
fn framer_abandons_incomplete_sequences() {
    let mut framer = LineFramer::new();
    // A lead byte followed by ASCII, and an overlong lead.
    let frames = feed(&mut framer, b"a\xe2\x82b\xc0\xafc\n");
    assert_eq!(frames, vec![b"abc\n".to_vec()]);
    // A surrogate is not well-formed.
    let frames = feed(&mut framer, b"\xed\xa0\x80d\n");
    assert_eq!(frames, vec![b"d\n".to_vec()]);
}

#[test]
fn framer_reset_forgets_partial_line() {
    let mut framer = LineFramer::new();
    assert!(feed(&mut framer, b"(1 2").is_empty());
    framer.reset();
    assert_eq!(feed(&mut framer, b"(3 4)\n"), vec![b"(3 4)\n".to_vec()]);
}

#[test]
fn trimming_agrees_with_str_trim() {
    let spaces: Vec<char> = (0u32..0x3100)
        .filter_map(char::from_u32)
        .filter(|c| c.is_whitespace())
        .collect();
    assert_eq!(spaces.len(), 25);
    for &c in &spaces {
        for text in [
            format!("{c}(1 2){c}"),
            format!("{c}{c}x{c}y{c}\n"),
            format!("{c}"),
            format!("\u{a0}{c}\u{3000}é{c}"),
        ] {
            let (lo, hi) = trim_bounds(text.as_bytes());
            assert_eq!(&text.as_bytes()[lo..hi], text.trim().as_bytes(), "{:?}", text);
        }
    }
    for text in ["é", "\u{2030}", "\u{200b}x\u{200b}", "\u{2000}\u{20ac}"] {
        let (lo, hi) = trim_bounds(text.as_bytes());
        assert_eq!(&text.as_bytes()[lo..hi], text.trim().as_bytes(), "{:?}", text);
    }
    assert_eq!(parse_frame("\u{a0}(5 6)\u{3000}\r\n".as_bytes()), Ok(reading(5, "6")));
}
