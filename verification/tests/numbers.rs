use resp_codec::digits::{format_i64, format_u64, parse_i64, parse_isize};
use resp_codec::float_text::is_float_text;
use resp_codec::line::first_crlf;
use resp_codec::order::{bytes_equal, bytes_less};
use resp_codec::IntErrorKind;

#[test]
fn parses_decimals() {
    assert_eq!(parse_i64(b"0"), Ok(0));
    assert_eq!(parse_i64(b"42"), Ok(42));
    assert_eq!(parse_i64(b"+42"), Ok(42));
    assert_eq!(parse_i64(b"-42"), Ok(-42));
    assert_eq!(parse_i64(b"0000000000000000000000042"), Ok(42));
    assert_eq!(parse_i64(b"9223372036854775807"), Ok(i64::MAX));
    assert_eq!(parse_i64(b"-9223372036854775808"), Ok(i64::MIN));
    assert_eq!(parse_i64(b"-9223372036854775807"), Ok(i64::MIN + 1));
}

#[test]
fn refuses_what_is_no_decimal() {
    assert_eq!(parse_i64(b""), Err(IntErrorKind::Empty));
    assert_eq!(parse_i64(b"+"), Err(IntErrorKind::InvalidDigit));
    assert_eq!(parse_i64(b"-"), Err(IntErrorKind::InvalidDigit));
    assert_eq!(parse_i64(b"+-1"), Err(IntErrorKind::InvalidDigit));
    assert_eq!(parse_i64(b"1.0"), Err(IntErrorKind::InvalidDigit));
    assert_eq!(parse_i64(b"12 "), Err(IntErrorKind::InvalidDigit));
    assert_eq!(parse_i64(b"0x1f"), Err(IntErrorKind::InvalidDigit));
    assert_eq!(
        parse_i64(b"99999999999999999999x"),
        Err(IntErrorKind::InvalidDigit)
    );
}

#[test]
fn reports_overflow_by_its_side() {
    assert_eq!(parse_i64(b"9223372036854775808"), Err(IntErrorKind::PosOverflow));
    assert_eq!(parse_i64(b"+9223372036854775808"), Err(IntErrorKind::PosOverflow));
    assert_eq!(parse_i64(b"-9223372036854775809"), Err(IntErrorKind::NegOverflow));
    assert_eq!(parse_i64(b"18446744073709551616"), Err(IntErrorKind::PosOverflow));
    assert_eq!(parse_i64(b"18446744073709551615"), Err(IntErrorKind::PosOverflow));
    assert_eq!(parse_i64(b"92233720368547758070"), Err(IntErrorKind::PosOverflow));
    assert_eq!(parse_i64(b"-92233720368547758080"), Err(IntErrorKind::NegOverflow));
}

#[test]
fn parses_lengths() {
    assert_eq!(parse_isize(b"-1"), Ok(-1));
    assert_eq!(parse_isize(b"1024"), Ok(1024));
    assert_eq!(parse_isize(b""), Err(IntErrorKind::Empty));
    assert_eq!(parse_isize(b"12x"), Err(IntErrorKind::InvalidDigit));
    assert_eq!(
        parse_isize(isize::MAX.to_string().as_bytes()),
        Ok(isize::MAX)
    );
    assert_eq!(
        parse_isize(isize::MIN.to_string().as_bytes()),
        Ok(isize::MIN)
    );
    assert_eq!(
        parse_isize(b"99999999999999999999"),
        Err(IntErrorKind::PosOverflow)
    );
    assert_eq!(
        parse_isize(b"-99999999999999999999"),
        Err(IntErrorKind::NegOverflow)
    );
}

#[test]
fn formats_decimals() {
    assert_eq!(format_u64(0), b"0");
    assert_eq!(format_u64(9), b"9");
    assert_eq!(format_u64(10), b"10");
    assert_eq!(format_u64(1234567890), b"1234567890");
    assert_eq!(format_u64(u64::MAX), b"18446744073709551615");
    assert_eq!(format_i64(0), b"0");
    assert_eq!(format_i64(-1), b"-1");
    assert_eq!(format_i64(100), b"100");
    assert_eq!(format_i64(i64::MAX), b"9223372036854775807");
    assert_eq!(format_i64(i64::MIN), b"-9223372036854775808");
}

#[test]
fn formatting_and_parsing_are_inverse() {
    for i in [
        0i64,
        1,
        -1,
        9,
        10,
        -10,
        99,
        100,
        12345,
        -98765,
        i64::MAX,
        i64::MIN,
        i64::MAX - 1,
        i64::MIN + 1,
    ] {
        assert_eq!(parse_i64(&format_i64(i)), Ok(i));
        assert_eq!(format_i64(i), i.to_string().into_bytes());
    }
}

#[test]
fn recognises_float_literals() {
    for text in [
        "0", "1", "-1", "+1", "1.0", "1.", ".1", "-.1", "+.1", "1e1", "1E1", "1e+1", "1e-1",
        "1.5e300", "123456789.123456789", "inf", "+inf", "-inf", "INF", "infinity", "Infinity",
        "-iNfInItY", "nan", "NaN", "+nan", "-NAN", "00.00", "1.e1", ".1e1",
    ] {
        assert!(is_float_text(text.as_bytes()), "{:?}", text);
    }
}

#[test]
fn refuses_what_is_no_float_literal() {
    for text in [
        "", "+", "-", ".", "+.", "e", "e1", ".e1", "1e", "1e+", "1e-", "1ee1", "1e1e1", "1e1.5",
        "1..", "1.2.3", "..1", "1,5", "1 ", " 1", "1f", "0x1", "infi", "infinit", "infinityy",
        "na", "nann", "i", "++1", "-+1", "1+", "1-1", "\r\n", "1\n",
    ] {
        assert!(!is_float_text(text.as_bytes()), "{:?}", text);
    }
}

#[test]
fn float_literals_are_what_the_standard_parser_takes() {
    for text in [
        "0", "1.", ".1", "1e1", "1.e1", ".1e1", "+inf", "-infinity", "NaN", "+nan", "", ".", "e1",
        "1e", "1e+", "+", "-", "1.2.3", "infi", "1_000", "0x1p3", "1f32", ".e1", "+.e1",
    ] {
        assert_eq!(
            is_float_text(text.as_bytes()),
            text.parse::<f64>().is_ok(),
            "{:?}",
            text
        );
    }
}

#[test]
fn finds_the_first_line_terminator() {
    assert_eq!(first_crlf(b"", 0), None);
    assert_eq!(first_crlf(b"\r", 0), None);
    assert_eq!(first_crlf(b"\r\n", 0), Some(0));
    assert_eq!(first_crlf(b"\r\n", 1), None);
    assert_eq!(first_crlf(b"+OK\r\n", 1), Some(3));
    assert_eq!(first_crlf(b"+OK\r\n+OK\r\n", 1), Some(3));
    assert_eq!(first_crlf(b"+OK\r\n+OK\r\n", 4), Some(8));
    assert_eq!(first_crlf(b"+O\rK\n\r\r\n", 0), Some(6));
    assert_eq!(first_crlf(b"abc", 7), None);
    assert_eq!(first_crlf(b"\n\r", 0), None);
}

#[test]
fn orders_bytes_from_the_left() {
    assert!(bytes_less(b"", b"a"));
    assert!(!bytes_less(b"", b""));
    assert!(!bytes_less(b"a", b""));
    assert!(bytes_less(b"a", b"b"));
    assert!(bytes_less(b"a", b"ab"));
    assert!(!bytes_less(b"ab", b"a"));
    assert!(bytes_less(b"ab", b"b"));
    assert!(bytes_less(b"Z", b"a"));
    assert!(!bytes_less(b"abc", b"abc"));
    assert!(bytes_less(b"first", b"second"));
    assert!(bytes_equal(b"abc", b"abc"));
    assert!(!bytes_equal(b"abc", b"abd"));
    assert!(!bytes_equal(b"abc", b"ab"));
    assert!(bytes_equal(b"", b""));
}

#[test]
fn byte_order_is_the_order_of_strings() {
    let words = ["", "a", "A", "ab", "b", "\u{e9}", "z", "\u{4e16}", "zz", "\u{1f980}"];
    for a in words {
        for b in words {
            assert_eq!(bytes_less(a.as_bytes(), b.as_bytes()), a < b, "{:?} {:?}", a, b);
        }
    }
}

#[test]
fn float_literals_agree_with_the_standard_parser_on_short_texts() {
    let alphabet: &[u8] = b"+-.eE019infaNtyx";
    let mut texts: Vec<Vec<u8>> = vec![Vec::new()];
    let mut checked = 0usize;
    for _ in 0..4 {
        let mut longer = Vec::new();
        for text in &texts {
            for &byte in alphabet {
                let mut next = text.clone();
                next.push(byte);
                longer.push(next);
            }
        }
        for text in &longer {
            let as_str = std::str::from_utf8(text).unwrap();
            assert_eq!(
                is_float_text(text),
                as_str.parse::<f64>().is_ok(),
                "{:?}",
                as_str
            );
            checked += 1;
        }
        texts = longer;
    }
    assert_eq!(checked, 16 + 16 * 16 + 16 * 16 * 16 + 16 * 16 * 16 * 16);
    for text in [
        "infinity", "INFINITY", "+Infinity", "-infinitY", "infinit", "infinityy", "infinity1",
        "1infinity", "nan1", "+-inf", "12345.6789e-123", "1e99999", "0.0000000000000001",
        "9999999999999999999999999999", "1.2e3.4", "1e+-3",
    ] {
        assert_eq!(
            is_float_text(text.as_bytes()),
            text.parse::<f64>().is_ok(),
            "{:?}",
            text
        );
    }
}

#[test]
fn decimals_agree_with_the_standard_parser_on_short_texts() {
    let alphabet: &[u8] = b"+-0129a ";
    let mut texts: Vec<Vec<u8>> = vec![Vec::new()];
    assert_eq!(parse_i64(b"").is_ok(), "".parse::<i64>().is_ok());
    for _ in 0..5 {
        let mut longer = Vec::new();
        for text in &texts {
            for &byte in alphabet {
                let mut next = text.clone();
                next.push(byte);
                longer.push(next);
            }
        }
        for text in &longer {
            let as_str = std::str::from_utf8(text).unwrap();
            assert_eq!(parse_i64(text).ok(), as_str.parse::<i64>().ok(), "{:?}", as_str);
        }
        texts = longer;
    }
}
