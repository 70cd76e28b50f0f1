use bytes::BytesMut;
use resp_codec::grammar::MAX_DEPTH;
use resp_codec::{
    BulkString, IntErrorKind, RespArray, RespDecode, RespDouble, RespError, RespFrame, RespMap,
    RespNull, RespNullArray, RespNullBulkString, RespSet, SimpleError, SimpleString,
};

fn buffer_of(bytes: &[u8]) -> BytesMut {
    let mut buf = BytesMut::new();
    buf.extend_from_slice(bytes);
    buf
}

fn decode_all(bytes: &[u8]) -> Result<RespFrame, RespError> {
    let mut buf = buffer_of(bytes);
    let frame = RespFrame::decode(&mut buf);
    if frame.is_ok() {
        assert!(buf.is_empty());
    } else {
        assert_eq!(&buf[..], bytes);
    }
    frame
}

fn bulk(text: &str) -> RespFrame {
    RespFrame::BulkString(BulkString::from(text))
}

#[test]
fn decodes_simple_string() {
    assert_eq!(
        decode_all(b"+OK\r\n"),
        Ok(RespFrame::SimpleString(SimpleString::from("OK")))
    );
    assert_eq!(
        decode_all(b"+\r\n"),
        Ok(RespFrame::SimpleString(SimpleString::from("")))
    );
}

#[test]
fn decodes_simple_string_with_lone_carriage_return() {
    assert_eq!(
        decode_all(b"+a\rb\r\n"),
        Ok(RespFrame::SimpleString(SimpleString::from("a\rb")))
    );
    assert_eq!(
        decode_all(b"+a\r\r\n"),
        Ok(RespFrame::SimpleString(SimpleString::from("a\r")))
    );
}

#[test]
fn decodes_text_beyond_ascii() {
    let wire = "+h\u{e9}llo \u{4e16}\u{754c}\r\n".as_bytes();
    assert_eq!(
        decode_all(wire),
        Ok(RespFrame::SimpleString(SimpleString::from(
            "h\u{e9}llo \u{4e16}\u{754c}"
        )))
    );
}

#[test]
fn rejects_text_that_is_not_utf8() {
    let r = decode_all(b"+\xff\xfe\r\n");
    assert!(matches!(r, Err(RespError::InvalidFrame(_))));
    let r = decode_all(b"-\xc3\r\n");
    assert!(matches!(r, Err(RespError::InvalidFrame(_))));
}

#[test]
fn decodes_simple_error() {
    assert_eq!(
        decode_all(b"-Error message\r\n"),
        Ok(RespFrame::Error(SimpleError::from("Error message")))
    );
}

#[test]
fn decodes_integers() {
    assert_eq!(decode_all(b":123\r\n"), Ok(RespFrame::Integer(123)));
    assert_eq!(decode_all(b":+123\r\n"), Ok(RespFrame::Integer(123)));
    assert_eq!(decode_all(b":-123\r\n"), Ok(RespFrame::Integer(-123)));
    assert_eq!(decode_all(b":0\r\n"), Ok(RespFrame::Integer(0)));
    assert_eq!(decode_all(b":-0\r\n"), Ok(RespFrame::Integer(0)));
    assert_eq!(decode_all(b":007\r\n"), Ok(RespFrame::Integer(7)));
    assert_eq!(
        decode_all(b":9223372036854775807\r\n"),
        Ok(RespFrame::Integer(i64::MAX))
    );
    assert_eq!(
        decode_all(b":-9223372036854775808\r\n"),
        Ok(RespFrame::Integer(i64::MIN))
    );
}

#[test]
fn rejects_malformed_integers() {
    assert_eq!(
        decode_all(b":\r\n"),
        Err(RespError::ParseIntError(IntErrorKind::Empty))
    );
    assert_eq!(
        decode_all(b":-\r\n"),
        Err(RespError::ParseIntError(IntErrorKind::InvalidDigit))
    );
    assert_eq!(
        decode_all(b":12a\r\n"),
        Err(RespError::ParseIntError(IntErrorKind::InvalidDigit))
    );
    assert_eq!(
        decode_all(b": 12\r\n"),
        Err(RespError::ParseIntError(IntErrorKind::InvalidDigit))
    );
    assert_eq!(
        decode_all(b":9223372036854775808\r\n"),
        Err(RespError::ParseIntError(IntErrorKind::PosOverflow))
    );
    assert_eq!(
        decode_all(b":-9223372036854775809\r\n"),
        Err(RespError::ParseIntError(IntErrorKind::NegOverflow))
    );
    assert_eq!(
        decode_all(b":99999999999999999999999999\r\n"),
        Err(RespError::ParseIntError(IntErrorKind::PosOverflow))
    );
}

#[test]
fn decodes_bulk_string() {
    assert_eq!(decode_all(b"$5\r\nhello\r\n"), Ok(bulk("hello")));
    assert_eq!(decode_all(b"$0\r\n\r\n"), Ok(bulk("")));
}

#[test]
fn bulk_string_is_binary_safe() {
    assert_eq!(
        decode_all(b"$6\r\na\r\nb\x00\xff\r\n"),
        Ok(RespFrame::BulkString(BulkString::from(
            &b"a\r\nb\x00\xff"[..]
        )))
    );
}

#[test]
fn bulk_string_needs_its_terminator() {
    let r = decode_all(b"$5\r\nhelloXY");
    assert!(matches!(r, Err(RespError::InvalidFrame(_))));
    assert_eq!(decode_all(b"$5\r\nhello\r"), Err(RespError::NotComplete));
    assert_eq!(decode_all(b"$5\r\nhel"), Err(RespError::NotComplete));
}

#[test]
fn decodes_null_bulk_string() {
    assert_eq!(
        decode_all(b"$-1\r\n"),
        Ok(RespFrame::NullBulkString(RespNullBulkString))
    );
}

#[test]
fn decodes_null_array() {
    assert_eq!(
        decode_all(b"*-1\r\n"),
        Ok(RespFrame::NullArray(RespNullArray))
    );
}

#[test]
fn decodes_null() {
    assert_eq!(decode_all(b"_\r\n"), Ok(RespFrame::Null(RespNull)));
    let r = decode_all(b"_x\r\n");
    assert!(matches!(r, Err(RespError::InvalidFrame(_))));
}

#[test]
fn decodes_booleans() {
    assert_eq!(decode_all(b"#t\r\n"), Ok(RespFrame::Boolean(true)));
    assert_eq!(decode_all(b"#f\r\n"), Ok(RespFrame::Boolean(false)));
    assert!(matches!(
        decode_all(b"#x\r\n"),
        Err(RespError::InvalidFrame(_))
    ));
    assert!(matches!(
        decode_all(b"#tt\r\n"),
        Err(RespError::InvalidFrame(_))
    ));
    assert!(matches!(
        decode_all(b"#\r\n"),
        Err(RespError::InvalidFrame(_))
    ));
}

#[test]
fn decodes_doubles_as_their_text() {
    for text in [
        "1.23", "+1.23", "-1.23", "1", ".5", "5.", "1e5", "1.5E-10", "+1.23456e+8", "inf", "-inf",
        "nan", "Infinity", "-INFINITY", "NaN", "1.e5",
    ] {
        let wire = format!(",{}\r\n", text);
        assert_eq!(
            decode_all(wire.as_bytes()),
            Ok(RespFrame::Double(RespDouble::new(text.as_bytes()).unwrap())),
            "{}",
            text
        );
    }
}

#[test]
fn rejects_malformed_doubles() {
    for text in [
        "", "+", ".", "e5", "1e", "1e+", "1.2.3", "abc", "1 ", " 1", "0x10", "1_0", "--1", "infx",
        "in", "1e5.0", "+-1",
    ] {
        let wire = format!(",{}\r\n", text);
        assert_eq!(
            decode_all(wire.as_bytes()),
            Err(RespError::ParseFloatError),
            "{:?}",
            text
        );
    }
}

#[test]
fn decodes_array() {
    assert_eq!(
        decode_all(b"*2\r\n$3\r\nset\r\n$5\r\nhello\r\n"),
        Ok(RespFrame::Array(RespArray::new(vec![
            bulk("set"),
            bulk("hello")
        ])))
    );
    assert_eq!(
        decode_all(b"*0\r\n"),
        Ok(RespFrame::Array(RespArray::new(Vec::new())))
    );
}

#[test]
fn decodes_nested_structures() {
    assert_eq!(
        decode_all(b"*2\r\n$3\r\nfoo\r\n*1\r\n:1\r\n"),
        Ok(RespFrame::Array(RespArray::new(vec![
            bulk("foo"),
            RespFrame::Array(RespArray::new(vec![RespFrame::Integer(1)])),
        ])))
    );
}

#[test]
fn decodes_set() {
    assert_eq!(
        decode_all(b"~2\r\n$3\r\nset\r\n$5\r\nhello\r\n"),
        Ok(RespFrame::RespSet(RespSet::new(vec![
            bulk("set"),
            bulk("hello")
        ])))
    );
}

#[test]
fn decodes_map_with_sorted_keys() {
    let frame = decode_all(b"%2\r\n+first\r\n:1\r\n+second\r\n:2\r\n").unwrap();
    let mut expected = RespMap::new();
    expected.insert("first".to_string(), RespFrame::Integer(1));
    expected.insert("second".to_string(), RespFrame::Integer(2));
    assert_eq!(frame, RespFrame::RespMap(expected));
    let map = match frame {
        RespFrame::RespMap(map) => map,
        other => panic!("not a map: {:?}", other),
    };
    let keys: Vec<&str> = map.entries().iter().map(|e| e.0.as_str()).collect();
    assert_eq!(keys, vec!["first", "second"]);
    assert_eq!(map.get("first"), Some(&RespFrame::Integer(1)));
    assert_eq!(map.get("second"), Some(&RespFrame::Integer(2)));
}

#[test]
fn map_keys_are_sorted_whatever_their_order_on_the_wire() {
    let in_order = decode_all(b"%3\r\n+a\r\n:1\r\n+b\r\n:2\r\n+c\r\n:3\r\n").unwrap();
    let shuffled = decode_all(b"%3\r\n+c\r\n:3\r\n+a\r\n:1\r\n+b\r\n:2\r\n").unwrap();
    assert_eq!(in_order, shuffled);
    let map = match shuffled {
        RespFrame::RespMap(map) => map,
        other => panic!("not a map: {:?}", other),
    };
    let keys: Vec<&str> = map.entries().iter().map(|e| e.0.as_str()).collect();
    assert_eq!(keys, vec!["a", "b", "c"]);
}

#[test]
fn later_map_entry_replaces_earlier_one_with_the_same_key() {
    let frame = decode_all(b"%2\r\n+k\r\n:1\r\n+k\r\n:2\r\n").unwrap();
    let mut expected = RespMap::new();
    expected.insert("k".to_string(), RespFrame::Integer(2));
    assert_eq!(frame, RespFrame::RespMap(expected));
}

#[test]
fn map_key_may_be_either_frame_that_holds_text() {
    let mut expected = RespMap::new();
    expected.insert("k".to_string(), RespFrame::Integer(2));
    assert_eq!(
        decode_all(b"%1\r\n+k\r\n:2\r\n"),
        Ok(RespFrame::RespMap(expected.clone()))
    );
    assert_eq!(
        decode_all(b"%1\r\n-k\r\n:2\r\n"),
        Ok(RespFrame::RespMap(expected))
    );
}

#[test]
fn map_key_must_hold_text() {
    assert!(matches!(
        decode_all(b"%1\r\n:1\r\n:2\r\n"),
        Err(RespError::InvalidFrame(_))
    ));
    assert!(matches!(
        decode_all(b"%1\r\n$1\r\nk\r\n:2\r\n"),
        Err(RespError::InvalidFrame(_))
    ));
    assert!(matches!(
        decode_all(b"%1\r\n*0\r\n:2\r\n"),
        Err(RespError::InvalidFrame(_))
    ));
    assert!(matches!(
        decode_all(b"%1\r\n+\xff\r\n:2\r\n"),
        Err(RespError::InvalidFrame(_))
    ));
    assert!(matches!(
        decode_all(b"%1\r\n?k\r\n:2\r\n"),
        Err(RespError::InvalidFrameType(_))
    ));
}

#[test]
fn empty_buffer_is_not_complete() {
    assert_eq!(decode_all(b""), Err(RespError::NotComplete));
    let mut buf = BytesMut::new();
    assert_eq!(SimpleString::decode(&mut buf), Err(RespError::NotComplete));
    assert_eq!(RespArray::decode(&mut buf), Err(RespError::NotComplete));
    assert_eq!(RespFrame::expect_length(b""), Err(RespError::NotComplete));
}

#[test]
fn unknown_marker_is_an_invalid_frame_type() {
    assert!(matches!(
        decode_all(b"?what\r\n"),
        Err(RespError::InvalidFrameType(_))
    ));
    assert!(matches!(
        decode_all(b"x"),
        Err(RespError::InvalidFrameType(_))
    ));
    assert!(matches!(
        decode_all(b"*1\r\n!3\r\n"),
        Err(RespError::InvalidFrameType(_))
    ));
}

#[test]
fn negative_length_is_rejected() {
    assert_eq!(
        decode_all(b"$-2\r\n"),
        Err(RespError::InvalidFrameLength(-2))
    );
    assert_eq!(
        decode_all(b"$-2\r\nhello\r\n"),
        Err(RespError::InvalidFrameLength(-2))
    );
    assert_eq!(
        decode_all(b"*-5\r\n"),
        Err(RespError::InvalidFrameLength(-5))
    );
    assert_eq!(
        decode_all(b"%-2\r\n"),
        Err(RespError::InvalidFrameLength(-2))
    );
    assert_eq!(
        decode_all(b"~-2\r\n"),
        Err(RespError::InvalidFrameLength(-2))
    );
}

#[test]
fn count_minus_one_is_the_absent_array_under_every_container_marker() {
    assert_eq!(
        decode_all(b"*-1\r\n"),
        Ok(RespFrame::NullArray(RespNullArray))
    );
    assert_eq!(
        decode_all(b"~-1\r\n"),
        Ok(RespFrame::NullArray(RespNullArray))
    );
    assert_eq!(
        decode_all(b"%-1\r\n"),
        Ok(RespFrame::NullArray(RespNullArray))
    );
    assert_eq!(RespFrame::expect_length(b"~-1\r\n"), Ok(5));
    assert_eq!(RespFrame::expect_length(b"%-1\r\n"), Ok(5));
    assert_eq!(
        decode_all(b"*2\r\n%-1\r\n~-1\r\n"),
        Ok(RespFrame::Array(RespArray::new(vec![
            RespFrame::NullArray(RespNullArray),
            RespFrame::NullArray(RespNullArray),
        ])))
    );
    let mut buf = buffer_of(b"%-1\r\n");
    assert!(matches!(
        RespMap::decode(&mut buf),
        Err(RespError::InvalidFrameType(_))
    ));
    assert_eq!(&buf[..], b"%-1\r\n");
    assert!(matches!(
        RespNullArray::decode(&mut buf),
        Err(RespError::InvalidFrameType(_))
    ));
    let mut buf = buffer_of(b"~-1\r\n");
    assert!(matches!(
        RespSet::decode(&mut buf),
        Err(RespError::InvalidFrameType(_))
    ));
    assert_eq!(&buf[..], b"~-1\r\n");
}

#[test]
fn non_numeric_length_is_rejected() {
    assert_eq!(
        decode_all(b"$abc\r\nhello\r\n"),
        Err(RespError::ParseIntError(IntErrorKind::InvalidDigit))
    );
    assert_eq!(
        decode_all(b"$\r\n"),
        Err(RespError::ParseIntError(IntErrorKind::Empty))
    );
    assert_eq!(
        decode_all(b"*1x\r\n:1\r\n"),
        Err(RespError::ParseIntError(IntErrorKind::InvalidDigit))
    );
    assert_eq!(
        decode_all(b"$99999999999999999999\r\n"),
        Err(RespError::ParseIntError(IntErrorKind::PosOverflow))
    );
    assert_eq!(
        decode_all(b"$-99999999999999999999\r\n"),
        Err(RespError::ParseIntError(IntErrorKind::NegOverflow))
    );
}

#[test]
fn incomplete_frames_leave_the_buffer_alone() {
    for bytes in [
        &b"+OK"[..],
        b"+OK\r",
        b":12",
        b"$5\r\nhel",
        b"$5",
        b"*2\r\n$3\r\nset\r\n",
        b"*2\r\n$3\r\nset\r\n$5\r\nhel",
        b"%1\r\n+key\r\n",
        b"%1\r\n+ke",
        b"~1\r\n",
        b"#",
        b"_\r",
        b",1.5",
    ] {
        let mut buf = buffer_of(bytes);
        assert_eq!(RespFrame::decode(&mut buf), Err(RespError::NotComplete));
        assert_eq!(&buf[..], bytes);
        assert_eq!(buf.len(), bytes.len());
    }
}

#[test]
fn decode_takes_one_frame_and_leaves_the_rest() {
    let mut buf = buffer_of(b"+OK\r\n:42\r\n$3\r\nfoo\r\n+tail");
    assert_eq!(
        RespFrame::decode(&mut buf),
        Ok(RespFrame::SimpleString(SimpleString::from("OK")))
    );
    assert_eq!(&buf[..], b":42\r\n$3\r\nfoo\r\n+tail");
    assert_eq!(RespFrame::decode(&mut buf), Ok(RespFrame::Integer(42)));
    assert_eq!(&buf[..], b"$3\r\nfoo\r\n+tail");
    assert_eq!(RespFrame::decode(&mut buf), Ok(bulk("foo")));
    assert_eq!(&buf[..], b"+tail");
    assert_eq!(RespFrame::decode(&mut buf), Err(RespError::NotComplete));
    assert_eq!(&buf[..], b"+tail");
}

#[test]
fn frames_arrive_in_pieces() {
    let wire: &[u8] =
        b"*4\r\n$3\r\nfoo\r\n%2\r\n+b\r\n:-7\r\n+a\r\n~1\r\n#t\r\n,1.5e3\r\n*2\r\n_\r\n$-1\r\n";
    let whole = decode_all(wire).unwrap();
    for cut in 0..wire.len() {
        let mut buf = buffer_of(&wire[..cut]);
        assert_eq!(
            RespFrame::decode(&mut buf),
            Err(RespError::NotComplete),
            "cut at {}",
            cut
        );
        assert_eq!(&buf[..], &wire[..cut]);
        buf.extend_from_slice(&wire[cut..]);
        assert_eq!(RespFrame::decode(&mut buf).as_ref(), Ok(&whole));
        assert!(buf.is_empty());
    }
}

#[test]
fn frames_arrive_byte_by_byte() {
    let wire: &[u8] = b"*2\r\n$3\r\nfoo\r\n*1\r\n:1\r\n";
    let mut buf = BytesMut::new();
    for (i, byte) in wire.iter().enumerate() {
        buf.extend_from_slice(&[*byte]);
        let r = RespFrame::decode(&mut buf);
        if i + 1 < wire.len() {
            assert_eq!(r, Err(RespError::NotComplete));
            assert_eq!(buf.len(), i + 1);
        } else {
            assert_eq!(r, decode_all(wire));
            assert!(buf.is_empty());
        }
    }
}

#[test]
fn errors_leave_the_buffer_alone() {
    for bytes in [
        &b"?abc\r\n"[..],
        b":abc\r\n",
        b"$-2\r\n",
        b"$3\r\nfooXX",
        b"*2\r\n:1\r\n:x\r\n",
        b",abc\r\n",
    ] {
        let mut buf = buffer_of(bytes);
        let r = RespFrame::decode(&mut buf);
        assert!(r.is_err());
        assert_ne!(r, Err(RespError::NotComplete));
        assert_eq!(&buf[..], bytes);
    }
}

#[test]
fn typed_decoders_take_their_own_frames() {
    assert_eq!(
        SimpleString::decode(&mut buffer_of(b"+OK\r\n")),
        Ok(SimpleString::from("OK"))
    );
    assert_eq!(
        SimpleError::decode(&mut buffer_of(b"-ERR\r\n")),
        Ok(SimpleError::from("ERR"))
    );
    assert_eq!(i64::decode(&mut buffer_of(b":-5\r\n")), Ok(-5));
    assert_eq!(
        BulkString::decode(&mut buffer_of(b"$2\r\nhi\r\n")),
        Ok(BulkString::from("hi"))
    );
    assert_eq!(
        RespNullBulkString::decode(&mut buffer_of(b"$-1\r\n")),
        Ok(RespNullBulkString)
    );
    assert_eq!(
        RespArray::decode(&mut buffer_of(b"*1\r\n:1\r\n")),
        Ok(RespArray::new(vec![RespFrame::Integer(1)]))
    );
    assert_eq!(
        RespNullArray::decode(&mut buffer_of(b"*-1\r\n")),
        Ok(RespNullArray)
    );
    assert_eq!(RespNull::decode(&mut buffer_of(b"_\r\n")), Ok(RespNull));
    assert_eq!(bool::decode(&mut buffer_of(b"#t\r\n")), Ok(true));
    assert_eq!(
        RespDouble::decode(&mut buffer_of(b",2.5\r\n")),
        Ok(RespDouble::new(b"2.5").unwrap())
    );
    assert_eq!(
        RespSet::decode(&mut buffer_of(b"~1\r\n:1\r\n")),
        Ok(RespSet::new(vec![RespFrame::Integer(1)]))
    );
    let mut map = RespMap::new();
    map.insert("k".to_string(), RespFrame::Boolean(false));
    assert_eq!(RespMap::decode(&mut buffer_of(b"%1\r\n+k\r\n#f\r\n")), Ok(map));
}

#[test]
fn typed_decoders_refuse_other_frames() {
    let mut buf = buffer_of(b":12\r\n");
    assert!(matches!(
        SimpleString::decode(&mut buf),
        Err(RespError::InvalidFrameType(_))
    ));
    assert_eq!(&buf[..], b":12\r\n");
    let mut buf = buffer_of(b":1");
    assert!(matches!(
        RespArray::decode(&mut buf),
        Err(RespError::InvalidFrameType(_))
    ));
    let mut buf = buffer_of(b"$-1\r\n");
    assert!(matches!(
        BulkString::decode(&mut buf),
        Err(RespError::InvalidFrameType(_))
    ));
    assert_eq!(&buf[..], b"$-1\r\n");
    let mut buf = buffer_of(b"$3\r\nfoo\r\n");
    assert!(matches!(
        RespNullBulkString::decode(&mut buf),
        Err(RespError::InvalidFrameType(_))
    ));
    assert_eq!(&buf[..], b"$3\r\nfoo\r\n");
    let mut buf = buffer_of(b"*0\r\n");
    assert!(matches!(
        RespNullArray::decode(&mut buf),
        Err(RespError::InvalidFrameType(_))
    ));
    let mut buf = buffer_of(b"*-1\r\n");
    assert!(matches!(
        RespArray::decode(&mut buf),
        Err(RespError::InvalidFrameType(_))
    ));
}

#[test]
fn prefixes_are_the_markers() {
    assert_eq!(<RespFrame as RespDecode>::PREFIX, "");
    assert_eq!(<SimpleString as RespDecode>::PREFIX, "+");
    assert_eq!(<SimpleError as RespDecode>::PREFIX, "-");
    assert_eq!(<i64 as RespDecode>::PREFIX, ":");
    assert_eq!(<BulkString as RespDecode>::PREFIX, "$");
    assert_eq!(<RespNullBulkString as RespDecode>::PREFIX, "$");
    assert_eq!(<RespArray as RespDecode>::PREFIX, "*");
    assert_eq!(<RespNullArray as RespDecode>::PREFIX, "*");
    assert_eq!(<RespNull as RespDecode>::PREFIX, "_");
    assert_eq!(<bool as RespDecode>::PREFIX, "#");
    assert_eq!(<RespDouble as RespDecode>::PREFIX, ",");
    assert_eq!(<RespMap as RespDecode>::PREFIX, "%");
    assert_eq!(<RespSet as RespDecode>::PREFIX, "~");
}

#[test]
fn expect_length_counts_the_whole_frame() {
    assert_eq!(RespFrame::expect_length(b"+OK\r\n"), Ok(5));
    assert_eq!(RespFrame::expect_length(b"+OK\r\n+more"), Ok(5));
    assert_eq!(RespFrame::expect_length(b":-12\r\n"), Ok(6));
    assert_eq!(RespFrame::expect_length(b"$5\r\nhello\r\n"), Ok(11));
    assert_eq!(RespFrame::expect_length(b"$-1\r\n"), Ok(5));
    assert_eq!(RespFrame::expect_length(b"*-1\r\n"), Ok(5));
    assert_eq!(RespFrame::expect_length(b"_\r\n"), Ok(3));
    assert_eq!(RespFrame::expect_length(b"#t\r\n"), Ok(4));
    assert_eq!(RespFrame::expect_length(b",1.5\r\n"), Ok(6));
    assert_eq!(
        RespFrame::expect_length(b"*2\r\n$3\r\nset\r\n$5\r\nhello\r\n"),
        Ok(24)
    );
    assert_eq!(
        RespFrame::expect_length(b"%2\r\n+first\r\n:1\r\n+second\r\n:2\r\n"),
        Ok(29)
    );
    assert_eq!(RespFrame::expect_length(b"~2\r\n:1\r\n:2\r\n"), Ok(12));
    assert_eq!(
        RespFrame::expect_length(b"*2\r\n$3\r\nfoo\r\n*1\r\n:1\r\n"),
        Ok(21)
    );
}

#[test]
fn expect_length_looks_ahead_of_the_payload() {
    assert_eq!(RespFrame::expect_length(b"$5\r\nhel"), Ok(11));
    assert_eq!(RespFrame::expect_length(b"$5\r\n"), Ok(11));
    assert_eq!(RespFrame::expect_length(b"*1\r\n$5\r\nhe"), Ok(15));
    assert_eq!(
        RespFrame::expect_length(b"$5"),
        Err(RespError::NotComplete)
    );
    assert_eq!(
        RespFrame::expect_length(b"*2\r\n:1\r\n"),
        Err(RespError::NotComplete)
    );
    assert_eq!(
        RespFrame::expect_length(b"*2\r\n$5\r\nhe"),
        Err(RespError::NotComplete)
    );
}

#[test]
fn expect_length_reports_bad_headers() {
    assert!(matches!(
        RespFrame::expect_length(b"?\r\n"),
        Err(RespError::InvalidFrameType(_))
    ));
    assert_eq!(
        RespFrame::expect_length(b"$-2\r\n"),
        Err(RespError::InvalidFrameLength(-2))
    );
    assert_eq!(
        RespFrame::expect_length(b"$x\r\n"),
        Err(RespError::ParseIntError(IntErrorKind::InvalidDigit))
    );
    assert_eq!(
        BulkString::expect_length(b"$5\r\nhello\r\n"),
        Ok(11)
    );
    assert!(matches!(
        BulkString::expect_length(b"+OK\r\n"),
        Err(RespError::InvalidFrameType(_))
    ));
    assert_eq!(
        RespFrame::expect_length(b"$2147483647\r\n"),
        Ok(2147483647 + 13 + 2)
    );
}

fn nested_arrays(levels: usize) -> Vec<u8> {
    let mut wire = Vec::new();
    for _ in 0..levels {
        wire.extend_from_slice(b"*1\r\n");
    }
    wire.extend_from_slice(b":1\r\n");
    wire
}

#[test]
fn nesting_is_followed_to_the_limit() {
    let wire = nested_arrays(MAX_DEPTH);
    let mut frame = decode_all(&wire).unwrap();
    assert_eq!(RespFrame::expect_length(&wire), Ok(wire.len()));
    let mut levels = 0;
    loop {
        frame = match frame {
            RespFrame::Array(items) => {
                levels += 1;
                assert_eq!(items.len(), 1);
                items[0].clone()
            }
            other => {
                assert_eq!(other, RespFrame::Integer(1));
                break;
            }
        };
    }
    assert_eq!(levels, MAX_DEPTH);
}

#[test]
fn nesting_beyond_the_limit_is_refused() {
    let wire = nested_arrays(MAX_DEPTH + 1);
    assert!(matches!(
        decode_all(&wire),
        Err(RespError::InvalidFrame(_))
    ));
    assert!(matches!(
        RespFrame::expect_length(&wire),
        Err(RespError::InvalidFrame(_))
    ));
    let hostile = nested_arrays(100_000);
    assert!(matches!(
        decode_all(&hostile),
        Err(RespError::InvalidFrame(_))
    ));
}

#[test]
fn huge_announced_count_is_not_complete() {
    assert_eq!(
        decode_all(b"*1000000000\r\n:1\r\n"),
        Err(RespError::NotComplete)
    );
    assert_eq!(
        decode_all(b"$1000000000\r\nabc"),
        Err(RespError::NotComplete)
    );
}
