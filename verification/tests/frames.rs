use resp_codec::{
    BulkString, RespArray, RespDouble, RespFrame, RespMap, RespNull, RespNullArray,
    RespNullBulkString, RespSet, SimpleError, SimpleString,
};

#[test]
fn constructors_take_what_turns_into_their_payload() {
    assert_eq!(SimpleString::new("OK"), SimpleString::from("OK"));
    assert_eq!(SimpleString::new("OK".to_string()), SimpleString::from("OK"));
    assert_eq!(SimpleError::new("ERR"), SimpleError::from("ERR"));
    assert_eq!(BulkString::new("hi"), BulkString::from("hi"));
    assert_eq!(BulkString::new("hi".to_string()), BulkString::from("hi"));
    assert_eq!(BulkString::new(vec![104u8, 105u8]), BulkString::from("hi"));
    assert_eq!(BulkString::new(&b"hi"[..]), BulkString::from(b"hi"));
    assert_ne!(BulkString::new("hi"), BulkString::new("ho"));
}

#[test]
fn payloads_can_be_read_through_the_wrappers() {
    let s = SimpleString::new("hello");
    assert_eq!(s.len(), 5);
    assert_eq!(s.as_str(), "hello");
    let e = SimpleError::new("oops");
    assert_eq!(e.as_str(), "oops");
    let b = BulkString::new("bulk");
    assert_eq!(b.as_slice(), b"bulk");
    let bytes: &[u8] = b.as_ref();
    assert_eq!(bytes, b"bulk");
    let a = RespArray::new(vec![RespFrame::Integer(1), RespFrame::Integer(2)]);
    assert_eq!(a.len(), 2);
    assert_eq!(a[1], RespFrame::Integer(2));
    let s = RespSet::new(vec![RespFrame::Boolean(true)]);
    assert_eq!(s.len(), 1);
    assert_eq!(s[0], RespFrame::Boolean(true));
}

#[test]
fn plain_values_turn_into_frames() {
    let frame: RespFrame = "OK".into();
    assert_eq!(frame, RespFrame::SimpleString(SimpleString::new("OK")));
    let frame: RespFrame = (&b"data"[..]).into();
    assert_eq!(frame, RespFrame::BulkString(BulkString::new("data")));
    let frame: RespFrame = b"data".into();
    assert_eq!(frame, RespFrame::BulkString(BulkString::new("data")));
    let frame: RespFrame = 5i64.into();
    assert_eq!(frame, RespFrame::Integer(5));
    let frame: RespFrame = true.into();
    assert_eq!(frame, RespFrame::Boolean(true));
    let frame: RespFrame = SimpleError::new("e").into();
    assert_eq!(frame, RespFrame::Error(SimpleError::new("e")));
    let frame: RespFrame = RespNull.into();
    assert_eq!(frame, RespFrame::Null(RespNull));
    let frame: RespFrame = RespNullArray.into();
    assert_eq!(frame, RespFrame::NullArray(RespNullArray));
    let frame: RespFrame = RespNullBulkString.into();
    assert_eq!(frame, RespFrame::NullBulkString(RespNullBulkString));
    let frame: RespFrame = RespSet::new(Vec::new()).into();
    assert_eq!(frame, RespFrame::RespSet(RespSet::new(Vec::new())));
    let frame: RespFrame = RespMap::default().into();
    assert_eq!(frame, RespFrame::RespMap(RespMap::new()));
}

#[test]
fn bulk_string_from_text_holds_its_utf8_bytes() {
    let b = BulkString::from("\u{e9}");
    assert_eq!(b.as_slice(), &[0xc3u8, 0xa9u8][..]);
}

#[test]
fn clones_are_equal_and_separate() {
    let mut map = RespMap::new();
    map.insert("k".to_string(), RespFrame::Integer(1));
    let frame = RespFrame::Array(RespArray::new(vec![
        RespFrame::SimpleString(SimpleString::new("a")),
        RespFrame::Error(SimpleError::new("b")),
        RespFrame::BulkString(BulkString::new("c")),
        RespFrame::NullBulkString(RespNullBulkString),
        RespFrame::NullArray(RespNullArray),
        RespFrame::Null(RespNull),
        RespFrame::Boolean(false),
        RespFrame::Double(RespDouble::new(b"2.5").unwrap()),
        RespFrame::RespMap(map.clone()),
        RespFrame::RespSet(RespSet::new(vec![RespFrame::Integer(3)])),
    ]));
    let copy = frame.clone();
    assert_eq!(copy, frame);
    map.insert("k".to_string(), RespFrame::Integer(2));
    assert_eq!(copy, frame);
    assert_ne!(RespFrame::RespMap(map), frame);
}

#[test]
fn double_is_made_from_a_literal_only() {
    assert!(RespDouble::new(b"1.5").is_some());
    assert!(RespDouble::new(b"abc").is_none());
    assert!(RespDouble::new(b"").is_none());
    assert!(RespDouble::new(b"1.5\r\n").is_none());
    let d = RespDouble::new(b"-2.5e3").unwrap();
    assert_eq!(d.as_bytes(), b"-2.5e3");
    let text = std::str::from_utf8(d.as_bytes()).unwrap();
    assert_eq!(text.parse::<f64>(), Ok(-2500.0));
    assert_ne!(RespDouble::new(b"1.0"), RespDouble::new(b"1.00"));
}

#[test]
fn map_keeps_its_keys_in_order() {
    let mut map = RespMap::new();
    assert!(map.is_empty());
    assert_eq!(map.len(), 0);
    assert_eq!(map.insert("m".to_string(), RespFrame::Integer(1)), None);
    assert_eq!(map.insert("z".to_string(), RespFrame::Integer(2)), None);
    assert_eq!(map.insert("a".to_string(), RespFrame::Integer(3)), None);
    assert_eq!(map.insert("mm".to_string(), RespFrame::Integer(4)), None);
    assert_eq!(map.insert("".to_string(), RespFrame::Integer(5)), None);
    assert_eq!(map.len(), 5);
    assert!(!map.is_empty());
    let keys: Vec<&str> = map.entries().iter().map(|e| e.0.as_str()).collect();
    assert_eq!(keys, vec!["", "a", "m", "mm", "z"]);
    let values: Vec<&RespFrame> = map.entries().iter().map(|e| &e.1).collect();
    assert_eq!(
        values,
        vec![
            &RespFrame::Integer(5),
            &RespFrame::Integer(3),
            &RespFrame::Integer(1),
            &RespFrame::Integer(4),
            &RespFrame::Integer(2)
        ]
    );
}

#[test]
fn map_binds_each_key_once() {
    let mut map = RespMap::new();
    assert_eq!(map.insert("k".to_string(), RespFrame::Integer(1)), None);
    assert_eq!(
        map.insert("k".to_string(), RespFrame::Integer(2)),
        Some(RespFrame::Integer(1))
    );
    assert_eq!(map.len(), 1);
    assert_eq!(map.get("k"), Some(&RespFrame::Integer(2)));
    assert_eq!(map.get("j"), None);
    assert_eq!(map.get("kk"), None);
    assert_eq!(map.get(""), None);
}

#[test]
fn maps_are_equal_whatever_the_order_of_insertion() {
    let mut a = RespMap::new();
    a.insert("x".to_string(), RespFrame::Integer(1));
    a.insert("y".to_string(), RespFrame::Integer(2));
    let mut b = RespMap::new();
    b.insert("y".to_string(), RespFrame::Integer(2));
    b.insert("x".to_string(), RespFrame::Integer(1));
    assert_eq!(a, b);
    b.insert("y".to_string(), RespFrame::Integer(3));
    assert_ne!(a, b);
}

#[test]
fn large_map_stays_sorted() {
    let mut map = RespMap::new();
    let mut n: u64 = 12345;
    let mut inserted: Vec<String> = Vec::new();
    for _ in 0..500 {
        n = n.wrapping_mul(6364136223846793005).wrapping_add(1442695040888963407);
        let key = format!("k{}", (n >> 33) % 300);
        let value = RespFrame::Integer((n >> 40) as i64);
        let before = map.get(&key).cloned();
        assert_eq!(map.insert(key.clone(), value.clone()), before);
        assert_eq!(map.get(&key), Some(&value));
        if !inserted.contains(&key) {
            inserted.push(key);
        }
    }
    inserted.sort();
    let keys: Vec<String> = map.entries().iter().map(|e| e.0.clone()).collect();
    assert_eq!(keys, inserted);
    assert_eq!(map.len(), inserted.len());
    assert_eq!(map.get("k300"), None);
    assert_eq!(map.get("j"), None);
    assert_eq!(map.get("l"), None);
}

#[test]
fn constructors_keep_owned_payloads_as_they_are() {
    for bytes in [
        Vec::new(),
        b"a\r\nb".to_vec(),
        vec![0xffu8, 0x00u8, 0xfeu8],
        b"plain".to_vec(),
    ] {
        let bulk = BulkString::new(bytes.clone());
        let kept: &[u8] = bulk.as_ref();
        assert_eq!(kept, &bytes[..]);
        assert_eq!(bulk.len(), bytes.len());
        assert_eq!(BulkString::new(&bytes), bulk);
        assert_eq!(BulkString::new(&bytes[..]), bulk);
    }
    let frames = vec![
        RespFrame::Integer(2),
        RespFrame::Integer(1),
        RespFrame::Integer(2),
        RespFrame::Array(RespArray::new(Vec::new())),
    ];
    let array = RespArray::new(frames.clone());
    assert_eq!(*array, frames);
    assert_eq!(RespArray::new(&frames), array);
    assert_eq!(RespArray::new(&frames[..]), array);
    let set = RespSet::new(frames.clone());
    assert_eq!(*set, frames);
    assert_eq!(set.len(), 4);
    let two = [RespFrame::Boolean(true), RespFrame::Boolean(true)];
    assert_eq!(RespSet::new(&two).len(), 2);
    let text = "owned \u{e9}".to_string();
    assert_eq!(SimpleString::new(text.clone()).as_str(), text);
    assert_eq!(SimpleString::new(&text).as_str(), text);
    assert_eq!(SimpleError::new(text.clone()).as_str(), text);
    assert_eq!(
        BulkString::new(text.clone()).as_slice(),
        text.as_bytes()
    );
}

#[test]
fn map_can_be_read_as_its_entries() {
    let mut map = RespMap::new();
    map.insert("second".to_string(), RespFrame::Integer(2));
    map.insert("first".to_string(), RespFrame::Integer(1));
    let keys: Vec<&str> = map.iter().map(|e| e.0.as_str()).collect();
    assert_eq!(keys, vec!["first", "second"]);
    assert_eq!(map[0].1, RespFrame::Integer(1));
    assert_eq!(map.first().map(|e| e.0.as_str()), Some("first"));
    assert_eq!(map.len(), 2);
    assert_eq!(map.get("second"), Some(&RespFrame::Integer(2)));
}
