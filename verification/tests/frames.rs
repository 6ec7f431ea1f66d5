use bytes::BytesMut;
use resp_codec::{
    BulkString, NullBulkString, RespArray, RespDecoder, RespDouble, RespEncoder, RespError,
    RespFrame, RespMap, RespNull, RespNullArray, RespSet, SimpleError, SimpleString,
};

fn buffer(bytes: &[u8]) -> BytesMut {
    let mut buf = BytesMut::new();
    buf.extend_from_slice(bytes);
    buf
}

fn sample_map() -> RespMap {
    let mut map = RespMap::new();
    map.insert("b".to_string(), RespFrame::Integer(2));
    map.insert("a".to_string(), RespFrame::BulkString(BulkString::new("x")));
    map
}

fn sample_frames() -> Vec<RespFrame> {
    vec![
        RespFrame::SimpleString(SimpleString::new("OK")),
        RespFrame::SimpleString(SimpleString::new("")),
        RespFrame::Error(SimpleError::new("ERR unknown command")),
        RespFrame::Integer(0),
        RespFrame::Integer(-7),
        RespFrame::Integer(i64::MAX),
        RespFrame::Integer(i64::MIN),
        RespFrame::BulkString(BulkString::new("hello")),
        RespFrame::BulkString(BulkString::new(vec![])),
        RespFrame::BulkString(BulkString::new(vec![0u8, 13, 10, 255])),
        RespFrame::NullBulkString(NullBulkString),
        RespFrame::Array(RespArray::new(vec![])),
        RespFrame::Array(RespArray::new(vec![
            RespFrame::BulkString(BulkString::new("foo")),
            RespFrame::Integer(42),
            RespFrame::Array(RespArray::new(vec![RespFrame::Null(RespNull)])),
        ])),
        RespFrame::NullArray(RespNullArray),
        RespFrame::Null(RespNull),
        RespFrame::Boolean(true),
        RespFrame::Boolean(false),
        RespFrame::Double(RespDouble::new("-1.5e3")),
        RespFrame::Mapping(RespMap::new()),
        RespFrame::Mapping(sample_map()),
        RespFrame::Members(RespSet::new(vec![])),
        RespFrame::Members(RespSet::new(vec![
            RespFrame::Boolean(true),
            RespFrame::Mapping(sample_map()),
        ])),
    ]
}

#[test]
fn round_trip_of_every_variant() {
    for frame in sample_frames() {
        let wire = frame.clone().encode();
        let mut buf = buffer(&wire);
        let back = RespFrame::decode(&mut buf).unwrap();
        assert_eq!(back, frame);
        assert!(buf.is_empty());
    }
}

#[test]
fn round_trip_consumes_only_the_frame() {
    for frame in sample_frames() {
        let wire = frame.clone().encode();
        let mut buf = buffer(&wire);
        buf.extend_from_slice(b":1\r\n");
        let back = RespFrame::decode(&mut buf).unwrap();
        assert_eq!(back, frame);
        assert_eq!(&buf[..], b":1\r\n");
    }
}

#[test]
fn empty_bulk_string_is_not_the_null_bulk_string() {
    let empty = RespFrame::BulkString(BulkString::new(vec![]));
    let wire = empty.clone().encode();
    assert_eq!(wire, b"$0\r\n\r\n");
    assert_eq!(BulkString::new(Vec::new()).encode(), b"$0\r\n\r\n");
    let mut buf = buffer(&wire);
    let back = RespFrame::decode(&mut buf).unwrap();
    assert_eq!(back, empty);
    assert!(buf.is_empty());

    let null = RespFrame::NullBulkString(NullBulkString);
    let wire = null.clone().encode();
    assert_eq!(wire, b"$-1\r\n");
    let mut buf = buffer(&wire);
    let back = RespFrame::decode(&mut buf).unwrap();
    assert_eq!(back, null);
    assert_ne!(back, empty);
}

#[test]
fn zero_length_bulk_string_is_read_as_empty_not_null() {
    let mut buf = buffer(b"$0\r\n\r\n");
    let back = RespFrame::decode(&mut buf).unwrap();
    assert_eq!(back, RespFrame::BulkString(BulkString(Some(vec![]))));
    assert!(buf.is_empty());
}

#[test]
fn every_proper_prefix_is_incomplete_and_leaves_the_buffer() {
    for frame in sample_frames() {
        let wire = frame.clone().encode();
        for cut in 0..wire.len() {
            let mut buf = buffer(&wire[..cut]);
            let got = RespFrame::decode(&mut buf);
            assert_eq!(got.unwrap_err(), RespError::NotComplete);
            assert_eq!(&buf[..], &wire[..cut]);
            buf.extend_from_slice(&wire[cut..]);
            let back = RespFrame::decode(&mut buf).unwrap();
            assert_eq!(back, frame);
            assert!(buf.is_empty());
        }
    }
}

#[test]
fn negative_lengths_are_refused() {
    let cases: Vec<(&[u8], isize)> = vec![
        (b"$-2\r\n", -2),
        (b"*-5\r\n", -5),
        (b"*-002\r\nxyz", -2),
        (b"%-1\r\n", -1),
        (b"%-3\r\n", -3),
        (b"~-1\r\n", -1),
        (b"~-12\r\n", -12),
    ];
    for (bytes, n) in cases {
        let mut buf = buffer(bytes);
        let got = RespFrame::decode(&mut buf);
        assert_eq!(got.unwrap_err(), RespError::InvalidFrameLength(n));
    }
}

#[test]
fn missing_children_make_the_whole_incomplete() {
    let cases: Vec<&[u8]> = vec![
        b"*2\r\n:1\r\n",
        b"*1\r\n",
        b"~3\r\n:1\r\n:2\r\n",
        b"%2\r\n+a\r\n:1\r\n",
        b"%1\r\n+a\r\n",
        b"*2\r\n*1\r\n:1\r\n",
    ];
    for bytes in cases {
        let mut buf = buffer(bytes);
        let got = RespFrame::decode(&mut buf);
        assert_eq!(got.unwrap_err(), RespError::NotComplete);
        assert_eq!(&buf[..], bytes);
    }
}

#[test]
fn unknown_prefix_is_an_invalid_frame_type() {
    let cases: Vec<&[u8]> = vec![b"!abc\r\n", b"x", b"\r\n", b"0\r\n"];
    for bytes in cases {
        let mut buf = buffer(bytes);
        let got = RespFrame::decode(&mut buf);
        assert!(matches!(got, Err(RespError::InvalidFrameType(_))));
        assert_eq!(&buf[..], bytes);
    }
}

#[test]
fn empty_buffer_is_incomplete() {
    let mut buf = BytesMut::new();
    assert_eq!(RespFrame::decode(&mut buf).unwrap_err(), RespError::NotComplete);
}

#[test]
fn simple_string_ok_both_ways() {
    let mut buf = buffer(b"+OK\r\n");
    let frame = RespFrame::decode(&mut buf).unwrap();
    assert_eq!(frame, RespFrame::SimpleString(SimpleString::new("OK")));
    assert_eq!(frame.encode(), b"+OK\r\n");
}

#[test]
fn bulk_and_null_bulk_differ() {
    let mut buf = buffer(b"$5\r\nhello\r\n");
    let hello = RespFrame::decode(&mut buf).unwrap();
    assert_eq!(hello, RespFrame::BulkString(BulkString::new("hello")));
    let mut buf = buffer(b"$-1\r\n");
    let null = RespFrame::decode(&mut buf).unwrap();
    assert_eq!(null, RespFrame::NullBulkString(NullBulkString));
    assert_ne!(hello, null);
}

#[test]
fn array_of_bulk_and_integer() {
    let mut buf = buffer(b"*2\r\n$3\r\nfoo\r\n:42\r\n");
    let frame = RespFrame::decode(&mut buf).unwrap();
    assert_eq!(
        frame,
        RespFrame::Array(RespArray::new(vec![
            RespFrame::BulkString(BulkString::new("foo")),
            RespFrame::Integer(42),
        ]))
    );
}

#[test]
fn command_array_and_its_first_ten_bytes() {
    let wire = b"*3\r\n$4\r\nhget\r\n$3\r\nmap\r\n$5\r\nhello\r\n";
    let mut buf = buffer(wire);
    let frame = RespArray::decode(&mut buf).unwrap();
    assert_eq!(
        frame,
        RespArray::new(vec![
            RespFrame::BulkString(BulkString::new("hget")),
            RespFrame::BulkString(BulkString::new("map")),
            RespFrame::BulkString(BulkString::new("hello")),
        ])
    );
    assert!(buf.is_empty());
    let mut buf = buffer(&wire[..10]);
    assert_eq!(RespFrame::decode(&mut buf).unwrap_err(), RespError::NotComplete);
    assert_eq!(buf.len(), 10);
}

#[test]
fn signed_integers() {
    let mut buf = buffer(b":+123\r\n");
    assert_eq!(RespFrame::decode(&mut buf).unwrap(), RespFrame::Integer(123));
    let mut buf = buffer(b":-123\r\n");
    assert_eq!(RespFrame::decode(&mut buf).unwrap(), RespFrame::Integer(-123));
}

#[test]
fn map_with_bulk_key_and_sorted_encoding() {
    let mut buf = buffer(b"%1\r\n$1\r\na\r\n:1\r\n");
    let frame = RespFrame::decode(&mut buf).unwrap();
    let mut expected = RespMap::new();
    expected.insert("a".to_string(), RespFrame::Integer(1));
    assert_eq!(frame, RespFrame::Mapping(expected));

    let mut map = RespMap::new();
    map.insert("zeta".to_string(), RespFrame::Integer(2));
    map.insert("alpha".to_string(), RespFrame::Integer(1));
    assert_eq!(map.encode(), b"%2\r\n+alpha\r\n:1\r\n+zeta\r\n:2\r\n");
}

#[test]
fn map_keeps_the_last_value_of_a_key() {
    let mut buf = buffer(b"%3\r\n+k\r\n:1\r\n+a\r\n:2\r\n+k\r\n:3\r\n");
    let map = RespMap::decode(&mut buf).unwrap();
    assert_eq!(map.len(), 2);
    assert_eq!(map.get("k"), Some(&RespFrame::Integer(3)));
    assert_eq!(map.get("a"), Some(&RespFrame::Integer(2)));
    assert_eq!(map.get("z"), None);
    assert_eq!(map.encode(), b"%2\r\n+a\r\n:2\r\n+k\r\n:3\r\n");
}

#[test]
fn map_insert_hands_back_the_previous_value() {
    let mut map = RespMap::new();
    assert_eq!(map.insert("k".to_string(), RespFrame::Integer(1)), None);
    assert_eq!(map.insert("k".to_string(), RespFrame::Integer(2)), Some(RespFrame::Integer(1)));
    assert_eq!(map.len(), 1);
    let (key, value) = map.entry(0);
    assert_eq!(key, "k");
    assert_eq!(value, &RespFrame::Integer(2));
}

#[test]
fn map_orders_keys_by_their_bytes() {
    let mut map = RespMap::new();
    for key in ["b", "ab", "", "a", "B", "é", "aa"] {
        map.insert(key.to_string(), RespFrame::Null(RespNull));
    }
    let mut keys = Vec::new();
    for i in 0..map.len() {
        keys.push(map.entry(i).0.clone());
    }
    assert_eq!(keys, vec!["", "B", "a", "aa", "ab", "b", "é"]);
}

#[test]
fn map_key_must_bear_text() {
    let mut buf = buffer(b"%1\r\n:1\r\n:2\r\n");
    assert!(matches!(RespFrame::decode(&mut buf), Err(RespError::InvalidFrameType(_))));
    let mut buf = buffer(b"%1\r\n$2\r\n\xff\xfe\r\n:2\r\n");
    assert!(matches!(RespFrame::decode(&mut buf), Err(RespError::InvalidFrameType(_))));
    let mut buf = buffer(b"%1\r\n-oops\r\n:2\r\n");
    let map = RespMap::decode(&mut buf).unwrap();
    assert_eq!(map.get("oops"), Some(&RespFrame::Integer(2)));
}

#[test]
fn malformed_numbers_are_invalid_frames() {
    let cases: Vec<&[u8]> = vec![
        b":abc\r\n",
        b":\r\n",
        b":-\r\n",
        b":+\r\n",
        b":1 \r\n",
        b":12_3\r\n",
        b":9223372036854775808\r\n",
        b":-9223372036854775809\r\n",
        b"$abc\r\n",
        b"$\r\n",
        b"*1x\r\n",
        b"$99999999999999999999999\r\n",
    ];
    for bytes in cases {
        let mut buf = buffer(bytes);
        let got = RespFrame::decode(&mut buf);
        assert!(matches!(got, Err(RespError::InvalidFrame(_))));
        assert_eq!(&buf[..], bytes);
    }
}

#[test]
fn integers_at_the_limits_and_with_leading_zeros() {
    assert_eq!(i64::MAX.encode(), b":9223372036854775807\r\n");
    assert_eq!(i64::MIN.encode(), b":-9223372036854775808\r\n");
    assert_eq!(0i64.encode(), b":0\r\n");
    let mut buf = buffer(b":-9223372036854775808\r\n:0009223372036854775807\r\n:-0\r\n");
    assert_eq!(i64::decode(&mut buf).unwrap(), i64::MIN);
    assert_eq!(i64::decode(&mut buf).unwrap(), i64::MAX);
    assert_eq!(i64::decode(&mut buf).unwrap(), 0);
    assert!(buf.is_empty());
}

#[test]
fn bulk_string_data_must_end_with_the_terminator() {
    let mut buf = buffer(b"$3\r\nabcXY");
    assert!(matches!(RespFrame::decode(&mut buf), Err(RespError::InvalidFrame(_))));
    let mut buf = buffer(b"$3\r\nabc\r");
    assert_eq!(RespFrame::decode(&mut buf).unwrap_err(), RespError::NotComplete);
}

#[test]
fn text_must_be_utf8() {
    let mut buf = buffer(b"+\xff\xfe\r\n");
    assert!(matches!(RespFrame::decode(&mut buf), Err(RespError::Utf8Error(_))));
    assert_eq!(buf.len(), 5);
    let mut buf = buffer("+héllo\r\n".as_bytes());
    assert_eq!(SimpleString::decode(&mut buf).unwrap(), SimpleString::new("héllo"));
    let mut buf = buffer(b"-\xc3\r\n");
    assert!(matches!(SimpleError::decode(&mut buf), Err(RespError::Utf8Error(_))));
}

#[test]
fn fixed_literals() {
    let mut buf = buffer(b"#t\r\n#f\r\n_\r\n");
    assert_eq!(bool::decode(&mut buf).unwrap(), true);
    assert_eq!(bool::decode(&mut buf).unwrap(), false);
    assert_eq!(RespNull::decode(&mut buf).unwrap(), RespNull);
    assert!(buf.is_empty());
    let mut buf = buffer(b"#x\r\n");
    assert!(matches!(bool::decode(&mut buf), Err(RespError::InvalidFrameType(_))));
    let mut buf = buffer(b"#x");
    assert_eq!(bool::decode(&mut buf).unwrap_err(), RespError::NotComplete);
    let mut buf = buffer(b"_\n\r");
    assert!(matches!(RespNull::decode(&mut buf), Err(RespError::InvalidFrameType(_))));
    let mut buf = buffer(b"$-1\r\n*-1\r\n");
    assert_eq!(NullBulkString::decode(&mut buf).unwrap(), NullBulkString);
    assert_eq!(RespNullArray::decode(&mut buf).unwrap(), RespNullArray);
    assert_eq!(true.encode(), b"#t\r\n");
    assert_eq!(false.encode(), b"#f\r\n");
    assert_eq!(NullBulkString.encode(), b"$-1\r\n");
    assert_eq!(RespNullArray.encode(), b"*-1\r\n");
}

#[test]
fn wrong_leading_byte_for_a_type() {
    let mut buf = buffer(b":1\r\n");
    assert!(matches!(SimpleString::decode(&mut buf), Err(RespError::InvalidFrameType(_))));
    assert!(matches!(BulkString::decode(&mut buf), Err(RespError::InvalidFrameType(_))));
    assert!(matches!(RespArray::decode(&mut buf), Err(RespError::InvalidFrameType(_))));
    assert_eq!(i64::decode(&mut buf).unwrap(), 1);
}

#[test]
fn typed_decoders_read_the_null_markers_as_null() {
    let mut buf = buffer(b"*-1\r\n*0\r\n");
    let null = RespArray::decode(&mut buf).unwrap();
    assert_eq!(null, RespArray(None));
    assert_eq!(&buf[..], b"*0\r\n");
    let empty = RespArray::decode(&mut buf).unwrap();
    assert_eq!(empty, RespArray::new(vec![]));
    assert_ne!(null, empty);
    assert!(buf.is_empty());
    assert_eq!(null.encode(), b"*-1\r\n");
    assert_eq!(empty.encode(), b"*0\r\n");

    let mut buf = buffer(b"$-1\r\n$0\r\n\r\n");
    let null = BulkString::decode(&mut buf).unwrap();
    assert_eq!(null, BulkString(None));
    assert_eq!(&buf[..], b"$0\r\n\r\n");
    let empty = BulkString::decode(&mut buf).unwrap();
    assert_eq!(empty, BulkString::new(vec![]));
    assert_ne!(null, empty);
    assert_eq!(null.encode(), b"$-1\r\n");
    assert_eq!(empty.encode(), b"$0\r\n\r\n");

    let mut buf = buffer(b"$-1\r\n*-1\r\n");
    assert_eq!(NullBulkString::decode(&mut buf).unwrap(), NullBulkString);
    assert_eq!(RespNullArray::decode(&mut buf).unwrap(), RespNullArray);
}

#[test]
fn null_written_either_way_has_one_wire_form() {
    let frame = RespFrame::BulkString(BulkString(None));
    assert_eq!(frame.clone().encode(), b"$-1\r\n");
    let mut buf = buffer(&frame.encode());
    assert_eq!(RespFrame::decode(&mut buf).unwrap(), RespFrame::NullBulkString(NullBulkString));
    let frame = RespFrame::Array(RespArray(None));
    assert_eq!(frame.clone().encode(), b"*-1\r\n");
    let mut buf = buffer(&frame.encode());
    assert_eq!(RespFrame::decode(&mut buf).unwrap(), RespFrame::NullArray(RespNullArray));
}

#[test]
fn empty_array_is_not_the_null_array() {
    let array = RespArray::new(Vec::<RespFrame>::new());
    assert_eq!(array.len(), 0);
    let frame = RespFrame::from(array.clone());
    assert_ne!(frame, RespFrame::NullArray(RespNullArray));
    let wire = frame.clone().encode();
    assert_eq!(wire, b"*0\r\n");
    let mut buf = buffer(&wire);
    assert_eq!(RespArray::decode(&mut buf).unwrap(), array);
    let mut buf = buffer(&wire);
    assert_eq!(RespFrame::decode(&mut buf).unwrap(), frame);
}

#[test]
fn constructors_hold_what_they_are_given() {
    assert_eq!(BulkString::new("hello".to_string()).as_ref(), b"hello");
    assert_eq!(BulkString::new("hello".to_string()), BulkString::new(b"hello"));
    assert_eq!(BulkString::new("hello"), BulkString(Some(b"hello".to_vec())));
    assert_eq!(BulkString::new(vec![1u8, 2]), BulkString(Some(vec![1, 2])));
    assert_eq!(*SimpleString::new("OK"), "OK".to_string());
    assert_eq!(SimpleString::new("OK"), SimpleString::from("OK"));
    assert_eq!(*SimpleError::new("ERR unknown command"), "ERR unknown command".to_string());
    assert_eq!(
        SimpleError::new("ERR unknown command"),
        SimpleError::from("ERR unknown command")
    );
    let items = vec![RespFrame::Integer(2), RespFrame::Integer(1), RespFrame::Integer(2)];
    let set = RespSet::new(items.clone());
    assert_eq!(*set, items);
    assert_eq!(set.encode(), b"~3\r\n:2\r\n:1\r\n:2\r\n");
}

#[test]
fn doubles_carry_their_text() {
    let mut buf = buffer(b",3.14\r\n,-inf\r\n");
    assert_eq!(RespFrame::decode(&mut buf).unwrap(), RespFrame::Double(RespDouble::new("3.14")));
    assert_eq!(RespDouble::decode(&mut buf).unwrap(), RespDouble::new("-inf"));
    assert_eq!(RespDouble::new("+1e9").encode(), b",+1e9\r\n");
}

fn nested(levels: usize) -> Vec<u8> {
    let mut wire = Vec::new();
    for _ in 0..levels {
        wire.extend_from_slice(b"*1\r\n");
    }
    wire.extend_from_slice(b":1\r\n");
    wire
}

#[test]
fn nesting_is_bounded() {
    let mut buf = buffer(&nested(32));
    assert!(RespFrame::decode(&mut buf).is_ok());
    assert!(buf.is_empty());
    let mut buf = buffer(&nested(33));
    assert!(matches!(RespFrame::decode(&mut buf), Err(RespError::InvalidFrame(_))));
    assert_eq!(buf.len(), nested(33).len());
    assert!(matches!(
        RespFrame::expect_length(&nested(33)),
        Err(RespError::InvalidFrame(_))
    ));
    assert_eq!(RespFrame::expect_length(&nested(32)).unwrap(), nested(32).len());
}

#[test]
fn expected_lengths() {
    assert_eq!(BulkString::expect_length(b"$5\r\nhel").unwrap(), 11);
    assert_eq!(BulkString::expect_length(b"$5\r\nhello\r\n").unwrap(), 11);
    assert_eq!(BulkString::expect_length(b"$-1\r\n").unwrap(), 5);
    assert_eq!(RespFrame::expect_length(b"$-1\r\n").unwrap(), 5);
    assert_eq!(BulkString::expect_length(b"$0\r\n").unwrap(), 6);
    assert_eq!(RespArray::expect_length(b"*-1\r\n").unwrap(), 5);
    assert_eq!(RespFrame::expect_length(b"*-1\r\n").unwrap(), 5);
    assert_eq!(RespArray::expect_length(b"*0\r\n").unwrap(), 4);
    assert_eq!(BulkString::expect_length(b"$5\r").unwrap_err(), RespError::NotComplete);
    assert_eq!(BulkString::expect_length(b"$50\r\nhello").unwrap_err(), RespError::NotComplete);
    assert_eq!(i64::expect_length(b":123\r\nrest").unwrap(), 6);
    assert_eq!(i64::expect_length(b":123").unwrap_err(), RespError::NotComplete);
    assert_eq!(RespNull::expect_length(b"").unwrap(), 3);
    assert_eq!(bool::expect_length(b"#").unwrap(), 4);
    assert_eq!(SimpleString::expect_length(b"+OK\r\n").unwrap(), 5);
    assert_eq!(RespFrame::expect_length(b"*2\r\n$3\r\nfoo\r\n:42\r\n").unwrap(), 18);
    assert_eq!(RespFrame::expect_length(b"*2\r\n$3\r\nfoo\r\n:42\r\n+next\r\n").unwrap(), 18);
    assert_eq!(RespFrame::expect_length(b"*2\r\n:1\r\n$5\r\nhe").unwrap(), 19);
    assert_eq!(
        RespFrame::expect_length(b"*2\r\n$3\r\nfoo\r\n").unwrap_err(),
        RespError::NotComplete
    );
    assert_eq!(RespFrame::expect_length(b"%1\r\n+k\r\n:1\r\n").unwrap(), 12);
    assert_eq!(RespSet::expect_length(b"~1\r\n_\r\n").unwrap(), 7);
    assert_eq!(RespFrame::expect_length(b"").unwrap_err(), RespError::NotComplete);
    assert!(matches!(RespFrame::expect_length(b"?"), Err(RespError::InvalidFrameType(_))));
    assert_eq!(
        RespFrame::expect_length(b"*-7\r\n").unwrap_err(),
        RespError::InvalidFrameLength(-7)
    );
}

#[test]
fn expected_length_agrees_with_what_decoding_consumes() {
    for frame in sample_frames() {
        let wire = frame.encode();
        assert_eq!(RespFrame::expect_length(&wire).unwrap(), wire.len());
    }
}

#[test]
fn decoding_takes_frames_off_the_front_one_by_one() {
    let mut buf = buffer(b"+a\r\n:2\r\n$1\r\nc\r\n");
    assert_eq!(RespFrame::decode(&mut buf).unwrap(), RespFrame::from("a"));
    assert_eq!(&buf[..], b":2\r\n$1\r\nc\r\n");
    assert_eq!(RespFrame::decode(&mut buf).unwrap(), RespFrame::Integer(2));
    assert_eq!(&buf[..], b"$1\r\nc\r\n");
    assert_eq!(RespFrame::decode(&mut buf).unwrap(), RespFrame::from(&b"c"[..]));
    assert!(buf.is_empty());
}

#[test]
fn conversions_and_access() {
    assert_eq!(SimpleString::from("x"), SimpleString::new("x"));
    assert_eq!(SimpleError::from("x"), SimpleError::new("x".to_string()));
    assert_eq!(BulkString::from("hi"), BulkString(Some(vec![104, 105])));
    assert_eq!(BulkString::from("hi".to_string()), BulkString(Some(vec![104, 105])));
    assert_eq!(BulkString::from(&[1u8, 2][..]), BulkString(Some(vec![1, 2])));
    assert_eq!(BulkString::from(&[1u8, 2]), BulkString(Some(vec![1, 2])));
    let bulk = BulkString::new("abc");
    assert_eq!(bulk.as_ref().len(), 3);
    assert_eq!(bulk.as_ref(), b"abc");
    assert_eq!(*bulk, Some(b"abc".to_vec()));
    assert_eq!(BulkString(None).as_ref(), b"");
    assert_eq!(SimpleString::new("abc").as_str(), "abc");
    let array = RespArray::new(vec![RespFrame::Integer(1)]);
    assert_eq!(array.len(), 1);
    assert_eq!(*array, Some(vec![RespFrame::Integer(1)]));
    assert_eq!(RespArray(None).len(), 0);
    let frame: RespFrame = true.into();
    assert_eq!(frame, RespFrame::Boolean(true));
    let frame: RespFrame = sample_map().into();
    assert_eq!(frame.clone(), RespFrame::Mapping(sample_map()));
    assert_eq!(RespMap::default(), RespMap::new());
}

#[test]
fn errors_tell_whether_to_wait() {
    assert!(RespError::NotComplete.is_incomplete());
    assert!(!RespError::InvalidFrameLength(-2).is_incomplete());
    assert!(!RespError::InvalidFrame("x".to_string()).is_incomplete());
}
