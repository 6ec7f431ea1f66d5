use bytes::BytesMut;
use resp_codec::{
    BulkString, NullBulkString, RespDecoder, RespEncoder, RespError, RespFrame,
};

const NULL_BULK_STRING: &[u8] = b"$-1\r\n";

#[test]
fn test_encode_null_bulk_string() {
    let frame: RespFrame = b"".into();
    assert_eq!(frame.encode(), b"$0\r\n\r\n".to_vec());

    let frame: RespFrame = NullBulkString.into();
    assert_eq!(frame.encode(), NULL_BULK_STRING.to_vec());
    assert_eq!(BulkString(None).encode(), NULL_BULK_STRING.to_vec());
}

#[test]
fn test_decode_null_bulk_string() {
    let mut buf = BytesMut::new();
    buf.extend_from_slice(NULL_BULK_STRING);

    let frame = BulkString::decode(&mut buf).unwrap();
    assert_eq!(frame, BulkString(None));
    assert!(buf.is_empty());

    buf.extend_from_slice(b"$0\r\n\r\n");
    let empty = BulkString::decode(&mut buf).unwrap();
    assert_eq!(empty, BulkString(Some(vec![])));
    assert_ne!(frame, empty);
    assert_ne!(frame, BulkString::new(b"hello"));

    buf.extend_from_slice(NULL_BULK_STRING);
    let frame = RespFrame::decode(&mut buf).unwrap();
    assert_eq!(frame, RespFrame::NullBulkString(NullBulkString));
    assert_ne!(frame, RespFrame::BulkString(empty));
}

#[test]
fn test_encode_bulk_string() {
    let frame: RespFrame = BulkString::new("hello".to_string()).into();
    assert_eq!(frame.encode(), b"$5\r\nhello\r\n".to_vec());
}

#[test]
fn test_decode_bulk_string() {
    let mut buf = BytesMut::new();
    buf.extend_from_slice(b"$5\r\nhello\r\n");

    let frame = BulkString::decode(&mut buf).unwrap();
    assert_eq!(frame, BulkString::new(b"hello"));

    buf.extend_from_slice(b"$5\r\nhello");
    let ret = BulkString::decode(&mut buf);
    assert_eq!(ret.unwrap_err(), RespError::NotComplete);

    buf.extend_from_slice(b"\r\n");
    let frame = BulkString::decode(&mut buf).unwrap();
    assert_eq!(frame, BulkString::new(b"hello"));
}
