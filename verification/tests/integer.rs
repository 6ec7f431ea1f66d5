use bytes::BytesMut;
use resp_codec::{RespDecoder, RespEncoder, RespFrame};

#[test]
fn test_encode_positive_integer() {
    let frame: RespFrame = 123.into();
    assert_eq!(frame.encode(), b":123\r\n");
}

#[test]
fn test_encode_negative_integer() {
    let frame: RespFrame = (-123).into();
    assert_eq!(frame.encode(), b":-123\r\n");
}

#[test]
fn test_integer_decode() {
    let mut buf = BytesMut::new();
    buf.extend_from_slice(b":+123\r\n");

    let frame = i64::decode(&mut buf).unwrap();
    assert_eq!(frame, 123);

    buf.extend_from_slice(b":-123\r\n");

    let frame = i64::decode(&mut buf).unwrap();
    assert_eq!(frame, -123);
}
