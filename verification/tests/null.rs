use bytes::BytesMut;
use resp_codec::{RespDecoder, RespEncoder, RespFrame, RespNull};

#[test]
fn test_encode_null_encode() {
    let frame: RespFrame = RespNull.into();
    assert_eq!(frame.encode(), b"_\r\n");
}

#[test]
fn test_null_decode() {
    let mut buf = BytesMut::new();
    buf.extend_from_slice(b"_\r\n");

    let frame = RespNull::decode(&mut buf).unwrap();
    assert_eq!(frame, RespNull);
}
