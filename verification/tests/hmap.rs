use bytes::BytesMut;
use resp_codec::cmd::{
    hgetall_reply, hgetall_reply_of, hmget_reply, resp_ok, validate_command, value_or_null,
    CommandError, HGet, HGetAll, HMGet, HSet,
};
use resp_codec::{BulkString, RespArray, RespDecoder, RespEncoder, RespFrame, RespNull};

#[test]
fn test_hget_from_resp_array() {
    let mut buf = BytesMut::new();
    buf.extend_from_slice(b"*3\r\n$4\r\nhget\r\n$3\r\nmap\r\n$5\r\nhello\r\n");
    let frame = RespArray::decode(&mut buf).unwrap();
    let result: HGet = frame.try_into().unwrap();
    assert_eq!(result.key, "map");
    assert_eq!(result.field, "hello");
}

#[test]
fn test_hgetall_from_resp_array() {
    let mut buf = BytesMut::new();
    buf.extend_from_slice(b"*2\r\n$7\r\nhgetall\r\n$3\r\nmap\r\n");
    let frame = RespArray::decode(&mut buf).unwrap();
    let result: HGetAll = frame.try_into().unwrap();
    assert_eq!(result.key, "map");
}

#[test]
fn test_hset_from_resp_array() {
    let mut buf = BytesMut::new();
    buf.extend_from_slice(b"*4\r\n$4\r\nhset\r\n$3\r\nmap\r\n$5\r\nhello\r\n$5\r\nworld\r\n");
    let frame = RespArray::decode(&mut buf).unwrap();
    let result: HSet = frame.try_into().unwrap();
    assert_eq!(result.key, "map");
    assert_eq!(result.field, "hello");
    assert_eq!(result.value, RespFrame::BulkString(b"world".into()));
}

#[test]
fn test_hmget_from_resp_array() {
    let mut buf = BytesMut::new();
    buf.extend_from_slice(
        b"*5\r\n$5\r\nHMGET\r\n$6\r\nmyhash\r\n$6\r\nfield1\r\n$6\r\nfield2\r\n$7\r\nnofield\r\n",
    );
    let frame = RespArray::decode(&mut buf).unwrap();
    let result: HMGet = frame.try_into().unwrap();
    assert_eq!(result.hash, "myhash");
    assert_eq!(result.fields.len(), 3);
    assert_eq!(result.fields[0], "field1");
    assert_eq!(result.fields[1], "field2");
    assert_eq!(result.fields[2], "nofield");
}

fn bulk(text: &str) -> RespFrame {
    RespFrame::BulkString(BulkString::new(text))
}

fn command(parts: Vec<RespFrame>) -> RespArray {
    RespArray::new(parts)
}

#[test]
fn command_name_is_matched_whatever_its_case() {
    let array = command(vec![bulk("HGet"), bulk("k"), bulk("f")]);
    assert_eq!(validate_command(&array, "hget", 2), Ok(()));
    assert!(matches!(validate_command(&array, "hset", 2), Err(CommandError::InvalidCommand(_))));
    assert!(matches!(validate_command(&array, "hge", 2), Err(CommandError::InvalidCommand(_))));
    assert!(matches!(validate_command(&array, "hget", 3), Err(CommandError::InvalidArgument(_))));
    let array = command(vec![RespFrame::Integer(1), bulk("k"), bulk("f")]);
    assert!(matches!(validate_command(&array, "hget", 2), Err(CommandError::InvalidCommand(_))));
    let array = command(vec![]);
    assert!(matches!(validate_command(&array, "hget", 0), Err(CommandError::InvalidArgument(_))));
}

#[test]
fn hget_refuses_what_is_no_hget() {
    let not_bulk = command(vec![bulk("hget"), RespFrame::Integer(1), RespFrame::Integer(2)]);
    assert_eq!(
        HGet::try_from(not_bulk).unwrap_err(),
        CommandError::InvalidArgument("Invalid key or field".to_string())
    );
    let too_short = command(vec![bulk("hget"), bulk("k")]);
    assert!(matches!(HGet::try_from(too_short), Err(CommandError::InvalidArgument(_))));
    let other = command(vec![bulk("hset"), bulk("k"), bulk("f")]);
    assert!(matches!(HGet::try_from(other), Err(CommandError::InvalidCommand(_))));
    let not_text = command(vec![
        bulk("hget"),
        RespFrame::BulkString(BulkString(Some(vec![0xff]))),
        bulk("f"),
    ]);
    assert!(matches!(HGet::try_from(not_text), Err(CommandError::Utf8Error(_))));
    let both_wrong = command(vec![
        bulk("hget"),
        RespFrame::BulkString(BulkString(Some(vec![0xff]))),
        RespFrame::Integer(1),
    ]);
    assert!(matches!(HGet::try_from(both_wrong), Err(CommandError::InvalidArgument(_))));
}

#[test]
fn hset_takes_any_frame_as_value() {
    let array = command(vec![bulk("hset"), bulk("k"), bulk("f"), RespFrame::Integer(7)]);
    let hset = HSet::try_from(array).unwrap();
    assert_eq!(hset.value, RespFrame::Integer(7));
    let array = command(vec![bulk("hset"), RespFrame::Integer(1), bulk("f"), bulk("v")]);
    assert_eq!(
        HSet::try_from(array).unwrap_err(),
        CommandError::InvalidArgument("Invalid key, field or value".to_string())
    );
}

#[test]
fn hgetall_needs_a_text_key() {
    let array = command(vec![bulk("hgetall"), RespFrame::Null(RespNull)]);
    assert_eq!(
        HGetAll::try_from(array).unwrap_err(),
        CommandError::InvalidArgument("Invalid key".to_string())
    );
    let array = command(vec![bulk("hgetall"), bulk("k")]);
    let all = HGetAll::try_from(array).unwrap();
    assert!(!all.sort);
}

#[test]
fn null_arrays_and_null_arguments_are_refused() {
    assert_eq!(
        HMGet::try_from(RespArray(None)).unwrap_err(),
        CommandError::InvalidCommand("hmget does not accept null array".to_string())
    );
    assert!(matches!(HGet::try_from(RespArray(None)), Err(CommandError::InvalidArgument(_))));
    let array = command(vec![bulk("hgetall"), RespFrame::BulkString(BulkString(None))]);
    assert_eq!(
        HGetAll::try_from(array).unwrap_err(),
        CommandError::InvalidArgument("Invalid key".to_string())
    );
}

#[test]
fn hmget_needs_a_hash_and_a_field() {
    assert_eq!(
        HMGet::try_from(command(vec![])).unwrap_err(),
        CommandError::InvalidCommand("hmget does not accept null array".to_string())
    );
    let array = command(vec![bulk("hmget")]);
    assert_eq!(
        HMGet::try_from(array).unwrap_err(),
        CommandError::InvalidCommand(
            "hmget command must have at least 2 argument, got 1".to_string()
        )
    );
    let array = command(vec![bulk("hmget"), bulk("myhash")]);
    assert_eq!(
        HMGet::try_from(array).unwrap_err(),
        CommandError::InvalidCommand(
            "hmget command must have at least 2 argument, got 2".to_string()
        )
    );
    let array = command(vec![bulk("hmget"), bulk("h"), RespFrame::Integer(1), bulk("f")]);
    assert_eq!(
        HMGet::try_from(array).unwrap_err(),
        CommandError::InvalidArgument("Invalid key".to_string())
    );
    let array = command(vec![bulk("hmget"), RespFrame::Integer(1), bulk("f")]);
    assert_eq!(
        HMGet::try_from(array).unwrap_err(),
        CommandError::InvalidArgument("Invalid key".to_string())
    );
    let array = command(vec![
        bulk("hmget"),
        bulk("h"),
        RespFrame::BulkString(BulkString(Some(vec![0xc3]))),
        RespFrame::Integer(1),
    ]);
    assert!(matches!(HMGet::try_from(array), Err(CommandError::Utf8Error(_))));
    let array = command(vec![bulk("hmget"), bulk("h"), bulk("f")]);
    let hmget = HMGet::try_from(array).unwrap();
    assert_eq!(hmget.hash, "h");
    assert_eq!(hmget.fields, vec!["f".to_string()]);
}

#[test]
fn replies() {
    assert_eq!(resp_ok().encode(), b"+OK\r\n");
    assert_eq!(value_or_null(None), RespFrame::Null(RespNull));
    assert_eq!(value_or_null(Some(RespFrame::Integer(1))), RespFrame::Integer(1));
    assert_eq!(
        hmget_reply(vec![Some(bulk("a")), None, Some(RespFrame::Integer(2))]),
        RespFrame::Array(RespArray::new(vec![
            bulk("a"),
            RespFrame::Null(RespNull),
            RespFrame::Integer(2)
        ]))
    );
    let entries = vec![
        ("hello1".to_string(), bulk("world1")),
        ("hello".to_string(), bulk("world")),
    ];
    assert_eq!(
        hgetall_reply(entries.clone(), true),
        RespFrame::Array(RespArray::new(vec![
            bulk("hello"),
            bulk("world"),
            bulk("hello1"),
            bulk("world1"),
        ]))
    );
    assert_eq!(
        hgetall_reply(entries, false),
        RespFrame::Array(RespArray::new(vec![
            bulk("hello1"),
            bulk("world1"),
            bulk("hello"),
            bulk("world"),
        ]))
    );
    assert_eq!(hgetall_reply(vec![], true), RespFrame::Array(RespArray::new(vec![])));
    let twice = vec![
        ("k".to_string(), bulk("first")),
        ("a".to_string(), bulk("x")),
        ("k".to_string(), bulk("second")),
    ];
    assert_eq!(
        hgetall_reply(twice, true),
        RespFrame::Array(RespArray::new(vec![
            bulk("a"),
            bulk("x"),
            bulk("k"),
            bulk("first"),
            bulk("k"),
            bulk("second"),
        ]))
    );
    assert_eq!(hgetall_reply_of(None, true), RespFrame::Array(RespArray::new(vec![])));
    assert_eq!(
        hgetall_reply_of(Some(vec![("k".to_string(), bulk("v"))]), false),
        RespFrame::Array(RespArray::new(vec![bulk("k"), bulk("v")]))
    );
}
