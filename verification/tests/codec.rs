//! Decoding and encoding, frame by frame: the original scenarios, the edge
//! cases around absence markers and binary payloads, and one input for each
//! decode error.

use resp::{parse, ByteStream, DecodeError, RespValue};

#[test]
fn test_simple_string() {
    let data = b"+OK\r\n";
    let mut reader = ByteStream::new(data.to_vec());

    let result = parse(&mut reader).unwrap();

    assert_eq!(result, RespValue::SimpleString(b"OK".to_vec()));
}

#[test]
fn test_error() {
    let data = b"-Error message\r\n";
    let mut reader = ByteStream::new(data.to_vec());

    let result = parse(&mut reader).unwrap();

    assert_eq!(result, RespValue::Error(b"Error message".to_vec()));
}

#[test]
fn test_integer() {
    let data = b":100\r\n";
    let mut reader = ByteStream::new(data.to_vec());

    let result = parse(&mut reader).unwrap();

    assert_eq!(result, RespValue::Integer(100));
}

#[test]
fn test_bulk_string() {
    let data = b"$6\r\nfoobar\r\n";
    let mut reader = ByteStream::new(data.to_vec());

    let result = parse(&mut reader).unwrap();

    assert_eq!(result, RespValue::BulkString(Some(b"foobar".to_vec())));
}

#[test]
fn test_bulk_string_null() {
    let data = b"$-1\r\n";
    let mut reader = ByteStream::new(data.to_vec());

    let result = parse(&mut reader).unwrap();

    assert_eq!(result, RespValue::BulkString(None));
}

#[test]
fn test_parse_array() {
    let data = b"*2\r\n$3\r\nfoo\r\n$3\r\nbar\r\n";
    let mut reader = ByteStream::new(data.to_vec());

    let result = parse(&mut reader).unwrap();

    assert_eq!(
        result,
        RespValue::Array(Some(vec![
            RespValue::BulkString(Some(b"foo".to_vec())),
            RespValue::BulkString(Some(b"bar".to_vec()))
        ]))
    );
}

#[test]
fn test_parse_array_null() {
    let data = b"*-1\r\n";
    let mut reader = ByteStream::new(data.to_vec());

    let result = parse(&mut reader).unwrap();

    assert_eq!(result, RespValue::Array(None));
}

#[test]
fn test_round_trip_nested() {
    let value = RespValue::Array(Some(vec![
        RespValue::SimpleString(b"OK".to_vec()),
        RespValue::Error(b"ERR oops".to_vec()),
        RespValue::Integer(-42),
        RespValue::BulkString(None),
        RespValue::Array(Some(vec![
            RespValue::BulkString(Some(b"nested".to_vec())),
            RespValue::Array(None),
        ])),
        RespValue::BulkString(Some(Vec::new())),
    ]));

    let encoded = value.serialize();
    let mut reader = ByteStream::new(encoded.clone());
    let decoded = parse(&mut reader).unwrap();

    assert_eq!(decoded, value);
    assert_eq!(reader.position(), encoded.len());
}

#[test]
fn test_bulk_absent_distinct_from_empty() {
    let mut absent_reader = ByteStream::new(b"$-1\r\n".to_vec());
    let absent = parse(&mut absent_reader).unwrap();
    assert_eq!(absent, RespValue::BulkString(None));

    let mut empty_reader = ByteStream::new(b"$0\r\n\r\n".to_vec());
    let empty = parse(&mut empty_reader).unwrap();
    assert_eq!(empty, RespValue::BulkString(Some(Vec::new())));

    assert_ne!(absent, empty);
}

#[test]
fn test_array_absent_distinct_from_empty() {
    let mut absent_reader = ByteStream::new(b"*-1\r\n".to_vec());
    let absent = parse(&mut absent_reader).unwrap();
    assert_eq!(absent, RespValue::Array(None));

    let mut empty_reader = ByteStream::new(b"*0\r\n".to_vec());
    let empty = parse(&mut empty_reader).unwrap();
    assert_eq!(empty, RespValue::Array(Some(Vec::new())));

    assert_ne!(absent, empty);
}

#[test]
fn test_binary_safe_payload() {
    // the payload holds a carriage return and a line feed of its own; the
    // declared length alone delimits it
    let data = b"$4\r\na\r\nb\r\n";
    let mut reader = ByteStream::new(data.to_vec());

    let result = parse(&mut reader).unwrap();
    assert_eq!(result, RespValue::BulkString(Some(b"a\r\nb".to_vec())));

    let encoded = result.serialize();
    assert_eq!(encoded, data.to_vec());
}

#[test]
fn test_short_payload_is_eof() {
    let data = b"$3\r\nfo\r\n";
    let mut reader = ByteStream::new(data.to_vec());

    let result = parse(&mut reader);

    assert_eq!(result, Err(DecodeError::UnexpectedEof));
}

#[test]
fn test_unknown_tag() {
    let data = b"@foo\r\n";
    let mut reader = ByteStream::new(data.to_vec());

    let result = parse(&mut reader);

    assert_eq!(result, Err(DecodeError::UnknownType));
}

#[test]
fn test_encode_twice_identical() {
    let value = RespValue::Array(Some(vec![
        RespValue::BulkString(Some(b"PING".to_vec())),
        RespValue::Integer(7),
    ]));

    assert_eq!(value.serialize(), value.serialize());
}

#[test]
fn test_serialize_exact_bytes() {
    assert_eq!(RespValue::SimpleString(b"OK".to_vec()).serialize(), b"+OK\r\n".to_vec());
    assert_eq!(RespValue::Error(b"ERR x".to_vec()).serialize(), b"-ERR x\r\n".to_vec());
    assert_eq!(RespValue::Integer(-42).serialize(), b":-42\r\n".to_vec());
    assert_eq!(RespValue::Integer(0).serialize(), b":0\r\n".to_vec());
    assert_eq!(RespValue::BulkString(None).serialize(), b"$-1\r\n".to_vec());
    assert_eq!(
        RespValue::BulkString(Some(b"foobar".to_vec())).serialize(),
        b"$6\r\nfoobar\r\n".to_vec()
    );
    assert_eq!(RespValue::Array(None).serialize(), b"*-1\r\n".to_vec());
    assert_eq!(
        RespValue::Array(Some(vec![
            RespValue::BulkString(Some(b"foo".to_vec())),
            RespValue::BulkString(Some(b"bar".to_vec())),
        ]))
        .serialize(),
        b"*2\r\n$3\r\nfoo\r\n$3\r\nbar\r\n".to_vec()
    );
}

#[test]
fn test_integer_extremes() {
    let mut max_reader = ByteStream::new(b":9223372036854775807\r\n".to_vec());
    assert_eq!(parse(&mut max_reader).unwrap(), RespValue::Integer(i64::MAX));

    let mut min_reader = ByteStream::new(b":-9223372036854775808\r\n".to_vec());
    assert_eq!(parse(&mut min_reader).unwrap(), RespValue::Integer(i64::MIN));

    assert_eq!(
        RespValue::Integer(i64::MIN).serialize(),
        b":-9223372036854775808\r\n".to_vec()
    );
    assert_eq!(
        RespValue::Integer(i64::MAX).serialize(),
        b":9223372036854775807\r\n".to_vec()
    );
}

#[test]
fn test_integer_overflow_rejected() {
    let mut reader = ByteStream::new(b":9223372036854775808\r\n".to_vec());
    assert_eq!(parse(&mut reader), Err(DecodeError::InvalidInteger));
}

#[test]
fn test_invalid_integer() {
    let mut reader = ByteStream::new(b":abc\r\n".to_vec());
    assert_eq!(parse(&mut reader), Err(DecodeError::InvalidInteger));

    let mut empty_reader = ByteStream::new(b":\r\n".to_vec());
    assert_eq!(parse(&mut empty_reader), Err(DecodeError::InvalidInteger));
}

#[test]
fn test_invalid_length() {
    let mut negative_reader = ByteStream::new(b"$-2\r\n".to_vec());
    assert_eq!(parse(&mut negative_reader), Err(DecodeError::InvalidLength));

    let mut garbled_reader = ByteStream::new(b"$x\r\n".to_vec());
    assert_eq!(parse(&mut garbled_reader), Err(DecodeError::InvalidLength));

    let mut count_reader = ByteStream::new(b"*-5\r\n".to_vec());
    assert_eq!(parse(&mut count_reader), Err(DecodeError::InvalidLength));
}

#[test]
fn test_malformed_terminator() {
    // the carriage return is followed by something other than a line feed
    let mut line_reader = ByteStream::new(b"+OK\rX".to_vec());
    assert_eq!(parse(&mut line_reader), Err(DecodeError::MalformedTerminator));

    // a bulk payload must be followed by the two terminator bytes
    let mut bulk_reader = ByteStream::new(b"$3\r\nfooXY".to_vec());
    assert_eq!(parse(&mut bulk_reader), Err(DecodeError::MalformedTerminator));
}

#[test]
fn test_invalid_encoding() {
    let mut reader = ByteStream::new(b"+\xffOK\r\n".to_vec());
    assert_eq!(parse(&mut reader), Err(DecodeError::InvalidEncoding));
}

#[test]
fn test_eof_variants() {
    let mut empty_reader = ByteStream::new(Vec::new());
    assert_eq!(parse(&mut empty_reader), Err(DecodeError::UnexpectedEof));

    let mut line_reader = ByteStream::new(b"+OK".to_vec());
    assert_eq!(parse(&mut line_reader), Err(DecodeError::UnexpectedEof));

    let mut array_reader = ByteStream::new(b"*2\r\n$3\r\nfoo\r\n".to_vec());
    assert_eq!(parse(&mut array_reader), Err(DecodeError::UnexpectedEof));
}

#[test]
fn test_parse_leaves_trailing_bytes() {
    let data = b"+OK\r\n:1\r\n";
    let mut reader = ByteStream::new(data.to_vec());

    assert_eq!(parse(&mut reader).unwrap(), RespValue::SimpleString(b"OK".to_vec()));
    assert_eq!(reader.position(), 5);
    assert_eq!(parse(&mut reader).unwrap(), RespValue::Integer(1));
    assert_eq!(reader.position(), data.len());
}

#[test]
fn test_nested_array_round_trip_bytes() {
    let data = b"*2\r\n*1\r\n:5\r\n$0\r\n\r\n";
    let mut reader = ByteStream::new(data.to_vec());

    let value = parse(&mut reader).unwrap();
    assert_eq!(
        value,
        RespValue::Array(Some(vec![
            RespValue::Array(Some(vec![RespValue::Integer(5)])),
            RespValue::BulkString(Some(Vec::new())),
        ]))
    );
    assert_eq!(value.serialize(), data.to_vec());
}
