//! The command dispatcher: replies owed to decoded requests.

use resp::{handle_command, RespValue};

#[test]
fn test_handle_command_ping() {
    let command = RespValue::Array(Some(vec![RespValue::BulkString(Some(b"PING".to_vec()))]));
    assert_eq!(
        handle_command(&command),
        RespValue::SimpleString(b"PONG".to_vec())
    );

    let command = RespValue::Array(Some(vec![RespValue::BulkString(Some(b"ping".to_vec()))]));
    assert_eq!(
        handle_command(&command),
        RespValue::SimpleString(b"PONG".to_vec())
    );
}

#[test]
fn test_handle_command_echo() {
    let command = RespValue::Array(Some(vec![
        RespValue::BulkString(Some(b"ECHO".to_vec())),
        RespValue::BulkString(Some(b"hello world".to_vec())),
    ]));
    assert_eq!(
        handle_command(&command),
        RespValue::BulkString(Some(b"hello world".to_vec()))
    );

    let command = RespValue::Array(Some(vec![
        RespValue::BulkString(Some(b"echo".to_vec())),
        RespValue::BulkString(Some(b"hello world".to_vec())),
    ]));
    assert_eq!(
        handle_command(&command),
        RespValue::BulkString(Some(b"hello world".to_vec()))
    );
}

#[test]
fn test_handle_command_echo_absent_argument() {
    let command = RespValue::Array(Some(vec![
        RespValue::BulkString(Some(b"ECHO".to_vec())),
        RespValue::BulkString(None),
    ]));
    assert_eq!(handle_command(&command), RespValue::BulkString(None));
}

#[test]
fn test_handle_command_arity_errors() {
    let command = RespValue::Array(Some(vec![
        RespValue::BulkString(Some(b"PING".to_vec())),
        RespValue::BulkString(Some(b"extra".to_vec())),
    ]));
    assert_eq!(
        handle_command(&command),
        RespValue::Error(b"ERR wrong number of arguments for 'PING' command".to_vec())
    );

    let command = RespValue::Array(Some(vec![RespValue::BulkString(Some(b"ECHO".to_vec()))]));
    assert_eq!(
        handle_command(&command),
        RespValue::Error(b"ERR wrong number of arguments for 'ECHO' command".to_vec())
    );
}

#[test]
fn test_handle_command_unknown() {
    let command = RespValue::Array(Some(vec![RespValue::BulkString(Some(b"FOO".to_vec()))]));
    assert_eq!(
        handle_command(&command),
        RespValue::Error(b"ERR Unknown command 'FOO'".to_vec())
    );
}

#[test]
fn test_handle_command_invalid_shapes() {
    let command = RespValue::Array(Some(Vec::new()));
    assert_eq!(
        handle_command(&command),
        RespValue::Error(b"ERR Invalid command".to_vec())
    );

    let command = RespValue::Array(Some(vec![RespValue::Integer(3)]));
    assert_eq!(
        handle_command(&command),
        RespValue::Error(b"ERR Invalid command format".to_vec())
    );

    let command = RespValue::SimpleString(b"PING".to_vec());
    assert_eq!(
        handle_command(&command),
        RespValue::Error(b"ERR Invalid command format".to_vec())
    );

    let command = RespValue::Array(Some(vec![
        RespValue::BulkString(Some(b"ECHO".to_vec())),
        RespValue::Integer(1),
    ]));
    assert_eq!(
        handle_command(&command),
        RespValue::Error(b"ERR Invalid ECHO argument format".to_vec())
    );
}
