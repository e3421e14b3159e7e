//! Parsing commands from array-of-bulk-string values.
use minredis::from_value;
use minredis::Command;
use minredis::FromValueError;
use minredis::Value;

fn from_parts(parts: &[&str]) -> Result<Command, FromValueError> {
    let values = parts.iter().map(|s| Value::bulk_string(s)).collect();
    let array = Value::Array((0, values));
    from_value(array)
}

#[test]
fn invalid_redis_value() {
    match from_value(Value::NullBulkString) {
        Err(FromValueError(message)) => assert_eq!(message, "value must be a RESP array"),
        value => panic!("expected protocol error, got {:?}", value),
    }
}

#[test]
fn empty_array() {
    match from_value(Value::Array((0, vec![]))) {
        Err(FromValueError(message)) => assert_eq!(message, "RESP array must not be empty"),
        value => panic!("expected protocol error, got {:?}", value),
    }
}

#[test]
fn malformed_array() {
    let value = Value::Array((0, vec![Value::simple_string("OK")]));
    match from_value(value) {
        Err(FromValueError(message)) => assert_eq!(
            message,
            "RESP array element at index 0 must be a bulk string"
        ),
        value => panic!("expected protocol error, got {:?}", value),
    }
}

#[test]
fn parse_ping_no_message() {
    match from_parts(&["PING"]) {
        Ok(Command::Ping { message: None, .. }) => {}
        value => panic!("expected PING, got {:?}", value),
    }
}

#[test]
fn parse_ping_with_message() {
    match from_parts(&["PING", "message"]) {
        Ok(Command::Ping {
            message: Some(bytes),
            ..
        }) => assert_eq!(bytes, "message".as_bytes().to_vec()),
        value => panic!("expected PING, got {:?}", value),
    }
}

#[test]
fn parse_ping_lower_case() {
    match from_parts(&["ping"]) {
        Ok(Command::Ping { message: None, .. }) => {}
        value => panic!("expected PING, got {:?}", value),
    }
}

#[test]
fn parse_echo_ok() {
    match from_parts(&["ECHO", "message"]) {
        Ok(Command::Echo { message, .. }) => {
            assert_eq!(message, "message".as_bytes().to_vec())
        }
        value => panic!("expected ECHO message, got {:?}", value),
    }
}

#[test]
fn parse_echo_wrong_args() {
    match from_parts(&["ECHO"]) {
        Err(FromValueError(_)) => {}
        value => panic!("expected protocol error, got {:?}", value),
    }
}

#[test]
fn parse_get_ok() {
    match from_parts(&["GET", "key"]) {
        Ok(Command::Get { key, .. }) => assert_eq!(key, "key".as_bytes().to_vec()),
        value => panic!("expected GET key, got {:?}", value),
    }
}

#[test]
fn parse_get_wrong_args() {
    match from_parts(&["GET"]) {
        Err(FromValueError(_)) => {}
        value => panic!("expected protocol error, got {:?}", value),
    }
}

#[test]
fn parse_set_without_expiry() {
    match from_parts(&["SET", "key", "value"]) {
        Ok(Command::SetKey {
            key,
            value,
            expiry: None,
            ..
        }) => {
            assert_eq!(key, "key".as_bytes().to_vec());
            assert_eq!(value, "value".as_bytes().to_vec());
        }
        value => panic!("expected SET key value, got {:?}", value),
    }
}

#[test]
fn parse_set_px() {
    match from_parts(&["SET", "key", "value", "PX", "1000"]) {
        Ok(Command::SetKey {
            expiry: Some(expiry),
            ..
        }) if expiry == 1000 => {}
        value => panic!("expected SET key value PX 1000, got {:?}", value),
    }
}

#[test]
fn parse_set_px_missing_arg() {
    match from_parts(&["SET", "key", "value", "PX"]) {
        Err(FromValueError(message)) => {
            assert!(message.starts_with("wrong number of arguments"))
        }
        value => panic!("expected protocol error, got {:?}", value),
    }
}

#[test]
fn parse_set_px_not_utf8() {
    let value = Value::Array((
        0,
        vec![
            Value::bulk_string("SET"),
            Value::bulk_string("key"),
            Value::bulk_string("value"),
            Value::bulk_string("PX"),
            Value::BulkString((0, vec![0xC3, 0x28])),
        ],
    ));

    match from_value(value) {
        Err(FromValueError(message)) => assert_eq!(message, "invalid UTF-8"),
        value => panic!("expected invalid UTF-8, got {:?}", value),
    }
}

#[test]
fn parse_set_px_not_numeric() {
    match from_parts(&["SET", "key", "value", "PX", "abc"]) {
        Err(FromValueError(message)) => assert!(message.starts_with("invalid integer")),
        value => panic!("expected protocol error, got {:?}", value),
    }
}

#[test]
fn parse_set_unknown_arg() {
    match from_parts(&["SET", "key", "value", "EX"]) {
        Err(FromValueError(message)) => {
            assert!(message.starts_with("invalid SET argument"))
        }
        value => panic!("expected protocol error, got {:?}", value),
    }
}

#[test]
fn parse_set_wrong_number_of_args() {
    match from_parts(&["SET", "key"]) {
        Err(FromValueError(message)) => {
            assert!(message.starts_with("wrong number of arguments"))
        }
        value => panic!("expected protocol error, got {:?}", value),
    }
}

#[test]
fn parse_info_one_section() {
    match from_parts(&["INFO", "replication"]) {
        Ok(Command::Info { sections, .. }) => {
            assert_eq!(sections, vec!["replication".as_bytes().to_vec()])
        }
        value => panic!("expected INFO replication, got {:?}", value),
    }
}

#[test]
fn parse_info_empty_sections() {
    match from_parts(&["INFO"]) {
        Ok(Command::Info { sections, .. }) => assert!(sections.is_empty()),
        value => panic!("expected INFO, got {:?}", value),
    }
}

#[test]
fn parse_replconf_ok() {
    match from_parts(&["REPLCONF", "key", "value"]) {
        Ok(Command::Replconf { key, value, .. }) => {
            assert_eq!(key, "key".as_bytes().to_vec());
            assert_eq!(value, "value".as_bytes().to_vec());
        }
        value => panic!("expected REPLCONF key value, got {:?}", value),
    }
}

#[test]
fn parse_replconf_wrong_args() {
    match from_parts(&["REPLCONF"]) {
        Err(FromValueError(message)) => assert!(message.starts_with("wrong number")),
        value => panic!("expected protocol error, got {:?}", value),
    }
}

#[test]
fn parse_psync_defaults() {
    match from_parts(&["PSYNC", "?", "-1"]) {
        Ok(Command::Psync {
            master_replid: None,
            master_repl_offset: None,
            ..
        }) => {}
        value => panic!("expected PSYNC with defaults, got {:?}", value),
    }
}

#[test]
fn parse_psync_with_options() {
    match from_parts(&["PSYNC", "id", "0"]) {
        Ok(Command::Psync {
            master_replid: Some(id),
            master_repl_offset: Some(0),
            ..
        }) => assert_eq!(id, "id".as_bytes().to_vec()),
        value => panic!("expected PSYNC id 0, got {:?}", value),
    }
}

#[test]
fn parse_psync_invalid_offset() {
    match from_parts(&["PSYNC", "?", "abc"]) {
        Err(FromValueError(message)) => {
            assert!(message.starts_with("invalid PSYNC offset"))
        }
        value => panic!("expected protocol error, got {:?}", value),
    }
}

#[test]
fn parse_wait_ok() {
    match from_parts(&["WAIT", "2", "500"]) {
        Ok(Command::Wait {
            replicas, timeout, ..
        }) => {
            assert_eq!(replicas, 2);
            assert_eq!(timeout, 500);
        }
        value => panic!("expected WAIT 2 500, got {:?}", value),
    }
}

#[test]
fn parse_wait_wrong_args() {
    match from_parts(&["WAIT", "2", "abc"]) {
        Err(FromValueError(message)) => assert!(message.starts_with("invalid value for timeout")),
        value => panic!("expected protocol error, got {:?}", value),
    }
}

#[test]
fn parse_surplus_arguments_rejected() {
    // Each variant demands its exact argument count; a surplus argument is a
    // protocol error.
    let inputs: Vec<Vec<&str>> = vec![
        vec!["PING", "a", "b"],
        vec!["ECHO", "message", "extra"],
        vec!["GET", "key", "extra"],
        vec!["SET", "key", "value", "PX", "1000", "extra"],
        vec!["REPLCONF", "key", "value", "extra"],
        vec!["PSYNC", "?", "-1", "extra"],
        vec!["WAIT", "2", "500", "extra"],
    ];
    for parts in inputs {
        match from_parts(&parts) {
            Err(FromValueError(message)) => {
                assert!(
                    message.starts_with("wrong number of arguments"),
                    "unexpected message for {:?}: {}",
                    parts,
                    message
                );
            }
            value => panic!("expected protocol error for {:?}, got {:?}", parts, value),
        }
    }
}

#[test]
fn invalid_command() {
    match from_parts(&["XXX"]) {
        Err(FromValueError(message)) => assert!(message.starts_with("invalid command")),
        value => panic!("expected protocol error, got {:?}", value),
    }
}

#[test]
fn parse_keeps_array_size() {
    let values = vec![Value::bulk_string("PING")];
    let array = Value::Array((14, values));
    match from_value(array) {
        Ok(Command::Ping { size, .. }) => assert_eq!(size, 14),
        value => panic!("expected PING, got {:?}", value),
    }
}

#[test]
fn round_trip_parse_format() {
    // Parse then format returns the canonical array for canonical input.
    let inputs: Vec<Vec<&str>> = vec![
        vec!["PING"],
        vec!["ECHO", "message"],
        vec!["GET", "key"],
        vec!["SET", "key", "value"],
        vec!["SET", "key", "value", "PX", "1000"],
        vec!["REPLCONF", "key", "value"],
        vec!["PSYNC", "?", "-1"],
        vec!["WAIT", "2", "500"],
    ];
    for parts in inputs {
        let values: Vec<Value> = parts.iter().map(|s| Value::bulk_string(s)).collect();
        let array = Value::Array((0, values));
        let command = from_value(array).unwrap();
        let formatted = command.to_value();
        let expected = Value::command_str(parts[0], &parts[1..]);
        assert_eq!(formatted, expected);
    }
}

#[test]
fn round_trip_format_parse() {
    // Format then parse returns the command, with the size of the new array.
    let command = Command::SetKey {
        size: 0,
        key: b"key".to_vec(),
        value: b"value".to_vec(),
        expiry: Some(1000),
    };
    let value = command.to_value();
    let size = value.size();
    match from_value(value) {
        Ok(Command::SetKey {
            size: parsed_size,
            key,
            value,
            expiry,
        }) => {
            assert_eq!(parsed_size, size);
            assert_eq!(key, b"key".to_vec());
            assert_eq!(value, b"value".to_vec());
            assert_eq!(expiry, Some(1000));
        }
        value => panic!("expected SET, got {:?}", value),
    }
}
