//! Formatting sized commands back to array-of-bulk-string values.
use minredis::Command;
use minredis::Value;

fn assert_to_value(command: Command, expected: &[&str]) {
    let value = command.to_value();

    let expected = Value::command_str(expected[0], &expected[1..]);
    assert_eq!(value, expected)
}

#[test]
fn ping_no_message() {
    let command = Command::Ping {
        size: 0,
        message: None,
    };
    assert_to_value(command, &["PING"]);
}

#[test]
fn format_ping_with_message() {
    let command = Command::Ping {
        size: 0,
        message: Some("message".as_bytes().to_vec()),
    };
    assert_to_value(command, &["PING", "message"])
}

#[test]
fn format_echo() {
    let command = Command::Echo {
        size: 0,
        message: "message".as_bytes().to_vec(),
    };
    assert_to_value(command, &["ECHO", "message"]);
}

#[test]
fn format_get() {
    let command = Command::Get {
        size: 0,
        key: "key".as_bytes().to_vec(),
    };
    assert_to_value(command, &["GET", "key"]);
}

#[test]
fn set_no_expiry() {
    let command = Command::SetKey {
        size: 0,
        key: "key".as_bytes().to_vec(),
        value: "value".as_bytes().to_vec(),
        expiry: None,
    };
    assert_to_value(command, &["SET", "key", "value"]);
}

#[test]
fn format_set_with_expiry() {
    let command = Command::SetKey {
        size: 0,
        key: "key".as_bytes().to_vec(),
        value: "value".as_bytes().to_vec(),
        expiry: Some(1000),
    };
    assert_to_value(command, &["SET", "key", "value", "PX", "1000"]);
}

#[test]
fn format_info() {
    let command = Command::Info {
        size: 0,
        sections: vec!["replication".as_bytes().to_vec()],
    };
    assert_to_value(command, &["INFO", "replication"]);
}

#[test]
fn format_replconf() {
    let command = Command::Replconf {
        size: 0,
        key: "key".as_bytes().to_vec(),
        value: "value".as_bytes().to_vec(),
    };
    assert_to_value(command, &["REPLCONF", "key", "value"]);
}

#[test]
fn psync_no_options() {
    let command = Command::Psync {
        size: 0,
        master_replid: None,
        master_repl_offset: None,
    };

    assert_to_value(command, &["PSYNC", "?", "-1"]);
}

#[test]
fn psync_with_options() {
    let command = Command::Psync {
        size: 0,
        master_replid: Some("id".as_bytes().to_vec()),
        master_repl_offset: Some(0),
    };

    assert_to_value(command, &["PSYNC", "id", "0"]);
}
