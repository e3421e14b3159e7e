//! Formatting textual commands back to array-of-bulk-string values.
use minredis::RedisCommand;
use minredis::RedisValue;

fn assert_command_value(command: RedisCommand, args: &[&str]) {
    let value = command.to_value();
    let expected = RedisValue::command(args[0], &args[1..]);
    assert_eq!(value, expected);
}

#[test]
fn ping_witout_message() {
    let command = RedisCommand::Ping { message: None };
    assert_command_value(command, &["PING"]);
}

#[test]
fn command_ping_with_message() {
    let command = RedisCommand::Ping {
        message: Some("message".to_string()),
    };
    assert_command_value(command, &["PING", "message"]);
}

#[test]
fn command_echo() {
    let command = RedisCommand::Echo {
        message: "message".to_string(),
    };

    assert_command_value(command, &["ECHO", "message"]);
}

#[test]
fn command_get() {
    let command = RedisCommand::Get {
        key: "key".to_string(),
    };

    assert_command_value(command, &["GET", "key"]);
}

#[test]
fn command_set_without_expiry() {
    let command = RedisCommand::SetKey {
        key: "key".to_string(),
        value: "value".to_string(),
        expiry: None,
    };

    assert_command_value(command, &["SET", "key", "value"]);
}

#[test]
fn command_set_with_expiry() {
    let command = RedisCommand::SetKey {
        key: "key".to_string(),
        value: "value".to_string(),
        expiry: Some(1000),
    };

    assert_command_value(command, &["SET", "key", "value", "PX", "1000"]);
}

#[test]
fn command_info() {
    let command = RedisCommand::Info {
        sections: vec!["section1".to_string(), "section2".to_string()],
    };

    assert_command_value(command, &["INFO", "section1", "section2"]);
}

#[test]
fn command_replconf() {
    let command = RedisCommand::Replconf {
        key: "key".to_string(),
        value: "value".to_string(),
    };

    assert_command_value(command, &["REPLCONF", "key", "value"]);
}

#[test]
fn command_psync_empty() {
    let command = RedisCommand::Psync {
        master_replid: None,
        master_repl_offset: None,
    };

    assert_command_value(command, &["PSYNC", "?", "-1"]);
}

#[test]
fn command_psync_present() {
    let command = RedisCommand::Psync {
        master_replid: Some("replid".to_string()),
        master_repl_offset: Some(100),
    };

    assert_command_value(command, &["PSYNC", "replid", "100"]);
}

#[test]
fn command_is_replica() {
    assert!(RedisCommand::Info { sections: vec![] }.is_replica());
    assert!(RedisCommand::Psync { master_replid: None, master_repl_offset: None }.is_replica());
    assert!(!RedisCommand::Ping { message: None }.is_replica());
}

#[test]
fn command_is_write() {
    assert!(RedisCommand::SetKey {
        key: "k".to_string(),
        value: "v".to_string(),
        expiry: None
    }
    .is_write());
    assert!(!RedisCommand::Get { key: "k".to_string() }.is_write());
}

#[test]
fn text_command_round_trip_through_bytes() {
    // A textual command's wire form parses at the byte layer into the same
    // command, whose own canonical form is byte-identical.
    let commands = vec![
        RedisCommand::Ping { message: None },
        RedisCommand::Ping {
            message: Some("hi".to_string()),
        },
        RedisCommand::Echo {
            message: "hello".to_string(),
        },
        RedisCommand::SetKey {
            key: "k".to_string(),
            value: "v".to_string(),
            expiry: Some(1000),
        },
        RedisCommand::Replconf {
            key: "capa".to_string(),
            value: "psync2".to_string(),
        },
        RedisCommand::Psync {
            master_replid: None,
            master_repl_offset: None,
        },
    ];
    for command in commands {
        let bytes = command.to_value().to_bytes();
        let mut reader = minredis::CommandReader::new(minredis::ValueReader::new());
        reader.feed(&bytes);
        let parsed = reader.read().expect("a formatted command parses");
        let mut writer = minredis::ValueWriter::new();
        writer.write(&parsed.to_value());
        assert_eq!(writer.take_bytes(), bytes);
    }
}

#[test]
fn text_value_to_bytes() {
    assert_eq!(RedisValue::ok().to_bytes(), b"+OK\r\n".to_vec());
    assert_eq!(
        RedisValue::bulk_string("hello").to_bytes(),
        b"$5\r\nhello\r\n".to_vec()
    );
    assert_eq!(RedisValue::NullBulkString.to_bytes(), b"$-1\r\n".to_vec());
    assert_eq!(
        RedisValue::command("GET", &["key"]).to_bytes(),
        b"*2\r\n$3\r\nGET\r\n$3\r\nkey\r\n".to_vec()
    );
    let mut out = Vec::new();
    RedisValue::BulkBytes(vec![1, 2, 3]).write_to(&mut out);
    assert_eq!(out, b"$3\r\n\x01\x02\x03".to_vec());
}
