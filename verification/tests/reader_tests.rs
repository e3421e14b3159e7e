//! The incremental value reader over fed byte chunks.
use minredis::Value;
use minredis::ValueReadError;
use minredis::ValueReader;

fn read_value(buffer: &str) -> Result<Value, ValueReadError> {
    let mut reader = ValueReader::new();
    reader.feed(buffer.as_bytes());
    reader.read()
}

#[test]
fn reader_read_simple_string() {
    match read_value("+OK\r\n") {
        Ok(Value::SimpleString((size, val))) => {
            assert_eq!(size, 5);
            assert_eq!(val, "OK".as_bytes());
        }
        val => panic!("expected simple string, got {:?}", val),
    }
}

#[test]
fn reader_read_simple_error() {
    match read_value("-ERR message\r\n") {
        Ok(Value::SimpleError((size, val))) => {
            assert_eq!(size, 14);
            assert_eq!(val, "ERR message".as_bytes());
        }
        val => panic!("expected simple error, got {:?}", val),
    }
}

#[test]
fn reader_read_integer_valid() {
    match read_value(":1\r\n") {
        Ok(Value::Integer((4, 1))) => {}
        val => panic!("expected Integer(1), got {:?}", val),
    }
}

#[test]
fn read_integer_positive_sign() {
    match read_value(":+1\r\n") {
        Ok(Value::Integer((5, 1))) => {}
        val => panic!("expected Integer(1), got {:?}", val),
    }
}

#[test]
fn read_integer_negative() {
    match read_value(":-1\r\n") {
        Ok(Value::Integer((5, -1))) => {}
        val => panic!("expected Integer(-1), got {:?}", val),
    }
}

#[test]
fn reader_read_integer_invalid() {
    match read_value(":x\r\n") {
        Err(ValueReadError::Invalid { .. }) => {}
        val => panic!("expected protocol error, got {:?}", val),
    }
}

#[test]
fn reader_read_bulk_string_valid() {
    match read_value("$2\r\nOK\r\n") {
        Ok(Value::BulkString((size, val))) => {
            assert_eq!(size, 8);
            assert_eq!(val, "OK".as_bytes())
        }
        val => panic!("expected BulkString(OK), got {:?}", val),
    }
}

#[test]
fn reader_read_bulk_string_invalid() {
    match read_value("$2\r\nOKxx") {
        Err(ValueReadError::Invalid { .. }) => {}
        val => panic!("expected protocol error, got {:?}", val),
    }
}

#[test]
fn reader_read_array_valid() {
    match read_value("*1\r\n$2\r\nOK\r\n") {
        Ok(Value::Array((size, values))) => {
            assert_eq!(size, 12);
            match values.as_slice() {
                [Value::BulkString((size, bytes))] => {
                    assert_eq!(*size, 8);
                    assert_eq!(bytes, "OK".as_bytes())
                }
                val => panic!("expected OK, got {:?}", val),
            }
        }
        val => panic!("expected array, got {:?}", val),
    }
}

#[test]
fn reader_read_null_bulk_string() {
    match read_value("$-1\r\n") {
        Ok(Value::NullBulkString) => {}
        val => panic!("expected NullBulkString, got {:?}", val),
    }
}

#[test]
fn reader_read_null_array() {
    match read_value("*-1\r\n") {
        Ok(Value::NullArray) => {}
        val => panic!("expected null array, got {:?}", val),
    }
}

#[test]
fn reader_read_empty() {
    match read_value("") {
        Err(ValueReadError::EndOfInput) => {}
        val => panic!("expected end of input, got {:?}", val),
    }
}

#[test]
fn reader_read_invalid() {
    match read_value("x") {
        Err(ValueReadError::Invalid { message, .. }) => {
            assert_eq!(message, "invalid RESP value: x")
        }
        val => panic!("expected protocol error, got {:?}", val),
    }
}

#[test]
fn reader_read_incomplete_then_complete() {
    let mut reader = ValueReader::new();
    reader.feed("$2\r\nO".as_bytes());
    match reader.read() {
        Err(ValueReadError::Incomplete) => {}
        val => panic!("expected incomplete, got {:?}", val),
    }
    reader.feed("K\r\n".as_bytes());
    match reader.read() {
        Ok(Value::BulkString((8, val))) => assert_eq!(val, "OK".as_bytes()),
        val => panic!("expected BulkString(OK), got {:?}", val),
    }
}

#[test]
fn reader_crlf_in_boundary() {
    // The terminator's CR and LF arrive in separate fills.
    let mut reader = ValueReader::new();
    reader.feed("+OK\r".as_bytes());
    match reader.read() {
        Err(ValueReadError::Incomplete) => {}
        val => panic!("expected incomplete, got {:?}", val),
    }
    reader.feed("\n+AGAIN\r\n".as_bytes());
    match reader.read() {
        Ok(Value::SimpleString((5, val))) => assert_eq!(val, "OK".as_bytes()),
        val => panic!("expected simple string, got {:?}", val),
    }
    match reader.read() {
        Ok(Value::SimpleString((8, val))) => assert_eq!(val, "AGAIN".as_bytes()),
        val => panic!("expected simple string, got {:?}", val),
    }
}

#[test]
fn reader_read_bytes_frame() {
    // The snapshot frame: length-prefixed raw bytes without a terminator.
    let mut reader = ValueReader::new();
    reader.feed("$5\r\nhello+OK\r\n".as_bytes());
    match reader.read_bytes() {
        Ok((n, data)) => {
            assert_eq!(n, 9);
            assert_eq!(data, "hello".as_bytes());
        }
        val => panic!("expected bulk bytes, got {:?}", val),
    }
    match reader.read() {
        Ok(Value::SimpleString((5, val))) => assert_eq!(val, "OK".as_bytes()),
        val => panic!("expected simple string, got {:?}", val),
    }
}

#[test]
fn reader_read_bytes_negative_length() {
    let mut reader = ValueReader::new();
    reader.feed("$-1\r\n".as_bytes());
    match reader.read_bytes() {
        Ok((n, data)) => {
            assert_eq!(n, 5);
            assert!(data.is_empty());
        }
        val => panic!("expected empty bulk bytes, got {:?}", val),
    }
}

#[test]
fn writer_round_trip() {
    // Reading back what the writer wrote returns the same value with its
    // exact byte size.
    let values = vec![
        Value::simple_string("hello"),
        Value::simple_error("oops"),
        Value::integer(-42),
        Value::bulk_string("payload"),
        Value::NullBulkString,
        Value::NullArray,
        Value::command_str("SET", &["key", "value"]),
    ];
    for value in values {
        let mut writer = minredis::ValueWriter::new();
        writer.write(&value);
        let bytes = writer.take_bytes();
        let mut reader = ValueReader::new();
        reader.feed(bytes.as_slice());
        let back = reader.read().expect("written value must read back");
        assert_eq!(back.size(), bytes.len());
        assert_eq!(back, value);
    }
}

#[test]
fn write_twice_read_twice() {
    let value = Value::command_str("SET", &["key", "value"]);
    let mut writer = minredis::ValueWriter::new();
    writer.write(&value);
    writer.write(&value);
    let bytes = writer.take_bytes();
    let mut reader = ValueReader::new();
    reader.feed(bytes.as_slice());
    let first = reader.read().expect("first read");
    let second = reader.read().expect("second read");
    assert_eq!(first, value);
    assert_eq!(second, value);
    match reader.read() {
        Err(ValueReadError::EndOfInput) => {}
        val => panic!("expected end of input, got {:?}", val),
    }
}

#[test]
fn bulk_string_of_length_zero() {
    let value = Value::bulk_string("");
    let mut writer = minredis::ValueWriter::new();
    writer.write(&value);
    assert_eq!(writer.take_bytes(), b"$0\r\n\r\n".to_vec());
    match read_value("$0\r\n\r\n") {
        Ok(Value::BulkString((6, val))) => assert!(val.is_empty()),
        val => panic!("expected empty bulk string, got {:?}", val),
    }
}

#[test]
fn numeric_parsers() {
    assert_eq!(minredis::parse_u64("1000".as_bytes()), Some(1000));
    assert_eq!(minredis::parse_u64("+7".as_bytes()), Some(7));
    assert_eq!(minredis::parse_u64("18446744073709551615".as_bytes()), Some(u64::MAX));
    assert_eq!(minredis::parse_u64("18446744073709551616".as_bytes()), None);
    assert_eq!(minredis::parse_u64("00012".as_bytes()), Some(12));
    assert_eq!(minredis::parse_u64("".as_bytes()), None);
    assert_eq!(minredis::parse_u64("12a".as_bytes()), None);
    assert_eq!(minredis::parse_i64("-1".as_bytes()), Some(-1));
    assert_eq!(minredis::parse_i64("-9223372036854775808".as_bytes()), Some(i64::MIN));
    assert_eq!(minredis::parse_i64("9223372036854775808".as_bytes()), None);
}

#[test]
fn command_reader_incomplete() {
    let mut reader = minredis::CommandReader::new(ValueReader::new());
    reader.feed(b"*1\r\n$4\r\nPI");
    match reader.read() {
        Err(minredis::CommandReadError::Incomplete) => {}
        val => panic!("expected incomplete, got {:?}", val),
    }
    reader.feed(b"NG\r\n");
    match reader.read() {
        Ok(minredis::Command::Ping { size: 14, message: None }) => {}
        val => panic!("expected PING, got {:?}", val),
    }
}
