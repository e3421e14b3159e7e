//! End-to-end scenarios: bytes in, command execution, bytes out.
use minredis::Command;
use minredis::CommandReadError;
use minredis::CommandReader;
use minredis::Database;
use minredis::ReplicationManager;
use minredis::Server;
use minredis::ServerOptions;
use minredis::Value;
use minredis::ValueReader;
use minredis::ValueWriter;

fn master() -> Server {
    Server::new(ServerOptions {
        port: 6379,
        replica_of: None,
    })
}

fn replica() -> Server {
    Server::new(ServerOptions {
        port: 6380,
        replica_of: Some("127.0.0.1 6379".to_string()),
    })
}

/// Parses every command in `bytes`, runs it, and returns the written replies.
fn roundtrip(server: &mut Server, bytes: &[u8], now: u64) -> Vec<u8> {
    let mut reader = CommandReader::new(ValueReader::new());
    reader.feed(bytes);
    let mut writer = ValueWriter::new();
    loop {
        match reader.read() {
            Ok(command) => {
                for value in server.handle(&command, now) {
                    writer.write(&value);
                }
            }
            Err(CommandReadError::Stop) => break,
            Err(e) => panic!("unexpected read error: {:?}", e),
        }
    }
    writer.take_bytes()
}

#[test]
fn scenario_ping() {
    let mut server = master();
    let out = roundtrip(&mut server, b"*1\r\n$4\r\nPING\r\n", 0);
    assert_eq!(out, b"+PONG\r\n".to_vec());
}

#[test]
fn scenario_ping_with_message() {
    let mut server = master();
    let out = roundtrip(&mut server, b"*2\r\n$4\r\nPING\r\n$2\r\nhi\r\n", 0);
    assert_eq!(out, b"$2\r\nhi\r\n".to_vec());
}

#[test]
fn scenario_echo() {
    let mut server = master();
    let out = roundtrip(&mut server, b"*2\r\n$4\r\nECHO\r\n$5\r\nhello\r\n", 0);
    assert_eq!(out, b"$5\r\nhello\r\n".to_vec());
}

#[test]
fn scenario_set_then_get() {
    let mut server = master();
    let out = roundtrip(&mut server, b"*3\r\n$3\r\nSET\r\n$1\r\nk\r\n$1\r\nv\r\n", 0);
    assert_eq!(out, b"+OK\r\n".to_vec());
    let out = roundtrip(&mut server, b"*2\r\n$3\r\nGET\r\n$1\r\nk\r\n", 0);
    assert_eq!(out, b"$1\r\nv\r\n".to_vec());
}

#[test]
fn scenario_set_px_delayed_get() {
    let mut server = master();
    let set = b"*5\r\n$3\r\nSET\r\n$1\r\nk\r\n$1\r\nv\r\n$2\r\nPX\r\n$2\r\n50\r\n";
    let out = roundtrip(&mut server, set, 1_000);
    assert_eq!(out, b"+OK\r\n".to_vec());
    // Sixty milliseconds later the entry has expired.
    let out = roundtrip(&mut server, b"*2\r\n$3\r\nGET\r\n$1\r\nk\r\n", 1_060);
    assert_eq!(out, b"$-1\r\n".to_vec());
}

#[test]
fn scenario_set_px_prompt_get() {
    let mut server = master();
    let set = b"*5\r\n$3\r\nSET\r\n$1\r\nk\r\n$1\r\nv\r\n$2\r\nPX\r\n$2\r\n50\r\n";
    roundtrip(&mut server, set, 1_000);
    let out = roundtrip(&mut server, b"*2\r\n$3\r\nGET\r\n$1\r\nk\r\n", 1_040);
    assert_eq!(out, b"$1\r\nv\r\n".to_vec());
}

#[test]
fn scenario_info_master() {
    let mut server = master();
    let out = roundtrip(&mut server, b"*1\r\n$4\r\nINFO\r\n", 0);
    let text = String::from_utf8(out).expect("INFO body is text");
    assert!(text.contains("role:master"));
    assert!(text.contains("master_replid:8371b4fb1155b71f4a04d3e1bc3e18c4a990aeeb"));
    assert!(text.contains("master_repl_offset:0"));
}

#[test]
fn scenario_info_replica() {
    let mut server = replica();
    let out = roundtrip(&mut server, b"*1\r\n$4\r\nINFO\r\n", 0);
    let text = String::from_utf8(out).expect("INFO body is text");
    assert!(text.contains("role:slave"));
}

#[test]
fn scenario_psync_reply() {
    let mut server = master();
    let out = roundtrip(&mut server, b"*3\r\n$5\r\nPSYNC\r\n$1\r\n?\r\n$2\r\n-1\r\n", 0);
    let header = b"+FULLRESYNC 8371b4fb1155b71f4a04d3e1bc3e18c4a990aeeb 0\r\n$88\r\n";
    assert_eq!(&out[..header.len()], header.as_slice());
    // The snapshot is 88 raw bytes with no trailing terminator.
    assert_eq!(out.len(), header.len() + 88);
}

#[test]
fn scenario_replica_offset_ack() {
    // A replica applies SET (31 bytes) and then REPLCONF GETACK (37 bytes);
    // the acknowledgement reports both, 68 in all.
    let mut server = replica();
    let set = b"*3\r\n$3\r\nSET\r\n$3\r\nfoo\r\n$3\r\nbar\r\n";
    assert_eq!(set.len(), 31);
    roundtrip(&mut server, set, 0);
    let getack = b"*3\r\n$8\r\nREPLCONF\r\n$6\r\nGETACK\r\n$1\r\n*\r\n";
    assert_eq!(getack.len(), 37);
    let out = roundtrip(&mut server, getack, 0);
    assert_eq!(out, b"*3\r\n$8\r\nREPLCONF\r\n$3\r\nACK\r\n$2\r\n68\r\n".to_vec());
}

#[test]
fn scenario_replconf_other_is_ok() {
    let mut server = master();
    let out = roundtrip(
        &mut server,
        b"*3\r\n$8\r\nREPLCONF\r\n$14\r\nlistening-port\r\n$4\r\n6380\r\n",
        0,
    );
    assert_eq!(out, b"+OK\r\n".to_vec());
}

#[test]
fn scenario_unknown_command_keeps_reading() {
    let mut server = master();
    let mut reader = CommandReader::new(ValueReader::new());
    reader.feed(b"*1\r\n$3\r\nXXX\r\n*1\r\n$4\r\nPING\r\n");
    match reader.read() {
        Err(CommandReadError::Invalid(values)) => {
            assert_eq!(values.len(), 1);
            let mut writer = ValueWriter::new();
            writer.write(&values[0]);
            let bytes = writer.take_bytes();
            assert!(bytes.starts_with(b"-invalid command"));
        }
        value => panic!("expected invalid command, got {:?}", value),
    }
    let command = reader.read().expect("reading continues after a bad command");
    let replies = server.handle(&command, 0);
    assert_eq!(replies.len(), 1);
    assert_eq!(replies[0], Value::simple_string("PONG"));
}

#[test]
fn malformed_value_ends_the_stream() {
    let mut reader = CommandReader::new(ValueReader::new());
    reader.feed(b"x");
    match reader.read() {
        Err(CommandReadError::Malformed(values)) => assert_eq!(values.len(), 1),
        value => panic!("expected malformed value, got {:?}", value),
    }
}

#[test]
fn scenario_wait_counts_replicas() {
    let mut server = master();
    server.add_replica("127.0.0.1:7001".to_string());
    server.add_replica("127.0.0.1:7002".to_string());
    let out = roundtrip(&mut server, b"*3\r\n$4\r\nWAIT\r\n$1\r\n2\r\n$3\r\n500\r\n", 0);
    assert_eq!(out, b":2\r\n".to_vec());
}

#[test]
fn batch_replies_in_order_and_fanout_once() {
    // One connection's commands run in delivery order; every write is fanned
    // out exactly once, in commit order.
    let mut server = master();
    let mut reader = CommandReader::new(ValueReader::new());
    reader.feed(b"*3\r\n$3\r\nSET\r\n$1\r\na\r\n$1\r\n1\r\n*1\r\n$4\r\nPING\r\n*3\r\n$3\r\nSET\r\n$1\r\nb\r\n$1\r\n2\r\n");
    let mut commands: Vec<Command> = Vec::new();
    loop {
        match reader.read() {
            Ok(c) => commands.push(c),
            Err(CommandReadError::Stop) => break,
            Err(e) => panic!("unexpected read error: {:?}", e),
        }
    }
    let expected_fanout: Vec<Value> = commands
        .iter()
        .filter(|c| c.is_write())
        .map(|c| c.to_value())
        .collect();
    let (replies, fanout) = server.run_commands(&commands, 0);
    assert_eq!(replies.len(), 3);
    assert_eq!(replies[0], vec![Value::ok()]);
    assert_eq!(replies[1], vec![Value::simple_string("PONG")]);
    assert_eq!(replies[2], vec![Value::ok()]);
    assert_eq!(fanout, expected_fanout);
    assert_eq!(fanout.len(), 2);
}

#[test]
fn roster_drops_only_failed_replicas() {
    let mut roster = ReplicationManager::new();
    roster.add("a".to_string());
    roster.add("b".to_string());
    roster.add("c".to_string());
    assert_eq!(roster.connected_replicas(), 3);
    roster.drop_failed(&vec![true, false, true]);
    assert_eq!(roster.connected_replicas(), 2);
    roster.drop_failed(&vec![true, true]);
    assert_eq!(roster.connected_replicas(), 2);
}

#[test]
fn replicate_only_writes() {
    let roster = ReplicationManager::new();
    let set = Command::SetKey {
        size: 31,
        key: b"foo".to_vec(),
        value: b"bar".to_vec(),
        expiry: None,
    };
    let ping = Command::Ping {
        size: 14,
        message: None,
    };
    assert_eq!(roster.replicate(&set), Some(set.to_value()));
    assert_eq!(roster.replicate(&ping), None);
}

#[test]
fn handshake_wire_form() {
    let commands = minredis::replication::handshake_commands(6380);
    let mut writer = ValueWriter::new();
    for value in &commands {
        writer.write(value);
    }
    let bytes = writer.take_bytes();
    let expected = b"*1\r\n$4\r\nPING\r\n\
*3\r\n$8\r\nREPLCONF\r\n$14\r\nlistening-port\r\n$4\r\n6380\r\n\
*3\r\n$8\r\nREPLCONF\r\n$4\r\ncapa\r\n$6\r\npsync2\r\n\
*3\r\n$5\r\nPSYNC\r\n$1\r\n?\r\n$2\r\n-1\r\n";
    assert_eq!(bytes, expected.to_vec());
}

#[test]
fn handshake_seen_by_master() {
    // The master reads the four handshake commands and answers each.
    let mut server = master();
    let commands = minredis::replication::handshake_commands(6380);
    let mut writer = ValueWriter::new();
    for value in &commands {
        writer.write(value);
    }
    let bytes = writer.take_bytes();
    let mut reader = CommandReader::new(ValueReader::new());
    reader.feed(bytes.as_slice());
    let mut names: Vec<&str> = Vec::new();
    loop {
        match reader.read() {
            Ok(command) => {
                names.push(match &command {
                    Command::Ping { .. } => "PING",
                    Command::Replconf { .. } => "REPLCONF",
                    Command::Psync { .. } => "PSYNC",
                    _ => "?",
                });
                let replies = server.handle(&command, 0);
                assert!(!replies.is_empty());
            }
            Err(CommandReadError::Stop) => break,
            Err(e) => panic!("unexpected read error: {:?}", e),
        }
    }
    assert_eq!(names, vec!["PING", "REPLCONF", "REPLCONF", "PSYNC"]);
}

#[test]
fn replica_routes_only_getack_to_the_writer() {
    let getack = Command::Replconf {
        size: 37,
        key: b"GetAck".to_vec(),
        value: b"*".to_vec(),
    };
    let other = Command::Replconf {
        size: 0,
        key: b"capa".to_vec(),
        value: b"psync2".to_vec(),
    };
    assert!(minredis::replication::wants_ack(&getack));
    assert!(!minredis::replication::wants_ack(&other));
    assert!(!minredis::replication::wants_ack(&Command::Ping {
        size: 0,
        message: None
    }));
}

#[test]
fn database_set_get_expiry() {
    let mut db = Database::new();
    db.set(b"k".to_vec(), b"v".to_vec(), None, 100);
    assert_eq!(db.get(b"k".to_vec(), 999_999), Some(b"v".to_vec()));
    db.set(b"k".to_vec(), b"w".to_vec(), Some(50), 1_000);
    assert_eq!(db.get(b"k".to_vec(), 1_050), Some(b"w".to_vec()));
    assert_eq!(db.get(b"k".to_vec(), 1_051), None);
    // The expired entry was removed, not merely hidden.
    assert_eq!(db.get(b"k".to_vec(), 0), None);
    assert_eq!(db.get(b"absent".to_vec(), 0), None);
}

#[test]
fn error_messages() {
    let err = minredis::RedisError::wrong_number_of_arguments("get");
    assert_eq!(err.message(), "wrong number of arguments for 'get' command");
    let err = minredis::RedisError::protocol("boom");
    assert_eq!(err.message(), "boom");
}
