//! An in-memory key/value server library speaking the RESP wire protocol,
//! with one-way master-to-replica replication.
//!
//! The library holds the protocol and the state machine: the byte-exact value
//! codec, the command model, the keyspace with lazy expiry, and the command
//! actor that owns database, replica roster and replication offset.  Sockets,
//! tasks and the clock live outside; they hand the library plain bytes and
//! millisecond instants and take plain bytes back.
pub mod command;
pub mod command_reader;
pub mod database;
pub mod error;
pub mod num;
pub mod reader;
pub mod replication;
pub mod server;
pub mod strutil;
pub mod text;
pub mod value;
pub mod writer;

pub use command::from_value;
pub use command::Command;
pub use command::FromValueError;
pub use command_reader::CommandReadError;
pub use command_reader::CommandReader;
pub use database::Database;
pub use database::Entry;
pub use error::RedisError;
pub use num::parse_i64;
pub use num::parse_u64;
pub use reader::ValueReadError;
pub use reader::ValueReader;
pub use replication::ReplicationError;
pub use replication::ReplicationManager;
pub use server::RedisArguments;
pub use server::Server;
pub use server::ServerOptions;
pub use server::ServerSendError;
pub use text::RedisCommand;
pub use text::RedisValue;
pub use value::Value;
pub use writer::ValueWriter;
