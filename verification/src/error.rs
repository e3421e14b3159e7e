//! The protocol error a connection reports to its peer.
use vstd::prelude::*;
use vstd::string::StringExecFns;

verus! {

/// A protocol-level failure, carrying the human-readable reason sent back as
/// a simple error.
#[derive(Debug)]
pub enum RedisError {
    Protocol(String),
    CommandInvalid(String),
}

impl RedisError {
    /// A protocol error with the given reason.
    pub fn protocol(message: &str) -> (r: RedisError)
        ensures
            r matches RedisError::Protocol(m) && m@ == message@,
    {
        RedisError::Protocol(String::from_str(message))
    }

    /// An unrecognized or malformed command.
    pub fn invalid_command(message: &str) -> (r: RedisError)
        ensures
            r matches RedisError::Protocol(m) && m@ == message@,
    {
        RedisError::Protocol(String::from_str(message))
    }

    /// A malformed command, under the command-invalid kind.
    pub fn command_invalid(message: &str) -> (r: RedisError)
        ensures
            r matches RedisError::CommandInvalid(m) && m@ == message@,
    {
        RedisError::CommandInvalid(String::from_str(message))
    }

    /// The arity complaint for the named command.
    pub fn wrong_number_of_arguments(command: &str) -> (r: RedisError)
        ensures
            r matches RedisError::Protocol(m) && m@ == "wrong number of arguments for '"@
                + command@ + "' command"@,
    {
        let mut message = String::from_str("wrong number of arguments for '");
        message.append(command);
        message.append("' command");
        RedisError::Protocol(message)
    }

    /// The carried reason.
    pub fn message(&self) -> (r: &str)
        ensures
            match self {
                RedisError::Protocol(m) => r@ == m@,
                RedisError::CommandInvalid(m) => r@ == m@,
            },
    {
        match self {
            RedisError::Protocol(m) => m.as_str(),
            RedisError::CommandInvalid(m) => m.as_str(),
        }
    }
}

} // verus!
