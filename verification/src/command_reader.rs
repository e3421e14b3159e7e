//! Reads commands from the byte stream: one RESP value at a time, parsed
//! into a command, with the error replies a connection sends back on bad
//! input.
use vstd::prelude::*;
use crate::command::model_to_cmd;
use crate::command::Command;
use crate::reader::spec_parse;
use crate::reader::ParseOut;
use crate::reader::ValueReader;
use crate::reader::ValueReadError;
use crate::strutil;
use crate::value::Value;

verus! {

/// A failed command read.
#[derive(Debug)]
pub enum CommandReadError {
    /// The bytes held a legal value that is not a legal command; the replies
    /// to send back to the peer.  The value was consumed and reading goes on.
    Invalid(Vec<Value>),
    /// The bytes cannot be a RESP value at all; the replies to send before
    /// closing, since the stream position is no longer meaningful.
    Malformed(Vec<Value>),
    /// The buffered bytes are a strict prefix of a value: feed more and retry.
    Incomplete,
    /// The stream ended cleanly; close the connection.
    Stop,
}

/// Reads one command at a time from the bytes fed so far.
pub struct CommandReader {
    reader: ValueReader,
}

impl CommandReader {
    pub closed spec fn wf(&self) -> bool {
        self.reader.wf()
    }

    /// The bytes received and not yet consumed.
    pub closed spec fn remaining(&self) -> Seq<u8> {
        self.reader.remaining()
    }

    pub fn new(reader: ValueReader) -> (r: CommandReader)
        requires
            reader.wf(),
        ensures
            r.wf(),
            r.remaining() == reader.remaining(),
    {
        CommandReader { reader }
    }

    /// Appends one fill from the input.
    pub fn feed(&mut self, chunk: &[u8])
        requires
            old(self).wf(),
        ensures
            final(self).wf(),
            final(self).remaining() == old(self).remaining() + chunk@,
    {
        self.reader.feed(chunk);
    }

    /// Reads one command.  A value that parses but is no command is consumed
    /// and reported with the error replies for the peer, and reading can go
    /// on; a malformed value is reported as `Malformed` and ends the
    /// stream's usefulness; missing bytes or a clean end of input leave the
    /// buffer unchanged.
    pub fn read(&mut self) -> (r: Result<Command, CommandReadError>)
        requires
            old(self).wf(),
        ensures
            final(self).wf(),
            ({
                let before = old(self).remaining();
                let after = final(self).remaining();
                match r {
                    Ok(c) => spec_parse(before) matches ParseOut::Got(m, n) && model_to_cmd(m, n)
                        == Option::Some(c@) && after == before.skip(n),
                    Err(CommandReadError::Invalid(values)) => values@.len() == 1 && values@[0]@
                        is Error && (spec_parse(before) matches ParseOut::Got(m, n)
                        && model_to_cmd(m, n) is None && after == before.skip(n)),
                    Err(CommandReadError::Malformed(values)) => values@.len() == 1 && values@[0]@
                        is Error && spec_parse(before) is Bad && after == before,
                    Err(CommandReadError::Incomplete) => before.len() > 0 && spec_parse(before)
                        is More && after == before,
                    Err(CommandReadError::Stop) => before.len() == 0 && after == before,
                }
            }),
    {
        match self.reader.read() {
            Err(ValueReadError::EndOfInput) => Err(CommandReadError::Stop),
            Err(ValueReadError::Incomplete) => Err(CommandReadError::Incomplete),
            Err(ValueReadError::Invalid { message, .. }) => {
                let reply = error_value(message.as_str());
                let mut values: Vec<Value> = Vec::new();
                values.push(reply);
                Err(CommandReadError::Malformed(values))
            },
            Ok(value) => {
                match crate::command::from_value(value) {
                    Ok(command) => Ok(command),
                    Err(e) => {
                        let reply = error_value(e.0.as_str());
                        let mut values: Vec<Value> = Vec::new();
                        values.push(reply);
                        Err(CommandReadError::Invalid(values))
                    },
                }
            },
        }
    }
}

/// A simple-error value carrying the given text, size capped to the machine
/// limit in the degenerate case of an overlong message.
fn error_value(message: &str) -> (r: Value)
    ensures
        r@ is Error,
{
    let bytes = vstd::string::StrSliceExecFns::as_bytes_vec(message);
    if bytes.len() <= usize::MAX - 3 {
        let size: usize = bytes.len() + 3;
        Value::SimpleError((size, bytes))
    } else {
        Value::SimpleError((usize::MAX, bytes))
    }
}

} // verus!
