//! The panic reporter: one formatted line for each failure, sent to the
//! host's trace function.

use vstd::prelude::*;
use vstd::string::*;
use crate::bridge::{delivered, HostCall, Sink, SinkBridge};
use crate::decimal::{decimal, push_decimal};

verus! {

/// What a failure carries as its message.
#[derive(Debug, PartialEq, Eq)]
pub enum Payload {
    /// A message in text.
    Text(String),
    /// A value of some other kind, of which nothing can be shown.
    Opaque,
}

impl Payload {
    /// The message that is shown for this payload.
    pub open spec fn message(self) -> Seq<char> {
        match self {
            Payload::Text(text) => text@,
            Payload::Opaque => "Box<Any>"@,
        }
    }

    /// The message that is shown for this payload: the text itself, or a
    /// fixed stand-in for a payload that is no text.
    pub fn as_str(&self) -> (message: &str)
        ensures
            message@ == self.message(),
    {
        match self {
            Payload::Text(text) => text.as_str(),
            Payload::Opaque => "Box<Any>",
        }
    }
}

/// The line that reports a failure with `message` at `file:line:column`.
pub open spec fn diagnostic(message: Seq<char>, file: Seq<char>, line: nat, column: nat) -> Seq<
    char,
> {
    "Panicked at '"@ + message + "', "@ + file + ":"@ + decimal(line) + ":"@ + decimal(column)
}

/// Formats the line that reports a failure.
pub fn diagnostic_line(payload: &Payload, file: &str, line: u32, column: u32) -> (text: String)
    ensures
        text@ == diagnostic(payload.message(), file@, line as nat, column as nat),
{
    let mut text = String::from_str("Panicked at '");
    text.append(payload.as_str());
    text.append("', ");
    text.append(file);
    text.append(":");
    push_decimal(&mut text, line);
    text.append(":");
    push_decimal(&mut text, column);
    text
}

/// Reports a failure: formats its line and returns the call that hands it
/// to the host's trace function. A line that cannot be encoded is dropped.
pub fn report_panic(payload: &Payload, file: &str, line: u32, column: u32) -> (call: Option<
    HostCall,
>)
    ensures
        delivered(call) == (SinkBridge { sink: Sink::Trace }).delivery(
            diagnostic(payload.message(), file@, line as nat, column as nat),
        ),
{
    let text = diagnostic_line(payload, file, line, column);
    match SinkBridge::new(Sink::Trace).send(text.as_str()) {
        Ok(call) => Some(call),
        Err(_) => None,
    }
}

} // verus!
