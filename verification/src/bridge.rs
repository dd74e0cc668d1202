//! The sink bridge: the boundary at which text leaves for the host.
//!
//! The host takes strings in the null-terminated convention, so text that
//! holds a null byte cannot cross. A bridge is bound to one host function;
//! sending turns text into the call that the embedding then performs.

use vstd::prelude::*;
use vstd::string::*;
use vstd::utf8::*;
use crate::encoding::lemma_ascii_byte_in_text;

verus! {

/// The byte that ends a string in the host's convention.
pub const TERMINATOR: u8 = 0;

/// The functions that the host supplies.
#[derive(Clone, Copy, Debug, PartialEq, Eq, Structural)]
pub enum Sink {
    /// Receives what was written to standard output.
    Print,
    /// Receives what was written to standard error.
    Eprint,
    /// Receives panic diagnostics.
    Trace,
}

/// Text could not be put in the host's form: it holds a null byte.
#[derive(Clone, Copy, Debug, PartialEq, Eq, Structural)]
pub struct EncodingError {
    /// Offset of the first null byte in the text's UTF-8 form.
    pub position: usize,
}

/// One call of a host function, ready to be performed.
#[derive(Debug, PartialEq, Eq)]
pub struct HostCall {
    /// The host function to call.
    pub sink: Sink,
    /// The argument: UTF-8 text, then the terminator.
    pub text: Vec<u8>,
}

/// What a `HostCall` stands for.
pub struct Delivery {
    /// The host function that is called.
    pub sink: Sink,
    /// The bytes that it is handed, terminator included.
    pub text: Seq<u8>,
}

impl View for HostCall {
    type V = Delivery;

    open spec fn view(&self) -> Delivery {
        Delivery { sink: self.sink, text: self.text@ }
    }
}

/// The delivery behind a call that may not have been made.
pub open spec fn delivered(call: Option<HostCall>) -> Option<Delivery> {
    match call {
        Some(c) => Some(c@),
        None => None,
    }
}

/// Number of bytes before the first terminator in `bytes`; its length if there is none.
pub open spec fn terminator_offset(bytes: Seq<u8>) -> nat
    decreases bytes.len(),
{
    if bytes.len() == 0 || bytes[0] == TERMINATOR {
        0
    } else {
        1 + terminator_offset(bytes.drop_first())
    }
}

/// Whether `bytes` is a string in the host's form: it ends with the
/// terminator and holds no other.
pub open spec fn is_c_string(bytes: Seq<u8>) -> bool {
    bytes.len() > 0 && terminator_offset(bytes) == bytes.len() - 1
}

/// Where the first terminator of `bytes` stands.
pub proof fn lemma_terminator_offset(bytes: Seq<u8>)
    ensures
        terminator_offset(bytes) <= bytes.len(),
        terminator_offset(bytes) < bytes.len() ==> bytes[terminator_offset(bytes) as int]
            == TERMINATOR,
        forall|i: int| 0 <= i < terminator_offset(bytes) ==> bytes[i] != TERMINATOR,
        bytes.contains(TERMINATOR) <==> terminator_offset(bytes) < bytes.len(),
    decreases bytes.len(),
{
    if bytes.len() > 0 && bytes[0] != TERMINATOR {
        let rest = bytes.drop_first();
        lemma_terminator_offset(rest);
        assert forall|i: int| 0 <= i < terminator_offset(bytes) implies bytes[i]
            != TERMINATOR by {
            if i > 0 {
                assert(bytes[i] == rest[i - 1]);
            }
        }
        if bytes.contains(TERMINATOR) {
            let j = choose|j: int| 0 <= j < bytes.len() && bytes[j] == TERMINATOR;
            assert(rest[j - 1] == TERMINATOR);
        }
    }
}

/// Bytes without a terminator, followed by one, are a string in the
/// host's form.
pub proof fn lemma_terminated(bytes: Seq<u8>)
    requires
        !bytes.contains(TERMINATOR),
    ensures
        is_c_string(bytes.push(TERMINATOR)),
{
    let all = bytes.push(TERMINATOR);
    lemma_terminator_offset(all);
    assert(all[bytes.len() as int] == TERMINATOR);
    let k = terminator_offset(all) as int;
    if k < bytes.len() {
        assert(bytes[k] == TERMINATOR);
    }
}

/// A bridge to one host function.
#[derive(Clone, Copy, Debug, PartialEq, Eq, Structural)]
pub struct SinkBridge {
    /// The host function that this bridge calls.
    pub sink: Sink,
}

impl SinkBridge {
    /// What sending `text` comes to: the delivery, or the error that stops it.
    pub open spec fn outcome(self, text: Seq<char>) -> Result<Delivery, EncodingError> {
        let bytes = encode_utf8(text);
        if bytes.contains(TERMINATOR) {
            Err(EncodingError { position: terminator_offset(bytes) as usize })
        } else {
            Ok(Delivery { sink: self.sink, text: bytes.push(TERMINATOR) })
        }
    }

    /// The delivery that sending `text` leads to, if any.
    pub open spec fn delivery(self, text: Seq<char>) -> Option<Delivery> {
        match self.outcome(text) {
            Ok(d) => Some(d),
            Err(_) => None,
        }
    }

    /// A bridge bound to `sink`.
    pub fn new(sink: Sink) -> (bridge: SinkBridge)
        ensures
            bridge.sink == sink,
    {
        SinkBridge { sink }
    }

    /// Puts `text` in the host's form and returns the call that hands it to
    /// this bridge's host function. Text that holds a null byte cannot be
    /// sent: the error tells where the first one stands, and no call is made.
    pub fn send(&self, text: &str) -> (result: Result<HostCall, EncodingError>)
        ensures
            result is Err <==> text@.contains('\0'),
            result matches Ok(call) ==> is_c_string(call.text@),
            match result {
                Ok(call) => self.outcome(text@) == Ok::<Delivery, EncodingError>(call@),
                Err(e) => self.outcome(text@) == Err::<Delivery, EncodingError>(e),
            },
    {
        let bytes = text.as_bytes();
        let mut i: usize = 0;
        while i < bytes.len()
            invariant
                i <= bytes.len(),
                bytes@ == encode_utf8(text@),
                forall|j: int| 0 <= j < i ==> bytes@[j] != TERMINATOR,
            decreases bytes.len() - i,
        {
            if bytes[i] == TERMINATOR {
                proof {
                    lemma_terminator_offset(bytes@);
                    lemma_ascii_byte_in_text(text@, TERMINATOR);
                }
                return Err(EncodingError { position: i });
            }
            i += 1;
        }
        proof {
            lemma_ascii_byte_in_text(text@, TERMINATOR);
            lemma_terminated(bytes@);
        }
        let mut out = text.as_bytes_vec();
        out.push(TERMINATOR);
        Ok(HostCall { sink: self.sink, text: out })
    }
}

} // verus!
