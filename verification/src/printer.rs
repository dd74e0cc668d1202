//! The buffered writer: groups written bytes into sink calls.
//!
//! An unbuffered writer passes every write on at once. A line-buffered one
//! holds text back until a line is complete, and then releases all complete
//! lines in one call, without the newline that ends the last of them.

use vstd::prelude::*;
use vstd::string::*;
use vstd::utf8::*;
use crate::bridge::{delivered, Delivery, HostCall, Sink, SinkBridge};
use crate::encoding::{
    lemma_ascii_byte_in_text, lemma_ascii_byte_is_boundary, lemma_cut_at_ascii_byte,
};

verus! {

/// Index of the last newline in `text`, if it holds one.
pub open spec fn last_newline(text: Seq<char>) -> Option<int>
    decreases text.len(),
{
    if text.len() == 0 {
        None
    } else if text.last() == '\n' {
        Some(text.len() - 1)
    } else {
        last_newline(text.drop_last())
    }
}

/// What a writer hands to its sink once `pending` is all the text it holds.
pub open spec fn released(buffered: bool, pending: Seq<char>) -> Option<Seq<char>> {
    if !buffered {
        Some(pending)
    } else {
        match last_newline(pending) {
            Some(i) => Some(pending.subrange(0, i)),
            None => None,
        }
    }
}

/// What a writer keeps once `pending` is all the text it holds.
pub open spec fn retained(buffered: bool, pending: Seq<char>) -> Seq<char> {
    if !buffered {
        Seq::empty()
    } else {
        match last_newline(pending) {
            Some(i) => pending.subrange(i + 1, pending.len() as int),
            None => pending,
        }
    }
}

/// `last_newline` finds a newline, and none comes after it.
pub proof fn lemma_last_newline(text: Seq<char>)
    ensures
        match last_newline(text) {
            Some(i) => 0 <= i < text.len() && text[i] == '\n' && forall|j: int|
                i < j < text.len() ==> text[j] != '\n',
            None => !text.contains('\n'),
        },
    decreases text.len(),
{
    if text.len() > 0 && text.last() != '\n' {
        let front = text.drop_last();
        lemma_last_newline(front);
        match last_newline(front) {
            Some(i) => {
                assert forall|j: int| i < j < text.len() implies text[j] != '\n' by {
                    if j < front.len() {
                        assert(text[j] == front[j]);
                    }
                }
            },
            None => {
                if text.contains('\n') {
                    let j = choose|j: int| 0 <= j < text.len() && text[j] == '\n';
                    assert(front[j] == '\n');
                }
            },
        }
    }
}

/// The state of a writer.
pub struct PrinterState {
    /// The host function that receives the output.
    pub sink: Sink,
    /// The text held back.
    pub buffer: Seq<char>,
    /// Whether the writer is line-buffered.
    pub buffered: bool,
}

impl PrinterState {
    /// A writer at rest holds no complete line; an unbuffered one holds nothing.
    pub open spec fn settled(self) -> bool {
        if self.buffered {
            !self.buffer.contains('\n')
        } else {
            self.buffer.len() == 0
        }
    }

    /// The state of a writer that was just made.
    pub open spec fn fresh(sink: Sink, buffered: bool) -> PrinterState {
        PrinterState { sink, buffer: Seq::empty(), buffered }
    }

    /// What writing `text` hands to the sink.
    pub open spec fn emits(self, text: Seq<char>) -> Option<Seq<char>> {
        released(self.buffered, self.buffer + text)
    }

    /// The state after writing `text`.
    pub open spec fn after_write(self, text: Seq<char>) -> PrinterState {
        PrinterState { buffer: retained(self.buffered, self.buffer + text), ..self }
    }

    /// The state after a flush.
    pub open spec fn after_flush(self) -> PrinterState {
        PrinterState { buffer: Seq::empty(), ..self }
    }

    /// The host call that handing `payload` to the sink leads to.
    pub open spec fn call_for(self, payload: Option<Seq<char>>) -> Option<Delivery> {
        match payload {
            Some(text) => (SinkBridge { sink: self.sink }).delivery(text),
            None => None,
        }
    }
}

/// The newline as a byte of UTF-8 text.
pub const NEWLINE: u8 = 0x0A;

/// Text that is cut at a newline with none after it is cut at its last newline.
proof fn lemma_cut_is_last_newline(text: Seq<char>, head: Seq<char>, tail: Seq<char>)
    requires
        text == head + seq!['\n'] + tail,
        !tail.contains('\n'),
    ensures
        released(true, text) == Some(head),
        retained(true, text) == tail,
{
    let at = head.len() as int;
    lemma_last_newline(text);
    assert(text[at] == '\n');
    if let Some(i) = last_newline(text) {
        assert(i == at) by {
            if i > at {
                assert(tail[i - at - 1] == '\n');
            }
        }
        assert(text.subrange(0, at) =~= head);
        assert(text.subrange(at + 1, text.len() as int) =~= tail);
    }
}

/// Cuts `text` at its last newline: what stands before it and what stands
/// after it, or nothing where `text` has no newline.
pub fn split_at_last_newline(text: &str) -> (parts: Option<(&str, &str)>)
    ensures
        match parts {
            Some((head, tail)) => released(true, text@) == Some(head@) && retained(true, text@)
                == tail@,
            None => released(true, text@) is None && retained(true, text@) == text@,
        },
{
    let bytes = text.as_bytes();
    let mut i: usize = bytes.len();
    while i > 0
        invariant
            i <= bytes.len(),
            bytes@ == encode_utf8(text@),
            forall|j: int| i <= j < bytes.len() ==> bytes@[j] != NEWLINE,
        decreases i,
    {
        i -= 1;
        if bytes[i] == NEWLINE {
            proof {
                lemma_ascii_byte_is_boundary(text@, i as int);
            }
            let (head, rest) = text.split_at(i);
            let (_, tail) = rest.split_at(1);
            proof {
                assert(encode_utf8(tail@) =~= bytes@.subrange(i + 1, bytes@.len() as int));
                lemma_ascii_byte_in_text(tail@, NEWLINE);
                lemma_cut_at_ascii_byte(text@, i as int, head@, tail@);
                lemma_cut_is_last_newline(text@, head@, tail@);
            }
            return Some((head, tail));
        }
    }
    proof {
        lemma_ascii_byte_in_text(text@, NEWLINE);
        lemma_last_newline(text@);
    }
    None
}

/// The text that lossy decoding makes of `bytes`: valid UTF-8 is decoded as
/// it stands, and each invalid sequence becomes a replacement character.
pub uninterp spec fn lossy_text(bytes: Seq<u8>) -> Seq<char>;

/// Decodes `bytes` with `String::from_utf8_lossy`. The result is a function
/// of the bytes alone, named `lossy_text`; on valid UTF-8 it is the text
/// that the bytes encode.
#[verifier::external_body]
fn decode_lossy(bytes: &[u8]) -> (text: String)
    ensures
        text@ == lossy_text(bytes@),
        valid_utf8(bytes@) ==> text@ == decode_utf8(bytes@),
{
    String::from_utf8_lossy(bytes).into_owned()
}

/// What a write reports.
#[derive(Debug, PartialEq, Eq)]
pub struct Written {
    /// Number of bytes taken in: always all of them.
    pub accepted: usize,
    /// The host call to perform, if the write led to one.
    pub call: Option<HostCall>,
}

/// A writer over one sink bridge.
#[derive(Debug)]
pub struct Printer {
    bridge: SinkBridge,
    buffer: String,
    is_buffered: bool,
}

impl View for Printer {
    type V = PrinterState;

    closed spec fn view(&self) -> PrinterState {
        PrinterState { sink: self.bridge.sink, buffer: self.buffer@, buffered: self.is_buffered }
    }
}

impl Printer {
    /// Between calls a writer is at rest.
    #[verifier::type_invariant]
    pub open spec fn at_rest(&self) -> bool {
        self@.settled()
    }

    /// A writer with an empty buffer.
    pub fn new(bridge: SinkBridge, is_buffered: bool) -> (printer: Printer)
        ensures
            printer@ == PrinterState::fresh(bridge.sink, is_buffered),
    {
        Printer { bridge, buffer: String::new(), is_buffered }
    }

    /// The host function that receives this writer's output.
    pub fn sink(&self) -> (sink: Sink)
        ensures
            sink == self@.sink,
    {
        self.bridge.sink
    }

    /// Whether this writer is line-buffered.
    pub fn is_buffered(&self) -> (buffered: bool)
        ensures
            buffered == self@.buffered,
    {
        self.is_buffered
    }

    /// The text that this writer holds back.
    pub fn pending(&self) -> (text: &str)
        ensures
            text@ == self@.buffer,
    {
        self.buffer.as_str()
    }

    /// Takes `text` in. In unbuffered mode all of it goes to the sink. In
    /// line-buffered mode the sink gets what stands before the last newline
    /// of the held text, and what stands after it is kept; with no newline
    /// nothing is sent. Text that the bridge cannot encode is dropped.
    pub fn write_str(&mut self, text: &str) -> (call: Option<HostCall>)
        ensures
            final(self)@ == old(self)@.after_write(text@),
            delivered(call) == old(self)@.call_for(old(self)@.emits(text@)),
            !old(self)@.buffered ==> final(self)@.buffer == Seq::<char>::empty() && delivered(call)
                == old(self)@.call_for(Some(text@)),
    {
        proof {
            use_type_invariant(&*self);
        }
        let mut pending = String::new();
        core::mem::swap(&mut self.buffer, &mut pending);
        pending.append(text);
        proof {
            lemma_last_newline(pending@);
        }
        if !self.is_buffered {
            match self.bridge.send(pending.as_str()) {
                Ok(call) => Some(call),
                Err(_) => None,
            }
        } else {
            match split_at_last_newline(pending.as_str()) {
                None => {
                    self.buffer = pending;
                    None
                },
                Some((head, tail)) => {
                    self.buffer = tail.to_owned();
                    match self.bridge.send(head) {
                        Ok(call) => Some(call),
                        Err(_) => None,
                    }
                },
            }
        }
    }

    /// Takes `buf` in as text, decoded lossily, and treats it as `write_str`
    /// does. Every byte is accepted, whatever becomes of the text.
    pub fn write(&mut self, buf: &[u8]) -> (out: Written)
        ensures
            out.accepted == buf@.len(),
            final(self)@ == old(self)@.after_write(lossy_text(buf@)),
            delivered(out.call) == old(self)@.call_for(old(self)@.emits(lossy_text(buf@))),
            !old(self)@.buffered ==> final(self)@.buffer == Seq::<char>::empty() && delivered(
                out.call,
            ) == old(self)@.call_for(Some(lossy_text(buf@))),
            valid_utf8(buf@) ==> final(self)@ == old(self)@.after_write(decode_utf8(buf@))
                && delivered(out.call) == old(self)@.call_for(
                old(self)@.emits(decode_utf8(buf@)),
            ),
    {
        let text = decode_lossy(buf);
        let call = self.write_str(text.as_str());
        Written { accepted: buf.len(), call }
    }

    /// Hands all held text to the sink, in either mode, and empties the
    /// buffer. An empty buffer is sent as the empty string.
    pub fn flush(&mut self) -> (call: Option<HostCall>)
        ensures
            final(self)@ == old(self)@.after_flush(),
            delivered(call) == old(self)@.call_for(Some(old(self)@.buffer)),
    {
        let mut pending = String::new();
        core::mem::swap(&mut self.buffer, &mut pending);
        match self.bridge.send(pending.as_str()) {
            Ok(call) => Some(call),
            Err(_) => None,
        }
    }
}

} // verus!
