//! What holds of writers and bridges, whatever is written.
//!
//! An unbuffered writer passes each write on as it is. Line buffering
//! regroups text and loses none of it: the payloads that reach the sink,
//! each followed by the newline that was cut from it, and then the text
//! still held, spell out everything that was written. Text with a null
//! character reaches no host function.

use vstd::prelude::*;
use vstd::utf8::*;
use crate::bridge::{is_c_string, lemma_terminated, Delivery, Sink, SinkBridge, TERMINATOR};
use crate::encoding::lemma_ascii_byte_in_text;
use crate::printer::{lemma_last_newline, last_newline, PrinterState};

verus! {

impl PrinterState {
    /// The payloads that writing `chunks` one after the other hands to the sink.
    pub open spec fn payloads(self, chunks: Seq<Seq<char>>) -> Seq<Seq<char>>
        decreases chunks.len(),
    {
        if chunks.len() == 0 {
            Seq::empty()
        } else {
            let rest = self.after_write(chunks.first()).payloads(chunks.drop_first());
            match self.emits(chunks.first()) {
                Some(payload) => seq![payload] + rest,
                None => rest,
            }
        }
    }

    /// The state after writing `chunks` one after the other.
    pub open spec fn after_writes(self, chunks: Seq<Seq<char>>) -> PrinterState
        decreases chunks.len(),
    {
        if chunks.len() == 0 {
            self
        } else {
            self.after_write(chunks.first()).after_writes(chunks.drop_first())
        }
    }
}

/// The payloads in a row, each followed by a newline.
pub open spec fn as_lines(payloads: Seq<Seq<char>>) -> Seq<char>
    decreases payloads.len(),
{
    if payloads.len() == 0 {
        Seq::empty()
    } else {
        payloads.first() + seq!['\n'] + as_lines(payloads.drop_first())
    }
}

/// The payloads in a row, with a newline between each two.
pub open spec fn joined(payloads: Seq<Seq<char>>) -> Seq<char>
    decreases payloads.len(),
{
    if payloads.len() == 0 {
        Seq::empty()
    } else if payloads.len() == 1 {
        payloads.first()
    } else {
        payloads.first() + seq!['\n'] + joined(payloads.drop_first())
    }
}

/// A new writer is at rest.
pub proof fn lemma_fresh_is_settled(sink: Sink, buffered: bool)
    ensures
        PrinterState::fresh(sink, buffered).settled(),
{
}

/// Writing and flushing leave a writer at rest, whatever state it was in.
pub proof fn lemma_settled_after(state: PrinterState, text: Seq<char>)
    ensures
        state.after_write(text).settled(),
        state.after_flush().settled(),
{
    lemma_last_newline(state.buffer + text);
}

/// An unbuffered writer at rest hands each written text to the sink as it
/// is, in a call of its own, and holds nothing afterwards.
pub proof fn lemma_unbuffered_write(state: PrinterState, text: Seq<char>)
    requires
        state.settled(),
        !state.buffered,
    ensures
        state.emits(text) == Some(text),
        state.after_write(text) == state,
        state.after_write(text).buffer.len() == 0,
{
    assert(state.buffer =~= Seq::<char>::empty());
}

/// An unbuffered writer at rest turns a run of writes into the same run of
/// sink calls.
pub proof fn lemma_unbuffered_writes(state: PrinterState, chunks: Seq<Seq<char>>)
    requires
        state.settled(),
        !state.buffered,
    ensures
        state.payloads(chunks) == chunks,
        state.after_writes(chunks) == state,
    decreases chunks.len(),
{
    if chunks.len() > 0 {
        lemma_unbuffered_write(state, chunks.first());
        lemma_unbuffered_writes(state, chunks.drop_first());
    }
}

/// One write to a line-buffered writer: what it releases, with its newline
/// back in place, and what it keeps are together what it held and took in.
pub proof fn lemma_buffered_write(state: PrinterState, text: Seq<char>)
    requires
        state.buffered,
    ensures
        match state.emits(text) {
            Some(payload) => payload + seq!['\n'] + state.after_write(text).buffer
                == state.buffer + text,
            None => state.after_write(text).buffer == state.buffer + text,
        },
{
    let pending = state.buffer + text;
    lemma_last_newline(pending);
    match last_newline(pending) {
        Some(i) => {
            assert(pending.subrange(0, i) + seq!['\n'] + pending.subrange(
                i + 1,
                pending.len() as int,
            ) =~= pending);
        },
        None => {},
    }
}

/// A line-buffered writer at rest never cuts what it holds: the text held
/// leaves whole, in front of what the next line end releases.
pub proof fn lemma_buffered_write_at_rest(state: PrinterState, text: Seq<char>)
    requires
        state.settled(),
        state.buffered,
    ensures
        state.emits(text) == match last_newline(text) {
            Some(i) => Some(state.buffer + text.subrange(0, i)),
            None => None,
        },
        state.after_write(text).buffer == match last_newline(text) {
            Some(i) => text.subrange(i + 1, text.len() as int),
            None => state.buffer + text,
        },
{
    let held = state.buffer.len() as int;
    let pending = state.buffer + text;
    lemma_last_newline(text);
    lemma_last_newline(pending);
    match last_newline(pending) {
        Some(k) => {
            assert(k >= held) by {
                if k < held {
                    assert(state.buffer[k] == '\n');
                }
            }
            assert(text[k - held] == '\n');
            let i = last_newline(text).unwrap();
            assert(pending[held + i] == '\n');
            assert(pending.subrange(0, k) =~= state.buffer + text.subrange(0, i));
            assert(pending.subrange(k + 1, pending.len() as int) =~= text.subrange(
                i + 1,
                text.len() as int,
            ));
        },
        None => {
            if let Some(i) = last_newline(text) {
                assert(pending[held + i] == '\n');
            }
        },
    }
}

/// Line buffering loses and repeats nothing over a run of writes: the
/// payloads, each with its newline, followed by the text still held, are
/// the text held at the start followed by all that was written.
pub proof fn lemma_buffered_writes(state: PrinterState, chunks: Seq<Seq<char>>)
    requires
        state.buffered,
    ensures
        as_lines(state.payloads(chunks)) + state.after_writes(chunks).buffer == state.buffer
            + chunks.flatten(),
    decreases chunks.len(),
{
    if chunks.len() > 0 {
        let first = chunks.first();
        let later = chunks.drop_first();
        let next = state.after_write(first);
        let end = next.after_writes(later).buffer;
        lemma_buffered_write(state, first);
        lemma_buffered_writes(next, later);
        let cut: Seq<char> = match state.emits(first) {
            Some(payload) => payload + seq!['\n'],
            None => Seq::empty(),
        };
        assert(as_lines(state.payloads(chunks)) =~= cut + as_lines(next.payloads(later))) by {
            if let Some(payload) = state.emits(first) {
                assert((seq![payload] + next.payloads(later)).drop_first() =~= next.payloads(
                    later,
                ));
            }
        }
        assert(cut + as_lines(next.payloads(later)) + end =~= cut + (next.buffer
            + later.flatten()));
        assert((state.buffer + first) + later.flatten() =~= state.buffer + chunks.flatten());
    }
}

/// The payloads with a newline after each, and then `last`, are the same
/// text as the payloads and `last` with a newline between each two.
pub proof fn lemma_joined_push(payloads: Seq<Seq<char>>, last: Seq<char>)
    ensures
        joined(payloads.push(last)) == as_lines(payloads) + last,
    decreases payloads.len(),
{
    if payloads.len() > 0 {
        let all = payloads.push(last);
        assert(all.drop_first() =~= payloads.drop_first().push(last));
        lemma_joined_push(payloads.drop_first(), last);
        assert(payloads.first() + seq!['\n'] + (as_lines(payloads.drop_first()) + last)
            =~= as_lines(payloads) + last);
    }
}

/// A run of writes to a new line-buffered writer, then a flush: the
/// payloads that reach the sink, with newlines put back between them, are
/// the written text.
pub proof fn lemma_buffered_writes_then_flush(sink: Sink, chunks: Seq<Seq<char>>)
    ensures
        ({
            let start = PrinterState::fresh(sink, true);
            let end = start.after_writes(chunks);
            joined(start.payloads(chunks).push(end.buffer)) == chunks.flatten()
        }),
{
    let start = PrinterState::fresh(sink, true);
    lemma_buffered_writes(start, chunks);
    lemma_joined_push(start.payloads(chunks), start.after_writes(chunks).buffer);
}

/// Flushing an empty writer sends the empty string and changes nothing, so
/// further flushes do as the first did.
pub proof fn lemma_flush_when_empty(state: PrinterState)
    requires
        state.buffer.len() == 0,
    ensures
        state.after_flush() == state,
        state.call_for(Some(state.buffer)) == Some(
            Delivery { sink: state.sink, text: seq![TERMINATOR] },
        ),
{
    assert(state.buffer =~= Seq::<char>::empty());
}

/// Text with a null character reaches no host function; any other text
/// reaches the bridge's own, as its UTF-8 bytes and the terminator.
pub proof fn lemma_delivery(bridge: SinkBridge, text: Seq<char>)
    ensures
        text.contains('\0') <==> bridge.outcome(text) is Err,
        text.contains('\0') <==> bridge.delivery(text) is None,
        !text.contains('\0') ==> bridge.delivery(text) == Some(
            Delivery { sink: bridge.sink, text: encode_utf8(text).push(TERMINATOR) },
        ),
        bridge.delivery(text) matches Some(delivery) ==> is_c_string(delivery.text),
{
    lemma_ascii_byte_in_text(text, TERMINATOR);
    if !text.contains('\0') {
        lemma_terminated(encode_utf8(text));
    }
}

} // verus!
