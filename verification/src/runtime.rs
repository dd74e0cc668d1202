//! The output targets of a process, and the entry points that install them.
//!
//! A `Runtime` holds what is installed: a writer for standard output, one for
//! standard error, and whether panics are reported to the host. The embedding
//! makes one at startup and hands it to whatever writes.

use vstd::prelude::*;
use crate::bridge::{delivered, Delivery, HostCall, Sink, SinkBridge};
use crate::printer::{Printer, PrinterState};
use crate::report::{diagnostic, report_panic, Payload};

verus! {

/// The output targets of a process.
#[derive(Debug)]
pub struct Runtime {
    /// The writer that standard output goes to, once one is installed.
    pub stdout: Option<Printer>,
    /// The writer that standard error goes to, once one is installed.
    pub stderr: Option<Printer>,
    /// Whether panics are reported to the host's trace function.
    pub panic_hook: bool,
}

/// What a `Runtime` stands for.
pub struct RuntimeState {
    /// The state of the writer for standard output, if one is installed.
    pub stdout: Option<PrinterState>,
    /// The state of the writer for standard error, if one is installed.
    pub stderr: Option<PrinterState>,
    /// Whether the panic hook is installed.
    pub panic_hook: bool,
}

/// The state of the writer in a slot.
pub open spec fn slot_state(slot: Option<Printer>) -> Option<PrinterState> {
    match slot {
        Some(printer) => Some(printer@),
        None => None,
    }
}

impl View for Runtime {
    type V = RuntimeState;

    open spec fn view(&self) -> RuntimeState {
        RuntimeState {
            stdout: slot_state(self.stdout),
            stderr: slot_state(self.stderr),
            panic_hook: self.panic_hook,
        }
    }
}

impl Runtime {
    /// A runtime with nothing installed.
    pub fn new() -> (rt: Runtime)
        ensures
            rt@ == (RuntimeState { stdout: None, stderr: None, panic_hook: false }),
    {
        Runtime { stdout: None, stderr: None, panic_hook: false }
    }

    /// Installs a new writer for standard output, bound to the host's
    /// `print`. A writer that was there before is dropped with what it held.
    pub fn install_stdout(&mut self, buffered: bool)
        ensures
            final(self)@ == (RuntimeState {
                stdout: Some(PrinterState::fresh(Sink::Print, buffered)),
                ..old(self)@
            }),
    {
        self.stdout = Some(Printer::new(SinkBridge::new(Sink::Print), buffered));
    }

    /// Installs a new writer for standard error, bound to the host's
    /// `eprint`. A writer that was there before is dropped with what it held.
    pub fn install_stderr(&mut self, buffered: bool)
        ensures
            final(self)@ == (RuntimeState {
                stderr: Some(PrinterState::fresh(Sink::Eprint, buffered)),
                ..old(self)@
            }),
    {
        self.stderr = Some(Printer::new(SinkBridge::new(Sink::Eprint), buffered));
    }

    /// Has panics reported to the host's `trace` from now on.
    pub fn install_panic_hook(&mut self)
        ensures
            final(self)@ == (RuntimeState { panic_hook: true, ..old(self)@ }),
    {
        self.panic_hook = true;
    }

    /// What a panic leads to: with the hook installed, the call that reports
    /// it; without, nothing.
    pub fn panicked(&self, payload: &Payload, file: &str, line: u32, column: u32) -> (call:
        Option<HostCall>)
        ensures
            delivered(call) == if self.panic_hook {
                (SinkBridge { sink: Sink::Trace }).delivery(
                    diagnostic(payload.message(), file@, line as nat, column as nat),
                )
            } else {
                None
            },
    {
        if self.panic_hook {
            report_panic(payload, file, line, column)
        } else {
            None
        }
    }
}

/// What printing `text` to a slot sends to the host: through the writer
/// when one is installed, else straight through the bridge to `sink`.
pub open spec fn printed(slot: Option<PrinterState>, sink: Sink, text: Seq<char>) -> Option<
    Delivery,
> {
    match slot {
        Some(state) => state.call_for(state.emits(text)),
        None => (SinkBridge { sink }).delivery(text),
    }
}

/// The slot after `text` was printed to it.
pub open spec fn slot_after(slot: Option<PrinterState>, text: Seq<char>) -> Option<PrinterState> {
    match slot {
        Some(state) => Some(state.after_write(text)),
        None => None,
    }
}

/// Installs a line-buffered writer for standard output.
pub fn set_stdout(rt: &mut Runtime)
    ensures
        final(rt)@ == (RuntimeState {
            stdout: Some(PrinterState::fresh(Sink::Print, true)),
            ..old(rt)@
        }),
{
    rt.install_stdout(true);
}

/// Installs an unbuffered writer for standard output.
pub fn set_stdout_unbuffered(rt: &mut Runtime)
    ensures
        final(rt)@ == (RuntimeState {
            stdout: Some(PrinterState::fresh(Sink::Print, false)),
            ..old(rt)@
        }),
{
    rt.install_stdout(false);
}

/// Installs a line-buffered writer for standard error.
pub fn set_stderr(rt: &mut Runtime)
    ensures
        final(rt)@ == (RuntimeState {
            stderr: Some(PrinterState::fresh(Sink::Eprint, true)),
            ..old(rt)@
        }),
{
    rt.install_stderr(true);
}

/// Installs an unbuffered writer for standard error.
pub fn set_stderr_unbuffered(rt: &mut Runtime)
    ensures
        final(rt)@ == (RuntimeState {
            stderr: Some(PrinterState::fresh(Sink::Eprint, false)),
            ..old(rt)@
        }),
{
    rt.install_stderr(false);
}

/// Has panics reported to the host.
pub fn set_panic_hook(rt: &mut Runtime)
    ensures
        final(rt)@ == (RuntimeState { panic_hook: true, ..old(rt)@ }),
{
    rt.install_panic_hook();
}

/// Installs line-buffered writers for standard output and standard error,
/// and the panic hook.
pub fn hook(rt: &mut Runtime)
    ensures
        final(rt)@ == (RuntimeState {
            stdout: Some(PrinterState::fresh(Sink::Print, true)),
            stderr: Some(PrinterState::fresh(Sink::Eprint, true)),
            panic_hook: true,
        }),
{
    set_stdout(rt);
    set_stderr(rt);
    set_panic_hook(rt);
}

/// Prints formatted text to standard output.
pub fn _print_args(rt: &mut Runtime, text: &str) -> (call: Option<HostCall>)
    ensures
        delivered(call) == printed(old(rt)@.stdout, Sink::Print, text@),
        final(rt)@ == (RuntimeState { stdout: slot_after(old(rt)@.stdout, text@), ..old(rt)@ }),
{
    match &mut rt.stdout {
        Some(printer) => printer.write_str(text),
        None => match SinkBridge::new(Sink::Print).send(text) {
            Ok(call) => Some(call),
            Err(_) => None,
        },
    }
}

/// Prints formatted text to standard error.
pub fn _eprint_args(rt: &mut Runtime, text: &str) -> (call: Option<HostCall>)
    ensures
        delivered(call) == printed(old(rt)@.stderr, Sink::Eprint, text@),
        final(rt)@ == (RuntimeState { stderr: slot_after(old(rt)@.stderr, text@), ..old(rt)@ }),
{
    match &mut rt.stderr {
        Some(printer) => printer.write_str(text),
        None => match SinkBridge::new(Sink::Eprint).send(text) {
            Ok(call) => Some(call),
            Err(_) => None,
        },
    }
}


} // verus!
