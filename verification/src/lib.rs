//! Routes a program's standard output, standard error and panic reports to
//! functions that its host supplies.
//!
//! The library decides; the embedding acts. Writers group written bytes into
//! host calls, the panic reporter formats one line for each failure, and
//! every call comes back as a value, a [`HostCall`], for the embedding to
//! perform.

pub mod bridge;
pub mod decimal;
pub mod encoding;
pub mod laws;
pub mod printer;
pub mod report;
pub mod runtime;

pub use bridge::{EncodingError, HostCall, Sink, SinkBridge};
pub use printer::{Printer, Written};
pub use report::{diagnostic_line, report_panic, Payload};
pub use runtime::{
    _eprint_args, _print_args, hook, set_panic_hook, set_stderr, set_stderr_unbuffered,
    set_stdout, set_stdout_unbuffered, Runtime,
};
