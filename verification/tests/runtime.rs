use wasm_glue::{
    _eprint_args, _print_args, hook, set_panic_hook, set_stderr, set_stderr_unbuffered,
    set_stdout, set_stdout_unbuffered, HostCall, Payload, Printer, Runtime, Sink,
};

fn call(sink: Sink, text: &str) -> Option<HostCall> {
    let mut bytes = text.as_bytes().to_vec();
    bytes.push(0);
    Some(HostCall { sink, text: bytes })
}

fn assert_fresh(slot: &Option<Printer>, sink: Sink, buffered: bool) {
    let printer = slot.as_ref().unwrap();
    assert_eq!(printer.sink(), sink);
    assert_eq!(printer.is_buffered(), buffered);
    assert_eq!(printer.pending(), "");
}

#[test]
fn a_new_runtime_has_nothing_installed() {
    let rt = Runtime::new();
    assert!(rt.stdout.is_none());
    assert!(rt.stderr.is_none());
    assert!(!rt.panic_hook);
}

#[test]
fn set_stdout_installs_a_line_buffered_writer() {
    let mut rt = Runtime::new();
    set_stdout(&mut rt);
    assert_fresh(&rt.stdout, Sink::Print, true);
    assert!(rt.stderr.is_none());
    assert!(!rt.panic_hook);
}

#[test]
fn set_stdout_unbuffered_installs_an_unbuffered_writer() {
    let mut rt = Runtime::new();
    set_stdout_unbuffered(&mut rt);
    assert_fresh(&rt.stdout, Sink::Print, false);
    assert!(rt.stderr.is_none());
    assert!(!rt.panic_hook);
}

#[test]
fn set_stderr_installs_a_line_buffered_writer() {
    let mut rt = Runtime::new();
    set_stderr(&mut rt);
    assert_fresh(&rt.stderr, Sink::Eprint, true);
    assert!(rt.stdout.is_none());
    assert!(!rt.panic_hook);
}

#[test]
fn set_stderr_unbuffered_installs_an_unbuffered_writer() {
    let mut rt = Runtime::new();
    set_stderr_unbuffered(&mut rt);
    assert_fresh(&rt.stderr, Sink::Eprint, false);
    assert!(rt.stdout.is_none());
    assert!(!rt.panic_hook);
}

#[test]
fn set_panic_hook_leaves_the_writers_alone() {
    let mut rt = Runtime::new();
    set_stdout_unbuffered(&mut rt);
    set_panic_hook(&mut rt);
    assert!(rt.panic_hook);
    assert_fresh(&rt.stdout, Sink::Print, false);
    assert!(rt.stderr.is_none());
}

#[test]
fn hook_installs_all_three() {
    let mut rt = Runtime::new();
    hook(&mut rt);
    assert_fresh(&rt.stdout, Sink::Print, true);
    assert_fresh(&rt.stderr, Sink::Eprint, true);
    assert!(rt.panic_hook);
}

#[test]
fn hook_replaces_what_was_installed() {
    let mut rt = Runtime::new();
    set_stdout_unbuffered(&mut rt);
    set_stderr_unbuffered(&mut rt);
    hook(&mut rt);
    assert_fresh(&rt.stdout, Sink::Print, true);
    assert_fresh(&rt.stderr, Sink::Eprint, true);
}

#[test]
fn installing_again_loses_what_was_held() {
    let mut rt = Runtime::new();
    set_stdout(&mut rt);
    assert_eq!(_print_args(&mut rt, "held"), None);
    assert_eq!(rt.stdout.as_ref().unwrap().pending(), "held");
    set_stdout(&mut rt);
    assert_fresh(&rt.stdout, Sink::Print, true);
    assert_eq!(_print_args(&mut rt, "\n"), call(Sink::Print, ""));
}

#[test]
fn the_install_methods_take_the_mode() {
    let mut rt = Runtime::new();
    rt.install_stdout(false);
    rt.install_stderr(true);
    rt.install_panic_hook();
    assert_fresh(&rt.stdout, Sink::Print, false);
    assert_fresh(&rt.stderr, Sink::Eprint, true);
    assert!(rt.panic_hook);
}

#[test]
fn printing_goes_through_the_installed_writer() {
    let mut rt = Runtime::new();
    hook(&mut rt);
    assert_eq!(_print_args(&mut rt, "1 + 2"), None);
    assert_eq!(_eprint_args(&mut rt, "Danger! "), None);
    assert_eq!(_print_args(&mut rt, " = 3\n"), call(Sink::Print, "1 + 2 = 3"));
    assert_eq!(_eprint_args(&mut rt, "Danger! /!\\\n"), call(Sink::Eprint, "Danger! Danger! /!\\"));
    assert_eq!(rt.stdout.as_ref().unwrap().pending(), "");
    assert_eq!(rt.stderr.as_ref().unwrap().pending(), "");
}

#[test]
fn printing_through_an_unbuffered_writer_is_immediate() {
    let mut rt = Runtime::new();
    set_stdout_unbuffered(&mut rt);
    set_stderr_unbuffered(&mut rt);
    assert_eq!(_print_args(&mut rt, "now"), call(Sink::Print, "now"));
    assert_eq!(_eprint_args(&mut rt, "too"), call(Sink::Eprint, "too"));
}

#[test]
fn printing_with_no_writer_goes_straight_to_the_host() {
    let mut rt = Runtime::new();
    assert_eq!(_print_args(&mut rt, "no newline"), call(Sink::Print, "no newline"));
    assert_eq!(_eprint_args(&mut rt, "a\nb"), call(Sink::Eprint, "a\nb"));
    assert!(rt.stdout.is_none());
    assert!(rt.stderr.is_none());
}

#[test]
fn printing_a_null_byte_sends_nothing() {
    let mut rt = Runtime::new();
    assert_eq!(_print_args(&mut rt, "a\0"), None);
    set_stderr(&mut rt);
    assert_eq!(_eprint_args(&mut rt, "a\0\n"), None);
    assert_eq!(rt.stderr.as_ref().unwrap().pending(), "");
}

#[test]
fn a_panic_is_reported_once_the_hook_is_installed() {
    let payload = Payload::Text(String::from("boom"));
    let mut rt = Runtime::new();
    assert_eq!(rt.panicked(&payload, "file.ext", 10, 5), None);
    set_panic_hook(&mut rt);
    assert_eq!(
        rt.panicked(&payload, "file.ext", 10, 5),
        call(Sink::Trace, "Panicked at 'boom', file.ext:10:5")
    );
    assert_eq!(
        rt.panicked(&Payload::Opaque, "file.ext", 10, 5),
        call(Sink::Trace, "Panicked at 'Box<Any>', file.ext:10:5")
    );
}
