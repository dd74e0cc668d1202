use wasm_glue::printer::split_at_last_newline;
use wasm_glue::{HostCall, Printer, Sink, SinkBridge, Written};

fn call(sink: Sink, text: &str) -> Option<HostCall> {
    let mut bytes = text.as_bytes().to_vec();
    bytes.push(0);
    Some(HostCall { sink, text: bytes })
}

fn line_buffered() -> Printer {
    Printer::new(SinkBridge::new(Sink::Print), true)
}

fn unbuffered() -> Printer {
    Printer::new(SinkBridge::new(Sink::Eprint), false)
}

#[test]
fn a_new_printer_holds_nothing() {
    let printer = line_buffered();
    assert_eq!(printer.pending(), "");
    assert!(printer.is_buffered());
    assert_eq!(printer.sink(), Sink::Print);
    let printer = unbuffered();
    assert_eq!(printer.pending(), "");
    assert!(!printer.is_buffered());
    assert_eq!(printer.sink(), Sink::Eprint);
}

#[test]
fn unbuffered_writes_pass_each_chunk_on() {
    let mut printer = unbuffered();
    for chunk in ["abc", "def\n", "", "\n\n", "g\nh"] {
        let out = printer.write(chunk.as_bytes());
        assert_eq!(out, Written { accepted: chunk.len(), call: call(Sink::Eprint, chunk) });
        assert_eq!(printer.pending(), "");
    }
}

#[test]
fn line_buffered_writes_release_complete_lines() {
    let mut printer = line_buffered();
    assert_eq!(printer.write(b"abc"), Written { accepted: 3, call: None });
    assert_eq!(printer.pending(), "abc");
    assert_eq!(
        printer.write(b"def\n"),
        Written { accepted: 4, call: call(Sink::Print, "abcdef") }
    );
    assert_eq!(printer.pending(), "");
    assert_eq!(printer.write(b"ghi"), Written { accepted: 3, call: None });
    assert_eq!(printer.pending(), "ghi");
    assert_eq!(printer.flush(), call(Sink::Print, "ghi"));
    assert_eq!(printer.pending(), "");
}

#[test]
fn write_str_does_as_write_does() {
    let mut printer = line_buffered();
    assert_eq!(printer.write_str("abc"), None);
    assert_eq!(printer.write_str("def\n"), call(Sink::Print, "abcdef"));
    assert_eq!(printer.write_str("ghi"), None);
    assert_eq!(printer.pending(), "ghi");
}

#[test]
fn the_cut_is_at_the_last_newline() {
    let mut printer = line_buffered();
    assert_eq!(printer.write_str("a\nb\nc"), call(Sink::Print, "a\nb"));
    assert_eq!(printer.pending(), "c");
    assert_eq!(printer.write_str("d\n\n"), call(Sink::Print, "cd\n"));
    assert_eq!(printer.pending(), "");
}

#[test]
fn a_lone_newline_releases_the_empty_line() {
    let mut printer = line_buffered();
    assert_eq!(printer.write_str("\n"), call(Sink::Print, ""));
    assert_eq!(printer.pending(), "");
}

#[test]
fn an_empty_write_changes_nothing_when_line_buffered() {
    let mut printer = line_buffered();
    printer.write_str("abc");
    assert_eq!(printer.write(b""), Written { accepted: 0, call: None });
    assert_eq!(printer.pending(), "abc");
}

#[test]
fn text_is_counted_in_characters_not_bytes() {
    let mut printer = line_buffered();
    assert_eq!(
        printer.write("h\u{e9}\u{20ac}\n\u{1f600}x".as_bytes()),
        Written { accepted: 12, call: call(Sink::Print, "h\u{e9}\u{20ac}") }
    );
    assert_eq!(printer.pending(), "\u{1f600}x");
}

#[test]
fn flush_of_an_empty_buffer_sends_the_empty_string() {
    for mut printer in [line_buffered(), unbuffered()] {
        let sink = printer.sink();
        assert_eq!(printer.flush(), Some(HostCall { sink, text: vec![0] }));
        assert_eq!(printer.pending(), "");
        assert_eq!(printer.flush(), Some(HostCall { sink, text: vec![0] }));
        assert_eq!(printer.pending(), "");
    }
}

#[test]
fn flush_sends_what_is_held_newlines_and_all() {
    let mut printer = line_buffered();
    printer.write_str("a\nbc");
    assert_eq!(printer.pending(), "bc");
    assert_eq!(printer.flush(), call(Sink::Print, "bc"));
    assert_eq!(printer.flush(), call(Sink::Print, ""));
}

#[test]
fn invalid_bytes_become_replacement_characters() {
    let mut printer = unbuffered();
    let out = printer.write(&[b'f', 0xff, b'o']);
    assert_eq!(out.accepted, 3);
    assert_eq!(out.call, call(Sink::Eprint, "f\u{fffd}o"));
}

#[test]
fn a_character_split_over_two_writes_is_not_put_together() {
    let mut printer = line_buffered();
    assert_eq!(printer.write(&[0xc3]), Written { accepted: 1, call: None });
    assert_eq!(printer.write(&[0xa9, b'\n']), Written { accepted: 2, call: call(Sink::Print, "\u{fffd}\u{fffd}") });
}

#[test]
fn a_null_byte_loses_the_text_but_not_the_count() {
    let mut printer = unbuffered();
    assert_eq!(printer.write(b"a\0b"), Written { accepted: 3, call: None });
    assert_eq!(printer.pending(), "");
    assert_eq!(printer.write(b"ok"), Written { accepted: 2, call: call(Sink::Eprint, "ok") });
}

#[test]
fn a_null_byte_in_a_released_line_drops_that_line_only() {
    let mut printer = line_buffered();
    assert_eq!(printer.write(b"a\0b\ncd"), Written { accepted: 6, call: None });
    assert_eq!(printer.pending(), "cd");
    assert_eq!(printer.write(b"\n"), Written { accepted: 1, call: call(Sink::Print, "cd") });
}

#[test]
fn a_null_byte_in_flushed_text_drops_it() {
    let mut printer = line_buffered();
    printer.write_str("a\0");
    assert_eq!(printer.flush(), None);
    assert_eq!(printer.pending(), "");
}

#[test]
fn line_buffering_regroups_and_loses_nothing() {
    let chunks = ["ab", "c\nde", "\n\nf", "", "g\n", "tail"];
    let mut printer = line_buffered();
    let mut seen: Vec<String> = Vec::new();
    for chunk in chunks {
        if let Some(call) = printer.write(chunk.as_bytes()).call {
            assert_eq!(call.sink, Sink::Print);
            let (last, text) = call.text.split_last().unwrap();
            assert_eq!(*last, 0);
            seen.push(String::from_utf8(text.to_vec()).unwrap());
        }
    }
    assert_eq!(seen, vec!["abc", "de\n", "fg"]);
    assert_eq!(printer.pending(), "tail");
    if let Some(call) = printer.flush() {
        let (_, text) = call.text.split_last().unwrap();
        seen.push(String::from_utf8(text.to_vec()).unwrap());
    }
    assert_eq!(seen.join("\n"), chunks.concat());
}

#[test]
fn text_without_a_newline_is_not_cut() {
    assert_eq!(split_at_last_newline(""), None);
    assert_eq!(split_at_last_newline("abc"), None);
    assert_eq!(split_at_last_newline("\u{e9}\u{20ac} \r"), None);
}

#[test]
fn text_is_cut_around_its_last_newline() {
    assert_eq!(split_at_last_newline("\n"), Some(("", "")));
    assert_eq!(split_at_last_newline("a\nb"), Some(("a", "b")));
    assert_eq!(split_at_last_newline("a\nb\nc"), Some(("a\nb", "c")));
    assert_eq!(split_at_last_newline("a\n\n"), Some(("a\n", "")));
    assert_eq!(split_at_last_newline("\nabc"), Some(("", "abc")));
    assert_eq!(
        split_at_last_newline("\u{e9}\n\u{1f600}\n\u{20ac}"),
        Some(("\u{e9}\n\u{1f600}", "\u{20ac}"))
    );
}
