use bytes::BytesMut;
use jj_manage::lines::{flush_rest, show_lines, tag_line};

fn tagged(name: &str, text: &str) -> String {
    format!("\x1b[2m{name}>\x1b[0m {text}")
}

#[test]
fn partial_last_line_waits_for_exit() {
    let mut buf = BytesMut::from(&b"a\nb\nc"[..]);
    let shown = show_lines("gh/u/r", &mut buf);
    assert_eq!(shown, vec![tagged("gh/u/r", "a"), tagged("gh/u/r", "b")]);
    assert_eq!(&buf[..], b"c");
    assert_eq!(flush_rest("gh/u/r", &mut buf), Some(tagged("gh/u/r", "c")));
    assert!(buf.is_empty());
}

#[test]
fn line_completed_by_later_read() {
    let mut buf = BytesMut::from(&b"hel"[..]);
    assert!(show_lines("j", &mut buf).is_empty());
    assert_eq!(&buf[..], b"hel");
    buf.extend_from_slice(b"lo\nwor");
    assert_eq!(show_lines("j", &mut buf), vec![tagged("j", "hello")]);
    assert_eq!(&buf[..], b"wor");
}

#[test]
fn trailing_newline_run_prints_no_empty_lines() {
    let mut buf = BytesMut::from(&b"a\n\n\n"[..]);
    assert_eq!(show_lines("j", &mut buf), vec![tagged("j", "a")]);
    assert!(buf.is_empty());
}

#[test]
fn only_newlines_print_nothing() {
    let mut buf = BytesMut::from(&b"\n\n"[..]);
    assert!(show_lines("j", &mut buf).is_empty());
    assert!(buf.is_empty());
}

#[test]
fn inner_blank_line_is_kept() {
    let mut buf = BytesMut::from(&b"a\n\nb\n"[..]);
    assert_eq!(show_lines("j", &mut buf), vec![tagged("j", "a"), tagged("j", ""), tagged("j", "b")]);
}

#[test]
fn newline_run_before_tail_keeps_tail() {
    let mut buf = BytesMut::from(&b"a\n\nb"[..]);
    assert_eq!(show_lines("j", &mut buf), vec![tagged("j", "a")]);
    assert_eq!(&buf[..], b"b");
}

#[test]
fn empty_buffer_flushes_nothing() {
    let mut buf = BytesMut::new();
    assert!(show_lines("j", &mut buf).is_empty());
    assert_eq!(flush_rest("j", &mut buf), None);
}

#[test]
fn invalid_utf8_is_replaced() {
    assert_eq!(tag_line("j", &[b'o', 0xff, b'k']), tagged("j", "o\u{fffd}k"));
}
