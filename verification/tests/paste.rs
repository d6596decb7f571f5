use oryxis_terminal::paste::wrap_paste;

#[test]
fn widget_raw_when_mode_disabled() {
    let text = "line one\nline two\n";
    assert_eq!(wrap_paste(text, false), text.as_bytes());
}

#[test]
fn widget_wraps_when_mode_enabled() {
    let out = wrap_paste("hello\nworld", true);
    assert_eq!(out, b"\x1b[200~hello\nworld\x1b[201~");
}

#[test]
fn widget_strips_embedded_markers_so_payload_cannot_break_out() {
    let out = wrap_paste("a\x1b[201~b\x1b[200~c", true);
    assert_eq!(out, b"\x1b[200~abc\x1b[201~");
}

#[test]
fn clipboard_raw_when_mode_disabled() {
    let text = "line one\nline two\n";
    assert_eq!(wrap_paste(text, false), text.as_bytes());
}

#[test]
fn clipboard_wraps_when_mode_enabled() {
    let out = wrap_paste("hello\nworld", true);
    assert_eq!(out, b"\x1b[200~hello\nworld\x1b[201~");
}

#[test]
fn clipboard_strips_embedded_markers_so_payload_cannot_break_out() {
    let out = wrap_paste("a\x1b[201~b\x1b[200~c", true);
    assert_eq!(out, b"\x1b[200~abc\x1b[201~");
}

#[test]
fn raw_paste_keeps_markers_and_multibyte_text() {
    let text = "é\x1b[201~ü";
    assert_eq!(wrap_paste(text, false), text.as_bytes());
}

#[test]
fn bracketed_paste_of_marker_free_text_is_verbatim() {
    let text = "ls -la\nécho ✓";
    let mut expected = b"\x1b[200~".to_vec();
    expected.extend_from_slice(text.as_bytes());
    expected.extend_from_slice(b"\x1b[201~");
    assert_eq!(wrap_paste(text, true), expected);
}

#[test]
fn empty_bracketed_paste_is_just_the_markers() {
    assert_eq!(wrap_paste("", true), b"\x1b[200~\x1b[201~");
    assert_eq!(wrap_paste("", false), b"");
}

#[test]
fn markers_spliced_by_stripping_are_stripped_too() {
    // Removing a start marker splices an end marker together: removed too.
    let out = wrap_paste("x\x1b[20\x1b[200~1~y", true);
    assert_eq!(out, b"\x1b[200~xy\x1b[201~");
    // Removing an end marker splices another end marker: removed too, so
    // the payload cannot close the bracket early.
    let out = wrap_paste("\x1b[20\x1b[201~1~", true);
    assert_eq!(out, b"\x1b[200~\x1b[201~");
    // Nested splices peel off one layer per round.
    let out = wrap_paste("a\x1b[20\x1b[20\x1b[200~0~1~b", true);
    assert_eq!(out, b"\x1b[200~ab\x1b[201~");
}
