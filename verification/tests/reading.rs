use llmman::cmd::readline::{ReadEvent, Readline, ReadlineError, Reading};

fn key(r: &mut Readline, byte: u8, more: bool) -> Reading {
    r.readline("> ", ReadEvent::Byte { byte, more })
}

/// Types bytes one at a time; nothing is waiting behind any of them.
fn type_bytes(r: &mut Readline, bytes: &[u8]) -> Reading {
    let mut last = Reading { outcome: None, echo: vec![] };
    for b in bytes {
        last = key(r, *b, false);
    }
    last
}

/// Pastes bytes: others are waiting behind all but the last.
fn paste(r: &mut Readline, bytes: &[u8]) -> Vec<Reading> {
    bytes.iter().enumerate().map(|(i, b)| key(r, *b, i + 1 < bytes.len())).collect()
}

fn line(r: Reading) -> String {
    match r.outcome {
        Some(Ok(Some(l))) => l,
        other => panic!("no line: {other:?}"),
    }
}

#[test]
fn enter_submits_what_was_typed() {
    let mut r = Readline::new();
    assert!(type_bytes(&mut r, b"hi\tthere").outcome.is_none());
    let done = key(&mut r, 13, false);
    assert_eq!(done.echo, b"\n");
    assert_eq!(line(done), "hi\tthere");
    assert_eq!(line(type_bytes(&mut r, b"\r")), "");
}

#[test]
fn typed_bytes_are_echoed_and_controls_are_not() {
    let mut r = Readline::new();
    assert_eq!(key(&mut r, b'a', false).echo, b"a");
    assert_eq!(key(&mut r, 1, false).echo, b"");
    assert_eq!(key(&mut r, 0xc3, false).echo, vec![0xc3]);
    key(&mut r, 0xa9, false);
    assert_eq!(line(key(&mut r, 13, false)), "aé");
}

#[test]
fn invalid_bytes_become_replacement_characters() {
    let mut r = Readline::new();
    assert_eq!(line(type_bytes(&mut r, b"a\xffb\r")), "a\u{fffd}b");
}

#[test]
fn ctrl_j_continues_on_a_new_line() {
    let mut r = Readline::new();
    type_bytes(&mut r, b"one");
    let n = key(&mut r, 10, false);
    assert!(n.outcome.is_none());
    assert_eq!(n.echo, b"\n. ");
    type_bytes(&mut r, b"two\n");
    assert_eq!(line(type_bytes(&mut r, b"three\r")), "one\ntwo\nthree");
}

#[test]
fn a_pasted_line_feed_submits() {
    let mut r = Readline::new();
    let mut out = paste(&mut r, b"ab\n");
    assert_eq!(line(out.pop().unwrap()), "ab");
    // The first byte of the next paste starts anew.
    let mut out = paste(&mut r, b"x\ny\n");
    assert_eq!(line(out.pop().unwrap()), "y");
    assert_eq!(line(out.remove(1)), "x");
}

#[test]
fn draining_ends_with_the_byte_behind_the_last() {
    let mut r = Readline::new();
    key(&mut r, b'a', true);
    key(&mut r, b'b', false);
    // Typed: no longer draining.
    assert!(key(&mut r, 10, false).outcome.is_none());
}

#[test]
fn backspace_removes_a_whole_character() {
    let mut r = Readline::new();
    type_bytes(&mut r, "aé".as_bytes());
    assert_eq!(key(&mut r, 127, false).echo, b"\x08 \x08");
    assert_eq!(line(key(&mut r, 13, false)), "a");
    assert_eq!(key(&mut r, 127, false).echo, b"");
}

#[test]
fn backspace_goes_back_to_the_line_above() {
    let mut r = Readline::new();
    type_bytes(&mut r, b"one\n");
    let back = key(&mut r, 127, false);
    assert_eq!(back.echo, b"\r\x1b[K\x1b[A\r\x1b[K> one");
    assert_eq!(line(type_bytes(&mut r, b"!\r")), "one!");
}

#[test]
fn ctrl_c_interrupts_and_clears() {
    let mut r = Readline::new();
    type_bytes(&mut r, b"one\ntwo");
    let i = key(&mut r, 3, false);
    assert!(matches!(i.outcome, Some(Err(ReadlineError::Interrupted))));
    assert_eq!(i.echo, b"\n");
    assert_eq!(line(type_bytes(&mut r, b"x\r")), "x");
}

#[test]
fn ctrl_d_ends_an_empty_line_only() {
    let mut r = Readline::new();
    type_bytes(&mut r, b"a");
    assert!(key(&mut r, 4, false).outcome.is_none());
    key(&mut r, 127, false);
    assert!(matches!(key(&mut r, 4, false).outcome, Some(Ok(None))));
    type_bytes(&mut r, b"\n");
    assert!(key(&mut r, 4, false).outcome.is_none());
}

#[test]
fn the_end_of_the_input_ends_the_line() {
    let mut r = Readline::new();
    type_bytes(&mut r, b"abc");
    let end = r.readline("> ", ReadEvent::Closed);
    assert!(matches!(end.outcome, Some(Ok(None))));
    assert_eq!(end.echo, b"");
}

#[test]
fn escape_sequences_leave_the_text_alone() {
    let mut r = Readline::new();
    type_bytes(&mut r, b"a\x1b[Ab\x1b[3~c\x1bxd");
    assert_eq!(line(key(&mut r, 13, false)), "abcd");
}

#[test]
fn bracketed_pastes_are_noticed() {
    let mut r = Readline::new();
    assert!(!r.pasting());
    let out = paste(&mut r, b"\x1b[200~line\n");
    assert!(r.pasting());
    assert_eq!(line(out.into_iter().last().unwrap()), "line");
    paste(&mut r, b"rest\x1b[201~");
    assert!(!r.pasting());
    assert_eq!(line(key(&mut r, 13, false)), "rest");
}
