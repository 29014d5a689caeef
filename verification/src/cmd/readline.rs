//! Reading a line from a terminal in raw mode.
//!
//! The terminal hands over one byte at a time, together with whether more
//! bytes are waiting.  While bytes are waiting a paste is being drained, and a
//! pasted line feed submits the line as Enter does; otherwise a line feed is
//! Ctrl-J, which continues the input on a new line.

use vstd::prelude::*;
use vstd::utf8;
use crate::text;

verus! {

/// Ctrl-C.
pub const CHAR_INTERRUPT: u8 = 3;

/// Ctrl-D.
pub const CHAR_EOF: u8 = 4;

/// Line feed: Ctrl-J or a pasted end of line.
pub const CHAR_CTRL_J: u8 = 10;

/// Carriage return: the Enter key.
pub const CHAR_ENTER: u8 = 13;

/// Start of an escape sequence.
pub const CHAR_ESC: u8 = 27;

/// `[`, the second byte of an escape sequence.
pub const CHAR_ESCAPE_EX: u8 = 91;

/// `2`, the third byte of the sequences around a paste.
pub const CHAR_BRACKETED_PASTE: u8 = 50;

/// The Backspace key.
pub const CHAR_BACKSPACE: u8 = 127;

/// Why no line was read.
#[derive(Debug, Clone, Copy, PartialEq, Eq, Structural)]
pub enum ReadlineError {
    /// The user pressed Ctrl-C.
    Interrupted,
}

/// Where in an escape sequence the input stands.
#[derive(Debug, Clone, Copy, PartialEq, Eq, Structural)]
pub enum KeyMode {
    /// Outside of a sequence.
    Plain,
    /// Behind `ESC`.
    Escape,
    /// Behind `ESC [`.
    Bracket,
    /// Behind `ESC [ 2`.
    Code,
    /// Behind `ESC [ 2` and one more byte.
    Code1(u8),
    /// Behind `ESC [ 2` and two more bytes.
    Code2(u8, u8),
    /// Before the final byte of a sequence that means nothing here.
    Final,
}

/// What the terminal has to tell.
#[derive(Debug, Clone, Copy)]
pub enum ReadEvent {
    /// A byte was read; `more` says whether others are waiting behind it.
    Byte { byte: u8, more: bool },
    /// There is no more input.
    Closed,
}

/// What a step of reading leads to.
#[derive(Debug)]
pub struct Reading {
    /// The line, the end of the input or the interruption; `None` while the
    /// line is not complete.
    pub outcome: Option<Result<Option<String>, ReadlineError>>,
    /// What the terminal has to show.
    pub echo: Vec<u8>,
}

/// A line that is being read.
#[derive(Debug)]
pub struct Readline {
    buf: Vec<u8>,
    pasted_lines: Vec<String>,
    draining: bool,
    stop_draining: bool,
    mode: KeyMode,
    pasting: bool,
}

/// What is known of a line that is being read.
pub struct LineState {
    /// The bytes of the current line.
    pub buf: Seq<u8>,
    /// The lines above the current one.
    pub above: Seq<Seq<char>>,
    /// A paste is being drained.
    pub draining: bool,
    /// Draining ends with the next byte.
    pub stop_draining: bool,
    pub mode: KeyMode,
    /// The input stands between the start and the end of a bracketed paste.
    pub pasting: bool,
}

/// What reading leads to.
pub enum Outcome {
    Pending,
    Line(Seq<char>),
    End,
    Interrupted,
}

impl View for Readline {
    type V = LineState;

    closed spec fn view(&self) -> LineState {
        LineState {
            buf: self.buf@,
            above: text::texts(self.pasted_lines@),
            draining: self.draining,
            stop_draining: self.stop_draining,
            mode: self.mode,
            pasting: self.pasting,
        }
    }
}

impl Reading {
    /// What the step led to.
    pub open spec fn result(self) -> Outcome {
        match self.outcome {
            None => Outcome::Pending,
            Some(Ok(Some(line))) => Outcome::Line(line@),
            Some(Ok(None)) => Outcome::End,
            Some(Err(_)) => Outcome::Interrupted,
        }
    }
}

/// The state before the first byte of a line.
pub open spec fn fresh(pasting: bool) -> LineState {
    LineState {
        buf: Seq::<u8>::empty(),
        above: Seq::<Seq<char>>::empty(),
        draining: false,
        stop_draining: false,
        mode: KeyMode::Plain,
        pasting,
    }
}

/// The buffer without its last character: the bytes from the last one on that
/// starts a character are gone.
pub open spec fn without_last_char(buf: Seq<u8>) -> Seq<u8>
    decreases buf.len(),
{
    if buf.len() == 0 {
        buf
    } else if utf8::is_continuation_byte(buf.last()) {
        without_last_char(buf.drop_last())
    } else {
        buf.drop_last()
    }
}

/// The whole input: the lines above and the current one.
pub open spec fn whole(s: LineState) -> Seq<char> {
    if s.above.len() == 0 {
        text::decoded(s.buf)
    } else {
        text::joined(s.above, "\n"@) + "\n"@ + text::decoded(s.buf)
    }
}

/// Whether a paste is being drained, once a byte was read.
pub open spec fn drained(s: LineState, more: bool) -> LineState {
    let still = s.draining && !s.stop_draining;
    LineState { draining: more || still, stop_draining: !more && still, ..s }
}

/// The state, what came of it and what is shown.
pub struct Next {
    pub state: LineState,
    pub outcome: Outcome,
    pub echo: Seq<u8>,
}

/// Nothing came of it and nothing is shown.
pub open spec fn quietly(state: LineState) -> Next {
    Next { state, outcome: Outcome::Pending, echo: Seq::<u8>::empty() }
}

/// A finished line: a new one can start.
pub open spec fn finished(s: LineState, outcome: Outcome) -> Next {
    Next { state: fresh(s.pasting), outcome, echo: seq![10u8] }
}

/// Effect of a byte inside of an escape sequence.
pub open spec fn next_in_sequence(s: LineState, byte: u8, more: bool) -> LineState {
    match s.mode {
        KeyMode::Plain => s,
        KeyMode::Escape => LineState {
            mode: if byte == CHAR_ESCAPE_EX {
                KeyMode::Bracket
            } else {
                KeyMode::Plain
            },
            ..drained(s, more)
        },
        KeyMode::Bracket => LineState {
            mode: if byte == CHAR_BRACKETED_PASTE {
                KeyMode::Code
            } else if byte == 51 || byte == 53 || byte == 54 {
                KeyMode::Final
            } else {
                KeyMode::Plain
            },
            ..drained(s, more)
        },
        KeyMode::Code => LineState { mode: KeyMode::Code1(byte), ..s },
        KeyMode::Code1(a) => LineState { mode: KeyMode::Code2(a, byte), ..s },
        KeyMode::Code2(a, b) => LineState {
            mode: KeyMode::Plain,
            pasting: if a == 48 && b == 48 && byte == 126 {
                true
            } else if a == 48 && b == 49 && byte == 126 {
                false
            } else {
                s.pasting
            },
            draining: s.draining || more,
            ..s
        },
        KeyMode::Final => LineState { mode: KeyMode::Plain, ..s },
    }
}

/// Effect of a byte outside of escape sequences.
pub open spec fn next_plain(before: LineState, prompt: Seq<char>, byte: u8, more: bool) -> Next {
    let s = drained(before, more);
    if byte == CHAR_INTERRUPT {
        finished(s, Outcome::Interrupted)
    } else if byte == CHAR_EOF {
        if s.buf.len() == 0 && s.above.len() == 0 {
            finished(s, Outcome::End)
        } else {
            quietly(s)
        }
    } else if byte == CHAR_ESC {
        quietly(LineState { mode: KeyMode::Escape, ..s })
    } else if byte == CHAR_BACKSPACE {
        if s.buf.len() > 0 {
            Next {
                state: LineState { buf: without_last_char(s.buf), ..s },
                outcome: Outcome::Pending,
                echo: seq![8u8, 32u8, 8u8],
            }
        } else if s.above.len() > 0 {
            Next {
                state: LineState {
                    buf: utf8::encode_utf8(s.above.last()),
                    above: s.above.drop_last(),
                    ..s
                },
                outcome: Outcome::Pending,
                echo: utf8::encode_utf8("\r\x1b[K\x1b[A\r\x1b[K"@) + utf8::encode_utf8(prompt)
                    + utf8::encode_utf8(s.above.last()),
            }
        } else {
            quietly(s)
        }
    } else if byte == CHAR_CTRL_J && !s.draining {
        Next {
            state: LineState {
                buf: Seq::<u8>::empty(),
                above: s.above.push(text::decoded(s.buf)),
                ..s
            },
            outcome: Outcome::Pending,
            echo: seq![10u8, 46u8, 32u8],
        }
    } else if byte == CHAR_CTRL_J || byte == CHAR_ENTER {
        finished(s, Outcome::Line(whole(s)))
    } else if byte >= 32 || byte == 9 {
        Next {
            state: LineState { buf: s.buf.push(byte), ..s },
            outcome: Outcome::Pending,
            echo: seq![byte],
        }
    } else {
        quietly(s)
    }
}

/// Effect of a byte.
pub open spec fn next(s: LineState, prompt: Seq<char>, byte: u8, more: bool) -> Next {
    if s.mode == KeyMode::Plain {
        next_plain(s, prompt, byte, more)
    } else {
        quietly(next_in_sequence(s, byte, more))
    }
}

/// Effect of an event: the end of the input ends the line without one.
pub open spec fn after_event(s: LineState, prompt: Seq<char>, event: ReadEvent) -> Next {
    match event {
        ReadEvent::Byte { byte, more } => next(s, prompt, byte, more),
        ReadEvent::Closed => Next {
            state: fresh(s.pasting),
            outcome: Outcome::End,
            echo: Seq::<u8>::empty(),
        },
    }
}

fn extend(v: &mut Vec<u8>, s: &str)
    ensures
        final(v)@ == old(v)@ + utf8::encode_utf8(s@),
{
    let b: &[u8] = s.as_bytes();
    let ghost before = v@;
    let mut i: usize = 0;
    while i < b.len()
        invariant
            i <= b@.len(),
            v@ == before + b@.subrange(0, i as int),
        decreases b@.len() - i,
    {
        v.push(b[i]);
        i += 1;
        assert(v@ =~= before + b@.subrange(0, i as int));
    }
    assert(b@.subrange(0, i as int) =~= b@);
}

impl Readline {
    /// Before the first line.
    pub fn new() -> (r: Self)
        ensures
            r@ == fresh(false),
    {
        let r = Readline {
            buf: Vec::new(),
            pasted_lines: Vec::new(),
            draining: false,
            stop_draining: false,
            mode: KeyMode::Plain,
            pasting: false,
        };
        assert(r@.above =~= Seq::<Seq<char>>::empty());
        r
    }

    /// Whether the input stands inside of a bracketed paste.
    pub fn pasting(&self) -> (r: bool)
        ensures
            r == self@.pasting,
    {
        self.pasting
    }

    fn reset(&mut self)
        ensures
            final(self)@ == fresh(old(self)@.pasting),
    {
        self.buf = Vec::new();
        self.pasted_lines = Vec::new();
        self.draining = false;
        self.stop_draining = false;
        self.mode = KeyMode::Plain;
        assert(self@.above =~= Seq::<Seq<char>>::empty());
    }

    fn assemble(&self) -> (r: String)
        ensures
            r@ == whole(self@),
    {
        let last: String = text::decode_lossy(self.buf.as_slice());
        if self.pasted_lines.is_empty() {
            last
        } else {
            let prefix: String = text::join(&self.pasted_lines, "\n");
            text::concat3(prefix.as_str(), "\n", last.as_str())
        }
    }

    fn drop_last_char(&mut self)
        ensures
            final(self)@ == (LineState {
                buf: without_last_char(old(self)@.buf),
                ..old(self)@
            }),
    {
        let ghost whole_buf = self.buf@;
        while self.buf.len() > 0 && 0x80 <= self.buf[self.buf.len() - 1] && self.buf[self.buf.len()
            - 1] <= 0xbf
            invariant
                without_last_char(self.buf@) == without_last_char(whole_buf),
                self@ == (LineState { buf: self.buf@, ..old(self)@ }),
            decreases self.buf.len(),
        {
            let _ = self.buf.pop();
        }
        let _ = self.buf.pop();
    }

    fn note_waiting(&mut self, more: bool)
        ensures
            final(self)@ == drained(old(self)@, more),
    {
        if self.stop_draining {
            self.draining = false;
            self.stop_draining = false;
        }
        if more {
            self.draining = true;
        } else if self.draining {
            self.stop_draining = true;
        }
    }

    fn sequence_byte(&mut self, byte: u8, more: bool)
        requires
            old(self)@.mode != KeyMode::Plain,
        ensures
            final(self)@ == next_in_sequence(old(self)@, byte, more),
    {
        match self.mode {
            KeyMode::Plain => {},
            KeyMode::Escape => {
                self.note_waiting(more);
                self.mode = if byte == CHAR_ESCAPE_EX {
                    KeyMode::Bracket
                } else {
                    KeyMode::Plain
                };
            },
            KeyMode::Bracket => {
                self.note_waiting(more);
                self.mode = if byte == CHAR_BRACKETED_PASTE {
                    KeyMode::Code
                } else if byte == 51 || byte == 53 || byte == 54 {
                    KeyMode::Final
                } else {
                    KeyMode::Plain
                };
            },
            KeyMode::Code => {
                self.mode = KeyMode::Code1(byte);
            },
            KeyMode::Code1(a) => {
                self.mode = KeyMode::Code2(a, byte);
            },
            KeyMode::Code2(a, b) => {
                if a == 48 && b == 48 && byte == 126 {
                    self.pasting = true;
                } else if a == 48 && b == 49 && byte == 126 {
                    self.pasting = false;
                }
                if more {
                    self.draining = true;
                }
                self.mode = KeyMode::Plain;
            },
            KeyMode::Final => {
                self.mode = KeyMode::Plain;
            },
        }
    }

    fn backspace(&mut self, prompt: &str) -> (echo: Vec<u8>)
        requires
            old(self)@.mode == KeyMode::Plain,
        ensures
            old(self)@.buf.len() > 0 ==> final(self)@ == (LineState {
                buf: without_last_char(old(self)@.buf),
                ..old(self)@
            }) && echo@ == seq![8u8, 32u8, 8u8],
            old(self)@.buf.len() == 0 && old(self)@.above.len() > 0 ==> final(self)@ == (LineState {
                buf: utf8::encode_utf8(old(self)@.above.last()),
                above: old(self)@.above.drop_last(),
                ..old(self)@
            }) && echo@ == utf8::encode_utf8("\r\x1b[K\x1b[A\r\x1b[K"@) + utf8::encode_utf8(prompt@)
                + utf8::encode_utf8(old(self)@.above.last()),
            old(self)@.buf.len() == 0 && old(self)@.above.len() == 0 ==> final(self)@ == old(self)@
                && echo@ == Seq::<u8>::empty(),
    {
        let mut echo: Vec<u8> = Vec::new();
        if !self.buf.is_empty() {
            self.drop_last_char();
            echo.push(8);
            echo.push(32);
            echo.push(8);
            assert(echo@ =~= seq![8u8, 32u8, 8u8]);
        } else {
            let ghost lines = self.pasted_lines@;
            match self.pasted_lines.pop() {
                Some(prev) => {
                    extend(&mut echo, "\r\x1b[K\x1b[A\r\x1b[K");
                    extend(&mut echo, prompt);
                    extend(&mut echo, prev.as_str());
                    let mut bytes: Vec<u8> = Vec::new();
                    extend(&mut bytes, prev.as_str());
                    self.buf = bytes;
                    assert(text::texts(lines).last() == prev@);
                    assert(self@.above =~= text::texts(lines).drop_last());
                    assert(self@.buf =~= utf8::encode_utf8(prev@));
                    assert(echo@ =~= utf8::encode_utf8("\r\x1b[K\x1b[A\r\x1b[K"@)
                        + utf8::encode_utf8(prompt@) + utf8::encode_utf8(prev@));
                },
                None => {},
            }
        }
        echo
    }

    fn plain_byte(&mut self, prompt: &str, byte: u8, more: bool) -> (r: Reading)
        requires
            old(self)@.mode == KeyMode::Plain,
        ensures
            ({
                let n = next_plain(old(self)@, prompt@, byte, more);
                &&& final(self)@ == n.state
                &&& r.result() == n.outcome
                &&& r.echo@ == n.echo
            }),
    {
        self.note_waiting(more);
        let mut echo: Vec<u8> = Vec::new();
        let mut outcome: Option<Result<Option<String>, ReadlineError>> = None;
        if byte == CHAR_INTERRUPT {
            self.reset();
            echo.push(10);
            outcome = Some(Err(ReadlineError::Interrupted));
        } else if byte == CHAR_EOF {
            if self.buf.is_empty() && self.pasted_lines.is_empty() {
                self.reset();
                echo.push(10);
                outcome = Some(Ok(None));
            }
        } else if byte == CHAR_ESC {
            self.mode = KeyMode::Escape;
        } else if byte == CHAR_BACKSPACE {
            echo = self.backspace(prompt);
        } else if byte == CHAR_CTRL_J && !self.draining {
            let ghost lines = self.pasted_lines@;
            let line: String = text::decode_lossy(self.buf.as_slice());
            self.pasted_lines.push(line);
            self.buf = Vec::new();
            assert(self@.above =~= text::texts(lines).push(line@));
            assert(self@.buf =~= Seq::<u8>::empty());
            echo.push(10);
            echo.push(46);
            echo.push(32);
            assert(echo@ =~= seq![10u8, 46u8, 32u8]);
        } else if byte == CHAR_CTRL_J || byte == CHAR_ENTER {
            let line: String = self.assemble();
            self.reset();
            echo.push(10);
            outcome = Some(Ok(Some(line)));
        } else if byte >= 32 || byte == 9 {
            self.buf.push(byte);
            echo.push(byte);
        }
        assert(echo@.len() == 1 ==> echo@ =~= seq![echo@[0]]);
        Reading { outcome, echo }
    }

    /// Takes in what the terminal has to tell.  A finished line, the end of
    /// the input and an interruption leave everything ready for the next line.
    pub fn readline(&mut self, prompt: &str, event: ReadEvent) -> (r: Reading)
        ensures
            ({
                let n = after_event(old(self)@, prompt@, event);
                &&& final(self)@ == n.state
                &&& r.result() == n.outcome
                &&& r.echo@ == n.echo
            }),
    {
        match event {
            ReadEvent::Byte { byte, more } => {
                if self.mode == KeyMode::Plain {
                    self.plain_byte(prompt, byte, more)
                } else {
                    self.sequence_byte(byte, more);
                    let r = Reading { outcome: None, echo: Vec::new() };
                    assert(r.echo@ =~= Seq::<u8>::empty());
                    r
                }
            },
            ReadEvent::Closed => {
                self.reset();
                let r = Reading { outcome: Some(Ok(None)), echo: Vec::new() };
                assert(r.echo@ =~= Seq::<u8>::empty());
                r
            },
        }
    }
}

// ---------------------------------------------------------------------------
// Laws
// ---------------------------------------------------------------------------

/// A byte that stands for itself.
pub open spec fn is_text_byte(byte: u8) -> bool {
    byte == 9 || (byte >= 32 && byte != CHAR_BACKSPACE)
}

/// The state after a number of bytes.
pub open spec fn after_bytes(
    s: LineState,
    prompt: Seq<char>,
    bytes: Seq<u8>,
    waiting: Seq<bool>,
) -> LineState
    decreases bytes.len(),
{
    if bytes.len() == 0 {
        s
    } else {
        next(
            after_bytes(s, prompt, bytes.drop_last(), waiting.drop_last()),
            prompt,
            bytes.last(),
            waiting.last(),
        ).state
    }
}

proof fn lemma_text_bytes(s: LineState, prompt: Seq<char>, bytes: Seq<u8>, waiting: Seq<bool>)
    requires
        s.mode == KeyMode::Plain,
        waiting.len() == bytes.len(),
        forall|i: int| 0 <= i < bytes.len() ==> is_text_byte(#[trigger] bytes[i]),
    ensures
        ({
            let t = after_bytes(s, prompt, bytes, waiting);
            &&& t.buf == s.buf + bytes
            &&& t.above == s.above
            &&& t.mode == KeyMode::Plain
            &&& t.pasting == s.pasting
        }),
    decreases bytes.len(),
{
    if bytes.len() > 0 {
        assert(is_text_byte(bytes[bytes.len() - 1]));
        assert forall|i: int| 0 <= i < bytes.drop_last().len() implies is_text_byte(
            #[trigger] bytes.drop_last()[i],
        ) by {
            assert(bytes.drop_last()[i] == bytes[i]);
        }
        lemma_text_bytes(s, prompt, bytes.drop_last(), waiting.drop_last());
        assert((s.buf + bytes.drop_last()).push(bytes.last()) =~= s.buf + bytes);
    } else {
        assert(s.buf + bytes =~= s.buf);
    }
}

/// The line that is read is the text that was typed before Enter, whatever was
/// waiting meanwhile.
pub proof fn typed_text_is_read(
    pasting: bool,
    prompt: Seq<char>,
    bytes: Seq<u8>,
    waiting: Seq<bool>,
    more: bool,
)
    requires
        waiting.len() == bytes.len(),
        forall|i: int| 0 <= i < bytes.len() ==> is_text_byte(#[trigger] bytes[i]),
    ensures
        next(after_bytes(fresh(pasting), prompt, bytes, waiting), prompt, CHAR_ENTER, more).outcome
            == Outcome::Line(text::decoded(bytes)),
        next(after_bytes(fresh(pasting), prompt, bytes, waiting), prompt, CHAR_ENTER, more).state
            == fresh(pasting),
{
    lemma_text_bytes(fresh(pasting), prompt, bytes, waiting);
    assert(fresh(pasting).buf + bytes =~= bytes);
}

proof fn lemma_without_last_char(buf: Seq<u8>, c: Seq<u8>)
    requires
        c.len() > 0,
        !utf8::is_continuation_byte(c[0]),
        forall|i: int| 0 < i < c.len() ==> utf8::is_continuation_byte(#[trigger] c[i]),
    ensures
        without_last_char(buf + c) == buf,
    decreases c.len(),
{
    let all = buf + c;
    assert(all.last() == c[c.len() - 1]);
    assert(all.drop_last() =~= buf + c.drop_last());
    if c.len() > 1 {
        lemma_without_last_char(buf, c.drop_last());
    } else {
        assert(all.drop_last() =~= buf);
    }
}

/// Backspace takes back the character typed last, however many bytes it has.
pub proof fn backspace_undoes_a_character(
    s: LineState,
    prompt: Seq<char>,
    c: Seq<u8>,
    waiting: Seq<bool>,
    more: bool,
)
    requires
        s.mode == KeyMode::Plain,
        c.len() > 0,
        waiting.len() == c.len(),
        is_text_byte(c[0]),
        !utf8::is_continuation_byte(c[0]),
        forall|i: int| 0 < i < c.len() ==> utf8::is_continuation_byte(#[trigger] c[i]),
    ensures
        ({
            let n = next(after_bytes(s, prompt, c, waiting), prompt, CHAR_BACKSPACE, more);
            &&& n.outcome == Outcome::Pending
            &&& n.state.buf == s.buf
            &&& n.state.above == s.above
            &&& n.state.pasting == s.pasting
        }),
{
    assert forall|i: int| 0 <= i < c.len() implies is_text_byte(#[trigger] c[i]) by {
        if i > 0 {
            assert(utf8::is_continuation_byte(c[i]));
        }
    }
    lemma_text_bytes(s, prompt, c, waiting);
    lemma_without_last_char(s.buf, c);
}

/// Backspace at the start of a continued line goes back to the line above.
pub proof fn backspace_joins_lines(s: LineState, prompt: Seq<char>, more: bool)
    requires
        s.mode == KeyMode::Plain,
        !drained(s, false).draining,
    ensures
        ({
            let n = next(s, prompt, CHAR_CTRL_J, false);
            let m = next(n.state, prompt, CHAR_BACKSPACE, more);
            &&& n.outcome == Outcome::Pending
            &&& m.outcome == Outcome::Pending
            &&& m.state.buf == utf8::encode_utf8(text::decoded(s.buf))
            &&& m.state.above == s.above
        }),
{
    let n = next(s, prompt, CHAR_CTRL_J, false);
    assert(n.state.above.drop_last() =~= s.above);
}

/// A line feed submits the line while a paste is drained, as Enter does.
pub proof fn pasted_newline_submits(s: LineState, prompt: Seq<char>)
    requires
        s.mode == KeyMode::Plain,
    ensures
        next(s, prompt, CHAR_CTRL_J, true) == next(s, prompt, CHAR_ENTER, true),
        next(s, prompt, CHAR_CTRL_J, true).outcome == Outcome::Line(whole(s)),
{
}

/// Ctrl-C gives the line up at once, outside of an escape sequence.
pub proof fn interrupt_gives_up_the_line(s: LineState, prompt: Seq<char>, more: bool)
    requires
        s.mode == KeyMode::Plain,
    ensures
        next(s, prompt, CHAR_INTERRUPT, more).outcome == Outcome::Interrupted,
        next(s, prompt, CHAR_INTERRUPT, more).state == fresh(s.pasting),
{
}

/// The sequences around a bracketed paste switch pasting on and off and leave
/// the text alone.
pub proof fn paste_brackets_are_noticed(s: LineState, prompt: Seq<char>, start: bool, waiting: Seq<
    bool,
>)
    requires
        s.mode == KeyMode::Plain,
        waiting.len() == 6,
    ensures
        ({
            let bytes = seq![
                CHAR_ESC,
                CHAR_ESCAPE_EX,
                CHAR_BRACKETED_PASTE,
                48u8,
                if start {
                    48u8
                } else {
                    49u8
                },
                126u8,
            ];
            let t = after_bytes(s, prompt, bytes, waiting);
            &&& t.pasting == start
            &&& t.buf == s.buf
            &&& t.above == s.above
            &&& t.mode == KeyMode::Plain
        }),
{
    let bytes = seq![
        CHAR_ESC,
        CHAR_ESCAPE_EX,
        CHAR_BRACKETED_PASTE,
        48u8,
        if start {
            48u8
        } else {
            49u8
        },
        126u8,
    ];
    reveal_with_fuel(after_bytes, 7);
    assert(bytes.drop_last() =~= bytes.subrange(0, 5));
    assert(bytes.subrange(0, 5).drop_last() =~= bytes.subrange(0, 4));
    assert(bytes.subrange(0, 4).drop_last() =~= bytes.subrange(0, 3));
    assert(bytes.subrange(0, 3).drop_last() =~= bytes.subrange(0, 2));
    assert(bytes.subrange(0, 2).drop_last() =~= bytes.subrange(0, 1));
    assert(bytes.subrange(0, 1).drop_last() =~= bytes.subrange(0, 0));
}

/// The input is all its lines, the current one last, with a line feed between each
/// two of them.
pub proof fn input_is_all_its_lines(s: LineState)
    ensures
        whole(s) == text::joined(s.above.push(text::decoded(s.buf)), "\n"@),
{
    assert(s.above.push(text::decoded(s.buf)).drop_last() =~= s.above);
}

/// Enter gives the whole input, outside of an escape sequence.
pub proof fn enter_gives_the_input(s: LineState, prompt: Seq<char>, more: bool)
    requires
        s.mode == KeyMode::Plain,
    ensures
        next(s, prompt, 13, more).outcome == Outcome::Line(
            text::joined(s.above.push(text::decoded(s.buf)), "\n"@),
        ),
        next(s, prompt, 13, more).state.buf.len() == 0,
        next(s, prompt, 13, more).state.above.len() == 0,
        next(s, prompt, 13, more).echo == seq![10u8],
{
    input_is_all_its_lines(s);
}

/// Ctrl-J, while nothing is waiting, continues the input on a new line and keeps the
/// lines above.
pub proof fn ctrl_j_continues_the_input(s: LineState, prompt: Seq<char>)
    requires
        s.mode == KeyMode::Plain,
        !s.draining,
    ensures
        next(s, prompt, 10, false).outcome == Outcome::Pending,
        next(s, prompt, 10, false).state.buf.len() == 0,
        next(s, prompt, 10, false).state.above == s.above.push(text::decoded(s.buf)),
        next(s, prompt, 10, false).state.mode == KeyMode::Plain,
        next(s, prompt, 10, false).echo == seq![10u8, 46u8, 32u8],
{
}

/// The line feed that ends a paste submits the line too: bytes were waiting when the
/// byte before it came.
pub proof fn last_pasted_newline_submits(s: LineState, prompt: Seq<char>, byte: u8)
    requires
        s.mode == KeyMode::Plain,
        byte == 9 || (byte >= 32 && byte != 127),
    ensures
        next(next(s, prompt, byte, true).state, prompt, 10, false).outcome == Outcome::Line(
            text::joined(s.above.push(text::decoded(s.buf.push(byte))), "\n"@),
        ),
{
    let t = next(s, prompt, byte, true).state;
    assert(t.draining && (t.stop_draining ==> false));
    input_is_all_its_lines(t);
}

/// A typed byte is taken in and shown.
pub proof fn typed_bytes_are_shown(s: LineState, prompt: Seq<char>, byte: u8, more: bool)
    requires
        s.mode == KeyMode::Plain,
        byte == 9 || (byte >= 32 && byte != 127),
    ensures
        next(s, prompt, byte, more).outcome == Outcome::Pending,
        next(s, prompt, byte, more).state.buf == s.buf.push(byte),
        next(s, prompt, byte, more).state.above == s.above,
        next(s, prompt, byte, more).state.mode == KeyMode::Plain,
        next(s, prompt, byte, more).echo == seq![byte],
{
}

/// Ctrl-D ends the input where nothing was typed, and is passed over otherwise.
pub proof fn ctrl_d_ends_an_empty_input(s: LineState, prompt: Seq<char>, more: bool)
    requires
        s.mode == KeyMode::Plain,
    ensures
        s.buf.len() == 0 && s.above.len() == 0 ==> next(s, prompt, 4, more).outcome == Outcome::End,
        s.buf.len() > 0 || s.above.len() > 0 ==> next(s, prompt, 4, more).outcome
            == Outcome::Pending && next(s, prompt, 4, more).state.buf == s.buf && next(
            s,
            prompt,
            4,
            more,
        ).state.above == s.above,
{
}

/// Other control characters and the bytes of escape sequences leave the input alone.
pub proof fn controls_leave_the_input_alone(s: LineState, prompt: Seq<char>, byte: u8, more: bool)
    requires
        s.mode != KeyMode::Plain || byte == 27 || (byte < 32 && byte != 3 && byte != 4 && byte != 9
            && byte != 10 && byte != 13),
    ensures
        next(s, prompt, byte, more).outcome == Outcome::Pending,
        next(s, prompt, byte, more).state.buf == s.buf,
        next(s, prompt, byte, more).state.above == s.above,
        next(s, prompt, byte, more).echo.len() == 0,
{
}

/// Where there is no more input, there is no line, whatever was typed.
pub proof fn closed_input_ends(s: LineState, prompt: Seq<char>)
    ensures
        after_event(s, prompt, ReadEvent::Closed).outcome == Outcome::End,
        after_event(s, prompt, ReadEvent::Closed).state.buf.len() == 0,
        after_event(s, prompt, ReadEvent::Closed).state.above.len() == 0,
        forall|byte: u8, more: bool|
            #[trigger] after_event(s, prompt, ReadEvent::Byte { byte, more }) == next(
                s,
                prompt,
                byte,
                more,
            ),
{
}

/// Backspace on an empty line above which there is another goes back to the end of
/// that one.
pub proof fn backspace_goes_back_a_line(s: LineState, prompt: Seq<char>, more: bool)
    requires
        s.mode == KeyMode::Plain,
        s.buf.len() == 0,
        s.above.len() > 0,
    ensures
        next(s, prompt, 127, more).state.buf == utf8::encode_utf8(s.above.last()),
        next(s, prompt, 127, more).state.above == s.above.drop_last(),
        next(s, prompt, 127, more).outcome == Outcome::Pending,
{
}

/// Backspace takes off the last character of the line, all its bytes and no others.
pub proof fn backspace_takes_one_character(
    s: LineState,
    prompt: Seq<char>,
    more: bool,
    before: Seq<u8>,
    c: Seq<u8>,
)
    requires
        s.mode == KeyMode::Plain,
        s.buf == before + c,
        c.len() > 0,
        !utf8::is_continuation_byte(c[0]),
        forall|i: int| 0 < i < c.len() ==> utf8::is_continuation_byte(#[trigger] c[i]),
    ensures
        next(s, prompt, 127, more).state.buf == before,
        next(s, prompt, 127, more).state.above == s.above,
        next(s, prompt, 127, more).outcome == Outcome::Pending,
        next(s, prompt, 127, more).echo == seq![8u8, 32u8, 8u8],
{
    lemma_without_last_char(before, c);
}

/// What a step led to is what it holds.
pub proof fn readings_say_their_outcome(line: String, echo: Vec<u8>)
    ensures
        (Reading { outcome: Some(Ok(Some(line))), echo }).result() == Outcome::Line(line@),
        (Reading { outcome: Some(Ok(None)), echo }).result() == Outcome::End,
        (Reading { outcome: Some(Err(ReadlineError::Interrupted)), echo }).result()
            == Outcome::Interrupted,
        (Reading { outcome: None, echo }).result() == Outcome::Pending,
{
}

/// A key that is sent as a sequence is read to its end: ESC, `[`, and a letter, or one
/// of `3`, `5` and `6` with one more byte, or `2` with three more.  Of the last ones
/// `200~` and `201~` begin and end a paste.
pub proof fn sequences_are_read_to_their_end(
    s: LineState,
    prompt: Seq<char>,
    a: u8,
    b: u8,
    byte: u8,
    more: bool,
)
    ensures
        s.mode == KeyMode::Plain ==> next(s, prompt, 27, more).state.mode == KeyMode::Escape,
        s.mode == KeyMode::Escape ==> (next(s, prompt, byte, more).state.mode == if byte == 91 {
            KeyMode::Bracket
        } else {
            KeyMode::Plain
        }),
        s.mode == KeyMode::Bracket ==> (next(s, prompt, byte, more).state.mode == if byte == 50 {
            KeyMode::Code
        } else if byte == 51 || byte == 53 || byte == 54 {
            KeyMode::Final
        } else {
            KeyMode::Plain
        }),
        s.mode == KeyMode::Code ==> next(s, prompt, byte, more).state.mode == KeyMode::Code1(byte),
        s.mode == KeyMode::Code1(a) ==> next(s, prompt, byte, more).state.mode == KeyMode::Code2(
            a,
            byte,
        ),
        s.mode == KeyMode::Code2(a, b) || s.mode == KeyMode::Final ==> next(
            s,
            prompt,
            byte,
            more,
        ).state.mode == KeyMode::Plain,
        s.mode == KeyMode::Code2(48, 48) && byte == 126 ==> next(s, prompt, byte, more).state.pasting,
        s.mode == KeyMode::Code2(48, 49) && byte == 126 ==> !next(
            s,
            prompt,
            byte,
            more,
        ).state.pasting,
        !(s.mode == KeyMode::Code2(48, 48) && byte == 126) && !(s.mode == KeyMode::Code2(48, 49)
            && byte == 126) ==> next(s, prompt, byte, more).state.pasting == s.pasting,
{
}

/// Input that waits behind a byte is drained: from then on a line feed ends the
/// line, up to the byte after the first one with nothing behind it.  The bytes of a
/// longer sequence leave that as it is, but the last of a sequence from `2` on takes
/// notice of what waits.
pub proof fn waiting_input_is_drained(s: LineState, prompt: Seq<char>, byte: u8, more: bool)
    ensures
        s.mode is Code || s.mode is Code1 || s.mode is Final ==> next(
            s,
            prompt,
            byte,
            more,
        ).state.draining == s.draining,
        s.mode is Code2 ==> next(s, prompt, byte, more).state.draining == (s.draining || more),
        s.mode is Code || s.mode is Code1 || s.mode is Code2 || s.mode is Final ==> next(
            s,
            prompt,
            byte,
            more,
        ).state.stop_draining == s.stop_draining,
        s.mode is Escape || s.mode is Bracket || (s.mode is Plain && byte != 3 && byte != 4 && byte
            != 10 && byte != 13) ==> {
            let t = next(s, prompt, byte, more).state;
            &&& more ==> t.draining && !t.stop_draining
            &&& !more && s.draining && !s.stop_draining ==> t.draining && t.stop_draining
            &&& !more && (!s.draining || s.stop_draining) ==> !t.draining && !t.stop_draining
        },
{
}

} // verus!
