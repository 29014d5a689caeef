//! `llmman run`: a chat or a single prompt.

use vstd::prelude::*;
use crate::shortnames;
use crate::string_map::StringMap;
use crate::text;

verus! {

/// Address of the local inference server.
pub const SERVER: &'static str = "http://127.0.0.1:17434";

/// Seconds that the server has to come up.
pub const START_SECONDS: u64 = 60;

/// Milliseconds between two questions whether the server is up.
pub const START_PAUSE: u64 = 300;

/// Three quotes open and close an input of several lines.
pub const QUOTES: &'static str = "\"\"\"";

/// Arguments of the command.
#[derive(Debug)]
pub struct RunArgs {
    /// Model to run.
    pub model: String,
    /// Words of the prompt.
    pub prompt: Vec<String>,
}

/// How the model is run.
#[derive(Debug)]
pub enum RunMode {
    /// A chat at the terminal.
    Interactive,
    /// The prompt is the first line of the standard input.
    FromInput,
    /// A single prompt.
    OneShot(String),
}

/// What the command does.
#[derive(Debug)]
pub struct RunPlan {
    pub model: String,
    pub mode: RunMode,
}

/// Decides how to run: with a prompt once, without one in a chat where the
/// standard input is a terminal.
pub fn run(args: &RunArgs, aliases: &StringMap, terminal: bool) -> (r: RunPlan)
    ensures
        r.model@ == shortnames::resolved(aliases@, args.model@),
        ({
            let prompt = text::joined(text::texts(args.prompt@), " "@);
            match r.mode {
                RunMode::Interactive => prompt.len() == 0 && terminal,
                RunMode::FromInput => prompt.len() == 0 && !terminal,
                RunMode::OneShot(p) => prompt.len() > 0 && p@ == prompt,
            }
        }),
{
    let model: String = shortnames::resolve(args.model.as_str(), aliases);
    let prompt: String = text::join(&args.prompt, " ");
    let mode = if !prompt.as_str().is_empty() {
        RunMode::OneShot(prompt)
    } else if terminal {
        RunMode::Interactive
    } else {
        RunMode::FromInput
    };
    RunPlan { model, mode }
}

/// The prompt in a line of input; an empty one is not sent.
pub fn prompt_of_line(line: &str) -> (r: Option<String>)
    ensures
        text::opt_text(r) == (if text::trimmed(line@).len() > 0 {
            Some(text::trimmed(line@))
        } else {
            None
        }),
{
    let p: &str = text::trim(line);
    if p.is_empty() {
        None
    } else {
        Some(p.to_string())
    }
}

/// Arguments with which the server is started for a model.
pub fn serve_args(model: &str) -> (r: Vec<String>)
    ensures
        text::texts(r@) == seq!["serve"@, model@],
{
    let mut r: Vec<String> = Vec::new();
    r.push("serve".to_string());
    r.push(model.to_string());
    assert(text::texts(r@) =~= seq!["serve"@, model@]);
    r
}

// ---------------------------------------------------------------------------
// Messages
// ---------------------------------------------------------------------------

/// A message of a chat.
#[derive(Debug)]
pub struct Msg {
    pub role: String,
    pub content: String,
    pub thinking: Option<String>,
}

/// What a message says.
pub struct MsgModel {
    pub role: Seq<char>,
    pub content: Seq<char>,
    pub thinking: Option<Seq<char>>,
}

impl View for Msg {
    type V = MsgModel;

    open spec fn view(&self) -> MsgModel {
        MsgModel {
            role: self.role@,
            content: self.content@,
            thinking: text::opt_text(self.thinking),
        }
    }
}

/// A message without thoughts.
pub open spec fn says(role: Seq<char>, content: Seq<char>) -> MsgModel {
    MsgModel { role, content, thinking: None }
}

/// A piece of an answer in a chat.
#[derive(Debug)]
pub struct ChatChunk {
    pub message: Option<Msg>,
    pub done: bool,
}

/// A piece of an answer to a prompt.
#[derive(Debug)]
pub struct GenChunk {
    pub response: String,
    pub thinking: Option<String>,
    pub done: bool,
}

/// What is shown of a piece of an answer: first `err` on the standard error,
/// then `out` on the standard output.
#[derive(Debug)]
pub struct Shown {
    pub err: String,
    pub out: String,
    pub done: bool,
}

/// An answer that is coming in.
#[derive(Debug)]
pub struct Reply {
    full: String,
    thinking_open: bool,
}

/// What is known of an answer that is coming in.
pub struct ReplyModel {
    /// What was answered so far.
    pub full: Seq<char>,
    /// Thoughts were shown last.
    pub thinking_open: bool,
}

impl View for Reply {
    type V = ReplyModel;

    closed spec fn view(&self) -> ReplyModel {
        ReplyModel { full: self.full@, thinking_open: self.thinking_open }
    }
}

/// The thoughts that are shown.
pub open spec fn shown_thoughts(open: bool, thinking: Option<Seq<char>>) -> Seq<char> {
    match thinking {
        Some(t) => if t.len() == 0 {
            Seq::<char>::empty()
        } else if open {
            t
        } else {
            "Thinking: "@ + t
        },
        None => Seq::<char>::empty(),
    }
}

/// The answer with a piece of thoughts and a piece of contents added, and what
/// is shown on the standard error: thoughts follow a heading, and a line feed
/// stands between them and the contents.
pub open spec fn with_piece(
    r: ReplyModel,
    thinking: Option<Seq<char>>,
    content: Seq<char>,
) -> (ReplyModel, Seq<char>) {
    let thoughts = shown_thoughts(r.thinking_open, thinking);
    let open = r.thinking_open || thoughts.len() > 0;
    if content.len() > 0 && open {
        (ReplyModel { full: r.full + content, thinking_open: false }, thoughts + "\n"@)
    } else {
        (ReplyModel { full: r.full + content, thinking_open: open }, thoughts)
    }
}

impl Reply {
    /// Before the first piece.
    pub fn new() -> (r: Self)
        ensures
            r@ == (ReplyModel { full: Seq::<char>::empty(), thinking_open: false }),
    {
        Reply { full: String::new(), thinking_open: false }
    }

    /// What was answered.
    pub fn full(&self) -> (r: &str)
        ensures
            r@ == self@.full,
    {
        self.full.as_str()
    }

    fn piece(&mut self, thinking: &Option<String>, content: &str) -> (err: String)
        ensures
            (final(self)@, err@) == with_piece(old(self)@, text::opt_text(*thinking), content@),
    {
        let mut err: String = String::new();
        match thinking {
            Some(t) => {
                if !t.as_str().is_empty() {
                    if !self.thinking_open {
                        err.append("Thinking: ");
                        self.thinking_open = true;
                    }
                    err.append(t.as_str());
                }
            },
            None => {},
        }
        let ghost thoughts = err@;
        proof {
            reveal_strlit("Thinking: ");
            assert(thoughts =~= shown_thoughts(old(self)@.thinking_open, text::opt_text(*thinking)));
        }
        if !content.is_empty() && self.thinking_open {
            err.append("\n");
            self.thinking_open = false;
        }
        self.full.append(content);
        err
    }

    /// Takes in a piece of an answer in a chat.
    pub fn on_chat(&mut self, chunk: &ChatChunk) -> (r: Shown)
        ensures
            r.done == chunk.done,
            final(self)@.full == old(self)@.full + r.out@,
            match chunk.message {
                Some(m) => (final(self)@, r.err@) == with_piece(
                    old(self)@,
                    text::opt_text(m.thinking),
                    m.content@,
                ) && r.out@ == m.content@,
                None => final(self)@ == old(self)@ && r.err@ == Seq::<char>::empty() && r.out@
                    == Seq::<char>::empty(),
            },
    {
        match &chunk.message {
            Some(m) => {
                let err: String = self.piece(&m.thinking, m.content.as_str());
                Shown { err, out: m.content.clone(), done: chunk.done }
            },
            None => {
                assert(self@.full + Seq::<char>::empty() =~= self@.full);
                Shown { err: String::new(), out: String::new(), done: chunk.done }
            },
        }
    }

    /// Takes in a piece of an answer in a chat and shows no thoughts.
    pub fn on_chat_without_thoughts(&mut self, chunk: &ChatChunk) -> (r: Shown)
        ensures
            r.done == chunk.done,
            r.err@ == Seq::<char>::empty(),
            r.out@ == (match chunk.message {
                Some(m) => m.content@,
                None => Seq::<char>::empty(),
            }),
            final(self)@ == (ReplyModel { full: old(self)@.full + r.out@, ..old(self)@ }),
    {
        let out: String = match &chunk.message {
            Some(m) => m.content.clone(),
            None => String::new(),
        };
        self.full.append(out.as_str());
        Shown { err: String::new(), out, done: chunk.done }
    }

    /// Takes in a piece of an answer to a prompt.
    pub fn on_generate(&mut self, chunk: &GenChunk) -> (r: Shown)
        ensures
            r.done == chunk.done,
            r.out@ == chunk.response@,
            (final(self)@, r.err@) == with_piece(
                old(self)@,
                text::opt_text(chunk.thinking),
                chunk.response@,
            ),
    {
        let err: String = self.piece(&chunk.thinking, chunk.response.as_str());
        Shown { err, out: chunk.response.clone(), done: chunk.done }
    }
}

// ---------------------------------------------------------------------------
// The chat
// ---------------------------------------------------------------------------

/// What the chat does with a line.
#[derive(Debug)]
pub enum SessionAction {
    /// Reads on.
    Continue,
    /// Ends.
    Quit,
    /// The conversation was cleared, and the user is told.
    Cleared,
    /// Shows the commands.
    Help,
    /// Sends a message.
    Submit(String),
}

/// What the chat does with a line.
pub enum ActionModel {
    Continue,
    Quit,
    Cleared,
    Help,
    Submit(Seq<char>),
}

impl View for SessionAction {
    type V = ActionModel;

    open spec fn view(&self) -> ActionModel {
        match *self {
            SessionAction::Continue => ActionModel::Continue,
            SessionAction::Quit => ActionModel::Quit,
            SessionAction::Cleared => ActionModel::Cleared,
            SessionAction::Help => ActionModel::Help,
            SessionAction::Submit(s) => ActionModel::Submit(s@),
        }
    }
}

/// A chat.
#[derive(Debug)]
pub struct Session {
    multiline: Option<String>,
    paste: String,
    messages: Vec<Msg>,
}

/// What is known of a chat.
pub struct SessionModel {
    /// The text so far, between the quotes of an input of several lines.
    pub multiline: Option<Seq<char>>,
    /// The lines that were pasted so far.
    pub paste: Seq<char>,
    /// The conversation.
    pub messages: Seq<MsgModel>,
}

/// What a list of messages says.
pub open spec fn conversation(v: Seq<Msg>) -> Seq<MsgModel> {
    v.map_values(|m: Msg| m@)
}

impl View for Session {
    type V = SessionModel;

    closed spec fn view(&self) -> SessionModel {
        SessionModel {
            multiline: text::opt_text(self.multiline),
            paste: self.paste@,
            messages: conversation(self.messages@),
        }
    }
}

/// A message, unless it is blank.
pub open spec fn unless_blank(content: Seq<char>) -> ActionModel {
    if text::trimmed(content).len() > 0 {
        ActionModel::Submit(content)
    } else {
        ActionModel::Continue
    }
}

/// Effect of a line between the quotes of an input of several lines.
pub open spec fn quoted_line(s: SessionModel, so_far: Seq<char>, line: Seq<char>) -> (
    SessionModel,
    ActionModel,
) {
    match text::without_suffix(line, QUOTES@) {
        Some(content) => (
            SessionModel { multiline: None, ..s },
            unless_blank(text::without_last(so_far + content, '\n')),
        ),
        None => (
            SessionModel { multiline: Some(so_far + line + "\n"@), ..s },
            ActionModel::Continue,
        ),
    }
}

/// Effect of a line outside of quotes.
pub open spec fn free_line(s: SessionModel, line: Seq<char>) -> (SessionModel, ActionModel) {
    let words = text::trimmed(line);
    let start = text::trimmed_start(line);
    if words.len() == 0 {
        (s, ActionModel::Continue)
    } else if words == "/bye"@ || words == "/exit"@ {
        (s, ActionModel::Quit)
    } else if words == "/clear"@ {
        (SessionModel { messages: Seq::<MsgModel>::empty(), ..s }, ActionModel::Cleared)
    } else if words[0] == '/' {
        (s, ActionModel::Help)
    } else if QUOTES@.is_prefix_of(start) {
        let inner = text::without_prefixes(start, QUOTES@);
        match text::without_suffix(inner, QUOTES@) {
            Some(content) => (s, unless_blank(content)),
            None => (
                SessionModel { multiline: Some(inner + "\n"@), ..s },
                ActionModel::Continue,
            ),
        }
    } else {
        (s, ActionModel::Submit(line))
    }
}

/// Effect of a line: inside of a bracketed paste it is kept, otherwise it is
/// taken together with what was pasted before it.
pub open spec fn after_line(s: SessionModel, line: Seq<char>, pasting: bool) -> (
    SessionModel,
    ActionModel,
) {
    if pasting {
        (SessionModel { paste: s.paste + line + "\n"@, ..s }, ActionModel::Continue)
    } else {
        let t = SessionModel { paste: Seq::<char>::empty(), ..s };
        match s.multiline {
            Some(so_far) => quoted_line(t, so_far, s.paste + line),
            None => free_line(t, s.paste + line),
        }
    }
}

/// Effect of a line on the simple chat without pasting and quotes.
pub open spec fn after_simple_line(s: SessionModel, line: Seq<char>) -> (
    SessionModel,
    ActionModel,
) {
    let words = text::trimmed(line);
    if words.len() == 0 {
        (s, ActionModel::Continue)
    } else if words == "/bye"@ || words == "/exit"@ {
        (s, ActionModel::Quit)
    } else if words == "/clear"@ {
        (SessionModel { messages: Seq::<MsgModel>::empty(), ..s }, ActionModel::Continue)
    } else {
        (s, ActionModel::Submit(line))
    }
}

fn message_or_nothing(content: &str) -> (r: SessionAction)
    ensures
        r@ == unless_blank(content@),
{
    if text::trim(content).is_empty() {
        SessionAction::Continue
    } else {
        SessionAction::Submit(content.to_string())
    }
}

impl Session {
    /// An empty chat.
    pub fn new() -> (r: Self)
        ensures
            r@ == (SessionModel {
                multiline: None,
                paste: Seq::<char>::empty(),
                messages: Seq::<MsgModel>::empty(),
            }),
    {
        let r = Session { multiline: None, paste: String::new(), messages: Vec::new() };
        assert(r@.messages =~= Seq::<MsgModel>::empty());
        r
    }

    /// The conversation.
    pub fn messages(&self) -> (r: &Vec<Msg>)
        ensures
            conversation(r@) == self@.messages,
    {
        &self.messages
    }

    /// The prompt before the next line.
    pub fn prompt(&self) -> (r: &'static str)
        ensures
            r@ == (if self@.multiline is Some {
                ". "@
            } else if self@.paste.len() > 0 {
                "... "@
            } else {
                "> "@
            }),
    {
        if self.multiline.is_some() {
            ". "
        } else if !self.paste.as_str().is_empty() {
            "... "
        } else {
            "> "
        }
    }

    /// Gives up what was typed and pasted so far.
    pub fn on_interrupt(&mut self)
        ensures
            final(self)@ == (SessionModel {
                multiline: None,
                paste: Seq::<char>::empty(),
                ..old(self)@
            }),
    {
        self.multiline = None;
        self.paste = String::new();
    }

    fn clear(&mut self)
        ensures
            final(self)@ == (SessionModel { messages: Seq::<MsgModel>::empty(), ..old(self)@ }),
    {
        self.messages = Vec::new();
        assert(self@.messages =~= Seq::<MsgModel>::empty());
    }

    fn on_quoted_line(&mut self, so_far: String, line: &str) -> (r: SessionAction)
        ensures
            (final(self)@, r@) == quoted_line(old(self)@, so_far@, line@),
    {
        match text::strip_suffix(line, QUOTES) {
            Some(content) => {
                self.multiline = None;
                let all: String = text::concat2(so_far.as_str(), content);
                message_or_nothing(text::trim_end_char(all.as_str(), '\n'))
            },
            None => {
                self.multiline = Some(text::concat3(so_far.as_str(), line, "\n"));
                SessionAction::Continue
            },
        }
    }

    fn on_free_line(&mut self, line: &str) -> (r: SessionAction)
        ensures
            (final(self)@, r@) == free_line(old(self)@, line@),
    {
        let words: &str = text::trim(line);
        proof {
            reveal_strlit("/");
            reveal_strlit("\"\"\"");
            assert("/"@.is_prefix_of(words@) == (words@.len() > 0 && words@[0] == '/')) by {
                if words@.len() > 0 && words@[0] == '/' {
                    assert(words@.subrange(0, 1) =~= "/"@);
                }
                if "/"@.is_prefix_of(words@) {
                    assert(words@.subrange(0, 1)[0] == '/');
                }
            }
        }
        if words.is_empty() {
            SessionAction::Continue
        } else if text::same(words, "/bye") || text::same(words, "/exit") {
            SessionAction::Quit
        } else if text::same(words, "/clear") {
            self.clear();
            SessionAction::Cleared
        } else if text::starts_with(words, "/") {
            SessionAction::Help
        } else {
            let start: &str = text::trim_start(line);
            if text::starts_with(start, QUOTES) {
                let inner: &str = text::trim_start_matches(start, QUOTES);
                match text::strip_suffix(inner, QUOTES) {
                    Some(content) => message_or_nothing(content),
                    None => {
                        self.multiline = Some(text::concat2(inner, "\n"));
                        SessionAction::Continue
                    },
                }
            } else {
                SessionAction::Submit(line.to_string())
            }
        }
    }

    /// Takes in a line.  `pasting` says whether it lies inside of a bracketed
    /// paste.
    pub fn on_line(&mut self, line: &str, pasting: bool) -> (r: SessionAction)
        ensures
            (final(self)@, r@) == after_line(old(self)@, line@, pasting),
    {
        if pasting {
            self.paste.append(line);
            self.paste.append("\n");
            return SessionAction::Continue;
        }
        let full: String = text::concat2(self.paste.as_str(), line);
        self.paste = String::new();
        match &self.multiline {
            Some(so_far) => {
                let so_far: String = so_far.clone();
                self.on_quoted_line(so_far, full.as_str())
            },
            None => self.on_free_line(full.as_str()),
        }
    }

    /// Takes in a line of the simple chat, which knows neither pasting nor
    /// quotes nor help.  Line feeds and carriage returns at its end are cut
    /// off first.
    pub fn on_simple_line(&mut self, raw: &str) -> (r: SessionAction)
        ensures
            (final(self)@, r@) == after_simple_line(
                old(self)@,
                text::without_last(text::without_last(raw@, '\n'), '\r'),
            ),
    {
        let line: &str = text::trim_end_char(text::trim_end_char(raw, '\n'), '\r');
        let words: &str = text::trim(line);
        if words.is_empty() {
            SessionAction::Continue
        } else if text::same(words, "/bye") || text::same(words, "/exit") {
            SessionAction::Quit
        } else if text::same(words, "/clear") {
            self.clear();
            SessionAction::Continue
        } else {
            SessionAction::Submit(line.to_string())
        }
    }

    /// Adds the message of the user to the conversation, before it is sent.
    pub fn submit(&mut self, content: &str)
        ensures
            final(self)@ == (SessionModel {
                messages: old(self)@.messages.push(says("user"@, content@)),
                ..old(self)@
            }),
    {
        let ghost before = self.messages@;
        let m = Msg { role: "user".to_string(), content: content.to_string(), thinking: None };
        self.messages.push(m);
        assert(conversation(self.messages@) =~= conversation(before).push(m@));
    }

    /// Adds the whole answer to the conversation.
    pub fn answer(&mut self, reply: &Reply)
        ensures
            final(self)@ == (SessionModel {
                messages: old(self)@.messages.push(says("assistant"@, reply@.full)),
                ..old(self)@
            }),
    {
        let ghost before = self.messages@;
        let m = Msg {
            role: "assistant".to_string(),
            content: reply.full.clone(),
            thinking: None,
        };
        self.messages.push(m);
        assert(conversation(self.messages@) =~= conversation(before).push(m@));
    }
}

// ---------------------------------------------------------------------------
// Laws
// ---------------------------------------------------------------------------

/// Lines that were pasted are taken together with the line behind them, as one
/// input.
pub proof fn pasted_lines_are_one_input(s: SessionModel, first: Seq<char>, last: Seq<char>)
    ensures
        after_line(s, first, true).1 == ActionModel::Continue,
        after_line(after_line(s, first, true).0, last, false) == after_line(
            s,
            first + "\n"@ + last,
            false,
        ),
{
    assert(s.paste + first + "\n"@ + last =~= s.paste + (first + "\n"@ + last));
}

/// Whatever was typed before, after an interruption a line is taken as at the
/// start of a chat with the same conversation.
pub proof fn interruption_starts_over(s: SessionModel, line: Seq<char>)
    ensures
        ({
            let t = SessionModel { multiline: None, paste: Seq::<char>::empty(), ..s };
            after_line(t, line, false) == free_line(t, line)
        }),
{
    assert(Seq::<char>::empty() + line =~= line);
}

proof fn lemma_trimmed_end_keeps_start(s: Seq<char>)
    requires
        s.len() > 0,
        !text::is_white(s[0]),
    ensures
        text::trimmed_end(s).len() > 0,
        text::trimmed_end(s)[0] == s[0],
    decreases s.len(),
{
    if text::is_white(s.last()) {
        lemma_trimmed_end_keeps_start(s.drop_last());
    }
}

/// The lines, each with a line feed behind it.
pub open spec fn block(lines: Seq<Seq<char>>) -> Seq<char>
    decreases lines.len(),
{
    if lines.len() == 0 {
        Seq::<char>::empty()
    } else {
        block(lines.drop_last()) + lines.last() + "\n"@
    }
}

/// The chat after a number of typed lines.
pub open spec fn after_lines(s: SessionModel, lines: Seq<Seq<char>>) -> SessionModel
    decreases lines.len(),
{
    if lines.len() == 0 {
        s
    } else {
        after_line(after_lines(s, lines.drop_last()), lines.last(), false).0
    }
}

proof fn lemma_quoted_lines(s: SessionModel, so_far: Seq<char>, lines: Seq<Seq<char>>)
    requires
        s.multiline == Some(so_far),
        s.paste.len() == 0,
        forall|i: int| 0 <= i < lines.len() ==> !QUOTES@.is_suffix_of(#[trigger] lines[i]),
    ensures
        after_lines(s, lines).multiline == Some(so_far + block(lines)),
        after_lines(s, lines).paste.len() == 0,
        after_lines(s, lines).messages == s.messages,
    decreases lines.len(),
{
    if lines.len() == 0 {
        assert(so_far + block(lines) =~= so_far);
    } else {
        let d = lines.drop_last();
        assert forall|i: int| 0 <= i < d.len() implies !QUOTES@.is_suffix_of(#[trigger] d[i]) by {
            assert(d[i] == lines[i]);
        }
        lemma_quoted_lines(s, so_far, d);
        let t = after_lines(s, d);
        let line = lines[lines.len() - 1];
        assert(!QUOTES@.is_suffix_of(line));
        assert(t.paste + line =~= line);
        assert(so_far + block(d) + line + "\n"@ =~= so_far + block(lines));
    }
}

/// What stands between three quotes and three quotes is one message, over as
/// many lines as it takes.
pub proof fn quoted_lines_are_one_message(
    s: SessionModel,
    first: Seq<char>,
    middle: Seq<Seq<char>>,
    last: Seq<char>,
)
    requires
        s.multiline is None,
        s.paste.len() == 0,
        !QUOTES@.is_prefix_of(first),
        !QUOTES@.is_suffix_of(first),
        forall|i: int| 0 <= i < middle.len() ==> !QUOTES@.is_suffix_of(#[trigger] middle[i]),
    ensures
        ({
            let opened = after_line(s, QUOTES@ + first, false);
            let closed = after_line(after_lines(opened.0, middle), last + QUOTES@, false);
            &&& opened.1 == ActionModel::Continue
            &&& closed.1 == unless_blank(
                text::without_last(first + "\n"@ + block(middle) + last, '\n'),
            )
            &&& closed.0.messages == s.messages
            &&& closed.0.multiline is None
        }),
{
    reveal_strlit("\"\"\"");
    reveal_strlit("/bye");
    reveal_strlit("/exit");
    reveal_strlit("/clear");
    let line = QUOTES@ + first;
    assert(s.paste + line =~= line);
    assert(text::trimmed_start(line) == line);
    lemma_trimmed_end_keeps_start(line);
    assert(QUOTES@.is_prefix_of(line)) by {
        assert(line.subrange(0, 3) =~= QUOTES@);
    }
    assert(line.subrange(3, line.len() as int) =~= first);
    reveal_with_fuel(text::without_prefixes, 2);
    assert(text::without_prefixes(line, QUOTES@) == first);
    let opened = after_line(s, line, false).0;
    assert(opened.multiline == Some(first + "\n"@));
    lemma_quoted_lines(opened, first + "\n"@, middle);
    let end = last + QUOTES@;
    assert(after_lines(opened, middle).paste + end =~= end);
    assert(QUOTES@.is_suffix_of(end)) by {
        assert(end.subrange(end.len() - 3, end.len() as int) =~= QUOTES@);
    }
    assert(end.subrange(0, end.len() - 3) =~= last);
}

/// What a list of messages says is what each of them says, in their order.
pub proof fn every_message_is_said(v: Seq<Msg>)
    ensures
        conversation(v).len() == v.len(),
        forall|i: int|
            0 <= i < v.len() ==> (#[trigger] conversation(v)[i]).role == v[i].role@ && conversation(
                v,
            )[i].content == v[i].content@,
{
}

proof fn lemma_first_word(line: Seq<char>, i: int)
    requires
        0 <= i < line.len(),
        !text::is_white(line[i]),
        forall|j: int| 0 <= j < i ==> text::is_white(#[trigger] line[j]),
    ensures
        text::trimmed(line).len() > 0,
        text::trimmed(line)[0] == line[i],
        text::trimmed_start(line) == line.subrange(i, line.len() as int),
{
    text::trimming_takes_white_space_only(line);
    let start = line.len() - text::trimmed_start(line).len();
    if start < i {
        assert(text::trimmed_start(line)[0] == line[start]);
    }
    assert(start == i);
}

/// A line that is neither a command nor starts with quotes is sent as it stands,
/// with the white space around it, and changes nothing else.
pub proof fn plain_line_is_sent_as_it_stands(s: SessionModel, line: Seq<char>, i: int)
    requires
        s.multiline is None,
        s.paste.len() == 0,
        0 <= i < line.len(),
        !text::is_white(line[i]),
        forall|j: int| 0 <= j < i ==> text::is_white(#[trigger] line[j]),
        line[i] != '/',
        line[i] != '"',
    ensures
        after_line(s, line, false).1 == ActionModel::Submit(line),
        after_line(s, line, false).0.messages == s.messages,
        after_line(s, line, false).0.multiline is None,
        after_line(s, line, false).0.paste.len() == 0,
        after_simple_line(s, line).1 == ActionModel::Submit(line),
        after_simple_line(s, line).0 == s,
{
    reveal_strlit("/bye");
    reveal_strlit("/exit");
    reveal_strlit("/clear");
    reveal_strlit("\"\"\"");
    lemma_first_word(line, i);
    assert(s.paste + line =~= line);
    let start = text::trimmed_start(line);
    if QUOTES@.is_prefix_of(start) {
        assert(start.subrange(0, 3)[0] == '"');
        assert(start[0] == line[i]);
    }
    let words = text::trimmed(line);
    assert("/bye"@[0] == '/' && "/exit"@[0] == '/' && "/clear"@[0] == '/');
}

/// A line of white space is passed over.
pub proof fn blank_line_is_passed_over(s: SessionModel, line: Seq<char>)
    requires
        s.multiline is None,
        s.paste.len() == 0,
        forall|j: int| 0 <= j < line.len() ==> text::is_white(#[trigger] line[j]),
    ensures
        after_line(s, line, false).1 == ActionModel::Continue,
        after_line(s, line, false).0.messages == s.messages,
        after_simple_line(s, line).1 == ActionModel::Continue,
        after_simple_line(s, line).0 == s,
{
    text::trimming_takes_white_space_only(line);
    if text::trimmed(line).len() > 0 {
        let start = line.len() - text::trimmed_start(line).len();
        assert(text::trimmed(line)[0] == line[start]);
    }
    assert(s.paste + line =~= line);
}

/// The commands end the chat, forget the conversation or show the help, whatever
/// white space stands around them, and send nothing.
pub proof fn commands_are_obeyed(s: SessionModel, line: Seq<char>)
    requires
        s.multiline is None,
        s.paste.len() == 0,
    ensures
        text::trimmed(line) == "/bye"@ || text::trimmed(line) == "/exit"@ ==> after_line(
            s,
            line,
            false,
        ).1 == ActionModel::Quit && after_simple_line(s, line).1 == ActionModel::Quit,
        text::trimmed(line) == "/clear"@ ==> after_line(s, line, false).1 == ActionModel::Cleared
            && after_line(s, line, false).0.messages.len() == 0 && after_simple_line(
            s,
            line,
        ).0.messages.len() == 0 && after_simple_line(s, line).1 == ActionModel::Continue,
        text::trimmed(line).len() > 0 && text::trimmed(line)[0] == '/' && text::trimmed(line)
            != "/bye"@ && text::trimmed(line) != "/exit"@ && text::trimmed(line) != "/clear"@
            ==> after_line(s, line, false).1 == ActionModel::Help && after_line(
            s,
            line,
            false,
        ).0.messages == s.messages,
{
    reveal_strlit("/bye");
    reveal_strlit("/exit");
    reveal_strlit("/clear");
    assert(s.paste + line =~= line);
}

/// What stands between three quotes on one line is sent without the quotes, as it
/// stands, unless it is blank.
pub proof fn quoted_text_is_sent(s: SessionModel, words: Seq<char>, i: int)
    requires
        s.multiline is None,
        s.paste.len() == 0,
        words.len() > 0,
        words[0] != '"',
        0 <= i < words.len(),
        !text::is_white(words[i]),
    ensures
        after_line(s, "\"\"\""@ + words + "\"\"\""@, false).1 == ActionModel::Submit(words),
        after_line(s, "\"\"\""@ + words + "\"\"\""@, false).0.messages == s.messages,
        after_line(s, "\"\"\""@ + words + "\"\"\""@, false).0.multiline is None,
{
    reveal_strlit("/bye");
    reveal_strlit("/exit");
    reveal_strlit("/clear");
    reveal_strlit("\"\"\"");
    let line = QUOTES@ + words + QUOTES@;
    assert(s.paste + line =~= line);
    lemma_first_word(line, 0);
    assert(text::trimmed_start(line) =~= line);
    let inner = words + QUOTES@;
    assert(line =~= QUOTES@ + inner);
    assert(line.subrange(0, 3) =~= QUOTES@);
    assert(!QUOTES@.is_prefix_of(inner)) by {
        if QUOTES@.is_prefix_of(inner) {
            assert(inner.subrange(0, 3)[0] == '"');
            assert(inner[0] == words[0]);
        }
    }
    text::prefixes_are_taken_off(QUOTES@, inner);
    text::suffix_is_taken_off(inner, QUOTES@, words);
    text::trimming_takes_white_space_only(words);
    if text::trimmed(words).len() == 0 {
        assert(text::is_white(words[i]));
    }
    assert("/bye"@[0] == '/' && "/exit"@[0] == '/' && "/clear"@[0] == '/');
}

/// A message that is not blank is sent as it stands, and a blank one is not sent.
pub proof fn only_blank_messages_are_held_back(content: Seq<char>)
    ensures
        (exists|i: int| 0 <= i < content.len() && !text::is_white(#[trigger] content[i]))
            ==> unless_blank(content) == ActionModel::Submit(content),
        (forall|i: int| 0 <= i < content.len() ==> text::is_white(#[trigger] content[i]))
            ==> unless_blank(content) == ActionModel::Continue,
{
    text::trimming_takes_white_space_only(content);
    if text::trimmed(content).len() > 0 {
        let start = content.len() - text::trimmed_start(content).len();
        assert(text::trimmed(content)[0] == content[start]);
    }
}

/// Pasted lines are kept as they stand, each with a line feed behind it.
pub proof fn pasted_lines_are_kept(s: SessionModel, line: Seq<char>)
    ensures
        after_line(s, line, true).0.paste == s.paste + line + "\n"@,
        after_line(s, line, true).0.messages == s.messages,
        after_line(s, line, true).0.multiline == s.multiline,
        after_line(s, line, true).1 == ActionModel::Continue,
{
}

/// An answer grows by the contents of its pieces, every character of them.  The
/// first thoughts are shown behind a heading and the others as they stand, and a
/// line feed stands between thoughts and contents.
pub proof fn answers_grow_by_their_pieces(
    r: ReplyModel,
    thoughts: Seq<char>,
    content: Seq<char>,
)
    requires
        thoughts.len() > 0,
        content.len() > 0,
    ensures
        with_piece(r, None, content).0.full == r.full + content,
        with_piece(r, Some(thoughts), content).0.full == r.full + content,
        with_piece(r, Some(thoughts), Seq::<char>::empty()).0.full == r.full,
        !r.thinking_open ==> with_piece(r, Some(thoughts), Seq::<char>::empty()).1
            == "Thinking: "@ + thoughts,
        r.thinking_open ==> with_piece(r, Some(thoughts), Seq::<char>::empty()).1 == thoughts,
        with_piece(r, Some(thoughts), Seq::<char>::empty()).0.thinking_open,
        !r.thinking_open ==> with_piece(r, Some(thoughts), content).1 == "Thinking: "@ + thoughts
            + "\n"@,
        r.thinking_open ==> with_piece(r, None, content).1 == "\n"@,
        !r.thinking_open ==> with_piece(r, None, content).1.len() == 0,
        !with_piece(r, None, content).0.thinking_open,
        !with_piece(r, Some(thoughts), content).0.thinking_open,
        with_piece(r, Some(Seq::<char>::empty()), content) == with_piece(r, None, content),
{
    reveal_strlit("Thinking: ");
    assert(r.full + Seq::<char>::empty() =~= r.full);
    assert(Seq::<char>::empty() + "\n"@ =~= "\n"@);
}

/// What a message and an action say is what they hold.
pub proof fn messages_say_their_fields(m: Msg, s: String)
    ensures
        m@.role == m.role@,
        m@.content == m.content@,
        m.thinking matches Some(t) ==> m@.thinking == Some(t@),
        m.thinking is None ==> m@.thinking is None,
        SessionAction::Submit(s)@ == ActionModel::Submit(s@),
        SessionAction::Continue@ == ActionModel::Continue,
        SessionAction::Quit@ == ActionModel::Quit,
        SessionAction::Cleared@ == ActionModel::Cleared,
        SessionAction::Help@ == ActionModel::Help,
        says(m.role@, s@).role == m.role@,
        says(m.role@, s@).content == s@,
        says(m.role@, s@).thinking is None,
{
}

/// Between quotes a line is kept as it stands, with a line feed behind it.  The line
/// that ends in quotes closes the input, and all of it is sent, unless it is blank.
pub proof fn lines_between_quotes_are_kept(
    s: SessionModel,
    so_far: Seq<char>,
    line: Seq<char>,
    i: int,
)
    requires
        s.multiline == Some(so_far),
        s.paste.len() == 0,
    ensures
        !"\"\"\""@.is_suffix_of(line) ==> after_line(s, line, false).0.multiline == Some(
            so_far + line + "\n"@,
        ) && after_line(s, line, false).1 == ActionModel::Continue && after_line(
            s,
            line,
            false,
        ).0.messages == s.messages,
        0 <= i < (so_far + line).len() && !text::is_white((so_far + line)[i]) && (so_far
            + line).last() != '\n' ==> after_line(s, line + "\"\"\""@, false).1
            == ActionModel::Submit(so_far + line),
        after_line(s, line + "\"\"\""@, false).0.multiline is None,
{
    assert(s.paste + line =~= line);
    let closing = line + QUOTES@;
    assert(s.paste + closing =~= closing);
    text::suffix_is_taken_off(closing, QUOTES@, line);
    let all = so_far + line;
    if 0 <= i < all.len() && !text::is_white(all[i]) && all.last() != '\n' {
        assert(text::without_last(all, '\n') == all);
        only_blank_messages_are_held_back(all);
    }
}

/// Quotes on one line around nothing but white space send nothing.
pub proof fn blank_quoted_text_is_held_back(s: SessionModel, words: Seq<char>)
    requires
        s.multiline is None,
        s.paste.len() == 0,
        forall|i: int| 0 <= i < words.len() ==> text::is_white(#[trigger] words[i]),
        words.len() > 0,
    ensures
        after_line(s, "\"\"\""@ + words + "\"\"\""@, false).1 == ActionModel::Continue,
        after_line(s, "\"\"\""@ + words + "\"\"\""@, false).0.messages == s.messages,
        after_line(s, "\"\"\""@ + words + "\"\"\""@, false).0.multiline is None,
{
    reveal_strlit("/bye");
    reveal_strlit("/exit");
    reveal_strlit("/clear");
    reveal_strlit("\"\"\"");
    let line = QUOTES@ + words + QUOTES@;
    assert(s.paste + line =~= line);
    lemma_first_word(line, 0);
    assert(text::trimmed_start(line) =~= line);
    let inner = words + QUOTES@;
    assert(line =~= QUOTES@ + inner);
    assert(line.subrange(0, 3) =~= QUOTES@);
    assert(!QUOTES@.is_prefix_of(inner)) by {
        if QUOTES@.is_prefix_of(inner) {
            assert(inner.subrange(0, 3)[0] == '"');
            assert(inner[0] == words[0]);
        }
    }
    text::prefixes_are_taken_off(QUOTES@, inner);
    text::suffix_is_taken_off(inner, QUOTES@, words);
    text::trimming_takes_white_space_only(words);
    only_blank_messages_are_held_back(words);
}

/// Simple input knows three commands and sends every other line that is not blank as
/// it stands, also one that begins with a slash.
pub proof fn simple_lines_are_sent(s: SessionModel, line: Seq<char>, i: int)
    requires
        0 <= i < line.len(),
        !text::is_white(line[i]),
        text::trimmed(line) != "/bye"@,
        text::trimmed(line) != "/exit"@,
        text::trimmed(line) != "/clear"@,
    ensures
        after_simple_line(s, line) == (s, ActionModel::Submit(line)),
{
    only_blank_messages_are_held_back(line);
    text::trimming_takes_white_space_only(line);
}

} // verus!
