//! Pieces of an answer: what the inference server sends, and what becomes of it
//! in the other two APIs.

use serde_json::Value;
use vstd::prelude::*;
use crate::clock;
use crate::cmd::serve::lines;
use crate::json;
use crate::json::{Doc, ObjectBuilder};
use crate::text;

verus! {

/// Data that ends a stream.
pub const DONE: &'static str = "[DONE]";

// ---------------------------------------------------------------------------
// What the inference server sends
// ---------------------------------------------------------------------------

/// A piece of a completion.
#[derive(Debug)]
pub struct OAIChunk {
    pub choices: Vec<OAIChunkChoice>,
}

/// One of the alternatives of a completion.
#[derive(Debug)]
pub struct OAIChunkChoice {
    pub delta: OAIChunkDelta,
    pub finish_reason: Option<String>,
}

/// What a piece adds.  Thoughts come under one of two names.
#[derive(Debug)]
pub struct OAIChunkDelta {
    pub content: Option<String>,
    pub reasoning_content: Option<String>,
    pub thinking: Option<String>,
}

/// What a piece of an answer adds, and whether it is the last one.
#[derive(Debug)]
pub struct Piece {
    pub content: String,
    pub thinking: Option<String>,
    pub done: bool,
}

/// What a piece of an answer says.
pub struct PieceModel {
    pub content: Seq<char>,
    pub thinking: Option<Seq<char>>,
    pub done: bool,
}

impl View for Piece {
    type V = PieceModel;

    open spec fn view(&self) -> PieceModel {
        PieceModel {
            content: self.content@,
            thinking: text::opt_text(self.thinking),
            done: self.done,
        }
    }
}

/// What an optional piece says.
pub open spec fn opt_piece(p: Option<Piece>) -> Option<PieceModel> {
    match p {
        Some(x) => Some(x@),
        None => None,
    }
}

/// Present and not empty.
pub open spec fn not_empty(o: Option<Seq<char>>) -> Option<Seq<char>> {
    match o {
        Some(s) => if s.len() > 0 {
            Some(s)
        } else {
            None
        },
        None => None,
    }
}

/// The thoughts of a piece: those called `reasoning_content`, or else those
/// called `thinking`, unless they are empty.
pub open spec fn thoughts_of(d: OAIChunkDelta) -> Option<Seq<char>> {
    not_empty(
        match d.reasoning_content {
            Some(t) => Some(t@),
            None => text::opt_text(d.thinking),
        },
    )
}

/// What the first alternative says.
pub open spec fn piece_of_choice(c: OAIChunkChoice) -> PieceModel {
    PieceModel {
        content: match c.delta.content {
            Some(s) => s@,
            None => Seq::<char>::empty(),
        },
        thinking: thoughts_of(c.delta),
        done: match c.finish_reason {
            Some(r) => r@.len() > 0 && r@ != "null"@,
            None => false,
        },
    }
}

/// What the data of a line says, where `chunk` is what it stands for.
pub open spec fn piece_of(payload: Seq<char>, chunk: Option<OAIChunk>) -> Option<PieceModel> {
    if payload == DONE@ {
        Some(PieceModel { content: Seq::<char>::empty(), thinking: None, done: true })
    } else {
        match chunk {
            Some(c) => if c.choices@.len() > 0 {
                Some(piece_of_choice(c.choices@[0]))
            } else {
                None
            },
            None => None,
        }
    }
}

/// What a line says, where `chunk` is what its data stands for.
pub open spec fn piece_of_line(line: Seq<char>, chunk: Option<OAIChunk>) -> Option<PieceModel> {
    match text::without_prefix(line, lines::DATA@) {
        Some(payload) => piece_of(payload, chunk),
        None => None,
    }
}

fn copy_of(o: &Option<String>) -> (r: Option<String>)
    ensures
        text::opt_text(r) == text::opt_text(*o),
{
    match o {
        Some(s) => Some(s.clone()),
        None => None,
    }
}

fn drop_empty(o: Option<String>) -> (r: Option<String>)
    ensures
        text::opt_text(r) == not_empty(text::opt_text(o)),
{
    match o {
        Some(s) => if s.as_str().is_empty() {
            None
        } else {
            Some(s)
        },
        None => None,
    }
}

/// What the data of a line says.  `chunk` is what the data stands for, or
/// `None` where it stands for no piece of a completion.
pub fn oai_chunk_to_content(payload: &str, chunk: &Option<OAIChunk>) -> (r: Option<Piece>)
    ensures
        opt_piece(r) == piece_of(payload@, *chunk),
        payload@ == "[DONE]"@ ==> (r matches Some(p) && p.content@.len() == 0 && p.thinking is None
            && p.done),
        payload@ != "[DONE]"@ ==> (match *chunk {
            Some(c) => (r is Some) == (c.choices@.len() > 0),
            None => r is None,
        }),
        payload@ != "[DONE]"@ ==> (r matches Some(p) ==> (match (*chunk)->0.choices@[0].delta.content {
            Some(s) => p.content@ == s@,
            None => p.content@.len() == 0,
        })),
        payload@ != "[DONE]"@ ==> (r matches Some(p) ==> (match (
            *chunk)->0.choices@[0].delta.reasoning_content {
            Some(t) if t@.len() > 0 => p.thinking matches Some(u) && u@ == t@,
            Some(_) => p.thinking is None,
            None => match (*chunk)->0.choices@[0].delta.thinking {
                Some(t) if t@.len() > 0 => p.thinking matches Some(u) && u@ == t@,
                _ => p.thinking is None,
            },
        })),
        payload@ != "[DONE]"@ ==> (r matches Some(p) ==> (match (*chunk)->0.choices@[0].finish_reason {
            Some(f) => p.done == (f@.len() > 0 && f@ != "null"@),
            None => !p.done,
        })),
{
    if text::same(payload, DONE) {
        return Some(Piece { content: String::new(), thinking: None, done: true });
    }
    match chunk {
        Some(c) => {
            if c.choices.len() == 0 {
                return None;
            }
            let choice: &OAIChunkChoice = &c.choices[0];
            let content: String = match &choice.delta.content {
                Some(s) => s.clone(),
                None => String::new(),
            };
            let thinking: Option<String> = drop_empty(
                match &choice.delta.reasoning_content {
                    Some(t) => Some(t.clone()),
                    None => copy_of(&choice.delta.thinking),
                },
            );
            let done: bool = match &choice.finish_reason {
                Some(r) => !r.as_str().is_empty() && !text::same(r.as_str(), "null"),
                None => false,
            };
            Some(Piece { content, thinking, done })
        },
        None => None,
    }
}

fn line_to_piece(line: &str, chunk: &Option<OAIChunk>) -> (r: Option<Piece>)
    ensures
        opt_piece(r) == piece_of_line(line@, *chunk),
{
    match lines::payload_of(line) {
        Some(payload) => oai_chunk_to_content(payload, chunk),
        None => None,
    }
}

// ---------------------------------------------------------------------------
// A whole completion
// ---------------------------------------------------------------------------

/// The contents of the pieces up to the last one.
pub open spec fn collected(pieces: Seq<Option<PieceModel>>) -> Seq<char>
    decreases pieces.len(),
{
    if pieces.len() == 0 {
        Seq::<char>::empty()
    } else {
        match pieces[0] {
            Some(p) => if p.done {
                p.content
            } else {
                p.content + collected(pieces.drop_first())
            },
            None => collected(pieces.drop_first()),
        }
    }
}

/// What the data of each line says.
pub open spec fn pieces_of(data: Seq<Seq<char>>, chunks: Seq<Option<OAIChunk>>) -> Seq<
    Option<PieceModel>,
> {
    Seq::new(
        data.len(),
        |i: int|
            piece_of(
                data[i],
                if i < chunks.len() {
                    chunks[i]
                } else {
                    None
                },
            ),
    )
}

/// Why no completion came.
#[derive(Debug)]
pub enum BackendError {
    /// The answer was empty.
    EmptyBody,
    /// The server refused, with a status and a reason.
    Refused { status: String, body: String },
}

impl BackendError {
    /// The words of the error.
    pub open spec fn words(self) -> Seq<char> {
        match self {
            BackendError::EmptyBody => "inference backend returned empty response body"@,
            BackendError::Refused { status, body } => "inference backend "@ + status@ + ": "@
                + body@,
        }
    }

    /// The error as a message.
    pub fn message(&self) -> (r: String)
        ensures
            r@ == self.words(),
    {
        match self {
            BackendError::EmptyBody => "inference backend returned empty response body".to_string(),
            BackendError::Refused { status, body } => {
                let mut r: String = text::concat2("inference backend ", status.as_str());
                r.append(": ");
                r.append(body.as_str());
                r
            },
        }
    }
}

/// The data in the answer of the inference server, in the order of the lines.
pub fn completion_payloads(raw: &[u8]) -> (r: Result<Vec<String>, BackendError>)
    ensures
        match r {
            Ok(p) => raw@.len() > 0 && text::texts(p@) == lines::payloads(
                lines::text_lines(text::decoded(raw@)),
            ),
            Err(e) => raw@.len() == 0 && e == BackendError::EmptyBody,
        },
{
    if raw.len() == 0 {
        return Err(BackendError::EmptyBody);
    }
    let t: String = text::decode_lossy(raw);
    Ok(lines::payloads_of(t.as_str()))
}

/// The contents of a whole completion.  `chunks` gives what the data of each
/// line stands for.
pub fn collect_completion(data: &Vec<String>, chunks: &Vec<Option<OAIChunk>>) -> (r: String)
    ensures
        r@ == collected(pieces_of(text::texts(data@), chunks@)),
{
    let ghost all = pieces_of(text::texts(data@), chunks@);
    let mut r: String = String::new();
    let mut i: usize = 0;
    assert(all.subrange(0, all.len() as int) =~= all);
    assert(Seq::<char>::empty() + collected(all) =~= collected(all));
    while i < data.len()
        invariant
            i <= data.len(),
            all == pieces_of(text::texts(data@), chunks@),
            r@ + collected(all.subrange(i as int, all.len() as int)) == collected(all),
        decreases data.len() - i,
    {
        let ghost rest = all.subrange(i as int, all.len() as int);
        assert(rest.drop_first() =~= all.subrange(i + 1, all.len() as int));
        let none: Option<OAIChunk> = None;
        let chunk: &Option<OAIChunk> = if i < chunks.len() {
            &chunks[i]
        } else {
            &none
        };
        let piece: Option<Piece> = oai_chunk_to_content(data[i].as_str(), chunk);
        assert(opt_piece(piece) == rest[0]);
        match piece {
            Some(p) => {
                let ghost before = r@;
                r.append(p.content.as_str());
                if p.done {
                    return r;
                }
                assert(before + (p.content@ + collected(rest.drop_first())) =~= r@ + collected(
                    rest.drop_first(),
                ));
            },
            None => {},
        }
        i += 1;
    }
    assert(r@ + Seq::<char>::empty() =~= r@);
    r
}

// ---------------------------------------------------------------------------
// Ollama
// ---------------------------------------------------------------------------

/// A message in the Ollama API.
#[derive(Debug)]
pub struct OllamaMessage {
    pub role: String,
    pub content: String,
    pub thinking: Option<String>,
}

/// A piece of an answer to `/api/chat`.
#[derive(Debug)]
pub struct OllamaChatChunk {
    pub model: String,
    pub created_at: String,
    pub message: OllamaMessage,
    pub done: bool,
    pub done_reason: Option<String>,
}

/// A piece of an answer to `/api/generate`.
#[derive(Debug)]
pub struct OllamaGenerateChunk {
    pub model: String,
    pub created_at: String,
    pub response: String,
    pub thinking: Option<String>,
    pub done: bool,
    pub done_reason: Option<String>,
}

/// The last piece is marked with the reason `stop`.
pub open spec fn stop_reason(done: bool) -> Option<Seq<char>> {
    if done {
        Some("stop"@)
    } else {
        None
    }
}

/// The chunk carries the piece to a client of `/api/chat`.
pub open spec fn carries_chat(c: OllamaChatChunk, p: PieceModel, model: Seq<char>) -> bool {
    &&& c.model@ == model
    &&& c.message.role@ == "assistant"@
    &&& c.message.content@ == p.content
    &&& text::opt_text(c.message.thinking) == p.thinking
    &&& c.done == p.done
    &&& text::opt_text(c.done_reason) == stop_reason(p.done)
}

/// The chunk carries the piece to a client of `/api/generate`.
pub open spec fn carries_generate(c: OllamaGenerateChunk, p: PieceModel, model: Seq<char>) -> bool {
    &&& c.model@ == model
    &&& c.response@ == p.content
    &&& text::opt_text(c.thinking) == p.thinking
    &&& c.done == p.done
    &&& text::opt_text(c.done_reason) == stop_reason(p.done)
}

fn reason_for(done: bool) -> (r: Option<String>)
    ensures
        text::opt_text(r) == stop_reason(done),
{
    if done {
        Some("stop".to_string())
    } else {
        None
    }
}

/// The chunk for `/api/chat` that a line leads to at a given time.
pub fn chat_chunk(line: &str, chunk: &Option<OAIChunk>, model: &str, created_at: &str) -> (r: Option<
    OllamaChatChunk,
>)
    ensures
        match piece_of_line(line@, *chunk) {
            Some(p) => r matches Some(c) && carries_chat(c, p, model@) && c.created_at@
                == created_at@,
            None => r is None,
        },
{
    match line_to_piece(line, chunk) {
        Some(p) => Some(
            OllamaChatChunk {
                model: model.to_string(),
                created_at: created_at.to_string(),
                message: OllamaMessage {
                    role: "assistant".to_string(),
                    content: p.content,
                    thinking: p.thinking,
                },
                done: p.done,
                done_reason: reason_for(p.done),
            },
        ),
        None => None,
    }
}

/// The chunk for `/api/chat` that a line leads to now.
pub fn stream_ollama_chat(line: &str, chunk: &Option<OAIChunk>, model: &str) -> (r: Option<
    OllamaChatChunk,
>)
    ensures
        match piece_of_line(line@, *chunk) {
            Some(p) => r matches Some(c) && carries_chat(c, p, model@) && clock::is_now(
                c.created_at@,
            ),
            None => r is None,
        },
{
    let now: String = clock::now_rfc3339();
    chat_chunk(line, chunk, model, now.as_str())
}

/// The chunk for `/api/generate` that a line leads to at a given time.
pub fn generate_chunk(line: &str, chunk: &Option<OAIChunk>, model: &str, created_at: &str) -> (r:
    Option<OllamaGenerateChunk>)
    ensures
        match piece_of_line(line@, *chunk) {
            Some(p) => r matches Some(c) && carries_generate(c, p, model@) && c.created_at@
                == created_at@,
            None => r is None,
        },
{
    match line_to_piece(line, chunk) {
        Some(p) => Some(
            OllamaGenerateChunk {
                model: model.to_string(),
                created_at: created_at.to_string(),
                response: p.content,
                thinking: p.thinking,
                done: p.done,
                done_reason: reason_for(p.done),
            },
        ),
        None => None,
    }
}

/// The chunk for `/api/generate` that a line leads to now.
pub fn stream_ollama_generate(line: &str, chunk: &Option<OAIChunk>, model: &str) -> (r: Option<
    OllamaGenerateChunk,
>)
    ensures
        match piece_of_line(line@, *chunk) {
            Some(p) => r matches Some(c) && carries_generate(c, p, model@) && clock::is_now(
                c.created_at@,
            ),
            None => r is None,
        },
{
    let now: String = clock::now_rfc3339();
    generate_chunk(line, chunk, model, now.as_str())
}

// ---------------------------------------------------------------------------
// Anthropic
// ---------------------------------------------------------------------------

/// An event with its data.
pub open spec fn event(name: Seq<char>, data: Seq<char>) -> Seq<char> {
    "event: "@ + name + "\ndata: "@ + data + "\n\n"@
}

/// Writes an event with its data.
pub fn event_text(name: &str, data: &str) -> (r: String)
    ensures
        r@ == event(name@, data@),
{
    let mut r: String = text::concat3("event: ", name, "\ndata: ");
    r.append(data);
    r.append("\n\n");
    r
}

/// The JSON number zero.
pub open spec fn zero() -> Doc {
    Doc::Number(text::decimal(0))
}

/// No tokens are counted.
pub open spec fn no_usage() -> Doc {
    Doc::Object(map!["input_tokens"@ => zero(), "output_tokens"@ => zero()])
}

/// Data of the event that opens a message.
pub open spec fn message_start(id: Seq<char>, model: Seq<char>) -> Doc {
    Doc::Object(
        map![
            "type"@ => Doc::Text("message_start"@),
            "message"@ => Doc::Object(map![
                "id"@ => Doc::Text(id),
                "type"@ => Doc::Text("message"@),
                "role"@ => Doc::Text("assistant"@),
                "content"@ => Doc::List(Seq::<Doc>::empty()),
                "model"@ => Doc::Text(model),
                "stop_reason"@ => Doc::Null,
                "usage"@ => no_usage(),
            ]),
        ],
    )
}

/// Data of the event that opens the text of a message.
pub open spec fn block_start() -> Doc {
    Doc::Object(
        map![
            "type"@ => Doc::Text("content_block_start"@),
            "index"@ => zero(),
            "content_block"@ => Doc::Object(map![
                "type"@ => Doc::Text("text"@),
                "text"@ => Doc::Text(""@),
            ]),
        ],
    )
}

/// Data of an event that adds text to a message.
pub open spec fn block_delta(content: Seq<char>) -> Doc {
    Doc::Object(
        map![
            "type"@ => Doc::Text("content_block_delta"@),
            "index"@ => zero(),
            "delta"@ => Doc::Object(map![
                "type"@ => Doc::Text("text_delta"@),
                "text"@ => Doc::Text(content),
            ]),
        ],
    )
}

/// Data of the event that tells why a message ends.
pub open spec fn message_delta() -> Doc {
    Doc::Object(
        map![
            "type"@ => Doc::Text("message_delta"@),
            "delta"@ => Doc::Object(map![
                "stop_reason"@ => Doc::Text("end_turn"@),
                "stop_sequence"@ => Doc::Null,
            ]),
            "usage"@ => Doc::Object(map!["output_tokens"@ => zero()]),
        ],
    )
}

/// Data of the event that closes a message.
pub open spec fn message_stop() -> Doc {
    Doc::Object(map!["type"@ => Doc::Text("message_stop"@)])
}

/// The events that open a message.
pub open spec fn opening(id: Seq<char>, model: Seq<char>) -> Seq<char> {
    event("message_start"@, json::rendered(message_start(id, model))) + event(
        "content_block_start"@,
        json::rendered(block_start()),
    )
}

/// The events that close a message.
pub open spec fn closing() -> Seq<char> {
    event("content_block_stop"@, "{\"type\":\"content_block_stop\",\"index\":0}"@) + event(
        "message_delta"@,
        json::rendered(message_delta()),
    ) + event("message_stop"@, json::rendered(message_stop()))
}

/// The text that a piece of a completion adds in the Anthropic API.
pub open spec fn content_of(chunk: Option<OAIChunk>) -> Seq<char> {
    match chunk {
        Some(c) => if c.choices@.len() > 0 {
            piece_of_choice(c.choices@[0]).content
        } else {
            Seq::<char>::empty()
        },
        None => Seq::<char>::empty(),
    }
}

/// The events that a line leads to, where `chunk` is what its data stands for.
pub open spec fn events_of_line(line: Seq<char>, chunk: Option<OAIChunk>) -> Seq<char> {
    match text::without_prefix(line, lines::DATA@) {
        Some(payload) => if payload == DONE@ {
            closing()
        } else if content_of(chunk).len() > 0 {
            event("content_block_delta"@, json::rendered(block_delta(content_of(chunk))))
        } else {
            Seq::<char>::empty()
        },
        None => Seq::<char>::empty(),
    }
}

/// The count of tokens, which is not taken.
pub fn no_usage_value() -> (r: Value)
    ensures
        json::doc(r) == no_usage(),
{
    ObjectBuilder::new().with_number("input_tokens", 0).with_number("output_tokens", 0).build()
}

/// The events that open a message.
pub fn anthropic_opening(id: &str, model: &str) -> (r: String)
    ensures
        r@ == opening(id@, model@),
{
    let message: Value = ObjectBuilder::new().with_text("id", id).with_text("type", "message").with_text(
        "role",
        "assistant",
    ).with("content", json::nothing()).with_text("model", model).with(
        "stop_reason",
        json::null(),
    ).with("usage", no_usage_value()).build();
    let start: Value = ObjectBuilder::new().with_text("type", "message_start").with(
        "message",
        message,
    ).build();
    let block: Value = ObjectBuilder::new().with_text("type", "text").with_text("text", "").build();
    let block_start: Value = ObjectBuilder::new().with_text("type", "content_block_start").with_number(
        "index",
        0,
    ).with("content_block", block).build();
    let first: String = event_text("message_start", json::render(&start).as_str());
    let second: String = event_text("content_block_start", json::render(&block_start).as_str());
    text::concat2(first.as_str(), second.as_str())
}

/// The events that open a message, under a new identifier.
pub fn stream_anthropic_start(model: &str) -> (r: String)
    ensures
        exists|nanos: u128|
            r@ == opening(#[trigger] text::hex_padded(nanos as nat, 32), model@),
{
    let id: String = clock::gen_id();
    anthropic_opening(id.as_str(), model)
}

fn anthropic_closing() -> (r: String)
    ensures
        r@ == closing(),
{
    let reason: Value = ObjectBuilder::new().with_text("stop_reason", "end_turn").with(
        "stop_sequence",
        json::null(),
    ).build();
    let usage: Value = ObjectBuilder::new().with_number("output_tokens", 0).build();
    let delta: Value = ObjectBuilder::new().with_text("type", "message_delta").with(
        "delta",
        reason,
    ).with("usage", usage).build();
    let stop: Value = ObjectBuilder::new().with_text("type", "message_stop").build();
    let first: String = event_text(
        "content_block_stop",
        "{\"type\":\"content_block_stop\",\"index\":0}",
    );
    let second: String = event_text("message_delta", json::render(&delta).as_str());
    let third: String = event_text("message_stop", json::render(&stop).as_str());
    text::concat3(first.as_str(), second.as_str(), third.as_str())
}

/// The events that a line leads to.  `chunk` is what its data stands for.
pub fn stream_anthropic(line: &str, chunk: &Option<OAIChunk>) -> (r: String)
    ensures
        r@ == events_of_line(line@, *chunk),
{
    let payload: &str = match lines::payload_of(line) {
        Some(p) => p,
        None => {
            return String::new();
        },
    };
    if text::same(payload, DONE) {
        return anthropic_closing();
    }
    match chunk {
        Some(c) => {
            if c.choices.len() == 0 {
                return String::new();
            }
            match &c.choices[0].delta.content {
                Some(content) => {
                    if content.as_str().is_empty() {
                        String::new()
                    } else {
                        let added: Value = ObjectBuilder::new().with_text(
                            "type",
                            "text_delta",
                        ).with_text("text", content.as_str()).build();
                        let delta: Value = ObjectBuilder::new().with_text(
                            "type",
                            "content_block_delta",
                        ).with_number("index", 0).with("delta", added).build();
                        event_text("content_block_delta", json::render(&delta).as_str())
                    }
                },
                None => String::new(),
            }
        },
        None => String::new(),
    }
}

// ---------------------------------------------------------------------------
// Laws
// ---------------------------------------------------------------------------

/// Pieces behind the last one of a completion do not count.
pub proof fn pieces_behind_the_last_do_not_count(
    before: Seq<Option<PieceModel>>,
    last: PieceModel,
    behind: Seq<Option<PieceModel>>,
)
    requires
        last.done,
    ensures
        collected(before.push(Some(last)) + behind) == collected(before.push(Some(last))),
    decreases before.len(),
{
    let whole = before.push(Some(last)) + behind;
    let part = before.push(Some(last));
    if before.len() > 0 {
        assert(whole.drop_first() =~= before.drop_first().push(Some(last)) + behind);
        assert(part.drop_first() =~= before.drop_first().push(Some(last)));
        pieces_behind_the_last_do_not_count(before.drop_first(), last, behind);
    }
}

/// A piece is the last one.
pub open spec fn is_last(p: Option<PieceModel>) -> bool {
    match p {
        Some(x) => x.done,
        None => false,
    }
}

/// One of the pieces is the last one.
pub open spec fn is_complete(pieces: Seq<Option<PieceModel>>) -> bool {
    exists|i: int| 0 <= i < pieces.len() && is_last(#[trigger] pieces[i])
}

/// What the lines of an answer say, each with what its data stands for.
pub open spec fn pieces_of_lines(
    all: Seq<Seq<char>>,
    chunks: Seq<Option<OAIChunk>>,
) -> Seq<Option<PieceModel>> {
    Seq::new(all.len(), |i: int| piece_of_line(all[i], chunks[i]))
}

/// What the data stands for, of the lines that carry data.
pub open spec fn chunks_with_data(
    all: Seq<Seq<char>>,
    chunks: Seq<Option<OAIChunk>>,
) -> Seq<Option<OAIChunk>>
    decreases all.len(),
{
    if all.len() == 0 {
        Seq::<Option<OAIChunk>>::empty()
    } else {
        let before = chunks_with_data(all.drop_last(), chunks);
        match text::without_prefix(all.last(), lines::DATA@) {
            Some(_) => before.push(chunks[all.len() - 1]),
            None => before,
        }
    }
}

proof fn lemma_collected_push(pieces: Seq<Option<PieceModel>>, p: Option<PieceModel>)
    ensures
        collected(pieces.push(p)) == (if is_complete(pieces) {
            collected(pieces)
        } else {
            match p {
                Some(x) => collected(pieces) + x.content,
                None => collected(pieces),
            }
        }),
        is_complete(pieces.push(p)) == (is_complete(pieces) || is_last(p)),
    decreases pieces.len(),
{
    let longer = pieces.push(p);
    assert(longer[pieces.len() as int] == p);
    assert(is_complete(longer) == (is_complete(pieces) || is_last(p))) by {
        if is_complete(pieces) {
            let i = choose|i: int| 0 <= i < pieces.len() && is_last(#[trigger] pieces[i]);
            assert(longer[i] == pieces[i]);
        }
        if is_complete(longer) {
            let i = choose|i: int| 0 <= i < longer.len() && is_last(#[trigger] longer[i]);
            if i < pieces.len() {
                assert(pieces[i] == longer[i]);
            }
        }
    }
    if pieces.len() == 0 {
        assert(longer.drop_first() =~= Seq::<Option<PieceModel>>::empty());
        assert(collected(longer.drop_first()) == Seq::<char>::empty());
        assert(collected(longer) =~= (match p {
            Some(x) => collected(pieces) + x.content,
            None => collected(pieces),
        }));
    } else {
        let rest = pieces.drop_first();
        assert(longer.drop_first() =~= rest.push(p));
        lemma_collected_push(rest, p);
        assert(is_complete(pieces) == (is_last(pieces[0]) || is_complete(rest))) by {
            if is_complete(pieces) {
                let i = choose|i: int| 0 <= i < pieces.len() && is_last(#[trigger] pieces[i]);
                if i > 0 {
                    assert(rest[i - 1] == pieces[i]);
                }
            }
            if is_complete(rest) {
                let i = choose|i: int| 0 <= i < rest.len() && is_last(#[trigger] rest[i]);
                assert(pieces[i + 1] == rest[i]);
            }
        }
        match (pieces[0], p) {
            (Some(first), Some(x)) => {
                assert(first.content + (collected(rest) + x.content) =~= first.content
                    + collected(rest) + x.content);
            },
            _ => {},
        }
    }
}

/// A client that gets an answer in pieces and one that gets it whole read the
/// same text: what the lines say one by one adds up to the completion that is
/// collected from their data.
pub proof fn streaming_and_collecting_agree(all: Seq<Seq<char>>, chunks: Seq<Option<OAIChunk>>)
    requires
        chunks.len() == all.len(),
    ensures
        collected(pieces_of_lines(all, chunks)) == collected(
            pieces_of(lines::payloads(all), chunks_with_data(all, chunks)),
        ),
{
    lemma_streaming(all, chunks);
}

proof fn lemma_streaming(all: Seq<Seq<char>>, chunks: Seq<Option<OAIChunk>>)
    requires
        chunks.len() >= all.len(),
    ensures
        ({
            let streamed = pieces_of_lines(all, chunks);
            let whole = pieces_of(lines::payloads(all), chunks_with_data(all, chunks));
            &&& collected(streamed) == collected(whole)
            &&& is_complete(streamed) == is_complete(whole)
            &&& chunks_with_data(all, chunks).len() == lines::payloads(all).len()
        }),
    decreases all.len(),
{
    let streamed = pieces_of_lines(all, chunks);
    let data = lines::payloads(all);
    let kept = chunks_with_data(all, chunks);
    let whole = pieces_of(data, kept);
    if all.len() == 0 {
        assert(streamed =~= whole);
    } else {
        let before = all.drop_last();
        lemma_streaming(before, chunks);
        let last = piece_of_line(all.last(), chunks[all.len() - 1]);
        assert(streamed =~= pieces_of_lines(before, chunks).push(last));
        lemma_collected_push(pieces_of_lines(before, chunks), last);
        let whole_before = pieces_of(lines::payloads(before), chunks_with_data(before, chunks));
        match text::without_prefix(all.last(), lines::DATA@) {
            Some(p) => {
                assert(whole =~= whole_before.push(last));
                lemma_collected_push(whole_before, last);
            },
            None => {
                assert(whole =~= whole_before);
            },
        }
    }
}

proof fn lemma_data_line(payload: Seq<char>)
    ensures
        text::without_prefix("data: "@ + payload, lines::DATA@) == Some(payload),
{
    let line = "data: "@ + payload;
    let n = "data: "@.len() as int;
    assert("data: "@.is_prefix_of(line)) by {
        assert(line.subrange(0, n) =~= "data: "@);
    }
    assert(line.subrange(n, line.len() as int) =~= payload);
}

/// A client of `/api/chat` reads what the first alternative of a piece adds, every
/// character of it, with its thoughts, and learns whether it is the last one.
pub proof fn chat_client_reads_the_delta(
    payload: Seq<char>,
    chunk: OAIChunk,
    model: Seq<char>,
    out: Option<OllamaChatChunk>,
)
    requires
        payload != "[DONE]"@,
        match piece_of_line("data: "@ + payload, Some(chunk)) {
            Some(p) => out matches Some(c) && carries_chat(c, p, model),
            None => out is None,
        },
    ensures
        (out is Some) == (chunk.choices@.len() > 0),
        out matches Some(c) ==> {
            let first = chunk.choices@[0];
            &&& c.model@ == model
            &&& c.message.role@ == "assistant"@
            &&& first.delta.content matches Some(s) ==> c.message.content@ == s@
            &&& first.delta.content is None ==> c.message.content@.len() == 0
            &&& first.delta.reasoning_content matches Some(t) ==> t@.len() > 0 ==> (
            c.message.thinking matches Some(u) && u@ == t@)
            &&& first.delta.reasoning_content is None ==> (first.delta.thinking matches Some(t)
                ==> t@.len() > 0 ==> (c.message.thinking matches Some(u) && u@ == t@))
            &&& first.delta.reasoning_content matches Some(t) ==> t@.len() == 0
                ==> c.message.thinking is None
            &&& first.delta.reasoning_content is None ==> (first.delta.thinking matches Some(t)
                ==> t@.len() == 0 ==> c.message.thinking is None)
            &&& first.delta.reasoning_content is None && first.delta.thinking is None
                ==> c.message.thinking is None
            &&& first.finish_reason is None ==> !c.done
            &&& !c.done ==> c.done_reason is None
            &&& first.finish_reason matches Some(f) ==> c.done == (f@.len() > 0 && f@ != "null"@)
            &&& c.done ==> (c.done_reason matches Some(w) && w@ == "stop"@)
        },
{
    lemma_data_line(payload);
}

/// A client of `/api/generate` reads what the first alternative of a piece adds,
/// every character of it, with its thoughts, and learns whether it is the last one.
pub proof fn generate_client_reads_the_delta(
    payload: Seq<char>,
    chunk: OAIChunk,
    model: Seq<char>,
    out: Option<OllamaGenerateChunk>,
)
    requires
        payload != "[DONE]"@,
        match piece_of_line("data: "@ + payload, Some(chunk)) {
            Some(p) => out matches Some(c) && carries_generate(c, p, model),
            None => out is None,
        },
    ensures
        (out is Some) == (chunk.choices@.len() > 0),
        out matches Some(c) ==> {
            let first = chunk.choices@[0];
            &&& c.model@ == model
            &&& first.delta.content matches Some(s) ==> c.response@ == s@
            &&& first.delta.content is None ==> c.response@.len() == 0
            &&& first.delta.reasoning_content matches Some(t) ==> t@.len() > 0 ==> (
            c.thinking matches Some(u) && u@ == t@)
            &&& first.delta.reasoning_content is None ==> (first.delta.thinking matches Some(t)
                ==> t@.len() > 0 ==> (c.thinking matches Some(u) && u@ == t@))
            &&& first.delta.reasoning_content matches Some(t) ==> t@.len() == 0
                ==> c.thinking is None
            &&& first.delta.reasoning_content is None ==> (first.delta.thinking matches Some(t)
                ==> t@.len() == 0 ==> c.thinking is None)
            &&& first.delta.reasoning_content is None && first.delta.thinking is None
                ==> c.thinking is None
            &&& first.finish_reason is None ==> !c.done
            &&& !c.done ==> c.done_reason is None
            &&& first.finish_reason matches Some(f) ==> c.done == (f@.len() > 0 && f@ != "null"@)
            &&& c.done ==> (c.done_reason matches Some(w) && w@ == "stop"@)
        },
{
    lemma_data_line(payload);
}

/// The end mark ends an answer without adding to it, and lines that carry no data
/// lead to nothing.
pub proof fn end_mark_adds_nothing(line: Seq<char>, chunk: Option<OAIChunk>)
    ensures
        piece_of_line("data: [DONE]"@, chunk) matches Some(p) && p.content.len() == 0
            && p.thinking is None && p.done,
        !"data: "@.is_prefix_of(line) ==> piece_of_line(line, chunk) is None,
        !"data: "@.is_prefix_of(line) ==> events_of_line(line, chunk).len() == 0,
{
    reveal_strlit("data: ");
    reveal_strlit("[DONE]");
    reveal_strlit("data: [DONE]");
    assert("data: "@ + "[DONE]"@ =~= "data: [DONE]"@);
    lemma_data_line("[DONE]"@);
}

/// An answer is what its pieces add, one behind the other: every character of
/// every piece, up to the end mark.
pub proof fn answer_is_its_deltas(
    data: Seq<Seq<char>>,
    chunks: Seq<Option<OAIChunk>>,
    added: Seq<Seq<char>>,
    behind: Seq<Seq<char>>,
)
    requires
        chunks.len() == data.len(),
        added.len() == data.len(),
        forall|i: int| 0 <= i < data.len() ==> #[trigger] data[i] != "[DONE]"@,
        forall|i: int|
            0 <= i < data.len() ==> (#[trigger] chunks[i] matches Some(c) && c.choices@.len() > 0
                && c.choices@[0].finish_reason is None && (
            c.choices@[0].delta.content matches Some(s) && s@ == added[i])),
    ensures
        collected(pieces_of(data, chunks)) == added.flatten(),
        collected(pieces_of(data.push("[DONE]"@) + behind, chunks)) == added.flatten(),
    decreases data.len(),
{
    lemma_answer(data, chunks, added);
    let none: Option<OAIChunk> = None;
    let end = PieceModel { content: Seq::<char>::empty(), thinking: None, done: true };
    let all = pieces_of(data.push("[DONE]"@) + behind, chunks);
    let n = data.len() as int;
    let part = pieces_of(data, chunks);
    let rest = all.subrange(n + 1, all.len() as int);
    assert(all =~= part.push(Some(end)) + rest);
    pieces_behind_the_last_do_not_count(part, end, rest);
    lemma_collected_push(part, Some(end));
    assert(added.flatten() + end.content =~= added.flatten());
}

proof fn lemma_answer(
    data: Seq<Seq<char>>,
    chunks: Seq<Option<OAIChunk>>,
    added: Seq<Seq<char>>,
)
    requires
        chunks.len() == data.len(),
        added.len() == data.len(),
        forall|i: int| 0 <= i < data.len() ==> #[trigger] data[i] != "[DONE]"@,
        forall|i: int|
            0 <= i < data.len() ==> (#[trigger] chunks[i] matches Some(c) && c.choices@.len() > 0
                && c.choices@[0].finish_reason is None && (
            c.choices@[0].delta.content matches Some(s) && s@ == added[i])),
    ensures
        collected(pieces_of(data, chunks)) == added.flatten(),
        !is_complete(pieces_of(data, chunks)),
    decreases data.len(),
{
    let pieces = pieces_of(data, chunks);
    if data.len() > 0 {
        let d = data.drop_last();
        let c = chunks.drop_last();
        let a = added.drop_last();
        assert(forall|i: int| 0 <= i < d.len() ==> d[i] == data[i]);
        assert(forall|i: int| 0 <= i < d.len() ==> c[i] == chunks[i]);
        lemma_answer(d, c, a);
        let last = data.len() - 1;
        assert(data[last] != "[DONE]"@);
        assert(chunks[last] is Some);
        assert(pieces =~= pieces_of(d, c).push(pieces[last]));
        lemma_collected_push(pieces_of(d, c), pieces[last]);
        a.lemma_flatten_push(added[last]);
        assert(a.push(added[last]) =~= added);
    } else {
        assert(pieces.len() == 0);
    }
}

/// In the Anthropic API, whatever the first alternative of a piece adds goes into
/// exactly one event, as it stands, white space or not.  A piece that adds no
/// character leads to no event.
pub proof fn added_text_is_one_event(payload: Seq<char>, chunk: OAIChunk, s: Seq<char>)
    requires
        payload != "[DONE]"@,
        chunk.choices@.len() > 0,
        chunk.choices@[0].delta.content matches Some(c) && c@ == s,
    ensures
        s.len() > 0 ==> events_of_line("data: "@ + payload, Some(chunk))
            == "event: content_block_delta\ndata: "@ + json::rendered(
            Doc::Object(
                map![
                    "type"@ => Doc::Text("content_block_delta"@),
                    "index"@ => Doc::Number(text::decimal(0)),
                    "delta"@ => Doc::Object(map![
                        "type"@ => Doc::Text("text_delta"@),
                        "text"@ => Doc::Text(s),
                    ]),
                ],
            ),
        ) + "\n\n"@,
        s.len() == 0 ==> events_of_line("data: "@ + payload, Some(chunk)).len() == 0,
{
    lemma_data_line(payload);
    reveal_strlit("event: ");
    reveal_strlit("content_block_delta");
    reveal_strlit("\ndata: ");
    reveal_strlit("event: content_block_delta\ndata: ");
    assert("event: "@ + "content_block_delta"@ + "\ndata: "@
        =~= "event: content_block_delta\ndata: "@);
}

/// In the Anthropic API, a piece that adds nothing leads to no event.
pub proof fn nothing_added_is_no_event(payload: Seq<char>, chunk: Option<OAIChunk>)
    requires
        payload != "[DONE]"@,
        chunk matches Some(c) ==> c.choices@.len() == 0 || c.choices@[0].delta.content is None,
    ensures
        events_of_line("data: "@ + payload, chunk).len() == 0,
{
    lemma_data_line(payload);
}

/// The events of a whole stream, one behind the other, are one event for every
/// piece that adds a character, with what it adds, in the order of the pieces.
pub proof fn stream_of_events_is_its_deltas(
    data: Seq<Seq<char>>,
    chunks: Seq<OAIChunk>,
    added: Seq<Seq<char>>,
)
    requires
        chunks.len() == data.len(),
        added.len() == data.len(),
        forall|i: int| 0 <= i < data.len() ==> #[trigger] data[i] != "[DONE]"@,
        forall|i: int|
            0 <= i < data.len() ==> (#[trigger] chunks[i]).choices@.len() > 0 && (
            chunks[i].choices@[0].delta.content matches Some(s) && s@ == added[i]),
    ensures
        Seq::new(
            data.len(),
            |i: int| events_of_line("data: "@ + data[i], Some(chunks[i])),
        ).flatten() == added.filter(|s: Seq<char>| s.len() > 0).map_values(
            |s: Seq<char>|
                "event: content_block_delta\ndata: "@ + json::rendered(
                    Doc::Object(
                        map![
                            "type"@ => Doc::Text("content_block_delta"@),
                            "index"@ => Doc::Number(text::decimal(0)),
                            "delta"@ => Doc::Object(map![
                                "type"@ => Doc::Text("text_delta"@),
                                "text"@ => Doc::Text(s),
                            ]),
                        ],
                    ),
                ) + "\n\n"@,
        ).flatten(),
    decreases data.len(),
{
    reveal(Seq::filter);
    let some = |s: Seq<char>| s.len() > 0;
    let written = |s: Seq<char>|
        "event: content_block_delta\ndata: "@ + json::rendered(
            Doc::Object(
                map![
                    "type"@ => Doc::Text("content_block_delta"@),
                    "index"@ => Doc::Number(text::decimal(0)),
                    "delta"@ => Doc::Object(map![
                        "type"@ => Doc::Text("text_delta"@),
                        "text"@ => Doc::Text(s),
                    ]),
                ],
            ),
        ) + "\n\n"@;
    let events = Seq::new(
        data.len(),
        |i: int| events_of_line("data: "@ + data[i], Some(chunks[i])),
    );
    if data.len() > 0 {
        let d = data.drop_last();
        let c = chunks.drop_last();
        let a = added.drop_last();
        assert(forall|i: int| 0 <= i < d.len() ==> d[i] == data[i]);
        assert(forall|i: int| 0 <= i < d.len() ==> c[i] == chunks[i]);
        stream_of_events_is_its_deltas(d, c, a);
        let n = data.len() - 1;
        let before = Seq::new(d.len(), |i: int| events_of_line("data: "@ + d[i], Some(c[i])));
        assert(chunks[n].choices@.len() > 0);
        added_text_is_one_event(data[n], chunks[n], added[n]);
        assert(events =~= before.push(events[n]));
        before.lemma_flatten_push(events[n]);
        let kept = a.filter(some);
        if added[n].len() > 0 {
            assert(added.filter(some).map_values(written) =~= kept.map_values(written).push(
                written(added[n]),
            ));
            kept.map_values(written).lemma_flatten_push(written(added[n]));
        } else {
            assert(events[n] =~= Seq::<char>::empty());
            assert(before.flatten() + events[n] =~= before.flatten());
        }
        assert(before.flatten() == kept.map_values(written).flatten());
    } else {
        assert(events =~= Seq::<Seq<char>>::empty());
        assert(added.filter(some).map_values(written) =~= Seq::<Seq<char>>::empty());
    }
}

/// The events around the text of a message in the Anthropic API: what opens it
/// names the model and the identifier, and the end mark closes it.
pub proof fn messages_are_opened_and_closed(
    id: Seq<char>,
    model: Seq<char>,
    chunk: Option<OAIChunk>,
)
    ensures
        opening(id, model) == "event: message_start\ndata: "@ + json::rendered(
            Doc::Object(
                map![
                    "type"@ => Doc::Text("message_start"@),
                    "message"@ => Doc::Object(map![
                        "id"@ => Doc::Text(id),
                        "type"@ => Doc::Text("message"@),
                        "role"@ => Doc::Text("assistant"@),
                        "content"@ => Doc::List(Seq::<Doc>::empty()),
                        "model"@ => Doc::Text(model),
                        "stop_reason"@ => Doc::Null,
                        "usage"@ => Doc::Object(map![
                            "input_tokens"@ => Doc::Number(text::decimal(0)),
                            "output_tokens"@ => Doc::Number(text::decimal(0)),
                        ]),
                    ]),
                ],
            ),
        ) + "\n\nevent: content_block_start\ndata: "@ + json::rendered(
            Doc::Object(
                map![
                    "type"@ => Doc::Text("content_block_start"@),
                    "index"@ => Doc::Number(text::decimal(0)),
                    "content_block"@ => Doc::Object(map![
                        "type"@ => Doc::Text("text"@),
                        "text"@ => Doc::Text(""@),
                    ]),
                ],
            ),
        ) + "\n\n"@,
        events_of_line("data: [DONE]"@, chunk)
            == "event: content_block_stop\ndata: {\"type\":\"content_block_stop\",\"index\":0}\n\nevent: message_delta\ndata: "@
            + json::rendered(
            Doc::Object(
                map![
                    "type"@ => Doc::Text("message_delta"@),
                    "delta"@ => Doc::Object(map![
                        "stop_reason"@ => Doc::Text("end_turn"@),
                        "stop_sequence"@ => Doc::Null,
                    ]),
                    "usage"@ => Doc::Object(map!["output_tokens"@ => Doc::Number(text::decimal(0))]),
                ],
            ),
        ) + "\n\nevent: message_stop\ndata: "@ + json::rendered(
            Doc::Object(map!["type"@ => Doc::Text("message_stop"@)]),
        ) + "\n\n"@,
{
    reveal_strlit("data: ");
    reveal_strlit("[DONE]");
    reveal_strlit("data: [DONE]");
    assert("data: "@ + "[DONE]"@ =~= "data: [DONE]"@);
    lemma_data_line("[DONE]"@);
    reveal_strlit("event: ");
    reveal_strlit("\ndata: ");
    reveal_strlit("\n\n");
    reveal_strlit("message_start");
    reveal_strlit("content_block_start");
    reveal_strlit("event: message_start\ndata: ");
    reveal_strlit("\n\nevent: content_block_start\ndata: ");
    let start = json::rendered(message_start(id, model));
    let first = json::rendered(block_start());
    assert(opening(id, model) =~= "event: message_start\ndata: "@ + start
        + "\n\nevent: content_block_start\ndata: "@ + first + "\n\n"@);
    reveal_strlit("content_block_stop");
    reveal_strlit("message_delta");
    reveal_strlit("message_stop");
    reveal_strlit("{\"type\":\"content_block_stop\",\"index\":0}");
    reveal_strlit(
        "event: content_block_stop\ndata: {\"type\":\"content_block_stop\",\"index\":0}\n\nevent: message_delta\ndata: ",
    );
    reveal_strlit("\n\nevent: message_stop\ndata: ");
    let delta = json::rendered(message_delta());
    let stop = json::rendered(message_stop());
    assert(closing()
        =~= "event: content_block_stop\ndata: {\"type\":\"content_block_stop\",\"index\":0}\n\nevent: message_delta\ndata: "@
        + delta + "\n\nevent: message_stop\ndata: "@ + stop + "\n\n"@);
}

/// What a piece says is what its fields hold.
pub proof fn pieces_say_their_fields(p: Piece)
    ensures
        p@.content == p.content@,
        p.thinking matches Some(t) ==> p@.thinking == Some(t@),
        p.thinking is None ==> p@.thinking is None,
        p@.done == p.done,
        opt_piece(Some(p)) == Some(p@),
        opt_piece(None) is None,
{
}

/// The chunks for the clients hold the piece that they carry: its content, its
/// thoughts, and whether it is the last one.
pub proof fn chunks_hold_the_piece(
    chat: OllamaChatChunk,
    generated: OllamaGenerateChunk,
    p: PieceModel,
    model: Seq<char>,
)
    requires
        carries_chat(chat, p, model),
        carries_generate(generated, p, model),
    ensures
        chat.message.content@ == p.content,
        generated.response@ == p.content,
        p.thinking matches Some(t) ==> (chat.message.thinking matches Some(u) && u@ == t) && (
        generated.thinking matches Some(u) && u@ == t),
        p.thinking is None ==> chat.message.thinking is None && generated.thinking is None,
        chat.done == p.done,
        generated.done == p.done,
        p.done ==> (chat.done_reason matches Some(w) && w@ == "stop"@) && (
        generated.done_reason matches Some(w) && w@ == "stop"@),
        !p.done ==> chat.done_reason is None && generated.done_reason is None,
{
}

/// A completion grows by the content of every piece up to the last one, the last one
/// included, and by nothing else.
pub proof fn completion_grows_by_every_piece(
    pieces: Seq<Option<PieceModel>>,
    p: PieceModel,
)
    requires
        forall|i: int|
            0 <= i < pieces.len() ==> (#[trigger] pieces[i] matches Some(q) ==> !q.done),
    ensures
        collected(pieces.push(Some(p))) == collected(pieces) + p.content,
        collected(pieces.push(None)) == collected(pieces),
        collected(Seq::<Option<PieceModel>>::empty()).len() == 0,
{
    lemma_collected_push(pieces, Some(p));
    lemma_collected_push(pieces, None);
    if is_complete(pieces) {
        let i = choose|i: int| 0 <= i < pieces.len() && is_last(#[trigger] pieces[i]);
        assert(pieces[i] is Some);
    }
}

/// Every line of data is one piece of the completion, in its place.
pub proof fn every_line_is_a_piece(data: Seq<Seq<char>>, chunks: Seq<Option<OAIChunk>>, i: int)
    requires
        chunks.len() == data.len(),
        0 <= i < data.len(),
    ensures
        pieces_of(data, chunks).len() == data.len(),
        pieces_of(data, chunks)[i] == piece_of(data[i], chunks[i]),
{
}

/// A refusal of the inference server is told with its status and its reason.
pub proof fn refusals_are_told(status: String, body: String)
    ensures
        (BackendError::Refused { status, body }).words() == "inference backend "@ + status@ + ": "@
            + body@,
        BackendError::EmptyBody.words() == "inference backend returned empty response body"@,
{
}

} // verus!
