//! Requests to the three APIs and the replies to them.

use serde_json::Value;
use vstd::prelude::*;
use crate::clock;
use crate::cmd::serve::chunks;
use crate::cmd::serve::chunks::{OllamaGenerateChunk, OllamaMessage};
use crate::cmd::serve::manager;
use crate::json;
use crate::json::{Doc, ObjectBuilder};
use crate::shortnames;
use crate::storage::oci;
use crate::storage::oci::{DescriptorModel, ImageSummary, OciStore, StoreError};
use crate::string_map::StringMap;
use crate::text;

verus! {

/// What the server says of itself.
pub const GREETING: &'static str = "llmman is running";

/// Where an inference server takes chats.
pub const CHAT_PATH: &'static str = "/v1/chat/completions";

/// Where an inference server takes prompts.
pub const COMPLETIONS_PATH: &'static str = "/v1/completions";

/// Where an inference server takes texts to embed.
pub const EMBEDDINGS_PATH: &'static str = "/v1/embeddings";

// ---------------------------------------------------------------------------
// What goes to the inference server
// ---------------------------------------------------------------------------

/// A message for the inference server.
#[derive(Debug)]
pub struct OAIMessage {
    pub role: String,
    pub content: String,
}

/// The role and the content of a message.
pub open spec fn said(m: OAIMessage) -> (Seq<char>, Seq<char>) {
    (m.role@, m.content@)
}

/// The roles and the contents of messages.
pub open spec fn all_said(v: Seq<OAIMessage>) -> Seq<(Seq<char>, Seq<char>)> {
    v.map_values(|m: OAIMessage| said(m))
}

/// A chat for the inference server.  `F` is the type of its two parameters
/// that are no whole numbers.
#[derive(Debug)]
pub struct OAIChatRequest<F> {
    pub model: String,
    pub messages: Vec<OAIMessage>,
    pub stream: bool,
    pub temperature: Option<F>,
    pub top_p: Option<F>,
    pub max_tokens: Option<u32>,
}

/// The lower half of the number `key` among the options of a request.
pub open spec fn option_number(options: Option<Value>, key: Seq<char>) -> Option<u32> {
    match options {
        Some(o) => match json::member_of(json::doc(o), key) {
            Some(d) => match json::number_of(d) {
                Some(n) => Some((n % 0x1_0000_0000) as u32),
                None => None,
            },
            None => None,
        },
        None => None,
    }
}

/// The number `key` among the options of a request, cut to 32 bits.
pub fn opt_u32(options: &Option<Value>, key: &str) -> (r: Option<u32>)
    ensures
        r == option_number(*options, key@),
{
    match options {
        Some(o) => match json::member(o, key) {
            Some(v) => match v.as_u64() {
                Some(n) => {
                    assert(n as u32 == (n % 0x1_0000_0000) as u32) by (bit_vector);
                    Some(
                        #[verifier::truncate]
                        (n as u32),
                    )
                },
                None => None,
            },
            None => None,
        },
        None => None,
    }
}

// ---------------------------------------------------------------------------
// Ollama: chat and generate
// ---------------------------------------------------------------------------

/// A request to `/api/chat`.
#[derive(Debug)]
pub struct OllamaChatRequest {
    pub model: String,
    pub messages: Vec<OllamaMessage>,
    pub stream: bool,
    pub options: Option<Value>,
}

/// A request to `/api/generate`.
#[derive(Debug)]
pub struct OllamaGenerateRequest {
    pub model: String,
    pub prompt: String,
    pub stream: bool,
    pub options: Option<Value>,
}

/// Whether an answer comes in pieces, where a request does not say.
pub fn bool_true() -> (r: bool)
    ensures
        r,
{
    true
}

/// The roles and the contents of messages.
pub open spec fn told(v: Seq<OllamaMessage>) -> Seq<(Seq<char>, Seq<char>)> {
    v.map_values(|m: OllamaMessage| (m.role@, m.content@))
}

/// The chat that a request to `/api/chat` leads to.  Its answer always comes in
/// pieces.
pub fn handle_ollama_chat<F>(
    req: &OllamaChatRequest,
    temperature: Option<F>,
    top_p: Option<F>,
) -> (r: OAIChatRequest<F>)
    ensures
        r.model@ == req.model@,
        all_said(r.messages@) == told(req.messages@),
        r.messages@.len() == req.messages@.len(),
        forall|i: int|
            0 <= i < req.messages@.len() ==> (#[trigger] r.messages@[i]).role@
                == req.messages@[i].role@ && r.messages@[i].content@ == req.messages@[i].content@,
        r.stream,
        r.temperature == temperature,
        r.top_p == top_p,
        r.max_tokens == option_number(req.options, "num_predict"@),
{
    let mut messages: Vec<OAIMessage> = Vec::new();
    let mut i: usize = 0;
    while i < req.messages.len()
        invariant
            i <= req.messages.len(),
            all_said(messages@) == told(req.messages@).take(i as int),
        decreases req.messages.len() - i,
    {
        let m: &OllamaMessage = &req.messages[i];
        let ghost before = all_said(messages@);
        let ghost all = told(req.messages@);
        let next = OAIMessage { role: m.role.clone(), content: m.content.clone() };
        assert(said(next) == all[i as int]);
        messages.push(next);
        assert(all_said(messages@) =~= before.push(said(next)));
        assert(all.take(i + 1) =~= all.take(i as int).push(all[i as int]));
        i += 1;
    }
    assert(told(req.messages@).take(i as int) =~= told(req.messages@));
    proof {
        every_message_is_passed_on(messages@, req.messages@);
    }
    OAIChatRequest {
        model: req.model.clone(),
        messages,
        stream: true,
        temperature,
        top_p,
        max_tokens: opt_u32(&req.options, "num_predict"),
    }
}

/// What a request to `/api/generate` leads to.
#[derive(Debug)]
pub enum GenerateAction<F> {
    /// The model was only to be loaded: reply with this.
    Loaded(OllamaGenerateChunk),
    /// Ask the inference server this.
    Ask(OAIChatRequest<F>),
}

/// The reply that says that a model is loaded.
pub open spec fn says_loaded(c: OllamaGenerateChunk, model: Seq<char>) -> bool {
    &&& c.model@ == model
    &&& c.response@ == Seq::<char>::empty()
    &&& c.thinking is None
    &&& c.done
    &&& text::opt_text(c.done_reason) == Some("load"@)
}

/// The reply that says that a model is loaded, at a given time.
pub fn load_chunk(model: &str, created_at: &str) -> (r: OllamaGenerateChunk)
    ensures
        says_loaded(r, model@),
        r.created_at@ == created_at@,
{
    OllamaGenerateChunk {
        model: model.to_string(),
        created_at: created_at.to_string(),
        response: String::new(),
        thinking: None,
        done: true,
        done_reason: Some("load".to_string()),
    }
}

/// What a request to `/api/generate` leads to once its model is loaded: an
/// empty prompt asks for nothing more, and any other is a chat of one message.
pub fn handle_ollama_generate<F>(
    req: &OllamaGenerateRequest,
    temperature: Option<F>,
    top_p: Option<F>,
) -> (r: GenerateAction<F>)
    ensures
        if req.prompt@.len() == 0 {
            r matches GenerateAction::Loaded(c) && says_loaded(c, req.model@) && clock::is_now(
                c.created_at@,
            )
        } else {
            r matches GenerateAction::Ask(a) && a.model@ == req.model@ && all_said(a.messages@)
                == seq![("user"@, req.prompt@)] && a.messages@.len() == 1 && a.messages@[0].role@
                == "user"@ && a.messages@[0].content@ == req.prompt@ && a.stream && a.temperature == temperature
                && a.top_p == top_p && a.max_tokens == option_number(
                req.options,
                "num_predict"@,
            )
        },
{
    if req.prompt.as_str().is_empty() {
        let now: String = clock::now_rfc3339();
        return GenerateAction::Loaded(load_chunk(req.model.as_str(), now.as_str()));
    }
    let mut messages: Vec<OAIMessage> = Vec::new();
    messages.push(OAIMessage { role: "user".to_string(), content: req.prompt.clone() });
    assert(all_said(messages@) =~= seq![("user"@, req.prompt@)]);
    GenerateAction::Ask(
        OAIChatRequest {
            model: req.model.clone(),
            messages,
            stream: true,
            temperature,
            top_p,
            max_tokens: opt_u32(&req.options, "num_predict"),
        },
    )
}

// ---------------------------------------------------------------------------
// Anthropic
// ---------------------------------------------------------------------------

/// A request to `/v1/messages`.
#[derive(Debug)]
pub struct AnthropicRequest<F> {
    pub model: String,
    pub messages: Vec<AnthropicMessage>,
    pub max_tokens: Option<u32>,
    pub stream: bool,
    pub system: Option<String>,
    pub temperature: Option<F>,
    pub top_p: Option<F>,
}

/// A message in the Anthropic API.
#[derive(Debug)]
pub struct AnthropicMessage {
    pub role: String,
    pub content: AnthropicContent,
}

/// The content of a message.
#[derive(Debug)]
pub enum AnthropicContent {
    Text(String),
    Blocks(Vec<AnthropicBlock>),
}

/// A part of the content of a message.
#[derive(Debug)]
pub struct AnthropicBlock {
    pub type_: String,
    pub text: Option<String>,
}

/// The text of a block; blocks of other types have none.
pub open spec fn text_of_block(b: AnthropicBlock) -> Seq<char> {
    match b.text {
        Some(t) => if b.type_@ == "text"@ {
            t@
        } else {
            Seq::<char>::empty()
        },
        None => Seq::<char>::empty(),
    }
}

/// The texts of the blocks one behind the other.
pub open spec fn text_of_blocks(v: Seq<AnthropicBlock>) -> Seq<char>
    decreases v.len(),
{
    if v.len() == 0 {
        Seq::<char>::empty()
    } else {
        text_of_blocks(v.drop_last()) + text_of_block(v.last())
    }
}

impl AnthropicContent {
    /// The text of the content.
    pub open spec fn words(self) -> Seq<char> {
        match self {
            AnthropicContent::Text(s) => s@,
            AnthropicContent::Blocks(v) => text_of_blocks(v@),
        }
    }

    /// The text of the content.
    pub fn as_text(&self) -> (r: String)
        ensures
            r@ == self.words(),
            *self matches AnthropicContent::Text(s) ==> r@ == s@,
    {
        match self {
            AnthropicContent::Text(s) => s.clone(),
            AnthropicContent::Blocks(blocks) => {
                let mut r: String = String::new();
                let mut i: usize = 0;
                while i < blocks.len()
                    invariant
                        i <= blocks.len(),
                        r@ == text_of_blocks(blocks@.take(i as int)),
                    decreases blocks.len() - i,
                {
                    let b: &AnthropicBlock = &blocks[i];
                    let ghost before = r@;
                    assert(blocks@.take(i + 1).drop_last() =~= blocks@.take(i as int));
                    match &b.text {
                        Some(t) => {
                            if text::same(b.type_.as_str(), "text") {
                                r.append(t.as_str());
                            }
                        },
                        None => {},
                    }
                    assert(r@ =~= before + text_of_block(*b));
                    i += 1;
                }
                assert(blocks@.take(i as int) =~= blocks@);
                r
            },
        }
    }
}

/// The roles and the texts of messages.
pub open spec fn written(v: Seq<AnthropicMessage>) -> Seq<(Seq<char>, Seq<char>)> {
    v.map_values(|m: AnthropicMessage| (m.role@, m.content.words()))
}

/// The system prompt as a message.
pub open spec fn system_message(system: Option<String>) -> Seq<(Seq<char>, Seq<char>)> {
    match system {
        Some(s) => seq![("system"@, s@)],
        None => Seq::<(Seq<char>, Seq<char>)>::empty(),
    }
}

/// The chat that a request to `/v1/messages` leads to: the system prompt comes
/// first.
pub fn handle_anthropic_messages<F: Copy>(req: &AnthropicRequest<F>) -> (r: OAIChatRequest<F>)
    ensures
        r.model@ == req.model@,
        all_said(r.messages@) == system_message(req.system) + written(req.messages@),
        req.system is None ==> r.messages@.len() == req.messages@.len(),
        req.system matches Some(s) ==> r.messages@.len() == req.messages@.len() + 1
            && r.messages@[0].role@ == "system"@ && r.messages@[0].content@ == s@,
        forall|i: int|
            #![trigger req.messages@[i]]
            0 <= i < req.messages@.len() ==> ({
                let m = r.messages@[r.messages@.len() - req.messages@.len() + i];
                &&& m.role@ == req.messages@[i].role@
                &&& m.content@ == req.messages@[i].content.words()
            }),
        r.stream == req.stream,
        r.temperature == req.temperature,
        r.top_p == req.top_p,
        r.max_tokens == req.max_tokens,
{
    let mut messages: Vec<OAIMessage> = Vec::new();
    match &req.system {
        Some(s) => {
            messages.push(OAIMessage { role: "system".to_string(), content: s.clone() });
        },
        None => {},
    }
    let ghost start = system_message(req.system);
    let ghost all = written(req.messages@);
    assert(all_said(messages@) =~= start + all.take(0));
    let mut i: usize = 0;
    while i < req.messages.len()
        invariant
            i <= req.messages.len(),
            all == written(req.messages@),
            all_said(messages@) == start + all.take(i as int),
        decreases req.messages.len() - i,
    {
        let m: &AnthropicMessage = &req.messages[i];
        let ghost before = all_said(messages@);
        let next = OAIMessage { role: m.role.clone(), content: m.content.as_text() };
        assert(said(next) == all[i as int]);
        messages.push(next);
        assert(all_said(messages@) =~= before.push(said(next)));
        assert(start + all.take(i + 1) =~= (start + all.take(i as int)).push(all[i as int]));
        i += 1;
    }
    assert(all.take(i as int) =~= all);
    proof {
        every_anthropic_message_is_passed_on(messages@, req.system, req.messages@);
    }
    OAIChatRequest {
        model: req.model.clone(),
        messages,
        stream: req.stream,
        temperature: req.temperature,
        top_p: req.top_p,
        max_tokens: req.max_tokens,
    }
}

/// The content of the first alternative in the answer to a chat.
pub open spec fn answer_text(d: Doc) -> Seq<char> {
    match answer_doc(d) {
        Some(c) => match json::text_of(c) {
            Some(s) => s,
            None => Seq::<char>::empty(),
        },
        None => Seq::<char>::empty(),
    }
}

/// The member `choices`, its first element, and in that the content of the
/// message.
pub open spec fn answer_doc(d: Doc) -> Option<Doc> {
    match json::member_of(d, "choices"@) {
        Some(choices) => match json::element_of(choices, 0) {
            Some(first) => match json::member_of(first, "message"@) {
                Some(message) => json::member_of(message, "content"@),
                None => None,
            },
            None => None,
        },
        None => None,
    }
}

/// The content of the first alternative in the answer to a chat.
pub fn answer_content(body: &Value) -> (r: String)
    ensures
        r@ == answer_text(json::doc(*body)),
{
    match json::member(body, "choices") {
        Some(choices) => match json::element(choices, 0) {
            Some(first) => match json::member(first, "message") {
                Some(message) => match json::member(message, "content") {
                    Some(content) => match content.as_str() {
                        Some(s) => s.to_string(),
                        None => String::new(),
                    },
                    None => String::new(),
                },
                None => String::new(),
            },
            None => String::new(),
        },
        None => String::new(),
    }
}

/// The reply to a request to `/v1/messages`.
pub open spec fn message_doc(id: Seq<char>, content: Seq<char>, model: Seq<char>) -> Doc {
    Doc::Object(
        map![
            "id"@ => Doc::Text("msg_"@ + id),
            "type"@ => Doc::Text("message"@),
            "role"@ => Doc::Text("assistant"@),
            "content"@ => Doc::List(seq![Doc::Object(map![
                "type"@ => Doc::Text("text"@),
                "text"@ => Doc::Text(content),
            ])]),
            "model"@ => Doc::Text(model),
            "stop_reason"@ => Doc::Text("end_turn"@),
            "stop_sequence"@ => Doc::Null,
            "usage"@ => chunks::no_usage(),
        ],
    )
}

/// The reply to a request to `/v1/messages`, for the content of the answer.
pub fn message_reply(id: &str, content: &str, model: &str) -> (r: Value)
    ensures
        json::doc(r) == message_doc(id@, content@, model@),
{
    let block: Value = ObjectBuilder::new().with_text("type", "text").with_text(
        "text",
        content,
    ).build();
    ObjectBuilder::new().with_text("id", text::concat2("msg_", id).as_str()).with_text(
        "type",
        "message",
    ).with_text("role", "assistant").with("content", json::single(block)).with_text(
        "model",
        model,
    ).with_text("stop_reason", "end_turn").with("stop_sequence", json::null()).with(
        "usage",
        chunks::no_usage_value(),
    ).build()
}

/// The reply to a request to `/v1/messages`, for the whole answer of the
/// inference server, under a new identifier.  The error says that the answer
/// is no JSON.
pub fn anthropic_answer(body: &[u8], model: &str) -> (r: Result<Value, String>)
    ensures
        match json::parsed(body@) {
            Ok(d) => r matches Ok(v) && exists|nanos: u128|
                json::doc(v) == message_doc(
                    #[trigger] text::hex_padded(nanos as nat, 32),
                    answer_text(d),
                    model@,
                ),
            Err(why) => r matches Err(e) && e@ == "parse llama-server response: "@ + why,
        },
{
    match json::parse(body) {
        Ok(v) => {
            let content: String = answer_content(&v);
            let id: String = clock::gen_id();
            Ok(message_reply(id.as_str(), content.as_str(), model))
        },
        Err(why) => Err(text::concat2("parse llama-server response: ", why.as_str())),
    }
}

// ---------------------------------------------------------------------------
// OpenAI
// ---------------------------------------------------------------------------

/// The model that a request names; without a name it is empty.
pub open spec fn model_in(d: Doc) -> Seq<char> {
    match json::member_of(d, "model"@) {
        Some(m) => match json::text_of(m) {
            Some(s) => s,
            None => Seq::<char>::empty(),
        },
        None => Seq::<char>::empty(),
    }
}

/// The model that a request names; without a name it is empty.
pub fn model_of_request(req: &Value) -> (r: String)
    ensures
        r@ == model_in(json::doc(*req)),
{
    match json::member(req, "model") {
        Some(m) => match m.as_str() {
            Some(s) => s.to_string(),
            None => String::new(),
        },
        None => String::new(),
    }
}

/// The model that the body of a request names.  The error says that the body
/// is no JSON.
pub fn requested_model(body: &[u8]) -> (r: Result<String, String>)
    ensures
        match json::parsed(body@) {
            Ok(d) => r matches Ok(m) && m@ == model_in(d),
            Err(why) => r matches Err(e) && e@ == "parse OpenAI request body: "@ + why,
        },
{
    match json::parse(body) {
        Ok(v) => Ok(model_of_request(&v)),
        Err(why) => Err(text::concat2("parse OpenAI request body: ", why.as_str())),
    }
}

/// A model in the list of models.
pub open spec fn listed_model(reference: Seq<char>) -> Doc {
    Doc::Object(
        map![
            "id"@ => Doc::Text(reference),
            "object"@ => Doc::Text("model"@),
            "created"@ => chunks::zero(),
            "owned_by"@ => Doc::Text("llmman"@),
        ],
    )
}

/// The models in the list of models.
pub open spec fn listed_models(list: Seq<ImageSummary>) -> Seq<Doc> {
    list.map_values(|img: ImageSummary| listed_model(img.reference@))
}

/// The reply to a request to `/v1/models`.
pub fn handle_openai_models(list: &Vec<ImageSummary>) -> (r: Value)
    ensures
        json::doc(r) == Doc::Object(
            map!["object"@ => Doc::Text("list"@), "data"@ => Doc::List(listed_models(list@))],
        ),
{
    let mut data: Vec<Value> = Vec::new();
    let ghost all = listed_models(list@);
    assert(json::docs(data@) =~= all.take(0));
    let mut i: usize = 0;
    while i < list.len()
        invariant
            i <= list.len(),
            all == listed_models(list@),
            json::docs(data@) == all.take(i as int),
        decreases list.len() - i,
    {
        let v: Value = ObjectBuilder::new().with_text("id", list[i].reference.as_str()).with_text(
            "object",
            "model",
        ).with_number("created", 0).with_text("owned_by", "llmman").build();
        let ghost before = json::docs(data@);
        assert(json::doc(v) == all[i as int]);
        data.push(v);
        assert(json::docs(data@) =~= before.push(json::doc(v)));
        assert(all.take(i + 1) =~= all.take(i as int).push(all[i as int]));
        i += 1;
    }
    assert(all.take(i as int) =~= all);
    ObjectBuilder::new().with_text("object", "list").with("data", json::list_value(data)).build()
}

// ---------------------------------------------------------------------------
// Ollama: models
// ---------------------------------------------------------------------------

/// What a model is made of.
#[derive(Debug)]
pub struct OllamaModelDetails {
    pub format: String,
    pub family: String,
    pub parameter_size: String,
    pub quantization_level: String,
}

/// A model in the reply to `/api/tags`.
#[derive(Debug)]
pub struct OllamaModelInfo {
    pub name: String,
    pub model: String,
    pub size: u64,
    pub digest: String,
    pub modified_at: String,
    pub details: OllamaModelDetails,
}

/// The reply to `/api/tags`.
#[derive(Debug)]
pub struct OllamaTagsResponse {
    pub models: Vec<OllamaModelInfo>,
}

/// A model in the reply to `/api/ps`.
#[derive(Debug)]
pub struct OllamaRunningModelInfo {
    pub name: String,
    pub model: String,
    pub size: u64,
    pub size_vram: u64,
}

/// The reply to `/api/ps`.
#[derive(Debug)]
pub struct OllamaPsResponse {
    pub models: Vec<OllamaRunningModelInfo>,
}

/// A request to `/api/show`.
#[derive(Debug)]
pub struct OllamaShowRequest {
    pub model: String,
    pub name: Option<String>,
}

/// The reply to `/api/show`.
#[derive(Debug)]
pub struct OllamaShowResponse {
    pub model_info: Value,
    pub details: OllamaModelDetails,
}

/// A request to `/api/delete`.
#[derive(Debug)]
pub struct OllamaDeleteRequest {
    pub model: String,
    pub name: Option<String>,
}

/// Only the format of a model is known.
pub open spec fn says_gguf(d: OllamaModelDetails) -> bool {
    &&& d.format@ == "gguf"@
    &&& d.family@ == Seq::<char>::empty()
    &&& d.parameter_size@ == Seq::<char>::empty()
    &&& d.quantization_level@ == Seq::<char>::empty()
}

fn details() -> (r: OllamaModelDetails)
    ensures
        says_gguf(r),
{
    OllamaModelDetails {
        format: "gguf".to_string(),
        family: String::new(),
        parameter_size: String::new(),
        quantization_level: String::new(),
    }
}

/// The whole seconds of a time behind the start of 1970.
pub open spec fn seconds_of(t: i128) -> Option<i64> {
    if 0 <= t / 1_000_000_000 <= i64::MAX {
        Some((t / 1_000_000_000) as i64)
    } else {
        None
    }
}

/// The text of a time of modification, where there is one.
pub open spec fn time_text(t: Option<i128>) -> Option<Seq<char>> {
    match t {
        Some(nanos) => match seconds_of(nanos) {
            Some(secs) => clock::rfc3339(secs, 0),
            None => None,
        },
        None => None,
    }
}

fn modified_text(t: Option<i128>) -> (r: Option<String>)
    ensures
        text::opt_text(r) == time_text(t),
{
    match t {
        Some(nanos) => {
            if nanos < 0 {
                return None;
            }
            let secs: i128 = nanos / 1_000_000_000;
            if secs <= i64::MAX as i128 {
                clock::timestamp_text(secs as i64, 0)
            } else {
                None
            }
        },
        None => None,
    }
}

/// What the reply to `/api/tags` says of an image.
pub open spec fn tells_of(m: OllamaModelInfo, img: ImageSummary) -> bool {
    &&& m.name@ == img.reference@
    &&& m.model@ == img.reference@
    &&& m.size == img.size
    &&& m.digest@ == img.digest@
    &&& time_text(img.modified_at) matches Some(t) ==> m.modified_at@ == t
    &&& says_gguf(m.details)
}

/// An image in the reply to `/api/tags`.  One without a time of modification
/// gets the time `now`.
pub fn model_info(img: &ImageSummary, now: &str) -> (r: OllamaModelInfo)
    ensures
        tells_of(r, *img),
        time_text(img.modified_at) is None ==> r.modified_at@ == now@,
{
    OllamaModelInfo {
        name: img.reference.clone(),
        model: img.reference.clone(),
        size: img.size,
        digest: img.digest.clone(),
        modified_at: match modified_text(img.modified_at) {
            Some(t) => t,
            None => now.to_string(),
        },
        details: details(),
    }
}

/// The reply to `/api/tags`: every image, in the order of the store.
pub fn handle_tags(list: &Vec<ImageSummary>) -> (r: OllamaTagsResponse)
    ensures
        r.models@.len() == list@.len(),
        forall|i: int|
            0 <= i < list@.len() ==> tells_of(#[trigger] r.models@[i], list@[i]) && (time_text(
                list@[i].modified_at,
            ) is None ==> clock::is_now(r.models@[i].modified_at@)),
{
    let mut models: Vec<OllamaModelInfo> = Vec::new();
    let mut i: usize = 0;
    while i < list.len()
        invariant
            i <= list.len(),
            models@.len() == i,
            forall|j: int|
                0 <= j < i ==> tells_of(#[trigger] models@[j], list@[j]) && (time_text(
                    list@[j].modified_at,
                ) is None ==> clock::is_now(models@[j].modified_at@)),
        decreases list.len() - i,
    {
        let now: String = clock::now_rfc3339();
        models.push(model_info(&list[i], now.as_str()));
        i += 1;
    }
    OllamaTagsResponse { models }
}

/// The reply to `/api/ps`, for the models whose servers run.
pub fn handle_ps(names: &Vec<String>) -> (r: OllamaPsResponse)
    ensures
        r.models@.len() == names@.len(),
        forall|i: int|
            0 <= i < names@.len() ==> (#[trigger] r.models@[i]).name@ == names@[i]@
                && r.models@[i].model@ == names@[i]@ && r.models@[i].size == 0
                && r.models@[i].size_vram == 0,
{
    let mut models: Vec<OllamaRunningModelInfo> = Vec::new();
    let mut i: usize = 0;
    while i < names.len()
        invariant
            i <= names.len(),
            models@.len() == i,
            forall|j: int|
                0 <= j < i ==> (#[trigger] models@[j]).name@ == names@[j]@ && models@[j].model@
                    == names@[j]@ && models@[j].size == 0 && models@[j].size_vram == 0,
        decreases names.len() - i,
    {
        models.push(
            OllamaRunningModelInfo {
                name: names[i].clone(),
                model: names[i].clone(),
                size: 0,
                size_vram: 0,
            },
        );
        i += 1;
    }
    OllamaPsResponse { models }
}

/// The model that a request means: clients fill in one of two fields.
pub open spec fn meant(model: Seq<char>, name: Option<Seq<char>>) -> Seq<char> {
    match name {
        Some(n) => if n.len() > 0 {
            n
        } else {
            model
        },
        None => model,
    }
}

fn meant_model<'a>(model: &'a String, name: &'a Option<String>) -> (r: &'a str)
    ensures
        r@ == meant(model@, text::opt_text(*name)),
{
    match name {
        Some(n) => if n.as_str().is_empty() {
            model.as_str()
        } else {
            n.as_str()
        },
        None => model.as_str(),
    }
}

/// The model that a request to `/api/show` means.
pub fn shown_model(req: &OllamaShowRequest) -> (r: &str)
    ensures
        r@ == meant(req.model@, text::opt_text(req.name)),
{
    meant_model(&req.model, &req.name)
}

/// What `/api/show` says of an image.
pub open spec fn shows(r: OllamaShowResponse, d: DescriptorModel) -> bool {
    &&& json::doc(r.model_info) == Doc::Object(
        map![
            "digest"@ => Doc::Text(d.digest),
            "size"@ => Doc::Number(text::decimal(d.size as nat)),
        ],
    )
    &&& says_gguf(r.details)
}

/// The reply to `/api/show`.  The error says that there is no such image.
pub fn handle_show(store: &OciStore, req: &OllamaShowRequest) -> (r: Result<
    OllamaShowResponse,
    String,
>)
    ensures
        ({
            let wanted = match req.name {
                Some(n) if n@.len() > 0 => n@,
                _ => req.model@,
            };
            match manager::image_of(store@.index.manifests, wanted) {
                Some(d) => r matches Ok(s) && shows(s, d),
                None => r matches Err(e) && e@ == "model not found: "@ + wanted,
            }
        }),
{
    let wanted: &str = shown_model(req);
    match manager::find_image(store, wanted) {
        Some(d) => Ok(
            OllamaShowResponse {
                model_info: ObjectBuilder::new().with_text(
                    "digest",
                    d.digest.as_str(),
                ).with_number("size", d.size).build(),
                details: details(),
            },
        ),
        None => Err(text::concat2("model not found: ", wanted)),
    }
}

/// Serves a request to `/api/delete`.
pub fn handle_delete(store: &mut OciStore, req: &OllamaDeleteRequest) -> (r: Result<(), StoreError>)
    ensures
        final(store)@.root == old(store)@.root,
        ({
            let wanted = match req.name {
                Some(n) if n@.len() > 0 => n@,
                _ => req.model@,
            };
            let ms = old(store)@.index.manifests;
            &&& final(store)@.index == (oci::IndexModel {
                manifests: oci::removed(ms, wanted),
                ..old(store)@.index
            })
            &&& match r {
                Ok(_) => oci::matching_pos(ms, wanted) is Some,
                Err(e) => oci::matching_pos(ms, wanted) is None && (e matches StoreError::NotFound(
                    n,
                ) && n@ == wanted),
            }
        }),
{
    store.remove(meant_model(&req.model, &req.name))
}

// ---------------------------------------------------------------------------
// Replies
// ---------------------------------------------------------------------------

/// A reply with its status and the type of its content.
#[derive(Debug)]
pub struct HttpReply {
    pub status: u16,
    pub content_type: String,
    pub body: String,
}

/// An object with one member, a string.
pub open spec fn note(key: Seq<char>, words: Seq<char>) -> Doc {
    Doc::Object(map![key => Doc::Text(words)])
}

/// The body of a reply that tells of an error.
pub fn error_body(message: &str) -> (r: Value)
    ensures
        json::doc(r) == note("error"@, message@),
{
    ObjectBuilder::new().with_text("error", message).build()
}

/// The reply to `/api/version`.
pub fn handle_version(version: &str) -> (r: Value)
    ensures
        json::doc(r) == note("version"@, version@),
{
    ObjectBuilder::new().with_text("version", version).build()
}

fn error_reply(status: u16, message: &str) -> (r: HttpReply)
    ensures
        r.status == status,
        r.content_type@ == "application/json"@,
        r.body@ == json::rendered(note("error"@, message@)),
{
    HttpReply {
        status,
        content_type: "application/json".to_string(),
        body: json::render(&error_body(message)),
    }
}

/// The reply to `/api/pull`.  Nothing is downloaded: an image that is in the
/// store is reported as pulled, and any other is not found.
pub fn handle_pull(store: Result<&OciStore, String>, model: &str, aliases: &StringMap) -> (r:
    HttpReply)
    ensures
        ({
            let wanted = shortnames::resolved(aliases@, model@);
            match store {
                Ok(s) => if manager::image_of(s@.index.manifests, wanted) is Some {
                    &&& r.status == 200
                    &&& r.content_type@ == "application/x-ndjson"@
                    &&& r.body@ == json::rendered(note("status"@, "success"@)) + "\n"@
                } else {
                    &&& r.status == 404
                    &&& r.content_type@ == "application/json"@
                    &&& r.body@ == json::rendered(
                        note("error"@, "model not found: "@ + wanted),
                    )
                },
                Err(e) => {
                    &&& r.status == 500
                    &&& r.content_type@ == "application/json"@
                    &&& r.body@ == json::rendered(note("error"@, e@))
                },
            }
        }),
{
    let wanted: String = shortnames::resolve(model, aliases);
    match store {
        Ok(s) => match manager::find_image(s, wanted.as_str()) {
            Some(_) => {
                let status: Value = ObjectBuilder::new().with_text("status", "success").build();
                HttpReply {
                    status: 200,
                    content_type: "application/x-ndjson".to_string(),
                    body: text::concat2(json::render(&status).as_str(), "\n"),
                }
            },
            None => error_reply(
                404,
                text::concat2("model not found: ", wanted.as_str()).as_str(),
            ),
        },
        Err(e) => error_reply(500, e.as_str()),
    }
}

// ---------------------------------------------------------------------------
// Laws
// ---------------------------------------------------------------------------

/// Every message of a request to `/api/chat` is passed on, in its place, with its
/// role and its content.
pub proof fn every_message_is_passed_on(sent: Seq<OAIMessage>, asked: Seq<OllamaMessage>)
    requires
        all_said(sent) == told(asked),
    ensures
        sent.len() == asked.len(),
        forall|i: int|
            0 <= i < asked.len() ==> (#[trigger] sent[i]).role@ == asked[i].role@
                && sent[i].content@ == asked[i].content@,
{
    assert(all_said(sent).len() == sent.len());
    assert(told(asked).len() == asked.len());
    assert forall|i: int| 0 <= i < asked.len() implies (#[trigger] sent[i]).role@
        == asked[i].role@ && sent[i].content@ == asked[i].content@ by {
        assert(all_said(sent)[i] == (sent[i].role@, sent[i].content@));
        assert(told(asked)[i] == (asked[i].role@, asked[i].content@));
    }
}

/// Every message of a request to `/v1/messages` is passed on, in its place, with
/// its role and its text.  A system prompt goes before them, as it stands.
pub proof fn every_anthropic_message_is_passed_on(
    sent: Seq<OAIMessage>,
    system: Option<String>,
    asked: Seq<AnthropicMessage>,
)
    requires
        all_said(sent) == system_message(system) + written(asked),
    ensures
        system is None ==> sent.len() == asked.len(),
        system matches Some(s) ==> sent.len() == asked.len() + 1 && sent[0].role@ == "system"@
            && sent[0].content@ == s@,
        forall|i: int|
            #![trigger asked[i]]
            0 <= i < asked.len() ==> sent[sent.len() - asked.len() + i].role@ == asked[i].role@
                && sent[sent.len() - asked.len() + i].content@ == asked[i].content.words(),
{
    let all = all_said(sent);
    assert(all.len() == sent.len());
    assert(written(asked).len() == asked.len());
    let k = sent.len() - asked.len();
    assert forall|i: int|
        #![trigger asked[i]]
        0 <= i < asked.len() implies sent[k + i].role@ == asked[i].role@ && sent[k + i].content@
        == asked[i].content.words() by {
        assert(all[k + i] == (sent[k + i].role@, sent[k + i].content@));
        assert(written(asked)[i] == (asked[i].role@, asked[i].content.words()));
    }
    if system is Some {
        assert(all[0] == (sent[0].role@, sent[0].content@));
    }
}

/// The text of a message in the Anthropic API is its text, or the texts of its text
/// blocks one behind the other, with nothing added and nothing left out.
pub proof fn message_text_is_its_blocks(v: Vec<AnthropicBlock>, s: String)
    ensures
        AnthropicContent::Text(s).words() == s@,
        AnthropicContent::Blocks(v).words() == v@.map_values(
            |b: AnthropicBlock|
                if b.type_@ == "text"@ && b.text is Some {
                    b.text->0@
                } else {
                    Seq::<char>::empty()
                },
        ).flatten(),
{
    lemma_blocks(v@);
}

proof fn lemma_blocks(v: Seq<AnthropicBlock>)
    ensures
        text_of_blocks(v) == v.map_values(
            |b: AnthropicBlock|
                if b.type_@ == "text"@ && b.text is Some {
                    b.text->0@
                } else {
                    Seq::<char>::empty()
                },
        ).flatten(),
    decreases v.len(),
{
    let f = |b: AnthropicBlock|
        if b.type_@ == "text"@ && b.text is Some {
            b.text->0@
        } else {
            Seq::<char>::empty()
        };
    if v.len() > 0 {
        let d = v.drop_last();
        lemma_blocks(d);
        assert(v.map_values(f) =~= d.map_values(f).push(f(v.last())));
        d.map_values(f).lemma_flatten_push(f(v.last()));
        assert(d.map_values(f).flatten() == text_of_blocks(d));
    } else {
        assert(v.map_values(f) =~= Seq::<Seq<char>>::empty());
    }
}

/// A number among the options of a request is taken over where 32 bits hold it.
pub proof fn numbers_are_taken_over(
    options: Value,
    m: Map<Seq<char>, Doc>,
    key: Seq<char>,
    n: u64,
)
    requires
        json::doc(options) == Doc::Object(m),
        m.contains_key(key),
        m[key] == Doc::Number(text::decimal(n as nat)),
        n <= u32::MAX,
    ensures
        option_number(Some(options), key) == Some(n as u32),
        forall|other: Seq<char>| !m.contains_key(other) ==> #[trigger] option_number(
            Some(options),
            other,
        ) is None,
        option_number(None, key) is None,
{
    json::number_stands_for_itself(n);
    assert(n % 0x1_0000_0000 == n);
}

/// The answer to a chat is the content of the message in its first alternative, as
/// it stands.
pub proof fn answer_is_the_first_content(
    body: Map<Seq<char>, Doc>,
    choices: Seq<Doc>,
    first: Map<Seq<char>, Doc>,
    message: Map<Seq<char>, Doc>,
    s: Seq<char>,
)
    requires
        body.contains_key("choices"@) && body["choices"@] == Doc::List(choices),
        choices.len() > 0 && choices[0] == Doc::Object(first),
        first.contains_key("message"@) && first["message"@] == Doc::Object(message),
        message.contains_key("content"@) && message["content"@] == Doc::Text(s),
    ensures
        answer_text(Doc::Object(body)) == s,
{
}

/// The reply to a request to `/v1/messages` holds the identifier, the model and the
/// whole content.
pub proof fn reply_holds_the_content(id: Seq<char>, content: Seq<char>, model: Seq<char>)
    ensures
        message_doc(id, content, model) == Doc::Object(
            map![
                "id"@ => Doc::Text("msg_"@ + id),
                "type"@ => Doc::Text("message"@),
                "role"@ => Doc::Text("assistant"@),
                "content"@ => Doc::List(seq![Doc::Object(map![
                    "type"@ => Doc::Text("text"@),
                    "text"@ => Doc::Text(content),
                ])]),
                "model"@ => Doc::Text(model),
                "stop_reason"@ => Doc::Text("end_turn"@),
                "stop_sequence"@ => Doc::Null,
                "usage"@ => Doc::Object(map![
                    "input_tokens"@ => Doc::Number(text::decimal(0)),
                    "output_tokens"@ => Doc::Number(text::decimal(0)),
                ]),
            ],
        ),
{
}

/// A request to the OpenAI API names its model in the member `model`, and without
/// one it names none.
pub proof fn model_is_the_member(req: Map<Seq<char>, Doc>, s: Seq<char>)
    ensures
        req.contains_key("model"@) && req["model"@] == Doc::Text(s) ==> model_in(Doc::Object(req))
            == s,
        !req.contains_key("model"@) ==> model_in(Doc::Object(req)).len() == 0,
{
}

/// The list of models has an entry for every image, in the order of the store, under
/// its reference.
pub proof fn every_image_is_a_model(list: Seq<ImageSummary>)
    ensures
        listed_models(list).len() == list.len(),
        forall|i: int|
            0 <= i < list.len() ==> #[trigger] listed_models(list)[i] == Doc::Object(
                map![
                    "id"@ => Doc::Text(list[i].reference@),
                    "object"@ => Doc::Text("model"@),
                    "created"@ => Doc::Number(text::decimal(0)),
                    "owned_by"@ => Doc::Text("llmman"@),
                ],
            ),
{
}

/// What `/api/tags` says of an image is its reference, its size and its digest, and
/// the time of its modification, to the second.
pub proof fn tags_tell_of_the_image(m: OllamaModelInfo, img: ImageSummary, secs: i64)
    requires
        tells_of(m, img),
    ensures
        m.name@ == img.reference@,
        m.model@ == img.reference@,
        m.size == img.size,
        m.digest@ == img.digest@,
        m.details.format@ == "gguf"@,
        img.modified_at matches Some(t) ==> 0 <= secs && secs * 1_000_000_000 <= t < (secs + 1)
            * 1_000_000_000 ==> (clock::rfc3339(secs, 0) matches Some(w) ==> m.modified_at@ == w),
{
    if let Some(t) = img.modified_at {
        if 0 <= secs && secs * 1_000_000_000 <= t < (secs + 1) * 1_000_000_000 {
            assert(t / 1_000_000_000 == secs);
        }
    }
}

/// What `/api/show` says of an image is its digest and its size.
pub proof fn show_tells_of_the_image(r: OllamaShowResponse, d: DescriptorModel)
    requires
        shows(r, d),
    ensures
        json::doc(r.model_info) == Doc::Object(
            map![
                "digest"@ => Doc::Text(d.digest),
                "size"@ => Doc::Number(text::decimal(d.size as nat)),
            ],
        ),
        r.details.format@ == "gguf"@,
{
}

/// A request means the model in its field `name`, where that is not empty, or else
/// the one in its field `model`.
pub proof fn either_field_names_the_model(model: Seq<char>, name: Seq<char>)
    ensures
        name.len() > 0 ==> meant(model, Some(name)) == name,
        name.len() == 0 ==> meant(model, Some(name)) == model,
        meant(model, None) == model,
{
}

/// A reply that says one thing has one member, with the words as they stand.
pub proof fn notes_say_their_words(key: Seq<char>, words: Seq<char>)
    ensures
        note(key, words) == Doc::Object(Map::<Seq<char>, Doc>::empty().insert(key, Doc::Text(words))),
{
}

/// The reply to a request without a prompt says that the model is loaded, and
/// nothing else.
pub proof fn loading_is_reported(c: OllamaGenerateChunk, model: Seq<char>)
    requires
        says_loaded(c, model),
    ensures
        c.model@ == model,
        c.response@.len() == 0,
        c.thinking is None,
        c.done,
        c.done_reason matches Some(w) && w@ == "load"@,
{
}

/// A number among the options that 32 bits do not hold loses what stands above them.
pub proof fn large_numbers_are_cut(options: Value, m: Map<Seq<char>, Doc>, key: Seq<char>, n: u64)
    requires
        json::doc(options) == Doc::Object(m),
        m.contains_key(key),
        m[key] == Doc::Number(text::decimal(n as nat)),
    ensures
        option_number(Some(options), key) == Some((n % 0x1_0000_0000) as u32),
{
    json::number_stands_for_itself(n);
}

/// An answer without a first alternative, or without a text in it, is empty, and so
/// is the name of a model that is no text.
pub proof fn missing_answers_are_empty(body: Map<Seq<char>, Doc>, l: Seq<Doc>, s: Seq<char>)
    ensures
        !body.contains_key("choices"@) ==> answer_text(Doc::Object(body)).len() == 0,
        body.contains_key("choices"@) && body["choices"@] == Doc::List(Seq::<Doc>::empty())
            ==> answer_text(Doc::Object(body)).len() == 0,
        answer_text(Doc::List(l)).len() == 0,
        answer_text(Doc::Text(s)).len() == 0,
        body.contains_key("model"@) && body["model"@] == Doc::Number(s) ==> model_in(
            Doc::Object(body),
        ).len() == 0,
        model_in(Doc::List(l)).len() == 0,
{
}

/// Only the format of a model is told, and an image without a time of modification
/// has no text for it.
pub proof fn only_the_format_is_told(d: OllamaModelDetails)
    requires
        says_gguf(d),
    ensures
        d.format@ == "gguf"@,
        d.family@.len() == 0,
        d.parameter_size@.len() == 0,
        d.quantization_level@.len() == 0,
        time_text(None) is None,
{
}

/// What goes to the inference server says what its messages say.
pub proof fn messages_say_their_fields(m: OAIMessage)
    ensures
        said(m).0 == m.role@,
        said(m).1 == m.content@,
{
}

/// The paths at which the inference server is asked.
pub proof fn requests_go_to_these_paths()
    ensures
        CHAT_PATH@ == "/v1/chat/completions"@,
        COMPLETIONS_PATH@ == "/v1/completions"@,
        EMBEDDINGS_PATH@ == "/v1/embeddings"@,
        GREETING@ == "llmman is running"@,
{
}

} // verus!
