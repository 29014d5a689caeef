use llmman::cmd::serve::api::{
    answer_content, anthropic_answer, bool_true, error_body, handle_anthropic_messages,
    handle_delete, handle_ollama_chat, handle_ollama_generate, handle_openai_models, handle_ps,
    handle_pull, handle_show, handle_tags, handle_version, load_chunk, message_reply, model_info,
    opt_u32, requested_model, shown_model, AnthropicBlock, AnthropicContent, AnthropicMessage,
    AnthropicRequest, GenerateAction, OllamaChatRequest, OllamaDeleteRequest,
    OllamaGenerateRequest, OllamaShowRequest, CHAT_PATH,
};
use llmman::cmd::serve::chunks::OllamaMessage;
use llmman::cmd::serve::{run, ServeArgs, ADDRESS};
use llmman::json::ObjectBuilder;
use llmman::storage::oci::{Descriptor, ImageSummary, OciStore, MANIFEST_MEDIA_TYPE};
use llmman::string_map::StringMap;
use serde_json::Value;

fn value(s: &str) -> Value {
    serde_json::from_str(s).unwrap()
}

fn store() -> OciStore {
    let mut s = OciStore::open("/s", None);
    let d = Descriptor {
        media_type: MANIFEST_MEDIA_TYPE.to_string(),
        digest: "sha256:aa".to_string(),
        size: 1234,
        annotations: None,
    };
    s.tag(d, "hf.co/x:latest");
    s
}

fn image(modified_at: Option<i128>) -> ImageSummary {
    ImageSummary {
        reference: "hf.co/x:latest".to_string(),
        digest: "sha256:aa".to_string(),
        media_type: "t".to_string(),
        size: 5,
        modified_at,
    }
}

#[test]
fn the_server_has_a_fixed_address() {
    assert_eq!(ADDRESS, "127.0.0.1:17434");
    assert_eq!(CHAT_PATH, "/v1/chat/completions");
    assert!(bool_true());
    let names = StringMap::new();
    assert_eq!(run(&ServeArgs { model: None }, &names), None);
    let args = ServeArgs { model: Some("x".to_string()) };
    assert_eq!(run(&args, &names), Some("hf.co/x".to_string()));
}

#[test]
fn options_are_whole_numbers_of_32_bits() {
    let o = Some(value("{\"num_predict\": 42, \"big\": 4294967297, \"f\": 1.0, \"n\": -1, \"s\": \"7\"}"));
    assert_eq!(opt_u32(&o, "num_predict"), Some(42));
    assert_eq!(opt_u32(&o, "big"), Some(1));
    assert_eq!(opt_u32(&o, "f"), None);
    assert_eq!(opt_u32(&o, "n"), None);
    assert_eq!(opt_u32(&o, "s"), None);
    assert_eq!(opt_u32(&o, "missing"), None);
    assert_eq!(opt_u32(&Some(value("[1]")), "0"), None);
    assert_eq!(opt_u32(&None, "num_predict"), None);
}

#[test]
fn chats_are_passed_on_as_streams() {
    let req = OllamaChatRequest {
        model: "m".to_string(),
        messages: vec![
            OllamaMessage {
                role: "system".to_string(),
                content: "be brief".to_string(),
                thinking: Some("dropped".to_string()),
            },
            OllamaMessage { role: "user".to_string(), content: "hi".to_string(), thinking: None },
        ],
        stream: false,
        options: Some(value("{\"num_predict\": 3}")),
    };
    let r = handle_ollama_chat(&req, Some(0.5f32), None);
    assert_eq!(r.model, "m");
    assert_eq!(r.messages.len(), 2);
    assert_eq!((r.messages[0].role.as_str(), r.messages[0].content.as_str()), ("system", "be brief"));
    assert_eq!((r.messages[1].role.as_str(), r.messages[1].content.as_str()), ("user", "hi"));
    assert!(r.stream);
    assert_eq!((r.temperature, r.top_p, r.max_tokens), (Some(0.5), None, Some(3)));
}

#[test]
fn an_empty_prompt_only_loads() {
    let mut req = OllamaGenerateRequest {
        model: "m".to_string(),
        prompt: String::new(),
        stream: true,
        options: None,
    };
    match handle_ollama_generate::<f32>(&req, None, None) {
        GenerateAction::Loaded(c) => {
            assert_eq!((c.model.as_str(), c.response.as_str(), c.done), ("m", "", true));
            assert_eq!(c.done_reason.as_deref(), Some("load"));
            assert!(c.created_at.ends_with('Z'));
        }
        other => panic!("{other:?}"),
    }
    req.prompt = "why?".to_string();
    match handle_ollama_generate(&req, None, Some(0.9f32)) {
        GenerateAction::Ask(r) => {
            assert_eq!(r.messages.len(), 1);
            assert_eq!((r.messages[0].role.as_str(), r.messages[0].content.as_str()), ("user", "why?"));
            assert!(r.stream);
            assert_eq!((r.top_p, r.max_tokens), (Some(0.9), None));
        }
        other => panic!("{other:?}"),
    }
    assert_eq!(load_chunk("m", "then").created_at, "then");
}

fn block(type_: &str, text: Option<&str>) -> AnthropicBlock {
    AnthropicBlock { type_: type_.to_string(), text: text.map(|t| t.to_string()) }
}

#[test]
fn anthropic_messages_become_a_chat() {
    let req = AnthropicRequest {
        model: "m".to_string(),
        messages: vec![
            AnthropicMessage {
                role: "user".to_string(),
                content: AnthropicContent::Blocks(vec![
                    block("text", Some("a")),
                    block("image", Some("no")),
                    block("text", None),
                    block("text", Some("b")),
                ]),
            },
            AnthropicMessage {
                role: "assistant".to_string(),
                content: AnthropicContent::Text("ok".to_string()),
            },
        ],
        max_tokens: Some(9),
        stream: false,
        system: Some("sys".to_string()),
        temperature: Some(1.0f32),
        top_p: None,
    };
    let r = handle_anthropic_messages(&req);
    let said: Vec<(&str, &str)> =
        r.messages.iter().map(|m| (m.role.as_str(), m.content.as_str())).collect();
    assert_eq!(said, vec![("system", "sys"), ("user", "ab"), ("assistant", "ok")]);
    assert!(!r.stream);
    assert_eq!((r.temperature, r.top_p, r.max_tokens), (Some(1.0), None, Some(9)));
}

#[test]
fn answers_become_anthropic_messages() {
    let body = value("{\"choices\": [{\"message\": {\"content\": \"hi\"}}, {}]}");
    assert_eq!(answer_content(&body), "hi");
    for odd in ["{}", "[]", "{\"choices\": []}", "{\"choices\": [{\"message\": {\"content\": 1}}]}"] {
        assert_eq!(answer_content(&value(odd)), "");
    }
    assert_eq!(
        message_reply("0", "hi", "m"),
        value(
            "{\"id\": \"msg_0\", \"type\": \"message\", \"role\": \"assistant\", \
             \"content\": [{\"type\": \"text\", \"text\": \"hi\"}], \"model\": \"m\", \
             \"stop_reason\": \"end_turn\", \"stop_sequence\": null, \
             \"usage\": {\"input_tokens\": 0, \"output_tokens\": 0}}"
        )
    );
    let v = anthropic_answer(b"{\"choices\": [{\"message\": {\"content\": \"hi\"}}]}", "m").unwrap();
    assert_eq!(v["content"][0]["text"], "hi");
    let id = v["id"].as_str().unwrap();
    assert!(id.starts_with("msg_") && id.len() == 36);
    assert_eq!(
        anthropic_answer(b"<html>", "m").unwrap_err(),
        "parse llama-server response: expected value at line 1 column 1"
    );
}

#[test]
fn openai_requests_name_their_model() {
    assert_eq!(requested_model(b"{\"model\": \"x\"}"), Ok("x".to_string()));
    assert_eq!(requested_model(b"{\"model\": 1}"), Ok(String::new()));
    assert_eq!(requested_model(b"[]"), Ok(String::new()));
    assert_eq!(
        requested_model(b"{").unwrap_err(),
        "parse OpenAI request body: EOF while parsing an object at line 1 column 1"
    );
}

#[test]
fn models_are_listed_for_openai_clients() {
    assert_eq!(
        handle_openai_models(&vec![image(None)]),
        value(
            "{\"object\": \"list\", \"data\": [{\"id\": \"hf.co/x:latest\", \
             \"object\": \"model\", \"created\": 0, \"owned_by\": \"llmman\"}]}"
        )
    );
    assert_eq!(handle_openai_models(&vec![]), value("{\"object\": \"list\", \"data\": []}"));
}

#[test]
fn models_are_listed_for_ollama_clients() {
    let m = model_info(&image(Some(1_700_000_000_999_999_999)), "now");
    assert_eq!((m.name.as_str(), m.model.as_str()), ("hf.co/x:latest", "hf.co/x:latest"));
    assert_eq!((m.size, m.digest.as_str()), (5, "sha256:aa"));
    assert_eq!(m.modified_at, "2023-11-14T22:13:20+00:00");
    assert_eq!(m.details.format, "gguf");
    assert_eq!(m.details.family, "");
    assert_eq!(model_info(&image(None), "now").modified_at, "now");
    assert_eq!(model_info(&image(Some(-1)), "now").modified_at, "now");
    assert_eq!(model_info(&image(Some(0)), "now").modified_at, "1970-01-01T00:00:00+00:00");
    assert_eq!(model_info(&image(Some(i128::MAX)), "now").modified_at, "now");
    let r = handle_tags(&vec![image(Some(0)), image(None)]);
    assert_eq!(r.models.len(), 2);
    assert_eq!(r.models[0].modified_at, "1970-01-01T00:00:00+00:00");
    assert!(r.models[1].modified_at.ends_with('Z'));
}

#[test]
fn running_models_are_listed() {
    let r = handle_ps(&vec!["a".to_string(), "b".to_string()]);
    assert_eq!(r.models.len(), 2);
    assert_eq!((r.models[1].name.as_str(), r.models[1].model.as_str()), ("b", "b"));
    assert_eq!((r.models[1].size, r.models[1].size_vram), (0, 0));
}

#[test]
fn models_are_shown_by_either_field() {
    let s = store();
    let req = OllamaShowRequest { model: "hf.co/x:latest".to_string(), name: Some(String::new()) };
    let r = handle_show(&s, &req).unwrap();
    assert_eq!(r.model_info, value("{\"digest\": \"sha256:aa\", \"size\": 1234}"));
    assert_eq!(r.details.format, "gguf");
    let req = OllamaShowRequest { model: String::new(), name: Some("latest".to_string()) };
    assert!(handle_show(&s, &req).is_ok());
    let req = OllamaShowRequest { model: "y".to_string(), name: None };
    assert_eq!(handle_show(&s, &req).unwrap_err(), "model not found: y");
}

#[test]
fn models_without_a_tag_mean_the_latest() {
    let s = store();
    let req = OllamaShowRequest { model: "hf.co/x".to_string(), name: None };
    assert_eq!(shown_model(&req), "hf.co/x");
    let r = handle_show(&s, &req).unwrap();
    assert_eq!(r.model_info, value("{\"digest\": \"sha256:aa\", \"size\": 1234}"));
    assert_eq!(handle_pull(Ok(&s), "hf.co/x", &StringMap::new()).status, 200);
    assert_eq!(handle_pull(Ok(&s), "hf.co/x:v1", &StringMap::new()).status, 404);
}

#[test]
fn members_are_set_once() {
    let v = ObjectBuilder::new()
        .with_text("a", "1")
        .with_text("b", "2")
        .with_number("a", 3)
        .build();
    assert_eq!(v.to_string(), "{\"a\":3,\"b\":\"2\"}");
}

#[test]
fn deleted_models_are_gone() {
    let mut s = store();
    let req = OllamaDeleteRequest { model: "hf.co/x:latest".to_string(), name: None };
    assert!(handle_delete(&mut s, &req).is_ok());
    assert!(s.find("hf.co/x:latest").is_err());
    assert_eq!(
        handle_delete(&mut s, &req).unwrap_err().message(),
        "image not found: hf.co/x:latest"
    );
}

#[test]
fn pulls_succeed_for_stored_models() {
    let s = store();
    let names = StringMap::new();
    let r = handle_pull(Ok(&s), "x:latest", &names);
    assert_eq!((r.status, r.content_type.as_str()), (200, "application/x-ndjson"));
    assert_eq!(r.body, "{\"status\":\"success\"}\n");
    let r = handle_pull(Ok(&s), "y", &names);
    assert_eq!((r.status, r.content_type.as_str()), (404, "application/json"));
    assert_eq!(r.body, "{\"error\":\"model not found: hf.co/y\"}");
    let r = handle_pull(Err("no \"store\"".to_string()), "y", &names);
    assert_eq!((r.status, r.body.as_str()), (500, "{\"error\":\"no \\\"store\\\"\"}"));
}

#[test]
fn small_replies_hold_one_member() {
    assert_eq!(error_body("x").to_string(), "{\"error\":\"x\"}");
    assert_eq!(handle_version("1.2.3").to_string(), "{\"version\":\"1.2.3\"}");
}
