use llmman::cmd::run::{
    prompt_of_line, run, serve_args, ChatChunk, GenChunk, Msg, Reply, RunArgs, RunMode, Session,
    SessionAction, START_PAUSE, START_SECONDS,
};
use llmman::cmd::wait::{until_asked, until_deadline, Poll};
use llmman::string_map::StringMap;

fn args(prompt: &[&str]) -> RunArgs {
    RunArgs { model: "qwen".to_string(), prompt: prompt.iter().map(|s| s.to_string()).collect() }
}

fn submitted(a: SessionAction) -> String {
    match a {
        SessionAction::Submit(s) => s,
        other => panic!("not submitted: {other:?}"),
    }
}

#[test]
fn a_prompt_is_run_once() {
    let plan = run(&args(&["tell", "me"]), &StringMap::new(), true);
    assert_eq!(plan.model, "hf.co/qwen");
    assert!(matches!(plan.mode, RunMode::OneShot(p) if p == "tell me"));
}

#[test]
fn without_a_prompt_the_terminal_decides() {
    let names = StringMap::new();
    assert!(matches!(run(&args(&[]), &names, true).mode, RunMode::Interactive));
    assert!(matches!(run(&args(&[]), &names, false).mode, RunMode::FromInput));
    assert!(matches!(run(&args(&[""]), &names, true).mode, RunMode::Interactive));
    assert_eq!(prompt_of_line("  hi \n"), Some("hi".to_string()));
    assert_eq!(prompt_of_line(" \n"), None);
    assert_eq!(prompt_of_line("\u{3000}x\u{a0}"), Some("x".to_string()));
}

#[test]
fn the_server_is_started_for_the_model() {
    assert_eq!(serve_args("m"), vec!["serve", "m"]);
    assert_eq!((START_SECONDS, START_PAUSE), (60, 300));
}

#[test]
fn waiting_ends_with_an_answer_or_in_time() {
    assert_eq!(until_deadline(false, true, 300), Poll::Ready);
    assert_eq!(until_deadline(false, false, 300), Poll::Sleep(300));
    assert_eq!(until_deadline(true, true, 300), Poll::TimedOut);
    assert_eq!(until_asked(0, 120, false, 500), Poll::Sleep(500));
    assert_eq!(until_asked(119, 120, false, 500), Poll::Sleep(500));
    assert_eq!(until_asked(120, 120, false, 500), Poll::TimedOut);
    assert_eq!(until_asked(120, 120, true, 500), Poll::Ready);
}

#[test]
fn lines_are_submitted_as_they_stand() {
    let mut s = Session::new();
    assert_eq!(s.prompt(), "> ");
    assert_eq!(submitted(s.on_line("  hello ", false)), "  hello ");
    assert!(matches!(s.on_line("   ", false), SessionAction::Continue));
}

#[test]
fn commands_are_no_messages() {
    let mut s = Session::new();
    assert!(matches!(s.on_line("/bye", false), SessionAction::Quit));
    assert!(matches!(s.on_line(" /exit ", false), SessionAction::Quit));
    assert!(matches!(s.on_line("/help", false), SessionAction::Help));
    s.submit("x");
    assert!(matches!(s.on_line("/clear", false), SessionAction::Cleared));
    assert!(s.messages().is_empty());
}

#[test]
fn quotes_hold_several_lines_together() {
    let mut s = Session::new();
    assert!(matches!(s.on_line("\"\"\"one", false), SessionAction::Continue));
    assert_eq!(s.prompt(), ". ");
    assert!(matches!(s.on_line("/bye", false), SessionAction::Continue));
    assert_eq!(submitted(s.on_line("three\"\"\"", false)), "one\n/bye\nthree");
    assert_eq!(s.prompt(), "> ");
    assert_eq!(submitted(s.on_line("\"\"\"all in one\"\"\"", false)), "all in one");
    s.on_line("\"\"\"", false);
    assert_eq!(submitted(s.on_line("x\n\n\"\"\"", false)), "\nx");
    s.on_line("\"\"\"", false);
    assert!(matches!(s.on_line("\"\"\"", false), SessionAction::Continue));
}

#[test]
fn pastes_are_one_input() {
    let mut s = Session::new();
    assert!(matches!(s.on_line("one", true), SessionAction::Continue));
    assert_eq!(s.prompt(), "... ");
    s.on_line("", true);
    assert_eq!(submitted(s.on_line("two", false)), "one\n\ntwo");
    assert_eq!(s.prompt(), "> ");
}

#[test]
fn interruptions_start_over() {
    let mut s = Session::new();
    s.on_line("pasted", true);
    s.on_interrupt();
    assert_eq!(submitted(s.on_line("x", false)), "x");
    s.on_line("\"\"\"a", false);
    s.on_interrupt();
    assert_eq!(submitted(s.on_line("y", false)), "y");
}

#[test]
fn the_simple_chat_knows_few_commands() {
    let mut s = Session::new();
    assert_eq!(submitted(s.on_simple_line("/help\r\n")), "/help");
    assert_eq!(submitted(s.on_simple_line("\"\"\"a\n")), "\"\"\"a");
    assert!(matches!(s.on_simple_line("/bye\n"), SessionAction::Quit));
    assert!(matches!(s.on_simple_line("\n"), SessionAction::Continue));
    s.submit("x");
    assert!(matches!(s.on_simple_line("/clear\n"), SessionAction::Continue));
    assert!(s.messages().is_empty());
}

fn chunk(thinking: Option<&str>, content: &str, done: bool) -> ChatChunk {
    ChatChunk {
        message: Some(Msg {
            role: "assistant".to_string(),
            content: content.to_string(),
            thinking: thinking.map(|t| t.to_string()),
        }),
        done,
    }
}

#[test]
fn thoughts_are_set_apart_from_the_answer() {
    let mut r = Reply::new();
    let a = r.on_chat(&chunk(Some("hm"), "", false));
    assert_eq!((a.err.as_str(), a.out.as_str(), a.done), ("Thinking: hm", "", false));
    let a = r.on_chat(&chunk(Some("m"), "", false));
    assert_eq!(a.err, "m");
    let a = r.on_chat(&chunk(None, "Yes", false));
    assert_eq!((a.err.as_str(), a.out.as_str()), ("\n", "Yes"));
    let a = r.on_chat(&chunk(Some(""), ".", true));
    assert_eq!((a.err.as_str(), a.out.as_str(), a.done), ("", ".", true));
    assert_eq!(r.full(), "Yes.");
    let a = r.on_chat(&ChatChunk { message: None, done: true });
    assert_eq!((a.err.as_str(), a.out.as_str(), a.done), ("", "", true));
}

#[test]
fn the_answer_joins_the_conversation() {
    let mut s = Session::new();
    s.submit("question");
    let mut r = Reply::new();
    r.on_chat_without_thoughts(&chunk(Some("hidden"), "an", false));
    let a = r.on_chat_without_thoughts(&chunk(None, "swer", true));
    assert_eq!(a.err, "");
    s.answer(&r);
    let m = s.messages();
    assert_eq!(m.len(), 2);
    assert_eq!((m[0].role.as_str(), m[0].content.as_str()), ("user", "question"));
    assert_eq!((m[1].role.as_str(), m[1].content.as_str()), ("assistant", "answer"));
    assert!(m[1].thinking.is_none());
}

#[test]
fn generated_pieces_are_shown_alike() {
    let mut r = Reply::new();
    let g = GenChunk { response: "".to_string(), thinking: Some("t".to_string()), done: false };
    assert_eq!(r.on_generate(&g).err, "Thinking: t");
    let g = GenChunk { response: "r".to_string(), thinking: None, done: true };
    let a = r.on_generate(&g);
    assert_eq!((a.err.as_str(), a.out.as_str(), a.done), ("\n", "r", true));
    assert_eq!(r.full(), "r");
}
