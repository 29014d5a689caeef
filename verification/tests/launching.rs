use llmman::cmd::launch::{
    exec_with_env, file_of, find_on_path, integrations, launch, launch_known, opencode_config,
    print_integrations, run, server_args, write_codex_config, Integration, LaunchAction,
    LaunchArgs, LaunchPlan, Program, NOT_STARTED, START_ATTEMPTS, START_PAUSE,
};
use llmman::string_map::StringMap;

const SERVER: &str = "http://127.0.0.1:17434";
const V1: &str = "http://127.0.0.1:17434/v1";

fn strings(v: &[&str]) -> Vec<String> {
    v.iter().map(|s| s.to_string()).collect()
}

fn client() -> Integration {
    Integration {
        name: "acme".to_string(),
        description: "Acme Agent".to_string(),
        binary: "acme-agent".to_string(),
        install_hint: "https://acme.example".to_string(),
    }
}

fn plan(name: &str, model: &str, extra: &[&str]) -> LaunchPlan {
    launch(&client(), name, model, &strings(extra)).unwrap()
}

fn env(p: &LaunchPlan) -> Vec<(&str, &str)> {
    p.env.iter().map(|(k, v)| (k.as_str(), v.as_str())).collect()
}

#[test]
fn without_an_integration_they_are_listed() {
    let names = StringMap::new();
    let args = LaunchArgs { integration: None, model: None, extra_args: vec![] };
    assert!(matches!(run(&args, &names), LaunchAction::List));
    let args = LaunchArgs {
        integration: Some("Codex".to_string()),
        model: Some("m".to_string()),
        extra_args: vec![],
    };
    match run(&args, &names) {
        LaunchAction::Launch { name, model } => {
            assert_eq!((name.as_str(), model.as_str()), ("Codex", "hf.co/m"))
        }
        other => panic!("{other:?}"),
    }
    let args =
        LaunchArgs { integration: Some("codex".to_string()), model: None, extra_args: vec![] };
    assert!(matches!(run(&args, &names), LaunchAction::Launch { model, .. } if model.is_empty()));
}

#[test]
fn the_list_says_what_is_installed() {
    let lines = print_integrations(&client(), &vec![true, false, true]);
    assert_eq!(lines.len(), 1 + 8 + 1);
    assert_eq!(lines[0], "Available integrations:\n");
    assert_eq!(lines[1], "  acme         Acme Agent");
    assert_eq!(lines[2], "  opencode     OpenCode (not installed — https://opencode.ai)");
    assert_eq!(lines[3], "  codex        OpenAI Codex CLI");
    assert_eq!(
        lines[8],
        "  gemini       Gemini CLI (not installed — npm install -g @google/gemini-cli)"
    );
    assert_eq!(lines[9], "\nUsage: llmman launch <integration> [--model <model>]");
}

#[test]
fn every_listed_integration_can_be_launched() {
    for i in integrations() {
        assert!(launch(&client(), &i.name, "", &vec![]).is_ok(), "{}", i.name);
        assert!(launch_known(&client(), &i.name, "", &vec![]).is_some(), "{}", i.name);
    }
    assert!(launch_known(&client(), "acme", "", &vec![]).is_some());
    let capital = Integration { name: "Acme".to_string(), ..client() };
    assert_eq!(launch(&capital, "Acme", "", &vec![]).unwrap().program, "acme-agent");
    assert_eq!(launch(&capital, "acme", "", &vec![]).unwrap().program, "acme-agent");
}

#[test]
fn unknown_integrations_are_refused() {
    assert_eq!(
        launch(&client(), "Foo\"", "", &vec![]).unwrap_err(),
        "unknown integration \"foo\\\"\"\nRun 'llmman launch' without arguments to list \
         supported integrations."
    );
}

#[test]
fn the_client_of_the_anthropic_api_gets_its_address() {
    let p = plan("ACME", "m", &["-x"]);
    assert_eq!(p.program, "acme-agent");
    assert_eq!(p.missing.as_deref(), Some("acme is not installed — https://acme.example"));
    assert_eq!(p.args, strings(&["--model", "m", "-x"]));
    assert_eq!(env(&p), vec![("ANTHROPIC_BASE_URL", SERVER), ("ANTHROPIC_API_KEY", "llmman")]);
    assert!(!p.codex_config);
}

#[test]
fn opencode_gets_a_configuration() {
    let p = plan("opencode", "", &["run"]);
    assert_eq!(p.fallback.as_deref(), Some(".opencode/bin/opencode"));
    assert_eq!(p.missing.as_deref(), Some("opencode is not installed — https://opencode.ai"));
    assert_eq!(p.args, strings(&["run"]));
    assert_eq!(p.env.len(), 1);
    assert_eq!(p.env[0].0, "OPENCODE_CONFIG_CONTENT");
    assert_eq!(p.env[0].1, opencode_config("default"));
    let v: serde_json::Value = serde_json::from_str(&opencode_config("a/b")).unwrap();
    assert_eq!(v["$schema"], "https://opencode.ai/config.json");
    assert_eq!(v["model"], "ollama/a/b");
    let o = &v["provider"]["ollama"];
    assert_eq!(o["npm"], "@ai-sdk/openai-compatible");
    assert_eq!(o["name"], "Ollama");
    assert_eq!(o["options"]["baseURL"], V1);
    assert_eq!(o["models"]["a/b"]["name"], "a/b");
}

#[test]
fn codex_uses_its_profile() {
    let p = plan("codex", "m", &["-q"]);
    assert_eq!((p.program.as_str(), p.missing.as_deref()), ("codex", None));
    assert!(p.codex_config);
    assert_eq!(p.args, strings(&["--model", "m", "--profile", "llmman", "-q"]));
    assert_eq!(env(&p), vec![("OPENAI_API_KEY", "llmman")]);
    assert_eq!(plan("codex", "", &[]).args, strings(&["--profile", "llmman"]));
}

#[test]
fn the_codex_profile_is_added_once() {
    let new = write_codex_config("a = 1\n").unwrap();
    assert_eq!(
        new,
        "a = 1\n\n[profiles.llmman]\nopenai_base_url = \"http://127.0.0.1:17434/v1\"\n"
    );
    assert_eq!(write_codex_config(&new), None);
}

#[test]
fn aider_gets_the_openai_api() {
    let p = plan("aider", "m", &[]);
    assert_eq!(p.args, strings(&["--model", "openai/m", "--openai-api-base", V1]));
    assert_eq!(env(&p), vec![("OPENAI_API_KEY", "llmman"), ("OPENAI_BASE_URL", V1)]);
    assert_eq!(p.missing, None);
}

#[test]
fn copilot_goes_by_two_names() {
    for name in ["copilot", "copilot-cli"] {
        let p = plan(name, "m", &["x"]);
        assert_eq!(p.program, "gh");
        assert_eq!(p.args, strings(&["copilot", "--model", "m", "x"]));
        assert_eq!(env(&p), vec![("COPILOT_PROVIDER_BASE_URL", V1)]);
        assert_eq!(
            p.missing.as_deref(),
            Some("gh (GitHub CLI) is not installed — https://cli.github.com")
        );
    }
}

#[test]
fn gemini_gets_the_documented_variable() {
    let p = plan("gemini", "m", &[]);
    assert_eq!(p.args, strings(&["--model", "m"]));
    assert_eq!(
        env(&p),
        vec![("GOOGLE_GENAI_BASE_URL", V1), ("GEMINI_BASE_URL", V1), ("GEMINI_API_KEY", "llmman")]
    );
}

#[test]
fn simple_programs_get_the_address_only() {
    let p = plan("kimi", "ignored", &["a"]);
    assert_eq!(p.args, strings(&["a"]));
    assert_eq!(env(&p), vec![("OLLAMA_HOST", SERVER)]);
    assert_eq!(
        plan("cline", "", &[]).missing.as_deref(),
        Some("cline is not installed — cline is not installed: npm install -g cline")
    );
}

#[test]
fn programs_run_where_they_are_found() {
    let p = plan("opencode", "", &[]);
    assert!(matches!(p.locate(true, true), Ok(Program::OnPath)));
    assert!(matches!(p.locate(false, true), Ok(Program::Fallback)));
    assert_eq!(
        p.locate(false, false).unwrap_err(),
        "opencode is not installed — https://opencode.ai"
    );
    let named = plan("aider", "", &[]).locate(true, false).unwrap();
    assert!(matches!(named, Program::Named(n) if n == "aider"));
}

#[test]
fn environments_are_kept_and_overlaid() {
    let vars = StringMap::from_pairs(vec![
        ("HOME".to_string(), "/h".to_string()),
        ("OLLAMA_HOST".to_string(), "elsewhere".to_string()),
        ("OPENAI_API_KEY".to_string(), "secret".to_string()),
    ]);
    let e = exec_with_env(vars, &plan("aider", "", &[]).env);
    assert_eq!(e.get("HOME"), Some("/h"));
    assert_eq!(e.get("OLLAMA_HOST"), Some(SERVER));
    assert_eq!(e.get("OPENAI_API_KEY"), Some("llmman"));
    assert_eq!(e.get("OPENAI_BASE_URL"), Some(V1));
}

#[test]
fn programs_are_looked_for_along_the_path() {
    let dirs = strings(&["/a", "b/"]);
    assert_eq!(find_on_path(&dirs, "x", false), strings(&["/a/x", "b/x"]));
    assert_eq!(find_on_path(&dirs, "x", true), strings(&["/a/x.exe", "b/x.exe"]));
    assert_eq!((file_of("x", false).as_str(), file_of("x", true).as_str()), ("x", "x.exe"));
}

#[test]
fn the_server_is_started_with_or_without_a_model() {
    assert_eq!(server_args("m"), strings(&["serve", "m"]));
    assert_eq!(server_args(""), strings(&["serve"]));
    assert_eq!((START_ATTEMPTS, START_PAUSE), (120, 500));
    assert_eq!(NOT_STARTED, "llmman serve did not start within 60 s");
}
