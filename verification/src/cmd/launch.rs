//! `llmman launch`: coding assistants on top of the local inference server.

use serde_json::Value;
use vstd::prelude::*;
use crate::json;
use crate::json::{Doc, ObjectBuilder};
use crate::paths;
use crate::shortnames;
use crate::string_map::StringMap;
use crate::text;

verus! {

/// Address of the local inference server.
pub const SERVER: &'static str = "http://127.0.0.1:17434";

/// Address of its OpenAI-compatible API.
pub const SERVER_V1: &'static str = "http://127.0.0.1:17434/v1";

/// Number of times that a starting server is asked whether it is up.
pub const START_ATTEMPTS: u32 = 120;

/// Milliseconds before each of these questions.
pub const START_PAUSE: u64 = 500;

/// Says that the server did not come up.
pub const NOT_STARTED: &'static str = "llmman serve did not start within 60 s";

/// What marks the profile in the configuration of codex.
pub const CODEX_PROFILE: &'static str = "[profiles.llmman]";

/// The profile that is added to the configuration of codex.
pub const CODEX_ENTRY: &'static str =
    "\n[profiles.llmman]\nopenai_base_url = \"http://127.0.0.1:17434/v1\"\n";

/// Arguments of the command.
#[derive(Debug)]
pub struct LaunchArgs {
    /// Integration to launch; without one the integrations are listed.
    pub integration: Option<String>,
    /// Model to use.
    pub model: Option<String>,
    /// Further arguments for the integration.
    pub extra_args: Vec<String>,
}

/// What the command does.
#[derive(Debug)]
pub enum LaunchAction {
    /// List the integrations.
    List,
    /// Launch this integration with this model, once the server is up.
    Launch { name: String, model: String },
}

/// Decides what the command does.  Without a model its name is empty.
pub fn run(args: &LaunchArgs, aliases: &StringMap) -> (r: LaunchAction)
    ensures
        match args.integration {
            Some(n) => r matches LaunchAction::Launch { name, model } && name@ == n@ && model@ == (
            match args.model {
                Some(m) => shortnames::resolved(aliases@, m@),
                None => Seq::<char>::empty(),
            }),
            None => r matches LaunchAction::List,
        },
{
    match &args.integration {
        Some(n) => {
            let model: String = match &args.model {
                Some(m) => shortnames::resolve(m.as_str(), aliases),
                None => String::new(),
            };
            LaunchAction::Launch { name: n.clone(), model }
        },
        None => LaunchAction::List,
    }
}

// ---------------------------------------------------------------------------
// Integrations
// ---------------------------------------------------------------------------

/// A coding assistant.
#[derive(Debug)]
pub struct Integration {
    pub name: String,
    pub description: String,
    pub binary: String,
    pub install_hint: String,
}

/// What is known of a coding assistant.
pub struct IntegrationModel {
    pub name: Seq<char>,
    pub description: Seq<char>,
    pub binary: Seq<char>,
    pub install_hint: Seq<char>,
}

impl View for Integration {
    type V = IntegrationModel;

    open spec fn view(&self) -> IntegrationModel {
        IntegrationModel {
            name: self.name@,
            description: self.description@,
            binary: self.binary@,
            install_hint: self.install_hint@,
        }
    }
}

/// What is known of a list of coding assistants.
pub open spec fn integration_models(v: Seq<Integration>) -> Seq<IntegrationModel> {
    v.map_values(|i: Integration| i@)
}

/// One of the coding assistants.
pub open spec fn known(
    name: Seq<char>,
    description: Seq<char>,
    binary: Seq<char>,
    install_hint: Seq<char>,
) -> IntegrationModel {
    IntegrationModel { name, description, binary, install_hint }
}

/// The coding assistants besides the client of the Anthropic API.
pub open spec fn builtin() -> Seq<IntegrationModel> {
    seq![
        known("opencode"@, "OpenCode"@, "opencode"@, "https://opencode.ai"@),
        known("codex"@, "OpenAI Codex CLI"@, "codex"@, "npm install -g @openai/codex"@),
        known("cline"@, "Cline"@, "cline"@, "npm install -g cline"@),
        known(
            "aider"@,
            "Aider AI pair programmer"@,
            "aider"@,
            "pip install aider-install && aider-install"@,
        ),
        known(
            "copilot"@,
            "GitHub Copilot CLI"@,
            "gh"@,
            "https://docs.github.com/en/copilot/how-tos/set-up/install-copilot-cli"@,
        ),
        known("kimi"@, "Kimi Code CLI"@, "kimi"@, "https://kimi.ai"@),
        known("gemini"@, "Gemini CLI"@, "gemini"@, "npm install -g @google/gemini-cli"@),
    ]
}

fn integration(name: &str, description: &str, binary: &str, install_hint: &str) -> (r: Integration)
    ensures
        r@ == known(name@, description@, binary@, install_hint@),
{
    Integration {
        name: name.to_string(),
        description: description.to_string(),
        binary: binary.to_string(),
        install_hint: install_hint.to_string(),
    }
}

/// The coding assistants besides the client of the Anthropic API.
pub fn integrations() -> (r: Vec<Integration>)
    ensures
        integration_models(r@) == builtin(),
{
    let mut r: Vec<Integration> = Vec::new();
    r.push(integration("opencode", "OpenCode", "opencode", "https://opencode.ai"));
    r.push(integration("codex", "OpenAI Codex CLI", "codex", "npm install -g @openai/codex"));
    r.push(integration("cline", "Cline", "cline", "npm install -g cline"));
    r.push(
        integration(
            "aider",
            "Aider AI pair programmer",
            "aider",
            "pip install aider-install && aider-install",
        ),
    );
    r.push(
        integration(
            "copilot",
            "GitHub Copilot CLI",
            "gh",
            "https://docs.github.com/en/copilot/how-tos/set-up/install-copilot-cli",
        ),
    );
    r.push(integration("kimi", "Kimi Code CLI", "kimi", "https://kimi.ai"));
    r.push(integration("gemini", "Gemini CLI", "gemini", "npm install -g @google/gemini-cli"));
    assert(integration_models(r@) =~= builtin());
    r
}

/// The line for an integration in the list.
pub open spec fn listed(i: IntegrationModel, installed: bool) -> Seq<char> {
    let line = "  "@ + text::padded(i.name, 12) + " "@ + i.description;
    if installed {
        line
    } else {
        line + " (not installed — "@ + i.install_hint + ")"@
    }
}

/// All coding assistants: first the client of the Anthropic API, then the others.
pub open spec fn all_integrations(anthropic: IntegrationModel) -> Seq<IntegrationModel> {
    seq![anthropic] + builtin()
}

/// The lines of the list.  `installed` tells of each integration whether its
/// program was found.
pub open spec fn listing(anthropic: IntegrationModel, installed: Seq<bool>) -> Seq<Seq<char>> {
    seq!["Available integrations:\n"@] + Seq::new(
        all_integrations(anthropic).len(),
        |i: int| listed(all_integrations(anthropic)[i], i < installed.len() && installed[i]),
    ) + seq!["\nUsage: llmman launch <integration> [--model <model>]"@]
}

fn line_for(i: &Integration, installed: bool) -> (r: String)
    ensures
        r@ == listed(i@, installed),
{
    let mut line: String = text::concat3(
        "  ",
        text::pad_right(i.name.as_str(), 12).as_str(),
        " ",
    );
    line.append(i.description.as_str());
    if !installed {
        line.append(" (not installed — ");
        line.append(i.install_hint.as_str());
        line.append(")");
    }
    line
}

/// The lines of the list of integrations, the client of the Anthropic API first.
pub fn print_integrations(anthropic: &Integration, installed: &Vec<bool>) -> (r: Vec<String>)
    ensures
        text::texts(r@) == listing(anthropic@, installed@),
{
    let known: Vec<Integration> = integrations();
    let ghost all = all_integrations(anthropic@);
    assert(known@.len() == integration_models(known@).len());
    let ghost middle = Seq::new(
        all.len(),
        |i: int| listed(all[i], i < installed@.len() && installed@[i]),
    );
    let ghost head = seq!["Available integrations:\n"@];
    let mut r: Vec<String> = Vec::new();
    r.push("Available integrations:\n".to_string());
    r.push(line_for(anthropic, installed.len() > 0 && installed[0]));
    assert(all[0] == anthropic@);
    assert(text::texts(r@) =~= head + middle.take(1));
    let mut i: usize = 0;
    while i < known.len()
        invariant
            i <= known@.len(),
            known@.len() == 7,
            all == seq![anthropic@] + integration_models(known@),
            middle == Seq::new(
                all.len(),
                |i: int| listed(all[i], i < installed@.len() && installed@[i]),
            ),
            text::texts(r@) == head + middle.take(i + 1),
        decreases known@.len() - i,
    {
        let found: bool = i + 1 < installed.len() && installed[i + 1];
        assert(all[i + 1] == known@[i as int]@);
        let line: String = line_for(&known[i], found);
        let ghost before = text::texts(r@);
        assert(line@ == middle[i + 1]);
        r.push(line);
        assert(text::texts(r@) =~= before.push(line@));
        assert(head + middle.take(i + 2) =~= (head + middle.take(i + 1)).push(middle[i + 1]));
        i += 1;
    }
    let ghost before = text::texts(r@);
    r.push("\nUsage: llmman launch <integration> [--model <model>]".to_string());
    assert(text::texts(r@) =~= before.push(
        "\nUsage: llmman launch <integration> [--model <model>]"@,
    ));
    assert(middle.take(i + 1) =~= middle);
    assert(listing(anthropic@, installed@) =~= (head + middle).push(
        "\nUsage: llmman launch <integration> [--model <model>]"@,
    ));
    r
}

/// The name of a program file.
pub open spec fn program_file(binary: Seq<char>, windows: bool) -> Seq<char> {
    if windows {
        binary + ".exe"@
    } else {
        binary
    }
}

/// The name of the file that holds a program.
pub fn file_of(binary: &str, windows: bool) -> (r: String)
    ensures
        r@ == program_file(binary@, windows),
{
    if windows {
        text::concat2(binary, ".exe")
    } else {
        binary.to_string()
    }
}

/// The places where a program is looked for: the directories of the search
/// path, in turn.
pub fn find_on_path(dirs: &Vec<String>, binary: &str, windows: bool) -> (r: Vec<String>)
    ensures
        text::texts(r@) == text::texts(dirs@).map_values(
            |d: Seq<char>| paths::below(d, program_file(binary@, windows)),
        ),
{
    let file: String = file_of(binary, windows);
    let ghost all = text::texts(dirs@).map_values(
        |d: Seq<char>| paths::below(d, program_file(binary@, windows)),
    );
    let mut r: Vec<String> = Vec::new();
    assert(text::texts(r@) =~= all.take(0));
    let mut i: usize = 0;
    while i < dirs.len()
        invariant
            i <= dirs.len(),
            file@ == program_file(binary@, windows),
            all == text::texts(dirs@).map_values(
                |d: Seq<char>| paths::below(d, program_file(binary@, windows)),
            ),
            text::texts(r@) == all.take(i as int),
        decreases dirs.len() - i,
    {
        let place: String = paths::join(dirs[i].as_str(), file.as_str());
        let ghost before = text::texts(r@);
        assert(place@ == all[i as int]);
        r.push(place);
        assert(text::texts(r@) =~= before.push(place@));
        assert(all.take(i + 1) =~= all.take(i as int).push(all[i as int]));
        i += 1;
    }
    assert(all.take(i as int) =~= all);
    r
}

/// Arguments with which the server is started.
pub fn server_args(model: &str) -> (r: Vec<String>)
    ensures
        text::texts(r@) == (if model@.len() > 0 {
            seq!["serve"@, model@]
        } else {
            seq!["serve"@]
        }),
{
    let mut r: Vec<String> = Vec::new();
    r.push("serve".to_string());
    assert(text::texts(r@) =~= seq!["serve"@]);
    if !model.is_empty() {
        r.push(model.to_string());
        assert(text::texts(r@) =~= seq!["serve"@, model@]);
    }
    r
}

// ---------------------------------------------------------------------------
// Launching
// ---------------------------------------------------------------------------

/// How an integration is launched.
#[derive(Debug)]
pub struct LaunchPlan {
    /// Name of the program.
    pub program: String,
    /// Says that the program is not there; without it the program is not looked
    /// for.
    pub missing: Option<String>,
    /// Place below the home directory where the program may be otherwise.
    pub fallback: Option<String>,
    /// Whether the configuration of codex is brought up to date first.
    pub codex_config: bool,
    /// Arguments.
    pub args: Vec<String>,
    /// Variables in the environment.
    pub env: Vec<(String, String)>,
}

/// Which program to run.
#[derive(Debug)]
pub enum Program {
    /// The one that goes by this name.
    Named(String),
    /// The one that was found on the search path.
    OnPath,
    /// The one that was found below the home directory.
    Fallback,
}

/// What a plan says.
#[verifier::ext_equal]
pub struct PlanModel {
    pub program: Seq<char>,
    pub missing: Option<Seq<char>>,
    pub fallback: Option<Seq<char>>,
    pub codex_config: bool,
    pub args: Seq<Seq<char>>,
    pub env: Seq<(Seq<char>, Seq<char>)>,
}

/// The names and the values of variables.
pub open spec fn variables(v: Seq<(String, String)>) -> Seq<(Seq<char>, Seq<char>)> {
    v.map_values(|p: (String, String)| (p.0@, p.1@))
}

impl View for LaunchPlan {
    type V = PlanModel;

    open spec fn view(&self) -> PlanModel {
        PlanModel {
            program: self.program@,
            missing: text::opt_text(self.missing),
            fallback: text::opt_text(self.fallback),
            codex_config: self.codex_config,
            args: text::texts(self.args@),
            env: variables(self.env@),
        }
    }
}

impl LaunchPlan {
    /// What to run: a program that is not looked for goes by its name, any other
    /// by the place where it was found, on the search path or otherwise.
    pub fn locate(&self, on_path: bool, otherwise: bool) -> (r: Result<Program, String>)
        ensures
            match self@.missing {
                None => r matches Ok(Program::Named(p)) && p@ == self@.program,
                Some(words) => if on_path {
                    r matches Ok(Program::OnPath)
                } else if otherwise {
                    r matches Ok(Program::Fallback)
                } else {
                    r matches Err(e) && e@ == words
                },
            },
    {
        match &self.missing {
            None => Ok(Program::Named(self.program.clone())),
            Some(words) => if on_path {
                Ok(Program::OnPath)
            } else if otherwise {
                Ok(Program::Fallback)
            } else {
                Err(words.clone())
            },
        }
    }
}

/// The option that names the model, unless there is none.
pub open spec fn model_option(prefix: Seq<char>, model: Seq<char>) -> Seq<Seq<char>> {
    if model.len() > 0 {
        seq!["--model"@, prefix + model]
    } else {
        Seq::<Seq<char>>::empty()
    }
}

/// A program that is looked for on the search path.
pub open spec fn searched(
    program: Seq<char>,
    missing: Seq<char>,
    args: Seq<Seq<char>>,
    env: Seq<(Seq<char>, Seq<char>)>,
) -> PlanModel {
    PlanModel {
        program,
        missing: Some(missing),
        fallback: None,
        codex_config: false,
        args,
        env,
    }
}

/// The client of the Anthropic API gets the address of the server and a key.
pub open spec fn anthropic_plan(
    client: IntegrationModel,
    model: Seq<char>,
    extra: Seq<Seq<char>>,
) -> PlanModel {
    searched(
        client.binary,
        client.name + " is not installed — "@ + client.install_hint,
        model_option(""@, model) + extra,
        seq![("ANTHROPIC_BASE_URL"@, SERVER@), ("ANTHROPIC_API_KEY"@, "llmman"@)],
    )
}

/// The configuration of opencode.
pub open spec fn opencode_doc(model: Seq<char>) -> Doc {
    Doc::Object(
        map![
            "$schema"@ => Doc::Text("https://opencode.ai/config.json"@),
            "provider"@ => Doc::Object(map![
                "ollama"@ => Doc::Object(map![
                    "npm"@ => Doc::Text("@ai-sdk/openai-compatible"@),
                    "name"@ => Doc::Text("Ollama"@),
                    "options"@ => Doc::Object(map!["baseURL"@ => Doc::Text(SERVER_V1@)]),
                    "models"@ => Doc::Object(map![
                        model => Doc::Object(map!["name"@ => Doc::Text(model)]),
                    ]),
                ]),
            ]),
            "model"@ => Doc::Text("ollama/"@ + model),
        ],
    )
}

/// opencode gets its configuration in a variable.
pub open spec fn opencode_plan(model: Seq<char>, extra: Seq<Seq<char>>) -> PlanModel {
    let used = if model.len() > 0 {
        model
    } else {
        "default"@
    };
    PlanModel {
        fallback: Some(".opencode/bin/opencode"@),
        ..searched(
            "opencode"@,
            "opencode is not installed — https://opencode.ai"@,
            extra,
            seq![("OPENCODE_CONFIG_CONTENT"@, json::rendered(opencode_doc(used)))],
        )
    }
}

/// codex uses a profile of its configuration.
pub open spec fn codex_plan(model: Seq<char>, extra: Seq<Seq<char>>) -> PlanModel {
    PlanModel {
        program: "codex"@,
        missing: None,
        fallback: None,
        codex_config: true,
        args: model_option(""@, model) + seq!["--profile"@, "llmman"@] + extra,
        env: seq![("OPENAI_API_KEY"@, "llmman"@)],
    }
}

/// aider talks to the OpenAI-compatible API.
pub open spec fn aider_plan(model: Seq<char>, extra: Seq<Seq<char>>) -> PlanModel {
    PlanModel {
        program: "aider"@,
        missing: None,
        fallback: None,
        codex_config: false,
        args: model_option("openai/"@, model) + seq!["--openai-api-base"@, SERVER_V1@] + extra,
        env: seq![("OPENAI_API_KEY"@, "llmman"@), ("OPENAI_BASE_URL"@, SERVER_V1@)],
    }
}

/// copilot is a command of the GitHub client.
pub open spec fn copilot_plan(model: Seq<char>, extra: Seq<Seq<char>>) -> PlanModel {
    searched(
        "gh"@,
        "gh (GitHub CLI) is not installed — https://cli.github.com"@,
        seq!["copilot"@] + model_option(""@, model) + extra,
        seq![("COPILOT_PROVIDER_BASE_URL"@, SERVER_V1@)],
    )
}

/// gemini gets the address of the server under two names.
pub open spec fn gemini_plan(model: Seq<char>, extra: Seq<Seq<char>>) -> PlanModel {
    searched(
        "gemini"@,
        "gemini is not installed — npm install -g @google/gemini-cli"@,
        model_option(""@, model) + extra,
        seq![
            ("GOOGLE_GENAI_BASE_URL"@, SERVER_V1@),
            ("GEMINI_BASE_URL"@, SERVER_V1@),
            ("GEMINI_API_KEY"@, "llmman"@),
        ],
    )
}

/// Other programs find the server through the variable that Ollama uses.
pub open spec fn simple_plan(
    program: Seq<char>,
    hint: Seq<char>,
    extra: Seq<Seq<char>>,
) -> PlanModel {
    searched(
        program,
        program + " is not installed — "@ + hint,
        extra,
        seq![("OLLAMA_HOST"@, SERVER@)],
    )
}

/// How the integration with this name, in lower case, is launched, where it is
/// no client of the Anthropic API.
pub open spec fn builtin_plan(name: Seq<char>, model: Seq<char>, extra: Seq<Seq<char>>) -> Option<
    PlanModel,
> {
    if name == "opencode"@ {
        Some(opencode_plan(model, extra))
    } else if name == "codex"@ {
        Some(codex_plan(model, extra))
    } else if name == "cline"@ {
        Some(simple_plan("cline"@, "cline is not installed: npm install -g cline"@, extra))
    } else if name == "aider"@ {
        Some(aider_plan(model, extra))
    } else if name == "copilot"@ || name == "copilot-cli"@ {
        Some(copilot_plan(model, extra))
    } else if name == "kimi"@ {
        Some(simple_plan("kimi"@, "kimi is not installed: https://kimi.ai"@, extra))
    } else if name == "gemini"@ {
        Some(gemini_plan(model, extra))
    } else {
        None
    }
}

/// How the integration with this name, in lower case, is launched.
pub open spec fn plan_for(
    anthropic: IntegrationModel,
    name: Seq<char>,
    model: Seq<char>,
    extra: Seq<Seq<char>>,
) -> Option<PlanModel> {
    if name == text::lowered(anthropic.name) {
        Some(anthropic_plan(anthropic, model, extra))
    } else {
        builtin_plan(name, model, extra)
    }
}

fn add_model(args: &mut Vec<String>, prefix: &str, model: &str)
    ensures
        text::texts(final(args)@) == text::texts(old(args)@) + model_option(prefix@, model@),
{
    let ghost before = text::texts(args@);
    if !model.is_empty() {
        args.push("--model".to_string());
        args.push(text::concat2(prefix, model));
        assert(text::texts(args@) =~= before + seq!["--model"@, prefix@ + model@]);
    } else {
        assert(before =~= before + Seq::<Seq<char>>::empty());
    }
}

fn add_all(args: &mut Vec<String>, extra: &Vec<String>)
    ensures
        text::texts(final(args)@) == text::texts(old(args)@) + text::texts(extra@),
{
    let ghost before = text::texts(args@);
    let ghost all = text::texts(extra@);
    assert(text::texts(args@) =~= before + all.take(0));
    let mut i: usize = 0;
    while i < extra.len()
        invariant
            i <= extra.len(),
            all == text::texts(extra@),
            text::texts(args@) == before + all.take(i as int),
        decreases extra.len() - i,
    {
        let ghost so_far = text::texts(args@);
        args.push(extra[i].clone());
        assert(text::texts(args@) =~= so_far.push(all[i as int]));
        assert(before + all.take(i + 1) =~= (before + all.take(i as int)).push(all[i as int]));
        i += 1;
    }
    assert(all.take(i as int) =~= all);
}

fn one_variable(name: &str, value: &str) -> (r: Vec<(String, String)>)
    ensures
        variables(r@) == seq![(name@, value@)],
{
    let mut r: Vec<(String, String)> = Vec::new();
    r.push((name.to_string(), value.to_string()));
    assert(variables(r@) =~= seq![(name@, value@)]);
    r
}

fn two_variables(first: (&str, &str), second: (&str, &str)) -> (r: Vec<(String, String)>)
    ensures
        variables(r@) == seq![(first.0@, first.1@), (second.0@, second.1@)],
{
    let mut r: Vec<(String, String)> = one_variable(first.0, first.1);
    let ghost before = variables(r@);
    r.push((second.0.to_string(), second.1.to_string()));
    assert(variables(r@) =~= before.push((second.0@, second.1@)));
    assert(variables(r@) =~= seq![(first.0@, first.1@), (second.0@, second.1@)]);
    r
}

fn search(program: &str, missing: &str, args: Vec<String>, env: Vec<(String, String)>) -> (r:
    LaunchPlan)
    ensures
        r@ == searched(program@, missing@, text::texts(args@), variables(env@)),
{
    LaunchPlan {
        program: program.to_string(),
        missing: Some(missing.to_string()),
        fallback: None,
        codex_config: false,
        args,
        env,
    }
}

/// Launches the client of the Anthropic API.
pub fn launch_anthropic(client: &Integration, model: &str, extra_args: &Vec<String>) -> (r:
    LaunchPlan)
    ensures
        r@ == anthropic_plan(client@, model@, text::texts(extra_args@)),
{
    let mut args: Vec<String> = Vec::new();
    add_model(&mut args, "", model);
    add_all(&mut args, extra_args);
    let env: Vec<(String, String)> = two_variables(
        ("ANTHROPIC_BASE_URL", SERVER),
        ("ANTHROPIC_API_KEY", "llmman"),
    );
    let missing: String = text::concat3(
        client.name.as_str(),
        " is not installed — ",
        client.install_hint.as_str(),
    );
    let r: LaunchPlan = search(client.binary.as_str(), missing.as_str(), args, env);
    assert(r@ =~= anthropic_plan(client@, model@, text::texts(extra_args@)));
    r
}

/// The configuration of opencode for a model.
pub fn opencode_config(model: &str) -> (r: String)
    ensures
        r@ == json::rendered(opencode_doc(model@)),
{
    let named: Value = ObjectBuilder::new().with_text("name", model).build();
    let models: Value = ObjectBuilder::new().with(model, named).build();
    let options: Value = ObjectBuilder::new().with_text("baseURL", SERVER_V1).build();
    let ollama: Value = ObjectBuilder::new().with_text("npm", "@ai-sdk/openai-compatible").with_text(
        "name",
        "Ollama",
    ).with("options", options).with("models", models).build();
    let provider: Value = ObjectBuilder::new().with("ollama", ollama).build();
    let config: Value = ObjectBuilder::new().with_text(
        "$schema",
        "https://opencode.ai/config.json",
    ).with("provider", provider).with_text(
        "model",
        text::concat2("ollama/", model).as_str(),
    ).build();
    json::render(&config)
}

/// Launches opencode.
pub fn launch_opencode(model: &str, extra_args: &Vec<String>) -> (r: LaunchPlan)
    ensures
        r@ == opencode_plan(model@, text::texts(extra_args@)),
{
    let used: &str = if model.is_empty() {
        "default"
    } else {
        model
    };
    let config: String = opencode_config(used);
    let mut args: Vec<String> = Vec::new();
    add_all(&mut args, extra_args);
    let mut r: LaunchPlan = search(
        "opencode",
        "opencode is not installed — https://opencode.ai",
        args,
        one_variable("OPENCODE_CONFIG_CONTENT", config.as_str()),
    );
    r.fallback = Some(".opencode/bin/opencode".to_string());
    assert(r@ =~= opencode_plan(model@, text::texts(extra_args@)));
    r
}

/// Launches codex.
pub fn launch_codex(model: &str, extra_args: &Vec<String>) -> (r: LaunchPlan)
    ensures
        r@ == codex_plan(model@, text::texts(extra_args@)),
{
    let mut args: Vec<String> = Vec::new();
    add_model(&mut args, "", model);
    let ghost before = text::texts(args@);
    args.push("--profile".to_string());
    args.push("llmman".to_string());
    assert(text::texts(args@) =~= before + seq!["--profile"@, "llmman"@]);
    add_all(&mut args, extra_args);
    let r = LaunchPlan {
        program: "codex".to_string(),
        missing: None,
        fallback: None,
        codex_config: true,
        args,
        env: one_variable("OPENAI_API_KEY", "llmman"),
    };
    assert(r@ =~= codex_plan(model@, text::texts(extra_args@)));
    r
}

/// Launches aider against the OpenAI-compatible API.
pub fn launch_aider(model: &str, extra_args: &Vec<String>) -> (r: LaunchPlan)
    ensures
        r@ == aider_plan(model@, text::texts(extra_args@)),
{
    let mut args: Vec<String> = Vec::new();
    add_model(&mut args, "openai/", model);
    let ghost before = text::texts(args@);
    args.push("--openai-api-base".to_string());
    args.push(SERVER_V1.to_string());
    assert(text::texts(args@) =~= before + seq!["--openai-api-base"@, SERVER_V1@]);
    add_all(&mut args, extra_args);
    let r = LaunchPlan {
        program: "aider".to_string(),
        missing: None,
        fallback: None,
        codex_config: false,
        args,
        env: two_variables(("OPENAI_API_KEY", "llmman"), ("OPENAI_BASE_URL", SERVER_V1)),
    };
    assert(r@ =~= aider_plan(model@, text::texts(extra_args@)));
    r
}

/// Launches copilot.
pub fn launch_copilot(model: &str, extra_args: &Vec<String>) -> (r: LaunchPlan)
    ensures
        r@ == copilot_plan(model@, text::texts(extra_args@)),
{
    let mut args: Vec<String> = Vec::new();
    args.push("copilot".to_string());
    assert(text::texts(args@) =~= seq!["copilot"@]);
    add_model(&mut args, "", model);
    add_all(&mut args, extra_args);
    search(
        "gh",
        "gh (GitHub CLI) is not installed — https://cli.github.com",
        args,
        one_variable("COPILOT_PROVIDER_BASE_URL", SERVER_V1),
    )
}

/// Launches gemini.
pub fn launch_gemini(model: &str, extra_args: &Vec<String>) -> (r: LaunchPlan)
    ensures
        r@ == gemini_plan(model@, text::texts(extra_args@)),
{
    let mut args: Vec<String> = Vec::new();
    add_model(&mut args, "", model);
    add_all(&mut args, extra_args);
    let mut env: Vec<(String, String)> = two_variables(
        ("GOOGLE_GENAI_BASE_URL", SERVER_V1),
        ("GEMINI_BASE_URL", SERVER_V1),
    );
    let ghost before = variables(env@);
    env.push(("GEMINI_API_KEY".to_string(), "llmman".to_string()));
    assert(variables(env@) =~= before.push(("GEMINI_API_KEY"@, "llmman"@)));
    let r: LaunchPlan = search(
        "gemini",
        "gemini is not installed — npm install -g @google/gemini-cli",
        args,
        env,
    );
    assert(r@ =~= gemini_plan(model@, text::texts(extra_args@)));
    r
}

/// Launches a program that needs nothing but the address of the server.
pub fn launch_simple(binary: &str, install_hint: &str, extra_args: &Vec<String>) -> (r: LaunchPlan)
    ensures
        r@ == simple_plan(binary@, install_hint@, text::texts(extra_args@)),
{
    let mut args: Vec<String> = Vec::new();
    add_all(&mut args, extra_args);
    assert(text::texts(args@) =~= text::texts(extra_args@));
    search(
        binary,
        text::concat3(binary, " is not installed — ", install_hint).as_str(),
        args,
        one_variable("OLLAMA_HOST", SERVER),
    )
}

fn launch_builtin(name: &str, model: &str, extra_args: &Vec<String>) -> (r: Option<LaunchPlan>)
    ensures
        match builtin_plan(name@, model@, text::texts(extra_args@)) {
            Some(p) => r matches Some(l) && l@ == p,
            None => r is None,
        },
{
    if text::same(name, "opencode") {
        Some(launch_opencode(model, extra_args))
    } else if text::same(name, "codex") {
        Some(launch_codex(model, extra_args))
    } else if text::same(name, "cline") {
        Some(launch_simple("cline", "cline is not installed: npm install -g cline", extra_args))
    } else if text::same(name, "aider") {
        Some(launch_aider(model, extra_args))
    } else if text::same(name, "copilot") || text::same(name, "copilot-cli") {
        Some(launch_copilot(model, extra_args))
    } else if text::same(name, "kimi") {
        Some(launch_simple("kimi", "kimi is not installed: https://kimi.ai", extra_args))
    } else if text::same(name, "gemini") {
        Some(launch_gemini(model, extra_args))
    } else {
        None
    }
}

/// How the integration with this name, in lower case, is launched.
pub fn launch_known(
    anthropic: &Integration,
    name: &str,
    model: &str,
    extra_args: &Vec<String>,
) -> (r: Option<LaunchPlan>)
    ensures
        match plan_for(
            anthropic@,
            name@,
            model@,
            text::texts(extra_args@),
        ) {
            Some(p) => r matches Some(l) && l@ == p,
            None => r is None,
        },
{
    let client: String = text::to_lowercase(anthropic.name.as_str());
    if text::same(name, client.as_str()) {
        Some(launch_anthropic(anthropic, model, extra_args))
    } else {
        launch_builtin(name, model, extra_args)
    }
}

/// Says that there is no such integration.
pub open spec fn unknown(name: Seq<char>) -> Seq<char> {
    "unknown integration "@ + text::quoted(name)
        + "\nRun 'llmman launch' without arguments to list supported integrations."@
}

/// How an integration is launched; its name may be written in any case.
pub fn launch(
    anthropic: &Integration,
    name: &str,
    model: &str,
    extra_args: &Vec<String>,
) -> (r: Result<LaunchPlan, String>)
    ensures
        match plan_for(
            anthropic@,
            text::lowered(name@),
            model@,
            text::texts(extra_args@),
        ) {
            Some(p) => r matches Ok(l) && l@ == p,
            None => r matches Err(e) && e@ == unknown(text::lowered(name@)),
        },
{
    let low: String = text::to_lowercase(name);
    match launch_known(anthropic, low.as_str(), model, extra_args) {
        Some(p) => Ok(p),
        None => Err(
            text::concat3(
                "unknown integration ",
                text::quote(low.as_str()).as_str(),
                "\nRun 'llmman launch' without arguments to list supported integrations.",
            ),
        ),
    }
}

// ---------------------------------------------------------------------------
// Environment and configuration
// ---------------------------------------------------------------------------

/// The variables of `vars`, with those of `extra` put over them in turn.
pub open spec fn overlaid(
    vars: Map<Seq<char>, Seq<char>>,
    extra: Seq<(Seq<char>, Seq<char>)>,
) -> Map<Seq<char>, Seq<char>>
    decreases extra.len(),
{
    if extra.len() == 0 {
        vars
    } else {
        overlaid(vars, extra.drop_last()).insert(extra.last().0, extra.last().1)
    }
}

/// The environment of an integration: the current one, with the address of the
/// server and the variables of the integration put over it.
pub fn exec_with_env(vars: StringMap, extra_env: &Vec<(String, String)>) -> (r: StringMap)
    ensures
        r@ == overlaid(vars@.insert("OLLAMA_HOST"@, SERVER@), variables(extra_env@)),
{
    let mut r: StringMap = vars;
    r.insert("OLLAMA_HOST".to_string(), SERVER.to_string());
    let ghost base = r@;
    let ghost all = variables(extra_env@);
    assert(overlaid(base, all.take(0)) == base);
    let mut i: usize = 0;
    while i < extra_env.len()
        invariant
            i <= extra_env.len(),
            all == variables(extra_env@),
            r@ == overlaid(base, all.take(i as int)),
        decreases extra_env.len() - i,
    {
        assert(all.take(i + 1).drop_last() =~= all.take(i as int));
        r.insert(extra_env[i].0.clone(), extra_env[i].1.clone());
        i += 1;
    }
    assert(all.take(i as int) =~= all);
    r
}

/// The configuration of codex with the profile in it.
pub open spec fn with_profile(existing: Seq<char>) -> Seq<char> {
    if text::has_part(existing, CODEX_PROFILE@) {
        existing
    } else {
        existing + CODEX_ENTRY@
    }
}

/// What to write as the configuration of codex, unless the profile is there
/// already.
pub fn write_codex_config(existing: &str) -> (r: Option<String>)
    ensures
        match r {
            Some(c) => !text::has_part(existing@, CODEX_PROFILE@) && c@ == with_profile(existing@),
            None => text::has_part(existing@, CODEX_PROFILE@),
        },
{
    if text::contains(existing, CODEX_PROFILE) {
        None
    } else {
        Some(text::concat2(existing, CODEX_ENTRY))
    }
}

// ---------------------------------------------------------------------------
// Laws
// ---------------------------------------------------------------------------

/// The profile is added to the configuration of codex once, and what stood
/// there stays.
pub proof fn profile_is_added_once(existing: Seq<char>)
    ensures
        text::has_part(with_profile(existing), CODEX_PROFILE@),
        with_profile(with_profile(existing)) == with_profile(existing),
        existing.is_prefix_of(with_profile(existing)),
{
    if !text::has_part(existing, CODEX_PROFILE@) {
        reveal_strlit("[profiles.llmman]");
        reveal_strlit("\n[profiles.llmman]\nopenai_base_url = \"http://127.0.0.1:17434/v1\"\n");
        let whole = existing + CODEX_ENTRY@;
        let at: int = existing.len() as int + 1;
        assert(whole.subrange(at, at + CODEX_PROFILE@.len() as int) =~= CODEX_PROFILE@);
        assert(text::part_at(whole, CODEX_PROFILE@, at));
    }
}

/// An integration finds the address of the server in its environment, unless a
/// variable of its own says otherwise, and keeps the variables that nothing is
/// put over.
pub proof fn environment_is_kept(
    vars: Map<Seq<char>, Seq<char>>,
    extra: Seq<(Seq<char>, Seq<char>)>,
    name: Seq<char>,
)
    requires
        forall|i: int| 0 <= i < extra.len() ==> (#[trigger] extra[i]).0 != name,
    ensures
        name == "OLLAMA_HOST"@ ==> overlaid(
            vars.insert("OLLAMA_HOST"@, SERVER@),
            extra,
        )[name] == SERVER@,
        name != "OLLAMA_HOST"@ ==> {
            let env = overlaid(vars.insert("OLLAMA_HOST"@, SERVER@), extra);
            env.contains_key(name) == vars.contains_key(name) && (vars.contains_key(name)
                ==> env[name] == vars[name])
        },
    decreases extra.len(),
{
    if extra.len() > 0 {
        assert forall|i: int| 0 <= i < extra.drop_last().len() implies (
        #[trigger] extra.drop_last()[i]).0 != name by {
            assert(extra.drop_last()[i] == extra[i]);
        }
        environment_is_kept(vars, extra.drop_last(), name);
        assert(extra[extra.len() - 1].0 != name);
    }
}

/// Every integration in the list can be launched by its name in the list.
pub proof fn listed_integrations_can_be_launched(
    anthropic: IntegrationModel,
    i: int,
    model: Seq<char>,
    extra: Seq<Seq<char>>,
)
    requires
        0 <= i < all_integrations(anthropic).len(),
    ensures
        plan_for(
            anthropic,
            text::lowered(all_integrations(anthropic)[i].name),
            model,
            extra,
        ) is Some,
{
    if i > 0 {
        reveal_strlit("opencode");
        reveal_strlit("codex");
        reveal_strlit("cline");
        reveal_strlit("aider");
        reveal_strlit("copilot");
        reveal_strlit("kimi");
        reveal_strlit("gemini");
        assert(all_integrations(anthropic)[i] == builtin()[i - 1]);
        let name = builtin()[i - 1].name;
        assert forall|j: int| 0 <= j < name.len() implies 'a' <= #[trigger] name[j] <= 'z' by {
            assert(1 <= i <= 7);
        }
        assert(text::lowered(name) =~= name);
    }
}

/// The list has a line for every integration, the client of the Anthropic API first:
/// its name and its description, and how to install it where it was not found.
pub proof fn every_integration_is_listed(
    anthropic: IntegrationModel,
    installed: Seq<bool>,
    i: int,
)
    requires
        0 <= i < 8,
        installed.len() == 8,
    ensures
        all_integrations(anthropic).len() == 8,
        all_integrations(anthropic)[0] == anthropic,
        listing(anthropic, installed).len() == 10,
        listing(anthropic, installed)[0] == "Available integrations:\n"@,
        listing(anthropic, installed)[9]
            == "\nUsage: llmman launch <integration> [--model <model>]"@,
        ({
            let one = all_integrations(anthropic)[i];
            let line = listing(anthropic, installed)[i + 1];
            let start = "  "@ + text::padded(one.name, 12) + " "@ + one.description;
            &&& installed[i] ==> line == start
            &&& !installed[i] ==> line == start + " (not installed — "@ + one.install_hint + ")"@
        }),
{
}

/// The integrations that are known besides the client of the Anthropic API.
pub proof fn known_integrations()
    ensures
        builtin().len() == 7,
        builtin()[0].name == "opencode"@ && builtin()[0].binary == "opencode"@,
        builtin()[1].name == "codex"@ && builtin()[1].binary == "codex"@,
        builtin()[2].name == "cline"@ && builtin()[2].binary == "cline"@,
        builtin()[3].name == "aider"@ && builtin()[3].binary == "aider"@,
        builtin()[4].name == "copilot"@ && builtin()[4].binary == "gh"@,
        builtin()[5].name == "kimi"@ && builtin()[5].binary == "kimi"@,
        builtin()[6].name == "gemini"@ && builtin()[6].binary == "gemini"@,
        builtin()[0].install_hint == "https://opencode.ai"@,
        builtin()[1].install_hint == "npm install -g @openai/codex"@,
        builtin()[2].install_hint == "npm install -g cline"@,
        builtin()[3].install_hint == "pip install aider-install && aider-install"@,
        builtin()[5].install_hint == "https://kimi.ai"@,
        builtin()[6].install_hint == "npm install -g @google/gemini-cli"@,
{
}

/// What a list of integrations is known by is what each of them is known by, in
/// their order.
pub proof fn every_integration_is_known(v: Seq<Integration>)
    ensures
        integration_models(v).len() == v.len(),
        forall|i: int|
            0 <= i < v.len() ==> (#[trigger] integration_models(v)[i]).name == v[i].name@
                && integration_models(v)[i].binary == v[i].binary@,
{
}

proof fn lemma_suffix(start: Seq<Seq<char>>, extra: Seq<Seq<char>>)
    ensures
        extra.is_suffix_of(start + extra),
{
    let all = start + extra;
    assert(all.subrange(all.len() - extra.len(), all.len() as int) =~= extra);
}

/// The further arguments reach every integration, all of them, behind its own.
pub proof fn further_arguments_are_passed_on(
    anthropic: IntegrationModel,
    name: Seq<char>,
    model: Seq<char>,
    extra: Seq<Seq<char>>,
)
    ensures
        plan_for(anthropic, name, model, extra) matches Some(p) ==> extra.is_suffix_of(p.args),
{
    lemma_suffix(Seq::<Seq<char>>::empty(), extra);
    assert(Seq::<Seq<char>>::empty() + extra =~= extra);
    lemma_suffix(model_option(""@, model), extra);
    lemma_suffix(model_option(""@, model) + seq!["--profile"@, "llmman"@], extra);
    lemma_suffix(
        model_option("openai/"@, model) + seq!["--openai-api-base"@, SERVER_V1@],
        extra,
    );
    lemma_suffix(seq!["copilot"@] + model_option(""@, model), extra);
}

/// The integrations that take a model get the one that was asked for, as it stands.
pub proof fn model_is_passed_on(
    anthropic: IntegrationModel,
    model: Seq<char>,
    extra: Seq<Seq<char>>,
)
    requires
        model.len() > 0,
    ensures
        anthropic_plan(anthropic, model, extra).args == seq!["--model"@, model] + extra,
        codex_plan(model, extra).args == seq!["--model"@, model, "--profile"@, "llmman"@] + extra,
        aider_plan(model, extra).args == seq![
            "--model"@,
            "openai/"@ + model,
            "--openai-api-base"@,
            "http://127.0.0.1:17434/v1"@,
        ] + extra,
        copilot_plan(model, extra).args == seq!["copilot"@, "--model"@, model] + extra,
        gemini_plan(model, extra).args == seq!["--model"@, model] + extra,
        opencode_plan(model, extra).env == seq![
            ("OPENCODE_CONFIG_CONTENT"@, json::rendered(opencode_doc(model))),
        ],
        opencode_plan(model, extra).args == extra,
{
    reveal_strlit("");
    assert(""@ + model =~= model);
    assert(anthropic_plan(anthropic, model, extra).args =~= seq!["--model"@, model] + extra);
    assert(codex_plan(model, extra).args =~= seq!["--model"@, model, "--profile"@, "llmman"@]
        + extra);
    assert(aider_plan(model, extra).args =~= seq![
        "--model"@,
        "openai/"@ + model,
        "--openai-api-base"@,
        "http://127.0.0.1:17434/v1"@,
    ] + extra);
    assert(copilot_plan(model, extra).args =~= seq!["copilot"@, "--model"@, model] + extra);
    assert(gemini_plan(model, extra).args =~= seq!["--model"@, model] + extra);
}

/// Without a model no integration is told one.
pub proof fn no_model_is_passed_on(anthropic: IntegrationModel, extra: Seq<Seq<char>>)
    ensures
        ({
            let none = Seq::<char>::empty();
            &&& anthropic_plan(anthropic, none, extra).args == extra
            &&& codex_plan(none, extra).args == seq!["--profile"@, "llmman"@] + extra
            &&& aider_plan(none, extra).args == seq![
                "--openai-api-base"@,
                "http://127.0.0.1:17434/v1"@,
            ] + extra
            &&& copilot_plan(none, extra).args == seq!["copilot"@] + extra
            &&& gemini_plan(none, extra).args == extra
            &&& opencode_plan(none, extra).env == seq![
                ("OPENCODE_CONFIG_CONTENT"@, json::rendered(opencode_doc("default"@))),
            ]
        }),
{
    let none = Seq::<char>::empty();
    assert(anthropic_plan(anthropic, none, extra).args =~= extra);
    assert(codex_plan(none, extra).args =~= seq!["--profile"@, "llmman"@] + extra);
    assert(aider_plan(none, extra).args =~= seq![
        "--openai-api-base"@,
        "http://127.0.0.1:17434/v1"@,
    ] + extra);
    assert(copilot_plan(none, extra).args =~= seq!["copilot"@] + extra);
    assert(gemini_plan(none, extra).args =~= extra);
}

/// Every integration is pointed to the local server, by the variables that it reads.
pub proof fn integrations_find_the_server(
    anthropic: IntegrationModel,
    model: Seq<char>,
    extra: Seq<Seq<char>>,
    program: Seq<char>,
    hint: Seq<char>,
)
    ensures
        anthropic_plan(anthropic, model, extra).env == seq![
            ("ANTHROPIC_BASE_URL"@, "http://127.0.0.1:17434"@),
            ("ANTHROPIC_API_KEY"@, "llmman"@),
        ],
        codex_plan(model, extra).env == seq![("OPENAI_API_KEY"@, "llmman"@)],
        codex_plan(model, extra).codex_config,
        aider_plan(model, extra).env == seq![
            ("OPENAI_API_KEY"@, "llmman"@),
            ("OPENAI_BASE_URL"@, "http://127.0.0.1:17434/v1"@),
        ],
        copilot_plan(model, extra).env == seq![
            ("COPILOT_PROVIDER_BASE_URL"@, "http://127.0.0.1:17434/v1"@),
        ],
        gemini_plan(model, extra).env == seq![
            ("GOOGLE_GENAI_BASE_URL"@, "http://127.0.0.1:17434/v1"@),
            ("GEMINI_BASE_URL"@, "http://127.0.0.1:17434/v1"@),
            ("GEMINI_API_KEY"@, "llmman"@),
        ],
        simple_plan(program, hint, extra).env == seq![("OLLAMA_HOST"@, "http://127.0.0.1:17434"@)],
        simple_plan(program, hint, extra).args == extra,
{
}

/// Every integration runs its own program, and an error says how to install one that
/// is looked for in vain.
pub proof fn integrations_run_their_programs(
    anthropic: IntegrationModel,
    model: Seq<char>,
    extra: Seq<Seq<char>>,
    program: Seq<char>,
    hint: Seq<char>,
)
    ensures
        anthropic_plan(anthropic, model, extra).program == anthropic.binary,
        anthropic_plan(anthropic, model, extra).missing == Some(
            anthropic.name + " is not installed — "@ + anthropic.install_hint,
        ),
        opencode_plan(model, extra).program == "opencode"@,
        opencode_plan(model, extra).missing == Some(
            "opencode is not installed — https://opencode.ai"@,
        ),
        opencode_plan(model, extra).fallback == Some(".opencode/bin/opencode"@),
        codex_plan(model, extra).program == "codex"@ && codex_plan(model, extra).missing is None,
        aider_plan(model, extra).program == "aider"@ && aider_plan(model, extra).missing is None,
        copilot_plan(model, extra).program == "gh"@,
        copilot_plan(model, extra).missing == Some(
            "gh (GitHub CLI) is not installed — https://cli.github.com"@,
        ),
        gemini_plan(model, extra).program == "gemini"@,
        gemini_plan(model, extra).missing == Some(
            "gemini is not installed — npm install -g @google/gemini-cli"@,
        ),
        simple_plan(program, hint, extra).program == program,
        simple_plan(program, hint, extra).missing == Some(
            program + " is not installed — "@ + hint,
        ),
{
}

/// Each name leads to the integration that has it, and names that none has lead to
/// none.
pub proof fn names_lead_to_their_integration(
    anthropic: IntegrationModel,
    name: Seq<char>,
    model: Seq<char>,
    extra: Seq<Seq<char>>,
)
    requires
        name != text::lowered(anthropic.name),
    ensures
        plan_for(anthropic, text::lowered(anthropic.name), model, extra) == Some(
            anthropic_plan(anthropic, model, extra),
        ),
        name == "opencode"@ ==> plan_for(anthropic, name, model, extra) == Some(
            opencode_plan(model, extra),
        ),
        name == "codex"@ ==> plan_for(anthropic, name, model, extra) == Some(
            codex_plan(model, extra),
        ),
        name == "cline"@ ==> plan_for(anthropic, name, model, extra) == Some(
            simple_plan("cline"@, "cline is not installed: npm install -g cline"@, extra),
        ),
        name == "aider"@ ==> plan_for(anthropic, name, model, extra) == Some(
            aider_plan(model, extra),
        ),
        name == "copilot"@ || name == "copilot-cli"@ ==> plan_for(anthropic, name, model, extra)
            == Some(copilot_plan(model, extra)),
        name == "kimi"@ ==> plan_for(anthropic, name, model, extra) == Some(
            simple_plan("kimi"@, "kimi is not installed: https://kimi.ai"@, extra),
        ),
        name == "gemini"@ ==> plan_for(anthropic, name, model, extra) == Some(
            gemini_plan(model, extra),
        ),
        name != "opencode"@ && name != "codex"@ && name != "cline"@ && name != "aider"@ && name
            != "copilot"@ && name != "copilot-cli"@ && name != "kimi"@ && name != "gemini"@
            ==> plan_for(anthropic, name, model, extra) is None,
{
    reveal_strlit("opencode");
    reveal_strlit("codex");
    reveal_strlit("cline");
    reveal_strlit("aider");
    reveal_strlit("copilot");
    reveal_strlit("copilot-cli");
    reveal_strlit("kimi");
    reveal_strlit("gemini");
    assert("opencode"@.len() == 8 && "codex"@.len() == 5 && "cline"@.len() == 5 && "aider"@.len()
        == 5 && "copilot"@.len() == 7 && "copilot-cli"@.len() == 11 && "kimi"@.len() == 4
        && "gemini"@.len() == 6);
    assert("codex"@[0] == 'c' && "codex"@[1] == 'o' && "cline"@[1] == 'l' && "aider"@[0] == 'a');
}

/// An unknown name is named in the error.
pub proof fn unknown_names_are_named(name: Seq<char>)
    ensures
        unknown(name) == "unknown integration "@ + text::quoted(name)
            + "\nRun 'llmman launch' without arguments to list supported integrations."@,
{
}

/// The configuration of opencode names the local server and the model.
pub proof fn opencode_is_configured(model: Seq<char>)
    ensures
        opencode_doc(model) == Doc::Object(
            map![
                "$schema"@ => Doc::Text("https://opencode.ai/config.json"@),
                "provider"@ => Doc::Object(map![
                    "ollama"@ => Doc::Object(map![
                        "npm"@ => Doc::Text("@ai-sdk/openai-compatible"@),
                        "name"@ => Doc::Text("Ollama"@),
                        "options"@ => Doc::Object(map![
                            "baseURL"@ => Doc::Text("http://127.0.0.1:17434/v1"@),
                        ]),
                        "models"@ => Doc::Object(map![
                            model => Doc::Object(map!["name"@ => Doc::Text(model)]),
                        ]),
                    ]),
                ]),
                "model"@ => Doc::Text("ollama/"@ + model),
            ],
        ),
{
}

/// Of two values for a variable the later one counts, and every variable of an
/// integration reaches it.
pub proof fn own_variables_are_set(
    vars: Map<Seq<char>, Seq<char>>,
    extra: Seq<(Seq<char>, Seq<char>)>,
    i: int,
)
    requires
        0 <= i < extra.len(),
        forall|j: int| i < j < extra.len() ==> (#[trigger] extra[j]).0 != extra[i].0,
    ensures
        overlaid(vars, extra).contains_key(extra[i].0),
        overlaid(vars, extra)[extra[i].0] == extra[i].1,
    decreases extra.len(),
{
    let d = extra.drop_last();
    if i < extra.len() - 1 {
        assert(extra[extra.len() - 1].0 != extra[i].0);
        assert forall|j: int| i < j < d.len() implies (#[trigger] d[j]).0 != d[i].0 by {
            assert(d[j] == extra[j]);
        }
        own_variables_are_set(vars, d, i);
    }
}

/// The variables of an integration are those that were given, in their order.
pub proof fn every_variable_is_kept(v: Seq<(String, String)>)
    ensures
        variables(v).len() == v.len(),
        forall|i: int| 0 <= i < v.len() ==> #[trigger] variables(v)[i] == (v[i].0@, v[i].1@),
{
}

/// A program is looked for under its name, with `.exe` behind it on Windows.
pub proof fn programs_go_by_their_name(binary: Seq<char>)
    ensures
        program_file(binary, false) == binary,
        program_file(binary, true) == binary + ".exe"@,
{
}

/// A configuration without the profile gets it, in a table of its own behind what
/// stood there.
pub proof fn profile_names_the_server(existing: Seq<char>)
    ensures
        !text::has_part(existing, "[profiles.llmman]"@) ==> with_profile(existing) == existing
            + "\n[profiles.llmman]\nopenai_base_url = \"http://127.0.0.1:17434/v1\"\n"@,
        text::has_part(existing, "[profiles.llmman]"@) ==> with_profile(existing) == existing,
{
}

/// What is known of an integration and of a plan is what their fields hold.
pub proof fn plans_say_their_fields(i: Integration, p: LaunchPlan)
    ensures
        i@.name == i.name@,
        i@.description == i.description@,
        i@.binary == i.binary@,
        i@.install_hint == i.install_hint@,
        p@.program == p.program@,
        p.missing matches Some(w) ==> p@.missing == Some(w@),
        p.missing is None ==> p@.missing is None,
        p.fallback matches Some(w) ==> p@.fallback == Some(w@),
        p.fallback is None ==> p@.fallback is None,
        p@.codex_config == p.codex_config,
        p@.args.len() == p.args@.len(),
        forall|k: int| 0 <= k < p.args@.len() ==> #[trigger] p@.args[k] == p.args@[k]@,
        p@.env.len() == p.env@.len(),
        forall|k: int|
            0 <= k < p.env@.len() ==> #[trigger] p@.env[k] == (p.env@[k].0@, p.env@[k].1@),
{
}

} // verus!
