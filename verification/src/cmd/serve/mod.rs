//! `llmman serve`: the logic behind the Ollama, OpenAI and Anthropic APIs.

pub mod api;
pub mod chunks;
pub mod lines;
pub mod manager;
pub mod model;

use vstd::prelude::*;
use crate::shortnames;
use crate::string_map::StringMap;
use crate::text;

verus! {

/// Where the server listens.
pub const ADDRESS: &'static str = "127.0.0.1:17434";

/// Arguments of the command.
#[derive(Debug)]
pub struct ServeArgs {
    /// Model to load at the start.
    pub model: Option<String>,
}

/// The model to load at the start, where there is one.
pub fn run(args: &ServeArgs, aliases: &StringMap) -> (r: Option<String>)
    ensures
        text::opt_text(r) == (match args.model {
            Some(m) => Some(shortnames::resolved(aliases@, m@)),
            None => None,
        }),
{
    match &args.model {
        Some(m) => Some(shortnames::resolve(m.as_str(), aliases)),
        None => None,
    }
}

} // verus!
