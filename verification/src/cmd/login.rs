//! `llmman login`: logs in to a registry.

use vstd::prelude::*;
use crate::text;

verus! {

/// Arguments of the command.
#[derive(Debug)]
pub struct LoginArgs {
    /// Registry.
    pub server: String,
    /// Name of the user.
    pub username: String,
    /// Password; without one it is read from the standard input.
    pub password: Option<String>,
}

/// Where the password comes from.
#[derive(Debug)]
pub enum PasswordSource {
    /// It was given.
    Given(String),
    /// It is the next line of the standard input, asked for with this prompt.
    Ask(String),
}

/// Decides where the password comes from.
pub fn run(args: &LoginArgs) -> (r: PasswordSource)
    ensures
        match args.password {
            Some(p) => r matches PasswordSource::Given(q) && q@ == p@,
            None => r matches PasswordSource::Ask(q) && q@ == "Password: "@,
        },
{
    match &args.password {
        Some(p) => PasswordSource::Given(p.clone()),
        None => PasswordSource::Ask("Password: ".to_string()),
    }
}

/// The password in a line of input: the line without its end.
pub fn read_password_stdin(line: &str) -> (r: String)
    ensures
        r@ == text::without_line_end(line@),
{
    text::trim_line_end(line).to_string()
}

/// Says that the registry accepted the login.
pub fn succeeded(args: &LoginArgs) -> (r: String)
    ensures
        r@ == "Login succeeded for "@ + args.server@,
{
    text::concat2("Login succeeded for ", args.server.as_str())
}

} // verus!
