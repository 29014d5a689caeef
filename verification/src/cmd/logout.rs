//! `llmman logout`: logs out from a registry.

use vstd::prelude::*;
use crate::text;

verus! {

/// Arguments of the command.
#[derive(Debug)]
pub struct LogoutArgs {
    /// Registry.
    pub server: String,
}

/// Says that the registry is logged out of.
pub fn run(args: &LogoutArgs) -> (r: String)
    ensures
        r@ == "Logged out of "@ + args.server@,
{
    text::concat2("Logged out of ", args.server.as_str())
}

} // verus!
