//! `llmman pull`: fetches an image from a registry.

use vstd::prelude::*;
use crate::shortnames;
use crate::string_map::StringMap;
use crate::text;

verus! {

/// Arguments of the command.
#[derive(Debug)]
pub struct PullArgs {
    /// Reference of the image.
    pub reference: String,
    /// Directory of the store, in place of the default.
    pub store: Option<String>,
}

/// An image to fetch, and what is said when it is there.
#[derive(Debug)]
pub struct PullPlan {
    pub reference: String,
    pub done: String,
}

/// What to fetch: short names stand for full references.
pub fn run(args: &PullArgs, aliases: &StringMap) -> (r: PullPlan)
    ensures
        r.reference@ == shortnames::resolved(aliases@, args.reference@),
        r.done@ == "Pulled "@ + args.reference@,
{
    PullPlan {
        reference: shortnames::resolve(args.reference.as_str(), aliases),
        done: text::concat2("Pulled ", args.reference.as_str()),
    }
}

} // verus!
