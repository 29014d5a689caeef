//! `llmman push`: sends a local image to a registry.

use vstd::prelude::*;
use crate::shortnames;
use crate::storage::oci;
use crate::storage::oci::{OciStore, StoreError};
use crate::string_map::StringMap;
use crate::text;

verus! {

/// Arguments of the command.
#[derive(Debug)]
pub struct PushArgs {
    /// Reference of the image.
    pub reference: String,
    /// Directory of the store, in place of the default.
    pub store: Option<String>,
}

/// An image to send, and what is said when it is sent.
#[derive(Debug)]
pub struct PushPlan {
    pub reference: String,
    pub done: String,
}

/// What to send.  The image has to be in the store.
pub fn run(store: &OciStore, args: &PushArgs, aliases: &StringMap) -> (r: Result<
    PushPlan,
    StoreError,
>)
    ensures
        ({
            let reference = shortnames::resolved(aliases@, args.reference@);
            if oci::lookup(store@.index.manifests, reference) is Some {
                r matches Ok(p) && p.reference@ == reference && p.done@ == "Pushed "@ + reference
            } else {
                r matches Err(StoreError::NotFound(n)) && n@ == reference
            }
        }),
{
    let reference: String = shortnames::resolve(args.reference.as_str(), aliases);
    match store.find(reference.as_str()) {
        Ok(_) => {
            let done: String = text::concat2("Pushed ", reference.as_str());
            Ok(PushPlan { reference, done })
        },
        Err(e) => Err(e),
    }
}

} // verus!
