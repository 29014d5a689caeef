//! `llmman tag`: a further reference for a local image.

use vstd::prelude::*;
use crate::shortnames;
use crate::storage::oci;
use crate::storage::oci::{Descriptor, OciStore, StoreError};
use crate::string_map::StringMap;
use crate::text;

verus! {

/// Arguments of the command.
#[derive(Debug)]
pub struct TagArgs {
    /// Reference of an image in the store.
    pub source: String,
    /// The further reference.
    pub target: String,
    /// Directory of the store, in place of the default.
    pub store: Option<String>,
}

/// Stores the image `source` under `target` too, and says so.
pub fn run(store: &mut OciStore, args: &TagArgs, aliases: &StringMap) -> (r: Result<
    String,
    StoreError,
>)
    ensures
        final(store)@.root == old(store)@.root,
        ({
            let source = shortnames::resolved(aliases@, args.source@);
            let ms = old(store)@.index.manifests;
            match oci::lookup(ms, source) {
                Some(d) => {
                    &&& r matches Ok(s) && s@ == "Tagged "@ + source + " as "@ + args.target@
                    &&& final(store)@.index == (oci::IndexModel {
                        manifests: oci::tagged(ms, d, args.target@),
                        ..old(store)@.index
                    })
                },
                None => {
                    &&& r matches Err(StoreError::NotFound(n)) && n@ == source
                    &&& final(store)@ == old(store)@
                },
            }
        }),
{
    let source: String = shortnames::resolve(args.source.as_str(), aliases);
    let desc: Descriptor = match store.find(source.as_str()) {
        Ok(d) => d,
        Err(e) => {
            return Err(e);
        },
    };
    store.tag(desc, args.target.as_str());
    let mut s: String = text::concat3("Tagged ", source.as_str(), " as ");
    s.append(args.target.as_str());
    Ok(s)
}

} // verus!
