//! `llmman inspect`: shows the manifest of an image.

use vstd::prelude::*;
use crate::shortnames;
use crate::storage::oci;
use crate::storage::oci::{Descriptor, OciStore, StoreError};
use crate::string_map::StringMap;

verus! {

/// Arguments of the command.
#[derive(Debug)]
pub struct InspectArgs {
    /// Reference of the image.
    pub reference: String,
    /// Whether the registry is asked instead of the store.
    pub remote: bool,
    /// Directory of the store, in place of the default.
    pub store: Option<String>,
}

/// Where the image is looked up.
#[derive(Debug)]
pub enum InspectPlan {
    /// The registry is asked for this reference.
    Remote(String),
    /// The store is asked for this reference.
    Local(String),
}

/// Decides where to look: short names stand for full references.
pub fn run(args: &InspectArgs, aliases: &StringMap) -> (r: InspectPlan)
    ensures
        ({
            let reference = shortnames::resolved(aliases@, args.reference@);
            if args.remote {
                r matches InspectPlan::Remote(n) && n@ == reference
            } else {
                r matches InspectPlan::Local(n) && n@ == reference
            }
        }),
{
    let reference: String = shortnames::resolve(args.reference.as_str(), aliases);
    if args.remote {
        InspectPlan::Remote(reference)
    } else {
        InspectPlan::Local(reference)
    }
}

/// The file that holds the manifest of an image in the store.
pub fn inspect_local(store: &OciStore, reference: &str) -> (r: Result<String, StoreError>)
    ensures
        match oci::lookup(store@.index.manifests, reference@) {
            Some(d) => match oci::path_of_digest(store@.root, d.digest) {
                Some(path) => r matches Ok(p) && p@ == path,
                None => r matches Err(StoreError::InvalidDigest(n)) && n@ == d.digest,
            },
            None => r matches Err(StoreError::NotFound(n)) && n@ == reference@,
        },
{
    let desc: Descriptor = match store.find(reference) {
        Ok(d) => d,
        Err(e) => {
            return Err(e);
        },
    };
    store.read_manifest(desc.digest.as_str())
}

} // verus!
