//! Manage and serve large language models kept in OCI image layouts.

pub mod archive;
pub mod clock;
pub mod cmd;
pub mod hash;
pub mod json;
pub mod paths;
pub mod shortnames;
pub mod storage;
pub mod string_map;
pub mod text;

use vstd::prelude::*;

verus! {

/// The directory below which programs keep their data.
#[derive(Debug)]
pub enum BaseDir {
    /// The home directory of the user, on Linux and macOS.
    Home(Option<String>),
    /// The directory for local data, on Windows.
    LocalData(Option<String>),
}

/// The directory of the store in a base directory.
pub open spec fn store_in(base: BaseDir) -> Option<Seq<char>> {
    match base {
        BaseDir::Home(Some(h)) => Some(
            paths::below(
                paths::below(paths::below(paths::below(h@, ".local"@), "share"@), "llmman"@),
                "store"@,
            ),
        ),
        BaseDir::LocalData(Some(d)) => Some(paths::below(paths::below(d@, "llmman"@), "store"@)),
        _ => None,
    }
}

/// Why there is no default store.
pub open spec fn no_base(base: BaseDir) -> Seq<char> {
    match base {
        BaseDir::Home(_) => "could not determine home directory"@,
        BaseDir::LocalData(_) => "could not determine local data directory"@,
    }
}

/// The directory of the store: the one given, or else the default.
pub fn default_store(override_path: Option<&str>, base: &BaseDir) -> (r: Result<String, String>)
    ensures
        match override_path {
            Some(p) => r matches Ok(s) && s@ == p@,
            None => match store_in(*base) {
                Some(p) => r matches Ok(s) && s@ == p,
                None => r matches Err(e) && e@ == no_base(*base),
            },
        },
{
    match override_path {
        Some(p) => Ok(p.to_string()),
        None => match base {
            BaseDir::Home(Some(h)) => {
                let local: String = paths::join(h.as_str(), ".local");
                let share: String = paths::join(local.as_str(), "share");
                let llmman: String = paths::join(share.as_str(), "llmman");
                Ok(paths::join(llmman.as_str(), "store"))
            },
            BaseDir::LocalData(Some(d)) => {
                let llmman: String = paths::join(d.as_str(), "llmman");
                Ok(paths::join(llmman.as_str(), "store"))
            },
            BaseDir::Home(None) => Err("could not determine home directory".to_string()),
            BaseDir::LocalData(None) => Err("could not determine local data directory".to_string()),
        },
    }
}

/// Without another directory the store lies below the home directory in
/// `.local/share/llmman/store`, or below the directory for local data in
/// `llmman/store`.
pub proof fn store_lies_below_the_base(base: String)
    requires
        base@.len() > 0,
        base@.last() != '/',
    ensures
        store_in(BaseDir::Home(Some(base))) == Some(base@ + "/.local/share/llmman/store"@),
        store_in(BaseDir::LocalData(Some(base))) == Some(base@ + "/llmman/store"@),
        store_in(BaseDir::Home(None)) is None,
        store_in(BaseDir::LocalData(None)) is None,
        no_base(BaseDir::Home(None)) == "could not determine home directory"@,
        no_base(BaseDir::LocalData(None)) == "could not determine local data directory"@,
{
    reveal_strlit(".local");
    reveal_strlit("share");
    reveal_strlit("llmman");
    reveal_strlit("store");
    reveal_strlit("/.local/share/llmman/store");
    reveal_strlit("/llmman/store");
    assert(store_in(BaseDir::Home(Some(base)))->0 =~= base@ + "/.local/share/llmman/store"@);
    assert(store_in(BaseDir::LocalData(Some(base)))->0 =~= base@ + "/llmman/store"@);
}

} // verus!
