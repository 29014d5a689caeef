//! `llmman rm`: removes images.

use vstd::prelude::*;
use crate::shortnames;
use crate::storage::oci;
use crate::storage::oci::{DescriptorModel, OciStore};
use crate::string_map::StringMap;
use crate::text;

verus! {

/// Arguments of the command.
#[derive(Debug)]
pub struct RmArgs {
    /// References to remove.
    pub references: Vec<String>,
    /// Directory of the store, in place of the default.
    pub store: Option<String>,
}

/// Says that something was not removed.
pub const SOME_FAILED: &'static str = "one or more removals failed";

/// What became of one reference.
#[derive(Debug)]
pub enum Removal {
    /// Says that it was removed.
    Removed(String),
    /// Says why it was not.
    Failed(String),
}

/// What became of all references.
#[derive(Debug)]
pub struct RmReport {
    pub removals: Vec<Removal>,
    pub any_failed: bool,
}

/// What is left when the references are removed in turn.
pub open spec fn left(
    ms: Seq<DescriptorModel>,
    refs: Seq<Seq<char>>,
) -> Seq<DescriptorModel>
    decreases refs.len(),
{
    if refs.len() == 0 {
        ms
    } else {
        oci::removed(left(ms, refs.drop_last()), refs.last())
    }
}

/// The references that the arguments stand for.
pub open spec fn resolved_all(aliases: Map<Seq<char>, Seq<char>>, refs: Seq<Seq<char>>) -> Seq<
    Seq<char>,
> {
    refs.map_values(|r: Seq<char>| shortnames::resolved(aliases, r))
}

/// What is said of `reference` when it is removed from `ms`.
pub open spec fn reported(r: Removal, ms: Seq<DescriptorModel>, reference: Seq<char>) -> bool {
    if oci::matching_pos(ms, reference) is Some {
        r matches Removal::Removed(s) && s@ == "Removed "@ + reference
    } else {
        r matches Removal::Failed(s) && s@ == "Error removing "@ + reference
            + ": image not found: "@ + reference
    }
}

/// Removes one reference.
pub fn remove_one(store: &mut OciStore, raw: &str, aliases: &StringMap) -> (r: Removal)
    ensures
        final(store)@.root == old(store)@.root,
        ({
            let reference = shortnames::resolved(aliases@, raw@);
            let ms = old(store)@.index.manifests;
            &&& final(store)@.index == (oci::IndexModel {
                manifests: oci::removed(ms, reference),
                ..old(store)@.index
            })
            &&& reported(r, ms, reference)
        }),
{
    let reference: String = shortnames::resolve(raw, aliases);
    match store.remove(reference.as_str()) {
        Ok(_) => Removal::Removed(text::concat2("Removed ", reference.as_str())),
        Err(e) => {
            let mut s: String = text::concat3("Error removing ", reference.as_str(), ": ");
            s.append(e.message().as_str());
            proof {
                reveal_strlit(": ");
                reveal_strlit("image not found: ");
                reveal_strlit(": image not found: ");
                assert(": "@ + "image not found: "@ =~= ": image not found: "@);
                assert(s@ =~= "Error removing "@ + reference@ + ": image not found: "@
                    + reference@);
            }
            Removal::Failed(s)
        },
    }
}

/// What is said of a reference that is still there because the store could not be
/// read or written.
pub fn not_removed(raw: &str, aliases: &StringMap, error: &str) -> (r: Removal)
    ensures
        r matches Removal::Failed(s) && s@ == "Error removing "@ + shortnames::resolved(
            aliases@,
            raw@,
        ) + ": "@ + error@,
{
    let reference: String = shortnames::resolve(raw, aliases);
    let mut s: String = text::concat3("Error removing ", reference.as_str(), ": ");
    s.append(error);
    Removal::Failed(s)
}

/// Removes the references in turn.  A failure does not keep the others from
/// being removed.
pub fn run(store: &mut OciStore, args: &RmArgs, aliases: &StringMap) -> (r: RmReport)
    ensures
        final(store)@.root == old(store)@.root,
        ({
            let refs = resolved_all(aliases@, text::texts(args.references@));
            let ms = old(store)@.index.manifests;
            &&& final(store)@.index == (oci::IndexModel {
                manifests: left(ms, refs),
                ..old(store)@.index
            })
            &&& r.removals@.len() == refs.len()
            &&& r.removals@.len() == args.references@.len()
            &&& forall|i: int|
                0 <= i < refs.len() ==> reported(
                    #[trigger] r.removals@[i],
                    left(ms, refs.take(i)),
                    refs[i],
                )
            &&& r.any_failed == exists|i: int|
                0 <= i < refs.len() && (#[trigger] r.removals@[i]) is Failed
        }),
{
    let ghost refs = resolved_all(aliases@, text::texts(args.references@));
    let ghost start = store@;
    let ghost ms = start.index.manifests;
    let mut removals: Vec<Removal> = Vec::new();
    let mut any_failed: bool = false;
    let mut i: usize = 0;
    assert(left(ms, refs.take(0)) == ms);
    while i < args.references.len()
        invariant
            i <= args.references.len(),
            refs == resolved_all(aliases@, text::texts(args.references@)),
            ms == start.index.manifests,
            store@.root == start.root,
            store@.index == (oci::IndexModel {
                manifests: left(ms, refs.take(i as int)),
                ..start.index
            }),
            removals@.len() == i,
            forall|j: int|
                0 <= j < i ==> reported(
                    #[trigger] removals@[j],
                    left(ms, refs.take(j)),
                    refs[j],
                ),
            any_failed == exists|j: int| 0 <= j < i && (#[trigger] removals@[j]) is Failed,
        decreases args.references.len() - i,
    {
        assert(refs.take(i + 1).drop_last() =~= refs.take(i as int));
        assert(refs[i as int] == shortnames::resolved(aliases@, args.references@[i as int]@));
        let one: Removal = remove_one(store, args.references[i].as_str(), aliases);
        let failed: bool = match &one {
            Removal::Removed(_) => false,
            Removal::Failed(_) => true,
        };
        let ghost before = removals@;
        removals.push(one);
        proof {
            assert(forall|j: int| 0 <= j < i ==> removals@[j] == before[j]);
            if any_failed {
                let j = choose|j: int| 0 <= j < i && (#[trigger] before[j]) is Failed;
                assert(removals@[j] is Failed);
            }
            if failed {
                assert(removals@[i as int] is Failed);
            }
        }
        any_failed = any_failed || failed;
        i += 1;
    }
    assert(refs.take(i as int) =~= refs);
    RmReport { removals, any_failed }
}

/// Whatever the outcome, none of the references is found in the store
/// afterwards.
pub proof fn removed_references_are_gone(
    ms: Seq<DescriptorModel>,
    refs: Seq<Seq<char>>,
    i: int,
)
    requires
        0 <= i < refs.len(),
    ensures
        oci::matching_pos(left(ms, refs), refs[i]) is None,
        oci::lookup(left(ms, refs), refs[i]) is None,
    decreases refs.len(),
{
    let before = left(ms, refs.drop_last());
    if i < refs.len() - 1 {
        removed_references_are_gone(ms, refs.drop_last(), i);
        oci::removal_brings_nothing_back(before, refs.last(), refs[i]);
    } else {
        oci::removed_image_is_gone(before, refs[i]);
    }
    oci::lemma_named_pos(left(ms, refs), refs[i]);
    oci::lemma_matching_pos(left(ms, refs), refs[i]);
}

/// What is left are the images that none of the references matches, all of them, in
/// their order.
pub proof fn other_images_are_left(ms: Seq<DescriptorModel>, refs: Seq<Seq<char>>)
    ensures
        left(ms, refs) == ms.filter(
            |d: DescriptorModel|
                forall|i: int| 0 <= i < refs.len() ==> !oci::matches(d, #[trigger] refs[i]),
        ),
    decreases refs.len(),
{
    let keeps = |d: DescriptorModel|
        forall|i: int| 0 <= i < refs.len() ==> !oci::matches(d, #[trigger] refs[i]);
    if refs.len() == 0 {
        lemma_filter_all(ms, keeps);
    } else {
        let r = refs.drop_last();
        let last = refs.last();
        other_images_are_left(ms, r);
        let first = |d: DescriptorModel|
            forall|i: int| 0 <= i < r.len() ==> !oci::matches(d, #[trigger] r[i]);
        let second = |d: DescriptorModel| !oci::matches(d, last);
        oci::removal_takes_out_what_matches(ms.filter(first), last);
        assert forall|d: DescriptorModel| #[trigger] keeps(d) == (first(d) && second(d)) by {
            if first(d) && second(d) {
                assert forall|i: int| 0 <= i < refs.len() implies !oci::matches(
                    d,
                    #[trigger] refs[i],
                ) by {
                    if i < r.len() {
                        assert(refs[i] == r[i]);
                    }
                }
            }
            if keeps(d) {
                assert(!oci::matches(d, refs[refs.len() - 1]));
                assert forall|i: int| 0 <= i < r.len() implies !oci::matches(d, #[trigger] r[i]) by {
                    assert(r[i] == refs[i]);
                }
            }
        }
        lemma_filter_twice(ms, first, second, keeps);
    }
}

proof fn lemma_filter_all(ms: Seq<DescriptorModel>, keeps: spec_fn(DescriptorModel) -> bool)
    requires
        forall|d: DescriptorModel| #[trigger] keeps(d),
    ensures
        ms.filter(keeps) == ms,
    decreases ms.len(),
{
    reveal(Seq::filter);
    if ms.len() > 0 {
        lemma_filter_all(ms.drop_last(), keeps);
        assert(keeps(ms.last()));
        assert(ms.drop_last().push(ms.last()) =~= ms);
    }
}

proof fn lemma_filter_twice(
    ms: Seq<DescriptorModel>,
    first: spec_fn(DescriptorModel) -> bool,
    second: spec_fn(DescriptorModel) -> bool,
    both: spec_fn(DescriptorModel) -> bool,
)
    requires
        forall|d: DescriptorModel| #[trigger] both(d) == (first(d) && second(d)),
    ensures
        ms.filter(first).filter(second) == ms.filter(both),
    decreases ms.len(),
{
    reveal(Seq::filter);
    if ms.len() > 0 {
        let d = ms.drop_last();
        let last = ms.last();
        lemma_filter_twice(d, first, second, both);
        assert(both(last) == (first(last) && second(last)));
        if first(last) {
            assert(d.filter(first).push(last).drop_last() =~= d.filter(first));
        }
    }
}

/// Every argument is resolved, in its place.
pub proof fn every_argument_is_resolved(aliases: Map<Seq<char>, Seq<char>>, refs: Seq<Seq<char>>)
    ensures
        resolved_all(aliases, refs).len() == refs.len(),
        forall|i: int|
            0 <= i < refs.len() ==> #[trigger] resolved_all(aliases, refs)[i]
                == shortnames::resolved(aliases, refs[i]),
{
}

/// A reference is said to be removed where some image matched it, and otherwise an
/// error names it.
pub proof fn outcome_is_reported(r: Removal, ms: Seq<DescriptorModel>, reference: Seq<char>)
    requires
        reported(r, ms, reference),
    ensures
        (r is Removed) == exists|i: int|
            0 <= i < ms.len() && oci::matches(#[trigger] ms[i], reference),
        r matches Removal::Removed(s) ==> s@ == "Removed "@ + reference,
        r matches Removal::Failed(s) ==> s@ == "Error removing "@ + reference
            + ": image not found: "@ + reference,
{
    oci::lemma_matching_pos(ms, reference);
}

} // verus!
