//! Short names for references.
//!
//! Short names come from configuration files, which are merged in ascending
//! priority: of two entries for one name, the one in the later file wins.
//!
//! 1. `/usr/share/llmman/shortnames.conf`: default of the distribution
//! 2. `/etc/llmman/shortnames.conf`: override of the administrator
//! 3. `<binary-dir>/../share/llmman/shortnames.conf`: beside an installation
//! 4. `<binary-dir>/shortnames.conf`: beside the binary
//! 5. `<config-dir>/llmman/shortnames.conf`: names of the user
//! 6. the file that `LLMMAN_SHORTNAMES_CONF` names

use vstd::prelude::*;
use crate::paths;
use crate::string_map;
use crate::string_map::StringMap;
use crate::text;

verus! {

/// Registry of a reference that names none.
pub const DEFAULT_HOST: &'static str = "hf.co/";

/// Path of the default of the distribution.
pub const SHARED_CONF: &'static str = "/usr/share/llmman/shortnames.conf";

/// Path of the override of the administrator.
pub const SYSTEM_CONF: &'static str = "/etc/llmman/shortnames.conf";

/// The candidate paths, in ascending priority.
pub open spec fn conf_paths(
    binary_dir: Option<Seq<char>>,
    config_dir: Option<Seq<char>>,
    named: Option<Seq<char>>,
) -> Seq<Seq<char>> {
    seq![SHARED_CONF@, SYSTEM_CONF@] + (match binary_dir {
        Some(d) => seq![
            paths::below(d, "../share/llmman/shortnames.conf"@),
            paths::below(d, "shortnames.conf"@),
        ],
        None => Seq::<Seq<char>>::empty(),
    }) + (match config_dir {
        Some(d) => seq![paths::below(paths::below(d, "llmman"@), "shortnames.conf"@)],
        None => Seq::<Seq<char>>::empty(),
    }) + (match named {
        Some(p) => if p.len() > 0 {
            seq![p]
        } else {
            Seq::<Seq<char>>::empty()
        },
        None => Seq::<Seq<char>>::empty(),
    })
}

/// All candidate paths in ascending priority, for the directory of the running
/// binary, the user's configuration directory and the value of
/// `LLMMAN_SHORTNAMES_CONF`, as far as each is known.
pub fn config_paths(binary_dir: Option<&str>, config_dir: Option<&str>, named: Option<&str>) -> (r:
    Vec<String>)
    ensures
        text::texts(r@) == conf_paths(
            text::opt_str(binary_dir),
            text::opt_str(config_dir),
            text::opt_str(named),
        ),
{
    let mut r: Vec<String> = Vec::new();
    r.push(SHARED_CONF.to_string());
    r.push(SYSTEM_CONF.to_string());
    match binary_dir {
        Some(d) => {
            r.push(paths::join(d, "../share/llmman/shortnames.conf"));
            r.push(paths::join(d, "shortnames.conf"));
        },
        None => {},
    }
    match config_dir {
        Some(d) => {
            r.push(paths::join(paths::join(d, "llmman").as_str(), "shortnames.conf"));
        },
        None => {},
    }
    match named {
        Some(p) => {
            if !p.is_empty() {
                r.push(p.to_string());
            }
        },
        None => {},
    }
    assert(text::texts(r@) =~= conf_paths(
        text::opt_str(binary_dir),
        text::opt_str(config_dir),
        text::opt_str(named),
    ));
    r
}

/// The names of all files together: of two entries for one name the one in
/// the later file counts.
pub open spec fn merged(files: Seq<StringMap>) -> Map<Seq<char>, Seq<char>>
    decreases files.len(),
{
    if files.len() == 0 {
        Map::empty()
    } else {
        merged(files.drop_last()).union_prefer_right(files.last()@)
    }
}

fn overlay(table: &mut StringMap, file: &StringMap)
    ensures
        final(table)@ == old(table)@.union_prefer_right(file@),
{
    let pairs: Vec<(String, String)> = file.pairs();
    let ghost before = table@;
    let mut i: usize = 0;
    assert(before.union_prefer_right(Map::empty()) =~= before);
    while i < pairs.len()
        invariant
            i <= pairs.len(),
            table@ == before.union_prefer_right(
                string_map::map_of_pairs(pairs@.subrange(0, i as int)),
            ),
        decreases pairs.len() - i,
    {
        let ghost done = string_map::map_of_pairs(pairs@.subrange(0, i as int));
        assert(pairs@.subrange(0, i + 1).drop_last() =~= pairs@.subrange(0, i as int));
        table.insert(pairs[i].0.clone(), pairs[i].1.clone());
        assert(table@ =~= before.union_prefer_right(
            done.insert(pairs@[i as int].0@, pairs@[i as int].1@),
        ));
        i += 1;
    }
    assert(pairs@.subrange(0, i as int) =~= pairs@);
}

/// Merges the names of all files, given in ascending priority.
pub fn load_aliases(files: &Vec<StringMap>) -> (r: StringMap)
    ensures
        r@ == merged(files@),
{
    let mut r: StringMap = StringMap::new();
    let mut i: usize = 0;
    while i < files.len()
        invariant
            i <= files.len(),
            r@ == merged(files@.subrange(0, i as int)),
        decreases files.len() - i,
    {
        overlay(&mut r, &files[i]);
        assert(files@.subrange(0, i + 1).drop_last() =~= files@.subrange(0, i as int));
        i += 1;
    }
    assert(files@.subrange(0, i as int) =~= files@);
    r
}

/// The first path component of a reference.
pub open spec fn first_component(reference: Seq<char>) -> Seq<char> {
    match text::split_at_first(reference, '/') {
        Some(p) => p.0,
        None => reference,
    }
}

/// The reference carries a registry host: its first path component contains a
/// dot or is `localhost`.
pub open spec fn names_host(reference: Seq<char>) -> bool {
    first_component(reference).contains('.') || text::same_but_case(
        first_component(reference),
        "localhost"@,
    )
}

/// Whether a reference carries a registry host.
pub fn has_host(reference: &str) -> (r: bool)
    ensures
        r == names_host(reference@),
{
    let first: &str = match text::split_once(reference, '/') {
        Some(p) => p.0,
        None => reference,
    };
    text::has_char(first, '.') || text::eq_ignore_ascii_case(first, "localhost")
}

/// The full reference that a reference stands for.
pub open spec fn resolved(
    aliases: Map<Seq<char>, Seq<char>>,
    reference: Seq<char>,
) -> Seq<char> {
    if aliases.contains_key(reference) {
        aliases[reference]
    } else if names_host(reference) {
        reference
    } else {
        DEFAULT_HOST@ + reference
    }
}

/// Resolves a reference through the table of short names:
///
/// 1. a short name becomes what it stands for,
/// 2. a reference with a registry host stays as it is,
/// 3. any other reference is taken from `hf.co`.
pub fn resolve(reference: &str, aliases: &StringMap) -> (r: String)
    ensures
        r@ == resolved(aliases@, reference@),
{
    match aliases.get(reference) {
        Some(mapped) => mapped.to_string(),
        None => if has_host(reference) {
            reference.to_string()
        } else {
            text::concat2(DEFAULT_HOST, reference)
        },
    }
}

/// The entry in the last file that has the name counts.
pub proof fn later_file_wins(files: Seq<StringMap>, last: StringMap, name: Seq<char>)
    ensures
        merged(files.push(last)).contains_key(name) == (merged(files).contains_key(name)
            || last@.contains_key(name)),
        last@.contains_key(name) ==> merged(files.push(last))[name] == last@[name],
        !last@.contains_key(name) && merged(files).contains_key(name) ==> merged(
            files.push(last),
        )[name] == merged(files)[name],
{
    assert(files.push(last).drop_last() =~= files);
}

/// A reference that is no short name resolves to one with a registry host.
pub proof fn resolved_reference_has_host(
    aliases: Map<Seq<char>, Seq<char>>,
    reference: Seq<char>,
)
    requires
        !aliases.contains_key(reference),
    ensures
        names_host(resolved(aliases, reference)),
{
    if !names_host(reference) {
        let r = resolved(aliases, reference);
        reveal_strlit("hf.co/");
        text::lemma_first_pos(r, '/', 5);
        assert(first_component(r)[2] == '.');
    }
}

/// Resolving a second time changes nothing, where the outcome is not itself a
/// short name and a short name stands for a reference with a registry host.
pub proof fn resolving_again_changes_nothing(
    aliases: Map<Seq<char>, Seq<char>>,
    reference: Seq<char>,
)
    requires
        !aliases.contains_key(resolved(aliases, reference)),
        aliases.contains_key(reference) ==> names_host(aliases[reference]),
    ensures
        resolved(aliases, resolved(aliases, reference)) == resolved(aliases, reference),
{
    if !aliases.contains_key(reference) {
        resolved_reference_has_host(aliases, reference);
    }
}

/// A short name stands for its entry; a reference with a registry host stands for
/// itself; any other is looked for at `hf.co`.
pub proof fn references_are_resolved(aliases: Map<Seq<char>, Seq<char>>, reference: Seq<char>)
    ensures
        aliases.contains_key(reference) ==> resolved(aliases, reference) == aliases[reference],
        !aliases.contains_key(reference) && names_host(reference) ==> resolved(aliases, reference)
            == reference,
        !aliases.contains_key(reference) && !names_host(reference) ==> resolved(aliases, reference)
            == "hf.co/"@ + reference,
{
}

/// What stands before the first `/` is a registry host where it holds a dot or is
/// `localhost`, and nowhere else.
pub proof fn hosts_are_known_by_a_dot(first: Seq<char>, rest: Seq<char>)
    requires
        !first.contains('/'),
    ensures
        names_host(first.push('/') + rest) == (first.contains('.') || text::same_but_case(
            first,
            "localhost"@,
        )),
        names_host(first) == (first.contains('.') || text::same_but_case(first, "localhost"@)),
        first == "localhost"@ ==> names_host(first.push('/') + rest),
{
    text::split_parts_make_the_whole(first, '/', rest);
}

/// A name counts where some file has it, and then as the last of them has it.
pub proof fn names_of_every_file_count(files: Seq<StringMap>, name: Seq<char>, i: int)
    requires
        0 <= i < files.len(),
        files[i]@.contains_key(name),
        forall|j: int| i < j < files.len() ==> !(#[trigger] files[j])@.contains_key(name),
    ensures
        merged(files).contains_key(name),
        merged(files)[name] == files[i]@[name],
    decreases files.len(),
{
    let d = files.drop_last();
    if i < files.len() - 1 {
        assert(!files[files.len() - 1]@.contains_key(name));
        assert forall|j: int| i < j < d.len() implies !(#[trigger] d[j])@.contains_key(name) by {
            assert(d[j] == files[j]);
        }
        names_of_every_file_count(d, name, i);
    }
}

/// A name that no file has is no short name.
pub proof fn names_of_no_file_do_not_count(files: Seq<StringMap>, name: Seq<char>)
    requires
        forall|j: int| 0 <= j < files.len() ==> !(#[trigger] files[j])@.contains_key(name),
    ensures
        !merged(files).contains_key(name),
    decreases files.len(),
{
    if files.len() > 0 {
        let d = files.drop_last();
        assert(!files[files.len() - 1]@.contains_key(name));
        assert forall|j: int| 0 <= j < d.len() implies !(#[trigger] d[j])@.contains_key(name) by {
            assert(d[j] == files[j]);
        }
        names_of_no_file_do_not_count(d, name);
    }
}

/// The files are read in the documented order: the distribution, the administrator,
/// beside the installation, beside the binary, the user, and the file that the
/// environment names.
pub proof fn files_in_the_documented_order(
    binary_dir: Seq<char>,
    config_dir: Seq<char>,
    named: Seq<char>,
)
    requires
        named.len() > 0,
    ensures
        conf_paths(Some(binary_dir), Some(config_dir), Some(named)) == seq![
            "/usr/share/llmman/shortnames.conf"@,
            "/etc/llmman/shortnames.conf"@,
            paths::below(binary_dir, "../share/llmman/shortnames.conf"@),
            paths::below(binary_dir, "shortnames.conf"@),
            paths::below(paths::below(config_dir, "llmman"@), "shortnames.conf"@),
            named,
        ],
        conf_paths(None, Some(config_dir), Some(named)) == seq![
            "/usr/share/llmman/shortnames.conf"@,
            "/etc/llmman/shortnames.conf"@,
            paths::below(paths::below(config_dir, "llmman"@), "shortnames.conf"@),
            named,
        ],
        conf_paths(Some(binary_dir), None, None) == seq![
            "/usr/share/llmman/shortnames.conf"@,
            "/etc/llmman/shortnames.conf"@,
            paths::below(binary_dir, "../share/llmman/shortnames.conf"@),
            paths::below(binary_dir, "shortnames.conf"@),
        ],
        conf_paths(None, None, None) == seq![
            "/usr/share/llmman/shortnames.conf"@,
            "/etc/llmman/shortnames.conf"@,
        ],
        conf_paths(None, None, Some(Seq::<char>::empty())) == conf_paths(None, None, None),
{
    assert(conf_paths(Some(binary_dir), Some(config_dir), Some(named)) =~= seq![
        "/usr/share/llmman/shortnames.conf"@,
        "/etc/llmman/shortnames.conf"@,
        paths::below(binary_dir, "../share/llmman/shortnames.conf"@),
        paths::below(binary_dir, "shortnames.conf"@),
        paths::below(paths::below(config_dir, "llmman"@), "shortnames.conf"@),
        named,
    ]);
    assert(conf_paths(None, Some(config_dir), Some(named)) =~= seq![
        "/usr/share/llmman/shortnames.conf"@,
        "/etc/llmman/shortnames.conf"@,
        paths::below(paths::below(config_dir, "llmman"@), "shortnames.conf"@),
        named,
    ]);
    assert(conf_paths(Some(binary_dir), None, None) =~= seq![
        "/usr/share/llmman/shortnames.conf"@,
        "/etc/llmman/shortnames.conf"@,
        paths::below(binary_dir, "../share/llmman/shortnames.conf"@),
        paths::below(binary_dir, "shortnames.conf"@),
    ]);
    assert(conf_paths(None, None, None) =~= seq![
        "/usr/share/llmman/shortnames.conf"@,
        "/etc/llmman/shortnames.conf"@,
    ]);
    assert(conf_paths(None, None, Some(Seq::<char>::empty())) =~= conf_paths(None, None, None));
}

} // verus!
