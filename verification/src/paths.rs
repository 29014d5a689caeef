//! Paths as Unix writes them, with `/` between their components.

use vstd::prelude::*;
use vstd::slice::slice_subrange;
use crate::text;

verus! {

/// `part` below `base`.  An absolute `part` stands for itself.
pub open spec fn below(base: Seq<char>, part: Seq<char>) -> Seq<char> {
    if part.len() > 0 && part[0] == '/' {
        part
    } else if base.len() == 0 || base.last() == '/' {
        base + part
    } else {
        base.push('/') + part
    }
}

/// `part` below `base`.
pub fn join(base: &str, part: &str) -> (r: String)
    ensures
        r@ == below(base@, part@),
{
    let b: Vec<char> = text::chars_of(base);
    let p: Vec<char> = text::chars_of(part);
    if p.len() > 0 && p[0] == '/' {
        return part.to_string();
    }
    let mut r: String = base.to_string();
    if b.len() > 0 && b[b.len() - 1] != '/' {
        r.push('/');
    }
    r.append(part);
    r
}

/// The last component of a path, where it names a file or a directory: empty
/// components and `.` do not count, and `..` is no name.
pub open spec fn final_name(path: Seq<char>) -> Option<Seq<char>>
    decreases path.len(),
{
    proof {
        text::lemma_last_pos_holds(path, '/');
    }
    match text::last_pos(path, '/') {
        Some(i) => {
            let part = path.subrange(i + 1, path.len() as int);
            if part.len() == 0 || part == "."@ {
                final_name(path.subrange(0, i))
            } else if part == ".."@ {
                None
            } else {
                Some(part)
            }
        },
        None => if path.len() == 0 || path == "."@ || path == ".."@ {
            None
        } else {
            Some(path)
        },
    }
}

/// A path without the separators and the `.` components at its end.
pub open spec fn settled(path: Seq<char>) -> Seq<char>
    decreases path.len(),
{
    proof {
        text::lemma_last_pos_holds(path, '/');
    }
    match text::last_pos(path, '/') {
        Some(i) => {
            let part = path.subrange(i + 1, path.len() as int);
            if part.len() > 0 && part != "."@ {
                path
            } else if i == 0 {
                path.subrange(0, 1)
            } else {
                settled(path.subrange(0, i))
            }
        },
        None => path,
    }
}

/// The path without its last component.  The root and the empty path have
/// none.
pub open spec fn above(path: Seq<char>) -> Option<Seq<char>> {
    let whole = settled(path);
    match text::last_pos(whole, '/') {
        Some(i) => if whole.len() == 1 {
            None
        } else if i == 0 {
            Some(whole.subrange(0, 1))
        } else {
            Some(settled(whole.subrange(0, i)))
        },
        None => if whole.len() == 0 {
            None
        } else {
            Some(Seq::<char>::empty())
        },
    }
}

/// What stands behind the last dot of a file name, unless the name starts with
/// that dot.
pub open spec fn suffix_of_name(name: Seq<char>) -> Option<Seq<char>> {
    match text::last_pos(name, '.') {
        Some(i) => if i > 0 {
            Some(name.subrange(i + 1, name.len() as int))
        } else {
            None
        },
        None => None,
    }
}

/// The file name extension of a path.
pub open spec fn final_suffix(path: Seq<char>) -> Option<Seq<char>> {
    match final_name(path) {
        Some(name) => suffix_of_name(name),
        None => None,
    }
}

/// The last component of a path, where it names a file or a directory.
pub fn file_name<'a>(path: &'a str) -> (r: Option<&'a str>)
    ensures
        text::opt_str(r) == final_name(path@),
    decreases path@.len(),
{
    let v: Vec<char> = text::chars_of(path);
    proof {
        text::lemma_last_pos_holds(path@, '/');
    }
    match text::rfind_char(&v, '/') {
        Some(i) => {
            let part: &str = path.substring_char(i + 1, v.len());
            if part.is_empty() || text::same(part, ".") {
                file_name(path.substring_char(0, i))
            } else if text::same(part, "..") {
                None
            } else {
                Some(part)
            }
        },
        None => if path.is_empty() || text::same(path, ".") || text::same(path, "..") {
            None
        } else {
            Some(path)
        },
    }
}

fn settle<'a>(path: &'a str) -> (r: &'a str)
    ensures
        r@ == settled(path@),
    decreases path@.len(),
{
    let v: Vec<char> = text::chars_of(path);
    proof {
        text::lemma_last_pos_holds(path@, '/');
    }
    match text::rfind_char(&v, '/') {
        Some(i) => {
            let part: &str = path.substring_char(i + 1, v.len());
            if !part.is_empty() && !text::same(part, ".") {
                path
            } else if i == 0 {
                path.substring_char(0, 1)
            } else {
                settle(path.substring_char(0, i))
            }
        },
        None => path,
    }
}

/// The path without its last component.
pub fn parent<'a>(path: &'a str) -> (r: Option<&'a str>)
    ensures
        text::opt_str(r) == above(path@),
{
    let whole: &str = settle(path);
    let v: Vec<char> = text::chars_of(whole);
    proof {
        text::lemma_last_pos_holds(whole@, '/');
    }
    match text::rfind_char(&v, '/') {
        Some(i) => if v.len() == 1 {
            None
        } else if i == 0 {
            Some(whole.substring_char(0, 1))
        } else {
            Some(settle(whole.substring_char(0, i)))
        },
        None => if v.len() == 0 {
            None
        } else {
            let none: &str = whole.substring_char(0, 0);
            assert(none@ =~= Seq::<char>::empty());
            Some(none)
        },
    }
}

/// The file name extension of a path.
pub fn extension<'a>(path: &'a str) -> (r: Option<&'a str>)
    ensures
        text::opt_str(r) == final_suffix(path@),
{
    match file_name(path) {
        Some(name) => {
            let v: Vec<char> = text::chars_of(name);
            match text::rfind_char(&v, '.') {
                Some(i) => if i > 0 {
                    Some(name.substring_char(i + 1, v.len()))
                } else {
                    None
                },
                None => None,
            }
        },
        None => None,
    }
}

// ---------------------------------------------------------------------------
// Paths in bytes
// ---------------------------------------------------------------------------

/// Where the component starts that ends before `end`.
pub open spec fn component_start(path: Seq<u8>, end: int) -> int
    decreases end,
{
    if end <= 0 || path[end - 1] == 47 {
        end
    } else {
        component_start(path, end - 1)
    }
}

/// Where the last component before `end` lies, where it names a file or a
/// directory: empty components and `.` do not count, and `..` is no name.
pub open spec fn name_range(path: Seq<u8>, end: int) -> Option<(int, int)>
    decreases end,
{
    proof {
        lemma_component_start(path, end);
    }
    let start = component_start(path, end);
    let part = path.subrange(start, end);
    if end <= 0 {
        None
    } else if part.len() == 0 || part == seq![46u8] {
        if start <= 0 {
            None
        } else {
            name_range(path, start - 1)
        }
    } else if part == seq![46u8, 46u8] {
        None
    } else {
        Some((start, end))
    }
}

/// The last component of a path in bytes, where it names a file or a directory.
pub open spec fn name_bytes(path: Seq<u8>) -> Option<Seq<u8>> {
    match name_range(path, path.len() as int) {
        Some(r) => Some(path.subrange(r.0, r.1)),
        None => None,
    }
}

/// A component starts at the start of the path or behind a `/`, and holds none.
pub proof fn lemma_component_start(path: Seq<u8>, end: int)
    ensures
        component_start(path, end) <= end,
        end >= 0 ==> component_start(path, end) >= 0,
        component_start(path, end) > 0 ==> path[component_start(path, end) - 1] == 47,
    decreases end,
{
    if end > 0 && path[end - 1] != 47 {
        lemma_component_start(path, end - 1);
    }
}

fn find_component_start(path: &[u8], end: usize) -> (r: usize)
    requires
        end <= path@.len(),
    ensures
        r == component_start(path@, end as int),
        r <= end,
{
    let mut i: usize = end;
    while i > 0 && path[i - 1] != 47
        invariant
            i <= end <= path@.len(),
            component_start(path@, i as int) == component_start(path@, end as int),
        decreases i,
    {
        i -= 1;
    }
    i
}

fn find_name(path: &[u8], end: usize) -> (r: Option<(usize, usize)>)
    requires
        end <= path@.len(),
    ensures
        match r {
            Some(p) => p.0 <= p.1 <= path@.len() && name_range(path@, end as int) == Some(
                (p.0 as int, p.1 as int),
            ),
            None => name_range(path@, end as int) is None,
        },
    decreases end,
{
    if end == 0 {
        return None;
    }
    let start: usize = find_component_start(path, end);
    let ghost part = path@.subrange(start as int, end as int);
    let skipped: bool = start == end || (end - start == 1 && path[start] == 46);
    proof {
        if part.len() > 0 {
            assert(part[0] == path@[start as int]);
        }
        if part.len() > 1 {
            assert(part[1] == path@[start + 1]);
        }
        assert(seq![46u8][0] == 46);
        assert(seq![46u8, 46u8][0] == 46 && seq![46u8, 46u8][1] == 46);
        assert(skipped == (part.len() == 0 || part =~= seq![46u8]));
        assert((end - start == 2 && path@[start as int] == 46 && path@[start + 1] == 46) == (part
            =~= seq![46u8, 46u8]));
    }
    if skipped {
        if start == 0 {
            None
        } else {
            find_name(path, start - 1)
        }
    } else if end - start == 2 && path[start] == 46 && path[start + 1] == 46 {
        None
    } else {
        Some((start, end))
    }
}

/// The last component of a path in bytes, where it names a file or a directory.
pub fn file_name_bytes<'a>(path: &'a [u8]) -> (r: Option<&'a [u8]>)
    ensures
        match r {
            Some(n) => name_bytes(path@) == Some(n@),
            None => name_bytes(path@) is None,
        },
{
    match find_name(path, path.len()) {
        Some(p) => Some(slice_subrange(path, p.0, p.1)),
        None => None,
    }
}

// ---------------------------------------------------------------------------
// Laws
// ---------------------------------------------------------------------------

/// A relative part comes below a directory behind one `/`; an absolute one stands
/// for itself.
pub proof fn parts_come_below(base: Seq<char>, part: Seq<char>)
    ensures
        base.len() > 0 && base.last() != '/' && (part.len() == 0 || part[0] != '/') ==> below(
            base,
            part,
        ) == base + seq!['/'] + part,
        base.len() > 0 && base.last() == '/' && (part.len() == 0 || part[0] != '/') ==> below(
            base,
            part,
        ) == base + part,
        base.len() == 0 ==> below(base, part) == part,
        part.len() > 0 && part[0] == '/' ==> below(base, part) == part,
{
    assert(base.push('/') + part =~= base + seq!['/'] + part);
    if base.len() == 0 {
        assert(base + part =~= part);
    }
}

/// The name of a file is what stands behind the last `/` of its path.
pub proof fn name_stands_behind_the_last_slash(dir: Seq<char>, name: Seq<char>)
    requires
        name.len() > 0,
        !name.contains('/'),
        name != "."@,
        name != ".."@,
    ensures
        final_name(dir + seq!['/'] + name) == Some(name),
        final_name(name) == Some(name),
{
    let path = dir + seq!['/'] + name;
    let n = dir.len() as int;
    assert forall|j: int| n < j < path.len() implies path[j] != '/' by {
        assert(path[j] == name[j - n - 1]);
        assert(name.contains(name[j - n - 1]));
    }
    text::lemma_last_pos(path, '/', n);
    assert(path.subrange(n + 1, path.len() as int) =~= name);
    assert forall|j: int| 0 <= j < name.len() implies name[j] != '/' by {
        assert(name.contains(name[j]));
    }
    text::lemma_last_pos_none(name, '/');
}

/// A name is a component of the path it is the name of: it holds no `/` and is not
/// empty, `.` or `..`.
pub proof fn names_are_components(path: Seq<char>)
    ensures
        final_name(path) matches Some(name) ==> name.len() > 0 && !name.contains('/') && name
            != "."@ && name != ".."@ && text::has_part(path, name),
    decreases path.len(),
{
    text::lemma_last_pos_holds(path, '/');
    match text::last_pos(path, '/') {
        Some(i) => {
            let part = path.subrange(i + 1, path.len() as int);
            if part.len() == 0 || part == "."@ {
                let start = path.subrange(0, i);
                names_are_components(start);
                if let Some(name) = final_name(start) {
                    let k = choose|k: int| #[trigger] text::part_at(start, name, k);
                    assert(path.subrange(k, k + name.len()) =~= start.subrange(k, k + name.len()));
                    assert(text::part_at(path, name, k));
                }
            } else if part != ".."@ {
                assert(text::part_at(path, part, i + 1));
            }
        },
        None => {
            if path.len() > 0 {
                assert(path.subrange(0, path.len() as int) =~= path);
                assert(text::part_at(path, path, 0));
            }
        },
    }
}

/// The directory of a file is its path without the name and the `/` before it.
pub proof fn directory_is_the_path_without_the_name(dir: Seq<char>, name: Seq<char>)
    requires
        dir.len() > 0,
        dir.last() != '/',
        forall|d: Seq<char>| dir != #[trigger] (d + "/."@),
        name.len() > 0,
        !name.contains('/'),
        name != "."@,
    ensures
        above(dir + seq!['/'] + name) == Some(dir),
        above(name) == Some(Seq::<char>::empty()),
        above(seq!['/'] + name) == Some(seq!['/']),
{
    reveal_strlit(".");
    reveal_strlit("/.");
    let path = dir + seq!['/'] + name;
    let n = dir.len() as int;
    assert forall|j: int| n < j < path.len() implies path[j] != '/' by {
        assert(path[j] == name[j - n - 1]);
        assert(name.contains(name[j - n - 1]));
    }
    text::lemma_last_pos(path, '/', n);
    assert(path.subrange(n + 1, path.len() as int) =~= name);
    assert(settled(path) == path);
    assert(path.subrange(0, n) =~= dir);
    text::lemma_last_pos_holds(dir, '/');
    assert(settled(dir) == dir) by {
        if let Some(i) = text::last_pos(dir, '/') {
            let part = dir.subrange(i + 1, n);
            if part.len() == 0 {
                assert(dir[n - 1] == '/');
            } else if part == "."@ {
                assert(part.len() == 1);
                assert(dir[n - 1] == part[0]);
                assert(dir =~= dir.subrange(0, i) + "/."@);
            }
        }
    }
    assert forall|j: int| 0 <= j < name.len() implies name[j] != '/' by {
        assert(name.contains(name[j]));
    }
    text::lemma_last_pos_none(name, '/');
    let rooted = seq!['/'] + name;
    assert forall|j: int| 0 < j < rooted.len() implies rooted[j] != '/' by {
        assert(rooted[j] == name[j - 1]);
        assert(name.contains(name[j - 1]));
    }
    text::lemma_last_pos(rooted, '/', 0);
    assert(rooted.subrange(1, rooted.len() as int) =~= name);
    assert(rooted.subrange(0, 1) =~= seq!['/']);
}

/// The extension of a name is what stands behind its last dot, unless that is its
/// first character.
pub proof fn extension_stands_behind_the_last_dot(stem: Seq<char>, ext: Seq<char>)
    requires
        !ext.contains('.'),
    ensures
        stem.len() > 0 ==> suffix_of_name(stem + seq!['.'] + ext) == Some(ext),
        suffix_of_name(seq!['.'] + ext) is None,
        suffix_of_name(ext) is None,
{
    let name = stem + seq!['.'] + ext;
    let n = stem.len() as int;
    assert forall|j: int| n < j < name.len() implies name[j] != '.' by {
        assert(name[j] == ext[j - n - 1]);
        assert(ext.contains(ext[j - n - 1]));
    }
    text::lemma_last_pos(name, '.', n);
    assert(name.subrange(n + 1, name.len() as int) =~= ext);
    let hidden = seq!['.'] + ext;
    assert forall|j: int| 0 < j < hidden.len() implies hidden[j] != '.' by {
        assert(hidden[j] == ext[j - 1]);
        assert(ext.contains(ext[j - 1]));
    }
    text::lemma_last_pos(hidden, '.', 0);
    assert forall|j: int| 0 <= j < ext.len() implies ext[j] != '.' by {
        assert(ext.contains(ext[j]));
    }
    text::lemma_last_pos_none(ext, '.');
}

/// The extension of a path is that of its name.
pub proof fn extension_is_that_of_the_name(path: Seq<char>)
    ensures
        final_name(path) matches Some(name) ==> final_suffix(path) == suffix_of_name(name),
        final_name(path) is None ==> final_suffix(path) is None,
{
}

/// In bytes too, the name of a file is what stands behind the last `/` of its path.
pub proof fn name_in_bytes_stands_behind_the_last_slash(dir: Seq<u8>, name: Seq<u8>)
    requires
        name.len() > 0,
        !name.contains(47),
        name != seq![46u8],
        name != seq![46u8, 46u8],
    ensures
        name_bytes(dir + seq![47u8] + name) == Some(name),
        name_bytes(name) == Some(name),
{
    let path = dir + seq![47u8] + name;
    let n = dir.len() as int + 1;
    assert forall|j: int| n <= j < path.len() implies path[j] != 47 by {
        assert(path[j] == name[j - n]);
        assert(name.contains(name[j - n]));
    }
    lemma_component_starts_at(path, n, path.len() as int);
    assert(path.subrange(n, path.len() as int) =~= name);
    assert forall|j: int| 0 <= j < name.len() implies name[j] != 47 by {
        assert(name.contains(name[j]));
    }
    lemma_component_starts_at(name, 0, name.len() as int);
    assert(name.subrange(0, name.len() as int) =~= name);
}

proof fn lemma_component_starts_at(path: Seq<u8>, start: int, end: int)
    requires
        0 <= start <= end <= path.len(),
        start == 0 || path[start - 1] == 47,
        forall|j: int| start <= j < end ==> path[j] != 47,
    ensures
        component_start(path, end) == start,
    decreases end,
{
    if end > start {
        assert(path[end - 1] != 47);
        lemma_component_starts_at(path, start, end - 1);
    }
}

/// A `/` or a `.` component at the end of a path does not change its name, and `..`
/// is no name.
pub proof fn ends_that_do_not_count(path: Seq<char>)
    ensures
        final_name(path.push('/')) == final_name(path),
        final_name(path + "/."@) == final_name(path),
        final_name(path + "/.."@) is None,
        path.len() > 0 ==> above(path.push('/')) == above(path),
{
    reveal_strlit(".");
    reveal_strlit("..");
    reveal_strlit("/.");
    reveal_strlit("/..");
    let n = path.len() as int;
    let slash = path.push('/');
    text::lemma_last_pos(slash, '/', n);
    assert(slash.subrange(n + 1, slash.len() as int).len() == 0);
    assert(slash.subrange(0, n) =~= path);
    let dot = path + "/."@;
    text::lemma_last_pos(dot, '/', n);
    assert(dot.subrange(n + 1, dot.len() as int) =~= "."@);
    assert(dot.subrange(0, n) =~= path);
    let up = path + "/.."@;
    text::lemma_last_pos(up, '/', n);
    assert(up.subrange(n + 1, up.len() as int) =~= ".."@);
    assert("."@.len() == 1 && ".."@.len() == 2);
}

/// The empty path and the root have no name and nothing above them.
pub proof fn root_has_no_name()
    ensures
        final_name(Seq::<char>::empty()) is None,
        final_name(seq!['/']) is None,
        above(Seq::<char>::empty()) is None,
        above(seq!['/']) is None,
{
    let root = seq!['/'];
    text::lemma_last_pos_none(Seq::<char>::empty(), '/');
    ends_that_do_not_count(Seq::<char>::empty());
    assert(Seq::<char>::empty().push('/') =~= root);
    text::lemma_last_pos(root, '/', 0);
    assert(root.subrange(0, 1) =~= root);
}

/// Slashes that follow one another part a name from its directory as one does.
pub proof fn slashes_count_once(dir: Seq<char>, name: Seq<char>)
    requires
        dir.len() > 0,
        dir.last() != '/',
        dir.last() != '.',
        name.len() > 0,
        !name.contains('/'),
        name != "."@,
    ensures
        above(dir + seq!['/', '/'] + name) == Some(dir),
        above(dir + seq!['/'] + name) == Some(dir),
{
    reveal_strlit(".");
    let n = dir.len() as int;
    let twice = dir + seq!['/', '/'] + name;
    assert forall|j: int| n + 1 < j < twice.len() implies twice[j] != '/' by {
        assert(twice[j] == name[j - n - 2]);
        assert(name.contains(name[j - n - 2]));
    }
    text::lemma_last_pos(twice, '/', n + 1);
    assert(twice.subrange(n + 2, twice.len() as int) =~= name);
    let slash = dir.push('/');
    assert(twice.subrange(0, n + 1) =~= slash);
    text::lemma_last_pos(slash, '/', n);
    assert(slash.subrange(n + 1, slash.len() as int).len() == 0);
    assert(slash.subrange(0, n) =~= dir);
    let once = dir + seq!['/'] + name;
    assert forall|j: int| n < j < once.len() implies once[j] != '/' by {
        assert(once[j] == name[j - n - 1]);
        assert(name.contains(name[j - n - 1]));
    }
    text::lemma_last_pos(once, '/', n);
    assert(once.subrange(n + 1, once.len() as int) =~= name);
    assert(once.subrange(0, n) =~= dir);
    assert(settled(dir) == dir) by {
        text::lemma_last_pos_holds(dir, '/');
        match text::last_pos(dir, '/') {
            Some(i) => {
                let part = dir.subrange(i + 1, n);
                assert(part.len() > 0);
                assert(part.last() == dir.last());
            },
            None => {},
        }
    }
}

proof fn lemma_component_start_of_prefix(path: Seq<u8>, more: Seq<u8>, end: int)
    requires
        end <= path.len(),
    ensures
        component_start(path + more, end) == component_start(path, end),
    decreases end,
{
    if end > 0 {
        assert((path + more)[end - 1] == path[end - 1]);
        if path[end - 1] != 47 {
            lemma_component_start_of_prefix(path, more, end - 1);
        }
    }
}

proof fn lemma_name_range_of_prefix(path: Seq<u8>, more: Seq<u8>, end: int)
    requires
        0 <= end <= path.len(),
    ensures
        name_range(path + more, end) == name_range(path, end),
        name_range(path, end) matches Some(r) ==> 0 <= r.0 <= r.1 <= end,
    decreases end,
{
    lemma_component_start_of_prefix(path, more, end);
    lemma_component_start(path, end);
    let start = component_start(path, end);
    assert((path + more).subrange(start, end) =~= path.subrange(start, end));
    if start > 0 {
        lemma_name_range_of_prefix(path, more, start - 1);
    }
}

/// In bytes too, a `/` or a `.` component at the end of a path does not change its
/// name, and `..` is no name.
pub proof fn ends_in_bytes_that_do_not_count(path: Seq<u8>)
    ensures
        name_bytes(path + seq![47u8]) == name_bytes(path),
        name_bytes(path + seq![47u8, 46u8]) == name_bytes(path),
        name_bytes(path + seq![47u8, 46u8, 46u8]) is None,
{
    let n = path.len() as int;
    let slash = path + seq![47u8];
    lemma_component_starts_at(slash, n + 1, n + 1);
    assert(slash.subrange(n + 1, n + 1).len() == 0);
    lemma_name_range_of_prefix(path, seq![47u8], n);
    let dot = path + seq![47u8, 46u8];
    lemma_component_starts_at(dot, n + 1, n + 2);
    assert(dot.subrange(n + 1, n + 2) =~= seq![46u8]);
    lemma_name_range_of_prefix(path, seq![47u8, 46u8], n);
    let up = path + seq![47u8, 46u8, 46u8];
    lemma_component_starts_at(up, n + 1, n + 3);
    assert(up.subrange(n + 1, n + 3) =~= seq![46u8, 46u8]);
    assert(seq![46u8, 46u8].len() == 2 && seq![46u8].len() == 1);
    match name_range(path, n) {
        Some(r) => {
            assert(slash.subrange(r.0, r.1) =~= path.subrange(r.0, r.1));
            assert(dot.subrange(r.0, r.1) =~= path.subrange(r.0, r.1));
        },
        None => {},
    }
}

} // verus!
