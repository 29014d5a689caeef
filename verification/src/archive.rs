//! Tar archives that hold one file, and what an archive lists.

use vstd::prelude::*;
use vstd::slice::slice_subrange;
use vstd::utf8;
use crate::text;

verus! {

/// Size of a tar block.
pub const BLOCK: usize = 512;

/// The first number that 64 bits do not hold.
pub const LIMIT: u128 = 0x1_0000_0000_0000_0000;

/// Permission bits of an archived file.
pub const FILE_MODE: u32 = 420;

/// The header block that `tar` writes for a file, where it accepts the name.  That
/// depends on what separates the components of a path on the system: zero stands
/// for Unix, and other numbers for systems of other kinds.
pub uninterp spec fn header_on(system: int, name: Seq<char>, size: u64, mode: u32) -> Option<
    Seq<u8>,
>;

/// The path of each entry that `tar` lists in an archive, in bytes.  `None`
/// stands for an entry that cannot be read; nothing follows it.
pub uninterp spec fn entry_paths(archive: Seq<u8>) -> Seq<Option<Seq<u8>>>;

/// A name that means the same path on every system: none separates components
/// by anything but `/` in it, and none reads a drive at its start.
pub open spec fn is_portable(name: Seq<char>) -> bool {
    !name.contains('\\') && (name.len() < 2 || name[1] != ':')
}

/// A path of at most a hundred bytes, made of components between `/` that are
/// neither empty nor `.` nor `..`.
pub open spec fn is_normalized(name: Seq<char>) -> bool {
    &&& !name.contains('\0')
    &&& utf8::encode_utf8(name).len() <= 100
    &&& forall|i: int, j: int| #[trigger] is_component(name, i, j) ==> is_normal(name.subrange(i, j))
}

/// A normalized path whose components are separated by `/` on the system: on Unix
/// every one is, elsewhere it has to be portable.
pub open spec fn is_plain_on(system: int, name: Seq<char>) -> bool {
    is_normalized(name) && (system == 0 || is_portable(name))
}

/// A path that is plain on every system.
pub open spec fn is_plain(name: Seq<char>) -> bool {
    is_normalized(name) && is_portable(name)
}

/// `name[i..j]` is a stretch without `/` that `/` or the ends of `name` bound.
pub open spec fn is_component(name: Seq<char>, i: int, j: int) -> bool {
    &&& 0 <= i <= j <= name.len()
    &&& i == 0 || name[i - 1] == '/'
    &&& j == name.len() || name[j] == '/'
    &&& !name.subrange(i, j).contains('/')
}

/// A component that names a file or a directory.
pub open spec fn is_normal(part: Seq<char>) -> bool {
    part.len() > 0 && part != seq!['.'] && part != seq!['.', '.']
}

/// Zero bytes.
pub open spec fn zeros(n: int) -> Seq<u8> {
    Seq::new(n as nat, |i: int| 0u8)
}

/// Length of the padding behind `len` bytes of file data.
pub open spec fn padding(len: int) -> int {
    (512 - len % 512) % 512
}

/// An archive of one entry: the header block, the data filled up with zeros to
/// whole blocks, and two zero blocks.
pub open spec fn one_entry(header: Seq<u8>, data: Seq<u8>) -> Seq<u8> {
    header + data + zeros(padding(data.len() as int)) + zeros(1024)
}

/// What an attempt gave, without the words of an error.
pub open spec fn made(r: Result<Vec<u8>, String>) -> Option<Seq<u8>> {
    match r {
        Ok(b) => Some(b@),
        Err(_) => None,
    }
}

/// The header of a plain name is there and starts with the name.
pub open spec fn heads_plain(header: Option<Seq<u8>>, system: int, name: Seq<char>) -> bool {
    is_plain_on(system, name) ==> (header matches Some(h) && utf8::encode_utf8(name).is_prefix_of(
        h,
    ))
}

/// Calls `tar::Header::new_gnu`, `set_path`, `set_size`, `set_mode` and
/// `set_cksum`: the finished header block, or the words of the error with
/// which `set_path` refused the name.  The outcome depends on the arguments and
/// the kind of system, and for a portable name on the arguments alone; a name that
/// is plain there is accepted, and the block starts with it.  The type of the entry
/// stays zero, which stands for a regular file.  The kind of system and the wording
/// of the error are left open.
#[verifier::external_body]
fn tar_header(name: &str, size: u64, mode: u32) -> (r: Result<Vec<u8>, String>)
    ensures
        r matches Ok(h) ==> h@.len() == BLOCK,
        r matches Ok(h) ==> h@[156] == 0,
        exists|system: int|
            made(r) == #[trigger] header_on(system, name@, size, mode) && heads_plain(
                made(r),
                system,
                name@,
            ),
        is_portable(name@) ==> forall|system: int|
            made(r) == #[trigger] header_on(system, name@, size, mode) && heads_plain(
                made(r),
                system,
                name@,
            ),
{
    let mut header = tar::Header::new_gnu();
    header.set_path(name).map_err(|e| e.to_string())?;
    header.set_size(size);
    header.set_mode(mode);
    header.set_cksum();
    Ok(header.as_bytes().to_vec())
}

/// The archive lists this path and nothing else, and what is left of it lists the
/// path first, wherever it is cut off behind the header.
pub open spec fn holds_only(archive: Seq<u8>, path: Seq<u8>) -> bool {
    &&& entry_paths(archive) == seq![Some(path)]
    &&& forall|n: int|
        #![trigger archive.subrange(0, n)]
        BLOCK <= n <= archive.len() ==> entry_paths(archive.subrange(0, n)).len() > 0
            && entry_paths(archive.subrange(0, n))[0] == Some(path)
}

/// The archive lists the plain name for which its header was made, and nothing
/// else.
pub open spec fn lists_its_name(header: Seq<u8>, size: u64, archive: Seq<u8>) -> bool {
    forall|system: int, name: Seq<char>, mode: u32|
        is_plain_on(system, name) && #[trigger] header_on(system, name, size, mode) == Some(header)
            ==> holds_only(archive, utf8::encode_utf8(name))
}

/// Calls `tar::Builder::append` and `tar::Builder::into_inner` on a builder
/// over a `Vec`: the archive is the header, the padded data and the two
/// closing blocks; writing to a `Vec` does not fail.  An archive whose header
/// was made for a plain name and for the length of the data lists that name
/// and nothing else, and lists it first where it is cut off behind the header:
/// `tar` hands out an entry before it reads the data.
#[verifier::external_body]
fn tar_archive(header: &Vec<u8>, data: &[u8]) -> (r: Result<Vec<u8>, String>)
    requires
        header@.len() == BLOCK,
    ensures
        r is Ok,
        r matches Ok(a) ==> a@ == one_entry(header@, data@),
        r matches Ok(a) ==> lists_its_name(header@, data@.len() as u64, a@),
{
    let mut builder = tar::Builder::new(Vec::new());
    builder.append(tar::Header::from_byte_slice(header), data).map_err(|e| e.to_string())?;
    builder.into_inner().map_err(|e| e.to_string())
}

// ---------------------------------------------------------------------------
// What can be listed
// ---------------------------------------------------------------------------

/// The bytes `size=`, with which the size of an entry is recorded in an
/// extension.
pub open spec fn size_key() -> Seq<u8> {
    seq![115u8, 105u8, 122u8, 101u8, 61u8]
}

/// The bytes `ustar`, two spaces and a zero, which mark a GNU header.
pub open spec fn gnu_magic() -> Seq<u8> {
    seq![117u8, 115u8, 116u8, 97u8, 114u8, 32u8, 32u8, 0u8]
}

/// `part` stands in `a` from `at` on.
pub open spec fn stands_at(a: Seq<u8>, at: int, part: Seq<u8>) -> bool {
    0 <= at && at + part.len() <= a.len() && a.subrange(at, at + part.len() as int) == part
}

/// The block at `at` is the GNU header of a sparse file that further blocks
/// continue.
pub open spec fn is_extended_sparse(a: Seq<u8>, at: int) -> bool {
    &&& 0 <= at
    &&& at % 512 == 0
    &&& at + 512 <= a.len()
    &&& a[at + 156] == 83
    &&& stands_at(a, at + 257, gnu_magic())
    &&& a[at + 482] == 1
}

/// An entry of this size may lead beyond 64 bits in an archive of this length: the
/// position behind it does, when the blocks that continue its header are counted.
pub open spec fn leads_beyond(size: int, len: int) -> bool {
    size + len + 511 >= LIMIT
}

/// The size that the header at `at` gives in binary.
pub open spec fn binary_size(a: Seq<u8>, at: int) -> int {
    a[at + 128] * 0x100_0000_0000_0000 + a[at + 129] * 0x1_0000_0000_0000 + a[at + 130]
        * 0x100_0000_0000 + a[at + 131] * 0x1_0000_0000 + a[at + 132] * 0x100_0000 + a[at + 133]
        * 0x1_0000 + a[at + 134] * 0x100 + a[at + 135]
}

/// The header at `at` gives a size in binary that may lead beyond 64 bits.
pub open spec fn has_huge_size(a: Seq<u8>, at: int) -> bool {
    a[at + 124] >= 128 && leads_beyond(binary_size(a, at), a.len() as int)
}

/// Decimal digits.
pub open spec fn is_digits(s: Seq<u8>) -> bool {
    forall|i: int| 0 <= i < s.len() ==> 48 <= #[trigger] s[i] <= 57
}

/// The number that decimal digits stand for.
pub open spec fn number(s: Seq<u8>) -> int
    decreases s.len(),
{
    if s.len() == 0 {
        0
    } else {
        10 * number(s.drop_last()) + s.last() - 48
    }
}

/// `a[from..to]` is a number of 64 bits that may lead beyond them as a size.
pub open spec fn is_huge_number(a: Seq<u8>, from: int, to: int) -> bool {
    &&& 0 <= from < to <= a.len()
    &&& is_digits(a.subrange(from, to))
    &&& number(a.subrange(from, to)) < LIMIT
    &&& leads_beyond(number(a.subrange(from, to)), a.len() as int)
}

/// A number that may lead beyond 64 bits as a size starts at `from`.
pub open spec fn starts_huge_number(a: Seq<u8>, from: int) -> bool {
    exists|to: int| #[trigger] is_huge_number(a, from, to)
}

/// A size that may lead beyond 64 bits is recorded at `at`.
pub open spec fn is_huge_record(a: Seq<u8>, at: int) -> bool {
    &&& stands_at(a, at, size_key())
    &&& starts_huge_number(a, at + 5) || (at + 5 < a.len() && a[at + 5] == 43
        && starts_huge_number(a, at + 6))
}

/// A size that may lead beyond 64 bits is recorded somewhere.
pub open spec fn has_huge_record(a: Seq<u8>) -> bool {
    exists|at: int| #[trigger] is_huge_record(a, at)
}

/// The header at `at` may place what follows it beyond 64 bits.
pub open spec fn overflows_at(a: Seq<u8>, at: int) -> bool {
    is_extended_sparse(a, at) && (has_huge_size(a, at) || has_huge_record(a))
}

/// No header places what follows it beyond 64 bits.
pub open spec fn is_listable(a: Seq<u8>) -> bool {
    forall|at: int| !#[trigger] overflows_at(a, at)
}

/// The first block from `at` on whose header may place what follows it beyond
/// 64 bits, or else the end.
pub open spec fn first_overflow(a: Seq<u8>, at: int) -> int
    decreases a.len() - at,
{
    if at + 512 > a.len() {
        a.len() as int
    } else if overflows_at(a, at) {
        at
    } else {
        first_overflow(a, at + 512)
    }
}

/// The part of an archive before the first header that may place what follows it
/// beyond 64 bits.
pub open spec fn listable_part(a: Seq<u8>) -> Seq<u8> {
    a.subrange(0, first_overflow(a, 0))
}

proof fn lemma_first_overflow(a: Seq<u8>, at: int)
    requires
        0 <= at <= a.len(),
        at % 512 == 0,
    ensures
        at <= first_overflow(a, at) <= a.len(),
        forall|i: int| at <= i < first_overflow(a, at) ==> !#[trigger] overflows_at(a, i),
        is_listable(a) ==> first_overflow(a, at) == a.len(),
    decreases a.len() - at,
{
    if at + 512 <= a.len() && !overflows_at(a, at) {
        lemma_first_overflow(a, at + 512);
        assert forall|i: int| at <= i < first_overflow(a, at) implies !#[trigger] overflows_at(
            a,
            i,
        ) by {
            if at < i < at + 512 {
                assert(i % 512 != 0);
            }
        }
    }
}

/// A number that may lead beyond 64 bits in a part of an archive may do so in all of
/// it.
proof fn lemma_huge_number_stays(a: Seq<u8>, n: int, from: int)
    requires
        0 <= n <= a.len(),
        starts_huge_number(a.subrange(0, n), from),
    ensures
        starts_huge_number(a, from),
{
    let part = a.subrange(0, n);
    let to = choose|to: int| #[trigger] is_huge_number(part, from, to);
    assert(part.subrange(from, to) =~= a.subrange(from, to));
    assert(is_huge_number(a, from, to));
}

/// More digits do not make a number smaller.
proof fn lemma_number_grows(s: Seq<u8>, n: int)
    requires
        is_digits(s),
        0 <= n <= s.len(),
    ensures
        0 <= number(s.subrange(0, n)) <= number(s),
    decreases s.len(),
{
    if n < s.len() {
        assert(is_digits(s.drop_last()));
        lemma_number_grows(s.drop_last(), n);
        assert(s.drop_last().subrange(0, n) =~= s.subrange(0, n));
        assert(48 <= s[s.len() - 1] <= 57);
    } else {
        assert(s.subrange(0, n) =~= s);
        if s.len() > 0 {
            assert(is_digits(s.drop_last()));
            lemma_number_grows(s.drop_last(), n - 1);
            assert(s.drop_last().subrange(0, n - 1) =~= s.drop_last());
            assert(48 <= s[s.len() - 1] <= 57);
        }
    }
}

/// The listable part of an archive can be listed, and an archive that can be
/// listed is its own listable part.
pub proof fn lemma_listable_part(a: Seq<u8>)
    ensures
        0 <= first_overflow(a, 0) <= a.len(),
        is_listable(listable_part(a)),
        is_listable(a) ==> listable_part(a) == a,
{
    lemma_first_overflow(a, 0);
    let n = first_overflow(a, 0);
    let part = listable_part(a);
    assert forall|at: int| !#[trigger] overflows_at(part, at) by {
        if overflows_at(part, at) {
            assert(part.subrange(at + 257, at + 265) =~= a.subrange(at + 257, at + 265));
            assert(is_extended_sparse(a, at));
            if has_huge_record(part) {
                let k = choose|k: int| #[trigger] is_huge_record(part, k);
                assert(part.subrange(k, k + 5) =~= a.subrange(k, k + 5));
                if starts_huge_number(part, k + 5) {
                    lemma_huge_number_stays(a, n, k + 5);
                } else {
                    lemma_huge_number_stays(a, n, k + 6);
                }
                assert(is_huge_record(a, k));
            }
            assert(overflows_at(a, at));
        }
    }
    if is_listable(a) {
        assert(part =~= a);
    }
}

/// The header of a regular file at the start of an archive is in its listable
/// part.
pub proof fn lemma_first_header(a: Seq<u8>)
    requires
        a.len() >= BLOCK,
        a[156] == 0,
    ensures
        first_overflow(a, 0) >= BLOCK,
{
    lemma_first_overflow(a, 512);
}

fn check_part(a: &[u8], at: usize, part: &[u8]) -> (r: bool)
    requires
        at + part@.len() <= a@.len(),
    ensures
        r == stands_at(a@, at as int, part@),
{
    let rest: usize = a.len() - at;
    assert(part@.len() <= rest);
    let there: &[u8] = slice_subrange(a, at, at + part.len());
    text::same_bytes(there, part)
}

fn check_number(a: &[u8], from: usize) -> (r: bool)
    requires
        from <= a@.len(),
    ensures
        r == starts_huge_number(a@, from as int),
{
    let len: u128 = a.len() as u128;
    let mut v: u128 = 0;
    let mut to: usize = from;
    assert(a@.subrange(from as int, to as int) =~= Seq::<u8>::empty());
    while to < a.len()
        invariant
            from <= to <= a@.len(),
            len == a@.len(),
            len <= usize::MAX,
            v < LIMIT,
            is_digits(a@.subrange(from as int, to as int)),
            v == number(a@.subrange(from as int, to as int)),
            forall|t: int| t <= to ==> !#[trigger] is_huge_number(a@, from as int, t),
        decreases a@.len() - to,
    {
        let d: u8 = a[to];
        let ghost next = a@.subrange(from as int, to + 1);
        assert(next.drop_last() =~= a@.subrange(from as int, to as int));
        assert(next.last() == d);
        if d < 48 || d > 57 {
            assert forall|t: int| !#[trigger] is_huge_number(a@, from as int, t) by {
                if t > to && is_huge_number(a@, from as int, t) {
                    assert(a@.subrange(from as int, t)[to - from] == d);
                }
            }
            return false;
        }
        assert forall|i: int| 0 <= i < next.len() implies 48 <= #[trigger] next[i] <= 57 by {
            if i < next.len() - 1 {
                assert(next[i] == a@.subrange(from as int, to as int)[i]);
            }
        }
        v = v * 10 + (d - 48) as u128;
        to += 1;
        if v >= LIMIT {
            assert forall|t: int| !#[trigger] is_huge_number(a@, from as int, t) by {
                if t >= to && is_huge_number(a@, from as int, t) {
                    lemma_number_grows(a@.subrange(from as int, t), to - from);
                    assert(a@.subrange(from as int, t).subrange(0, to - from) =~= next);
                }
            }
            return false;
        }
        if v + len + 511 >= LIMIT {
            assert(is_huge_number(a@, from as int, to as int));
            return true;
        }
    }
    false
}

fn check_record(a: &[u8], at: usize) -> (r: bool)
    requires
        at < a@.len(),
    ensures
        r == is_huge_record(a@, at as int),
{
    if a.len() - at < 5 {
        return false;
    }
    let key: [u8; 5] = [115, 105, 122, 101, 61];
    assert(key@ =~= size_key());
    if !check_part(a, at, key.as_slice()) {
        return false;
    }
    check_number(a, at + 5) || (at + 5 < a.len() && a[at + 5] == 43 && check_number(a, at + 6))
}

fn check_records(a: &[u8]) -> (r: bool)
    ensures
        r == has_huge_record(a@),
{
    let mut i: usize = 0;
    while i < a.len()
        invariant
            i <= a@.len(),
            forall|j: int| 0 <= j < i ==> !#[trigger] is_huge_record(a@, j),
        decreases a@.len() - i,
    {
        if check_record(a, i) {
            return true;
        }
        i += 1;
    }
    false
}

fn check_sparse(a: &[u8], at: usize) -> (r: bool)
    requires
        at % 512 == 0,
        at + 512 <= a@.len(),
    ensures
        r == is_extended_sparse(a@, at as int),
{
    if a[at + 156] != 83 || a[at + 482] != 1 {
        return false;
    }
    let magic: [u8; 8] = [117, 115, 116, 97, 114, 32, 32, 0];
    assert(magic@ =~= gnu_magic());
    check_part(a, at + 257, magic.as_slice())
}

fn check_size(a: &[u8], at: usize) -> (r: bool)
    requires
        at + 512 <= a@.len(),
    ensures
        r == has_huge_size(a@, at as int),
{
    let len: usize = a.len();
    if a[at + 124] < 128 {
        return false;
    }
    let size: u128 = a[at + 128] as u128 * 0x100_0000_0000_0000 + a[at + 129] as u128
        * 0x1_0000_0000_0000 + a[at + 130] as u128 * 0x100_0000_0000 + a[at + 131] as u128
        * 0x1_0000_0000 + a[at + 132] as u128 * 0x100_0000 + a[at + 133] as u128 * 0x1_0000 + a[at
        + 134] as u128 * 0x100 + a[at + 135] as u128;
    size + len as u128 + 511 >= LIMIT
}

/// The length of the listable part of an archive.
pub fn listable_len(a: &[u8]) -> (r: usize)
    ensures
        r <= a@.len(),
        r == first_overflow(a@, 0),
{
    let mut recorded: Option<bool> = None;
    let mut at: usize = 0;
    while a.len() - at >= 512
        invariant
            at <= a@.len(),
            at % 512 == 0,
            first_overflow(a@, 0) == first_overflow(a@, at as int),
            recorded matches Some(b) ==> b == has_huge_record(a@),
        decreases a@.len() - at,
    {
        if check_sparse(a, at) {
            let huge: bool = if check_size(a, at) {
                true
            } else {
                match recorded {
                    Some(b) => b,
                    None => {
                        let b: bool = check_records(a);
                        recorded = Some(b);
                        b
                    },
                }
            };
            if huge {
                return at;
            }
        }
        at += 512;
    }
    a.len()
}

/// The contents of a list of optional byte strings.
pub open spec fn opt_bytes(v: Seq<Option<Vec<u8>>>) -> Seq<Option<Seq<u8>>> {
    v.map_values(
        |o: Option<Vec<u8>>|
            match o {
                Some(b) => Some(b@),
                None => None,
            },
    )
}

/// Calls `tar::Archive::entries` and `tar::Entry::path_bytes`: the path of
/// each entry in turn, in bytes.  The list ends with the last entry, or with
/// `None` at the first one that `tar` cannot read.  `tar` adds to the position
/// behind the header of a sparse file without a test; archives in which that may
/// exceed 64 bits are left out.
#[verifier::external_body]
pub(crate) fn list_entries(archive: &[u8]) -> (r: Vec<Option<Vec<u8>>>)
    requires
        is_listable(archive@),
    ensures
        opt_bytes(r@) == entry_paths(archive@),
{
    match tar::Archive::new(archive).entries() {
        Ok(entries) => entries.map(|e| e.ok().map(|e| e.path_bytes().into_owned())).collect(),
        Err(_) => vec![None],
    }
}

// ---------------------------------------------------------------------------
// Archives of one file
// ---------------------------------------------------------------------------

/// The archive of one file with permission bits `0644`, where its name can stand in
/// one on the system.
pub open spec fn file_archive(system: int, name: Seq<char>, data: Seq<u8>) -> Option<Seq<u8>> {
    match header_on(system, name, data.len() as u64, FILE_MODE) {
        Some(h) => Some(one_entry(h, data)),
        None => None,
    }
}

/// The archive of one regular file: it starts with the path, and lists it and
/// nothing else.
pub open spec fn is_packed(archive: Seq<u8>, path: Seq<u8>) -> bool {
    &&& holds_only(archive, path)
    &&& path.is_prefix_of(archive)
    &&& archive.len() >= BLOCK
    &&& archive[156] == 0
}

/// The archive of the file on the system, or none where its name cannot stand in
/// one.  Under a plain name the file is packed.
pub open spec fn packs(
    archive: Option<Seq<u8>>,
    system: int,
    name: Seq<char>,
    data: Seq<u8>,
) -> bool {
    &&& archive == file_archive(system, name, data)
    &&& is_plain_on(system, name) ==> (archive matches Some(a) && is_packed(
        a,
        utf8::encode_utf8(name),
    ))
}

/// The archive of the file on the system at hand.  For a portable name that is the
/// same everywhere.
pub open spec fn packs_here(archive: Option<Seq<u8>>, name: Seq<char>, data: Seq<u8>) -> bool {
    &&& exists|system: int| #[trigger] packs(archive, system, name, data)
    &&& is_portable(name) ==> forall|system: int| #[trigger] packs(archive, system, name, data)
}

/// Builds an uncompressed archive that holds `data` as the one file `name`.
/// The error is the reason why the name cannot stand in an archive.
pub fn make_single_file_tar(name: &str, data: &[u8]) -> (r: Result<Vec<u8>, String>)
    ensures
        packs_here(made(r), name@, data@),
        r matches Ok(a) ==> exists|h: Seq<u8>|
            h.len() == BLOCK && a@ == #[trigger] one_entry(h, data@),
{
    let header: Vec<u8> = match tar_header(name, data.len() as u64, FILE_MODE) {
        Ok(h) => h,
        Err(e) => {
            proof {
                let failed: Option<Seq<u8>> = None;
                let system = choose|system: int|
                    failed == #[trigger] header_on(system, name@, data@.len() as u64, FILE_MODE)
                        && heads_plain(failed, system, name@);
                assert(packs(failed, system, name@, data@));
                if is_portable(name@) {
                    assert forall|system: int| #[trigger]
                        packs(failed, system, name@, data@) by {
                        assert(failed == header_on(system, name@, data@.len() as u64, FILE_MODE));
                    }
                }
            }
            return Err(e);
        },
    };
    assert(header@.is_prefix_of(one_entry(header@, data@)));
    let r: Result<Vec<u8>, String> = tar_archive(&header, data);
    proof {
        let head = Some(header@);
        let size = data@.len() as u64;
        let system = choose|system: int|
            head == #[trigger] header_on(system, name@, size, FILE_MODE) && heads_plain(
                head,
                system,
                name@,
            );
        assert(packs(made(r), system, name@, data@));
        if is_portable(name@) {
            assert forall|system: int| #[trigger] packs(made(r), system, name@, data@) by {
                assert(head == header_on(system, name@, size, FILE_MODE));
            }
        }
    }
    r
}

/// Under a path that is plain on every system a file is packed, whatever the
/// system.
pub proof fn plain_file_is_packed(archive: Option<Seq<u8>>, name: Seq<char>, data: Seq<u8>)
    requires
        packs_here(archive, name, data),
        is_plain(name),
    ensures
        archive matches Some(a) && is_packed(a, utf8::encode_utf8(name)),
{
    assert(packs(archive, 0, name, data));
}

/// A file can be read back out of its archive: its bytes stand behind the
/// header block, as they were.
pub proof fn archive_keeps_the_file(header: Seq<u8>, data: Seq<u8>)
    requires
        header.len() == BLOCK,
    ensures
        one_entry(header, data).subrange(512, 512 + data.len() as int) == data,
        one_entry(header, data).len() % 512 == 0,
{
    assert(one_entry(header, data).subrange(512, 512 + data.len() as int) =~= data);
}

/// The archive of a file is its header, its bytes, and zeros: as many as fill up the
/// last block, and two blocks more.
pub proof fn archive_is_header_file_and_zeros(header: Seq<u8>, data: Seq<u8>, blocks: int)
    requires
        header.len() == 512,
        512 * (blocks - 1) < data.len() <= 512 * blocks,
    ensures
        header.is_prefix_of(one_entry(header, data)),
        one_entry(header, data).subrange(512, 512 + data.len() as int) == data,
        one_entry(header, data).len() == 512 + 512 * blocks + 1024,
        forall|i: int|
            512 + data.len() <= i < one_entry(header, data).len() ==> #[trigger] one_entry(
                header,
                data,
            )[i] == 0,
{
    let all = one_entry(header, data);
    assert(all.subrange(0, 512) =~= header);
    assert(all.subrange(512, 512 + data.len() as int) =~= data);
    let n = data.len() as int;
    assert(padding(n) == 512 * blocks - n) by {
        let gap = 512 * blocks - n;
        assert(0 <= gap < 512);
        assert(n == 512 * blocks - gap);
        assert(n % 512 == (512 - gap) % 512);
    }
}

/// A file is archived as it stands, with its length and the permission bits `0644`.
pub proof fn file_is_archived_as_it_stands(system: int, name: Seq<char>, data: Seq<u8>)
    ensures
        header_on(system, name, data.len() as u64, 0o644) matches Some(h) ==> file_archive(
            system,
            name,
            data,
        ) == Some(one_entry(h, data)),
        header_on(system, name, data.len() as u64, 0o644) is None ==> file_archive(
            system,
            name,
            data,
        ) is None,
{
}

/// The paths that are listed are those of every entry, in their order.
pub proof fn every_entry_is_listed(v: Seq<Option<Vec<u8>>>)
    ensures
        opt_bytes(v).len() == v.len(),
        forall|i: int|
            0 <= i < v.len() ==> ((#[trigger] v[i]) matches Some(b) ==> opt_bytes(v)[i] == Some(b@)),
        forall|i: int| 0 <= i < v.len() ==> (#[trigger] v[i]) is None ==> opt_bytes(v)[i] is None,
{
}

/// A name is portable where it holds no `\\` and no `:` as its second character.
pub proof fn portable_names(name: Seq<char>)
    ensures
        is_portable(name) == (!name.contains('\\') && (name.len() >= 2 ==> name[1] != ':')),
{
}

/// What is built for a file is the archive with the header for its name, its length
/// and its permission bits, and the file's bytes behind it, or nothing where the name
/// has no header.
pub proof fn built_archive_holds_the_file(
    archive: Option<Seq<u8>>,
    name: Seq<char>,
    data: Seq<u8>,
)
    requires
        packs_here(archive, name, data),
    ensures
        exists|system: int|
            archive == (match #[trigger] header_on(system, name, data.len() as u64, 0o644) {
                Some(h) => Some(one_entry(h, data)),
                None => None,
            }),
        is_portable(name) ==> forall|system: int|
            archive == (match #[trigger] header_on(system, name, data.len() as u64, 0o644) {
                Some(h) => Some(one_entry(h, data)),
                None => None,
            }),
{
    let system = choose|system: int| #[trigger] packs(archive, system, name, data);
    file_is_archived_as_it_stands(system, name, data);
    let size = data.len() as u64;
    assert(archive == (match header_on(system, name, size, 0o644) {
        Some(h) => Some(one_entry(h, data)),
        None => None,
    }));
    if is_portable(name) {
        assert forall|system: int|
            archive == (match #[trigger] header_on(system, name, size, 0o644) {
                Some(h) => Some(one_entry(h, data)),
                None => None,
            }) by {
            assert(packs(archive, system, name, data));
            file_is_archived_as_it_stands(system, name, data);
        }
    }
}

/// An archive without sparse files can be listed from its start to its end.
pub proof fn ordinary_archives_can_be_listed(a: Seq<u8>)
    requires
        forall|at: int| 0 <= at && at % 512 == 0 && at + 512 <= a.len() ==> #[trigger] a[at + 156] != 83,
    ensures
        is_listable(a),
        listable_part(a) == a,
{
    assert forall|at: int| !#[trigger] overflows_at(a, at) by {
        if overflows_at(a, at) {
            assert(a[at + 156] != 83);
        }
    }
    lemma_listable_part(a);
}

/// A sparse file whose size, written in binary, is the largest that 64 bits hold ends
/// what can be listed.
pub proof fn oversized_sparse_files_end_the_list(a: Seq<u8>, at: int)
    requires
        0 <= at,
        at % 512 == 0,
        at + 512 <= a.len(),
        a[at + 156] == 83,
        a.subrange(at + 257, at + 265) == seq![117u8, 115u8, 116u8, 97u8, 114u8, 32u8, 32u8, 0u8],
        a[at + 482] == 1,
        a[at + 124] >= 128,
        forall|i: int| 128 <= i < 136 ==> #[trigger] a[at + i] == 255,
    ensures
        !is_listable(a),
{
    assert(a[at + 128] == 255 && a[at + 129] == 255 && a[at + 130] == 255 && a[at + 131] == 255);
    assert(a[at + 132] == 255 && a[at + 133] == 255 && a[at + 134] == 255 && a[at + 135] == 255);
    assert(stands_at(a, at + 257, gnu_magic()));
    assert(overflows_at(a, at));
}

/// A file name that no system reads otherwise, of at most 100 bytes, is plain.
pub proof fn file_names_are_plain(name: Seq<char>)
    requires
        name.len() > 0,
        name != seq!['.'],
        name != seq!['.', '.'],
        !name.contains('/'),
        !name.contains('\0'),
        !name.contains('\\'),
        name.len() >= 2 ==> name[1] != ':',
        utf8::encode_utf8(name).len() <= 100,
    ensures
        is_plain(name),
{
    assert forall|i: int, j: int| #[trigger] is_component(name, i, j) implies is_normal(
        name.subrange(i, j),
    ) by {
        if i > 0 {
            assert(name.contains(name[i - 1]));
        }
        if j < name.len() {
            assert(name.contains(name[j]));
        }
        assert(name.subrange(0, name.len() as int) =~= name);
    }
}

} // verus!
