//! Text: what the operations on strings mean over sequences of characters,
//! and the operations themselves.

use vstd::prelude::*;
use vstd::utf8;

verus! {

// ---------------------------------------------------------------------------
// Meaning
// ---------------------------------------------------------------------------

/// Position of the first `c` in `s`.
pub open spec fn first_pos(s: Seq<char>, c: char) -> Option<int>
    decreases s.len(),
{
    if s.len() == 0 {
        None
    } else if s[0] == c {
        Some(0int)
    } else {
        match first_pos(s.drop_first(), c) {
            Some(i) => Some(i + 1),
            None => None,
        }
    }
}

/// Position of the last `c` in `s`.
pub open spec fn last_pos(s: Seq<char>, c: char) -> Option<int>
    decreases s.len(),
{
    if s.len() == 0 {
        None
    } else if s.last() == c {
        Some(s.len() - 1)
    } else {
        last_pos(s.drop_last(), c)
    }
}

/// What stands before the first `c`, and what stands after it.
pub open spec fn split_at_first(s: Seq<char>, c: char) -> Option<(Seq<char>, Seq<char>)> {
    match first_pos(s, c) {
        Some(i) => Some((s.subrange(0, i), s.subrange(i + 1, s.len() as int))),
        None => None,
    }
}

/// `s` without the prefix `p`.
pub open spec fn without_prefix(s: Seq<char>, p: Seq<char>) -> Option<Seq<char>> {
    if p.is_prefix_of(s) {
        Some(s.subrange(p.len() as int, s.len() as int))
    } else {
        None
    }
}

/// `s` without the suffix `p`.
pub open spec fn without_suffix(s: Seq<char>, p: Seq<char>) -> Option<Seq<char>> {
    if p.is_suffix_of(s) {
        Some(s.subrange(0, s.len() - p.len()))
    } else {
        None
    }
}

/// `s` without `p` at its start, as often as it stands there.
pub open spec fn without_prefixes(s: Seq<char>, p: Seq<char>) -> Seq<char>
    decreases s.len(),
{
    if p.len() > 0 && p.is_prefix_of(s) {
        without_prefixes(s.subrange(p.len() as int, s.len() as int), p)
    } else {
        s
    }
}

/// `p` stands somewhere in `s`.
pub open spec fn has_part(s: Seq<char>, p: Seq<char>) -> bool {
    exists|i: int| #[trigger] part_at(s, p, i)
}

/// `p` stands in `s` from position `i` on.
pub open spec fn part_at(s: Seq<char>, p: Seq<char>, i: int) -> bool {
    0 <= i && i + p.len() <= s.len() && s.subrange(i, i + p.len()) == p
}

/// The characters with the Unicode property White_Space.
pub open spec fn is_white(c: char) -> bool {
    ||| '\u{9}' <= c <= '\u{d}'
    ||| c == '\u{20}'
    ||| c == '\u{85}'
    ||| c == '\u{a0}'
    ||| c == '\u{1680}'
    ||| '\u{2000}' <= c <= '\u{200a}'
    ||| c == '\u{2028}'
    ||| c == '\u{2029}'
    ||| c == '\u{202f}'
    ||| c == '\u{205f}'
    ||| c == '\u{3000}'
}

/// `s` without white space at its start.
pub open spec fn trimmed_start(s: Seq<char>) -> Seq<char>
    decreases s.len(),
{
    if s.len() > 0 && is_white(s[0]) {
        trimmed_start(s.drop_first())
    } else {
        s
    }
}

/// `s` without white space at its end.
pub open spec fn trimmed_end(s: Seq<char>) -> Seq<char>
    decreases s.len(),
{
    if s.len() > 0 && is_white(s.last()) {
        trimmed_end(s.drop_last())
    } else {
        s
    }
}

/// `s` without white space at either end.
pub open spec fn trimmed(s: Seq<char>) -> Seq<char> {
    trimmed_end(trimmed_start(s))
}

/// `s` without `c` at its end, as often as it stands there.
pub open spec fn without_last(s: Seq<char>, c: char) -> Seq<char>
    decreases s.len(),
{
    if s.len() > 0 && s.last() == c {
        without_last(s.drop_last(), c)
    } else {
        s
    }
}

/// `s` without line feeds and carriage returns at its end.
pub open spec fn without_line_end(s: Seq<char>) -> Seq<char>
    decreases s.len(),
{
    if s.len() > 0 && (s.last() == '\n' || s.last() == '\r') {
        without_line_end(s.drop_last())
    } else {
        s
    }
}

/// `c`, with `A` to `Z` turned to lower case.
pub open spec fn ascii_lower(c: char) -> char {
    if 'A' <= c <= 'Z' {
        ((c as u32 + 32) as u32) as char
    } else {
        c
    }
}

/// `a` and `b` differ at most in the case of ASCII letters.
pub open spec fn same_but_case(a: Seq<char>, b: Seq<char>) -> bool {
    &&& a.len() == b.len()
    &&& forall|i: int| 0 <= i < a.len() ==> ascii_lower(#[trigger] a[i]) == ascii_lower(b[i])
}

/// `s`, with `A` to `Z` turned to lower case.
pub open spec fn ascii_lowered(s: Seq<char>) -> Seq<char> {
    s.map_values(|c: char| ascii_lower(c))
}

/// The lower case of a text with characters beyond ASCII.
pub uninterp spec fn unicode_lowered(s: Seq<char>) -> Seq<char>;

/// The lower case of a text.  Of ASCII characters exactly the letters `A` to `Z`
/// change.
pub open spec fn lowered(s: Seq<char>) -> Seq<char> {
    if utf8::is_ascii_chars(s) {
        ascii_lowered(s)
    } else {
        unicode_lowered(s)
    }
}

/// What `String::from_utf8_lossy` reads from bytes.
pub uninterp spec fn decoded(bytes: Seq<u8>) -> Seq<char>;

/// A text in quotes, as `Debug` writes it.
pub uninterp spec fn quoted(s: Seq<char>) -> Seq<char>;

/// The parts, with `sep` between each two neighbours.
pub open spec fn joined(parts: Seq<Seq<char>>, sep: Seq<char>) -> Seq<char>
    decreases parts.len(),
{
    if parts.len() == 0 {
        Seq::<char>::empty()
    } else if parts.len() == 1 {
        parts[0]
    } else {
        joined(parts.drop_last(), sep) + sep + parts.last()
    }
}

/// `s`, filled up with spaces on the right to `width` characters.
pub open spec fn padded(s: Seq<char>, width: int) -> Seq<char> {
    if s.len() >= width {
        s
    } else {
        s + Seq::new((width - s.len()) as nat, |i: int| ' ')
    }
}

/// The decimal digit for `d`.
pub open spec fn digit(d: int) -> char {
    ((48 + d) as u32) as char
}

/// `n` in decimal.
pub open spec fn decimal(n: nat) -> Seq<char>
    decreases n,
{
    if n < 10 {
        seq![digit(n as int)]
    } else {
        decimal(n / 10).push(digit((n % 10) as int))
    }
}

/// The hexadecimal digit for `d`, in lower case.
pub open spec fn hex_digit(d: int) -> char {
    if d < 10 {
        ((48 + d) as u32) as char
    } else {
        ((87 + d) as u32) as char
    }
}

/// The last `width` hexadecimal digits of `n`, leading zeros included.
pub open spec fn hex_padded(n: nat, width: nat) -> Seq<char>
    decreases width,
{
    if width == 0 {
        Seq::<char>::empty()
    } else {
        hex_padded(n / 16, (width - 1) as nat).push(hex_digit((n % 16) as int))
    }
}

/// The contents of a list of strings.
pub open spec fn texts(v: Seq<String>) -> Seq<Seq<char>> {
    v.map_values(|s: String| s@)
}

/// The contents of an optional string.
pub open spec fn opt_text(o: Option<String>) -> Option<Seq<char>> {
    match o {
        Some(s) => Some(s@),
        None => None,
    }
}

/// The contents of an optional string slice.
pub open spec fn opt_str(o: Option<&str>) -> Option<Seq<char>> {
    match o {
        Some(s) => Some(s@),
        None => None,
    }
}

// ---------------------------------------------------------------------------
// Facts
// ---------------------------------------------------------------------------

/// A position that holds `c`, with no `c` before it, is the first one.
pub proof fn lemma_first_pos(s: Seq<char>, c: char, i: int)
    requires
        0 <= i < s.len(),
        s[i] == c,
        forall|j: int| 0 <= j < i ==> s[j] != c,
    ensures
        first_pos(s, c) == Some(i),
    decreases s.len(),
{
    if i > 0 {
        assert(s[0] != c);
        lemma_first_pos(s.drop_first(), c, i - 1);
    }
}

/// Without a `c` there is no first one.
pub proof fn lemma_first_pos_none(s: Seq<char>, c: char)
    requires
        forall|j: int| 0 <= j < s.len() ==> s[j] != c,
    ensures
        first_pos(s, c) is None,
    decreases s.len(),
{
    if s.len() > 0 {
        assert(s[0] != c);
        lemma_first_pos_none(s.drop_first(), c);
    }
}

/// The first position holds `c`, and none before it does.
pub proof fn lemma_first_pos_holds(s: Seq<char>, c: char)
    ensures
        match first_pos(s, c) {
            Some(i) => 0 <= i < s.len() && s[i] == c && forall|j: int| 0 <= j < i ==> s[j] != c,
            None => forall|j: int| 0 <= j < s.len() ==> s[j] != c,
        },
    decreases s.len(),
{
    if s.len() > 0 && s[0] != c {
        let t = s.drop_first();
        lemma_first_pos_holds(t, c);
        match first_pos(t, c) {
            Some(i) => {
                assert forall|j: int| 0 <= j < i + 1 implies s[j] != c by {
                    if j > 0 {
                        assert(t[j - 1] == s[j]);
                    }
                }
            },
            None => {
                assert forall|j: int| 0 <= j < s.len() implies s[j] != c by {
                    if j > 0 {
                        assert(t[j - 1] == s[j]);
                    }
                }
            },
        }
    }
}

/// A position that holds `c`, with no `c` after it, is the last one.
pub proof fn lemma_last_pos(s: Seq<char>, c: char, i: int)
    requires
        0 <= i < s.len(),
        s[i] == c,
        forall|j: int| i < j < s.len() ==> s[j] != c,
    ensures
        last_pos(s, c) == Some(i),
    decreases s.len(),
{
    if i < s.len() - 1 {
        assert(s.last() != c);
        lemma_last_pos(s.drop_last(), c, i);
    }
}

/// Without a `c` there is no last one.
pub proof fn lemma_last_pos_none(s: Seq<char>, c: char)
    requires
        forall|j: int| 0 <= j < s.len() ==> s[j] != c,
    ensures
        last_pos(s, c) is None,
    decreases s.len(),
{
    if s.len() > 0 {
        assert(s.last() != c);
        lemma_last_pos_none(s.drop_last(), c);
    }
}

/// The last position holds `c`, and none after it does.
pub proof fn lemma_last_pos_holds(s: Seq<char>, c: char)
    ensures
        match last_pos(s, c) {
            Some(i) => 0 <= i < s.len() && s[i] == c && forall|j: int|
                i < j < s.len() ==> s[j] != c,
            None => forall|j: int| 0 <= j < s.len() ==> s[j] != c,
        },
    decreases s.len(),
{
    if s.len() > 0 && s.last() != c {
        let t = s.drop_last();
        lemma_last_pos_holds(t, c);
        assert(forall|j: int| 0 <= j < t.len() ==> t[j] == s[j]);
    }
}

/// A number is known by its decimal digits.
pub proof fn lemma_decimal_is_injective(a: nat, b: nat)
    requires
        decimal(a) == decimal(b),
    ensures
        a == b,
    decreases a,
{
    let x = decimal(a);
    let y = decimal(b);
    lemma_decimal_has_digits(a);
    lemma_decimal_has_digits(b);
    assert(x.last() == y.last());
    assert(digit((a % 10) as int) == digit((b % 10) as int));
    assert(a % 10 == b % 10);
    if a >= 10 && b >= 10 {
        assert(x.drop_last() =~= decimal(a / 10));
        assert(y.drop_last() =~= decimal(b / 10));
        lemma_decimal_is_injective(a / 10, b / 10);
    } else if a >= 10 {
        lemma_decimal_has_digits(a / 10);
    } else if b >= 10 {
        lemma_decimal_has_digits(b / 10);
    }
}

proof fn lemma_decimal_has_digits(n: nat)
    ensures
        decimal(n).len() > 0,
        decimal(n).last() == digit((n % 10) as int),
{
}

// ---------------------------------------------------------------------------
// Operations
// ---------------------------------------------------------------------------

/// `String::push` appends one character.
pub assume_specification[ String::push ](s: &mut String, c: char)
    ensures
        final(s)@ == old(s)@.push(c),
;

/// Calls `str::to_lowercase`: the lower case of `s`.  In a text of ASCII
/// characters exactly the letters `A` to `Z` change; what becomes of other texts
/// is not described.
#[verifier::external_body]
pub(crate) fn to_lowercase(s: &str) -> (r: String)
    ensures
        utf8::is_ascii_chars(s@) ==> r@ == ascii_lowered(s@),
        !utf8::is_ascii_chars(s@) ==> r@ == unicode_lowered(s@),
{
    s.to_lowercase()
}

/// Formats a text with `{:?}`: in quotes, with escapes.  The escapes are not
/// described.
#[verifier::external_body]
pub(crate) fn quote(s: &str) -> (r: String)
    ensures
        r@ == quoted(s@),
{
    format!("{s:?}")
}

/// Calls `String::from_utf8_lossy`: the text that the bytes encode in UTF-8,
/// with replacement characters where they do not encode one.
#[verifier::external_body]
pub(crate) fn decode_lossy(bytes: &[u8]) -> (r: String)
    ensures
        r@ == decoded(bytes@),
        utf8::valid_utf8(bytes@) ==> r@ == utf8::decode_utf8(bytes@),
{
    String::from_utf8_lossy(bytes).into_owned()
}

/// The text that the bytes encode in UTF-8, where they encode one.
pub fn utf8_text(bytes: &[u8]) -> (r: Option<String>)
    ensures
        match r {
            Some(s) => utf8::valid_utf8(bytes@) && s@ == utf8::decode_utf8(bytes@),
            None => !utf8::valid_utf8(bytes@),
        },
{
    let s: String = decode_lossy(bytes);
    if same_bytes(s.as_str().as_bytes(), bytes) {
        proof {
            utf8::encode_utf8_valid_utf8(s@);
            utf8::encode_utf8_decode_utf8(s@);
        }
        Some(s)
    } else {
        proof {
            if utf8::valid_utf8(bytes@) {
                utf8::decode_utf8_encode_utf8(bytes@);
            }
        }
        None
    }
}

/// Whether two slices hold the same bytes.
pub fn same_bytes(a: &[u8], b: &[u8]) -> (r: bool)
    ensures
        r == (a@ == b@),
{
    if a.len() != b.len() {
        return false;
    }
    let mut i: usize = 0;
    while i < a.len()
        invariant
            i <= a@.len(),
            a@.len() == b@.len(),
            forall|j: int| 0 <= j < i ==> a@[j] == b@[j],
        decreases a@.len() - i,
    {
        if a[i] != b[i] {
            assert(a@[i as int] != b@[i as int]);
            return false;
        }
        i += 1;
    }
    assert(a@ =~= b@);
    true
}

/// The characters of `s`.
pub fn chars_of(s: &str) -> (v: Vec<char>)
    ensures
        v@ == s@,
{
    let mut v: Vec<char> = Vec::new();
    for c in it: s.chars()
        invariant
            v@.len() == it.index(),
            it.seq() == s@,
            forall|j: int| 0 <= j < v@.len() ==> v@[j] == it.seq()[j],
    {
        v.push(c);
    }
    v
}

/// Whether two strings hold the same characters.
pub fn same(a: &str, b: &str) -> (r: bool)
    ensures
        r == (a@ == b@),
{
    let x: Vec<char> = chars_of(a);
    let y: Vec<char> = chars_of(b);
    if x.len() != y.len() {
        return false;
    }
    let mut i: usize = 0;
    while i < x.len()
        invariant
            i <= x.len(),
            x.len() == y.len(),
            x@ == a@,
            y@ == b@,
            forall|j: int| 0 <= j < i ==> x@[j] == y@[j],
        decreases x.len() - i,
    {
        if x[i] != y[i] {
            return false;
        }
        i += 1;
    }
    assert(a@ =~= b@);
    true
}

/// `a` followed by `b`.
pub fn concat2(a: &str, b: &str) -> (r: String)
    ensures
        r@ == a@ + b@,
{
    let mut r: String = a.to_string();
    r.append(b);
    r
}

/// `a` followed by `b` and `c`.
pub fn concat3(a: &str, b: &str, c: &str) -> (r: String)
    ensures
        r@ == a@ + b@ + c@,
{
    let mut r: String = a.to_string();
    r.append(b);
    r.append(c);
    r
}

/// Position of the first `c`.
pub fn find_char(v: &Vec<char>, c: char) -> (r: Option<usize>)
    ensures
        match r {
            Some(i) => i < v.len() && first_pos(v@, c) == Some(i as int),
            None => first_pos(v@, c) is None,
        },
{
    let mut i: usize = 0;
    while i < v.len()
        invariant
            i <= v.len(),
            forall|j: int| 0 <= j < i ==> v@[j] != c,
        decreases v.len() - i,
    {
        if v[i] == c {
            proof {
                lemma_first_pos(v@, c, i as int);
            }
            return Some(i);
        }
        i += 1;
    }
    proof {
        lemma_first_pos_none(v@, c);
    }
    None
}

/// Position of the last `c`.
pub fn rfind_char(v: &Vec<char>, c: char) -> (r: Option<usize>)
    ensures
        match r {
            Some(i) => i < v.len() && last_pos(v@, c) == Some(i as int),
            None => last_pos(v@, c) is None,
        },
{
    let mut i: usize = v.len();
    while i > 0
        invariant
            i <= v.len(),
            forall|j: int| i <= j < v.len() ==> v@[j] != c,
        decreases i,
    {
        i -= 1;
        if v[i] == c {
            proof {
                lemma_last_pos(v@, c, i as int);
            }
            return Some(i);
        }
    }
    proof {
        lemma_last_pos_none(v@, c);
    }
    None
}

/// Whether `c` occurs in `s`.
pub fn has_char(s: &str, c: char) -> (r: bool)
    ensures
        r == s@.contains(c),
{
    let v: Vec<char> = chars_of(s);
    proof {
        lemma_first_pos_holds(v@, c);
    }
    match find_char(&v, c) {
        Some(i) => {
            assert(s@[i as int] == c);
            true
        },
        None => false,
    }
}

/// Splits at the first `c`.
pub fn split_once<'a>(s: &'a str, c: char) -> (r: Option<(&'a str, &'a str)>)
    ensures
        match r {
            Some(p) => split_at_first(s@, c) == Some((p.0@, p.1@)),
            None => split_at_first(s@, c) is None,
        },
{
    let v: Vec<char> = chars_of(s);
    match find_char(&v, c) {
        Some(i) => Some((s.substring_char(0, i), s.substring_char(i + 1, v.len()))),
        None => None,
    }
}

/// Whether `p` stands in `v` from position `at` on.
pub fn holds_at(v: &Vec<char>, p: &Vec<char>, at: usize) -> (r: bool)
    ensures
        r == part_at(v@, p@, at as int),
{
    if at > v.len() || p.len() > v.len() - at {
        return false;
    }
    let mut i: usize = 0;
    while i < p.len()
        invariant
            i <= p.len(),
            at + p.len() <= v.len(),
            forall|j: int| 0 <= j < i ==> v@[at + j] == p@[j],
        decreases p.len() - i,
    {
        if v[at + i] != p[i] {
            assert(v@.subrange(at as int, at + p@.len())[i as int] != p@[i as int]);
            return false;
        }
        i += 1;
    }
    assert(v@.subrange(at as int, at + p@.len()) =~= p@);
    true
}

/// `s` without the prefix `p`.
pub fn strip_prefix<'a>(s: &'a str, p: &str) -> (r: Option<&'a str>)
    ensures
        opt_str(r) == without_prefix(s@, p@),
{
    let v: Vec<char> = chars_of(s);
    let q: Vec<char> = chars_of(p);
    if holds_at(&v, &q, 0) {
        Some(s.substring_char(q.len(), v.len()))
    } else {
        assert(!p@.is_prefix_of(s@));
        None
    }
}

/// `s` without the suffix `p`.
pub fn strip_suffix<'a>(s: &'a str, p: &str) -> (r: Option<&'a str>)
    ensures
        opt_str(r) == without_suffix(s@, p@),
{
    let v: Vec<char> = chars_of(s);
    let q: Vec<char> = chars_of(p);
    if q.len() <= v.len() && holds_at(&v, &q, v.len() - q.len()) {
        Some(s.substring_char(0, v.len() - q.len()))
    } else {
        assert(!p@.is_suffix_of(s@));
        None
    }
}

/// Whether `s` starts with `p`.
pub fn starts_with(s: &str, p: &str) -> (r: bool)
    ensures
        r == p@.is_prefix_of(s@),
{
    strip_prefix(s, p).is_some()
}

/// Whether `s` ends with `p`.
pub fn ends_with(s: &str, p: &str) -> (r: bool)
    ensures
        r == p@.is_suffix_of(s@),
{
    strip_suffix(s, p).is_some()
}

/// `s` without `p` at its start, as often as it stands there.
pub fn trim_start_matches<'a>(s: &'a str, p: &str) -> (r: &'a str)
    requires
        p@.len() > 0,
    ensures
        r@ == without_prefixes(s@, p@),
{
    let mut r: &'a str = s;
    let mut rest: Option<&'a str> = strip_prefix(r, p);
    while rest.is_some()
        invariant
            p@.len() > 0,
            without_prefixes(r@, p@) == without_prefixes(s@, p@),
            opt_str(rest) == without_prefix(r@, p@),
        decreases r@.len(),
    {
        match rest {
            Some(t) => {
                r = t;
            },
            None => {},
        }
        rest = strip_prefix(r, p);
    }
    r
}

/// Whether `p` stands somewhere in `s`.
pub fn contains(s: &str, p: &str) -> (r: bool)
    ensures
        r == has_part(s@, p@),
{
    let v: Vec<char> = chars_of(s);
    let q: Vec<char> = chars_of(p);
    let mut i: usize = 0;
    while i < v.len()
        invariant
            i <= v.len(),
            v@ == s@,
            q@ == p@,
            forall|j: int| 0 <= j < i ==> !#[trigger] part_at(v@, q@, j),
        decreases v.len() - i,
    {
        if holds_at(&v, &q, i) {
            return true;
        }
        i += 1;
    }
    holds_at(&v, &q, i)
}

/// Whether `c` is white space.
pub fn is_whitespace(c: char) -> (r: bool)
    ensures
        r == is_white(c),
{
    ('\u{9}' <= c && c <= '\u{d}') || c == '\u{20}' || c == '\u{85}' || c == '\u{a0}' || c
        == '\u{1680}' || ('\u{2000}' <= c && c <= '\u{200a}') || c == '\u{2028}' || c == '\u{2029}'
        || c == '\u{202f}' || c == '\u{205f}' || c == '\u{3000}'
}

/// `s` without white space at its start.
pub fn trim_start<'a>(s: &'a str) -> (r: &'a str)
    ensures
        r@ == trimmed_start(s@),
{
    let v: Vec<char> = chars_of(s);
    let mut i: usize = 0;
    assert(s@.subrange(0, s@.len() as int) =~= s@);
    while i < v.len() && is_whitespace(v[i])
        invariant
            i <= v.len(),
            v@ == s@,
            trimmed_start(s@.subrange(i as int, s@.len() as int)) == trimmed_start(s@),
        decreases v.len() - i,
    {
        assert(s@.subrange(i as int, s@.len() as int).drop_first() =~= s@.subrange(
            i + 1,
            s@.len() as int,
        ));
        i += 1;
    }
    s.substring_char(i, v.len())
}

/// `s` without white space at its end.
pub fn trim_end<'a>(s: &'a str) -> (r: &'a str)
    ensures
        r@ == trimmed_end(s@),
{
    let v: Vec<char> = chars_of(s);
    let mut i: usize = v.len();
    assert(s@.subrange(0, s@.len() as int) =~= s@);
    while i > 0 && is_whitespace(v[i - 1])
        invariant
            i <= v.len(),
            v@ == s@,
            trimmed_end(s@.subrange(0, i as int)) == trimmed_end(s@),
        decreases i,
    {
        assert(s@.subrange(0, i as int).drop_last() =~= s@.subrange(0, i - 1));
        i -= 1;
    }
    s.substring_char(0, i)
}

/// `s` without white space at either end.
pub fn trim<'a>(s: &'a str) -> (r: &'a str)
    ensures
        r@ == trimmed(s@),
{
    trim_end(trim_start(s))
}

/// `s` without `c` at its end, as often as it stands there.
pub fn trim_end_char<'a>(s: &'a str, c: char) -> (r: &'a str)
    ensures
        r@ == without_last(s@, c),
{
    let v: Vec<char> = chars_of(s);
    let mut i: usize = v.len();
    assert(s@.subrange(0, s@.len() as int) =~= s@);
    while i > 0 && v[i - 1] == c
        invariant
            i <= v.len(),
            v@ == s@,
            without_last(s@.subrange(0, i as int), c) == without_last(s@, c),
        decreases i,
    {
        assert(s@.subrange(0, i as int).drop_last() =~= s@.subrange(0, i - 1));
        i -= 1;
    }
    s.substring_char(0, i)
}

/// `s` without line feeds and carriage returns at its end.
pub fn trim_line_end<'a>(s: &'a str) -> (r: &'a str)
    ensures
        r@ == without_line_end(s@),
{
    let v: Vec<char> = chars_of(s);
    let mut i: usize = v.len();
    assert(s@.subrange(0, s@.len() as int) =~= s@);
    while i > 0 && (v[i - 1] == '\n' || v[i - 1] == '\r')
        invariant
            i <= v.len(),
            v@ == s@,
            without_line_end(s@.subrange(0, i as int)) == without_line_end(s@),
        decreases i,
    {
        assert(s@.subrange(0, i as int).drop_last() =~= s@.subrange(0, i - 1));
        i -= 1;
    }
    s.substring_char(0, i)
}

/// `c`, with `A` to `Z` turned to lower case.
pub fn to_ascii_lower(c: char) -> (r: char)
    ensures
        r == ascii_lower(c),
{
    if 'A' <= c && c <= 'Z' {
        ((c as u8) + 32) as char
    } else {
        c
    }
}

/// Whether two strings differ at most in the case of ASCII letters.
pub fn eq_ignore_ascii_case(a: &str, b: &str) -> (r: bool)
    ensures
        r == same_but_case(a@, b@),
{
    let x: Vec<char> = chars_of(a);
    let y: Vec<char> = chars_of(b);
    if x.len() != y.len() {
        return false;
    }
    let mut i: usize = 0;
    while i < x.len()
        invariant
            i <= x.len(),
            x.len() == y.len(),
            x@ == a@,
            y@ == b@,
            forall|j: int| 0 <= j < i ==> ascii_lower(#[trigger] a@[j]) == ascii_lower(b@[j]),
        decreases x.len() - i,
    {
        if to_ascii_lower(x[i]) != to_ascii_lower(y[i]) {
            assert(ascii_lower(a@[i as int]) != ascii_lower(b@[i as int]));
            return false;
        }
        i += 1;
    }
    true
}

/// The parts, with `sep` between each two neighbours.
pub fn join(parts: &Vec<String>, sep: &str) -> (r: String)
    ensures
        r@ == joined(texts(parts@), sep@),
{
    let ghost all = texts(parts@);
    let mut r: String = String::new();
    let mut i: usize = 0;
    while i < parts.len()
        invariant
            i <= parts.len(),
            all == texts(parts@),
            r@ == joined(all.subrange(0, i as int), sep@),
        decreases parts.len() - i,
    {
        assert(all.subrange(0, i + 1).drop_last() =~= all.subrange(0, i as int));
        assert(all.subrange(0, i + 1).last() == parts@[i as int]@);
        if i > 0 {
            r.append(sep);
        }
        r.append(parts[i].as_str());
        assert(i == 0 ==> r@ =~= parts@[0]@);
        i += 1;
    }
    assert(all.subrange(0, i as int) =~= all);
    r
}

/// `s`, filled up with spaces on the right to `width` characters.
pub fn pad_right(s: &str, width: usize) -> (r: String)
    ensures
        r@ == padded(s@, width as int),
{
    let mut r: String = s.to_string();
    let mut n: usize = s.unicode_len();
    let ghost len = s@.len();
    while n < width
        invariant
            len == s@.len(),
            len <= n,
            n <= width || n == len,
            r@ == s@ + Seq::new((n - len) as nat, |i: int| ' '),
        decreases width - n,
    {
        r.push(' ');
        n += 1;
        assert(r@ =~= s@ + Seq::new((n - len) as nat, |i: int| ' '));
    }
    assert(len >= width ==> r@ =~= s@);
    r
}

/// `n` in decimal.
pub fn decimal_of(n: u64) -> (r: String)
    ensures
        r@ == decimal(n as nat),
    decreases n,
{
    if n < 10 {
        let mut r: String = String::new();
        r.push((48 + n as u8) as char);
        assert(r@ =~= seq![digit(n as int)]);
        r
    } else {
        let mut r: String = decimal_of(n / 10);
        r.push((48 + (n % 10) as u8) as char);
        r
    }
}

/// The hexadecimal digit for `d`.
pub fn hex_digit_of(d: u8) -> (r: char)
    requires
        d < 16,
    ensures
        r == hex_digit(d as int),
{
    if d < 10 {
        (48 + d) as char
    } else {
        (87 + d) as char
    }
}

/// The last `width` hexadecimal digits of `n`, leading zeros included.
pub fn hex_padded_of(n: u128, width: usize) -> (r: String)
    ensures
        r@ == hex_padded(n as nat, width as nat),
    decreases width,
{
    if width == 0 {
        String::new()
    } else {
        let mut r: String = hex_padded_of(n / 16, width - 1);
        r.push(hex_digit_of((n % 16) as u8));
        r
    }
}

// ---------------------------------------------------------------------------
// Laws
// ---------------------------------------------------------------------------

/// The contents of a list of strings are those of every string, in their order.
pub proof fn texts_are_those_of_the_strings(v: Seq<String>)
    ensures
        texts(v).len() == v.len(),
        forall|i: int| 0 <= i < v.len() ==> #[trigger] texts(v)[i] == v[i]@,
{
}

/// What stands before the first `c` holds none, and with the `c` and what stands
/// behind it makes the whole text again.
pub proof fn split_parts_make_the_whole(before: Seq<char>, c: char, behind: Seq<char>)
    requires
        !before.contains(c),
    ensures
        split_at_first(before.push(c) + behind, c) == Some((before, behind)),
        split_at_first(before, c) is None,
{
    let s = before.push(c) + behind;
    let n = before.len() as int;
    assert forall|j: int| 0 <= j < n implies s[j] != c by {
        assert(before.contains(before[j]));
    }
    lemma_first_pos(s, c, n);
    assert(s.subrange(0, n) =~= before);
    assert(s.subrange(n + 1, s.len() as int) =~= behind);
    assert forall|j: int| 0 <= j < n implies before[j] != c by {
        assert(before.contains(before[j]));
    }
    lemma_first_pos_none(before, c);
}

/// A prefix is taken off exactly where it stands, and once.
pub proof fn prefix_is_taken_off(s: Seq<char>, p: Seq<char>, rest: Seq<char>)
    ensures
        without_prefix(p + rest, p) == Some(rest),
        without_prefix(s, p) matches Some(r) ==> s == p + r,
        without_prefix(s, p) is None ==> forall|r: Seq<char>| s != #[trigger] (p + r),
{
    let n = p.len() as int;
    let whole = p + rest;
    assert(whole.subrange(0, n) =~= p);
    assert(whole.subrange(n, whole.len() as int) =~= rest);
    if let Some(r) = without_prefix(s, p) {
        assert(s.subrange(0, n) =~= p);
        assert(s =~= p + r);
    } else {
        assert forall|r: Seq<char>| s != #[trigger] (p + r) by {
            let other = p + r;
            assert(other.subrange(0, n) =~= p);
        }
    }
}

/// A suffix is taken off exactly where it stands, and once.
pub proof fn suffix_is_taken_off(s: Seq<char>, p: Seq<char>, rest: Seq<char>)
    ensures
        without_suffix(rest + p, p) == Some(rest),
        without_suffix(s, p) matches Some(r) ==> s == r + p,
        without_suffix(s, p) is None ==> forall|r: Seq<char>| s != #[trigger] (r + p),
{
    let whole = rest + p;
    assert(whole.subrange(rest.len() as int, whole.len() as int) =~= p);
    assert(whole.subrange(0, whole.len() - p.len()) =~= rest);
    if let Some(r) = without_suffix(s, p) {
        assert(s.subrange(s.len() - p.len(), s.len() as int) =~= p);
        assert(s =~= r + p);
    } else {
        assert forall|r: Seq<char>| s != #[trigger] (r + p) by {
            let other = r + p;
            assert(other.subrange(other.len() - p.len(), other.len() as int) =~= p);
        }
    }
}

/// A text that starts with `p` loses it, again and again, and any other is left
/// alone.
pub proof fn prefixes_are_taken_off(p: Seq<char>, rest: Seq<char>)
    requires
        p.len() > 0,
    ensures
        without_prefixes(p + rest, p) == without_prefixes(rest, p),
        !p.is_prefix_of(rest) ==> without_prefixes(rest, p) == rest,
{
    let whole = p + rest;
    assert(whole.subrange(0, p.len() as int) =~= p);
    assert(whole.subrange(p.len() as int, whole.len() as int) =~= rest);
}

/// A part stands in a text where something before it and something behind it make
/// the text.
pub proof fn parts_stand_in_the_text(before: Seq<char>, p: Seq<char>, behind: Seq<char>)
    ensures
        has_part(before + p + behind, p),
        forall|s: Seq<char>| #[trigger] has_part(s, p) ==> exists|i: int|
            0 <= i && i + p.len() <= s.len() && #[trigger] s.subrange(i, i + p.len()) == p,
{
    let s = before + p + behind;
    let i = before.len() as int;
    assert(s.subrange(i, i + p.len()) =~= p);
    assert(part_at(s, p, i));
    assert forall|s: Seq<char>| #[trigger] has_part(s, p) implies exists|i: int|
        0 <= i && i + p.len() <= s.len() && #[trigger] s.subrange(i, i + p.len()) == p by {
        let i = choose|i: int| #[trigger] part_at(s, p, i);
        assert(s.subrange(i, i + p.len()) == p);
    }
}

/// Of the ASCII characters the space and the five controls from tab to carriage
/// return are white, and no others.
pub proof fn ascii_white_space(c: char)
    requires
        c <= '\u{7f}',
    ensures
        is_white(c) == (c == ' ' || '\u{9}' <= c <= '\u{d}'),
        is_white('\n'),
        is_white('\r'),
        is_white('\t'),
{
}

proof fn lemma_trimmed_start(s: Seq<char>)
    ensures
        ({
            let n = s.len() - trimmed_start(s).len();
            &&& 0 <= n <= s.len()
            &&& trimmed_start(s) == s.subrange(n, s.len() as int)
            &&& forall|i: int| 0 <= i < n ==> is_white(#[trigger] s[i])
            &&& trimmed_start(s).len() > 0 ==> !is_white(trimmed_start(s)[0])
        }),
    decreases s.len(),
{
    if s.len() > 0 && is_white(s[0]) {
        let t = s.drop_first();
        lemma_trimmed_start(t);
        let n = s.len() - trimmed_start(s).len();
        assert(trimmed_start(s) =~= s.subrange(n, s.len() as int));
        assert forall|i: int| 0 <= i < n implies is_white(#[trigger] s[i]) by {
            if i > 0 {
                assert(s[i] == t[i - 1]);
            }
        }
    } else {
        assert(s =~= s.subrange(0, s.len() as int));
    }
}

proof fn lemma_trimmed_end(s: Seq<char>)
    ensures
        ({
            let n = trimmed_end(s).len() as int;
            &&& n <= s.len()
            &&& trimmed_end(s) == s.subrange(0, n)
            &&& forall|i: int| n <= i < s.len() ==> is_white(#[trigger] s[i])
            &&& n > 0 ==> !is_white(s[n - 1])
        }),
    decreases s.len(),
{
    if s.len() > 0 && is_white(s.last()) {
        let t = s.drop_last();
        lemma_trimmed_end(t);
        let n = trimmed_end(s).len() as int;
        assert(trimmed_end(s) =~= s.subrange(0, n));
        assert forall|i: int| n <= i < s.len() implies is_white(#[trigger] s[i]) by {
            if i < s.len() - 1 {
                assert(s[i] == t[i]);
            }
        }
        if n > 0 {
            assert(t[n - 1] == s[n - 1]);
        }
    } else {
        assert(s =~= s.subrange(0, s.len() as int));
    }
}

/// Trimming takes the white space off both ends and nothing else: what is left
/// stands in the text as it was, and neither starts nor ends with white space.
pub proof fn trimming_takes_white_space_only(s: Seq<char>)
    ensures
        ({
            let start = s.len() - trimmed_start(s).len();
            let end = start + trimmed(s).len();
            &&& 0 <= start <= end <= s.len()
            &&& trimmed_start(s) == s.subrange(start, s.len() as int)
            &&& trimmed(s) == s.subrange(start, end)
            &&& forall|i: int| 0 <= i < start || end <= i < s.len() ==> is_white(#[trigger] s[i])
            &&& trimmed_start(s).len() > 0 ==> !is_white(trimmed_start(s)[0])
            &&& trimmed(s).len() > 0 ==> !is_white(trimmed(s)[0]) && !is_white(trimmed(s).last())
        }),
{
    lemma_trimmed_start(s);
    let t = trimmed_start(s);
    lemma_trimmed_end(t);
    let start = s.len() - t.len();
    let end = start + trimmed(s).len();
    assert(trimmed(s) =~= s.subrange(start, end));
    assert forall|i: int| 0 <= i < start || end <= i < s.len() implies is_white(#[trigger] s[i]) by {
        if i >= end {
            assert(s[i] == t[i - start]);
        }
    }
}

/// A text that neither starts nor ends with white space is left alone.
pub proof fn trimming_leaves_other_texts_alone(s: Seq<char>)
    requires
        s.len() > 0 ==> !is_white(s[0]) && !is_white(s.last()),
    ensures
        trimmed(s) == s,
        trimmed_start(s) == s,
{
}

/// Taking `c` off the end of a text takes every `c` there, and nothing else.
pub proof fn ends_are_cut_off(s: Seq<char>, c: char)
    ensures
        without_last(s.push(c), c) == without_last(s, c),
        s.len() == 0 || s.last() != c ==> without_last(s, c) == s,
        without_line_end(s.push('\n')) == without_line_end(s),
        without_line_end(s.push('\r')) == without_line_end(s),
        s.len() == 0 || (s.last() != '\n' && s.last() != '\r') ==> without_line_end(s) == s,
{
    assert(s.push(c).drop_last() =~= s);
    assert(s.push('\n').drop_last() =~= s);
    assert(s.push('\r').drop_last() =~= s);
}

/// In lower case the letters `A` to `Z` become `a` to `z`, in their order, and all
/// other ASCII characters stay.
pub proof fn lower_case_of_ascii(s: Seq<char>)
    requires
        utf8::is_ascii_chars(s),
    ensures
        lowered(s).len() == s.len(),
        forall|i: int|
            0 <= i < s.len() ==> 'A' <= s[i] <= 'Z' ==> (#[trigger] lowered(s)[i]) as int
                == s[i] as int + 32,
        forall|i: int|
            0 <= i < s.len() ==> !('A' <= s[i] <= 'Z') ==> #[trigger] lowered(s)[i] == s[i],
{
}

/// Two texts differ at most in case where each two characters in the same place are
/// equal, or are a capital letter and its small one.
pub proof fn same_but_case_of_letters(a: Seq<char>, b: Seq<char>)
    ensures
        a == b ==> same_but_case(a, b),
        same_but_case(a, b) == (a.len() == b.len() && forall|i: int|
            #![trigger a[i]]
            0 <= i < a.len() ==> a[i] == b[i] || ('A' <= a[i] <= 'Z' && b[i] as int == a[i] as int
                + 32) || ('A' <= b[i] <= 'Z' && a[i] as int == b[i] as int + 32)),
{
}

/// Parts are joined with the separator between each two of them, and nowhere else.
pub proof fn parts_are_joined(parts: Seq<Seq<char>>, sep: Seq<char>, last: Seq<char>)
    ensures
        joined(Seq::<Seq<char>>::empty(), sep).len() == 0,
        joined(seq![last], sep) == last,
        parts.len() > 0 ==> joined(parts.push(last), sep) == joined(parts, sep) + sep + last,
{
    assert(parts.push(last).drop_last() =~= parts);
}

/// Padding puts spaces behind a text, as many as are missing to the width.
pub proof fn padding_adds_spaces(s: Seq<char>, width: int)
    ensures
        s.is_prefix_of(padded(s, width)),
        padded(s, width).len() == (if s.len() >= width {
            s.len() as int
        } else {
            width
        }),
        forall|i: int| s.len() <= i < padded(s, width).len() ==> #[trigger] padded(s, width)[i] == ' ',
{
    assert(padded(s, width).subrange(0, s.len() as int) =~= s);
}

/// A number in decimal: its last digit stands for the ones, and the digits before it
/// for the tens.
pub proof fn decimal_digits(n: nat, d: nat)
    requires
        d < 10,
    ensures
        decimal(d).len() == 1 && decimal(d)[0] as int == 48 + d,
        n > 0 ==> decimal(10 * n + d).len() == decimal(n).len() + 1 && decimal(10 * n + d).drop_last()
            == decimal(n) && decimal(10 * n + d).last() as int == 48 + d,
{
    if n > 0 {
        let m = 10 * n + d;
        assert(m / 10 == n && m % 10 == d);
        assert(decimal(m).drop_last() =~= decimal(n));
    }
}

/// A number in hexadecimal: its last digit stands for the ones, and those before it
/// for the sixteens; as many digits are written as are asked for.
pub proof fn hexadecimal_digits(n: nat, d: nat, width: nat)
    requires
        d < 16,
        width > 0,
    ensures
        hex_padded(n, 0).len() == 0,
        hex_padded(16 * n + d, width).len() == hex_padded(n, (width - 1) as nat).len() + 1,
        hex_padded(16 * n + d, width).drop_last() == hex_padded(n, (width - 1) as nat),
        d < 10 ==> hex_padded(16 * n + d, width).last() as int == 48 + d,
        d >= 10 ==> hex_padded(16 * n + d, width).last() as int == 87 + d,
{
    let m = 16 * n + d;
    assert(m / 16 == n && m % 16 == d);
    assert(hex_padded(m, width).drop_last() =~= hex_padded(n, (width - 1) as nat));
}

/// The contents of an optional string are those of the string.
pub proof fn optional_texts_are_those_of_the_strings(s: String, t: &str)
    ensures
        opt_text(Some(s)) == Some(s@),
        opt_text(None) is None,
        opt_str(Some(t)) == Some(t@),
        opt_str(None) is None,
{
}

/// Beyond ASCII the characters at these places of Unicode are white, and no others.
pub proof fn other_white_space(c: char)
    requires
        c > '\u{7f}',
    ensures
        is_white(c) == ({
            let n = c as u32;
            n == 0x85 || n == 0xa0 || n == 0x1680 || 0x2000 <= n <= 0x200a || n == 0x2028 || n
                == 0x2029 || n == 0x202f || n == 0x205f || n == 0x3000
        }),
{
}

} // verus!
