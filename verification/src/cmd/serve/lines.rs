//! Lines of a text that comes in piece by piece.

use vstd::prelude::*;
use crate::text;

verus! {

/// Prefix of a line that carries data in a stream of events.
pub const DATA: &'static str = "data: ";

/// The lines of `s` that end with a line feed.  Carriage returns before the
/// line feed are cut off.
pub open spec fn complete_lines(s: Seq<char>) -> Seq<Seq<char>>
    decreases s.len(),
{
    proof {
        text::lemma_first_pos_holds(s, '\n');
    }
    match text::split_at_first(s, '\n') {
        Some(p) => seq![text::without_last(p.0, '\r')] + complete_lines(p.1),
        None => Seq::<Seq<char>>::empty(),
    }
}

/// What stands behind the last line feed of `s`.
pub open spec fn unfinished(s: Seq<char>) -> Seq<char>
    decreases s.len(),
{
    proof {
        text::lemma_first_pos_holds(s, '\n');
    }
    match text::split_at_first(s, '\n') {
        Some(p) => unfinished(p.1),
        None => s,
    }
}

/// Cuts a stream into lines.  What stands behind the last line feed waits for
/// the pieces to come; where none come any more, it is no line.
#[derive(Debug)]
pub struct LineBuffer {
    buf: String,
}

impl View for LineBuffer {
    type V = Seq<char>;

    closed spec fn view(&self) -> Seq<char> {
        self.buf@
    }
}

impl LineBuffer {
    /// Before the first piece.
    pub fn new() -> (r: Self)
        ensures
            r@ == Seq::<char>::empty(),
    {
        LineBuffer { buf: String::new() }
    }

    /// Takes in text and gives the lines that are complete now.
    pub fn on_text(&mut self, piece: &str) -> (r: Vec<String>)
        ensures
            text::texts(r@) == complete_lines(old(self)@ + piece@),
            final(self)@ == unfinished(old(self)@ + piece@),
    {
        let all: String = text::concat2(self.buf.as_str(), piece);
        let mut r: Vec<String> = Vec::new();
        let mut rest: &str = all.as_str();
        let mut next: Option<(&str, &str)> = text::split_once(rest, '\n');
        assert(text::texts(r@) + complete_lines(all@) =~= complete_lines(all@));
        while next.is_some()
            invariant
                text::texts(r@) + complete_lines(rest@) == complete_lines(all@),
                unfinished(rest@) == unfinished(all@),
                match next {
                    Some(p) => text::split_at_first(rest@, '\n') == Some((p.0@, p.1@)),
                    None => text::split_at_first(rest@, '\n') is None,
                },
            decreases rest@.len(),
        {
            match next {
                Some(p) => {
                    proof {
                        text::lemma_first_pos_holds(rest@, '\n');
                    }
                    let line: String = text::trim_end_char(p.0, '\r').to_string();
                    let ghost before = r@;
                    r.push(line);
                    assert(text::texts(r@) =~= text::texts(before).push(line@));
                    assert(text::texts(r@) + complete_lines(p.1@) =~= text::texts(before) + (seq![
                        line@,
                    ] + complete_lines(p.1@)));
                    rest = p.1;
                },
                None => {},
            }
            next = text::split_once(rest, '\n');
        }
        self.buf = rest.to_string();
        assert(text::texts(r@) =~= complete_lines(all@));
        r
    }

    /// Takes in the bytes of a piece and gives the lines that are complete now.
    pub fn bytes_to_lines(&mut self, piece: &[u8]) -> (r: Vec<String>)
        ensures
            text::texts(r@) == complete_lines(old(self)@ + text::decoded(piece@)),
            final(self)@ == unfinished(old(self)@ + text::decoded(piece@)),
    {
        let t: String = text::decode_lossy(piece);
        self.on_text(t.as_str())
    }
}

/// Where a stream is cut into pieces makes no difference to its lines.
pub proof fn pieces_make_no_difference(first: Seq<char>, second: Seq<char>)
    ensures
        complete_lines(first + second) == complete_lines(first) + complete_lines(
            unfinished(first) + second,
        ),
        unfinished(first + second) == unfinished(unfinished(first) + second),
    decreases first.len(),
{
    text::lemma_first_pos_holds(first, '\n');
    match text::split_at_first(first, '\n') {
        Some(p) => {
            let i = text::first_pos(first, '\n')->0;
            let all = first + second;
            assert forall|j: int| 0 <= j < i implies all[j] != '\n' by {
                assert(first[j] != '\n');
            }
            text::lemma_first_pos(all, '\n', i);
            assert(all.subrange(0, i) =~= p.0);
            assert(all.subrange(i + 1, all.len() as int) =~= p.1 + second);
            pieces_make_no_difference(p.1, second);
            let line = seq![text::without_last(p.0, '\r')];
            assert(line + (complete_lines(p.1) + complete_lines(unfinished(p.1) + second)) =~= (line
                + complete_lines(p.1)) + complete_lines(unfinished(p.1) + second));
        },
        None => {
            assert(Seq::<Seq<char>>::empty() + complete_lines(first + second) =~= complete_lines(
                first + second,
            ));
        },
    }
}

/// No line holds a line feed, and nothing that waits does.
pub proof fn lines_hold_no_line_feed(s: Seq<char>)
    ensures
        forall|i: int|
            0 <= i < complete_lines(s).len() ==> !(#[trigger] complete_lines(s)[i]).contains('\n'),
        !unfinished(s).contains('\n'),
    decreases s.len(),
{
    text::lemma_first_pos_holds(s, '\n');
    match text::split_at_first(s, '\n') {
        Some(p) => {
            lines_hold_no_line_feed(p.1);
            lemma_without_last_keeps(p.0, '\r', '\n');
            let rest = complete_lines(p.1);
            assert forall|i: int| 0 <= i < complete_lines(s).len() implies !(
            #[trigger] complete_lines(s)[i]).contains('\n') by {
                if i > 0 {
                    assert(complete_lines(s)[i] == rest[i - 1]);
                }
            }
        },
        None => {},
    }
}

proof fn lemma_without_last_keeps(s: Seq<char>, c: char, absent: char)
    requires
        forall|j: int| 0 <= j < s.len() ==> s[j] != absent,
    ensures
        !text::without_last(s, c).contains(absent),
    decreases s.len(),
{
    if s.len() > 0 && s.last() == c {
        lemma_without_last_keeps(s.drop_last(), c, absent);
    }
}

// ---------------------------------------------------------------------------
// Lines of a whole text
// ---------------------------------------------------------------------------

/// `s` without a carriage return at its end.
pub open spec fn without_return(s: Seq<char>) -> Seq<char> {
    if s.len() > 0 && s.last() == '\r' {
        s.drop_last()
    } else {
        s
    }
}

/// The lines of a whole text.  A line ends with a line feed, with or without a
/// carriage return before it; the last line may lack its end.
pub open spec fn text_lines(s: Seq<char>) -> Seq<Seq<char>>
    decreases s.len(),
{
    proof {
        text::lemma_first_pos_holds(s, '\n');
    }
    match text::split_at_first(s, '\n') {
        Some(p) => seq![without_return(p.0)] + text_lines(p.1),
        None => if s.len() > 0 {
            seq![s]
        } else {
            Seq::<Seq<char>>::empty()
        },
    }
}

/// The lines of a whole text.
pub fn lines_of(s: &str) -> (r: Vec<String>)
    ensures
        text::texts(r@) == text_lines(s@),
{
    let mut r: Vec<String> = Vec::new();
    let mut rest: &str = s;
    let mut next: Option<(&str, &str)> = text::split_once(rest, '\n');
    assert(text::texts(r@) + text_lines(s@) =~= text_lines(s@));
    while next.is_some()
        invariant
            text::texts(r@) + text_lines(rest@) == text_lines(s@),
            match next {
                Some(p) => text::split_at_first(rest@, '\n') == Some((p.0@, p.1@)),
                None => text::split_at_first(rest@, '\n') is None,
            },
        decreases rest@.len(),
    {
        match next {
            Some(p) => {
                proof {
                    text::lemma_first_pos_holds(rest@, '\n');
                }
                let v: Vec<char> = text::chars_of(p.0);
                let line: String = if v.len() > 0 && v[v.len() - 1] == '\r' {
                    p.0.substring_char(0, v.len() - 1).to_string()
                } else {
                    p.0.to_string()
                };
                assert(line@ =~= without_return(p.0@));
                let ghost before = r@;
                r.push(line);
                assert(text::texts(r@) =~= text::texts(before).push(line@));
                assert(text::texts(r@) + text_lines(p.1@) =~= text::texts(before) + (seq![line@]
                    + text_lines(p.1@)));
                rest = p.1;
            },
            None => {},
        }
        next = text::split_once(rest, '\n');
    }
    if !rest.is_empty() {
        let ghost before = r@;
        let line: String = rest.to_string();
        r.push(line);
        assert(text::texts(r@) =~= text::texts(before) + seq![line@]);
    }
    assert(text::texts(r@) =~= text_lines(s@));
    r
}

/// The data that a line carries.
pub fn payload_of<'a>(line: &'a str) -> (r: Option<&'a str>)
    ensures
        text::opt_str(r) == text::without_prefix(line@, DATA@),
{
    text::strip_prefix(line, DATA)
}

/// The data of the lines that carry data.
pub open spec fn payloads(lines: Seq<Seq<char>>) -> Seq<Seq<char>>
    decreases lines.len(),
{
    if lines.len() == 0 {
        Seq::<Seq<char>>::empty()
    } else {
        match text::without_prefix(lines.last(), DATA@) {
            Some(p) => payloads(lines.drop_last()).push(p),
            None => payloads(lines.drop_last()),
        }
    }
}

/// The data of the lines of a text that carry data.
pub fn payloads_of(s: &str) -> (r: Vec<String>)
    ensures
        text::texts(r@) == payloads(text_lines(s@)),
{
    let lines: Vec<String> = lines_of(s);
    let ghost all = text::texts(lines@);
    let mut r: Vec<String> = Vec::new();
    let mut i: usize = 0;
    assert(text::texts(r@) =~= Seq::<Seq<char>>::empty());
    while i < lines.len()
        invariant
            i <= lines.len(),
            all == text::texts(lines@),
            text::texts(r@) == payloads(all.subrange(0, i as int)),
        decreases lines.len() - i,
    {
        assert(all.subrange(0, i + 1).drop_last() =~= all.subrange(0, i as int));
        assert(all.subrange(0, i + 1).last() == lines@[i as int]@);
        match payload_of(lines[i].as_str()) {
            Some(p) => {
                let ghost before = r@;
                let payload: String = p.to_string();
                r.push(payload);
                assert(text::texts(r@) =~= text::texts(before).push(payload@));
            },
            None => {},
        }
        i += 1;
    }
    assert(all.subrange(0, i as int) =~= all);
    r
}

// ---------------------------------------------------------------------------
// Laws
// ---------------------------------------------------------------------------

/// A line comes out of a stream once its line feed is there, character by character
/// as it was sent, and the lines behind it come out behind it.
pub proof fn line_comes_out_as_sent(line: Seq<char>, rest: Seq<char>)
    requires
        !line.contains('\n'),
        line.len() == 0 || line.last() != '\r',
    ensures
        complete_lines(line.push('\n') + rest) == seq![line] + complete_lines(rest),
        complete_lines(line.push('\r').push('\n') + rest) == seq![line] + complete_lines(rest),
        unfinished(line.push('\n') + rest) == unfinished(rest),
        complete_lines(line).len() == 0,
        unfinished(line) == line,
{
    text::split_parts_make_the_whole(line, '\n', rest);
    text::ends_are_cut_off(line, '\r');
    let other = line.push('\r');
    assert(!other.contains('\n')) by {
        if other.contains('\n') {
            let i = choose|i: int| 0 <= i < other.len() && other[i] == '\n';
            assert(line[i] == '\n');
        }
    }
    text::split_parts_make_the_whole(other, '\n', rest);
}

/// Nothing is lost of a stream: the lines, each with a line feed behind it, and what
/// waits make the stream again, where it holds no carriage return.
pub proof fn lines_make_the_stream_again(s: Seq<char>)
    requires
        !s.contains('\r'),
    ensures
        complete_lines(s).map_values(|l: Seq<char>| l.push('\n')).flatten() + unfinished(s) == s,
    decreases s.len(),
{
    let f = |l: Seq<char>| l.push('\n');
    text::lemma_first_pos_holds(s, '\n');
    match text::split_at_first(s, '\n') {
        Some(p) => {
            assert(s =~= p.0.push('\n') + p.1);
            assert(!p.1.contains('\r')) by {
                if p.1.contains('\r') {
                    let i = choose|i: int| 0 <= i < p.1.len() && p.1[i] == '\r';
                    assert(s[p.0.len() + 1 + i] == '\r');
                }
            }
            if p.0.len() > 0 {
                assert(s.contains(s[p.0.len() - 1]));
            }
            lines_make_the_stream_again(p.1);
            let all = complete_lines(s).map_values(f);
            assert(all.drop_first() =~= complete_lines(p.1).map_values(f));
            assert(all[0] =~= p.0.push('\n'));
            assert(all.flatten() + unfinished(s) =~= p.0.push('\n') + (all.drop_first().flatten()
                + unfinished(p.1)));
        },
        None => {
            assert(complete_lines(s).map_values(f) =~= Seq::<Seq<char>>::empty());
            assert(Seq::<char>::empty() + s =~= s);
        },
    }
}

/// The lines of a whole text are what stands between its line feeds, with one
/// carriage return before a line feed left out; the last line needs no line feed.
pub proof fn whole_text_comes_apart_into_lines(line: Seq<char>, rest: Seq<char>)
    requires
        !line.contains('\n'),
    ensures
        line.len() == 0 || line.last() != '\r' ==> text_lines(line.push('\n') + rest) == seq![line]
            + text_lines(rest),
        text_lines(line.push('\r').push('\n') + rest) == seq![line] + text_lines(rest),
        line.len() > 0 ==> text_lines(line) == seq![line],
        text_lines(Seq::<char>::empty()).len() == 0,
{
    text::split_parts_make_the_whole(line, '\n', rest);
    let other = line.push('\r');
    assert(other.drop_last() =~= line);
    assert(!other.contains('\n')) by {
        if other.contains('\n') {
            let i = choose|i: int| 0 <= i < other.len() && other[i] == '\n';
            assert(line[i] == '\n');
        }
    }
    text::split_parts_make_the_whole(other, '\n', rest);
    text::lemma_first_pos_none(Seq::<char>::empty(), '\n');
}

/// The data of an answer is what stands behind `data: ` in every line that starts
/// so, in the order of the lines.
pub proof fn data_is_that_of_every_line(all: Seq<Seq<char>>)
    ensures
        payloads(all) == all.filter(|l: Seq<char>| "data: "@.is_prefix_of(l)).map_values(
            |l: Seq<char>| l.subrange(6, l.len() as int),
        ),
    decreases all.len(),
{
    reveal(Seq::filter);
    reveal_strlit("data: ");
    let carries = |l: Seq<char>| "data: "@.is_prefix_of(l);
    let data = |l: Seq<char>| l.subrange(6, l.len() as int);
    if all.len() > 0 {
        let d = all.drop_last();
        data_is_that_of_every_line(d);
        assert(payloads(d) == d.filter(carries).map_values(data));
        assert(payloads(all) =~= all.filter(carries).map_values(data));
    } else {
        assert(payloads(all) =~= all.filter(carries).map_values(data));
    }
}

} // verus!
