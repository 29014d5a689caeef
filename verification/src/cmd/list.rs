//! `llmman list`: the table of local images.

use vstd::prelude::*;
use vstd::utf8;
use crate::storage::oci::ImageSummary;
use crate::text;

verus! {

/// Bytes in a gigabyte.
pub const GB: u64 = 1_000_000_000;

/// Bytes in a megabyte.
pub const MB: u64 = 1_000_000;

/// Bytes in a kilobyte.
pub const KB: u64 = 1_000;

/// Seconds in a minute.
pub const MINUTE: i128 = 60;

/// Seconds in an hour.
pub const HOUR: i128 = 3_600;

/// Seconds in a day.
pub const DAY: i128 = 86_400;

/// Seconds in a week.
pub const WEEK: i128 = 604_800;

/// Seconds in a month of thirty days.
pub const MONTH: i128 = 2_592_000;

/// Seconds in a year of 365 days.
pub const YEAR: i128 = 31_536_000;

/// Arguments of the command.
#[derive(Debug)]
pub struct ListArgs {
    /// Directory of the store, in place of the default.
    pub store: Option<String>,
}

// ---------------------------------------------------------------------------
// Cells
// ---------------------------------------------------------------------------

/// The first twelve characters behind the algorithm of a digest.
pub open spec fn shortened(digest: Seq<char>) -> Seq<char> {
    let hex = match text::without_prefix(digest, "sha256:"@) {
        Some(h) => h,
        None => digest,
    };
    if hex.len() > 12 {
        hex.subrange(0, 12)
    } else {
        hex
    }
}

/// The first twelve characters behind the algorithm of a digest.
pub fn short_id(digest: &str) -> (r: String)
    ensures
        r@ == shortened(digest@),
{
    let hex: &str = match text::strip_prefix(digest, "sha256:") {
        Some(h) => h,
        None => digest,
    };
    if hex.unicode_len() > 12 {
        hex.substring_char(0, 12).to_string()
    } else {
        hex.to_string()
    }
}

/// A size for people.
#[derive(Debug)]
pub enum HumanSize {
    /// The size as it stands.
    Whole(String),
    /// The size counted in `unit` bytes, to one digit behind the point, with
    /// the name of the unit behind it.
    Scaled { unit: u64, name: String },
}

/// The unit for a size, and its name.
pub open spec fn unit_for(bytes: u64) -> Option<(u64, Seq<char>)> {
    if bytes >= GB {
        Some((GB, "GB"@))
    } else if bytes >= MB {
        Some((MB, "MB"@))
    } else if bytes >= KB {
        Some((KB, "kB"@))
    } else {
        None
    }
}

/// How a size is written: in the largest unit that it reaches.
pub fn human_size(bytes: u64) -> (r: HumanSize)
    ensures
        match unit_for(bytes) {
            Some(u) => r matches HumanSize::Scaled { unit, name } && unit == u.0 && name@ == u.1,
            None => r matches HumanSize::Whole(s) && s@ == text::decimal(bytes as nat) + " B"@,
        },
{
    if bytes >= GB {
        HumanSize::Scaled { unit: GB, name: "GB".to_string() }
    } else if bytes >= MB {
        HumanSize::Scaled { unit: MB, name: "MB".to_string() }
    } else if bytes >= KB {
        HumanSize::Scaled { unit: KB, name: "kB".to_string() }
    } else {
        HumanSize::Whole(text::concat2(text::decimal_of(bytes).as_str(), " B"))
    }
}

/// A point in time that a system clock can show, in nanoseconds since the start
/// of 1970.
pub open spec fn is_time(t: i128) -> bool {
    -9_223_372_036_854_775_808 * 1_000_000_000 <= t <= 9_223_372_036_854_775_808 * 1_000_000_000
}

/// A number of something, ago.
pub open spec fn counted(n: int, what: Seq<char>) -> Seq<char> {
    text::decimal(n as nat) + what
}

/// How long ago something was that lies `s` seconds back.
pub open spec fn ago(s: int) -> Seq<char> {
    if s < MINUTE {
        "just now"@
    } else if s < HOUR {
        counted(s / (MINUTE as int), " minutes ago"@)
    } else if s < DAY {
        counted(s / (HOUR as int), " hours ago"@)
    } else if s < 2 * DAY {
        "yesterday"@
    } else if s < WEEK {
        counted(s / (DAY as int), " days ago"@)
    } else if s < 2 * WEEK {
        "1 week ago"@
    } else if s < MONTH {
        counted(s / (WEEK as int), " weeks ago"@)
    } else if s < 2 * MONTH {
        "1 month ago"@
    } else if s < YEAR {
        counted(s / (MONTH as int), " months ago"@)
    } else if s < 2 * YEAR {
        "1 year ago"@
    } else {
        counted(s / (YEAR as int), " years ago"@)
    }
}

/// The whole seconds from `t` to `now`; times to come count as now.
pub open spec fn elapsed(t: i128, now: i128) -> int {
    if t > now {
        0
    } else {
        (now - t) / 1_000_000_000
    }
}

/// How long ago `t` was.
pub open spec fn since(t: Option<i128>, now: i128) -> Seq<char> {
    match t {
        Some(x) => ago(elapsed(x, now)),
        None => "unknown"@,
    }
}

fn count(n: i128, what: &str) -> (r: String)
    requires
        0 <= n <= u64::MAX,
    ensures
        r@ == counted(n as int, what@),
{
    text::concat2(text::decimal_of(n as u64).as_str(), what)
}

/// How long ago `t` was, seen from `now`.
pub fn relative_time(t: Option<i128>, now: i128) -> (r: String)
    requires
        is_time(now),
        t matches Some(x) ==> is_time(x),
    ensures
        r@ == since(t, now),
{
    let s: i128 = match t {
        Some(x) => if x > now {
            0
        } else {
            (now - x) / 1_000_000_000
        },
        None => {
            return "unknown".to_string();
        },
    };
    if s < MINUTE {
        "just now".to_string()
    } else if s < HOUR {
        count(s / MINUTE, " minutes ago")
    } else if s < DAY {
        count(s / HOUR, " hours ago")
    } else if s < 2 * DAY {
        "yesterday".to_string()
    } else if s < WEEK {
        count(s / DAY, " days ago")
    } else if s < 2 * WEEK {
        "1 week ago".to_string()
    } else if s < MONTH {
        count(s / WEEK, " weeks ago")
    } else if s < 2 * MONTH {
        "1 month ago".to_string()
    } else if s < YEAR {
        count(s / MONTH, " months ago")
    } else if s < 2 * YEAR {
        "1 year ago".to_string()
    } else {
        count(s / YEAR, " years ago")
    }
}

// ---------------------------------------------------------------------------
// The table
// ---------------------------------------------------------------------------

/// Width of the column of names: the bytes of the longest name, at least four.
pub open spec fn width_of(images: Seq<ImageSummary>) -> nat
    decreases images.len(),
{
    if images.len() == 0 {
        4
    } else {
        let before = width_of(images.drop_last());
        let len = utf8::encode_utf8(images.last().reference@).len();
        if len > before {
            len
        } else {
            before
        }
    }
}

/// A line of the table.
pub open spec fn line_of(
    name: Seq<char>,
    id: Seq<char>,
    size: Seq<char>,
    modified: Seq<char>,
    width: int,
) -> Seq<char> {
    text::padded(name, width) + "    "@ + text::padded(id, 12) + "    "@ + text::padded(size, 8)
        + "  "@ + modified
}

/// The line for an image whose size is written as `size`.
pub open spec fn line_for(img: ImageSummary, size: Seq<char>, now: i128, width: int) -> Seq<char> {
    line_of(img.reference@, shortened(img.digest@), size, since(img.modified_at, now), width)
}

/// The lines of the table: none without images.
pub open spec fn table(images: Seq<ImageSummary>, sizes: Seq<Seq<char>>, now: i128) -> Seq<
    Seq<char>,
> {
    let width = width_of(images) as int;
    if images.len() == 0 {
        Seq::<Seq<char>>::empty()
    } else {
        seq![line_of("NAME"@, "ID"@, "SIZE"@, "MODIFIED"@, width)] + Seq::new(
            images.len(),
            |i: int| line_for(images[i], sizes[i], now, width),
        )
    }
}

fn name_width(images: &Vec<ImageSummary>) -> (r: usize)
    ensures
        r == width_of(images@),
{
    let mut w: usize = 4;
    let mut i: usize = 0;
    while i < images.len()
        invariant
            i <= images.len(),
            w == width_of(images@.take(i as int)),
        decreases images.len() - i,
    {
        assert(images@.take(i + 1).drop_last() =~= images@.take(i as int));
        let len: usize = images[i].reference.as_str().as_bytes().len();
        if len > w {
            w = len;
        }
        i += 1;
    }
    assert(images@.take(i as int) =~= images@);
    w
}

fn line(name: &str, id: &str, size: &str, modified: &str, width: usize) -> (r: String)
    ensures
        r@ == line_of(name@, id@, size@, modified@, width as int),
{
    let mut r: String = text::concat2(text::pad_right(name, width).as_str(), "    ");
    r.append(text::pad_right(id, 12).as_str());
    r.append("    ");
    r.append(text::pad_right(size, 8).as_str());
    r.append("  ");
    r.append(modified);
    r
}

/// The lines of the table, for the sizes of the images as they are written.
pub fn run(images: &Vec<ImageSummary>, sizes: &Vec<String>, now: i128) -> (r: Vec<String>)
    requires
        sizes@.len() == images@.len(),
        is_time(now),
        forall|i: int|
            0 <= i < images@.len() ==> ((#[trigger] images@[i]).modified_at matches Some(x)
                ==> is_time(x)),
    ensures
        text::texts(r@) == table(images@, text::texts(sizes@), now),
{
    let mut r: Vec<String> = Vec::new();
    if images.len() == 0 {
        assert(text::texts(r@) =~= Seq::<Seq<char>>::empty());
        return r;
    }
    let width: usize = name_width(images);
    let ghost head = seq![line_of("NAME"@, "ID"@, "SIZE"@, "MODIFIED"@, width as int)];
    let ghost body = Seq::new(
        images@.len(),
        |i: int| line_for(images@[i], text::texts(sizes@)[i], now, width as int),
    );
    r.push(line("NAME", "ID", "SIZE", "MODIFIED", width));
    assert(text::texts(r@) =~= head + body.take(0));
    let mut i: usize = 0;
    while i < images.len()
        invariant
            i <= images.len(),
            sizes@.len() == images@.len(),
            is_time(now),
            forall|i: int|
                0 <= i < images@.len() ==> ((#[trigger] images@[i]).modified_at matches Some(x)
                    ==> is_time(x)),
            body == Seq::new(
                images@.len(),
                |i: int| line_for(images@[i], text::texts(sizes@)[i], now, width as int),
            ),
            text::texts(r@) == head + body.take(i as int),
        decreases images.len() - i,
    {
        let img: &ImageSummary = &images[i];
        let next: String = line(
            img.reference.as_str(),
            short_id(img.digest.as_str()).as_str(),
            sizes[i].as_str(),
            relative_time(img.modified_at, now).as_str(),
            width,
        );
        let ghost before = text::texts(r@);
        assert(next@ == body[i as int]);
        r.push(next);
        assert(text::texts(r@) =~= before.push(next@));
        assert(head + body.take(i + 1) =~= (head + body.take(i as int)).push(body[i as int]));
        i += 1;
    }
    assert(body.take(i as int) =~= body);
    r
}

// ---------------------------------------------------------------------------
// Laws
// ---------------------------------------------------------------------------

proof fn lemma_bytes_cover_characters(s: Seq<char>)
    ensures
        utf8::encode_utf8(s).len() >= s.len(),
    decreases s.len(),
{
    if s.len() > 0 {
        lemma_bytes_cover_characters(s.drop_first());
    }
}

proof fn lemma_name_fits(images: Seq<ImageSummary>, i: int)
    requires
        0 <= i < images.len(),
    ensures
        images[i].reference@.len() <= width_of(images),
    decreases images.len(),
{
    if i < images.len() - 1 {
        lemma_name_fits(images.drop_last(), i);
    } else {
        lemma_bytes_cover_characters(images.last().reference@);
    }
}

/// The columns line up: in every line the short digest starts at the same
/// place, and so does the size, which is set apart from what follows.
pub proof fn columns_line_up(images: Seq<ImageSummary>, i: int, size: Seq<char>, now: i128)
    requires
        0 <= i < images.len(),
    ensures
        ({
            let width = width_of(images) as int;
            let line = line_for(images[i], size, now, width);
            let id = shortened(images[i].digest@);
            &&& line.subrange(width + 4, width + 4 + id.len()) == id
            &&& line.subrange(width + 20, width + 20 + size.len()) == size
            &&& line.subrange(width + 20 + size.len(), width + 22 + size.len()) == "  "@
        }),
{
    lemma_name_fits(images, i);
    reveal_strlit("    ");
    reveal_strlit("  ");
    let width = width_of(images) as int;
    let line = line_for(images[i], size, now, width);
    let id = shortened(images[i].digest@);
    let name = text::padded(images[i].reference@, width);
    assert(name.len() == width);
    assert(text::padded(id, 12).len() == 12);
    assert(text::padded(id, 12).subrange(0, id.len() as int) =~= id);
    assert(line.subrange(width + 4, width + 4 + id.len()) =~= id);
    assert(line.subrange(width + 20, width + 20 + size.len()) =~= size);
    assert(line.subrange(width + 20 + size.len(), width + 22 + size.len()) =~= "  "@);
}

/// Every image has a line of its own behind the heading: the line starts with its
/// reference, then come its short digest, its size and its age, and nothing else.
pub proof fn every_image_is_listed(
    images: Seq<ImageSummary>,
    sizes: Seq<Seq<char>>,
    now: i128,
    i: int,
)
    requires
        sizes.len() == images.len(),
        0 <= i < images.len(),
    ensures
        table(images, sizes, now).len() == images.len() + 1,
        ({
            let line = table(images, sizes, now)[i + 1];
            let width = width_of(images) as int;
            let id = shortened(images[i].digest@);
            let age = since(images[i].modified_at, now);
            let end = width + 22 + (if sizes[i].len() > 8 {
                sizes[i].len() as int
            } else {
                8
            });
            &&& images[i].reference@.len() <= width
            &&& images[i].reference@.is_prefix_of(line)
            &&& line.subrange(width + 4, width + 4 + id.len()) == id
            &&& line.subrange(width + 20, width + 20 + sizes[i].len()) == sizes[i]
            &&& line.subrange(end, line.len() as int) == age
            &&& forall|j: int|
                images[i].reference@.len() <= j < width + 4 || width + 4 + id.len() <= j < width
                    + 20 || width + 20 + sizes[i].len() <= j < end ==> #[trigger] line[j] == ' '
        }),
{
    reveal_strlit("    ");
    reveal_strlit("  ");
    let width = width_of(images) as int;
    columns_line_up(images, i, sizes[i], now);
    lemma_name_fits(images, i);
    let line = line_for(images[i], sizes[i], now, width);
    assert(table(images, sizes, now)[i + 1] == line);
    let reference = images[i].reference@;
    let name = text::padded(reference, width);
    let id = text::padded(shortened(images[i].digest@), 12);
    let size = text::padded(sizes[i], 8);
    assert(name.len() == width && id.len() == 12);
    assert(line.subrange(0, reference.len() as int) =~= reference);
    assert(line.subrange(width + 22 + size.len(), line.len() as int) =~= since(
        images[i].modified_at,
        now,
    ));
}

/// The heading names the columns, and without images there is no table.
pub proof fn table_has_a_heading(images: Seq<ImageSummary>, sizes: Seq<Seq<char>>, now: i128)
    ensures
        images.len() == 0 ==> table(images, sizes, now).len() == 0,
        images.len() > 0 ==> {
            let head = table(images, sizes, now)[0];
            let width = width_of(images) as int;
            &&& "NAME"@.is_prefix_of(head)
            &&& head.subrange(width + 4, width + 6) == "ID"@
            &&& head.subrange(width + 20, width + 24) == "SIZE"@
            &&& head.subrange(width + 30, head.len() as int) == "MODIFIED"@
        },
{
    if images.len() > 0 {
        reveal_strlit("    ");
        reveal_strlit("  ");
        reveal_strlit("NAME");
        reveal_strlit("ID");
        reveal_strlit("SIZE");
        reveal_strlit("MODIFIED");
        let width = width_of(images) as int;
        lemma_width_is_four(images);
        let head = table(images, sizes, now)[0];
        assert(head == line_of("NAME"@, "ID"@, "SIZE"@, "MODIFIED"@, width));
        assert(head.subrange(0, 4) =~= "NAME"@);
        assert(head.subrange(width + 4, width + 6) =~= "ID"@);
        assert(head.subrange(width + 20, width + 24) =~= "SIZE"@);
        assert(head.subrange(width + 30, head.len() as int) =~= "MODIFIED"@);
    }
}

proof fn lemma_width_is_four(images: Seq<ImageSummary>)
    ensures
        width_of(images) >= 4,
    decreases images.len(),
{
    if images.len() > 0 {
        lemma_width_is_four(images.drop_last());
    }
}

/// The column of names is as wide as the longest name in it, and no wider.
pub proof fn names_column_is_as_wide_as_needed(images: Seq<ImageSummary>)
    ensures
        width_of(images) >= 4,
        forall|i: int|
            0 <= i < images.len() ==> utf8::encode_utf8((#[trigger] images[i]).reference@).len()
                <= width_of(images),
        width_of(images) > 4 ==> exists|i: int|
            0 <= i < images.len() && utf8::encode_utf8((#[trigger] images[i]).reference@).len()
                == width_of(images),
    decreases images.len(),
{
    if images.len() > 0 {
        let d = images.drop_last();
        names_column_is_as_wide_as_needed(d);
        let n = images.len() - 1;
        assert forall|i: int| 0 <= i < images.len() implies utf8::encode_utf8(
            (#[trigger] images[i]).reference@,
        ).len() <= width_of(images) by {
            if i < n {
                assert(d[i] == images[i]);
            }
        }
        if width_of(images) > 4 {
            if width_of(images) == width_of(d) {
                let i = choose|i: int|
                    0 <= i < d.len() && utf8::encode_utf8((#[trigger] d[i]).reference@).len()
                        == width_of(d);
                assert(images[i] == d[i]);
            } else {
                assert(utf8::encode_utf8(images[n].reference@).len() == width_of(images));
            }
        }
    }
}

/// The short digest is the first twelve characters behind the algorithm, or all
/// there are.
pub proof fn short_digest_is_the_start(hex: Seq<char>)
    ensures
        hex.len() >= 12 ==> shortened("sha256:"@ + hex) == hex.subrange(0, 12),
        hex.len() < 12 ==> shortened("sha256:"@ + hex) == hex,
        !"sha256:"@.is_prefix_of(hex) ==> shortened(hex).is_prefix_of(hex) && shortened(hex).len()
            == (if hex.len() < 12 {
            hex.len() as int
        } else {
            12
        }),
{
    let digest = "sha256:"@ + hex;
    let n = "sha256:"@.len() as int;
    assert(digest.subrange(0, n) =~= "sha256:"@);
    assert(digest.subrange(n, digest.len() as int) =~= hex);
    if hex.len() == 12 {
        assert(hex.subrange(0, 12) =~= hex);
    }
}

/// The age of an image counts whole units of the largest kind that fits: minutes,
/// hours, days, weeks, months of thirty days and years of 365 days.
pub proof fn age_counts_whole_units(n: int, rest: int)
    requires
        0 <= n,
        0 <= rest,
    ensures
        rest < 60 ==> ago(rest) == "just now"@,
        1 <= n < 60 && rest < 60 ==> ago(60 * n + rest) == text::decimal(n as nat)
            + " minutes ago"@,
        1 <= n < 24 && rest < 3_600 ==> ago(3_600 * n + rest) == text::decimal(n as nat)
            + " hours ago"@,
        rest < 86_400 ==> ago(86_400 + rest) == "yesterday"@,
        2 <= n < 7 && rest < 86_400 ==> ago(86_400 * n + rest) == text::decimal(n as nat)
            + " days ago"@,
        rest < 604_800 ==> ago(604_800 + rest) == "1 week ago"@,
        2 <= n && rest < 604_800 && 604_800 * n + rest < 2_592_000 ==> ago(604_800 * n + rest)
            == text::decimal(n as nat) + " weeks ago"@,
        rest < 2_592_000 ==> ago(2_592_000 + rest) == "1 month ago"@,
        2 <= n && rest < 2_592_000 && 2_592_000 * n + rest < 31_536_000 ==> ago(
            2_592_000 * n + rest,
        ) == text::decimal(n as nat) + " months ago"@,
        rest < 31_536_000 ==> ago(31_536_000 + rest) == "1 year ago"@,
        2 <= n && rest < 31_536_000 ==> ago(31_536_000 * n + rest) == text::decimal(n as nat)
            + " years ago"@,
{
    if rest < 60 {
        assert((60 * n + rest) / 60 == n);
    }
    if rest < 3_600 {
        assert((3_600 * n + rest) / 3_600 == n);
    }
    if rest < 86_400 {
        assert((86_400 * n + rest) / 86_400 == n);
    }
    if rest < 604_800 {
        assert((604_800 * n + rest) / 604_800 == n);
    }
    if rest < 2_592_000 {
        assert((2_592_000 * n + rest) / 2_592_000 == n);
    }
    if rest < 31_536_000 {
        assert((31_536_000 * n + rest) / 31_536_000 == n);
    }
}

/// The age is that of the whole seconds that went by; what lies ahead is new, and
/// what is not known is called so.
pub proof fn age_is_counted_from_the_change(t: i128, now: i128, secs: int)
    ensures
        t <= now && secs * 1_000_000_000 <= now - t < (secs + 1) * 1_000_000_000 ==> since(
            Some(t),
            now,
        ) == ago(secs),
        t > now ==> since(Some(t), now) == "just now"@,
        since(None, now) == "unknown"@,
{
    if t <= now && secs * 1_000_000_000 <= now - t < (secs + 1) * 1_000_000_000 {
        assert((now - t) / 1_000_000_000 == secs);
    }
}

/// A size is written in the largest unit of a thousand, a million or a thousand
/// million bytes that it reaches, and below that in bytes.
pub proof fn sizes_are_in_the_largest_unit(bytes: u64)
    ensures
        bytes >= 1_000_000_000 ==> unit_for(bytes) == Some((1_000_000_000u64, "GB"@)),
        1_000_000 <= bytes < 1_000_000_000 ==> unit_for(bytes) == Some((1_000_000u64, "MB"@)),
        1_000 <= bytes < 1_000_000 ==> unit_for(bytes) == Some((1_000u64, "kB"@)),
        bytes < 1_000 ==> unit_for(bytes) is None,
{
}

} // verus!
