//! One directory's listing: its entries ordered, and one row of text per
//! entry with the tree connector, the label, and the prefix that the
//! listing of a subdirectory continues with.
use crate::order::{bytes_le, key_views, stable_order, stably_sorted, SortKey};
use crate::style::Palette;
use vstd::prelude::*;
use vstd::string::*;

verus! {

/// A member of a directory: its base name, whether it is a directory, and,
/// for a file, its line count (ignored for a directory).
pub struct Entry {
    pub name: String,
    pub is_dir: bool,
    pub lines: usize,
}

impl Entry {
    /// A file entry.
    pub fn file(name: &str, lines: usize) -> (r: Entry)
        ensures
            r.name@ == name@,
            !r.is_dir,
            r.lines == lines,
    {
        Entry { name: String::from_str(name), is_dir: false, lines }
    }

    /// A directory entry.
    pub fn dir(name: &str) -> (r: Entry)
        ensures
            r.name@ == name@,
            r.is_dir,
            r.lines == 0,
    {
        Entry { name: String::from_str(name), is_dir: true, lines: 0 }
    }
}

/// The lower-case form of a string, as UTF-8 bytes.
pub uninterp spec fn lowercase_utf8(s: Seq<char>) -> Seq<u8>;

/// Relies on `str::to_lowercase` (then `String::into_bytes`): the result
/// depends on the characters alone, and the empty string stays empty.
#[verifier::external_body]
fn lowercase_bytes(s: &str) -> (r: Vec<u8>)
    ensures
        r@ == lowercase_utf8(s@),
        s@.len() == 0 ==> r@.len() == 0,
{
    s.to_lowercase().into_bytes()
}

/// The count an entry is ordered by when ordering by lines. A directory is
/// not a file whose lines can be read: it counts as zero, so directories come
/// first, in their order of listing.
pub open spec fn line_key(e: Entry) -> nat {
    if e.is_dir {
        0
    } else {
        e.lines as nat
    }
}

/// The sort keys of the entries: their line counts, or their lower-case names.
pub open spec fn mode_keys(entries: Seq<Entry>, by_lines: bool) -> Seq<(nat, Seq<u8>)> {
    entries.map_values(
        |e: Entry|
            if by_lines {
                (line_key(e), Seq::<u8>::empty())
            } else {
                (0nat, lowercase_utf8(e.name@))
            },
    )
}

/// The sort keys of `entries` under the chosen mode.
pub fn sort_keys(entries: &Vec<Entry>, by_lines: bool) -> (keys: Vec<SortKey>)
    ensures
        key_views(keys@) == mode_keys(entries@, by_lines),
{
    let mut keys: Vec<SortKey> = Vec::new();
    let mut i: usize = 0;
    while i < entries.len()
        invariant
            i <= entries@.len(),
            keys@.len() == i,
            key_views(keys@) == mode_keys(entries@, by_lines).subrange(0, i as int),
        decreases entries@.len() - i,
    {
        let e = &entries[i];
        let key = if by_lines {
            SortKey { count: if e.is_dir { 0 } else { e.lines }, text: Vec::new() }
        } else {
            SortKey { count: 0, text: lowercase_bytes(e.name.as_str()) }
        };
        let ghost before = keys@;
        keys.push(key);
        assert(key_views(keys@) =~= mode_keys(entries@, by_lines).subrange(0, i as int + 1)) by {
            assert(keys@ == before.push(key));
            assert(key@ == mode_keys(entries@, by_lines)[i as int]);
            assert forall|k: int| 0 <= k < i implies key_views(keys@)[k] == key_views(before)[k] by {
                assert(keys@[k] == before[k]);
            }
            assert(key_views(before) =~= mode_keys(entries@, by_lines).subrange(0, i as int));
        }
        i = i + 1;
    }
    assert(mode_keys(entries@, by_lines).subrange(0, i as int) =~= mode_keys(entries@, by_lines));
    keys
}

/// The indices of `entries` in the order they are listed: ascending line
/// count when `by_lines`, else ascending lower-case name; ties keep their
/// order.
pub fn order_entries(entries: &Vec<Entry>, by_lines: bool) -> (order: Vec<usize>)
    ensures
        stably_sorted(mode_keys(entries@, by_lines), order@),
{
    let keys = sort_keys(entries, by_lines);
    stable_order(&keys)
}

/// The character of a decimal digit.
pub open spec fn digit_char(d: nat) -> char {
    if d == 0 {
        '0'
    } else if d == 1 {
        '1'
    } else if d == 2 {
        '2'
    } else if d == 3 {
        '3'
    } else if d == 4 {
        '4'
    } else if d == 5 {
        '5'
    } else if d == 6 {
        '6'
    } else if d == 7 {
        '7'
    } else if d == 8 {
        '8'
    } else {
        '9'
    }
}

/// The decimal digits of `n`, without sign or leading zeros.
pub open spec fn decimal(n: nat) -> Seq<char>
    decreases n,
{
    if n < 10 {
        seq![digit_char(n)]
    } else {
        decimal(n / 10).push(digit_char(n % 10))
    }
}

/// Relies on `usize`'s `Display` (through `ToString::to_string`): the decimal
/// digits of the number, with no sign, padding or leading zeros.
#[verifier::external_body]
fn decimal_string(n: usize) -> (r: String)
    ensures
        r@ == decimal(n as nat),
{
    n.to_string()
}

/// The connector drawn before an entry: a corner for the last sibling, a tee
/// for the others.
pub open spec fn connector(last: bool) -> Seq<char> {
    if last {
        "└── "@
    } else {
        "├── "@
    }
}

/// What a subdirectory's rows are indented by beyond its parent's prefix: a
/// vertical bar while siblings follow, blank after the last one.
pub open spec fn continuation(last: bool) -> Seq<char> {
    if last {
        "    "@
    } else {
        "│   "@
    }
}

/// An entry's label: a directory's name with a trailing `/` in the directory
/// look; a file's name in the name look, then `, <count> lines` in the count
/// look.
pub open spec fn label_text(e: Entry, p: Palette) -> Seq<char> {
    if e.is_dir {
        p.dir.open@ + (e.name@ + "/"@) + p.dir.close@
    } else {
        p.name.open@ + e.name@ + p.name.close@ + (p.count.open@ + (", "@ + decimal(
            e.lines as nat,
        ) + " lines"@) + p.count.close@)
    }
}

/// The text of an entry's row.
pub open spec fn row_text(e: Entry, prefix: Seq<char>, last: bool, p: Palette) -> Seq<char> {
    prefix + connector(last) + label_text(e, p)
}

/// One row of a listing: its text, the index of the entry it shows, and, for
/// a directory, the prefix its own listing is drawn with.
pub struct Row {
    pub text: String,
    pub entry: usize,
    pub child_prefix: Option<String>,
}

/// `r` is the row of entry `e` under `prefix`, as the last sibling or not.
pub open spec fn row_fits(r: Row, e: Entry, prefix: Seq<char>, last: bool, p: Palette) -> bool {
    &&& r.text@ == row_text(e, prefix, last, p)
    &&& match r.child_prefix {
        Some(c) => e.is_dir && c@ == prefix + continuation(last),
        None => !e.is_dir,
    }
}

/// The entry indices of a sequence of rows.
pub open spec fn row_entries(rows: Seq<Row>) -> Seq<usize> {
    Seq::new(rows.len(), |k: int| rows[k].entry)
}

/// The label of an entry.
pub fn label(e: &Entry, palette: &Palette) -> (r: String)
    ensures
        r@ == label_text(*e, *palette),
{
    if e.is_dir {
        let t = e.name.clone().concat("/");
        palette.dir.paint(t.as_str())
    } else {
        let digits = decimal_string(e.lines);
        let annotation = String::from_str(", ").concat(digits.as_str()).concat(" lines");
        let name = palette.name.paint(e.name.as_str());
        let count = palette.count.paint(annotation.as_str());
        name.concat(count.as_str())
    }
}

/// The row of one entry.
pub fn row(e: &Entry, index: usize, prefix: &str, last: bool, palette: &Palette) -> (r: Row)
    ensures
        r.entry == index,
        row_fits(r, *e, prefix@, last, *palette),
{
    let connector: &str = if last {
        "└── "
    } else {
        "├── "
    };
    let text = String::from_str(prefix).concat(connector).concat(label(e, palette).as_str());
    let child_prefix = if e.is_dir {
        let continuation: &str = if last {
            "    "
        } else {
            "│   "
        };
        Some(String::from_str(prefix).concat(continuation))
    } else {
        None
    };
    Row { text, entry: index, child_prefix }
}

/// The rows of the entries that `order` lists, in that order; the last one
/// is drawn as the last sibling.
pub fn layout_rows(entries: &Vec<Entry>, order: &Vec<usize>, prefix: &str, palette: &Palette) -> (rows: Vec<Row>)
    requires
        forall|k: int| 0 <= k < order@.len() ==> order@[k] < entries@.len(),
    ensures
        rows@.len() == order@.len(),
        forall|k: int|
            0 <= k < rows@.len() ==> (#[trigger] rows@[k]).entry == order@[k] && row_fits(
                rows@[k],
                entries@[order@[k] as int],
                prefix@,
                k == rows@.len() - 1,
                *palette,
            ),
{
    let n = order.len();
    let mut rows: Vec<Row> = Vec::new();
    let mut k: usize = 0;
    while k < n
        invariant
            n == order@.len(),
            k <= n,
            rows@.len() == k,
            forall|k: int| 0 <= k < order@.len() ==> order@[k] < entries@.len(),
            forall|j: int|
                0 <= j < k ==> (#[trigger] rows@[j]).entry == order@[j] && row_fits(
                    rows@[j],
                    entries@[order@[j] as int],
                    prefix@,
                    j == n - 1,
                    *palette,
                ),
        decreases n - k,
    {
        let r = row(&entries[order[k]], order[k], prefix, k + 1 == n, palette);
        rows.push(r);
        k = k + 1;
    }
    rows
}

/// The listing of one directory: a row per entry, in the order of
/// `order_entries`, each with its connector, its label and, for a
/// directory, the prefix of its own listing.
pub fn listing(entries: &Vec<Entry>, prefix: &str, by_lines: bool, palette: &Palette) -> (rows: Vec<Row>)
    ensures
        rows@.len() == entries@.len(),
        stably_sorted(mode_keys(entries@, by_lines), row_entries(rows@)),
        forall|k: int|
            0 <= k < rows@.len() ==> row_fits(
                #[trigger] rows@[k],
                entries@[rows@[k].entry as int],
                prefix@,
                k == rows@.len() - 1,
                *palette,
            ),
{
    let order = order_entries(entries, by_lines);
    let rows = layout_rows(entries, &order, prefix, palette);
    assert(row_entries(rows@) =~= order@);
    rows
}

/// Ordered by name, a listing visits the entries in ascending order of
/// their lower-case names.
pub proof fn lemma_names_ascend(entries: Seq<Entry>, order: Seq<usize>)
    requires
        stably_sorted(mode_keys(entries, false), order),
    ensures
        forall|i: int, j: int|
            0 <= i < j < order.len() ==> bytes_le(
                lowercase_utf8(#[trigger] entries[order[i] as int].name@),
                lowercase_utf8(#[trigger] entries[order[j] as int].name@),
            ),
{
    let keys = mode_keys(entries, false);
    assert forall|i: int, j: int| 0 <= i < j < order.len() implies bytes_le(
        lowercase_utf8(#[trigger] entries[order[i] as int].name@),
        lowercase_utf8(#[trigger] entries[order[j] as int].name@),
    ) by {
        assert(keys[order[i] as int] == (0nat, lowercase_utf8(entries[order[i] as int].name@)));
        assert(keys[order[j] as int] == (0nat, lowercase_utf8(entries[order[j] as int].name@)));
    }
}

/// Ordered by lines, a listing of files whose line counts differ visits them
/// in strictly ascending order of line count.
pub proof fn lemma_counts_ascend(entries: Seq<Entry>, order: Seq<usize>)
    requires
        stably_sorted(mode_keys(entries, true), order),
        forall|i: int| 0 <= i < entries.len() ==> !(#[trigger] entries[i]).is_dir,
        forall|i: int, j: int|
            0 <= i < j < entries.len() ==> (#[trigger] entries[i]).lines != (#[trigger] entries[j]).lines,
    ensures
        forall|i: int, j: int|
            0 <= i < j < order.len() ==> (#[trigger] entries[order[i] as int]).lines < (
            #[trigger] entries[order[j] as int]).lines,
{
    let keys = mode_keys(entries, true);
    assert forall|i: int, j: int| 0 <= i < j < order.len() implies (
    #[trigger] entries[order[i] as int]).lines < (#[trigger] entries[order[j] as int]).lines by {
        let a = order[i] as int;
        let b = order[j] as int;
        assert(keys[a] == (entries[a].lines as nat, Seq::<u8>::empty()));
        assert(keys[b] == (entries[b].lines as nat, Seq::<u8>::empty()));
        if a < b {
            assert(entries[a].lines != entries[b].lines);
        } else {
            assert(entries[b].lines != entries[a].lines);
        }
    }
}

} // verus!
