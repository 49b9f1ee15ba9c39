use vstd::prelude::*;
use crate::sheet::{Kind, MAX_LINES, MAX_TEXT};
use crate::diff::model::{DiffModel, FileModel, HunkModel, LineModel, SectionModel};
use crate::text::{decimal, lemma_decimal_len, lemma_utf8_len_bound, pow10, utf8_len};

verus! {

/// A line to show: what it shows and its text.
pub type Row = (Kind, Seq<char>);

/// A sheet as plain values.
#[verifier::ext_equal]
pub struct SheetModel {
    pub lines: Seq<Row>,
    pub dropped: nat,
}

/// A sheet being laid out: the lines kept, how many were left out, the text bytes kept.
#[verifier::ext_equal]
pub struct Layout {
    pub lines: Seq<Row>,
    pub dropped: nat,
    pub used: nat,
}

pub open spec fn start_layout() -> Layout {
    Layout { lines: Seq::empty(), dropped: 0, used: 0 }
}

/// How many rows a layout has taken in, kept or not.
pub open spec fn placed(l: Layout) -> nat {
    l.lines.len() + l.dropped
}

/// One more row: kept while nothing was left out yet, fewer than `MAX_LINES` lines are kept
/// and its text keeps the kept bytes within `MAX_TEXT`; left out otherwise.
pub open spec fn place(l: Layout, r: Row) -> Layout {
    if l.dropped > 0 || l.lines.len() >= MAX_LINES || l.used + utf8_len(r.1) > MAX_TEXT {
        Layout { lines: l.lines, dropped: l.dropped + 1, used: l.used }
    } else {
        Layout { lines: l.lines.push(r), dropped: l.dropped, used: l.used + utf8_len(r.1) }
    }
}

/// `rows` placed in order.
pub open spec fn place_all(l: Layout, rows: Seq<Row>) -> Layout
    decreases rows.len(),
{
    if rows.len() == 0 {
        l
    } else {
        place(place_all(l, rows.drop_last()), rows.last())
    }
}

/// `"line"` for one, `"lines"` otherwise.
pub open spec fn lines_word(n: nat) -> Seq<char> {
    if n == 1 {
        "line"@
    } else {
        "lines"@
    }
}

/// The closing line that counts the rows left out.
pub open spec fn cut_note(n: nat) -> Seq<char> {
    "… "@ + decimal(n) + " more "@ + lines_word(n) + " than the sheet holds"@
}

/// The sheet a layout ends in: the kept lines, closed by the count of the others if any.
pub open spec fn finish(l: Layout) -> SheetModel {
    SheetModel {
        lines: if l.dropped > 0 {
            l.lines.push((Kind::Cut, cut_note(l.dropped)))
        } else {
            l.lines
        },
        dropped: l.dropped,
    }
}

/// The sheet that shows `rows` under the bounds.
pub open spec fn lay_out(rows: Seq<Row>) -> SheetModel {
    finish(place_all(start_layout(), rows))
}

/// The heading of a sheet: the task and the run.
pub open spec fn heading(task: Seq<char>, run: Seq<char>) -> Seq<char> {
    task + " · "@ + run
}

/// The rows of the sheet for a run whose diff could not be had.
pub open spec fn error_rows(task: Seq<char>, run: Seq<char>, words: Seq<char>) -> Seq<Row> {
    seq![(Kind::Heading, heading(task, run)), (Kind::Error, words)]
}

/// Text bytes over `rows`.
pub open spec fn rows_bytes(rows: Seq<Row>) -> nat
    decreases rows.len(),
{
    if rows.len() == 0 {
        0
    } else {
        rows_bytes(rows.drop_last()) + utf8_len(rows.last().1)
    }
}

pub proof fn lemma_rows_bytes_prefix(rows: Seq<Row>, i: int)
    requires
        0 <= i < rows.len(),
    ensures
        rows_bytes(rows.take(i + 1)) == rows_bytes(rows.take(i)) + utf8_len(rows[i].1),
        rows_bytes(rows.take(i + 1)) <= rows_bytes(rows),
    decreases rows.len() - i,
{
    assert(rows.take(i + 1).drop_last() =~= rows.take(i));
    if i + 1 < rows.len() {
        lemma_rows_bytes_prefix(rows, i + 1);
    } else {
        assert(rows.take(i + 1) =~= rows);
    }
}

pub proof fn lemma_place_all_push(l: Layout, rows: Seq<Row>, r: Row)
    ensures
        place_all(l, rows.push(r)) == place(place_all(l, rows), r),
{
    assert(rows.push(r).drop_last() =~= rows);
}

/// Placing `a` then `b` is placing `a + b`.
pub proof fn lemma_place_all_concat(l: Layout, a: Seq<Row>, b: Seq<Row>)
    ensures
        place_all(place_all(l, a), b) == place_all(l, a + b),
    decreases b.len(),
{
    if b.len() == 0 {
        assert(a + b =~= a);
    } else {
        lemma_place_all_concat(l, a, b.drop_last());
        assert((a + b).drop_last() =~= a + b.drop_last());
    }
}

/// Every row placed is kept or counted.
pub proof fn lemma_place_all_placed(l: Layout, rows: Seq<Row>)
    ensures
        placed(place_all(l, rows)) == placed(l) + rows.len(),
    decreases rows.len(),
{
    if rows.len() > 0 {
        lemma_place_all_placed(l, rows.drop_last());
    }
}


// ---------------------------------------------------------------- the rows of a diff

/// The row a hunk line shows: its sign (or git's marker) and its text.
pub open spec fn hunk_row(l: LineModel) -> Row {
    match l {
        LineModel::Context(t) => (Kind::Context, " "@ + t),
        LineModel::Added(t) => (Kind::Added, "+"@ + t),
        LineModel::Removed(t) => (Kind::Removed, "-"@ + t),
        LineModel::NoNewline => (Kind::Meta, "\\ No newline at end of file"@),
    }
}

/// A hunk: its `@@` header, then its lines.
pub open spec fn hunk_rows(h: HunkModel) -> Seq<Row> {
    seq![(Kind::Meta, h.header)] + h.lines.map_values(|l: LineModel| hunk_row(l))
}

pub open spec fn note_row(n: Seq<char>) -> Row {
    (Kind::Meta, n)
}

/// The name a file is shown by: `old → new` for a rename, else its path.
pub open spec fn file_name(f: FileModel) -> Seq<char> {
    match (f.old, f.new) {
        (Some(o), Some(n)) => if o != n {
            o + " → "@ + n
        } else {
            f.path
        },
        _ => f.path,
    }
}

/// A file's header row: its name and its counts.
pub open spec fn file_heading(f: FileModel) -> Seq<char> {
    file_name(f) + "  +"@ + decimal(f.counts().0) + " −"@ + decimal(f.counts().1)
}

/// A file: its header row, its notes, then its hunks.
pub open spec fn file_rows(f: FileModel) -> Seq<Row> {
    seq![(Kind::File, file_heading(f))] + f.notes.map_values(|n: Seq<char>| note_row(n))
        + f.hunks.map_values(|h: HunkModel| hunk_rows(h)).flatten()
}

/// A section: its title if it has one (and `nothing` when it has no files), then its files.
pub open spec fn section_rows(s: SectionModel) -> Seq<Row> {
    (if s.title.len() > 0 {
        seq![(Kind::Section, s.title)]
    } else {
        Seq::empty()
    }) + (if s.title.len() > 0 && s.files.len() == 0 {
        seq![(Kind::Meta, "nothing"@)]
    } else {
        Seq::empty()
    }) + s.files.map_values(|f: FileModel| file_rows(f)).flatten()
}

/// `"file"` for one, `"files"` otherwise.
pub open spec fn files_word(n: nat) -> Seq<char> {
    if n == 1 {
        "file"@
    } else {
        "files"@
    }
}

/// The totals row: files, added lines, removed lines.
pub open spec fn totals_text(t: (nat, nat, nat)) -> Seq<char> {
    decimal(t.0) + " "@ + files_word(t.0) + " · +"@ + decimal(t.1) + " −"@ + decimal(t.2)
}

/// The rows of the sheet for a run's diff: heading, totals, the sections, the desk's cut line.
pub open spec fn sheet_rows(task: Seq<char>, run: Seq<char>, d: DiffModel) -> Seq<Row> {
    seq![(Kind::Heading, heading(task, run)), (Kind::Totals, totals_text(d.totals()))]
        + d.sections.map_values(|s: SectionModel| section_rows(s)).flatten() + match d.cut {
        Some(c) => seq![(Kind::Cut, "… "@ + c)],
        None => Seq::<Row>::empty(),
    }
}

pub proof fn lemma_flatten_step(h: Seq<Seq<Row>>, i: int)
    requires
        0 <= i < h.len(),
    ensures
        h.take(i + 1).flatten() == h.take(i).flatten() + h[i],
        h.take(i + 1).flatten().len() <= h.flatten().len(),
{
    assert(h.take(i + 1) =~= h.take(i).push(h[i]));
    h.take(i).lemma_flatten_push(h[i]);
    vstd::seq_lib::lemma_flatten_concat(h.take(i + 1), h.skip(i + 1));
    assert(h.take(i + 1) + h.skip(i + 1) =~= h);
}


// ---------------------------------------------------------------- what every layout keeps

/// What holds of a layout that has taken in `rows` from the start: the kept lines are the
/// first rows in order, every other row is counted, the kept bytes are those of the kept
/// lines and stay within `MAX_TEXT`, at most `MAX_LINES` lines are kept, and the first row
/// left out is one that did not fit.
pub open spec fn layout_of(l: Layout, rows: Seq<Row>) -> bool {
    let k = l.lines.len();
    &&& k + l.dropped == rows.len()
    &&& l.lines == rows.take(k as int)
    &&& l.used == rows_bytes(l.lines)
    &&& l.used <= MAX_TEXT
    &&& k <= MAX_LINES
    &&& l.dropped > 0 ==> (k == MAX_LINES || l.used + utf8_len(rows[k as int].1) > MAX_TEXT)
}

proof fn lemma_layout_of(rows: Seq<Row>)
    ensures
        layout_of(place_all(start_layout(), rows), rows),
    decreases rows.len(),
{
    if rows.len() == 0 {
        assert(rows.take(0) =~= Seq::<Row>::empty());
    } else {
        let init = rows.drop_last();
        lemma_layout_of(init);
        let l = place_all(start_layout(), init);
        let k = l.lines.len();
        assert(rows.take(k as int) =~= init.take(k as int));
        if !(l.dropped > 0 || l.lines.len() >= MAX_LINES || l.used + utf8_len(rows.last().1)
            > MAX_TEXT) {
            assert(k == init.len());
            assert(rows.take(k as int + 1) =~= l.lines.push(rows.last()));
            assert(l.lines.push(rows.last()).drop_last() =~= l.lines);
        } else if l.dropped == 0 {
            assert(k == init.len());
        } else {
            assert(rows[k as int] == init[k as int]);
        }
    }
}

/// Laying rows out keeps the first rows in order and counts every other one: with nothing
/// left out the sheet is the rows themselves; otherwise it is the rows that fit, closed by a
/// `Cut` line that says how many stayed out.
pub proof fn law_sheet_keeps_first_rows_and_counts_the_rest(rows: Seq<Row>)
    ensures
        lay_out(rows).dropped <= rows.len(),
        lay_out(rows).dropped == 0 ==> lay_out(rows).lines == rows,
        lay_out(rows).dropped > 0 ==> lay_out(rows).lines == rows.take(
            rows.len() - lay_out(rows).dropped,
        ).push((Kind::Cut, cut_note(lay_out(rows).dropped))),
{
    lemma_layout_of(rows);
    let l = place_all(start_layout(), rows);
    if l.dropped == 0 {
        assert(rows.take(rows.len() as int) =~= rows);
    }
}

/// A row is left out only when it no longer fits: `MAX_LINES` lines are already kept, or
/// its text would take the kept bytes past `MAX_TEXT`; every row after it is left out too.
pub proof fn law_sheet_drops_only_what_does_not_fit(rows: Seq<Row>)
    ensures
        ({
            let s = lay_out(rows);
            let k = rows.len() - s.dropped;
            s.dropped > 0 ==> (k == MAX_LINES || rows_bytes(rows.take(k)) + utf8_len(rows[k].1)
                > MAX_TEXT)
        }),
{
    lemma_layout_of(rows);
}

/// The kept lines number at most `MAX_LINES` and hold at most `MAX_TEXT` bytes of text;
/// with the closing `Cut` line the sheet has at most `MAX_LINES + 1` lines.
pub proof fn law_sheet_stays_within_bounds(rows: Seq<Row>)
    ensures
        lay_out(rows).lines.len() <= MAX_LINES + 1,
        rows_bytes(rows.take(rows.len() - lay_out(rows).dropped)) <= MAX_TEXT,
{
    lemma_layout_of(rows);
}


/// The closing line takes at most 216 bytes.
proof fn lemma_cut_note_bytes(n: nat)
    requires
        n <= usize::MAX,
    ensures
        utf8_len(cut_note(n)) <= 216,
{
    assert(usize::MAX < pow10(20)) by {
        reveal_with_fuel(pow10, 21);
    }
    lemma_decimal_len(n, 20);
    reveal_strlit("… ");
    reveal_strlit(" more ");
    reveal_strlit("line");
    reveal_strlit("lines");
    reveal_strlit(" than the sheet holds");
    lemma_utf8_len_bound(cut_note(n));
}

/// A sheet fits the desk's tree: with the column that holds them, its lines make at most
/// 5,000 nodes, and their text is under 65,536 bytes.
pub proof fn law_sheet_fits_the_tree(rows: Seq<Row>)
    requires
        rows.len() <= usize::MAX,
    ensures
        lay_out(rows).lines.len() + 1 <= 5000,
        rows_bytes(lay_out(rows).lines) < 65536,
{
    lemma_layout_of(rows);
    let l = place_all(start_layout(), rows);
    if l.dropped > 0 {
        lemma_cut_note_bytes(l.dropped);
        assert(l.lines.push((Kind::Cut, cut_note(l.dropped))).drop_last() =~= l.lines);
    }
}

} // verus!
