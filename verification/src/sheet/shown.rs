use vstd::prelude::*;
use crate::diff::model::{DiffModel, FileModel, HunkModel, LineModel, SectionModel};
use crate::sheet::Kind;
use crate::sheet::layout::{Row, file_name, file_rows, hunk_rows, section_rows, sheet_rows};
use crate::text::decimal;

verus! {

/// `small` stands in `big` from index `p` on.
pub open spec fn stands_at(big: Seq<Row>, small: Seq<Row>, p: int) -> bool {
    0 <= p && p + small.len() <= big.len() && big.subrange(p, p + small.len()) == small
}

proof fn lemma_stands_in_concat(a: Seq<Row>, b: Seq<Row>)
    ensures
        stands_at(a + b, a, 0),
        stands_at(a + b, b, a.len() as int),
{
    assert((a + b).subrange(0, a.len() as int) =~= a);
    assert((a + b).subrange(a.len() as int, (a.len() + b.len()) as int) =~= b);
}

proof fn lemma_stands_trans(a: Seq<Row>, b: Seq<Row>, c: Seq<Row>, p: int, q: int)
    requires
        stands_at(a, b, p),
        stands_at(b, c, q),
    ensures
        stands_at(a, c, p + q),
{
    assert(a.subrange(p + q, p + q + c.len()) =~= b.subrange(q, q + c.len()));
}

proof fn lemma_stands_in_flatten(s: Seq<Seq<Row>>, i: int)
    requires
        0 <= i < s.len(),
    ensures
        stands_at(s.flatten(), s[i], s.take(i).flatten().len() as int),
{
    let a = s.take(i);
    let b = seq![s[i]];
    let c = s.skip(i + 1);
    assert(s =~= a + b + c);
    vstd::seq_lib::lemma_flatten_concat(a + b, c);
    vstd::seq_lib::lemma_flatten_concat(a, b);
    b.lemma_flatten_singleton();
    lemma_stands_in_concat(a.flatten() + s[i], c.flatten());
    lemma_stands_in_concat(a.flatten(), s[i]);
    lemma_stands_trans(a.flatten() + s[i] + c.flatten(), a.flatten() + s[i], s[i], 0, a.flatten().len() as int);
}

/// The rows of file `j` of section `i` stand in the sheet's rows.
proof fn lemma_file_stands(task: Seq<char>, run: Seq<char>, d: DiffModel, i: int, j: int) -> (p:
    int)
    requires
        0 <= i < d.sections.len(),
        0 <= j < d.sections[i].files.len(),
    ensures
        stands_at(sheet_rows(task, run, d), file_rows(d.sections[i].files[j]), p),
{
    let rows = sheet_rows(task, run, d);
    let top: Seq<Row> = seq![
        (Kind::Heading, crate::sheet::layout::heading(task, run)),
        (Kind::Totals, crate::sheet::layout::totals_text(d.totals())),
    ];
    let ss = d.sections.map_values(|s: SectionModel| section_rows(s));
    let cut: Seq<Row> = match d.cut {
        Some(c) => seq![(Kind::Cut, "… "@ + c)],
        None => Seq::<Row>::empty(),
    };
    assert(rows == top + ss.flatten() + cut);
    lemma_stands_in_concat(top + ss.flatten(), cut);
    lemma_stands_in_concat(top, ss.flatten());
    lemma_stands_trans(rows, top + ss.flatten(), ss.flatten(), 0, 2);
    lemma_stands_in_flatten(ss, i);
    let p1: int = 2 + ss.take(i).flatten().len() as int;
    lemma_stands_trans(rows, ss.flatten(), ss[i], 2, ss.take(i).flatten().len() as int);
    let s = d.sections[i];
    let title: Seq<Row> = if s.title.len() > 0 {
        seq![(Kind::Section, s.title)]
    } else {
        Seq::empty()
    };
    let nothing: Seq<Row> = if s.title.len() > 0 && s.files.len() == 0 {
        seq![(Kind::Meta, "nothing"@)]
    } else {
        Seq::empty()
    };
    let fs = s.files.map_values(|f: FileModel| file_rows(f));
    assert(section_rows(s) == title + nothing + fs.flatten());
    lemma_stands_in_concat(title + nothing, fs.flatten());
    lemma_stands_trans(rows, section_rows(s), fs.flatten(), p1, (title + nothing).len() as int);
    let p2: int = p1 + (title + nothing).len();
    lemma_stands_in_flatten(fs, j);
    lemma_stands_trans(rows, fs.flatten(), fs[j], p2, fs.take(j).flatten().len() as int);
    p2 + fs.take(j).flatten().len() as int
}

/// Every file has a `File` row on the sheet, and it shows the file's own counts: its name,
/// then `+` with the number of added lines and `−` with the number of removed lines over all
/// of its hunks.
pub proof fn law_each_file_row_shows_its_counts(
    task: Seq<char>,
    run: Seq<char>,
    d: DiffModel,
    i: int,
    j: int,
)
    requires
        0 <= i < d.sections.len(),
        0 <= j < d.sections[i].files.len(),
    ensures
        ({
            let f = d.sections[i].files[j];
            let rows = sheet_rows(task, run, d);
            exists|p: int|
                0 <= p < rows.len() && #[trigger] rows[p] == (
                    Kind::File,
                    file_name(f) + "  +"@ + decimal(f.counts().0) + " −"@ + decimal(f.counts().1),
                )
        }),
{
    let rows = sheet_rows(task, run, d);
    let f = d.sections[i].files[j];
    let p = lemma_file_stands(task, run, d, i, j);
    assert(rows[p] == rows.subrange(p, p + file_rows(f).len())[0]);
    assert(file_rows(f)[0] == (
        Kind::File,
        file_name(f) + "  +"@ + decimal(f.counts().0) + " −"@ + decimal(f.counts().1),
    ));
}

/// Every line of every hunk has its row on the sheet: git's marker for it followed by its
/// text, `" "` for context, `"+"` for an added line, `"-"` for a removed one, of the kind of
/// the line; git's no-newline marker shows as a note.
pub proof fn law_each_hunk_line_shows_with_its_marker(
    task: Seq<char>,
    run: Seq<char>,
    d: DiffModel,
    i: int,
    j: int,
    k: int,
    m: int,
)
    requires
        0 <= i < d.sections.len(),
        0 <= j < d.sections[i].files.len(),
        0 <= k < d.sections[i].files[j].hunks.len(),
        0 <= m < d.sections[i].files[j].hunks[k].lines.len(),
    ensures
        ({
            let rows = sheet_rows(task, run, d);
            let row = match d.sections[i].files[j].hunks[k].lines[m] {
                LineModel::Context(t) => (Kind::Context, seq![' '] + t),
                LineModel::Added(t) => (Kind::Added, seq!['+'] + t),
                LineModel::Removed(t) => (Kind::Removed, seq!['-'] + t),
                LineModel::NoNewline => (Kind::Meta, "\\ No newline at end of file"@),
            };
            exists|p: int| 0 <= p < rows.len() && #[trigger] rows[p] == row
        }),
{
    let rows = sheet_rows(task, run, d);
    let f = d.sections[i].files[j];
    let h = f.hunks[k];
    let p = lemma_file_stands(task, run, d, i, j);
    let head: Seq<Row> = seq![(Kind::File, crate::sheet::layout::file_heading(f))];
    let notes = f.notes.map_values(|n: Seq<char>| crate::sheet::layout::note_row(n));
    let hs = f.hunks.map_values(|h: HunkModel| hunk_rows(h));
    assert(file_rows(f) == head + notes + hs.flatten());
    lemma_stands_in_concat(head + notes, hs.flatten());
    lemma_stands_trans(rows, file_rows(f), hs.flatten(), p, (head + notes).len() as int);
    let p2: int = p + (head + notes).len();
    lemma_stands_in_flatten(hs, k);
    lemma_stands_trans(rows, hs.flatten(), hs[k], p2, hs.take(k).flatten().len() as int);
    let p3: int = p2 + hs.take(k).flatten().len();
    let q = p3 + 1 + m;
    assert(rows[q] == rows.subrange(p3, p3 + hunk_rows(h).len())[1 + m]);
    assert(hunk_rows(h)[1 + m] == crate::sheet::layout::hunk_row(h.lines[m]));
    reveal_strlit(" ");
    reveal_strlit("+");
    reveal_strlit("-");
    assert(" "@ =~= seq![' ']);
    assert("+"@ =~= seq!['+']);
    assert("-"@ =~= seq!['-']);
}

} // verus!
