use vstd::prelude::*;
use crate::chars::lemma_index_from_bounds;
use crate::chars::index_from;
use crate::diff::model::{
    DiffModel, FileModel, HunkModel, LineModel, ParseState, SectionModel, file_line, has_file,
    head_step, hunk_line, hunk_open, last_file, lines_from, lines_of, new_file, new_section,
    parse_text, push_hunk_line, run, set_last_file, set_last_section, start_state, state_ok,
    step, with_section, files_tally, hunks_tally, lines_tally, sections_files, sections_tally,
    lemma_step_ok,
};
use crate::sheet::Kind;
use crate::sheet::layout::{
    Row, file_rows, hunk_row, hunk_rows, lay_out, law_sheet_keeps_first_rows_and_counts_the_rest,
    section_rows, sheet_rows,
};

verus! {

proof fn lemma_flat_push<A>(s: Seq<A>, f: spec_fn(A) -> Seq<Row>, x: A)
    ensures
        s.push(x).map_values(f).flatten().len() == s.map_values(f).flatten().len() + f(x).len(),
{
    assert(s.push(x).map_values(f) =~= s.map_values(f).push(f(x)));
    s.map_values(f).lemma_flatten_push(f(x));
}

proof fn lemma_flat_update_last<A>(s: Seq<A>, f: spec_fn(A) -> Seq<Row>, x: A)
    requires
        s.len() > 0,
    ensures
        s.update(s.len() - 1, x).map_values(f).flatten().len() + f(s.last()).len()
            == s.map_values(f).flatten().len() + f(x).len(),
{
    let init = s.drop_last();
    assert(s.update(s.len() - 1, x) =~= init.push(x));
    assert(s =~= init.push(s.last()));
    lemma_flat_push(init, f, x);
    lemma_flat_push(init, f, s.last());
}

/// How many rows a diff's sections and cut line show.
pub open spec fn diff_rows_len(d: DiffModel) -> nat {
    d.sections.map_values(|s: SectionModel| section_rows(s)).flatten().len() + if d.cut is Some {
        1nat
    } else {
        0nat
    }
}

proof fn lemma_section_update(d: DiffModel, s2: SectionModel)
    requires
        d.sections.len() > 0,
    ensures
        diff_rows_len(set_last_section(d, s2)) + section_rows(d.sections.last()).len()
            == diff_rows_len(d) + section_rows(s2).len(),
        set_last_section(d, s2).totals().0 + d.sections.last().files.len() == d.totals().0
            + s2.files.len(),
        set_last_section(d, s2).totals().1 + files_tally(d.sections.last().files, true)
            == d.totals().1 + files_tally(s2.files, true),
        set_last_section(d, s2).totals().2 + files_tally(d.sections.last().files, false)
            == d.totals().2 + files_tally(s2.files, false),
{
    let ss = d.sections;
    lemma_flat_update_last(ss, |s: SectionModel| section_rows(s), s2);
    assert(ss.update(ss.len() - 1, s2).drop_last() =~= ss.drop_last());
}

proof fn lemma_file_update(d: DiffModel, f2: FileModel)
    requires
        has_file(d),
    ensures
        diff_rows_len(set_last_file(d, f2)) + file_rows(last_file(d)).len() == diff_rows_len(d)
            + file_rows(f2).len(),
        set_last_file(d, f2).totals().0 == d.totals().0,
        set_last_file(d, f2).totals().1 + hunks_tally(last_file(d).hunks, true) == d.totals().1
            + hunks_tally(f2.hunks, true),
        set_last_file(d, f2).totals().2 + hunks_tally(last_file(d).hunks, false) == d.totals().2
            + hunks_tally(f2.hunks, false),
{
    let s = d.sections.last();
    let fs = s.files;
    let s2 = SectionModel { title: s.title, stat: s.stat, files: fs.update(fs.len() - 1, f2) };
    lemma_section_update(d, s2);
    lemma_flat_update_last(fs, |f: FileModel| file_rows(f), f2);
    assert(fs.update(fs.len() - 1, f2).drop_last() =~= fs.drop_last());
}

proof fn lemma_hunk_line(d: DiffModel, l: LineModel)
    requires
        hunk_open(d),
    ensures
        diff_rows_len(push_hunk_line(d, l)) == diff_rows_len(d) + 1,
        push_hunk_line(d, l).totals().0 == d.totals().0,
        push_hunk_line(d, l).totals().1 <= d.totals().1 + 1,
        push_hunk_line(d, l).totals().2 <= d.totals().2 + 1,
{
    let f = last_file(d);
    let hs = f.hunks;
    let h = hs.last();
    let h2 = HunkModel { header: h.header, lines: h.lines.push(l) };
    let f2 = FileModel { hunks: hs.update(hs.len() - 1, h2), ..f };
    lemma_file_update(d, f2);
    lemma_flat_update_last(hs, |h: HunkModel| hunk_rows(h), h2);
    assert(hs.update(hs.len() - 1, h2).drop_last() =~= hs.drop_last());
    assert(h.lines.push(l).drop_last() =~= h.lines);
}

proof fn lemma_file_line(f: FileModel, line: Seq<char>)
    ensures
        file_rows(file_line(f, line).0).len() <= file_rows(f).len() + 1,
        hunks_tally(file_line(f, line).0.hunks, true) == hunks_tally(f.hunks, true),
        hunks_tally(file_line(f, line).0.hunks, false) == hunks_tally(f.hunks, false),
{
    let x = HunkModel { header: line, lines: Seq::empty() };
    lemma_flat_push(f.hunks, |h: HunkModel| hunk_rows(h), x);
    assert(f.hunks.push(x).drop_last() =~= f.hunks);
    assert(hunk_rows(x).len() == 1) by {
        assert(x.lines.map_values(|l: LineModel| hunk_row(l)) =~= Seq::<Row>::empty());
    }
}

proof fn lemma_head_step(d: DiffModel, line: Seq<char>)
    ensures
        diff_rows_len(head_step(d, line).diff) <= diff_rows_len(d) + 2,
        head_step(d, line).diff.totals().0 <= d.totals().0 + 1,
        head_step(d, line).diff.totals().1 == d.totals().1,
        head_step(d, line).diff.totals().2 == d.totals().2,
{
    let d2 = with_section(d);
    let empty = new_section(Seq::empty());
    assert(section_rows(empty).len() == 0) by {
        assert(empty.files.map_values(|f: FileModel| file_rows(f)) =~= Seq::<Seq<Row>>::empty());
    }
    if d.sections.len() == 0 {
        lemma_flat_push(d.sections, |s: SectionModel| section_rows(s), empty);
        assert(d2.sections =~= d.sections.push(empty));
        assert(d2.sections.drop_last() =~= d.sections);
    }
    let ss = d.sections;
    if crate::chars::has_prefix(line, "# "@) {
        let x = new_section(crate::chars::after(line, "# "@));
        lemma_flat_push(ss, |s: SectionModel| section_rows(s), x);
        assert(x.files.map_values(|f: FileModel| file_rows(f)) =~= Seq::<Seq<Row>>::empty());
        assert(ss.push(x).drop_last() =~= ss);
    } else if crate::chars::has_prefix(line, "… "@) {
    } else if crate::chars::has_prefix(line, "diff --git "@) {
        let sides = crate::diff::model::git_sides(crate::chars::after(line, "diff --git "@));
        let s = d2.sections.last();
        let nf = new_file(crate::diff::model::header_path(sides), sides.0, sides.1);
        let s2 = SectionModel { files: s.files.push(nf), ..s };
        lemma_section_update(d2, s2);
        lemma_flat_push(s.files, |f: FileModel| file_rows(f), nf);
        assert(file_rows(nf).len() == 1) by {
            assert(nf.hunks.map_values(|h: HunkModel| hunk_rows(h)) =~= Seq::<Seq<Row>>::empty());
        }
        assert(s.files.push(nf).drop_last() =~= s.files);
    } else if has_file(d) {
        lemma_file_update(d, file_line(last_file(d), line).0);
        lemma_file_line(last_file(d), line);
    } else if crate::chars::trim(line).len() > 0 {
        let s = d2.sections.last();
        let s2 = SectionModel { stat: s.stat.push(crate::chars::trim(line)), ..s };
        lemma_section_update(d2, s2);
    }
}

proof fn lemma_step_grows(st: ParseState, line: Seq<char>)
    requires
        state_ok(st),
    ensures
        diff_rows_len(step(st, line).diff) <= diff_rows_len(st.diff) + 2,
        step(st, line).diff.totals().0 <= st.diff.totals().0 + 1,
        step(st, line).diff.totals().1 <= st.diff.totals().1 + 1,
        step(st, line).diff.totals().2 <= st.diff.totals().2 + 1,
{
    if st.in_hunk && hunk_line(line) is Some {
        lemma_hunk_line(st.diff, hunk_line(line)->0);
    } else {
        lemma_head_step(st.diff, line);
    }
}

proof fn lemma_run_grows(st: ParseState, lines: Seq<Seq<char>>)
    requires
        state_ok(st),
    ensures
        diff_rows_len(run(st, lines).diff) <= diff_rows_len(st.diff) + 2 * lines.len(),
        run(st, lines).diff.totals().0 <= st.diff.totals().0 + lines.len(),
        run(st, lines).diff.totals().1 <= st.diff.totals().1 + lines.len(),
        run(st, lines).diff.totals().2 <= st.diff.totals().2 + lines.len(),
    decreases lines.len(),
{
    if lines.len() > 0 {
        lemma_step_ok(st, lines[0]);
        lemma_step_grows(st, lines[0]);
        lemma_run_grows(step(st, lines[0]), lines.drop_first());
    }
}

proof fn lemma_lines_count(t: Seq<char>, start: int)
    requires
        0 <= start <= t.len(),
    ensures
        lines_from(t, start).len() <= t.len() - start,
    decreases t.len() - start,
{
    if start < t.len() {
        lemma_index_from_bounds(t, '\n', start);
        let e = index_from(t, '\n', start);
        if e < t.len() {
            lemma_lines_count(t, e + 1);
        }
    }
}

/// Whatever text is parsed, the diff can be laid out: its totals and the number of rows
/// of its sheet fit a `usize` when the text has fewer than half that many characters.
pub proof fn law_parsed_text_fits_the_sheet(task: Seq<char>, run: Seq<char>, t: Seq<char>)
    requires
        2 * t.len() + 2 <= usize::MAX,
    ensures
        parse_text(t).totals_fit(),
        sheet_rows(task, run, parse_text(t)).len() <= usize::MAX,
{
    lemma_lines_count(t, 0);
    lemma_run_grows(start_state(), lines_of(t));
    let d0 = start_state().diff;
    assert(d0.sections.map_values(|s: SectionModel| section_rows(s)) =~= Seq::<Seq<Row>>::empty());
    let d = parse_text(t);
    assert(sheet_rows(task, run, d).len() == 2 + diff_rows_len(d));
}


// ---------------------------------------------------------------- what the totals count

/// How many of `rows` are of kind `k`.
pub open spec fn count_kind(rows: Seq<Row>, k: Kind) -> nat
    decreases rows.len(),
{
    if rows.len() == 0 {
        0
    } else {
        count_kind(rows.drop_last(), k) + if rows.last().0 == k {
            1nat
        } else {
            0nat
        }
    }
}

proof fn lemma_count_single(r: Row, k: Kind)
    ensures
        count_kind(seq![r], k) == if r.0 == k {
            1nat
        } else {
            0nat
        },
        count_kind(Seq::<Row>::empty(), k) == 0,
{
    assert(seq![r].drop_last() =~= Seq::<Row>::empty());
    reveal_with_fuel(count_kind, 2);
}

proof fn lemma_count_concat(a: Seq<Row>, b: Seq<Row>, k: Kind)
    ensures
        count_kind(a + b, k) == count_kind(a, k) + count_kind(b, k),
    decreases b.len(),
{
    if b.len() == 0 {
        assert(a + b =~= a);
    } else {
        lemma_count_concat(a, b.drop_last(), k);
        assert((a + b).drop_last() =~= a + b.drop_last());
    }
}

proof fn lemma_count_flat_push<A>(s: Seq<A>, f: spec_fn(A) -> Seq<Row>, x: A, k: Kind)
    ensures
        count_kind(s.push(x).map_values(f).flatten(), k) == count_kind(s.map_values(f).flatten(), k)
            + count_kind(f(x), k),
{
    assert(s.push(x).map_values(f) =~= s.map_values(f).push(f(x)));
    s.map_values(f).lemma_flatten_push(f(x));
    lemma_count_concat(s.map_values(f).flatten(), f(x), k);
}

/// Added (`true`) or removed (`false`) rows.
pub open spec fn signed_kind(added: bool) -> Kind {
    if added {
        Kind::Added
    } else {
        Kind::Removed
    }
}

proof fn lemma_hunk_lines_count(ls: Seq<LineModel>, added: bool)
    ensures
        count_kind(ls.map_values(|l: LineModel| hunk_row(l)), signed_kind(added)) == lines_tally(
            ls,
            added,
        ),
        count_kind(ls.map_values(|l: LineModel| hunk_row(l)), Kind::File) == 0,
    decreases ls.len(),
{
    if ls.len() > 0 {
        lemma_hunk_lines_count(ls.drop_last(), added);
        assert(ls.map_values(|l: LineModel| hunk_row(l)).drop_last() =~= ls.drop_last().map_values(
            |l: LineModel| hunk_row(l),
        ));
    }
}

proof fn lemma_notes_count(ns: Seq<Seq<char>>, k: Kind)
    requires
        k != Kind::Meta,
    ensures
        count_kind(ns.map_values(|n: Seq<char>| crate::sheet::layout::note_row(n)), k) == 0,
    decreases ns.len(),
{
    if ns.len() > 0 {
        lemma_notes_count(ns.drop_last(), k);
        assert(ns.map_values(|n: Seq<char>| crate::sheet::layout::note_row(n)).drop_last()
            =~= ns.drop_last().map_values(|n: Seq<char>| crate::sheet::layout::note_row(n)));
    }
}

proof fn lemma_hunks_count(hs: Seq<HunkModel>, added: bool)
    ensures
        count_kind(hs.map_values(|h: HunkModel| hunk_rows(h)).flatten(), signed_kind(added))
            == hunks_tally(hs, added),
        count_kind(hs.map_values(|h: HunkModel| hunk_rows(h)).flatten(), Kind::File) == 0,
    decreases hs.len(),
{
    if hs.len() > 0 {
        let init = hs.drop_last();
        let h = hs.last();
        lemma_hunks_count(init, added);
        assert(init.push(h) =~= hs);
        lemma_count_flat_push(init, |h: HunkModel| hunk_rows(h), h, signed_kind(added));
        lemma_count_flat_push(init, |h: HunkModel| hunk_rows(h), h, Kind::File);
        lemma_hunk_lines_count(h.lines, added);
        let head: Seq<Row> = seq![(Kind::Meta, h.header)];
        let body = h.lines.map_values(|l: LineModel| hunk_row(l));
        lemma_count_concat(head, body, signed_kind(added));
        lemma_count_concat(head, body, Kind::File);
        lemma_count_single(head[0], signed_kind(added));
        lemma_count_single(head[0], Kind::File);
        assert(hunk_rows(h) == head + body);
    } else {
        assert(hs.map_values(|h: HunkModel| hunk_rows(h)) =~= Seq::<Seq<Row>>::empty());
    }
}

proof fn lemma_file_count(f: FileModel, added: bool)
    ensures
        count_kind(file_rows(f), signed_kind(added)) == hunks_tally(f.hunks, added),
        count_kind(file_rows(f), Kind::File) == 1,
{
    let head: Seq<Row> = seq![(Kind::File, crate::sheet::layout::file_heading(f))];
    let notes = f.notes.map_values(|n: Seq<char>| crate::sheet::layout::note_row(n));
    let hs = f.hunks.map_values(|h: HunkModel| hunk_rows(h)).flatten();
    lemma_count_concat(head + notes, hs, signed_kind(added));
    lemma_count_concat(head, notes, signed_kind(added));
    lemma_count_concat(head + notes, hs, Kind::File);
    lemma_count_concat(head, notes, Kind::File);
    lemma_notes_count(f.notes, signed_kind(added));
    lemma_notes_count(f.notes, Kind::File);
    lemma_hunks_count(f.hunks, added);
    lemma_count_single(head[0], signed_kind(added));
    lemma_count_single(head[0], Kind::File);
    assert(count_kind(head, Kind::File) == 1);
    assert(count_kind(head, signed_kind(added)) == 0);
    assert(file_rows(f) == head + notes + hs);
}

proof fn lemma_files_count(fs: Seq<FileModel>, added: bool)
    ensures
        count_kind(fs.map_values(|f: FileModel| file_rows(f)).flatten(), signed_kind(added))
            == files_tally(fs, added),
        count_kind(fs.map_values(|f: FileModel| file_rows(f)).flatten(), Kind::File) == fs.len(),
    decreases fs.len(),
{
    if fs.len() > 0 {
        let init = fs.drop_last();
        let f = fs.last();
        lemma_files_count(init, added);
        assert(init.push(f) =~= fs);
        lemma_count_flat_push(init, |f: FileModel| file_rows(f), f, signed_kind(added));
        lemma_count_flat_push(init, |f: FileModel| file_rows(f), f, Kind::File);
        lemma_file_count(f, added);
    } else {
        assert(fs.map_values(|f: FileModel| file_rows(f)) =~= Seq::<Seq<Row>>::empty());
    }
}

proof fn lemma_section_count(s: SectionModel, added: bool)
    ensures
        count_kind(section_rows(s), signed_kind(added)) == files_tally(s.files, added),
        count_kind(section_rows(s), Kind::File) == s.files.len(),
{
    let title: Seq<Row> = if s.title.len() > 0 {
        seq![(Kind::Section, s.title)]
    } else {
        Seq::empty()
    };
    let nothing: Seq<Row> = if s.title.len() > 0 && s.files.len() == 0 {
        seq![(Kind::Meta, "nothing"@)]
    } else {
        Seq::empty()
    };
    let fs = s.files.map_values(|f: FileModel| file_rows(f)).flatten();
    assert(section_rows(s) == title + nothing + fs);
    lemma_count_concat(title + nothing, fs, signed_kind(added));
    lemma_count_concat(title, nothing, signed_kind(added));
    lemma_count_concat(title + nothing, fs, Kind::File);
    lemma_count_concat(title, nothing, Kind::File);
    lemma_files_count(s.files, added);
    lemma_count_single((Kind::Section, s.title), signed_kind(added));
    lemma_count_single((Kind::Section, s.title), Kind::File);
    lemma_count_single((Kind::Meta, "nothing"@), signed_kind(added));
    lemma_count_single((Kind::Meta, "nothing"@), Kind::File);
}

proof fn lemma_sections_count(ss: Seq<SectionModel>, added: bool)
    ensures
        count_kind(ss.map_values(|s: SectionModel| section_rows(s)).flatten(), signed_kind(added))
            == sections_tally(ss, added),
        count_kind(ss.map_values(|s: SectionModel| section_rows(s)).flatten(), Kind::File)
            == sections_files(ss),
    decreases ss.len(),
{
    if ss.len() > 0 {
        let init = ss.drop_last();
        let s = ss.last();
        lemma_sections_count(init, added);
        assert(init.push(s) =~= ss);
        lemma_count_flat_push(init, |s: SectionModel| section_rows(s), s, signed_kind(added));
        lemma_count_flat_push(init, |s: SectionModel| section_rows(s), s, Kind::File);
        lemma_section_count(s, added);
    } else {
        assert(ss.map_values(|s: SectionModel| section_rows(s)) =~= Seq::<Seq<Row>>::empty());
    }
}

/// The totals line counts what the sheet's rows show: as many `File` rows as files, as many
/// `Added` rows as added lines and as many `Removed` rows as removed lines.
pub proof fn law_totals_count_the_rows(task: Seq<char>, run: Seq<char>, d: DiffModel)
    ensures
        count_kind(sheet_rows(task, run, d), Kind::File) == d.totals().0,
        count_kind(sheet_rows(task, run, d), Kind::Added) == d.totals().1,
        count_kind(sheet_rows(task, run, d), Kind::Removed) == d.totals().2,
{
    let top: Seq<Row> = seq![
        (Kind::Heading, crate::sheet::layout::heading(task, run)),
        (Kind::Totals, crate::sheet::layout::totals_text(d.totals())),
    ];
    let body = d.sections.map_values(|s: SectionModel| section_rows(s)).flatten();
    let cut: Seq<Row> = match d.cut {
        Some(c) => seq![(Kind::Cut, "… "@ + c)],
        None => Seq::<Row>::empty(),
    };
    assert(sheet_rows(task, run, d) == top + body + cut);
    assert(top =~= seq![top[0]] + seq![top[1]]);
    if cut.len() > 0 {
        assert(cut =~= seq![cut[0]]);
    }
    lemma_count_single(top[0], Kind::File);
    lemma_count_single(top[1], Kind::File);
    lemma_count_single(top[0], Kind::Added);
    lemma_count_single(top[1], Kind::Added);
    lemma_count_single(top[0], Kind::Removed);
    lemma_count_single(top[1], Kind::Removed);
    lemma_count_concat(seq![top[0]], seq![top[1]], Kind::File);
    lemma_count_concat(seq![top[0]], seq![top[1]], Kind::Added);
    lemma_count_concat(seq![top[0]], seq![top[1]], Kind::Removed);
    match d.cut {
        Some(c) => {
            lemma_count_single(cut[0], Kind::File);
            lemma_count_single(cut[0], Kind::Added);
            lemma_count_single(cut[0], Kind::Removed);
        },
        None => {
            lemma_count_single(top[0], Kind::File);
        },
    }
    lemma_sections_count(d.sections, true);
    lemma_sections_count(d.sections, false);
    lemma_count_concat(top + body, cut, Kind::File);
    lemma_count_concat(top, body, Kind::File);
    lemma_count_concat(top + body, cut, Kind::Added);
    lemma_count_concat(top, body, Kind::Added);
    lemma_count_concat(top + body, cut, Kind::Removed);
    lemma_count_concat(top, body, Kind::Removed);
}


/// A sheet ends on a cut line: the desk's own when it cut the diff and the sheet left
/// nothing out, the count of what stayed out when the sheet left rows out.
pub proof fn law_a_cut_closes_the_sheet(task: Seq<char>, run: Seq<char>, d: DiffModel)
    ensures
        ({
            let s = lay_out(sheet_rows(task, run, d));
            &&& s.dropped > 0 ==> s.lines.last().0 == Kind::Cut
            &&& (d.cut is Some && s.dropped == 0) ==> s.lines.last() == (
                Kind::Cut,
                "… "@ + d.cut->0,
            )
        }),
{
    law_sheet_keeps_first_rows_and_counts_the_rest(sheet_rows(task, run, d));
}

} // verus!
