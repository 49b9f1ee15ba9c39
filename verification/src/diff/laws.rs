use vstd::prelude::*;
use crate::chars::has_prefix;
use crate::diff::model::{
    DiffModel, FileModel, HunkModel, LineModel, ParseState, SectionModel, has_file, last_file,
    lines_of, parse_text, run, start_state, state_ok, step, lemma_step_ok,
};

verus! {

/// A line that marks its file binary: git's `Binary files ` notice or its `GIT binary patch`.
pub open spec fn binary_marker(line: Seq<char>) -> bool {
    has_prefix(line, "Binary files "@) || line == "GIT binary patch"@
}

/// No file of `d` is marked binary.
pub open spec fn no_binary_file(d: DiffModel) -> bool {
    forall|i: int, j: int|
        0 <= i < d.sections.len() && 0 <= j < d.sections[i].files.len()
            ==> !(#[trigger] d.sections[i].files[j]).binary
}

proof fn lemma_step_keeps_no_binary(st: ParseState, line: Seq<char>)
    requires
        state_ok(st),
        no_binary_file(st.diff),
        !binary_marker(line),
    ensures
        no_binary_file(step(st, line).diff),
{
    let d = st.diff;
    let d2 = step(st, line).diff;
    assert forall|i: int, j: int|
        0 <= i < d2.sections.len() && 0 <= j < d2.sections[i].files.len() implies !(
        #[trigger] d2.sections[i].files[j]).binary by {
        if d.sections.len() > 0 && i < d.sections.len() - 1 {
            assert(d2.sections[i] == d.sections[i]);
        } else if d.sections.len() > 0 && i == d.sections.len() - 1 && j
            < d.sections[i].files.len() - 1 {
            assert(d2.sections[i].files[j] == d.sections[i].files[j]);
        } else if d.sections.len() > 0 && i == d.sections.len() - 1 && j
            == d.sections[i].files.len() - 1 {
            assert(!d.sections[i].files[j].binary);
        }
    }
}

proof fn lemma_run_keeps_no_binary(st: ParseState, lines: Seq<Seq<char>>)
    requires
        state_ok(st),
        no_binary_file(st.diff),
        forall|k: int| 0 <= k < lines.len() ==> !binary_marker(#[trigger] lines[k]),
    ensures
        no_binary_file(run(st, lines).diff),
    decreases lines.len(),
{
    if lines.len() > 0 {
        assert(!binary_marker(lines[0]));
        lemma_step_ok(st, lines[0]);
        lemma_step_keeps_no_binary(st, lines[0]);
        let rest = lines.drop_first();
        assert forall|k: int| 0 <= k < rest.len() implies !binary_marker(#[trigger] rest[k]) by {
            assert(rest[k] == lines[k + 1]);
        }
        lemma_run_keeps_no_binary(step(st, lines[0]), rest);
    }
}

/// Only git's binary notices mark a file binary: when no line of the text starts with
/// `Binary files ` or is `GIT binary patch`, no file of the parsed diff is binary.
pub proof fn law_only_binary_notices_mark_a_file_binary(t: Seq<char>)
    requires
        forall|k: int| 0 <= k < lines_of(t).len() ==> !binary_marker(#[trigger] lines_of(t)[k]),
    ensures
        forall|i: int, j: int|
            0 <= i < parse_text(t).sections.len() && 0 <= j < parse_text(t).sections[i].files.len()
                ==> !(#[trigger] parse_text(t).sections[i].files[j]).binary,
{
    lemma_run_keeps_no_binary(start_state(), lines_of(t));
}

/// A binary notice read after a file's header marks that file binary and is kept among its
/// notes; the hunk, if one was open, is closed, and nothing else changes.
pub proof fn law_a_binary_notice_marks_its_file(st: ParseState, line: Seq<char>)
    requires
        state_ok(st),
        has_file(st.diff),
        binary_marker(line),
    ensures
        ({
            let d2 = step(st, line).diff;
            let f = last_file(st.diff);
            &&& !step(st, line).in_hunk
            &&& d2.sections.len() == st.diff.sections.len()
            &&& d2.sections.drop_last() == st.diff.sections.drop_last()
            &&& d2.sections.last().files.drop_last() == st.diff.sections.last().files.drop_last()
            &&& d2.sections.last().files.len() == st.diff.sections.last().files.len()
            &&& last_file(d2) == FileModel { binary: true, notes: f.notes.push(line), ..f }
        }),
{
    reveal_strlit("Binary files ");
    reveal_strlit("GIT binary patch");
    reveal_strlit("# ");
    reveal_strlit("… ");
    reveal_strlit("diff --git ");
    reveal_strlit("@@");
    reveal_strlit("--- ");
    reveal_strlit("+++ ");
    assert(line.len() > 0);
    assert(line[0] == 'B' || line[0] == 'G') by {
        if has_prefix(line, "Binary files "@) {
            assert(line.subrange(0, 13)[0] == line[0]);
        } else {
            assert(line == "GIT binary patch"@);
        }
    }
    assert(!has_prefix(line, "# "@)) by {
        if has_prefix(line, "# "@) {
            assert(line.subrange(0, 2)[0] == line[0]);
        }
    }
    assert(!has_prefix(line, "… "@)) by {
        if has_prefix(line, "… "@) {
            assert(line.subrange(0, 2)[0] == line[0]);
        }
    }
    assert(!has_prefix(line, "diff --git "@)) by {
        if has_prefix(line, "diff --git "@) {
            assert(line.subrange(0, 11)[0] == line[0]);
        }
    }
    assert(!has_prefix(line, "@@"@)) by {
        if has_prefix(line, "@@"@) {
            assert(line.subrange(0, 2)[0] == line[0]);
        }
    }
    assert(!has_prefix(line, "--- "@)) by {
        if has_prefix(line, "--- "@) {
            assert(line.subrange(0, 4)[0] == line[0]);
        }
    }
    assert(!has_prefix(line, "+++ "@)) by {
        if has_prefix(line, "+++ "@) {
            assert(line.subrange(0, 4)[0] == line[0]);
        }
    }
    let d = st.diff;
    let d2 = step(st, line).diff;
    assert(d2.sections.drop_last() =~= d.sections.drop_last());
    assert(d2.sections.last().files.drop_last() =~= d.sections.last().files.drop_last());
}

// ---------------------------------------------------------------- counting

/// `f` with `l` appended to its last hunk.
pub open spec fn with_line_appended(f: FileModel, l: LineModel) -> FileModel {
    let h = f.hunks.last();
    FileModel {
        hunks: f.hunks.update(
            f.hunks.len() - 1,
            HunkModel { header: h.header, lines: h.lines.push(l) },
        ),
        ..f
    }
}

/// A file without hunks counts nothing.
pub proof fn law_a_file_without_hunks_counts_nothing(f: FileModel)
    requires
        f.hunks.len() == 0,
    ensures
        f.counts() == (0nat, 0nat),
{
}

/// A new hunk counts nothing until lines join it.
pub proof fn law_a_new_hunk_counts_nothing(f: FileModel, header: Seq<char>)
    ensures
        (FileModel {
            hunks: f.hunks.push(HunkModel { header, lines: Seq::empty() }),
            ..f
        }).counts() == f.counts(),
{
    let x = HunkModel { header, lines: Seq::<LineModel>::empty() };
    assert(f.hunks.push(x).drop_last() =~= f.hunks);
}

/// Every added line counts once and every removed line counts once, whatever its text (the
/// empty text too); context lines and git's no-newline marker count for neither.
pub proof fn law_counts_count_every_signed_line(f: FileModel, l: LineModel)
    requires
        f.hunks.len() > 0,
    ensures
        (l is Added) ==> with_line_appended(f, l).counts() == (
            f.counts().0 + 1,
            f.counts().1,
        ),
        (l is Removed) ==> with_line_appended(f, l).counts() == (
            f.counts().0,
            f.counts().1 + 1,
        ),
        (l is Context || l is NoNewline)
            ==> with_line_appended(f, l).counts() == f.counts(),
{
    let hs = f.hunks;
    let h = hs.last();
    let h2 = HunkModel { header: h.header, lines: h.lines.push(l) };
    assert(hs.update(hs.len() - 1, h2).drop_last() =~= hs.drop_last());
    assert(h.lines.push(l).drop_last() =~= h.lines);
}

// ---------------------------------------------------------------- reading a hunk

/// Inside an open hunk, a line is read by its first character: `+` adds the rest of the line,
/// `-` removes it, a space keeps it as context, `\` is git's no-newline marker, and an empty
/// line is empty context. The line joins the last hunk, the hunk stays open, and nothing else
/// changes.
pub proof fn law_an_open_hunk_reads_lines_by_their_sign(st: ParseState, line: Seq<char>)
    requires
        state_ok(st),
        st.in_hunk,
        line.len() == 0 || line[0] == '+' || line[0] == '-' || line[0] == ' ' || line[0] == '\\',
    ensures
        ({
            let s2 = step(st, line);
            let d = st.diff;
            let d2 = s2.diff;
            let f = last_file(d);
            let f2 = last_file(d2);
            let joined = if line.len() == 0 {
                LineModel::Context(Seq::empty())
            } else if line[0] == '+' {
                LineModel::Added(line.drop_first())
            } else if line[0] == '-' {
                LineModel::Removed(line.drop_first())
            } else if line[0] == ' ' {
                LineModel::Context(line.drop_first())
            } else {
                LineModel::NoNewline
            };
            &&& s2.in_hunk
            &&& d2.cut == d.cut
            &&& d2.sections.len() == d.sections.len()
            &&& d2.sections.drop_last() == d.sections.drop_last()
            &&& d2.sections.last().title == d.sections.last().title
            &&& d2.sections.last().stat == d.sections.last().stat
            &&& d2.sections.last().files.len() == d.sections.last().files.len()
            &&& d2.sections.last().files.drop_last() == d.sections.last().files.drop_last()
            &&& f2 == with_line_appended(f, joined)
        }),
{
    let d = st.diff;
    let d2 = step(st, line).diff;
    assert(d2.sections.drop_last() =~= d.sections.drop_last());
    assert(d2.sections.last().files.drop_last() =~= d.sections.last().files.drop_last());
}

} // verus!
