use vstd::prelude::*;
use crate::chars::{after, before_char, find_from, has_prefix, index_from, lemma_index_from_bounds, trim};

verus! {

/// A line inside a hunk, as plain characters.
pub enum LineModel {
    Context(Seq<char>),
    Added(Seq<char>),
    Removed(Seq<char>),
    NoNewline,
}

#[verifier::ext_equal]
pub struct HunkModel {
    pub header: Seq<char>,
    pub lines: Seq<LineModel>,
}

#[verifier::ext_equal]
pub struct FileModel {
    pub path: Seq<char>,
    pub old: Option<Seq<char>>,
    pub new: Option<Seq<char>>,
    pub notes: Seq<Seq<char>>,
    pub binary: bool,
    pub hunks: Seq<HunkModel>,
}

#[verifier::ext_equal]
pub struct SectionModel {
    pub title: Seq<char>,
    pub stat: Seq<Seq<char>>,
    pub files: Seq<FileModel>,
}

#[verifier::ext_equal]
pub struct DiffModel {
    pub sections: Seq<SectionModel>,
    pub cut: Option<Seq<char>>,
}

/// What the parser holds between two lines: the diff so far and whether a hunk is open.
#[verifier::ext_equal]
pub struct ParseState {
    pub diff: DiffModel,
    pub in_hunk: bool,
}

// ---------------------------------------------------------------- lines of the text

/// `l` without one trailing carriage return.
pub open spec fn strip_cr(l: Seq<char>) -> Seq<char> {
    if l.len() > 0 && l.last() == '\r' {
        l.drop_last()
    } else {
        l
    }
}

/// The lines of `t` from index `start` on: each ends before a `'\n'` or at the end of `t`,
/// loses one trailing `'\r'`, and a `'\n'` that ends `t` opens no further line.
pub open spec fn lines_from(t: Seq<char>, start: int) -> Seq<Seq<char>>
    decreases t.len() - start,
{
    if start < 0 || start >= t.len() {
        Seq::empty()
    } else {
        let e = index_from(t, '\n', start);
        let line = strip_cr(t.subrange(start, e));
        if e >= t.len() {
            seq![line]
        } else {
            proof {
                lemma_index_from_bounds(t, '\n', start);
            }
            seq![line] + lines_from(t, e + 1)
        }
    }
}

/// The lines of `t`.
pub open spec fn lines_of(t: Seq<char>) -> Seq<Seq<char>> {
    lines_from(t, 0)
}

// ---------------------------------------------------------------- building blocks

pub open spec fn new_section(title: Seq<char>) -> SectionModel {
    SectionModel { title, stat: Seq::empty(), files: Seq::empty() }
}

pub open spec fn new_file(path: Seq<char>, old: Option<Seq<char>>, new: Option<Seq<char>>) -> FileModel {
    FileModel { path, old, new, notes: Seq::empty(), binary: false, hunks: Seq::empty() }
}

pub open spec fn empty_diff() -> DiffModel {
    DiffModel { sections: Seq::empty(), cut: None }
}

pub open spec fn start_state() -> ParseState {
    ParseState { diff: empty_diff(), in_hunk: false }
}

/// `d` with its last section replaced by `s`.
pub open spec fn set_last_section(d: DiffModel, s: SectionModel) -> DiffModel {
    DiffModel { sections: d.sections.update(d.sections.len() - 1, s), cut: d.cut }
}

/// `d` with a section to write into: an untitled one is opened when there is none.
pub open spec fn with_section(d: DiffModel) -> DiffModel {
    if d.sections.len() == 0 {
        DiffModel { sections: seq![new_section(Seq::empty())], cut: d.cut }
    } else {
        d
    }
}

/// `d`'s last section has a file.
pub open spec fn has_file(d: DiffModel) -> bool {
    d.sections.len() > 0 && d.sections.last().files.len() > 0
}

pub open spec fn last_file(d: DiffModel) -> FileModel {
    d.sections.last().files.last()
}

/// `d` with the last file of its last section replaced by `f`.
pub open spec fn set_last_file(d: DiffModel, f: FileModel) -> DiffModel {
    let s = d.sections.last();
    set_last_section(
        d,
        SectionModel { title: s.title, stat: s.stat, files: s.files.update(s.files.len() - 1, f) },
    )
}

/// `d`'s last file has a hunk that lines can join.
pub open spec fn hunk_open(d: DiffModel) -> bool {
    has_file(d) && last_file(d).hunks.len() > 0
}

/// `d` with `l` appended to the last hunk of its last file.
pub open spec fn push_hunk_line(d: DiffModel, l: LineModel) -> DiffModel {
    let f = last_file(d);
    let h = f.hunks.last();
    set_last_file(
        d,
        FileModel {
            hunks: f.hunks.update(
                f.hunks.len() - 1,
                HunkModel { header: h.header, lines: h.lines.push(l) },
            ),
            ..f
        },
    )
}

// ---------------------------------------------------------------- one line

/// The hunk line that `line` stands for, by its first character; `None` ends the hunk.
pub open spec fn hunk_line(line: Seq<char>) -> Option<LineModel> {
    if line.len() == 0 {
        Some(LineModel::Context(Seq::empty()))
    } else if line[0] == ' ' {
        Some(LineModel::Context(line.drop_first()))
    } else if line[0] == '+' {
        Some(LineModel::Added(line.drop_first()))
    } else if line[0] == '-' {
        Some(LineModel::Removed(line.drop_first()))
    } else if line[0] == '\\' {
        Some(LineModel::NoNewline)
    } else {
        None
    }
}

/// The two sides named by the rest of a `diff --git ` line: split at the first `" b/"`;
/// the old side is what comes before it when that starts with `"a/"`.
pub open spec fn git_sides(rest: Seq<char>) -> (Option<Seq<char>>, Option<Seq<char>>) {
    match find_from(rest, " b/"@, 0) {
        None => (None, None),
        Some(at) => {
            let head = rest.take(at);
            (
                if has_prefix(head, "a/"@) {
                    Some(after(head, "a/"@))
                } else {
                    None
                },
                Some(rest.skip(at + " b/"@.len())),
            )
        },
    }
}

/// The side named on a `---`/`+++` line: up to the first tab, `None` for `/dev/null`,
/// without `prefix` when it starts with it.
pub open spec fn strip_side(side: Seq<char>, prefix: Seq<char>) -> Option<Seq<char>> {
    let cut = before_char(side, '\t');
    if cut == "/dev/null"@ {
        None
    } else if has_prefix(cut, prefix) {
        Some(after(cut, prefix))
    } else {
        Some(cut)
    }
}

/// The path a `diff --git ` header gives its file: the new side, else the old, else empty.
pub open spec fn header_path(sides: (Option<Seq<char>>, Option<Seq<char>>)) -> Seq<char> {
    match sides.1 {
        Some(n) => n,
        None => match sides.0 {
            Some(o) => o,
            None => Seq::empty(),
        },
    }
}

/// What a line outside a hunk does to the file it follows, and whether it opens a hunk.
pub open spec fn file_line(f: FileModel, line: Seq<char>) -> (FileModel, bool) {
    if has_prefix(line, "@@"@) {
        (FileModel { hunks: f.hunks.push(HunkModel { header: line, lines: Seq::empty() }), ..f }, true)
    } else if has_prefix(line, "--- "@) {
        (FileModel { old: strip_side(after(line, "--- "@), "a/"@), ..f }, false)
    } else if has_prefix(line, "+++ "@) {
        let new = strip_side(after(line, "+++ "@), "b/"@);
        let path = match new {
            Some(n) => n,
            None => match f.old {
                Some(o) => o,
                None => f.path,
            },
        };
        (FileModel { new, path, ..f }, false)
    } else if has_prefix(line, "Binary files "@) || line == "GIT binary patch"@ {
        (FileModel { binary: true, notes: f.notes.push(line), ..f }, false)
    } else if line.len() > 0 {
        (FileModel { notes: f.notes.push(line), ..f }, false)
    } else {
        (f, false)
    }
}

/// A line read outside a hunk.
pub open spec fn head_step(d: DiffModel, line: Seq<char>) -> ParseState {
    if has_prefix(line, "# "@) {
        ParseState {
            diff: DiffModel {
                sections: d.sections.push(new_section(after(line, "# "@))),
                cut: d.cut,
            },
            in_hunk: false,
        }
    } else if has_prefix(line, "… "@) {
        ParseState {
            diff: DiffModel { sections: d.sections, cut: Some(after(line, "… "@)) },
            in_hunk: false,
        }
    } else if has_prefix(line, "diff --git "@) {
        let sides = git_sides(after(line, "diff --git "@));
        let d2 = with_section(d);
        let s = d2.sections.last();
        ParseState {
            diff: set_last_section(
                d2,
                SectionModel {
                    files: s.files.push(new_file(header_path(sides), sides.0, sides.1)),
                    ..s
                },
            ),
            in_hunk: false,
        }
    } else if has_file(d) {
        let (f, opened) = file_line(last_file(d), line);
        ParseState { diff: set_last_file(d, f), in_hunk: opened }
    } else if trim(line).len() > 0 {
        let d2 = with_section(d);
        let s = d2.sections.last();
        ParseState {
            diff: set_last_section(d2, SectionModel { stat: s.stat.push(trim(line)), ..s }),
            in_hunk: false,
        }
    } else {
        ParseState { diff: d, in_hunk: false }
    }
}

/// One line: inside an open hunk a hunk line joins it; any other line closes the hunk
/// and is read as a header line.
pub open spec fn step(st: ParseState, line: Seq<char>) -> ParseState {
    if st.in_hunk && hunk_line(line) is Some {
        ParseState { diff: push_hunk_line(st.diff, hunk_line(line)->0), in_hunk: true }
    } else {
        head_step(st.diff, line)
    }
}

/// The state after reading `lines` in order from `st`.
pub open spec fn run(st: ParseState, lines: Seq<Seq<char>>) -> ParseState
    decreases lines.len(),
{
    if lines.len() == 0 {
        st
    } else {
        run(step(st, lines[0]), lines.drop_first())
    }
}

/// The diff that the unified text `t` describes.
pub open spec fn parse_text(t: Seq<char>) -> DiffModel {
    run(start_state(), lines_of(t)).diff
}

/// An open hunk always has a file and a hunk to write into.
pub open spec fn state_ok(st: ParseState) -> bool {
    st.in_hunk ==> hunk_open(st.diff)
}

pub proof fn lemma_step_ok(st: ParseState, line: Seq<char>)
    requires
        state_ok(st),
    ensures
        state_ok(step(st, line)),
{
}

// ---------------------------------------------------------------- counting

/// 1 when `l` is an added line (`added`) or a removed one (`!added`), else 0.
pub open spec fn tally(l: LineModel, added: bool) -> nat {
    if added {
        if l is Added { 1 } else { 0 }
    } else {
        if l is Removed { 1 } else { 0 }
    }
}

pub open spec fn lines_tally(ls: Seq<LineModel>, added: bool) -> nat
    decreases ls.len(),
{
    if ls.len() == 0 {
        0
    } else {
        lines_tally(ls.drop_last(), added) + tally(ls.last(), added)
    }
}

pub open spec fn hunks_tally(hs: Seq<HunkModel>, added: bool) -> nat
    decreases hs.len(),
{
    if hs.len() == 0 {
        0
    } else {
        hunks_tally(hs.drop_last(), added) + lines_tally(hs.last().lines, added)
    }
}

pub open spec fn files_tally(fs: Seq<FileModel>, added: bool) -> nat
    decreases fs.len(),
{
    if fs.len() == 0 {
        0
    } else {
        files_tally(fs.drop_last(), added) + hunks_tally(fs.last().hunks, added)
    }
}

pub open spec fn sections_tally(ss: Seq<SectionModel>, added: bool) -> nat
    decreases ss.len(),
{
    if ss.len() == 0 {
        0
    } else {
        sections_tally(ss.drop_last(), added) + files_tally(ss.last().files, added)
    }
}

pub open spec fn sections_files(ss: Seq<SectionModel>) -> nat
    decreases ss.len(),
{
    if ss.len() == 0 {
        0
    } else {
        sections_files(ss.drop_last()) + ss.last().files.len()
    }
}

impl FileModel {
    /// Added and removed lines over all hunks of the file.
    pub open spec fn counts(self) -> (nat, nat) {
        (hunks_tally(self.hunks, true), hunks_tally(self.hunks, false))
    }

    pub open spec fn counts_fit(self) -> bool {
        self.counts().0 <= usize::MAX && self.counts().1 <= usize::MAX
    }
}

impl DiffModel {
    /// Files, added lines and removed lines over all sections.
    pub open spec fn totals(self) -> (nat, nat, nat) {
        (
            sections_files(self.sections),
            sections_tally(self.sections, true),
            sections_tally(self.sections, false),
        )
    }

    pub open spec fn totals_fit(self) -> bool {
        &&& self.totals().0 <= usize::MAX
        &&& self.totals().1 <= usize::MAX
        &&& self.totals().2 <= usize::MAX
    }
}


// ---------------------------------------------------------------- prefix sums

pub proof fn lemma_lines_prefix(ls: Seq<LineModel>, j: int, added: bool)
    requires
        0 <= j < ls.len(),
    ensures
        lines_tally(ls.take(j + 1), added) == lines_tally(ls.take(j), added) + tally(ls[j], added),
        lines_tally(ls.take(j + 1), added) <= lines_tally(ls, added),
    decreases ls.len() - j,
{
    assert(ls.take(j + 1).drop_last() =~= ls.take(j));
    if j + 1 < ls.len() {
        lemma_lines_prefix(ls, j + 1, added);
    } else {
        assert(ls.take(j + 1) =~= ls);
    }
}

pub proof fn lemma_hunks_prefix(hs: Seq<HunkModel>, i: int, added: bool)
    requires
        0 <= i < hs.len(),
    ensures
        hunks_tally(hs.take(i + 1), added) == hunks_tally(hs.take(i), added) + lines_tally(
            hs[i].lines,
            added,
        ),
        hunks_tally(hs.take(i + 1), added) <= hunks_tally(hs, added),
    decreases hs.len() - i,
{
    assert(hs.take(i + 1).drop_last() =~= hs.take(i));
    if i + 1 < hs.len() {
        lemma_hunks_prefix(hs, i + 1, added);
    } else {
        assert(hs.take(i + 1) =~= hs);
    }
}

pub proof fn lemma_files_prefix(fs: Seq<FileModel>, i: int, added: bool)
    requires
        0 <= i < fs.len(),
    ensures
        files_tally(fs.take(i + 1), added) == files_tally(fs.take(i), added) + hunks_tally(
            fs[i].hunks,
            added,
        ),
        files_tally(fs.take(i + 1), added) <= files_tally(fs, added),
    decreases fs.len() - i,
{
    assert(fs.take(i + 1).drop_last() =~= fs.take(i));
    if i + 1 < fs.len() {
        lemma_files_prefix(fs, i + 1, added);
    } else {
        assert(fs.take(i + 1) =~= fs);
    }
}

pub proof fn lemma_sections_prefix(ss: Seq<SectionModel>, i: int)
    requires
        0 <= i < ss.len(),
    ensures
        sections_tally(ss.take(i + 1), true) == sections_tally(ss.take(i), true) + files_tally(
            ss[i].files,
            true,
        ),
        sections_tally(ss.take(i + 1), false) == sections_tally(ss.take(i), false) + files_tally(
            ss[i].files,
            false,
        ),
        sections_files(ss.take(i + 1)) == sections_files(ss.take(i)) + ss[i].files.len(),
        sections_tally(ss.take(i + 1), true) <= sections_tally(ss, true),
        sections_tally(ss.take(i + 1), false) <= sections_tally(ss, false),
        sections_files(ss.take(i + 1)) <= sections_files(ss),
    decreases ss.len() - i,
{
    assert(ss.take(i + 1).drop_last() =~= ss.take(i));
    if i + 1 < ss.len() {
        lemma_sections_prefix(ss, i + 1);
    } else {
        assert(ss.take(i + 1) =~= ss);
    }
}


/// When a diff's totals fit a `usize`, so do the counts of each of its files.
pub proof fn lemma_file_counts_fit(d: DiffModel, i: int, j: int)
    requires
        d.totals_fit(),
        0 <= i < d.sections.len(),
        0 <= j < d.sections[i].files.len(),
    ensures
        d.sections[i].files[j].counts_fit(),
{
    lemma_sections_prefix(d.sections, i);
    lemma_files_prefix(d.sections[i].files, j, true);
    lemma_files_prefix(d.sections[i].files, j, false);
}

} // verus!
