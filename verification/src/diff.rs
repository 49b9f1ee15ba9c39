pub mod laws;
pub mod model;

use vstd::prelude::*;
use crate::chars::{
    before_char, equals, find, index_of, rest_after, starts_with, string_after, sub_chars,
    trim_bounds,
};
use crate::diff::model::{
    DiffModel, FileModel, HunkModel, LineModel, ParseState, SectionModel, file_line, git_sides,
    has_file, head_step, hunk_line, hunk_open, lines_from, parse_text, push_hunk_line, run,
    set_last_file, start_state, state_ok, step, strip_side, with_section, hunks_tally, lines_tally,
    files_tally, sections_tally, sections_files, lemma_lines_prefix, lemma_hunks_prefix,
    lemma_files_prefix, lemma_sections_prefix,
};
use crate::text::{chars_of, string_of};

verus! {

/// A parsed unified diff: its sections in order and the desk's cut line, if any.
#[derive(Debug, Default, PartialEq, Eq)]
pub struct Diff {
    pub sections: Vec<Section>,
    pub cut: Option<String>,
}

/// A `# ` section of the desk's text, with its `--stat` lines and its files.
#[derive(Debug, Default, PartialEq, Eq)]
pub struct Section {
    pub title: String,
    pub stat: Vec<String>,
    pub files: Vec<File>,
}

/// One `diff --git` file.
#[derive(Debug, Default, PartialEq, Eq)]
pub struct File {
    pub path: String,
    pub old: Option<String>,
    pub new: Option<String>,
    pub notes: Vec<String>,
    pub binary: bool,
    pub hunks: Vec<Hunk>,
}

/// One `@@` hunk.
#[derive(Debug, Default, PartialEq, Eq)]
pub struct Hunk {
    pub header: String,
    pub lines: Vec<Line>,
}

/// A line of a hunk, without its leading sign.
#[derive(Debug, PartialEq, Eq)]
pub enum Line {
    Context(String),
    Added(String),
    Removed(String),
    NoNewline,
}

/// The characters of an optional string.
pub open spec fn opt_chars(o: Option<String>) -> Option<Seq<char>> {
    match o {
        Some(s) => Some(s@),
        None => None,
    }
}

impl View for Line {
    type V = LineModel;

    open spec fn view(&self) -> LineModel {
        match self {
            Line::Context(s) => LineModel::Context(s@),
            Line::Added(s) => LineModel::Added(s@),
            Line::Removed(s) => LineModel::Removed(s@),
            Line::NoNewline => LineModel::NoNewline,
        }
    }
}

impl View for Hunk {
    type V = HunkModel;

    open spec fn view(&self) -> HunkModel {
        HunkModel { header: self.header@, lines: self.lines@.map_values(|l: Line| l@) }
    }
}

impl View for File {
    type V = FileModel;

    open spec fn view(&self) -> FileModel {
        FileModel {
            path: self.path@,
            old: opt_chars(self.old),
            new: opt_chars(self.new),
            notes: self.notes@.map_values(|s: String| s@),
            binary: self.binary,
            hunks: self.hunks@.map_values(|h: Hunk| h@),
        }
    }
}

impl View for Section {
    type V = SectionModel;

    open spec fn view(&self) -> SectionModel {
        SectionModel {
            title: self.title@,
            stat: self.stat@.map_values(|s: String| s@),
            files: self.files@.map_values(|f: File| f@),
        }
    }
}

impl View for Diff {
    type V = DiffModel;

    open spec fn view(&self) -> DiffModel {
        DiffModel { sections: self.sections@.map_values(|s: Section| s@), cut: opt_chars(self.cut) }
    }
}

impl File {
    /// The numbers of added and of removed lines over all hunks of the file.
    pub fn counts(&self) -> (r: (usize, usize))
        requires
            self@.counts_fit(),
        ensures
            r.0 == self@.counts().0,
            r.1 == self@.counts().1,
    {
        let mut added: usize = 0;
        let mut removed: usize = 0;
        let mut i: usize = 0;
        assert(self@.hunks.take(0) =~= Seq::<HunkModel>::empty());
        while i < self.hunks.len()
            invariant
                self@.counts_fit(),
                i <= self@.hunks.len(),
                added == hunks_tally(self@.hunks.take(i as int), true),
                removed == hunks_tally(self@.hunks.take(i as int), false),
            decreases self@.hunks.len() - i,
        {
            let lines = &self.hunks[i].lines;
            let ghost ls = self@.hunks[i as int].lines;
            proof {
                lemma_hunks_prefix(self@.hunks, i as int, true);
                lemma_hunks_prefix(self@.hunks, i as int, false);
                assert(ls.take(0) =~= Seq::<LineModel>::empty());
            }
            let mut j: usize = 0;
            while j < lines.len()
                invariant
                    ls == lines@.map_values(|l: Line| l@),
                    j <= ls.len(),
                    added == hunks_tally(self@.hunks.take(i as int), true) + lines_tally(
                        ls.take(j as int),
                        true,
                    ),
                    removed == hunks_tally(self@.hunks.take(i as int), false) + lines_tally(
                        ls.take(j as int),
                        false,
                    ),
                    hunks_tally(self@.hunks.take(i as int), true) + lines_tally(ls, true)
                        <= usize::MAX,
                    hunks_tally(self@.hunks.take(i as int), false) + lines_tally(ls, false)
                        <= usize::MAX,
                decreases ls.len() - j,
            {
                proof {
                    lemma_lines_prefix(ls, j as int, true);
                    lemma_lines_prefix(ls, j as int, false);
                }
                match &lines[j] {
                    Line::Added(_) => {
                        added = added + 1;
                    },
                    Line::Removed(_) => {
                        removed = removed + 1;
                    },
                    _ => {},
                }
                j = j + 1;
            }
            assert(ls.take(ls.len() as int) =~= ls);
            i = i + 1;
        }
        assert(self@.hunks.take(self@.hunks.len() as int) =~= self@.hunks);
        (added, removed)
    }
}

impl Diff {
    /// The number of files and the numbers of added and of removed lines over all sections.
    pub fn totals(&self) -> (r: (usize, usize, usize))
        requires
            self@.totals_fit(),
        ensures
            r.0 == self@.totals().0,
            r.1 == self@.totals().1,
            r.2 == self@.totals().2,
    {
        let mut files: usize = 0;
        let mut added: usize = 0;
        let mut removed: usize = 0;
        let mut i: usize = 0;
        let ghost ss = self@.sections;
        assert(ss.take(0) =~= Seq::<SectionModel>::empty());
        while i < self.sections.len()
            invariant
                ss == self@.sections,
                self@.totals_fit(),
                i <= ss.len(),
                files == sections_files(ss.take(i as int)),
                added == sections_tally(ss.take(i as int), true),
                removed == sections_tally(ss.take(i as int), false),
            decreases ss.len() - i,
        {
            let section = &self.sections[i];
            let ghost fs = ss[i as int].files;
            proof {
                lemma_sections_prefix(ss, i as int);
                assert(fs.take(0) =~= Seq::<FileModel>::empty());
            }
            let mut j: usize = 0;
            while j < section.files.len()
                invariant
                    fs == section.files@.map_values(|f: File| f@),
                    j <= fs.len(),
                    files == sections_files(ss.take(i as int)) + j,
                    added == sections_tally(ss.take(i as int), true) + files_tally(
                        fs.take(j as int),
                        true,
                    ),
                    removed == sections_tally(ss.take(i as int), false) + files_tally(
                        fs.take(j as int),
                        false,
                    ),
                    sections_files(ss.take(i as int)) + fs.len() <= usize::MAX,
                    sections_tally(ss.take(i as int), true) + files_tally(fs, true) <= usize::MAX,
                    sections_tally(ss.take(i as int), false) + files_tally(fs, false)
                        <= usize::MAX,
                decreases fs.len() - j,
            {
                proof {
                    lemma_files_prefix(fs, j as int, true);
                    lemma_files_prefix(fs, j as int, false);
                }
                let (a, r) = section.files[j].counts();
                files = files + 1;
                added = added + a;
                removed = removed + r;
                j = j + 1;
            }
            assert(fs.take(fs.len() as int) =~= fs);
            i = i + 1;
        }
        assert(ss.take(ss.len() as int) =~= ss);
        (files, added, removed)
    }
}

// ---------------------------------------------------------------- reading one line

fn hunk_line_of(line: &Vec<char>) -> (r: Option<Line>)
    ensures
        match r {
            Some(l) => hunk_line(line@) == Some(l@),
            None => hunk_line(line@) is None,
        },
{
    if line.len() == 0 {
        return Some(Line::Context(String::new()));
    }
    let c = line[0];
    if c == ' ' || c == '+' || c == '-' {
        let rest = string_of(line, 1, line.len());
        assert(rest@ =~= line@.drop_first());
        if c == ' ' {
            Some(Line::Context(rest))
        } else if c == '+' {
            Some(Line::Added(rest))
        } else {
            Some(Line::Removed(rest))
        }
    } else if c == '\\' {
        Some(Line::NoNewline)
    } else {
        None
    }
}

fn push_line(diff: &mut Diff, l: Line)
    requires
        hunk_open(old(diff)@),
    ensures
        final(diff)@ == push_hunk_line(old(diff)@, l@),
        hunk_open(final(diff)@),
{
    let ghost d0 = diff@;
    let mut s = diff.sections.pop().unwrap();
    let ghost s0 = s@;
    let mut f = s.files.pop().unwrap();
    let ghost f0 = f@;
    let mut h = f.hunks.pop().unwrap();
    let ghost h0 = h@;
    h.lines.push(l);
    assert(h@.lines =~= h0.lines.push(l@));
    f.hunks.push(h);
    assert(f@.hunks =~= f0.hunks.update(f0.hunks.len() - 1, h@));
    s.files.push(f);
    assert(s@.files =~= s0.files.update(s0.files.len() - 1, f@));
    diff.sections.push(s);
    assert(diff@.sections =~= d0.sections.update(d0.sections.len() - 1, s@));
    assert(diff@ =~= push_hunk_line(d0, l@));
}

/// Splits the rest of a `diff --git ` line into its two sides.
fn split_git_header(rest: &Vec<char>) -> (r: (Option<String>, Option<String>))
    ensures
        (opt_chars(r.0), opt_chars(r.1)) == git_sides(rest@),
{
    let pat = chars_of(" b/");
    match find(rest, &pat) {
        None => (None, None),
        Some(at) => {
            proof {
                crate::chars::lemma_find_from_bounds(rest@, pat@, 0);
            }
            assert(crate::chars::occurs_at(rest@, pat@, at as int));
            let head = sub_chars(rest, 0, at);
            assert(head@ =~= rest@.take(at as int));
            let old = string_after(&head, "a/");
            let n = rest.len();
            let new = string_of(rest, at + pat.len(), n);
            assert(new@ =~= rest@.skip(at + " b/"@.len()));
            (old, Some(new))
        },
    }
}

/// The side named on a `---` or `+++` line.
fn side_of(side: &Vec<char>, prefix: &str) -> (r: Option<String>)
    ensures
        opt_chars(r) == strip_side(side@, prefix@),
{
    let tab = index_of(side, '\t', 0);
    proof {
        crate::chars::lemma_index_from_bounds(side@, '\t', 0);
    }
    let cut = sub_chars(side, 0, tab);
    assert(cut@ =~= before_char(side@, '\t'));
    if equals(&cut, "/dev/null") {
        None
    } else {
        match string_after(&cut, prefix) {
            Some(rest) => Some(rest),
            None => Some(string_of(&cut, 0, cut.len())),
        }
    }
}

fn read_file_line(f: &mut File, line: &Vec<char>) -> (opened: bool)
    ensures
        (final(f)@, opened) == file_line(old(f)@, line@),
{
    let ghost f0 = f@;
    if starts_with(line, "@@") {
        let header = string_of(line, 0, line.len());
        assert(header@ =~= line@);
        let hunk = Hunk { header, lines: Vec::new() };
        assert(hunk@ =~= HunkModel { header: line@, lines: Seq::empty() });
        f.hunks.push(hunk);
        assert(f@.hunks =~= f0.hunks.push(HunkModel { header: line@, lines: Seq::empty() }));
        assert(f@ =~= file_line(f0, line@).0);
        return true;
    }
    if let Some(rest) = rest_after(line, "--- ") {
        f.old = side_of(&rest, "a/");
        assert(f@ =~= file_line(f0, line@).0);
        return false;
    }
    if let Some(rest) = rest_after(line, "+++ ") {
        f.new = side_of(&rest, "b/");
        if let Some(n) = &f.new {
            f.path = n.clone();
        } else if let Some(o) = &f.old {
            f.path = o.clone();
        }
        assert(f@ =~= file_line(f0, line@).0);
        return false;
    }
    if starts_with(line, "Binary files ") || equals(line, "GIT binary patch") {
        f.binary = true;
        let note = string_of(line, 0, line.len());
        assert(note@ =~= line@);
        f.notes.push(note);
        assert(f@.notes =~= f0.notes.push(line@));
        assert(f@ =~= file_line(f0, line@).0);
        return false;
    }
    if line.len() > 0 {
        let note = string_of(line, 0, line.len());
        assert(note@ =~= line@);
        f.notes.push(note);
        assert(f@.notes =~= f0.notes.push(line@));
        assert(f@ =~= file_line(f0, line@).0);
    }
    false
}

/// Opens an untitled section when `diff` has none.
fn ensure_section(diff: &mut Diff)
    ensures
        final(diff)@ == with_section(old(diff)@),
        final(diff)@.sections.len() > 0,
{
    if diff.sections.len() == 0 {
        let sec = Section { title: String::new(), stat: Vec::new(), files: Vec::new() };
        assert(sec@ =~= crate::diff::model::new_section(Seq::empty()));
        diff.sections.push(sec);
        assert(diff@ =~= with_section(old(diff)@));
    }
}

fn read_head_line(diff: &mut Diff, line: &Vec<char>) -> (opened: bool)
    ensures
        (ParseState { diff: final(diff)@, in_hunk: opened }) == head_step(old(diff)@, line@),
{
    let ghost d0 = diff@;
    if let Some(title) = string_after(line, "# ") {
        let sec = Section { title, stat: Vec::new(), files: Vec::new() };
        assert(sec@ =~= crate::diff::model::new_section(title@));
        diff.sections.push(sec);
        assert(diff@.sections =~= d0.sections.push(sec@));
        assert(diff@ =~= head_step(d0, line@).diff);
        return false;
    }
    if let Some(words) = string_after(line, "… ") {
        diff.cut = Some(words);
        assert(diff@ =~= head_step(d0, line@).diff);
        return false;
    }
    if let Some(rest) = rest_after(line, "diff --git ") {
        let (old, new) = split_git_header(&rest);
        let path = match &new {
            Some(n) => n.clone(),
            None => match &old {
                Some(o) => o.clone(),
                None => String::new(),
            },
        };
        ensure_section(diff);
        let ghost d1 = diff@;
        let mut s = diff.sections.pop().unwrap();
        let ghost s1 = s@;
        let ghost sides = git_sides(crate::chars::after(line@, "diff --git "@));
        let file = File { path, old, new, notes: Vec::new(), binary: false, hunks: Vec::new() };
        assert(file@ =~= crate::diff::model::new_file(
            crate::diff::model::header_path(sides),
            sides.0,
            sides.1,
        ));
        s.files.push(file);
        assert(s@.files =~= s1.files.push(file@));
        diff.sections.push(s);
        assert(diff@.sections =~= d1.sections.update(d1.sections.len() - 1, s@));
        assert(diff@ =~= head_step(d0, line@).diff);
        return false;
    }
    if diff.sections.len() > 0 && diff.sections[diff.sections.len() - 1].files.len() > 0 {
        assert(has_file(d0));
        let mut s = diff.sections.pop().unwrap();
        let ghost s0 = s@;
        let mut f = s.files.pop().unwrap();
        let opened = read_file_line(&mut f, line);
        s.files.push(f);
        assert(s@.files =~= s0.files.update(s0.files.len() - 1, f@));
        diff.sections.push(s);
        assert(diff@.sections =~= d0.sections.update(d0.sections.len() - 1, s@));
        assert(diff@ =~= set_last_file(d0, f@));
        return opened;
    }
    assert(!has_file(d0));
    let (a, b) = trim_bounds(line);
    if a < b {
        let stat = string_of(line, a, b);
        ensure_section(diff);
        let ghost d1 = diff@;
        let mut s = diff.sections.pop().unwrap();
        let ghost s1 = s@;
        s.stat.push(stat);
        assert(s@.stat =~= s1.stat.push(stat@));
        diff.sections.push(s);
        assert(diff@.sections =~= d1.sections.update(d1.sections.len() - 1, s@));
        assert(diff@ =~= head_step(d0, line@).diff);
    }
    false
}

fn read_line(diff: &mut Diff, in_hunk: bool, line: &Vec<char>) -> (r: bool)
    requires
        state_ok(ParseState { diff: old(diff)@, in_hunk }),
    ensures
        (ParseState { diff: final(diff)@, in_hunk: r }) == step(
            ParseState { diff: old(diff)@, in_hunk },
            line@,
        ),
        state_ok(ParseState { diff: final(diff)@, in_hunk: r }),
{
    proof {
        crate::diff::model::lemma_step_ok(ParseState { diff: diff@, in_hunk }, line@);
    }
    if in_hunk {
        if let Some(l) = hunk_line_of(line) {
            push_line(diff, l);
            return true;
        }
    }
    read_head_line(diff, line)
}

/// Parses the unified text that the desk sends: `# ` section titles, `--stat` lines,
/// `diff --git` files with their header lines, `@@` hunks and the `… ` cut line.
pub fn parse(text: &str) -> (diff: Diff)
    ensures
        diff@ == parse_text(text@),
{
    let t = chars_of(text);
    let mut diff = Diff { sections: Vec::new(), cut: None };
    let mut in_hunk = false;
    let mut start: usize = 0;
    assert(diff@ =~= start_state().diff);
    while start < t.len()
        invariant
            start <= t@.len(),
            t@ == text@,
            state_ok(ParseState { diff: diff@, in_hunk }),
            run(ParseState { diff: diff@, in_hunk }, lines_from(t@, start as int)) == run(
                start_state(),
                lines_from(t@, 0),
            ),
        decreases t@.len() - start,
    {
        let e = index_of(&t, '\n', start);
        proof {
            crate::chars::lemma_index_from_bounds(t@, '\n', start as int);
        }
        let mut stop = e;
        if stop > start && t[stop - 1] == '\r' {
            stop = stop - 1;
        }
        let line = sub_chars(&t, start, stop);
        let ghost st = ParseState { diff: diff@, in_hunk };
        let ghost lines = lines_from(t@, start as int);
        assert(line@ =~= crate::diff::model::strip_cr(t@.subrange(start as int, e as int)));
        assert(lines[0] == line@);
        in_hunk = read_line(&mut diff, in_hunk, &line);
        if e >= t.len() {
            start = t.len();
            assert(lines.drop_first() =~= lines_from(t@, start as int));
        } else {
            start = e + 1;
            assert(lines.drop_first() =~= lines_from(t@, start as int));
        }
        assert(run(st, lines) == run(step(st, line@), lines.drop_first()));
    }
    diff
}

} // verus!
