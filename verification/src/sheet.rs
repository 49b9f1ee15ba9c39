pub mod fit;
pub mod layout;
pub mod shown;

use vstd::prelude::*;
use crate::diff::model::{FileModel, HunkModel, LineModel, SectionModel, lemma_file_counts_fit};
use crate::diff::{Diff, File, Hunk, Section};
use crate::sheet::layout::{
    Layout, Row, SheetModel, cut_note, error_rows, file_heading, file_rows, finish, hunk_row,
    hunk_rows, lay_out, lemma_flatten_step, lemma_place_all_concat, lemma_place_all_placed,
    lemma_place_all_push, lemma_rows_bytes_prefix, note_row, place, place_all, placed, rows_bytes,
    section_rows, sheet_rows, start_layout, totals_text,
};
use crate::text::{byte_len, decimal_string};

verus! {

/// The most lines a sheet carries before the line that counts the rest.
pub const MAX_LINES: usize = 4000;

/// The most text bytes a sheet carries before the line that counts the rest.
pub const MAX_TEXT: usize = 60000;

/// What a line of the sheet shows, which sets how it is drawn.
#[derive(Debug, Clone, Copy, PartialEq, Eq)]
pub enum Kind {
    Heading,
    Totals,
    Section,
    File,
    Meta,
    Context,
    Added,
    Removed,
    Cut,
    Error,
}

/// One line of the sheet.
#[derive(Debug, Clone, PartialEq, Eq)]
pub struct Line {
    pub kind: Kind,
    pub text: String,
}

/// The lines a sheet shows and how many it left out.
#[derive(Debug, Default, PartialEq, Eq)]
pub struct Sheet {
    pub lines: Vec<Line>,
    pub dropped: usize,
}

impl View for Line {
    type V = Row;

    open spec fn view(&self) -> Row {
        (self.kind, self.text@)
    }
}

impl View for Sheet {
    type V = SheetModel;

    open spec fn view(&self) -> SheetModel {
        SheetModel { lines: self.lines@.map_values(|l: Line| l@), dropped: self.dropped as nat }
    }
}

impl Sheet {
    /// The number of bytes of text over all lines.
    pub fn text_bytes(&self) -> (n: usize)
        requires
            rows_bytes(self@.lines) <= usize::MAX,
        ensures
            n == rows_bytes(self@.lines),
    {
        let mut n: usize = 0;
        let mut i: usize = 0;
        let ghost rows = self@.lines;
        assert(rows.take(0) =~= Seq::<Row>::empty());
        while i < self.lines.len()
            invariant
                rows == self@.lines,
                rows_bytes(rows) <= usize::MAX,
                i <= rows.len(),
                n == rows_bytes(rows.take(i as int)),
            decreases rows.len() - i,
        {
            proof {
                lemma_rows_bytes_prefix(rows, i as int);
            }
            n = n + byte_len(self.lines[i].text.as_str());
            i = i + 1;
        }
        assert(rows.take(rows.len() as int) =~= rows);
        n
    }
}

/// Lays rows out under the sheet's bounds.
struct Builder {
    sheet: Sheet,
    text: usize,
}

impl Builder {
    /// The layout so far.
    spec fn layout(&self) -> Layout {
        Layout { lines: self.sheet@.lines, dropped: self.sheet.dropped as nat, used: self.text as nat }
    }

    spec fn fits(&self) -> bool {
        self.text <= MAX_TEXT
    }

    fn new() -> (b: Builder)
        ensures
            b.layout() == start_layout(),
            b.fits(),
    {
        let b = Builder { sheet: Sheet { lines: Vec::new(), dropped: 0 }, text: 0 };
        assert(b.layout().lines =~= Seq::<Row>::empty());
        b
    }

    fn push(&mut self, kind: Kind, text: String)
        requires
            old(self).fits(),
            placed(old(self).layout()) < usize::MAX,
        ensures
            final(self).layout() == place(old(self).layout(), (kind, text@)),
            final(self).fits(),
    {
        let ghost l0 = self.layout();
        let n = byte_len(text.as_str());
        if self.sheet.dropped > 0 || self.sheet.lines.len() >= MAX_LINES || n > MAX_TEXT
            - self.text {
            self.sheet.dropped = self.sheet.dropped + 1;
        } else {
            self.text = self.text + n;
            self.sheet.lines.push(Line { kind, text });
            assert(self.layout().lines =~= l0.lines.push((kind, text@)));
        }
    }

    fn finish(self) -> (sheet: Sheet)
        ensures
            sheet@ == finish(self.layout()),
    {
        let mut sheet = self.sheet;
        if sheet.dropped > 0 {
            let n = sheet.dropped;
            let mut words = "… ".to_owned();
            let digits = decimal_string(n);
            words.append(digits.as_str());
            words.append(" more ");
            if n == 1 {
                words.append("line");
            } else {
                words.append("lines");
            }
            words.append(" than the sheet holds");
            assert(words@ =~= cut_note(n as nat));
            let ghost lines0 = sheet@.lines;
            sheet.lines.push(Line { kind: Kind::Cut, text: words });
            assert(sheet@.lines =~= lines0.push((Kind::Cut, cut_note(n as nat))));
        }
        sheet
    }
}

/// The sheet for a run whose diff could not be had: the heading and the desk's words.
pub fn error(task: &str, run: &str, words: &str) -> (sheet: Sheet)
    ensures
        sheet@ == lay_out(error_rows(task@, run@, words@)),
{
    let mut b = Builder::new();
    let mut head = task.to_owned();
    head.append(" · ");
    head.append(run);
    b.push(Kind::Heading, head);
    b.push(Kind::Error, words.to_owned());
    proof {
        let rows = error_rows(task@, run@, words@);
        lemma_place_all_push(start_layout(), seq![rows[0]], rows[1]);
        lemma_place_all_push(start_layout(), Seq::empty(), rows[0]);
        assert(seq![rows[0]].push(rows[1]) =~= rows);
        assert(Seq::<Row>::empty().push(rows[0]) =~= seq![rows[0]]);
    }
    b.finish()
}


/// The row a hunk line shows.
fn hunk_row_of(l: &crate::diff::Line) -> (r: (Kind, String))
    ensures
        (r.0, r.1@) == hunk_row(l@),
{
    match l {
        crate::diff::Line::Context(t) => {
            let mut s = " ".to_owned();
            s.append(t.as_str());
            (Kind::Context, s)
        },
        crate::diff::Line::Added(t) => {
            let mut s = "+".to_owned();
            s.append(t.as_str());
            (Kind::Added, s)
        },
        crate::diff::Line::Removed(t) => {
            let mut s = "-".to_owned();
            s.append(t.as_str());
            (Kind::Removed, s)
        },
        crate::diff::Line::NoNewline => (Kind::Meta, "\\ No newline at end of file".to_owned()),
    }
}

fn push_hunk(b: &mut Builder, h: &Hunk)
    requires
        old(b).fits(),
        placed(old(b).layout()) + hunk_rows(h@).len() <= usize::MAX,
    ensures
        final(b).fits(),
        final(b).layout() == place_all(old(b).layout(), hunk_rows(h@)),
{
    let ghost l0 = b.layout();
    let ghost head = seq![(Kind::Meta, h@.header)];
    let ghost m = h@.lines.map_values(|l: LineModel| hunk_row(l));
    b.push(Kind::Meta, h.header.clone());
    proof {
        lemma_place_all_push(l0, Seq::empty(), head[0]);
        assert(Seq::<Row>::empty().push(head[0]) =~= head);
        assert(m.take(0) =~= Seq::<Row>::empty());
        assert(head + m.take(0) =~= head);
        lemma_place_all_placed(l0, head);
    }
    let mut j: usize = 0;
    while j < h.lines.len()
        invariant
            b.fits(),
            m == h@.lines.map_values(|l: LineModel| hunk_row(l)),
            j <= m.len(),
            b.layout() == place_all(l0, head + m.take(j as int)),
            placed(b.layout()) == placed(l0) + 1 + j,
            placed(l0) + 1 + m.len() <= usize::MAX,
        decreases m.len() - j,
    {
        let (kind, text) = hunk_row_of(&h.lines[j]);
        b.push(kind, text);
        proof {
            lemma_place_all_push(l0, head + m.take(j as int), m[j as int]);
            assert((head + m.take(j as int)).push(m[j as int]) =~= head + m.take(j + 1));
        }
        j = j + 1;
    }
    assert(m.take(m.len() as int) =~= m);
}

fn push_file(b: &mut Builder, f: &File)
    requires
        old(b).fits(),
        f@.counts_fit(),
        placed(old(b).layout()) + file_rows(f@).len() <= usize::MAX,
    ensures
        final(b).fits(),
        final(b).layout() == place_all(old(b).layout(), file_rows(f@)),
{
    let ghost l0 = b.layout();
    let (a, r) = f.counts();
    let mut name = String::new();
    let mut renamed = false;
    if let Some(o) = &f.old {
        if let Some(n) = &f.new {
            if !(*o == *n) {
                name = o.clone();
                name.append(" → ");
                name.append(n.as_str());
                renamed = true;
            }
        }
    }
    if !renamed {
        name = f.path.clone();
    }
    name.append("  +");
    let ad = decimal_string(a);
    name.append(ad.as_str());
    name.append(" −");
    let rd = decimal_string(r);
    name.append(rd.as_str());
    assert(name@ =~= file_heading(f@));
    let ghost head = seq![(Kind::File, file_heading(f@))];
    let ghost notes = f@.notes.map_values(|n: Seq<char>| note_row(n));
    let ghost hs = f@.hunks.map_values(|h: HunkModel| hunk_rows(h));
    b.push(Kind::File, name);
    proof {
        lemma_place_all_push(l0, Seq::empty(), head[0]);
        assert(Seq::<Row>::empty().push(head[0]) =~= head);
        assert(notes.take(0) =~= Seq::<Row>::empty());
        assert(head + notes.take(0) =~= head);
        lemma_place_all_placed(l0, head);
    }
    let mut k: usize = 0;
    while k < f.notes.len()
        invariant
            b.fits(),
            notes == f@.notes.map_values(|n: Seq<char>| note_row(n)),
            k <= notes.len(),
            b.layout() == place_all(l0, head + notes.take(k as int)),
            placed(b.layout()) == placed(l0) + 1 + k,
            placed(l0) + file_rows(f@).len() <= usize::MAX,
            file_rows(f@) == head + notes + hs.flatten(),
        decreases notes.len() - k,
    {
        b.push(Kind::Meta, f.notes[k].clone());
        proof {
            lemma_place_all_push(l0, head + notes.take(k as int), notes[k as int]);
            assert((head + notes.take(k as int)).push(notes[k as int]) =~= head + notes.take(
                k + 1,
            ));
        }
        k = k + 1;
    }
    assert(notes.take(notes.len() as int) =~= notes);
    assert(hs.take(0) =~= Seq::<Seq<Row>>::empty());
    assert(head + notes + hs.take(0).flatten() =~= head + notes);
    let mut i: usize = 0;
    while i < f.hunks.len()
        invariant
            b.fits(),
            hs == f@.hunks.map_values(|h: HunkModel| hunk_rows(h)),
            i <= hs.len(),
            b.layout() == place_all(l0, head + notes + hs.take(i as int).flatten()),
            placed(b.layout()) == placed(l0) + 1 + notes.len() + hs.take(i as int).flatten().len(),
            placed(l0) + 1 + notes.len() + hs.flatten().len() <= usize::MAX,
        decreases hs.len() - i,
    {
        proof {
            lemma_flatten_step(hs, i as int);
        }
        push_hunk(b, &f.hunks[i]);
        proof {
            let pre = head + notes + hs.take(i as int).flatten();
            lemma_place_all_concat(l0, pre, hs[i as int]);
            assert(pre + hs[i as int] =~= head + notes + hs.take(i + 1).flatten());
            lemma_place_all_placed(place_all(l0, pre), hs[i as int]);
        }
        i = i + 1;
    }
    assert(hs.take(hs.len() as int) =~= hs);
}

fn push_section(b: &mut Builder, s: &Section)
    requires
        old(b).fits(),
        forall|j: int| 0 <= j < s@.files.len() ==> (#[trigger] s@.files[j]).counts_fit(),
        placed(old(b).layout()) + section_rows(s@).len() <= usize::MAX,
    ensures
        final(b).fits(),
        final(b).layout() == place_all(old(b).layout(), section_rows(s@)),
{
    let ghost l0 = b.layout();
    let ghost fs = s@.files.map_values(|f: FileModel| file_rows(f));
    let ghost title: Seq<Row> = if s@.title.len() > 0 {
        seq![(Kind::Section, s@.title)]
    } else {
        Seq::empty()
    };
    let ghost nothing: Seq<Row> = if s@.title.len() > 0 && s@.files.len() == 0 {
        seq![(Kind::Meta, "nothing"@)]
    } else {
        Seq::empty()
    };
    let ghost head = title + nothing;
    assert(section_rows(s@) == head + fs.flatten());
    let has_title = !s.title.as_str().is_empty();
    if has_title {
        b.push(Kind::Section, s.title.clone());
        proof {
            lemma_place_all_push(l0, Seq::empty(), title[0]);
            assert(Seq::<Row>::empty().push(title[0]) =~= title);
        }
        if s.files.len() == 0 {
            b.push(Kind::Meta, "nothing".to_owned());
            proof {
                lemma_place_all_push(l0, title, nothing[0]);
                assert(title.push(nothing[0]) =~= head);
            }
        } else {
            assert(head =~= title);
        }
    } else {
        assert(head =~= Seq::<Row>::empty());
    }
    proof {
        lemma_place_all_placed(l0, head);
        assert(fs.take(0) =~= Seq::<Seq<Row>>::empty());
        assert(head + fs.take(0).flatten() =~= head);
    }
    let mut i: usize = 0;
    while i < s.files.len()
        invariant
            b.fits(),
            fs == s@.files.map_values(|f: FileModel| file_rows(f)),
            forall|j: int| 0 <= j < s@.files.len() ==> (#[trigger] s@.files[j]).counts_fit(),
            i <= fs.len(),
            b.layout() == place_all(l0, head + fs.take(i as int).flatten()),
            placed(b.layout()) == placed(l0) + head.len() + fs.take(i as int).flatten().len(),
            placed(l0) + head.len() + fs.flatten().len() <= usize::MAX,
        decreases fs.len() - i,
    {
        proof {
            lemma_flatten_step(fs, i as int);
            assert(s@.files[i as int].counts_fit());
        }
        push_file(b, &s.files[i]);
        proof {
            let pre = head + fs.take(i as int).flatten();
            lemma_place_all_concat(l0, pre, fs[i as int]);
            assert(pre + fs[i as int] =~= head + fs.take(i + 1).flatten());
            lemma_place_all_placed(place_all(l0, pre), fs[i as int]);
        }
        i = i + 1;
    }
    assert(fs.take(fs.len() as int) =~= fs);
}

/// Lays a run's diff out as a sheet: the task and run, the totals, each section with its
/// files, hunks and lines, then the desk's cut line; rows past `MAX_LINES` lines or
/// `MAX_TEXT` bytes are left out and counted on a closing line.
pub fn build(task: &str, run: &str, diff: &Diff) -> (sheet: Sheet)
    requires
        diff@.totals_fit(),
        sheet_rows(task@, run@, diff@).len() <= usize::MAX,
    ensures
        sheet@ == lay_out(sheet_rows(task@, run@, diff@)),
{
    let ghost rows = sheet_rows(task@, run@, diff@);
    let ghost ss = diff@.sections.map_values(|s: SectionModel| section_rows(s));
    let ghost cut: Seq<Row> = match diff@.cut {
        Some(c) => seq![(Kind::Cut, "… "@ + c)],
        None => Seq::<Row>::empty(),
    };
    let mut b = Builder::new();
    let mut head = task.to_owned();
    head.append(" · ");
    head.append(run);
    let (files, added, removed) = diff.totals();
    let mut totals = decimal_string(files);
    totals.append(" ");
    if files == 1 {
        totals.append("file");
    } else {
        totals.append("files");
    }
    totals.append(" · +");
    let ad = decimal_string(added);
    totals.append(ad.as_str());
    totals.append(" −");
    let rd = decimal_string(removed);
    totals.append(rd.as_str());
    assert(totals@ =~= totals_text(diff@.totals()));
    let ghost top = seq![
        (Kind::Heading, crate::sheet::layout::heading(task@, run@)),
        (Kind::Totals, totals_text(diff@.totals())),
    ];
    assert(rows == top + ss.flatten() + cut);
    b.push(Kind::Heading, head);
    b.push(Kind::Totals, totals);
    proof {
        lemma_place_all_push(start_layout(), Seq::empty(), top[0]);
        lemma_place_all_push(start_layout(), seq![top[0]], top[1]);
        assert(Seq::<Row>::empty().push(top[0]) =~= seq![top[0]]);
        assert(seq![top[0]].push(top[1]) =~= top);
        assert(ss.take(0) =~= Seq::<Seq<Row>>::empty());
        assert(top + ss.take(0).flatten() =~= top);
    }
    let mut i: usize = 0;
    while i < diff.sections.len()
        invariant
            b.fits(),
            diff@.totals_fit(),
            ss == diff@.sections.map_values(|s: SectionModel| section_rows(s)),
            i <= ss.len(),
            b.layout() == place_all(start_layout(), top + ss.take(i as int).flatten()),
            placed(b.layout()) == 2 + ss.take(i as int).flatten().len(),
            2 + ss.flatten().len() + cut.len() <= usize::MAX,
        decreases ss.len() - i,
    {
        proof {
            lemma_flatten_step(ss, i as int);
            assert forall|j: int| 0 <= j < diff@.sections[i as int].files.len() implies (
            #[trigger] diff@.sections[i as int].files[j]).counts_fit() by {
                lemma_file_counts_fit(diff@, i as int, j);
            }
        }
        push_section(&mut b, &diff.sections[i]);
        proof {
            let pre = top + ss.take(i as int).flatten();
            lemma_place_all_concat(start_layout(), pre, ss[i as int]);
            assert(pre + ss[i as int] =~= top + ss.take(i + 1).flatten());
            lemma_place_all_placed(place_all(start_layout(), pre), ss[i as int]);
        }
        i = i + 1;
    }
    assert(ss.take(ss.len() as int) =~= ss);
    if let Some(c) = &diff.cut {
        let mut words = "… ".to_owned();
        words.append(c.as_str());
        b.push(Kind::Cut, words);
        proof {
            lemma_place_all_push(start_layout(), top + ss.flatten(), cut[0]);
            assert((top + ss.flatten()).push(cut[0]) =~= rows);
        }
    } else {
        assert(top + ss.flatten() =~= rows);
    }
    b.finish()
}

} // verus!
