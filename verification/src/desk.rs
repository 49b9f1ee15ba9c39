use vstd::prelude::*;
use crate::context::Context;
use crate::diff::model::parse_text;
use crate::diff::parse;
use crate::sheet::layout::{error_rows, lay_out, sheet_rows};
use crate::sheet::{Kind, Sheet, build, error};

verus! {

/// The desk's tones that the plugin draws with.
#[derive(Debug, Clone, Copy, PartialEq, Eq)]
pub enum Tone {
    Dim,
    Okay,
    Danger,
    Accent,
}

/// How a line of the sheet is drawn.
#[derive(Debug, Clone, Copy, PartialEq, Eq)]
pub struct Style {
    pub bold: bool,
    pub italic: bool,
    pub code: bool,
    pub tone: Option<Tone>,
}

/// How each kind of line is drawn: headings and section titles bold, file headers bold
/// monospace, hunk text in monospace with added lines `Okay` (the desk's `ok`) and removed lines `Danger`,
/// notes dim monospace, the totals dim, cut lines dim italic, errors `Danger`.
pub open spec fn style_of(kind: Kind) -> Style {
    match kind {
        Kind::Heading | Kind::Section => Style { bold: true, italic: false, code: false, tone: None },
        Kind::Totals => Style { bold: false, italic: false, code: false, tone: Some(Tone::Dim) },
        Kind::File => Style { bold: true, italic: false, code: true, tone: None },
        Kind::Meta => Style { bold: false, italic: false, code: true, tone: Some(Tone::Dim) },
        Kind::Context => Style { bold: false, italic: false, code: true, tone: None },
        Kind::Added => Style { bold: false, italic: false, code: true, tone: Some(Tone::Okay) },
        Kind::Removed => Style { bold: false, italic: false, code: true, tone: Some(Tone::Danger) },
        Kind::Cut => Style { bold: false, italic: true, code: false, tone: Some(Tone::Dim) },
        Kind::Error => Style { bold: false, italic: false, code: false, tone: Some(Tone::Danger) },
    }
}

/// How a line of the given kind is drawn.
pub fn style(kind: Kind) -> (s: Style)
    ensures
        s == style_of(kind),
{
    let (bold, code, tone) = match kind {
        Kind::Heading | Kind::Section => (true, false, None),
        Kind::Totals => (false, false, Some(Tone::Dim)),
        Kind::File => (true, true, None),
        Kind::Meta => (false, true, Some(Tone::Dim)),
        Kind::Context => (false, true, None),
        Kind::Added => (false, true, Some(Tone::Okay)),
        Kind::Removed => (false, true, Some(Tone::Danger)),
        Kind::Cut => (false, false, Some(Tone::Dim)),
        Kind::Error => (false, false, Some(Tone::Danger)),
    };
    let italic = match kind {
        Kind::Cut => true,
        _ => false,
    };
    Style { bold, italic, code, tone }
}

/// Whether the tablet's command slot offers *Show the diff*: only for a run with a branch.
pub fn shows_verb(command_slot: bool, context: &Context) -> (r: bool)
    ensures
        r == (command_slot && context.git),
{
    command_slot && context.git
}


/// The sheet that answers *Show the diff*: the run's diff laid out when the desk sent its
/// text, or the heading and the desk's words when it refused.
pub fn reply_sheet(task: &str, run: &str, reply: &Result<String, String>) -> (sheet: Sheet)
    requires
        reply matches Ok(text) ==> 2 * text@.len() + 2 <= usize::MAX,
    ensures
        match reply {
            Ok(text) => sheet@ == lay_out(sheet_rows(task@, run@, parse_text(text@))),
            Err(words) => sheet@ == lay_out(error_rows(task@, run@, words@)),
        },
{
    match reply {
        Ok(text) => {
            let diff = parse(text.as_str());
            proof {
                crate::sheet::fit::law_parsed_text_fits_the_sheet(task@, run@, text@);
            }
            build(task, run, &diff)
        },
        Err(words) => error(task, run, words.as_str()),
    }
}

} // verus!
