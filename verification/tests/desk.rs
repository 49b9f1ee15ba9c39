use pigeon_diff::context::Context;
use pigeon_diff::desk::{reply_sheet, shows_verb, style, Style, Tone};
use pigeon_diff::sheet::Kind;

fn sheet_kinds(sheet: &pigeon_diff::sheet::Sheet) -> Vec<(Kind, &str)> {
    sheet.lines.iter().map(|l| (l.kind, l.text.as_str())).collect()
}

#[test]
fn each_kind_has_its_style() {
    let s = |bold, italic, code, tone| Style { bold, italic, code, tone };
    assert_eq!(style(Kind::Heading), s(true, false, false, None));
    assert_eq!(style(Kind::Section), s(true, false, false, None));
    assert_eq!(style(Kind::Totals), s(false, false, false, Some(Tone::Dim)));
    assert_eq!(style(Kind::File), s(true, false, true, None));
    assert_eq!(style(Kind::Meta), s(false, false, true, Some(Tone::Dim)));
    assert_eq!(style(Kind::Context), s(false, false, true, None));
    assert_eq!(style(Kind::Added), s(false, false, true, Some(Tone::Okay)));
    assert_eq!(style(Kind::Removed), s(false, false, true, Some(Tone::Danger)));
    assert_eq!(style(Kind::Cut), s(false, true, false, Some(Tone::Dim)));
    assert_eq!(style(Kind::Error), s(false, false, false, Some(Tone::Danger)));
}

#[test]
fn the_verb_shows_only_in_the_command_slot_of_a_git_run() {
    let git = Context { task: "t".into(), run: "r".into(), git: true };
    let folder = Context { task: "t".into(), run: "r".into(), git: false };
    assert!(shows_verb(true, &git));
    assert!(!shows_verb(false, &git));
    assert!(!shows_verb(true, &folder));
    assert!(!shows_verb(false, &folder));
}

#[test]
fn a_reply_with_text_is_laid_out_and_a_refusal_is_an_error_sheet() {
    let text = "diff --git a/a b/a\n--- a/a\n+++ b/a\n@@ -1 +1 @@\n-x\n+y\n".to_string();
    let sheet = reply_sheet("t1", "t1-code1", &Ok(text));
    assert_eq!(
        sheet_kinds(&sheet),
        [
            (Kind::Heading, "t1 · t1-code1"),
            (Kind::Totals, "1 file · +1 −1"),
            (Kind::File, "a  +1 −1"),
            (Kind::Meta, "@@ -1 +1 @@"),
            (Kind::Removed, "-x"),
            (Kind::Added, "+y"),
        ]
    );
    let refused = reply_sheet("t1", "t1-code1", &Err("no workspace".to_string()));
    assert_eq!(
        sheet_kinds(&refused),
        [(Kind::Heading, "t1 · t1-code1"), (Kind::Error, "no workspace")]
    );
    assert_eq!(refused.dropped, 0);
}

#[test]
fn fields_fill_a_context_with_its_defaults() {
    let c = Context::from_fields(Some("k".into()), None, Some("b".into()));
    assert_eq!(c, Context { task: "k".into(), run: "no run".into(), git: true });
    let c = Context::from_fields(None, Some("r".into()), None);
    assert_eq!(c, Context { task: String::new(), run: "r".into(), git: false });
}

#[test]
fn a_context_reads_only_string_fields() {
    let c = Context::parse(r#"{"task":7,"run":"r","branch":false}"#);
    assert_eq!(c, Context { task: String::new(), run: "r".into(), git: false });
    let c = Context::parse(r#"{"task":"é","run":"ü","branch":""}"#);
    assert_eq!(c, Context { task: "é".into(), run: "ü".into(), git: true });
}
