use pigeon_diff::diff::parse;
use pigeon_diff::sheet::{build, error, Kind, MAX_LINES, MAX_TEXT};

#[test]
fn every_row_is_kept_in_order_or_counted() {
    let mut text = String::from("diff --git a/n b/n\n@@ -0,0 +1,5000 @@\n");
    for n in 0..5_000 {
        text.push_str(&format!("+{n}\n"));
    }
    let sheet = build("t", "r", &parse(&text));
    // heading, totals, file, hunk header, 5000 lines
    let rows = 4 + 5_000;
    assert_eq!(sheet.lines.len() - 1 + sheet.dropped, rows);
    assert_eq!(sheet.lines.len(), MAX_LINES + 1);
    assert_eq!(sheet.lines[4].text, "+0");
    assert_eq!(sheet.lines[MAX_LINES - 1].text, format!("+{}", MAX_LINES - 5));
    assert_eq!(sheet.lines[MAX_LINES].kind, Kind::Cut);
}

#[test]
fn a_sheet_that_fits_shows_every_row_and_no_count() {
    let sheet = build("t", "r", &parse("# only\n"));
    assert_eq!(sheet.dropped, 0);
    let kinds: Vec<Kind> = sheet.lines.iter().map(|l| l.kind).collect();
    assert_eq!(kinds, [Kind::Heading, Kind::Totals, Kind::Section, Kind::Meta]);
    assert_eq!(sheet.lines[1].text, "0 files · +0 −0");
}

#[test]
fn a_heading_too_long_for_the_sheet_is_counted_like_any_row() {
    let long = "x".repeat(MAX_TEXT + 1);
    let sheet = error(&long, "r", "no");
    assert_eq!(sheet.dropped, 2);
    assert_eq!(sheet.lines.len(), 1);
    assert_eq!(sheet.lines[0].text, "… 2 more lines than the sheet holds");
    assert!(sheet.text_bytes() < 65_536);
}

#[test]
fn text_bytes_count_utf8_bytes() {
    let sheet = error("é", "ü", "→");
    assert_eq!(sheet.text_bytes(), "é · ü".len() + "→".len());
    assert_eq!(sheet.text_bytes(), 2 + 4 + 2 + 3);
}

#[test]
fn the_totals_count_the_file_added_and_removed_rows() {
    let text = "# a\ndiff --git a/x b/x\n@@ -1,2 +1,2 @@\n-1\n+2\n+3\n 4\n# b\ndiff --git a/y b/z\n@@ -1 +0,0 @@\n-5\n";
    let diff = parse(text);
    let sheet = build("t", "r", &diff);
    let count = |k: Kind| sheet.lines.iter().filter(|l| l.kind == k).count();
    assert_eq!(diff.totals(), (2, 2, 2));
    assert_eq!((count(Kind::File), count(Kind::Added), count(Kind::Removed)), (2, 2, 2));
    assert_eq!(sheet.lines[1].text, "2 files · +2 −2");
    assert!(sheet.lines.iter().any(|l| l.kind == Kind::File && l.text == "y → z  +0 −1"));
}
