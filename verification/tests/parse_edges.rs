use pigeon_diff::diff::{parse, Line};

#[test]
fn crlf_lines_read_as_plain_lines() {
    let diff = parse("diff --git a/w b/w\r\n--- a/w\r\n+++ b/w\r\n@@ -1 +1 @@\r\n-a\r\n+b\r\n");
    let file = &diff.sections[0].files[0];
    assert_eq!(file.path, "w");
    assert_eq!(file.hunks[0].header, "@@ -1 +1 @@");
    assert_eq!(
        file.hunks[0].lines,
        [Line::Removed("a".into()), Line::Added("b".into())]
    );
}

#[test]
fn an_empty_line_in_a_hunk_is_empty_context_and_a_header_line_ends_the_hunk() {
    let diff = parse("diff --git a/e b/e\n@@ -1,3 +1,3 @@\n x\n\n y\nindex 1..2\n");
    let file = &diff.sections[0].files[0];
    assert_eq!(
        file.hunks[0].lines,
        [
            Line::Context("x".into()),
            Line::Context(String::new()),
            Line::Context("y".into())
        ]
    );
    assert_eq!(file.notes, ["index 1..2"]);
}

#[test]
fn a_header_without_b_side_has_no_sides_and_an_empty_path() {
    let diff = parse("diff --git odd-header\n");
    let file = &diff.sections[0].files[0];
    assert_eq!(file.path, "");
    assert_eq!(file.old, None);
    assert_eq!(file.new, None);
    let plain = parse("diff --git x/one b/two\n");
    let file = &plain.sections[0].files[0];
    assert_eq!(file.old, None);
    assert_eq!(file.new.as_deref(), Some("two"));
    assert_eq!(file.path, "two");
}

#[test]
fn a_deleted_file_keeps_its_old_path_and_sides_stop_at_a_tab() {
    let diff = parse("diff --git a/g b/g\n--- a/g\tdate\n+++ /dev/null\t\n");
    let file = &diff.sections[0].files[0];
    assert_eq!(file.old.as_deref(), Some("g"));
    assert_eq!(file.new, None);
    assert_eq!(file.path, "g");
    let bare = parse("diff --git a/h b/h\n--- h\n+++ other\n");
    let file = &bare.sections[0].files[0];
    assert_eq!(file.old.as_deref(), Some("h"));
    assert_eq!(file.new.as_deref(), Some("other"));
    assert_eq!(file.path, "other");
}

#[test]
fn stat_lines_are_trimmed_of_unicode_white_space_and_blank_ones_skipped() {
    let diff = parse("\u{3000} a | 1 +\u{a0}\n \t \n\u{2003}\n");
    assert_eq!(diff.sections.len(), 1);
    assert_eq!(diff.sections[0].title, "");
    assert_eq!(diff.sections[0].stat, ["a | 1 +"]);
}

#[test]
fn the_last_cut_line_wins_and_a_hash_without_space_is_no_section() {
    let diff = parse("… first\n#nope\n… second");
    assert_eq!(diff.cut.as_deref(), Some("second"));
    assert_eq!(diff.sections.len(), 1);
    assert_eq!(diff.sections[0].stat, ["#nope"]);
}

#[test]
fn counts_and_totals_count_signed_lines_only() {
    let diff = parse(
        "# s\ndiff --git a/a b/a\n@@ -1 +1 @@\n-x\n+y\n+z\n\\ No newline at end of file\n w\n# t\ndiff --git a/b b/b\n@@ -1 +0,0 @@\n-q\n",
    );
    assert_eq!(diff.sections[0].files[0].counts(), (2, 1));
    assert_eq!(diff.sections[1].files[0].counts(), (0, 1));
    assert_eq!(diff.totals(), (2, 2, 2));
}

#[test]
fn binary_patch_marks_binary_and_plain_notes_do_not() {
    let diff = parse("diff --git a/b b/b\nold mode 100644\nGIT binary patch\n");
    let file = &diff.sections[0].files[0];
    assert!(file.binary);
    assert_eq!(file.notes, ["old mode 100644", "GIT binary patch"]);
    let plain = parse("diff --git a/c b/c\nold mode 100644\n");
    assert!(!plain.sections[0].files[0].binary);
}
