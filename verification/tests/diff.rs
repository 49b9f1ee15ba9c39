use pigeon_diff::diff::{parse, Line};

const ONE_FILE: &str = "diff --git a/plan.md b/plan.md
index 422c2b7..0f7bc76 100644
--- a/plan.md
+++ b/plan.md
@@ -1,2 +1,2 @@
 A quiet corner
-by the window.
+by the window, with a lamp.
";

#[test]
fn a_diff_git_header_opens_a_file_with_both_sides() {
    let diff = parse("diff --git a/src/one.rs b/src/one.rs\n");
    let file = &diff.sections[0].files[0];
    assert_eq!(file.path, "src/one.rs");
    assert_eq!(file.old.as_deref(), Some("src/one.rs"));
    assert_eq!(file.new.as_deref(), Some("src/one.rs"));
    assert!(file.hunks.is_empty());
    assert_eq!(diff.totals(), (1, 0, 0));
}

#[test]
fn the_minus_and_plus_lines_name_the_sides_and_dev_null_is_none() {
    let added =
        parse("diff --git a/n.md b/n.md\nnew file mode 100644\n--- /dev/null\n+++ b/n.md\n");
    let file = &added.sections[0].files[0];
    assert_eq!(file.old, None);
    assert_eq!(file.new.as_deref(), Some("n.md"));
    assert_eq!(file.path, "n.md");
    assert_eq!(file.notes, ["new file mode 100644"]);
    let gone = parse("diff --git a/g.md b/g.md\n--- a/g.md\t2026-01-01\n+++ /dev/null\n");
    let file = &gone.sections[0].files[0];
    assert_eq!(file.old.as_deref(), Some("g.md"));
    assert_eq!(file.new, None);
    assert_eq!(file.path, "g.md");
}

#[test]
fn a_hunk_keeps_its_header_and_its_signed_lines() {
    let diff = parse(ONE_FILE);
    let file = &diff.sections[0].files[0];
    assert_eq!(file.hunks.len(), 1);
    let hunk = &file.hunks[0];
    assert_eq!(hunk.header, "@@ -1,2 +1,2 @@");
    assert_eq!(
        hunk.lines,
        [
            Line::Context("A quiet corner".into()),
            Line::Removed("by the window.".into()),
            Line::Added("by the window, with a lamp.".into()),
        ]
    );
    assert_eq!(file.counts(), (1, 1));
    assert_eq!(diff.totals(), (1, 1, 1));
}

#[test]
fn two_hunks_and_a_second_file_land_in_order() {
    let text = format!(
        "{ONE_FILE}@@ -10,1 +10,2 @@ fn main\n ten\n+eleven\ndiff --git a/b.md b/b.md\n--- a/b.md\n+++ b/b.md\n@@ -1 +1 @@\n-x\n+y\n"
    );
    let diff = parse(&text);
    let files = &diff.sections[0].files;
    assert_eq!(files.len(), 2);
    assert_eq!(files[0].hunks.len(), 2);
    assert_eq!(files[0].hunks[1].header, "@@ -10,1 +10,2 @@ fn main");
    assert_eq!(files[1].path, "b.md");
    assert_eq!(diff.totals(), (2, 3, 2));
}

#[test]
fn no_newline_at_end_of_file_is_its_own_line() {
    let text = "diff --git a/e b/e\n--- a/e\n+++ b/e\n@@ -1 +1 @@\n-old\n\\ No newline at end of file\n+new\n\\ No newline at end of file\n";
    let diff = parse(text);
    let lines = &diff.sections[0].files[0].hunks[0].lines;
    assert_eq!(
        lines,
        &[
            Line::Removed("old".into()),
            Line::NoNewline,
            Line::Added("new".into()),
            Line::NoNewline,
        ]
    );
}

#[test]
fn a_binary_notice_marks_the_file_without_a_hunk() {
    let text = "diff --git a/i.png b/i.png\nnew file mode 100644\nindex 0000000..1234567\nBinary files /dev/null and b/i.png differ\n";
    let diff = parse(text);
    let file = &diff.sections[0].files[0];
    assert!(file.binary);
    assert!(file.hunks.is_empty());
    assert_eq!(
        file.notes.last().unwrap(),
        "Binary files /dev/null and b/i.png differ"
    );
    let patch = parse("diff --git a/i.png b/i.png\nGIT binary patch\nliteral 12\nzcmZ\n");
    assert!(patch.sections[0].files[0].binary);
}

#[test]
fn the_stat_block_sits_on_its_section_before_the_files() {
    let text = format!(
        "# Committed on task/lft3 since 80b816d\n plan.md | 2 +-\n 1 file changed, 1 insertion(+), 1 deletion(-)\n{ONE_FILE}# Not yet committed\n"
    );
    let diff = parse(&text);
    assert_eq!(diff.sections.len(), 2);
    let first = &diff.sections[0];
    assert_eq!(first.title, "Committed on task/lft3 since 80b816d");
    assert_eq!(
        first.stat,
        [
            "plan.md | 2 +-",
            "1 file changed, 1 insertion(+), 1 deletion(-)"
        ]
    );
    assert_eq!(first.files.len(), 1);
    assert_eq!(diff.sections[1].title, "Not yet committed");
    assert!(diff.sections[1].files.is_empty());
    assert_eq!(diff.cut, None);
}

#[test]
fn the_cut_line_is_kept_and_a_hunk_cut_mid_way_still_draws() {
    let text = "diff --git a/big.txt b/big.txt\n--- /dev/null\n+++ b/big.txt\n@@ -0,0 +1,3 @@\n+one\n+tw\n… cut: the diff is over 2 MiB\n";
    let diff = parse(text);
    assert_eq!(diff.cut.as_deref(), Some("cut: the diff is over 2 MiB"));
    let lines = &diff.sections[0].files[0].hunks[0].lines;
    assert_eq!(
        lines,
        &[Line::Added("one".into()), Line::Added("tw".into())]
    );
}

#[test]
fn an_empty_text_is_an_empty_diff() {
    let diff = parse("");
    assert!(diff.sections.is_empty());
    assert_eq!(diff.totals(), (0, 0, 0));
    let sections = parse("# Committed on task/x since abc\n# Not yet committed\n");
    assert_eq!(sections.sections.len(), 2);
    assert!(sections.sections.iter().all(|s| s.files.is_empty()));
}
