use mdbook_git::diff::append_rendered_diff_line;
use mdbook_git::diff::DiffLineKind;
use mdbook_git::range::LineBound;
use mdbook_git::take_lines_comment_out_rest;

#[test]
fn addition_line_keeps_its_marker() {
    let mut out = String::new();
    append_rendered_diff_line(&mut out, "new line\n", DiffLineKind::Addition, false);
    assert_eq!(out, "+new line\n");
}

#[test]
fn deletion_and_context_markers() {
    let mut out = String::new();
    append_rendered_diff_line(&mut out, "gone\n", DiffLineKind::Deletion, false);
    append_rendered_diff_line(&mut out, "kept\n", DiffLineKind::Context, false);
    assert_eq!(out, "-gone\n kept\n");
}

#[test]
fn header_line_has_no_marker() {
    let mut out = String::new();
    append_rendered_diff_line(&mut out, "@@ -1 +1 @@\n", DiffLineKind::Header, false);
    assert_eq!(out, "@@ -1 +1 @@\n");
}

#[test]
fn hide_mode_comments_headers_and_deletions_only() {
    let mut out = String::new();
    append_rendered_diff_line(&mut out, "@@ -1,2 +1,2 @@\n", DiffLineKind::Header, true);
    append_rendered_diff_line(&mut out, "old\n", DiffLineKind::Deletion, true);
    append_rendered_diff_line(&mut out, "new\n", DiffLineKind::Addition, true);
    append_rendered_diff_line(&mut out, "same\n", DiffLineKind::Context, true);
    assert_eq!(out, "# @@ -1,2 +1,2 @@\n# -old\n+new\n same\n");
}

#[test]
fn unterminated_content_gains_a_terminator() {
    let mut out = String::new();
    append_rendered_diff_line(&mut out, "tail", DiffLineKind::Context, false);
    assert_eq!(out, " tail\n");
}

#[test]
fn hidden_lines_survive_annotation_unchanged() {
    let mut patch = String::new();
    append_rendered_diff_line(&mut patch, "header\n", DiffLineKind::Header, true);
    append_rendered_diff_line(&mut patch, "add\n", DiffLineKind::Addition, true);
    let out = take_lines_comment_out_rest(
        &patch,
        vec![(LineBound::Unbounded, LineBound::Unbounded)],
    );
    assert_eq!(out, "# header\n+add\n");
}
