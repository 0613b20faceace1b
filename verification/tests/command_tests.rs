use mdbook_git::command::parse_git_cmd;
use mdbook_git::command::GitCmd;
use mdbook_git::diff::parse_diff_options;
use mdbook_git::diff::DiffOpts;
use mdbook_git::range::LineBound;

#[test]
fn show_with_range_parses() {
    match parse_git_cmd("show abc:src/lib.rs:2:4") {
        Some(GitCmd::Show { id, path, ranges }) => {
            assert_eq!(id, "abc");
            assert_eq!(path, "src/lib.rs");
            assert_eq!(
                ranges,
                vec![(LineBound::Included(2), LineBound::Excluded(4))]
            );
        }
        other => panic!("unexpected parse: {:?}", other.is_some()),
    }
}

#[test]
fn show_without_colon_is_rejected() {
    assert!(parse_git_cmd("show abc").is_none());
}

#[test]
fn show_with_empty_revision_is_rejected() {
    assert!(parse_git_cmd("show :src/lib.rs").is_none());
}

#[test]
fn flag_cannot_serve_as_show_argument() {
    assert!(parse_git_cmd("show -h:src/lib.rs").is_none());
}

#[test]
fn flag_cannot_fill_a_diff_positional_slot() {
    assert!(parse_git_cmd("diff a b -h").is_none());
    assert!(parse_git_cmd("diff -U1 a b").is_none());
}

#[test]
fn show_with_invalid_ranges_is_rejected() {
    assert!(parse_git_cmd("show abc:src/lib.rs:[x]").is_none());
    assert!(parse_git_cmd("show abc:src/lib.rs:").is_none());
}

#[test]
fn diff_parses_with_trailing_options() {
    match parse_git_cmd("diff abc def src/lib.rs -U1 -h") {
        Some(GitCmd::Diff { old, new, path, ranges, options }) => {
            assert_eq!(old, "abc");
            assert_eq!(new, "def");
            assert_eq!(path, "src/lib.rs");
            assert_eq!(ranges, vec![(LineBound::Unbounded, LineBound::Unbounded)]);
            assert_eq!(options, vec!["-U1".to_string(), "-h".to_string()]);
        }
        _ => panic!("expected a diff command"),
    }
}

#[test]
fn flags_move_after_positional_arguments() {
    match parse_git_cmd("diff -h abc def src/lib.rs") {
        Some(GitCmd::Diff { old, new, path, options, .. }) => {
            assert_eq!(old, "abc");
            assert_eq!(new, "def");
            assert_eq!(path, "src/lib.rs");
            assert_eq!(options, vec!["-h".to_string()]);
        }
        _ => panic!("expected a diff command"),
    }
}

#[test]
fn flag_order_is_kept_within_the_class() {
    match parse_git_cmd("diff -h a -U2 b f") {
        Some(GitCmd::Diff { options, .. }) => {
            assert_eq!(options, vec!["-h".to_string(), "-U2".to_string()]);
        }
        _ => panic!("expected a diff command"),
    }
}

#[test]
fn diff_with_missing_arguments_is_rejected() {
    assert!(parse_git_cmd("diff abc def").is_none());
}

#[test]
fn unknown_command_word_is_rejected() {
    assert!(parse_git_cmd("pull abc:src/lib.rs").is_none());
    assert!(parse_git_cmd("").is_none());
}

#[test]
fn diff_options_read_context_and_hide() {
    let opts = parse_diff_options(&vec!["-U1".to_string(), "-h".to_string()]);
    assert_eq!(
        opts,
        DiffOpts { context_lines: Some(1), hide_header_and_deletion: true }
    );
}

#[test]
fn diff_options_default_when_absent() {
    let opts = parse_diff_options(&vec!["-x".to_string(), "file".to_string()]);
    assert_eq!(
        opts,
        DiffOpts { context_lines: None, hide_header_and_deletion: false }
    );
}

#[test]
fn malformed_context_count_is_inert() {
    let opts = parse_diff_options(&vec!["-Ux".to_string()]);
    assert_eq!(
        opts,
        DiffOpts { context_lines: None, hide_header_and_deletion: false }
    );
}

#[test]
fn first_well_formed_context_flag_wins_over_a_malformed_one() {
    let opts = parse_diff_options(&vec!["-Ux".to_string(), "-U3".to_string()]);
    assert_eq!(opts.context_lines, Some(3));
}

#[test]
fn first_context_flag_wins() {
    let opts = parse_diff_options(&vec!["-U3".to_string(), "-U9".to_string()]);
    assert_eq!(opts.context_lines, Some(3));
}

#[test]
fn any_flag_starting_dash_h_turns_hide_on() {
    let opts = parse_diff_options(&vec!["-hello".to_string()]);
    assert_eq!(opts.hide_header_and_deletion, true);
}
