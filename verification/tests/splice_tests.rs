use mdbook_git::command::parse_git_cmd;
use mdbook_git::command::GitCmd;
use mdbook_git::scanner::find_git_cmds;
use mdbook_git::splice::splice;
use mdbook_git::splice::SpliceItem;
use mdbook_git::take_lines_comment_out_rest;
use mdbook_git::Git;

#[test]
fn replacement_spliced_into_span() {
    let text = "a {{ #git show x:f }} b";
    let toks = find_git_cmds(text);
    let items = vec![SpliceItem {
        start: toks[0].start,
        end: toks[0].end,
        replacement: Some("CONTENT".to_string()),
    }];
    assert_eq!(splice(text, &items).unwrap(), "a CONTENT b");
}

#[test]
fn failed_resolution_preserves_text_byte_for_byte() {
    let text = "a {{ #git show x:f }} b";
    let toks = find_git_cmds(text);
    let items = vec![SpliceItem {
        start: toks[0].start,
        end: toks[0].end,
        replacement: None,
    }];
    assert_eq!(splice(text, &items).unwrap(), text);
}

#[test]
fn failed_token_between_replaced_ones_stays_verbatim() {
    let text = "x {{ #git show a:f }} y {{ #git show b:g }} z";
    let toks = find_git_cmds(text);
    let items = vec![
        SpliceItem { start: toks[0].start, end: toks[0].end, replacement: Some("ONE".into()) },
        SpliceItem { start: toks[1].start, end: toks[1].end, replacement: None },
    ];
    assert_eq!(splice(text, &items).unwrap(), "x ONE y {{ #git show b:g }} z");
}

#[test]
fn ill_formed_spans_yield_nothing() {
    let items = vec![SpliceItem { start: 3, end: 2, replacement: None }];
    assert!(splice("abcdef", &items).is_none());
    let overlapping = vec![
        SpliceItem { start: 0, end: 4, replacement: None },
        SpliceItem { start: 2, end: 5, replacement: None },
    ];
    assert!(splice("abcdef", &overlapping).is_none());
}

#[test]
fn show_scenario_spotlights_requested_lines() {
    let text = "See {{ #git show abc123:src/lib.rs:2:4 }} here";
    let toks = find_git_cmds(text);
    assert_eq!(toks.len(), 1);
    let cmd = parse_git_cmd(&toks[0].body).expect("a valid command");
    let resolved = match cmd {
        GitCmd::Show { id, path, ranges } => {
            assert_eq!(id, "abc123");
            assert_eq!(path, "src/lib.rs");
            // The revision resolves to a five-line file.
            let file = "l0\nl1\nl2\nl3\nl4";
            take_lines_comment_out_rest(file, ranges)
        }
        _ => panic!("expected a show command"),
    };
    let items = vec![SpliceItem {
        start: toks[0].start,
        end: toks[0].end,
        replacement: Some(resolved),
    }];
    assert_eq!(
        splice(text, &items).unwrap(),
        "See # l0\n# l1\nl2\nl3\n# l4 here"
    );
}

#[test]
fn empty_revision_token_leaves_text_unchanged() {
    let text = "x {{ #git show :src/lib.rs }} y";
    let toks = find_git_cmds(text);
    assert_eq!(toks.len(), 1);
    // The empty revision makes the body no command at all, so nothing is
    // resolved and the token stays verbatim, braces included.
    assert!(parse_git_cmd(&toks[0].body).is_none());
    let items = vec![SpliceItem {
        start: toks[0].start,
        end: toks[0].end,
        replacement: None,
    }];
    assert_eq!(splice(text, &items).unwrap(), text);
}

#[test]
fn preprocessor_identifies_itself() {
    let git = Git {};
    assert_eq!(git.name(), "git");
    assert!(git.supports_renderer("html"));
    assert!(!git.supports_renderer("not-supported"));
}
