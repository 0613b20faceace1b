use mdbook_git::scanner::find_git_cmds;

#[test]
fn finds_single_token_with_span_and_body() {
    let text = "See {{ #git show abc123:src/lib.rs:2:4 }} here";
    let toks = find_git_cmds(text);
    assert_eq!(toks.len(), 1);
    assert_eq!(toks[0].start, 4);
    assert_eq!(toks[0].end, text.find("}}").unwrap() + 2);
    assert_eq!(toks[0].body, " show abc123:src/lib.rs:2:4 ");
}

#[test]
fn keyword_without_separating_whitespace_is_no_token() {
    let toks = find_git_cmds("{{ #gitx show a:b }}");
    assert_eq!(toks.len(), 0);
}

#[test]
fn no_whitespace_before_keyword_is_fine() {
    let toks = find_git_cmds("{{#git show a:b }}");
    assert_eq!(toks.len(), 1);
    assert_eq!(toks[0].body, " show a:b ");
}

#[test]
fn empty_body_is_no_token() {
    let toks = find_git_cmds("{{ #git }}");
    assert_eq!(toks.len(), 0);
}

#[test]
fn whitespace_only_body_matches_but_is_no_command() {
    let toks = find_git_cmds("{{ #git  }}");
    assert_eq!(toks.len(), 1);
    assert!(mdbook_git::command::parse_git_cmd(&toks[0].body).is_none());
}

#[test]
fn tokens_come_in_order_and_do_not_overlap() {
    let text = "a {{ #git show x:f }} b {{ #git diff o n f }} c";
    let toks = find_git_cmds(text);
    assert_eq!(toks.len(), 2);
    assert!(toks[0].end <= toks[1].start);
    assert_eq!(toks[0].body, " show x:f ");
    assert_eq!(toks[1].body, " diff o n f ");
}

#[test]
fn unterminated_token_is_ignored() {
    let toks = find_git_cmds("{{ #git show a:b }");
    assert_eq!(toks.len(), 0);
}

#[test]
fn body_may_span_lines() {
    let toks = find_git_cmds("{{ #git show\na:b }}");
    assert_eq!(toks.len(), 1);
    assert_eq!(toks[0].body, " show\na:b ");
}

#[test]
fn extra_brace_before_token_still_matches() {
    let toks = find_git_cmds("{{{ #git show a:b }}");
    assert_eq!(toks.len(), 1);
    assert_eq!(toks[0].start, 1);
}
