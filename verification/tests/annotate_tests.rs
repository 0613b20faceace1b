use mdbook_git::range::LineBound;
use mdbook_git::take_lines_comment_out_rest;

fn bounded(n: usize, m: usize) -> (LineBound, LineBound) {
    (LineBound::Included(n), LineBound::Excluded(m))
}

#[test]
fn five_lines_spotlight_two() {
    let text = "l0\nl1\nl2\nl3\nl4";
    let out = take_lines_comment_out_rest(text, vec![bounded(2, 4)]);
    assert_eq!(out, "# l0\n# l1\nl2\nl3\n# l4");
}

#[test]
fn annotating_twice_changes_nothing() {
    let text = "l0\nl1\nl2\nl3\nl4";
    let ranges = vec![bounded(2, 4)];
    let once = take_lines_comment_out_rest(text, ranges.clone());
    let twice = take_lines_comment_out_rest(&once, ranges);
    assert_eq!(once, twice);
}

#[test]
fn already_prefixed_line_not_prefixed_again() {
    let text = "# a\nb";
    let out = take_lines_comment_out_rest(text, vec![]);
    assert_eq!(out, "# a\n# b");
}

#[test]
fn empty_text_stays_empty() {
    let out = take_lines_comment_out_rest("", vec![bounded(0, 1)]);
    assert_eq!(out, "");
}

#[test]
fn unbounded_range_keeps_every_line() {
    let text = "a\nb\nc";
    let out = take_lines_comment_out_rest(
        text,
        vec![(LineBound::Unbounded, LineBound::Unbounded)],
    );
    assert_eq!(out, "a\nb\nc");
}

#[test]
fn trailing_terminator_kept() {
    let out = take_lines_comment_out_rest("a\nb\n", vec![bounded(0, 2)]);
    assert_eq!(out, "a\nb\n");
}

#[test]
fn carriage_return_terminators_kept() {
    let out = take_lines_comment_out_rest("a\r\nb", vec![bounded(0, 2)]);
    assert_eq!(out, "a\r\nb");
    let out = take_lines_comment_out_rest("a\r\nb", vec![]);
    assert_eq!(out, "# a\r\n# b");
}

#[test]
fn line_count_and_separators_preserved() {
    let text = "a\r\nb\n\nc\n";
    let out = take_lines_comment_out_rest(text, vec![]);
    assert_eq!(out, "# a\r\n# b\n# \n# c\n");
    assert_eq!(out.lines().count(), text.lines().count());
}

#[test]
fn selected_trailing_empty_line_survives() {
    let out = take_lines_comment_out_rest("x\n\n", vec![bounded(1, 2)]);
    assert_eq!(out, "# x\n\n");
}

#[test]
fn union_of_ranges_selects_either() {
    let text = "l0\nl1\nl2\nl3";
    let out = take_lines_comment_out_rest(text, vec![bounded(0, 1), bounded(3, 4)]);
    assert_eq!(out, "l0\n# l1\n# l2\nl3");
}

#[test]
fn empty_unselected_lines_gain_bare_marker() {
    let out = take_lines_comment_out_rest("a\n\nb", vec![bounded(0, 1)]);
    assert_eq!(out, "a\n# \n# b");
}
