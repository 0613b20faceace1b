use mdbook_git::range::line_in_range;
use mdbook_git::range::line_selected;
use mdbook_git::range::LineBound;
use mdbook_git::parse_path_and_ranges;
use mdbook_git::parse_range;

#[test]
fn single_line_range() {
    assert_eq!(
        parse_range("2"),
        Some((LineBound::Included(2), LineBound::Included(2)))
    );
}

#[test]
fn full_range_colon_always_succeeds() {
    assert_eq!(
        parse_range(":"),
        Some((LineBound::Unbounded, LineBound::Unbounded))
    );
}

#[test]
fn empty_range_never_succeeds() {
    assert_eq!(parse_range(""), None);
}

#[test]
fn open_ended_range() {
    assert_eq!(
        parse_range("2:"),
        Some((LineBound::Included(2), LineBound::Unbounded))
    );
}

#[test]
fn open_start_range() {
    assert_eq!(
        parse_range(":4"),
        Some((LineBound::Unbounded, LineBound::Excluded(4)))
    );
}

#[test]
fn bounded_range() {
    assert_eq!(
        parse_range("2:4"),
        Some((LineBound::Included(2), LineBound::Excluded(4)))
    );
}

#[test]
fn too_many_colons_rejected() {
    assert_eq!(parse_range("2:4:6"), None);
}

#[test]
fn non_numeric_bound_rejected() {
    assert_eq!(parse_range("x"), None);
    assert_eq!(parse_range("x:"), None);
    assert_eq!(parse_range(":y"), None);
}

#[test]
fn overflowing_bound_rejected() {
    assert_eq!(parse_range("99999999999999999999999999999999999"), None);
}

#[test]
fn plus_signed_bound_accepted() {
    assert_eq!(
        parse_range("+3"),
        Some((LineBound::Included(3), LineBound::Included(3)))
    );
}

#[test]
fn bounded_range_selects_exactly_half_open_interval() {
    let r = parse_range("2:4").unwrap();
    assert!(!line_in_range(&r, 0));
    assert!(!line_in_range(&r, 1));
    assert!(line_in_range(&r, 2));
    assert!(line_in_range(&r, 3));
    assert!(!line_in_range(&r, 4));
    assert!(!line_in_range(&r, 5));
}

#[test]
fn path_without_ranges_selects_every_line() {
    let (path, ranges) = parse_path_and_ranges("src/main.rs");
    assert_eq!(path, "src/main.rs");
    assert_eq!(ranges, vec![(LineBound::Unbounded, LineBound::Unbounded)]);
    assert!(line_selected(&ranges, 0));
    assert!(line_selected(&ranges, 1000));
}

#[test]
fn path_with_single_range() {
    let (path, ranges) = parse_path_and_ranges("src/main.rs:2:4");
    assert_eq!(path, "src/main.rs");
    assert_eq!(ranges, vec![(LineBound::Included(2), LineBound::Excluded(4))]);
}

#[test]
fn path_with_empty_range_expression_rejected() {
    let (path, ranges) = parse_path_and_ranges("src/main.rs:");
    assert_eq!(path, "src/main.rs");
    assert_eq!(ranges, vec![]);
}

#[test]
fn array_parses_to_three_ranges() {
    let (path, ranges) = parse_path_and_ranges("src/main.rs:[2, 4:8, 16:]");
    assert_eq!(path, "src/main.rs");
    assert_eq!(
        ranges,
        vec![
            (LineBound::Included(2), LineBound::Included(2)),
            (LineBound::Included(4), LineBound::Excluded(8)),
            (LineBound::Included(16), LineBound::Unbounded),
        ]
    );
}

#[test]
fn malformed_array_entry_dropped_without_invalidating_others() {
    let (path, ranges) = parse_path_and_ranges("src/main.rs:[2, bogus, 5:]");
    assert_eq!(path, "src/main.rs");
    assert_eq!(
        ranges,
        vec![
            (LineBound::Included(2), LineBound::Included(2)),
            (LineBound::Included(5), LineBound::Unbounded),
        ]
    );
}

#[test]
fn array_of_only_malformed_entries_is_empty() {
    let (_, ranges) = parse_path_and_ranges("src/main.rs:[a, b]");
    assert_eq!(ranges, vec![]);
    let (_, ranges) = parse_path_and_ranges("src/main.rs:[]");
    assert_eq!(ranges, vec![]);
}

#[test]
fn array_entry_colon_succeeds_and_empty_entry_dropped() {
    let (_, ranges) = parse_path_and_ranges("f:[:, ]");
    assert_eq!(ranges, vec![(LineBound::Unbounded, LineBound::Unbounded)]);
}
