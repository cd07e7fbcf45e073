use oma::listing::{
    command_output, empty_directory, find_outcome, limit_reached, listing_output, ls_entries, sort_names, ListingKind,
    OutputCut,
    TailCut,
};

#[test]
fn find_failures_and_empty_results() {
    let failed = find_outcome(0, Some(2), "  fd: bad regex \n").unwrap();
    assert!(failed.is_error);
    assert_eq!(failed.output, "fd: bad regex");
    let silent = find_outcome(0, Some(-1), "").unwrap();
    assert_eq!(silent.output, "fd exited with code -1");
    assert_eq!(find_outcome(0, None, " ").unwrap().output, "fd exited with code unknown");
    let none = find_outcome(0, Some(0), "").unwrap();
    assert!(!none.is_error);
    assert_eq!(none.output, "No files found matching pattern");
    assert!(find_outcome(3, Some(1), "warning").is_none());
}

#[test]
fn listing_notices_join_limit_and_size() {
    assert!(limit_reached(100, 100));
    assert!(!limit_reached(99, 100));
    assert_eq!(
        listing_output("a\nb".into(), ListingKind::Results, 100, true, true, "50KB"),
        "a\nb\n\n[100 results limit reached. Use limit=200 for more, or refine pattern. 50KB limit reached]"
    );
    assert_eq!(
        listing_output("x/".into(), ListingKind::Entries, 500, true, false, "50KB"),
        "x/\n\n[500 entries limit reached. Use limit=1000 for more]"
    );
    assert_eq!(listing_output("x".into(), ListingKind::Entries, 5, false, true, "50KB"), "x\n\n[50KB limit reached]");
    assert_eq!(listing_output("x".into(), ListingKind::Entries, 5, false, false, "50KB"), "x");
}

#[test]
fn ls_lists_entries_up_to_the_limit() {
    let names = vec![
        ("a".to_string(), Some(false)),
        ("gone".to_string(), None),
        ("src".to_string(), Some(true)),
        ("z".to_string(), Some(false)),
    ];
    assert_eq!(ls_entries(&names, 10), (vec!["a".to_string(), "src/".to_string(), "z".to_string()], false));
    assert_eq!(ls_entries(&names, 2), (vec!["a".to_string(), "src/".to_string()], true));
    assert_eq!(ls_entries(&names, 0), (vec![], true));
    assert_eq!(ls_entries(&vec![], 0), (vec![], false));
    assert_eq!(empty_directory().output, "(empty directory)");
}

#[test]
fn command_output_shows_the_kept_range() {
    let kept = |truncated: bool, by: Option<OutputCut>, partial: bool| TailCut {
        content: "tail".into(),
        truncated,
        truncated_by: by,
        total_lines: 3000,
        output_lines: 2000,
        output_bytes: 100,
        last_line_partial: partial,
    };
    assert_eq!(command_output("", kept(false, None, false), "100B", "50KB"), "(no output)");
    assert_eq!(command_output("x", kept(false, None, false), "100B", "50KB"), "tail");
    assert_eq!(
        command_output("x", kept(true, Some(OutputCut::Lines), false), "100B", "50KB"),
        "tail\n\n[Showing lines 1001-3000 of 3000.]"
    );
    assert_eq!(
        command_output("x", kept(true, Some(OutputCut::Bytes), false), "100B", "50KB"),
        "tail\n\n[Showing lines 1001-3000 of 3000 (50KB limit).]"
    );
    assert_eq!(
        command_output("x", kept(true, Some(OutputCut::Bytes), true), "100B", "50KB"),
        "tail\n\n[Showing last 100B of line 3000.]"
    );
}

#[test]
fn ls_orders_names_ignoring_case_and_keeps_ties_in_order() {
    let names: Vec<String> = vec!["b", "A", "a", "C", "Ab", "ä"].into_iter().map(String::from).collect();
    let sorted = sort_names(names);
    assert_eq!(sorted, vec!["A", "a", "Ab", "b", "C", "ä"]);
    assert_eq!(sort_names(vec![]), Vec::<String>::new());
}
