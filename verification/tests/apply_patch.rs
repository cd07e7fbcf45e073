use oma::apply_patch::{
    apply_hunks, format_summary, parse_envelope, parse_hunks, FileOp, Hunk, PatchEntry, PatchError,
};

const FIRST_LINE_ERROR: &str = "The first line of the patch must be '*** Begin Patch'";
const LAST_LINE_ERROR: &str = "The last line of the patch must be '*** End Patch'";

fn parse(input: &str) -> Result<Vec<PatchEntry>, PatchError> {
    parse_envelope(input)
}

#[test]
fn parses_heredoc_wrapper() {
    let parsed =
        parse("<<'EOF'\n*** Begin Patch\n*** Add File: a.txt\n+hello\n*** End Patch\nEOF").unwrap();
    assert_eq!(
        parsed,
        vec![PatchEntry {
            path: "a.txt".into(),
            op: FileOp::Add,
            rename: None,
            body: Some("hello\n".into()),
        }]
    );
}

#[test]
fn requires_envelope_markers() {
    assert_eq!(parse("*** Add File: a").unwrap_err().to_string(), FIRST_LINE_ERROR);
    assert_eq!(
        parse("*** Begin Patch\n*** Add File: a\n+x").unwrap_err().to_string(),
        LAST_LINE_ERROR
    );
}

#[test]
fn rejects_empty_update_section_and_bad_header() {
    assert_eq!(
        parse("*** Begin Patch\n*** Update File: foo.txt\n*** End Patch")
            .unwrap_err()
            .to_string(),
        "Line 3: Update file hunk for path 'foo.txt' is empty"
    );
    assert!(parse("*** Begin Patch\n*** Frobnicate File: foo\n*** End Patch")
        .unwrap_err()
        .to_string()
        .starts_with("Line 2: '*** Frobnicate File: foo' is not a valid hunk header."));
}

#[test]
fn parses_move_and_multiple_sections() {
    let parsed = parse(
        "*** Begin Patch\n*** Update File: old/name.txt\n*** Move to: renamed/name.txt\n@@\n-a\n+b\n\
         *** Delete File: gone.txt\n*** Add File: new.txt\n+x\n*** End Patch",
    )
    .unwrap();
    assert_eq!(parsed.len(), 3);
    assert_eq!(parsed[0].rename.as_deref(), Some("renamed/name.txt"));
    assert_eq!(parsed[0].op, FileOp::Update);
    assert_eq!(parsed[1].op, FileOp::Delete);
    assert_eq!(parsed[2].op, FileOp::Add);
    assert_eq!(parsed[2].body.as_deref(), Some("x\n"));
}

#[test]
fn empty_envelope_yields_no_entries() {
    assert!(parse("*** Begin Patch\n*** End Patch").unwrap().is_empty());
}

#[test]
fn hunk_headers_carry_context_lines_and_hints() {
    let hunks = parse_hunks("@@ class BaseClass\n@@ \t def method():\n ctx\n-old\n+new").unwrap();
    assert_eq!(hunks.len(), 1);
    assert_eq!(hunks[0].context.as_deref(), Some("class BaseClass\n\t def method():"));
    assert_eq!(hunks[0].old_lines, vec!["ctx".to_string(), "old".to_string()]);
    assert_eq!(hunks[0].new_lines, vec!["ctx".to_string(), "new".to_string()]);
    assert!(hunks[0].has_context_lines);

    let unified = parse_hunks("@@ -12,3 +14,4 @@ fn main\n-old\n+new").unwrap();
    assert_eq!(unified[0].old_start_line, Some(12));
    assert_eq!(unified[0].context.as_deref(), Some("fn main"));

    let hinted = parse_hunks("@@ lines 5-7\n-old\n+new").unwrap();
    assert_eq!(hinted[0].old_start_line, Some(5));
    assert_eq!(hinted[0].context, None);
}

#[test]
fn hunk_end_of_file_marker() {
    let hunks = parse_hunks("@@\n first\n-second\n+second updated\n*** End of File").unwrap();
    assert_eq!(hunks.len(), 1);
    assert!(hunks[0].is_end_of_file);
    assert_eq!(hunks[0].old_lines, vec!["first".to_string(), "second".to_string()]);
}

#[test]
fn end_of_file_marker_anchors_to_tail() {
    let content = "a\nfoo\nb\nfoo\n";
    let hunks = parse_hunks("@@\n-foo\n+bar\n*** End of File").unwrap();
    assert_eq!(apply_hunks(content, "f.txt", &hunks).unwrap(), "a\nfoo\nb\nbar\n");
}

#[test]
fn ambiguous_hunks_are_rejected() {
    let hunks = parse_hunks("@@\n-foo\n+bar").unwrap();
    let error = apply_hunks("foo\nfoo\n", "f.txt", &hunks).unwrap_err();
    assert!(
        error.to_string().contains("Found 2 matches for the text in f.txt"),
        "{}",
        error.to_string()
    );
}

#[test]
fn context_mismatch_reports_expected_lines() {
    let hunks = parse_hunks("@@\n-missing\n+changed").unwrap();
    let error = apply_hunks("line1\nline2\n", "modify.txt", &hunks).unwrap_err();
    assert!(
        error.to_string().contains("Failed to find expected lines in modify.txt:\nmissing"),
        "{}",
        error.to_string()
    );
}

#[test]
fn missing_context_anchor_is_rejected() {
    let hunks = parse_hunks("@@ def absent():\n context\n-x\n+y").unwrap();
    let error = apply_hunks("context\nx\n", "f.rs", &hunks).unwrap_err();
    assert!(
        error.to_string().contains("Failed to find context 'def absent():' in f.rs"),
        "{}",
        error.to_string()
    );
}

#[test]
fn pure_addition_appends_and_pure_deletion_removes() {
    let added = parse_hunks("@@\n+added line 1\n+added line 2").unwrap();
    assert_eq!(
        apply_hunks("line1\nline2\n", "f.txt", &added).unwrap(),
        "line1\nline2\nadded line 1\nadded line 2\n"
    );

    let removed = parse_hunks("@@\n line1\n-line2\n line3").unwrap();
    assert_eq!(apply_hunks("line1\nline2\nline3\n", "f.txt", &removed).unwrap(), "line1\nline3\n");
}

#[test]
fn unicode_lines_round_trip() {
    let hunks = parse_hunks("@@\n line1\n-naïve café\n+naïve café ✅").unwrap();
    assert_eq!(
        apply_hunks("line1\nnaïve café\nline3\n", "f.txt", &hunks).unwrap(),
        "line1\nnaïve café ✅\nline3\n"
    );
}

#[test]
fn multiple_chunks_in_one_section() {
    let hunks = parse_hunks("@@\n-line2\n+changed2\n@@\n-line4\n+changed4").unwrap();
    assert_eq!(hunks.len(), 2);
    assert_eq!(
        apply_hunks("line1\nline2\nline3\nline4\n", "multi.txt", &hunks).unwrap(),
        "line1\nchanged2\nline3\nchanged4\n"
    );
}

#[test]
fn overlapping_hunks_are_rejected() {
    let hunks = parse_hunks("@@\n-a\n-b\n+x\n@@\n-b\n-c\n+y").unwrap();
    let error = apply_hunks("a\nb\nc\n", "f.txt", &hunks).unwrap_err();
    assert!(
        error.to_string().contains("Overlapping hunks detected in f.txt"),
        "{}",
        error.to_string()
    );
}

#[test]
fn context_anchor_selects_the_repeated_hunk() {
    let content = "class A:\n    value = 1\nclass B:\n    value = 1\n";
    let hunks = parse_hunks("@@ class B:\n-    value = 1\n+    value = 2").unwrap();
    assert_eq!(
        apply_hunks(content, "f.py", &hunks).unwrap(),
        "class A:\n    value = 1\nclass B:\n    value = 2\n"
    );

    let duplicated = "class B:\n    value = 1\nclass B:\n    value = 1\n";
    let error = apply_hunks(duplicated, "f.py", &hunks).unwrap_err();
    assert!(
        error.to_string().contains("Found 2 matches for context 'class B:' in f.py"),
        "{}",
        error.to_string()
    );
}

#[test]
fn hunks_without_content_are_rejected() {
    assert!(parse_hunks("@@").unwrap().is_empty());
    let error = apply_hunks("stable\n", "foo.txt", &[]).unwrap_err();
    assert_eq!(error.to_string(), "Diff contains no hunks");
}

#[test]
fn summary_lists_each_operation() {
    let summary = format_summary(&[(FileOp::Add, "a.txt"), (FileOp::Update, "b.rs"), (FileOp::Delete, "c")]);
    assert_eq!(summary, "Successfully applied 3 file operation(s).\nA a.txt\nM b.rs\nD c");
    assert_eq!(format_summary(&[]), "Successfully applied 0 file operation(s).");
}

#[test]
fn closest_match_is_reported_with_similarity() {
    let hunks = parse_hunks("@@\n alpha\n-beta\n+gamma").unwrap();
    let error = apply_hunks("alpha\nbeta2\n", "s.txt", &hunks).unwrap_err();
    assert_eq!(
        error.to_string(),
        "Failed to find expected lines in s.txt:\nalpha\nbeta\n\nClosest match (50% similar) near line 1."
    );
}

#[test]
fn content_without_final_newline_stays_without_one() {
    let hunks = parse_hunks("@@\n-b\n+c").unwrap();
    assert_eq!(apply_hunks("a\nb", "f.txt", &hunks).unwrap(), "a\nc");
}

#[test]
fn unchanged_hunk_keeps_content() {
    let hunks = parse_hunks("@@\n a\n b").unwrap();
    assert_eq!(apply_hunks("a\nb\n", "f.txt", &hunks).unwrap(), "a\nb\n");
}

#[test]
fn line_hint_places_insertion() {
    let hunk = Hunk {
        context: None,
        old_start_line: Some(2),
        old_lines: vec![],
        new_lines: vec!["inserted".to_string()],
        is_end_of_file: false,
        has_context_lines: false,
    };
    assert_eq!(apply_hunks("a\nb\n", "f.txt", &[hunk.clone()]).unwrap(), "a\ninserted\nb\n");
    let far = Hunk { old_start_line: Some(9), ..hunk };
    assert_eq!(
        apply_hunks("a\nb\n", "f.txt", &[far]).unwrap_err().to_string(),
        "Line hint 9 is out of range for insertion in f.txt (file has 2 lines)"
    );
}

#[test]
fn similarity_is_shown_as_the_float_division_rounds_it() {
    // 23 of 40 expected lines agree: 57.5% exactly, but 23.0 / 40.0 * 100.0 is 57.49999999999999.
    let content: String = (0..40).map(|i| format!("l{i}\n")).collect();
    let mut diff = String::from("@@\n");
    for i in 0..40 {
        if i < 23 {
            diff.push_str(&format!(" l{i}\n"));
        } else {
            diff.push_str(&format!("-x{i}\n"));
        }
    }
    diff.push_str("+new");
    let hunks = parse_hunks(&diff).unwrap();
    let error = apply_hunks(&content, "big.txt", &hunks).unwrap_err().to_string();
    assert!(error.ends_with("\n\nClosest match (57% similar) near line 1."), "{error}");
}

#[test]
fn summary_orders_add_update_delete() {
    let summary = format_summary(&[
        (FileOp::Update, "a.txt"),
        (FileOp::Delete, "remove.txt"),
        (FileOp::Add, "added.txt"),
        (FileOp::Update, "b.txt"),
    ]);
    assert_eq!(summary, "Successfully applied 4 file operation(s).\nA added.txt\nM a.txt\nM b.txt\nD remove.txt");
}

#[test]
fn crlf_envelope_reads_as_lf_envelope() {
    let lf = "*** Begin Patch\n*** Update File: a.txt\n@@\n-old\n+new\n*** Delete File: b.txt\n*** End Patch\n";
    let crlf = lf.replace('\n', "\r\n");
    assert_eq!(parse(&crlf), parse(lf));
    assert_eq!(parse(&crlf).unwrap().len(), 2);
    let bad = "*** Begin Patch\n*** Add File: a.txt\n+x\n";
    assert_eq!(
        parse(&bad.replace('\n', "\r\n")).unwrap_err().to_string(),
        parse(bad).unwrap_err().to_string()
    );
}

#[test]
fn unchanged_hunks_give_content_back() {
    let hunks = parse_hunks("@@\n a\n-b\n+b\n c").unwrap();
    assert_eq!(apply_hunks("a\nb\nc\n", "f.txt", &hunks).unwrap(), "a\nb\nc\n");
    let two = parse_hunks("@@\n-x\n+x\n@@\n-z\n+z").unwrap();
    assert_eq!(apply_hunks("x\ny\nz", "f.txt", &two).unwrap(), "x\ny\nz");
}
