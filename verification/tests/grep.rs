use oma::grep::{
    file_lines_of, grep_exit_error, grep_join, grep_limit, grep_output, grep_report, pattern_error, rg_args, rg_match,
    GrepMatch, GrepReport, GrepScan, ShownLine,
};
use oma::json::{JsonNumber, JsonValue};
use oma::turn::ToolOutput;

/// The answer of a report whose lines are shown uncut.
fn finish(report: GrepReport) -> ToolOutput {
    match report {
        GrepReport::Done(o) => o,
        GrepReport::Lines { lines, limit, limit_reached } => {
            let cuts: Vec<(String, bool)> = lines.iter().map(|l| (l.text.clone(), false)).collect();
            let (raw, lines_cut) = grep_join(&lines, &cuts);
            ToolOutput::success(grep_output(raw, limit, limit_reached, false, "50KB", lines_cut))
        }
    }
}

fn rg_line(path: &str, line: u64, text: &str) -> String {
    format!(
        "{{\"type\":\"match\",\"data\":{{\"path\":{{\"text\":\"{path}\"}},\"lines\":{{\"text\":\"{text}\\n\"}},\"line_number\":{line}}}}}"
    )
}

#[test]
fn report_lists_matches_relative_to_the_search_root() {
    let lines = vec![
        "{\"type\":\"begin\",\"data\":{}}".to_string(),
        rg_line("/w/src/a.rs", 3, "fn main() {"),
        String::new(),
        "not json".to_string(),
        rg_line("/w/b.rs", 10, "let x = 1;\\r"),
    ];
    let out = finish(grep_report("/w", true, &lines, None, None, &vec![], Some(0), ""));
    assert!(!out.is_error);
    assert_eq!(out.output, "src/a.rs:3: fn main() {\nb.rs:10: let x = 1;");
}

#[test]
fn report_stops_at_the_limit() {
    let lines = vec![rg_line("/w/a", 1, "x"), rg_line("/w/a", 2, "y"), rg_line("/w/a", 3, "z")];
    let out = finish(grep_report("/w", true, &lines, Some(2), None, &vec![], None, ""));
    assert!(!out.is_error);
    assert_eq!(
        out.output,
        "a:1: x\na:2: y\n\n[2 matches limit reached. Use limit=4 for more, or refine pattern]"
    );
}

#[test]
fn report_errors_and_empty_results() {
    let none = finish(grep_report("/w", true, &vec![], None, None, &vec![], Some(1), ""));
    assert_eq!((none.is_error, none.output.as_str()), (false, "No matches found"));
    let bad = finish(grep_report("/w", true, &vec![], None, None, &vec![], Some(2), "  regex parse error  \n"));
    assert_eq!((bad.is_error, bad.output.as_str()), (true, "regex parse error"));
    assert_eq!(grep_exit_error(false, Some(2), " "), Some("ripgrep exited with code 2".to_string()));
    assert_eq!(grep_exit_error(false, None, ""), Some("ripgrep exited with code unknown".to_string()));
    assert_eq!(grep_exit_error(false, Some(-3), ""), Some("ripgrep exited with code -3".to_string()));
    assert_eq!(grep_exit_error(true, Some(2), "x"), None);
}

#[test]
fn report_reads_context_from_the_file() {
    let lines = vec![rg_line("/w/f.txt", 2, "two")];
    let files = vec![("/w/f.txt".to_string(), file_lines_of("one\r\ntwo\rthree\nfour"))];
    let out = finish(grep_report("/w", true, &lines, None, Some(1), &files, Some(0), ""));
    assert_eq!(out.output, "f.txt-1- one\nf.txt:2: two\nf.txt-3- three");
    let missing = finish(grep_report("/w", true, &lines, None, Some(1), &vec![], Some(0), ""));
    assert_eq!(missing.output, "f.txt:2: (unable to read file)");
}

#[test]
fn scan_counts_pathless_matches_but_keeps_only_placed_ones() {
    let mut scan = GrepScan::new(5);
    assert!(!scan.feed("{\"type\":\"match\",\"data\":{\"line_number\":4}}"));
    assert!(!scan.feed(&rg_line("/w/a", 0, "x")));
    assert!(!scan.feed(&rg_line("/w/a", 7, "y")));
    assert_eq!(scan.match_count, 3);
    assert_eq!(scan.matches.len(), 1);
    assert_eq!(scan.matches[0].line, 7);
}

#[test]
fn limits_patterns_and_arguments() {
    assert_eq!(grep_limit(None), 100);
    assert_eq!(grep_limit(Some(0)), 1);
    assert_eq!(grep_limit(Some(7)), 7);
    assert_eq!(pattern_error("  "), Some("pattern must not be empty".to_string()));
    assert_eq!(pattern_error("x"), None);
    assert_eq!(
        rg_args("foo", "/w", true, false, Some("*.rs")),
        vec!["--json", "--line-number", "--color=never", "--hidden", "--ignore-case", "--glob", "*.rs", "--", "foo", "/w"]
    );
    assert_eq!(rg_args("foo", "/w", false, true, Some("")).len(), 8);
}

#[test]
fn cut_lines_and_bytes_are_noticed() {
    let lines = vec![rg_line("/w/a", 1, "a very long line"), rg_line("/w/a", 2, "short")];
    let report = grep_report("/w", true, &lines, Some(2), None, &vec![], None, "");
    let GrepReport::Lines { lines, limit, limit_reached } = report else { panic!("lines expected") };
    assert_eq!(lines[0], ShownLine { head: "a:1: ".into(), text: "a very long line".into(), cut: true });
    let cuts = vec![("a very".to_string(), true), ("short".to_string(), false)];
    let (raw, lines_cut) = grep_join(&lines, &cuts);
    assert_eq!(raw, "a:1: a very\na:2: short");
    assert!(lines_cut);
    assert_eq!(
        grep_output("a:1: a very".into(), limit, limit_reached, true, "50KB", lines_cut),
        "a:1: a very\n\n[2 matches limit reached. Use limit=4 for more, or refine pattern. 50KB limit reached. \
         Some lines truncated to 500 chars. Use read tool to see full lines]"
    );
    assert_eq!(grep_output("x".into(), 100, false, false, "50KB", false), "x");
}

#[test]
fn the_unreadable_file_line_is_not_cut() {
    let lines = vec![rg_line("/w/f.txt", 2, "two")];
    let GrepReport::Lines { lines, .. } = grep_report("/w", true, &lines, None, Some(1), &vec![], Some(0), "") else {
        panic!("lines expected")
    };
    let (raw, cut) = grep_join(&lines, &vec![("ignored".to_string(), true)]);
    assert_eq!(raw, "f.txt:2: (unable to read file)");
    assert!(!cut);
}

#[test]
fn parsed_match_events() {
    let obj = |m: Vec<(&str, JsonValue)>| JsonValue::Object(m.into_iter().map(|(k, v)| (k.to_string(), v)).collect());
    let ev = obj(vec![
        ("type", JsonValue::Str("match".into())),
        (
            "data",
            obj(vec![
                ("path", obj(vec![("text", JsonValue::Str("/w/a".into()))])),
                ("line_number", JsonValue::Number(JsonNumber::PosInt(4))),
            ]),
        ),
    ]);
    let m = rg_match(&ev).unwrap();
    assert_eq!(m, GrepMatch { path: "/w/a".into(), line: 4, text: None });
    assert_eq!(rg_match(&obj(vec![("type", JsonValue::Str("begin".into()))])), None);
    let mut scan = GrepScan::new(1);
    assert!(scan.take_event(Some(m)));
    assert_eq!(scan.matches.len(), 1);
    assert!(scan.take_event(None));
}
