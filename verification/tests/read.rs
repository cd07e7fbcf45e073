use oma::read::{read_report, read_window, CutBy, HeadCut, ReadWindow, SizeLabels};

fn sizes() -> SizeLabels {
    SizeLabels { first_line: "60.0KB".into(), limit: "50.0KB".into(), limit_bytes: 51200 }
}

fn kept(text: &str) -> HeadCut {
    HeadCut { content: text.into(), truncated: false, truncated_by: None, output_lines: 0, first_line_exceeds_limit: false }
}

#[test]
fn window_numbers_lines_from_the_offset() {
    let w = read_window("a\r\nb\nc\nd\n", 2, Some(2)).unwrap();
    assert_eq!(w, ReadWindow { text: "   2 | b\n   3 | c".into(), total_lines: 4, start: 1, limited_to: Some(2) });
    let all = read_window("x\ny", 0, None).unwrap();
    assert_eq!(all.text, "   1 | x\n   2 | y");
    assert_eq!(all.limited_to, None);
    let empty = read_window("", 1, None).unwrap();
    assert_eq!(empty.text, "");
    assert_eq!(empty.total_lines, 0);
}

#[test]
fn offset_past_the_end_is_refused() {
    assert_eq!(read_window("a\nb\n", 3, None).unwrap_err(), "Offset 3 is out of range. File has 2 lines.");
}

#[test]
fn a_limited_window_says_how_many_lines_remain() {
    let w = read_window("1\n2\n3\n4\n5", 2, Some(2)).unwrap();
    let out = read_report(kept(&w.text), &w, "f.txt", &sizes());
    assert_eq!(out, "   2 | 2\n   3 | 3\n\n[2 more lines in file. Use offset=4 to continue.]");
    let last = read_window("1\n2\n3", 2, Some(5)).unwrap();
    assert_eq!(read_report(kept(&last.text), &last, "f.txt", &sizes()), "   2 | 2\n   3 | 3");
}

#[test]
fn a_cut_window_says_where_to_go_on() {
    let w = ReadWindow { text: String::new(), total_lines: 5000, start: 0, limited_to: None };
    let by_lines = HeadCut {
        content: "...".into(),
        truncated: true,
        truncated_by: Some(CutBy::Lines),
        output_lines: 2000,
        first_line_exceeds_limit: false,
    };
    assert_eq!(
        read_report(by_lines, &w, "f.txt", &sizes()),
        "...\n\n[Showing lines 1-2000 of 5000. Use offset=2001 to continue.]"
    );
    let by_bytes = HeadCut {
        content: "...".into(),
        truncated: true,
        truncated_by: Some(CutBy::Bytes),
        output_lines: 120,
        first_line_exceeds_limit: false,
    };
    assert_eq!(
        read_report(by_bytes, &w, "f.txt", &sizes()),
        "...\n\n[Showing lines 1-120 of 5000 (50.0KB limit). Use offset=121 to continue.]"
    );
    let huge = HeadCut {
        content: String::new(),
        truncated: true,
        truncated_by: Some(CutBy::Bytes),
        output_lines: 0,
        first_line_exceeds_limit: true,
    };
    let at = ReadWindow { text: String::new(), total_lines: 9, start: 6, limited_to: None };
    assert_eq!(
        read_report(huge, &at, "big.json", &sizes()),
        "[Line 7 is 60.0KB, exceeds 50.0KB limit. Use shell: sed -n '7p' big.json | head -c 51200]"
    );
}
