use oma::tui::{
    clean_paste, collapsed_label, display_width, entry_prefix, extract_attachments, format_duration,
    is_workspace_relative, notification_sequence, pad_to_width, parse_slash, picker_window,
    picker_current_index, sanitize_notification, short_id, spinner_frame, truncate, truncate_path,
    wrap_text, EntryKind, PickerAction, PickerItem,
};

fn slash(text: &str) -> Option<(String, String)> {
    parse_slash(text)
}

fn pair<'a>(r: &'a Option<(String, String)>) -> Option<(&'a str, &'a str)> {
    r.as_ref().map(|(c, a)| (c.as_str(), a.as_str()))
}

#[test]
fn test_wrap_text_respects_display_width() {
    assert_eq!(wrap_text("abcdefgh", 4), vec!["abcd", "efgh"]);
    let wrapped = wrap_text("中文内容", 4);
    assert_eq!(wrapped, vec!["中文", "内容"]);
    assert_eq!(wrap_text("hello world", 8), vec!["hello", "world"]);
    assert_eq!(wrap_text("a\n\nb", 10), vec!["a", "", "b"]);
}

#[test]
fn test_wrap_text_keeps_content() {
    let text = "一行很长的中文文本需要被折行处理";
    let joined: String = wrap_text(text, 6).join("");
    assert_eq!(joined, text, "wrapping must not lose characters");
}

#[test]
fn wrap_text_breaks_at_the_last_space_and_drops_blanks() {
    assert_eq!(wrap_text("aa bb cc dd", 5), vec!["aa", "bb", "cc dd"]);
    assert_eq!(wrap_text("a   bcdef", 4), vec!["a  ", "bcde", "f"]);
    assert_eq!(wrap_text(" abcd", 3), vec![" ab", "cd"]);
    assert_eq!(wrap_text("", 4), vec![""]);
    for line in wrap_text("the quick brown fox 跳过 lazy dogs", 6) {
        assert!(display_width(&line) <= 6, "{line}");
    }
}

#[test]
fn test_display_width_and_truncate() {
    assert_eq!(display_width("abc"), 3);
    assert_eq!(display_width("中文"), 4);
    assert_eq!(truncate("abc", 10), "abc");
    assert_eq!(truncate("中文内容", 5), "中文…");
}

#[test]
fn truncate_and_pad_edges() {
    assert_eq!(truncate("abcdef", 4), "abc…");
    assert_eq!(truncate("abcdef", 0), "…");
    assert_eq!(pad_to_width("ab", 5), "ab   ");
    assert_eq!(pad_to_width("中", 3), "中 ");
    assert_eq!(pad_to_width("abcdef", 3), "abcdef");
}

#[test]
fn test_format_duration_units() {
    assert_eq!(format_duration(0), "0ms");
    assert_eq!(format_duration(320), "320ms");
    assert_eq!(format_duration(1500), "1.5s");
    assert_eq!(format_duration(65_000), "1m05s");
}

#[test]
fn format_duration_rounds_like_the_float_display() {
    assert_eq!(format_duration(999), "999ms");
    assert_eq!(format_duration(1000), "1.0s");
    assert_eq!(format_duration(1050), "1.1s");
    assert_eq!(format_duration(1150), "1.1s");
    assert_eq!(format_duration(1250), "1.2s");
    assert_eq!(format_duration(1750), "1.8s");
    assert_eq!(format_duration(12_345), "12.3s");
    assert_eq!(format_duration(59_999), "60.0s");
    assert_eq!(format_duration(60_000), "1m00s");
    assert_eq!(format_duration(3_725_000), "62m05s");
    assert_eq!(collapsed_label("思", Some(1200)), "▸ 思 1.2s");
    assert_eq!(collapsed_label("⚙", None), "▸ ⚙");
}

#[test]
fn test_path_truncation_keeps_tail() {
    assert_eq!(truncate_path("/a/b/oma", 40), "/a/b/oma");
    let short = truncate_path("/home/me/projects/oma", 8);
    assert!(short.starts_with('…'), "{short}");
    assert!(short.ends_with("oma"), "{short}");
    assert!(display_width(&short) <= 8, "{short}");
}

#[test]
fn test_parse_slash_commands() {
    assert_eq!(pair(&slash("/model")), Some(("model", "")));
    assert_eq!(pair(&slash("/rename 新名")), Some(("rename", "新名")));
    assert_eq!(pair(&slash("  /help ")), Some(("help", "")));
    assert_eq!(pair(&slash("/tmp/a.txt")), Some(("tmp/a.txt", "")));
    assert_eq!(pair(&slash("/")), None);
    assert_eq!(pair(&slash("hello")), None);
}

#[test]
fn parse_slash_trims_arguments() {
    assert_eq!(pair(&slash("/ agent   coder  ")), Some(("agent", "coder")));
    assert_eq!(pair(&slash("/a\tb c")), Some(("a", "b c")));
}

#[test]
fn test_notification_sequence_strips_control_chars() {
    let seq = notification_sequence("Oma", "a\x07b\nc");
    assert!(seq.starts_with("\x1b]9;Oma: a b c\x07"));
    assert!(seq.contains("\x1b]777;notify;Oma;a b c\x07"));
    assert!(seq.ends_with('\x07'));
    assert_eq!(sanitize_notification("\x1b[31m done \n"), "[31m done");
}

#[test]
fn test_extract_attachments() {
    let (text, paths) = extract_attachments("@img/a.png 看看这张图");
    assert_eq!(text, "看看这张图");
    assert_eq!(paths, vec!["img/a.png"]);

    let (text, paths) = extract_attachments("@a.png @b.jpg");
    assert!(text.is_empty());
    assert_eq!(paths, vec!["a.png", "b.jpg"]);

    let (text, paths) = extract_attachments("价格 @ 5 元 mail@host");
    assert_eq!(text, "价格 @ 5 元 mail@host");
    assert!(paths.is_empty());
}

#[test]
fn test_attachment_paths_stay_in_workspace() {
    assert!(is_workspace_relative("img/a.png"));
    assert!(is_workspace_relative("a.png"));
    assert!(!is_workspace_relative(""));
    assert!(!is_workspace_relative("/etc/passwd"));
    assert!(!is_workspace_relative("../secrets.txt"));
    assert!(!is_workspace_relative("img/../../secrets.txt"));
    assert!(!is_workspace_relative("..\\win.txt"));
}

#[test]
fn test_picker_window_keeps_selection_visible() {
    assert_eq!(picker_window(2, 1, 5), 0..2);
    assert_eq!(picker_window(0, 0, 5), 0..0);
    assert_eq!(picker_window(10, 0, 4), 0..4);
    assert_eq!(picker_window(10, 9, 4), 6..10);
    assert_eq!(picker_window(10, 5, 4), 3..7);
    for len in 1..12usize {
        for visible in 1..6usize {
            for index in 0..len {
                let w = picker_window(len, index, visible);
                assert!(w.contains(&index) && w.len() <= visible && w.end <= len);
            }
        }
    }
}

#[test]
fn test_clean_paste_normalizes_control_chars() {
    assert_eq!(clean_paste("a\nb"), "a b");
    assert_eq!(clean_paste("a\r\nb"), "a b", "CRLF keeps one space");
    assert_eq!(clean_paste("a\tb"), "a b");
    assert_eq!(clean_paste("a\x07b"), "a b");
    assert_eq!(clean_paste("中文 @pic.png"), "中文 @pic.png");
    assert_eq!(clean_paste("a\r\rb"), "a  b");
}

#[test]
fn short_ids_and_labels() {
    assert_eq!(short_id("0123456789abcdef"), "01234567");
    assert_eq!(short_id("abc"), "abc");
    assert_eq!(short_id("中中中x"), "中中中x");
    assert_eq!(short_id("abcdef中"), "abcdef中");
    assert_eq!(entry_prefix(EntryKind::User), "");
    assert_eq!(entry_prefix(EntryKind::Tool), "⚙");
    assert_eq!(spinner_frame(0), "⠋");
    assert_eq!(spinner_frame(85), "⠙");
    assert_eq!(spinner_frame(800), "⠋");
}

fn item(label: &str, current: bool) -> PickerItem {
    PickerItem {
        label: label.to_string(),
        detail: String::new(),
        current,
        action: PickerAction::SetModel(label.to_string()),
    }
}

#[test]
fn pickers_open_on_the_current_item() {
    assert_eq!(picker_current_index(&[item("a", false), item("b", true), item("c", true)]), 1);
    assert_eq!(picker_current_index(&[item("a", false), item("b", false)]), 0);
    assert_eq!(picker_current_index(&[]), 0);
}
