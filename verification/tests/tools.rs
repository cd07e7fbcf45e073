use oma::image::ImageMeta;
use oma::tools::read_image;
use oma::apply_patch::{FileOp, PatchEntry};
use oma::tools::{
    binary_mime, default_offset, group_entries, parse_env, partial_write_error, resolve_patch_path,
    resolve_path,
    truncate_output, NoImageInput, ShellTool, ToolContext, RESULT_MAX_CHARS,
};

#[test]
fn tool_output_is_cut_at_the_character_limit() {
    assert_eq!(truncate_output("short"), "short");
    let exact = "字".repeat(RESULT_MAX_CHARS);
    assert_eq!(truncate_output(&exact), exact);
    let long = "a".repeat(RESULT_MAX_CHARS + 5);
    let cut = truncate_output(&long);
    assert!(cut.starts_with(&"a".repeat(RESULT_MAX_CHARS)));
    assert!(cut.ends_with("\n... [截断以节省上下文]"));
    assert_eq!(cut.chars().count(), RESULT_MAX_CHARS + "\n... [截断以节省上下文]".chars().count());
}

#[test]
fn paths_resolve_against_the_workspace() {
    assert_eq!(resolve_path("/work", "src/main.rs"), "/work/src/main.rs");
    assert_eq!(resolve_path("/work/", "a"), "/work/a");
    assert_eq!(resolve_path("/work", "/etc/hosts"), "/etc/hosts");
    assert_eq!(resolve_path("/work", "../x"), "/work/../x");
}

#[test]
fn patch_paths_stay_inside_the_workspace() {
    assert_eq!(resolve_patch_path("/w", "a/./b//c.txt").unwrap(), "/w/a/b/c.txt");
    assert_eq!(resolve_patch_path("/w", "a/../b.txt").unwrap(), "/w/b.txt");
    assert_eq!(resolve_patch_path("/w", "").unwrap_err(), "patch path must not be empty");
    assert_eq!(
        resolve_patch_path("/w", "/etc/passwd").unwrap_err(),
        "patch paths must be relative to the workspace, got \"/etc/passwd\""
    );
    assert_eq!(
        resolve_patch_path("/w", "a/../../x").unwrap_err(),
        "patch path \"a/../../x\" escapes the workspace; patches must stay inside it"
    );
    assert_eq!(resolve_patch_path("/w", "a/..").unwrap_err(), "patch path \"a/..\" does not name a file");
}

#[test]
fn binary_files_are_told_by_magic_and_extension() {
    assert_eq!(binary_mime("x", b"%PDF-1.7"), Some("application/pdf"));
    assert_eq!(binary_mime("x", &[0x1F, 0x8B, 8]), Some("application/gzip"));
    assert_eq!(binary_mime("x", b"PK\x03\x04rest"), Some("application/zip"));
    assert_eq!(binary_mime("x", &[0x7F, b'E', b'L', b'F', 2]), Some("application/x-elf"));
    assert_eq!(binary_mime("a.txt", b"ab\0cd"), Some("application/octet-stream"));
    assert_eq!(binary_mime("font.WOFF2", b"wOF2"), Some("font/woff"));
    assert_eq!(binary_mime("f.ttf", b"text"), Some("font/ttf"));
    assert_eq!(binary_mime("a.tar.ZIP", b"plain"), Some("application/zip"));
    assert_eq!(binary_mime("README.md", b"# title"), None);
    assert_eq!(binary_mime("Makefile", b"all:"), None);
}

fn entry(path: &str, op: FileOp, body: &str) -> PatchEntry {
    PatchEntry { path: path.to_string(), op, rename: None, body: Some(body.to_string()) }
}

#[test]
fn sections_are_grouped_by_file_in_order() {
    let groups = group_entries(vec![
        entry("a", FileOp::Update, "1"),
        entry("b", FileOp::Add, "2"),
        entry("a", FileOp::Update, "3"),
        entry("c", FileOp::Delete, "4"),
        entry("b", FileOp::Update, "5"),
    ]);
    let shape: Vec<Vec<(String, String)>> = groups
        .iter()
        .map(|g| g.iter().map(|e| (e.path.clone(), e.body.clone().unwrap())).collect())
        .collect();
    let pairs = |v: &[(&str, &str)]| v.iter().map(|(p, b)| (p.to_string(), b.to_string())).collect::<Vec<_>>();
    assert_eq!(shape, vec![pairs(&[("a", "1"), ("a", "3")]), pairs(&[("b", "2"), ("b", "5")]), pairs(&[("c", "4")])]);
    assert!(group_entries(vec![]).is_empty());
}

#[test]
fn partial_writes_are_reported() {
    assert_eq!(
        partial_write_error("a.txt", "disk full", &[]),
        "Failed to apply patch to a.txt: disk full"
    );
    assert_eq!(
        partial_write_error("c.txt", "denied", &["a.txt".to_string(), "b.txt".to_string()]),
        "Failed to apply patch to c.txt: denied\nAlready written before the failure (the workspace is partially updated): a.txt, b.txt"
    );
}

#[test]
fn tool_defaults() {
    assert_eq!(default_offset(), 1);
    assert!(!NoImageInput.supports_image_input());
    assert_eq!(ShellTool::new(5).timeout_secs(), 5);
    assert_eq!(ShellTool::default().timeout_secs(), 60);
}

#[test]
fn test_parse_env_filters_noise() {
    let vars = parse_env(b"PATH=/usr/bin\n\xe6\xac\xa2\xe8\xbf\x8e\xe5\x9b\x9e\xe6\x9d\xa5\n=empty\n1NUM=x\nOK=1\nEMPTY=\nno_equals\n");
    assert_eq!(
        vars,
        vec![
            ("PATH".to_string(), "/usr/bin".to_string()),
            ("OK".to_string(), "1".to_string()),
            ("EMPTY".to_string(), String::new()),
        ]
    );
}

#[test]
fn parse_env_reads_crlf_and_values_with_equals() {
    let vars = parse_env(b"A_1=x=y\r\n_B=2\r\nbad-name=3\nC=\xff\n");
    assert_eq!(
        vars,
        vec![
            ("A_1".to_string(), "x=y".to_string()),
            ("_B".to_string(), "2".to_string()),
            ("C".to_string(), "\u{FFFD}".to_string()),
        ]
    );
}

#[test]
fn read_image_describes_or_attaches() {
    let meta = ImageMeta { mime_type: "image/png".into(), width: 2, height: 3, channels: 4, has_alpha: true };
    let bytes = [1u8, 2, 3];
    let blind = read_image(&meta, &bytes, false);
    assert!(!blind.is_error);
    assert!(blind.images.is_empty());
    assert_eq!(
        blind.output,
        "Image metadata (the active model cannot view images):\nmime: image/png\ndimensions: 2x3\nchannels: 4\nalpha: yes\ncolor_mode: RGBA\nsize_bytes: 3"
    );
    let seen = read_image(&meta, &bytes, true);
    assert!(seen.output.starts_with("Image attached below."));
    assert_eq!(seen.images.len(), 1);
    assert_eq!(seen.images[0].data, "AQID");
    assert_eq!(seen.images[0].mime_type, "image/png");

    let big = vec![0u8; 5 * 1024 * 1024 + 1];
    let large = read_image(&meta, &big, true);
    assert!(large.images.is_empty());
    assert!(large.output.starts_with("Image metadata (too large to attach; over 5242880 bytes):\nmime: image/png"));
}
