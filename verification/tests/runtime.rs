use oma::base64_encode;
use oma::runtime::{guess_mime, sanitize_title, RoomError, TokenAnchor, TITLE_MAX_CHARS};
use oma::storage::StorageError;

#[test]
fn test_sanitize_title_strips_decorations() {
    assert_eq!(sanitize_title("修复登录超时").unwrap(), "修复登录超时");
    assert_eq!(sanitize_title("  \"Fix login timeout\"  ").unwrap(), "Fix login timeout");
    assert_eq!(sanitize_title("Title: Cache warmup plan").unwrap(), "Cache warmup plan");
    assert_eq!(sanitize_title("标题：缓存预热方案").unwrap(), "缓存预热方案");
    assert_eq!(sanitize_title("# 会话标题").unwrap(), "会话标题");
    assert_eq!(sanitize_title("\n\n短标题\n这里是一段说明").unwrap(), "短标题");
    assert!(sanitize_title("   ").is_none());
    assert!(sanitize_title("\n\n").is_none());
    assert!(sanitize_title("\"\"").is_none());
}

#[test]
fn test_sanitize_title_truncates_overlong() {
    let long = "字".repeat(TITLE_MAX_CHARS + 50);
    let out = sanitize_title(&long).unwrap();
    assert_eq!(out.chars().count(), TITLE_MAX_CHARS);
}

#[test]
fn sanitize_title_handles_quotes_and_repeated_labels() {
    assert_eq!(sanitize_title("- 《计划》").unwrap(), "计划");
    assert_eq!(sanitize_title("Title:Title: x").unwrap(), "x");
    assert_eq!(sanitize_title("`code`\r\nmore").unwrap(), "code");
    assert!(sanitize_title("## --").is_none());
}

#[test]
fn lib_test_base64_encode() {
    assert_eq!(base64_encode(b""), "");
    assert_eq!(base64_encode(b"f"), "Zg==");
    assert_eq!(base64_encode(b"fo"), "Zm8=");
    assert_eq!(base64_encode(b"foo"), "Zm9v");
    assert_eq!(base64_encode(b"foob"), "Zm9vYg==");
    assert_eq!(base64_encode(b"fooba"), "Zm9vYmE=");
    assert_eq!(base64_encode(b"foobar"), "Zm9vYmFy");
    assert_eq!(base64_encode(&[0xFF, 0xFE, 0xFD]), "//79");
}

#[test]
fn test_guess_mime() {
    assert_eq!(guess_mime("a.png"), "image/png");
    assert_eq!(guess_mime("a.JPG"), "image/jpeg");
    assert_eq!(guess_mime("a.jpeg"), "image/jpeg");
    assert_eq!(guess_mime("a.gif"), "image/gif");
    assert_eq!(guess_mime("a.webp"), "image/webp");
    assert_eq!(guess_mime("noext"), "image/png");
}

#[test]
fn guess_mime_reads_only_the_last_extension() {
    assert_eq!(guess_mime("photo.gif.WebP"), "image/webp");
    assert_eq!(guess_mime("archive.jpg.txt"), "image/png");
    assert_eq!(guess_mime("trailing."), "image/png");
}

#[test]
fn token_anchor_needs_a_reported_count() {
    assert!(TokenAnchor::record(3, 0).is_none());
    assert_eq!(TokenAnchor::record(3, 1200), TokenAnchor::record(3, 1200));
    assert_ne!(TokenAnchor::record(3, 1200), TokenAnchor::record(4, 1200));
}

#[test]
fn storage_errors_become_room_errors_of_the_same_kind() {
    let e: RoomError = StorageError::InvalidId("bad".to_string()).into();
    assert!(matches!(e, RoomError::Invalid(ref m) if m == "bad"));
    assert_eq!(e.to_string(), "bad");
    let e: RoomError = StorageError::NotFound("gone".to_string()).into();
    assert!(matches!(e, RoomError::NotFound(_)));
    let e: RoomError = StorageError::Internal("disk".to_string()).into();
    assert!(matches!(e, RoomError::Internal(_)));
}
