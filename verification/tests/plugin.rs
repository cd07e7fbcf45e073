use oma::plugin::{is_valid_plugin_id, resolve_sandboxed, PluginCommand};
use oma::provider::{
    image_data_url, model_entry_default_context, model_entry_default_name, model_entry_default_true,
};

#[test]
fn test_sandbox_resolution() {
    let ws = "/tmp/ws";
    assert_eq!(resolve_sandboxed(ws, "a/b.txt").unwrap(), "/tmp/ws/a/b.txt");
    assert!(resolve_sandboxed(ws, "../x").is_err());
    assert!(resolve_sandboxed(ws, "/etc/passwd").is_err());
}

#[test]
fn sandbox_normalizes_and_explains() {
    assert_eq!(resolve_sandboxed("/tmp/ws", "./a//b/./c").unwrap(), "/tmp/ws/a/b/c");
    assert_eq!(resolve_sandboxed("/tmp/ws/", "x").unwrap(), "/tmp/ws/x");
    assert_eq!(resolve_sandboxed("/tmp/ws", "").unwrap(), "/tmp/ws");
    assert_eq!(
        resolve_sandboxed("/tmp/ws", "a/../../b").unwrap_err(),
        "path traversal is not allowed: a/../../b"
    );
    assert_eq!(
        resolve_sandboxed("/tmp/ws", "/etc").unwrap_err(),
        "absolute paths are not allowed: /etc"
    );
}

#[test]
fn plugin_ids_name_safe_directories() {
    assert!(is_valid_plugin_id("git-tools_2"));
    assert!(is_valid_plugin_id("插件"));
    assert!(!is_valid_plugin_id(""));
    assert!(!is_valid_plugin_id(".hidden"));
    assert!(!is_valid_plugin_id("a/b"));
    assert!(!is_valid_plugin_id("a.b"));
    assert!(is_valid_plugin_id(&"a".repeat(64)));
    assert!(!is_valid_plugin_id(&"a".repeat(65)));
    assert!(!is_valid_plugin_id(&"插".repeat(22)), "66 bytes");
    assert!(is_valid_plugin_id(&"插".repeat(21)));
}

#[test]
fn commands_are_qualified_by_plugin() {
    let c = PluginCommand { name: "deploy".to_string(), description: String::new() };
    assert_eq!(c.qualified("ops"), "ops:deploy");
}

#[test]
fn test_image_data_url() {
    assert_eq!(image_data_url("image/png", "AAAA"), "data:image/png;base64,AAAA");
    assert_eq!(image_data_url("image/png", "https://x/y.png"), "https://x/y.png");
    assert_eq!(image_data_url("image/png", "data:image/png;base64,AAAA"), "data:image/png;base64,AAAA");
    assert_eq!(image_data_url("image/gif", "http://h/a.gif"), "http://h/a.gif");
}

#[test]
fn model_entry_defaults() {
    assert_eq!(model_entry_default_name(), "");
    assert_eq!(model_entry_default_context(), 128_000);
    assert!(model_entry_default_true());
}
