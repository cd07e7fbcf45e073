use oma::json::JsonValue;
use oma::schema::{ToolRegistry, ToolSpec};
use oma::tools::{EditTool, FindTool, GrepTool, LsTool, ReadTool, ShellTool, WriteTool};

fn text(s: &str) -> JsonValue {
    JsonValue::Str(s.to_string())
}

fn obj(members: Vec<(&str, JsonValue)>) -> JsonValue {
    JsonValue::Object(members.into_iter().map(|(k, v)| (k.to_string(), v)).collect())
}

fn prop(ty: &str, desc: &str) -> JsonValue {
    obj(vec![("description", text(desc)), ("type", text(ty))])
}

#[test]
fn read_schema_lists_its_arguments() {
    let expected = obj(vec![
        (
            "properties",
            obj(vec![
                (
                    "limit",
                    prop(
                        "integer",
                        "Maximum number of lines to read (default: 2000 lines or 50KB, whichever comes first), text files only",
                    ),
                ),
                ("offset", prop("integer", "1-based starting line number (default: 1), text files only")),
                ("path", prop("string", "Path to the file to read")),
            ]),
        ),
        ("required", JsonValue::Array(vec![text("path")])),
        ("type", text("object")),
    ]);
    assert_eq!(ReadTool.parameters_schema(), expected);
    assert_eq!(ReadTool.name(), "read");
}

#[test]
fn ls_schema_requires_nothing() {
    let s = LsTool.parameters_schema();
    assert!(s.get("required").is_none());
    assert_eq!(s.path(&["properties", "limit", "type"]), Some(&text("integer")));
    assert_eq!(LsTool.name(), "ls");
}

#[test]
fn tool_names_and_descriptions() {
    assert_eq!(WriteTool.name(), "write");
    assert_eq!(EditTool.name(), "edit");
    assert_eq!(FindTool.name(), "find");
    assert_eq!(GrepTool.name(), "grep");
    assert_eq!(ShellTool::new(5).name(), "shell");
    assert_eq!(WriteTool.description(), "Overwrite or create a file with new content.");
    assert!(GrepTool.description().ends_with("Long lines are truncated to 500 chars."));
    let g = GrepTool.parameters_schema();
    assert_eq!(g.path(&["properties", "ignore_case", "type"]), Some(&text("boolean")));
    assert_eq!(g.get("required"), Some(&JsonValue::Array(vec![text("pattern")])));
    let w = WriteTool.parameters_schema();
    assert_eq!(w.get("required"), Some(&JsonValue::Array(vec![text("path"), text("content")])));
    assert_eq!(FindTool.parameters_schema().path(&["properties", "pattern", "type"]), Some(&text("string")));
    assert_eq!(EditTool.parameters_schema().path(&["properties", "input", "type"]), Some(&text("string")));
}

#[test]
fn builtins_in_order_and_filtered_definitions() {
    let reg = ToolRegistry::with_builtins();
    let names: Vec<&str> = reg.list().iter().map(|t| t.name.as_str()).collect();
    assert_eq!(names, vec!["read", "write", "edit", "shell", "ls"]);

    let all = reg.to_definitions(&[]);
    assert_eq!(all.len(), 5);
    assert_eq!(all[3].get("name"), Some(&text("shell")));
    assert_eq!(all[3].get("parameters"), Some(&ShellTool::default().parameters_schema()));

    let some = reg.to_definitions(&["ls".to_string(), "read".to_string(), "nope".to_string()]);
    let names: Vec<&JsonValue> = some.iter().map(|d| d.get("name").unwrap()).collect();
    assert_eq!(names, vec![&text("read"), &text("ls")]);

    assert!(reg.get("edit").is_some());
    assert!(reg.get("grep").is_none());
}

#[test]
fn registered_tools_come_last() {
    let mut reg = ToolRegistry::new();
    reg.register(ToolSpec { name: "a".into(), description: "first".into(), parameters: JsonValue::Null });
    reg.register(ToolSpec { name: "a".into(), description: "second".into(), parameters: JsonValue::Null });
    assert_eq!(reg.get("a").unwrap().description, "first");
    assert_eq!(reg.list().len(), 2);
}

#[test]
fn test_builtin_tool_set() {
    let reg = ToolRegistry::with_builtins();
    let mut names: Vec<&str> = reg.list().iter().map(|t| t.name.as_str()).collect();
    names.sort_unstable();
    assert_eq!(names, vec!["edit", "ls", "read", "shell", "write"]);

    let defs = reg.to_definitions(&[]);
    let required = |name: &str| {
        defs.iter()
            .find(|d| d.get("name") == Some(&text(name)))
            .unwrap_or_else(|| panic!("missing definition for {name}"))
            .path(&["parameters", "required"])
            .unwrap()
    };
    assert_eq!(required("edit"), &JsonValue::Array(vec![text("input")]));
    assert_eq!(required("shell"), &JsonValue::Array(vec![text("command")]));
}
