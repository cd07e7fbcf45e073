//! What the model is told of each tool: its name, a description and the JSON
//! schema of its arguments; and the registry that lists the tools a session
//! offers.
use vstd::prelude::*;

use crate::json::{items_view, json_array, json_object, json_string, json_view, members_view, Json, JsonValue};
use crate::room::strings_view;
use crate::tools::{EditTool, FindTool, GrepTool, LsTool, ReadTool, ShellTool, WriteTool};
use crate::text::{chars_of, eq_chars};

verus! {

/// One argument of a tool: its JSON type and what it means.
pub open spec fn prop(ty: Seq<char>, desc: Seq<char>) -> Json {
    Json::Obj(seq![("description"@, Json::Str(desc)), ("type"@, Json::Str(ty))])
}

/// An object schema: its properties, in key order, and the names it
/// requires, when it requires any.
pub open spec fn object_schema(props: Seq<(Seq<char>, Json)>, required: Option<Seq<Seq<char>>>) -> Json {
    match required {
        Some(r) => Json::Obj(
            seq![
                ("properties"@, Json::Obj(props)),
                ("required"@, Json::Arr(Seq::new(r.len(), |i: int| Json::Str(r[i])))),
                ("type"@, Json::Str("object"@)),
            ],
        ),
        None => Json::Obj(seq![("properties"@, Json::Obj(props)), ("type"@, Json::Str("object"@))]),
    }
}

fn push_prop(props: &mut Vec<(String, JsonValue)>, key: &str, ty: &str, desc: &str)
    ensures
        members_view(final(props)@) == members_view(old(props)@).push((key@, prop(ty@, desc@))),
{
    let ghost before = members_view(props@);
    let mut m: Vec<(String, JsonValue)> = Vec::new();
    m.push(("description".to_owned(), json_string(desc.to_owned())));
    m.push(("type".to_owned(), json_string(ty.to_owned())));
    let ghost mv = members_view(m@);
    assert(mv =~= seq![("description"@, Json::Str(desc@)), ("type"@, Json::Str(ty@))]);
    let v = json_object(m);
    props.push((key.to_owned(), v));
    assert(members_view(props@) =~= before.push((key@, prop(ty@, desc@))));
}

fn schema_json(props: Vec<(String, JsonValue)>, required: Option<Vec<String>>) -> (r: JsonValue)
    ensures
        json_view(r) == object_schema(
            members_view(props@),
            match required {
                Some(v) => Some(strings_view(v@)),
                None => None,
            },
        ),
{
    let ghost pv = members_view(props@);
    let p = json_object(props);
    let mut m: Vec<(String, JsonValue)> = Vec::new();
    m.push(("properties".to_owned(), p));
    match required {
        Some(names) => {
            let ghost nv = strings_view(names@);
            let mut items: Vec<JsonValue> = Vec::new();
            let mut i: usize = 0;
            while i < names.len()
                invariant
                    i <= names@.len(),
                    nv == strings_view(names@),
                    items@.len() == i,
                    forall|k: int| 0 <= k < i ==> json_view(#[trigger] items@[k]) == Json::Str(nv[k]),
                decreases names@.len() - i,
            {
                items.push(json_string(names[i].clone()));
                i = i + 1;
            }
            assert(items_view(items@) =~= Seq::new(nv.len(), |k: int| Json::Str(nv[k])));
            m.push(("required".to_owned(), json_array(items)));
            m.push(("type".to_owned(), json_string("object".to_owned())));
            let ghost mv = members_view(m@);
            assert(mv =~= seq![
                ("properties"@, Json::Obj(pv)),
                ("required"@, Json::Arr(Seq::new(nv.len(), |k: int| Json::Str(nv[k])))),
                ("type"@, Json::Str("object"@)),
            ]);
            json_object(m)
        },
        None => {
            m.push(("type".to_owned(), json_string("object".to_owned())));
            let ghost mv = members_view(m@);
            assert(mv =~= seq![("properties"@, Json::Obj(pv)), ("type"@, Json::Str("object"@))]);
            json_object(m)
        },
    }
}

pub open spec fn read_description() -> Seq<char> {
    "Read file content with line slicing. Text output is truncated to 2000 lines or 50KB (whichever is hit first); the notice tells you the offset to continue from. Image files return the image itself when the active model can view images, otherwise a metadata summary (dimensions, channels, alpha, MIME)."@
}

pub open spec fn write_description() -> Seq<char> {
    "Overwrite or create a file with new content."@
}

pub open spec fn edit_description() -> Seq<char> {
    "Apply a `*** Begin Patch` envelope: add, delete, update (with optional `*** Move to:`) one or more files atomically, then report a unified diff."@
}

pub open spec fn shell_description() -> Seq<char> {
    "Execute a shell command. It already runs in the workspace root (the working directory is set for you), so do not prefix commands with `cd`. Process group management with timeout; returns stdout and stderr. Output is truncated to the last 2000 lines or 50KB (whichever is hit first)."@
}

pub open spec fn ls_description() -> Seq<char> {
    "List directory contents. Returns entries sorted alphabetically, with '/' suffix for directories. Includes dotfiles. Output is truncated to 500 entries or 50KB (whichever is hit first)."@
}

pub open spec fn find_description() -> Seq<char> {
    "Search for files by glob pattern. Returns matching file paths relative to the search directory. Respects .gitignore. Output is truncated to 1000 results or 50KB (whichever is hit first)."@
}

pub open spec fn grep_description() -> Seq<char> {
    "Search file contents for a pattern. Returns matching lines with file paths and line numbers. Respects .gitignore. Output is truncated to 100 matches or 50KB (whichever is hit first). Long lines are truncated to 500 chars."@
}

/// The arguments `read` takes.
pub open spec fn read_schema() -> Json {
    object_schema(
        seq![
            ("limit"@, prop("integer"@, "Maximum number of lines to read (default: 2000 lines or 50KB, whichever comes first), text files only"@)),
            ("offset"@, prop("integer"@, "1-based starting line number (default: 1), text files only"@)),
            ("path"@, prop("string"@, "Path to the file to read"@)),
        ],
        Some(seq!["path"@]),
    )
}

impl ReadTool {
    pub fn name(&self) -> (s: &'static str)
        ensures
            s@ == "read"@,
    {
        "read"
    }

    pub fn description(&self) -> (s: &'static str)
        ensures
            s@ == read_description(),
    {
        "Read file content with line slicing. Text output is truncated to 2000 lines or 50KB (whichever is hit first); the notice tells you the offset to continue from. Image files return the image itself when the active model can view images, otherwise a metadata summary (dimensions, channels, alpha, MIME)."
    }

    /// The JSON schema of the arguments, as [`read_schema`] says.
    pub fn parameters_schema(&self) -> (r: JsonValue)
        ensures
            json_view(r) == read_schema(),
    {
        let mut props: Vec<(String, JsonValue)> = Vec::new();
        assert(members_view(props@) =~= Seq::<(Seq<char>, Json)>::empty());
        push_prop(&mut props, "limit", "integer", "Maximum number of lines to read (default: 2000 lines or 50KB, whichever comes first), text files only");
        push_prop(&mut props, "offset", "integer", "1-based starting line number (default: 1), text files only");
        push_prop(&mut props, "path", "string", "Path to the file to read");
        assert(members_view(props@) =~= seq![("limit"@, prop("integer"@, "Maximum number of lines to read (default: 2000 lines or 50KB, whichever comes first), text files only"@)), ("offset"@, prop("integer"@, "1-based starting line number (default: 1), text files only"@)), ("path"@, prop("string"@, "Path to the file to read"@))]);
        let mut names: Vec<String> = Vec::new();
        names.push("path".to_owned());
        assert(strings_view(names@) =~= seq!["path"@]);
        let required = Some(names);
        schema_json(props, required)
    }
}

/// The arguments `write` takes.
pub open spec fn write_schema() -> Json {
    object_schema(
        seq![
            ("content"@, prop("string"@, "Full content to write into the file"@)),
            ("path"@, prop("string"@, "Path to the file to write"@)),
        ],
        Some(seq!["path"@, "content"@]),
    )
}

impl WriteTool {
    pub fn name(&self) -> (s: &'static str)
        ensures
            s@ == "write"@,
    {
        "write"
    }

    pub fn description(&self) -> (s: &'static str)
        ensures
            s@ == write_description(),
    {
        "Overwrite or create a file with new content."
    }

    /// The JSON schema of the arguments, as [`write_schema`] says.
    pub fn parameters_schema(&self) -> (r: JsonValue)
        ensures
            json_view(r) == write_schema(),
    {
        let mut props: Vec<(String, JsonValue)> = Vec::new();
        assert(members_view(props@) =~= Seq::<(Seq<char>, Json)>::empty());
        push_prop(&mut props, "content", "string", "Full content to write into the file");
        push_prop(&mut props, "path", "string", "Path to the file to write");
        assert(members_view(props@) =~= seq![("content"@, prop("string"@, "Full content to write into the file"@)), ("path"@, prop("string"@, "Path to the file to write"@))]);
        let mut names: Vec<String> = Vec::new();
        names.push("path".to_owned());
        names.push("content".to_owned());
        assert(strings_view(names@) =~= seq!["path"@, "content"@]);
        let required = Some(names);
        schema_json(props, required)
    }
}

/// The arguments `edit` takes.
pub open spec fn edit_schema() -> Json {
    object_schema(
        seq![
            ("input"@, prop("string"@, "Full patch envelope: `*** Begin Patch`, then file sections (`*** Add File: <path>`, `*** Delete File: <path>`, `*** Update File: <path>` with `@@` hunks), then `*** End Patch`. Paths are relative to the workspace."@)),
        ],
        Some(seq!["input"@]),
    )
}

impl EditTool {
    pub fn name(&self) -> (s: &'static str)
        ensures
            s@ == "edit"@,
    {
        "edit"
    }

    pub fn description(&self) -> (s: &'static str)
        ensures
            s@ == edit_description(),
    {
        "Apply a `*** Begin Patch` envelope: add, delete, update (with optional `*** Move to:`) one or more files atomically, then report a unified diff."
    }

    /// The JSON schema of the arguments, as [`edit_schema`] says.
    pub fn parameters_schema(&self) -> (r: JsonValue)
        ensures
            json_view(r) == edit_schema(),
    {
        let mut props: Vec<(String, JsonValue)> = Vec::new();
        assert(members_view(props@) =~= Seq::<(Seq<char>, Json)>::empty());
        push_prop(&mut props, "input", "string", "Full patch envelope: `*** Begin Patch`, then file sections (`*** Add File: <path>`, `*** Delete File: <path>`, `*** Update File: <path>` with `@@` hunks), then `*** End Patch`. Paths are relative to the workspace.");
        assert(members_view(props@) =~= seq![("input"@, prop("string"@, "Full patch envelope: `*** Begin Patch`, then file sections (`*** Add File: <path>`, `*** Delete File: <path>`, `*** Update File: <path>` with `@@` hunks), then `*** End Patch`. Paths are relative to the workspace."@))]);
        let mut names: Vec<String> = Vec::new();
        names.push("input".to_owned());
        assert(strings_view(names@) =~= seq!["input"@]);
        let required = Some(names);
        schema_json(props, required)
    }
}

/// The arguments `shell` takes.
pub open spec fn shell_schema() -> Json {
    object_schema(
        seq![
            ("command"@, prop("string"@, "The shell command to execute"@)),
        ],
        Some(seq!["command"@]),
    )
}

impl ShellTool {
    pub fn name(&self) -> (s: &'static str)
        ensures
            s@ == "shell"@,
    {
        "shell"
    }

    pub fn description(&self) -> (s: &'static str)
        ensures
            s@ == shell_description(),
    {
        "Execute a shell command. It already runs in the workspace root (the working directory is set for you), so do not prefix commands with `cd`. Process group management with timeout; returns stdout and stderr. Output is truncated to the last 2000 lines or 50KB (whichever is hit first)."
    }

    /// The JSON schema of the arguments, as [`shell_schema`] says.
    pub fn parameters_schema(&self) -> (r: JsonValue)
        ensures
            json_view(r) == shell_schema(),
    {
        let mut props: Vec<(String, JsonValue)> = Vec::new();
        assert(members_view(props@) =~= Seq::<(Seq<char>, Json)>::empty());
        push_prop(&mut props, "command", "string", "The shell command to execute");
        assert(members_view(props@) =~= seq![("command"@, prop("string"@, "The shell command to execute"@))]);
        let mut names: Vec<String> = Vec::new();
        names.push("command".to_owned());
        assert(strings_view(names@) =~= seq!["command"@]);
        let required = Some(names);
        schema_json(props, required)
    }
}

/// The arguments `ls` takes.
pub open spec fn ls_schema() -> Json {
    object_schema(
        seq![
            ("limit"@, prop("integer"@, "Maximum number of entries to return (default: 500)"@)),
            ("path"@, prop("string"@, "Directory to list (default: workspace root)"@)),
        ],
        None,
    )
}

impl LsTool {
    pub fn name(&self) -> (s: &'static str)
        ensures
            s@ == "ls"@,
    {
        "ls"
    }

    pub fn description(&self) -> (s: &'static str)
        ensures
            s@ == ls_description(),
    {
        "List directory contents. Returns entries sorted alphabetically, with '/' suffix for directories. Includes dotfiles. Output is truncated to 500 entries or 50KB (whichever is hit first)."
    }

    /// The JSON schema of the arguments, as [`ls_schema`] says.
    pub fn parameters_schema(&self) -> (r: JsonValue)
        ensures
            json_view(r) == ls_schema(),
    {
        let mut props: Vec<(String, JsonValue)> = Vec::new();
        assert(members_view(props@) =~= Seq::<(Seq<char>, Json)>::empty());
        push_prop(&mut props, "limit", "integer", "Maximum number of entries to return (default: 500)");
        push_prop(&mut props, "path", "string", "Directory to list (default: workspace root)");
        assert(members_view(props@) =~= seq![("limit"@, prop("integer"@, "Maximum number of entries to return (default: 500)"@)), ("path"@, prop("string"@, "Directory to list (default: workspace root)"@))]);
        let required: Option<Vec<String>> = None;
        schema_json(props, required)
    }
}

/// The arguments `find` takes.
pub open spec fn find_schema() -> Json {
    object_schema(
        seq![
            ("limit"@, prop("integer"@, "Maximum number of results (default: 1000)"@)),
            ("path"@, prop("string"@, "Directory to search in (default: workspace root)"@)),
            ("pattern"@, prop("string"@, "Glob pattern to match files, e.g. '*.rs', '**/*.json', or 'src/**/*.spec.ts'"@)),
        ],
        Some(seq!["pattern"@]),
    )
}

impl FindTool {
    pub fn name(&self) -> (s: &'static str)
        ensures
            s@ == "find"@,
    {
        "find"
    }

    pub fn description(&self) -> (s: &'static str)
        ensures
            s@ == find_description(),
    {
        "Search for files by glob pattern. Returns matching file paths relative to the search directory. Respects .gitignore. Output is truncated to 1000 results or 50KB (whichever is hit first)."
    }

    /// The JSON schema of the arguments, as [`find_schema`] says.
    pub fn parameters_schema(&self) -> (r: JsonValue)
        ensures
            json_view(r) == find_schema(),
    {
        let mut props: Vec<(String, JsonValue)> = Vec::new();
        assert(members_view(props@) =~= Seq::<(Seq<char>, Json)>::empty());
        push_prop(&mut props, "limit", "integer", "Maximum number of results (default: 1000)");
        push_prop(&mut props, "path", "string", "Directory to search in (default: workspace root)");
        push_prop(&mut props, "pattern", "string", "Glob pattern to match files, e.g. '*.rs', '**/*.json', or 'src/**/*.spec.ts'");
        assert(members_view(props@) =~= seq![("limit"@, prop("integer"@, "Maximum number of results (default: 1000)"@)), ("path"@, prop("string"@, "Directory to search in (default: workspace root)"@)), ("pattern"@, prop("string"@, "Glob pattern to match files, e.g. '*.rs', '**/*.json', or 'src/**/*.spec.ts'"@))]);
        let mut names: Vec<String> = Vec::new();
        names.push("pattern".to_owned());
        assert(strings_view(names@) =~= seq!["pattern"@]);
        let required = Some(names);
        schema_json(props, required)
    }
}

/// The arguments `grep` takes.
pub open spec fn grep_schema() -> Json {
    object_schema(
        seq![
            ("context"@, prop("integer"@, "Number of lines to show before and after each match (default: 0)"@)),
            ("glob"@, prop("string"@, "Filter files by glob pattern, e.g. '*.rs' or '**/*.spec.ts'"@)),
            ("ignore_case"@, prop("boolean"@, "Case-insensitive search (default: false)"@)),
            ("limit"@, prop("integer"@, "Maximum number of matches to return (default: 100)"@)),
            ("literal"@, prop("boolean"@, "Treat pattern as literal string instead of regex (default: false)"@)),
            ("path"@, prop("string"@, "Directory or file to search (default: workspace root)"@)),
            ("pattern"@, prop("string"@, "Search pattern (regex or literal string)"@)),
        ],
        Some(seq!["pattern"@]),
    )
}

impl GrepTool {
    pub fn name(&self) -> (s: &'static str)
        ensures
            s@ == "grep"@,
    {
        "grep"
    }

    pub fn description(&self) -> (s: &'static str)
        ensures
            s@ == grep_description(),
    {
        "Search file contents for a pattern. Returns matching lines with file paths and line numbers. Respects .gitignore. Output is truncated to 100 matches or 50KB (whichever is hit first). Long lines are truncated to 500 chars."
    }

    /// The JSON schema of the arguments, as [`grep_schema`] says.
    pub fn parameters_schema(&self) -> (r: JsonValue)
        ensures
            json_view(r) == grep_schema(),
    {
        let mut props: Vec<(String, JsonValue)> = Vec::new();
        assert(members_view(props@) =~= Seq::<(Seq<char>, Json)>::empty());
        push_prop(&mut props, "context", "integer", "Number of lines to show before and after each match (default: 0)");
        push_prop(&mut props, "glob", "string", "Filter files by glob pattern, e.g. '*.rs' or '**/*.spec.ts'");
        push_prop(&mut props, "ignore_case", "boolean", "Case-insensitive search (default: false)");
        push_prop(&mut props, "limit", "integer", "Maximum number of matches to return (default: 100)");
        push_prop(&mut props, "literal", "boolean", "Treat pattern as literal string instead of regex (default: false)");
        push_prop(&mut props, "path", "string", "Directory or file to search (default: workspace root)");
        push_prop(&mut props, "pattern", "string", "Search pattern (regex or literal string)");
        assert(members_view(props@) =~= seq![("context"@, prop("integer"@, "Number of lines to show before and after each match (default: 0)"@)), ("glob"@, prop("string"@, "Filter files by glob pattern, e.g. '*.rs' or '**/*.spec.ts'"@)), ("ignore_case"@, prop("boolean"@, "Case-insensitive search (default: false)"@)), ("limit"@, prop("integer"@, "Maximum number of matches to return (default: 100)"@)), ("literal"@, prop("boolean"@, "Treat pattern as literal string instead of regex (default: false)"@)), ("path"@, prop("string"@, "Directory or file to search (default: workspace root)"@)), ("pattern"@, prop("string"@, "Search pattern (regex or literal string)"@))]);
        let mut names: Vec<String> = Vec::new();
        names.push("pattern".to_owned());
        assert(strings_view(names@) =~= seq!["pattern"@]);
        let required = Some(names);
        schema_json(props, required)
    }
}

// ---------------------------------------------------------------------------
// The registry
// ---------------------------------------------------------------------------

/// A tool as the model is told of it.
#[derive(Debug)]
pub struct ToolSpec {
    pub name: String,
    pub description: String,
    pub parameters: JsonValue,
}

/// A tool's name, description and argument schema.
pub open spec fn spec_view(t: ToolSpec) -> (Seq<char>, Seq<char>, Json) {
    (t.name@, t.description@, json_view(t.parameters))
}

/// The tools of a session, in the order they were registered.
#[derive(Debug)]
pub struct ToolRegistry {
    tools: Vec<ToolSpec>,
}

impl View for ToolRegistry {
    type V = Seq<(Seq<char>, Seq<char>, Json)>;

    closed spec fn view(&self) -> Seq<(Seq<char>, Seq<char>, Json)> {
        Seq::new(self.tools@.len(), |i: int| spec_view(self.tools@[i]))
    }
}

/// The tools offered to an agent: every tool when its list is empty, else
/// the tools it names.
pub open spec fn offered(tools: Seq<(Seq<char>, Seq<char>, Json)>, allowed: Seq<Seq<char>>) -> Seq<(Seq<char>, Seq<char>, Json)>
    decreases tools.len(),
{
    if tools.len() == 0 {
        Seq::empty()
    } else {
        let t = offered(tools.drop_last(), allowed);
        if allowed.len() == 0 || allowed.contains(tools.last().0) {
            t.push(tools.last())
        } else {
            t
        }
    }
}

/// A tool as a definition for the model: description, name, parameters.
pub open spec fn definition(t: (Seq<char>, Seq<char>, Json)) -> Json {
    Json::Obj(seq![("description"@, Json::Str(t.1)), ("name"@, Json::Str(t.0)), ("parameters"@, t.2)])
}

/// The built-in tools, in the order they are offered.
pub open spec fn builtin_tools() -> Seq<(Seq<char>, Seq<char>, Json)> {
    seq![
        ("read"@, read_description(), read_schema()),
        ("write"@, write_description(), write_schema()),
        ("edit"@, edit_description(), edit_schema()),
        ("shell"@, shell_description(), shell_schema()),
        ("ls"@, ls_description(), ls_schema()),
    ]
}

impl ToolRegistry {
    /// A registry without tools.
    pub fn new() -> (r: ToolRegistry)
        ensures
            r@ == Seq::<(Seq<char>, Seq<char>, Json)>::empty(),
    {
        let r = ToolRegistry { tools: Vec::new() };
        assert(r@ =~= Seq::<(Seq<char>, Seq<char>, Json)>::empty());
        r
    }

    /// Adds a tool after the ones there.
    pub fn register(&mut self, tool: ToolSpec)
        ensures
            final(self)@ == old(self)@.push(spec_view(tool)),
    {
        let ghost before = self@;
        let ghost tv = spec_view(tool);
        self.tools.push(tool);
        assert(self@ =~= before.push(tv));
    }

    /// The tools, in order.
    pub fn list(&self) -> (r: &[ToolSpec])
        ensures
            Seq::new(r@.len(), |i: int| spec_view(r@[i])) == self@,
    {
        let r = self.tools.as_slice();
        assert(Seq::new(r@.len(), |i: int| spec_view(r@[i])) =~= self@);
        r
    }

    /// The first tool with this name.
    pub fn get(&self, name: &str) -> (r: Option<&ToolSpec>)
        ensures
            match r {
                Some(t) => exists|i: int|
                    0 <= i < self@.len() && self@[i] == spec_view(*t) && t.name@ == name@ && forall|j: int|
                        0 <= j < i ==> (#[trigger] self@[j]).0 != name@,
                None => forall|j: int| 0 <= j < self@.len() ==> (#[trigger] self@[j]).0 != name@,
            },
    {
        let n = chars_of(name);
        let mut i: usize = 0;
        while i < self.tools.len()
            invariant
                i <= self.tools@.len(),
                n@ == name@,
                forall|j: int| 0 <= j < i ==> (#[trigger] self@[j]).0 != name@,
            decreases self.tools@.len() - i,
        {
            let c = chars_of(self.tools[i].name.as_str());
            if eq_chars(c.as_slice(), n.as_slice()) {
                assert(self@[i as int] == spec_view(self.tools@[i as int]));
                return Some(&self.tools[i]);
            }
            assert(self@[i as int].0 == self.tools@[i as int].name@);
            i = i + 1;
        }
        None
    }

    /// The built-in tools: read, write, edit, shell and ls.
    pub fn with_builtins() -> (r: ToolRegistry)
        ensures
            r@ == builtin_tools(),
    {
        let mut r = ToolRegistry::new();
        r.register(ToolSpec { name: "read".to_owned(), description: ReadTool.description().to_owned(), parameters: ReadTool.parameters_schema() });
        r.register(ToolSpec { name: "write".to_owned(), description: WriteTool.description().to_owned(), parameters: WriteTool.parameters_schema() });
        r.register(ToolSpec { name: "edit".to_owned(), description: EditTool.description().to_owned(), parameters: EditTool.parameters_schema() });
        let shell = ShellTool::new(60);
        r.register(ToolSpec { name: "shell".to_owned(), description: shell.description().to_owned(), parameters: shell.parameters_schema() });
        r.register(ToolSpec { name: "ls".to_owned(), description: LsTool.description().to_owned(), parameters: LsTool.parameters_schema() });
        assert(r@ =~= builtin_tools());
        r
    }

    /// The definitions given to the model, as [`offered`] and
    /// [`definition`] say: every tool when `allowed` is empty, else the
    /// tools it names, in registry order.
    pub fn to_definitions(&self, allowed: &[String]) -> (r: Vec<JsonValue>)
        ensures
            items_view(r@) == {
                let o = offered(self@, Seq::new(allowed@.len(), |i: int| allowed@[i]@));
                Seq::new(o.len(), |i: int| definition(o[i]))
            },
    {
        let ghost av = Seq::new(allowed@.len(), |i: int| allowed@[i]@);
        let ghost tv = self@;
        let mut out: Vec<JsonValue> = Vec::new();
        let mut i: usize = 0;
        assert(tv.take(0) =~= Seq::<(Seq<char>, Seq<char>, Json)>::empty());
        assert(items_view(out@) =~= Seq::<Json>::empty());
        while i < self.tools.len()
            invariant
                i <= self.tools@.len(),
                tv == self@,
                tv.len() == self.tools@.len(),
                av == Seq::new(allowed@.len(), |i: int| allowed@[i]@),
                items_view(out@) == {
                    let o = offered(tv.take(i as int), av);
                    Seq::new(o.len(), |k: int| definition(o[k]))
                },
            decreases self.tools@.len() - i,
        {
            let t = &self.tools[i];
            assert(tv[i as int] == spec_view(*t));
            assert(tv.take(i + 1).drop_last() =~= tv.take(i as int));
            let name = chars_of(t.name.as_str());
            let mut keep = allowed.len() == 0;
            let mut j: usize = 0;
            while j < allowed.len() && !keep
                invariant
                    j <= allowed@.len(),
                    av == Seq::new(allowed@.len(), |i: int| allowed@[i]@),
                    name@ == t.name@,
                    keep ==> (allowed@.len() == 0 || av.contains(name@)),
                    !keep ==> allowed@.len() > 0 && forall|k: int| 0 <= k < j ==> av[k] != name@,
                decreases allowed@.len() - j,
            {
                let a = chars_of(allowed[j].as_str());
                if eq_chars(a.as_slice(), name.as_slice()) {
                    assert(av[j as int] == name@);
                    keep = true;
                }
                j = j + 1;
            }
            let ghost before = items_view(out@);
            let ghost o = offered(tv.take(i as int), av);
            if keep {
                let d = {
                    let mut m: Vec<(String, JsonValue)> = Vec::new();
                    m.push(("description".to_owned(), json_string(t.description.clone())));
                    m.push(("name".to_owned(), json_string(t.name.clone())));
                    m.push(("parameters".to_owned(), t.parameters.deep_clone()));
                    let ghost mv = members_view(m@);
                    assert(mv =~= seq![
                        ("description"@, Json::Str(t.description@)),
                        ("name"@, Json::Str(t.name@)),
                        ("parameters"@, json_view(t.parameters)),
                    ]);
                    json_object(m)
                };
                let ghost dv = json_view(d);
                assert(dv == definition(tv[i as int]));
                out.push(d);
                assert(items_view(out@) =~= before.push(dv));
                let ghost o2 = offered(tv.take(i + 1), av);
                assert(o2 =~= o.push(tv[i as int]));
                assert(items_view(out@) =~= Seq::new(o2.len(), |k: int| definition(o2[k])));
            } else {
                let ghost o2 = offered(tv.take(i + 1), av);
                assert(o2 =~= o);
                assert(items_view(out@) =~= before);
            }
            i = i + 1;
        }
        assert(tv.take(i as int) =~= tv);
        out
    }
}

} // verus!
