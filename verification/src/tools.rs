//! The agent's tools: output limits, path resolution inside the workspace,
//! binary-file detection, grouping of patch sections per file, and the tool
//! types themselves.
//!
//! Paths are Unix paths: `/` separates components and a leading `/` makes a
//! path absolute.
use vstd::prelude::*;

use crate::apply_patch::{EntryView, PatchEntry};
use crate::encoding::{base64_encode, spec_base64};
use crate::image::{spec_color_mode, ImageMeta};
use crate::turn::{ToolImage, ToolOutput};
use crate::plugin::join_part;
use crate::text::{
    append_chars, ascii_lower, ascii_lower_exec, chars_of, debug_quoted, debug_str, eq_chars, join,
    join_exec, lines_view, split_on, split_on_exec, string_of, dec, decimal,
};

verus! {

// ---------------------------------------------------------------------------
// Output limits
// ---------------------------------------------------------------------------

/// The most characters a tool result may carry before it is cut.
pub const RESULT_MAX_CHARS: usize = 24_000;

/// The largest image file, in bytes, that `read` attaches for a model.
pub const READ_IMAGE_MAX_BYTES: usize = 5 * 1024 * 1024;

/// The note appended to a cut result.
pub open spec fn cut_note() -> Seq<char> {
    "\n... [\u{622A}\u{65AD}\u{4EE5}\u{8282}\u{7701}\u{4E0A}\u{4E0B}\u{6587}]"@
}

/// What [`truncate_output`] returns.
pub open spec fn spec_truncate_output(s: Seq<char>) -> Seq<char> {
    if s.len() <= RESULT_MAX_CHARS {
        s
    } else {
        s.take(RESULT_MAX_CHARS as int) + cut_note()
    }
}

/// Keeps a tool result within [`RESULT_MAX_CHARS`] characters, noting the cut.
pub fn truncate_output(output: &str) -> (s: String)
    ensures
        s@ == spec_truncate_output(output@),
{
    let v = chars_of(output);
    if v.len() <= RESULT_MAX_CHARS {
        return string_of(v.as_slice());
    }
    let mut head = vstd::slice::slice_to_vec(&v.as_slice()[0..RESULT_MAX_CHARS]);
    assert(head@ =~= output@.take(RESULT_MAX_CHARS as int));
    let note = chars_of("\n... [\u{622A}\u{65AD}\u{4EE5}\u{8282}\u{7701}\u{4E0A}\u{4E0B}\u{6587}]");
    append_chars(&mut head, note.as_slice());
    string_of(head.as_slice())
}

/// `read` starts at line 1 unless told otherwise.
pub fn default_offset() -> (n: usize)
    ensures
        n == 1,
{
    1
}

// ---------------------------------------------------------------------------
// Paths
// ---------------------------------------------------------------------------

/// What [`resolve_path`] returns: an absolute path as it is, a relative one
/// joined onto the workspace (no sandboxing).
pub open spec fn spec_resolve_path(workspace: Seq<char>, raw: Seq<char>) -> Seq<char> {
    if raw.len() > 0 && raw[0] == '/' {
        raw
    } else {
        join_part(workspace, raw)
    }
}

fn join_part_exec(base: &[char], part: &[char]) -> (r: Vec<char>)
    ensures
        r@ == join_part(base@, part@),
{
    let mut out = vstd::slice::slice_to_vec(base);
    if out.len() > 0 && out[out.len() - 1] != '/' {
        out.push('/');
    }
    append_chars(&mut out, part);
    out
}

/// Resolves a tool's path argument against the workspace.
pub fn resolve_path(workspace: &str, raw_path: &str) -> (s: String)
    ensures
        s@ == spec_resolve_path(workspace@, raw_path@),
{
    let r = chars_of(raw_path);
    if r.len() > 0 && r[0] == '/' {
        return string_of(r.as_slice());
    }
    let w = chars_of(workspace);
    let j = join_part_exec(w.as_slice(), r.as_slice());
    string_of(j.as_slice())
}

/// The components of a relative path, `.` dropped and `..` taking back the one
/// before; `None` when `..` has nothing to take back.
pub open spec fn normalize_parts(acc: Seq<Seq<char>>, parts: Seq<Seq<char>>) -> Option<Seq<Seq<char>>>
    decreases parts.len(),
{
    if parts.len() == 0 {
        Some(acc)
    } else if parts[0] == ".."@ {
        if acc.len() == 0 {
            None
        } else {
            normalize_parts(acc.drop_last(), parts.drop_first())
        }
    } else if parts[0].len() == 0 || parts[0] == "."@ {
        normalize_parts(acc, parts.drop_first())
    } else {
        normalize_parts(acc.push(parts[0]), parts.drop_first())
    }
}

pub open spec fn patch_path_error_relative(raw: Seq<char>) -> Seq<char> {
    "patch paths must be relative to the workspace, got "@ + debug_str(raw)
}

pub open spec fn patch_path_error_escape(raw: Seq<char>) -> Seq<char> {
    "patch path "@ + debug_str(raw) + " escapes the workspace; patches must stay inside it"@
}

pub open spec fn patch_path_error_no_file(raw: Seq<char>) -> Seq<char> {
    "patch path "@ + debug_str(raw) + " does not name a file"@
}

/// What [`resolve_patch_path`] returns.
pub open spec fn spec_resolve_patch_path(workspace: Seq<char>, raw: Seq<char>) -> Result<Seq<char>, Seq<char>> {
    if raw.len() == 0 {
        Err("patch path must not be empty"@)
    } else if raw[0] == '/' {
        Err(patch_path_error_relative(raw))
    } else {
        match normalize_parts(Seq::empty(), split_on(raw, '/')) {
            None => Err(patch_path_error_escape(raw)),
            Some(parts) => if parts.len() == 0 {
                Err(patch_path_error_no_file(raw))
            } else {
                Ok(join_part(workspace, join(parts, "/"@)))
            },
        }
    }
}

/// Resolves a path named in a patch: only relative paths that stay inside the
/// workspace are accepted; `.` and `..` are resolved by the path's own text.
pub fn resolve_patch_path(workspace: &str, raw_path: &str) -> (r: Result<String, String>)
    ensures
        match r {
            Ok(p) => spec_resolve_patch_path(workspace@, raw_path@) == Ok::<Seq<char>, Seq<char>>(p@),
            Err(m) => spec_resolve_patch_path(workspace@, raw_path@) == Err::<Seq<char>, Seq<char>>(m@),
        },
{
    let rv = chars_of(raw_path);
    if rv.len() == 0 {
        return Err(String::from_str("patch path must not be empty"));
    }
    if rv[0] == '/' {
        let mut m = chars_of("patch paths must be relative to the workspace, got ");
        let q = debug_quoted(raw_path);
        let qv = chars_of(q.as_str());
        append_chars(&mut m, qv.as_slice());
        return Err(string_of(m.as_slice()));
    }
    let parts = split_on_exec(rv.as_slice(), '/');
    let ghost pv = lines_view(parts@);
    let dots = chars_of("..");
    let dot = chars_of(".");
    let mut acc: Vec<Vec<char>> = Vec::new();
    let mut i: usize = 0;
    assert(pv.skip(0) =~= pv);
    assert(lines_view(acc@) =~= Seq::<Seq<char>>::empty());
    while i < parts.len()
        invariant
            i <= parts@.len(),
            pv == lines_view(parts@),
            pv == split_on(raw_path@, '/'),
            dots@ == ".."@,
            dot@ == "."@,
            rv@ == raw_path@,
            raw_path@.len() > 0 && raw_path@[0] != '/',
            normalize_parts(Seq::empty(), pv) == normalize_parts(lines_view(acc@), pv.skip(i as int)),
        decreases parts@.len() - i,
    {
        let part = parts[i].as_slice();
        assert(pv.skip(i as int)[0] == part@);
        assert(pv.skip(i as int).drop_first() =~= pv.skip(i + 1));
        if eq_chars(part, dots.as_slice()) {
            if acc.len() == 0 {
                let mut m = chars_of("patch path ");
                let q = debug_quoted(raw_path);
                let qv = chars_of(q.as_str());
                append_chars(&mut m, qv.as_slice());
                let tail = chars_of(" escapes the workspace; patches must stay inside it");
                append_chars(&mut m, tail.as_slice());
                return Err(string_of(m.as_slice()));
            }
            let ghost before = lines_view(acc@);
            acc.pop();
            assert(lines_view(acc@) =~= before.drop_last());
        } else if part.len() > 0 && !eq_chars(part, dot.as_slice()) {
            let ghost before = lines_view(acc@);
            acc.push(vstd::slice::slice_to_vec(part));
            assert(lines_view(acc@) =~= before.push(part@));
        }
        i = i + 1;
    }
    assert(pv.skip(parts@.len() as int).len() == 0);
    if acc.len() == 0 {
        let mut m = chars_of("patch path ");
        let q = debug_quoted(raw_path);
        let qv = chars_of(q.as_str());
        append_chars(&mut m, qv.as_slice());
        let tail = chars_of(" does not name a file");
        append_chars(&mut m, tail.as_slice());
        return Err(string_of(m.as_slice()));
    }
    let slash = ['/'];
    let rel = join_exec(&acc, &slash);
    proof {
        reveal_strlit("/");
        assert(slash@ =~= "/"@);
    }
    let w = chars_of(workspace);
    let full = join_part_exec(w.as_slice(), rel.as_slice());
    Ok(string_of(full.as_slice()))
}

proof fn lemma_normalize_parts_clean(acc: Seq<Seq<char>>, parts: Seq<Seq<char>>)
    requires
        forall|k: int| 0 <= k < acc.len() ==> #[trigger] acc[k] != ".."@ && acc[k].len() > 0,
    ensures
        normalize_parts(acc, parts) matches Some(r) ==> forall|k: int|
            0 <= k < r.len() ==> #[trigger] r[k] != ".."@ && r[k].len() > 0,
    decreases parts.len(),
{
    if parts.len() > 0 {
        if parts[0] == ".."@ {
            if acc.len() > 0 {
                let a = acc.drop_last();
                assert forall|k: int| 0 <= k < a.len() implies #[trigger] a[k] != ".."@ && a[k].len() > 0 by {
                    assert(a[k] == acc[k]);
                }
                lemma_normalize_parts_clean(a, parts.drop_first());
            }
        } else if parts[0].len() == 0 || parts[0] == "."@ {
            lemma_normalize_parts_clean(acc, parts.drop_first());
        } else {
            let a = acc.push(parts[0]);
            assert forall|k: int| 0 <= k < a.len() implies #[trigger] a[k] != ".."@ && a[k].len() > 0 by {
                if k < acc.len() {
                    assert(a[k] == acc[k]);
                }
            }
            lemma_normalize_parts_clean(a, parts.drop_first());
        }
    }
}

/// A resolved patch path is the workspace followed by a non-empty list of
/// components, none of them `..`: a patch cannot write outside the workspace.
pub proof fn lemma_patch_path_stays_inside(workspace: Seq<char>, raw: Seq<char>)
    ensures
        spec_resolve_patch_path(workspace, raw) matches Ok(p) ==> exists|parts: Seq<Seq<char>>|
            #![trigger join(parts, "/"@)]
            parts.len() > 0 && p == join_part(workspace, join(parts, "/"@)) && forall|k: int|
                0 <= k < parts.len() ==> #[trigger] parts[k] != ".."@ && parts[k].len() > 0,
{
    if raw.len() > 0 && raw[0] != '/' {
        lemma_normalize_parts_clean(Seq::empty(), split_on(raw, '/'));
        if let Some(parts) = normalize_parts(Seq::empty(), split_on(raw, '/')) {
            if parts.len() > 0 {
                assert(spec_resolve_patch_path(workspace, raw) == Ok::<Seq<char>, Seq<char>>(
                    join_part(workspace, join(parts, "/"@)),
                ));
            }
        }
    }
}

// ---------------------------------------------------------------------------
// Binary files
// ---------------------------------------------------------------------------

/// A byte sequence's prefix test.
pub open spec fn has_prefix(b: Seq<u8>, p: Seq<u8>) -> bool {
    crate::image::has_prefix(b, p)
}

/// The type of a known binary extension (lower-cased), if any.
pub open spec fn binary_extension(ext: Seq<char>) -> Option<Seq<char>> {
    if ext == "woff"@ || ext == "woff2"@ {
        Some("font/woff"@)
    } else if ext == "ttf"@ {
        Some("font/ttf"@)
    } else if ext == "zip"@ {
        Some("application/zip"@)
    } else if ext == "pdf"@ {
        Some("application/pdf"@)
    } else {
        None
    }
}

/// What [`binary_mime`] returns: the type told by a file's magic bytes, a NUL
/// byte, or else a binary extension.
pub open spec fn spec_binary_mime(path: Seq<char>, bytes: Seq<u8>) -> Option<Seq<char>> {
    if has_prefix(bytes, seq![0x25u8, 0x50u8, 0x44u8, 0x46u8, 0x2Du8]) {
        Some("application/pdf"@)
    } else if has_prefix(bytes, seq![0x1Fu8, 0x8Bu8]) {
        Some("application/gzip"@)
    } else if has_prefix(bytes, seq![0x50u8, 0x4Bu8, 0x03u8, 0x04u8]) {
        Some("application/zip"@)
    } else if has_prefix(bytes, seq![0x7Fu8, 0x45u8, 0x4Cu8, 0x46u8]) {
        Some("application/x-elf"@)
    } else if bytes.contains(0u8) {
        Some("application/octet-stream"@)
    } else {
        match crate::runtime::last_dot(path) {
            Some(i) => binary_extension(crate::runtime::lower(path.skip(i + 1))),
            None => None,
        }
    }
}

pub open spec fn opt_str_view(o: Option<&str>) -> Option<Seq<char>> {
    match o {
        Some(s) => Some(s@),
        None => None,
    }
}

fn prefix_bytes(b: &[u8], p: &[u8]) -> (r: bool)
    ensures
        r == has_prefix(b@, p@),
{
    if p.len() > b.len() {
        return false;
    }
    let mut i: usize = 0;
    while i < p.len()
        invariant
            p@.len() <= b@.len(),
            i <= p@.len(),
            forall|k: int| 0 <= k < i ==> b@[k] == p@[k],
        decreases p@.len() - i,
    {
        if b[i] != p[i] {
            assert(b@.take(p@.len() as int)[i as int] != p@[i as int]);
            return false;
        }
        i = i + 1;
    }
    assert(b@.take(p@.len() as int) =~= p@);
    true
}

fn has_nul(b: &[u8]) -> (r: bool)
    ensures
        r == b@.contains(0u8),
{
    let mut i: usize = 0;
    while i < b.len()
        invariant
            i <= b@.len(),
            forall|k: int| 0 <= k < i ==> b@[k] != 0u8,
        decreases b@.len() - i,
    {
        if b[i] == 0 {
            assert(b@[i as int] == 0u8);
            return true;
        }
        i = i + 1;
    }
    false
}

/// The lower-cased extension after the last `.`, if there is a `.`.
fn extension_lower(v: &[char]) -> (r: Option<Vec<char>>)
    ensures
        match r {
            Some(e) => crate::runtime::last_dot(v@) matches Some(i) && e@ == crate::runtime::lower(v@.skip(i + 1)),
            None => crate::runtime::last_dot(v@) is None,
        },
{
    let n = v.len();
    let mut j: usize = n;
    assert(v@.take(n as int) =~= v@);
    while j > 0 && v[j - 1] != '.'
        invariant
            n == v@.len(),
            j <= n,
            crate::runtime::last_dot(v@) == crate::runtime::last_dot(v@.take(j as int)),
        decreases j,
    {
        assert(v@.take(j as int).drop_last() =~= v@.take(j - 1));
        j = j - 1;
    }
    if j == 0 {
        assert(v@.take(0).len() == 0);
        return None;
    }
    assert(crate::runtime::last_dot(v@.take(j as int)) == Some(j - 1));
    let mut ext: Vec<char> = Vec::new();
    let mut k: usize = j;
    while k < n
        invariant
            n == v@.len(),
            j <= k <= n,
            ext@ == crate::runtime::lower(v@.subrange(j as int, k as int)),
        decreases n - k,
    {
        ext.push(ascii_lower_exec(v[k]));
        assert(crate::runtime::lower(v@.subrange(j as int, k + 1)) =~= crate::runtime::lower(
            v@.subrange(j as int, k as int),
        ).push(ascii_lower(v@[k as int])));
        k = k + 1;
    }
    assert(v@.subrange(j as int, n as int) =~= v@.skip(j as int));
    Some(ext)
}

/// The type of a binary file that is not an image, from its first bytes and its
/// extension; `None` means: treat it as text.
pub fn binary_mime(path: &str, bytes: &[u8]) -> (r: Option<&'static str>)
    ensures
        opt_str_view(r) == spec_binary_mime(path@, bytes@),
{
    let pdf = [0x25u8, 0x50u8, 0x44u8, 0x46u8, 0x2Du8];
    let gz = [0x1Fu8, 0x8Bu8];
    let zip = [0x50u8, 0x4Bu8, 0x03u8, 0x04u8];
    let elf = [0x7Fu8, 0x45u8, 0x4Cu8, 0x46u8];
    assert(pdf@ =~= seq![0x25u8, 0x50u8, 0x44u8, 0x46u8, 0x2Du8]);
    assert(gz@ =~= seq![0x1Fu8, 0x8Bu8]);
    assert(zip@ =~= seq![0x50u8, 0x4Bu8, 0x03u8, 0x04u8]);
    assert(elf@ =~= seq![0x7Fu8, 0x45u8, 0x4Cu8, 0x46u8]);
    if prefix_bytes(bytes, &pdf) {
        return Some("application/pdf");
    }
    if prefix_bytes(bytes, &gz) {
        return Some("application/gzip");
    }
    if prefix_bytes(bytes, &zip) {
        return Some("application/zip");
    }
    if prefix_bytes(bytes, &elf) {
        return Some("application/x-elf");
    }
    if has_nul(bytes) {
        return Some("application/octet-stream");
    }
    let v = chars_of(path);
    let ext = match extension_lower(v.as_slice()) {
        Some(e) => e,
        None => {
            return None;
        },
    };
    let e = ext.as_slice();
    let woff = chars_of("woff");
    let woff2 = chars_of("woff2");
    let ttf = chars_of("ttf");
    let zipx = chars_of("zip");
    let pdfx = chars_of("pdf");
    if eq_chars(e, woff.as_slice()) || eq_chars(e, woff2.as_slice()) {
        Some("font/woff")
    } else if eq_chars(e, ttf.as_slice()) {
        Some("font/ttf")
    } else if eq_chars(e, zipx.as_slice()) {
        Some("application/zip")
    } else if eq_chars(e, pdfx.as_slice()) {
        Some("application/pdf")
    } else {
        None
    }
}

// ---------------------------------------------------------------------------
// Failures while writing
// ---------------------------------------------------------------------------

pub open spec fn spec_partial_write_error(display: Seq<char>, error: Seq<char>, written: Seq<Seq<char>>) -> Seq<char> {
    let head = "Failed to apply patch to "@ + display + ": "@ + error;
    if written.len() == 0 {
        head
    } else {
        head + "\nAlready written before the failure (the workspace is partially updated): "@ + join(
            written,
            ", "@,
        )
    }
}

pub open spec fn strings_view(v: Seq<String>) -> Seq<Seq<char>> {
    Seq::new(v.len(), |i: int| v[i]@)
}

/// The error after a write failed part-way: which file failed, why (the I/O
/// error's message), and which files were already written.
pub fn partial_write_error(display: &str, error: &str, written: &[String]) -> (s: String)
    ensures
        s@ == spec_partial_write_error(display@, error@, strings_view(written@)),
{
    let mut m = chars_of("Failed to apply patch to ");
    let d = chars_of(display);
    append_chars(&mut m, d.as_slice());
    let sep = chars_of(": ");
    append_chars(&mut m, sep.as_slice());
    let e = chars_of(error);
    append_chars(&mut m, e.as_slice());
    if written.len() == 0 {
        return string_of(m.as_slice());
    }
    let note = chars_of("\nAlready written before the failure (the workspace is partially updated): ");
    append_chars(&mut m, note.as_slice());
    let mut parts: Vec<Vec<char>> = Vec::new();
    let mut i: usize = 0;
    while i < written.len()
        invariant
            i <= written@.len(),
            lines_view(parts@) == strings_view(written@).take(i as int),
        decreases written@.len() - i,
    {
        let ghost before = lines_view(parts@);
        let c = chars_of(written[i].as_str());
        assert(c@ == written@[i as int]@);
        let ghost cv = c@;
        parts.push(c);
        assert(lines_view(parts@) =~= before.push(cv));
        assert(lines_view(parts@) =~= strings_view(written@).take(i + 1));
        i = i + 1;
    }
    assert(strings_view(written@).take(written@.len() as int) =~= strings_view(written@));
    let comma = chars_of(", ");
    let joined = join_exec(&parts, comma.as_slice());
    append_chars(&mut m, joined.as_slice());
    string_of(m.as_slice())
}

// ---------------------------------------------------------------------------
// The tools
// ---------------------------------------------------------------------------

/// What a tool may know of the running session.
pub trait ToolContext {
    /// Can the current model take images as input?
    fn supports_image_input(&self) -> bool;
}

/// The default context: no image input, so tools answer with metadata text only.
pub struct NoImageInput;

impl ToolContext for NoImageInput {
    fn supports_image_input(&self) -> (b: bool) {
        false
    }
}

/// `read`: a file's text, or an image's metadata (or the image itself).
pub struct ReadTool;

/// `write`: overwrite or create a file.
pub struct WriteTool;

/// `edit`: apply a `*** Begin Patch` envelope.
pub struct EditTool;

/// `ls`: a directory's entries, sorted.
pub struct LsTool;

/// `find`: files by glob.
pub struct FindTool;

/// `grep`: file contents by pattern.
pub struct GrepTool;

/// `shell`: run a command in the workspace.
pub struct ShellTool {
    timeout_secs: u64,
}

impl ShellTool {
    pub closed spec fn spec_timeout(self) -> u64 {
        self.timeout_secs
    }

    /// A shell tool with the given timeout in seconds.
    pub fn new(timeout_secs: u64) -> (t: Self)
        ensures
            t.spec_timeout() == timeout_secs,
    {
        ShellTool { timeout_secs }
    }

    /// The timeout in seconds.
    pub fn timeout_secs(&self) -> (n: u64)
        ensures
            n == self.spec_timeout(),
    {
        self.timeout_secs
    }
}

impl Default for ShellTool {
    /// Sixty seconds.
    fn default() -> (t: Self)
        ensures
            t.spec_timeout() == 60,
    {
        ShellTool { timeout_secs: 60 }
    }
}

// ---------------------------------------------------------------------------
// Patch sections per file
// ---------------------------------------------------------------------------

/// The sections for path `p`, in envelope order.
pub open spec fn with_path(es: Seq<EntryView>, p: Seq<char>) -> Seq<EntryView>
    decreases es.len(),
{
    if es.len() == 0 {
        es
    } else if es.last().path == p {
        with_path(es.drop_last(), p).push(es.last())
    } else {
        with_path(es.drop_last(), p)
    }
}

/// The first group (from `k` on) whose sections are for path `p`.
pub open spec fn group_of(groups: Seq<Seq<EntryView>>, p: Seq<char>, k: int) -> Option<int>
    decreases groups.len() - k,
{
    if k < 0 || k >= groups.len() {
        None
    } else if groups[k].len() > 0 && groups[k][0].path == p {
        Some(k)
    } else {
        group_of(groups, p, k + 1)
    }
}

/// A section joins the group of its path, or opens a new group at the end.
pub open spec fn group_insert(groups: Seq<Seq<EntryView>>, e: EntryView) -> Seq<Seq<EntryView>> {
    match group_of(groups, e.path, 0) {
        Some(k) => groups.update(k, groups[k].push(e)),
        None => groups.push(seq![e]),
    }
}

/// What [`group_entries`] returns.
pub open spec fn spec_group_entries(es: Seq<EntryView>) -> Seq<Seq<EntryView>>
    decreases es.len(),
{
    if es.len() == 0 {
        Seq::empty()
    } else {
        group_insert(spec_group_entries(es.drop_last()), es.last())
    }
}

pub open spec fn groups_view(g: Seq<Vec<PatchEntry>>) -> Seq<Seq<EntryView>> {
    Seq::new(g.len(), |i: int| crate::apply_patch::entries_view(g[i]@))
}

proof fn lemma_group_of(groups: Seq<Seq<EntryView>>, p: Seq<char>, k: int)
    requires
        0 <= k,
    ensures
        group_of(groups, p, k) matches Some(j) ==> k <= j < groups.len() && groups[j].len() > 0
            && groups[j][0].path == p && forall|i: int|
            k <= i < j ==> !(groups[i].len() > 0 && groups[i][0].path == p),
        group_of(groups, p, k) is None ==> forall|i: int|
            k <= i < groups.len() ==> !(groups[i].len() > 0 && groups[i][0].path == p),
    decreases groups.len() - k,
{
    if k < groups.len() && !(groups[k].len() > 0 && groups[k][0].path == p) {
        lemma_group_of(groups, p, k + 1);
    }
}

/// `group_of` is the first index with the path: any such first index is it.
proof fn lemma_group_of_first(groups: Seq<Seq<EntryView>>, p: Seq<char>, j: int)
    requires
        0 <= j < groups.len(),
        groups[j].len() > 0 && groups[j][0].path == p,
        forall|i: int| 0 <= i < j ==> !(groups[i].len() > 0 && groups[i][0].path == p),
    ensures
        group_of(groups, p, 0) == Some(j),
{
    lemma_group_of(groups, p, 0);
    if let Some(j2) = group_of(groups, p, 0) {
        assert(!(j2 < j) && !(j < j2));
    }
}

proof fn lemma_group_of_none(groups: Seq<Seq<EntryView>>, p: Seq<char>)
    requires
        forall|i: int| 0 <= i < groups.len() ==> !(groups[i].len() > 0 && groups[i][0].path == p),
    ensures
        group_of(groups, p, 0) is None,
{
    lemma_group_of(groups, p, 0);
}

proof fn lemma_with_path_empty(es: Seq<EntryView>, p: Seq<char>)
    requires
        forall|i: int| 0 <= i < es.len() ==> es[i].path != p,
    ensures
        with_path(es, p) == Seq::<EntryView>::empty(),
    decreases es.len(),
{
    if es.len() > 0 {
        lemma_with_path_empty(es.drop_last(), p);
    }
}

/// The groups' invariant: non-empty groups of one path each, in distinct
/// paths, every group holding exactly its path's sections in order, and every
/// section's path having a group.
pub open spec fn well_grouped(es: Seq<EntryView>, groups: Seq<Seq<EntryView>>) -> bool {
    &&& forall|k: int| 0 <= k < groups.len() ==> #[trigger] groups[k].len() > 0
    &&& forall|k: int| 0 <= k < groups.len() ==> #[trigger] groups[k] == with_path(es, groups[k][0].path)
    &&& forall|a: int, b: int| 0 <= a < b < groups.len() ==> groups[a][0].path != groups[b][0].path
    &&& forall|i: int| 0 <= i < es.len() ==> #[trigger] group_of(groups, es[i].path, 0) is Some
}

/// Grouping sections by path keeps each path's sections together and in
/// envelope order, gives each path one group, and loses no section.
pub proof fn lemma_group_entries(es: Seq<EntryView>)
    ensures
        well_grouped(es, spec_group_entries(es)),
    decreases es.len(),
{
    if es.len() > 0 {
        let t = es.drop_last();
        let e = es.last();
        lemma_group_entries(t);
        let g = spec_group_entries(t);
        let g2 = group_insert(g, e);
        assert(spec_group_entries(es) == g2);
        lemma_group_of(g, e.path, 0);
        assert forall|q: Seq<char>| q != e.path implies #[trigger] with_path(es, q) == with_path(t, q) by {}
        assert(with_path(es, e.path) == with_path(t, e.path).push(e));
        match group_of(g, e.path, 0) {
            Some(k0) => {
                assert forall|k: int| 0 <= k < g2.len() implies #[trigger] g2[k].len() > 0 by {}
                assert forall|k: int| 0 <= k < g2.len() implies #[trigger] g2[k] == with_path(es, g2[k][0].path) by {
                    if k == k0 {
                        assert(g2[k][0] == g[k][0]);
                    } else {
                        assert(g2[k] == g[k]);
                        assert(g[k][0].path != e.path);
                    }
                }
                assert forall|a: int, b: int| 0 <= a < b < g2.len() implies g2[a][0].path != g2[b][0].path by {
                    assert(g2[a][0] == g[a][0] && g2[b][0] == g[b][0]);
                }
                assert forall|i: int| 0 <= i < es.len() implies #[trigger] group_of(g2, es[i].path, 0) is Some by {
                    let p = es[i].path;
                    if i < t.len() {
                        assert(es[i] == t[i]);
                        assert(group_of(g, t[i].path, 0) is Some);
                        lemma_group_of(g, p, 0);
                        let j = group_of(g, p, 0)->0;
                        assert forall|x: int| 0 <= x < j implies !(g2[x].len() > 0 && g2[x][0].path == p) by {
                            assert(g2[x][0] == g[x][0]);
                        }
                        assert(g2[j][0] == g[j][0]);
                        lemma_group_of_first(g2, p, j);
                    } else {
                        assert forall|x: int| 0 <= x < k0 implies !(g2[x].len() > 0 && g2[x][0].path == p) by {
                            assert(g2[x][0] == g[x][0]);
                        }
                        assert(g2[k0][0] == g[k0][0]);
                        lemma_group_of_first(g2, p, k0);
                    }
                }
            },
            None => {
                assert forall|i: int| 0 <= i < t.len() implies t[i].path != e.path by {
                    if t[i].path == e.path {
                        assert(group_of(g, t[i].path, 0) is Some);
                    }
                }
                lemma_with_path_empty(t, e.path);
                assert forall|k: int| 0 <= k < g2.len() implies #[trigger] g2[k].len() > 0 by {}
                assert forall|k: int| 0 <= k < g2.len() implies #[trigger] g2[k] == with_path(es, g2[k][0].path) by {
                    if k < g.len() {
                        assert(g2[k] == g[k]);
                    } else {
                        assert(g2[k] == seq![e]);
                        assert(Seq::<EntryView>::empty().push(e) =~= seq![e]);
                    }
                }
                assert forall|a: int, b: int| 0 <= a < b < g2.len() implies g2[a][0].path != g2[b][0].path by {
                    assert(g2[a] == g[a]);
                    if b < g.len() {
                        assert(g2[b] == g[b]);
                    }
                }
                assert forall|i: int| 0 <= i < es.len() implies #[trigger] group_of(g2, es[i].path, 0) is Some by {
                    let p = es[i].path;
                    if i < t.len() {
                        assert(es[i] == t[i]);
                        assert(group_of(g, t[i].path, 0) is Some);
                        lemma_group_of(g, p, 0);
                        let j = group_of(g, p, 0)->0;
                        assert forall|x: int| 0 <= x < j implies !(g2[x].len() > 0 && g2[x][0].path == p) by {
                            assert(g2[x] == g[x]);
                        }
                        assert(g2[j] == g[j]);
                        lemma_group_of_first(g2, p, j);
                    } else {
                        assert forall|x: int| 0 <= x < g.len() implies !(g2[x].len() > 0 && g2[x][0].path == p) by {
                            assert(g2[x] == g[x]);
                        }
                        lemma_group_of_first(g2, p, g.len() as int);
                    }
                }
            },
        }
    }
}

/// Groups the envelope's sections by path: several sections for one path are
/// applied one after another, in envelope order; groups keep the order in which
/// their paths first appear.
pub fn group_entries(entries: Vec<PatchEntry>) -> (r: Vec<Vec<PatchEntry>>)
    ensures
        groups_view(r@) == spec_group_entries(crate::apply_patch::entries_view(entries@)),
{
    let ghost ev = crate::apply_patch::entries_view(entries@);
    let mut rest = entries;
    let n = rest.len();
    let mut groups: Vec<Vec<PatchEntry>> = Vec::new();
    let mut i: usize = 0;
    assert(groups_view(groups@) =~= Seq::<Seq<EntryView>>::empty());
    assert(ev.take(0) =~= Seq::<EntryView>::empty());
    while rest.len() > 0
        invariant
            n == ev.len(),
            i + rest@.len() == n,
            crate::apply_patch::entries_view(rest@) == ev.skip(i as int),
            groups_view(groups@) == spec_group_entries(ev.take(i as int)),
            well_grouped(ev.take(i as int), groups_view(groups@)),
        decreases rest@.len(),
    {
        let ghost rv0 = crate::apply_patch::entries_view(rest@);
        let entry = rest.remove(0);
        assert(crate::apply_patch::entries_view(rest@) =~= rv0.drop_first());
        assert(entry@ == ev[i as int]) by {
            assert(rv0[0] == ev.skip(i as int)[0]);
        }
        assert(ev.skip(i as int).drop_first() =~= ev.skip(i + 1));
        assert(ev.take(i + 1).drop_last() =~= ev.take(i as int));
        let ghost gv = groups_view(groups@);
        proof {
            lemma_group_entries(ev.take(i + 1));
        }
        let mut k: usize = 0;
        let mut found = false;
        while k < groups.len()
            invariant_except_break
                gv == groups_view(groups@),
                forall|x: int| 0 <= x < gv.len() ==> #[trigger] gv[x].len() > 0,
                forall|x: int| 0 <= x < k ==> !(gv[x].len() > 0 && gv[x][0].path == entry@.path),
                !found,
            invariant
                k <= groups@.len(),
            ensures
                found ==> k < gv.len() && gv[k as int][0].path == entry@.path && forall|x: int|
                    0 <= x < k ==> !(gv[x].len() > 0 && gv[x][0].path == entry@.path),
                !found ==> forall|x: int| 0 <= x < gv.len() ==> !(gv[x].len() > 0 && gv[x][0].path == entry@.path),
            decreases groups@.len() - k,
        {
            assert(gv[k as int].len() > 0);
            assert(gv[k as int][0] == groups@[k as int]@[0]@);
            if groups[k][0].path == entry.path {
                found = true;
                break;
            }
            k = k + 1;
        }
        if found {
            proof {
                lemma_group_of_first(gv, entry@.path, k as int);
            }
            let mut g = groups.remove(k);
            let ghost gev = crate::apply_patch::entries_view(g@);
            let ghost env = entry@;
            g.push(entry);
            assert(crate::apply_patch::entries_view(g@) =~= gev.push(env));
            groups.insert(k, g);
            assert(groups_view(groups@) =~= gv.update(k as int, gv[k as int].push(env)));
        } else {
            proof {
                lemma_group_of_none(gv, entry@.path);
            }
            let ghost env = entry@;
            let mut g: Vec<PatchEntry> = Vec::new();
            g.push(entry);
            assert(crate::apply_patch::entries_view(g@) =~= seq![env]);
            groups.push(g);
            assert(groups_view(groups@) =~= gv.push(seq![env]));
        }
        i = i + 1;
    }
    assert(ev.take(n as int) =~= ev);
    groups
}

// ---------------------------------------------------------------------------
// The login shell's environment
// ---------------------------------------------------------------------------

/// `String::from_utf8_lossy`: the bytes as text, each invalid sequence shown as
/// U+FFFD.
pub uninterp spec fn utf8_lossy(b: Seq<u8>) -> Seq<char>;

/// `String::from_utf8_lossy`. Its result is named by [`utf8_lossy`]; the one
/// fact stated is the documented one, that valid UTF-8 is decoded unchanged.
/// Where invalid sequences are replaced is not spelled out.
#[verifier::external_body]
pub(crate) fn lossy_text(b: &[u8]) -> (s: String)
    ensures
        s@ == utf8_lossy(b@),
        vstd::utf8::valid_utf8(b@) ==> s@ == vstd::utf8::decode_utf8(b@),
{
    String::from_utf8_lossy(b).into_owned()
}

/// `str::lines`: the text split at `\n`, a `\r` before a `\n` dropped, and no
/// empty line after a final `\n`.
pub open spec fn text_lines(s: Seq<char>) -> Seq<Seq<char>> {
    let pieces = split_on(s, '\n');
    let n = pieces.len();
    let body = Seq::new(
        (n - 1) as nat,
        |i: int|
            if pieces[i].len() > 0 && pieces[i].last() == '\r' {
                pieces[i].drop_last()
            } else {
                pieces[i]
            },
    );
    if pieces.last().len() == 0 {
        body
    } else {
        body.push(pieces.last())
    }
}

/// The lines of a text, as [`text_lines`] says.
pub fn text_lines_exec(s: &[char]) -> (r: Vec<Vec<char>>)
    ensures
        lines_view(r@) == text_lines(s@),
{
    let pieces = split_on_exec(s, '\n');
    let ghost pv = lines_view(pieces@);
    let n = pieces.len();
    let mut out: Vec<Vec<char>> = Vec::new();
    let mut i: usize = 0;
    while i + 1 < n
        invariant
            n == pieces@.len(),
            n >= 1,
            pv == lines_view(pieces@),
            pv == split_on(s@, '\n'),
            i + 1 <= n,
            lines_view(out@) == Seq::new(
                i as nat,
                |k: int|
                    if pv[k].len() > 0 && pv[k].last() == '\r' {
                        pv[k].drop_last()
                    } else {
                        pv[k]
                    },
            ),
        decreases n - i,
    {
        let p = pieces[i].as_slice();
        let piece = if p.len() > 0 && p[p.len() - 1] == '\r' {
            vstd::slice::slice_to_vec(&p[0..p.len() - 1])
        } else {
            vstd::slice::slice_to_vec(p)
        };
        let ghost before = lines_view(out@);
        proof {
            assert(p@ == pv[i as int]);
            if p@.len() > 0 && p@.last() == '\r' {
                assert(piece@ =~= pv[i as int].drop_last());
            } else {
                assert(piece@ =~= pv[i as int]);
            }
        }
        let ghost piece_v = piece@;
        out.push(piece);
        assert(lines_view(out@) =~= before.push(piece_v));
        assert(lines_view(out@) =~= Seq::new(
            (i + 1) as nat,
            |k: int|
                if pv[k].len() > 0 && pv[k].last() == '\r' {
                    pv[k].drop_last()
                } else {
                    pv[k]
                },
        ));
        i = i + 1;
    }
    let last = pieces[n - 1].as_slice();
    if last.len() > 0 {
        let ghost before = lines_view(out@);
        out.push(vstd::slice::slice_to_vec(last));
        assert(lines_view(out@) =~= before.push(pv.last()));
    }
    out
}

/// A shell variable name: a letter or `_`, then letters, digits or `_`.
pub open spec fn env_name(k: Seq<char>) -> bool {
    k.len() > 0 && (crate::text::is_ascii_alnum(k[0]) && !crate::text::is_digit(k[0]) || k[0] == '_')
        && forall|i: int| 1 <= i < k.len() ==> crate::text::is_ascii_alnum(#[trigger] k[i]) || k[i] == '_'
}

/// A `KEY=VALUE` line with a valid name, split at the first `=`.
pub open spec fn env_entry(line: Seq<char>) -> Option<(Seq<char>, Seq<char>)> {
    match crate::text::find_char(line, '=', 0) {
        Some(i) => if env_name(line.take(i)) {
            Some((line.take(i), line.skip(i + 1)))
        } else {
            None
        },
        None => None,
    }
}

/// The variables of the lines, in order.
pub open spec fn env_entries(lines: Seq<Seq<char>>) -> Seq<(Seq<char>, Seq<char>)>
    decreases lines.len(),
{
    if lines.len() == 0 {
        Seq::empty()
    } else {
        match env_entry(lines.last()) {
            Some(kv) => env_entries(lines.drop_last()).push(kv),
            None => env_entries(lines.drop_last()),
        }
    }
}

pub open spec fn pairs_view(v: Seq<(String, String)>) -> Seq<(Seq<char>, Seq<char>)> {
    Seq::new(v.len(), |i: int| (v[i].0@, v[i].1@))
}

fn env_name_exec(k: &[char]) -> (b: bool)
    ensures
        b == env_name(k@),
{
    if k.len() == 0 {
        return false;
    }
    let c = k[0];
    let u = c as u32;
    if !((crate::text::is_ascii_alnum_exec(c) && !(0x30 <= u && u <= 0x39)) || c == '_') {
        return false;
    }
    let mut i: usize = 1;
    while i < k.len()
        invariant
            1 <= i <= k@.len(),
            (crate::text::is_ascii_alnum(k@[0]) && !crate::text::is_digit(k@[0])) || k@[0] == '_',
            forall|j: int| 1 <= j < i ==> crate::text::is_ascii_alnum(#[trigger] k@[j]) || k@[j] == '_',
        decreases k@.len() - i,
    {
        if !(crate::text::is_ascii_alnum_exec(k[i]) || k[i] == '_') {
            return false;
        }
        i = i + 1;
    }
    true
}

/// Reads the `KEY=VALUE` lines that `env` printed; banners, prompts and lines
/// without a valid variable name are dropped.
pub fn parse_env(buf: &[u8]) -> (r: Vec<(String, String)>)
    ensures
        pairs_view(r@) == env_entries(text_lines(utf8_lossy(buf@))),
{
    let text = lossy_text(buf);
    let v = chars_of(text.as_str());
    let pieces = split_on_exec(v.as_slice(), '\n');
    let ghost pv = lines_view(pieces@);
    let ghost lines = text_lines(v@);
    let n = pieces.len();
    let mut out: Vec<(String, String)> = Vec::new();
    let mut i: usize = 0;
    assert(pairs_view(out@) =~= Seq::<(Seq<char>, Seq<char>)>::empty());
    assert(lines.take(0) =~= Seq::<Seq<char>>::empty());
    while i < n
        invariant
            n == pieces@.len(),
            n >= 1,
            pv == lines_view(pieces@),
            pv == split_on(v@, '\n'),
            lines == text_lines(v@),
            i <= n,
            i < n ==> pairs_view(out@) == env_entries(lines.take(i as int)),
            i == n ==> pairs_view(out@) == env_entries(lines),
        decreases n - i,
    {
        let p = pieces[i].as_slice();
        let last = i + 1 == n;
        if last && p.len() == 0 {
            assert(lines =~= lines.take(i as int));
            i = i + 1;
        } else {
            let line: Vec<char> = if !last && p.len() > 0 && p[p.len() - 1] == '\r' {
                vstd::slice::slice_to_vec(&p[0..p.len() - 1])
            } else {
                vstd::slice::slice_to_vec(p)
            };
            proof {
                if !last && p@.len() > 0 && p@[p@.len() - 1] == '\r' {
                    assert(line@ =~= p@.drop_last());
                }
                assert(line@ == lines[i as int]);
                assert(lines.take(i + 1).drop_last() =~= lines.take(i as int));
                if last {
                    assert(lines.take(i + 1) =~= lines);
                }
            }
            let ln = line.len();
            let mut j: usize = 0;
            while j < ln && line[j] != '='
                invariant
                    ln == line@.len(),
                    j <= ln,
                    crate::text::find_char(line@, '=', 0) == crate::text::find_char(line@, '=', j as int),
                decreases ln - j,
            {
                j = j + 1;
            }
            if j < ln {
                let key = &line.as_slice()[0..j];
                assert(key@ =~= line@.take(j as int));
                if env_name_exec(key) {
                    let value = &line.as_slice()[j + 1..ln];
                    assert(value@ =~= line@.skip(j + 1));
                    let ghost before = pairs_view(out@);
                    out.push((string_of(key), string_of(value)));
                    assert(pairs_view(out@) =~= before.push((key@, value@)));
                }
            }
            i = i + 1;
        }
    }
    out
}

// ---------------------------------------------------------------------------
// Reading an image
// ---------------------------------------------------------------------------

/// The description of an image: type, size, channels, alpha, colour mode
/// and file size, one per line.
pub open spec fn meta_block(m: ImageMeta, size: nat) -> Seq<char> {
    "mime: "@ + m.mime_type@ + "\ndimensions: "@ + dec(m.width as nat) + "x"@ + dec(m.height as nat) + "\nchannels: "@
        + dec(m.channels as nat) + "\nalpha: "@ + (if m.has_alpha {
        "yes"@
    } else {
        "no"@
    }) + "\ncolor_mode: "@ + spec_color_mode(m.channels as int, m.has_alpha) + "\nsize_bytes: "@ + dec(size)
}

/// What reading an image gives: its description only, when the model
/// cannot see images or the file is too large; else the image itself,
/// base64-encoded, after a line that points the model at it.
pub open spec fn spec_read_image(m: ImageMeta, bytes: Seq<u8>, supports_image_input: bool) -> (Seq<char>, Option<
    (Seq<char>, Seq<char>),
>) {
    let block = meta_block(m, bytes.len());
    if !supports_image_input {
        ("Image metadata (the active model cannot view images):\n"@ + block, None)
    } else if bytes.len() > READ_IMAGE_MAX_BYTES {
        ("Image metadata (too large to attach; over 5242880 bytes):\n"@ + block, None)
    } else {
        (
            "Image attached below. Read it from the tool result image, then answer based on what it shows.\n"@ + block,
            Some((m.mime_type@, spec_base64(bytes))),
        )
    }
}

fn meta_block_exec(meta: &ImageMeta, size: usize) -> (r: Vec<char>)
    ensures
        r@ == meta_block(*meta, size as nat),
{
    let mut v = chars_of("mime: ");
    let m = chars_of(meta.mime_type.as_str());
    append_chars(&mut v, m.as_slice());
    let a = chars_of("\ndimensions: ");
    append_chars(&mut v, a.as_slice());
    let w = decimal(meta.width as u128);
    append_chars(&mut v, w.as_slice());
    let x = chars_of("x");
    append_chars(&mut v, x.as_slice());
    let h = decimal(meta.height as u128);
    append_chars(&mut v, h.as_slice());
    let b = chars_of("\nchannels: ");
    append_chars(&mut v, b.as_slice());
    let c = decimal(meta.channels as u128);
    append_chars(&mut v, c.as_slice());
    let d = chars_of("\nalpha: ");
    append_chars(&mut v, d.as_slice());
    let yes_no = if meta.has_alpha {
        chars_of("yes")
    } else {
        chars_of("no")
    };
    append_chars(&mut v, yes_no.as_slice());
    let e = chars_of("\ncolor_mode: ");
    append_chars(&mut v, e.as_slice());
    let mode = chars_of(meta.color_mode());
    append_chars(&mut v, mode.as_slice());
    let f = chars_of("\nsize_bytes: ");
    append_chars(&mut v, f.as_slice());
    let n = decimal(size as u128);
    append_chars(&mut v, n.as_slice());
    v
}

/// The output of reading an image, as [`spec_read_image`] says; it never
/// fails.
pub fn read_image(meta: &ImageMeta, bytes: &[u8], supports_image_input: bool) -> (r: ToolOutput)
    ensures
        !r.is_error,
        (r.output@, if r.images@.len() == 0 {
            None
        } else {
            Some((r.images@[0].mime_type@, r.images@[0].data@))
        }) == spec_read_image(*meta, bytes@, supports_image_input),
        r.images@.len() <= 1,
{
    let block = meta_block_exec(meta, bytes.len());
    if !supports_image_input {
        let mut v = chars_of("Image metadata (the active model cannot view images):\n");
        append_chars(&mut v, block.as_slice());
        return ToolOutput::success(string_of(v.as_slice()));
    }
    if bytes.len() > READ_IMAGE_MAX_BYTES {
        let mut v = chars_of("Image metadata (too large to attach; over 5242880 bytes):\n");
        append_chars(&mut v, block.as_slice());
        return ToolOutput::success(string_of(v.as_slice()));
    }
    let mut v = chars_of("Image attached below. Read it from the tool result image, then answer based on what it shows.\n");
    append_chars(&mut v, block.as_slice());
    let mut images: Vec<ToolImage> = Vec::new();
    images.push(ToolImage { mime_type: meta.mime_type.clone(), data: base64_encode(bytes) });
    ToolOutput::success_with_images(string_of(v.as_slice()), images)
}

} // verus!
