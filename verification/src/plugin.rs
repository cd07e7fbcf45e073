//! Plugins: command names, plugin ids, and the sandbox that keeps a plugin's
//! file access inside the workspace.
//!
//! Paths are Unix paths: `/` separates components and a leading `/` makes a
//! path absolute.
use vstd::prelude::*;

use crate::text::{
    append_chars, chars_of, eq_chars, is_ascii_alnum, is_ascii_char, lines_view, split_on,
    split_on_exec, starts_with, string_of,
};

verus! {

/// A command that a plugin registers.
#[derive(Debug, Clone)]
pub struct PluginCommand {
    pub name: String,
    pub description: String,
}

impl PluginCommand {
    /// The full name shown to users: `pluginId:command`.
    pub fn qualified(&self, plugin_id: &str) -> (s: String)
        ensures
            s@ == plugin_id@ + ":"@ + self.name@,
    {
        let mut v = chars_of(plugin_id);
        v.push(':');
        let n = chars_of(self.name.as_str());
        append_chars(&mut v, n.as_slice());
        proof {
            reveal_strlit(":");
        }
        assert(v@ =~= plugin_id@ + ":"@ + self.name@);
        string_of(v.as_slice())
    }
}

// ---------------------------------------------------------------------------
// Plugin ids
// ---------------------------------------------------------------------------

/// Whether `char::is_alphanumeric` holds of `c` (the Unicode `Alphabetic` or
/// `Numeric` property).
pub uninterp spec fn unicode_alphanumeric(c: char) -> bool;

/// `char::is_alphanumeric`. Its result is named by [`unicode_alphanumeric`];
/// the one fact stated about it is that on ASCII it is `is_ascii_alphanumeric`.
/// The Unicode tables beyond ASCII are not spelled out.
#[verifier::external_body]
fn is_alphanumeric(c: char) -> (b: bool)
    ensures
        b == unicode_alphanumeric(c),
        is_ascii_char(c) ==> b == is_ascii_alnum(c),
{
    c.is_alphanumeric()
}

/// A plugin id: 1 to 64 bytes of letters, digits, `-` and `_`, not starting with `.`.
pub open spec fn valid_plugin_id(id: Seq<char>) -> bool {
    &&& id.len() > 0
    &&& vstd::utf8::encode_utf8(id).len() <= 64
    &&& id[0] != '.'
    &&& forall|i: int|
        0 <= i < id.len() ==> unicode_alphanumeric(#[trigger] id[i]) || id[i] == '-' || id[i] == '_'
}

fn utf8_width(c: char) -> (n: usize)
    ensures
        n == vstd::utf8::encode_scalar(c as u32).len(),
{
    let u = c as u32;
    if u <= 0x7F {
        1
    } else if u <= 0x7FF {
        2
    } else if u <= 0xFFFF {
        3
    } else {
        4
    }
}

/// Does the UTF-8 encoding of `v` take at most `max` bytes?
fn utf8_len_at_most(v: &[char], max: usize) -> (b: bool)
    requires
        max < 0x1000_0000,
    ensures
        b == (vstd::utf8::encode_utf8(v@).len() <= max),
{
    let mut count: usize = 0;
    let mut i: usize = 0;
    assert(v@.skip(0) =~= v@);
    while i < v.len()
        invariant
            i <= v@.len(),
            max < 0x1000_0000,
            count <= max,
            vstd::utf8::encode_utf8(v@).len() == count + vstd::utf8::encode_utf8(v@.skip(i as int)).len(),
        decreases v@.len() - i,
    {
        let ghost rest = v@.skip(i as int);
        assert(rest[0] == v@[i as int]);
        assert(rest.drop_first() =~= v@.skip(i + 1));
        count = count + utf8_width(v[i]);
        if count > max {
            return false;
        }
        i = i + 1;
    }
    assert(v@.skip(i as int).len() == 0);
    true
}

/// Is `id` a usable plugin id (it names a directory)?
pub fn is_valid_plugin_id(id: &str) -> (b: bool)
    ensures
        b == valid_plugin_id(id@),
{
    let v = chars_of(id);
    if v.len() == 0 || !utf8_len_at_most(v.as_slice(), 64) || v[0] == '.' {
        return false;
    }
    let mut i: usize = 0;
    while i < v.len()
        invariant
            i <= v@.len(),
            v@ == id@,
            forall|k: int|
                0 <= k < i ==> unicode_alphanumeric(#[trigger] v@[k]) || v@[k] == '-' || v@[k] == '_',
        decreases v@.len() - i,
    {
        let c = v[i];
        if !(is_alphanumeric(c) || c == '-' || c == '_') {
            return false;
        }
        i = i + 1;
    }
    true
}

// ---------------------------------------------------------------------------
// The sandbox
// ---------------------------------------------------------------------------

/// `PathBuf::push` of a relative component: a `/` goes between unless the base
/// is empty or already ends with one.
pub open spec fn join_part(base: Seq<char>, part: Seq<char>) -> Seq<char> {
    if base.len() == 0 || base.last() == '/' {
        base + part
    } else {
        base + seq!['/'] + part
    }
}

/// The components pushed onto `base` one by one; `.` and empty pieces add
/// nothing, and `..` is refused (`None`).
pub open spec fn sandbox_fold(base: Seq<char>, parts: Seq<Seq<char>>) -> Option<Seq<char>>
    decreases parts.len(),
{
    if parts.len() == 0 {
        Some(base)
    } else if parts[0] == ".."@ {
        None
    } else if parts[0].len() == 0 || parts[0] == "."@ {
        sandbox_fold(base, parts.drop_first())
    } else {
        sandbox_fold(join_part(base, parts[0]), parts.drop_first())
    }
}

/// What [`resolve_sandboxed`] returns.
pub open spec fn spec_resolve_sandboxed(workspace: Seq<char>, raw: Seq<char>) -> Result<Seq<char>, Seq<char>> {
    if raw.len() > 0 && raw[0] == '/' {
        Err("absolute paths are not allowed: "@ + raw)
    } else {
        match sandbox_fold(workspace, split_on(raw, '/')) {
            Some(p) => Ok(p),
            None => Err("path traversal is not allowed: "@ + raw),
        }
    }
}

/// Resolves a plugin's path inside the workspace; absolute paths and `..` are
/// refused.
pub fn resolve_sandboxed(workspace: &str, raw: &str) -> (r: Result<String, String>)
    ensures
        match r {
            Ok(p) => spec_resolve_sandboxed(workspace@, raw@) == Ok::<Seq<char>, Seq<char>>(p@),
            Err(m) => spec_resolve_sandboxed(workspace@, raw@) == Err::<Seq<char>, Seq<char>>(m@),
        },
{
    let rv = chars_of(raw);
    if rv.len() > 0 && rv[0] == '/' {
        let mut m = chars_of("absolute paths are not allowed: ");
        append_chars(&mut m, rv.as_slice());
        return Err(string_of(m.as_slice()));
    }
    let parts = split_on_exec(rv.as_slice(), '/');
    let ghost pv = lines_view(parts@);
    let dots = chars_of("..");
    let dot = chars_of(".");
    let mut out = chars_of(workspace);
    let mut i: usize = 0;
    assert(pv.skip(0) =~= pv);
    while i < parts.len()
        invariant
            i <= parts@.len(),
            pv == lines_view(parts@),
            pv == split_on(raw@, '/'),
            dots@ == ".."@,
            dot@ == "."@,
            rv@ == raw@,
            !(raw@.len() > 0 && raw@[0] == '/'),
            sandbox_fold(workspace@, pv) == sandbox_fold(out@, pv.skip(i as int)),
        decreases parts@.len() - i,
    {
        let part = parts[i].as_slice();
        assert(pv.skip(i as int)[0] == part@);
        assert(pv.skip(i as int).drop_first() =~= pv.skip(i + 1));
        if eq_chars(part, dots.as_slice()) {
            let mut m = chars_of("path traversal is not allowed: ");
            append_chars(&mut m, rv.as_slice());
            return Err(string_of(m.as_slice()));
        }
        if part.len() > 0 && !eq_chars(part, dot.as_slice()) {
            let ghost before = out@;
            if out.len() > 0 && out[out.len() - 1] != '/' {
                out.push('/');
            }
            append_chars(&mut out, part);
            assert(out@ =~= join_part(before, part@));
        }
        i = i + 1;
    }
    assert(pv.skip(parts@.len() as int).len() == 0);
    Ok(string_of(out.as_slice()))
}

/// A path that the sandbox resolves always lies inside the workspace: the
/// workspace is a prefix of it.
pub proof fn lemma_sandbox_stays_inside(workspace: Seq<char>, raw: Seq<char>)
    ensures
        spec_resolve_sandboxed(workspace, raw) matches Ok(p) ==> starts_with(p, workspace),
{
    lemma_fold_extends(workspace, split_on(raw, '/'));
}

proof fn lemma_fold_extends(base: Seq<char>, parts: Seq<Seq<char>>)
    ensures
        sandbox_fold(base, parts) matches Some(p) ==> starts_with(p, base),
    decreases parts.len(),
{
    if parts.len() == 0 {
        assert(base.take(base.len() as int) =~= base);
    } else if parts[0] == ".."@ {
    } else if parts[0].len() == 0 || parts[0] == "."@ {
        lemma_fold_extends(base, parts.drop_first());
    } else {
        let next = join_part(base, parts[0]);
        lemma_fold_extends(next, parts.drop_first());
        if let Some(p) = sandbox_fold(next, parts.drop_first()) {
            assert(next.take(base.len() as int) =~= base);
            assert(p.take(base.len() as int) =~= next.take(base.len() as int));
        }
    }
}

} // verus!
