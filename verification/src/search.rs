//! `find` and `grep` output: paths shown relative to the search root, match
//! lines without line-break debris, and error details.
//!
//! Paths are Unix paths (a leading `/` makes one absolute); how a path is split
//! into components, and stripped of a base path, is left to `std::path`.
use vstd::prelude::*;

use crate::text::{append_chars, chars_of, starts_with, starts_with_exec, string_of, trim, trim_vec};
use crate::tui::{unify_separators, unify_crlf};

verus! {

pub open spec fn opt_view(o: Option<String>) -> Option<Seq<char>> {
    match o {
        Some(s) => Some(s@),
        None => None,
    }
}

pub open spec fn opt_str_view(o: Option<&str>) -> Option<Seq<char>> {
    match o {
        Some(s) => Some(s@),
        None => None,
    }
}

/// What is left of `path` once the components of `base` are stripped from its
/// front (`Path::strip_prefix`), if `base` is a prefix of it.
pub uninterp spec fn path_remainder(path: Seq<char>, base: Seq<char>) -> Option<Seq<char>>;

/// The last normal component of a path (`Path::file_name`), if there is one.
pub uninterp spec fn path_file_name(path: Seq<char>) -> Option<Seq<char>>;

/// `Path::strip_prefix`, the remainder shown as text. Its result is named by
/// [`path_remainder`]; the component rules of `std::path` are not spelled out.
#[verifier::external_body]
fn strip_path_prefix(path: &str, base: &str) -> (r: Option<String>)
    ensures
        opt_view(r) == path_remainder(path@, base@),
{
    match std::path::Path::new(path).strip_prefix(base) {
        Ok(rest) => Some(rest.to_string_lossy().into_owned()),
        Err(_) => None,
    }
}

/// `Path::file_name`, as text. Its result is named by [`path_file_name`]; the
/// component rules of `std::path` are not spelled out.
#[verifier::external_body]
fn file_name(path: &str) -> (r: Option<String>)
    ensures
        opt_view(r) == path_file_name(path@),
{
    std::path::Path::new(path).file_name().map(|n| n.to_string_lossy().into_owned())
}

fn unify_separators_exec(v: &[char]) -> (r: Vec<char>)
    ensures
        r@ == unify_separators(v@),
{
    let mut r: Vec<char> = Vec::new();
    let mut i: usize = 0;
    while i < v.len()
        invariant
            i <= v@.len(),
            r@ == unify_separators(v@.take(i as int)),
        decreases v@.len() - i,
    {
        let c = v[i];
        r.push(if c == '\\' { '/' } else { c });
        assert(unify_separators(v@.take(i + 1)) =~= unify_separators(v@.take(i as int)).push(
            if c == '\\' { '/' } else { c },
        ));
        i = i + 1;
    }
    assert(v@.take(v@.len() as int) =~= v@);
    r
}

// ---------------------------------------------------------------------------
// find
// ---------------------------------------------------------------------------

/// What [`relativize_with`] returns: a relative result as it is, an absolute
/// one by its remainder under the search root (when there is a non-empty one);
/// backslashes shown as slashes.
pub open spec fn spec_relativize(result: Seq<char>, remainder: Option<Seq<char>>) -> Seq<char> {
    if !(result.len() > 0 && result[0] == '/') {
        unify_separators(result)
    } else {
        match remainder {
            Some(rel) => if unify_separators(rel).len() == 0 {
                unify_separators(result)
            } else {
                unify_separators(rel)
            },
            None => unify_separators(result),
        }
    }
}

/// Shows a search result given what is left of it under the search root.
pub fn relativize_with(result: &str, remainder: Option<&str>) -> (s: String)
    ensures
        s@ == spec_relativize(result@, opt_str_view(remainder)),
{
    let r = chars_of(result);
    let shown_result = unify_separators_exec(r.as_slice());
    if !(r.len() > 0 && r[0] == '/') {
        return string_of(shown_result.as_slice());
    }
    match remainder {
        Some(rel) => {
            let rv = chars_of(rel);
            let shown = unify_separators_exec(rv.as_slice());
            if shown.len() == 0 {
                string_of(shown_result.as_slice())
            } else {
                string_of(shown.as_slice())
            }
        },
        None => string_of(shown_result.as_slice()),
    }
}

/// Shows a `find` result relative to the search root; results outside it stay
/// as they are (no `..` paths are made up).
pub fn relativize(result: &str, search_path: &str) -> (s: String)
    ensures
        s@ == spec_relativize(result@, path_remainder(result@, search_path@)),
{
    let rem = strip_path_prefix(result, search_path);
    match &rem {
        Some(r) => relativize_with(result, Some(r.as_str())),
        None => relativize_with(result, None),
    }
}

// ---------------------------------------------------------------------------
// grep
// ---------------------------------------------------------------------------

/// What [`format_path_with`] returns: inside a searched directory the path
/// under it (when that is non-empty and does not climb with `..`), else the
/// file name, else the path as given.
pub open spec fn spec_format_path(
    is_directory: bool,
    file: Seq<char>,
    remainder: Option<Seq<char>>,
    name: Option<Seq<char>>,
) -> Seq<char> {
    let relative = match remainder {
        Some(rel) => {
            let shown = unify_separators(rel);
            if is_directory && shown.len() > 0 && !starts_with(shown, ".."@) {
                Some(shown)
            } else {
                None
            }
        },
        None => None,
    };
    match relative {
        Some(shown) => shown,
        None => match name {
            Some(n) => n,
            None => file,
        },
    }
}

/// Shows a matched file's path, given its remainder under the search root and
/// its file name.
pub fn format_path_with(is_directory: bool, file: &str, remainder: Option<&str>, name: Option<&str>) -> (s: String)
    ensures
        s@ == spec_format_path(is_directory, file@, opt_str_view(remainder), opt_str_view(name)),
{
    if is_directory {
        match remainder {
            Some(rel) => {
                let rv = chars_of(rel);
                let shown = unify_separators_exec(rv.as_slice());
                let dots = chars_of("..");
                if shown.len() > 0 && !starts_with_exec(shown.as_slice(), dots.as_slice()) {
                    return string_of(shown.as_slice());
                }
            },
            None => {},
        }
    }
    match name {
        Some(n) => String::from_str(n),
        None => String::from_str(file),
    }
}

/// Shows a matched file's path for `grep` output.
pub fn format_path(search_path: &str, is_directory: bool, file: &str) -> (s: String)
    ensures
        s@ == spec_format_path(is_directory, file@, path_remainder(file@, search_path@), path_file_name(file@)),
{
    let rem = strip_path_prefix(file, search_path);
    let name = file_name(file);
    let r = match &rem {
        Some(x) => Some(x.as_str()),
        None => None,
    };
    let n = match &name {
        Some(x) => Some(x.as_str()),
        None => None,
    };
    format_path_with(is_directory, file, r, n)
}

/// Carriage returns removed.
pub open spec fn drop_cr(s: Seq<char>) -> Seq<char>
    decreases s.len(),
{
    if s.len() == 0 {
        s
    } else if s.last() == '\r' {
        drop_cr(s.drop_last())
    } else {
        drop_cr(s.drop_last()).push(s.last())
    }
}

/// Trailing line feeds removed.
pub open spec fn trim_line_feeds(s: Seq<char>) -> Seq<char>
    decreases s.len(),
{
    if s.len() > 0 && s.last() == '\n' {
        trim_line_feeds(s.drop_last())
    } else {
        s
    }
}

/// What [`sanitize_line`] returns.
pub open spec fn spec_sanitize_line(s: Seq<char>) -> Seq<char> {
    trim_line_feeds(drop_cr(unify_crlf(s)))
}

/// A matched line as `rg` reports it, without its line break and any `\r`.
pub fn sanitize_line(text: &str) -> (s: String)
    ensures
        s@ == spec_sanitize_line(text@),
{
    let v = chars_of(text);
    let n = v.len();
    let mut u: Vec<char> = Vec::new();
    let mut i: usize = 0;
    assert(v@.skip(0) =~= v@);
    while i < n
        invariant
            n == v@.len(),
            i <= n,
            unify_crlf(v@) == u@ + unify_crlf(v@.skip(i as int)),
        decreases n - i,
    {
        let ghost rest = v@.skip(i as int);
        if i + 1 < n && v[i] == '\r' && v[i + 1] == '\n' {
            assert(rest[0] == '\r' && rest[1] == '\n');
            assert(rest.skip(2) =~= v@.skip(i + 2));
            u.push('\n');
            assert(u@.drop_last() + (seq!['\n'] + unify_crlf(v@.skip(i + 2))) =~= u@ + unify_crlf(v@.skip(i + 2)));
            i = i + 2;
        } else {
            assert(rest[0] == v@[i as int]);
            assert(rest.drop_first() =~= v@.skip(i + 1));
            u.push(v[i]);
            assert(u@.drop_last() + (seq![v@[i as int]] + unify_crlf(v@.skip(i + 1))) =~= u@ + unify_crlf(
                v@.skip(i + 1),
            ));
            i = i + 1;
        }
    }
    assert(u@ + unify_crlf(v@.skip(n as int)) =~= u@) by {
        assert(v@.skip(n as int).len() == 0);
    }
    let mut w: Vec<char> = Vec::new();
    let mut k: usize = 0;
    while k < u.len()
        invariant
            k <= u@.len(),
            w@ == drop_cr(u@.take(k as int)),
        decreases u@.len() - k,
    {
        assert(u@.take(k + 1).drop_last() =~= u@.take(k as int));
        if u[k] != '\r' {
            w.push(u[k]);
        }
        k = k + 1;
    }
    assert(u@.take(u@.len() as int) =~= u@);
    while w.len() > 0 && w[w.len() - 1] == '\n'
        invariant
            trim_line_feeds(w@) == trim_line_feeds(drop_cr(u@)),
        decreases w@.len(),
    {
        let ghost before = w@;
        w.pop();
        assert(w@ =~= before.drop_last());
    }
    string_of(w.as_slice())
}

/// `: {trimmed stderr}`, or nothing when stderr is blank.
pub fn detail(stderr: &str) -> (s: String)
    ensures
        s@ == (if trim(stderr@).len() == 0 {
            Seq::<char>::empty()
        } else {
            ": "@ + trim(stderr@)
        }),
{
    let v = chars_of(stderr);
    let t = trim_vec(v.as_slice());
    if t.len() == 0 {
        return String::new();
    }
    let mut m = chars_of(": ");
    append_chars(&mut m, t.as_slice());
    string_of(m.as_slice())
}

} // verus!
