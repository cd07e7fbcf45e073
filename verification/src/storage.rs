//! Session storage: the identifiers that may become paths, the session record,
//! and the `provider/model` selector as stored on disk.
//!
//! A session id and an attachment name are joined into file-system paths, so
//! only a small set of characters is accepted: no separator and no `..` can
//! get through.
use vstd::prelude::*;

use crate::text::{
    append_chars, chars_of, debug_quoted, debug_str, eq_chars, find_char, is_ascii_alnum, is_ascii_alnum_exec,
    string_of,
};

verus! {

/// Why a storage request failed; callers map the kind, never the wording.
#[derive(Debug)]
pub enum StorageError {
    /// An invalid session id or attachment name (a path-traversal attempt among them).
    InvalidId(String),
    NotFound(String),
    /// Any other failure, with its message.
    Internal(String),
}

/// The message of a storage error, by kind.
pub open spec fn storage_error_text(e: StorageError) -> Seq<char> {
    match e {
        StorageError::InvalidId(m) => "invalid identifier: "@ + m@,
        StorageError::NotFound(m) => "not found: "@ + m@,
        StorageError::Internal(m) => m@,
    }
}

impl StorageError {
    /// The message, as the error is displayed.
    pub fn to_string(&self) -> (s: String)
        ensures
            s@ == storage_error_text(*self),
    {
        match self {
            StorageError::InvalidId(m) => {
                let mut v = chars_of("invalid identifier: ");
                let t = chars_of(m.as_str());
                append_chars(&mut v, t.as_slice());
                string_of(v.as_slice())
            },
            StorageError::NotFound(m) => {
                let mut v = chars_of("not found: ");
                let t = chars_of(m.as_str());
                append_chars(&mut v, t.as_slice());
                string_of(v.as_slice())
            },
            StorageError::Internal(m) => m.clone(),
        }
    }
}

/// A session id: 1 to 128 characters of `[A-Za-z0-9_-]`.
pub open spec fn valid_session_id(s: Seq<char>) -> bool {
    0 < s.len() <= 128 && forall|i: int|
        0 <= i < s.len() ==> is_ascii_alnum(#[trigger] s[i]) || s[i] == '-' || s[i] == '_'
}

/// An attachment name: 1 to 128 characters of `[A-Za-z0-9._-]`, not starting with `.`.
pub open spec fn valid_attachment_name(s: Seq<char>) -> bool {
    0 < s.len() <= 128 && s[0] != '.' && forall|i: int|
        0 <= i < s.len() ==> is_ascii_alnum(#[trigger] s[i]) || s[i] == '-' || s[i] == '_' || s[i]
            == '.'
}

pub open spec fn session_id_error(s: Seq<char>) -> Seq<char> {
    "session_id "@ + debug_str(s) + " must be 1..=128 chars of [A-Za-z0-9_-]"@
}

pub open spec fn attachment_name_error(s: Seq<char>) -> Seq<char> {
    "attachment name "@ + debug_str(s) + " must be 1..=128 chars of [A-Za-z0-9._-] and not start with '.'"@
}

/// Are all characters from `[A-Za-z0-9_-]`, and `.` too where `dot` is set?
fn all_allowed(v: &[char], dot: bool) -> (b: bool)
    ensures
        b == forall|i: int|
            0 <= i < v@.len() ==> is_ascii_alnum(#[trigger] v@[i]) || v@[i] == '-' || v@[i] == '_' || (
            dot && v@[i] == '.'),
{
    let mut i: usize = 0;
    while i < v.len()
        invariant
            i <= v@.len(),
            forall|k: int|
                0 <= k < i ==> is_ascii_alnum(#[trigger] v@[k]) || v@[k] == '-' || v@[k] == '_' || (dot
                    && v@[k] == '.'),
        decreases v@.len() - i,
    {
        let c = v[i];
        if !(is_ascii_alnum_exec(c) || c == '-' || c == '_' || (dot && c == '.')) {
            return false;
        }
        i = i + 1;
    }
    true
}

/// Accepts a session id that is safe to use as a directory name.
pub fn validate_session_id(session_id: &str) -> (r: Result<(), StorageError>)
    ensures
        r is Ok <==> valid_session_id(session_id@),
        match r {
            Err(e) => e matches StorageError::InvalidId(m) && m@ == session_id_error(session_id@),
            Ok(_) => true,
        },
{
    let v = chars_of(session_id);
    let ok = v.len() > 0 && v.len() <= 128 && all_allowed(v.as_slice(), false);
    if ok {
        Ok(())
    } else {
        let mut m = chars_of("session_id ");
        let q = debug_quoted(session_id);
        let qv = chars_of(q.as_str());
        append_chars(&mut m, qv.as_slice());
        let tail = chars_of(" must be 1..=128 chars of [A-Za-z0-9_-]");
        append_chars(&mut m, tail.as_slice());
        Err(StorageError::InvalidId(string_of(m.as_slice())))
    }
}

/// Accepts an attachment file name that stays inside the session's attachment
/// directory.
pub fn validate_attachment_name(name: &str) -> (r: Result<(), StorageError>)
    ensures
        r is Ok <==> valid_attachment_name(name@),
        match r {
            Err(e) => e matches StorageError::InvalidId(m) && m@ == attachment_name_error(name@),
            Ok(_) => true,
        },
{
    let v = chars_of(name);
    let ok = v.len() > 0 && v.len() <= 128 && v[0] != '.' && all_allowed(v.as_slice(), true);
    if ok {
        Ok(())
    } else {
        let mut m = chars_of("attachment name ");
        let q = debug_quoted(name);
        let qv = chars_of(q.as_str());
        append_chars(&mut m, qv.as_slice());
        let tail = chars_of(" must be 1..=128 chars of [A-Za-z0-9._-] and not start with '.'");
        append_chars(&mut m, tail.as_slice());
        Err(StorageError::InvalidId(string_of(m.as_slice())))
    }
}

/// A session's metadata, shared by the listing and the detail view.
#[derive(Debug, Clone)]
pub struct SessionRecord {
    pub session_id: String,
    pub workspace: String,
    pub title: String,
    pub active_model: String,
    pub active_agent: String,
    /// The session's reasoning level; empty when unset (the model's default applies).
    pub reasoning_level: String,
    pub current_leaf_id: Option<String>,
    pub created_at: i64,
    pub updated_at: i64,
    /// Whether a turn is running now (not stored; filled in for listings).
    pub is_running: bool,
}

// ---------------------------------------------------------------------------
// The model selector
// ---------------------------------------------------------------------------

/// `provider/model` split at the first `/`; without one, the provider is empty.
pub open spec fn spec_split_model(s: Seq<char>) -> (Seq<char>, Seq<char>) {
    match find_char(s, '/', 0) {
        Some(i) => (s.take(i), s.skip(i + 1)),
        None => (Seq::empty(), s),
    }
}

/// The selector for a provider and a model id.
pub open spec fn spec_join_model(provider: Seq<char>, model_id: Seq<char>) -> Seq<char> {
    if provider.len() == 0 {
        model_id
    } else {
        provider + "/"@ + model_id
    }
}

/// Splits a `provider/model` selector into provider and model id.
pub fn split_model(selector: &str) -> (r: (String, String))
    ensures
        (r.0@, r.1@) == spec_split_model(selector@),
{
    let v = chars_of(selector);
    let n = v.len();
    let mut i: usize = 0;
    while i < n
        invariant
            n == v@.len(),
            v@ == selector@,
            i <= n,
            find_char(v@, '/', 0) == find_char(v@, '/', i as int),
        decreases n - i,
    {
        if v[i] == '/' {
            let p = string_of(&v.as_slice()[0..i]);
            let m = string_of(&v.as_slice()[i + 1..n]);
            assert(v@.subrange(0, i as int) =~= v@.take(i as int));
            assert(v@.subrange(i + 1, n as int) =~= v@.skip(i + 1));
            return (p, m);
        }
        i = i + 1;
    }
    (String::new(), string_of(v.as_slice()))
}

/// Joins a provider and a model id back into a selector.
pub fn join_model(provider: &str, model_id: &str) -> (s: String)
    ensures
        s@ == spec_join_model(provider@, model_id@),
{
    let p = chars_of(provider);
    let mut v = chars_of(model_id);
    if p.len() == 0 {
        return string_of(v.as_slice());
    }
    let mut out = p;
    out.push('/');
    append_chars(&mut out, v.as_slice());
    proof {
        reveal_strlit("/");
    }
    assert(out@ =~= provider@ + "/"@ + model_id@);
    string_of(out.as_slice())
}

/// Joining the parts of a split selector gives the selector back, unless it
/// starts with `/` (then the empty provider is not written back).
pub proof fn lemma_join_split_model(s: Seq<char>)
    requires
        s.len() == 0 || s[0] != '/',
    ensures
        spec_join_model(spec_split_model(s).0, spec_split_model(s).1) == s,
{
    crate::text::lemma_find_char_bounds(s, '/', 0);
    reveal_strlit("/");
    if let Some(i) = find_char(s, '/', 0) {
        assert(i > 0);
        assert(s.take(i) + "/"@ + s.skip(i + 1) =~= s);
    }
}

/// Splitting a joined selector gives the parts back, when the provider holds no
/// `/` and is not empty, or is empty and the model id holds no `/`.
pub proof fn lemma_split_join_model(provider: Seq<char>, model_id: Seq<char>)
    requires
        forall|i: int| 0 <= i < provider.len() ==> provider[i] != '/',
        provider.len() == 0 ==> forall|i: int| 0 <= i < model_id.len() ==> model_id[i] != '/',
    ensures
        spec_split_model(spec_join_model(provider, model_id)) == (provider, model_id),
{
    reveal_strlit("/");
    let s = spec_join_model(provider, model_id);
    crate::text::lemma_find_char_bounds(s, '/', 0);
    if provider.len() == 0 {
        assert(find_char(s, '/', 0) is None);
    } else {
        assert(s[provider.len() as int] == '/');
        let i = find_char(s, '/', 0)->0;
        if i < provider.len() {
            assert(s[i] == provider[i]);
        }
        assert(i == provider.len());
        assert(s.take(i) =~= provider);
        assert(s.skip(i + 1) =~= model_id);
    }
}

// ---------------------------------------------------------------------------
// Listing sessions
// ---------------------------------------------------------------------------

/// Is the session listed for this workspace filter (none lists all)?
pub open spec fn in_workspace(r: SessionRecord, workspace: Option<Seq<char>>) -> bool {
    match workspace {
        None => true,
        Some(w) => r.workspace@ == w,
    }
}

/// Where a record goes among records listed newest first: before the first
/// one updated no later than it.
pub open spec fn newer_position(t: Seq<SessionRecord>, r: SessionRecord, k: int) -> int
    decreases t.len() - k,
{
    if k < 0 || k >= t.len() {
        t.len() as int
    } else if t[k].updated_at <= r.updated_at {
        k
    } else {
        newer_position(t, r, k + 1)
    }
}

/// The sessions of the workspace (or all), most recently updated first;
/// sessions updated at the same time in the order they were read.
pub open spec fn newest_first(s: Seq<SessionRecord>, workspace: Option<Seq<char>>) -> Seq<SessionRecord>
    decreases s.len(),
{
    if s.len() == 0 {
        s
    } else {
        let t = newest_first(s.drop_first(), workspace);
        if in_workspace(s[0], workspace) {
            let k = newer_position(t, s[0], 0);
            t.take(k).push(s[0]) + t.skip(k)
        } else {
            t
        }
    }
}

proof fn lemma_newer_position(t: Seq<SessionRecord>, r: SessionRecord, k: int, pos: int)
    requires
        0 <= k <= pos <= t.len(),
        forall|j: int| k <= j < pos ==> (#[trigger] t[j]).updated_at > r.updated_at,
        pos < t.len() ==> t[pos].updated_at <= r.updated_at,
    ensures
        newer_position(t, r, k) == pos,
    decreases pos - k,
{
    if k < pos {
        lemma_newer_position(t, r, k + 1, pos);
    }
}

/// The sessions a listing shows, as [`newest_first`] says, from the records
/// read in directory order.
pub fn list_order(records: Vec<SessionRecord>, workspace: Option<&str>) -> (r: Vec<SessionRecord>)
    ensures
        r@ == newest_first(
            records@,
            match workspace {
                Some(w) => Some(w@),
                None => None,
            },
        ),
{
    let ghost s = records@;
    let ghost ws = match workspace {
        Some(w) => Some(w@),
        None => None::<Seq<char>>,
    };
    let wanted: Option<Vec<char>> = match workspace {
        Some(w) => Some(chars_of(w)),
        None => None,
    };
    let mut rest = records;
    let mut out: Vec<SessionRecord> = Vec::new();
    assert(s.skip(s.len() as int) =~= Seq::<SessionRecord>::empty());
    assert(rest@ =~= s.take(s.len() as int));
    while rest.len() > 0
        invariant
            rest@.len() <= s.len(),
            rest@ == s.take(rest@.len() as int),
            out@ == newest_first(s.skip(rest@.len() as int), ws),
            wanted matches Some(w) ==> ws == Some(w@),
            wanted is None ==> ws is None,
        decreases rest@.len(),
    {
        let n = rest.len();
        let x = rest.pop().unwrap();
        proof {
            assert(x == s[n - 1]);
            assert(rest@ =~= s.take(n - 1));
            assert(s.skip(n - 1).drop_first() =~= s.skip(n as int));
            assert(s.skip(n - 1)[0] == x);
        }
        let keep = match &wanted {
            None => true,
            Some(w) => eq_chars(w.as_slice(), chars_of(x.workspace.as_str()).as_slice()),
        };
        if keep {
            let ghost t = out@;
            let mut pos: usize = 0;
            while pos < out.len() && out[pos].updated_at > x.updated_at
                invariant
                    pos <= out@.len(),
                    t == out@,
                    forall|j: int| 0 <= j < pos ==> (#[trigger] t[j]).updated_at > x.updated_at,
                decreases out@.len() - pos,
            {
                pos = pos + 1;
            }
            proof {
                lemma_newer_position(t, x, 0, pos as int);
            }
            out.insert(pos, x);
            assert(out@ =~= t.take(pos as int).push(x) + t.skip(pos as int));
        }
    }
    assert(s.skip(0) =~= s);
    out
}

proof fn lemma_newer_position_bounds(t: Seq<SessionRecord>, r: SessionRecord, k: int)
    requires
        0 <= k <= t.len(),
        forall|i: int| 0 <= i < k ==> (#[trigger] t[i]).updated_at > r.updated_at,
    ensures
        k <= newer_position(t, r, k) <= t.len(),
        forall|i: int| 0 <= i < newer_position(t, r, k) ==> (#[trigger] t[i]).updated_at > r.updated_at,
        newer_position(t, r, k) < t.len() ==> t[newer_position(t, r, k)].updated_at <= r.updated_at,
    decreases t.len() - k,
{
    if k < t.len() && t[k].updated_at > r.updated_at {
        lemma_newer_position_bounds(t, r, k + 1);
    }
}

/// A listing shows only the workspace's sessions (all, without a filter),
/// most recently updated first.
pub proof fn lemma_listing_newest_first(s: Seq<SessionRecord>, workspace: Option<Seq<char>>)
    ensures
        forall|i: int, j: int|
            0 <= i < j < newest_first(s, workspace).len() ==> (#[trigger] newest_first(s, workspace)[i]).updated_at
                >= (#[trigger] newest_first(s, workspace)[j]).updated_at,
        forall|i: int|
            0 <= i < newest_first(s, workspace).len() ==> in_workspace(#[trigger] newest_first(s, workspace)[i], workspace),
    decreases s.len(),
{
    if s.len() > 0 {
        let t = newest_first(s.drop_first(), workspace);
        lemma_listing_newest_first(s.drop_first(), workspace);
        if in_workspace(s[0], workspace) {
            let r = s[0];
            lemma_newer_position_bounds(t, r, 0);
            let k = newer_position(t, r, 0);
            let u = t.take(k).push(r) + t.skip(k);
            assert(newest_first(s, workspace) == u);
            assert forall|i: int, j: int| 0 <= i < j < u.len() implies u[i].updated_at >= u[j].updated_at by {
                if j < k {
                    assert(u[i] == t[i] && u[j] == t[j]);
                } else if j == k {
                    assert(u[j] == r && u[i] == t[i]);
                } else if i < k {
                    assert(u[i] == t[i] && u[j] == t[j - 1]);
                } else if i == k {
                    assert(u[i] == r && u[j] == t[j - 1]);
                    assert(t[k].updated_at <= r.updated_at);
                    if j - 1 > k {
                        assert(t[k].updated_at >= t[j - 1].updated_at);
                    }
                } else {
                    assert(u[i] == t[i - 1] && u[j] == t[j - 1]);
                }
            }
            assert forall|i: int| 0 <= i < u.len() implies in_workspace(#[trigger] u[i], workspace) by {
                if i < k {
                    assert(u[i] == t[i]);
                } else if i > k {
                    assert(u[i] == t[i - 1]);
                }
            }
        }
    }
}

/// The first session, from `k` on, with this id.
pub open spec fn first_with_id(s: Seq<SessionRecord>, id: Seq<char>, k: int) -> Option<int>
    decreases s.len() - k,
{
    if k < 0 || k >= s.len() {
        None
    } else if s[k].session_id@ == id {
        Some(k)
    } else {
        first_with_id(s, id, k + 1)
    }
}

/// The session to join: the one asked for by id where it is listed, else
/// the first listed one (a session deleted elsewhere does not turn into a
/// new one).
pub open spec fn pick_index(s: Seq<SessionRecord>, wanted: Option<Seq<char>>) -> Option<int> {
    let found = match wanted {
        Some(w) => first_with_id(s, w, 0),
        None => None,
    };
    match found {
        Some(i) => Some(i),
        None => if s.len() > 0 {
            Some(0)
        } else {
            None
        },
    }
}

/// The session to join, as [`pick_index`] says.
pub fn pick_session<'a>(sessions: &'a [SessionRecord], wanted: Option<&str>) -> (r: Option<&'a SessionRecord>)
    ensures
        ({
            let p = pick_index(
                sessions@,
                match wanted {
                    Some(w) => Some(w@),
                    None => None,
                },
            );
            &&& p is None ==> r is None
            &&& p matches Some(i) ==> r matches Some(x) && *x == sessions@[i]
        }),
{
    let ghost s = sessions@;
    if let Some(w) = wanted {
        let wc = chars_of(w);
        let mut k: usize = 0;
        while k < sessions.len()
            invariant
                k <= s.len(),
                s == sessions@,
                wanted == Some(w),
                wc@ == w@,
                first_with_id(s, w@, 0) == first_with_id(s, w@, k as int),
            decreases s.len() - k,
        {
            if eq_chars(wc.as_slice(), chars_of(sessions[k].session_id.as_str()).as_slice()) {
                assert(first_with_id(s, w@, k as int) == Some(k as int));
                return Some(&sessions[k]);
            }
            k = k + 1;
        }
        assert(first_with_id(s, w@, k as int) is None);
    }
    if sessions.len() > 0 {
        Some(&sessions[0])
    } else {
        None
    }
}

} // verus!
