//! The `grep` tool's reading of ripgrep: the JSON lines `rg --json` writes are
//! parsed into matches up to the match limit, a failed run is told by its
//! exit code, and the matches become the tool's output (a match line, or the
//! match with its context lines read from the file).
use vstd::prelude::*;

use crate::json::{json_get, json_path, json_parse, opt_str, opt_u64, parse_json, JsonValue};
use crate::search::{format_path, path_file_name, path_remainder, spec_format_path, spec_sanitize_line, sanitize_line};
use crate::text::{
    append_chars, chars_of, dec, decimal, eq_chars, is_blank, is_blank_exec, join, join_exec, lines_view, string_of,
    trim, trim_vec,
};
use crate::turn::ToolOutput;

verus! {

/// The match limit when the call gives none.
pub const GREP_DEFAULT_LIMIT: usize = 100;

/// The match limit of a call: the one asked for (at least one), else
/// [`GREP_DEFAULT_LIMIT`].
pub fn grep_limit(requested: Option<usize>) -> (n: usize)
    ensures
        n == match requested {
            Some(k) => if k >= 1 {
                k
            } else {
                1
            },
            None => GREP_DEFAULT_LIMIT,
        },
{
    match requested {
        Some(k) => if k >= 1 {
            k
        } else {
            1
        },
        None => GREP_DEFAULT_LIMIT,
    }
}

/// One match that ripgrep reported: the file, the line number, and the
/// line's text when ripgrep gave it as text.
#[derive(Debug, Clone, PartialEq, Eq)]
pub struct GrepMatch {
    pub path: String,
    pub line: u64,
    pub text: Option<String>,
}

pub open spec fn opt_view(o: Option<String>) -> Option<Seq<char>> {
    match o {
        Some(s) => Some(s@),
        None => None,
    }
}

pub open spec fn match_view(m: GrepMatch) -> (Seq<char>, u64, Option<Seq<char>>) {
    (m.path@, m.line, opt_view(m.text))
}

/// What a parsed line of `rg --json` says: for a `match` event, its path
/// (empty where missing), line number (0 where missing) and text; nothing
/// for any other event.
pub open spec fn rg_match_of(v: JsonValue) -> Option<(Seq<char>, u64, Option<Seq<char>>)> {
    if opt_str(json_get(v, "type"@)) == Some("match"@) {
        Some(
            (
                match opt_str(json_path(v, seq!["data"@, "path"@, "text"@])) {
                    Some(p) => p,
                    None => Seq::empty(),
                },
                match opt_u64(json_path(v, seq!["data"@, "line_number"@])) {
                    Some(n) => n,
                    None => 0,
                },
                opt_str(json_path(v, seq!["data"@, "lines"@, "text"@])),
            ),
        )
    } else {
        None
    }
}

/// What one line of `rg --json` says: nothing for a blank line or a line
/// that is not JSON, else as [`rg_match_of`] says.
pub open spec fn rg_event(raw: Seq<char>) -> Option<(Seq<char>, u64, Option<Seq<char>>)> {
    if is_blank(raw) {
        None
    } else {
        match json_parse(raw) {
            Ok(v) => rg_match_of(v),
            Err(_) => None,
        }
    }
}

pub open spec fn opt_match_view(m: Option<GrepMatch>) -> Option<(Seq<char>, u64, Option<Seq<char>>)> {
    match m {
        Some(x) => Some(match_view(x)),
        None => None,
    }
}

/// The scan after one more event: every match event counts; a match with a
/// path and a line number is kept; the scan stops once the count reaches
/// the limit, and takes nothing after that.
pub open spec fn scan_event(
    st: (Seq<(Seq<char>, u64, Option<Seq<char>>)>, nat, bool),
    ev: Option<(Seq<char>, u64, Option<Seq<char>>)>,
    limit: nat,
) -> (Seq<(Seq<char>, u64, Option<Seq<char>>)>, nat, bool) {
    if st.2 {
        st
    } else {
        match ev {
            None => st,
            Some(x) => {
                let count = st.1 + 1;
                (
                    if x.0.len() > 0 && x.1 > 0 {
                        st.0.push(x)
                    } else {
                        st.0
                    },
                    count,
                    count >= limit,
                )
            },
        }
    }
}

/// The scan after one more line of output, as [`scan_event`] says of what
/// the line says.
pub open spec fn scan_step(
    st: (Seq<(Seq<char>, u64, Option<Seq<char>>)>, nat, bool),
    raw: Seq<char>,
    limit: nat,
) -> (Seq<(Seq<char>, u64, Option<Seq<char>>)>, nat, bool) {
    scan_event(st, rg_event(raw), limit)
}

/// What a parsed line of `rg --json` says, as [`rg_match_of`] says.
pub fn rg_match(v: &JsonValue) -> (r: Option<GrepMatch>)
    ensures
        opt_match_view(r) == rg_match_of(*v),
{
    let is_match = match v.get("type") {
        Some(t) => match t.as_str() {
            Some(s) => {
                let sc = chars_of(s);
                let m = chars_of("match");
                eq_chars(sc.as_slice(), m.as_slice())
            },
            None => false,
        },
        None => false,
    };
    if !is_match {
        return None;
    }
    proof {
        assert(crate::json::keys_view(seq!["data", "path", "text"]) =~= seq!["data"@, "path"@, "text"@]);
        assert(crate::json::keys_view(seq!["data", "line_number"]) =~= seq!["data"@, "line_number"@]);
        assert(crate::json::keys_view(seq!["data", "lines", "text"]) =~= seq!["data"@, "lines"@, "text"@]);
    }
    let path = match v.path(&["data", "path", "text"]) {
        Some(p) => match p.as_str() {
            Some(s) => s.to_owned(),
            None => String::new(),
        },
        None => String::new(),
    };
    let line = match v.path(&["data", "line_number"]) {
        Some(n) => match n.as_u64() {
            Some(k) => k,
            None => 0,
        },
        None => 0,
    };
    let text = match v.path(&["data", "lines", "text"]) {
        Some(p) => match p.as_str() {
            Some(s) => Some(s.to_owned()),
            None => None,
        },
        None => None,
    };
    Some(GrepMatch { path, line, text })
}

/// The scan of a whole output: matches kept, matches counted, limit reached.
pub open spec fn scan_lines(lines: Seq<Seq<char>>, limit: nat) -> (Seq<(Seq<char>, u64, Option<Seq<char>>)>, nat, bool)
    decreases lines.len(),
{
    if lines.len() == 0 {
        (Seq::empty(), 0, false)
    } else {
        scan_step(scan_lines(lines.drop_last(), limit), lines.last(), limit)
    }
}

/// Reading `rg --json` line by line.
#[derive(Debug)]
pub struct GrepScan {
    pub matches: Vec<GrepMatch>,
    pub match_count: usize,
    pub limit: usize,
    pub limit_reached: bool,
}

impl GrepScan {
    pub open spec fn state(&self) -> (Seq<(Seq<char>, u64, Option<Seq<char>>)>, nat, bool) {
        (Seq::new(self.matches@.len(), |i: int| match_view(self.matches@[i])), self.match_count as nat, self.limit_reached)
    }

    /// The count stays below the limit until it reaches it.
    pub open spec fn wf(&self) -> bool {
        &&& self.limit >= 1
        &&& !self.limit_reached ==> self.match_count < self.limit
    }

    /// A scan that has read nothing, with a limit of at least one.
    pub fn new(limit: usize) -> (s: GrepScan)
        requires
            limit >= 1,
        ensures
            s.wf(),
            s.limit == limit,
            s.state() == scan_lines(Seq::empty(), limit as nat),
    {
        let s = GrepScan { matches: Vec::new(), match_count: 0, limit, limit_reached: false };
        assert(s.state().0 =~= Seq::<(Seq<char>, u64, Option<Seq<char>>)>::empty());
        s
    }

    /// Takes one event of the output, as [`scan_event`] says; `true` once
    /// the limit is reached.
    pub fn take_event(&mut self, ev: Option<GrepMatch>) -> (stop: bool)
        requires
            old(self).wf(),
        ensures
            final(self).wf(),
            final(self).limit == old(self).limit,
            final(self).state() == scan_event(old(self).state(), opt_match_view(ev), old(self).limit as nat),
            stop == final(self).limit_reached,
    {
        if self.limit_reached {
            return true;
        }
        match ev {
            None => false,
            Some(m) => {
                self.match_count = self.match_count + 1;
                let ghost before = self.state().0;
                if !m.path.as_str().is_empty() && m.line > 0 {
                    let ghost mv = match_view(m);
                    self.matches.push(m);
                    assert(self.state().0 =~= before.push(mv));
                }
                self.limit_reached = self.match_count >= self.limit;
                self.limit_reached
            },
        }
    }

    /// Reads one line of output, as [`scan_step`] says; `true` once the
    /// limit is reached (ripgrep is then stopped).
    pub fn feed(&mut self, raw: &str) -> (stop: bool)
        requires
            old(self).wf(),
        ensures
            final(self).wf(),
            final(self).limit == old(self).limit,
            final(self).state() == scan_step(old(self).state(), raw@, old(self).limit as nat),
            stop == final(self).limit_reached,
    {
        if self.limit_reached {
            return true;
        }
        let c = chars_of(raw);
        if is_blank_exec(c.as_slice()) {
            return false;
        }
        let ev = match parse_json(raw) {
            Ok(v) => rg_match(&v),
            Err(_) => None,
        };
        self.take_event(ev)
    }
}

/// A signed number in decimal.
pub open spec fn idec(i: int) -> Seq<char> {
    if i < 0 {
        "-"@ + dec((-i) as nat)
    } else {
        dec(i as nat)
    }
}

/// The error of a ripgrep run that did not end well: one not stopped at the
/// limit whose exit code is neither 0 (matches) nor 1 (none) fails with its
/// trimmed stderr, or its exit code where stderr is blank.
pub open spec fn spec_exit_error(stopped: bool, exit_code: Option<i32>, stderr: Seq<char>) -> Option<Seq<char>> {
    if stopped || exit_code == Some(0i32) || exit_code == Some(1i32) {
        None
    } else if trim(stderr).len() > 0 {
        Some(trim(stderr))
    } else {
        Some(
            "ripgrep exited with code "@ + match exit_code {
                Some(c) => idec(c as int),
                None => "unknown"@,
            },
        )
    }
}

pub(crate) fn idec_exec(i: i32) -> (r: Vec<char>)
    ensures
        r@ == idec(i as int),
{
    if i < 0 {
        let mut v = chars_of("-");
        let m: i64 = -(i as i64);
        let d = decimal(m as u128);
        append_chars(&mut v, d.as_slice());
        v
    } else {
        decimal(i as u128)
    }
}

/// The error of a ripgrep run, as [`spec_exit_error`] says.
pub fn grep_exit_error(stopped: bool, exit_code: Option<i32>, stderr: &str) -> (r: Option<String>)
    ensures
        opt_view(r) == spec_exit_error(stopped, exit_code, stderr@),
{
    let ok = match exit_code {
        Some(c) => c == 0 || c == 1,
        None => false,
    };
    if stopped || ok {
        return None;
    }
    let s = chars_of(stderr);
    let head = trim_vec(s.as_slice());
    if head.len() > 0 {
        return Some(string_of(head.as_slice()));
    }
    let mut m = chars_of("ripgrep exited with code ");
    match exit_code {
        Some(c) => {
            let d = idec_exec(c);
            append_chars(&mut m, d.as_slice());
        },
        None => {
            let u = chars_of("unknown");
            append_chars(&mut m, u.as_slice());
        },
    }
    Some(string_of(m.as_slice()))
}

// ---------------------------------------------------------------------------
// The output
// ---------------------------------------------------------------------------

/// The lines of a file as the tool reads them for context: `\r\n` and `\r`
/// made line breaks, then split at each one.
pub open spec fn normalize_breaks(s: Seq<char>) -> Seq<char>
    decreases s.len(),
{
    if s.len() == 0 {
        s
    } else if s[0] == '\r' && s.len() > 1 && s[1] == '\n' {
        seq!['\n'] + normalize_breaks(s.skip(2))
    } else if s[0] == '\r' {
        seq!['\n'] + normalize_breaks(s.drop_first())
    } else {
        seq![s[0]] + normalize_breaks(s.drop_first())
    }
}

/// The shown path of a match file.
pub open spec fn shown(search_path: Seq<char>, is_directory: bool, file: Seq<char>) -> Seq<char> {
    spec_format_path(is_directory, file, path_remainder(file, search_path), path_file_name(file))
}

/// The head of a match line: `path:12: `.
pub open spec fn hit_head(rel: Seq<char>, line: int) -> Seq<char> {
    rel + ":"@ + dec(line as nat) + ": "@
}

/// The head of a context line: `path-12- `.
pub open spec fn context_head(rel: Seq<char>, line: int) -> Seq<char> {
    rel + "-"@ + dec(line as nat) + "- "@
}

pub open spec fn block_start(line: int, context: int) -> int {
    let s = if line >= context {
        line - context
    } else {
        0
    };
    if s >= 1 {
        s
    } else {
        1
    }
}

pub open spec fn block_end(line: int, context: int, n: int) -> int {
    if line + context <= n {
        line + context
    } else {
        n
    }
}

/// An output line as (head, text, whether the text is cut to the line
/// limit): the line is the head followed by the text.
pub type ItemView = (Seq<char>, Seq<char>, bool);

/// A match with its context: the lines from `context` before to `context`
/// after it (within the file), the match line marked with `:`, the others
/// with `-`, each text cut to the line limit; a file that could not be read
/// gives one whole line that says so.
pub open spec fn block_items(rel: Seq<char>, line: int, context: int, file: Seq<Seq<char>>) -> Seq<ItemView> {
    if file.len() == 0 {
        seq![(rel + ":"@ + dec(line as nat) + ": (unable to read file)"@, Seq::<char>::empty(), false)]
    } else {
        let start = block_start(line, context);
        let end = block_end(line, context, file.len() as int);
        Seq::new(
            if end >= start {
                (end - start + 1) as nat
            } else {
                0
            },
            |k: int|
                if start + k == line {
                    (hit_head(rel, start + k), file[start + k - 1], true)
                } else {
                    (context_head(rel, start + k), file[start + k - 1], true)
                },
        )
    }
}

/// The lines read of a file, as handed over: the first entry for the path,
/// none where there is no entry.
pub open spec fn file_of(files: Seq<(Seq<char>, Seq<Seq<char>>)>, path: Seq<char>) -> Seq<Seq<char>>
    decreases files.len(),
{
    if files.len() == 0 {
        Seq::empty()
    } else if files[0].0 == path {
        files[0].1
    } else {
        file_of(files.drop_first(), path)
    }
}

/// The output lines of one match: the match line with its text where no
/// context is asked for and ripgrep gave the text; else the match with its
/// context read from the file.
pub open spec fn match_items(
    search_path: Seq<char>,
    is_directory: bool,
    context: int,
    files: Seq<(Seq<char>, Seq<Seq<char>>)>,
    m: (Seq<char>, u64, Option<Seq<char>>),
) -> Seq<ItemView> {
    let rel = shown(search_path, is_directory, m.0);
    match m.2 {
        Some(t) => if context == 0 {
            seq![(hit_head(rel, m.1 as int), spec_sanitize_line(t), true)]
        } else {
            block_items(rel, m.1 as int, context, file_of(files, m.0))
        },
        None => block_items(rel, m.1 as int, context, file_of(files, m.0)),
    }
}

/// The output lines of all matches, in order.
pub open spec fn all_match_items(
    search_path: Seq<char>,
    is_directory: bool,
    context: int,
    files: Seq<(Seq<char>, Seq<Seq<char>>)>,
    ms: Seq<(Seq<char>, u64, Option<Seq<char>>)>,
) -> Seq<ItemView>
    decreases ms.len(),
{
    if ms.len() == 0 {
        Seq::empty()
    } else {
        all_match_items(search_path, is_directory, context, files, ms.drop_last()) + match_items(
            search_path,
            is_directory,
            context,
            files,
            ms.last(),
        )
    }
}

/// The context asked for: none unless more than zero lines.
pub open spec fn context_of(requested: Option<usize>) -> int {
    match requested {
        Some(c) => c as int,
        None => 0,
    }
}

/// What a grep call answers before its lines are put together, from
/// ripgrep's output (read up to where the scan stopped) and its exit: the
/// run's error (as [`spec_exit_error`] says), or `No matches found` when
/// nothing matched (`true` marks an error); `None` where there are lines.
pub open spec fn spec_grep_outcome(
    rg_lines: Seq<Seq<char>>,
    limit: nat,
    exit_code: Option<i32>,
    stderr: Seq<char>,
) -> Option<(bool, Seq<char>)> {
    let (ms, count, reached) = scan_lines(rg_lines, limit);
    match spec_exit_error(reached, exit_code, stderr) {
        Some(e) => Some((true, e)),
        None => if count == 0 {
            Some((false, "No matches found"@))
        } else {
            None
        },
    }
}

/// The lines of a grep call that has lines: those of each match kept by the
/// scan, in order.
pub open spec fn spec_grep_items(
    search_path: Seq<char>,
    is_directory: bool,
    rg_lines: Seq<Seq<char>>,
    limit: nat,
    context: int,
    files: Seq<(Seq<char>, Seq<Seq<char>>)>,
) -> Seq<ItemView> {
    all_match_items(search_path, is_directory, context, files, scan_lines(rg_lines, limit).0)
}

/// The longest text a grep output line shows before it is cut.
pub const GREP_MAX_LINE_LENGTH: usize = 500;

/// The notices of a grep output: the match limit, the byte limit (as the
/// size format writes it) and cut lines, each where it applies.
pub open spec fn grep_notices(limit: nat, limit_reached: bool, bytes_cut: bool, size: Seq<char>, lines_cut: bool) -> Seq<
    Seq<char>,
> {
    let a: Seq<Seq<char>> = if limit_reached {
        seq![dec(limit) + " matches limit reached. Use limit="@ + dec(limit * 2) + " for more, or refine pattern"@]
    } else {
        Seq::empty()
    };
    let b = if bytes_cut {
        a.push(size + " limit reached"@)
    } else {
        a
    };
    if lines_cut {
        b.push("Some lines truncated to "@ + dec(GREP_MAX_LINE_LENGTH as nat) + " chars. Use read tool to see full lines"@)
    } else {
        b
    }
}

/// A grep output: the joined lines as the byte limit left them, then the
/// notices, where there are any, after a blank line in brackets, joined by
/// `. `.
pub open spec fn spec_grep_output(
    kept: Seq<char>,
    limit: nat,
    limit_reached: bool,
    bytes_cut: bool,
    size: Seq<char>,
    lines_cut: bool,
) -> Seq<char> {
    let n = grep_notices(limit, limit_reached, bytes_cut, size, lines_cut);
    if n.len() == 0 {
        kept
    } else {
        kept + "\n\n["@ + join(n, ". "@) + "]"@
    }
}

pub open spec fn strings_view(v: Seq<String>) -> Seq<Seq<char>> {
    Seq::new(v.len(), |i: int| v[i]@)
}

pub open spec fn files_view(f: Seq<(String, Vec<String>)>) -> Seq<(Seq<char>, Seq<Seq<char>>)> {
    Seq::new(f.len(), |i: int| (f[i].0@, strings_view(f[i].1@)))
}

/// The lines of a file's text, as [`normalize_breaks`] and a split at `\n`
/// give them.
pub fn file_lines_of(content: &str) -> (r: Vec<String>)
    ensures
        strings_view(r@) == crate::text::split_on(normalize_breaks(content@), '\n'),
{
    let c = chars_of(content);
    let ghost cv = c@;
    let mut norm: Vec<char> = Vec::new();
    let mut i: usize = 0;
    assert(cv.skip(0) =~= cv);
    while i < c.len()
        invariant
            i <= c@.len(),
            cv == c@,
            norm@ + normalize_breaks(cv.skip(i as int)) == normalize_breaks(cv),
        decreases c@.len() - i,
    {
        let ghost rest = cv.skip(i as int);
        if c[i] == '\r' && i + 1 < c.len() && c[i + 1] == '\n' {
            assert(rest.skip(2) =~= cv.skip(i + 2));
            norm.push('\n');
            assert(norm@ + normalize_breaks(cv.skip(i + 2)) =~= norm@.drop_last() + normalize_breaks(rest));
            i = i + 2;
        } else {
            assert(rest.drop_first() =~= cv.skip(i + 1));
            if c[i] == '\r' {
                norm.push('\n');
            } else {
                norm.push(c[i]);
            }
            assert(norm@ + normalize_breaks(cv.skip(i + 1)) =~= norm@.drop_last() + normalize_breaks(rest));
            i = i + 1;
        }
    }
    assert(cv.skip(i as int) =~= Seq::<char>::empty());
    assert(norm@ + Seq::<char>::empty() =~= norm@);
    let parts = crate::text::split_on_exec(norm.as_slice(), '\n');
    let mut out: Vec<String> = Vec::new();
    let mut k: usize = 0;
    while k < parts.len()
        invariant
            k <= parts@.len(),
            out@.len() == k,
            forall|q: int| 0 <= q < k ==> #[trigger] out@[q]@ == parts@[q]@,
        decreases parts@.len() - k,
    {
        out.push(string_of(parts[k].as_slice()));
        k = k + 1;
    }
    assert(strings_view(out@) =~= lines_view(parts@));
    out
}

fn file_of_exec<'a>(files: &'a Vec<(String, Vec<String>)>, path: &[char]) -> (r: Option<&'a Vec<String>>)
    ensures
        match r {
            Some(v) => file_of(files_view(files@), path@) == strings_view(v@),
            None => file_of(files_view(files@), path@) == Seq::<Seq<char>>::empty(),
        },
{
    let ghost fv = files_view(files@);
    let mut i: usize = 0;
    assert(fv.skip(0) =~= fv);
    while i < files.len()
        invariant
            i <= files@.len(),
            fv == files_view(files@),
            file_of(fv, path@) == file_of(fv.skip(i as int), path@),
        decreases files@.len() - i,
    {
        assert(fv.skip(i as int)[0] == fv[i as int]);
        assert(fv.skip(i as int).drop_first() =~= fv.skip(i + 1));
        let c = chars_of(files[i].0.as_str());
        if eq_chars(c.as_slice(), path) {
            return Some(&files[i].1);
        }
        i = i + 1;
    }
    assert(fv.skip(i as int) =~= Seq::<(Seq<char>, Seq<Seq<char>>)>::empty());
    None
}

fn line_with(rel: &[char], sep: &str, line: u128, sep2: &str, text: &[char]) -> (r: Vec<char>)
    ensures
        r@ == rel@ + sep@ + dec(line as nat) + sep2@ + text@,
{
    let mut v = vstd::slice::slice_to_vec(rel);
    let a = chars_of(sep);
    append_chars(&mut v, a.as_slice());
    let d = decimal(line);
    append_chars(&mut v, d.as_slice());
    let b = chars_of(sep2);
    append_chars(&mut v, b.as_slice());
    append_chars(&mut v, text);
    v
}

/// An output line of a grep call: the head (`path:12: ` or `path-12- `)
/// and the text after it; `cut` says whether the text is cut to the line
/// limit (the line of a file that could not be read is not).
#[derive(Debug, Clone, PartialEq, Eq)]
pub struct ShownLine {
    pub head: String,
    pub text: String,
    pub cut: bool,
}

pub open spec fn items_view(v: Seq<ShownLine>) -> Seq<ItemView> {
    Seq::new(v.len(), |i: int| (v[i].head@, v[i].text@, v[i].cut))
}

fn shown_line(head: Vec<char>, text: &[char], cut: bool) -> (r: ShownLine)
    ensures
        (r.head@, r.text@, r.cut) == (head@, text@, cut),
{
    ShownLine { head: string_of(head.as_slice()), text: string_of(text), cut }
}

/// Appends a match's block, as [`block_items`] says.
fn push_block(out: &mut Vec<ShownLine>, rel: &[char], line: u64, context: usize, file: Option<&Vec<String>>)
    ensures
        items_view(final(out)@) == items_view(old(out)@) + block_items(
            rel@,
            line as int,
            context as int,
            match file {
                Some(v) => strings_view(v@),
                None => Seq::<Seq<char>>::empty(),
            },
        ),
{
    let ghost start = items_view(out@);
    let empty: Vec<String> = Vec::new();
    let f: &Vec<String> = match file {
        Some(v) => v,
        None => &empty,
    };
    let ghost fv = strings_view(f@);
    assert(fv == match file {
        Some(v) => strings_view(v@),
        None => Seq::<Seq<char>>::empty(),
    });
    let nothing: Vec<char> = Vec::new();
    if f.len() == 0 {
        let v = line_with(rel, ":", line as u128, ": (unable to read file)", nothing.as_slice());
        assert(v@ =~= rel@ + ":"@ + dec(line as nat) + ": (unable to read file)"@);
        let item = shown_line(v, nothing.as_slice(), false);
        out.push(item);
        assert(items_view(out@) =~= start + block_items(rel@, line as int, context as int, fv));
        return;
    }
    let l = line as u128;
    let c = context as u128;
    let n = f.len() as u128;
    let s0 = if l >= c {
        l - c
    } else {
        0
    };
    let first = if s0 >= 1 {
        s0
    } else {
        1
    };
    let last = if l + c <= n {
        l + c
    } else {
        n
    };
    let ghost bl = block_items(rel@, line as int, context as int, fv);
    let mut cur = first;
    assert(first == block_start(line as int, context as int));
    assert(last == block_end(line as int, context as int, fv.len() as int));
    if first > last {
        assert(bl =~= Seq::<ItemView>::empty());
        assert(items_view(out@) =~= start + bl);
        return;
    }
    while cur <= last
        invariant
            first <= cur,
            first >= 1,
            last <= n,
            l == line as u128,
            n == f@.len(),
            n <= usize::MAX,
            fv == strings_view(f@),
            cur <= last + 1,
            bl == block_items(rel@, line as int, context as int, fv),
            fv.len() > 0,
            first == block_start(line as int, context as int),
            last == block_end(line as int, context as int, fv.len() as int),
            items_view(out@) == start + bl.take((cur - first) as int),
            nothing@ == Seq::<char>::empty(),
        decreases last + 1 - cur,
    {
        assert(cur - 1 < f@.len());
        let idx = (cur - 1) as usize;
        assert(idx as int == cur - 1);
        let t = chars_of(f[idx].as_str());
        assert(t@ == fv[cur - 1]);
        let h = if cur == l {
            line_with(rel, ":", cur, ": ", nothing.as_slice())
        } else {
            line_with(rel, "-", cur, "- ", nothing.as_slice())
        };
        let item = shown_line(h, t.as_slice(), true);
        let ghost iv = (item.head@, item.text@, item.cut);
        let ghost before = items_view(out@);
        out.push(item);
        assert(bl.len() == last - first + 1);
        let ghost k = (cur - first) as int;
        assert(first + k == cur);
        let ghost li = line as int;
        let ghost fi = first as int;
        assert(bl == Seq::new(
            (last - first + 1) as nat,
            |q: int|
                if fi + q == li {
                    (hit_head(rel@, fi + q), fv[fi + q - 1], true)
                } else {
                    (context_head(rel@, fi + q), fv[fi + q - 1], true)
                },
        ));
        assert(0 <= k < bl.len());
        if cur == l {
            assert(fi + k == li);
            assert(h@ =~= hit_head(rel@, cur as int));
            assert(bl[k] == (hit_head(rel@, cur as int), fv[cur - 1], true));
        } else {
            assert(h@ =~= context_head(rel@, cur as int));
            assert(bl[k] == (context_head(rel@, cur as int), fv[cur - 1], true));
        }
        assert(bl[(cur - first) as int] == iv);
        assert(bl.take((cur + 1 - first) as int) =~= bl.take((cur - first) as int).push(iv));
        assert(items_view(out@) =~= before.push(iv));
        cur = cur + 1;
    }
    assert(bl.take((cur - first) as int) =~= bl);
}

/// What a grep call answers before its lines are cut and put together.
#[derive(Debug, PartialEq)]
pub enum GrepReport {
    /// The answer: ripgrep's error, or that nothing matched.
    Done(ToolOutput),
    /// The output lines, in order, and whether the scan reached `limit`.
    Lines { lines: Vec<ShownLine>, limit: usize, limit_reached: bool },
}

/// What a grep call answers before its lines are cut and put together, as
/// [`spec_grep_outcome`] and [`spec_grep_items`] say: ripgrep's output
/// lines (up to where the scan stopped reading them), its exit code and
/// stderr, and the lines read of each file that a match needs context from.
pub fn grep_report(
    search_path: &str,
    is_directory: bool,
    rg_lines: &Vec<String>,
    limit: Option<usize>,
    context: Option<usize>,
    files: &Vec<(String, Vec<String>)>,
    exit_code: Option<i32>,
    stderr: &str,
) -> (r: GrepReport)
    ensures
        match r {
            GrepReport::Done(o) => spec_grep_outcome(
                strings_view(rg_lines@),
                grep_limit_spec(limit) as nat,
                exit_code,
                stderr@,
            ) == Some((o.is_error, o.output@)) && o.images@.len() == 0,
            GrepReport::Lines { lines, limit: lim, limit_reached } => {
                &&& spec_grep_outcome(strings_view(rg_lines@), grep_limit_spec(limit) as nat, exit_code, stderr@) is None
                &&& items_view(lines@) == spec_grep_items(
                    search_path@,
                    is_directory,
                    strings_view(rg_lines@),
                    grep_limit_spec(limit) as nat,
                    context_of(context),
                    files_view(files@),
                )
                &&& lim == grep_limit_spec(limit)
                &&& limit_reached == scan_lines(strings_view(rg_lines@), grep_limit_spec(limit) as nat).2
            },
        },
{
    let lim = grep_limit(limit);
    let ctx: usize = match context {
        Some(c) => c,
        None => 0,
    };
    let ghost lv = strings_view(rg_lines@);
    let mut scan = GrepScan::new(lim);
    let mut i: usize = 0;
    assert(lv.take(0) =~= Seq::<Seq<char>>::empty());
    while i < rg_lines.len()
        invariant
            i <= rg_lines@.len(),
            lv == strings_view(rg_lines@),
            scan.wf(),
            scan.limit == lim,
            scan.state() == scan_lines(lv.take(i as int), lim as nat),
        decreases rg_lines@.len() - i,
    {
        assert(lv.take(i + 1).drop_last() =~= lv.take(i as int));
        assert(lv.take(i + 1).last() == rg_lines@[i as int]@);
        scan.feed(rg_lines[i].as_str());
        i = i + 1;
    }
    assert(lv.take(i as int) =~= lv);
    let reached = scan.limit_reached;
    match grep_exit_error(reached, exit_code, stderr) {
        Some(e) => {
            return GrepReport::Done(ToolOutput::error(e));
        },
        None => {},
    }
    if scan.match_count == 0 {
        return GrepReport::Done(ToolOutput::success("No matches found".to_owned()));
    }
    let ghost ms = scan.state().0;
    let ghost fv = files_view(files@);
    let mut out: Vec<ShownLine> = Vec::new();
    let mut k: usize = 0;
    assert(ms.take(0) =~= Seq::<(Seq<char>, u64, Option<Seq<char>>)>::empty());
    assert(items_view(out@) =~= Seq::<ItemView>::empty());
    while k < scan.matches.len()
        invariant
            k <= scan.matches@.len(),
            ms == Seq::new(scan.matches@.len(), |q: int| match_view(scan.matches@[q])),
            fv == files_view(files@),
            items_view(out@) == all_match_items(search_path@, is_directory, ctx as int, fv, ms.take(k as int)),
        decreases scan.matches@.len() - k,
    {
        let m = &scan.matches[k];
        assert(ms[k as int] == match_view(*m));
        assert(ms.take(k + 1).drop_last() =~= ms.take(k as int));
        assert(ms.take(k + 1).last() == ms[k as int]);
        let rel_s = format_path(search_path, is_directory, m.path.as_str());
        let rel = chars_of(rel_s.as_str());
        let pc = chars_of(m.path.as_str());
        let inline: Option<String> = match &m.text {
            Some(t) => if ctx == 0 {
                Some(sanitize_line(t.as_str()))
            } else {
                None
            },
            None => None,
        };
        match inline {
            Some(t) => {
                let tc = chars_of(t.as_str());
                let nothing: Vec<char> = Vec::new();
                let h = line_with(rel.as_slice(), ":", m.line as u128, ": ", nothing.as_slice());
                assert(h@ =~= hit_head(rel@, m.line as int));
                let item = shown_line(h, tc.as_slice(), true);
                let ghost iv = (item.head@, item.text@, item.cut);
                let ghost before = items_view(out@);
                out.push(item);
                assert(items_view(out@) =~= before.push(iv));
                assert(seq![iv] + Seq::<ItemView>::empty() =~= seq![iv]);
                assert(before.push(iv) =~= before + seq![iv]);
            },
            None => {
                let file = file_of_exec(files, pc.as_slice());
                push_block(&mut out, rel.as_slice(), m.line, ctx, file);
            },
        }
        k = k + 1;
    }
    assert(ms.take(k as int) =~= ms);
    GrepReport::Lines { lines: out, limit: lim, limit_reached: reached }
}

/// The output lines put together: each head followed by its text as the line
/// cut gave it (`cuts[i]`: the text kept, and whether it was cut) where the
/// text is cut, else as it is.
pub open spec fn joined_lines(items: Seq<ItemView>, cuts: Seq<(Seq<char>, bool)>) -> Seq<Seq<char>> {
    Seq::new(items.len(), |i: int| items[i].0 + if items[i].2 { cuts[i].0 } else { items[i].1 })
}

/// Whether the line cut shortened any text it applies to.
pub open spec fn any_cut(items: Seq<ItemView>, cuts: Seq<(Seq<char>, bool)>) -> bool {
    exists|i: int| 0 <= i < items.len() && items[i].2 && #[trigger] cuts[i].1
}

/// The output lines joined by `\n`, as [`joined_lines`] says, and whether
/// any line was cut.
pub fn grep_join(lines: &Vec<ShownLine>, cuts: &Vec<(String, bool)>) -> (r: (String, bool))
    requires
        cuts@.len() == lines@.len(),
    ensures
        r.0@ == join(
            joined_lines(items_view(lines@), Seq::new(cuts@.len(), |i: int| (cuts@[i].0@, cuts@[i].1))),
            seq!['\n'],
        ),
        r.1 == any_cut(items_view(lines@), Seq::new(cuts@.len(), |i: int| (cuts@[i].0@, cuts@[i].1))),
{
    let ghost iv = items_view(lines@);
    let ghost cv = Seq::new(cuts@.len(), |i: int| (cuts@[i].0@, cuts@[i].1));
    let mut parts: Vec<Vec<char>> = Vec::new();
    let mut cut_any = false;
    let mut i: usize = 0;
    while i < lines.len()
        invariant
            i <= lines@.len(),
            cuts@.len() == lines@.len(),
            iv == items_view(lines@),
            cv == Seq::new(cuts@.len(), |j: int| (cuts@[j].0@, cuts@[j].1)),
            lines_view(parts@) == joined_lines(iv, cv).take(i as int),
            cut_any == exists|j: int| 0 <= j < i && iv[j].2 && #[trigger] cv[j].1,
        decreases lines@.len() - i,
    {
        let mut p = chars_of(lines[i].head.as_str());
        if lines[i].cut {
            append_chars(&mut p, chars_of(cuts[i].0.as_str()).as_slice());
            if cuts[i].1 {
                cut_any = true;
            }
        } else {
            append_chars(&mut p, chars_of(lines[i].text.as_str()).as_slice());
        }
        let ghost before = lines_view(parts@);
        let ghost pv = p@;
        parts.push(p);
        proof {
            assert(pv == joined_lines(iv, cv)[i as int]);
            assert(lines_view(parts@) =~= before.push(pv));
            assert(joined_lines(iv, cv).take(i + 1) =~= joined_lines(iv, cv).take(i as int).push(pv));
            if iv[i as int].2 && cv[i as int].1 {
                assert(cut_any);
            }
        }
        i = i + 1;
    }
    assert(joined_lines(iv, cv).take(i as int) =~= joined_lines(iv, cv));
    let nl: Vec<char> = vec!['\n'];
    assert(nl@ =~= seq!['\n']);
    let text = join_exec(&parts, nl.as_slice());
    (string_of(text.as_slice()), cut_any)
}

/// A grep output with its notices, as [`spec_grep_output`] says: `kept` is
/// the joined lines as the byte limit left them, `bytes_cut` whether it cut
/// anything, `size` the byte limit as the size format writes it.
pub fn grep_output(kept: String, limit: usize, limit_reached: bool, bytes_cut: bool, size: &str, lines_cut: bool) -> (r:
    String)
    ensures
        r@ == spec_grep_output(kept@, limit as nat, limit_reached, bytes_cut, size@, lines_cut),
{
    let mut notices: Vec<Vec<char>> = Vec::new();
    if limit_reached {
        let mut m = decimal(limit as u128);
        append_chars(&mut m, chars_of(" matches limit reached. Use limit=").as_slice());
        append_chars(&mut m, decimal(limit as u128 * 2).as_slice());
        append_chars(&mut m, chars_of(" for more, or refine pattern").as_slice());
        notices.push(m);
    }
    let ghost a = lines_view(notices@);
    if bytes_cut {
        let mut m = chars_of(size);
        append_chars(&mut m, chars_of(" limit reached").as_slice());
        notices.push(m);
        assert(lines_view(notices@) =~= a.push(size@ + " limit reached"@));
    }
    let ghost b = lines_view(notices@);
    if lines_cut {
        let mut m = chars_of("Some lines truncated to ");
        append_chars(&mut m, decimal(GREP_MAX_LINE_LENGTH as u128).as_slice());
        append_chars(&mut m, chars_of(" chars. Use read tool to see full lines").as_slice());
        notices.push(m);
        assert(lines_view(notices@) =~= b.push(
            "Some lines truncated to "@ + dec(GREP_MAX_LINE_LENGTH as nat) + " chars. Use read tool to see full lines"@,
        ));
    }
    assert(lines_view(notices@) =~= grep_notices(limit as nat, limit_reached, bytes_cut, size@, lines_cut));
    if notices.len() == 0 {
        return kept;
    }
    let mut out = chars_of(kept.as_str());
    append_chars(&mut out, chars_of("\n\n[").as_slice());
    let joined = join_exec(&notices, chars_of(". ").as_slice());
    append_chars(&mut out, joined.as_slice());
    append_chars(&mut out, chars_of("]").as_slice());
    string_of(out.as_slice())
}

pub open spec fn grep_limit_spec(requested: Option<usize>) -> usize {
    match requested {
        Some(k) => if k >= 1 {
            k
        } else {
            1
        },
        None => GREP_DEFAULT_LIMIT,
    }
}

/// What a call with a blank pattern is answered with; `None` for a pattern
/// with something in it.
pub fn pattern_error(pattern: &str) -> (r: Option<String>)
    ensures
        is_blank(pattern@) <==> r is Some,
        r matches Some(e) ==> e@ == "pattern must not be empty"@,
{
    let p = chars_of(pattern);
    if is_blank_exec(p.as_slice()) {
        Some("pattern must not be empty".to_owned())
    } else {
        None
    }
}

/// The arguments ripgrep is run with: JSON output with line numbers, no
/// colour, hidden files searched; case folding, literal patterns and a glob
/// filter where asked for (an empty glob is none); then the pattern and the
/// path after `--`.
pub open spec fn spec_rg_args(
    pattern: Seq<char>,
    search_path: Seq<char>,
    ignore_case: bool,
    literal: bool,
    glob: Option<Seq<char>>,
) -> Seq<Seq<char>> {
    seq!["--json"@, "--line-number"@, "--color=never"@, "--hidden"@] + (if ignore_case {
        seq!["--ignore-case"@]
    } else {
        Seq::empty()
    }) + (if literal {
        seq!["--fixed-strings"@]
    } else {
        Seq::empty()
    }) + (match glob {
        Some(g) => if g.len() > 0 {
            seq!["--glob"@, g]
        } else {
            Seq::empty()
        },
        None => Seq::empty(),
    }) + seq!["--"@, pattern, search_path]
}

fn push_arg(v: &mut Vec<String>, a: &str)
    ensures
        strings_view(final(v)@) == strings_view(old(v)@).push(a@),
{
    let ghost before = strings_view(v@);
    v.push(a.to_owned());
    assert(strings_view(v@) =~= before.push(a@));
}

/// The arguments ripgrep is run with, as [`spec_rg_args`] says.
pub fn rg_args(pattern: &str, search_path: &str, ignore_case: bool, literal: bool, glob: Option<&str>) -> (r: Vec<
    String,
>)
    ensures
        strings_view(r@) == spec_rg_args(
            pattern@,
            search_path@,
            ignore_case,
            literal,
            match glob {
                Some(g) => Some(g@),
                None => None,
            },
        ),
{
    let mut v: Vec<String> = Vec::new();
    assert(strings_view(v@) =~= Seq::<Seq<char>>::empty());
    push_arg(&mut v, "--json");
    push_arg(&mut v, "--line-number");
    push_arg(&mut v, "--color=never");
    push_arg(&mut v, "--hidden");
    let ghost a0 = strings_view(v@);
    if ignore_case {
        push_arg(&mut v, "--ignore-case");
    }
    let ghost a1 = strings_view(v@);
    if literal {
        push_arg(&mut v, "--fixed-strings");
    }
    let ghost a2 = strings_view(v@);
    match glob {
        Some(g) => if !g.is_empty() {
            push_arg(&mut v, "--glob");
            push_arg(&mut v, g);
        },
        None => {},
    }
    let ghost a3 = strings_view(v@);
    push_arg(&mut v, "--");
    push_arg(&mut v, pattern);
    push_arg(&mut v, search_path);
    assert(a0 =~= seq!["--json"@, "--line-number"@, "--color=never"@, "--hidden"@]);
    assert(a1 =~= a0 + (if ignore_case {
        seq!["--ignore-case"@]
    } else {
        Seq::<Seq<char>>::empty()
    }));
    assert(a2 =~= a1 + (if literal {
        seq!["--fixed-strings"@]
    } else {
        Seq::<Seq<char>>::empty()
    }));
    assert(a3 =~= a2 + (match glob {
        Some(g) => if g@.len() > 0 {
            seq!["--glob"@, g@]
        } else {
            Seq::<Seq<char>>::empty()
        },
        None => Seq::<Seq<char>>::empty(),
    }));
    assert(strings_view(v@) =~= a3 + seq!["--"@, pattern@, search_path@]);
    v
}

} // verus!
