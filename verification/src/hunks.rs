//! Hunks: the `@@` sections of an `*** Update File:` body.
use vstd::prelude::*;

use crate::apply_patch::{begin_marker, end_marker, line_error, prepend_ok, PatchError};
use crate::text::{
    ascii_lower, ascii_lower_exec, append_chars, chars_of, dec, decimal, eq_chars, is_blank,
    is_blank_exec, join, join_exec, lines_view, parse_usize, parse_usize_exec, split_on,
    split_on_exec, starts_with, starts_with_exec, string_of, strings_of, strip_prefix, strip_prefix_exec,
    strip_suffix, strip_suffix_exec, trim, trim_end, trim_end_vec, trim_start, trim_start_vec,
    trim_vec, words, words_exec, find_from, find_from_exec,
};

verus! {

/// One `@@` section.
#[derive(Debug, Clone, PartialEq, Eq)]
pub struct Hunk {
    /// The locating context given after `@@` (several lines joined with `\n`).
    pub context: Option<String>,
    /// The 1-based old line number hinted by `@@ -n` or `@@ line n`.
    pub old_start_line: Option<usize>,
    /// Whether the section holds unchanged context lines.
    pub has_context_lines: bool,
    /// The old lines expected in the file.
    pub old_lines: Vec<String>,
    /// The lines that replace them.
    pub new_lines: Vec<String>,
    /// Whether the section ends with `*** End of File`.
    pub is_end_of_file: bool,
}

/// The mathematical content of a [`Hunk`].
pub struct HunkView {
    pub context: Option<Seq<char>>,
    pub old_start_line: Option<usize>,
    pub has_context_lines: bool,
    pub old_lines: Seq<Seq<char>>,
    pub new_lines: Seq<Seq<char>>,
    pub is_end_of_file: bool,
}

pub open spec fn strings_view(v: Seq<String>) -> Seq<Seq<char>> {
    Seq::new(v.len(), |i: int| v[i]@)
}

pub open spec fn opt_string_view(o: Option<String>) -> Option<Seq<char>> {
    match o {
        Some(s) => Some(s@),
        None => None,
    }
}

impl View for Hunk {
    type V = HunkView;

    open spec fn view(&self) -> HunkView {
        HunkView {
            context: opt_string_view(self.context),
            old_start_line: self.old_start_line,
            has_context_lines: self.has_context_lines,
            old_lines: strings_view(self.old_lines@),
            new_lines: strings_view(self.new_lines@),
            is_end_of_file: self.is_end_of_file,
        }
    }
}

pub open spec fn hunks_view(v: Seq<Hunk>) -> Seq<HunkView> {
    Seq::new(v.len(), |i: int| v[i]@)
}

// ---------------------------------------------------------------------------
// Line classes
// ---------------------------------------------------------------------------

/// A diff content line: starts with ` `, `+` or `-`, and is not a `+++ `/`--- ` header.
pub open spec fn is_diff_content_line(l: Seq<char>) -> bool {
    l.len() > 0 && (l[0] == ' ' || (l[0] == '+' && !starts_with(l, "+++ "@)) || (l[0] == '-'
        && !starts_with(l, "--- "@)))
}

/// A unified-diff metadata line (`diff --git`, `index`, `---`, `+++`, modes, renames...).
pub open spec fn is_metadata_line(t: Seq<char>) -> bool {
    starts_with(t, "diff --git "@) || starts_with(t, "index "@) || starts_with(t, "--- "@)
        || starts_with(t, "+++ "@) || starts_with(t, "new file mode "@) || starts_with(
        t,
        "deleted file mode "@,
    ) || starts_with(t, "rename from "@) || starts_with(t, "rename to "@) || starts_with(
        t,
        "similarity index "@,
    ) || starts_with(t, "dissimilarity index "@) || starts_with(t, "old mode "@) || starts_with(
        t,
        "new mode "@,
    )
}

fn starts_with_lit(l: &[char], lit: &str) -> (b: bool)
    ensures
        b == starts_with(l@, lit@),
{
    let p = chars_of(lit);
    starts_with_exec(l, p.as_slice())
}

fn eq_lit(l: &[char], lit: &str) -> (b: bool)
    ensures
        b == (l@ == lit@),
{
    let p = chars_of(lit);
    eq_chars(l, p.as_slice())
}

fn is_diff_content_line_exec(l: &[char]) -> (b: bool)
    ensures
        b == is_diff_content_line(l@),
{
    if l.len() == 0 {
        return false;
    }
    let c = l[0];
    c == ' ' || (c == '+' && !starts_with_lit(l, "+++ ")) || (c == '-' && !starts_with_lit(
        l,
        "--- ",
    ))
}

fn is_metadata_line_exec(t: &[char]) -> (b: bool)
    ensures
        b == is_metadata_line(t@),
{
    starts_with_lit(t, "diff --git ") || starts_with_lit(t, "index ") || starts_with_lit(t, "--- ")
        || starts_with_lit(t, "+++ ") || starts_with_lit(t, "new file mode ") || starts_with_lit(
        t,
        "deleted file mode ",
    ) || starts_with_lit(t, "rename from ") || starts_with_lit(t, "rename to ")
        || starts_with_lit(t, "similarity index ") || starts_with_lit(t, "dissimilarity index ")
        || starts_with_lit(t, "old mode ") || starts_with_lit(t, "new mode ")
}

// ---------------------------------------------------------------------------
// Normalising a section body
// ---------------------------------------------------------------------------

/// Drop trailing lines that are empty, or blank without being content lines.
pub open spec fn pop_trailing(lines: Seq<Seq<char>>) -> Seq<Seq<char>>
    decreases lines.len(),
{
    if lines.len() > 0 && (lines.last().len() == 0 || (is_blank(lines.last())
        && !is_diff_content_line(lines.last()))) {
        pop_trailing(lines.drop_last())
    } else {
        lines
    }
}

pub open spec fn is_envelope_marker(l: Seq<char>) -> bool {
    trim(l) == begin_marker() || trim(l) == end_marker()
}

pub open spec fn keep_line(l: Seq<char>) -> bool {
    is_diff_content_line(l) || !is_metadata_line(trim(l))
}

/// The lines that survive the metadata filter.
pub open spec fn keep_lines(lines: Seq<Seq<char>>) -> Seq<Seq<char>>
    decreases lines.len(),
{
    if lines.len() == 0 {
        lines
    } else if keep_line(lines.last()) {
        keep_lines(lines.drop_last()).push(lines.last())
    } else {
        keep_lines(lines.drop_last())
    }
}

/// The body's lines without wrapper markers, metadata and trailing blank lines.
pub open spec fn normalized_lines(body: Seq<char>) -> Seq<Seq<char>> {
    let a = pop_trailing(split_on(body, '\n'));
    let b = if a.len() > 0 && is_envelope_marker(a[0]) {
        a.drop_first()
    } else {
        a
    };
    let c = if b.len() > 0 && is_envelope_marker(b.last()) {
        b.drop_last()
    } else {
        b
    };
    keep_lines(c)
}

/// The normalised body.
pub open spec fn normalize_diff(body: Seq<char>) -> Seq<char> {
    join(normalized_lines(body), seq!['\n'])
}

fn is_envelope_marker_exec(l: &[char]) -> (b: bool)
    ensures
        b == is_envelope_marker(l@),
{
    let t = trim_vec(l);
    eq_lit(t.as_slice(), "*** Begin Patch") || eq_lit(t.as_slice(), "*** End Patch")
}

fn normalize_diff_exec(body: &[char]) -> (r: Vec<char>)
    ensures
        r@ == normalize_diff(body@),
{
    let mut lines = split_on_exec(body, '\n');
    let ghost all = split_on(body@, '\n');
    loop
        invariant
            pop_trailing(all) == pop_trailing(lines_view(lines@)),
        ensures
            pop_trailing(all) == lines_view(lines@),
        decreases lines@.len(),
    {
        let n = lines.len();
        if n == 0 {
            assert(lines_view(lines@) =~= Seq::<Seq<char>>::empty());
            break;
        }
        let drop = lines[n - 1].len() == 0 || (is_blank_exec(lines[n - 1].as_slice())
            && !is_diff_content_line_exec(lines[n - 1].as_slice()));
        assert(lines_view(lines@).last() == lines@[n - 1]@);
        if !drop {
            break;
        }
        proof {
            assert(lines_view(lines@).last() == lines@[n - 1]@);
            assert(lines_view(lines@).drop_last() =~= lines_view(lines@.drop_last()));
        }
        lines.pop();
    }
    let ghost a = lines_view(lines@);
    assert(a == pop_trailing(all));
    if lines.len() > 0 && is_envelope_marker_exec(lines[0].as_slice()) {
        assert(lines_view(lines@)[0] == lines@[0]@);
        lines.remove(0);
        assert(lines_view(lines@) =~= a.drop_first());
    }
    let ghost b = lines_view(lines@);
    let n = lines.len();
    if n > 0 && is_envelope_marker_exec(lines[n - 1].as_slice()) {
        assert(lines_view(lines@).last() == lines@[n - 1]@);
        lines.pop();
        assert(lines_view(lines@) =~= b.drop_last());
    }
    let ghost c = lines_view(lines@);
    let mut kept: Vec<Vec<char>> = Vec::new();
    let mut i: usize = 0;
    assert(c.take(0) =~= Seq::<Seq<char>>::empty());
    while i < lines.len()
        invariant
            i <= lines@.len(),
            c == lines_view(lines@),
            lines_view(kept@) == keep_lines(c.take(i as int)),
        decreases lines@.len() - i,
    {
        let l = &lines[i];
        let t = trim_vec(l.as_slice());
        let keep = is_diff_content_line_exec(l.as_slice()) || !is_metadata_line_exec(t.as_slice());
        proof {
            assert(c.take(i + 1).drop_last() =~= c.take(i as int));
            assert(c.take(i + 1).last() == lines@[i as int]@);
        }
        if keep {
            let ghost before = lines_view(kept@);
            kept.push(vstd::slice::slice_to_vec(l.as_slice()));
            assert(lines_view(kept@) =~= before.push(lines@[i as int]@));
        }
        i = i + 1;
    }
    assert(c.take(lines@.len() as int) =~= c);
    let nl: Vec<char> = vec!['\n'];
    assert(nl@ =~= seq!['\n']);
    join_exec(&kept, nl.as_slice())
}

/// Number of file markers in a section body (more than one means a multi-file body).
pub open spec fn count_file_markers(lines: Seq<Seq<char>>) -> nat
    decreases lines.len(),
{
    if lines.len() == 0 {
        0
    } else {
        count_file_markers(lines.drop_last()) + if is_file_marker_line(lines.last()) {
            1nat
        } else {
            0nat
        }
    }
}

pub open spec fn is_file_marker_line(l: Seq<char>) -> bool {
    !is_diff_content_line(l) && {
        let t = trim(l);
        starts_with(t, "*** Update File: "@) || starts_with(t, "*** Add File: "@) || starts_with(
            t,
            "*** Delete File: "@,
        ) || starts_with(t, "diff --git "@)
    }
}

fn count_file_markers_exec(lines: &Vec<Vec<char>>) -> (n: usize)
    ensures
        n as nat == count_file_markers(lines_view(lines@)),
{
    let ghost ls = lines_view(lines@);
    let mut n: usize = 0;
    let mut i: usize = 0;
    assert(ls.take(0) =~= Seq::<Seq<char>>::empty());
    while i < lines.len()
        invariant
            i <= lines@.len(),
            ls == lines_view(lines@),
            n as nat == count_file_markers(ls.take(i as int)),
            n <= i,
        decreases lines@.len() - i,
    {
        let l = &lines[i];
        let mut marker = false;
        if !is_diff_content_line_exec(l.as_slice()) {
            let t = trim_vec(l.as_slice());
            marker = starts_with_lit(t.as_slice(), "*** Update File: ") || starts_with_lit(
                t.as_slice(),
                "*** Add File: ",
            ) || starts_with_lit(t.as_slice(), "*** Delete File: ") || starts_with_lit(
                t.as_slice(),
                "diff --git ",
            );
        }
        proof {
            assert(ls.take(i + 1).drop_last() =~= ls.take(i as int));
            assert(ls.take(i + 1).last() == lines@[i as int]@);
        }
        if marker {
            n = n + 1;
        }
        i = i + 1;
    }
    assert(ls.take(lines@.len() as int) =~= ls);
    n
}

// ---------------------------------------------------------------------------
// `@@` headers
// ---------------------------------------------------------------------------

/// `str::eq_ignore_ascii_case`.
pub open spec fn eq_ignore_ascii_case(a: Seq<char>, b: Seq<char>) -> bool {
    a.len() == b.len() && forall|i: int| 0 <= i < a.len() ==> ascii_lower(a[i]) == ascii_lower(b[i])
}

fn eq_ignore_ascii_case_exec(a: &[char], lit: &str) -> (r: bool)
    ensures
        r == eq_ignore_ascii_case(a@, lit@),
{
    let b = chars_of(lit);
    if a.len() != b.len() {
        return false;
    }
    let mut i: usize = 0;
    while i < a.len()
        invariant
            a@.len() == b@.len(),
            b@ == lit@,
            i <= a@.len(),
            forall|k: int| 0 <= k < i ==> ascii_lower(a@[k]) == ascii_lower(b@[k]),
        decreases a@.len() - i,
    {
        if ascii_lower_exec(a[i]) != ascii_lower_exec(b[i]) {
            return false;
        }
        i = i + 1;
    }
    true
}

/// The text before the first `c` (all of it if there is none).
pub open spec fn first_piece(s: Seq<char>, c: char) -> Seq<char> {
    split_on(s, c)[0]
}

fn first_piece_exec(s: &[char], c: char) -> (r: Vec<char>)
    ensures
        r@ == first_piece(s@, c),
{
    let parts = split_on_exec(s, c);
    assert(lines_view(parts@)[0] == parts@[0]@);
    vstd::slice::slice_to_vec(parts[0].as_slice())
}

/// `@@ -a[,b] +c[,d] @@ [context]`: the old and new start lines and the context.
pub open spec fn parse_unified_header(header: Seq<char>) -> Option<(usize, usize, Option<Seq<char>>)> {
    match strip_prefix(header, "@@"@) {
        None => None,
        Some(rest) => match find_from(rest, "@@"@, 0) {
            None => None,
            Some(i) => {
                let body = rest.take(i);
                let tail = trim(rest.skip(i + "@@"@.len()));
                let ws = words(body);
                if ws.len() != 2 {
                    None
                } else {
                    match (strip_prefix(ws[0], "-"@), strip_prefix(ws[1], "+"@)) {
                        (Some(old), Some(new)) => match (
                            parse_usize(first_piece(old, ',')),
                            parse_usize(first_piece(new, ',')),
                        ) {
                            (Some(o), Some(n)) => Some(
                                (
                                    o,
                                    n,
                                    if tail.len() > 0 {
                                        Some(tail)
                                    } else {
                                        None
                                    },
                                ),
                            ),
                            _ => None,
                        },
                        _ => None,
                    }
                }
            },
        },
    }
}

fn parse_unified_header_exec(header: &[char]) -> (r: Option<(usize, usize, Option<Vec<char>>)>)
    ensures
        match r {
            Some((o, n, t)) => parse_unified_header(header@) == Some(
                (
                    o,
                    n,
                    match t {
                        Some(v) => Some(v@),
                        None => None::<Seq<char>>,
                    },
                ),
            ),
            None => parse_unified_header(header@) is None,
        },
{
    let at = chars_of("@@");
    let rest = match strip_prefix_exec(header, at.as_slice()) {
        Some(rest) => rest,
        None => return None,
    };
    let i = match find_from_exec(rest.as_slice(), at.as_slice(), 0) {
        Some(i) => i,
        None => return None,
    };
    proof {
        lemma_find_from_bounds(rest@, at@, 0);
    }
    assert(i + at@.len() <= rest@.len());
    let rl = rest.len();
    let body = vstd::slice::slice_to_vec(&rest.as_slice()[0..i]);
    let tail_raw = vstd::slice::slice_to_vec(&rest.as_slice()[i + at.len()..rl]);
    assert(body@ =~= rest@.take(i as int));
    assert(tail_raw@ =~= rest@.skip(i + at@.len()));
    let tail = trim_vec(tail_raw.as_slice());
    let ws = words_exec(body.as_slice());
    if ws.len() != 2 {
        return None;
    }
    assert(lines_view(ws@)[0] == ws@[0]@ && lines_view(ws@)[1] == ws@[1]@);
    let minus = chars_of("-");
    let plus = chars_of("+");
    let old = match strip_prefix_exec(ws[0].as_slice(), minus.as_slice()) {
        Some(o) => o,
        None => return None,
    };
    let new = match strip_prefix_exec(ws[1].as_slice(), plus.as_slice()) {
        Some(n) => n,
        None => return None,
    };
    let o = match parse_usize_exec(first_piece_exec(old.as_slice(), ',').as_slice()) {
        Some(o) => o,
        None => return None,
    };
    let n = match parse_usize_exec(first_piece_exec(new.as_slice(), ',').as_slice()) {
        Some(n) => n,
        None => return None,
    };
    if tail.len() > 0 {
        Some((o, n, Some(tail)))
    } else {
        Some((o, n, None))
    }
}

pub proof fn lemma_find_from_bounds(s: Seq<char>, p: Seq<char>, from: int)
    ensures
        find_from(s, p, from) matches Some(i) ==> from <= i && i + p.len() <= s.len(),
    decreases s.len() + 1 - from,
{
    if !(from < 0 || from + p.len() > s.len()) && !crate::text::occurs_at(s, p, from) {
        lemma_find_from_bounds(s, p, from + 1);
    }
}

/// `@@ line 12` / `@@ lines 12-14` (a trailing `@@` is allowed): the hinted start line.
pub open spec fn parse_line_hint(value: Seq<char>) -> Option<usize> {
    let v = trim(
        match strip_suffix(value, "@@"@) {
            Some(x) => x,
            None => value,
        },
    );
    let ws = words(v);
    if ws.len() == 0 {
        None
    } else if !eq_ignore_ascii_case(ws[0], "line"@) && !eq_ignore_ascii_case(ws[0], "lines"@) {
        None
    } else if ws.len() != 2 {
        None
    } else {
        parse_usize(trim(first_piece(ws[1], '-')))
    }
}

fn parse_line_hint_exec(value: &[char]) -> (r: Option<usize>)
    ensures
        r == parse_line_hint(value@),
{
    let at = chars_of("@@");
    let stripped = match strip_suffix_exec(value, at.as_slice()) {
        Some(x) => x,
        None => vstd::slice::slice_to_vec(value),
    };
    let v = trim_vec(stripped.as_slice());
    let ws = words_exec(v.as_slice());
    if ws.len() == 0 {
        return None;
    }
    assert(lines_view(ws@)[0] == ws@[0]@);
    if !eq_ignore_ascii_case_exec(ws[0].as_slice(), "line") && !eq_ignore_ascii_case_exec(
        ws[0].as_slice(),
        "lines",
    ) {
        return None;
    }
    if ws.len() != 2 {
        return None;
    }
    assert(lines_view(ws@)[1] == ws@[1]@);
    let start = first_piece_exec(ws[1].as_slice(), '-');
    let t = trim_vec(start.as_slice());
    parse_usize_exec(t.as_slice())
}

/// `@@ top of file` and its synonyms.
pub open spec fn is_top_of_file(v: Seq<char>) -> bool {
    eq_ignore_ascii_case(v, "top of file"@) || eq_ignore_ascii_case(v, "start of file"@)
        || eq_ignore_ascii_case(v, "beginning of file"@)
}

fn is_top_of_file_exec(v: &[char]) -> (b: bool)
    ensures
        b == is_top_of_file(v@),
{
    eq_ignore_ascii_case_exec(v, "top of file") || eq_ignore_ascii_case_exec(v, "start of file")
        || eq_ignore_ascii_case_exec(v, "beginning of file")
}

// ---------------------------------------------------------------------------
// One hunk
// ---------------------------------------------------------------------------

pub open spec fn no_lines_error() -> Seq<char> {
    "Hunk does not contain any lines"@
}

/// What the first line of a hunk says: contexts, the hinted start line, and where
/// the hunk's own lines begin.
pub struct HeaderState {
    pub contexts: Seq<Seq<char>>,
    pub old_start: Option<usize>,
    pub start: int,
}

pub open spec fn header_state(lines: Seq<Seq<char>>, ln: nat) -> Result<HeaderState, Seq<char>> {
    let header = lines[0];
    let th = trim_end(header);
    let is_header = starts_with(header, "@@"@);
    let unified = if is_header {
        parse_unified_header(th)
    } else {
        None
    };
    let empty_marker = match strip_prefix(th, "@@"@) {
        Some(r) => match strip_suffix(r, "@@"@) {
            Some(m) => is_blank(m),
            None => false,
        },
        None => false,
    };
    let none = HeaderState { contexts: Seq::empty(), old_start: None, start: 1 };
    if is_header && (th == "@@"@ || empty_marker) {
        Ok(none)
    } else if unified is Some {
        let (old, new, ctx) = unified->0;
        if old < 1 || new < 1 {
            Err(line_error(ln, "Line numbers in @@ header must be >= 1"@))
        } else {
            Ok(
                HeaderState {
                    contexts: match ctx {
                        Some(c) => seq![c],
                        None => Seq::empty(),
                    },
                    old_start: Some(old),
                    start: 1,
                },
            )
        }
    } else if is_header && starts_with(th, "@@ "@) {
        let cv = strip_prefix(th, "@@ "@)->0;
        let tc = trim(cv);
        let normalized = match strip_prefix(tc, "@@"@) {
            Some(r) => trim_start(r),
            None => tc,
        };
        match parse_line_hint(normalized) {
            Some(h) => if h < 1 {
                Err(line_error(ln, "Line hint must be >= 1"@))
            } else {
                Ok(HeaderState { contexts: Seq::empty(), old_start: Some(h), start: 1 })
            },
            None => if is_top_of_file(normalized) {
                Ok(HeaderState { contexts: Seq::empty(), old_start: Some(1), start: 1 })
            } else if tc.len() > 0 {
                Ok(HeaderState { contexts: seq![cv], old_start: None, start: 1 })
            } else {
                Ok(none)
            },
        }
    } else if is_header {
        let cv = trim(strip_prefix(th, "@@"@)->0);
        if cv.len() > 0 {
            Ok(HeaderState { contexts: seq![cv], old_start: None, start: 1 })
        } else {
            Ok(none)
        }
    } else {
        Ok(HeaderState { contexts: Seq::empty(), old_start: None, start: 0 })
    }
}

/// Further `@@` lines right after the header add more context.
pub open spec fn extra_headers(lines: Seq<Seq<char>>, start: int, contexts: Seq<Seq<char>>) -> (
    Seq<Seq<char>>,
    int,
)
    decreases lines.len() - start,
{
    if start < 0 || start >= lines.len() || !starts_with(lines[start], "@@"@) {
        (contexts, start)
    } else {
        let tr = trim_end(lines[start]);
        match strip_prefix(tr, "@@ "@) {
            Some(nested) => extra_headers(
                lines,
                start + 1,
                if !is_blank(nested) {
                    contexts.push(nested)
                } else {
                    contexts
                },
            ),
            None => if tr == "@@"@ {
                extra_headers(lines, start + 1, contexts)
            } else {
                (contexts, start)
            },
        }
    }
}

/// The state of the scan over a hunk's lines.
#[verifier::ext_equal]
pub struct ScanState {
    pub has_ctx: bool,
    pub old: Seq<Seq<char>>,
    pub new: Seq<Seq<char>>,
    pub eof: bool,
    pub parsed: nat,
}

pub open spec fn unexpected_line_error(line: Seq<char>) -> Seq<char> {
    "Unexpected line in hunk: '"@ + line
        + "'. Lines must start with ' ' (context), '+' (add), or '-' (remove)"@
}

pub open spec fn is_eof_marker_line(line: Seq<char>) -> bool {
    !is_diff_content_line(line) && trim_end(line) == "*** End of File"@ && starts_with(
        line,
        "*** End of File"@,
    )
}

/// Scan the hunk's lines from `offset` on.
pub open spec fn scan(lines: Seq<Seq<char>>, ln: nat, offset: int, st: ScanState) -> Result<
    ScanState,
    Seq<char>,
>
    decreases lines.len() - offset,
{
    if offset < 0 || offset >= lines.len() {
        Ok(st)
    } else {
        let line = lines[offset];
        let more = ScanState { parsed: st.parsed + 1, ..st };
        if line.len() == 0 && st.parsed > 0 && offset + 1 < lines.len() && starts_with(
            trim_start(lines[offset + 1]),
            "@@"@,
        ) {
            Ok(st)
        } else if is_eof_marker_line(line) {
            if st.parsed == 0 {
                Err(line_error(ln + 1, no_lines_error()))
            } else {
                Ok(ScanState { eof: true, ..more })
            }
        } else if trim(line) == "..."@ || trim(line) == "…"@ {
            scan(lines, ln, offset + 1, ScanState { has_ctx: true, ..more })
        } else if line.len() == 0 {
            scan(
                lines,
                ln,
                offset + 1,
                ScanState {
                    has_ctx: true,
                    old: st.old.push(Seq::empty()),
                    new: st.new.push(Seq::empty()),
                    ..more
                },
            )
        } else if line[0] == ' ' {
            scan(
                lines,
                ln,
                offset + 1,
                ScanState {
                    has_ctx: true,
                    old: st.old.push(line.drop_first()),
                    new: st.new.push(line.drop_first()),
                    ..more
                },
            )
        } else if line[0] == '+' {
            scan(lines, ln, offset + 1, ScanState { new: st.new.push(line.drop_first()), ..more })
        } else if line[0] == '-' {
            scan(lines, ln, offset + 1, ScanState { old: st.old.push(line.drop_first()), ..more })
        } else if !starts_with(line, "@@"@) {
            scan(
                lines,
                ln,
                offset + 1,
                ScanState { has_ctx: true, old: st.old.push(line), new: st.new.push(line), ..more },
            )
        } else if st.parsed == 0 {
            Err(line_error(ln + 1, unexpected_line_error(line)))
        } else {
            Ok(st)
        }
    }
}

pub open spec fn init_scan() -> ScanState {
    ScanState { has_ctx: false, old: Seq::empty(), new: Seq::empty(), eof: false, parsed: 0 }
}

/// One hunk read from the front of `lines`, with the number of lines it used.
pub open spec fn parse_one_hunk(lines: Seq<Seq<char>>, ln: nat) -> Result<(HunkView, int), Seq<char>> {
    if lines.len() == 0 {
        Err(line_error(ln, "Diff does not contain any lines"@))
    } else {
        match header_state(lines, ln) {
            Err(m) => Err(m),
            Ok(h) => {
                let (contexts, start) = extra_headers(lines, h.start, h.contexts);
                if start >= lines.len() {
                    Err(line_error(ln + 1, no_lines_error()))
                } else {
                    match scan(lines, ln, start, init_scan()) {
                        Err(m) => Err(m),
                        Ok(st) => if st.parsed == 0 {
                            Err(line_error((ln + start) as nat, no_lines_error()))
                        } else {
                            Ok(
                                (
                                    HunkView {
                                        context: if contexts.len() > 0 {
                                            Some(join(contexts, seq!['\n']))
                                        } else {
                                            None
                                        },
                                        old_start_line: h.old_start,
                                        has_context_lines: st.has_ctx,
                                        old_lines: st.old,
                                        new_lines: st.new,
                                        is_end_of_file: st.eof,
                                    },
                                    st.parsed + start,
                                ),
                            )
                        },
                    }
                }
            },
        }
    }
}

pub proof fn lemma_extra_headers(lines: Seq<Seq<char>>, start: int, contexts: Seq<Seq<char>>)
    requires
        0 <= start <= lines.len(),
    ensures
        start <= extra_headers(lines, start, contexts).1 <= lines.len(),
    decreases lines.len() - start,
{
    if start < lines.len() && starts_with(lines[start], "@@"@) {
        let tr = trim_end(lines[start]);
        match strip_prefix(tr, "@@ "@) {
            Some(nested) => lemma_extra_headers(
                lines,
                start + 1,
                if !is_blank(nested) {
                    contexts.push(nested)
                } else {
                    contexts
                },
            ),
            None => if tr == "@@"@ {
                lemma_extra_headers(lines, start + 1, contexts);
            },
        }
    }
}

pub proof fn lemma_scan(lines: Seq<Seq<char>>, ln: nat, offset: int, st: ScanState)
    requires
        0 <= offset <= lines.len(),
    ensures
        scan(lines, ln, offset, st) matches Ok(r) ==> st.parsed <= r.parsed <= st.parsed + (
        lines.len() - offset),
    decreases lines.len() - offset,
{
    if offset < lines.len() {
        let line = lines[offset];
        let more = ScanState { parsed: st.parsed + 1, ..st };
        if line.len() == 0 && st.parsed > 0 && offset + 1 < lines.len() && starts_with(
            trim_start(lines[offset + 1]),
            "@@"@,
        ) {
        } else if is_eof_marker_line(line) {
        } else if trim(line) == "..."@ || trim(line) == "…"@ {
            lemma_scan(lines, ln, offset + 1, ScanState { has_ctx: true, ..more });
        } else if line.len() == 0 {
            lemma_scan(
                lines,
                ln,
                offset + 1,
                ScanState {
                    has_ctx: true,
                    old: st.old.push(Seq::empty()),
                    new: st.new.push(Seq::empty()),
                    ..more
                },
            );
        } else if line[0] == ' ' {
            lemma_scan(
                lines,
                ln,
                offset + 1,
                ScanState {
                    has_ctx: true,
                    old: st.old.push(line.drop_first()),
                    new: st.new.push(line.drop_first()),
                    ..more
                },
            );
        } else if line[0] == '+' {
            lemma_scan(lines, ln, offset + 1, ScanState { new: st.new.push(line.drop_first()), ..more });
        } else if line[0] == '-' {
            lemma_scan(lines, ln, offset + 1, ScanState { old: st.old.push(line.drop_first()), ..more });
        } else if !starts_with(line, "@@"@) {
            lemma_scan(
                lines,
                ln,
                offset + 1,
                ScanState { has_ctx: true, old: st.old.push(line), new: st.new.push(line), ..more },
            );
        }
    }
}

pub proof fn lemma_parse_one_hunk(lines: Seq<Seq<char>>, ln: nat)
    ensures
        parse_one_hunk(lines, ln) matches Ok((h, c)) ==> 1 <= c <= lines.len(),
{
    if lines.len() > 0 {
        if let Ok(h) = header_state(lines, ln) {
            assert(0 <= h.start <= 1);
            lemma_extra_headers(lines, h.start, h.contexts);
            let (contexts, start) = extra_headers(lines, h.start, h.contexts);
            if start < lines.len() {
                lemma_scan(lines, ln, start, init_scan());
            }
        }
    }
}

fn err_at(line: u128, lit: &str) -> (e: PatchError)
    ensures
        e@ == line_error(line as nat, lit@),
{
    let m = chars_of(lit);
    PatchError::at_line(line, m.as_slice())
}

fn header_state_exec(lines: &Vec<Vec<char>>, ln: usize) -> (r: Result<
    (Vec<Vec<char>>, Option<usize>, usize),
    PatchError,
>)
    requires
        lines@.len() > 0,
    ensures
        match r {
            Ok((c, o, st)) => header_state(lines_view(lines@), ln as nat) == Ok::<
                HeaderState,
                Seq<char>,
            >(HeaderState { contexts: lines_view(c@), old_start: o, start: st as int }),
            Err(e) => header_state(lines_view(lines@), ln as nat) == Err::<HeaderState, Seq<char>>(
                e@,
            ),
        },
{
    let ghost ls = lines_view(lines@);
    assert(ls[0] == lines@[0]@);
    let header = &lines[0];
    let th = trim_end_vec(header.as_slice());
    let at = chars_of("@@");
    let at_sp = chars_of("@@ ");
    let is_header = starts_with_exec(header.as_slice(), at.as_slice());
    let unified = if is_header {
        parse_unified_header_exec(th.as_slice())
    } else {
        None
    };
    let empty_marker = match strip_prefix_exec(th.as_slice(), at.as_slice()) {
        Some(r) => match strip_suffix_exec(r.as_slice(), at.as_slice()) {
            Some(m) => is_blank_exec(m.as_slice()),
            None => false,
        },
        None => false,
    };
    let empty: Vec<Vec<char>> = Vec::new();
    assert(lines_view(empty@) =~= Seq::<Seq<char>>::empty());
    if is_header && (eq_chars(th.as_slice(), at.as_slice()) || empty_marker) {
        return Ok((empty, None, 1));
    }
    match unified {
        Some((old, new, ctx)) => {
            if old < 1 || new < 1 {
                return Err(err_at(ln as u128, "Line numbers in @@ header must be >= 1"));
            }
            let mut contexts: Vec<Vec<char>> = Vec::new();
            match ctx {
                Some(c) => {
                    let ghost cv = c@;
                    contexts.push(c);
                    assert(lines_view(contexts@) =~= seq![cv]);
                },
                None => {
                    assert(lines_view(contexts@) =~= Seq::<Seq<char>>::empty());
                },
            }
            return Ok((contexts, Some(old), 1));
        },
        None => {},
    }
    if is_header && starts_with_exec(th.as_slice(), at_sp.as_slice()) {
        let cv = match strip_prefix_exec(th.as_slice(), at_sp.as_slice()) {
            Some(cv) => cv,
            None => {
                return Ok((empty, None, 1));
            },
        };
        let tc = trim_vec(cv.as_slice());
        let normalized = match strip_prefix_exec(tc.as_slice(), at.as_slice()) {
            Some(r) => trim_start_vec(r.as_slice()),
            None => tc.clone(),
        };
        assert(tc@ == trim(cv@));
        match parse_line_hint_exec(normalized.as_slice()) {
            Some(h) => {
                if h < 1 {
                    return Err(err_at(ln as u128, "Line hint must be >= 1"));
                }
                return Ok((empty, Some(h), 1));
            },
            None => {
                if is_top_of_file_exec(normalized.as_slice()) {
                    return Ok((empty, Some(1), 1));
                }
                if tc.len() > 0 {
                    let mut contexts: Vec<Vec<char>> = Vec::new();
                    let ghost cvv = cv@;
                    contexts.push(cv);
                    assert(lines_view(contexts@) =~= seq![cvv]);
                    return Ok((contexts, None, 1));
                }
                return Ok((empty, None, 1));
            },
        }
    }
    if is_header {
        proof {
            reveal_strlit("@@");
            crate::text::lemma_trim_end_keeps_prefix(header@, at@);
        }
        let rest = match strip_prefix_exec(th.as_slice(), at.as_slice()) {
            Some(r) => r,
            None => {
                return Ok((empty, None, 1));
            },
        };
        let cv = trim_vec(rest.as_slice());
        if cv.len() > 0 {
            let mut contexts: Vec<Vec<char>> = Vec::new();
            let ghost cvv = cv@;
            contexts.push(cv);
            assert(lines_view(contexts@) =~= seq![cvv]);
            return Ok((contexts, None, 1));
        }
        return Ok((empty, None, 1));
    }
    Ok((empty, None, 0))
}

fn extra_headers_exec(lines: &Vec<Vec<char>>, start: usize, contexts: Vec<Vec<char>>) -> (r: (
    Vec<Vec<char>>,
    usize,
))
    requires
        start <= lines@.len(),
    ensures
        extra_headers(lines_view(lines@), start as int, lines_view(contexts@)) == (
            lines_view(r.0@),
            r.1 as int,
        ),
{
    let ghost ls = lines_view(lines@);
    let ghost goal = extra_headers(ls, start as int, lines_view(contexts@));
    let at = chars_of("@@");
    let at_sp = chars_of("@@ ");
    let mut start = start;
    let mut contexts = contexts;
    loop
        invariant
            start <= lines@.len(),
            ls == lines_view(lines@),
            at@ == "@@"@,
            at_sp@ == "@@ "@,
            goal == extra_headers(ls, start as int, lines_view(contexts@)),
        ensures
            goal == (lines_view(contexts@), start as int),
        decreases lines@.len() - start,
    {
        if start >= lines.len() {
            break;
        }
        assert(ls[start as int] == lines@[start as int]@);
        if !starts_with_exec(lines[start].as_slice(), at.as_slice()) {
            break;
        }
        let tr = trim_end_vec(lines[start].as_slice());
        match strip_prefix_exec(tr.as_slice(), at_sp.as_slice()) {
            Some(nested) => {
                if !is_blank_exec(nested.as_slice()) {
                    let ghost before = lines_view(contexts@);
                    let ghost nv = nested@;
                    contexts.push(nested);
                    assert(lines_view(contexts@) =~= before.push(nv));
                }
                start = start + 1;
            },
            None => {
                if eq_chars(tr.as_slice(), at.as_slice()) {
                    start = start + 1;
                } else {
                    break;
                }
            },
        }
    }
    (contexts, start)
}

pub open spec fn scan_state_of(
    has_ctx: bool,
    old: Seq<Vec<char>>,
    new: Seq<Vec<char>>,
    eof: bool,
    parsed: usize,
) -> ScanState {
    ScanState {
        has_ctx,
        old: lines_view(old),
        new: lines_view(new),
        eof,
        parsed: parsed as nat,
    }
}

fn scan_exec(lines: &Vec<Vec<char>>, ln: usize, start: usize) -> (r: Result<
    (bool, Vec<Vec<char>>, Vec<Vec<char>>, bool, usize),
    PatchError,
>)
    requires
        start <= lines@.len(),
    ensures
        match r {
            Ok((h, o, n, e, p)) => scan(lines_view(lines@), ln as nat, start as int, init_scan())
                == Ok::<ScanState, Seq<char>>(scan_state_of(h, o@, n@, e, p)),
            Err(err) => scan(lines_view(lines@), ln as nat, start as int, init_scan()) == Err::<
                ScanState,
                Seq<char>,
            >(err@),
        },
{
    let ghost ls = lines_view(lines@);
    let ghost goal = scan(ls, ln as nat, start as int, init_scan());
    let mut has_ctx = false;
    let mut old: Vec<Vec<char>> = Vec::new();
    let mut new: Vec<Vec<char>> = Vec::new();
    let mut eof = false;
    let mut parsed: usize = 0;
    let mut offset = start;
    assert(scan_state_of(has_ctx, old@, new@, eof, parsed) =~= init_scan());
    let at = chars_of("@@");
    let eof_marker = chars_of("*** End of File");
    loop
        invariant_except_break
            parsed <= offset,
            goal == scan(ls, ln as nat, offset as int, scan_state_of(has_ctx, old@, new@, eof, parsed)),
        invariant
            start <= offset <= lines@.len(),
            ls == lines_view(lines@),
            goal == scan(ls, ln as nat, start as int, init_scan()),
            at@ == "@@"@,
            eof_marker@ == "*** End of File"@,
        ensures
            goal == Ok::<ScanState, Seq<char>>(scan_state_of(has_ctx, old@, new@, eof, parsed)),
        decreases lines@.len() - offset,
    {
        if offset >= lines.len() {
            break;
        }
        let ghost st = scan_state_of(has_ctx, old@, new@, eof, parsed);
        assert(ls[offset as int] == lines@[offset as int]@);
        let line = &lines[offset];
        if line.len() == 0 && parsed > 0 && offset + 1 < lines.len() {
            assert(ls[offset + 1] == lines@[offset + 1]@);
            let next = trim_start_vec(lines[offset + 1].as_slice());
            if starts_with_exec(next.as_slice(), at.as_slice()) {
                break;
            }
        }
        let is_eof = !is_diff_content_line_exec(line.as_slice()) && {
            let te = trim_end_vec(line.as_slice());
            eq_chars(te.as_slice(), eof_marker.as_slice())
        } && starts_with_exec(line.as_slice(), eof_marker.as_slice());
        if is_eof {
            if parsed == 0 {
                return Err(err_at(ln as u128 + 1, "Hunk does not contain any lines"));
            }
            eof = true;
            parsed = parsed + 1;
            proof {
                assert(scan_state_of(has_ctx, old@, new@, eof, parsed) =~= ScanState {
                    eof: true,
                    ..ScanState { parsed: st.parsed + 1, ..st }
                });
            }
            break;
        }
        let t = trim_vec(line.as_slice());
        if eq_lit(t.as_slice(), "...") || eq_lit(t.as_slice(), "…") {
            has_ctx = true;
            parsed = parsed + 1;
            offset = offset + 1;
            proof {
                assert(scan_state_of(has_ctx, old@, new@, eof, parsed) =~= ScanState {
                    has_ctx: true,
                    ..ScanState { parsed: st.parsed + 1, ..st }
                });
            }
            continue;
        }
        let ghost oldv = lines_view(old@);
        let ghost newv = lines_view(new@);
        if line.len() == 0 {
            has_ctx = true;
            old.push(Vec::new());
            new.push(Vec::new());
            proof {
                assert(lines_view(old@) =~= oldv.push(Seq::empty()));
                assert(lines_view(new@) =~= newv.push(Seq::empty()));
            }
        } else {
            let c = line[0];
            let rest = vstd::slice::slice_to_vec(&line.as_slice()[1..line.len()]);
            assert(rest@ =~= line@.drop_first());
            if c == ' ' {
                has_ctx = true;
                old.push(rest.clone());
                new.push(rest);
                proof {
                    assert(lines_view(old@) =~= oldv.push(line@.drop_first()));
                    assert(lines_view(new@) =~= newv.push(line@.drop_first()));
                }
            } else if c == '+' {
                new.push(rest);
                proof {
                    assert(lines_view(old@) =~= oldv);
                    assert(lines_view(new@) =~= newv.push(line@.drop_first()));
                }
            } else if c == '-' {
                old.push(rest);
                proof {
                    assert(lines_view(old@) =~= oldv.push(line@.drop_first()));
                    assert(lines_view(new@) =~= newv);
                }
            } else if !starts_with_exec(line.as_slice(), at.as_slice()) {
                has_ctx = true;
                old.push(vstd::slice::slice_to_vec(line.as_slice()));
                new.push(vstd::slice::slice_to_vec(line.as_slice()));
                proof {
                    assert(lines_view(old@) =~= oldv.push(line@));
                    assert(lines_view(new@) =~= newv.push(line@));
                }
            } else if parsed == 0 {
                let mut m = chars_of("Unexpected line in hunk: '");
                append_chars(&mut m, line.as_slice());
                let tail = chars_of(
                    "'. Lines must start with ' ' (context), '+' (add), or '-' (remove)",
                );
                append_chars(&mut m, tail.as_slice());
                return Err(PatchError::at_line(ln as u128 + 1, m.as_slice()));
            } else {
                break;
            }
        }
        parsed = parsed + 1;
        offset = offset + 1;
    }
    Ok((has_ctx, old, new, eof, parsed))
}

fn parse_one_hunk_exec(lines: &Vec<Vec<char>>, ln: usize) -> (r: Result<(Hunk, usize), PatchError>)
    ensures
        match r {
            Ok((h, c)) => parse_one_hunk(lines_view(lines@), ln as nat) == Ok::<
                (HunkView, int),
                Seq<char>,
            >((h@, c as int)),
            Err(e) => parse_one_hunk(lines_view(lines@), ln as nat) == Err::<
                (HunkView, int),
                Seq<char>,
            >(e@),
        },
{
    let ghost ls = lines_view(lines@);
    if lines.len() == 0 {
        return Err(err_at(ln as u128, "Diff does not contain any lines"));
    }
    let (contexts, old_start, start) = match header_state_exec(lines, ln) {
        Ok(h) => h,
        Err(e) => return Err(e),
    };
    let (contexts, start) = extra_headers_exec(lines, start, contexts);
    if start >= lines.len() {
        return Err(err_at(ln as u128 + 1, "Hunk does not contain any lines"));
    }
    let (has_ctx, old, new, eof, parsed) = match scan_exec(lines, ln, start) {
        Ok(st) => st,
        Err(e) => return Err(e),
    };
    if parsed == 0 {
        return Err(err_at(ln as u128 + start as u128, "Hunk does not contain any lines"));
    }
    proof {
        lemma_scan(ls, ln as nat, start as int, init_scan());
    }
    let context = if contexts.len() > 0 {
        let nl: Vec<char> = vec!['\n'];
        assert(nl@ =~= seq!['\n']);
        Some(string_of(join_exec(&contexts, nl.as_slice()).as_slice()))
    } else {
        None
    };
    let old_lines = strings_of(&old);
    let new_lines = strings_of(&new);
    assert(strings_view(old_lines@) =~= lines_view(old@));
    assert(strings_view(new_lines@) =~= lines_view(new@));
    let h = Hunk {
        context,
        old_start_line: old_start,
        has_context_lines: has_ctx,
        old_lines,
        new_lines,
        is_end_of_file: eof,
    };
    Ok((h, parsed + start))
}

// ---------------------------------------------------------------------------
// All hunks of a section body
// ---------------------------------------------------------------------------

pub open spec fn all_blank_from(lines: Seq<Seq<char>>, j: int) -> bool {
    forall|k: int| j <= k < lines.len() ==> is_blank(#[trigger] lines[k])
}

/// The hunks read from line `index` on.
pub open spec fn hunks_from(lines: Seq<Seq<char>>, index: int) -> Result<Seq<HunkView>, Seq<char>>
    decreases lines.len() - index,
{
    if index < 0 || index >= lines.len() {
        Ok(Seq::empty())
    } else {
        let line = lines[index];
        let t = trim(line);
        if t.len() == 0 {
            hunks_from(lines, index + 1)
        } else if !is_diff_content_line(line) && is_metadata_line(t) {
            hunks_from(lines, index + 1)
        } else if starts_with(t, "@@"@) && all_blank_from(lines, index + 1) {
            Ok(Seq::empty())
        } else {
            match parse_one_hunk(lines.skip(index), (index + 1) as nat) {
                Err(m) => Err(m),
                Ok((h, c)) => {
                    proof {
                        lemma_parse_one_hunk(lines.skip(index), (index + 1) as nat);
                    }
                    prepend_ok(h, hunks_from(lines, index + c))
                },
            }
        }
    }
}

pub open spec fn multi_file_error(n: nat) -> Seq<char> {
    "Diff contains "@ + dec(n)
        + " file markers. Single-file patches cannot contain multi-file markers."@
}

/// What [`parse_hunks`] returns for a section body.
pub open spec fn spec_parse_hunks(body: Seq<char>) -> Result<Seq<HunkView>, Seq<char>> {
    let n = count_file_markers(split_on(body, '\n'));
    if n > 1 {
        Err(multi_file_error(n))
    } else {
        hunks_from(split_on(normalize_diff(body), '\n'), 0)
    }
}

fn all_blank_from_exec(lines: &Vec<Vec<char>>, j: usize) -> (b: bool)
    ensures
        b == all_blank_from(lines_view(lines@), j as int),
{
    let mut k = j;
    while k < lines.len()
        invariant
            j <= k,
            forall|m: int| j <= m < k && m < lines@.len() ==> is_blank(
                #[trigger] lines_view(lines@)[m],
            ),
        decreases lines@.len() - k,
    {
        assert(lines_view(lines@)[k as int] == lines@[k as int]@);
        if !is_blank_exec(lines[k].as_slice()) {
            return false;
        }
        k = k + 1;
    }
    true
}

/// Parse all hunks of an `*** Update File:` section body.
pub fn parse_hunks(body: &str) -> (r: Result<Vec<Hunk>, PatchError>)
    ensures
        match r {
            Ok(v) => spec_parse_hunks(body@) == Ok::<Seq<HunkView>, Seq<char>>(hunks_view(v@)),
            Err(e) => spec_parse_hunks(body@) == Err::<Seq<HunkView>, Seq<char>>(e@),
        },
{
    let chars = chars_of(body);
    let raw = split_on_exec(chars.as_slice(), '\n');
    let markers = count_file_markers_exec(&raw);
    if markers > 1 {
        let mut m = chars_of("Diff contains ");
        let d = decimal(markers as u128);
        append_chars(&mut m, d.as_slice());
        let tail = chars_of(" file markers. Single-file patches cannot contain multi-file markers.");
        append_chars(&mut m, tail.as_slice());
        return Err(PatchError::from_chars(m.as_slice()));
    }
    let normalized = normalize_diff_exec(chars.as_slice());
    let lines = split_on_exec(normalized.as_slice(), '\n');
    let ghost ls = lines_view(lines@);
    let ghost goal = hunks_from(ls, 0);
    let mut hunks: Vec<Hunk> = Vec::new();
    let mut index: usize = 0;
    let at = chars_of("@@");
    assert(hunks_view(hunks@) + Seq::<HunkView>::empty() =~= Seq::<HunkView>::empty());
    assert(crate::apply_patch::combine(hunks_view(hunks@), goal) == goal) by {
        match goal {
            Ok(s) => {
                assert(hunks_view(hunks@) + s =~= s);
            },
            Err(_) => {},
        }
    }
    loop
        invariant
            index <= lines@.len(),
            ls == lines_view(lines@),
            at@ == "@@"@,
            spec_parse_hunks(body@) == goal,
            goal == crate::apply_patch::combine(hunks_view(hunks@), hunks_from(ls, index as int)),
        decreases lines@.len() - index,
    {
        if index >= lines.len() {
            assert(hunks_view(hunks@) + Seq::<HunkView>::empty() =~= hunks_view(hunks@));
            return Ok(hunks);
        }
        assert(ls[index as int] == lines@[index as int]@);
        let line = &lines[index];
        let t = trim_vec(line.as_slice());
        if t.len() == 0 {
            index = index + 1;
            continue;
        }
        if !is_diff_content_line_exec(line.as_slice()) && is_metadata_line_exec(t.as_slice()) {
            index = index + 1;
            continue;
        }
        if starts_with_exec(t.as_slice(), at.as_slice()) && all_blank_from_exec(&lines, index + 1) {
            assert(hunks_view(hunks@) + Seq::<HunkView>::empty() =~= hunks_view(hunks@));
            return Ok(hunks);
        }
        let rest = crate::apply_patch::sub_lines(&lines, index, lines.len());
        assert(lines_view(rest@) =~= ls.skip(index as int));
        let (h, c) = match parse_one_hunk_exec(&rest, index + 1) {
            Ok(hc) => hc,
            Err(e) => return Err(e),
        };
        proof {
            lemma_parse_one_hunk(ls.skip(index as int), (index + 1) as nat);
        }
        let ghost hv = hunks_view(hunks@);
        let ghost h_v = h@;
        proof {
            crate::apply_patch::lemma_combine_prepend(hv, h_v, hunks_from(ls, index + c));
        }
        hunks.push(h);
        assert(hunks_view(hunks@) =~= hv.push(h_v));
        index = index + c;
    }
}

} // verus!
