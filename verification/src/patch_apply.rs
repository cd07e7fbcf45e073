//! Applying hunks to a file's content.
//!
//! Context is matched line by line and exactly; `@@` anchors are matched with
//! surrounding whitespace ignored. A hunk that cannot be placed, or can be
//! placed in more than one way, is an error, never a guess.
use vstd::prelude::*;

use crate::apply_patch::{FileOp, PatchError};
use crate::hunks::{
    all_blank_from, extra_headers, header_state, hunks_from, hunks_view, is_diff_content_line,
    is_metadata_line, lemma_parse_one_hunk, parse_one_hunk, parse_unified_header, spec_parse_hunks,
    strings_view, Hunk, HunkView,
};
use crate::tui::{round_half_even, round_half_even_exec};
use crate::text::{
    find_from, strip_prefix, starts_with, find_char, is_ws, lemma_find_char_bounds, trim_end, trim_start, lemma_split_on_len, append_chars, chars_of, chars_of_strings, dec, decimal, ends_with, eq_chars, is_blank,
    is_blank_exec, join, join_exec, lines_view, split_on, split_on_exec, string_of, trim,
    trim_vec, words, words_exec,
};

verus! {

// ---------------------------------------------------------------------------
// Replacements
// ---------------------------------------------------------------------------

/// Old lines `[start, start + old_len)` are replaced by `new_lines`.
pub struct Rep {
    pub start: int,
    pub old_len: int,
    pub new_lines: Seq<Seq<char>>,
}

struct Replacement {
    start: usize,
    old_len: usize,
    new_lines: Vec<Vec<char>>,
}

impl Replacement {
    spec fn rep(&self) -> Rep {
        Rep { start: self.start as int, old_len: self.old_len as int, new_lines: lines_view(self.new_lines@) }
    }
}

spec fn reps_view(v: Seq<Replacement>) -> Seq<Rep> {
    Seq::new(v.len(), |i: int| v[i].rep())
}

// ---------------------------------------------------------------------------
// Matching
// ---------------------------------------------------------------------------

/// Do the lines at `i` equal `pattern`?
pub open spec fn window_eq(lines: Seq<Seq<char>>, pattern: Seq<Seq<char>>, i: int) -> bool {
    0 <= i && i + pattern.len() <= lines.len() && lines.subrange(i, i + pattern.len()) == pattern
}

/// All `i` in `[lo, hi)` where `pattern` occurs, in increasing order.
pub open spec fn matches_in(lines: Seq<Seq<char>>, pattern: Seq<Seq<char>>, lo: int, hi: int) -> Seq<int>
    decreases hi - lo,
{
    if hi <= lo {
        Seq::empty()
    } else {
        matches_in(lines, pattern, lo, hi - 1) + if window_eq(lines, pattern, hi - 1) {
            seq![hi - 1]
        } else {
            Seq::empty()
        }
    }
}

/// Exact line-by-line matches of `pattern` starting in `[from, len - pattern.len()]`;
/// with `eof`, only the match that ends at the end of the file counts.
pub open spec fn match_indices(lines: Seq<Seq<char>>, pattern: Seq<Seq<char>>, from: int, eof: bool) -> Seq<int> {
    if pattern.len() > lines.len() {
        Seq::empty()
    } else {
        let max_start = lines.len() - pattern.len();
        let lo = if eof {
            max_start
        } else {
            from
        };
        if lo > max_start {
            Seq::empty()
        } else {
            matches_in(lines, pattern, lo, max_start + 1)
        }
    }
}

/// All `l` in `[lo, hi)` whose trimmed line equals `part`, in increasing order.
pub open spec fn context_candidates(lines: Seq<Seq<char>>, part: Seq<char>, lo: int, hi: int) -> Seq<int>
    decreases hi - lo,
{
    if hi <= lo {
        Seq::empty()
    } else {
        context_candidates(lines, part, lo, hi - 1) + if trim(lines[hi - 1]) == part {
            seq![hi - 1]
        } else {
            Seq::empty()
        }
    }
}

/// The non-blank, trimmed lines of an `@@` context.
pub open spec fn context_parts(pieces: Seq<Seq<char>>) -> Seq<Seq<char>>
    decreases pieces.len(),
{
    if pieces.len() == 0 {
        Seq::empty()
    } else if trim(pieces.last()).len() > 0 {
        context_parts(pieces.drop_last()).push(trim(pieces.last()))
    } else {
        context_parts(pieces.drop_last())
    }
}

/// The context with each line break shown as ` > `.
pub open spec fn replace_nl(s: Seq<char>) -> Seq<char>
    decreases s.len(),
{
    if s.len() == 0 {
        Seq::empty()
    } else {
        replace_nl(s.drop_last()) + if s.last() == '\n' {
            " > "@
        } else {
            seq![s.last()]
        }
    }
}

/// The 1-based line numbers of the first five positions, joined with `, `.
pub open spec fn listed(c: Seq<int>) -> Seq<char> {
    let shown = if c.len() > 5 {
        c.take(5)
    } else {
        c
    };
    join(Seq::new(shown.len(), |i: int| dec((shown[i] + 1) as nat)), ", "@)
}

pub open spec fn unique_hint() -> Seq<char> {
    ").\n\nAdd more surrounding context or additional @@ anchors to make it unique."@
}

/// Locate the context lines one after another from `cursor`; the position of the last.
pub open spec fn find_context_from(
    lines: Seq<Seq<char>>,
    parts: Seq<Seq<char>>,
    idx: int,
    cursor: int,
    context: Seq<char>,
    path: Seq<char>,
) -> Result<int, Seq<char>>
    decreases parts.len() - idx,
{
    if idx < 0 || idx >= parts.len() {
        Ok(cursor)
    } else {
        let part = parts[idx];
        let c = context_candidates(lines, part, cursor, lines.len() as int);
        let last = idx + 1 == parts.len();
        if c.len() == 0 {
            Err("Failed to find context '"@ + replace_nl(context) + "' in "@ + path)
        } else if c.len() == 1 {
            if last {
                Ok(c[0])
            } else {
                find_context_from(lines, parts, idx + 1, c[0] + 1, context, path)
            }
        } else if last {
            Err(
                "Found "@ + dec(c.len()) + " matches for context '"@ + part + "' in "@ + path
                    + " (lines "@ + listed(c) + unique_hint(),
            )
        } else {
            find_context_from(lines, parts, idx + 1, c[0] + 1, context, path)
        }
    }
}

/// Where a hunk's `@@` context puts it: the index of the context's last line.
pub open spec fn find_context(lines: Seq<Seq<char>>, h: HunkView, from: int, path: Seq<char>) -> Result<int, Seq<char>> {
    match h.context {
        None => Ok(from),
        Some(c) => find_context_from(lines, context_parts(split_on(c, '\n')), 0, from, c, path),
    }
}

// ---------------------------------------------------------------------------
// The error for lines that are not found
// ---------------------------------------------------------------------------

/// Number of positions in `[0, k)` where the trimmed lines agree.
pub open spec fn trimmed_agree(lines: Seq<Seq<char>>, pattern: Seq<Seq<char>>, i: int, k: int) -> nat
    decreases k,
{
    if k <= 0 {
        0
    } else {
        trimmed_agree(lines, pattern, i, k - 1) + if trim(lines[i + k - 1]) == trim(pattern[k - 1]) {
            1nat
        } else {
            0nat
        }
    }
}

/// The window in `[0, hi)` with the most agreeing lines (the first one on ties), with its count.
pub open spec fn best_window(lines: Seq<Seq<char>>, pattern: Seq<Seq<char>>, hi: int) -> (int, nat)
    decreases hi,
{
    if hi <= 1 {
        (0, trimmed_agree(lines, pattern, 0, pattern.len() as int))
    } else {
        let (b, s) = best_window(lines, pattern, hi - 1);
        let t = trimmed_agree(lines, pattern, hi - 1, pattern.len() as int);
        if t > s {
            (hi - 1, t)
        } else {
            (b, s)
        }
    }
}

/// The closest window to the expected lines, if any window agrees at all.
pub open spec fn closest_window(lines: Seq<Seq<char>>, pattern: Seq<Seq<char>>) -> Option<(int, nat)> {
    if pattern.len() == 0 || pattern.len() > lines.len() {
        None
    } else {
        let (b, s) = best_window(lines, pattern, lines.len() - pattern.len() + 1);
        if s > 0 {
            Some((b, s))
        } else {
            None
        }
    }
}

/// The power of two (from `p` on) by which converting `v` to binary64 rounds:
/// the first `p` with `v < 2^53 * p`.
pub open spec fn f64_scale(v: int, p: int) -> int
    decreases (if v > p {
        v - p
    } else {
        0
    }),
{
    if p <= 0 {
        1
    } else if v < 0x20_0000_0000_0000 * p {
        p
    } else {
        f64_scale(v, 2 * p)
    }
}

/// `v as f64` for a non-negative integer: `v` rounded to 53 significant bits,
/// ties to even.
pub open spec fn to_f64(v: int) -> int {
    let s = f64_scale(v, 1);
    round_half_even(v, s) * s
}

/// `(a * 2^t, 2^t)` for the first `t` with `a * 2^t >= n` (`p` doubling along):
/// the binade of `a / n`.
pub open spec fn binade(a: int, p: int, n: int) -> (int, int)
    decreases (if n > a {
        n - a
    } else {
        0
    }),
{
    if a <= 0 || a >= n {
        (a, p)
    } else {
        binade(2 * a, 2 * p, n)
    }
}

/// `matched / total * 100` as `{:.0}` shows it, computed as the binary64
/// arithmetic does: `d = matched / total` rounded to 53 significant bits is
/// `m1 / (2^52 * p)`; `100 * d` rounded to 53 significant bits is
/// `m2 / (2^52 * p)`; that is rounded to an integer, ties to even.
pub open spec fn similarity_percent(matched: nat, total: nat) -> nat {
    let m = to_f64(matched as int);
    let n = to_f64(total as int);
    let (a, p) = binade(m, 1, n);
    let m1 = round_half_even(a * 0x10_0000_0000_0000, n);
    let prod = 100 * m1;
    let s = if prod < 0x800_0000_0000_0000 {
        64
    } else {
        128
    };
    let m2 = round_half_even(prod, s) * s;
    round_half_even(m2, 0x10_0000_0000_0000 * p) as nat
}

pub open spec fn not_found_message(lines: Seq<Seq<char>>, path: Seq<char>, old: Seq<Seq<char>>) -> Seq<char> {
    let head = "Failed to find expected lines in "@ + path + ":\n"@ + join(old, seq!['\n']);
    match closest_window(lines, old) {
        Some((index, matched)) => head + "\n\nClosest match ("@ + dec(
            similarity_percent(matched, old.len()),
        ) + "% similar) near line "@ + dec((index + 1) as nat) + "."@,
        None => head,
    }
}

// ---------------------------------------------------------------------------
// Placing the hunks
// ---------------------------------------------------------------------------

pub open spec fn first_old(h: HunkView) -> Option<Seq<char>> {
    if h.old_lines.len() > 0 {
        Some(trim(h.old_lines[0]))
    } else {
        None
    }
}

pub open spec fn final_context(h: HunkView) -> Option<Seq<char>> {
    match h.context {
        Some(c) => Some(trim(split_on(c, '\n').last())),
        None => None,
    }
}

pub open spec fn hierarchical(h: HunkView) -> bool {
    match h.context {
        Some(c) => crate::text::contains_char(c, '\n') || words(c).len() > 2,
        None => false,
    }
}

/// The positions in `m` within 200 lines of `target`.
pub open spec fn near(m: Seq<int>, target: int) -> Seq<int>
    decreases m.len(),
{
    if m.len() == 0 {
        m
    } else if (m.last() - target <= 200 && target - m.last() <= 200) {
        near(m.drop_last(), target).push(m.last())
    } else {
        near(m.drop_last(), target)
    }
}

pub open spec fn many_matches_message(m: Seq<int>, path: Seq<char>) -> Seq<char> {
    "Found "@ + dec(m.len()) + " matches for the text in "@ + path + " (lines "@ + listed(m)
        + unique_hint()
}

pub open spec fn min_int(a: int, b: int) -> int {
    if a <= b {
        a
    } else {
        b
    }
}

/// The cursor after a hunk's line hint: a hunk with neither `@@` context nor
/// context lines jumps to its hinted line.
pub open spec fn cursor_after_hint(h: HunkView, cursor: int, len: int) -> int {
    if h.old_start_line is Some && h.context is None && !h.has_context_lines {
        min_int(h.old_start_line->0 - 1, len)
    } else {
        cursor
    }
}

/// Where the search for a hunk starts: after its `@@` context, if it has one.
pub open spec fn hunk_anchor(lines: Seq<Seq<char>>, path: Seq<char>, h: HunkView, cursor1: int) -> Result<int, Seq<char>> {
    match find_context(lines, h, cursor1, path) {
        Err(m) => Err(m),
        Ok(a0) => Ok(
            if h.context is Some && !(first_old(h) == final_context(h) || hierarchical(h)) {
                a0 + 1
            } else {
                a0
            },
        ),
    }
}

/// Where a pure addition goes.
pub open spec fn insertion_point(lines: Seq<Seq<char>>, path: Seq<char>, h: HunkView, anchor: int) -> Result<int, Seq<char>> {
    let len = lines.len() as int;
    if h.context is Some {
        Ok(anchor)
    } else if h.old_start_line is Some {
        let hh = h.old_start_line->0;
        if hh > len + 1 {
            Err(
                "Line hint "@ + dec(hh as nat) + " is out of range for insertion in "@ + path
                    + " (file has "@ + dec(len as nat) + " lines)"@,
            )
        } else {
            Ok(hh - 1)
        }
    } else if len > 0 && lines.last().len() == 0 {
        Ok(len - 1)
    } else {
        Ok(len)
    }
}

/// The old lines actually searched for, and their replacement: an unmatched
/// trailing empty context line is dropped once.
pub open spec fn retry_pattern(lines: Seq<Seq<char>>, h: HunkView, anchor: int) -> (Seq<Seq<char>>, Seq<Seq<char>>) {
    let p0 = h.old_lines;
    let n0 = h.new_lines;
    let m0 = match_indices(lines, p0, anchor, h.is_end_of_file);
    let retry = m0.len() == 0 && p0.last().len() == 0;
    let p = if retry {
        p0.drop_last()
    } else {
        p0
    };
    let nl = if retry && n0.len() > 0 && n0.last().len() == 0 {
        n0.drop_last()
    } else {
        n0
    };
    (p, nl)
}

/// All matches of the searched lines: from the anchor, else from the top.
pub open spec fn all_matches(lines: Seq<Seq<char>>, h: HunkView, anchor: int, p: Seq<Seq<char>>) -> Seq<int> {
    let m1 = match_indices(lines, p, anchor, h.is_end_of_file);
    if m1.len() == 0 && anchor != 0 {
        match_indices(lines, p, 0, h.is_end_of_file)
    } else {
        m1
    }
}

/// The one place where the hunk's old lines go.
pub open spec fn locate(lines: Seq<Seq<char>>, path: Seq<char>, h: HunkView, m: Seq<int>) -> Result<int, Seq<char>> {
    if m.len() == 0 {
        Err(not_found_message(lines, path, h.old_lines))
    } else if m.len() == 1 {
        Ok(m[0])
    } else {
        match h.old_start_line {
            Some(hh) => {
                let f = near(m, hh - 1);
                if f.len() == 1 {
                    Ok(f[0])
                } else {
                    Err(many_matches_message(m, path))
                }
            },
            None => Err(many_matches_message(m, path)),
        }
    }
}

/// One hunk: its replacement (none when it changes nothing) and the new cursor.
pub open spec fn place_step(lines: Seq<Seq<char>>, path: Seq<char>, h: HunkView, cursor: int) -> Result<(Option<Rep>, int), Seq<char>> {
    let len = lines.len() as int;
    if h.old_start_line is Some && h.old_start_line->0 < 1 {
        Err(
            "Line hint "@ + dec(h.old_start_line->0 as nat) + " is out of range for "@ + path
                + " (line numbers start at 1)"@,
        )
    } else {
        let cursor1 = cursor_after_hint(h, cursor, len);
        match hunk_anchor(lines, path, h, cursor1) {
            Err(m) => Err(m),
            Ok(anchor) => if h.old_lines.len() == 0 {
                match insertion_point(lines, path, h, anchor) {
                    Err(m) => Err(m),
                    Ok(at) => Ok((Some(Rep { start: at, old_len: 0, new_lines: h.new_lines }), cursor1)),
                }
            } else {
                let (p, nl) = retry_pattern(lines, h, anchor);
                match locate(lines, path, h, all_matches(lines, h, anchor, p)) {
                    Err(m) => Err(m),
                    Ok(f) => if p == nl {
                        Ok((None, f + p.len()))
                    } else {
                        Ok((Some(Rep { start: f, old_len: p.len() as int, new_lines: nl }), f + p.len()))
                    },
                }
            },
        }
    }
}

/// The replacements of hunks `i..`, given the cursor and the replacements so far.
pub open spec fn place_hunks(
    lines: Seq<Seq<char>>,
    path: Seq<char>,
    hunks: Seq<HunkView>,
    i: int,
    cursor: int,
    reps: Seq<Rep>,
) -> Result<Seq<Rep>, Seq<char>>
    decreases hunks.len() - i,
{
    if i < 0 || i >= hunks.len() {
        Ok(reps)
    } else {
        match place_step(lines, path, hunks[i], cursor) {
            Err(m) => Err(m),
            Ok((o, c2)) => place_hunks(
                lines,
                path,
                hunks,
                i + 1,
                c2,
                match o {
                    Some(r) => reps.push(r),
                    None => reps,
                },
            ),
        }
    }
}

// ---------------------------------------------------------------------------
// Ordering and overlap
// ---------------------------------------------------------------------------

/// Index of the first replacement whose start is after `r`'s.
pub open spec fn insert_position(s: Seq<Rep>, r: Rep, k: int) -> int
    decreases s.len() - k,
{
    if k < 0 || k >= s.len() {
        s.len() as int
    } else if s[k].start > r.start {
        k
    } else {
        insert_position(s, r, k + 1)
    }
}

/// Stable sort by start (`sort_by_key`), as insertion sort.
pub open spec fn sort_reps(s: Seq<Rep>) -> Seq<Rep>
    decreases s.len(),
{
    if s.len() == 0 {
        s
    } else {
        let t = sort_reps(s.drop_last());
        let k = insert_position(t, s.last(), 0);
        t.take(k).push(s.last()) + t.skip(k)
    }
}

/// The first adjacent pair `(j, j + 1)` that overlaps, if any.
pub open spec fn first_overlap(s: Seq<Rep>, j: int) -> Option<int>
    decreases s.len() - j,
{
    if j < 0 || j + 1 >= s.len() {
        None
    } else if s[j + 1].start < s[j].start + s[j].old_len {
        Some(j)
    } else {
        first_overlap(s, j + 1)
    }
}

pub open spec fn range_text(r: Rep) -> Seq<char> {
    if r.old_len == 0 {
        dec((r.start + 1) as nat) + " (insertion)"@
    } else {
        dec((r.start + 1) as nat) + "-"@ + dec((r.start + r.old_len) as nat)
    }
}

/// Sorted replacements, unless two neighbours overlap.
pub open spec fn check_overlaps(path: Seq<char>, s: Seq<Rep>) -> Result<Seq<Rep>, Seq<char>> {
    match first_overlap(s, 0) {
        Some(j) => Err(
            "Overlapping hunks detected in "@ + path + " at lines "@ + range_text(s[j]) + " and "@
                + range_text(s[j + 1]) + ". Split hunks or add more context to avoid overlap."@,
        ),
        None => Ok(s),
    }
}

/// The replacements for all hunks, in file order, or why there are none.
pub open spec fn compute_replacements(lines: Seq<Seq<char>>, path: Seq<char>, hunks: Seq<HunkView>) -> Result<Seq<Rep>, Seq<char>> {
    match place_hunks(lines, path, hunks, 0, 0, Seq::empty()) {
        Err(m) => Err(m),
        Ok(reps) => check_overlaps(path, sort_reps(reps)),
    }
}

// ---------------------------------------------------------------------------
// Applying
// ---------------------------------------------------------------------------

pub open spec fn splice(lines: Seq<Seq<char>>, r: Rep) -> Seq<Seq<char>> {
    lines.take(r.start) + r.new_lines + lines.skip(r.start + r.old_len)
}

/// The replacements applied from the last to the first.
pub open spec fn apply_reps(lines: Seq<Seq<char>>, reps: Seq<Rep>) -> Seq<Seq<char>>
    decreases reps.len(),
{
    if reps.len() == 0 {
        lines
    } else {
        apply_reps(splice(lines, reps.last()), reps.drop_last())
    }
}

/// The file's lines as the hunks see them: a final newline does not open another line.
pub open spec fn content_lines(content: Seq<char>) -> Seq<Seq<char>> {
    let all = split_on(content, '\n');
    if ends_with(content, seq!['\n']) && all.last().len() == 0 {
        all.drop_last()
    } else {
        all
    }
}

/// Drop all trailing `\n`.
pub open spec fn trim_newlines(s: Seq<char>) -> Seq<char>
    decreases s.len(),
{
    if s.len() > 0 && s.last() == '\n' {
        trim_newlines(s.drop_last())
    } else {
        s
    }
}

/// What [`apply_hunks`] returns.
pub open spec fn spec_apply_hunks(content: Seq<char>, path: Seq<char>, hunks: Seq<HunkView>) -> Result<Seq<char>, Seq<char>> {
    if hunks.len() == 0 {
        Err("Diff contains no hunks"@)
    } else {
        let had_newline = ends_with(content, seq!['\n']);
        let all = split_on(content, '\n');
        let stripped = had_newline && all.last().len() == 0;
        let lines = content_lines(content);
        match compute_replacements(lines, path, hunks) {
            Err(m) => Err(m),
            Ok(reps) => {
                let applied = apply_reps(lines, reps);
                let result = if stripped {
                    applied.push(Seq::empty())
                } else {
                    applied
                };
                let next = join(result, seq!['\n']);
                if had_newline && !ends_with(next, seq!['\n']) {
                    Ok(next.push('\n'))
                } else if !had_newline {
                    Ok(trim_newlines(next))
                } else {
                    Ok(next)
                }
            },
        }
    }
}

/// Every replacement lies within the file's lines.
pub open spec fn reps_in_bounds(lines: Seq<Seq<char>>, reps: Seq<Rep>) -> bool {
    forall|k: int|
        0 <= k < reps.len() ==> 0 <= #[trigger] reps[k].start && 0 <= reps[k].old_len
            && reps[k].start + reps[k].old_len <= lines.len()
}

/// The hunks can be applied without running past the file: every placed
/// replacement lies within its lines. (Only a hunk whose `@@` context is blank on
/// every line can be placed past the end.)
pub open spec fn placeable(content: Seq<char>, path: Seq<char>, hunks: Seq<HunkView>) -> bool {
    match compute_replacements(content_lines(content), path, hunks) {
        Ok(reps) => reps_in_bounds(content_lines(content), reps),
        Err(_) => true,
    }
}

} // verus!

verus! {

pub open spec fn ints_view(v: Seq<usize>) -> Seq<int> {
    Seq::new(v.len(), |i: int| v[i] as int)
}

proof fn lemma_ints_push(v: Seq<usize>, x: usize)
    ensures
        ints_view(v.push(x)) == ints_view(v).push(x as int),
{
    assert(ints_view(v.push(x)) =~= ints_view(v).push(x as int));
}

fn window_eq_exec(lines: &Vec<Vec<char>>, pattern: &Vec<Vec<char>>, i: usize) -> (b: bool)
    ensures
        b == window_eq(lines_view(lines@), lines_view(pattern@), i as int),
{
    let ghost ls = lines_view(lines@);
    let ghost ps = lines_view(pattern@);
    if i > lines.len() || pattern.len() > lines.len() - i {
        return false;
    }
    let n = lines.len();
    let mut k: usize = 0;
    while k < pattern.len()
        invariant
            n == lines@.len(),
            ls == lines_view(lines@),
            ps == lines_view(pattern@),
            i + pattern@.len() <= lines@.len(),
            k <= pattern@.len(),
            forall|j: int| 0 <= j < k ==> ls[i + j] == ps[j],
        decreases pattern@.len() - k,
    {
        if !eq_chars(lines[i + k].as_slice(), pattern[k].as_slice()) {
            assert(ls.subrange(i as int, i + ps.len())[k as int] != ps[k as int]);
            return false;
        }
        k = k + 1;
    }
    assert(ls.subrange(i as int, i + ps.len()) =~= ps);
    true
}

fn matches_in_exec(lines: &Vec<Vec<char>>, pattern: &Vec<Vec<char>>, lo: usize, last: usize) -> (r: Vec<usize>)
    requires
        lo <= last,
    ensures
        ints_view(r@) == matches_in(lines_view(lines@), lines_view(pattern@), lo as int, last + 1),
        forall|k: int| 0 <= k < r@.len() ==> lo <= #[trigger] r@[k] <= last,
        forall|k: int| 0 <= k < r@.len() ==> window_eq(lines_view(lines@), lines_view(pattern@), #[trigger] r@[k] as int),
{
    let ghost ls = lines_view(lines@);
    let ghost ps = lines_view(pattern@);
    let mut r: Vec<usize> = Vec::new();
    let mut i = lo;
    assert(ints_view(r@) =~= Seq::<int>::empty());
    loop
        invariant
            lo <= i <= last,
            ls == lines_view(lines@),
            ps == lines_view(pattern@),
            ints_view(r@) == matches_in(ls, ps, lo as int, i as int),
            forall|k: int| 0 <= k < r@.len() ==> lo <= #[trigger] r@[k] < i,
            forall|k: int| 0 <= k < r@.len() ==> window_eq(ls, ps, #[trigger] r@[k] as int),
        decreases last - i,
    {
        if window_eq_exec(lines, pattern, i) {
            proof {
                lemma_ints_push(r@, i);
            }
            r.push(i);
        } else {
            assert(matches_in(ls, ps, lo as int, i + 1) =~= matches_in(ls, ps, lo as int, i as int));
        }
        if i == last {
            return r;
        }
        i = i + 1;
    }
}

fn match_indices_exec(lines: &Vec<Vec<char>>, pattern: &Vec<Vec<char>>, from: usize, eof: bool) -> (r: Vec<usize>)
    ensures
        ints_view(r@) == match_indices(lines_view(lines@), lines_view(pattern@), from as int, eof),
        forall|k: int| 0 <= k < r@.len() ==> #[trigger] r@[k] + pattern@.len() <= lines@.len(),
{
    if pattern.len() > lines.len() {
        let r: Vec<usize> = Vec::new();
        assert(ints_view(r@) =~= Seq::<int>::empty());
        return r;
    }
    let max_start = lines.len() - pattern.len();
    let lo = if eof {
        max_start
    } else {
        from
    };
    if lo > max_start {
        let r: Vec<usize> = Vec::new();
        assert(ints_view(r@) =~= Seq::<int>::empty());
        return r;
    }
    let r = matches_in_exec(lines, pattern, lo, max_start);
    proof {
        assert forall|k: int| 0 <= k < r@.len() implies #[trigger] r@[k] + pattern@.len() <= lines@.len() by {
            assert(window_eq(lines_view(lines@), lines_view(pattern@), r@[k] as int));
        }
    }
    r
}

fn context_candidates_exec(lines: &Vec<Vec<char>>, part: &[char], lo: usize) -> (r: Vec<usize>)
    ensures
        ints_view(r@) == context_candidates(lines_view(lines@), part@, lo as int, lines@.len() as int),
        forall|k: int| 0 <= k < r@.len() ==> lo <= #[trigger] r@[k] < lines@.len(),
{
    let ghost ls = lines_view(lines@);
    let mut r: Vec<usize> = Vec::new();
    assert(ints_view(r@) =~= Seq::<int>::empty());
    if lo >= lines.len() {
        return r;
    }
    let mut i = lo;
    while i < lines.len()
        invariant
            lo <= i <= lines@.len(),
            ls == lines_view(lines@),
            ints_view(r@) == context_candidates(ls, part@, lo as int, i as int),
            forall|k: int| 0 <= k < r@.len() ==> lo <= #[trigger] r@[k] < i,
        decreases lines@.len() - i,
    {
        assert(ls[i as int] == lines@[i as int]@);
        let t = trim_vec(lines[i].as_slice());
        if eq_chars(t.as_slice(), part) {
            proof {
                lemma_ints_push(r@, i);
            }
            r.push(i);
        } else {
            assert(context_candidates(ls, part@, lo as int, i + 1) =~= context_candidates(
                ls,
                part@,
                lo as int,
                i as int,
            ));
        }
        i = i + 1;
    }
    r
}

fn context_parts_exec(pieces: &Vec<Vec<char>>) -> (r: Vec<Vec<char>>)
    ensures
        lines_view(r@) == context_parts(lines_view(pieces@)),
{
    let ghost ps = lines_view(pieces@);
    let mut r: Vec<Vec<char>> = Vec::new();
    let mut i: usize = 0;
    assert(ps.take(0) =~= Seq::<Seq<char>>::empty());
    assert(lines_view(r@) =~= Seq::<Seq<char>>::empty());
    while i < pieces.len()
        invariant
            i <= pieces@.len(),
            ps == lines_view(pieces@),
            lines_view(r@) == context_parts(ps.take(i as int)),
        decreases pieces@.len() - i,
    {
        proof {
            assert(ps.take(i + 1).drop_last() =~= ps.take(i as int));
            assert(ps.take(i + 1).last() == pieces@[i as int]@);
        }
        let t = trim_vec(pieces[i].as_slice());
        if t.len() > 0 {
            let ghost before = lines_view(r@);
            let ghost tv = t@;
            r.push(t);
            assert(lines_view(r@) =~= before.push(tv));
        }
        i = i + 1;
    }
    assert(ps.take(pieces@.len() as int) =~= ps);
    r
}

fn replace_nl_exec(s: &[char]) -> (r: Vec<char>)
    ensures
        r@ == replace_nl(s@),
{
    let sep = chars_of(" > ");
    let mut r: Vec<char> = Vec::new();
    let mut i: usize = 0;
    assert(s@.take(0) =~= Seq::<char>::empty());
    while i < s.len()
        invariant
            i <= s@.len(),
            sep@ == " > "@,
            r@ == replace_nl(s@.take(i as int)),
        decreases s@.len() - i,
    {
        proof {
            assert(s@.take(i + 1).drop_last() =~= s@.take(i as int));
            assert(s@.take(i + 1).last() == s@[i as int]);
        }
        if s[i] == '\n' {
            append_chars(&mut r, sep.as_slice());
        } else {
            r.push(s[i]);
        }
        i = i + 1;
    }
    assert(s@.take(s@.len() as int) =~= s@);
    r
}

fn listed_exec(c: &Vec<usize>) -> (r: Vec<char>)
    requires
        forall|k: int| 0 <= k < c@.len() ==> #[trigger] c@[k] < usize::MAX,
    ensures
        r@ == listed(ints_view(c@)),
{
    let ghost cv = ints_view(c@);
    let n = if c.len() > 5 {
        5
    } else {
        c.len()
    };
    let ghost shown = if cv.len() > 5 {
        cv.take(5)
    } else {
        cv
    };
    let mut parts: Vec<Vec<char>> = Vec::new();
    let mut i: usize = 0;
    while i < n
        invariant
            i <= n <= c@.len(),
            n == shown.len(),
            cv == ints_view(c@),
            shown == (if cv.len() > 5 { cv.take(5) } else { cv }),
            forall|k: int| 0 <= k < c@.len() ==> #[trigger] c@[k] < usize::MAX,
            parts@.len() == i,
            forall|k: int| 0 <= k < i ==> #[trigger] parts@[k]@ == dec((shown[k] + 1) as nat),
        decreases n - i,
    {
        let d = decimal(c[i] as u128 + 1);
        parts.push(d);
        i = i + 1;
    }
    assert(lines_view(parts@) =~= Seq::new(shown.len(), |k: int| dec((shown[k] + 1) as nat)));
    let sep = chars_of(", ");
    join_exec(&parts, sep.as_slice())
}


fn append_lit(r: &mut Vec<char>, lit: &str)
    ensures
        final(r)@ == old(r)@ + lit@,
{
    let v = chars_of(lit);
    append_chars(r, v.as_slice());
}

fn append_dec(r: &mut Vec<char>, n: u128)
    ensures
        final(r)@ == old(r)@ + dec(n as nat),
{
    let v = decimal(n);
    append_chars(r, v.as_slice());
}

fn find_context_from_exec(
    lines: &Vec<Vec<char>>,
    parts: &Vec<Vec<char>>,
    from: usize,
    context: &[char],
    path: &[char],
) -> (r: Result<usize, Vec<char>>)
    requires
        from <= lines@.len(),
    ensures
        match r {
            Ok(c) => find_context_from(lines_view(lines@), lines_view(parts@), 0, from as int, context@, path@)
                == Ok::<int, Seq<char>>(c as int) && c <= lines@.len(),
            Err(msg) => find_context_from(lines_view(lines@), lines_view(parts@), 0, from as int, context@, path@)
                == Err::<int, Seq<char>>(msg@),
        },
{
    let ghost ls = lines_view(lines@);
    let ghost ps = lines_view(parts@);
    let ghost goal = find_context_from(ls, ps, 0, from as int, context@, path@);
    let n = lines.len();
    let mut idx: usize = 0;
    let mut cursor = from;
    while idx < parts.len()
        invariant
            goal == find_context_from(ls, ps, 0, from as int, context@, path@),
            n == lines@.len(),
            idx <= parts@.len(),
            cursor <= lines@.len(),
            ls == lines_view(lines@),
            ps == lines_view(parts@),
            goal == find_context_from(ls, ps, idx as int, cursor as int, context@, path@),
        decreases parts@.len() - idx,
    {
        assert(ps[idx as int] == parts@[idx as int]@);
        let part = &parts[idx];
        let c = context_candidates_exec(lines, part.as_slice(), cursor);
        let last = idx + 1 == parts.len();
        if c.len() == 0 {
            let mut m = chars_of("Failed to find context '");
            let rn = replace_nl_exec(context);
            append_chars(&mut m, rn.as_slice());
            append_lit(&mut m, "' in ");
            append_chars(&mut m, path);
            return Err(m);
        }
        assert(ints_view(c@)[0] == c@[0] as int);
        if c.len() == 1 {
            if last {
                return Ok(c[0]);
            }
            cursor = c[0] + 1;
        } else if last {
            let mut m = chars_of("Found ");
            append_dec(&mut m, c.len() as u128);
            append_lit(&mut m, " matches for context '");
            append_chars(&mut m, part.as_slice());
            append_lit(&mut m, "' in ");
            append_chars(&mut m, path);
            append_lit(&mut m, " (lines ");
            let l = listed_exec(&c);
            append_chars(&mut m, l.as_slice());
            append_lit(&mut m, ").\n\nAdd more surrounding context or additional @@ anchors to make it unique.");
            return Err(m);
        } else {
            cursor = c[0] + 1;
        }
        idx = idx + 1;
    }
    Ok(cursor)
}

/// The trimmed-equal positions of `pattern` against the window at `i`.
fn trimmed_agree_exec(lines: &Vec<Vec<char>>, pattern: &Vec<Vec<char>>, i: usize) -> (n: usize)
    requires
        i + pattern@.len() <= lines@.len(),
    ensures
        n as nat == trimmed_agree(lines_view(lines@), lines_view(pattern@), i as int, pattern@.len() as int),
        n <= pattern@.len(),
{
    let ghost ls = lines_view(lines@);
    let ghost ps = lines_view(pattern@);
    let len = lines.len();
    let mut n: usize = 0;
    let mut k: usize = 0;
    while k < pattern.len()
        invariant
            len == lines@.len(),
            i + pattern@.len() <= lines@.len(),
            k <= pattern@.len(),
            n <= k,
            ls == lines_view(lines@),
            ps == lines_view(pattern@),
            n as nat == trimmed_agree(ls, ps, i as int, k as int),
        decreases pattern@.len() - k,
    {
        assert(ls[i + k] == lines@[i + k]@);
        assert(ps[k as int] == pattern@[k as int]@);
        let a = trim_vec(lines[i + k].as_slice());
        let b = trim_vec(pattern[k].as_slice());
        if eq_chars(a.as_slice(), b.as_slice()) {
            n = n + 1;
        }
        k = k + 1;
    }
    n
}

fn closest_window_exec(lines: &Vec<Vec<char>>, pattern: &Vec<Vec<char>>) -> (r: Option<(usize, usize)>)
    ensures
        match r {
            Some((b, s)) => closest_window(lines_view(lines@), lines_view(pattern@)) == Some((b as int, s as nat))
                && b < lines@.len() && s <= pattern@.len(),
            None => closest_window(lines_view(lines@), lines_view(pattern@)) is None,
        },
{
    let ghost ls = lines_view(lines@);
    let ghost ps = lines_view(pattern@);
    if pattern.len() == 0 || pattern.len() > lines.len() {
        return None;
    }
    let max_start = lines.len() - pattern.len();
    let mut best: usize = 0;
    let mut score = trimmed_agree_exec(lines, pattern, 0);
    let n = lines.len();
    let mut i: usize = 1;
    while i <= max_start
        invariant
            n == lines@.len(),
            1 <= i <= max_start + 1,
            max_start + pattern@.len() == lines@.len(),
            pattern@.len() > 0,
            best < i,
            score <= pattern@.len(),
            ls == lines_view(lines@),
            ps == lines_view(pattern@),
            best_window(ls, ps, i as int) == (best as int, score as nat),
        decreases max_start + 1 - i,
    {
        let t = trimmed_agree_exec(lines, pattern, i);
        if t > score {
            best = i;
            score = t;
        }
        i = i + 1;
    }
    if score > 0 {
        Some((best, score))
    } else {
        None
    }
}

pub(crate) fn to_f64_exec(v: u128) -> (r: u128)
    requires
        v <= 0x100_0000_0000_0000_0000_0000_0000_0000,
    ensures
        r == to_f64(v as int),
        v <= 0x1_0000_0000_0000_0000 ==> r <= 0x2_0000_0000_0000_0000,
        r <= 0x200_0000_0000_0000_0000_0000_0000_0000,
        v > 0 ==> r > 0,
{
    let mut p: u128 = 1;
    while v >= 0x20_0000_0000_0000 * p
        invariant
            v <= 0x100_0000_0000_0000_0000_0000_0000_0000,
            1 <= p,
            p == 1 || 0x10_0000_0000_0000 * p <= v,
            f64_scale(v as int, 1) == f64_scale(v as int, p as int),
        decreases v - p,
    {
        p = 2 * p;
    }
    assert(p <= v || p == 1);
    assert(p <= 0x1_0000_0000_0000_0000_0000);
    let q = round_half_even_exec(v, p);
    assert(q * p <= v + p) by (nonlinear_arith)
        requires
            q <= v / p + 1,
            p >= 1,
    ;
    assert(v > 0 ==> q > 0) by {
        if v > 0 {
            assert(v / p >= 1) by (nonlinear_arith)
                requires
                    p <= v || p == 1,
                    p >= 1,
                    v > 0,
            ;
            assert(q >= v / p);
        }
    }
    assert(v > 0 ==> q * p > 0) by (nonlinear_arith)
        requires
            v > 0 ==> q > 0,
            p >= 1,
    ;
    q * p
}

fn similarity_percent_exec(matched: usize, total: usize) -> (r: u128)
    requires
        0 < matched <= total,
    ensures
        r as nat == similarity_percent(matched as nat, total as nat),
{
    let m = to_f64_exec(matched as u128);
    let n = to_f64_exec(total as u128);
    let mut a = m;
    let mut p: u128 = 1;
    while a < n
        invariant
            1 <= p <= a,
            a <= 0x4_0000_0000_0000_0000,
            1 <= n <= 0x2_0000_0000_0000_0000,
            binade(m as int, 1, n as int) == binade(a as int, p as int, n as int),
        decreases 2 * n - a,
    {
        a = 2 * a;
        p = 2 * p;
    }
    let num = a * 0x10_0000_0000_0000;
    let m1 = round_half_even_exec(num, n);
    assert(m1 <= num + 1) by {
        assert(num / n <= num) by (nonlinear_arith)
            requires
                n >= 1,
        ;
    }
    let prod = 100 * m1;
    let s: u128 = if prod < 0x800_0000_0000_0000 {
        64
    } else {
        128
    };
    let q = round_half_even_exec(prod, s);
    assert(q * s <= prod + s) by (nonlinear_arith)
        requires
            q <= prod / s + 1,
            s >= 1,
    ;
    let m2 = q * s;
    round_half_even_exec(m2, 0x10_0000_0000_0000 * p)
}

fn not_found_message_exec(lines: &Vec<Vec<char>>, path: &[char], old: &Vec<Vec<char>>) -> (m: Vec<char>)
    ensures
        m@ == not_found_message(lines_view(lines@), path@, lines_view(old@)),
{
    let mut m = chars_of("Failed to find expected lines in ");
    append_chars(&mut m, path);
    append_lit(&mut m, ":\n");
    let nl: Vec<char> = vec!['\n'];
    assert(nl@ =~= seq!['\n']);
    let expected = join_exec(old, nl.as_slice());
    append_chars(&mut m, expected.as_slice());
    match closest_window_exec(lines, old) {
        Some((index, matched)) => {
            append_lit(&mut m, "\n\nClosest match (");
            append_dec(&mut m, similarity_percent_exec(matched, old.len()));
            append_lit(&mut m, "% similar) near line ");
            append_dec(&mut m, index as u128 + 1);
            append_lit(&mut m, ".");
        },
        None => {},
    }
    m
}


/// A hunk with its text as character vectors.
struct HunkChars {
    context: Option<Vec<char>>,
    old_start_line: Option<usize>,
    has_context_lines: bool,
    old_lines: Vec<Vec<char>>,
    new_lines: Vec<Vec<char>>,
    is_end_of_file: bool,
}

impl HunkChars {
    spec fn view(&self) -> HunkView {
        HunkView {
            context: match self.context {
                Some(c) => Some(c@),
                None => None,
            },
            old_start_line: self.old_start_line,
            has_context_lines: self.has_context_lines,
            old_lines: lines_view(self.old_lines@),
            new_lines: lines_view(self.new_lines@),
            is_end_of_file: self.is_end_of_file,
        }
    }
}

fn hunk_chars(h: &Hunk) -> (r: HunkChars)
    ensures
        r.view() == h@,
{
    let context = match &h.context {
        Some(c) => Some(chars_of(c.as_str())),
        None => None,
    };
    let old_lines = chars_of_strings(&h.old_lines);
    let new_lines = chars_of_strings(&h.new_lines);
    assert(lines_view(old_lines@) =~= strings_view(h.old_lines@));
    assert(lines_view(new_lines@) =~= strings_view(h.new_lines@));
    HunkChars {
        context,
        old_start_line: h.old_start_line,
        has_context_lines: h.has_context_lines,
        old_lines,
        new_lines,
        is_end_of_file: h.is_end_of_file,
    }
}

fn anchor_moves(h: &HunkChars) -> (b: bool)
    requires
        h.context is Some,
    ensures
        b == !(first_old(h.view()) == final_context(h.view()) || hierarchical(h.view())),
{
    let c = match &h.context {
        Some(c) => c,
        None => {
            return false;
        },
    };
    let pieces = split_on_exec(c.as_slice(), '\n');
    let last_piece = trim_vec(pieces[pieces.len() - 1].as_slice());
    assert(lines_view(pieces@).last() == pieces@[pieces@.len() - 1]@);
    let same = if h.old_lines.len() > 0 {
        assert(lines_view(h.old_lines@)[0] == h.old_lines@[0]@);
        let f = trim_vec(h.old_lines[0].as_slice());
        eq_chars(f.as_slice(), last_piece.as_slice())
    } else {
        false
    };
    let hier = crate::text::contains_char_exec(c.as_slice(), '\n') || words_exec(c.as_slice()).len() > 2;
    !(same || hier)
}

fn near_exec(m: &Vec<usize>, target: usize) -> (r: Vec<usize>)
    ensures
        ints_view(r@) == near(ints_view(m@), target as int),
{
    let ghost mv = ints_view(m@);
    let mut r: Vec<usize> = Vec::new();
    let mut i: usize = 0;
    assert(mv.take(0) =~= Seq::<int>::empty());
    assert(ints_view(r@) =~= Seq::<int>::empty());
    while i < m.len()
        invariant
            i <= m@.len(),
            mv == ints_view(m@),
            ints_view(r@) == near(mv.take(i as int), target as int),
        decreases m@.len() - i,
    {
        proof {
            assert(mv.take(i + 1).drop_last() =~= mv.take(i as int));
            assert(mv.take(i + 1).last() == m@[i as int] as int);
        }
        let x = m[i];
        let close = if x >= target {
            x - target <= 200
        } else {
            target - x <= 200
        };
        if close {
            proof {
                lemma_ints_push(r@, x);
            }
            r.push(x);
        }
        i = i + 1;
    }
    assert(mv.take(m@.len() as int) =~= mv);
    r
}

fn clone_lines(v: &Vec<Vec<char>>) -> (r: Vec<Vec<char>>)
    ensures
        lines_view(r@) == lines_view(v@),
{
    let r = crate::apply_patch::sub_lines(v, 0, v.len());
    assert(lines_view(v@).subrange(0, v@.len() as int) =~= lines_view(v@));
    r
}

fn many_matches_exec(m: &Vec<usize>, path: &[char], lines_len: usize) -> (r: Vec<char>)
    requires
        lines_len < usize::MAX,
        forall|k: int| 0 <= k < m@.len() ==> #[trigger] m@[k] <= lines_len,
    ensures
        r@ == many_matches_message(ints_view(m@), path@),
{
    let mut r = chars_of("Found ");
    append_dec(&mut r, m.len() as u128);
    append_lit(&mut r, " matches for the text in ");
    append_chars(&mut r, path);
    append_lit(&mut r, " (lines ");
    let l = listed_exec(m);
    append_chars(&mut r, l.as_slice());
    append_lit(&mut r, ").\n\nAdd more surrounding context or additional @@ anchors to make it unique.");
    r
}

fn hunk_anchor_exec(lines: &Vec<Vec<char>>, path: &[char], h: &HunkChars, cursor1: usize) -> (r: Result<usize, Vec<char>>)
    requires
        cursor1 <= lines@.len(),
        lines@.len() < usize::MAX,
    ensures
        match r {
            Ok(a) => hunk_anchor(lines_view(lines@), path@, h.view(), cursor1 as int) == Ok::<int, Seq<char>>(a as int)
                && a <= lines@.len() + 1,
            Err(m) => hunk_anchor(lines_view(lines@), path@, h.view(), cursor1 as int) == Err::<int, Seq<char>>(m@),
        },
{
    let a0 = match &h.context {
        None => cursor1,
        Some(c) => {
            let pieces = split_on_exec(c.as_slice(), '\n');
            let parts = context_parts_exec(&pieces);
            match find_context_from_exec(lines, &parts, cursor1, c.as_slice(), path) {
                Ok(a) => a,
                Err(m) => {
                    return Err(m);
                },
            }
        },
    };
    if h.context.is_some() && anchor_moves(h) {
        Ok(a0 + 1)
    } else {
        Ok(a0)
    }
}

fn insertion_point_exec(lines: &Vec<Vec<char>>, path: &[char], h: &HunkChars, anchor: usize) -> (r: Result<usize, Vec<char>>)
    requires
        h.old_start_line matches Some(hh) ==> hh >= 1,
    ensures
        match r {
            Ok(a) => insertion_point(lines_view(lines@), path@, h.view(), anchor as int) == Ok::<int, Seq<char>>(a as int),
            Err(m) => insertion_point(lines_view(lines@), path@, h.view(), anchor as int) == Err::<int, Seq<char>>(m@),
        },
{
    let ghost ls = lines_view(lines@);
    let len = lines.len();
    if h.context.is_some() {
        return Ok(anchor);
    }
    match h.old_start_line {
        Some(hh) => {
            if hh - 1 > len {
                let mut m = chars_of("Line hint ");
                append_dec(&mut m, hh as u128);
                append_lit(&mut m, " is out of range for insertion in ");
                append_chars(&mut m, path);
                append_lit(&mut m, " (file has ");
                append_dec(&mut m, len as u128);
                append_lit(&mut m, " lines)");
                return Err(m);
            }
            Ok(hh - 1)
        },
        None => {
            if len > 0 {
                assert(ls.last() == lines@[len - 1]@);
            }
            if len > 0 && lines[len - 1].len() == 0 {
                Ok(len - 1)
            } else {
                Ok(len)
            }
        },
    }
}

fn retry_pattern_exec(lines: &Vec<Vec<char>>, h: &HunkChars, anchor: usize) -> (r: (Vec<Vec<char>>, Vec<Vec<char>>))
    requires
        h.old_lines@.len() > 0,
    ensures
        retry_pattern(lines_view(lines@), h.view(), anchor as int) == (lines_view(r.0@), lines_view(r.1@)),
{
    let m0 = match_indices_exec(lines, &h.old_lines, anchor, h.is_end_of_file);
    let nold = h.old_lines.len();
    assert(lines_view(h.old_lines@).last() == h.old_lines@[nold - 1]@);
    let retry = m0.len() == 0 && h.old_lines[nold - 1].len() == 0;
    let mut p = clone_lines(&h.old_lines);
    let mut nl = clone_lines(&h.new_lines);
    if retry {
        let ghost pv = lines_view(p@);
        p.pop();
        assert(lines_view(p@) =~= pv.drop_last());
        let nn = nl.len();
        if nn > 0 {
            assert(lines_view(nl@).last() == nl@[nn - 1]@);
        }
        if nn > 0 && nl[nn - 1].len() == 0 {
            let ghost nv = lines_view(nl@);
            nl.pop();
            assert(lines_view(nl@) =~= nv.drop_last());
        }
    }
    (p, nl)
}

fn all_matches_exec(lines: &Vec<Vec<char>>, h: &HunkChars, anchor: usize, p: &Vec<Vec<char>>) -> (m: Vec<usize>)
    ensures
        ints_view(m@) == all_matches(lines_view(lines@), h.view(), anchor as int, lines_view(p@)),
        forall|k: int| 0 <= k < m@.len() ==> #[trigger] m@[k] + p@.len() <= lines@.len(),
{
    let m1 = match_indices_exec(lines, p, anchor, h.is_end_of_file);
    if m1.len() == 0 && anchor != 0 {
        match_indices_exec(lines, p, 0, h.is_end_of_file)
    } else {
        m1
    }
}

fn locate_exec(lines: &Vec<Vec<char>>, path: &[char], h: &HunkChars, m: &Vec<usize>) -> (r: Result<usize, Vec<char>>)
    requires
        lines@.len() < usize::MAX,
        h.old_start_line matches Some(hh) ==> hh >= 1,
        forall|k: int| 0 <= k < m@.len() ==> #[trigger] m@[k] <= lines@.len(),
    ensures
        match r {
            Ok(f) => locate(lines_view(lines@), path@, h.view(), ints_view(m@)) == Ok::<int, Seq<char>>(f as int)
                && exists|k: int| 0 <= k < m@.len() && m@[k] == f,
            Err(msg) => locate(lines_view(lines@), path@, h.view(), ints_view(m@)) == Err::<int, Seq<char>>(msg@),
        },
{
    let len = lines.len();
    if m.len() == 0 {
        return Err(not_found_message_exec(lines, path, &h.old_lines));
    }
    if m.len() == 1 {
        assert(ints_view(m@)[0] == m@[0] as int);
        return Ok(m[0]);
    }
    match h.old_start_line {
        Some(hh) => {
            let target: usize = hh - 1;
            let f = near_exec(m, target);
            if f.len() == 1 {
                assert(ints_view(f@)[0] == f@[0] as int);
                proof {
                    lemma_near_members(ints_view(m@), target as int);
                    assert(ints_view(m@).contains(f@[0] as int));
                    let k = choose|k: int| 0 <= k < ints_view(m@).len() && ints_view(m@)[k] == f@[0] as int;
                    assert(m@[k] == f@[0]);
                }
                return Ok(f[0]);
            }
            Err(many_matches_exec(m, path, len))
        },
        None => Err(many_matches_exec(m, path, len)),
    }
}

fn place_step_exec(lines: &Vec<Vec<char>>, path: &[char], h: &HunkChars, cursor: usize) -> (r: Result<
    (Option<Replacement>, usize),
    Vec<char>,
>)
    requires
        lines@.len() < usize::MAX,
        cursor <= lines@.len(),
    ensures
        match r {
            Ok((o, c)) => place_step(lines_view(lines@), path@, h.view(), cursor as int) == Ok::<
                (Option<Rep>, int),
                Seq<char>,
            >(
                (
                    match o {
                        Some(x) => Some(x.rep()),
                        None => None,
                    },
                    c as int,
                ),
            ) && c <= lines@.len(),
            Err(m) => place_step(lines_view(lines@), path@, h.view(), cursor as int) == Err::<
                (Option<Rep>, int),
                Seq<char>,
            >(m@),
        },
{
    let len = lines.len();
    match h.old_start_line {
        Some(hh) => {
            if hh < 1 {
                let mut m = chars_of("Line hint ");
                append_dec(&mut m, hh as u128);
                append_lit(&mut m, " is out of range for ");
                append_chars(&mut m, path);
                append_lit(&mut m, " (line numbers start at 1)");
                return Err(m);
            }
        },
        None => {},
    }
    let cursor1 = match h.old_start_line {
        Some(hh) => {
            if h.context.is_none() && !h.has_context_lines {
                if hh - 1 <= len {
                    hh - 1
                } else {
                    len
                }
            } else {
                cursor
            }
        },
        None => cursor,
    };
    let anchor = match hunk_anchor_exec(lines, path, h, cursor1) {
        Ok(a) => a,
        Err(m) => {
            return Err(m);
        },
    };
    if h.old_lines.len() == 0 {
        let at = match insertion_point_exec(lines, path, h, anchor) {
            Ok(a) => a,
            Err(m) => {
                return Err(m);
            },
        };
        let rep = Replacement { start: at, old_len: 0, new_lines: clone_lines(&h.new_lines) };
        return Ok((Some(rep), cursor1));
    }
    let (p, nl) = retry_pattern_exec(lines, h, anchor);
    let m = all_matches_exec(lines, h, anchor, &p);
    let found = match locate_exec(lines, path, h, &m) {
        Ok(f) => f,
        Err(msg) => {
            return Err(msg);
        },
    };
    assert(found + p@.len() <= len) by {
        let k = choose|k: int| 0 <= k < m@.len() && m@[k] == found;
        assert(m@[k] + p@.len() <= len);
    }
    let plen = p.len();
    if eq_lines(&p, &nl) {
        Ok((None, found + plen))
    } else {
        Ok((Some(Replacement { start: found, old_len: plen, new_lines: nl }), found + plen))
    }
}

fn place_hunks_exec(lines: &Vec<Vec<char>>, path: &[char], hunks: &[Hunk]) -> (r: Result<Vec<Replacement>, Vec<char>>)
    requires
        lines@.len() < usize::MAX,
    ensures
        match r {
            Ok(v) => place_hunks(lines_view(lines@), path@, hunks_view(hunks@), 0, 0, Seq::empty())
                == Ok::<Seq<Rep>, Seq<char>>(reps_view(v@)),
            Err(m) => place_hunks(lines_view(lines@), path@, hunks_view(hunks@), 0, 0, Seq::empty())
                == Err::<Seq<Rep>, Seq<char>>(m@),
        },
{
    let ghost ls = lines_view(lines@);
    let ghost hv = hunks_view(hunks@);
    let ghost goal = place_hunks(ls, path@, hv, 0, 0, Seq::empty());
    let len = lines.len();
    let mut cursor: usize = 0;
    let mut reps: Vec<Replacement> = Vec::new();
    let mut i: usize = 0;
    assert(reps_view(reps@) =~= Seq::<Rep>::empty());
    while i < hunks.len()
        invariant
            i <= hunks@.len(),
            len == lines@.len(),
            len < usize::MAX,
            cursor <= len,
            ls == lines_view(lines@),
            hv == hunks_view(hunks@),
            goal == place_hunks(ls, path@, hv, 0, 0, Seq::empty()),
            goal == place_hunks(ls, path@, hv, i as int, cursor as int, reps_view(reps@)),
        decreases hunks@.len() - i,
    {
        let h = hunk_chars(&hunks[i]);
        assert(hv[i as int] == hunks@[i as int]@);
        let (o, c) = match place_step_exec(lines, path, &h, cursor) {
            Ok(step) => step,
            Err(m) => {
                return Err(m);
            },
        };
        match o {
            Some(rep) => {
                let ghost before = reps_view(reps@);
                let ghost rv = rep.rep();
                reps.push(rep);
                assert(reps_view(reps@) =~= before.push(rv));
            },
            None => {},
        }
        cursor = c;
        i = i + 1;
    }
    Ok(reps)
}

proof fn lemma_near_members(m: Seq<int>, target: int)
    ensures
        forall|k: int| 0 <= k < near(m, target).len() ==> m.contains(#[trigger] near(m, target)[k]),
    decreases m.len(),
{
    if m.len() > 0 {
        lemma_near_members(m.drop_last(), target);
        assert forall|k: int| 0 <= k < near(m, target).len() implies m.contains(#[trigger] near(m, target)[k]) by {
            if k < near(m.drop_last(), target).len() {
                let x = near(m.drop_last(), target)[k];
                assert(m.drop_last().contains(x));
                let j = choose|j: int| 0 <= j < m.drop_last().len() && m.drop_last()[j] == x;
                assert(m[j] == x);
            } else {
                assert(m[m.len() - 1] == m.last());
            }
        }
    }
}

fn eq_lines(a: &Vec<Vec<char>>, b: &Vec<Vec<char>>) -> (r: bool)
    ensures
        r == (lines_view(a@) == lines_view(b@)),
{
    if a.len() != b.len() {
        assert(lines_view(a@).len() != lines_view(b@).len());
        return false;
    }
    let mut i: usize = 0;
    while i < a.len()
        invariant
            a@.len() == b@.len(),
            i <= a@.len(),
            forall|k: int| 0 <= k < i ==> lines_view(a@)[k] == lines_view(b@)[k],
        decreases a@.len() - i,
    {
        if !eq_chars(a[i].as_slice(), b[i].as_slice()) {
            assert(lines_view(a@)[i as int] != lines_view(b@)[i as int]);
            return false;
        }
        i = i + 1;
    }
    assert(lines_view(a@) =~= lines_view(b@));
    true
}


// ---------------------------------------------------------------------------
// Ordering and overlap: code and lemmas
// ---------------------------------------------------------------------------

proof fn lemma_insert_position(s: Seq<Rep>, r: Rep, k: int)
    requires
        0 <= k <= s.len(),
        forall|i: int| 0 <= i < k ==> s[i].start <= r.start,
    ensures
        k <= insert_position(s, r, k) <= s.len(),
        forall|i: int| 0 <= i < insert_position(s, r, k) ==> s[i].start <= r.start,
        insert_position(s, r, k) < s.len() ==> s[insert_position(s, r, k)].start > r.start,
    decreases s.len() - k,
{
    if k < s.len() && s[k].start <= r.start {
        lemma_insert_position(s, r, k + 1);
    }
}

pub open spec fn sorted_by_start(s: Seq<Rep>) -> bool {
    forall|i: int, j: int| 0 <= i < j < s.len() ==> s[i].start <= s[j].start
}

proof fn lemma_sort_reps(s: Seq<Rep>)
    ensures
        sorted_by_start(sort_reps(s)),
        sort_reps(s).len() == s.len(),
        forall|i: int| 0 <= i < sort_reps(s).len() ==> s.contains(#[trigger] sort_reps(s)[i]),
    decreases s.len(),
{
    if s.len() > 0 {
        let t = sort_reps(s.drop_last());
        lemma_sort_reps(s.drop_last());
        let r = s.last();
        lemma_insert_position(t, r, 0);
        let k = insert_position(t, r, 0);
        let u = t.take(k).push(r) + t.skip(k);
        assert(sort_reps(s) == u);
        assert forall|i: int, j: int| 0 <= i < j < u.len() implies u[i].start <= u[j].start by {
            if j < k {
                assert(u[i] == t[i] && u[j] == t[j]);
            } else if j == k {
                assert(u[j] == r);
                assert(u[i] == t[i]);
            } else if i < k {
                assert(u[i] == t[i] && u[j] == t[j - 1]);
            } else if i == k {
                assert(u[i] == r && u[j] == t[j - 1]);
                assert(t[k].start > r.start);
                if j - 1 > k {
                    assert(t[k].start <= t[j - 1].start);
                }
            } else {
                assert(u[i] == t[i - 1] && u[j] == t[j - 1]);
            }
        }
        assert forall|i: int| 0 <= i < u.len() implies s.contains(#[trigger] u[i]) by {
            if i < k {
                assert(u[i] == t[i]);
                assert(s.drop_last().contains(t[i]));
                let j = choose|j: int| 0 <= j < s.drop_last().len() && s.drop_last()[j] == t[i];
                assert(s[j] == t[i]);
            } else if i == k {
                assert(s[s.len() - 1] == r);
            } else {
                assert(u[i] == t[i - 1]);
                assert(s.drop_last().contains(t[i - 1]));
                let j = choose|j: int| 0 <= j < s.drop_last().len() && s.drop_last()[j] == t[i - 1];
                assert(s[j] == t[i - 1]);
            }
        }
    }
}

proof fn lemma_no_overlap(s: Seq<Rep>, j: int)
    requires
        0 <= j,
        first_overlap(s, j) is None,
    ensures
        forall|a: int| j <= a && a + 1 < s.len() ==> #[trigger] s[a + 1].start >= s[a].start + s[a].old_len,
    decreases s.len() - j,
{
    if j + 1 < s.len() {
        lemma_no_overlap(s, j + 1);
    }
}

/// Sorted replacements that do not overlap their neighbours do not overlap at all.
proof fn lemma_pairwise_disjoint(s: Seq<Rep>)
    requires
        sorted_by_start(s),
        forall|k: int| 0 <= k < s.len() ==> 0 <= #[trigger] s[k].old_len,
        forall|a: int| 0 <= a && a + 1 < s.len() ==> #[trigger] s[a + 1].start >= s[a].start + s[a].old_len,
    ensures
        forall|a: int, b: int| 0 <= a < b < s.len() ==> s[a].start + s[a].old_len <= s[b].start,
{
    assert forall|a: int, b: int| 0 <= a < b < s.len() implies s[a].start + s[a].old_len <= s[b].start by {
        assert(s[a + 1].start >= s[a].start + s[a].old_len);
        if a + 1 < b {
            assert(s[a + 1].start <= s[b].start);
        }
    }
}

fn sort_reps_exec(reps: Vec<Replacement>) -> (r: Vec<Replacement>)
    ensures
        reps_view(r@) == sort_reps(reps_view(reps@)),
{
    let ghost ov = reps_view(reps@);
    let mut rest = reps;
    let n = rest.len();
    let mut out: Vec<Replacement> = Vec::new();
    let mut k: usize = 0;
    assert(ov.take(0) =~= Seq::<Rep>::empty());
    assert(reps_view(out@) =~= Seq::<Rep>::empty());
    assert(ov.skip(0) =~= ov);
    while rest.len() > 0
        invariant
            k <= ov.len(),
            n == ov.len(),
            k + rest@.len() == n,
            reps_view(rest@) == ov.skip(k as int),
            reps_view(out@) == sort_reps(ov.take(k as int)),
        decreases rest@.len(),
    {
        let ghost rv0 = reps_view(rest@);
        let r = rest.remove(0);
        assert(reps_view(rest@) =~= rv0.drop_first());
        assert(r.rep() == ov[k as int]) by {
            assert(rv0[0] == ov.skip(k as int)[0]);
        }
        assert(ov.skip(k as int).drop_first() =~= ov.skip(k + 1));
        // find the insertion position
        let ghost t = reps_view(out@);
        let mut pos: usize = 0;
        while pos < out.len() && out[pos].start <= r.start
            invariant
                pos <= out@.len(),
                t == reps_view(out@),
                insert_position(t, r.rep(), 0) == insert_position(t, r.rep(), pos as int),
            decreases out@.len() - pos,
        {
            pos = pos + 1;
        }
        let ghost rr = r.rep();
        out.insert(pos, r);
        proof {
            assert(ov.take(k + 1).drop_last() =~= ov.take(k as int));
            assert(ov.take(k + 1).last() == rr);
            assert(reps_view(out@) =~= t.take(pos as int).push(rr) + t.skip(pos as int));
        }
        k = k + 1;
    }
    proof {
        assert(ov.skip(k as int).len() == 0);
        assert(ov.take(k as int) =~= ov);
    }
    out
}

fn range_text_exec(r: &Replacement) -> (t: Vec<char>)
    ensures
        t@ == range_text(r.rep()),
{
    let mut t = decimal(r.start as u128 + 1);
    if r.old_len == 0 {
        append_lit(&mut t, " (insertion)");
    } else {
        append_lit(&mut t, "-");
        append_dec(&mut t, r.start as u128 + r.old_len as u128);
    }
    t
}

fn compute_replacements_exec(lines: &Vec<Vec<char>>, path: &[char], hunks: &[Hunk]) -> (r: Result<Vec<Replacement>, Vec<char>>)
    requires
        lines@.len() < usize::MAX,
    ensures
        match r {
            Ok(v) => compute_replacements(lines_view(lines@), path@, hunks_view(hunks@)) == Ok::<Seq<Rep>, Seq<char>>(
                reps_view(v@),
            ),
            Err(m) => compute_replacements(lines_view(lines@), path@, hunks_view(hunks@)) == Err::<
                Seq<Rep>,
                Seq<char>,
            >(m@),
        },
{
    let placed = match place_hunks_exec(lines, path, hunks) {
        Ok(p) => p,
        Err(m) => {
            return Err(m);
        },
    };
    let sorted = sort_reps_exec(placed);
    let ghost sv = reps_view(sorted@);
    let ghost goal = compute_replacements(lines_view(lines@), path@, hunks_view(hunks@));
    assert(goal == check_overlaps(path@, sv));
    let n = sorted.len();
    if n == 0 {
        return Ok(sorted);
    }
    let mut j: usize = 0;
    while j + 1 < n
        invariant
            n == sorted@.len(),
            j < n,
            sv == reps_view(sorted@),
            goal == check_overlaps(path@, sv),
            goal == compute_replacements(lines_view(lines@), path@, hunks_view(hunks@)),
            first_overlap(sv, 0) == first_overlap(sv, j as int),
        decreases n - j,
    {
        let left = &sorted[j];
        let right = &sorted[j + 1];
        if (right.start as u128) < (left.start as u128) + (left.old_len as u128) {
            let mut m = chars_of("Overlapping hunks detected in ");
            append_chars(&mut m, path);
            append_lit(&mut m, " at lines ");
            let a = range_text_exec(left);
            append_chars(&mut m, a.as_slice());
            append_lit(&mut m, " and ");
            let b = range_text_exec(right);
            append_chars(&mut m, b.as_slice());
            append_lit(&mut m, ". Split hunks or add more context to avoid overlap.");
            proof {
                assert(sv[j as int] == sorted@[j as int].rep());
                assert(sv[j + 1] == sorted@[j + 1].rep());
                assert(first_overlap(sv, j as int) == Some(j as int));
                assert(m@ =~= "Overlapping hunks detected in "@ + path@ + " at lines "@ + range_text(sv[j as int])
                    + " and "@ + range_text(sv[j + 1]) + ". Split hunks or add more context to avoid overlap."@);
            }
            return Err(m);
        }
        j = j + 1;
    }
    Ok(sorted)
}

// ---------------------------------------------------------------------------
// Applying: code
// ---------------------------------------------------------------------------

fn splice_exec(cur: Vec<Vec<char>>, r: &Replacement) -> (out: Vec<Vec<char>>)
    requires
        r.start + r.old_len <= cur@.len(),
    ensures
        lines_view(out@) == splice(lines_view(cur@), r.rep()),
{
    let n = cur.len();
    let mut out: Vec<Vec<char>> = Vec::new();
    let mut i: usize = 0;
    let ghost cv = lines_view(cur@);
    while i < r.start
        invariant
            i <= r.start,
            r.start + r.old_len <= cur@.len(),
            cv == lines_view(cur@),
            lines_view(out@) == cv.take(i as int),
        decreases r.start - i,
    {
        let ghost before = lines_view(out@);
        out.push(vstd::slice::slice_to_vec(cur[i].as_slice()));
        assert(lines_view(out@) =~= before.push(cv[i as int]));
        assert(cv.take(i + 1) =~= cv.take(i as int).push(cv[i as int]));
        i = i + 1;
    }
    let mut k: usize = 0;
    let ghost nv = lines_view(r.new_lines@);
    while k < r.new_lines.len()
        invariant
            k <= r.new_lines@.len(),
            nv == lines_view(r.new_lines@),
            lines_view(out@) == cv.take(r.start as int) + nv.take(k as int),
        decreases r.new_lines@.len() - k,
    {
        let ghost before = lines_view(out@);
        out.push(vstd::slice::slice_to_vec(r.new_lines[k].as_slice()));
        assert(lines_view(out@) =~= before.push(nv[k as int]));
        assert(nv.take(k + 1) =~= nv.take(k as int).push(nv[k as int]));
        assert(cv.take(r.start as int) + nv.take(k + 1) =~= (cv.take(r.start as int) + nv.take(k as int)).push(nv[k as int]));
        k = k + 1;
    }
    assert(nv.take(nv.len() as int) =~= nv);
    let mut i = r.start + r.old_len;
    let ghost base = cv.take(r.start as int) + nv;
    assert(cv.subrange(i as int, i as int) =~= Seq::<Seq<char>>::empty());
    assert(base + cv.subrange(i as int, i as int) =~= base);
    while i < cur.len()
        invariant
            r.start + r.old_len <= i <= cur@.len(),
            cv == lines_view(cur@),
            base == cv.take(r.start as int) + nv,
            lines_view(out@) == base + cv.subrange(r.start + r.old_len, i as int),
        decreases cur@.len() - i,
    {
        let ghost before = lines_view(out@);
        out.push(vstd::slice::slice_to_vec(cur[i].as_slice()));
        assert(lines_view(out@) =~= before.push(cv[i as int]));
        assert(cv.subrange(r.start + r.old_len, i + 1) =~= cv.subrange(r.start + r.old_len, i as int).push(cv[i as int]));
        assert(base + cv.subrange(r.start + r.old_len, i + 1) =~= (base + cv.subrange(r.start + r.old_len, i as int)).push(cv[i as int]));
        i = i + 1;
    }
    assert(cv.subrange(r.start + r.old_len, cv.len() as int) =~= cv.skip(r.start + r.old_len));
    out
}

/// Replacements that came out of the hunks are in file order and do not overlap.
proof fn lemma_replacements_ordered(lines: Seq<Seq<char>>, path: Seq<char>, hunks: Seq<HunkView>, rv: Seq<Rep>)
    requires
        compute_replacements(lines, path, hunks) == Ok::<Seq<Rep>, Seq<char>>(rv),
        reps_in_bounds(lines, rv),
    ensures
        sorted_by_start(rv),
        forall|a: int, b: int| 0 <= a < b < rv.len() ==> rv[a].start + rv[a].old_len <= rv[b].start,
{
    let placed = place_hunks(lines, path, hunks, 0, 0, Seq::empty())->Ok_0;
    lemma_sort_reps(placed);
    lemma_no_overlap(rv, 0);
    assert forall|k: int| 0 <= k < rv.len() implies 0 <= #[trigger] rv[k].old_len by {
        assert(0 <= rv[k].start && 0 <= rv[k].old_len);
    }
    lemma_pairwise_disjoint(rv);
}

proof fn lemma_trim_newlines_no_break(s: Seq<char>)
    ensures
        !ends_with(trim_newlines(s), seq!['\n']),
    decreases s.len(),
{
    if s.len() > 0 && s.last() == '\n' {
        lemma_trim_newlines_no_break(s.drop_last());
    } else if s.len() > 0 {
        assert(s.skip(s.len() - 1)[0] == s.last());
    }
}

/// Applying hunks keeps the file's ending: the result ends with a line break
/// exactly when the content did.
pub proof fn lemma_apply_keeps_final_newline(content: Seq<char>, path: Seq<char>, hunks: Seq<HunkView>)
    ensures
        spec_apply_hunks(content, path, hunks) matches Ok(r) ==> (ends_with(r, seq!['\n']) <==> ends_with(
            content,
            seq!['\n'],
        )),
{
    if let Ok(r) = spec_apply_hunks(content, path, hunks) {
        let had = ends_with(content, seq!['\n']);
        let all = split_on(content, '\n');
        let stripped = had && all.last().len() == 0;
        let lines = content_lines(content);
        let reps = compute_replacements(lines, path, hunks)->Ok_0;
        let applied = apply_reps(lines, reps);
        let result = if stripped {
            applied.push(Seq::empty())
        } else {
            applied
        };
        let next = join(result, seq!['\n']);
        if had && !ends_with(next, seq!['\n']) {
            assert(next.push('\n').skip(next.push('\n').len() - 1) =~= seq!['\n']);
        } else if !had {
            lemma_trim_newlines_no_break(next);
        }
    }
}

/// Replacements that leave the lines as they are give the content back unchanged.
proof fn lemma_apply_identity(content: Seq<char>, path: Seq<char>, hunks: Seq<HunkView>, reps: Seq<Rep>)
    requires
        hunks.len() > 0,
        compute_replacements(content_lines(content), path, hunks) == Ok::<Seq<Rep>, Seq<char>>(reps),
        apply_reps(content_lines(content), reps) == content_lines(content),
    ensures
        spec_apply_hunks(content, path, hunks) == Ok::<Seq<char>, Seq<char>>(content),
{
    let had = ends_with(content, seq!['\n']);
    let all = split_on(content, '\n');
    let stripped = had && all.last().len() == 0;
    let lines = content_lines(content);
    crate::text::lemma_split_on_len(content, '\n');
    let result = if stripped {
        lines.push(Seq::empty())
    } else {
        lines
    };
    if stripped {
        assert(all.last() =~= Seq::<char>::empty());
        assert(all.drop_last().push(Seq::<char>::empty()) =~= all);
    }
    assert(result == all);
    crate::text::lemma_join_split(content, '\n');
    if !had {
        if content.len() > 0 {
            assert(content.skip(content.len() - 1)[0] == content.last());
            if content.last() == '\n' {
                assert(content.skip(content.len() - 1) =~= seq!['\n']);
            }
        }
        assert(trim_newlines(content) == content);
    }
}

/// Hunks that change nothing give the content back unchanged.
pub proof fn lemma_apply_without_changes(content: Seq<char>, path: Seq<char>, hunks: Seq<HunkView>)
    requires
        hunks.len() > 0,
        compute_replacements(content_lines(content), path, hunks) == Ok::<Seq<Rep>, Seq<char>>(Seq::empty()),
    ensures
        spec_apply_hunks(content, path, hunks) == Ok::<Seq<char>, Seq<char>>(content),
{
    assert(apply_reps(content_lines(content), Seq::empty()) == content_lines(content));
    lemma_apply_identity(content, path, hunks, Seq::empty());
}

/// Does the hunk keep its lines as they are?
pub open spec fn unchanged(h: HunkView) -> bool {
    h.old_lines == h.new_lines
}

/// A replacement that removes nothing and adds nothing.
pub open spec fn empty_rep(r: Rep) -> bool {
    r.old_len == 0 && r.new_lines.len() == 0
}

proof fn lemma_place_step_unchanged(lines: Seq<Seq<char>>, path: Seq<char>, h: HunkView, cursor: int)
    requires
        unchanged(h),
    ensures
        place_step(lines, path, h, cursor) matches Ok((o, c2)) ==> (o matches Some(r) ==> empty_rep(r)),
{
    let len = lines.len() as int;
    if !(h.old_start_line is Some && h.old_start_line->0 < 1) {
        let cursor1 = cursor_after_hint(h, cursor, len);
        if let Ok(anchor) = hunk_anchor(lines, path, h, cursor1) {
            if h.old_lines.len() > 0 {
                let (p, nl) = retry_pattern(lines, h, anchor);
                assert(p == nl);
            }
        }
    }
}

proof fn lemma_place_hunks_unchanged(
    lines: Seq<Seq<char>>,
    path: Seq<char>,
    hunks: Seq<HunkView>,
    i: int,
    cursor: int,
    reps: Seq<Rep>,
)
    requires
        forall|k: int| 0 <= k < hunks.len() ==> unchanged(#[trigger] hunks[k]),
        forall|k: int| 0 <= k < reps.len() ==> empty_rep(#[trigger] reps[k]),
    ensures
        place_hunks(lines, path, hunks, i, cursor, reps) matches Ok(r) ==> forall|k: int|
            0 <= k < r.len() ==> empty_rep(#[trigger] r[k]),
    decreases hunks.len() - i,
{
    if 0 <= i < hunks.len() {
        let h = hunks[i];
        lemma_place_step_unchanged(lines, path, h, cursor);
        if let Ok((o, c2)) = place_step(lines, path, h, cursor) {
            let next = match o {
                Some(r) => reps.push(r),
                None => reps,
            };
            assert forall|k: int| 0 <= k < next.len() implies empty_rep(#[trigger] next[k]) by {
                if k < reps.len() {
                    assert(next[k] == reps[k]);
                }
            }
            lemma_place_hunks_unchanged(lines, path, hunks, i + 1, c2, next);
        }
    }
}

proof fn lemma_apply_empty_reps(lines: Seq<Seq<char>>, reps: Seq<Rep>)
    requires
        reps_in_bounds(lines, reps),
        forall|k: int| 0 <= k < reps.len() ==> empty_rep(#[trigger] reps[k]),
    ensures
        apply_reps(lines, reps) == lines,
    decreases reps.len(),
{
    if reps.len() > 0 {
        let r = reps.last();
        assert(empty_rep(reps[reps.len() - 1]));
        assert(0 <= reps[reps.len() - 1].start);
        assert(splice(lines, r) =~= lines);
        let d = reps.drop_last();
        assert forall|k: int| 0 <= k < d.len() implies empty_rep(#[trigger] d[k]) by {
            assert(d[k] == reps[k]);
        }
        assert forall|k: int| 0 <= k < d.len() implies 0 <= #[trigger] d[k].start && 0 <= d[k].old_len
            && d[k].start + d[k].old_len <= lines.len() by {
            assert(d[k] == reps[k]);
        }
        lemma_apply_empty_reps(lines, d);
    }
}

/// Hunks whose old and new lines are the same give the content back unchanged
/// whenever they apply. (Where they cannot be placed within the file, applying
/// them is not defined: see [`placeable`].)
pub proof fn lemma_apply_unchanged_hunks(content: Seq<char>, path: Seq<char>, hunks: Seq<HunkView>)
    requires
        forall|k: int| 0 <= k < hunks.len() ==> unchanged(#[trigger] hunks[k]),
        placeable(content, path, hunks),
    ensures
        spec_apply_hunks(content, path, hunks) matches Ok(r) ==> r == content,
{
    let lines = content_lines(content);
    if hunks.len() > 0 {
        lemma_place_hunks_unchanged(lines, path, hunks, 0, 0, Seq::empty());
        if let Ok(reps) = compute_replacements(lines, path, hunks) {
            let placed = place_hunks(lines, path, hunks, 0, 0, Seq::empty())->Ok_0;
            lemma_sort_reps(placed);
            assert(reps == sort_reps(placed));
            assert forall|k: int| 0 <= k < reps.len() implies empty_rep(#[trigger] reps[k]) by {
                assert(placed.contains(reps[k]));
                let j = choose|j: int| 0 <= j < placed.len() && placed[j] == reps[k];
                assert(empty_rep(placed[j]));
            }
            lemma_apply_empty_reps(lines, reps);
            lemma_apply_identity(content, path, hunks, reps);
        }
    }
}

// ---------------------------------------------------------------------------
// Where replacements can land
// ---------------------------------------------------------------------------

/// Some character of the text is not whitespace.
pub open spec fn has_visible(c: Seq<char>) -> bool {
    exists|i: int| 0 <= i < c.len() && !is_ws(c[i])
}

/// Every hunk's `@@` context, where there is one, shows something.
pub open spec fn contexts_visible(hunks: Seq<HunkView>) -> bool {
    forall|k: int| 0 <= k < hunks.len() ==> context_visible(#[trigger] hunks[k])
}

/// The hunk has no `@@` context, or one that shows something.
pub open spec fn context_visible(h: HunkView) -> bool {
    match h.context {
        Some(c) => has_visible(c),
        None => true,
    }
}

proof fn lemma_matches_in_window(lines: Seq<Seq<char>>, pattern: Seq<Seq<char>>, lo: int, hi: int)
    ensures
        forall|k: int|
            0 <= k < matches_in(lines, pattern, lo, hi).len() ==> window_eq(
                lines,
                pattern,
                #[trigger] matches_in(lines, pattern, lo, hi)[k],
            ),
    decreases hi - lo,
{
    if hi > lo {
        lemma_matches_in_window(lines, pattern, lo, hi - 1);
        let a = matches_in(lines, pattern, lo, hi - 1);
        let b: Seq<int> = if window_eq(lines, pattern, hi - 1) {
            seq![hi - 1]
        } else {
            Seq::empty()
        };
        assert forall|k: int| 0 <= k < (a + b).len() implies window_eq(lines, pattern, #[trigger] (a + b)[k]) by {
            if k < a.len() {
                assert((a + b)[k] == a[k]);
            } else {
                assert((a + b)[k] == b[k - a.len()]);
            }
        }
    }
}

proof fn lemma_match_indices_window(lines: Seq<Seq<char>>, pattern: Seq<Seq<char>>, from: int, eof: bool)
    ensures
        forall|k: int|
            0 <= k < match_indices(lines, pattern, from, eof).len() ==> window_eq(
                lines,
                pattern,
                #[trigger] match_indices(lines, pattern, from, eof)[k],
            ),
{
    if pattern.len() <= lines.len() {
        let max_start = lines.len() - pattern.len();
        let lo = if eof {
            max_start
        } else {
            from
        };
        lemma_matches_in_window(lines, pattern, lo, max_start + 1);
    }
}

proof fn lemma_matches_in_none(lines: Seq<Seq<char>>, pattern: Seq<Seq<char>>, lo: int, hi: int)
    requires
        forall|j: int| lo <= j < hi ==> !window_eq(lines, pattern, j),
    ensures
        matches_in(lines, pattern, lo, hi) == Seq::<int>::empty(),
    decreases hi - lo,
{
    if hi > lo {
        lemma_matches_in_none(lines, pattern, lo, hi - 1);
        assert(!window_eq(lines, pattern, hi - 1));
        assert(Seq::<int>::empty() + Seq::<int>::empty() =~= Seq::<int>::empty());
    }
}

proof fn lemma_matches_in_unique(lines: Seq<Seq<char>>, pattern: Seq<Seq<char>>, lo: int, hi: int, m: int)
    requires
        lo <= m < hi,
        window_eq(lines, pattern, m),
        forall|j: int| lo <= j < hi && j != m ==> !window_eq(lines, pattern, j),
    ensures
        matches_in(lines, pattern, lo, hi) == seq![m],
    decreases hi - lo,
{
    if m == hi - 1 {
        lemma_matches_in_none(lines, pattern, lo, hi - 1);
        assert(Seq::<int>::empty() + seq![m] =~= seq![m]);
    } else {
        lemma_matches_in_unique(lines, pattern, lo, hi - 1, m);
        assert(!window_eq(lines, pattern, hi - 1));
        assert(seq![m] + Seq::<int>::empty() =~= seq![m]);
    }
}

/// Once a hunk with old lines is placed, the next hunk is searched from just
/// past its match: where the hunk changes lines, the cursor after it is the
/// end of the lines it replaces.
pub proof fn lemma_placed_hunk_moves_cursor(lines: Seq<Seq<char>>, path: Seq<char>, h: HunkView, cursor: int)
    requires
        h.old_lines.len() > 0,
    ensures
        place_step(lines, path, h, cursor) matches Ok((o, c2)) ==> (o matches Some(r) ==> c2 == r.start + r.old_len),
{
}

/// A hunk with old lines and neither line hint nor `@@` context is searched
/// from the cursor on: where its old lines occur exactly once at or after
/// the cursor, it is placed there, whatever occurrences lie before the
/// cursor, and the next hunk is searched from the end of that match.
pub proof fn lemma_hunk_found_after_cursor(
    lines: Seq<Seq<char>>,
    path: Seq<char>,
    h: HunkView,
    cursor: int,
    m: int,
)
    requires
        h.old_lines.len() > 0,
        h.old_start_line is None,
        h.context is None,
        !h.is_end_of_file,
        0 <= cursor <= m,
        window_eq(lines, h.old_lines, m),
        forall|j: int| cursor <= j && j != m ==> !window_eq(lines, h.old_lines, j),
    ensures
        place_step(lines, path, h, cursor) == Ok::<(Option<Rep>, int), Seq<char>>(
            (
                if h.old_lines == h.new_lines {
                    None
                } else {
                    Some(Rep { start: m, old_len: h.old_lines.len() as int, new_lines: h.new_lines })
                },
                m + h.old_lines.len(),
            ),
        ),
{
    let p0 = h.old_lines;
    let n = p0.len() as int;
    let max_start = lines.len() - n;
    assert(cursor_after_hint(h, cursor, lines.len() as int) == cursor);
    assert(hunk_anchor(lines, path, h, cursor) == Ok::<int, Seq<char>>(cursor));
    lemma_matches_in_unique(lines, p0, cursor, max_start + 1, m);
    assert(match_indices(lines, p0, cursor, false) == seq![m]);
    let (p, nl) = retry_pattern(lines, h, cursor);
    assert(p == p0 && nl == h.new_lines);
    assert(all_matches(lines, h, cursor, p) == seq![m]);
    assert(locate(lines, path, h, seq![m]) == Ok::<int, Seq<char>>(m));
}

proof fn lemma_context_candidates_range(lines: Seq<Seq<char>>, part: Seq<char>, lo: int, hi: int)
    ensures
        forall|k: int|
            0 <= k < context_candidates(lines, part, lo, hi).len() ==> lo <= #[trigger] context_candidates(
                lines,
                part,
                lo,
                hi,
            )[k] < hi,
    decreases hi - lo,
{
    if hi > lo {
        lemma_context_candidates_range(lines, part, lo, hi - 1);
        let a = context_candidates(lines, part, lo, hi - 1);
        let b: Seq<int> = if trim(lines[hi - 1]) == part {
            seq![hi - 1]
        } else {
            Seq::empty()
        };
        assert forall|k: int| 0 <= k < (a + b).len() implies lo <= #[trigger] (a + b)[k] < hi by {
            if k < a.len() {
                assert((a + b)[k] == a[k]);
            } else {
                assert((a + b)[k] == b[k - a.len()]);
            }
        }
    }
}

proof fn lemma_find_context_from_range(
    lines: Seq<Seq<char>>,
    parts: Seq<Seq<char>>,
    idx: int,
    cursor: int,
    context: Seq<char>,
    path: Seq<char>,
)
    requires
        0 <= idx < parts.len(),
        0 <= cursor,
    ensures
        find_context_from(lines, parts, idx, cursor, context, path) matches Ok(a) ==> 0 <= a < lines.len(),
    decreases parts.len() - idx,
{
    let c = context_candidates(lines, parts[idx], cursor, lines.len() as int);
    lemma_context_candidates_range(lines, parts[idx], cursor, lines.len() as int);
    if c.len() > 0 && idx + 1 < parts.len() {
        assert(cursor <= c[0]);
        lemma_find_context_from_range(lines, parts, idx + 1, c[0] + 1, context, path);
    }
}

/// A visible text has a piece, after splitting at line breaks, that is not blank.
proof fn lemma_visible_part(c: Seq<char>)
    requires
        has_visible(c),
    ensures
        context_parts(split_on(c, '\n')).len() > 0,
    decreases c.len(),
{
    let i = choose|i: int| 0 <= i < c.len() && !is_ws(c[i]);
    lemma_find_char_bounds(c, '\n', 0);
    match find_char(c, '\n', 0) {
        Some(j) => {
            let rest = c.skip(j + 1);
            if i > j {
                assert(rest[i - j - 1] == c[i]);
                lemma_visible_part(rest);
                lemma_context_parts_append(seq![c.take(j)], split_on(rest, '\n'));
            } else {
                assert(i != j);
                assert(c.take(j)[i] == c[i]);
                lemma_visible_piece(c.take(j), i);
                lemma_context_parts_append(seq![c.take(j)], split_on(rest, '\n'));
                assert(seq![c.take(j)].drop_last() =~= Seq::<Seq<char>>::empty());
            }
        },
        None => {
            lemma_visible_piece(c, i);
            assert(seq![c].drop_last() =~= Seq::<Seq<char>>::empty());
        },
    }
}

/// A piece with a visible character trims to something non-empty.
proof fn lemma_visible_piece(s: Seq<char>, i: int)
    requires
        0 <= i < s.len(),
        !is_ws(s[i]),
    ensures
        trim(s).len() > 0,
    decreases s.len(),
{
    if s.len() > 0 && is_ws(s[0]) {
        assert(s.drop_first()[i - 1] == s[i]);
        lemma_visible_piece(s.drop_first(), i - 1);
        assert(trim_start(s) == trim_start(s.drop_first()));
    } else {
        assert(trim_start(s) == s);
        lemma_trim_end_visible(s, i);
    }
}

proof fn lemma_trim_end_visible(s: Seq<char>, i: int)
    requires
        0 <= i < s.len(),
        !is_ws(s[i]),
    ensures
        trim_end(s).len() > i,
    decreases s.len(),
{
    if is_ws(s.last()) {
        assert(i < s.len() - 1);
        assert(s.drop_last()[i] == s[i]);
        lemma_trim_end_visible(s.drop_last(), i);
    }
}

proof fn lemma_context_parts_append(a: Seq<Seq<char>>, b: Seq<Seq<char>>)
    ensures
        context_parts(a + b).len() == context_parts(a).len() + context_parts(b).len(),
    decreases b.len(),
{
    if b.len() == 0 {
        assert(a + b =~= a);
    } else {
        lemma_context_parts_append(a, b.drop_last());
        assert((a + b).drop_last() =~= a + b.drop_last());
        assert((a + b).last() == b.last());
    }
}

proof fn lemma_anchor_range(lines: Seq<Seq<char>>, path: Seq<char>, h: HunkView, cursor1: int)
    requires
        0 <= cursor1 <= lines.len(),
        context_visible(h),
    ensures
        hunk_anchor(lines, path, h, cursor1) matches Ok(a) ==> 0 <= a <= lines.len(),
{
    match h.context {
        None => {},
        Some(c) => {
            lemma_visible_part(c);
            lemma_find_context_from_range(lines, context_parts(split_on(c, '\n')), 0, cursor1, c, path);
        },
    }
}

/// Every replacement of a placed hunk lies in the file, and the cursor stays in it.
proof fn lemma_place_step_bounds(lines: Seq<Seq<char>>, path: Seq<char>, h: HunkView, cursor: int)
    requires
        0 <= cursor <= lines.len(),
        context_visible(h),
    ensures
        place_step(lines, path, h, cursor) matches Ok((o, c2)) ==> 0 <= c2 <= lines.len() && (o matches Some(
            r,
        ) ==> 0 <= r.start && 0 <= r.old_len && r.start + r.old_len <= lines.len()),
{
    let len = lines.len() as int;
    if !(h.old_start_line is Some && h.old_start_line->0 < 1) {
        let cursor1 = cursor_after_hint(h, cursor, len);
        lemma_anchor_range(lines, path, h, cursor1);
        if let Ok(anchor) = hunk_anchor(lines, path, h, cursor1) {
            if h.old_lines.len() > 0 {
                let (p, nl) = retry_pattern(lines, h, anchor);
                let m = all_matches(lines, h, anchor, p);
                lemma_match_indices_window(lines, p, anchor, h.is_end_of_file);
                lemma_match_indices_window(lines, p, 0, h.is_end_of_file);
                assert(forall|k: int| 0 <= k < m.len() ==> window_eq(lines, p, #[trigger] m[k]));
                if let Ok(f) = locate(lines, path, h, m) {
                    if m.len() == 1 {
                        assert(window_eq(lines, p, m[0]));
                    } else if let Some(hh) = h.old_start_line {
                        lemma_near_members(m, hh - 1);
                        let x = near(m, hh - 1)[0];
                        assert(m.contains(x));
                        let k = choose|k: int| 0 <= k < m.len() && m[k] == x;
                        assert(window_eq(lines, p, m[k]));
                    }
                }
            }
        }
    }
}

proof fn lemma_place_hunks_bounds(
    lines: Seq<Seq<char>>,
    path: Seq<char>,
    hunks: Seq<HunkView>,
    i: int,
    cursor: int,
    reps: Seq<Rep>,
)
    requires
        0 <= i,
        0 <= cursor <= lines.len(),
        reps_in_bounds(lines, reps),
        contexts_visible(hunks),
    ensures
        place_hunks(lines, path, hunks, i, cursor, reps) matches Ok(r) ==> reps_in_bounds(lines, r),
    decreases hunks.len() - i,
{
    if i < hunks.len() {
        let h = hunks[i];
        lemma_place_step_bounds(lines, path, h, cursor);
        if let Ok((o, c2)) = place_step(lines, path, h, cursor) {
            let next = match o {
                Some(r) => reps.push(r),
                None => reps,
            };
            assert forall|k: int| 0 <= k < next.len() implies 0 <= #[trigger] next[k].start && 0 <= next[k].old_len
                && next[k].start + next[k].old_len <= lines.len() by {
                if k < reps.len() {
                    assert(next[k] == reps[k]);
                }
            }
            lemma_place_hunks_bounds(lines, path, hunks, i + 1, c2, next);
        }
    }
}

/// Hunks whose `@@` contexts all show something can always be applied: every
/// replacement they place lies within the file.
pub proof fn lemma_visible_contexts_placeable(content: Seq<char>, path: Seq<char>, hunks: Seq<HunkView>)
    requires
        contexts_visible(hunks),
    ensures
        placeable(content, path, hunks),
{
    let lines = content_lines(content);
    lemma_place_hunks_bounds(lines, path, hunks, 0, 0, Seq::empty());
    if let Ok(placed) = place_hunks(lines, path, hunks, 0, 0, Seq::empty()) {
        lemma_sort_reps(placed);
        let s = sort_reps(placed);
        assert forall|k: int| 0 <= k < s.len() implies 0 <= #[trigger] s[k].start && 0 <= s[k].old_len
            && s[k].start + s[k].old_len <= lines.len() by {
            assert(placed.contains(s[k]));
            let j = choose|j: int| 0 <= j < placed.len() && placed[j] == s[k];
            assert(0 <= placed[j].start);
        }
    }
}

// ---------------------------------------------------------------------------
// Parsed hunks can be placed
// ---------------------------------------------------------------------------

proof fn lemma_trim_first_visible(s: Seq<char>)
    ensures
        trim(s).len() > 0 ==> !is_ws(trim(s)[0]) && has_visible(trim(s)) && has_visible(s),
{
    crate::text::lemma_trim_start_len(s);
    let t = trim_start(s);
    lemma_trim_end_prefix(t);
    if trim(s).len() > 0 {
        let k = choose|k: int| 0 <= k <= s.len() && t == s.skip(k);
        assert(trim(s)[0] == t[0]);
        assert(s[k] == t[0]);
    }
}

proof fn lemma_trim_end_prefix(t: Seq<char>)
    ensures
        trim_end(t).len() <= t.len(),
        forall|i: int| 0 <= i < trim_end(t).len() ==> trim_end(t)[i] == t[i],
    decreases t.len(),
{
    if t.len() > 0 && is_ws(t.last()) {
        lemma_trim_end_prefix(t.drop_last());
        assert forall|i: int| 0 <= i < trim_end(t).len() implies trim_end(t)[i] == t[i] by {
            assert(trim_end(t)[i] == t.drop_last()[i]);
        }
    }
}

proof fn lemma_join_visible(parts: Seq<Seq<char>>, sep: Seq<char>)
    requires
        parts.len() > 0,
        has_visible(parts.last()),
    ensures
        has_visible(join(parts, sep)),
{
    let l = parts.last();
    let i = choose|i: int| 0 <= i < l.len() && !is_ws(l[i]);
    if parts.len() == 1 {
        assert(parts[0] == l);
    } else {
        let pre = join(parts.drop_last(), sep) + sep;
        assert((pre + l)[pre.len() + i] == l[i]);
    }
}

pub open spec fn all_visible(cs: Seq<Seq<char>>) -> bool {
    forall|k: int| 0 <= k < cs.len() ==> has_visible(#[trigger] cs[k])
}

proof fn lemma_header_contexts_visible(lines: Seq<Seq<char>>, ln: nat)
    requires
        lines.len() > 0,
    ensures
        header_state(lines, ln) matches Ok(h) ==> all_visible(h.contexts),
{
    let header = lines[0];
    let th = trim_end(header);
    if let Ok(h) = header_state(lines, ln) {
        if h.contexts.len() > 0 {
            let c = h.contexts[0];
            assert(h.contexts.len() == 1);
            let unified = if starts_with(header, "@@"@) {
                parse_unified_header(th)
            } else {
                None
            };
            if unified is Some {
                let rest = strip_prefix(th, "@@"@)->0;
                let i = find_from(rest, "@@"@, 0)->0;
                lemma_trim_first_visible(rest.skip(i + "@@"@.len()));
            } else if starts_with(th, "@@ "@) {
                lemma_trim_first_visible(strip_prefix(th, "@@ "@)->0);
            } else {
                lemma_trim_first_visible(strip_prefix(th, "@@"@)->0);
            }
        }
    }
}

proof fn lemma_extra_headers_visible(lines: Seq<Seq<char>>, start: int, contexts: Seq<Seq<char>>)
    requires
        all_visible(contexts),
    ensures
        all_visible(extra_headers(lines, start, contexts).0),
    decreases lines.len() - start,
{
    if !(start < 0 || start >= lines.len() || !starts_with(lines[start], "@@"@)) {
        let tr = trim_end(lines[start]);
        match strip_prefix(tr, "@@ "@) {
            Some(nested) => {
                if !is_blank(nested) {
                    lemma_trim_first_visible(nested);
                    let c2 = contexts.push(nested);
                    assert forall|k: int| 0 <= k < c2.len() implies has_visible(#[trigger] c2[k]) by {
                        if k < contexts.len() {
                            assert(c2[k] == contexts[k]);
                        }
                    }
                    lemma_extra_headers_visible(lines, start + 1, c2);
                } else {
                    lemma_extra_headers_visible(lines, start + 1, contexts);
                }
            },
            None => if tr == "@@"@ {
                lemma_extra_headers_visible(lines, start + 1, contexts);
            },
        }
    }
}

proof fn lemma_parse_one_hunk_visible(lines: Seq<Seq<char>>, ln: nat)
    ensures
        parse_one_hunk(lines, ln) matches Ok((h, c)) ==> context_visible(h),
{
    if lines.len() > 0 {
        lemma_header_contexts_visible(lines, ln);
        if let Ok(hs) = header_state(lines, ln) {
            lemma_extra_headers_visible(lines, hs.start, hs.contexts);
            let (contexts, start) = extra_headers(lines, hs.start, hs.contexts);
            if contexts.len() > 0 {
                lemma_join_visible(contexts, seq!['\n']);
            }
        }
    }
}

proof fn lemma_hunks_from_visible(lines: Seq<Seq<char>>, index: int)
    ensures
        hunks_from(lines, index) matches Ok(hs) ==> contexts_visible(hs),
    decreases lines.len() - index,
{
    if !(index < 0 || index >= lines.len()) {
        let line = lines[index];
        let t = trim(line);
        if t.len() == 0 {
            lemma_hunks_from_visible(lines, index + 1);
        } else if !is_diff_content_line(line) && is_metadata_line(t) {
            lemma_hunks_from_visible(lines, index + 1);
        } else if starts_with(t, "@@"@) && all_blank_from(lines, index + 1) {
        } else {
            if let Ok((h, c)) = parse_one_hunk(lines.skip(index), (index + 1) as nat) {
                lemma_parse_one_hunk(lines.skip(index), (index + 1) as nat);
                lemma_parse_one_hunk_visible(lines.skip(index), (index + 1) as nat);
                lemma_hunks_from_visible(lines, index + c);
                if let Ok(rest) = hunks_from(lines, index + c) {
                    let all = seq![h] + rest;
                    assert forall|k: int| 0 <= k < all.len() implies context_visible(#[trigger] all[k]) by {
                        if k > 0 {
                            assert(all[k] == rest[k - 1]);
                        }
                    }
                }
            }
        }
    }
}

/// Hunks read by [`parse_hunks`] can always be applied: every `@@` context the
/// parser keeps shows something, so no replacement falls past the file's end.
pub proof fn lemma_parsed_hunks_placeable(body: Seq<char>, content: Seq<char>, path: Seq<char>)
    ensures
        spec_parse_hunks(body) matches Ok(hs) ==> placeable(content, path, hs),
{
    let n = crate::hunks::count_file_markers(split_on(body, '\n'));
    if n <= 1 {
        lemma_hunks_from_visible(split_on(crate::hunks::normalize_diff(body), '\n'), 0);
    }
    if let Ok(hs) = spec_parse_hunks(body) {
        lemma_visible_contexts_placeable(content, path, hs);
    }
}

/// Drop every trailing line break.
fn trim_newlines_exec(v: &mut Vec<char>)
    ensures
        final(v)@ == trim_newlines(old(v)@),
{
    let ghost goal = trim_newlines(v@);
    while v.len() > 0 && v[v.len() - 1] == '\n'
        invariant
            trim_newlines(v@) == goal,
        decreases v@.len(),
    {
        let ghost before = v@;
        v.pop();
        assert(v@ =~= before.drop_last());
    }
}

/// Applies the hunks to a file's content and returns the new content.
///
/// The hunks are placed in order (see [`crate::patch_apply`]), then applied from
/// the last to the first. A trailing newline of the file is kept; content without
/// one gets none.
pub fn apply_hunks(content: &str, path: &str, hunks: &[Hunk]) -> (r: Result<String, PatchError>)
    requires
        content@.len() + 1 < usize::MAX,
        placeable(content@, path@, hunks_view(hunks@)),
    ensures
        match r {
            Ok(s) => spec_apply_hunks(content@, path@, hunks_view(hunks@)) == Ok::<Seq<char>, Seq<char>>(s@),
            Err(e) => spec_apply_hunks(content@, path@, hunks_view(hunks@)) == Err::<Seq<char>, Seq<char>>(e@),
        },
{
    if hunks.len() == 0 {
        return Err(PatchError::new(String::from_str("Diff contains no hunks")));
    }
    let cv = chars_of(content);
    let pv = chars_of(path);
    let had_newline = cv.len() > 0 && cv[cv.len() - 1] == '\n';
    assert(had_newline == ends_with(content@, seq!['\n'])) by {
        if cv@.len() > 0 {
            assert(cv@.skip(cv@.len() - 1) =~= seq![cv@[cv@.len() - 1]]);
            assert(cv@.skip(cv@.len() - 1)[0] == cv@[cv@.len() - 1]);
        }
    }
    let mut lines = split_on_exec(cv.as_slice(), '\n');
    let ghost all = split_on(content@, '\n');
    proof {
        lemma_split_on_len(content@, '\n');
    }
    assert(lines_view(lines@) == all);
    let stripped = had_newline && lines[lines.len() - 1].len() == 0;
    assert(stripped == (had_newline && all.last().len() == 0)) by {
        assert(all.last() == lines@[lines@.len() - 1]@);
    }
    if stripped {
        let ghost before = lines_view(lines@);
        lines.pop();
        assert(lines_view(lines@) =~= before.drop_last());
    }
    let ghost ls = lines_view(lines@);
    assert(ls == content_lines(content@));
    let reps = match compute_replacements_exec(&lines, pv.as_slice(), hunks) {
        Ok(v) => v,
        Err(m) => {
            return Err(PatchError::from_chars(m.as_slice()));
        },
    };
    let ghost rv = reps_view(reps@);
    proof {
        lemma_replacements_ordered(ls, path@, hunks_view(hunks@), rv);
    }
    let mut result = lines;
    let mut k = reps.len();
    assert(rv.take(k as int) =~= rv);
    while k > 0
        invariant
            k <= reps@.len(),
            rv == reps_view(reps@),
            reps_in_bounds(ls, rv),
            forall|a: int, b: int| 0 <= a < b < rv.len() ==> rv[a].start + rv[a].old_len <= rv[b].start,
            forall|j: int| 0 <= j < k ==> #[trigger] rv[j].start + rv[j].old_len <= lines_view(result@).len(),
            apply_reps(ls, rv) == apply_reps(lines_view(result@), rv.take(k as int)),
        decreases k,
    {
        k = k - 1;
        let ghost before = lines_view(result@);
        assert(rv[k as int] == reps@[k as int].rep());
        assert(rv.take(k + 1).drop_last() =~= rv.take(k as int));
        result = splice_exec(result, &reps[k]);
        assert forall|j: int| 0 <= j < k implies #[trigger] rv[j].start + rv[j].old_len <= lines_view(result@).len() by {
            assert(rv[j].start + rv[j].old_len <= rv[k as int].start);
        }
    }
    assert(rv.take(0) =~= Seq::<Rep>::empty());
    let ghost applied = lines_view(result@);
    assert(applied == apply_reps(ls, rv));
    if stripped {
        result.push(Vec::new());
        assert(lines_view(result@) =~= applied.push(Seq::empty()));
    }
    let sep = ['\n'];
    let mut next = join_exec(&result, &sep);
    assert(sep@ =~= seq!['\n']);
    assert(next@ == join(if stripped { applied.push(Seq::empty()) } else { applied }, seq!['\n']));
    let ends = next.len() > 0 && next[next.len() - 1] == '\n';
    assert(ends == ends_with(next@, seq!['\n'])) by {
        if next@.len() > 0 {
            assert(next@.skip(next@.len() - 1) =~= seq![next@[next@.len() - 1]]);
            assert(next@.skip(next@.len() - 1)[0] == next@[next@.len() - 1]);
        }
    }
    if had_newline && !ends {
        next.push('\n');
    } else if !had_newline {
        trim_newlines_exec(&mut next);
    }
    Ok(string_of(next.as_slice()))
}

} // verus!
