//! Terminal-UI text helpers: display widths, wrapping and truncation, slash
//! commands, attachment markers, paste and notification cleaning, and the
//! picker's scroll window.
//!
//! Display width counts an ASCII character as one column and any other
//! character as two.
use vstd::prelude::*;
use vstd::string::StringSliceAdditionalSpecFns;

use crate::sse::StopReason;

use crate::text::{
    append_chars, chars_of, is_control, is_control_exec, is_ws, is_ws_exec, join, join_exec,
    lines_view, split_on, split_on_exec, string_of, strings_of, trim, trim_start, trim_vec,
    words, words_exec,
};

verus! {

// ---------------------------------------------------------------------------
// Display width
// ---------------------------------------------------------------------------

/// Columns taken by one character.
pub open spec fn char_width(c: char) -> nat {
    if (c as u32) < 128 {
        1
    } else {
        2
    }
}

/// Columns taken by a text.
pub open spec fn width_of(s: Seq<char>) -> nat
    decreases s.len(),
{
    if s.len() == 0 {
        0
    } else {
        width_of(s.drop_last()) + char_width(s.last())
    }
}

pub proof fn lemma_width_bounds(s: Seq<char>)
    ensures
        s.len() <= width_of(s) <= 2 * s.len(),
    decreases s.len(),
{
    if s.len() > 0 {
        lemma_width_bounds(s.drop_last());
    }
}

/// Width adds up over concatenation.
pub proof fn lemma_width_concat(a: Seq<char>, b: Seq<char>)
    ensures
        width_of(a + b) == width_of(a) + width_of(b),
    decreases b.len(),
{
    if b.len() == 0 {
        assert(a + b =~= a);
    } else {
        lemma_width_concat(a, b.drop_last());
        assert((a + b).drop_last() =~= a + b.drop_last());
    }
}

proof fn lemma_width_single(c: char)
    ensures
        width_of(seq![c]) == char_width(c),
{
    lemma_width_push(Seq::empty(), c);
    assert(Seq::<char>::empty().push(c) =~= seq![c]);
}

proof fn lemma_width_push(s: Seq<char>, c: char)
    ensures
        width_of(s.push(c)) == width_of(s) + char_width(c),
{
    assert(s.push(c).drop_last() =~= s);
}

pub proof fn lemma_width_split(s: Seq<char>, k: int)
    requires
        0 <= k <= s.len(),
    ensures
        width_of(s) == width_of(s.take(k)) + width_of(s.skip(k)),
{
    lemma_width_concat(s.take(k), s.skip(k));
    assert(s.take(k) + s.skip(k) =~= s);
}

fn char_width_exec(c: char) -> (w: usize)
    ensures
        w == char_width(c),
{
    if (c as u32) < 128 {
        1
    } else {
        2
    }
}

/// The terminal width of a text.
pub fn display_width(text: &str) -> (w: usize)
    requires
        text@.len() <= usize::MAX / 2,
    ensures
        w == width_of(text@),
{
    let v = chars_of(text);
    width_of_chars(v.as_slice())
}

fn width_of_chars(v: &[char]) -> (w: usize)
    requires
        v@.len() <= usize::MAX / 2,
    ensures
        w == width_of(v@),
{
    let mut w: usize = 0;
    let mut i: usize = 0;
    while i < v.len()
        invariant
            v@.len() <= usize::MAX / 2,
            i <= v@.len(),
            w == width_of(v@.take(i as int)),
        decreases v@.len() - i,
    {
        proof {
            assert(v@.take(i + 1).drop_last() =~= v@.take(i as int));
            lemma_width_bounds(v@.take(i as int));
        }
        w = w + char_width_exec(v[i]);
        i = i + 1;
    }
    assert(v@.take(v@.len() as int) =~= v@);
    w
}

// ---------------------------------------------------------------------------
// Truncation and padding
// ---------------------------------------------------------------------------

/// The characters taken from the front while they fit in `budget` columns.
pub open spec fn fit_prefix(s: Seq<char>, budget: int) -> Seq<char>
    decreases s.len(),
{
    if s.len() == 0 || char_width(s[0]) > budget {
        Seq::empty()
    } else {
        seq![s[0]] + fit_prefix(s.drop_first(), budget - char_width(s[0]))
    }
}

/// The characters taken from the back while they fit in `budget` columns.
pub open spec fn fit_suffix(s: Seq<char>, budget: int) -> Seq<char>
    decreases s.len(),
{
    if s.len() == 0 || char_width(s.last()) > budget {
        Seq::empty()
    } else {
        fit_suffix(s.drop_last(), budget - char_width(s.last())).push(s.last())
    }
}

pub open spec fn ellipsis() -> char {
    '\u{2026}'
}

/// What [`truncate`] returns: the text if it fits, else a prefix and `…` within the width.
pub open spec fn spec_truncate(s: Seq<char>, width: int) -> Seq<char> {
    if width_of(s) <= width {
        s
    } else {
        fit_prefix(s, if width >= 1 { width - 1 } else { 0 }).push(ellipsis())
    }
}

/// What [`truncate_path`] returns: the path if it fits, else `…` and a tail of it.
pub open spec fn spec_truncate_path(s: Seq<char>, max: int) -> Seq<char> {
    if width_of(s) <= max {
        s
    } else {
        seq![ellipsis()] + fit_suffix(s, max - 2)
    }
}

proof fn lemma_fit_prefix_width(s: Seq<char>, budget: int)
    ensures
        budget >= 0 ==> width_of(fit_prefix(s, budget)) <= budget,
        s.len() >= fit_prefix(s, budget).len(),
        fit_prefix(s, budget) == s.take(fit_prefix(s, budget).len() as int),
    decreases s.len(),
{
    if s.len() > 0 && char_width(s[0]) <= budget {
        let t = s.drop_first();
        lemma_fit_prefix_width(t, budget - char_width(s[0]));
        lemma_width_concat(seq![s[0]], fit_prefix(t, budget - char_width(s[0])));
        lemma_width_single(s[0]);
        let k = fit_prefix(t, budget - char_width(s[0])).len() as int;
        assert(seq![s[0]] + t.take(k) =~= s.take(k + 1));
    } else {
        assert(s.take(0) =~= Seq::<char>::empty());
    }
}

proof fn lemma_fit_suffix_width(s: Seq<char>, budget: int)
    ensures
        budget >= 0 ==> width_of(fit_suffix(s, budget)) <= budget,
        s.len() >= fit_suffix(s, budget).len(),
        fit_suffix(s, budget) == s.skip(s.len() - fit_suffix(s, budget).len()),
    decreases s.len(),
{
    if s.len() > 0 && char_width(s.last()) <= budget {
        let t = s.drop_last();
        lemma_fit_suffix_width(t, budget - char_width(s.last()));
        lemma_width_push(fit_suffix(t, budget - char_width(s.last())), s.last());
        let k = fit_suffix(t, budget - char_width(s.last())).len() as int;
        assert(t.skip(t.len() - k).push(s.last()) =~= s.skip(s.len() - (k + 1)));
    } else {
        assert(s.skip(s.len() as int) =~= Seq::<char>::empty());
    }
}

/// Cuts a text to `width` columns, marking the cut with `…`.
pub fn truncate(text: &str, width: usize) -> (r: String)
    requires
        text@.len() <= usize::MAX / 2,
    ensures
        r@ == spec_truncate(text@, width as int),
{
    let v = chars_of(text);
    if width_of_chars(v.as_slice()) <= width {
        return string_of(v.as_slice());
    }
    let budget: usize = if width >= 1 {
        width - 1
    } else {
        0
    };
    let mut out: Vec<char> = Vec::new();
    let mut used: usize = 0;
    let mut i: usize = 0;
    let n = v.len();
    assert(v@.skip(0) =~= v@);
    while i < n
        invariant_except_break
            n == v@.len(),
            i <= n,
            used <= budget,
            fit_prefix(v@, budget as int) == out@ + fit_prefix(v@.skip(i as int), budget - used),
        ensures
            fit_prefix(v@, budget as int) == out@,
        decreases n - i,
    {
        let w = char_width_exec(v[i]);
        assert(v@.skip(i as int)[0] == v@[i as int]);
        if w > budget - used {
            break;
        }
        assert(v@.skip(i as int).drop_first() =~= v@.skip(i + 1));
        out.push(v[i]);
        assert(out@ + fit_prefix(v@.skip(i + 1), budget - used - w) =~= out@.drop_last() + (seq![v@[i as int]]
            + fit_prefix(v@.skip(i + 1), budget - used - w)));
        used = used + w;
        i = i + 1;
    }
    out.push('\u{2026}');
    string_of(out.as_slice())
}

/// Pads a text with spaces on the right to `width` columns.
pub fn pad_to_width(text: &str, width: usize) -> (r: String)
    requires
        text@.len() <= usize::MAX / 2,
    ensures
        r@ == (if width_of(text@) >= width {
            text@
        } else {
            text@ + Seq::new((width - width_of(text@)) as nat, |i: int| ' ')
        }),
{
    let mut v = chars_of(text);
    let used = width_of_chars(v.as_slice());
    if used >= width {
        return string_of(v.as_slice());
    }
    let ghost start = v@;
    let mut k: usize = 0;
    while k < width - used
        invariant
            used < width,
            k <= width - used,
            v@ == start + Seq::new(k as nat, |i: int| ' '),
        decreases width - used - k,
    {
        v.push(' ');
        assert(v@ =~= start + Seq::new((k + 1) as nat, |i: int| ' '));
        k = k + 1;
    }
    string_of(v.as_slice())
}

/// Cuts a path from the left to `max` columns, keeping its tail (the project
/// name) behind a `…`.
pub fn truncate_path(path: &str, max: usize) -> (r: String)
    requires
        path@.len() <= usize::MAX / 2,
    ensures
        r@ == spec_truncate_path(path@, max as int),
{
    let v = chars_of(path);
    let n = v.len();
    if width_of_chars(v.as_slice()) <= max {
        return string_of(v.as_slice());
    }
    let mut j: usize = n;
    let mut used: usize = 2;
    assert(v@.take(n as int) =~= v@);
    let ghost budget = max - 2;
    while j > 0
        invariant_except_break
            n == v@.len(),
            j <= n,
            2 <= used,
            used <= max || used == 2,
            fit_suffix(v@, budget) == fit_suffix(v@.take(j as int), max - used) + v@.subrange(j as int, n as int),
        ensures
            j <= n,
            fit_suffix(v@, budget) == v@.subrange(j as int, n as int),
        decreases j,
    {
        let w = char_width_exec(v[j - 1]);
        assert(v@.take(j as int).last() == v@[j - 1]);
        if used > max || w > max - used {
            break;
        }
        assert(v@.take(j as int).drop_last() =~= v@.take(j - 1));
        assert(fit_suffix(v@.take(j - 1), max - used - w) + v@.subrange(j - 1, n as int) =~= fit_suffix(
            v@.take(j - 1),
            max - used - w,
        ).push(v@[j - 1]) + v@.subrange(j as int, n as int));
        used = used + w;
        j = j - 1;
    }
    let mut out: Vec<char> = Vec::new();
    out.push('\u{2026}');
    append_chars(&mut out, &v.as_slice()[j..n]);
    string_of(out.as_slice())
}

/// A cut path takes at most `max` columns, starts with `…` and ends with a tail of the path.
pub proof fn lemma_truncate_path_keeps_tail(s: Seq<char>, max: int)
    requires
        max >= 2,
    ensures
        width_of(spec_truncate_path(s, max)) <= max,
        width_of(s) > max ==> spec_truncate_path(s, max)[0] == ellipsis()
            && spec_truncate_path(s, max).drop_first() == s.skip(
            s.len() - (spec_truncate_path(s, max).len() - 1),
        ),
{
    if width_of(s) > max {
        lemma_fit_suffix_width(s, max - 2);
        let t = fit_suffix(s, max - 2);
        lemma_width_concat(seq![ellipsis()], t);
        lemma_width_single(ellipsis());
        assert((seq![ellipsis()] + t).drop_first() =~= t);
    }
}

// ---------------------------------------------------------------------------
// Notifications and pastes
// ---------------------------------------------------------------------------

/// Control characters become spaces.
pub open spec fn controls_to_spaces(s: Seq<char>) -> Seq<char> {
    s.map_values(|c: char| if is_control(c) { ' ' } else { c })
}

/// What [`sanitize_notification`] returns.
pub open spec fn spec_sanitize_notification(s: Seq<char>) -> Seq<char> {
    trim(controls_to_spaces(s))
}

/// The OSC 9 and OSC 777 notifications, then a bell.
pub open spec fn spec_notification_sequence(title: Seq<char>, body: Seq<char>) -> Seq<char> {
    let t = spec_sanitize_notification(title);
    let b = spec_sanitize_notification(body);
    "\x1b]9;"@ + t + ": "@ + b + "\x07\x1b]777;notify;"@ + t + ";"@ + b + "\x07\x07"@
}

/// `\r\n` becomes `\n`.
pub open spec fn unify_crlf(s: Seq<char>) -> Seq<char>
    decreases s.len(),
{
    if s.len() == 0 {
        s
    } else if s.len() >= 2 && s[0] == '\r' && s[1] == '\n' {
        seq!['\n'] + unify_crlf(s.skip(2))
    } else {
        seq![s[0]] + unify_crlf(s.drop_first())
    }
}

/// What [`clean_paste`] returns.
pub open spec fn spec_clean_paste(s: Seq<char>) -> Seq<char> {
    controls_to_spaces(unify_crlf(s))
}

fn controls_to_spaces_exec(v: &[char]) -> (r: Vec<char>)
    ensures
        r@ == controls_to_spaces(v@),
{
    let mut r: Vec<char> = Vec::new();
    let mut i: usize = 0;
    while i < v.len()
        invariant
            i <= v@.len(),
            r@ == controls_to_spaces(v@.take(i as int)),
        decreases v@.len() - i,
    {
        let c = v[i];
        r.push(if is_control_exec(c) { ' ' } else { c });
        assert(controls_to_spaces(v@.take(i + 1)) =~= controls_to_spaces(v@.take(i as int)).push(
            if is_control(c) { ' ' } else { c },
        ));
        i = i + 1;
    }
    assert(v@.take(v@.len() as int) =~= v@);
    r
}

fn sanitize_chars(v: &[char]) -> (r: Vec<char>)
    ensures
        r@ == spec_sanitize_notification(v@),
{
    let c = controls_to_spaces_exec(v);
    trim_vec(c.as_slice())
}

/// Replaces control characters (which would end the escape sequence early)
/// with spaces and trims the result.
pub fn sanitize_notification(text: &str) -> (r: String)
    ensures
        r@ == spec_sanitize_notification(text@),
{
    let v = chars_of(text);
    let r = sanitize_chars(v.as_slice());
    string_of(r.as_slice())
}

/// The terminal notification for a title and body: OSC 9, OSC 777, and a bell.
pub fn notification_sequence(title: &str, body: &str) -> (r: String)
    ensures
        r@ == spec_notification_sequence(title@, body@),
{
    let tv = chars_of(title);
    let bv = chars_of(body);
    let t = sanitize_chars(tv.as_slice());
    let b = sanitize_chars(bv.as_slice());
    let mut out = chars_of("\x1b]9;");
    append_chars(&mut out, t.as_slice());
    let sep = chars_of(": ");
    append_chars(&mut out, sep.as_slice());
    append_chars(&mut out, b.as_slice());
    let mid = chars_of("\x07\x1b]777;notify;");
    append_chars(&mut out, mid.as_slice());
    append_chars(&mut out, t.as_slice());
    let semi = chars_of(";");
    append_chars(&mut out, semi.as_slice());
    append_chars(&mut out, b.as_slice());
    let end = chars_of("\x07\x07");
    append_chars(&mut out, end.as_slice());
    string_of(out.as_slice())
}

/// Cleans pasted text for the one-line input: `\r\n` and every other control
/// character become one space each.
pub fn clean_paste(text: &str) -> (r: String)
    ensures
        r@ == spec_clean_paste(text@),
{
    let v = chars_of(text);
    let n = v.len();
    let mut u: Vec<char> = Vec::new();
    let mut i: usize = 0;
    assert(v@.skip(0) =~= v@);
    while i < n
        invariant
            n == v@.len(),
            i <= n,
            unify_crlf(v@) == u@ + unify_crlf(v@.skip(i as int)),
        decreases n - i,
    {
        let ghost rest = v@.skip(i as int);
        if i + 1 < n && v[i] == '\r' && v[i + 1] == '\n' {
            assert(rest[0] == '\r' && rest[1] == '\n');
            assert(rest.skip(2) =~= v@.skip(i + 2));
            u.push('\n');
            assert(u@.drop_last() + (seq!['\n'] + unify_crlf(v@.skip(i + 2))) =~= u@ + unify_crlf(v@.skip(i + 2)));
            i = i + 2;
        } else {
            assert(rest[0] == v@[i as int]);
            assert(rest.drop_first() =~= v@.skip(i + 1));
            u.push(v[i]);
            assert(u@.drop_last() + (seq![v@[i as int]] + unify_crlf(v@.skip(i + 1))) =~= u@ + unify_crlf(
                v@.skip(i + 1),
            ));
            i = i + 1;
        }
    }
    assert(u@ + unify_crlf(v@.skip(n as int)) =~= u@) by {
        assert(v@.skip(n as int).len() == 0);
    }
    let r = controls_to_spaces_exec(u.as_slice());
    string_of(r.as_slice())
}

// ---------------------------------------------------------------------------
// Slash commands and attachments
// ---------------------------------------------------------------------------

/// The index of the first whitespace character, if any.
pub open spec fn first_space(s: Seq<char>, from: int) -> Option<int>
    decreases s.len() - from,
{
    if from < 0 || from >= s.len() {
        None
    } else if is_ws(s[from]) {
        Some(from)
    } else {
        first_space(s, from + 1)
    }
}

/// What [`parse_slash`] returns: the command and its trimmed arguments, for
/// input that starts with `/` (after trimming) and names something.
pub open spec fn spec_parse_slash(text: Seq<char>) -> Option<(Seq<char>, Seq<char>)> {
    let t = trim(text);
    if t.len() == 0 || t[0] != '/' {
        None
    } else {
        let rest = trim(t.drop_first());
        if rest.len() == 0 {
            None
        } else {
            match first_space(rest, 0) {
                Some(i) => Some((rest.take(i), trim(rest.skip(i + 1)))),
                None => Some((rest, Seq::empty())),
            }
        }
    }
}

/// Splits a slash command into its name and arguments; `None` for text that is
/// not a command.
pub fn parse_slash(text: &str) -> (r: Option<(String, String)>)
    ensures
        match r {
            Some((c, a)) => spec_parse_slash(text@) == Some((c@, a@)),
            None => spec_parse_slash(text@) is None,
        },
{
    let v = chars_of(text);
    let t = trim_vec(v.as_slice());
    if t.len() == 0 || t[0] != '/' {
        return None;
    }
    let rest = trim_vec(&t.as_slice()[1..t.len()]);
    assert(t@.subrange(1, t@.len() as int) =~= t@.drop_first());
    let n = rest.len();
    if n == 0 {
        return None;
    }
    let ghost goal = spec_parse_slash(text@);
    assert(goal == match first_space(rest@, 0) {
        Some(i) => Some((rest@.take(i), trim(rest@.skip(i + 1)))),
        None => Some((rest@, Seq::<char>::empty())),
    });
    let mut i: usize = 0;
    while i < n
        invariant
            n == rest@.len(),
            i <= n,
            first_space(rest@, 0) == first_space(rest@, i as int),
            goal == spec_parse_slash(text@),
            goal == match first_space(rest@, 0) {
                Some(i) => Some((rest@.take(i), trim(rest@.skip(i + 1)))),
                None => Some((rest@, Seq::<char>::empty())),
            },
        decreases n - i,
    {
        if is_ws_exec(rest[i]) {
            let cmd = string_of(&rest.as_slice()[0..i]);
            let args = trim_vec(&rest.as_slice()[i + 1..n]);
            assert(rest@.subrange(0, i as int) =~= rest@.take(i as int));
            assert(rest@.subrange(i + 1, n as int) =~= rest@.skip(i + 1));
            return Some((cmd, string_of(args.as_slice())));
        }
        i = i + 1;
    }
    Some((string_of(rest.as_slice()), String::new()))
}

/// Does a whitespace-separated word mark an attachment (`@path`)?
pub open spec fn is_marker(w: Seq<char>) -> bool {
    w.len() > 1 && w[0] == '@'
}

/// The body words (all but the markers), in order.
pub open spec fn body_words(ws: Seq<Seq<char>>) -> Seq<Seq<char>>
    decreases ws.len(),
{
    if ws.len() == 0 {
        ws
    } else if is_marker(ws.last()) {
        body_words(ws.drop_last())
    } else {
        body_words(ws.drop_last()).push(ws.last())
    }
}

/// The marked paths (each marker without its `@`), in order.
pub open spec fn marked_paths(ws: Seq<Seq<char>>) -> Seq<Seq<char>>
    decreases ws.len(),
{
    if ws.len() == 0 {
        ws
    } else if is_marker(ws.last()) {
        marked_paths(ws.drop_last()).push(ws.last().drop_first())
    } else {
        marked_paths(ws.drop_last())
    }
}

pub open spec fn strings_view(v: Seq<String>) -> Seq<Seq<char>> {
    Seq::new(v.len(), |i: int| v[i]@)
}

/// Splits `@path` attachment markers off the input: the remaining words joined
/// by single spaces, and the marked paths.
pub fn extract_attachments(input: &str) -> (r: (String, Vec<String>))
    ensures
        r.0@ == join(body_words(words(input@)), " "@),
        strings_view(r.1@) == marked_paths(words(input@)),
{
    let v = chars_of(input);
    let ws = words_exec(v.as_slice());
    let ghost wv = lines_view(ws@);
    let mut body: Vec<Vec<char>> = Vec::new();
    let mut paths: Vec<String> = Vec::new();
    let mut i: usize = 0;
    assert(wv.take(0) =~= Seq::<Seq<char>>::empty());
    assert(lines_view(body@) =~= Seq::<Seq<char>>::empty());
    assert(strings_view(paths@) =~= Seq::<Seq<char>>::empty());
    while i < ws.len()
        invariant
            i <= ws@.len(),
            wv == lines_view(ws@),
            lines_view(body@) == body_words(wv.take(i as int)),
            strings_view(paths@) == marked_paths(wv.take(i as int)),
        decreases ws@.len() - i,
    {
        let w = &ws[i];
        assert(wv.take(i + 1).drop_last() =~= wv.take(i as int));
        assert(wv.take(i + 1).last() == w@);
        if w.len() > 1 && w[0] == '@' {
            let p = string_of(&w.as_slice()[1..w.len()]);
            assert(w@.subrange(1, w@.len() as int) =~= w@.drop_first());
            let ghost before = strings_view(paths@);
            paths.push(p);
            assert(strings_view(paths@) =~= before.push(w@.drop_first()));
        } else {
            let ghost before = lines_view(body@);
            body.push(vstd::slice::slice_to_vec(w.as_slice()));
            assert(lines_view(body@) =~= before.push(w@));
        }
        i = i + 1;
    }
    assert(wv.take(ws@.len() as int) =~= wv);
    let space = [' '];
    let joined = join_exec(&body, &space);
    proof {
        reveal_strlit(" ");
        assert(space@ =~= " "@);
    }
    (string_of(joined.as_slice()), paths)
}

/// Backslashes read as slashes.
pub open spec fn unify_separators(s: Seq<char>) -> Seq<char> {
    s.map_values(|c: char| if c == '\\' { '/' } else { c })
}

/// The pieces between `/` and `\` separators.
pub open spec fn path_segments(s: Seq<char>) -> Seq<Seq<char>> {
    split_on(unify_separators(s), '/')
}

/// An attachment path that stays in the workspace: not empty, not absolute (no
/// leading `/`), and no `..` segment.
pub open spec fn workspace_relative(rel: Seq<char>) -> bool {
    rel.len() > 0 && rel[0] != '/' && forall|k: int|
        0 <= k < path_segments(rel).len() ==> #[trigger] path_segments(rel)[k] != ".."@
}

fn unify_separators_exec(v: &[char]) -> (r: Vec<char>)
    ensures
        r@ == unify_separators(v@),
{
    let mut r: Vec<char> = Vec::new();
    let mut i: usize = 0;
    while i < v.len()
        invariant
            i <= v@.len(),
            r@ == unify_separators(v@.take(i as int)),
        decreases v@.len() - i,
    {
        let c = v[i];
        r.push(if c == '\\' { '/' } else { c });
        assert(unify_separators(v@.take(i + 1)) =~= unify_separators(v@.take(i as int)).push(
            if c == '\\' { '/' } else { c },
        ));
        i = i + 1;
    }
    assert(v@.take(v@.len() as int) =~= v@);
    r
}

/// Is an attachment path acceptable: not empty, not absolute, no `..` escape?
pub fn is_workspace_relative(rel: &str) -> (b: bool)
    ensures
        b == workspace_relative(rel@),
{
    let v = chars_of(rel);
    if v.len() == 0 || v[0] == '/' {
        return false;
    }
    let u = unify_separators_exec(v.as_slice());
    let segs = split_on_exec(u.as_slice(), '/');
    let ghost sv = lines_view(segs@);
    let dots = chars_of("..");
    let mut i: usize = 0;
    while i < segs.len()
        invariant
            i <= segs@.len(),
            sv == lines_view(segs@),
            sv == path_segments(rel@),
            dots@ == ".."@,
            forall|k: int| 0 <= k < i ==> #[trigger] sv[k] != ".."@,
        decreases segs@.len() - i,
    {
        if crate::text::eq_chars(segs[i].as_slice(), dots.as_slice()) {
            assert(sv[i as int] == ".."@);
            return false;
        }
        i = i + 1;
    }
    true
}

/// The first 8 bytes of an id, when they end on a character boundary; else the
/// whole id.
pub fn short_id(id: &str) -> (r: &str)
    ensures
        r@ == (if id.is_char_boundary(8) {
            vstd::utf8::decode_utf8(id.spec_bytes().subrange(0, 8))
        } else {
            id@
        }),
{
    if id.is_char_boundary(8) {
        let (head, _) = id.split_at(8);
        proof {
            vstd::utf8::encode_utf8_decode_utf8(head@);
        }
        head
    } else {
        id
    }
}

// ---------------------------------------------------------------------------
// The picker's window
// ---------------------------------------------------------------------------

/// The rows to draw: the whole list if it fits, else `visible` rows around the
/// selection, kept inside the list.
pub open spec fn spec_picker_window(len: int, index: int, visible: int) -> (int, int) {
    if visible >= len {
        (0, len)
    } else {
        let centred = if index >= visible / 2 {
            index - visible / 2
        } else {
            0
        };
        let start = if centred <= len - visible {
            centred
        } else {
            len - visible
        };
        (start, start + visible)
    }
}

/// The range of picker rows to render.
pub fn picker_window(len: usize, index: usize, visible: usize) -> (r: std::ops::Range<usize>)
    ensures
        (r.start as int, r.end as int) == spec_picker_window(len as int, index as int, visible as int),
{
    if visible >= len {
        return 0..len;
    }
    let centred = index.saturating_sub(visible / 2);
    let start = if centred <= len - visible {
        centred
    } else {
        len - visible
    };
    start..start + visible
}

/// The window always shows the selected row, never more than `visible` rows, and
/// stays inside the list.
pub proof fn lemma_picker_window_shows_selection(len: int, index: int, visible: int)
    requires
        0 <= index < len,
        visible >= 1,
    ensures
        ({
            let (start, end) = spec_picker_window(len, index, visible);
            0 <= start <= index < end <= len && end - start <= visible
        }),
{
}

// ---------------------------------------------------------------------------
// Durations
// ---------------------------------------------------------------------------

/// `num / den` rounded to the nearest integer, an exact half to the even one.
pub open spec fn round_half_even(num: int, den: int) -> int {
    let q = num / den;
    let r = num % den;
    if 2 * r > den {
        q + 1
    } else if 2 * r == den && q % 2 == 1 {
        q + 1
    } else {
        q
    }
}

/// `2^(52 - e)` where `2^e <= ms / 1000 < 2^(e + 1)`, for `1000 <= ms < 64000`:
/// the scale of the binary64 significand of `ms / 1000`.
pub open spec fn significand_scale(ms: int) -> int {
    if ms < 2000 {
        0x10_0000_0000_0000
    } else if ms < 4000 {
        0x8_0000_0000_0000
    } else if ms < 8000 {
        0x4_0000_0000_0000
    } else if ms < 16000 {
        0x2_0000_0000_0000
    } else if ms < 32000 {
        0x1_0000_0000_0000
    } else {
        0x8000_0000_0000
    }
}

/// Tenths of a second as `{:.1}` shows `ms / 1000.0`: the binary64 value nearest
/// to `ms / 1000` is `m / scale` with `m` the nearest integer to
/// `ms * scale / 1000`; its tenths are rounded to the nearest, ties to even.
pub open spec fn shown_tenths(ms: int) -> int {
    let scale = significand_scale(ms);
    let m = round_half_even(ms * scale, 1000);
    round_half_even(10 * m, scale)
}

/// Two digits, zero-padded.
pub open spec fn two_digits(n: nat) -> Seq<char> {
    if n < 10 {
        seq!['0'] + crate::text::dec(n)
    } else {
        crate::text::dec(n)
    }
}

/// What [`format_duration`] returns: milliseconds below a second, seconds with
/// one decimal below a minute, then minutes and two-digit seconds.
pub open spec fn spec_format_duration(ms: nat) -> Seq<char> {
    if ms < 1000 {
        crate::text::dec(ms) + "ms"@
    } else if ms < 60000 {
        let t = shown_tenths(ms as int);
        crate::text::dec((t / 10) as nat) + "."@ + crate::text::dec((t % 10) as nat) + "s"@
    } else {
        let total = ms / 1000;
        crate::text::dec(total / 60) + "m"@ + two_digits(total % 60) + "s"@
    }
}

pub(crate) fn round_half_even_exec(num: u128, den: u128) -> (r: u128)
    requires
        0 < den <= 0x100_0000_0000_0000_0000_0000_0000_0000,
        num < 0x8000_0000_0000_0000_0000_0000_0000_0000,
    ensures
        r == round_half_even(num as int, den as int),
        r <= num / den + 1,
{
    let q = num / den;
    let r = num % den;
    if 2 * r > den {
        q + 1
    } else if 2 * r == den && q % 2 == 1 {
        q + 1
    } else {
        q
    }
}

/// A duration as shown next to finished blocks: `320ms`, `1.5s`, `1m05s`.
pub fn format_duration(ms: u64) -> (s: String)
    ensures
        s@ == spec_format_duration(ms as nat),
{
    let mut v: Vec<char>;
    if ms < 1000 {
        v = crate::text::decimal(ms as u128);
        let unit = chars_of("ms");
        append_chars(&mut v, unit.as_slice());
    } else if ms < 60000 {
        let scale: u128 = if ms < 2000 {
            0x10_0000_0000_0000
        } else if ms < 4000 {
            0x8_0000_0000_0000
        } else if ms < 8000 {
            0x4_0000_0000_0000
        } else if ms < 16000 {
            0x2_0000_0000_0000
        } else if ms < 32000 {
            0x1_0000_0000_0000
        } else {
            0x8000_0000_0000
        };
        assert(ms as u128 * scale < 0x1_0000_0000_0000_0000_0000_0000) by (nonlinear_arith)
            requires
                ms < 60000,
                scale <= 0x10_0000_0000_0000,
        ;
        let num = ms as u128 * scale;
        let m = round_half_even_exec(num, 1000);
        assert(m < 0x1000_0000_0000_0000);
        let t = round_half_even_exec(10 * m, scale);
        v = crate::text::decimal(t / 10);
        v.push('.');
        let frac = crate::text::decimal(t % 10);
        append_chars(&mut v, frac.as_slice());
        v.push('s');
        proof {
            reveal_strlit(".");
            reveal_strlit("s");
        }
    } else {
        let total = ms / 1000;
        v = crate::text::decimal((total / 60) as u128);
        v.push('m');
        let secs = total % 60;
        if secs < 10 {
            v.push('0');
        }
        let d = crate::text::decimal(secs as u128);
        append_chars(&mut v, d.as_slice());
        v.push('s');
        proof {
            reveal_strlit("m");
            reveal_strlit("s");
        }
    }
    string_of(v.as_slice())
}

/// The label of a folded block: `▸ {icon} {duration}`, or `▸ {icon}` without one.
pub open spec fn spec_collapsed_label(icon: Seq<char>, duration_ms: Option<u64>) -> Seq<char> {
    match duration_ms {
        Some(ms) => "\u{25B8} "@ + icon + " "@ + spec_format_duration(ms as nat),
        None => "\u{25B8} "@ + icon,
    }
}

/// The label of a folded block.
pub fn collapsed_label(icon: &str, duration_ms: Option<u64>) -> (s: String)
    ensures
        s@ == spec_collapsed_label(icon@, duration_ms),
{
    let mut v = chars_of("\u{25B8} ");
    let iv = chars_of(icon);
    append_chars(&mut v, iv.as_slice());
    match duration_ms {
        Some(ms) => {
            let sp = chars_of(" ");
            append_chars(&mut v, sp.as_slice());
            let d = format_duration(ms);
            let dv = chars_of(d.as_str());
            append_chars(&mut v, dv.as_slice());
        },
        None => {},
    }
    string_of(v.as_slice())
}

// ---------------------------------------------------------------------------
// Wrapping
// ---------------------------------------------------------------------------

/// The state while one line is wrapped: the finished lines, the line being
/// filled, its width, and the position of its last space (if one may still be
/// used as a break).
pub struct WrapState {
    pub out: Seq<Seq<char>>,
    pub cur: Seq<char>,
    pub used: int,
    pub last_space: Option<int>,
}

pub open spec fn wrap_start() -> WrapState {
    WrapState { out: Seq::empty(), cur: Seq::empty(), used: 0, last_space: None }
}

/// One character: when it does not fit on a non-empty line, the line is broken
/// at its last space (the space and the blanks after it are dropped) or, without
/// one, before the character.
pub open spec fn wrap_step(st: WrapState, ch: char, width: int) -> WrapState {
    let w = char_width(ch) as int;
    let st1 = if st.used + w > width && st.cur.len() > 0 {
        if st.last_space is Some && st.last_space->0 > 0 {
            let pos = st.last_space->0;
            let rest = trim_start(st.cur.skip(pos));
            WrapState {
                out: st.out.push(st.cur.take(pos)),
                cur: rest,
                used: width_of(rest) + w,
                last_space: None,
            }
        } else {
            WrapState { out: st.out.push(st.cur), cur: Seq::empty(), used: w, last_space: None }
        }
    } else {
        WrapState { out: st.out, cur: st.cur, used: st.used + w, last_space: st.last_space }
    };
    WrapState {
        out: st1.out,
        cur: st1.cur.push(ch),
        used: st1.used,
        last_space: if ch == ' ' {
            Some(st1.cur.len() as int)
        } else {
            st1.last_space
        },
    }
}

pub open spec fn wrap_fold(s: Seq<char>, width: int) -> WrapState
    decreases s.len(),
{
    if s.len() == 0 {
        wrap_start()
    } else {
        wrap_step(wrap_fold(s.drop_last(), width), s.last(), width)
    }
}

/// The wrapped lines of one input line (an empty line stays one empty line).
pub open spec fn wrap_line(raw: Seq<char>, width: int) -> Seq<Seq<char>> {
    if raw.len() == 0 {
        seq![Seq::empty()]
    } else {
        let st = wrap_fold(raw, width);
        st.out.push(st.cur)
    }
}

pub open spec fn wrap_lines(pieces: Seq<Seq<char>>, width: int) -> Seq<Seq<char>>
    decreases pieces.len(),
{
    if pieces.len() == 0 {
        Seq::empty()
    } else {
        wrap_lines(pieces.drop_last(), width) + wrap_line(pieces.last(), width)
    }
}

/// What [`wrap_text`] returns: each `\n`-separated line wrapped on its own.
pub open spec fn spec_wrap_text(text: Seq<char>, width: int) -> Seq<Seq<char>> {
    wrap_lines(split_on(text, '\n'), width)
}

pub open spec fn opt_usize(o: Option<usize>) -> Option<int> {
    match o {
        Some(v) => Some(v as int),
        None => None,
    }
}

/// Wraps one non-empty line, appending its wrapped lines to `out`.
fn wrap_line_exec(raw: &[char], width: usize, out: &mut Vec<Vec<char>>)
    requires
        raw@.len() > 0,
        raw@.len() <= usize::MAX / 4,
    ensures
        lines_view(final(out)@) == lines_view(old(out)@) + wrap_line(raw@, width as int),
{
    let ghost base = lines_view(out@);
    let n = raw.len();
    let mut cur: Vec<char> = Vec::new();
    let mut used: usize = 0;
    let mut last_space: Option<usize> = None;
    let mut i: usize = 0;
    assert(raw@.take(0) =~= Seq::<char>::empty());
    assert(base + Seq::<Seq<char>>::empty() =~= base);
    while i < n
        invariant
            n == raw@.len(),
            n <= usize::MAX / 4,
            i <= n,
            cur@.len() <= i,
            used <= 2 * i,
            last_space matches Some(p) ==> p < cur@.len(),
            lines_view(out@) == base + wrap_fold(raw@.take(i as int), width as int).out,
            cur@ == wrap_fold(raw@.take(i as int), width as int).cur,
            used == wrap_fold(raw@.take(i as int), width as int).used,
            opt_usize(last_space) == wrap_fold(raw@.take(i as int), width as int).last_space,
        decreases n - i,
    {
        let ch = raw[i];
        assert(raw@.take(i + 1).drop_last() =~= raw@.take(i as int));
        assert(raw@.take(i + 1).last() == ch);
        let w = char_width_exec(ch);
        if used + w > width && cur.len() > 0 {
            let split_at: usize = match last_space {
                Some(pos) => pos,
                None => 0,
            };
            if split_at > 0 {
                let head = vstd::slice::slice_to_vec(&cur.as_slice()[0..split_at]);
                let rest = crate::text::trim_start_vec(&cur.as_slice()[split_at..cur.len()]);
                proof {
                    assert(cur@.subrange(0, split_at as int) =~= cur@.take(split_at as int));
                    assert(cur@.subrange(split_at as int, cur@.len() as int) =~= cur@.skip(split_at as int));
                    crate::text::lemma_trim_start_len(cur@.skip(split_at as int));
                    lemma_width_bounds(rest@);
                }
                let ghost before = lines_view(out@);
                let ghost hv = head@;
                out.push(head);
                assert(lines_view(out@) =~= before.push(hv));
                used = width_of_chars(rest.as_slice()) + w;
                cur = rest;
            } else {
                let ghost before = lines_view(out@);
                let ghost cv = cur@;
                out.push(cur);
                assert(lines_view(out@) =~= before.push(cv));
                cur = Vec::new();
                used = w;
            }
            last_space = None;
        } else {
            used = used + w;
        }
        if ch == ' ' {
            last_space = Some(cur.len());
        }
        cur.push(ch);
        i = i + 1;
    }
    assert(raw@.take(n as int) =~= raw@);
    let ghost before = lines_view(out@);
    let ghost cv = cur@;
    out.push(cur);
    assert(lines_view(out@) =~= before.push(cv));
}

/// Wraps text to `width` display columns, breaking at spaces where it can.
pub fn wrap_text(text: &str, width: usize) -> (r: Vec<String>)
    requires
        text@.len() <= usize::MAX / 4,
    ensures
        strings_view(r@) == spec_wrap_text(text@, width as int),
{
    let v = chars_of(text);
    let pieces = split_on_exec(v.as_slice(), '\n');
    let ghost pv = lines_view(pieces@);
    let mut out: Vec<Vec<char>> = Vec::new();
    let mut k: usize = 0;
    assert(pv.take(0) =~= Seq::<Seq<char>>::empty());
    assert(lines_view(out@) =~= Seq::<Seq<char>>::empty());
    while k < pieces.len()
        invariant
            k <= pieces@.len(),
            pv == lines_view(pieces@),
            pv == split_on(text@, '\n'),
            text@.len() <= usize::MAX / 4,
            lines_view(out@) == wrap_lines(pv.take(k as int), width as int),
        decreases pieces@.len() - k,
    {
        assert(pv.take(k + 1).drop_last() =~= pv.take(k as int));
        assert(pv.take(k + 1).last() == pieces@[k as int]@);
        proof {
            crate::text::lemma_split_on_pieces_shorter(text@, '\n', k as int);
        }
        if pieces[k].len() == 0 {
            let ghost before = lines_view(out@);
            out.push(Vec::new());
            assert(lines_view(out@) =~= before + seq![Seq::<char>::empty()]);
        } else {
            wrap_line_exec(pieces[k].as_slice(), width, &mut out);
        }
        k = k + 1;
    }
    assert(pv.take(pieces@.len() as int) =~= pv);
    let r = strings_of(&out);
    assert(strings_view(r@) =~= lines_view(out@));
    r
}

// ---------------------------------------------------------------------------
// Wrapping: laws
// ---------------------------------------------------------------------------

pub open spec fn fits_lines(lines: Seq<Seq<char>>, width: int) -> bool {
    forall|k: int| 0 <= k < lines.len() ==> width_of(#[trigger] lines[k]) <= width
}

pub open spec fn wrap_inv(st: WrapState, width: int) -> bool {
    &&& st.used == width_of(st.cur)
    &&& st.used <= width
    &&& fits_lines(st.out, width)
    &&& st.last_space matches Some(p) ==> 0 <= p < st.cur.len() && st.cur[p] == ' '
}

proof fn lemma_trim_start_width(s: Seq<char>)
    ensures
        width_of(trim_start(s)) <= width_of(s),
{
    crate::text::lemma_trim_start_len(s);
    let k = choose|k: int| 0 <= k <= s.len() && trim_start(s) == s.skip(k);
    lemma_width_split(s, k);
}

proof fn lemma_wrap_step_inv(st: WrapState, ch: char, width: int)
    requires
        width >= 2,
        wrap_inv(st, width),
    ensures
        wrap_inv(wrap_step(st, ch, width), width),
{
    let w = char_width(ch) as int;
    if st.used + w > width && st.cur.len() > 0 {
        if st.last_space is Some && st.last_space->0 > 0 {
            let pos = st.last_space->0;
            let tail = st.cur.skip(pos);
            let rest = trim_start(tail);
            lemma_width_split(st.cur, pos);
            lemma_width_bounds(st.cur.take(pos));
            lemma_width_split(tail, 1);
            assert(tail.take(1) =~= seq![' ']);
            lemma_width_single(' ');
            assert(tail.skip(1) =~= st.cur.skip(pos + 1));
            assert(is_ws(tail[0]));
            assert(tail.drop_first() =~= tail.skip(1));
            assert(rest == trim_start(tail.skip(1)));
            lemma_trim_start_width(tail.skip(1));
            let out2 = st.out.push(st.cur.take(pos));
            assert forall|k: int| 0 <= k < out2.len() implies width_of(#[trigger] out2[k]) <= width by {
                if k < st.out.len() {
                    assert(out2[k] == st.out[k]);
                }
            }
            lemma_width_push(rest, ch);
        } else {
            let out2 = st.out.push(st.cur);
            assert forall|k: int| 0 <= k < out2.len() implies width_of(#[trigger] out2[k]) <= width by {
                if k < st.out.len() {
                    assert(out2[k] == st.out[k]);
                }
            }
            lemma_width_push(Seq::empty(), ch);
        }
    } else {
        lemma_width_push(st.cur, ch);
    }
}

proof fn lemma_wrap_fold_inv(s: Seq<char>, width: int)
    requires
        width >= 2,
    ensures
        wrap_inv(wrap_fold(s, width), width),
    decreases s.len(),
{
    if s.len() > 0 {
        lemma_wrap_fold_inv(s.drop_last(), width);
        lemma_wrap_step_inv(wrap_fold(s.drop_last(), width), s.last(), width);
    }
}

proof fn lemma_wrap_lines_fit(pieces: Seq<Seq<char>>, width: int)
    requires
        width >= 2,
    ensures
        fits_lines(wrap_lines(pieces, width), width),
    decreases pieces.len(),
{
    if pieces.len() > 0 {
        lemma_wrap_lines_fit(pieces.drop_last(), width);
        let a = wrap_lines(pieces.drop_last(), width);
        let b = wrap_line(pieces.last(), width);
        if pieces.last().len() == 0 {
            assert(width_of(Seq::<char>::empty()) == 0);
        } else {
            lemma_wrap_fold_inv(pieces.last(), width);
        }
        assert forall|k: int| 0 <= k < (a + b).len() implies width_of(#[trigger] (a + b)[k]) <= width by {
            if k < a.len() {
                assert((a + b)[k] == a[k]);
            } else {
                assert((a + b)[k] == b[k - a.len()]);
            }
        }
    }
}

/// Wrapped lines never take more than `width` columns (for a width that holds
/// any one character).
pub proof fn lemma_wrap_respects_width(text: Seq<char>, width: int)
    requires
        width >= 2,
    ensures
        forall|k: int|
            0 <= k < spec_wrap_text(text, width).len() ==> width_of(#[trigger] spec_wrap_text(text, width)[k])
                <= width,
{
    lemma_wrap_lines_fit(split_on(text, '\n'), width);
}

/// The concatenation of lines.
pub open spec fn concat_lines(lines: Seq<Seq<char>>) -> Seq<char>
    decreases lines.len(),
{
    if lines.len() == 0 {
        Seq::empty()
    } else {
        concat_lines(lines.drop_last()) + lines.last()
    }
}

proof fn lemma_concat_push(lines: Seq<Seq<char>>, l: Seq<char>)
    ensures
        concat_lines(lines.push(l)) == concat_lines(lines) + l,
{
    assert(lines.push(l).drop_last() =~= lines);
}

proof fn lemma_wrap_fold_keeps(s: Seq<char>, width: int)
    requires
        forall|i: int| 0 <= i < s.len() ==> s[i] != ' ',
    ensures
        concat_lines(wrap_fold(s, width).out) + wrap_fold(s, width).cur == s,
        wrap_fold(s, width).last_space is None,
    decreases s.len(),
{
    if s.len() == 0 {
        assert(concat_lines(Seq::<Seq<char>>::empty()) + Seq::<char>::empty() =~= s);
    } else {
        let t = s.drop_last();
        assert(s[s.len() - 1] != ' ');
        lemma_wrap_fold_keeps(t, width);
        let st = wrap_fold(t, width);
        let w = char_width(s.last()) as int;
        if st.used + w > width && st.cur.len() > 0 {
            lemma_concat_push(st.out, st.cur);
            assert(concat_lines(st.out.push(st.cur)) + Seq::<char>::empty().push(s.last()) =~= s);
        } else {
            assert(s =~= t.push(s.last()));
            assert(concat_lines(st.out) + st.cur.push(s.last()) =~= (concat_lines(st.out) + st.cur).push(
                s.last(),
            ));
        }
    }
}

proof fn lemma_wrap_lines_keep(pieces: Seq<Seq<char>>, width: int)
    requires
        forall|k: int, i: int| 0 <= k < pieces.len() && 0 <= i < pieces[k].len() ==> #[trigger] pieces[k][i] != ' ',
    ensures
        concat_lines(wrap_lines(pieces, width)) == concat_lines(pieces),
    decreases pieces.len(),
{
    if pieces.len() > 0 {
        let p = pieces.drop_last();
        assert forall|k: int, i: int| 0 <= k < p.len() && 0 <= i < p[k].len() implies #[trigger] p[k][i] != ' ' by {
            assert(p[k] == pieces[k]);
        }
        lemma_wrap_lines_keep(p, width);
        let a = wrap_lines(p, width);
        let l = pieces.last();
        lemma_concat_append(a, wrap_line(l, width));
        if l.len() == 0 {
            assert(concat_lines(seq![Seq::<char>::empty()]) =~= Seq::<char>::empty()) by {
                lemma_concat_push(Seq::<Seq<char>>::empty(), Seq::<char>::empty());
                assert(Seq::<Seq<char>>::empty().push(Seq::<char>::empty()) =~= seq![Seq::<char>::empty()]);
            }
        } else {
            assert forall|i: int| 0 <= i < l.len() implies l[i] != ' ' by {
                assert(pieces[pieces.len() - 1][i] != ' ');
            }
            lemma_wrap_fold_keeps(l, width);
            lemma_concat_push(wrap_fold(l, width).out, wrap_fold(l, width).cur);
        }
    }
}

proof fn lemma_concat_append(a: Seq<Seq<char>>, b: Seq<Seq<char>>)
    ensures
        concat_lines(a + b) == concat_lines(a) + concat_lines(b),
    decreases b.len(),
{
    if b.len() == 0 {
        assert(a + b =~= a);
        assert(concat_lines(a) + Seq::<char>::empty() =~= concat_lines(a));
    } else {
        lemma_concat_append(a, b.drop_last());
        assert((a + b).drop_last() =~= a + b.drop_last());
        assert(concat_lines(a) + concat_lines(b.drop_last()) + b.last() =~= concat_lines(a) + (
        concat_lines(b.drop_last()) + b.last()));
    }
}

/// Wrapping a line without spaces only breaks it: the wrapped lines put back
/// together give the text again.
pub proof fn lemma_wrap_keeps_content(text: Seq<char>, width: int)
    requires
        forall|i: int| 0 <= i < text.len() ==> text[i] != ' ' && text[i] != '\n',
    ensures
        concat_lines(spec_wrap_text(text, width)) == text,
{
    crate::text::lemma_find_char_bounds(text, '\n', 0);
    assert(split_on(text, '\n') == seq![text]);
    assert(seq![text].drop_last() =~= Seq::<Seq<char>>::empty());
    lemma_wrap_lines_keep(seq![text], width);
    assert(concat_lines(seq![text]) =~= text) by {
        assert(concat_lines(Seq::<Seq<char>>::empty()) + text =~= text);
    }
}

// ---------------------------------------------------------------------------
// Small labels and the connection records
// ---------------------------------------------------------------------------

/// The kind of a transcript block.
#[derive(Debug, Clone, Copy, PartialEq, Eq)]
pub enum EntryKind {
    User,
    Assistant,
    Thinking,
    Tool,
    Notice,
}

/// The label in front of a transcript block; user and assistant blocks have none.
pub fn entry_prefix(kind: EntryKind) -> (s: &'static str)
    ensures
        s@ == (match kind {
            EntryKind::User | EntryKind::Assistant => ""@,
            EntryKind::Thinking => "\u{601D}"@,
            EntryKind::Tool => "\u{2699}"@,
            EntryKind::Notice => "\u{B7}"@,
        }),
{
    match kind {
        EntryKind::User | EntryKind::Assistant => "",
        EntryKind::Thinking => "\u{601D}",
        EntryKind::Tool => "\u{2699}",
        EntryKind::Notice => "\u{B7}",
    }
}

/// How the end of a turn is shown.
pub open spec fn spec_stop_reason_label(reason: StopReason) -> Seq<char> {
    match reason {
        StopReason::EndTurn => "\u{5B8C}\u{6210}"@,
        StopReason::ToolUse => "\u{5DE5}\u{5177}\u{8C03}\u{7528}"@,
        StopReason::MaxTokens => "\u{8FBE}\u{5230}\u{8F93}\u{51FA}\u{4E0A}\u{9650}"@,
        StopReason::Cancelled => "\u{5DF2}\u{53D6}\u{6D88}"@,
        StopReason::Error => "\u{51FA}\u{9519}"@,
    }
}

/// How the end of a turn is shown, as [`spec_stop_reason_label`] says.
pub fn stop_reason_label(reason: StopReason) -> (s: &'static str)
    ensures
        s@ == spec_stop_reason_label(reason),
        s@ == (match reason {
            StopReason::EndTurn => "\u{5B8C}\u{6210}"@,
            StopReason::ToolUse => "\u{5DE5}\u{5177}\u{8C03}\u{7528}"@,
            StopReason::MaxTokens => "\u{8FBE}\u{5230}\u{8F93}\u{51FA}\u{4E0A}\u{9650}"@,
            StopReason::Cancelled => "\u{5DF2}\u{53D6}\u{6D88}"@,
            StopReason::Error => "\u{51FA}\u{9519}"@,
        }),
{
    match reason {
        StopReason::EndTurn => "\u{5B8C}\u{6210}",
        StopReason::ToolUse => "\u{5DE5}\u{5177}\u{8C03}\u{7528}",
        StopReason::MaxTokens => "\u{8FBE}\u{5230}\u{8F93}\u{51FA}\u{4E0A}\u{9650}",
        StopReason::Cancelled => "\u{5DF2}\u{53D6}\u{6D88}",
        StopReason::Error => "\u{51FA}\u{9519}",
    }
}

/// The activity animation's frames.
pub open spec fn spinner_frames() -> Seq<Seq<char>> {
    seq![
        "\u{280B}"@,
        "\u{2819}"@,
        "\u{2839}"@,
        "\u{2838}"@,
        "\u{283C}"@,
        "\u{2834}"@,
        "\u{2826}"@,
        "\u{2827}"@,
        "\u{2807}"@,
        "\u{280F}"@,
    ]
}

/// The animation frame after `elapsed_ms` milliseconds: one step every 80 ms.
pub fn spinner_frame(elapsed_ms: u128) -> (s: &'static str)
    ensures
        s@ == spinner_frames()[((elapsed_ms / 80) % 10) as int],
{
    let k = (elapsed_ms / 80) % 10;
    if k == 0 {
        "\u{280B}"
    } else if k == 1 {
        "\u{2819}"
    } else if k == 2 {
        "\u{2839}"
    } else if k == 3 {
        "\u{2838}"
    } else if k == 4 {
        "\u{283C}"
    } else if k == 5 {
        "\u{2834}"
    } else if k == 6 {
        "\u{2826}"
    } else if k == 7 {
        "\u{2827}"
    } else if k == 8 {
        "\u{2807}"
    } else {
        "\u{280F}"
    }
}

/// A saved connection that the TUI can switch to.
#[derive(Debug, Clone, PartialEq, Eq)]
pub struct TuiConnection {
    pub name: String,
    pub url: String,
    pub token: String,
}

/// The start-up parameters of the TUI.
pub struct TuiOptions {
    /// The initial address and token.
    pub addr: String,
    pub token: String,
    pub workspace: String,
    /// The connections to switch between; none offers no switching.
    pub connections: Vec<TuiConnection>,
    /// The initially active connection's name.
    pub active: Option<String>,
}

/// What the TUI hands back on exit: the active connection, and the connection
/// list when the settings changed it.
pub struct TuiExit {
    pub active: Option<String>,
    pub connections: Option<Vec<TuiConnection>>,
}

// ---------------------------------------------------------------------------
// Picker items
// ---------------------------------------------------------------------------

/// What confirming a picker item does.
#[derive(Debug, Clone, PartialEq, Eq)]
pub enum PickerAction {
    SwitchConnection { addr: String, token: String, name: String },
    SwitchSession { session_id: String },
    /// Switch the model (a `provider/model_id` selector).
    SetModel(String),
    /// Switch the agent preset.
    SetAgent(String),
    /// Switch the reasoning level.
    SetReasoningLevel(String),
    /// Switch to the branch ending at a message.
    SwitchBranch { leaf_message_id: String },
    /// Put a past message's text back into the input and fork before it.
    ForkFrom { text: String, parent_id: Option<String>, label: String },
    /// Delete a user message and its subtree.
    DeleteMessage { message_id: String },
    /// Open a new session for the current workspace.
    NewSession,
}

/// One row of a picker.
#[derive(Debug, Clone)]
pub struct PickerItem {
    /// The main text: a connection's name, a session's title.
    pub label: String,
    /// The note on the right.
    pub detail: String,
    /// Is this the item in effect now (shown with a check mark)?
    pub current: bool,
    pub action: PickerAction,
}

/// The index of the first item in effect, if any.
pub open spec fn first_current(items: Seq<PickerItem>, k: int) -> Option<int>
    decreases items.len() - k,
{
    if k < 0 || k >= items.len() {
        None
    } else if items[k].current {
        Some(k)
    } else {
        first_current(items, k + 1)
    }
}

/// Where a picker opens: on the item in effect, else on the first one.
pub fn picker_current_index(items: &[PickerItem]) -> (i: usize)
    ensures
        i as int == (match first_current(items@, 0) {
            Some(k) => k,
            None => 0,
        }),
{
    let mut k: usize = 0;
    while k < items.len()
        invariant
            k <= items@.len(),
            first_current(items@, 0) == first_current(items@, k as int),
        decreases items@.len() - k,
    {
        if items[k].current {
            return k;
        }
        k = k + 1;
    }
    0
}

} // verus!
