//! The `read` tool's text path: the window of lines it shows, each numbered
//! with its line in the file, and how it tells the model where to go on.
//!
//! The numbered window is cut to the output limits by the tool's head
//! truncation; its outcome ([`HeadCut`]) comes in as a value, and the text
//! that follows from it is decided here.
use vstd::prelude::*;

use crate::text::{append_chars, chars_of, dec, decimal, join, join_exec, lines_view, string_of};
use crate::tools::{text_lines, text_lines_exec};

verus! {

/// A line number right-aligned in four columns (`{:4}`).
pub open spec fn pad4(n: nat) -> Seq<char> {
    let d = dec(n);
    if d.len() < 4 {
        Seq::new((4 - d.len()) as nat, |i: int| ' ') + d
    } else {
        d
    }
}

/// A line of the window: its number in the file, ` | `, the line.
pub open spec fn numbered(no: nat, line: Seq<char>) -> Seq<char> {
    pad4(no) + " | "@ + line
}

/// The first line shown (0-based): the offset counts from 1, and 0 reads as 1.
pub open spec fn start_index(offset: nat) -> int {
    if offset >= 1 {
        offset - 1
    } else {
        0
    }
}

/// The end of the window: the limit's lines from the start, not past the
/// file; without a limit, the file's end.
pub open spec fn end_index(start: int, limit: Option<usize>, total: int) -> int {
    match limit {
        Some(l) => if start + l < total {
            start + l
        } else {
            total
        },
        None => total,
    }
}

/// The numbered lines of the window, joined by `\n`.
pub open spec fn window_text(lines: Seq<Seq<char>>, start: int, end: int) -> Seq<char> {
    join(Seq::new((end - start) as nat, |i: int| numbered((start + i + 1) as nat, lines[start + i])), "\n"@)
}

/// The error of an offset past the file's last line.
pub open spec fn offset_error(offset: nat, total: nat) -> Seq<char> {
    "Offset "@ + dec(offset) + " is out of range. File has "@ + dec(total) + " lines."@
}

/// The window the tool shows.
#[derive(Debug, PartialEq)]
pub struct ReadWindow {
    /// The numbered lines, joined by `\n`.
    pub text: String,
    /// Lines in the file.
    pub total_lines: usize,
    /// The window's first line, 0-based.
    pub start: usize,
    /// Lines taken, where a limit was given.
    pub limited_to: Option<usize>,
}

/// The window of a text file from `offset` (counted from 1) on, at most
/// `limit` lines where one is given; or the error of an offset past the end.
pub fn read_window(content: &str, offset: usize, limit: Option<usize>) -> (r: Result<ReadWindow, String>)
    requires
        offset <= 1 || text_lines(content@).len() > 0,
        limit matches Some(l) ==> start_index(offset as nat) + l <= usize::MAX,
    ensures
        ({
            let lines = text_lines(content@);
            let total = lines.len() as int;
            let start = start_index(offset as nat);
            match r {
                Err(m) => start >= total && total > 0 && m@ == offset_error(offset as nat, total as nat),
                Ok(w) => !(start >= total && total > 0) && w.total_lines == total && w.start == start && w.text@
                    == window_text(lines, start, end_index(start, limit, total)) && w.limited_to == (match limit {
                    Some(_) => Some((end_index(start, limit, total) - start) as usize),
                    None => None::<usize>,
                }),
            }
        }),
{
    let chars = chars_of(content);
    let lines = text_lines_exec(chars.as_slice());
    let ghost lv = lines_view(lines@);
    let total = lines.len();
    let start: usize = if offset >= 1 {
        offset - 1
    } else {
        0
    };
    if start >= total && total > 0 {
        let mut m = chars_of("Offset ");
        append_chars(&mut m, decimal(offset as u128).as_slice());
        append_chars(&mut m, chars_of(" is out of range. File has ").as_slice());
        append_chars(&mut m, decimal(total as u128).as_slice());
        append_chars(&mut m, chars_of(" lines.").as_slice());
        return Err(string_of(m.as_slice()));
    }
    let end: usize = match limit {
        Some(l) => if start + l < total {
            start + l
        } else {
            total
        },
        None => total,
    };
    let mut parts: Vec<Vec<char>> = Vec::new();
    let mut k: usize = start;
    while k < end
        invariant
            start <= k <= end,
            end <= total,
            total == lv.len(),
            lv == lines_view(lines@),
            lines_view(parts@) == Seq::new((k - start) as nat, |i: int| numbered((start + i + 1) as nat, lv[start + i])),
        decreases end - k,
    {
        let mut p = pad_number(k + 1);
        append_chars(&mut p, chars_of(" | ").as_slice());
        append_chars(&mut p, lines[k].as_slice());
        let ghost before = lines_view(parts@);
        let ghost pv = p@;
        proof {
            assert(lines@[k as int]@ == lv[k as int]);
            assert(pv == numbered((k + 1) as nat, lv[k as int]));
        }
        parts.push(p);
        proof {
            assert(lines_view(parts@) =~= before.push(pv));
            assert(lines_view(parts@) =~= Seq::new(
                (k + 1 - start) as nat,
                |i: int| numbered((start + i + 1) as nat, lv[start + i]),
            ));
        }
        k = k + 1;
    }
    let text = join_exec(&parts, chars_of("\n").as_slice());
    let limited_to = match limit {
        Some(_) => Some(end - start),
        None => None,
    };
    Ok(ReadWindow { text: string_of(text.as_slice()), total_lines: total, start, limited_to })
}

fn pad_number(n: usize) -> (r: Vec<char>)
    ensures
        r@ == pad4(n as nat),
{
    let d = decimal(n as u128);
    if d.len() < 4 {
        let mut r: Vec<char> = Vec::new();
        let fill = 4 - d.len();
        while r.len() < fill
            invariant
                r@.len() <= fill,
                fill == 4 - d@.len(),
                forall|i: int| 0 <= i < r@.len() ==> r@[i] == ' ',
            decreases fill - r@.len(),
        {
            r.push(' ');
        }
        append_chars(&mut r, d.as_slice());
        proof {
            assert(r@ =~= Seq::new((4 - d@.len()) as nat, |i: int| ' ') + d@);
        }
        r
    } else {
        d
    }
}

/// Which limit cut the window.
#[derive(Debug, Clone, Copy, PartialEq, Eq)]
pub enum CutBy {
    Lines,
    Bytes,
}

/// What cutting the window to the output limits gave: the text kept, whether
/// anything was cut and by which limit, how many lines were kept, and
/// whether the first line alone is over the byte limit.
#[derive(Debug)]
pub struct HeadCut {
    pub content: String,
    pub truncated: bool,
    pub truncated_by: Option<CutBy>,
    pub output_lines: usize,
    pub first_line_exceeds_limit: bool,
}

/// The sizes the tool's notices name, written by the tool's size format:
/// the first line's size and the byte limit; and the byte limit as a number.
#[derive(Debug)]
pub struct SizeLabels {
    pub first_line: String,
    pub limit: String,
    pub limit_bytes: usize,
}

/// What the read tool answers for a window and its cut: a first line over
/// the byte limit gets a shell command to read it instead; a cut window
/// tells which lines it shows and where to go on (naming the byte limit
/// where that cut it); a window that a given limit ended before the file's
/// end tells how many lines remain; otherwise the window as kept.
pub open spec fn read_output(
    cut: HeadCut,
    total: nat,
    start: nat,
    limited_to: Option<usize>,
    path: Seq<char>,
    sizes: SizeLabels,
) -> Seq<char> {
    let shown_from = start + 1;
    if cut.first_line_exceeds_limit {
        "[Line "@ + dec(shown_from) + " is "@ + sizes.first_line@ + ", exceeds "@ + sizes.limit@
            + " limit. Use shell: sed -n '"@ + dec(shown_from) + "p' "@ + path + " | head -c "@ + dec(
            sizes.limit_bytes as nat,
        ) + "]"@
    } else if cut.truncated {
        let shown_to = (shown_from + cut.output_lines - 1) as nat;
        let next = shown_to + 1;
        if cut.truncated_by == Some(CutBy::Lines) {
            cut.content@ + "\n\n[Showing lines "@ + dec(shown_from) + "-"@ + dec(shown_to) + " of "@ + dec(total)
                + ". Use offset="@ + dec(next) + " to continue.]"@
        } else {
            cut.content@ + "\n\n[Showing lines "@ + dec(shown_from) + "-"@ + dec(shown_to) + " of "@ + dec(total)
                + " ("@ + sizes.limit@ + " limit). Use offset="@ + dec(next) + " to continue.]"@
        }
    } else {
        match limited_to {
            Some(n) => if start + n < total {
                cut.content@ + "\n\n["@ + dec((total - (start + n)) as nat) + " more lines in file. Use offset="@
                    + dec((start + n + 1) as nat) + " to continue.]"@
            } else {
                cut.content@
            },
            None => cut.content@,
        }
    }
}

/// A window cut to the output limits says which lines it shows and where to
/// go on: with `k` lines kept of a window from line `start + 1`, the lines
/// `start + 1` to `start + k` of the file, and the offset `start + k + 1`,
/// the line right after them (so reading on always moves forward).
pub proof fn lemma_cut_window_notice(
    cut: HeadCut,
    total: nat,
    start: nat,
    limited_to: Option<usize>,
    path: Seq<char>,
    sizes: SizeLabels,
)
    requires
        cut.truncated,
        !cut.first_line_exceeds_limit,
    ensures
        read_output(cut, total, start, limited_to, path, sizes) == cut.content@ + "\n\n[Showing lines "@ + dec(
            start + 1,
        ) + "-"@ + dec(start + cut.output_lines as nat) + " of "@ + dec(total) + (if cut.truncated_by == Some(CutBy::Lines) {
            ". Use offset="@
        } else {
            " ("@ + sizes.limit@ + " limit). Use offset="@
        }) + dec(start + cut.output_lines as nat + 1) + " to continue.]"@,
{
    let a = cut.content@ + "\n\n[Showing lines "@ + dec(start + 1) + "-"@ + dec(start + cut.output_lines as nat) + " of "@
        + dec(total);
    let tail = dec(start + cut.output_lines as nat + 1) + " to continue.]"@;
    if cut.truncated_by == Some(CutBy::Lines) {
        assert(read_output(cut, total, start, limited_to, path, sizes) =~= a + ". Use offset="@ + tail);
    } else {
        assert(read_output(cut, total, start, limited_to, path, sizes) =~= a + (" ("@ + sizes.limit@
            + " limit). Use offset="@) + tail);
    }
}

/// A window that nothing cut but a given limit ended before the file's end
/// says how many lines remain and where to go on: `total - (start + n)`
/// lines, from offset `start + n + 1`. A window that reaches the file's end,
/// with nothing cut, is shown as it was kept.
pub proof fn lemma_limited_window_notice(
    cut: HeadCut,
    total: nat,
    start: nat,
    limited_to: Option<usize>,
    path: Seq<char>,
    sizes: SizeLabels,
)
    requires
        !cut.truncated,
        !cut.first_line_exceeds_limit,
    ensures
        limited_to matches Some(n) ==> (start + n < total ==> read_output(cut, total, start, limited_to, path, sizes)
            == cut.content@ + "\n\n["@ + dec((total - (start + n)) as nat) + " more lines in file. Use offset="@ + dec(
            start + n as nat + 1,
        ) + " to continue.]"@),
        (limited_to is None || (limited_to matches Some(n) && start + n >= total)) ==> read_output(
            cut,
            total,
            start,
            limited_to,
            path,
            sizes,
        ) == cut.content@,
{
}

fn push_str(m: &mut Vec<char>, s: &str)
    ensures
        final(m)@ == old(m)@ + s@,
{
    let t = chars_of(s);
    append_chars(m, t.as_slice());
}

fn push_num(m: &mut Vec<char>, n: usize)
    ensures
        final(m)@ == old(m)@ + dec(n as nat),
{
    let t = decimal(n as u128);
    append_chars(m, t.as_slice());
}

/// What the read tool answers, as [`read_output`] says.
pub fn read_report(cut: HeadCut, window: &ReadWindow, path: &str, sizes: &SizeLabels) -> (r: String)
    requires
        window.start < usize::MAX,
        cut.truncated ==> window.start + cut.output_lines < usize::MAX,
        window.limited_to matches Some(n) ==> window.start + n < usize::MAX,
    ensures
        r@ == read_output(cut, window.total_lines as nat, window.start as nat, window.limited_to, path@, *sizes),
{
    let shown_from = window.start + 1;
    if cut.first_line_exceeds_limit {
        let mut m = chars_of("[Line ");
        push_num(&mut m, shown_from);
        push_str(&mut m, " is ");
        push_str(&mut m, sizes.first_line.as_str());
        push_str(&mut m, ", exceeds ");
        push_str(&mut m, sizes.limit.as_str());
        push_str(&mut m, " limit. Use shell: sed -n '");
        push_num(&mut m, shown_from);
        push_str(&mut m, "p' ");
        push_str(&mut m, path);
        push_str(&mut m, " | head -c ");
        push_num(&mut m, sizes.limit_bytes);
        push_str(&mut m, "]");
        return string_of(m.as_slice());
    }
    if cut.truncated {
        let shown_to = shown_from + cut.output_lines - 1;
        let next = shown_to + 1;
        let by_lines = match cut.truncated_by {
            Some(CutBy::Lines) => true,
            _ => false,
        };
        let mut m = chars_of(cut.content.as_str());
        push_str(&mut m, "\n\n[Showing lines ");
        push_num(&mut m, shown_from);
        push_str(&mut m, "-");
        push_num(&mut m, shown_to);
        push_str(&mut m, " of ");
        push_num(&mut m, window.total_lines);
        if by_lines {
            push_str(&mut m, ". Use offset=");
        } else {
            push_str(&mut m, " (");
            push_str(&mut m, sizes.limit.as_str());
            push_str(&mut m, " limit). Use offset=");
        }
        push_num(&mut m, next);
        push_str(&mut m, " to continue.]");
        return string_of(m.as_slice());
    }
    match window.limited_to {
        Some(n) => if window.start + n < window.total_lines {
            let mut m = chars_of(cut.content.as_str());
            push_str(&mut m, "\n\n[");
            push_num(&mut m, window.total_lines - (window.start + n));
            push_str(&mut m, " more lines in file. Use offset=");
            push_num(&mut m, window.start + n + 1);
            push_str(&mut m, " to continue.]");
            string_of(m.as_slice())
        } else {
            cut.content
        },
        None => cut.content,
    }
}

} // verus!
