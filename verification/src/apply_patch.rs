//! The `*** Begin Patch` envelope: its markers, errors, file operations and
//! the parser that turns an envelope into file operations.
//!
//! Hunk parsing lives in [`crate::hunks`], hunk application in
//! [`crate::patch_apply`]; both are re-exported here.
use vstd::prelude::*;

use crate::text::{find_char, trim_start, trim_end, 
    append_chars, chars_of, dec, eq_chars, is_blank, is_blank_exec, join, join_exec, lines_view,
    split_on, split_on_exec, starts_with, starts_with_exec, string_of, strip_prefix,
    strip_prefix_exec, strip_suffix, strip_suffix_exec, trim, trim_vec, decimal,
};

pub use crate::hunks::{parse_hunks, spec_parse_hunks, Hunk, HunkView};
pub use crate::patch_apply::{apply_hunks, spec_apply_hunks};

verus! {

// ---------------------------------------------------------------------------
// Markers and fixed messages
// ---------------------------------------------------------------------------

pub open spec fn begin_marker() -> Seq<char> {
    "*** Begin Patch"@
}

pub open spec fn end_marker() -> Seq<char> {
    "*** End Patch"@
}

pub open spec fn add_marker() -> Seq<char> {
    "*** Add File: "@
}

pub open spec fn delete_marker() -> Seq<char> {
    "*** Delete File: "@
}

pub open spec fn update_marker() -> Seq<char> {
    "*** Update File: "@
}

pub open spec fn move_marker() -> Seq<char> {
    "*** Move to: "@
}

pub open spec fn first_line_error() -> Seq<char> {
    "The first line of the patch must be '*** Begin Patch'"@
}

pub open spec fn last_line_error() -> Seq<char> {
    "The last line of the patch must be '*** End Patch'"@
}

pub open spec fn invalid_header_tail() -> Seq<char> {
    "' is not a valid hunk header. Valid hunk headers: '*** Add File: {path}', '*** Delete File: {path}', '*** Update File: {path}'"@
}

/// The notice that a failed multi-file envelope changed nothing.
pub open spec fn atomicity_notice_text() -> Seq<char> {
    "No files were modified \u{2014} sections apply atomically."@
}

/// The notice that a failed multi-file envelope changed nothing.
pub fn atomicity_notice() -> (s: &'static str)
    ensures
        s@ == atomicity_notice_text(),
{
    "No files were modified \u{2014} sections apply atomically."
}

// ---------------------------------------------------------------------------
// Errors
// ---------------------------------------------------------------------------

/// Why a patch could not be parsed or applied (a message for the model).
#[derive(Debug, Clone, PartialEq, Eq)]
pub struct PatchError {
    message: String,
}

impl View for PatchError {
    type V = Seq<char>;

    closed spec fn view(&self) -> Seq<char> {
        self.message@
    }
}

/// `Line {n}: {message}`.
pub open spec fn line_error(n: nat, message: Seq<char>) -> Seq<char> {
    "Line "@ + dec(n) + ": "@ + message
}

impl PatchError {
    /// An error with the given message.
    pub fn new(message: String) -> (e: PatchError)
        ensures
            e@ == message@,
    {
        PatchError { message }
    }

    /// An error built from characters.
    pub fn from_chars(message: &[char]) -> (e: PatchError)
        ensures
            e@ == message@,
    {
        PatchError { message: string_of(message) }
    }

    /// A parse error tied to a 1-based line number.
    pub fn at_line(line: u128, message: &[char]) -> (e: PatchError)
        ensures
            e@ == line_error(line as nat, message@),
    {
        let mut m = chars_of("Line ");
        let d = decimal(line);
        append_chars(&mut m, d.as_slice());
        let colon = chars_of(": ");
        append_chars(&mut m, colon.as_slice());
        append_chars(&mut m, message);
        PatchError::from_chars(m.as_slice())
    }

    /// The message, as shown to the model.
    pub fn to_string(&self) -> (s: String)
        ensures
            s@ == self@,
    {
        self.message.clone()
    }
}

// ---------------------------------------------------------------------------
// File operations
// ---------------------------------------------------------------------------

/// The kind of one file operation.
#[derive(Debug, Clone, Copy, PartialEq, Eq)]
pub enum FileOp {
    /// `*** Add File:`
    Add,
    /// `*** Delete File:`
    Delete,
    /// `*** Update File:`
    Update,
}

/// `A`, `D` or `M`.
pub open spec fn label(op: FileOp) -> char {
    match op {
        FileOp::Add => 'A',
        FileOp::Delete => 'D',
        FileOp::Update => 'M',
    }
}

impl FileOp {
    /// The one-letter mark used in the success summary.
    pub fn summary_label(self) -> (c: char)
        ensures
            c == label(self),
    {
        match self {
            FileOp::Add => 'A',
            FileOp::Delete => 'D',
            FileOp::Update => 'M',
        }
    }
}

/// One file operation read from the envelope.
#[derive(Debug, Clone, PartialEq, Eq)]
pub struct PatchEntry {
    /// The path in the section header (relative to the workspace).
    pub path: String,
    /// The operation.
    pub op: FileOp,
    /// The destination given by `*** Move to:`.
    pub rename: Option<String>,
    /// `Add`: the initial content (without the `+` marks); `Update`: the hunk body;
    /// `Delete`: `None`.
    pub body: Option<String>,
}

/// The mathematical content of a [`PatchEntry`].
pub struct EntryView {
    pub path: Seq<char>,
    pub op: FileOp,
    pub rename: Option<Seq<char>>,
    pub body: Option<Seq<char>>,
}

pub open spec fn opt_string_view(o: Option<String>) -> Option<Seq<char>> {
    match o {
        Some(s) => Some(s@),
        None => None,
    }
}

impl View for PatchEntry {
    type V = EntryView;

    open spec fn view(&self) -> EntryView {
        EntryView {
            path: self.path@,
            op: self.op,
            rename: opt_string_view(self.rename),
            body: opt_string_view(self.body),
        }
    }
}

pub open spec fn entries_view(v: Seq<PatchEntry>) -> Seq<EntryView> {
    Seq::new(v.len(), |i: int| v[i]@)
}

// ---------------------------------------------------------------------------
// Envelope: what the parser computes
// ---------------------------------------------------------------------------

/// Drop one trailing `\r`.
pub open spec fn strip_cr(l: Seq<char>) -> Seq<char> {
    match strip_suffix(l, seq!['\r']) {
        Some(t) => t,
        None => l,
    }
}

/// The envelope's lines: the trimmed input split at `\n`, each without a trailing `\r`.
pub open spec fn envelope_lines(input: Seq<char>) -> Seq<Seq<char>> {
    split_on(trim(input), '\n').map_values(|l: Seq<char>| strip_cr(l))
}

pub open spec fn is_heredoc_open(l: Seq<char>) -> bool {
    l == "<<EOF"@ || l == "<<'EOF'"@ || l == "<<\"EOF\""@
}

/// A `<<'EOF' ... EOF` wrapper around the envelope is dropped.
pub open spec fn unwrap_heredoc(lines: Seq<Seq<char>>) -> Seq<Seq<char>> {
    if lines.len() >= 2 && is_heredoc_open(lines[0]) && trim(lines.last()) == "EOF"@ {
        lines.subrange(1, lines.len() - 1)
    } else {
        lines
    }
}

/// Index of the first line at or after `j` (before `end`) that does not start with `+`.
pub open spec fn plus_run_end(lines: Seq<Seq<char>>, j: int, end: int) -> int
    decreases end - j,
{
    if j >= end || !starts_with(lines[j], seq!['+']) {
        j
    } else {
        plus_run_end(lines, j + 1, end)
    }
}

/// The content of an added file: each `+` line without its `+`, ended by `\n`.
pub open spec fn add_content(lines: Seq<Seq<char>>, from: int, to: int) -> Seq<char>
    decreases to - from,
{
    if to <= from {
        Seq::empty()
    } else {
        add_content(lines, from, to - 1) + lines[to - 1].drop_first() + seq!['\n']
    }
}

pub open spec fn is_file_header(l: Seq<char>) -> bool {
    starts_with(l, update_marker()) || starts_with(l, add_marker()) || starts_with(l, delete_marker())
}

/// Index of the first line at or after `j` (before `end`) that opens another file section.
pub open spec fn body_end(lines: Seq<Seq<char>>, j: int, end: int) -> int
    decreases end - j,
{
    if j >= end || is_file_header(lines[j]) {
        j
    } else {
        body_end(lines, j + 1, end)
    }
}

pub open spec fn prepend_ok<E>(e: E, r: Result<Seq<E>, Seq<char>>) -> Result<Seq<E>, Seq<char>> {
    match r {
        Ok(s) => Ok(seq![e] + s),
        Err(m) => Err(m),
    }
}

pub open spec fn combine<E>(prefix: Seq<E>, r: Result<Seq<E>, Seq<char>>) -> Result<
    Seq<E>,
    Seq<char>,
> {
    match r {
        Ok(s) => Ok(prefix + s),
        Err(m) => Err(m),
    }
}

/// The file sections between line `index` and the closing marker at `end`.
pub open spec fn parse_sections(lines: Seq<Seq<char>>, index: int, end: int) -> Result<
    Seq<EntryView>,
    Seq<char>,
>
    decreases end - index, 1int,
{
    if index >= end || index < 0 || end > lines.len() {
        Ok(Seq::empty())
    } else if is_blank(lines[index]) {
        parse_sections(lines, index + 1, end)
    } else {
        let header = trim(lines[index]);
        match strip_prefix(header, add_marker()) {
            Some(path) => {
                let k = plus_run_end(lines, index + 1, end);
                proof {
                    lemma_plus_run_end(lines, index + 1, end);
                }
                let e = EntryView {
                    path,
                    op: FileOp::Add,
                    rename: None,
                    body: Some(add_content(lines, index + 1, k)),
                };
                prepend_ok(e, parse_sections(lines, k, end))
            },
            None => match strip_prefix(header, delete_marker()) {
                Some(path) => {
                    let e = EntryView { path, op: FileOp::Delete, rename: None, body: None };
                    prepend_ok(e, parse_sections(lines, index + 1, end))
                },
                None => match strip_prefix(header, update_marker()) {
                    Some(path) => {
                        let has_move = index + 1 < end && starts_with(lines[index + 1], move_marker());
                        let rename = if has_move {
                            Some(lines[index + 1].skip(move_marker().len() as int))
                        } else {
                            None
                        };
                        let body_start = if has_move {
                            index + 2
                        } else {
                            index + 1
                        };
                        let k = body_end(lines, body_start, end);
                        proof {
                            lemma_body_end(lines, body_start, end);
                        }
                        if k == body_start {
                            Err(
                                line_error(
                                    (body_start + 1) as nat,
                                    "Update file hunk for path '"@ + path + "' is empty"@,
                                ),
                            )
                        } else {
                            let e = EntryView {
                                path,
                                op: FileOp::Update,
                                rename,
                                body: Some(join(lines.subrange(body_start, k), seq!['\n'])),
                            };
                            prepend_ok(e, parse_sections(lines, k, end))
                        }
                    },
                    None => Err(line_error((index + 1) as nat, "'"@ + header + invalid_header_tail())),
                },
            },
        }
    }
}

pub proof fn lemma_plus_run_end(lines: Seq<Seq<char>>, j: int, end: int)
    ensures
        j < end ==> j <= plus_run_end(lines, j, end) <= end,
        j >= end ==> plus_run_end(lines, j, end) == j,
    decreases end - j,
{
    if j < end && starts_with(lines[j], seq!['+']) {
        lemma_plus_run_end(lines, j + 1, end);
    }
}

pub proof fn lemma_body_end(lines: Seq<Seq<char>>, j: int, end: int)
    ensures
        j < end ==> j <= body_end(lines, j, end) <= end,
        j >= end ==> body_end(lines, j, end) == j,
    decreases end - j,
{
    if j < end && !is_file_header(lines[j]) {
        lemma_body_end(lines, j + 1, end);
    }
}

/// What [`parse_envelope`] returns for a given input.
pub open spec fn spec_parse_envelope(input: Seq<char>) -> Result<Seq<EntryView>, Seq<char>> {
    let lines = unwrap_heredoc(envelope_lines(input));
    if lines.len() == 0 || trim(lines[0]) != begin_marker() {
        Err(first_line_error())
    } else if trim(lines.last()) != end_marker() {
        Err(last_line_error())
    } else {
        parse_sections(lines, 1, lines.len() - 1)
    }
}

pub proof fn lemma_combine_prepend<E>(p: Seq<E>, e: E, r: Result<Seq<E>, Seq<char>>)
    ensures
        combine(p, prepend_ok(e, r)) == combine(p.push(e), r),
{
    match r {
        Ok(s) => {
            assert(p + (seq![e] + s) =~= p.push(e) + s);
        },
        Err(_) => {},
    }
}

// ---------------------------------------------------------------------------
// Envelope: the parser
// ---------------------------------------------------------------------------

fn strip_cr_exec(l: &[char]) -> (r: Vec<char>)
    ensures
        r@ == strip_cr(l@),
{
    let cr: Vec<char> = vec!['\r'];
    assert(cr@ =~= seq!['\r']);
    match strip_suffix_exec(l, cr.as_slice()) {
        Some(t) => t,
        None => vstd::slice::slice_to_vec(l),
    }
}

/// A copy of lines `a..b`.
pub fn sub_lines(lines: &Vec<Vec<char>>, a: usize, b: usize) -> (r: Vec<Vec<char>>)
    requires
        a <= b <= lines@.len(),
    ensures
        lines_view(r@) == lines_view(lines@).subrange(a as int, b as int),
{
    let mut r: Vec<Vec<char>> = Vec::new();
    let mut i = a;
    while i < b
        invariant
            a <= i <= b <= lines@.len(),
            r@.len() == i - a,
            forall|k: int| 0 <= k < i - a ==> #[trigger] r@[k]@ == lines@[a + k]@,
        decreases b - i,
    {
        r.push(vstd::slice::slice_to_vec(lines[i].as_slice()));
        i = i + 1;
    }
    assert(lines_view(r@) =~= lines_view(lines@).subrange(a as int, b as int));
    r
}

fn eq_lit(l: &[char], lit: &str) -> (b: bool)
    ensures
        b == (l@ == lit@),
{
    let v = chars_of(lit);
    eq_chars(l, v.as_slice())
}

/// Parse a complete `*** Begin Patch` envelope into file operations.
pub fn parse_envelope(input: &str) -> (r: Result<Vec<PatchEntry>, PatchError>)
    ensures
        match r {
            Ok(v) => spec_parse_envelope(input@) == Ok::<Seq<EntryView>, Seq<char>>(entries_view(v@)),
            Err(e) => spec_parse_envelope(input@) == Err::<Seq<EntryView>, Seq<char>>(e@),
        },
{
    let chars = chars_of(input);
    let trimmed = trim_vec(chars.as_slice());
    let raw = split_on_exec(trimmed.as_slice(), '\n');
    let mut lines: Vec<Vec<char>> = Vec::new();
    let mut i: usize = 0;
    while i < raw.len()
        invariant
            i <= raw@.len(),
            lines@.len() == i,
            forall|k: int| 0 <= k < i ==> #[trigger] lines@[k]@ == strip_cr(raw@[k]@),
        decreases raw@.len() - i,
    {
        lines.push(strip_cr_exec(raw[i].as_slice()));
        i = i + 1;
    }
    let ghost all = envelope_lines(input@);
    assert(lines_view(lines@) =~= all);
    let n = lines.len();
    let heredoc = n >= 2 && (eq_lit(lines[0].as_slice(), "<<EOF") || eq_lit(
        lines[0].as_slice(),
        "<<'EOF'",
    ) || eq_lit(lines[0].as_slice(), "<<\"EOF\"")) && {
        let last = trim_vec(lines[n - 1].as_slice());
        eq_lit(last.as_slice(), "EOF")
    };
    let lines = if heredoc {
        sub_lines(&lines, 1, n - 1)
    } else {
        lines
    };
    let ghost ls = unwrap_heredoc(all);
    assert(lines_view(lines@) == ls);
    let n = lines.len();
    if n == 0 {
        return Err(PatchError::from_chars(chars_of("The first line of the patch must be '*** Begin Patch'").as_slice()));
    }
    let first = trim_vec(lines[0].as_slice());
    if !eq_lit(first.as_slice(), "*** Begin Patch") {
        return Err(PatchError::from_chars(chars_of("The first line of the patch must be '*** Begin Patch'").as_slice()));
    }
    let last = trim_vec(lines[n - 1].as_slice());
    if !eq_lit(last.as_slice(), "*** End Patch") {
        return Err(PatchError::from_chars(chars_of("The last line of the patch must be '*** End Patch'").as_slice()));
    }
    let end = n - 1;
    let add = chars_of("*** Add File: ");
    let delete = chars_of("*** Delete File: ");
    let update = chars_of("*** Update File: ");
    let mv = chars_of("*** Move to: ");
    let plus: Vec<char> = vec!['+'];
    assert(plus@ =~= seq!['+']);
    let mut index: usize = 1;
    let mut entries: Vec<PatchEntry> = Vec::new();
    assert(entries_view(entries@) =~= Seq::<EntryView>::empty());
    assert(Seq::<EntryView>::empty() + Seq::<EntryView>::empty() =~= Seq::<EntryView>::empty());
    while index < end
        invariant
            lines_view(lines@) == ls,
            ls.len() == end + 1,
            end < usize::MAX,
            1 <= index <= end + 1,
            add@ == add_marker(),
            delete@ == delete_marker(),
            update@ == update_marker(),
            mv@ == move_marker(),
            plus@ == seq!['+'],
            spec_parse_envelope(input@) == combine(
                entries_view(entries@),
                parse_sections(ls, index as int, end as int),
            ),
        decreases end - index,
    {
        assert(lines@[index as int]@ == ls[index as int]);
        if is_blank_exec(lines[index].as_slice()) {
            index = index + 1;
            continue;
        }
        let header = trim_vec(lines[index].as_slice());
        match strip_prefix_exec(header.as_slice(), add.as_slice()) {
            Some(path) => {
                let mut j = index + 1;
                let mut content: Vec<char> = Vec::new();
                proof {
                    lemma_plus_run_end(ls, index + 1, end as int);
                }
                while j < end && starts_with_exec(lines[j].as_slice(), plus.as_slice())
                    invariant
                        lines_view(lines@) == ls,
                        ls.len() == end + 1,
                        index + 1 <= j <= end,
                        plus@ == seq!['+'],
                        plus_run_end(ls, index + 1, end as int) == plus_run_end(
                            ls,
                            j as int,
                            end as int,
                        ),
                        content@ == add_content(ls, index + 1, j as int),
                    decreases end - j,
                {
                    assert(lines@[j as int]@ == ls[j as int]);
                    let l = &lines[j];
                    append_chars(&mut content, &l.as_slice()[1..l.len()]);
                    content.push('\n');
                    proof {
                        assert(lines@[j as int]@.subrange(1, lines@[j as int]@.len() as int)
                            =~= ls[j as int].drop_first());
                        assert(content@ =~= add_content(ls, index + 1, j as int) + ls[j as int].drop_first() + seq!['\n']);
                    }
                    j = j + 1;
                }
                let ghost e = EntryView {
                    path: path@,
                    op: FileOp::Add,
                    rename: None,
                    body: Some(content@),
                };
                let ghost ev = entries_view(entries@);
                proof {
                    lemma_combine_prepend(ev, e, parse_sections(ls, j as int, end as int));
                }
                entries.push(
                    PatchEntry {
                        path: string_of(path.as_slice()),
                        op: FileOp::Add,
                        rename: None,
                        body: Some(string_of(content.as_slice())),
                    },
                );
                assert(entries_view(entries@) =~= ev.push(e));
                index = j;
                continue;
            },
            None => {},
        }
        match strip_prefix_exec(header.as_slice(), delete.as_slice()) {
            Some(path) => {
                let ghost e = EntryView { path: path@, op: FileOp::Delete, rename: None, body: None };
                let ghost ev = entries_view(entries@);
                proof {
                    lemma_combine_prepend(ev, e, parse_sections(ls, index + 1, end as int));
                }
                entries.push(
                    PatchEntry {
                        path: string_of(path.as_slice()),
                        op: FileOp::Delete,
                        rename: None,
                        body: None,
                    },
                );
                assert(entries_view(entries@) =~= ev.push(e));
                index = index + 1;
                continue;
            },
            None => {},
        }
        match strip_prefix_exec(header.as_slice(), update.as_slice()) {
            Some(path) => {
                let mut k = index + 1;
                let mut rename: Option<String> = None;
                let ghost mut rename_v: Option<Seq<char>> = None;
                if k < end {
                    assert(lines@[k as int]@ == ls[k as int]);
                    match strip_prefix_exec(lines[k].as_slice(), mv.as_slice()) {
                        Some(destination) => {
                            rename = Some(string_of(destination.as_slice()));
                            proof {
                                rename_v = Some(destination@);
                            }
                            k = k + 1;
                        },
                        None => {},
                    }
                }
                let body_start = k;
                assert(rename_v == (if index + 1 < end && starts_with(ls[index + 1], move_marker()) {
                    Some(ls[index + 1].skip(move_marker().len() as int))
                } else {
                    None
                }));
                assert(opt_string_view(rename) == rename_v);
                proof {
                    lemma_body_end(ls, body_start as int, end as int);
                }
                while k < end && !is_file_header_exec(lines[k].as_slice(), &add, &delete, &update)
                    invariant
                        lines_view(lines@) == ls,
                        ls.len() == end + 1,
                        end < usize::MAX,
                        body_start <= k <= end,
                        add@ == add_marker(),
                        delete@ == delete_marker(),
                        update@ == update_marker(),
                        body_end(ls, body_start as int, end as int) == body_end(ls, k as int, end as int),
                    decreases end - k,
                {
                    assert(lines@[k as int]@ == ls[k as int]);
                    k = k + 1;
                }
                if k < end {
                    assert(lines@[k as int]@ == ls[k as int]);
                }
                if body_start == k {
                    let mut m = chars_of("Update file hunk for path '");
                    append_chars(&mut m, path.as_slice());
                    let tail = chars_of("' is empty");
                    append_chars(&mut m, tail.as_slice());
                    return Err(PatchError::at_line(body_start as u128 + 1, m.as_slice()));
                }
                let body_lines = sub_lines(&lines, body_start, k);
                let nl: Vec<char> = vec!['\n'];
                assert(nl@ =~= seq!['\n']);
                let body = join_exec(&body_lines, nl.as_slice());
                let ghost e = EntryView {
                    path: path@,
                    op: FileOp::Update,
                    rename: rename_v,
                    body: Some(body@),
                };
                let ghost ev = entries_view(entries@);
                proof {
                    lemma_combine_prepend(ev, e, parse_sections(ls, k as int, end as int));
                }
                entries.push(
                    PatchEntry {
                        path: string_of(path.as_slice()),
                        op: FileOp::Update,
                        rename,
                        body: Some(string_of(body.as_slice())),
                    },
                );
                assert(entries_view(entries@) =~= ev.push(e));
                index = k;
                continue;
            },
            None => {},
        }
        let mut m: Vec<char> = vec!['\''];
        append_chars(&mut m, header.as_slice());
        let tail = chars_of(
            "' is not a valid hunk header. Valid hunk headers: '*** Add File: {path}', '*** Delete File: {path}', '*** Update File: {path}'",
        );
        append_chars(&mut m, tail.as_slice());
        assert(m@ =~= "'"@ + header@ + invalid_header_tail()) by {
            reveal_strlit("'");
        }
        return Err(PatchError::at_line(index as u128 + 1, m.as_slice()));
    }
    assert(entries_view(entries@) + Seq::<EntryView>::empty() =~= entries_view(entries@));
    Ok(entries)
}

fn is_file_header_exec(l: &[char], add: &Vec<char>, delete: &Vec<char>, update: &Vec<char>) -> (b: bool)
    requires
        add@ == add_marker(),
        delete@ == delete_marker(),
        update@ == update_marker(),
    ensures
        b == is_file_header(l@),
{
    starts_with_exec(l, update.as_slice()) || starts_with_exec(l, add.as_slice())
        || starts_with_exec(l, delete.as_slice())
}

// ---------------------------------------------------------------------------
// The success summary
// ---------------------------------------------------------------------------

/// One summary line: the operation's mark and the path.
pub open spec fn summary_line(op: FileOp, path: Seq<char>) -> Seq<char> {
    seq![label(op)] + " "@ + path
}

/// Where an operation's lines stand in the summary: additions, then
/// updates, then deletions.
pub open spec fn op_rank(op: FileOp) -> int {
    match op {
        FileOp::Add => 0,
        FileOp::Update => 1,
        FileOp::Delete => 2,
    }
}

/// The summary lines of the operations of one rank, in input order.
pub open spec fn lines_of_rank(ops: Seq<(FileOp, Seq<char>)>, r: int) -> Seq<Seq<char>>
    decreases ops.len(),
{
    if ops.len() == 0 {
        Seq::empty()
    } else {
        let t = lines_of_rank(ops.drop_last(), r);
        if op_rank(ops.last().0) == r {
            t.push(summary_line(ops.last().0, ops.last().1))
        } else {
            t
        }
    }
}

/// The head line, then one line per operation (additions, then updates,
/// then deletions, each kind in input order), joined by `\n`.
pub open spec fn spec_format_summary(ops: Seq<(FileOp, Seq<char>)>) -> Seq<char> {
    join(
        seq!["Successfully applied "@ + dec(ops.len()) + " file operation(s)."@] + lines_of_rank(ops, 0)
            + lines_of_rank(ops, 1) + lines_of_rank(ops, 2),
        seq!['\n'],
    )
}

pub open spec fn ops_view(ops: Seq<(FileOp, &str)>) -> Seq<(FileOp, Seq<char>)> {
    Seq::new(ops.len(), |i: int| (ops[i].0, ops[i].1@))
}

fn rank_exec(op: FileOp) -> (r: u8)
    ensures
        r as int == op_rank(op),
{
    match op {
        FileOp::Add => 0,
        FileOp::Update => 1,
        FileOp::Delete => 2,
    }
}

/// Appends the summary lines of the operations of rank `r`, in order.
fn push_rank_lines(operations: &[(FileOp, &str)], r: u8, lines: &mut Vec<Vec<char>>)
    ensures
        lines_view(final(lines)@) == lines_view(old(lines)@) + lines_of_rank(ops_view(operations@), r as int),
{
    let ghost ov = ops_view(operations@);
    let ghost start = lines_view(lines@);
    let n = operations.len();
    let mut i: usize = 0;
    assert(ov.take(0) =~= Seq::<(FileOp, Seq<char>)>::empty());
    assert(start + Seq::<Seq<char>>::empty() =~= start);
    while i < n
        invariant
            n == operations@.len(),
            i <= n,
            ov == ops_view(operations@),
            lines_view(lines@) == start + lines_of_rank(ov.take(i as int), r as int),
        decreases n - i,
    {
        let (op, path) = operations[i];
        assert(ov.take(i + 1).drop_last() =~= ov.take(i as int));
        assert(ov.take(i + 1).last() == ov[i as int]);
        assert(op == ov[i as int].0 && path@ == ov[i as int].1);
        if rank_exec(op) == r {
            let mut line: Vec<char> = Vec::new();
            line.push(op.summary_label());
            line.push(' ');
            let pc = chars_of(path);
            append_chars(&mut line, pc.as_slice());
            proof {
                reveal_strlit(" ");
            }
            assert(line@ =~= summary_line(ov[i as int].0, ov[i as int].1));
            let ghost before = lines_view(lines@);
            let ghost lv = line@;
            lines.push(line);
            assert(lines_view(lines@) =~= before.push(lv));
        }
        i = i + 1;
    }
    assert(ov.take(i as int) =~= ov);
}

/// The summary shown after the operations were applied, as
/// [`spec_format_summary`] says.
pub fn format_summary(operations: &[(FileOp, &str)]) -> (s: String)
    ensures
        s@ == spec_format_summary(ops_view(operations@)),
{
    let ghost ov = ops_view(operations@);
    let mut head = chars_of("Successfully applied ");
    let n = operations.len();
    let d = decimal(n as u128);
    append_chars(&mut head, d.as_slice());
    let tail = chars_of(" file operation(s).");
    append_chars(&mut head, tail.as_slice());
    let mut lines: Vec<Vec<char>> = Vec::new();
    lines.push(head);
    assert(lines_view(lines@) =~= seq!["Successfully applied "@ + dec(ov.len()) + " file operation(s)."@]);
    push_rank_lines(operations, 0, &mut lines);
    push_rank_lines(operations, 1, &mut lines);
    push_rank_lines(operations, 2, &mut lines);
    let sep = ['\n'];
    let joined = join_exec(&lines, &sep);
    assert(sep@ =~= seq!['\n']);
    string_of(joined.as_slice())
}

// ---------------------------------------------------------------------------
// Line endings
// ---------------------------------------------------------------------------

/// A text with each `\n` written `\r\n`.
pub open spec fn crlf(s: Seq<char>) -> Seq<char>
    decreases s.len(),
{
    if s.len() == 0 {
        s
    } else if s[0] == '\n' {
        seq!['\r', '\n'] + crlf(s.drop_first())
    } else {
        seq![s[0]] + crlf(s.drop_first())
    }
}

pub open spec fn no_char(s: Seq<char>, c: char) -> bool {
    forall|i: int| 0 <= i < s.len() ==> s[i] != c
}

proof fn lemma_crlf_concat(a: Seq<char>, b: Seq<char>)
    ensures
        crlf(a + b) == crlf(a) + crlf(b),
    decreases a.len(),
{
    if a.len() == 0 {
        assert(a + b =~= b);
        assert(crlf(a) + crlf(b) =~= crlf(b));
    } else {
        lemma_crlf_concat(a.drop_first(), b);
        assert((a + b).drop_first() =~= a.drop_first() + b);
        assert((a + b)[0] == a[0]);
        if a[0] == '\n' {
            assert(crlf(a + b) =~= seq!['\r', '\n'] + crlf(a.drop_first() + b));
            assert(crlf(a) + crlf(b) =~= seq!['\r', '\n'] + (crlf(a.drop_first()) + crlf(b)));
        } else {
            assert(crlf(a + b) =~= seq![a[0]] + crlf(a.drop_first() + b));
            assert(crlf(a) + crlf(b) =~= seq![a[0]] + (crlf(a.drop_first()) + crlf(b)));
        }
    }
}

proof fn lemma_crlf_plain(a: Seq<char>)
    requires
        no_char(a, '\n'),
    ensures
        crlf(a) == a,
    decreases a.len(),
{
    if a.len() > 0 {
        lemma_crlf_plain(a.drop_first());
        assert(a =~= seq![a[0]] + a.drop_first());
    }
}

proof fn lemma_find_char_first(s: Seq<char>, c: char, from: int, k: int)
    requires
        0 <= from <= k < s.len(),
        s[k] == c,
        forall|j: int| from <= j < k ==> s[j] != c,
    ensures
        find_char(s, c, from) == Some(k),
    decreases k - from,
{
    if from < k {
        lemma_find_char_first(s, c, from + 1, k);
    }
}

proof fn lemma_find_char_none(s: Seq<char>, c: char, from: int)
    requires
        0 <= from,
        find_char(s, c, from) is None,
    ensures
        forall|j: int| from <= j < s.len() ==> s[j] != c,
    decreases s.len() - from,
{
    if from < s.len() {
        lemma_find_char_none(s, c, from + 1);
    }
}

proof fn lemma_find_char_some(s: Seq<char>, c: char, from: int)
    requires
        0 <= from,
    ensures
        find_char(s, c, from) matches Some(k) ==> from <= k < s.len() && s[k] == c && forall|j: int|
            from <= j < k ==> s[j] != c,
    decreases s.len() - from,
{
    if from < s.len() && s[from] != c {
        lemma_find_char_some(s, c, from + 1);
    }
}

proof fn lemma_strip_cr_plain(l: Seq<char>)
    requires
        no_char(l, '\r'),
    ensures
        strip_cr(l) == l,
{
    if l.len() > 0 {
        assert(l.skip(l.len() - 1)[0] == l.last());
        assert(l.skip(l.len() - 1) != seq!['\r']);
    }
}

proof fn lemma_split_crlf(t: Seq<char>)
    requires
        no_char(t, '\r'),
    ensures
        split_on(crlf(t), '\n').map_values(|l: Seq<char>| strip_cr(l)) == split_on(t, '\n').map_values(
            |l: Seq<char>| strip_cr(l),
        ),
    decreases t.len(),
{
    lemma_find_char_some(t, '\n', 0);
    match find_char(t, '\n', 0) {
        None => {
            lemma_find_char_none(t, '\n', 0);
            lemma_crlf_plain(t);
        },
        Some(i) => {
            let p = t.take(i);
            let rest = t.skip(i + 1);
            assert(t =~= p + seq!['\n'] + rest);
            assert(no_char(p, '\n'));
            lemma_crlf_plain(p);
            lemma_crlf_concat(p + seq!['\n'], rest);
            lemma_crlf_concat(p, seq!['\n']);
            lemma_crlf_single('\n');
            let x = crlf(t);
            let pc = p.push('\r');
            assert(x =~= pc + seq!['\n'] + crlf(rest));
            lemma_find_char_first(x, '\n', 0, i + 1);
            assert(x.take(i + 1) =~= pc);
            assert(x.skip(i + 2) =~= crlf(rest));
            assert(no_char(rest, '\r'));
            lemma_split_crlf(rest);
            assert(strip_cr(pc) == p) by {
                assert(pc.skip(pc.len() - 1) =~= seq!['\r']);
                assert(pc.take(pc.len() - 1) =~= p);
            }
            assert(no_char(p, '\r'));
            lemma_strip_cr_plain(p);
            let f = |l: Seq<char>| strip_cr(l);
            assert(split_on(x, '\n') == seq![pc] + split_on(crlf(rest), '\n'));
            assert(split_on(t, '\n') == seq![p] + split_on(rest, '\n'));
            assert(split_on(x, '\n').map_values(f) =~= seq![p] + split_on(crlf(rest), '\n').map_values(f));
            assert(split_on(t, '\n').map_values(f) =~= seq![p] + split_on(rest, '\n').map_values(f));
        },
    }
}

proof fn lemma_trim_start_crlf(s: Seq<char>)
    requires
        no_char(s, '\r'),
    ensures
        trim_start(crlf(s)) == crlf(trim_start(s)),
        no_char(trim_start(s), '\r'),
    decreases s.len(),
{
    if s.len() > 0 {
        let r = s.drop_first();
        lemma_trim_start_crlf(r);
        if s[0] == '\n' {
            let x = seq!['\r', '\n'] + crlf(r);
            assert(x[0] == '\r' && x.drop_first()[0] == '\n');
            assert(x.drop_first().drop_first() =~= crlf(r));
            assert(trim_start(x) == trim_start(x.drop_first()));
            assert(trim_start(x.drop_first()) == trim_start(crlf(r)));
        } else {
            let x = seq![s[0]] + crlf(r);
            assert(x[0] == s[0]);
            assert(x.drop_first() =~= crlf(r));
            if !crate::text::is_ws(s[0]) {
                assert(trim_start(s) == s);
            }
        }
    }
}

proof fn lemma_crlf_single(c: char)
    ensures
        crlf(seq![c]) == (if c == '\n' {
            seq!['\r', '\n']
        } else {
            seq![c]
        }),
{
    let one = seq![c];
    let e = Seq::<char>::empty();
    assert(one.drop_first() =~= e);
    assert(crlf(e) == e);
    assert(one[0] == c);
    if c == '\n' {
        assert(crlf(one) == seq!['\r', '\n'] + crlf(e));
        assert(seq!['\r', '\n'] + e =~= seq!['\r', '\n']);
    } else {
        assert(crlf(one) == seq![c] + crlf(e));
        assert(seq![c] + e =~= seq![c]);
    }
}

proof fn lemma_crlf_last(a: Seq<char>)
    requires
        a.len() > 0,
    ensures
        crlf(a) == crlf(a.drop_last()) + (if a.last() == '\n' {
            seq!['\r', '\n']
        } else {
            seq![a.last()]
        }),
{
    assert(a =~= a.drop_last() + seq![a.last()]);
    lemma_crlf_concat(a.drop_last(), seq![a.last()]);
    lemma_crlf_single(a.last());
}

proof fn lemma_trim_end_crlf(s: Seq<char>)
    ensures
        trim_end(crlf(s)) == crlf(trim_end(s)),
    decreases s.len(),
{
    if s.len() > 0 {
        let d = s.drop_last();
        lemma_trim_end_crlf(d);
        lemma_crlf_last(s);
        let x = crlf(s);
        if s.last() == '\n' {
            assert(x.last() == '\n');
            assert(x.drop_last().last() == '\r');
            assert(x.drop_last().drop_last() =~= crlf(d));
            assert(trim_end(x) == trim_end(x.drop_last()));
            assert(trim_end(x.drop_last()) == trim_end(crlf(d)));
        } else {
            assert(x.last() == s.last());
            assert(x.drop_last() =~= crlf(d));
            if !crate::text::is_ws(s.last()) {
                assert(trim_end(s) == s);
            }
        }
    }
}

proof fn lemma_trim_end_no_char(s: Seq<char>, c: char)
    requires
        no_char(s, c),
    ensures
        no_char(trim_end(s), c),
    decreases s.len(),
{
    if s.len() > 0 && crate::text::is_ws(s.last()) {
        lemma_trim_end_no_char(s.drop_last(), c);
    }
}

/// A patch written with `\r\n` line endings reads as the same patch written
/// with `\n`: the same sections, or the same error.
pub proof fn lemma_crlf_envelope(s: Seq<char>)
    requires
        no_char(s, '\r'),
    ensures
        spec_parse_envelope(crlf(s)) == spec_parse_envelope(s),
{
    lemma_trim_start_crlf(s);
    lemma_trim_end_crlf(trim_start(s));
    let t = trim(s);
    assert(trim(crlf(s)) == crlf(t));
    lemma_trim_end_no_char(trim_start(s), '\r');
    lemma_split_crlf(t);
    assert(envelope_lines(crlf(s)) == envelope_lines(s));
}

} // verus!
