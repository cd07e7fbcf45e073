//! What the `find`, `ls` and `shell` tools answer around their raw output:
//! a failed `fd` run, an empty result, the notices of a limit reached, and
//! the range that a cut command output shows.
//!
//! The output itself is cut to the byte and line limits by the tools' head
//! and tail truncation; whether it was cut, and how, comes in as a value.
use vstd::prelude::*;

use crate::text::{append_chars, chars_of, dec, decimal, join, join_exec, lines_view, string_of, trim, trim_vec};
use crate::tui::strings_view;
use crate::turn::ToolOutput;

verus! {

/// What a listing counts when its limit is reached.
#[derive(Debug, Clone, Copy, PartialEq, Eq)]
pub enum ListingKind {
    /// `find`'s matching paths.
    Results,
    /// `ls`'s directory entries.
    Entries,
}

/// The notice of a listing that reached its limit: the limit, and the limit
/// to ask for next (twice as many).
pub open spec fn limit_notice(kind: ListingKind, limit: nat) -> Seq<char> {
    match kind {
        ListingKind::Results => dec(limit) + " results limit reached. Use limit="@ + dec(limit * 2)
            + " for more, or refine pattern"@,
        ListingKind::Entries => dec(limit) + " entries limit reached. Use limit="@ + dec(limit * 2) + " for more"@,
    }
}

/// The notices of a listing: its limit, then the byte limit where the output
/// was cut.
pub open spec fn listing_notices(kind: ListingKind, limit: nat, limit_reached: bool, cut: bool, size: Seq<char>) -> Seq<
    Seq<char>,
> {
    let a: Seq<Seq<char>> = if limit_reached {
        seq![limit_notice(kind, limit)]
    } else {
        Seq::empty()
    };
    if cut {
        a.push(size + " limit reached"@)
    } else {
        a
    }
}

/// A listing's output with its notices, where there are any, after a blank
/// line in brackets, joined by `. `.
pub open spec fn spec_listing_output(
    kept: Seq<char>,
    kind: ListingKind,
    limit: nat,
    limit_reached: bool,
    cut: bool,
    size: Seq<char>,
) -> Seq<char> {
    let n = listing_notices(kind, limit, limit_reached, cut, size);
    if n.len() == 0 {
        kept
    } else {
        kept + "\n\n["@ + join(n, ". "@) + "]"@
    }
}

/// A listing's output with its notices, as [`spec_listing_output`] says.
/// `kept` is the joined listing as the byte limit left it, `cut` whether it
/// cut anything, `size` the byte limit as the size format writes it.
pub fn listing_output(kept: String, kind: ListingKind, limit: usize, limit_reached: bool, cut: bool, size: &str) -> (r:
    String)
    ensures
        r@ == spec_listing_output(kept@, kind, limit as nat, limit_reached, cut, size@),
{
    let mut notices: Vec<Vec<char>> = Vec::new();
    if limit_reached {
        let mut m = decimal(limit as u128);
        match kind {
            ListingKind::Results => append_chars(&mut m, chars_of(" results limit reached. Use limit=").as_slice()),
            ListingKind::Entries => append_chars(&mut m, chars_of(" entries limit reached. Use limit=").as_slice()),
        }
        append_chars(&mut m, decimal(limit as u128 * 2).as_slice());
        match kind {
            ListingKind::Results => append_chars(&mut m, chars_of(" for more, or refine pattern").as_slice()),
            ListingKind::Entries => append_chars(&mut m, chars_of(" for more").as_slice()),
        }
        notices.push(m);
    }
    let ghost a = lines_view(notices@);
    if cut {
        let mut m = chars_of(size);
        append_chars(&mut m, chars_of(" limit reached").as_slice());
        notices.push(m);
        assert(lines_view(notices@) =~= a.push(size@ + " limit reached"@));
    }
    assert(lines_view(notices@) =~= listing_notices(kind, limit as nat, limit_reached, cut, size@));
    if notices.len() == 0 {
        return kept;
    }
    let mut out = chars_of(kept.as_str());
    append_chars(&mut out, chars_of("\n\n[").as_slice());
    let joined = join_exec(&notices, chars_of(". ").as_slice());
    append_chars(&mut out, joined.as_slice());
    append_chars(&mut out, chars_of("]").as_slice());
    string_of(out.as_slice())
}

/// The listing reaches its limit when it holds at least that many.
pub fn limit_reached(count: usize, limit: usize) -> (b: bool)
    ensures
        b == (count >= limit),
{
    count >= limit
}

// ---------------------------------------------------------------------------
// find
// ---------------------------------------------------------------------------

/// How `fd` ended: an exit code, or none where it was killed.
pub open spec fn fd_failure_text(code: Option<i32>, stderr: Seq<char>) -> Seq<char> {
    if trim(stderr).len() > 0 {
        trim(stderr)
    } else {
        "fd exited with code "@ + match code {
            Some(c) => crate::grep::idec(c as int),
            None => "unknown"@,
        }
    }
}

/// What `find` answers before its listing: a failed `fd` run that found
/// nothing is an error (its trimmed stderr, else its exit code); an empty
/// result says so; otherwise the listing follows.
pub open spec fn spec_find_outcome(found: nat, code: Option<i32>, stderr: Seq<char>) -> Option<(bool, Seq<char>)> {
    if code != Some(0i32) && found == 0 {
        Some((true, fd_failure_text(code, stderr)))
    } else if found == 0 {
        Some((false, "No files found matching pattern"@))
    } else {
        None
    }
}

/// What `find` answers before its listing, as [`spec_find_outcome`] says
/// (an error where the first field is true).
pub fn find_outcome(found: usize, code: Option<i32>, stderr: &str) -> (r: Option<ToolOutput>)
    ensures
        match r {
            Some(o) => spec_find_outcome(found as nat, code, stderr@) == Some((o.is_error, o.output@)) && o.images@.len()
                == 0,
            None => spec_find_outcome(found as nat, code, stderr@) is None,
        },
{
    let failed = match code {
        Some(c) => c != 0,
        None => true,
    };
    if failed && found == 0 {
        let t = trim_vec(chars_of(stderr).as_slice());
        let message = if t.len() > 0 {
            string_of(t.as_slice())
        } else {
            let mut m = chars_of("fd exited with code ");
            match code {
                Some(c) => {
                    let d = crate::grep::idec_exec(c);
                    append_chars(&mut m, d.as_slice());
                },
                None => append_chars(&mut m, chars_of("unknown").as_slice()),
            }
            string_of(m.as_slice())
        };
        return Some(ToolOutput::error(message));
    }
    if found == 0 {
        return Some(ToolOutput::success("No files found matching pattern".to_owned()));
    }
    None
}

// ---------------------------------------------------------------------------
// ls
// ---------------------------------------------------------------------------

/// An entry as `ls` lists it: directories end in `/`; an entry whose type
/// could not be read is left out.
pub open spec fn entry_text(name: Seq<char>, is_dir: bool) -> Seq<char> {
    if is_dir {
        name + "/"@
    } else {
        name
    }
}

/// The entries `ls` lists from the sorted names, each with its type where it
/// could be read: entries in order until `limit` are listed; the limit is
/// reached when a name is left after that.
pub open spec fn ls_take(names: Seq<(Seq<char>, Option<bool>)>, limit: nat) -> (Seq<Seq<char>>, bool)
    decreases names.len(),
{
    if names.len() == 0 {
        (Seq::empty(), false)
    } else if limit == 0 {
        (Seq::empty(), true)
    } else {
        match names[0].1 {
            None => ls_take(names.drop_first(), limit),
            Some(d) => {
                let (rest, reached) = ls_take(names.drop_first(), (limit - 1) as nat);
                (seq![entry_text(names[0].0, d)] + rest, reached)
            },
        }
    }
}

/// The entries `ls` lists, and whether the limit was reached, as
/// [`ls_take`] says.
pub fn ls_entries(names: &Vec<(String, Option<bool>)>, limit: usize) -> (r: (Vec<String>, bool))
    ensures
        (strings_view(r.0@), r.1) == ls_take(
            Seq::new(names@.len(), |i: int| (names@[i].0@, names@[i].1)),
            limit as nat,
        ),
{
    let ghost all = Seq::new(names@.len(), |i: int| (names@[i].0@, names@[i].1));
    let mut out: Vec<String> = Vec::new();
    let mut reached = false;
    let mut i: usize = 0;
    assert(all.skip(0) =~= all);
    assert(strings_view(out@) + ls_take(all, limit as nat).0 =~= ls_take(all, limit as nat).0);
    while i < names.len() && !reached
        invariant
            i <= names@.len(),
            all == Seq::new(names@.len(), |j: int| (names@[j].0@, names@[j].1)),
            out@.len() <= limit,
            reached ==> ls_take(all.skip(i as int), (limit - out@.len()) as nat) == (Seq::<Seq<char>>::empty(), true),
            ({
                let (rest, rr) = ls_take(all.skip(i as int), (limit - out@.len()) as nat);
                ls_take(all, limit as nat) == (strings_view(out@) + rest, rr)
            }),
        decreases names@.len() - i, if reached { 0int } else { 1int },
    {
        let ghost s = all.skip(i as int);
        assert(s.drop_first() =~= all.skip(i + 1));
        assert(s[0] == (names@[i as int].0@, names@[i as int].1));
        if out.len() >= limit {
            reached = true;
        } else {
            match &names[i].1 {
                None => {},
                Some(d) => {
                    let name = &names[i].0;
                    let text = if *d {
                        let mut m = chars_of(name.as_str());
                        append_chars(&mut m, chars_of("/").as_slice());
                        string_of(m.as_slice())
                    } else {
                        name.clone()
                    };
                    let ghost before = strings_view(out@);
                    out.push(text);
                    assert(strings_view(out@) =~= before.push(entry_text(names@[i as int].0@, *d)));
                    proof {
                        let (rest, rr) = ls_take(all.skip(i + 1), (limit - out@.len()) as nat);
                        assert(before + (seq![entry_text(names@[i as int].0@, *d)] + rest) =~= strings_view(out@) + rest);
                    }
                },
            }
            i = i + 1;
        }
    }
    proof {
        if !reached {
            assert(all.skip(i as int) =~= Seq::<(Seq<char>, Option<bool>)>::empty());
            assert(strings_view(out@) + Seq::<Seq<char>>::empty() =~= strings_view(out@));
        } else {
            assert(strings_view(out@) + Seq::<Seq<char>>::empty() =~= strings_view(out@));
        }
    }
    (out, reached)
}


/// What `str::to_lowercase` gives for a text.
pub uninterp spec fn lowercase(s: Seq<char>) -> Seq<char>;

/// `str::to_lowercase`. The result is named by [`lowercase`]: it depends on
/// the text alone; the Unicode case mappings are not spelled out.
#[verifier::external_body]
fn to_lowercase(s: &str) -> (r: String)
    ensures
        r@ == lowercase(s@),
{
    s.to_lowercase()
}

/// `a < b` in the order of strings: character by character by code point
/// (the order of their UTF-8 bytes), a proper prefix first.
pub open spec fn chars_lt(a: Seq<char>, b: Seq<char>) -> bool
    decreases a.len(),
{
    if a.len() == 0 {
        b.len() > 0
    } else if b.len() == 0 {
        false
    } else if a[0] != b[0] {
        (a[0] as u32) < (b[0] as u32)
    } else {
        chars_lt(a.drop_first(), b.drop_first())
    }
}

fn chars_lt_exec(a: &[char], b: &[char]) -> (r: bool)
    ensures
        r == chars_lt(a@, b@),
{
    let mut i: usize = 0;
    assert(a@.skip(0) =~= a@);
    assert(b@.skip(0) =~= b@);
    while i < a.len() && i < b.len() && a[i] == b[i]
        invariant
            i <= a@.len(),
            i <= b@.len(),
            chars_lt(a@, b@) == chars_lt(a@.skip(i as int), b@.skip(i as int)),
        decreases a@.len() - i,
    {
        proof {
            let sa = a@.skip(i as int);
            let sb = b@.skip(i as int);
            assert(sa.drop_first() =~= a@.skip(i + 1));
            assert(sb.drop_first() =~= b@.skip(i + 1));
        }
        i = i + 1;
    }
    proof {
        let sa = a@.skip(i as int);
        let sb = b@.skip(i as int);
        if i < a.len() {
            assert(sa[0] == a@[i as int]);
        }
        if i < b.len() {
            assert(sb[0] == b@[i as int]);
        }
    }
    if i == a.len() {
        i < b.len()
    } else if i == b.len() {
        false
    } else {
        (a[i] as u32) < (b[i] as u32)
    }
}

/// Each name with its sort key.
pub open spec fn keyed(names: Seq<Seq<char>>) -> Seq<(Seq<char>, Seq<char>)> {
    Seq::new(names.len(), |i: int| (names[i], lowercase(names[i])))
}

/// Where an entry goes among sorted ones: before the first whose key is
/// greater.
pub open spec fn key_position(s: Seq<(Seq<char>, Seq<char>)>, r: (Seq<char>, Seq<char>), k: int) -> int
    decreases s.len() - k,
{
    if k < 0 || k >= s.len() {
        s.len() as int
    } else if chars_lt(r.1, s[k].1) {
        k
    } else {
        key_position(s, r, k + 1)
    }
}

/// Stable sort by key (`sort_by_key`), as insertion sort.
pub open spec fn sort_keyed(s: Seq<(Seq<char>, Seq<char>)>) -> Seq<(Seq<char>, Seq<char>)>
    decreases s.len(),
{
    if s.len() == 0 {
        s
    } else {
        let t = sort_keyed(s.drop_last());
        let k = key_position(t, s.last(), 0);
        t.take(k).push(s.last()) + t.skip(k)
    }
}

/// The names in `ls` order: by their lowercase form, names with the same
/// form in the order they came.
pub open spec fn ls_order(names: Seq<Seq<char>>) -> Seq<Seq<char>> {
    sort_keyed(keyed(names)).map_values(|p: (Seq<char>, Seq<char>)| p.0)
}

proof fn lemma_key_position(s: Seq<(Seq<char>, Seq<char>)>, r: (Seq<char>, Seq<char>), k: int, pos: int)
    requires
        0 <= k <= pos <= s.len(),
        forall|j: int| k <= j < pos ==> !chars_lt(r.1, #[trigger] s[j].1),
        pos < s.len() ==> chars_lt(r.1, s[pos].1),
    ensures
        key_position(s, r, k) == pos,
    decreases pos - k,
{
    if k < pos {
        lemma_key_position(s, r, k + 1, pos);
    }
}

spec fn pairs_view(v: Seq<(String, Vec<char>)>) -> Seq<(Seq<char>, Seq<char>)> {
    Seq::new(v.len(), |i: int| (v[i].0@, v[i].1@))
}

/// The names in `ls` order, as [`ls_order`] says.
pub fn sort_names(names: Vec<String>) -> (r: Vec<String>)
    ensures
        strings_view(r@) == ls_order(strings_view(names@)),
{
    let ghost all = keyed(strings_view(names@));
    let mut out: Vec<(String, Vec<char>)> = Vec::new();
    let mut i: usize = 0;
    assert(all.take(0) =~= Seq::<(Seq<char>, Seq<char>)>::empty());
    assert(pairs_view(out@) =~= Seq::<(Seq<char>, Seq<char>)>::empty());
    while i < names.len()
        invariant
            i <= names@.len(),
            all == keyed(strings_view(names@)),
            pairs_view(out@) == sort_keyed(all.take(i as int)),
            out@.len() == i,
        decreases names@.len() - i,
    {
        let name = names[i].clone();
        let key = chars_of(to_lowercase(name.as_str()).as_str());
        let ghost r = (name@, key@);
        assert(r == all[i as int]);
        let ghost t = pairs_view(out@);
        let mut pos: usize = 0;
        while pos < out.len() && !chars_lt_exec(key.as_slice(), out[pos].1.as_slice())
            invariant
                pos <= out@.len(),
                t == pairs_view(out@),
                r == (name@, key@),
                forall|j: int| 0 <= j < pos ==> !chars_lt(r.1, #[trigger] t[j].1),
            decreases out@.len() - pos,
        {
            assert(t[pos as int].1 == out@[pos as int].1@);
            pos = pos + 1;
        }
        proof {
            if pos < out@.len() {
                assert(t[pos as int].1 == out@[pos as int].1@);
            }
            lemma_key_position(t, r, 0, pos as int);
            assert(all.take(i + 1).drop_last() =~= all.take(i as int));
            assert(all.take(i + 1).last() == r);
        }
        out.insert(pos, (name, key));
        assert(pairs_view(out@) =~= t.take(pos as int).push(r) + t.skip(pos as int));
        i = i + 1;
    }
    assert(all.take(names@.len() as int) =~= all);
    let mut r: Vec<String> = Vec::new();
    let mut j: usize = 0;
    while j < out.len()
        invariant
            j <= out@.len(),
            strings_view(r@) == pairs_view(out@).take(j as int).map_values(|p: (Seq<char>, Seq<char>)| p.0),
        decreases out@.len() - j,
    {
        let ghost before = strings_view(r@);
        r.push(out[j].0.clone());
        assert(strings_view(r@) =~= before.push(out@[j as int].0@));
        assert(pairs_view(out@).take(j + 1).map_values(|p: (Seq<char>, Seq<char>)| p.0) =~= pairs_view(out@).take(
            j as int,
        ).map_values(|p: (Seq<char>, Seq<char>)| p.0).push(out@[j as int].0@));
        j = j + 1;
    }
    assert(pairs_view(out@).take(out@.len() as int) =~= pairs_view(out@));
    r
}

/// What `ls` answers for an empty listing.
pub fn empty_directory() -> (r: ToolOutput)
    ensures
        r.output@ == "(empty directory)"@,
        !r.is_error,
{
    ToolOutput::success("(empty directory)".to_owned())
}

// ---------------------------------------------------------------------------
// shell
// ---------------------------------------------------------------------------

/// Which limit cut an output.
#[derive(Debug, Clone, Copy, PartialEq, Eq)]
pub enum OutputCut {
    Lines,
    Bytes,
}

/// What cutting a command's output to its end gave: the text kept, whether
/// anything was cut and by which limit, the output's lines and those kept,
/// the bytes kept, and whether only the end of its last line was kept.
#[derive(Debug)]
pub struct TailCut {
    pub content: String,
    pub truncated: bool,
    pub truncated_by: Option<OutputCut>,
    pub total_lines: usize,
    pub output_lines: usize,
    pub output_bytes: usize,
    pub last_line_partial: bool,
}

/// What the shell tool shows of a command's output: `(no output)` for none;
/// the output as kept where nothing was cut; else the kept end and which of
/// it is shown: the end of the last line (with the kept size), or the range
/// of lines (naming the byte limit where that cut it).
pub open spec fn spec_command_output(
    combined: Seq<char>,
    cut: TailCut,
    kept_size: Seq<char>,
    limit_size: Seq<char>,
) -> Seq<char> {
    if combined.len() == 0 {
        "(no output)"@
    } else if !cut.truncated {
        cut.content@
    } else {
        let start = cut.total_lines - cut.output_lines + 1;
        let end = cut.total_lines as nat;
        if cut.last_line_partial {
            cut.content@ + "\n\n[Showing last "@ + kept_size + " of line "@ + dec(end) + ".]"@
        } else if cut.truncated_by == Some(OutputCut::Lines) {
            cut.content@ + "\n\n[Showing lines "@ + dec(start as nat) + "-"@ + dec(end) + " of "@ + dec(end) + ".]"@
        } else {
            cut.content@ + "\n\n[Showing lines "@ + dec(start as nat) + "-"@ + dec(end) + " of "@ + dec(end) + " ("@
                + limit_size + " limit).]"@
        }
    }
}

/// What the shell tool shows of a command's output, as
/// [`spec_command_output`] says; `kept_size` is the kept bytes and
/// `limit_size` the byte limit, as the size format writes them.
pub fn command_output(combined: &str, cut: TailCut, kept_size: &str, limit_size: &str) -> (r: String)
    requires
        cut.truncated ==> cut.output_lines <= cut.total_lines && cut.total_lines - cut.output_lines < usize::MAX,
    ensures
        r@ == spec_command_output(combined@, cut, kept_size@, limit_size@),
{
    let c = chars_of(combined);
    if c.len() == 0 {
        return "(no output)".to_owned();
    }
    if !cut.truncated {
        return cut.content;
    }
    let start = cut.total_lines - cut.output_lines + 1;
    let end = cut.total_lines;
    let mut m = chars_of(cut.content.as_str());
    if cut.last_line_partial {
        append_chars(&mut m, chars_of("\n\n[Showing last ").as_slice());
        append_chars(&mut m, chars_of(kept_size).as_slice());
        append_chars(&mut m, chars_of(" of line ").as_slice());
        append_chars(&mut m, decimal(end as u128).as_slice());
        append_chars(&mut m, chars_of(".]").as_slice());
    } else {
        let by_lines = match cut.truncated_by {
            Some(OutputCut::Lines) => true,
            _ => false,
        };
        append_chars(&mut m, chars_of("\n\n[Showing lines ").as_slice());
        append_chars(&mut m, decimal(start as u128).as_slice());
        append_chars(&mut m, chars_of("-").as_slice());
        append_chars(&mut m, decimal(end as u128).as_slice());
        append_chars(&mut m, chars_of(" of ").as_slice());
        append_chars(&mut m, decimal(end as u128).as_slice());
        if by_lines {
            append_chars(&mut m, chars_of(".]").as_slice());
        } else {
            append_chars(&mut m, chars_of(" (").as_slice());
            append_chars(&mut m, chars_of(limit_size).as_slice());
            append_chars(&mut m, chars_of(" limit).]").as_slice());
        }
    }
    string_of(m.as_slice())
}

} // verus!
