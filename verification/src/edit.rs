//! Planning an `edit`: the sections of one file, applied in envelope order to
//! the file's current text, give what is to be written (or deleted, or moved).
//!
//! Reading the file and looking at the disk happen before planning; planning
//! itself only decides, so a failing section leaves nothing half-written.
use vstd::prelude::*;

use crate::apply_patch::{EntryView, FileOp, PatchEntry, PatchError};
use crate::hunks::{parse_hunks, spec_parse_hunks, HunkView};
use crate::patch_apply::{apply_hunks, lemma_parsed_hunks_placeable, spec_apply_hunks};
use crate::text::{append_chars, chars_of, eq_chars, string_of};
use crate::tools::{resolve_patch_path, spec_resolve_patch_path};

verus! {

/// What one file's sections amount to.
#[derive(Debug)]
pub struct PlannedFile {
    /// The path shown in summaries, diffs and errors.
    pub display: String,
    /// The path written or deleted.
    pub absolute: String,
    /// The text before the edit (empty for a file that did not exist).
    pub before: String,
    /// The text after the edit; `None` deletes the file.
    pub after: Option<String>,
    /// The source to remove when the file is moved.
    pub move_from: Option<String>,
    /// The operation shown in the summary.
    pub op: FileOp,
}

/// The mathematical content of a [`PlannedFile`].
pub struct PlanView {
    pub display: Seq<char>,
    pub absolute: Seq<char>,
    pub before: Seq<char>,
    pub after: Option<Seq<char>>,
    pub move_from: Option<Seq<char>>,
    pub op: FileOp,
}

pub open spec fn opt_view(o: Option<String>) -> Option<Seq<char>> {
    match o {
        Some(s) => Some(s@),
        None => None,
    }
}

impl View for PlannedFile {
    type V = PlanView;

    open spec fn view(&self) -> PlanView {
        PlanView {
            display: self.display@,
            absolute: self.absolute@,
            before: self.before@,
            after: opt_view(self.after),
            move_from: opt_view(self.move_from),
            op: self.op,
        }
    }
}

pub open spec fn body_text(e: EntryView) -> Seq<char> {
    match e.body {
        Some(b) => b,
        None => Seq::empty(),
    }
}

pub open spec fn cannot_create(display: Seq<char>) -> Seq<char> {
    "Cannot create "@ + display + ": file already exists. Use *** Update File to modify it in place."@
}

pub open spec fn not_found(display: Seq<char>) -> Seq<char> {
    "File not found: "@ + display
}

pub open spec fn same_rename() -> Seq<char> {
    "rename path is the same as source path"@
}

pub open spec fn rename_taken(display: Seq<char>, dest: Seq<char>) -> Seq<char> {
    "Cannot rename "@ + display + " to "@ + dest + ": destination already exists."@
}

/// One section applied to the file's text (`None`: there is no file), with the
/// rename so far: the next text and rename, or why the section failed.
/// `existing` holds the resolved destinations that already exist on disk.
pub open spec fn plan_one(
    workspace: Seq<char>,
    display: Seq<char>,
    e: EntryView,
    current: Option<Seq<char>>,
    rename: Option<Seq<char>>,
    existing: Seq<Seq<char>>,
) -> Result<(Option<Seq<char>>, Option<Seq<char>>), Seq<char>> {
    match e.op {
        FileOp::Add => if current is Some {
            Err(cannot_create(display))
        } else {
            Ok((Some(body_text(e)), rename))
        },
        FileOp::Delete => if current is None {
            Err(not_found(display))
        } else {
            Ok((None, rename))
        },
        FileOp::Update => match current {
            None => Err(not_found(display)),
            Some(text) => match spec_parse_hunks(body_text(e)) {
                Err(m) => Err(m),
                Ok(hs) => match spec_apply_hunks(text, display, hs) {
                    Err(m) => Err(m),
                    Ok(next) => match e.rename {
                        None => Ok((Some(next), rename)),
                        Some(dest) => if dest == display {
                            Err(same_rename())
                        } else {
                            match spec_resolve_patch_path(workspace, dest) {
                                Err(m) => Err(m),
                                Ok(dp) => if existing.contains(dp) {
                                    Err(rename_taken(display, dest))
                                } else {
                                    Ok((Some(next), Some(dest)))
                                },
                            }
                        },
                    },
                },
            },
        },
    }
}

/// Sections `i..` applied one after another.
pub open spec fn plan_steps(
    workspace: Seq<char>,
    display: Seq<char>,
    es: Seq<EntryView>,
    i: int,
    current: Option<Seq<char>>,
    rename: Option<Seq<char>>,
    existing: Seq<Seq<char>>,
) -> Result<(Option<Seq<char>>, Option<Seq<char>>), Seq<char>>
    decreases es.len() - i,
{
    if i < 0 || i >= es.len() {
        Ok((current, rename))
    } else {
        match plan_one(workspace, display, es[i], current, rename, existing) {
            Err(m) => Err(m),
            Ok((c2, r2)) => plan_steps(workspace, display, es, i + 1, c2, r2, existing),
        }
    }
}

/// An `Update` section is only applied to a text whose length plus one stays
/// below `usize::MAX` (a machine limit).
pub open spec fn step_fits(e: EntryView, current: Option<Seq<char>>) -> bool {
    e.op == FileOp::Update && current is Some ==> current->0.len() + 1 < usize::MAX
}

/// Every text that the sections `i..` apply hunks to fits the machine.
pub open spec fn texts_fit(
    workspace: Seq<char>,
    display: Seq<char>,
    es: Seq<EntryView>,
    i: int,
    current: Option<Seq<char>>,
    rename: Option<Seq<char>>,
    existing: Seq<Seq<char>>,
) -> bool
    decreases es.len() - i,
{
    if i < 0 || i >= es.len() {
        true
    } else {
        step_fits(es[i], current) && match plan_one(workspace, display, es[i], current, rename, existing) {
            Err(_) => true,
            Ok((c2, r2)) => texts_fit(workspace, display, es, i + 1, c2, r2, existing),
        }
    }
}

/// What [`plan_group`] returns for a non-empty group of sections of one path.
pub open spec fn spec_plan_group(
    workspace: Seq<char>,
    es: Seq<EntryView>,
    current: Option<Seq<char>>,
    existing: Seq<Seq<char>>,
) -> Result<PlanView, Seq<char>> {
    let display = es[0].path;
    let before = match current {
        Some(t) => t,
        None => Seq::empty(),
    };
    match spec_resolve_patch_path(workspace, display) {
        Err(m) => Err(m),
        Ok(abs) => match plan_steps(workspace, display, es, 0, current, None, existing) {
            Err(m) => Err(m),
            Ok((after, rename)) => match rename {
                None => Ok(
                    PlanView { display, absolute: abs, before, after, move_from: None, op: es.last().op },
                ),
                Some(dest) => match spec_resolve_patch_path(workspace, dest) {
                    Err(m) => Err(m),
                    Ok(dp) => Ok(
                        PlanView {
                            display: dest,
                            absolute: dp,
                            before,
                            after,
                            move_from: Some(abs),
                            op: es.last().op,
                        },
                    ),
                },
            },
        },
    }
}

pub open spec fn strings_view(v: Seq<String>) -> Seq<Seq<char>> {
    Seq::new(v.len(), |i: int| v[i]@)
}

fn contains_string(v: &[String], s: &[char]) -> (b: bool)
    ensures
        b == strings_view(v@).contains(s@),
{
    let mut i: usize = 0;
    while i < v.len()
        invariant
            i <= v@.len(),
            forall|k: int| 0 <= k < i ==> #[trigger] v@[k]@ != s@,
        decreases v@.len() - i,
    {
        let c = chars_of(v[i].as_str());
        if eq_chars(c.as_slice(), s) {
            assert(strings_view(v@)[i as int] == s@);
            return true;
        }
        i = i + 1;
    }
    assert forall|k: int| 0 <= k < strings_view(v@).len() implies strings_view(v@)[k] != s@ by {
        assert(strings_view(v@)[k] == v@[k]@);
    }
    false
}

/// One section of a file's plan.
fn plan_step(
    workspace: &str,
    display: &String,
    entry: &PatchEntry,
    text: Option<String>,
    rename: Option<String>,
    existing: &[String],
) -> (r: Result<(Option<String>, Option<String>), PatchError>)
    requires
        step_fits(entry@, opt_view(text)),
    ensures
        match r {
            Ok((t, n)) => plan_one(workspace@, display@, entry@, opt_view(text), opt_view(rename), strings_view(existing@))
                == Ok::<(Option<Seq<char>>, Option<Seq<char>>), Seq<char>>((opt_view(t), opt_view(n))),
            Err(e) => plan_one(workspace@, display@, entry@, opt_view(text), opt_view(rename), strings_view(existing@))
                == Err::<(Option<Seq<char>>, Option<Seq<char>>), Seq<char>>(e@),
        },
{
    let dd = chars_of(display.as_str());
    match entry.op {
        FileOp::Add => {
            if text.is_some() {
                let mut m = chars_of("Cannot create ");
                append_chars(&mut m, dd.as_slice());
                let t = chars_of(": file already exists. Use *** Update File to modify it in place.");
                append_chars(&mut m, t.as_slice());
                return Err(PatchError::from_chars(m.as_slice()));
            }
            let body: String = match &entry.body {
                Some(b) => b.clone(),
                None => String::new(),
            };
            Ok((Some(body), rename))
        },
        FileOp::Delete => {
            if text.is_none() {
                let mut m = chars_of("File not found: ");
                append_chars(&mut m, dd.as_slice());
                return Err(PatchError::from_chars(m.as_slice()));
            }
            Ok((None, rename))
        },
        FileOp::Update => {
            let old = match text {
                Some(t) => t,
                None => {
                    let mut m = chars_of("File not found: ");
                    append_chars(&mut m, dd.as_slice());
                    return Err(PatchError::from_chars(m.as_slice()));
                },
            };
            let body: String = match &entry.body {
                Some(b) => b.clone(),
                None => String::new(),
            };
            let hunks = match parse_hunks(body.as_str()) {
                Ok(h) => h,
                Err(e) => {
                    return Err(e);
                },
            };
            proof {
                lemma_parsed_hunks_placeable(body@, old@, display@);
            }
            let next = match apply_hunks(old.as_str(), display.as_str(), &hunks) {
                Ok(n) => n,
                Err(e) => {
                    return Err(e);
                },
            };
            match &entry.rename {
                None => Ok((Some(next), rename)),
                Some(dest) => {
                    let dv2 = chars_of(dest.as_str());
                    if eq_chars(dv2.as_slice(), dd.as_slice()) {
                        return Err(PatchError::new(String::from_str("rename path is the same as source path")));
                    }
                    let dp = match resolve_patch_path(workspace, dest.as_str()) {
                        Ok(p) => p,
                        Err(m) => {
                            return Err(PatchError::new(m));
                        },
                    };
                    let dpv = chars_of(dp.as_str());
                    if contains_string(existing, dpv.as_slice()) {
                        let mut m = chars_of("Cannot rename ");
                        append_chars(&mut m, dd.as_slice());
                        let to = chars_of(" to ");
                        append_chars(&mut m, to.as_slice());
                        append_chars(&mut m, dv2.as_slice());
                        let t = chars_of(": destination already exists.");
                        append_chars(&mut m, t.as_slice());
                        return Err(PatchError::from_chars(m.as_slice()));
                    }
                    Ok((Some(next), Some(dest.clone())))
                },
            }
        },
    }
}

/// Plans the sections of one file: applies them in order to `current` (the
/// file's text, `None` when there is no file), refusing to create an existing
/// file, to delete or update a missing one, and to move onto an existing
/// destination (`existing`: the resolved destinations that exist on disk).
pub fn plan_group(
    workspace: &str,
    group: &[PatchEntry],
    current: Option<String>,
    existing: &[String],
) -> (r: Result<PlannedFile, PatchError>)
    requires
        group@.len() > 0,
        texts_fit(
            workspace@,
            group@[0]@.path,
            crate::apply_patch::entries_view(group@),
            0,
            opt_view(current),
            None,
            strings_view(existing@),
        ),
    ensures
        match r {
            Ok(p) => spec_plan_group(
                workspace@,
                crate::apply_patch::entries_view(group@),
                opt_view(current),
                strings_view(existing@),
            ) == Ok::<PlanView, Seq<char>>(p@),
            Err(e) => spec_plan_group(
                workspace@,
                crate::apply_patch::entries_view(group@),
                opt_view(current),
                strings_view(existing@),
            ) == Err::<PlanView, Seq<char>>(e@),
        },
{
    let ghost es = crate::apply_patch::entries_view(group@);
    let ghost ex = strings_view(existing@);
    let ghost ws = workspace@;
    assert(es[0] == group@[0]@);
    let display = group[0].path.clone();
    assert(display@ == es[0].path);
    let ghost dv = display@;
    let absolute = match resolve_patch_path(workspace, display.as_str()) {
        Ok(p) => p,
        Err(m) => {
            return Err(PatchError::new(m));
        },
    };
    let before: String = match &current {
        Some(t) => t.clone(),
        None => String::new(),
    };
    let ghost c0 = opt_view(current);
    let ghost goal = plan_steps(ws, dv, es, 0, c0, None, ex);
    let mut text: Option<String> = current;
    let mut rename: Option<String> = None;
    let mut i: usize = 0;
    while i < group.len()
        invariant
            i <= group@.len(),
            es == crate::apply_patch::entries_view(group@),
            ex == strings_view(existing@),
            ws == workspace@,
            dv == display@,
            goal == plan_steps(ws, dv, es, i as int, opt_view(text), opt_view(rename), ex),
            goal == plan_steps(ws, dv, es, 0, c0, None, ex),
            c0 == opt_view(current),
            dv == es[0].path,
            group@.len() > 0,
            spec_resolve_patch_path(ws, dv) == Ok::<Seq<char>, Seq<char>>(absolute@),
            before@ == (match c0 {
                Some(t) => t,
                None => Seq::<char>::empty(),
            }),
            texts_fit(ws, dv, es, i as int, opt_view(text), opt_view(rename), ex),
        decreases group@.len() - i,
    {
        let entry = &group[i];
        assert(es[i as int] == entry@);
        let (t2, r2) = match plan_step(workspace, &display, entry, text, rename, existing) {
            Ok(step) => step,
            Err(e) => {
                return Err(e);
            },
        };
        text = t2;
        rename = r2;
        i = i + 1;
    }
    let op = group[group.len() - 1].op;
    assert(es.last() == group@[group@.len() - 1]@);
    match rename {
        None => Ok(PlannedFile { display, absolute, before, after: text, move_from: None, op }),
        Some(dest) => {
            let dp = match resolve_patch_path(workspace, dest.as_str()) {
                Ok(p) => p,
                Err(m) => {
                    return Err(PatchError::new(m));
                },
            };
            Ok(PlannedFile { display: dest, absolute: dp, before, after: text, move_from: Some(absolute), op })
        },
    }
}

// ---------------------------------------------------------------------------
// The diff shown for a planned file
// ---------------------------------------------------------------------------

/// The unified diff of two texts, line by line with three lines of context and
/// the given `---`/`+++` file names (`similar`'s text diff).
pub uninterp spec fn line_diff(before: Seq<char>, after: Seq<char>, old_name: Seq<char>, new_name: Seq<char>) -> Seq<char>;

/// `similar::TextDiff::from_lines(..).unified_diff().header(..)`, rendered. The
/// result is named by [`line_diff`]: it depends on the four texts alone (no
/// deadline is configured); the diff algorithm itself is not spelled out.
#[verifier::external_body]
fn diff_lines(before: &str, after: &str, old_name: &str, new_name: &str) -> (r: String)
    ensures
        r@ == line_diff(before@, after@, old_name@, new_name@),
{
    similar::TextDiff::from_lines(before, after).unified_diff().header(old_name, new_name).to_string()
}

/// The file names of a planned file's diff: `/dev/null` for a side that has no
/// file, else `a/` or `b/` and the shown path.
pub open spec fn spec_diff_headers(p: PlanView) -> (Seq<char>, Seq<char>) {
    (
        if p.before.len() == 0 {
            "/dev/null"@
        } else {
            "a/"@ + p.display
        },
        if p.after is None {
            "/dev/null"@
        } else {
            "b/"@ + p.display
        },
    )
}

/// What [`unified_diff`] returns: nothing for an unchanged text, else the diff.
pub open spec fn spec_unified_diff(p: PlanView) -> Seq<char> {
    let after = match p.after {
        Some(t) => t,
        None => Seq::empty(),
    };
    if p.before == after {
        Seq::empty()
    } else {
        line_diff(p.before, after, spec_diff_headers(p).0, spec_diff_headers(p).1)
    }
}

/// The `---` and `+++` names for a planned file's diff.
pub fn diff_headers(plan: &PlannedFile) -> (r: (String, String))
    ensures
        (r.0@, r.1@) == spec_diff_headers(plan@),
{
    let d = chars_of(plan.display.as_str());
    let bv = chars_of(plan.before.as_str());
    let old = if bv.len() == 0 {
        String::from_str("/dev/null")
    } else {
        let mut v = chars_of("a/");
        append_chars(&mut v, d.as_slice());
        string_of(v.as_slice())
    };
    let new = if plan.after.is_none() {
        String::from_str("/dev/null")
    } else {
        let mut v = chars_of("b/");
        append_chars(&mut v, d.as_slice());
        string_of(v.as_slice())
    };
    (old, new)
}

/// The unified diff of one planned file (empty when the text does not change).
pub fn unified_diff(plan: &PlannedFile) -> (s: String)
    ensures
        s@ == spec_unified_diff(plan@),
{
    let after: String = match &plan.after {
        Some(t) => t.clone(),
        None => String::new(),
    };
    let b = chars_of(plan.before.as_str());
    let a = chars_of(after.as_str());
    if eq_chars(b.as_slice(), a.as_slice()) {
        return String::new();
    }
    let (old_name, new_name) = diff_headers(plan);
    diff_lines(plan.before.as_str(), after.as_str(), old_name.as_str(), new_name.as_str())
}

// ---------------------------------------------------------------------------
// What the edit reports
// ---------------------------------------------------------------------------

pub open spec fn plans_view(v: Seq<PlannedFile>) -> Seq<PlanView> {
    Seq::new(v.len(), |i: int| v[i]@)
}

/// The diffs of the plans, one after another.
pub open spec fn all_diffs(plans: Seq<PlanView>) -> Seq<char>
    decreases plans.len(),
{
    if plans.len() == 0 {
        Seq::empty()
    } else {
        all_diffs(plans.drop_last()) + spec_unified_diff(plans.last())
    }
}

/// The summary lines of the plans: operation and shown path.
pub open spec fn plan_operations(plans: Seq<PlanView>) -> Seq<(FileOp, Seq<char>)> {
    Seq::new(plans.len(), |i: int| (plans[i].op, plans[i].display))
}

/// What [`edit_report`] returns: the summary, then the diffs when there are any,
/// cut to the result limit.
pub open spec fn spec_edit_report(plans: Seq<PlanView>) -> Seq<char> {
    let summary = crate::apply_patch::spec_format_summary(plan_operations(plans));
    let diffs = all_diffs(plans);
    crate::tools::spec_truncate_output(
        if diffs.len() == 0 {
            summary
        } else {
            summary + "\n\nUnified Diff:\n"@ + diffs
        },
    )
}

/// The report after all planned files were written: the success summary and
/// the unified diffs.
pub fn edit_report(planned: &[PlannedFile]) -> (s: String)
    ensures
        s@ == spec_edit_report(plans_view(planned@)),
{
    let ghost pv = plans_view(planned@);
    let mut ops: Vec<(FileOp, &str)> = Vec::new();
    let mut diffs: Vec<char> = Vec::new();
    let mut i: usize = 0;
    assert(pv.take(0) =~= Seq::<PlanView>::empty());
    while i < planned.len()
        invariant
            i <= planned@.len(),
            pv == plans_view(planned@),
            crate::apply_patch::ops_view(ops@) == plan_operations(pv.take(i as int)),
            diffs@ == all_diffs(pv.take(i as int)),
        decreases planned@.len() - i,
    {
        let plan = &planned[i];
        assert(pv[i as int] == plan@);
        assert(pv.take(i + 1).drop_last() =~= pv.take(i as int));
        let ghost before = crate::apply_patch::ops_view(ops@);
        let shown = plan.display.as_str();
        assert(shown@ == plan@.display);
        ops.push((plan.op, shown));
        assert(crate::apply_patch::ops_view(ops@) =~= before.push((plan@.op, plan@.display)));
        assert(plan_operations(pv.take(i + 1)) =~= plan_operations(pv.take(i as int)).push(
            (pv[i as int].op, pv[i as int].display),
        ));
        let d = unified_diff(plan);
        let dv = chars_of(d.as_str());
        append_chars(&mut diffs, dv.as_slice());
        i = i + 1;
    }
    assert(pv.take(planned@.len() as int) =~= pv);
    let summary = crate::apply_patch::format_summary(ops.as_slice());
    let mut text = chars_of(summary.as_str());
    if diffs.len() > 0 {
        let head = chars_of("\n\nUnified Diff:\n");
        append_chars(&mut text, head.as_slice());
        append_chars(&mut text, diffs.as_slice());
    }
    let t = string_of(text.as_slice());
    crate::tools::truncate_output(t.as_str())
}

/// The error of a plan that failed: with several files, which one failed and
/// that nothing was written.
pub fn plan_failure(multiple_files: bool, path: &str, error: &PatchError) -> (s: String)
    ensures
        s@ == (if multiple_files {
            "["@ + path@ + "]: "@ + error@ + "\n"@ + crate::apply_patch::atomicity_notice_text()
        } else {
            error@
        }),
{
    if !multiple_files {
        return error.to_string();
    }
    let mut m = chars_of("[");
    let p = chars_of(path);
    append_chars(&mut m, p.as_slice());
    let sep = chars_of("]: ");
    append_chars(&mut m, sep.as_slice());
    let e = error.to_string();
    let ev = chars_of(e.as_str());
    append_chars(&mut m, ev.as_slice());
    m.push('\n');
    let notice = chars_of(crate::apply_patch::atomicity_notice());
    append_chars(&mut m, notice.as_slice());
    proof {
        reveal_strlit("\n");
    }
    assert(m@ =~= "["@ + path@ + "]: "@ + error@ + "\n"@ + crate::apply_patch::atomicity_notice_text());
    string_of(m.as_slice())
}

// ---------------------------------------------------------------------------
// What is on disk
// ---------------------------------------------------------------------------

/// What the path of a file's sections names on disk.
#[derive(Debug)]
pub enum DiskState {
    /// A directory.
    Directory,
    /// A file, with its text.
    File(String),
    /// A file that could not be read, with the error.
    Unreadable(String),
    /// Nothing.
    Absent,
}

/// The text a plan starts from: the file's, or none.
pub open spec fn state_text(state: DiskState) -> Option<Seq<char>> {
    match state {
        DiskState::File(t) => Some(t@),
        _ => None,
    }
}

/// What planning a file's sections gives once its path is looked up: the
/// path's own error first; then a directory, or a file that cannot be read,
/// is refused; else the sections are planned from the file's text (none
/// where nothing is there).
pub open spec fn spec_plan_from_disk(
    workspace: Seq<char>,
    es: Seq<EntryView>,
    state: DiskState,
    existing: Seq<Seq<char>>,
) -> Result<PlanView, Seq<char>> {
    let display = es[0].path;
    match spec_resolve_patch_path(workspace, display) {
        Err(m) => Err(m),
        Ok(_) => match state {
            DiskState::Directory => Err(display + " is a directory, not a file"@),
            DiskState::Unreadable(e) => Err("Failed to read "@ + display + ": "@ + e@),
            _ => spec_plan_group(workspace, es, state_text(state), existing),
        },
    }
}

/// Plans a file's sections from what is on disk, as
/// [`spec_plan_from_disk`] says.
pub fn plan_from_disk(workspace: &str, group: &[PatchEntry], state: DiskState, existing: &[String]) -> (r: Result<
    PlannedFile,
    PatchError,
>)
    requires
        group@.len() > 0,
        texts_fit(
            workspace@,
            group@[0]@.path,
            crate::apply_patch::entries_view(group@),
            0,
            state_text(state),
            None,
            strings_view(existing@),
        ),
    ensures
        match r {
            Ok(p) => spec_plan_from_disk(
                workspace@,
                crate::apply_patch::entries_view(group@),
                state,
                strings_view(existing@),
            ) == Ok::<PlanView, Seq<char>>(p@),
            Err(e) => spec_plan_from_disk(
                workspace@,
                crate::apply_patch::entries_view(group@),
                state,
                strings_view(existing@),
            ) == Err::<PlanView, Seq<char>>(e@),
        },
{
    let ghost es = crate::apply_patch::entries_view(group@);
    let display = &group[0].path;
    assert(es[0].path == display@);
    match resolve_patch_path(workspace, display.as_str()) {
        Err(m) => {
            return Err(PatchError::new(m));
        },
        Ok(_) => {},
    }
    match state {
        DiskState::Directory => {
            let mut m = chars_of(display.as_str());
            let t = chars_of(" is a directory, not a file");
            append_chars(&mut m, t.as_slice());
            Err(PatchError::new(string_of(m.as_slice())))
        },
        DiskState::Unreadable(e) => {
            let mut m = chars_of("Failed to read ");
            let d = chars_of(display.as_str());
            append_chars(&mut m, d.as_slice());
            let sep = chars_of(": ");
            append_chars(&mut m, sep.as_slice());
            let ec = chars_of(e.as_str());
            append_chars(&mut m, ec.as_slice());
            Err(PatchError::new(string_of(m.as_slice())))
        },
        DiskState::File(t) => plan_group(workspace, group, Some(t), existing),
        DiskState::Absent => plan_group(workspace, group, None, existing),
    }
}

/// What an envelope without file sections is answered with.
pub fn empty_patch_error() -> (e: PatchError)
    ensures
        e@ == "No files were modified."@,
{
    PatchError::new("No files were modified.".to_owned())
}

} // verus!
