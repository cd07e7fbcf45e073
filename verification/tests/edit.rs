use oma::apply_patch::{parse_envelope, FileOp, PatchEntry};
use oma::apply_patch::PatchError;
use oma::edit::{diff_headers, edit_report, empty_patch_error, plan_failure, plan_from_disk, plan_group, unified_diff, DiskState};

fn update(path: &str, body: &str, rename: Option<&str>) -> PatchEntry {
    PatchEntry {
        path: path.to_string(),
        op: FileOp::Update,
        rename: rename.map(str::to_string),
        body: Some(body.to_string()),
    }
}

#[test]
fn update_applies_hunks_to_the_current_text() {
    let plan = plan_group("/w", &[update("a.txt", "@@\n-old\n+new", None)], Some("x\nold\n".to_string()), &[])
        .unwrap();
    assert_eq!(plan.display, "a.txt");
    assert_eq!(plan.absolute, "/w/a.txt");
    assert_eq!(plan.before, "x\nold\n");
    assert_eq!(plan.after.as_deref(), Some("x\nnew\n"));
    assert_eq!(plan.move_from, None);
    assert_eq!(plan.op, FileOp::Update);
}

#[test]
fn sections_of_one_file_apply_in_order() {
    let group = [update("m.txt", "@@\n-line2\n+changed2", None), update("m.txt", "@@\n-changed2\n+again", None)];
    let plan = plan_group("/w", &group, Some("line1\nline2\n".to_string()), &[]).unwrap();
    assert_eq!(plan.after.as_deref(), Some("line1\nagain\n"));
}

#[test]
fn add_delete_and_missing_files() {
    let entries = parse_envelope("*** Begin Patch\n*** Add File: n.txt\n+hi\n*** End Patch").unwrap();
    let plan = plan_group("/w", &entries, None, &[]).unwrap();
    assert_eq!(plan.after.as_deref(), Some("hi\n"));
    assert_eq!(plan.before, "");
    assert_eq!(plan.op, FileOp::Add);
    assert_eq!(
        plan_group("/w", &entries, Some("old".to_string()), &[]).unwrap_err().to_string(),
        "Cannot create n.txt: file already exists. Use *** Update File to modify it in place."
    );

    let delete = [PatchEntry { path: "g.txt".to_string(), op: FileOp::Delete, rename: None, body: None }];
    assert_eq!(plan_group("/w", &delete, None, &[]).unwrap_err().to_string(), "File not found: g.txt");
    let plan = plan_group("/w", &delete, Some("bye".to_string()), &[]).unwrap();
    assert_eq!(plan.after, None);
    assert_eq!(plan.op, FileOp::Delete);

    assert_eq!(
        plan_group("/w", &[update("u.txt", "@@\n-a\n+b", None)], None, &[]).unwrap_err().to_string(),
        "File not found: u.txt"
    );
}

#[test]
fn delete_then_add_replaces_the_file() {
    let group = [
        PatchEntry { path: "r.txt".to_string(), op: FileOp::Delete, rename: None, body: None },
        PatchEntry { path: "r.txt".to_string(), op: FileOp::Add, rename: None, body: Some("new\n".to_string()) },
    ];
    let plan = plan_group("/w", &group, Some("old\n".to_string()), &[]).unwrap();
    assert_eq!(plan.before, "old\n");
    assert_eq!(plan.after.as_deref(), Some("new\n"));
    assert_eq!(plan.op, FileOp::Add);
}

#[test]
fn moves_go_to_free_destinations_only() {
    let moving = [update("old/a.txt", "@@\n-a\n+b", Some("new/dir/a.txt"))];
    let plan = plan_group("/w", &moving, Some("a\n".to_string()), &[]).unwrap();
    assert_eq!(plan.display, "new/dir/a.txt");
    assert_eq!(plan.absolute, "/w/new/dir/a.txt");
    assert_eq!(plan.move_from.as_deref(), Some("/w/old/a.txt"));
    assert_eq!(plan.after.as_deref(), Some("b\n"));

    let taken = plan_group("/w", &moving, Some("a\n".to_string()), &["/w/new/dir/a.txt".to_string()]);
    assert_eq!(
        taken.unwrap_err().to_string(),
        "Cannot rename old/a.txt to new/dir/a.txt: destination already exists."
    );
    let same = [update("a.txt", "@@\n-a\n+b", Some("a.txt"))];
    assert_eq!(
        plan_group("/w", &same, Some("a\n".to_string()), &[]).unwrap_err().to_string(),
        "rename path is the same as source path"
    );
}

#[test]
fn paths_outside_the_workspace_are_refused() {
    let escape = [update("../x.txt", "@@\n-a\n+b", None)];
    assert_eq!(
        plan_group("/w", &escape, Some("a\n".to_string()), &[]).unwrap_err().to_string(),
        "patch path \"../x.txt\" escapes the workspace; patches must stay inside it"
    );
}

#[test]
fn planned_files_show_a_unified_diff() {
    let plan = plan_group("/w", &[update("a.txt", "@@\n-old\n+new", None)], Some("x\nold\n".to_string()), &[])
        .unwrap();
    assert_eq!(diff_headers(&plan), ("a/a.txt".to_string(), "b/a.txt".to_string()));
    assert_eq!(unified_diff(&plan), "--- a/a.txt\n+++ b/a.txt\n@@ -1,2 +1,2 @@\n x\n-old\n+new\n");

    let added = plan_group(
        "/w",
        &[PatchEntry { path: "n.txt".to_string(), op: FileOp::Add, rename: None, body: Some("hi\n".to_string()) }],
        None,
        &[],
    )
    .unwrap();
    assert_eq!(diff_headers(&added).0, "/dev/null");
    assert!(unified_diff(&added).starts_with("--- /dev/null\n+++ b/n.txt\n"));

    let deleted = plan_group(
        "/w",
        &[PatchEntry { path: "g.txt".to_string(), op: FileOp::Delete, rename: None, body: None }],
        Some("bye\n".to_string()),
        &[],
    )
    .unwrap();
    assert_eq!(diff_headers(&deleted), ("a/g.txt".to_string(), "/dev/null".to_string()));

    let same = plan_group("/w", &[update("s.txt", "@@\n a", None)], Some("a\n".to_string()), &[]).unwrap();
    assert_eq!(unified_diff(&same), "");
}

#[test]
fn the_report_lists_operations_then_diffs() {
    let plan = plan_group("/w", &[update("a.txt", "@@\n-old\n+new", None)], Some("old\n".to_string()), &[])
        .unwrap();
    assert_eq!(
        edit_report(&[plan]),
        "Successfully applied 1 file operation(s).\nM a.txt\n\nUnified Diff:\n--- a/a.txt\n+++ b/a.txt\n@@ -1 +1 @@\n-old\n+new\n"
    );
    let same = plan_group("/w", &[update("s.txt", "@@\n a", None)], Some("a\n".to_string()), &[]).unwrap();
    assert_eq!(edit_report(&[same]), "Successfully applied 1 file operation(s).\nM s.txt");
}

#[test]
fn failures_name_the_file_when_several_are_edited() {
    let error = PatchError::new("File not found: x".to_string());
    assert_eq!(plan_failure(false, "x", &error), "File not found: x");
    assert_eq!(
        plan_failure(true, "x", &error),
        "[x]: File not found: x\nNo files were modified — sections apply atomically."
    );
}

#[test]
fn planning_from_disk_refuses_directories_and_unreadable_files() {
    let entries = [update("a.txt", "@@\n-old\n+new", None)];
    assert_eq!(
        plan_from_disk("/w", &entries, DiskState::Directory, &[]).unwrap_err().to_string(),
        "a.txt is a directory, not a file"
    );
    assert_eq!(
        plan_from_disk("/w", &entries, DiskState::Unreadable("denied".into()), &[]).unwrap_err().to_string(),
        "Failed to read a.txt: denied"
    );
    assert!(plan_from_disk("/w", &entries, DiskState::File("old\n".into()), &[]).is_ok());
    assert_eq!(
        plan_from_disk("/w", &entries, DiskState::Absent, &[]).unwrap_err().to_string(),
        plan_group("/w", &entries, None, &[]).unwrap_err().to_string()
    );
    assert_eq!(empty_patch_error().to_string(), "No files were modified.");
}
