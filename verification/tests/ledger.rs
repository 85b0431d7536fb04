use fubako::ledger::{apply_patch, drop_blank_lines, mark_completed, mark_imported, mark_reopened, new_task_meta};
use fubako::model::{ChecklistItem, MetaPatch, ProgressMode, Status, TaskMeta};

fn item(text: &str) -> ChecklistItem {
    ChecklistItem { text: text.to_string(), done: false, estimate_min: None }
}

fn patch(status: Status, on_hold: bool) -> MetaPatch {
    MetaPatch {
        status,
        tags: vec!["調査".to_string()],
        due: Some("2026-09-01".to_string()),
        memo: "めも".to_string(),
        checklist: vec![item("a"), item("   "), item("b")],
        manual_progress: Some(150),
        progress_mode: ProgressMode::Manual,
        on_hold,
    }
}

#[test]
fn a_patch_sets_the_edited_fields() {
    let meta = TaskMeta { status: Status::Backlog, ..Default::default() };
    let r = apply_patch(meta, patch(Status::Doing, false), "NOW".to_string());
    assert_eq!(r.status, Status::Doing);
    assert_eq!(r.tags, vec!["調査".to_string()]);
    assert_eq!(r.due.as_deref(), Some("2026-09-01"));
    assert_eq!(r.memo, "めも");
    // blank lines are dropped, the manual value is capped
    let texts: Vec<&str> = r.checklist.iter().map(|i| i.text.as_str()).collect();
    assert_eq!(texts, vec!["a", "b"]);
    assert_eq!(r.progress, Some(100));
    assert_eq!(r.progress_mode, ProgressMode::Manual);
    // a missing creation time is stamped
    assert_eq!(r.created_at.as_deref(), Some("NOW"));
    assert_eq!(r.on_hold_since, None);
}

#[test]
fn a_patch_never_marks_a_task_done() {
    let meta = TaskMeta { status: Status::Doing, ..Default::default() };
    let r = apply_patch(meta, patch(Status::Done, false), "NOW".to_string());
    assert_eq!(r.status, Status::Doing);
}

#[test]
fn the_hold_keeps_its_start() {
    let meta = TaskMeta { on_hold_since: Some("THEN".to_string()), created_at: Some("C".to_string()), ..Default::default() };
    let r = apply_patch(meta, patch(Status::Doing, true), "NOW".to_string());
    assert_eq!(r.on_hold_since.as_deref(), Some("THEN"));
    assert_eq!(r.created_at.as_deref(), Some("C"));
    let r = apply_patch(TaskMeta::default(), patch(Status::Doing, true), "NOW".to_string());
    assert_eq!(r.on_hold_since.as_deref(), Some("NOW"));
    let again = apply_patch(r.clone(), patch(Status::Doing, true), "LATER".to_string());
    assert_eq!(again.on_hold_since.as_deref(), Some("NOW"));
}

#[test]
fn completing_and_reopening() {
    let meta = TaskMeta { status: Status::Doing, memo: "m".to_string(), ..Default::default() };
    let done = mark_completed(meta, "NOW".to_string());
    assert_eq!(done.status, Status::Done);
    assert_eq!(done.completed_at.as_deref(), Some("NOW"));
    assert_eq!(done.memo, "m");
    let back = mark_reopened(done);
    assert_eq!(back.status, Status::Doing);
    assert_eq!(back.completed_at, None);
    assert_eq!(back.memo, "m");
}

#[test]
fn a_folder_taken_in_is_in_progress() {
    let meta = TaskMeta { status: Status::Done, completed_at: Some("OLD".to_string()), ..Default::default() };
    let r = mark_imported(meta, "NOW".to_string());
    assert_eq!(r.status, Status::Doing);
    assert_eq!(r.completed_at, None);
    assert_eq!(r.created_at.as_deref(), Some("NOW"));
    let n = new_task_meta("NOW".to_string());
    assert_eq!(n.status, Status::Doing);
    assert_eq!(n.created_at.as_deref(), Some("NOW"));
    assert!(drop_blank_lines(vec![item(""), item(" \t")]).is_empty());
}
