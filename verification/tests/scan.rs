use fubako::model::{ChecklistItem, ProgressMode, Status, TaskMeta};
use fubako::scan::{scan_all, scan_task, stale, ArchiveEntry, ScanRoots, TaskFacts};

const DAY: i128 = 86_400_000_000_000;

fn item(text: &str, done: bool, estimate_min: Option<u32>) -> ChecklistItem {
    ChecklistItem { text: text.to_string(), done, estimate_min }
}

fn facts(folder_name: &str, meta: TaskMeta, stale_days: u32) -> TaskFacts {
    TaskFacts {
        path: format!(r"C:\work\{folder_name}"),
        folder_name: folder_name.to_string(),
        archived: false,
        stale_days,
        meta,
        file_count: 0,
        file_names: Vec::new(),
        last_activity: Some(0),
        last_activity_text: Some("1970-01-01T09:00:00+09:00".to_string()),
        now: 30 * DAY,
        prefix_created: None,
        fs_created: None,
    }
}

fn p(parts: &[&str]) -> Vec<String> {
    parts.iter().map(|s| s.to_string()).collect()
}

#[test]
fn progress_is_weighted_by_estimates() {
    let meta = TaskMeta {
        status: Status::Doing,
        checklist: vec![
            item("a", true, Some(30)),
            item("b", true, Some(120)),
            item("c", false, Some(90)),
        ],
        ..Default::default()
    };
    let task = scan_task(facts("20260802_調査", meta, 14));
    // (30+120) / 240 = 62%
    assert_eq!(task.progress, Some(62));
    assert_eq!(task.remaining_min, Some(90));
    assert_eq!(task.checklist_done, 2);
}

#[test]
fn manual_mode_overrides_checklist() {
    let meta = TaskMeta {
        checklist: vec![item("a", true, None)],
        progress: Some(30),
        progress_mode: ProgressMode::Manual,
        ..Default::default()
    };
    let task = scan_task(facts("x", meta, 14));
    assert_eq!(task.progress, Some(30));
}

#[test]
fn manual_without_a_value_falls_back_to_the_checklist() {
    // "manual" with no value: edited by hand, or left by an old bug
    let meta = TaskMeta {
        checklist: vec![item("a", true, Some(60)), item("b", false, Some(60))],
        progress: None,
        progress_mode: ProgressMode::Manual,
        ..Default::default()
    };
    let task = scan_task(facts("x", meta, 14));
    assert_eq!(task.progress, Some(50));
}

#[test]
fn a_task_on_hold_is_not_counted_as_neglected() {
    // left alone past the limit, it is marked
    let idle = scan_task(facts("20260101_回答待ち", TaskMeta::default(), 0));
    assert!(idle.stale);
    // on hold, it is not: the pause is meant
    let meta = TaskMeta {
        on_hold_since: Some("2026-01-02T09:00:00+09:00".to_string()),
        ..Default::default()
    };
    let held = scan_task(facts("20260101_回答待ち", meta, 0));
    assert!(!held.stale);
    assert!(held.on_hold_since.is_some());
}

#[test]
fn a_task_is_neglected_only_past_the_limit() {
    assert!(!stale(false, false, Some(0), 14 * DAY, 14));
    assert!(stale(false, false, Some(0), 14 * DAY + 1, 14));
    assert!(!stale(true, false, Some(0), 100 * DAY, 14));
    assert!(!stale(false, false, None, 100 * DAY, 14));
}

#[test]
fn the_summary_takes_name_date_and_creation_from_what_was_read() {
    let mut f = facts("20260802_調査", TaskMeta::default(), 14);
    f.prefix_created = Some("2026-08-02T00:00:00+09:00".to_string());
    f.fs_created = Some("2026-08-03T10:00:00+09:00".to_string());
    f.archived = true;
    let t = scan_task(f);
    assert_eq!(t.name, "調査");
    assert_eq!(t.date_prefix.as_deref(), Some("20260802"));
    assert_eq!(t.created_at.as_deref(), Some("2026-08-02T00:00:00+09:00"));
    // a task in the archive is done, whatever its metadata says
    assert_eq!(t.status, Status::Done);
    assert!(!t.stale);
    assert_eq!(t.progress, None);
}

#[test]
fn scan_all_skips_deep_archive_and_reads_year_dirs() {
    let roots = ScanRoots {
        work: Some(p(&["r", "work"])),
        archive: Some(p(&["r", "archive"])),
        deep: Some(p(&["r", "archive", "deep"])),
    };
    let work_dirs = vec![p(&["r", "work", "20260802_作業A"]), p(&["r", "work", ".git"])];
    let archive_dirs = vec![
        ArchiveEntry {
            path: p(&["r", "archive", "2026"]),
            children: vec![p(&["r", "archive", "2026", "20260601_完了B"])],
        },
        // the deep archive inside the archive holds a task of its own, which is never read
        ArchiveEntry {
            path: p(&["r", "archive", "deep"]),
            children: vec![p(&["r", "archive", "deep", "20250101_古い"])],
        },
        ArchiveEntry { path: p(&["r", "archive", "20250101_単独"]), children: Vec::new() },
    ];
    let targets = scan_all(&roots, &work_dirs, &archive_dirs);
    assert!(!targets.iter().any(|t| t.path.iter().any(|c| c.contains("古い"))));
    let got: Vec<(Vec<String>, bool)> = targets.into_iter().map(|t| (t.path, t.archived)).collect();
    assert_eq!(
        got,
        vec![
            (p(&["r", "work", "20260802_作業A"]), false),
            (p(&["r", "archive", "2026", "20260601_完了B"]), true),
            (p(&["r", "archive", "20250101_単独"]), true),
        ]
    );
}
