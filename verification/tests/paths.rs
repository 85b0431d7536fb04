use fubako::model::AppConfig;
use fubako::paths::{
    archive_root, deep_archive_parent, ensure_managed, import_guard, validate_roots, work_root,
    ManagedRoots,
};

fn p(parts: &[&str]) -> Vec<String> {
    parts.iter().map(|s| s.to_string()).collect()
}

fn roots(work: &[&str], archive: Option<&[&str]>, deep: Option<&[&str]>) -> ManagedRoots {
    ManagedRoots { work: Some(p(work)), archive: archive.map(p), deep: deep.map(p) }
}

#[test]
fn ensure_managed_blocks_path_traversal() {
    let r = roots(&["t", "work"], None, None);
    // a task below the root is fine
    assert!(ensure_managed(&p(&["t", "work", "20260802_task"]), &r).is_ok());
    // the root itself is not
    assert!(ensure_managed(&p(&["t", "work"]), &r).is_err());
    // a path that resolved outside the root is refused
    assert_eq!(
        ensure_managed(&p(&["t", "secret"]), &r).unwrap_err(),
        "管理対象外のパスです"
    );
    // a sibling whose name only starts like the root is outside too
    assert!(ensure_managed(&p(&["t", "work2", "x"]), &r).is_err());
}

#[test]
fn ensure_managed_accepts_files_inside_a_task() {
    let r = roots(&["t", "work"], Some(&["t", "archive"]), None);
    assert!(ensure_managed(&p(&["t", "work", "20260802_task", "メモ.md"]), &r).is_ok());
    assert!(ensure_managed(&p(&["t", "work", "20260802_task", "資料"]), &r).is_ok());
    assert!(ensure_managed(&p(&["t", "archive", "2026", "x"]), &r).is_ok());
    assert!(ensure_managed(&p(&["t", "outside.md"]), &r).is_err());
}

#[test]
fn validate_roots_rejects_dangerous_combos() {
    let same = roots(&["t", "a"], Some(&["t", "a"]), None);
    assert_eq!(validate_roots(&same).unwrap_err(), "作業ディレクトリとアーカイブ先が同一です");
    let ok = roots(&["t", "a"], Some(&["t", "b"]), None);
    assert!(validate_roots(&ok).is_ok());
    let inside = roots(&["t", "a", "w"], Some(&["t", "a"]), None);
    assert_eq!(
        validate_roots(&inside).unwrap_err(),
        "作業ディレクトリをアーカイブ先の内側には置けません"
    );
    let deep_same = roots(&["t", "a"], Some(&["t", "b"]), Some(&["t", "b"]));
    assert_eq!(validate_roots(&deep_same).unwrap_err(), "ディープアーカイブ先が他のルートと同一です");
    let deep_holds_work = roots(&["t", "d", "w"], Some(&["t", "b"]), Some(&["t", "d"]));
    assert_eq!(
        validate_roots(&deep_holds_work).unwrap_err(),
        "作業ディレクトリをディープアーカイブ先の内側には置けません"
    );
    // the archive inside the work root is allowed (the list skips it)
    let archive_in_work = roots(&["t", "w"], Some(&["t", "w", "archive"]), None);
    assert!(validate_roots(&archive_in_work).is_ok());
}

#[test]
fn import_guard_rejects_folders_the_app_already_shows() {
    let r = roots(&["t", "work"], Some(&["t", "archive"]), None);
    assert_eq!(
        import_guard(&p(&["t", "work", "20260802_task"]), &r).unwrap_err(),
        "既に管理対象のフォルダです"
    );
    assert!(import_guard(&p(&["t", "archive", "2026", "20260601_done"]), &r).is_err());
    // a folder that holds a root would be moved into itself
    assert_eq!(import_guard(&p(&["t"]), &r).unwrap_err(), "管理ルートを含むフォルダは取り込めません");
    // a folder outside is taken in
    assert!(import_guard(&p(&["t", "外", "資料"]), &r).is_ok());
}

#[test]
fn import_guard_allows_taking_back_from_deep_archive() {
    let r = roots(&["t", "work"], Some(&["t", "archive"]), Some(&["t", "deep"]));
    // never scanned, so taking it in is the only way back
    assert!(import_guard(&p(&["t", "deep", "2026", "20260101_古い調査"]), &r).is_ok());
    // but not the deep archive root itself
    assert!(import_guard(&p(&["t", "deep"]), &r).is_err());
}

#[test]
fn the_deep_archive_keeps_the_year_folder() {
    let archive = p(&["t", "archive"]);
    let deep = Some(p(&["t", "deep"]));
    assert_eq!(
        deep_archive_parent(&p(&["t", "archive", "2026", "20260101_x"]), &archive, &deep).unwrap(),
        p(&["t", "deep", "2026"])
    );
    assert_eq!(
        deep_archive_parent(&p(&["t", "archive", "20260101_x"]), &archive, &deep).unwrap(),
        p(&["t", "deep"])
    );
    assert_eq!(
        deep_archive_parent(&p(&["t", "archive"]), &archive, &deep).unwrap_err(),
        "アーカイブ済みのタスクのみ移動できます"
    );
    assert_eq!(
        deep_archive_parent(&p(&["t", "archive", "x"]), &archive, &None).unwrap_err(),
        "ディープアーカイブ先が未設定です（設定画面で指定してください）"
    );
}

#[test]
fn unset_roots_are_reported() {
    assert_eq!(work_root(&AppConfig::default()).unwrap_err(), "作業ディレクトリが未設定です");
    assert_eq!(archive_root(&AppConfig::default()).unwrap_err(), "アーカイブディレクトリが未設定です");
    let c = AppConfig { work_root: Some("/w".to_string()), ..Default::default() };
    assert_eq!(work_root(&c).unwrap(), "/w");
}
