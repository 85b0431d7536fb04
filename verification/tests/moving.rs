use fubako::moving::{discard_copy, is_cross_volume, move_start, move_step, Action, Outcome, Phase};

fn p(parts: &[&str]) -> Vec<String> {
    parts.iter().map(|s| s.to_string()).collect()
}

fn failed(code: Option<i32>, text: &str) -> Outcome {
    Outcome::Failed { code, text: text.to_string() }
}

fn finished(phase: &Phase) -> Option<Result<(), String>> {
    match phase {
        Phase::Finished { result } => Some(result.clone()),
        _ => None,
    }
}

#[test]
fn move_dir_rejects_dest_inside_src() {
    let (phase, action) = move_start(&p(&["t", "src", "inner"]), &p(&["t", "src"]));
    assert!(matches!(action, Action::Finish));
    let err = finished(&phase).unwrap().unwrap_err();
    assert!(err.contains("内側"), "unexpected error: {err}");
}

#[test]
fn a_move_on_one_volume_is_a_rename() {
    let (phase, action) = move_start(&p(&["t"]), &p(&["t", "src"]));
    assert!(matches!(phase, Phase::Renaming));
    assert!(matches!(action, Action::Rename));
    let (phase, action) = move_step(phase, Outcome::Done, "tmp");
    assert!(matches!(action, Action::Finish));
    assert_eq!(finished(&phase), Some(Ok(())));
}

#[test]
fn move_dir_reports_open_files_instead_of_copying() {
    // a rename that fails for another reason than the volume is not turned into a copy
    let (phase, action) = move_step(Phase::Renaming, failed(Some(32), "in use"), "tmp");
    assert!(matches!(action, Action::Finish));
    let err = finished(&phase).unwrap().unwrap_err();
    assert!(err.contains("開いていないか"), "unexpected: {err}");
    assert!(err.ends_with("in use"));
}

#[test]
fn across_volumes_the_source_goes_only_after_the_copy_is_in_place() {
    assert!(is_cross_volume(Some(17)) && is_cross_volume(Some(18)));
    assert!(!is_cross_volume(Some(5)) && !is_cross_volume(None));
    let (phase, action) = move_step(Phase::Renaming, failed(Some(18), "EXDEV"), "tmp");
    assert!(matches!(action, Action::CopyToTemp));
    let (phase, action) = move_step(phase, Outcome::Done, "tmp");
    assert!(matches!(action, Action::CommitTemp));
    let (phase, action) = move_step(phase, Outcome::Done, "tmp");
    assert!(matches!(action, Action::RemoveSource));
    let (phase, action) = move_step(phase, Outcome::Done, "tmp");
    assert!(matches!(action, Action::Finish));
    assert_eq!(finished(&phase), Some(Ok(())));
}

#[test]
fn a_failed_copy_is_discarded_and_the_source_kept() {
    let (phase, action) = move_step(Phase::Copying, failed(None, "disk full"), "tmp");
    assert!(matches!(action, Action::DiscardTemp));
    let (phase, _) = move_step(phase, Outcome::Done, "tmp");
    let err = finished(&phase).unwrap().unwrap_err();
    assert_eq!(err, "コピーに失敗したため中止しました（元のフォルダは変更されていません）: disk full");
    // when the copy cannot be removed, the message says where it lies
    let (phase, _) = move_step(Phase::Committing, failed(None, "denied"), r"D:\.fubako-moving");
    let (phase, _) = move_step(phase, failed(None, "busy"), r"D:\.fubako-moving");
    let err = finished(&phase).unwrap().unwrap_err();
    assert!(err.starts_with("移動先の確定に失敗しました"), "{err}");
    assert!(err.contains(r"D:\.fubako-moving"), "{err}");
}

#[test]
fn discard_copy_removes_the_temporary_copy() {
    // after a clean removal the message gets no note
    assert_eq!(discard_copy("中止しました", true, r"C:\.fubako-moving"), "中止しました");
    assert_eq!(
        discard_copy("中止しました", false, r"C:\.fubako-moving"),
        r"中止しました（作業用フォルダ C:\.fubako-moving が残っています。手動で削除してください）"
    );
}

#[test]
fn a_finished_move_stays_finished() {
    let done = Phase::Finished { result: Err("x".to_string()) };
    let (phase, action) = move_step(done, Outcome::Done, "tmp");
    assert!(matches!(action, Action::Finish));
    assert_eq!(finished(&phase), Some(Err("x".to_string())));
}
