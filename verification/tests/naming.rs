use fubako::naming::{
    already_exists, candidate_name, parse_folder_name, plan_rename, sanitize_name, task_folder_name, unique_dest,
    RenamePlan,
};

#[test]
fn sanitize_replaces_invalid_chars() {
    assert_eq!(sanitize_name(r#"a\b/c:d*e?f"g<h>i|j"#), "a_b_c_d_e_f_g_h_i_j");
    assert_eq!(sanitize_name("  調査  "), "調査");
}

#[test]
fn sanitizing_twice_changes_nothing() {
    for s in ["  a:b  ", "\u{3000}全角\u{3000}", "x/y\\z", ""] {
        let once = sanitize_name(s);
        assert_eq!(sanitize_name(&once), once);
    }
}

#[test]
fn parse_folder_name_variants() {
    assert_eq!(
        parse_folder_name("20260802_調査"),
        (Some("20260802".into()), "調査".into())
    );
    assert_eq!(parse_folder_name("メモ置き場"), (None, "メモ置き場".into()));
    assert_eq!(
        parse_folder_name("20260802_"),
        (Some("20260802".into()), "20260802".into())
    );
    // only eight digits and an underscore make a date prefix
    assert_eq!(parse_folder_name("2026080_x"), (None, "2026080_x".into()));
    assert_eq!(parse_folder_name("20260802x"), (None, "20260802x".into()));
}

#[test]
fn unique_dest_appends_suffix() {
    // the folder holds exactly x and x_2
    let taken = |name: String| name == "x" || name == "x_2";
    assert_eq!(unique_dest("x", taken).as_deref(), Some("x_3"));
    assert_eq!(unique_dest("y", taken).as_deref(), Some("y"));
}

#[test]
fn the_candidate_names_count_up() {
    assert_eq!(candidate_name("x", 1), "x");
    assert_eq!(candidate_name("x", 2), "x_2");
    assert_eq!(candidate_name(".fubako-moving", 12), ".fubako-moving_12");
}

#[test]
fn a_new_task_folder_is_named_by_date_and_sanitized_name() {
    assert_eq!(task_folder_name("20260802", " 設計/レビュー ").unwrap(), "20260802_設計_レビュー");
    assert_eq!(task_folder_name("20260802", "   ").unwrap_err(), "作業名を入力してください");
    assert_eq!(already_exists("20260802_a"), "20260802_a は既に存在します");
}

#[test]
fn rename_keeps_date_prefix_and_sanitizes() {
    match plan_rename("設計/レビュー", "20260802_調査").unwrap() {
        RenamePlan::Rename { folder_name, case_only } => {
            assert_eq!(folder_name, "20260802_設計_レビュー");
            assert!(!case_only);
        }
        RenamePlan::Unchanged => panic!("the name changed"),
    }
}

#[test]
fn rename_without_prefix_replaces_whole_name() {
    match plan_rename("資料置き場", "メモ置き場").unwrap() {
        RenamePlan::Rename { folder_name, .. } => assert_eq!(folder_name, "資料置き場"),
        RenamePlan::Unchanged => panic!("the name changed"),
    }
}

#[test]
fn renaming_to_the_same_name_or_only_its_case() {
    assert!(matches!(plan_rename("調査", "20260802_調査"), Ok(RenamePlan::Unchanged)));
    match plan_rename("Memo", "20260802_memo").unwrap() {
        RenamePlan::Rename { folder_name, case_only } => {
            assert_eq!(folder_name, "20260802_Memo");
            assert!(case_only);
        }
        RenamePlan::Unchanged => panic!("the case changed"),
    }
    assert_eq!(plan_rename("  ", "20260802_調査").unwrap_err(), "作業名を入力してください");
}
