use fubako::dates::prefix_date;
use fubako::model::{
    default_deep_archive_months, default_hotkey, default_stale_days, default_templates, AppConfig,
    ProgressMode, Status, TaskMeta,
};
use fubako::settings::{
    bad_hotkey, display_name_change, hotkey_wanted, saved_hotkey_warning, startup_hotkey_warning,
};

#[test]
fn the_defaults() {
    let c = AppConfig::default();
    assert_eq!(c.work_root, None);
    assert_eq!(c.hotkey, "Ctrl+Alt+KeyE");
    assert_eq!(c.stale_days, 14);
    assert_eq!(c.template_files, vec!["メモ.md".to_string()]);
    assert_eq!(c.deep_archive_months, 6);
    assert_eq!(default_hotkey(), "Ctrl+Alt+KeyE");
    assert_eq!(default_stale_days(), 14);
    assert_eq!(default_deep_archive_months(), 6);
    assert_eq!(default_templates(), vec!["メモ.md".to_string()]);
    let m = TaskMeta::default();
    assert_eq!(m.status, Status::Backlog);
    assert_eq!(m.progress_mode, ProgressMode::Auto);
}

#[test]
fn a_blank_hotkey_is_not_registered() {
    assert!(hotkey_wanted("Ctrl+Alt+KeyE"));
    assert!(!hotkey_wanted(""));
    assert!(!hotkey_wanted("  \t"));
    assert_eq!(bad_hotkey("Hoge+KeyE"), "ホットキーの形式が不正です: Hoge+KeyE");
    assert_eq!(startup_hotkey_warning("busy"), "ホットキーを登録できませんでした: busy");
    assert_eq!(
        saved_hotkey_warning("busy"),
        "設定は保存しましたが、ホットキーを登録できませんでした: busy"
    );
}

#[test]
fn the_display_name_sets_title_and_tooltip() {
    assert!(display_name_change(&AppConfig::default()).is_none());
    let c = AppConfig { display_name: Some("仕事箱".to_string()), ..Default::default() };
    let ch = display_name_change(&c).unwrap();
    assert_eq!(ch.title, "仕事箱");
    assert_eq!(ch.tooltip.as_deref(), Some("仕事箱"));
    // an empty name clears the tooltip
    let c = AppConfig { display_name: Some(String::new()), ..Default::default() };
    let ch = display_name_change(&c).unwrap();
    assert_eq!(ch.title, "");
    assert_eq!(ch.tooltip, None);
}

#[test]
fn a_date_prefix_is_a_calendar_day() {
    assert_eq!(prefix_date("20260802"), Some((2026, 8, 2)));
    assert_eq!(prefix_date("20240229"), Some((2024, 2, 29)));
    assert_eq!(prefix_date("20230229"), None);
    assert_eq!(prefix_date("20261301"), None);
    assert_eq!(prefix_date("20260800"), None);
}
