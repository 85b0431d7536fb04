use fubako::explorer::{comparable, focus_existing_window, url_to_path};

#[test]
fn decodes_percent_encoded_urls() {
    assert_eq!(
        url_to_path("file:///C:/work/%E8%AA%BF%E6%9F%BB").as_deref(),
        Some(r"C:\work\調査")
    );
    assert_eq!(
        url_to_path("file:///C:/work/plain").as_deref(),
        Some(r"C:\work\plain")
    );
    // windows that show no folder (settings pages and the like) are left alone
    assert_eq!(url_to_path("ms-settings:display"), None);
}

#[test]
fn compares_paths_ignoring_prefix_and_case() {
    assert_eq!(comparable(r"\\?\C:\Work\Task\"), comparable(r"c:\work\task"));
    assert_ne!(comparable(r"C:\work\a"), comparable(r"C:\work\b"));
}

#[test]
fn comparable_lower_cases_and_drops_trailing_separators() {
    assert_eq!(comparable(r"C:\Work\Task\\"), r"c:\work\task");
    assert_eq!(comparable(r"\\?\D:\X"), r"d:\x");
}

#[test]
fn escapes_that_are_not_bytes_are_kept_and_broken_text_is_refused() {
    assert_eq!(url_to_path("file:///C:/work/%ZZ").as_deref(), Some(r"C:\work\%ZZ"));
    assert_eq!(url_to_path("file:///C:/a%").as_deref(), Some(r"C:\a%"));
    // the bytes of half a character are no path
    assert_eq!(url_to_path("file:///C:/work/%E8%AA"), None);
}

#[test]
fn the_first_window_showing_the_folder_is_focused() {
    let windows = vec![
        Some("ms-settings:display".to_string()),
        None,
        Some("file:///C:/Work/%E8%AA%BF%E6%9F%BB".to_string()),
        Some("file:///C:/work/%E8%AA%BF%E6%9F%BB".to_string()),
    ];
    assert_eq!(focus_existing_window(r"C:\work\調査", &windows), Some(2));
    assert_eq!(focus_existing_window(r"C:\work\other", &windows), None);
}

#[test]
fn an_escape_may_carry_a_plus_sign() {
    // `u8::from_str_radix` takes a leading `+`, so `%+A` is the byte 0x0A
    assert_eq!(url_to_path("file:///a%+Ab").as_deref(), Some("a\nb"));
    assert_eq!(url_to_path("file:///a%4a").as_deref(), Some("aJ"));
    // a decoded `/` stays as it is
    assert_eq!(url_to_path("file:///a%2Fb/c").as_deref(), Some(r"a/b\c"));
}
