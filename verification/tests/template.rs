use fubako::template::template_target;

fn parts(entry: &str) -> Option<(Vec<String>, bool)> {
    template_target(entry).map(|t| (t.parts, t.is_dir))
}

fn v(xs: &[&str]) -> Vec<String> {
    xs.iter().map(|s| s.to_string()).collect()
}

#[test]
fn template_entries_become_paths_inside_the_task() {
    assert_eq!(parts("メモ.md"), Some((v(&["メモ.md"]), false)));
    assert_eq!(parts(" 資料/ "), Some((v(&["資料"]), true)));
    assert_eq!(parts(r"資料\下書き.md"), Some((v(&["資料", "下書き.md"]), false)));
    assert_eq!(parts("a//b"), Some((v(&["a", "b"]), false)));
    assert_eq!(parts("a:b/c?"), Some((v(&["a_b", "c_"]), false)));
}

#[test]
fn template_entries_cannot_leave_the_task_folder() {
    assert_eq!(parts("../x"), Some((v(&["x"]), false)));
    assert_eq!(parts(r"..\..\secret\"), Some((v(&["secret"]), true)));
    assert_eq!(parts("./a/./b"), Some((v(&["a", "b"]), false)));
    assert_eq!(parts("../"), None);
    assert_eq!(parts("   "), None);
    assert_eq!(parts(""), None);
}

#[test]
fn a_new_task_takes_its_template_entries_in_order() {
    let templates = v(&["メモ.md", "  ", "資料/", "../x.txt"]);
    let t = fubako::template::plan_new_task("20260802", "調査", true, &templates).unwrap();
    assert_eq!(t.folder_name, "20260802_調査");
    let got: Vec<(Vec<String>, bool)> = t.targets.into_iter().map(|t| (t.parts, t.is_dir)).collect();
    assert_eq!(
        got,
        vec![(v(&["メモ.md"]), false), (v(&["資料"]), true), (v(&["x.txt"]), false)]
    );
    let t = fubako::template::plan_new_task("20260802", "調査", false, &templates).unwrap();
    assert!(t.targets.is_empty());
    assert_eq!(
        fubako::template::plan_new_task("20260802", " \t ", true, &templates).unwrap_err(),
        "作業名を入力してください"
    );
}
