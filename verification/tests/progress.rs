use fubako::model::{ChecklistItem, ProgressMode};
use fubako::progress::{average_of, checklist_fits, checklist_progress, count_done, remaining_minutes};

fn item(done: bool, estimate_min: Option<u32>) -> ChecklistItem {
    ChecklistItem { text: "x".to_string(), done, estimate_min }
}

#[test]
fn lines_without_estimate_weigh_the_average() {
    // estimates 30 and 90: average 60 for the line without one
    let list = vec![item(true, Some(30)), item(false, Some(90)), item(true, None)];
    assert_eq!(average_of(&list), 60);
    // (30 + 60) / 180 = 50%
    assert_eq!(checklist_progress(&list, None, ProgressMode::Auto), Some(50));
    assert_eq!(remaining_minutes(&list), Some(90));
    assert_eq!(count_done(&list), 2);
}

#[test]
fn without_estimates_every_line_weighs_the_same() {
    let list = vec![item(true, None), item(false, None), item(false, None)];
    assert_eq!(average_of(&list), 1);
    assert_eq!(checklist_progress(&list, None, ProgressMode::Auto), Some(33));
    assert_eq!(remaining_minutes(&list), None);
}

#[test]
fn progress_bounds() {
    // nothing done is 0, everything done is 100
    let none = vec![item(false, Some(10)), item(false, None)];
    assert_eq!(checklist_progress(&none, None, ProgressMode::Auto), Some(0));
    let all = vec![item(true, Some(10)), item(true, Some(0))];
    assert_eq!(checklist_progress(&all, None, ProgressMode::Auto), Some(100));
    // an empty checklist shows the manual value, capped at 100
    assert_eq!(checklist_progress(&vec![], Some(250), ProgressMode::Auto), Some(100));
    assert_eq!(checklist_progress(&vec![], None, ProgressMode::Manual), None);
    // a zero estimate still weighs one minute
    let zero = vec![item(true, Some(0)), item(false, Some(1))];
    assert_eq!(checklist_progress(&zero, None, ProgressMode::Auto), Some(50));
}

#[test]
fn checking_a_line_off_never_lowers_progress() {
    let before = vec![item(true, Some(10)), item(false, Some(50)), item(false, None)];
    let after = vec![item(true, Some(10)), item(true, Some(50)), item(false, None)];
    let a = checklist_progress(&before, None, ProgressMode::Auto).unwrap();
    let b = checklist_progress(&after, None, ProgressMode::Auto).unwrap();
    assert!(a <= b, "{a} > {b}");
}

#[test]
fn estimates_that_overflow_are_told_apart() {
    let ok = vec![item(true, Some(u32::MAX)), item(false, None)];
    assert!(checklist_fits(&ok));
    let over = vec![item(true, Some(u32::MAX)), item(false, Some(1))];
    assert!(!checklist_fits(&over));
    assert!(checklist_fits(&vec![]));
}
