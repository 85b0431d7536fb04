//! The records the application keeps per task folder and per configuration,
//! and the summaries it hands to the user interface.
use vstd::prelude::*;

verus! {

/// Where a task stands. `Done` means archived: it follows from where the folder lies.
#[derive(Clone, Copy, Debug, PartialEq, Eq, Structural)]
pub enum Status {
    Backlog,
    Doing,
    Done,
}

impl Default for Status {
    fn default() -> (r: Self)
        ensures
            r == Status::Backlog,
    {
        Status::Backlog
    }
}

/// Where the progress figure comes from: the checklist (`Auto`) or a value typed in (`Manual`).
#[derive(Clone, Copy, Debug, PartialEq, Eq, Structural)]
pub enum ProgressMode {
    Auto,
    Manual,
}

impl Default for ProgressMode {
    fn default() -> (r: Self)
        ensures
            r == ProgressMode::Auto,
    {
        ProgressMode::Auto
    }
}

/// One line of a task's checklist. `estimate_min` is the estimate in minutes;
/// lines without one are weighted by the average of the others (or evenly when none has one).
#[derive(Clone, Debug)]
pub struct ChecklistItem {
    pub text: String,
    pub done: bool,
    pub estimate_min: Option<u32>,
}

/// A reference to a place that cannot live inside the folder (a shared drive, a ticket URL).
/// An empty `label` means the URL itself is shown.
#[derive(Clone, Debug)]
pub struct TaskLink {
    pub url: String,
    pub label: String,
}

/// The metadata stored in each task folder, so that it follows the folder when moved by hand.
#[derive(Clone, Debug)]
pub struct TaskMeta {
    pub status: Status,
    pub tags: Vec<String>,
    pub due: Option<String>,
    pub memo: String,
    pub checklist: Vec<ChecklistItem>,
    /// The progress typed in by hand.
    pub progress: Option<u32>,
    pub progress_mode: ProgressMode,
    pub created_at: Option<String>,
    pub completed_at: Option<String>,
    /// When the task was put on hold; `None` when it is not on hold.
    pub on_hold_since: Option<String>,
    pub links: Vec<TaskLink>,
}

impl Default for TaskMeta {
    fn default() -> (r: Self)
        ensures
            r.status == Status::Backlog,
            r.tags@.len() == 0,
            r.due is None,
            r.memo@.len() == 0,
            r.checklist@.len() == 0,
            r.progress is None,
            r.progress_mode == ProgressMode::Auto,
            r.created_at is None,
            r.completed_at is None,
            r.on_hold_since is None,
            r.links@.len() == 0,
    {
        TaskMeta {
            status: Status::Backlog,
            tags: Vec::new(),
            due: None,
            memo: String::new(),
            checklist: Vec::new(),
            progress: None,
            progress_mode: ProgressMode::Auto,
            created_at: None,
            completed_at: None,
            on_hold_since: None,
            links: Vec::new(),
        }
    }
}

/// One task as the user interface shows it.
#[derive(Clone, Debug)]
pub struct Task {
    pub path: String,
    pub folder_name: String,
    pub name: String,
    pub date_prefix: Option<String>,
    pub status: Status,
    pub archived: bool,
    pub tags: Vec<String>,
    pub due: Option<String>,
    pub memo: String,
    pub checklist: Vec<ChecklistItem>,
    pub manual_progress: Option<u32>,
    pub progress_mode: ProgressMode,
    /// What is shown: the checklist's completion when there is a checklist, else the manual value.
    pub progress: Option<u32>,
    pub checklist_done: usize,
    pub checklist_total: usize,
    /// Minutes estimated for the lines not yet done; `None` when no line has an estimate.
    pub remaining_min: Option<u32>,
    pub created_at: Option<String>,
    pub completed_at: Option<String>,
    pub on_hold_since: Option<String>,
    pub links: Vec<TaskLink>,
    pub last_activity: Option<String>,
    /// Number of entries directly inside the folder.
    pub file_count: usize,
    /// Names for search, sub-folder contents included in the form `sub\file`.
    pub file_names: Vec<String>,
    pub stale: bool,
}

/// One entry of a folder listing.
#[derive(Clone, Debug)]
pub struct FolderEntry {
    /// Path relative to the task folder, sub-folder contents as `sub\file`.
    pub rel: String,
    pub is_dir: bool,
    pub size: u64,
    pub modified: Option<String>,
    /// The shell's icon for the entry's kind as a data URI, when one could be had.
    pub icon: Option<String>,
}

/// The contents of a folder. When a limit cut the walk short it says so,
/// so that the list is not taken for everything there is.
#[derive(Clone, Debug)]
pub struct FolderListing {
    pub entries: Vec<FolderEntry>,
    /// Some folder lay deeper than the depth limit.
    pub deeper_omitted: bool,
    /// The entry limit was reached.
    pub count_capped: bool,
}

/// The application's settings.
#[derive(Clone, Debug)]
pub struct AppConfig {
    pub work_root: Option<String>,
    pub archive_root: Option<String>,
    pub hotkey: String,
    pub stale_days: u32,
    pub template_files: Vec<String>,
    /// Replaces the window title and header text; an empty string removes it.
    pub display_name: Option<String>,
    /// Where old finished tasks are moved; never scanned.
    pub deep_archive_root: Option<String>,
    pub deep_archive_months: u32,
}

/// The fields of a task's metadata that the user interface may edit.
#[derive(Clone, Debug)]
pub struct MetaPatch {
    pub status: Status,
    pub tags: Vec<String>,
    pub due: Option<String>,
    pub memo: String,
    pub checklist: Vec<ChecklistItem>,
    pub manual_progress: Option<u32>,
    pub progress_mode: ProgressMode,
    /// Whether the task is to be on hold; the start time is stamped by whoever applies the patch.
    pub on_hold: bool,
}

pub fn default_deep_archive_months() -> (r: u32)
    ensures
        r == 6,
{
    6
}

pub fn default_hotkey() -> (r: String)
    ensures
        r@ == "Ctrl+Alt+KeyE"@,
{
    String::from_str("Ctrl+Alt+KeyE")
}

pub fn default_stale_days() -> (r: u32)
    ensures
        r == 14,
{
    14
}

pub fn default_templates() -> (r: Vec<String>)
    ensures
        r@.len() == 1,
        r@[0]@ == "メモ.md"@,
{
    let mut v: Vec<String> = Vec::new();
    v.push(String::from_str("メモ.md"));
    v
}

impl Default for AppConfig {
    fn default() -> (r: Self)
        ensures
            r.work_root is None,
            r.archive_root is None,
            r.hotkey@ == "Ctrl+Alt+KeyE"@,
            r.stale_days == 14,
            r.template_files@.len() == 1,
            r.template_files@[0]@ == "メモ.md"@,
            r.display_name is None,
            r.deep_archive_root is None,
            r.deep_archive_months == 6,
    {
        AppConfig {
            work_root: None,
            archive_root: None,
            hotkey: default_hotkey(),
            stale_days: default_stale_days(),
            template_files: default_templates(),
            display_name: None,
            deep_archive_root: None,
            deep_archive_months: default_deep_archive_months(),
        }
    }
}

} // verus!
