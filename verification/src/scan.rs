//! What the task list shows: which folders are tasks, and the summary of one task folder
//! from what was read in it.
use vstd::prelude::*;
use crate::model::{Status, Task, TaskMeta};
use crate::naming::{parse_folder_name, folder_name_parts, is_year_dir, is_year_name, is_task_dir_name, is_meta_entry, meta_file};
use crate::paths::{comps, is_within, same_path};
use crate::progress::{checklist_progress, count_done, remaining_minutes, progress_fits, progress_of, remaining_of, done_count};
use crate::text::concat;

verus! {

/// Nanoseconds in a day.
pub open spec fn nanos_per_day() -> int {
    86_400_000_000_000
}

/// The bound of the time stamps handled: chrono's dates span less than 2^80 nanoseconds.
pub open spec fn time_bound() -> int {
    0x1_0000_0000_0000_0000_0000
}

/// Left alone too long: not archived, not on hold, and the last activity lies more than
/// `stale_days` days before `now` (times in nanoseconds since the epoch).
pub open spec fn is_stale(archived: bool, on_hold: bool, last: Option<i128>, now: i128, stale_days: u32) -> bool {
    !archived && !on_hold && (last matches Some(t) && now - t > stale_days * nanos_per_day())
}

/// Whether a task counts as neglected. A task on hold never does: pausing it was a decision.
pub fn stale(archived: bool, on_hold: bool, last: Option<i128>, now: i128, stale_days: u32) -> (r: bool)
    requires
        -time_bound() <= now <= time_bound(),
        last matches Some(t) ==> -time_bound() <= t <= time_bound(),
    ensures
        r == is_stale(archived, on_hold, last, now, stale_days),
{
    if archived || on_hold {
        return false;
    }
    match last {
        Some(t) => now - t > (stale_days as i128) * 86_400_000_000_000i128,
        None => false,
    }
}

/// What was read in and about one task folder.
#[derive(Clone, Debug)]
pub struct TaskFacts {
    /// The folder's path as shown.
    pub path: String,
    /// The folder's own name.
    pub folder_name: String,
    /// Whether the folder lies in the archive.
    pub archived: bool,
    pub stale_days: u32,
    /// The folder's metadata (the default when missing or unreadable).
    pub meta: TaskMeta,
    /// Entries directly in the folder.
    pub file_count: usize,
    /// Names gathered for search.
    pub file_names: Vec<String>,
    /// The newest modification time found (nanoseconds since the epoch), and as shown.
    pub last_activity: Option<i128>,
    pub last_activity_text: Option<String>,
    pub now: i128,
    /// The start of the day of the folder's date prefix, as shown, when there is one.
    pub prefix_created: Option<String>,
    /// The folder's creation time as the file system records it, as shown.
    pub fs_created: Option<String>,
}

/// The facts are in range: the checklist's arithmetic fits and the times are chrono times.
pub open spec fn facts_fit(f: TaskFacts) -> bool {
    &&& progress_fits(f.meta.checklist@)
    &&& -time_bound() <= f.now <= time_bound()
    &&& f.last_activity matches Some(t) ==> -time_bound() <= t <= time_bound()
}

/// The creation time shown: from the metadata, else the day of the date prefix, else the file
/// system's.
pub open spec fn created_of(f: TaskFacts) -> Option<String> {
    if f.meta.created_at is Some {
        f.meta.created_at
    } else if f.prefix_created is Some {
        f.prefix_created
    } else {
        f.fs_created
    }
}

/// `t` is the summary of the task folder described by `f`.
pub open spec fn summarizes(f: TaskFacts, t: Task) -> bool {
    let parts = folder_name_parts(f.folder_name@);
    &&& t.path == f.path
    &&& t.folder_name == f.folder_name
    &&& t.name@ == parts.1
    &&& (t.date_prefix matches Some(p) ==> parts.0 == Some(p@))
    &&& (t.date_prefix is None ==> parts.0 is None)
    &&& t.status == (if f.archived { Status::Done } else { f.meta.status })
    &&& t.archived == f.archived
    &&& t.tags@ == f.meta.tags@
    &&& t.due == f.meta.due
    &&& t.memo == f.meta.memo
    &&& t.checklist@ == f.meta.checklist@
    &&& t.manual_progress == f.meta.progress
    &&& t.progress_mode == f.meta.progress_mode
    &&& t.progress == progress_of(f.meta.checklist@, f.meta.progress, f.meta.progress_mode)
    &&& t.checklist_done == done_count(f.meta.checklist@)
    &&& t.checklist_total == f.meta.checklist@.len()
    &&& t.remaining_min == remaining_of(f.meta.checklist@)
    &&& t.created_at == created_of(f)
    &&& t.completed_at == f.meta.completed_at
    &&& t.on_hold_since == f.meta.on_hold_since
    &&& t.links@ == f.meta.links@
    &&& t.last_activity == f.last_activity_text
    &&& t.file_count == f.file_count
    &&& t.file_names@ == f.file_names@
    &&& t.stale == is_stale(f.archived, f.meta.on_hold_since is Some, f.last_activity, f.now, f.stale_days)
}

/// Summarises one task folder from what was read in it: name and date prefix from the folder
/// name, progress from the checklist, whether it has been left alone too long, and when it was
/// created.
pub fn scan_task(f: TaskFacts) -> (t: Task)
    requires
        facts_fit(f),
    ensures
        summarizes(f, t),
{
    let ghost g = f;
    let (date_prefix, name) = parse_folder_name(f.folder_name.as_str());
    let progress = checklist_progress(&f.meta.checklist, f.meta.progress, f.meta.progress_mode);
    let checklist_done = count_done(&f.meta.checklist);
    let checklist_total = f.meta.checklist.len();
    let remaining_min = remaining_minutes(&f.meta.checklist);
    let is_stale = stale(f.archived, f.meta.on_hold_since.is_some(), f.last_activity, f.now, f.stale_days);
    let status = if f.archived { Status::Done } else { f.meta.status };
    let created_at = match f.meta.created_at {
        Some(c) => Some(c),
        None => match f.prefix_created {
            Some(p) => Some(p),
            None => f.fs_created,
        },
    };
    Task {
        path: f.path,
        folder_name: f.folder_name,
        name,
        date_prefix,
        status,
        archived: f.archived,
        tags: f.meta.tags,
        due: f.meta.due,
        memo: f.meta.memo,
        checklist: f.meta.checklist,
        manual_progress: f.meta.progress,
        progress_mode: f.meta.progress_mode,
        progress,
        checklist_done,
        checklist_total,
        remaining_min,
        created_at,
        completed_at: f.meta.completed_at,
        on_hold_since: f.meta.on_hold_since,
        links: f.meta.links,
        last_activity: f.last_activity_text,
        file_count: f.file_count,
        file_names: f.file_names,
        stale: is_stale,
    }
}

/// A task shows the status stored in its metadata unless it lies in the archive, where it is done.
pub proof fn lemma_status_is_the_stored_one(f: TaskFacts, t: Task)
    requires
        summarizes(f, t),
    ensures
        !f.archived ==> t.status == f.meta.status,
        f.archived ==> t.status == Status::Done,
{
}

/// The creation time shown is the one recorded in the metadata when there is one; else the day
/// of the folder's date prefix; else the time the file system records.
pub proof fn lemma_recorded_creation_time_comes_first(f: TaskFacts, t: Task)
    requires
        summarizes(f, t),
    ensures
        f.meta.created_at is Some ==> t.created_at == f.meta.created_at,
        f.meta.created_at is None && f.prefix_created is Some ==> t.created_at == f.prefix_created,
        f.meta.created_at is None && f.prefix_created is None ==> t.created_at == f.fs_created,
{
}

/// A task on hold is never reported as neglected, however long it has been left.
pub proof fn lemma_on_hold_is_never_stale(f: TaskFacts, t: Task)
    requires
        summarizes(f, t),
        f.meta.on_hold_since is Some,
    ensures
        !t.stale,
{
}

/// An archived task is shown as done, and never as neglected.
pub proof fn lemma_archived_is_done(f: TaskFacts, t: Task)
    requires
        summarizes(f, t),
        f.archived,
    ensures
        t.status == Status::Done,
        !t.stale,
{
}

/// The roots the task list reads, as configured (not resolved).
#[derive(Clone, Debug)]
pub struct ScanRoots {
    pub work: Option<Vec<String>>,
    pub archive: Option<Vec<String>>,
    pub deep: Option<Vec<String>>,
}

/// A folder found directly in the archive root, with its own sub-folders when it is a year
/// folder (and none otherwise: they are not read).
#[derive(Clone, Debug)]
pub struct ArchiveEntry {
    pub path: Vec<String>,
    pub children: Vec<Vec<String>>,
}

/// A folder to read as a task.
#[derive(Clone, Debug)]
pub struct ScanTarget {
    pub path: Vec<String>,
    pub archived: bool,
}

/// A sub-folder is taken as a task unless its name starts with `.`.
pub open spec fn is_task_dir(p: Seq<Seq<char>>) -> bool {
    p.len() > 0 && (p.last().len() == 0 || p.last()[0] != '.')
}

pub open spec fn is_root(p: Seq<Seq<char>>, root: Option<Vec<String>>) -> bool {
    root matches Some(r) && p == comps(r@)
}

/// The tasks in the work root: its sub-folders but the archive and the deep archive (which may
/// lie inside it).
pub open spec fn work_plan(dirs: Seq<Vec<String>>, roots: ScanRoots) -> Seq<(Seq<Seq<char>>, bool)>
    decreases dirs.len(),
{
    if dirs.len() == 0 {
        Seq::empty()
    } else {
        let r = work_plan(dirs.drop_last(), roots);
        let d = comps(dirs.last()@);
        if is_task_dir(d) && !is_root(d, roots.archive) && !is_root(d, roots.deep) {
            r.push((d, false))
        } else {
            r
        }
    }
}

/// The tasks among the sub-folders of a year folder.
pub open spec fn year_plan(dirs: Seq<Vec<String>>, roots: ScanRoots) -> Seq<(Seq<Seq<char>>, bool)>
    decreases dirs.len(),
{
    if dirs.len() == 0 {
        Seq::empty()
    } else {
        let r = year_plan(dirs.drop_last(), roots);
        let d = comps(dirs.last()@);
        if is_task_dir(d) && !is_root(d, roots.deep) {
            r.push((d, true))
        } else {
            r
        }
    }
}

/// The tasks in the archive: a year folder's sub-folders, any other folder itself; never the
/// deep archive.
pub open spec fn archive_plan(entries: Seq<ArchiveEntry>, roots: ScanRoots) -> Seq<(Seq<Seq<char>>, bool)>
    decreases entries.len(),
{
    if entries.len() == 0 {
        Seq::empty()
    } else {
        let r = archive_plan(entries.drop_last(), roots);
        let e = entries.last();
        let d = comps(e.path@);
        if is_task_dir(d) && !is_root(d, roots.deep) {
            if is_year_name(d.last()) {
                r + year_plan(e.children@, roots)
            } else {
                r.push((d, true))
            }
        } else {
            r
        }
    }
}

pub open spec fn targets_view(ts: Seq<ScanTarget>) -> Seq<(Seq<Seq<char>>, bool)> {
    ts.map_values(|t: ScanTarget| (comps(t.path@), t.archived))
}

fn is_task_dir_path(p: &Vec<String>) -> (r: bool)
    ensures
        r == is_task_dir(comps(p@)),
{
    if p.len() == 0 {
        return false;
    }
    is_task_dir_name(p[p.len() - 1].as_str())
}

fn is_root_path(p: &Vec<String>, root: &Option<Vec<String>>) -> (r: bool)
    ensures
        r == is_root(comps(p@), *root),
{
    match root {
        Some(r) => same_path(p, r),
        None => false,
    }
}

fn copy_path(p: &Vec<String>) -> (r: Vec<String>)
    ensures
        comps(r@) == comps(p@),
{
    let mut r: Vec<String> = Vec::new();
    let mut i: usize = 0;
    while i < p.len()
        invariant
            i <= p.len(),
            r@.len() == i,
            forall|k: int| 0 <= k < i ==> (#[trigger] r@[k])@ == p@[k]@,
        decreases p.len() - i,
    {
        r.push(p[i].clone());
        i += 1;
    }
    assert(comps(r@) =~= comps(p@));
    r
}

proof fn lemma_push_target(out: Seq<ScanTarget>, t: ScanTarget)
    ensures
        targets_view(out.push(t)) == targets_view(out).push((comps(t.path@), t.archived)),
{
    assert(targets_view(out.push(t)) =~= targets_view(out).push((comps(t.path@), t.archived)));
}

/// Plans the scan of the task list: the task folders of the work root (not archived), then
/// those of the archive (archived), where year folders are opened one level; the archive root
/// found in the work root and the deep archive, wherever it lies, are skipped.
pub fn scan_all(roots: &ScanRoots, work_dirs: &Vec<Vec<String>>, archive_dirs: &Vec<ArchiveEntry>) -> (r: Vec<ScanTarget>)
    ensures
        targets_view(r@) == work_plan(work_dirs@, *roots) + archive_plan(archive_dirs@, *roots),
{
    let mut out: Vec<ScanTarget> = Vec::new();
    let mut i: usize = 0;
    while i < work_dirs.len()
        invariant
            i <= work_dirs.len(),
            targets_view(out@) == work_plan(work_dirs@.take(i as int), *roots),
        decreases work_dirs.len() - i,
    {
        let d = &work_dirs[i];
        assert(work_dirs@.take(i + 1).drop_last() =~= work_dirs@.take(i as int));
        if is_task_dir_path(d) && !is_root_path(d, &roots.archive) && !is_root_path(d, &roots.deep) {
            let t = ScanTarget { path: copy_path(d), archived: false };
            proof {
                lemma_push_target(out@, t);
            }
            out.push(t);
        }
        i += 1;
    }
    assert(work_dirs@.take(work_dirs@.len() as int) =~= work_dirs@);
    let ghost w = out@;
    let mut j: usize = 0;
    while j < archive_dirs.len()
        invariant
            j <= archive_dirs.len(),
            targets_view(w) == work_plan(work_dirs@, *roots),
            out@.len() >= w.len(),
            out@.take(w.len() as int) == w,
            targets_view(out@.skip(w.len() as int)) == archive_plan(archive_dirs@.take(j as int), *roots),
        decreases archive_dirs.len() - j,
    {
        let e = &archive_dirs[j];
        assert(archive_dirs@.take(j + 1).drop_last() =~= archive_dirs@.take(j as int));
        let ghost before = out@;
        if is_task_dir_path(&e.path) && !is_root_path(&e.path, &roots.deep) {
            if is_year_dir(e.path[e.path.len() - 1].as_str()) {
                let mut k: usize = 0;
                while k < e.children.len()
                    invariant
                        k <= e.children.len(),
                        out@.len() >= before.len(),
                        out@.take(before.len() as int) == before,
                        targets_view(out@.skip(before.len() as int)) == year_plan(e.children@.take(k as int), *roots),
                    decreases e.children.len() - k,
                {
                    let c = &e.children[k];
                    assert(e.children@.take(k + 1).drop_last() =~= e.children@.take(k as int));
                    if is_task_dir_path(c) && !is_root_path(c, &roots.deep) {
                        let t = ScanTarget { path: copy_path(c), archived: true };
                        let ghost o = out@;
                        out.push(t);
                        proof {
                            assert(out@.skip(before.len() as int) =~= o.skip(before.len() as int).push(t));
                            lemma_push_target(o.skip(before.len() as int), t);
                            assert(out@.take(before.len() as int) =~= o.take(before.len() as int));
                        }
                    }
                    k += 1;
                }
                assert(e.children@.take(e.children@.len() as int) =~= e.children@);
                proof {
                    assert(out@.skip(w.len() as int) =~= before.skip(w.len() as int) + out@.skip(before.len() as int));
                    assert(targets_view(out@.skip(w.len() as int)) =~= targets_view(before.skip(w.len() as int)) + targets_view(out@.skip(before.len() as int)));
                    assert(out@.take(w.len() as int) =~= before.take(w.len() as int));
                }
            } else {
                let t = ScanTarget { path: copy_path(&e.path), archived: true };
                out.push(t);
                proof {
                    assert(out@.skip(w.len() as int) =~= before.skip(w.len() as int).push(t));
                    lemma_push_target(before.skip(w.len() as int), t);
                    assert(out@.take(w.len() as int) =~= before.take(w.len() as int));
                }
            }
        }
        j += 1;
    }
    assert(archive_dirs@.take(archive_dirs@.len() as int) =~= archive_dirs@);
    proof {
        assert(out@ =~= w + out@.skip(w.len() as int));
        assert(targets_view(out@) =~= targets_view(w) + targets_view(out@.skip(w.len() as int)));
    }
    out
}

/// A planned target is a task folder (its name does not start with `.`), is never the deep
/// archive, and, when taken from the work root, is not the archive root either.
pub open spec fn sound_target(t: (Seq<Seq<char>>, bool), roots: ScanRoots) -> bool {
    &&& is_task_dir(t.0)
    &&& !is_root(t.0, roots.deep)
    &&& (!t.1 ==> !is_root(t.0, roots.archive))
}

pub open spec fn all_sound(ts: Seq<(Seq<Seq<char>>, bool)>, roots: ScanRoots) -> bool {
    forall|i: int| 0 <= i < ts.len() ==> sound_target(#[trigger] ts[i], roots)
}

proof fn lemma_sound_push(ts: Seq<(Seq<Seq<char>>, bool)>, t: (Seq<Seq<char>>, bool), roots: ScanRoots)
    requires
        all_sound(ts, roots),
        sound_target(t, roots),
    ensures
        all_sound(ts.push(t), roots),
{
    assert forall|i: int| 0 <= i < ts.push(t).len() implies sound_target(#[trigger] ts.push(t)[i], roots) by {
        if i < ts.len() {
            assert(ts.push(t)[i] == ts[i]);
        }
    }
}

proof fn lemma_sound_concat(a: Seq<(Seq<Seq<char>>, bool)>, b: Seq<(Seq<Seq<char>>, bool)>, roots: ScanRoots)
    requires
        all_sound(a, roots),
        all_sound(b, roots),
    ensures
        all_sound(a + b, roots),
{
    assert forall|i: int| 0 <= i < (a + b).len() implies sound_target(#[trigger] (a + b)[i], roots) by {
        if i < a.len() {
            assert((a + b)[i] == a[i]);
        } else {
            assert((a + b)[i] == b[i - a.len()]);
        }
    }
}

proof fn lemma_work_plan_sound(dirs: Seq<Vec<String>>, roots: ScanRoots)
    ensures
        all_sound(work_plan(dirs, roots), roots),
        forall|i: int| 0 <= i < work_plan(dirs, roots).len() ==> !(#[trigger] work_plan(dirs, roots)[i]).1,
    decreases dirs.len(),
{
    if dirs.len() > 0 {
        lemma_work_plan_sound(dirs.drop_last(), roots);
        let r = work_plan(dirs.drop_last(), roots);
        let d = comps(dirs.last()@);
        if is_task_dir(d) && !is_root(d, roots.archive) && !is_root(d, roots.deep) {
            lemma_sound_push(r, (d, false), roots);
            assert forall|i: int| 0 <= i < r.push((d, false)).len() implies !(#[trigger] r.push((d, false))[i]).1 by {
                if i < r.len() {
                    assert(r.push((d, false))[i] == r[i]);
                }
            }
        }
    }
}

proof fn lemma_year_plan_sound(dirs: Seq<Vec<String>>, roots: ScanRoots)
    ensures
        all_sound(year_plan(dirs, roots), roots),
    decreases dirs.len(),
{
    if dirs.len() > 0 {
        lemma_year_plan_sound(dirs.drop_last(), roots);
        let d = comps(dirs.last()@);
        if is_task_dir(d) && !is_root(d, roots.deep) {
            lemma_sound_push(year_plan(dirs.drop_last(), roots), (d, true), roots);
        }
    }
}

proof fn lemma_archive_plan_sound(entries: Seq<ArchiveEntry>, roots: ScanRoots)
    ensures
        all_sound(archive_plan(entries, roots), roots),
        forall|i: int| 0 <= i < archive_plan(entries, roots).len() ==> (#[trigger] archive_plan(entries, roots)[i]).1,
    decreases entries.len(),
{
    if entries.len() > 0 {
        lemma_archive_plan_sound(entries.drop_last(), roots);
        let r = archive_plan(entries.drop_last(), roots);
        let e = entries.last();
        let d = comps(e.path@);
        if is_task_dir(d) && !is_root(d, roots.deep) {
            if is_year_name(d.last()) {
                lemma_year_plan_sound(e.children@, roots);
                lemma_year_plan_archived(e.children@, roots);
                lemma_sound_concat(r, year_plan(e.children@, roots), roots);
                let y = year_plan(e.children@, roots);
                assert forall|i: int| 0 <= i < (r + y).len() implies (#[trigger] (r + y)[i]).1 by {
                    if i < r.len() {
                        assert((r + y)[i] == r[i]);
                    } else {
                        assert((r + y)[i] == y[i - r.len()]);
                    }
                }
            } else {
                lemma_sound_push(r, (d, true), roots);
                assert forall|i: int| 0 <= i < r.push((d, true)).len() implies (#[trigger] r.push((d, true))[i]).1 by {
                    if i < r.len() {
                        assert(r.push((d, true))[i] == r[i]);
                    }
                }
            }
        }
    }
}

proof fn lemma_year_plan_archived(dirs: Seq<Vec<String>>, roots: ScanRoots)
    ensures
        forall|i: int| 0 <= i < year_plan(dirs, roots).len() ==> (#[trigger] year_plan(dirs, roots)[i]).1,
    decreases dirs.len(),
{
    if dirs.len() > 0 {
        lemma_year_plan_archived(dirs.drop_last(), roots);
        let r = year_plan(dirs.drop_last(), roots);
        let d = comps(dirs.last()@);
        if is_task_dir(d) && !is_root(d, roots.deep) {
            assert forall|i: int| 0 <= i < r.push((d, true)).len() implies (#[trigger] r.push((d, true))[i]).1 by {
                if i < r.len() {
                    assert(r.push((d, true))[i] == r[i]);
                }
            }
        }
    }
}

/// The scan never reads the deep archive (cold storage) nor a folder whose name starts with
/// `.`; it never takes the archive root for a task of the work root; what it finds in the work
/// root is shown as not archived, what it finds in the archive as archived.
pub proof fn lemma_scan_plan_sound(work_dirs: Seq<Vec<String>>, archive_dirs: Seq<ArchiveEntry>, roots: ScanRoots)
    ensures
        all_sound(work_plan(work_dirs, roots) + archive_plan(archive_dirs, roots), roots),
        forall|i: int| 0 <= i < work_plan(work_dirs, roots).len() ==> !(#[trigger] (work_plan(work_dirs, roots) + archive_plan(archive_dirs, roots))[i]).1,
        forall|i: int| work_plan(work_dirs, roots).len() <= i < work_plan(work_dirs, roots).len() + archive_plan(archive_dirs, roots).len() ==> (#[trigger] (work_plan(work_dirs, roots) + archive_plan(archive_dirs, roots))[i]).1,
{
    let a = work_plan(work_dirs, roots);
    let b = archive_plan(archive_dirs, roots);
    lemma_work_plan_sound(work_dirs, roots);
    lemma_archive_plan_sound(archive_dirs, roots);
    lemma_sound_concat(a, b, roots);
    assert forall|i: int| 0 <= i < a.len() implies !(#[trigger] (a + b)[i]).1 by {
        assert((a + b)[i] == a[i]);
    }
    assert forall|i: int| a.len() <= i < a.len() + b.len() implies (#[trigger] (a + b)[i]).1 by {
        assert((a + b)[i] == b[i - a.len()]);
    }
}

/// `t` is one of the folders `dirs` lists.
pub open spec fn listed_in(t: (Seq<Seq<char>>, bool), dirs: Seq<Vec<String>>) -> bool {
    exists|i: int| 0 <= i < dirs.len() && t.0 == comps(#[trigger] dirs[i]@)
}

/// A folder of the work root that is read as a task.
pub open spec fn work_task(d: Seq<Seq<char>>, roots: ScanRoots) -> bool {
    is_task_dir(d) && !is_root(d, roots.archive) && !is_root(d, roots.deep)
}

/// A folder of a year folder, or of the archive root, that is read as a task.
pub open spec fn archive_task(d: Seq<Seq<char>>, roots: ScanRoots) -> bool {
    is_task_dir(d) && !is_root(d, roots.deep)
}

proof fn lemma_listed_extend(t: (Seq<Seq<char>>, bool), dirs: Seq<Vec<String>>)
    requires
        dirs.len() > 0,
        listed_in(t, dirs.drop_last()),
    ensures
        listed_in(t, dirs),
{
    let i = choose|i: int| 0 <= i < dirs.drop_last().len() && t.0 == comps(#[trigger] dirs.drop_last()[i]@);
    assert(dirs.drop_last()[i] == dirs[i]);
}

/// Every listed folder of the work root that is read as a task is in the plan, once listed, and
/// nothing else is.
pub proof fn lemma_work_plan_exact(dirs: Seq<Vec<String>>, roots: ScanRoots)
    ensures
        forall|i: int| 0 <= i < dirs.len() && work_task(comps(dirs[i]@), roots)
            ==> work_plan(dirs, roots).contains((comps(#[trigger] dirs[i]@), false)),
        forall|j: int| 0 <= j < work_plan(dirs, roots).len()
            ==> listed_in(#[trigger] work_plan(dirs, roots)[j], dirs),
    decreases dirs.len(),
{
    if dirs.len() > 0 {
        let prev = dirs.drop_last();
        lemma_work_plan_exact(prev, roots);
        let r = work_plan(prev, roots);
        let d = comps(dirs.last()@);
        let plan = work_plan(dirs, roots);
        assert forall|i: int| 0 <= i < dirs.len() && work_task(comps(dirs[i]@), roots)
            implies plan.contains((comps(#[trigger] dirs[i]@), false)) by {
            if i < prev.len() {
                assert(prev[i] == dirs[i]);
                let j = choose|j: int| 0 <= j < r.len() && r[j] == (comps(prev[i]@), false);
                if work_task(d, roots) {
                    assert(plan[j] == r[j]);
                } else {
                    assert(plan == r);
                }
            } else {
                assert(plan[plan.len() - 1] == (d, false));
            }
        }
        assert forall|j: int| 0 <= j < plan.len() implies listed_in(#[trigger] plan[j], dirs) by {
            if j < r.len() {
                if work_task(d, roots) {
                    assert(plan[j] == r[j]);
                }
                lemma_listed_extend(plan[j], dirs);
            } else {
                assert(plan[j] == (d, false));
                assert(plan[j].0 == comps(dirs[dirs.len() - 1]@));
            }
        }
    }
}

/// Every listed folder of a year folder that is read as a task is in its plan, and nothing else is.
pub proof fn lemma_year_plan_exact(dirs: Seq<Vec<String>>, roots: ScanRoots)
    ensures
        forall|i: int| 0 <= i < dirs.len() && archive_task(comps(dirs[i]@), roots)
            ==> year_plan(dirs, roots).contains((comps(#[trigger] dirs[i]@), true)),
        forall|j: int| 0 <= j < year_plan(dirs, roots).len()
            ==> listed_in(#[trigger] year_plan(dirs, roots)[j], dirs),
    decreases dirs.len(),
{
    if dirs.len() > 0 {
        let prev = dirs.drop_last();
        lemma_year_plan_exact(prev, roots);
        let r = year_plan(prev, roots);
        let d = comps(dirs.last()@);
        let plan = year_plan(dirs, roots);
        assert forall|i: int| 0 <= i < dirs.len() && archive_task(comps(dirs[i]@), roots)
            implies plan.contains((comps(#[trigger] dirs[i]@), true)) by {
            if i < prev.len() {
                assert(prev[i] == dirs[i]);
                let j = choose|j: int| 0 <= j < r.len() && r[j] == (comps(prev[i]@), true);
                if archive_task(d, roots) {
                    assert(plan[j] == r[j]);
                } else {
                    assert(plan == r);
                }
            } else {
                assert(plan[plan.len() - 1] == (d, true));
            }
        }
        assert forall|j: int| 0 <= j < plan.len() implies listed_in(#[trigger] plan[j], dirs) by {
            if j < r.len() {
                if archive_task(d, roots) {
                    assert(plan[j] == r[j]);
                }
                lemma_listed_extend(plan[j], dirs);
            } else {
                assert(plan[j] == (d, true));
                assert(plan[j].0 == comps(dirs[dirs.len() - 1]@));
            }
        }
    }
}

/// `t` is one of the archive's entries that is no year folder, or one of the listed folders of a
/// year folder that is read.
pub open spec fn found_in_archive(t: (Seq<Seq<char>>, bool), entries: Seq<ArchiveEntry>, roots: ScanRoots) -> bool {
    exists|i: int| 0 <= i < entries.len() && from_entry(t, #[trigger] entries[i], roots)
}

pub open spec fn from_entry(t: (Seq<Seq<char>>, bool), e: ArchiveEntry, roots: ScanRoots) -> bool {
    let d = comps(e.path@);
    ||| t.0 == d && !is_year_name(d.last())
    ||| archive_task(d, roots) && is_year_name(d.last()) && listed_in(t, e.children@)
}

proof fn lemma_found_extend(t: (Seq<Seq<char>>, bool), entries: Seq<ArchiveEntry>, roots: ScanRoots)
    requires
        entries.len() > 0,
        found_in_archive(t, entries.drop_last(), roots),
    ensures
        found_in_archive(t, entries, roots),
{
    let i = choose|i: int| 0 <= i < entries.drop_last().len() && from_entry(t, #[trigger] entries.drop_last()[i], roots);
    assert(entries.drop_last()[i] == entries[i]);
}

/// The archive's plan holds every entry that is read as a task and is not a year folder, every
/// listed folder of a year folder that is read as a task, and nothing else.
pub proof fn lemma_archive_plan_exact(entries: Seq<ArchiveEntry>, roots: ScanRoots)
    ensures
        forall|i: int| 0 <= i < entries.len() && archive_task(comps(entries[i].path@), roots)
            && !is_year_name(comps(entries[i].path@).last())
            ==> archive_plan(entries, roots).contains((comps(#[trigger] entries[i].path@), true)),
        forall|i: int, k: int| 0 <= i < entries.len() && archive_task(comps(entries[i].path@), roots)
            && is_year_name(comps(entries[i].path@).last()) && 0 <= k < entries[i].children@.len()
            && archive_task(comps(entries[i].children@[k]@), roots)
            ==> archive_plan(entries, roots).contains((comps(#[trigger] entries[i].children@[k]@), true)),
        forall|j: int| 0 <= j < archive_plan(entries, roots).len()
            ==> found_in_archive(#[trigger] archive_plan(entries, roots)[j], entries, roots),
    decreases entries.len(),
{
    if entries.len() > 0 {
        let prev = entries.drop_last();
        lemma_archive_plan_exact(prev, roots);
        let r = archive_plan(prev, roots);
        let e = entries.last();
        let d = comps(e.path@);
        let plan = archive_plan(entries, roots);
        let year = archive_task(d, roots) && is_year_name(d.last());
        let single = archive_task(d, roots) && !is_year_name(d.last());
        let y = year_plan(e.children@, roots);
        lemma_year_plan_exact(e.children@, roots);
        assert(year ==> plan == r + y);
        assert(single ==> plan == r.push((d, true)));
        assert(!year && !single ==> plan == r);
        assert forall|j: int| 0 <= j < r.len() implies plan[j] == r[j] by {
            if year {
                assert((r + y)[j] == r[j]);
            }
        }
        assert forall|i: int| 0 <= i < entries.len() && archive_task(comps(entries[i].path@), roots)
            && !is_year_name(comps(entries[i].path@).last())
            implies plan.contains((comps(#[trigger] entries[i].path@), true)) by {
            if i < prev.len() {
                assert(prev[i] == entries[i]);
                let j = choose|j: int| 0 <= j < r.len() && r[j] == (comps(prev[i].path@), true);
                assert(plan[j] == r[j]);
            } else {
                assert(plan[plan.len() - 1] == (d, true));
            }
        }
        assert forall|i: int, k: int| 0 <= i < entries.len() && archive_task(comps(entries[i].path@), roots)
            && is_year_name(comps(entries[i].path@).last()) && 0 <= k < entries[i].children@.len()
            && archive_task(comps(entries[i].children@[k]@), roots)
            implies plan.contains((comps(#[trigger] entries[i].children@[k]@), true)) by {
            if i < prev.len() {
                assert(prev[i] == entries[i]);
                let j = choose|j: int| 0 <= j < r.len() && r[j] == (comps(prev[i].children@[k]@), true);
                assert(plan[j] == r[j]);
            } else {
                let j = choose|j: int| 0 <= j < y.len() && y[j] == (comps(e.children@[k]@), true);
                assert((r + y)[r.len() + j] == y[j]);
            }
        }
        assert forall|j: int| 0 <= j < plan.len() implies found_in_archive(#[trigger] plan[j], entries, roots) by {
            if j < r.len() {
                lemma_found_extend(plan[j], entries, roots);
            } else if single {
                assert(plan[j] == (d, true));
                assert(from_entry(plan[j], entries[entries.len() - 1], roots));
            } else {
                assert(year);
                assert(plan[j] == y[j - r.len()]);
                assert(listed_in(plan[j], entries[entries.len() - 1].children@));
                assert(from_entry(plan[j], entries[entries.len() - 1], roots));
            }
        }
    }
}

/// The scan reads exactly the listed folders that are tasks: each folder of the work root that is
/// read as a task comes out once listed, not archived; each entry of the archive that is read as a
/// task and is no year folder, and each folder of a year folder that is read as a task, comes out
/// archived; every target is one of the listed folders, the work root's first.
pub proof fn lemma_scan_targets_exact(work_dirs: Seq<Vec<String>>, archive_dirs: Seq<ArchiveEntry>, roots: ScanRoots)
    ensures
        ({
            let w = work_plan(work_dirs, roots);
            let a = archive_plan(archive_dirs, roots);
            &&& forall|i: int| 0 <= i < work_dirs.len() && work_task(comps(work_dirs[i]@), roots)
                ==> (w + a).contains((comps(#[trigger] work_dirs[i]@), false))
            &&& forall|i: int| 0 <= i < archive_dirs.len() && archive_task(comps(archive_dirs[i].path@), roots)
                && !is_year_name(comps(archive_dirs[i].path@).last())
                ==> (w + a).contains((comps(#[trigger] archive_dirs[i].path@), true))
            &&& forall|i: int, k: int| 0 <= i < archive_dirs.len()
                && archive_task(comps(archive_dirs[i].path@), roots)
                && is_year_name(comps(archive_dirs[i].path@).last()) && 0 <= k < archive_dirs[i].children@.len()
                && archive_task(comps(archive_dirs[i].children@[k]@), roots)
                ==> (w + a).contains((comps(#[trigger] archive_dirs[i].children@[k]@), true))
            &&& forall|j: int| 0 <= j < w.len() ==> listed_in(#[trigger] (w + a)[j], work_dirs)
            &&& forall|j: int| w.len() <= j < w.len() + a.len() ==> found_in_archive(#[trigger] (w + a)[j], archive_dirs, roots)
        }),
{
    let w = work_plan(work_dirs, roots);
    let a = archive_plan(archive_dirs, roots);
    lemma_work_plan_exact(work_dirs, roots);
    lemma_archive_plan_exact(archive_dirs, roots);
    assert forall|i: int| 0 <= i < work_dirs.len() && work_task(comps(work_dirs[i]@), roots)
        implies (w + a).contains((comps(#[trigger] work_dirs[i]@), false)) by {
        let j = choose|j: int| 0 <= j < w.len() && w[j] == (comps(work_dirs[i]@), false);
        assert((w + a)[j] == w[j]);
    }
    assert forall|i: int| 0 <= i < archive_dirs.len() && archive_task(comps(archive_dirs[i].path@), roots)
        && !is_year_name(comps(archive_dirs[i].path@).last())
        implies (w + a).contains((comps(#[trigger] archive_dirs[i].path@), true)) by {
        let j = choose|j: int| 0 <= j < a.len() && a[j] == (comps(archive_dirs[i].path@), true);
        assert((w + a)[w.len() + j] == a[j]);
    }
    assert forall|i: int, k: int| 0 <= i < archive_dirs.len()
        && archive_task(comps(archive_dirs[i].path@), roots)
        && is_year_name(comps(archive_dirs[i].path@).last()) && 0 <= k < archive_dirs[i].children@.len()
        && archive_task(comps(archive_dirs[i].children@[k]@), roots)
        implies (w + a).contains((comps(#[trigger] archive_dirs[i].children@[k]@), true)) by {
        let j = choose|j: int| 0 <= j < a.len() && a[j] == (comps(archive_dirs[i].children@[k]@), true);
        assert((w + a)[w.len() + j] == a[j]);
    }
    assert forall|j: int| 0 <= j < w.len() implies listed_in(#[trigger] (w + a)[j], work_dirs) by {
        assert((w + a)[j] == w[j]);
    }
    assert forall|j: int| w.len() <= j < w.len() + a.len() implies found_in_archive(#[trigger] (w + a)[j], archive_dirs, roots) by {
        assert((w + a)[j] == a[j - w.len()]);
    }
}

/// `d` is a folder directly inside `parent`.
pub open spec fn child_of(d: Seq<Seq<char>>, parent: Seq<Seq<char>>) -> bool {
    d.len() == parent.len() + 1 && d.take(parent.len() as int) == parent
}

/// The listings are what lies directly inside the roots: each folder of the work root, and each
/// entry of the archive, is its root's path and one more name, and each folder listed for an
/// entry is that entry's path and one more name.
pub open spec fn listings_of_roots(work_dirs: Seq<Vec<String>>, archive_dirs: Seq<ArchiveEntry>, roots: ScanRoots) -> bool {
    &&& forall|i: int| 0 <= i < work_dirs.len()
        ==> (roots.work matches Some(w) && child_of(comps(#[trigger] work_dirs[i]@), comps(w@)))
    &&& forall|i: int| 0 <= i < archive_dirs.len()
        ==> (roots.archive matches Some(a) && child_of(comps(#[trigger] archive_dirs[i].path@), comps(a@)))
    &&& forall|i: int, k: int| 0 <= i < archive_dirs.len() && 0 <= k < archive_dirs[i].children@.len()
        ==> child_of(comps(#[trigger] archive_dirs[i].children@[k]@), comps(archive_dirs[i].path@))
}

/// Neither the work root nor the archive root lies in the deep archive.
pub open spec fn roots_outside_deep(roots: ScanRoots) -> bool {
    roots.deep matches Some(d) ==> {
        &&& roots.work matches Some(w) ==> !is_within(comps(w@), comps(d@))
        &&& roots.archive matches Some(a) ==> !is_within(comps(a@), comps(d@))
    }
}

proof fn lemma_child_outside(t: Seq<Seq<char>>, parent: Seq<Seq<char>>, deep: Seq<Seq<char>>)
    requires
        child_of(t, parent),
        !is_within(parent, deep),
        t != deep,
    ensures
        !is_within(t, deep),
{
    if is_within(t, deep) {
        if deep.len() == t.len() {
            assert(t.take(deep.len() as int) =~= t);
        } else {
            assert(parent.take(deep.len() as int) =~= t.take(deep.len() as int));
        }
    }
}

/// Where the scan's tasks lie, when it is handed what lies inside the roots and neither root is
/// in the deep archive: no task lies in the deep archive, none is the archive root, no task's
/// name starts with `.`; the work root's tasks come first, not archived, each directly inside
/// the work root; the rest are archived, each either directly inside the archive root and not a
/// year folder, or directly inside a year folder that lies directly inside the archive root.
pub proof fn lemma_scan_places(work_dirs: Seq<Vec<String>>, archive_dirs: Seq<ArchiveEntry>, roots: ScanRoots)
    requires
        listings_of_roots(work_dirs, archive_dirs, roots),
        roots_outside_deep(roots),
    ensures
        ({
            let w = work_plan(work_dirs, roots);
            let ts = w + archive_plan(archive_dirs, roots);
            forall|j: int| 0 <= j < ts.len() ==> {
                &&& roots.deep matches Some(d) ==> !is_within(#[trigger] ts[j].0, comps(d@))
                &&& roots.archive matches Some(a) ==> ts[j].0 != comps(a@)
                &&& is_task_dir(ts[j].0)
                &&& j < w.len() ==> !ts[j].1 && (roots.work matches Some(r) && child_of(ts[j].0, comps(r@)))
                &&& j >= w.len() ==> ts[j].1 && (roots.archive matches Some(a) && (
                    (child_of(ts[j].0, comps(a@)) && !is_year_name(ts[j].0.last()))
                    || (child_of(ts[j].0.drop_last(), comps(a@)) && is_year_name(ts[j].0.drop_last().last())
                        && child_of(ts[j].0, ts[j].0.drop_last()))))
            }
        }),
{
    let w = work_plan(work_dirs, roots);
    let a = archive_plan(archive_dirs, roots);
    let ts = w + a;
    lemma_scan_targets_exact(work_dirs, archive_dirs, roots);
    lemma_scan_plan_sound(work_dirs, archive_dirs, roots);
    assert forall|j: int| 0 <= j < ts.len() implies {
        &&& roots.deep matches Some(d) ==> !is_within(#[trigger] ts[j].0, comps(d@))
        &&& roots.archive matches Some(a) ==> ts[j].0 != comps(a@)
        &&& is_task_dir(ts[j].0)
        &&& j < w.len() ==> !ts[j].1 && (roots.work matches Some(r) && child_of(ts[j].0, comps(r@)))
        &&& j >= w.len() ==> ts[j].1 && (roots.archive matches Some(a) && (
            (child_of(ts[j].0, comps(a@)) && !is_year_name(ts[j].0.last()))
            || (child_of(ts[j].0.drop_last(), comps(a@)) && is_year_name(ts[j].0.drop_last().last())
                && child_of(ts[j].0, ts[j].0.drop_last()))))
    } by {
        let t = ts[j];
        assert(sound_target(t, roots));
        if j < w.len() {
            assert(listed_in(t, work_dirs));
            let i = choose|i: int| 0 <= i < work_dirs.len() && t.0 == comps(#[trigger] work_dirs[i]@);
            assert(child_of(comps(work_dirs[i]@), comps(roots.work->0@)));
            if roots.deep is Some {
                lemma_child_outside(t.0, comps(roots.work->0@), comps(roots.deep->0@));
            }
        } else {
            assert(found_in_archive(t, archive_dirs, roots));
            let i = choose|i: int| 0 <= i < archive_dirs.len() && from_entry(t, #[trigger] archive_dirs[i], roots);
            let e = archive_dirs[i];
            let d = comps(e.path@);
            let ar = comps(roots.archive->0@);
            assert(child_of(d, ar));
            if t.0 == d && !is_year_name(d.last()) {
                if roots.deep is Some {
                    lemma_child_outside(t.0, ar, comps(roots.deep->0@));
                }
            } else {
                assert(listed_in(t, e.children@));
                let k = choose|k: int| 0 <= k < e.children@.len() && t.0 == comps(#[trigger] e.children@[k]@);
                assert(child_of(comps(archive_dirs[i].children@[k]@), comps(archive_dirs[i].path@)));
                assert(t.0.drop_last() =~= d);
                if roots.deep is Some {
                    lemma_child_outside(d, ar, comps(roots.deep->0@));
                    lemma_child_outside(t.0, d, comps(roots.deep->0@));
                }
            }
        }
    }
}

/// No two items of `s` are the same.
pub open spec fn no_repeats<T>(s: Seq<T>) -> bool {
    forall|i: int, j: int| 0 <= i < j < s.len() ==> s[i] != s[j]
}

/// No folder is listed twice: the work root's folders differ, the archive's entries differ, and
/// each entry's folders differ.
pub open spec fn listed_once(work_dirs: Seq<Vec<String>>, archive_dirs: Seq<ArchiveEntry>) -> bool {
    &&& forall|i: int, j: int| 0 <= i < j < work_dirs.len()
        ==> comps(#[trigger] work_dirs[i]@) != comps(#[trigger] work_dirs[j]@)
    &&& forall|i: int, j: int| 0 <= i < j < archive_dirs.len()
        ==> comps(#[trigger] archive_dirs[i].path@) != comps(#[trigger] archive_dirs[j].path@)
    &&& forall|i: int, k: int, l: int| 0 <= i < archive_dirs.len() && 0 <= k < l < archive_dirs[i].children@.len()
        ==> comps(#[trigger] archive_dirs[i].children@[k]@) != comps(#[trigger] archive_dirs[i].children@[l]@)
}

proof fn lemma_push_no_repeats<T>(r: Seq<T>, x: T)
    requires
        no_repeats(r),
        !r.contains(x),
    ensures
        no_repeats(r.push(x)),
{
    assert forall|i: int, j: int| 0 <= i < j < r.push(x).len() implies r.push(x)[i] != r.push(x)[j] by {
        assert(r.push(x)[i] == r[i]);
        if j == r.len() {
            assert(r.contains(r[i]));
        } else {
            assert(r.push(x)[j] == r[j]);
        }
    }
}

proof fn lemma_plan_no_repeats(dirs: Seq<Vec<String>>, roots: ScanRoots, archived: bool)
    requires
        forall|i: int, j: int| 0 <= i < j < dirs.len() ==> comps(#[trigger] dirs[i]@) != comps(#[trigger] dirs[j]@),
    ensures
        !archived ==> no_repeats(work_plan(dirs, roots)),
        archived ==> no_repeats(year_plan(dirs, roots)),
    decreases dirs.len(),
{
    if dirs.len() > 0 {
        let prev = dirs.drop_last();
        assert forall|i: int, j: int| 0 <= i < j < prev.len() implies comps(#[trigger] prev[i]@) != comps(#[trigger] prev[j]@) by {
            assert(prev[i] == dirs[i] && prev[j] == dirs[j]);
        }
        lemma_plan_no_repeats(prev, roots, archived);
        let d = comps(dirs.last()@);
        let r = if archived { year_plan(prev, roots) } else { work_plan(prev, roots) };
        if archived {
            lemma_year_plan_exact(prev, roots);
        } else {
            lemma_work_plan_exact(prev, roots);
        }
        let x = (d, archived);
        if r.contains(x) {
            let j = choose|j: int| 0 <= j < r.len() && r[j] == x;
            assert(listed_in(r[j], prev));
            let i = choose|i: int| 0 <= i < prev.len() && r[j].0 == comps(#[trigger] prev[i]@);
            assert(prev[i] == dirs[i]);
            assert(dirs[dirs.len() - 1] == dirs.last());
            assert(false);
        }
        if !r.contains(x) {
            lemma_push_no_repeats(r, x);
        }
    }
}

proof fn lemma_archive_no_repeats(entries: Seq<ArchiveEntry>, roots: ScanRoots, ar: Seq<Seq<char>>)
    requires
        forall|i: int| 0 <= i < entries.len() ==> child_of(comps(#[trigger] entries[i].path@), ar),
        forall|i: int, k: int| 0 <= i < entries.len() && 0 <= k < entries[i].children@.len()
            ==> child_of(comps(#[trigger] entries[i].children@[k]@), comps(entries[i].path@)),
        forall|i: int, j: int| 0 <= i < j < entries.len()
            ==> comps(#[trigger] entries[i].path@) != comps(#[trigger] entries[j].path@),
        forall|i: int, k: int, l: int| 0 <= i < entries.len() && 0 <= k < l < entries[i].children@.len()
            ==> comps(#[trigger] entries[i].children@[k]@) != comps(#[trigger] entries[i].children@[l]@),
    ensures
        no_repeats(archive_plan(entries, roots)),
        forall|j: int| 0 <= j < archive_plan(entries, roots).len() ==> {
            let t = #[trigger] archive_plan(entries, roots)[j];
            ||| exists|i: int| 0 <= i < entries.len() && t.0 == comps(#[trigger] entries[i].path@)
            ||| exists|i: int| 0 <= i < entries.len() && t.0.len() == ar.len() + 2
                && t.0.take(ar.len() + 1 as int) == comps(#[trigger] entries[i].path@)
        },
    decreases entries.len(),
{
    if entries.len() > 0 {
        let prev = entries.drop_last();
        let n = entries.len() - 1;
        assert forall|i: int| 0 <= i < prev.len() implies child_of(comps(#[trigger] prev[i].path@), ar) by {
            assert(prev[i] == entries[i]);
        }
        assert forall|i: int, k: int| 0 <= i < prev.len() && 0 <= k < prev[i].children@.len()
            implies child_of(comps(#[trigger] prev[i].children@[k]@), comps(prev[i].path@)) by {
            assert(prev[i] == entries[i]);
        }
        assert forall|i: int, j: int| 0 <= i < j < prev.len()
            implies comps(#[trigger] prev[i].path@) != comps(#[trigger] prev[j].path@) by {
            assert(prev[i] == entries[i] && prev[j] == entries[j]);
        }
        assert forall|i: int, k: int, l: int| 0 <= i < prev.len() && 0 <= k < l < prev[i].children@.len()
            implies comps(#[trigger] prev[i].children@[k]@) != comps(#[trigger] prev[i].children@[l]@) by {
            assert(prev[i] == entries[i]);
        }
        lemma_archive_no_repeats(prev, roots, ar);
        let r = archive_plan(prev, roots);
        let e = entries[n];
        assert(entries.last() == e);
        let d = comps(e.path@);
        assert(child_of(d, ar));
        let plan = archive_plan(entries, roots);
        // where the plan's items from the earlier entries lie
        assert forall|j: int| 0 <= j < r.len() implies {
            let t = r[j];
            ||| exists|i: int| 0 <= i < entries.len() && t.0 == comps(#[trigger] entries[i].path@)
            ||| exists|i: int| 0 <= i < entries.len() && t.0.len() == ar.len() + 2
                && t.0.take(ar.len() + 1 as int) == comps(#[trigger] entries[i].path@)
        } && r[j].0 != d && r[j].0.take(ar.len() + 1 as int) != d by {
            let t = r[j];
            assert(t == archive_plan(prev, roots)[j]);
            if exists|i: int| 0 <= i < prev.len() && t.0 == comps(#[trigger] prev[i].path@) {
                let i = choose|i: int| 0 <= i < prev.len() && t.0 == comps(#[trigger] prev[i].path@);
                assert(prev[i] == entries[i]);
                assert(comps(entries[i].path@) != comps(entries[n].path@));
                assert(t.0.len() == ar.len() + 1);
                assert(t.0.take(ar.len() + 1 as int) =~= t.0);
            } else {
                let i = choose|i: int| 0 <= i < prev.len() && t.0.len() == ar.len() + 2
                    && t.0.take(ar.len() + 1 as int) == comps(#[trigger] prev[i].path@);
                assert(prev[i] == entries[i]);
                assert(comps(entries[i].path@) != comps(entries[n].path@));
            }
        }
        if archive_task(d, roots) {
            if is_year_name(d.last()) {
                let y = year_plan(e.children@, roots);
                assert forall|i: int, j: int| 0 <= i < j < e.children@.len()
                    implies comps(#[trigger] e.children@[i]@) != comps(#[trigger] e.children@[j]@) by {
                    assert(entries[n].children@[i] == e.children@[i]);
                }
                lemma_plan_no_repeats(e.children@, roots, true);
                lemma_year_plan_exact(e.children@, roots);
                assert forall|j: int| 0 <= j < y.len() implies y[j].0.len() == ar.len() + 2
                    && y[j].0.take(ar.len() + 1 as int) == d by {
                    assert(listed_in(y[j], e.children@));
                    let k = choose|k: int| 0 <= k < e.children@.len() && y[j].0 == comps(#[trigger] e.children@[k]@);
                    assert(child_of(comps(entries[n].children@[k]@), comps(entries[n].path@)));
                }
                assert(plan == r + y);
                assert forall|i: int, j: int| 0 <= i < j < plan.len() implies plan[i] != plan[j] by {
                    if j < r.len() {
                        assert(plan[i] == r[i] && plan[j] == r[j]);
                    } else if i >= r.len() {
                        assert(plan[i] == y[i - r.len()] && plan[j] == y[j - r.len()]);
                    } else {
                        assert(plan[i] == r[i] && plan[j] == y[j - r.len()]);
                    }
                }
                assert forall|j: int| 0 <= j < plan.len() implies {
                    let t = #[trigger] plan[j];
                    ||| exists|i: int| 0 <= i < entries.len() && t.0 == comps(#[trigger] entries[i].path@)
                    ||| exists|i: int| 0 <= i < entries.len() && t.0.len() == ar.len() + 2
                        && t.0.take(ar.len() + 1 as int) == comps(#[trigger] entries[i].path@)
                } by {
                    if j < r.len() {
                        assert(plan[j] == r[j]);
                    } else {
                        assert(plan[j] == y[j - r.len()]);
                        assert(comps(entries[n].path@) == d);
                    }
                }
            } else {
                assert(plan == r.push((d, true)));
                if r.contains((d, true)) {
                    let j = choose|j: int| 0 <= j < r.len() && r[j] == (d, true);
                    assert(false);
                }
                lemma_push_no_repeats(r, (d, true));
                assert forall|j: int| 0 <= j < plan.len() implies {
                    let t = #[trigger] plan[j];
                    ||| exists|i: int| 0 <= i < entries.len() && t.0 == comps(#[trigger] entries[i].path@)
                    ||| exists|i: int| 0 <= i < entries.len() && t.0.len() == ar.len() + 2
                        && t.0.take(ar.len() + 1 as int) == comps(#[trigger] entries[i].path@)
                } by {
                    if j < r.len() {
                        assert(plan[j] == r[j]);
                    } else {
                        assert(plan[j] == (d, true));
                        assert(comps(entries[n].path@) == d);
                    }
                }
            }
        } else {
            assert(plan == r);
        }
    }
}

/// Each listed folder that is read as a task is read exactly once: handed what lies inside the
/// roots, with no folder listed twice, the scan's targets hold no repeats.
pub proof fn lemma_scan_reads_each_once(work_dirs: Seq<Vec<String>>, archive_dirs: Seq<ArchiveEntry>, roots: ScanRoots)
    requires
        listings_of_roots(work_dirs, archive_dirs, roots),
        listed_once(work_dirs, archive_dirs),
    ensures
        no_repeats(work_plan(work_dirs, roots) + archive_plan(archive_dirs, roots)),
{
    let w = work_plan(work_dirs, roots);
    let a = archive_plan(archive_dirs, roots);
    lemma_plan_no_repeats(work_dirs, roots, false);
    lemma_scan_plan_sound(work_dirs, archive_dirs, roots);
    if archive_dirs.len() > 0 {
        let ar = comps(roots.archive->0@);
        assert forall|i: int| 0 <= i < archive_dirs.len() implies child_of(comps(#[trigger] archive_dirs[i].path@), ar) by {}
        lemma_archive_no_repeats(archive_dirs, roots, ar);
    } else {
        assert(a == Seq::<(Seq<Seq<char>>, bool)>::empty());
    }
    assert forall|i: int, j: int| 0 <= i < j < (w + a).len() implies (w + a)[i] != (w + a)[j] by {
        if j < w.len() {
            assert((w + a)[i] == w[i] && (w + a)[j] == w[j]);
        } else if i >= w.len() {
            assert((w + a)[i] == a[i - w.len()] && (w + a)[j] == a[j - w.len()]);
        } else {
            assert(!(w + a)[i].1 && (w + a)[j].1);
        }
    }
}

} // verus!
