//! How a task's metadata changes when the user edits it, completes, reopens or imports it.
use vstd::prelude::*;
use crate::model::{ChecklistItem, MetaPatch, ProgressMode, Status, TaskMeta};
use crate::progress::capped;
use crate::text::{chars_of, trim_chars, trimmed};

verus! {

/// The checklist lines whose text is not blank, in order.
pub open spec fn non_blank(s: Seq<ChecklistItem>) -> Seq<ChecklistItem>
    decreases s.len(),
{
    if s.len() == 0 {
        Seq::empty()
    } else if trimmed(s.last().text@).len() > 0 {
        non_blank(s.drop_last()).push(s.last())
    } else {
        non_blank(s.drop_last())
    }
}

/// The hold start after an edit: kept when the task stays on hold, `now` when it goes on hold,
/// nothing when it is taken off hold.
pub open spec fn hold_after(on_hold: bool, since: Option<String>, now: String) -> Option<String> {
    if on_hold {
        match since {
            Some(s) => Some(s),
            None => Some(now),
        }
    } else {
        None
    }
}

/// Two metadata records hold the same values (vectors compared by their contents).
pub open spec fn same_meta(a: TaskMeta, b: TaskMeta) -> bool {
    &&& a.status == b.status
    &&& a.tags@ == b.tags@
    &&& a.due == b.due
    &&& a.memo == b.memo
    &&& a.checklist@ == b.checklist@
    &&& a.progress == b.progress
    &&& a.progress_mode == b.progress_mode
    &&& a.created_at == b.created_at
    &&& a.completed_at == b.completed_at
    &&& a.on_hold_since == b.on_hold_since
    &&& a.links@ == b.links@
}

/// `r` is the metadata after the user's edit `patch` at time `now`. The status `Done` cannot be
/// set this way (it follows from the folder's place); blank checklist lines are dropped; the
/// manual progress is capped at 100; the hold start is kept, stamped or cleared; the creation
/// time is stamped if it was missing; everything else stays.
pub open spec fn is_patched(meta: TaskMeta, patch: MetaPatch, now: String, r: TaskMeta) -> bool {
    &&& r.status == (if patch.status == Status::Done { meta.status } else { patch.status })
    &&& r.tags@ == patch.tags@
    &&& r.due == patch.due
    &&& r.memo == patch.memo
    &&& r.checklist@ == non_blank(patch.checklist@)
    &&& r.progress == capped(patch.manual_progress)
    &&& r.progress_mode == patch.progress_mode
    &&& r.created_at == (if meta.created_at is Some { meta.created_at } else { Some(now) })
    &&& r.completed_at == meta.completed_at
    &&& r.on_hold_since == hold_after(patch.on_hold, meta.on_hold_since, now)
    &&& r.links@ == meta.links@
}

fn is_blank(s: &String) -> (r: bool)
    ensures
        r == (trimmed(s@).len() == 0),
{
    let cs = chars_of(s.as_str());
    let t = trim_chars(&cs);
    t.len() == 0
}

/// The checklist lines whose text is not blank.
pub fn drop_blank_lines(items: Vec<ChecklistItem>) -> (r: Vec<ChecklistItem>)
    ensures
        r@ == non_blank(items@),
{
    let ghost all = items@;
    let mut out: Vec<ChecklistItem> = Vec::new();
    for item in it: items
        invariant
            all == it.seq(),
            out@ == non_blank(all.take(it.index() as int)),
    {
        let ghost k = it.index();
        proof {
            assert(all.take(k + 1).drop_last() =~= all.take(k as int));
            assert(all.take(k + 1).last() == item);
        }
        if !is_blank(&item.text) {
            out.push(item);
        }
    }
    proof {
        assert(all.take(all.len() as int) =~= all);
    }
    out
}

/// Applies the user's edit `patch` at time `now` to `meta`.
pub fn apply_patch(meta: TaskMeta, patch: MetaPatch, now: String) -> (r: TaskMeta)
    ensures
        is_patched(meta, patch, now, r),
{
    let status = if patch.status != Status::Done { patch.status } else { meta.status };
    let checklist = drop_blank_lines(patch.checklist);
    let progress = match patch.manual_progress {
        Some(p) => Some(if p > 100 { 100u32 } else { p }),
        None => None,
    };
    let on_hold_since = if patch.on_hold {
        match meta.on_hold_since {
            Some(since) => Some(since),
            None => Some(now.clone()),
        }
    } else {
        None
    };
    let created_at = match meta.created_at {
        Some(c) => Some(c),
        None => Some(now),
    };
    TaskMeta {
        status,
        tags: patch.tags,
        due: patch.due,
        memo: patch.memo,
        checklist,
        progress,
        progress_mode: patch.progress_mode,
        created_at,
        completed_at: meta.completed_at,
        on_hold_since,
        links: meta.links,
    }
}

/// Dropping blank lines a second time changes nothing.
pub proof fn lemma_non_blank_idempotent(s: Seq<ChecklistItem>)
    ensures
        non_blank(non_blank(s)) == non_blank(s),
        forall|i: int| 0 <= i < non_blank(s).len() ==> trimmed((#[trigger] non_blank(s)[i]).text@).len() > 0,
    decreases s.len(),
{
    if s.len() > 0 {
        lemma_non_blank_idempotent(s.drop_last());
        let k = non_blank(s.drop_last());
        if trimmed(s.last().text@).len() > 0 {
            let n = k.push(s.last());
            assert(n.drop_last() =~= k);
            assert forall|i: int| 0 <= i < n.len() implies trimmed((#[trigger] n[i]).text@).len() > 0 by {
                if i < k.len() {
                    assert(n[i] == k[i]);
                }
            }
        }
    }
}

/// Saving the same edit twice leaves the metadata as saving it once did: the hold start and
/// the creation time stamped by the first save stay, whatever the time of the second.
pub proof fn lemma_patch_idempotent(
    meta: TaskMeta,
    patch: MetaPatch,
    now1: String,
    now2: String,
    r1: TaskMeta,
    r2: TaskMeta,
)
    requires
        is_patched(meta, patch, now1, r1),
        is_patched(r1, patch, now2, r2),
    ensures
        same_meta(r1, r2),
{
    lemma_non_blank_idempotent(patch.checklist@);
}

/// An edit sets the status the user chose, whatever it was before, unless that choice is done:
/// a task is not marked done by an edit, and then its status stays as it was.
pub proof fn lemma_patch_takes_the_chosen_status(meta: TaskMeta, patch: MetaPatch, now: String, r: TaskMeta)
    requires
        is_patched(meta, patch, now, r),
    ensures
        patch.status != Status::Done ==> r.status == patch.status,
        patch.status == Status::Done ==> r.status == meta.status,
{
}

/// An edit never marks a task done: only completing it (moving it to the archive) does.
pub proof fn lemma_patch_never_completes(meta: TaskMeta, patch: MetaPatch, now: String, r: TaskMeta)
    requires
        is_patched(meta, patch, now, r),
        meta.status != Status::Done,
    ensures
        r.status != Status::Done,
{
}

/// The metadata of a task being completed at `now`: done, with its completion time.
pub open spec fn is_completed(meta: TaskMeta, now: String, r: TaskMeta) -> bool {
    same_meta(r, TaskMeta { status: Status::Done, completed_at: Some(now), ..meta })
}

/// The metadata of a finished task taken back to work: in progress, with no completion time.
pub open spec fn is_reopened(meta: TaskMeta, r: TaskMeta) -> bool {
    same_meta(r, TaskMeta { status: Status::Doing, completed_at: None, ..meta })
}

/// Marks a task done at `now`.
pub fn mark_completed(meta: TaskMeta, now: String) -> (r: TaskMeta)
    ensures
        is_completed(meta, now, r),
{
    TaskMeta { status: Status::Done, completed_at: Some(now), ..meta }
}

/// Marks a finished task as in progress again.
pub fn mark_reopened(meta: TaskMeta) -> (r: TaskMeta)
    ensures
        is_reopened(meta, r),
{
    TaskMeta { status: Status::Doing, completed_at: None, ..meta }
}

/// Marks a folder taken in from outside (or back from the deep archive) as in progress: any
/// completion time it still carries is dropped, and the creation time is stamped if missing.
pub fn mark_imported(meta: TaskMeta, now: String) -> (r: TaskMeta)
    ensures
        same_meta(
            r,
            TaskMeta {
                status: Status::Doing,
                completed_at: None,
                created_at: if meta.created_at is Some { meta.created_at } else { Some(now) },
                ..meta
            },
        ),
{
    let created_at = match meta.created_at {
        Some(c) => Some(c),
        None => Some(now),
    };
    TaskMeta { status: Status::Doing, completed_at: None, created_at, ..meta }
}

/// The metadata of a task created at `now`: in progress, created then, nothing else set.
pub fn new_task_meta(now: String) -> (r: TaskMeta)
    ensures
        r.status == Status::Doing,
        r.created_at == Some(now),
        r.tags@.len() == 0,
        r.due is None,
        r.memo@.len() == 0,
        r.checklist@.len() == 0,
        r.progress is None,
        r.progress_mode == ProgressMode::Auto,
        r.completed_at is None,
        r.on_hold_since is None,
        r.links@.len() == 0,
{
    TaskMeta { status: Status::Doing, created_at: Some(now), ..TaskMeta::default() }
}

/// Reopening a completed task undoes the completion: it gives what reopening the task as it was
/// before would give.
pub proof fn lemma_reopen_undoes_complete(meta: TaskMeta, now: String, done: TaskMeta, back: TaskMeta)
    requires
        is_completed(meta, now, done),
        is_reopened(done, back),
    ensures
        is_reopened(meta, back),
        back.status == Status::Doing,
        back.completed_at is None,
{
}

} // verus!
