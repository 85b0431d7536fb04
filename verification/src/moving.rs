//! Moving a task folder without ever losing it. Within one volume a rename does it; across
//! volumes the folder is copied to a temporary folder beside the destination, the copy is
//! renamed into place, and only then is the source removed. Whatever fails before that
//! point leaves the source as it was. The caller performs each step on the file system and
//! reports how it went; the decisions are taken here.
use vstd::prelude::*;
use crate::paths::{comps, is_within, starts_with};
use crate::text::concat;

verus! {

/// The OS error codes of a move across volumes (Windows `ERROR_NOT_SAME_DEVICE`, Unix `EXDEV`).
pub open spec fn is_cross_volume_code(code: Option<i32>) -> bool {
    code matches Some(c) && (c == 17 || c == 18)
}

/// Whether a failed rename failed only because source and destination lie on different volumes.
pub fn is_cross_volume(code: Option<i32>) -> (r: bool)
    ensures
        r == is_cross_volume_code(code),
{
    match code {
        Some(c) => c == 17 || c == 18,
        None => false,
    }
}

/// Refuses a destination inside the source: copying a folder into itself never ends.
/// `parent` and `source` are resolved.
pub fn move_guard(parent: &Vec<String>, source: &Vec<String>) -> (r: Result<(), String>)
    ensures
        r is Err <==> is_within(comps(parent@), comps(source@)),
        r matches Err(e) ==> e@ == "移動先が移動元フォルダの内側にあるため中止しました"@,
{
    if starts_with(parent, source) {
        Err(String::from_str("移動先が移動元フォルダの内側にあるため中止しました"))
    } else {
        Ok(())
    }
}

/// The message after an interrupted copy has been cleaned up: as it was when the temporary
/// copy could be removed, and otherwise with where the leftover lies.
pub open spec fn discard_text(message: Seq<char>, removed: bool, tmp: Seq<char>) -> Seq<char> {
    if removed {
        message
    } else {
        message + "（作業用フォルダ "@ + tmp + " が残っています。手動で削除してください）"@
    }
}

/// The message reported after discarding an interrupted copy at `tmp`.
pub fn discard_copy(message: &str, removed: bool, tmp: &str) -> (r: String)
    ensures
        r@ == discard_text(message@, removed, tmp@),
{
    if removed {
        String::from_str(message)
    } else {
        let a = concat(message, "（作業用フォルダ ");
        let b = concat(a.as_str(), tmp);
        concat(b.as_str(), " が残っています。手動で削除してください）")
    }
}

/// How the step the caller performed went; a failure carries the OS error code and text.
#[derive(Clone, Debug)]
pub enum Outcome {
    Done,
    Failed { code: Option<i32>, text: String },
}

/// Where a move stands.
#[derive(Debug)]
pub enum Phase {
    /// The source is being renamed to the destination.
    Renaming,
    /// The source is being copied to the temporary folder.
    Copying,
    /// The temporary copy is being renamed to the destination.
    Committing,
    /// The copy is in place; the source is being removed.
    RemovingSource,
    /// An interrupted copy is being removed; the message says why the move failed.
    Discarding { message: String },
    /// The move is over.
    Finished { result: Result<(), String> },
}

/// What the caller does next.
#[derive(Clone, Debug)]
pub enum Action {
    /// Rename the source to the destination.
    Rename,
    /// Pick a free temporary folder beside the destination and copy the source into it.
    CopyToTemp,
    /// Rename the temporary copy to the destination.
    CommitTemp,
    /// Remove the source.
    RemoveSource,
    /// Remove the temporary copy.
    DiscardTemp,
    /// Stop; the phase holds the result.
    Finish,
}

pub open spec fn rename_failed_text() -> Seq<char> {
    "フォルダを移動できませんでした。中のファイルを開いていないか確認してください: "@
}

pub open spec fn copy_failed_text() -> Seq<char> {
    "コピーに失敗したため中止しました（元のフォルダは変更されていません）: "@
}

pub open spec fn commit_failed_text() -> Seq<char> {
    "移動先の確定に失敗しました（元のフォルダは変更されていません）: "@
}

pub open spec fn remove_failed_text() -> Seq<char> {
    "移動先へのコピーは完了しましたが、移動元を削除できませんでした。同じフォルダが2箇所にあるため、移動元を手動で削除してください: "@
}

pub open spec fn finished_ok(q: Phase) -> bool {
    q matches Phase::Finished { result: Ok(()) }
}

pub open spec fn finished_err(q: Phase, m: Seq<char>) -> bool {
    q matches Phase::Finished { result: Err(e) } && e@ == m
}

pub open spec fn discarding(q: Phase, m: Seq<char>) -> bool {
    q matches Phase::Discarding { message } && message@ == m
}

/// One step of a move: in phase `p`, the step asked for went as `o` (`tmp` being where the
/// temporary copy lies, as shown); the move goes on in phase `q` with action `a`.
pub open spec fn steps_to(p: Phase, o: Outcome, tmp: Seq<char>, q: Phase, a: Action) -> bool {
    match p {
        Phase::Renaming => match o {
            Outcome::Done => finished_ok(q) && a is Finish,
            Outcome::Failed { code, text } => if is_cross_volume_code(code) {
                q is Copying && a is CopyToTemp
            } else {
                finished_err(q, rename_failed_text() + text@) && a is Finish
            },
        },
        Phase::Copying => match o {
            Outcome::Done => q is Committing && a is CommitTemp,
            Outcome::Failed { text, .. } => discarding(q, copy_failed_text() + text@) && a is DiscardTemp,
        },
        Phase::Committing => match o {
            Outcome::Done => q is RemovingSource && a is RemoveSource,
            Outcome::Failed { text, .. } => discarding(q, commit_failed_text() + text@) && a is DiscardTemp,
        },
        Phase::RemovingSource => match o {
            Outcome::Done => finished_ok(q) && a is Finish,
            Outcome::Failed { text, .. } => finished_err(q, remove_failed_text() + text@) && a is Finish,
        },
        Phase::Discarding { message } => match o {
            Outcome::Done => finished_err(q, message@) && a is Finish,
            Outcome::Failed { .. } => finished_err(q, discard_text(message@, false, tmp)) && a is Finish,
        },
        Phase::Finished { result } => q == p && a is Finish,
    }
}

/// Starts a move: refused when the destination's (resolved) parent lies inside the (resolved)
/// source; otherwise the first step is a rename.
pub fn move_start(parent: &Vec<String>, source: &Vec<String>) -> (r: (Phase, Action))
    ensures
        is_within(comps(parent@), comps(source@)) ==> finished_err(r.0, "移動先が移動元フォルダの内側にあるため中止しました"@) && r.1 is Finish,
        !is_within(comps(parent@), comps(source@)) ==> r.0 is Renaming && r.1 is Rename,
{
    match move_guard(parent, source) {
        Ok(()) => (Phase::Renaming, Action::Rename),
        Err(e) => (Phase::Finished { result: Err(e) }, Action::Finish),
    }
}

/// Takes one step of a move.
pub fn move_step(p: Phase, o: Outcome, tmp: &str) -> (r: (Phase, Action))
    ensures
        steps_to(p, o, tmp@, r.0, r.1),
{
    match p {
        Phase::Renaming => match o {
            Outcome::Done => (Phase::Finished { result: Ok(()) }, Action::Finish),
            Outcome::Failed { code, text } => if is_cross_volume(code) {
                (Phase::Copying, Action::CopyToTemp)
            } else {
                let m = concat("フォルダを移動できませんでした。中のファイルを開いていないか確認してください: ", text.as_str());
                (Phase::Finished { result: Err(m) }, Action::Finish)
            },
        },
        Phase::Copying => match o {
            Outcome::Done => (Phase::Committing, Action::CommitTemp),
            Outcome::Failed { text, .. } => {
                let m = concat("コピーに失敗したため中止しました（元のフォルダは変更されていません）: ", text.as_str());
                (Phase::Discarding { message: m }, Action::DiscardTemp)
            },
        },
        Phase::Committing => match o {
            Outcome::Done => (Phase::RemovingSource, Action::RemoveSource),
            Outcome::Failed { text, .. } => {
                let m = concat("移動先の確定に失敗しました（元のフォルダは変更されていません）: ", text.as_str());
                (Phase::Discarding { message: m }, Action::DiscardTemp)
            },
        },
        Phase::RemovingSource => match o {
            Outcome::Done => (Phase::Finished { result: Ok(()) }, Action::Finish),
            Outcome::Failed { text, .. } => {
                let m = concat("移動先へのコピーは完了しましたが、移動元を削除できませんでした。同じフォルダが2箇所にあるため、移動元を手動で削除してください: ", text.as_str());
                (Phase::Finished { result: Err(m) }, Action::Finish)
            },
        },
        Phase::Discarding { message } => match o {
            Outcome::Done => (Phase::Finished { result: Err(message) }, Action::Finish),
            Outcome::Failed { .. } => {
                let m = discard_copy(message.as_str(), false, tmp);
                (Phase::Finished { result: Err(m) }, Action::Finish)
            },
        },
        Phase::Finished { result } => (Phase::Finished { result }, Action::Finish),
    }
}

/// The source is removed only once its copy stands at the destination: the only step that
/// asks for its removal is the one after the copy was renamed into place.
pub proof fn lemma_source_removed_only_after_commit(p: Phase, o: Outcome, tmp: Seq<char>, q: Phase, a: Action)
    requires
        steps_to(p, o, tmp, q, a),
        a is RemoveSource,
    ensures
        p is Committing,
        o is Done,
{
}

/// A temporary copy is discarded only when it never reached the destination, so discarding
/// it never loses the folder: the source is untouched in every phase that leads there.
pub proof fn lemma_discard_only_before_commit(p: Phase, o: Outcome, tmp: Seq<char>, q: Phase, a: Action)
    requires
        steps_to(p, o, tmp, q, a),
        a is DiscardTemp,
    ensures
        p is Copying || p is Committing,
        o is Failed,
{
}

/// Once a move is over it stays over.
pub proof fn lemma_finished_is_final(p: Phase, o: Outcome, tmp: Seq<char>, q: Phase, a: Action)
    requires
        steps_to(p, o, tmp, q, a),
        p is Finished,
    ensures
        q == p,
        a is Finish,
{
}

/// A move ends in success only right after a step that went well: a step that failed never
/// turns an unfinished move into a success.
pub proof fn lemma_success_only_after_success(p: Phase, o: Outcome, tmp: Seq<char>, q: Phase, a: Action)
    requires
        steps_to(p, o, tmp, q, a),
        !(p is Finished),
        q matches Phase::Finished { result: Ok(()) },
    ensures
        o is Done,
        p is Renaming || p is RemovingSource,
{
}

/// When the source cannot be removed after its copy was put in place, the move ends in an error
/// that carries the system's words (the folder now stands in two places).
pub proof fn lemma_failed_removal_is_reported(p: Phase, o: Outcome, tmp: Seq<char>, q: Phase, a: Action)
    requires
        steps_to(p, o, tmp, q, a),
        p is RemovingSource,
        o is Failed,
    ensures
        a is Finish,
        q matches Phase::Finished { result: Err(e) } && e@.len() >= o->text@.len()
            && e@.skip(e@.len() - o->text@.len()) == o->text@,
{
    let e = q->result->Err_0;
    assert(e@.skip(e@.len() - o->text@.len()) =~= o->text@);
}

} // verus!
