//! Watching the task roots: which folders are watched, and how a burst of change events is
//! gathered into one refresh of the task list.
use vstd::prelude::*;
use std::sync::mpsc::Receiver;
use std::time::{Duration, Instant};
use crate::model::AppConfig;

verus! {

#[verifier::external_type_specification]
#[verifier::external_body]
pub struct ExInstant(std::time::Instant);

#[verifier::external_type_specification]
#[verifier::external_body]
#[verifier::reject_recursive_types(T)]
pub struct ExReceiver<T>(std::sync::mpsc::Receiver<T>);

/// How long the events must stop before the burst counts as over, in milliseconds.
pub const QUIET_MS: u64 = 400;

/// The longest a refresh is held back, in milliseconds: while a large folder is being copied
/// into a root the events never stop, and the list would not be refreshed before the end.
pub const MAX_WAIT_MS: u64 = 2000;

/// The roots that are watched: the work root and the archive root, each when it is set and is
/// a folder on disk (`work_is_dir`, `archive_is_dir`), in that order.
pub open spec fn watched_roots(config: AppConfig, work_is_dir: bool, archive_is_dir: bool) -> Seq<Seq<char>> {
    let w: Seq<Seq<char>> = match config.work_root {
        Some(r) => if work_is_dir { seq![r@] } else { Seq::empty() },
        None => Seq::empty(),
    };
    let a: Seq<Seq<char>> = match config.archive_root {
        Some(r) => if archive_is_dir { seq![r@] } else { Seq::empty() },
        None => Seq::empty(),
    };
    w + a
}

/// The roots to watch for `config`; `work_is_dir` and `archive_is_dir` say whether each root
/// names a folder that exists. Nothing is watched when the result is empty.
pub fn watch_roots(config: &AppConfig, work_is_dir: bool, archive_is_dir: bool) -> (r: Vec<String>)
    ensures
        r@.map_values(|s: String| s@) == watched_roots(*config, work_is_dir, archive_is_dir),
{
    let mut out: Vec<String> = Vec::new();
    match &config.work_root {
        Some(root) => {
            if work_is_dir {
                out.push(root.clone());
            }
        },
        None => {},
    }
    let ghost first = out@;
    match &config.archive_root {
        Some(root) => {
            if archive_is_dir {
                out.push(root.clone());
            }
        },
        None => {},
    }
    assert(out@.map_values(|s: String| s@) == watched_roots(*config, work_is_dir, archive_is_dir));
    out
}

/// `Instant::now`: the clock's reading.
#[verifier::external_body]
fn clock_now() -> Instant {
    Instant::now()
}

/// `Instant::elapsed`: the time since `start`; it depends on the clock.
#[verifier::external_body]
fn elapsed_since(start: &Instant) -> Duration {
    start.elapsed()
}

/// `Duration::as_nanos`: the length of `d` in nanoseconds.
#[verifier::external_body]
fn nanos_of(d: &Duration) -> u128 {
    d.as_nanos()
}

/// `Receiver::recv_timeout`, told as whether an event came before `quiet` ran out (`false` also
/// when every sender is gone). What comes back depends on the other side and the clock.
#[verifier::external_body]
fn event_within(rx: &Receiver<()>, quiet: Duration) -> bool {
    rx.recv_timeout(quiet).is_ok()
}

/// Waits until the events on `rx` stop for `quiet`, but no longer than `max` in all; returns at
/// once when every sender is gone (the watcher was replaced). The events taken meanwhile belong
/// to the same burst. The count of events taken only gives the loop a measure: no channel
/// delivers that many before the clock runs out.
pub fn settle(rx: &Receiver<()>, quiet: Duration, max: Duration) {
    let start = clock_now();
    let limit = nanos_of(&max);
    let mut taken: u64 = 0;
    while taken < u64::MAX
        decreases u64::MAX - taken,
    {
        let waited = nanos_of(&elapsed_since(&start));
        if waited >= limit {
            return;
        }
        if !event_within(rx, quiet) {
            return;
        }
        taken += 1;
    }
}

} // verus!
