//! The decisions taken while walking a task folder: which names are gathered for search, how
//! far the walk goes, and which modification time is the newest.
use vstd::prelude::*;
use crate::naming::{is_meta_entry, is_meta_file, meta_file};
use crate::text::concat;

verus! {

/// How deep the names for search are gathered (the same as the folder listing).
pub const SEARCH_MAX_DEPTH: u32 = 3;

/// How many names for search are kept per task; all tasks' names are held in memory.
pub const SEARCH_MAX_NAMES: usize = 300;

/// The path of `name` inside the folder reached by `prefix`: `prefix\name`, or `name` at the top.
pub open spec fn rel_path(prefix: Seq<char>, name: Seq<char>) -> Seq<char> {
    if prefix.len() == 0 {
        name
    } else {
        prefix + seq!['\\'] + name
    }
}

/// `prefix\name`, or `name` when `prefix` is empty.
pub fn join_rel(prefix: &str, name: &str) -> (r: String)
    ensures
        r@ == rel_path(prefix@, name@),
{
    if prefix.is_empty() {
        String::from_str(name)
    } else {
        let a = concat(prefix, "\\");
        proof {
            reveal_strlit("\\");
        }
        concat(a.as_str(), name)
    }
}

/// Whether `name` is the metadata file or derived from it.
pub open spec fn is_meta_name(name: Seq<char>) -> bool {
    meta_file().len() <= name.len() && name.take(meta_file().len() as int) == meta_file()
}

/// What became of one directory entry while gathering names for search.
#[derive(Clone, Debug)]
pub enum NameVisit {
    /// The metadata file: neither counted nor gathered.
    Ignored,
    /// Counted, but the limit of names was reached.
    Counted,
    /// Counted and gathered.
    Recorded,
    /// Counted and gathered; a folder whose names are gathered too, under this path.
    Descend(String),
}

/// Takes one entry `name` of the folder reached by `prefix` at `depth` into the names for search.
pub fn visit_name(names: &mut Vec<String>, prefix: &str, name: &str, is_dir: bool, depth: u32) -> (r: NameVisit)
    requires
        is_dir ==> depth < u32::MAX,
    ensures
        is_meta_name(name@) ==> r is Ignored && final(names)@ == old(names)@,
        !is_meta_name(name@) && old(names)@.len() >= SEARCH_MAX_NAMES ==> r is Counted && final(names)@ == old(names)@,
        !is_meta_name(name@) && old(names)@.len() < SEARCH_MAX_NAMES ==> {
            &&& final(names)@.len() == old(names)@.len() + 1
            &&& final(names)@.take(old(names)@.len() as int) == old(names)@
            &&& final(names)@.last()@ == rel_path(prefix@, name@)
            &&& (is_dir && depth + 1 < SEARCH_MAX_DEPTH) ==> (r matches NameVisit::Descend(p) && p@ == rel_path(prefix@, name@))
            &&& !(is_dir && depth + 1 < SEARCH_MAX_DEPTH) ==> r is Recorded
        },
{
    if is_meta_entry(name) {
        return NameVisit::Ignored;
    }
    if names.len() >= SEARCH_MAX_NAMES {
        return NameVisit::Counted;
    }
    let rel = join_rel(prefix, name);
    let ghost before = names@;
    names.push(rel.clone());
    assert(names@.take(before.len() as int) =~= before);
    if is_dir && depth + 1 < SEARCH_MAX_DEPTH {
        NameVisit::Descend(rel)
    } else {
        NameVisit::Recorded
    }
}

/// Spends one unit of the walk's budget; `false`, spending nothing, when none is left.
pub fn take_budget(budget: &mut u32) -> (r: bool)
    ensures
        r == (*old(budget) > 0),
        r ==> *final(budget) == *old(budget) - 1,
        !r ==> *final(budget) == *old(budget),
{
    if *budget == 0 {
        false
    } else {
        *budget = *budget - 1;
        true
    }
}

/// The later of the newest time so far and `m` (times in nanoseconds since the epoch).
pub fn later(newest: Option<i128>, m: i128) -> (r: Option<i128>)
    ensures
        r == Some(match newest {
            Some(n) => if m > n { m } else { n },
            None => m,
        }),
{
    match newest {
        Some(n) => Some(if m > n { m } else { n }),
        None => Some(m),
    }
}

/// Whether the search for the last activity goes into an entry, and how many levels it may go
/// further there: only into folders, and only while levels are left.
pub fn activity_descent(is_dir: bool, depth: u32) -> (r: Option<u32>)
    ensures
        r == (if is_dir && depth > 0 { Some((depth - 1) as u32) } else { None::<u32> }),
{
    if is_dir && depth > 0 {
        Some(depth - 1)
    } else {
        None
    }
}

/// Whether an entry counts as work when looking for the last activity: the metadata file is
/// written by the application itself and does not.
pub fn counts_as_activity(name: &str) -> (r: bool)
    ensures
        r == (name@ != meta_file()),
{
    !is_meta_file(name)
}

} // verus!
