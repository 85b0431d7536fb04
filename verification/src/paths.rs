//! Which folders the application manages. Paths are compared component by component, as
//! `Path::starts_with` and `Path::eq` do; the caller resolves them (`canonicalize`) and hands
//! in their components.
use vstd::prelude::*;
use crate::model::AppConfig;

verus! {

/// The components of a path.
pub open spec fn comps(p: Seq<String>) -> Seq<Seq<char>> {
    p.map_values(|s: String| s@)
}

/// `path` lies at or below `base` (`Path::starts_with`).
pub open spec fn is_within(path: Seq<Seq<char>>, base: Seq<Seq<char>>) -> bool {
    base.len() <= path.len() && path.take(base.len() as int) == base
}

/// `path` lies strictly below `base`.
pub open spec fn is_below(path: Seq<Seq<char>>, base: Seq<Seq<char>>) -> bool {
    is_within(path, base) && path != base
}

/// Whether `path` lies at or below `base`.
pub fn starts_with(path: &Vec<String>, base: &Vec<String>) -> (r: bool)
    ensures
        r == is_within(comps(path@), comps(base@)),
{
    if base.len() > path.len() {
        return false;
    }
    let mut i: usize = 0;
    while i < base.len()
        invariant
            i <= base.len() <= path.len(),
            forall|j: int| 0 <= j < i ==> path@[j]@ == base@[j]@,
        decreases base.len() - i,
    {
        if path[i] != base[i] {
            assert(comps(path@).take(base@.len() as int)[i as int] != comps(base@)[i as int]);
            return false;
        }
        i += 1;
    }
    assert(comps(path@).take(base@.len() as int) =~= comps(base@));
    true
}

/// Whether two paths are the same.
pub fn same_path(a: &Vec<String>, b: &Vec<String>) -> (r: bool)
    ensures
        r == (comps(a@) == comps(b@)),
{
    if a.len() != b.len() {
        assert(comps(a@).len() != comps(b@).len());
        return false;
    }
    let r = starts_with(a, b);
    assert(comps(a@).take(comps(b@).len() as int) =~= comps(a@));
    r
}

fn opt_starts_with(path: &Vec<String>, base: &Option<Vec<String>>) -> (r: bool)
    ensures
        r == (base matches Some(b) && is_within(comps(path@), comps(b@))),
{
    match base {
        Some(b) => starts_with(path, b),
        None => false,
    }
}

fn opt_below(path: &Vec<String>, base: &Option<Vec<String>>) -> (r: bool)
    ensures
        r == (base matches Some(b) && is_below(comps(path@), comps(b@))),
{
    match base {
        Some(b) => starts_with(path, b) && !same_path(path, b),
        None => false,
    }
}

fn opt_same(a: &Option<Vec<String>>, b: &Vec<String>) -> (r: bool)
    ensures
        r == (a matches Some(x) && comps(x@) == comps(b@)),
{
    match a {
        Some(x) => same_path(x, b),
        None => false,
    }
}

/// The configured roots, resolved: `None` where a root is not set or could not be resolved.
#[derive(Clone, Debug)]
pub struct ManagedRoots {
    pub work: Option<Vec<String>>,
    pub archive: Option<Vec<String>>,
    pub deep: Option<Vec<String>>,
}

pub open spec fn below_opt(path: Seq<String>, root: Option<Vec<String>>) -> bool {
    root matches Some(r) && is_below(comps(path), comps(r@))
}

pub open spec fn within_opt(path: Seq<String>, root: Option<Vec<String>>) -> bool {
    root matches Some(r) && is_within(comps(path), comps(r@))
}

/// The root `root` lies at or below `path`.
pub open spec fn contains_opt(path: Seq<String>, root: Option<Vec<String>>) -> bool {
    root matches Some(r) && is_within(comps(r@), comps(path))
}

/// A path the application may act on lies strictly below the work root or the archive root.
pub open spec fn is_managed(path: Seq<String>, roots: ManagedRoots) -> bool {
    below_opt(path, roots.work) || below_opt(path, roots.archive)
}

/// Checks that `path` (resolved, so `..` and links cannot fool it) lies below one of the
/// managed roots; the roots themselves are not managed paths.
pub fn ensure_managed(path: &Vec<String>, roots: &ManagedRoots) -> (r: Result<(), String>)
    ensures
        r is Ok <==> is_managed(path@, *roots),
        r matches Err(e) ==> e@ == "管理対象外のパスです"@,
{
    if opt_below(path, &roots.work) || opt_below(path, &roots.archive) {
        Ok(())
    } else {
        Err(String::from_str("管理対象外のパスです"))
    }
}

/// What is wrong with a set of roots, if anything: the work root may be neither the archive
/// root nor inside it, and the deep archive may be neither of the other roots nor contain the
/// work root.
pub open spec fn roots_problem(roots: ManagedRoots) -> Option<Seq<char>> {
    if roots.work is Some && roots.archive is Some && comps(roots.work->0@) == comps(roots.archive->0@) {
        Some("作業ディレクトリとアーカイブ先が同一です"@)
    } else if roots.work is Some && roots.archive is Some && is_within(comps(roots.work->0@), comps(roots.archive->0@)) {
        Some("作業ディレクトリをアーカイブ先の内側には置けません"@)
    } else if roots.deep is Some && ((roots.work is Some && comps(roots.work->0@) == comps(roots.deep->0@))
        || (roots.archive is Some && comps(roots.archive->0@) == comps(roots.deep->0@))) {
        Some("ディープアーカイブ先が他のルートと同一です"@)
    } else if roots.deep is Some && roots.work is Some && is_within(comps(roots.work->0@), comps(roots.deep->0@)) {
        Some("作業ディレクトリをディープアーカイブ先の内側には置けません"@)
    } else {
        None
    }
}

/// Rejects the dangerous combinations of roots: the same folder twice, or the work root
/// inside the archive or the deep archive.
pub fn validate_roots(roots: &ManagedRoots) -> (r: Result<(), String>)
    ensures
        r is Ok <==> roots_problem(*roots) is None,
        r matches Err(e) ==> Some(e@) == roots_problem(*roots),
{
    match (&roots.work, &roots.archive) {
        (Some(w), Some(a)) => {
            if same_path(w, a) {
                return Err(String::from_str("作業ディレクトリとアーカイブ先が同一です"));
            }
            if starts_with(w, a) {
                return Err(String::from_str("作業ディレクトリをアーカイブ先の内側には置けません"));
            }
        },
        _ => {},
    }
    match &roots.deep {
        Some(d) => {
            if opt_same(&roots.work, d) || opt_same(&roots.archive, d) {
                return Err(String::from_str("ディープアーカイブ先が他のルートと同一です"));
            }
            match &roots.work {
                Some(w) => {
                    if starts_with(w, d) {
                        return Err(
                            String::from_str("作業ディレクトリをディープアーカイブ先の内側には置けません"),
                        );
                    }
                },
                None => {},
            }
        },
        None => {},
    }
    Ok(())
}

/// Why a folder cannot be taken in, if it cannot: it is already shown (at or below the work or
/// archive root), or it holds one of the roots. Folders in the deep archive, which is never
/// scanned, can be taken back this way.
pub open spec fn import_problem(path: Seq<String>, roots: ManagedRoots) -> Option<Seq<char>> {
    if within_opt(path, roots.work) || within_opt(path, roots.archive) {
        Some("既に管理対象のフォルダです"@)
    } else if contains_opt(path, roots.work) || contains_opt(path, roots.archive) || contains_opt(
        path,
        roots.deep,
    ) {
        Some("管理ルートを含むフォルダは取り込めません"@)
    } else {
        None
    }
}

fn opt_contains(path: &Vec<String>, root: &Option<Vec<String>>) -> (r: bool)
    ensures
        r == contains_opt(path@, *root),
{
    match root {
        Some(r) => starts_with(r, path),
        None => false,
    }
}

/// Checks that the folder at `path` (resolved) may be taken in as a task.
pub fn import_guard(path: &Vec<String>, roots: &ManagedRoots) -> (r: Result<(), String>)
    ensures
        r is Ok <==> import_problem(path@, *roots) is None,
        r matches Err(e) ==> Some(e@) == import_problem(path@, *roots),
{
    if opt_starts_with(path, &roots.work) || opt_starts_with(path, &roots.archive) {
        return Err(String::from_str("既に管理対象のフォルダです"));
    }
    if opt_contains(path, &roots.work) || opt_contains(path, &roots.archive) || opt_contains(
        path,
        &roots.deep,
    ) {
        return Err(String::from_str("管理ルートを含むフォルダは取り込めません"));
    }
    Ok(())
}

/// Copies of the components `from..to` of `v`.
fn copy_parts(v: &Vec<String>, from: usize, to: usize) -> (r: Vec<String>)
    requires
        from <= to <= v.len(),
    ensures
        comps(r@) == comps(v@).subrange(from as int, to as int),
{
    let mut r: Vec<String> = Vec::new();
    let mut i = from;
    while i < to
        invariant
            from <= i <= to <= v.len(),
            r@.len() == i - from,
            forall|k: int| 0 <= k < r@.len() ==> (#[trigger] r@[k])@ == v@[from + k]@,
        decreases to - i,
    {
        let c = v[i].clone();
        r.push(c);
        i += 1;
    }
    assert(comps(r@) =~= comps(v@).subrange(from as int, to as int));
    r
}

/// The folder a finished task moves into when sent to the deep archive: its place below the
/// archive root (its year folder, say) is kept below the deep archive root.
pub open spec fn deep_parent(path: Seq<String>, archive: Seq<String>, deep: Seq<String>) -> Seq<Seq<char>> {
    comps(deep) + comps(path).subrange(archive.len() as int, path.len() - 1)
}

/// Where the task at `path` (resolved) goes in the deep archive, given the resolved archive
/// root and the deep archive root; errors when no deep archive is set or the task is not an
/// archived one.
pub fn deep_archive_parent(path: &Vec<String>, archive: &Vec<String>, deep: &Option<Vec<String>>) -> (r: Result<Vec<String>, String>)
    ensures
        deep is None ==> (r matches Err(e) && e@ == "ディープアーカイブ先が未設定です（設定画面で指定してください）"@),
        deep matches Some(d) ==> {
            &&& !is_below(comps(path@), comps(archive@)) ==> (r matches Err(e) && e@ == "アーカイブ済みのタスクのみ移動できます"@)
            &&& is_below(comps(path@), comps(archive@)) ==> (r matches Ok(p) && comps(p@) == deep_parent(path@, archive@, d@))
        },
{
    let d = match deep {
        Some(d) => d,
        None => {
            return Err(String::from_str("ディープアーカイブ先が未設定です（設定画面で指定してください）"));
        },
    };
    if !starts_with(path, archive) || same_path(path, archive) {
        return Err(String::from_str("アーカイブ済みのタスクのみ移動できます"));
    }
    assert(comps(path@).len() > comps(archive@).len()) by {
        if comps(path@).len() == comps(archive@).len() {
            assert(comps(path@).take(archive@.len() as int) =~= comps(path@));
        }
    }
    let mut out = copy_parts(d, 0, d.len());
    let mut rest = copy_parts(path, archive.len(), path.len() - 1);
    let ghost o = out@;
    out.append(&mut rest);
    assert(comps(out@) =~= comps(o) + comps(path@).subrange(archive.len() as int, path.len() - 1)) by {
        assert(out@.len() == o.len() + comps(path@).subrange(archive.len() as int, path.len() - 1).len());
        assert forall|k: int| 0 <= k < out@.len() implies #[trigger] comps(out@)[k] == (comps(o) + comps(path@).subrange(archive.len() as int, path.len() - 1))[k] by {}
    }
    assert(comps(o) =~= comps(d@)) by {
        assert(comps(d@).subrange(0, d@.len() as int) =~= comps(d@));
    }
    Ok(out)
}

/// The work root, or the error shown when it is not set.
pub fn work_root(config: &AppConfig) -> (r: Result<String, String>)
    ensures
        config.work_root matches Some(w) ==> r == Ok::<String, String>(w),
        config.work_root is None ==> (r matches Err(e) && e@ == "作業ディレクトリが未設定です"@),
{
    match &config.work_root {
        Some(w) => Ok(w.clone()),
        None => Err(String::from_str("作業ディレクトリが未設定です")),
    }
}

/// The archive root, or the error shown when it is not set.
pub fn archive_root(config: &AppConfig) -> (r: Result<String, String>)
    ensures
        config.archive_root matches Some(a) ==> r == Ok::<String, String>(a),
        config.archive_root is None ==> (r matches Err(e) && e@ == "アーカイブディレクトリが未設定です"@),
{
    match &config.archive_root {
        Some(a) => Ok(a.clone()),
        None => Err(String::from_str("アーカイブディレクトリが未設定です")),
    }
}

} // verus!
