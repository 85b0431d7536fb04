//! The files and folders a new task starts with, from the template entries of the settings.
use vstd::prelude::*;
use crate::text::{chars_of, string_of, trim_chars, trimmed};
use crate::naming::{sanitize_chars, sanitized, is_forbidden, task_folder_name, new_folder_name, empty_name_message};

verus! {

pub open spec fn is_sep(c: char) -> bool {
    c == '/' || c == '\\'
}

/// `s` without the separators at its end.
pub open spec fn trim_end_seps(s: Seq<char>) -> Seq<char>
    decreases s.len(),
{
    if s.len() > 0 && is_sep(s.last()) {
        trim_end_seps(s.drop_last())
    } else {
        s
    }
}

/// The pieces of `s` between separators, empty pieces included (`str::split`).
pub open spec fn split_seps(s: Seq<char>) -> Seq<Seq<char>>
    decreases s.len(),
{
    if s.len() == 0 {
        seq![Seq::<char>::empty()]
    } else {
        let r = split_seps(s.drop_last());
        if is_sep(s.last()) {
            r.push(Seq::<char>::empty())
        } else {
            r.update(r.len() - 1, r.last().push(s.last()))
        }
    }
}

/// Whether a sanitised piece names something: not empty, `.` or `..`.
pub open spec fn keeps(p: Seq<char>) -> bool {
    p.len() > 0 && p != seq!['.'] && p != seq!['.', '.']
}

/// The pieces, sanitised, that name something.
pub open spec fn kept(parts: Seq<Seq<char>>) -> Seq<Seq<char>>
    decreases parts.len(),
{
    if parts.len() == 0 {
        Seq::empty()
    } else {
        let k = kept(parts.drop_last());
        let p = sanitized(parts.last());
        if keeps(p) {
            k.push(p)
        } else {
            k
        }
    }
}

/// What a template entry creates: the path pieces below the task folder, and whether it is a
/// folder (the entry ends with a separator). `None` when the entry names nothing.
pub open spec fn template_parts(entry: Seq<char>) -> Option<(Seq<Seq<char>>, bool)> {
    let e = trimmed(entry);
    if e.len() == 0 {
        None
    } else {
        let parts = kept(split_seps(trim_end_seps(e)));
        if parts.len() == 0 {
            None
        } else {
            Some((parts, is_sep(e.last())))
        }
    }
}

/// A file or folder to create in a new task folder.
#[derive(Clone, Debug)]
pub struct TemplateTarget {
    /// The path below the task folder, piece by piece.
    pub parts: Vec<String>,
    /// A folder (the entry ended with `/` or `\`); otherwise an empty file.
    pub is_dir: bool,
}

pub open spec fn views(v: Seq<String>) -> Seq<Seq<char>> {
    v.map_values(|s: String| s@)
}

fn keeps_chars(p: &Vec<char>) -> (r: bool)
    ensures
        r == keeps(p@),
{
    if p.len() == 0 {
        return false;
    }
    if p.len() == 1 && p[0] == '.' {
        assert(p@ =~= seq!['.']);
        return false;
    }
    if p.len() == 2 && p[0] == '.' && p[1] == '.' {
        assert(p@ =~= seq!['.', '.']);
        return false;
    }
    assert(p@ != seq!['.'] && p@ != seq!['.', '.']) by {
        if p@.len() == 1 {
            assert(p@[0] != seq!['.'][0]);
        }
        if p@.len() == 2 {
            assert(p@[0] != seq!['.', '.'][0] || p@[1] != seq!['.', '.'][1]);
        }
    }
    true
}

/// Reads one template entry: trims it, notes whether it names a folder, splits it at `/` and
/// `\`, sanitises each piece and drops the pieces that name nothing (empty, `.`, `..`), so that
/// no entry can reach outside the task folder.
pub fn template_target(entry: &str) -> (r: Option<TemplateTarget>)
    ensures
        r is None <==> template_parts(entry@) is None,
        r matches Some(t) ==> template_parts(entry@) == Some((views(t.parts@), t.is_dir)),
{
    let raw = chars_of(entry);
    let e = trim_chars(&raw);
    if e.len() == 0 {
        return None;
    }
    let is_dir = e[e.len() - 1] == '/' || e[e.len() - 1] == '\\';
    let mut end = e.len();
    assert(e@.take(end as int) =~= e@);
    while end > 0 && (e[end - 1] == '/' || e[end - 1] == '\\')
        invariant
            end <= e.len(),
            trim_end_seps(e@.take(end as int)) == trim_end_seps(e@),
        decreases end,
    {
        assert(e@.take(end - 1) =~= e@.take(end as int).drop_last());
        end -= 1;
    }
    let ghost rel = e@.take(end as int);
    assert(trim_end_seps(rel) == rel);
    let mut parts: Vec<String> = Vec::new();
    let mut cur: Vec<char> = Vec::new();
    let ghost mut closed: Seq<Seq<char>> = Seq::empty();
    let mut i: usize = 0;
    while i < end
        invariant
            i <= end <= e.len(),
            rel == e@.take(end as int),
            split_seps(rel.take(i as int)) == closed.push(cur@),
            views(parts@) == kept(closed),
        decreases end - i,
    {
        let c = e[i];
        assert(rel.take(i + 1).drop_last() =~= rel.take(i as int));
        assert(rel.take(i + 1).last() == c);
        if c == '/' || c == '\\' {
            let piece = sanitize_chars(&cur);
            let ghost before = closed;
            proof {
                closed = closed.push(cur@);
                assert(closed.drop_last() =~= before);
            }
            if keeps_chars(&piece) {
                parts.push(string_of(&piece));
                assert(views(parts@) =~= kept(before).push(piece@));
            }
            cur = Vec::new();
            assert(split_seps(rel.take(i + 1)) =~= closed.push(cur@));
        } else {
            let ghost before = cur@;
            cur.push(c);
            assert(split_seps(rel.take(i + 1)) =~= closed.push(cur@));
        }
        i += 1;
    }
    assert(rel.take(end as int) =~= rel);
    let piece = sanitize_chars(&cur);
    let ghost before = closed;
    proof {
        closed = closed.push(cur@);
        assert(closed.drop_last() =~= before);
    }
    if keeps_chars(&piece) {
        parts.push(string_of(&piece));
        assert(views(parts@) =~= kept(before).push(piece@));
    }
    assert(split_seps(rel) == closed);
    if parts.len() == 0 {
        return None;
    }
    Some(TemplateTarget { parts, is_dir })
}

/// A piece that can stand as one name in a path below the task folder: it names something
/// and holds no separator or other character that a Windows file name cannot hold.
pub open spec fn safe_piece(p: Seq<char>) -> bool {
    keeps(p) && forall|k: int| 0 <= k < p.len() ==> !is_forbidden(#[trigger] p[k])
}

proof fn lemma_kept_safe(parts: Seq<Seq<char>>)
    ensures
        forall|i: int| 0 <= i < kept(parts).len() ==> safe_piece(#[trigger] kept(parts)[i]),
    decreases parts.len(),
{
    if parts.len() > 0 {
        lemma_kept_safe(parts.drop_last());
        let k0 = kept(parts.drop_last());
        let p = sanitized(parts.last());
        assert forall|k: int| 0 <= k < p.len() implies !is_forbidden(#[trigger] p[k]) by {}
        if keeps(p) {
            assert(safe_piece(p));
            assert(kept(parts) == k0.push(p));
            assert forall|i: int| 0 <= i < kept(parts).len() implies safe_piece(#[trigger] kept(parts)[i]) by {
                if i < k0.len() {
                    assert(kept(parts)[i] == k0[i]);
                }
            }
        } else {
            assert(kept(parts) == k0);
        }
    }
}

/// What a template entry creates stays inside the new task folder: every piece of its path is a
/// single name (no `/` or `\`, nothing a Windows name cannot hold) and none is empty, `.` or `..`.
pub proof fn lemma_template_stays_inside(entry: Seq<char>)
    ensures
        template_parts(entry) matches Some((parts, _)) ==> parts.len() > 0
            && forall|i: int| 0 <= i < parts.len() ==> safe_piece(#[trigger] parts[i]),
{
    let e = trimmed(entry);
    lemma_kept_safe(split_seps(trim_end_seps(e)));
}

/// What the template entries create, in order: each entry that names something.
pub open spec fn template_plan(entries: Seq<String>) -> Seq<(Seq<Seq<char>>, bool)>
    decreases entries.len(),
{
    if entries.len() == 0 {
        Seq::empty()
    } else {
        let r = template_plan(entries.drop_last());
        match template_parts(entries.last()@) {
            Some(t) => r.push(t),
            None => r,
        }
    }
}

pub open spec fn targets_view(ts: Seq<TemplateTarget>) -> Seq<(Seq<Seq<char>>, bool)> {
    ts.map_values(|t: TemplateTarget| (views(t.parts@), t.is_dir))
}

/// A new task: the folder to create, and the files and folders to create in it.
#[derive(Clone, Debug)]
pub struct NewTask {
    pub folder_name: String,
    pub targets: Vec<TemplateTarget>,
}

/// Plans a new task created on `date` (`YYYYMMDD`) from the name typed in: its folder name, and,
/// when the template is used, what each template entry creates. An error when the name
/// sanitises to nothing.
pub fn plan_new_task(date: &str, name: &str, use_template: bool, templates: &Vec<String>) -> (r: Result<NewTask, String>)
    ensures
        sanitized(name@).len() == 0 <==> r is Err,
        r matches Err(e) ==> e@ == empty_name_message(),
        r matches Ok(t) ==> {
            &&& t.folder_name@ == new_folder_name(date@, name@)
            &&& targets_view(t.targets@) == (if use_template { template_plan(templates@) } else { Seq::empty() })
        },
{
    let folder_name = match task_folder_name(date, name) {
        Ok(f) => f,
        Err(e) => return Err(e),
    };
    let mut targets: Vec<TemplateTarget> = Vec::new();
    if use_template {
        let mut i: usize = 0;
        while i < templates.len()
            invariant
                i <= templates.len(),
                targets_view(targets@) == template_plan(templates@.take(i as int)),
            decreases templates.len() - i,
        {
            assert(templates@.take(i + 1).drop_last() =~= templates@.take(i as int));
            match template_target(templates[i].as_str()) {
                Some(t) => {
                    let ghost before = targets@;
                    targets.push(t);
                    assert(targets_view(targets@) =~= targets_view(before).push(targets_view(targets@).last()));
                },
                None => {},
            }
            i += 1;
        }
        assert(templates@.take(templates@.len() as int) =~= templates@);
    }
    assert(targets_view(targets@) =~= (if use_template { template_plan(templates@) } else { Seq::empty() }));
    Ok(NewTask { folder_name, targets })
}

} // verus!
