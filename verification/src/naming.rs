//! Names of task folders: sanitising what the user types, the date prefix of a folder name,
//! renaming, the free name for a move, and the entries of a new task's template.
use vstd::prelude::*;
use crate::text::{is_ascii_text, ascii_lower, chars_of, string_of, trim_chars, trimmed, lead_ws, trail_ws, is_white_space, lemma_lead_ws, lemma_trail_ws, lowercase, to_lowercase, concat, same_chars};

verus! {

/// Characters that cannot stand in a Windows file name.
pub open spec fn is_forbidden(c: char) -> bool {
    c == '\\' || c == '/' || c == ':' || c == '*' || c == '?' || c == '"' || c == '<' || c == '>'
        || c == '|'
}

pub open spec fn replace_forbidden(c: char) -> char {
    if is_forbidden(c) {
        '_'
    } else {
        c
    }
}

/// `s` trimmed of white space, with every forbidden character replaced by `_`.
pub open spec fn sanitized(s: Seq<char>) -> Seq<char> {
    trimmed(s).map_values(|c: char| replace_forbidden(c))
}

/// The characters of `name` trimmed, with forbidden characters replaced by `_`.
pub fn sanitize_chars(name: &Vec<char>) -> (r: Vec<char>)
    ensures
        r@ == sanitized(name@),
{
    let t = trim_chars(name);
    let mut out: Vec<char> = Vec::new();
    let mut i: usize = 0;
    while i < t.len()
        invariant
            i <= t.len(),
            out@ == t@.take(i as int).map_values(|c: char| replace_forbidden(c)),
        decreases t.len() - i,
    {
        let c = t[i];
        let d = if c == '\\' || c == '/' || c == ':' || c == '*' || c == '?' || c == '"' || c == '<'
            || c == '>' || c == '|' {
            '_'
        } else {
            c
        };
        out.push(d);
        proof {
            assert(t@.take(i + 1).map_values(|c: char| replace_forbidden(c)) =~= t@.take(
                i as int,
            ).map_values(|c: char| replace_forbidden(c)).push(d));
        }
        i += 1;
    }
    assert(t@.take(t@.len() as int) =~= t@);
    out
}

/// Makes user input usable as a folder name: trims white space at both ends and replaces
/// each of `\ / : * ? " < > |` by `_`.
pub fn sanitize_name(name: &str) -> (r: String)
    ensures
        r@ == sanitized(name@),
{
    let cs = chars_of(name);
    string_of(&sanitize_chars(&cs))
}

/// A sequence with no white space at either end is its own trimming.
pub proof fn lemma_trimmed_fixed(s: Seq<char>)
    requires
        s.len() > 0 ==> !is_white_space(s[0]) && !is_white_space(s.last()),
    ensures
        trimmed(s) == s,
{
    assert(lead_ws(s) == 0);
    assert(s.skip(0) =~= s);
    assert(trail_ws(s) == 0);
    assert(s.take(s.len() as int) =~= s);
}

/// Sanitising leaves no forbidden character and no white space at either end, so sanitising
/// twice gives what sanitising once gave.
pub proof fn lemma_sanitize_idempotent(s: Seq<char>)
    ensures
        forall|i: int| 0 <= i < sanitized(s).len() ==> !is_forbidden(#[trigger] sanitized(s)[i]),
        sanitized(sanitized(s)) == sanitized(s),
{
    let t = trimmed(s);
    let u = s.skip(lead_ws(s) as int);
    lemma_lead_ws(s);
    lemma_trail_ws(u);
    let m = sanitized(s);
    if m.len() > 0 {
        assert(t[0] == u[0]);
        assert(t.last() == u[u.len() - trail_ws(u) - 1]);
        assert(!is_white_space(m[0]));
        assert(!is_white_space(m.last()));
    }
    lemma_trimmed_fixed(m);
    assert(sanitized(m) =~= m);
}

pub open spec fn is_digit(c: char) -> bool {
    '0' <= c <= '9'
}

/// Whether a folder name starts with an eight-digit date and an underscore.
pub open spec fn has_date_prefix(s: Seq<char>) -> bool {
    s.len() >= 9 && (forall|i: int| 0 <= i < 8 ==> is_digit(#[trigger] s[i])) && s[8] == '_'
}

/// The date prefix and the name of a folder: `20260802_調査` gives `20260802` and `調査`;
/// a prefix with nothing after it gives the prefix as the name; any other folder name is the
/// name itself, without prefix.
pub open spec fn folder_name_parts(s: Seq<char>) -> (Option<Seq<char>>, Seq<char>) {
    if has_date_prefix(s) {
        let prefix = s.take(8);
        let rest = s.skip(9);
        (Some(prefix), if rest.len() == 0 { prefix } else { rest })
    } else {
        (None, s)
    }
}

fn copy_range(cs: &Vec<char>, from: usize, to: usize) -> (r: Vec<char>)
    requires
        from <= to <= cs.len(),
    ensures
        r@ == cs@.subrange(from as int, to as int),
{
    let mut r: Vec<char> = Vec::new();
    let mut i = from;
    while i < to
        invariant
            from <= i <= to <= cs.len(),
            r@ == cs@.subrange(from as int, i as int),
        decreases to - i,
    {
        r.push(cs[i]);
        i += 1;
    }
    r
}

fn chars_have_date_prefix(cs: &Vec<char>) -> (r: bool)
    ensures
        r == has_date_prefix(cs@),
{
    if cs.len() < 9 {
        return false;
    }
    let mut i: usize = 0;
    while i < 8
        invariant
            i <= 8 < cs.len(),
            forall|j: int| 0 <= j < i ==> is_digit(#[trigger] cs@[j]),
        decreases 8 - i,
    {
        if !('0' <= cs[i] && cs[i] <= '9') {
            return false;
        }
        i += 1;
    }
    cs[8] == '_'
}

/// Splits a folder name into its date prefix (eight digits and `_`) and the task's name.
pub fn parse_folder_name(folder_name: &str) -> (r: (Option<String>, String))
    ensures
        r.0 matches Some(p) ==> folder_name_parts(folder_name@).0 == Some(p@),
        r.0 is None ==> folder_name_parts(folder_name@).0 is None,
        r.1@ == folder_name_parts(folder_name@).1,
{
    let cs = chars_of(folder_name);
    if chars_have_date_prefix(&cs) {
        let prefix = copy_range(&cs, 0, 8);
        let rest = copy_range(&cs, 9, cs.len());
        assert(prefix@ =~= cs@.take(8));
        assert(rest@ =~= cs@.skip(9));
        let name = if rest.len() == 0 {
            string_of(&prefix)
        } else {
            string_of(&rest)
        };
        (Some(string_of(&prefix)), name)
    } else {
        (None, string_of(&cs))
    }
}

/// A folder named from an eight-digit date and a name gives that date and name back.
pub proof fn lemma_parse_folder_name_roundtrip(prefix: Seq<char>, name: Seq<char>)
    requires
        prefix.len() == 8,
        forall|i: int| 0 <= i < 8 ==> is_digit(#[trigger] prefix[i]),
        name.len() > 0,
    ensures
        folder_name_parts(prefix + seq!['_'] + name) == (Some(prefix), name),
{
    let s = prefix + seq!['_'] + name;
    assert forall|i: int| 0 <= i < 8 implies is_digit(#[trigger] s[i]) by {
        assert(s[i] == prefix[i]);
    }
    assert(s[8] == '_');
    assert(s.take(8) =~= prefix);
    assert(s.skip(9) =~= name);
}

pub open spec fn digit_char(d: nat) -> char {
    if d == 0 {
        '0'
    } else if d == 1 {
        '1'
    } else if d == 2 {
        '2'
    } else if d == 3 {
        '3'
    } else if d == 4 {
        '4'
    } else if d == 5 {
        '5'
    } else if d == 6 {
        '6'
    } else if d == 7 {
        '7'
    } else if d == 8 {
        '8'
    } else {
        '9'
    }
}

/// The decimal digits of `n`, without leading zeros.
pub open spec fn decimal(n: nat) -> Seq<char>
    decreases n,
{
    if n < 10 {
        seq![digit_char(n)]
    } else {
        decimal(n / 10).push(digit_char(n % 10))
    }
}

fn digit(d: u32) -> (c: char)
    requires
        d < 10,
    ensures
        c == digit_char(d as nat),
{
    if d == 0 {
        '0'
    } else if d == 1 {
        '1'
    } else if d == 2 {
        '2'
    } else if d == 3 {
        '3'
    } else if d == 4 {
        '4'
    } else if d == 5 {
        '5'
    } else if d == 6 {
        '6'
    } else if d == 7 {
        '7'
    } else if d == 8 {
        '8'
    } else {
        '9'
    }
}

/// The decimal digits of `n`.
pub fn decimal_chars(n: u32) -> (r: Vec<char>)
    ensures
        r@ == decimal(n as nat),
    decreases n,
{
    if n < 10 {
        let mut v: Vec<char> = Vec::new();
        v.push(digit(n));
        v
    } else {
        let mut v = decimal_chars(n / 10);
        v.push(digit(n % 10));
        v
    }
}

pub proof fn lemma_decimal_len(n: nat)
    ensures
        decimal(n).len() >= 1,
        n >= 10 ==> decimal(n).len() >= 2,
    decreases n,
{
    if n >= 10 {
        lemma_decimal_len(n / 10);
    }
}

/// Different numbers have different decimal digits.
pub proof fn lemma_decimal_injective(a: nat, b: nat)
    requires
        decimal(a) == decimal(b),
    ensures
        a == b,
    decreases a,
{
    lemma_decimal_len(a);
    lemma_decimal_len(b);
    if a < 10 && b < 10 {
        assert(decimal(a)[0] == digit_char(a));
        assert(decimal(b)[0] == digit_char(b));
    } else if a >= 10 && b >= 10 {
        assert(decimal(a).last() == digit_char(a % 10));
        assert(decimal(b).last() == digit_char(b % 10));
        assert(decimal(a).drop_last() =~= decimal(a / 10));
        assert(decimal(b).drop_last() =~= decimal(b / 10));
        lemma_decimal_injective(a / 10, b / 10);
    }
}

/// The `n`-th name tried for a folder moved next to others: the name itself first
/// (`n` of 1 or less), then `name_2`, `name_3`, ...
pub open spec fn candidate(name: Seq<char>, n: nat) -> Seq<char> {
    if n <= 1 {
        name
    } else {
        name + seq!['_'] + decimal(n)
    }
}

/// The name tried on the `n`-th attempt to find a free destination for `folder_name`.
pub fn candidate_name(folder_name: &str, n: u32) -> (r: String)
    ensures
        r@ == candidate(folder_name@, n as nat),
{
    if n <= 1 {
        String::from_str(folder_name)
    } else {
        let mut cs = chars_of(folder_name);
        cs.push('_');
        let mut d = decimal_chars(n);
        cs.append(&mut d);
        string_of(&cs)
    }
}

/// Asking `taken` about a name spelled `name` answered `answer`.
pub open spec fn answered<F: Fn(String) -> bool>(taken: F, name: Seq<char>, answer: bool) -> bool {
    exists|s: String| s@ == name && #[trigger] call_ensures(taken, (s,), answer)
}

/// The first free destination for a folder named `folder_name`: the name itself, else `name_2`,
/// `name_3`, ...; `taken` tells whether a name is already used where the folder goes (the caller
/// asks the file system, which decides how names compare). The result is the first candidate
/// found free, every earlier one having been found taken; `None` only when every candidate a
/// `u32` can number was found taken.
pub fn unique_dest(folder_name: &str, taken: impl Fn(String) -> bool) -> (r: Option<String>)
    requires
        forall|s: String| call_requires(taken, (s,)),
    ensures
        r matches Some(d) ==> exists|n: nat| 1 <= n <= u32::MAX && d@ == #[trigger] candidate(folder_name@, n)
            && answered(taken, d@, false)
            && forall|m: nat| 1 <= m < n ==> answered(taken, #[trigger] candidate(folder_name@, m), true),
        r is None ==> forall|m: nat| 1 <= m <= u32::MAX ==> answered(taken, #[trigger] candidate(folder_name@, m), true),
{
    let mut n: u32 = 1;
    loop
        invariant
            1 <= n,
            forall|s: String| call_requires(taken, (s,)),
            forall|m: nat| 1 <= m < n ==> answered(taken, #[trigger] candidate(folder_name@, m), true),
        decreases u32::MAX - n,
    {
        let c = candidate_name(folder_name, n);
        let asked = c.clone();
        let used = taken(asked);
        if !used {
            assert(answered(taken, c@, false));
            return Some(c);
        }
        assert(answered(taken, candidate(folder_name@, n as nat), true));
        if n == u32::MAX {
            return None;
        }
        n = n + 1;
    }
}

/// When `taken` answers from a fixed set of names in use, the destination `unique_dest` finds is
/// free and is the least free one: the name itself when that is free, else `name_n` for the
/// least `n >= 2` not in use.
pub proof fn lemma_unique_dest_least_free<F: Fn(String) -> bool>(
    folder_name: Seq<char>,
    used: Set<Seq<char>>,
    taken: F,
    dest: Seq<char>,
    n: nat,
)
    requires
        forall|s: String, b: bool| #[trigger] call_ensures(taken, (s,), b) ==> b == used.contains(s@),
        1 <= n,
        dest == candidate(folder_name, n),
        answered(taken, dest, false),
        forall|m: nat| 1 <= m < n ==> answered(taken, #[trigger] candidate(folder_name, m), true),
    ensures
        !used.contains(dest),
        forall|m: nat| 1 <= m < n ==> used.contains(#[trigger] candidate(folder_name, m)),
{
    assert forall|m: nat| 1 <= m < n implies used.contains(#[trigger] candidate(folder_name, m)) by {
        assert(answered(taken, candidate(folder_name, m), true));
    }
}

/// The names tried one after another are all different, so the search moves on at every step.
pub proof fn lemma_candidates_distinct(name: Seq<char>, n1: nat, n2: nat)
    requires
        1 <= n1 < n2,
    ensures
        candidate(name, n1) != candidate(name, n2),
{
    lemma_decimal_len(n2);
    if n1 >= 2 {
        let c1 = candidate(name, n1);
        let c2 = candidate(name, n2);
        if c1 == c2 {
            assert(c1.skip(name.len() + 1 as int) =~= decimal(n1));
            assert(c2.skip(name.len() + 1 as int) =~= decimal(n2));
            lemma_decimal_injective(n1, n2);
        }
    } else {
        assert(candidate(name, n2).len() > name.len());
    }
}

/// The message for an input that sanitises to nothing.
pub open spec fn empty_name_message() -> Seq<char> {
    "作業名を入力してください"@
}

/// The message for a folder name that is already taken.
pub open spec fn exists_message(folder_name: Seq<char>) -> Seq<char> {
    folder_name + " は既に存在します"@
}

/// "`folder_name` は既に存在します".
pub fn already_exists(folder_name: &str) -> (r: String)
    ensures
        r@ == exists_message(folder_name@),
{
    concat(folder_name, " は既に存在します")
}

/// The folder name of a new task: the date, `_`, and the sanitised name.
pub open spec fn new_folder_name(date: Seq<char>, name: Seq<char>) -> Seq<char> {
    date + seq!['_'] + sanitized(name)
}

/// The folder name for a new task created on `date` (as `YYYYMMDD`) from the name typed in;
/// an error when the name sanitises to nothing.
pub fn task_folder_name(date: &str, name: &str) -> (r: Result<String, String>)
    ensures
        sanitized(name@).len() == 0 <==> r is Err,
        r matches Err(e) ==> e@ == empty_name_message(),
        r matches Ok(f) ==> f@ == new_folder_name(date@, name@),
{
    let clean = sanitize_name(name);
    if clean.as_str().is_empty() {
        return Err(String::from_str("作業名を入力してください"));
    }
    let mut cs = chars_of(date);
    cs.push('_');
    let mut rest = chars_of(clean.as_str());
    cs.append(&mut rest);
    Ok(string_of(&cs))
}

/// What renaming a task folder comes to.
#[derive(Clone, Debug)]
pub enum RenamePlan {
    /// The folder already has that name.
    Unchanged,
    /// Rename to `folder_name`. `case_only` says that the new name differs from the current one
    /// only by letter case, which is then no clash with the folder itself.
    Rename { folder_name: String, case_only: bool },
}

/// The new folder name: the current date prefix (if any) kept, the name replaced.
pub open spec fn renamed_folder(name: Seq<char>, current: Seq<char>) -> Seq<char> {
    match folder_name_parts(current).0 {
        Some(prefix) => prefix + seq!['_'] + sanitized(name),
        None => sanitized(name),
    }
}

/// Plans the rename of a task folder named `current` to the name typed in: the date prefix is
/// kept and only the name part replaced; an error when the name sanitises to nothing.
pub fn plan_rename(name: &str, current: &str) -> (r: Result<RenamePlan, String>)
    ensures
        sanitized(name@).len() == 0 <==> r is Err,
        r matches Err(e) ==> e@ == empty_name_message(),
        r matches Ok(RenamePlan::Unchanged) ==> renamed_folder(name@, current@) == current@,
        r matches Ok(RenamePlan::Rename { folder_name, case_only }) ==> {
            &&& folder_name@ == renamed_folder(name@, current@)
            &&& folder_name@ != current@
            &&& case_only == (lowercase(folder_name@) == lowercase(current@))
            &&& is_ascii_text(folder_name@) && is_ascii_text(current@) ==> case_only == (
                folder_name@.map_values(|c: char| ascii_lower(c)) == current@.map_values(
                    |c: char| ascii_lower(c),
                ))
        },
{
    let clean = sanitize_name(name);
    if clean.as_str().is_empty() {
        return Err(String::from_str("作業名を入力してください"));
    }
    let (prefix, _) = parse_folder_name(current);
    let folder_name = match prefix {
        Some(p) => {
            let mut cs = chars_of(p.as_str());
            cs.push('_');
            let mut rest = chars_of(clean.as_str());
            cs.append(&mut rest);
            string_of(&cs)
        },
        None => clean,
    };
    let cur = String::from_str(current);
    if folder_name == cur {
        return Ok(RenamePlan::Unchanged);
    }
    let a = to_lowercase(folder_name.as_str());
    let b = to_lowercase(current);
    let case_only = a == b;
    Ok(RenamePlan::Rename { folder_name, case_only })
}

/// Renaming keeps the date prefix: a folder with a date prefix keeps that prefix, and its
/// name becomes the sanitised input.
pub proof fn lemma_rename_keeps_date_prefix(name: Seq<char>, current: Seq<char>)
    requires
        has_date_prefix(current),
        sanitized(name).len() > 0,
    ensures
        folder_name_parts(renamed_folder(name, current)) == (
            folder_name_parts(current).0,
            sanitized(name),
        ),
{
    let prefix = current.take(8);
    assert forall|i: int| 0 <= i < 8 implies is_digit(#[trigger] prefix[i]) by {
        assert(prefix[i] == current[i]);
    }
    lemma_parse_folder_name_roundtrip(prefix, sanitized(name));
}

/// The name of the temporary file written beside `file_name` before it replaces it.
pub fn temp_file_name(file_name: &str) -> (r: String)
    ensures
        r@ == file_name@ + ".tmp"@,
{
    concat(file_name, ".tmp")
}

/// The name of the metadata file kept in every task folder.
pub open spec fn meta_file() -> Seq<char> {
    ".todo.json"@
}

/// Whether a directory entry is the metadata file or one derived from it (its temporary copy):
/// such entries are not shown or counted.
pub fn is_meta_entry(name: &str) -> (r: bool)
    ensures
        r == (meta_file().len() <= name@.len() && name@.take(meta_file().len() as int) == meta_file()),
{
    let cs = chars_of(name);
    let m = chars_of(".todo.json");
    crate::text::starts_with_chars(&cs, &m)
}

/// Whether a directory entry is the metadata file itself.
pub fn is_meta_file(name: &str) -> (r: bool)
    ensures
        r == (name@ == meta_file()),
{
    let cs = chars_of(name);
    let m = chars_of(".todo.json");
    same_chars(&cs, &m)
}

/// Whether a folder name is a year: four ASCII digits (so four bytes as well).
pub open spec fn is_year_name(s: Seq<char>) -> bool {
    s.len() == 4 && forall|i: int| 0 <= i < 4 ==> is_digit(#[trigger] s[i])
}

/// Whether an archive entry named `name` is a year folder holding finished tasks.
pub fn is_year_dir(name: &str) -> (r: bool)
    ensures
        r == is_year_name(name@),
{
    let cs = chars_of(name);
    if cs.len() != 4 {
        return false;
    }
    let mut i: usize = 0;
    while i < 4
        invariant
            i <= 4 == cs.len(),
            cs@ == name@,
            forall|j: int| 0 <= j < i ==> is_digit(#[trigger] cs@[j]),
        decreases 4 - i,
    {
        if !('0' <= cs[i] && cs[i] <= '9') {
            assert(!is_digit(cs@[i as int]));
            return false;
        }
        i += 1;
    }
    true
}

/// Whether a sub-folder is taken as a task: folders whose names start with `.` are not.
pub fn is_task_dir_name(name: &str) -> (r: bool)
    ensures
        r == (name@.len() == 0 || name@[0] != '.'),
{
    let cs = chars_of(name);
    cs.len() == 0 || cs[0] != '.'
}

} // verus!
