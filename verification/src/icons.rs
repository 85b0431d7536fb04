//! The icons shown beside the entries of a folder listing: which icons can be shared, the
//! cache that holds them, and turning the shell's pixels into a PNG data URI.
use vstd::prelude::*;
use base64::Engine;
use crate::text::{chars_of, concat, lowercase, to_lowercase, same_chars, is_ascii_text, ascii_lower};
use crate::template::is_sep;

verus! {

/// Extensions whose icon belongs to the file itself (programs, shortcuts, icons, web links)
/// and is not shared with other files of the kind.
pub open spec fn is_per_file_ext(ext: Seq<char>) -> bool {
    ext == "exe"@ || ext == "lnk"@ || ext == "ico"@ || ext == "url"@
}

fn per_file_ext(ext: &str) -> (r: bool)
    ensures
        r == is_per_file_ext(ext@),
{
    let e = String::from_str(ext);
    let a = String::from_str("exe");
    let b = String::from_str("lnk");
    let c = String::from_str("ico");
    let d = String::from_str("url");
    e == a || e == b || e == c || e == d
}

/// The key under which an icon is shared: one for all folders, one per extension, one for all
/// files without extension, and one per path (lower-cased) for files with their own icon.
pub open spec fn icon_key(path: Seq<char>, is_dir: bool, ext: Seq<char>) -> Seq<char> {
    if is_dir {
        "\0dir"@
    } else if is_per_file_ext(ext) {
        lowercase(path)
    } else if ext.len() == 0 {
        "\0file"@
    } else {
        ext
    }
}

/// The cache key of the icon of the entry at `path`, a folder or a file with the (lower-case)
/// extension `ext`.
pub fn cache_key(path: &str, is_dir: bool, ext: &str) -> (r: String)
    ensures
        r@ == icon_key(path@, is_dir, ext@),
        !is_dir && is_per_file_ext(ext@) && is_ascii_text(path@) ==> r@ == path@.map_values(
            |c: char| ascii_lower(c),
        ),
{
    if is_dir {
        String::from_str("\0dir")
    } else if per_file_ext(ext) {
        to_lowercase(path)
    } else if ext.is_empty() {
        String::from_str("\0file")
    } else {
        String::from_str(ext)
    }
}

/// The icons found so far, and the kinds for which none could be had (so that they are not
/// asked for again).
#[derive(Clone, Debug)]
pub struct IconCache {
    entries: Vec<(String, Option<String>)>,
}

pub open spec fn icon_view(v: Option<String>) -> Option<Seq<char>> {
    match v {
        Some(s) => Some(s@),
        None => None,
    }
}

/// What the cache holds for the key `k`, looking from entry `i` on.
pub open spec fn lookup_from(entries: Seq<(String, Option<String>)>, k: Seq<char>, i: int) -> Option<Option<Seq<char>>>
    decreases entries.len() - i,
{
    if i >= entries.len() || i < 0 {
        None
    } else if entries[i].0@ == k {
        Some(icon_view(entries[i].1))
    } else {
        lookup_from(entries, k, i + 1)
    }
}

impl IconCache {
    /// What the cache holds for the key `k`: `None` when the key was never stored.
    pub closed spec fn cached(&self, k: Seq<char>) -> Option<Option<Seq<char>>> {
        lookup_from(self.entries@, k, 0)
    }

    pub fn new() -> (r: IconCache)
        ensures
            forall|k: Seq<char>| r.cached(k) is None,
    {
        IconCache { entries: Vec::new() }
    }

    fn position(&self, key: &str) -> (r: Option<usize>)
        ensures
            r matches Some(i) ==> i < self.entries@.len() && self.entries@[i as int].0@ == key@
                && forall|j: int| 0 <= j < i ==> self.entries@[j].0@ != key@,
            r is None ==> lookup_from(self.entries@, key@, 0) is None,
    {
        let k = chars_of(key);
        let mut i: usize = 0;
        while i < self.entries.len()
            invariant
                i <= self.entries@.len(),
                k@ == key@,
                lookup_from(self.entries@, key@, 0) == lookup_from(self.entries@, key@, i as int),
                forall|j: int| 0 <= j < i ==> self.entries@[j].0@ != key@,
            decreases self.entries.len() - i,
        {
            let e = chars_of(self.entries[i].0.as_str());
            if same_chars(&e, &k) {
                return Some(i);
            }
            i += 1;
        }
        None
    }

    /// The icon stored under `key`, if the key was stored (an inner `None` records that no icon
    /// could be had).
    pub fn get(&self, key: &str) -> (r: Option<Option<String>>)
        ensures
            match r {
                Some(v) => self.cached(key@) == Some(icon_view(v)),
                None => self.cached(key@) is None,
            },
    {
        match self.position(key) {
            Some(i) => {
                proof {
                    lemma_lookup_first(self.entries@, key@, i as int, 0);
                }
                match &self.entries[i].1 {
                    Some(icon) => Some(Some(icon.clone())),
                    None => Some(None),
                }
            },
            None => None,
        }
    }

    /// Stores `icon` under `key`, replacing what was stored under it.
    pub fn insert(&mut self, key: String, icon: Option<String>)
        ensures
            final(self).cached(key@) == Some(icon_view(icon)),
            forall|k: Seq<char>| k != key@ ==> final(self).cached(k) == old(self).cached(k),
    {
        let ghost kv = key@;
        let ghost iv = icon_view(icon);
        match self.position(key.as_str()) {
            Some(i) => {
                let ghost before = self.entries@;
                self.entries.set(i, (key, icon));
                proof {
                    lemma_lookup_update(before, i as int, self.entries@);
                }
            },
            None => {
                let ghost before = self.entries@;
                self.entries.push((key, icon));
                proof {
                    lemma_lookup_push(before, self.entries@, kv);
                }
            },
        }
    }
}

proof fn lemma_lookup_update(before: Seq<(String, Option<String>)>, i: int, after: Seq<(String, Option<String>)>)
    requires
        0 <= i < before.len(),
        after.len() == before.len(),
        after[i].0@ == before[i].0@,
        forall|j: int| 0 <= j < before.len() && j != i ==> after[j] == before[j],
        forall|j: int| 0 <= j < i ==> before[j].0@ != before[i].0@,
    ensures
        lookup_from(after, after[i].0@, 0) == Some(icon_view(after[i].1)),
        forall|k: Seq<char>| k != after[i].0@ ==> lookup_from(after, k, 0) == lookup_from(before, k, 0),
{
    assert forall|k: Seq<char>| k != after[i].0@ implies lookup_from(after, k, 0) == lookup_from(before, k, 0) by {
        lemma_lookup_same_other(before, after, i, k, 0);
    }
    lemma_lookup_prefix(before, after, i, 0);
}

proof fn lemma_lookup_first(s: Seq<(String, Option<String>)>, k: Seq<char>, i: int, from: int)
    requires
        0 <= from <= i < s.len(),
        s[i].0@ == k,
        forall|j: int| 0 <= j < i ==> s[j].0@ != k,
    ensures
        lookup_from(s, k, from) == Some(icon_view(s[i].1)),
    decreases i - from,
{
    if from < i {
        lemma_lookup_first(s, k, i, from + 1);
    }
}

proof fn lemma_lookup_same_other(before: Seq<(String, Option<String>)>, after: Seq<(String, Option<String>)>, i: int, k: Seq<char>, from: int)
    requires
        0 <= i < before.len(),
        after.len() == before.len(),
        after[i].0@ == before[i].0@,
        forall|j: int| 0 <= j < before.len() && j != i ==> after[j] == before[j],
        k != after[i].0@,
        0 <= from,
    ensures
        lookup_from(after, k, from) == lookup_from(before, k, from),
    decreases before.len() - from,
{
    if from < before.len() {
        lemma_lookup_same_other(before, after, i, k, from + 1);
    }
}

proof fn lemma_lookup_prefix(before: Seq<(String, Option<String>)>, after: Seq<(String, Option<String>)>, i: int, from: int)
    requires
        0 <= i < before.len(),
        after.len() == before.len(),
        after[i].0@ == before[i].0@,
        forall|j: int| 0 <= j < before.len() && j != i ==> after[j] == before[j],
        0 <= from <= i,
        forall|j: int| 0 <= j < i ==> before[j].0@ != before[i].0@,
    ensures
        lookup_from(after, after[i].0@, from) == Some(icon_view(after[i].1)),
    decreases i - from,
{
    if from < i {
        lemma_lookup_prefix(before, after, i, from + 1);
    }
}

proof fn lemma_lookup_push(before: Seq<(String, Option<String>)>, after: Seq<(String, Option<String>)>, k: Seq<char>)
    requires
        after.len() == before.len() + 1,
        after.last().0@ == k,
        forall|j: int| 0 <= j < before.len() ==> after[j] == before[j],
        lookup_from(before, k, 0) is None,
    ensures
        lookup_from(after, k, 0) == Some(icon_view(after.last().1)),
        forall|k2: Seq<char>| k2 != k ==> lookup_from(after, k2, 0) == lookup_from(before, k2, 0),
{
    lemma_lookup_push_from(before, after, k, 0);
    assert forall|k2: Seq<char>| k2 != k implies lookup_from(after, k2, 0) == lookup_from(before, k2, 0) by {
        lemma_lookup_push_other(before, after, k2, 0);
    }
}

proof fn lemma_lookup_push_from(before: Seq<(String, Option<String>)>, after: Seq<(String, Option<String>)>, k: Seq<char>, from: int)
    requires
        after.len() == before.len() + 1,
        after.last().0@ == k,
        forall|j: int| 0 <= j < before.len() ==> after[j] == before[j],
        0 <= from <= before.len(),
        lookup_from(before, k, from) is None,
    ensures
        lookup_from(after, k, from) == Some(icon_view(after.last().1)),
    decreases before.len() - from,
{
    if from < before.len() {
        lemma_lookup_push_from(before, after, k, from + 1);
    }
}

proof fn lemma_lookup_push_other(before: Seq<(String, Option<String>)>, after: Seq<(String, Option<String>)>, k2: Seq<char>, from: int)
    requires
        after.len() == before.len() + 1,
        after.last().0@ != k2,
        forall|j: int| 0 <= j < before.len() ==> after[j] == before[j],
        0 <= from,
    ensures
        lookup_from(after, k2, from) == lookup_from(before, k2, from),
    decreases after.len() - from,
{
    if from < after.len() {
        lemma_lookup_push_other(before, after, k2, from + 1);
    }
}


/// Characters that end a file name on some platform (`/`, `\\`, or a drive's `:`).
pub open spec fn name_bound(c: char) -> bool {
    c == '/' || c == '\\' || c == ':'
}

/// The number of `\\` in `s`.
pub open spec fn backslashes(s: Seq<char>) -> nat
    decreases s.len(),
{
    if s.len() == 0 {
        0
    } else {
        backslashes(s.drop_last()) + if s.last() == '\\' { 1nat } else { 0nat }
    }
}

/// `path` ends with a file name `stem.ext` whatever the platform's separators: `ext` is not
/// empty and holds no dot, separator or `:`, the stem does not end with one of those, and a path
/// that starts with two separators (which Windows may read as a `\\server\share` or `\\?\`
/// prefix) has more `\\` than any such prefix holds before the dot.
pub open spec fn plain_extension(path: Seq<char>, ext: Seq<char>) -> bool {
    let dot = path.len() - ext.len() - 1;
    &&& ext.len() > 0
    &&& dot >= 1
    &&& path.skip(dot + 1) == ext
    &&& path[dot] == '.'
    &&& !name_bound(path[dot - 1])
    &&& forall|k: int| 0 <= k < ext.len() ==> #[trigger] ext[k] != '.' && !name_bound(ext[k])
    &&& (is_sep(path[0]) && is_sep(path[1]) ==> dot >= 2 && backslashes(path.subrange(2, dot)) >= 4)
}

/// std `Path::extension`, the text after the last dot of the path's file name. Which characters
/// end the file name, and which leading parts form a prefix, differs between platforms, so only
/// the paths on which every platform agrees are stated: when the path ends with `stem.ext` as
/// `plain_extension` describes, the extension is `ext`; a path without any dot has no extension
/// (the extension is what follows a dot of the file name). What it gives on other paths (a trailing
/// separator or `.`, a name that starts with its only dot, a Windows prefix) is not stated.
#[verifier::external_body]
fn path_extension(path: &str) -> (r: Option<String>)
    ensures
        r is None ==> forall|e: Seq<char>| !#[trigger] plain_extension(path@, e),
        r matches Some(x) ==> forall|e: Seq<char>| #[trigger] plain_extension(path@, e) ==> x@ == e,
        (forall|k: int| 0 <= k < path@.len() ==> path@[k] != '.') ==> r is None,
{
    std::path::Path::new(path).extension().map(|e| e.to_string_lossy().into_owned())
}

/// How the shell is asked for an icon: the name it is asked about, whether that name stands
/// for a folder, and whether only the kind matters (so the disk is not touched).
#[derive(Clone, Debug)]
pub struct IconQuery {
    pub text: String,
    pub directory: bool,
    pub by_attributes: bool,
}

/// What to do to show the icon of an entry: use what the cache holds, or ask the shell and
/// record the answer under `key`.
#[derive(Clone, Debug)]
pub enum IconPlan {
    Cached(Option<String>),
    Extract { key: String, query: IconQuery },
}

/// The name the shell is asked about: the file itself when its icon is its own, otherwise a
/// stand-in name of the same kind.
pub open spec fn query_text(path: Seq<char>, is_dir: bool, ext: Seq<char>) -> Seq<char> {
    if !is_dir && is_per_file_ext(ext) {
        path
    } else if is_dir || ext.len() == 0 {
        "x"@
    } else {
        "x."@ + ext
    }
}

/// The query for the icon of the entry at `path`, whose (lower-case) extension is `ext`.
pub fn icon_query(path: &str, is_dir: bool, ext: &str) -> (q: IconQuery)
    ensures
        q.text@ == query_text(path@, is_dir, ext@),
        q.directory == is_dir,
        q.by_attributes == !(!is_dir && is_per_file_ext(ext@)),
{
    let per_file = !is_dir && per_file_ext(ext);
    let text = if per_file {
        String::from_str(path)
    } else if is_dir || ext.is_empty() {
        String::from_str("x")
    } else {
        let x = String::from_str("x.");
        proof {
            reveal_strlit("x.");
        }
        concat(&x, ext)
    };
    IconQuery { text, directory: is_dir, by_attributes: !per_file }
}

/// The lower-case extension of `path` as the icon logic uses it, empty when there is none.
pub open spec fn ext_used(path_ext: Option<String>) -> Seq<char> {
    match path_ext {
        Some(e) => lowercase(e@),
        None => Seq::empty(),
    }
}

/// What `data_uri` plans for the entry at `path` when its extension reads `ext`.
pub open spec fn icon_plan_for(cache: IconCache, path: Seq<char>, is_dir: bool, ext: Seq<char>, plan: IconPlan) -> bool {
    let key = icon_key(path, is_dir, ext);
    match cache.cached(key) {
        Some(hit) => plan matches IconPlan::Cached(v) && icon_view(v) == hit,
        None => plan matches IconPlan::Extract { key: k, query: q } && k@ == key
            && q.text@ == query_text(path, is_dir, ext) && q.directory == is_dir
            && q.by_attributes == !(!is_dir && is_per_file_ext(ext)),
    }
}

/// Plans the icon of the entry at `path`: the cached answer for its kind when there is one
/// (also when it records that no icon could be had), else the query to put to the shell. The
/// kind is read from the path's extension, lower-cased; for a path that ends with `stem.ext` on
/// every platform (`plain_extension`), that extension is `ext`, and a path without any dot has
/// none.
pub fn data_uri(cache: &IconCache, path: &str, is_dir: bool) -> (r: IconPlan)
    ensures
        exists|e: Option<String>| #[trigger] icon_plan_for(*cache, path@, is_dir, ext_used(e), r),
        forall|e: Seq<char>| #[trigger] plain_extension(path@, e)
            ==> icon_plan_for(*cache, path@, is_dir, lowercase(e), r),
        (forall|k: int| 0 <= k < path@.len() ==> path@[k] != '.')
            ==> icon_plan_for(*cache, path@, is_dir, Seq::empty(), r),
{
    let found = path_extension(path);
    let ext = match &found {
        Some(e) => to_lowercase(e.as_str()),
        None => String::new(),
    };
    let key = cache_key(path, is_dir, ext.as_str());
    let r = match cache.get(key.as_str()) {
        Some(hit) => IconPlan::Cached(hit),
        None => IconPlan::Extract { key, query: icon_query(path, is_dir, ext.as_str()) },
    };
    assert(icon_plan_for(*cache, path@, is_dir, ext_used(found), r));
    r
}

/// Icons are shared by kind: all folders share one key, files with the same extension share
/// one whatever their folder, files without extension share one, and these never meet.
pub proof fn lemma_icons_shared_by_kind(p1: Seq<char>, p2: Seq<char>, ext: Seq<char>)
    ensures
        icon_key(p1, true, ext) == icon_key(p2, true, Seq::empty()),
        !is_per_file_ext(ext) ==> icon_key(p1, false, ext) == icon_key(p2, false, ext),
        icon_key(p1, true, ext) != icon_key(p2, false, Seq::empty()),
{
    reveal_strlit("\0dir");
    reveal_strlit("\0file");
    reveal_strlit("exe");
    reveal_strlit("lnk");
    reveal_strlit("ico");
    reveal_strlit("url");
    let none: Seq<char> = Seq::empty();
    assert(!is_per_file_ext(none)) by {
        assert(none.len() != "exe"@.len());
    }
    assert(icon_key(p2, false, none) == "\0file"@);
    assert("\0dir"@[1] != "\0file"@[1]);
}

/// Once the answer for a kind is recorded, the shell is not asked again for that kind: a plan
/// that `data_uri` may give for another file of the kind (a folder, or a file whose extension,
/// lower-cased, is the same and is not one whose icon is the file's own) is the recorded answer.
pub proof fn lemma_recorded_kind_is_reused(
    cache: IconCache,
    first: Seq<char>,
    first_ext: Seq<char>,
    path: Seq<char>,
    ext: Seq<char>,
    is_dir: bool,
    icon: Option<String>,
    plan: IconPlan,
)
    requires
        cache.cached(icon_key(first, is_dir, lowercase(first_ext))) == Some(icon_view(icon)),
        is_dir || (lowercase(first_ext) == lowercase(ext) && !is_per_file_ext(lowercase(ext))),
        plain_extension(path, ext),
        forall|e: Seq<char>| #[trigger] plain_extension(path, e)
            ==> icon_plan_for(cache, path, is_dir, lowercase(e), plan),
    ensures
        plan matches IconPlan::Cached(v) && icon_view(v) == icon_view(icon),
{
    assert(icon_plan_for(cache, path, is_dir, lowercase(ext), plan));
    assert(icon_key(path, is_dir, lowercase(ext)) == icon_key(first, is_dir, lowercase(first_ext)));
}

/// Files without extension share one icon: once the answer for one is recorded, a plan that
/// `data_uri` may give for another path without a dot (a file, or a folder) is the answer
/// recorded for its kind.
pub proof fn lemma_extensionless_kind_is_reused(
    cache: IconCache,
    first: Seq<char>,
    path: Seq<char>,
    is_dir: bool,
    icon: Option<String>,
    plan: IconPlan,
)
    requires
        cache.cached(icon_key(first, is_dir, Seq::empty())) == Some(icon_view(icon)),
        forall|k: int| 0 <= k < path.len() ==> path[k] != '.',
        (forall|k: int| 0 <= k < path.len() ==> path[k] != '.')
            ==> icon_plan_for(cache, path, is_dir, Seq::empty(), plan),
    ensures
        plan matches IconPlan::Cached(v) && icon_view(v) == icon_view(icon),
{
    let none: Seq<char> = Seq::empty();
    reveal_strlit("exe");
    reveal_strlit("lnk");
    reveal_strlit("ico");
    reveal_strlit("url");
    assert(!is_per_file_ext(none)) by {
        assert(none.len() != "exe"@.len());
        assert(none.len() != "lnk"@.len());
        assert(none.len() != "ico"@.len());
        assert(none.len() != "url"@.len());
    }
    assert(icon_key(path, is_dir, none) == icon_key(first, is_dir, none));
}

/// Records what the shell gave for the icon planned under `key`, and hands it on.
pub fn record_icon(cache: &mut IconCache, key: String, icon: Option<String>) -> (r: Option<String>)
    ensures
        icon_view(r) == icon_view(icon),
        final(cache).cached(key@) == Some(icon_view(icon)),
        forall|k: Seq<char>| k != key@ ==> final(cache).cached(k) == old(cache).cached(k),
{
    let out = match &icon {
        Some(s) => Some(s.clone()),
        None => None,
    };
    cache.insert(key, icon);
    out
}

/// No alpha byte of the complete pixels is set: the bitmap carries no transparency.
pub open spec fn alpha_all_zero(px: Seq<u8>) -> bool {
    forall|k: int| 0 <= k && 4 * k + 3 < px.len() ==> #[trigger] px[4 * k + 3] == 0
}

/// Byte `i` of the RGBA form of the BGRA pixels `px`: blue and red trade places, and when the
/// bitmap has no transparency every pixel becomes opaque. Bytes after the last complete pixel
/// are kept.
pub open spec fn rgba_byte(px: Seq<u8>, opaque: bool, i: int) -> u8 {
    if i >= px.len() / 4 * 4 {
        px[i]
    } else if i % 4 == 0 {
        px[i + 2]
    } else if i % 4 == 2 {
        px[i - 2]
    } else if i % 4 == 3 && opaque {
        255
    } else {
        px[i]
    }
}

pub open spec fn rgba_of(px: Seq<u8>) -> Seq<u8> {
    Seq::new(px.len(), |i: int| rgba_byte(px, alpha_all_zero(px), i))
}

/// Turns the BGRA pixels that GDI hands out into RGBA.
pub fn bgra_to_rgba(bgra: Vec<u8>) -> (r: Vec<u8>)
    ensures
        r@ == rgba_of(bgra@),
{
    let n = bgra.len();
    let pixels = n / 4;
    let ghost orig = bgra@;
    let mut opaque = true;
    let mut j: usize = 0;
    while j < pixels
        invariant
            j <= pixels,
            pixels == n / 4,
            n == orig.len(),
            bgra@ == orig,
            opaque <==> forall|k: int| 0 <= k < j ==> #[trigger] orig[4 * k + 3] == 0,
        decreases pixels - j,
    {
        if bgra[4 * j + 3] != 0 {
            opaque = false;
        }
        j += 1;
    }
    assert(opaque == alpha_all_zero(orig)) by {
        assert forall|k: int| 0 <= k && 4 * k + 3 < orig.len() implies (k < pixels && #[trigger] orig[4 * k + 3] == orig[4 * k + 3]) by {}
    }
    let mut px = bgra;
    let mut j: usize = 0;
    while j < pixels
        invariant
            j <= pixels,
            pixels == n / 4,
            n == orig.len(),
            px@.len() == n,
            opaque == alpha_all_zero(orig),
            forall|i: int| 0 <= i < 4 * j ==> #[trigger] px@[i] == rgba_byte(orig, opaque, i),
            forall|i: int| 4 * j <= i < n ==> #[trigger] px@[i] == orig[i],
        decreases pixels - j,
    {
        let b = px[4 * j];
        let r = px[4 * j + 2];
        px.set(4 * j, r);
        px.set(4 * j + 2, b);
        if opaque {
            px.set(4 * j + 3, 255);
        }
        j += 1;
    }
    assert(px@ == rgba_of(orig));
    px
}

/// One base64 digit of the standard alphabet.
pub open spec fn b64_digit(v: int) -> char {
    if v < 26 {
        (65 + v) as char
    } else if v < 52 {
        (97 + v - 26) as char
    } else if v < 62 {
        (48 + v - 52) as char
    } else if v == 62 {
        '+'
    } else {
        '/'
    }
}

/// Standard base64 (RFC 4648 alphabet, with `=` padding): each three bytes become four digits.
pub open spec fn base64_std(b: Seq<u8>) -> Seq<char>
    decreases b.len(),
{
    if b.len() == 0 {
        Seq::empty()
    } else {
        let b0 = b[0] as int;
        let b1 = if b.len() > 1 { b[1] as int } else { 0 };
        let b2 = if b.len() > 2 { b[2] as int } else { 0 };
        let c0 = b64_digit(b0 / 4);
        let c1 = b64_digit((b0 % 4) * 16 + b1 / 16);
        let c2 = b64_digit((b1 % 16) * 4 + b2 / 64);
        let c3 = b64_digit(b2 % 64);
        if b.len() == 1 {
            seq![c0, c1, '=', '=']
        } else if b.len() == 2 {
            seq![c0, c1, c2, '=']
        } else {
            seq![c0, c1, c2, c3] + base64_std(b.skip(3))
        }
    }
}

/// `base64::engine::general_purpose::STANDARD.encode`: the standard alphabet with padding. It
/// panics only when the length of the result does not fit in `usize`, which `requires` leaves
/// out.
#[verifier::external_body]
fn base64_standard(bytes: &[u8]) -> (r: String)
    requires
        bytes@.len() / 3 * 4 + 4 <= usize::MAX,
    ensures
        r@ == base64_std(bytes@),
{
    base64::engine::general_purpose::STANDARD.encode(bytes)
}

/// The PNG file (8-bit RGBA, the crate's default compression and filter) that the png crate
/// writes for an image of `width` by `height` pixels.
pub uninterp spec fn png_rgba8(width: u32, height: u32, rgba: Seq<u8>) -> Seq<u8>;

/// The eight bytes every PNG file starts with.
pub open spec fn png_signature() -> Seq<u8> {
    seq![137u8, 80u8, 78u8, 71u8, 13u8, 10u8, 26u8, 10u8]
}

/// Encodes RGBA8 pixels with `png::Encoder` (`write_header`, `write_image_data`, and the
/// writer's finish on drop) into memory. The crate refuses a zero width or height and pixel data
/// of another length than four bytes per pixel; with the options set here (8-bit RGBA, a single
/// image, the default compression and filter) its other errors come from the writer, and a
/// `Vec` never refuses a write, so it succeeds on every other input. The file is then the
/// crate's encoding of the pixels and starts with the PNG signature.
#[verifier::external_body]
fn encode_png(width: u32, height: u32, rgba: &[u8]) -> (r: Option<Vec<u8>>)
    requires
        width * height * 4 <= usize::MAX,
    ensures
        r is Some <==> (width > 0 && height > 0 && rgba@.len() == width * height * 4),
        r matches Some(png) ==> png@ == png_rgba8(width, height, rgba@),
        r matches Some(png) ==> png@.len() >= 8 && png@.take(8) == png_signature(),
        r matches Some(png) ==> png@.len() <= isize::MAX,
{
    let mut png = Vec::new();
    {
        let mut encoder = png::Encoder::new(&mut png, width, height);
        encoder.set_color(png::ColorType::Rgba);
        encoder.set_depth(png::BitDepth::Eight);
        let mut writer = encoder.write_header().ok()?;
        writer.write_image_data(rgba).ok()?;
    }
    Some(png)
}

/// The data URI that carries the PNG file `png`.
pub open spec fn png_uri(png: Seq<u8>) -> Seq<char> {
    "data:image/png;base64,"@ + base64_std(png)
}

/// Wraps a PNG file into a data URI.
pub fn png_data_uri(png: &Vec<u8>) -> (r: String)
    requires
        png@.len() <= isize::MAX,
    ensures
        r@ == png_uri(png@),
{
    let head = String::from_str("data:image/png;base64,");
    let body = base64_standard(png.as_slice());
    concat(&head, body.as_str())
}

/// Encodes RGBA8 pixels as a PNG data URI; `None` when the png crate refuses them, that is when
/// the image is empty or the pixels are not four bytes each for `width` by `height`.
pub fn encode(width: u32, height: u32, rgba: &[u8]) -> (r: Option<String>)
    ensures
        r is Some <==> (width > 0 && height > 0 && rgba@.len() == width * height * 4),
        r matches Some(s) ==> s@ == png_uri(png_rgba8(width, height, rgba@)),
{
    let w: u128 = width as u128;
    let h: u128 = height as u128;
    assert(w * h <= u32::MAX * u32::MAX) by (nonlinear_arith)
        requires
            w <= u32::MAX,
            h <= u32::MAX,
    ;
    let size: u128 = w * h * 4;
    if size > usize::MAX as u128 {
        let n = rgba.len();
        assert(n == rgba@.len() && n <= usize::MAX);
        assert(rgba@.len() != width * height * 4);
        return None;
    }
    match encode_png(width, height, rgba) {
        Some(png) => Some(png_data_uri(&png)),
        None => None,
    }
}

/// The icon of a bitmap of `width` by `height` BGRA pixels, as a PNG data URI.
pub fn icon_from_pixels(width: u32, height: u32, bgra: Vec<u8>) -> (r: Option<String>)
    ensures
        r is Some <==> (width > 0 && height > 0 && bgra@.len() == width * height * 4),
        r matches Some(s) ==> s@ == png_uri(png_rgba8(width, height, rgba_of(bgra@))),
{
    let rgba = bgra_to_rgba(bgra);
    encode(width, height, rgba.as_slice())
}

} // verus!
