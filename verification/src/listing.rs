//! The listing of a task folder's contents shown beside the task.
use vstd::prelude::*;
use crate::model::{FolderEntry, FolderListing};
use crate::text::chars_of;
use crate::walk::{join_rel, rel_path};

verus! {

/// How deep the listing goes; anything deeper is quicker to look at in the file manager.
pub const LIST_MAX_DEPTH: u32 = 3;

/// How many entries the listing holds, so that a repository dropped in does not freeze it.
pub const LIST_MAX_ENTRIES: usize = 500;

/// The listing keeps to its limit: at most `LIST_MAX_ENTRIES` entries, and exactly that many
/// once it records that entries were left out.
pub open spec fn within_cap(listing: FolderListing) -> bool {
    &&& listing.entries@.len() <= LIST_MAX_ENTRIES
    &&& listing.count_capped ==> listing.entries@.len() == LIST_MAX_ENTRIES
}

/// An empty listing, nothing omitted yet.
pub fn new_listing() -> (r: FolderListing)
    ensures
        r.entries@.len() == 0,
        !r.deeper_omitted,
        !r.count_capped,
{
    FolderListing { entries: Vec::new(), deeper_omitted: false, count_capped: false }
}

/// Whether the listing is full; if it is, it records that entries were left out.
pub fn listing_full(listing: &mut FolderListing) -> (r: bool)
    ensures
        r == (old(listing).entries@.len() >= LIST_MAX_ENTRIES),
        final(listing).entries@ == old(listing).entries@,
        final(listing).deeper_omitted == old(listing).deeper_omitted,
        final(listing).count_capped == (old(listing).count_capped || r),
        within_cap(*old(listing)) ==> within_cap(*final(listing)),
{
    if listing.entries.len() >= LIST_MAX_ENTRIES {
        listing.count_capped = true;
        true
    } else {
        false
    }
}

/// Adds the entry `name` of the folder reached by `prefix` at `depth`. Returns its path when
/// it is a folder whose contents are listed too; a folder at the depth limit is listed without
/// its contents, and the listing records that something deeper was left out.
pub fn add_entry(
    listing: &mut FolderListing,
    prefix: &str,
    name: &str,
    is_dir: bool,
    len: u64,
    modified: Option<String>,
    icon: Option<String>,
    depth: u32,
) -> (r: Option<String>)
    requires
        is_dir ==> depth < u32::MAX,
    ensures
        final(listing).entries@.len() == old(listing).entries@.len() + 1,
        final(listing).entries@.take(old(listing).entries@.len() as int) == old(listing).entries@,
        final(listing).entries@.last().rel@ == rel_path(prefix@, name@),
        final(listing).entries@.last().is_dir == is_dir,
        final(listing).entries@.last().size == (if is_dir { 0 } else { len }),
        final(listing).entries@.last().modified == modified,
        final(listing).entries@.last().icon == icon,
        final(listing).count_capped == old(listing).count_capped,
        final(listing).deeper_omitted == (old(listing).deeper_omitted || (is_dir && depth + 1 >= LIST_MAX_DEPTH)),
        (is_dir && depth + 1 < LIST_MAX_DEPTH) ==> (r matches Some(p) && p@ == rel_path(prefix@, name@)),
        !(is_dir && depth + 1 < LIST_MAX_DEPTH) ==> r is None,
        within_cap(*old(listing)) && old(listing).entries@.len() < LIST_MAX_ENTRIES
            && !old(listing).count_capped ==> within_cap(*final(listing)),
{
    let rel = join_rel(prefix, name);
    let entry = FolderEntry { rel: rel.clone(), is_dir, size: if is_dir { 0 } else { len }, modified, icon };
    let ghost before = listing.entries@;
    listing.entries.push(entry);
    assert(listing.entries@.take(before.len() as int) =~= before);
    if is_dir {
        if depth + 1 < LIST_MAX_DEPTH {
            return Some(rel);
        } else {
            listing.deeper_omitted = true;
        }
    }
    None
}

/// The sort key of a path: `\` replaced by the NUL character, which sorts before every other,
/// so that a folder's contents come right after the folder and before its next sibling
/// (`資料\仕様書.xlsx` before `資料2`).
pub open spec fn sort_key(rel: Seq<char>) -> Seq<char> {
    rel.map_values(|c: char| if c == '\\' { '\0' } else { c })
}

/// Strict lexicographic order of character sequences (by code point, as `str` orders).
pub open spec fn lex_lt(a: Seq<char>, b: Seq<char>) -> bool
    decreases a.len(),
{
    if a.len() == 0 {
        b.len() > 0
    } else if b.len() == 0 {
        false
    } else if a[0] != b[0] {
        (a[0] as u32) < (b[0] as u32)
    } else {
        lex_lt(a.drop_first(), b.drop_first())
    }
}

pub proof fn lemma_lex_irreflexive(a: Seq<char>)
    ensures
        !lex_lt(a, a),
    decreases a.len(),
{
    if a.len() > 0 {
        lemma_lex_irreflexive(a.drop_first());
    }
}

pub proof fn lemma_lex_transitive(a: Seq<char>, b: Seq<char>, c: Seq<char>)
    requires
        lex_lt(a, b),
        lex_lt(b, c),
    ensures
        lex_lt(a, c),
    decreases a.len(),
{
    if a.len() > 0 && b.len() > 0 && c.len() > 0 {
        if a[0] == b[0] && b[0] == c[0] {
            lemma_lex_transitive(a.drop_first(), b.drop_first(), c.drop_first());
        }
    }
}

pub proof fn lemma_lex_total(a: Seq<char>, b: Seq<char>)
    ensures
        a == b || lex_lt(a, b) || lex_lt(b, a),
    decreases a.len(),
{
    if a.len() > 0 && b.len() > 0 {
        if a[0] == b[0] {
            lemma_lex_total(a.drop_first(), b.drop_first());
            if a.drop_first() == b.drop_first() {
                assert(a =~= seq![a[0]] + a.drop_first());
                assert(b =~= seq![b[0]] + b.drop_first());
            }
        } else {
            vstd::utf8::char_u32_cast(a[0], a[0] as u32);
            vstd::utf8::char_u32_cast(b[0], b[0] as u32);
        }
    } else if a.len() == 0 && b.len() == 0 {
        assert(a =~= b);
    }
}

/// `a` sorts before `b`.
fn key_less(a: &Vec<char>, b: &Vec<char>) -> (r: bool)
    ensures
        r == lex_lt(a@, b@),
{
    let mut i: usize = 0;
    assert(a@.skip(0) =~= a@);
    assert(b@.skip(0) =~= b@);
    while i < a.len() && i < b.len() && a[i] == b[i]
        invariant
            i <= a.len(),
            i <= b.len(),
            lex_lt(a@, b@) == lex_lt(a@.skip(i as int), b@.skip(i as int)),
        decreases a.len() - i,
    {
        assert(a@.skip(i as int).drop_first() =~= a@.skip(i + 1));
        assert(b@.skip(i as int).drop_first() =~= b@.skip(i + 1));
        i += 1;
    }
    if i == a.len() {
        i < b.len()
    } else if i == b.len() {
        false
    } else {
        (a[i] as u32) < (b[i] as u32)
    }
}

fn key_of(rel: &String) -> (r: Vec<char>)
    ensures
        r@ == sort_key(rel@),
{
    let cs = chars_of(rel.as_str());
    let mut out: Vec<char> = Vec::new();
    let mut i: usize = 0;
    while i < cs.len()
        invariant
            i <= cs.len(),
            out@ == sort_key(cs@.take(i as int)),
        decreases cs.len() - i,
    {
        let c = cs[i];
        out.push(if c == '\\' { '\0' } else { c });
        assert(sort_key(cs@.take(i + 1)) =~= sort_key(cs@.take(i as int)).push(if c == '\\' { '\0' } else { c }));
        i += 1;
    }
    assert(cs@.take(cs@.len() as int) =~= cs@);
    out
}

/// The entries are in the order of their sort keys.
pub open spec fn sorted_entries(s: Seq<FolderEntry>) -> bool {
    forall|i: int, j: int| 0 <= i < j < s.len() ==> !lex_lt(sort_key(#[trigger] s[j].rel@), sort_key(#[trigger] s[i].rel@))
}

/// Orders what the walk collected so that every folder is followed by its contents; the
/// flags saying that something was left out are kept.
pub fn build_listing(collected: FolderListing) -> (r: FolderListing)
    ensures
        r.entries@.to_multiset() == collected.entries@.to_multiset(),
        sorted_entries(r.entries@),
        r.deeper_omitted == collected.deeper_omitted,
        r.count_capped == collected.count_capped,
        r.entries@.len() == collected.entries@.len(),
{
    broadcast use vstd::seq_lib::group_to_multiset_ensures;
    let ghost all = collected.entries@;
    let mut out: Vec<FolderEntry> = Vec::new();
    let mut keys: Vec<Vec<char>> = Vec::new();
    for e in it: collected.entries
        invariant
            all == it.seq(),
            out@.to_multiset() == all.take(it.index() as int).to_multiset(),
            keys@.len() == out@.len(),
            forall|k: int| 0 <= k < out@.len() ==> (#[trigger] keys@[k])@ == sort_key(out@[k].rel@),
            sorted_entries(out@),
    {
        let ghost idx = it.index();
        let key = key_of(&e.rel);
        let mut p: usize = 0;
        while p < out.len() && !key_less(&key, &keys[p])
            invariant
                p <= out@.len(),
                keys@.len() == out@.len(),
                forall|k: int| 0 <= k < out@.len() ==> (#[trigger] keys@[k])@ == sort_key(out@[k].rel@),
                forall|k: int| 0 <= k < p ==> !lex_lt(key@, sort_key((#[trigger] out@[k]).rel@)),
            decreases out@.len() - p,
        {
            p += 1;
        }
        proof {
            assert forall|k: int| p <= k < out@.len() implies lex_lt(key@, sort_key((#[trigger] out@[k]).rel@)) by {
                assert(lex_lt(key@, sort_key(out@[p as int].rel@)));
                if k > p {
                    let a = sort_key(out@[p as int].rel@);
                    let b = sort_key(out@[k].rel@);
                    assert(!lex_lt(b, a));
                    lemma_lex_total(a, b);
                    if a != b {
                        lemma_lex_transitive(key@, a, b);
                    }
                }
            }
            assert(all.take(idx + 1) =~= all.take(idx as int).push(e));
        }
        let ghost old_out = out@;
        let ghost old_keys = keys@;
        let ghost ek = key@;
        out.insert(p, e);
        keys.insert(p, key);
        proof {
            assert(out@ == old_out.insert(p as int, e));
            vstd::seq_lib::to_multiset_insert(old_out, p as int, e);
            assert(out@.to_multiset() == old_out.to_multiset().insert(e));
            vstd::seq_lib::to_multiset_build(all.take(idx as int), e);
            assert forall|k: int| 0 <= k < out@.len() implies (#[trigger] keys@[k])@ == sort_key(out@[k].rel@) by {
                if k < p {
                    assert(keys@[k] == old_keys[k]);
                    assert(out@[k] == old_out[k]);
                } else if k == p {
                } else {
                    assert(keys@[k] == old_keys[k - 1]);
                    assert(out@[k] == old_out[k - 1]);
                }
            }
            assert forall|i: int, j: int| 0 <= i < j < out@.len() implies !lex_lt(sort_key(#[trigger] out@[j].rel@), sort_key(#[trigger] out@[i].rel@)) by {
                if j < p {
                    assert(out@[i] == old_out[i]);
                    assert(out@[j] == old_out[j]);
                } else if j == p {
                    assert(out@[i] == old_out[i]);
                } else if i < p {
                    assert(out@[i] == old_out[i]);
                    assert(out@[j] == old_out[j - 1]);
                } else if i == p {
                    assert(out@[j] == old_out[j - 1]);
                    assert(lex_lt(ek, sort_key(old_out[j - 1].rel@)));
                    let b = sort_key(old_out[j - 1].rel@);
                    if lex_lt(b, ek) {
                        lemma_lex_transitive(b, ek, b);
                        lemma_lex_irreflexive(b);
                    }
                } else {
                    assert(out@[i] == old_out[i - 1]);
                    assert(out@[j] == old_out[j - 1]);
                }
            }
        }
    }
    proof {
        assert(all.take(all.len() as int) =~= all);
    }
    proof {
        vstd::seq_lib::to_multiset_len(out@);
        vstd::seq_lib::to_multiset_len(all);
    }
    FolderListing { entries: out, deeper_omitted: collected.deeper_omitted, count_capped: collected.count_capped }
}

/// Between a key `f` and a key that extends `f` by NUL, only keys extending `f` by NUL sort.
pub proof fn lemma_between_folder_and_content(f: Seq<char>, x: Seq<char>, h: Seq<char>)
    requires
        lex_lt(f, h),
        lex_lt(h, f + seq!['\0'] + x),
    ensures
        h.len() > f.len(),
        h.take(f.len() + 1 as int) == f + seq!['\0'],
    decreases f.len(),
{
    let c = f + seq!['\0'] + x;
    if f.len() == 0 {
        assert(c[0] == '\0');
        assert(h.len() > 0);
        if h[0] != c[0] {
            assert((h[0] as u32) < (c[0] as u32));
            assert(false);
        }
        assert(h[0] == '\0');
        assert(h.take(1) =~= seq![h[0]]);
        assert(f + seq!['\0'] =~= seq!['\0']);
    } else {
        assert(c[0] == f[0]);
        assert(h.len() > 0);
        assert(h[0] == f[0]);
        assert(c.drop_first() =~= f.drop_first() + seq!['\0'] + x);
        lemma_between_folder_and_content(f.drop_first(), x, h.drop_first());
        assert(h.take(f.len() + 1 as int) =~= seq![h[0]] + h.drop_first().take(f.drop_first().len() + 1 as int));
        assert(f + seq!['\0'] =~= seq![f[0]] + (f.drop_first() + seq!['\0']));
    }
}

/// The paths of a listing hold no NUL character (no file name does).
pub open spec fn nul_free(s: Seq<char>) -> bool {
    forall|i: int| 0 <= i < s.len() ==> s[i] != '\0'
}

/// A folder's contents follow it: in a sorted listing of distinct paths, every entry that
/// sorts between a folder and something inside that folder is inside that folder too.
pub proof fn lemma_contents_follow_their_folder(s: Seq<FolderEntry>, i: int, k: int, j: int)
    requires
        sorted_entries(s),
        0 <= i < k < j < s.len(),
        sort_key(s[k].rel@) != sort_key(s[i].rel@),
        sort_key(s[k].rel@) != sort_key(s[j].rel@),
        nul_free(s[i].rel@),
        nul_free(s[k].rel@),
        s[i].rel@.len() < s[j].rel@.len(),
        s[j].rel@.take(s[i].rel@.len() + 1 as int) == s[i].rel@ + seq!['\\'],
    ensures
        s[i].rel@.len() < s[k].rel@.len(),
        s[k].rel@.take(s[i].rel@.len() + 1 as int) == s[i].rel@ + seq!['\\'],
{
    let ri = s[i].rel@;
    let rj = s[j].rel@;
    let rk = s[k].rel@;
    let f = sort_key(ri);
    let x = sort_key(rj.skip(ri.len() + 1 as int));
    assert(rj =~= ri + seq!['\\'] + rj.skip(ri.len() + 1 as int)) by {
        assert forall|p: int| 0 <= p < ri.len() + 1 implies rj[p] == (ri + seq!['\\'])[p] by {
            assert(rj.take(ri.len() + 1 as int)[p] == rj[p]);
        }
    }
    assert(sort_key(rj) =~= f + seq!['\0'] + x);
    let h = sort_key(rk);
    lemma_lex_total(h, f);
    lemma_lex_total(h, sort_key(rj));
    assert(!lex_lt(h, f));
    assert(!lex_lt(sort_key(rj), h));
    lemma_between_folder_and_content(f, x, h);
    assert forall|p: int| 0 <= p < ri.len() + 1 implies rk[p] == (ri + seq!['\\'])[p] by {
        assert(h.take(f.len() + 1 as int)[p] == h[p]);
        assert((f + seq!['\0'])[p] == h[p]);
        if p < ri.len() {
            assert(f[p] == h[p]);
        }
    }
    assert(rk.take(ri.len() + 1 as int) =~= ri + seq!['\\']);
}

} // verus!
