//! Browsing a drive: which folders the tree shows and the walk descends
//! into, the order folders and files are listed in, and how much the
//! background thumbnail warmer takes on.
use vstd::prelude::*;

use crate::media::{classify, ext_lower_of, kind_of_ext, Kind};
use crate::order::{is_stable_order, sort_by_keys, sorted_by_keys};
use crate::text::{ascii_lower, ascii_lower_vec, chars_of};

verus! {

/// What `str::to_lowercase` gives for a string (full Unicode lower-casing).
pub uninterp spec fn unicode_lower(s: Seq<char>) -> Seq<char>;

/// `str::to_lowercase`: trusted to depend on the text alone (the Unicode
/// tables compiled into std), so the result is named, not described.
#[verifier::external_body]
fn to_lower(s: &str) -> (r: String)
    ensures
        r@ == unicode_lower(s@),
{
    s.to_lowercase()
}

/// The sort key of a name or path: its Unicode lower-casing, as characters.
pub fn sort_key(s: &str) -> (k: Vec<char>)
    ensures
        k@ == unicode_lower(s@),
{
    let l = to_lower(s);
    chars_of(l.as_str())
}

/// `out` is `items` sorted by `keys`, seen through `f`.
pub proof fn lemma_sorted_map<T, U>(
    items: Seq<T>,
    keys: Seq<Seq<char>>,
    out: Seq<T>,
    f: spec_fn(T) -> U,
)
    requires
        sorted_by_keys(items, keys, out),
        items.len() == keys.len(),
    ensures
        sorted_by_keys(items.map_values(f), keys, out.map_values(f)),
{
    let p = choose|p: Seq<usize>|
        is_stable_order(keys, p) && forall|k: int| 0 <= k < out.len() ==> #[trigger] out[k]
            == items[p[k] as int];
    assert forall|k: int| 0 <= k < out.map_values(f).len() implies #[trigger] out.map_values(f)[k]
        == items.map_values(f)[p[k] as int] by {
        assert(out[k] == items[p[k] as int]);
    }
}

pub proof fn lemma_map_push<A, B>(s: Seq<A>, x: A, f: spec_fn(A) -> B)
    ensures
        s.push(x).map_values(f) == s.map_values(f).push(f(x)),
{
    assert(s.push(x).map_values(f) =~= s.map_values(f).push(f(x)));
}

// ── the folder tree ─────────────────────────────────────────────────────────

/// A folder in the lazy tree. `has_children` is optimistic (always true):
/// the tree hides the chevron once an expand turns up no subfolders.
#[derive(Debug)]
pub struct TreeDir {
    pub name: String,
    pub path: String,
    pub has_children: bool,
}

pub open spec fn tree_view(t: TreeDir) -> (Seq<char>, Seq<char>, bool) {
    (t.name@, t.path@, t.has_children)
}

pub open spec fn starts_with_dot(name: Seq<char>) -> bool {
    name.len() > 0 && name[0] == '.'
}

/// The tree shows a folder unless it is a dotfolder or the library's own
/// `_FoxCull` folder (in any ASCII case).
pub open spec fn tree_shows(name: Seq<char>) -> bool {
    !starts_with_dot(name) && ascii_lower(name) != "_foxcull"@
}

fn eq_lit(cs: &Vec<char>, lit: &str) -> (r: bool)
    ensures
        r == (cs@ == lit@),
{
    crate::media::eq_str(cs, lit)
}

/// Whether the folder tree shows a subfolder of this name.
pub fn tree_visible(name: &str) -> (b: bool)
    ensures
        b == tree_shows(name@),
{
    let cs = chars_of(name);
    if cs.len() > 0 && cs[0] == '.' {
        return false;
    }
    let l = ascii_lower_vec(&cs);
    !eq_lit(&l, "_foxcull")
}

/// The subfolders `(name, path)` the tree shows.
pub open spec fn shown_dirs(entries: Seq<(Seq<char>, Seq<char>)>) -> Seq<(Seq<char>, Seq<char>)> {
    entries.filter(|e: (Seq<char>, Seq<char>)| tree_shows(e.0))
}

/// The tree's listing of a folder whose subfolders are `entries` (name,
/// path): hidden ones dropped, the rest stably sorted by lower-cased name.
pub fn tree_listing(entries: Vec<(String, String)>) -> (out: Vec<TreeDir>)
    ensures
        ({
            let shown = shown_dirs(entries@.map_values(|e: (String, String)| (e.0@, e.1@)));
            sorted_by_keys(
                shown.map_values(|e: (Seq<char>, Seq<char>)| (e.0, e.1, true)),
                shown.map_values(|e: (Seq<char>, Seq<char>)| unicode_lower(e.0)),
                out@.map_values(|t: TreeDir| tree_view(t)),
            )
        }),
{
    let ghost ev = entries@.map_values(|e: (String, String)| (e.0@, e.1@));
    let ghost pred = |e: (Seq<char>, Seq<char>)| tree_shows(e.0);
    let mut kept: Vec<TreeDir> = Vec::new();
    let mut keys: Vec<Vec<char>> = Vec::new();
    let mut entries = entries;
    let mut rest: Vec<(String, String)> = Vec::new();
    // Reverse first so the records can be moved out from the back in order.
    while entries.len() > 0
        invariant
            rest@.len() + entries@.len() == ev.len(),
            forall|k: int| 0 <= k < entries@.len() ==> (#[trigger] entries@[k]).0@ == ev[k].0 && entries@[k].1@ == ev[k].1,
            forall|k: int| 0 <= k < rest@.len() ==> (#[trigger] rest@[k]).0@ == ev[ev.len() - 1 - k].0 && rest@[k].1@ == ev[ev.len() - 1 - k].1,
        decreases entries.len(),
    {
        let e = entries.pop().unwrap();
        rest.push(e);
    }
    let n = rest.len();
    let mut i: usize = 0;
    while rest.len() > 0
        invariant
            i + rest@.len() == n == ev.len(),
            forall|k: int| 0 <= k < rest@.len() ==> (#[trigger] rest@[k]).0@ == ev[ev.len() - 1 - k].0 && rest@[k].1@ == ev[ev.len() - 1 - k].1,
            kept@.map_values(|t: TreeDir| tree_view(t)) == ev.take(i as int).filter(pred).map_values(
                |e: (Seq<char>, Seq<char>)| (e.0, e.1, true),
            ),
            keys@.map_values(|k: Vec<char>| k@) == ev.take(i as int).filter(pred).map_values(
                |e: (Seq<char>, Seq<char>)| unicode_lower(e.0),
            ),
            pred == (|e: (Seq<char>, Seq<char>)| tree_shows(e.0)),
        decreases rest.len(),
    {
        let e = rest.pop().unwrap();
        proof {
            reveal(Seq::filter);
            assert(e.0@ == ev[i as int].0 && e.1@ == ev[i as int].1);
            assert(ev.take(i + 1).drop_last() =~= ev.take(i as int));
            assert(ev.take(i + 1).last() == ev[i as int]);
        }
        let ghost f0 = ev.take(i as int).filter(pred);
        if tree_visible(e.0.as_str()) {
            let k = sort_key(e.0.as_str());
            let ghost old_kept = kept@;
            let ghost old_keys = keys@;
            keys.push(k);
            let t = TreeDir { name: e.0, path: e.1, has_children: true };
            assert(tree_view(t) == (ev[i as int].0, ev[i as int].1, true));
            kept.push(t);
            proof {
                assert(kept@ == old_kept.push(t));
                assert(keys@ == old_keys.push(k));
                assert(old_kept.map_values(|t: TreeDir| tree_view(t)) == f0.map_values(
                    |e: (Seq<char>, Seq<char>)| (e.0, e.1, true)));
                assert(ev.take(i + 1).filter(pred) == f0.push(ev[i as int]));
                lemma_map_push(old_kept, t, |t: TreeDir| tree_view(t));
                lemma_map_push(f0, ev[i as int], |e: (Seq<char>, Seq<char>)| (e.0, e.1, true));
                lemma_map_push(old_keys, k, |k: Vec<char>| k@);
                lemma_map_push(f0, ev[i as int], |e: (Seq<char>, Seq<char>)| unicode_lower(e.0));
            }
        } else {
            proof {
                assert(ev.take(i + 1).filter(pred) == f0);
            }
        }
        i = i + 1;
    }
    proof {
        assert(ev.take(i as int) =~= ev);
    }
    let ghost kv = kept@;
    let out = sort_by_keys(kept, keys);
    proof {
        lemma_sorted_map(kv, keys@.map_values(|k: Vec<char>| k@), out@, |t: TreeDir| tree_view(t));
        assert(ev.filter(pred) == shown_dirs(ev));
    }
    out
}

// ── the walk ────────────────────────────────────────────────────────────────

/// The walk does not descend into a subfolder when it is not recursing, or
/// the folder is a dotfolder, or its ASCII-lower-cased name starts with
/// `_foxcull` (the library, its cache and its recycle bin).
pub open spec fn skips_subdir(name: Seq<char>, recursive: bool) -> bool {
    let l = ascii_lower(name);
    !recursive || starts_with_dot(name) || (l.len() >= 8 && l.take(8) == "_foxcull"@)
}

/// Whether the folder walk skips a subfolder of this name.
pub fn skip_subdir(name: &str, recursive: bool) -> (b: bool)
    ensures
        b == skips_subdir(name@, recursive),
{
    if !recursive {
        return true;
    }
    let cs = chars_of(name);
    if cs.len() > 0 && cs[0] == '.' {
        return true;
    }
    let l = ascii_lower_vec(&cs);
    if l.len() < 8 {
        return false;
    }
    let head = crate::text::sub_chars(&l, 0, 8);
    assert(head@ =~= l@.take(8));
    eq_lit(&head, "_foxcull")
}

/// Law: the library's own folder (`_FoxCull`, in any ASCII case) is never
/// shown in the tree nor walked for media, and neither is any folder whose
/// name starts with it (its cache and recycle bin live inside it).
pub proof fn lemma_library_folder_hidden(name: Seq<char>, recursive: bool)
    ensures
        ascii_lower(name) == "_foxcull"@ ==> !tree_shows(name),
        ascii_lower(name).len() >= 8 && ascii_lower(name).take(8) == "_foxcull"@ ==> skips_subdir(
            name,
            recursive,
        ),
        starts_with_dot(name) ==> !tree_shows(name) && skips_subdir(name, recursive),
{
}

// ── the thumbnail warmer ────────────────────────────────────────────────────

/// How many items the background warmer pre-generates per folder.
pub const WARM_CAP: usize = 600;

/// Threads the warmer may use for a machine with `cores` cores: a quarter
/// of them, clamped to 1..=2 (the work is I/O-bound).
pub fn warm_threads(cores: usize) -> (n: usize)
    ensures
        n == (if cores / 4 < 1 {
            1
        } else if cores / 4 > 2 {
            2
        } else {
            cores / 4
        }),
{
    let q = cores / 4;
    if q < 1 {
        1
    } else if q > 2 {
        2
    } else {
        q
    }
}

pub open spec fn is_image_path(p: Seq<char>, windows: bool) -> bool {
    kind_of_ext(ext_lower_of(p, windows)) == Kind::Image
}

/// The warmer's work: the ordinary images among `paths`, in order, at most
/// `WARM_CAP` of them (RAW and video are left to on-demand loading).
pub open spec fn warm_work_of(paths: Seq<Seq<char>>, windows: bool) -> Seq<Seq<char>> {
    let f = paths.filter(|p: Seq<char>| is_image_path(p, windows));
    if f.len() > 600 {
        f.take(600)
    } else {
        f
    }
}

/// The paths the background warmer takes on.
pub fn warm_work(paths: &Vec<String>, windows: bool) -> (w: Vec<String>)
    ensures
        w@.map_values(|s: String| s@) == warm_work_of(paths@.map_values(|s: String| s@), windows),
{
    let ghost pv = paths@.map_values(|s: String| s@);
    let ghost pred = |p: Seq<char>| is_image_path(p, windows);
    let mut w: Vec<String> = Vec::new();
    let mut i: usize = 0;
    while i < paths.len() && w.len() < WARM_CAP
        invariant
            i <= paths.len(),
            pv == paths@.map_values(|s: String| s@),
            pred == (|p: Seq<char>| is_image_path(p, windows)),
            w.len() <= WARM_CAP,
            w@.map_values(|s: String| s@) == pv.take(i as int).filter(pred),
        decreases paths.len() - i,
    {
        proof {
            reveal(Seq::filter);
            assert(pv.take(i + 1).drop_last() =~= pv.take(i as int));
            assert(pv.take(i + 1).last() == pv[i as int]);
        }
        let ghost f0 = pv.take(i as int).filter(pred);
        if classify(paths[i].as_str(), windows) == Kind::Image {
            w.push(paths[i].clone());
            proof {
                assert(w@.map_values(|s: String| s@) =~= f0.push(pv[i as int]));
            }
        }
        i = i + 1;
    }
    proof {
        let f = pv.filter(pred);
        if i == paths.len() {
            assert(pv.take(i as int) =~= pv);
        } else {
            // The cap was reached: the first 600 images are already taken.
            lemma_filter_prefix(pv, pred, i as int);
            assert(f.take(600) =~= pv.take(i as int).filter(pred));
        }
    }
    w
}

/// Filtering a prefix gives a prefix of the filtered sequence.
pub proof fn lemma_filter_prefix<A>(s: Seq<A>, pred: spec_fn(A) -> bool, i: int)
    requires
        0 <= i <= s.len(),
    ensures
        s.take(i).filter(pred).len() <= s.filter(pred).len(),
        s.filter(pred).take(s.take(i).filter(pred).len() as int) == s.take(i).filter(pred),
{
    assert(s =~= s.take(i) + s.skip(i));
    Seq::filter_distributes_over_add(s.take(i), s.skip(i), pred);
    let a = s.take(i).filter(pred);
    assert((a + s.skip(i).filter(pred)).take(a.len() as int) =~= a);
}

// ── folder badges ───────────────────────────────────────────────────────────

/// A folder's recursive media count (a left-pane badge).
#[derive(Debug)]
pub struct FolderCount {
    pub path: String,
    pub count: i64,
}

/// Position of the last cached count for `path`, or -1.
pub open spec fn last_count(cached: Seq<(String, i64)>, path: Seq<char>) -> int
    decreases cached.len(),
{
    if cached.len() == 0 {
        -1
    } else if cached.last().0@ == path {
        cached.len() - 1
    } else {
        last_count(cached.drop_last(), path)
    }
}

/// The badges the cache answers, `(path, count)`, and the folders still to
/// count, both in request order.
pub open spec fn split_of(paths: Seq<Seq<char>>, cached: Seq<(String, i64)>) -> (Seq<(Seq<char>, i64)>, Seq<Seq<char>>)
    decreases paths.len(),
{
    if paths.len() == 0 {
        (Seq::empty(), Seq::empty())
    } else {
        let (have, need) = split_of(paths.drop_last(), cached);
        let p = paths.last();
        let k = last_count(cached, p);
        if k >= 0 {
            (have.push((p, cached[k].1)), need)
        } else {
            (have, need.push(p))
        }
    }
}

pub open spec fn counts_view(v: Seq<FolderCount>) -> Seq<(Seq<char>, i64)> {
    v.map_values(|c: FolderCount| (c.path@, c.count))
}

fn same_text(a: &String, b: &String) -> (r: bool)
    ensures
        r == (a@ == b@),
{
    let x = chars_of(a.as_str());
    crate::media::eq_str(&x, b.as_str())
}

/// Split a badge request into the counts the catalog's cache holds (`cached`
/// rows `(path, count)`; none when recounting) and the folders that must be
/// walked.
pub fn split_counts(paths: Vec<String>, cached: &Vec<(String, i64)>) -> (r: (Vec<FolderCount>, Vec<String>))
    ensures
        (counts_view(r.0@), r.1@.map_values(|s: String| s@)) == split_of(
            paths@.map_values(|s: String| s@),
            cached@,
        ),
{
    let ghost pv = paths@.map_values(|s: String| s@);
    let mut have: Vec<FolderCount> = Vec::new();
    let mut need: Vec<String> = Vec::new();
    let mut i: usize = 0;
    while i < paths.len()
        invariant
            i <= paths.len(),
            pv == paths@.map_values(|s: String| s@),
            (counts_view(have@), need@.map_values(|s: String| s@)) == split_of(pv.take(i as int), cached@),
        decreases paths.len() - i,
    {
        proof {
            assert(pv.take(i + 1).drop_last() =~= pv.take(i as int));
            assert(pv.take(i + 1).last() == pv[i as int]);
        }
        let p = &paths[i];
        let mut j = cached.len();
        assert(cached@.take(j as int) =~= cached@);
        while j > 0 && !same_text(&cached[j - 1].0, p)
            invariant
                j <= cached.len(),
                last_count(cached@, p@) == last_count(cached@.take(j as int), p@),
            decreases j,
        {
            proof {
                assert(cached@.take(j as int).drop_last() =~= cached@.take(j - 1));
            }
            j = j - 1;
        }
        if j == 0 {
            assert(cached@.take(0) =~= Seq::<(String, i64)>::empty());
            let ghost n0 = need@;
            let q = p.clone();
            need.push(q);
            proof {
                lemma_map_push(n0, q, |s: String| s@);
            }
        } else {
            let ghost h0 = have@;
            let c = FolderCount { path: p.clone(), count: cached[j - 1].1 };
            have.push(c);
            proof {
                lemma_map_push(h0, c, |c: FolderCount| (c.path@, c.count));
            }
        }
        i = i + 1;
    }
    assert(pv.take(i as int) =~= pv);
    (have, need)
}

/// Law: the warmer takes at most 600 files, only ordinary images, in the
/// order given, and all of them when there are no more than 600.
pub proof fn lemma_warm_work_bounds(paths: Seq<Seq<char>>, windows: bool)
    ensures
        warm_work_of(paths, windows).len() <= 600,
        forall|i: int|
            0 <= i < warm_work_of(paths, windows).len() ==> kind_of_ext(
                ext_lower_of(#[trigger] warm_work_of(paths, windows)[i], windows),
            ) == Kind::Image,
        forall|i: int|
            0 <= i < warm_work_of(paths, windows).len() ==> paths.contains(
                #[trigger] warm_work_of(paths, windows)[i],
            ),
        paths.filter(|p: Seq<char>| is_image_path(p, windows)).len() <= 600 ==> warm_work_of(
            paths,
            windows,
        ) == paths.filter(|p: Seq<char>| is_image_path(p, windows)),
{
    let pred = |p: Seq<char>| is_image_path(p, windows);
    let f = paths.filter(pred);
    assert forall|i: int| 0 <= i < f.len() implies pred(#[trigger] f[i]) && paths.contains(f[i]) by {
        paths.lemma_filter_pred(pred, i);
        assert(f.contains(f[i]));
        paths.lemma_filter_contains_rev(pred, f[i]);
    }
}

} // verus!
