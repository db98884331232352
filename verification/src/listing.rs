//! The media listing of a folder: one record per media file found by the
//! walk, sorted by path, with the catalog's decisions and tags joined in.
use vstd::prelude::*;

use crate::browse::{lemma_map_push, sort_key, unicode_lower};
use crate::catalog::{group_index, group_tags, group_view, grouped, Decision, TagGroup};
use crate::library::{rel_of, slashes};
use crate::media::{classify, ext_lower, ext_lower_of, file_name, file_name_of, kind_name, kind_of_ext};
use crate::order::{sort_by_keys, sorted_by_keys};
use crate::text::{chars_of, string_of};

verus! {

/// One media file as the grid shows it.
#[derive(Debug)]
pub struct MediaItem {
    pub name: String,
    pub path: String,
    /// Catalog key: the path relative to the library root.
    pub rel: String,
    pub kind: String,
    pub ext: String,
    /// Modified time, Unix seconds (for date sorting).
    pub mtime: i64,
    /// Size in bytes.
    pub size: u64,
    pub rating: i64,
    pub label: Option<String>,
    pub flag: Option<String>,
    pub tags: Vec<String>,
}

pub open spec fn opt_view(o: Option<String>) -> Option<Seq<char>> {
    match o {
        Some(s) => Some(s@),
        None => None,
    }
}

pub open spec fn tags_view(t: Vec<String>) -> Seq<Seq<char>> {
    t@.map_values(|s: String| s@)
}

/// `it` is the fresh record of the file `abs` with catalog key `rel`: its
/// file name (or empty), kind and lower-cased extension, no decision, no tags.
pub open spec fn fresh_item(it: MediaItem, abs: Seq<char>, rel: Seq<char>, mtime: i64, size: u64, windows: bool) -> bool {
    &&& it.name@ == (match file_name_of(abs, windows) {
        Some(n) => n,
        None => Seq::empty(),
    })
    &&& it.path@ == abs
    &&& it.rel@ == rel
    &&& it.kind@ == kind_name(kind_of_ext(ext_lower_of(abs, windows)))
    &&& it.ext@ == ext_lower_of(abs, windows)
    &&& it.mtime == mtime
    &&& it.size == size
    &&& it.rating == 0
    &&& it.label is None
    &&& it.flag is None
    &&& it.tags@.len() == 0
}

/// The record of a media file before the catalog is consulted.
pub fn new_item(abs: String, rel: String, mtime: i64, size: u64, windows: bool) -> (it: MediaItem)
    ensures
        fresh_item(it, abs@, rel@, mtime, size, windows),
{
    let cs = chars_of(abs.as_str());
    let name = match file_name(&cs, windows) {
        Some(n) => string_of(&n),
        None => String::new(),
    };
    let kind = classify(abs.as_str(), windows).as_str().to_string();
    let ext = ext_lower(abs.as_str(), windows);
    MediaItem {
        name,
        path: abs,
        rel,
        kind,
        ext,
        mtime,
        size,
        rating: 0,
        label: None,
        flag: None,
        tags: Vec::new(),
    }
}

/// The sort keys of the records: their lower-cased paths.
pub open spec fn path_keys(items: Seq<MediaItem>) -> Seq<Seq<char>> {
    items.map_values(|it: MediaItem| unicode_lower(it.path@))
}

/// Records stably sorted by lower-cased full path, which groups each
/// subfolder's files together.
pub fn sort_items(items: Vec<MediaItem>) -> (out: Vec<MediaItem>)
    ensures
        sorted_by_keys(items@, path_keys(items@), out@),
{
    let mut keys: Vec<Vec<char>> = Vec::new();
    let mut i: usize = 0;
    while i < items.len()
        invariant
            i <= items.len(),
            keys@.map_values(|k: Vec<char>| k@) == path_keys(items@).take(i as int),
        decreases items.len() - i,
    {
        let k = sort_key(items[i].path.as_str());
        let ghost old_keys = keys@;
        keys.push(k);
        proof {
            lemma_map_push(old_keys, k, |k: Vec<char>| k@);
            assert(path_keys(items@).take(i + 1) =~= path_keys(items@).take(i as int).push(k@));
        }
        i = i + 1;
    }
    assert(path_keys(items@).take(i as int) =~= path_keys(items@));
    sort_by_keys(items, keys)
}

// ── decisions ───────────────────────────────────────────────────────────────

/// Position of the last decision for `rel` in `ds`, or -1 (later rows win).
pub open spec fn last_decision(ds: Seq<Decision>, rel: Seq<char>) -> int
    decreases ds.len(),
{
    if ds.len() == 0 {
        -1
    } else if ds.last().rel@ == rel {
        ds.len() - 1
    } else {
        last_decision(ds.drop_last(), rel)
    }
}

proof fn lemma_last_decision_at(ds: Seq<Decision>, rel: Seq<char>, k: int)
    requires
        0 <= k < ds.len(),
        ds[k].rel@ == rel,
        forall|j: int| k < j < ds.len() ==> ds[j].rel@ != rel,
    ensures
        last_decision(ds, rel) == k,
    decreases ds.len(),
{
    if k < ds.len() - 1 {
        assert(ds.drop_last()[k] == ds[k]);
        lemma_last_decision_at(ds.drop_last(), rel, k);
    }
}

proof fn lemma_no_decision(ds: Seq<Decision>, rel: Seq<char>)
    requires
        forall|j: int| 0 <= j < ds.len() ==> ds[j].rel@ != rel,
    ensures
        last_decision(ds, rel) == -1,
    decreases ds.len(),
{
    if ds.len() > 0 {
        lemma_no_decision(ds.drop_last(), rel);
    }
}

/// `b` is `a` with the catalog's decision for its key joined in: the rating,
/// label and flag of the last decision whose key is `a`'s, if any; all other
/// fields as they were.
pub open spec fn decided(a: MediaItem, ds: Seq<Decision>, b: MediaItem) -> bool {
    let k = last_decision(ds, a.rel@);
    &&& b.name == a.name
    &&& b.path == a.path
    &&& b.rel == a.rel
    &&& b.kind == a.kind
    &&& b.ext == a.ext
    &&& b.mtime == a.mtime
    &&& b.size == a.size
    &&& b.tags@ == a.tags@
    &&& if k >= 0 {
        b.rating == ds[k].rating && opt_view(b.label) == opt_view(ds[k].label) && opt_view(b.flag)
            == opt_view(ds[k].flag)
    } else {
        b.rating == a.rating && opt_view(b.label) == opt_view(a.label) && opt_view(b.flag)
            == opt_view(a.flag)
    }
}

fn clone_opt(o: &Option<String>) -> (r: Option<String>)
    ensures
        opt_view(r) == opt_view(*o),
{
    match o {
        Some(s) => Some(s.clone()),
        None => None,
    }
}

fn same_text(a: &String, b: &String) -> (r: bool)
    ensures
        r == (a@ == b@),
{
    let x = chars_of(a.as_str());
    crate::media::eq_str(&x, b.as_str())
}

/// Index of the last decision for `rel`.
fn find_decision(ds: &Vec<Decision>, rel: &String) -> (r: Option<usize>)
    ensures
        match r {
            Some(k) => k < ds.len() && last_decision(ds@, rel@) == k,
            None => last_decision(ds@, rel@) == -1,
        },
{
    let mut j = ds.len();
    assert(ds@.take(j as int) =~= ds@);
    while j > 0 && !same_text(&ds[j - 1].rel, rel)
        invariant
            j <= ds.len(),
            last_decision(ds@, rel@) == last_decision(ds@.take(j as int), rel@),
        decreases j,
    {
        proof {
            assert(ds@.take(j as int).drop_last() =~= ds@.take(j - 1));
        }
        j = j - 1;
    }
    if j == 0 {
        assert(ds@.take(0) =~= Seq::<Decision>::empty());
        None
    } else {
        Some(j - 1)
    }
}

/// Join the catalog's decisions into the records.
pub fn attach_decisions(items: Vec<MediaItem>, ds: &Vec<Decision>) -> (out: Vec<MediaItem>)
    ensures
        out.len() == items.len(),
        forall|k: int| 0 <= k < items.len() ==> decided(#[trigger] items@[k], ds@, out@[k]),
{
    let ghost iv = items@;
    let mut items = items;
    let mut rev: Vec<MediaItem> = Vec::new();
    while items.len() > 0
        invariant
            items.len() + rev.len() == iv.len(),
            forall|k: int| 0 <= k < items.len() ==> items@[k] == iv[k],
            forall|k: int| 0 <= k < rev.len() ==> decided(#[trigger] iv[iv.len() - 1 - k], ds@, rev@[k]),
        decreases items.len(),
    {
        let mut it = items.pop().unwrap();
        let ghost a = it;
        match find_decision(ds, &it.rel) {
            Some(k) => {
                it.rating = ds[k].rating;
                it.label = clone_opt(&ds[k].label);
                it.flag = clone_opt(&ds[k].flag);
            },
            None => {},
        }
        assert(decided(a, ds@, it));
        rev.push(it);
    }
    let mut out: Vec<MediaItem> = Vec::new();
    while rev.len() > 0
        invariant
            out.len() + rev.len() == iv.len(),
            forall|k: int| 0 <= k < rev.len() ==> decided(#[trigger] iv[iv.len() - 1 - k], ds@, rev@[k]),
            forall|k: int| 0 <= k < out.len() ==> decided(#[trigger] iv[k], ds@, out@[k]),
        decreases rev.len(),
    {
        let it = rev.pop().unwrap();
        proof {
            assert(decided(iv[iv.len() - 1 - rev.len()], ds@, it));
        }
        out.push(it);
    }
    out
}

// ── tags ────────────────────────────────────────────────────────────────────

/// `b` is `a` with the tags of its key joined in, where `first` says that no
/// earlier record has the same key (each key's tags go to its first record
/// only); all other fields as they were.
pub open spec fn tagged(a: MediaItem, gs: Seq<(Seq<char>, Seq<Seq<char>>)>, first: bool, b: MediaItem) -> bool {
    let g = group_index(gs, a.rel@);
    &&& b.name == a.name
    &&& b.path == a.path
    &&& b.rel == a.rel
    &&& b.kind == a.kind
    &&& b.ext == a.ext
    &&& b.mtime == a.mtime
    &&& b.size == a.size
    &&& b.rating == a.rating
    &&& b.label == a.label
    &&& b.flag == a.flag
    &&& tags_view(b.tags) == (if g >= 0 && first {
        gs[g].1
    } else {
        tags_view(a.tags)
    })
}

/// No record before position `k` has the key of record `k`.
pub open spec fn first_with_rel(items: Seq<MediaItem>, k: int) -> bool {
    forall|j: int| 0 <= j < k ==> items[j].rel@ != items[k].rel@
}

/// Index of the group for `rel` (the last one with that key).
fn find_group(gs: &Vec<TagGroup>, rel: &String) -> (r: Option<usize>)
    ensures
        match r {
            Some(k) => k < gs.len() && group_index(gs@.map_values(|g: TagGroup| group_view(g)), rel@) == k,
            None => group_index(gs@.map_values(|g: TagGroup| group_view(g)), rel@) == -1,
        },
{
    let ghost gv = gs@.map_values(|g: TagGroup| group_view(g));
    let mut j = gs.len();
    assert(gv.take(j as int) =~= gv);
    while j > 0 && !same_text(&gs[j - 1].rel, rel)
        invariant
            j <= gs.len(),
            gv == gs@.map_values(|g: TagGroup| group_view(g)),
            group_index(gv, rel@) == group_index(gv.take(j as int), rel@),
        decreases j,
    {
        proof {
            assert(gv.take(j as int).drop_last() =~= gv.take(j - 1));
            assert(gv[j - 1] == group_view(gs@[j - 1]));
        }
        j = j - 1;
    }
    if j == 0 {
        assert(gv.take(0) =~= Seq::<(Seq<char>, Seq<Seq<char>>)>::empty());
        None
    } else {
        proof {
            assert(gv[j - 1] == group_view(gs@[j - 1]));
        }
        Some(j - 1)
    }
}

/// A copy of a list of tags.
fn copy_tags(src: &Vec<String>) -> (out: Vec<String>)
    ensures
        tags_view(out) == tags_view(*src),
{
    let mut out: Vec<String> = Vec::new();
    let mut q: usize = 0;
    while q < src.len()
        invariant
            q <= src.len(),
            tags_view(out) == tags_view(*src).take(q as int),
        decreases src.len() - q,
    {
        let ghost old_out = out@;
        let s = src[q].clone();
        out.push(s);
        proof {
            lemma_map_push(old_out, s, |s: String| s@);
            assert(tags_view(*src).take(q + 1) =~= tags_view(*src).take(q as int).push(s@));
        }
        q = q + 1;
    }
    assert(tags_view(*src).take(q as int) =~= tags_view(*src));
    out
}

/// Some record before position `k` has the key `rel`.
pub open spec fn seen(items: Seq<MediaItem>, k: int, rel: Seq<char>) -> bool
    decreases k,
{
    if k <= 0 {
        false
    } else {
        items[k - 1].rel@ == rel || seen(items, k - 1, rel)
    }
}

proof fn lemma_seen(items: Seq<MediaItem>, k: int, rel: Seq<char>)
    requires
        0 <= k <= items.len(),
    ensures
        seen(items, k, rel) <==> exists|j: int| 0 <= j < k && #[trigger] items[j].rel@ == rel,
    decreases k,
{
    if k > 0 {
        lemma_seen(items, k - 1, rel);
        if seen(items, k, rel) && items[k - 1].rel@ != rel {
            let j = choose|j: int| 0 <= j < k - 1 && #[trigger] items[j].rel@ == rel;
            assert(0 <= j < k && items[j].rel@ == rel);
        }
    }
}

/// `taken[g]` says that group `g` (the group of its key) went to one of the
/// first `k` records.
pub open spec fn taken_ok(gs: Seq<(Seq<char>, Seq<Seq<char>>)>, iv: Seq<MediaItem>, k: int, taken: Seq<bool>) -> bool {
    &&& taken.len() == gs.len()
    &&& forall|g: int|
        0 <= g < taken.len() ==> (#[trigger] taken[g] == (group_index(gs, gs[g].0) == g && seen(
            iv,
            k,
            gs[g].0,
        )))
}

proof fn lemma_taken_step(
    gs: Seq<(Seq<char>, Seq<Seq<char>>)>,
    iv: Seq<MediaItem>,
    k: int,
    taken: Seq<bool>,
)
    requires
        0 <= k < iv.len(),
        taken_ok(gs, iv, k, taken),
    ensures
        ({
            let g = group_index(gs, iv[k].rel@);
            &&& g >= 0 ==> (taken[g] == !first_with_rel(iv, k))
            &&& taken_ok(
                gs,
                iv,
                k + 1,
                if g >= 0 {
                    taken.update(g, true)
                } else {
                    taken
                },
            )
        }),
{
    let rel = iv[k].rel@;
    crate::catalog::lemma_group_index_bounds(gs, rel);
    let g = group_index(gs, rel);
    lemma_seen(iv, k, rel);
    let nt = if g >= 0 {
        taken.update(g, true)
    } else {
        taken
    };
    assert forall|h: int| 0 <= h < nt.len() implies (#[trigger] nt[h] == (group_index(gs, gs[h].0)
        == h && seen(iv, k + 1, gs[h].0))) by {
        crate::catalog::lemma_group_index_bounds(gs, gs[h].0);
        assert(taken[h] == (group_index(gs, gs[h].0) == h && seen(iv, k, gs[h].0)));
    }
}

/// Join each file's tags (grouped `(rel, tag)` rows) into its first record.
pub fn attach_tags(items: Vec<MediaItem>, groups: Vec<TagGroup>) -> (out: Vec<MediaItem>)
    ensures
        out.len() == items.len(),
        forall|k: int|
            0 <= k < items.len() ==> tagged(
                #[trigger] items@[k],
                groups@.map_values(|g: TagGroup| group_view(g)),
                first_with_rel(items@, k),
                out@[k],
            ),
{
    let ghost gs = groups@.map_values(|g: TagGroup| group_view(g));
    let ghost iv = items@;
    let n = items.len();
    let mut items = items;
    let mut rev: Vec<MediaItem> = Vec::new();
    while items.len() > 0
        invariant
            items.len() + rev.len() == iv.len(),
            forall|k: int| 0 <= k < items.len() ==> items@[k] == iv[k],
            forall|k: int| 0 <= k < rev.len() ==> #[trigger] rev@[k] == iv[iv.len() - 1 - k],
        decreases items.len(),
    {
        let it = items.pop().unwrap();
        rev.push(it);
    }
    // `taken[g]`: group `g` was already handed to an earlier record.
    let mut taken: Vec<bool> = Vec::new();
    let mut t: usize = 0;
    while t < groups.len()
        invariant
            t <= groups.len(),
            taken.len() == t,
            forall|g: int| 0 <= g < t ==> !taken@[g],
        decreases groups.len() - t,
    {
        taken.push(false);
        t = t + 1;
    }
    let mut out: Vec<MediaItem> = Vec::new();
    while rev.len() > 0
        invariant
            out.len() + rev.len() == iv.len() == n,
            gs == groups@.map_values(|g: TagGroup| group_view(g)),
            forall|k: int| 0 <= k < rev.len() ==> #[trigger] rev@[k] == iv[iv.len() - 1 - k],
            forall|k: int|
                0 <= k < out.len() ==> tagged(#[trigger] iv[k], gs, first_with_rel(iv, k), out@[k]),
            taken_ok(gs, iv, out.len() as int, taken@),
        decreases rev.len(),
    {
        let mut it = rev.pop().unwrap();
        let ghost a = it;
        let ghost k = out.len() as int;
        assert(a == iv[k]);
        let found = find_group(&groups, &it.rel);
        proof {
            lemma_taken_step(gs, iv, k, taken@);
        }
        match found {
            Some(g) => {
                if !taken[g] {
                    it.tags = copy_tags(&groups[g].tags);
                    proof {
                        assert(gs[g as int] == group_view(groups@[g as int]));
                    }
                }
                taken.set(g, true);
            },
            None => {},
        }
        assert(tagged(a, gs, first_with_rel(iv, k), it));
        out.push(it);
    }
    out
}

// ── the whole listing ───────────────────────────────────────────────────────

pub open spec fn rows_view(rows: Seq<(String, String)>) -> Seq<(Seq<char>, Seq<char>)> {
    rows.map_values(|r: (String, String)| (r.0@, r.1@))
}

/// What `rel_of` promises of a catalog key (`key_fits`): the path with `/`
/// separators when there is no library root, the plain path below a plain
/// root, and never a `\` in it.
pub open spec fn rel_fits(root: Option<Seq<char>>, abs: Seq<char>, rel: Seq<char>) -> bool {
    crate::library::key_fits(root, abs, rel)
}

/// The stages of a folder listing: `built` holds a fresh record per file
/// found (in walk order), `sorted` is it sorted by lower-cased path, `dec`
/// has the decisions joined in and `out` the tags.
pub open spec fn listing_stages(
    root: Option<Seq<char>>,
    found: Seq<(String, i64, u64)>,
    ds: Seq<Decision>,
    groups: Seq<(Seq<char>, Seq<Seq<char>>)>,
    built: Seq<MediaItem>,
    sorted: Seq<MediaItem>,
    dec: Seq<MediaItem>,
    out: Seq<MediaItem>,
    windows: bool,
) -> bool {
    &&& built.len() == found.len()
    &&& forall|i: int|
        0 <= i < found.len() ==> fresh_item(
            #[trigger] built[i],
            found[i].0@,
            built[i].rel@,
            found[i].1,
            found[i].2,
            windows,
        ) && rel_fits(root, found[i].0@, built[i].rel@)
    &&& sorted_by_keys(built, path_keys(built), sorted)
    &&& dec.len() == sorted.len()
    &&& forall|k: int| 0 <= k < sorted.len() ==> decided(#[trigger] sorted[k], ds, dec[k])
    &&& out.len() == dec.len()
    &&& forall|k: int|
        0 <= k < dec.len() ==> tagged(#[trigger] dec[k], groups, first_with_rel(dec, k), out[k])
}

/// All media the walk found under a folder (`found`: path, modified time,
/// size), as the grid lists it: sorted by lower-cased path, each with its
/// catalog key below `root`, with the decisions (`get_under` rows) and tags
/// (`tags_under` rows, `(rel, tag)`) of that key joined in.
pub fn list_folder_media(
    root: &Option<String>,
    found: Vec<(String, i64, u64)>,
    decisions: &Vec<Decision>,
    tag_rows: &Vec<(String, String)>,
    windows: bool,
) -> (out: Vec<MediaItem>)
    ensures
        exists|built: Seq<MediaItem>, sorted: Seq<MediaItem>, dec: Seq<MediaItem>|
            #[trigger] listing_stages(
                opt_view(*root),
                found@,
                decisions@,
                grouped(rows_view(tag_rows@)),
                built,
                sorted,
                dec,
                out@,
                windows,
            ),
{
    let ghost fv = found@;
    let mut found = found;
    let mut rev: Vec<(String, i64, u64)> = Vec::new();
    while found.len() > 0
        invariant
            found.len() + rev.len() == fv.len(),
            forall|k: int| 0 <= k < found.len() ==> found@[k] == fv[k],
            forall|k: int| 0 <= k < rev.len() ==> #[trigger] rev@[k] == fv[fv.len() - 1 - k],
        decreases found.len(),
    {
        let e = found.pop().unwrap();
        rev.push(e);
    }
    let mut built: Vec<MediaItem> = Vec::new();
    while rev.len() > 0
        invariant
            built.len() + rev.len() == fv.len(),
            forall|k: int| 0 <= k < rev.len() ==> #[trigger] rev@[k] == fv[fv.len() - 1 - k],
            forall|i: int|
                0 <= i < built.len() ==> fresh_item(
                    #[trigger] built@[i],
                    fv[i].0@,
                    built@[i].rel@,
                    fv[i].1,
                    fv[i].2,
                    windows,
                ) && rel_fits(opt_view(*root), fv[i].0@, built@[i].rel@),
        decreases rev.len(),
    {
        let (abs, mtime, size) = rev.pop().unwrap();
        let rel = rel_of(root, abs.as_str());
        let it = new_item(abs, rel, mtime, size, windows);
        built.push(it);
    }
    let ghost bv = built@;
    let sorted = sort_items(built);
    let ghost sv = sorted@;
    let dec = attach_decisions(sorted, decisions);
    let ghost dv = dec@;
    let groups = group_tags(tag_rows);
    let out = attach_tags(dec, groups);
    assert(listing_stages(
        opt_view(*root),
        fv,
        decisions@,
        grouped(rows_view(tag_rows@)),
        bv,
        sv,
        dv,
        out@,
        windows,
    ));
    out
}

/// Law: a record takes every field of the catalog's latest decision for
/// its key — rating, label and pick/reject flag alike, whatever the rating —
/// and with no decision for its key keeps its own; nothing else changes.
pub proof fn lemma_decision_joined(a: MediaItem, ds: Seq<Decision>, b: MediaItem)
    requires
        decided(a, ds, b),
    ensures
        b.path == a.path && b.rel == a.rel && b.name == a.name && b.kind == a.kind,
        tags_view(b.tags) == tags_view(a.tags),
        forall|k: int|
            0 <= k < ds.len() && #[trigger] ds[k].rel@ == a.rel@ && (forall|j: int|
                k < j < ds.len() ==> ds[j].rel@ != a.rel@) ==> b.rating == ds[k].rating
                && opt_view(b.label) == opt_view(ds[k].label) && opt_view(b.flag) == opt_view(
                ds[k].flag,
            ),
        (forall|j: int| 0 <= j < ds.len() ==> ds[j].rel@ != a.rel@) ==> b.rating == a.rating
            && opt_view(b.label) == opt_view(a.label) && opt_view(b.flag) == opt_view(a.flag),
{
    assert forall|k: int|
        0 <= k < ds.len() && #[trigger] ds[k].rel@ == a.rel@ && (forall|j: int|
            k < j < ds.len() ==> ds[j].rel@ != a.rel@) implies b.rating == ds[k].rating
        && opt_view(b.label) == opt_view(ds[k].label) && opt_view(b.flag) == opt_view(
        ds[k].flag,
    ) by {
        lemma_last_decision_at(ds, a.rel@, k);
    }
    if forall|j: int| 0 <= j < ds.len() ==> ds[j].rel@ != a.rel@ {
        lemma_no_decision(ds, a.rel@);
    }
}

proof fn lemma_group_at(gs: Seq<(Seq<char>, Seq<Seq<char>>)>, rel: Seq<char>, g: int)
    requires
        0 <= g < gs.len(),
        gs[g].0 == rel,
        forall|j: int| g < j < gs.len() ==> gs[j].0 != rel,
    ensures
        group_index(gs, rel) == g,
    decreases gs.len(),
{
    if g < gs.len() - 1 {
        assert(gs.drop_last()[g] == gs[g]);
        lemma_group_at(gs.drop_last(), rel, g);
    }
}

/// Law: the first record with a key takes the tags of that key's (latest)
/// group; a later record with the same key, or a key with no group, keeps
/// its own tags; the decisions and every other field are untouched.
pub proof fn lemma_tags_joined(
    a: MediaItem,
    gs: Seq<(Seq<char>, Seq<Seq<char>>)>,
    first: bool,
    b: MediaItem,
)
    requires
        tagged(a, gs, first, b),
    ensures
        b.rating == a.rating && b.label == a.label && b.flag == a.flag && b.rel == a.rel,
        forall|g: int|
            0 <= g < gs.len() && #[trigger] gs[g].0 == a.rel@ && first && (forall|j: int|
                g < j < gs.len() ==> gs[j].0 != a.rel@) ==> tags_view(b.tags) == gs[g].1,
        !first ==> tags_view(b.tags) == tags_view(a.tags),
        (forall|j: int| 0 <= j < gs.len() ==> gs[j].0 != a.rel@) ==> tags_view(b.tags)
            == tags_view(a.tags),
{
    assert forall|g: int|
        0 <= g < gs.len() && #[trigger] gs[g].0 == a.rel@ && first && (forall|j: int|
            g < j < gs.len() ==> gs[j].0 != a.rel@) implies tags_view(b.tags) == gs[g].1 by {
        lemma_group_at(gs, a.rel@, g);
    }
    crate::catalog::lemma_group_index_bounds(gs, a.rel@);
}

} // verus!
