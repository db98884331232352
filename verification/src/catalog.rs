//! Records of the culling catalog and the pure parts of its queries. The
//! catalog itself is a SQLite file keyed by each file's path relative to its
//! drive root (`/`-separated), so it stays valid across machines.
use vstd::prelude::*;

use crate::text::{chars_of, string_of};

verus! {

/// A file's culling decision.
#[derive(Debug)]
pub struct Decision {
    pub rel: String,
    pub rating: i64,
    pub label: Option<String>,
    /// `"pick"`, `"reject"` or none.
    pub flag: Option<String>,
}

/// A file moved into the per-drive in-app Trash.
#[derive(Debug)]
pub struct TrashRow {
    /// Path within the recycle folder.
    pub stored: String,
    /// Original path relative to the drive root (for Restore).
    pub orig: String,
    pub name: String,
    /// Unix seconds; drives the "most recently rejected first" order.
    pub deleted_at: i64,
}

/// The tags of one file.
#[derive(Debug)]
pub struct TagGroup {
    pub rel: String,
    pub tags: Vec<String>,
}

pub open spec fn group_view(g: TagGroup) -> (Seq<char>, Seq<Seq<char>>) {
    (g.rel@, g.tags@.map_values(|t: String| t@))
}

/// Position of the group for `rel` in `gs`, or -1.
pub open spec fn group_index(gs: Seq<(Seq<char>, Seq<Seq<char>>)>, rel: Seq<char>) -> int
    decreases gs.len(),
{
    if gs.len() == 0 {
        -1
    } else if gs.last().0 == rel {
        gs.len() - 1
    } else {
        group_index(gs.drop_last(), rel)
    }
}

/// `(rel, tag)` rows grouped by rel: one group per rel in order of first
/// appearance, each holding that rel's tags in row order.
pub open spec fn grouped(rows: Seq<(Seq<char>, Seq<char>)>) -> Seq<(Seq<char>, Seq<Seq<char>>)>
    decreases rows.len(),
{
    if rows.len() == 0 {
        Seq::empty()
    } else {
        let gs = grouped(rows.drop_last());
        let (rel, tag) = rows.last();
        let k = group_index(gs, rel);
        if k < 0 {
            gs.push((rel, seq![tag]))
        } else {
            gs.update(k, (rel, gs[k].1.push(tag)))
        }
    }
}

pub proof fn lemma_group_index_bounds(gs: Seq<(Seq<char>, Seq<Seq<char>>)>, rel: Seq<char>)
    ensures
        -1 <= group_index(gs, rel) < gs.len(),
        group_index(gs, rel) >= 0 ==> gs[group_index(gs, rel)].0 == rel,
        group_index(gs, rel) < 0 ==> forall|j: int| 0 <= j < gs.len() ==> gs[j].0 != rel,
        forall|j: int| group_index(gs, rel) < j < gs.len() ==> gs[j].0 != rel,
    decreases gs.len(),
{
    if gs.len() > 0 && gs.last().0 != rel {
        lemma_group_index_bounds(gs.drop_last(), rel);
        assert forall|j: int| group_index(gs, rel) < j < gs.len() implies gs[j].0 != rel by {
            if j < gs.len() - 1 {
                assert(gs[j] == gs.drop_last()[j]);
            }
        }
        if group_index(gs, rel) < 0 {
            assert forall|j: int| 0 <= j < gs.len() implies gs[j].0 != rel by {
                if j < gs.len() - 1 {
                    assert(gs[j] == gs.drop_last()[j]);
                }
            }
        }
    }
}

/// The group for `rel` is the last one with that rel... and there is only one.
proof fn lemma_group_index_unique(gs: Seq<(Seq<char>, Seq<Seq<char>>)>, rel: Seq<char>, j: int)
    requires
        0 <= j < gs.len(),
        gs[j].0 == rel,
        forall|a: int, b: int| 0 <= a < b < gs.len() ==> gs[a].0 != gs[b].0,
    ensures
        group_index(gs, rel) == j,
    decreases gs.len(),
{
    if j < gs.len() - 1 {
        assert(gs.drop_last()[j] == gs[j]);
        lemma_group_index_unique(gs.drop_last(), rel, j);
    }
}

pub proof fn lemma_grouped_distinct(rows: Seq<(Seq<char>, Seq<char>)>)
    ensures
        forall|a: int, b: int|
            0 <= a < b < grouped(rows).len() ==> grouped(rows)[a].0 != grouped(rows)[b].0,
    decreases rows.len(),
{
    if rows.len() > 0 {
        lemma_grouped_distinct(rows.drop_last());
        let gs = grouped(rows.drop_last());
        lemma_group_index_bounds(gs, rows.last().0);
    }
}

fn string_eq(a: &String, b: &String) -> (r: bool)
    ensures
        r == (a@ == b@),
{
    a.eq(b)
}

/// Every tag at or under a folder, grouped by rel-path (the rows come from
/// the catalog ordered by tag, so each file's tags stay in that order).
pub fn group_tags(rows: &Vec<(String, String)>) -> (out: Vec<TagGroup>)
    ensures
        out@.map_values(|g: TagGroup| group_view(g)) == grouped(
            rows@.map_values(|r: (String, String)| (r.0@, r.1@)),
        ),
{
    let ghost rv = rows@.map_values(|r: (String, String)| (r.0@, r.1@));
    let mut out: Vec<TagGroup> = Vec::new();
    let mut i: usize = 0;
    assert(rv.take(0) =~= Seq::<(Seq<char>, Seq<char>)>::empty());
    assert(out@.map_values(|g: TagGroup| group_view(g)) =~= grouped(rv.take(0)));
    while i < rows.len()
        invariant
            i <= rows.len(),
            rv == rows@.map_values(|r: (String, String)| (r.0@, r.1@)),
            out@.map_values(|g: TagGroup| group_view(g)) == grouped(rv.take(i as int)),
        decreases rows.len() - i,
    {
        let ghost gs = grouped(rv.take(i as int));
        proof {
            lemma_grouped_distinct(rv.take(i as int));
            assert(rv.take(i + 1).drop_last() =~= rv.take(i as int));
            assert(rv.take(i + 1).last() == rv[i as int]);
        }
        let rel = &rows[i].0;
        let tag = &rows[i].1;
        let mut k: usize = 0;
        while k < out.len() && !string_eq(&out[k].rel, rel)
            invariant
                k <= out.len(),
                out@.map_values(|g: TagGroup| group_view(g)) == gs,
                forall|j: int| 0 <= j < k ==> gs[j].0 != rel@,
            decreases out.len() - k,
        {
            proof {
                assert(gs[k as int] == group_view(out@[k as int]));
            }
            k = k + 1;
        }
        let ghost old_out = out@;
        if k < out.len() {
            proof {
                assert(gs[k as int] == group_view(out@[k as int]));
                lemma_group_index_unique(gs, rel@, k as int);
            }
            let mut g = out.remove(k);
            g.tags.push(tag.clone());
            out.insert(k, g);
            proof {
                let nv = out@.map_values(|g: TagGroup| group_view(g));
                let expect = gs.update(k as int, (rel@, gs[k as int].1.push(tag@)));
                assert(old_out[k as int].tags@.map_values(|t: String| t@) == gs[k as int].1);
                assert(g.tags@.map_values(|t: String| t@) =~= gs[k as int].1.push(tag@));
                assert(out@ =~= old_out.update(k as int, g));
                assert(nv =~= expect);
            }
        } else {
            proof {
                lemma_group_index_bounds(gs, rel@);
                if group_index(gs, rel@) >= 0 {
                    assert(gs[group_index(gs, rel@)].0 == rel@);
                }
            }
            let mut tags: Vec<String> = Vec::new();
            tags.push(tag.clone());
            let g = TagGroup { rel: rel.clone(), tags };
            out.push(g);
            proof {
                assert(g.tags@.map_values(|t: String| t@) =~= seq![tag@]);
                assert(out@.map_values(|g: TagGroup| group_view(g)) =~= gs.push((rel@, seq![tag@])));
            }
        }
        i = i + 1;
    }
    assert(rv.take(i as int) =~= rv);
    out
}

/// The `LIKE` pattern that, beside `rel = prefix`, picks the rows at or
/// under a folder: `None` for the library root (every row), else
/// `"{prefix}/%"`.
pub fn subtree_pattern(prefix: &str) -> (p: Option<String>)
    ensures
        prefix@.len() == 0 <==> p is None,
        p matches Some(s) ==> s@ == prefix@ + "/%"@,
{
    let cs = chars_of(prefix);
    if cs.len() == 0 {
        None
    } else {
        Some(crate::naming::concat_str(prefix, "/%"))
    }
}

/// A tag as stored: trimmed of white space; `None` (nothing to add) when
/// that leaves it empty.
pub fn normalize_tag(tag: &str) -> (r: Option<String>)
    ensures
        crate::text::trim(tag@).len() == 0 <==> r is None,
        r matches Some(t) ==> t@ == crate::text::trim(tag@),
{
    let cs = chars_of(tag);
    let (lo, hi) = crate::text::trim_bounds(&cs);
    if lo == hi {
        None
    } else {
        let t = crate::text::sub_chars(&cs, lo, hi);
        Some(string_of(&t))
    }
}

} // verus!
