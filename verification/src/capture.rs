//! Capture dates for a folder: which files the catalog's cache answers
//! (validated by modified time and size), which must be read, and the value
//! recorded for each.
use vstd::prelude::*;

use crate::library::rel_of;
use crate::listing::rel_fits;
use crate::media::{classify, ext_lower_of, kind_of_ext, Kind};

verus! {

/// A file's capture time (Unix seconds).
#[derive(Debug)]
pub struct CaptureDate {
    pub path: String,
    pub captured: i64,
}

/// A file whose capture time must be read from the file itself.
#[derive(Debug)]
pub struct Pending {
    pub path: String,
    pub rel: String,
    pub mtime: i64,
    pub size: i64,
    pub kind: Kind,
}

/// Position of the last cached row `(rel, captured, mtime, size)` for `rel`, or -1.
pub open spec fn last_cached(rows: Seq<(String, i64, i64, i64)>, rel: Seq<char>) -> int
    decreases rows.len(),
{
    if rows.len() == 0 {
        -1
    } else if rows.last().0@ == rel {
        rows.len() - 1
    } else {
        last_cached(rows.drop_last(), rel)
    }
}

/// The cached capture time of `rel`, if its row is still valid: recorded for
/// the same modified time and size.
pub open spec fn cache_hit(rows: Seq<(String, i64, i64, i64)>, rel: Seq<char>, mtime: i64, size: i64) -> Option<i64> {
    let k = last_cached(rows, rel);
    if k >= 0 && rows[k].2 == mtime && rows[k].3 == size {
        Some(rows[k].1)
    } else {
        None
    }
}

/// The answered files `(path, captured)` and the pending ones `(path, rel,
/// mtime, size, kind)`, in the order of `files`, given each file's key.
pub open spec fn plan_of(
    files: Seq<(String, i64, i64)>,
    rels: Seq<Seq<char>>,
    rows: Seq<(String, i64, i64, i64)>,
    windows: bool,
) -> (Seq<(Seq<char>, i64)>, Seq<(Seq<char>, Seq<char>, i64, i64, Kind)>)
    decreases files.len(),
{
    if files.len() == 0 || rels.len() != files.len() {
        (Seq::empty(), Seq::empty())
    } else {
        let (done, todo) = plan_of(files.drop_last(), rels.drop_last(), rows, windows);
        let f = files.last();
        match cache_hit(rows, rels.last(), f.1, f.2) {
            Some(c) => (done.push((f.0@, c)), todo),
            None => (
                done,
                todo.push((f.0@, rels.last(), f.1, f.2, kind_of_ext(ext_lower_of(f.0@, windows)))),
            ),
        }
    }
}

pub open spec fn dates_view(v: Seq<CaptureDate>) -> Seq<(Seq<char>, i64)> {
    v.map_values(|c: CaptureDate| (c.path@, c.captured))
}

pub open spec fn pending_view(v: Seq<Pending>) -> Seq<(Seq<char>, Seq<char>, i64, i64, Kind)> {
    v.map_values(|p: Pending| (p.path@, p.rel@, p.mtime, p.size, p.kind))
}

fn same_text(a: &String, b: &String) -> (r: bool)
    ensures
        r == (a@ == b@),
{
    let x = crate::text::chars_of(a.as_str());
    crate::media::eq_str(&x, b.as_str())
}

fn find_cached(rows: &Vec<(String, i64, i64, i64)>, rel: &String) -> (r: Option<usize>)
    ensures
        match r {
            Some(k) => k < rows.len() && last_cached(rows@, rel@) == k,
            None => last_cached(rows@, rel@) == -1,
        },
{
    let mut j = rows.len();
    assert(rows@.take(j as int) =~= rows@);
    while j > 0 && !same_text(&rows[j - 1].0, rel)
        invariant
            j <= rows.len(),
            last_cached(rows@, rel@) == last_cached(rows@.take(j as int), rel@),
        decreases j,
    {
        proof {
            assert(rows@.take(j as int).drop_last() =~= rows@.take(j - 1));
        }
        j = j - 1;
    }
    if j == 0 {
        assert(rows@.take(0) =~= Seq::<(String, i64, i64, i64)>::empty());
        None
    } else {
        Some(j - 1)
    }
}

/// Split a folder's files (`path`, modified time, size) into those whose
/// capture time the catalog's cached rows (`captures_under`) still answer and
/// those that must be read, each keyed below `root`.
pub fn plan_captures(
    root: &Option<String>,
    files: Vec<(String, i64, i64)>,
    cached: &Vec<(String, i64, i64, i64)>,
    windows: bool,
) -> (r: (Vec<CaptureDate>, Vec<Pending>))
    ensures
        exists|rels: Seq<Seq<char>>|
            {
                &&& rels.len() == files@.len()
                &&& forall|i: int|
                    0 <= i < files@.len() ==> rel_fits(
                        crate::listing::opt_view(*root),
                        files@[i].0@,
                        #[trigger] rels[i],
                    )
                &&& #[trigger] plan_of(files@, rels, cached@, windows) == (dates_view(r.0@), pending_view(r.1@))
            },
{
    let ghost fv = files@;
    let ghost mut rels: Seq<Seq<char>> = Seq::empty();
    let mut done: Vec<CaptureDate> = Vec::new();
    let mut todo: Vec<Pending> = Vec::new();
    let mut i: usize = 0;
    while i < files.len()
        invariant
            i <= files.len(),
            fv == files@,
            rels.len() == i,
            forall|k: int|
                0 <= k < i ==> rel_fits(crate::listing::opt_view(*root), fv[k].0@, #[trigger] rels[k]),
            plan_of(fv.take(i as int), rels, cached@, windows) == (dates_view(done@), pending_view(todo@)),
        decreases files.len() - i,
    {
        let path = files[i].0.clone();
        let mtime = files[i].1;
        let size = files[i].2;
        let rel = rel_of(root, path.as_str());
        let ghost old_done = done@;
        let ghost old_todo = todo@;
        let ghost old_rels = rels;
        proof {
            rels = rels.push(rel@);
            assert(fv.take(i + 1).drop_last() =~= fv.take(i as int));
            assert(rels.drop_last() =~= old_rels);
        }
        let hit = match find_cached(cached, &rel) {
            Some(k) => {
                if cached[k].2 == mtime && cached[k].3 == size {
                    Some(cached[k].1)
                } else {
                    None
                }
            },
            None => None,
        };
        match hit {
            Some(c) => {
                let d = CaptureDate { path, captured: c };
                done.push(d);
                proof {
                    crate::browse::lemma_map_push(old_done, d, |c: CaptureDate| (c.path@, c.captured));
                }
            },
            None => {
                let kind = classify(path.as_str(), windows);
                let p = Pending { path, rel, mtime, size, kind };
                todo.push(p);
                proof {
                    crate::browse::lemma_map_push(
                        old_todo,
                        p,
                        |p: Pending| (p.path@, p.rel@, p.mtime, p.size, p.kind),
                    );
                }
            },
        }
        i = i + 1;
    }
    assert(fv.take(i as int) =~= fv);
    (done, todo)
}

/// The capture time recorded for a pending file: the EXIF date for images
/// and RAW, the container's `creation_time` for video, else (or when that is
/// missing) the modified time.
pub open spec fn captured_of(kind: Kind, exif: Option<i64>, video: Option<i64>, mtime: i64) -> i64 {
    let found = match kind {
        Kind::Image | Kind::Raw => exif,
        Kind::Video => video,
        Kind::Other => None,
    };
    match found {
        Some(t) => t,
        None => mtime,
    }
}

/// The result and the cache row `(rel, captured, mtime, size)` for a pending
/// file, given what was read from it (`exif` for images and RAW, `video` for
/// clips).
pub fn finish_capture(p: &Pending, exif: Option<i64>, video: Option<i64>) -> (r: (
    CaptureDate,
    (String, i64, i64, i64),
))
    ensures
        r.0.path@ == p.path@,
        r.0.captured == captured_of(p.kind, exif, video, p.mtime),
        r.1.0@ == p.rel@,
        r.1.1 == r.0.captured,
        r.1.2 == p.mtime,
        r.1.3 == p.size,
{
    let found = match p.kind {
        Kind::Image | Kind::Raw => exif,
        Kind::Video => video,
        Kind::Other => None,
    };
    let captured = match found {
        Some(t) => t,
        None => p.mtime,
    };
    (
        CaptureDate { path: p.path.clone(), captured },
        (p.rel.clone(), captured, p.mtime, p.size),
    )
}

/// Law: photos and RAW files take their EXIF date, clips their container's
/// `creation_time`, each falling back to the modified time when missing;
/// other files always take the modified time, and what was read for the
/// other kind never counts.
pub proof fn lemma_captured_by_kind(exif: Option<i64>, video: Option<i64>, mtime: i64)
    ensures
        captured_of(Kind::Image, exif, video, mtime) == (match exif {
            Some(t) => t,
            None => mtime,
        }),
        captured_of(Kind::Raw, exif, video, mtime) == (match exif {
            Some(t) => t,
            None => mtime,
        }),
        captured_of(Kind::Video, exif, video, mtime) == (match video {
            Some(t) => t,
            None => mtime,
        }),
        captured_of(Kind::Other, exif, video, mtime) == mtime,
{
}

} // verus!
