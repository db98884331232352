//! Disposing of rejected files and the in-app Trash: where a file goes in
//! the per-drive recycle folder, what a sweep records, what the Trash lists
//! and where Restore puts a file back.
use vstd::prelude::*;
use vstd::string::StringSliceAdditionalSpecFns;

use crate::catalog::TrashRow;
use crate::library::{below_root, drive_root, drive_root_of, rel_of, slashes, strip_root};
use crate::listing::{opt_view, rel_fits};
use crate::media::{classify, ext_lower, ext_lower_of, file_name, file_name_of, kind_name, kind_of_ext};
use crate::naming::{join, path_join};
use crate::text::{chars_of, string_of};

verus! {

// ── the sweep ───────────────────────────────────────────────────────────────

/// Whether a dispose request moves files into the in-app recycle folder
/// (`"folder"`) rather than the OS Trash.
pub fn is_folder_mode(mode: &str) -> (b: bool)
    ensures
        b == (mode@ == "folder"@),
{
    let cs = chars_of(mode);
    crate::media::eq_str(&cs, "folder")
}

/// The file name of `p`, or empty.
pub open spec fn name_or_empty(p: Seq<char>, windows: bool) -> Seq<char> {
    match file_name_of(p, windows) {
        Some(n) => n,
        None => Seq::empty(),
    }
}

fn name_of(p: &str, windows: bool) -> (r: String)
    ensures
        r@ == name_or_empty(p@, windows),
{
    let cs = chars_of(p);
    match file_name(&cs, windows) {
        Some(n) => string_of(&n),
        None => String::new(),
    }
}

/// Where a file goes below the recycle folder: its path below its drive
/// root (`stripped`, when the platform's path rules found one), else its
/// file name (or empty).
pub open spec fn rel_below_of(src: Seq<char>, stripped: Option<Seq<char>>, windows: bool) -> Seq<char> {
    match stripped {
        Some(s) => s,
        None => name_or_empty(src, windows),
    }
}

/// The path of `src` below its drive root, so it can be re-rooted under the
/// recycle folder without collisions: for a plain path below a plain drive
/// root, exactly that path; otherwise what the platform's path rules strip,
/// falling back to the file name.
pub fn rel_from_drive(src: &str, windows: bool) -> (r: String)
    ensures
        forall|rest: Seq<char>|
            #[trigger] below_root(drive_root_of(src@, src.spec_bytes(), windows), src@, rest)
                ==> r@ == rest,
        exists|s: Option<Seq<char>>| r@ == rel_below_of(src@, s, windows),
{
    let root = drive_root(src, windows);
    match strip_root(src, root.as_str()) {
        Some(s) => {
            assert(s@ == rel_below_of(src@, Some(s@), windows));
            s
        },
        None => {
            let n = name_of(src, windows);
            assert(n@ == rel_below_of(src@, None, windows));
            n
        },
    }
}

/// Where a moved file is recorded in the Trash: its path below the recycle
/// folder (`stripped`, when found), else the path it was meant to have, with
/// `/` separators.
pub open spec fn stored_of(rel: Seq<char>, stripped: Option<Seq<char>>) -> Seq<char> {
    slashes(
        match stripped {
            Some(s) => s,
            None => rel,
        },
    )
}

/// The Trash's record of a file moved to `target` inside `recycle`: for a
/// plain path below a plain recycle folder, exactly that path.
pub fn stored_name(recycle: &str, target: &str, rel: &str) -> (r: String)
    ensures
        forall|rest: Seq<char>| #[trigger] below_root(recycle@, target@, rest) ==> r@ == rest,
        exists|s: Option<Seq<char>>| r@ == stored_of(rel@, s),
        !r@.contains('\\'),
{
    let stripped = strip_root(target, recycle);
    let ghost sv = opt_view(stripped);
    let r = crate::library::rel_from_stripped(rel, stripped);
    proof {
        assert(r@ == stored_of(rel@, sv));
        let src = match sv {
            Some(s) => s,
            None => rel@,
        };
        assert forall|j: int| 0 <= j < r@.len() implies r@[j] != '\\' by {
            assert(r@[j] == (if src[j] == '\\' { '/' } else { src[j] }));
        }
        assert forall|rest: Seq<char>| #[trigger] below_root(recycle@, target@, rest) implies r@
            == rest by {
            crate::library::lemma_plain_rel_no_backslash(rest);
        }
    }
    r
}

/// What a sweep over rejected files reports.
#[derive(Debug)]
pub struct TrashOutcome {
    pub deleted: usize,
    pub failed: Vec<String>,
    pub errors: Vec<String>,
}

/// A sweep in progress: the report, the catalog keys to forget and the
/// Trash rows `(stored, orig, name, deleted_at)` to record.
#[derive(Debug)]
pub struct Sweep {
    pub outcome: TrashOutcome,
    pub forget: Vec<String>,
    pub trash_rows: Vec<(String, String, String, i64)>,
}

pub open spec fn texts(v: Seq<String>) -> Seq<Seq<char>> {
    v.map_values(|s: String| s@)
}

pub open spec fn rows_of(v: Seq<(String, String, String, i64)>) -> Seq<(Seq<char>, Seq<char>, Seq<char>, i64)> {
    v.map_values(|r: (String, String, String, i64)| (r.0@, r.1@, r.2@, r.3))
}

impl Sweep {
    /// A sweep that has done nothing yet.
    pub fn new() -> (s: Sweep)
        ensures
            s.outcome.deleted == 0,
            s.outcome.failed@.len() == 0,
            s.outcome.errors@.len() == 0,
            s.forget@.len() == 0,
            s.trash_rows@.len() == 0,
    {
        Sweep {
            outcome: TrashOutcome { deleted: 0, failed: Vec::new(), errors: Vec::new() },
            forget: Vec::new(),
            trash_rows: Vec::new(),
        }
    }

    /// `path` was disposed of: count it, forget its catalog key and, when it
    /// was moved into the recycle folder (`moved` holds its stored path and
    /// its original drive-relative path), record it in the Trash at `at`.
    pub fn succeeded(
        &mut self,
        root: &Option<String>,
        path: &str,
        moved: Option<(String, String)>,
        at: i64,
        windows: bool,
    )
        requires
            old(self).outcome.deleted < usize::MAX,
        ensures
            final(self).outcome.deleted == old(self).outcome.deleted + 1,
            texts(final(self).outcome.failed@) == texts(old(self).outcome.failed@),
            texts(final(self).outcome.errors@) == texts(old(self).outcome.errors@),
            texts(final(self).forget@).len() == old(self).forget@.len() + 1,
            texts(final(self).forget@).drop_last() == texts(old(self).forget@),
            rel_fits(opt_view(*root), path@, final(self).forget@.last()@),
            rows_of(final(self).trash_rows@) == (match moved {
                Some((stored, orig)) => rows_of(old(self).trash_rows@).push(
                    (stored@, orig@, name_or_empty(path@, windows), at),
                ),
                None => rows_of(old(self).trash_rows@),
            }),
    {
        self.outcome.deleted = self.outcome.deleted + 1;
        let rel = rel_of(root, path);
        let ghost old_forget = self.forget@;
        self.forget.push(rel);
        proof {
            crate::browse::lemma_map_push(old_forget, rel, |s: String| s@);
        }
        match moved {
            Some((stored, orig)) => {
                let name = name_of(path, windows);
                let ghost old_rows = self.trash_rows@;
                let row = (stored, orig, name, at);
                self.trash_rows.push(row);
                proof {
                    crate::browse::lemma_map_push(
                        old_rows,
                        row,
                        |r: (String, String, String, i64)| (r.0@, r.1@, r.2@, r.3),
                    );
                }
            },
            None => {},
        }
    }

    /// `path` could not be disposed of, for the reason `err`.
    pub fn failed(&mut self, path: String, err: String)
        ensures
            final(self).outcome.deleted == old(self).outcome.deleted,
            texts(final(self).outcome.failed@) == texts(old(self).outcome.failed@).push(path@),
            texts(final(self).outcome.errors@) == texts(old(self).outcome.errors@).push(err@),
            texts(final(self).forget@) == texts(old(self).forget@),
            rows_of(final(self).trash_rows@) == rows_of(old(self).trash_rows@),
    {
        let ghost f0 = self.outcome.failed@;
        let ghost e0 = self.outcome.errors@;
        proof {
            crate::browse::lemma_map_push(f0, path, |s: String| s@);
            crate::browse::lemma_map_push(e0, err, |s: String| s@);
        }
        self.outcome.failed.push(path);
        self.outcome.errors.push(err);
    }
}

// ── the Trash ───────────────────────────────────────────────────────────────

/// A file in the in-app Trash, as the Trash view shows it.
#[derive(Debug)]
pub struct TrashItem {
    pub stored: String,
    pub orig: String,
    /// Where the file lies now, inside the recycle folder.
    pub path: String,
    pub name: String,
    pub kind: String,
    pub ext: String,
    pub deleted_at: i64,
}

pub open spec fn item_view(it: TrashItem) -> (Seq<char>, Seq<char>, Seq<char>, Seq<char>, Seq<char>, Seq<char>, i64) {
    (it.stored@, it.orig@, it.path@, it.name@, it.kind@, it.ext@, it.deleted_at)
}

/// How the Trash shows a row: stored path, original path, where it lies,
/// name, kind, lower-cased extension, time of deletion.
pub open spec fn row_shown(recycle: Seq<char>, r: TrashRow, windows: bool) -> (Seq<char>, Seq<char>, Seq<char>, Seq<char>, Seq<char>, Seq<char>, i64) {
    let path = path_join(recycle, r.stored@, windows);
    (r.stored@, r.orig@, path, r.name@, kind_name(kind_of_ext(ext_lower_of(path, windows))), ext_lower_of(path, windows), r.deleted_at)
}

/// Where a Trash row's file lies.
pub fn trash_path(recycle: &str, stored: &str, windows: bool) -> (p: String)
    ensures
        p@ == path_join(recycle@, stored@, windows),
{
    join(recycle, stored, windows)
}

/// The Trash view of a row.
pub fn trash_item(recycle: &str, row: TrashRow, windows: bool) -> (it: TrashItem)
    ensures
        item_view(it) == row_shown(recycle@, row, windows),
{
    let path = trash_path(recycle, row.stored.as_str(), windows);
    let kind = classify(path.as_str(), windows).as_str().to_string();
    let ext = ext_lower(path.as_str(), windows);
    TrashItem {
        stored: row.stored,
        orig: row.orig,
        path,
        name: row.name,
        kind,
        ext,
        deleted_at: row.deleted_at,
    }
}

/// The stored paths of the rows whose file is gone, in order.
pub open spec fn stale_of(rows: Seq<TrashRow>, present: Seq<bool>) -> Seq<Seq<char>>
    decreases rows.len(),
{
    if rows.len() == 0 || present.len() != rows.len() {
        Seq::empty()
    } else {
        let s = stale_of(rows.drop_last(), present.drop_last());
        if present.last() {
            s
        } else {
            s.push(rows.last().stored@)
        }
    }
}

/// The rows whose file is still there, as the Trash shows them, in order.
pub open spec fn shown_of(recycle: Seq<char>, rows: Seq<TrashRow>, present: Seq<bool>, windows: bool) -> Seq<
    (Seq<char>, Seq<char>, Seq<char>, Seq<char>, Seq<char>, Seq<char>, i64),
>
    decreases rows.len(),
{
    if rows.len() == 0 || present.len() != rows.len() {
        Seq::empty()
    } else {
        let s = shown_of(recycle, rows.drop_last(), present.drop_last(), windows);
        if present.last() {
            s.push(row_shown(recycle, rows.last(), windows))
        } else {
            s
        }
    }
}

/// The Trash's listing (rows as the catalog gives them, most recent first),
/// given whether each row's file is still there: the rows whose file is
/// there, shown in order, and the stored paths of the others, to prune.
pub fn list_trash(recycle: &str, rows: Vec<TrashRow>, present: &Vec<bool>, windows: bool) -> (r: (
    Vec<TrashItem>,
    Vec<String>,
))
    requires
        present.len() == rows.len(),
    ensures
        r.0@.map_values(|it: TrashItem| item_view(it)) == shown_of(recycle@, rows@, present@, windows),
        texts(r.1@) == stale_of(rows@, present@),
{
    let ghost rv = rows@;
    let mut rows = rows;
    let mut rev: Vec<TrashRow> = Vec::new();
    while rows.len() > 0
        invariant
            rows.len() + rev.len() == rv.len(),
            forall|k: int| 0 <= k < rows.len() ==> rows@[k] == rv[k],
            forall|k: int| 0 <= k < rev.len() ==> #[trigger] rev@[k] == rv[rv.len() - 1 - k],
        decreases rows.len(),
    {
        let row = rows.pop().unwrap();
        rev.push(row);
    }
    let mut items: Vec<TrashItem> = Vec::new();
    let mut stale: Vec<String> = Vec::new();
    let mut i: usize = 0;
    while rev.len() > 0
        invariant
            i + rev.len() == rv.len(),
            present.len() == rv.len(),
            forall|k: int| 0 <= k < rev.len() ==> #[trigger] rev@[k] == rv[rv.len() - 1 - k],
            items@.map_values(|it: TrashItem| item_view(it)) == shown_of(
                recycle@,
                rv.take(i as int),
                present@.take(i as int),
                windows,
            ),
            texts(stale@) == stale_of(rv.take(i as int), present@.take(i as int)),
        decreases rev.len(),
    {
        let row = rev.pop().unwrap();
        assert(row == rv[i as int]);
        proof {
            assert(rv.take(i + 1).drop_last() =~= rv.take(i as int));
            assert(present@.take(i + 1).drop_last() =~= present@.take(i as int));
        }
        if present[i] {
            let ghost i0 = items@;
            let it = trash_item(recycle, row, windows);
            items.push(it);
            proof {
                crate::browse::lemma_map_push(i0, it, |it: TrashItem| item_view(it));
            }
        } else {
            let ghost s0 = stale@;
            let s = row.stored;
            stale.push(s);
            proof {
                crate::browse::lemma_map_push(s0, s, |s: String| s@);
            }
        }
        i = i + 1;
    }
    proof {
        assert(rv.take(i as int) =~= rv);
        assert(present@.take(i as int) =~= present@);
    }
    (items, stale)
}

// ── restore ─────────────────────────────────────────────────────────────────

/// Position of the last Trash row stored at `stored`, or -1.
pub open spec fn last_row(rows: Seq<TrashRow>, stored: Seq<char>) -> int
    decreases rows.len(),
{
    if rows.len() == 0 {
        -1
    } else if rows.last().stored@ == stored {
        rows.len() - 1
    } else {
        last_row(rows.drop_last(), stored)
    }
}

/// Where a trashed file came from (relative to its drive root): the
/// original path its row records, or, with no row, its stored path.
pub open spec fn origin_of(rows: Seq<TrashRow>, stored: Seq<char>) -> Seq<char> {
    let k = last_row(rows, stored);
    if k >= 0 {
        rows[k].orig@
    } else {
        stored
    }
}

fn same_text(a: &String, b: &str) -> (r: bool)
    ensures
        r == (a@ == b@),
{
    let x = chars_of(a.as_str());
    crate::media::eq_str(&x, b)
}

/// Where the trashed file stored at `stored` came from.
pub fn restore_origin(rows: &Vec<TrashRow>, stored: &str) -> (o: String)
    ensures
        o@ == origin_of(rows@, stored@),
{
    let mut j = rows.len();
    assert(rows@.take(j as int) =~= rows@);
    while j > 0 && !same_text(&rows[j - 1].stored, stored)
        invariant
            j <= rows.len(),
            last_row(rows@, stored@) == last_row(rows@.take(j as int), stored@),
        decreases j,
    {
        proof {
            assert(rows@.take(j as int).drop_last() =~= rows@.take(j - 1));
        }
        j = j - 1;
    }
    if j == 0 {
        assert(rows@.take(0) =~= Seq::<TrashRow>::empty());
        stored.to_string()
    } else {
        rows[j - 1].orig.clone()
    }
}

/// The moves that put trashed files back: for each stored path, from its
/// place in `recycle` to its origin on `drive` (a move onto a taken name
/// is renamed by the caller). `None` when no drive is active: nothing can
/// be restored then.
pub fn restore_moves(
    recycle: &str,
    drive: &Option<String>,
    rows: &Vec<TrashRow>,
    stored: &Vec<String>,
    windows: bool,
) -> (r: Option<Vec<(String, String)>>)
    ensures
        drive is None <==> r is None,
        r matches Some(m) ==> m@.len() == stored@.len() && forall|k: int|
            0 <= k < stored@.len() ==> (#[trigger] m@[k]).0@ == path_join(recycle@, stored@[k]@, windows)
                && m@[k].1@ == path_join(drive->Some_0@, origin_of(rows@, stored@[k]@), windows),
{
    let d = match drive {
        Some(d) => d,
        None => return None,
    };
    let mut m: Vec<(String, String)> = Vec::new();
    let mut i: usize = 0;
    while i < stored.len()
        invariant
            i <= stored.len(),
            drive == Some(*d),
            m@.len() == i,
            forall|k: int|
                0 <= k < i ==> (#[trigger] m@[k]).0@ == path_join(recycle@, stored@[k]@, windows) && m@[k].1@
                    == path_join(d@, origin_of(rows@, stored@[k]@), windows),
        decreases stored.len() - i,
    {
        let from = join(recycle, stored[i].as_str(), windows);
        let orig = restore_origin(rows, stored[i].as_str());
        let to = join(d.as_str(), orig.as_str(), windows);
        m.push((from, to));
        i = i + 1;
    }
    Some(m)
}

/// What a restore reports.
#[derive(Debug)]
pub struct RestoreOutcome {
    pub restored: usize,
    pub failed: Vec<String>,
}

impl RestoreOutcome {
    /// Nothing restored yet.
    pub fn new() -> (o: RestoreOutcome)
        ensures
            o.restored == 0,
            o.failed@.len() == 0,
    {
        RestoreOutcome { restored: 0, failed: Vec::new() }
    }

    /// Nothing can be restored (no active drive): every file failed.
    pub fn none_restored(stored: Vec<String>) -> (o: RestoreOutcome)
        ensures
            o.restored == 0,
            o.failed@ == stored@,
    {
        RestoreOutcome { restored: 0, failed: stored }
    }

    /// Record the move of the file stored at `stored`: counted when it
    /// succeeded, listed as failed when not.
    pub fn record(&mut self, stored: String, ok: bool)
        requires
            old(self).restored < usize::MAX,
        ensures
            ok ==> final(self).restored == old(self).restored + 1 && final(self).failed@
                == old(self).failed@,
            !ok ==> final(self).restored == old(self).restored && final(self).failed@
                == old(self).failed@.push(stored),
    {
        if ok {
            self.restored = self.restored + 1;
        } else {
            self.failed.push(stored);
        }
    }
}

/// The absolute paths of the flagged files, from their catalog keys: each
/// joined to the library root, or the key itself when there is none.
pub fn rejected_paths(root: &Option<String>, rels: Vec<String>, windows: bool) -> (v: Vec<String>)
    ensures
        v@.len() == rels@.len(),
        forall|k: int|
            0 <= k < rels@.len() ==> (#[trigger] v@[k])@ == (match root {
                Some(r) => path_join(r@, rels@[k]@, windows),
                None => rels@[k]@,
            }),
{
    let mut v: Vec<String> = Vec::new();
    let mut i: usize = 0;
    while i < rels.len()
        invariant
            i <= rels.len(),
            v@.len() == i,
            forall|k: int|
                0 <= k < i ==> (#[trigger] v@[k])@ == (match root {
                    Some(r) => path_join(r@, rels@[k]@, windows),
                    None => rels@[k]@,
                }),
        decreases rels.len() - i,
    {
        let p = match root {
            Some(r) => join(r.as_str(), rels[i].as_str(), windows),
            None => rels[i].clone(),
        };
        v.push(p);
        i = i + 1;
    }
    v
}

/// Law: the Trash listing accounts for every row exactly once: each is
/// either shown (its file is there) or pruned (its file is gone).
pub proof fn lemma_trash_partition(recycle: Seq<char>, rows: Seq<TrashRow>, present: Seq<bool>, windows: bool)
    requires
        present.len() == rows.len(),
    ensures
        shown_of(recycle, rows, present, windows).len() + stale_of(rows, present).len() == rows.len(),
        shown_of(recycle, rows, present, windows).len() == present.filter(|b: bool| b).len(),
    decreases rows.len(),
{
    reveal(Seq::filter);
    if rows.len() > 0 {
        lemma_trash_partition(recycle, rows.drop_last(), present.drop_last(), windows);
    }
}

/// Law: a file recorded in the Trash goes back where it came from: with its
/// row the latest one for its stored path, Restore's origin is the row's
/// original path, whatever rows came before.
pub proof fn lemma_restore_returns_origin(rows: Seq<TrashRow>, row: TrashRow)
    ensures
        origin_of(rows.push(row), row.stored@) == row.orig@,
{
    assert(rows.push(row).last() == row);
}

} // verus!
