//! Where a drive's library lives and how files are named inside it: drive
//! roots, the per-drive `_FoxCull` folder (or its app-data fallback),
//! catalog keys relative to the drive root, and the names chosen so a move
//! or an export never clobbers an existing file.
use vstd::prelude::*;
use vstd::string::StringSliceAdditionalSpecFns;

use crate::media::{extension_of_name, file_name, file_name_of, last_index_before, stem_of_name};
use crate::naming::{concat_str, dec_of, decimal, join, path_join};
use crate::text::{chars_of, string_of, sub_chars};

verus! {

// ── drive roots ─────────────────────────────────────────────────────────────

/// Volume/drive root of an absolute path: on Windows `X:\` for a path that
/// starts `X:\` or `X:/` (the first byte read as a character), else `C:\`;
/// elsewhere `/Volumes/<name>` for a path under a named volume, else `/`.
pub open spec fn drive_root_of(p: Seq<char>, b: Seq<u8>, windows: bool) -> Seq<char> {
    if windows {
        if b.len() >= 3 && b[1] == 0x3A && (b[2] == 0x5C || b[2] == 0x2F) {
            seq![b[0] as char, ':', '\\']
        } else {
            "C:\\"@
        }
    } else {
        let pre = "/Volumes/"@;
        if p.len() >= pre.len() && p.take(pre.len() as int) == pre {
            let rest = p.skip(pre.len() as int);
            let i = crate::media::first_index_of(rest, '/');
            let name = if i < 0 {
                rest
            } else {
                rest.take(i)
            };
            if name.len() > 0 {
                pre + name
            } else {
                "/"@
            }
        } else {
            "/"@
        }
    }
}

fn starts_with_volumes(p: &Vec<char>) -> (r: bool)
    ensures
        r == (p@.len() >= "/Volumes/"@.len() && p@.take("/Volumes/"@.len() as int) == "/Volumes/"@),
{
    let pre = chars_of("/Volumes/");
    if p.len() < pre.len() {
        return false;
    }
    let mut i: usize = 0;
    while i < pre.len()
        invariant
            i <= pre.len() <= p.len(),
            pre@ == "/Volumes/"@,
            forall|j: int| 0 <= j < i ==> p@[j] == pre@[j],
        decreases pre.len() - i,
    {
        if p[i] != pre[i] {
            assert(p@.take(pre.len() as int)[i as int] != pre@[i as int]);
            return false;
        }
        i = i + 1;
    }
    assert(p@.take(pre.len() as int) =~= pre@);
    true
}

/// The drive root that `path` lives on.
pub fn drive_root(path: &str, windows: bool) -> (r: String)
    ensures
        r@ == drive_root_of(path@, path.spec_bytes(), windows),
{
    if windows {
        let b = path.as_bytes();
        if b.len() >= 3 && b[1] == 0x3A && (b[2] == 0x5C || b[2] == 0x2F) {
            let mut v: Vec<char> = Vec::new();
            v.push(b[0] as char);
            v.push(':');
            v.push('\\');
            assert(v@ =~= seq![b@[0] as char, ':', '\\']);
            return string_of(&v);
        }
        let r = "C:\\".to_string();
        return r;
    }
    let p = chars_of(path);
    if starts_with_volumes(&p) {
        let pre_len = chars_of("/Volumes/").len();
        let rest = sub_chars(&p, pre_len, p.len());
        assert(rest@ =~= p@.skip(pre_len as int));
        let end = match crate::media::first_index_from(&rest, '/') {
            Some(i) => i,
            None => rest.len(),
        };
        let name = sub_chars(&rest, 0, end);
        proof {
            crate::media::lemma_first_index_bounds(rest@, '/');
            let i = crate::media::first_index_of(rest@, '/');
            if i < 0 {
                assert(name@ =~= rest@);
            } else {
                assert(name@ =~= rest@.take(i));
            }
        }
        if name.len() > 0 {
            let n = string_of(&name);
            return concat_str("/Volumes/", n.as_str());
        }
    }
    "/".to_string()
}

// ── the per-drive library ───────────────────────────────────────────────────

pub open spec fn is_ascii_alnum(c: char) -> bool {
    ('0' <= c && c <= '9') || ('a' <= c && c <= 'z') || ('A' <= c && c <= 'Z')
}

/// Strip `c` from both ends of `s` (`str::trim_matches`).
pub open spec fn trim_char(s: Seq<char>, c: char) -> Seq<char>
    decreases s.len(),
{
    if s.len() > 0 && s[0] == c {
        trim_char(s.drop_first(), c)
    } else if s.len() > 0 && s.last() == c {
        trim_char(s.drop_last(), c)
    } else {
        s
    }
}

/// Filesystem-safe id for a drive root, for the app-data fallback folder:
/// ASCII letters and digits kept, everything else `_`, underscores trimmed
/// from both ends, `root` if nothing is left.
pub open spec fn drive_id_of(root: Seq<char>) -> Seq<char> {
    let mapped = root.map_values(|c: char| if is_ascii_alnum(c) { c } else { '_' });
    let t = trim_char(mapped, '_');
    if t.len() == 0 {
        "root"@
    } else {
        t
    }
}

proof fn lemma_trim_char_range(s: Seq<char>, c: char, lo: int, hi: int)
    requires
        0 <= lo <= hi <= s.len(),
        forall|j: int| 0 <= j < lo ==> s[j] == c,
        forall|j: int| hi <= j < s.len() ==> s[j] == c,
        lo < hi ==> s[lo] != c && s[hi - 1] != c,
        lo == hi ==> hi == s.len(),
    ensures
        trim_char(s, c) == s.subrange(lo, hi),
    decreases s.len(),
{
    if s.len() > 0 && s[0] == c {
        let t = s.drop_first();
        assert forall|j: int| 0 <= j < lo - 1 implies t[j] == c by {
            assert(t[j] == s[j + 1]);
        }
        assert forall|j: int| hi - 1 <= j < t.len() implies t[j] == c by {
            assert(t[j] == s[j + 1]);
        }
        if lo == 0 {
            assert(false);
        }
        lemma_trim_char_range(t, c, lo - 1, hi - 1);
        assert(t.subrange(lo - 1, hi - 1) =~= s.subrange(lo, hi));
    } else if s.len() > 0 && s.last() == c {
        let t = s.drop_last();
        assert forall|j: int| 0 <= j < lo implies t[j] == c by {
            assert(t[j] == s[j]);
        }
        assert forall|j: int| hi <= j < t.len() implies t[j] == c by {
            assert(t[j] == s[j]);
        }
        if lo == hi {
            assert(lo == 0);
            lemma_trim_char_range(t, c, 0, 0);
            assert(t.subrange(0, 0) =~= s.subrange(lo, hi));
        } else {
            assert(hi < s.len());
            lemma_trim_char_range(t, c, lo, hi);
            assert(t.subrange(lo, hi) =~= s.subrange(lo, hi));
        }
    } else {
        if lo == hi {
            assert(s.len() == 0);
        }
        assert(s.subrange(lo, hi) =~= s);
    }
}

proof fn lemma_trim_char_shape(s: Seq<char>, c: char)
    ensures
        forall|i: int|
            0 <= i < trim_char(s, c).len() ==> s.contains(#[trigger] trim_char(s, c)[i]),
        trim_char(s, c).len() > 0 ==> trim_char(s, c)[0] != c && trim_char(s, c).last() != c,
    decreases s.len(),
{
    if s.len() > 0 && s[0] == c {
        let t = s.drop_first();
        lemma_trim_char_shape(t, c);
        assert forall|i: int| 0 <= i < trim_char(s, c).len() implies s.contains(
            #[trigger] trim_char(s, c)[i],
        ) by {
            let x = trim_char(s, c)[i];
            assert(t.contains(x));
            let j = choose|j: int| 0 <= j < t.len() && t[j] == x;
            assert(s[j + 1] == x);
        }
    } else if s.len() > 0 && s.last() == c {
        let t = s.drop_last();
        lemma_trim_char_shape(t, c);
        assert forall|i: int| 0 <= i < trim_char(s, c).len() implies s.contains(
            #[trigger] trim_char(s, c)[i],
        ) by {
            let x = trim_char(s, c)[i];
            assert(t.contains(x));
            let j = choose|j: int| 0 <= j < t.len() && t[j] == x;
            assert(s[j] == x);
        }
    } else {
        assert forall|i: int| 0 <= i < trim_char(s, c).len() implies s.contains(
            #[trigger] trim_char(s, c)[i],
        ) by {
            assert(s[i] == trim_char(s, c)[i]);
        }
    }
}

/// Law: a drive id is safe as a folder name: non-empty, only ASCII letters,
/// digits and `_`, and neither starting nor ending with `_`.
pub proof fn lemma_drive_id_safe(root: Seq<char>)
    ensures
        drive_id_of(root).len() > 0,
        forall|i: int|
            0 <= i < drive_id_of(root).len() ==> is_ascii_alnum(#[trigger] drive_id_of(root)[i])
                || drive_id_of(root)[i] == '_',
        drive_id_of(root)[0] != '_',
        drive_id_of(root).last() != '_',
{
    reveal_strlit("root");
    let mapped = root.map_values(|c: char| if is_ascii_alnum(c) { c } else { '_' });
    lemma_trim_char_shape(mapped, '_');
    let t = trim_char(mapped, '_');
    if t.len() > 0 {
        assert forall|i: int| 0 <= i < t.len() implies is_ascii_alnum(#[trigger] t[i]) || t[i] == '_' by {
            assert(mapped.contains(t[i]));
            let j = choose|j: int| 0 <= j < mapped.len() && mapped[j] == t[i];
            assert(mapped[j] == (if is_ascii_alnum(root[j]) { root[j] } else { '_' }));
        }
    } else {
        let r = "root"@;
        assert forall|i: int| 0 <= i < r.len() implies is_ascii_alnum(#[trigger] r[i]) by {
            assert(r =~= seq!['r', 'o', 'o', 't']);
        }
        assert(r[0] == 'r' && r[3] == 't');
    }
}

/// Filesystem-safe id for a drive root.
pub fn drive_id(root: &str) -> (id: String)
    ensures
        id@ == drive_id_of(root@),
{
    let cs = chars_of(root);
    let ghost mapped = root@.map_values(|c: char| if is_ascii_alnum(c) { c } else { '_' });
    let mut m: Vec<char> = Vec::new();
    let mut i: usize = 0;
    while i < cs.len()
        invariant
            i <= cs.len(),
            cs@ == root@,
            mapped == root@.map_values(|c: char| if is_ascii_alnum(c) { c } else { '_' }),
            m@ == mapped.take(i as int),
        decreases cs.len() - i,
    {
        let c = cs[i];
        let keep = ('0' <= c && c <= '9') || ('a' <= c && c <= 'z') || ('A' <= c && c <= 'Z');
        m.push(
            if keep {
                c
            } else {
                '_'
            },
        );
        proof {
            assert(mapped[i as int] == (if is_ascii_alnum(root@[i as int]) { root@[i as int] } else { '_' }));
            assert(m@ =~= mapped.take(i + 1));
        }
        i = i + 1;
    }
    assert(mapped.take(i as int) =~= mapped);
    let mut lo: usize = 0;
    while lo < m.len() && m[lo] == '_'
        invariant
            lo <= m.len(),
            forall|j: int| 0 <= j < lo ==> m@[j] == '_',
        decreases m.len() - lo,
    {
        lo = lo + 1;
    }
    let mut hi: usize = m.len();
    while hi > lo && m[hi - 1] == '_'
        invariant
            lo <= hi <= m.len(),
            forall|j: int| hi <= j < m.len() ==> m@[j] == '_',
        decreases hi,
    {
        hi = hi - 1;
    }
    proof {
        lemma_trim_char_range(m@, '_', lo as int, hi as int);
    }
    if lo == hi {
        "root".to_string()
    } else {
        let t = sub_chars(&m, lo, hi);
        string_of(&t)
    }
}

/// Name of the per-drive library folder at the drive root.
pub const LIB_DIRNAME: &'static str = "_FoxCull";

/// The library folders of a drive.
#[derive(Debug, PartialEq, Eq)]
pub struct LibraryPaths {
    pub dir: String,
    pub catalog: String,
    pub cache: String,
    pub recycle: String,
    /// True when the library lives on the drive itself.
    pub on_drive: bool,
}

/// The library for a drive: `<drive>/_FoxCull` when the drive root is
/// writable, else `<data_root>/libraries/<drive-id>` (read-only mounts); it
/// holds `catalog.sqlite`, the `thumbs` cache and the `recycle` folder.
pub fn library_paths(data_root: &str, drive: &str, writable: bool, windows: bool) -> (l: LibraryPaths)
    ensures
        l.dir@ == (if writable {
            path_join(drive@, "_FoxCull"@, windows)
        } else {
            path_join(path_join(data_root@, "libraries"@, windows), drive_id_of(drive@), windows)
        }),
        l.catalog@ == path_join(l.dir@, "catalog.sqlite"@, windows),
        l.cache@ == path_join(l.dir@, "thumbs"@, windows),
        l.recycle@ == path_join(l.dir@, "recycle"@, windows),
        l.on_drive == writable,
{
    let dir = if writable {
        join(drive, "_FoxCull", windows)
    } else {
        let libs = join(data_root, "libraries", windows);
        let id = drive_id(drive);
        join(libs.as_str(), id.as_str(), windows)
    };
    let catalog = join(dir.as_str(), "catalog.sqlite", windows);
    let cache = join(dir.as_str(), "thumbs", windows);
    let recycle = join(dir.as_str(), "recycle", windows);
    LibraryPaths { dir, catalog, cache, recycle, on_drive: writable }
}

/// How a newly activated library's catalog is seeded.
#[derive(Debug, PartialEq, Eq, Clone, Copy)]
pub enum Seed {
    /// The catalog file already exists (or nothing to seed from): open it.
    Nothing,
    /// Copy the drive's legacy `fox-cull.catalog` in (and adopt its `thumbs`),
    /// removing the legacy file only once the new catalog is open.
    AdoptLegacy,
    /// Copy the catalog in use now.
    CopyCurrent,
}

/// What activating a drive's library does to the catalog.
#[derive(Debug, PartialEq, Eq, Clone, Copy)]
pub enum LibrarySwitch {
    /// The drive's catalog is already the one in use.
    Stay,
    /// Create the library folders, seed the catalog as said, reopen it there.
    Switch(Seed),
}

/// Migration is data-loss-safe: a fresh per-drive catalog is seeded by
/// copying (never moving) the legacy catalog of an on-drive library, or else
/// the current catalog; an existing catalog is opened as it is.
pub fn plan_library_switch(
    current_is_target: bool,
    target_exists: bool,
    on_drive: bool,
    legacy_is_file: bool,
    current_is_file: bool,
) -> (s: LibrarySwitch)
    ensures
        current_is_target ==> s == LibrarySwitch::Stay,
        !current_is_target && target_exists ==> s == LibrarySwitch::Switch(Seed::Nothing),
        !current_is_target && !target_exists && on_drive && legacy_is_file ==> s
            == LibrarySwitch::Switch(Seed::AdoptLegacy),
        !current_is_target && !target_exists && !(on_drive && legacy_is_file) && current_is_file
            ==> s == LibrarySwitch::Switch(Seed::CopyCurrent),
        !current_is_target && !target_exists && !(on_drive && legacy_is_file) && !current_is_file
            ==> s == LibrarySwitch::Switch(Seed::Nothing),
{
    if current_is_target {
        LibrarySwitch::Stay
    } else if target_exists {
        LibrarySwitch::Switch(Seed::Nothing)
    } else if on_drive && legacy_is_file {
        LibrarySwitch::Switch(Seed::AdoptLegacy)
    } else if current_is_file {
        LibrarySwitch::Switch(Seed::CopyCurrent)
    } else {
        LibrarySwitch::Switch(Seed::Nothing)
    }
}

// ── catalog keys ────────────────────────────────────────────────────────────

/// `s` with every `\` replaced by `/`.
pub open spec fn slashes(s: Seq<char>) -> Seq<char> {
    s.map_values(|c: char| if c == '\\' { '/' } else { c })
}

/// The catalog key of a path: the part below the library root when the
/// platform's path rules found one (`stripped`), else the path itself, with
/// `/` separators so Windows and macOS produce the same key.
pub fn rel_from_stripped(abs: &str, stripped: Option<String>) -> (r: String)
    ensures
        r@ == slashes(
            match stripped {
                Some(s) => s@,
                None => abs@,
            },
        ),
{
    let src = match stripped {
        Some(s) => s,
        None => abs.to_string(),
    };
    let cs = chars_of(src.as_str());
    let mut v: Vec<char> = Vec::new();
    let mut i: usize = 0;
    while i < cs.len()
        invariant
            i <= cs.len(),
            v@ == slashes(cs@.take(i as int)),
        decreases cs.len() - i,
    {
        let c = cs[i];
        v.push(
            if c == '\\' {
                '/'
            } else {
                c
            },
        );
        i = i + 1;
        assert(v@ =~= slashes(cs@.take(i as int)));
    }
    assert(cs@.take(i as int) =~= cs@);
    string_of(&v)
}

/// A plain path component: not empty, holding no `/`, `\` or `:`, and
/// neither `.` nor `..` (the same component on every platform).
pub open spec fn plain_component(c: Seq<char>) -> bool {
    &&& c.len() > 0
    &&& !c.contains('/')
    &&& !c.contains('\\')
    &&& !c.contains(':')
    &&& c != "."@
    &&& c != ".."@
}

/// Plain components joined by single `/` (no leading or trailing `/`).
pub open spec fn plain_rel(s: Seq<char>) -> bool
    decreases s.len(),
{
    let i = crate::media::first_index_of(s, '/');
    if i < 0 {
        plain_component(s)
    } else {
        proof {
            crate::media::lemma_first_index_bounds(s, '/');
        }
        plain_component(s.take(i)) && plain_rel(s.skip(i + 1))
    }
}

/// A plain root: `/`, a plain relative path, or one with a leading `/`.
pub open spec fn plain_root(r: Seq<char>) -> bool {
    r == "/"@ || plain_rel(r) || (r.len() > 0 && r[0] == '/' && plain_rel(r.skip(1)))
}

/// `abs` is the plain path `rest` below the plain root `root`.
pub open spec fn below_root(root: Seq<char>, abs: Seq<char>, rest: Seq<char>) -> bool {
    plain_root(root) && plain_rel(rest) && abs == path_join(root, rest, false)
}

/// A plain relative path holds no `\`.
pub proof fn lemma_plain_rel_no_backslash(s: Seq<char>)
    requires
        plain_rel(s),
    ensures
        !s.contains('\\'),
        slashes(s) == s,
    decreases s.len(),
{
    let i = crate::media::first_index_of(s, '/');
    crate::media::lemma_first_index_bounds(s, '/');
    if i >= 0 {
        lemma_plain_rel_no_backslash(s.skip(i + 1));
        assert forall|j: int| 0 <= j < s.len() implies s[j] != '\\' by {
            if j < i {
                assert(s.take(i)[j] == s[j]);
                assert(!s.take(i).contains('\\'));
            } else if j > i {
                assert(s.skip(i + 1)[j - i - 1] == s[j]);
            }
        }
    }
    assert(slashes(s) =~= s);
}

/// Where `abs` is a plain path `rest` below the plain root `root`, the
/// stripped path is `rest`.
pub open spec fn stripped_below(root: Seq<char>, abs: Seq<char>, stripped: Option<Seq<char>>) -> bool {
    forall|rest: Seq<char>| #[trigger] below_root(root, abs, rest) ==> stripped == Some(rest)
}

/// What a catalog key is for `abs` under an optional library root: with no
/// root the path with `/` separators; under a root, the plain path below it
/// when `abs` is a plain path below a plain root; never a `\`.
pub open spec fn key_fits(root: Option<Seq<char>>, abs: Seq<char>, rel: Seq<char>) -> bool {
    &&& !rel.contains('\\')
    &&& match root {
        None => rel == slashes(abs),
        Some(rt) => forall|rest: Seq<char>| #[trigger] below_root(rt, abs, rest) ==> rel == rest,
    }
}

/// `Path::strip_prefix(root)` of `abs`, as a (lossily decoded) string.
///
/// Trusted, as the documentation and the component rules of both Unix and
/// Windows give it: when `abs` is a plain path `rest` below a plain root,
/// the result is `rest`. Other paths (prefixes, `.` or `..` components,
/// repeated separators) are left to the platform's path rules, unsaid.
#[verifier::external_body]
pub(crate) fn strip_root(abs: &str, root: &str) -> (stripped: Option<String>)
    ensures
        stripped_below(root@, abs@, crate::listing::opt_view(stripped)),
{
    std::path::Path::new(abs)
        .strip_prefix(root)
        .ok()
        .map(|r| r.to_string_lossy().to_string())
}

/// Path relative to the active library root (`None`: no root yet), with `/`
/// separators. What lies below the root is decided by the platform's path
/// rules; whatever they say, the key has no `\`.
pub fn rel_of(root: &Option<String>, abs: &str) -> (r: String)
    ensures
        key_fits(crate::listing::opt_view(*root), abs@, r@),
{
    let stripped = match root {
        Some(rt) => strip_root(abs, rt.as_str()),
        None => None,
    };
    let ghost src = match &stripped {
        Some(s) => s@,
        None => abs@,
    };
    let r = rel_from_stripped(abs, stripped);
    proof {
        assert forall|j: int| 0 <= j < r@.len() implies r@[j] != '\\' by {
            assert(r@[j] == (if src[j] == '\\' { '/' } else { src[j] }));
        }
        if let Some(rt) = root {
            assert forall|rest: Seq<char>| #[trigger] below_root(rt@, abs@, rest) implies r@
                == rest by {
                lemma_plain_rel_no_backslash(rest);
            }
        }
    }
    r
}

/// The catalog keys of many paths.
pub fn rels_for(root: &Option<String>, paths: &Vec<String>) -> (v: Vec<String>)
    ensures
        v@.len() == paths@.len(),
        forall|k: int|
            0 <= k < paths@.len() ==> key_fits(
                crate::listing::opt_view(*root),
                paths@[k]@,
                (#[trigger] v@[k])@,
            ),
{
    let mut v: Vec<String> = Vec::new();
    let mut i: usize = 0;
    while i < paths.len()
        invariant
            i <= paths.len(),
            v@.len() == i,
            forall|k: int|
                0 <= k < i ==> key_fits(
                    crate::listing::opt_view(*root),
                    paths@[k]@,
                    (#[trigger] v@[k])@,
                ),
        decreases paths.len() - i,
    {
        let r = rel_of(root, paths[i].as_str());
        v.push(r);
        i = i + 1;
    }
    v
}

// ── non-clobbering names ────────────────────────────────────────────────────

/// `"{stem} ({n}).{ext}"`, or `"{stem} ({n})"` when the file name has no
/// extension: the n-th alternative name for a taken file name.
pub open spec fn numbered_name_of(name: Seq<char>, n: nat) -> Seq<char> {
    let stem = stem_of_name(name);
    let tag = " ("@ + dec_of(n) + ")"@;
    match extension_of_name(name) {
        Some(e) => stem + tag + "."@ + e,
        None => stem + tag,
    }
}

/// Alternative file name `n` (counting from 2) for a taken file name, so a
/// recycle move or a restore never clobbers an existing file.
pub fn numbered_name(name: &str, n: u64) -> (r: String)
    ensures
        r@ == numbered_name_of(name@, n as nat),
{
    let cs = chars_of(name);
    let i = last_index_before(&cs, '.', cs.len());
    proof {
        assert(cs@.take(cs.len() as int) =~= cs@);
    }
    let dotdot = cs.len() == 2 && cs[0] == '.' && cs[1] == '.';
    proof {
        if dotdot {
            assert(cs@ =~= seq!['.', '.']);
        } else if cs.len() == 2 {
            assert(cs@ != seq!['.', '.']) by {
                if cs@ == seq!['.', '.'] {
                    assert(cs@[0] == '.' && cs@[1] == '.');
                }
            }
        }
    }
    let num = decimal(n);
    let a = concat_str(" (", num.as_str());
    let tag = concat_str(a.as_str(), ")");
    match i {
        Some(i) => {
            if !dotdot && i > 0 {
                let stem = string_of(&sub_chars(&cs, 0, i));
                let ext = string_of(&sub_chars(&cs, i + 1, cs.len()));
                proof {
                    assert(stem@ =~= cs@.take(i as int));
                    assert(ext@ =~= cs@.skip(i + 1));
                }
                let b = concat_str(stem.as_str(), tag.as_str());
                let c = concat_str(b.as_str(), ".");
                return concat_str(c.as_str(), ext.as_str());
            }
        },
        None => {},
    }
    concat_str(name, tag.as_str())
}

/// Equal sequences with the same head and tail have the same middle.
proof fn lemma_same_middle(pre: Seq<char>, a: Seq<char>, b: Seq<char>, post: Seq<char>)
    requires
        pre + a + post == pre + b + post,
    ensures
        a == b,
{
    let x = pre + a + post;
    let y = pre + b + post;
    assert(x.len() == y.len());
    assert forall|i: int| 0 <= i < a.len() implies a[i] == b[i] by {
        assert(x[pre.len() + i] == a[i]);
        assert(y[pre.len() + i] == b[i]);
    }
    assert(a =~= b);
}

/// Law: the alternative names for a taken file name are all new, and all
/// different from each other, so trying them in turn never clobbers a file
/// and always moves on to a fresh name.
pub proof fn lemma_numbered_names_fresh(name: Seq<char>, n: nat, m: nat)
    ensures
        numbered_name_of(name, n) != name,
        n != m ==> numbered_name_of(name, n) != numbered_name_of(name, m),
{
    reveal_strlit(" (");
    reveal_strlit(")");
    reveal_strlit(".");
    crate::naming::lemma_dec_digits(n);
    let stem = stem_of_name(name);
    let dn = dec_of(n);
    let dm = dec_of(m);
    crate::media::lemma_last_index_bounds(name, '.');
    let post = match extension_of_name(name) {
        Some(e) => ")"@ + "."@ + e,
        None => ")"@,
    };
    assert(numbered_name_of(name, n) =~= (stem + " ("@) + dn + post);
    assert(numbered_name_of(name, m) =~= (stem + " ("@) + dm + post);
    assert(numbered_name_of(name, n).len() > name.len());
    if n != m && numbered_name_of(name, n) == numbered_name_of(name, m) {
        lemma_same_middle(stem + " ("@, dn, dm, post);
        crate::naming::lemma_dec_injective(n, m);
    }
}

/// The stem and extension an exported cut is named after: the source's file
/// stem (or `clip`) and extension (or `mp4`).
pub open spec fn cut_parts_of(path: Seq<char>, windows: bool) -> (Seq<char>, Seq<char>) {
    match file_name_of(path, windows) {
        Some(name) => (
            stem_of_name(name),
            match extension_of_name(name) {
                Some(e) => e,
                None => "mp4"@,
            },
        ),
        None => ("clip"@, "mp4"@),
    }
}

/// Name of an exported cut: `"{stem}_cut.{ext}"` first (`n` is `None`), then
/// `"{stem}_cut{n}.{ext}"` for `n` = 2, 3, … while the name is taken.
pub open spec fn cut_name_of(path: Seq<char>, n: Option<u64>, windows: bool) -> Seq<char> {
    let (stem, ext) = cut_parts_of(path, windows);
    match n {
        None => stem + "_cut."@ + ext,
        Some(k) => stem + "_cut"@ + dec_of(k as nat) + "."@ + ext,
    }
}

/// The file name of a lossless cut of `path`.
pub fn cut_name(path: &str, n: Option<u64>, windows: bool) -> (r: String)
    ensures
        r@ == cut_name_of(path@, n, windows),
{
    let p = chars_of(path);
    let (stem, ext) = match file_name(&p, windows) {
        Some(name) => {
            let i = last_index_before(&name, '.', name.len());
            proof {
                assert(name@.take(name.len() as int) =~= name@);
            }
            let dotdot = name.len() == 2 && name[0] == '.' && name[1] == '.';
            proof {
                if dotdot {
                    assert(name@ =~= seq!['.', '.']);
                } else if name.len() == 2 {
                    assert(name@ != seq!['.', '.']) by {
                        if name@ == seq!['.', '.'] {
                            assert(name@[0] == '.' && name@[1] == '.');
                        }
                    }
                }
            }
            match i {
                Some(i) => {
                    if !dotdot && i > 0 {
                        let stem = string_of(&sub_chars(&name, 0, i));
                        let ext = string_of(&sub_chars(&name, i + 1, name.len()));
                        proof {
                            assert(stem@ =~= name@.take(i as int));
                            assert(ext@ =~= name@.skip(i + 1));
                        }
                        (stem, ext)
                    } else {
                        (string_of(&name), "mp4".to_string())
                    }
                },
                None => (string_of(&name), "mp4".to_string()),
            }
        },
        None => ("clip".to_string(), "mp4".to_string()),
    };
    match n {
        None => {
            let a = concat_str(stem.as_str(), "_cut.");
            concat_str(a.as_str(), ext.as_str())
        },
        Some(k) => {
            let num = decimal(k);
            let a = concat_str(stem.as_str(), "_cut");
            let b = concat_str(a.as_str(), num.as_str());
            let c = concat_str(b.as_str(), ".");
            concat_str(c.as_str(), ext.as_str())
        },
    }
}

/// Law: the names tried for an exported cut never repeat: the first,
/// `_cut.`, differs from every numbered one, and numbered ones differ from
/// each other.
pub proof fn lemma_cut_names_distinct(path: Seq<char>, a: Option<u64>, b: Option<u64>, windows: bool)
    requires
        a != b,
    ensures
        cut_name_of(path, a, windows) != cut_name_of(path, b, windows),
{
    reveal_strlit("_cut");
    reveal_strlit("_cut.");
    reveal_strlit(".");
    let (stem, ext) = cut_parts_of(path, windows);
    match (a, b) {
        (Some(k), Some(j)) => {
            let post = "."@ + ext;
            assert(cut_name_of(path, a, windows) =~= (stem + "_cut"@) + dec_of(k as nat) + post);
            assert(cut_name_of(path, b, windows) =~= (stem + "_cut"@) + dec_of(j as nat) + post);
            if cut_name_of(path, a, windows) == cut_name_of(path, b, windows) {
                lemma_same_middle(stem + "_cut"@, dec_of(k as nat), dec_of(j as nat), post);
                crate::naming::lemma_dec_injective(k as nat, j as nat);
            }
        },
        (None, Some(j)) | (Some(j), None) => {
            crate::naming::lemma_dec_digits(j as nat);
            let plain = stem + "_cut."@ + ext;
            let numbered = stem + "_cut"@ + dec_of(j as nat) + "."@ + ext;
            let at: int = stem.len() as int + 4;
            assert(plain[at] == '.');
            assert(numbered[at] == dec_of(j as nat)[0]);
            assert(crate::naming::is_dec_digit(dec_of(j as nat)[0]));
        },
        (None, None) => {},
    }
}

} // verus!
