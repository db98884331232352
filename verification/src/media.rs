//! Media classification by extension, EXIF orientation and capture-date
//! decoding. Paths are `/`-separated strings.
use vstd::prelude::*;
use vstd::string::StringSliceAdditionalSpecFns;
use vstd::utf8::*;

use crate::calendar::{civil_to_unix, unix_seconds};
use crate::text::{
    ascii_lower, ascii_lower_vec, byte_len, byte_offset, chars_of, get_bytes_range, is_boundary_at,
    lemma_byte_len_ge_len, lemma_byte_len_subrange_le, lemma_encode_append, lemma_parse_i64_small,
    parse_i64, parse_i64_chars, str_get, string_of, sub_chars, trim, trim_bounds,
};

verus! {

/// Coarse kind, surfaced to the frontend so it can pick a render path.
#[derive(Clone, Copy, PartialEq, Eq, Debug, Structural)]
pub enum Kind {
    Image,
    Raw,
    Video,
    Other,
}

/// The name the frontend knows a kind by.
pub open spec fn kind_name(k: Kind) -> Seq<char> {
    match k {
        Kind::Image => "image"@,
        Kind::Raw => "raw"@,
        Kind::Video => "video"@,
        Kind::Other => "other"@,
    }
}

impl Kind {
    pub fn as_str(self) -> (s: &'static str)
        ensures
            s@ == kind_name(self),
    {
        match self {
            Kind::Image => "image",
            Kind::Raw => "raw",
            Kind::Video => "video",
            Kind::Other => "other",
        }
    }
}

// ── file names ──────────────────────────────────────────────────────────────

/// Index of the last `c` in `p`, or -1.
pub open spec fn last_index_of(p: Seq<char>, c: char) -> int
    decreases p.len(),
{
    if p.len() == 0 {
        -1
    } else if p.last() == c {
        p.len() - 1
    } else {
        last_index_of(p.drop_last(), c)
    }
}

pub proof fn lemma_last_index_bounds(p: Seq<char>, c: char)
    ensures
        -1 <= last_index_of(p, c) < p.len(),
        last_index_of(p, c) >= 0 ==> p[last_index_of(p, c)] == c,
        forall|j: int| last_index_of(p, c) < j < p.len() ==> p[j] != c,
    decreases p.len(),
{
    if p.len() > 0 && p.last() != c {
        lemma_last_index_bounds(p.drop_last(), c);
        assert forall|j: int| last_index_of(p, c) < j < p.len() implies p[j] != c by {
            if j < p.len() - 1 {
                assert(p[j] == p.drop_last()[j]);
            }
        }
    }
}

/// A path separator: `/`, and on Windows `\` too.
pub open spec fn is_sep(c: char, windows: bool) -> bool {
    c == '/' || (windows && c == '\\')
}

/// Index of the last separator in `p`, or -1.
pub open spec fn last_sep_of(p: Seq<char>, windows: bool) -> int
    decreases p.len(),
{
    if p.len() == 0 {
        -1
    } else if is_sep(p.last(), windows) {
        p.len() - 1
    } else {
        last_sep_of(p.drop_last(), windows)
    }
}

pub proof fn lemma_last_sep_bounds(p: Seq<char>, windows: bool)
    ensures
        -1 <= last_sep_of(p, windows) < p.len(),
        last_sep_of(p, windows) >= 0 ==> is_sep(p[last_sep_of(p, windows)], windows),
        forall|j: int| last_sep_of(p, windows) < j < p.len() ==> !is_sep(p[j], windows),
    decreases p.len(),
{
    if p.len() > 0 && !is_sep(p.last(), windows) {
        lemma_last_sep_bounds(p.drop_last(), windows);
        assert forall|j: int| last_sep_of(p, windows) < j < p.len() implies !is_sep(p[j], windows) by {
            if j < p.len() - 1 {
                assert(p[j] == p.drop_last()[j]);
            }
        }
    }
}

/// The last component of a path without a prefix, split at the platform's
/// separators (`/`, and `\` on Windows), after trailing separators and `.`
/// components; `None` when it is `..` or there is none.
pub open spec fn last_component_of(p: Seq<char>, windows: bool) -> Option<Seq<char>>
    decreases p.len(),
{
    if p.len() == 0 {
        None
    } else if is_sep(p.last(), windows) {
        last_component_of(p.drop_last(), windows)
    } else {
        let i = last_sep_of(p, windows);
        proof {
            lemma_last_sep_bounds(p, windows);
        }
        let seg = p.subrange(i + 1, p.len() as int);
        if seg == seq!['.'] {
            if i < 0 {
                None
            } else {
                last_component_of(p.take(i), windows)
            }
        } else if seg == seq!['.', '.'] {
            None
        } else {
            Some(seg)
        }
    }
}

/// `Path::extension` of a file name: what follows its last `.`, unless the
/// name has no `.` other than a leading one.
pub open spec fn extension_of_name(name: Seq<char>) -> Option<Seq<char>> {
    let i = last_index_of(name, '.');
    if name == seq!['.', '.'] || i <= 0 {
        None
    } else {
        Some(name.skip(i + 1))
    }
}

/// `Path::file_stem` of a file name: what precedes its last `.`, or the whole
/// name when there is no extension.
pub open spec fn stem_of_name(name: Seq<char>) -> Seq<char> {
    let i = last_index_of(name, '.');
    if name == seq!['.', '.'] || i <= 0 {
        name
    } else {
        name.take(i)
    }
}

pub open spec fn is_ascii_alpha(c: char) -> bool {
    ('a' <= c && c <= 'z') || ('A' <= c && c <= 'Z')
}

/// Length of a Windows disk prefix (`X:`) at the start of `p`, else 0.
pub open spec fn disk_prefix_len(p: Seq<char>, windows: bool) -> int {
    if windows && p.len() >= 2 && p[1] == ':' && is_ascii_alpha(p[0]) {
        2
    } else {
        0
    }
}

/// `Path::file_name`: the last component after any Windows disk prefix
/// (`X:`), split at the platform's separators. (Windows UNC and verbatim
/// prefixes are read as ordinary separators and components.)
pub open spec fn file_name_of(p: Seq<char>, windows: bool) -> Option<Seq<char>> {
    last_component_of(p.skip(disk_prefix_len(p, windows)), windows)
}

/// Lower-cased extension of the path's file name, or empty.
pub open spec fn ext_lower_of(p: Seq<char>, windows: bool) -> Seq<char> {
    match file_name_of(p, windows) {
        Some(name) => match extension_of_name(name) {
            Some(e) => ascii_lower(e),
            None => Seq::empty(),
        },
        None => Seq::empty(),
    }
}

pub open spec fn is_image_ext(e: Seq<char>) -> bool {
    e == "jpg"@ || e == "jpeg"@ || e == "png"@ || e == "webp"@ || e == "bmp"@ || e == "tif"@ || e
        == "tiff"@ || e == "gif"@
}

pub open spec fn is_raw_ext(e: Seq<char>) -> bool {
    e == "nef"@ || e == "dng"@ || e == "cr2"@ || e == "cr3"@ || e == "arw"@ || e == "raf"@ || e
        == "rw2"@ || e == "orf"@ || e == "srw"@ || e == "pef"@
}

pub open spec fn is_video_ext(e: Seq<char>) -> bool {
    e == "mp4"@ || e == "mov"@ || e == "m4v"@ || e == "avi"@ || e == "mkv"@ || e == "webm"@ || e
        == "3gp"@
}

/// The kind a lower-cased extension stands for.
pub open spec fn kind_of_ext(e: Seq<char>) -> Kind {
    if is_image_ext(e) {
        Kind::Image
    } else if is_raw_ext(e) {
        Kind::Raw
    } else if is_video_ext(e) {
        Kind::Video
    } else {
        Kind::Other
    }
}

/// The photo extensions the culler shows.
pub open spec fn listed_image(e: Seq<char>) -> bool {
    ||| e == "jpg"@
    ||| e == "jpeg"@
    ||| e == "png"@
    ||| e == "webp"@
    ||| e == "bmp"@
    ||| e == "tif"@
    ||| e == "tiff"@
    ||| e == "gif"@
}

/// The RAW extensions the culler shows.
pub open spec fn listed_raw(e: Seq<char>) -> bool {
    ||| e == "nef"@
    ||| e == "dng"@
    ||| e == "cr2"@
    ||| e == "cr3"@
    ||| e == "arw"@
    ||| e == "raf"@
    ||| e == "rw2"@
    ||| e == "orf"@
    ||| e == "srw"@
    ||| e == "pef"@
}

/// The video extensions the culler shows.
pub open spec fn listed_video(e: Seq<char>) -> bool {
    ||| e == "mp4"@
    ||| e == "mov"@
    ||| e == "m4v"@
    ||| e == "avi"@
    ||| e == "mkv"@
    ||| e == "webm"@
    ||| e == "3gp"@
}

/// Law: a file is classified by its extension in any ASCII case: photo,
/// RAW and video extensions give those kinds (an iPhone `.MOV` is a video),
/// and every other extension, or none, gives `Other`.
pub proof fn lemma_kind_by_extension(path: Seq<char>, windows: bool)
    ensures
        ({
            let k = kind_of_ext(ext_lower_of(path, windows));
            &&& listed_image(ext_lower_of(path, windows)) ==> k == Kind::Image
            &&& listed_raw(ext_lower_of(path, windows)) ==> k == Kind::Raw
            &&& listed_video(ext_lower_of(path, windows)) ==> k == Kind::Video
            &&& !listed_image(ext_lower_of(path, windows)) && !listed_raw(ext_lower_of(path, windows))
                && !listed_video(ext_lower_of(path, windows)) ==> k == Kind::Other
        }),
        file_name_of(path, windows) matches Some(n) ==> (extension_of_name(n) matches Some(x)
            ==> ext_lower_of(path, windows) == ascii_lower(x)),
{
    reveal_strlit("jpg");
    reveal_strlit("jpeg");
    reveal_strlit("png");
    reveal_strlit("webp");
    reveal_strlit("bmp");
    reveal_strlit("tif");
    reveal_strlit("tiff");
    reveal_strlit("gif");
    reveal_strlit("nef");
    reveal_strlit("dng");
    reveal_strlit("cr2");
    reveal_strlit("cr3");
    reveal_strlit("arw");
    reveal_strlit("raf");
    reveal_strlit("rw2");
    reveal_strlit("orf");
    reveal_strlit("srw");
    reveal_strlit("pef");
    reveal_strlit("mp4");
    reveal_strlit("mov");
    reveal_strlit("m4v");
    reveal_strlit("avi");
    reveal_strlit("mkv");
    reveal_strlit("webm");
    reveal_strlit("3gp");
    assert("jpg"@[0] == 'j');
    assert("jpeg"@[0] == 'j');
    assert("png"@[0] == 'p');
    assert("webp"@[0] == 'w');
    assert("bmp"@[0] == 'b');
    assert("tif"@[0] == 't');
    assert("tiff"@[0] == 't');
    assert("gif"@[0] == 'g');
    assert("nef"@[0] == 'n');
    assert("dng"@[0] == 'd');
    assert("cr2"@[0] == 'c');
    assert("cr3"@[0] == 'c');
    assert("arw"@[0] == 'a');
    assert("raf"@[0] == 'r');
    assert("rw2"@[0] == 'r');
    assert("orf"@[0] == 'o');
    assert("srw"@[0] == 's');
    assert("pef"@[0] == 'p');
    assert("mp4"@[0] == 'm');
    assert("mov"@[0] == 'm');
    assert("m4v"@[0] == 'm');
    assert("avi"@[0] == 'a');
    assert("mkv"@[0] == 'm');
    assert("webm"@[0] == 'w');
    assert("3gp"@[0] == '3');
    assert("png"@[1] == 'n');
    assert("pef"@[1] == 'e');
    assert("arw"@[1] == 'r');
    assert("avi"@[1] == 'v');
    assert("webp"@[3] == 'p');
    assert("webm"@[3] == 'm');
}

/// Index of the first `c` in `p`, or -1.
pub open spec fn first_index_of(p: Seq<char>, c: char) -> int
    decreases p.len(),
{
    if p.len() == 0 {
        -1
    } else if p[0] == c {
        0
    } else {
        let r = first_index_of(p.drop_first(), c);
        if r < 0 {
            -1
        } else {
            r + 1
        }
    }
}

pub proof fn lemma_first_index_bounds(p: Seq<char>, c: char)
    ensures
        -1 <= first_index_of(p, c) < p.len(),
        first_index_of(p, c) >= 0 ==> p[first_index_of(p, c)] == c,
        forall|j: int|
            0 <= j < p.len() && (first_index_of(p, c) < 0 || j < first_index_of(p, c)) ==> p[j]
                != c,
    decreases p.len(),
{
    if p.len() > 0 && p[0] != c {
        let t = p.drop_first();
        lemma_first_index_bounds(t, c);
        assert forall|j: int|
            0 <= j < p.len() && (first_index_of(p, c) < 0 || j < first_index_of(p, c)) implies p[j]
            != c by {
            if j > 0 {
                assert(p[j] == t[j - 1]);
            }
        }
    }
}

/// Index of the first `c` in `cs`.
pub fn first_index_from(cs: &Vec<char>, c: char) -> (r: Option<usize>)
    ensures
        match r {
            Some(i) => i < cs.len() && first_index_of(cs@, c) == i,
            None => first_index_of(cs@, c) == -1,
        },
{
    let mut i: usize = 0;
    while i < cs.len()
        invariant
            i <= cs.len(),
            forall|j: int| 0 <= j < i ==> cs@[j] != c,
        decreases cs.len() - i,
    {
        if cs[i] == c {
            proof {
                lemma_first_index_bounds(cs@, c);
            }
            return Some(i);
        }
        i = i + 1;
    }
    proof {
        lemma_first_index_bounds(cs@, c);
    }
    None
}

/// Index of the last `c` in `cs[..end]`.
pub fn last_index_before(cs: &Vec<char>, c: char, end: usize) -> (r: Option<usize>)
    requires
        end <= cs.len(),
    ensures
        match r {
            Some(i) => i < end && last_index_of(cs@.take(end as int), c) == i,
            None => last_index_of(cs@.take(end as int), c) == -1,
        },
{
    let mut j = end;
    while j > 0 && cs[j - 1] != c
        invariant
            j <= end <= cs.len(),
            last_index_of(cs@.take(end as int), c) == last_index_of(cs@.take(j as int), c),
        decreases j,
    {
        proof {
            assert(cs@.take(j as int).drop_last() =~= cs@.take(j - 1));
        }
        j = j - 1;
    }
    if j == 0 {
        assert(cs@.take(0) =~= Seq::<char>::empty());
        None
    } else {
        Some(j - 1)
    }
}

fn eq_chars(a: &Vec<char>, b: &Vec<char>) -> (r: bool)
    ensures
        r == (a@ == b@),
{
    if a.len() != b.len() {
        return false;
    }
    let mut i: usize = 0;
    while i < a.len()
        invariant
            i <= a.len() == b.len(),
            forall|j: int| 0 <= j < i ==> a@[j] == b@[j],
        decreases a.len() - i,
    {
        if a[i] != b[i] {
            return false;
        }
        i = i + 1;
    }
    assert(a@ =~= b@);
    true
}

/// Whether the characters `cs` spell `lit`.
pub fn eq_str(cs: &Vec<char>, lit: &str) -> (r: bool)
    ensures
        r == (cs@ == lit@),
{
    let l = chars_of(lit);
    eq_chars(cs, &l)
}

/// Index of the last separator in `cs[..end]`.
fn last_sep_before(cs: &Vec<char>, end: usize, windows: bool) -> (r: Option<usize>)
    requires
        end <= cs.len(),
    ensures
        match r {
            Some(i) => i < end && last_sep_of(cs@.take(end as int), windows) == i,
            None => last_sep_of(cs@.take(end as int), windows) == -1,
        },
{
    let mut j = end;
    while j > 0 && !(cs[j - 1] == '/' || (windows && cs[j - 1] == '\\'))
        invariant
            j <= end <= cs.len(),
            last_sep_of(cs@.take(end as int), windows) == last_sep_of(cs@.take(j as int), windows),
        decreases j,
    {
        proof {
            assert(cs@.take(j as int).drop_last() =~= cs@.take(j - 1));
        }
        j = j - 1;
    }
    if j == 0 {
        assert(cs@.take(0) =~= Seq::<char>::empty());
        None
    } else {
        Some(j - 1)
    }
}

/// The file name of a path (`Path::file_name`), split at the platform's
/// separators after any Windows disk prefix.
pub fn file_name(p: &Vec<char>, windows: bool) -> (r: Option<Vec<char>>)
    ensures
        match r {
            Some(v) => file_name_of(p@, windows) == Some(v@),
            None => file_name_of(p@, windows) is None,
        },
{
    let pl: usize = if windows && p.len() >= 2 && p[1] == ':' && (('a' <= p[0] && p[0] <= 'z') || (
    'A' <= p[0] && p[0] <= 'Z')) {
        2
    } else {
        0
    };
    let rest = sub_chars(p, pl, p.len());
    assert(rest@ =~= p@.skip(disk_prefix_len(p@, windows)));
    last_component(&rest, windows)
}

/// The last component of a path without a prefix.
fn last_component(p: &Vec<char>, windows: bool) -> (r: Option<Vec<char>>)
    ensures
        match r {
            Some(v) => last_component_of(p@, windows) == Some(v@),
            None => last_component_of(p@, windows) is None,
        },
{
    let mut end = p.len();
    assert(p@.take(end as int) =~= p@);
    loop
        invariant
            end <= p.len(),
            last_component_of(p@, windows) == last_component_of(p@.take(end as int), windows),
        decreases end,
    {
        let ghost q = p@.take(end as int);
        if end == 0 {
            return None;
        }
        if p[end - 1] == '/' || (windows && p[end - 1] == '\\') {
            proof {
                assert(q.drop_last() =~= p@.take(end - 1));
            }
            end = end - 1;
        } else {
            let i = last_sep_before(p, end, windows);
            let start: usize = match i {
                Some(i) => i + 1,
                None => 0,
            };
            let seg = sub_chars(p, start, end);
            proof {
                assert(seg@ =~= q.subrange(last_sep_of(q, windows) + 1, q.len() as int));
            }
            let ghost dot = seq!['.'];
            if seg.len() == 1 && seg[0] == '.' {
                proof {
                    assert(seg@ =~= seq!['.']);
                }
                match i {
                    Some(i) => {
                        proof {
                            assert(q.take(i as int) =~= p@.take(i as int));
                        }
                        end = i;
                    },
                    None => {
                        return None;
                    },
                }
            } else if seg.len() == 2 && seg[0] == '.' && seg[1] == '.' {
                proof {
                    assert(seg@ =~= seq!['.', '.']);
                }
                return None;
            } else {
                proof {
                    if seg.len() == 1 {
                        assert(seg@ != dot);
                    }
                    if seg.len() == 2 {
                        assert(seg@ != seq!['.', '.']) by {
                            if seg@ == seq!['.', '.'] {
                                assert(seg@[0] == '.' && seg@[1] == '.');
                            }
                        }
                    }
                }
                return Some(seg);
            }
        }
    }
}

/// Lower-cased extension of the path's file name (`""` when it has none).
pub fn ext_lower(path: &str, windows: bool) -> (e: String)
    ensures
        e@ == ext_lower_of(path@, windows),
{
    let p = chars_of(path);
    let empty: Vec<char> = Vec::new();
    let r = match file_name(&p, windows) {
        Some(name) => {
            let i = last_index_before(&name, '.', name.len());
            proof {
                assert(name@.take(name.len() as int) =~= name@);
            }
            let dotdot = name.len() == 2 && name[0] == '.' && name[1] == '.';
            proof {
                if dotdot {
                    assert(name@ =~= seq!['.', '.']);
                } else if name.len() == 2 {
                    assert(name@ != seq!['.', '.']) by {
                        if name@ == seq!['.', '.'] {
                            assert(name@[0] == '.' && name@[1] == '.');
                        }
                    }
                }
            }
            match i {
                Some(i) => {
                    if dotdot || i == 0 {
                        empty
                    } else {
                        let e = sub_chars(&name, i + 1, name.len());
                        assert(e@ =~= name@.skip(i + 1));
                        ascii_lower_vec(&e)
                    }
                },
                None => empty,
            }
        },
        None => empty,
    };
    assert(empty@ =~= Seq::<char>::empty());
    string_of(&r)
}

/// The kind of a path, by its file name's extension.
pub fn classify(path: &str, windows: bool) -> (k: Kind)
    ensures
        k == kind_of_ext(ext_lower_of(path@, windows)),
{
    let e = ext_lower(path, windows);
    let c = chars_of(e.as_str());
    if eq_str(&c, "jpg") || eq_str(&c, "jpeg") || eq_str(&c, "png") || eq_str(&c, "webp")
        || eq_str(&c, "bmp") || eq_str(&c, "tif") || eq_str(&c, "tiff") || eq_str(&c, "gif") {
        Kind::Image
    } else if eq_str(&c, "nef") || eq_str(&c, "dng") || eq_str(&c, "cr2") || eq_str(&c, "cr3")
        || eq_str(&c, "arw") || eq_str(&c, "raf") || eq_str(&c, "rw2") || eq_str(&c, "orf")
        || eq_str(&c, "srw") || eq_str(&c, "pef") {
        Kind::Raw
    } else if eq_str(&c, "mp4") || eq_str(&c, "mov") || eq_str(&c, "m4v") || eq_str(&c, "avi")
        || eq_str(&c, "mkv") || eq_str(&c, "webm") || eq_str(&c, "3gp") {
        Kind::Video
    } else {
        Kind::Other
    }
}

/// Whether a path is a photo, RAW or video the culler shows.
pub fn is_media(path: &str, windows: bool) -> (b: bool)
    ensures
        b == (kind_of_ext(ext_lower_of(path@, windows)) != Kind::Other),
{
    match classify(path, windows) {
        Kind::Other => false,
        _ => true,
    }
}

// ── EXIF values ─────────────────────────────────────────────────────────────

/// The orientation to bake in, from the EXIF `Orientation` value as an unsigned
/// integer (if the file has one): that value, truncated to 16 bits, when it
/// is 1..=8, else 1 (normal).
pub open spec fn orientation_of_value(v: Option<u32>) -> u16 {
    match v {
        Some(x) => if 1 <= (x as u16) <= 8 {
            x as u16
        } else {
            1
        },
        None => 1,
    }
}

/// EXIF orientation tag (1..=8); 1 (normal) when absent or out of range.
pub fn orientation_from_value(v: Option<u32>) -> (o: u16)
    ensures
        o == orientation_of_value(v),
        1 <= o <= 8,
{
    match v {
        Some(x) => {
            let t = x as u16;
            if 1 <= t && t <= 8 {
                t
            } else {
                1
            }
        },
        None => 1,
    }
}

/// A numeric field of a date-time: the characters between byte offsets `a`
/// and `z` (optionally trimmed), parsed as an `i64`.
pub open spec fn date_field(t: Seq<char>, a: int, z: int, trim_it: bool) -> Option<i64> {
    match str_get(t, a, z) {
        Some(w) => parse_i64(
            if trim_it {
                trim(w)
            } else {
                w
            },
        ),
        None => None,
    }
}

/// The six fields `YYYY?MM?DD?hh?mm?ss` of a date-time string, by byte offset.
pub open spec fn date_fields(t: Seq<char>, trim_it: bool) -> Option<(i64, i64, i64, i64, i64, i64)> {
    if byte_len(t) < 19 {
        None
    } else {
        match (
            date_field(t, 0, 4, trim_it),
            date_field(t, 5, 7, trim_it),
            date_field(t, 8, 10, trim_it),
            date_field(t, 11, 13, trim_it),
            date_field(t, 14, 16, trim_it),
            date_field(t, 17, 19, trim_it),
        ) {
            (Some(y), Some(mo), Some(d), Some(h), Some(mi), Some(s)) => Some((y, mo, d, h, mi, s)),
            _ => None,
        }
    }
}

/// An EXIF date-time `"YYYY:MM:DD HH:MM:SS"` as Unix seconds (read as UTC):
/// the bytes must be UTF-8; the string is trimmed, must be at least 19 bytes,
/// each field is trimmed and parsed, and the year must be 1970 or later, the
/// month 1..=12 and the day 1..=31.
pub open spec fn exif_datetime_of(b: Seq<u8>) -> Option<i64> {
    if !valid_utf8(b) {
        None
    } else {
        match date_fields(trim(decode_utf8(b)), true) {
            Some((y, mo, d, h, mi, s)) => if y < 1970 || !(1 <= mo <= 12) || !(1 <= d <= 31) {
                None
            } else {
                Some(unix_seconds(y as int, mo as int, d as int, h as int, mi as int, s as int) as i64)
            },
            None => None,
        }
    }
}

/// `std::str::from_utf8`.
///
/// Trusted: `Some` exactly when the bytes are valid UTF-8 (vstd's
/// `valid_utf8`), and then the string slice has exactly those bytes.
#[verifier::external_body]
fn utf8_str<'a>(b: &'a [u8]) -> (r: Option<&'a str>)
    ensures
        r is Some <==> valid_utf8(b@),
        r matches Some(s) ==> s.spec_bytes() == b@,
{
    std::str::from_utf8(b).ok()
}

proof fn lemma_byte_len_window(t: Seq<char>, ka: int, kz: int)
    requires
        0 <= ka <= kz <= t.len(),
    ensures
        byte_len(t.subrange(ka, kz)) == byte_len(t.take(kz)) - byte_len(t.take(ka)),
{
    lemma_encode_append(t.take(ka), t.subrange(ka, kz));
    assert(t.take(ka) + t.subrange(ka, kz) =~= t.take(kz));
}

/// One numeric field of a date-time string.
pub fn date_field_exec(t: &Vec<char>, a: usize, z: usize, trim_it: bool) -> (r: Option<i64>)
    requires
        byte_len(t@) <= usize::MAX,
        a <= z,
        z - a <= 4,
    ensures
        r == date_field(t@, a as int, z as int, trim_it),
        r matches Some(v) ==> -10000 < v < 10000,
{
    match get_bytes_range(t, a, z) {
        Some(w) => {
            proof {
                let (ka, kz) = choose|ka: int, kz: int|
                    ka <= kz && #[trigger] is_boundary_at(t@, ka, a as int)
                        && #[trigger] is_boundary_at(t@, kz, z as int);
                lemma_byte_len_window(t@, ka, kz);
                lemma_byte_len_ge_len(w@);
            }
            let w2 = if trim_it {
                let (lo, hi) = trim_bounds(&w);
                sub_chars(&w, lo, hi)
            } else {
                w
            };
            proof {
                lemma_parse_i64_small(w2@);
            }
            parse_i64_chars(&w2)
        },
        None => None,
    }
}

/// The six fields of a date-time string.
pub fn date_fields_exec(t: &Vec<char>, trim_it: bool) -> (r: Option<(i64, i64, i64, i64, i64, i64)>)
    requires
        byte_len(t@) <= usize::MAX,
    ensures
        r == date_fields(t@, trim_it),
        r matches Some((y, mo, d, h, mi, s)) ==> -10000 < y < 10000 && -10000 < mo < 10000 && -10000
            < d < 10000 && -10000 < h < 10000 && -10000 < mi < 10000 && -10000 < s < 10000,
{
    let n = byte_offset(t, t.len());
    assert(t@.take(t.len() as int) =~= t@);
    if n < 19 {
        return None;
    }
    let y = date_field_exec(t, 0, 4, trim_it);
    let mo = date_field_exec(t, 5, 7, trim_it);
    let d = date_field_exec(t, 8, 10, trim_it);
    let h = date_field_exec(t, 11, 13, trim_it);
    let mi = date_field_exec(t, 14, 16, trim_it);
    let s = date_field_exec(t, 17, 19, trim_it);
    match (y, mo, d, h, mi, s) {
        (Some(y), Some(mo), Some(d), Some(h), Some(mi), Some(s)) => Some((y, mo, d, h, mi, s)),
        _ => None,
    }
}

/// Parse an EXIF datetime string (`"YYYY:MM:DD HH:MM:SS"`) to a Unix timestamp.
pub fn parse_exif_datetime(b: &[u8]) -> (r: Option<i64>)
    ensures
        r == exif_datetime_of(b@),
{
    let s = match utf8_str(b) {
        Some(s) => s,
        None => return None,
    };
    let blen = b.len();
    let cs = chars_of(s);
    proof {
        encode_utf8_decode_utf8(s@);
    }
    let (lo, hi) = trim_bounds(&cs);
    let t = sub_chars(&cs, lo, hi);
    proof {
        assert(byte_len(cs@) == b@.len());
        lemma_byte_len_subrange_le(cs@, lo as int, hi as int);
    }
    match date_fields_exec(&t, true) {
        Some((y, mo, d, h, mi, s)) => {
            if y < 1970 || !(1 <= mo && mo <= 12) || !(1 <= d && d <= 31) {
                None
            } else {
                proof {
                    crate::calendar::lemma_small_civil_fits(y as int, mo as int, d as int, h as int, mi as int, s as int);
                }
                Some(civil_to_unix(y, mo, d, h, mi, s))
            }
        },
        None => None,
    }
}

/// The capture date from the first of the EXIF date fields (original,
/// digitized, modified, in that order) that holds one: each entry is the
/// first ASCII value of that field, if the file has it as text.
pub open spec fn capture_date_of(vals: Seq<Option<Seq<u8>>>) -> Option<i64>
    decreases vals.len(),
{
    if vals.len() == 0 {
        None
    } else {
        let here = match vals[0] {
            Some(b) => exif_datetime_of(b),
            None => None,
        };
        if here is Some {
            here
        } else {
            capture_date_of(vals.drop_first())
        }
    }
}

pub open spec fn opt_bytes_view(v: Seq<Option<Vec<u8>>>) -> Seq<Option<Seq<u8>>> {
    v.map_values(|o: Option<Vec<u8>>| match o {
        Some(b) => Some(b@),
        None => None,
    })
}

/// EXIF capture timestamp (Unix seconds, the EXIF time read as UTC) from the
/// date fields `DateTimeOriginal`, `DateTimeDigitized`, `DateTime`, in that
/// order; `None` when none of them parses (the caller then uses the mtime).
pub fn capture_date_from_values(vals: &Vec<Option<Vec<u8>>>) -> (r: Option<i64>)
    ensures
        r == capture_date_of(opt_bytes_view(vals@)),
{
    let ghost vv = opt_bytes_view(vals@);
    let mut i: usize = 0;
    assert(vv.skip(0) =~= vv);
    while i < vals.len()
        invariant
            i <= vals.len(),
            vv == opt_bytes_view(vals@),
            capture_date_of(vv) == capture_date_of(vv.skip(i as int)),
        decreases vals.len() - i,
    {
        proof {
            assert(vv.skip(i as int).drop_first() =~= vv.skip(i + 1));
            assert(vv.skip(i as int)[0] == vv[i as int]);
        }
        match &vals[i] {
            Some(b) => {
                let t = parse_exif_datetime(b.as_slice());
                if t.is_some() {
                    return t;
                }
            },
            None => {},
        }
        i = i + 1;
    }
    assert(vv.skip(i as int) =~= Seq::<Option<Seq<u8>>>::empty());
    None
}

// ── EXIF read from a file's bytes ───────────────────────────────────────────

/// The EXIF `Orientation` value of the primary image, as an unsigned
/// integer, that the `exif` crate reads from a file's bytes (`None`: no
/// EXIF, no such field, or not an integer).
pub uninterp spec fn exif_orientation_value(file: Seq<u8>) -> Option<u32>;

/// `exif::Reader::read_from_container` over the bytes, then `get_field` of
/// `Orientation` in the primary image and `Value::get_uint(0)`.
///
/// Trusted: the result depends on the bytes alone and is named
/// `exif_orientation_value`.
#[verifier::external_body]
fn read_orientation_value(file: &[u8]) -> (v: Option<u32>)
    ensures
        v == exif_orientation_value(file@),
{
    let exif = exif::Reader::new().read_from_container(&mut std::io::Cursor::new(file)).ok()?;
    exif.get_field(exif::Tag::Orientation, exif::In::PRIMARY).and_then(|f| f.value.get_uint(0))
}

/// EXIF orientation (1..=8) of an image file's bytes; 1 (normal) when it
/// has none or it is out of range.
pub fn orientation(file: &[u8]) -> (o: u16)
    ensures
        o == orientation_of_value(exif_orientation_value(file@)),
        1 <= o <= 8,
{
    orientation_from_value(read_orientation_value(file))
}

/// The first ASCII value of the EXIF field numbered `number` (in the TIFF
/// IFD when `tiff`, else in the Exif IFD) of the primary image that the
/// `exif` crate reads from a file's bytes (`None`: no readable EXIF, no such
/// field, not text, or no value).
pub uninterp spec fn exif_text_field(file: Seq<u8>, tiff: bool, number: u16) -> Option<Seq<u8>>;

/// `exif::Reader::read_from_container` over the bytes, then `get_field` of
/// the tag `(context, number)` in the primary image, its `Value::Ascii` and
/// the first of its values.
///
/// Trusted: the result depends on the bytes and the tag alone and is named
/// `exif_text_field`.
#[verifier::external_body]
fn read_text_field(file: &[u8], tiff: bool, number: u16) -> (v: Option<Vec<u8>>)
    ensures
        match v {
            Some(b) => exif_text_field(file@, tiff, number) == Some(b@),
            None => exif_text_field(file@, tiff, number) is None,
        },
{
    let exif = exif::Reader::new().read_from_container(&mut std::io::Cursor::new(file)).ok()?;
    let context = if tiff { exif::Context::Tiff } else { exif::Context::Exif };
    let field = exif.get_field(exif::Tag(context, number), exif::In::PRIMARY)?;
    match field.value {
        exif::Value::Ascii(ref vals) => vals.first().cloned(),
        _ => None,
    }
}

/// The date fields a capture time is read from, in order of preference:
/// `DateTimeOriginal` (Exif IFD, 0x9003), `DateTimeDigitized` (Exif IFD,
/// 0x9004), `DateTime` (TIFF IFD, 0x0132).
pub open spec fn exif_date_values(file: Seq<u8>) -> Seq<Option<Seq<u8>>> {
    seq![
        exif_text_field(file, false, 0x9003),
        exif_text_field(file, false, 0x9004),
        exif_text_field(file, true, 0x0132),
    ]
}

/// EXIF capture timestamp (Unix seconds) of an image file's bytes, from
/// `DateTimeOriginal`, then `DateTimeDigitized`, then `DateTime`; `None`
/// when none of them parses (the caller then uses the file's mtime).
pub fn capture_date(file: &[u8]) -> (r: Option<i64>)
    ensures
        r == capture_date_of(exif_date_values(file@)),
{
    let mut vals: Vec<Option<Vec<u8>>> = Vec::new();
    vals.push(read_text_field(file, false, 0x9003));
    vals.push(read_text_field(file, false, 0x9004));
    vals.push(read_text_field(file, true, 0x0132));
    assert(opt_bytes_view(vals@) =~= exif_date_values(file@));
    capture_date_from_values(&vals)
}

/// The timestamp an optional EXIF text value parses to.
pub open spec fn parsed_date(v: Option<Seq<u8>>) -> Option<i64> {
    match v {
        Some(b) => exif_datetime_of(b),
        None => None,
    }
}

/// Law: the capture date is the shot's `DateTimeOriginal` (Exif 0x9003)
/// whenever that parses; else `DateTimeDigitized` (Exif 0x9004) when that
/// parses; the last-edited `DateTime` (TIFF 0x0132) only when neither does;
/// and `None` only when none of the three parses.
pub proof fn lemma_capture_date_preference(file: Seq<u8>)
    ensures
        ({
            let original = parsed_date(exif_text_field(file, false, 0x9003));
            let digitized = parsed_date(exif_text_field(file, false, 0x9004));
            let modified = parsed_date(exif_text_field(file, true, 0x0132));
            let r = capture_date_of(exif_date_values(file));
            &&& original is Some ==> r == original
            &&& original is None && digitized is Some ==> r == digitized
            &&& original is None && digitized is None ==> r == modified
        }),
{
    reveal_with_fuel(capture_date_of, 4);
    let v = exif_date_values(file);
    assert(v[0] == exif_text_field(file, false, 0x9003));
    assert(v[1] == exif_text_field(file, false, 0x9004));
    assert(v[2] == exif_text_field(file, true, 0x0132));
    assert(v.drop_first() =~= seq![v[1], v[2]]);
    assert(v.drop_first().drop_first() =~= seq![v[2]]);
    assert(v.drop_first().drop_first().drop_first() =~= Seq::<Option<Seq<u8>>>::empty());
}

/// Law: the frontend knows the four kinds by four different names.
pub proof fn lemma_kind_names()
    ensures
        kind_name(Kind::Image) == "image"@,
        kind_name(Kind::Raw) == "raw"@,
        kind_name(Kind::Video) == "video"@,
        kind_name(Kind::Other) == "other"@,
        forall|a: Kind, b: Kind| a != b ==> kind_name(a) != kind_name(b),
{
    reveal_strlit("image");
    reveal_strlit("raw");
    reveal_strlit("video");
    reveal_strlit("other");
    assert("image"@[0] == 'i');
    assert("raw"@[0] == 'r');
    assert("video"@[0] == 'v');
    assert("other"@[0] == 'o');
}

/// Law: an EXIF orientation value (taken to 16 bits) from 1 to 8 is used as
/// it is; any other value, or none, means upright (1).
pub proof fn lemma_orientation_value(v: Option<u32>)
    ensures
        match v {
            Some(x) => if 1 <= x % 65536 <= 8 {
                orientation_of_value(v) == x % 65536
            } else {
                orientation_of_value(v) == 1
            },
            None => orientation_of_value(v) == 1,
        },
{
    if let Some(x) = v {
        assert((x as u16) == x % 65536) by (bit_vector);
    }
}

} // verus!
