//! Names of the files the culler generates in its on-disk cache: grid and
//! loupe thumbnails, video posters, H.264 proxies and filmstrip sprites. Each
//! name is a hash of the source's path, modified time and size (and, for
//! thumbnails, the requested long edge), so editing or replacing a file gives
//! a fresh name and stale entries are simply never referenced again.
use std::collections::hash_map::DefaultHasher;
use std::hash::Hasher;

use vstd::prelude::*;
use vstd::std_specs::hash::DefaultHasherAdditionalSpecFns;
use vstd::string::StringSliceAdditionalSpecFns;

use crate::media::{disk_prefix_len, is_sep};
use crate::text::{chars_of, string_of, sub_chars};

verus! {

/// The lower-case hex digit for `v` (0..=15).
pub open spec fn hex_digit(v: int) -> char {
    if v < 10 {
        (('0' as u32) + v) as char
    } else {
        (('a' as u32) + v - 10) as char
    }
}

/// The last `n` hex digits of `h`, most significant first (`{:0nx}` for
/// values below `16^n`).
pub open spec fn hex_of(h: nat, n: nat) -> Seq<char>
    decreases n,
{
    if n == 0 {
        Seq::empty()
    } else {
        hex_of(h / 16, (n - 1) as nat).push(hex_digit((h % 16) as int))
    }
}

/// The `n` little-endian bytes of `x`.
pub open spec fn le_bytes(x: nat, n: nat) -> Seq<u8>
    decreases n,
{
    if n == 0 {
        Seq::empty()
    } else {
        seq![(x % 256) as u8] + le_bytes(x / 256, (n - 1) as nat)
    }
}

/// What the cache key hashes for a thumbnail: the path's UTF-8 bytes and a
/// `0xFF` terminator (as `str` hashes), then modified time, size and long
/// edge as little-endian integers.
pub open spec fn thumb_key_input(abs: Seq<u8>, mtime: i64, size: u64, max: u32) -> Seq<Seq<u8>> {
    seq![
        abs,
        seq![0xFFu8],
        le_bytes(mtime as u64 as nat, 8),
        le_bytes(size as nat, 8),
        le_bytes(max as nat, 4),
    ]
}

/// What the cache key hashes for a video: path, modified time and size.
pub open spec fn video_key_input(abs: Seq<u8>, mtime: i64, size: u64) -> Seq<Seq<u8>> {
    seq![abs, seq![0xFFu8], le_bytes(mtime as u64 as nat, 8), le_bytes(size as nat, 8)]
}

/// `dir` joined with `name` (`PathBuf::push`). Elsewhere than Windows: a
/// `name` starting with `/` replaces `dir`, else a `/` is put between them
/// unless `dir` is empty or ends in one. On Windows: a `name` with a disk
/// prefix (`X:`) replaces `dir`; one starting with a separator keeps only
/// `dir`'s disk prefix; else a `\` is put between them unless `dir` is
/// empty, ends in a separator or is a bare disk prefix. (UNC and verbatim
/// prefixes are read as plain text.)
pub open spec fn path_join(dir: Seq<char>, name: Seq<char>, windows: bool) -> Seq<char> {
    if windows {
        if disk_prefix_len(name, true) > 0 {
            name
        } else if name.len() > 0 && is_sep(name[0], true) {
            dir.take(disk_prefix_len(dir, true)) + name
        } else if dir.len() == 0 || is_sep(dir.last(), true) || (dir.len() == 2
            && disk_prefix_len(dir, true) == 2) {
            dir + name
        } else {
            dir + seq!['\\'] + name
        }
    } else {
        if name.len() > 0 && name[0] == '/' {
            name
        } else if dir.len() == 0 || dir.last() == '/' {
            dir + name
        } else {
            dir + seq!['/'] + name
        }
    }
}

/// File name of a thumbnail at long edge `max`: 16 hex digits and `.jpg`.
pub open spec fn thumb_name(abs: Seq<u8>, mtime: i64, size: u64, max: u32) -> Seq<char> {
    hex_of(DefaultHasher::spec_finish(thumb_key_input(abs, mtime, size, max)) as nat, 16) + ".jpg"@
}

/// File name of a clip's cached file: `prefix`, 16 hex digits, `ext`.
pub open spec fn video_name(prefix: char, abs: Seq<u8>, mtime: i64, size: u64, ext: Seq<char>) -> Seq<
    char,
> {
    seq![prefix] + hex_of(DefaultHasher::spec_finish(video_key_input(abs, mtime, size)) as nat, 16)
        + ext
}

fn hex_digit_exec(v: u64) -> (c: char)
    requires
        v < 16,
    ensures
        c == hex_digit(v as int),
{
    let b: u8 = if v < 10 {
        48 + v as u8
    } else {
        97 + (v - 10) as u8
    };
    let c = b as char;
    c
}

/// `format!("{:016x}", h)`.
pub fn hex16(h: u64) -> (s: String)
    ensures
        s@ == hex_of(h as nat, 16),
        s@.len() == 16,
{
    let v = hex_rec(h, 16);
    string_of(&v)
}

fn hex_rec(h: u64, n: usize) -> (v: Vec<char>)
    requires
        n <= 16,
    ensures
        v@ == hex_of(h as nat, n as nat),
        v@.len() == n,
    decreases n,
{
    if n == 0 {
        Vec::new()
    } else {
        let mut v = hex_rec(h / 16, n - 1);
        v.push(hex_digit_exec(h % 16));
        v
    }
}

fn le_bytes_exec(x: u64, n: usize) -> (v: Vec<u8>)
    requires
        n <= 8,
    ensures
        v@ == le_bytes(x as nat, n as nat),
    decreases n,
{
    if n == 0 {
        Vec::new()
    } else {
        let rest = le_bytes_exec(x / 256, n - 1);
        let mut v: Vec<u8> = Vec::new();
        v.push((x % 256) as u8);
        let mut i: usize = 0;
        while i < rest.len()
            invariant
                i <= rest.len(),
                v@ == seq![(x % 256) as u8] + rest@.take(i as int),
            decreases rest.len() - i,
        {
            v.push(rest[i]);
            i = i + 1;
            assert(seq![(x % 256) as u8] + rest@.take(i as int) =~= seq![(x % 256) as u8]
                + rest@.take((i - 1) as int) + seq![rest@[i - 1]]);
        }
        assert(rest@.take(i as int) =~= rest@);
        v
    }
}

fn hash_key(abs: &str, mtime: i64, size: u64, max: Option<u32>) -> (k: u64)
    ensures
        match max {
            Some(m) => k == DefaultHasher::spec_finish(
                thumb_key_input(abs.spec_bytes(), mtime, size, m),
            ),
            None => k == DefaultHasher::spec_finish(video_key_input(abs.spec_bytes(), mtime, size)),
        },
{
    let mut h = DefaultHasher::new();
    h.write(abs.as_bytes());
    let mut term: Vec<u8> = Vec::new();
    term.push(0xFF);
    h.write(term.as_slice());
    let mt = le_bytes_exec(mtime as u64, 8);
    h.write(mt.as_slice());
    let sz = le_bytes_exec(size, 8);
    h.write(sz.as_slice());
    match max {
        Some(m) => {
            let mx = le_bytes_exec(m as u64, 4);
            h.write(mx.as_slice());
            let r = h.finish();
            assert(h@ =~= thumb_key_input(abs.spec_bytes(), mtime, size, m));
            r
        },
        None => {
            let r = h.finish();
            assert(h@ =~= video_key_input(abs.spec_bytes(), mtime, size));
            r
        },
    }
}

/// Cache key of a thumbnail: 16 hex digits.
pub fn cache_key(abs: &str, mtime: i64, size: u64, max: u32) -> (k: String)
    ensures
        k@ + ".jpg"@ == thumb_name(abs.spec_bytes(), mtime, size, max),
{
    let h = hash_key(abs, mtime, size, Some(max));
    hex16(h)
}

fn concat(a: &str, b: &str) -> (s: String)
    ensures
        s@ == a@ + b@,
{
    let mut v = chars_of(a);
    let w = chars_of(b);
    let mut i: usize = 0;
    let ghost a0 = v@;
    while i < w.len()
        invariant
            i <= w.len(),
            v@ == a0 + w@.take(i as int),
        decreases w.len() - i,
    {
        v.push(w[i]);
        i = i + 1;
        assert(a0 + w@.take(i as int) =~= a0 + w@.take((i - 1) as int) + seq![w@[i - 1]]);
    }
    assert(w@.take(i as int) =~= w@);
    string_of(&v)
}

fn disk_prefix(cs: &Vec<char>) -> (n: usize)
    ensures
        n == disk_prefix_len(cs@, true),
{
    if cs.len() >= 2 && cs[1] == ':' && (('a' <= cs[0] && cs[0] <= 'z') || ('A' <= cs[0] && cs[0]
        <= 'Z')) {
        2
    } else {
        0
    }
}

/// `dir` joined with `name` (`PathBuf::join`) by the platform's rules.
pub fn join(dir: &str, name: &str, windows: bool) -> (p: String)
    ensures
        p@ == path_join(dir@, name@, windows),
{
    let d = chars_of(dir);
    let nm = chars_of(name);
    if windows {
        if disk_prefix(&nm) > 0 {
            return string_of(&nm);
        }
        if nm.len() > 0 && (nm[0] == '/' || nm[0] == '\\') {
            let k = disk_prefix(&d);
            let pre = string_of(&sub_chars(&d, 0, k));
            assert(pre@ =~= d@.take(k as int));
            return concat(pre.as_str(), name);
        }
        if d.len() == 0 || d[d.len() - 1] == '/' || d[d.len() - 1] == '\\' || (d.len() == 2
            && disk_prefix(&d) == 2) {
            return concat(dir, name);
        }
        let with_sep = concat(dir, "\\");
        proof {
            reveal_strlit("\\");
            assert(seq!['\\'] =~= "\\"@);
        }
        return concat(with_sep.as_str(), name);
    }
    if nm.len() > 0 && nm[0] == '/' {
        let r = string_of(&nm);
        return r;
    }
    if d.len() == 0 || d[d.len() - 1] == '/' {
        concat(dir, name)
    } else {
        let with_sep = concat(dir, "/");
        proof {
            reveal_strlit("/");
            assert(seq!['/'] =~= "/"@);
        }
        let p = concat(with_sep.as_str(), name);
        p
    }
}

/// The cache file path for `abs` at long edge `max` (whether or not it exists
/// yet), given the file's modified time (Unix seconds) and size.
pub fn cache_path(cache_dir: &str, abs: &str, mtime: i64, size: u64, max: u32, windows: bool) -> (p: String)
    ensures
        p@ == path_join(cache_dir@, thumb_name(abs.spec_bytes(), mtime, size, max), windows),
{
    let key = cache_key(abs, mtime, size, max);
    let name = concat(key.as_str(), ".jpg");
    join(cache_dir, name.as_str(), windows)
}

fn video_file_path(
    cache_dir: &str,
    prefix: &str,
    src: &str,
    mtime: i64,
    size: u64,
    ext: &str,
    windows: bool,
) -> (p: String)
    requires
        prefix@.len() == 1,
    ensures
        p@ == path_join(cache_dir@, video_name(prefix@[0], src.spec_bytes(), mtime, size, ext@), windows),
{
    let h = hash_key(src, mtime, size, None);
    let hex = hex16(h);
    let a = concat(prefix, hex.as_str());
    let name = concat(a.as_str(), ext);
    proof {
        assert(prefix@ =~= seq![prefix@[0]]);
    }
    join(cache_dir, name.as_str(), windows)
}

/// Cache path for a clip's poster frame, keyed by (path, mtime, size) and
/// prefixed `v` so it never collides with image thumbnails.
pub fn poster_path(cache_dir: &str, src: &str, mtime: i64, size: u64, windows: bool) -> (p: String)
    ensures
        p@ == path_join(cache_dir@, video_name('v', src.spec_bytes(), mtime, size, ".jpg"@), windows),
{
    proof {
        reveal_strlit("v");
    }
    video_file_path(cache_dir, "v", src, mtime, size, ".jpg", windows)
}

/// Cache path for a clip's H.264 proxy, keyed like the poster but prefixed `p`.
pub fn proxy_path(cache_dir: &str, src: &str, mtime: i64, size: u64, windows: bool) -> (p: String)
    ensures
        p@ == path_join(cache_dir@, video_name('p', src.spec_bytes(), mtime, size, ".mp4"@), windows),
{
    proof {
        reveal_strlit("p");
    }
    video_file_path(cache_dir, "p", src, mtime, size, ".mp4", windows)
}

/// Sprite-sheet cache path, prefixed `f` so it never collides with image
/// thumbnails (`<hash>`) or posters (`v<hash>`).
pub fn filmstrip_path(cache_dir: &str, src: &str, mtime: i64, size: u64, windows: bool) -> (p: String)
    ensures
        p@ == path_join(cache_dir@, video_name('f', src.spec_bytes(), mtime, size, ".jpg"@), windows),
{
    proof {
        reveal_strlit("f");
    }
    video_file_path(cache_dir, "f", src, mtime, size, ".jpg", windows)
}

/// The filmstrip's geometry sidecar (the sprite path with extension `json`).
pub fn filmstrip_meta_path(cache_dir: &str, src: &str, mtime: i64, size: u64, windows: bool) -> (p: String)
    ensures
        p@ == path_join(cache_dir@, video_name('f', src.spec_bytes(), mtime, size, ".json"@), windows),
{
    proof {
        reveal_strlit("f");
    }
    video_file_path(cache_dir, "f", src, mtime, size, ".json", windows)
}

proof fn lemma_hex_of_is_hex(h: nat, n: nat)
    ensures
        hex_of(h, n).len() == n,
        forall|i: int|
            0 <= i < n ==> {
                let c = #[trigger] hex_of(h, n)[i];
                ('0' as u32 <= c as u32 <= '9' as u32) || ('a' as u32 <= c as u32 <= 'f' as u32)
            },
    decreases n,
{
    if n > 0 {
        lemma_hex_of_is_hex(h / 16, (n - 1) as nat);
        let s = hex_of(h / 16, (n - 1) as nat);
        assert forall|i: int| 0 <= i < n implies {
            let c = #[trigger] hex_of(h, n)[i];
            ('0' as u32 <= c as u32 <= '9' as u32) || ('a' as u32 <= c as u32 <= 'f' as u32)
        } by {
            if i < n - 1 {
                assert(hex_of(h, n)[i] == s[i]);
            }
        }
    }
}


/// Decimal digits of `n` (`format!("{}", n)`).
pub open spec fn dec_of(n: nat) -> Seq<char>
    decreases n,
{
    if n < 10 {
        seq![hex_digit(n as int)]
    } else {
        dec_of(n / 10).push(hex_digit((n % 10) as int))
    }
}

fn dec_rec(n: u64) -> (v: Vec<char>)
    ensures
        v@ == dec_of(n as nat),
    decreases n,
{
    if n < 10 {
        let mut v = Vec::new();
        v.push(hex_digit_exec(n));
        v
    } else {
        let mut v = dec_rec(n / 10);
        v.push(hex_digit_exec(n % 10));
        v
    }
}

pub open spec fn is_dec_digit(c: char) -> bool {
    '0' <= c && c <= '9'
}

/// The decimal form of a number is one or more digits, at least two for
/// numbers from 10 on.
pub proof fn lemma_dec_digits(n: nat)
    ensures
        dec_of(n).len() >= 1,
        n >= 10 ==> dec_of(n).len() >= 2,
        forall|i: int| 0 <= i < dec_of(n).len() ==> is_dec_digit(#[trigger] dec_of(n)[i]),
    decreases n,
{
    if n >= 10 {
        lemma_dec_digits(n / 10);
        let d = dec_of(n / 10);
        assert forall|i: int| 0 <= i < dec_of(n).len() implies is_dec_digit(#[trigger] dec_of(n)[i]) by {
            if i < d.len() {
                assert(dec_of(n)[i] == d[i]);
            }
        }
    }
}

proof fn lemma_digit_injective(a: int, b: int)
    requires
        0 <= a < 10,
        0 <= b < 10,
        hex_digit(a) == hex_digit(b),
    ensures
        a == b,
{
    assert(hex_digit(a) as u32 == 48 + a);
    assert(hex_digit(b) as u32 == 48 + b);
}

/// Different numbers have different decimal forms.
pub proof fn lemma_dec_injective(n: nat, m: nat)
    requires
        dec_of(n) == dec_of(m),
    ensures
        n == m,
    decreases n,
{
    lemma_dec_digits(n);
    lemma_dec_digits(m);
    if n < 10 && m < 10 {
        assert(dec_of(n) == seq![hex_digit(n as int)]);
        assert(dec_of(m) == seq![hex_digit(m as int)]);
        assert(dec_of(n)[0] == hex_digit(n as int));
        assert(dec_of(m)[0] == hex_digit(m as int));
        lemma_digit_injective(n as int, m as int);
    } else if n >= 10 && m >= 10 {
        let a = dec_of(n);
        let b = dec_of(m);
        assert(a.last() == b.last());
        assert(a.drop_last() == dec_of(n / 10));
        assert(b.drop_last() == dec_of(m / 10));
        lemma_dec_injective(n / 10, m / 10);
        lemma_digit_injective((n % 10) as int, (m % 10) as int);
    } else {
        assert(dec_of(n).len() != dec_of(m).len());
    }
}

/// `n` in decimal.
pub fn decimal(n: u64) -> (s: String)
    ensures
        s@ == dec_of(n as nat),
{
    let v = dec_rec(n);
    string_of(&v)
}

/// `a` followed by `b`.
pub fn concat_str(a: &str, b: &str) -> (s: String)
    ensures
        s@ == a@ + b@,
{
    concat(a, b)
}

/// Law: the four kinds of cached file never share a name, whatever the
/// sources: a thumbnail name is 16 hex digits and `.jpg`; a poster or
/// filmstrip name has one more character and starts with `v` or `f`; a proxy
/// ends in `.mp4`.
pub proof fn lemma_cache_names_distinct(
    a: Seq<u8>,
    ma: i64,
    sa: u64,
    xa: u32,
    b: Seq<u8>,
    mb: i64,
    sb: u64,
)
    ensures
        thumb_name(a, ma, sa, xa) != video_name('v', b, mb, sb, ".jpg"@),
        thumb_name(a, ma, sa, xa) != video_name('f', b, mb, sb, ".jpg"@),
        thumb_name(a, ma, sa, xa) != video_name('p', b, mb, sb, ".mp4"@),
        video_name('v', a, ma, sa, ".jpg"@) != video_name('f', b, mb, sb, ".jpg"@),
        video_name('v', a, ma, sa, ".jpg"@) != video_name('p', b, mb, sb, ".mp4"@),
        video_name('f', a, ma, sa, ".jpg"@) != video_name('p', b, mb, sb, ".mp4"@),
{
    reveal_strlit(".jpg");
    reveal_strlit(".mp4");
    let ha = DefaultHasher::spec_finish(thumb_key_input(a, ma, sa, xa)) as nat;
    let va = DefaultHasher::spec_finish(video_key_input(a, ma, sa)) as nat;
    let vb = DefaultHasher::spec_finish(video_key_input(b, mb, sb)) as nat;
    lemma_hex_of_is_hex(ha, 16);
    lemma_hex_of_is_hex(va, 16);
    lemma_hex_of_is_hex(vb, 16);
    let t = thumb_name(a, ma, sa, xa);
    assert(t.len() == 20);
    assert(video_name('v', b, mb, sb, ".jpg"@).len() == 21);
    assert(video_name('f', b, mb, sb, ".jpg"@).len() == 21);
    assert(video_name('p', b, mb, sb, ".mp4"@).len() == 21);
    assert(video_name('v', a, ma, sa, ".jpg"@)[0] == 'v');
    assert(video_name('f', b, mb, sb, ".jpg"@)[0] == 'f');
    assert(video_name('f', a, ma, sa, ".jpg"@)[0] == 'f');
    assert(video_name('p', b, mb, sb, ".mp4"@)[0] == 'p');
}

/// Long edge (px) of grid and filmstrip thumbnails.
pub const GRID_MAX: u32 = 320;

/// Long edge (px) of the capped loupe preview.
pub const LOUPE_MAX: u32 = 1920;

/// Every cache file the app may have made for `src`: the grid and loupe
/// thumbnails (only when the file's metadata could be read: `stat` holds
/// its modified time and size), the poster, the filmstrip's sidecar and the
/// filmstrip (the video names take `(0, 0)` for missing metadata).
pub open spec fn cache_files_of(cache_dir: Seq<char>, src: Seq<u8>, stat: Option<(i64, u64)>, windows: bool) -> Seq<Seq<char>> {
    let (m, z) = match stat {
        Some(st) => st,
        None => (0i64, 0u64),
    };
    let thumbs = match stat {
        Some((m, z)) => seq![
            path_join(cache_dir, thumb_name(src, m, z, 320), windows),
            path_join(cache_dir, thumb_name(src, m, z, 1920), windows),
        ],
        None => Seq::empty(),
    };
    thumbs + seq![
        path_join(cache_dir, video_name('v', src, m, z, ".jpg"@), windows),
        path_join(cache_dir, video_name('f', src, m, z, ".json"@), windows),
        path_join(cache_dir, video_name('f', src, m, z, ".jpg"@), windows),
    ]
}

/// The cache files to remove once `src` is disposed of, computed while it
/// still exists (the keys hash its metadata).
pub fn cache_files_for(cache_dir: &str, src: &str, stat: Option<(i64, u64)>, windows: bool) -> (v: Vec<String>)
    ensures
        v@.map_values(|s: String| s@) == cache_files_of(cache_dir@, src.spec_bytes(), stat, windows),
{
    let mut v: Vec<String> = Vec::new();
    let (m, z) = match stat {
        Some(st) => st,
        None => (0i64, 0u64),
    };
    match stat {
        Some((m, z)) => {
            v.push(cache_path(cache_dir, src, m, z, GRID_MAX, windows));
            v.push(cache_path(cache_dir, src, m, z, LOUPE_MAX, windows));
        },
        None => {},
    }
    v.push(poster_path(cache_dir, src, m, z, windows));
    v.push(filmstrip_meta_path(cache_dir, src, m, z, windows));
    v.push(filmstrip_path(cache_dir, src, m, z, windows));
    assert(v@.map_values(|s: String| s@) =~= cache_files_of(cache_dir@, src.spec_bytes(), stat, windows));
    v
}

} // verus!
