//! Video decisions around the bundled ffmpeg: whether a poster must be made,
//! reading a clip's `creation_time` out of ffmpeg's banner, and the geometry
//! of a filmstrip sprite. Running ffmpeg itself is the caller's part.
use vstd::prelude::*;
use vstd::utf8::*;

use crate::calendar::{civil_to_unix, unix_seconds};
use crate::media::{date_fields, date_fields_exec};
use crate::text::{chars_of, is_white_space, is_white_space_char, sub_chars, trim_start, trim_start_index};

verus! {

/// What `ensure_poster` asks of its caller.
#[derive(Debug, PartialEq, Eq)]
pub enum PosterStep {
    /// The poster is cached at this path.
    Ready(String),
    /// Run the ffmpeg at `ffmpeg` to write the poster to `out`, then use `out`.
    Make { ffmpeg: String, out: String },
}

/// Ensure a poster exists: given its cache path, whether that file exists and
/// the bundled ffmpeg (if any), either the cached poster is ready, or ffmpeg
/// must make it, or — no ffmpeg (dev builds) — the error the UI answers with
/// its film placeholder.
pub fn ensure_poster(out: String, out_exists: bool, ffmpeg: Option<String>) -> (r: Result<
    PosterStep,
    String,
>)
    ensures
        out_exists ==> r == Ok::<PosterStep, String>(PosterStep::Ready(out)),
        !out_exists && ffmpeg is None ==> (r matches Err(e) && e@ == "ffmpeg not available"@),
        !out_exists && ffmpeg is Some ==> r == Ok::<PosterStep, String>(
            PosterStep::Make { ffmpeg: ffmpeg.unwrap(), out },
        ),
{
    if out_exists {
        return Ok(PosterStep::Ready(out));
    }
    match ffmpeg {
        Some(ff) => Ok(PosterStep::Make { ffmpeg: ff, out }),
        None => Err("ffmpeg not available".to_string()),
    }
}

/// The same first step for a clip's playback proxy: the cached proxy is
/// ready, or ffmpeg must make it, or there is no ffmpeg.
pub fn ensure_proxy_step(out: String, out_exists: bool, ffmpeg: Option<String>) -> (r: Result<
    PosterStep,
    String,
>)
    ensures
        out_exists ==> r == Ok::<PosterStep, String>(PosterStep::Ready(out)),
        !out_exists && ffmpeg is None ==> (r matches Err(e) && e@ == "ffmpeg not available"@),
        !out_exists && ffmpeg is Some ==> r == Ok::<PosterStep, String>(
            PosterStep::Make { ffmpeg: ffmpeg.unwrap(), out },
        ),
{
    ensure_poster(out, out_exists, ffmpeg)
}

/// What to do after one ffmpeg run for a poster frame.
#[derive(Debug, PartialEq, Eq)]
pub enum PosterTry {
    /// The poster was written.
    Done,
    /// Run again from the very start of the clip (no seek).
    FromStart,
    /// Give up with this error.
    Failed(String),
}

/// After a poster run (`sought`: it seeked 1s in; `ok`: ffmpeg succeeded and
/// the file exists): done, or retry from the start for clips shorter than
/// the seek point, or give up.
pub fn poster_after_try(sought: bool, ok: bool) -> (t: PosterTry)
    ensures
        ok ==> t == PosterTry::Done,
        !ok && sought ==> t == PosterTry::FromStart,
        !ok && !sought ==> (t matches PosterTry::Failed(e) && e@
            == "ffmpeg could not extract a poster frame"@),
{
    if ok {
        PosterTry::Done
    } else if sought {
        PosterTry::FromStart
    } else {
        PosterTry::Failed("ffmpeg could not extract a poster frame".to_string())
    }
}

/// `"YYYY-MM-DDThh:mm:ss…"` (sub-seconds and a trailing `Z` ignored) as Unix
/// seconds: at least 19 bytes, each field parsed untrimmed, year 1970 or
/// later and month 1..=12.
pub open spec fn iso_of(s: Seq<char>) -> Option<i64> {
    match date_fields(s, false) {
        Some((y, mo, d, h, mi, se)) => if y < 1970 || !(1 <= mo <= 12) {
            None
        } else {
            Some(unix_seconds(y as int, mo as int, d as int, h as int, mi as int, se as int) as i64)
        },
        None => None,
    }
}

/// Parse `"YYYY-MM-DDThh:mm:ss…"` (ignoring sub-seconds / trailing Z) to Unix secs.
pub fn parse_iso(s: &str) -> (r: Option<i64>)
    ensures
        r == iso_of(s@),
{
    let n = s.as_bytes().len();
    let cs = chars_of(s);
    proof {
        assert(crate::text::byte_len(cs@) == n);
    }
    match date_fields_exec(&cs, false) {
        Some((y, mo, d, h, mi, se)) => {
            if y < 1970 || !(1 <= mo && mo <= 12) {
                None
            } else {
                proof {
                    crate::calendar::lemma_small_civil_fits(y as int, mo as int, d as int, h as int, mi as int, se as int);
                }
                Some(civil_to_unix(y, mo, d, h, mi, se))
            }
        },
        None => None,
    }
}

/// Index of the first occurrence of `pat` in `t` at or after `i`.
pub open spec fn find_from(t: Seq<char>, pat: Seq<char>, i: int) -> Option<int>
    decreases t.len() - i + 1,
{
    if i < 0 || i + pat.len() > t.len() {
        None
    } else if t.subrange(i, i + pat.len() as int) == pat {
        Some(i)
    } else {
        find_from(t, pat, i + 1)
    }
}

/// Number of leading characters of `t` that are not white space.
pub open spec fn word_len(t: Seq<char>) -> nat
    decreases t.len(),
{
    if t.len() == 0 || is_white_space(t[0]) {
        0
    } else {
        1 + word_len(t.drop_first())
    }
}

/// The clip's capture time from ffmpeg's `-i` banner text: the first
/// whitespace-separated token after the first `:` that follows the first
/// `creation_time`, parsed as ISO-8601.
pub open spec fn creation_time_of(text: Seq<char>) -> Option<i64> {
    match find_from(text, "creation_time"@, 0) {
        Some(idx) => {
            let after = text.skip(idx);
            match find_from(after, seq![':'], 0) {
                Some(colon) => {
                    let val = trim_start(after.skip(colon + 1));
                    if val.len() == 0 {
                        None
                    } else {
                        iso_of(val.take(word_len(val) as int))
                    }
                },
                None => None,
            }
        },
        None => None,
    }
}

fn find_exec(t: &Vec<char>, pat: &Vec<char>) -> (r: Option<usize>)
    ensures
        match r {
            Some(i) => find_from(t@, pat@, 0) == Some(i as int) && i + pat.len() <= t.len(),
            None => find_from(t@, pat@, 0) is None,
        },
{
    let mut i: usize = 0;
    while i <= t.len() && pat.len() <= t.len() - i
        invariant
            find_from(t@, pat@, 0) == find_from(t@, pat@, i as int),
        decreases t.len() - i,
    {
        let mut j: usize = 0;
        while j < pat.len() && t[i + j] == pat[j]
            invariant
                j <= pat.len(),
                i + pat.len() <= t.len(),
                forall|k: int| 0 <= k < j ==> t@[i + k] == pat@[k],
            decreases pat.len() - j,
        {
            j = j + 1;
        }
        if j == pat.len() {
            assert(t@.subrange(i as int, i + pat.len()) =~= pat@);
            return Some(i);
        }
        assert(t@.subrange(i as int, i + pat.len())[j as int] != pat@[j as int]);
        i = i + 1;
    }
    None
}

proof fn lemma_word_len(t: Seq<char>, k: int)
    requires
        0 <= k <= t.len(),
        forall|j: int| 0 <= j < k ==> !is_white_space(#[trigger] t[j]),
        k == t.len() || is_white_space(t[k]),
    ensures
        word_len(t) == k,
    decreases k,
{
    if k > 0 {
        assert forall|j: int| 0 <= j < k - 1 implies !is_white_space(#[trigger] t.drop_first()[j]) by {
            assert(t.drop_first()[j] == t[j + 1]);
        }
        lemma_word_len(t.drop_first(), k - 1);
    }
}

/// A clip's capture time from the text of ffmpeg's banner.
pub fn creation_time_from_text(text: &str) -> (r: Option<i64>)
    ensures
        r == creation_time_of(text@),
{
    let t = chars_of(text);
    let key = chars_of("creation_time");
    let idx = match find_exec(&t, &key) {
        Some(i) => i,
        None => return None,
    };
    let after = sub_chars(&t, idx, t.len());
    assert(after@ =~= t@.skip(idx as int));
    let mut colon_pat: Vec<char> = Vec::new();
    colon_pat.push(':');
    assert(colon_pat@ =~= seq![':']);
    let colon = match find_exec(&after, &colon_pat) {
        Some(c) => c,
        None => return None,
    };
    let rest = sub_chars(&after, colon + 1, after.len());
    assert(rest@ =~= after@.skip(colon + 1));
    let lo = trim_start_index(&rest);
    let val = sub_chars(&rest, lo, rest.len());
    assert(val@ =~= rest@.skip(lo as int));
    if val.len() == 0 {
        return None;
    }
    let mut k: usize = 0;
    while k < val.len() && !is_white_space_char(val[k])
        invariant
            k <= val.len(),
            forall|j: int| 0 <= j < k ==> !is_white_space(#[trigger] val@[j]),
        decreases val.len() - k,
    {
        k = k + 1;
    }
    proof {
        lemma_word_len(val@, k as int);
    }
    let token = sub_chars(&val, 0, k);
    assert(token@ =~= val@.take(k as int));
    let s = crate::text::string_of(&token);
    parse_iso(s.as_str())
}

/// What `String::from_utf8_lossy` makes of a byte buffer.
pub uninterp spec fn lossy_utf8(b: Seq<u8>) -> Seq<char>;

/// `String::from_utf8_lossy`.
///
/// Trusted: the result is named `lossy_utf8` of the bytes (a function of the
/// bytes alone); for valid UTF-8 it is the decoded text, as the documentation
/// says (the borrowed case). How invalid sequences are replaced is left to
/// the name.
#[verifier::external_body]
fn utf8_lossy(b: &[u8]) -> (s: String)
    ensures
        s@ == lossy_utf8(b@),
        valid_utf8(b@) ==> s@ == decode_utf8(b@),
{
    String::from_utf8_lossy(b).into_owned()
}

/// Capture time (Unix secs) of a clip from its `creation_time` metadata, given
/// the bytes ffmpeg's `-i` run printed on stderr. `None` when absent (e.g.
/// re-encoded clips) so the caller falls back to the file's mtime.
pub fn creation_time_from_banner(stderr: &[u8]) -> (r: Option<i64>)
    ensures
        r == creation_time_of(lossy_utf8(stderr@)),
{
    let text = utf8_lossy(stderr);
    creation_time_from_text(text.as_str())
}

// ── filmstrip geometry ──────────────────────────────────────────────────────

/// Columns of a filmstrip sprite.
pub const FILMSTRIP_COLS: u32 = 10;

/// Pixel width each frame is scaled to inside the sprite.
pub const FILMSTRIP_TILE_W: u32 = 160;

/// Frame grid of a filmstrip sprite.
#[derive(Debug, Clone, Copy, PartialEq, Eq)]
pub struct FilmstripGrid {
    pub cols: u32,
    pub rows: u32,
    /// Number of real frames in the sprite (`<= cols * rows`; trailing cells blank).
    pub count: u32,
}

/// About one frame per second of the clip (its duration rounded to whole
/// seconds), clamped to 16..=100 frames, in 10 columns and as many rows as
/// that takes.
pub fn filmstrip_grid(rounded_secs: u32) -> (g: FilmstripGrid)
    ensures
        g.count == (if rounded_secs < 16 {
            16
        } else if rounded_secs > 100 {
            100
        } else {
            rounded_secs
        }),
        g.cols == FILMSTRIP_COLS,
        g.rows == (g.count + FILMSTRIP_COLS - 1) / (FILMSTRIP_COLS as int),
        (g.rows - 1) * g.cols < g.count <= g.rows * g.cols,
{
    let count = if rounded_secs < 16 {
        16
    } else if rounded_secs > 100 {
        100
    } else {
        rounded_secs
    };
    let cols = FILMSTRIP_COLS;
    let rows = (count + cols - 1) / cols;
    FilmstripGrid { cols, rows, count }
}

/// Size of one cell of a sprite `w` x `h` pixels laid out as `cols` x `rows`
/// (at least one pixel each way).
pub fn filmstrip_tile(w: u32, h: u32, cols: u32, rows: u32) -> (t: (u32, u32))
    requires
        cols > 0,
        rows > 0,
    ensures
        t.0 == (if w / cols > 1 {
            w / cols
        } else {
            1
        }),
        t.1 == (if h / rows > 1 {
            h / rows
        } else {
            1
        }),
{
    let tw = w / cols;
    let th = h / rows;
    (if tw > 1 {
        tw
    } else {
        1
    }, if th > 1 {
        th
    } else {
        1
    })
}

// ── ffmpeg command lines ────────────────────────────────────────────────────

pub open spec fn arg_texts(v: Seq<String>) -> Seq<Seq<char>> {
    v.map_values(|s: String| s@)
}

fn push_arg(v: &mut Vec<String>, a: &str)
    ensures
        arg_texts(final(v)@) == arg_texts(old(v)@).push(a@),
{
    let ghost v0 = v@;
    let s = a.to_string();
    v.push(s);
    proof {
        crate::browse::lemma_map_push(v0, s, |s: String| s@);
    }
}

/// The filter that scales a frame to fit a `max` x `max` box.
pub open spec fn fit_filter(max: Seq<char>) -> Seq<char> {
    "scale=w="@ + max + ":h="@ + max + ":force_original_aspect_ratio=decrease"@
}

/// Arguments for one poster frame of `src` into `out`, fitted to 480px:
/// sought 1s in (`seek`), or from the very start for clips shorter than that.
pub open spec fn poster_args_of(src: Seq<char>, out: Seq<char>, seek: bool) -> Seq<Seq<char>> {
    let head = if seek {
        seq!["-v"@, "error"@, "-ss"@, "1"@, "-i"@]
    } else {
        seq!["-v"@, "error"@, "-i"@]
    };
    head + seq![src, "-frames:v"@, "1"@, "-vf"@, fit_filter("480"@), "-y"@, out]
}

/// The ffmpeg arguments that extract a clip's poster frame.
pub fn poster_args(src: &str, out: &str, seek: bool) -> (v: Vec<String>)
    ensures
        arg_texts(v@) == poster_args_of(src@, out@, seek),
{
    let mut v: Vec<String> = Vec::new();
    push_arg(&mut v, "-v");
    push_arg(&mut v, "error");
    if seek {
        push_arg(&mut v, "-ss");
        push_arg(&mut v, "1");
    }
    push_arg(&mut v, "-i");
    push_arg(&mut v, src);
    push_arg(&mut v, "-frames:v");
    push_arg(&mut v, "1");
    push_arg(&mut v, "-vf");
    push_arg(&mut v, "scale=w=480:h=480:force_original_aspect_ratio=decrease");
    push_arg(&mut v, "-y");
    push_arg(&mut v, out);
    proof {
        reveal_strlit("scale=w=480:h=480:force_original_aspect_ratio=decrease");
        reveal_strlit("scale=w=");
        reveal_strlit("480");
        reveal_strlit(":h=");
        reveal_strlit(":force_original_aspect_ratio=decrease");
        assert(fit_filter("480"@) =~= "scale=w=480:h=480:force_original_aspect_ratio=decrease"@);
        assert(arg_texts(v@) =~= poster_args_of(src@, out@, seek));
    }
    v
}

/// Arguments that decode a still image (HEIC) into a JPEG fitted to `max`.
pub open spec fn still_args_of(src: Seq<char>, out: Seq<char>, max: u32) -> Seq<Seq<char>> {
    seq![
        "-v"@,
        "error"@,
        "-i"@,
        src,
        "-frames:v"@,
        "1"@,
        "-vf"@,
        fit_filter(crate::naming::dec_of(max as nat)),
        "-q:v"@,
        "3"@,
        "-y"@,
        out,
    ]
}

/// The ffmpeg arguments that decode a still image into a JPEG.
pub fn still_args(src: &str, out: &str, max: u32) -> (v: Vec<String>)
    ensures
        arg_texts(v@) == still_args_of(src@, out@, max),
{
    let m = crate::naming::decimal(max as u64);
    let a = crate::naming::concat_str("scale=w=", m.as_str());
    let b = crate::naming::concat_str(a.as_str(), ":h=");
    let c = crate::naming::concat_str(b.as_str(), m.as_str());
    let vf = crate::naming::concat_str(c.as_str(), ":force_original_aspect_ratio=decrease");
    let mut v: Vec<String> = Vec::new();
    push_arg(&mut v, "-v");
    push_arg(&mut v, "error");
    push_arg(&mut v, "-i");
    push_arg(&mut v, src);
    push_arg(&mut v, "-frames:v");
    push_arg(&mut v, "1");
    push_arg(&mut v, "-vf");
    push_arg(&mut v, vf.as_str());
    push_arg(&mut v, "-q:v");
    push_arg(&mut v, "3");
    push_arg(&mut v, "-y");
    push_arg(&mut v, out);
    proof {
        assert(arg_texts(v@) =~= still_args_of(src@, out@, max));
    }
    v
}

/// Arguments that transcode `src` into a capped (1920px) H.264/AAC proxy
/// at `part`, reporting progress on stdout.
pub open spec fn proxy_args_of(src: Seq<char>, part: Seq<char>) -> Seq<Seq<char>> {
    seq!["-v"@, "error"@, "-i"@, src] + seq![
        "-map"@,
        "0:v:0"@,
        "-map"@,
        "0:a:0?"@,
        "-vf"@,
        "scale=w=1920:h=1920:force_original_aspect_ratio=decrease:force_divisible_by=2"@,
        "-c:v"@,
        "libx264"@,
        "-preset"@,
        "veryfast"@,
        "-crf"@,
        "22"@,
        "-pix_fmt"@,
        "yuv420p"@,
        "-c:a"@,
        "aac"@,
        "-b:a"@,
        "128k"@,
        "-movflags"@,
        "+faststart"@,
        "-progress"@,
        "pipe:1"@,
        "-nostats"@,
        "-y"@,
    ] + seq![part]
}

/// The ffmpeg arguments that transcode a clip into its playback proxy.
pub fn proxy_args(src: &str, part: &str) -> (v: Vec<String>)
    ensures
        arg_texts(v@) == proxy_args_of(src@, part@),
{
    let mut v: Vec<String> = Vec::new();
    push_arg(&mut v, "-v");
    push_arg(&mut v, "error");
    push_arg(&mut v, "-i");
    push_arg(&mut v, src);
    push_arg(&mut v, "-map");
    push_arg(&mut v, "0:v:0");
    push_arg(&mut v, "-map");
    push_arg(&mut v, "0:a:0?");
    push_arg(&mut v, "-vf");
    push_arg(&mut v, "scale=w=1920:h=1920:force_original_aspect_ratio=decrease:force_divisible_by=2");
    push_arg(&mut v, "-c:v");
    push_arg(&mut v, "libx264");
    push_arg(&mut v, "-preset");
    push_arg(&mut v, "veryfast");
    push_arg(&mut v, "-crf");
    push_arg(&mut v, "22");
    push_arg(&mut v, "-pix_fmt");
    push_arg(&mut v, "yuv420p");
    push_arg(&mut v, "-c:a");
    push_arg(&mut v, "aac");
    push_arg(&mut v, "-b:a");
    push_arg(&mut v, "128k");
    push_arg(&mut v, "-movflags");
    push_arg(&mut v, "+faststart");
    push_arg(&mut v, "-progress");
    push_arg(&mut v, "pipe:1");
    push_arg(&mut v, "-nostats");
    push_arg(&mut v, "-y");
    push_arg(&mut v, part);
    proof {
        assert(arg_texts(v@) =~= proxy_args_of(src@, part@));
    }
    v
}

} // verus!
