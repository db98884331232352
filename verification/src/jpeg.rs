//! JPEG byte-stream work that needs no decoder: finding the JPEG streams that
//! RAW files and EXIF headers embed, and moving ICC colour profiles into and
//! out of a JPEG's APP2 segments.
use vstd::prelude::*;

verus! {

// ── embedded JPEG streams ───────────────────────────────────────────────────

/// Start-of-image marker `FF D8` at `i`.
pub open spec fn is_soi_at(d: Seq<u8>, i: int) -> bool {
    0 <= i && i + 1 < d.len() && d[i] == 0xFF && d[i + 1] == 0xD8
}

/// End-of-image marker `FF D9` at `i`.
pub open spec fn is_eoi_at(d: Seq<u8>, i: int) -> bool {
    0 <= i && i + 1 < d.len() && d[i] == 0xFF && d[i + 1] == 0xD9
}

/// Index just past the first `FF D9` at or after `start`.
pub open spec fn eoi_from(d: Seq<u8>, start: int) -> Option<int>
    decreases d.len() - start,
{
    if start < 0 || start + 1 >= d.len() {
        None
    } else if is_eoi_at(d, start) {
        Some(start + 2)
    } else {
        eoi_from(d, start + 1)
    }
}

/// A complete JPEG stream `[i, end)` starts at `i`.
pub open spec fn stream_at(d: Seq<u8>, i: int) -> Option<int> {
    if is_soi_at(d, i) {
        eoi_from(d, i + 2)
    } else {
        None
    }
}

/// The complete JPEG streams found scanning from `i`, each scan resuming
/// just past the stream it found.
pub open spec fn streams_from(d: Seq<u8>, i: int) -> Seq<(int, int)>
    decreases d.len() - i,
{
    if i < 0 || i + 1 >= d.len() {
        Seq::empty()
    } else {
        match stream_at(d, i) {
            Some(end) => {
                proof {
                    lemma_eoi_from_bounds(d, i + 2);
                }
                seq![(i, end)] + streams_from(d, end)
            },
            None => streams_from(d, i + 1),
        }
    }
}

/// The first complete JPEG stream starting at or after `i`.
pub open spec fn first_stream_from(d: Seq<u8>, i: int) -> Option<(int, int)>
    decreases d.len() - i,
{
    if i < 0 || i + 1 >= d.len() {
        None
    } else {
        match stream_at(d, i) {
            Some(end) => Some((i, end)),
            None => first_stream_from(d, i + 1),
        }
    }
}

pub proof fn lemma_eoi_from_bounds(d: Seq<u8>, start: int)
    requires
        0 <= start,
    ensures
        eoi_from(d, start) matches Some(e) ==> start + 2 <= e <= d.len() && is_eoi_at(d, e - 2) && forall|
            j: int,
        | start <= j < e - 2 ==> !#[trigger] is_eoi_at(d, j),
        eoi_from(d, start) is None ==> forall|j: int| start <= j ==> !#[trigger] is_eoi_at(d, j),
    decreases d.len() - start,
{
    if start < 0 || start + 1 >= d.len() {
    } else if is_eoi_at(d, start) {
    } else {
        lemma_eoi_from_bounds(d, start + 1);
    }
}

/// Index just past the `FF D9` end-of-image marker, searching from `start`.
fn find_eoi(data: &[u8], start: usize) -> (r: Option<usize>)
    ensures
        match r {
            Some(e) => eoi_from(data@, start as int) == Some(e as int),
            None => eoi_from(data@, start as int) is None,
        },
{
    let mut i = start;
    while i < data.len() && i + 1 < data.len()
        invariant
            start <= i,
            eoi_from(data@, start as int) == eoi_from(data@, i as int),
        decreases data.len() - i,
    {
        if data[i] == 0xFF && data[i + 1] == 0xD9 {
            return Some(i + 2);
        }
        i += 1;
    }
    None
}

/// The earliest of the longest streams among `ss` (`None` when empty).
pub open spec fn earliest_longest(ss: Seq<(int, int)>) -> Option<(int, int)>
    decreases ss.len(),
{
    if ss.len() == 0 {
        None
    } else {
        match earliest_longest(ss.drop_last()) {
            Some(b) => if ss.last().1 - ss.last().0 > b.1 - b.0 {
                Some(ss.last())
            } else {
                Some(b)
            },
            None => Some(ss.last()),
        }
    }
}

/// Law: the preview picked among the streams found is one of them, at least
/// as long as every one, and the first to reach that length; there is one
/// exactly when some stream was found.
pub proof fn lemma_earliest_longest_is_longest(ss: Seq<(int, int)>)
    ensures
        earliest_longest(ss) is Some <==> ss.len() > 0,
        earliest_longest(ss) matches Some(b) ==> {
            &&& ss.contains(b)
            &&& forall|j: int| 0 <= j < ss.len() ==> #[trigger] ss[j].1 - ss[j].0 <= b.1 - b.0
            &&& forall|j: int|
                0 <= j < ss.len() && ss[j].1 - ss[j].0 == b.1 - b.0 && (forall|i: int|
                    0 <= i < j ==> ss[i].1 - ss[i].0 < b.1 - b.0) ==> #[trigger] ss[j] == b
        },
    decreases ss.len(),
{
    if ss.len() > 0 {
        let p = ss.drop_last();
        lemma_earliest_longest_is_longest(p);
        let l = ss.last();
        assert forall|j: int| 0 <= j < p.len() implies ss[j] == p[j] by {}
        match earliest_longest(p) {
            Some(b) => {
                let k = choose|k: int| 0 <= k < p.len() && p[k] == b;
                if l.1 - l.0 > b.1 - b.0 {
                    assert(ss[ss.len() - 1] == l);
                    assert forall|j: int|
                        0 <= j < ss.len() && ss[j].1 - ss[j].0 == l.1 - l.0 && (forall|i: int|
                            0 <= i < j ==> ss[i].1 - ss[i].0 < l.1 - l.0) implies #[trigger] ss[j]
                        == l by {
                        if j < ss.len() - 1 {
                            assert(ss[j] == p[j]);
                            assert(p[j].1 - p[j].0 <= b.1 - b.0);
                        }
                    }
                } else {
                    assert(ss[k] == b);
                    assert forall|j: int|
                        0 <= j < ss.len() && ss[j].1 - ss[j].0 == b.1 - b.0 && (forall|i: int|
                            0 <= i < j ==> ss[i].1 - ss[i].0 < b.1 - b.0) implies #[trigger] ss[j]
                        == b by {
                        if j == ss.len() - 1 {
                            assert(p[k].1 - p[k].0 == b.1 - b.0);
                            assert(ss[k].1 - ss[k].0 < b.1 - b.0);
                        } else {
                            assert(ss[j] == p[j]);
                            assert forall|i: int| 0 <= i < j implies p[i].1 - p[i].0 < b.1 - b.0 by {
                                assert(ss[i] == p[i]);
                            }
                        }
                    }
                }
            },
            None => {
                assert(p.len() == 0);
                assert(ss[0] == l);
            },
        }
    }
}

/// Scan a byte buffer for the largest embedded JPEG (`FFD8 .. FFD9`). RAW files
/// embed a small thumbnail *and* a large preview as separate JPEG streams; the
/// largest is the full-resolution preview we want for culling.
pub fn largest_embedded_jpeg(data: &[u8]) -> (r: Option<&[u8]>)
    ensures
        match earliest_longest(streams_from(data@, 0)) {
            Some((s, e)) => r matches Some(x) && x@ == data@.subrange(s, e),
            None => r is None,
        },
{
    let mut best: Option<(usize, usize)> = None;
    let mut i: usize = 0;
    let ghost mut seen: Seq<(int, int)> = Seq::empty();
    while i < data.len() && i + 1 < data.len()
        invariant
            streams_from(data@, 0) == seen + streams_from(data@, i as int),
            i <= data.len(),
            match best {
                Some((s, e)) => earliest_longest(seen) == Some((s as int, e as int)) && s <= e
                    <= data.len(),
                None => earliest_longest(seen) is None,
            },
        decreases data.len() - i,
    {
        if data[i] == 0xFF && data[i + 1] == 0xD8 {
            if let Some(end) = find_eoi(data, i + 2) {
                proof {
                    lemma_eoi_from_bounds(data@, i + 2);
                    assert(stream_at(data@, i as int) == Some(end as int));
                    assert(streams_from(data@, i as int) == seq![(i as int, end as int)]
                        + streams_from(data@, end as int));
                }
                let len = end - i;
                let better = match best {
                    Some((s, e)) => len > e - s,
                    None => true,
                };
                proof {
                    let ns = seen.push((i as int, end as int));
                    assert(ns.drop_last() =~= seen);
                    assert(seen + streams_from(data@, i as int) =~= ns + streams_from(
                        data@,
                        end as int,
                    ));
                    seen = ns;
                }
                if better {
                    best = Some((i, end));
                }
                i = end;
                continue;
            }
        }
        proof {
            assert(stream_at(data@, i as int) is None);
        }
        i += 1;
    }
    proof {
        assert(streams_from(data@, i as int) =~= Seq::<(int, int)>::empty());
        assert(seen + Seq::<(int, int)>::empty() =~= seen);
    }
    match best {
        Some((s, e)) => Some(vstd::slice::slice_subrange(data, s, e)),
        None => None,
    }
}

/// Extract the EXIF-embedded **thumbnail** JPEG: the first complete
/// `FFD8 .. FFD9` stream after the main image's SOI at byte 0. Returns `None`
/// if the (possibly truncated) buffer holds no complete embedded JPEG.
pub fn embedded_thumbnail_jpeg(data: &[u8]) -> (r: Option<&[u8]>)
    ensures
        match first_stream_from(data@, 2) {
            Some((s, e)) => r matches Some(x) && x@ == data@.subrange(s, e),
            None => r is None,
        },
{
    let mut i: usize = 2;
    while i < data.len() && i + 1 < data.len()
        invariant
            2 <= i,
            first_stream_from(data@, 2) == first_stream_from(data@, i as int),
        decreases data.len() - i,
    {
        if data[i] == 0xFF && data[i + 1] == 0xD8 {
            if let Some(end) = find_eoi(data, i + 2) {
                proof {
                    lemma_eoi_from_bounds(data@, i + 2);
                }
                return Some(vstd::slice::slice_subrange(data, i, end));
            }
        }
        i += 1;
    }
    None
}

/// Law: every stream the scan reports is a complete JPEG inside the buffer:
/// it starts with `FF D8`, ends with `FF D9`, and streams do not overlap.
pub proof fn lemma_streams_are_jpegs(d: Seq<u8>, i: int)
    requires
        0 <= i,
    ensures
        forall|k: int|
            0 <= k < streams_from(d, i).len() ==> {
                let (s, e) = #[trigger] streams_from(d, i)[k];
                &&& i <= s
                &&& s + 4 <= e <= d.len()
                &&& is_soi_at(d, s)
                &&& is_eoi_at(d, e - 2)
            },
        forall|k: int|
            0 <= k < streams_from(d, i).len() - 1 ==> #[trigger] streams_from(d, i)[k].1
                <= streams_from(d, i)[k + 1].0,
    decreases d.len() - i,
{
    if i < 0 || i + 1 >= d.len() {
    } else {
        match stream_at(d, i) {
            Some(end) => {
                lemma_eoi_from_bounds(d, i + 2);
                lemma_streams_are_jpegs(d, end);
                let rest = streams_from(d, end);
                let all = streams_from(d, i);
                assert(all == seq![(i, end)] + rest);
                assert forall|k: int| 0 <= k < all.len() - 1 implies #[trigger] all[k].1 <= all[k
                    + 1].0 by {
                    if k > 0 {
                        assert(all[k] == rest[k - 1]);
                        assert(all[k + 1] == rest[k]);
                    } else {
                        assert(all[1] == rest[0]);
                    }
                }
                assert forall|k: int| 0 <= k < all.len() implies {
                    let (s, e) = #[trigger] all[k];
                    &&& i <= s
                    &&& s + 4 <= e <= d.len()
                    &&& is_soi_at(d, s)
                    &&& is_eoi_at(d, e - 2)
                } by {
                    if k > 0 {
                        assert(all[k] == rest[k - 1]);
                    }
                }
            },
            None => {
                lemma_streams_are_jpegs(d, i + 1);
                assert(streams_from(d, i) == streams_from(d, i + 1));
            },
        }
    }
}


// ── ICC profiles in APP2 segments ───────────────────────────────────────────

/// Payload bytes of one APP2 segment (65533 minus the signature and the two
/// sequence bytes).
pub const ICC_CHUNK: usize = 65519;

/// `"ICC_PROFILE\0"`, the APP2 signature of an ICC profile chunk.
pub open spec fn icc_sig() -> Seq<u8> {
    seq![0x49u8, 0x43, 0x43, 0x5F, 0x50, 0x52, 0x4F, 0x46, 0x49, 0x4C, 0x45, 0x00]
}

/// Big-endian 16-bit value at `p`.
pub open spec fn be16(d: Seq<u8>, p: int) -> int {
    d[p] as int * 256 + d[p + 1] as int
}

/// Position just past the run of APP0/APP1 segments that starts at `pos`, or
/// `None` when one of them has a bad length.
pub open spec fn app01_end(d: Seq<u8>, pos: int) -> Option<int>
    decreases d.len() - pos,
{
    if 0 <= pos && pos + 4 <= d.len() && d[pos] == 0xFF && (d[pos + 1] == 0xE0 || d[pos + 1]
        == 0xE1) {
        let l = be16(d, pos + 2);
        if l < 2 || pos + 2 + l > d.len() {
            None
        } else {
            app01_end(d, pos + 2 + l)
        }
    } else {
        Some(pos)
    }
}

/// One APP2 `ICC_PROFILE` segment carrying `chunk` as part `idx + 1` of `count`.
pub open spec fn icc_segment(chunk: Seq<u8>, idx: int, count: int) -> Seq<u8> {
    let len = 16 + chunk.len();
    seq![0xFFu8, 0xE2u8, (len / 256) as u8, (len % 256) as u8] + icc_sig() + seq![
        (idx + 1) as u8,
        count as u8,
    ] + chunk
}

/// The segments for `rest` cut into `ICC_CHUNK`-byte chunks, numbered from
/// `idx`, at most up to the 255th.
pub open spec fn icc_segments(rest: Seq<u8>, idx: int, count: int) -> Seq<u8>
    decreases rest.len(),
{
    if rest.len() == 0 || idx >= 255 {
        Seq::empty()
    } else {
        let n = if rest.len() < ICC_CHUNK {
            rest.len() as int
        } else {
            ICC_CHUNK as int
        };
        icc_segment(rest.take(n), idx, count) + icc_segments(rest.skip(n), idx + 1, count)
    }
}

/// Number of `ICC_CHUNK`-byte chunks of `len` bytes.
pub open spec fn chunk_count(len: int) -> int {
    (len + ICC_CHUNK - 1) / (ICC_CHUNK as int)
}

/// `d` with the profile spliced in as APP2 segments right after its APP0/APP1
/// run; `None` (leave the file untouched) when `d` is not a JPEG this
/// understands.
pub open spec fn spliced_with_icc(d: Seq<u8>, icc: Seq<u8>) -> Option<Seq<u8>> {
    if d.len() < 4 || d[0] != 0xFF || d[1] != 0xD8 {
        None
    } else {
        match app01_end(d, 2) {
            None => None,
            Some(pos) => {
                let count = if chunk_count(icc.len() as int) < 255 {
                    chunk_count(icc.len() as int)
                } else {
                    255
                };
                Some(d.take(pos) + icc_segments(icc, 0, count) + d.skip(pos))
            },
        }
    }
}

/// An APP2 segment with the `ICC_PROFILE` signature at `p`.
pub open spec fn is_icc_seg(d: Seq<u8>, p: int) -> bool {
    &&& 0 <= p
    &&& p + 18 <= d.len()
    &&& d[p] == 0xFF
    &&& d[p + 1] == 0xE2
    &&& be16(d, p + 2) >= 16
    &&& p + 2 + be16(d, p + 2) <= d.len()
    &&& d.subrange(p + 4, p + 16) == icc_sig()
}

/// The first ICC segment met walking the header's segments from `pos`
/// (stopping at SOI, EOI, start-of-scan or a malformed segment).
pub open spec fn find_icc(d: Seq<u8>, pos: int) -> Option<int>
    decreases d.len() - pos,
{
    if pos < 0 || pos + 4 > d.len() || d[pos] != 0xFF {
        None
    } else if d[pos + 1] == 0xD8 || d[pos + 1] == 0xD9 || d[pos + 1] == 0xDA {
        None
    } else {
        let l = be16(d, pos + 2);
        if l < 2 || pos + 2 + l > d.len() {
            None
        } else if is_icc_seg(d, pos) {
            Some(pos)
        } else {
            find_icc(d, pos + 2 + l)
        }
    }
}

/// The payloads of `k` consecutive ICC segments starting at `p`, joined.
pub open spec fn icc_run(d: Seq<u8>, p: int, k: nat) -> Option<Seq<u8>>
    decreases k,
{
    if k == 0 {
        Some(Seq::empty())
    } else if !is_icc_seg(d, p) {
        None
    } else {
        let l = be16(d, p + 2);
        match icc_run(d, p + 2 + l, (k - 1) as nat) {
            Some(r) => Some(d.subrange(p + 18, p + 2 + l) + r),
            None => None,
        }
    }
}

/// The ICC profile a JPEG carries: the first ICC segment in its header gives
/// the chunk count, and that many consecutive ICC segments hold the chunks.
pub open spec fn icc_profile_of(d: Seq<u8>) -> Option<Seq<u8>> {
    if d.len() < 2 || d[0] != 0xFF || d[1] != 0xD8 {
        None
    } else {
        match find_icc(d, 2) {
            Some(p) => {
                let count = d[p + 17];
                if count == 0 {
                    None
                } else {
                    icc_run(d, p, count as nat)
                }
            },
            None => None,
        }
    }
}

fn append_bytes(v: &mut Vec<u8>, s: &[u8], lo: usize, hi: usize)
    requires
        lo <= hi <= s@.len(),
    ensures
        final(v)@ == old(v)@ + s@.subrange(lo as int, hi as int),
{
    let mut i = lo;
    while i < hi
        invariant
            lo <= i <= hi <= s@.len(),
            v@ == old(v)@ + s@.subrange(lo as int, i as int),
        decreases hi - i,
    {
        v.push(s[i]);
        i = i + 1;
        assert(old(v)@ + s@.subrange(lo as int, i as int) =~= old(v)@ + s@.subrange(
            lo as int,
            (i - 1) as int,
        ) + seq![s@[i - 1]]);
    }
}

fn push_sig(v: &mut Vec<u8>)
    ensures
        final(v)@ == old(v)@ + icc_sig(),
{
    v.push(0x49);
    v.push(0x43);
    v.push(0x43);
    v.push(0x5F);
    v.push(0x50);
    v.push(0x52);
    v.push(0x4F);
    v.push(0x46);
    v.push(0x49);
    v.push(0x4C);
    v.push(0x45);
    v.push(0x00);
    assert(final(v)@ =~= old(v)@ + icc_sig());
}

/// Where the profile goes: just past the APP0/APP1 run that follows SOI.
fn app01_end_exec(data: &[u8]) -> (r: Option<usize>)
    requires
        data@.len() >= 2,
    ensures
        match r {
            Some(p) => app01_end(data@, 2) == Some(p as int),
            None => app01_end(data@, 2) is None,
        },
{
    let mut pos: usize = 2;
    while pos <= data.len() && 4 <= data.len() - pos && data[pos] == 0xFF && (data[pos + 1] == 0xE0
        || data[pos + 1] == 0xE1)
        invariant
            2 <= pos,
            app01_end(data@, 2) == app01_end(data@, pos as int),
        decreases data.len() - pos,
    {
        let len = ((data[pos + 2] as usize) * 256) + data[pos + 3] as usize;
        if len < 2 || len > data.len() - pos - 2 {
            return None;
        }
        pos += 2 + len;
    }
    Some(pos)
}

/// Splice an ICC profile into a JPEG byte stream as APP2 `ICC_PROFILE`
/// segment(s), inserted after any APP0/APP1 headers (JFIF/EXIF first, per
/// convention). `None` when the bytes are not a JPEG this understands, in
/// which case the file is to be left untouched.
pub fn splice_icc(data: &[u8], icc: &[u8]) -> (r: Option<Vec<u8>>)
    ensures
        match r {
            Some(v) => spliced_with_icc(data@, icc@) == Some(v@),
            None => spliced_with_icc(data@, icc@) is None,
        },
{
    if data.len() < 4 || data[0] != 0xFF || data[1] != 0xD8 {
        return None;
    }
    let pos = match app01_end_exec(data) {
        Some(p) => p,
        None => return None,
    };
    proof {
        lemma_app01_end_bounds(data@, 2);
    }
    let n = icc.len();
    let chunks: usize = n / ICC_CHUNK + if n % ICC_CHUNK != 0 {
        1
    } else {
        0
    };
    assert(chunks == chunk_count(n as int));
    let count: usize = if chunks < 255 {
        chunks
    } else {
        255
    };
    let mut seg: Vec<u8> = Vec::new();
    let mut idx: usize = 0;
    let mut off: usize = 0;
    assert(icc@.skip(0) =~= icc@);
    while idx < 255 && off < n
        invariant
            n == icc@.len(),
            off <= n,
            idx <= 255,
            count <= 255,
            icc_segments(icc@, 0, count as int) == seg@ + icc_segments(
                icc@.skip(off as int),
                idx as int,
                count as int,
            ),
        decreases n - off,
    {
        let rest = n - off;
        let take = if rest < ICC_CHUNK {
            rest
        } else {
            ICC_CHUNK
        };
        let len = 16 + take;
        let ghost before = seg@;
        seg.push(0xFF);
        seg.push(0xE2);
        seg.push((len / 256) as u8);
        seg.push((len % 256) as u8);
        push_sig(&mut seg);
        seg.push((idx + 1) as u8);
        seg.push(count as u8);
        append_bytes(&mut seg, icc, off, off + take);
        proof {
            let r = icc@.skip(off as int);
            assert(r.take(take as int) =~= icc@.subrange(off as int, off + take));
            assert(r.skip(take as int) =~= icc@.skip(off + take));
            assert(seg@ =~= before + icc_segment(r.take(take as int), idx as int, count as int));
        }
        off = off + take;
        idx = idx + 1;
    }
    proof {
        assert(icc_segments(icc@.skip(off as int), idx as int, count as int) =~= Seq::<u8>::empty());
        assert(seg@ + Seq::<u8>::empty() =~= seg@);
    }
    let mut rebuilt: Vec<u8> = Vec::new();
    append_bytes(&mut rebuilt, data, 0, pos);
    let seg_slice = seg.as_slice();
    append_bytes(&mut rebuilt, seg_slice, 0, seg.len());
    append_bytes(&mut rebuilt, data, pos, data.len());
    proof {
        assert(seg@.subrange(0, seg@.len() as int) =~= seg@);
        assert(data@.subrange(0, pos as int) =~= data@.take(pos as int));
        assert(data@.subrange(pos as int, data@.len() as int) =~= data@.skip(pos as int));
    }
    Some(rebuilt)
}

pub proof fn lemma_app01_end_bounds(d: Seq<u8>, pos: int)
    requires
        0 <= pos,
    ensures
        app01_end(d, pos) matches Some(e) ==> pos <= e && (e == pos || e <= d.len()),
    decreases d.len() - pos,
{
    if 0 <= pos && pos + 4 <= d.len() && d[pos] == 0xFF && (d[pos + 1] == 0xE0 || d[pos + 1]
        == 0xE1) {
        let l = be16(d, pos + 2);
        if l < 2 || pos + 2 + l > d.len() {
        } else {
            lemma_app01_end_bounds(d, pos + 2 + l);
        }
    }
}

fn is_icc_seg_exec(d: &[u8], p: usize) -> (b: bool)
    ensures
        b == is_icc_seg(d@, p as int),
{
    if p > d.len() || d.len() - p < 18 {
        return false;
    }
    if d[p] != 0xFF || d[p + 1] != 0xE2 {
        return false;
    }
    let l = (d[p + 2] as usize) * 256 + d[p + 3] as usize;
    if l < 16 || l > d.len() - p - 2 {
        return false;
    }
    let ok = d[p + 4] == 0x49 && d[p + 5] == 0x43 && d[p + 6] == 0x43 && d[p + 7] == 0x5F && d[p
        + 8] == 0x50 && d[p + 9] == 0x52 && d[p + 10] == 0x4F && d[p + 11] == 0x46 && d[p + 12]
        == 0x49 && d[p + 13] == 0x4C && d[p + 14] == 0x45 && d[p + 15] == 0x00;
    proof {
        if ok {
            assert(d@.subrange(p + 4, p + 16) =~= icc_sig());
        } else {
            if d@.subrange(p + 4, p + 16) == icc_sig() {
                assert(d@.subrange(p + 4, p + 16)[0] == d@[p + 4]);
                assert(d@.subrange(p + 4, p + 16)[1] == d@[p + 5]);
                assert(d@.subrange(p + 4, p + 16)[2] == d@[p + 6]);
                assert(d@.subrange(p + 4, p + 16)[3] == d@[p + 7]);
                assert(d@.subrange(p + 4, p + 16)[4] == d@[p + 8]);
                assert(d@.subrange(p + 4, p + 16)[5] == d@[p + 9]);
                assert(d@.subrange(p + 4, p + 16)[6] == d@[p + 10]);
                assert(d@.subrange(p + 4, p + 16)[7] == d@[p + 11]);
                assert(d@.subrange(p + 4, p + 16)[8] == d@[p + 12]);
                assert(d@.subrange(p + 4, p + 16)[9] == d@[p + 13]);
                assert(d@.subrange(p + 4, p + 16)[10] == d@[p + 14]);
                assert(d@.subrange(p + 4, p + 16)[11] == d@[p + 15]);
            }
        }
    }
    ok
}

/// Read the ICC colour profile out of a JPEG (the inverse of `splice_icc`).
pub fn icc_from_jpeg(data: &[u8]) -> (r: Option<Vec<u8>>)
    ensures
        match r {
            Some(v) => icc_profile_of(data@) == Some(v@),
            None => icc_profile_of(data@) is None,
        },
{
    if data.len() < 2 || data[0] != 0xFF || data[1] != 0xD8 {
        return None;
    }
    // Walk the header's segments to the first ICC segment.
    let mut pos: usize = 2;
    loop
        invariant
            2 <= pos,
            find_icc(data@, 2) == find_icc(data@, pos as int),
        ensures
            find_icc(data@, 2) == Some(pos as int),
            is_icc_seg(data@, pos as int),
        decreases data.len() - pos,
    {
        if pos > data.len() || data.len() - pos < 4 || data[pos] != 0xFF {
            return None;
        }
        let m = data[pos + 1];
        if m == 0xD8 || m == 0xD9 || m == 0xDA {
            return None;
        }
        let l = (data[pos + 2] as usize) * 256 + data[pos + 3] as usize;
        if l < 2 || l > data.len() - pos - 2 {
            return None;
        }
        if is_icc_seg_exec(data, pos) {
            break ;
        }
        pos = pos + 2 + l;
    }
    let count = data[pos + 17];
    if count == 0 {
        return None;
    }
    let dl = data.len();
    assert(icc_profile_of(data@) == icc_run(data@, pos as int, count as nat));
    // Join the payloads of `count` consecutive ICC segments.
    let mut out: Vec<u8> = Vec::new();
    let mut p = pos;
    let mut k: u8 = 0;
    while k < count
        invariant
            k <= count,
            dl == data@.len(),
            icc_profile_of(data@) == icc_run(data@, pos as int, count as nat),
            icc_run(data@, pos as int, count as nat) matches Some(all) ==> (icc_run(
                data@,
                p as int,
                (count - k) as nat,
            ) matches Some(rest) && all == out@ + rest),
            icc_run(data@, pos as int, count as nat) is None ==> icc_run(
                data@,
                p as int,
                (count - k) as nat,
            ) is None,
        decreases count - k,
    {
        if !is_icc_seg_exec(data, p) {
            proof {
                assert(icc_run(data@, p as int, (count - k) as nat) is None);
            }
            return None;
        }
        assert(p + 18 <= data@.len());
        let l = (data[p + 2] as usize) * 256 + data[p + 3] as usize;
        let ghost before = out@;
        append_bytes(&mut out, data, p + 18, p + 2 + l);
        proof {
            if let Some(all) = icc_run(data@, pos as int, count as nat) {
                let rest = icc_run(data@, p as int, (count - k) as nat).unwrap();
                let rest2 = icc_run(data@, p + 2 + l, (count - k - 1) as nat).unwrap();
                assert(all == out@ + rest2);
            }
        }
        p = p + 2 + l;
        k = k + 1;
    }
    proof {
        if let Some(all) = icc_run(data@, pos as int, count as nat) {
            assert(out@ + Seq::<u8>::empty() =~= out@);
        }
    }
    Some(out)
}

// ── the splice/extract round trip ───────────────────────────────────────────

proof fn lemma_segment_fields(chunk: Seq<u8>, idx: int, count: int)
    requires
        0 < chunk.len() <= ICC_CHUNK,
    ensures
        icc_segment(chunk, idx, count).len() == 18 + chunk.len(),
        be16(icc_segment(chunk, idx, count), 2) == 16 + chunk.len(),
        icc_segment(chunk, idx, count)[0] == 0xFF,
        icc_segment(chunk, idx, count)[1] == 0xE2,
        icc_segment(chunk, idx, count)[17] == count as u8,
        icc_segment(chunk, idx, count).subrange(4, 16) == icc_sig(),
        icc_segment(chunk, idx, count).subrange(18, 18 + chunk.len() as int) == chunk,
{
    let s = icc_segment(chunk, idx, count);
    let len = 16 + chunk.len();
    assert(s.subrange(4, 16) =~= icc_sig());
    assert(s.subrange(18, 18 + chunk.len() as int) =~= chunk);
    assert(s[2] == (len / 256) as u8);
    assert(s[3] == (len % 256) as u8);
}

/// The segments written for `rest` read back, in one run, as `rest`.
proof fn lemma_segments_read_back(pre: Seq<u8>, rest: Seq<u8>, idx: int, count: int, post: Seq<u8>)
    requires
        0 < rest.len(),
        0 <= idx,
        idx + chunk_count(rest.len() as int) <= 255,
    ensures
        icc_run(pre + icc_segments(rest, idx, count) + post, pre.len() as int, chunk_count(
            rest.len() as int,
        ) as nat) == Some(rest),
    decreases rest.len(),
{
    let n = if rest.len() < ICC_CHUNK {
        rest.len() as int
    } else {
        ICC_CHUNK as int
    };
    let chunk = rest.take(n);
    let seg = icc_segment(chunk, idx, count);
    let tail = icc_segments(rest.skip(n), idx + 1, count);
    let d = pre + icc_segments(rest, idx, count) + post;
    let p = pre.len() as int;
    assert(icc_segments(rest, idx, count) == seg + tail);
    lemma_segment_fields(chunk, idx, count);
    assert(d =~= pre + seg + (tail + post));
    assert forall|i: int| 0 <= i < seg.len() implies d[p + i] == seg[i] by {
        assert(d[p + i] == (pre + seg + (tail + post))[p + i]);
    }
    assert(d.subrange(p + 4, p + 16) =~= seg.subrange(4, 16));
    assert(be16(d, p + 2) == be16(seg, 2));
    assert(is_icc_seg(d, p));
    assert(d.subrange(p + 18, p + 18 + chunk.len()) =~= chunk);
    let k = chunk_count(rest.len() as int);
    if rest.len() <= ICC_CHUNK {
        assert(k == 1);
        assert(rest.skip(n).len() == 0);
        assert(chunk =~= rest);
        assert(icc_run(d, p + 2 + be16(d, p + 2), 0) == Some(Seq::<u8>::empty()));
        assert(chunk + Seq::<u8>::empty() =~= rest);
    } else {
        let r2 = rest.skip(n);
        assert(chunk_count(r2.len() as int) == k - 1);
        let pre2 = pre + seg;
        assert(d =~= pre2 + icc_segments(r2, idx + 1, count) + post);
        lemma_segments_read_back(pre2, r2, idx + 1, count, post);
        assert(chunk + r2 =~= rest);
    }
}

/// Walking the header of the spliced bytes passes the APP0/APP1 run untouched
/// and stops at the first spliced segment.
proof fn lemma_find_spliced(d: Seq<u8>, r: Seq<u8>, q: int, pos: int)
    requires
        2 <= q,
        app01_end(d, q) == Some(pos),
        pos <= d.len(),
        r.len() >= pos,
        r.take(pos) == d.take(pos),
        is_icc_seg(r, pos),
    ensures
        find_icc(r, q) == Some(pos),
    decreases d.len() - q,
{
    lemma_app01_end_bounds(d, q);
    if 0 <= q && q + 4 <= d.len() && d[q] == 0xFF && (d[q + 1] == 0xE0 || d[q + 1] == 0xE1) {
        let l = be16(d, q + 2);
        lemma_app01_end_bounds(d, q + 2 + l);
        assert(q + 2 + l <= pos);
        assert(r[q] == r.take(pos)[q]);
        assert(r[q + 1] == r.take(pos)[q + 1]);
        assert(r[q + 2] == r.take(pos)[q + 2]);
        assert(r[q + 3] == r.take(pos)[q + 3]);
        lemma_find_spliced(d, r, q + 2 + l, pos);
    } else {
        assert(q == pos);
    }
}

/// Law: a profile spliced into a JPEG reads back out unchanged, for any
/// non-empty profile of at most 255 chunks.
pub proof fn lemma_icc_roundtrip(d: Seq<u8>, icc: Seq<u8>)
    requires
        0 < icc.len() <= 255 * ICC_CHUNK,
        spliced_with_icc(d, icc) is Some,
    ensures
        icc_profile_of(spliced_with_icc(d, icc).unwrap()) == Some(icc),
{
    let pos = app01_end(d, 2).unwrap();
    lemma_app01_end_bounds(d, 2);
    let k = chunk_count(icc.len() as int);
    assert(1 <= k <= 255);
    let segs = icc_segments(icc, 0, k);
    let r = d.take(pos) + segs + d.skip(pos);
    assert(r == spliced_with_icc(d, icc).unwrap());
    lemma_segments_read_back(d.take(pos), icc, 0, k, d.skip(pos));
    // the first spliced segment sits at `pos`
    let n = if icc.len() < ICC_CHUNK {
        icc.len() as int
    } else {
        ICC_CHUNK as int
    };
    let seg0 = icc_segment(icc.take(n), 0, k);
    lemma_segment_fields(icc.take(n), 0, k);
    assert(segs == seg0 + icc_segments(icc.skip(n), 1, k));
    assert forall|i: int| 0 <= i < seg0.len() implies r[pos + i] == seg0[i] by {
        assert(r =~= d.take(pos) + seg0 + (icc_segments(icc.skip(n), 1, k) + d.skip(pos)));
    }
    assert(r.subrange(pos + 4, pos + 16) =~= seg0.subrange(4, 16));
    assert(be16(r, pos + 2) == be16(seg0, 2));
    assert(is_icc_seg(r, pos));
    assert(r.take(pos) =~= d.take(pos));
    lemma_find_spliced(d, r, 2, pos);
    assert(r[0] == d[0] && r[1] == d[1]);
    assert(r[pos + 17] == seg0[17]);
}

} // verus!
