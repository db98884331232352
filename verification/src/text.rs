//! Text primitives shared by the parsers: Unicode white space, trimming,
//! ASCII case folding, UTF-8 byte offsets of a string, and decimal integers.
use vstd::prelude::*;
use vstd::utf8::*;

verus! {

// ── specifications ──────────────────────────────────────────────────────────

/// Unicode `White_Space` (what `char::is_whitespace`, `str::trim` and
/// `str::split_whitespace` use).
pub open spec fn is_white_space(c: char) -> bool {
    let u = c as u32;
    ||| 0x9 <= u <= 0xD
    ||| u == 0x20
    ||| u == 0x85
    ||| u == 0xA0
    ||| u == 0x1680
    ||| 0x2000 <= u <= 0x200A
    ||| u == 0x2028
    ||| u == 0x2029
    ||| u == 0x202F
    ||| u == 0x205F
    ||| u == 0x3000
}

/// `cs` with its leading white space removed.
pub open spec fn trim_start(cs: Seq<char>) -> Seq<char>
    decreases cs.len(),
{
    if cs.len() > 0 && is_white_space(cs[0]) {
        trim_start(cs.drop_first())
    } else {
        cs
    }
}

/// `cs` with its trailing white space removed.
pub open spec fn trim_end(cs: Seq<char>) -> Seq<char>
    decreases cs.len(),
{
    if cs.len() > 0 && is_white_space(cs.last()) {
        trim_end(cs.drop_last())
    } else {
        cs
    }
}

/// `str::trim`: white space removed at both ends.
pub open spec fn trim(cs: Seq<char>) -> Seq<char> {
    trim_end(trim_start(cs))
}

pub open spec fn is_ascii_upper(c: char) -> bool {
    'A' as u32 <= c as u32 <= 'Z' as u32
}

/// `char::to_ascii_lowercase`.
pub open spec fn ascii_lower_char(c: char) -> char {
    if is_ascii_upper(c) {
        ((c as u32) + 32) as char
    } else {
        c
    }
}

/// `str::to_ascii_lowercase`.
pub open spec fn ascii_lower(cs: Seq<char>) -> Seq<char> {
    cs.map_values(|c: char| ascii_lower_char(c))
}

/// Number of UTF-8 bytes of `cs` (what `str::len` reports).
pub open spec fn byte_len(cs: Seq<char>) -> nat {
    encode_utf8(cs).len()
}

/// The char index at which byte offset `a` of `cs` starts a character
/// (`a == byte_len(cs)` included), if any.
pub open spec fn is_boundary_at(cs: Seq<char>, k: int, a: int) -> bool {
    0 <= k <= cs.len() && byte_len(cs.take(k)) == a
}

/// `str::get(a..z)`: the characters between byte offsets `a` and `z`, or
/// `None` unless both offsets fall on character boundaries with `a <= z`.
pub open spec fn str_get(cs: Seq<char>, a: int, z: int) -> Option<Seq<char>> {
    if exists|ka: int, kz: int|
        ka <= kz && #[trigger] is_boundary_at(cs, ka, a) && #[trigger] is_boundary_at(cs, kz, z) {
        let (ka, kz) = choose|ka: int, kz: int|
            ka <= kz && #[trigger] is_boundary_at(cs, ka, a) && #[trigger] is_boundary_at(
                cs,
                kz,
                z,
            );
        Some(cs.subrange(ka, kz))
    } else {
        None
    }
}

pub open spec fn is_digit(c: char) -> bool {
    '0' as u32 <= c as u32 <= '9' as u32
}

pub open spec fn all_digits(cs: Seq<char>) -> bool {
    forall|i: int| 0 <= i < cs.len() ==> is_digit(#[trigger] cs[i])
}

/// Value of a run of decimal digits.
pub open spec fn digits_value(cs: Seq<char>) -> int
    decreases cs.len(),
{
    if cs.len() == 0 {
        0
    } else {
        digits_value(cs.drop_last()) * 10 + (cs.last() as u32 - '0' as u32)
    }
}

/// `i64::from_str`: an optional `+` or `-`, then one or more ASCII digits,
/// and the value must fit in an `i64`.
pub open spec fn parse_i64(cs: Seq<char>) -> Option<i64> {
    let neg = cs.len() > 0 && cs[0] == '-';
    let signed = cs.len() > 0 && (cs[0] == '-' || cs[0] == '+');
    let ds = if signed {
        cs.drop_first()
    } else {
        cs
    };
    let v = if neg {
        -digits_value(ds)
    } else {
        digits_value(ds)
    };
    if ds.len() == 0 || !all_digits(ds) || v < i64::MIN || v > i64::MAX {
        None
    } else {
        Some(v as i64)
    }
}

/// Number of bytes of the UTF-8 encoding of `c`.
pub open spec fn utf8_width(c: char) -> nat {
    encode_scalar(c as u32).len()
}

// ── lemmas ──────────────────────────────────────────────────────────────────

pub proof fn lemma_encode_append(a: Seq<char>, b: Seq<char>)
    ensures
        encode_utf8(a + b) == encode_utf8(a) + encode_utf8(b),
    decreases a.len(),
{
    if a.len() == 0 {
        assert(a + b =~= b);
    } else {
        assert((a + b).drop_first() =~= a.drop_first() + b);
        lemma_encode_append(a.drop_first(), b);
        assert((a + b)[0] == a[0]);
    }
}

pub proof fn lemma_byte_len_push(a: Seq<char>, c: char)
    ensures
        byte_len(a.push(c)) == byte_len(a) + utf8_width(c),
{
    lemma_encode_append(a, seq![c]);
    assert(a.push(c) =~= a + seq![c]);
    assert(seq![c].drop_first() =~= Seq::<char>::empty());
    assert(encode_utf8(Seq::<char>::empty()) =~= Seq::<u8>::empty());
    assert(encode_utf8(seq![c]) =~= encode_scalar(c as u32));
}

pub proof fn lemma_width_bounds(c: char)
    ensures
        1 <= utf8_width(c) <= 4,
{
}

/// Byte offsets grow strictly with the char index.
pub proof fn lemma_byte_len_take_strict(cs: Seq<char>, i: int, j: int)
    requires
        0 <= i < j <= cs.len(),
    ensures
        byte_len(cs.take(i)) < byte_len(cs.take(j)),
    decreases j - i,
{
    assert(cs.take(i + 1) =~= cs.take(i).push(cs[i]));
    lemma_byte_len_push(cs.take(i), cs[i]);
    lemma_width_bounds(cs[i]);
    if i + 1 < j {
        lemma_byte_len_take_strict(cs, i + 1, j);
    }
}

pub proof fn lemma_byte_len_ge_len(cs: Seq<char>)
    ensures
        byte_len(cs) >= cs.len(),
    decreases cs.len(),
{
    if cs.len() > 0 {
        assert(cs =~= cs.drop_last().push(cs.last()));
        lemma_byte_len_push(cs.drop_last(), cs.last());
        lemma_width_bounds(cs.last());
        lemma_byte_len_ge_len(cs.drop_last());
    } else {
        assert(encode_utf8(cs) =~= Seq::<u8>::empty());
    }
}

/// A prefix is no longer in bytes than the whole.
pub proof fn lemma_byte_len_take_le(cs: Seq<char>, i: int)
    requires
        0 <= i <= cs.len(),
    ensures
        byte_len(cs.take(i)) <= byte_len(cs),
{
    assert(cs.take(cs.len() as int) =~= cs);
    if i < cs.len() {
        lemma_byte_len_take_strict(cs, i, cs.len() as int);
    }
}

/// A slice is no longer in bytes than the whole.
pub proof fn lemma_byte_len_subrange_le(cs: Seq<char>, i: int, j: int)
    requires
        0 <= i <= j <= cs.len(),
    ensures
        byte_len(cs.subrange(i, j)) <= byte_len(cs),
{
    lemma_encode_append(cs.take(i), cs.subrange(i, j));
    lemma_encode_append(cs.take(j), cs.skip(j));
    assert(cs.take(i) + cs.subrange(i, j) =~= cs.take(j));
    assert(cs.take(j) + cs.skip(j) =~= cs);
}

proof fn lemma_boundary_unique(cs: Seq<char>, k1: int, k2: int, a: int)
    requires
        is_boundary_at(cs, k1, a),
        is_boundary_at(cs, k2, a),
    ensures
        k1 == k2,
{
    if k1 < k2 {
        lemma_byte_len_take_strict(cs, k1, k2);
    } else if k2 < k1 {
        lemma_byte_len_take_strict(cs, k2, k1);
    }
}

proof fn lemma_trim_start_skip(cs: Seq<char>, i: int)
    requires
        0 <= i <= cs.len(),
        forall|j: int| 0 <= j < i ==> is_white_space(#[trigger] cs[j]),
    ensures
        trim_start(cs) == trim_start(cs.skip(i)),
    decreases i,
{
    if i > 0 {
        assert(cs.drop_first().skip(i - 1) =~= cs.skip(i));
        assert forall|j: int| 0 <= j < i - 1 implies is_white_space(#[trigger] cs.drop_first()[j]) by {
            assert(cs.drop_first()[j] == cs[j + 1]);
        }
        lemma_trim_start_skip(cs.drop_first(), i - 1);
    } else {
        assert(cs.skip(0) =~= cs);
    }
}

proof fn lemma_trim_end_take(cs: Seq<char>, i: int)
    requires
        0 <= i <= cs.len(),
        forall|j: int| i <= j < cs.len() ==> is_white_space(#[trigger] cs[j]),
    ensures
        trim_end(cs) == trim_end(cs.take(i)),
    decreases cs.len() - i,
{
    if i < cs.len() {
        assert(cs.drop_last().take(i) =~= cs.take(i));
        assert forall|j: int| i <= j < cs.drop_last().len() implies is_white_space(
            #[trigger] cs.drop_last()[j],
        ) by {
            assert(cs.drop_last()[j] == cs[j]);
        }
        lemma_trim_end_take(cs.drop_last(), i);
    } else {
        assert(cs.take(i) =~= cs);
    }
}

/// A number of at most four characters lies strictly between -10000 and 10000.
pub proof fn lemma_parse_i64_small(cs: Seq<char>)
    requires
        cs.len() <= 4,
    ensures
        parse_i64(cs) matches Some(v) ==> -10000 < v < 10000,
{
    let signed = cs.len() > 0 && (cs[0] == '-' || cs[0] == '+');
    let ds = if signed {
        cs.drop_first()
    } else {
        cs
    };
    if ds.len() > 0 && all_digits(ds) {
        lemma_digits_value_pow(ds);
        lemma_pow10_mono(ds.len(), 4);
        assert(pow10(4) == 10000) by {
            reveal_with_fuel(pow10, 5);
        }
    }
}

/// `digits_value(cs) < 10^len`.
proof fn lemma_digits_value_pow(cs: Seq<char>)
    requires
        all_digits(cs),
    ensures
        0 <= digits_value(cs) < pow10(cs.len()),
    decreases cs.len(),
{
    if cs.len() > 0 {
        lemma_digits_value_pow(cs.drop_last());
    }
}

pub open spec fn pow10(n: nat) -> int
    decreases n,
{
    if n == 0 {
        1
    } else {
        pow10((n - 1) as nat) * 10
    }
}

proof fn lemma_pow10_mono(a: nat, b: nat)
    requires
        a <= b,
    ensures
        1 <= pow10(a) <= pow10(b),
    decreases b,
{
    if a < b {
        lemma_pow10_mono(a, (b - 1) as nat);
    } else {
        lemma_pow10_pos(a);
    }
}

proof fn lemma_pow10_pos(a: nat)
    ensures
        pow10(a) >= 1,
    decreases a,
{
    if a > 0 {
        lemma_pow10_pos((a - 1) as nat);
    }
}

// ── executable helpers ──────────────────────────────────────────────────────

/// The characters of a string slice, in order.
pub fn chars_of(s: &str) -> (v: Vec<char>)
    ensures
        v@ == s@,
{
    let mut v: Vec<char> = Vec::new();
    for c in it: s.chars()
        invariant
            v@ == it.seq().take(it.index() as int),
    {
        v.push(c);
    }
    v
}

/// `String::push`.
#[verifier::external_body]
fn push_char(s: &mut String, c: char)
    ensures
        final(s)@ == old(s)@.push(c),
{
    s.push(c);
}

/// The string made of the characters `cs`.
pub fn string_of(cs: &Vec<char>) -> (s: String)
    ensures
        s@ == cs@,
{
    let mut s = String::new();
    let mut i: usize = 0;
    while i < cs.len()
        invariant
            i <= cs.len(),
            s@ == cs@.take(i as int),
        decreases cs.len() - i,
    {
        push_char(&mut s, cs[i]);
        i = i + 1;
        assert(cs@.take(i as int) =~= cs@.take((i - 1) as int).push(cs@[i - 1]));
    }
    assert(cs@.take(i as int) =~= cs@);
    s
}

/// The characters `cs[lo..hi]` as a new vector.
pub fn sub_chars(cs: &Vec<char>, lo: usize, hi: usize) -> (v: Vec<char>)
    requires
        lo <= hi <= cs.len(),
    ensures
        v@ == cs@.subrange(lo as int, hi as int),
{
    let mut v: Vec<char> = Vec::new();
    let mut i = lo;
    while i < hi
        invariant
            lo <= i <= hi <= cs.len(),
            v@ == cs@.subrange(lo as int, i as int),
        decreases hi - i,
    {
        v.push(cs[i]);
        i = i + 1;
        assert(cs@.subrange(lo as int, i as int) =~= cs@.subrange(lo as int, (i - 1) as int).push(
            cs@[i - 1],
        ));
    }
    v
}

pub fn is_white_space_char(c: char) -> (b: bool)
    ensures
        b == is_white_space(c),
{
    let u = c as u32;
    (0x9 <= u && u <= 0xD) || u == 0x20 || u == 0x85 || u == 0xA0 || u == 0x1680 || (0x2000 <= u
        && u <= 0x200A) || u == 0x2028 || u == 0x2029 || u == 0x202F || u == 0x205F || u == 0x3000
}

/// Bounds of `trim_start(cs)` inside `cs`: `trim_start(cs) == cs[lo..]`.
pub fn trim_start_index(cs: &Vec<char>) -> (lo: usize)
    ensures
        lo <= cs.len(),
        trim_start(cs@) == cs@.skip(lo as int),
{
    let mut i: usize = 0;
    while i < cs.len() && is_white_space_char(cs[i])
        invariant
            i <= cs.len(),
            forall|j: int| 0 <= j < i ==> is_white_space(#[trigger] cs@[j]),
        decreases cs.len() - i,
    {
        i = i + 1;
    }
    proof {
        lemma_trim_start_skip(cs@, i as int);
        let r = cs@.skip(i as int);
        if r.len() > 0 {
            assert(r[0] == cs@[i as int]);
        }
    }
    i
}

/// Bounds of `trim(cs)` inside `cs`: `trim(cs) == cs[lo..hi]`.
pub fn trim_bounds(cs: &Vec<char>) -> (r: (usize, usize))
    ensures
        r.0 <= r.1 <= cs.len(),
        trim(cs@) == cs@.subrange(r.0 as int, r.1 as int),
{
    let lo = trim_start_index(cs);
    let mut hi: usize = cs.len();
    while hi > lo && is_white_space_char(cs[hi - 1])
        invariant
            lo <= hi <= cs.len(),
            forall|j: int| hi <= j < cs.len() ==> is_white_space(#[trigger] cs@[j]),
        decreases hi,
    {
        hi = hi - 1;
    }
    proof {
        let s = cs@.skip(lo as int);
        let k = (hi - lo) as int;
        assert forall|j: int| k <= j < s.len() implies is_white_space(#[trigger] s[j]) by {
            assert(s[j] == cs@[j + lo]);
        }
        lemma_trim_end_take(s, k);
        assert(s.take(k) =~= cs@.subrange(lo as int, hi as int));
        let t = s.take(k);
        if t.len() > 0 {
            assert(t.last() == cs@[hi - 1]);
        }
    }
    (lo, hi)
}

/// The trimmed characters of `cs`.
pub fn trimmed(cs: &Vec<char>) -> (v: Vec<char>)
    ensures
        v@ == trim(cs@),
{
    let (lo, hi) = trim_bounds(cs);
    sub_chars(cs, lo, hi)
}

/// `str::to_ascii_lowercase` on characters.
pub fn ascii_lower_vec(cs: &Vec<char>) -> (v: Vec<char>)
    ensures
        v@ == ascii_lower(cs@),
{
    let mut v: Vec<char> = Vec::new();
    let mut i: usize = 0;
    while i < cs.len()
        invariant
            i <= cs.len(),
            v@ == ascii_lower(cs@.take(i as int)),
        decreases cs.len() - i,
    {
        let c = cs[i];
        let u = c as u32;
        let l = if 'A' as u32 <= u && u <= 'Z' as u32 {
            let x = u + 32;
            proof {
                assert(0x61 <= x <= 0x7A);
            }
            char_from_ascii(x)
        } else {
            c
        };
        v.push(l);
        i = i + 1;
        assert(ascii_lower(cs@.take(i as int)) =~= ascii_lower(cs@.take((i - 1) as int)).push(
            ascii_lower_char(cs@[i - 1]),
        ));
    }
    assert(cs@.take(i as int) =~= cs@);
    v
}

/// The ASCII character with code `x`.
fn char_from_ascii(x: u32) -> (c: char)
    requires
        x < 128,
    ensures
        c as u32 == x,
        c == x as char,
{
    let b = x as u8;
    let c = b as char;
    c
}

/// Number of UTF-8 bytes of `c` (`char::len_utf8`).
pub fn char_width(c: char) -> (w: usize)
    ensures
        w == utf8_width(c),
{
    proof {
        vstd::utf8::char_is_scalar(c);
    }
    let u = c as u32;
    if u <= 0x7F {
        1
    } else if u <= 0x7FF {
        2
    } else if u <= 0xFFFF {
        3
    } else {
        4
    }
}

/// Byte offset of char index `k`: `byte_len(cs[..k])`.
pub fn byte_offset(cs: &Vec<char>, k: usize) -> (n: usize)
    requires
        k <= cs.len(),
        byte_len(cs@) <= usize::MAX,
    ensures
        n == byte_len(cs@.take(k as int)),
{
    let mut i: usize = 0;
    let mut n: usize = 0;
    assert(encode_utf8(cs@.take(0)) =~= Seq::<u8>::empty());
    while i < k
        invariant
            i <= k <= cs.len(),
            byte_len(cs@) <= usize::MAX,
            n == byte_len(cs@.take(i as int)),
        decreases k - i,
    {
        let w = char_width(cs[i]);
        proof {
            assert(cs@.take(i + 1) =~= cs@.take(i as int).push(cs@[i as int]));
            lemma_byte_len_push(cs@.take(i as int), cs@[i as int]);
            lemma_byte_len_take_le(cs@, i + 1);
        }
        n = n + w;
        i = i + 1;
    }
    n
}

/// The char index whose byte offset is `a`, if `a` is a character boundary.
pub fn boundary_index(cs: &Vec<char>, a: usize) -> (r: Option<usize>)
    requires
        byte_len(cs@) <= usize::MAX,
    ensures
        match r {
            Some(k) => is_boundary_at(cs@, k as int, a as int),
            None => forall|k: int| !#[trigger] is_boundary_at(cs@, k, a as int),
        },
{
    let mut i: usize = 0;
    let mut n: usize = 0;
    assert(encode_utf8(cs@.take(0)) =~= Seq::<u8>::empty());
    while i < cs.len() && n < a
        invariant
            i <= cs.len(),
            byte_len(cs@) <= usize::MAX,
            n == byte_len(cs@.take(i as int)),
            forall|k: int| 0 <= k < i ==> byte_len(#[trigger] cs@.take(k)) < a,
        decreases cs.len() - i,
    {
        let w = char_width(cs[i]);
        proof {
            assert(cs@.take(i + 1) =~= cs@.take(i as int).push(cs@[i as int]));
            lemma_byte_len_push(cs@.take(i as int), cs@[i as int]);
            lemma_byte_len_take_le(cs@, i + 1);
        }
        n = n + w;
        i = i + 1;
    }
    if n == a {
        Some(i)
    } else {
        proof {
            assert forall|k: int| !#[trigger] is_boundary_at(cs@, k, a as int) by {
                if is_boundary_at(cs@, k, a as int) && k > i {
                    lemma_byte_len_take_strict(cs@, i as int, k);
                }
            }
        }
        None
    }
}

/// `str::get(a..z)` on the characters `cs`.
pub fn get_bytes_range(cs: &Vec<char>, a: usize, z: usize) -> (r: Option<Vec<char>>)
    requires
        byte_len(cs@) <= usize::MAX,
    ensures
        match r {
            Some(v) => str_get(cs@, a as int, z as int) == Some(v@),
            None => str_get(cs@, a as int, z as int) is None,
        },
{
    let ka = boundary_index(cs, a);
    let kz = boundary_index(cs, z);
    match (ka, kz) {
        (Some(ka), Some(kz)) => {
            if ka <= kz {
                let v = sub_chars(cs, ka, kz);
                proof {
                    assert(is_boundary_at(cs@, ka as int, a as int) && is_boundary_at(
                        cs@,
                        kz as int,
                        z as int,
                    ));
                    let (x, y) = choose|x: int, y: int|
                        x <= y && #[trigger] is_boundary_at(cs@, x, a as int)
                            && #[trigger] is_boundary_at(cs@, y, z as int);
                    lemma_boundary_unique(cs@, x, ka as int, a as int);
                    lemma_boundary_unique(cs@, y, kz as int, z as int);
                }
                Some(v)
            } else {
                proof {
                    assert forall|x: int, y: int|
                        x <= y && #[trigger] is_boundary_at(cs@, x, a as int) implies !#[trigger] is_boundary_at(
                        cs@,
                        y,
                        z as int,
                    ) by {
                        if is_boundary_at(cs@, y, z as int) {
                            lemma_boundary_unique(cs@, x, ka as int, a as int);
                            lemma_boundary_unique(cs@, y, kz as int, z as int);
                        }
                    }
                }
                None
            }
        },
        _ => None,
    }
}

/// `i64::from_str` on a short run of characters.
pub fn parse_i64_chars(cs: &Vec<char>) -> (r: Option<i64>)
    requires
        cs.len() <= 18,
    ensures
        r == parse_i64(cs@),
{
    let n = cs.len();
    if n == 0 {
        return None;
    }
    let neg = cs[0] == '-';
    let signed = cs[0] == '-' || cs[0] == '+';
    let start: usize = if signed {
        1
    } else {
        0
    };
    let ghost ds = if signed {
        cs@.drop_first()
    } else {
        cs@
    };
    assert(ds =~= cs@.skip(start as int));
    if start == n {
        return None;
    }
    let mut i = start;
    let mut acc: i64 = 0;
    while i < n
        invariant
            start <= i <= n <= 18,
            n == cs.len(),
            n > 0,
            signed == (cs@[0] == '-' || cs@[0] == '+'),
            neg == (cs@[0] == '-'),
            ds == (if signed { cs@.drop_first() } else { cs@ }),
            ds == cs@.skip(start as int),
            all_digits(ds.take(i - start)),
            acc == digits_value(ds.take(i - start)),
            0 <= acc < pow10((i - start) as nat),
        decreases n - i,
    {
        let c = cs[i];
        let u = c as u32;
        if u < '0' as u32 || u > '9' as u32 {
            proof {
                assert(!is_digit(ds[i - start]));
                assert(!all_digits(ds));
            }
            return None;
        }
        proof {
            lemma_pow10_mono((i - start) as nat, 17);
            assert(pow10(17) == 100_000_000_000_000_000) by {
                reveal_with_fuel(pow10, 18);
            }
            assert(ds.take(i - start + 1) =~= ds.take(i - start).push(c));
            assert(ds.take(i - start + 1).drop_last() =~= ds.take(i - start));
        }
        acc = acc * 10 + (u - '0' as u32) as i64;
        i = i + 1;
        proof {
            assert(pow10((i - start) as nat) == pow10((i - start - 1) as nat) * 10);
        }
    }
    assert(ds.take(n - start) =~= ds);
    if neg {
        Some(-acc)
    } else {
        Some(acc)
    }
}

} // verus!
