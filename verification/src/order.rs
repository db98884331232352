//! Ordering of text keys (by code point, which is the byte order of their
//! UTF-8 encoding) and a stable sort of records by such keys.
use vstd::prelude::*;

verus! {

/// `a < b` in lexicographic code-point order.
pub open spec fn lex_lt(a: Seq<char>, b: Seq<char>) -> bool
    decreases a.len(),
{
    if a.len() == 0 {
        b.len() > 0
    } else if b.len() == 0 {
        false
    } else if a[0] != b[0] {
        (a[0] as u32) < (b[0] as u32)
    } else {
        lex_lt(a.drop_first(), b.drop_first())
    }
}

/// Record `i` goes before record `j`: a smaller key, or an equal key and an
/// earlier position (stability).
pub open spec fn goes_before(keys: Seq<Seq<char>>, i: int, j: int) -> bool {
    lex_lt(keys[i], keys[j]) || (keys[i] == keys[j] && i < j)
}

/// `p` lists every position of `keys` once, ordered by key and, for equal
/// keys, by position: the order a stable sort by key produces.
pub open spec fn is_stable_order(keys: Seq<Seq<char>>, p: Seq<usize>) -> bool {
    &&& p.len() == keys.len()
    &&& forall|a: int| 0 <= a < p.len() ==> #[trigger] p[a] < keys.len()
    &&& forall|a: int, b: int|
        0 <= a < b < p.len() ==> #[trigger] goes_before(keys, p[a] as int, p[b] as int)
}

/// `out` is `items` stably sorted by `keys`.
pub open spec fn sorted_by_keys<T>(items: Seq<T>, keys: Seq<Seq<char>>, out: Seq<T>) -> bool {
    &&& out.len() == items.len()
    &&& exists|p: Seq<usize>|
        is_stable_order(keys, p) && forall|k: int| 0 <= k < out.len() ==> #[trigger] out[k]
            == items[p[k] as int]
}

/// No key goes before itself.
pub proof fn lemma_lex_irreflexive(a: Seq<char>)
    ensures
        !lex_lt(a, a),
    decreases a.len(),
{
    if a.len() > 0 {
        lemma_lex_irreflexive(a.drop_first());
    }
}

/// Of two keys, at most one goes before the other.
pub proof fn lemma_lex_asymmetric(a: Seq<char>, b: Seq<char>)
    ensures
        !(lex_lt(a, b) && lex_lt(b, a)),
    decreases a.len(),
{
    if a.len() > 0 && b.len() > 0 && a[0] == b[0] {
        lemma_lex_asymmetric(a.drop_first(), b.drop_first());
    }
}

/// The key order is transitive.
pub proof fn lemma_lex_transitive(a: Seq<char>, b: Seq<char>, c: Seq<char>)
    requires
        lex_lt(a, b),
        lex_lt(b, c),
    ensures
        lex_lt(a, c),
    decreases a.len(),
{
    if a.len() > 0 && b.len() > 0 && c.len() > 0 && a[0] == b[0] && b[0] == c[0] {
        lemma_lex_transitive(a.drop_first(), b.drop_first(), c.drop_first());
    }
}

/// Any two different keys are ordered one way or the other, so a sort by
/// key is well defined.
pub proof fn lemma_lex_total(a: Seq<char>, b: Seq<char>)
    ensures
        a == b || lex_lt(a, b) || lex_lt(b, a),
    decreases a.len(),
{
    if a.len() > 0 && b.len() > 0 && a[0] == b[0] {
        lemma_lex_total(a.drop_first(), b.drop_first());
        if a.drop_first() == b.drop_first() {
            assert(a =~= seq![a[0]] + a.drop_first());
            assert(b =~= seq![b[0]] + b.drop_first());
        }
    } else if a.len() == 0 && b.len() == 0 {
        assert(a =~= b);
    } else if a.len() > 0 && b.len() > 0 {
        vstd::utf8::char_u32_cast(a[0], a[0] as u32);
        vstd::utf8::char_u32_cast(b[0], b[0] as u32);
    }
}

/// Some position of `p` holds `i`.
pub open spec fn holds_position(p: Seq<usize>, i: int) -> bool {
    exists|k: int| 0 <= k < p.len() && p[k] == i
}

/// `x` is one of the elements of `s`.
pub open spec fn appears_in<T>(s: Seq<T>, x: T) -> bool {
    exists|k: int| 0 <= k < s.len() && s[k] == x
}

/// A stable order lists every position exactly once: it is a permutation.
pub proof fn lemma_stable_order_is_permutation(keys: Seq<Seq<char>>, p: Seq<usize>)
    requires
        is_stable_order(keys, p),
    ensures
        forall|a: int, b: int| 0 <= a < b < p.len() ==> p[a] != p[b],
        forall|i: int| 0 <= i < keys.len() ==> #[trigger] holds_position(p, i),
{
    let n = keys.len() as int;
    assert forall|a: int, b: int| 0 <= a < b < p.len() implies p[a] != p[b] by {
        assert(goes_before(keys, p[a] as int, p[b] as int));
        lemma_lex_irreflexive(keys[p[a] as int]);
    }
    let q = p.map_values(|x: usize| x as int);
    assert(q.no_duplicates()) by {
        assert forall|a: int, b: int| 0 <= a < q.len() && 0 <= b < q.len() && a != b implies q[a]
            != q[b] by {
            if a < b {
                assert(p[a] != p[b]);
            } else {
                assert(p[b] != p[a]);
            }
        }
    }
    q.unique_seq_to_set();
    vstd::seq_lib::seq_to_set_is_finite(q);
    vstd::set_lib::lemma_int_range(0, n);
    let r = vstd::set_lib::set_int_range(0, n);
    assert(q.to_set().subset_of(r)) by {
        assert forall|v: int| q.to_set().contains(v) implies r.contains(v) by {
            let k = choose|k: int| 0 <= k < q.len() && q[k] == v;
            assert(p[k] < keys.len());
        }
    }
    vstd::set_lib::lemma_subset_equality(q.to_set(), r);
    assert forall|i: int| 0 <= i < keys.len() implies #[trigger] holds_position(p, i) by {
        assert(r.contains(i));
        assert(q.to_set().contains(i));
        let k = choose|k: int| 0 <= k < q.len() && q[k] == i;
        assert(p[k] == i);
    }
}


/// Law: sorting keeps every record: each one of `items` is somewhere in
/// the sorted result (and the result is no longer than `items`).
pub proof fn lemma_sort_keeps_every_item<T>(items: Seq<T>, keys: Seq<Seq<char>>, out: Seq<T>)
    requires
        sorted_by_keys(items, keys, out),
        items.len() == keys.len(),
    ensures
        out.len() == items.len(),
        forall|i: int| 0 <= i < items.len() ==> #[trigger] appears_in(out, items[i]),
{
    let p = choose|p: Seq<usize>|
        is_stable_order(keys, p) && forall|k: int| 0 <= k < out.len() ==> #[trigger] out[k]
            == items[p[k] as int];
    lemma_stable_order_is_permutation(keys, p);
    assert forall|i: int| 0 <= i < items.len() implies #[trigger] appears_in(out, items[i]) by {
        assert(holds_position(p, i));
        let k = choose|k: int| 0 <= k < p.len() && p[k] == i;
        assert(out[k] == items[p[k] as int]);
    }
}

/// Law: where each record's key is computed from the record by `f`, the
/// sorted records come in ascending order of key.
pub proof fn lemma_sort_is_ascending<T>(items: Seq<T>, out: Seq<T>, f: spec_fn(T) -> Seq<char>)
    requires
        sorted_by_keys(items, items.map_values(f), out),
    ensures
        forall|a: int, b: int| 0 <= a < b < out.len() ==> !lex_lt(f(out[b]), f(out[a])),
{
    let keys = items.map_values(f);
    let p = choose|p: Seq<usize>|
        is_stable_order(keys, p) && forall|k: int| 0 <= k < out.len() ==> #[trigger] out[k]
            == items[p[k] as int];
    assert forall|a: int, b: int| 0 <= a < b < out.len() implies !lex_lt(f(out[b]), f(out[a])) by {
        assert(goes_before(keys, p[a] as int, p[b] as int));
        assert(out[a] == items[p[a] as int]);
        assert(out[b] == items[p[b] as int]);
        lemma_lex_asymmetric(f(out[a]), f(out[b]));
        lemma_lex_irreflexive(f(out[a]));
    }
}

/// `a < b` in lexicographic code-point order.
pub fn lex_less(a: &Vec<char>, b: &Vec<char>) -> (r: bool)
    ensures
        r == lex_lt(a@, b@),
{
    let mut i: usize = 0;
    assert(a@.skip(0) =~= a@);
    assert(b@.skip(0) =~= b@);
    while i < a.len() && i < b.len() && a[i] == b[i]
        invariant
            i <= a.len(),
            i <= b.len(),
            lex_lt(a@, b@) == lex_lt(a@.skip(i as int), b@.skip(i as int)),
        decreases a.len() - i,
    {
        proof {
            assert(a@.skip(i as int).drop_first() =~= a@.skip(i + 1));
            assert(b@.skip(i as int).drop_first() =~= b@.skip(i + 1));
        }
        i = i + 1;
    }
    proof {
        if i < a.len() {
            assert(a@.skip(i as int)[0] == a@[i as int]);
        }
        if i < b.len() {
            assert(b@.skip(i as int)[0] == b@[i as int]);
        }
    }
    if i == a.len() {
        i < b.len()
    } else if i == b.len() {
        false
    } else {
        (a[i] as u32) < (b[i] as u32)
    }
}

/// Stable sort of `items` by `keys` (one key per item, in the same order),
/// ascending in code-point order.
pub fn sort_by_keys<T>(items: Vec<T>, keys: Vec<Vec<char>>) -> (out: Vec<T>)
    requires
        items.len() == keys.len(),
    ensures
        sorted_by_keys(items@, keys@.map_values(|k: Vec<char>| k@), out@),
{
    let ghost kv = keys@.map_values(|k: Vec<char>| k@);
    let ghost orig = items@;
    let n = items.len();
    let mut items = items;
    let mut keys = keys;
    let mut out: Vec<T> = Vec::new();
    let mut out_keys: Vec<Vec<char>> = Vec::new();
    let ghost mut p: Seq<usize> = Seq::empty();
    // Take the records from the back; each is placed before the first placed
    // record whose key is not smaller, which keeps equal keys in order.
    while items.len() > 0
        invariant
            items.len() == keys.len(),
            items.len() <= n,
            n == orig.len() == kv.len(),
            items@ == orig.take(items.len() as int),
            forall|k: int| 0 <= k < keys.len() ==> (#[trigger] keys@[k])@ == kv[k],
            out.len() == out_keys.len() == p.len() == n - items.len(),
            forall|k: int| 0 <= k < p.len() ==> items.len() <= #[trigger] p[k] < n,
            forall|k: int| 0 <= k < p.len() ==> out@[k] == orig[#[trigger] p[k] as int],
            forall|k: int| 0 <= k < p.len() ==> (#[trigger] out_keys@[k])@ == kv[p[k] as int],
            forall|a: int, b: int|
                0 <= a < b < p.len() ==> #[trigger] goes_before(kv, p[a] as int, p[b] as int),
        decreases items.len(),
    {
        let item = items.pop().unwrap();
        let key = keys.pop().unwrap();
        let i = items.len();
        proof {
            assert(orig[i as int] == item);
            assert(items@ =~= orig.take(i as int));
        }
        let mut j: usize = 0;
        while j < out_keys.len() && lex_less(&out_keys[j], &key)
            invariant
                j <= out_keys.len(),
                out_keys.len() == p.len(),
                key@ == kv[i as int],
                forall|k: int| 0 <= k < p.len() ==> (#[trigger] out_keys@[k])@ == kv[p[k] as int],
                forall|k: int| 0 <= k < j ==> lex_lt(kv[#[trigger] p[k] as int], kv[i as int]),
            decreases out_keys.len() - j,
        {
            j = j + 1;
        }
        proof {
            // every placed record from `j` on has a key >= this one
            assert forall|k: int| j <= k < p.len() implies !lex_lt(
                kv[#[trigger] p[k] as int],
                kv[i as int],
            ) by {
                if j < p.len() {
                    assert(!lex_lt(kv[p[j as int] as int], kv[i as int]));
                    if k > j {
                        assert(goes_before(kv, p[j as int] as int, p[k] as int));
                        if lex_lt(kv[p[k] as int], kv[i as int]) {
                            if lex_lt(kv[p[j as int] as int], kv[p[k] as int]) {
                                lemma_lex_transitive(
                                    kv[p[j as int] as int],
                                    kv[p[k] as int],
                                    kv[i as int],
                                );
                            }
                        }
                    }
                }
            }
        }
        out.insert(j, item);
        out_keys.insert(j, key);
        proof {
            let np = p.insert(j as int, i);
            assert forall|a: int, b: int| 0 <= a < b < np.len() implies #[trigger] goes_before(
                kv,
                np[a] as int,
                np[b] as int,
            ) by {
                if a < j && b == j {
                    assert(np[a] == p[a]);
                    assert(lex_lt(kv[p[a] as int], kv[i as int]));
                } else if a == j {
                    let q = np[b];
                    assert(q == p[b - 1]);
                    assert(!lex_lt(kv[q as int], kv[i as int]));
                    lemma_lex_total(kv[i as int], kv[q as int]);
                    assert(i < q);
                } else if b < j {
                    assert(np[a] == p[a] && np[b] == p[b]);
                } else if a < j {
                    assert(np[a] == p[a] && np[b] == p[b - 1]);
                    assert(goes_before(kv, p[a] as int, p[b - 1] as int));
                } else {
                    assert(np[a] == p[a - 1] && np[b] == p[b - 1]);
                    assert(goes_before(kv, p[a - 1] as int, p[b - 1] as int));
                }
            }
            assert forall|k: int| 0 <= k < np.len() implies items.len() <= #[trigger] np[k] < n by {
                if k < j {
                    assert(np[k] == p[k]);
                } else if k > j {
                    assert(np[k] == p[k - 1]);
                }
            }
            assert forall|k: int| 0 <= k < np.len() implies out@[k] == orig[#[trigger] np[k] as int] by {
                if k < j {
                    assert(np[k] == p[k]);
                } else if k > j {
                    assert(np[k] == p[k - 1]);
                }
            }
            assert forall|k: int| 0 <= k < np.len() implies (#[trigger] out_keys@[k])@
                == kv[np[k] as int] by {
                if k < j {
                    assert(np[k] == p[k]);
                } else if k > j {
                    assert(np[k] == p[k - 1]);
                }
            }
            p = np;
        }
    }
    proof {
        assert(is_stable_order(kv, p));
    }
    out
}

} // verus!
