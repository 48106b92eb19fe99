//! Orders on text and stable sorting by a key.
use vstd::prelude::*;
use crate::text::{ascii_lower, ascii_lower_char};

verus! {

/// `a` comes before `b` in code-point order, looking from position `i` on.
pub open spec fn text_lt_from(a: Seq<char>, b: Seq<char>, i: int) -> bool
    decreases a.len() - i,
{
    if i < 0 || i >= a.len() {
        0 <= i < b.len()
    } else if i >= b.len() {
        false
    } else if a[i] != b[i] {
        a[i] < b[i]
    } else {
        text_lt_from(a, b, i + 1)
    }
}

/// `a` comes strictly before `b` in the lexicographic order of code points
/// (the order of `str` comparison).
pub open spec fn text_lt(a: Seq<char>, b: Seq<char>) -> bool {
    text_lt_from(a, b, 0)
}

proof fn lemma_lt_from_trans(a: Seq<char>, b: Seq<char>, c: Seq<char>, i: int)
    requires
        0 <= i,
        text_lt_from(a, b, i),
        text_lt_from(b, c, i),
    ensures
        text_lt_from(a, c, i),
    decreases a.len() - i,
{
    if i < a.len() && i < b.len() && i < c.len() && a[i] == b[i] && b[i] == c[i] {
        lemma_lt_from_trans(a, b, c, i + 1);
    }
}

proof fn lemma_lt_from_irreflexive(a: Seq<char>, i: int)
    requires
        0 <= i,
    ensures
        !text_lt_from(a, a, i),
    decreases a.len() - i,
{
    if i < a.len() {
        lemma_lt_from_irreflexive(a, i + 1);
    }
}

/// The text order is transitive and irreflexive.
pub proof fn lemma_text_lt(a: Seq<char>, b: Seq<char>, c: Seq<char>)
    ensures
        text_lt(a, b) && text_lt(b, c) ==> text_lt(a, c),
        !text_lt(a, a),
{
    if text_lt(a, b) && text_lt(b, c) {
        lemma_lt_from_trans(a, b, c, 0);
    }
    lemma_lt_from_irreflexive(a, 0);
}

proof fn lemma_lt_from_total(a: Seq<char>, b: Seq<char>, i: int)
    requires
        0 <= i <= a.len(),
        i <= b.len(),
        a.take(i) == b.take(i),
    ensures
        text_lt_from(a, b, i) || text_lt_from(b, a, i) || a == b,
    decreases a.len() - i,
{
    if i < a.len() && i < b.len() && a[i] == b[i] {
        assert(a.take(i + 1) =~= a.take(i).push(a[i]));
        assert(b.take(i + 1) =~= b.take(i).push(b[i]));
        lemma_lt_from_total(a, b, i + 1);
    } else if i == a.len() && i == b.len() {
        assert(a =~= a.take(i));
        assert(b =~= b.take(i));
    } else if i < a.len() && i < b.len() {
        assert(a[i] != b[i]);
    }
}

/// The text order is total: of two different texts one comes first.
pub proof fn lemma_text_total(a: Seq<char>, b: Seq<char>)
    ensures
        text_lt(a, b) || text_lt(b, a) || a == b,
{
    assert(a.take(0) =~= b.take(0));
    lemma_lt_from_total(a, b, 0);
}

/// Facts of the order used with "not before": it is transitive, strictness
/// is one-way, and a text after `b` is not before what `b` is not before.
pub proof fn lemma_not_lt_trans(a: Seq<char>, b: Seq<char>, c: Seq<char>)
    ensures
        !text_lt(a, b) && !text_lt(b, c) ==> !text_lt(a, c),
        text_lt(a, b) ==> !text_lt(b, a),
        text_lt(b, a) && !text_lt(b, c) ==> !text_lt(a, c),
{
    lemma_text_lt(a, b, c);
    lemma_text_lt(b, a, b);
    lemma_text_lt(a, a, a);
    lemma_text_lt(b, b, b);
    lemma_text_total(a, b);
    lemma_text_total(b, c);
    lemma_text_total(a, c);
    lemma_text_lt(b, a, c);
    lemma_text_lt(a, c, b);
    lemma_text_lt(c, a, b);
    lemma_text_lt(b, c, a);
    lemma_text_lt(c, b, a);
    lemma_text_lt(a, b, a);
}

/// Whether `a` comes strictly before `b` in code-point order.
pub fn text_less(a: &Vec<char>, b: &Vec<char>) -> (r: bool)
    ensures
        r == text_lt(a@, b@),
{
    let mut i: usize = 0;
    while i < a.len() && i < b.len() && a[i] == b[i]
        invariant
            0 <= i <= a.len(),
            i <= b.len(),
            text_lt_from(a@, b@, 0) == text_lt_from(a@, b@, i as int),
        decreases a.len() - i,
    {
        i = i + 1;
    }
    if i >= a.len() {
        i < b.len()
    } else if i >= b.len() {
        false
    } else {
        a[i] < b[i]
    }
}

/// The characters of `s` with ASCII capitals made small.
pub fn ascii_lowercase_chars(s: &str) -> (r: Vec<char>)
    ensures
        r@ == ascii_lower(s@),
{
    let mut r: Vec<char> = Vec::new();
    for c in it: s.chars()
        invariant
            r@ == ascii_lower(it.seq().take(it.index())),
    {
        let ghost before = it.seq().take(it.index());
        let lc: char = if 'A' <= c && c <= 'Z' {
            let v: u8 = (c as u32 + 32) as u8;
            v as char
        } else {
            c
        };
        assert(lc == ascii_lower_char(c));
        r.push(lc);
        assert(it.seq().take(it.index() + 1) =~= before.push(c));
        assert(r@ =~= ascii_lower(it.seq().take(it.index() + 1)));
    }
    r
}

// ------------------------------------------------------------ sorting

/// `a` is placed strictly before `b`: in text order, or the reverse of it
/// when `descending`.
pub open spec fn precedes(a: Seq<char>, b: Seq<char>, descending: bool) -> bool {
    if descending {
        text_lt(b, a)
    } else {
        text_lt(a, b)
    }
}

/// Where index `k` goes among the sorted indices `r`: before the first
/// one, from position `p` on, whose key `keys[k]` precedes.
pub open spec fn text_pos(r: Seq<usize>, keys: Seq<Seq<char>>, k: int, descending: bool, p: int) -> int
    decreases r.len() - p,
{
    if p < 0 || p >= r.len() {
        r.len() as int
    } else if precedes(keys[k], keys[r[p] as int], descending) {
        p
    } else {
        text_pos(r, keys, k, descending, p + 1)
    }
}

/// The first `n` indices of `keys`, each put in turn after every index whose
/// key it does not precede.
pub open spec fn text_order(keys: Seq<Seq<char>>, descending: bool, n: int) -> Seq<usize>
    decreases n,
{
    if n <= 0 {
        seq![]
    } else {
        let r = text_order(keys, descending, n - 1);
        r.insert(text_pos(r, keys, n - 1, descending, 0), (n - 1) as usize)
    }
}

/// `r` lists each index below `n` once.
pub open spec fn is_permutation_of_range(r: Seq<usize>, n: nat) -> bool {
    &&& r.len() == n
    &&& forall|i: int| 0 <= i < r.len() ==> #[trigger] r[i] < n
    &&& forall|i: int, j: int| 0 <= i < j < r.len() ==> #[trigger] r[i] != #[trigger] r[j]
}

/// The indices of `keys` in a stable order by text: no key placed before a
/// key that precedes it, and equal keys in the order of their indices.
pub open spec fn stably_ordered_by_text(r: Seq<usize>, keys: Seq<Seq<char>>, descending: bool) -> bool {
    &&& forall|i: int, j: int|
        0 <= i < j < r.len() ==> !precedes(
            keys[#[trigger] r[j] as int],
            keys[#[trigger] r[i] as int],
            descending,
        )
    &&& forall|i: int, j: int|
        0 <= i < j < r.len() && keys[#[trigger] r[i] as int] == keys[#[trigger] r[j] as int] ==> r[i]
            < r[j]
}

fn placed_before(keys: &Vec<Vec<char>>, a: usize, b: usize, descending: bool) -> (r: bool)
    requires
        a < keys.len(),
        b < keys.len(),
    ensures
        r == precedes(keys@[a as int]@, keys@[b as int]@, descending),
{
    if descending {
        text_less(&keys[b], &keys[a])
    } else {
        text_less(&keys[a], &keys[b])
    }
}

/// The indices of `keys` sorted stably by their text: ascending, or
/// descending when asked. Items with equal keys keep their order.
pub fn stable_order_by_text(keys: &Vec<Vec<char>>, descending: bool) -> (r: Vec<usize>)
    ensures
        r@ == text_order(keys@.map_values(|k: Vec<char>| k@), descending, keys.len() as int),
        is_permutation_of_range(r@, keys.len() as nat),
        stably_ordered_by_text(r@, keys@.map_values(|k: Vec<char>| k@), descending),
{
    let ghost ks = keys@.map_values(|k: Vec<char>| k@);
    let mut r: Vec<usize> = Vec::new();
    let mut k: usize = 0;
    while k < keys.len()
        invariant
            0 <= k <= keys.len(),
            ks == keys@.map_values(|k: Vec<char>| k@),
            r@ == text_order(ks, descending, k as int),
            is_permutation_of_range(r@, k as nat),
            stably_ordered_by_text(r@, ks, descending),
        decreases keys.len() - k,
    {
        let mut p: usize = 0;
        while p < r.len() && !placed_before(keys, k, r[p], descending)
            invariant
                0 <= p <= r.len(),
                k < keys.len(),
                ks == keys@.map_values(|k: Vec<char>| k@),
                is_permutation_of_range(r@, k as nat),
                forall|i: int| 0 <= i < p ==> !precedes(ks[k as int], ks[#[trigger] r@[i] as int], descending),
                text_pos(r@, ks, k as int, descending, 0) == text_pos(r@, ks, k as int, descending, p as int),
            decreases r.len() - p,
        {
            p = p + 1;
        }
        assert(text_pos(r@, ks, k as int, descending, p as int) == p);
        let ghost before = r@;
        proof {
            if p < r.len() {
                assert(precedes(ks[k as int], ks[before[p as int] as int], descending));
            }
        }
        r.insert(p, k);
        proof {
            assert(r@ =~= before.insert(p as int, k));
            assert forall|i: int, j: int| 0 <= i < j < r@.len() implies #[trigger] r@[i] != #[trigger] r@[j] by {
                if i < p && j > p {
                    assert(r@[j] == before[j - 1]);
                }
                if i > p {
                    assert(r@[i] == before[i - 1] && r@[j] == before[j - 1]);
                }
            }
            assert forall|i: int, j: int|
                0 <= i < j < r@.len() implies !precedes(
                ks[#[trigger] r@[j] as int],
                ks[#[trigger] r@[i] as int],
                descending,
            ) by {
                let a = ks[k as int];
                if j == p {
                    assert(r@[i] == before[i]);
                } else if i == p {
                    let x = ks[before[p as int] as int];
                    let y = ks[before[j - 1] as int];
                    assert(r@[j] == before[j - 1]);
                    lemma_text_lt(x, x, x);
                    if j - 1 > p {
                        assert(!precedes(ks[before[j - 1] as int], ks[before[p as int] as int], descending));
                    }
                    assert(!precedes(y, x, descending));
                    assert(precedes(a, x, descending));
                    if precedes(y, a, descending) {
                        lemma_text_lt(y, a, x);
                        lemma_text_lt(x, a, y);
                    }
                } else if i < p && j < p {
                    assert(r@[i] == before[i] && r@[j] == before[j]);
                } else if i < p {
                    assert(r@[i] == before[i] && r@[j] == before[j - 1]);
                } else {
                    assert(r@[i] == before[i - 1] && r@[j] == before[j - 1]);
                }
            }
            assert forall|i: int, j: int|
                0 <= i < j < r@.len() && ks[#[trigger] r@[i] as int] == ks[#[trigger] r@[j] as int] implies r@[i]
                < r@[j] by {
                if j == p {
                    assert(r@[i] == before[i]);
                } else if i == p {
                    assert(r@[j] == before[j - 1]);
                    let x = ks[before[p as int] as int];
                    assert(precedes(ks[k as int], x, descending));
                    assert(!precedes(ks[before[j - 1] as int], x, descending));
                } else if i < p && j < p {
                    assert(r@[i] == before[i] && r@[j] == before[j]);
                } else if i < p {
                    assert(r@[i] == before[i] && r@[j] == before[j - 1]);
                } else {
                    assert(r@[i] == before[i - 1] && r@[j] == before[j - 1]);
                }
            }
        }
        k = k + 1;
    }
    r
}

/// Where index `k` goes among the sorted indices `r`: before the first one,
/// from position `p` on, with a larger key.
pub open spec fn key_pos(r: Seq<usize>, keys: Seq<i128>, k: int, p: int) -> int
    decreases r.len() - p,
{
    if p < 0 || p >= r.len() {
        r.len() as int
    } else if keys[r[p] as int] > keys[k] {
        p
    } else {
        key_pos(r, keys, k, p + 1)
    }
}

/// The first `n` indices of `keys`, each put in turn after every index with
/// a key no larger than its own.
pub open spec fn key_order(keys: Seq<i128>, n: int) -> Seq<usize>
    decreases n,
{
    if n <= 0 {
        seq![]
    } else {
        let r = key_order(keys, n - 1);
        r.insert(key_pos(r, keys, n - 1, 0), (n - 1) as usize)
    }
}

proof fn lemma_key_pos_bounds(r: Seq<usize>, keys: Seq<i128>, k: int, p: int)
    requires
        0 <= p <= r.len(),
    ensures
        p <= key_pos(r, keys, k, p) <= r.len(),
    decreases r.len() - p,
{
    if p < r.len() && !(keys[r[p] as int] > keys[k]) {
        lemma_key_pos_bounds(r, keys, k, p + 1);
    }
}

/// Ordering `n` keys gives `n` indices.
pub proof fn lemma_key_order_len(keys: Seq<i128>, n: int)
    requires
        0 <= n,
    ensures
        key_order(keys, n).len() == n,
    decreases n,
{
    if n > 0 {
        lemma_key_order_len(keys, n - 1);
        lemma_key_pos_bounds(key_order(keys, n - 1), keys, n - 1, 0);
    }
}

/// The indices of `keys` in a stable ascending order by key.
pub open spec fn stably_ordered_by_key(r: Seq<usize>, keys: Seq<i128>) -> bool {
    &&& forall|i: int, j: int|
        0 <= i < j < r.len() ==> keys[#[trigger] r[i] as int] <= keys[#[trigger] r[j] as int]
    &&& forall|i: int, j: int|
        0 <= i < j < r.len() && keys[#[trigger] r[i] as int] == keys[#[trigger] r[j] as int] ==> r[i]
            < r[j]
}

/// The indices of `keys` sorted stably by key, smallest first. Items with
/// equal keys keep their order.
pub fn stable_order_by_key(keys: &Vec<i128>) -> (r: Vec<usize>)
    ensures
        r@ == key_order(keys@, keys.len() as int),
        is_permutation_of_range(r@, keys.len() as nat),
        stably_ordered_by_key(r@, keys@),
{
    let mut r: Vec<usize> = Vec::new();
    let mut k: usize = 0;
    while k < keys.len()
        invariant
            0 <= k <= keys.len(),
            r@ == key_order(keys@, k as int),
            is_permutation_of_range(r@, k as nat),
            stably_ordered_by_key(r@, keys@),
        decreases keys.len() - k,
    {
        let mut p: usize = 0;
        while p < r.len() && keys[r[p]] <= keys[k]
            invariant
                0 <= p <= r.len(),
                k < keys.len(),
                is_permutation_of_range(r@, k as nat),
                forall|i: int| 0 <= i < p ==> keys@[#[trigger] r@[i] as int] <= keys@[k as int],
                key_pos(r@, keys@, k as int, 0) == key_pos(r@, keys@, k as int, p as int),
            decreases r.len() - p,
        {
            p = p + 1;
        }
        assert(key_pos(r@, keys@, k as int, p as int) == p);
        let ghost before = r@;
        r.insert(p, k);
        proof {
            assert(r@ =~= before.insert(p as int, k));
            assert forall|i: int, j: int| 0 <= i < j < r@.len() implies #[trigger] r@[i] != #[trigger] r@[j] by {
                if i < p && j > p {
                    assert(r@[j] == before[j - 1]);
                }
                if i > p {
                    assert(r@[i] == before[i - 1] && r@[j] == before[j - 1]);
                }
            }
            assert forall|i: int, j: int|
                0 <= i < j < r@.len() implies keys@[#[trigger] r@[i] as int] <= keys@[#[trigger] r@[j] as int] by {
                if j == p {
                    assert(r@[i] == before[i]);
                } else if i == p {
                    assert(r@[j] == before[j - 1]);
                    assert(keys@[before[p as int] as int] <= keys@[before[j - 1] as int]);
                } else if i < p && j < p {
                    assert(r@[i] == before[i] && r@[j] == before[j]);
                } else if i < p {
                    assert(r@[i] == before[i] && r@[j] == before[j - 1]);
                } else {
                    assert(r@[i] == before[i - 1] && r@[j] == before[j - 1]);
                }
            }
            assert forall|i: int, j: int|
                0 <= i < j < r@.len() && keys@[#[trigger] r@[i] as int] == keys@[#[trigger] r@[j] as int] implies r@[i]
                < r@[j] by {
                if j == p {
                    assert(r@[i] == before[i]);
                } else if i == p {
                    assert(r@[j] == before[j - 1]);
                    assert(keys@[before[p as int] as int] <= keys@[before[j - 1] as int]);
                } else if i < p && j < p {
                    assert(r@[i] == before[i] && r@[j] == before[j]);
                } else if i < p {
                    assert(r@[i] == before[i] && r@[j] == before[j - 1]);
                } else {
                    assert(r@[i] == before[i - 1] && r@[j] == before[j - 1]);
                }
            }
        }
        k = k + 1;
    }
    r
}

} // verus!
