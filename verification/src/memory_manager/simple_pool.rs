//! A free-list pool that keeps released device buffers, bucketed by
//! power-of-two size class, so that later requests of the same class can
//! reuse them without a new device allocation.

use vstd::prelude::*;
use std::collections::HashMap;
use vstd::multiset::Multiset;
use vstd::std_specs::iter::IteratorSpec;

verus! {

broadcast use vstd::std_specs::hash::group_hash_axioms;

/// At most this many buffers are kept per size class.
pub const MAX_CACHED_PER_SIZE: usize = 4;

/// Requests smaller than this are rounded up to it.
pub const MIN_ALLOC_SIZE: usize = 256;

/// `2^e`.
pub open spec fn two_pow(e: nat) -> nat
    decreases e,
{
    if e == 0 {
        1
    } else {
        2 * two_pow((e - 1) as nat)
    }
}

/// The largest size class: `2^63`.
pub open spec fn max_class() -> int {
    two_pow(63) as int
}

/// The smallest exponent `e' >= e` (capped at 63) with `size <= 2^e'`.
pub open spec fn class_exp_from(size: int, e: nat) -> nat
    decreases 63 - e,
{
    if e >= 63 || size <= two_pow(e) {
        e
    } else {
        class_exp_from(size, e + 1)
    }
}

/// The size class of a request: the smallest power of two that is at
/// least `max(size, 256)`.
pub open spec fn size_class(size: int) -> int {
    two_pow(class_exp_from(size, 8)) as int
}

/// `c` is one of the size classes `2^8, 2^9, ..., 2^63`.
pub open spec fn is_size_class(c: int) -> bool {
    256 <= c <= usize::MAX && c <= max_class() && size_class(c) == c
}

/// `size` has a size class that a `usize` can hold.
pub open spec fn class_fits(size: int) -> bool {
    size <= max_class() && size_class(size) <= usize::MAX
}

pub proof fn lemma_two_pow_values()
    ensures
        two_pow(8) == 256,
        two_pow(63) == 0x8000_0000_0000_0000,
{
    reveal_with_fuel(two_pow, 64);
    assert(two_pow(8) == 256);
    assert(two_pow(63) == 0x8000_0000_0000_0000);
}

pub proof fn lemma_two_pow_pos(e: nat)
    ensures
        two_pow(e) >= 1,
    decreases e,
{
    if e > 0 {
        lemma_two_pow_pos((e - 1) as nat);
    }
}

pub proof fn lemma_two_pow_strictly_increases(a: nat, b: nat)
    requires
        a < b,
    ensures
        two_pow(a) < two_pow(b),
    decreases b,
{
    lemma_two_pow_pos((b - 1) as nat);
    if a < b - 1 {
        lemma_two_pow_strictly_increases(a, (b - 1) as nat);
    }
}

pub proof fn lemma_two_pow_injective(a: nat, b: nat)
    requires
        two_pow(a) == two_pow(b),
    ensures
        a == b,
{
    if a < b {
        lemma_two_pow_strictly_increases(a, b);
    }
    if b < a {
        lemma_two_pow_strictly_increases(b, a);
    }
}

/// What the exponent search finds.
pub proof fn lemma_class_exp_from(size: int, e: nat)
    requires
        e <= 63,
        size <= max_class(),
    ensures
        e <= class_exp_from(size, e) <= 63,
        size <= two_pow(class_exp_from(size, e)),
        class_exp_from(size, e) == e || two_pow((class_exp_from(size, e) - 1) as nat) < size,
    decreases 63 - e,
{
    if e >= 63 || size <= two_pow(e) {
    } else {
        lemma_class_exp_from(size, e + 1);
    }
}

/// The size class of `size` is a power of two between 256 and `2^63`,
/// at least `size`, and the least such power of two.
pub proof fn lemma_size_class(size: int)
    requires
        size <= max_class(),
    ensures
        size_class(size) <= usize::MAX ==> is_size_class(size_class(size)),
        size_class(size) <= max_class(),
        size <= size_class(size),
        256 <= size_class(size),
        size_class(size) == 256 || size_class(size) < 2 * size,
        size_class(size) == two_pow(class_exp_from(size, 8)),
        8 <= class_exp_from(size, 8) <= 63,
{
    lemma_two_pow_values();
    let e = class_exp_from(size, 8);
    lemma_class_exp_from(size, 8);
    if e > 8 {
        assert(two_pow(e) == 2 * two_pow((e - 1) as nat));
    }
    lemma_two_pow_strictly_increases(8, 63);
    if e < 63 {
        lemma_two_pow_strictly_increases(e, 63);
    }
    if 8 <= e {
        if e > 8 {
            lemma_two_pow_strictly_increases(8, e);
        }
    }
    lemma_class_of_power(e);
}

/// A power of two `2^e` with `8 <= e <= 63` is its own size class.
pub proof fn lemma_class_of_power(e: nat)
    requires
        8 <= e <= 63,
    ensures
        class_exp_from(two_pow(e) as int, 8) == e,
        size_class(two_pow(e) as int) == two_pow(e),
{
    lemma_two_pow_values();
    lemma_class_exp_search(two_pow(e) as int, e, 8);
}

proof fn lemma_class_exp_search(size: int, target: nat, e: nat)
    requires
        8 <= e <= target <= 63,
        size == two_pow(target),
    ensures
        class_exp_from(size, e) == target,
    decreases 63 - e,
{
    if e < target {
        lemma_two_pow_strictly_increases(e, target);
        lemma_class_exp_search(size, target, e + 1);
    }
}


/// The buffers cached for size class `c` (empty when `c` has no entry).
pub open spec fn list_at(m: Map<usize, Seq<u64>>, c: int) -> Seq<u64> {
    if 0 <= c <= usize::MAX && m.contains_key(c as usize) {
        m[c as usize]
    } else {
        Seq::empty()
    }
}

/// The shape every pool keeps: keys are size classes, no class holds more
/// than `MAX_CACHED_PER_SIZE` buffers, and no cached pointer is null.
pub open spec fn lists_wf(m: Map<usize, Seq<u64>>) -> bool {
    &&& forall|k: usize| #[trigger] m.contains_key(k) ==> is_size_class(k as int)
    &&& forall|k: usize| #[trigger] m.contains_key(k) ==> m[k].len() <= MAX_CACHED_PER_SIZE
    &&& forall|k: usize, i: int|
        #![trigger m[k][i]]
        m.contains_key(k) && 0 <= i < m[k].len() ==> m[k][i] != 0
}

/// `p` is held in the list of some class.
pub open spec fn is_cached(m: Map<usize, Seq<u64>>, p: u64) -> bool {
    exists|k: usize, i: int| m.contains_key(k) && 0 <= i < m[k].len() && #[trigger] m[k][i] == p
}

/// No buffer is held twice, in one class or in two.
pub open spec fn cached_distinct(m: Map<usize, Seq<u64>>) -> bool {
    forall|k1: usize, i1: int, k2: usize, i2: int|
        #![trigger m[k1][i1], m[k2][i2]]
        m.contains_key(k1) && m.contains_key(k2) && 0 <= i1 < m[k1].len() && 0 <= i2 < m[k2].len()
            && m[k1][i1] == m[k2][i2] ==> k1 == k2 && i1 == i2
}

/// Taking the last buffer of class `c` keeps the buffers distinct, leaves
/// that buffer uncached, and caches nothing new.
pub proof fn lemma_pop_keeps_distinct(m: Map<usize, Seq<u64>>, c: usize)
    requires
        cached_distinct(m),
        m.contains_key(c),
        m[c].len() > 0,
    ensures
        cached_distinct(m.insert(c, m[c].drop_last())),
        !is_cached(m.insert(c, m[c].drop_last()), m[c].last()),
        forall|p: u64| #[trigger] is_cached(m.insert(c, m[c].drop_last()), p) ==> is_cached(m, p),
{
    let m2 = m.insert(c, m[c].drop_last());
    assert forall|k: usize, i: int| m2.contains_key(k) && 0 <= i < m2[k].len() implies
        #[trigger] m2[k][i] == m[k][i] by {
        if k == c {
            assert(m2[k][i] == m[c].drop_last()[i]);
        }
    }
    let last = m[c].last();
    assert(m[c][m[c].len() - 1] == last);
    if is_cached(m2, last) {
        let (k, i) = choose|k: usize, i: int| m2.contains_key(k) && 0 <= i < m2[k].len() && #[trigger] m2[k][i] == last;
        assert(m2[k][i] == m[k][i]);
        assert(m[k][i] == m[c][m[c].len() - 1]);
    }
    assert forall|p: u64| #[trigger] is_cached(m2, p) implies is_cached(m, p) by {
        let (k, i) = choose|k: usize, i: int| m2.contains_key(k) && 0 <= i < m2[k].len() && #[trigger] m2[k][i] == p;
        assert(m2[k][i] == m[k][i]);
    }
    assert forall|k1: usize, i1: int, k2: usize, i2: int|
        m2.contains_key(k1) && m2.contains_key(k2) && 0 <= i1 < m2[k1].len() && 0 <= i2 < m2[k2].len()
            && #[trigger] m2[k1][i1] == #[trigger] m2[k2][i2] implies k1 == k2 && i1 == i2 by {
        assert(m2[k1][i1] == m[k1][i1]);
        assert(m2[k2][i2] == m[k2][i2]);
    }
}

/// Appending a buffer that is not cached to class `c` keeps the buffers
/// distinct and caches nothing else new.
pub proof fn lemma_push_keeps_distinct(m: Map<usize, Seq<u64>>, c: usize, p: u64)
    requires
        cached_distinct(m),
        !is_cached(m, p),
    ensures
        cached_distinct(m.insert(c, list_at(m, c as int).push(p))),
        forall|q: u64| #[trigger] is_cached(m.insert(c, list_at(m, c as int).push(p)), q) ==> is_cached(m, q)
            || q == p,
{
    let l = list_at(m, c as int);
    let m2 = m.insert(c, l.push(p));
    let n = l.len() as int;
    assert forall|k: usize, i: int| m2.contains_key(k) && 0 <= i < m2[k].len() && !(k == c && i == n) implies
        m.contains_key(k) && 0 <= i < m[k].len() && #[trigger] m2[k][i] == m[k][i] by {
        if k == c {
            assert(m2[k][i] == l.push(p)[i]);
        }
    }
    assert(m2[c][n] == p);
    assert forall|q: u64| #[trigger] is_cached(m2, q) implies is_cached(m, q) || q == p by {
        let (k, i) = choose|k: usize, i: int| m2.contains_key(k) && 0 <= i < m2[k].len() && #[trigger] m2[k][i] == q;
        if !(k == c && i == n) {
            assert(m2[k][i] == m[k][i]);
        }
    }
    assert forall|k1: usize, i1: int, k2: usize, i2: int|
        m2.contains_key(k1) && m2.contains_key(k2) && 0 <= i1 < m2[k1].len() && 0 <= i2 < m2[k2].len()
            && #[trigger] m2[k1][i1] == #[trigger] m2[k2][i2] implies k1 == k2 && i1 == i2 by {
        let a = k1 == c && i1 == n;
        let b = k2 == c && i2 == n;
        if !a {
            assert(m2[k1][i1] == m[k1][i1]);
        }
        if !b {
            assert(m2[k2][i2] == m[k2][i2]);
        }
        if a && !b {
            assert(m[k2][i2] == p);
        }
        if b && !a {
            assert(m[k1][i1] == p);
        }
    }
}

/// Bytes held in class `2^e`.
pub open spec fn class_bytes(m: Map<usize, Seq<u64>>, e: nat) -> int {
    (two_pow(e) * list_at(m, two_pow(e) as int).len()) as int
}

/// Bytes held in the classes `2^8 .. 2^(hi-1)`.
pub open spec fn bytes_upto(m: Map<usize, Seq<u64>>, hi: nat) -> int
    decreases hi,
{
    if hi <= 8 {
        0
    } else {
        bytes_upto(m, (hi - 1) as nat) + class_bytes(m, (hi - 1) as nat)
    }
}

/// Bytes held in all classes.
pub open spec fn pooled_bytes(m: Map<usize, Seq<u64>>) -> int {
    bytes_upto(m, 64)
}

/// Pointers held in the classes `2^8 .. 2^(hi-1)`.
pub open spec fn ptrs_upto(m: Map<usize, Seq<u64>>, hi: nat) -> Multiset<u64>
    decreases hi,
{
    if hi <= 8 {
        Multiset::empty()
    } else {
        ptrs_upto(m, (hi - 1) as nat).add(list_at(m, two_pow((hi - 1) as nat) as int).to_multiset())
    }
}

/// Every pointer held by the pool, with multiplicity.
pub open spec fn pooled_ptrs(m: Map<usize, Seq<u64>>) -> Multiset<u64> {
    ptrs_upto(m, 64)
}

pub proof fn lemma_bytes_upto_nonneg(m: Map<usize, Seq<u64>>, hi: nat)
    ensures
        bytes_upto(m, hi) >= 0,
    decreases hi,
{
    if hi > 8 {
        lemma_bytes_upto_nonneg(m, (hi - 1) as nat);
        lemma_two_pow_pos((hi - 1) as nat);
        assert(class_bytes(m, (hi - 1) as nat) >= 0) by (nonlinear_arith)
            requires
                two_pow((hi - 1) as nat) >= 1,
        ;
    }
}

/// The bytes of one class are part of the total.
pub proof fn lemma_bytes_upto_ge(m: Map<usize, Seq<u64>>, e0: nat, hi: nat)
    requires
        8 <= e0 < hi,
    ensures
        bytes_upto(m, hi) >= class_bytes(m, e0),
    decreases hi,
{
    if e0 < hi - 1 {
        lemma_bytes_upto_ge(m, e0, (hi - 1) as nat);
        lemma_two_pow_pos((hi - 1) as nat);
        assert(class_bytes(m, (hi - 1) as nat) >= 0) by (nonlinear_arith)
            requires
                two_pow((hi - 1) as nat) >= 1,
        ;
    } else {
        lemma_bytes_upto_nonneg(m, (hi - 1) as nat);
    }
}

/// Replacing the list of class `2^e0` changes the total by the bytes
/// added or removed there, and by nothing else.
pub proof fn lemma_bytes_upto_insert(m: Map<usize, Seq<u64>>, e0: nat, l: Seq<u64>, hi: nat)
    requires
        8 <= e0 <= 63,
        two_pow(e0) <= usize::MAX,
        hi <= 64,
    ensures
        bytes_upto(m.insert(two_pow(e0) as usize, l), hi) == bytes_upto(m, hi) + (if e0 < hi {
            two_pow(e0) * l.len() - class_bytes(m, e0)
        } else {
            0
        }),
    decreases hi,
{
    let c = two_pow(e0) as usize;
    let m2 = m.insert(c, l);
    if hi > 8 {
        let e = (hi - 1) as nat;
        lemma_bytes_upto_insert(m, e0, l, e);
        if e != e0 {
            if two_pow(e) == two_pow(e0) {
                lemma_two_pow_injective(e, e0);
            }
            assert(list_at(m2, two_pow(e) as int) == list_at(m, two_pow(e) as int));
        } else {
            assert(list_at(m2, c as int) == l);
        }
    }
}

/// The size class of a request is the smallest size class that holds it:
/// it is a size class, it is at least the request, and every size class
/// at least the request is at least it.
pub proof fn law_size_class_minimal(size: int, c: int)
    requires
        class_fits(size),
        is_size_class(c),
        size <= c,
    ensures
        is_size_class(size_class(size)),
        size <= size_class(size),
        size_class(size) <= c,
{
    lemma_size_class(size);
    lemma_size_class(c);
    let e = class_exp_from(size, 8);
    let ec = class_exp_from(c, 8);
    if ec < e {
        lemma_class_exp_from(size, 8);
        lemma_two_pow_increases(ec, (e - 1) as nat);
        assert(two_pow(ec) <= two_pow((e - 1) as nat));
    }
    lemma_two_pow_increases(e, ec);
}

/// Caching a buffer and then asking for one of the same class gives that
/// buffer back and leaves every class holding what it held before.
pub proof fn law_put_then_get(m: Map<usize, Seq<u64>>, c: usize, ptr: u64)
    ensures
        ({
            let put = m.insert(c, list_at(m, c as int).push(ptr));
            let l = list_at(put, c as int);
            &&& l.len() > 0
            &&& l.last() == ptr
            &&& forall|k: int| #[trigger] list_at(put.insert(c, l.drop_last()), k) == list_at(m, k)
        }),
{
    let put = m.insert(c, list_at(m, c as int).push(ptr));
    let l = list_at(put, c as int);
    assert(l == list_at(m, c as int).push(ptr));
    assert(l.drop_last() =~= list_at(m, c as int));
    assert forall|k: int| #[trigger] list_at(put.insert(c, l.drop_last()), k) == list_at(m, k) by {
        if k == c as int {
        } else {
            if 0 <= k <= usize::MAX {
                assert(k as usize != c);
            }
        }
    }
}

/// A buffer a pool has just accepted is the one the next request of its
/// class takes back, and afterwards every class holds what it held before
/// the buffer was offered and the byte count is what it was. Here `p1` is
/// what `try_put(ptr, put_size)` made of `p0` when it returned `true`, and
/// `p2` and `got` are what `try_get(get_size)` made of `p1` and returned,
/// for a request of the same class.
pub proof fn law_pool_put_then_get(
    p0: SimplePool,
    p1: SimplePool,
    p2: SimplePool,
    ptr: u64,
    put_size: usize,
    get_size: usize,
    got: Option<(u64, usize)>,
)
    requires
        class_fits(put_size as int),
        class_fits(get_size as int),
        size_class(get_size as int) == size_class(put_size as int),
        p1.lists() == p0.lists().insert(
            size_class(put_size as int) as usize,
            list_at(p0.lists(), size_class(put_size as int)).push(ptr),
        ),
        p1.bytes() == p0.bytes() + size_class(put_size as int),
        ({
            let c = size_class(get_size as int);
            let l = list_at(p1.lists(), c);
            if l.len() > 0 {
                &&& got == Some((l.last(), c as usize))
                &&& p2.lists() == p1.lists().insert(c as usize, l.drop_last())
                &&& p2.bytes() == p1.bytes() - c
            } else {
                &&& got is None
                &&& p2.lists() == p1.lists()
                &&& p2.bytes() == p1.bytes()
            }
        }),
    ensures
        got == Some((ptr, size_class(put_size as int) as usize)),
        forall|k: int| #[trigger] list_at(p2.lists(), k) == list_at(p0.lists(), k),
        p2.bytes() == p0.bytes(),
{
    let c = size_class(put_size as int);
    lemma_size_class(put_size as int);
    law_put_then_get(p0.lists(), c as usize, ptr);
}

/// A key of a well-formed map is `2^e` for an exponent `8 <= e <= 63`, and
/// its list is what `list_at` gives for it.
proof fn lemma_key_is_power(m: Map<usize, Seq<u64>>, k: usize) -> (e: nat)
    requires
        lists_wf(m),
        m.contains_key(k),
    ensures
        8 <= e <= 63,
        two_pow(e) == k,
        list_at(m, two_pow(e) as int) == m[k],
{
    lemma_size_class(k as int);
    class_exp_from(k as int, 8)
}

proof fn lemma_ptrs_upto_count(m: Map<usize, Seq<u64>>, p: u64, hi: nat)
    requires
        lists_wf(m),
        hi <= 64,
    ensures
        ptrs_upto(m, hi).count(p) > 0 <==> exists|e: nat|
            8 <= e < hi && #[trigger] list_at(m, two_pow(e) as int).contains(p),
        cached_distinct(m) ==> ptrs_upto(m, hi).count(p) <= 1,
    decreases hi,
{
    broadcast use vstd::seq_lib::group_to_multiset_ensures;
    broadcast use vstd::multiset::group_multiset_axioms;

    if hi > 8 {
        let e0 = (hi - 1) as nat;
        let l = list_at(m, two_pow(e0) as int);
        lemma_ptrs_upto_count(m, p, e0);
        assert(ptrs_upto(m, hi).count(p) == ptrs_upto(m, e0).count(p) + l.to_multiset().count(p));
        if exists|e: nat| 8 <= e < hi && #[trigger] list_at(m, two_pow(e) as int).contains(p) {
            let e = choose|e: nat| 8 <= e < hi && #[trigger] list_at(m, two_pow(e) as int).contains(p);
            if e < e0 {
                assert(list_at(m, two_pow(e) as int).contains(p));
            }
        }
        if cached_distinct(m) && l.len() > 0 {
            let k = two_pow(e0) as usize;
            assert(m.contains_key(k) && l == m[k]);
            assert(l.no_duplicates()) by {
                assert forall|i: int, j: int| 0 <= i < l.len() && 0 <= j < l.len() && i != j implies l[i]
                    != l[j] by {
                    assert(m[k][i] == l[i] && m[k][j] == l[j]);
                }
            }
            l.lemma_multiset_has_no_duplicates();
            if ptrs_upto(m, e0).count(p) > 0 && l.contains(p) {
                let e = choose|e: nat| 8 <= e < e0 && #[trigger] list_at(m, two_pow(e) as int).contains(p);
                let k2 = two_pow(e) as usize;
                lemma_two_pow_strictly_increases(e, e0);
                let i = choose|i: int| 0 <= i < l.len() && l[i] == p;
                let l2 = list_at(m, two_pow(e) as int);
                let i2 = choose|i2: int| 0 <= i2 < l2.len() && l2[i2] == p;
                assert(m.contains_key(k2) && l2 == m[k2]);
                assert(m[k][i] == m[k2][i2]);
                assert(false);
            }
        }
    }
}

/// The buffers `pooled_ptrs` counts, which a drain hands back, are exactly
/// the cached ones; when no buffer is cached twice, each counts once.
pub proof fn law_pooled_ptrs_are_the_cached_buffers(m: Map<usize, Seq<u64>>, p: u64)
    requires
        lists_wf(m),
    ensures
        pooled_ptrs(m).contains(p) <==> is_cached(m, p),
        cached_distinct(m) ==> pooled_ptrs(m).count(p) <= 1,
{
    lemma_ptrs_upto_count(m, p, 64);
    if is_cached(m, p) {
        let (k, i) = choose|k: usize, i: int| m.contains_key(k) && 0 <= i < m[k].len() && #[trigger] m[k][i] == p;
        let e = lemma_key_is_power(m, k);
        assert(list_at(m, two_pow(e) as int).contains(p)) by {
            assert(list_at(m, two_pow(e) as int)[i] == p);
        }
    }
    if pooled_ptrs(m).contains(p) {
        let e = choose|e: nat| 8 <= e < 64 && #[trigger] list_at(m, two_pow(e) as int).contains(p);
        let l = list_at(m, two_pow(e) as int);
        let i = choose|i: int| 0 <= i < l.len() && l[i] == p;
        let k = two_pow(e) as usize;
        assert(m.contains_key(k) && m[k] == l);
        assert(m[k][i] == p);
    }
}

/// A free-list pool of device buffers bucketed by size class.
pub struct SimplePool {
    /// Size class -> cached buffers (device addresses).
    free_lists: HashMap<usize, Vec<u64>>,
    /// Total bytes currently in the pool.
    pool_bytes: usize,
}

impl SimplePool {
    /// The cached buffers of each size class.
    pub closed spec fn lists(&self) -> Map<usize, Seq<u64>> {
        Map::new(|k: usize| self.free_lists@.contains_key(k), |k: usize| self.free_lists@[k]@)
    }

    /// The byte counter the pool keeps.
    pub closed spec fn bytes(&self) -> nat {
        self.pool_bytes as nat
    }

    /// Well-formedness: the lists have the pool's shape and the byte
    /// counter equals the bytes they hold.
    pub closed spec fn wf(&self) -> bool {
        &&& lists_wf(self.lists())
        &&& self.pool_bytes == pooled_bytes(self.lists())
    }

    /// The shape every pool keeps: no size class holds more than
    /// `MAX_CACHED_PER_SIZE` buffers, every key is a size class, no cached
    /// pointer is null, and the byte counter is the sum of the class sizes
    /// of the cached buffers.
    pub proof fn law_cache_shape(&self)
        requires
            self.wf(),
        ensures
            lists_wf(self.lists()),
            self.bytes() == pooled_bytes(self.lists()),
    {
    }

    /// An empty pool.
    pub fn new() -> (pool: Self)
        ensures
            pool.wf(),
            pool.lists() == Map::<usize, Seq<u64>>::empty(),
            pool.bytes() == 0,
    {
        let pool = SimplePool { free_lists: HashMap::new(), pool_bytes: 0 };
        proof {
            assert(pool.lists() =~= Map::<usize, Seq<u64>>::empty());
            lemma_bytes_upto_zero_when_empty(pool.lists(), 64);
        }
        pool
    }

    /// Rounds `size` up to its size class: the smallest power of two at
    /// least `max(size, MIN_ALLOC_SIZE)`.
    pub fn size_class(size: usize) -> (c: usize)
        requires
            class_fits(size as int),
        ensures
            c == size_class(size as int),
            is_size_class(c as int),
    {
        proof {
            lemma_two_pow_values();
            lemma_size_class(size as int);
        }
        let mut c: usize = MIN_ALLOC_SIZE;
        let ghost mut e: nat = 8;
        while c < size
            invariant
                8 <= e <= class_exp_from(size as int, 8),
                c == two_pow(e),
                class_fits(size as int),
                class_exp_from(size as int, 8) == class_exp_from(size as int, e),
                size_class(size as int) == two_pow(class_exp_from(size as int, 8)),
                class_exp_from(size as int, 8) <= 63,
                size <= size_class(size as int),
            decreases 63 - e,
        {
            proof {
                if e == class_exp_from(size as int, 8) {
                    assert(false);
                }
                lemma_two_pow_increases((e + 1) as nat, class_exp_from(size as int, 8));
            }
            c = c * 2;
            proof {
                e = e + 1;
            }
        }
        c
    }

    /// Takes a cached buffer of the size class of `size`, if one is there.
    /// Returns the buffer and its class size.
    pub fn try_get(&mut self, size: usize) -> (r: Option<(u64, usize)>)
        requires
            old(self).wf(),
            class_fits(size as int),
        ensures
            final(self).wf(),
            ({
                let c = size_class(size as int);
                let l = list_at(old(self).lists(), c);
                if l.len() > 0 {
                    &&& r == Some((l.last(), c as usize))
                    &&& final(self).lists() == old(self).lists().insert(c as usize, l.drop_last())
                    &&& final(self).bytes() == old(self).bytes() - c
                } else {
                    &&& r is None
                    &&& final(self).lists() == old(self).lists()
                    &&& final(self).bytes() == old(self).bytes()
                }
            }),
    {
        let size_class = Self::size_class(size);
        let ghost old_lists = self.lists();
        match self.free_lists.remove(&size_class) {
            Some(mut list) => {
                assert(list@ == list_at(old_lists, size_class as int));
                match list.pop() {
                    Some(ptr) => {
                        self.free_lists.insert(size_class, list);
                        proof {
                            let e = class_exp_from(size as int, 8);
                            lemma_size_class(size as int);
                            assert(self.lists() =~= old_lists.insert(size_class, list@));
                            lemma_bytes_upto_insert(old_lists, e, list@, 64);
                            lemma_bytes_upto_ge(old_lists, e, 64);
                            let n = list@.len() as int;
                            let cc = size_class as int;
                            assert(class_bytes(old_lists, e) == cc * (n + 1));
                            assert(cc * n - cc * (n + 1) == -cc && cc * (n + 1) >= cc) by (nonlinear_arith)
                                requires
                                    n >= 0,
                                    cc >= 0,
                            ;
                            assert forall|k: usize, i: int|
                                self.lists().contains_key(k) && 0 <= i < self.lists()[k].len() implies
                                #[trigger] self.lists()[k][i] != 0 by {
                                if k == size_class {
                                    assert(self.lists()[k][i] == old_lists[k][i]);
                                }
                            }
                        }
                        self.pool_bytes = self.pool_bytes - size_class;
                        Some((ptr, size_class))
                    },
                    None => {
                        self.free_lists.insert(size_class, list);
                        proof {
                            assert(self.lists() =~= old_lists);
                        }
                        None
                    },
                }
            },
            None => {
                proof {
                    assert(self.lists() =~= old_lists);
                }
                None
            },
        }
    }

    /// Offers `ptr`, a buffer requested with `size`, to the pool. Returns
    /// `false`, leaving the pool unchanged, when its class already holds
    /// `MAX_CACHED_PER_SIZE` buffers (the caller then frees it).
    pub fn try_put(&mut self, ptr: u64, size: usize) -> (cached: bool)
        requires
            old(self).wf(),
            ptr != 0,
            class_fits(size as int),
            old(self).bytes() + size_class(size as int) <= usize::MAX,
        ensures
            final(self).wf(),
            ({
                let c = size_class(size as int);
                let l = list_at(old(self).lists(), c);
                if l.len() >= MAX_CACHED_PER_SIZE {
                    &&& !cached
                    &&& final(self).lists() == old(self).lists()
                    &&& final(self).bytes() == old(self).bytes()
                } else {
                    &&& cached
                    &&& final(self).lists() == old(self).lists().insert(c as usize, l.push(ptr))
                    &&& final(self).bytes() == old(self).bytes() + c
                }
            }),
    {
        let size_class = Self::size_class(size);
        let ghost old_lists = self.lists();
        let mut list = match self.free_lists.remove(&size_class) {
            Some(l) => l,
            None => Vec::new(),
        };
        assert(list@ == list_at(old_lists, size_class as int));
        if list.len() >= MAX_CACHED_PER_SIZE {
            self.free_lists.insert(size_class, list);
            proof {
                assert(self.lists() =~= old_lists);
            }
            return false;
        }
        list.push(ptr);
        self.free_lists.insert(size_class, list);
        proof {
            let e = class_exp_from(size as int, 8);
            lemma_size_class(size as int);
            assert(self.lists() =~= old_lists.insert(size_class, list@));
            lemma_bytes_upto_insert(old_lists, e, list@, 64);
            let n = list@.len() as int;
            let cc = size_class as int;
            assert(class_bytes(old_lists, e) == cc * (n - 1));
            assert(cc * n - cc * (n - 1) == cc) by (nonlinear_arith);
            assert forall|k: usize, i: int|
                self.lists().contains_key(k) && 0 <= i < self.lists()[k].len() implies
                #[trigger] self.lists()[k][i] != 0 by {
                if k != size_class {
                    assert(self.lists()[k] == old_lists[k]);
                } else if i < list@.len() - 1 {
                    assert(self.lists()[k][i] == old_lists[k][i]);
                }
            }
        }
        self.pool_bytes = self.pool_bytes + size_class;
        true
    }

    /// Empties the pool and returns every buffer it held.
    pub fn drain_all(&mut self) -> (all: Vec<u64>)
        requires
            old(self).wf(),
        ensures
            final(self).wf(),
            final(self).lists() == Map::<usize, Seq<u64>>::empty(),
            final(self).bytes() == 0,
            all@.to_multiset() == pooled_ptrs(old(self).lists()),
            forall|p: u64| #[trigger] all@.contains(p) <==> is_cached(old(self).lists(), p),
    {
        let ghost old_lists = self.lists();
        let mut all: Vec<u64> = Vec::new();
        let mut e: usize = 8;
        let mut c: usize = MIN_ALLOC_SIZE;
        let mut done = false;
        proof {
            lemma_two_pow_values();
            broadcast use vstd::seq_lib::group_to_multiset_ensures;
            assert(all@.to_multiset() =~= Multiset::empty());
        }
        while !done
            invariant
                8 <= e <= 64,
                !done ==> e <= 63 && c == two_pow(e as nat),
                done ==> e == 64 || two_pow(e as nat) > usize::MAX,
                all@.to_multiset() == ptrs_upto(old_lists, e as nat),
                forall|k: usize| #[trigger] self.free_lists@.contains_key(k) ==> old_lists.contains_key(k)
                    && self.free_lists@[k]@ == old_lists[k],
                forall|e2: nat| e <= e2 <= 63 ==> #[trigger] list_at(self.lists(), two_pow(e2) as int)
                    == list_at(old_lists, two_pow(e2) as int),
            decreases 64 - e,
        {
            let ghost before = self.lists();
            let ghost all_before = all@;
            let ghost ge = e as nat;
            assert(list_at(self.lists(), two_pow(ge) as int) == list_at(old_lists, two_pow(ge) as int));
            match self.free_lists.remove(&c) {
                Some(mut list) => {
                    assert(list@ == list_at(old_lists, c as int));
                    all.append(&mut list);
                    proof {
                        vstd::seq_lib::lemma_multiset_commutative(all_before, list_at(old_lists, c as int));
                    }
                },
                None => {
                    proof {
                        assert(list_at(old_lists, c as int) =~= Seq::<u64>::empty());
                        assert(all@ =~= all_before + list_at(old_lists, c as int));
                        vstd::seq_lib::lemma_multiset_commutative(all_before, list_at(old_lists, c as int));
                    }
                },
            }
            proof {
                assert(ptrs_upto(old_lists, ge + 1) == ptrs_upto(old_lists, ge).add(
                    list_at(old_lists, two_pow(ge) as int).to_multiset()));
                assert forall|e2: nat| ge + 1 <= e2 <= 63 implies #[trigger] list_at(self.lists(), two_pow(e2) as int)
                    == list_at(old_lists, two_pow(e2) as int) by {
                    lemma_two_pow_strictly_increases(ge, e2);
                    assert(list_at(self.lists(), two_pow(e2) as int) == list_at(before, two_pow(e2) as int));
                }
            }
            if e == 63 || c > usize::MAX / 2 {
                done = true;
                proof {
                    if e < 63 {
                        assert(two_pow(ge + 1) == 2 * two_pow(ge));
                    }
                }
            } else {
                proof {
                    assert(two_pow(ge + 1) == 2 * two_pow(ge));
                }
                c = c * 2;
            }
            e = e + 1;
        }
        proof {
            lemma_ptrs_upto_rest_empty(old_lists, e as nat, 64);
        }
        proof {
            broadcast use vstd::seq_lib::group_to_multiset_ensures;
            assert forall|p: u64| #[trigger] all@.contains(p) <==> is_cached(old_lists, p) by {
                law_pooled_ptrs_are_the_cached_buffers(old_lists, p);
            }
        }
        self.free_lists.clear();
        self.pool_bytes = 0;
        proof {
            assert(self.lists() =~= Map::<usize, Seq<u64>>::empty());
            lemma_bytes_upto_zero_when_empty(self.lists(), 64);
        }
        all
    }

    /// Whether `ptr` is one of the cached buffers.
    pub fn holds(&self, ptr: u64) -> (b: bool)
        ensures
            b == is_cached(self.lists(), ptr),
    {
        let keys = class_keys(&self.free_lists);
        let ghost m = self.lists();
        let mut i: usize = 0;
        while i < keys.len()
            invariant
                0 <= i <= keys@.len(),
                m == self.lists(),
                keys@.to_set() == self.free_lists@.dom(),
                forall|j: int, t: int|
                    0 <= j < i && 0 <= t < m[keys@[j]].len() ==> #[trigger] m[keys@[j]][t] != ptr,
            decreases keys.len() - i,
        {
            let k = keys[i];
            assert(keys@.to_set().contains(keys@[i as int]));
            match self.free_lists.get(&k) {
                Some(list) => {
                    assert(list@ == m[k]);
                    let mut j: usize = 0;
                    while j < list.len()
                        invariant
                            0 <= j <= list@.len(),
                            list@ == m[k],
                            m == self.lists(),
                            m.contains_key(k),
                            forall|t: int| 0 <= t < j ==> list@[t] != ptr,
                        decreases list.len() - j,
                    {
                        if list[j] == ptr {
                            assert(m[k][j as int] == ptr);
                            assert(is_cached(m, ptr));
                            return true;
                        }
                        j += 1;
                    }
                },
                None => {},
            }
            i += 1;
        }
        proof {
            assert forall|k: usize, t: int| m.contains_key(k) && 0 <= t < m[k].len() implies #[trigger] m[k][t]
                != ptr by {
                assert(keys@.to_set().contains(k));
                let j = choose|j: int| 0 <= j < keys@.len() && keys@[j] == k;
                assert(m[keys@[j]][t] != ptr);
            }
        }
        false
    }

    /// Current pool size in bytes.
    pub fn pool_bytes(&self) -> (b: usize)
        ensures
            b == self.bytes(),
    {
        self.pool_bytes
    }
}

/// Classes too large for a `usize` hold nothing.
impl Default for SimplePool {
    fn default() -> (pool: SimplePool)
        ensures
            pool.wf(),
            pool.lists() == Map::<usize, Seq<u64>>::empty(),
            pool.bytes() == 0,
    {
        SimplePool::new()
    }
}

/// The classes present in `m`, each once.
fn class_keys(m: &HashMap<usize, Vec<u64>>) -> (v: Vec<usize>)
    ensures
        v@.to_set() == m@.dom(),
{
    let mut v: Vec<usize> = Vec::new();
    for k in it: m.keys()
        invariant
            v@ == it.seq().take(it.index() as int).map_values(|r: &usize| *r),
            it.seq() == vstd::std_specs::hash::spec_keys_iter(m).remaining(),
    {
        v.push(*k);
    }
    proof {
        let ks = vstd::std_specs::hash::spec_keys_iter(m).remaining();
        assert(v@ =~= ks.map_values(|r: &usize| *r));
        assert(ks.unref() =~= ks.map_values(|r: &usize| *r));
    }
    v
}

proof fn lemma_ptrs_upto_rest_empty(m: Map<usize, Seq<u64>>, lo: nat, hi: nat)
    requires
        8 <= lo <= hi <= 64,
        lo == 64 || two_pow(lo) > usize::MAX,
    ensures
        ptrs_upto(m, hi) == ptrs_upto(m, lo),
    decreases hi,
{
    if hi > lo {
        lemma_ptrs_upto_rest_empty(m, lo, (hi - 1) as nat);
        let e = (hi - 1) as nat;
        if e > lo {
            lemma_two_pow_strictly_increases(lo, e);
        }
        assert(list_at(m, two_pow(e) as int) =~= Seq::<u64>::empty());
        assert(list_at(m, two_pow(e) as int).to_multiset() =~= Multiset::empty()) by {
            broadcast use vstd::seq_lib::group_to_multiset_ensures;
        }
        assert(ptrs_upto(m, hi) =~= ptrs_upto(m, lo));
    }
}

/// `2^a <= 2^b` when `a <= b`.
pub proof fn lemma_two_pow_increases(a: nat, b: nat)
    requires
        a <= b,
    ensures
        two_pow(a) <= two_pow(b),
{
    if a < b {
        lemma_two_pow_strictly_increases(a, b);
    }
}

proof fn lemma_bytes_upto_zero_when_empty(m: Map<usize, Seq<u64>>, hi: nat)
    requires
        m == Map::<usize, Seq<u64>>::empty(),
    ensures
        bytes_upto(m, hi) == 0,
    decreases hi,
{
    if hi > 8 {
        lemma_bytes_upto_zero_when_empty(m, (hi - 1) as nat);
    }
}

} // verus!
