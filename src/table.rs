//! Key/amount tables kept as sequences of entries with unique keys.
use vstd::prelude::*;

verus! {

/// No key occurs twice in the table.
pub open spec fn keys_unique<K>(s: Seq<(K, u32)>) -> bool {
    forall|i: int, j: int|
        0 <= i < s.len() && 0 <= j < s.len() && #[trigger] s[i].0 == #[trigger] s[j].0 ==> i == j
}

/// Some entry of the table has key `k`.
pub open spec fn has_key<K>(s: Seq<(K, u32)>, k: K) -> bool {
    exists|i: int| 0 <= i < s.len() && #[trigger] s[i].0 == k
}

/// The amount stored under `k`, or zero where `k` has no entry.
pub open spec fn value_of<K>(s: Seq<(K, u32)>, k: K) -> nat {
    if has_key(s, k) {
        s[choose|i: int| 0 <= i < s.len() && #[trigger] s[i].0 == k].1 as nat
    } else {
        0
    }
}

/// The sum of all amounts in the table.
pub open spec fn sum_values<K>(s: Seq<(K, u32)>) -> int
    decreases s.len(),
{
    if s.len() == 0 {
        0
    } else {
        sum_values(s.drop_last()) + s.last().1
    }
}

/// The keys of the table, in entry order.
pub open spec fn keys_of<K>(s: Seq<(K, u32)>) -> Seq<K> {
    s.map_values(|e: (K, u32)| e.0)
}

/// The sum of `f` over a sequence of keys.
pub open spec fn sum_over<K>(ks: Seq<K>, f: spec_fn(K) -> nat) -> int
    decreases ks.len(),
{
    if ks.len() == 0 {
        0
    } else {
        sum_over(ks.drop_last(), f) + f(ks.last())
    }
}

pub proof fn lemma_value_at<K>(s: Seq<(K, u32)>, i: int)
    requires
        keys_unique(s),
        0 <= i < s.len(),
    ensures
        has_key(s, s[i].0),
        value_of(s, s[i].0) == s[i].1,
{
    let k = s[i].0;
    assert(s[i].0 == k);
    let j = choose|j: int| 0 <= j < s.len() && #[trigger] s[j].0 == k;
    assert(s[j].0 == s[i].0);
}

pub proof fn lemma_update<K>(s: Seq<(K, u32)>, i: int, k: K, v: u32)
    requires
        keys_unique(s),
        0 <= i < s.len(),
        s[i].0 == k,
    ensures
        keys_unique(s.update(i, (k, v))),
        forall|x: K| #[trigger]
            value_of(s.update(i, (k, v)), x) == if x == k {
                v as nat
            } else {
                value_of(s, x)
            },
        forall|x: K| #[trigger] has_key(s.update(i, (k, v)), x) == has_key(s, x),
{
    let t = s.update(i, (k, v));
    assert forall|a: int, b: int|
        0 <= a < t.len() && 0 <= b < t.len() && #[trigger] t[a].0 == #[trigger] t[b].0 implies a
        == b by {
        assert(t[a].0 == s[a].0);
        assert(t[b].0 == s[b].0);
    }
    assert forall|x: K| #[trigger] has_key(t, x) == has_key(s, x) by {
        if has_key(t, x) {
            let j = choose|j: int| 0 <= j < t.len() && #[trigger] t[j].0 == x;
            assert(s[j].0 == x);
        }
        if has_key(s, x) {
            let j = choose|j: int| 0 <= j < s.len() && #[trigger] s[j].0 == x;
            assert(t[j].0 == x);
        }
    }
    assert forall|x: K| #[trigger]
        value_of(t, x) == if x == k {
            v as nat
        } else {
            value_of(s, x)
        } by {
        if x == k {
            lemma_value_at(t, i);
        } else if has_key(s, x) {
            let j = choose|j: int| 0 <= j < s.len() && #[trigger] s[j].0 == x;
            lemma_value_at(s, j);
            assert(t[j] == s[j]);
            lemma_value_at(t, j);
        }
    }
}

pub proof fn lemma_push<K>(s: Seq<(K, u32)>, k: K, v: u32)
    requires
        keys_unique(s),
        !has_key(s, k),
    ensures
        keys_unique(s.push((k, v))),
        forall|x: K| #[trigger]
            value_of(s.push((k, v)), x) == if x == k {
                v as nat
            } else {
                value_of(s, x)
            },
        forall|x: K| #[trigger] has_key(s.push((k, v)), x) == (has_key(s, x) || x == k),
{
    let t = s.push((k, v));
    assert forall|a: int, b: int|
        0 <= a < t.len() && 0 <= b < t.len() && #[trigger] t[a].0 == #[trigger] t[b].0 implies a
        == b by {
        if a < s.len() {
            assert(t[a].0 == s[a].0);
        }
        if b < s.len() {
            assert(t[b].0 == s[b].0);
        }
    }
    assert forall|x: K| #[trigger] has_key(t, x) == (has_key(s, x) || x == k) by {
        if has_key(t, x) && x != k {
            let j = choose|j: int| 0 <= j < t.len() && #[trigger] t[j].0 == x;
            assert(j < s.len());
            assert(s[j].0 == x);
        }
        if has_key(s, x) {
            let j = choose|j: int| 0 <= j < s.len() && #[trigger] s[j].0 == x;
            assert(t[j].0 == x);
        }
        if x == k {
            assert(t[s.len() as int].0 == x);
        }
    }
    assert forall|x: K| #[trigger]
        value_of(t, x) == if x == k {
            v as nat
        } else {
            value_of(s, x)
        } by {
        if x == k {
            lemma_value_at(t, s.len() as int);
        } else if has_key(s, x) {
            let j = choose|j: int| 0 <= j < s.len() && #[trigger] s[j].0 == x;
            lemma_value_at(s, j);
            assert(t[j] == s[j]);
            lemma_value_at(t, j);
        }
    }
}

pub proof fn lemma_sum_nonneg<K>(s: Seq<(K, u32)>)
    ensures
        sum_values(s) >= 0,
    decreases s.len(),
{
    if s.len() > 0 {
        lemma_sum_nonneg(s.drop_last());
    }
}

pub proof fn lemma_entry_le_sum<K>(s: Seq<(K, u32)>, i: int)
    requires
        0 <= i < s.len(),
    ensures
        s[i].1 <= sum_values(s),
    decreases s.len(),
{
    if i == s.len() - 1 {
        lemma_sum_nonneg(s.drop_last());
    } else {
        assert(s.drop_last()[i] == s[i]);
        lemma_entry_le_sum(s.drop_last(), i);
    }
}

/// No stored amount exceeds the sum of the table.
pub proof fn lemma_value_le_sum<K>(s: Seq<(K, u32)>, k: K)
    requires
        keys_unique(s),
    ensures
        value_of(s, k) <= sum_values(s),
{
    lemma_sum_nonneg(s);
    if has_key(s, k) {
        let j = choose|j: int| 0 <= j < s.len() && #[trigger] s[j].0 == k;
        lemma_value_at(s, j);
        lemma_entry_le_sum(s, j);
    }
}

pub proof fn lemma_sum_update<K>(s: Seq<(K, u32)>, i: int, e: (K, u32))
    requires
        0 <= i < s.len(),
    ensures
        sum_values(s.update(i, e)) == sum_values(s) - s[i].1 + e.1,
    decreases s.len(),
{
    let t = s.update(i, e);
    if i == s.len() - 1 {
        assert(t.drop_last() =~= s.drop_last());
    } else {
        assert(t.drop_last() =~= s.drop_last().update(i, e));
        lemma_sum_update(s.drop_last(), i, e);
    }
}

pub proof fn lemma_sum_push<K>(s: Seq<(K, u32)>, e: (K, u32))
    ensures
        sum_values(s.push(e)) == sum_values(s) + e.1,
{
    assert(s.push(e).drop_last() =~= s);
}

pub proof fn lemma_sum_take_step<K>(s: Seq<(K, u32)>, i: int)
    requires
        0 <= i < s.len(),
    ensures
        sum_values(s.take(i + 1)) == sum_values(s.take(i)) + s[i].1,
{
    assert(s.take(i + 1).drop_last() =~= s.take(i));
}

/// A prefix of the table sums to no more than the whole table.
pub proof fn lemma_sum_prefix_le<K>(s: Seq<(K, u32)>, i: int)
    requires
        0 <= i <= s.len(),
    ensures
        sum_values(s.take(i)) <= sum_values(s),
    decreases s.len() - i,
{
    if i == s.len() {
        assert(s.take(i) =~= s);
    } else {
        lemma_sum_take_step(s, i);
        lemma_sum_prefix_le(s, i + 1);
    }
}

/// Summing the stored amount over every key of the table gives the table's sum.
pub proof fn lemma_sum_over_keys<K>(s: Seq<(K, u32)>, n: int)
    requires
        keys_unique(s),
        0 <= n <= s.len(),
    ensures
        sum_over(keys_of(s).take(n), |k: K| value_of(s, k)) == sum_values(s.take(n)),
    decreases n,
{
    let f = |k: K| value_of(s, k);
    if n > 0 {
        lemma_sum_over_keys(s, n - 1);
        assert(keys_of(s).take(n).drop_last() =~= keys_of(s).take(n - 1));
        assert(s.take(n).drop_last() =~= s.take(n - 1));
        lemma_value_at(s, n - 1);
        assert(keys_of(s).take(n).last() == s[n - 1].0);
    }
}

} // verus!
