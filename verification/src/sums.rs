//! Sums over the entries of a table.

use vstd::prelude::*;

verus! {

/// The sum of `f` over `keys`.
pub open spec fn total<K>(keys: Set<K>, f: spec_fn(K) -> int) -> int {
    keys.fold(0int, |acc: int, k: K| acc + f(k))
}

/// The sum of `f` over the entries of `m`.
pub open spec fn sum_of<K, V>(m: Map<K, V>, f: spec_fn(K, V) -> int) -> int {
    total(m.dom(), |k: K| f(k, m[k]))
}

proof fn lemma_total_insert<K>(keys: Set<K>, f: spec_fn(K) -> int, k: K)
    requires
        keys.finite(),
        !keys.contains(k),
    ensures
        total(keys.insert(k), f) == total(keys, f) + f(k),
{
    let g = |acc: int, k: K| acc + f(k);
    vstd::set::fold::lemma_fold_insert(keys, 0int, g, k);
}

proof fn lemma_total_empty<K>(f: spec_fn(K) -> int)
    ensures
        total(Set::<K>::empty(), f) == 0,
{
    vstd::set::fold::lemma_fold_empty(0int, |acc: int, k: K| acc + f(k));
}

/// A sum whose terms are nowhere larger is no larger.
proof fn lemma_total_order<K>(keys: Set<K>, f: spec_fn(K) -> int, g: spec_fn(K) -> int)
    requires
        keys.finite(),
        forall|k: K| keys.contains(k) ==> #[trigger] f(k) <= g(k),
    ensures
        total(keys, f) <= total(keys, g),
    decreases keys.len(),
{
    if keys.len() == 0 {
        keys.lemma_len0_is_empty();
        lemma_total_empty(f);
        lemma_total_empty(g);
    } else {
        let k = keys.choose();
        let rest = keys.remove(k);
        assert(rest.insert(k) =~= keys);
        lemma_total_order(rest, f, g);
        lemma_total_insert(rest, f, k);
        lemma_total_insert(rest, g, k);
        assert(f(k) <= g(k));
    }
}

/// A sum of the same terms is the same.
proof fn lemma_total_same<K>(keys: Set<K>, f: spec_fn(K) -> int, g: spec_fn(K) -> int)
    requires
        keys.finite(),
        forall|k: K| keys.contains(k) ==> #[trigger] f(k) == g(k),
    ensures
        total(keys, f) == total(keys, g),
{
    lemma_total_order(keys, f, g);
    assert forall|k: K| keys.contains(k) implies #[trigger] g(k) <= f(k) by {
        assert(f(k) == g(k));
    }
    lemma_total_order(keys, g, f);
}

/// The sum over no entries is zero.
pub proof fn lemma_sum_empty<K, V>(f: spec_fn(K, V) -> int)
    ensures
        sum_of(Map::<K, V>::empty(), f) == 0,
{
    let m = Map::<K, V>::empty();
    lemma_total_empty(|k: K| f(k, m[k]));
    assert(m.dom() =~= Set::<K>::empty());
}

/// Taking an entry out takes its term out of the sum.
pub proof fn lemma_sum_remove<K, V>(m: Map<K, V>, f: spec_fn(K, V) -> int, k: K)
    requires
        m.dom().finite(),
        m.contains_key(k),
    ensures
        sum_of(m.remove(k), f) == sum_of(m, f) - f(k, m[k]),
{
    let rest = m.dom().remove(k);
    let at = |j: K| f(j, m[j]);
    let after = |j: K| f(j, m.remove(k)[j]);
    assert(rest.insert(k) =~= m.dom());
    assert(m.remove(k).dom() =~= rest);
    lemma_total_insert(rest, at, k);
    lemma_total_same(rest, at, after);
}

/// Setting an entry replaces its term in the sum.
pub proof fn lemma_sum_insert<K, V>(m: Map<K, V>, f: spec_fn(K, V) -> int, k: K, v: V)
    requires
        m.dom().finite(),
    ensures
        sum_of(m.insert(k, v), f) == sum_of(m, f) + f(k, v) - (if m.contains_key(k) {
            f(k, m[k])
        } else {
            0
        }),
{
    let rest = m.dom().remove(k);
    let before = |j: K| f(j, m[j]);
    let after = |j: K| f(j, m.insert(k, v)[j]);
    assert(rest.insert(k) =~= m.insert(k, v).dom());
    lemma_total_insert(rest, after, k);
    lemma_total_same(rest, before, after);
    if m.contains_key(k) {
        assert(rest.insert(k) =~= m.dom());
        lemma_total_insert(rest, before, k);
    } else {
        assert(rest =~= m.dom());
    }
}

/// A sum of the same terms is the same.
pub proof fn lemma_sum_same<K, V>(m: Map<K, V>, f: spec_fn(K, V) -> int, g: spec_fn(K, V) -> int)
    requires
        m.dom().finite(),
        forall|k: K| m.contains_key(k) ==> #[trigger] f(k, m[k]) == g(k, m[k]),
    ensures
        sum_of(m, f) == sum_of(m, g),
{
    lemma_total_same(m.dom(), |k: K| f(k, m[k]), |k: K| g(k, m[k]));
}

/// A sum of terms none of which is negative is not negative.
pub proof fn lemma_sum_nonnegative<K, V>(m: Map<K, V>, f: spec_fn(K, V) -> int)
    requires
        m.dom().finite(),
        forall|k: K| m.contains_key(k) ==> #[trigger] f(k, m[k]) >= 0,
    ensures
        sum_of(m, f) >= 0,
{
    lemma_sum_scale(m, f, f, 0, -1);
}

/// A sum of multiples is the multiple of the sum: where every `d * g` is at
/// most `c * f`, so is the sum.
pub proof fn lemma_sum_scale<K, V>(
    m: Map<K, V>,
    f: spec_fn(K, V) -> int,
    g: spec_fn(K, V) -> int,
    c: int,
    d: int,
)
    requires
        m.dom().finite(),
        forall|k: K| m.contains_key(k) ==> #[trigger] g(k, m[k]) * d <= c * f(k, m[k]),
    ensures
        sum_of(m, g) * d <= c * sum_of(m, f),
    decreases m.dom().len(),
{
    if m.dom().len() == 0 {
        m.dom().lemma_len0_is_empty();
        assert(m =~= Map::empty());
        lemma_sum_empty(f);
        lemma_sum_empty(g);
    } else {
        let k = m.dom().choose();
        let rest = m.remove(k);
        assert forall|j: K| rest.contains_key(j) implies #[trigger] g(j, rest[j]) * d <= c * f(
            j,
            rest[j],
        ) by {
            assert(rest[j] == m[j]);
            assert(g(j, m[j]) * d <= c * f(j, m[j]));
        }
        lemma_sum_scale(rest, f, g, c, d);
        lemma_sum_remove(m, f, k);
        lemma_sum_remove(m, g, k);
        let (a, b) = (sum_of(rest, g), sum_of(rest, f));
        let (x, y) = (g(k, m[k]), f(k, m[k]));
        assert((a + x) * d <= c * (b + y)) by (nonlinear_arith)
            requires
                a * d <= c * b,
                x * d <= c * y,
        ;
    }
}

/// A term is no larger than the sum, where none is negative.
pub proof fn lemma_sum_term<K, V>(m: Map<K, V>, f: spec_fn(K, V) -> int, k: K)
    requires
        m.dom().finite(),
        m.contains_key(k),
        forall|j: K| m.contains_key(j) ==> #[trigger] f(j, m[j]) >= 0,
    ensures
        f(k, m[k]) <= sum_of(m, f),
{
    let rest = m.remove(k);
    assert forall|j: K| rest.contains_key(j) implies #[trigger] f(j, rest[j]) >= 0 by {
        assert(rest[j] == m[j]);
        assert(f(j, m[j]) >= 0);
    }
    lemma_sum_nonnegative(rest, f);
    lemma_sum_remove(m, f, k);
}

} // verus!
