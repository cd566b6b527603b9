//! Lists of plain values, and tables of them.

use vstd::prelude::*;

verus! {

/// The lists of a table, as sequences.
pub open spec fn seqs<K, T>(m: Map<K, Vec<T>>) -> Map<K, Seq<T>> {
    m.map_values(|v: Vec<T>| v@)
}

/// A list put under a key is a sequence put under it, whether the key was free
/// or its list was taken out before.
pub proof fn lemma_seqs_insert<K, T>(m: Map<K, Vec<T>>, k: K, v: Vec<T>)
    ensures
        seqs(m.insert(k, v)) == seqs(m).insert(k, v@),
        seqs(m.remove(k).insert(k, v)) == seqs(m).insert(k, v@),
{
    assert(seqs(m.insert(k, v)) =~= seqs(m).insert(k, v@));
    assert(seqs(m.remove(k).insert(k, v)) =~= seqs(m).insert(k, v@));
}

/// A table without lists has no sequences.
pub proof fn lemma_seqs_empty<K, T>()
    ensures
        seqs(Map::<K, Vec<T>>::empty()) == Map::<K, Seq<T>>::empty(),
{
    assert(seqs(Map::<K, Vec<T>>::empty()) =~= Map::<K, Seq<T>>::empty());
}

/// A copy of a list of plain values.
pub fn copied<T: Copy>(v: &Vec<T>) -> (copy: Vec<T>)
    ensures
        copy@ == v@,
{
    let n: usize = v.len();
    let mut copy: Vec<T> = Vec::new();
    for i in 0..n
        invariant
            n == v@.len(),
            copy@ == v@.take(i as int),
    {
        copy.push(v[i]);
        assert(v@.take(i + 1) =~= v@.take(i as int).push(v@[i as int]));
    }
    assert(v@.take(n as int) =~= v@);
    copy
}

/// The list without a value.
pub open spec fn without<T>(list: Seq<T>, gone: T) -> Seq<T> {
    list.filter(|x: T| x != gone)
}

/// What a list without a value holds.
pub proof fn lemma_without<T>(list: Seq<T>, gone: T)
    ensures
        forall|x: T| #[trigger] without(list, gone).contains(x) <==> list.contains(x) && x != gone,
        list.no_duplicates() ==> without(list, gone).no_duplicates(),
    decreases list.len(),
{
    reveal(Seq::filter);
    if list.len() > 0 {
        let front = list.drop_last();
        let last = list.last();
        lemma_without(front, gone);
        let rest = without(front, gone);
        let all = without(list, gone);
        assert(all == (if last != gone {
            rest.push(last)
        } else {
            rest
        }));
        assert forall|x: T| #[trigger] all.contains(x) <==> list.contains(x) && x != gone by {
            if all.contains(x) {
                let i = choose|i: int| 0 <= i < all.len() && all[i] == x;
                if i < rest.len() {
                    assert(rest[i] == x);
                    assert(rest.contains(x));
                    let j = choose|j: int| 0 <= j < front.len() && front[j] == x;
                    assert(list[j] == x);
                } else {
                    assert(list[list.len() - 1] == x);
                }
            }
            if list.contains(x) && x != gone {
                let i = choose|i: int| 0 <= i < list.len() && list[i] == x;
                if i < front.len() {
                    assert(front[i] == x);
                    assert(rest.contains(x));
                    let j = choose|j: int| 0 <= j < rest.len() && rest[j] == x;
                    assert(all[j] == x);
                } else {
                    assert(all[rest.len() as int] == x);
                }
            }
        }
        if list.no_duplicates() {
            assert(front.no_duplicates());
            assert forall|i: int, j: int| 0 <= i < all.len() && 0 <= j < all.len() && i
                != j implies all[i] != all[j] by {
                if last != gone {
                    if i < rest.len() && j < rest.len() {
                        assert(rest[i] != rest[j]);
                    } else {
                        let k = if i < rest.len() { i } else { j };
                        assert(rest.contains(rest[k]));
                        let m = choose|m: int| 0 <= m < front.len() && front[m] == rest[k];
                        assert(list[m] != list[list.len() - 1]);
                    }
                }
            }
        }
    }
}

/// A list without a value that it does not hold is the list.
pub proof fn lemma_without_absent<T>(list: Seq<T>, gone: T)
    requires
        !list.contains(gone),
    ensures
        without(list, gone) == list,
    decreases list.len(),
{
    reveal(Seq::filter);
    if list.len() > 0 {
        let front = list.drop_last();
        assert(!front.contains(gone)) by {
            if front.contains(gone) {
                let i = choose|i: int| 0 <= i < front.len() && front[i] == gone;
                assert(list[i] == gone);
            }
        }
        lemma_without_absent(front, gone);
        assert(list[list.len() - 1] != gone);
        assert(front.push(list.last()) =~= list);
    }
}

/// Without one of its values, a list that holds none twice lacks that one place.
pub proof fn lemma_without_one<T>(list: Seq<T>, k: int)
    requires
        list.no_duplicates(),
        0 <= k < list.len(),
    ensures
        without(list, list[k]) == list.remove(k),
    decreases list.len(),
{
    reveal(Seq::filter);
    let gone = list[k];
    let front = list.drop_last();
    let n = list.len() - 1;
    assert(front.no_duplicates());
    if k == n {
        assert(!front.contains(gone)) by {
            if front.contains(gone) {
                let j = choose|j: int| 0 <= j < front.len() && front[j] == gone;
                assert(list[j] != list[n]);
            }
        }
        lemma_without_absent(front, gone);
        assert(list.remove(k) =~= front);
    } else {
        lemma_without_one(front, k);
        assert(list[n] != list[k]);
        assert(list.remove(k) =~= front.remove(k).push(list.last()));
    }
}

} // verus!
