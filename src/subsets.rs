//! Enumeration of the subsets of a set of keys, used by the birth test to form
//! every hypothesis of cameras that saw an unassigned detection.

use std::collections::{BTreeMap, BTreeSet};
use vstd::arithmetic::power2::{lemma_pow2_unfold, pow2};
use vstd::prelude::*;

verus! {

broadcast use vstd::std_specs::btree::group_btree_axioms;

/// Every subset of `dom`.
pub open spec fn power_set<K>(dom: Set<K>) -> Set<Set<K>> {
    Set::new(|s: Set<K>| s.subset_of(dom))
}

/// The views of a list of sets.
pub open spec fn set_views<K>(v: Seq<BTreeSet<K>>) -> Seq<Set<K>> {
    v.map_values(|s: BTreeSet<K>| s@)
}

/// Each set of `v` with `k` added.
pub open spec fn with_key<K>(v: Seq<Set<K>>, k: K) -> Seq<Set<K>> {
    v.map_values(|s: Set<K>| s.insert(k))
}

/// Listing the power set of `p`, then each of its sets with a new key `k`
/// added, lists the power set of `p` with `k`, each subset once.
proof fn lemma_power_set_extend<K>(old: Seq<Set<K>>, p: Set<K>, k: K)
    requires
        old.no_duplicates(),
        old.to_set() == power_set(p),
        !p.contains(k),
    ensures
        (old + with_key(old, k)).no_duplicates(),
        (old + with_key(old, k)).to_set() == power_set(p.insert(k)),
{
    let ext = with_key(old, k);
    let new = old + ext;
    let m = old.len();
    assert forall|i: int| 0 <= i < m implies {
        &&& (#[trigger] old[i]).subset_of(p)
        &&& !old[i].contains(k)
        &&& new[i] == old[i]
        &&& new[i + m] == old[i].insert(k)
    } by {
        assert(old.to_set().contains(old[i]));
        assert(power_set(p).contains(old[i]));
        if old[i].contains(k) {
            assert(p.contains(k));
        }
        assert(ext[i] == old[i].insert(k));
    }
    assert forall|i: int, j: int| 0 <= i < new.len() && 0 <= j < new.len() && i != j
        implies new[i] != new[j] by {
        if i < m && j < m {
            assert(old[i] != old[j]);
        } else if i >= m && j >= m {
            let a = old[i - m];
            let b = old[j - m];
            assert(a != b);
            assert(a =~= a.insert(k).remove(k));
            assert(b =~= b.insert(k).remove(k));
        } else if i < m {
            assert(old[j - m].insert(k).contains(k));
            assert(!old[i].contains(k));
        } else {
            assert(old[i - m].insert(k).contains(k));
            assert(!old[j].contains(k));
        }
    }
    assert forall|s: Set<K>| #[trigger] new.to_set().contains(s) <==> power_set(p.insert(k)).contains(s) by {
        if new.to_set().contains(s) {
            let i = choose|i: int| 0 <= i < new.len() && new[i] == s;
            if i >= m {
                assert(old[i - m].subset_of(p));
                assert(new[i] == old[i - m].insert(k));
            } else {
                assert(old[i].subset_of(p));
            }
        }
        if s.subset_of(p.insert(k)) {
            if s.contains(k) {
                let t = s.remove(k);
                assert(power_set(p).contains(t));
                assert(old.to_set().contains(t));
                let i = choose|i: int| 0 <= i < old.len() && old[i] == t;
                assert(t.insert(k) =~= s);
                assert(new[i + old.len()] == s);
            } else {
                assert(power_set(p).contains(s));
                assert(old.to_set().contains(s));
                let i = choose|i: int| 0 <= i < old.len() && old[i] == s;
                assert(new[i] == s);
            }
        }
    }
    assert(new.to_set() =~= power_set(p.insert(k)));
}

/// Find all subsets of the keys of `orig_set` (its power set).
///
/// The subsets are listed in bit-mask order: the subset at index `x` holds the
/// `i`-th smallest key exactly when bit `i` of `x` is set.
pub fn set_of_subsets<K, V>(orig_set: &BTreeMap<K, V>) -> (r: Vec<BTreeSet<K>>)
    where
        K: Copy + Ord,
    requires
        vstd::laws_cmp::obeys_cmp::<K>(),
        orig_set@.dom().len() < 32,
    ensures
        r@.len() == pow2(orig_set@.dom().len()),
        set_views(r@).no_duplicates(),
        set_views(r@).to_set() == power_set(orig_set@.dom()),
{
    let mut result: Vec<BTreeSet<K>> = Vec::new();
    result.push(BTreeSet::new());
    proof {
        assert(set_views(result@) =~= seq![Set::<K>::empty()]);
        assert forall|s: Set<K>| #[trigger] power_set(Set::<K>::empty()).contains(s)
            <==> set_views(result@).to_set().contains(s) by {
            if s.subset_of(Set::<K>::empty()) {
                assert(s =~= Set::<K>::empty());
                assert(set_views(result@)[0] == s);
            }
        }
        assert(power_set(Set::<K>::empty()) =~= set_views(result@).to_set());
        vstd::arithmetic::power2::lemma2_to64();
    }
    let ghost mut processed: Set<K> = Set::empty();
    for k in it: orig_set.keys()
        invariant
            vstd::laws_cmp::obeys_cmp::<K>(),
            orig_set@.dom().len() < 32,
            it.seq().len() == orig_set@.dom().len(),
            it.seq().unref().no_duplicates(),
            it.seq().unref().to_set() == orig_set@.dom(),
            result@.len() == pow2(it.index() as nat),
            set_views(result@).no_duplicates(),
            processed == it.seq().unref().take(it.index() as int).to_set(),
            it.index() == it.seq().len() ==> processed == orig_set@.dom(),
            set_views(result@).to_set() == power_set(processed),
    {
        let ghost idx = it.index() as int;
        let ghost before = set_views(result@);
        let ghost p = processed;
        let n: usize = result.len();
        proof {
            lemma_pow2_unfold((idx + 1) as nat);
            vstd::arithmetic::power2::lemma_pow2_strictly_increases((idx + 1) as nat, 32);
            vstd::arithmetic::power2::lemma2_to64();
        }
        let mut j: usize = 0;
        while j < n
            invariant
                vstd::laws_cmp::obeys_cmp::<K>(),
                n == before.len(),
                n < usize::MAX / 2,
                0 <= j <= n,
                result@.len() == n + j,
                forall|t: int| 0 <= t < n ==> #[trigger] result@[t]@ == before[t],
                forall|t: int| 0 <= t < j ==> #[trigger] result@[n + t]@ == before[t].insert(*k),
            decreases n - j,
        {
            let mut s: BTreeSet<K> = result[j].clone();
            s.insert(*k);
            result.push(s);
            j = j + 1;
        }
        proof {
            assert forall|t: int| 0 <= t < result@.len() implies #[trigger] set_views(result@)[t]
                == (before + with_key(before, *k))[t] by {
                if t >= n {
                    assert(result@[n + (t - n)]@ == before[t - n].insert(*k));
                } else {
                    assert(result@[t]@ == before[t]);
                }
            }
            assert(set_views(result@) =~= before + with_key(before, *k));
            assert(it.seq().unref().take(idx + 1) =~= it.seq().unref().take(idx).push(it.seq().unref()[idx]));
            it.seq().unref().take(idx).lemma_push_to_set_commute(it.seq().unref()[idx]);
            assert(!p.contains(it.seq().unref()[idx])) by {
                if p.contains(it.seq().unref()[idx]) {
                    let t = choose|t: int| 0 <= t < idx && it.seq().unref()[t] == it.seq().unref()[idx];
                }
            }
            lemma_power_set_extend(before, p, *k);
            processed = p.insert(*k);
        }
        proof {
            assert(idx + 1 == it.seq().len() ==> processed == orig_set@.dom()) by {
                if idx + 1 == it.seq().len() {
                    assert(it.seq().unref().take(idx + 1) =~= it.seq().unref());
                }
            }
        }
    }
    result
}

} // verus!
