//! What holds of every vector clock: the relation between clocks is
//! reflexive and antisymmetric, the tie-break picks one winner, and
//! incrementing and merging only ever move a clock forward.
//!
//! The laws are stated over clocks as maps from host names to counters.

use vstd::prelude::*;

use crate::clock::{
    ascending, behind_at, concurrent_greater, count, counts_along, incremented, larger,
    lemma_counts_greater_at, lemma_names_before_at, lists, merged, no_greater, relation,
    same_counts, sorted_names, superseded, valid, TemporalRelation,
};
use crate::host::{
    first_difference, lemma_first_difference_exists, lemma_name_before_asymmetric,
    lemma_name_before_total, lemma_name_before_transitive, name_before,
};

verus! {

/// Putting a new name in its place in an ascending list gives an ascending
/// list of the old names and the new one.
proof fn lemma_insert_name(s: Seq<Seq<int>>, x: Seq<int>) -> (r: Seq<Seq<int>>)
    requires
        ascending(s),
        !s.contains(x),
    ensures
        ascending(r),
        forall|n: Seq<int>| r.contains(n) <==> (n == x || s.contains(n)),
    decreases s.len(),
{
    if s.len() == 0 {
        let r = seq![x];
        assert(r[0] == x);
        assert forall|n: Seq<int>| r.contains(n) <==> (n == x || s.contains(n)) by {
            if n == x {
                assert(r[0] == n);
            }
        }
        r
    } else {
        let y = s.last();
        assert(s.contains(y));
        if name_before(y, x) {
            let r = s.push(x);
            assert forall|i: int, j: int| 0 <= i < j < r.len() implies name_before(
                #[trigger] r[i],
                #[trigger] r[j],
            ) by {
                if j < s.len() {
                    assert(name_before(s[i], s[j]));
                } else if i < s.len() - 1 {
                    assert(name_before(s[i], s[s.len() - 1]));
                    lemma_name_before_transitive(s[i], y, x);
                }
            }
            assert forall|n: Seq<int>| r.contains(n) <==> (n == x || s.contains(n)) by {
                if r.contains(n) {
                    let i = choose|i: int| 0 <= i < r.len() && r[i] == n;
                    if i < s.len() {
                        assert(s[i] == n);
                    }
                }
                if n == x {
                    assert(r[s.len() as int] == n);
                }
                if s.contains(n) {
                    let i = choose|i: int| 0 <= i < s.len() && s[i] == n;
                    assert(r[i] == n);
                }
            }
            r
        } else {
            lemma_name_before_total(x, y);
            let s1 = s.drop_last();
            assert forall|i: int, j: int| 0 <= i < j < s1.len() implies name_before(
                #[trigger] s1[i],
                #[trigger] s1[j],
            ) by {
                assert(name_before(s[i], s[j]));
            }
            assert(!s1.contains(x)) by {
                if s1.contains(x) {
                    let i = choose|i: int| 0 <= i < s1.len() && s1[i] == x;
                    assert(s[i] == x);
                }
            }
            let r1 = lemma_insert_name(s1, x);
            let r = r1.push(y);
            assert forall|i: int, j: int| 0 <= i < j < r.len() implies name_before(
                #[trigger] r[i],
                #[trigger] r[j],
            ) by {
                if j < r1.len() {
                    assert(name_before(r1[i], r1[j]));
                } else {
                    assert(r1.contains(r1[i]));
                    if r1[i] != x {
                        let k = choose|k: int| 0 <= k < s1.len() && s1[k] == r1[i];
                        assert(name_before(s[k], s[s.len() - 1]));
                    }
                }
            }
            assert forall|n: Seq<int>| r.contains(n) <==> (n == x || s.contains(n)) by {
                if r.contains(n) {
                    let i = choose|i: int| 0 <= i < r.len() && r[i] == n;
                    if i < r1.len() {
                        assert(r1.contains(n));
                        if n != x {
                            let k = choose|k: int| 0 <= k < s1.len() && s1[k] == n;
                            assert(s[k] == n);
                        }
                    }
                }
                if n == x {
                    assert(r1.contains(n));
                    let i = choose|i: int| 0 <= i < r1.len() && r1[i] == n;
                    assert(r[i] == n);
                }
                if s.contains(n) {
                    let k = choose|k: int| 0 <= k < s.len() && s[k] == n;
                    if k < s.len() - 1 {
                        assert(s1[k] == n);
                        assert(s1.contains(n));
                        let i = choose|i: int| 0 <= i < r1.len() && r1[i] == n;
                        assert(r[i] == n);
                    } else {
                        assert(r[r1.len() as int] == n);
                    }
                }
            }
            r
        }
    }
}

/// A finite set of names can be listed in ascending order.
proof fn lemma_names_can_be_listed(d: Set<Seq<int>>) -> (s: Seq<Seq<int>>)
    requires
        d.finite(),
    ensures
        lists(s, d),
    decreases d.len(),
{
    if d.len() == 0 {
        let s = Seq::<Seq<int>>::empty();
        assert forall|n: Seq<int>| s.contains(n) <==> d.contains(n) by {
            if d.contains(n) {
                assert(d.remove(n).len() + 1 == d.len());
            }
        }
        s
    } else {
        let x = d.choose();
        let d1 = d.remove(x);
        let s1 = lemma_names_can_be_listed(d1);
        lemma_insert_name(s1, x)
    }
}

/// The sorted names of a clock list its hosts, each once, in ascending order.
pub proof fn lemma_sorted_names(m: Map<Seq<int>, nat>)
    requires
        valid(m),
    ensures
        lists(sorted_names(m), m.dom()),
{
    let s = lemma_names_can_be_listed(m.dom());
}

/// Every clock is equal to itself.
pub proof fn lemma_relation_reflexive(c: Map<Seq<int>, nat>)
    ensures
        relation(c, c) == TemporalRelation::Equal,
{
}

/// Of two clocks that differ, the tie-break names exactly one as the
/// greater.
pub proof fn lemma_tie_break_picks_one(a: Map<Seq<int>, nat>, b: Map<Seq<int>, nat>)
    requires
        valid(a),
        valid(b),
        !same_counts(a, b),
    ensures
        concurrent_greater(a, b) <==> !concurrent_greater(b, a),
{
    lemma_sorted_names(a);
    lemma_sorted_names(b);
    let ka = sorted_names(a);
    let kb = sorted_names(b);
    if ka.len() != kb.len() {
    } else if ka != kb {
        let i = lemma_first_difference_exists(ka, kb);
        if i == ka.len() {
            assert(ka =~= kb);
        }
        assert(first_difference(kb, ka, i));
        lemma_names_before_at(kb, ka, i);
        lemma_names_before_at(ka, kb, i);
        lemma_name_before_total(ka[i], kb[i]);
        lemma_name_before_asymmetric(ka[i], kb[i]);
    } else {
        let ca = counts_along(a, ka);
        let cb = counts_along(b, ka);
        let i = lemma_first_difference_exists(ca, cb);
        if i == ka.len() {
            assert forall|n: Seq<int>| count(a, n) == count(b, n) by {
                if a.dom().contains(n) || b.dom().contains(n) {
                    assert(ka.contains(n));
                    let k = choose|k: int| 0 <= k < ka.len() && ka[k] == n;
                    assert(ca[k] == cb[k]);
                }
            }
            assert(false);
        }
        assert(first_difference(cb, ca, i));
        lemma_counts_greater_at(a, b, ka, i);
        lemma_counts_greater_at(b, a, ka, i);
        assert(ca[i] != cb[i]);
    }
}

/// The relation between clocks is antisymmetric: seen from the other clock,
/// `Caused` becomes `EffectOf`, `ConcurrentGreater` becomes
/// `ConcurrentSmaller`, and the other way round each; `Equal` stays.
pub proof fn lemma_relation_antisymmetric(a: Map<Seq<int>, nat>, b: Map<Seq<int>, nat>)
    requires
        valid(a),
        valid(b),
    ensures
        relation(a, b) == TemporalRelation::Equal <==> relation(b, a) == TemporalRelation::Equal,
        relation(a, b) == TemporalRelation::Caused <==> relation(b, a)
            == TemporalRelation::EffectOf,
        relation(a, b) == TemporalRelation::EffectOf <==> relation(b, a)
            == TemporalRelation::Caused,
        relation(a, b) == TemporalRelation::ConcurrentGreater <==> relation(b, a)
            == TemporalRelation::ConcurrentSmaller,
        relation(a, b) == TemporalRelation::ConcurrentSmaller <==> relation(b, a)
            == TemporalRelation::ConcurrentGreater,
{
    if same_counts(a, b) {
        lemma_same_counts_symmetric(a, b);
    }
    if same_counts(b, a) {
        lemma_same_counts_symmetric(b, a);
    }
    if !same_counts(a, b) {
        lemma_tie_break_picks_one(a, b);
        lemma_not_both_superseded(a, b);
    }
}

/// Having counted the same is a symmetric relation.
proof fn lemma_same_counts_symmetric(a: Map<Seq<int>, nat>, b: Map<Seq<int>, nat>)
    requires
        same_counts(a, b),
    ensures
        same_counts(b, a),
{
    assert forall|n: Seq<int>| count(b, n) == count(a, n) by {
        assert(count(a, n) == count(b, n));
    }
}

/// Two clocks cannot each have come before the other.
proof fn lemma_not_both_superseded(a: Map<Seq<int>, nat>, b: Map<Seq<int>, nat>)
    ensures
        !(superseded(a, b) && superseded(b, a)),
{
    if superseded(a, b) && superseded(b, a) {
        let n = choose|n: Seq<int>| behind_at(a, b, n);
        assert(count(b, n) <= count(a, n));
    }
}

/// Between two clocks that causality leaves unordered, exactly one side
/// wins: the relation is `ConcurrentGreater` one way precisely when it is
/// not the other way.
pub proof fn lemma_concurrent_one_winner(a: Map<Seq<int>, nat>, b: Map<Seq<int>, nat>)
    requires
        valid(a),
        valid(b),
        !same_counts(a, b),
        !superseded(a, b),
        !superseded(b, a),
    ensures
        relation(a, b) == TemporalRelation::ConcurrentGreater <==> relation(b, a)
            != TemporalRelation::ConcurrentGreater,
{
    lemma_relation_antisymmetric(a, b);
}

/// Between two different clocks of which one came before the other, neither
/// way is the relation `ConcurrentGreater`.
pub proof fn lemma_ordered_never_concurrent(a: Map<Seq<int>, nat>, b: Map<Seq<int>, nat>)
    requires
        valid(a),
        valid(b),
        !same_counts(a, b),
        superseded(a, b) || superseded(b, a),
    ensures
        relation(a, b) != TemporalRelation::ConcurrentGreater <==> relation(b, a)
            != TemporalRelation::ConcurrentGreater,
{
    lemma_relation_antisymmetric(a, b);
}

/// Incrementing moves a clock forward: the clock before the increment has
/// caused the clock after it.
pub proof fn lemma_incr_caused(m: Map<Seq<int>, nat>, n: Seq<int>)
    ensures
        relation(m, incremented(m, n)) == TemporalRelation::Caused,
        relation(incremented(m, n), m) == TemporalRelation::EffectOf,
{
    let next = incremented(m, n);
    assert(count(m, n) < count(next, n));
    assert(behind_at(m, next, n));
    assert forall|x: Seq<int>| count(m, x) <= count(next, x) by {
        if x != n {
            assert(count(next, x) == count(m, x));
        }
    }
    assert(!superseded(next, m)) by {
        if no_greater(next, m) {
            assert(count(next, n) <= count(m, n));
        }
    }
    assert(!same_counts(next, m)) by {
        if same_counts(next, m) {
            assert(count(next, n) == count(m, n));
        }
    }
    lemma_not_both_superseded(m, next);
}

/// The counter that a merge holds for a host is the larger of the two.
pub proof fn lemma_merged_count(a: Map<Seq<int>, nat>, b: Map<Seq<int>, nat>, n: Seq<int>)
    ensures
        count(merged(a, b), n) == larger(count(a, n), count(b, n)),
{
}

/// A merge is at or after both of its inputs.
pub proof fn lemma_merge_dominates(a: Map<Seq<int>, nat>, b: Map<Seq<int>, nat>)
    ensures
        relation(a, merged(a, b)) == TemporalRelation::Equal || relation(a, merged(a, b))
            == TemporalRelation::Caused,
        relation(b, merged(a, b)) == TemporalRelation::Equal || relation(b, merged(a, b))
            == TemporalRelation::Caused,
        no_greater(a, merged(a, b)),
        no_greater(b, merged(a, b)),
{
    let m = merged(a, b);
    assert forall|n: Seq<int>| count(a, n) <= count(m, n) && count(b, n) <= count(m, n) by {
        lemma_merged_count(a, b, n);
    }
    if !same_counts(a, m) {
        let n = choose|n: Seq<int>| count(a, n) != count(m, n);
        assert(count(a, n) <= count(m, n));
        assert(behind_at(a, m, n));
    }
    if !same_counts(b, m) {
        let n = choose|n: Seq<int>| count(b, n) != count(m, n);
        assert(count(b, n) <= count(m, n));
        assert(behind_at(b, m, n));
    }
}

/// Merging is commutative.
pub proof fn lemma_merge_commutes(a: Map<Seq<int>, nat>, b: Map<Seq<int>, nat>)
    ensures
        merged(a, b) == merged(b, a),
{
    assert(merged(a, b) =~= merged(b, a));
}

/// Merging a clock with itself gives the clock back.
pub proof fn lemma_merge_idempotent(a: Map<Seq<int>, nat>)
    ensures
        merged(a, a) == a,
{
    assert(merged(a, a) =~= a);
}

/// Merging is associative.
pub proof fn lemma_merge_associates(
    a: Map<Seq<int>, nat>,
    b: Map<Seq<int>, nat>,
    c: Map<Seq<int>, nat>,
)
    ensures
        merged(merged(a, b), c) == merged(a, merged(b, c)),
{
    assert forall|n: Seq<int>|
        merged(merged(a, b), c).dom().contains(n) implies merged(merged(a, b), c)[n] == merged(
        a,
        merged(b, c),
    )[n] by {
        lemma_merged_count(a, b, n);
        lemma_merged_count(b, c, n);
    }
    assert(merged(merged(a, b), c) =~= merged(a, merged(b, c)));
}

} // verus!
