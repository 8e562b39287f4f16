//! Vector clocks, and the order that they give to copy events.
//!
//! A clock is, mathematically, a finite map from host names to counters that
//! are at least one; a host that the map does not hold has counted nothing.
//! Two clocks are always comparable: where causality leaves them unordered, a
//! fixed tie-break decides, the same on every node.

use vstd::prelude::*;
use vstd::std_specs::cmp::PartialEqSpecImpl;

use crate::host::{
    first_difference, lemma_first_difference_unique, lemma_name_before_asymmetric,
    lemma_name_before_irreflexive, lemma_name_before_total, lemma_name_before_transitive,
    name_before, Host, Precedence,
};

verus! {

/// How one clock stands to another.
///
/// `Caused` says that this clock came before the other, `EffectOf` that it
/// came after. The two concurrent variants order clocks that causality leaves
/// unordered.
#[derive(Debug, PartialEq, Eq, Copy, Clone, Structural)]
pub enum TemporalRelation {
    Equal,
    Caused,
    EffectOf,
    ConcurrentGreater,
    ConcurrentSmaller,
}

/// The counter of `n` in the clock `m`: zero for a host that `m` does not hold.
pub open spec fn count(m: Map<Seq<int>, nat>, n: Seq<int>) -> nat {
    if m.dom().contains(n) {
        m[n]
    } else {
        0
    }
}

/// What a map must satisfy to be a clock: finitely many hosts, none of them
/// held with a counter of zero.
pub open spec fn valid(m: Map<Seq<int>, nat>) -> bool {
    &&& m.dom().finite()
    &&& forall|n: Seq<int>| m.dom().contains(n) ==> #[trigger] m[n] >= 1
}

/// Both clocks have counted the same for every host.
pub open spec fn same_counts(a: Map<Seq<int>, nat>, b: Map<Seq<int>, nat>) -> bool {
    forall|n: Seq<int>| #![trigger count(a, n)] #![trigger count(b, n)] count(a, n) == count(b, n)
}

/// `a` has counted no more than `b` for any host.
pub open spec fn no_greater(a: Map<Seq<int>, nat>, b: Map<Seq<int>, nat>) -> bool {
    forall|n: Seq<int>| #![trigger count(a, n)] #![trigger count(b, n)] count(a, n) <= count(b, n)
}

/// `a` has counted strictly less than `b` for the host `n`.
pub open spec fn behind_at(a: Map<Seq<int>, nat>, b: Map<Seq<int>, nat>, n: Seq<int>) -> bool {
    count(a, n) < count(b, n)
}

/// `a` came causally before `b`: nowhere greater, somewhere smaller.
pub open spec fn superseded(a: Map<Seq<int>, nat>, b: Map<Seq<int>, nat>) -> bool {
    no_greater(a, b) && exists|n: Seq<int>| behind_at(a, b, n)
}

/// The names in `s` stand in strictly ascending order.
pub open spec fn ascending(s: Seq<Seq<int>>) -> bool {
    forall|i: int, j: int| 0 <= i < j < s.len() ==> name_before(#[trigger] s[i], #[trigger] s[j])
}

/// `s` lists the names of `d`, each once, in ascending order.
pub open spec fn lists(s: Seq<Seq<int>>, d: Set<Seq<int>>) -> bool {
    ascending(s) && forall|n: Seq<int>| s.contains(n) <==> d.contains(n)
}

/// The hosts that the clock `m` holds, in ascending order.
pub open spec fn sorted_names(m: Map<Seq<int>, nat>) -> Seq<Seq<int>> {
    choose|s: Seq<Seq<int>>| lists(s, m.dom())
}

/// `a` comes strictly before `b` when the two lists of names are compared
/// lexicographically, name by name.
pub open spec fn names_before(a: Seq<Seq<int>>, b: Seq<Seq<int>>) -> bool {
    exists|i: int|
        #[trigger] first_difference(a, b, i) && i < b.len() && (i == a.len() || name_before(
            a[i],
            b[i],
        ))
}

/// The counters of `m` for the hosts of `keys`, in the order of `keys`.
pub open spec fn counts_along(m: Map<Seq<int>, nat>, keys: Seq<Seq<int>>) -> Seq<nat> {
    Seq::new(keys.len(), |i: int| count(m, keys[i]))
}

/// Walking `keys` in order, the first host for which `a` and `b` have counted
/// differently is one for which `a` has counted more.
pub open spec fn counts_greater(
    a: Map<Seq<int>, nat>,
    b: Map<Seq<int>, nat>,
    keys: Seq<Seq<int>>,
) -> bool {
    exists|i: int|
        #[trigger] first_difference(counts_along(a, keys), counts_along(b, keys), i) && i
            < keys.len() && count(a, keys[i]) > count(b, keys[i])
}

/// The tie-break between clocks that causality leaves unordered: the clock
/// with more hosts is the greater; with as many hosts, the one whose sorted
/// list of hosts is lexicographically greater; with the same hosts, the one
/// that has counted more for the first host on which they differ.
pub open spec fn concurrent_greater(a: Map<Seq<int>, nat>, b: Map<Seq<int>, nat>) -> bool {
    let ka = sorted_names(a);
    let kb = sorted_names(b);
    if ka.len() != kb.len() {
        ka.len() > kb.len()
    } else if ka != kb {
        names_before(kb, ka)
    } else {
        counts_greater(a, b, ka)
    }
}

/// The relation of the clock `a` to the clock `b`.
pub open spec fn relation(a: Map<Seq<int>, nat>, b: Map<Seq<int>, nat>) -> TemporalRelation {
    if same_counts(a, b) {
        TemporalRelation::Equal
    } else if superseded(a, b) {
        TemporalRelation::Caused
    } else if superseded(b, a) {
        TemporalRelation::EffectOf
    } else if concurrent_greater(a, b) {
        TemporalRelation::ConcurrentGreater
    } else {
        TemporalRelation::ConcurrentSmaller
    }
}

/// The clock `m` after the host `n` has counted one more event.
pub open spec fn incremented(m: Map<Seq<int>, nat>, n: Seq<int>) -> Map<Seq<int>, nat> {
    m.insert(n, count(m, n) + 1)
}

/// The larger of two counters.
pub open spec fn larger(x: nat, y: nat) -> nat {
    if x >= y {
        x
    } else {
        y
    }
}

/// The merge of two clocks: for every host of either, the larger counter.
pub open spec fn merged(a: Map<Seq<int>, nat>, b: Map<Seq<int>, nat>) -> Map<Seq<int>, nat> {
    Map::new(
        |n: Seq<int>| a.dom().contains(n) || b.dom().contains(n),
        |n: Seq<int>| larger(count(a, n), count(b, n)),
    )
}

/// The greatest counter that a list of counters holds for the host `name`:
/// zero if it holds none.
pub open spec fn greatest<H: Host>(counts: Seq<(H, u64)>, name: Seq<int>) -> nat
    decreases counts.len(),
{
    if counts.len() == 0 {
        0
    } else {
        larger(
            greatest(counts.drop_last(), name),
            if counts.last().0.name() == name {
                counts.last().1 as nat
            } else {
                0
            },
        )
    }
}

/// Clocks that have counted the same for every host are the same clock.
pub proof fn lemma_same_counts_equal(a: Map<Seq<int>, nat>, b: Map<Seq<int>, nat>)
    requires
        valid(a),
        valid(b),
        same_counts(a, b),
    ensures
        a == b,
{
    assert forall|n: Seq<int>| a.dom().contains(n) <==> b.dom().contains(n) by {
        assert(count(a, n) == count(b, n));
        if a.dom().contains(n) {
            assert(a[n] >= 1);
        }
        if b.dom().contains(n) {
            assert(b[n] >= 1);
        }
    }
    assert forall|n: Seq<int>| a.dom().contains(n) implies a[n] == b[n] by {
        assert(count(a, n) == count(b, n));
    }
    assert(a =~= b);
}

/// The merge of two clocks is a clock.
pub proof fn lemma_merged_valid(a: Map<Seq<int>, nat>, b: Map<Seq<int>, nat>)
    requires
        valid(a),
        valid(b),
    ensures
        valid(merged(a, b)),
{
    let m = merged(a, b);
    assert(m.dom() =~= a.dom().union(b.dom()));
    assert forall|n: Seq<int>| m.dom().contains(n) implies #[trigger] m[n] >= 1 by {
        if a.dom().contains(n) {
            assert(a[n] >= 1);
        } else {
            assert(b[n] >= 1);
        }
    }
}

/// An incremented clock is a clock.
pub proof fn lemma_incremented_valid(m: Map<Seq<int>, nat>, n: Seq<int>)
    requires
        valid(m),
    ensures
        valid(incremented(m, n)),
{
}

/// Two ascending lists of the same names are the same list.
pub proof fn lemma_lists_unique(s: Seq<Seq<int>>, t: Seq<Seq<int>>, d: Set<Seq<int>>)
    requires
        lists(s, d),
        lists(t, d),
    ensures
        s == t,
    decreases s.len(),
{
    if s.len() == 0 {
        if t.len() > 0 {
            assert(t.contains(t[0]));
            assert(s.contains(t[0]));
        }
        assert(s =~= t);
    } else {
        let x = s.last();
        assert(s.contains(x));
        assert(t.contains(x));
        let k = choose|k: int| 0 <= k < t.len() && t[k] == x;
        // x is the greatest name of d, so it stands last in t as well
        if k < t.len() - 1 {
            let y = t.last();
            assert(t.contains(y));
            assert(s.contains(y));
            let j = choose|j: int| 0 <= j < s.len() && s[j] == y;
            assert(name_before(t[k], t[t.len() - 1]));
            if j < s.len() - 1 {
                assert(name_before(s[j], s[s.len() - 1]));
                lemma_name_before_asymmetric(x, y);
            } else {
                lemma_name_before_irreflexive(x);
            }
            assert(false);
        }
        let s1 = s.drop_last();
        let t1 = t.drop_last();
        let d1 = d.remove(x);
        assert(ascending(s1)) by {
            assert forall|i: int, j: int| 0 <= i < j < s1.len() implies name_before(
                #[trigger] s1[i],
                #[trigger] s1[j],
            ) by {
                assert(name_before(s[i], s[j]));
            }
        }
        assert(ascending(t1)) by {
            assert forall|i: int, j: int| 0 <= i < j < t1.len() implies name_before(
                #[trigger] t1[i],
                #[trigger] t1[j],
            ) by {
                assert(name_before(t[i], t[j]));
            }
        }
        assert forall|n: Seq<int>| s1.contains(n) <==> d1.contains(n) by {
            if s1.contains(n) {
                let i = choose|i: int| 0 <= i < s1.len() && s1[i] == n;
                assert(s[i] == n);
                assert(s.contains(n));
                assert(name_before(s[i], s[s.len() - 1]));
                if n == x {
                    lemma_name_before_irreflexive(x);
                }
            }
            if d1.contains(n) {
                assert(s.contains(n));
                let i = choose|i: int| 0 <= i < s.len() && s[i] == n;
                assert(i < s.len() - 1);
                assert(s1[i] == n);
            }
        }
        assert forall|n: Seq<int>| t1.contains(n) <==> d1.contains(n) by {
            if t1.contains(n) {
                let i = choose|i: int| 0 <= i < t1.len() && t1[i] == n;
                assert(t[i] == n);
                assert(t.contains(n));
                assert(name_before(t[i], t[t.len() - 1]));
                if n == x {
                    lemma_name_before_irreflexive(x);
                }
            }
            if d1.contains(n) {
                assert(t.contains(n));
                let i = choose|i: int| 0 <= i < t.len() && t[i] == n;
                assert(i < t.len() - 1);
                assert(t1[i] == n);
            }
        }
        lemma_lists_unique(s1, t1, d1);
        assert(s =~= s1.push(x));
        assert(t =~= t1.push(x));
    }
}


/// The names of a listing, in its order.
spec fn listing_names(l: Seq<(Seq<int>, nat)>) -> Seq<Seq<int>> {
    Seq::new(l.len(), |i: int| l[i].0)
}

/// A listing is in order when its names ascend strictly and every counter is
/// at least one and fits in 64 bits.
spec fn listing_ok(l: Seq<(Seq<int>, nat)>) -> bool {
    &&& ascending(listing_names(l))
    &&& forall|i: int| 0 <= i < l.len() ==> 1 <= (#[trigger] l[i]).1 <= u64::MAX
}

/// The listing `l` holds the name `n` at position `i`.
spec fn held_at(l: Seq<(Seq<int>, nat)>, n: Seq<int>, i: int) -> bool {
    0 <= i < l.len() && l[i].0 == n
}

/// The clock that a listing stands for.
spec fn listing_map(l: Seq<(Seq<int>, nat)>) -> Map<Seq<int>, nat> {
    Map::new(
        |n: Seq<int>| exists|i: int| held_at(l, n, i),
        |n: Seq<int>| l[choose|i: int| held_at(l, n, i)].1,
    )
}

/// A listing in order holds no name twice.
proof fn lemma_listing_distinct(l: Seq<(Seq<int>, nat)>, i: int, j: int)
    requires
        listing_ok(l),
        0 <= i < l.len(),
        0 <= j < l.len(),
        l[i].0 == l[j].0,
    ensures
        i == j,
{
    let names = listing_names(l);
    lemma_name_before_irreflexive(l[i].0);
    if i < j {
        assert(name_before(names[i], names[j]));
    }
    if j < i {
        assert(name_before(names[j], names[i]));
    }
}

/// The clock of a listing in order holds each entry of the listing.
proof fn lemma_listing_lookup(l: Seq<(Seq<int>, nat)>, i: int)
    requires
        listing_ok(l),
        0 <= i < l.len(),
    ensures
        listing_map(l).dom().contains(l[i].0),
        listing_map(l)[l[i].0] == l[i].1,
        count(listing_map(l), l[i].0) == l[i].1,
{
    let n = l[i].0;
    assert(held_at(l, n, i));
    let k = choose|k: int| held_at(l, n, k);
    lemma_listing_distinct(l, i, k);
}

/// A name that a listing does not hold has counted nothing in its clock.
proof fn lemma_listing_absent(l: Seq<(Seq<int>, nat)>, n: Seq<int>)
    requires
        forall|i: int| 0 <= i < l.len() ==> (#[trigger] l[i]).0 != n,
    ensures
        !listing_map(l).dom().contains(n),
        count(listing_map(l), n) == 0,
{
    if exists|i: int| held_at(l, n, i) {
        let i = choose|i: int| held_at(l, n, i);
        assert(l[i].0 != n);
    }
}

/// The clock of a listing in order is a clock, and its sorted names are the
/// names of the listing.
proof fn lemma_listing_valid(l: Seq<(Seq<int>, nat)>)
    requires
        listing_ok(l),
    ensures
        valid(listing_map(l)),
        sorted_names(listing_map(l)) == listing_names(l),
        lists(listing_names(l), listing_map(l).dom()),
{
    let m = listing_map(l);
    let names = listing_names(l);
    assert forall|n: Seq<int>| names.contains(n) <==> m.dom().contains(n) by {
        if names.contains(n) {
            let i = choose|i: int| 0 <= i < names.len() && names[i] == n;
            assert(held_at(l, n, i));
        }
        if m.dom().contains(n) {
            let i = choose|i: int| held_at(l, n, i);
            assert(names[i] == n);
        }
    }
    assert(m.dom() =~= names.to_set());
    vstd::seq_lib::seq_to_set_is_finite(names);
    assert forall|n: Seq<int>| m.dom().contains(n) implies #[trigger] m[n] >= 1 by {
        let i = choose|i: int| held_at(l, n, i);
        lemma_listing_lookup(l, i);
    }
    assert(lists(names, m.dom()));
    lemma_lists_unique(sorted_names(m), names, m.dom());
}

/// Listings in order that stand for the same clock are the same listing.
proof fn lemma_listing_canonical(k: Seq<(Seq<int>, nat)>, l: Seq<(Seq<int>, nat)>)
    requires
        listing_ok(k),
        listing_ok(l),
        listing_map(k) == listing_map(l),
    ensures
        k == l,
{
    lemma_listing_valid(k);
    lemma_listing_valid(l);
    assert(listing_names(k).len() == listing_names(l).len());
    assert forall|i: int| 0 <= i < k.len() implies k[i] == l[i] by {
        assert(listing_names(k)[i] == listing_names(l)[i]);
        lemma_listing_lookup(k, i);
        lemma_listing_lookup(l, i);
    }
    assert(k =~= l);
}

/// A listing with one entry raised: below `p` the entries of `l`, then the
/// entry `(n, v)`, then the entries of `l` from `q` on.
spec fn listing_with(l: Seq<(Seq<int>, nat)>, p: int, q: int, n: Seq<int>, v: nat) -> Seq<
    (Seq<int>, nat),
> {
    l.take(p).push((n, v)) + l.skip(q)
}

/// Putting `(n, v)` in its place in a listing in order gives a listing in
/// order, whose clock is the old one with the counter of `n` set to `v`.
proof fn lemma_listing_with(l: Seq<(Seq<int>, nat)>, p: int, q: int, n: Seq<int>, v: nat)
    requires
        listing_ok(l),
        0 <= p <= l.len(),
        1 <= v <= u64::MAX,
        forall|i: int| 0 <= i < p ==> name_before((#[trigger] l[i]).0, n),
        (q == p && (p == l.len() || name_before(n, l[p].0))) || (q == p + 1 && p < l.len()
            && l[p].0 == n),
    ensures
        listing_ok(listing_with(l, p, q, n, v)),
        listing_map(listing_with(l, p, q, n, v)) == listing_map(l).insert(n, v),
{
    let r = listing_with(l, p, q, n, v);
    let names = listing_names(l);
    let rnames = listing_names(r);
    assert(r.len() == p + 1 + (l.len() - q));
    assert(forall|i: int| 0 <= i < p ==> r[i] == l[i]);
    assert(r[p] == (n, v));
    assert(forall|i: int| p < i < r.len() ==> r[i] == l[i - p - 1 + q]);
    // every entry from q on has a name after n
    assert forall|j: int| q <= j < l.len() implies name_before(n, (#[trigger] l[j]).0) by {
        if q == p {
            if j > p {
                assert(name_before(names[p], names[j]));
                lemma_name_before_transitive(n, l[p].0, l[j].0);
            }
        } else {
            assert(name_before(names[p], names[j]));
        }
    }
    assert forall|i: int, j: int| 0 <= i < j < rnames.len() implies name_before(
        #[trigger] rnames[i],
        #[trigger] rnames[j],
    ) by {
        if j < p {
            assert(name_before(names[i], names[j]));
        } else if j == p {
            assert(name_before(l[i].0, n));
        } else if i < p {
            assert(name_before(names[i], names[j - p - 1 + q]));
        } else if i == p {
            assert(name_before(n, l[j - p - 1 + q].0));
        } else {
            assert(name_before(names[i - p - 1 + q], names[j - p - 1 + q]));
        }
    }
    assert(listing_ok(r));
    let m0 = listing_map(l).insert(n, v);
    let m1 = listing_map(r);
    assert forall|x: Seq<int>| m1.dom().contains(x) <==> m0.dom().contains(x) by {
        if m1.dom().contains(x) {
            let i = choose|i: int| held_at(r, x, i);
            if i < p {
                assert(held_at(l, x, i));
            } else if i > p {
                assert(held_at(l, x, i - p - 1 + q));
            }
        }
        if m0.dom().contains(x) && x != n {
            let i = choose|i: int| held_at(l, x, i);
            if i < p {
                assert(held_at(r, x, i));
            } else {
                assert(i >= q);
                assert(held_at(r, x, i - q + p + 1));
            }
        }
        if x == n {
            assert(held_at(r, x, p));
        }
    }
    assert forall|x: Seq<int>| m1.dom().contains(x) implies m1[x] == m0[x] by {
        let i = choose|i: int| held_at(r, x, i);
        lemma_listing_lookup(r, i);
        if i < p {
            lemma_listing_lookup(l, i);
            lemma_name_before_irreflexive(n);
        } else if i > p {
            lemma_listing_lookup(l, i - p - 1 + q);
            lemma_name_before_irreflexive(n);
        }
    }
    assert(m1 =~= m0);
}

/// What the lexicographic comparison of two lists of names tells, once the
/// position where they stop agreeing is known.
pub proof fn lemma_names_before_at(a: Seq<Seq<int>>, b: Seq<Seq<int>>, i: int)
    requires
        first_difference(a, b, i),
    ensures
        names_before(a, b) == (i < b.len() && (i == a.len() || name_before(a[i], b[i]))),
{
    if names_before(a, b) {
        let k = choose|k: int|
            #[trigger] first_difference(a, b, k) && k < b.len() && (k == a.len() || name_before(
                a[k],
                b[k],
            ));
        lemma_first_difference_unique(a, b, i, k);
    }
}

/// What the walk over the counters tells, once the first host on which the
/// two clocks differ is known.
pub proof fn lemma_counts_greater_at(
    a: Map<Seq<int>, nat>,
    b: Map<Seq<int>, nat>,
    keys: Seq<Seq<int>>,
    i: int,
)
    requires
        first_difference(counts_along(a, keys), counts_along(b, keys), i),
    ensures
        counts_greater(a, b, keys) == (i < keys.len() && count(a, keys[i]) > count(b, keys[i])),
{
    if counts_greater(a, b, keys) {
        let k = choose|k: int|
            #[trigger] first_difference(counts_along(a, keys), counts_along(b, keys), k) && k
                < keys.len() && count(a, keys[k]) > count(b, keys[k]);
        lemma_first_difference_unique(counts_along(a, keys), counts_along(b, keys), i, k);
    }
}

/// The entries of a clock as pairs of a name and a counter.
spec fn listing_of<H: Host>(entries: Seq<(H, u64)>) -> Seq<(Seq<int>, nat)> {
    Seq::new(entries.len(), |i: int| (entries[i].0.name(), entries[i].1 as nat))
}

/// A vector clock: for each host, the number of events that it has counted.
#[derive(Debug)]
pub struct VectorClock<H: Host> {
    entries: Vec<(H, u64)>,
}

impl<H: Host> View for VectorClock<H> {
    type V = Map<Seq<int>, nat>;

    /// The clock as a map from the names of its hosts to their counters.
    closed spec fn view(&self) -> Map<Seq<int>, nat> {
        listing_map(self.listing())
    }
}

impl<H: Host> VectorClock<H> {
    /// The entries of the clock as pairs of a name and a counter.
    closed spec fn listing(&self) -> Seq<(Seq<int>, nat)> {
        listing_of(self.entries@)
    }

    /// The entries are held in ascending order of their names, with counters
    /// of at least one.
    #[verifier::type_invariant]
    closed spec fn well_formed(&self) -> bool {
        listing_ok(self.listing())
    }

    /// Creates an empty VectorClock.
    pub fn new() -> (clock: VectorClock<H>)
        ensures
            clock@ == Map::<Seq<int>, nat>::empty(),
            valid(clock@),
    {
        let clock = VectorClock { entries: Vec::new() };
        proof {
            assert(clock.listing() =~= Seq::empty());
            assert(listing_names(clock.listing()) =~= Seq::empty());
            lemma_listing_valid(clock.listing());
            assert(clock@ =~= Map::<Seq<int>, nat>::empty()) by {
                assert forall|n: Seq<int>| !clock@.dom().contains(n) by {
                    lemma_listing_absent(clock.listing(), n);
                }
            }
        }
        clock
    }

    /// The number of events that `host` has counted: zero for a host that
    /// the clock does not hold.
    pub fn get(&self, host: &H) -> (n: u64)
        ensures
            n == count(self@, host.name()),
    {
        proof {
            use_type_invariant(self);
        }
        let mut i: usize = 0;
        while i < self.entries.len()
            invariant
                i <= self.entries@.len(),
                listing_ok(self.listing()),
                forall|j: int| 0 <= j < i ==> (#[trigger] self.listing()[j]).0 != host.name(),
            decreases self.entries@.len() - i,
        {
            match self.entries[i].0.compare(host) {
                Precedence::Same => {
                    proof {
                        lemma_name_before_total(self.entries@[i as int].0.name(), host.name());
                        assert(self.listing()[i as int].0 == host.name());
                        lemma_listing_lookup(self.listing(), i as int);
                    }
                    return self.entries[i].1;
                },
                _ => {
                    proof {
                        lemma_name_before_irreflexive(host.name());
                    }
                },
            }
            i += 1;
        }
        proof {
            lemma_listing_absent(self.listing(), host.name());
        }
        0
    }

    /// The clock that holds, for every host of `counts`, the greatest counter
    /// that `counts` gives it. A counter of zero says as much as none.
    pub fn from_counts(counts: &Vec<(H, u64)>) -> (r: Self)
        ensures
            valid(r@),
            forall|n: Seq<int>| #![trigger count(r@, n)] count(r@, n) == greatest(counts@, n),
    {
        let mut acc: VectorClock<H> = VectorClock::new();
        let mut i: usize = 0;
        while i < counts.len()
            invariant
                i <= counts@.len(),
                valid(acc@),
                forall|n: Seq<int>|
                    #![trigger count(acc@, n)]
                    count(acc@, n) == greatest(counts@.take(i as int), n),
            decreases counts@.len() - i,
        {
            let ghost before = acc@;
            proof {
                assert(counts@.take(i + 1).drop_last() =~= counts@.take(i as int));
                assert(counts@.take(i + 1).last() == counts@[i as int]);
            }
            if counts[i].1 >= 1 {
                acc = acc.raised(counts[i].0.duplicate(), counts[i].1);
            }
            proof {
                assert forall|n: Seq<int>|
                    #![trigger count(acc@, n)]
                    count(acc@, n) == greatest(counts@.take(i + 1), n) by {
                    assert(count(before, n) == greatest(counts@.take(i as int), n));
                }
            }
            i += 1;
        }
        proof {
            assert(counts@.take(i as int) =~= counts@);
        }
        acc
    }

    /// The hosts of the clock with their counters, in ascending order of the
    /// hosts.
    pub fn entries(&self) -> (r: Vec<(H, u64)>)
        ensures
            valid(self@),
            r@.len() == sorted_names(self@).len(),
            forall|i: int|
                0 <= i < r@.len() ==> (#[trigger] r@[i]).0.name() == sorted_names(self@)[i]
                    && r@[i].1 == count(self@, sorted_names(self@)[i]),
    {
        proof {
            use_type_invariant(self);
            lemma_listing_valid(self.listing());
        }
        let ghost l = self.listing();
        let mut out: Vec<(H, u64)> = Vec::new();
        let mut i: usize = 0;
        while i < self.entries.len()
            invariant
                l == self.listing(),
                listing_ok(l),
                i <= self.entries@.len(),
                out@.len() == i,
                forall|j: int|
                    0 <= j < i ==> (#[trigger] out@[j]).0.name() == l[j].0 && out@[j].1 as nat
                        == count(self@, l[j].0),
            decreases self.entries@.len() - i,
        {
            proof {
                lemma_listing_lookup(l, i as int);
            }
            out.push((self.entries[i].0.duplicate(), self.entries[i].1));
            i += 1;
        }
        proof {
            assert forall|j: int| 0 <= j < out@.len() implies (#[trigger] out@[j]).0.name()
                == sorted_names(self@)[j] && out@[j].1 == count(self@, sorted_names(self@)[j]) by {
                assert(listing_names(l)[j] == l[j].0);
            }
        }
        out
    }

    /// A copy of this clock in which `host` has counted at least `n`.
    fn raised(&self, host: H, n: u64) -> (r: Self)
        requires
            n >= 1,
        ensures
            r@ == self@.insert(host.name(), larger(count(self@, host.name()), n as nat)),
            valid(r@),
    {
        proof {
            use_type_invariant(self);
        }
        let ghost l = self.listing();
        let len = self.entries.len();
        let mut out: Vec<(H, u64)> = Vec::new();
        let mut p: usize = 0;
        let mut stop = false;
        let mut same = false;
        while !stop && p < len
            invariant
                l == self.listing(),
                listing_ok(l),
                len == self.entries@.len(),
                p <= len,
                out@.len() == p,
                forall|j: int|
                    0 <= j < p ==> (#[trigger] out@[j]).0.name() == l[j].0 && out@[j].1 == l[j].1,
                forall|j: int| 0 <= j < p ==> name_before((#[trigger] l[j]).0, host.name()),
                stop ==> p < len,
                stop && same ==> l[p as int].0 == host.name(),
                stop && !same ==> name_before(host.name(), l[p as int].0),
                !stop ==> !same,
            decreases (len - p) + (if stop { 0int } else { 1int }),
        {
            match self.entries[p].0.compare(&host) {
                Precedence::Before => {
                    out.push((self.entries[p].0.duplicate(), self.entries[p].1));
                    p += 1;
                },
                Precedence::Same => {
                    proof {
                        lemma_name_before_total(l[p as int].0, host.name());
                    }
                    stop = true;
                    same = true;
                },
                Precedence::After => {
                    stop = true;
                },
            }
        }
        let mut v: u64 = n;
        let mut q: usize = p;
        if same {
            if self.entries[p].1 > n {
                v = self.entries[p].1;
            }
            q = p + 1;
        }
        let ghost name = host.name();
        out.push((host, v));
        let mut j: usize = q;
        while j < len
            invariant
                l == self.listing(),
                len == self.entries@.len(),
                p <= q <= j <= len,
                out@.len() == p + 1 + (j - q),
                forall|k: int|
                    0 <= k < p ==> (#[trigger] out@[k]).0.name() == l[k].0 && out@[k].1 == l[k].1,
                out@[p as int].0.name() == name,
                out@[p as int].1 == v,
                forall|k: int|
                    p < k < out@.len() ==> (#[trigger] out@[k]).0.name() == l[k - p - 1 + q].0
                        && out@[k].1 == l[k - p - 1 + q].1,
            decreases len - j,
        {
            out.push((self.entries[j].0.duplicate(), self.entries[j].1));
            j += 1;
        }
        proof {
            lemma_listing_with(l, p as int, q as int, name, v as nat);
            lemma_listing_valid(listing_with(l, p as int, q as int, name, v as nat));
            if same {
                lemma_listing_lookup(l, p as int);
            } else {
                assert forall|i: int| 0 <= i < l.len() implies (#[trigger] l[i]).0 != name by {
                    lemma_name_before_irreflexive(name);
                    if i > p {
                        assert(name_before(listing_names(l)[p as int], listing_names(l)[i]));
                        lemma_name_before_transitive(name, l[p as int].0, l[i].0);
                    }
                }
                lemma_listing_absent(l, name);
            }
        }
        proof {
            assert(listing_of(out@) =~= listing_with(l, p as int, q as int, name, v as nat));
        }
        VectorClock { entries: out }
    }

    /// Increments the counter for `host` by one.
    pub fn incr(&mut self, host: H)
        requires
            count(old(self)@, host.name()) < u64::MAX,
        ensures
            final(self)@ == incremented(old(self)@, host.name()),
            valid(final(self)@),
    {
        let next = self.incr_clone(host);
        *self = next;
    }

    /// Makes a copy of the clock, increments the counter for `host` by one in
    /// it, and returns the copy.
    pub fn incr_clone(&self, host: H) -> (r: Self)
        requires
            count(self@, host.name()) < u64::MAX,
        ensures
            r@ == incremented(self@, host.name()),
            valid(r@),
    {
        let c = self.get(&host);
        self.raised(host, c + 1)
    }

    /// Determines the temporal relation between this clock and `other`.
    pub fn temporal_relation(&self, other: &Self) -> (r: TemporalRelation)
        ensures
            r == relation(self@, other@),
            valid(self@),
            valid(other@),
    {
        proof {
            use_type_invariant(self);
            use_type_invariant(other);
            lemma_listing_valid(self.listing());
            lemma_listing_valid(other.listing());
            if same_counts(self@, other@) {
                lemma_same_counts_equal(self@, other@);
            }
        }
        if self == other {
            TemporalRelation::Equal
        } else if self.superseded_by(other) {
            TemporalRelation::Caused
        } else if other.superseded_by(self) {
            TemporalRelation::EffectOf
        } else if self.is_greater_concurrent_than(other) {
            TemporalRelation::ConcurrentGreater
        } else {
            TemporalRelation::ConcurrentSmaller
        }
    }

    /// Decides the tie-break between this clock and a different clock `other`.
    fn is_greater_concurrent_than(&self, other: &Self) -> (r: bool)
        requires
            !same_counts(self@, other@),
        ensures
            r == concurrent_greater(self@, other@),
    {
        proof {
            use_type_invariant(self);
            use_type_invariant(other);
            lemma_listing_valid(self.listing());
            lemma_listing_valid(other.listing());
        }
        let ghost la = self.listing();
        let ghost lb = other.listing();
        let ghost ka = listing_names(la);
        let ghost kb = listing_names(lb);
        let len = self.entries.len();
        if len > other.entries.len() {
            return true;
        } else if other.entries.len() > len {
            return false;
        }
        let mut i: usize = 0;
        while i < len
            invariant
                la == self.listing(),
                lb == other.listing(),
                ka == listing_names(la),
                kb == listing_names(lb),
                len == self.entries@.len(),
                len == other.entries@.len(),
                i <= len,
                ka == sorted_names(self@),
                kb == sorted_names(other@),
                ka.len() == kb.len(),
                forall|j: int| 0 <= j < i ==> ka[j] == kb[j],
            decreases len - i,
        {
            match self.entries[i].0.compare(&other.entries[i].0) {
                Precedence::Before => {
                    proof {
                        lemma_name_before_irreflexive(ka[i as int]);
                        lemma_name_before_asymmetric(ka[i as int], kb[i as int]);
                        assert(first_difference(kb, ka, i as int));
                        lemma_names_before_at(kb, ka, i as int);
                        assert(ka != kb);
                    }
                    return false;
                },
                Precedence::After => {
                    proof {
                        lemma_name_before_irreflexive(ka[i as int]);
                        assert(first_difference(kb, ka, i as int));
                        lemma_names_before_at(kb, ka, i as int);
                        assert(ka != kb);
                    }
                    return true;
                },
                Precedence::Same => {
                    proof {
                        lemma_name_before_total(ka[i as int], kb[i as int]);
                    }
                },
            }
            i += 1;
        }
        proof {
            assert(ka =~= kb);
        }
        let ghost ca = counts_along(self@, ka);
        let ghost cb = counts_along(other@, ka);
        let mut i: usize = 0;
        while i < len
            invariant
                la == self.listing(),
                lb == other.listing(),
                listing_ok(la),
                listing_ok(lb),
                ka == listing_names(la),
                ka == listing_names(lb),
                len == self.entries@.len(),
                len == other.entries@.len(),
                i <= len,
                ka == sorted_names(self@),
                ka == sorted_names(other@),
                ca == counts_along(self@, ka),
                cb == counts_along(other@, ka),
                forall|j: int| 0 <= j < i ==> ca[j] == cb[j],
            decreases len - i,
        {
            let own_val = self.entries[i].1;
            let other_val = other.entries[i].1;
            proof {
                lemma_listing_lookup(la, i as int);
                lemma_listing_lookup(lb, i as int);
                assert(lb[i as int].0 == ka[i as int]);
                assert(la[i as int].0 == ka[i as int]);
            }
            if own_val != other_val {
                proof {
                    assert(first_difference(ca, cb, i as int));
                    lemma_counts_greater_at(self@, other@, ka, i as int);
                }
                return own_val > other_val;
            }
            i += 1;
        }
        proof {
            assert forall|n: Seq<int>| count(self@, n) == count(other@, n) by {
                if self@.dom().contains(n) {
                    let k = choose|k: int| held_at(la, n, k);
                    assert(ca[k] == cb[k]);
                    assert(ka[k] == n);
                } else if other@.dom().contains(n) {
                    let k = choose|k: int| held_at(lb, n, k);
                    assert(ka[k] == n);
                    assert(held_at(la, n, k));
                }
            }
            assert(false);
        }
        false
    }

    /// Whether this clock came causally before `other`: it has counted no
    /// more for any host, and less for at least one.
    pub fn superseded_by(&self, other: &Self) -> (r: bool)
        ensures
            r == superseded(self@, other@),
    {
        proof {
            use_type_invariant(self);
            use_type_invariant(other);
        }
        let ghost la = self.listing();
        let ghost lb = other.listing();
        let mut has_smaller = false;
        let mut i: usize = 0;
        while i < self.entries.len()
            invariant
                la == self.listing(),
                lb == other.listing(),
                listing_ok(la),
                listing_ok(lb),
                i <= self.entries@.len(),
                forall|j: int|
                    0 <= j < i ==> count(self@, (#[trigger] la[j]).0) <= count(other@, la[j].0),
                has_smaller ==> exists|n: Seq<int>| behind_at(self@, other@, n),
            decreases self.entries@.len() - i,
        {
            let self_n = self.entries[i].1;
            let other_n = other.get(&self.entries[i].0);
            proof {
                lemma_listing_lookup(la, i as int);
            }
            if self_n > other_n {
                proof {
                    assert(count(self@, la[i as int].0) > count(other@, la[i as int].0));
                }
                return false;
            }
            if self_n < other_n {
                proof {
                    assert(behind_at(self@, other@, la[i as int].0));
                }
                has_smaller = true;
            }
            i += 1;
        }
        let mut i: usize = 0;
        while i < other.entries.len()
            invariant
                la == self.listing(),
                lb == other.listing(),
                listing_ok(la),
                listing_ok(lb),
                i <= other.entries@.len(),
                forall|j: int|
                    0 <= j < la.len() ==> count(self@, (#[trigger] la[j]).0) <= count(
                        other@,
                        la[j].0,
                    ),
                forall|j: int|
                    0 <= j < i ==> count(self@, (#[trigger] lb[j]).0) <= count(other@, lb[j].0),
                forall|j: int|
                    0 <= j < i && !has_smaller ==> count(self@, (#[trigger] lb[j]).0) == count(
                        other@,
                        lb[j].0,
                    ),
                has_smaller ==> exists|n: Seq<int>| behind_at(self@, other@, n),
            decreases other.entries@.len() - i,
        {
            let self_n = self.get(&other.entries[i].0);
            let other_n = other.entries[i].1;
            proof {
                lemma_listing_lookup(lb, i as int);
            }
            if self_n > other_n {
                proof {
                    assert(count(self@, lb[i as int].0) > count(other@, lb[i as int].0));
                }
                return false;
            }
            if self_n < other_n {
                proof {
                    assert(behind_at(self@, other@, lb[i as int].0));
                }
                has_smaller = true;
            }
            i += 1;
        }
        proof {
            assert forall|n: Seq<int>| count(self@, n) <= count(other@, n) by {
                if self@.dom().contains(n) {
                    let k = choose|k: int| held_at(la, n, k);
                    assert(count(self@, la[k].0) <= count(other@, la[k].0));
                }
            }
            if !has_smaller {
                assert forall|n: Seq<int>| !behind_at(self@, other@, n) by {
                    if other@.dom().contains(n) {
                        let k = choose|k: int| held_at(lb, n, k);
                        assert(count(self@, lb[k].0) == count(other@, lb[k].0));
                    }
                }
            }
        }
        has_smaller
    }

    /// Merges a copy of this clock with `other`, returning a new clock that
    /// holds, for every host of either, the larger of the two counters.
    pub fn merge_with(&self, other: &Self) -> (r: Self)
        ensures
            r@ == merged(self@, other@),
            valid(r@),
    {
        proof {
            use_type_invariant(self);
            use_type_invariant(other);
            lemma_listing_valid(self.listing());
            lemma_listing_valid(other.listing());
        }
        let ghost lb = other.listing();
        let mut acc = self.clone();
        let mut i: usize = 0;
        while i < other.entries.len()
            invariant
                lb == other.listing(),
                listing_ok(lb),
                i <= other.entries@.len(),
                valid(acc@),
                valid(self@),
                forall|n: Seq<int>|
                    #![trigger count(acc@, n)]
                    count(acc@, n) == larger(count(self@, n), count(listing_map(lb.take(i as int)), n)),
            decreases other.entries@.len() - i,
        {
            let ghost before = acc@;
            let ghost name = lb[i as int].0;
            let ghost seen = listing_map(lb.take(i as int));
            let ghost next = listing_map(lb.take(i + 1));
            let host = other.entries[i].0.duplicate();
            acc = acc.raised(host, other.entries[i].1);
            proof {
                assert forall|n: Seq<int>| count(next, n) == (if n == name {
                    lb[i as int].1
                } else {
                    count(seen, n)
                }) by {
                    lemma_take_step(lb, i as int, n);
                }
                assert forall|n: Seq<int>|
                    #![trigger count(acc@, n)]
                    count(acc@, n) == larger(count(self@, n), count(next, n)) by {
                    assert(count(before, n) == larger(count(self@, n), count(seen, n)));
                    lemma_take_step(lb, i as int, name);
                }
            }
            i += 1;
        }
        proof {
            assert(lb.take(i as int) =~= lb);
            lemma_merged_valid(self@, other@);
            assert forall|n: Seq<int>| count(acc@, n) == count(merged(self@, other@), n) by {
                assert(count(acc@, n) == larger(count(self@, n), count(other@, n)));
            }
            lemma_same_counts_equal(acc@, merged(self@, other@));
        }
        acc
    }
}

/// What one more entry adds to the clock of the first `i` entries of a
/// listing in order.
proof fn lemma_take_step(l: Seq<(Seq<int>, nat)>, i: int, n: Seq<int>)
    requires
        listing_ok(l),
        0 <= i < l.len(),
    ensures
        count(listing_map(l.take(i + 1)), n) == (if n == l[i].0 {
            l[i].1
        } else {
            count(listing_map(l.take(i)), n)
        }),
        n == l[i].0 ==> count(listing_map(l.take(i)), n) == 0,
{
    let a = l.take(i);
    let b = l.take(i + 1);
    assert(listing_ok(b)) by {
        assert forall|x: int, y: int| 0 <= x < y < b.len() implies name_before(
            #[trigger] listing_names(b)[x],
            #[trigger] listing_names(b)[y],
        ) by {
            assert(name_before(listing_names(l)[x], listing_names(l)[y]));
        }
    }
    if n == l[i].0 {
        lemma_listing_lookup(b, i);
        assert forall|k: int| 0 <= k < a.len() implies (#[trigger] a[k]).0 != n by {
            if a[k].0 == n {
                lemma_listing_distinct(l, k, i);
            }
        }
        lemma_listing_absent(a, n);
    } else {
        if listing_map(b).dom().contains(n) {
            let k = choose|k: int| held_at(b, n, k);
            assert(held_at(a, n, k));
            lemma_listing_lookup(b, k);
            assert(listing_ok(a)) by {
                assert forall|x: int, y: int| 0 <= x < y < a.len() implies name_before(
                    #[trigger] listing_names(a)[x],
                    #[trigger] listing_names(a)[y],
                ) by {
                    assert(name_before(listing_names(l)[x], listing_names(l)[y]));
                }
            }
            lemma_listing_lookup(a, k);
        } else if listing_map(a).dom().contains(n) {
            let k = choose|k: int| held_at(a, n, k);
            assert(held_at(b, n, k));
        }
    }
}

impl<H: Host> Clone for VectorClock<H> {
    /// A copy of the clock, holding the same counters for the same hosts.
    fn clone(&self) -> (c: Self)
        ensures
            c@ == self@,
    {
        proof {
            use_type_invariant(self);
        }
        let mut out: Vec<(H, u64)> = Vec::new();
        let mut i: usize = 0;
        while i < self.entries.len()
            invariant
                i <= self.entries@.len(),
                out@.len() == i,
                forall|j: int|
                    0 <= j < i ==> (#[trigger] out@[j]).0.name() == self.entries@[j].0.name()
                        && out@[j].1 == self.entries@[j].1,
            decreases self.entries@.len() - i,
        {
            out.push((self.entries[i].0.duplicate(), self.entries[i].1));
            i += 1;
        }
        proof {
            assert(listing_of(out@) =~= self.listing());
        }
        VectorClock { entries: out }
    }
}

impl<H: Host> PartialEq for VectorClock<H> {
    /// Two clocks are equal when they hold the same counters for the same
    /// hosts.
    fn eq(&self, other: &Self) -> (r: bool) {
        proof {
            use_type_invariant(self);
            use_type_invariant(other);
            if self@ == other@ {
                lemma_listing_canonical(self.listing(), other.listing());
            }
        }
        if self.entries.len() != other.entries.len() {
            return false;
        }
        let mut i: usize = 0;
        while i < self.entries.len()
            invariant
                i <= self.entries@.len(),
                self.entries@.len() == other.entries@.len(),
                self@ == other@ ==> self.listing() == other.listing(),
                forall|j: int| 0 <= j < i ==> self.listing()[j] == other.listing()[j],
            decreases self.entries@.len() - i,
        {
            match self.entries[i].0.compare(&other.entries[i].0) {
                Precedence::Same => {
                    proof {
                        lemma_name_before_total(
                            self.entries@[i as int].0.name(),
                            other.entries@[i as int].0.name(),
                        );
                    }
                },
                _ => {
                    proof {
                        lemma_name_before_irreflexive(self.entries@[i as int].0.name());
                        assert(self.listing()[i as int].0 != other.listing()[i as int].0);
                    }
                    return false;
                },
            }
            if self.entries[i].1 != other.entries[i].1 {
                proof {
                    assert(self.listing()[i as int].1 != other.listing()[i as int].1);
                }
                return false;
            }
            i += 1;
        }
        proof {
            assert(self.listing() =~= other.listing());
        }
        true
    }
}

impl<H: Host> PartialEqSpecImpl for VectorClock<H> {
    open spec fn obeys_eq_spec() -> bool {
        true
    }

    open spec fn eq_spec(&self, other: &Self) -> bool {
        self@ == other@
    }
}

impl<H: Host> Eq for VectorClock<H> {

}

} // verus!
