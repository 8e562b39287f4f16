//! Hosts: the participants that a vector clock counts events for.
//!
//! A host is known to a clock by its *name*, a finite sequence of integers.
//! Names are ordered lexicographically, a proper prefix coming before any of
//! its extensions.

use vstd::prelude::*;
use vstd::string::StringSliceAdditionalSpecFns;

verus! {

/// How one name stands to another in the order of names.
#[derive(Clone, Copy, Debug, PartialEq, Eq, Structural)]
pub enum Precedence {
    Before,
    Same,
    After,
}

/// `i` is the first position at which `a` and `b` stop agreeing: they are
/// equal below `i`, and at `i` one of them ends or they differ.
pub open spec fn first_difference<T>(a: Seq<T>, b: Seq<T>, i: int) -> bool {
    &&& 0 <= i <= a.len()
    &&& i <= b.len()
    &&& forall|j: int| 0 <= j < i ==> a[j] == b[j]
    &&& (i == a.len() || i == b.len() || a[i] != b[i])
}

/// `a` comes strictly before `b` in the lexicographic order of names.
pub open spec fn name_before(a: Seq<int>, b: Seq<int>) -> bool {
    exists|i: int|
        #[trigger] first_difference(a, b, i) && i < b.len() && (i == a.len() || a[i] < b[i])
}

/// The three-way comparison of two names.
pub open spec fn name_order(a: Seq<int>, b: Seq<int>) -> Precedence {
    if name_before(a, b) {
        Precedence::Before
    } else if name_before(b, a) {
        Precedence::After
    } else {
        Precedence::Same
    }
}

/// Two sequences stop agreeing at one position only.
pub proof fn lemma_first_difference_unique<T>(a: Seq<T>, b: Seq<T>, i: int, j: int)
    requires
        first_difference(a, b, i),
        first_difference(a, b, j),
    ensures
        i == j,
{
    if i < j {
        assert(a[i] == b[i]);
    }
    if j < i {
        assert(a[j] == b[j]);
    }
}

/// Every pair of sequences stops agreeing somewhere.
pub proof fn lemma_first_difference_exists<T>(a: Seq<T>, b: Seq<T>) -> (i: int)
    ensures
        first_difference(a, b, i),
{
    lemma_first_difference_from(a, b, 0)
}

proof fn lemma_first_difference_from<T>(a: Seq<T>, b: Seq<T>, k: int) -> (i: int)
    requires
        0 <= k <= a.len(),
        k <= b.len(),
        forall|j: int| 0 <= j < k ==> a[j] == b[j],
    ensures
        first_difference(a, b, i),
    decreases a.len() - k,
{
    if k == a.len() || k == b.len() || a[k] != b[k] {
        k
    } else {
        lemma_first_difference_from(a, b, k + 1)
    }
}

/// No name comes before itself.
pub proof fn lemma_name_before_irreflexive(a: Seq<int>)
    ensures
        !name_before(a, a),
{
    if name_before(a, a) {
        let i = choose|i: int|
            #[trigger] first_difference(a, a, i) && i < a.len() && (i == a.len() || a[i] < a[i]);
        assert(false);
    }
}

/// Of two names at most one comes before the other.
pub proof fn lemma_name_before_asymmetric(a: Seq<int>, b: Seq<int>)
    ensures
        !(name_before(a, b) && name_before(b, a)),
{
    if name_before(a, b) && name_before(b, a) {
        let i = choose|i: int|
            #[trigger] first_difference(a, b, i) && i < b.len() && (i == a.len() || a[i] < b[i]);
        let j = choose|j: int|
            #[trigger] first_difference(b, a, j) && j < a.len() && (j == b.len() || b[j] < a[j]);
        assert(first_difference(a, b, j));
        lemma_first_difference_unique(a, b, i, j);
    }
}

/// Of two different names one comes before the other.
pub proof fn lemma_name_before_total(a: Seq<int>, b: Seq<int>)
    ensures
        a == b || name_before(a, b) || name_before(b, a),
{
    let i = lemma_first_difference_exists(a, b);
    if i == a.len() && i == b.len() {
        assert(a =~= b);
    } else {
        assert(first_difference(b, a, i));
    }
}

/// The order of names is transitive.
pub proof fn lemma_name_before_transitive(a: Seq<int>, b: Seq<int>, c: Seq<int>)
    requires
        name_before(a, b),
        name_before(b, c),
    ensures
        name_before(a, c),
{
    let i = choose|i: int|
        #[trigger] first_difference(a, b, i) && i < b.len() && (i == a.len() || a[i] < b[i]);
    let j = choose|j: int|
        #[trigger] first_difference(b, c, j) && j < c.len() && (j == b.len() || b[j] < c[j]);
    let m = if i <= j { i } else { j };
    assert(first_difference(a, c, m));
}

/// What the comparison of `a` with `b` tells, once the position where they
/// stop agreeing is known.
pub proof fn lemma_name_order_at(a: Seq<int>, b: Seq<int>, i: int)
    requires
        first_difference(a, b, i),
    ensures
        name_order(a, b) == if i == a.len() && i == b.len() {
            Precedence::Same
        } else if i < b.len() && (i == a.len() || a[i] < b[i]) {
            Precedence::Before
        } else {
            Precedence::After
        },
{
    assert(first_difference(b, a, i));
    if name_before(a, b) {
        let k = choose|k: int|
            #[trigger] first_difference(a, b, k) && k < b.len() && (k == a.len() || a[k] < b[k]);
        lemma_first_difference_unique(a, b, i, k);
    }
    if name_before(b, a) {
        let k = choose|k: int|
            #[trigger] first_difference(b, a, k) && k < a.len() && (k == b.len() || b[k] < a[k]);
        lemma_first_difference_unique(b, a, i, k);
    }
}

/// A participant that a vector clock can count events for.
pub trait Host: Sized {
    /// The name by which the host is ordered and found again.
    spec fn name(&self) -> Seq<int>;

    /// Compares the names of two hosts.
    fn compare(&self, other: &Self) -> (p: Precedence)
        ensures
            p == name_order(self.name(), other.name()),
    ;

    /// A second handle on the same host.
    fn duplicate(&self) -> (h: Self)
        ensures
            h.name() == self.name(),
    ;
}

/// The name of a host given as text: its UTF-8 bytes.
pub open spec fn text_name(bytes: Seq<u8>) -> Seq<int> {
    Seq::new(bytes.len(), |i: int| bytes[i] as int)
}

impl Host for &'static str {
    open spec fn name(&self) -> Seq<int> {
        text_name(self.spec_bytes())
    }

    fn compare(&self, other: &Self) -> (p: Precedence) {
        let a = self.as_bytes();
        let b = other.as_bytes();
        let mut i: usize = 0;
        while i < a.len() && i < b.len() && a[i] == b[i]
            invariant
                i <= a.len(),
                i <= b.len(),
                forall|j: int| 0 <= j < i ==> a@[j] == b@[j],
            decreases a.len() - i,
        {
            i += 1;
        }
        proof {
            let x = text_name(a@);
            let y = text_name(b@);
            assert(first_difference(x, y, i as int));
            lemma_name_order_at(x, y, i as int);
        }
        if i == a.len() && i == b.len() {
            Precedence::Same
        } else if i < b.len() && (i == a.len() || a[i] < b[i]) {
            Precedence::Before
        } else {
            Precedence::After
        }
    }

    fn duplicate(&self) -> (h: Self) {
        *self
    }
}

} // verus!
