use shared_clipboard::clock::{TemporalRelation, VectorClock};

type StrVectorClock = VectorClock<&'static str>;

#[test]
fn test_empty_ordering() {
    let c1 = StrVectorClock::new();
    let c2 = StrVectorClock::new();

    assert_eq!(c1, c2);

    assert_eq!(c1.temporal_relation(&c2), TemporalRelation::Equal);
    assert_eq!(c2.temporal_relation(&c1), TemporalRelation::Equal);
}

#[test]
fn test_incremented_ordering() {
    let c1 = StrVectorClock::new();
    let c2 = c1.incr_clone("A");

    assert!(!(c1 == c2));

    assert_eq!(c1.temporal_relation(&c2), TemporalRelation::Caused);
    assert_eq!(c2.temporal_relation(&c1), TemporalRelation::EffectOf);
}

#[test]
fn test_diverged() {
    let base = StrVectorClock::new();
    let c1 = base.incr_clone("A");
    let c2 = base.incr_clone("B");

    assert!(!(c1 == c2));

    assert_eq!(
        c1.temporal_relation(&c2),
        TemporalRelation::ConcurrentSmaller
    );
    assert_eq!(
        c2.temporal_relation(&c1),
        TemporalRelation::ConcurrentGreater
    );
}

#[test]
fn test_complex_concurrent() {
    let base = StrVectorClock::new();
    let mut c1 = base.incr_clone("A");
    let mut c2 = base.incr_clone("B");
    c1.incr("A");
    c1.incr("B");
    c2.incr("A");
    c2.incr("B");

    assert!(!(c1 == c2));

    assert_eq!(
        c1.temporal_relation(&c2),
        TemporalRelation::ConcurrentGreater
    );
    assert_eq!(
        c2.temporal_relation(&c1),
        TemporalRelation::ConcurrentSmaller
    );
}

#[test]
fn test_merged() {
    let base = StrVectorClock::new();
    let c1 = base.incr_clone("A");
    let c2 = base.incr_clone("B");

    let m = c1.merge_with(&c2);

    assert_eq!(m.temporal_relation(&c1), TemporalRelation::EffectOf);
    assert_eq!(c1.temporal_relation(&m), TemporalRelation::Caused);

    assert_eq!(m.temporal_relation(&c2), TemporalRelation::EffectOf);
    assert_eq!(c2.temporal_relation(&m), TemporalRelation::Caused);
}

#[test]
fn merge_fan_in() {
    let base = StrVectorClock::new();
    let c1 = base.incr_clone("A");
    let c2 = base.incr_clone("B");
    let m = c1.merge_with(&c2);

    assert_eq!(c1.temporal_relation(&m), TemporalRelation::Caused);
    assert_eq!(c2.temporal_relation(&m), TemporalRelation::Caused);
    assert_eq!(
        m.temporal_relation(&c2.merge_with(&c1)),
        TemporalRelation::Equal
    );
}

#[test]
fn complex_concurrent_counts() {
    let mut c1 = StrVectorClock::new();
    c1.incr("A");
    c1.incr("A");
    c1.incr("B");
    let mut c2 = StrVectorClock::new();
    c2.incr("A");
    c2.incr("B");
    c2.incr("B");

    assert_eq!(c1.get(&"A"), 2);
    assert_eq!(c1.get(&"B"), 1);
    assert_eq!(c2.get(&"A"), 1);
    assert_eq!(c2.get(&"B"), 2);
    assert_eq!(c1.get(&"C"), 0);
    assert_eq!(
        c1.temporal_relation(&c2),
        TemporalRelation::ConcurrentGreater
    );
    assert_eq!(
        c2.temporal_relation(&c1),
        TemporalRelation::ConcurrentSmaller
    );
}

fn sample_clocks() -> Vec<StrVectorClock> {
    let empty = StrVectorClock::new();
    let a = empty.incr_clone("A");
    let aa = a.incr_clone("A");
    let b = empty.incr_clone("B");
    let ab = a.incr_clone("B");
    let abb = ab.incr_clone("B");
    let c = empty.incr_clone("C");
    let abc = ab.incr_clone("C");
    let ac = a.incr_clone("C");
    let long = empty.incr_clone("AB");
    vec![empty, a, aa, b, ab, abb, c, abc, ac, long]
}

#[test]
fn relation_is_reflexive() {
    for c in sample_clocks() {
        assert_eq!(c.temporal_relation(&c), TemporalRelation::Equal);
        assert_eq!(c.temporal_relation(&c.clone()), TemporalRelation::Equal);
    }
}

#[test]
fn relation_is_antisymmetric() {
    let clocks = sample_clocks();
    for a in &clocks {
        for b in &clocks {
            let expected = match a.temporal_relation(b) {
                TemporalRelation::Equal => TemporalRelation::Equal,
                TemporalRelation::Caused => TemporalRelation::EffectOf,
                TemporalRelation::EffectOf => TemporalRelation::Caused,
                TemporalRelation::ConcurrentGreater => TemporalRelation::ConcurrentSmaller,
                TemporalRelation::ConcurrentSmaller => TemporalRelation::ConcurrentGreater,
            };
            assert_eq!(b.temporal_relation(a), expected);
        }
    }
}

#[test]
fn increment_moves_forward() {
    for c in sample_clocks() {
        for host in ["A", "B", "Z"] {
            let next = c.incr_clone(host);
            assert_eq!(next.get(&host), c.get(&host) + 1);
            assert_eq!(c.temporal_relation(&next), TemporalRelation::Caused);
            assert_eq!(next.temporal_relation(&c), TemporalRelation::EffectOf);
            assert!(c.superseded_by(&next));
            assert!(!next.superseded_by(&c));
        }
    }
}

#[test]
fn merge_is_at_or_after_its_inputs() {
    let clocks = sample_clocks();
    for a in &clocks {
        for b in &clocks {
            let m = a.merge_with(b);
            let ra = a.temporal_relation(&m);
            let rb = b.temporal_relation(&m);
            assert!(ra == TemporalRelation::Equal || ra == TemporalRelation::Caused);
            assert!(rb == TemporalRelation::Equal || rb == TemporalRelation::Caused);
            for host in ["A", "B", "C", "AB"] {
                assert_eq!(m.get(&host), a.get(&host).max(b.get(&host)));
            }
        }
    }
}

#[test]
fn merge_commutes_and_is_idempotent() {
    let clocks = sample_clocks();
    for a in &clocks {
        assert_eq!(a.merge_with(a), *a);
        for b in &clocks {
            assert_eq!(a.merge_with(b), b.merge_with(a));
            for c in &clocks {
                assert_eq!(
                    a.merge_with(b).merge_with(c),
                    a.merge_with(&b.merge_with(c))
                );
            }
        }
    }
}

#[test]
fn exactly_one_concurrent_clock_wins() {
    let clocks = sample_clocks();
    for a in &clocks {
        for b in &clocks {
            if a == b || a.superseded_by(b) || b.superseded_by(a) {
                assert_ne!(
                    a.temporal_relation(b),
                    TemporalRelation::ConcurrentGreater
                );
                assert_ne!(
                    b.temporal_relation(a),
                    TemporalRelation::ConcurrentGreater
                );
            } else {
                let ab = a.temporal_relation(b) == TemporalRelation::ConcurrentGreater;
                let ba = b.temporal_relation(a) == TemporalRelation::ConcurrentGreater;
                assert!(ab != ba);
            }
        }
    }
}

#[test]
fn more_hosts_win_the_tie_break() {
    let empty = StrVectorClock::new();
    let one = empty.incr_clone("Z");
    let two = empty.incr_clone("A").incr_clone("B");
    assert_eq!(
        two.temporal_relation(&one),
        TemporalRelation::ConcurrentGreater
    );
    assert_eq!(
        one.temporal_relation(&two),
        TemporalRelation::ConcurrentSmaller
    );
}

#[test]
fn a_prefix_names_the_earlier_host() {
    let empty = StrVectorClock::new();
    let short = empty.incr_clone("A");
    let long = empty.incr_clone("AB");
    assert_eq!(
        short.temporal_relation(&long),
        TemporalRelation::ConcurrentSmaller
    );
    assert_eq!(
        long.temporal_relation(&short),
        TemporalRelation::ConcurrentGreater
    );
}

#[test]
fn entries_come_in_ascending_order_of_the_hosts() {
    let mut c = StrVectorClock::new();
    for host in ["m", "b", "z", "b", "a", "m", "m"] {
        c.incr(host);
    }
    assert_eq!(c.entries(), vec![("a", 1), ("b", 2), ("m", 3), ("z", 1)]);
    assert!(StrVectorClock::new().entries().is_empty());
}

#[test]
fn a_clock_is_rebuilt_from_its_counts() {
    for c in sample_clocks() {
        assert_eq!(StrVectorClock::from_counts(&c.entries()), c);
    }
    let c = StrVectorClock::from_counts(&vec![("b", 2), ("a", 0), ("c", 7), ("b", 5), ("b", 1)]);
    assert_eq!(c.entries(), vec![("b", 5), ("c", 7)]);
    assert_eq!(c.get(&"a"), 0);
    let huge = StrVectorClock::from_counts(&vec![("a", u64::MAX)]);
    assert_eq!(huge.get(&"a"), u64::MAX);
    assert_eq!(
        c.temporal_relation(&huge),
        TemporalRelation::ConcurrentGreater
    );
}
