use intervals::{Interval, IntervalSet, Joining, Policy, Separating};

fn co(a: u32, b: u32) -> Interval<u32> {
    Interval::new_closed_open(a, b)
}

fn check_bounded<P>(
    mut m: IntervalSet<u32, P>,
    single: IntervalSet<u32, P>,
    expected: &[Interval<u32>],
) where
    P: Policy<u32> + Clone + core::fmt::Debug,
{
    let empty = IntervalSet::<u32, P>::default();

    m.extend(vec![co(1, 3), co(2, 4), co(4, 6), co(8, 10)]);
    assert_eq!(m.intervals(), &expected.to_vec());
    assert_eq!(m.len(), expected.len());

    m.check_invariants();

    assert_eq!(m.lower(), Some(1));
    assert_eq!(m.upper(), Some(10));
    assert!(!m.lower_unbounded());
    assert!(!m.upper_unbounded());

    assert!(!m.contains(0));
    assert!(m.contains(1));
    assert!(m.contains(2));
    assert!(m.contains(3));
    assert!(m.contains(4));
    assert!(m.contains(5));
    assert!(!m.contains(6));
    assert!(!m.contains(7));
    assert!(m.contains(8));
    assert!(m.contains(9));
    assert!(!m.contains(10));

    assert!(!m.contains_interval(&co(0, 1)));
    assert!(m.contains_interval(&Interval::empty()));
    assert!(!IntervalSet::<u32, P>::empty().contains_interval(&co(100, 101)));
    assert!(empty.contains_interval(&Interval::empty()));
    assert!(m.contains_interval(&co(1, 2)));
    assert!(m.contains_interval(&co(1, 5)));
    assert!(!m.contains_interval(&co(1, 7)));
    assert!(!m.contains_interval(&co(21, 27)));
    assert!(!m.contains_interval(&co(6, 7)));

    assert_eq!(m.convex_hull(), co(1, 10));

    // Add an interval that covers the whole set.
    m.add(co(0, 18));
    assert_eq!(m.intervals(), &vec![co(0, 18)]);
    assert_eq!(m.len(), 1);

    // contains set
    {
        m.clear();
        m.extend(vec![co(1, 3), co(2, 4), co(4, 6), co(8, 10)]);

        assert!(m.contains_set(&empty));
        assert!(!empty.contains_set(&m));
        assert!(m.contains_set(&m));

        let mut m2 = m.clone();
        m2.extend(vec![co(100, 200)]);
        assert!(!m.contains_set(&m2));

        let mut m2 = m.clone();
        m2.remove_interval(&co(2, 5));
        assert!(m.contains_set(&m2));
    }

    // Same as above, but intervals are not sorted initially
    m.clear();
    m.extend(vec![co(4, 6), co(8, 10), co(2, 4), co(1, 3)]);
    assert_eq!(m.intervals(), &expected.to_vec());
    assert_eq!(m.len(), expected.len());

    // Additional tests
    m.clear();
    m.add(co(1, 4));
    assert_eq!(m.len(), 1);
    assert_eq!(m.intervals(), &vec![co(1, 4)]);
    m.check_invariants();

    m.add(co(1, 4)); //  Adding same interval has no effect
    assert_eq!(m.len(), 1);
    assert_eq!(m.intervals(), &vec![co(1, 4)]);

    m.add(co(1, 6)); // extends the first interval
    assert_eq!(m.len(), 1);
    assert_eq!(m.intervals(), &vec![co(1, 6)]);

    m.add(co(8, 10)); // disjoint
    assert_eq!(m.len(), 2);
    assert_eq!(m.intervals(), &vec![co(1, 6), co(8, 10)]);

    m.add(co(9, 10)); // subset of second interval
    assert_eq!(m.intervals(), &vec![co(1, 6), co(8, 10)]);

    m.add(Interval::new_closed_closed(4, 8)); // joins the two
    assert_eq!(m.len(), 1);
    assert_eq!(m.intervals(), &vec![co(1, 10)]);
    m.check_invariants();

    // Inserting intervals only after the end of all existing ones
    m.clear();
    m.extend(vec![co(1, 3), co(4, 5)]);
    m.extend(vec![co(6, 7), co(8, 9)]);
    assert_eq!(m.len(), 4);
    m.check_invariants();

    // Single intervals
    {
        assert_eq!(single.len(), 1);
        assert!(single.contains(4));
        assert!(!single.contains(3));
        assert!(!single.contains(5));
    }

    // Empty intervals
    {
        let mut m = IntervalSet::<u32, P>::default();
        assert!(m.is_empty());
        assert_eq!(m.len(), 0);
        assert_eq!(m, empty);
        assert!(!m.lower_unbounded());
        assert!(!m.upper_unbounded());
        assert_eq!(m.lower(), None);
        assert_eq!(m.upper(), None);
        assert_eq!(m.convex_hull(), Interval::empty());

        m.add(Interval::empty());
        m.add(Interval::empty());
        assert!(m.is_empty());
    }

    // Unbounded intervals
    {
        let m = IntervalSet::<u32, P>::new(vec![Interval::new_closed_unbounded(1)]);
        assert!(!m.lower_unbounded());
        assert!(m.upper_unbounded());
        assert_eq!(m.lower(), Some(1));
        assert_eq!(m.upper(), None);

        let m = IntervalSet::<u32, P>::new(vec![Interval::new_unbounded_closed(1)]);
        assert!(m.lower_unbounded());
        assert!(!m.upper_unbounded());
        assert_eq!(m.lower(), None);
        assert_eq!(m.upper(), Some(1));
    }

    // Remove
    {
        m.clear();
        m.extend(vec![co(5, 10), co(15, 20)]);

        assert_eq!(
            m.difference(6).intervals(),
            &vec![co(5, 6), Interval::new_open_open(6, 10), co(15, 20)],
        );
        assert_eq!(m.difference(0), m);
        assert_eq!(m.difference(10), m);
        assert_eq!(m.difference(1000), m);
        assert_eq!(
            m.difference_interval(&co(8, 17)).intervals(),
            &vec![co(5, 8), co(17, 20)],
        );
        assert_eq!(m.difference_interval(&Interval::empty()), m,);

        assert_eq!(m.difference_interval(&co(0, 100)), IntervalSet::empty(),);
    }

    // Intersects
    {
        m.clear();
        m.extend(vec![co(5, 10), co(15, 20)]);
        assert!(m.intersects_interval(&co(9, 10)));
        assert!(m.intersects_interval(&co(9, 16)));
        assert!(!m.intersects_interval(&co(10, 12)));

        let mut m2 = m.clone();
        assert!(m.intersects_set(&m2));

        m2.clear();
        assert!(!m.intersects_set(&m2));

        m2.extend(vec![co(1, 3), co(20, 30)]);
        assert!(!m.intersects_set(&m2));

        m2.extend(vec![co(19, 21)]);
        assert!(m.intersects_set(&m2));
    }

    // left_of, right_of, ...
    {
        m.clear();
        let mut m2 = m.clone();

        m.extend(vec![co(5, 10), co(15, 20)]);
        m2.extend(vec![co(25, 30), co(40, 50)]);
        assert!(m.left_of_set(&m2));
        assert!(!m2.left_of_set(&m));
        assert!(!m.right_of_set(&m2));
        assert!(m2.right_of_set(&m));

        assert!(m.left_of_interval(&co(20, 30)));
        assert!(m.left_of_interval(&co(19, 30)));
        assert!(!m.left_of_interval(&co(18, 30)));
        assert!(m.strictly_left_of_interval(&co(20, 30)));
        assert!(!m.strictly_left_of_interval(&co(19, 30)));
        assert!(!m.strictly_left_of_interval(&co(18, 30)));

        assert!(m.right_of_interval(&co(1, 5)));
        assert!(m.right_of_interval(&co(1, 6)));

        assert!(m.left_of(20));
        assert!(m.strictly_left_of(20));
        assert!(m.left_of(19));
        assert!(!m.strictly_left_of(19));
        assert!(!m.left_of(18));

        assert!(m.right_of(5));
        assert!(!m.right_of(6));
        assert!(!m.strictly_right_of(5));
        assert!(m.strictly_right_of(4));
    }
}

#[test]
fn test_joining() {
    check_bounded(
        IntervalSet::empty_joining(),
        IntervalSet::new_single_joining(4),
        &[co(1, 6), co(8, 10)],
    );

    assert_eq!(IntervalSet::new_joining(vec![co(5, 6)]).len(), 1);
}

#[test]
fn test_separating() {
    check_bounded(
        IntervalSet::empty_separating(),
        IntervalSet::new_single_separating(4),
        &[co(1, 4), co(4, 6), co(8, 10)],
    );
    assert_eq!(IntervalSet::new_separating(vec![co(5, 6)]).len(), 1);
}

#[test]
fn test_equals() {
    let m1 = IntervalSet::new_joining(vec![
        Interval::new_closed_closed(3_u8, 10),
        Interval::new_open_open(15, 20),
    ]);
    let m2 = IntervalSet::new_joining(vec![
        Interval::new_open_open(2_u8, 5),
        Interval::new_closed_open(5, 11),
        Interval::new_closed_closed(16, 19),
    ]);
    assert_eq!(m1, m2);
    assert_eq!(m2, m1);
    assert!(m1.equivalent(&m2));

    let m4 = IntervalSet::new_joining(vec![
        Interval::new_open_open(2_u8, 5),
        Interval::new_closed_open(5, 11),
    ]);
    assert_ne!(m1, m4); // same length, different intervals
    assert_ne!(m4, m1); // same length, different intervals

    let m5 = IntervalSet::new_joining(vec![Interval::new_open_open(2_u8, 5)]);
    assert_ne!(m1, m5); // different lengths
    assert_ne!(m5, m1); // different lengths

    let m6 = IntervalSet::new_joining(vec![
        Interval::new_closed_closed(3_u8, 10),
        Interval::new_open_open(15, 20),
        Interval::new_open_open(25, 30),
    ]);
    assert_ne!(m1, m6); // same initial intervals, but have more
    assert_ne!(m6, m1); // same initial intervals, but have more

    let intv1 = Interval::new_closed_open(3_u8, 20);
    let pairs = intv1.difference(&Interval::new_open_closed(10, 15));
    let m3 = IntervalSet::<u8, Joining>::from_pair(pairs);
    assert_eq!(m1, m3);

    let intv1 = Interval::new_closed_open(3_u8, 20);
    let pairs = intv1.difference(&Interval::new_open_open(10, 20)); //  one interval
    let m3 = IntervalSet::<u8, Separating>::from_pair(pairs);
    assert_eq!(m3, IntervalSet::<u8, Separating>::new(vec![Interval::new_closed_closed(3, 10)]));
}

#[test]
fn tests_test_intersection() {
    let m1 = IntervalSet::new_joining(vec![
        Interval::new_closed_closed(3_u32, 10),
        Interval::new_open_open(15, 20),
        Interval::new_closed_open(25, 40),
    ]);
    assert_eq!(m1.intersection_interval(&co(1, 50)), m1);
    assert_eq!(
        m1.intersection_interval(&co(4, 35)),
        IntervalSet::new_joining(vec![
            Interval::new_closed_closed(4, 10),
            Interval::new_open_open(15, 20),
            Interval::new_closed_open(25, 35),
        ]),
    );
    assert_eq!(
        m1.intersection_interval(&co(16, 17)),
        IntervalSet::new_joining(vec![co(16, 17)]),
    );
    assert_eq!(m1.intersection_interval(&Interval::empty()), IntervalSet::empty(),);
    assert_eq!(
        IntervalSet::<u32>::empty().intersection_interval(&co(4, 5)),
        IntervalSet::empty(),
    );
    assert_eq!(
        m1.intersection_set(&IntervalSet::new_separating(vec![
            co(4, 8),
            co(16, 27),
            co(38, 50),
        ])),
        IntervalSet::new_joining(vec![co(4, 8), co(16, 20), co(25, 27), co(38, 40),]),
    );
}

#[test]
fn test_merge_policy_divergence() {
    // The same touching inputs coalesce under Joining and stay apart
    // under Separating.
    let mut j: IntervalSet<u32, Joining> = IntervalSet::empty();
    j.extend(vec![co(1, 3), co(2, 4), co(4, 5)]);
    assert_eq!(j.len(), 1);
    assert_eq!(j.intervals(), &vec![co(1, 5)]);

    // A genuine overlap coalesces even under Separating: [4,8] meets
    // both stored pieces at 8, joining everything.
    let mut s: IntervalSet<u32, Separating> = IntervalSet::empty();
    s.add(co(4, 6));
    s.add(co(8, 10));
    s.add(Interval::new_closed_closed(4, 8));
    assert_eq!(s.len(), 1);
    assert_eq!(s.intervals(), &vec![co(4, 10)]);

    let mut s2: IntervalSet<u32, Separating> = IntervalSet::empty();
    s2.extend(vec![co(1, 3), co(3, 5)]);
    assert_eq!(s2.len(), 2);
    let mut j2: IntervalSet<u32, Joining> = IntervalSet::empty();
    j2.extend(vec![co(1, 3), co(3, 5)]);
    assert_eq!(j2.len(), 1);
}

#[test]
fn test_set_invariants_preserved() {
    // After a battery of mutations the stored form still passes the
    // run-time invariant check.
    let mut m: IntervalSet<u32, Joining> = IntervalSet::empty();
    m.extend(vec![co(10, 20), co(1, 5), co(4, 8), co(30, 40)]);
    assert!(m.check_invariants());
    m.add(co(19, 31));
    assert!(m.check_invariants());
    m.remove(15);
    assert!(m.check_invariants());
    m.remove_interval(&co(3, 33));
    assert!(m.check_invariants());
    m.extend(vec![co(2, 3), co(50, 60)]);
    assert!(m.check_invariants());

    let mut s: IntervalSet<u32, Separating> = IntervalSet::empty();
    s.extend(vec![co(10, 20), co(1, 5), co(4, 8), co(30, 40)]);
    assert!(s.check_invariants());
    s.add(co(19, 31));
    assert!(s.check_invariants());
    s.remove(15);
    assert!(s.check_invariants());
    s.remove_interval(&co(3, 33));
    assert!(s.check_invariants());
}

#[test]
fn test_contains_set_by_subtraction() {
    // Subtracting every interval of the container from a copy of the
    // contained set leaves nothing, exactly when containment holds.
    let s = IntervalSet::new_joining(vec![co(1, 10), co(20, 30)]);
    let t = IntervalSet::new_joining(vec![co(2, 5), co(21, 23), co(25, 29)]);
    assert!(s.contains_set(&t));
    assert!(!t.contains_set(&s));

    let mut leftover = t.clone();
    for intv in s.intervals() {
        leftover.remove_interval(intv);
    }
    assert!(leftover.is_empty());

    let u = IntervalSet::new_joining(vec![co(2, 12)]);
    assert!(!s.contains_set(&u));
    let mut leftover = u.clone();
    for intv in s.intervals() {
        leftover.remove_interval(intv);
    }
    assert!(!leftover.is_empty());
}

#[test]
fn test_check_invariants_detects_breakage() {
    // A raw, hand-built sequence that violates the stored form is
    // reported; canonical sets always pass.
    let good = IntervalSet::new_joining(vec![co(1, 3), co(5, 7)]);
    assert!(good.check_invariants());

    let bad: IntervalSet<u32, Joining> = IntervalSet {
        intvs: vec![co(5, 10), co(1, 2)],
        _policy: core::marker::PhantomData,
    };
    assert!(!bad.check_invariants());

    let with_empty: IntervalSet<u32, Joining> = IntervalSet {
        intvs: vec![Interval::empty()],
        _policy: core::marker::PhantomData,
    };
    assert!(!with_empty.check_invariants());
}
