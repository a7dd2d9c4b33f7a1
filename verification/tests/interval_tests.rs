use intervals::{Bound, Interval, Pair};

fn assert_copy<T: ::core::marker::Copy>() {}

fn assert_equivalent<T: intervals::NothingBetween + core::fmt::Debug>(
    left: &Interval<T>,
    right: &Interval<T>,
) {
    assert_eq!(left, right);
    assert_eq!(right, left);
    assert!(left.equivalent(right));
    assert!(right.equivalent(left));
}

fn assert_not_equivalent<T: intervals::NothingBetween + core::fmt::Debug>(
    left: &Interval<T>,
    right: &Interval<T>,
) {
    assert_ne!(left, right);
    assert_ne!(right, left);
    assert!(!left.equivalent(right));
    assert!(!right.equivalent(left));
}

pub fn check_empty<T: intervals::NothingBetween>(
    name: &str,
    val: T,
    val_next: T,
    val_far: T,
    val_farther: T,
) {
    assert!(Interval::new_closed_open(val, val).is_empty(), "{}", name);
    assert!(!Interval::new_closed_closed(val, val).is_empty(), "{}", name);

    assert!(!Interval::new_closed_closed(val, val_next).is_empty(), "{}", name);
    assert!(Interval::new_open_open(val, val_next).is_empty(), "{}", name);
    assert!(Interval::new_open_open(val_next, val).is_empty(), "{}", name);

    assert!(!Interval::new_open_open(val, val_far).is_empty(), "{}", name);

    assert!(!Interval::new_open_open(val, val_farther).is_empty(), "{}", name);
}

#[test]
fn test_copy() {
    assert_copy::<Interval<u32>>();
}

#[test]
fn test_contains() {
    let empty = Interval::empty();

    let intv = Interval::new_closed_open(1, 10); // [1,10)
    assert!(intv.contains(1));
    assert!(intv.contains(2));
    assert!(intv.contains(9));
    assert!(!intv.contains(10));
    assert!(!intv.contains(11));
    assert!(intv.contains_interval(&empty));
    assert!(!empty.contains_interval(&intv));

    let intv2 = Interval::new_closed_closed(1, 5); // [1,5]
    assert!(intv2.contains(1));
    assert!(intv2.contains(5));
    assert!(!intv2.contains(6));
    assert!(intv2.contains_interval(&empty));
    assert!(!empty.contains_interval(&intv2));
    assert!(intv.contains_interval(&intv2));
    assert!(!intv2.contains_interval(&intv));

    let intv3 = Interval::new_unbounded_closed(10); // (,10]
    assert!(intv3.contains(0));
    assert!(intv3.contains(9));
    assert!(intv3.contains(10));
    assert!(!intv3.contains(11));
    assert!(intv3.contains_interval(&empty));
    assert!(!empty.contains_interval(&intv3));
    assert!(intv3.contains_interval(&intv));
    assert!(!intv.contains_interval(&intv3));
    assert!(intv3.contains_interval(&intv2));
    assert!(!intv2.contains_interval(&intv3));

    let intv4 = Interval::new_unbounded_open(10); // (,10)
    assert!(intv4.contains(0));
    assert!(intv4.contains(9));
    assert!(!intv4.contains(10));
    assert!(!intv4.contains(11));
    assert!(intv4.contains_interval(&empty));
    assert!(!empty.contains_interval(&intv4));
    assert!(intv4.contains_interval(&intv));
    assert!(!intv.contains_interval(&intv4));
    assert!(intv4.contains_interval(&intv2));
    assert!(!intv2.contains_interval(&intv4));
    assert!(intv3.contains_interval(&intv4));
    assert!(!intv4.contains_interval(&intv3));

    let intv5 = Interval::new_closed_unbounded(1); // [1,)
    assert!(!intv5.contains(0));
    assert!(intv5.contains(1));
    assert!(intv5.contains(10));
    assert!(intv5.contains(11));
    assert!(intv5.contains_interval(&empty));
    assert!(!empty.contains_interval(&intv5));
    assert!(intv5.contains_interval(&intv));
    assert!(!intv.contains_interval(&intv5));
    assert!(intv5.contains_interval(&intv2));
    assert!(!intv2.contains_interval(&intv5));
    assert!(!intv3.contains_interval(&intv5));
    assert!(!intv5.contains_interval(&intv3));
    assert!(!intv4.contains_interval(&intv5));
    assert!(!intv5.contains_interval(&intv4));

    let intv6 = Interval::doubly_unbounded();
    assert!(intv6.contains(0));
    assert!(intv6.contains(1));
    assert!(intv6.contains(10));
    assert!(intv6.contains(11));
    assert!(intv6.contains_interval(&empty));
    assert!(!empty.contains_interval(&intv6));
    assert!(intv6.contains_interval(&intv));
    assert!(!intv.contains_interval(&intv6));
    assert!(intv6.contains_interval(&intv2));
    assert!(!intv2.contains_interval(&intv6));
    assert!(!intv3.contains_interval(&intv6));
    assert!(intv6.contains_interval(&intv3));
    assert!(!intv4.contains_interval(&intv6));
    assert!(intv6.contains_interval(&intv4));
    assert!(!intv5.contains_interval(&intv6));
    assert!(intv6.contains_interval(&intv5));

    let intv8 = Interval::new_open_closed(1, 10); // (1,10]
    assert!(!intv8.contains(1));
    assert!(intv8.contains(2));
    assert!(intv8.contains(9));
    assert!(intv8.contains(10));
    assert!(!intv8.contains(11));
    assert!(intv8.contains_interval(&empty));
    assert!(!empty.contains_interval(&intv8));
}

#[test]
fn test_inclusive() {
    let intv = Interval::new_closed_open(1, 10);
    assert_eq!(intv.lower(), Some(1));
    assert!(intv.lower_inclusive());
    assert_eq!(intv.upper(), Some(10));
    assert!(!intv.upper_inclusive());

    let intv = Interval::new_closed_closed(1, 10);
    assert_eq!(intv.lower(), Some(1));
    assert!(intv.lower_inclusive());
    assert_eq!(intv.upper(), Some(10));
    assert!(intv.upper_inclusive());

    let intv = Interval::<u32>::doubly_unbounded();
    assert_eq!(intv.lower(), None);
    assert!(!intv.lower_inclusive());
    assert_eq!(intv.upper(), None);
    assert!(!intv.upper_inclusive());

    let intv = Interval::<u32>::new_open_unbounded(1); //  (1,)
    assert_eq!(intv.lower(), Some(1));
    assert!(!intv.lower_inclusive());
    assert_eq!(intv.upper(), None);
    assert!(!intv.upper_inclusive());

    let intv = Interval::<u32>::new_unbounded_closed(10); //  (,10]
    assert_eq!(intv.lower(), None);
    assert!(!intv.lower_inclusive());
    assert_eq!(intv.upper(), Some(10));
    assert!(intv.upper_inclusive());

    let intv = Interval::<u32>::empty();
    assert_eq!(intv.lower(), None);
    assert!(!intv.lower_inclusive());
    assert_eq!(intv.upper(), None);
    assert!(!intv.upper_inclusive());

    // A degenerate bound pair collapses to the canonical empty
    // interval at construction, losing its written bounds.
    let empty2 = Interval::new_open_closed(3, 3);
    assert_eq!(empty2.lower(), None);
    assert!(!empty2.lower_inclusive());
    assert_eq!(empty2.upper(), None);
    assert!(!empty2.upper_inclusive());

    let intv = Interval::<u32>::new_single(1);
    assert_eq!(intv.lower(), Some(1));
    assert!(intv.lower_inclusive());
    assert_eq!(intv.upper(), Some(1));
    assert!(intv.upper_inclusive());
}

#[test]
fn test_empty() {
    check_empty("u8", 0_u8, 1, 2, 10);
    check_empty("u16", 0_u16, 1, 2, 10);
    check_empty("u32", 0_u32, 1, 2, 10);
    check_empty("u64", 0_u64, 1, 2, 10);
    check_empty("u128", 0_u128, 1, 2, 10);
    check_empty("usize", 0_usize, 1, 2, 10);
    check_empty("i8", 0_i8, 1, 2, 10);
    check_empty("i16", 0_i16, 1, 2, 10);
    check_empty("i32", 0_i32, 1, 2, 10);
    check_empty("i64", 0_i64, 1, 2, 10);
    check_empty("isize", 0_isize, 1, 2, 10);
    check_empty("char", 'a', 'b', 'c', 'f');

    let empty = Interval::<u32>::empty();
    assert!(empty.is_empty());
    assert!(!empty.contains(1));

    assert!(!Interval::new_unbounded_closed(5).is_empty());
    assert!(!Interval::new_unbounded_open(5).is_empty());
    assert!(!Interval::new_closed_unbounded(5).is_empty());
    assert!(!Interval::new_open_unbounded(5).is_empty());
    assert!(!Interval::<u32>::doubly_unbounded().is_empty());
}

#[test]
fn test_single() {
    let intv = Interval::new_single(4);
    assert!(!intv.is_empty());
    assert!(intv.is_single());
    assert!(intv.contains(4));
    assert!(!intv.contains(5));

    assert!(!Interval::new_closed_open(1, 4).is_single());
    assert!(Interval::new_closed_closed(1, 1).is_single());

    // An interval that holds a single element but is not of the form
    // [A,A] is not single.
    assert!(!Interval::new_open_open(0, 2).is_single());
}

#[test]
fn test_equivalent() {
    let intv1 = Interval::new_closed_open(1, 4);
    let intv2 = Interval::new_closed_closed(1, 3);
    let intv4 = Interval::new_open_closed(0, 3);
    let intv5 = Interval::new_open_open(0, 4);
    let intv6 = Interval::new_open_open(-1, 3);
    let intv7 = Interval::new_closed_closed(1, 5);
    assert_equivalent(&intv1, &intv1);
    assert_equivalent(&intv1, &intv2);
    assert_equivalent(&intv1, &intv4);
    assert_equivalent(&intv1, &intv5);
    assert_equivalent(&intv5, &intv2);
    assert_not_equivalent(&intv1, &intv7);
    assert_not_equivalent(&intv5, &intv6);

    let intv3 = Interval::new_closed_closed(1, 4);
    assert_not_equivalent(&intv1, &intv3);
    assert_not_equivalent(&intv2, &intv3);

    let u1 = Interval::new_unbounded_open(10);
    let u2 = Interval::new_unbounded_closed(9);
    assert_equivalent(&u1, &u2);
    assert_not_equivalent(&u1, &intv1);

    let u1 = Interval::new_open_unbounded(9);
    let u2 = Interval::new_closed_unbounded(10);
    assert_equivalent(&u1, &u2);
    assert_not_equivalent(&u1, &intv1);

    let empty = Interval::default();
    assert_equivalent(&empty, &empty);
    assert_not_equivalent(&empty, &intv1);
}

#[test]
fn test_ord() {
    let b1: Bound<i32> = Bound::LeftOf(3); //  2 < b1 < 3 < b2 < 4
    let b2: Bound<i32> = Bound::RightOf(3);
    assert!(!(b1.le_bound(&b2) && b2.le_bound(&b1)));
    assert!(b1.le_bound(&b2) && !b2.le_bound(&b1));

    let b3: Bound<i32> = Bound::LeftOf(4);
    assert!(b3.le_bound(&b2) && b2.le_bound(&b3));

    let intv1 = Interval::new_closed_closed(1, 20);
    let intv2 = Interval::new_open_open(1, 20);
    assert_eq!(intv1.partial_cmp(&intv1), Some(core::cmp::Ordering::Equal));
    assert_eq!(intv1.partial_cmp(&intv2), Some(core::cmp::Ordering::Less));
    assert_eq!(intv2.partial_cmp(&intv1), Some(core::cmp::Ordering::Greater));
    assert_eq!(intv1.cmp_interval(&intv1), core::cmp::Ordering::Equal);
    assert_eq!(intv1.cmp_interval(&intv2), core::cmp::Ordering::Less);
    assert_eq!(intv2.cmp_interval(&intv1), core::cmp::Ordering::Greater);
    assert!(intv1 < intv2);

    let intv3 = Interval::new_closed_closed(1, 30);
    assert_eq!(intv1.partial_cmp(&intv3), Some(core::cmp::Ordering::Less));
    assert_eq!(intv3.partial_cmp(&intv1), Some(core::cmp::Ordering::Greater));
    assert_eq!(intv1.cmp_interval(&intv3), core::cmp::Ordering::Less);
    assert_eq!(intv3.cmp_interval(&intv1), core::cmp::Ordering::Greater);
    assert!(intv1 < intv3);

    let intv4 = Interval::new_unbounded_closed(20);
    assert_eq!(intv1.partial_cmp(&intv4), Some(core::cmp::Ordering::Greater));
    assert_eq!(intv4.partial_cmp(&intv1), Some(core::cmp::Ordering::Less));
    assert_eq!(intv1.cmp_interval(&intv4), core::cmp::Ordering::Greater);
    assert_eq!(intv4.cmp_interval(&intv1), core::cmp::Ordering::Less);
    assert!(intv1 > intv4);

    let intv5 = Interval::new_closed_unbounded(1);
    assert_eq!(intv1.partial_cmp(&intv5), Some(core::cmp::Ordering::Less));
    assert_eq!(intv5.partial_cmp(&intv1), Some(core::cmp::Ordering::Greater));
    assert_eq!(intv1.cmp_interval(&intv5), core::cmp::Ordering::Less);
    assert_eq!(intv5.cmp_interval(&intv1), core::cmp::Ordering::Greater);
    assert!(intv1 < intv5);

    // The canonical empty interval sorts after every other interval.
    let empty = Interval::empty();
    assert_eq!(intv1.partial_cmp(&empty), Some(core::cmp::Ordering::Less));
    assert_eq!(empty.partial_cmp(&intv1), Some(core::cmp::Ordering::Greater));
    assert_eq!(intv1.cmp_interval(&empty), core::cmp::Ordering::Less);
    assert_eq!(empty.cmp_interval(&intv1), core::cmp::Ordering::Greater);
}

#[test]
fn test_left_of() {
    fn check<T>(lower_m: T, lower: T, lower_p: T, upper_m: T, upper: T, upper_p: T)
    where
        T: intervals::NothingBetween + intervals::Bounded + core::fmt::Debug,
    {
        for lower_inc in [true, false] {
            for upper_inc in [true, false] {
                let intv = match (lower_inc, upper_inc) {
                    (true, true) => Interval::new_closed_closed(lower, upper),
                    (true, false) => Interval::new_closed_open(lower, upper),
                    (false, true) => Interval::new_open_closed(lower, upper),
                    (false, false) => Interval::new_open_open(lower, upper),
                };
                let lr = |intv: &Interval<T>,
                          v: T,
                          slo: bool,
                          lo: bool,
                          ro: bool,
                          sro: bool| {
                    assert_eq!(intv.strictly_left_of(v), slo);
                    assert_eq!(intv.left_of(v), lo);
                    assert_eq!(intv.right_of(v), ro);
                    assert_eq!(intv.strictly_right_of(v), sro);
                };
                lr(&intv, lower_m, false, false, true, true);
                lr(&intv, lower, false, false, true, !lower_inc);
                lr(&intv, lower_p, false, false, !lower_inc, false);
                lr(&intv, upper_m, false, !upper_inc, false, false);
                lr(&intv, upper, !upper_inc, true, false, false);
                lr(&intv, upper_p, true, true, false, false);

                let lri = |intv: &Interval<T>,
                           v: &Interval<T>,
                           slo: bool,
                           lo: bool,
                           ro: bool,
                           sro: bool| {
                    assert_eq!(intv.strictly_left_of_interval(v), slo);
                    assert_eq!(intv.left_of_interval(v), lo);
                    assert_eq!(intv.right_of_interval(v), ro);
                    assert_eq!(intv.strictly_right_of_interval(v), sro);
                };
                let v = Interval::new_closed_unbounded(upper_m);
                lri(&intv, &v, false, !upper_inc, false, false);

                let v = Interval::new_closed_unbounded(upper);
                lri(&intv, &v, !upper_inc, true, false, false);

                let v = Interval::new_closed_unbounded(upper_p);
                lri(&intv, &v, true, true, false, false);

                let v = Interval::new_open_unbounded(upper_m);
                lri(&intv, &v, !upper_inc, !upper_inc, false, false);

                let v = Interval::new_open_unbounded(upper);
                lri(&intv, &v, true, true, false, false);

                let v = Interval::new_open_unbounded(upper_p);
                lri(&intv, &v, true, true, false, false);

                let v = Interval::new_unbounded_closed(lower_m);
                lri(&intv, &v, false, false, true, true);

                let v = Interval::new_unbounded_closed(lower);
                lri(&intv, &v, false, false, true, !lower_inc);

                let v = Interval::new_unbounded_closed(lower_p);
                lri(&intv, &v, false, false, false, false);

                let v = Interval::new_unbounded_open(lower_m);
                lri(&intv, &v, false, false, true, true);

                let v = Interval::new_unbounded_open(lower);
                lri(&intv, &v, false, false, true, true);

                let v = Interval::new_unbounded_open(lower_p);
                lri(&intv, &v, false, false, true, !lower_inc);

                let empty = Interval::empty();
                assert!(empty.strictly_left_of_interval(&intv));
                assert!(intv.strictly_left_of_interval(&empty));
                assert!(empty.left_of_interval(&intv));
                assert!(intv.left_of_interval(&empty));
                assert!(empty.right_of_interval(&intv));
                assert!(intv.right_of_interval(&empty));
                assert!(intv.strictly_right_of_interval(&empty));
                assert!(empty.strictly_right_of_interval(&intv));
            }
        }
    }

    check(3, 4, 5, 7, 8, 9);
    check('c', 'd', 'e', 'm', 'n', 'o');

    let empty = Interval::<i8>::empty();
    assert!(empty.strictly_left_of(1));
    assert!(empty.left_of(1));
    assert!(empty.strictly_right_of(1));
    assert!(empty.right_of(1));

    let intv7 = Interval::new_unbounded_closed(10_i16);
    assert!(!intv7.right_of(0));
    assert!(!intv7.strictly_right_of(0));

    let intv8 = Interval::new_closed_unbounded(10_i16);
    assert!(!intv8.left_of(0));
    assert!(!intv8.strictly_left_of(0));
}

#[test]
fn test_convex_hull() {
    let intv1 = Interval::new_closed_closed(10, 30);
    let intv2 = Interval::new_closed_closed(40, 50);
    assert_eq!(intv1.convex_hull(&intv2), Interval::new_closed_closed(10, 50));
    assert_eq!(intv2.convex_hull(&intv1), Interval::new_closed_closed(10, 50));

    let intv1 = Interval::new_closed_closed(10, 30);
    let intv2 = Interval::new_closed_closed(20, 30); // nested
    assert_eq!(intv1.convex_hull(&intv2), intv1);
    assert_eq!(intv2.convex_hull(&intv1), intv1);
    assert_eq!(intv2.union(&intv1), Some(intv1));

    let intv1 = Interval::new_open_open(10, 30);
    let intv2 = Interval::new_open_open(40, 50);
    assert_eq!(intv1.convex_hull(&intv2), Interval::new_open_open(10, 50));
    assert_eq!(intv2.convex_hull(&intv1), Interval::new_open_open(10, 50));
    assert_eq!(intv2.union(&intv1), None); //  not contiguous

    let intv1 = Interval::empty();
    let intv2 = Interval::new_open_open(40, 50);
    assert_eq!(intv1.convex_hull(&intv2), intv2);
    assert_eq!(intv2.convex_hull(&intv1), intv2);
    assert_eq!(intv2.union(&intv1), Some(intv2));

    let intv1 = Interval::new_open_unbounded(10);
    let intv2 = Interval::new_open_open(40, 50);
    assert_eq!(intv1.convex_hull(&intv2), intv1);
    assert_eq!(intv2.convex_hull(&intv1), intv1);
    assert_eq!(intv2.union(&intv1), Some(intv1));

    let intv1 = Interval::new_unbounded_open(10);
    let intv2 = Interval::new_open_open(40, 50);
    assert_eq!(intv1.convex_hull(&intv2), Interval::new_unbounded_open(50));
    assert_eq!(intv2.convex_hull(&intv1), Interval::new_unbounded_open(50));
    assert_eq!(intv2.union(&intv1), None);
}

#[test]
fn test_difference() {
    let intv1 = Interval::new_closed_closed(10, 30);
    let empty = Interval::<i32>::empty();
    assert_eq!(intv1.difference(&empty), Pair::One(intv1));
    assert_eq!(empty.difference(&intv1), Pair::One(empty));

    let intv2 = Interval::new_closed_closed(1, 50); //  larger
    assert_eq!(intv1.difference(&intv2), Pair::One(empty));
    assert_eq!(
        intv2.difference(&intv1),
        Pair::Two(Interval::new_closed_open(1, 10), Interval::new_open_closed(30, 50),)
    );

    let intv3 = Interval::new_closed_closed(1, 5); // disjoint
    assert_eq!(intv1.difference(&intv3), Pair::One(intv1));
    assert_eq!(intv3.difference(&intv1), Pair::One(intv3));

    let intv4 = Interval::new_closed_closed(1, 15); // overlaps left
    assert_eq!(intv1.difference(&intv4), Pair::One(Interval::new_open_closed(15, 30)));

    let intv5 = Interval::new_closed_closed(25, 40); // overlaps right
    assert_eq!(intv1.difference(&intv5), Pair::One(Interval::new_closed_open(10, 25)));
}

#[test]
fn test_difference_concrete() {
    // Over the integers, removing (10,15] from [1,20) leaves the two
    // pieces [1,10) and (15,20).
    let intv1 = Interval::new_closed_open(1, 20);
    let intv2 = Interval::new_open_closed(10, 15);
    assert_eq!(
        intv1.difference(&intv2),
        Pair::Two(Interval::new_closed_closed(1, 10), Interval::new_open_open(15, 20),)
    );
}

#[test]
fn test_between() {
    let intv1 = Interval::new_closed_closed(10, 30);
    let intv2 = Interval::new_closed_closed(40, 50);
    let intv3 = Interval::new_open_unbounded(35);
    let empty = Interval::empty();
    assert_eq!(intv1.between(&intv2), Interval::new_open_open(30, 40),);
    assert_eq!(intv1.between(&intv3), Interval::new_open_closed(30, 35),);
    assert_eq!(intv2.between(&intv3), empty,);
    assert_eq!(intv1.between(&empty), empty,);
    assert_eq!(empty.between(&intv1), empty,);
    assert!(intv1.contiguous(&intv1));
    assert!(!intv1.contiguous(&intv2));
    assert!(!intv1.contiguous(&intv3));
    assert!(intv2.contiguous(&intv3));
    assert!(empty.contiguous(&intv1));
    assert!(intv1.contiguous(&empty));
}

#[test]
fn test_intersection() {
    let intv1 = Interval::new_closed_closed(10_u8, 30);
    let intv2 = Interval::new_closed_open(40_u8, 50);
    let intv3 = Interval::new_open_unbounded(35_u8);
    let empty = Interval::empty();
    assert!(!intv1.intersects(&intv2));
    assert_eq!(intv1.intersection(&intv2), empty);
    assert!(intv2.intersects(&intv3));
    assert_eq!(intv2.intersection(&intv3), Interval::new_closed_open(40, 50));
}

#[test]
fn test_symmetric_difference() {
    let intv1 = Interval::new_closed_closed(10, 30);
    let empty = Interval::<i32>::empty();
    assert_eq!(intv1.symmetric_difference(&empty), Pair::One(intv1));
    assert_eq!(empty.symmetric_difference(&intv1), Pair::One(intv1));

    let intv2 = Interval::new_closed_closed(1, 50); //  larger
    assert_eq!(
        intv1.symmetric_difference(&intv2),
        Pair::Two(Interval::new_closed_open(1, 10), Interval::new_open_closed(30, 50),),
    );
    assert_eq!(
        intv2.symmetric_difference(&intv1),
        Pair::Two(Interval::new_closed_open(1, 10), Interval::new_open_closed(30, 50),)
    );

    let intv3 = Interval::new_closed_closed(1, 5); // disjoint
    assert_eq!(intv1.symmetric_difference(&intv3), Pair::Two(intv3, intv1,),);
    assert_eq!(intv3.symmetric_difference(&intv1), Pair::Two(intv3, intv1,),);

    let intv4 = Interval::new_closed_closed(1, 15); // overlaps left
    assert_eq!(
        intv1.symmetric_difference(&intv4),
        Pair::Two(Interval::new_closed_open(1, 10), Interval::new_open_closed(15, 30),),
    );

    let intv5 = Interval::new_closed_closed(25, 40); // overlaps right
    assert_eq!(
        intv1.symmetric_difference(&intv5),
        Pair::Two(Interval::new_closed_open(10, 25), Interval::new_open_closed(30, 40),),
    );
}

#[test]
fn test_macro() {
    let intv1 = Interval::new_closed_open(1, 2);
    assert!(intv1.equivalent(&Interval::new_closed_open(1, 2)));

    let intv1 = Interval::new_closed_closed(1, 2);
    assert!(intv1.equivalent(&Interval::new_closed_closed(1, 2)));

    let intv1 = Interval::new_open_closed(1, 2);
    assert!(intv1.equivalent(&Interval::new_open_closed(1, 2)));

    let intv1 = Interval::new_open_open(1, 2);
    assert!(intv1.equivalent(&Interval::new_open_open(1, 2)));

    let intv1 = Interval::<u32>::empty();
    assert!(intv1.equivalent(&Interval::<u32>::empty()));

    let intv1 = Interval::new_closed_unbounded(1);
    assert!(intv1.equivalent(&Interval::new_closed_unbounded(1)));

    let intv1 = Interval::new_open_unbounded(1);
    assert!(intv1.equivalent(&Interval::new_open_unbounded(1)));

    let intv1 = Interval::new_unbounded_closed(1);
    assert!(intv1.equivalent(&Interval::new_unbounded_closed(1)));

    let intv1 = Interval::new_unbounded_open(1);
    assert!(intv1.equivalent(&Interval::new_unbounded_open(1)));
}

#[test]
fn test_emptiness_agreement() {
    // Every empty representation is empty and equivalent to each
    // other empty one.
    let empties = [
        Interval::<i32>::empty(),
        Interval::new_closed_open(5, 5),
        Interval::new_open_closed(5, 5),
        Interval::new_open_open(5, 5),
        Interval::new_open_open(5, 6),
        Interval::new_closed_open(7, 5),
    ];
    for e in &empties {
        assert!(e.is_empty());
        for f in &empties {
            assert!(e.equivalent(f));
        }
    }
}

#[test]
fn test_equivalence_collapsing() {
    // Over the integers, [a,b) == [a,b-1] and (a,b] == [a+1,b].
    for a in -3_i64..4 {
        for b in (a + 1)..6 {
            assert_eq!(Interval::new_closed_open(a, b), Interval::new_closed_closed(a, b - 1));
            assert_eq!(Interval::new_open_closed(a, b), Interval::new_closed_closed(a + 1, b));
        }
    }
}

#[test]
fn test_repr_round_trip() {
    let cases = [
        Interval::new_closed_closed(1, 4),
        Interval::new_closed_open(1, 4),
        Interval::new_open_open(1, 4),
        Interval::new_open_closed(1, 4),
        Interval::new_closed_unbounded(1),
        Interval::new_open_unbounded(1),
        Interval::new_unbounded_closed(4),
        Interval::new_unbounded_open(4),
        Interval::<i32>::doubly_unbounded(),
        Interval::<i32>::empty(),
    ];
    for intv in &cases {
        let repr = intv.to_repr();
        let back = Interval::from_repr(repr);
        assert_eq!(*intv, back);
    }
}

#[test]
fn test_from_range() {
    let intv: Interval<u32> = (1..10).into();
    assert_eq!(intv, Interval::new_closed_open(1, 10));
    let intv = Interval::from(3..3);
    assert!(intv.is_empty());
    let intv: Interval<u32> = (..10).into();
    assert_eq!(intv, Interval::new_unbounded_open(10));
    let intv: Interval<u32> = (..=10).into();
    assert_eq!(intv, Interval::new_unbounded_closed(10));
    let intv: Interval<u32> = (10..).into();
    assert_eq!(intv, Interval::new_closed_unbounded(10));
    let intv: Interval<u32> = (..).into();
    assert_eq!(intv, Interval::doubly_unbounded());
}
