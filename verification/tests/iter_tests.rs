use intervals::Interval;

fn rev_to_vec<T: intervals::Step>(intv: &Interval<T>) -> Vec<T> {
    let mut it = intv.iter();
    let mut out = Vec::new();
    while let Some(v) = it.next_back() {
        out.push(v);
    }
    out
}

fn take_from_front<T: intervals::Step>(intv: &Interval<T>, n: usize) -> Vec<T> {
    let mut it = intv.iter();
    let mut out = Vec::new();
    for _ in 0..n {
        match it.next() {
            Some(v) => out.push(v),
            None => break,
        }
    }
    out
}

fn take_from_back<T: intervals::Step>(intv: &Interval<T>, n: usize) -> Vec<T> {
    let mut it = intv.iter();
    let mut out = Vec::new();
    for _ in 0..n {
        match it.next_back() {
            Some(v) => out.push(v),
            None => break,
        }
    }
    out
}

#[test]
fn test_iter() {
    let intv1 = Interval::new_closed_open(1_u32, 4);
    assert_eq!(intv1.iter().to_vec(), vec![1, 2, 3]);
    assert_eq!(rev_to_vec(&intv1), vec![3, 2, 1]);
    assert_eq!(intv1.iter().len(), 3);
    let mut iter = intv1.iter();
    let _ = iter.next();
    let _ = iter.next_back();
    assert_eq!(iter.as_interval(), Interval::new_closed_open(2, 3));

    let mut iter = intv1.iter();
    assert_eq!(
        &[iter.next(), iter.next_back(), iter.next(), iter.next_back()],
        &[Some(1), Some(3), Some(2), None],
    );

    let intv1 = Interval::new_closed_closed(1, 4);
    assert_eq!(intv1.iter().to_vec(), vec![1, 2, 3, 4]);
    assert_eq!(rev_to_vec(&intv1), vec![4, 3, 2, 1]);
    assert_eq!(intv1.iter().len(), 4);
    assert_eq!(intv1.iter().size_hint(), (4, Some(4)));

    let intv1 = Interval::new_open_closed(1, 4);
    assert_eq!(intv1.iter().to_vec(), vec![2, 3, 4]);
    assert_eq!(rev_to_vec(&intv1), vec![4, 3, 2]);
    assert_eq!(intv1.iter().len(), 3);
    assert_eq!(intv1.iter().size_hint(), (3, Some(3)));
    let mut iter = intv1.iter();
    let _ = iter.next();
    let _ = iter.next_back();
    assert_eq!(iter.as_interval(), Interval::new_open_closed(2, 3));

    let intv1 = Interval::new_open_open(1_i8, 4);
    assert_eq!(intv1.iter().to_vec(), vec![2, 3]);
    assert_eq!(rev_to_vec(&intv1), vec![3, 2]);
    assert_eq!(intv1.iter().len(), 2);
    assert_eq!(intv1.iter().size_hint(), (2, Some(2)));
    let mut iter = intv1.iter();
    let _ = iter.next();
    let _ = iter.next_back();
    assert_eq!(iter.as_interval(), Interval::new_open_open(2, 3));

    let intv1 = Interval::new_unbounded_closed(4_u16);
    assert_eq!(intv1.iter().to_vec(), vec![0, 1, 2, 3, 4]);
    assert_eq!(rev_to_vec(&intv1), vec![4, 3, 2, 1, 0]);
    assert_eq!(intv1.iter().len(), 5);
    assert_eq!(intv1.iter().size_hint(), (5, Some(5)));
    let mut iter = intv1.iter();
    let _ = iter.next();
    let _ = iter.next_back();
    assert_eq!(iter.as_interval(), Interval::new_closed_closed(1, 3));

    let intv1 = Interval::new_unbounded_open(4_u16);
    assert_eq!(intv1.iter().to_vec(), vec![0, 1, 2, 3]);
    assert_eq!(rev_to_vec(&intv1), vec![3, 2, 1, 0]);
    assert_eq!(intv1.iter().len(), 4);
    assert_eq!(intv1.iter().size_hint(), (4, Some(4)));

    let intv1 = Interval::new_closed_unbounded(2_u32);
    assert_eq!(take_from_front(&intv1, 10), vec![2, 3, 4, 5, 6, 7, 8, 9, 10, 11]);
    assert_eq!(take_from_back(&intv1, 3), vec![u32::MAX, u32::MAX - 1, u32::MAX - 2],);
    // [2, u32::MAX] holds u32::MAX - 1 values.
    assert_eq!(intv1.iter().size_hint(), (u32::MAX as usize - 1, Some(u32::MAX as usize - 1)));

    let intv1 = Interval::new_open_unbounded(250_u8);
    assert_eq!(intv1.iter().size_hint(), (5, Some(5)));
    assert_eq!(intv1.iter().to_vec(), vec![251, 252, 253, 254, 255],);

    let intv1 = Interval::new_open_unbounded(2_u32);
    assert_eq!(take_from_front(&intv1, 10), vec![3, 4, 5, 6, 7, 8, 9, 10, 11, 12]);
    assert_eq!(take_from_back(&intv1, 3), vec![u32::MAX, u32::MAX - 1, u32::MAX - 2],);

    let intv1 = Interval::<u32>::empty();
    assert_eq!(intv1.iter().to_vec(), Vec::<u32>::new(),);
    assert_eq!(rev_to_vec(&intv1), Vec::<u32>::new(),);
    assert_eq!(intv1.iter().len(), 0);
    assert_eq!(intv1.iter().size_hint(), (0, Some(0)));

    let intv1 = Interval::<u32>::doubly_unbounded();
    assert_eq!(take_from_front(&intv1, 10), vec![0, 1, 2, 3, 4, 5, 6, 7, 8, 9],);
    assert_eq!(take_from_back(&intv1, 3), vec![u32::MAX, u32::MAX - 1, u32::MAX - 2],);
    // The full domain holds one more value than u32::MAX.
    assert_eq!(intv1.iter().len(), u32::MAX as usize + 1);

    // Over u64 the full count no longer fits the host's size type.
    let intv1 = Interval::<u64>::doubly_unbounded();
    assert_eq!(intv1.iter().size_hint(), (usize::MAX, None));

    // Skipping is direct arithmetic: no billion single steps.
    let intv1 = Interval::<u32>::doubly_unbounded();
    let mut it = intv1.iter();
    let mut skipped = Vec::new();
    if let Some(v) = it.nth(1_000_000_000) {
        skipped.push(v);
    }
    for _ in 0..2 {
        if let Some(v) = it.nth(999_999_999) {
            skipped.push(v);
        }
    }
    assert_eq!(skipped, vec![1_000_000_000, 2_000_000_000, 3_000_000_000]);

    let mut it = intv1.iter();
    let mut skipped_back = Vec::new();
    if let Some(v) = it.nth_back(1_000_000_000) {
        skipped_back.push(v);
    }
    for _ in 0..2 {
        if let Some(v) = it.nth_back(999_999_999) {
            skipped_back.push(v);
        }
    }
    assert_eq!(
        skipped_back,
        vec![u32::MAX - 1_000_000_000, u32::MAX - 2_000_000_000, u32::MAX - 3_000_000_000],
    );
}
