use intervals::{Interval, ParseError, ValueError};

#[test]
fn test_fromstr() -> Result<(), ParseError<ValueError>> {
    assert_eq!("[1,4]".parse::<Interval<u32>>()?, Interval::new_closed_closed(1, 4));
    assert_eq!("[ 1, 4)".parse::<Interval<u32>>()?, Interval::new_closed_open(1, 4));
    assert_eq!("(1,4)".parse::<Interval<u8>>()?, Interval::new_open_open(1, 4));
    assert_eq!("(1,4  ]".parse::<Interval<u8>>()?, Interval::new_open_closed(1, 4));
    assert_eq!("(1,)".parse::<Interval<u8>>()?, Interval::new_open_unbounded(1));
    assert_eq!("[1,  )".parse::<Interval<u64>>()?, Interval::new_closed_unbounded(1));
    assert_eq!("(,1)".parse::<Interval<u8>>()?, Interval::new_unbounded_open(1));
    assert_eq!("( ,1]".parse::<Interval<u8>>()?, Interval::new_unbounded_closed(1));
    assert_eq!("(,)".parse::<Interval<u8>>()?, Interval::doubly_unbounded());
    assert_eq!("empty".parse::<Interval<i32>>()?, Interval::empty());
    assert!(matches!("&1,2".parse::<Interval<i32>>(), Err(ParseError::InvalidInput)));
    assert!("&1,2".parse::<Interval<i32>>().is_err());
    Ok(())
}

#[test]
fn test_from_interval() {
    let intv = Interval::new_open_open(1, 4);
    assert_eq!(intv.to_text(), "(1, 4)");

    let intv = Interval::new_open_open(1, 4);
    let s: String = intv.to_text();
    assert_eq!(s, "(1, 4)");
}

#[test]
fn test_into_interval() -> Result<(), ParseError<ValueError>> {
    let intv = Interval::<u32>::from_text("[1,4]")?;
    assert_eq!(intv, Interval::new_closed_closed(1, 4));

    let intv: Interval<u32> = "[1,4]".parse()?;
    assert_eq!(intv, Interval::new_closed_closed(1, 4));

    Ok(())
}

#[test]
fn test_display() {
    assert_eq!(Interval::new_closed_closed(1, 4).to_text(), "[1, 4]");
    assert_eq!(Interval::new_closed_open(1, 4).to_text(), "[1, 4)");
    assert_eq!(Interval::new_open_closed(1, 4).to_text(), "(1, 4]");
    assert_eq!(Interval::new_open_open(1, 4).to_text(), "(1, 4)");
    assert_eq!(Interval::new_closed_unbounded(1).to_text(), "[1,)");
    assert_eq!(Interval::new_open_unbounded(1).to_text(), "(1,)");
    assert_eq!(Interval::new_unbounded_closed(1).to_text(), "(, 1]");
    assert_eq!(Interval::new_unbounded_open(1).to_text(), "(, 1)");
    assert_eq!(Interval::<u32>::doubly_unbounded().to_text(), "(,)");
    assert_eq!(Interval::<u32>::empty().to_text(), "empty");
    assert_eq!(Interval::new_closed_closed(-7_i32, 40).to_text(), "[-7, 40]");
}

#[test]
fn test_parse_errors() {
    // A malformed structure.
    assert!(matches!(Interval::<u32>::from_text("1,4"), Err(ParseError::InvalidInput)));
    assert!(matches!(Interval::<u32>::from_text("[1 4]"), Err(ParseError::InvalidInput)));
    assert!(matches!(Interval::<u32>::from_text("[1,4"), Err(ParseError::InvalidInput)));
    assert!(matches!(Interval::<u32>::from_text("[,4["), Err(ParseError::InvalidInput)));
    // A value the domain cannot parse.
    assert!(matches!(Interval::<u32>::from_text("[a,4]"), Err(ParseError::Bound(_))));
    assert!(matches!(Interval::<u32>::from_text("[1,-4]"), Err(ParseError::Bound(_))));
    assert!(matches!(Interval::<u8>::from_text("[1,400]"), Err(ParseError::Bound(_))));
}

#[test]
fn test_parse_display_round_trip() {
    // For every constructor form, rendering then parsing returns an
    // equal interval.
    let cases = [
        Interval::new_closed_closed(1_i32, 4),
        Interval::new_closed_open(1, 4),
        Interval::new_open_open(1, 4),
        Interval::new_open_closed(1, 4),
        Interval::new_closed_unbounded(1),
        Interval::new_open_unbounded(1),
        Interval::new_unbounded_closed(4),
        Interval::new_unbounded_open(4),
        Interval::new_closed_closed(-9, -2),
        Interval::<i32>::doubly_unbounded(),
        Interval::<i32>::empty(),
        Interval::new_single(0),
    ];
    for intv in &cases {
        let text = intv.to_text();
        let back: Interval<i32> = text.as_str().parse().unwrap();
        assert_eq!(*intv, back);
        assert!(intv.equivalent(&back));
    }
}
