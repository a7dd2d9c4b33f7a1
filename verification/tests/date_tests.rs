use chrono::Datelike;
use intervals::{Date, Interval, Timestamp};

fn check_empty_points<T: intervals::NothingBetween>(
    name: &str,
    val: T,
    val_next: T,
    val_far: T,
    val_farther: T,
) {
    assert!(Interval::new_closed_open(val, val).is_empty(), "{}", name);
    assert!(!Interval::new_closed_closed(val, val).is_empty(), "{}", name);

    assert!(!Interval::new_closed_closed(val, val_next).is_empty(), "{}", name);
    assert!(Interval::new_open_open(val, val_next).is_empty(), "{}", name);
    assert!(Interval::new_open_open(val_next, val).is_empty(), "{}", name);

    assert!(!Interval::new_open_open(val, val_far).is_empty(), "{}", name);

    assert!(!Interval::new_open_open(val, val_farther).is_empty(), "{}", name);
}

fn date_of(d: chrono::NaiveDate) -> Date {
    Date::from_days(d.num_days_from_ce())
}

fn instant_of(t: chrono::DateTime<chrono::Local>) -> Timestamp {
    Timestamp::from_nanos(t.timestamp_nanos_opt().unwrap())
}

#[test]
fn test_chrono() {
    check_empty_points(
        "NaiveDate",
        date_of(chrono::NaiveDate::from_ymd_opt(2024, 4, 1).unwrap()),
        date_of(chrono::NaiveDate::from_ymd_opt(2024, 4, 2).unwrap()),
        date_of(chrono::NaiveDate::from_ymd_opt(2024, 4, 3).unwrap()),
        date_of(chrono::NaiveDate::from_ymd_opt(2024, 4, 10).unwrap()),
    );

    let now = chrono::Local::now();
    check_empty_points(
        "DateTime",
        instant_of(now),
        instant_of(now + chrono::TimeDelta::nanoseconds(1)),
        instant_of(now + chrono::TimeDelta::seconds(1)),
        instant_of(now + chrono::TimeDelta::minutes(1)),
    );
}

#[test]
fn test_chrono_iter() {
    // A leap year's end of February, walked day by day.
    let feb_27 = date_of(chrono::NaiveDate::from_ymd_opt(2024, 2, 27).unwrap());
    let feb_28 = date_of(chrono::NaiveDate::from_ymd_opt(2024, 2, 28).unwrap());
    let feb_29 = date_of(chrono::NaiveDate::from_ymd_opt(2024, 2, 29).unwrap());
    let mar_01 = date_of(chrono::NaiveDate::from_ymd_opt(2024, 3, 1).unwrap());
    let mar_02 = date_of(chrono::NaiveDate::from_ymd_opt(2024, 3, 2).unwrap());
    let mar_03 = date_of(chrono::NaiveDate::from_ymd_opt(2024, 3, 3).unwrap());
    let intv1 = Interval::new_closed_open(feb_27, mar_03);
    assert_eq!(intv1.iter().to_vec(), vec![feb_27, feb_28, feb_29, mar_01, mar_02]);
    assert_eq!(intv1.iter().size_hint(), (5, Some(5)));

    let mut rev = Vec::new();
    let mut it = intv1.iter();
    while let Some(d) = it.next_back() {
        rev.push(d);
    }
    assert_eq!(rev, vec![mar_02, mar_01, feb_29, feb_28, feb_27]);
}
