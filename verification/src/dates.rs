use crate::nothing_between::NothingBetween;
use crate::step::{Bounded, Step};
use vstd::prelude::*;

verus! {

/// A calendar day, held as a day number on a continuous day count:
/// two dates have nothing between them when they are the same or
/// consecutive days.  A calendar library converts a year-month-day
/// date to its day number and back; the interval algebra only needs
/// the count.
#[derive(Clone, Copy, Debug, PartialEq, Eq, Structural)]
pub struct Date {
    pub days: i32,
}

impl Date {
    /// The date sitting at the given day number.
    pub fn from_days(days: i32) -> (r: Date)
        ensures
            r.days == days,
    {
        Date { days }
    }

    /// The day number of the date.
    pub fn day_number(&self) -> (r: i32)
        ensures
            r == self.days,
    {
        self.days
    }
}

impl NothingBetween for Date {
    open spec fn lt_spec(&self, other: &Self) -> bool {
        self.days < other.days
    }

    open spec fn nothing_between_spec(&self, other: &Self) -> bool {
        other.days - self.days <= 1
    }

    proof fn lemma_order_laws() {
    }

    proof fn lemma_realizable(a: Self, b: Self) {
        let c = Date { days: (a.days + 1) as i32 };
        assert(a.lt_spec(&c) && c.lt_spec(&b));
    }

    fn lt(&self, other: &Self) -> (r: bool) {
        self.days < other.days
    }

    fn nothing_between(&self, other: &Self) -> (r: bool) {
        self.days >= other.days - 1
    }
}

impl Bounded for Date {
    open spec fn min_spec() -> Self {
        Date { days: i32::MIN }
    }

    open spec fn max_spec() -> Self {
        Date { days: i32::MAX }
    }

    proof fn lemma_min_max() {
    }

    fn min_value() -> (r: Self) {
        Date { days: i32::MIN }
    }

    fn max_value() -> (r: Self) {
        Date { days: i32::MAX }
    }
}

impl Step for Date {
    open spec fn to_int(&self) -> int {
        self.days as int
    }

    proof fn lemma_step_laws() {
    }

    fn forward(&self, step: usize) -> (r: Option<Self>) {
        let pos = self.days as i128 + step as i128;
        if pos > i32::MAX as i128 {
            None
        } else {
            Some(Date { days: pos as i32 })
        }
    }

    fn backward(&self, step: usize) -> (r: Option<Self>) {
        let pos = self.days as i128 - step as i128;
        if pos < i32::MIN as i128 {
            None
        } else {
            Some(Date { days: pos as i32 })
        }
    }

    fn elements_between(&self, other: &Self) -> (r: Option<usize>) {
        let d = other.days as i128 - self.days as i128;
        if d < 0 || d > usize::MAX as i128 {
            None
        } else {
            Some(d as usize)
        }
    }
}

/// An instant, held as a nanosecond count from a fixed origin: two
/// instants have nothing between them when they are at most one
/// nanosecond apart.  A time library converts a wall-clock time to its
/// nanosecond count and back.
#[derive(Clone, Copy, Debug, PartialEq, Eq, Structural)]
pub struct Timestamp {
    pub nanos: i64,
}

impl Timestamp {
    /// The instant sitting at the given nanosecond count.
    pub fn from_nanos(nanos: i64) -> (r: Timestamp)
        ensures
            r.nanos == nanos,
    {
        Timestamp { nanos }
    }

    /// The nanosecond count of the instant.
    pub fn nanoseconds(&self) -> (r: i64)
        ensures
            r == self.nanos,
    {
        self.nanos
    }
}

impl NothingBetween for Timestamp {
    open spec fn lt_spec(&self, other: &Self) -> bool {
        self.nanos < other.nanos
    }

    open spec fn nothing_between_spec(&self, other: &Self) -> bool {
        other.nanos - self.nanos <= 1
    }

    proof fn lemma_order_laws() {
    }

    proof fn lemma_realizable(a: Self, b: Self) {
        let c = Timestamp { nanos: (a.nanos + 1) as i64 };
        assert(a.lt_spec(&c) && c.lt_spec(&b));
    }

    fn lt(&self, other: &Self) -> (r: bool) {
        self.nanos < other.nanos
    }

    fn nothing_between(&self, other: &Self) -> (r: bool) {
        self.nanos >= other.nanos - 1
    }
}

impl Bounded for Timestamp {
    open spec fn min_spec() -> Self {
        Timestamp { nanos: i64::MIN }
    }

    open spec fn max_spec() -> Self {
        Timestamp { nanos: i64::MAX }
    }

    proof fn lemma_min_max() {
    }

    fn min_value() -> (r: Self) {
        Timestamp { nanos: i64::MIN }
    }

    fn max_value() -> (r: Self) {
        Timestamp { nanos: i64::MAX }
    }
}

} // verus!
