use crate::bounds::Bound;
use crate::intervals::Interval;
use crate::nothing_between::NothingBetween;
use crate::step::Bounded;
use vstd::prelude::*;

verus! {

/// A self-describing, exchange-friendly shape of an interval: one
/// variant for each boundary-kind combination.  A structured
/// serializer can carry this shape and rebuild the interval through
/// `from_repr`.
#[derive(Clone, Copy, Debug)]
pub enum IntervalRepr<T> {
    ClosedClosed(T, T),
    ClosedOpen(T, T),
    ClosedUnbounded(T),
    DoublyUnbounded,
    Empty,
    OpenClosed(T, T),
    OpenOpen(T, T),
    OpenUnbounded(T),
    UnboundedClosed(T),
    UnboundedOpen(T),
}

impl<T: NothingBetween> Interval<T> {
    /// The exact shape `to_repr` returns.
    pub open spec fn spec_to_repr(self) -> IntervalRepr<T> {
        match (self.lower, self.upper) {
            (Bound::RightUnbounded, _) => IntervalRepr::Empty,
            (_, Bound::LeftUnbounded) => IntervalRepr::Empty,
            (Bound::LeftOf(l), Bound::LeftOf(u)) => IntervalRepr::ClosedOpen(l, u),
            (Bound::LeftOf(l), Bound::RightOf(u)) => IntervalRepr::ClosedClosed(l, u),
            (Bound::LeftOf(l), Bound::RightUnbounded) => IntervalRepr::ClosedUnbounded(l),
            (Bound::LeftUnbounded, Bound::RightUnbounded) => IntervalRepr::DoublyUnbounded,
            (Bound::LeftUnbounded, Bound::LeftOf(u)) => IntervalRepr::UnboundedOpen(u),
            (Bound::LeftUnbounded, Bound::RightOf(u)) => IntervalRepr::UnboundedClosed(u),
            (Bound::RightOf(l), Bound::LeftOf(u)) => IntervalRepr::OpenOpen(l, u),
            (Bound::RightOf(l), Bound::RightOf(u)) => IntervalRepr::OpenClosed(l, u),
            (Bound::RightOf(l), Bound::RightUnbounded) => IntervalRepr::OpenUnbounded(l),
        }
    }

    /// Renders the interval in its exchange shape; an empty interval
    /// always renders as `Empty`.
    pub fn to_repr(&self) -> (r: IntervalRepr<T>)
        ensures
            r == self.spec_to_repr(),
    {
        match (&self.lower, &self.upper) {
            (Bound::RightUnbounded, _) => IntervalRepr::Empty,
            (_, Bound::LeftUnbounded) => IntervalRepr::Empty,
            (Bound::LeftOf(l), Bound::LeftOf(u)) => IntervalRepr::ClosedOpen(*l, *u),
            (Bound::LeftOf(l), Bound::RightOf(u)) => IntervalRepr::ClosedClosed(*l, *u),
            (Bound::LeftOf(l), Bound::RightUnbounded) => IntervalRepr::ClosedUnbounded(*l),
            (Bound::LeftUnbounded, Bound::RightUnbounded) => IntervalRepr::DoublyUnbounded,
            (Bound::LeftUnbounded, Bound::LeftOf(u)) => IntervalRepr::UnboundedOpen(*u),
            (Bound::LeftUnbounded, Bound::RightOf(u)) => IntervalRepr::UnboundedClosed(*u),
            (Bound::RightOf(l), Bound::LeftOf(u)) => IntervalRepr::OpenOpen(*l, *u),
            (Bound::RightOf(l), Bound::RightOf(u)) => IntervalRepr::OpenClosed(*l, *u),
            (Bound::RightOf(l), Bound::RightUnbounded) => IntervalRepr::OpenUnbounded(*l),
        }
    }
}

impl<T: Bounded> Interval<T> {
    /// The exact interval `from_repr` rebuilds.
    pub open spec fn spec_from_repr(repr: IntervalRepr<T>) -> Self {
        match repr {
            IntervalRepr::Empty => Self::spec_empty(),
            IntervalRepr::ClosedOpen(l, u) => Self::spec_new_closed_open(l, u),
            IntervalRepr::ClosedClosed(l, u) => Self::spec_new_closed_closed(l, u),
            IntervalRepr::OpenClosed(l, u) => Self::spec_new_open_closed(l, u),
            IntervalRepr::OpenOpen(l, u) => Self::spec_new_open_open(l, u),
            IntervalRepr::OpenUnbounded(l) => Self::spec_new_open_unbounded(l),
            IntervalRepr::ClosedUnbounded(l) => Self::spec_new_closed_unbounded(l),
            IntervalRepr::UnboundedOpen(u) => Self::spec_new_unbounded_open(u),
            IntervalRepr::UnboundedClosed(u) => Self::spec_new_unbounded_closed(u),
            IntervalRepr::DoublyUnbounded => (Interval {
                lower: Bound::LeftUnbounded,
                upper: Bound::RightUnbounded,
            }),
        }
    }

    /// Rebuilds an interval from its exchange shape, through the
    /// normalizing constructors.
    pub fn from_repr(repr: IntervalRepr<T>) -> (r: Self)
        ensures
            r == Self::spec_from_repr(repr),
            r.wf(),
    {
        match repr {
            IntervalRepr::Empty => Self::empty(),
            IntervalRepr::ClosedOpen(l, u) => Self::new_closed_open(l, u),
            IntervalRepr::ClosedClosed(l, u) => Self::new_closed_closed(l, u),
            IntervalRepr::OpenClosed(l, u) => Self::new_open_closed(l, u),
            IntervalRepr::OpenOpen(l, u) => Self::new_open_open(l, u),
            IntervalRepr::OpenUnbounded(l) => Self::new_open_unbounded(l),
            IntervalRepr::ClosedUnbounded(l) => Self::new_closed_unbounded(l),
            IntervalRepr::UnboundedOpen(u) => Self::new_unbounded_open(u),
            IntervalRepr::UnboundedClosed(u) => Self::new_unbounded_closed(u),
            IntervalRepr::DoublyUnbounded => Self::doubly_unbounded(),
        }
    }
}

} // verus!
