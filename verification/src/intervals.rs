use crate::bounds::{
    lemma_in_right_monotone, lemma_le_congruence, lemma_le_total, lemma_le_trans,
    lemma_value_between_cuts, max_bound_spec, min_bound_spec, Bound,
};
use crate::nothing_between::NothingBetween;
use crate::pairs::Pair;
use crate::step::Bounded;
use vstd::prelude::*;
use vstd::std_specs::cmp::PartialOrdSpec;

verus! {

/// An interval of values: a pair of cuts.  The values of the interval
/// are those on the right of `lower` and on the left of `upper`.
/// The canonical empty interval is the inverted pair
/// `(RightUnbounded, LeftUnbounded)`; the constructors collapse every
/// degenerate bound pair to it, so that an interval built through them
/// is either canonically empty or holds a lower cut strictly left of
/// its upper cut (`wf`).
#[derive(Clone, Copy, Debug)]
pub struct Interval<T> {
    pub lower: Bound<T>,
    pub upper: Bound<T>,
}

impl<T: NothingBetween> Interval<T> {
    /// The canonical empty interval.
    pub open spec fn spec_empty() -> Self {
        Interval { lower: Bound::RightUnbounded, upper: Bound::LeftUnbounded }
    }

    /// An interval is empty when its upper cut is at or left of its
    /// lower cut.
    pub open spec fn is_empty_spec(self) -> bool {
        self.upper.le_spec(self.lower)
    }

    /// What the constructors guarantee: the lower cut is strictly left
    /// of the upper cut, or the interval is the canonical empty one.
    pub open spec fn wf(self) -> bool {
        self.lower.lt_spec(self.upper) || self == Self::spec_empty()
    }

    /// Whether both cuts sit against values: neither side is
    /// unbounded.
    pub open spec fn spec_finite_cuts(self) -> bool {
        crate::bounds::spec_finite_cut(self.lower) && crate::bounds::spec_finite_cut(self.upper)
    }

    /// The set of values the interval stands for.
    pub open spec fn contains_spec(self, v: T) -> bool {
        self.lower.in_right(v) && !self.upper.in_right(v)
    }

    /// Whether the two intervals have their cuts at the same places.
    pub open spec fn spec_equivalent(self, other: Self) -> bool {
        self.lower.eq_spec(other.lower) && self.upper.eq_spec(other.upper)
    }

    /// Whether `self`'s cuts enclose `other`'s.
    pub open spec fn spec_contains_interval(self, other: Self) -> bool {
        self.lower.le_spec(other.lower) && other.upper.le_spec(self.upper)
    }

    /// The interval with the given cuts, normalized to the canonical
    /// empty interval when they are inverted or equal.
    pub open spec fn spec_from_bounds(lower: Bound<T>, upper: Bound<T>) -> Self {
        if lower.lt_spec(upper) {
            Interval { lower, upper }
        } else {
            Self::spec_empty()
        }
    }

    /// Creates an interval from its cuts, normalizing empty ones.
    pub(crate) fn from_bounds(lower: Bound<T>, upper: Bound<T>) -> (r: Self)
        ensures
            r == Self::spec_from_bounds(lower, upper),
            r.wf(),
    {
        if upper.le_bound(&lower) {
            Self::empty()
        } else {
            Interval { lower, upper }
        }
    }

    /// Returns an empty interval.  Several bound pairs denote an empty
    /// interval; this is the canonical one, and the one every
    /// constructor returns for degenerate inputs.
    pub fn empty() -> (r: Self)
        ensures
            r == Self::spec_empty(),
            r.wf(),
            forall|v: T| !r.contains_spec(v),
    {
        Interval { lower: Bound::RightUnbounded, upper: Bound::LeftUnbounded }
    }

    /// Construct a doubly unbounded interval (`(,)`) holding every
    /// value of the domain.
    pub fn doubly_unbounded() -> (r: Self)
        ensures
            r == (Interval { lower: Bound::<T>::LeftUnbounded, upper: Bound::<T>::RightUnbounded }),
            r.wf(),
            forall|v: T| r.contains_spec(v),
    {
        Interval { lower: Bound::LeftUnbounded, upper: Bound::RightUnbounded }
    }

    /// The exact value of `new_closed_open`.
    pub open spec fn spec_new_closed_open(lower: T, upper: T) -> Self {
        if lower.lt_spec(&upper) {
            Interval { lower: Bound::LeftOf(lower), upper: Bound::LeftOf(upper) }
        } else {
            Self::spec_empty()
        }
    }

    /// Construct a left-closed, right-open interval (`[A,B)`), empty
    /// when the arguments are equal or inverted.
    pub fn new_closed_open(lower: T, upper: T) -> (r: Self)
        ensures
            r == Self::spec_new_closed_open(lower, upper),
            r.wf(),
            forall|v: T| r.contains_spec(v) == (!v.lt_spec(&lower) && v.lt_spec(&upper)),
    {
        proof {
            T::lemma_order_laws();
        }
        if lower.lt(&upper) {
            Interval { lower: Bound::LeftOf(lower), upper: Bound::LeftOf(upper) }
        } else {
            Self::empty()
        }
    }

    /// The exact value of `new_closed_closed`.
    pub open spec fn spec_new_closed_closed(lower: T, upper: T) -> Self {
        if !upper.lt_spec(&lower) {
            Interval { lower: Bound::LeftOf(lower), upper: Bound::RightOf(upper) }
        } else {
            Self::spec_empty()
        }
    }

    /// Construct a left-closed, right-closed interval (`[A,B]`), empty
    /// when the arguments are inverted.
    pub fn new_closed_closed(lower: T, upper: T) -> (r: Self)
        ensures
            r == Self::spec_new_closed_closed(lower, upper),
            r.wf(),
            forall|v: T| r.contains_spec(v) == (!v.lt_spec(&lower) && !upper.lt_spec(&v)),
    {
        proof {
            T::lemma_order_laws();
        }
        if !upper.lt(&lower) {
            Interval { lower: Bound::LeftOf(lower), upper: Bound::RightOf(upper) }
        } else {
            Self::empty()
        }
    }

    /// The exact value of `new_open_open`.
    pub open spec fn spec_new_open_open(lower: T, upper: T) -> Self {
        if lower.lt_spec(&upper) && !lower.nothing_between_spec(&upper) {
            Interval { lower: Bound::RightOf(lower), upper: Bound::LeftOf(upper) }
        } else {
            Self::spec_empty()
        }
    }

    /// Construct a left-open, right-open interval (`(A,B)`), empty when
    /// the arguments are equal or inverted, and also when the domain
    /// holds nothing between them.
    pub fn new_open_open(lower: T, upper: T) -> (r: Self)
        ensures
            r == Self::spec_new_open_open(lower, upper),
            r.wf(),
            forall|v: T| r.contains_spec(v) == (lower.lt_spec(&v) && v.lt_spec(&upper)),
    {
        proof {
            T::lemma_order_laws();
        }
        if lower.lt(&upper) {
            if lower.nothing_between(&upper) {
                Self::empty()
            } else {
                Interval { lower: Bound::RightOf(lower), upper: Bound::LeftOf(upper) }
            }
        } else {
            Self::empty()
        }
    }

    /// The exact value of `new_open_closed`.
    pub open spec fn spec_new_open_closed(lower: T, upper: T) -> Self {
        if lower.lt_spec(&upper) {
            Interval { lower: Bound::RightOf(lower), upper: Bound::RightOf(upper) }
        } else {
            Self::spec_empty()
        }
    }

    /// Construct a left-open, right-closed interval (`(A,B]`), empty
    /// when the arguments are equal or inverted.
    pub fn new_open_closed(lower: T, upper: T) -> (r: Self)
        ensures
            r == Self::spec_new_open_closed(lower, upper),
            r.wf(),
            forall|v: T| r.contains_spec(v) == (lower.lt_spec(&v) && !upper.lt_spec(&v)),
    {
        proof {
            T::lemma_order_laws();
        }
        if lower.lt(&upper) {
            Interval { lower: Bound::RightOf(lower), upper: Bound::RightOf(upper) }
        } else {
            Self::empty()
        }
    }

    /// Construct an interval holding a single value (`[A,A]`).
    pub fn new_single(value: T) -> (r: Self)
        ensures
            r == Self::spec_new_closed_closed(value, value),
            r.wf(),
            forall|v: T| r.contains_spec(v) == (v == value),
    {
        proof {
            T::lemma_order_laws();
        }
        Self::new_closed_closed(value, value)
    }

    /// True if the interval holds no value.
    pub fn is_empty(&self) -> (r: bool)
        ensures
            r == self.is_empty_spec(),
    {
        self.upper.le_bound(&self.lower)
    }

    /// Whether the value is held in the interval.
    pub fn contains(&self, value: T) -> (r: bool)
        ensures
            r == self.contains_spec(value),
    {
        self.lower.left_of(&value) && self.upper.right_of(&value)
    }

    /// Whether `self` holds every value of `other` (and possibly more).
    pub fn contains_interval(&self, other: &Self) -> (r: bool)
        ensures
            r == self.spec_contains_interval(*other),
    {
        self.lower.le_bound(&other.lower) && other.upper.le_bound(&self.upper)
    }

    /// Whether the two intervals hold their cuts at the same places,
    /// so that they stand for the same set of values: over the
    /// integers, `[1,10)` and `[1,9]` are equivalent.
    pub fn equivalent(&self, other: &Self) -> (r: bool)
        ensures
            r == self.spec_equivalent(*other),
    {
        self.lower.le_bound(&other.lower) && other.lower.le_bound(&self.lower)
            && self.upper.le_bound(&other.upper) && other.upper.le_bound(&self.upper)
    }
}

impl<T: Bounded> Interval<T> {
    /// The exact value of `new_unbounded_closed`.
    pub open spec fn spec_new_unbounded_closed(upper: T) -> Self {
        if T::min_spec().lt_spec(&upper) {
            Interval { lower: Bound::LeftUnbounded, upper: Bound::RightOf(upper) }
        } else {
            Self::spec_empty()
        }
    }

    /// Construct a left-unbounded, right-closed interval (`(,B]`),
    /// empty when `B` is the least value of the domain.
    pub fn new_unbounded_closed(upper: T) -> (r: Self)
        ensures
            r == Self::spec_new_unbounded_closed(upper),
            r.wf(),
            T::min_spec().lt_spec(&upper) ==> forall|v: T|
                r.contains_spec(v) == !upper.lt_spec(&v),
    {
        if T::min_value().lt(&upper) {
            Interval { lower: Bound::LeftUnbounded, upper: Bound::RightOf(upper) }
        } else {
            Self::empty()
        }
    }

    /// The exact value of `new_unbounded_open`.
    pub open spec fn spec_new_unbounded_open(upper: T) -> Self {
        if T::min_spec().lt_spec(&upper) {
            Interval { lower: Bound::LeftUnbounded, upper: Bound::LeftOf(upper) }
        } else {
            Self::spec_empty()
        }
    }

    /// Construct a left-unbounded, right-open interval (`(,B)`), empty
    /// when `B` is the least value of the domain.
    pub fn new_unbounded_open(upper: T) -> (r: Self)
        ensures
            r == Self::spec_new_unbounded_open(upper),
            r.wf(),
            T::min_spec().lt_spec(&upper) ==> forall|v: T| r.contains_spec(v) == v.lt_spec(&upper),
    {
        if T::min_value().lt(&upper) {
            Interval { lower: Bound::LeftUnbounded, upper: Bound::LeftOf(upper) }
        } else {
            Self::empty()
        }
    }

    /// The exact value of `new_closed_unbounded`.
    pub open spec fn spec_new_closed_unbounded(lower: T) -> Self {
        if lower.lt_spec(&T::max_spec()) {
            Interval { lower: Bound::LeftOf(lower), upper: Bound::RightUnbounded }
        } else {
            Self::spec_empty()
        }
    }

    /// Construct a left-closed, right-unbounded interval (`[A,)`),
    /// empty when `A` is the greatest value of the domain.
    pub fn new_closed_unbounded(lower: T) -> (r: Self)
        ensures
            r == Self::spec_new_closed_unbounded(lower),
            r.wf(),
            lower.lt_spec(&T::max_spec()) ==> forall|v: T| r.contains_spec(v) == !v.lt_spec(&lower),
    {
        if lower.lt(&T::max_value()) {
            Interval { lower: Bound::LeftOf(lower), upper: Bound::RightUnbounded }
        } else {
            Self::empty()
        }
    }

    /// The exact value of `new_open_unbounded`.
    pub open spec fn spec_new_open_unbounded(lower: T) -> Self {
        if lower.lt_spec(&T::max_spec()) {
            Interval { lower: Bound::RightOf(lower), upper: Bound::RightUnbounded }
        } else {
            Self::spec_empty()
        }
    }

    /// Construct a left-open, right-unbounded interval (`(A,)`), empty
    /// when `A` is the greatest value of the domain.
    pub fn new_open_unbounded(lower: T) -> (r: Self)
        ensures
            r == Self::spec_new_open_unbounded(lower),
            r.wf(),
            lower.lt_spec(&T::max_spec()) ==> forall|v: T| r.contains_spec(v) == lower.lt_spec(&v),
    {
        if lower.lt(&T::max_value()) {
            Interval { lower: Bound::RightOf(lower), upper: Bound::RightUnbounded }
        } else {
            Self::empty()
        }
    }
}

impl<T: NothingBetween> Interval<T> {
    /// The lower bound's value, `None` when unbounded or empty.  The
    /// value itself may lie outside the interval, for an open bound.
    pub fn lower(&self) -> (r: Option<T>)
        ensures
            r == self.lower.value_spec(),
    {
        match &self.lower {
            Bound::LeftOf(p) => Some(*p),
            Bound::RightOf(p) => Some(*p),
            _ => None,
        }
    }

    /// Whether the lower bound's value belongs to the interval; false
    /// when unbounded or empty.
    pub fn lower_inclusive(&self) -> (r: bool)
        ensures
            r == (self.lower matches Bound::LeftOf(_)),
    {
        matches!(self.lower, Bound::LeftOf(_))
    }

    /// True if the lower bound is infinite.
    pub fn lower_unbounded(&self) -> (r: bool)
        ensures
            r == (self.lower matches Bound::LeftUnbounded),
    {
        matches!(self.lower, Bound::LeftUnbounded)
    }

    /// The upper bound's value, `None` when unbounded or empty.  The
    /// value itself may lie outside the interval, for an open bound.
    pub fn upper(&self) -> (r: Option<T>)
        ensures
            r == self.upper.value_spec(),
    {
        match &self.upper {
            Bound::LeftOf(p) => Some(*p),
            Bound::RightOf(p) => Some(*p),
            _ => None,
        }
    }

    /// Whether the upper bound's value belongs to the interval; false
    /// when unbounded or empty.
    pub fn upper_inclusive(&self) -> (r: bool)
        ensures
            r == (self.upper matches Bound::RightOf(_)),
    {
        matches!(self.upper, Bound::RightOf(_))
    }

    /// True if the upper bound is infinite.
    pub fn upper_unbounded(&self) -> (r: bool)
        ensures
            r == (self.upper matches Bound::RightUnbounded),
    {
        matches!(self.upper, Bound::RightUnbounded)
    }

    /// True if the interval is of the exact shape `[A,A]`.  Other
    /// intervals that happen to hold a single value are not single:
    /// over the integers, `(0,2)` is not.
    pub open spec fn spec_is_single(self) -> bool {
        match (self.lower, self.upper) {
            (Bound::LeftOf(l), Bound::RightOf(u)) => l == u,
            _ => false,
        }
    }

    /// True if the interval is of the form `[A,A]`.
    pub fn is_single(&self) -> (r: bool)
        ensures
            r == self.spec_is_single(),
    {
        proof {
            T::lemma_order_laws();
        }
        match (&self.lower, &self.upper) {
            (Bound::LeftOf(l), Bound::RightOf(u)) => !l.lt(u) && !u.lt(l),
            _ => false,
        }
    }

    /// Whether every value in the interval is strictly less than `x`;
    /// true if the interval is empty.
    pub fn strictly_left_of(&self, x: T) -> (r: bool)
        ensures
            r == self.upper.in_right(x),
            r ==> forall|v: T| self.contains_spec(v) ==> v.lt_spec(&x),
    {
        let r = self.upper.left_of(&x);
        proof {
            if r {
                assert forall|v: T| self.contains_spec(v) implies v.lt_spec(&x) by {
                    crate::bounds::lemma_cut_separates(self.upper, x, v);
                }
            }
        }
        r
    }

    /// Whether `x` is strictly less than every value in the interval;
    /// true if the interval is empty.
    pub fn strictly_right_of(&self, x: T) -> (r: bool)
        ensures
            r == !self.lower.in_right(x),
            r ==> forall|v: T| self.contains_spec(v) ==> x.lt_spec(&v),
    {
        let r = self.lower.right_of(&x);
        proof {
            if r {
                assert forall|v: T| self.contains_spec(v) implies x.lt_spec(&v) by {
                    crate::bounds::lemma_cut_separates(self.lower, v, x);
                }
            }
        }
        r
    }

    /// Whether every value in the interval is at most `x`; true if the
    /// interval is empty.
    pub fn left_of(&self, x: T) -> (r: bool)
        ensures
            r == self.upper.le_spec(Bound::RightOf(x)),
            r ==> forall|v: T| self.contains_spec(v) ==> !x.lt_spec(&v),
    {
        let r = self.upper.le_bound(&Bound::RightOf(x));
        proof {
            if r {
                assert forall|v: T| self.contains_spec(v) implies !x.lt_spec(&v) by {
                    if x.lt_spec(&v) {
                        lemma_in_right_monotone(self.upper, Bound::RightOf(x), v);
                    }
                }
            }
        }
        r
    }

    /// Whether `x` is at most every value in the interval; true if the
    /// interval is empty.
    pub fn right_of(&self, x: T) -> (r: bool)
        ensures
            r == Bound::LeftOf(x).le_spec(self.lower),
            r ==> forall|v: T| self.contains_spec(v) ==> !v.lt_spec(&x),
    {
        let r = Bound::LeftOf(x).le_bound(&self.lower);
        proof {
            if r {
                assert forall|v: T| self.contains_spec(v) implies !v.lt_spec(&x) by {
                    lemma_in_right_monotone(Bound::LeftOf(x), self.lower, v);
                }
            }
        }
        r
    }

    /// The exact condition `left_of_interval` decides: the upper cut of
    /// `self` is at or left of the closure of `other`'s lower cut.
    pub open spec fn spec_left_of_interval(self, other: Self) -> bool {
        match (self.upper, other.lower) {
            (Bound::LeftUnbounded, _) => true,
            (_, Bound::RightUnbounded) => true,
            (Bound::RightOf(u), Bound::LeftOf(o)) => !o.lt_spec(&u),
            (Bound::LeftOf(u), Bound::LeftOf(o)) => !o.lt_spec(&u) || o.nothing_between_spec(&u),
            _ => self.upper.le_spec(other.lower),
        }
    }

    /// Whether every value in `self` is at most every value in
    /// `other`; true if either interval is empty.
    pub fn left_of_interval(&self, other: &Self) -> (r: bool)
        ensures
            r == self.spec_left_of_interval(*other),
            r ==> forall|a: T, b: T|
                self.contains_spec(a) && other.contains_spec(b) ==> !b.lt_spec(&a),
    {
        let r = match (&self.upper, &other.lower) {
            (Bound::LeftUnbounded, _) => true,
            (_, Bound::RightUnbounded) => true,
            (Bound::RightOf(u), Bound::LeftOf(o)) => !o.lt(u),
            (Bound::LeftOf(u), Bound::LeftOf(o)) => {
                if !o.lt(u) {
                    true
                } else {
                    o.nothing_between(u)
                }
            }
            _ => self.upper.le_bound(&other.lower),
        };
        proof {
            T::lemma_order_laws();
            if r {
                assert forall|a: T, b: T|
                    self.contains_spec(a) && other.contains_spec(b) implies !b.lt_spec(&a) by {
                    if self.upper.le_spec(other.lower) {
                        lemma_in_right_monotone(self.upper, other.lower, b);
                        crate::bounds::lemma_cut_separates(self.upper, b, a);
                    }
                }
            }
        }
        r
    }

    /// Whether every value in `self` is strictly less than every value
    /// in `other`; true if either interval is empty.
    pub fn strictly_left_of_interval(&self, other: &Self) -> (r: bool)
        ensures
            r == self.upper.le_spec(other.lower),
            r ==> forall|a: T, b: T|
                self.contains_spec(a) && other.contains_spec(b) ==> a.lt_spec(&b),
    {
        let r = self.upper.le_bound(&other.lower);
        proof {
            if r {
                assert forall|a: T, b: T|
                    self.contains_spec(a) && other.contains_spec(b) implies a.lt_spec(&b) by {
                    lemma_in_right_monotone(self.upper, other.lower, b);
                    crate::bounds::lemma_cut_separates(self.upper, b, a);
                }
            }
        }
        r
    }

    /// Whether every value of `self` is strictly below every value of
    /// `other`, with a gap between the two intervals.
    pub fn strictly_left_not_contiguous(&self, other: &Self) -> (r: bool)
        ensures
            r == self.upper.lt_spec(other.lower),
    {
        !other.lower.le_bound(&self.upper)
    }

    /// Whether every value in `self` is at least every value in
    /// `other`; true if either interval is empty.
    pub fn right_of_interval(&self, other: &Self) -> (r: bool)
        ensures
            r == other.spec_left_of_interval(*self),
            r ==> forall|a: T, b: T|
                self.contains_spec(a) && other.contains_spec(b) ==> !a.lt_spec(&b),
    {
        other.left_of_interval(self)
    }

    /// Whether every value in `self` is strictly greater than every
    /// value in `other`; true if either interval is empty.
    pub fn strictly_right_of_interval(&self, other: &Self) -> (r: bool)
        ensures
            r == other.upper.le_spec(self.lower),
            r ==> forall|a: T, b: T|
                self.contains_spec(a) && other.contains_spec(b) ==> b.lt_spec(&a),
    {
        other.strictly_left_of_interval(self)
    }

    /// The exact value of `convex_hull`: the least of the lower cuts
    /// paired with the greatest of the upper cuts.
    pub open spec fn spec_convex_hull(self, other: Self) -> Self {
        Self::spec_from_bounds(
            min_bound_spec(self.lower, other.lower),
            max_bound_spec(self.upper, other.upper),
        )
    }

    /// Returns the convex hull of the two intervals: the smallest
    /// interval holding the values of both.
    pub fn convex_hull(&self, other: &Self) -> (r: Self)
        ensures
            r == self.spec_convex_hull(*other),
            r.wf(),
            forall|v: T| self.contains_spec(v) || other.contains_spec(v) ==> r.contains_spec(v),
    {
        let lo = if self.lower.le_bound(&other.lower) {
            self.lower
        } else {
            other.lower
        };
        let up = if self.upper.le_bound(&other.upper) {
            other.upper
        } else {
            self.upper
        };
        proof {
            lemma_convex_hull_values(*self, *other);
        }
        Self::from_bounds(lo, up)
    }

    /// The exact value of `intersection`: the greatest of the lower
    /// cuts paired with the least of the upper cuts.
    pub open spec fn spec_intersection(self, other: Self) -> Self {
        Self::spec_from_bounds(
            max_bound_spec(self.lower, other.lower),
            min_bound_spec(self.upper, other.upper),
        )
    }

    /// Returns the intersection of the two intervals: it holds exactly
    /// the values held by both.
    pub fn intersection(&self, other: &Self) -> (r: Self)
        ensures
            r == self.spec_intersection(*other),
            r.wf(),
            forall|v: T|
                r.contains_spec(v) == (self.contains_spec(v) && other.contains_spec(v)),
    {
        let lo = if self.lower.le_bound(&other.lower) {
            other.lower
        } else {
            self.lower
        };
        let up = if self.upper.le_bound(&other.upper) {
            self.upper
        } else {
            other.upper
        };
        proof {
            lemma_intersection_values(*self, *other);
        }
        Self::from_bounds(lo, up)
    }

    /// Whether the two intervals overlap: both non-empty with each
    /// lower cut strictly left of the other's upper cut.
    pub open spec fn spec_intersects(self, other: Self) -> bool {
        self.lower.lt_spec(other.upper) && other.lower.lt_spec(self.upper)
    }

    /// Whether the two intervals hold at least one common value region:
    /// exactly when their intersection is non-empty.
    pub fn intersects(&self, other: &Self) -> (r: bool)
        ensures
            r == self.spec_intersects(*other),
            self.wf() && other.wf() ==> r == !self.spec_intersection(*other).is_empty_spec(),
    {
        proof {
            if self.wf() && other.wf() {
                lemma_intersects_iff_intersection_nonempty(*self, *other);
            }
        }
        !other.upper.le_bound(&self.lower) && !self.upper.le_bound(&other.lower)
    }

    /// The exact value of `between`: empty unless both inputs are
    /// non-empty, else the least of the upper cuts paired with the
    /// greatest of the lower cuts.
    pub open spec fn spec_between(self, other: Self) -> Self {
        if self.is_empty_spec() || other.is_empty_spec() {
            Self::spec_empty()
        } else {
            Self::spec_from_bounds(
                min_bound_spec(self.upper, other.upper),
                max_bound_spec(self.lower, other.lower),
            )
        }
    }

    /// Returns the largest interval inside the convex hull that meets
    /// neither input: the gap between them.  Empty when either input is
    /// empty, or when they touch or overlap.
    pub fn between(&self, other: &Self) -> (r: Self)
        ensures
            r == self.spec_between(*other),
            r.wf(),
            forall|v: T|
                r.contains_spec(v) ==> !self.contains_spec(v) && !other.contains_spec(v),
    {
        proof {
            lemma_between_values(*self, *other);
        }
        if self.is_empty() || other.is_empty() {
            Self::empty()
        } else {
            let lo = if self.upper.le_bound(&other.upper) {
                self.upper
            } else {
                other.upper
            };
            let up = if self.lower.le_bound(&other.lower) {
                other.lower
            } else {
                self.lower
            };
            Self::from_bounds(lo, up)
        }
    }

    /// The exact condition `contiguous` decides.
    pub open spec fn spec_contiguous(self, other: Self) -> bool {
        self.is_empty_spec() || other.is_empty_spec() || (self.lower.le_spec(other.upper)
            && other.lower.le_spec(self.upper))
    }

    /// Whether no value lies between the two intervals: they overlap or
    /// touch.  True if either is empty.
    pub fn contiguous(&self, other: &Self) -> (r: bool)
        ensures
            r == self.spec_contiguous(*other),
    {
        self.is_empty() || other.is_empty() || (self.lower.le_bound(&other.upper)
            && other.lower.le_bound(&self.upper))
    }

    /// Returns the union of the two intervals when they are contiguous,
    /// and `None` otherwise: the union of two separated intervals is
    /// not an interval.
    pub fn union(&self, other: &Self) -> (r: Option<Self>)
        ensures
            (r is Some) == self.spec_contiguous(*other),
            r matches Some(h) ==> h == self.spec_convex_hull(*other) && h.wf(),
            self.wf() && other.wf() ==> (r matches Some(h) ==> forall|v: T|
                h.contains_spec(v) == (self.contains_spec(v) || other.contains_spec(v))),
    {
        proof {
            if self.wf() && other.wf() && self.spec_contiguous(*other) {
                lemma_union_exact(*self, *other);
            }
        }
        if self.contiguous(other) {
            Some(self.convex_hull(other))
        } else {
            None
        }
    }
}

impl<T: NothingBetween> Interval<T> {
    /// The exact value of `difference`: when `other`'s span meets
    /// `self`'s, the one or two parts of `self` on either side of
    /// `other`; otherwise `self` unchanged.
    pub open spec fn spec_difference(self, other: Self) -> Pair<T> {
        if other.lower.le_spec(self.upper) && !other.upper.le_spec(self.lower) {
            Pair::spec_new_from_two(
                Self::spec_from_bounds(self.lower, other.lower),
                Self::spec_from_bounds(other.upper, self.upper),
            )
        } else {
            Pair::One(self)
        }
    }

    /// Returns the result of removing all values of `other` from
    /// `self`: it holds exactly the values of `self` outside `other`.
    pub fn difference(&self, other: &Self) -> (r: Pair<T>)
        ensures
            r == self.spec_difference(*other),
            forall|v: T|
                r.pair_contains(v) == (self.contains_spec(v) && !other.contains_spec(v)),
            r matches Pair::Two(p1, p2) ==> !p1.is_empty_spec() && !p2.is_empty_spec(),
            other.wf() ==> (r matches Pair::Two(p1, p2) ==> p1.upper.lt_spec(p2.lower)),
    {
        proof {
            lemma_difference_values(*self, *other);
        }
        if other.lower.le_bound(&self.upper) && !other.upper.le_bound(&self.lower) {
            Pair::new_from_two(
                Self::from_bounds(self.lower, other.lower),
                Self::from_bounds(other.upper, self.upper),
            )
        } else {
            Pair::One(*self)
        }
    }

    /// The exact value of `symmetric_difference`: the four cuts are
    /// ordered, and the two outer pieces are kept.
    pub open spec fn spec_symmetric_difference(self, other: Self) -> Pair<T> {
        if self.is_empty_spec() || other.is_empty_spec() {
            Pair::spec_new_from_two(self, other)
        } else {
            let min_l = min_bound_spec(self.lower, other.lower);
            let max_l = max_bound_spec(self.lower, other.lower);
            let min_u = min_bound_spec(self.upper, other.upper);
            let max_u = max_bound_spec(self.upper, other.upper);
            let v1 = if max_l.le_spec(min_u) {
                max_l
            } else {
                min_u
            };
            let v2 = if max_l.le_spec(min_u) {
                min_u
            } else {
                max_l
            };
            Pair::spec_new_from_two(
                Self::spec_from_bounds(min_l, v1),
                Self::spec_from_bounds(v2, max_u),
            )
        }
    }

    /// Returns the values held by exactly one of the two intervals.
    pub fn symmetric_difference(&self, other: &Self) -> (r: Pair<T>)
        ensures
            r == self.spec_symmetric_difference(*other),
            forall|v: T|
                r.pair_contains(v) == (self.contains_spec(v) != other.contains_spec(v)),
            self.wf() && other.wf() ==> r.spec_pair_equivalent(
                other.spec_symmetric_difference(*self),
            ),
    {
        proof {
            lemma_symmetric_difference_values(*self, *other);
            if self.wf() && other.wf() {
                lemma_symmetric_difference_symmetric(*self, *other);
            }
        }
        if self.is_empty() || other.is_empty() {
            return Pair::new_from_two(*self, *other);
        }
        let min_l = if self.lower.le_bound(&other.lower) {
            self.lower
        } else {
            other.lower
        };
        let max_l = if self.lower.le_bound(&other.lower) {
            other.lower
        } else {
            self.lower
        };
        let min_u = if self.upper.le_bound(&other.upper) {
            self.upper
        } else {
            other.upper
        };
        let max_u = if self.upper.le_bound(&other.upper) {
            other.upper
        } else {
            self.upper
        };
        if max_l.le_bound(&min_u) {
            Pair::new_from_two(Self::from_bounds(min_l, max_l), Self::from_bounds(min_u, max_u))
        } else {
            Pair::new_from_two(Self::from_bounds(min_l, min_u), Self::from_bounds(max_l, max_u))
        }
    }
}

impl<T: NothingBetween> PartialEq for Interval<T> {
    /// Two intervals are equal when they stand for the same set of
    /// values, whatever bound pairs encode them.
    fn eq(&self, other: &Self) -> (r: bool) {
        self.equivalent(other)
    }
}

impl<T: NothingBetween> vstd::std_specs::cmp::PartialEqSpecImpl for Interval<T> {
    open spec fn obeys_eq_spec() -> bool {
        true
    }

    open spec fn eq_spec(&self, other: &Self) -> bool {
        self.spec_equivalent(*other)
    }
}

impl<T: NothingBetween> Eq for Interval<T> {

}

impl<T: NothingBetween> Interval<T> {
    /// The order used for sorting intervals: by the lower cuts, and by
    /// the upper cuts on a tie.
    pub open spec fn spec_cmp(self, other: Self) -> core::cmp::Ordering {
        if self.lower.lt_spec(other.lower) {
            core::cmp::Ordering::Less
        } else if other.lower.lt_spec(self.lower) {
            core::cmp::Ordering::Greater
        } else if self.upper.lt_spec(other.upper) {
            core::cmp::Ordering::Less
        } else if other.upper.lt_spec(self.upper) {
            core::cmp::Ordering::Greater
        } else {
            core::cmp::Ordering::Equal
        }
    }

    /// Three-way comparison: by the lower cuts, and by the upper cuts
    /// on a tie.  It orders intervals for sorting and has no further
    /// geometrical meaning; the canonical empty interval sorts after
    /// every non-empty one.
    pub fn cmp_interval(&self, other: &Self) -> (r: core::cmp::Ordering)
        ensures
            r == self.spec_cmp(*other),
    {
        if !other.lower.le_bound(&self.lower) {
            core::cmp::Ordering::Less
        } else if !self.lower.le_bound(&other.lower) {
            core::cmp::Ordering::Greater
        } else if !other.upper.le_bound(&self.upper) {
            core::cmp::Ordering::Less
        } else if !self.upper.le_bound(&other.upper) {
            core::cmp::Ordering::Greater
        } else {
            core::cmp::Ordering::Equal
        }
    }
}

impl<T: NothingBetween> PartialOrd for Interval<T> {
    /// Compares by the lower cuts, then by the upper cuts on a tie.
    fn partial_cmp(&self, other: &Self) -> (r: Option<core::cmp::Ordering>) {
        Some(self.cmp_interval(other))
    }
}

impl<T: NothingBetween> vstd::std_specs::cmp::PartialOrdSpecImpl for Interval<T> {
    open spec fn obeys_partial_cmp_spec() -> bool {
        true
    }

    open spec fn partial_cmp_spec(&self, other: &Self) -> Option<core::cmp::Ordering> {
        Some(self.spec_cmp(*other))
    }
}

impl<T: NothingBetween> From<core::ops::Range<T>> for Interval<T> {
    /// The left-closed, right-open interval of a range.
    fn from(value: core::ops::Range<T>) -> (r: Self) {
        Self::new_closed_open(value.start, value.end)
    }
}

impl<T: NothingBetween> vstd::std_specs::convert::FromSpecImpl<core::ops::Range<T>> for Interval<T> {
    open spec fn obeys_from_spec() -> bool {
        true
    }

    open spec fn from_spec(v: core::ops::Range<T>) -> Self {
        Self::spec_new_closed_open(v.start, v.end)
    }
}

/// Declares `core::ops::RangeTo` so intervals can be built from it;
/// its one public field is read directly.
#[verifier::external_type_specification]
#[verifier::reject_recursive_types(Idx)]
pub struct ExRangeTo<Idx>(core::ops::RangeTo<Idx>);

/// Declares `core::ops::RangeToInclusive`; its one public field is
/// read directly.
#[verifier::external_type_specification]
#[verifier::reject_recursive_types(Idx)]
pub struct ExRangeToInclusive<Idx>(core::ops::RangeToInclusive<Idx>);

/// Declares `core::ops::RangeFrom`; its one public field is read
/// directly.
#[verifier::external_type_specification]
#[verifier::reject_recursive_types(Idx)]
pub struct ExRangeFrom<Idx>(core::ops::RangeFrom<Idx>);

/// Declares `core::ops::RangeFull`, the unit full-range marker.
#[verifier::external_type_specification]
pub struct ExRangeFull(core::ops::RangeFull);

impl<T: NothingBetween + Bounded> From<core::ops::RangeTo<T>> for Interval<T> {
    /// The left-unbounded, right-open interval of a range.
    fn from(value: core::ops::RangeTo<T>) -> (r: Self) {
        Self::new_unbounded_open(value.end)
    }
}

impl<T: NothingBetween + Bounded> vstd::std_specs::convert::FromSpecImpl<core::ops::RangeTo<T>> for Interval<T> {
    open spec fn obeys_from_spec() -> bool {
        true
    }

    open spec fn from_spec(v: core::ops::RangeTo<T>) -> Self {
        Self::spec_new_unbounded_open(v.end)
    }
}

impl<T: NothingBetween + Bounded> From<core::ops::RangeToInclusive<T>> for Interval<T> {
    /// The left-unbounded, right-closed interval of a range.
    fn from(value: core::ops::RangeToInclusive<T>) -> (r: Self) {
        Self::new_unbounded_closed(value.end)
    }
}

impl<T: NothingBetween + Bounded> vstd::std_specs::convert::FromSpecImpl<core::ops::RangeToInclusive<T>> for Interval<T> {
    open spec fn obeys_from_spec() -> bool {
        true
    }

    open spec fn from_spec(v: core::ops::RangeToInclusive<T>) -> Self {
        Self::spec_new_unbounded_closed(v.end)
    }
}

impl<T: NothingBetween + Bounded> From<core::ops::RangeFrom<T>> for Interval<T> {
    /// The left-closed, right-unbounded interval of a range.
    fn from(value: core::ops::RangeFrom<T>) -> (r: Self) {
        Self::new_closed_unbounded(value.start)
    }
}

impl<T: NothingBetween + Bounded> vstd::std_specs::convert::FromSpecImpl<core::ops::RangeFrom<T>> for Interval<T> {
    open spec fn obeys_from_spec() -> bool {
        true
    }

    open spec fn from_spec(v: core::ops::RangeFrom<T>) -> Self {
        Self::spec_new_closed_unbounded(v.start)
    }
}

impl<T: NothingBetween> From<core::ops::RangeFull> for Interval<T> {
    /// The doubly unbounded interval.
    fn from(value: core::ops::RangeFull) -> (r: Self) {
        Self::doubly_unbounded()
    }
}

impl<T: NothingBetween> vstd::std_specs::convert::FromSpecImpl<core::ops::RangeFull> for Interval<T> {
    open spec fn obeys_from_spec() -> bool {
        true
    }

    open spec fn from_spec(v: core::ops::RangeFull) -> Self {
        Interval { lower: Bound::LeftUnbounded, upper: Bound::RightUnbounded }
    }
}

impl<T: NothingBetween> Default for Interval<T> {
    /// The empty interval.
    fn default() -> (r: Self)
        ensures
            r == Self::spec_empty(),
    {
        Self::empty()
    }
}

/// Over the integers, a right-open interval collapses onto the
/// right-closed interval that stops one short: `[a,b) == [a,b-1]`.
pub proof fn lemma_closed_open_collapses(a: i64, b: i64)
    requires
        a < b,
    ensures
        Interval::<i64>::spec_new_closed_open(a, b).spec_equivalent(
            Interval::<i64>::spec_new_closed_closed(a, (b - 1) as i64),
        ),
{
}

/// Over the integers, a left-open interval collapses onto the
/// left-closed interval that starts one later: `(a,b] == [a+1,b]`.
pub proof fn lemma_open_closed_collapses(a: i64, b: i64)
    requires
        a < b,
    ensures
        Interval::<i64>::spec_new_open_closed(a, b).spec_equivalent(
            Interval::<i64>::spec_new_closed_closed((a + 1) as i64, b),
        ),
{
}

/// Removing a contained interval and joining the pieces back with it
/// rebuilds the containing interval: the convex hull of the difference
/// pieces and the removed interval has the containing interval's cuts,
/// and their values are exactly its values.
pub proof fn lemma_difference_union_round_trip<T: NothingBetween>(a: Interval<T>, b: Interval<T>)
    requires
        !a.is_empty_spec(),
        !b.is_empty_spec(),
        a.spec_contains_interval(b),
    ensures
        forall|v: T|
            (a.spec_difference(b).pair_contains(v) || b.contains_spec(v)) == a.contains_spec(v),
        match a.spec_difference(b) {
            Pair::One(p) => p.spec_convex_hull(b).spec_equivalent(a),
            Pair::Two(p1, p2) => p1.spec_convex_hull(b).spec_convex_hull(p2).spec_equivalent(a),
        },
{
    lemma_difference_values(a, b);
    lemma_contains_interval_subset(a, b);
    lemma_le_total(a.lower, b.lower);
    lemma_le_total(a.upper, b.upper);
    lemma_le_total(a.lower, a.upper);
    lemma_le_total(b.lower, b.upper);
    lemma_le_total(a.lower, a.lower);
    lemma_le_total(b.lower, b.lower);
    lemma_le_total(a.upper, a.upper);
    lemma_le_total(b.upper, b.upper);
    // The two spans meet, since b sits inside the non-empty a.
    lemma_le_trans(b.lower, b.upper, a.upper);
    if b.upper.le_spec(a.lower) {
        lemma_le_trans(b.upper, a.lower, b.lower);
    }
    lemma_le_trans(a.lower, b.lower, b.upper);
    let p1 = Interval::<T>::spec_from_bounds(a.lower, b.lower);
    let p2 = Interval::<T>::spec_from_bounds(b.upper, a.upper);
    // Cut-level reconstruction, piece by piece.
    if p1.is_empty_spec() && p2.is_empty_spec() {
        // Both pieces vanish: b's cuts sit on a's, and the hull of the
        // canonical empty pair with b is b itself.
    } else if p1.is_empty_spec() {
        // The left piece vanishes: the lower cuts agree, and the hull
        // of the right piece with b spans from b's lower cut to a's
        // upper cut.
        lemma_from_bounds_congruence(
            b.lower,
            a.lower,
            max_bound_spec(Interval::<T>::spec_from_bounds(b.upper, a.upper).upper, b.upper),
            a.upper,
        );
    } else if p2.is_empty_spec() {
        // The right piece vanishes: the upper cuts agree.
        lemma_from_bounds_congruence(
            a.lower,
            a.lower,
            max_bound_spec(Interval::<T>::spec_from_bounds(a.lower, b.lower).upper, b.upper),
            a.upper,
        );
    } else {
        // Both pieces stand: the hull of the left piece with b runs
        // from a's lower cut to b's upper cut, and adding the right
        // piece extends it to a's upper cut.
    }
}

/// Membership in a normalized interval reads off its construction
/// cuts, whether or not normalization collapsed it.
pub proof fn lemma_from_bounds_contains<T: NothingBetween>(x: Bound<T>, y: Bound<T>, v: T)
    ensures
        Interval::<T>::spec_from_bounds(x, y).contains_spec(v) == (x.in_right(v) && !y.in_right(
            v,
        )),
{
    if !x.lt_spec(y) {
        if x.in_right(v) && !y.in_right(v) {
            lemma_value_between_cuts(x, y, v);
        }
    }
}

/// Normalization maps equivalent cut pairs to equivalent intervals.
pub proof fn lemma_from_bounds_congruence<T: NothingBetween>(
    x: Bound<T>,
    x2: Bound<T>,
    y: Bound<T>,
    y2: Bound<T>,
)
    requires
        x.eq_spec(x2),
        y.eq_spec(y2),
    ensures
        Interval::<T>::spec_from_bounds(x, y).spec_equivalent(
            Interval::<T>::spec_from_bounds(x2, y2),
        ),
        Interval::<T>::spec_from_bounds(x, y).is_empty_spec()
            == Interval::<T>::spec_from_bounds(x2, y2).is_empty_spec(),
{
    lemma_le_congruence(y, y2, x, x2);
}

/// The difference holds exactly the values of the left input that the
/// right input does not hold.
pub proof fn lemma_difference_values<T: NothingBetween>(a: Interval<T>, b: Interval<T>)
    ensures
        forall|v: T|
            a.spec_difference(b).pair_contains(v) == (a.contains_spec(v) && !b.contains_spec(v)),
{
    if b.lower.le_spec(a.upper) && !b.upper.le_spec(a.lower) {
        assert forall|v: T|
            a.spec_difference(b).pair_contains(v) == (a.contains_spec(v) && !b.contains_spec(
            v,
        )) by {
            lemma_from_bounds_contains(a.lower, b.lower, v);
            lemma_from_bounds_contains(b.upper, a.upper, v);
            lemma_le_total(a.lower, b.upper);
            if a.upper.in_right(v) {
                lemma_in_right_monotone(b.lower, a.upper, v);
            }
            if b.upper.in_right(v) {
                lemma_in_right_monotone(a.lower, b.upper, v);
            }
        }
    } else {
        // The two spans do not meet: nothing of b lies inside a.
        assert forall|v: T|
            a.spec_difference(b).pair_contains(v) == (a.contains_spec(v) && !b.contains_spec(
            v,
        )) by {
            if !b.lower.le_spec(a.upper) {
                lemma_le_total(b.lower, a.upper);
                if b.lower.in_right(v) {
                    lemma_in_right_monotone(a.upper, b.lower, v);
                }
            } else {
                if a.lower.in_right(v) {
                    lemma_in_right_monotone(b.upper, a.lower, v);
                }
            }
        }
    }
}

/// The symmetric difference holds exactly the values held by one input
/// and not the other.
pub proof fn lemma_symmetric_difference_values<T: NothingBetween>(a: Interval<T>, b: Interval<T>)
    ensures
        forall|v: T|
            a.spec_symmetric_difference(b).pair_contains(v) == (a.contains_spec(v)
                != b.contains_spec(v)),
{
    if a.is_empty_spec() || b.is_empty_spec() {
        if a.is_empty_spec() {
            lemma_empty_holds_nothing(a);
        }
        if b.is_empty_spec() {
            lemma_empty_holds_nothing(b);
        }
    } else {
        assert forall|v: T|
            a.spec_symmetric_difference(b).pair_contains(v) == (a.contains_spec(v)
                != b.contains_spec(v)) by {
            lemma_le_total(a.lower, b.lower);
            lemma_le_total(a.upper, b.upper);
            lemma_le_total(a.lower, a.upper);
            lemma_le_total(b.lower, b.upper);
            lemma_le_total(a.lower, b.upper);
            lemma_le_total(b.lower, a.upper);
            let min_l = min_bound_spec(a.lower, b.lower);
            let max_l = max_bound_spec(a.lower, b.lower);
            let min_u = min_bound_spec(a.upper, b.upper);
            let max_u = max_bound_spec(a.upper, b.upper);
            let v1 = if max_l.le_spec(min_u) {
                max_l
            } else {
                min_u
            };
            let v2 = if max_l.le_spec(min_u) {
                min_u
            } else {
                max_l
            };
            lemma_from_bounds_contains(min_l, v1, v);
            lemma_from_bounds_contains(v2, max_u, v);
            // Order the four cuts against the value from every side.
            if a.lower.le_spec(b.lower) && b.lower.in_right(v) {
                lemma_in_right_monotone(a.lower, b.lower, v);
            }
            if b.lower.le_spec(a.lower) && a.lower.in_right(v) {
                lemma_in_right_monotone(b.lower, a.lower, v);
            }
            if a.upper.le_spec(b.upper) && b.upper.in_right(v) {
                lemma_in_right_monotone(a.upper, b.upper, v);
            }
            if b.upper.le_spec(a.upper) && a.upper.in_right(v) {
                lemma_in_right_monotone(b.upper, a.upper, v);
            }
            if a.lower.le_spec(a.upper) && a.upper.in_right(v) {
                lemma_in_right_monotone(a.lower, a.upper, v);
            }
            if b.lower.le_spec(b.upper) && b.upper.in_right(v) {
                lemma_in_right_monotone(b.lower, b.upper, v);
            }
            if a.lower.le_spec(b.upper) && b.upper.in_right(v) {
                lemma_in_right_monotone(a.lower, b.upper, v);
            }
            if b.upper.le_spec(a.lower) && a.lower.in_right(v) {
                lemma_in_right_monotone(b.upper, a.lower, v);
            }
            if b.lower.le_spec(a.upper) && a.upper.in_right(v) {
                lemma_in_right_monotone(b.lower, a.upper, v);
            }
            if a.upper.le_spec(b.lower) && b.lower.in_right(v) {
                lemma_in_right_monotone(a.upper, b.lower, v);
            }
        }
    }
}

/// The symmetric difference does not depend on the order of its
/// arguments: both orders give equivalent pairs.
pub proof fn lemma_symmetric_difference_symmetric<T: NothingBetween>(
    a: Interval<T>,
    b: Interval<T>,
)
    requires
        a.wf(),
        b.wf(),
    ensures
        a.spec_symmetric_difference(b).spec_pair_equivalent(b.spec_symmetric_difference(a)),
{
    lemma_le_total(a.lower, b.lower);
    lemma_le_total(a.upper, b.upper);
    lemma_le_total(a.lower, a.lower);
    lemma_le_total(b.lower, b.lower);
    lemma_le_total(a.upper, a.upper);
    lemma_le_total(b.upper, b.upper);
    if a.is_empty_spec() || b.is_empty_spec() {
        // Well-formed empty intervals are the canonical pair, so both
        // orders collapse to `One` of the same interval.
    } else {
        let min_l = min_bound_spec(a.lower, b.lower);
        let max_l = max_bound_spec(a.lower, b.lower);
        let min_u = min_bound_spec(a.upper, b.upper);
        let max_u = max_bound_spec(a.upper, b.upper);
        let min_l2 = min_bound_spec(b.lower, a.lower);
        let max_l2 = max_bound_spec(b.lower, a.lower);
        let min_u2 = min_bound_spec(b.upper, a.upper);
        let max_u2 = max_bound_spec(b.upper, a.upper);
        // Each chosen cut agrees with its mirror up to equivalence:
        // they differ only on ties.
        lemma_le_congruence(max_l, max_l2, min_u, min_u2);
        let v1 = if max_l.le_spec(min_u) {
            max_l
        } else {
            min_u
        };
        let v2 = if max_l.le_spec(min_u) {
            min_u
        } else {
            max_l
        };
        let v12 = if max_l2.le_spec(min_u2) {
            max_l2
        } else {
            min_u2
        };
        let v22 = if max_l2.le_spec(min_u2) {
            min_u2
        } else {
            max_l2
        };
        lemma_from_bounds_congruence(min_l, min_l2, v1, v12);
        lemma_from_bounds_congruence(v2, v22, max_u, max_u2);
    }
}

/// The convex hull holds every value of both inputs.
pub proof fn lemma_convex_hull_values<T: NothingBetween>(a: Interval<T>, b: Interval<T>)
    ensures
        forall|v: T|
            a.contains_spec(v) || b.contains_spec(v) ==> a.spec_convex_hull(b).contains_spec(v),
{
    let lo = min_bound_spec(a.lower, b.lower);
    let up = max_bound_spec(a.upper, b.upper);
    assert forall|v: T|
        a.contains_spec(v) || b.contains_spec(v) implies a.spec_convex_hull(b).contains_spec(
        v,
    ) by {
        lemma_le_total(a.lower, b.lower);
        lemma_le_total(a.upper, b.upper);
        lemma_le_total(a.lower, a.lower);
        lemma_le_total(b.lower, b.lower);
        lemma_le_total(a.upper, a.upper);
        lemma_le_total(b.upper, b.upper);
        if a.contains_spec(v) {
            lemma_in_right_monotone(lo, a.lower, v);
            if up.in_right(v) {
                lemma_in_right_monotone(a.upper, up, v);
            }
        } else {
            lemma_in_right_monotone(lo, b.lower, v);
            if up.in_right(v) {
                lemma_in_right_monotone(b.upper, up, v);
            }
        }
        crate::bounds::lemma_value_between_cuts(lo, up, v);
    }
}

/// The intersection holds exactly the values held by both inputs.
pub proof fn lemma_intersection_values<T: NothingBetween>(a: Interval<T>, b: Interval<T>)
    ensures
        forall|v: T|
            a.spec_intersection(b).contains_spec(v) == (a.contains_spec(v) && b.contains_spec(v)),
{
    let lo = max_bound_spec(a.lower, b.lower);
    let up = min_bound_spec(a.upper, b.upper);
    assert forall|v: T|
        a.spec_intersection(b).contains_spec(v) == (a.contains_spec(v) && b.contains_spec(
        v,
    )) by {
        lemma_le_total(a.lower, b.lower);
        lemma_le_total(a.upper, b.upper);
        lemma_le_total(a.lower, a.lower);
        lemma_le_total(b.lower, b.lower);
        lemma_le_total(a.upper, a.upper);
        lemma_le_total(b.upper, b.upper);
        if lo.in_right(v) {
            lemma_in_right_monotone(a.lower, lo, v);
            lemma_in_right_monotone(b.lower, lo, v);
        }
        if a.upper.in_right(v) {
            lemma_in_right_monotone(up, a.upper, v);
        }
        if b.upper.in_right(v) {
            lemma_in_right_monotone(up, b.upper, v);
        }
        if a.contains_spec(v) && b.contains_spec(v) {
            crate::bounds::lemma_value_between_cuts(lo, up, v);
        }
    }
}

/// Two intervals built by the constructors intersect exactly when
/// their intersection is non-empty.
pub proof fn lemma_intersects_iff_intersection_nonempty<T: NothingBetween>(
    a: Interval<T>,
    b: Interval<T>,
)
    requires
        a.wf(),
        b.wf(),
    ensures
        a.spec_intersects(b) == !a.spec_intersection(b).is_empty_spec(),
{
    let lo = max_bound_spec(a.lower, b.lower);
    let up = min_bound_spec(a.upper, b.upper);
    lemma_le_total(a.lower, b.lower);
    lemma_le_total(a.upper, b.upper);
    lemma_le_total(a.lower, a.lower);
    lemma_le_total(b.lower, b.lower);
    lemma_le_total(a.upper, a.upper);
    lemma_le_total(b.upper, b.upper);
    if a.spec_intersects(b) {
        // Intersecting intervals are non-empty, so every lower cut is
        // strictly left of every upper cut, the chosen ones included.
        assert(a.lower.lt_spec(a.upper));
        assert(b.lower.lt_spec(b.upper));
    } else {
        // One lower cut is at or right of the other interval's upper
        // cut, which squeezes the chosen pair together.
        if a.upper.le_spec(b.lower) {
            lemma_le_trans(up, a.upper, b.lower);
            lemma_le_trans(up, b.lower, lo);
        } else {
            lemma_le_trans(up, b.upper, a.lower);
            lemma_le_trans(up, a.lower, lo);
        }
    }
}

/// The gap between two intervals meets neither of them.
pub proof fn lemma_between_values<T: NothingBetween>(a: Interval<T>, b: Interval<T>)
    ensures
        forall|v: T|
            a.spec_between(b).contains_spec(v) ==> !a.contains_spec(v) && !b.contains_spec(v),
{
    if a.is_empty_spec() || b.is_empty_spec() {
        lemma_empty_holds_nothing(Interval::<T>::spec_empty());
    } else {
        let lo = min_bound_spec(a.upper, b.upper);
        let up = max_bound_spec(a.lower, b.lower);
        assert forall|v: T|
            a.spec_between(b).contains_spec(v) implies !a.contains_spec(v) && !b.contains_spec(
            v,
        ) by {
            lemma_le_total(a.upper, b.upper);
            lemma_le_total(a.lower, b.lower);
            // v is right of the least upper cut and left of the
            // greatest lower cut; the cut pair of one input cannot
            // enclose v, or that input would be empty.
            crate::bounds::lemma_value_between_cuts(lo, up, v);
            if a.upper.le_spec(b.upper) {
                // The gap's lower cut is a's upper cut: v is outside a.
                assert(!a.contains_spec(v));
                if b.lower.le_spec(a.lower) {
                    // Then the gap sits between a's cuts: a were empty.
                    lemma_le_total(a.lower, a.lower);
                    lemma_le_total(a.lower, a.upper);
                    lemma_le_trans(up, a.lower, a.upper);
                    assert(false);
                }
            } else {
                assert(!b.contains_spec(v));
                if a.lower.le_spec(b.lower) {
                    lemma_le_total(b.lower, b.lower);
                    lemma_le_total(b.lower, b.upper);
                    lemma_le_trans(up, b.lower, b.upper);
                    assert(false);
                }
            }
        }
    }
}

/// The union of two contiguous intervals is exactly their convex hull.
pub proof fn lemma_union_exact<T: NothingBetween>(a: Interval<T>, b: Interval<T>)
    requires
        a.spec_contiguous(b),
        a.wf(),
        b.wf(),
    ensures
        forall|v: T|
            a.spec_convex_hull(b).contains_spec(v) == (a.contains_spec(v) || b.contains_spec(v)),
{
    lemma_convex_hull_values(a, b);
    let lo = min_bound_spec(a.lower, b.lower);
    let up = max_bound_spec(a.upper, b.upper);
    assert forall|v: T|
        a.spec_convex_hull(b).contains_spec(v) implies (a.contains_spec(v) || b.contains_spec(
        v,
    )) by {
        lemma_le_total(a.lower, b.lower);
        lemma_le_total(a.upper, b.upper);
        if a.is_empty_spec() {
            // a is the canonical empty pair, so the hull is b or empty.
            lemma_empty_holds_nothing(a);
        } else if b.is_empty_spec() {
            lemma_empty_holds_nothing(b);
        } else {
            // Both non-empty: the hull's lower cut is one input's; if v
            // passes that input's upper cut, contiguity hands v to the
            // other input.
            if a.lower.le_spec(b.lower) {
                if a.upper.in_right(v) {
                    lemma_in_right_monotone(b.lower, a.upper, v);
                    if b.upper.in_right(v) {
                        lemma_in_right_monotone(up, b.upper, v);
                    }
                }
            } else {
                if b.upper.in_right(v) {
                    lemma_in_right_monotone(a.lower, b.upper, v);
                    if a.upper.in_right(v) {
                        lemma_in_right_monotone(up, a.upper, v);
                    }
                }
            }
        }
    }
}

/// An empty interval holds no value at all.
pub proof fn lemma_empty_holds_nothing<T: NothingBetween>(i: Interval<T>)
    requires
        i.is_empty_spec(),
    ensures
        forall|v: T| !i.contains_spec(v),
{
    assert forall|v: T| !i.contains_spec(v) by {
        if i.lower.in_right(v) {
            lemma_in_right_monotone(i.upper, i.lower, v);
        }
    }
}

/// Equivalent intervals hold exactly the same values.
pub proof fn lemma_equivalent_same_values<T: NothingBetween>(a: Interval<T>, b: Interval<T>)
    requires
        a.spec_equivalent(b),
    ensures
        forall|v: T| a.contains_spec(v) == b.contains_spec(v),
{
    assert forall|v: T| a.contains_spec(v) == b.contains_spec(v) by {
        if a.lower.in_right(v) {
            lemma_in_right_monotone(b.lower, a.lower, v);
        }
        if b.lower.in_right(v) {
            lemma_in_right_monotone(a.lower, b.lower, v);
        }
        if a.upper.in_right(v) {
            lemma_in_right_monotone(b.upper, a.upper, v);
        }
        if b.upper.in_right(v) {
            lemma_in_right_monotone(a.upper, b.upper, v);
        }
    }
}

/// Containment of intervals gives containment of their values.
pub proof fn lemma_contains_interval_subset<T: NothingBetween>(a: Interval<T>, b: Interval<T>)
    requires
        a.spec_contains_interval(b),
    ensures
        forall|v: T| b.contains_spec(v) ==> a.contains_spec(v),
{
    assert forall|v: T| b.contains_spec(v) implies a.contains_spec(v) by {
        lemma_in_right_monotone(a.lower, b.lower, v);
        if a.upper.in_right(v) {
            lemma_in_right_monotone(b.upper, a.upper, v);
        }
    }
}

/// Containment of intervals is reflexive: every interval contains
/// itself, the empty ones included.
pub proof fn lemma_contains_interval_refl<T: NothingBetween>(x: Interval<T>)
    ensures
        x.spec_contains_interval(x),
{
    lemma_le_total(x.lower, x.lower);
    lemma_le_total(x.upper, x.upper);
}

/// Containment of intervals is transitive.
pub proof fn lemma_contains_interval_trans<T: NothingBetween>(
    a: Interval<T>,
    b: Interval<T>,
    c: Interval<T>,
)
    requires
        a.spec_contains_interval(b),
        b.spec_contains_interval(c),
    ensures
        a.spec_contains_interval(c),
{
    lemma_le_trans(a.lower, b.lower, c.lower);
    lemma_le_trans(c.upper, b.upper, a.upper);
}

} // verus!
