//! Intervals over an ordered domain, with the full algebra of set
//! operations (containment, intersection, union, difference, symmetric
//! difference, convex hull, adjacency), and a sorted collection of
//! disjoint intervals maintained under a pluggable merge policy.
//!
//! A bound of an interval is one of four kinds: unbounded on either
//! side, or a cut immediately left or immediately right of a domain
//! value.  Two bounds around distinct values may still denote the same
//! cut when the domain holds nothing between the values; the
//! [`NothingBetween`] trait supplies that judgement, and the whole
//! algebra is proved against it.

mod bounds;
mod dates;
mod intervals;
mod iterator;
mod multi;
mod multi_joining;
mod multi_separating;
mod nothing_between;
mod pairs;
mod repr;
mod step;
mod text;

pub use crate::bounds::Bound;
pub use crate::dates::{Date, Timestamp};
pub use crate::intervals::Interval;
pub use crate::iterator::IntervalIterator;
pub use crate::multi::{IntervalSet, Policy};
pub use crate::multi_joining::Joining;
pub use crate::multi_separating::Separating;
pub use crate::nothing_between::NothingBetween;
pub use crate::pairs::Pair;
pub use crate::repr::IntervalRepr;
pub use crate::step::{Bounded, Step};
pub use crate::text::{ParseError, ValueError, ValueText};
