use crate::nothing_between::NothingBetween;
use vstd::prelude::*;

verus! {

/// A domain with least and greatest representable values.
pub trait Bounded: NothingBetween {
    /// The least value of the domain.
    spec fn min_spec() -> Self;

    /// The greatest value of the domain.
    spec fn max_spec() -> Self;

    /// The stated values really are the least and the greatest.
    proof fn lemma_min_max()
        ensures
            forall|v: Self| !(#[trigger] v.lt_spec(&Self::min_spec())),
            forall|v: Self| !(#[trigger] Self::max_spec().lt_spec(&v)),
    ;

    /// Returns the least value of the domain.
    fn min_value() -> (r: Self)
        ensures
            r == Self::min_spec(),
    ;

    /// Returns the greatest value of the domain.
    fn max_value() -> (r: Self)
        ensures
            r == Self::max_spec(),
    ;
}

impl Bounded for u8 {
    open spec fn min_spec() -> Self {
        u8::MIN
    }

    open spec fn max_spec() -> Self {
        u8::MAX
    }

    proof fn lemma_min_max() {
    }

    fn min_value() -> (r: Self) {
        u8::MIN
    }

    fn max_value() -> (r: Self) {
        u8::MAX
    }
}

impl Bounded for u16 {
    open spec fn min_spec() -> Self {
        u16::MIN
    }

    open spec fn max_spec() -> Self {
        u16::MAX
    }

    proof fn lemma_min_max() {
    }

    fn min_value() -> (r: Self) {
        u16::MIN
    }

    fn max_value() -> (r: Self) {
        u16::MAX
    }
}

impl Bounded for u32 {
    open spec fn min_spec() -> Self {
        u32::MIN
    }

    open spec fn max_spec() -> Self {
        u32::MAX
    }

    proof fn lemma_min_max() {
    }

    fn min_value() -> (r: Self) {
        u32::MIN
    }

    fn max_value() -> (r: Self) {
        u32::MAX
    }
}

impl Bounded for u64 {
    open spec fn min_spec() -> Self {
        u64::MIN
    }

    open spec fn max_spec() -> Self {
        u64::MAX
    }

    proof fn lemma_min_max() {
    }

    fn min_value() -> (r: Self) {
        u64::MIN
    }

    fn max_value() -> (r: Self) {
        u64::MAX
    }
}

impl Bounded for u128 {
    open spec fn min_spec() -> Self {
        u128::MIN
    }

    open spec fn max_spec() -> Self {
        u128::MAX
    }

    proof fn lemma_min_max() {
    }

    fn min_value() -> (r: Self) {
        u128::MIN
    }

    fn max_value() -> (r: Self) {
        u128::MAX
    }
}

impl Bounded for usize {
    open spec fn min_spec() -> Self {
        usize::MIN
    }

    open spec fn max_spec() -> Self {
        usize::MAX
    }

    proof fn lemma_min_max() {
    }

    fn min_value() -> (r: Self) {
        usize::MIN
    }

    fn max_value() -> (r: Self) {
        usize::MAX
    }
}

impl Bounded for i8 {
    open spec fn min_spec() -> Self {
        i8::MIN
    }

    open spec fn max_spec() -> Self {
        i8::MAX
    }

    proof fn lemma_min_max() {
    }

    fn min_value() -> (r: Self) {
        i8::MIN
    }

    fn max_value() -> (r: Self) {
        i8::MAX
    }
}

impl Bounded for i16 {
    open spec fn min_spec() -> Self {
        i16::MIN
    }

    open spec fn max_spec() -> Self {
        i16::MAX
    }

    proof fn lemma_min_max() {
    }

    fn min_value() -> (r: Self) {
        i16::MIN
    }

    fn max_value() -> (r: Self) {
        i16::MAX
    }
}

impl Bounded for i32 {
    open spec fn min_spec() -> Self {
        i32::MIN
    }

    open spec fn max_spec() -> Self {
        i32::MAX
    }

    proof fn lemma_min_max() {
    }

    fn min_value() -> (r: Self) {
        i32::MIN
    }

    fn max_value() -> (r: Self) {
        i32::MAX
    }
}

impl Bounded for i64 {
    open spec fn min_spec() -> Self {
        i64::MIN
    }

    open spec fn max_spec() -> Self {
        i64::MAX
    }

    proof fn lemma_min_max() {
    }

    fn min_value() -> (r: Self) {
        i64::MIN
    }

    fn max_value() -> (r: Self) {
        i64::MAX
    }
}

impl Bounded for i128 {
    open spec fn min_spec() -> Self {
        i128::MIN
    }

    open spec fn max_spec() -> Self {
        i128::MAX
    }

    proof fn lemma_min_max() {
    }

    fn min_value() -> (r: Self) {
        i128::MIN
    }

    fn max_value() -> (r: Self) {
        i128::MAX
    }
}

impl Bounded for isize {
    open spec fn min_spec() -> Self {
        isize::MIN
    }

    open spec fn max_spec() -> Self {
        isize::MAX
    }

    proof fn lemma_min_max() {
    }

    fn min_value() -> (r: Self) {
        isize::MIN
    }

    fn max_value() -> (r: Self) {
        isize::MAX
    }
}

impl Bounded for char {
    open spec fn min_spec() -> Self {
        '\0'
    }

    open spec fn max_spec() -> Self {
        '\u{10FFFF}'
    }

    proof fn lemma_min_max() {
        assert forall|v: char| !(#[trigger] '\u{10FFFF}'.lt_spec(&v)) by {
            vstd::utf8::char_is_scalar(v);
        }
    }

    fn min_value() -> (r: Self) {
        '\0'
    }

    fn max_value() -> (r: Self) {
        '\u{10FFFF}'
    }
}


/// A domain whose values sit at integer positions, with saturating
/// stepping: what the element iterator needs.  `to_int` places each
/// value on the integer line; stepping moves along it and refuses to
/// leave the domain's range.
pub trait Step: Bounded {
    /// The position of the value on the integer line.
    spec fn to_int(&self) -> int;

    /// The order and the between-judgement read positions directly,
    /// every position between the extremes is taken, and no two values
    /// share one.
    proof fn lemma_step_laws()
        ensures
            forall|a: Self, b: Self| #[trigger] a.lt_spec(&b) == (a.to_int() < b.to_int()),
            forall|a: Self, b: Self|
                #[trigger] a.nothing_between_spec(&b) == (b.to_int() - a.to_int() <= 1),
            forall|a: Self, b: Self|
                #![trigger a.to_int(), b.to_int()]
                a.to_int() == b.to_int() ==> a == b,
            forall|v: Self|
                #[trigger] v.to_int() >= Self::min_spec().to_int() && v.to_int()
                    <= Self::max_spec().to_int(),
    ;

    /// The value `step` positions to the right, or `None` past the
    /// greatest value.
    fn forward(&self, step: usize) -> (r: Option<Self>)
        ensures
            match r {
                Some(v) => v.to_int() == self.to_int() + step && self.to_int() + step
                    <= Self::max_spec().to_int(),
                None => self.to_int() + step > Self::max_spec().to_int(),
            },
    ;

    /// The value `step` positions to the left, or `None` past the
    /// least value.
    fn backward(&self, step: usize) -> (r: Option<Self>)
        ensures
            match r {
                Some(v) => v.to_int() == self.to_int() - step && self.to_int() - step
                    >= Self::min_spec().to_int(),
                None => self.to_int() - step < Self::min_spec().to_int(),
            },
    ;

    /// The number of steps from `self` up to `other`, or `None` when
    /// it is negative or does not fit the host's size type.
    fn elements_between(&self, other: &Self) -> (r: Option<usize>)
        ensures
            match r {
                Some(d) => d as int == other.to_int() - self.to_int(),
                None => other.to_int() - self.to_int() < 0 || other.to_int() - self.to_int()
                    > usize::MAX,
            },
    ;
}

impl Step for u8 {
    open spec fn to_int(&self) -> int {
        *self as int
    }

    proof fn lemma_step_laws() {
    }

    fn forward(&self, step: usize) -> (r: Option<Self>) {
        let pos = *self as i128 + step as i128;
        if pos > u8::MAX as i128 {
            None
        } else {
            Some(pos as u8)
        }
    }

    fn backward(&self, step: usize) -> (r: Option<Self>) {
        let pos = *self as i128 - step as i128;
        if pos < u8::MIN as i128 {
            None
        } else {
            Some(pos as u8)
        }
    }

    fn elements_between(&self, other: &Self) -> (r: Option<usize>) {
        let d = *other as i128 - *self as i128;
        if d < 0 || d > usize::MAX as i128 {
            None
        } else {
            Some(d as usize)
        }
    }
}

impl Step for u16 {
    open spec fn to_int(&self) -> int {
        *self as int
    }

    proof fn lemma_step_laws() {
    }

    fn forward(&self, step: usize) -> (r: Option<Self>) {
        let pos = *self as i128 + step as i128;
        if pos > u16::MAX as i128 {
            None
        } else {
            Some(pos as u16)
        }
    }

    fn backward(&self, step: usize) -> (r: Option<Self>) {
        let pos = *self as i128 - step as i128;
        if pos < u16::MIN as i128 {
            None
        } else {
            Some(pos as u16)
        }
    }

    fn elements_between(&self, other: &Self) -> (r: Option<usize>) {
        let d = *other as i128 - *self as i128;
        if d < 0 || d > usize::MAX as i128 {
            None
        } else {
            Some(d as usize)
        }
    }
}

impl Step for u32 {
    open spec fn to_int(&self) -> int {
        *self as int
    }

    proof fn lemma_step_laws() {
    }

    fn forward(&self, step: usize) -> (r: Option<Self>) {
        let pos = *self as i128 + step as i128;
        if pos > u32::MAX as i128 {
            None
        } else {
            Some(pos as u32)
        }
    }

    fn backward(&self, step: usize) -> (r: Option<Self>) {
        let pos = *self as i128 - step as i128;
        if pos < u32::MIN as i128 {
            None
        } else {
            Some(pos as u32)
        }
    }

    fn elements_between(&self, other: &Self) -> (r: Option<usize>) {
        let d = *other as i128 - *self as i128;
        if d < 0 || d > usize::MAX as i128 {
            None
        } else {
            Some(d as usize)
        }
    }
}

impl Step for u64 {
    open spec fn to_int(&self) -> int {
        *self as int
    }

    proof fn lemma_step_laws() {
    }

    fn forward(&self, step: usize) -> (r: Option<Self>) {
        let pos = *self as i128 + step as i128;
        if pos > u64::MAX as i128 {
            None
        } else {
            Some(pos as u64)
        }
    }

    fn backward(&self, step: usize) -> (r: Option<Self>) {
        let pos = *self as i128 - step as i128;
        if pos < u64::MIN as i128 {
            None
        } else {
            Some(pos as u64)
        }
    }

    fn elements_between(&self, other: &Self) -> (r: Option<usize>) {
        let d = *other as i128 - *self as i128;
        if d < 0 || d > usize::MAX as i128 {
            None
        } else {
            Some(d as usize)
        }
    }
}

impl Step for usize {
    open spec fn to_int(&self) -> int {
        *self as int
    }

    proof fn lemma_step_laws() {
    }

    fn forward(&self, step: usize) -> (r: Option<Self>) {
        let pos = *self as i128 + step as i128;
        if pos > usize::MAX as i128 {
            None
        } else {
            Some(pos as usize)
        }
    }

    fn backward(&self, step: usize) -> (r: Option<Self>) {
        let pos = *self as i128 - step as i128;
        if pos < usize::MIN as i128 {
            None
        } else {
            Some(pos as usize)
        }
    }

    fn elements_between(&self, other: &Self) -> (r: Option<usize>) {
        let d = *other as i128 - *self as i128;
        if d < 0 || d > usize::MAX as i128 {
            None
        } else {
            Some(d as usize)
        }
    }
}

impl Step for i8 {
    open spec fn to_int(&self) -> int {
        *self as int
    }

    proof fn lemma_step_laws() {
    }

    fn forward(&self, step: usize) -> (r: Option<Self>) {
        let pos = *self as i128 + step as i128;
        if pos > i8::MAX as i128 {
            None
        } else {
            Some(pos as i8)
        }
    }

    fn backward(&self, step: usize) -> (r: Option<Self>) {
        let pos = *self as i128 - step as i128;
        if pos < i8::MIN as i128 {
            None
        } else {
            Some(pos as i8)
        }
    }

    fn elements_between(&self, other: &Self) -> (r: Option<usize>) {
        let d = *other as i128 - *self as i128;
        if d < 0 || d > usize::MAX as i128 {
            None
        } else {
            Some(d as usize)
        }
    }
}

impl Step for i16 {
    open spec fn to_int(&self) -> int {
        *self as int
    }

    proof fn lemma_step_laws() {
    }

    fn forward(&self, step: usize) -> (r: Option<Self>) {
        let pos = *self as i128 + step as i128;
        if pos > i16::MAX as i128 {
            None
        } else {
            Some(pos as i16)
        }
    }

    fn backward(&self, step: usize) -> (r: Option<Self>) {
        let pos = *self as i128 - step as i128;
        if pos < i16::MIN as i128 {
            None
        } else {
            Some(pos as i16)
        }
    }

    fn elements_between(&self, other: &Self) -> (r: Option<usize>) {
        let d = *other as i128 - *self as i128;
        if d < 0 || d > usize::MAX as i128 {
            None
        } else {
            Some(d as usize)
        }
    }
}

impl Step for i32 {
    open spec fn to_int(&self) -> int {
        *self as int
    }

    proof fn lemma_step_laws() {
    }

    fn forward(&self, step: usize) -> (r: Option<Self>) {
        let pos = *self as i128 + step as i128;
        if pos > i32::MAX as i128 {
            None
        } else {
            Some(pos as i32)
        }
    }

    fn backward(&self, step: usize) -> (r: Option<Self>) {
        let pos = *self as i128 - step as i128;
        if pos < i32::MIN as i128 {
            None
        } else {
            Some(pos as i32)
        }
    }

    fn elements_between(&self, other: &Self) -> (r: Option<usize>) {
        let d = *other as i128 - *self as i128;
        if d < 0 || d > usize::MAX as i128 {
            None
        } else {
            Some(d as usize)
        }
    }
}

impl Step for i64 {
    open spec fn to_int(&self) -> int {
        *self as int
    }

    proof fn lemma_step_laws() {
    }

    fn forward(&self, step: usize) -> (r: Option<Self>) {
        let pos = *self as i128 + step as i128;
        if pos > i64::MAX as i128 {
            None
        } else {
            Some(pos as i64)
        }
    }

    fn backward(&self, step: usize) -> (r: Option<Self>) {
        let pos = *self as i128 - step as i128;
        if pos < i64::MIN as i128 {
            None
        } else {
            Some(pos as i64)
        }
    }

    fn elements_between(&self, other: &Self) -> (r: Option<usize>) {
        let d = *other as i128 - *self as i128;
        if d < 0 || d > usize::MAX as i128 {
            None
        } else {
            Some(d as usize)
        }
    }
}

impl Step for isize {
    open spec fn to_int(&self) -> int {
        *self as int
    }

    proof fn lemma_step_laws() {
    }

    fn forward(&self, step: usize) -> (r: Option<Self>) {
        let pos = *self as i128 + step as i128;
        if pos > isize::MAX as i128 {
            None
        } else {
            Some(pos as isize)
        }
    }

    fn backward(&self, step: usize) -> (r: Option<Self>) {
        let pos = *self as i128 - step as i128;
        if pos < isize::MIN as i128 {
            None
        } else {
            Some(pos as isize)
        }
    }

    fn elements_between(&self, other: &Self) -> (r: Option<usize>) {
        let d = *other as i128 - *self as i128;
        if d < 0 || d > usize::MAX as i128 {
            None
        } else {
            Some(d as usize)
        }
    }
}

impl Step for u128 {
    open spec fn to_int(&self) -> int {
        *self as int
    }

    proof fn lemma_step_laws() {
    }

    fn forward(&self, step: usize) -> (r: Option<Self>) {
        let room = u128::MAX - *self;
        if step as u128 > room {
            None
        } else {
            Some(*self + step as u128)
        }
    }

    fn backward(&self, step: usize) -> (r: Option<Self>) {
        if step as u128 > *self {
            None
        } else {
            Some(*self - step as u128)
        }
    }

    fn elements_between(&self, other: &Self) -> (r: Option<usize>) {
        if *other < *self {
            None
        } else {
            let d = *other - *self;
            if d > usize::MAX as u128 {
                None
            } else {
                Some(d as usize)
            }
        }
    }
}

} // verus!
