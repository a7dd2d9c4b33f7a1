use vstd::prelude::*;

verus! {

/// A domain usable for interval bounds: a strict total order together
/// with the knowledge of whether the domain holds any value strictly
/// between two given values.
///
/// `lt_spec` is the mathematical order of the domain and `lt` computes
/// it.  For `a < b`, `nothing_between` answers whether no value of the
/// domain lies strictly between `a` and `b`: integers answer `b - a <= 1`,
/// while a wrapper standing for mathematical reals may always answer
/// `false`.  The answer decides whether an exclusive bound at `a` denotes
/// the same cut as an inclusive bound at the next value.
pub trait NothingBetween: Sized + Copy {
    /// The strict order of the domain, as a specification-level relation.
    spec fn lt_spec(&self, other: &Self) -> bool;

    /// Specification-level counterpart of `nothing_between`.
    spec fn nothing_between_spec(&self, other: &Self) -> bool;

    /// The laws of the domain: `lt_spec` is a strict total order
    /// (irreflexive, transitive, connected), and whenever nothing lies
    /// between `a` and `b`, no value of the domain sits strictly inside
    /// `(a, b)`.
    proof fn lemma_order_laws()
        ensures
            forall|a: Self| !(#[trigger] a.lt_spec(&a)),
            forall|a: Self, b: Self, c: Self|
                #[trigger] a.lt_spec(&b) && #[trigger] b.lt_spec(&c) ==> a.lt_spec(&c),
            forall|a: Self, b: Self| #[trigger] a.lt_spec(&b) || b.lt_spec(&a) || a == b,
            forall|a: Self, b: Self, c: Self|
                a.lt_spec(&b) && #[trigger] a.nothing_between_spec(&b) && #[trigger] a.lt_spec(&c)
                    ==> !c.lt_spec(&b),
            forall|a: Self, b: Self, c: Self|
                a.lt_spec(&b) && #[trigger] a.nothing_between_spec(&b) && #[trigger] c.lt_spec(&b)
                    ==> !a.lt_spec(&c),
    ;

    /// The between-judgement is exact in the other direction too: when
    /// something lies between `a` and `b`, the domain can name a value
    /// strictly inside `(a, b)`.
    proof fn lemma_realizable(a: Self, b: Self)
        requires
            a.lt_spec(&b),
            !a.nothing_between_spec(&b),
        ensures
            exists|c: Self| a.lt_spec(&c) && #[trigger] c.lt_spec(&b),
    ;

    /// Computes the strict order.
    fn lt(&self, other: &Self) -> (r: bool)
        ensures
            r == self.lt_spec(other),
    ;

    /// Whether no value of the domain lies strictly between `self` and
    /// `other`.  Only meaningful, and only called, when `self < other`.
    fn nothing_between(&self, other: &Self) -> (r: bool)
        requires
            self.lt_spec(other),
        ensures
            r == self.nothing_between_spec(other),
    ;
}

impl NothingBetween for u8 {
    open spec fn lt_spec(&self, other: &Self) -> bool {
        *self < *other
    }

    open spec fn nothing_between_spec(&self, other: &Self) -> bool {
        *other - *self <= 1
    }

    proof fn lemma_order_laws() {
    }

    proof fn lemma_realizable(a: Self, b: Self) {
        assert(a.lt_spec(&((a + 1) as u8)) && ((a + 1) as u8).lt_spec(&b));
    }

    fn lt(&self, other: &Self) -> (r: bool) {
        *self < *other
    }

    fn nothing_between(&self, other: &Self) -> (r: bool) {
        *self >= *other - 1
    }
}

impl NothingBetween for u16 {
    open spec fn lt_spec(&self, other: &Self) -> bool {
        *self < *other
    }

    open spec fn nothing_between_spec(&self, other: &Self) -> bool {
        *other - *self <= 1
    }

    proof fn lemma_order_laws() {
    }

    proof fn lemma_realizable(a: Self, b: Self) {
        assert(a.lt_spec(&((a + 1) as u16)) && ((a + 1) as u16).lt_spec(&b));
    }

    fn lt(&self, other: &Self) -> (r: bool) {
        *self < *other
    }

    fn nothing_between(&self, other: &Self) -> (r: bool) {
        *self >= *other - 1
    }
}

impl NothingBetween for u32 {
    open spec fn lt_spec(&self, other: &Self) -> bool {
        *self < *other
    }

    open spec fn nothing_between_spec(&self, other: &Self) -> bool {
        *other - *self <= 1
    }

    proof fn lemma_order_laws() {
    }

    proof fn lemma_realizable(a: Self, b: Self) {
        assert(a.lt_spec(&((a + 1) as u32)) && ((a + 1) as u32).lt_spec(&b));
    }

    fn lt(&self, other: &Self) -> (r: bool) {
        *self < *other
    }

    fn nothing_between(&self, other: &Self) -> (r: bool) {
        *self >= *other - 1
    }
}

impl NothingBetween for u64 {
    open spec fn lt_spec(&self, other: &Self) -> bool {
        *self < *other
    }

    open spec fn nothing_between_spec(&self, other: &Self) -> bool {
        *other - *self <= 1
    }

    proof fn lemma_order_laws() {
    }

    proof fn lemma_realizable(a: Self, b: Self) {
        assert(a.lt_spec(&((a + 1) as u64)) && ((a + 1) as u64).lt_spec(&b));
    }

    fn lt(&self, other: &Self) -> (r: bool) {
        *self < *other
    }

    fn nothing_between(&self, other: &Self) -> (r: bool) {
        *self >= *other - 1
    }
}

impl NothingBetween for u128 {
    open spec fn lt_spec(&self, other: &Self) -> bool {
        *self < *other
    }

    open spec fn nothing_between_spec(&self, other: &Self) -> bool {
        *other - *self <= 1
    }

    proof fn lemma_order_laws() {
    }

    proof fn lemma_realizable(a: Self, b: Self) {
        assert(a.lt_spec(&((a + 1) as u128)) && ((a + 1) as u128).lt_spec(&b));
    }

    fn lt(&self, other: &Self) -> (r: bool) {
        *self < *other
    }

    fn nothing_between(&self, other: &Self) -> (r: bool) {
        *self >= *other - 1
    }
}

impl NothingBetween for usize {
    open spec fn lt_spec(&self, other: &Self) -> bool {
        *self < *other
    }

    open spec fn nothing_between_spec(&self, other: &Self) -> bool {
        *other - *self <= 1
    }

    proof fn lemma_order_laws() {
    }

    proof fn lemma_realizable(a: Self, b: Self) {
        assert(a.lt_spec(&((a + 1) as usize)) && ((a + 1) as usize).lt_spec(&b));
    }

    fn lt(&self, other: &Self) -> (r: bool) {
        *self < *other
    }

    fn nothing_between(&self, other: &Self) -> (r: bool) {
        *self >= *other - 1
    }
}

impl NothingBetween for i8 {
    open spec fn lt_spec(&self, other: &Self) -> bool {
        *self < *other
    }

    open spec fn nothing_between_spec(&self, other: &Self) -> bool {
        *other - *self <= 1
    }

    proof fn lemma_order_laws() {
    }

    proof fn lemma_realizable(a: Self, b: Self) {
        assert(a.lt_spec(&((a + 1) as i8)) && ((a + 1) as i8).lt_spec(&b));
    }

    fn lt(&self, other: &Self) -> (r: bool) {
        *self < *other
    }

    fn nothing_between(&self, other: &Self) -> (r: bool) {
        *self >= *other - 1
    }
}

impl NothingBetween for i16 {
    open spec fn lt_spec(&self, other: &Self) -> bool {
        *self < *other
    }

    open spec fn nothing_between_spec(&self, other: &Self) -> bool {
        *other - *self <= 1
    }

    proof fn lemma_order_laws() {
    }

    proof fn lemma_realizable(a: Self, b: Self) {
        assert(a.lt_spec(&((a + 1) as i16)) && ((a + 1) as i16).lt_spec(&b));
    }

    fn lt(&self, other: &Self) -> (r: bool) {
        *self < *other
    }

    fn nothing_between(&self, other: &Self) -> (r: bool) {
        *self >= *other - 1
    }
}

impl NothingBetween for i32 {
    open spec fn lt_spec(&self, other: &Self) -> bool {
        *self < *other
    }

    open spec fn nothing_between_spec(&self, other: &Self) -> bool {
        *other - *self <= 1
    }

    proof fn lemma_order_laws() {
    }

    proof fn lemma_realizable(a: Self, b: Self) {
        assert(a.lt_spec(&((a + 1) as i32)) && ((a + 1) as i32).lt_spec(&b));
    }

    fn lt(&self, other: &Self) -> (r: bool) {
        *self < *other
    }

    fn nothing_between(&self, other: &Self) -> (r: bool) {
        *self >= *other - 1
    }
}

impl NothingBetween for i64 {
    open spec fn lt_spec(&self, other: &Self) -> bool {
        *self < *other
    }

    open spec fn nothing_between_spec(&self, other: &Self) -> bool {
        *other - *self <= 1
    }

    proof fn lemma_order_laws() {
    }

    proof fn lemma_realizable(a: Self, b: Self) {
        assert(a.lt_spec(&((a + 1) as i64)) && ((a + 1) as i64).lt_spec(&b));
    }

    fn lt(&self, other: &Self) -> (r: bool) {
        *self < *other
    }

    fn nothing_between(&self, other: &Self) -> (r: bool) {
        *self >= *other - 1
    }
}

impl NothingBetween for i128 {
    open spec fn lt_spec(&self, other: &Self) -> bool {
        *self < *other
    }

    open spec fn nothing_between_spec(&self, other: &Self) -> bool {
        *other - *self <= 1
    }

    proof fn lemma_order_laws() {
    }

    proof fn lemma_realizable(a: Self, b: Self) {
        assert(a.lt_spec(&((a + 1) as i128)) && ((a + 1) as i128).lt_spec(&b));
    }

    fn lt(&self, other: &Self) -> (r: bool) {
        *self < *other
    }

    fn nothing_between(&self, other: &Self) -> (r: bool) {
        *self >= *other - 1
    }
}

impl NothingBetween for isize {
    open spec fn lt_spec(&self, other: &Self) -> bool {
        *self < *other
    }

    open spec fn nothing_between_spec(&self, other: &Self) -> bool {
        *other - *self <= 1
    }

    proof fn lemma_order_laws() {
    }

    proof fn lemma_realizable(a: Self, b: Self) {
        assert(a.lt_spec(&((a + 1) as isize)) && ((a + 1) as isize).lt_spec(&b));
    }

    fn lt(&self, other: &Self) -> (r: bool) {
        *self < *other
    }

    fn nothing_between(&self, other: &Self) -> (r: bool) {
        *self >= *other - 1
    }
}

impl NothingBetween for char {
    open spec fn lt_spec(&self, other: &Self) -> bool {
        (*self as u32) < (*other as u32)
    }

    /// Nothing lies between two characters when they are at most one
    /// code point apart, or when they straddle the surrogate gap,
    /// which holds no characters at all.
    open spec fn nothing_between_spec(&self, other: &Self) -> bool {
        (*other as u32) - (*self as u32) <= 1 || (*self == '\u{D7FF}' && *other == '\u{E000}')
    }

    proof fn lemma_order_laws() {
        assert forall|a: char, b: char| #[trigger] a.lt_spec(&b) || b.lt_spec(&a) || a == b by {
            if (a as u32) == (b as u32) {
                vstd::utf8::char_u32_cast(a, a as u32);
                vstd::utf8::char_u32_cast(b, b as u32);
            }
        }
        assert forall|a: char, b: char, c: char|
            a.lt_spec(&b) && #[trigger] a.nothing_between_spec(&b) && #[trigger] a.lt_spec(
                &c,
            ) implies !c.lt_spec(&b) by {
            vstd::utf8::char_is_scalar(c);
        }
        assert forall|a: char, b: char, c: char|
            a.lt_spec(&b) && #[trigger] a.nothing_between_spec(&b) && #[trigger] c.lt_spec(
                &b,
            ) implies !a.lt_spec(&c) by {
            vstd::utf8::char_is_scalar(c);
        }
    }

    proof fn lemma_realizable(a: char, b: char) {
        vstd::utf8::char_is_scalar(a);
        vstd::utf8::char_is_scalar(b);
        vstd::utf8::char_u32_cast(a, a as u32);
        vstd::utf8::char_u32_cast(b, b as u32);
        if a == '\u{D7FF}' {
            // b is a scalar above the gap and not its first character.
            let c = '\u{E000}';
            assert((b as u32) != 0xE000);
            assert(a.lt_spec(&c) && c.lt_spec(&b));
        } else {
            let cu: u32 = ((a as u32) + 1) as u32;
            // a is not the last character before the gap, so the next
            // code point is again a character.
            assert(cu < 0xD800 || (0xE000 <= cu <= 0x10FFFF));
            let c = cu as char;
            vstd::utf8::char_u32_cast(c, c as u32);
            assert(a.lt_spec(&c) && c.lt_spec(&b));
        }
    }

    fn lt(&self, other: &Self) -> (r: bool) {
        (*self as u32) < (*other as u32)
    }

    fn nothing_between(&self, other: &Self) -> (r: bool) {
        (*self as u32) >= (*other as u32) - 1 || (*self == '\u{D7FF}' && *other == '\u{E000}')
    }
}

} // verus!
