use crate::bounds::Bound;
use crate::intervals::Interval;
use crate::nothing_between::NothingBetween;
use crate::step::Bounded;
use vstd::prelude::*;
use vstd::string::*;

verus! {

/// The error of a domain value that would not parse.
#[derive(Clone, Copy, Debug)]
pub struct ValueError;

/// A failed interval parse: either the bracket-and-comma structure is
/// malformed, or one of the endpoint texts failed the domain's own
/// value parser.
#[derive(Debug)]
pub enum ParseError<E> {
    InvalidInput,
    Bound(E),
}

/// The decimal digit character for a value between 0 and 9.
pub open spec fn spec_digit_char(d: int) -> char {
    ((d + 48) as u8) as char
}

/// The value of a decimal digit character.
pub open spec fn spec_digit_val(c: char) -> int {
    (c as u32) - 48
}

/// Whether the character is a decimal digit.
pub open spec fn spec_is_digit(c: char) -> bool {
    48 <= (c as u32) <= 57
}

/// The decimal rendering of a natural number.
pub open spec fn spec_nat_text(n: nat) -> Seq<char>
    decreases n,
{
    if n < 10 {
        seq![spec_digit_char(n as int)]
    } else {
        spec_nat_text(n / 10).push(spec_digit_char((n % 10) as int))
    }
}

/// The decimal rendering of an integer, with a leading minus sign when
/// negative.
pub open spec fn spec_int_text(i: int) -> Seq<char> {
    if i < 0 {
        seq!['-'] + spec_nat_text((-i) as nat)
    } else {
        spec_nat_text(i as nat)
    }
}

/// Whether every character of the text is a decimal digit.
pub open spec fn spec_all_digits(s: Seq<char>) -> bool {
    forall|i: int| 0 <= i < s.len() ==> spec_is_digit(#[trigger] s[i])
}

/// The numeric value of a digit text.
pub open spec fn spec_digits_val(s: Seq<char>) -> int
    decreases s.len(),
{
    if s.len() == 0 {
        0
    } else {
        spec_digits_val(s.drop_last()) * 10 + spec_digit_val(s.last())
    }
}

/// A digit text's value is never negative.
pub proof fn lemma_digits_val_nonneg(s: Seq<char>)
    requires
        spec_all_digits(s),
    ensures
        spec_digits_val(s) >= 0,
    decreases s.len(),
{
    if s.len() > 0 {
        assert(spec_all_digits(s.drop_last()));
        lemma_digits_val_nonneg(s.drop_last());
    }
}

/// Extending a digit text multiplies its value and adds the digit.
pub proof fn lemma_digits_val_take(s: Seq<char>, i: int)
    requires
        0 <= i < s.len(),
    ensures
        spec_digits_val(s.take(i + 1)) == spec_digits_val(s.take(i)) * 10 + spec_digit_val(
            s[i],
        ),
{
    assert(s.take(i + 1).drop_last() =~= s.take(i));
    assert(s.take(i + 1).last() == s[i]);
}

/// A character the interval grammar reserves for itself: a value's
/// own text may not use it.
pub open spec fn spec_is_delimiter(c: char) -> bool {
    c == ',' || c == '[' || c == ']' || c == '(' || c == ')' || c == ' '
}

/// A single value as text: rendering to and parsing from the decimal
/// grammar the domain uses.
pub trait ValueText: Sized + Copy {
    /// The exact text `to_text` returns.
    spec fn text_spec(&self) -> Seq<char>;

    /// The exact result of `parse_text` on any text.
    spec fn parse_spec(s: Seq<char>) -> Option<Self>;

    /// A rendered value is never empty, keeps clear of the grammar's
    /// delimiters, and parses back to itself.
    proof fn lemma_text_laws(v: Self)
        ensures
            Self::parse_spec(v.text_spec()) == Some(v),
            v.text_spec().len() > 0,
            forall|i: int|
                0 <= i < v.text_spec().len() ==> !spec_is_delimiter(
                    #[trigger] v.text_spec()[i],
                ),
    ;

    /// Renders the value.
    fn to_text(&self) -> (r: String)
        ensures
            r@ == self.text_spec(),
    ;

    /// Parses a value from its text.
    fn parse_text(s: &str) -> (r: Option<Self>)
        ensures
            r == Self::parse_spec(s@),
    ;
}

/// The single-digit texts, proved character by character.
fn digit_string(d: u64) -> (r: String)
    requires
        d < 10,
    ensures
        r@ == seq![spec_digit_char(d as int)],
{
    proof {
        reveal_strlit("0");
        reveal_strlit("1");
        reveal_strlit("2");
        reveal_strlit("3");
        reveal_strlit("4");
        reveal_strlit("5");
        reveal_strlit("6");
        reveal_strlit("7");
        reveal_strlit("8");
        reveal_strlit("9");
    }
    let r = match d {
        0 => String::from_str("0"),
        1 => String::from_str("1"),
        2 => String::from_str("2"),
        3 => String::from_str("3"),
        4 => String::from_str("4"),
        5 => String::from_str("5"),
        6 => String::from_str("6"),
        7 => String::from_str("7"),
        8 => String::from_str("8"),
        _ => String::from_str("9"),
    };
    proof {
        assert(r@ =~= seq![spec_digit_char(d as int)]);
    }
    r
}

/// Renders a natural number in decimal.
fn nat_text_u64(n: u64) -> (r: String)
    ensures
        r@ == spec_nat_text(n as nat),
    decreases n,
{
    if n < 10 {
        digit_string(n)
    } else {
        let mut s = nat_text_u64(n / 10);
        let d = digit_string(n % 10);
        s.append(d.as_str());
        proof {
            assert(s@ =~= spec_nat_text(n as nat));
        }
        s
    }
}

/// Parses a decimal digit text into a number, refusing empty texts,
/// non-digits and values beyond `u64::MAX`.
fn parse_nat_u64(s: &str) -> (r: Option<u64>)
    ensures
        match r {
            Some(v) => s@.len() > 0 && spec_all_digits(s@) && v as int == spec_digits_val(s@),
            None => s@.len() == 0 || !spec_all_digits(s@) || spec_digits_val(s@) > u64::MAX,
        },
{
    let n = s.unicode_len();
    if n == 0 {
        return None;
    }
    let mut acc: u64 = 0;
    let mut i: usize = 0;
    proof {
        assert(s@.take(0) =~= Seq::<char>::empty());
    }
    while i < n
        invariant
            n == s@.len(),
            i <= n,
            spec_all_digits(s@.take(i as int)),
            acc as int == spec_digits_val(s@.take(i as int)),
        decreases n - i,
    {
        let c = s.get_char(i);
        let cv = c as u32;
        proof {
            lemma_digits_val_take(s@, i as int);
            assert(s@.take(i as int + 1) =~= s@.take(i as int).push(c));
        }
        if cv < 48 || cv > 57 {
            return None;
        }
        let d = (cv - 48) as u64;
        if acc > (u64::MAX - d) / 10 {
            // The value no longer fits; it can only grow from here.
            proof {
                lemma_digits_overflow(s@, i as int, acc as int, d as int);
            }
            return None;
        }
        acc = acc * 10 + d;
        i = i + 1;
    }
    proof {
        assert(s@.take(n as int) =~= s@);
    }
    Some(acc)
}

/// Once a prefix of a digit text overflows, the whole text's value is
/// beyond reach, or some later character is no digit.
proof fn lemma_digits_overflow(s: Seq<char>, i: int, acc: int, d: int)
    requires
        0 <= i < s.len(),
        acc == spec_digits_val(s.take(i)),
        spec_is_digit(s[i]),
        d == spec_digit_val(s[i]),
        acc * 10 + d > u64::MAX,
    ensures
        !spec_all_digits(s) || spec_digits_val(s) > u64::MAX,
{
    if spec_all_digits(s) {
        lemma_digits_prefix_le(s, i + 1);
        lemma_digits_val_take(s, i);
    }
}

/// With digits only, a longer text never has a smaller value.
proof fn lemma_digits_prefix_le(s: Seq<char>, i: int)
    requires
        spec_all_digits(s),
        0 <= i <= s.len(),
    ensures
        spec_digits_val(s.take(i)) <= spec_digits_val(s),
    decreases s.len() - i,
{
    if i == s.len() {
        assert(s.take(i) =~= s);
    } else {
        lemma_digits_prefix_le(s, i + 1);
        lemma_digits_val_take(s, i);
        assert(spec_all_digits(s.take(i)));
        lemma_digits_val_nonneg(s.take(i));
    }
}

impl ValueText for u8 {
    open spec fn text_spec(&self) -> Seq<char> {
        spec_nat_text(*self as nat)
    }

    open spec fn parse_spec(s: Seq<char>) -> Option<Self> {
        if s.len() > 0 && spec_all_digits(s) && spec_digits_val(s) <= u8::MAX {
            Some(spec_digits_val(s) as u8)
        } else {
            None
        }
    }

    proof fn lemma_text_laws(v: Self) {
        lemma_nat_text_round_trip(v as nat);
    }

    fn to_text(&self) -> (r: String) {
        nat_text_u64(*self as u64)
    }

    fn parse_text(s: &str) -> (r: Option<Self>) {
        match parse_nat_u64(s) {
            Some(v) => if v <= u8::MAX as u64 {
                Some(v as u8)
            } else {
                None
            },
            None => None,
        }
    }
}

impl ValueText for u16 {
    open spec fn text_spec(&self) -> Seq<char> {
        spec_nat_text(*self as nat)
    }

    open spec fn parse_spec(s: Seq<char>) -> Option<Self> {
        if s.len() > 0 && spec_all_digits(s) && spec_digits_val(s) <= u16::MAX {
            Some(spec_digits_val(s) as u16)
        } else {
            None
        }
    }

    proof fn lemma_text_laws(v: Self) {
        lemma_nat_text_round_trip(v as nat);
    }

    fn to_text(&self) -> (r: String) {
        nat_text_u64(*self as u64)
    }

    fn parse_text(s: &str) -> (r: Option<Self>) {
        match parse_nat_u64(s) {
            Some(v) => if v <= u16::MAX as u64 {
                Some(v as u16)
            } else {
                None
            },
            None => None,
        }
    }
}

impl ValueText for u32 {
    open spec fn text_spec(&self) -> Seq<char> {
        spec_nat_text(*self as nat)
    }

    open spec fn parse_spec(s: Seq<char>) -> Option<Self> {
        if s.len() > 0 && spec_all_digits(s) && spec_digits_val(s) <= u32::MAX {
            Some(spec_digits_val(s) as u32)
        } else {
            None
        }
    }

    proof fn lemma_text_laws(v: Self) {
        lemma_nat_text_round_trip(v as nat);
    }

    fn to_text(&self) -> (r: String) {
        nat_text_u64(*self as u64)
    }

    fn parse_text(s: &str) -> (r: Option<Self>) {
        match parse_nat_u64(s) {
            Some(v) => if v <= u32::MAX as u64 {
                Some(v as u32)
            } else {
                None
            },
            None => None,
        }
    }
}

impl ValueText for u64 {
    open spec fn text_spec(&self) -> Seq<char> {
        spec_nat_text(*self as nat)
    }

    open spec fn parse_spec(s: Seq<char>) -> Option<Self> {
        if s.len() > 0 && spec_all_digits(s) && spec_digits_val(s) <= u64::MAX {
            Some(spec_digits_val(s) as u64)
        } else {
            None
        }
    }

    proof fn lemma_text_laws(v: Self) {
        lemma_nat_text_round_trip(v as nat);
    }

    fn to_text(&self) -> (r: String) {
        nat_text_u64(*self)
    }

    fn parse_text(s: &str) -> (r: Option<Self>) {
        parse_nat_u64(s)
    }
}

impl ValueText for i32 {
    open spec fn text_spec(&self) -> Seq<char> {
        spec_int_text(*self as int)
    }

    open spec fn parse_spec(s: Seq<char>) -> Option<Self> {
        if s.len() > 0 && s[0] == '-' {
            let rest = s.drop_first();
            if rest.len() > 0 && spec_all_digits(rest) && spec_digits_val(rest) <= 2147483648 {
                Some((-spec_digits_val(rest)) as i32)
            } else {
                None
            }
        } else if s.len() > 0 && spec_all_digits(s) && spec_digits_val(s) <= i32::MAX {
            Some(spec_digits_val(s) as i32)
        } else {
            None
        }
    }

    proof fn lemma_text_laws(v: Self) {
        if v < 0 {
            lemma_nat_text_round_trip((-(v as int)) as nat);
            assert((seq!['-'] + spec_nat_text((-(v as int)) as nat)).drop_first()
                =~= spec_nat_text((-(v as int)) as nat));
        } else {
            lemma_nat_text_round_trip(v as nat);
        }
    }

    fn to_text(&self) -> (r: String) {
        if *self < 0 {
            let mag = (-(*self as i64)) as u64;
            let mut r = String::from_str("-");
            let digits = nat_text_u64(mag);
            r.append(digits.as_str());
            proof {
                reveal_strlit("-");
                assert(r@ =~= spec_int_text(*self as int));
            }
            r
        } else {
            nat_text_u64(*self as u64)
        }
    }

    fn parse_text(s: &str) -> (r: Option<Self>) {
        let n = s.unicode_len();
        if n > 0 && s.get_char(0) == '-' {
            let rest = s.substring_char(1, n);
            proof {
                assert(rest@ =~= s@.drop_first());
            }
            match parse_nat_u64(rest) {
                Some(v) => if v <= 2147483648u64 {
                    if v == 2147483648u64 {
                        Some(i32::MIN)
                    } else {
                        Some(-(v as i32))
                    }
                } else {
                    None
                },
                None => None,
            }
        } else {
            match parse_nat_u64(s) {
                Some(v) => if v <= i32::MAX as u64 {
                    Some(v as i32)
                } else {
                    None
                },
                None => None,
            }
        }
    }
}

impl ValueText for i64 {
    open spec fn text_spec(&self) -> Seq<char> {
        spec_int_text(*self as int)
    }

    open spec fn parse_spec(s: Seq<char>) -> Option<Self> {
        if s.len() > 0 && s[0] == '-' {
            let rest = s.drop_first();
            if rest.len() > 0 && spec_all_digits(rest) && spec_digits_val(rest)
                <= 9223372036854775808 {
                Some((-spec_digits_val(rest)) as i64)
            } else {
                None
            }
        } else if s.len() > 0 && spec_all_digits(s) && spec_digits_val(s) <= i64::MAX {
            Some(spec_digits_val(s) as i64)
        } else {
            None
        }
    }

    proof fn lemma_text_laws(v: Self) {
        if v < 0 {
            lemma_nat_text_round_trip((-(v as int)) as nat);
            assert((seq!['-'] + spec_nat_text((-(v as int)) as nat)).drop_first()
                =~= spec_nat_text((-(v as int)) as nat));
        } else {
            lemma_nat_text_round_trip(v as nat);
        }
    }

    fn to_text(&self) -> (r: String) {
        if *self < 0 {
            let mag = if *self == i64::MIN {
                9223372036854775808u64
            } else {
                (-*self) as u64
            };
            let mut r = String::from_str("-");
            let digits = nat_text_u64(mag);
            r.append(digits.as_str());
            proof {
                reveal_strlit("-");
                assert(r@ =~= spec_int_text(*self as int));
            }
            r
        } else {
            nat_text_u64(*self as u64)
        }
    }

    fn parse_text(s: &str) -> (r: Option<Self>) {
        let n = s.unicode_len();
        if n > 0 && s.get_char(0) == '-' {
            let rest = s.substring_char(1, n);
            proof {
                assert(rest@ =~= s@.drop_first());
            }
            match parse_nat_u64(rest) {
                Some(v) => if v <= 9223372036854775808u64 {
                    if v == 9223372036854775808u64 {
                        Some(i64::MIN)
                    } else {
                        Some(-(v as i64))
                    }
                } else {
                    None
                },
                None => None,
            }
        } else {
            match parse_nat_u64(s) {
                Some(v) => if v <= i64::MAX as u64 {
                    Some(v as i64)
                } else {
                    None
                },
                None => None,
            }
        }
    }
}


impl ValueText for usize {
    open spec fn text_spec(&self) -> Seq<char> {
        spec_nat_text(*self as nat)
    }

    open spec fn parse_spec(s: Seq<char>) -> Option<Self> {
        if s.len() > 0 && spec_all_digits(s) && spec_digits_val(s) <= usize::MAX {
            Some(spec_digits_val(s) as usize)
        } else {
            None
        }
    }

    proof fn lemma_text_laws(v: Self) {
        lemma_nat_text_round_trip(v as nat);
    }

    fn to_text(&self) -> (r: String) {
        nat_text_u64(*self as u64)
    }

    fn parse_text(s: &str) -> (r: Option<Self>) {
        match parse_nat_u64(s) {
            Some(v) => if v <= usize::MAX as u64 {
                Some(v as usize)
            } else {
                None
            },
            None => None,
        }
    }
}

impl ValueText for i8 {
    open spec fn text_spec(&self) -> Seq<char> {
        spec_int_text(*self as int)
    }

    open spec fn parse_spec(s: Seq<char>) -> Option<Self> {
        if s.len() > 0 && s[0] == '-' {
            let rest = s.drop_first();
            if rest.len() > 0 && spec_all_digits(rest) && spec_digits_val(rest) <= 128 {
                Some((-spec_digits_val(rest)) as i8)
            } else {
                None
            }
        } else if s.len() > 0 && spec_all_digits(s) && spec_digits_val(s) <= i8::MAX {
            Some(spec_digits_val(s) as i8)
        } else {
            None
        }
    }

    proof fn lemma_text_laws(v: Self) {
        if v < 0 {
            lemma_nat_text_round_trip((-(v as int)) as nat);
            assert((seq!['-'] + spec_nat_text((-(v as int)) as nat)).drop_first()
                =~= spec_nat_text((-(v as int)) as nat));
        } else {
            lemma_nat_text_round_trip(v as nat);
        }
    }

    fn to_text(&self) -> (r: String) {
        if *self < 0 {
            let mag = (-(*self as i64)) as u64;
            let mut r = String::from_str("-");
            let digits = nat_text_u64(mag);
            r.append(digits.as_str());
            proof {
                reveal_strlit("-");
                assert(r@ =~= spec_int_text(*self as int));
            }
            r
        } else {
            nat_text_u64(*self as u64)
        }
    }

    fn parse_text(s: &str) -> (r: Option<Self>) {
        let n = s.unicode_len();
        if n > 0 && s.get_char(0) == '-' {
            let rest = s.substring_char(1, n);
            proof {
                assert(rest@ =~= s@.drop_first());
            }
            match parse_nat_u64(rest) {
                Some(v) => if v <= 128u64 {
                    if v == 128u64 {
                        Some(i8::MIN)
                    } else {
                        Some(-(v as i8))
                    }
                } else {
                    None
                },
                None => None,
            }
        } else {
            match parse_nat_u64(s) {
                Some(v) => if v <= i8::MAX as u64 {
                    Some(v as i8)
                } else {
                    None
                },
                None => None,
            }
        }
    }
}

impl ValueText for i16 {
    open spec fn text_spec(&self) -> Seq<char> {
        spec_int_text(*self as int)
    }

    open spec fn parse_spec(s: Seq<char>) -> Option<Self> {
        if s.len() > 0 && s[0] == '-' {
            let rest = s.drop_first();
            if rest.len() > 0 && spec_all_digits(rest) && spec_digits_val(rest) <= 32768 {
                Some((-spec_digits_val(rest)) as i16)
            } else {
                None
            }
        } else if s.len() > 0 && spec_all_digits(s) && spec_digits_val(s) <= i16::MAX {
            Some(spec_digits_val(s) as i16)
        } else {
            None
        }
    }

    proof fn lemma_text_laws(v: Self) {
        if v < 0 {
            lemma_nat_text_round_trip((-(v as int)) as nat);
            assert((seq!['-'] + spec_nat_text((-(v as int)) as nat)).drop_first()
                =~= spec_nat_text((-(v as int)) as nat));
        } else {
            lemma_nat_text_round_trip(v as nat);
        }
    }

    fn to_text(&self) -> (r: String) {
        if *self < 0 {
            let mag = (-(*self as i64)) as u64;
            let mut r = String::from_str("-");
            let digits = nat_text_u64(mag);
            r.append(digits.as_str());
            proof {
                reveal_strlit("-");
                assert(r@ =~= spec_int_text(*self as int));
            }
            r
        } else {
            nat_text_u64(*self as u64)
        }
    }

    fn parse_text(s: &str) -> (r: Option<Self>) {
        let n = s.unicode_len();
        if n > 0 && s.get_char(0) == '-' {
            let rest = s.substring_char(1, n);
            proof {
                assert(rest@ =~= s@.drop_first());
            }
            match parse_nat_u64(rest) {
                Some(v) => if v <= 32768u64 {
                    if v == 32768u64 {
                        Some(i16::MIN)
                    } else {
                        Some(-(v as i16))
                    }
                } else {
                    None
                },
                None => None,
            }
        } else {
            match parse_nat_u64(s) {
                Some(v) => if v <= i16::MAX as u64 {
                    Some(v as i16)
                } else {
                    None
                },
                None => None,
            }
        }
    }
}

impl ValueText for isize {
    open spec fn text_spec(&self) -> Seq<char> {
        spec_int_text(*self as int)
    }

    open spec fn parse_spec(s: Seq<char>) -> Option<Self> {
        if s.len() > 0 && s[0] == '-' {
            let rest = s.drop_first();
            if rest.len() > 0 && spec_all_digits(rest) && spec_digits_val(rest) <= -(
            isize::MIN as int) {
                Some((-spec_digits_val(rest)) as isize)
            } else {
                None
            }
        } else if s.len() > 0 && spec_all_digits(s) && spec_digits_val(s) <= isize::MAX {
            Some(spec_digits_val(s) as isize)
        } else {
            None
        }
    }

    proof fn lemma_text_laws(v: Self) {
        if v < 0 {
            lemma_nat_text_round_trip((-(v as int)) as nat);
            assert((seq!['-'] + spec_nat_text((-(v as int)) as nat)).drop_first()
                =~= spec_nat_text((-(v as int)) as nat));
        } else {
            lemma_nat_text_round_trip(v as nat);
        }
    }

    fn to_text(&self) -> (r: String) {
        if *self < 0 {
            let mag = (-(*self as i128)) as u64;
            let mut r = String::from_str("-");
            let digits = nat_text_u64(mag);
            r.append(digits.as_str());
            proof {
                reveal_strlit("-");
                assert(r@ =~= spec_int_text(*self as int));
            }
            r
        } else {
            nat_text_u64(*self as u64)
        }
    }

    fn parse_text(s: &str) -> (r: Option<Self>) {
        let n = s.unicode_len();
        let lim: u64 = (-(isize::MIN as i128)) as u64;
        if n > 0 && s.get_char(0) == '-' {
            let rest = s.substring_char(1, n);
            proof {
                assert(rest@ =~= s@.drop_first());
            }
            match parse_nat_u64(rest) {
                Some(v) => if v <= lim {
                    if v == lim {
                        Some(isize::MIN)
                    } else {
                        Some(-(v as isize))
                    }
                } else {
                    None
                },
                None => None,
            }
        } else {
            match parse_nat_u64(s) {
                Some(v) => if v <= isize::MAX as u64 {
                    Some(v as isize)
                } else {
                    None
                },
                None => None,
            }
        }
    }
}

/// The index of the first comma at or after position `i`, or -1 when
/// there is none.
pub open spec fn spec_first_comma(s: Seq<char>, i: int) -> int
    decreases s.len() - i,
{
    if i < 0 || i >= s.len() {
        -1
    } else if s[i] == ',' {
        i
    } else {
        spec_first_comma(s, i + 1)
    }
}

/// The first index at or after `i` holding no space.
pub open spec fn spec_space_from(s: Seq<char>, i: int) -> int
    decreases s.len() - i,
{
    if i < 0 || i >= s.len() {
        i
    } else if s[i] == ' ' {
        spec_space_from(s, i + 1)
    } else {
        i
    }
}

/// The end of the text once trailing spaces are dropped, scanning
/// down from `j`.
pub open spec fn spec_space_back(s: Seq<char>, j: int) -> int
    decreases j,
{
    if j <= 0 {
        0
    } else if s[j - 1] == ' ' {
        spec_space_back(s, j - 1)
    } else {
        j
    }
}

/// Dropping trailing spaces never lengthens the text.
proof fn lemma_space_back_le(s: Seq<char>, j: int)
    requires
        j >= 0,
    ensures
        0 <= spec_space_back(s, j) <= j,
    decreases j,
{
    if j > 0 && s[j - 1] == ' ' {
        lemma_space_back_le(s, j - 1);
    }
}

/// The text with leading and trailing spaces removed.
pub open spec fn spec_trim(s: Seq<char>) -> Seq<char> {
    let a = spec_space_from(s, 0);
    let b = spec_space_back(s, s.len() as int);
    if a >= b {
        Seq::empty()
    } else {
        s.subrange(a, b)
    }
}

/// Strips leading and trailing spaces.
fn trim_spaces<'a>(s: &'a str) -> (r: &'a str)
    ensures
        r@ == spec_trim(s@),
{
    let n = s.unicode_len();
    let mut a: usize = 0;
    while a < n && s.get_char(a) == ' '
        invariant
            n == s@.len(),
            0 <= a <= n,
            spec_space_from(s@, 0) == spec_space_from(s@, a as int),
        decreases n - a,
    {
        a = a + 1;
    }
    let mut b: usize = n;
    while b > a && s.get_char(b - 1) == ' '
        invariant
            n == s@.len(),
            a <= b <= n,
            a < n ==> s@[a as int] != ' ',
            a < n ==> b > a,
            spec_space_back(s@, n as int) == spec_space_back(s@, b as int),
        decreases b,
    {
        b = b - 1;
    }
    let r = s.substring_char(a, b);
    proof {
        lemma_space_back_le(s@, n as int);
        if b > a {
            assert(r@ =~= spec_trim(s@));
        } else {
            assert(r@ =~= spec_trim(s@));
        }
    }
    r
}

impl<T: NothingBetween + ValueText> Interval<T> {
    /// The exact text `to_text` renders: brackets for inclusive
    /// bounds, parentheses otherwise, an empty slot for an unbounded
    /// side, and the word `empty` for an empty interval.
    pub open spec fn spec_text(self) -> Seq<char> {
        match (self.lower, self.upper) {
            (Bound::RightUnbounded, _) => seq!['e', 'm', 'p', 't', 'y'],
            (_, Bound::LeftUnbounded) => seq!['e', 'm', 'p', 't', 'y'],
            (Bound::LeftUnbounded, Bound::LeftOf(p)) => seq!['(', ',', ' '] + p.text_spec()
                + seq![')'],
            (Bound::LeftUnbounded, Bound::RightOf(p)) => seq!['(', ',', ' '] + p.text_spec()
                + seq![']'],
            (Bound::LeftUnbounded, Bound::RightUnbounded) => seq!['(', ',', ')'],
            (Bound::LeftOf(l), Bound::LeftOf(p)) => seq!['['] + l.text_spec() + seq![',', ' ']
                + p.text_spec() + seq![')'],
            (Bound::LeftOf(l), Bound::RightOf(p)) => seq!['['] + l.text_spec() + seq![',', ' ']
                + p.text_spec() + seq![']'],
            (Bound::LeftOf(l), Bound::RightUnbounded) => seq!['['] + l.text_spec()
                + seq![',', ')'],
            (Bound::RightOf(l), Bound::LeftOf(p)) => seq!['('] + l.text_spec() + seq![',', ' ']
                + p.text_spec() + seq![')'],
            (Bound::RightOf(l), Bound::RightOf(p)) => seq!['('] + l.text_spec() + seq![',', ' ']
                + p.text_spec() + seq![']'],
            (Bound::RightOf(l), Bound::RightUnbounded) => seq!['('] + l.text_spec()
                + seq![',', ')'],
        }
    }

    /// Renders the interval in the human-readable grammar.
    pub fn to_text(&self) -> (r: String)
        ensures
            r@ == self.spec_text(),
    {
        proof {
            reveal_strlit("empty");
            reveal_strlit("(, ");
            reveal_strlit(")");
            reveal_strlit("]");
            reveal_strlit("(,)");
            reveal_strlit("[");
            reveal_strlit("(");
            reveal_strlit(", ");
            reveal_strlit(",)");
        }
        match (&self.lower, &self.upper) {
            (Bound::RightUnbounded, _) => {
                let r = String::from_str("empty");
                proof {
                    assert(r@ =~= self.spec_text());
                }
                r
            }
            (_, Bound::LeftUnbounded) => {
                let r = String::from_str("empty");
                proof {
                    assert(r@ =~= self.spec_text());
                }
                r
            }
            (Bound::LeftUnbounded, Bound::LeftOf(p)) => {
                let mut r = String::from_str("(, ");
                let t = p.to_text();
                r.append(t.as_str());
                r.append(")");
                proof {
                    assert(r@ =~= self.spec_text());
                }
                r
            }
            (Bound::LeftUnbounded, Bound::RightOf(p)) => {
                let mut r = String::from_str("(, ");
                let t = p.to_text();
                r.append(t.as_str());
                r.append("]");
                proof {
                    assert(r@ =~= self.spec_text());
                }
                r
            }
            (Bound::LeftUnbounded, Bound::RightUnbounded) => {
                let r = String::from_str("(,)");
                proof {
                    assert(r@ =~= self.spec_text());
                }
                r
            }
            (Bound::LeftOf(l), Bound::LeftOf(p)) => {
                let mut r = String::from_str("[");
                let tl = l.to_text();
                r.append(tl.as_str());
                r.append(", ");
                let tu = p.to_text();
                r.append(tu.as_str());
                r.append(")");
                proof {
                    assert(r@ =~= self.spec_text());
                }
                r
            }
            (Bound::LeftOf(l), Bound::RightOf(p)) => {
                let mut r = String::from_str("[");
                let tl = l.to_text();
                r.append(tl.as_str());
                r.append(", ");
                let tu = p.to_text();
                r.append(tu.as_str());
                r.append("]");
                proof {
                    assert(r@ =~= self.spec_text());
                }
                r
            }
            (Bound::LeftOf(l), Bound::RightUnbounded) => {
                let mut r = String::from_str("[");
                let tl = l.to_text();
                r.append(tl.as_str());
                r.append(",)");
                proof {
                    assert(r@ =~= self.spec_text());
                }
                r
            }
            (Bound::RightOf(l), Bound::LeftOf(p)) => {
                let mut r = String::from_str("(");
                let tl = l.to_text();
                r.append(tl.as_str());
                r.append(", ");
                let tu = p.to_text();
                r.append(tu.as_str());
                r.append(")");
                proof {
                    assert(r@ =~= self.spec_text());
                }
                r
            }
            (Bound::RightOf(l), Bound::RightOf(p)) => {
                let mut r = String::from_str("(");
                let tl = l.to_text();
                r.append(tl.as_str());
                r.append(", ");
                let tu = p.to_text();
                r.append(tu.as_str());
                r.append("]");
                proof {
                    assert(r@ =~= self.spec_text());
                }
                r
            }
            (Bound::RightOf(l), Bound::RightUnbounded) => {
                let mut r = String::from_str("(");
                let tl = l.to_text();
                r.append(tl.as_str());
                r.append(",)");
                proof {
                    assert(r@ =~= self.spec_text());
                }
                r
            }
        }
    }
}

impl<T: NothingBetween + Bounded + ValueText> Interval<T> {
    /// The exact result of `from_text` on any text: the literal
    /// `empty` or an empty text gives the empty interval; otherwise a
    /// bracket, an optional lower value, one comma, an optional upper
    /// value and a closing bracket, with spaces around values ignored.
    pub open spec fn spec_parse(s: Seq<char>) -> Result<Self, ParseError<ValueError>> {
        if s.len() == 0 || s == seq!['e', 'm', 'p', 't', 'y'] {
            Ok(Self::spec_empty())
        } else {
            let k = spec_first_comma(s, 0);
            if s.len() < 3 || !(s[0] == '[' || s[0] == '(') || !(s.last() == ']' || s.last()
                == ')') || k < 1 || k > s.len() - 2 {
                Err(ParseError::InvalidInput)
            } else {
                let lo_txt = spec_trim(s.subrange(1, k));
                let up_txt = spec_trim(s.subrange(k + 1, s.len() - 1));
                if lo_txt.len() > 0 && T::parse_spec(lo_txt) is None {
                    Err(ParseError::Bound(ValueError))
                } else if up_txt.len() > 0 && T::parse_spec(up_txt) is None {
                    Err(ParseError::Bound(ValueError))
                } else {
                    let lo = if lo_txt.len() == 0 {
                        None
                    } else {
                        T::parse_spec(lo_txt)
                    };
                    let up = if up_txt.len() == 0 {
                        None
                    } else {
                        T::parse_spec(up_txt)
                    };
                    match (lo, up) {
                        (Some(a), Some(b)) => if s[0] == '[' && s.last() == ']' {
                            Ok(Self::spec_new_closed_closed(a, b))
                        } else if s[0] == '[' && s.last() == ')' {
                            Ok(Self::spec_new_closed_open(a, b))
                        } else if s[0] == '(' && s.last() == ')' {
                            Ok(Self::spec_new_open_open(a, b))
                        } else {
                            Ok(Self::spec_new_open_closed(a, b))
                        },
                        (Some(a), None) => if s[0] == '(' && s.last() == ')' {
                            Ok(Self::spec_new_open_unbounded(a))
                        } else if s[0] == '[' && s.last() == ')' {
                            Ok(Self::spec_new_closed_unbounded(a))
                        } else {
                            Err(ParseError::InvalidInput)
                        },
                        (None, Some(b)) => if s[0] == '(' && s.last() == ')' {
                            Ok(Self::spec_new_unbounded_open(b))
                        } else if s[0] == '(' && s.last() == ']' {
                            Ok(Self::spec_new_unbounded_closed(b))
                        } else {
                            Err(ParseError::InvalidInput)
                        },
                        (None, None) => if s[0] == '(' && s.last() == ')' {
                            Ok(
                                Interval {
                                    lower: Bound::LeftUnbounded,
                                    upper: Bound::RightUnbounded,
                                },
                            )
                        } else {
                            Err(ParseError::InvalidInput)
                        },
                    }
                }
            }
        }
    }

    /// Parses an interval from the delimiter grammar.
    pub fn from_text(s: &str) -> (r: Result<Self, ParseError<ValueError>>)
        ensures
            r == Self::spec_parse(s@),
    {
        let n = s.unicode_len();
        if n == 0 {
            return Ok(Self::empty());
        }
        proof {
            reveal_strlit("empty");
        }
        if n == 5 && s.get_char(0) == 'e' && s.get_char(1) == 'm' && s.get_char(2) == 'p'
            && s.get_char(3) == 't' && s.get_char(4) == 'y' {
            proof {
                assert(s@ =~= seq!['e', 'm', 'p', 't', 'y']);
            }
            return Ok(Self::empty());
        }
        proof {
            if s@ == seq!['e', 'm', 'p', 't', 'y'] {
                assert(s@.len() == 5);
                assert(s@[0] == 'e' && s@[1] == 'm' && s@[2] == 'p' && s@[3] == 't' && s@[4]
                    == 'y');
            }
        }
        // Find the first comma.
        let mut k: usize = 0;
        let mut found = false;
        while k < n && !found
            invariant
                n == s@.len(),
                0 <= k <= n,
                found ==> k < n && s@[k as int] == ',',
                !found ==> spec_first_comma(s@, 0) == spec_first_comma(s@, k as int),
                found ==> spec_first_comma(s@, 0) == k as int,
            decreases n - k, (if found { 0int } else { 1int }),
        {
            if s.get_char(k) == ',' {
                found = true;
            } else {
                k = k + 1;
            }
        }
        let c0 = s.get_char(0);
        let cl = s.get_char(n - 1);
        if n < 3 || !(c0 == '[' || c0 == '(') || !(cl == ']' || cl == ')') || !found || k < 1
            || k > n - 2 {
            return Err(ParseError::InvalidInput);
        }
        let lo_str = trim_spaces(s.substring_char(1, k));
        let up_str = trim_spaces(s.substring_char(k + 1, n - 1));
        proof {
            assert(lo_str@ == spec_trim(s@.subrange(1, k as int)));
            assert(up_str@ == spec_trim(s@.subrange(k as int + 1, s@.len() - 1)));
        }
        let lo_len = lo_str.unicode_len();
        let up_len = up_str.unicode_len();
        let lo: Option<T> = if lo_len == 0 {
            None
        } else {
            match T::parse_text(lo_str) {
                Some(v) => Some(v),
                None => {
                    return Err(ParseError::Bound(ValueError));
                }
            }
        };
        let up: Option<T> = if up_len == 0 {
            None
        } else {
            match T::parse_text(up_str) {
                Some(v) => Some(v),
                None => {
                    return Err(ParseError::Bound(ValueError));
                }
            }
        };
        match (lo, up) {
            (Some(a), Some(b)) => if c0 == '[' && cl == ']' {
                Ok(Self::new_closed_closed(a, b))
            } else if c0 == '[' && cl == ')' {
                Ok(Self::new_closed_open(a, b))
            } else if c0 == '(' && cl == ')' {
                Ok(Self::new_open_open(a, b))
            } else {
                Ok(Self::new_open_closed(a, b))
            },
            (Some(a), None) => if c0 == '(' && cl == ')' {
                Ok(Self::new_open_unbounded(a))
            } else if c0 == '[' && cl == ')' {
                Ok(Self::new_closed_unbounded(a))
            } else {
                Err(ParseError::InvalidInput)
            },
            (None, Some(b)) => if c0 == '(' && cl == ')' {
                Ok(Self::new_unbounded_open(b))
            } else if c0 == '(' && cl == ']' {
                Ok(Self::new_unbounded_closed(b))
            } else {
                Err(ParseError::InvalidInput)
            },
            (None, None) => if c0 == '(' && cl == ')' {
                Ok(Self::doubly_unbounded())
            } else {
                Err(ParseError::InvalidInput)
            },
        }
    }
}

impl<T: NothingBetween + Bounded + ValueText> core::str::FromStr for Interval<T> {
    type Err = ParseError<ValueError>;

    /// Parses an interval, as `from_text` does.
    fn from_str(s: &str) -> Result<Self, Self::Err> {
        Self::from_text(s)
    }
}


/// A rendered natural number is all digits, never empty, and parses
/// back to itself.
pub proof fn lemma_nat_text_round_trip(n: nat)
    ensures
        spec_all_digits(spec_nat_text(n)),
        spec_nat_text(n).len() > 0,
        spec_digits_val(spec_nat_text(n)) == n,
    decreases n,
{
    if n < 10 {
        assert(seq![spec_digit_char(n as int)].drop_last() =~= Seq::<char>::empty());
        assert(seq![spec_digit_char(n as int)].last() == spec_digit_char(n as int));
        assert(spec_digits_val(Seq::<char>::empty()) == 0);
        assert(spec_digit_val(spec_digit_char(n as int)) == n);
        assert(spec_digits_val(seq![spec_digit_char(n as int)]) == n);
    } else {
        lemma_nat_text_round_trip(n / 10);
        assert(spec_nat_text(n).drop_last() =~= spec_nat_text(n / 10));
        assert(spec_nat_text(n).last() == spec_digit_char((n % 10) as int));
        assert(spec_digit_val(spec_digit_char((n % 10) as int)) == n % 10);
        assert(spec_digits_val(spec_nat_text(n)) == (n / 10) * 10 + n % 10);
        assert((n / 10) * 10 + n % 10 == n) by (nonlinear_arith);
        assert forall|i: int|
            0 <= i < spec_nat_text(n).len() implies spec_is_digit(
            #[trigger] spec_nat_text(n)[i],
        ) by {
            if i < spec_nat_text(n).len() - 1 {
                assert(spec_nat_text(n)[i] == spec_nat_text(n / 10)[i]);
            }
        }
    }
}


/// The first comma search lands on a comma none precedes.
proof fn lemma_first_comma_from(s: Seq<char>, i: int, k: int)
    requires
        0 <= i <= k < s.len(),
        s[k] == ',',
        forall|j: int| i <= j < k ==> s[j] != ',',
    ensures
        spec_first_comma(s, i) == k,
    decreases k - i,
{
    if i < k {
        lemma_first_comma_from(s, i + 1, k);
    }
}

/// Trimming a text without spaces changes nothing.
proof fn lemma_trim_id(s: Seq<char>)
    requires
        forall|j: int| 0 <= j < s.len() ==> s[j] != ' ',
    ensures
        spec_trim(s) == s,
{
    if s.len() > 0 {
        assert(spec_space_from(s, 0) == 0);
        assert(spec_space_back(s, s.len() as int) == s.len());
        assert(s.subrange(0, s.len() as int) =~= s);
    } else {
        assert(spec_trim(s) =~= s);
    }
}

/// Trimming a text with one leading space and none elsewhere drops
/// just that space.
proof fn lemma_trim_one_space(s: Seq<char>)
    requires
        s.len() > 1,
        s[0] == ' ',
        forall|j: int| 1 <= j < s.len() ==> s[j] != ' ',
    ensures
        spec_trim(s) == s.subrange(1, s.len() as int),
{
    assert(spec_space_from(s, 0) == spec_space_from(s, 1));
    assert(spec_space_from(s, 1) == 1);
    assert(spec_space_back(s, s.len() as int) == s.len());
}

/// The grammar's view of a two-value text: the comma is found between
/// the value texts, both parse, and the brackets choose the
/// constructor.
proof fn lemma_parse_two_values<T: NothingBetween + Bounded + ValueText>(l: T, u: T, b0: char, bl: char)
    requires
        b0 == '[' || b0 == '(',
        bl == ']' || bl == ')',
    ensures
        ({
            let txt = seq![b0] + l.text_spec() + seq![',', ' '] + u.text_spec() + seq![bl];
            Interval::<T>::spec_parse(txt) == (if b0 == '[' && bl == ']' {
                Ok::<Interval<T>, ParseError<ValueError>>(Interval::spec_new_closed_closed(l, u))
            } else if b0 == '[' && bl == ')' {
                Ok(Interval::spec_new_closed_open(l, u))
            } else if b0 == '(' && bl == ')' {
                Ok(Interval::spec_new_open_open(l, u))
            } else {
                Ok(Interval::spec_new_open_closed(l, u))
            })
        }),
{
    T::lemma_text_laws(l);
    T::lemma_text_laws(u);
    let lt = l.text_spec();
    let ut = u.text_spec();
    let txt = seq![b0] + lt + seq![',', ' '] + ut + seq![bl];
    let k = 1 + lt.len() as int;
    assert(txt[0] == b0);
    assert(txt[txt.len() - 1] == bl);
    assert(txt[k] == ',');
    assert(txt != seq!['e', 'm', 'p', 't', 'y']) by {
        if txt == seq!['e', 'm', 'p', 't', 'y'] {
            assert(txt[0] == 'e');
        }
    }
    assert forall|j: int| 0 <= j < k implies txt[j] != ',' by {
        if j >= 1 {
            assert(txt[j] == lt[j - 1]);
            assert(!spec_is_delimiter(lt[j - 1]));
        }
    }
    lemma_first_comma_from(txt, 0, k);
    assert(txt.subrange(1, k) =~= lt);
    lemma_trim_id(lt);
    let upart = txt.subrange(k + 1, txt.len() - 1);
    assert(upart =~= seq![' '] + ut);
    assert forall|j: int| 1 <= j < upart.len() implies upart[j] != ' ' by {
        assert(upart[j] == ut[j - 1]);
        assert(!spec_is_delimiter(ut[j - 1]));
    }
    lemma_trim_one_space(upart);
    assert(upart.subrange(1, upart.len() as int) =~= ut);
}

/// The grammar's view of a value-and-unbounded text.
proof fn lemma_parse_lower_value<T: NothingBetween + Bounded + ValueText>(l: T, b0: char, bl: char)
    requires
        b0 == '[' || b0 == '(',
        bl == ']' || bl == ')',
    ensures
        ({
            let txt = seq![b0] + l.text_spec() + seq![',', bl];
            Interval::<T>::spec_parse(txt) == (if b0 == '(' && bl == ')' {
                Ok::<Interval<T>, ParseError<ValueError>>(Interval::spec_new_open_unbounded(l))
            } else if b0 == '[' && bl == ')' {
                Ok(Interval::spec_new_closed_unbounded(l))
            } else {
                Err(ParseError::InvalidInput)
            })
        }),
{
    T::lemma_text_laws(l);
    let lt = l.text_spec();
    let txt = seq![b0] + lt + seq![',', bl];
    let k = 1 + lt.len() as int;
    assert(txt[0] == b0);
    assert(txt[txt.len() - 1] == bl);
    assert(txt[k] == ',');
    assert(txt != seq!['e', 'm', 'p', 't', 'y']) by {
        if txt == seq!['e', 'm', 'p', 't', 'y'] {
            assert(txt[0] == 'e');
        }
    }
    assert forall|j: int| 0 <= j < k implies txt[j] != ',' by {
        if j >= 1 {
            assert(txt[j] == lt[j - 1]);
            assert(!spec_is_delimiter(lt[j - 1]));
        }
    }
    lemma_first_comma_from(txt, 0, k);
    assert(txt.subrange(1, k) =~= lt);
    lemma_trim_id(lt);
    let upart = txt.subrange(k + 1, txt.len() - 1);
    assert(upart =~= Seq::<char>::empty());
    lemma_trim_id(upart);
}

/// The grammar's view of an unbounded-and-value text.
proof fn lemma_parse_upper_value<T: NothingBetween + Bounded + ValueText>(u: T, bl: char)
    requires
        bl == ']' || bl == ')',
    ensures
        ({
            let txt = seq!['(', ',', ' '] + u.text_spec() + seq![bl];
            Interval::<T>::spec_parse(txt) == (if bl == ')' {
                Ok::<Interval<T>, ParseError<ValueError>>(Interval::spec_new_unbounded_open(u))
            } else {
                Ok(Interval::spec_new_unbounded_closed(u))
            })
        }),
{
    T::lemma_text_laws(u);
    let ut = u.text_spec();
    let txt = seq!['(', ',', ' '] + ut + seq![bl];
    let k = 1int;
    assert(txt[0] == '(');
    assert(txt[txt.len() - 1] == bl);
    assert(txt[k] == ',');
    assert(txt != seq!['e', 'm', 'p', 't', 'y']) by {
        if txt == seq!['e', 'm', 'p', 't', 'y'] {
            assert(txt[0] == 'e');
        }
    }
    lemma_first_comma_from(txt, 0, k);
    assert(txt.subrange(1, k) =~= Seq::<char>::empty());
    lemma_trim_id(txt.subrange(1, k));
    let upart = txt.subrange(k + 1, txt.len() - 1);
    assert(upart =~= seq![' '] + ut);
    assert forall|j: int| 1 <= j < upart.len() implies upart[j] != ' ' by {
        assert(upart[j] == ut[j - 1]);
        assert(!spec_is_delimiter(ut[j - 1]));
    }
    lemma_trim_one_space(upart);
    assert(upart.subrange(1, upart.len() as int) =~= ut);
}

/// Rendering an interval and parsing the text back returns the very
/// same interval, for every interval the constructors can produce.
pub proof fn lemma_text_parse_round_trip<T: NothingBetween + Bounded + ValueText>(i: Interval<T>)
    requires
        i.wf(),
        Interval::<T>::spec_from_repr(i.spec_to_repr()) == i,
    ensures
        Interval::<T>::spec_parse(i.spec_text()) == Ok::<Interval<T>, ParseError<ValueError>>(i),
{
    match (i.lower, i.upper) {
        (Bound::RightUnbounded, _) => {
            assert(i.spec_text() == seq!['e', 'm', 'p', 't', 'y']);
        }
        (_, Bound::LeftUnbounded) => {
            assert(i.spec_text() == seq!['e', 'm', 'p', 't', 'y']);
        }
        (Bound::LeftOf(l), Bound::LeftOf(u)) => {
            lemma_parse_two_values::<T>(l, u, '[', ')');
        }
        (Bound::LeftOf(l), Bound::RightOf(u)) => {
            lemma_parse_two_values::<T>(l, u, '[', ']');
        }
        (Bound::LeftOf(l), Bound::RightUnbounded) => {
            lemma_parse_lower_value::<T>(l, '[', ')');
        }
        (Bound::LeftUnbounded, Bound::RightUnbounded) => {
            let txt = i.spec_text();
            assert(txt == seq!['(', ',', ')']);
            assert(txt != seq!['e', 'm', 'p', 't', 'y']) by {
                if txt == seq!['e', 'm', 'p', 't', 'y'] {
                    assert(txt[0] == 'e');
                }
            }
            lemma_first_comma_from(txt, 0, 1);
            assert(txt.subrange(1, 1) =~= Seq::<char>::empty());
            assert(txt.subrange(2, 2) =~= Seq::<char>::empty());
            lemma_trim_id(Seq::<char>::empty());
        }
        (Bound::LeftUnbounded, Bound::LeftOf(u)) => {
            lemma_parse_upper_value::<T>(u, ')');
        }
        (Bound::LeftUnbounded, Bound::RightOf(u)) => {
            lemma_parse_upper_value::<T>(u, ']');
        }
        (Bound::RightOf(l), Bound::LeftOf(u)) => {
            lemma_parse_two_values::<T>(l, u, '(', ')');
        }
        (Bound::RightOf(l), Bound::RightOf(u)) => {
            lemma_parse_two_values::<T>(l, u, '(', ']');
        }
        (Bound::RightOf(l), Bound::RightUnbounded) => {
            lemma_parse_lower_value::<T>(l, '(', ')');
        }
    }
}

} // verus!
