//! The SAC13 year.

use crate::ascii::is_digit;
use crate::ascii::is_upper;
use crate::ascii::lemma_ascii_bytes;
use crate::ascii::DIGIT_0;
use crate::ascii::DIGIT_9;
use crate::ascii::UPPER_A;
use crate::ascii::UPPER_Z;
use crate::cycle::is_leap;
use crate::cycle::year_len;
use crate::model::number_order;
use crate::text::push_year;
use crate::text::year_text;
use crate::YearType;
use core::cmp::Ordering;
use vstd::prelude::*;
use vstd::std_specs::cmp::PartialOrdSpecImpl;
use vstd::string::*;
use vstd::utf8::encode_utf8;

verus! {

/// The year written by a millennium letter and three digits, if the four
/// bytes are of that form.
pub open spec fn year_digits_value(d0: u8, d1: u8, d2: u8, d3: u8) -> Option<int> {
    if is_upper(d0) && is_digit(d1) && is_digit(d2) && is_digit(d3) {
        Some((d0 - UPPER_A) * 1000 + (d1 - DIGIT_0) * 100 + (d2 - DIGIT_0) * 10 + (d3 - DIGIT_0))
    } else {
        None
    }
}

/// The year that a text stands for: exactly four bytes, a millennium letter
/// from `A` to `Z` and three digits.
pub open spec fn year_text_value(text: Seq<u8>) -> Option<int> {
    if text.len() == 4 {
        year_digits_value(text[0], text[1], text[2], text[3])
    } else {
        None
    }
}

/// Reading undoes writing: the written form of a year stands for that year.
pub proof fn lemma_year_text_round_trip(y: int)
    requires
        0 <= y <= 25999,
    ensures
        year_text_value(encode_utf8(year_text(y))) == Some(y),
{
    let text = year_text(y);
    lemma_ascii_bytes(text);
    assert(text.len() == 4);
    assert(text[0] == crate::text::letter_char(y / 1000));
    assert(text[1] == crate::text::digit_char(y % 1000 / 100));
    assert(text[2] == crate::text::digit_char(y % 1000 / 10 % 10));
    assert(text[3] == crate::text::digit_char(y % 1000 % 10));
}

/// SAC13 year, from 0 to 25'999 (both inclusive). It roughly corresponds to
/// the Gregorian year plus 10'000; roughly, because the SAC13 year starts
/// with March.
///
/// Years are written with a millennium letter (A = 0, ..., Z = 25) and three
/// digits: the year 12'020 is `M020`.
#[derive(Clone, Copy, PartialEq, Eq, Ord, Hash, Debug, Structural)]
pub struct Year(u16);

impl View for Year {
    type V = int;

    /// The number of the year.
    closed spec fn view(&self) -> int {
        self.0 as int
    }
}

impl Year {
    /// Earliest representable year, as an integer.
    pub const MIN_INT: u16 = 0;

    /// Latest representable year, as an integer.
    pub const MAX_INT: u16 = 25999;

    /// Every year lies between the earliest and the latest year.
    #[verifier::type_invariant]
    pub open spec fn valid(self) -> bool {
        Self::MIN_INT <= self@ <= Self::MAX_INT
    }

    /// Two years with the same number are the same year.
    pub proof fn lemma_view_injective(a: Year, b: Year)
        requires
            a@ == b@,
        ensures
            a == b,
    {
    }

    /// The year with the given number.
    pub closed spec fn of_int(v: int) -> Year {
        Year(v as u16)
    }

    /// A year made from a 16-bit number has that number.
    pub proof fn lemma_of_int(v: int)
        requires
            0 <= v <= u16::MAX,
        ensures
            Year::of_int(v)@ == v,
    {
    }

    /// A year is found again from its number.
    pub proof fn lemma_of_int_of_view(self)
        ensures
            Year::of_int(self@) == self,
    {
    }

    /// Earliest representable year.
    pub fn min_value() -> (r: Year)
        ensures
            r@ == Self::MIN_INT,
    {
        Year(Self::MIN_INT)
    }

    /// Latest representable year.
    pub fn max_value() -> (r: Year)
        ensures
            r@ == Self::MAX_INT,
    {
        Year(Self::MAX_INT)
    }

    /// Creates a new year; `None` unless the value is between `MIN_INT` and
    /// `MAX_INT`.
    pub fn new(value: u16) -> (r: Option<Year>)
        ensures
            r is Some <==> Self::MIN_INT <= value <= Self::MAX_INT,
            r matches Some(y) ==> y@ == value && y == Year::of_int(value as int),
    {
        if value >= Self::MIN_INT && value <= Self::MAX_INT {
            Some(Year(value))
        } else {
            None
        }
    }

    /// Returns the underlying integer value.
    pub fn value(&self) -> (r: u16)
        ensures
            r == self@,
            Self::MIN_INT <= r <= Self::MAX_INT,
    {
        proof {
            use_type_invariant(self);
        }
        self.0
    }

    /// Returns the next year; `None` after the latest year.
    pub fn next(&self) -> (r: Option<Year>)
        ensures
            r is Some <==> self@ < Self::MAX_INT,
            r matches Some(y) ==> y@ == self@ + 1,
    {
        proof {
            use_type_invariant(self);
        }
        if self.0 < Self::MAX_INT {
            Some(Year(self.0 + 1))
        } else {
            None
        }
    }

    /// Returns the previous year; `None` before the earliest year.
    pub fn previous(&self) -> (r: Option<Year>)
        ensures
            r is Some <==> self@ > Self::MIN_INT,
            r matches Some(y) ==> y@ == self@ - 1,
    {
        proof {
            use_type_invariant(self);
        }
        if self.0 > Self::MIN_INT {
            Some(Year(self.0 - 1))
        } else {
            None
        }
    }

    /// Returns the year given by a millennium letter and three ASCII digits.
    pub fn parse_year_digits(d0: u8, d1: u8, d2: u8, d3: u8) -> (r: Option<Year>)
        ensures
            r is Some <==> year_digits_value(d0, d1, d2, d3) is Some,
            r matches Some(y) ==> Some(y@) == year_digits_value(d0, d1, d2, d3),
    {
        if d0 < UPPER_A || d0 > UPPER_Z {
            return None;
        }
        if d1 < DIGIT_0 || d1 > DIGIT_9 {
            return None;
        }
        if d2 < DIGIT_0 || d2 > DIGIT_9 {
            return None;
        }
        if d3 < DIGIT_0 || d3 > DIGIT_9 {
            return None;
        }
        let m: u16 = (d0 - UPPER_A) as u16;
        let h: u16 = (d1 - DIGIT_0) as u16;
        let t: u16 = (d2 - DIGIT_0) as u16;
        let u: u16 = (d3 - DIGIT_0) as u16;
        Self::new(m * 1000 + h * 100 + t * 10 + u)
    }

    /// Reads a year from its written form: a millennium letter and three
    /// digits, as in `M024`.
    pub fn try_from_str(year: &str) -> (r: Option<Year>)
        ensures
            r is Some <==> year_text_value(year.spec_bytes()) is Some,
            r matches Some(y) ==> Some(y@) == year_text_value(year.spec_bytes()),
    {
        let year_bytes = year.as_bytes();
        if year_bytes.len() != 4 {
            return None;
        }
        Self::parse_year_digits(year_bytes[0], year_bytes[1], year_bytes[2], year_bytes[3])
    }

    /// The year as it is written: the millennium letter and three digits,
    /// as in `M020`.
    pub fn to_string(&self) -> (r: String)
        ensures
            r@ == year_text(self@),
    {
        proof {
            use_type_invariant(self);
        }
        let mut s = String::new();
        push_year(&mut s, self.0);
        assert(s@ =~= year_text(self@));
        s
    }

    /// Returns the type of the year (leap year or common year).
    pub fn year_type(&self) -> (r: YearType)
        ensures
            r == (if is_leap(self@) {
                YearType::Leap
            } else {
                YearType::Common
            }),
    {
        proof {
            use_type_invariant(self);
        }
        if (self.0 + 199) % 293 % 33 % 4 == 1 {
            YearType::Leap
        } else {
            YearType::Common
        }
    }

    /// Whether the year is a leap year.
    pub fn is_leap(&self) -> (r: bool)
        ensures
            r == is_leap(self@),
    {
        matches!(self.year_type(), YearType::Leap)
    }

    /// Whether the year is a common year.
    pub fn is_common(&self) -> (r: bool)
        ensures
            r == !is_leap(self@),
    {
        matches!(self.year_type(), YearType::Common)
    }

    /// Returns the number of days the year has: 365 or 366.
    pub fn days(&self) -> (r: u16)
        ensures
            r == year_len(self@),
    {
        match self.year_type() {
            YearType::Common => 365,
            YearType::Leap => 366,
        }
    }
}

impl PartialOrd for Year {
    /// Years are ordered by their numbers.
    fn partial_cmp(&self, other: &Year) -> (r: Option<Ordering>) {
        Some(
            if self.0 < other.0 {
                Ordering::Less
            } else if self.0 > other.0 {
                Ordering::Greater
            } else {
                Ordering::Equal
            },
        )
    }
}

impl PartialOrdSpecImpl for Year {
    open spec fn obeys_partial_cmp_spec() -> bool {
        true
    }

    open spec fn partial_cmp_spec(&self, other: &Year) -> Option<Ordering> {
        Some(number_order(self@, other@))
    }
}

} // verus!
