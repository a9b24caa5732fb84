//! Linear day counts: the same supported days, counted from four different
//! epochs. Each type spans exactly 9'496'301 days, from SAC13 `A000-01-01` to
//! `Z999-13-29`.

use crate::euclid::floor_mod;
use crate::model::number_order;
use crate::text::integer_text;
use crate::text::push_integer;
use crate::traits::CalendarDate;
use crate::weekday::Weekday;
use core::cmp::Ordering;
use vstd::prelude::*;
use vstd::std_specs::cmp::PartialOrdSpecImpl;

verus! {

/// Days since the Unix Epoch. 1970-01-01 (Gregorian) is day zero.
///
/// A Unix Day is the count of whole days, not a Unix timestamp in seconds
/// or milliseconds.
#[derive(Clone, Copy, PartialEq, Eq, Ord, Hash, Debug, Structural)]
pub struct UnixDay(i32);

impl View for UnixDay {
    type V = int;

    /// The day count.
    closed spec fn view(&self) -> int {
        self.0 as int
    }
}

impl UnixDay {
    /// Earliest representable day (in its native integer type).
    pub const MIN_INT: i32 = -4371872;

    /// Latest representable day (in its native integer type).
    pub const MAX_INT: i32 = Self::MIN_INT + 9496300;

    /// What is added to the day count to get the Julian Day Number.
    pub const JULIAN_OFFSET: i32 = -1931284 - Self::MIN_INT;

    /// Every day count lies between the earliest and the latest.
    #[verifier::type_invariant]
    pub open spec fn valid(self) -> bool {
        Self::MIN_INT <= self@ <= Self::MAX_INT
    }

    /// Two values with the same day count are the same value.
    pub proof fn lemma_view_injective(a: UnixDay, b: UnixDay)
        requires
            a@ == b@,
        ensures
            a == b,
    {
    }

    /// Earliest representable day.
    pub fn min_value() -> (r: UnixDay)
        ensures
            r@ == Self::MIN_INT,
    {
        UnixDay(Self::MIN_INT)
    }

    /// Latest representable day.
    pub fn max_value() -> (r: UnixDay)
        ensures
            r@ == Self::MAX_INT,
    {
        UnixDay(Self::MAX_INT)
    }

    /// Creates a new day count; `None` unless the value is between
    /// `MIN_INT` (A000-01-01) and `MAX_INT` (Z999-13-29).
    pub fn new(value: i32) -> (r: Option<UnixDay>)
        ensures
            r is Some <==> Self::MIN_INT <= value <= Self::MAX_INT,
            r matches Some(d) ==> d@ == value,
    {
        if value >= Self::MIN_INT && value <= Self::MAX_INT {
            Some(UnixDay(value))
        } else {
            None
        }
    }

    /// Returns the underlying integer value.
    pub fn value(&self) -> (r: i32)
        ensures
            r == self@,
            Self::MIN_INT <= r <= Self::MAX_INT,
    {
        proof {
            use_type_invariant(self);
        }
        self.0
    }

    /// Returns the next day; `None` if it is outside the valid SAC13 range.
    pub fn tomorrow(&self) -> (r: Option<UnixDay>)
        ensures
            r is Some <==> self@ < Self::MAX_INT,
            r matches Some(d) ==> d@ == self@ + 1,
    {
        proof {
            use_type_invariant(self);
        }
        if self.0 < Self::MAX_INT {
            Some(UnixDay(self.0 + 1))
        } else {
            None
        }
    }

    /// Returns the previous day; `None` if it is outside the valid SAC13
    /// range.
    pub fn yesterday(&self) -> (r: Option<UnixDay>)
        ensures
            r is Some <==> self@ > Self::MIN_INT,
            r matches Some(d) ==> d@ == self@ - 1,
    {
        proof {
            use_type_invariant(self);
        }
        if self.0 > Self::MIN_INT {
            Some(UnixDay(self.0 - 1))
        } else {
            None
        }
    }
}

impl UnixDay {
    /// The day count written in decimal.
    pub fn to_string(&self) -> (r: String)
        ensures
            r@ == integer_text(self@),
    {
        proof {
            use_type_invariant(self);
        }
        let mut s = String::new();
        push_integer(&mut s, self.0);
        assert(s@ =~= integer_text(self@));
        s
    }
}

impl PartialOrd for UnixDay {
    /// Day counts are ordered as the days are.
    fn partial_cmp(&self, other: &UnixDay) -> (r: Option<Ordering>) {
        Some(
            if self.0 < other.0 {
                Ordering::Less
            } else if self.0 > other.0 {
                Ordering::Greater
            } else {
                Ordering::Equal
            },
        )
    }
}

impl PartialOrdSpecImpl for UnixDay {
    open spec fn obeys_partial_cmp_spec() -> bool {
        true
    }

    open spec fn partial_cmp_spec(&self, other: &UnixDay) -> Option<Ordering> {
        Some(number_order(self@, other@))
    }
}

impl CalendarDate for UnixDay {
    open spec fn is_valid(&self) -> bool {
        self.valid()
    }

    open spec fn julian(&self) -> int {
        self@ + Self::JULIAN_OFFSET
    }

    closed spec fn of_julian(j: int) -> UnixDay {
        UnixDay((j - Self::JULIAN_OFFSET) as i32)
    }

    proof fn lemma_of_julian(j: int) {
    }

    proof fn lemma_julian(self) {
        assert(self.is_valid());
    }

    fn min_value() -> (r: UnixDay)
        ensures
            r@ == Self::MIN_INT,
    {
        UnixDay(Self::MIN_INT)
    }

    fn max_value() -> (r: UnixDay)
        ensures
            r@ == Self::MAX_INT,
    {
        UnixDay(Self::MAX_INT)
    }

    fn as_julian(&self) -> (j: i32) {
        proof {
            use_type_invariant(self);
            assert(self.is_valid());
        }
        self.0 + Self::JULIAN_OFFSET
    }

    fn from_julian(value: i32) -> (r: Option<UnixDay>) {
        if value < JulianDay::MIN_INT || value > JulianDay::MAX_INT {
            None
        } else {
            Some(UnixDay(value - Self::JULIAN_OFFSET))
        }
    }
}

/// Julian Day Number. Day count since the beginning of the Julian period.
#[derive(Clone, Copy, PartialEq, Eq, Ord, Hash, Debug, Structural)]
pub struct JulianDay(i32);

impl View for JulianDay {
    type V = int;

    /// The day count.
    closed spec fn view(&self) -> int {
        self.0 as int
    }
}

impl JulianDay {
    /// Earliest representable day (in its native integer type).
    pub const MIN_INT: i32 = -1931284;

    /// Latest representable day (in its native integer type).
    pub const MAX_INT: i32 = Self::MIN_INT + 9496300;

    /// What is added to the day count to get the Julian Day Number.
    pub const JULIAN_OFFSET: i32 = -1931284 - Self::MIN_INT;

    /// Every day count lies between the earliest and the latest.
    #[verifier::type_invariant]
    pub open spec fn valid(self) -> bool {
        Self::MIN_INT <= self@ <= Self::MAX_INT
    }

    /// Two values with the same day count are the same value.
    pub proof fn lemma_view_injective(a: JulianDay, b: JulianDay)
        requires
            a@ == b@,
        ensures
            a == b,
    {
    }

    /// Earliest representable day.
    pub fn min_value() -> (r: JulianDay)
        ensures
            r@ == Self::MIN_INT,
    {
        JulianDay(Self::MIN_INT)
    }

    /// Latest representable day.
    pub fn max_value() -> (r: JulianDay)
        ensures
            r@ == Self::MAX_INT,
    {
        JulianDay(Self::MAX_INT)
    }

    /// Creates a new day count; `None` unless the value is between
    /// `MIN_INT` (A000-01-01) and `MAX_INT` (Z999-13-29).
    pub fn new(value: i32) -> (r: Option<JulianDay>)
        ensures
            r is Some <==> Self::MIN_INT <= value <= Self::MAX_INT,
            r matches Some(d) ==> d@ == value,
    {
        if value >= Self::MIN_INT && value <= Self::MAX_INT {
            Some(JulianDay(value))
        } else {
            None
        }
    }

    /// Returns the underlying integer value.
    pub fn value(&self) -> (r: i32)
        ensures
            r == self@,
            Self::MIN_INT <= r <= Self::MAX_INT,
    {
        proof {
            use_type_invariant(self);
        }
        self.0
    }

    /// Returns the next day; `None` if it is outside the valid SAC13 range.
    pub fn tomorrow(&self) -> (r: Option<JulianDay>)
        ensures
            r is Some <==> self@ < Self::MAX_INT,
            r matches Some(d) ==> d@ == self@ + 1,
    {
        proof {
            use_type_invariant(self);
        }
        if self.0 < Self::MAX_INT {
            Some(JulianDay(self.0 + 1))
        } else {
            None
        }
    }

    /// Returns the previous day; `None` if it is outside the valid SAC13
    /// range.
    pub fn yesterday(&self) -> (r: Option<JulianDay>)
        ensures
            r is Some <==> self@ > Self::MIN_INT,
            r matches Some(d) ==> d@ == self@ - 1,
    {
        proof {
            use_type_invariant(self);
        }
        if self.0 > Self::MIN_INT {
            Some(JulianDay(self.0 - 1))
        } else {
            None
        }
    }
}

impl JulianDay {
    /// The day count written in decimal.
    pub fn to_string(&self) -> (r: String)
        ensures
            r@ == integer_text(self@),
    {
        proof {
            use_type_invariant(self);
        }
        let mut s = String::new();
        push_integer(&mut s, self.0);
        assert(s@ =~= integer_text(self@));
        s
    }
}

impl PartialOrd for JulianDay {
    /// Day counts are ordered as the days are.
    fn partial_cmp(&self, other: &JulianDay) -> (r: Option<Ordering>) {
        Some(
            if self.0 < other.0 {
                Ordering::Less
            } else if self.0 > other.0 {
                Ordering::Greater
            } else {
                Ordering::Equal
            },
        )
    }
}

impl PartialOrdSpecImpl for JulianDay {
    open spec fn obeys_partial_cmp_spec() -> bool {
        true
    }

    open spec fn partial_cmp_spec(&self, other: &JulianDay) -> Option<Ordering> {
        Some(number_order(self@, other@))
    }
}

impl CalendarDate for JulianDay {
    open spec fn is_valid(&self) -> bool {
        self.valid()
    }

    open spec fn julian(&self) -> int {
        self@ + Self::JULIAN_OFFSET
    }

    closed spec fn of_julian(j: int) -> JulianDay {
        JulianDay((j - Self::JULIAN_OFFSET) as i32)
    }

    proof fn lemma_of_julian(j: int) {
    }

    proof fn lemma_julian(self) {
        assert(self.is_valid());
    }

    fn min_value() -> (r: JulianDay)
        ensures
            r@ == Self::MIN_INT,
    {
        JulianDay(Self::MIN_INT)
    }

    fn max_value() -> (r: JulianDay)
        ensures
            r@ == Self::MAX_INT,
    {
        JulianDay(Self::MAX_INT)
    }

    fn as_julian(&self) -> (j: i32) {
        proof {
            use_type_invariant(self);
            assert(self.is_valid());
        }
        self.0 + Self::JULIAN_OFFSET
    }

    fn from_julian(value: i32) -> (r: Option<JulianDay>) {
        if value < JulianDay::MIN_INT || value > JulianDay::MAX_INT {
            None
        } else {
            Some(JulianDay(value - Self::JULIAN_OFFSET))
        }
    }
}

/// SAC13 Year Cycle Epoch Day Number.
///
/// Day count since the beginning of the first SAC13 leap cycle.
#[derive(Clone, Copy, PartialEq, Eq, Ord, Hash, Debug, Structural)]
pub struct CycleEpochDay(u32);

impl View for CycleEpochDay {
    type V = int;

    /// The day count.
    closed spec fn view(&self) -> int {
        self.0 as int
    }
}

impl CycleEpochDay {
    /// Earliest representable day (in its native integer type).
    pub const MIN_INT: u32 = 72683;

    /// Latest representable day (in its native integer type).
    pub const MAX_INT: u32 = Self::MIN_INT + 9496300;

    /// What is added to the day count to get the Julian Day Number.
    pub const JULIAN_OFFSET: i32 = -1931284 - 72683;

    /// Every day count lies between the earliest and the latest.
    #[verifier::type_invariant]
    pub open spec fn valid(self) -> bool {
        Self::MIN_INT <= self@ <= Self::MAX_INT
    }

    /// Two values with the same day count are the same value.
    pub proof fn lemma_view_injective(a: CycleEpochDay, b: CycleEpochDay)
        requires
            a@ == b@,
        ensures
            a == b,
    {
    }

    /// Earliest representable day.
    pub fn min_value() -> (r: CycleEpochDay)
        ensures
            r@ == Self::MIN_INT,
    {
        CycleEpochDay(Self::MIN_INT)
    }

    /// Latest representable day.
    pub fn max_value() -> (r: CycleEpochDay)
        ensures
            r@ == Self::MAX_INT,
    {
        CycleEpochDay(Self::MAX_INT)
    }

    /// Creates a new day count; `None` unless the value is between
    /// `MIN_INT` (A000-01-01) and `MAX_INT` (Z999-13-29).
    pub fn new(value: u32) -> (r: Option<CycleEpochDay>)
        ensures
            r is Some <==> Self::MIN_INT <= value <= Self::MAX_INT,
            r matches Some(d) ==> d@ == value,
    {
        if value >= Self::MIN_INT && value <= Self::MAX_INT {
            Some(CycleEpochDay(value))
        } else {
            None
        }
    }

    /// Returns the underlying integer value.
    pub fn value(&self) -> (r: u32)
        ensures
            r == self@,
            Self::MIN_INT <= r <= Self::MAX_INT,
    {
        proof {
            use_type_invariant(self);
        }
        self.0
    }

    /// Returns the next day; `None` if it is outside the valid SAC13 range.
    pub fn tomorrow(&self) -> (r: Option<CycleEpochDay>)
        ensures
            r is Some <==> self@ < Self::MAX_INT,
            r matches Some(d) ==> d@ == self@ + 1,
    {
        proof {
            use_type_invariant(self);
        }
        if self.0 < Self::MAX_INT {
            Some(CycleEpochDay(self.0 + 1))
        } else {
            None
        }
    }

    /// Returns the previous day; `None` if it is outside the valid SAC13
    /// range.
    pub fn yesterday(&self) -> (r: Option<CycleEpochDay>)
        ensures
            r is Some <==> self@ > Self::MIN_INT,
            r matches Some(d) ==> d@ == self@ - 1,
    {
        proof {
            use_type_invariant(self);
        }
        if self.0 > Self::MIN_INT {
            Some(CycleEpochDay(self.0 - 1))
        } else {
            None
        }
    }
}

impl CycleEpochDay {
    /// The day count written in decimal.
    pub fn to_string(&self) -> (r: String)
        ensures
            r@ == integer_text(self@),
    {
        proof {
            use_type_invariant(self);
        }
        let mut s = String::new();
        push_integer(&mut s, self.0 as i32);
        assert(s@ =~= integer_text(self@));
        s
    }
}

impl PartialOrd for CycleEpochDay {
    /// Day counts are ordered as the days are.
    fn partial_cmp(&self, other: &CycleEpochDay) -> (r: Option<Ordering>) {
        Some(
            if self.0 < other.0 {
                Ordering::Less
            } else if self.0 > other.0 {
                Ordering::Greater
            } else {
                Ordering::Equal
            },
        )
    }
}

impl PartialOrdSpecImpl for CycleEpochDay {
    open spec fn obeys_partial_cmp_spec() -> bool {
        true
    }

    open spec fn partial_cmp_spec(&self, other: &CycleEpochDay) -> Option<Ordering> {
        Some(number_order(self@, other@))
    }
}

impl CalendarDate for CycleEpochDay {
    open spec fn is_valid(&self) -> bool {
        self.valid()
    }

    open spec fn julian(&self) -> int {
        self@ + Self::JULIAN_OFFSET
    }

    closed spec fn of_julian(j: int) -> CycleEpochDay {
        CycleEpochDay((j - Self::JULIAN_OFFSET) as u32)
    }

    proof fn lemma_of_julian(j: int) {
    }

    proof fn lemma_julian(self) {
        assert(self.is_valid());
    }

    fn min_value() -> (r: CycleEpochDay)
        ensures
            r@ == Self::MIN_INT,
    {
        CycleEpochDay(Self::MIN_INT)
    }

    fn max_value() -> (r: CycleEpochDay)
        ensures
            r@ == Self::MAX_INT,
    {
        CycleEpochDay(Self::MAX_INT)
    }

    fn as_julian(&self) -> (j: i32) {
        proof {
            use_type_invariant(self);
            assert(self.is_valid());
        }
        (self.0 as i32) + Self::JULIAN_OFFSET
    }

    fn from_julian(value: i32) -> (r: Option<CycleEpochDay>) {
        if value < JulianDay::MIN_INT || value > JulianDay::MAX_INT {
            None
        } else {
            Some(CycleEpochDay((value - Self::JULIAN_OFFSET) as u32))
        }
    }
}

/// SAC13 Day Number. Days since A000-01-01.
#[derive(Clone, Copy, PartialEq, Eq, Ord, Hash, Debug, Structural)]
pub struct Sac13Day(u32);

impl View for Sac13Day {
    type V = int;

    /// The day count.
    closed spec fn view(&self) -> int {
        self.0 as int
    }
}

impl Sac13Day {
    /// Earliest representable day (in its native integer type).
    pub const MIN_INT: u32 = 0;

    /// Latest representable day (in its native integer type).
    pub const MAX_INT: u32 = Self::MIN_INT + 9496300;

    /// What is added to the day count to get the Julian Day Number.
    pub const JULIAN_OFFSET: i32 = -1931284 - 0;

    /// Every day count lies between the earliest and the latest.
    #[verifier::type_invariant]
    pub open spec fn valid(self) -> bool {
        Self::MIN_INT <= self@ <= Self::MAX_INT
    }

    /// Two values with the same day count are the same value.
    pub proof fn lemma_view_injective(a: Sac13Day, b: Sac13Day)
        requires
            a@ == b@,
        ensures
            a == b,
    {
    }

    /// Earliest representable day.
    pub fn min_value() -> (r: Sac13Day)
        ensures
            r@ == Self::MIN_INT,
    {
        Sac13Day(Self::MIN_INT)
    }

    /// Latest representable day.
    pub fn max_value() -> (r: Sac13Day)
        ensures
            r@ == Self::MAX_INT,
    {
        Sac13Day(Self::MAX_INT)
    }

    /// Creates a new day count; `None` unless the value is between
    /// `MIN_INT` (A000-01-01) and `MAX_INT` (Z999-13-29).
    pub fn new(value: u32) -> (r: Option<Sac13Day>)
        ensures
            r is Some <==> Self::MIN_INT <= value <= Self::MAX_INT,
            r matches Some(d) ==> d@ == value,
    {
        if value >= Self::MIN_INT && value <= Self::MAX_INT {
            Some(Sac13Day(value))
        } else {
            None
        }
    }

    /// Returns the underlying integer value.
    pub fn value(&self) -> (r: u32)
        ensures
            r == self@,
            Self::MIN_INT <= r <= Self::MAX_INT,
    {
        proof {
            use_type_invariant(self);
        }
        self.0
    }

    /// Returns the next day; `None` if it is outside the valid SAC13 range.
    pub fn tomorrow(&self) -> (r: Option<Sac13Day>)
        ensures
            r is Some <==> self@ < Self::MAX_INT,
            r matches Some(d) ==> d@ == self@ + 1,
    {
        proof {
            use_type_invariant(self);
        }
        if self.0 < Self::MAX_INT {
            Some(Sac13Day(self.0 + 1))
        } else {
            None
        }
    }

    /// Returns the previous day; `None` if it is outside the valid SAC13
    /// range.
    pub fn yesterday(&self) -> (r: Option<Sac13Day>)
        ensures
            r is Some <==> self@ > Self::MIN_INT,
            r matches Some(d) ==> d@ == self@ - 1,
    {
        proof {
            use_type_invariant(self);
        }
        if self.0 > Self::MIN_INT {
            Some(Sac13Day(self.0 - 1))
        } else {
            None
        }
    }
}

impl Sac13Day {
    /// The day count written in decimal.
    pub fn to_string(&self) -> (r: String)
        ensures
            r@ == integer_text(self@),
    {
        proof {
            use_type_invariant(self);
        }
        let mut s = String::new();
        push_integer(&mut s, self.0 as i32);
        assert(s@ =~= integer_text(self@));
        s
    }
}

impl PartialOrd for Sac13Day {
    /// Day counts are ordered as the days are.
    fn partial_cmp(&self, other: &Sac13Day) -> (r: Option<Ordering>) {
        Some(
            if self.0 < other.0 {
                Ordering::Less
            } else if self.0 > other.0 {
                Ordering::Greater
            } else {
                Ordering::Equal
            },
        )
    }
}

impl PartialOrdSpecImpl for Sac13Day {
    open spec fn obeys_partial_cmp_spec() -> bool {
        true
    }

    open spec fn partial_cmp_spec(&self, other: &Sac13Day) -> Option<Ordering> {
        Some(number_order(self@, other@))
    }
}

impl CalendarDate for Sac13Day {
    open spec fn is_valid(&self) -> bool {
        self.valid()
    }

    open spec fn julian(&self) -> int {
        self@ + Self::JULIAN_OFFSET
    }

    closed spec fn of_julian(j: int) -> Sac13Day {
        Sac13Day((j - Self::JULIAN_OFFSET) as u32)
    }

    proof fn lemma_of_julian(j: int) {
    }

    proof fn lemma_julian(self) {
        assert(self.is_valid());
    }

    fn min_value() -> (r: Sac13Day)
        ensures
            r@ == Self::MIN_INT,
    {
        Sac13Day(Self::MIN_INT)
    }

    fn max_value() -> (r: Sac13Day)
        ensures
            r@ == Self::MAX_INT,
    {
        Sac13Day(Self::MAX_INT)
    }

    fn as_julian(&self) -> (j: i32) {
        proof {
            use_type_invariant(self);
            assert(self.is_valid());
        }
        (self.0 as i32) + Self::JULIAN_OFFSET
    }

    fn from_julian(value: i32) -> (r: Option<Sac13Day>) {
        if value < JulianDay::MIN_INT || value > JulianDay::MAX_INT {
            None
        } else {
            Some(Sac13Day((value - Self::JULIAN_OFFSET) as u32))
        }
    }
}

impl JulianDay {
    /// The day of the Gregorian week on which the day falls. Julian Day
    /// Number zero is a Monday.
    pub fn weekday(self) -> (r: Weekday)
        ensures
            r == Weekday::from_index(self@ % 7),
    {
        let m: i32 = floor_mod(self.0, 7);
        if m == 0 {
            Weekday::Monday
        } else if m == 1 {
            Weekday::Tuesday
        } else if m == 2 {
            Weekday::Wednesday
        } else if m == 3 {
            Weekday::Thursday
        } else if m == 4 {
            Weekday::Friday
        } else if m == 5 {
            Weekday::Saturday
        } else {
            Weekday::Sunday
        }
    }
}

} // verus!
