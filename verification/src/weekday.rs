//! The seven days of the Gregorian week.

use crate::model::number_order;
use core::cmp::Ordering;
use vstd::prelude::*;
use vstd::std_specs::cmp::PartialOrdSpecImpl;
use vstd::string::*;

verus! {

/// A day of the Gregorian week.
#[derive(Debug, Copy, Clone, PartialEq, Eq, Ord, Hash, Structural)]
pub enum Weekday {
    Monday,
    Tuesday,
    Wednesday,
    Thursday,
    Friday,
    Saturday,
    Sunday,
}

impl Weekday {
    /// The position of the day in the week: Monday is 0, Sunday is 6.
    pub open spec fn index_spec(self) -> int {
        match self {
            Weekday::Monday => 0,
            Weekday::Tuesday => 1,
            Weekday::Wednesday => 2,
            Weekday::Thursday => 3,
            Weekday::Friday => 4,
            Weekday::Saturday => 5,
            Weekday::Sunday => 6,
        }
    }

    /// The day at the given position in the week, for positions from 0 to 6.
    pub open spec fn from_index(i: int) -> Weekday
        recommends
            0 <= i <= 6,
    {
        if i == 0 {
            Weekday::Monday
        } else if i == 1 {
            Weekday::Tuesday
        } else if i == 2 {
            Weekday::Wednesday
        } else if i == 3 {
            Weekday::Thursday
        } else if i == 4 {
            Weekday::Friday
        } else if i == 5 {
            Weekday::Saturday
        } else {
            Weekday::Sunday
        }
    }

    /// The English name of the day.
    pub open spec fn name_spec(self) -> Seq<char> {
        match self {
            Weekday::Monday => "Monday"@,
            Weekday::Tuesday => "Tuesday"@,
            Weekday::Wednesday => "Wednesday"@,
            Weekday::Thursday => "Thursday"@,
            Weekday::Friday => "Friday"@,
            Weekday::Saturday => "Saturday"@,
            Weekday::Sunday => "Sunday"@,
        }
    }

    /// The first two letters of the English name.
    pub open spec fn name_abr2_spec(self) -> Seq<char> {
        match self {
            Weekday::Monday => "Mo"@,
            Weekday::Tuesday => "Tu"@,
            Weekday::Wednesday => "We"@,
            Weekday::Thursday => "Th"@,
            Weekday::Friday => "Fr"@,
            Weekday::Saturday => "Sa"@,
            Weekday::Sunday => "Su"@,
        }
    }

    /// The first three letters of the English name.
    pub open spec fn name_abr3_spec(self) -> Seq<char> {
        match self {
            Weekday::Monday => "Mon"@,
            Weekday::Tuesday => "Tue"@,
            Weekday::Wednesday => "Wed"@,
            Weekday::Thursday => "Thu"@,
            Weekday::Friday => "Fri"@,
            Weekday::Saturday => "Sat"@,
            Weekday::Sunday => "Sun"@,
        }
    }

    /// Positions and days correspond one to one.
    pub proof fn lemma_index_round_trip(i: int)
        requires
            0 <= i <= 6,
        ensures
            Weekday::from_index(i).index_spec() == i,
    {
    }

    /// A day is found again from its position.
    pub proof fn lemma_from_index_of_index(self)
        ensures
            0 <= self.index_spec() <= 6,
            Weekday::from_index(self.index_spec()) == self,
    {
    }

    /// The position of the day in the week: Monday is 0, Sunday is 6.
    fn index(self) -> (r: u8)
        ensures
            r == self.index_spec(),
    {
        match self {
            Weekday::Monday => 0,
            Weekday::Tuesday => 1,
            Weekday::Wednesday => 2,
            Weekday::Thursday => 3,
            Weekday::Friday => 4,
            Weekday::Saturday => 5,
            Weekday::Sunday => 6,
        }
    }

    /// The international (English) name of the day of the week.
    pub fn name(self) -> (r: &'static str)
        ensures
            r@ == self.name_spec(),
    {
        match self {
            Weekday::Monday => "Monday",
            Weekday::Tuesday => "Tuesday",
            Weekday::Wednesday => "Wednesday",
            Weekday::Thursday => "Thursday",
            Weekday::Friday => "Friday",
            Weekday::Saturday => "Saturday",
            Weekday::Sunday => "Sunday",
        }
    }

    /// The two letter abbreviation: Mo, Tu, We, Th, Fr, Sa, Su.
    pub fn name_abr2(self) -> (r: &'static str)
        ensures
            r@ == self.name_abr2_spec(),
    {
        match self {
            Weekday::Monday => "Mo",
            Weekday::Tuesday => "Tu",
            Weekday::Wednesday => "We",
            Weekday::Thursday => "Th",
            Weekday::Friday => "Fr",
            Weekday::Saturday => "Sa",
            Weekday::Sunday => "Su",
        }
    }

    /// The three letter abbreviation: Mon, Tue, Wed, Thu, Fri, Sat, Sun.
    pub fn name_abr3(self) -> (r: &'static str)
        ensures
            r@ == self.name_abr3_spec(),
    {
        match self {
            Weekday::Monday => "Mon",
            Weekday::Tuesday => "Tue",
            Weekday::Wednesday => "Wed",
            Weekday::Thursday => "Thu",
            Weekday::Friday => "Fri",
            Weekday::Saturday => "Sat",
            Weekday::Sunday => "Sun",
        }
    }

    /// The next day of the week; Monday follows Sunday.
    pub fn next(self) -> (r: Weekday)
        ensures
            r.index_spec() == (self.index_spec() + 1) % 7,
    {
        match self {
            Weekday::Monday => Weekday::Tuesday,
            Weekday::Tuesday => Weekday::Wednesday,
            Weekday::Wednesday => Weekday::Thursday,
            Weekday::Thursday => Weekday::Friday,
            Weekday::Friday => Weekday::Saturday,
            Weekday::Saturday => Weekday::Sunday,
            Weekday::Sunday => Weekday::Monday,
        }
    }

    /// The previous day of the week; Sunday comes before Monday.
    pub fn previous(self) -> (r: Weekday)
        ensures
            r.index_spec() == (self.index_spec() + 6) % 7,
    {
        match self {
            Weekday::Monday => Weekday::Sunday,
            Weekday::Tuesday => Weekday::Monday,
            Weekday::Wednesday => Weekday::Tuesday,
            Weekday::Thursday => Weekday::Wednesday,
            Weekday::Friday => Weekday::Thursday,
            Weekday::Saturday => Weekday::Friday,
            Weekday::Sunday => Weekday::Saturday,
        }
    }

    /// The name as an owned string.
    pub fn to_string(self) -> (r: String)
        ensures
            r@ == self.name_spec(),
    {
        self.name().to_owned()
    }
}

impl PartialOrd for Weekday {
    /// The days are ordered as they follow each other in the week, from
    /// Monday to Sunday.
    fn partial_cmp(&self, other: &Weekday) -> (r: Option<Ordering>) {
        let a = self.index();
        let b = other.index();
        Some(
            if a < b {
                Ordering::Less
            } else if a > b {
                Ordering::Greater
            } else {
                Ordering::Equal
            },
        )
    }
}

impl PartialOrdSpecImpl for Weekday {
    open spec fn obeys_partial_cmp_spec() -> bool {
        true
    }

    open spec fn partial_cmp_spec(&self, other: &Weekday) -> Option<Ordering> {
        Some(number_order(self.index_spec(), other.index_spec()))
    }
}

} // verus!
