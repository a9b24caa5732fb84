//! The thirteen months of the SAC13 year.

use crate::model::number_order;
use core::cmp::Ordering;
use vstd::prelude::*;
use vstd::std_specs::cmp::PartialOrdSpecImpl;
use vstd::string::*;

verus! {

/// A month of the SAC13 calendar.
///
/// The year starts with March, and a thirteenth month, Addenduary, follows
/// February.
#[derive(Clone, Copy, PartialEq, Eq, Debug, Ord, Hash, Structural)]
pub enum Month {
    March,
    April,
    May,
    June,
    July,
    August,
    September,
    October,
    November,
    December,
    January,
    February,
    Addenduary,
}

impl Month {
    /// The ordinal number of the month: March is 1, Addenduary is 13.
    pub open spec fn ord_spec(self) -> int {
        match self {
            Month::March => 1,
            Month::April => 2,
            Month::May => 3,
            Month::June => 4,
            Month::July => 5,
            Month::August => 6,
            Month::September => 7,
            Month::October => 8,
            Month::November => 9,
            Month::December => 10,
            Month::January => 11,
            Month::February => 12,
            Month::Addenduary => 13,
        }
    }

    /// The month with the given ordinal number, for ordinals from 1 to 13.
    pub open spec fn from_ord(m: int) -> Month
        recommends
            1 <= m <= 13,
    {
        if m == 1 {
            Month::March
        } else if m == 2 {
            Month::April
        } else if m == 3 {
            Month::May
        } else if m == 4 {
            Month::June
        } else if m == 5 {
            Month::July
        } else if m == 6 {
            Month::August
        } else if m == 7 {
            Month::September
        } else if m == 8 {
            Month::October
        } else if m == 9 {
            Month::November
        } else if m == 10 {
            Month::December
        } else if m == 11 {
            Month::January
        } else if m == 12 {
            Month::February
        } else {
            Month::Addenduary
        }
    }

    /// The English name of the month.
    pub open spec fn name_spec(self) -> Seq<char> {
        match self {
            Month::March => "March"@,
            Month::April => "April"@,
            Month::May => "May"@,
            Month::June => "June"@,
            Month::July => "July"@,
            Month::August => "August"@,
            Month::September => "September"@,
            Month::October => "October"@,
            Month::November => "November"@,
            Month::December => "December"@,
            Month::January => "January"@,
            Month::February => "February"@,
            Month::Addenduary => "Addenduary"@,
        }
    }

    /// Ordinals and months correspond one to one.
    pub proof fn lemma_ord_round_trip(m: int)
        requires
            1 <= m <= 13,
        ensures
            Month::from_ord(m).ord_spec() == m,
    {
    }

    /// A month is found again from its ordinal.
    pub proof fn lemma_from_ord_of_ord(self)
        ensures
            1 <= self.ord_spec() <= 13,
            Month::from_ord(self.ord_spec()) == self,
    {
    }

    /// Month from its ordinal number; `None` unless the ordinal is from 1 to 13.
    pub fn new(m: u8) -> (r: Option<Month>)
        ensures
            r == (if 1 <= m <= 13 {
                Some(Month::from_ord(m as int))
            } else {
                None
            }),
    {
        Some(
            match m {
                1 => Month::March,
                2 => Month::April,
                3 => Month::May,
                4 => Month::June,
                5 => Month::July,
                6 => Month::August,
                7 => Month::September,
                8 => Month::October,
                9 => Month::November,
                10 => Month::December,
                11 => Month::January,
                12 => Month::February,
                13 => Month::Addenduary,
                _ => return None,
            },
        )
    }

    /// The ordinal number of the month.
    pub fn ord(self) -> (r: u8)
        ensures
            r == self.ord_spec(),
    {
        match self {
            Month::March => 1,
            Month::April => 2,
            Month::May => 3,
            Month::June => 4,
            Month::July => 5,
            Month::August => 6,
            Month::September => 7,
            Month::October => 8,
            Month::November => 9,
            Month::December => 10,
            Month::January => 11,
            Month::February => 12,
            Month::Addenduary => 13,
        }
    }

    /// The month that follows; March follows Addenduary.
    pub fn next(self) -> (r: Month)
        ensures
            r.ord_spec() == self.ord_spec() % 13 + 1,
    {
        match self {
            Month::March => Month::April,
            Month::April => Month::May,
            Month::May => Month::June,
            Month::June => Month::July,
            Month::July => Month::August,
            Month::August => Month::September,
            Month::September => Month::October,
            Month::October => Month::November,
            Month::November => Month::December,
            Month::December => Month::January,
            Month::January => Month::February,
            Month::February => Month::Addenduary,
            Month::Addenduary => Month::March,
        }
    }

    /// The month before; Addenduary comes before March.
    pub fn previous(self) -> (r: Month)
        ensures
            r.ord_spec() == (self.ord_spec() + 11) % 13 + 1,
    {
        match self {
            Month::March => Month::Addenduary,
            Month::April => Month::March,
            Month::May => Month::April,
            Month::June => Month::May,
            Month::July => Month::June,
            Month::August => Month::July,
            Month::September => Month::August,
            Month::October => Month::September,
            Month::November => Month::October,
            Month::December => Month::November,
            Month::January => Month::December,
            Month::February => Month::January,
            Month::Addenduary => Month::February,
        }
    }

    /// Full English name of the month.
    pub fn name(self) -> (r: &'static str)
        ensures
            r@ == self.name_spec(),
    {
        match self {
            Month::March => "March",
            Month::April => "April",
            Month::May => "May",
            Month::June => "June",
            Month::July => "July",
            Month::August => "August",
            Month::September => "September",
            Month::October => "October",
            Month::November => "November",
            Month::December => "December",
            Month::January => "January",
            Month::February => "February",
            Month::Addenduary => "Addenduary",
        }
    }

    /// The name as an owned string.
    pub fn to_string(self) -> (r: String)
        ensures
            r@ == self.name_spec(),
    {
        self.name().to_owned()
    }
}

impl PartialOrd for Month {
    /// Months are ordered as they follow each other in the year, from March
    /// to Addenduary.
    fn partial_cmp(&self, other: &Month) -> (r: Option<Ordering>) {
        let a = self.ord();
        let b = other.ord();
        Some(
            if a < b {
                Ordering::Less
            } else if a > b {
                Ordering::Greater
            } else {
                Ordering::Equal
            },
        )
    }
}

impl PartialOrdSpecImpl for Month {
    open spec fn obeys_partial_cmp_spec() -> bool {
        true
    }

    open spec fn partial_cmp_spec(&self, other: &Month) -> Option<Ordering> {
        Some(number_order(self.ord_spec(), other.ord_spec()))
    }
}

} // verus!
