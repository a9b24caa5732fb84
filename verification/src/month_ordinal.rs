//! Conversions between months and their ordinal numbers, for every
//! primitive integer type.

use crate::month::Month;
use vstd::prelude::*;
use vstd::std_specs::convert::FromSpecImpl;
use vstd::std_specs::convert::TryFromSpecImpl;

verus! {

impl From<Month> for u8 {
    /// The ordinal number of the month.
    fn from(value: Month) -> (r: u8) {
        value.ord()
    }
}

impl FromSpecImpl<Month> for u8 {
    open spec fn obeys_from_spec() -> bool {
        true
    }

    open spec fn from_spec(value: Month) -> u8 {
        value.ord_spec() as u8
    }
}

impl TryFrom<u8> for Month {
    type Error = ();

    /// The month with the given ordinal number; an error unless it is from 1 to 13.
    fn try_from(value: u8) -> (r: Result<Month, ()>) {
        match Month::new(value) {
            Some(m) => Ok(m),
            None => Err(()),
        }
    }
}

impl TryFromSpecImpl<u8> for Month {
    open spec fn obeys_try_from_spec() -> bool {
        true
    }

    open spec fn try_from_spec(value: u8) -> Result<Month, ()> {
        if 1 <= value <= 13 {
            Ok(Month::from_ord(value as int))
        } else {
            Err(())
        }
    }
}

impl From<Month> for u16 {
    /// The ordinal number of the month.
    fn from(value: Month) -> (r: u16) {
        value.ord() as u16
    }
}

impl FromSpecImpl<Month> for u16 {
    open spec fn obeys_from_spec() -> bool {
        true
    }

    open spec fn from_spec(value: Month) -> u16 {
        value.ord_spec() as u16
    }
}

impl TryFrom<u16> for Month {
    type Error = ();

    /// The month with the given ordinal number; an error unless it is from 1 to 13.
    fn try_from(value: u16) -> (r: Result<Month, ()>) {
        if 1 <= value && value <= 13 {
            match Month::new(value as u8) {
                Some(m) => Ok(m),
                None => Err(()),
            }
        } else {
            Err(())
        }
    }
}

impl TryFromSpecImpl<u16> for Month {
    open spec fn obeys_try_from_spec() -> bool {
        true
    }

    open spec fn try_from_spec(value: u16) -> Result<Month, ()> {
        if 1 <= value <= 13 {
            Ok(Month::from_ord(value as int))
        } else {
            Err(())
        }
    }
}

impl From<Month> for u32 {
    /// The ordinal number of the month.
    fn from(value: Month) -> (r: u32) {
        value.ord() as u32
    }
}

impl FromSpecImpl<Month> for u32 {
    open spec fn obeys_from_spec() -> bool {
        true
    }

    open spec fn from_spec(value: Month) -> u32 {
        value.ord_spec() as u32
    }
}

impl TryFrom<u32> for Month {
    type Error = ();

    /// The month with the given ordinal number; an error unless it is from 1 to 13.
    fn try_from(value: u32) -> (r: Result<Month, ()>) {
        if 1 <= value && value <= 13 {
            match Month::new(value as u8) {
                Some(m) => Ok(m),
                None => Err(()),
            }
        } else {
            Err(())
        }
    }
}

impl TryFromSpecImpl<u32> for Month {
    open spec fn obeys_try_from_spec() -> bool {
        true
    }

    open spec fn try_from_spec(value: u32) -> Result<Month, ()> {
        if 1 <= value <= 13 {
            Ok(Month::from_ord(value as int))
        } else {
            Err(())
        }
    }
}

impl From<Month> for u64 {
    /// The ordinal number of the month.
    fn from(value: Month) -> (r: u64) {
        value.ord() as u64
    }
}

impl FromSpecImpl<Month> for u64 {
    open spec fn obeys_from_spec() -> bool {
        true
    }

    open spec fn from_spec(value: Month) -> u64 {
        value.ord_spec() as u64
    }
}

impl TryFrom<u64> for Month {
    type Error = ();

    /// The month with the given ordinal number; an error unless it is from 1 to 13.
    fn try_from(value: u64) -> (r: Result<Month, ()>) {
        if 1 <= value && value <= 13 {
            match Month::new(value as u8) {
                Some(m) => Ok(m),
                None => Err(()),
            }
        } else {
            Err(())
        }
    }
}

impl TryFromSpecImpl<u64> for Month {
    open spec fn obeys_try_from_spec() -> bool {
        true
    }

    open spec fn try_from_spec(value: u64) -> Result<Month, ()> {
        if 1 <= value <= 13 {
            Ok(Month::from_ord(value as int))
        } else {
            Err(())
        }
    }
}

impl From<Month> for u128 {
    /// The ordinal number of the month.
    fn from(value: Month) -> (r: u128) {
        value.ord() as u128
    }
}

impl FromSpecImpl<Month> for u128 {
    open spec fn obeys_from_spec() -> bool {
        true
    }

    open spec fn from_spec(value: Month) -> u128 {
        value.ord_spec() as u128
    }
}

impl TryFrom<u128> for Month {
    type Error = ();

    /// The month with the given ordinal number; an error unless it is from 1 to 13.
    fn try_from(value: u128) -> (r: Result<Month, ()>) {
        if 1 <= value && value <= 13 {
            match Month::new(value as u8) {
                Some(m) => Ok(m),
                None => Err(()),
            }
        } else {
            Err(())
        }
    }
}

impl TryFromSpecImpl<u128> for Month {
    open spec fn obeys_try_from_spec() -> bool {
        true
    }

    open spec fn try_from_spec(value: u128) -> Result<Month, ()> {
        if 1 <= value <= 13 {
            Ok(Month::from_ord(value as int))
        } else {
            Err(())
        }
    }
}

impl From<Month> for i8 {
    /// The ordinal number of the month.
    fn from(value: Month) -> (r: i8) {
        value.ord() as i8
    }
}

impl FromSpecImpl<Month> for i8 {
    open spec fn obeys_from_spec() -> bool {
        true
    }

    open spec fn from_spec(value: Month) -> i8 {
        value.ord_spec() as i8
    }
}

impl TryFrom<i8> for Month {
    type Error = ();

    /// The month with the given ordinal number; an error unless it is from 1 to 13.
    fn try_from(value: i8) -> (r: Result<Month, ()>) {
        if 1 <= value && value <= 13 {
            match Month::new(value as u8) {
                Some(m) => Ok(m),
                None => Err(()),
            }
        } else {
            Err(())
        }
    }
}

impl TryFromSpecImpl<i8> for Month {
    open spec fn obeys_try_from_spec() -> bool {
        true
    }

    open spec fn try_from_spec(value: i8) -> Result<Month, ()> {
        if 1 <= value <= 13 {
            Ok(Month::from_ord(value as int))
        } else {
            Err(())
        }
    }
}

impl From<Month> for i16 {
    /// The ordinal number of the month.
    fn from(value: Month) -> (r: i16) {
        value.ord() as i16
    }
}

impl FromSpecImpl<Month> for i16 {
    open spec fn obeys_from_spec() -> bool {
        true
    }

    open spec fn from_spec(value: Month) -> i16 {
        value.ord_spec() as i16
    }
}

impl TryFrom<i16> for Month {
    type Error = ();

    /// The month with the given ordinal number; an error unless it is from 1 to 13.
    fn try_from(value: i16) -> (r: Result<Month, ()>) {
        if 1 <= value && value <= 13 {
            match Month::new(value as u8) {
                Some(m) => Ok(m),
                None => Err(()),
            }
        } else {
            Err(())
        }
    }
}

impl TryFromSpecImpl<i16> for Month {
    open spec fn obeys_try_from_spec() -> bool {
        true
    }

    open spec fn try_from_spec(value: i16) -> Result<Month, ()> {
        if 1 <= value <= 13 {
            Ok(Month::from_ord(value as int))
        } else {
            Err(())
        }
    }
}

impl From<Month> for i32 {
    /// The ordinal number of the month.
    fn from(value: Month) -> (r: i32) {
        value.ord() as i32
    }
}

impl FromSpecImpl<Month> for i32 {
    open spec fn obeys_from_spec() -> bool {
        true
    }

    open spec fn from_spec(value: Month) -> i32 {
        value.ord_spec() as i32
    }
}

impl TryFrom<i32> for Month {
    type Error = ();

    /// The month with the given ordinal number; an error unless it is from 1 to 13.
    fn try_from(value: i32) -> (r: Result<Month, ()>) {
        if 1 <= value && value <= 13 {
            match Month::new(value as u8) {
                Some(m) => Ok(m),
                None => Err(()),
            }
        } else {
            Err(())
        }
    }
}

impl TryFromSpecImpl<i32> for Month {
    open spec fn obeys_try_from_spec() -> bool {
        true
    }

    open spec fn try_from_spec(value: i32) -> Result<Month, ()> {
        if 1 <= value <= 13 {
            Ok(Month::from_ord(value as int))
        } else {
            Err(())
        }
    }
}

impl From<Month> for i64 {
    /// The ordinal number of the month.
    fn from(value: Month) -> (r: i64) {
        value.ord() as i64
    }
}

impl FromSpecImpl<Month> for i64 {
    open spec fn obeys_from_spec() -> bool {
        true
    }

    open spec fn from_spec(value: Month) -> i64 {
        value.ord_spec() as i64
    }
}

impl TryFrom<i64> for Month {
    type Error = ();

    /// The month with the given ordinal number; an error unless it is from 1 to 13.
    fn try_from(value: i64) -> (r: Result<Month, ()>) {
        if 1 <= value && value <= 13 {
            match Month::new(value as u8) {
                Some(m) => Ok(m),
                None => Err(()),
            }
        } else {
            Err(())
        }
    }
}

impl TryFromSpecImpl<i64> for Month {
    open spec fn obeys_try_from_spec() -> bool {
        true
    }

    open spec fn try_from_spec(value: i64) -> Result<Month, ()> {
        if 1 <= value <= 13 {
            Ok(Month::from_ord(value as int))
        } else {
            Err(())
        }
    }
}

impl From<Month> for i128 {
    /// The ordinal number of the month.
    fn from(value: Month) -> (r: i128) {
        value.ord() as i128
    }
}

impl FromSpecImpl<Month> for i128 {
    open spec fn obeys_from_spec() -> bool {
        true
    }

    open spec fn from_spec(value: Month) -> i128 {
        value.ord_spec() as i128
    }
}

impl TryFrom<i128> for Month {
    type Error = ();

    /// The month with the given ordinal number; an error unless it is from 1 to 13.
    fn try_from(value: i128) -> (r: Result<Month, ()>) {
        if 1 <= value && value <= 13 {
            match Month::new(value as u8) {
                Some(m) => Ok(m),
                None => Err(()),
            }
        } else {
            Err(())
        }
    }
}

impl TryFromSpecImpl<i128> for Month {
    open spec fn obeys_try_from_spec() -> bool {
        true
    }

    open spec fn try_from_spec(value: i128) -> Result<Month, ()> {
        if 1 <= value <= 13 {
            Ok(Month::from_ord(value as int))
        } else {
            Err(())
        }
    }
}

} // verus!
