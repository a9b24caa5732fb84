//! Reading written dates, SAC13 and Gregorian, in the usual orders of year,
//! month and day.

use crate::ascii::ascii_bytes;
use crate::ascii::is_digit;
use crate::ascii::is_upper;
use crate::ascii::lemma_ascii_bytes;
use crate::ascii::DIGIT_0;
use crate::ascii::DIGIT_9;
use crate::ascii::DOT;
use crate::ascii::HYPHEN;
use crate::ascii::SLASH;
use crate::ascii::UPPER_A;
use crate::ascii::UPPER_Z;
use crate::date_gregorian::GregorianDate;
use crate::date_sac13::Date;
use crate::model::Ymd;
use crate::text::decimal_text;
use crate::text::digit_char;
use crate::text::integer_text;
use crate::text::lemma_decimal_text_digits;
use crate::text::letter_char;
use crate::text::push_repeated;
use crate::text::repeated_char;
use crate::text::two_digit_text;
use vstd::prelude::*;
use vstd::string::*;
use vstd::utf8::encode_utf8;
use vstd::utf8::is_ascii_chars;

verus! {

/// A date of one of the two calendars.
#[derive(Debug, Clone)]
pub enum GregorianOrSac13 {
    GregorianDate(GregorianDate),
    Sac13Date(Date),
}

impl View for GregorianOrSac13 {
    type V = Ymd;

    /// The year, month and day of the date, in its own calendar.
    open spec fn view(&self) -> Ymd {
        match self {
            GregorianOrSac13::GregorianDate(d) => d@,
            GregorianOrSac13::Sac13Date(d) => d@,
        }
    }
}

impl GregorianOrSac13 {
    /// Whether the date is a SAC13 date.
    pub open spec fn is_sac13(&self) -> bool {
        self is Sac13Date
    }
}

impl GregorianOrSac13 {
    /// The date as it is written in its calendar.
    pub fn to_string(&self) -> (r: String)
        ensures
            r@ == (match self {
                GregorianOrSac13::GregorianDate(d) => crate::gregorian::written_date(d@),
                GregorianOrSac13::Sac13Date(d) => crate::date_sac13::written_date(d@),
            }),
    {
        match self {
            GregorianOrSac13::GregorianDate(d) => d.to_string(),
            GregorianOrSac13::Sac13Date(d) => d.to_string(),
        }
    }
}

/// The order in which a written date gives year, month and day.
#[derive(Debug, Clone, Copy, PartialEq, Eq, Structural)]
pub enum ComponentOrder {
    YMD,
    DMY,
    MDY,
}

/// A date that was read, and how it was written.
#[derive(Debug, Clone)]
pub struct ParsedDate {
    pub date: GregorianOrSac13,
    pub format: ParsedFormat,
}

/// How a date was written: the separator, the order of the components and
/// the number of characters of each.
#[derive(Debug, Clone)]
pub struct ParsedFormat {
    pub separator: u8,
    pub component_order: ComponentOrder,
    pub len_day: u8,
    pub len_month: u8,
    pub len_year: u8,
}

/// The letter that stands for the component at place `i` of the order.
pub open spec fn order_letter(order: ComponentOrder, i: int) -> char {
    match order {
        ComponentOrder::YMD => if i == 0 {
            'Y'
        } else if i == 1 {
            'M'
        } else {
            'D'
        },
        ComponentOrder::DMY => if i == 0 {
            'D'
        } else if i == 1 {
            'M'
        } else {
            'Y'
        },
        ComponentOrder::MDY => if i == 0 {
            'M'
        } else if i == 1 {
            'D'
        } else {
            'Y'
        },
    }
}

impl ParsedFormat {
    /// The number of characters of the component that the letter stands for.
    pub open spec fn len_of(&self, letter: char) -> int {
        if letter == 'Y' {
            self.len_year as int
        } else if letter == 'M' {
            self.len_month as int
        } else {
            self.len_day as int
        }
    }

    /// The component at place `i` of the format: its letter, as often as the
    /// component has characters.
    pub open spec fn component_text(&self, i: int) -> Seq<char> {
        let letter = order_letter(self.component_order, i);
        repeated_char(letter, self.len_of(letter))
    }

    /// The format as a pattern such as `YYYY-MM-DD`.
    pub open spec fn text(&self) -> Seq<char> {
        self.component_text(0) + seq![self.separator as char] + self.component_text(1)
            + seq![self.separator as char] + self.component_text(2)
    }

    /// The format as a pattern such as `YYYY-MM-DD`: for each component, in
    /// their order, its letter as often as the component has characters,
    /// with the separator between them.
    pub fn to_string(&self) -> (r: String)
        ensures
            r@ == self.text(),
    {
        let separator = self.separator as char;
        let (first, second, third) = match self.component_order {
            ComponentOrder::YMD => (
                ('Y', self.len_year),
                ('M', self.len_month),
                ('D', self.len_day),
            ),
            ComponentOrder::DMY => (
                ('D', self.len_day),
                ('M', self.len_month),
                ('Y', self.len_year),
            ),
            ComponentOrder::MDY => (
                ('M', self.len_month),
                ('D', self.len_day),
                ('Y', self.len_year),
            ),
        };
        let mut s = String::new();
        push_repeated(&mut s, first.0, first.1);
        s.push(separator);
        push_repeated(&mut s, second.0, second.1);
        s.push(separator);
        push_repeated(&mut s, third.0, third.1);
        assert(s@ =~= self.text());
        s
    }
}

/// One component of a written date: a number, which a minus sign or a
/// millennium letter may precede, up to a separator or the end of the text.
#[derive(Debug)]
pub struct ComponentParse {
    /// Whether the component starts with a millennium letter.
    pub letter: bool,
    /// The number of characters of the component, without the separator.
    pub char_cnt: u8,
    /// The number that the component stands for.
    pub value: i16,
    /// The separator that ends the component; zero at the end of the text.
    pub end: u8,
}

/// Whether the byte separates the components of a date.
pub open spec fn is_separator(c: u8) -> bool {
    c == DOT || c == SLASH || c == HYPHEN
}

/// The end of the run of digits that starts at `from`.
pub open spec fn digit_run_end(s: Seq<u8>, from: int) -> int
    decreases s.len() - from,
{
    if 0 <= from < s.len() && is_digit(s[from]) {
        digit_run_end(s, from + 1)
    } else {
        from
    }
}

/// The number that the digits from `from` up to `to` stand for, when they
/// follow a number `init`.
pub open spec fn decimal_value(s: Seq<u8>, from: int, to: int, init: int) -> int
    decreases to - from,
{
    if from >= to {
        init
    } else {
        decimal_value(s, from, to - 1, init) * 10 + (s[to - 1] - DIGIT_0)
    }
}

/// The component that starts at `pos`, and where the next one starts.
///
/// A component is an optional minus sign or an optional millennium letter
/// (not both), then digits, up to a separator or the end of the text. The
/// letter counts as the digits of its place in the alphabet. There is no
/// component where the text has ended, another character follows the
/// digits, the number exceeds 16 bits, or the component has more than 255
/// characters.
pub open spec fn component_at(s: Seq<u8>, pos: int) -> Option<(ComponentParse, int)> {
    if !(0 <= pos < s.len()) {
        None
    } else {
        let negative = s[pos] == HYPHEN;
        let sign_end = if negative {
            pos + 1
        } else {
            pos
        };
        if sign_end >= s.len() {
            None
        } else {
            let letter = is_upper(s[sign_end]);
            let letter_end = if letter {
                sign_end + 1
            } else {
                sign_end
            };
            let init = if letter {
                s[sign_end] - UPPER_A
            } else {
                0
            };
            let digits_end = digit_run_end(s, letter_end);
            let total = decimal_value(s, letter_end, digits_end, init);
            if letter && negative {
                None
            } else if digits_end < s.len() && !is_separator(s[digits_end]) {
                None
            } else if total > i16::MAX || digits_end - pos > u8::MAX {
                None
            } else {
                Some(
                    (
                        ComponentParse {
                            letter,
                            char_cnt: (digits_end - pos) as u8,
                            value: (if negative {
                                -total
                            } else {
                                total
                            }) as i16,
                            end: if digits_end < s.len() {
                                s[digits_end]
                            } else {
                                0
                            },
                        },
                        if digits_end < s.len() {
                            digits_end + 1
                        } else {
                            digits_end
                        },
                    ),
                )
            }
        }
    }
}

/// The run of digits ends within the text, holds digits only, and ends
/// before a byte that is no digit.
pub proof fn lemma_digit_run_end(s: Seq<u8>, from: int)
    requires
        0 <= from <= s.len(),
    ensures
        from <= digit_run_end(s, from) <= s.len(),
        forall|i: int| from <= i < digit_run_end(s, from) ==> is_digit(#[trigger] s[i]),
        digit_run_end(s, from) < s.len() ==> !is_digit(s[digit_run_end(s, from)]),
    decreases s.len() - from,
{
    if from < s.len() && is_digit(s[from]) {
        lemma_digit_run_end(s, from + 1);
    }
}

/// More digits make no smaller number.
pub proof fn lemma_decimal_value_grows(s: Seq<u8>, from: int, mid: int, to: int, init: int)
    requires
        0 <= from <= mid <= to <= s.len(),
        0 <= init,
        forall|i: int| from <= i < to ==> is_digit(#[trigger] s[i]),
    ensures
        0 <= decimal_value(s, from, mid, init) <= decimal_value(s, from, to, init),
    decreases to - from,
{
    if from < to {
        if mid < to {
            lemma_decimal_value_grows(s, from, mid, to - 1, init);
        } else {
            lemma_decimal_value_grows(s, from, mid - 1, to - 1, init);
        }
    }
}

impl ComponentParse {
    /// Reads the component that starts at `start`; returns it and the place
    /// where the next component starts.
    #[verifier::loop_isolation(false)]
    pub fn parse(input: &[u8], start: usize) -> (r: Option<(ComponentParse, usize)>)
        ensures
            r is Some <==> component_at(input@, start as int) is Some,
            r matches Some((c, next)) ==> component_at(input@, start as int) == Some(
                (c, next as int),
            ),
    {
        let n = input.len();
        if start >= n {
            return None;
        }
        let mut pos: usize = start;
        let mut letter = false;
        let mut char_cnt: u8 = 0;
        let mut value: i16 = 0;

        let invert = input[pos] == HYPHEN;
        if invert {
            // consume the minus sign
            pos += 1;
            char_cnt += 1;
        }
        if pos >= n {
            return None;
        }
        let first = input[pos];
        if UPPER_A <= first && first <= UPPER_Z {
            if invert {
                // negative SAC13 years are not allowed
                return None;
            }
            // consume and process the millennium letter
            value = (first - UPPER_A) as i16;
            letter = true;
            pos += 1;
            char_cnt += 1;
        }
        let ghost letter_end = pos as int;
        let ghost init = value as int;
        let ghost digits_end = digit_run_end(input@, letter_end);
        proof {
            lemma_digit_run_end(input@, letter_end);
        }
        while pos < n && DIGIT_0 <= input[pos] && input[pos] <= DIGIT_9
            invariant
                n == input@.len(),
                start <= letter_end <= pos <= digits_end <= n,
                letter_end - start <= 1,
                char_cnt == pos - start,
                0 <= init <= 25,
                value == decimal_value(input@, letter_end, pos as int, init),
                0 <= value,
                digits_end == digit_run_end(input@, letter_end),
                digits_end == digit_run_end(input@, pos as int),
                forall|i: int| letter_end <= i < digits_end ==> is_digit(#[trigger] input@[i]),
            decreases n - pos,
        {
            let digit: i16 = (input[pos] - DIGIT_0) as i16;
            proof {
                lemma_digit_run_end(input@, pos + 1);
                lemma_decimal_value_grows(input@, letter_end, pos + 1, digits_end, init);
            }
            if char_cnt == u8::MAX {
                return None;
            }
            if value > (i16::MAX - digit) / 10 {
                return None;
            }
            value = value * 10 + digit;
            char_cnt += 1;
            pos += 1;
        }
        let end: u8 = if pos < n {
            input[pos]
        } else {
            0
        };
        if pos < n {
            if !(end == DOT || end == SLASH || end == HYPHEN) {
                return None;
            }
            pos += 1;
        }
        if invert {
            value = -value;
        }
        Some((ComponentParse { letter, char_cnt, value, end }, pos))
    }
}

/// What a written date says: the calendar, the date and the way it was
/// written.
pub struct DateText {
    pub sac13: bool,
    pub date: Ymd,
    pub format: ParsedFormat,
}

/// The date that three components make up.
///
/// The year is the component of four or more characters, which is the first
/// or the last but not both; no component has three characters. A year with
/// a millennium letter is a SAC13 year. With the year first the order is
/// year, month, day; with the year last it is day, month, year, but month,
/// day, year for a Gregorian date written with slashes. Both separators are
/// the same and nothing follows the third component. Month and day have no
/// letter, and the three numbers are a date of their calendar.
pub open spec fn date_of_components(
    c1: ComponentParse,
    c2: ComponentParse,
    c3: ComponentParse,
) -> Option<DateText> {
    let year_first = c1.char_cnt >= 4;
    let year_last = c3.char_cnt >= 4;
    if c1.char_cnt == 3 || c2.char_cnt == 3 || c3.char_cnt == 3 {
        None
    } else if c1.end != c2.end || c3.end != 0 {
        None
    } else if c2.char_cnt >= 4 || year_first == year_last {
        None
    } else {
        let order = if year_first {
            ComponentOrder::YMD
        } else if c1.end == SLASH && !c3.letter {
            ComponentOrder::MDY
        } else {
            ComponentOrder::DMY
        };
        let year = if year_first {
            c1
        } else {
            c3
        };
        let month = if order == ComponentOrder::MDY {
            c1
        } else {
            c2
        };
        let day = if order == ComponentOrder::YMD {
            c3
        } else if order == ComponentOrder::MDY {
            c2
        } else {
            c1
        };
        let date = Ymd { year: year.value as int, month: month.value as int, day: day.value as int };
        if day.letter || month.letter {
            None
        } else if !(1 <= day.value <= 31) || !(1 <= month.value <= 13) {
            None
        } else if year.letter && !crate::date_sac13::is_date(date) {
            None
        } else if !year.letter && !crate::gregorian::is_date(date) {
            None
        } else {
            Some(
                DateText {
                    sac13: year.letter,
                    date,
                    format: ParsedFormat {
                        separator: c1.end,
                        component_order: order,
                        len_day: day.char_cnt,
                        len_month: month.char_cnt,
                        len_year: year.char_cnt,
                    },
                },
            )
        }
    }
}

/// The date that a text stands for: three components, one after the other,
/// that make up a date.
pub open spec fn date_text(s: Seq<u8>) -> Option<DateText> {
    match component_at(s, 0) {
        None => None,
        Some((c1, second)) => match component_at(s, second) {
            None => None,
            Some((c2, third)) => match component_at(s, third) {
                None => None,
                Some((c3, _)) => date_of_components(c1, c2, c3),
            },
        },
    }
}

/// Parses various SAC13 and Gregorian Calendar formats.
///
/// The year must be written with at least four characters, with leading
/// zeros where needed, and day and month with one or two:
///
/// - YYYY-MM-DD
/// - DD-MM-YYYY
/// - MM/DD/YYYY (Gregorian only)
///
/// The separator is `-`, `.` or `/`.
pub fn parse_date_str(input: &str) -> (r: Option<ParsedDate>)
    ensures
        r is Some <==> date_text(input.spec_bytes()) is Some,
        r matches Some(p) ==> date_text(input.spec_bytes()) == Some(
            DateText { sac13: p.date.is_sac13(), date: p.date@, format: p.format },
        ),
{
    let bytes = input.as_bytes();

    let (c1, next) = match ComponentParse::parse(bytes, 0) {
        None => return None,
        Some(c) => c,
    };
    let (c2, next) = match ComponentParse::parse(bytes, next) {
        None => return None,
        Some(c) => c,
    };
    let (c3, _) = match ComponentParse::parse(bytes, next) {
        None => return None,
        Some(c) => c,
    };

    if c1.char_cnt == 3 || c2.char_cnt == 3 || c3.char_cnt == 3 {
        // No component is allowed to be three digits.
        // Days and months must be 1 or 2, and years must be 4 or more.
        return None;
    }
    if c1.end != c2.end {
        // different delimiters in same date are not allowed
        return None;
    }
    let separator = c1.end;
    if c3.end != 0 {
        // c3 must be the last component (delimiter zero)
        return None;
    }
    let year_first = c1.char_cnt >= 4;
    let year_last = c3.char_cnt >= 4;
    if c2.char_cnt >= 4 {
        // middle part is never allowed to be a year
        return None;
    }
    if year_first == year_last {
        // either both ends or neither seem to be a year which is not allowed
        return None;
    }
    // determine sort order
    let (year, month, day, order) = if year_first {
        (c1, c2, c3, ComponentOrder::YMD)
    } else if c1.end == SLASH && !c3.letter {
        // US format only for Gregorian (no SAC13 millennium indicator letter)
        (c3, c1, c2, ComponentOrder::MDY)
    } else {
        (c3, c2, c1, ComponentOrder::DMY)
    };
    if day.letter || month.letter {
        return None;
    }
    if day.value < 1 || day.value > 31 || month.value < 1 || month.value > 13 {
        return None;
    }
    let format = ParsedFormat {
        separator,
        component_order: order,
        len_day: day.char_cnt,
        len_month: month.char_cnt,
        len_year: year.char_cnt,
    };
    let day_value: u8 = day.value as u8;
    let month_value: u8 = month.value as u8;

    let date = if year.letter {
        if year.value < 0 {
            return None;
        }
        match Date::from_ymd_untyped(year.value as u16, month_value, day_value) {
            None => return None,
            Some(d) => GregorianOrSac13::Sac13Date(d),
        }
    } else {
        match GregorianDate::from_ymd(year.value, month_value, day_value) {
            None => return None,
            Some(d) => GregorianOrSac13::GregorianDate(d),
        }
    };
    Some(ParsedDate { date, format })
}

/// A run of digits that ends before a byte that is no digit, or with the
/// text, ends there.
pub proof fn lemma_digit_run_end_at(s: Seq<u8>, from: int, to: int)
    requires
        0 <= from <= to <= s.len(),
        forall|i: int| from <= i < to ==> is_digit(#[trigger] s[i]),
        to < s.len() ==> !is_digit(s[to]),
    ensures
        digit_run_end(s, from) == to,
    decreases to - from,
{
    if from < to {
        lemma_digit_run_end_at(s, from + 1, to);
    }
}

/// The bytes of a number written in decimal are digits, and stand for the
/// number.
pub proof fn lemma_decimal_value_of_text(s: Seq<u8>, pos: int, v: int)
    requires
        0 <= v,
        0 <= pos,
        pos + decimal_text(v).len() <= s.len(),
        forall|i: int|
            0 <= i < decimal_text(v).len() ==> #[trigger] s[pos + i] == decimal_text(v)[i] as u8,
    ensures
        forall|i: int| pos <= i < pos + decimal_text(v).len() ==> is_digit(#[trigger] s[i]),
        decimal_value(s, pos, pos + decimal_text(v).len(), 0) == v,
    decreases v,
{
    let len = decimal_text(v).len() as int;
    if v < 10 {
        assert(decimal_text(v) =~= seq![digit_char(v)]);
        assert(s[pos + 0] == decimal_text(v)[0] as u8);
        reveal_with_fuel(decimal_value, 2);
        assert forall|i: int| pos <= i < pos + len implies is_digit(#[trigger] s[i]) by {
            assert(i == pos + 0);
        }
    } else {
        let head = decimal_text(v / 10);
        assert(decimal_text(v) =~= head.push(digit_char(v % 10)));
        assert(len == head.len() + 1);
        assert forall|i: int| 0 <= i < head.len() implies #[trigger] s[pos + i] == head[i] as u8 by {
            assert(decimal_text(v)[i] == head[i]);
        }
        lemma_decimal_value_of_text(s, pos, v / 10);
        assert(s[pos + (len - 1)] == decimal_text(v)[len - 1] as u8);
        assert(s[pos + len - 1] == DIGIT_0 + v % 10);
        assert forall|i: int| pos <= i < pos + len implies is_digit(#[trigger] s[i]) by {
            if i == pos + len - 1 {
            } else {
                assert(pos <= i < pos + head.len());
            }
        }
    }
}

/// A number below 100'000 is written with as many digits as it needs.
pub proof fn lemma_decimal_text_len(v: int)
    requires
        0 <= v < 100000,
    ensures
        decimal_text(v).len() == (if v < 10 {
            1int
        } else if v < 100 {
            2int
        } else if v < 1000 {
            3int
        } else if v < 10000 {
            4int
        } else {
            5int
        }),
{
    reveal_with_fuel(decimal_text, 6);
}

/// A component without a letter: digits, which a minus sign may precede, up
/// to a hyphen or the end of the text, are read as the number that they
/// stand for.
pub proof fn lemma_component_of_number(s: Seq<u8>, pos: int, negative: bool, n: int)
    requires
        0 <= pos,
        1 <= n <= 200,
        pos + (if negative {
            1int
        } else {
            0int
        }) + n <= s.len(),
        negative ==> s[pos] == HYPHEN,
        forall|i: int|
            pos + (if negative {
                1int
            } else {
                0int
            }) <= i < pos + (if negative {
                1int
            } else {
                0int
            }) + n ==> is_digit(#[trigger] s[i]),
        pos + (if negative {
            1int
        } else {
            0int
        }) + n < s.len() ==> s[pos + (if negative {
            1int
        } else {
            0int
        }) + n] == HYPHEN,
        decimal_value(
            s,
            pos + (if negative {
                1int
            } else {
                0int
            }),
            pos + (if negative {
                1int
            } else {
                0int
            }) + n,
            0,
        ) <= i16::MAX,
    ensures
        ({
            let start = pos + (if negative {
                1int
            } else {
                0int
            });
            let total = decimal_value(s, start, start + n, 0);
            component_at(s, pos) == Some(
                (
                    ComponentParse {
                        letter: false,
                        char_cnt: (start + n - pos) as u8,
                        value: (if negative {
                            -total
                        } else {
                            total
                        }) as i16,
                        end: if start + n < s.len() {
                            HYPHEN
                        } else {
                            0
                        },
                    },
                    if start + n < s.len() {
                        start + n + 1
                    } else {
                        start + n
                    },
                ),
            )
        }),
{
    let start = pos + (if negative {
        1int
    } else {
        0int
    });
    assert(is_digit(s[start]));
    lemma_digit_run_end_at(s, start, start + n);
}

/// Reading undoes writing: the written form of a SAC13 date is read as that
/// date, written year first with hyphens.
pub proof fn lemma_read_written_sac13_date(d: Ymd)
    requires
        crate::date_sac13::is_date(d),
    ensures
        date_text(encode_utf8(crate::date_sac13::written_date(d))) == Some(
            DateText {
                sac13: true,
                date: d,
                format: ParsedFormat {
                    separator: HYPHEN,
                    component_order: ComponentOrder::YMD,
                    len_day: 2,
                    len_month: 2,
                    len_year: 4,
                },
            },
        ),
{
    let text = crate::date_sac13::written_date(d);
    let s = ascii_bytes(text);
    reveal_with_fuel(decimal_text, 2);
    let y = d.year;
    let m = d.month;
    let k = d.day;
    assert(text =~= seq![
        letter_char(y / 1000),
        digit_char(y % 1000 / 100),
        digit_char(y % 1000 / 10 % 10),
        digit_char(y % 1000 % 10),
        '-',
        digit_char(m / 10),
        digit_char(m % 10),
        '-',
        digit_char(k / 10),
        digit_char(k % 10),
    ]);
    lemma_ascii_bytes(text);
    assert(s.len() == 10);
    assert(s[0] == UPPER_A + y / 1000);
    assert(s[1] == DIGIT_0 + y % 1000 / 100);
    assert(s[2] == DIGIT_0 + y % 1000 / 10 % 10);
    assert(s[3] == DIGIT_0 + y % 1000 % 10);
    assert(s[4] == HYPHEN);
    assert(s[5] == DIGIT_0 + m / 10);
    assert(s[6] == DIGIT_0 + m % 10);
    assert(s[7] == HYPHEN);
    assert(s[8] == DIGIT_0 + k / 10);
    assert(s[9] == DIGIT_0 + k % 10);
    assert(component_at(s, 0) == Some(
        (ComponentParse { letter: true, char_cnt: 4, value: y as i16, end: HYPHEN }, 5int),
    )) by {
        reveal_with_fuel(digit_run_end, 5);
        reveal_with_fuel(decimal_value, 5);
        assert(digit_run_end(s, 1) == 4);
        assert(decimal_value(s, 1, 4, y / 1000) == y);
    }
    reveal_with_fuel(decimal_value, 3);
    lemma_component_of_number(s, 5, false, 2);
    lemma_component_of_number(s, 8, false, 2);
}

/// Reading undoes writing: the written form of a Gregorian date whose year
/// is written with four or more characters is read as that date, written
/// year first with hyphens.
pub proof fn lemma_read_written_gregorian_date(d: Ymd)
    requires
        crate::gregorian::is_date(d),
        d.year >= 1000 || d.year <= -100,
    ensures
        date_text(encode_utf8(crate::gregorian::written_date(d))) == Some(
            DateText {
                sac13: false,
                date: d,
                format: ParsedFormat {
                    separator: HYPHEN,
                    component_order: ComponentOrder::YMD,
                    len_day: 2,
                    len_month: 2,
                    len_year: integer_text(d.year).len() as u8,
                },
            },
        ),
{
    let year = integer_text(d.year);
    let text = crate::gregorian::written_date(d);
    let s = ascii_bytes(text);
    let negative = d.year < 0;
    let v = if negative {
        -d.year
    } else {
        d.year
    };
    let sign = if negative {
        1int
    } else {
        0int
    };
    let n = decimal_text(v).len() as int;
    let m = d.month;
    let k = d.day;
    lemma_decimal_text_len(v);
    reveal_with_fuel(decimal_text, 2);
    assert(year.len() == sign + n);
    assert(two_digit_text(m) =~= seq![digit_char(m / 10), digit_char(m % 10)]);
    assert(two_digit_text(k) =~= seq![digit_char(k / 10), digit_char(k % 10)]);
    let tail = seq!['-', digit_char(m / 10), digit_char(m % 10), '-', digit_char(k / 10), digit_char(
        k % 10,
    )];
    assert(text =~= year + tail);
    lemma_decimal_text_digits(v);
    assert(is_ascii_chars(text)) by {
        assert forall|i: int| 0 <= i < text.len() implies '\0' <= #[trigger] text[i] <= '\u{7f}' by {
            if i < sign {
            } else if i < sign + n {
                assert(text[i] == decimal_text(v)[i - sign]);
            } else {
                assert(text[i] == tail[i - sign - n]);
            }
        }
    }
    lemma_ascii_bytes(text);
    let end = sign + n;
    assert(s.len() == end + 6);
    assert(negative ==> s[0] == HYPHEN);
    assert forall|i: int| 0 <= i < n implies #[trigger] s[sign + i] == decimal_text(v)[i] as u8 by {
        assert(text[sign + i] == year[sign + i]);
    }
    lemma_decimal_value_of_text(s, sign, v);
    assert(s[end] == HYPHEN) by {
        assert(text[end] == tail[0]);
    }
    assert(s[end + 1] == DIGIT_0 + m / 10) by {
        assert(text[end + 1] == tail[1]);
    }
    assert(s[end + 2] == DIGIT_0 + m % 10) by {
        assert(text[end + 2] == tail[2]);
    }
    assert(s[end + 3] == HYPHEN) by {
        assert(text[end + 3] == tail[3]);
    }
    assert(s[end + 4] == DIGIT_0 + k / 10) by {
        assert(text[end + 4] == tail[4]);
    }
    assert(s[end + 5] == DIGIT_0 + k % 10) by {
        assert(text[end + 5] == tail[5]);
    }
    lemma_component_of_number(s, 0, negative, n);
    reveal_with_fuel(decimal_value, 3);
    lemma_component_of_number(s, end + 1, false, 2);
    lemma_component_of_number(s, end + 4, false, 2);
}

} // verus!
