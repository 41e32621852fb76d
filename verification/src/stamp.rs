//! A timestamp as text: how it is written into an archive's name, and how
//! the text of a date and a time is read back.

use crate::timestamp::Timestamp;
use chrono::{Datelike, Timelike};
use vstd::prelude::*;

verus! {

/// The character of the decimal digit `d`, for `d` from 0 to 9.
pub open spec fn digit(d: int) -> char {
    ('0' as int + d) as char
}

/// Whether `c` is one of the characters `0` to `9`.
pub open spec fn is_digit(c: char) -> bool {
    '0' <= c <= '9'
}

/// `n` in two decimal digits, for `n` below 100.
pub open spec fn two_digits(n: int) -> Seq<char> {
    seq![digit(n / 10), digit(n % 10)]
}

/// `n` in decimal digits, without leading zeros.
pub open spec fn decimal(n: nat) -> Seq<char>
    decreases n,
{
    if n < 10 {
        seq![digit(n as int)]
    } else {
        decimal(n / 10).push(digit((n % 10) as int))
    }
}

/// `n` in decimal digits, with zeros in front where it has fewer than four.
pub open spec fn four_digits_or_more(n: nat) -> Seq<char> {
    let digits = decimal(n);
    if digits.len() >= 4 {
        digits
    } else {
        Seq::new((4 - digits.len()) as nat, |i: int| '0') + digits
    }
}

/// A year as text: four digits from 0 to 9999, and a sign before four digits
/// or more for every other year.
pub open spec fn year_text(year: int) -> Seq<char> {
    if 0 <= year <= 9999 {
        four_digits_or_more(year as nat)
    } else if year < 0 {
        seq!['-'] + four_digits_or_more((-year) as nat)
    } else {
        seq!['+'] + four_digits_or_more(year as nat)
    }
}

/// The number that the decimal digits `s` write.
pub open spec fn number(s: Seq<char>) -> int
    decreases s.len(),
{
    if s.len() == 0 {
        0
    } else {
        10 * number(s.drop_last()) + (s.last() as int - '0' as int)
    }
}

impl Timestamp {
    /// The date as `YYYY-MM-DD`.
    pub open spec fn date_text(self) -> Seq<char> {
        year_text(self.year as int) + seq!['-'] + two_digits(self.month as int) + seq!['-']
            + two_digits(self.day as int)
    }

    /// The time of day as `HH-MM-SS`, a leap second as second 60. What is
    /// finer than a second is left out.
    pub open spec fn time_text(self) -> Seq<char> {
        two_digits(self.hour as int) + seq!['-'] + two_digits(self.minute as int) + seq!['-']
            + two_digits(self.second + self.nanosecond / 1_000_000_000)
    }

    /// The date and the time as an archive's name holds them, with `_` between.
    pub open spec fn stamp(self) -> Seq<char> {
        self.date_text() + seq!['_'] + self.time_text()
    }

    /// The date and the time with one space between, as they are read back.
    pub open spec fn spaced(self) -> Seq<char> {
        self.date_text() + seq![' '] + self.time_text()
    }

    /// Year from 0 to 9999 and nothing finer than a second: the timestamps
    /// whose text is four, two and two digits for the date and two, two and
    /// two for the time.
    pub open spec fn plain(self) -> bool {
        self.valid() && 0 <= self.year <= 9999 && self.whole_second()
    }
}

/// Whether `text` is `dddd-dd-dd dd-dd-dd`, each `d` a decimal digit.
pub open spec fn is_plain_text(text: Seq<char>) -> bool {
    &&& text.len() == 19
    &&& forall|i: int|
        0 <= i < 19 && i != 4 && i != 7 && i != 10 && i != 13 && i != 16 ==> is_digit(
            #[trigger] text[i],
        )
    &&& text[4] == '-'
    &&& text[7] == '-'
    &&& text[10] == ' '
    &&& text[13] == '-'
    &&& text[16] == '-'
}

/// The timestamp whose fields are the six numbers of a plain text, the
/// second 60 taken as the leap second after second 59.
pub open spec fn plain_value(text: Seq<char>) -> Timestamp {
    let second = number(text.subrange(17, 19));
    Timestamp {
        year: number(text.subrange(0, 4)) as i32,
        month: number(text.subrange(5, 7)) as u32,
        day: number(text.subrange(8, 10)) as u32,
        hour: number(text.subrange(11, 13)) as u32,
        minute: number(text.subrange(14, 16)) as u32,
        second: if second == 60 {
            59
        } else {
            second as u32
        },
        nanosecond: if second == 60 {
            1_000_000_000
        } else {
            0
        },
    }
}

/// What a plain text is read as: the date and time that its numbers are,
/// or nothing where they are no date of the calendar or no time of the clock.
pub open spec fn plain_reading(text: Seq<char>) -> Option<Timestamp> {
    if plain_value(text).valid() {
        Some(plain_value(text))
    } else {
        None
    }
}

/// The date and time that `text` is read as, if it is read as any: a plain
/// text is read as the date and time that its numbers are, if they are any,
/// and no other text is read.
pub open spec fn reading(text: Seq<char>) -> Option<Timestamp> {
    if is_plain_text(text) {
        plain_reading(text)
    } else {
        None
    }
}

/// Whether `c` can stand in the text of a date or of a time: a digit, or a
/// sign or dash.
pub open spec fn is_stamp_char(c: char) -> bool {
    is_digit(c) || c == '-' || c == '+'
}

/// `decimal` writes at least one character, and digits only.
pub proof fn lemma_decimal_digits(n: nat)
    ensures
        decimal(n).len() >= 1,
        forall|i: int| 0 <= i < decimal(n).len() ==> is_digit(#[trigger] decimal(n)[i]),
    decreases n,
{
    if n >= 10 {
        lemma_decimal_digits(n / 10);
    }
}

/// A number below ten thousand is written in four digits: thousands,
/// hundreds, tens and ones.
pub proof fn lemma_four_digits(n: nat)
    requires
        n <= 9999,
    ensures
        four_digits_or_more(n) == seq![
            digit(n as int / 1000),
            digit(n as int / 100 % 10),
            digit(n as int / 10 % 10),
            digit(n as int % 10),
        ],
{
    reveal_with_fuel(decimal, 4);
    assert(four_digits_or_more(n) =~= seq![
        digit(n as int / 1000),
        digit(n as int / 100 % 10),
        digit(n as int / 10 % 10),
        digit(n as int % 10),
    ]);
}

/// A year is written in four characters or more, each a digit or a sign.
pub proof fn lemma_year_text_chars(year: int)
    ensures
        year_text(year).len() >= 4,
        0 <= year <= 9999 ==> year_text(year).len() == 4,
        forall|i: int|
            0 <= i < year_text(year).len() ==> is_stamp_char(#[trigger] year_text(year)[i]),
{
    let n = (if year < 0 {
        -year
    } else {
        year
    }) as nat;
    lemma_decimal_digits(n);
    if n <= 9999 {
        lemma_four_digits(n);
    }
    let digits = four_digits_or_more(n);
    assert(digits.len() >= 4);
    assert forall|i: int| 0 <= i < digits.len() implies is_digit(#[trigger] digits[i]) by {}
}

/// The date and the time of a timestamp that exists are written in digits,
/// dashes and at most a sign: the date in ten characters or more, the time
/// in eight.
pub proof fn lemma_stamp_chars(at: Timestamp)
    requires
        at.valid(),
    ensures
        at.date_text().len() >= 10,
        0 <= at.year <= 9999 ==> at.date_text().len() == 10,
        at.time_text().len() == 8,
        forall|i: int|
            0 <= i < at.date_text().len() ==> is_stamp_char(#[trigger] at.date_text()[i]),
        forall|i: int|
            0 <= i < at.time_text().len() ==> is_stamp_char(#[trigger] at.time_text()[i]),
{
    lemma_year_text_chars(at.year as int);
    let year = year_text(at.year as int);
    let date = at.date_text();
    assert forall|i: int| 0 <= i < date.len() implies is_stamp_char(#[trigger] date[i]) by {
        if i < year.len() {
            assert(date[i] == year[i]);
        }
    }
}

/// The text of a timestamp of a year from 0 to 9999 is plain, and is read as
/// the timestamp without what is finer than a second.
pub proof fn lemma_plain_text_round_trip(at: Timestamp)
    requires
        at.valid(),
        0 <= at.year <= 9999,
    ensures
        at.to_second().plain(),
        is_plain_text(at.spaced()),
        plain_value(at.spaced()) == at.to_second(),
        reading(at.spaced()) == Some(at.to_second()),
{
    let text = at.spaced();
    let second = at.second + at.nanosecond / 1_000_000_000;
    lemma_four_digits(at.year as nat);
    assert(text =~= seq![
        digit(at.year as int / 1000),
        digit(at.year as int / 100 % 10),
        digit(at.year as int / 10 % 10),
        digit(at.year as int % 10),
        '-',
        digit(at.month as int / 10),
        digit(at.month as int % 10),
        '-',
        digit(at.day as int / 10),
        digit(at.day as int % 10),
        ' ',
        digit(at.hour as int / 10),
        digit(at.hour as int % 10),
        '-',
        digit(at.minute as int / 10),
        digit(at.minute as int % 10),
        '-',
        digit(second / 10),
        digit(second % 10),
    ]);
    reveal_with_fuel(number, 5);
    assert(text.subrange(0, 4) =~= seq![text[0], text[1], text[2], text[3]]);
    assert(text.subrange(5, 7) =~= seq![text[5], text[6]]);
    assert(text.subrange(8, 10) =~= seq![text[8], text[9]]);
    assert(text.subrange(11, 13) =~= seq![text[11], text[12]]);
    assert(text.subrange(14, 16) =~= seq![text[14], text[15]]);
    assert(text.subrange(17, 19) =~= seq![text[17], text[18]]);
    assert(number(text.subrange(0, 4)) == at.year);
    assert(number(text.subrange(5, 7)) == at.month);
    assert(number(text.subrange(8, 10)) == at.day);
    assert(number(text.subrange(11, 13)) == at.hour);
    assert(number(text.subrange(14, 16)) == at.minute);
    assert(number(text.subrange(17, 19)) == second);
}

/// Whether `text` is `dddd-dd-dd dd-dd-dd`, each `d` a decimal digit.
pub fn is_plain(text: &str) -> (plain: bool)
    ensures
        plain == is_plain_text(text@),
{
    if text.unicode_len() != 19 {
        return false;
    }
    let mut i: usize = 0;
    while i < 19
        invariant
            i <= 19,
            text@.len() == 19,
            forall|j: int|
                0 <= j < i && j != 4 && j != 7 && j != 10 && j != 13 && j != 16 ==> is_digit(
                    #[trigger] text@[j],
                ),
            4 < i ==> text@[4] == '-',
            7 < i ==> text@[7] == '-',
            10 < i ==> text@[10] == ' ',
            13 < i ==> text@[13] == '-',
            16 < i ==> text@[16] == '-',
        decreases 19 - i,
    {
        let c = text.get_char(i);
        let fits = if i == 10 {
            c == ' '
        } else if i == 4 || i == 7 || i == 13 || i == 16 {
            c == '-'
        } else {
            '0' <= c && c <= '9'
        };
        if !fits {
            return false;
        }
        i += 1;
    }
    true
}

#[verifier::external_type_specification]
#[verifier::external_body]
pub struct ExParseError(chrono::ParseError);

/// Calls `chrono::NaiveDateTime::format` with `%Y-%m-%d_%H-%M-%S` on the date
/// and time that `at` holds. The contract claims what chrono documents of
/// these six specifiers: the year in four digits, signed outside 0 to 9999,
/// and month, day, hour, minute and second in two digits each, a leap second
/// as 60.
#[verifier::external_body]
pub(crate) fn write_stamp(at: &Timestamp) -> (text: String)
    requires
        at.valid(),
    ensures
        text@ == at.stamp(),
{
    let date = chrono::NaiveDate::from_ymd_opt(at.year, at.month, at.day).unwrap();
    let date_time = date.and_hms_nano_opt(at.hour, at.minute, at.second, at.nanosecond).unwrap();
    date_time.format("%Y-%m-%d_%H-%M-%S").to_string()
}

/// Calls `chrono::NaiveDateTime::parse_from_str` with `%Y-%m-%d %H-%M-%S`
/// on a plain text and hands out the fields of what it returns. The contract
/// claims that a plain text is read as the date and time that its numbers
/// are, the second 60 as a leap second, and refused where they are none.
#[verifier::external_body]
pub(crate) fn parse_date_time(text: &str) -> (parsed: Result<Timestamp, chrono::ParseError>)
    requires
        is_plain_text(text@),
    ensures
        parsed.ok() == plain_reading(text@),
{
    let at = chrono::NaiveDateTime::parse_from_str(text, "%Y-%m-%d %H-%M-%S")?;
    Ok(
        Timestamp {
            year: at.year(),
            month: at.month(),
            day: at.day(),
            hour: at.hour(),
            minute: at.minute(),
            second: at.second(),
            nanosecond: at.nanosecond(),
        },
    )
}

} // verus!
