//! Calendar dates, read and written by chrono.

use crate::entities::Date;
use crate::text::chars_of;
use vstd::prelude::*;
use vstd::string::StringExecFns;

verus! {

/// The format in which a document states its date: year, month and day,
/// with a hyphen between them.
pub open spec fn date_format() -> Seq<char> {
    "%Y-%m-%d"@
}

/// What `chrono::NaiveDate::parse_from_str` makes of `text` read in
/// `format`: the year, month and day of the date it finds, or the words in
/// which its error says why it found none.
pub uninterp spec fn chrono_parse_date(text: Seq<char>, format: Seq<char>) -> Result<
    (int, int, int),
    Seq<char>,
>;

/// The outcome of reading a date, as it is seen in contracts.
pub open spec fn date_outcome(r: Result<Date, String>) -> Result<Date, Seq<char>> {
    match r {
        Ok(date) => Ok(date),
        Err(reason) => Err(reason@),
    }
}

/// The date that three numbers stand for, where there are three.
pub open spec fn date_of(r: Result<(int, int, int), Seq<char>>) -> Result<Date, Seq<char>> {
    match r {
        Ok(ymd) => Ok(Date { year: ymd.0 as i32, month: ymd.1 as u32, day: ymd.2 as u32 }),
        Err(reason) => Err(reason),
    }
}

/// Reads `text` as a date written in `format`.
///
/// Trusted: this is `chrono::NaiveDate::parse_from_str`. The contract names
/// what that function returns for the two texts; on success the date comes
/// back as the year, month and day that `chrono::Datelike` reports for it,
/// and on failure as the text that chrono's error displays.
#[verifier::external_body]
fn parse_date(text: &str, format: &str) -> (r: Result<Date, String>)
    ensures
        match r {
            Ok(date) => chrono_parse_date(text@, format@) == Ok::<(int, int, int), Seq<char>>(
                (date.year as int, date.month as int, date.day as int),
            ),
            Err(reason) => chrono_parse_date(text@, format@) == Err::<(int, int, int), Seq<char>>(
                reason@,
            ),
        },
{
    match chrono::NaiveDate::parse_from_str(text, format) {
        Ok(date) => Ok(
            Date {
                year: chrono::Datelike::year(&date),
                month: chrono::Datelike::month(&date),
                day: chrono::Datelike::day(&date),
            },
        ),
        Err(e) => Err(e.to_string()),
    }
}

/// Whether `c` is one of the digits `0` to `9`.
pub open spec fn is_digit(c: char) -> bool {
    0x30 <= c as u32 <= 0x39
}

/// Whether `text` is written as a date is to be written: four digits, a
/// hyphen, two digits, a hyphen, two digits, and nothing else.
pub open spec fn has_date_shape(text: Seq<char>) -> bool {
    &&& text.len() == 10
    &&& forall|i: int|
        0 <= i < 10 ==> if i == 4 || i == 7 {
            text[i] == '-'
        } else {
            is_digit(#[trigger] text[i])
        }
}

/// What a reader is told of a date that chrono could read but that is not
/// written as a date is to be written.
pub open spec fn shape_complaint() -> Seq<char> {
    "input is not written as YYYY-MM-DD"@
}

/// What is made of the text `text` as a date, where chrono's reading of
/// it gave `reading`: the date that chrono found, where `text` is written
/// as a date is to be written; the complaint about its shape, where chrono
/// found a date and it is not; and chrono's own words where chrono found
/// none.
pub open spec fn shaped(text: Seq<char>, reading: Result<Date, Seq<char>>) -> Result<
    Date,
    Seq<char>,
> {
    match reading {
        Ok(date) => if has_date_shape(text) {
            Ok(date)
        } else {
            Err(shape_complaint())
        },
        Err(reason) => Err(reason),
    }
}

/// What is made of the text `text` as a date.
pub open spec fn date_reading_of(text: Seq<char>) -> Result<Date, Seq<char>> {
    shaped(text, date_of(chrono_parse_date(text, date_format())))
}

/// Whether `c` is one of the digits `0` to `9`.
pub fn is_digit_char(c: char) -> (b: bool)
    ensures
        b == is_digit(c),
{
    let n: u32 = c as u32;
    0x30 <= n && n <= 0x39
}

/// Whether `text` is written as a date is to be written.
pub fn is_date_shaped(text: &str) -> (b: bool)
    ensures
        b == has_date_shape(text@),
{
    let cs = chars_of(text);
    if cs.len() != 10 {
        return false;
    }
    let mut i: usize = 0;
    while i < 10
        invariant
            cs@ == text@,
            cs.len() == 10,
            i <= 10,
            forall|j: int|
                0 <= j < i ==> if j == 4 || j == 7 {
                    cs@[j] == '-'
                } else {
                    is_digit(#[trigger] cs@[j])
                },
        decreases 10 - i,
    {
        let fits = if i == 4 || i == 7 {
            cs[i] == '-'
        } else {
            is_digit_char(cs[i])
        };
        if !fits {
            return false;
        }
        i = i + 1;
    }
    true
}

/// Holds a date that chrono read from `text` to the shape in which a date
/// is to be written, and hands chrono's words on where it read none.
pub fn check_shape(text: &str, reading: Result<Date, String>) -> (r: Result<Date, String>)
    ensures
        date_outcome(r) == shaped(text@, date_outcome(reading)),
{
    match reading {
        Ok(date) => if is_date_shaped(text) {
            Ok(date)
        } else {
            Err(String::from_str("input is not written as YYYY-MM-DD"))
        },
        Err(reason) => Err(reason),
    }
}

/// Reads `text` as a date: chrono reads it in the format `%Y-%m-%d`, and
/// what chrono accepts must be written as four digits, a hyphen, two
/// digits, a hyphen and two digits.
pub fn read_date(text: &str) -> (r: Result<Date, String>)
    ensures
        date_outcome(r) == date_reading_of(text@),
{
    let reading = parse_date(text, "%Y-%m-%d");
    check_shape(text, reading)
}

/// The text that chrono displays for the date with this year, month and
/// day, or `None` where the calendar has no such date.
pub uninterp spec fn chrono_date_text(year: int, month: int, day: int) -> Option<Seq<char>>;

/// The text of `date`, or the empty text where the calendar has no such
/// date.
pub open spec fn date_text(date: Date) -> Seq<char> {
    match chrono_date_text(date.year as int, date.month as int, date.day as int) {
        Some(text) => text,
        None => Seq::empty(),
    }
}

/// Writes `date` as text.
///
/// Trusted: this is `chrono::NaiveDate::from_ymd_opt` followed by the
/// date's `Display`. The contract names the text that comes of the three
/// numbers, and `None` stands for a date that `from_ymd_opt` refuses.
#[verifier::external_body]
pub(crate) fn format_date(date: Date) -> (r: Option<String>)
    ensures
        match r {
            Some(text) => chrono_date_text(date.year as int, date.month as int, date.day as int)
                == Some(text@),
            None => chrono_date_text(date.year as int, date.month as int, date.day as int)
                is None,
        },
{
    chrono::NaiveDate::from_ymd_opt(date.year, date.month, date.day).map(|d| d.to_string())
}

/// The text of `date`, or the empty text where the calendar has no such
/// date.
pub fn date_string(date: Date) -> (s: String)
    ensures
        s@ == date_text(date),
{
    match format_date(date) {
        Some(text) => text,
        None => String::new(),
    }
}

} // verus!
