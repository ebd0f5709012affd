//! The arguments and the layout of a calendar.

use crate::number::parse_signed;
use crate::number::parse_unsigned;
use crate::number::signed_within;
use crate::number::unsigned_within;
use crate::text::align_center;
use crate::text::align_left;
use crate::text::align_right;
use crate::text::chars_of;
use crate::text::decimal;
use crate::text::decimal_string;
use crate::text::pad_center;
use crate::text::pad_left;
use crate::text::pad_right;
use crate::text::spaces;
use crate::text::texts;
use chrono::Datelike;
use chrono::NaiveDate;
use vstd::prelude::*;
use vstd::string::*;

verus! {

/// Why a text is not taken as a year.
#[derive(Clone, Copy, Debug, PartialEq, Eq, Structural)]
pub enum YearError {
    /// The text is not a signed number of 32 bits.
    InvalidNumber,
    /// The number lies in the range from 1 to 9999, which is refused.
    Refused(i32),
}

/// Why a text is not taken as a month.
#[derive(Clone, Copy, Debug, PartialEq, Eq, Structural)]
pub enum MonthError {
    /// The number lies in the range from 1 to 12, which is refused.
    Refused(u32),
    /// The text is no number, and it is not the start of exactly one month's
    /// name.
    InvalidMonth,
}

/// The year that `text` denotes: any signed number of 32 bits outside the
/// range from 1 to 9999.
pub open spec fn year_of(text: Seq<char>) -> Result<i32, YearError> {
    match signed_within(text, i32::MIN as int, i32::MAX as int) {
        None => Err(YearError::InvalidNumber),
        Some(year) => if 1 <= year <= 9999 {
            Err(YearError::Refused(year as i32))
        } else {
            Ok(year as i32)
        },
    }
}

/// Reads a year from `value`.
pub fn parse_year(value: &str) -> (r: Result<i32, YearError>)
    ensures
        r == year_of(value@),
{
    let chars = chars_of(value);
    match parse_signed(chars.as_slice(), -2147483648i64, 2147483647i64) {
        None => Err(YearError::InvalidNumber),
        Some(year) => if 1 <= year && year <= 9999 {
            Err(YearError::Refused(year as i32))
        } else {
            Ok(year as i32)
        },
    }
}

/// The name of the month with index `index`, counted from zero, in lower
/// case.
pub open spec fn lower_name(index: int) -> Seq<char> {
    if index == 0 {
        "january"@
    } else if index == 1 {
        "february"@
    } else if index == 2 {
        "march"@
    } else if index == 3 {
        "april"@
    } else if index == 4 {
        "may"@
    } else if index == 5 {
        "june"@
    } else if index == 6 {
        "july"@
    } else if index == 7 {
        "august"@
    } else if index == 8 {
        "september"@
    } else if index == 9 {
        "october"@
    } else if index == 10 {
        "november"@
    } else {
        "december"@
    }
}

/// The name of a month in lower case.
fn lower_month_name(index: usize) -> (r: &'static str)
    requires
        index < 12,
    ensures
        r@ == lower_name(index as int),
{
    match index {
        0 => "january",
        1 => "february",
        2 => "march",
        3 => "april",
        4 => "may",
        5 => "june",
        6 => "july",
        7 => "august",
        8 => "september",
        9 => "october",
        10 => "november",
        _ => "december",
    }
}

/// The numbers of the months, among the first `n` of the year, whose lower
/// case name starts with `text`.
pub open spec fn months_starting_with(text: Seq<char>, n: int) -> Seq<u32>
    decreases n,
{
    if n <= 0 {
        Seq::empty()
    } else if text.is_prefix_of(lower_name(n - 1)) {
        months_starting_with(text, n - 1).push(n as u32)
    } else {
        months_starting_with(text, n - 1)
    }
}

/// The month that `text` denotes: an unsigned number of 32 bits outside the
/// range from 1 to 12, or else the month whose lower case name is the only
/// one that starts with `text`.
pub open spec fn month_of(text: Seq<char>) -> Result<u32, MonthError> {
    match unsigned_within(text, u32::MAX as nat) {
        Some(month) => if 1 <= month <= 12 {
            Err(MonthError::Refused(month as u32))
        } else {
            Ok(month as u32)
        },
        None => {
            let found = months_starting_with(text, 12);
            if found.len() == 1 {
                Ok(found[0])
            } else {
                Err(MonthError::InvalidMonth)
            }
        },
    }
}

/// Tells whether `text` starts with `prefix`.
pub fn starts_with(text: &[char], prefix: &[char]) -> (r: bool)
    ensures
        r == prefix@.is_prefix_of(text@),
{
    if prefix.len() > text.len() {
        return false;
    }
    let mut i: usize = 0;
    while i < prefix.len()
        invariant
            i <= prefix.len(),
            prefix.len() <= text.len(),
            forall|k: int| 0 <= k < i ==> prefix@[k] == text@[k],
        decreases prefix.len() - i,
    {
        if prefix[i] != text[i] {
            assert(text@.subrange(0, prefix.len() as int)[i as int] == text@[i as int]);
            return false;
        }
        i += 1;
    }
    assert(prefix@ =~= text@.subrange(0, prefix.len() as int));
    true
}

/// Reads a month from `value`.
pub fn parse_month(value: &str) -> (r: Result<u32, MonthError>)
    ensures
        r == month_of(value@),
{
    let chars = chars_of(value);
    match parse_unsigned(chars.as_slice(), 4294967295u64) {
        Some(month) => if 1 <= month && month <= 12 {
            Err(MonthError::Refused(month as u32))
        } else {
            Ok(month as u32)
        },
        None => {
            let mut found: Vec<u32> = Vec::new();
            let mut i: usize = 0;
            while i < 12
                invariant
                    i <= 12,
                    chars@ == value@,
                    found@ == months_starting_with(value@, i as int),
                decreases 12 - i,
            {
                let name = chars_of(lower_month_name(i));
                if starts_with(name.as_slice(), chars.as_slice()) {
                    found.push((i + 1) as u32);
                }
                i += 1;
            }
            if found.len() == 1 {
                Ok(found[0])
            } else {
                Err(MonthError::InvalidMonth)
            }
        },
    }
}

/// The name of the month with index `index`, counted from zero.
pub open spec fn month_name(index: int) -> Seq<char> {
    if index == 0 {
        "January"@
    } else if index == 1 {
        "February"@
    } else if index == 2 {
        "March"@
    } else if index == 3 {
        "April"@
    } else if index == 4 {
        "May"@
    } else if index == 5 {
        "June"@
    } else if index == 6 {
        "July"@
    } else if index == 7 {
        "August"@
    } else if index == 8 {
        "September"@
    } else if index == 9 {
        "October"@
    } else if index == 10 {
        "November"@
    } else {
        "December"@
    }
}

/// The name of a month.
fn name_of_month(index: usize) -> (r: &'static str)
    requires
        index < 12,
    ensures
        r@ == month_name(index as int),
{
    match index {
        0 => "January",
        1 => "February",
        2 => "March",
        3 => "April",
        4 => "May",
        5 => "June",
        6 => "July",
        7 => "August",
        8 => "September",
        9 => "October",
        10 => "November",
        _ => "December",
    }
}

/// Whether the calendar has the month `month` of the year `year`. Years are
/// numbered as astronomers do, with a year zero, and the calendar reaches
/// from the year -262143 to the year 262142.
pub open spec fn month_exists(year: int, month: int) -> bool {
    -262143 <= year <= 262142 && 1 <= month <= 12
}

/// Whether `year` is a leap year of the Gregorian calendar.
pub open spec fn is_leap(year: int) -> bool {
    year % 4 == 0 && (year % 100 != 0 || year % 400 == 0)
}

/// The number of days of the month `month` of the year `year`.
pub open spec fn month_days(year: int, month: int) -> int {
    if month == 2 {
        if is_leap(year) {
            29
        } else {
            28
        }
    } else if month == 4 || month == 6 || month == 9 || month == 11 {
        30
    } else {
        31
    }
}

/// The day of the week of the first day of a month, as `Weekday::
/// number_from_sunday` of `chrono` gives it: 1 for a Sunday, 7 for a
/// Saturday.
pub uninterp spec fn first_weekday(year: int, month: int) -> int;

/// Asks `chrono` for the day of the week of the first day of a month, by
/// `NaiveDate::from_ymd_opt`, `weekday` and `number_from_sunday`. There is
/// an answer exactly for the months of the calendar, and it lies between 1
/// and 7.
#[verifier::external_body]
fn weekday_of_first(year: i32, month: u32) -> (r: Option<u32>)
    ensures
        r is Some <==> month_exists(year as int, month as int),
        r matches Some(day) ==> day == first_weekday(year as int, month as int) && 1 <= day <= 7,
{
    match NaiveDate::from_ymd_opt(year, month, 1) {
        Some(date) => Some(date.weekday().number_from_sunday()),
        None => None,
    }
}

/// Asks `chrono` for the number of days of a month, by
/// `NaiveDate::from_ymd_opt` and `num_days_in_month`. There is an answer
/// exactly for the months of the calendar, and it is the length that the
/// Gregorian calendar gives the month.
#[verifier::external_body]
fn days_of_month(year: i32, month: u32) -> (r: Option<u32>)
    ensures
        r is Some <==> month_exists(year as int, month as int),
        r matches Some(days) ==> days == month_days(year as int, month as int),
{
    match NaiveDate::from_ymd_opt(year, month, 1) {
        Some(date) => Some(u32::from(date.num_days_in_month())),
        None => None,
    }
}

/// The number under which a year is shown: years before the year 1 count
/// backwards from it.
pub open spec fn year_label(year: int) -> nat {
    if year < 1 {
        (1 - year) as nat
    } else {
        year as nat
    }
}

/// The first line of a month: its name, with the year if that is asked for,
/// in the middle of twenty characters, and two spaces.
pub open spec fn title(year: int, month: int, print_year: bool) -> Seq<char> {
    let head = if print_year {
        month_name(month - 1) + seq![' '] + decimal(year_label(year))
    } else {
        month_name(month - 1)
    };
    align_center(head, 20) + seq![' ', ' ']
}

/// The line that names the days of the week.
pub open spec fn weekdays() -> Seq<char> {
    "Su Mo Tu We Th Fr Sa  "@
}

/// The cell at index `i` of a month whose first day stands in the cell
/// `offset`: three spaces before the first day, and then the number of the
/// day in two characters and a space.
pub open spec fn cell(offset: int, i: int) -> Seq<char> {
    if i < offset {
        seq![' ', ' ', ' ']
    } else {
        align_right(decimal((i - offset + 1) as nat), 2) + seq![' ']
    }
}

/// The cells from `from` up to `to`, one after the other.
pub open spec fn cells(offset: int, from: int, to: int) -> Seq<char>
    decreases to - from,
{
    if to <= from {
        Seq::empty()
    } else {
        cells(offset, from, to - 1) + cell(offset, to - 1)
    }
}

/// The first `n` weeks of a month, each a line of seven cells and a space.
pub open spec fn weeks(offset: int, n: int) -> Seq<Seq<char>>
    decreases n,
{
    if n <= 0 {
        Seq::empty()
    } else {
        weeks(offset, n - 1).push(align_left(cells(offset, 7 * (n - 1), 7 * n), 22))
    }
}

/// The lines below the names of the days: the full weeks and, if the month
/// is closed, the week that is not full, if there is one, and an empty
/// line. A month is closed unless nothing follows it in the calendar.
pub open spec fn rows(offset: int, days: int, closed: bool) -> Seq<Seq<char>> {
    let total = offset + days;
    let full = weeks(offset, total / 7);
    if !closed {
        full
    } else if total % 7 != 0 {
        full.push(align_left(cells(offset, 7 * (total / 7), total), 22)).push(spaces(22))
    } else {
        full.push(spaces(22))
    }
}

/// Lays out the lines of a month below its title: the names of the days,
/// the weeks, and the empty line that closes the month. `weekday` is the
/// day of the week of the first day, 1 for a Sunday, and `days` the number
/// of days to show.
pub fn layout_month(title: String, weekday: u32, days: u32, closed: bool) -> (r: Vec<String>)
    requires
        1 <= weekday <= 7,
    ensures
        texts(r@) == seq![title@, weekdays()] + rows(weekday - 1, days as int, closed),
{
    let offset: u64 = (weekday - 1) as u64;
    let total: u64 = offset + days as u64;
    let mut out: Vec<String> = Vec::new();
    let ghost shown_title = title@;
    out.push(title);
    out.push(String::from_str("Su Mo Tu We Th Fr Sa  "));
    let ghost head = seq![shown_title, weekdays()];
    assert(texts(out@) =~= head + weeks(offset as int, 0));
    let mut line = String::new();
    let mut i: u64 = 0;
    while i < total
        invariant
            i <= total,
            total == offset + days,
            offset <= 6,
            texts(out@) == head + weeks(offset as int, i as int / 7),
            line@ == cells(offset as int, 7 * (i as int / 7), i as int),
        decreases total - i,
    {
        let ghost before = line@;
        if i < offset {
            line.append("   ");
            proof {
                reveal_strlit("   ");
                assert("   "@ =~= seq![' ', ' ', ' ']);
            }
        } else {
            let numeral = decimal_string((i - offset + 1) as u128);
            let field = pad_left(numeral.as_str(), 2);
            line.append(field.as_str());
            line.append(" ");
            proof {
                reveal_strlit(" ");
                assert(" "@ =~= seq![' ']);
            }
        }
        assert(line@ =~= before + cell(offset as int, i as int));
        i += 1;
        if i % 7 == 0 {
            let ghost lines = texts(out@);
            let padded = pad_right(line.as_str(), 22);
            out.push(padded);
            line = String::new();
            proof {
                assert(i as int / 7 == (i - 1) / 7 + 1);
                assert(7 * ((i - 1) / 7) == i - 7);
                assert(texts(out@) =~= lines.push(padded@));
                assert(head + weeks(offset as int, (i - 1) / 7).push(padded@) =~= (head + weeks(
                    offset as int,
                    (i - 1) / 7,
                )).push(padded@));
            }
        } else {
            assert(i as int / 7 == (i - 1) / 7);
        }
    }
    if closed {
        let ghost lines = texts(out@);
        if total % 7 != 0 {
            let padded = pad_right(line.as_str(), 22);
            out.push(padded);
        }
        let ghost lines2 = texts(out@);
        let blank = pad_right("", 22);
        proof {
            reveal_strlit("");
            assert(blank@ =~= spaces(22));
        }
        out.push(blank);
        proof {
            let full = weeks(offset as int, total as int / 7);
            assert(texts(out@) =~= lines2.push(spaces(22)));
            if total % 7 != 0 {
                let part = align_left(
                    cells(offset as int, 7 * (total as int / 7), total as int),
                    22,
                );
                assert(lines2 =~= lines.push(part));
                assert(head + full.push(part).push(spaces(22)) =~= (head + full).push(part).push(
                    spaces(22),
                ));
            } else {
                assert(head + full.push(spaces(22)) =~= (head + full).push(spaces(22)));
            }
        }
    }
    out
}

/// The title of a month.
pub fn format_title(year: i32, month: u32, print_year: bool) -> (r: String)
    requires
        1 <= month <= 12,
    ensures
        r@ == title(year as int, month as int, print_year),
{
    let mut head = String::from_str(name_of_month((month - 1) as usize));
    if print_year {
        let label: u128 = if year < 1 {
            (1 - year as i64) as u128
        } else {
            year as u128
        };
        let numeral = decimal_string(label);
        proof {
            reveal_strlit(" ");
            assert(" "@ =~= seq![' ']);
        }
        head.append(" ");
        head.append(numeral.as_str());
    }
    let mut out = pad_center(head.as_str(), 20);
    proof {
        reveal_strlit("  ");
        assert("  "@ =~= seq![' ', ' ']);
    }
    out.append("  ");
    out
}

/// How many days of a month are shown: all of them from the year 1 on, and
/// none before.
pub open spec fn days_shown(year: int, month: int) -> int {
    if year >= 1 {
        month_days(year, month)
    } else {
        0
    }
}

/// Whether a day follows the month in the calendar.
pub open spec fn is_closed(year: int, month: int) -> bool {
    !(year == 262142 && month == 12)
}

/// The lines of the month `month` of the year `year`.
pub open spec fn month_lines(year: int, month: int, print_year: bool) -> Seq<Seq<char>> {
    seq![title(year, month, print_year), weekdays()] + rows(
        first_weekday(year, month) - 1,
        days_shown(year, month),
        is_closed(year, month),
    )
}

/// Lays out the month `month` of the year `year`, with the year in its
/// title if `print_year` is set.
pub fn format_month(year: i32, month: u32, print_year: bool) -> (r: Vec<String>)
    requires
        month_exists(year as int, month as int),
    ensures
        texts(r@) == month_lines(year as int, month as int, print_year),
{
    let head = format_title(year, month, print_year);
    let weekday = match weekday_of_first(year, month) {
        Some(day) => day,
        None => 1,
    };
    let days = if year >= 1 {
        match days_of_month(year, month) {
            Some(days) => days,
            None => 0,
        }
    } else {
        0
    };
    let closed = !(year == 262142 && month == 12);
    layout_month(head, weekday, days, closed)
}

/// The numeral of a year, with a minus sign before a year below zero.
pub open spec fn year_numeral(year: int) -> Seq<char> {
    if year < 0 {
        seq!['-'] + decimal((-year) as nat)
    } else {
        decimal(year as nat)
    }
}

/// The line at index `line` of the quarter `quarter` of a year: the lines
/// of its three months side by side.
pub open spec fn quarter_line(months: Seq<Seq<Seq<char>>>, quarter: int, line: int) -> Seq<char> {
    months[3 * quarter][line] + months[3 * quarter + 1][line] + months[3 * quarter + 2][line]
}

/// The first `n` lines of the calendar of a year below its heading: for
/// each quarter eight lines, and an empty line after each quarter but the
/// last.
pub open spec fn quarter_lines(months: Seq<Seq<Seq<char>>>, n: int) -> Seq<Seq<char>>
    decreases n,
{
    if n <= 0 {
        Seq::empty()
    } else {
        let at = n - 1;
        if at % 9 == 8 {
            quarter_lines(months, at).push(Seq::empty())
        } else {
            quarter_lines(months, at).push(quarter_line(months, at / 9, at % 9))
        }
    }
}

/// The calendar of a year: the year at the right of thirty-two characters,
/// and below it the four quarters.
pub open spec fn year_lines(year: int, months: Seq<Seq<Seq<char>>>) -> Seq<Seq<char>> {
    seq![align_right(year_numeral(year), 32)] + quarter_lines(months, 35)
}

/// The lines of the months of a sequence of laid out months.
pub open spec fn month_texts(months: Seq<Vec<String>>) -> Seq<Seq<Seq<char>>> {
    months.map_values(|month: Vec<String>| texts(month@))
}

/// Whether there are twelve months of at least eight lines each.
pub open spec fn fills_year(months: Seq<Seq<Seq<char>>>) -> bool {
    months.len() == 12 && forall|m: int| 0 <= m < 12 ==> (#[trigger] months[m]).len() >= 8
}

/// Sets the twelve months of a year side by side, three to a row, under
/// the year. Of each month the first eight lines are shown.
pub fn layout_year(year: i32, months: &Vec<Vec<String>>) -> (r: Vec<String>)
    requires
        fills_year(month_texts(months@)),
    ensures
        texts(r@) == year_lines(year as int, month_texts(months@)),
{
    let ghost all = month_texts(months@);
    let mut numeral = String::new();
    if year < 0 {
        numeral.append("-");
        proof {
            reveal_strlit("-");
            assert("-"@ =~= seq!['-']);
        }
        let digits = decimal_string((-(year as i64)) as u128);
        numeral.append(digits.as_str());
    } else {
        let digits = decimal_string(year as u128);
        numeral.append(digits.as_str());
    }
    assert(numeral@ =~= year_numeral(year as int));
    let heading = pad_left(numeral.as_str(), 32);
    let ghost first = seq![heading@];
    let mut out: Vec<String> = Vec::new();
    out.push(heading);
    assert(texts(out@) =~= first + quarter_lines(all, 0));
    let mut n: usize = 0;
    while n < 35
        invariant
            n <= 35,
            all == month_texts(months@),
            fills_year(all),
            texts(out@) == first + quarter_lines(all, n as int),
        decreases 35 - n,
    {
        let quarter = n / 9;
        let line = n % 9;
        let ghost before = texts(out@);
        let mut text = String::new();
        if line < 8 {
            let a = &months[3 * quarter];
            let b = &months[3 * quarter + 1];
            let c = &months[3 * quarter + 2];
            proof {
                assert(all[3 * quarter as int] == texts(a@));
                assert(all[3 * quarter + 1] == texts(b@));
                assert(all[3 * quarter + 2] == texts(c@));
                assert(texts(a@)[line as int] == a@[line as int]@);
                assert(texts(b@)[line as int] == b@[line as int]@);
                assert(texts(c@)[line as int] == c@[line as int]@);
            }
            text.append(a[line].as_str());
            text.append(b[line].as_str());
            text.append(c[line].as_str());
            assert(text@ =~= quarter_line(all, quarter as int, line as int));
        }
        let ghost shown = text@;
        out.push(text);
        proof {
            assert(texts(out@) =~= before.push(shown));
            assert(first + quarter_lines(all, n as int).push(shown) =~= (first + quarter_lines(
                all,
                n as int,
            )).push(shown));
        }
        n += 1;
    }
    out
}

/// The months of the year `year`, each laid out without the year in its
/// title.
pub open spec fn months_of(year: int) -> Seq<Seq<Seq<char>>> {
    Seq::new(12, |m: int| month_lines(year, m + 1, false))
}

/// Lays out the calendar of the year `year`. Returns `None` if a month of
/// the year takes fewer than the eight lines that a row of months shows.
pub fn format_year(year: i32) -> (r: Option<Vec<String>>)
    requires
        month_exists(year as int, 1),
    ensures
        r is Some <==> fills_year(months_of(year as int)),
        r matches Some(lines) ==> texts(lines@) == year_lines(year as int, months_of(year as int)),
{
    let mut months: Vec<Vec<String>> = Vec::new();
    let mut m: u32 = 1;
    while m <= 12
        invariant
            1 <= m <= 13,
            month_exists(year as int, 1),
            months.len() == m - 1,
            forall|k: int|
                0 <= k < m - 1 ==> texts((#[trigger] months@[k])@) == month_lines(
                    year as int,
                    k + 1,
                    false,
                ),
            forall|k: int| 0 <= k < m - 1 ==> (#[trigger] months@[k]).len() >= 8,
        decreases 13 - m,
    {
        let month = format_month(year, m, false);
        if month.len() < 8 {
            proof {
                assert(months_of(year as int)[m - 1] == texts(month@));
                assert(texts(month@).len() == month.len());
            }
            return None;
        }
        months.push(month);
        m += 1;
    }
    proof {
        assert(month_texts(months@) =~= months_of(year as int)) by {
            assert forall|k: int| 0 <= k < 12 implies month_texts(months@)[k] == months_of(
                year as int,
            )[k] by {
                assert(texts(months@[k]@) == month_lines(year as int, k + 1, false));
            }
        }
        assert forall|k: int| 0 <= k < 12 implies (#[trigger] months_of(year as int)[k]).len()
            >= 8 by {
            assert(texts(months@[k]@).len() == months@[k].len());
        }
    }
    Some(layout_year(year, &months))
}

/// What to show of the calendar.
#[derive(Debug)]
pub struct Config {
    /// The year to show; without one, the current year.
    pub year: Option<i32>,
    /// The month to show; without one, the current month.
    pub month: Option<u32>,
    /// Show the whole of the current year.
    pub show_current_year: bool,
}

/// What a run shows: a month, or the year as a whole.
#[derive(Clone, Copy, Debug, PartialEq, Eq, Structural)]
pub struct Plan {
    pub year: i32,
    pub month: u32,
    /// Print the year in the title of the month.
    pub print_year: bool,
    /// Show the whole year in place of the month.
    pub whole_year: bool,
}

/// What `config` asks for on a day in the month `this_month` of the year
/// `this_year`. The year is printed with a month if the whole current year
/// was asked for or if the year is not the current one. The whole year is
/// shown if a year is given without a month, or if neither is given and
/// the year is printed.
pub open spec fn plan_of(config: &Config, this_year: u32, this_month: u32) -> Plan {
    let year = match config.year {
        Some(year) => year,
        None => this_year as i32,
    };
    let month = match config.month {
        Some(month) => month,
        None => this_month,
    };
    let print_year = config.show_current_year || this_year != year;
    let whole_year = match (config.year, config.month) {
        (Some(_), Some(_)) => false,
        (Some(_), None) => true,
        (None, Some(_)) => false,
        (None, None) => print_year,
    };
    Plan { year, month, print_year, whole_year }
}

/// Decides what to show. `this_year` is the number of the current year as
/// it is shown, and `this_month` the number of the current month.
pub fn plan(config: &Config, this_year: u32, this_month: u32) -> (r: Plan)
    requires
        this_year <= i32::MAX,
        config.show_current_year || config.year is None || config.year->0 >= 0,
    ensures
        r == plan_of(config, this_year, this_month),
{
    let year = match config.year {
        Some(year) => year,
        None => this_year as i32,
    };
    let month = match config.month {
        Some(month) => month,
        None => this_month,
    };
    let print_year = config.show_current_year || this_year as i64 != year as i64;
    let whole_year = match (config.year, config.month) {
        (Some(_), Some(_)) => false,
        (Some(_), None) => true,
        (None, Some(_)) => false,
        (None, None) => print_year,
    };
    Plan { year, month, print_year, whole_year }
}

/// Lays out what `plan` asks for: the lines of the month, or those of the
/// whole year. Returns `None` for a year that cannot be set in rows of
/// months.
pub fn run(plan: &Plan) -> (r: Option<Vec<String>>)
    requires
        month_exists(
            plan.year as int,
            if plan.whole_year {
                1
            } else {
                plan.month as int
            },
        ),
    ensures
        !plan.whole_year ==> (r matches Some(lines) && texts(lines@) == month_lines(
            plan.year as int,
            plan.month as int,
            plan.print_year,
        )),
        plan.whole_year ==> (r is Some <==> fills_year(months_of(plan.year as int))),
        plan.whole_year ==> (r matches Some(lines) ==> texts(lines@) == year_lines(
            plan.year as int,
            months_of(plan.year as int),
        )),
{
    if plan.whole_year {
        format_year(plan.year)
    } else {
        Some(format_month(plan.year, plan.month, plan.print_year))
    }
}

} // verus!
