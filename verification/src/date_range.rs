//! Calendar dates written in full or in part, and the days, months and
//! years of a range of dates.

use vstd::prelude::*;
use vstd::utf8::encode_utf8;
use chrono::Datelike;

verus! {

/// A calendar date.
#[derive(Clone, Copy, Debug, PartialEq, Eq, Structural)]
pub struct Date {
    /// The number of the day, counted from 1 January of the year 1 as day 1.
    pub days: i32,
    /// The calendar year.
    pub year: i32,
    /// The month, counted from 1.
    pub month: u32,
    /// The day of the month, counted from 1.
    pub day: u32,
}

/// What `chrono::NaiveDate::from_ymd_opt` makes of a year, a month and a
/// day: `None` where there is no such date.
pub uninterp spec fn calendar_date(year: int, month: int, day: int) -> Option<Date>;

/// What `chrono::NaiveDate::parse_from_str` reads from `text` under
/// `format`: `None` where it reports an error.
pub uninterp spec fn formatted_date(text: Seq<char>, format: Seq<char>) -> Option<Date>;

/// What `chrono::NaiveDate::from_num_days_from_ce_opt` makes of the number
/// of a day: `None` where the date is out of range.
pub uninterp spec fn numbered_date(days: int) -> Option<Date>;

/// Calls `chrono::NaiveDate::from_ymd_opt` and hands back the date with the
/// number of its day, its year, its month and its day of the month. Nothing
/// is claimed of which dates there are.
#[verifier::external_body]
fn make_calendar_date(year: i32, month: u32, day: u32) -> (result: Option<Date>)
    ensures
        result == calendar_date(year as int, month as int, day as int),
{
    match chrono::NaiveDate::from_ymd_opt(year, month, day) {
        Some(d) => Some(
            Date { days: d.num_days_from_ce(), year: d.year(), month: d.month(), day: d.day() },
        ),
        None => None,
    }
}

/// Calls `chrono::NaiveDate::parse_from_str` with the given format and hands
/// back the date it read, as `make_calendar_date` does. Nothing is claimed of
/// which texts it accepts.
#[verifier::external_body]
fn read_formatted_date(text: &str, format: &str) -> (result: Option<Date>)
    ensures
        result == formatted_date(text@, format@),
{
    match chrono::NaiveDate::parse_from_str(text, format) {
        Ok(d) => Some(
            Date { days: d.num_days_from_ce(), year: d.year(), month: d.month(), day: d.day() },
        ),
        Err(_) => None,
    }
}

/// Calls `chrono::NaiveDate::from_num_days_from_ce_opt` and hands back the
/// date of the day with the given number, as `make_calendar_date` does.
/// Nothing is claimed of which days are in range.
#[verifier::external_body]
fn make_numbered_date(days: i32) -> (result: Option<Date>)
    ensures
        result == numbered_date(days as int),
{
    match chrono::NaiveDate::from_num_days_from_ce_opt(days) {
        Some(d) => Some(
            Date { days: d.num_days_from_ce(), year: d.year(), month: d.month(), day: d.day() },
        ),
        None => None,
    }
}

/// The number that a run of ASCII digits writes: `None` for an empty run and
/// for one that holds anything but digits.
pub open spec fn digits_value(digits: Seq<u8>) -> Option<nat>
    decreases digits.len(),
{
    if digits.len() == 0 {
        None
    } else if !(48 <= digits.last() <= 57) {
        None
    } else if digits.len() == 1 {
        Some((digits.last() - 48) as nat)
    } else {
        match digits_value(digits.drop_last()) {
            Some(v) => Some(v * 10 + (digits.last() - 48) as nat),
            None => None,
        }
    }
}

/// The number that digits with an optional sign in front write.
pub open spec fn signed_value(text: Seq<u8>) -> Option<int> {
    if text.len() > 0 && text[0] == 43 {
        match digits_value(text.drop_first()) {
            Some(v) => Some(v as int),
            None => None,
        }
    } else if text.len() > 0 && text[0] == 45 {
        match digits_value(text.drop_first()) {
            Some(v) => Some(-(v as int)),
            None => None,
        }
    } else {
        match digits_value(text) {
            Some(v) => Some(v as int),
            None => None,
        }
    }
}

/// The number that digits with an optional plus sign in front write.
pub open spec fn unsigned_value(text: Seq<u8>) -> Option<int> {
    if text.len() > 0 && text[0] == 45 {
        None
    } else {
        signed_value(text)
    }
}

/// The position of the first hyphen of `text` at or after `from`, or the
/// length of `text` if there is none.
pub open spec fn hyphen_from(text: Seq<u8>, from: int) -> int
    decreases text.len() - from,
{
    if from >= text.len() {
        text.len() as int
    } else if text[from] == 45 {
        from
    } else {
        hyphen_from(text, from + 1)
    }
}

/// The format of a date written in full.
pub open spec fn full_date_format() -> Seq<char> {
    "%Y-%m-%d"@
}

/// The date that a text of seven bytes stands for: what stands before its
/// first hyphen is the year, what follows up to the next hyphen or the end
/// is the month, and the day is the first of the month.
pub open spec fn year_month_date(bytes: Seq<u8>) -> Option<Date> {
    let first = hyphen_from(bytes, 0);
    let second = hyphen_from(bytes, first + 1);
    if first >= bytes.len() {
        None
    } else {
        match (
            signed_value(bytes.subrange(0, first)),
            unsigned_value(bytes.subrange(first + 1, second)),
        ) {
            (Some(year), Some(month)) => calendar_date(year, month, 1),
            _ => None,
        }
    }
}

/// The date that a text stands for, by its length in bytes: four for a year,
/// which stands for its first day; seven for a year and a month, which stand
/// for the first day of the month; ten for a date in full.
pub open spec fn partial_date(text: Seq<char>) -> Option<Date> {
    let bytes = encode_utf8(text);
    if bytes.len() == 4 {
        match signed_value(bytes) {
            Some(year) => calendar_date(year, 1, 1),
            None => None,
        }
    } else if bytes.len() == 7 {
        year_month_date(bytes)
    } else if bytes.len() == 10 {
        formatted_date(text, full_date_format())
    } else {
        None
    }
}

proof fn lemma_digits_value_bound(digits: Seq<u8>)
    requires
        digits_value(digits) is Some,
        digits.len() <= 9,
    ensures
        digits_value(digits)->0 < vstd::arithmetic::power::pow(10, digits.len()),
    decreases digits.len(),
{
    vstd::arithmetic::power::lemma_pow1(10);
    if digits.len() > 1 {
        lemma_digits_value_bound(digits.drop_last());
        vstd::arithmetic::power::lemma_pow_adds(10, (digits.len() - 1) as nat, 1);
    }
}

/// The number that the digits in `text` from `from` to `to` write.
fn digits_between(text: &[u8], from: usize, to: usize) -> (result: Option<u32>)
    requires
        from <= to <= text.len(),
        to - from <= 9,
    ensures
        match result {
            Some(v) => digits_value(text@.subrange(from as int, to as int)) == Some(v as nat),
            None => digits_value(text@.subrange(from as int, to as int)) is None,
        },
{
    if from == to {
        return None;
    }
    let mut value: u32 = 0;
    let mut i: usize = from;
    while i < to
        invariant
            from <= i <= to <= text.len(),
            to - from <= 9,
            from < to,
            i > from ==> digits_value(text@.subrange(from as int, i as int)) == Some(value as nat),
            i == from ==> value == 0,
        decreases to - i,
    {
        let ghost seen = text@.subrange(from as int, i as int);
        let ghost next = text@.subrange(from as int, i + 1);
        proof {
            assert(next.drop_last() == seen);
            assert(next.last() == text@[i as int]);
        }
        if text[i] < 48 || text[i] > 57 {
            proof {
                lemma_no_digits_after(text@.subrange(from as int, to as int), i - from);
            }
            return None;
        }
        proof {
            if i > from {
                lemma_digits_value_bound(seen);
                vstd::arithmetic::power::lemma_pow_increases(10, seen.len(), 8);
                assert(vstd::arithmetic::power::pow(10, 8) == 100_000_000) by {
                    reveal_with_fuel(vstd::arithmetic::power::pow, 9);
                }
            }
        }
        value = value * 10 + (text[i] - 48) as u32;
        i = i + 1;
    }
    Some(value)
}

/// A run with a byte that is no digit writes no number.
proof fn lemma_no_digits_after(digits: Seq<u8>, at: int)
    requires
        0 <= at < digits.len(),
        !(48 <= digits[at] <= 57),
    ensures
        digits_value(digits) is None,
    decreases digits.len(),
{
    if at < digits.len() - 1 {
        lemma_no_digits_after(digits.drop_last(), at);
    }
}

/// The number that digits with an optional sign in front write.
fn signed_between(text: &[u8], from: usize, to: usize) -> (result: Option<i32>)
    requires
        from <= to <= text.len(),
        to - from <= 9,
    ensures
        match result {
            Some(v) => signed_value(text@.subrange(from as int, to as int)) == Some(v as int),
            None => signed_value(text@.subrange(from as int, to as int)) is None,
        },
{
    let ghost all = text@.subrange(from as int, to as int);
    if from < to && (text[from] == 43 || text[from] == 45) {
        proof {
            assert(all.drop_first() == text@.subrange(from + 1, to as int));
            if to - from - 1 > 0 {
                lemma_digits_value_bound_if_some(all.drop_first());
            }
        }
        match digits_between(text, from + 1, to) {
            Some(v) => {
                if text[from] == 45 {
                    Some(-(v as i32))
                } else {
                    Some(v as i32)
                }
            },
            None => None,
        }
    } else {
        proof {
            lemma_digits_value_bound_if_some(all);
        }
        match digits_between(text, from, to) {
            Some(v) => Some(v as i32),
            None => None,
        }
    }
}

proof fn lemma_digits_value_bound_if_some(digits: Seq<u8>)
    requires
        digits.len() <= 9,
    ensures
        digits_value(digits) is Some ==> digits_value(digits)->0 < 1_000_000_000,
{
    if digits_value(digits) is Some {
        lemma_digits_value_bound(digits);
        vstd::arithmetic::power::lemma_pow_increases(10, digits.len(), 9);
        assert(vstd::arithmetic::power::pow(10, 9) == 1_000_000_000) by {
            reveal_with_fuel(vstd::arithmetic::power::pow, 10);
        }
    }
}

/// The number that digits with an optional plus sign in front write.
fn unsigned_between(text: &[u8], from: usize, to: usize) -> (result: Option<u32>)
    requires
        from <= to <= text.len(),
        to - from <= 9,
    ensures
        match result {
            Some(v) => unsigned_value(text@.subrange(from as int, to as int)) == Some(v as int),
            None => unsigned_value(text@.subrange(from as int, to as int)) is None,
        },
{
    let ghost all = text@.subrange(from as int, to as int);
    if from < to && text[from] == 45 {
        None
    } else if from < to && text[from] == 43 {
        proof {
            assert(all.drop_first() == text@.subrange(from + 1, to as int));
        }
        digits_between(text, from + 1, to)
    } else {
        digits_between(text, from, to)
    }
}

/// The position of the first hyphen at or after `from`.
fn find_hyphen(text: &[u8], from: usize) -> (result: usize)
    requires
        from <= text.len(),
    ensures
        result == hyphen_from(text@, from as int),
        from <= result <= text.len(),
{
    let mut i: usize = from;
    while i < text.len() && text[i] != 45
        invariant
            from <= i <= text.len(),
            hyphen_from(text@, from as int) == hyphen_from(text@, i as int),
        decreases text.len() - i,
    {
        i = i + 1;
    }
    i
}

/// Reads a date written in full or in part: `YYYY` stands for the first day
/// of the year, `YYYY-MM` for the first day of the month, `YYYY-MM-DD` for
/// the day itself. Anything else stands for no date.
pub fn parse_partial_date_str(s: &str) -> (result: Option<Date>)
    ensures
        result == partial_date(s@),
{
    let bytes = s.as_bytes();
    let n = bytes.len();
    if n == 4 {
        assert(bytes@.subrange(0, 4) == bytes@);
        match signed_between(bytes, 0, 4) {
            Some(year) => make_calendar_date(year, 1, 1),
            None => None,
        }
    } else if n == 7 {
        let first = find_hyphen(bytes, 0);
        if first >= n {
            return None;
        }
        let second = find_hyphen(bytes, first + 1);
        let year = signed_between(bytes, 0, first);
        let month = unsigned_between(bytes, first + 1, second);
        match (year, month) {
            (Some(year), Some(month)) => make_calendar_date(year, month, 1),
            _ => None,
        }
    } else if n == 10 {
        read_formatted_date(s, "%Y-%m-%d")
    } else {
        None
    }
}

/// Whether the date `a` is the date `b` or an earlier one.
pub open spec fn on_or_before(a: Date, b: Date) -> bool {
    a.days <= b.days
}

/// The dates of the days numbered `from` to `to`, in order.
pub open spec fn days_in(from: int, to: int) -> Seq<Date>
    decreases to - from + 1,
{
    if from > to {
        Seq::empty()
    } else {
        match numbered_date(to) {
            Some(date) => days_in(from, to - 1).push(date),
            None => days_in(from, to - 1),
        }
    }
}

/// The number of a month: twelve for each year and one for each month that
/// has passed in it.
pub open spec fn month_number(date: Date) -> int {
    date.year * 12 + date.month - 1
}

/// The first day of the month with the given number, if there is such a
/// date.
pub open spec fn month_date(number: int) -> Option<Date> {
    if i32::MIN <= number / 12 <= i32::MAX {
        calendar_date(number / 12, number % 12 + 1, 1)
    } else {
        None
    }
}

/// The first days of the months numbered `from` to `to`, in order.
pub open spec fn months_in(from: int, to: int) -> Seq<Date>
    decreases to - from + 1,
{
    if from > to {
        Seq::empty()
    } else {
        match month_date(to) {
            Some(date) => months_in(from, to - 1).push(date),
            None => months_in(from, to - 1),
        }
    }
}

/// The first days of the years `from` to `to`, in order.
pub open spec fn years_in(from: int, to: int) -> Seq<Date>
    decreases to - from + 1,
{
    if from > to {
        Seq::empty()
    } else {
        match calendar_date(to, 1, 1) {
            Some(date) => years_in(from, to - 1).push(date),
            None => years_in(from, to - 1),
        }
    }
}

/// The steps in which the dates of a range are listed.
#[derive(Clone, Copy, Debug, PartialEq, Eq, Structural)]
pub enum Step {
    /// Every day.
    Day,
    /// The first day of every month.
    Month,
    /// The first day of every year.
    Year,
}

/// The step that a selector names: `d`, `m` or `y`, in either letter case.
pub open spec fn step_of(selector: Seq<char>) -> Option<Step> {
    if selector == seq!['y'] || selector == seq!['Y'] {
        Some(Step::Year)
    } else if selector == seq!['m'] || selector == seq!['M'] {
        Some(Step::Month)
    } else if selector == seq!['d'] || selector == seq!['D'] {
        Some(Step::Day)
    } else {
        None
    }
}

/// Reads the selector of a step.
pub fn parse_step(selector: &str) -> (step: Option<Step>)
    ensures
        step == step_of(selector@),
{
    let chars = crate::text::chars_of(selector);
    if chars.len() != 1 {
        assert(selector@.len() != 1);
        return None;
    }
    let c = chars[0];
    assert(selector@ =~= seq![c]);
    if c == 'y' || c == 'Y' {
        Some(Step::Year)
    } else if c == 'm' || c == 'M' {
        Some(Step::Month)
    } else if c == 'd' || c == 'D' {
        Some(Step::Day)
    } else {
        proof {
            assert(seq![c][0] == c);
        }
        None
    }
}

/// A range of dates, from `start` to `end`, both included.
#[derive(Clone, Copy, Debug, PartialEq, Eq, Structural)]
pub struct DateRange {
    /// The first date of the range.
    pub start: Date,
    /// The last date of the range.
    pub end: Date,
}

/// The dates that the texts stand for.
pub open spec fn partial_dates(texts: Seq<&str>) -> Seq<Option<Date>> {
    texts.map_values(|text: &str| partial_date(text@))
}

/// Whether every text stands for a date.
pub open spec fn all_are_dates(texts: Seq<&str>) -> bool {
    forall|i: int| 0 <= i < texts.len() ==> (#[trigger] partial_dates(texts)[i]) is Some
}

/// Whether `range` spans the dates of `texts`: its start is the earliest of
/// them and its end the latest.
pub open spec fn spans(range: DateRange, texts: Seq<&str>) -> bool {
    let dates = partial_dates(texts);
    &&& exists|i: int| 0 <= i < dates.len() && #[trigger] dates[i] == Some(range.start)
    &&& exists|i: int| 0 <= i < dates.len() && #[trigger] dates[i] == Some(range.end)
    &&& forall|i: int|
        0 <= i < dates.len() ==> on_or_before(range.start, (#[trigger] dates[i])->0)
            && on_or_before(dates[i]->0, range.end)
}

impl DateRange {
    /// The range between two dates written in full or in part.
    pub fn new(start: &str, end: &str) -> (result: DateRange)
        requires
            partial_date(start@) is Some,
            partial_date(end@) is Some,
        ensures
            Some(result.start) == partial_date(start@),
            Some(result.end) == partial_date(end@),
    {
        let nothing = Date { days: 0, year: 0, month: 0, day: 0 };
        let start = match parse_partial_date_str(start) {
            Some(date) => date,
            None => nothing,
        };
        let end = match parse_partial_date_str(end) {
            Some(date) => date,
            None => nothing,
        };
        DateRange { start, end }
    }

    /// The range between two dates written in full or in part, if both can
    /// be read.
    pub fn parse(start: &str, end: &str) -> (result: Option<DateRange>)
        ensures
            result is Some <==> partial_date(start@) is Some && partial_date(end@) is Some,
            result is Some ==> Some(result->0.start) == partial_date(start@) && Some(
                result->0.end,
            ) == partial_date(end@),
    {
        if parse_partial_date_str(start).is_some() && parse_partial_date_str(end).is_some() {
            Some(DateRange::new(start, end))
        } else {
            None
        }
    }

    /// The range from the earliest to the latest of the given dates.
    pub fn new_from_str_range(dates: Vec<&str>) -> (result: DateRange)
        requires
            dates.len() > 0,
            all_are_dates(dates@),
        ensures
            spans(result, dates@),
    {
        let ghost all = partial_dates(dates@);
        let nothing = Date { days: 0, year: 0, month: 0, day: 0 };
        let first = match parse_partial_date_str(dates[0]) {
            Some(date) => date,
            None => {
                assert(all[0] is None);
                nothing
            },
        };
        let mut range = DateRange { start: first, end: first };
        let ghost mut low = 0int;
        let ghost mut high = 0int;
        let mut i: usize = 1;
        while i < dates.len()
            invariant
                1 <= i <= dates.len(),
                all == partial_dates(dates@),
                all_are_dates(dates@),
                0 <= low < i,
                0 <= high < i,
                all[low] == Some(range.start),
                all[high] == Some(range.end),
                forall|k: int|
                    0 <= k < i ==> on_or_before(range.start, (#[trigger] all[k])->0)
                        && on_or_before(all[k]->0, range.end),
            decreases dates.len() - i,
        {
            match parse_partial_date_str(dates[i]) {
                Some(date) => {
                    assert(all[i as int] == Some(date));
                    if date.days < range.start.days {
                        range.start = date;
                        proof {
                            low = i as int;
                        }
                    }
                    if date.days > range.end.days {
                        range.end = date;
                        proof {
                            high = i as int;
                        }
                    }
                },
                None => {
                    assert(all[i as int] is None);
                },
            }
            i = i + 1;
        }
        range
    }

    /// The range from the earliest to the latest of the given dates, if
    /// there is a date and all can be read.
    pub fn parse_str_range(dates: &Vec<&str>) -> (result: Option<DateRange>)
        ensures
            result is Some <==> dates.len() > 0 && all_are_dates(dates@),
            result is Some ==> spans(result->0, dates@),
    {
        if dates.len() == 0 {
            return None;
        }
        let ghost all = partial_dates(dates@);
        let mut texts: Vec<&str> = Vec::new();
        let mut i: usize = 0;
        while i < dates.len()
            invariant
                0 <= i <= dates.len(),
                all == partial_dates(dates@),
                texts@ == dates@.take(i as int),
                forall|k: int| 0 <= k < i ==> (#[trigger] all[k]) is Some,
            decreases dates.len() - i,
        {
            if parse_partial_date_str(dates[i]).is_none() {
                assert(all[i as int] is None);
                return None;
            }
            texts.push(dates[i]);
            proof {
                assert(all[i as int] is Some);
                assert(dates@.take(i + 1) == dates@.take(i as int).push(dates@[i as int]));
            }
            i = i + 1;
        }
        proof {
            assert(dates@.take(i as int) == dates@);
        }
        Some(DateRange::new_from_str_range(texts))
    }

    /// Every day of the range, in order.
    pub fn get_days(&self) -> (result: Vec<Date>)
        ensures
            result@ == days_in(self.start.days as int, self.end.days as int),
    {
        let mut result: Vec<Date> = Vec::new();
        let from = self.start.days as i64;
        let to = self.end.days as i64;
        let mut n: i64 = from;
        while n <= to
            invariant
                from == self.start.days,
                to == self.end.days,
                from <= n <= to + 1 || (from > to && n == from),
                result@ == days_in(from as int, n - 1),
            decreases to - n + 1,
        {
            match make_numbered_date(n as i32) {
                Some(date) => {
                    result.push(date);
                },
                None => {},
            }
            n = n + 1;
        }
        result
    }

    /// The first day of every month of the range, in order.
    pub fn get_months(&self) -> (result: Vec<Date>)
        ensures
            result@ == if on_or_before(self.start, self.end) {
                months_in(month_number(self.start), month_number(self.end))
            } else {
                Seq::empty()
            },
    {
        let mut result: Vec<Date> = Vec::new();
        if self.start.days > self.end.days {
            return result;
        }
        let from = self.start.year as i64 * 12 + self.start.month as i64 - 1;
        let to = self.end.year as i64 * 12 + self.end.month as i64 - 1;
        let mut k: i64 = from;
        while k <= to
            invariant
                from == month_number(self.start),
                to == month_number(self.end),
                from <= k <= to + 1 || (from > to && k == from),
                -30_000_000_000 <= from <= 60_000_000_000,
                to <= 60_000_000_000,
                result@ == months_in(from as int, k - 1),
            decreases to - k + 1,
        {
            let year = floor_div_12(k);
            let month = (k - year * 12 + 1) as u32;
            if year >= i32::MIN as i64 && year <= i32::MAX as i64 {
                match make_calendar_date(year as i32, month, 1) {
                    Some(date) => {
                        result.push(date);
                    },
                    None => {},
                }
            }
            k = k + 1;
        }
        result
    }

    /// The first day of every year from that of the start to that of the
    /// end, in order.
    pub fn get_years(&self) -> (result: Vec<Date>)
        ensures
            result@ == years_in(self.start.year as int, self.end.year as int),
    {
        let mut result: Vec<Date> = Vec::new();
        let from = self.start.year as i64;
        let to = self.end.year as i64;
        let mut y: i64 = from;
        while y <= to
            invariant
                from == self.start.year,
                to == self.end.year,
                from <= y <= to + 1 || (from > to && y == from),
                result@ == years_in(from as int, y - 1),
            decreases to - y + 1,
        {
            match make_calendar_date(y as i32, 1, 1) {
                Some(date) => {
                    result.push(date);
                },
                None => {},
            }
            y = y + 1;
        }
        result
    }

    /// The dates of the range in the given steps.
    pub fn dates_by(&self, step: Step) -> (result: Vec<Date>)
        ensures
            result@ == match step {
                Step::Day => days_in(self.start.days as int, self.end.days as int),
                Step::Month => if on_or_before(self.start, self.end) {
                    months_in(month_number(self.start), month_number(self.end))
                } else {
                    Seq::empty()
                },
                Step::Year => years_in(self.start.year as int, self.end.year as int),
            },
    {
        match step {
            Step::Day => self.get_days(),
            Step::Month => self.get_months(),
            Step::Year => self.get_years(),
        }
    }

    /// The dates of the range in the steps that `range_type` names: `y` for
    /// the first day of every year, `m` for the first day of every month,
    /// `d` for every day.
    pub fn get_dates(&self, range_type: &str) -> (result: Vec<Date>)
        requires
            step_of(range_type@) is Some,
        ensures
            result@ == match step_of(range_type@)->0 {
                Step::Day => days_in(self.start.days as int, self.end.days as int),
                Step::Month => if on_or_before(self.start, self.end) {
                    months_in(month_number(self.start), month_number(self.end))
                } else {
                    Seq::empty()
                },
                Step::Year => years_in(self.start.year as int, self.end.year as int),
            },
    {
        match parse_step(range_type) {
            Some(step) => self.dates_by(step),
            None => Vec::new(),
        }
    }
}

/// The year of the month with the given number.
fn floor_div_12(k: i64) -> (year: i64)
    requires
        -100_000_000_000 <= k <= 100_000_000_000,
    ensures
        year == k as int / 12,
        0 <= k - year * 12 < 12,
{
    if k >= 0 {
        k / 12
    } else {
        let back: i64 = -(k + 1);
        let q: i64 = back / 12;
        let r: i64 = back % 12;
        assert(k as int / 12 == -q - 1) by {
            assert(k as int == 12 * (-q - 1) + (11 - r));
            vstd::arithmetic::div_mod::lemma_fundamental_div_mod_converse(
                k as int,
                12,
                -q - 1,
                11 - r,
            );
        }
        -q - 1
    }
}

} // verus!
