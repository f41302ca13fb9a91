//! Reading a timestamp from its text.

use vstd::prelude::*;
use chrono::Datelike;
use crate::text::{chars_of, string_of};
use crate::timestamp::{reading_of, LocalReading, Reading, Timestamp};

verus! {

/// `s` with every occurrence of `pattern` replaced by `with`, the occurrences
/// taken from left to right and never overlapping.
pub open spec fn replace_all(s: Seq<char>, pattern: Seq<char>, with: Seq<char>) -> Seq<char>
    decreases s.len(),
{
    if pattern.len() == 0 || s.len() < pattern.len() {
        s
    } else if s.take(pattern.len() as int) == pattern {
        with + replace_all(s.skip(pattern.len() as int), pattern, with)
    } else {
        seq![s[0]] + replace_all(s.skip(1), pattern, with)
    }
}

/// `text` with the time zone abbreviations `UTC`, `AEST` and `AEDT` replaced
/// by their numeric offsets, wherever they stand.
pub open spec fn normalized(text: Seq<char>) -> Seq<char> {
    replace_all(
        replace_all(
            replace_all(text, seq!['U', 'T', 'C'], seq!['+', '0', '0', '0', '0']),
            seq!['A', 'E', 'S', 'T'],
            seq!['+', '1', '0', '0', '0'],
        ),
        seq!['A', 'E', 'D', 'T'],
        seq!['+', '1', '1', '0', '0'],
    )
}

/// Whether `pattern` stands in `s` at position `at`.
fn stands_at(s: &Vec<char>, at: usize, pattern: &Vec<char>) -> (result: bool)
    requires
        at + pattern.len() <= s.len(),
    ensures
        result == (s@.skip(at as int).take(pattern.len() as int) == pattern@),
{
    let ghost window = s@.skip(at as int).take(pattern.len() as int);
    let mut k: usize = 0;
    while k < pattern.len()
        invariant
            0 <= k <= pattern.len(),
            at + pattern.len() <= s.len(),
            window == s@.skip(at as int).take(pattern.len() as int),
            forall|j: int| 0 <= j < k ==> window[j] == pattern@[j],
        decreases pattern.len() - k,
    {
        if s[at + k] != pattern[k] {
            assert(window[k as int] != pattern@[k as int]);
            return false;
        }
        k = k + 1;
    }
    assert(window =~= pattern@);
    true
}

/// Replaces every occurrence of `pattern` in `s` by `with`.
fn replace_chars(s: &Vec<char>, pattern: &Vec<char>, with: &Vec<char>) -> (result: Vec<char>)
    requires
        pattern.len() > 0,
    ensures
        result@ == replace_all(s@, pattern@, with@),
{
    let mut result: Vec<char> = Vec::new();
    let mut i: usize = 0;
    proof {
        assert(s@.skip(0) == s@);
        assert(result@ + replace_all(s@, pattern@, with@) == replace_all(s@, pattern@, with@));
    }
    while pattern.len() <= s.len() - i
        invariant
            0 <= i <= s.len(),
            pattern.len() > 0,
            result@ + replace_all(s@.skip(i as int), pattern@, with@) == replace_all(
                s@,
                pattern@,
                with@,
            ),
        decreases s.len() - i,
    {
        let ghost rest = s@.skip(i as int);
        let ghost before = result@;
        if stands_at(s, i, pattern) {
            let mut k: usize = 0;
            while k < with.len()
                invariant
                    0 <= k <= with.len(),
                    result@ == before + with@.take(k as int),
                decreases with.len() - k,
            {
                result.push(with[k]);
                proof {
                    assert(with@.take(k + 1) == with@.take(k as int).push(with@[k as int]));
                }
                k = k + 1;
            }
            proof {
                assert(with@.take(k as int) == with@);
                assert(rest.skip(pattern.len() as int) == s@.skip(i + pattern.len()));
                assert(result@ + replace_all(s@.skip(i + pattern.len()), pattern@, with@)
                    == before + (with@ + replace_all(
                    rest.skip(pattern.len() as int),
                    pattern@,
                    with@,
                )));
            }
            i = i + pattern.len();
        } else {
            result.push(s[i]);
            proof {
                assert(rest.skip(1) == s@.skip(i + 1));
                assert(result@ + replace_all(s@.skip(i + 1), pattern@, with@) == before + (
                seq![rest[0]] + replace_all(rest.skip(1), pattern@, with@)));
            }
            i = i + 1;
        }
    }
    let ghost before = result@;
    let ghost from = i;
    while i < s.len()
        invariant
            from <= i <= s.len(),
            result@ == before + s@.skip(from as int).take(i - from),
        decreases s.len() - i,
    {
        result.push(s[i]);
        proof {
            let tail = s@.skip(from as int);
            assert(tail.take(i + 1 - from) == tail.take(i - from).push(s@[i as int]));
        }
        i = i + 1;
    }
    proof {
        let tail = s@.skip(from as int);
        assert(tail.take(i - from) == tail);
    }
    result
}

/// Replaces the known time zone abbreviations in `text` by numeric offsets.
pub fn map_tzcode_to_tzoffset(text: &str) -> (result: String)
    ensures
        result@ == normalized(text@),
{
    let chars = chars_of(text);
    let utc = vec!['U', 'T', 'C'];
    let aest = vec!['A', 'E', 'S', 'T'];
    let aedt = vec!['A', 'E', 'D', 'T'];
    let plus_zero = vec!['+', '0', '0', '0', '0'];
    let plus_ten = vec!['+', '1', '0', '0', '0'];
    let plus_eleven = vec!['+', '1', '1', '0', '0'];
    proof {
        assert(utc@ == seq!['U', 'T', 'C']);
        assert(aest@ == seq!['A', 'E', 'S', 'T']);
        assert(aedt@ == seq!['A', 'E', 'D', 'T']);
        assert(plus_zero@ == seq!['+', '0', '0', '0', '0']);
        assert(plus_ten@ == seq!['+', '1', '0', '0', '0']);
        assert(plus_eleven@ == seq!['+', '1', '1', '0', '0']);
    }
    let step1 = replace_chars(&chars, &utc, &plus_zero);
    let step2 = replace_chars(&step1, &aest, &plus_ten);
    let step3 = replace_chars(&step2, &aedt, &plus_eleven);
    string_of(&step3)
}

/// What `chrono::DateTime::parse_from_rfc3339` reads from `text`: `None`
/// where it reports an error.
pub uninterp spec fn rfc3339_reading(text: Seq<char>) -> Option<Reading>;

/// What `chrono::DateTime::parse_from_str` reads from `text` under `format`:
/// `None` where it reports an error.
pub uninterp spec fn offset_format_reading(text: Seq<char>, format: Seq<char>) -> Option<Reading>;

/// What `chrono::NaiveDateTime::parse_from_str` reads from `text` under
/// `format`: `None` where it reports an error.
pub uninterp spec fn naive_format_reading(text: Seq<char>, format: Seq<char>) -> Option<
    LocalReading,
>;

/// Calls `chrono::DateTime::parse_from_rfc3339` and hands back the numbers of
/// the date and time it read: its Unix timestamp, the nanoseconds past the
/// second, the offset of the text, and the year, month and day in that
/// offset. Nothing is claimed of which texts it accepts.
#[verifier::external_body]
fn read_rfc3339(text: &str) -> (result: Option<Reading>)
    ensures
        result == rfc3339_reading(text@),
{
    match chrono::DateTime::parse_from_rfc3339(text) {
        Ok(dt) => Some(Reading {
            secs: dt.timestamp(),
            nanos: dt.timestamp_subsec_nanos(),
            offset: dt.offset().local_minus_utc(),
            year: dt.year(),
            month: dt.month(),
            day: dt.day(),
        }),
        Err(_) => None,
    }
}

/// Calls `chrono::DateTime::parse_from_str` with the given format and hands
/// back the numbers of the date and time it read, as `read_rfc3339` does.
/// Nothing is claimed of which texts it accepts.
#[verifier::external_body]
fn read_offset_format(text: &str, format: &str) -> (result: Option<Reading>)
    ensures
        result == offset_format_reading(text@, format@),
{
    match chrono::DateTime::parse_from_str(text, format) {
        Ok(dt) => Some(Reading {
            secs: dt.timestamp(),
            nanos: dt.timestamp_subsec_nanos(),
            offset: dt.offset().local_minus_utc(),
            year: dt.year(),
            month: dt.month(),
            day: dt.day(),
        }),
        Err(_) => None,
    }
}

/// Calls `chrono::NaiveDateTime::parse_from_str` with the given format and
/// hands back the numbers of the date and time it read: the seconds and
/// nanoseconds that chrono counts for it when it is taken as a time in UTC,
/// and its year, month and day. Nothing is claimed of which texts it
/// accepts.
#[verifier::external_body]
fn read_naive_format(text: &str, format: &str) -> (result: Option<LocalReading>)
    ensures
        result == naive_format_reading(text@, format@),
{
    match chrono::NaiveDateTime::parse_from_str(text, format) {
        Ok(naive) => Some(LocalReading {
            secs: naive.and_utc().timestamp(),
            nanos: naive.and_utc().timestamp_subsec_nanos(),
            year: naive.year(),
            month: naive.month(),
            day: naive.day(),
        }),
        Err(_) => None,
    }
}

/// Calls `chrono::Local::now` and hands back the offset of the local time
/// zone at this moment, in seconds east of UTC. The result depends on the
/// clock and on the time zone of the machine. Claimed is only what holds of
/// every `chrono::FixedOffset`: chrono makes none of a whole day or more.
/// chrono stops the program if the clock stands before 1970.
#[verifier::external_body]
pub(crate) fn local_offset_seconds() -> (offset: i32)
    ensures
        -86_400 < offset < 86_400,
{
    chrono::Local::now().offset().local_minus_utc()
}

/// The format of a date and time with a numeric offset that has no colon.
pub open spec fn offset_format() -> Seq<char> {
    "%Y-%m-%dT%H:%M:%S%z"@
}

/// The format of a date and time without an offset, joined by `T`.
pub open spec fn naive_format() -> Seq<char> {
    "%Y-%m-%dT%H:%M:%S"@
}

/// The format of a date and time without an offset, joined by a space.
pub open spec fn spaced_format() -> Seq<char> {
    "%Y-%m-%d %H:%M:%S"@
}

/// A local date and time placed in the given offset: the same calendar
/// fields, at the instant that lies `offset` seconds before the same date and
/// time in UTC. `None` if that instant cannot be held.
pub open spec fn at_offset(local: LocalReading, offset: i32) -> Option<Reading> {
    if i64::MIN <= local.secs - offset <= i64::MAX {
        Some(
            Reading {
                secs: (local.secs - offset) as i64,
                nanos: local.nanos,
                offset,
                year: local.year,
                month: local.month,
                day: local.day,
            },
        )
    } else {
        None
    }
}

/// Whether `text` names its own offset, so that the local one plays no part.
pub open spec fn carries_offset(text: Seq<char>) -> bool {
    rfc3339_reading(normalized(text)) is Some || offset_format_reading(
        normalized(text),
        offset_format(),
    ) is Some
}

/// The first reading that one of the accepted forms gives for `text`, after
/// the time zone abbreviations are replaced: RFC 3339, then the same with an
/// offset without colon, then a date and time without offset joined by `T`,
/// then by a space. The last two are placed in `local_offset`.
pub open spec fn first_reading(text: Seq<char>, local_offset: i32) -> Option<Reading> {
    let t = normalized(text);
    if rfc3339_reading(t) is Some {
        rfc3339_reading(t)
    } else if offset_format_reading(t, offset_format()) is Some {
        offset_format_reading(t, offset_format())
    } else if naive_format_reading(t, naive_format()) is Some {
        at_offset(naive_format_reading(t, naive_format())->0, local_offset)
    } else if naive_format_reading(t, spaced_format()) is Some {
        at_offset(naive_format_reading(t, spaced_format())->0, local_offset)
    } else {
        None
    }
}

/// The timestamp that `text` stands for where offset-less text is local to
/// `local_offset`, or `None` if no accepted form reads it or the numbers are
/// out of range.
pub open spec fn timestamp_reading(text: Seq<char>, local_offset: i32) -> Option<Reading> {
    let found = first_reading(text, local_offset);
    if found is Some && found->0.in_range() {
        found
    } else {
        None
    }
}

/// Places a local date and time in the given offset.
fn place_at_offset(local: LocalReading, offset: i32) -> (result: Option<Reading>)
    ensures
        result == at_offset(local, offset),
{
    let secs: i128 = local.secs as i128 - offset as i128;
    if secs < i64::MIN as i128 || secs > i64::MAX as i128 {
        None
    } else {
        Some(
            Reading {
                secs: secs as i64,
                nanos: local.nanos,
                offset,
                year: local.year,
                month: local.month,
                day: local.day,
            },
        )
    }
}

/// The timestamp of a reading that may be absent or out of range.
fn timestamp_of(found: Option<Reading>) -> (result: Option<Timestamp>)
    ensures
        reading_of(result) == if found is Some && found->0.in_range() {
            found
        } else {
            None
        },
{
    match found {
        Some(reading) => Timestamp::new(reading),
        None => None,
    }
}

/// Reads a timestamp from `datetime_str`, taking text without an offset as
/// local to `local_offset` seconds east of UTC.
pub fn parse_datetime_at(datetime_str: &str, local_offset: i32) -> (result: Option<Timestamp>)
    ensures
        reading_of(result) == timestamp_reading(datetime_str@, local_offset),
{
    let text = map_tzcode_to_tzoffset(datetime_str);
    let strict = read_rfc3339(text.as_str());
    if strict.is_some() {
        return timestamp_of(strict);
    }
    let compact = read_offset_format(text.as_str(), "%Y-%m-%dT%H:%M:%S%z");
    if compact.is_some() {
        return timestamp_of(compact);
    }
    let joined = read_naive_format(text.as_str(), "%Y-%m-%dT%H:%M:%S");
    if let Some(local) = joined {
        return timestamp_of(place_at_offset(local, local_offset));
    }
    let spaced = read_naive_format(text.as_str(), "%Y-%m-%d %H:%M:%S");
    if let Some(local) = spaced {
        return timestamp_of(place_at_offset(local, local_offset));
    }
    None
}

/// Reads a timestamp from `datetime_str`. Text without an offset is taken as
/// local time in the offset that the machine has at the moment of the call.
pub fn parse_datetime(datetime_str: &str) -> (result: Option<Timestamp>)
    ensures
        exists|local_offset: i32|
            reading_of(result) == #[trigger] timestamp_reading(datetime_str@, local_offset),
        carries_offset(datetime_str@) ==> reading_of(result) == timestamp_reading(
            datetime_str@,
            0,
        ),
{
    let local_offset = local_offset_seconds();
    parse_datetime_at(datetime_str, local_offset)
}

/// Whether every text of `texts` stands for a timestamp, offset-less text
/// being local to `local_offset`.
pub open spec fn all_readable(texts: Seq<String>, local_offset: i32) -> bool {
    forall|i: int| 0 <= i < texts.len() ==> timestamp_reading(texts[i]@, local_offset) is Some
}

/// Reads a timestamp from each text, taking text without an offset as local
/// to `local_offset`. One text that cannot be read makes the whole result
/// `None`.
pub fn parse_datetimes_at(datetimes_strs: &Vec<String>, local_offset: i32) -> (result: Option<
    Vec<Timestamp>,
>)
    ensures
        result is Some <==> all_readable(datetimes_strs@, local_offset),
        result is Some ==> result->0.len() == datetimes_strs.len(),
        result is Some ==> forall|i: int|
            0 <= i < datetimes_strs.len() ==> Some(#[trigger] result->0[i]@) == timestamp_reading(
                datetimes_strs[i]@,
                local_offset,
            ),
{
    let mut result: Vec<Timestamp> = Vec::new();
    let mut i: usize = 0;
    while i < datetimes_strs.len()
        invariant
            0 <= i <= datetimes_strs.len(),
            result.len() == i,
            forall|k: int|
                0 <= k < i ==> Some(#[trigger] result[k]@) == timestamp_reading(
                    datetimes_strs[k]@,
                    local_offset,
                ),
        decreases datetimes_strs.len() - i,
    {
        match parse_datetime_at(datetimes_strs[i].as_str(), local_offset) {
            Some(timestamp) => {
                result.push(timestamp);
            },
            None => {
                assert(timestamp_reading(datetimes_strs@[i as int]@, local_offset) is None);
                return None;
            },
        }
        i = i + 1;
    }
    proof {
        assert forall|k: int| 0 <= k < datetimes_strs.len() implies timestamp_reading(
            datetimes_strs@[k]@,
            local_offset,
        ) is Some by {
            assert(Some(result[k]@) == timestamp_reading(datetimes_strs[k]@, local_offset));
        }
    }
    Some(result)
}

/// Whether `text` stands for the timestamp `reading` in some local offset.
pub open spec fn reads_as(text: Seq<char>, reading: Reading) -> bool {
    exists|local_offset: i32| #[trigger] timestamp_reading(text, local_offset) == Some(reading)
}

/// Whether `text` stands for no timestamp in some local offset.
pub open spec fn unreadable(text: Seq<char>) -> bool {
    exists|local_offset: i32| #[trigger] timestamp_reading(text, local_offset) is None
}

/// Reads a timestamp from each text, as `parse_datetime` does. One text that
/// cannot be read makes the whole result `None`.
pub fn parse_datetimes(datetimes_strs: &Vec<String>) -> (result: Option<Vec<Timestamp>>)
    ensures
        result is Some ==> result->0.len() == datetimes_strs.len(),
        result is Some ==> forall|i: int|
            0 <= i < datetimes_strs.len() ==> reads_as(
                #[trigger] datetimes_strs[i]@,
                result->0[i]@,
            ),
        result is None ==> exists|i: int|
            0 <= i < datetimes_strs.len() && unreadable(#[trigger] datetimes_strs[i]@),
{
    let mut result: Vec<Timestamp> = Vec::new();
    let mut i: usize = 0;
    while i < datetimes_strs.len()
        invariant
            0 <= i <= datetimes_strs.len(),
            result.len() == i,
            forall|k: int|
                0 <= k < i ==> reads_as(#[trigger] datetimes_strs[k]@, result[k]@),
        decreases datetimes_strs.len() - i,
    {
        match parse_datetime(datetimes_strs[i].as_str()) {
            Some(timestamp) => {
                result.push(timestamp);
                assert(reads_as(datetimes_strs[i as int]@, timestamp@));
            },
            None => {
                assert(unreadable(datetimes_strs[i as int]@));
                return None;
            },
        }
        i = i + 1;
    }
    Some(result)
}

} // verus!
