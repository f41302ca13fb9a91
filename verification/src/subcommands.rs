//! The reports: from the lines of the input and the options of a run to the
//! text of a report, or to the reason for which the run fails.

use vstd::prelude::*;
use crate::convert_seconds::{parse_unit, unit_of};
use crate::delta_datetimes::{delta_datetimes, deltas_of, i64_ints, u64_ints};
use crate::filter_datetimes::{
    keep_mask, kept, later_than, out_of_order, reject_datetimes_future_at,
    reject_datetimes_unsorted, select_datetimes,
};
use crate::group_datetimes::{
    bucket_readings, group_buckets, group_datetimes_with, group_keys, grouping_of, parse_grouping,
};
use crate::interval_map::IntervalMap;
use crate::parse_datetime::{parse_datetime_at, timestamp_reading};
use crate::printer::{
    count_report, delta_lines, located_lines, splits_report, sums_report, Printer,
};
use crate::search_datetimes::{located_in, located_view, search_datetimes};
use crate::split_intervals::{
    lists_of_ints, period_keys, period_values, periods_fit, splits_per_interval,
    sum_splits_per_interval, totals, totals_fit,
};
use crate::timestamp::{reading_of, readings, Reading, Timestamp};

verus! {

/// The options of a run.
#[derive(Debug)]
pub struct Options {
    /// Leave out the timestamps before this one.
    pub filter_start: Option<String>,
    /// Leave out the timestamps after this one.
    pub filter_end: Option<String>,
    /// Leave out the timestamps inside the range instead of those outside.
    pub filter_invert: bool,
    /// Fail if a timestamp lies in the future.
    pub no_future: bool,
    /// Fail if a timestamp stands before its predecessor.
    pub no_unsorted: bool,
    /// The grouping: `d`, `m`, `y` or `all`.
    pub per: String,
    /// Keep negative gaps instead of replacing them by zero.
    pub allow_negative: bool,
    /// The longest gap, in seconds, that does not end a period.
    pub timeout: u64,
    /// The unit of the periods and sums: `s`, `m`, `h` or `hms`.
    pub unit: String,
    /// Leave the line numbers and columns out of the list of timestamps.
    pub no_locations: bool,
}

/// What a run knows of the moment at which it runs.
#[derive(Clone, Copy, Debug)]
pub struct Clock {
    /// The offset of local time, in seconds east of UTC.
    pub local_offset: i32,
    /// The current instant: seconds since the epoch.
    pub now_secs: i64,
    /// The current instant: nanoseconds past the second.
    pub now_nanos: u32,
}

/// The reason for which a run fails.
#[derive(Debug)]
pub enum Failure {
    /// Some located timestamps cannot be read. All of them are listed.
    Unparseable(Vec<String>),
    /// The start of the range cannot be read.
    InvalidFilterStart(String),
    /// The end of the range cannot be read.
    InvalidFilterEnd(String),
    /// Some timestamps lie in the future. All of them are listed.
    Future(Vec<Timestamp>),
    /// Some timestamps stand before their predecessor. All are listed.
    Unsorted(Vec<Timestamp>),
    /// The selector names no grouping.
    UnknownInterval(String),
    /// The selector names no unit.
    UnknownUnit(String),
    /// A period or a sum is too long for a `u64`.
    TooLong,
}

/// The texts of the located timestamps.
pub open spec fn texts_of(found: Seq<(String, usize, usize)>) -> Seq<Seq<char>> {
    found.map_values(|f: (String, usize, usize)| f.0@)
}

/// The texts of the timestamps located in `lines`.
pub open spec fn located_texts(lines: Seq<String>) -> Seq<Seq<char>> {
    located_in(lines, lines.len() as int).map_values(|f: (Seq<char>, int, int)| f.0)
}

/// What strings hold.
pub open spec fn strings_view(strings: Seq<String>) -> Seq<Seq<char>> {
    strings.map_values(|s: String| s@)
}

/// Whether every text stands for a timestamp.
pub open spec fn all_texts_readable(texts: Seq<Seq<char>>, local_offset: i32) -> bool {
    forall|i: int| 0 <= i < texts.len() ==> timestamp_reading(#[trigger] texts[i], local_offset) is Some
}

/// The texts that stand for no timestamp, in order.
pub open spec fn unreadable_among(texts: Seq<Seq<char>>, local_offset: i32) -> Seq<Seq<char>>
    decreases texts.len(),
{
    if texts.len() == 0 {
        Seq::empty()
    } else if timestamp_reading(texts.last(), local_offset) is None {
        unreadable_among(texts.drop_last(), local_offset).push(texts.last())
    } else {
        unreadable_among(texts.drop_last(), local_offset)
    }
}

/// The timestamps that the texts stand for.
pub open spec fn read_all(texts: Seq<Seq<char>>, local_offset: i32) -> Seq<Reading> {
    Seq::new(texts.len(), |i: int| timestamp_reading(texts[i], local_offset)->0)
}

/// The timestamp that a bound of the range stands for, if one is given.
pub open spec fn bound_reading(bound: Option<String>, local_offset: i32) -> Option<Reading> {
    match bound {
        Some(text) => timestamp_reading(text@, local_offset),
        None => None,
    }
}

/// Whether a bound of the range, if given, can be read.
pub open spec fn bound_is_readable(bound: Option<String>, local_offset: i32) -> bool {
    bound is Some ==> timestamp_reading(bound->0@, local_offset) is Some
}

/// For each located timestamp, whether the options keep it.
pub open spec fn chosen_mask(texts: Seq<Seq<char>>, options: Options, clock: Clock) -> Seq<bool> {
    keep_mask(
        read_all(texts, clock.local_offset),
        bound_reading(options.filter_start, clock.local_offset),
        bound_reading(options.filter_end, clock.local_offset),
        options.filter_invert,
    )
}

/// The timestamps that the options keep, in order.
pub open spec fn chosen(texts: Seq<Seq<char>>, options: Options, clock: Clock) -> Seq<Reading> {
    kept(read_all(texts, clock.local_offset), chosen_mask(texts, options, clock))
}

/// Whether the timestamps and the bounds of the range can all be read.
pub open spec fn input_is_readable(texts: Seq<Seq<char>>, options: Options, clock: Clock) -> bool {
    &&& all_texts_readable(texts, clock.local_offset)
    &&& bound_is_readable(options.filter_start, clock.local_offset)
    &&& bound_is_readable(options.filter_end, clock.local_offset)
}

/// The kept timestamps that lie in the future.
pub open spec fn future_among(texts: Seq<Seq<char>>, options: Options, clock: Clock) -> Seq<
    Reading,
> {
    later_than(chosen(texts, options, clock), clock.now_secs, clock.now_nanos)
}

/// Whether the timestamps of the input are read, chosen and accepted.
pub open spec fn selection_succeeds(texts: Seq<Seq<char>>, options: Options, clock: Clock) -> bool {
    &&& input_is_readable(texts, options, clock)
    &&& options.no_future ==> future_among(texts, options, clock).len() == 0
    &&& options.no_unsorted ==> out_of_order(chosen(texts, options, clock)).len() == 0
}

/// Whether `failure` is the reason for which the timestamps of the input are
/// not accepted. The checks are made in this order: the located timestamps
/// are read, then the start and the end of the range, then timestamps in the
/// future are looked for, then timestamps out of order.
pub open spec fn selection_fails_with(
    texts: Seq<Seq<char>>,
    options: Options,
    clock: Clock,
    failure: Failure,
) -> bool {
    let offset = clock.local_offset;
    match failure {
        Failure::Unparseable(listed) => {
            &&& !all_texts_readable(texts, offset)
            &&& strings_view(listed@) == unreadable_among(texts, offset)
        },
        Failure::InvalidFilterStart(text) => {
            &&& all_texts_readable(texts, offset)
            &&& !bound_is_readable(options.filter_start, offset)
            &&& text@ == options.filter_start->0@
        },
        Failure::InvalidFilterEnd(text) => {
            &&& all_texts_readable(texts, offset)
            &&& bound_is_readable(options.filter_start, offset)
            &&& !bound_is_readable(options.filter_end, offset)
            &&& text@ == options.filter_end->0@
        },
        Failure::Future(listed) => {
            &&& input_is_readable(texts, options, clock)
            &&& options.no_future
            &&& listed.len() > 0
            &&& readings(listed@) == future_among(texts, options, clock)
        },
        Failure::Unsorted(listed) => {
            &&& input_is_readable(texts, options, clock)
            &&& options.no_future ==> future_among(texts, options, clock).len() == 0
            &&& options.no_unsorted
            &&& listed.len() > 0
            &&& readings(listed@) == out_of_order(chosen(texts, options, clock))
        },
        _ => false,
    }
}

/// Reads the located timestamps, taking text without an offset as local to
/// `local_offset`. If some cannot be read, their texts are handed back.
pub fn parse_located(found: &Vec<(String, usize, usize)>, local_offset: i32) -> (result: Result<
    Vec<Timestamp>,
    Vec<String>,
>)
    ensures
        result is Ok <==> all_texts_readable(texts_of(found@), local_offset),
        result is Ok ==> readings(result->Ok_0@) == read_all(texts_of(found@), local_offset),
        result is Err ==> strings_view(result->Err_0@) == unreadable_among(
            texts_of(found@),
            local_offset,
        ),
{
    let ghost texts = texts_of(found@);
    let mut read: Vec<Timestamp> = Vec::new();
    let mut unread: Vec<String> = Vec::new();
    let mut i: usize = 0;
    proof {
        assert(texts.take(0) == Seq::<Seq<char>>::empty());
        assert(strings_view(unread@) == Seq::<Seq<char>>::empty());
    }
    while i < found.len()
        invariant
            0 <= i <= found.len(),
            texts == texts_of(found@),
            strings_view(unread@) == unreadable_among(texts.take(i as int), local_offset),
            unread.len() == 0 ==> read.len() == i,
            unread.len() == 0 ==> forall|k: int|
                0 <= k < i ==> Some(#[trigger] read[k]@) == timestamp_reading(
                    texts[k],
                    local_offset,
                ),
            unread.len() > 0 ==> !all_texts_readable(texts, local_offset),
        decreases found.len() - i,
    {
        let text = &found[i].0;
        let ghost before = strings_view(unread@);
        proof {
            assert(texts[i as int] == text@);
            assert(texts.take(i + 1).drop_last() == texts.take(i as int));
            assert(texts.take(i + 1).last() == texts[i as int]);
        }
        match parse_datetime_at(text.as_str(), local_offset) {
            Some(timestamp) => {
                read.push(timestamp);
            },
            None => {
                unread.push(text.clone());
                proof {
                    assert(strings_view(unread@) == before.push(text@));
                    assert(timestamp_reading(texts[i as int], local_offset) is None);
                }
            },
        }
        i = i + 1;
    }
    proof {
        assert(texts.take(i as int) == texts);
    }
    if unread.len() == 0 {
        proof {
            assert forall|k: int| 0 <= k < texts.len() implies timestamp_reading(
                #[trigger] texts[k],
                local_offset,
            ) is Some by {
                assert(Some(read[k]@) == timestamp_reading(texts[k], local_offset));
            }
            assert(readings(read@) =~= read_all(texts, local_offset));
        }
        Ok(read)
    } else {
        Err(unread)
    }
}

/// Reads the start and the end of the range, where they are given.
pub fn parse_filter_start_end(options: &Options, local_offset: i32) -> (result: Result<
    (Option<Timestamp>, Option<Timestamp>),
    Failure,
>)
    ensures
        match result {
            Ok(bounds) => {
                &&& bound_is_readable(options.filter_start, local_offset)
                &&& bound_is_readable(options.filter_end, local_offset)
                &&& reading_of(bounds.0) == bound_reading(options.filter_start, local_offset)
                &&& reading_of(bounds.1) == bound_reading(options.filter_end, local_offset)
            },
            Err(Failure::InvalidFilterStart(text)) => {
                &&& !bound_is_readable(options.filter_start, local_offset)
                &&& text@ == options.filter_start->0@
            },
            Err(Failure::InvalidFilterEnd(text)) => {
                &&& bound_is_readable(options.filter_start, local_offset)
                &&& !bound_is_readable(options.filter_end, local_offset)
                &&& text@ == options.filter_end->0@
            },
            Err(_) => false,
        },
{
    let filter_start = match &options.filter_start {
        Some(text) => {
            match parse_datetime_at(text.as_str(), local_offset) {
                Some(timestamp) => Some(timestamp),
                None => {
                    return Err(Failure::InvalidFilterStart(text.clone()));
                },
            }
        },
        None => None,
    };
    let filter_end = match &options.filter_end {
        Some(text) => {
            match parse_datetime_at(text.as_str(), local_offset) {
                Some(timestamp) => Some(timestamp),
                None => {
                    return Err(Failure::InvalidFilterEnd(text.clone()));
                },
            }
        },
        None => None,
    };
    Ok((filter_start, filter_end))
}

/// Locates the timestamps in `lines`, reads them, chooses those of the range
/// and checks them as the options ask. Hands back the timestamps kept, all
/// located timestamps with their positions, and for each of these whether it
/// was kept.
pub fn get_datetimes_parsed_with_strs_and_positions(
    lines: &Vec<String>,
    options: &Options,
    clock: Clock,
) -> (result: Result<(Vec<Timestamp>, Vec<(String, usize, usize)>, Vec<bool>), Failure>)
    ensures
        match result {
            Ok(selection) => {
                &&& selection_succeeds(located_texts(lines@), *options, clock)
                &&& readings(selection.0@) == chosen(located_texts(lines@), *options, clock)
                &&& located_view(selection.1@) == located_in(lines@, lines.len() as int)
                &&& selection.2@ == chosen_mask(located_texts(lines@), *options, clock)
            },
            Err(failure) => selection_fails_with(located_texts(lines@), *options, clock, failure),
        },
{
    let found = search_datetimes(lines);
    let ghost texts = texts_of(found@);
    proof {
        assert(texts =~= located_texts(lines@)) by {
            let a = located_view(found@);
            assert forall|i: int| 0 <= i < texts.len() implies texts[i] == located_texts(
                lines@,
            )[i] by {
                assert(a[i].0 == found@[i].0@);
            }
        }
    }
    let parsed = match parse_located(&found, clock.local_offset) {
        Ok(parsed) => parsed,
        Err(unread) => {
            return Err(Failure::Unparseable(unread));
        },
    };
    let (filter_start, filter_end) = match parse_filter_start_end(options, clock.local_offset) {
        Ok(bounds) => bounds,
        Err(failure) => {
            return Err(failure);
        },
    };
    let (filtered, mask) = select_datetimes(
        &parsed,
        &filter_start,
        &filter_end,
        options.filter_invert,
    );
    if options.no_future {
        match reject_datetimes_future_at(&filtered, clock.now_secs, clock.now_nanos) {
            Ok(_) => {},
            Err(listed) => {
                return Err(Failure::Future(listed));
            },
        }
    }
    if options.no_unsorted {
        match reject_datetimes_unsorted(&filtered) {
            Ok(_) => {},
            Err(listed) => {
                return Err(Failure::Unsorted(listed));
            },
        }
    }
    Ok((filtered, found, mask))
}

/// The timestamps of `lines` that the options keep.
pub fn get_datetimes_parsed(lines: &Vec<String>, options: &Options, clock: Clock) -> (result:
    Result<Vec<Timestamp>, Failure>)
    ensures
        match result {
            Ok(datetimes) => {
                &&& selection_succeeds(located_texts(lines@), *options, clock)
                &&& readings(datetimes@) == chosen(located_texts(lines@), *options, clock)
            },
            Err(failure) => selection_fails_with(located_texts(lines@), *options, clock, failure),
        },
{
    match get_datetimes_parsed_with_strs_and_positions(lines, options, clock) {
        Ok(selection) => Ok(selection.0),
        Err(failure) => Err(failure),
    }
}

/// The gaps between the timestamps of `lines` that the options keep.
pub fn get_deltas(lines: &Vec<String>, options: &Options, clock: Clock) -> (result: Result<
    Vec<i64>,
    Failure,
>)
    ensures
        match result {
            Ok(deltas) => {
                &&& selection_succeeds(located_texts(lines@), *options, clock)
                &&& i64_ints(deltas@) == deltas_of(
                    chosen(located_texts(lines@), *options, clock),
                    options.allow_negative,
                )
            },
            Err(failure) => selection_fails_with(located_texts(lines@), *options, clock, failure),
        },
{
    match get_datetimes_parsed(lines, options, clock) {
        Ok(datetimes) => Ok(delta_datetimes(&datetimes, options.allow_negative)),
        Err(failure) => Err(failure),
    }
}

/// Whether `failure` is the reason for which the timestamps of the input
/// cannot be grouped: a reason for which they are not accepted, or, where
/// they are, a selector that names no grouping.
pub open spec fn grouping_fails_with(
    texts: Seq<Seq<char>>,
    options: Options,
    clock: Clock,
    failure: Failure,
) -> bool {
    match failure {
        Failure::UnknownInterval(selector) => {
            &&& selection_succeeds(texts, options, clock)
            &&& grouping_of(options.per@) is None
            &&& selector@ == options.per@
        },
        _ => selection_fails_with(texts, options, clock, failure),
    }
}

/// Whether the timestamps of the input are accepted and can be grouped.
pub open spec fn grouping_succeeds(texts: Seq<Seq<char>>, options: Options, clock: Clock) -> bool {
    selection_succeeds(texts, options, clock) && grouping_of(options.per@) is Some
}

/// The keys of the groups of the kept timestamps.
pub open spec fn chosen_keys(texts: Seq<Seq<char>>, options: Options, clock: Clock) -> Seq<
    Seq<char>,
> {
    group_keys(chosen(texts, options, clock), grouping_of(options.per@)->0)
}

/// The groups of the kept timestamps.
pub open spec fn chosen_buckets(texts: Seq<Seq<char>>, options: Options, clock: Clock) -> Seq<
    Seq<Reading>,
> {
    group_buckets(chosen(texts, options, clock), grouping_of(options.per@)->0)
}

/// The timestamps of `lines` that the options keep, grouped as the options
/// ask.
pub fn get_datetimes_grouped(lines: &Vec<String>, options: &Options, clock: Clock) -> (result:
    Result<IntervalMap<Vec<Timestamp>>, Failure>)
    ensures
        match result {
            Ok(grouped) => {
                &&& grouping_succeeds(located_texts(lines@), *options, clock)
                &&& grouped.keys() == chosen_keys(located_texts(lines@), *options, clock)
                &&& bucket_readings(grouped.values()) == chosen_buckets(
                    located_texts(lines@),
                    *options,
                    clock,
                )
            },
            Err(failure) => grouping_fails_with(located_texts(lines@), *options, clock, failure),
        },
{
    let datetimes = match get_datetimes_parsed(lines, options, clock) {
        Ok(datetimes) => datetimes,
        Err(failure) => {
            return Err(failure);
        },
    };
    match parse_grouping(options.per.as_str()) {
        Some(grouping) => Ok(group_datetimes_with(&datetimes, grouping)),
        None => Err(Failure::UnknownInterval(options.per.clone())),
    }
}

/// The keys of the groups of the kept timestamps that have a period.
pub open spec fn chosen_period_keys(texts: Seq<Seq<char>>, options: Options, clock: Clock) -> Seq<
    Seq<char>,
> {
    period_keys(
        chosen_keys(texts, options, clock),
        chosen_buckets(texts, options, clock),
        options.timeout as int,
        chosen_keys(texts, options, clock).len() as int,
    )
}

/// The periods of the groups of the kept timestamps that have a period.
pub open spec fn chosen_periods(texts: Seq<Seq<char>>, options: Options, clock: Clock) -> Seq<
    Seq<int>,
> {
    period_values(
        chosen_buckets(texts, options, clock),
        options.timeout as int,
        chosen_keys(texts, options, clock).len() as int,
    )
}

/// Whether the periods of the groups of the kept timestamps can be had.
pub open spec fn periods_succeed(texts: Seq<Seq<char>>, options: Options, clock: Clock) -> bool {
    &&& grouping_succeeds(texts, options, clock)
    &&& periods_fit(
        chosen_buckets(texts, options, clock),
        options.timeout as int,
        chosen_keys(texts, options, clock).len() as int,
    )
}

/// Whether `failure` is the reason for which the periods cannot be had: a
/// reason for which the timestamps cannot be grouped, or, where they can, a
/// period that is too long.
pub open spec fn periods_fail_with(
    texts: Seq<Seq<char>>,
    options: Options,
    clock: Clock,
    failure: Failure,
) -> bool {
    match failure {
        Failure::TooLong => {
            &&& grouping_succeeds(texts, options, clock)
            &&& !periods_succeed(texts, options, clock)
        },
        _ => grouping_fails_with(texts, options, clock, failure),
    }
}

/// Whether the sums of the periods can be had.
pub open spec fn sums_succeed(texts: Seq<Seq<char>>, options: Options, clock: Clock) -> bool {
    &&& periods_succeed(texts, options, clock)
    &&& totals_fit(chosen_periods(texts, options, clock))
}

/// Whether `failure` is the reason for which the sums cannot be had: a
/// reason for which the timestamps cannot be grouped, or, where they can, a
/// period or a sum that is too long.
pub open spec fn sums_fail_with(
    texts: Seq<Seq<char>>,
    options: Options,
    clock: Clock,
    failure: Failure,
) -> bool {
    match failure {
        Failure::TooLong => {
            &&& grouping_succeeds(texts, options, clock)
            &&& !sums_succeed(texts, options, clock)
        },
        _ => grouping_fails_with(texts, options, clock, failure),
    }
}

/// The periods of continuous activity of each group of the kept timestamps.
/// Negative gaps count as zero. A group without a period is left out.
pub fn get_splits_per_interval(lines: &Vec<String>, options: &Options, clock: Clock) -> (result:
    Result<IntervalMap<Vec<u64>>, Failure>)
    ensures
        match result {
            Ok(splits) => {
                &&& periods_succeed(located_texts(lines@), *options, clock)
                &&& splits.keys() == chosen_period_keys(located_texts(lines@), *options, clock)
                &&& lists_of_ints(splits.values()) == chosen_periods(
                    located_texts(lines@),
                    *options,
                    clock,
                )
            },
            Err(failure) => periods_fail_with(located_texts(lines@), *options, clock, failure),
        },
{
    let grouped = match get_datetimes_grouped(lines, options, clock) {
        Ok(grouped) => grouped,
        Err(failure) => {
            return Err(failure);
        },
    };
    match splits_per_interval(&grouped, options.timeout) {
        Some(splits) => Ok(splits),
        None => Err(Failure::TooLong),
    }
}

/// The sum of the periods of each group of the kept timestamps.
pub fn get_sum_splits_per_interval(lines: &Vec<String>, options: &Options, clock: Clock) -> (result:
    Result<IntervalMap<u64>, Failure>)
    ensures
        match result {
            Ok(sums) => {
                &&& sums_succeed(located_texts(lines@), *options, clock)
                &&& sums.keys() == chosen_period_keys(located_texts(lines@), *options, clock)
                &&& u64_ints(sums.values()) == totals(
                    chosen_periods(located_texts(lines@), *options, clock),
                )
            },
            Err(failure) => sums_fail_with(located_texts(lines@), *options, clock, failure),
        },
{
    let splits = match get_splits_per_interval(lines, options, clock) {
        Ok(splits) => splits,
        Err(failure) => {
            return Err(failure);
        },
    };
    match sum_splits_per_interval(&splits) {
        Some(sums) => Ok(sums),
        None => Err(Failure::TooLong),
    }
}

/// Whether `failure` is the reason for which the report of the periods
/// cannot be written: a reason for which the periods cannot be had, or,
/// where they can, a selector that names no unit.
pub open spec fn splits_report_fails_with(
    texts: Seq<Seq<char>>,
    options: Options,
    clock: Clock,
    failure: Failure,
) -> bool {
    match failure {
        Failure::UnknownUnit(selector) => {
            &&& periods_succeed(texts, options, clock)
            &&& unit_of(options.unit@) is None
            &&& selector@ == options.unit@
        },
        _ => periods_fail_with(texts, options, clock, failure),
    }
}

/// Whether `failure` is the reason for which the report of the sums cannot
/// be written: a reason for which the sums cannot be had, or, where they
/// can, a selector that names no unit.
pub open spec fn sums_report_fails_with(
    texts: Seq<Seq<char>>,
    options: Options,
    clock: Clock,
    failure: Failure,
) -> bool {
    match failure {
        Failure::UnknownUnit(selector) => {
            &&& sums_succeed(texts, options, clock)
            &&& unit_of(options.unit@) is None
            &&& selector@ == options.unit@
        },
        _ => sums_fail_with(texts, options, clock, failure),
    }
}

/// The report `locate`: the timestamps located in `lines`, one to a line,
/// with their line numbers and columns unless the options leave them out.
pub fn locate(lines: &Vec<String>, options: &Options, printer: &mut Printer)
    ensures
        final(printer)@ == old(printer)@ + located_lines(
            located_in(lines@, lines.len() as int),
            !options.no_locations,
        ),
{
    let found = search_datetimes(lines);
    if options.no_locations {
        printer.print_datetimes_no_locations(&found);
    } else {
        printer.print_datetimes_and_locations(&found);
    }
}

/// The report `count`: the number of kept timestamps in each group.
pub fn count(lines: &Vec<String>, options: &Options, clock: Clock, printer: &mut Printer) -> (result:
    Result<(), Failure>)
    ensures
        match result {
            Ok(_) => {
                &&& grouping_succeeds(located_texts(lines@), *options, clock)
                &&& final(printer)@ == old(printer)@ + count_report(
                    chosen_keys(located_texts(lines@), *options, clock),
                    chosen_buckets(located_texts(lines@), *options, clock),
                )
            },
            Err(failure) => {
                &&& grouping_fails_with(located_texts(lines@), *options, clock, failure)
                &&& final(printer)@ == old(printer)@
            },
        },
{
    match get_datetimes_grouped(lines, options, clock) {
        Ok(grouped) => {
            printer.print_counts_datetimes_grouped(&grouped);
            Ok(())
        },
        Err(failure) => Err(failure),
    }
}

/// The report `deltas`: the gaps between the kept timestamps, one to a line.
pub fn deltas(lines: &Vec<String>, options: &Options, clock: Clock, printer: &mut Printer) -> (result:
    Result<(), Failure>)
    ensures
        match result {
            Ok(_) => {
                &&& selection_succeeds(located_texts(lines@), *options, clock)
                &&& final(printer)@ == old(printer)@ + delta_lines(
                    deltas_of(
                        chosen(located_texts(lines@), *options, clock),
                        options.allow_negative,
                    ),
                )
            },
            Err(failure) => {
                &&& selection_fails_with(located_texts(lines@), *options, clock, failure)
                &&& final(printer)@ == old(printer)@
            },
        },
{
    match get_deltas(lines, options, clock) {
        Ok(deltas) => {
            printer.print_deltas(&deltas);
            Ok(())
        },
        Err(failure) => Err(failure),
    }
}

/// The report `splits`: the periods of continuous activity of each group,
/// written in the unit of the options.
pub fn splits(lines: &Vec<String>, options: &Options, clock: Clock, printer: &mut Printer) -> (result:
    Result<(), Failure>)
    ensures
        match result {
            Ok(_) => {
                &&& periods_succeed(located_texts(lines@), *options, clock)
                &&& unit_of(options.unit@) is Some
                &&& final(printer)@ == old(printer)@ + splits_report(
                    chosen_period_keys(located_texts(lines@), *options, clock),
                    chosen_periods(located_texts(lines@), *options, clock),
                    unit_of(options.unit@)->0,
                )
            },
            Err(failure) => {
                &&& splits_report_fails_with(located_texts(lines@), *options, clock, failure)
                &&& final(printer)@ == old(printer)@
            },
        },
{
    let splits = match get_splits_per_interval(lines, options, clock) {
        Ok(splits) => splits,
        Err(failure) => {
            return Err(failure);
        },
    };
    match parse_unit(options.unit.as_str()) {
        Some(unit) => {
            printer.print_splits(&splits, unit);
            Ok(())
        },
        None => Err(Failure::UnknownUnit(options.unit.clone())),
    }
}

/// The report `sum`: the sum of the periods of each group, written in the
/// unit of the options.
pub fn sum(lines: &Vec<String>, options: &Options, clock: Clock, printer: &mut Printer) -> (result:
    Result<(), Failure>)
    ensures
        match result {
            Ok(_) => {
                &&& sums_succeed(located_texts(lines@), *options, clock)
                &&& unit_of(options.unit@) is Some
                &&& final(printer)@ == old(printer)@ + sums_report(
                    chosen_period_keys(located_texts(lines@), *options, clock),
                    totals(chosen_periods(located_texts(lines@), *options, clock)),
                    unit_of(options.unit@)->0,
                )
            },
            Err(failure) => {
                &&& sums_report_fails_with(located_texts(lines@), *options, clock, failure)
                &&& final(printer)@ == old(printer)@
            },
        },
{
    let sums = match get_sum_splits_per_interval(lines, options, clock) {
        Ok(sums) => sums,
        Err(failure) => {
            return Err(failure);
        },
    };
    match parse_unit(options.unit.as_str()) {
        Some(unit) => {
            printer.print_sums(&sums, unit);
            Ok(())
        },
        None => Err(Failure::UnknownUnit(options.unit.clone())),
    }
}

impl Clock {
    /// Whether a clock can show this: an offset of less than a day to either
    /// side, and less than a second's worth of nanoseconds past the second.
    pub open spec fn can_be_shown(self) -> bool {
        &&& -86_400 < self.local_offset < 86_400
        &&& self.now_nanos < 1_000_000_000
    }

    /// Reads the clock and the time zone of the machine. What they show
    /// differs from call to call; it is always something a clock can show.
    pub fn now() -> (clock: Clock)
        ensures
            clock.can_be_shown(),
    {
        let (now_secs, now_nanos) = crate::filter_datetimes::utc_now();
        Clock { local_offset: crate::parse_datetime::local_offset_seconds(), now_secs, now_nanos }
    }
}

} // verus!
