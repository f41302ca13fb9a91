//! Choosing the timestamps of a range, and the checks that reject timestamps
//! in the future or out of order.

use vstd::prelude::*;
use crate::timestamp::{at_or_before, reading_of, readings, Reading, Timestamp};

verus! {

/// Whether `t` lies in the range: not before `start`, where one is given, and
/// not after `end`, where one is given.
pub open spec fn in_range(t: Reading, start: Option<Reading>, end: Option<Reading>) -> bool {
    &&& start is Some ==> at_or_before(start->0, t)
    &&& end is Some ==> at_or_before(t, end->0)
}

/// The items of `items` whose entry in `mask` is set, in order.
pub open spec fn kept<T>(items: Seq<T>, mask: Seq<bool>) -> Seq<T>
    recommends
        items.len() == mask.len(),
    decreases items.len(),
{
    if items.len() == 0 || mask.len() == 0 {
        Seq::empty()
    } else if mask.last() {
        kept(items.drop_last(), mask.drop_last()).push(items.last())
    } else {
        kept(items.drop_last(), mask.drop_last())
    }
}

/// For each timestamp, whether it is kept: whether it lies in the range, or,
/// with `invert` set, whether it lies outside.
pub open spec fn keep_mask(
    ts: Seq<Reading>,
    start: Option<Reading>,
    end: Option<Reading>,
    invert: bool,
) -> Seq<bool> {
    Seq::new(ts.len(), |i: int| in_range(ts[i], start, end) != invert)
}

/// For each timestamp, whether it lies in the range from `filter_start` to
/// `filter_end`. A bound that is not given leaves its side open.
pub fn filter_datetimes_valid_indexes(
    datetimes: &Vec<Timestamp>,
    filter_start: &Option<Timestamp>,
    filter_end: &Option<Timestamp>,
) -> (result: Vec<bool>)
    ensures
        result@ == keep_mask(
            readings(datetimes@),
            reading_of(*filter_start),
            reading_of(*filter_end),
            false,
        ),
{
    let mut result: Vec<bool> = Vec::new();
    let mut i: usize = 0;
    while i < datetimes.len()
        invariant
            0 <= i <= datetimes.len(),
            result.len() == i,
            forall|k: int|
                0 <= k < i ==> result[k] == in_range(
                    datetimes[k]@,
                    reading_of(*filter_start),
                    reading_of(*filter_end),
                ),
        decreases datetimes.len() - i,
    {
        let t = &datetimes[i];
        let after_start = match filter_start {
            Some(start) => start.is_at_or_before(t),
            None => true,
        };
        let before_end = match filter_end {
            Some(end) => t.is_at_or_before(end),
            None => true,
        };
        result.push(after_start && before_end);
        i = i + 1;
    }
    assert(result@ =~= keep_mask(
        readings(datetimes@),
        reading_of(*filter_start),
        reading_of(*filter_end),
        false,
    ));
    result
}

/// The timestamps that are kept and, for each timestamp of the input, whether
/// it is kept. A timestamp is kept if it lies in the range; with `invert`
/// set, if it lies outside.
pub fn select_datetimes(
    datetimes: &Vec<Timestamp>,
    filter_start: &Option<Timestamp>,
    filter_end: &Option<Timestamp>,
    invert: bool,
) -> (result: (Vec<Timestamp>, Vec<bool>))
    ensures
        result.1@ == keep_mask(
            readings(datetimes@),
            reading_of(*filter_start),
            reading_of(*filter_end),
            invert,
        ),
        readings(result.0@) == kept(readings(datetimes@), result.1@),
{
    let in_range = filter_datetimes_valid_indexes(datetimes, filter_start, filter_end);
    let mut chosen: Vec<Timestamp> = Vec::new();
    let mut mask: Vec<bool> = Vec::new();
    let mut i: usize = 0;
    let ghost ts = readings(datetimes@);
    assert(ts.take(0) == Seq::<Reading>::empty());
    assert(readings(chosen@) == Seq::<Reading>::empty());
    while i < datetimes.len()
        invariant
            0 <= i <= datetimes.len(),
            ts == readings(datetimes@),
            in_range.len() == datetimes.len(),
            mask.len() == i,
            forall|k: int| 0 <= k < i ==> mask[k] == (in_range[k] != invert),
            readings(chosen@) == kept(ts.take(i as int), mask@),
        decreases datetimes.len() - i,
    {
        let keep = in_range[i] != invert;
        let ghost old_mask = mask@;
        let ghost old_chosen = readings(chosen@);
        mask.push(keep);
        if keep {
            chosen.push(datetimes[i]);
            assert(readings(chosen@) == old_chosen.push(datetimes[i as int]@));
        }
        proof {
            assert(ts.take(i + 1).drop_last() == ts.take(i as int));
            assert(mask@.drop_last() == old_mask);
        }
        i = i + 1;
    }
    proof {
        assert(ts.take(i as int) == ts);
        assert(mask@ =~= keep_mask(
            readings(datetimes@),
            reading_of(*filter_start),
            reading_of(*filter_end),
            invert,
        ));
    }
    (chosen, mask)
}

/// Whether the instant of `t` lies after the given moment.
pub open spec fn is_after(t: Reading, secs: i64, nanos: u32) -> bool {
    t.secs > secs || (t.secs == secs && t.nanos > nanos)
}

/// The timestamps of `ts` that lie after the given moment, in order.
pub open spec fn later_than(ts: Seq<Reading>, secs: i64, nanos: u32) -> Seq<Reading>
    decreases ts.len(),
{
    if ts.len() == 0 {
        Seq::empty()
    } else if is_after(ts.last(), secs, nanos) {
        later_than(ts.drop_last(), secs, nanos).push(ts.last())
    } else {
        later_than(ts.drop_last(), secs, nanos)
    }
}

/// The timestamps of `ts` that stand before their predecessor in time, in
/// order. The first timestamp has no predecessor.
pub open spec fn out_of_order(ts: Seq<Reading>) -> Seq<Reading>
    decreases ts.len(),
{
    if ts.len() <= 1 {
        Seq::empty()
    } else if !at_or_before(ts[ts.len() - 2], ts.last()) {
        out_of_order(ts.drop_last()).push(ts.last())
    } else {
        out_of_order(ts.drop_last())
    }
}

/// What a check says of a list of timestamps: nothing where no timestamp
/// offends, and else all that do.
pub open spec fn verdict(offenders: Seq<Reading>, result: Result<(), Vec<Timestamp>>) -> bool {
    match result {
        Ok(_) => offenders.len() == 0,
        Err(listed) => offenders.len() > 0 && readings(listed@) == offenders,
    }
}

/// Rejects timestamps that lie after the given moment, naming all of them.
pub fn reject_datetimes_future_at(datetimes: &Vec<Timestamp>, now_secs: i64, now_nanos: u32) -> (result:
    Result<(), Vec<Timestamp>>)
    ensures
        verdict(later_than(readings(datetimes@), now_secs, now_nanos), result),
{
    let mut offenders: Vec<Timestamp> = Vec::new();
    let mut i: usize = 0;
    let ghost ts = readings(datetimes@);
    assert(ts.take(0) == Seq::<Reading>::empty());
    assert(readings(offenders@) == Seq::<Reading>::empty());
    while i < datetimes.len()
        invariant
            0 <= i <= datetimes.len(),
            ts == readings(datetimes@),
            readings(offenders@) == later_than(ts.take(i as int), now_secs, now_nanos),
        decreases datetimes.len() - i,
    {
        let t = datetimes[i];
        let ghost before = readings(offenders@);
        proof {
            assert(ts.take(i + 1).drop_last() == ts.take(i as int));
        }
        if t.timestamp() > now_secs || (t.timestamp() == now_secs && t.subsec_nanos()
            > now_nanos) {
            offenders.push(t);
            assert(readings(offenders@) == before.push(t@));
        }
        i = i + 1;
    }
    proof {
        assert(ts.take(i as int) == ts);
    }
    if offenders.len() == 0 {
        Ok(())
    } else {
        Err(offenders)
    }
}

/// Rejects timestamps that stand before their predecessor in time, naming all
/// of them.
pub fn reject_datetimes_unsorted(datetimes: &Vec<Timestamp>) -> (result: Result<
    (),
    Vec<Timestamp>,
>)
    ensures
        verdict(out_of_order(readings(datetimes@)), result),
{
    let mut offenders: Vec<Timestamp> = Vec::new();
    if datetimes.len() == 0 {
        return Ok(());
    }
    let mut i: usize = 1;
    let ghost ts = readings(datetimes@);
    assert(out_of_order(ts.take(1)) == Seq::<Reading>::empty());
    assert(readings(offenders@) == Seq::<Reading>::empty());
    while i < datetimes.len()
        invariant
            1 <= i <= datetimes.len(),
            ts == readings(datetimes@),
            readings(offenders@) == out_of_order(ts.take(i as int)),
        decreases datetimes.len() - i,
    {
        let ghost before = readings(offenders@);
        proof {
            assert(ts.take(i + 1).drop_last() == ts.take(i as int));
        }
        if !datetimes[i - 1].is_at_or_before(&datetimes[i]) {
            offenders.push(datetimes[i]);
            assert(readings(offenders@) == before.push(datetimes[i as int]@));
        }
        i = i + 1;
    }
    proof {
        assert(ts.take(i as int) == ts);
    }
    if offenders.len() == 0 {
        Ok(())
    } else {
        Err(offenders)
    }
}

/// Calls `chrono::Utc::now` and hands back the current instant as seconds
/// since the epoch and nanoseconds past the second. The result depends on
/// the clock. Claimed is only what holds whatever the clock shows: chrono
/// takes the nanoseconds from the fraction of a second that the system
/// clock gives, which is less than a second. chrono stops the program if the
/// clock stands before 1970.
#[verifier::external_body]
pub(crate) fn utc_now() -> (now: (i64, u32))
    ensures
        now.1 < 1_000_000_000,
{
    let now = chrono::Utc::now();
    (now.timestamp(), now.timestamp_subsec_nanos())
}

/// Rejects timestamps that lie after the moment of the call, naming all of
/// them.
pub fn reject_datetimes_future(datetimes: &Vec<Timestamp>) -> (result: Result<(), Vec<Timestamp>>)
    ensures
        exists|now_secs: i64, now_nanos: u32|
            verdict(#[trigger] later_than(readings(datetimes@), now_secs, now_nanos), result),
{
    let (now_secs, now_nanos) = utc_now();
    reject_datetimes_future_at(datetimes, now_secs, now_nanos)
}

} // verus!
