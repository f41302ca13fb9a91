//! Gaps between consecutive timestamps, and their segmentation into runs of
//! continuous activity.

use vstd::prelude::*;
use crate::timestamp::{readings, Reading, Timestamp};

verus! {

/// `num / den` with the fraction dropped, whatever the sign of `num`.
pub open spec fn truncated_quotient(num: int, den: int) -> int
    recommends
        den > 0,
{
    if num >= 0 {
        num / den
    } else {
        -((-num) / den)
    }
}

/// The second of the day, in UTC, at which a reading stands.
pub open spec fn second_of_day(r: Reading) -> int {
    r.secs as int % 86_400
}

/// The second that a leap second between the two readings adds to or takes
/// from their distance: a reading inside a leap second counts that second
/// once the other reading is at another second of the day.
pub open spec fn leap_adjustment(from: Reading, to: Reading) -> int {
    if second_of_day(to) > second_of_day(from) && from.nanos >= 1_000_000_000 {
        1
    } else if second_of_day(to) < second_of_day(from) && to.nanos >= 1_000_000_000 {
        -1
    } else {
        0
    }
}

/// The nanoseconds from `from` to `to`, negative when `to` is the earlier.
pub open spec fn nanoseconds_between(from: Reading, to: Reading) -> int {
    (to.secs - from.secs + leap_adjustment(from, to)) * 1_000_000_000 + (to.nanos - from.nanos)
}

/// The whole seconds from `from` to `to`, negative when `to` is the earlier.
pub open spec fn seconds_between(from: Reading, to: Reading) -> int {
    truncated_quotient(nanoseconds_between(from, to), 1_000_000_000)
}

/// One gap of the output: the seconds between two neighbours, with a negative
/// one replaced by zero unless negatives are allowed.
pub open spec fn delta_between(from: Reading, to: Reading, allow_negatives: bool) -> int {
    let d = seconds_between(from, to);
    if !allow_negatives && d < 0 {
        0
    } else {
        d
    }
}

/// The gaps between the neighbours of `timestamps`: one fewer than there are
/// timestamps, and none for an empty sequence.
pub open spec fn deltas_of(timestamps: Seq<Reading>, allow_negatives: bool) -> Seq<int> {
    Seq::new(
        if timestamps.len() == 0 {
            0
        } else {
            (timestamps.len() - 1) as nat
        },
        |i: int| delta_between(timestamps[i], timestamps[i + 1], allow_negatives),
    )
}

/// The values of `v` as mathematical integers.
pub open spec fn i64_ints(v: Seq<i64>) -> Seq<int> {
    v.map_values(|x: i64| x as int)
}

/// The second of the day at which `secs` seconds after the epoch stand.
fn second_of_day_of(secs: i64) -> (result: i64)
    ensures
        result == secs as int % 86_400,
{
    if secs >= 0 {
        secs % 86_400
    } else {
        let back: i64 = -(secs + 1);
        let m: i64 = back % 86_400;
        assert(secs as int % 86_400 == 86_399 - m) by {
            let q = back as int / 86_400;
            assert(back == 86_400 * q + m) by {
                vstd::arithmetic::div_mod::lemma_fundamental_div_mod(back as int, 86_400);
            }
            assert(secs as int == 86_400 * (-q - 1) + (86_399 - m));
            vstd::arithmetic::div_mod::lemma_fundamental_div_mod_converse(
                secs as int,
                86_400,
                -q - 1,
                86_399 - m,
            );
        }
        86_399 - m
    }
}

/// The signed difference between two timestamps in whole seconds: positive
/// when `dt2` is later than `dt1`.
pub fn datetime_difference_seconds(dt1: Timestamp, dt2: Timestamp) -> (result: i64)
    ensures
        result == seconds_between(dt1@, dt2@),
{
    let a = dt1.reading();
    let b = dt2.reading();
    let sa: i64 = second_of_day_of(a.secs);
    let sb: i64 = second_of_day_of(b.secs);
    let leap: i128 = if sb > sa && a.nanos >= 1_000_000_000 {
        1
    } else if sb < sa && b.nanos >= 1_000_000_000 {
        -1
    } else {
        0
    };
    let total: i128 = (b.secs as i128 - a.secs as i128 + leap) * 1_000_000_000 + (b.nanos as i128
        - a.nanos as i128);
    assert(total == nanoseconds_between(a, b));
    if total >= 0 {
        let q: u128 = (total as u128) / 1_000_000_000;
        q as i64
    } else {
        let q: u128 = ((-total) as u128) / 1_000_000_000;
        -(q as i64)
    }
}

/// The difference in seconds between each timestamp and the one before it.
/// Unless `allow_negatives` is set, a negative difference is replaced by `0`.
pub fn delta_datetimes(datetimes: &Vec<Timestamp>, allow_negatives: bool) -> (result: Vec<i64>)
    ensures
        i64_ints(result@) == deltas_of(readings(datetimes@), allow_negatives),
        datetimes.len() > 0 ==> result.len() == datetimes.len() - 1,
        datetimes.len() == 0 ==> result.len() == 0,
{
    let mut result: Vec<i64> = Vec::new();
    if datetimes.len() == 0 {
        assert(i64_ints(result@) == deltas_of(readings(datetimes@), allow_negatives));
        return result;
    }
    let ghost rs = readings(datetimes@);
    let mut i: usize = 1;
    while i < datetimes.len()
        invariant
            1 <= i <= datetimes.len(),
            rs == readings(datetimes@),
            result.len() == i - 1,
            forall|k: int|
                0 <= k < i - 1 ==> result@[k] as int == delta_between(
                    rs[k],
                    rs[k + 1],
                    allow_negatives,
                ),
        decreases datetimes.len() - i,
    {
        let delta = datetime_difference_seconds(datetimes[i - 1], datetimes[i]);
        if !allow_negatives && delta < 0 {
            result.push(0);
        } else {
            result.push(delta);
        }
        i = i + 1;
    }
    assert(i64_ints(result@) == deltas_of(rs, allow_negatives));
    result
}

/// Whether a gap counts as continuous activity: it is not negative and does
/// not exceed the timeout.
pub open spec fn is_continuous(delta: int, timeout: int) -> bool {
    0 <= delta <= timeout
}

/// A closed run contributes its total when that total is positive, and
/// nothing otherwise.
pub open spec fn closed_run(run: int) -> Seq<int> {
    if run > 0 {
        seq![run]
    } else {
        Seq::empty()
    }
}

/// The totals of the runs met while walking `deltas` from left to right,
/// starting with a run that has already accumulated `run` seconds.
pub open spec fn splits_from(deltas: Seq<int>, timeout: int, run: int) -> Seq<int>
    decreases deltas.len(),
{
    if deltas.len() == 0 {
        closed_run(run)
    } else if is_continuous(deltas[0], timeout) {
        splits_from(deltas.drop_first(), timeout, run + deltas[0])
    } else {
        closed_run(run) + splits_from(deltas.drop_first(), timeout, 0)
    }
}

/// The totals of the maximal runs of continuous gaps in `deltas`, in input
/// order, without the runs whose total is zero.
pub open spec fn splits_of(deltas: Seq<int>, timeout: int) -> Seq<int> {
    splits_from(deltas, timeout, 0)
}

/// Every total in `splits` can be held in a `u64`.
pub open spec fn all_fit_u64(splits: Seq<int>) -> bool {
    forall|k: int| 0 <= k < splits.len() ==> splits[k] <= u64::MAX
}

/// The values of `v` as mathematical integers.
pub open spec fn u64_ints(v: Seq<u64>) -> Seq<int> {
    v.map_values(|x: u64| x as int)
}

/// A run that has accumulated something is closed later, with at least as
/// much in it.
proof fn lemma_open_run_is_emitted(deltas: Seq<int>, timeout: int, run: int)
    requires
        run > 0,
    ensures
        splits_from(deltas, timeout, run).len() > 0,
        splits_from(deltas, timeout, run)[0] >= run,
    decreases deltas.len(),
{
    if deltas.len() > 0 && is_continuous(deltas[0], timeout) {
        lemma_open_run_is_emitted(deltas.drop_first(), timeout, run + deltas[0]);
    }
}

/// The sum of the values of `s`.
pub open spec fn total(s: Seq<int>) -> int
    decreases s.len(),
{
    if s.len() == 0 {
        0
    } else {
        s[0] + total(s.drop_first())
    }
}

/// The sum of the gaps of `deltas` that are positive.
pub open spec fn positive_total(deltas: Seq<int>) -> int
    decreases deltas.len(),
{
    if deltas.len() == 0 {
        0
    } else {
        (if deltas[0] > 0 {
            deltas[0]
        } else {
            0
        }) + positive_total(deltas.drop_first())
    }
}

/// Whether every gap of `deltas` is continuous under `timeout`.
pub open spec fn all_continuous(deltas: Seq<int>, timeout: int) -> bool {
    forall|k: int| 0 <= k < deltas.len() ==> is_continuous(#[trigger] deltas[k], timeout)
}

proof fn lemma_runs_are_positive(deltas: Seq<int>, timeout: int, run: int)
    requires
        run >= 0,
    ensures
        forall|k: int|
            0 <= k < splits_from(deltas, timeout, run).len() ==> #[trigger] splits_from(
                deltas,
                timeout,
                run,
            )[k] > 0,
    decreases deltas.len(),
{
    let all = splits_from(deltas, timeout, run);
    if deltas.len() > 0 {
        if is_continuous(deltas[0], timeout) {
            let tail = splits_from(deltas.drop_first(), timeout, run + deltas[0]);
            lemma_runs_are_positive(deltas.drop_first(), timeout, run + deltas[0]);
            assert(all == tail);
            assert forall|k: int| 0 <= k < all.len() implies all[k] > 0 by {
                assert(tail[k] > 0);
            }
        } else {
            let tail = splits_from(deltas.drop_first(), timeout, 0);
            lemma_runs_are_positive(deltas.drop_first(), timeout, 0);
            assert forall|k: int| 0 <= k < all.len() implies all[k] > 0 by {
                if k >= closed_run(run).len() {
                    assert(all[k] == tail[k - closed_run(run).len()]);
                }
            }
        }
    } else {
        assert(all == closed_run(run));
    }
}

proof fn lemma_total_after_closed_run(run: int, rest: Seq<int>)
    requires
        run >= 0,
    ensures
        total(closed_run(run) + rest) == run + total(rest),
{
    if run > 0 {
        assert((closed_run(run) + rest).drop_first() == rest);
    } else {
        assert(closed_run(run) + rest == rest);
    }
}

proof fn lemma_runs_total(deltas: Seq<int>, timeout: int, run: int)
    requires
        run >= 0,
    ensures
        total(splits_from(deltas, timeout, run)) <= run + positive_total(deltas),
        all_continuous(deltas, timeout) ==> total(splits_from(deltas, timeout, run)) == run
            + positive_total(deltas),
    decreases deltas.len(),
{
    let rest = deltas.drop_first();
    if deltas.len() == 0 {
        lemma_total_after_closed_run(run, Seq::empty());
        assert(closed_run(run) + Seq::<int>::empty() == closed_run(run));
    } else if is_continuous(deltas[0], timeout) {
        lemma_runs_total(rest, timeout, run + deltas[0]);
        if all_continuous(deltas, timeout) {
            assert forall|k: int| 0 <= k < rest.len() implies is_continuous(
                #[trigger] rest[k],
                timeout,
            ) by {
                assert(rest[k] == deltas[k + 1]);
            }
        }
    } else {
        lemma_runs_total(rest, timeout, 0);
        lemma_total_after_closed_run(run, splits_from(rest, timeout, 0));
        assert(!all_continuous(deltas, timeout));
    }
}

/// No period of continuous activity has length zero.
pub proof fn lemma_splits_are_positive(deltas: Seq<int>, timeout: int)
    ensures
        forall|k: int|
            0 <= k < splits_of(deltas, timeout).len() ==> #[trigger] splits_of(deltas, timeout)[k]
                > 0,
{
    lemma_runs_are_positive(deltas, timeout, 0);
}

/// The periods together are no longer than the positive gaps together, and
/// exactly as long when no gap is negative or exceeds the timeout.
pub proof fn lemma_splits_total(deltas: Seq<int>, timeout: int)
    ensures
        total(splits_of(deltas, timeout)) <= positive_total(deltas),
        all_continuous(deltas, timeout) ==> total(splits_of(deltas, timeout)) == positive_total(
            deltas,
        ),
{
    lemma_runs_total(deltas, timeout, 0);
}

/// Walking backwards from `to` to `from` gives the distance from `from` to
/// `to` with the opposite sign.
pub proof fn lemma_seconds_between_reversed(from: Reading, to: Reading)
    ensures
        seconds_between(to, from) == -seconds_between(from, to),
{
    assert(leap_adjustment(to, from) == -leap_adjustment(from, to));
    assert(nanoseconds_between(to, from) == -nanoseconds_between(from, to)) by (nonlinear_arith)
        requires
            leap_adjustment(to, from) == -leap_adjustment(from, to),
            nanoseconds_between(to, from) == (from.secs - to.secs + leap_adjustment(to, from))
                * 1_000_000_000 + (from.nanos - to.nanos),
            nanoseconds_between(from, to) == (to.secs - from.secs + leap_adjustment(from, to))
                * 1_000_000_000 + (to.nanos - from.nanos),
    ;
}

/// With negatives allowed, the gaps of the reversed sequence are the gaps of
/// the sequence in reverse order, each with the opposite sign.
pub proof fn lemma_deltas_reversed(timestamps: Seq<Reading>)
    ensures
        deltas_of(timestamps.reverse(), true) == deltas_of(timestamps, true).reverse().map_values(
            |d: int| -d,
        ),
{
    let forward = deltas_of(timestamps, true);
    let backward = deltas_of(timestamps.reverse(), true);
    let n = timestamps.len() as int;
    assert(backward.len() == forward.len());
    assert forall|i: int| 0 <= i < backward.len() implies backward[i] == -forward.reverse()[i] by {
        assert(timestamps.reverse()[i] == timestamps[n - 1 - i]);
        assert(timestamps.reverse()[i + 1] == timestamps[n - 2 - i]);
        assert(forward.reverse()[i] == forward[n - 2 - i]);
        lemma_seconds_between_reversed(timestamps[n - 2 - i], timestamps[n - 1 - i]);
    }
    assert(backward =~= forward.reverse().map_values(|d: int| -d));
}

/// Splits a list of gaps into periods of continuous activity and returns the
/// length of each period, in seconds, or `None` if a period is too long for
/// a `u64`.
pub fn checked_split_deltas(deltas: &Vec<i64>, timeout: u64) -> (result: Option<Vec<u64>>)
    ensures
        result is Some <==> all_fit_u64(splits_of(i64_ints(deltas@), timeout as int)),
        result is Some ==> u64_ints(result->0@) == splits_of(i64_ints(deltas@), timeout as int),
{
    let mut result: Vec<u64> = Vec::new();
    let mut run: u64 = 0;
    let mut i: usize = 0;
    let ghost ds = i64_ints(deltas@);
    let ghost all = splits_of(ds, timeout as int);
    proof {
        assert(ds.skip(0) == ds);
        assert(u64_ints(result@) + all == all);
    }
    while i < deltas.len()
        invariant
            0 <= i <= deltas.len(),
            ds == i64_ints(deltas@),
            all == splits_of(ds, timeout as int),
            u64_ints(result@) + splits_from(ds.skip(i as int), timeout as int, run as int) == all,
        decreases deltas.len() - i,
    {
        let delta: i64 = deltas[i];
        let ghost rest = ds.skip(i as int);
        let ghost before = u64_ints(result@);
        proof {
            assert(rest[0] == delta);
            assert(rest.drop_first() == ds.skip(i + 1));
        }
        if delta < 0 || delta as u64 > timeout {
            if run > 0 {
                result.push(run);
                proof {
                    assert(u64_ints(result@) == before + closed_run(run as int));
                }
            }
            run = 0;
        } else {
            match run.checked_add(delta as u64) {
                Some(longer) => {
                    run = longer;
                },
                None => {
                    proof {
                        let tail = splits_from(rest.drop_first(), timeout as int, run + delta);
                        lemma_open_run_is_emitted(rest.drop_first(), timeout as int, run + delta);
                        assert(all[before.len() as int] == tail[0]);
                        assert(!all_fit_u64(all));
                    }
                    return None;
                },
            }
        }
        i = i + 1;
    }
    proof {
        assert(ds.skip(i as int).len() == 0);
    }
    if run > 0 {
        let ghost before = u64_ints(result@);
        result.push(run);
        proof {
            assert(u64_ints(result@) == before + closed_run(run as int));
        }
    }
    proof {
        assert(u64_ints(result@) == all);
        assert forall|k: int| 0 <= k < all.len() implies all[k] <= u64::MAX by {
            assert(all[k] == u64_ints(result@)[k]);
        }
    }
    Some(result)
}

/// Splits a list of gaps into periods of continuous activity and returns the
/// length of each period, in seconds.
pub fn split_deltas(deltas: &Vec<i64>, timeout: u64) -> (result: Vec<u64>)
    requires
        all_fit_u64(splits_of(i64_ints(deltas@), timeout as int)),
    ensures
        u64_ints(result@) == splits_of(i64_ints(deltas@), timeout as int),
{
    match checked_split_deltas(deltas, timeout) {
        Some(result) => result,
        None => Vec::new(),
    }
}

} // verus!
