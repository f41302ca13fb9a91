//! Grouping timestamps by the day, month or year in which they fall.

use vstd::prelude::*;
use crate::interval_map::IntervalMap;
use crate::key_order::{ascending, lemma_key_before_irreflexive};
use crate::text::{
    decimal, lower_chars, lowered, magnitude, magnitude_of, padded2, push_decimal, push_padded2,
    same_chars,
};
use crate::timestamp::{readings, Reading, Timestamp};

verus! {

/// The calendar interval by which timestamps are grouped.
#[derive(Clone, Copy, Debug, PartialEq, Eq, Structural)]
pub enum Interval {
    /// One group for each day.
    Day,
    /// One group for each month.
    Month,
    /// One group for each year.
    Year,
}

/// The interval that a selector names: `d` or `day`, `m` or `month`, `y` or
/// `year`. Letter case does not matter.
pub open spec fn interval_of(selector: Seq<char>) -> Option<Interval> {
    let s = lowered(selector);
    if s == seq!['d'] || s == seq!['d', 'a', 'y'] {
        Some(Interval::Day)
    } else if s == seq!['m'] || s == seq!['m', 'o', 'n', 't', 'h'] {
        Some(Interval::Month)
    } else if s == seq!['y'] || s == seq!['y', 'e', 'a', 'r'] {
        Some(Interval::Year)
    } else {
        None
    }
}

/// The decimal numeral of `n` with leading zeros up to four digits.
pub open spec fn padded4(n: nat) -> Seq<char> {
    if n < 10 {
        seq!['0', '0', '0'] + decimal(n)
    } else if n < 100 {
        seq!['0', '0'] + decimal(n)
    } else if n < 1000 {
        seq!['0'] + decimal(n)
    } else {
        decimal(n)
    }
}

/// A year as it is written in a key: four digits for the years 0 to 9999,
/// and a sign followed by at least four digits for all others.
pub open spec fn year_text(year: int) -> Seq<char> {
    if 0 <= year <= 9999 {
        padded4(year as nat)
    } else if year < 0 {
        seq!['-'] + padded4(magnitude(year))
    } else {
        seq!['+'] + padded4(magnitude(year))
    }
}

/// The key of the interval in which a timestamp falls, by its local date:
/// `YYYY-MM-DD` for a day, `YYYY-MM` for a month, `YYYY` for a year.
pub open spec fn interval_key(r: Reading, interval: Interval) -> Seq<char> {
    match interval {
        Interval::Year => year_text(r.year as int),
        Interval::Month => year_text(r.year as int) + seq!['-'] + padded2(r.month as nat),
        Interval::Day => year_text(r.year as int) + seq!['-'] + padded2(r.month as nat) + seq![
            '-',
        ] + padded2(r.day as nat),
    }
}

/// Whether a timestamp of `ts` falls into the interval with the given key.
pub open spec fn key_occurs(ts: Seq<Reading>, interval: Interval, key: Seq<char>) -> bool {
    exists|i: int| 0 <= i < ts.len() && #[trigger] interval_key(ts[i], interval) == key
}

/// The timestamps of `ts` that fall into the interval with the given key, in
/// the order in which they stand in `ts`.
pub open spec fn bucket_of(ts: Seq<Reading>, interval: Interval, key: Seq<char>) -> Seq<Reading>
    decreases ts.len(),
{
    if ts.len() == 0 {
        Seq::empty()
    } else if interval_key(ts.last(), interval) == key {
        bucket_of(ts.drop_last(), interval, key).push(ts.last())
    } else {
        bucket_of(ts.drop_last(), interval, key)
    }
}

/// Whether `keys` and `values` are the grouping of `ts`: the keys ascend,
/// they are the keys of the intervals into which some timestamp falls, and
/// under each stand the timestamps of its interval, in input order.
pub open spec fn is_grouping(
    keys: Seq<Seq<char>>,
    values: Seq<Vec<Timestamp>>,
    ts: Seq<Reading>,
    interval: Interval,
) -> bool {
    &&& ascending(keys)
    &&& keys.len() == values.len()
    &&& forall|key: Seq<char>| #[trigger] keys.contains(key) <==> key_occurs(ts, interval, key)
    &&& forall|k: int|
        0 <= k < keys.len() ==> readings(#[trigger] values[k]@) == bucket_of(
            ts,
            interval,
            keys[k],
        )
}

/// Reads an interval selector.
pub fn parse_interval(selector: &str) -> (interval: Option<Interval>)
    ensures
        interval == interval_of(selector@),
{
    let lower = lower_chars(selector);
    let d = vec!['d'];
    let day = vec!['d', 'a', 'y'];
    let m = vec!['m'];
    let month = vec!['m', 'o', 'n', 't', 'h'];
    let y = vec!['y'];
    let year = vec!['y', 'e', 'a', 'r'];
    proof {
        assert(d@ == seq!['d']);
        assert(day@ == seq!['d', 'a', 'y']);
        assert(m@ == seq!['m']);
        assert(month@ == seq!['m', 'o', 'n', 't', 'h']);
        assert(y@ == seq!['y']);
        assert(year@ == seq!['y', 'e', 'a', 'r']);
    }
    if same_chars(&lower, &d) || same_chars(&lower, &day) {
        Some(Interval::Day)
    } else if same_chars(&lower, &m) || same_chars(&lower, &month) {
        Some(Interval::Month)
    } else if same_chars(&lower, &y) || same_chars(&lower, &year) {
        Some(Interval::Year)
    } else {
        None
    }
}

/// Appends the decimal numeral of `n`, at least four digits wide, to `out`.
fn push_padded4(out: &mut String, n: u64)
    ensures
        final(out)@ == old(out)@ + padded4(n as nat),
{
    let ghost start = out@;
    if n < 10 {
        out.push('0');
        out.push('0');
        out.push('0');
        assert(out@ == start + seq!['0', '0', '0']);
    } else if n < 100 {
        out.push('0');
        out.push('0');
        assert(out@ == start + seq!['0', '0']);
    } else if n < 1000 {
        out.push('0');
        assert(out@ == start + seq!['0']);
    }
    let ghost mid = out@;
    push_decimal(out, n);
    proof {
        assert(out@ == start + padded4(n as nat)) by {
            if n < 10 {
                assert(mid + decimal(n as nat) == start + (seq!['0', '0', '0'] + decimal(
                    n as nat,
                )));
            } else if n < 100 {
                assert(mid + decimal(n as nat) == start + (seq!['0', '0'] + decimal(n as nat)));
            } else if n < 1000 {
                assert(mid + decimal(n as nat) == start + (seq!['0'] + decimal(n as nat)));
            }
        }
    }
}

/// Appends a year, as it is written in a key, to `out`.
fn push_year(out: &mut String, year: i32)
    ensures
        final(out)@ == old(out)@ + year_text(year as int),
{
    let ghost start = out@;
    if year < 0 {
        out.push('-');
    } else if year > 9999 {
        out.push('+');
    }
    let ghost mid = out@;
    push_padded4(out, magnitude_of(year as i64));
    proof {
        let digits = padded4(magnitude(year as int));
        if year < 0 {
            assert(mid + digits == start + (seq!['-'] + digits));
        } else if year > 9999 {
            assert(mid + digits == start + (seq!['+'] + digits));
        }
    }
}

/// The key of the interval in which `timestamp` falls.
pub fn interval_key_of(timestamp: &Timestamp, interval: Interval) -> (key: String)
    ensures
        key@ == interval_key(timestamp@, interval),
{
    let mut key = String::new();
    push_year(&mut key, timestamp.year());
    let ghost y = key@;
    match interval {
        Interval::Year => {},
        Interval::Month => {
            key.push('-');
            push_padded2(&mut key, timestamp.month() as u64);
            assert(key@ == y + seq!['-'] + padded2(timestamp@.month as nat));
        },
        Interval::Day => {
            key.push('-');
            push_padded2(&mut key, timestamp.month() as u64);
            key.push('-');
            push_padded2(&mut key, timestamp.day() as u64);
            assert(key@ == y + seq!['-'] + padded2(timestamp@.month as nat) + seq!['-'] + padded2(
                timestamp@.day as nat,
            ));
        },
    }
    key
}

proof fn lemma_bucket_step(ts: Seq<Reading>, i: int, interval: Interval, key: Seq<char>)
    requires
        0 <= i < ts.len(),
    ensures
        bucket_of(ts.take(i + 1), interval, key) == if interval_key(ts[i], interval) == key {
            bucket_of(ts.take(i), interval, key).push(ts[i])
        } else {
            bucket_of(ts.take(i), interval, key)
        },
{
    assert(ts.take(i + 1).drop_last() == ts.take(i));
    assert(ts.take(i + 1).last() == ts[i]);
}

proof fn lemma_absent_key_has_empty_bucket(ts: Seq<Reading>, interval: Interval, key: Seq<char>)
    requires
        !key_occurs(ts, interval, key),
    ensures
        bucket_of(ts, interval, key) == Seq::<Reading>::empty(),
    decreases ts.len(),
{
    if ts.len() > 0 {
        assert(interval_key(ts[ts.len() - 1], interval) != key);
        assert(!key_occurs(ts.drop_last(), interval, key)) by {
            if key_occurs(ts.drop_last(), interval, key) {
                let i = choose|i: int|
                    0 <= i < ts.drop_last().len() && #[trigger] interval_key(
                        ts.drop_last()[i],
                        interval,
                    ) == key;
                assert(interval_key(ts[i], interval) == key);
            }
        }
        lemma_absent_key_has_empty_bucket(ts.drop_last(), interval, key);
    }
}

proof fn lemma_key_occurs_step(ts: Seq<Reading>, i: int, interval: Interval, key: Seq<char>)
    requires
        0 <= i < ts.len(),
    ensures
        key_occurs(ts.take(i + 1), interval, key) <==> key_occurs(ts.take(i), interval, key)
            || interval_key(ts[i], interval) == key,
{
    let short = ts.take(i);
    let long = ts.take(i + 1);
    if key_occurs(short, interval, key) {
        let j = choose|j: int|
            0 <= j < short.len() && #[trigger] interval_key(short[j], interval) == key;
        assert(interval_key(long[j], interval) == key);
    }
    if interval_key(ts[i], interval) == key {
        assert(interval_key(long[i], interval) == key);
    }
    if key_occurs(long, interval, key) {
        let j = choose|j: int|
            0 <= j < long.len() && #[trigger] interval_key(long[j], interval) == key;
        if j < i {
            assert(interval_key(short[j], interval) == key);
        }
    }
}

/// Groups the timestamps by the given interval. The keys are those of the
/// intervals into which some timestamp falls; under each stand the
/// timestamps of its interval, in the order of the input.
pub fn group_datetimes_by(datetimes: &Vec<Timestamp>, interval: Interval) -> (result: IntervalMap<
    Vec<Timestamp>,
>)
    ensures
        is_grouping(result.keys(), result.values(), readings(datetimes@), interval),
{
    let ghost ts = readings(datetimes@);
    let mut result: IntervalMap<Vec<Timestamp>> = IntervalMap::new();
    let mut i: usize = 0;
    proof {
        assert(ts.take(0) == Seq::<Reading>::empty());
        assert forall|key: Seq<char>| !key_occurs(ts.take(0), interval, key) by {}
    }
    while i < datetimes.len()
        invariant
            0 <= i <= datetimes.len(),
            ts == readings(datetimes@),
            is_grouping(result.keys(), result.values(), ts.take(i as int), interval),
        decreases datetimes.len() - i,
    {
        let timestamp = datetimes[i];
        let key = interval_key_of(&timestamp, interval);
        let ghost kx = key@;
        let ghost old_keys = result.keys();
        let ghost old_values = result.values();
        let ghost seen = ts.take(i as int);
        let ghost next = ts.take(i + 1);
        proof {
            assert(ts[i as int] == timestamp@);
        }
        let (p, found) = result.find(key.as_str());
        if found {
            result = result.pushed(p, timestamp);
            proof {
                let values = result.values();
                assert forall|key: Seq<char>| #[trigger]
                    old_keys.contains(key) <==> key_occurs(next, interval, key) by {
                    lemma_key_occurs_step(ts, i as int, interval, key);
                }
                assert forall|k: int| 0 <= k < old_keys.len() implies readings(
                    #[trigger] values[k]@,
                ) == bucket_of(next, interval, old_keys[k]) by {
                    lemma_bucket_step(ts, i as int, interval, old_keys[k]);
                    if k == p {
                        assert(readings(values[k]@) == readings(old_values[k]@).push(
                            timestamp@,
                        ));
                    } else {
                        assert(values[k] == old_values[k]);
                        assert(old_keys[k] != kx) by {
                            lemma_key_before_irreflexive(kx);
                        }
                    }
                }
            }
        } else {
            let mut bucket: Vec<Timestamp> = Vec::new();
            bucket.push(timestamp);
            result = result.inserted_at(p, key, bucket);
            proof {
                let keys = result.keys();
                let values = result.values();
                assert(keys == old_keys.insert(p as int, kx));
                assert forall|key: Seq<char>| #[trigger]
                    keys.contains(key) <==> key_occurs(next, interval, key) by {
                    lemma_key_occurs_step(ts, i as int, interval, key);
                    if old_keys.contains(key) {
                        let j = choose|j: int| 0 <= j < old_keys.len() && old_keys[j] == key;
                        if j < p {
                            assert(keys[j] == key);
                        } else {
                            assert(keys[j + 1] == key);
                        }
                    }
                    if key == kx {
                        assert(keys[p as int] == key);
                    }
                    if keys.contains(key) {
                        let j = choose|j: int| 0 <= j < keys.len() && keys[j] == key;
                        if j < p {
                            assert(old_keys[j] == key);
                        } else if j > p {
                            assert(old_keys[j - 1] == key);
                        }
                    }
                }
                assert forall|k: int| 0 <= k < keys.len() implies readings(
                    #[trigger] values[k]@,
                ) == bucket_of(next, interval, keys[k]) by {
                    lemma_bucket_step(ts, i as int, interval, keys[k]);
                    if k == p {
                        lemma_absent_key_has_empty_bucket(seen, interval, kx);
                        assert(readings(values[k]@) == Seq::<Reading>::empty().push(timestamp@));
                    } else if k < p {
                        assert(values[k] == old_values[k]);
                        assert(keys[k] == old_keys[k]);
                        assert(old_keys.contains(keys[k]));
                    } else {
                        assert(values[k] == old_values[k - 1]);
                        assert(keys[k] == old_keys[k - 1]);
                        assert(old_keys.contains(keys[k]));
                    }
                }
            }
        }
        i = i + 1;
    }
    proof {
        assert(ts.take(i as int) == ts);
    }
    result
}

/// Groups the timestamps by day, month or year, as `interval` names it.
pub fn group_datetimes(datetimes: &Vec<Timestamp>, interval: &str) -> (result: IntervalMap<
    Vec<Timestamp>,
>)
    requires
        interval_of(interval@) is Some,
    ensures
        is_grouping(
            result.keys(),
            result.values(),
            readings(datetimes@),
            interval_of(interval@)->0,
        ),
{
    match parse_interval(interval) {
        Some(by) => group_datetimes_by(datetimes, by),
        None => IntervalMap::new(),
    }
}

/// Whether `keys` holds the keys of the intervals into which a timestamp of
/// `ts` falls, and no others.
pub open spec fn holds_keys_of(keys: Seq<Seq<char>>, ts: Seq<Reading>, interval: Interval) -> bool {
    forall|key: Seq<char>| #[trigger] keys.contains(key) <==> key_occurs(ts, interval, key)
}

/// The timestamps of the groups under `keys`, one group after the other.
pub open spec fn joined(ts: Seq<Reading>, interval: Interval, keys: Seq<Seq<char>>) -> Seq<
    Reading,
>
    decreases keys.len(),
{
    if keys.len() == 0 {
        Seq::empty()
    } else {
        joined(ts, interval, keys.drop_last()) + bucket_of(ts, interval, keys.last())
    }
}

/// Ascending keys differ from each other.
pub proof fn lemma_ascending_keys_differ(keys: Seq<Seq<char>>)
    requires
        ascending(keys),
    ensures
        keys.no_duplicates(),
{
    assert forall|i: int, j: int|
        0 <= i < keys.len() && 0 <= j < keys.len() && i != j implies keys[i] != keys[j] by {
        lemma_key_before_irreflexive(keys[i]);
    }
}

/// Two ascending sequences with the same keys are the same sequence.
pub proof fn lemma_ascending_keys_unique(a: Seq<Seq<char>>, b: Seq<Seq<char>>)
    requires
        ascending(a),
        ascending(b),
        forall|key: Seq<char>| a.contains(key) <==> b.contains(key),
    ensures
        a == b,
    decreases a.len(),
{
    if a.len() == 0 {
        if b.len() > 0 {
            assert(b.contains(b[0]));
        }
        assert(a =~= b);
    } else {
        let top = a.last();
        assert(a.contains(top));
        let j = choose|j: int| 0 <= j < b.len() && b[j] == top;
        assert(b.contains(b.last()));
        let i = choose|i: int| 0 <= i < a.len() && a[i] == b.last();
        if j < b.len() - 1 {
            // top comes before the last of b, which is a key of a
            if i < a.len() - 1 {
                crate::key_order::lemma_key_before_transitive(top, b.last(), top);
            }
            lemma_key_before_irreflexive(top);
        }
        assert(b.last() == top);
        let a0 = a.drop_last();
        let b0 = b.drop_last();
        lemma_ascending_keys_differ(a);
        lemma_ascending_keys_differ(b);
        assert forall|key: Seq<char>| a0.contains(key) <==> b0.contains(key) by {
            if a0.contains(key) {
                let k = choose|k: int| 0 <= k < a0.len() && a0[k] == key;
                assert(a[k] == key);
                assert(a.contains(key));
                let m = choose|m: int| 0 <= m < b.len() && b[m] == key;
                assert(b0[m] == key);
            }
            if b0.contains(key) {
                let k = choose|k: int| 0 <= k < b0.len() && b0[k] == key;
                assert(b[k] == key);
                assert(b.contains(key));
                let m = choose|m: int| 0 <= m < a.len() && a[m] == key;
                assert(a0[m] == key);
            }
        }
        assert(ascending(a0)) by {
            assert forall|x: int, y: int| 0 <= x < y < a0.len() implies crate::key_order::key_before(
                a0[x],
                a0[y],
            ) by {
                assert(a0[x] == a[x] && a0[y] == a[y]);
            }
        }
        assert(ascending(b0)) by {
            assert forall|x: int, y: int| 0 <= x < y < b0.len() implies crate::key_order::key_before(
                b0[x],
                b0[y],
            ) by {
                assert(b0[x] == b[x] && b0[y] == b[y]);
            }
        }
        lemma_ascending_keys_unique(a0, b0);
        assert(a =~= a0.push(top));
        assert(b =~= b0.push(top));
    }
}

/// A list of timestamps has one grouping: whatever meets `is_grouping` has
/// the same keys, and under each key the same timestamps.
pub proof fn lemma_grouping_is_determined(
    keys1: Seq<Seq<char>>,
    values1: Seq<Vec<Timestamp>>,
    keys2: Seq<Seq<char>>,
    values2: Seq<Vec<Timestamp>>,
    ts: Seq<Reading>,
    interval: Interval,
)
    requires
        is_grouping(keys1, values1, ts, interval),
        is_grouping(keys2, values2, ts, interval),
    ensures
        keys1 == keys2,
        forall|k: int|
            0 <= k < keys1.len() ==> readings(#[trigger] values1[k]@) == readings(values2[k]@),
{
    assert forall|key: Seq<char>| keys1.contains(key) <==> keys2.contains(key) by {
        assert(keys1.contains(key) <==> key_occurs(ts, interval, key));
        assert(keys2.contains(key) <==> key_occurs(ts, interval, key));
    }
    lemma_ascending_keys_unique(keys1, keys2);
    assert forall|k: int| 0 <= k < keys1.len() implies readings(#[trigger] values1[k]@)
        == readings(values2[k]@) by {
        assert(readings(values1[k]@) == bucket_of(ts, interval, keys1[k]));
        assert(readings(values2[k]@) == bucket_of(ts, interval, keys2[k]));
    }
}

proof fn lemma_joined_step(ts: Seq<Reading>, interval: Interval, keys: Seq<Seq<char>>)
    requires
        ts.len() > 0,
        keys.no_duplicates(),
    ensures
        joined(ts, interval, keys).to_multiset() == if keys.contains(
            interval_key(ts.last(), interval),
        ) {
            joined(ts.drop_last(), interval, keys).to_multiset().insert(ts.last())
        } else {
            joined(ts.drop_last(), interval, keys).to_multiset()
        },
    decreases keys.len(),
{
    broadcast use vstd::multiset::group_multiset_axioms;

    let rest = ts.drop_last();
    let x = ts.last();
    let kx = interval_key(x, interval);
    if keys.len() > 0 {
        let some = keys.drop_last();
        let k = keys.last();
        assert forall|i: int, j: int|
            0 <= i < some.len() && 0 <= j < some.len() && i != j implies some[i] != some[j] by {
            assert(some[i] == keys[i] && some[j] == keys[j]);
        }
        lemma_joined_step(ts, interval, some);
        vstd::seq_lib::lemma_multiset_commutative(
            joined(ts, interval, some),
            bucket_of(ts, interval, k),
        );
        vstd::seq_lib::lemma_multiset_commutative(
            joined(rest, interval, some),
            bucket_of(rest, interval, k),
        );
        if kx == k {
            vstd::seq_lib::to_multiset_build(bucket_of(rest, interval, k), x);
            assert(!some.contains(kx)) by {
                if some.contains(kx) {
                    let j = choose|j: int| 0 <= j < some.len() && some[j] == kx;
                    assert(keys[j] == kx);
                    assert(keys[keys.len() - 1] == kx);
                }
            }
            assert(keys.contains(kx)) by {
                assert(keys[keys.len() - 1] == kx);
            }
            assert(joined(ts, interval, keys).to_multiset() =~= joined(
                rest,
                interval,
                keys,
            ).to_multiset().insert(x));
        } else {
            assert(keys.contains(kx) <==> some.contains(kx)) by {
                if keys.contains(kx) {
                    let j = choose|j: int| 0 <= j < keys.len() && keys[j] == kx;
                    assert(some[j] == kx);
                }
                if some.contains(kx) {
                    let j = choose|j: int| 0 <= j < some.len() && some[j] == kx;
                    assert(keys[j] == kx);
                }
            }
            if keys.contains(kx) {
                assert(joined(ts, interval, keys).to_multiset() =~= joined(
                    rest,
                    interval,
                    keys,
                ).to_multiset().insert(x));
            } else {
                assert(joined(ts, interval, keys).to_multiset() =~= joined(
                    rest,
                    interval,
                    keys,
                ).to_multiset());
            }
        }
    }
}

proof fn lemma_joined_is_all(ts: Seq<Reading>, interval: Interval, keys: Seq<Seq<char>>)
    requires
        keys.no_duplicates(),
        forall|i: int| 0 <= i < ts.len() ==> keys.contains(#[trigger] interval_key(ts[i], interval)),
    ensures
        joined(ts, interval, keys).to_multiset() == ts.to_multiset(),
    decreases ts.len(),
{
    broadcast use vstd::multiset::group_multiset_axioms;

    if ts.len() == 0 {
        lemma_joined_of_nothing(interval, keys);
        assert(ts =~= Seq::<Reading>::empty());
        assert(joined(ts, interval, keys).to_multiset() =~= ts.to_multiset());
    } else {
        let rest = ts.drop_last();
        assert forall|i: int| 0 <= i < rest.len() implies keys.contains(
            #[trigger] interval_key(rest[i], interval),
        ) by {
            assert(rest[i] == ts[i]);
        }
        lemma_joined_is_all(rest, interval, keys);
        lemma_joined_step(ts, interval, keys);
        assert(keys.contains(interval_key(ts[ts.len() - 1], interval)));
        assert(ts == rest.push(ts.last()));
        vstd::seq_lib::to_multiset_build(rest, ts.last());
    }
}

proof fn lemma_joined_of_nothing(interval: Interval, keys: Seq<Seq<char>>)
    ensures
        joined(Seq::empty(), interval, keys) == Seq::<Reading>::empty(),
    decreases keys.len(),
{
    if keys.len() > 0 {
        lemma_joined_of_nothing(interval, keys.drop_last());
    }
}

/// No group is empty: under a key into whose interval a timestamp falls
/// stands at least that timestamp.
pub proof fn lemma_groups_are_not_empty(ts: Seq<Reading>, interval: Interval, key: Seq<char>)
    requires
        key_occurs(ts, interval, key),
    ensures
        bucket_of(ts, interval, key).len() > 0,
    decreases ts.len(),
{
    if interval_key(ts.last(), interval) != key {
        let i = choose|i: int| 0 <= i < ts.len() && #[trigger] interval_key(ts[i], interval) == key;
        assert(interval_key(ts.drop_last()[i], interval) == key);
        lemma_groups_are_not_empty(ts.drop_last(), interval, key);
    }
}

/// Grouping loses nothing and adds nothing: the groups, put together again,
/// hold each timestamp of the input as often as the input does.
pub proof fn lemma_grouping_keeps_every_timestamp(
    keys: Seq<Seq<char>>,
    ts: Seq<Reading>,
    interval: Interval,
)
    requires
        ascending(keys),
        holds_keys_of(keys, ts, interval),
    ensures
        joined(ts, interval, keys).to_multiset() == ts.to_multiset(),
{
    lemma_ascending_keys_differ(keys);
    assert forall|i: int| 0 <= i < ts.len() implies keys.contains(
        #[trigger] interval_key(ts[i], interval),
    ) by {
        assert(key_occurs(ts, interval, interval_key(ts[i], interval)));
    }
    lemma_joined_is_all(ts, interval, keys);
}

/// The keys of the grouping of `ts` by `interval`: the keys of the intervals
/// into which a timestamp falls, in ascending order.
pub open spec fn grouped_keys(ts: Seq<Reading>, interval: Interval) -> Seq<Seq<char>> {
    choose|keys: Seq<Seq<char>>| ascending(keys) && holds_keys_of(keys, ts, interval)
}

/// How the timestamps of a report are grouped.
#[derive(Clone, Copy, Debug, PartialEq, Eq, Structural)]
pub enum Grouping {
    /// All timestamps stand in one group, under the key `all`.
    All,
    /// The timestamps are grouped by a calendar interval.
    By(Interval),
}

/// The key of the single group that stands for the whole input.
pub open spec fn all_key() -> Seq<char> {
    seq!['a', 'l', 'l']
}

/// The grouping that a selector names: `all`, or one of the selectors of an
/// interval. Letter case does not matter.
pub open spec fn grouping_of(selector: Seq<char>) -> Option<Grouping> {
    if lowered(selector) == all_key() {
        Some(Grouping::All)
    } else {
        match interval_of(selector) {
            Some(interval) => Some(Grouping::By(interval)),
            None => None,
        }
    }
}

/// The keys of the groups of `ts`. Without timestamps there is no group.
pub open spec fn group_keys(ts: Seq<Reading>, grouping: Grouping) -> Seq<Seq<char>> {
    match grouping {
        Grouping::All => if ts.len() == 0 {
            Seq::empty()
        } else {
            seq![all_key()]
        },
        Grouping::By(interval) => grouped_keys(ts, interval),
    }
}

/// The timestamps of `ts` that stand in the group with the given key.
pub open spec fn group_bucket(ts: Seq<Reading>, grouping: Grouping, key: Seq<char>) -> Seq<
    Reading,
> {
    match grouping {
        Grouping::All => ts,
        Grouping::By(interval) => bucket_of(ts, interval, key),
    }
}

/// The groups of `ts`, in the order of their keys.
pub open spec fn group_buckets(ts: Seq<Reading>, grouping: Grouping) -> Seq<Seq<Reading>> {
    group_keys(ts, grouping).map_values(|key: Seq<char>| group_bucket(ts, grouping, key))
}

/// The timestamps of each group, as readings.
pub open spec fn bucket_readings(values: Seq<Vec<Timestamp>>) -> Seq<Seq<Reading>> {
    values.map_values(|v: Vec<Timestamp>| readings(v@))
}

/// Whatever ascends and holds the keys of `ts` is the sequence of its keys.
pub proof fn lemma_grouped_keys(keys: Seq<Seq<char>>, ts: Seq<Reading>, interval: Interval)
    requires
        ascending(keys),
        holds_keys_of(keys, ts, interval),
    ensures
        keys == grouped_keys(ts, interval),
{
    let chosen = grouped_keys(ts, interval);
    assert(ascending(chosen) && holds_keys_of(chosen, ts, interval));
    assert forall|key: Seq<char>| keys.contains(key) <==> chosen.contains(key) by {
        assert(keys.contains(key) <==> key_occurs(ts, interval, key));
        assert(chosen.contains(key) <==> key_occurs(ts, interval, key));
    }
    lemma_ascending_keys_unique(keys, chosen);
}

/// Reads a grouping selector.
pub fn parse_grouping(selector: &str) -> (grouping: Option<Grouping>)
    ensures
        grouping == grouping_of(selector@),
{
    let lower = lower_chars(selector);
    let all = vec!['a', 'l', 'l'];
    assert(all@ == all_key());
    if same_chars(&lower, &all) {
        Some(Grouping::All)
    } else {
        match parse_interval(selector) {
            Some(interval) => Some(Grouping::By(interval)),
            None => None,
        }
    }
}

/// Groups the timestamps: by a calendar interval, or all in one group under
/// the key `all`. No group is empty.
pub fn group_datetimes_with(datetimes: &Vec<Timestamp>, grouping: Grouping) -> (result:
    IntervalMap<Vec<Timestamp>>)
    ensures
        result.keys() == group_keys(readings(datetimes@), grouping),
        bucket_readings(result.values()) == group_buckets(readings(datetimes@), grouping),
{
    let ghost ts = readings(datetimes@);
    match grouping {
        Grouping::All => {
            let empty: IntervalMap<Vec<Timestamp>> = IntervalMap::new();
            if datetimes.len() == 0 {
                assert(bucket_readings(empty.values()) == group_buckets(ts, grouping));
                empty
            } else {
                let mut key = String::new();
                key.push('a');
                key.push('l');
                key.push('l');
                assert(key@ == all_key());
                let result = empty.inserted_at(0, key, datetimes.clone());
                proof {
                    assert(result.keys() == seq![all_key()]);
                    assert(result.values()[0]@ == datetimes@);
                    assert(bucket_readings(result.values()) == group_buckets(ts, grouping));
                }
                result
            }
        },
        Grouping::By(interval) => {
            let result = group_datetimes_by(datetimes, interval);
            proof {
                lemma_grouped_keys(result.keys(), ts, interval);
                assert(bucket_readings(result.values()) == group_buckets(ts, grouping));
            }
            result
        },
    }
}

} // verus!
