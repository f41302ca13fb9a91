//! The periods of continuous activity of each group, and their sums.

use vstd::prelude::*;
use crate::delta_datetimes::{
    all_fit_u64, checked_split_deltas, delta_datetimes, deltas_of, splits_of, total, u64_ints,
};
use crate::interval_map::IntervalMap;
use crate::key_order::ascending;
use crate::timestamp::{readings, Reading, Timestamp};

verus! {

/// The periods of continuous activity among the timestamps of one group. A
/// timestamp that stands before its predecessor ends no period: its gap
/// counts as zero.
pub open spec fn bucket_splits(bucket: Seq<Reading>, timeout: int) -> Seq<int> {
    splits_of(deltas_of(bucket, false), timeout)
}

/// Whether the periods of each of the first `n` groups fit in a `u64`.
pub open spec fn periods_fit(buckets: Seq<Seq<Reading>>, timeout: int, n: int) -> bool {
    forall|k: int| 0 <= k < n ==> all_fit_u64(#[trigger] bucket_splits(buckets[k], timeout))
}

/// The keys of those of the first `n` groups that have a period.
pub open spec fn period_keys(
    keys: Seq<Seq<char>>,
    buckets: Seq<Seq<Reading>>,
    timeout: int,
    n: int,
) -> Seq<Seq<char>>
    decreases n,
{
    if n <= 0 {
        Seq::empty()
    } else if bucket_splits(buckets[n - 1], timeout).len() > 0 {
        period_keys(keys, buckets, timeout, n - 1).push(keys[n - 1])
    } else {
        period_keys(keys, buckets, timeout, n - 1)
    }
}

/// The periods of those of the first `n` groups that have a period.
pub open spec fn period_values(buckets: Seq<Seq<Reading>>, timeout: int, n: int) -> Seq<Seq<int>>
    decreases n,
{
    if n <= 0 {
        Seq::empty()
    } else if bucket_splits(buckets[n - 1], timeout).len() > 0 {
        period_values(buckets, timeout, n - 1).push(bucket_splits(buckets[n - 1], timeout))
    } else {
        period_values(buckets, timeout, n - 1)
    }
}

/// The values of each list as mathematical integers.
pub open spec fn lists_of_ints(values: Seq<Vec<u64>>) -> Seq<Seq<int>> {
    values.map_values(|v: Vec<u64>| u64_ints(v@))
}

/// The sum of each list.
pub open spec fn totals(lists: Seq<Seq<int>>) -> Seq<int> {
    lists.map_values(|list: Seq<int>| total(list))
}

/// Whether the sum of each list fits in a `u64`.
pub open spec fn totals_fit(lists: Seq<Seq<int>>) -> bool {
    forall|k: int| 0 <= k < lists.len() ==> total(#[trigger] lists[k]) <= u64::MAX
}

proof fn lemma_period_keys_come_from(
    keys: Seq<Seq<char>>,
    buckets: Seq<Seq<Reading>>,
    timeout: int,
    n: int,
)
    requires
        0 <= n <= keys.len(),
    ensures
        period_keys(keys, buckets, timeout, n).len() == period_values(buckets, timeout, n).len(),
        forall|k: int|
            0 <= k < period_keys(keys, buckets, timeout, n).len() ==> exists|j: int|
                0 <= j < n && keys[j] == #[trigger] period_keys(keys, buckets, timeout, n)[k],
    decreases n,
{
    if n > 0 {
        lemma_period_keys_come_from(keys, buckets, timeout, n - 1);
        let before = period_keys(keys, buckets, timeout, n - 1);
        let now = period_keys(keys, buckets, timeout, n);
        assert forall|k: int| 0 <= k < now.len() implies exists|j: int|
            0 <= j < n && keys[j] == #[trigger] now[k] by {
            if k < before.len() {
                let j = choose|j: int| 0 <= j < n - 1 && keys[j] == before[k];
                assert(keys[j] == now[k]);
            } else {
                assert(keys[n - 1] == now[k]);
            }
        }
    }
}

/// The periods of continuous activity of each group, under the key of the
/// group. A group without a period is left out. `None` if a period is too
/// long for a `u64`.
pub fn splits_per_interval(grouped: &IntervalMap<Vec<Timestamp>>, timeout: u64) -> (result:
    Option<IntervalMap<Vec<u64>>>)
    ensures
        result is Some <==> periods_fit(
            crate::group_datetimes::bucket_readings(grouped.values()),
            timeout as int,
            grouped.keys().len() as int,
        ),
        result is Some ==> result->0.keys() == period_keys(
            grouped.keys(),
            crate::group_datetimes::bucket_readings(grouped.values()),
            timeout as int,
            grouped.keys().len() as int,
        ),
        result is Some ==> lists_of_ints(result->0.values()) == period_values(
            crate::group_datetimes::bucket_readings(grouped.values()),
            timeout as int,
            grouped.keys().len() as int,
        ),
{
    let ghost keys = grouped.keys();
    let ghost buckets = crate::group_datetimes::bucket_readings(grouped.values());
    let ghost t = timeout as int;
    let n = grouped.len();
    let mut result: IntervalMap<Vec<u64>> = IntervalMap::new();
    let mut i: usize = 0;
    assert(lists_of_ints(result.values()) == period_values(buckets, t, 0));
    while i < n
        invariant
            0 <= i <= n,
            n == keys.len(),
            n == grouped.values().len(),
            keys == grouped.keys(),
            ascending(keys),
            buckets == crate::group_datetimes::bucket_readings(grouped.values()),
            t == timeout as int,
            periods_fit(buckets, t, i as int),
            result.keys() == period_keys(keys, buckets, t, i as int),
            lists_of_ints(result.values()) == period_values(buckets, t, i as int),
        decreases n - i,
    {
        let bucket = grouped.value_at(i);
        let deltas = delta_datetimes(bucket, false);
        proof {
            assert(buckets[i as int] == readings(bucket@));
        }
        match checked_split_deltas(&deltas, timeout) {
            None => {
                assert(!all_fit_u64(bucket_splits(buckets[i as int], t)));
                return None;
            },
            Some(splits) => {
                if splits.len() > 0 {
                    let ghost old_lists = lists_of_ints(result.values());
                    let ghost old_keys = result.keys();
                    let at = result.len();
                    let key = grouped.key_at(i).clone();
                    proof {
                        lemma_period_keys_come_from(keys, buckets, t, i as int);
                        assert forall|j: int| 0 <= j < at implies crate::key_order::key_before(
                            old_keys[j],
                            key@,
                        ) by {
                            let m = choose|m: int| 0 <= m < i && keys[m] == old_keys[j];
                        }
                    }
                    result = result.inserted_at(at, key, splits);
                    proof {
                        assert(result.keys() == old_keys.push(keys[i as int]));
                        assert(lists_of_ints(result.values()) == old_lists.push(
                            bucket_splits(buckets[i as int], t),
                        ));
                    }
                }
            },
        }
        i = i + 1;
    }
    Some(result)
}

/// The sum of the values before position `n` is the sum of those before
/// `n - 1` and the value at `n - 1`.
proof fn lemma_total_step(s: Seq<int>, n: int)
    requires
        0 < n <= s.len(),
    ensures
        total(s.take(n)) == total(s.take(n - 1)) + s[n - 1],
    decreases n,
{
    if n == 1 {
        assert(s.take(1).drop_first() == Seq::<int>::empty());
        assert(s.take(0) == Seq::<int>::empty());
    } else {
        let tail = s.drop_first();
        lemma_total_step(tail, n - 1);
        assert(s.take(n).drop_first() == tail.take(n - 1));
        assert(s.take(n - 1).drop_first() == tail.take(n - 2));
    }
}

/// The sum of `values`, or `None` if it is too large for a `u64`.
pub fn checked_total(values: &Vec<u64>) -> (result: Option<u64>)
    ensures
        result is Some <==> total(u64_ints(values@)) <= u64::MAX,
        result is Some ==> result->0 == total(u64_ints(values@)),
{
    let ghost s = u64_ints(values@);
    let mut sum: u64 = 0;
    let mut i: usize = 0;
    assert(s.take(0) == Seq::<int>::empty());
    while i < values.len()
        invariant
            0 <= i <= values.len(),
            s == u64_ints(values@),
            sum == total(s.take(i as int)),
        decreases values.len() - i,
    {
        proof {
            lemma_total_step(s, i + 1);
        }
        match sum.checked_add(values[i]) {
            Some(more) => {
                sum = more;
            },
            None => {
                proof {
                    lemma_total_grows(s, i + 1);
                }
                return None;
            },
        }
        i = i + 1;
    }
    assert(s.take(i as int) == s);
    Some(sum)
}

/// The sum of the first values is no more than the sum of all, where no
/// value is negative.
proof fn lemma_total_grows(s: Seq<int>, n: int)
    requires
        0 <= n <= s.len(),
        forall|k: int| 0 <= k < s.len() ==> s[k] >= 0,
    ensures
        total(s.take(n)) <= total(s),
    decreases s.len() - n,
{
    if n == s.len() {
        assert(s.take(n) == s);
    } else {
        lemma_total_grows(s, n + 1);
        lemma_total_step(s, n + 1);
    }
}

/// The sum of the periods of each group, under the key of the group. `None`
/// if a sum is too large for a `u64`.
pub fn sum_splits_per_interval(splits_per_interval: &IntervalMap<Vec<u64>>) -> (result: Option<
    IntervalMap<u64>,
>)
    ensures
        result is Some <==> totals_fit(lists_of_ints(splits_per_interval.values())),
        result is Some ==> result->0.keys() == splits_per_interval.keys(),
        result is Some ==> u64_ints(result->0.values()) == totals(
            lists_of_ints(splits_per_interval.values()),
        ),
{
    let ghost keys = splits_per_interval.keys();
    let ghost lists = lists_of_ints(splits_per_interval.values());
    let n = splits_per_interval.len();
    let mut result: IntervalMap<u64> = IntervalMap::new();
    let mut i: usize = 0;
    assert(u64_ints(result.values()) == totals(lists.take(0)));
    assert(result.keys() == keys.take(0));
    while i < n
        invariant
            0 <= i <= n,
            n == keys.len(),
            n == splits_per_interval.values().len(),
            keys == splits_per_interval.keys(),
            ascending(keys),
            lists == lists_of_ints(splits_per_interval.values()),
            forall|k: int| 0 <= k < i ==> total(#[trigger] lists[k]) <= u64::MAX,
            result.keys() == keys.take(i as int),
            u64_ints(result.values()) == totals(lists.take(i as int)),
        decreases n - i,
    {
        let splits = splits_per_interval.value_at(i);
        proof {
            assert(lists[i as int] == u64_ints(splits@));
        }
        match checked_total(splits) {
            None => {
                assert(total(lists[i as int]) > u64::MAX);
                return None;
            },
            Some(sum) => {
                let ghost old_sums = u64_ints(result.values());
                let key = splits_per_interval.key_at(i).clone();
                result = result.inserted_at(i, key, sum);
                proof {
                    assert(result.keys() == keys.take(i + 1));
                    assert(u64_ints(result.values()) == old_sums.push(total(lists[i as int])));
                    assert(lists.take(i + 1) == lists.take(i as int).push(lists[i as int]));
                    assert(u64_ints(result.values()) == totals(lists.take(i + 1)));
                }
            },
        }
        i = i + 1;
    }
    proof {
        assert(keys.take(i as int) == keys);
        assert(lists.take(i as int) == lists);
    }
    Some(result)
}

} // verus!
