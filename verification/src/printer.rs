//! The text of the reports. A printer collects the lines of a report; what
//! it has collected is handed out as one string.

use vstd::prelude::*;
use crate::convert_seconds::{converted, parse_unit, push_converted_unsigned, unit_of, Unit};
use crate::delta_datetimes::{i64_ints, u64_ints};
use crate::group_datetimes::{all_key, bucket_readings};
use crate::interval_map::IntervalMap;
use crate::search_datetimes::{located_view, Located};
use crate::split_intervals::lists_of_ints;
use crate::text::{
    chars_of, decimal, push_chars, push_decimal, push_signed_decimal, same_chars, signed_decimal,
};
use crate::timestamp::{Reading, Timestamp};

verus! {

/// Whether the keys are those of an ungrouped report.
pub open spec fn is_ungrouped(keys: Seq<Seq<char>>) -> bool {
    keys.len() == 1 && keys[0] == all_key()
}

/// One line for each located timestamp: its text, followed, where locations
/// are wanted, by a tab, the line number, a tab and the column.
pub open spec fn located_lines(found: Seq<Located>, locations: bool) -> Seq<char>
    decreases found.len(),
{
    if found.len() == 0 {
        Seq::empty()
    } else {
        let f = found.last();
        located_lines(found.drop_last(), locations) + f.0 + (if locations {
            seq!['\t'] + decimal(f.1 as nat) + seq!['\t'] + decimal(f.2 as nat)
        } else {
            Seq::empty()
        }) + seq!['\n']
    }
}

/// One line for each gap, with its sign when negative.
pub open spec fn delta_lines(deltas: Seq<int>) -> Seq<char>
    decreases deltas.len(),
{
    if deltas.len() == 0 {
        Seq::empty()
    } else {
        delta_lines(deltas.drop_last()) + signed_decimal(deltas.last()) + seq!['\n']
    }
}

/// One line for each of the first `n` groups: the key, a colon, a space and
/// the number of timestamps in the group.
pub open spec fn count_lines(keys: Seq<Seq<char>>, buckets: Seq<Seq<Reading>>, n: int) -> Seq<
    char,
>
    decreases n,
{
    if n <= 0 {
        Seq::empty()
    } else {
        count_lines(keys, buckets, n - 1) + keys[n - 1] + seq![':', ' '] + decimal(
            buckets[n - 1].len(),
        ) + seq!['\n']
    }
}

/// The report of the number of timestamps in each group: the number alone
/// where the input was not grouped, and else a line for each group.
pub open spec fn count_report(keys: Seq<Seq<char>>, buckets: Seq<Seq<Reading>>) -> Seq<char> {
    if is_ungrouped(keys) {
        decimal(buckets[0].len()) + seq!['\n']
    } else {
        count_lines(keys, buckets, keys.len() as int)
    }
}

/// One line for each of the values, written in `unit`.
pub open spec fn split_lines(splits: Seq<int>, unit: Unit) -> Seq<char>
    decreases splits.len(),
{
    if splits.len() == 0 {
        Seq::empty()
    } else {
        split_lines(splits.drop_last(), unit) + converted(splits.last(), unit) + seq!['\n']
    }
}

/// The values written in `unit`, with a comma and a space between them.
pub open spec fn split_list(splits: Seq<int>, unit: Unit) -> Seq<char>
    decreases splits.len(),
{
    if splits.len() == 0 {
        Seq::empty()
    } else if splits.len() == 1 {
        converted(splits[0], unit)
    } else {
        split_list(splits.drop_last(), unit) + seq![',', ' '] + converted(splits.last(), unit)
    }
}

/// One line for each of the first `n` groups: the key, a colon, a space and
/// the list of its values.
pub open spec fn split_list_lines(
    keys: Seq<Seq<char>>,
    values: Seq<Seq<int>>,
    unit: Unit,
    n: int,
) -> Seq<char>
    decreases n,
{
    if n <= 0 {
        Seq::empty()
    } else {
        split_list_lines(keys, values, unit, n - 1) + keys[n - 1] + seq![':', ' '] + split_list(
            values[n - 1],
            unit,
        ) + seq!['\n']
    }
}

/// The report of the periods of each group: one period to a line where the
/// input was not grouped, and else a line for each group.
pub open spec fn splits_report(keys: Seq<Seq<char>>, values: Seq<Seq<int>>, unit: Unit) -> Seq<
    char,
> {
    if is_ungrouped(keys) {
        split_lines(values[0], unit)
    } else {
        split_list_lines(keys, values, unit, keys.len() as int)
    }
}

/// One line for each of the first `n` groups: the key, a colon, a space and
/// its sum.
pub open spec fn sum_lines(keys: Seq<Seq<char>>, values: Seq<int>, unit: Unit, n: int) -> Seq<
    char,
>
    decreases n,
{
    if n <= 0 {
        Seq::empty()
    } else {
        sum_lines(keys, values, unit, n - 1) + keys[n - 1] + seq![':', ' '] + converted(
            values[n - 1],
            unit,
        ) + seq!['\n']
    }
}

/// The report of the sum of each group: the sum alone where the input was
/// not grouped, and else a line for each group.
pub open spec fn sums_report(keys: Seq<Seq<char>>, values: Seq<int>, unit: Unit) -> Seq<char> {
    if is_ungrouped(keys) {
        converted(values[0], unit) + seq!['\n']
    } else {
        sum_lines(keys, values, unit, keys.len() as int)
    }
}

/// Collects the text of a report.
pub struct Printer {
    output: String,
}

impl View for Printer {
    type V = Seq<char>;

    closed spec fn view(&self) -> Seq<char> {
        self.output@
    }
}

/// Whether the map holds the single group that stands for the whole input.
fn holds_all_only<V>(map: &IntervalMap<V>) -> (result: bool)
    ensures
        result == is_ungrouped(map.keys()),
{
    if map.len() != 1 {
        return false;
    }
    let key = chars_of(map.key_at(0).as_str());
    let all = vec!['a', 'l', 'l'];
    assert(all@ == all_key());
    same_chars(&key, &all)
}

impl Printer {
    /// A printer that has collected nothing.
    pub fn new() -> (printer: Printer)
        ensures
            printer@ == Seq::<char>::empty(),
    {
        Printer { output: String::new() }
    }

    /// A printer that has collected nothing.
    pub fn default() -> (printer: Printer)
        ensures
            printer@ == Seq::<char>::empty(),
    {
        Printer { output: String::new() }
    }

    /// The text collected so far.
    pub fn output(&self) -> (text: &str)
        ensures
            text@ == self@,
    {
        self.output.as_str()
    }

    /// Hands out the text collected so far and starts anew.
    pub fn take_output(&mut self) -> (text: String)
        ensures
            text@ == old(self)@,
            final(self)@ == Seq::<char>::empty(),
    {
        let mut text = String::new();
        std::mem::swap(&mut self.output, &mut text);
        text
    }

    /// Adds the text of each located timestamp, one to a line.
    pub fn print_datetimes_no_locations(
        &mut self,
        datetimes_and_locations: &Vec<(String, usize, usize)>,
    )
        ensures
            final(self)@ == old(self)@ + located_lines(
                located_view(datetimes_and_locations@),
                false,
            ),
    {
        self.print_located(datetimes_and_locations, false);
    }

    /// Adds a line for each located timestamp: its text, the number of its
    /// line and its column, with tabs between them.
    pub fn print_datetimes_and_locations(
        &mut self,
        datetimes_and_locations: &Vec<(String, usize, usize)>,
    )
        ensures
            final(self)@ == old(self)@ + located_lines(
                located_view(datetimes_and_locations@),
                true,
            ),
    {
        self.print_located(datetimes_and_locations, true);
    }

    fn print_located(&mut self, found: &Vec<(String, usize, usize)>, locations: bool)
        ensures
            final(self)@ == old(self)@ + located_lines(located_view(found@), locations),
    {
        let ghost start = self@;
        let ghost all = located_view(found@);
        let mut i: usize = 0;
        assert(all.take(0) == Seq::<Located>::empty());
        while i < found.len()
            invariant
                0 <= i <= found.len(),
                all == located_view(found@),
                self@ == start + located_lines(all.take(i as int), locations),
            decreases found.len() - i,
        {
            let ghost before = self@;
            let chars = chars_of(found[i].0.as_str());
            push_chars(&mut self.output, &chars);
            if locations {
                self.output.push('\t');
                push_decimal(&mut self.output, found[i].1 as u64);
                self.output.push('\t');
                push_decimal(&mut self.output, found[i].2 as u64);
            }
            self.output.push('\n');
            proof {
                let f = all[i as int];
                assert(all.take(i + 1).drop_last() == all.take(i as int));
                assert(all.take(i + 1).last() == f);
                let tail = if locations {
                    seq!['\t'] + decimal(f.1 as nat) + seq!['\t'] + decimal(f.2 as nat)
                } else {
                    Seq::empty()
                };
                assert(self@ == before + f.0 + tail + seq!['\n']);
                assert(self@ == start + (located_lines(all.take(i as int), locations) + f.0 + tail
                    + seq!['\n']));
            }
            i = i + 1;
        }
        assert(all.take(i as int) == all);
    }

    /// Adds a line for each gap.
    pub fn print_deltas(&mut self, deltas: &Vec<i64>)
        ensures
            final(self)@ == old(self)@ + delta_lines(i64_ints(deltas@)),
    {
        let ghost start = self@;
        let ghost all = i64_ints(deltas@);
        let mut i: usize = 0;
        assert(all.take(0) == Seq::<int>::empty());
        while i < deltas.len()
            invariant
                0 <= i <= deltas.len(),
                all == i64_ints(deltas@),
                self@ == start + delta_lines(all.take(i as int)),
            decreases deltas.len() - i,
        {
            let ghost before = self@;
            push_signed_decimal(&mut self.output, deltas[i]);
            self.output.push('\n');
            proof {
                assert(all.take(i + 1).drop_last() == all.take(i as int));
                assert(all.take(i + 1).last() == all[i as int]);
                assert(self@ == start + (delta_lines(all.take(i as int)) + signed_decimal(
                    all[i as int],
                ) + seq!['\n']));
            }
            i = i + 1;
        }
        assert(all.take(i as int) == all);
    }

    /// Adds the number of timestamps of each group.
    pub fn print_counts_datetimes_grouped(&mut self, datetimes_grouped: &IntervalMap<Vec<Timestamp>>)
        ensures
            final(self)@ == old(self)@ + count_report(
                datetimes_grouped.keys(),
                bucket_readings(datetimes_grouped.values()),
            ),
    {
        let ghost start = self@;
        let ghost keys = datetimes_grouped.keys();
        let ghost buckets = bucket_readings(datetimes_grouped.values());
        let n = datetimes_grouped.len();
        if holds_all_only(datetimes_grouped) {
            push_decimal(&mut self.output, datetimes_grouped.value_at(0).len() as u64);
            self.output.push('\n');
            assert(self@ == start + (decimal(buckets[0].len()) + seq!['\n']));
            return;
        }
        let mut i: usize = 0;
        while i < n
            invariant
                0 <= i <= n,
                n == keys.len(),
                n == datetimes_grouped.values().len(),
                keys == datetimes_grouped.keys(),
                buckets == bucket_readings(datetimes_grouped.values()),
                self@ == start + count_lines(keys, buckets, i as int),
            decreases n - i,
        {
            let ghost before = self@;
            let key = chars_of(datetimes_grouped.key_at(i).as_str());
            push_chars(&mut self.output, &key);
            self.output.push(':');
            self.output.push(' ');
            push_decimal(&mut self.output, datetimes_grouped.value_at(i).len() as u64);
            self.output.push('\n');
            proof {
                let count = decimal(buckets[i as int].len());
                assert(self@ == before + keys[i as int] + seq![':', ' '] + count + seq!['\n']);
                assert(self@ == start + (count_lines(keys, buckets, i as int) + keys[i as int]
                    + seq![':', ' '] + count + seq!['\n']));
            }
            i = i + 1;
        }
    }

    fn print_split_lines(&mut self, splits: &Vec<u64>, unit: Unit)
        ensures
            final(self)@ == old(self)@ + split_lines(u64_ints(splits@), unit),
    {
        let ghost start = self@;
        let ghost all = u64_ints(splits@);
        let mut i: usize = 0;
        assert(all.take(0) == Seq::<int>::empty());
        while i < splits.len()
            invariant
                0 <= i <= splits.len(),
                all == u64_ints(splits@),
                self@ == start + split_lines(all.take(i as int), unit),
            decreases splits.len() - i,
        {
            push_converted_unsigned(&mut self.output, splits[i], unit);
            self.output.push('\n');
            proof {
                assert(all.take(i + 1).drop_last() == all.take(i as int));
                assert(all.take(i + 1).last() == all[i as int]);
                assert(self@ == start + (split_lines(all.take(i as int), unit) + converted(
                    all[i as int],
                    unit,
                ) + seq!['\n']));
            }
            i = i + 1;
        }
        assert(all.take(i as int) == all);
    }

    fn print_split_list(&mut self, splits: &Vec<u64>, unit: Unit)
        ensures
            final(self)@ == old(self)@ + split_list(u64_ints(splits@), unit),
    {
        let ghost start = self@;
        let ghost all = u64_ints(splits@);
        let mut i: usize = 0;
        assert(all.take(0) == Seq::<int>::empty());
        assert(self@ == start + split_list(all.take(0), unit));
        while i < splits.len()
            invariant
                0 <= i <= splits.len(),
                all == u64_ints(splits@),
                self@ == start + split_list(all.take(i as int), unit),
            decreases splits.len() - i,
        {
            if i > 0 {
                self.output.push(',');
                self.output.push(' ');
            }
            push_converted_unsigned(&mut self.output, splits[i], unit);
            proof {
                let seen = all.take(i as int);
                let next = all.take(i + 1);
                assert(next.drop_last() == seen);
                assert(next.last() == all[i as int]);
                let one = converted(all[i as int], unit);
                if i > 0 {
                    assert(self@ == start + (split_list(seen, unit) + seq![',', ' '] + one));
                } else {
                    assert(next[0] == all[0]);
                    assert(self@ == start + one);
                }
            }
            i = i + 1;
        }
        assert(all.take(i as int) == all);
    }

    /// Adds the periods of each group, written in `unit`.
    pub fn print_splits(&mut self, splits_per_interval: &IntervalMap<Vec<u64>>, unit: Unit)
        ensures
            final(self)@ == old(self)@ + splits_report(
                splits_per_interval.keys(),
                lists_of_ints(splits_per_interval.values()),
                unit,
            ),
    {
        let ghost start = self@;
        let ghost keys = splits_per_interval.keys();
        let ghost values = lists_of_ints(splits_per_interval.values());
        let n = splits_per_interval.len();
        if holds_all_only(splits_per_interval) {
            self.print_split_lines(splits_per_interval.value_at(0), unit);
            return;
        }
        let mut i: usize = 0;
        while i < n
            invariant
                0 <= i <= n,
                n == keys.len(),
                n == splits_per_interval.values().len(),
                keys == splits_per_interval.keys(),
                values == lists_of_ints(splits_per_interval.values()),
                self@ == start + split_list_lines(keys, values, unit, i as int),
            decreases n - i,
        {
            let ghost before = self@;
            let key = chars_of(splits_per_interval.key_at(i).as_str());
            push_chars(&mut self.output, &key);
            self.output.push(':');
            self.output.push(' ');
            self.print_split_list(splits_per_interval.value_at(i), unit);
            self.output.push('\n');
            proof {
                let list = split_list(values[i as int], unit);
                assert(self@ == before + keys[i as int] + seq![':', ' '] + list + seq!['\n']);
                assert(self@ == start + (split_list_lines(keys, values, unit, i as int)
                    + keys[i as int] + seq![':', ' '] + list + seq!['\n']));
            }
            i = i + 1;
        }
    }

    /// Adds the periods of each group, written in the unit that `unit` names.
    pub fn print_splits_per_interval(
        &mut self,
        splits_per_interval: &IntervalMap<Vec<u64>>,
        unit: &str,
    )
        requires
            unit_of(unit@) is Some,
        ensures
            final(self)@ == old(self)@ + splits_report(
                splits_per_interval.keys(),
                lists_of_ints(splits_per_interval.values()),
                unit_of(unit@)->0,
            ),
    {
        match parse_unit(unit) {
            Some(u) => {
                self.print_splits(splits_per_interval, u);
            },
            None => {},
        }
    }

    /// Adds the sum of each group, written in `unit`.
    pub fn print_sums(&mut self, sum_splits_per_interval: &IntervalMap<u64>, unit: Unit)
        ensures
            final(self)@ == old(self)@ + sums_report(
                sum_splits_per_interval.keys(),
                u64_ints(sum_splits_per_interval.values()),
                unit,
            ),
    {
        let ghost start = self@;
        let ghost keys = sum_splits_per_interval.keys();
        let ghost values = u64_ints(sum_splits_per_interval.values());
        let n = sum_splits_per_interval.len();
        if holds_all_only(sum_splits_per_interval) {
            push_converted_unsigned(&mut self.output, *sum_splits_per_interval.value_at(0), unit);
            self.output.push('\n');
            assert(self@ == start + (converted(values[0], unit) + seq!['\n']));
            return;
        }
        let mut i: usize = 0;
        while i < n
            invariant
                0 <= i <= n,
                n == keys.len(),
                n == sum_splits_per_interval.values().len(),
                keys == sum_splits_per_interval.keys(),
                values == u64_ints(sum_splits_per_interval.values()),
                self@ == start + sum_lines(keys, values, unit, i as int),
            decreases n - i,
        {
            let ghost before = self@;
            let key = chars_of(sum_splits_per_interval.key_at(i).as_str());
            push_chars(&mut self.output, &key);
            self.output.push(':');
            self.output.push(' ');
            push_converted_unsigned(&mut self.output, *sum_splits_per_interval.value_at(i), unit);
            self.output.push('\n');
            proof {
                let one = converted(values[i as int], unit);
                assert(self@ == before + keys[i as int] + seq![':', ' '] + one + seq!['\n']);
                assert(self@ == start + (sum_lines(keys, values, unit, i as int) + keys[i as int]
                    + seq![':', ' '] + one + seq!['\n']));
            }
            i = i + 1;
        }
    }

    /// Adds the sum of each group, written in the unit that `unit` names.
    pub fn print_sum_splits_per_interval(
        &mut self,
        sum_splits_per_interval: &IntervalMap<u64>,
        unit: &str,
    )
        requires
            unit_of(unit@) is Some,
        ensures
            final(self)@ == old(self)@ + sums_report(
                sum_splits_per_interval.keys(),
                u64_ints(sum_splits_per_interval.values()),
                unit_of(unit@)->0,
            ),
    {
        match parse_unit(unit) {
            Some(u) => {
                self.print_sums(sum_splits_per_interval, u);
            },
            None => {},
        }
    }
}

} // verus!
