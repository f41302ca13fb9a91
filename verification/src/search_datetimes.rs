//! Locating timestamps in lines of text.
//!
//! A timestamp is four digits, `-`, two digits, `-`, two digits, a space or
//! `T`, two digits, `:`, two digits, `:`, two digits, and then, if one
//! follows directly, a time zone abbreviation of four or three upper-case
//! letters, or a sign with an offset written `HH:MM` or `HHMM`. Digits and
//! letters are the ASCII ones. A line is searched from left to right: the
//! first timestamp that starts at or after the end of the one before is
//! taken, with the longest ending the grammar allows.

use vstd::prelude::*;

verus! {

/// The number of bytes of a timestamp without its time zone.
pub const CORE_LEN: usize = 19;

/// An ASCII decimal digit.
pub open spec fn is_digit(b: u8) -> bool {
    48 <= b <= 57
}

/// An ASCII upper-case letter.
pub open spec fn is_upper(b: u8) -> bool {
    65 <= b <= 90
}

/// A plus or a minus sign.
pub open spec fn is_sign(b: u8) -> bool {
    b == 43 || b == 45
}

/// Whether a date and time without time zone stands in `s` at `at`.
pub open spec fn core_at(s: Seq<u8>, at: int) -> bool {
    &&& 0 <= at
    &&& at + CORE_LEN <= s.len()
    &&& is_digit(s[at]) && is_digit(s[at + 1]) && is_digit(s[at + 2]) && is_digit(s[at + 3])
    &&& s[at + 4] == 45
    &&& is_digit(s[at + 5]) && is_digit(s[at + 6])
    &&& s[at + 7] == 45
    &&& is_digit(s[at + 8]) && is_digit(s[at + 9])
    &&& (s[at + 10] == 32 || s[at + 10] == 84)
    &&& is_digit(s[at + 11]) && is_digit(s[at + 12])
    &&& s[at + 13] == 58
    &&& is_digit(s[at + 14]) && is_digit(s[at + 15])
    &&& s[at + 16] == 58
    &&& is_digit(s[at + 17]) && is_digit(s[at + 18])
}

/// Whether `n` upper-case letters stand in `s` at `at`.
pub open spec fn uppers_at(s: Seq<u8>, at: int, n: int) -> bool {
    &&& 0 <= at
    &&& at + n <= s.len()
    &&& forall|k: int| 0 <= k < n ==> is_upper(#[trigger] s[at + k])
}

/// Whether a signed offset written `HH:MM` stands in `s` at `at`.
pub open spec fn colon_offset_at(s: Seq<u8>, at: int) -> bool {
    &&& 0 <= at
    &&& at + 6 <= s.len()
    &&& is_sign(s[at])
    &&& is_digit(s[at + 1]) && is_digit(s[at + 2])
    &&& s[at + 3] == 58
    &&& is_digit(s[at + 4]) && is_digit(s[at + 5])
}

/// Whether a signed offset written `HHMM` stands in `s` at `at`.
pub open spec fn plain_offset_at(s: Seq<u8>, at: int) -> bool {
    &&& 0 <= at
    &&& at + 5 <= s.len()
    &&& is_sign(s[at])
    &&& is_digit(s[at + 1]) && is_digit(s[at + 2])
    &&& is_digit(s[at + 3]) && is_digit(s[at + 4])
}

/// The length of the time zone that stands in `s` at `at`: the longest of the
/// forms the grammar allows, and zero where none stands there.
pub open spec fn zone_len(s: Seq<u8>, at: int) -> int {
    if uppers_at(s, at, 4) {
        4
    } else if uppers_at(s, at, 3) {
        3
    } else if colon_offset_at(s, at) {
        6
    } else if plain_offset_at(s, at) {
        5
    } else {
        0
    }
}

/// The length of the timestamp that starts in `s` at `at`. It has a meaning
/// only where `core_at(s, at)` holds.
pub open spec fn match_len(s: Seq<u8>, at: int) -> int {
    CORE_LEN + zone_len(s, at + CORE_LEN)
}

/// The timestamps found in `s` from position `from` on, each as its start and
/// its length, from left to right.
pub open spec fn matches_from(s: Seq<u8>, from: int) -> Seq<(int, int)>
    decreases s.len() - from,
{
    if from < 0 || from + CORE_LEN > s.len() {
        Seq::empty()
    } else if core_at(s, from) {
        seq![(from, match_len(s, from))] + matches_from(s, from + match_len(s, from))
    } else {
        matches_from(s, from + 1)
    }
}

/// Whether `m`, a start and a length, is a timestamp of `s` with the longest
/// ending the grammar allows.
pub open spec fn is_timestamp(s: Seq<u8>, m: (int, int)) -> bool {
    &&& core_at(s, m.0)
    &&& m.1 == match_len(s, m.0)
    &&& m.0 + m.1 <= s.len()
}

/// Whether position `at` lies in one of the timestamps `found`.
pub open spec fn is_covered(found: Seq<(int, int)>, at: int) -> bool {
    exists|k: int| 0 <= k < found.len() && (#[trigger] found[k]).0 <= at < found[k].0 + found[k].1
}

/// A time zone does not reach beyond the end of the line.
pub proof fn lemma_zone_fits(s: Seq<u8>, at: int)
    requires
        0 <= at <= s.len(),
    ensures
        0 <= zone_len(s, at),
        at + zone_len(s, at) <= s.len(),
{
}

/// What is located from `from` on starts at or after `from`, is a timestamp
/// of the grammar, and starts where the one before has ended, or later.
pub proof fn lemma_matches_are_timestamps(s: Seq<u8>, from: int)
    requires
        0 <= from,
    ensures
        forall|k: int|
            0 <= k < matches_from(s, from).len() ==> from <= (#[trigger] matches_from(
                s,
                from,
            )[k]).0 && is_timestamp(s, matches_from(s, from)[k]),
        forall|k: int|
            0 <= k < matches_from(s, from).len() - 1 ==> (#[trigger] matches_from(s, from)[k]).0
                + matches_from(s, from)[k].1 <= matches_from(s, from)[k + 1].0,
    decreases s.len() - from,
{
    let all = matches_from(s, from);
    if from + CORE_LEN > s.len() {
        assert(all.len() == 0);
    } else if core_at(s, from) {
        let len = match_len(s, from);
        let rest = matches_from(s, from + len);
        lemma_zone_fits(s, from + CORE_LEN);
        lemma_matches_are_timestamps(s, from + len);
        assert(all == seq![(from, len)] + rest);
        assert forall|k: int| 0 <= k < all.len() implies from <= (#[trigger] all[k]).0
            && is_timestamp(s, all[k]) by {
            if k > 0 {
                assert(all[k] == rest[k - 1]);
            }
        }
        assert forall|k: int| 0 <= k < all.len() - 1 implies (#[trigger] all[k]).0 + all[k].1
            <= all[k + 1].0 by {
            assert(all[k + 1] == rest[k]);
            if k > 0 {
                assert(all[k] == rest[k - 1]);
            }
        }
    } else {
        let rest = matches_from(s, from + 1);
        lemma_matches_are_timestamps(s, from + 1);
        assert(all == rest);
        assert forall|k: int| 0 <= k < all.len() implies from <= (#[trigger] all[k]).0
            && is_timestamp(s, all[k]) by {
            assert(from + 1 <= rest[k].0 && is_timestamp(s, rest[k]));
        }
        assert forall|k: int| 0 <= k < all.len() - 1 implies (#[trigger] all[k]).0 + all[k].1
            <= all[k + 1].0 by {
            assert(rest[k].0 + rest[k].1 <= rest[k + 1].0);
        }
    }
}

/// No timestamp is passed over: a position at or after `from` at which a
/// date and time stands is the start of a located timestamp or lies in one.
pub proof fn lemma_no_timestamp_is_missed(s: Seq<u8>, from: int, at: int)
    requires
        0 <= from <= at,
        core_at(s, at),
    ensures
        is_covered(matches_from(s, from), at),
    decreases s.len() - from,
{
    let all = matches_from(s, from);
    if core_at(s, from) {
        let len = match_len(s, from);
        let rest = matches_from(s, from + len);
        lemma_zone_fits(s, from + CORE_LEN);
        assert(all == seq![(from, len)] + rest);
        if at < from + len {
            assert(all[0] == (from, len));
        } else {
            lemma_no_timestamp_is_missed(s, from + len, at);
            let k = choose|k: int|
                0 <= k < rest.len() && (#[trigger] rest[k]).0 <= at < rest[k].0 + rest[k].1;
            assert(all[k + 1] == rest[k]);
        }
    } else {
        lemma_no_timestamp_is_missed(s, from + 1, at);
    }
}

/// The text that a run of ASCII bytes spells.
pub open spec fn ascii_text(bytes: Seq<u8>) -> Seq<char> {
    bytes.map_values(|b: u8| b as char)
}

/// A located timestamp: its text, the number of its line and the byte
/// offset in the line at which it starts.
pub type Located = (Seq<char>, int, int);

/// The timestamps of one line, with the number of the line.
pub open spec fn located_in_line(s: Seq<u8>, line_number: int) -> Seq<Located> {
    matches_from(s, 0).map_values(
        |m: (int, int)| (ascii_text(s.subrange(m.0, m.0 + m.1)), line_number, m.0),
    )
}

/// The timestamps of the first `n` lines, in document order. Lines are
/// numbered from 1.
pub open spec fn located_in(lines: Seq<String>, n: int) -> Seq<Located>
    decreases n,
{
    if n <= 0 {
        Seq::empty()
    } else {
        located_in(lines, n - 1) + located_in_line(vstd::utf8::encode_utf8(lines[n - 1]@), n)
    }
}

/// What a list of located timestamps holds.
pub open spec fn located_view(found: Seq<(String, usize, usize)>) -> Seq<Located> {
    found.map_values(|f: (String, usize, usize)| (f.0@, f.1 as int, f.2 as int))
}

fn digit_at(s: &[u8], at: usize) -> (result: bool)
    requires
        at < s.len(),
    ensures
        result == is_digit(s@[at as int]),
{
    48 <= s[at] && s[at] <= 57
}

fn upper_at(s: &[u8], at: usize) -> (result: bool)
    requires
        at < s.len(),
    ensures
        result == is_upper(s@[at as int]),
{
    65 <= s[at] && s[at] <= 90
}

/// Whether a date and time without time zone stands in `s` at `at`.
fn has_core_at(s: &[u8], at: usize) -> (result: bool)
    requires
        at + CORE_LEN <= s.len(),
    ensures
        result == core_at(s@, at as int),
{
    digit_at(s, at) && digit_at(s, at + 1) && digit_at(s, at + 2) && digit_at(s, at + 3) && s[at
        + 4] == 45 && digit_at(s, at + 5) && digit_at(s, at + 6) && s[at + 7] == 45 && digit_at(
        s,
        at + 8,
    ) && digit_at(s, at + 9) && (s[at + 10] == 32 || s[at + 10] == 84) && digit_at(s, at + 11)
        && digit_at(s, at + 12) && s[at + 13] == 58 && digit_at(s, at + 14) && digit_at(
        s,
        at + 15,
    ) && s[at + 16] == 58 && digit_at(s, at + 17) && digit_at(s, at + 18)
}

/// Whether `n` upper-case letters stand in `s` at `at`.
fn has_uppers_at(s: &[u8], at: usize, n: usize) -> (result: bool)
    requires
        at <= s.len(),
        n <= 4,
    ensures
        result == uppers_at(s@, at as int, n as int),
{
    if s.len() - at < n {
        return false;
    }
    let mut k: usize = 0;
    while k < n
        invariant
            0 <= k <= n,
            at + n <= s.len(),
            forall|j: int| 0 <= j < k ==> is_upper(#[trigger] s@[at + j]),
        decreases n - k,
    {
        if !upper_at(s, at + k) {
            assert(!is_upper(s@[at + k]));
            return false;
        }
        k = k + 1;
    }
    true
}

/// The length of the time zone that stands in `s` at `at`.
fn zone_len_at(s: &[u8], at: usize) -> (result: usize)
    requires
        at <= s.len(),
    ensures
        result == zone_len(s@, at as int),
        at + result <= s.len(),
{
    if has_uppers_at(s, at, 4) {
        return 4;
    }
    if has_uppers_at(s, at, 3) {
        return 3;
    }
    let room = s.len() - at;
    if room >= 3 && (s[at] == 43 || s[at] == 45) && digit_at(s, at + 1) && digit_at(s, at + 2) {
        if room >= 6 && s[at + 3] == 58 && digit_at(s, at + 4) && digit_at(s, at + 5) {
            return 6;
        }
        if room >= 5 && digit_at(s, at + 3) && digit_at(s, at + 4) {
            return 5;
        }
    }
    0
}

/// Appends the timestamps of one line to `found`.
fn search_line(s: &[u8], line_number: usize, found: &mut Vec<(String, usize, usize)>)
    ensures
        located_view(final(found)@) == located_view(old(found)@) + located_in_line(
            s@,
            line_number as int,
        ),
{
    let ghost start = located_view(found@);
    let ghost line = line_number as int;
    let ghost shape = |m: (int, int)| (ascii_text(s@.subrange(m.0, m.0 + m.1)), line, m.0);
    let mut at: usize = 0;
    proof {
        assert(start + matches_from(s@, 0).map_values(shape) == start + located_in_line(s@, line));
    }
    while s.len() - at >= CORE_LEN
        invariant
            0 <= at <= s.len(),
            line == line_number as int,
            shape == |m: (int, int)| (ascii_text(s@.subrange(m.0, m.0 + m.1)), line, m.0),
            located_view(found@) + matches_from(s@, at as int).map_values(shape) == start
                + located_in_line(s@, line),
        decreases s.len() - at,
    {
        let ghost before = located_view(found@);
        if has_core_at(s, at) {
            let len = CORE_LEN + zone_len_at(s, at + CORE_LEN);
            let mut text = String::new();
            let mut k: usize = 0;
            while k < len
                invariant
                    0 <= k <= len,
                    at + len <= s.len(),
                    text@ == ascii_text(s@.subrange(at as int, at + k)),
                decreases len - k,
            {
                text.push(s[at + k] as char);
                proof {
                    assert(s@.subrange(at as int, at + k + 1) == s@.subrange(
                        at as int,
                        at + k,
                    ).push(s@[at + k]));
                }
                k = k + 1;
            }
            found.push((text, line_number, at));
            proof {
                let m = (at as int, len as int);
                let rest = matches_from(s@, at + len);
                assert(matches_from(s@, at as int) == seq![m] + rest);
                assert((seq![m] + rest).map_values(shape) == seq![shape(m)] + rest.map_values(
                    shape,
                ));
                assert(located_view(found@) == before.push(shape(m)));
                assert(located_view(found@) + rest.map_values(shape) == before + (seq![shape(m)]
                    + rest.map_values(shape)));
            }
            at = at + len;
        } else {
            at = at + 1;
        }
    }
    proof {
        assert(matches_from(s@, at as int).map_values(shape) == Seq::<Located>::empty());
        assert(located_view(found@) + Seq::<Located>::empty() == located_view(found@));
    }
}

/// Finds the timestamps in `lines`. Each is returned with its text, the
/// number of its line, counted from 1, and the byte offset in the line at
/// which it starts, in document order.
pub fn search_datetimes(lines: &Vec<String>) -> (results: Vec<(String, usize, usize)>)
    ensures
        located_view(results@) == located_in(lines@, lines.len() as int),
{
    let mut results: Vec<(String, usize, usize)> = Vec::new();
    let mut i: usize = 0;
    proof {
        assert(located_view(results@) == located_in(lines@, 0));
    }
    while i < lines.len()
        invariant
            0 <= i <= lines.len(),
            located_view(results@) == located_in(lines@, i as int),
        decreases lines.len() - i,
    {
        let line = lines[i].as_str();
        search_line(line.as_bytes(), i + 1, &mut results);
        i = i + 1;
    }
    results
}

} // verus!
