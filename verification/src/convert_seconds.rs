//! Writing a count of seconds in a chosen unit: as whole seconds, as minutes
//! or hours with two fractional digits, or as a compound of hours, minutes
//! and seconds.
//!
//! Minutes and hours are computed exactly and rounded to the nearest
//! hundredth; a count that lies exactly between two hundredths goes to the
//! even one.

use vstd::prelude::*;
use crate::text::{
    decimal, lower_chars, lowered, magnitude, magnitude_of, padded2, push_decimal, push_padded2,
    push_signed_decimal, same_chars, signed_decimal,
};

verus! {

/// The unit in which a count of seconds is written.
#[derive(Clone, Copy, Debug, PartialEq, Eq, Structural)]
pub enum Unit {
    /// Whole seconds.
    Seconds,
    /// Minutes, with two fractional digits.
    Minutes,
    /// Hours, with two fractional digits.
    Hours,
    /// Hours, minutes and seconds as one compound token.
    Hms,
}

/// The unit that a selector names. Letter case does not matter.
pub open spec fn unit_of(selector: Seq<char>) -> Option<Unit> {
    let s = lowered(selector);
    if s == seq!['h', 'm', 's'] {
        Some(Unit::Hms)
    } else if s == seq!['h'] {
        Some(Unit::Hours)
    } else if s == seq!['m'] {
        Some(Unit::Minutes)
    } else if s == seq!['s'] {
        Some(Unit::Seconds)
    } else {
        None
    }
}

/// The compound token of `seconds`: hours, then minutes, then seconds, each
/// left out when zero, except that zero seconds alone are written `0s`. The
/// first part written is not padded, the later ones have two digits.
pub open spec fn hms(seconds: nat) -> Seq<char> {
    let h = seconds / 3600;
    let m = (seconds % 3600) / 60;
    let s = seconds % 60;
    let hours = if h > 0 {
        decimal(h) + seq!['h']
    } else {
        Seq::empty()
    };
    let minutes = if m == 0 {
        Seq::empty()
    } else if h == 0 {
        decimal(m) + seq!['m']
    } else {
        padded2(m) + seq!['m']
    };
    let secs = if h == 0 && m == 0 {
        decimal(s) + seq!['s']
    } else if s > 0 {
        padded2(s) + seq!['s']
    } else {
        Seq::empty()
    };
    hours + minutes + secs
}

/// `num / den` rounded to the nearest integer, a tie going to the even one.
pub open spec fn round_half_even(num: nat, den: nat) -> nat
    recommends
        den > 0,
{
    let q = num / den;
    let r = num % den;
    if 2 * r < den || (2 * r == den && q % 2 == 0) {
        q
    } else {
        q + 1
    }
}

/// `seconds / per` as a decimal numeral with exactly two fractional digits,
/// rounded half to even.
pub open spec fn fixed2(seconds: nat, per: nat) -> Seq<char>
    recommends
        per > 0,
{
    let hundredths = round_half_even(seconds * 100, per);
    decimal(hundredths / 100) + seq!['.'] + seq![
        crate::text::digit((hundredths / 10 % 10) as int),
        crate::text::digit((hundredths % 10) as int),
    ]
}

/// The sign of a negative count, which is written in front of its magnitude.
pub open spec fn sign(seconds: int) -> Seq<char> {
    if seconds < 0 {
        seq!['-']
    } else {
        Seq::empty()
    }
}

/// `seconds` written in `unit`.
pub open spec fn converted(seconds: int, unit: Unit) -> Seq<char> {
    match unit {
        Unit::Seconds => signed_decimal(seconds),
        Unit::Minutes => sign(seconds) + fixed2(magnitude(seconds), 60),
        Unit::Hours => sign(seconds) + fixed2(magnitude(seconds), 3600),
        Unit::Hms => sign(seconds) + hms(magnitude(seconds)),
    }
}

/// Reads a unit selector: `s`, `m`, `h` or `hms`, in any letter case.
pub fn parse_unit(selector: &str) -> (unit: Option<Unit>)
    ensures
        unit == unit_of(selector@),
{
    let lower = lower_chars(selector);
    let hms = vec!['h', 'm', 's'];
    let h = vec!['h'];
    let m = vec!['m'];
    let s = vec!['s'];
    proof {
        assert(hms@ == seq!['h', 'm', 's']);
        assert(h@ == seq!['h']);
        assert(m@ == seq!['m']);
        assert(s@ == seq!['s']);
    }
    if same_chars(&lower, &hms) {
        Some(Unit::Hms)
    } else if same_chars(&lower, &h) {
        Some(Unit::Hours)
    } else if same_chars(&lower, &m) {
        Some(Unit::Minutes)
    } else if same_chars(&lower, &s) {
        Some(Unit::Seconds)
    } else {
        None
    }
}

/// Appends the compound token of `seconds` to `out`.
pub fn push_hms(out: &mut String, seconds: u64)
    ensures
        final(out)@ == old(out)@ + hms(seconds as nat),
{
    let h = seconds / 3600;
    let m = (seconds % 3600) / 60;
    let s = seconds % 60;
    let ghost start = out@;
    if h > 0 {
        push_decimal(out, h);
        out.push('h');
    }
    let ghost after_h = out@;
    if m > 0 {
        if h == 0 {
            push_decimal(out, m);
        } else {
            push_padded2(out, m);
        }
        out.push('m');
    }
    let ghost after_m = out@;
    if h == 0 && m == 0 {
        push_decimal(out, s);
        out.push('s');
    } else if s > 0 {
        push_padded2(out, s);
        out.push('s');
    }
    proof {
        let hours = if h > 0 {
            decimal(h as nat) + seq!['h']
        } else {
            Seq::empty()
        };
        let minutes = if m == 0 {
            Seq::empty()
        } else if h == 0 {
            decimal(m as nat) + seq!['m']
        } else {
            padded2(m as nat) + seq!['m']
        };
        let secs = if h == 0 && m == 0 {
            decimal(s as nat) + seq!['s']
        } else if s > 0 {
            padded2(s as nat) + seq!['s']
        } else {
            Seq::empty()
        };
        assert(after_h == start + hours);
        assert(after_m == after_h + minutes);
        assert(out@ == after_m + secs);
        assert(out@ == start + (hours + minutes + secs));
    }
}

/// Appends `seconds / per`, with two fractional digits, to `out`.
pub fn push_fixed2(out: &mut String, seconds: u64, per: u64)
    requires
        0 < per <= 3600,
    ensures
        final(out)@ == old(out)@ + fixed2(seconds as nat, per as nat),
{
    let num: u128 = (seconds as u128) * 100;
    let den: u128 = per as u128;
    let q: u128 = num / den;
    let r: u128 = num % den;
    let hundredths: u128 = if 2 * r < den || (2 * r == den && q % 2 == 0) {
        q
    } else {
        q + 1
    };
    assert(hundredths == round_half_even((seconds * 100) as nat, per as nat));
    assert(hundredths / 100 <= u64::MAX) by {
        assert(q <= num);
    }
    let whole: u64 = (hundredths / 100) as u64;
    let tens: u8 = (hundredths / 10 % 10) as u8;
    let ones: u8 = (hundredths % 10) as u8;
    let ghost start = out@;
    push_decimal(out, whole);
    out.push('.');
    out.push(crate::text::digit_char(tens));
    out.push(crate::text::digit_char(ones));
    proof {
        assert(out@ == start + (decimal(whole as nat) + seq!['.'] + seq![
            crate::text::digit(tens as int),
            crate::text::digit(ones as int),
        ]));
    }
}

/// Appends `seconds`, written in `unit`, to `out`.
pub fn push_converted(out: &mut String, seconds: i64, unit: Unit)
    ensures
        final(out)@ == old(out)@ + converted(seconds as int, unit),
{
    let ghost start = out@;
    match unit {
        Unit::Seconds => {
            push_signed_decimal(out, seconds);
        },
        Unit::Minutes => {
            if seconds < 0 {
                out.push('-');
            }
            let ghost mid = out@;
            push_fixed2(out, magnitude_of(seconds), 60);
            proof {
                assert(mid == start + sign(seconds as int));
                assert(out@ == start + (sign(seconds as int) + fixed2(
                    magnitude(seconds as int),
                    60,
                )));
            }
        },
        Unit::Hours => {
            if seconds < 0 {
                out.push('-');
            }
            let ghost mid = out@;
            push_fixed2(out, magnitude_of(seconds), 3600);
            proof {
                assert(mid == start + sign(seconds as int));
                assert(out@ == start + (sign(seconds as int) + fixed2(
                    magnitude(seconds as int),
                    3600,
                )));
            }
        },
        Unit::Hms => {
            if seconds < 0 {
                out.push('-');
            }
            let ghost mid = out@;
            push_hms(out, magnitude_of(seconds));
            proof {
                assert(mid == start + sign(seconds as int));
                assert(out@ == start + (sign(seconds as int) + hms(magnitude(seconds as int))));
            }
        },
    }
}

/// Appends the unsigned count `seconds`, written in `unit`, to `out`.
pub fn push_converted_unsigned(out: &mut String, seconds: u64, unit: Unit)
    ensures
        final(out)@ == old(out)@ + converted(seconds as int, unit),
{
    let ghost start = out@;
    match unit {
        Unit::Seconds => {
            push_decimal(out, seconds);
        },
        Unit::Minutes => {
            push_fixed2(out, seconds, 60);
            proof {
                assert(out@ == start + (sign(seconds as int) + fixed2(seconds as nat, 60)));
            }
        },
        Unit::Hours => {
            push_fixed2(out, seconds, 3600);
            proof {
                assert(out@ == start + (sign(seconds as int) + fixed2(seconds as nat, 3600)));
            }
        },
        Unit::Hms => {
            push_hms(out, seconds);
            proof {
                assert(out@ == start + (sign(seconds as int) + hms(seconds as nat)));
            }
        },
    }
}

/// Writes `seconds` in the unit that `unit` names. A selector that names no
/// unit is rejected.
pub fn format_seconds(seconds: i64, unit: &str) -> (text: Option<String>)
    ensures
        text is Some <==> unit_of(unit@) is Some,
        text is Some ==> text->0@ == converted(seconds as int, unit_of(unit@)->0),
{
    match parse_unit(unit) {
        Some(u) => {
            let mut text = String::new();
            push_converted(&mut text, seconds, u);
            Some(text)
        },
        None => None,
    }
}

/// A count of seconds that can be written in a unit.
pub trait ConvertSeconds {
    /// The count that the value stands for.
    spec fn seconds(&self) -> int;

    /// Writes the count in the unit that `unit` names.
    fn convert_seconds(&self, unit: &str) -> (text: String)
        requires
            unit_of(unit@) is Some,
        ensures
            text@ == converted(self.seconds(), unit_of(unit@)->0),
    ;

    /// Writes `seconds` as a compound token of hours, minutes and seconds.
    fn get_hms(&self, seconds: u64) -> (text: String)
        ensures
            text@ == hms(seconds as nat),
    {
        let mut text = String::new();
        push_hms(&mut text, seconds);
        text
    }
}

impl ConvertSeconds for i64 {
    open spec fn seconds(&self) -> int {
        *self as int
    }

    fn convert_seconds(&self, unit: &str) -> (text: String) {
        let mut text = String::new();
        match parse_unit(unit) {
            Some(u) => {
                push_converted(&mut text, *self, u);
            },
            None => {},
        }
        text
    }
}

impl ConvertSeconds for u64 {
    open spec fn seconds(&self) -> int {
        *self as int
    }

    fn convert_seconds(&self, unit: &str) -> (text: String) {
        let mut text = String::new();
        match parse_unit(unit) {
            Some(u) => {
                push_converted_unsigned(&mut text, *self, u);
            },
            None => {},
        }
        text
    }
}

} // verus!
