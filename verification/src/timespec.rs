//! Two ways of saying "when": a duration (`10m`, `1h30m`) and a cron
//! expression (`0 9 * * 1-5`).
//!
//! Both are parsed here, in the domain, rather than at the command-line edge.
//! A schedule that was accepted must be one the scheduler can actually
//! evaluate, and the only way to guarantee that is to let the same type do
//! both jobs.
use vstd::prelude::*;

use crate::error::{DomainError, Result};
use crate::time::{
    calendar_day, calendar_of_day, day_index, day_of, floor_minute, hour_in_day, hour_of,
    in_calendar, minute_in_hour, minute_of, within_reach,
};
use crate::text::{
    chars_of, decimal, decimal_text, digit, digit_value, is_digit, is_space, is_upper, lemma_plain_keyword, is_text, join3, keyword, lower,
    lowered, lemma_find_char, lemma_split_on_nonempty, lemma_trim_plain, owned, parse_unsigned, parse_unsigned_chars, push_char,
    push_chars, push_str, slice_chars, split_in, split_on, split_once, split_once_in, trim,
    trim_bounds, views, join_spaced, join_with_spaces, lemma_words_of_joined, lemma_words_plain, string_of, words, words_in,
};

verus! {

/// The longest interval accepted: one year of seconds.
pub const MAX_INTERVAL_SECS: u64 = 31_536_000;

/// A span of time, stored as whole seconds.
#[derive(Debug, Clone, Copy, PartialEq, Eq, PartialOrd, Ord, Hash)]
pub struct Interval(u64);

impl View for Interval {
    type V = nat;

    closed spec fn view(&self) -> nat {
        self.0 as nat
    }
}

/// The letters an interval may use, and what each multiplies by.
pub open spec fn is_unit(c: char) -> bool {
    c == 's' || c == 'm' || c == 'h' || c == 'd' || c == 'w'
}

pub open spec fn unit_scale(c: char) -> nat {
    if c == 's' {
        1
    } else if c == 'm' {
        60
    } else if c == 'h' {
        3600
    } else if c == 'd' {
        86400
    } else {
        604800
    }
}

/// Saturating at `u64::MAX`.
pub open spec fn sat(n: nat) -> nat {
    if n > u64::MAX {
        u64::MAX as nat
    } else {
        n
    }
}

/// Reading state: (total so far, value of pending digits, digits pending, a unit seen).
pub type IntervalScan = (nat, nat, bool, bool);

pub open spec fn interval_step(st: IntervalScan, c: char) -> Option<IntervalScan> {
    if is_digit(c) {
        Some((st.0, st.1 * 10 + digit_value(c), true, st.3))
    } else if is_unit(c) {
        if !st.2 || st.1 > u64::MAX {
            None
        } else {
            Some((sat(st.0 + sat(st.1 * unit_scale(c))), 0, false, true))
        }
    } else if c == ' ' {
        Some(st)
    } else {
        None
    }
}

/// Reads `s` one character at a time; `None` as soon as a character is refused.
pub open spec fn interval_scan(s: Seq<char>) -> Option<IntervalScan>
    decreases s.len(),
{
    if s.len() == 0 {
        Some((0, 0, false, false))
    } else {
        match interval_scan(s.drop_last()) {
            Some(st) => interval_step(st, s.last()),
            None => None,
        }
    }
}

/// The seconds a normalised interval text adds up to, before range checks.
pub open spec fn interval_total(text: Seq<char>) -> Option<nat> {
    if text.len() == 0 {
        None
    } else if parse_unsigned(text, u64::MAX as nat) is Some {
        Some(sat(parse_unsigned(text, u64::MAX as nat)->0 * 60))
    } else {
        match interval_scan(text) {
            Some(st) => if st.2 || !st.3 {
                None
            } else {
                Some(st.0)
            },
            None => None,
        }
    }
}

/// Intervals run from one second to one year.
pub open spec fn interval_in_range(secs: nat) -> bool {
    0 < secs <= MAX_INTERVAL_SECS
}

/// The seconds `Interval::parse` reads from `input`, or `None` when it refuses it.
pub open spec fn spec_interval(input: Seq<char>) -> Option<nat> {
    match interval_total(lower(trim(input))) {
        Some(secs) => if interval_in_range(secs) {
            Some(secs)
        } else {
            None
        },
        None => None,
    }
}

/// One component of a rendered interval: `3h`, or nothing for zero.
pub open spec fn interval_part(n: nat, unit: char) -> Seq<char> {
    if n > 0 {
        decimal(n).push(unit)
    } else {
        Seq::empty()
    }
}

/// How an interval is written back: days, hours, minutes, seconds, zeros left out.
pub open spec fn interval_text(n: nat) -> Seq<char> {
    interval_part(n / 86400, 'd') + interval_part((n % 86400) / 3600, 'h') + interval_part(
        (n % 3600) / 60,
        'm',
    ) + interval_part(n % 60, 's')
}

pub proof fn lemma_scan_push(s: Seq<char>, c: char)
    ensures
        interval_scan(s.push(c)) == (match interval_scan(s) {
            Some(st) => interval_step(st, c),
            None => None,
        }),
{
    assert(s.push(c).drop_last() =~= s);
}

/// A refused prefix cannot be rescued by what follows it.
pub proof fn lemma_scan_none_extends(s: Seq<char>, k: int)
    requires
        0 <= k <= s.len(),
        interval_scan(s.take(k)) is None,
    ensures
        interval_scan(s) is None,
    decreases s.len() - k,
{
    if k < s.len() {
        assert(s.take(k + 1) =~= s.take(k).push(s[k]));
        lemma_scan_push(s.take(k), s[k]);
        lemma_scan_none_extends(s, k + 1);
    } else {
        assert(s.take(k) =~= s);
    }
}

impl Interval {
    pub fn from_secs(secs: u64) -> (r: Self)
        ensures
            r@ == secs,
    {
        Interval(secs)
    }

    pub fn as_secs(self) -> (r: u64)
        ensures
            r == self@,
    {
        self.0
    }

    /// Parses `30s`, `10m`, `1h`, `2d`, `1h30m`, and a bare number as minutes.
    ///
    /// A bare number means minutes because every place a user types one of
    /// these, a heartbeat or a poll, minutes is the unit they meant.
    pub fn parse(input: &str) -> (r: Result<Self>)
        ensures
            match r {
                Ok(i) => spec_interval(input@) == Some(i@),
                Err(e) => spec_interval(input@) is None && e is Invalid,
            },
    {
        let text = keyword(input);
        if text.len() == 0 {
            return Err(DomainError::invalid("empty interval"));
        }
        if let Some(minutes) = parse_unsigned_chars(text.as_slice(), u64::MAX) {
            let secs = match minutes.checked_mul(60) {
                Some(s) => s,
                None => u64::MAX,
            };
            return Self::checked(secs);
        }
        let mut total: u64 = 0;
        let mut acc: u64 = 0;
        let mut over = false;
        let mut pending = false;
        let mut saw_unit = false;
        let ghost mut value: nat = 0;
        let mut i: usize = 0;
        assert(text@.take(0) =~= Seq::<char>::empty());
        while i < text.len()
            invariant
                i <= text.len(),
                text@ == lower(trim(input@)),
                text@.len() > 0,
                parse_unsigned(text@, u64::MAX as nat) is None,
                interval_scan(text@.take(i as int)) == Some(
                    (total as nat, value, pending, saw_unit),
                ),
                over <==> value > u64::MAX,
                !over ==> acc == value,
            decreases text.len() - i,
        {
            let c = text[i];
            proof {
                assert(text@.take(i + 1) =~= text@.take(i as int).push(c));
                lemma_scan_push(text@.take(i as int), c);
                if interval_scan(text@.take(i + 1)) is None {
                    lemma_scan_none_extends(text@, i + 1);
                }
            }
            if digit(c) {
                let d: u64 = ((c as u32) - 48) as u64;
                proof {
                    value = value * 10 + digit_value(c);
                }
                if !over {
                    let next: u128 = (acc as u128) * 10 + (d as u128);
                    if next > u64::MAX as u128 {
                        over = true;
                    } else {
                        acc = next as u64;
                    }
                }
                pending = true;
            } else if c == 's' || c == 'm' || c == 'h' || c == 'd' || c == 'w' {
                if !pending {
                    return Err(DomainError::Invalid(join3("interval '", input, "' has a unit with no number")));
                }
                if over {
                    return Err(DomainError::Invalid(join3("interval '", input, "' overflows")));
                }
                let scale: u64 = if c == 's' {
                    1
                } else if c == 'm' {
                    60
                } else if c == 'h' {
                    3600
                } else if c == 'd' {
                    86400
                } else {
                    604800
                };
                let scaled = match acc.checked_mul(scale) {
                    Some(s) => s,
                    None => u64::MAX,
                };
                total = total.saturating_add(scaled);
                acc = 0;
                proof {
                    value = 0;
                }
                pending = false;
                saw_unit = true;
            } else if c == ' ' {
            } else {
                let mut m = join3("interval '", input, "' contains '");
                push_char(&mut m, c);
                push_str(&mut m, "'; use forms like 30s, 10m, 1h30m");
                return Err(DomainError::Invalid(m));
            }
            i += 1;
        }
        assert(text@.take(text.len() as int) =~= text@);
        if pending || !saw_unit {
            return Err(DomainError::Invalid(join3("interval '", input, "' is incomplete; use forms like 30s, 10m, 1h30m")));
        }
        Self::checked(total)
    }

    /// Accepts a number of seconds when it lies between one second and one year.
    pub fn checked(secs: u64) -> (r: Result<Self>)
        ensures
            match r {
                Ok(i) => interval_in_range(secs as nat) && i@ == secs,
                Err(e) => !interval_in_range(secs as nat) && e is Invalid,
            },
    {
        if secs == 0 {
            return Err(DomainError::invalid("interval must be greater than zero"));
        }
        if secs > MAX_INTERVAL_SECS {
            return Err(DomainError::invalid("interval must be a year or less"));
        }
        Ok(Interval(secs))
    }

    /// The interval written back in its shortest form, `1h30m` for 5400 seconds.
    pub fn to_text(&self) -> (r: String)
        ensures
            r@ == interval_text(self@),
    {
        let n = self.0;
        let mut out = String::new();
        push_part(&mut out, n / 86400, 'd');
        push_part(&mut out, (n % 86400) / 3600, 'h');
        push_part(&mut out, (n % 3600) / 60, 'm');
        push_part(&mut out, n % 60, 's');
        assert(out@ =~= interval_text(self@));
        out
    }
}

fn push_part(out: &mut String, n: u64, unit: char)
    ensures
        final(out)@ == old(out)@ + interval_part(n as nat, unit),
{
    if n > 0 {
        let t = decimal_text(n);
        push_str(out, t.as_str());
        push_char(out, unit);
    } else {
        assert(old(out)@ + Seq::<char>::empty() =~= old(out)@);
    }
}

} // verus!

verus! {

/// Which names a cron field accepts besides numbers.
#[derive(Debug, Clone, Copy, PartialEq, Eq)]
pub enum FieldNames {
    Plain,
    Months,
    Weekdays,
}

/// The number a name stands for in a field: `jan` is 1, `sun` is 0.
pub open spec fn named_value(names: FieldNames, t: Seq<char>) -> Option<int> {
    match names {
        FieldNames::Plain => None,
        FieldNames::Months => if t == "jan"@ {
            Some(1)
        } else if t == "feb"@ {
            Some(2)
        } else if t == "mar"@ {
            Some(3)
        } else if t == "apr"@ {
            Some(4)
        } else if t == "may"@ {
            Some(5)
        } else if t == "jun"@ {
            Some(6)
        } else if t == "jul"@ {
            Some(7)
        } else if t == "aug"@ {
            Some(8)
        } else if t == "sep"@ {
            Some(9)
        } else if t == "oct"@ {
            Some(10)
        } else if t == "nov"@ {
            Some(11)
        } else if t == "dec"@ {
            Some(12)
        } else {
            None
        },
        FieldNames::Weekdays => if t == "sun"@ {
            Some(0)
        } else if t == "mon"@ {
            Some(1)
        } else if t == "tue"@ {
            Some(2)
        } else if t == "wed"@ {
            Some(3)
        } else if t == "thu"@ {
            Some(4)
        } else if t == "fri"@ {
            Some(5)
        } else if t == "sat"@ {
            Some(6)
        } else {
            None
        },
    }
}

/// The names of a table lie within the field's bounds.
pub open spec fn names_fit(names: FieldNames, min: int, max: int) -> bool {
    match names {
        FieldNames::Plain => true,
        FieldNames::Months => min <= 1 && 12 <= max,
        FieldNames::Weekdays => min <= 0 && 6 <= max,
    }
}

/// The value a token stands for: a name, or a number within `min..=max`,
/// with 7 also meaning Sunday in the day-of-week field.
pub open spec fn spec_resolve(token: Seq<char>, min: int, max: int, names: FieldNames) -> Option<
    int,
> {
    let t = lower(trim(token));
    match named_value(names, t) {
        Some(v) => Some(v),
        None => match parse_unsigned(t, 255) {
            Some(n) => {
                let v = if min == 0 && max == 6 && n == 7 {
                    0
                } else {
                    n as int
                };
                if v < min || v > max {
                    None
                } else {
                    Some(v)
                }
            },
            None => None,
        },
    }
}

/// The bounds a range text names, given the step it is taken with.
pub open spec fn range_bounds(r: Seq<char>, step: int, min: int, max: int, names: FieldNames) -> Option<
    (int, int, int),
> {
    let lohi: Option<(int, int)> = if r == seq!['*'] {
        Some((min, max))
    } else {
        match split_once(r, '-') {
            Some(ab) => match (spec_resolve(ab.0, min, max, names), spec_resolve(ab.1, min, max, names)) {
                (Some(x), Some(y)) => Some((x, y)),
                _ => None,
            },
            None => match spec_resolve(r, min, max, names) {
                Some(v) => if step > 1 {
                    Some((v, max))
                } else {
                    Some((v, v))
                },
                None => None,
            },
        }
    };
    match lohi {
        Some(b) => if b.0 > b.1 {
            None
        } else {
            Some((b.0, b.1, step))
        },
        None => None,
    }
}

/// The first value, last value and step a comma-separated part of a field names.
pub open spec fn part_bounds(part: Seq<char>, min: int, max: int, names: FieldNames) -> Option<
    (int, int, int),
> {
    let p = trim(part);
    if p.len() == 0 {
        None
    } else {
        match split_once(p, '/') {
            Some(rs) => match parse_unsigned(rs.1, 255) {
                Some(n) => if n == 0 {
                    None
                } else {
                    range_bounds(rs.0, n as int, min, max, names)
                },
                None => None,
            },
            None => range_bounds(p, 1, min, max, names),
        }
    }
}

/// `v` is one of `lo`, `lo + step`, ... up to `hi`.
pub open spec fn stepped(b: (int, int, int), v: int) -> bool {
    b.0 <= v <= b.1 && (v - b.0) % b.2 == 0
}

/// Every part of the field can be read.
pub open spec fn parts_ok(parts: Seq<Seq<char>>, min: int, max: int, names: FieldNames) -> bool {
    forall|i: int| 0 <= i < parts.len() ==> (#[trigger] part_bounds(parts[i], min, max, names)) is Some
}

/// `v` is allowed by one of the first `k` parts.
pub open spec fn allowed_by(parts: Seq<Seq<char>>, k: int, min: int, max: int, names: FieldNames, v: int) -> bool
    decreases k,
{
    if k <= 0 {
        false
    } else {
        allowed_by(parts, k - 1, min, max, names, v) || stepped(
            part_bounds(parts[k - 1], min, max, names)->0,
            v,
        )
    }
}

/// One bit per legal value, indexed from the field's minimum.
#[derive(Debug, Clone, Copy, PartialEq, Eq)]
pub struct FieldSet {
    bits: u64,
    min: u8,
    /// True when the field was written as `*`: cron's day-of-month and
    /// day-of-week rule depends on knowing this, not just on which bits are set.
    wildcard: bool,
}

pub open spec fn bit_on(bits: u64, j: int) -> bool {
    0 <= j < 64 && bits & (1u64 << (j as u64)) != 0
}

pub proof fn lemma_bit_set(bits: u64, k: u64, j: u64)
    requires
        k < 64,
        j < 64,
    ensures
        ((bits | (1u64 << k)) & (1u64 << j) != 0) == (j == k || bits & (1u64 << j) != 0),
{
    assert(((bits | (1u64 << k)) & (1u64 << j) != 0) == (j == k || bits & (1u64 << j) != 0))
        by (bit_vector)
        requires
            k < 64,
            j < 64,
    ;
}

/// Two words whose 64 bits agree are equal.
pub proof fn lemma_bits_determined(x: u64, y: u64)
    requires
        forall|k: u64| k < 64 ==> (x & (1u64 << k) != 0) == (y & (1u64 << k) != 0),
    ensures
        x == y,
{
    assert((x & (1u64 << 0u64) != 0) == (y & (1u64 << 0u64) != 0));
    assert((x & (1u64 << 1u64) != 0) == (y & (1u64 << 1u64) != 0));
    assert((x & (1u64 << 2u64) != 0) == (y & (1u64 << 2u64) != 0));
    assert((x & (1u64 << 3u64) != 0) == (y & (1u64 << 3u64) != 0));
    assert((x & (1u64 << 4u64) != 0) == (y & (1u64 << 4u64) != 0));
    assert((x & (1u64 << 5u64) != 0) == (y & (1u64 << 5u64) != 0));
    assert((x & (1u64 << 6u64) != 0) == (y & (1u64 << 6u64) != 0));
    assert((x & (1u64 << 7u64) != 0) == (y & (1u64 << 7u64) != 0));
    assert((x & (1u64 << 8u64) != 0) == (y & (1u64 << 8u64) != 0));
    assert((x & (1u64 << 9u64) != 0) == (y & (1u64 << 9u64) != 0));
    assert((x & (1u64 << 10u64) != 0) == (y & (1u64 << 10u64) != 0));
    assert((x & (1u64 << 11u64) != 0) == (y & (1u64 << 11u64) != 0));
    assert((x & (1u64 << 12u64) != 0) == (y & (1u64 << 12u64) != 0));
    assert((x & (1u64 << 13u64) != 0) == (y & (1u64 << 13u64) != 0));
    assert((x & (1u64 << 14u64) != 0) == (y & (1u64 << 14u64) != 0));
    assert((x & (1u64 << 15u64) != 0) == (y & (1u64 << 15u64) != 0));
    assert((x & (1u64 << 16u64) != 0) == (y & (1u64 << 16u64) != 0));
    assert((x & (1u64 << 17u64) != 0) == (y & (1u64 << 17u64) != 0));
    assert((x & (1u64 << 18u64) != 0) == (y & (1u64 << 18u64) != 0));
    assert((x & (1u64 << 19u64) != 0) == (y & (1u64 << 19u64) != 0));
    assert((x & (1u64 << 20u64) != 0) == (y & (1u64 << 20u64) != 0));
    assert((x & (1u64 << 21u64) != 0) == (y & (1u64 << 21u64) != 0));
    assert((x & (1u64 << 22u64) != 0) == (y & (1u64 << 22u64) != 0));
    assert((x & (1u64 << 23u64) != 0) == (y & (1u64 << 23u64) != 0));
    assert((x & (1u64 << 24u64) != 0) == (y & (1u64 << 24u64) != 0));
    assert((x & (1u64 << 25u64) != 0) == (y & (1u64 << 25u64) != 0));
    assert((x & (1u64 << 26u64) != 0) == (y & (1u64 << 26u64) != 0));
    assert((x & (1u64 << 27u64) != 0) == (y & (1u64 << 27u64) != 0));
    assert((x & (1u64 << 28u64) != 0) == (y & (1u64 << 28u64) != 0));
    assert((x & (1u64 << 29u64) != 0) == (y & (1u64 << 29u64) != 0));
    assert((x & (1u64 << 30u64) != 0) == (y & (1u64 << 30u64) != 0));
    assert((x & (1u64 << 31u64) != 0) == (y & (1u64 << 31u64) != 0));
    assert((x & (1u64 << 32u64) != 0) == (y & (1u64 << 32u64) != 0));
    assert((x & (1u64 << 33u64) != 0) == (y & (1u64 << 33u64) != 0));
    assert((x & (1u64 << 34u64) != 0) == (y & (1u64 << 34u64) != 0));
    assert((x & (1u64 << 35u64) != 0) == (y & (1u64 << 35u64) != 0));
    assert((x & (1u64 << 36u64) != 0) == (y & (1u64 << 36u64) != 0));
    assert((x & (1u64 << 37u64) != 0) == (y & (1u64 << 37u64) != 0));
    assert((x & (1u64 << 38u64) != 0) == (y & (1u64 << 38u64) != 0));
    assert((x & (1u64 << 39u64) != 0) == (y & (1u64 << 39u64) != 0));
    assert((x & (1u64 << 40u64) != 0) == (y & (1u64 << 40u64) != 0));
    assert((x & (1u64 << 41u64) != 0) == (y & (1u64 << 41u64) != 0));
    assert((x & (1u64 << 42u64) != 0) == (y & (1u64 << 42u64) != 0));
    assert((x & (1u64 << 43u64) != 0) == (y & (1u64 << 43u64) != 0));
    assert((x & (1u64 << 44u64) != 0) == (y & (1u64 << 44u64) != 0));
    assert((x & (1u64 << 45u64) != 0) == (y & (1u64 << 45u64) != 0));
    assert((x & (1u64 << 46u64) != 0) == (y & (1u64 << 46u64) != 0));
    assert((x & (1u64 << 47u64) != 0) == (y & (1u64 << 47u64) != 0));
    assert((x & (1u64 << 48u64) != 0) == (y & (1u64 << 48u64) != 0));
    assert((x & (1u64 << 49u64) != 0) == (y & (1u64 << 49u64) != 0));
    assert((x & (1u64 << 50u64) != 0) == (y & (1u64 << 50u64) != 0));
    assert((x & (1u64 << 51u64) != 0) == (y & (1u64 << 51u64) != 0));
    assert((x & (1u64 << 52u64) != 0) == (y & (1u64 << 52u64) != 0));
    assert((x & (1u64 << 53u64) != 0) == (y & (1u64 << 53u64) != 0));
    assert((x & (1u64 << 54u64) != 0) == (y & (1u64 << 54u64) != 0));
    assert((x & (1u64 << 55u64) != 0) == (y & (1u64 << 55u64) != 0));
    assert((x & (1u64 << 56u64) != 0) == (y & (1u64 << 56u64) != 0));
    assert((x & (1u64 << 57u64) != 0) == (y & (1u64 << 57u64) != 0));
    assert((x & (1u64 << 58u64) != 0) == (y & (1u64 << 58u64) != 0));
    assert((x & (1u64 << 59u64) != 0) == (y & (1u64 << 59u64) != 0));
    assert((x & (1u64 << 60u64) != 0) == (y & (1u64 << 60u64) != 0));
    assert((x & (1u64 << 61u64) != 0) == (y & (1u64 << 61u64) != 0));
    assert((x & (1u64 << 62u64) != 0) == (y & (1u64 << 62u64) != 0));
    assert((x & (1u64 << 63u64) != 0) == (y & (1u64 << 63u64) != 0));
    assert(x == y) by (bit_vector)
        requires
            (x & (1u64 << 0u64) != 0) == (y & (1u64 << 0u64) != 0),
            (x & (1u64 << 1u64) != 0) == (y & (1u64 << 1u64) != 0),
            (x & (1u64 << 2u64) != 0) == (y & (1u64 << 2u64) != 0),
            (x & (1u64 << 3u64) != 0) == (y & (1u64 << 3u64) != 0),
            (x & (1u64 << 4u64) != 0) == (y & (1u64 << 4u64) != 0),
            (x & (1u64 << 5u64) != 0) == (y & (1u64 << 5u64) != 0),
            (x & (1u64 << 6u64) != 0) == (y & (1u64 << 6u64) != 0),
            (x & (1u64 << 7u64) != 0) == (y & (1u64 << 7u64) != 0),
            (x & (1u64 << 8u64) != 0) == (y & (1u64 << 8u64) != 0),
            (x & (1u64 << 9u64) != 0) == (y & (1u64 << 9u64) != 0),
            (x & (1u64 << 10u64) != 0) == (y & (1u64 << 10u64) != 0),
            (x & (1u64 << 11u64) != 0) == (y & (1u64 << 11u64) != 0),
            (x & (1u64 << 12u64) != 0) == (y & (1u64 << 12u64) != 0),
            (x & (1u64 << 13u64) != 0) == (y & (1u64 << 13u64) != 0),
            (x & (1u64 << 14u64) != 0) == (y & (1u64 << 14u64) != 0),
            (x & (1u64 << 15u64) != 0) == (y & (1u64 << 15u64) != 0),
            (x & (1u64 << 16u64) != 0) == (y & (1u64 << 16u64) != 0),
            (x & (1u64 << 17u64) != 0) == (y & (1u64 << 17u64) != 0),
            (x & (1u64 << 18u64) != 0) == (y & (1u64 << 18u64) != 0),
            (x & (1u64 << 19u64) != 0) == (y & (1u64 << 19u64) != 0),
            (x & (1u64 << 20u64) != 0) == (y & (1u64 << 20u64) != 0),
            (x & (1u64 << 21u64) != 0) == (y & (1u64 << 21u64) != 0),
            (x & (1u64 << 22u64) != 0) == (y & (1u64 << 22u64) != 0),
            (x & (1u64 << 23u64) != 0) == (y & (1u64 << 23u64) != 0),
            (x & (1u64 << 24u64) != 0) == (y & (1u64 << 24u64) != 0),
            (x & (1u64 << 25u64) != 0) == (y & (1u64 << 25u64) != 0),
            (x & (1u64 << 26u64) != 0) == (y & (1u64 << 26u64) != 0),
            (x & (1u64 << 27u64) != 0) == (y & (1u64 << 27u64) != 0),
            (x & (1u64 << 28u64) != 0) == (y & (1u64 << 28u64) != 0),
            (x & (1u64 << 29u64) != 0) == (y & (1u64 << 29u64) != 0),
            (x & (1u64 << 30u64) != 0) == (y & (1u64 << 30u64) != 0),
            (x & (1u64 << 31u64) != 0) == (y & (1u64 << 31u64) != 0),
            (x & (1u64 << 32u64) != 0) == (y & (1u64 << 32u64) != 0),
            (x & (1u64 << 33u64) != 0) == (y & (1u64 << 33u64) != 0),
            (x & (1u64 << 34u64) != 0) == (y & (1u64 << 34u64) != 0),
            (x & (1u64 << 35u64) != 0) == (y & (1u64 << 35u64) != 0),
            (x & (1u64 << 36u64) != 0) == (y & (1u64 << 36u64) != 0),
            (x & (1u64 << 37u64) != 0) == (y & (1u64 << 37u64) != 0),
            (x & (1u64 << 38u64) != 0) == (y & (1u64 << 38u64) != 0),
            (x & (1u64 << 39u64) != 0) == (y & (1u64 << 39u64) != 0),
            (x & (1u64 << 40u64) != 0) == (y & (1u64 << 40u64) != 0),
            (x & (1u64 << 41u64) != 0) == (y & (1u64 << 41u64) != 0),
            (x & (1u64 << 42u64) != 0) == (y & (1u64 << 42u64) != 0),
            (x & (1u64 << 43u64) != 0) == (y & (1u64 << 43u64) != 0),
            (x & (1u64 << 44u64) != 0) == (y & (1u64 << 44u64) != 0),
            (x & (1u64 << 45u64) != 0) == (y & (1u64 << 45u64) != 0),
            (x & (1u64 << 46u64) != 0) == (y & (1u64 << 46u64) != 0),
            (x & (1u64 << 47u64) != 0) == (y & (1u64 << 47u64) != 0),
            (x & (1u64 << 48u64) != 0) == (y & (1u64 << 48u64) != 0),
            (x & (1u64 << 49u64) != 0) == (y & (1u64 << 49u64) != 0),
            (x & (1u64 << 50u64) != 0) == (y & (1u64 << 50u64) != 0),
            (x & (1u64 << 51u64) != 0) == (y & (1u64 << 51u64) != 0),
            (x & (1u64 << 52u64) != 0) == (y & (1u64 << 52u64) != 0),
            (x & (1u64 << 53u64) != 0) == (y & (1u64 << 53u64) != 0),
            (x & (1u64 << 54u64) != 0) == (y & (1u64 << 54u64) != 0),
            (x & (1u64 << 55u64) != 0) == (y & (1u64 << 55u64) != 0),
            (x & (1u64 << 56u64) != 0) == (y & (1u64 << 56u64) != 0),
            (x & (1u64 << 57u64) != 0) == (y & (1u64 << 57u64) != 0),
            (x & (1u64 << 58u64) != 0) == (y & (1u64 << 58u64) != 0),
            (x & (1u64 << 59u64) != 0) == (y & (1u64 << 59u64) != 0),
            (x & (1u64 << 60u64) != 0) == (y & (1u64 << 60u64) != 0),
            (x & (1u64 << 61u64) != 0) == (y & (1u64 << 61u64) != 0),
            (x & (1u64 << 62u64) != 0) == (y & (1u64 << 62u64) != 0),
            (x & (1u64 << 63u64) != 0) == (y & (1u64 << 63u64) != 0),
    ;
}

pub proof fn lemma_no_bits(j: u64)
    requires
        j < 64,
    ensures
        0u64 & (1u64 << j) == 0,
{
    assert(0u64 & (1u64 << j) == 0) by (bit_vector);
}

pub proof fn lemma_step_gap(lo: int, step: int, value: int, v: int)
    requires
        step > 0,
        lo <= value,
        (value - lo) % step == 0,
        value < v < value + step,
    ensures
        (v - lo) % step != 0,
{
    assert((v - lo) % step != 0) by (nonlinear_arith)
        requires
            step > 0,
            lo <= value,
            (value - lo) % step == 0,
            value < v < value + step,
    ;
}

pub proof fn lemma_step_multiple(lo: int, step: int, value: int)
    requires
        step > 0,
        lo < value,
        (value - lo) % step == 0,
    ensures
        value - lo >= step,
        (value - step - lo) % step == 0,
{
    assert(value - lo >= step) by (nonlinear_arith)
        requires
            step > 0,
            lo < value,
            (value - lo) % step == 0,
    ;
    assert((value - step - lo) % step == 0) by (nonlinear_arith)
        requires
            step > 0,
            lo < value,
            (value - lo) % step == 0,
    ;
}

pub proof fn lemma_step_next(lo: int, step: int, value: int)
    requires
        step > 0,
        lo <= value,
        (value - lo) % step == 0,
    ensures
        (value + step - lo) % step == 0,
{
    assert((value + step - lo) % step == 0) by (nonlinear_arith)
        requires
            step > 0,
            lo <= value,
            (value - lo) % step == 0,
    ;
}

impl FieldSet {
    /// The field allows value `v`.
    pub closed spec fn has(self, v: int) -> bool {
        v >= self.min && bit_on(self.bits, v - self.min)
    }

    pub closed spec fn spec_min(self) -> int {
        self.min as int
    }

    pub closed spec fn spec_wildcard(self) -> bool {
        self.wildcard
    }

    /// A field is determined by what it allows, where its values start and
    /// whether it was written as `*`.
    pub proof fn lemma_determined(a: FieldSet, b: FieldSet)
        requires
            a.spec_min() == b.spec_min(),
            a.spec_wildcard() == b.spec_wildcard(),
            forall|v: int| #![trigger a.has(v)] #![trigger b.has(v)] a.has(v) == b.has(v),
        ensures
            a == b,
    {
        let x = a.bits;
        let y = b.bits;
        assert forall|j: int| 0 <= j < 64 implies bit_on(x, j) == bit_on(y, j) by {
            assert(a.has(a.min + j) == b.has(a.min + j));
        }
        assert(x == y) by {
            assert forall|k: u64| k < 64 implies (x & (1u64 << k) != 0) == (y & (1u64 << k) != 0) by {
                assert(bit_on(x, k as int) == bit_on(y, k as int));
            }
            lemma_bits_determined(x, y);
        }
    }

    /// Is `value` one of the field's values?
    pub fn contains(&self, value: u8) -> (r: bool)
        ensures
            r == self.has(value as int),
    {
        if value < self.min {
            return false;
        }
        let offset = value - self.min;
        offset < 64 && self.bits & (1u64 << offset) != 0
    }

    /// Reads one cron field whose values run from `min` to `max`.
    pub fn parse(field: &str, min: u8, max: u8, names: FieldNames) -> (r: Result<Self>)
        requires
            min <= max,
            max - min < 64,
            names_fit(names, min as int, max as int),
        ensures
            match r {
                Ok(fs) => {
                    &&& parts_ok(split_on(field@, ','), min as int, max as int, names)
                    &&& fs.spec_min() == min
                    &&& fs.spec_wildcard() == (field@ == seq!['*'])
                    &&& forall|v: int|
                        #![trigger fs.has(v)]
                        fs.has(v) == allowed_by(
                            split_on(field@, ','),
                            split_on(field@, ',').len() as int,
                            min as int,
                            max as int,
                            names,
                            v,
                        )
                },
                Err(e) => !parts_ok(split_on(field@, ','), min as int, max as int, names)
                    && e is Invalid,
            },
    {
        let chars = chars_of(field);
        let wildcard = is_text(chars.as_slice(), "*");
        proof {
            reveal_strlit("*");
            assert("*"@ =~= seq!['*']);
        }
        let parts = split_in(chars.as_slice(), ',');
        let ghost ps = split_on(field@, ',');
        let mut bits: u64 = 0;
        let mut k: usize = 0;
        proof {
            assert forall|v: int| #![trigger bit_on(bits, v - min)] min <= v < min + 64 implies !bit_on(bits, v - min) by {
                lemma_no_bits((v - min) as u64);
            }
        }
        while k < parts.len()
            invariant
                views(parts@) == ps,
                ps == split_on(field@, ','),
                k <= parts.len(),
                min <= max,
                max - min < 64,
                names_fit(names, min as int, max as int),
                forall|i: int| 0 <= i < k ==> (#[trigger] part_bounds(ps[i], min as int, max as int, names)) is Some,
                forall|i: int|
                    #![trigger part_bounds(ps[i], min as int, max as int, names)]
                    0 <= i < k ==> {
                        let b = part_bounds(ps[i], min as int, max as int, names)->0;
                        min <= b.0 && b.1 <= max && b.2 > 0
                    },
                forall|v: int|
                    #![trigger bit_on(bits, v - min)]
                    min <= v < min + 64 ==> (bit_on(bits, v - min) == allowed_by(
                        ps,
                        k as int,
                        min as int,
                        max as int,
                        names,
                        v,
                    )),
            decreases parts.len() - k,
        {
            assert(parts@[k as int]@ == ps[k as int]);
            let b = match part_range(parts[k].as_slice(), min, max, names) {
                Ok(b) => b,
                Err(e) => {
                    assert(!parts_ok(ps, min as int, max as int, names));
                    return Err(e);
                },
            };
            let (lo, hi, step) = b;
            let ghost before = bits;
            let mut value: u32 = lo as u32;
            while value <= hi as u32
                invariant
                    min <= lo <= hi <= max,
                    max - min < 64,
                    step > 0,
                    lo <= value <= hi as int + step as int,
                    (value - lo) % (step as int) == 0,
                    forall|v: int|
                        #![trigger bit_on(bits, v - min)]
                        min <= v < min + 64 ==> (bit_on(bits, v - min) == (bit_on(before, v - min)
                            || (lo <= v < value && (v - lo) % (step as int) == 0))),
                decreases hi as int + step as int - value,
            {
                let shift: u64 = (value - min as u32) as u64;
                proof {
                    assert forall|v: int| #![trigger bit_on(bits | (1u64 << shift), v - min)] min <= v < min + 64 implies bit_on(
                        bits | (1u64 << shift),
                        v - min,
                    ) == (bit_on(before, v - min) || (lo <= v < value + step && (v - lo) % (
                    step as int) == 0)) by {
                        lemma_bit_set(bits, shift, (v - min) as u64);
                        assert(bit_on(bits, v - min) == (bit_on(before, v - min) || (lo <= v < value
                            && (v - lo) % (step as int) == 0)));
                        if v == value {
                            assert((v - min) as u64 == shift);
                        } else {
                            assert((v - min) as u64 != shift);
                            if value < v < value + step {
                                lemma_step_gap(lo as int, step as int, value as int, v);
                            }
                        }
                    }
                    lemma_step_next(lo as int, step as int, value as int);
                }
                bits = bits | (1u64 << shift);
                value = value + step as u32;
            }
            proof {
                assert forall|v: int| #![trigger bit_on(bits, v - min)] min <= v < min + 64 implies (lo <= v < value && (v - lo) % (
                step as int) == 0) == stepped((lo as int, hi as int, step as int), v) by {
                    if hi < v < value && (v - lo) % (step as int) == 0 {
                        lemma_step_multiple(lo as int, step as int, value as int);
                        lemma_step_gap(lo as int, step as int, value - step, v);
                        lemma_step_next(lo as int, step as int, value - step);
                    }
                }
            }
            k += 1;
        }
        proof {
            lemma_split_on_nonempty(field@, ',');
            assert(parts_ok(ps, min as int, max as int, names));
        }
        if bits == 0 {
            proof {
                let b = part_bounds(ps[0], min as int, max as int, names)->0;
                assert(allowed_by(ps, 1, min as int, max as int, names, b.0));
                lemma_allowed_grows(ps, 1, ps.len() as int, min as int, max as int, names, b.0);
                lemma_no_bits((b.0 - min) as u64);
                assert(bit_on(bits, b.0 - min));
            }
            return Err(DomainError::invalid("cron field matches nothing"));
        }
        let fs = FieldSet { bits, min, wildcard };
        proof {
            assert forall|v: int| #![trigger fs.has(v)] fs.has(v) == allowed_by(
                ps,
                ps.len() as int,
                min as int,
                max as int,
                names,
                v,
            ) by {
                if allowed_by(ps, ps.len() as int, min as int, max as int, names, v) {
                    lemma_allowed_in_bounds(ps, ps.len() as int, min as int, max as int, names, v);
                }
            }
        }
        Ok(fs)
    }
}

pub proof fn lemma_allowed_grows(
    ps: Seq<Seq<char>>,
    k: int,
    n: int,
    min: int,
    max: int,
    names: FieldNames,
    v: int,
)
    requires
        0 <= k <= n,
        allowed_by(ps, k, min, max, names, v),
    ensures
        allowed_by(ps, n, min, max, names, v),
    decreases n - k,
{
    if k < n {
        lemma_allowed_grows(ps, k, n - 1, min, max, names, v);
    }
}

pub proof fn lemma_allowed_in_bounds(
    ps: Seq<Seq<char>>,
    k: int,
    min: int,
    max: int,
    names: FieldNames,
    v: int,
)
    requires
        0 <= k <= ps.len(),
        forall|i: int|
            #![trigger part_bounds(ps[i], min, max, names)]
            0 <= i < k ==> {
                let b = part_bounds(ps[i], min, max, names)->0;
                min <= b.0 && b.1 <= max && b.2 > 0
            },
        allowed_by(ps, k, min, max, names, v),
    ensures
        min <= v <= max,
    decreases k,
{
    if k > 0 {
        if allowed_by(ps, k - 1, min, max, names, v) {
            lemma_allowed_in_bounds(ps, k - 1, min, max, names, v);
        } else {
            let b = part_bounds(ps[k - 1], min, max, names)->0;
            assert(min <= b.0 && b.1 <= max);
        }
    }
}

/// The number a name stands for in a field.
pub fn named(names: FieldNames, t: &[char]) -> (r: Option<u8>)
    ensures
        r matches Some(v) ==> named_value(names, t@) == Some(v as int),
        r is None ==> named_value(names, t@) is None,
{
    match names {
        FieldNames::Plain => None,
        FieldNames::Months => {
            if is_text(t, "jan") {
                Some(1)
            } else if is_text(t, "feb") {
                Some(2)
            } else if is_text(t, "mar") {
                Some(3)
            } else if is_text(t, "apr") {
                Some(4)
            } else if is_text(t, "may") {
                Some(5)
            } else if is_text(t, "jun") {
                Some(6)
            } else if is_text(t, "jul") {
                Some(7)
            } else if is_text(t, "aug") {
                Some(8)
            } else if is_text(t, "sep") {
                Some(9)
            } else if is_text(t, "oct") {
                Some(10)
            } else if is_text(t, "nov") {
                Some(11)
            } else if is_text(t, "dec") {
                Some(12)
            } else {
                None
            }
        },
        FieldNames::Weekdays => {
            if is_text(t, "sun") {
                Some(0)
            } else if is_text(t, "mon") {
                Some(1)
            } else if is_text(t, "tue") {
                Some(2)
            } else if is_text(t, "wed") {
                Some(3)
            } else if is_text(t, "thu") {
                Some(4)
            } else if is_text(t, "fri") {
                Some(5)
            } else if is_text(t, "sat") {
                Some(6)
            } else {
                None
            }
        },
    }
}

/// The value a token stands for in a field running from `min` to `max`.
pub fn resolve(token: &[char], min: u8, max: u8, names: FieldNames) -> (r: Result<u8>)
    requires
        names_fit(names, min as int, max as int),
        min <= max,
    ensures
        match r {
            Ok(v) => spec_resolve(token@, min as int, max as int, names) == Some(v as int) && min
                <= v <= max,
            Err(e) => spec_resolve(token@, min as int, max as int, names) is None && e is Invalid,
        },
{
    let (lo, hi) = trim_bounds(token);
    let t = slice_chars(token, lo, hi);
    let lower = lowered(t.as_slice());
    if let Some(v) = named(names, lower.as_slice()) {
        proof {
            reveal_strlit("jan");
            reveal_strlit("feb");
            reveal_strlit("mar");
            reveal_strlit("apr");
            reveal_strlit("may");
            reveal_strlit("jun");
            reveal_strlit("jul");
            reveal_strlit("aug");
            reveal_strlit("sep");
            reveal_strlit("oct");
            reveal_strlit("nov");
            reveal_strlit("dec");
            reveal_strlit("sun");
            reveal_strlit("mon");
            reveal_strlit("tue");
            reveal_strlit("wed");
            reveal_strlit("thu");
            reveal_strlit("fri");
            reveal_strlit("sat");
        }
        return Ok(v);
    }
    let n = match parse_unsigned_chars(lower.as_slice(), 255) {
        Some(n) => n as u8,
        None => {
            let mut m = owned("cron value '");
            push_chars(&mut m, token);
            push_str(&mut m, "' is not a number");
            return Err(DomainError::Invalid(m));
        },
    };
    let v = if min == 0 && max == 6 && n == 7 {
        0
    } else {
        n
    };
    if v < min || v > max {
        let mut m = owned("cron value '");
        push_chars(&mut m, token);
        push_str(&mut m, "' is outside ");
        let a = decimal_text(min as u64);
        push_str(&mut m, a.as_str());
        push_str(&mut m, "-");
        let b = decimal_text(max as u64);
        push_str(&mut m, b.as_str());
        return Err(DomainError::Invalid(m));
    }
    Ok(v)
}

fn range_of(r: &[char], step: u8, min: u8, max: u8, names: FieldNames) -> (res: Result<(u8, u8, u8)>)
    requires
        names_fit(names, min as int, max as int),
        min <= max,
        step > 0,
    ensures
        match res {
            Ok(b) => range_bounds(r@, step as int, min as int, max as int, names) == Some(
                (b.0 as int, b.1 as int, b.2 as int),
            ) && min <= b.0 <= b.1 <= max && b.2 == step,
            Err(e) => range_bounds(r@, step as int, min as int, max as int, names) is None
                && e is Invalid,
        },
{
    let star = is_text(r, "*");
    proof {
        reveal_strlit("*");
        assert("*"@ =~= seq!['*']);
    }
    let (lo, hi) = if star {
        (min, max)
    } else {
        assert(r@ != seq!['*']);
        match split_once_in(r, '-') {
            Some((left, right)) => {
                let x = match resolve(left.as_slice(), min, max, names) {
                    Ok(x) => x,
                    Err(e) => {
                        assert(split_once(r@, '-') == Some((left@, right@)));
                        assert(spec_resolve(left@, min as int, max as int, names) is None);
                        assert(range_bounds(r@, step as int, min as int, max as int, names) is None);
                        return Err(e);
                    },
                };
                let y = match resolve(right.as_slice(), min, max, names) {
                    Ok(y) => y,
                    Err(e) => return Err(e),
                };
                (x, y)
            },
            None => {
                let v = match resolve(r, min, max, names) {
                    Ok(v) => v,
                    Err(e) => return Err(e),
                };
                if step > 1 {
                    (v, max)
                } else {
                    (v, v)
                }
            },
        }
    };
    if lo > hi {
        let mut m = owned("cron range '");
        push_chars(&mut m, r);
        push_str(&mut m, "' runs backwards");
        return Err(DomainError::Invalid(m));
    }
    Ok((lo, hi, step))
}

/// The first value, last value and step of one comma-separated part of a field.
fn part_range(part: &[char], min: u8, max: u8, names: FieldNames) -> (res: Result<(u8, u8, u8)>)
    requires
        names_fit(names, min as int, max as int),
        min <= max,
    ensures
        match res {
            Ok(b) => part_bounds(part@, min as int, max as int, names) == Some(
                (b.0 as int, b.1 as int, b.2 as int),
            ) && min <= b.0 <= b.1 <= max && b.2 > 0,
            Err(e) => part_bounds(part@, min as int, max as int, names) is None && e is Invalid,
        },
{
    let (lo, hi) = trim_bounds(part);
    let p = slice_chars(part, lo, hi);
    if p.len() == 0 {
        return Err(DomainError::invalid("cron field has an empty list entry"));
    }
    match split_once_in(p.as_slice(), '/') {
        Some((range, step_text)) => {
            let step = match parse_unsigned_chars(step_text.as_slice(), 255) {
                Some(n) => n as u8,
                None => {
                    let mut m = owned("cron step '");
                    push_chars(&mut m, step_text.as_slice());
                    push_str(&mut m, "' is not a number");
                    return Err(DomainError::Invalid(m));
                },
            };
            if step == 0 {
                return Err(DomainError::invalid("cron step must be greater than zero"));
            }
            range_of(range.as_slice(), step, min, max, names)
        },
        None => range_of(p.as_slice(), 1, min, max, names),
    }
}

} // verus!

verus! {

pub proof fn lemma_same_day(cursor: int, day: int, u: int)
    requires
        day == cursor / 86_400,
        cursor <= u < (day + 1) * 86_400,
    ensures
        u / 86_400 == day,
{
    assert(u / 86_400 == day) by (nonlinear_arith)
        requires
            day == cursor / 86_400,
            cursor <= u < (day + 1) * 86_400,
    ;
}

pub proof fn lemma_next_day(cursor: int, day: int)
    requires
        day == cursor / 86_400,
    ensures
        ((day + 1) * 86_400) % 60 == 0,
        cursor < (day + 1) * 86_400 <= cursor + 86_400,
{
    assert(((day + 1) * 86_400) % 60 == 0) by (nonlinear_arith);
    assert(cursor < (day + 1) * 86_400 <= cursor + 86_400) by (nonlinear_arith)
        requires
            day == cursor / 86_400,
    ;
}

pub proof fn lemma_same_minute(cursor: int, u: int)
    requires
        cursor % 60 == 0,
        u % 60 == 0,
        cursor <= u < cursor + 60,
    ensures
        u == cursor,
{
    assert(u == cursor) by (nonlinear_arith)
        requires
            cursor % 60 == 0,
            u % 60 == 0,
            cursor <= u < cursor + 60,
    ;
}

/// A day whose date does not fit holds no firing: the search may go on from
/// the next day's first minute.
proof fn lemma_skip_day(c: CronExpr, after: int, cursor: int)
    requires
        cursor % 60 == 0,
        after < cursor,
        !c.date_fits(cursor / 86_400),
        forall|u: int| #![trigger c.fires_at(u)] u % 60 == 0 && after < u < cursor ==> !c.fires_at(u),
    ensures
        ((cursor / 86_400 + 1) * 86_400) % 60 == 0,
        cursor < (cursor / 86_400 + 1) * 86_400 <= cursor + 86_400,
        forall|u: int|
            #![trigger c.fires_at(u)]
            u % 60 == 0 && after < u < (cursor / 86_400 + 1) * 86_400 ==> !c.fires_at(u),
{
    let day = cursor / 86_400;
    lemma_next_day(cursor, day);
    assert forall|u: int|
        #![trigger c.fires_at(u)]
        u % 60 == 0 && after < u < (day + 1) * 86_400 implies !c.fires_at(u) by {
        if u >= cursor {
            lemma_same_day(cursor, day, u);
        }
    }
}

/// A minute at which the expression does not fire may be passed over.
proof fn lemma_skip_minute(c: CronExpr, after: int, cursor: int)
    requires
        cursor % 60 == 0,
        !c.fires_at(cursor),
        forall|u: int| #![trigger c.fires_at(u)] u % 60 == 0 && after < u < cursor ==> !c.fires_at(u),
    ensures
        forall|u: int| #![trigger c.fires_at(u)] u % 60 == 0 && after < u < cursor + 60 ==> !c.fires_at(u),
{
    assert forall|u: int|
        #![trigger c.fires_at(u)]
        u % 60 == 0 && after < u < cursor + 60 implies !c.fires_at(u) by {
        if u >= cursor {
            lemma_same_minute(cursor, u);
        }
    }
}

/// The field was read from `text` with bounds `min..=max`.
pub open spec fn field_reads(fs: FieldSet, text: Seq<char>, min: int, max: int, names: FieldNames) -> bool {
    &&& parts_ok(split_on(text, ','), min, max, names)
    &&& fs.spec_min() == min
    &&& fs.spec_wildcard() == (text == seq!['*'])
    &&& forall|v: int|
        #![trigger fs.has(v)]
        fs.has(v) == allowed_by(
            split_on(text, ','),
            split_on(text, ',').len() as int,
            min,
            max,
            names,
            v,
        )
}

/// A field text reads as one field only.
pub proof fn lemma_field_reads_unique(
    a: FieldSet,
    b: FieldSet,
    text: Seq<char>,
    min: int,
    max: int,
    names: FieldNames,
)
    requires
        field_reads(a, text, min, max, names),
        field_reads(b, text, min, max, names),
    ensures
        a == b,
{
    assert forall|v: int| #![trigger a.has(v)] #![trigger b.has(v)] a.has(v) == b.has(v) by {
        assert(a.has(v) == allowed_by(split_on(text, ','), split_on(text, ',').len() as int, min, max, names, v));
        assert(b.has(v) == allowed_by(split_on(text, ','), split_on(text, ',').len() as int, min, max, names, v));
    }
    FieldSet::lemma_determined(a, b);
}

/// The five fields of a cron text can all be read.
pub open spec fn cron_text_ok(source: Seq<char>) -> bool {
    let w = words(source);
    &&& w.len() == 5
    &&& parts_ok(split_on(w[0], ','), 0, 59, FieldNames::Plain)
    &&& parts_ok(split_on(w[1], ','), 0, 23, FieldNames::Plain)
    &&& parts_ok(split_on(w[2], ','), 1, 31, FieldNames::Plain)
    &&& parts_ok(split_on(w[3], ','), 1, 12, FieldNames::Months)
    &&& parts_ok(split_on(w[4], ','), 0, 6, FieldNames::Weekdays)
}

/// The latest instant a search for the next firing looks at: a year and a day on.
pub open spec fn horizon(after: int) -> int {
    after + 366 * 86_400
}

/// A five-field cron expression: minute, hour, day-of-month, month, day-of-week.
#[derive(Debug, Clone, PartialEq, Eq)]
pub struct CronExpr {
    source: String,
    minute: FieldSet,
    hour: FieldSet,
    day_of_month: FieldSet,
    month: FieldSet,
    day_of_week: FieldSet,
}

impl CronExpr {
    pub closed spec fn spec_source(self) -> Seq<char> {
        self.source@
    }

    pub closed spec fn minute_field(self) -> FieldSet {
        self.minute
    }

    pub closed spec fn hour_field(self) -> FieldSet {
        self.hour
    }

    pub closed spec fn day_of_month_field(self) -> FieldSet {
        self.day_of_month
    }

    pub closed spec fn month_field(self) -> FieldSet {
        self.month
    }

    pub closed spec fn day_of_week_field(self) -> FieldSet {
        self.day_of_week
    }

    /// Cron's day rule: when both day fields are restricted either may match;
    /// when one is `*` the other decides.
    pub open spec fn day_rule(self, dom: int, dow: int) -> bool {
        let d = self.day_of_month_field();
        let w = self.day_of_week_field();
        if d.spec_wildcard() && w.spec_wildcard() {
            true
        } else if w.spec_wildcard() {
            d.has(dom)
        } else if d.spec_wildcard() {
            w.has(dow)
        } else {
            d.has(dom) || w.has(dow)
        }
    }

    /// The month and day rule allow the `day`-th day after 1970-01-01.
    pub open spec fn date_fits(self, day: int) -> bool {
        let c = calendar_day(day);
        self.month_field().has(c.0 as int) && self.day_rule(c.1 as int, c.2 as int)
    }

    /// The expression fires during the minute containing `t`.
    pub open spec fn fires_at(self, t: int) -> bool {
        &&& self.minute_field().has(minute_of(t))
        &&& self.hour_field().has(hour_of(t))
        &&& self.date_fits(day_index(t))
    }

    /// `t` is the first minute after `after`, within a year and a day, at which the expression fires.
    pub open spec fn first_firing(self, after: int, t: int) -> bool {
        &&& t % 60 == 0
        &&& after < t <= horizon(after)
        &&& self.fires_at(t)
        &&& forall|u: int| #![trigger self.fires_at(u)] u % 60 == 0 && after < u < t ==> !self.fires_at(u)
    }

    /// The expression does not fire in any minute of the year and a day after `after`.
    pub open spec fn silent_after(self, after: int) -> bool {
        forall|u: int| #![trigger self.fires_at(u)] u % 60 == 0 && after < u <= horizon(after) ==> !self.fires_at(u)
    }

    /// The expression is what `parse` reads from `source`: the source's
    /// words joined by single spaces, and each field as its word says.
    pub open spec fn read_from(self, source: Seq<char>) -> bool {
        let w = words(source);
        &&& cron_text_ok(source)
        &&& self.spec_source() == join_spaced(w)
        &&& field_reads(self.minute_field(), w[0], 0, 59, FieldNames::Plain)
        &&& field_reads(self.hour_field(), w[1], 0, 23, FieldNames::Plain)
        &&& field_reads(self.day_of_month_field(), w[2], 1, 31, FieldNames::Plain)
        &&& field_reads(self.month_field(), w[3], 1, 12, FieldNames::Months)
        &&& field_reads(self.day_of_week_field(), w[4], 0, 6, FieldNames::Weekdays)
    }

    /// The two expressions agree in every part: the same source text and the
    /// same five fields.
    pub open spec fn same_as(self, other: CronExpr) -> bool {
        &&& self.spec_source() == other.spec_source()
        &&& self.minute_field() == other.minute_field()
        &&& self.hour_field() == other.hour_field()
        &&& self.day_of_month_field() == other.day_of_month_field()
        &&& self.month_field() == other.month_field()
        &&& self.day_of_week_field() == other.day_of_week_field()
    }

    /// The source of a parsed expression reads back as the same expression:
    /// the normalised text is accepted, and whatever reads from it agrees with
    /// the expression in every part.
    pub proof fn lemma_source_reads_back(c: CronExpr, source: Seq<char>, d: CronExpr)
        requires
            c.read_from(source),
        ensures
            cron_text_ok(c.spec_source()),
            words(c.spec_source()) == words(source),
            d.read_from(c.spec_source()) ==> d.same_as(c),
    {
        let w = words(source);
        lemma_words_plain(source);
        lemma_words_of_joined(w);
        if d.read_from(c.spec_source()) {
            lemma_field_reads_unique(d.minute_field(), c.minute_field(), w[0], 0, 59, FieldNames::Plain);
            lemma_field_reads_unique(d.hour_field(), c.hour_field(), w[1], 0, 23, FieldNames::Plain);
            lemma_field_reads_unique(
                d.day_of_month_field(),
                c.day_of_month_field(),
                w[2],
                1,
                31,
                FieldNames::Plain,
            );
            lemma_field_reads_unique(d.month_field(), c.month_field(), w[3], 1, 12, FieldNames::Months);
            lemma_field_reads_unique(
                d.day_of_week_field(),
                c.day_of_week_field(),
                w[4],
                0,
                6,
                FieldNames::Weekdays,
            );
        }
    }

    pub fn parse(source: &str) -> (r: Result<Self>)
        ensures
            match r {
                Ok(c) => c.read_from(source@),
                Err(e) => !cron_text_ok(source@) && e is Invalid,
            },
    {
        let chars = chars_of(source);
        let fields = words_in(chars.as_slice());
        if fields.len() != 5 {
            let mut m = owned(
                "cron needs 5 fields (minute hour day month weekday), got ",
            );
            let n = decimal_text(fields.len() as u64);
            push_str(&mut m, n.as_str());
            return Err(DomainError::Invalid(m));
        }
        assert(views(fields@)[0] == fields@[0]@);
        assert(views(fields@)[1] == fields@[1]@);
        assert(views(fields@)[2] == fields@[2]@);
        assert(views(fields@)[3] == fields@[3]@);
        assert(views(fields@)[4] == fields@[4]@);
        let joined = join_with_spaces(&fields);
        let f0 = string_of(fields[0].as_slice());
        let f1 = string_of(fields[1].as_slice());
        let f2 = string_of(fields[2].as_slice());
        let f3 = string_of(fields[3].as_slice());
        let f4 = string_of(fields[4].as_slice());
        let minute = FieldSet::parse(f0.as_str(), 0, 59, FieldNames::Plain)?;
        let hour = FieldSet::parse(f1.as_str(), 0, 23, FieldNames::Plain)?;
        let day_of_month = FieldSet::parse(f2.as_str(), 1, 31, FieldNames::Plain)?;
        let month = FieldSet::parse(f3.as_str(), 1, 12, FieldNames::Months)?;
        let day_of_week = FieldSet::parse(f4.as_str(), 0, 6, FieldNames::Weekdays)?;
        Ok(CronExpr { source: joined, minute, hour, day_of_month, month, day_of_week })
    }

    pub fn source(&self) -> (r: &str)
        ensures
            r@ == self.spec_source(),
    {
        self.source.as_str()
    }

    /// The text of the expression, fields separated by single spaces.
    pub fn to_text(&self) -> (r: String)
        ensures
            r@ == self.spec_source(),
    {
        self.source.clone()
    }

    fn day_rule_holds(&self, dom: u8, dow: u8) -> (r: bool)
        ensures
            r == self.day_rule(dom as int, dow as int),
    {
        let dom_hit = self.day_of_month.contains(dom);
        let dow_hit = self.day_of_week.contains(dow);
        match (self.day_of_month.wildcard, self.day_of_week.wildcard) {
            (true, true) => true,
            (false, true) => dom_hit,
            (true, false) => dow_hit,
            (false, false) => dom_hit || dow_hit,
        }
    }

    /// Does this expression fire during the minute containing `at`?
    pub fn matches(&self, at: i64) -> (r: bool)
        requires
            within_reach(at as int),
        ensures
            r == self.fires_at(at as int),
    {
        let minute = minute_in_hour(at);
        let hour = hour_in_day(at);
        if !self.minute.contains(minute as u8) || !self.hour.contains(hour as u8) {
            return false;
        }
        self.date_could_match(at)
    }

    /// Could the expression fire at some minute of the day containing `at`?
    pub fn date_could_match(&self, at: i64) -> (r: bool)
        requires
            within_reach(at as int),
        ensures
            r == self.date_fits(day_index(at as int)),
    {
        let (month, dom, dow) = calendar_of_day(day_of(at));
        if !self.month.contains(month) {
            return false;
        }
        self.day_rule_holds(dom, dow)
    }

    /// The first firing strictly after `after`, or `None` if the expression
    /// cannot fire within a year (`0 0 30 2 *`, February the 30th).
    #[verifier::spinoff_prover]
    #[verifier::rlimit(40)]
    pub fn next_after(&self, after: i64) -> (r: Option<i64>)
        requires
            in_calendar(after as int),
        ensures
            r matches Some(t) ==> self.first_firing(after as int, t as int),
            r is None ==> self.silent_after(after as int),
    {
        let mut cursor = floor_minute(after) + 60;
        let horizon_at = after + 366 * 86_400;
        while cursor <= horizon_at
            invariant
                in_calendar(after as int),
                horizon_at == horizon(after as int),
                cursor % 60 == 0,
                after < cursor <= horizon_at + 86_400,
                forall|u: int|
                    #![trigger self.fires_at(u)]
                    u % 60 == 0 && after < u < cursor ==> !self.fires_at(u),
            decreases horizon_at + 86_400 - cursor,
        {
            if self.matches(cursor) {
                return Some(cursor);
            }
            if !self.date_could_match(cursor) {
                let day = day_of(cursor);
                let next = (day + 1) * 86_400;
                proof {
                    lemma_skip_day(*self, after as int, cursor as int);
                }
                cursor = next;
                continue;
            }
            proof {
                lemma_skip_minute(*self, after as int, cursor as int);
            }
            cursor = cursor + 60;
        }
        None
    }
}

/// Reads `q` from state `st`, one character at a time.
pub open spec fn scan_from(st: IntervalScan, q: Seq<char>) -> Option<IntervalScan>
    decreases q.len(),
{
    if q.len() == 0 {
        Some(st)
    } else {
        match scan_from(st, q.drop_last()) {
            Some(s2) => interval_step(s2, q.last()),
            None => None,
        }
    }
}

proof fn lemma_scan_concat(p: Seq<char>, q: Seq<char>)
    ensures
        interval_scan(p + q) == match interval_scan(p) {
            Some(st) => scan_from(st, q),
            None => None,
        },
    decreases q.len(),
{
    if q.len() == 0 {
        assert(p + q =~= p);
    } else {
        lemma_scan_concat(p, q.drop_last());
        assert((p + q).drop_last() =~= p + q.drop_last());
        assert((p + q).last() == q.last());
    }
}

proof fn lemma_scan_from_concat(st: IntervalScan, p: Seq<char>, q: Seq<char>)
    ensures
        scan_from(st, p + q) == match scan_from(st, p) {
            Some(s2) => scan_from(s2, q),
            None => None,
        },
    decreases q.len(),
{
    if q.len() == 0 {
        assert(p + q =~= p);
    } else {
        lemma_scan_from_concat(st, p, q.drop_last());
        assert((p + q).drop_last() =~= p + q.drop_last());
        assert((p + q).last() == q.last());
    }
}

/// Reading the digits of `k` after a unit leaves `k` pending.
proof fn lemma_scan_decimal(total: nat, seen: bool, pending: bool, k: nat)
    ensures
        scan_from((total, 0, pending, seen), decimal(k)) == Some((total, k, true, seen)),
    decreases k,
{
    if k < 10 {
        let q = decimal(k);
        assert(q.drop_last() =~= Seq::<char>::empty());
        assert(scan_from((total, 0, pending, seen), Seq::<char>::empty()) == Some((total, 0nat, pending, seen)));
        assert(is_digit(q.last()));
        assert(digit_value(q.last()) == k);
    } else {
        lemma_scan_decimal(total, seen, pending, k / 10);
        let q = decimal(k);
        assert(q.drop_last() == decimal(k / 10));
        assert(is_digit(q.last()));
        assert(digit_value(q.last()) == k % 10);
        assert(k == (k / 10) * 10 + k % 10);
    }
}

/// Reading one rendered component adds its seconds to the total.
proof fn lemma_scan_part(total: nat, seen: bool, k: nat, unit: char)
    requires
        is_unit(unit),
        total + k * unit_scale(unit) <= u64::MAX,
    ensures
        scan_from((total, 0, false, seen), interval_part(k, unit)) == if k > 0 {
            Some(((total + k * unit_scale(unit)) as nat, 0nat, false, true))
        } else {
            Some((total, 0nat, false, seen))
        },
{
    if k > 0 {
        lemma_scan_decimal(total, seen, false, k);
        let q = interval_part(k, unit);
        assert(q.drop_last() == decimal(k));
        assert(q.last() == unit);
        assert(!is_digit(unit));
        assert(k <= u64::MAX) by (nonlinear_arith)
            requires
                total + k * unit_scale(unit) <= u64::MAX,
                unit_scale(unit) >= 1,
        ;
        assert(k * unit_scale(unit) <= u64::MAX) by (nonlinear_arith)
            requires
                total + k * unit_scale(unit) <= u64::MAX,
        ;
    } else {
        assert(interval_part(k, unit) =~= Seq::<char>::empty());
    }
}

proof fn lemma_decimal_digits(k: nat)
    ensures
        forall|i: int| 0 <= i < decimal(k).len() ==> is_digit(#[trigger] decimal(k)[i]),
        decimal(k).len() > 0,
    decreases k,
{
    if k >= 10 {
        lemma_decimal_digits(k / 10);
        assert forall|i: int| 0 <= i < decimal(k).len() implies is_digit(#[trigger] decimal(k)[i]) by {
            if i < decimal(k).len() - 1 {
                assert(decimal(k)[i] == decimal(k / 10)[i]);
            }
        }
    }
}

/// A rendered component holds digits and its unit only.
proof fn lemma_part_chars(k: nat, unit: char)
    requires
        is_unit(unit),
    ensures
        forall|i: int|
            0 <= i < interval_part(k, unit).len() ==> is_digit(#[trigger] interval_part(k, unit)[i])
                || is_unit(interval_part(k, unit)[i]),
        k > 0 ==> !is_digit(interval_part(k, unit).last()),
        k > 0 ==> interval_part(k, unit).len() > 0,
{
    if k > 0 {
        lemma_decimal_digits(k);
        assert forall|i: int| 0 <= i < interval_part(k, unit).len() implies is_digit(
            #[trigger] interval_part(k, unit)[i],
        ) || is_unit(interval_part(k, unit)[i]) by {
            if i < decimal(k).len() {
                assert(interval_part(k, unit)[i] == decimal(k)[i]);
            }
        }
    }
}

/// Every interval reads back from the text it is written as: parsing what
/// `to_text` writes gives the same number of seconds.
#[verifier::spinoff_prover]
pub proof fn lemma_interval_round_trip(n: nat)
    requires
        interval_in_range(n),
    ensures
        spec_interval(interval_text(n)) == Some(n),
{
    let d = n / 86400;
    let h = (n % 86400) / 3600;
    let m = (n % 3600) / 60;
    let s = n % 60;
    let a = interval_part(d, 'd');
    let b = interval_part(h, 'h');
    let c = interval_part(m, 'm');
    let e = interval_part(s, 's');
    let t = interval_text(n);
    assert(t == a + b + c + e);
    vstd::arithmetic::div_mod::lemma_fundamental_div_mod(n as int, 86400);
    vstd::arithmetic::div_mod::lemma_fundamental_div_mod((n % 86400) as int, 3600);
    vstd::arithmetic::div_mod::lemma_fundamental_div_mod((n % 3600) as int, 60);
    vstd::arithmetic::div_mod::lemma_mod_mod(n as int, 3600, 24);
    vstd::arithmetic::div_mod::lemma_mod_mod(n as int, 60, 60);
    assert(n == d * 86400 + h * 3600 + m * 60 + s);
    // The scan, component by component.
    lemma_scan_part(0, false, d, 'd');
    let t1 = (d * 86400) as nat;
    let seen1 = d > 0;
    lemma_scan_part(t1, seen1, h, 'h');
    let t2 = (t1 + h * 3600) as nat;
    let seen2 = seen1 || h > 0;
    lemma_scan_part(t2, seen2, m, 'm');
    let t3 = (t2 + m * 60) as nat;
    let seen3 = seen2 || m > 0;
    lemma_scan_part(t3, seen3, s, 's');
    assert(interval_scan(Seq::<char>::empty()) == Some((0nat, 0nat, false, false)));
    lemma_scan_concat(Seq::<char>::empty(), a);
    assert(Seq::<char>::empty() + a =~= a);
    lemma_scan_concat(a, b);
    lemma_scan_concat(a + b, c);
    lemma_scan_concat(a + b + c, e);
    assert(seen3 || s > 0);
    assert(interval_scan(t) == Some((n, 0nat, false, true)));
    // The text is plain: digits and unit letters, with at least one unit.
    lemma_part_chars(d, 'd');
    lemma_part_chars(h, 'h');
    lemma_part_chars(m, 'm');
    lemma_part_chars(s, 's');
    assert forall|i: int| 0 <= i < t.len() implies is_digit(#[trigger] t[i]) || is_unit(t[i]) by {
        if i < a.len() {
            assert(t[i] == a[i]);
        } else if i < a.len() + b.len() {
            assert(t[i] == b[i - a.len()]);
        } else if i < a.len() + b.len() + c.len() {
            assert(t[i] == c[i - a.len() - b.len()]);
        } else {
            assert(t[i] == e[i - a.len() - b.len() - c.len()]);
        }
    }
    assert forall|i: int| 0 <= i < t.len() implies !is_space(#[trigger] t[i]) && !is_upper(t[i]) by {
        assert(is_digit(t[i]) || is_unit(t[i]));
    }
    lemma_plain_keyword(t);
    // Some component is non-empty, and its unit is not a digit.
    let j: int = if s > 0 {
        t.len() - 1
    } else if m > 0 {
        a.len() + b.len() + c.len() - 1
    } else if h > 0 {
        a.len() + b.len() - 1
    } else {
        a.len() - 1
    };
    if s > 0 {
        assert(t[j] == e[e.len() - 1]);
    } else if m > 0 {
        assert(t[j] == c[c.len() - 1]);
    } else if h > 0 {
        assert(t[j] == b[b.len() - 1]);
    } else {
        assert(d > 0);
        assert(t[j] == a[a.len() - 1]);
    }
    assert(!is_digit(t[j]));
    assert(t.len() > 0);
    assert(t[0] != '+');
    assert(parse_unsigned(t, u64::MAX as nat) is None);
}

} // verus!

verus! {

/// Text without `sep` splits into itself alone.
proof fn lemma_split_on_absent(s: Seq<char>, sep: char)
    requires
        forall|i: int| 0 <= i < s.len() ==> s[i] != sep,
    ensures
        split_on(s, sep) == seq![s],
    decreases s.len(),
{
    if s.len() > 0 {
        let d = s.drop_last();
        assert forall|i: int| 0 <= i < d.len() implies d[i] != sep by {
            assert(d[i] == s[i]);
        }
        lemma_split_on_absent(d, sep);
        assert(d.push(s.last()) =~= s);
        assert(seq![d].update(0, d.push(s.last())) =~= seq![s]);
    } else {
        assert(s =~= Seq::<char>::empty());
    }
}

/// What each weekday name stands for in the day-of-week field, counting from
/// Sunday: `sun` 0, `mon` 1, `tue` 2, `wed` 3, `thu` 4, `fri` 5, `sat` 6.
pub proof fn lemma_weekday_names()
    ensures
        spec_resolve("sun"@, 0, 6, FieldNames::Weekdays) == Some(0int),
        spec_resolve("mon"@, 0, 6, FieldNames::Weekdays) == Some(1int),
        spec_resolve("tue"@, 0, 6, FieldNames::Weekdays) == Some(2int),
        spec_resolve("wed"@, 0, 6, FieldNames::Weekdays) == Some(3int),
        spec_resolve("thu"@, 0, 6, FieldNames::Weekdays) == Some(4int),
        spec_resolve("fri"@, 0, 6, FieldNames::Weekdays) == Some(5int),
        spec_resolve("sat"@, 0, 6, FieldNames::Weekdays) == Some(6int),
{
    reveal_strlit("sun");
    reveal_strlit("mon");
    reveal_strlit("tue");
    reveal_strlit("wed");
    reveal_strlit("thu");
    reveal_strlit("fri");
    reveal_strlit("sat");
    lemma_plain_keyword("sun"@);
    lemma_plain_keyword("mon"@);
    lemma_plain_keyword("tue"@);
    lemma_plain_keyword("wed"@);
    lemma_plain_keyword("thu"@);
    lemma_plain_keyword("fri"@);
    lemma_plain_keyword("sat"@);
    assert("mon"@[0] != "sun"@[0]);
    assert("tue"@[0] != "sun"@[0] && "tue"@[0] != "mon"@[0]);
    assert("wed"@[0] != "sun"@[0] && "wed"@[0] != "mon"@[0] && "wed"@[0] != "tue"@[0]);
    assert("thu"@[0] != "sun"@[0] && "thu"@[0] != "mon"@[0] && "thu"@[1] != "tue"@[1]
        && "thu"@[0] != "wed"@[0]);
    assert("fri"@[0] != "sun"@[0] && "fri"@[0] != "mon"@[0] && "fri"@[0] != "tue"@[0]
        && "fri"@[0] != "wed"@[0] && "fri"@[0] != "thu"@[0]);
    assert("sat"@[1] != "sun"@[1] && "sat"@[0] != "mon"@[0] && "sat"@[0] != "tue"@[0]
        && "sat"@[0] != "wed"@[0] && "sat"@[0] != "thu"@[0] && "sat"@[0] != "fri"@[0]);
}

/// A day-of-week field written `mon-fri` allows Monday to Friday and nothing
/// else.
pub proof fn lemma_mon_fri_field(fs: FieldSet)
    requires
        field_reads(fs, "mon-fri"@, 0, 6, FieldNames::Weekdays),
    ensures
        !fs.spec_wildcard(),
        forall|v: int| #![trigger fs.has(v)] fs.has(v) <==> 1 <= v <= 5,
{
    reveal_strlit("mon-fri");
    reveal_strlit("mon");
    reveal_strlit("fri");
    let text = "mon-fri"@;
    lemma_weekday_names();
    lemma_split_on_absent(text, ',');
    let parts = split_on(text, ',');
    assert(parts[0] == text);
    lemma_trim_plain(text);
    lemma_find_char(text, '/', 7);
    lemma_find_char(text, '-', 3);
    assert(split_once(text, '-') == Some((text.subrange(0, 3), text.subrange(4, 7))));
    assert(text.subrange(0, 3) =~= "mon"@);
    assert(text.subrange(4, 7) =~= "fri"@);
    assert(text != seq!['*']);
    assert(part_bounds(text, 0, 6, FieldNames::Weekdays) == Some((1int, 5int, 1int)));
    assert forall|v: int| #![trigger fs.has(v)] fs.has(v) <==> 1 <= v <= 5 by {
        assert(fs.has(v) == allowed_by(parts, 1, 0, 6, FieldNames::Weekdays, v));
        assert(allowed_by(parts, 0, 0, 6, FieldNames::Weekdays, v) == false);
    }
}

/// Weekdays by name: an expression whose day-of-month is `*` and whose
/// day-of-week is `mon-fri` never fires on a Saturday or a Sunday, and
/// allows every day from Monday to Friday.
pub proof fn lemma_mon_fri_skips_weekends(c: CronExpr, source: Seq<char>, t: int)
    requires
        c.read_from(source),
        words(source)[2] == seq!['*'],
        words(source)[4] == "mon-fri"@,
    ensures
        c.fires_at(t) ==> calendar_day(day_index(t)).2 != 6 && calendar_day(day_index(t)).2 != 0,
        forall|v: int| 1 <= v <= 5 ==> #[trigger] c.day_rule(31, v),
{
    lemma_mon_fri_field(c.day_of_week_field());
    assert(c.day_of_month_field().spec_wildcard());
}

} // verus!
