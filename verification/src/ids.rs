//! Identifier minting.
//!
//! Ids are prefixed (`ses-`, `sub-`, `job-`, `ref-`) so that a bare string in
//! a log or an error message says what kind of thing it names.
use vstd::prelude::*;

use std::sync::atomic::AtomicU64;

use crate::hash::hex_digits;
use crate::text::{decimal, decimal_text, owned, push_char, push_chars, push_str, string_of};

verus! {

/// Mints identifiers with a given prefix.
pub trait IdGen {
    fn next(&self, prefix: &str) -> String;
}

/// The prefixes in use. Centralised so a typo cannot silently create a
/// second namespace of, say, jobs.
pub struct Ids;

impl Ids {
    pub const SESSION: &'static str = "ses";
    pub const SUBAGENT: &'static str = "sub";
    pub const JOB: &'static str = "job";
    pub const HEARTBEAT: &'static str = "hb";
    pub const ENTRY: &'static str = "ent";
    pub const REFINEMENT: &'static str = "ref";
    pub const MESSAGE: &'static str = "msg";
}

/// `s` padded on the left with zeros to at least `width` characters.
pub open spec fn zero_padded(s: Seq<char>, width: nat) -> Seq<char> {
    if s.len() < width {
        Seq::new((width - s.len()) as nat, |i: int| '0') + s
    } else {
        s
    }
}

fn zero_pad(s: String, width: usize) -> (r: String)
    ensures
        r@ == zero_padded(s@, width as nat),
{
    let digits = crate::text::chars_of(s.as_str());
    if digits.len() >= width {
        return s;
    }
    let mut out = String::new();
    let gap = width - digits.len();
    let mut i: usize = 0;
    while i < gap
        invariant
            i <= gap,
            out@ == Seq::new(i as nat, |k: int| '0'),
        decreases gap - i,
    {
        push_char(&mut out, '0');
        i += 1;
        assert(out@ =~= Seq::new(i as nat, |k: int| '0'));
    }
    push_str(&mut out, s.as_str());
    out
}

/// The base-36 digit of `d`.
pub open spec fn digit36(d: nat) -> char {
    if d < 10 {
        (48 + d) as char
    } else {
        (87 + d) as char
    }
}

/// `n` in base 36, lower case, without leading zeros.
pub open spec fn radix36_digits(n: nat) -> Seq<char>
    decreases n,
{
    if n < 36 {
        seq![digit36(n)]
    } else {
        radix36_digits(n / 36).push(digit36(n % 36))
    }
}

/// `n` in base 36, so that ids minted later sort later.
pub fn radix36(n: u64) -> (r: String)
    ensures
        r@ == radix36_digits(n as nat),
    decreases n,
{
    let d = n % 36;
    let c = if d < 10 {
        ((48 + d) as u8) as char
    } else {
        ((87 + d) as u8) as char
    };
    if n < 36 {
        let mut out = String::new();
        push_char(&mut out, c);
        assert(out@ =~= seq![c]);
        return out;
    }
    let mut out = radix36(n / 36);
    push_char(&mut out, c);
    out
}

/// A time-ordered id: the prefix, the time in base 36, the sequence number
/// modulo 10000 in four digits and four hexadecimal digits of salt.
pub open spec fn time_ordered_text(prefix: Seq<char>, micros: u64, sequence: u64, salt: u64) -> Seq<char> {
    prefix + seq!['-'] + radix36_digits(micros as nat) + seq!['-'] + zero_padded(
        decimal((sequence % 10_000) as nat),
        4,
    ) + seq!['-'] + hex_digits(
        (vstd::wrapping::u64_specs::wrapping_add(salt, sequence) & 0xFFFF) as nat,
        4,
    )
}

/// Renders a time-ordered id.
pub fn time_ordered_id(prefix: &str, micros: u64, sequence: u64, salt: u64) -> (r: String)
    ensures
        r@ == time_ordered_text(prefix@, micros, sequence, salt),
{
    let mut out = owned(prefix);
    push_char(&mut out, '-');
    let t = radix36(micros);
    push_str(&mut out, t.as_str());
    push_char(&mut out, '-');
    let n = zero_pad(decimal_text(sequence % 10_000), 4);
    push_str(&mut out, n.as_str());
    push_char(&mut out, '-');
    let h = crate::hash::hex_text(salt.wrapping_add(sequence) & 0xFFFF, 4);
    push_chars(&mut out, h.as_slice());
    out
}

/// The current time in microseconds since 1970-01-01T00:00:00Z, from
/// `SystemTime::now`, or 0 when the clock reads earlier than that. Nothing is
/// claimed of the value: it is whatever the system clock says.
#[verifier::external_body]
fn clock_micros() -> u64 {
    match std::time::SystemTime::now().duration_since(std::time::UNIX_EPOCH) {
        Ok(elapsed) => elapsed.as_micros() as u64,
        Err(_) => 0,
    }
}

/// Time-ordered, collision-resistant, and readable in a log:
/// `ses-mfk2p91x-0007-a3f1`. A base-36 timestamp so ids sort
/// chronologically, a per-process counter so a fast loop cannot repeat, and a
/// salt so two machines writing to one shared home do not collide either.
pub struct TimeOrderedIds {
    counter: AtomicU64,
    salt: u64,
}

impl TimeOrderedIds {
    /// The salt every id this generator mints carries.
    pub closed spec fn salt_of(&self) -> u64 {
        self.salt
    }

    /// A generator whose ids carry `salt`. Its counter starts at zero; the
    /// atomic's value is not something the verifier models.
    pub fn new(salt: u64) -> (r: Self)
        ensures
            r.salt_of() == salt,
    {
        TimeOrderedIds { counter: AtomicU64::new(0), salt }
    }
}

impl IdGen for TimeOrderedIds {
    /// An id for `prefix` at the clock's current reading and the counter's
    /// next value, with this generator's salt. The reading and the counter
    /// are whatever the clock and the atomic give.
    fn next(&self, prefix: &str) -> (r: String)
        ensures
            exists|micros: u64, sequence: u64|
                #[trigger] time_ordered_text(prefix@, micros, sequence, self.salt_of()) == r@,
    {
        let micros = clock_micros();
        let sequence = self.counter.fetch_add(1, std::sync::atomic::Ordering::Relaxed);
        let r = time_ordered_id(prefix, micros, sequence, self.salt);
        assert(time_ordered_text(prefix@, micros, sequence, self.salt_of()) == r@);
        r
    }
}

/// A sequential id: the prefix and the number in at least six digits.
pub open spec fn sequential_text(prefix: Seq<char>, n: u64) -> Seq<char> {
    prefix + seq!['-'] + zero_padded(decimal(n as nat), 6)
}

/// Renders a sequential id.
pub fn sequential_id(prefix: &str, n: u64) -> (r: String)
    ensures
        r@ == sequential_text(prefix@, n),
{
    let mut out = owned(prefix);
    push_char(&mut out, '-');
    let d = zero_pad(decimal_text(n), 6);
    push_str(&mut out, d.as_str());
    out
}

/// A deterministic generator for tests: `pfx-000001`, `pfx-000002`, ...
pub struct SeqIdGen {
    counter: AtomicU64,
}

impl Default for SeqIdGen {
    fn default() -> (r: Self) {
        SeqIdGen { counter: AtomicU64::new(0) }
    }
}

impl IdGen for SeqIdGen {
    /// The sequential id for `prefix` and the counter's next value, which is
    /// at least one. The counter's value is whatever the atomic gives.
    fn next(&self, prefix: &str) -> (r: String)
        ensures
            exists|n: u64| n >= 1 && #[trigger] sequential_text(prefix@, n) == r@,
    {
        let n = self.counter.fetch_add(1, std::sync::atomic::Ordering::Relaxed).saturating_add(1);
        let r = sequential_id(prefix, n);
        assert(sequential_text(prefix@, n) == r@);
        r
    }
}

} // verus!
