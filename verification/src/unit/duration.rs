//! systemd-style duration parsing.
//!
//! Accepts the forms in `man systemd.time` "PARSING TIME SPANS":
//! - `5s`, `30sec`, `30seconds`
//! - `5m`, `5min`, `5minutes`
//! - `2h`, `3hr`, `3hours`
//! - `7d`, `2w` (weeks), `1M` (months ≈ 30.44 d), `1y` (≈ 365.25 d)
//! - composite: `1h 30m 5s`, `1h30m5s`
//! - `infinity`
//! - bare integer means seconds (when default unit is seconds, the typical
//!   case for `*Sec=` directives)
//!
//! Fractions are exact: a component is its decimal value times its unit, cut
//! off at the nanosecond.

use crate::number;
use crate::number::parse_u64;
use crate::text;
use crate::text::{
    char_code, char_is_digit, char_is_letter, char_is_space, chars_of, debug_char, debug_text,
    is_str, split_once, string_of, to_lower, trim, trim_start,
};
use vstd::prelude::*;
use vstd::slice::slice_subrange;

verus! {

/// A span of time: whole seconds and the nanoseconds on top of them.
#[derive(Debug, Clone, Copy, PartialEq, Eq, PartialOrd, Ord, Hash, Structural)]
pub struct TimeSpan {
    /// Whole seconds.
    pub secs: u64,
    /// Nanoseconds, below one second.
    pub nanos: u32,
}

/// The nanoseconds in a second.
pub const NANOS_PER_SEC: u32 = 1_000_000_000;

/// The longest span, in nanoseconds.
pub open spec fn max_nanos() -> nat {
    0xffff_ffff_ffff_ffff * 1_000_000_000 + 999_999_999
}

/// The span of a number of nanoseconds.
pub open spec fn span_of(n: nat) -> TimeSpan {
    TimeSpan { secs: (n / 1_000_000_000) as u64, nanos: (n % 1_000_000_000) as u32 }
}

impl TimeSpan {
    /// The longest span.
    pub fn max() -> (r: Self)
        ensures
            r.total() == max_nanos(),
            r == (TimeSpan { secs: 0xffff_ffff_ffff_ffff, nanos: 999_999_999 }),
    {
        TimeSpan { secs: 0xffff_ffff_ffff_ffff, nanos: 999_999_999 }
    }

    /// The empty span.
    pub fn zero() -> (r: Self)
        ensures
            r == (TimeSpan { secs: 0, nanos: 0 }),
    {
        TimeSpan { secs: 0, nanos: 0 }
    }

    /// The nanoseconds stay below one second.
    pub open spec fn wf(self) -> bool {
        self.nanos < 1_000_000_000
    }

    /// The span in nanoseconds.
    pub open spec fn total(self) -> nat {
        (self.secs * 1_000_000_000 + self.nanos) as nat
    }

    /// A span of whole seconds.
    pub fn from_secs(secs: u64) -> (r: Self)
        ensures
            r == (TimeSpan { secs, nanos: 0 }),
    {
        TimeSpan { secs, nanos: 0 }
    }

    /// A span of whole milliseconds.
    pub fn from_millis(millis: u64) -> (r: Self)
        ensures
            r.wf(),
            r.total() == millis * 1_000_000,
    {
        TimeSpan { secs: millis / 1000, nanos: (millis % 1000) as u32 * 1_000_000 }
    }

    /// The span in nanoseconds.
    pub fn as_nanos(self) -> (r: u128)
        ensures
            r == self.total(),
    {
        self.secs as u128 * 1_000_000_000 + self.nanos as u128
    }

    /// The span in whole microseconds.
    pub fn as_micros(self) -> (r: u128)
        ensures
            r == self.total() / 1000,
    {
        (self.secs as u128 * 1_000_000_000 + self.nanos as u128) / 1000
    }

    /// The span of a number of nanoseconds.
    pub fn from_nanos(n: u128) -> (r: Self)
        requires
            n <= max_nanos(),
        ensures
            r == span_of(n as nat),
            r.wf(),
            r.total() == n,
    {
        TimeSpan { secs: (n / 1_000_000_000) as u64, nanos: (n % 1_000_000_000) as u32 }
    }
}

/// Parsed systemd duration: a span, or the "infinity" sentinel matching
/// `RestartSec=infinity` etc.
#[derive(Debug, Clone, Copy, PartialEq, Eq, PartialOrd, Ord, Hash, Structural)]
pub enum SdDuration {
    /// Finite duration.
    Finite(TimeSpan),
    /// `infinity`.
    Infinity,
}

impl Default for SdDuration {
    fn default() -> (r: Self)
        ensures
            r == SdDuration::Finite(TimeSpan { secs: 0, nanos: 0 }),
    {
        SdDuration::zero()
    }
}

/// A duration as a span; infinity is the longest.
pub open spec fn span_or_max(d: SdDuration) -> TimeSpan {
    match d {
        SdDuration::Finite(s) => s,
        SdDuration::Infinity => TimeSpan { secs: 0xffff_ffff_ffff_ffff, nanos: 999_999_999 },
    }
}

impl SdDuration {
    /// Zero.
    pub fn zero() -> (r: Self)
        ensures
            r == SdDuration::Finite(TimeSpan { secs: 0, nanos: 0 }),
    {
        SdDuration::Finite(TimeSpan { secs: 0, nanos: 0 })
    }

    /// As a plain span. `Infinity` becomes the longest.
    pub fn as_std(self) -> (r: TimeSpan)
        ensures
            r == span_or_max(self),
    {
        match self {
            SdDuration::Finite(d) => d,
            SdDuration::Infinity => TimeSpan::max(),
        }
    }

    /// Whether this is finite.
    pub fn is_finite(self) -> (r: bool)
        ensures
            r == (self is Finite),
    {
        match self {
            SdDuration::Finite(_) => true,
            SdDuration::Infinity => false,
        }
    }

    /// Whether the nanoseconds stay below one second.
    pub open spec fn wf(self) -> bool {
        self matches SdDuration::Finite(s) ==> s.wf()
    }
}

impl From<TimeSpan> for SdDuration {
    fn from(d: TimeSpan) -> (r: Self) {
        SdDuration::Finite(d)
    }
}

impl vstd::std_specs::convert::FromSpecImpl<TimeSpan> for SdDuration {
    open spec fn obeys_from_spec() -> bool {
        true
    }

    open spec fn from_spec(d: TimeSpan) -> SdDuration {
        SdDuration::Finite(d)
    }
}

// ---------------------------------------------------------------------
// Grammar
// ---------------------------------------------------------------------

/// Ten to the power of `k`.
pub open spec fn pow10(k: nat) -> nat
    decreases k,
{
    if k == 0 {
        1
    } else {
        10 * pow10((k - 1) as nat)
    }
}

/// The nanoseconds in a named unit. `M` is a month; any other name may be in
/// either case.
pub open spec fn unit_nanos(u: Seq<char>) -> Option<nat> {
    let l = text::lowered(u);
    if u == "M"@ {
        Some(2_630_016_000_000_000)
    } else if l == "ns"@ || l == "nsec"@ {
        Some(1)
    } else if l == "us"@ || l == "usec"@ {
        Some(1_000)
    } else if l == "ms"@ || l == "msec"@ {
        Some(1_000_000)
    } else if l == "s"@ || l == "sec"@ || l == "second"@ || l == "seconds"@ {
        Some(1_000_000_000)
    } else if l == "m"@ || l == "min"@ || l == "minute"@ || l == "minutes"@ {
        Some(60_000_000_000)
    } else if l == "h"@ || l == "hr"@ || l == "hour"@ || l == "hours"@ {
        Some(3_600_000_000_000)
    } else if l == "d"@ || l == "day"@ || l == "days"@ {
        Some(86_400_000_000_000)
    } else if l == "w"@ || l == "week"@ || l == "weeks"@ {
        Some(604_800_000_000_000)
    } else if l == "month"@ || l == "months"@ {
        Some(2_630_016_000_000_000)
    } else if l == "y"@ || l == "year"@ || l == "years"@ {
        Some(31_557_600_000_000_000)
    } else {
        None
    }
}

/// The digits before and behind the decimal point of a number.
pub open spec fn number_parts(num: Seq<char>) -> Option<(Seq<char>, Seq<char>)> {
    match text::split_at_first(num, '.') {
        None => if num.len() > 0 {
            Some((num, seq![]))
        } else {
            None
        },
        Some((a, b)) => if b.contains('.') || a.len() + b.len() == 0 {
            None
        } else {
            Some((a, b))
        },
    }
}

/// A decimal number of units, in whole nanoseconds.
pub open spec fn scaled(int_part: Seq<char>, frac: Seq<char>, unit: nat) -> nat {
    (number::digits_value(int_part + frac, 10) * unit) / pow10(frac.len())
}

/// Whether the character can stand in a number.
pub open spec fn in_number(c: char) -> bool {
    text::is_digit(c) || c == '.'
}

/// The length of the number at the start of the text.
pub open spec fn number_len(s: Seq<char>) -> int
    decreases s.len(),
{
    if s.len() == 0 || !in_number(s[0]) {
        0
    } else {
        1 + number_len(s.skip(1))
    }
}

/// The number of ASCII letters at the start of the text.
pub open spec fn letters_len(s: Seq<char>) -> int
    decreases s.len(),
{
    if s.len() == 0 || !text::is_letter(s[0]) {
        0
    } else {
        1 + letters_len(s.skip(1))
    }
}

/// The sum of `total` and the components of the text, in nanoseconds.
pub open spec fn components(s: Seq<char>, default_unit: nat, total: nat) -> Result<nat, Seq<char>>
    decreases s.len(),
{
    if s.len() == 0 {
        Ok(total)
    } else if text::is_space(s[0]) {
        components(s.skip(1), default_unit, total)
    } else {
        let n = number_len(s);
        if !(0 < n <= s.len()) {
            Err("expected digit, got "@ + text::debug_char_form(s[0]))
        } else {
            match number_parts(s.take(n)) {
                None => Err("bad number "@ + text::debug_form(s.take(n))),
                Some((a, b)) => {
                    let rest = text::trimmed_start(s.skip(n));
                    let m = letters_len(rest);
                    let unit = if m == 0 {
                        Some(default_unit)
                    } else {
                        unit_nanos(rest.take(m))
                    };
                    match unit {
                        None => Err("unknown unit "@ + text::debug_form(rest.take(m))),
                        Some(u) => if scaled(a, b, u) > max_nanos() || total + scaled(a, b, u)
                            > max_nanos() {
                            Err("overflow"@)
                        } else if !(0 <= m <= rest.len() < s.len()) {
                            Ok(total)
                        } else {
                            components(rest.skip(m), default_unit, total + scaled(a, b, u))
                        },
                    }
                },
            }
        }
    }
}

/// Whether every character is a digit.
pub open spec fn all_digits(s: Seq<char>) -> bool {
    forall|i: int| 0 <= i < s.len() ==> text::is_digit(#[trigger] s[i])
}

/// The duration that a text stands for, or why it stands for none.
pub open spec fn duration_of(input: Seq<char>, default_unit_secs: u64) -> Result<
    SdDuration,
    Seq<char>,
> {
    let s = text::trimmed(input);
    if text::lowered(s) == "infinity"@ {
        Ok(SdDuration::Infinity)
    } else if s.len() == 0 {
        Err("empty duration"@)
    } else if all_digits(s) {
        match number::uint_of(s, 10, 0xffff_ffff_ffff_ffff) {
            Ok(n) => Ok(
                SdDuration::Finite(
                    TimeSpan {
                        secs: if n * default_unit_secs > 0xffff_ffff_ffff_ffff {
                            0xffff_ffff_ffff_ffff
                        } else {
                            (n * default_unit_secs) as u64
                        },
                        nanos: 0,
                    },
                ),
            ),
            Err(e) => Err(number::int_error_text(e)),
        }
    } else {
        match components(s, (default_unit_secs * 1_000_000_000) as nat, 0) {
            Ok(n) => Ok(SdDuration::Finite(span_of(n))),
            Err(e) => Err(e),
        }
    }
}

/// The view of a parsed duration.
pub open spec fn duration_result(r: Result<SdDuration, String>) -> Result<SdDuration, Seq<char>> {
    match r {
        Ok(d) => Ok(d),
        Err(e) => Err(e@),
    }
}

// ---------------------------------------------------------------------
// Arithmetic
// ---------------------------------------------------------------------

pub proof fn lemma_pow10_positive(k: nat)
    ensures
        pow10(k) > 0,
    decreases k,
{
    if k > 0 {
        lemma_pow10_positive((k - 1) as nat);
    }
}

/// The digits of two runs side by side.
proof fn lemma_digits_concat(a: Seq<char>, b: Seq<char>)
    ensures
        number::digits_value(a + b, 10) == number::digits_value(a, 10) * pow10(b.len())
            + number::digits_value(b, 10),
    decreases b.len(),
{
    if b.len() == 0 {
        assert(a + b =~= a);
        assert(number::digits_value(a, 10) * 1 == number::digits_value(a, 10));
    } else {
        let c = b.drop_last();
        lemma_digits_concat(a, c);
        assert((a + b).drop_last() =~= a + c);
        assert((a + b).last() == b.last());
        let v = number::digits_value(a, 10);
        let p = pow10(c.len());
        assert(pow10(b.len()) == 10 * p);
        assert((v * p) * 10 == v * (10 * p)) by (nonlinear_arith);
    }
}

/// A fraction of a unit, digit by digit from the last.
pub open spec fn fraction(frac: Seq<char>, unit: nat) -> nat
    decreases frac.len(),
{
    if frac.len() == 0 {
        0
    } else {
        (number::digit_value(frac[0]) * unit + fraction(frac.skip(1), unit)) / 10
    }
}

proof fn lemma_fraction(frac: Seq<char>, unit: nat)
    ensures
        fraction(frac, unit) == (number::digits_value(frac, 10) * unit) / pow10(frac.len()),
    decreases frac.len(),
{
    if frac.len() == 0 {
        assert(number::digits_value(frac, 10) * unit == 0) by (nonlinear_arith)
            requires
                number::digits_value(frac, 10) == 0,
        ;
    } else {
        let rest = frac.skip(1);
        let d = number::digit_value(frac[0]);
        let head = seq![frac[0]];
        lemma_fraction(rest, unit);
        lemma_digits_concat(head, rest);
        assert(head + rest =~= frac);
        assert(head.drop_last() =~= seq![]);
        assert(number::digits_value(head.drop_last(), 10) == 0);
        assert(number::digits_value(head, 10) == d);
        let p = pow10(rest.len());
        let v = number::digits_value(rest, 10);
        lemma_pow10_positive(rest.len());
        assert((d * p + v) * unit == (d * unit) * p + v * unit) by (nonlinear_arith);
        assert(p * 10 == 10 * p);
        vstd::arithmetic::div_mod::lemma_hoist_over_denominator((v * unit) as int, (d * unit) as int, p);
        vstd::arithmetic::div_mod::lemma_div_denominator((((d * p + v) * unit)) as int, p as int, 10);
    }
}

/// A number of units is its whole part and its fraction.
proof fn lemma_scaled(a: Seq<char>, b: Seq<char>, unit: nat)
    ensures
        scaled(a, b, unit) == number::digits_value(a, 10) * unit + fraction(b, unit),
{
    lemma_digits_concat(a, b);
    lemma_fraction(b, unit);
    lemma_pow10_positive(b.len());
    let i = number::digits_value(a, 10);
    let f = number::digits_value(b, 10);
    let p = pow10(b.len());
    assert((i * p + f) * unit == (i * unit) * p + f * unit) by (nonlinear_arith);
    vstd::arithmetic::div_mod::lemma_hoist_over_denominator((f * unit) as int, (i * unit) as int, p);
}

// ---------------------------------------------------------------------
// Reading
// ---------------------------------------------------------------------

fn unit_to_nanos(u: &[char]) -> (r: Option<u128>)
    ensures
        match r {
            Some(n) => unit_nanos(u@) == Some(n as nat) && 0 < n <= 31_557_600_000_000_000,
            None => unit_nanos(u@) is None,
        },
{
    let low = to_lower(u);
    let l = low.as_slice();
    if is_str(u, "M") {
        Some(2_630_016_000_000_000)
    } else if is_str(l, "ns") || is_str(l, "nsec") {
        Some(1)
    } else if is_str(l, "us") || is_str(l, "usec") {
        Some(1_000)
    } else if is_str(l, "ms") || is_str(l, "msec") {
        Some(1_000_000)
    } else if is_str(l, "s") || is_str(l, "sec") || is_str(l, "second") || is_str(l, "seconds") {
        Some(1_000_000_000)
    } else if is_str(l, "m") || is_str(l, "min") || is_str(l, "minute") || is_str(l, "minutes") {
        Some(60_000_000_000)
    } else if is_str(l, "h") || is_str(l, "hr") || is_str(l, "hour") || is_str(l, "hours") {
        Some(3_600_000_000_000)
    } else if is_str(l, "d") || is_str(l, "day") || is_str(l, "days") {
        Some(86_400_000_000_000)
    } else if is_str(l, "w") || is_str(l, "week") || is_str(l, "weeks") {
        Some(604_800_000_000_000)
    } else if is_str(l, "month") || is_str(l, "months") {
        Some(2_630_016_000_000_000)
    } else if is_str(l, "y") || is_str(l, "year") || is_str(l, "years") {
        Some(31_557_600_000_000_000)
    } else {
        None
    }
}

/// The view of the two parts of a number.
fn split_number(num: &[char]) -> (r: Option<(&[char], &[char])>)
    ensures
        text::pair_view(r) == number_parts(num@),
{
    match split_once(num, '.') {
        None => {
            if num.len() > 0 {
                proof {
                    assert(num@.subrange(0, 0) =~= seq![]);
                }
                Some((num, slice_subrange(num, 0, 0)))
            } else {
                None
            }
        },
        Some((a, b)) => {
            if text::contains(b, '.') || (a.len() == 0 && b.len() == 0) {
                None
            } else {
                Some((a, b))
            }
        },
    }
}

/// The whole part of a number times its unit, where it is no longer than the
/// longest span.
fn whole_nanos(a: &[char], unit: u128) -> (r: Option<u128>)
    requires
        forall|i: int| 0 <= i < a@.len() ==> text::is_digit(#[trigger] a@[i]),
        unit <= 0xffff_ffff_ffff_ffff * 1_000_000_000,
    ensures
        match r {
            Some(n) => n == number::digits_value(a@, 10) * unit && n <= max_nanos(),
            None => number::digits_value(a@, 10) * unit > max_nanos(),
        },
{
    if unit == 0 {
        proof {
            assert(number::digits_value(a@, 10) * unit == 0) by (nonlinear_arith)
                requires
                    unit == 0,
            ;
        }
        return Some(0);
    }
    let cap: u128 = 0xffff_ffff_ffff_ffff * 1_000_000_000 + 999_999_999;
    let mut acc: u128 = 0;
    let mut i: usize = 0;
    proof {
        assert(number::digits_value(a@.take(0), 10) == 0);
        assert(0 * unit == 0) by (nonlinear_arith);
    }
    while i < a.len()
        invariant
            i <= a.len(),
            cap == max_nanos(),
            0 < unit,
            forall|j: int| 0 <= j < a@.len() ==> text::is_digit(#[trigger] a@[j]),
            acc == number::digits_value(a@.take(i as int), 10),
            acc * unit <= cap,
            acc <= cap,
        decreases a.len() - i,
    {
        proof {
            assert(a@.take(i + 1).drop_last() =~= a@.take(i as int));
            assert(text::is_digit(a@[i as int]));
        }
        let d: u128 = (char_code(a[i]) - 48) as u128;
        let next: u128 = acc * 10 + d;
        if next > cap / unit {
            proof {
                assert(next * unit > cap) by (nonlinear_arith)
                    requires
                        next > cap / unit,
                        unit > 0,
                        cap >= 0,
                ;
                number::lemma_digits_value_grows(a@, 10, i + 1, a@.len() as int);
                assert(a@.take(a@.len() as int) =~= a@);
                let v = number::digits_value(a@, 10);
                assert(v * unit >= next * unit) by (nonlinear_arith)
                    requires
                        v >= next,
                        unit > 0,
                ;
            }
            return None;
        }
        proof {
            assert(next * unit <= cap) by (nonlinear_arith)
                requires
                    next <= cap / unit,
                    unit > 0,
                    cap >= 0,
            ;
            assert(next <= next * unit) by (nonlinear_arith)
                requires
                    unit > 0,
                    next >= 0,
            ;
        }
        acc = next;
        i = i + 1;
    }
    proof {
        assert(a@.take(a@.len() as int) =~= a@);
    }
    Some(acc * unit)
}

/// The fraction of a unit.
fn fraction_nanos(b: &[char], unit: u128) -> (r: u128)
    requires
        forall|i: int| 0 <= i < b@.len() ==> text::is_digit(#[trigger] b@[i]),
        unit <= 0xffff_ffff_ffff_ffff * 1_000_000_000,
    ensures
        r == fraction(b@, unit as nat),
        r <= unit,
{
    let mut x: u128 = 0;
    let mut n: usize = b.len();
    proof {
        assert(b@.skip(b@.len() as int) =~= seq![]);
        assert(fraction(b@.skip(b@.len() as int), unit as nat) == 0);
    }
    while n > 0
        invariant
            n <= b.len(),
            forall|i: int| 0 <= i < b@.len() ==> text::is_digit(#[trigger] b@[i]),
            unit <= 0xffff_ffff_ffff_ffff * 1_000_000_000,
            x == fraction(b@.skip(n as int), unit as nat),
            x <= unit,
        decreases n,
    {
        proof {
            assert(text::is_digit(b@[n - 1]));
            assert(b@.skip(n - 1).skip(1) =~= b@.skip(n as int));
            assert(b@.skip(n - 1)[0] == b@[n - 1]);
        }
        let d: u128 = (char_code(b[n - 1]) - 48) as u128;
        proof {
            assert(d * unit <= 9 * unit) by (nonlinear_arith)
                requires
                    d <= 9,
                    unit >= 0,
            ;
            assert(d * unit == number::digit_value(b@[n - 1]) * unit);
        }
        x = (d * unit + x) / 10;
        n = n - 1;
    }
    proof {
        assert(b@.skip(0) =~= b@);
    }
    x
}

/// A decimal number of units, where it is no longer than the longest span.
fn scaled_nanos(a: &[char], b: &[char], unit: u128) -> (r: Option<u128>)
    requires
        forall|i: int| 0 <= i < a@.len() ==> text::is_digit(#[trigger] a@[i]),
        forall|i: int| 0 <= i < b@.len() ==> text::is_digit(#[trigger] b@[i]),
        unit <= 0xffff_ffff_ffff_ffff * 1_000_000_000,
    ensures
        match r {
            Some(n) => n == scaled(a@, b@, unit as nat) && n <= max_nanos(),
            None => scaled(a@, b@, unit as nat) > max_nanos(),
        },
{
    proof {
        lemma_scaled(a@, b@, unit as nat);
    }
    let cap: u128 = 0xffff_ffff_ffff_ffff * 1_000_000_000 + 999_999_999;
    match whole_nanos(a, unit) {
        None => None,
        Some(w) => {
            let f: u128 = fraction_nanos(b, unit);
            if w + f > cap {
                None
            } else {
                Some(w + f)
            }
        },
    }
}

proof fn lemma_number_len(s: Seq<char>)
    ensures
        0 <= number_len(s) <= s.len(),
        forall|j: int| 0 <= j < number_len(s) ==> in_number(#[trigger] s[j]),
    decreases s.len(),
{
    if s.len() > 0 && in_number(s[0]) {
        let t = s.skip(1);
        lemma_number_len(t);
        assert forall|j: int| 0 <= j < number_len(s) implies in_number(#[trigger] s[j]) by {
            if j > 0 {
                assert(t[j - 1] == s[j]);
            }
        }
    }
}

/// Reads the number at the start.
fn take_number(s: &[char]) -> (r: usize)
    ensures
        r == number_len(s@),
        r <= s@.len(),
{
    let mut i: usize = 0;
    proof {
        assert(s@.skip(0) =~= s@);
    }
    while i < s.len() && (char_is_digit(s[i]) || s[i] == '.')
        invariant
            i <= s.len(),
            number_len(s@) == i + number_len(s@.skip(i as int)),
        decreases s.len() - i,
    {
        proof {
            assert(s@.skip(i as int).skip(1) =~= s@.skip(i + 1));
        }
        i = i + 1;
    }
    i
}

/// Reads the letters at the start.
fn take_letters(s: &[char]) -> (r: usize)
    ensures
        r == letters_len(s@),
        r <= s@.len(),
{
    let mut i: usize = 0;
    proof {
        assert(s@.skip(0) =~= s@);
    }
    while i < s.len() && char_is_letter(s[i])
        invariant
            i <= s.len(),
            letters_len(s@) == i + letters_len(s@.skip(i as int)),
        decreases s.len() - i,
    {
        proof {
            assert(s@.skip(i as int).skip(1) =~= s@.skip(i + 1));
        }
        i = i + 1;
    }
    i
}

/// What a run of number characters splits into holds digits alone.
proof fn lemma_parts_are_digits(num: Seq<char>)
    requires
        forall|j: int| 0 <= j < num.len() ==> in_number(#[trigger] num[j]),
        number_parts(num) is Some,
    ensures
        forall|i: int|
            0 <= i < number_parts(num)->Some_0.0.len() ==> text::is_digit(
                #[trigger] number_parts(num)->Some_0.0[i],
            ),
        forall|i: int|
            0 <= i < number_parts(num)->Some_0.1.len() ==> text::is_digit(
                #[trigger] number_parts(num)->Some_0.1[i],
            ),
{
    text::lemma_first_index(num, '.');
    let (a, b) = number_parts(num)->Some_0;
    assert forall|i: int| 0 <= i < a.len() implies text::is_digit(#[trigger] a[i]) by {
        assert(a[i] == num[i]);
        assert(in_number(num[i]));
    }
    assert forall|i: int| 0 <= i < b.len() implies text::is_digit(#[trigger] b[i]) by {
        let k = text::first_index(num, '.');
        assert(b[i] == num[k + 1 + i]);
        assert(in_number(num[k + 1 + i]));
        if b[i] == '.' {
            assert(b.contains('.'));
        }
    }
}

/// Adds up the components of a composite duration.
fn read_components(s: &[char], default_unit: u128) -> (r: Result<u128, String>)
    requires
        default_unit <= 0xffff_ffff_ffff_ffff * 1_000_000_000,
    ensures
        match r {
            Ok(n) => components(s@, default_unit as nat, 0) == Ok::<nat, Seq<char>>(n as nat) && n
                <= max_nanos(),
            Err(e) => components(s@, default_unit as nat, 0) == Err::<nat, Seq<char>>(e@),
        },
{
    let cap: u128 = 0xffff_ffff_ffff_ffff * 1_000_000_000 + 999_999_999;
    let mut rest: &[char] = s;
    let mut total: u128 = 0;
    while rest.len() > 0
        invariant
            default_unit <= 0xffff_ffff_ffff_ffff * 1_000_000_000,
            cap == max_nanos(),
            total <= cap,
            components(s@, default_unit as nat, 0) == components(
                rest@,
                default_unit as nat,
                total as nat,
            ),
        decreases rest@.len(),
    {
        if char_is_space(rest[0]) {
            proof {
                assert(rest@.skip(1) =~= rest@.subrange(1, rest@.len() as int));
            }
            rest = slice_subrange(rest, 1, rest.len());
            continue;
        }
        let n: usize = take_number(rest);
        if n == 0 {
            let mut m = "expected digit, got ".to_owned();
            m.append(debug_char(rest[0]).as_str());
            return Err(m);
        }
        let num = slice_subrange(rest, 0, n);
        let ghost before = rest@;
        proof {
            lemma_number_len(rest@);
            assert(num@ =~= rest@.take(n as int));
            assert forall|j: int| 0 <= j < num@.len() implies in_number(#[trigger] num@[j]) by {
                assert(num@[j] == rest@[j]);
            }
        }
        match split_number(num) {
            None => {
                let mut m = "bad number ".to_owned();
                m.append(debug_text(string_of(num).as_str()).as_str());
                return Err(m);
            },
            Some((a, b)) => {
                proof {
                    lemma_parts_are_digits(num@);
                    assert(rest@.skip(n as int) =~= rest@.subrange(n as int, rest@.len() as int));
                }
                let tail = trim_start(slice_subrange(rest, n, rest.len()));
                let m: usize = take_letters(tail);
                let name = slice_subrange(tail, 0, m);
                proof {
                    assert(name@ =~= tail@.take(m as int));
                    assert(tail@.skip(m as int) =~= tail@.subrange(m as int, tail@.len() as int));
                }
                let unit: u128 = if m == 0 {
                    default_unit
                } else {
                    match unit_to_nanos(name) {
                        Some(u) => u,
                        None => {
                            let mut e = "unknown unit ".to_owned();
                            e.append(debug_text(string_of(name).as_str()).as_str());
                            return Err(e);
                        },
                    }
                };
                match scaled_nanos(a, b, unit) {
                    None => {
                        return Err("overflow".to_owned());
                    },
                    Some(added) => {
                        if total + added > cap {
                            return Err("overflow".to_owned());
                        }
                        total = total + added;
                        rest = slice_subrange(tail, m, tail.len());
                    },
                }
            },
        }
    }
    Ok(total)
}

/// Parse a systemd-style duration string. `default_unit_secs` is the unit
/// applied to bare numeric values (typically 1 for `*Sec=` directives).
pub fn parse_duration(input: &str, default_unit_secs: u64) -> (r: Result<SdDuration, String>)
    ensures
        duration_result(r) == duration_of(input@, default_unit_secs),
        r is Ok ==> r->Ok_0.wf(),
{
    let v = chars_of(input);
    let s = trim(v.as_slice());
    let low = to_lower(s);
    if is_str(low.as_slice(), "infinity") {
        return Ok(SdDuration::Infinity);
    }
    if s.len() == 0 {
        return Err("empty duration".to_owned());
    }
    let mut i: usize = 0;
    while i < s.len() && char_is_digit(s[i])
        invariant
            i <= s.len(),
            forall|j: int| 0 <= j < i ==> text::is_digit(#[trigger] s@[j]),
        decreases s.len() - i,
    {
        i = i + 1;
    }
    if i == s.len() {
        return match parse_u64(s) {
            Ok(n) => {
                let secs: u64 = match n.checked_mul(default_unit_secs) {
                    Some(p) => p,
                    None => 0xffff_ffff_ffff_ffff,
                };
                Ok(SdDuration::Finite(TimeSpan { secs, nanos: 0 }))
            },
            Err(e) => Err(e.message().to_owned()),
        };
    }
    proof {
        assert(!text::is_digit(s@[i as int]));
    }
    match read_components(s, default_unit_secs as u128 * 1_000_000_000) {
        Ok(n) => Ok(SdDuration::Finite(TimeSpan::from_nanos(n))),
        Err(e) => Err(e),
    }
}

} // verus!
