//! What durations amount to.

use crate::number;
use crate::text;
use crate::unit::duration;
use crate::unit::duration::SdDuration;
use crate::unit::spelling;
use vstd::prelude::*;

verus! {

/// Each word for a unit of time, in either case, is as long as it says; a month is
/// a twelfth of a year, which has 365.25 days. A lone `M` is a month, and a lone
/// `m` a minute.
pub proof fn units_are_as_long_as_they_say(u: Seq<char>)
    ensures
        ({
            let l = text::lowered(u);
            let n = duration::unit_nanos(u);
            let second: nat = 1_000_000_000;
            &&& u == "M"@ ==> n == Some((2_630_016 * second) as nat)
            &&& u != "M"@ ==> {
                &&& l == "ns"@ || l == "nsec"@ ==> n == Some(1nat)
                &&& l == "us"@ || l == "usec"@ ==> n == Some((second / 1_000_000) as nat)
                &&& l == "ms"@ || l == "msec"@ ==> n == Some((second / 1_000) as nat)
                &&& l == "s"@ || l == "sec"@ || l == "second"@ || l == "seconds"@ ==> n == Some(
                    second,
                )
                &&& l == "m"@ || l == "min"@ || l == "minute"@ || l == "minutes"@ ==> n == Some(
                    (60 * second) as nat,
                )
                &&& l == "h"@ || l == "hr"@ || l == "hour"@ || l == "hours"@ ==> n == Some(
                    (60 * 60 * second) as nat,
                )
                &&& l == "d"@ || l == "day"@ || l == "days"@ ==> n == Some(
                    (24 * 60 * 60 * second) as nat,
                )
                &&& l == "w"@ || l == "week"@ || l == "weeks"@ ==> n == Some(
                    (7 * 24 * 60 * 60 * second) as nat,
                )
                &&& l == "month"@ || l == "months"@ ==> n == Some((2_630_016 * second) as nat)
                &&& l == "y"@ || l == "year"@ || l == "years"@ ==> n == Some(
                    (31_557_600 * second) as nat,
                )
            }
        }),
{
    spelling::lemma_time_word_marks();
}

/// Whether the text is letters alone, and at least one.
pub open spec fn is_letters(u: Seq<char>) -> bool {
    &&& u.len() > 0
    &&& forall|i: int| 0 <= i < u.len() ==> text::is_letter(#[trigger] u[i])
}

proof fn lemma_letters_len(u: Seq<char>, rest: Seq<char>)
    requires
        forall|i: int| 0 <= i < u.len() ==> text::is_letter(#[trigger] u[i]),
        rest.len() == 0 || !text::is_letter(rest[0]),
    ensures
        duration::letters_len(u + rest) == u.len(),
    decreases u.len(),
{
    let s = u + rest;
    if u.len() == 0 {
        assert(s =~= rest);
    } else {
        assert(s[0] == u[0]);
        assert(s.skip(1) =~= u.skip(1) + rest);
        assert forall|i: int| 0 <= i < u.skip(1).len() implies text::is_letter(
            #[trigger] u.skip(1)[i],
        ) by {
            assert(u.skip(1)[i] == u[i + 1]);
        }
        lemma_letters_len(u.skip(1), rest);
    }
}

proof fn lemma_number_len(x: Seq<char>, rest: Seq<char>)
    requires
        forall|i: int| 0 <= i < x.len() ==> number::digit_in(#[trigger] x[i], 10),
        rest.len() == 0 || !duration::in_number(rest[0]),
    ensures
        duration::number_len(x + rest) == x.len(),
    decreases x.len(),
{
    let s = x + rest;
    if x.len() == 0 {
        assert(s =~= rest);
    } else {
        assert(s[0] == x[0]);
        assert(s.skip(1) =~= x.skip(1) + rest);
        assert forall|i: int| 0 <= i < x.skip(1).len() implies number::digit_in(
            #[trigger] x.skip(1)[i],
            10,
        ) by {
            assert(x.skip(1)[i] == x[i + 1]);
        }
        lemma_number_len(x.skip(1), rest);
    }
}

proof fn lemma_whole(n: nat, k: nat)
    ensures
        duration::number_parts(number::decimal(n)) == Some(
            (number::decimal(n), Seq::<char>::empty()),
        ),
        duration::scaled(number::decimal(n), seq![], k) == n * k,
{
    let x = number::decimal(n);
    number::lemma_decimal_digits(n);
    assert forall|i: int| 0 <= i < x.len() implies x[i] != '.' by {
        assert(number::digit_in(x[i], 10));
    }
    text::lemma_first_index_is(x, '.', x.len() as int);
    assert(x + Seq::<char>::empty() =~= x);
    assert(duration::pow10(0) == 1);
    assert((n * k) / 1 == n * k);
}

/// A number and its unit add their product to what comes before, and the rest of
/// the text goes on from there.
proof fn lemma_component(n: nat, u: Seq<char>, k: nat, rest: Seq<char>, d: nat, total: nat)
    requires
        is_letters(u),
        duration::unit_nanos(u) == Some(k),
        rest.len() == 0 || !text::is_letter(rest[0]),
        total + n * k <= duration::max_nanos(),
    ensures
        duration::components(number::decimal(n) + u + rest, d, total) == duration::components(
            rest,
            d,
            (total + n * k) as nat,
        ),
{
    let x = number::decimal(n);
    let s = x + u + rest;
    number::lemma_decimal_digits(n);
    lemma_whole(n, k);
    assert(number::digit_in(x[0], 10));
    assert(s[0] == x[0]);
    assert(text::is_letter(u[0]));
    let tail = u + rest;
    assert(s =~= x + tail);
    assert(tail[0] == u[0]);
    lemma_number_len(x, tail);
    let i = x.len() as int;
    assert(s.take(i) =~= x);
    assert(s.skip(i) =~= tail);
    assert(text::trimmed_start(tail) == tail);
    lemma_letters_len(u, rest);
    assert(tail.take(u.len() as int) =~= u);
    assert(tail.skip(u.len() as int) =~= rest);
}

/// A number with a unit amounts to that many of the unit.
pub proof fn a_number_counts_its_unit(n: nat, u: Seq<char>, k: nat, d: u64)
    requires
        is_letters(u),
        duration::unit_nanos(u) == Some(k),
        n * k <= duration::max_nanos(),
    ensures
        duration::duration_of(number::decimal(n) + u, d) == Ok::<SdDuration, Seq<char>>(
            SdDuration::Finite(duration::span_of(n * k)),
        ),
{
    let x = number::decimal(n);
    let s = x + u;
    lemma_starts_with_digit(n, u);
    assert(s + Seq::<char>::empty() =~= s);
    assert(text::is_letter(s[s.len() - 1])) by {
        assert(s[s.len() - 1] == u[u.len() - 1]);
    }
    text::lemma_trimmed_same(s);
    assert(!text::is_digit(s[s.len() - 1]));
    lemma_component(n, u, k, seq![], (d * 1_000_000_000) as nat, 0);
}

proof fn lemma_starts_with_digit(n: nat, t: Seq<char>)
    ensures
        ({
            let s = number::decimal(n) + t;
            s.len() > 0 && !text::is_space(s[0]) && text::lowered(s) != "infinity"@
        }),
{
    let x = number::decimal(n);
    let s = x + t;
    number::lemma_decimal_digits(n);
    assert(number::digit_in(x[0], 10));
    assert(s[0] == x[0]);
    reveal_strlit("infinity");
    assert(text::lowered(s)[0] == text::lower_char(s[0]));
    assert("infinity"@[0] == 'i');
}

/// Two numbers with their units, with a space between them, amount to their sum.
pub proof fn components_add_up(n: nat, u: Seq<char>, k: nat, n2: nat, u2: Seq<char>, k2: nat, d: u64)
    requires
        is_letters(u),
        is_letters(u2),
        duration::unit_nanos(u) == Some(k),
        duration::unit_nanos(u2) == Some(k2),
        n * k + n2 * k2 <= duration::max_nanos(),
    ensures
        duration::duration_of(
            number::decimal(n) + u + (seq![' '] + (number::decimal(n2) + u2)),
            d,
        ) == Ok::<SdDuration, Seq<char>>(
            SdDuration::Finite(duration::span_of((n * k + n2 * k2) as nat)),
        ),
{
    let y = number::decimal(n2) + u2;
    let rest = seq![' '] + y;
    let s = number::decimal(n) + u + rest;
    let unit = (d * 1_000_000_000) as nat;
    lemma_starts_with_digit(n, u + rest);
    assert(s =~= number::decimal(n) + (u + rest));
    assert(s[s.len() - 1] == u2[u2.len() - 1]);
    assert(text::is_letter(s[s.len() - 1]));
    text::lemma_trimmed_same(s);
    assert(!text::is_digit(s[s.len() - 1]));
    assert(0 <= n2 * k2) by (nonlinear_arith);
    lemma_component(n, u, k, rest, unit, 0);
    assert(rest[0] == ' ');
    assert(rest.skip(1) =~= y);
    assert(duration::components(rest, unit, n * k) == duration::components(y, unit, n * k));
    assert(y + Seq::<char>::empty() =~= y);
    lemma_component(n2, u2, k2, seq![], unit, n * k);
}

/// A number alone counts the default unit, up to the largest span there is.
pub proof fn a_number_alone_counts_the_default_unit(n: u64, d: u64)
    ensures
        duration::duration_of(number::decimal(n as nat), d) matches Ok(SdDuration::Finite(t)) && t.nanos
            == 0 && t.secs == if n * d <= 0xffff_ffff_ffff_ffff {
            n * d
        } else {
            0xffff_ffff_ffff_ffff
        },
{
    let x = number::decimal(n as nat);
    number::lemma_decimal_digits(n as nat);
    number::decimal_reads_back(n as nat, 0xffff_ffff_ffff_ffff);
    lemma_starts_with_digit(n as nat, seq![]);
    assert(x + Seq::<char>::empty() =~= x);
    assert(number::digit_in(x[x.len() - 1], 10));
    text::lemma_trimmed_same(x);
    assert forall|i: int| 0 <= i < x.len() implies text::is_digit(#[trigger] x[i]) by {
        assert(number::digit_in(x[i], 10));
    }
}

/// A span is as long as the nanoseconds it is made of.
pub proof fn spans_add_up(n: nat)
    requires
        n <= duration::max_nanos(),
    ensures
        duration::span_of(n).total() == n,
        duration::span_of(n).nanos < 1_000_000_000,
        duration::span_of(n).secs * 1_000_000_000 + duration::span_of(n).nanos == n,
{
}

} // verus!
