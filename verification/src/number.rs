//! Integers in text: reading them as the standard library does, and writing
//! them in decimal.

use crate::text;
use crate::text::string_of;
use vstd::prelude::*;
use vstd::slice::slice_subrange;

verus! {

/// Why a text is not an integer of the wanted range.
#[derive(Debug, Clone, Copy, PartialEq, Eq, Structural)]
pub enum IntError {
    /// There is nothing to read.
    Empty,
    /// A character is no digit of the radix.
    InvalidDigit,
    /// The value is above the range.
    PosOverflow,
    /// The value is below the range.
    NegOverflow,
}

/// The description of an integer error.
pub open spec fn int_error_text(e: IntError) -> Seq<char> {
    match e {
        IntError::Empty => "cannot parse integer from empty string"@,
        IntError::InvalidDigit => "invalid digit found in string"@,
        IntError::PosOverflow => "number too large to fit in target type"@,
        IntError::NegOverflow => "number too small to fit in target type"@,
    }
}

impl IntError {
    /// The description of the error.
    pub fn message(self) -> (r: &'static str)
        ensures
            r@ == int_error_text(self),
    {
        match self {
            IntError::Empty => "cannot parse integer from empty string",
            IntError::InvalidDigit => "invalid digit found in string",
            IntError::PosOverflow => "number too large to fit in target type",
            IntError::NegOverflow => "number too small to fit in target type",
        }
    }
}

/// Whether the character is a digit of the radix (at most ten).
pub open spec fn digit_in(c: char, radix: nat) -> bool {
    48 <= (c as u32) && (c as u32) < 48 + radix
}

/// The value that a digit stands for.
pub open spec fn digit_value(c: char) -> nat {
    (c as u32 - 48) as nat
}

/// The value of a run of digits.
pub open spec fn digits_value(s: Seq<char>, radix: nat) -> nat
    decreases s.len(),
{
    if s.len() == 0 {
        0
    } else {
        digits_value(s.drop_last(), radix) * radix + digit_value(s.last())
    }
}

/// The number of digits at the start of the text.
pub open spec fn digits_run(s: Seq<char>, radix: nat) -> int
    decreases s.len(),
{
    if s.len() == 0 || !digit_in(s[0], radix) {
        0
    } else {
        1 + digits_run(s.skip(1), radix)
    }
}

/// The value of a text of digits alone, up to `max`; `over` where the leading
/// digits already exceed it.
pub open spec fn digits_of(s: Seq<char>, radix: nat, max: nat, over: IntError) -> Result<
    nat,
    IntError,
> {
    let n = digits_run(s, radix);
    if digits_value(s.take(n), radix) > max {
        Err(over)
    } else if n < s.len() {
        Err(IntError::InvalidDigit)
    } else {
        Ok(digits_value(s, radix))
    }
}

/// A text that is a sign alone.
pub open spec fn lone_sign(s: Seq<char>) -> bool {
    s.len() == 1 && (s[0] == '+' || s[0] == '-')
}

/// The unsigned integer that a text stands for: digits, after an optional `+`.
pub open spec fn uint_of(s: Seq<char>, radix: nat, max: nat) -> Result<nat, IntError> {
    if s.len() == 0 {
        Err(IntError::Empty)
    } else if lone_sign(s) {
        Err(IntError::InvalidDigit)
    } else if s[0] == '+' {
        digits_of(s.skip(1), radix, max, IntError::PosOverflow)
    } else {
        digits_of(s, radix, max, IntError::PosOverflow)
    }
}

/// The signed integer that a text stands for: digits, after an optional sign.
pub open spec fn int_of(s: Seq<char>, max: nat) -> Result<int, IntError> {
    if s.len() == 0 {
        Err(IntError::Empty)
    } else if lone_sign(s) {
        Err(IntError::InvalidDigit)
    } else if s[0] == '-' {
        match digits_of(s.skip(1), 10, max + 1, IntError::NegOverflow) {
            Ok(n) => Ok(-(n as int)),
            Err(e) => Err(e),
        }
    } else {
        match uint_of(s, 10, max) {
            Ok(n) => Ok(n as int),
            Err(e) => Err(e),
        }
    }
}

pub proof fn lemma_digits_run(s: Seq<char>, radix: nat)
    ensures
        0 <= digits_run(s, radix) <= s.len(),
        forall|j: int| 0 <= j < digits_run(s, radix) ==> digit_in(s[j], radix),
        digits_run(s, radix) < s.len() ==> !digit_in(s[digits_run(s, radix)], radix),
    decreases s.len(),
{
    if s.len() > 0 && digit_in(s[0], radix) {
        let t = s.skip(1);
        lemma_digits_run(t, radix);
        assert forall|j: int| 0 <= j < digits_run(s, radix) implies digit_in(s[j], radix) by {
            if j > 0 {
                assert(t[j - 1] == s[j]);
            }
        }
        if digits_run(s, radix) < s.len() {
            assert(t[digits_run(t, radix)] == s[digits_run(s, radix)]);
        }
    }
}

proof fn lemma_digits_run_is(s: Seq<char>, radix: nat, i: int)
    requires
        0 <= i <= s.len(),
        forall|j: int| 0 <= j < i ==> digit_in(s[j], radix),
        i < s.len() ==> !digit_in(s[i], radix),
    ensures
        digits_run(s, radix) == i,
{
    lemma_digits_run(s, radix);
    let n = digits_run(s, radix);
    if n < i {
        assert(digit_in(s[n], radix));
    } else if i < n {
        assert(digit_in(s[i], radix));
    }
}

pub proof fn lemma_digits_value_grows(s: Seq<char>, radix: nat, i: int, j: int)
    requires
        0 <= i <= j <= s.len(),
        radix >= 1,
    ensures
        digits_value(s.take(i), radix) <= digits_value(s.take(j), radix),
    decreases j - i,
{
    if i < j {
        lemma_digits_value_grows(s, radix, i, j - 1);
        assert(s.take(j).drop_last() =~= s.take(j - 1));
        let a = digits_value(s.take(j - 1), radix);
        assert(a <= a * radix) by (nonlinear_arith)
            requires
                radix >= 1,
                a >= 0,
        ;
    }
}

/// Reads digits alone.
fn parse_digits(s: &[char], radix: u32, max: u64, over: IntError) -> (r: Result<u64, IntError>)
    requires
        2 <= radix <= 10,
    ensures
        match r {
            Ok(n) => digits_of(s@, radix as nat, max as nat, over) == Ok::<nat, IntError>(n as nat),
            Err(e) => digits_of(s@, radix as nat, max as nat, over) == Err::<nat, IntError>(e),
        },
        r is Ok ==> r->Ok_0 <= max,
{
    let mut acc: u64 = 0;
    let mut i: usize = 0;
    let ghost rx = radix as nat;
    proof {
        assert(digits_value(s@.take(0), rx) == 0);
    }
    while i < s.len()
        invariant
            2 <= radix <= 10,
            rx == radix as nat,
            i <= s.len(),
            acc <= max,
            acc == digits_value(s@.take(i as int), rx),
            forall|j: int| 0 <= j < i ==> digit_in(s@[j], rx),
        decreases s.len() - i,
    {
        let c: u32 = s[i] as u32;
        if c < 48 || c - 48 >= radix {
            proof {
                lemma_digits_run_is(s@, rx, i as int);
            }
            return Err(IntError::InvalidDigit);
        }
        let d: u64 = (c - 48) as u64;
        proof {
            assert(s@.take(i + 1).drop_last() =~= s@.take(i as int));
            assert(acc * rx <= 0xffff_ffff_ffff_ffff * 10) by (nonlinear_arith)
                requires
                    0 <= acc <= 0xffff_ffff_ffff_ffff,
                    0 <= rx <= 10,
            ;
        }
        let next: u128 = acc as u128 * radix as u128 + d as u128;
        if next > max as u128 {
            proof {
                lemma_digits_run(s@, rx);
                let n = digits_run(s@, rx);
                if n < i + 1 {
                    assert(digit_in(s@[n], rx));
                }
                lemma_digits_value_grows(s@, rx, i + 1, n);
            }
            return Err(over);
        }
        acc = next as u64;
        i = i + 1;
    }
    proof {
        lemma_digits_run_is(s@, rx, s@.len() as int);
        assert(s@.take(s@.len() as int) =~= s@);
    }
    Ok(acc)
}

/// Reads an unsigned integer of at most `max`.
pub fn parse_uint(s: &[char], radix: u32, max: u64) -> (r: Result<u64, IntError>)
    requires
        2 <= radix <= 10,
    ensures
        match r {
            Ok(n) => uint_of(s@, radix as nat, max as nat) == Ok::<nat, IntError>(n as nat),
            Err(e) => uint_of(s@, radix as nat, max as nat) == Err::<nat, IntError>(e),
        },
        r is Ok ==> r->Ok_0 <= max,
{
    if s.len() == 0 {
        return Err(IntError::Empty);
    }
    if s.len() == 1 && (s[0] == '+' || s[0] == '-') {
        return Err(IntError::InvalidDigit);
    }
    if s[0] == '+' {
        proof {
            assert(s@.skip(1) =~= s@.subrange(1, s@.len() as int));
        }
        parse_digits(slice_subrange(s, 1, s.len()), radix, max, IntError::PosOverflow)
    } else {
        parse_digits(s, radix, max, IntError::PosOverflow)
    }
}

/// Reads a signed integer between `-max - 1` and `max`.
pub fn parse_int(s: &[char], max: u64) -> (r: Result<i128, IntError>)
    requires
        max <= 0x7fff_ffff_ffff_ffff,
    ensures
        match r {
            Ok(n) => int_of(s@, max as nat) == Ok::<int, IntError>(n as int),
            Err(e) => int_of(s@, max as nat) == Err::<int, IntError>(e),
        },
        r is Ok ==> -(max as int) - 1 <= r->Ok_0 <= max,
{
    if s.len() > 1 && s[0] == '-' {
        proof {
            assert(s@.skip(1) =~= s@.subrange(1, s@.len() as int));
        }
        match parse_digits(slice_subrange(s, 1, s.len()), 10, max + 1, IntError::NegOverflow) {
            Ok(n) => Ok(-(n as i128)),
            Err(e) => Err(e),
        }
    } else {
        match parse_uint(s, 10, max) {
            Ok(n) => Ok(n as i128),
            Err(e) => Err(e),
        }
    }
}

/// Reads a `u8`.
pub fn parse_u8(s: &[char]) -> (r: Result<u8, IntError>)
    ensures
        match r {
            Ok(n) => uint_of(s@, 10, 0xff) == Ok::<nat, IntError>(n as nat),
            Err(e) => uint_of(s@, 10, 0xff) == Err::<nat, IntError>(e),
        },
{
    match parse_uint(s, 10, 0xff) {
        Ok(n) => Ok(n as u8),
        Err(e) => Err(e),
    }
}

/// Reads a `u16`.
pub fn parse_u16(s: &[char]) -> (r: Result<u16, IntError>)
    ensures
        match r {
            Ok(n) => uint_of(s@, 10, 0xffff) == Ok::<nat, IntError>(n as nat),
            Err(e) => uint_of(s@, 10, 0xffff) == Err::<nat, IntError>(e),
        },
{
    match parse_uint(s, 10, 0xffff) {
        Ok(n) => Ok(n as u16),
        Err(e) => Err(e),
    }
}

/// Reads a `u32`.
pub fn parse_u32(s: &[char]) -> (r: Result<u32, IntError>)
    ensures
        match r {
            Ok(n) => uint_of(s@, 10, 0xffff_ffff) == Ok::<nat, IntError>(n as nat),
            Err(e) => uint_of(s@, 10, 0xffff_ffff) == Err::<nat, IntError>(e),
        },
{
    match parse_uint(s, 10, 0xffff_ffff) {
        Ok(n) => Ok(n as u32),
        Err(e) => Err(e),
    }
}

/// Reads a `u64`.
pub fn parse_u64(s: &[char]) -> (r: Result<u64, IntError>)
    ensures
        match r {
            Ok(n) => uint_of(s@, 10, 0xffff_ffff_ffff_ffff) == Ok::<nat, IntError>(n as nat),
            Err(e) => uint_of(s@, 10, 0xffff_ffff_ffff_ffff) == Err::<nat, IntError>(e),
        },
{
    parse_uint(s, 10, 0xffff_ffff_ffff_ffff)
}

/// Reads a `u32` in octal.
pub fn parse_octal(s: &[char]) -> (r: Result<u32, IntError>)
    ensures
        match r {
            Ok(n) => uint_of(s@, 8, 0xffff_ffff) == Ok::<nat, IntError>(n as nat),
            Err(e) => uint_of(s@, 8, 0xffff_ffff) == Err::<nat, IntError>(e),
        },
{
    match parse_uint(s, 8, 0xffff_ffff) {
        Ok(n) => Ok(n as u32),
        Err(e) => Err(e),
    }
}

/// Reads an `i32`.
pub fn parse_i32(s: &[char]) -> (r: Result<i32, IntError>)
    ensures
        match r {
            Ok(n) => int_of(s@, 0x7fff_ffff) == Ok::<int, IntError>(n as int),
            Err(e) => int_of(s@, 0x7fff_ffff) == Err::<int, IntError>(e),
        },
{
    match parse_int(s, 0x7fff_ffff) {
        Ok(n) => Ok(n as i32),
        Err(e) => Err(e),
    }
}

/// Reads an `i64`.
pub fn parse_i64(s: &[char]) -> (r: Result<i64, IntError>)
    ensures
        match r {
            Ok(n) => int_of(s@, 0x7fff_ffff_ffff_ffff) == Ok::<int, IntError>(n as int),
            Err(e) => int_of(s@, 0x7fff_ffff_ffff_ffff) == Err::<int, IntError>(e),
        },
{
    match parse_int(s, 0x7fff_ffff_ffff_ffff) {
        Ok(n) => Ok(n as i64),
        Err(e) => Err(e),
    }
}

// ---------------------------------------------------------------------
// Decimal form
// ---------------------------------------------------------------------

/// The character of a digit below ten.
pub open spec fn digit_char(d: nat) -> char {
    (48 + d) as char
}

/// The decimal form of a number.
pub open spec fn decimal(n: nat) -> Seq<char>
    decreases n,
{
    if n < 10 {
        seq![digit_char(n)]
    } else {
        decimal(n / 10).push(digit_char(n % 10))
    }
}

/// The character of a digit.
pub fn char_of_digit(d: u128) -> (r: char)
    requires
        d < 10,
    ensures
        r == digit_char(d as nat),
{
    let b: u8 = (48 + d) as u8;
    b as char
}

/// The decimal form of a number, as characters.
pub fn decimal_chars(n: u128) -> (r: Vec<char>)
    ensures
        r@ == decimal(n as nat),
    decreases n,
{
    if n < 10 {
        let mut v: Vec<char> = Vec::new();
        v.push(char_of_digit(n));
        proof {
            assert(v@ =~= seq![digit_char(n as nat)]);
        }
        v
    } else {
        let mut v = decimal_chars(n / 10);
        v.push(char_of_digit(n % 10));
        v
    }
}

/// The decimal form of a large number.
pub fn large_decimal_string(n: u128) -> (r: String)
    ensures
        r@ == decimal(n as nat),
{
    let v = decimal_chars(n);
    string_of(v.as_slice())
}

/// The decimal form of a number.
pub fn decimal_string(n: u64) -> (r: String)
    ensures
        r@ == decimal(n as nat),
{
    large_decimal_string(n as u128)
}

/// Reading the decimal form of a number gives the number back.
pub proof fn decimal_reads_back(n: nat, max: nat)
    requires
        n <= max,
    ensures
        uint_of(decimal(n), 10, max) == Ok::<nat, IntError>(n),
{
    lemma_decimal_digits(n);
    let s = decimal(n);
    assert(digit_in(s[0], 10));
    lemma_digits_run_is(s, 10, s.len() as int);
    assert(s.take(s.len() as int) =~= s);
}

pub proof fn lemma_decimal_digits(n: nat)
    ensures
        decimal(n).len() > 0,
        forall|i: int| 0 <= i < decimal(n).len() ==> digit_in(decimal(n)[i], 10),
        digits_value(decimal(n), 10) == n,
    decreases n,
{
    if n < 10 {
        let s = decimal(n);
        assert(s.drop_last() =~= seq![]);
        assert(digits_value(s.drop_last(), 10) == 0);
    } else {
        lemma_decimal_digits(n / 10);
        let s = decimal(n);
        assert(s.drop_last() =~= decimal(n / 10));
    }
}

/// The decimal form of a signed number.
pub open spec fn signed_decimal(n: int) -> Seq<char> {
    if n < 0 {
        seq!['-'] + decimal((-n) as nat)
    } else {
        decimal(n as nat)
    }
}

/// The decimal form of a signed number.
pub fn signed_string(n: i64) -> (r: String)
    ensures
        r@ == signed_decimal(n as int),
{
    if n < 0 {
        let mut out = String::new();
        out.push('-');
        let rest: u64 = (-(n as i128)) as u64;
        out.append(decimal_string(rest).as_str());
        proof {
            assert(out@ =~= seq!['-'] + decimal((-n) as nat));
        }
        out
    } else {
        decimal_string(n as u64)
    }
}

/// Reading the decimal form of a signed number gives the number back.
pub proof fn signed_decimal_reads_back(n: int, max: nat)
    requires
        -(max as int) - 1 <= n <= max,
    ensures
        int_of(signed_decimal(n), max) == Ok::<int, IntError>(n),
{
    if n < 0 {
        let d = decimal((-n) as nat);
        let s = signed_decimal(n);
        lemma_decimal_digits((-n) as nat);
        assert(s.skip(1) =~= d);
        assert(d.len() >= 1);
        assert(digit_in(d[0], 10));
        lemma_digits_run_is(d, 10, d.len() as int);
        assert(d.take(d.len() as int) =~= d);
        assert(digits_of(d, 10, max + 1, IntError::NegOverflow) == Ok::<nat, IntError>((-n) as nat));
    } else {
        lemma_decimal_digits(n as nat);
        let d = decimal(n as nat);
        assert(digit_in(d[0], 10));
        decimal_reads_back(n as nat, max);
    }
}

/// The decimal form of a number has no white space to trim.
pub proof fn signed_decimal_is_trimmed(n: int)
    ensures
        text::trimmed(signed_decimal(n)) == signed_decimal(n),
{
    let s = signed_decimal(n);
    let m = if n < 0 {
        (-n) as nat
    } else {
        n as nat
    };
    let d = decimal(m);
    lemma_decimal_digits(m);
    assert(d.len() >= 1);
    assert(digit_in(d[0], 10));
    assert(digit_in(d[d.len() - 1], 10));
    assert(s.last() == d.last());
    text::lemma_trimmed_same(s);
}

} // verus!
