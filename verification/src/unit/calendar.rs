//! systemd `OnCalendar=` parsing.
//!
//! Implements a usable subset of `man systemd.time` calendar events:
//! shortcuts (`hourly`, `daily`, `weekly`, …), weekday prefixes, date and
//! time fields with `*` wildcards, `,` lists, `..` ranges, and `/N` steps.

use crate::number;
use crate::number::{decimal_string, parse_u32};
use crate::text;
use crate::text::{
    char_is_letter, chars_of, contains, debug_text, is_str, split, split_pair, split_items,
    split_once, string_of, trim,
};
use vstd::prelude::*;
use vstd::slice::slice_subrange;

verus! {

/// Per-field set of allowed values, after wildcard / list / range / step
/// expansion. `None` means wildcard (any).
#[derive(Debug, PartialEq, Eq)]
pub struct FieldSet {
    /// `None` means wildcard. Otherwise a sorted, deduplicated list of values.
    pub values: Option<Vec<u32>>,
}

impl View for FieldSet {
    type V = Option<Seq<u32>>;

    open spec fn view(&self) -> Option<Seq<u32>> {
        match self.values {
            Some(v) => Some(v@),
            None => None,
        }
    }
}

/// Whether a field allows a value.
pub open spec fn field_allows(f: Option<Seq<u32>>, v: u32) -> bool {
    match f {
        None => true,
        Some(vs) => vs.contains(v),
    }
}

/// Whether a list is in strictly ascending order.
pub open spec fn ascends(vs: Seq<u32>) -> bool {
    forall|i: int, j: int| 0 <= i < j < vs.len() ==> #[trigger] vs[i] < #[trigger] vs[j]
}

impl Clone for FieldSet {
    fn clone(&self) -> (r: Self)
        ensures
            r@ == self@,
    {
        match &self.values {
            None => FieldSet { values: None },
            Some(v) => {
                let mut out: Vec<u32> = Vec::new();
                let mut i: usize = 0;
                while i < v.len()
                    invariant
                        i <= v.len(),
                        out@ =~= v@.take(i as int),
                    decreases v.len() - i,
                {
                    out.push(v[i]);
                    i = i + 1;
                }
                proof {
                    assert(v@.take(v@.len() as int) =~= v@);
                }
                FieldSet { values: Some(out) }
            },
        }
    }
}

impl FieldSet {
    /// Wildcard.
    pub fn any() -> (r: Self)
        ensures
            r@ is None,
    {
        FieldSet { values: None }
    }

    /// Single value.
    pub fn single(v: u32) -> (r: Self)
        ensures
            r@ == Some(seq![v]),
    {
        let mut out: Vec<u32> = Vec::new();
        out.push(v);
        proof {
            assert(out@ =~= seq![v]);
        }
        FieldSet { values: Some(out) }
    }

    /// Whether this set matches `v`.
    pub fn matches(&self, v: u32) -> (r: bool)
        ensures
            r == field_allows(self@, v),
    {
        match &self.values {
            None => true,
            Some(vs) => {
                let mut i: usize = 0;
                while i < vs.len()
                    invariant
                        i <= vs.len(),
                        self@ == Some(vs@),
                        forall|j: int| 0 <= j < i ==> #[trigger] vs@[j] != v,
                    decreases vs.len() - i,
                {
                    if vs[i] == v {
                        return true;
                    }
                    i = i + 1;
                }
                false
            },
        }
    }
}

/// Parsed `OnCalendar=` value.
#[derive(Debug, PartialEq, Eq)]
pub struct CalendarSpec {
    /// Day-of-week mask, 1=Mon..7=Sun. Wildcard = any day.
    pub weekdays: FieldSet,
    /// Year (`*` allowed).
    pub year: FieldSet,
    /// Month 1..=12.
    pub month: FieldSet,
    /// Day-of-month 1..=31.
    pub day: FieldSet,
    /// Hour 0..=23.
    pub hour: FieldSet,
    /// Minute 0..=59.
    pub minute: FieldSet,
    /// Second 0..=59.
    pub second: FieldSet,
    /// Optional timezone string (e.g. `UTC`, `Europe/Berlin`).
    pub timezone: Option<String>,
    /// Original string for round-tripping.
    pub raw: String,
}

/// A [`CalendarSpec`] by its characters.
pub struct CalendarView {
    pub weekdays: Option<Seq<u32>>,
    pub year: Option<Seq<u32>>,
    pub month: Option<Seq<u32>>,
    pub day: Option<Seq<u32>>,
    pub hour: Option<Seq<u32>>,
    pub minute: Option<Seq<u32>>,
    pub second: Option<Seq<u32>>,
    pub timezone: Option<Seq<char>>,
    pub raw: Seq<char>,
}

impl View for CalendarSpec {
    type V = CalendarView;

    open spec fn view(&self) -> CalendarView {
        CalendarView {
            weekdays: self.weekdays@,
            year: self.year@,
            month: self.month@,
            day: self.day@,
            hour: self.hour@,
            minute: self.minute@,
            second: self.second@,
            timezone: text::opt_text(self.timezone),
            raw: self.raw@,
        }
    }
}

impl Clone for CalendarSpec {
    fn clone(&self) -> (r: Self)
        ensures
            r@ == self@,
    {
        let timezone: Option<String> = match &self.timezone {
            Some(t) => Some(t.clone()),
            None => None,
        };
        CalendarSpec {
            weekdays: self.weekdays.clone(),
            year: self.year.clone(),
            month: self.month.clone(),
            day: self.day.clone(),
            hour: self.hour.clone(),
            minute: self.minute.clone(),
            second: self.second.clone(),
            timezone,
            raw: self.raw.clone(),
        }
    }
}

/// The views of a list of calendar events.
pub open spec fn calendars_view(v: Seq<CalendarSpec>) -> Seq<CalendarView> {
    v.map_values(|c: CalendarSpec| c@)
}

// ---------------------------------------------------------------------
// Fields
// ---------------------------------------------------------------------

/// A range with a step.
pub struct Chunk {
    pub from: u32,
    pub to: u32,
    pub step: u32,
}

/// Whether a range with a step reaches a value.
pub open spec fn in_chunk(c: Chunk, v: int) -> bool {
    c.from <= v <= c.to && (v - c.from) % (c.step as int) == 0
}

/// Whether one of the ranges reaches a value.
pub open spec fn in_chunks(cs: Seq<Chunk>, v: int) -> bool {
    exists|i: int| 0 <= i < cs.len() && in_chunk(#[trigger] cs[i], v)
}

/// The values from `lo` up to `hi`, exclusive, that one of the ranges reaches,
/// in ascending order.
pub open spec fn chunk_values(cs: Seq<Chunk>, lo: int, hi: int) -> Seq<u32>
    decreases hi - lo,
{
    if hi <= lo {
        seq![]
    } else if in_chunks(cs, hi - 1) {
        chunk_values(cs, lo, hi - 1).push((hi - 1) as u32)
    } else {
        chunk_values(cs, lo, hi - 1)
    }
}

/// A number of a field.
pub open spec fn field_number(s: Seq<char>) -> Result<u32, Seq<char>> {
    match number::uint_of(s, 10, 0xffff_ffff) {
        Ok(n) => Ok(n as u32),
        Err(e) => Err(number::int_error_text(e)),
    }
}

/// The step of a chunk: what follows the first `/`, or one.
pub open spec fn chunk_step(chunk: Seq<char>) -> Result<u32, Seq<char>> {
    match text::split_at_first(chunk, '/') {
        Some((_, st)) => field_number(st),
        None => Ok(1),
    }
}

/// The range of a chunk: what stands before the first `/`.
pub open spec fn chunk_range(chunk: Seq<char>) -> Seq<char> {
    match text::split_at_first(chunk, '/') {
        Some((r, _)) => r,
        None => chunk,
    }
}

/// The bounds of a range: `*`, `A..B` or one value.
pub open spec fn range_bounds(range: Seq<char>, lo: u32, hi: u32) -> Result<
    (u32, u32),
    Seq<char>,
> {
    if range == "*"@ {
        Ok((lo, hi))
    } else {
        match text::split_at_pair(range, '.') {
            Some((a, b)) => match field_number(a) {
                Err(e) => Err(e),
                Ok(from) => match field_number(b) {
                    Err(e) => Err(e),
                    Ok(to) => Ok((from, to)),
                },
            },
            None => match field_number(range) {
                Err(e) => Err(e),
                Ok(v) => Ok((v, v)),
            },
        }
    }
}

/// The message for a range outside of its field.
pub open spec fn range_error(from: u32, to: u32, lo: u32, hi: u32) -> Seq<char> {
    "range "@ + number::decimal(from as nat) + ".."@ + number::decimal(to as nat) + " out of ["@
        + number::decimal(lo as nat) + ","@ + number::decimal(hi as nat) + "]"@
}

/// The range that one item of a list stands for.
pub open spec fn chunk_of(chunk: Seq<char>, lo: u32, hi: u32) -> Result<Chunk, Seq<char>> {
    match chunk_step(chunk) {
        Err(e) => Err(e),
        Ok(step) => match range_bounds(chunk_range(chunk), lo, hi) {
            Err(e) => Err(e),
            Ok((from, to)) => if from > to || from < lo || to > hi {
                Err(range_error(from, to, lo, hi))
            } else if step == 0 {
                Err("step zero"@)
            } else {
                Ok(Chunk { from, to, step })
            },
        },
    }
}

/// The ranges of a list, up to the first that is wrong.
pub open spec fn chunks_of(parts: Seq<Seq<char>>, lo: u32, hi: u32) -> Result<
    Seq<Chunk>,
    Seq<char>,
>
    decreases parts.len(),
{
    if parts.len() == 0 {
        Ok(seq![])
    } else {
        match chunks_of(parts.drop_last(), lo, hi) {
            Err(e) => Err(e),
            Ok(before) => match chunk_of(parts.last(), lo, hi) {
                Err(e) => Err(e),
                Ok(c) => Ok(before.push(c)),
            },
        }
    }
}

/// The values that a field of a date or a time allows.
pub open spec fn field_of(s: Seq<char>, lo: u32, hi: u32) -> Result<Option<Seq<u32>>, Seq<char>> {
    if s == "*"@ {
        Ok(None)
    } else {
        match chunks_of(text::split_parts(s, ','), lo, hi) {
            Err(e) => Err(e),
            Ok(cs) => Ok(Some(chunk_values(cs, lo as int, hi + 1))),
        }
    }
}

/// The view of a parsed field.
pub open spec fn field_result(r: Result<FieldSet, String>) -> Result<
    Option<Seq<u32>>,
    Seq<char>,
> {
    match r {
        Ok(f) => Ok(f@),
        Err(e) => Err(e@),
    }
}

/// The values of a field ascend, lie in its range, and are those that a range
/// of the list reaches.
pub proof fn field_values_ascend(cs: Seq<Chunk>, lo: int, hi: int)
    requires
        0 <= lo,
        hi <= 0x1_0000_0000,
    ensures
        ascends(chunk_values(cs, lo, hi)),
        forall|v: u32|
            #[trigger] chunk_values(cs, lo, hi).contains(v) <==> lo <= v < hi && in_chunks(
                cs,
                v as int,
            ),
    decreases hi - lo,
{
    let s = chunk_values(cs, lo, hi);
    if lo < hi {
        field_values_ascend(cs, lo, hi - 1);
        let t = chunk_values(cs, lo, hi - 1);
        assert forall|i: int| 0 <= i < t.len() implies #[trigger] t[i] < hi - 1 by {
            assert(t.contains(t[i]));
        }
        assert forall|v: u32| #[trigger] s.contains(v) <==> lo <= v < hi && in_chunks(
            cs,
            v as int,
        ) by {
            if t.contains(v) {
                let i = choose|i: int| 0 <= i < t.len() && #[trigger] t[i] == v;
                assert(s[i] == v);
            }
            if in_chunks(cs, hi - 1) {
                assert(s[t.len() as int] == hi - 1);
            }
            if s.contains(v) {
                let i = choose|i: int| 0 <= i < s.len() && #[trigger] s[i] == v;
                if i < t.len() {
                    assert(t[i] == v);
                }
            }
        }
    }
}

fn read_number(s: &[char]) -> (r: Result<u32, String>)
    ensures
        match r {
            Ok(n) => field_number(s@) == Ok::<u32, Seq<char>>(n),
            Err(e) => field_number(s@) == Err::<u32, Seq<char>>(e@),
        },
{
    match parse_u32(s) {
        Ok(n) => Ok(n),
        Err(e) => Err(e.message().to_owned()),
    }
}

fn read_bounds(range: &[char], lo: u32, hi: u32) -> (r: Result<(u32, u32), String>)
    ensures
        match r {
            Ok(b) => range_bounds(range@, lo, hi) == Ok::<(u32, u32), Seq<char>>(b),
            Err(e) => range_bounds(range@, lo, hi) == Err::<(u32, u32), Seq<char>>(e@),
        },
{
    if is_str(range, "*") {
        return Ok((lo, hi));
    }
    match split_pair(range, '.') {
        Some((a, b)) => match read_number(a) {
            Err(e) => Err(e),
            Ok(from) => match read_number(b) {
                Err(e) => Err(e),
                Ok(to) => Ok((from, to)),
            },
        },
        None => match read_number(range) {
            Err(e) => Err(e),
            Ok(v) => Ok((v, v)),
        },
    }
}

fn range_message(from: u32, to: u32, lo: u32, hi: u32) -> (r: String)
    ensures
        r@ == range_error(from, to, lo, hi),
{
    let mut m = "range ".to_owned();
    m.append(decimal_string(from as u64).as_str());
    m.append("..");
    m.append(decimal_string(to as u64).as_str());
    m.append(" out of [");
    m.append(decimal_string(lo as u64).as_str());
    m.append(",");
    m.append(decimal_string(hi as u64).as_str());
    m.append("]");
    m
}

fn read_chunk(chunk: &[char], lo: u32, hi: u32) -> (r: Result<Chunk, String>)
    ensures
        match r {
            Ok(c) => chunk_of(chunk@, lo, hi) == Ok::<Chunk, Seq<char>>(c) && c.step > 0,
            Err(e) => chunk_of(chunk@, lo, hi) == Err::<Chunk, Seq<char>>(e@),
        },
{
    let (range, step): (&[char], u32) = match split_once(chunk, '/') {
        Some((rg, st)) => match read_number(st) {
            Ok(n) => (rg, n),
            Err(e) => {
                return Err(e);
            },
        },
        None => (chunk, 1),
    };
    match read_bounds(range, lo, hi) {
        Err(e) => Err(e),
        Ok((from, to)) => {
            if from > to || from < lo || to > hi {
                return Err(range_message(from, to, lo, hi));
            }
            if step == 0 {
                return Err("step zero".to_owned());
            }
            Ok(Chunk { from, to, step })
        },
    }
}

proof fn lemma_chunks_error(parts: Seq<Seq<char>>, lo: u32, hi: u32, n: int)
    requires
        0 <= n <= parts.len(),
        chunks_of(parts.take(n), lo, hi) is Err,
    ensures
        chunks_of(parts, lo, hi) == chunks_of(parts.take(n), lo, hi),
    decreases parts.len() - n,
{
    if n == parts.len() {
        assert(parts.take(n) =~= parts);
    } else {
        assert(parts.take(n + 1).drop_last() =~= parts.take(n));
        lemma_chunks_error(parts, lo, hi, n + 1);
    }
}

fn read_chunks(parts: &Vec<&[char]>, lo: u32, hi: u32) -> (r: Result<Vec<Chunk>, String>)
    ensures
        match r {
            Ok(v) => chunks_of(text::slices(parts@), lo, hi) == Ok::<Seq<Chunk>, Seq<char>>(v@)
                && forall|i: int| 0 <= i < v@.len() ==> (#[trigger] v@[i]).step > 0,
            Err(e) => chunks_of(text::slices(parts@), lo, hi) == Err::<Seq<Chunk>, Seq<char>>(e@),
        },
{
    let mut out: Vec<Chunk> = Vec::new();
    let mut i: usize = 0;
    let ghost all = text::slices(parts@);
    proof {
        assert(out@ =~= seq![]);
    }
    while i < parts.len()
        invariant
            i <= parts.len(),
            all == text::slices(parts@),
            chunks_of(all.take(i as int), lo, hi) == Ok::<Seq<Chunk>, Seq<char>>(out@),
            forall|j: int| 0 <= j < out@.len() ==> (#[trigger] out@[j]).step > 0,
        decreases parts.len() - i,
    {
        proof {
            assert(all.take(i + 1).drop_last() =~= all.take(i as int));
            assert(all.take(i + 1).last() == parts@[i as int]@);
        }
        match read_chunk(parts[i], lo, hi) {
            Ok(c) => {
                out.push(c);
            },
            Err(e) => {
                proof {
                    lemma_chunks_error(all, lo, hi, i + 1);
                }
                return Err(e);
            },
        }
        i = i + 1;
    }
    proof {
        assert(all.take(all.len() as int) =~= all);
    }
    Ok(out)
}

fn reached(cs: &Vec<Chunk>, v: u32) -> (r: bool)
    requires
        forall|i: int| 0 <= i < cs@.len() ==> (#[trigger] cs@[i]).step > 0,
    ensures
        r == in_chunks(cs@, v as int),
{
    let mut i: usize = 0;
    while i < cs.len()
        invariant
            i <= cs.len(),
            forall|j: int| 0 <= j < cs@.len() ==> (#[trigger] cs@[j]).step > 0,
            forall|j: int| 0 <= j < i ==> !in_chunk(#[trigger] cs@[j], v as int),
        decreases cs.len() - i,
    {
        proof {
            assert(cs@[i as int].step > 0);
        }
        if cs[i].from <= v && v <= cs[i].to && (v - cs[i].from) % cs[i].step == 0 {
            proof {
                assert(in_chunk(cs@[i as int], v as int));
            }
            return true;
        }
        i = i + 1;
    }
    false
}

/// Parses one field of a date or a time.
fn parse_field(s: &[char], lo: u32, hi: u32) -> (r: Result<FieldSet, String>)
    requires
        lo <= hi < 0xffff_ffff,
    ensures
        field_result(r) == field_of(s@, lo, hi),
{
    if is_str(s, "*") {
        return Ok(FieldSet::any());
    }
    let parts = split(s, ',');
    match read_chunks(&parts, lo, hi) {
        Err(e) => Err(e),
        Ok(cs) => {
            let mut out: Vec<u32> = Vec::new();
            let mut v: u32 = lo;
            proof {
                assert(out@ =~= seq![]);
            }
            while v <= hi
                invariant
                    lo <= v <= hi + 1,
                    hi < 0xffff_ffff,
                    forall|j: int| 0 <= j < cs@.len() ==> (#[trigger] cs@[j]).step > 0,
                    out@ == chunk_values(cs@, lo as int, v as int),
                decreases hi + 1 - v,
            {
                if reached(&cs, v) {
                    out.push(v);
                }
                v = v + 1;
            }
            Ok(FieldSet { values: Some(out) })
        },
    }
}

// ---------------------------------------------------------------------
// Weekdays
// ---------------------------------------------------------------------

/// The number of a weekday, 1=Mon..7=Sun.
pub open spec fn weekday_of(s: Seq<char>) -> Result<u32, Seq<char>> {
    if s == "Mon"@ {
        Ok(1)
    } else if s == "Tue"@ {
        Ok(2)
    } else if s == "Wed"@ {
        Ok(3)
    } else if s == "Thu"@ {
        Ok(4)
    } else if s == "Fri"@ {
        Ok(5)
    } else if s == "Sat"@ {
        Ok(6)
    } else if s == "Sun"@ {
        Ok(7)
    } else {
        Err("unknown weekday "@ + text::debug_form(s))
    }
}

/// Whether a day lies in a range of weekdays, which may wrap around Sunday.
pub open spec fn in_days(a: u32, b: u32, day: int) -> bool {
    if a <= b {
        a <= day <= b
    } else {
        (a <= day <= 7) || (1 <= day <= b)
    }
}

/// The range of weekdays that one item of a list stands for.
pub open spec fn days_of(chunk: Seq<char>) -> Result<(u32, u32), Seq<char>> {
    match text::split_at_pair(chunk, '.') {
        Some((a, b)) => match weekday_of(a) {
            Err(e) => Err(e),
            Ok(x) => match weekday_of(b) {
                Err(e) => Err(e),
                Ok(y) => Ok((x, y)),
            },
        },
        None => match weekday_of(chunk) {
            Err(e) => Err(e),
            Ok(x) => Ok((x, x)),
        },
    }
}

/// The ranges of weekdays of a list, up to the first that is wrong.
pub open spec fn day_ranges(parts: Seq<Seq<char>>) -> Result<Seq<(u32, u32)>, Seq<char>>
    decreases parts.len(),
{
    if parts.len() == 0 {
        Ok(seq![])
    } else {
        match day_ranges(parts.drop_last()) {
            Err(e) => Err(e),
            Ok(before) => match days_of(parts.last()) {
                Err(e) => Err(e),
                Ok(d) => Ok(before.push(d)),
            },
        }
    }
}

/// Whether one of the ranges holds the day.
pub open spec fn in_day_ranges(ds: Seq<(u32, u32)>, day: int) -> bool {
    exists|i: int| 0 <= i < ds.len() && in_days((#[trigger] ds[i]).0, ds[i].1, day)
}

/// The days up to `hi`, exclusive, that one of the ranges holds, ascending.
pub open spec fn day_values(ds: Seq<(u32, u32)>, hi: int) -> Seq<u32>
    decreases hi,
{
    if hi <= 1 {
        seq![]
    } else if in_day_ranges(ds, hi - 1) {
        day_values(ds, hi - 1).push((hi - 1) as u32)
    } else {
        day_values(ds, hi - 1)
    }
}

/// The weekdays that a list stands for.
pub open spec fn weekdays_of(s: Seq<char>) -> Result<Option<Seq<u32>>, Seq<char>> {
    match day_ranges(text::split_parts(s, ',')) {
        Err(e) => Err(e),
        Ok(ds) => Ok(Some(day_values(ds, 8))),
    }
}

/// The leading ASCII letters of a text.
pub open spec fn leading_letters(s: Seq<char>) -> Seq<char>
    decreases s.len(),
{
    if s.len() == 0 || !text::is_letter(s[0]) {
        seq![]
    } else {
        seq![s[0]] + leading_letters(s.skip(1))
    }
}

/// Whether a text begins with the name of a weekday, and no longer word.
pub open spec fn looks_like_weekday(s: Seq<char>) -> bool {
    weekday_of(leading_letters(s)) is Ok
}

fn weekday_num(s: &[char]) -> (r: Result<u32, String>)
    ensures
        match r {
            Ok(n) => weekday_of(s@) == Ok::<u32, Seq<char>>(n),
            Err(e) => weekday_of(s@) == Err::<u32, Seq<char>>(e@),
        },
{
    if is_str(s, "Mon") {
        Ok(1)
    } else if is_str(s, "Tue") {
        Ok(2)
    } else if is_str(s, "Wed") {
        Ok(3)
    } else if is_str(s, "Thu") {
        Ok(4)
    } else if is_str(s, "Fri") {
        Ok(5)
    } else if is_str(s, "Sat") {
        Ok(6)
    } else if is_str(s, "Sun") {
        Ok(7)
    } else {
        let mut m = "unknown weekday ".to_owned();
        m.append(debug_text(string_of(s).as_str()).as_str());
        Err(m)
    }
}

fn read_days(chunk: &[char]) -> (r: Result<(u32, u32), String>)
    ensures
        match r {
            Ok(d) => days_of(chunk@) == Ok::<(u32, u32), Seq<char>>(d),
            Err(e) => days_of(chunk@) == Err::<(u32, u32), Seq<char>>(e@),
        },
{
    match split_pair(chunk, '.') {
        Some((a, b)) => match weekday_num(a) {
            Err(e) => Err(e),
            Ok(x) => match weekday_num(b) {
                Err(e) => Err(e),
                Ok(y) => Ok((x, y)),
            },
        },
        None => match weekday_num(chunk) {
            Err(e) => Err(e),
            Ok(x) => Ok((x, x)),
        },
    }
}

proof fn lemma_day_ranges_error(parts: Seq<Seq<char>>, n: int)
    requires
        0 <= n <= parts.len(),
        day_ranges(parts.take(n)) is Err,
    ensures
        day_ranges(parts) == day_ranges(parts.take(n)),
    decreases parts.len() - n,
{
    if n == parts.len() {
        assert(parts.take(n) =~= parts);
    } else {
        assert(parts.take(n + 1).drop_last() =~= parts.take(n));
        lemma_day_ranges_error(parts, n + 1);
    }
}

fn day_reached(ds: &Vec<(u32, u32)>, day: u32) -> (r: bool)
    requires
        1 <= day <= 7,
    ensures
        r == in_day_ranges(ds@, day as int),
{
    let mut i: usize = 0;
    while i < ds.len()
        invariant
            i <= ds.len(),
            1 <= day <= 7,
            forall|j: int| 0 <= j < i ==> !in_days((#[trigger] ds@[j]).0, ds@[j].1, day as int),
        decreases ds.len() - i,
    {
        let (a, b) = ds[i];
        let hit: bool = if a <= b {
            a <= day && day <= b
        } else {
            a <= day || day <= b
        };
        if hit {
            proof {
                assert(in_days(ds@[i as int].0, ds@[i as int].1, day as int));
            }
            return true;
        }
        i = i + 1;
    }
    false
}

/// Parses a list of weekdays.
fn parse_weekdays(s: &[char]) -> (r: Result<FieldSet, String>)
    ensures
        field_result(r) == weekdays_of(s@),
{
    let parts = split(s, ',');
    let mut ds: Vec<(u32, u32)> = Vec::new();
    let mut i: usize = 0;
    let ghost all = text::slices(parts@);
    proof {
        assert(ds@ =~= seq![]);
    }
    while i < parts.len()
        invariant
            i <= parts.len(),
            all == text::slices(parts@),
            all == text::split_parts(s@, ','),
            day_ranges(all.take(i as int)) == Ok::<Seq<(u32, u32)>, Seq<char>>(ds@),
        decreases parts.len() - i,
    {
        proof {
            assert(all.take(i + 1).drop_last() =~= all.take(i as int));
            assert(all.take(i + 1).last() == parts@[i as int]@);
        }
        match read_days(parts[i]) {
            Ok(d) => {
                ds.push(d);
            },
            Err(e) => {
                proof {
                    lemma_day_ranges_error(all, i + 1);
                }
                return Err(e);
            },
        }
        i = i + 1;
    }
    proof {
        assert(all.take(all.len() as int) =~= all);
    }
    let mut out: Vec<u32> = Vec::new();
    let mut day: u32 = 1;
    proof {
        assert(out@ =~= seq![]);
    }
    while day <= 7
        invariant
            1 <= day <= 8,
            out@ == day_values(ds@, day as int),
        decreases 8 - day,
    {
        if day_reached(&ds, day) {
            out.push(day);
        }
        day = day + 1;
    }
    Ok(FieldSet { values: Some(out) })
}

fn is_weekday_field(s: &[char]) -> (r: bool)
    ensures
        r == looks_like_weekday(s@),
{
    let mut i: usize = 0;
    proof {
        assert(s@.skip(0) =~= s@);
        assert(s@.take(0) + leading_letters(s@) =~= leading_letters(s@));
    }
    while i < s.len() && char_is_letter(s[i])
        invariant
            i <= s.len(),
            leading_letters(s@) == s@.take(i as int) + leading_letters(s@.skip(i as int)),
        decreases s.len() - i,
    {
        proof {
            assert(s@.skip(i as int).skip(1) =~= s@.skip(i + 1));
            assert(s@.take(i as int) + (seq![s@[i as int]] + leading_letters(s@.skip(i + 1)))
                =~= s@.take(i + 1) + leading_letters(s@.skip(i + 1)));
        }
        i = i + 1;
    }
    let head = slice_subrange(s, 0, i);
    proof {
        assert(head@ =~= leading_letters(s@));
    }
    weekday_num(head).is_ok()
}

// ---------------------------------------------------------------------
// Dates and times
// ---------------------------------------------------------------------

/// Three fields.
pub type FieldsView = (Option<Seq<u32>>, Option<Seq<u32>>, Option<Seq<u32>>);

/// Three fields, the first wrong one deciding the error.
pub open spec fn three_fields(
    a: Result<Option<Seq<u32>>, Seq<char>>,
    b: Result<Option<Seq<u32>>, Seq<char>>,
    c: Result<Option<Seq<u32>>, Seq<char>>,
) -> Result<FieldsView, Seq<char>> {
    match a {
        Err(e) => Err(e),
        Ok(x) => match b {
            Err(e) => Err(e),
            Ok(y) => match c {
                Err(e) => Err(e),
                Ok(z) => Ok((x, y, z)),
            },
        },
    }
}

/// The year, month and day of a date: `*`, `Y-M-D` or `M-D`.
pub open spec fn date_of(s: Seq<char>) -> Result<FieldsView, Seq<char>> {
    let parts = text::split_parts(s, '-');
    if s == "*"@ {
        Ok((None, None, None))
    } else if parts.len() == 3 {
        three_fields(
            field_of(parts[0], 1970, 2199),
            field_of(parts[1], 1, 12),
            field_of(parts[2], 1, 31),
        )
    } else if parts.len() == 2 {
        three_fields(Ok(None), field_of(parts[0], 1, 12), field_of(parts[1], 1, 31))
    } else {
        Err("invalid date "@ + text::debug_form(s))
    }
}

/// The hour, minute and second of a time: `H:M:S` or `H:M`.
pub open spec fn time_of(s: Seq<char>) -> Result<FieldsView, Seq<char>> {
    let parts = text::split_parts(s, ':');
    if parts.len() == 3 {
        three_fields(
            field_of(parts[0], 0, 23),
            field_of(parts[1], 0, 59),
            field_of(parts[2], 0, 59),
        )
    } else if parts.len() == 2 {
        three_fields(
            field_of(parts[0], 0, 23),
            field_of(parts[1], 0, 59),
            field_of("0"@, 0, 59),
        )
    } else {
        Err("invalid time "@ + text::debug_form(s))
    }
}

/// The view of three parsed fields.
pub open spec fn fields_result(r: Result<(FieldSet, FieldSet, FieldSet), String>) -> Result<
    FieldsView,
    Seq<char>,
> {
    match r {
        Ok(f) => Ok((f.0@, f.1@, f.2@)),
        Err(e) => Err(e@),
    }
}

fn parse_three(a: &[char], amin: u32, amax: u32, b: &[char], bmin: u32, bmax: u32, c: &[char], cmin: u32, cmax: u32) -> (r:
    Result<(FieldSet, FieldSet, FieldSet), String>)
    requires
        amin <= amax < 0xffff_ffff,
        bmin <= bmax < 0xffff_ffff,
        cmin <= cmax < 0xffff_ffff,
    ensures
        fields_result(r) == three_fields(
            field_of(a@, amin, amax),
            field_of(b@, bmin, bmax),
            field_of(c@, cmin, cmax),
        ),
{
    match parse_field(a, amin, amax) {
        Err(e) => Err(e),
        Ok(x) => match parse_field(b, bmin, bmax) {
            Err(e) => Err(e),
            Ok(y) => match parse_field(c, cmin, cmax) {
                Err(e) => Err(e),
                Ok(z) => Ok((x, y, z)),
            },
        },
    }
}

fn parse_date(s: &[char]) -> (r: Result<(FieldSet, FieldSet, FieldSet), String>)
    ensures
        fields_result(r) == date_of(s@),
{
    if is_str(s, "*") {
        return Ok((FieldSet::any(), FieldSet::any(), FieldSet::any()));
    }
    let parts = split(s, '-');
    let ghost all = text::slices(parts@);
    if parts.len() == 3 {
        proof {
            assert(all[0] == parts@[0]@ && all[1] == parts@[1]@ && all[2] == parts@[2]@);
        }
        parse_three(parts[0], 1970, 2199, parts[1], 1, 12, parts[2], 1, 31)
    } else if parts.len() == 2 {
        proof {
            assert(all[0] == parts@[0]@ && all[1] == parts@[1]@);
        }
        let star = chars_of("*");
        parse_three(star.as_slice(), 1970, 2199, parts[0], 1, 12, parts[1], 1, 31)
    } else {
        let mut m = "invalid date ".to_owned();
        m.append(debug_text(string_of(s).as_str()).as_str());
        Err(m)
    }
}

fn parse_time(s: &[char]) -> (r: Result<(FieldSet, FieldSet, FieldSet), String>)
    ensures
        fields_result(r) == time_of(s@),
{
    let parts = split(s, ':');
    let ghost all = text::slices(parts@);
    if parts.len() == 3 {
        proof {
            assert(all[0] == parts@[0]@ && all[1] == parts@[1]@ && all[2] == parts@[2]@);
        }
        parse_three(parts[0], 0, 23, parts[1], 0, 59, parts[2], 0, 59)
    } else if parts.len() == 2 {
        proof {
            assert(all[0] == parts@[0]@ && all[1] == parts@[1]@);
        }
        let zero = chars_of("0");
        parse_three(parts[0], 0, 23, parts[1], 0, 59, zero.as_slice(), 0, 59)
    } else {
        let mut m = "invalid time ".to_owned();
        m.append(debug_text(string_of(s).as_str()).as_str());
        Err(m)
    }
}

// ---------------------------------------------------------------------
// Events
// ---------------------------------------------------------------------

/// What a shortcut stands for.
pub open spec fn shortcut_of(s: Seq<char>) -> Option<Seq<char>> {
    if s == "minutely"@ {
        Some("*-*-* *:*:00"@)
    } else if s == "hourly"@ {
        Some("*-*-* *:00:00"@)
    } else if s == "daily"@ {
        Some("*-*-* 00:00:00"@)
    } else if s == "weekly"@ {
        Some("Mon *-*-* 00:00:00"@)
    } else if s == "monthly"@ {
        Some("*-*-01 00:00:00"@)
    } else if s == "quarterly"@ {
        Some("*-01,04,07,10-01 00:00:00"@)
    } else if s == "semiannually"@ || s == "semi-annually"@ {
        Some("*-01,07-01 00:00:00"@)
    } else if s == "yearly"@ || s == "annually"@ {
        Some("*-01-01 00:00:00"@)
    } else {
        None
    }
}

/// Well-known names of time zones, and anything with a slash.
pub open spec fn likely_tz(s: Seq<char>) -> bool {
    s == "UTC"@ || s == "GMT"@ || s == "PST"@ || s == "PDT"@ || s == "EST"@ || s == "EDT"@ || s
        == "CST"@ || s == "CDT"@ || s == "MST"@ || s == "MDT"@ || s.contains('/')
}

/// Whether the last word of an event names a time zone.
pub open spec fn is_tz_word(s: Seq<char>) -> bool {
    !s.contains(':') && !s.contains('-') && !s.contains('*') && !s.contains(',') && (s.contains(
        '/',
    ) || likely_tz(s))
}

/// The event in which every field is a wildcard.
pub open spec fn any_time(raw: Seq<char>) -> CalendarView {
    CalendarView {
        weekdays: None,
        year: None,
        month: None,
        day: None,
        hour: None,
        minute: None,
        second: None,
        timezone: None,
        raw,
    }
}

/// The event at midnight.
pub open spec fn at_midnight(c: CalendarView) -> CalendarView {
    CalendarView { hour: Some(seq![0]), minute: Some(seq![0]), second: Some(seq![0]), ..c }
}

/// What the words of an event add to it: at most one date and one time.
pub open spec fn event_words(
    ts: Seq<Seq<char>>,
    c: CalendarView,
    have_date: bool,
    have_time: bool,
) -> Result<(CalendarView, bool, bool), Seq<char>>
    decreases ts.len(),
{
    if ts.len() == 0 {
        Ok((c, have_date, have_time))
    } else if ts[0].contains(':') && !have_time {
        match time_of(ts[0]) {
            Err(e) => Err(e),
            Ok((h, m, s)) => event_words(
                ts.skip(1),
                CalendarView { hour: h, minute: m, second: s, ..c },
                have_date,
                true,
            ),
        }
    } else if (ts[0].contains('-') || ts[0] == "*"@) && !have_date {
        match date_of(ts[0]) {
            Err(e) => Err(e),
            Ok((y, m, d)) => event_words(
                ts.skip(1),
                CalendarView { year: y, month: m, day: d, ..c },
                true,
                have_time,
            ),
        }
    } else {
        Err("unexpected calendar token "@ + text::debug_form(ts[0]))
    }
}

/// The event of the words without a time zone.
pub open spec fn event_of(words: Seq<Seq<char>>, c: CalendarView) -> Result<
    CalendarView,
    Seq<char>,
> {
    let named = words.len() > 0 && looks_like_weekday(words[0]);
    let days = if named {
        weekdays_of(words[0])
    } else {
        Ok(None)
    };
    match days {
        Err(e) => Err(e),
        Ok(weekdays) => {
            let rest = if named {
                words.skip(1)
            } else {
                words
            };
            match event_words(rest, CalendarView { weekdays, ..c }, false, false) {
                Err(e) => Err(e),
                Ok((spec, have_date, have_time)) => if !have_time && (have_date || (named
                    && words.len() == 1)) {
                    Ok(at_midnight(spec))
                } else {
                    Ok(spec)
                },
            }
        },
    }
}

/// The event that an `OnCalendar=` value stands for, or why it stands for none.
/// A date without a time, and a weekday alone, mean midnight.
pub open spec fn calendar_of(input: Seq<char>) -> Result<CalendarView, Seq<char>> {
    let raw = text::trimmed(input);
    let body = match shortcut_of(raw) {
        Some(s) => s,
        None => raw,
    };
    let words = text::items(body, false);
    if words.len() > 0 && is_tz_word(words.last()) {
        event_of(
            words.drop_last(),
            CalendarView { timezone: Some(words.last()), ..any_time(raw) },
        )
    } else {
        event_of(words, any_time(raw))
    }
}

/// The view of a parsed event.
pub open spec fn calendar_result(r: Result<CalendarSpec, String>) -> Result<
    CalendarView,
    Seq<char>,
> {
    match r {
        Ok(c) => Ok(c@),
        Err(e) => Err(e@),
    }
}

fn expand_shortcut(s: &[char]) -> (r: Option<&'static str>)
    ensures
        match r {
            Some(t) => shortcut_of(s@) == Some(t@),
            None => shortcut_of(s@) is None,
        },
{
    if is_str(s, "minutely") {
        Some("*-*-* *:*:00")
    } else if is_str(s, "hourly") {
        Some("*-*-* *:00:00")
    } else if is_str(s, "daily") {
        Some("*-*-* 00:00:00")
    } else if is_str(s, "weekly") {
        Some("Mon *-*-* 00:00:00")
    } else if is_str(s, "monthly") {
        Some("*-*-01 00:00:00")
    } else if is_str(s, "quarterly") {
        Some("*-01,04,07,10-01 00:00:00")
    } else if is_str(s, "semiannually") || is_str(s, "semi-annually") {
        Some("*-01,07-01 00:00:00")
    } else if is_str(s, "yearly") || is_str(s, "annually") {
        Some("*-01-01 00:00:00")
    } else {
        None
    }
}

fn is_likely_tz(s: &[char]) -> (r: bool)
    ensures
        r == likely_tz(s@),
{
    is_str(s, "UTC") || is_str(s, "GMT") || is_str(s, "PST") || is_str(s, "PDT") || is_str(
        s,
        "EST",
    ) || is_str(s, "EDT") || is_str(s, "CST") || is_str(s, "CDT") || is_str(s, "MST") || is_str(
        s,
        "MDT",
    ) || contains(s, '/')
}

/// Reads the words of an event from `start` on.
fn read_words(words: &Vec<&[char]>, start: usize, spec: &mut CalendarSpec) -> (r: Result<
    (bool, bool),
    String,
>)
    requires
        start <= words@.len(),
    ensures
        match r {
            Ok((d, t)) => event_words(
                text::slices(words@).skip(start as int),
                old(spec)@,
                false,
                false,
            ) == Ok::<(CalendarView, bool, bool), Seq<char>>((final(spec)@, d, t)),
            Err(e) => event_words(
                text::slices(words@).skip(start as int),
                old(spec)@,
                false,
                false,
            ) == Err::<(CalendarView, bool, bool), Seq<char>>(e@),
        },
{
    let mut have_date: bool = false;
    let mut have_time: bool = false;
    let mut i: usize = start;
    let ghost all = text::slices(words@);
    while i < words.len()
        invariant
            start <= i <= words.len(),
            all == text::slices(words@),
            event_words(all.skip(start as int), old(spec)@, false, false) == event_words(
                all.skip(i as int),
                spec@,
                have_date,
                have_time,
            ),
        decreases words.len() - i,
    {
        let tok = words[i];
        proof {
            assert(all.skip(i as int)[0] == tok@);
            assert(all.skip(i as int).skip(1) =~= all.skip(i + 1));
        }
        if contains(tok, ':') && !have_time {
            match parse_time(tok) {
                Ok((h, m, s)) => {
                    spec.hour = h;
                    spec.minute = m;
                    spec.second = s;
                },
                Err(e) => {
                    return Err(e);
                },
            }
            have_time = true;
        } else if (contains(tok, '-') || is_str(tok, "*")) && !have_date {
            match parse_date(tok) {
                Ok((y, m, d)) => {
                    spec.year = y;
                    spec.month = m;
                    spec.day = d;
                },
                Err(e) => {
                    return Err(e);
                },
            }
            have_date = true;
        } else {
            let mut m = "unexpected calendar token ".to_owned();
            m.append(debug_text(string_of(tok).as_str()).as_str());
            return Err(m);
        }
        i = i + 1;
    }
    proof {
        assert(all.skip(i as int) =~= seq![]);
    }
    Ok((have_date, have_time))
}

impl CalendarSpec {
    /// Parse a single `OnCalendar=` value.
    pub fn parse(input: &str) -> (r: Result<Self, String>)
        ensures
            calendar_result(r) == calendar_of(input@),
    {
        let v = chars_of(input);
        let raw = trim(v.as_slice());
        let expanded: Vec<char> = match expand_shortcut(raw) {
            Some(s) => chars_of(s),
            None => chars_of(string_of(raw).as_str()),
        };
        let mut words = split_items(expanded.as_slice(), false);
        let mut spec = CalendarSpec {
            weekdays: FieldSet::any(),
            year: FieldSet::any(),
            month: FieldSet::any(),
            day: FieldSet::any(),
            hour: FieldSet::any(),
            minute: FieldSet::any(),
            second: FieldSet::any(),
            timezone: None,
            raw: string_of(raw),
        };
        let ghost all = text::slices(words@);
        if words.len() > 0 {
            let last = words[words.len() - 1];
            proof {
                assert(all.last() == last@);
            }
            if !contains(last, ':') && !contains(last, '-') && !contains(last, '*') && !contains(
                last,
                ',',
            ) && (contains(last, '/') || is_likely_tz(last)) {
                spec.timezone = Some(string_of(last));
                let _ = words.pop();
                proof {
                    assert(text::slices(words@) =~= all.drop_last());
                }
            }
        }
        let ghost rest = text::slices(words@);
        let ghost base = spec@;
        proof {
            assert(calendar_of(input@) == event_of(rest, base));
        }
        let mut start: usize = 0;
        if words.len() > 0 {
            proof {
                assert(rest[0] == words@[0]@);
            }
            if is_weekday_field(words[0]) {
                match parse_weekdays(words[0]) {
                    Ok(days) => {
                        spec.weekdays = days;
                    },
                    Err(e) => {
                        return Err(e);
                    },
                }
                start = 1;
            }
        }
        proof {
            assert(rest.skip(0) =~= rest);
        }
        match read_words(&words, start, &mut spec) {
            Err(e) => Err(e),
            Ok((have_date, have_time)) => {
                if !have_time && (have_date || (start == 1 && words.len() == 1)) {
                    spec.hour = FieldSet::single(0);
                    spec.minute = FieldSet::single(0);
                    spec.second = FieldSet::single(0);
                }
                Ok(spec)
            },
        }
    }

    /// Parse a single `OnCalendar=` value.
    pub fn from_str(s: &str) -> (r: Result<Self, String>)
        ensures
            calendar_result(r) == calendar_of(s@),
    {
        CalendarSpec::parse(s)
    }
}

} // verus!
