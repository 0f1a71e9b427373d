//! When calendar events fire, told from their text.

use crate::civil::Civil;
use crate::number;
use crate::runtime::schedule;
use crate::text;
use crate::unit::calendar;
use crate::unit::calendar::{CalendarView, Chunk};
use vstd::prelude::*;

verus! {

// ---------------------------------------------------------------------
// Texts and their parts
// ---------------------------------------------------------------------

/// Whether the text holds no `c`.
pub open spec fn is_free(s: Seq<char>, c: char) -> bool {
    forall|i: int| 0 <= i < s.len() ==> #[trigger] s[i] != c
}

/// Two texts with a character between them.
#[verifier::opaque]
pub open spec fn joined(a: Seq<char>, c: char, b: Seq<char>) -> Seq<char> {
    a + seq![c] + b
}

proof fn lemma_joined_ends(a: Seq<char>, c: char, b: Seq<char>)
    requires
        a.len() > 0,
        b.len() > 0,
    ensures
        joined(a, c, b).len() == a.len() + 1 + b.len(),
        joined(a, c, b)[0] == a[0],
        joined(a, c, b).last() == b.last(),
{
    reveal(joined);
}

pub(crate) proof fn lemma_one_part(a: Seq<char>, c: char)
    requires
        is_free(a, c),
    ensures
        text::split_parts(a, c) == seq![a],
        text::split_at_first(a, c) is None,
        !a.contains(c),
{
    text::lemma_first_index_is(a, c, a.len() as int);
}

pub(crate) proof fn lemma_more_parts(a: Seq<char>, c: char, b: Seq<char>)
    requires
        is_free(a, c),
    ensures
        text::split_parts(joined(a, c, b), c) == seq![a] + text::split_parts(b, c),
        text::split_at_first(joined(a, c, b), c) == Some((a, b)),
        joined(a, c, b).contains(c),
{
    reveal(joined);
    let s = joined(a, c, b);
    let n = a.len() as int;
    assert(s[n] == c);
    assert forall|j: int| 0 <= j < n implies s[j] != c by {
        assert(s[j] == a[j]);
    }
    text::lemma_first_index_is(s, c, n);
    assert(s.take(n) =~= a);
    assert(s.skip(n + 1) =~= b);
}

proof fn lemma_three_parts(x: Seq<char>, y: Seq<char>, z: Seq<char>, c: char)
    requires
        is_free(x, c),
        is_free(y, c),
        is_free(z, c),
    ensures
        text::split_parts(joined(x, c, joined(y, c, z)), c) == seq![x, y, z],
{
    lemma_more_parts(x, c, joined(y, c, z));
    lemma_more_parts(y, c, z);
    lemma_one_part(z, c);
    assert(seq![x] + (seq![y] + seq![z]) =~= seq![x, y, z]);
}

/// Whether the text is one word.
pub open spec fn is_word(s: Seq<char>) -> bool {
    &&& s.len() > 0
    &&& forall|i: int| 0 <= i < s.len() ==> !text::is_space(#[trigger] s[i])
}

proof fn lemma_word_len(w: Seq<char>, rest: Seq<char>)
    requires
        forall|i: int| 0 <= i < w.len() ==> !text::is_space(#[trigger] w[i]),
        rest.len() == 0 || text::is_space(rest[0]),
    ensures
        text::item_len(w + rest, false) == w.len(),
    decreases w.len(),
{
    let s = w + rest;
    if w.len() == 0 {
        assert(s =~= rest);
    } else {
        assert(s[0] == w[0]);
        assert(s.skip(1) =~= w.skip(1) + rest);
        assert forall|i: int| 0 <= i < w.skip(1).len() implies !text::is_space(
            #[trigger] w.skip(1)[i],
        ) by {
            assert(w.skip(1)[i] == w[i + 1]);
        }
        lemma_word_len(w.skip(1), rest);
    }
}

proof fn lemma_one_word(w: Seq<char>)
    requires
        is_word(w),
    ensures
        text::items(w, false) == seq![w],
{
    lemma_word_len(w, seq![]);
    assert(w + Seq::<char>::empty() =~= w);
    assert(!text::is_space(w[0]));
    let n = w.len() as int;
    assert(w.take(n) =~= w);
    assert(w.skip(n) =~= seq![]);
    assert(text::items(w.skip(n), false) =~= seq![]);
    assert(seq![w] + Seq::<Seq<char>>::empty() =~= seq![w]);
}

proof fn lemma_more_words(w: Seq<char>, rest: Seq<char>)
    requires
        is_word(w),
    ensures
        text::items(joined(w, ' ', rest), false) == seq![w] + text::items(rest, false),
{
    reveal(joined);
    let s = joined(w, ' ', rest);
    let tail = seq![' '] + rest;
    assert(s =~= w + tail);
    lemma_word_len(w, tail);
    assert(!text::is_space(w[0]));
    assert(s[0] == w[0]);
    let n = w.len() as int;
    assert(s.take(n) =~= w);
    assert(s.skip(n) =~= tail);
    assert(tail[0] == ' ');
    assert(tail.skip(1) =~= rest);
    assert(text::items(tail, false) == text::items(rest, false));
}

// ---------------------------------------------------------------------
// Fields
// ---------------------------------------------------------------------

/// Whether the text is digits alone, with the value `n`.
pub open spec fn is_numeral(t: Seq<char>, n: int) -> bool {
    &&& t.len() > 0
    &&& forall|i: int| 0 <= i < t.len() ==> number::digit_in(#[trigger] t[i], 10)
    &&& number::digits_value(t, 10) == n
}

proof fn lemma_numeral(t: Seq<char>, n: u32)
    requires
        is_numeral(t, n as int),
    ensures
        calendar::field_number(t) == Ok::<u32, Seq<char>>(n),
        t != "*"@,
        is_free(t, '/'),
        is_free(t, '.'),
        is_free(t, ','),
        is_free(t, '-'),
        is_free(t, ':'),
        is_free(t, '*'),
        is_word(t),
{
    reveal_strlit("*");
    assert(number::digit_in(t[0], 10));
    number::lemma_digits_run(t, 10);
    assert(t.take(t.len() as int) =~= t);
    assert forall|i: int| 0 <= i < t.len() implies !text::is_space(#[trigger] t[i]) by {
        assert(number::digit_in(t[i], 10));
    }
    assert forall|i: int|
        0 <= i < t.len() implies #[trigger] t[i] != '/' && t[i] != '.' && t[i] != ',' && t[i] != '-'
        && t[i] != ':' && t[i] != '*' by {
        assert(number::digit_in(t[i], 10));
    }
}

proof fn lemma_pair_at(a: Seq<char>, b: Seq<char>)
    requires
        is_free(a, '.'),
    ensures
        text::first_pair(a + seq!['.', '.'] + b, '.') == a.len(),
    decreases a.len(),
{
    let s = a + seq!['.', '.'] + b;
    if a.len() == 0 {
        assert(s[0] == '.' && s[1] == '.');
    } else {
        assert(s[0] == a[0]);
        assert(s.skip(1) =~= a.skip(1) + seq!['.', '.'] + b);
        assert forall|i: int| 0 <= i < a.skip(1).len() implies #[trigger] a.skip(1)[i] != '.' by {
            assert(a.skip(1)[i] == a[i + 1]);
        }
        lemma_pair_at(a.skip(1), b);
    }
}

proof fn lemma_no_pair(a: Seq<char>)
    requires
        is_free(a, '.'),
    ensures
        text::first_pair(a, '.') == a.len(),
    decreases a.len(),
{
    if a.len() >= 2 {
        assert(a[0] != '.');
        assert forall|i: int| 0 <= i < a.skip(1).len() implies #[trigger] a.skip(1)[i] != '.' by {
            assert(a.skip(1)[i] == a[i + 1]);
        }
        lemma_no_pair(a.skip(1));
    }
}

/// The text of a range.
pub open spec fn range_text(a: Seq<char>, b: Seq<char>) -> Seq<char> {
    a + seq!['.', '.'] + b
}

proof fn lemma_bounds(a: Seq<char>, b: Seq<char>, x: u32, y: u32, lo: u32, hi: u32)
    requires
        is_numeral(a, x as int),
        is_numeral(b, y as int),
    ensures
        calendar::range_bounds(a, lo, hi) == Ok::<(u32, u32), Seq<char>>((x, x)),
        calendar::range_bounds(range_text(a, b), lo, hi) == Ok::<(u32, u32), Seq<char>>((x, y)),
        is_free(range_text(a, b), '/'),
        is_free(range_text(a, b), ','),
        range_text(a, b) != "*"@,
{
    reveal_strlit("*");
    lemma_numeral(a, x);
    lemma_numeral(b, y);
    lemma_no_pair(a);
    lemma_pair_at(a, b);
    let s = range_text(a, b);
    let n = a.len() as int;
    assert(s.take(n) =~= a);
    assert(s.skip(n + 2) =~= b);
    assert forall|i: int| 0 <= i < s.len() implies #[trigger] s[i] != '/' && s[i] != ',' by {
        if i < n {
            assert(s[i] == a[i]);
        } else if i >= n + 2 {
            assert(s[i] == b[i - n - 2]);
        }
    }
}

/// A part of a field: a number, or numbers from one to another, or every so many
/// of those.
pub ghost enum Part {
    One(u32),
    Range(u32, u32),
    Every(u32, u32, u32),
    EveryFromStart(u32),
}

/// How a part is written.
pub open spec fn part_text(p: Part) -> Seq<char> {
    match p {
        Part::One(n) => number::decimal(n as nat),
        Part::Range(a, b) => range_text(number::decimal(a as nat), number::decimal(b as nat)),
        Part::Every(a, b, k) => joined(
            range_text(number::decimal(a as nat), number::decimal(b as nat)),
            '/',
            number::decimal(k as nat),
        ),
        Part::EveryFromStart(k) => joined(seq!['*'], '/', number::decimal(k as nat)),
    }
}

/// Whether a part lies in the bounds of its field.
pub open spec fn part_fits(p: Part, lo: u32, hi: u32) -> bool {
    match p {
        Part::One(n) => lo <= n <= hi,
        Part::Range(a, b) => lo <= a <= b <= hi,
        Part::Every(a, b, k) => lo <= a <= b <= hi && k > 0,
        Part::EveryFromStart(k) => k > 0 && lo <= hi,
    }
}

/// The values that a part stands for.
pub open spec fn part_allows(p: Part, lo: u32, hi: u32, v: int) -> bool {
    match p {
        Part::One(n) => v == n,
        Part::Range(a, b) => a <= v <= b,
        Part::Every(a, b, k) => a <= v <= b && (v - a) % (k as int) == 0,
        Part::EveryFromStart(k) => lo <= v <= hi && (v - lo) % (k as int) == 0,
    }
}

proof fn lemma_decimal_numeral(n: u32)
    ensures
        is_numeral(number::decimal(n as nat), n as int),
{
    number::lemma_decimal_digits(n as nat);
}

#[verifier::spinoff_prover]
#[verifier::rlimit(30)]
proof fn lemma_part(p: Part, lo: u32, hi: u32)
    ensures
        part_text(p) != "*"@,
        is_free(part_text(p), ','),
        part_fits(p, lo, hi) ==> {
            let c = calendar::chunk_of(part_text(p), lo, hi);
            c is Ok && forall|v: int| #[trigger]
                calendar::in_chunk(c->Ok_0, v) <==> part_allows(p, lo, hi, v)
        },
        !part_fits(p, lo, hi) && lo <= hi ==> calendar::chunk_of(part_text(p), lo, hi) is Err,
{
    reveal_strlit("*");
    match p {
        Part::One(n) => {
            lemma_decimal_numeral(n);
            let t = number::decimal(n as nat);
            lemma_numeral(t, n);
            lemma_bounds(t, t, n, n, lo, hi);
            lemma_one_part(t, '/');
            let c = Chunk { from: n, to: n, step: 1 };
            assert forall|v: int| #[trigger] calendar::in_chunk(c, v) <==> v == n by {}
        },
        Part::Range(a, b) => {
            lemma_decimal_numeral(a);
            lemma_decimal_numeral(b);
            let s = number::decimal(a as nat);
            let t = number::decimal(b as nat);
            lemma_bounds(s, t, a, b, lo, hi);
            lemma_one_part(range_text(s, t), '/');
            let c = Chunk { from: a, to: b, step: 1 };
            assert forall|v: int| #[trigger] calendar::in_chunk(c, v) <==> a <= v <= b by {}
        },
        Part::Every(a, b, k) => {
            lemma_decimal_numeral(a);
            lemma_decimal_numeral(b);
            lemma_decimal_numeral(k);
            let s = number::decimal(a as nat);
            let t = number::decimal(b as nat);
            let u = number::decimal(k as nat);
            lemma_bounds(s, t, a, b, lo, hi);
            lemma_numeral(u, k);
            lemma_more_parts(range_text(s, t), '/', u);
            reveal(joined);
            let all = part_text(p);
            assert(all.len() > 1);
            assert forall|i: int| 0 <= i < all.len() implies #[trigger] all[i] != ',' by {
                if i < range_text(s, t).len() {
                    assert(all[i] == range_text(s, t)[i]);
                } else if i > range_text(s, t).len() {
                    assert(all[i] == u[i - range_text(s, t).len() - 1]);
                }
            }
        },
        Part::EveryFromStart(k) => {
            lemma_decimal_numeral(k);
            let u = number::decimal(k as nat);
            lemma_numeral(u, k);
            lemma_more_parts(seq!['*'], '/', u);
            assert(seq!['*'] =~= "*"@);
            reveal(joined);
            let all = part_text(p);
            assert(all.len() > 1);
            assert forall|i: int| 0 <= i < all.len() implies #[trigger] all[i] != ',' by {
                if i >= 2 {
                    assert(all[i] == u[i - 2]);
                }
            }
        },
    }
}

/// The text of a field: its parts, with commas between them.
pub open spec fn field_text(ps: Seq<Part>) -> Seq<char>
    decreases ps.len(),
{
    if ps.len() <= 1 {
        part_text(ps[0])
    } else {
        joined(part_text(ps[0]), ',', field_text(ps.skip(1)))
    }
}

proof fn lemma_field_parts(ps: Seq<Part>)
    requires
        ps.len() > 0,
    ensures
        text::split_parts(field_text(ps), ',') =~= ps.map_values(|p: Part| part_text(p)),
        field_text(ps) != "*"@,
    decreases ps.len(),
{
    lemma_part(ps[0], 0, 0);
    if ps.len() == 1 {
        lemma_one_part(part_text(ps[0]), ',');
    } else {
        lemma_field_parts(ps.skip(1));
        lemma_more_parts(part_text(ps[0]), ',', field_text(ps.skip(1)));
        reveal_strlit("*");
        assert(field_text(ps).contains(','));
    }
}

#[verifier::spinoff_prover]
#[verifier::rlimit(30)]
proof fn lemma_chunks(ps: Seq<Part>, lo: u32, hi: u32)
    requires
        lo <= hi,
    ensures
        ({
            let r = calendar::chunks_of(ps.map_values(|p: Part| part_text(p)), lo, hi);
            &&& r is Ok <==> forall|i: int| 0 <= i < ps.len() ==> #[trigger] part_fits(ps[i], lo, hi)
            &&& r is Ok ==> r->Ok_0.len() == ps.len() && forall|i: int, v: int|
                0 <= i < ps.len() ==> (#[trigger] calendar::in_chunk(r->Ok_0[i], v)
                    <==> part_allows(ps[i], lo, hi, v))
        }),
    decreases ps.len(),
{
    let f = |p: Part| part_text(p);
    if ps.len() > 0 {
        let texts = ps.map_values(f);
        let before = ps.drop_last();
        assert(texts.drop_last() =~= before.map_values(f));
        assert(texts.last() == part_text(ps.last()));
        lemma_chunks(before, lo, hi);
        lemma_part(ps.last(), lo, hi);
        let r = calendar::chunks_of(texts, lo, hi);
        let rb = calendar::chunks_of(texts.drop_last(), lo, hi);
        if r is Ok {
            assert forall|i: int| 0 <= i < ps.len() implies #[trigger] part_fits(ps[i], lo, hi) by {
                if i < ps.len() - 1 {
                    assert(part_fits(before[i], lo, hi));
                }
            }
            assert forall|i: int, v: int| 0 <= i < ps.len() implies (#[trigger] calendar::in_chunk(
                r->Ok_0[i],
                v,
            ) <==> part_allows(ps[i], lo, hi, v)) by {
                if i < ps.len() - 1 {
                    assert(r->Ok_0[i] == rb->Ok_0[i]);
                    assert(before[i] == ps[i]);
                    assert(calendar::in_chunk(rb->Ok_0[i], v) <==> part_allows(
                        before[i],
                        lo,
                        hi,
                        v,
                    ));
                }
            }
        } else if forall|i: int| 0 <= i < ps.len() ==> #[trigger] part_fits(ps[i], lo, hi) {
            assert forall|i: int| 0 <= i < before.len() implies #[trigger] part_fits(
                before[i],
                lo,
                hi,
            ) by {
                assert(before[i] == ps[i]);
            }
            assert(part_fits(ps[ps.len() - 1], lo, hi));
        }
    }
}

/// A field that lists numbers, ranges and steps is accepted just where all of
/// them lie in its bounds, and allows just the values of one of them.
#[verifier::spinoff_prover]
#[verifier::rlimit(30)]
pub proof fn a_field_allows_what_it_lists(ps: Seq<Part>, lo: u32, hi: u32)
    requires
        ps.len() > 0,
        lo <= hi < u32::MAX,
    ensures
        ({
            let r = calendar::field_of(field_text(ps), lo, hi);
            &&& r is Ok <==> forall|i: int| 0 <= i < ps.len() ==> #[trigger] part_fits(ps[i], lo, hi)
            &&& r is Ok ==> forall|v: u32| #[trigger]
                calendar::field_allows(r->Ok_0, v) <==> exists|i: int|
                    0 <= i < ps.len() && #[trigger] part_allows(ps[i], lo, hi, v as int)
        }),
{
    lemma_field_parts(ps);
    lemma_chunks(ps, lo, hi);
    let texts = ps.map_values(|p: Part| part_text(p));
    let r = calendar::chunks_of(texts, lo, hi);
    if r is Ok {
        let cs = r->Ok_0;
        calendar::field_values_ascend(cs, lo as int, hi + 1);
        let out = calendar::field_of(field_text(ps), lo, hi)->Ok_0;
        assert forall|v: u32| #[trigger] calendar::field_allows(out, v) <==> exists|i: int|
            0 <= i < ps.len() && #[trigger] part_allows(ps[i], lo, hi, v as int) by {
            assert(calendar::chunk_values(cs, lo as int, hi + 1).contains(v) <==> lo <= v < hi + 1
                && calendar::in_chunks(cs, v as int));
            if calendar::in_chunks(cs, v as int) {
                let i = choose|i: int|
                    0 <= i < cs.len() && calendar::in_chunk(#[trigger] cs[i], v as int);
                assert(part_allows(ps[i], lo, hi, v as int));
            }
            if exists|i: int| 0 <= i < ps.len() && #[trigger] part_allows(ps[i], lo, hi, v as int) {
                let i = choose|i: int|
                    0 <= i < ps.len() && #[trigger] part_allows(ps[i], lo, hi, v as int);
                assert(part_fits(ps[i], lo, hi));
                assert(calendar::in_chunk(cs[i], v as int));
            }
        }
    }
}

/// A field of a star allows everything.
pub proof fn a_star_allows_everything(lo: u32, hi: u32, v: u32)
    ensures
        calendar::field_of("*"@, lo, hi) matches Ok(f) && calendar::field_allows(f, v),
{
}

// ---------------------------------------------------------------------
// Events
// ---------------------------------------------------------------------

/// Whether the text can be a field of a date or a time.
pub open spec fn is_field(t: Seq<char>) -> bool {
    &&& t.len() > 0
    &&& forall|i: int| 0 <= i < t.len() ==> is_field_char(#[trigger] t[i])
}

/// The characters of fields.
pub open spec fn is_field_char(c: char) -> bool {
    number::digit_in(c, 10) || c == '*' || c == ',' || c == '.' || c == '/'
}

/// A date in its three fields.
pub open spec fn date_text(y: Seq<char>, m: Seq<char>, d: Seq<char>) -> Seq<char> {
    joined(y, '-', joined(m, '-', d))
}

/// A time in its three fields.
pub open spec fn time_text(h: Seq<char>, m: Seq<char>, s: Seq<char>) -> Seq<char> {
    joined(h, ':', joined(m, ':', s))
}

#[verifier::spinoff_prover]
#[verifier::rlimit(30)]
proof fn lemma_triple(x: Seq<char>, y: Seq<char>, z: Seq<char>, c: char)
    requires
        is_field(x),
        is_field(y),
        is_field(z),
        c == '-' || c == ':',
    ensures
        ({
            let t = joined(x, c, joined(y, c, z));
            &&& text::split_parts(t, c) == seq![x, y, z]
            &&& t.contains(c)
            &&& c == '-' ==> !t.contains(':')
            &&& is_word(t)
            &&& !calendar::looks_like_weekday(t)
            &&& t != "*"@
            &&& is_field_char(t[0])
        }),
{
    reveal(joined);
    let t = joined(x, c, joined(y, c, z));
    lemma_three_parts(x, y, z, c);
    lemma_more_parts(x, c, joined(y, c, z));
    let (n, m) = (x.len() as int, y.len() as int);
    assert(t[n] == c);
    assert forall|i: int| 0 <= i < t.len() implies is_field_char(#[trigger] t[i]) || t[i] == c by {
        if i < n {
            assert(t[i] == x[i]);
        } else if n < i < n + 1 + m {
            assert(t[i] == y[i - n - 1]);
        } else if i > n + 1 + m {
            assert(t[i] == z[i - n - m - 2]);
        }
    }
    if c == '-' && t.contains(':') {
        let i = choose|i: int| 0 <= i < t.len() && t[i] == ':';
        assert(is_field_char(t[i]) || t[i] == c);
    }
    assert(t[0] == x[0]);
    lemma_no_weekday(t);
    reveal_strlit("*");
}

proof fn lemma_no_weekday(t: Seq<char>)
    requires
        t.len() > 0,
        is_field_char(t[0]),
    ensures
        !calendar::looks_like_weekday(t),
{
    reveal_strlit("Mon");
    reveal_strlit("Tue");
    reveal_strlit("Wed");
    reveal_strlit("Thu");
    reveal_strlit("Fri");
    reveal_strlit("Sat");
    reveal_strlit("Sun");
    assert(!text::is_letter(t[0]));
    assert(calendar::leading_letters(t) =~= seq![]);
}

/// What the fields of a date and a time make of an event.
pub open spec fn with_fields(
    c: CalendarView,
    y: Seq<char>,
    m: Seq<char>,
    d: Seq<char>,
    h: Seq<char>,
    mi: Seq<char>,
    s: Seq<char>,
) -> CalendarView {
    CalendarView {
        year: calendar::field_of(y, 1970, 2199)->Ok_0,
        month: calendar::field_of(m, 1, 12)->Ok_0,
        day: calendar::field_of(d, 1, 31)->Ok_0,
        hour: calendar::field_of(h, 0, 23)->Ok_0,
        minute: calendar::field_of(mi, 0, 59)->Ok_0,
        second: calendar::field_of(s, 0, 59)->Ok_0,
        ..c
    }
}

/// Whether all fields of a date and a time can be read.
pub open spec fn all_read(
    y: Seq<char>,
    m: Seq<char>,
    d: Seq<char>,
    h: Seq<char>,
    mi: Seq<char>,
    s: Seq<char>,
) -> bool {
    &&& calendar::field_of(y, 1970, 2199) is Ok
    &&& calendar::field_of(m, 1, 12) is Ok
    &&& calendar::field_of(d, 1, 31) is Ok
    &&& calendar::field_of(h, 0, 23) is Ok
    &&& calendar::field_of(mi, 0, 59) is Ok
    &&& calendar::field_of(s, 0, 59) is Ok
}

#[verifier::spinoff_prover]
#[verifier::rlimit(30)]
proof fn lemma_date(y: Seq<char>, m: Seq<char>, d: Seq<char>)
    requires
        is_field(y),
        is_field(m),
        is_field(d),
    ensures
        calendar::date_of(date_text(y, m, d)) == calendar::three_fields(
            calendar::field_of(y, 1970, 2199),
            calendar::field_of(m, 1, 12),
            calendar::field_of(d, 1, 31),
        ),
{
    lemma_triple(y, m, d, '-');
}

#[verifier::spinoff_prover]
#[verifier::rlimit(30)]
proof fn lemma_time(h: Seq<char>, m: Seq<char>, s: Seq<char>)
    requires
        is_field(h),
        is_field(m),
        is_field(s),
    ensures
        calendar::time_of(time_text(h, m, s)) == calendar::three_fields(
            calendar::field_of(h, 0, 23),
            calendar::field_of(m, 0, 59),
            calendar::field_of(s, 0, 59),
        ),
{
    lemma_triple(h, m, s, ':');
}

/// What a date and a time as words add to an event.
#[verifier::spinoff_prover]
#[verifier::rlimit(30)]
proof fn lemma_two_words(a: Seq<char>, b: Seq<char>, c: CalendarView)
    requires
        a.contains('-'),
        !a.contains(':'),
        b.contains(':'),
    ensures
        ({
            let r = calendar::event_words(seq![a, b], c, false, false);
            let (x, y) = (calendar::date_of(a), calendar::time_of(b));
            &&& r is Ok <==> x is Ok && y is Ok
            &&& r is Ok ==> {
                let e = CalendarView {
                    year: x->Ok_0.0,
                    month: x->Ok_0.1,
                    day: x->Ok_0.2,
                    hour: y->Ok_0.0,
                    minute: y->Ok_0.1,
                    second: y->Ok_0.2,
                    ..c
                };
                r->Ok_0 == (e, true, true)
            }
        }),
{
    lemma_first_is_date(seq![a, b], c);
    let x = calendar::date_of(a);
    if x is Ok {
        let us = seq![a, b].skip(1);
        assert(us =~= seq![b]);
        let e = CalendarView { year: x->Ok_0.0, month: x->Ok_0.1, day: x->Ok_0.2, ..c };
        lemma_first_is_time(us, e, true);
        assert(us.skip(1) =~= seq![]);
    }
}

#[verifier::spinoff_prover]
#[verifier::rlimit(30)]
proof fn lemma_first_is_date(ts: Seq<Seq<char>>, c: CalendarView)
    requires
        ts.len() > 0,
        ts[0].contains('-'),
        !ts[0].contains(':'),
    ensures
        calendar::event_words(ts, c, false, false) == match calendar::date_of(ts[0]) {
            Err(e) => Err(e),
            Ok(x) => calendar::event_words(
                ts.skip(1),
                CalendarView { year: x.0, month: x.1, day: x.2, ..c },
                true,
                false,
            ),
        },
{
}

#[verifier::spinoff_prover]
#[verifier::rlimit(30)]
proof fn lemma_first_is_time(ts: Seq<Seq<char>>, c: CalendarView, dated: bool)
    requires
        ts.len() > 0,
        ts[0].contains(':'),
    ensures
        calendar::event_words(ts, c, dated, false) == match calendar::time_of(ts[0]) {
            Err(e) => Err(e),
            Ok(x) => calendar::event_words(
                ts.skip(1),
                CalendarView { hour: x.0, minute: x.1, second: x.2, ..c },
                dated,
                true,
            ),
        },
{
}

#[verifier::spinoff_prover]
#[verifier::rlimit(60)]
proof fn lemma_date_and_time(
    c: CalendarView,
    y: Seq<char>,
    m: Seq<char>,
    d: Seq<char>,
    h: Seq<char>,
    mi: Seq<char>,
    s: Seq<char>,
)
    requires
        is_field(y),
        is_field(m),
        is_field(d),
        is_field(h),
        is_field(mi),
        is_field(s),
    ensures
        ({
            let r = calendar::event_words(
                seq![date_text(y, m, d), time_text(h, mi, s)],
                c,
                false,
                false,
            );
            &&& r is Ok <==> all_read(y, m, d, h, mi, s)
            &&& r is Ok ==> r->Ok_0 == (with_fields(c, y, m, d, h, mi, s), true, true)
        }),
{
    let (a, b) = (date_text(y, m, d), time_text(h, mi, s));
    lemma_triple(y, m, d, '-');
    lemma_triple(h, mi, s, ':');
    lemma_date(y, m, d);
    lemma_time(h, mi, s);
    lemma_two_words(a, b, c);
}

/// The words of a date and a time.
pub open spec fn event_text(
    y: Seq<char>,
    m: Seq<char>,
    d: Seq<char>,
    h: Seq<char>,
    mi: Seq<char>,
    s: Seq<char>,
) -> Seq<char> {
    joined(date_text(y, m, d), ' ', time_text(h, mi, s))
}

#[verifier::spinoff_prover]
#[verifier::rlimit(30)]
proof fn lemma_event_of_words(input: Seq<char>, body: Seq<char>, words: Seq<Seq<char>>)
    requires
        text::trimmed(input) == input,
        calendar::shortcut_of(input) == Some(body) || (calendar::shortcut_of(input) is None && body
            == input),
        text::items(body, false) == words,
        words.len() > 0,
        words.last().contains(':') || words.last().contains('-'),
    ensures
        calendar::calendar_of(input) == calendar::event_of(words, calendar::any_time(input)),
{
}

/// An event of words that begin with no day of the week.
#[verifier::spinoff_prover]
#[verifier::rlimit(30)]
proof fn lemma_undated_week(words: Seq<Seq<char>>, c: CalendarView)
    requires
        words.len() > 0,
        !calendar::looks_like_weekday(words[0]),
        c.weekdays is None,
    ensures
        ({
            let r = calendar::event_words(words, c, false, false);
            calendar::event_of(words, c) == match r {
                Err(e) => Err(e),
                Ok(x) => Ok(
                    if !x.2 && x.1 {
                        calendar::at_midnight(x.0)
                    } else {
                        x.0
                    },
                ),
            }
        }),
{
    assert(CalendarView { weekdays: None, ..c } == c);
}

/// An event of words that begin with days of the week, with a date and a time.
#[verifier::spinoff_prover]
#[verifier::rlimit(30)]
proof fn lemma_dated_week(words: Seq<Seq<char>>, c: CalendarView, e: CalendarView)
    requires
        words.len() > 1,
        calendar::looks_like_weekday(words[0]),
        calendar::weekdays_of(words[0]) is Ok,
        calendar::event_words(
            words.skip(1),
            CalendarView { weekdays: calendar::weekdays_of(words[0])->Ok_0, ..c },
            false,
            false,
        ) == Ok::<(CalendarView, bool, bool), Seq<char>>((e, true, true)),
    ensures
        calendar::event_of(words, c) == Ok::<CalendarView, Seq<char>>(e),
{
}

proof fn lemma_not_a_shortcut(t: Seq<char>)
    requires
        t.len() > 0,
        is_field_char(t[0]),
    ensures
        calendar::shortcut_of(t) is None,
{
    reveal_strlit("minutely");
    reveal_strlit("hourly");
    reveal_strlit("daily");
    reveal_strlit("weekly");
    reveal_strlit("monthly");
    reveal_strlit("quarterly");
    reveal_strlit("semiannually");
    reveal_strlit("semi-annually");
    reveal_strlit("yearly");
    reveal_strlit("annually");
    assert("minutely"@[0] == 'm' && "hourly"@[0] == 'h' && "daily"@[0] == 'd' && "weekly"@[0] == 'w'
        && "monthly"@[0] == 'm' && "quarterly"@[0] == 'q' && "semiannually"@[0] == 's'
        && "semi-annually"@[0] == 's' && "yearly"@[0] == 'y' && "annually"@[0] == 'a');
}

/// A date and a time are an event just where each of the six fields can be read,
/// year, month, day, hour, minute and second in that order; it has no time zone
/// and falls on every day of the week.
#[verifier::spinoff_prover]
#[verifier::rlimit(60)]
pub proof fn an_event_is_read_by_its_fields(
    y: Seq<char>,
    m: Seq<char>,
    d: Seq<char>,
    h: Seq<char>,
    mi: Seq<char>,
    s: Seq<char>,
)
    requires
        is_field(y),
        is_field(m),
        is_field(d),
        is_field(h),
        is_field(mi),
        is_field(s),
    ensures
        ({
            let r = calendar::calendar_of(event_text(y, m, d, h, mi, s));
            &&& r is Ok <==> all_read(y, m, d, h, mi, s)
            &&& r matches Ok(c) ==> c == with_fields(c, y, m, d, h, mi, s) && c.weekdays is None
                && c.timezone is None
        }),
{
    let (a, b) = (date_text(y, m, d), time_text(h, mi, s));
    let t = event_text(y, m, d, h, mi, s);
    lemma_triple(y, m, d, '-');
    lemma_triple(h, mi, s, ':');
    lemma_joined_ends(a, ' ', b);
    text::lemma_trimmed_same(t);
    lemma_not_a_shortcut(t);
    lemma_more_words(a, b);
    lemma_one_word(b);
    assert(seq![a] + seq![b] =~= seq![a, b]);
    let c = calendar::any_time(t);
    lemma_event_of_words(t, t, seq![a, b]);
    lemma_undated_week(seq![a, b], c);
    lemma_date_and_time(c, y, m, d, h, mi, s);
}

/// A date alone means midnight.
#[verifier::spinoff_prover]
#[verifier::rlimit(60)]
pub proof fn a_date_alone_means_midnight(y: Seq<char>, m: Seq<char>, d: Seq<char>)
    requires
        is_field(y),
        is_field(m),
        is_field(d),
    ensures
        ({
            let r = calendar::calendar_of(date_text(y, m, d));
            let (p, q, o) = (
                calendar::field_of(y, 1970, 2199),
                calendar::field_of(m, 1, 12),
                calendar::field_of(d, 1, 31),
            );
            &&& r is Ok <==> p is Ok && q is Ok && o is Ok
            &&& r matches Ok(c) ==> {
                &&& c.year == p->Ok_0 && c.month == q->Ok_0 && c.day == o->Ok_0
                &&& c.hour == Some(seq![0u32])
                &&& c.minute == Some(seq![0u32])
                &&& c.second == Some(seq![0u32])
                &&& c.weekdays is None && c.timezone is None
            }
        }),
{
    let a = date_text(y, m, d);
    lemma_triple(y, m, d, '-');
    lemma_date(y, m, d);
    text::lemma_trimmed_same(a);
    lemma_not_a_shortcut(a);
    lemma_one_word(a);
    let ws = seq![a];
    lemma_date_word(a, calendar::any_time(a));
    lemma_event_of_words(a, a, ws);
    lemma_undated_week(ws, calendar::any_time(a));
}

#[verifier::spinoff_prover]
#[verifier::rlimit(30)]
proof fn lemma_date_word(a: Seq<char>, c: CalendarView)
    requires
        a.contains('-'),
        !a.contains(':'),
    ensures
        calendar::event_words(seq![a], c, false, false) == match calendar::date_of(a) {
            Err(e) => Err(e),
            Ok(x) => Ok(
                (CalendarView { year: x.0, month: x.1, day: x.2, ..c }, true, false),
            ),
        },
{
    lemma_first_is_date(seq![a], c);
    assert(seq![a].skip(1) =~= seq![]);
}

/// A time alone means every day.
#[verifier::spinoff_prover]
#[verifier::rlimit(60)]
pub proof fn a_time_alone_means_every_day(h: Seq<char>, m: Seq<char>, s: Seq<char>)
    requires
        is_field(h),
        is_field(m),
        is_field(s),
    ensures
        ({
            let r = calendar::calendar_of(time_text(h, m, s));
            let (p, q, o) = (
                calendar::field_of(h, 0, 23),
                calendar::field_of(m, 0, 59),
                calendar::field_of(s, 0, 59),
            );
            &&& r is Ok <==> p is Ok && q is Ok && o is Ok
            &&& r matches Ok(c) ==> {
                &&& c.hour == p->Ok_0 && c.minute == q->Ok_0 && c.second == o->Ok_0
                &&& c.year is None && c.month is None && c.day is None
                &&& c.weekdays is None && c.timezone is None
            }
        }),
{
    let a = time_text(h, m, s);
    lemma_triple(h, m, s, ':');
    lemma_time(h, m, s);
    text::lemma_trimmed_same(a);
    lemma_not_a_shortcut(a);
    lemma_one_word(a);
    let ws = seq![a];
    lemma_time_word(a, calendar::any_time(a));
    lemma_event_of_words(a, a, ws);
    lemma_undated_week(ws, calendar::any_time(a));
}

#[verifier::spinoff_prover]
#[verifier::rlimit(30)]
proof fn lemma_time_word(a: Seq<char>, c: CalendarView)
    requires
        a.contains(':'),
    ensures
        calendar::event_words(seq![a], c, false, false) == match calendar::time_of(a) {
            Err(e) => Err(e),
            Ok(x) => Ok(
                (CalendarView { hour: x.0, minute: x.1, second: x.2, ..c }, false, true),
            ),
        },
{
    lemma_first_is_time(seq![a], c, false);
    assert(seq![a].skip(1) =~= seq![]);
}

// ---------------------------------------------------------------------
// Shortcuts
// ---------------------------------------------------------------------

#[verifier::spinoff_prover]
#[verifier::rlimit(30)]
proof fn lemma_one_value(t: Seq<char>, n: u32, lo: u32, hi: u32)
    requires
        is_numeral(t, n as int),
        lo <= n <= hi < u32::MAX,
    ensures
        calendar::chunk_of(t, lo, hi) == Ok::<Chunk, Seq<char>>(Chunk { from: n, to: n, step: 1 }),
        calendar::field_of(t, lo, hi) is Ok,
        forall|v: u32| #[trigger]
            calendar::field_allows(calendar::field_of(t, lo, hi)->Ok_0, v) <==> v == n,
{
    lemma_numeral(t, n);
    lemma_bounds(t, t, n, n, lo, hi);
    lemma_one_part(t, '/');
    lemma_one_part(t, ',');
    let ps = seq![t];
    let c = Chunk { from: n, to: n, step: 1 };
    assert(ps.drop_last() =~= seq![]);
    assert(calendar::chunks_of(ps.drop_last(), lo, hi) == Ok::<Seq<Chunk>, Seq<char>>(seq![]));
    let cs = Seq::<Chunk>::empty().push(c);
    assert(calendar::chunks_of(ps, lo, hi) == Ok::<Seq<Chunk>, Seq<char>>(cs));
    calendar::field_values_ascend(cs, lo as int, hi + 1);
    assert forall|v: u32| #[trigger]
        calendar::field_allows(calendar::field_of(t, lo, hi)->Ok_0, v) <==> v == n by {
        assert(calendar::chunk_values(cs, lo as int, hi + 1).contains(v) <==> lo <= v < hi + 1
            && calendar::in_chunks(cs, v as int));
        if v == n {
            assert(calendar::in_chunk(cs[0], v as int));
        }
    }
}

#[verifier::spinoff_prover]
#[verifier::rlimit(30)]
proof fn lemma_many_values(ts: Seq<Seq<char>>, ns: Seq<u32>, s: Seq<char>, lo: u32, hi: u32)
    requires
        lo <= hi < u32::MAX,
        ts.len() == ns.len(),
        s != "*"@,
        text::split_parts(s, ',') == ts,
        forall|i: int|
            0 <= i < ts.len() ==> is_numeral(#[trigger] ts[i], ns[i] as int) && lo <= ns[i] <= hi,
    ensures
        calendar::field_of(s, lo, hi) is Ok,
        forall|v: u32| #[trigger]
            calendar::field_allows(calendar::field_of(s, lo, hi)->Ok_0, v) <==> ns.contains(v),
{
    lemma_numeral_chunks(ts, ns, lo, hi);
    let cs = calendar::chunks_of(ts, lo, hi)->Ok_0;
    calendar::field_values_ascend(cs, lo as int, hi + 1);
    assert forall|v: u32| #[trigger]
        calendar::field_allows(calendar::field_of(s, lo, hi)->Ok_0, v) <==> ns.contains(v) by {
        assert(calendar::chunk_values(cs, lo as int, hi + 1).contains(v) <==> lo <= v < hi + 1
            && calendar::in_chunks(cs, v as int));
        if ns.contains(v) {
            let i = choose|i: int| 0 <= i < ns.len() && ns[i] == v;
            assert(is_numeral(ts[i], ns[i] as int));
            assert(calendar::in_chunk(cs[i], v as int));
        }
    }
}

#[verifier::spinoff_prover]
#[verifier::rlimit(30)]
proof fn lemma_numeral_chunks(ts: Seq<Seq<char>>, ns: Seq<u32>, lo: u32, hi: u32)
    requires
        lo <= hi < u32::MAX,
        ts.len() == ns.len(),
        forall|i: int|
            0 <= i < ts.len() ==> is_numeral(#[trigger] ts[i], ns[i] as int) && lo <= ns[i] <= hi,
    ensures
        calendar::chunks_of(ts, lo, hi) matches Ok(cs) && cs.len() == ns.len() && forall|i: int|
            0 <= i < cs.len() ==> #[trigger] cs[i] == (Chunk { from: ns[i], to: ns[i], step: 1 }),
    decreases ts.len(),
{
    if ts.len() > 0 {
        let (a, b) = (ts.drop_last(), ns.drop_last());
        assert forall|i: int| 0 <= i < a.len() implies is_numeral(#[trigger] a[i], b[i] as int) && lo
            <= b[i] <= hi by {
            assert(a[i] == ts[i]);
        }
        lemma_numeral_chunks(a, b, lo, hi);
        let k = ts.len() - 1;
        assert(is_numeral(ts[k], ns[k] as int));
        lemma_one_value(ts[k], ns[k], lo, hi);
    }
}

proof fn lemma_two_digits(t: Seq<char>)
    requires
        t.len() == 2,
        number::digit_in(t[0], 10),
        number::digit_in(t[1], 10),
    ensures
        is_numeral(t, (t[0] as u32 - 48) * 10 + (t[1] as u32 - 48)),
        is_field(t),
{
    let u = t.drop_last();
    assert(u.drop_last() =~= seq![]);
    assert(number::digits_value(u.drop_last(), 10) == 0);
    assert(number::digits_value(u, 10) == number::digit_value(t[0]));
}

/// Whether the text is an event without a time zone that fires at a reading of
/// calendar and clock just where `when` holds.
pub open spec fn fires_just_when(name: Seq<char>, c: Civil, when: bool) -> bool {
    calendar::calendar_of(name) matches Ok(spec) && spec.timezone is None && (schedule::fires(spec, c)
        <==> when)
}

#[verifier::spinoff_prover]
#[verifier::rlimit(30)]
proof fn lemma_event_of_two(name: Seq<char>, body: Seq<char>, a: Seq<char>, b: Seq<char>, e: CalendarView)
    requires
        text::trimmed(name) == name,
        calendar::shortcut_of(name) == Some(body),
        text::items(body, false) == seq![a, b],
        !calendar::looks_like_weekday(a),
        b.contains(':'),
        calendar::event_words(seq![a, b], calendar::any_time(name), false, false) == Ok::<
            (CalendarView, bool, bool),
            Seq<char>,
        >((e, true, true)),
    ensures
        calendar::calendar_of(name) == Ok::<CalendarView, Seq<char>>(e),
{
    let ws = seq![a, b];
    lemma_event_of_words(name, body, ws);
    lemma_undated_week(ws, calendar::any_time(name));
}

#[verifier::spinoff_prover]
#[verifier::rlimit(30)]
proof fn lemma_event_items(
    y: Seq<char>,
    m: Seq<char>,
    d: Seq<char>,
    h: Seq<char>,
    mi: Seq<char>,
    s: Seq<char>,
)
    requires
        is_field(y),
        is_field(m),
        is_field(d),
        is_field(h),
        is_field(mi),
        is_field(s),
    ensures
        text::items(event_text(y, m, d, h, mi, s), false) == seq![
            date_text(y, m, d),
            time_text(h, mi, s),
        ],
        !calendar::looks_like_weekday(date_text(y, m, d)),
        time_text(h, mi, s).contains(':'),
{
    let (a, b) = (date_text(y, m, d), time_text(h, mi, s));
    lemma_triple(y, m, d, '-');
    lemma_triple(h, mi, s, ':');
    lemma_more_words(a, b);
    lemma_one_word(b);
    assert(seq![a] + seq![b] =~= seq![a, b]);
}

#[verifier::spinoff_prover]
#[verifier::rlimit(60)]
proof fn lemma_shortcut(
    name: Seq<char>,
    y: Seq<char>,
    m: Seq<char>,
    d: Seq<char>,
    h: Seq<char>,
    mi: Seq<char>,
    s: Seq<char>,
)
    requires
        is_word(name),
        is_field(y),
        is_field(m),
        is_field(d),
        is_field(h),
        is_field(mi),
        is_field(s),
        all_read(y, m, d, h, mi, s),
        calendar::shortcut_of(name) == Some(event_text(y, m, d, h, mi, s)),
    ensures
        calendar::calendar_of(name) == Ok::<CalendarView, Seq<char>>(
            with_fields(calendar::any_time(name), y, m, d, h, mi, s),
        ),
{
    text::lemma_trimmed_same(name);
    lemma_event_items(y, m, d, h, mi, s);
    let c = calendar::any_time(name);
    lemma_date_and_time(c, y, m, d, h, mi, s);
    lemma_event_of_two(
        name,
        event_text(y, m, d, h, mi, s),
        date_text(y, m, d),
        time_text(h, mi, s),
        with_fields(c, y, m, d, h, mi, s),
    );
}

#[verifier::spinoff_prover]
#[verifier::rlimit(60)]
proof fn lemma_monday_shortcut(
    name: Seq<char>,
    y: Seq<char>,
    m: Seq<char>,
    d: Seq<char>,
    h: Seq<char>,
    mi: Seq<char>,
    s: Seq<char>,
)
    requires
        is_word(name),
        is_field(y),
        is_field(m),
        is_field(d),
        is_field(h),
        is_field(mi),
        is_field(s),
        all_read(y, m, d, h, mi, s),
        calendar::shortcut_of(name) == Some(joined("Mon"@, ' ', event_text(y, m, d, h, mi, s))),
    ensures
        calendar::calendar_of(name) == Ok::<CalendarView, Seq<char>>(
            with_fields(
                CalendarView {
                    weekdays: calendar::weekdays_of("Mon"@)->Ok_0,
                    ..calendar::any_time(name)
                },
                y,
                m,
                d,
                h,
                mi,
                s,
            ),
        ),
{
    text::lemma_trimmed_same(name);
    lemma_event_items(y, m, d, h, mi, s);
    lemma_monday();
    let c = calendar::any_time(name);
    let t = event_text(y, m, d, h, mi, s);
    let us = seq![date_text(y, m, d), time_text(h, mi, s)];
    let mon = "Mon"@;
    lemma_more_words(mon, t);
    let ws = seq![mon] + us;
    assert(ws.skip(1) =~= us);
    assert(ws.last() == us.last());
    assert(ws[0] == mon);
    let days = calendar::weekdays_of(mon)->Ok_0;
    let e = CalendarView { weekdays: days, ..c };
    lemma_date_and_time(e, y, m, d, h, mi, s);
    lemma_event_of_words(name, joined(mon, ' ', t), ws);
    lemma_dated_week(ws, c, with_fields(e, y, m, d, h, mi, s));
}

#[verifier::spinoff_prover]
#[verifier::rlimit(30)]
proof fn lemma_monday()
    ensures
        is_word("Mon"@),
        calendar::looks_like_weekday("Mon"@),
        calendar::weekdays_of("Mon"@) is Ok,
        forall|v: u32|
            calendar::field_allows(calendar::weekdays_of("Mon"@)->Ok_0, v) <==> v == 1,
{
    reveal_strlit("Mon");
    let m = "Mon"@;
    reveal_with_fuel(calendar::leading_letters, 4);
    assert(m.skip(1).skip(1).skip(1) =~= seq![]);
    assert(calendar::leading_letters(m) =~= m);
    lemma_one_part(m, ',');
    lemma_no_pair(m);
    let ps = seq![m];
    assert(ps.drop_last() =~= seq![]);
    assert(calendar::day_ranges(ps.drop_last()) == Ok::<Seq<(u32, u32)>, Seq<char>>(seq![]));
    let ds = Seq::<(u32, u32)>::empty().push((1u32, 1u32));
    assert(calendar::day_ranges(ps) == Ok::<Seq<(u32, u32)>, Seq<char>>(ds));
    assert(calendar::in_day_ranges(ds, 1)) by {
        assert(calendar::in_days(ds[0].0, ds[0].1, 1));
    }
    reveal_with_fuel(calendar::day_values, 9);
    let vs = calendar::day_values(ds, 8);
    assert(vs =~= seq![1u32]);
    assert(vs[0] == 1);
}

proof fn lemma_zeros()
    ensures
        is_numeral("00"@, 0),
        is_numeral("01"@, 1),
        is_field("00"@),
        is_field("01"@),
        is_field("*"@),
        is_field("01,07"@),
        is_field("01,04,07,10"@),
{
    reveal_strlit("00");
    reveal_strlit("01");
    reveal_strlit("*");
    reveal_strlit("01,07");
    reveal_strlit("01,04,07,10");
    lemma_two_digits("00"@);
    lemma_two_digits("01"@);
}

/// What `minutely` to `annually` mean: each fires at a reading of calendar and
/// clock just where the second is 0, and, from the hour on, each larger unit that
/// the name skips is at its start: the minute and the hour at 0, the day Monday or
/// the first of the month, the month the first of the quarter, the half or the
/// year.
pub proof fn shortcuts_fire_at_the_start_of_their_span(c: Civil)
    ensures
        fires_just_when("minutely"@, c, c.second == 0),
        fires_just_when("hourly"@, c, c.minute == 0 && c.second == 0),
        fires_just_when("daily"@, c, midnight(c)),
        fires_just_when("weekly"@, c, midnight(c) && schedule::shown_weekday(c) == 1),
        fires_just_when("monthly"@, c, midnight(c) && c.day == 1),
        fires_just_when(
            "quarterly"@,
            c,
            midnight(c) && c.day == 1 && (c.month == 1 || c.month == 4 || c.month == 7 || c.month
                == 10),
        ),
        fires_just_when(
            "semiannually"@,
            c,
            midnight(c) && c.day == 1 && (c.month == 1 || c.month == 7),
        ),
        fires_just_when(
            "semi-annually"@,
            c,
            midnight(c) && c.day == 1 && (c.month == 1 || c.month == 7),
        ),
        fires_just_when("yearly"@, c, midnight(c) && c.day == 1 && c.month == 1),
        fires_just_when("annually"@, c, midnight(c) && c.day == 1 && c.month == 1),
{
    lemma_short_spans(c);
    lemma_long_spans(c);
    lemma_listed_spans(c);
}

/// Whether the clock shows midnight.
pub open spec fn midnight(c: Civil) -> bool {
    c.hour == 0 && c.minute == 0 && c.second == 0
}

#[verifier::spinoff_prover]
#[verifier::rlimit(30)]
proof fn lemma_shortcut_names()
    ensures
        is_word("minutely"@) && calendar::shortcut_of("minutely"@) == Some("*-*-* *:*:00"@),
        is_word("hourly"@) && calendar::shortcut_of("hourly"@) == Some("*-*-* *:00:00"@),
        is_word("daily"@) && calendar::shortcut_of("daily"@) == Some("*-*-* 00:00:00"@),
        is_word("weekly"@) && calendar::shortcut_of("weekly"@) == Some("Mon *-*-* 00:00:00"@),
        is_word("monthly"@) && calendar::shortcut_of("monthly"@) == Some("*-*-01 00:00:00"@),
        is_word("quarterly"@) && calendar::shortcut_of("quarterly"@) == Some(
            "*-01,04,07,10-01 00:00:00"@,
        ),
        is_word("semiannually"@) && calendar::shortcut_of("semiannually"@) == Some(
            "*-01,07-01 00:00:00"@,
        ),
        is_word("semi-annually"@) && calendar::shortcut_of("semi-annually"@) == Some(
            "*-01,07-01 00:00:00"@,
        ),
        is_word("yearly"@) && calendar::shortcut_of("yearly"@) == Some("*-01-01 00:00:00"@),
        is_word("annually"@) && calendar::shortcut_of("annually"@) == Some("*-01-01 00:00:00"@),
{
    reveal_strlit("minutely");
    reveal_strlit("hourly");
    reveal_strlit("daily");
    reveal_strlit("weekly");
    reveal_strlit("monthly");
    reveal_strlit("quarterly");
    reveal_strlit("semiannually");
    reveal_strlit("semi-annually");
    reveal_strlit("yearly");
    reveal_strlit("annually");
    assert("minutely"@[0] == 'm' && "hourly"@[0] == 'h' && "daily"@[0] == 'd' && "weekly"@[0] == 'w'
        && "monthly"@[0] == 'm' && "quarterly"@[0] == 'q' && "semiannually"@[0] == 's'
        && "semi-annually"@[0] == 's' && "yearly"@[0] == 'y' && "annually"@[0] == 'a');
}

proof fn lemma_spelled(
    body: Seq<char>,
    y: Seq<char>,
    m: Seq<char>,
    d: Seq<char>,
    h: Seq<char>,
    mi: Seq<char>,
    s: Seq<char>,
)
    requires
        body =~= y + seq!['-'] + m + seq!['-'] + d + seq![' '] + h + seq![':'] + mi + seq![':'] + s,
    ensures
        body == event_text(y, m, d, h, mi, s),
{
    reveal(joined);
    assert(body =~= event_text(y, m, d, h, mi, s));
}

#[verifier::spinoff_prover]
#[verifier::rlimit(60)]
proof fn lemma_short_spans(c: Civil)
    ensures
        fires_just_when("minutely"@, c, c.second == 0),
        fires_just_when("hourly"@, c, c.minute == 0 && c.second == 0),
        fires_just_when("daily"@, c, midnight(c)),
{
    let (any, zero) = ("*"@, "00"@);
    lemma_zeros();
    lemma_shortcut_names();
    lemma_one_value(zero, 0, 0, 59);
    lemma_one_value(zero, 0, 0, 23);
    assert("*-*-* *:*:00"@ == event_text(any, any, any, any, any, zero)) by {
        lemma_texts();
    }
    assert("*-*-* *:00:00"@ == event_text(any, any, any, any, zero, zero)) by {
        lemma_texts();
    }
    assert("*-*-* 00:00:00"@ == event_text(any, any, any, zero, zero, zero)) by {
        lemma_texts();
    }
    lemma_shortcut("minutely"@, any, any, any, any, any, zero);
    lemma_shortcut("hourly"@, any, any, any, any, zero, zero);
    lemma_shortcut("daily"@, any, any, any, zero, zero, zero);
}

#[verifier::spinoff_prover]
#[verifier::rlimit(60)]
proof fn lemma_texts()
    ensures
        "*-*-* *:*:00"@ == event_text("*"@, "*"@, "*"@, "*"@, "*"@, "00"@),
        "*-*-* *:00:00"@ == event_text("*"@, "*"@, "*"@, "*"@, "00"@, "00"@),
        "*-*-* 00:00:00"@ == event_text("*"@, "*"@, "*"@, "00"@, "00"@, "00"@),
        "Mon *-*-* 00:00:00"@ == joined(
            "Mon"@,
            ' ',
            event_text("*"@, "*"@, "*"@, "00"@, "00"@, "00"@),
        ),
        "*-*-01 00:00:00"@ == event_text("*"@, "*"@, "01"@, "00"@, "00"@, "00"@),
        "*-01-01 00:00:00"@ == event_text("*"@, "01"@, "01"@, "00"@, "00"@, "00"@),
        "*-01,07-01 00:00:00"@ == event_text("*"@, "01,07"@, "01"@, "00"@, "00"@, "00"@),
        "*-01,04,07,10-01 00:00:00"@ == event_text("*"@, "01,04,07,10"@, "01"@, "00"@, "00"@, "00"@),
{
    reveal_strlit("*");
    reveal_strlit("00");
    reveal_strlit("01");
    reveal_strlit("01,07");
    reveal_strlit("01,04,07,10");
    reveal_strlit("Mon");
    reveal_strlit("*-*-* *:*:00");
    reveal_strlit("*-*-* *:00:00");
    reveal_strlit("*-*-* 00:00:00");
    reveal_strlit("Mon *-*-* 00:00:00");
    reveal_strlit("*-*-01 00:00:00");
    reveal_strlit("*-01-01 00:00:00");
    reveal_strlit("*-01,07-01 00:00:00");
    reveal_strlit("*-01,04,07,10-01 00:00:00");
    lemma_spelled("*-*-* *:*:00"@, "*"@, "*"@, "*"@, "*"@, "*"@, "00"@);
    lemma_spelled("*-*-* *:00:00"@, "*"@, "*"@, "*"@, "*"@, "00"@, "00"@);
    lemma_spelled("*-*-* 00:00:00"@, "*"@, "*"@, "*"@, "00"@, "00"@, "00"@);
    lemma_spelled("*-*-01 00:00:00"@, "*"@, "*"@, "01"@, "00"@, "00"@, "00"@);
    lemma_spelled("*-01-01 00:00:00"@, "*"@, "01"@, "01"@, "00"@, "00"@, "00"@);
    lemma_spelled("*-01,07-01 00:00:00"@, "*"@, "01,07"@, "01"@, "00"@, "00"@, "00"@);
    lemma_spelled("*-01,04,07,10-01 00:00:00"@, "*"@, "01,04,07,10"@, "01"@, "00"@, "00"@, "00"@);
    reveal(joined);
    assert("Mon *-*-* 00:00:00"@ =~= joined("Mon"@, ' ', "*-*-* 00:00:00"@));
}

#[verifier::spinoff_prover]
#[verifier::rlimit(60)]
proof fn lemma_long_spans(c: Civil)
    ensures
        fires_just_when("weekly"@, c, midnight(c) && schedule::shown_weekday(c) == 1),
        fires_just_when("monthly"@, c, midnight(c) && c.day == 1),
        fires_just_when("yearly"@, c, midnight(c) && c.day == 1 && c.month == 1),
        fires_just_when("annually"@, c, midnight(c) && c.day == 1 && c.month == 1),
{
    let (any, zero, one) = ("*"@, "00"@, "01"@);
    lemma_zeros();
    lemma_shortcut_names();
    lemma_one_value(zero, 0, 0, 59);
    lemma_one_value(zero, 0, 0, 23);
    lemma_one_value(one, 1, 1, 31);
    lemma_one_value(one, 1, 1, 12);
    lemma_texts();
    lemma_monday();
    lemma_monday_shortcut("weekly"@, any, any, any, zero, zero, zero);
    lemma_shortcut("monthly"@, any, any, one, zero, zero, zero);
    lemma_shortcut("yearly"@, any, one, one, zero, zero, zero);
    lemma_shortcut("annually"@, any, one, one, zero, zero, zero);
}

#[verifier::spinoff_prover]
#[verifier::rlimit(30)]
proof fn lemma_month_parts()
    ensures
        text::split_parts("01,07"@, ',') == seq![seq!['0', '1'], seq!['0', '7']],
        text::split_parts("01,04,07,10"@, ',') == seq![
            seq!['0', '1'],
            seq!['0', '4'],
            seq!['0', '7'],
            seq!['1', '0'],
        ],
        "01,07"@ != "*"@,
        "01,04,07,10"@ != "*"@,
{
    let (a, b, c, d) = (seq!['0', '1'], seq!['0', '4'], seq!['0', '7'], seq!['1', '0']);
    assert("01,07"@ == joined(a, ',', c) && "01,04,07,10"@ == joined(
        a,
        ',',
        joined(b, ',', joined(c, ',', d)),
    )) by {
        reveal(joined);
        reveal_strlit("01,07");
        reveal_strlit("01,04,07,10");
        assert("01,07"@ =~= joined(a, ',', c));
        assert("01,04,07,10"@ =~= joined(a, ',', joined(b, ',', joined(c, ',', d))));
    }
    lemma_one_part(c, ',');
    lemma_one_part(d, ',');
    lemma_more_parts(a, ',', c);
    lemma_more_parts(c, ',', d);
    lemma_more_parts(b, ',', joined(c, ',', d));
    lemma_more_parts(a, ',', joined(b, ',', joined(c, ',', d)));
    assert(seq![a] + seq![c] =~= seq![a, c]);
    assert(seq![a] + (seq![b] + (seq![c] + seq![d])) =~= seq![a, b, c, d]);
    assert("01,07"@.len() > 1 && "01,04,07,10"@.len() > 1 && "*"@.len() == 1) by {
        reveal_strlit("01,07");
        reveal_strlit("01,04,07,10");
        reveal_strlit("*");
    }
}

#[verifier::spinoff_prover]
#[verifier::rlimit(60)]
proof fn lemma_month_lists()
    ensures
        calendar::field_of("01,07"@, 1, 12) is Ok,
        calendar::field_of("01,04,07,10"@, 1, 12) is Ok,
        forall|v: u32| #[trigger]
            calendar::field_allows(calendar::field_of("01,07"@, 1, 12)->Ok_0, v) <==> v == 1 || v
                == 7,
        forall|v: u32| #[trigger]
            calendar::field_allows(calendar::field_of("01,04,07,10"@, 1, 12)->Ok_0, v) <==> v == 1
                || v == 4 || v == 7 || v == 10,
{
    lemma_month_parts();
    let (a, b, c, d) = (seq!['0', '1'], seq!['0', '4'], seq!['0', '7'], seq!['1', '0']);
    lemma_two_digits(a);
    lemma_two_digits(b);
    lemma_two_digits(c);
    lemma_two_digits(d);
    let (x, y) = (seq![a, c], seq![a, b, c, d]);
    let (p, q) = (seq![1u32, 7u32], seq![1u32, 4u32, 7u32, 10u32]);
    lemma_many_values(x, p, "01,07"@, 1, 12);
    lemma_many_values(y, q, "01,04,07,10"@, 1, 12);
    assert(p[0] == 1 && p[1] == 7 && q[0] == 1 && q[1] == 4 && q[2] == 7 && q[3] == 10);
}

#[verifier::spinoff_prover]
#[verifier::rlimit(60)]
proof fn lemma_listed_spans(c: Civil)
    ensures
        fires_just_when(
            "quarterly"@,
            c,
            midnight(c) && c.day == 1 && (c.month == 1 || c.month == 4 || c.month == 7 || c.month
                == 10),
        ),
        fires_just_when(
            "semiannually"@,
            c,
            midnight(c) && c.day == 1 && (c.month == 1 || c.month == 7),
        ),
        fires_just_when(
            "semi-annually"@,
            c,
            midnight(c) && c.day == 1 && (c.month == 1 || c.month == 7),
        ),
{
    let (any, zero, one) = ("*"@, "00"@, "01"@);
    lemma_zeros();
    lemma_shortcut_names();
    lemma_one_value(zero, 0, 0, 59);
    lemma_one_value(zero, 0, 0, 23);
    lemma_one_value(one, 1, 1, 31);
    lemma_month_lists();
    lemma_texts();
    lemma_shortcut("quarterly"@, any, "01,04,07,10"@, one, zero, zero, zero);
    lemma_shortcut("semiannually"@, any, "01,07"@, one, zero, zero, zero);
    lemma_shortcut("semi-annually"@, any, "01,07"@, one, zero, zero, zero);
}

} // verus!
