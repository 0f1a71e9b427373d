//! What command lines say.

use crate::text;
use crate::unit::exec;
use crate::unit::exec::{ExecFlags, Quote};
use vstd::prelude::*;

verus! {

// ---------------------------------------------------------------------
// Words
// ---------------------------------------------------------------------

/// Whether the character stands for itself outside quotes.
pub open spec fn is_plain(c: char) -> bool {
    c != ' ' && c != '\t' && c != '\\' && c != '\'' && c != '"'
}

/// Whether the text is one word that needs no quotes.
pub open spec fn is_plain_word(w: Seq<char>) -> bool {
    &&& w.len() > 0
    &&& forall|i: int| 0 <= i < w.len() ==> is_plain(#[trigger] w[i])
}

proof fn lemma_plain_run(w: Seq<char>, rest: Seq<char>, out: Seq<Seq<char>>, cur: Seq<char>)
    requires
        is_plain_word(w),
    ensures
        exec::words_from(w + rest, Quote::Outside, out, cur, true) == exec::words_from(
            rest,
            Quote::Outside,
            out,
            cur + w,
            true,
        ),
        exec::words_from(w + rest, Quote::Outside, out, cur, false) == exec::words_from(
            rest,
            Quote::Outside,
            out,
            cur + w,
            true,
        ),
    decreases w.len(),
{
    let s = w + rest;
    assert(s[0] == w[0]);
    assert(is_plain(w[0]));
    assert(s.skip(1) =~= w.skip(1) + rest);
    let next = cur.push(w[0]);
    if w.len() == 1 {
        assert(s.skip(1) =~= rest);
        assert(next =~= cur + w);
    } else {
        assert forall|i: int| 0 <= i < w.skip(1).len() implies is_plain(
            #[trigger] w.skip(1)[i],
        ) by {
            assert(w.skip(1)[i] == w[i + 1]);
        }
        lemma_plain_run(w.skip(1), rest, out, next);
        assert(next + w.skip(1) =~= cur + w);
    }
}

/// The words with one space between them.
pub open spec fn spaced(ws: Seq<Seq<char>>) -> Seq<char>
    decreases ws.len(),
{
    if ws.len() == 0 {
        seq![]
    } else if ws.len() == 1 {
        ws[0]
    } else {
        ws[0] + (seq![' '] + spaced(ws.skip(1)))
    }
}

proof fn lemma_spaced(ws: Seq<Seq<char>>, out: Seq<Seq<char>>)
    requires
        forall|i: int| 0 <= i < ws.len() ==> is_plain_word(#[trigger] ws[i]),
    ensures
        exec::words_from(spaced(ws), Quote::Outside, out, seq![], false) == Ok::<
            Seq<Seq<char>>,
            Seq<char>,
        >(out + ws),
    decreases ws.len(),
{
    let none = Seq::<char>::empty();
    if ws.len() == 0 {
        assert(out + ws =~= out);
    } else {
        let w = ws[0];
        assert(is_plain_word(w));
        assert(none + w =~= w);
        if ws.len() == 1 {
            assert(w + none =~= w);
            lemma_plain_run(w, none, out, none);
            assert(out.push(w) =~= out + ws);
        } else {
            let more = ws.skip(1);
            let rest = seq![' '] + spaced(more);
            lemma_plain_run(w, rest, out, none);
            assert(rest[0] == ' ');
            assert(rest.skip(1) =~= spaced(more));
            assert forall|i: int| 0 <= i < more.len() implies is_plain_word(#[trigger] more[i]) by {
                assert(more[i] == ws[i + 1]);
            }
            lemma_spaced(more, out.push(w));
            assert(out.push(w) + more =~= out + ws);
        }
    }
}

/// Plain words with spaces between them are those words, in order.
pub proof fn spaces_part_words(ws: Seq<Seq<char>>)
    requires
        forall|i: int| 0 <= i < ws.len() ==> is_plain_word(#[trigger] ws[i]),
    ensures
        exec::shell_words(spaced(ws)) == Ok::<Seq<Seq<char>>, Seq<char>>(ws),
{
    lemma_spaced(ws, seq![]);
    assert(Seq::<Seq<char>>::empty() + ws =~= ws);
}

proof fn lemma_quoted_run(
    w: Seq<char>,
    q: Quote,
    c: char,
    rest: Seq<char>,
    out: Seq<Seq<char>>,
    cur: Seq<char>,
)
    requires
        (q == Quote::Single && c == '\'') || (q == Quote::Double && c == '"'),
        forall|i: int|
            0 <= i < w.len() ==> #[trigger] w[i] != c && (q == Quote::Double ==> w[i] != '\\'),
    ensures
        exec::words_from(w + (seq![c] + rest), q, out, cur, true) == exec::words_from(
            rest,
            Quote::Outside,
            out,
            cur + w,
            true,
        ),
    decreases w.len(),
{
    let tail = seq![c] + rest;
    let s = w + tail;
    if w.len() == 0 {
        assert(s =~= tail);
        assert(s[0] == c);
        assert(s.skip(1) =~= rest);
        assert(cur + w =~= cur);
    } else {
        assert(s[0] == w[0]);
        assert(s.skip(1) =~= w.skip(1) + tail);
        assert forall|i: int| 0 <= i < w.skip(1).len() implies #[trigger] w.skip(1)[i] != c && (q
            == Quote::Double ==> w.skip(1)[i] != '\\') by {
            assert(w.skip(1)[i] == w[i + 1]);
        }
        lemma_quoted_run(w.skip(1), q, c, rest, out, cur.push(w[0]));
        assert(cur.push(w[0]) + w.skip(1) =~= cur + w);
    }
}

/// Quotes keep what stands between them as one word, spaces and all: single ones
/// everything but themselves, double ones all but themselves and backslashes. Quotes
/// that do not end are an error.
pub proof fn quotes_keep_a_word_together(w: Seq<char>, c: char)
    requires
        c == '\'' || c == '"',
        forall|i: int|
            0 <= i < w.len() ==> #[trigger] w[i] != c && (c == '"' ==> w[i] != '\\'),
    ensures
        exec::shell_words(seq![c] + (w + seq![c])) == Ok::<Seq<Seq<char>>, Seq<char>>(seq![w]),
        exec::shell_words(seq![c] + w) is Err,
{
    let none = Seq::<char>::empty();
    let q = if c == '"' {
        Quote::Double
    } else {
        Quote::Single
    };
    let s = seq![c] + (w + seq![c]);
    assert(s[0] == c);
    assert(s.skip(1) =~= w + (seq![c] + none));
    lemma_quoted_run(w, q, c, none, seq![], none);
    assert(none + w =~= w);
    assert(Seq::<Seq<char>>::empty().push(w) =~= seq![w]);
    let t = seq![c] + w;
    assert(t[0] == c);
    assert(t.skip(1) =~= w);
    lemma_open_quote(w, q, c, none);
}

proof fn lemma_open_quote(w: Seq<char>, q: Quote, c: char, cur: Seq<char>)
    requires
        (q == Quote::Single && c == '\'') || (q == Quote::Double && c == '"'),
        forall|i: int|
            0 <= i < w.len() ==> #[trigger] w[i] != c && (q == Quote::Double ==> w[i] != '\\'),
    ensures
        exec::words_from(w, q, seq![], cur, true) is Err,
    decreases w.len(),
{
    if w.len() > 0 {
        assert(w[0] != c);
        assert forall|i: int| 0 <= i < w.skip(1).len() implies #[trigger] w.skip(1)[i] != c && (q
            == Quote::Double ==> w.skip(1)[i] != '\\') by {
            assert(w.skip(1)[i] == w[i + 1]);
        }
        lemma_open_quote(w.skip(1), q, c, cur.push(w[0]));
    }
}

/// A backslash outside quotes makes any character part of the word; at the end it
/// is an error.
pub proof fn a_backslash_keeps_the_next_character(c: char)
    ensures
        exec::shell_words(seq!['\\', c]) == Ok::<Seq<Seq<char>>, Seq<char>>(seq![seq![c]]),
        exec::shell_words(seq!['\\']) is Err,
{
    let s = seq!['\\', c];
    let none = Seq::<char>::empty();
    assert(s.skip(1)[0] == c);
    assert(s.skip(2) =~= none);
    assert(none.push(c) =~= seq![c]);
    let out = Seq::<Seq<char>>::empty();
    assert(out.push(seq![c]) =~= seq![seq![c]]);
    assert(exec::words_from(none, Quote::Outside, out, seq![c], true) == Ok::<
        Seq<Seq<char>>,
        Seq<char>,
    >(out.push(seq![c])));
    assert(exec::words_from(s, Quote::Outside, out, none, false) == exec::words_from(
        none,
        Quote::Outside,
        out,
        none.push(c),
        true,
    ));
    assert(seq!['\\'].skip(1).len() == 0);
}

// ---------------------------------------------------------------------
// Flags
// ---------------------------------------------------------------------

/// The flag that a character before a command sets.
pub open spec fn flag_of(c: char) -> u8 {
    if c == '-' {
        ExecFlags::IGNORE_FAILURE
    } else if c == '+' {
        ExecFlags::FULL_PRIVS
    } else if c == '!' {
        ExecFlags::RAISE_PRIV
    } else if c == ':' {
        ExecFlags::NO_ENV_SUBST
    } else if c == '@' {
        ExecFlags::SET_ARGV0
    } else {
        0
    }
}

proof fn lemma_flags_add(s: Seq<char>, a: u8, b: u8)
    ensures
        exec::leading_flags(s, a | b).0 == exec::leading_flags(s, a).0 | b,
        exec::leading_flags(s, a | b).1 == exec::leading_flags(s, a).1,
    decreases s.len(),
{
    text::lemma_trimmed_ends(s.skip(1));
    text::lemma_trimmed_ends(s.skip(2));
    if s.len() >= 2 && s[0] == '!' && s[1] == '!' {
        lemma_or(a, b, 0b0000_1000);
        lemma_flags_add(text::trimmed_start(s.skip(2)), a | 0b0000_1000, b);
    } else if s.len() >= 1 && exec::flag_bit(s[0]) is Some {
        let f = exec::flag_bit(s[0])->Some_0;
        lemma_or(a, b, f);
        lemma_flags_add(text::trimmed_start(s.skip(1)), a | f, b);
    }
}

proof fn lemma_or(a: u8, b: u8, f: u8)
    ensures
        (a | b) | f == (a | f) | b,
{
    assert((a | b) | f == (a | f) | b) by (bit_vector);
}

/// A flag before a command adds itself to the flags of that command and changes
/// nothing else of it; `!!` is a flag of its own.
pub proof fn a_flag_adds_itself(c: char, v: Seq<char>)
    requires
        v.len() > 0,
        !text::is_space(v[0]),
        !text::is_space(v.last()),
        c == '-' || c == '+' || c == ':' || (c == '!' && v[0] != '!'),
    ensures
        ({
            let plain = exec::command_of(v);
            let flagged = exec::command_of(seq![c] + v);
            &&& flagged is Ok <==> plain is Ok
            &&& plain is Ok ==> {
                &&& flagged->Ok_0.flags == plain->Ok_0.flags | flag_of(c)
                &&& flagged->Ok_0.argv == plain->Ok_0.argv
                &&& flagged->Ok_0.program == plain->Ok_0.program
            }
        }),
{
    let s = seq![c] + v;
    text::lemma_trimmed_same(v);
    text::lemma_trimmed_same(s);
    assert(s[0] == c);
    assert(s[1] == v[0]);
    assert(s.skip(1) =~= v);
    let f = flag_of(c);
    assert(0u8 | f == f) by (bit_vector);
    lemma_flags_add(v, 0, f);
    let x = exec::leading_flags(v, 0).0;
    assert((x | f) & 0b0010_0000 == x & 0b0010_0000) by (bit_vector)
        requires
            f == 1 || f == 2 || f == 4 || f == 16,
    ;
}

/// Two `!` are one flag.
pub proof fn two_marks_are_one_flag(v: Seq<char>)
    requires
        v.len() > 0,
        !text::is_space(v[0]),
        !text::is_space(v.last()),
        exec::command_of(v) is Ok,
    ensures
        exec::command_of(seq!['!', '!'] + v) matches Ok(x) && x.flags == exec::command_of(
            v,
        )->Ok_0.flags | ExecFlags::AMBIENT_RAISE && x.argv == exec::command_of(v)->Ok_0.argv
            && x.program == exec::command_of(v)->Ok_0.program,
{
    let s = seq!['!', '!'] + v;
    text::lemma_trimmed_same(v);
    text::lemma_trimmed_same(s);
    assert(s.skip(2) =~= v);
    assert(0u8 | 8u8 == 8u8) by (bit_vector);
    lemma_flags_add(v, 0, 8);
    let x = exec::leading_flags(v, 0).0;
    assert((x | 8u8) & 0b0010_0000 == x & 0b0010_0000) by (bit_vector);
}

/// A command is its words: the first is the program. Behind `@` the second is what
/// the program is told it is called.
pub proof fn the_first_word_is_the_program(ws: Seq<Seq<char>>)
    requires
        ws.len() > 1,
        forall|i: int| 0 <= i < ws.len() ==> is_plain_word(#[trigger] ws[i]),
        !text::is_space(spaced(ws)[0]),
        !text::is_space(spaced(ws).last()),
        spaced(ws).len() > 0,
        exec::flag_bit(spaced(ws)[0]) is None,
    ensures
        exec::command_of(spaced(ws)) matches Ok(x) && x.program == ws[0] && x.argv == ws && x.flags
            == 0,
        exec::command_of(seq!['@'] + spaced(ws)) matches Ok(x) && x.program == ws[0] && x.argv
            == ws.skip(1) && x.flags == ExecFlags::SET_ARGV0,
{
    let v = spaced(ws);
    let s = seq!['@'] + v;
    text::lemma_trimmed_same(v);
    text::lemma_trimmed_same(s);
    assert(s[0] == '@');
    assert(s.skip(1) =~= v);
    assert(0u8 | 0b0010_0000u8 == 0b0010_0000u8) by (bit_vector);
    assert(0b0010_0000u8 & 0b0010_0000u8 == 0b0010_0000u8) by (bit_vector);
    assert(0u8 & 0b0010_0000u8 == 0u8) by (bit_vector);
    spaces_part_words(ws);
    assert(exec::leading_flags(v, 0) == (0u8, v));
    assert(exec::leading_flags(v, 0b0010_0000) == (0b0010_0000u8, v));
    assert(exec::leading_flags(s, 0) == (0b0010_0000u8, v));
}

/// Inside double quotes a backslash makes a quote or a backslash plain, and `n`, `t`
/// and `r` the breaks they stand for; before any other character it stays.
pub proof fn escapes_in_double_quotes(c: char)
    ensures
        exec::shell_words(seq!['"', '\\', c, '"']) == Ok::<Seq<Seq<char>>, Seq<char>>(
            seq![
                if c == 'n' {
                    seq!['\n']
                } else if c == 't' {
                    seq!['\t']
                } else if c == 'r' {
                    seq!['\r']
                } else if c == '"' || c == '\\' {
                    seq![c]
                } else {
                    seq!['\\', c]
                },
            ],
        ),
{
    let s = seq!['"', '\\', c, '"'];
    let none = Seq::<char>::empty();
    let out = Seq::<Seq<char>>::empty();
    let w = exec::unescaped(c);
    let t = s.skip(1);
    let u = t.skip(2);
    assert(t =~= seq!['\\', c, '"']);
    assert(t.skip(1)[0] == c);
    assert(u =~= seq!['"']);
    assert(u.skip(1) =~= none);
    assert(none + w =~= w);
    assert(out.push(w) =~= seq![w]);
    assert(exec::words_from(none, Quote::Outside, out, w, true) == Ok::<Seq<Seq<char>>, Seq<char>>(
        out.push(w),
    ));
    assert(exec::words_from(u, Quote::Double, out, w, true) == exec::words_from(
        none,
        Quote::Outside,
        out,
        w,
        true,
    ));
    assert(exec::words_from(t, Quote::Double, out, none, true) == exec::words_from(
        u,
        Quote::Double,
        out,
        none + w,
        true,
    ));
    assert(exec::words_from(s, Quote::Outside, out, none, false) == exec::words_from(
        t,
        Quote::Double,
        out,
        none,
        true,
    ));
}

} // verus!
