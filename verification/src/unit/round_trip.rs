//! Rendering an INI and parsing it again.
//!
//! Drop-ins are applied on rendered text: nothing of a unit file's directives
//! may be lost on the way.

use crate::text;
use crate::unit::error::ParseErrorView;
use crate::unit::ini;
use crate::unit::ini::{EntryView, LineView, SectionView};
use vstd::prelude::*;

verus! {

// ---------------------------------------------------------------------
// What a unit file can hold
// ---------------------------------------------------------------------

/// Whether a text neither begins nor ends with white space.
pub open spec fn is_tight(s: Seq<char>) -> bool {
    s.len() > 0 ==> !text::is_space(s[0]) && !text::is_space(s.last())
}

/// Whether an entry can be written on a line of its own: its key holds no `=`
/// and does not begin like a comment or a header, and its value does not end
/// in a backslash.
pub open spec fn is_plain_entry(e: EntryView) -> bool {
    &&& is_tight(e.key)
    &&& is_tight(e.value)
    &&& !e.key.contains('\n')
    &&& !e.value.contains('\n')
    &&& !e.key.contains('=')
    &&& e.key.len() > 0 ==> e.key[0] != '#' && e.key[0] != ';' && e.key[0] != '['
    &&& e.value.len() > 0 ==> e.value.last() != '\\'
}

/// Whether a section can be written.
pub open spec fn is_plain_section(s: SectionView) -> bool {
    &&& is_tight(s.name)
    &&& !s.name.contains('\n')
    &&& forall|i: int| 0 <= i < s.entries.len() ==> is_plain_entry(#[trigger] s.entries[i])
}

/// Whether sections can be written, each once.
pub open spec fn is_plain(v: Seq<SectionView>) -> bool {
    &&& ini::distinct_sections(v)
    &&& forall|i: int| 0 <= i < v.len() ==> is_plain_section(#[trigger] v[i])
}

// ---------------------------------------------------------------------
// Lines
// ---------------------------------------------------------------------

/// The line of an entry.
pub open spec fn entry_line(e: EntryView) -> Seq<char> {
    e.key + "="@ + e.value
}

/// The line of a header.
pub open spec fn header_line(name: Seq<char>) -> Seq<char> {
    "["@ + name + "]"@
}

/// The lines of a list of entries.
pub open spec fn entry_lines(es: Seq<EntryView>) -> Seq<Seq<char>> {
    es.map_values(|e: EntryView| entry_line(e))
}

/// The lines of a section: its header, its entries, an empty line.
pub open spec fn section_lines(s: SectionView) -> Seq<Seq<char>> {
    seq![header_line(s.name)] + entry_lines(s.entries) + seq![Seq::<char>::empty()]
}

/// The lines of an INI.
pub open spec fn rendered_lines(v: Seq<SectionView>) -> Seq<Seq<char>>
    decreases v.len(),
{
    if v.len() == 0 {
        seq![]
    } else {
        section_lines(v[0]) + rendered_lines(v.skip(1))
    }
}

/// Lines, each with its end.
pub open spec fn with_newlines(ls: Seq<Seq<char>>) -> Seq<char>
    decreases ls.len(),
{
    if ls.len() == 0 {
        seq![]
    } else {
        with_newlines(ls.drop_last()) + ls.last() + "\n"@
    }
}

proof fn lemma_newlines_add(a: Seq<Seq<char>>, b: Seq<Seq<char>>)
    ensures
        with_newlines(a + b) == with_newlines(a) + with_newlines(b),
    decreases b.len(),
{
    if b.len() == 0 {
        assert(a + b =~= a);
        assert(with_newlines(a) + with_newlines(b) =~= with_newlines(a));
    } else {
        lemma_newlines_add(a, b.drop_last());
        assert((a + b).drop_last() =~= a + b.drop_last());
        assert((a + b).last() == b.last());
        assert(with_newlines(a + b) =~= with_newlines(a) + with_newlines(b));
    }
}

proof fn lemma_newlines_one(l: Seq<char>)
    ensures
        with_newlines(seq![l]) == l + "\n"@,
{
    let ls = seq![l];
    assert(ls.drop_last() =~= seq![]);
    assert(with_newlines(ls.drop_last()) =~= seq![]);
    assert(with_newlines(ls) =~= l + "\n"@);
}

proof fn lemma_entries_text(es: Seq<EntryView>)
    ensures
        ini::entries_text(es) == with_newlines(entry_lines(es)),
    decreases es.len(),
{
    if es.len() > 0 {
        lemma_entries_text(es.drop_last());
        let ls = entry_lines(es);
        assert(ls.drop_last() =~= entry_lines(es.drop_last()));
        assert(ls.last() == entry_line(es.last()));
        assert(ini::entries_text(es) =~= with_newlines(ls));
    } else {
        assert(entry_lines(es) =~= seq![]);
    }
}

proof fn lemma_section_text(s: SectionView)
    ensures
        ini::section_text(s) == with_newlines(section_lines(s)),
{
    let head = seq![header_line(s.name)];
    let body = entry_lines(s.entries);
    let tail = seq![Seq::<char>::empty()];
    lemma_newlines_add(head, body);
    lemma_newlines_add(head + body, tail);
    lemma_newlines_one(header_line(s.name));
    lemma_newlines_one(Seq::<char>::empty());
    lemma_entries_text(s.entries);
    reveal_strlit("]\n");
    reveal_strlit("]");
    reveal_strlit("\n");
    assert("]\n"@ =~= "]"@ + "\n"@);
    assert(ini::section_text(s) =~= with_newlines(section_lines(s)));
}

proof fn lemma_rendered_last(v: Seq<SectionView>)
    requires
        v.len() > 0,
    ensures
        rendered_lines(v) == rendered_lines(v.drop_last()) + section_lines(v.last()),
    decreases v.len(),
{
    if v.len() == 1 {
        assert(v.skip(1) =~= seq![]);
        assert(v.drop_last() =~= seq![]);
        assert(rendered_lines(v) =~= rendered_lines(v.drop_last()) + section_lines(v.last()));
    } else {
        lemma_rendered_last(v.skip(1));
        assert(v.skip(1).drop_last() =~= v.drop_last().skip(1));
        assert(v.skip(1).last() == v.last());
        assert(v.drop_last()[0] == v[0]);
        assert(rendered_lines(v) =~= rendered_lines(v.drop_last()) + section_lines(v.last()));
    }
}

proof fn lemma_ini_text(v: Seq<SectionView>)
    ensures
        ini::ini_text(v) == with_newlines(rendered_lines(v)),
    decreases v.len(),
{
    if v.len() > 0 {
        lemma_ini_text(v.drop_last());
        lemma_rendered_last(v);
        lemma_newlines_add(rendered_lines(v.drop_last()), section_lines(v.last()));
        lemma_section_text(v.last());
    }
}

/// Lines with their ends split into the lines, and an empty one behind the
/// last end.
proof fn lemma_split_lines(ls: Seq<Seq<char>>)
    requires
        forall|i: int| 0 <= i < ls.len() ==> !(#[trigger] ls[i]).contains('\n'),
    ensures
        text::split_parts(with_newlines(ls), '\n') == ls.push(Seq::<char>::empty()),
    decreases ls.len(),
{
    reveal_strlit("\n");
    if ls.len() == 0 {
        let s = with_newlines(ls);
        assert(s =~= seq![]);
        text::lemma_first_index(s, '\n');
        assert(text::split_parts(s, '\n') =~= seq![s]);
        assert(ls.push(Seq::<char>::empty()) =~= seq![s]);
    } else {
        let rest = ls.skip(1);
        assert forall|i: int| 0 <= i < rest.len() implies !(#[trigger] rest[i]).contains('\n') by {
            assert(rest[i] == ls[i + 1]);
        }
        lemma_split_lines(rest);
        lemma_newlines_add(seq![ls[0]], rest);
        lemma_newlines_one(ls[0]);
        assert(seq![ls[0]] + rest =~= ls);
        let s = with_newlines(ls);
        let n = ls[0].len() as int;
        assert(s =~= ls[0] + "\n"@ + with_newlines(rest));
        assert(s[n] == '\n');
        assert forall|j: int| 0 <= j < n implies s[j] != '\n' by {
            assert(s[j] == ls[0][j]);
            if s[j] == '\n' {
                assert(ls[0].contains('\n'));
            }
        }
        text::lemma_first_index_is(s, '\n', n);
        assert(s.take(n) =~= ls[0]);
        assert(s.skip(n + 1) =~= with_newlines(rest));
        assert(text::split_parts(s, '\n') =~= ls.push(Seq::<char>::empty()));
    }
}

// ---------------------------------------------------------------------
// Parsing what was rendered
// ---------------------------------------------------------------------

/// Entries on the lines from `i` on.
pub open spec fn relined(es: Seq<EntryView>, i: int) -> Seq<EntryView> {
    Seq::new(es.len(), |k: int| EntryView { line: ini::line_number(i + k), ..es[k] })
}

/// Sections whose headers are on the lines from `i` on, each followed by its
/// entries and an empty line.
pub open spec fn relined_sections(v: Seq<SectionView>, i: int) -> Seq<SectionView>
    decreases v.len(),
{
    if v.len() == 0 {
        seq![]
    } else {
        seq![SectionView { name: v[0].name, entries: relined(v[0].entries, i + 1) }]
            + relined_sections(v.skip(1), i + v[0].entries.len() + 2)
    }
}

proof fn lemma_whole_line(lines: Seq<Seq<char>>, i: int)
    requires
        lines[i].len() > 0 ==> !text::is_space(lines[i].last()) && lines[i].last() != '\\',
    ensures
        ini::logical_line(lines, i, ini::chomped(lines[i])) == Some((lines[i], i + 1)),
{
    let l = lines[i];
    if l.len() > 0 {
        assert(text::is_space('\r'));
        assert(ini::chomped(l) == l);
        assert(text::trimmed_end(l) == l);
    }
}

proof fn lemma_header(
    path: Seq<char>,
    lines: Seq<Seq<char>>,
    i: int,
    current: Option<Seq<char>>,
    acc: Seq<SectionView>,
    name: Seq<char>,
)
    requires
        0 <= i < lines.len(),
        lines[i] == header_line(name),
        is_tight(name),
    ensures
        ini::ini_lines(path, lines, i, current, acc) == ini::ini_lines(
            path,
            lines,
            i + 1,
            Some(name),
            ini::with_entries(acc, name, seq![]),
        ),
{
    reveal_strlit("[");
    reveal_strlit("]");
    let l = lines[i];
    assert(l[0] == '[' && l.last() == ']');
    lemma_whole_line(lines, i);
    text::lemma_trimmed_same(l);
    assert(l.subrange(1, l.len() - 1) =~= name);
    text::lemma_trimmed_same(name);
    assert(ini::classify(text::trimmed(l), current is Some) == LineView::Header(name));
}

proof fn lemma_entry(
    path: Seq<char>,
    lines: Seq<Seq<char>>,
    i: int,
    name: Seq<char>,
    acc: Seq<SectionView>,
    e: EntryView,
)
    requires
        0 <= i < lines.len(),
        lines[i] == entry_line(e),
        is_plain_entry(e),
    ensures
        ini::ini_lines(path, lines, i, Some(name), acc) == ini::ini_lines(
            path,
            lines,
            i + 1,
            Some(name),
            ini::with_entries(
                acc,
                name,
                seq![EntryView { line: ini::line_number(i), ..e }],
            ),
        ),
{
    reveal_strlit("=");
    let l = lines[i];
    let n = e.key.len() as int;
    assert(l[n] == '=');
    if e.value.len() > 0 {
        assert(l.last() == e.value.last());
    } else {
        assert(l.last() == '=');
    }
    if n > 0 {
        assert(l[0] == e.key[0]);
    }
    lemma_whole_line(lines, i);
    text::lemma_trimmed_same(l);
    assert forall|j: int| 0 <= j < n implies l[j] != '=' by {
        assert(l[j] == e.key[j]);
        if l[j] == '=' {
            assert(e.key.contains('='));
        }
    }
    text::lemma_first_index_is(l, '=', n);
    assert(l.take(n) =~= e.key);
    assert(l.skip(n + 1) =~= e.value);
    text::lemma_trimmed_same(e.key);
    text::lemma_trimmed_same(e.value);
    assert(ini::classify(text::trimmed(l), true) == LineView::Directive(e.key, e.value));
}

proof fn lemma_blank(
    path: Seq<char>,
    lines: Seq<Seq<char>>,
    i: int,
    current: Option<Seq<char>>,
    acc: Seq<SectionView>,
)
    requires
        0 <= i < lines.len(),
        lines[i].len() == 0,
    ensures
        ini::ini_lines(path, lines, i, current, acc) == ini::ini_lines(
            path,
            lines,
            i + 1,
            current,
            acc,
        ),
{
    lemma_whole_line(lines, i);
    assert(text::trimmed(lines[i]) == lines[i]);
}

proof fn lemma_into_last(acc: Seq<SectionView>, s: SectionView, added: Seq<EntryView>)
    requires
        forall|i: int| 0 <= i < acc.len() ==> (#[trigger] acc[i]).name != s.name,
    ensures
        ini::with_entries(acc.push(s), s.name, added) == acc.push(
            SectionView { name: s.name, entries: s.entries + added },
        ),
{
    let v = acc.push(s);
    assert forall|j: int| 0 <= j < acc.len() implies (#[trigger] v[j]).name != s.name by {
        assert(v[j] == acc[j]);
    }
    ini::lemma_section_at_is(v, s.name, acc.len() as int);
    assert(ini::with_entries(v, s.name, added) =~= acc.push(
        SectionView { name: s.name, entries: s.entries + added },
    ));
}

proof fn lemma_entries(
    path: Seq<char>,
    lines: Seq<Seq<char>>,
    i: int,
    es: Seq<EntryView>,
    acc: Seq<SectionView>,
    s: SectionView,
)
    requires
        0 <= i,
        i + es.len() <= lines.len(),
        forall|k: int| 0 <= k < es.len() ==> is_plain_entry(#[trigger] es[k]),
        forall|k: int| 0 <= k < es.len() ==> lines[i + k] == entry_line(#[trigger] es[k]),
        forall|k: int| 0 <= k < acc.len() ==> (#[trigger] acc[k]).name != s.name,
    ensures
        ini::ini_lines(path, lines, i, Some(s.name), acc.push(s)) == ini::ini_lines(
            path,
            lines,
            i + es.len(),
            Some(s.name),
            acc.push(SectionView { name: s.name, entries: s.entries + relined(es, i) }),
        ),
    decreases es.len(),
{
    if es.len() == 0 {
        assert(s.entries + relined(es, i) =~= s.entries);
    } else {
        let e = EntryView { line: ini::line_number(i), ..es[0] };
        assert(lines[i + 0] == entry_line(es[0]));
        lemma_entry(path, lines, i, s.name, acc.push(s), es[0]);
        lemma_into_last(acc, s, seq![e]);
        let t = SectionView { name: s.name, entries: s.entries + seq![e] };
        let rest = es.skip(1);
        assert forall|k: int| 0 <= k < rest.len() implies is_plain_entry(#[trigger] rest[k]) by {
            assert(rest[k] == es[k + 1]);
        }
        assert forall|k: int| 0 <= k < rest.len() implies lines[i + 1 + k] == entry_line(
            #[trigger] rest[k],
        ) by {
            assert(rest[k] == es[k + 1]);
        }
        lemma_entries(path, lines, i + 1, rest, acc, t);
        assert(t.entries + relined(rest, i + 1) =~= s.entries + relined(es, i));
    }
}

proof fn lemma_sections(
    path: Seq<char>,
    lines: Seq<Seq<char>>,
    i: int,
    v: Seq<SectionView>,
    current: Option<Seq<char>>,
    acc: Seq<SectionView>,
)
    requires
        0 <= i,
        is_plain(v),
        i + rendered_lines(v).len() < lines.len(),
        forall|k: int|
            0 <= k < rendered_lines(v).len() ==> lines[i + k] == #[trigger] rendered_lines(v)[k],
        forall|a: int, b: int|
            0 <= a < acc.len() && 0 <= b < v.len() ==> (#[trigger] acc[a]).name
                != (#[trigger] v[b]).name,
        lines.len() == i + rendered_lines(v).len() + 1,
        lines.last().len() == 0,
    ensures
        ini::ini_lines(path, lines, i, current, acc) == Ok::<Seq<SectionView>, ParseErrorView>(
            acc + relined_sections(v, i),
        ),
    decreases v.len(),
{
    if v.len() == 0 {
        lemma_blank(path, lines, i, current, acc);
        assert(acc + relined_sections(v, i) =~= acc);
    } else {
        let s = v[0];
        let head = section_lines(s);
        let ls = rendered_lines(v);
        let rest = v.skip(1);
        let n = s.entries.len() as int;
        assert(head.len() == n + 2);
        assert(is_plain_section(s));
        assert(ls[0] == header_line(s.name));
        assert(lines[i + 0] == ls[0]);
        lemma_header(path, lines, i, current, acc, s.name);
        ini::lemma_section_at_is(acc, s.name, acc.len() as int);
        let empty = SectionView { name: s.name, entries: seq![] };
        assert(ini::with_entries(acc, s.name, seq![]) == acc.push(empty));
        assert forall|k: int| 0 <= k < n implies lines[i + 1 + k] == entry_line(
            #[trigger] s.entries[k],
        ) by {
            assert(ls[k + 1] == head[k + 1]);
            assert(head[k + 1] == entry_lines(s.entries)[k]);
            assert(lines[i + (k + 1)] == ls[k + 1]);
        }
        lemma_entries(path, lines, i + 1, s.entries, acc, empty);
        let full = SectionView { name: s.name, entries: relined(s.entries, i + 1) };
        assert(empty.entries + relined(s.entries, i + 1) =~= full.entries);
        assert(ls[n + 1] == head[n + 1]);
        assert(lines[i + (n + 1)] == ls[n + 1]);
        lemma_blank(path, lines, i + n + 1, Some(s.name), acc.push(full));
        assert forall|k: int| 0 <= k < rendered_lines(rest).len() implies lines[i + n + 2 + k]
            == #[trigger] rendered_lines(rest)[k] by {
            assert(ls[n + 2 + k] == rendered_lines(rest)[k]);
            assert(lines[i + (n + 2 + k)] == ls[n + 2 + k]);
        }
        let next = acc.push(full);
        assert(is_plain(rest)) by {
            assert forall|a: int, b: int| 0 <= a < b < rest.len() implies (#[trigger] rest[a]).name
                != (#[trigger] rest[b]).name by {
                assert(rest[a] == v[a + 1] && rest[b] == v[b + 1]);
            }
            assert forall|a: int| 0 <= a < rest.len() implies is_plain_section(
                #[trigger] rest[a],
            ) by {
                assert(rest[a] == v[a + 1]);
            }
        }
        assert forall|a: int, b: int| 0 <= a < next.len() && 0 <= b < rest.len() implies (
        #[trigger] next[a]).name != (#[trigger] rest[b]).name by {
            assert(rest[b] == v[b + 1]);
            if a < acc.len() {
                assert(next[a] == acc[a]);
            } else {
                assert(v[0].name != v[b + 1].name);
            }
        }
        lemma_sections(path, lines, i + n + 2, rest, Some(s.name), next);
        assert(next + relined_sections(rest, i + n + 2) =~= acc + relined_sections(v, i));
    }
}

proof fn lemma_rendered_clean(v: Seq<SectionView>)
    requires
        forall|i: int| 0 <= i < v.len() ==> is_plain_section(#[trigger] v[i]),
    ensures
        forall|k: int|
            0 <= k < rendered_lines(v).len() ==> !(#[trigger] rendered_lines(v)[k]).contains('\n'),
    decreases v.len(),
{
    if v.len() > 0 {
        let rest = v.skip(1);
        assert forall|i: int| 0 <= i < rest.len() implies is_plain_section(#[trigger] rest[i]) by {
            assert(rest[i] == v[i + 1]);
        }
        lemma_rendered_clean(rest);
        let s = v[0];
        let head = section_lines(s);
        let ls = rendered_lines(v);
        reveal_strlit("[");
        reveal_strlit("]");
        reveal_strlit("=");
        assert(is_plain_section(s));
        assert forall|k: int| 0 <= k < ls.len() implies !(#[trigger] ls[k]).contains('\n') by {
            if k >= head.len() {
                assert(ls[k] == rendered_lines(rest)[k - head.len()]);
            } else if k == 0 {
                let l = header_line(s.name);
                assert(ls[k] == l);
                if l.contains('\n') {
                    let j = l.index_of('\n');
                    assert(l[j] == '\n');
                    assert(s.name[j - 1] == '\n');
                }
            } else if k <= s.entries.len() {
                let e = s.entries[k - 1];
                let l = entry_line(e);
                assert(is_plain_entry(e));
                assert(head[k] == entry_lines(s.entries)[k - 1]);
                assert(ls[k] == l);
                if l.contains('\n') {
                    let j = l.index_of('\n');
                    assert(l[j] == '\n');
                    if j < e.key.len() {
                        assert(e.key[j] == '\n');
                    } else {
                        assert(e.value[j - e.key.len() - 1] == '\n');
                    }
                }
            } else {
                assert(ls[k] == Seq::<char>::empty());
            }
        }
    }
}

/// Parsing rendered sections gives them back, with the numbers of the lines
/// on which they now stand.
pub proof fn rendered_ini_parses_back(path: Seq<char>, v: Seq<SectionView>)
    requires
        is_plain(v),
    ensures
        ini::parse_ini(path, ini::ini_text(v)) == Ok::<Seq<SectionView>, ParseErrorView>(
            relined_sections(v, 0),
        ),
{
    lemma_ini_text(v);
    lemma_rendered_clean(v);
    lemma_split_lines(rendered_lines(v));
    let lines = rendered_lines(v).push(Seq::<char>::empty());
    lemma_sections(path, lines, 0, v, None, seq![]);
    assert(Seq::<SectionView>::empty() + relined_sections(v, 0) =~= relined_sections(v, 0));
}

/// Whether two lists of sections differ in line numbers alone.
pub open spec fn same_but_lines(a: Seq<SectionView>, b: Seq<SectionView>) -> bool {
    &&& a.len() == b.len()
    &&& forall|i: int|
        0 <= i < a.len() ==> (#[trigger] a[i]).name == b[i].name && a[i].entries.len()
            == b[i].entries.len()
    &&& forall|i: int, j: int|
        0 <= i < a.len() && 0 <= j < a[i].entries.len() ==> (#[trigger] a[i].entries[j]).key
            == b[i].entries[j].key && a[i].entries[j].value == b[i].entries[j].value
}

proof fn lemma_relined_same(v: Seq<SectionView>, i: int)
    ensures
        same_but_lines(relined_sections(v, i), v),
    decreases v.len(),
{
    if v.len() > 0 {
        let n = i + v[0].entries.len() + 2;
        let rest = v.skip(1);
        lemma_relined_same(rest, n);
        let a = relined_sections(v, i);
        let b = relined_sections(rest, n);
        assert forall|k: int| 0 <= k < a.len() implies (#[trigger] a[k]).name == v[k].name
            && a[k].entries.len() == v[k].entries.len() by {
            if k > 0 {
                assert(a[k] == b[k - 1]);
                assert(rest[k - 1] == v[k]);
            }
        }
        assert forall|k: int, j: int| 0 <= k < a.len() && 0 <= j < a[k].entries.len() implies (
        #[trigger] a[k].entries[j]).key == v[k].entries[j].key && a[k].entries[j].value
            == v[k].entries[j].value by {
            if k > 0 {
                assert(a[k] == b[k - 1]);
                assert(rest[k - 1] == v[k]);
                assert(b[k - 1].entries[j].key == rest[k - 1].entries[j].key);
            }
        }
    }
}

// ---------------------------------------------------------------------
// What parsing gives
// ---------------------------------------------------------------------

proof fn lemma_trim_end_skip(s: Seq<char>)
    requires
        s.len() > 0,
        text::trimmed_end(s.skip(1)).len() > 0,
    ensures
        text::trimmed_end(s).len() > 0,
        text::trimmed_end(s).last() == text::trimmed_end(s.skip(1)).last(),
    decreases s.len(),
{
    let t = s.skip(1);
    if t.len() == 0 {
        assert(text::trimmed_end(t).len() == 0);
    } else {
        assert(s.last() == t.last());
        if text::is_space(s.last()) {
            assert(s.drop_last().skip(1) =~= t.drop_last());
            lemma_trim_end_skip(s.drop_last());
        }
    }
}

/// What a trimmed text ends in, the text ends in before the white space.
proof fn lemma_trim_last(s: Seq<char>)
    requires
        text::trimmed(s).len() > 0,
    ensures
        text::trimmed_end(s).len() > 0,
        text::trimmed_end(s).last() == text::trimmed(s).last(),
    decreases s.len(),
{
    if s.len() > 0 && text::is_space(s[0]) {
        lemma_trim_last(s.skip(1));
        lemma_trim_end_skip(s);
    }
}

/// Whether one text lies in another.
spec fn lies_in(a: Seq<char>, b: Seq<char>) -> bool {
    forall|i: int| 0 <= i < a.len() ==> b.contains(#[trigger] a[i])
}

proof fn lemma_trimmed_lies_in(s: Seq<char>)
    ensures
        lies_in(text::trimmed_start(s), s),
        lies_in(text::trimmed_end(s), s),
        lies_in(text::trimmed(s), s),
{
    text::lemma_trimmed_ends(s);
    let a = text::trimmed_start(s);
    let d = s.len() - a.len();
    text::lemma_trimmed_ends(a);
    let t = text::trimmed(s);
    let e = text::trimmed_end(s);
    assert forall|i: int| 0 <= i < a.len() implies s.contains(#[trigger] a[i]) by {
        assert(a[i] == s[d + i]);
    }
    assert forall|i: int| 0 <= i < e.len() implies s.contains(#[trigger] e[i]) by {
        assert(e[i] == s[i]);
    }
    assert forall|i: int| 0 <= i < t.len() implies s.contains(#[trigger] t[i]) by {
        assert(t[i] == a[i]);
        assert(a[i] == s[d + i]);
    }
}

proof fn lemma_lies_in(a: Seq<char>, b: Seq<char>, c: char)
    requires
        lies_in(a, b),
        !b.contains(c),
    ensures
        !a.contains(c),
{
    if a.contains(c) {
        let i = a.index_of(c);
        assert(a[i] == c);
        assert(b.contains(a[i]));
    }
}

proof fn lemma_trimmed_tight(s: Seq<char>)
    ensures
        is_tight(text::trimmed(s)),
{
    text::lemma_trimmed_ends(s);
    text::lemma_trimmed_ends(text::trimmed_start(s));
}

/// A logical line holds no line end, and does not go on.
proof fn lemma_logical_line(lines: Seq<Seq<char>>, i: int, accum: Seq<char>)
    requires
        0 <= i < lines.len(),
        forall|k: int| 0 <= k < lines.len() ==> !(#[trigger] lines[k]).contains('\n'),
        !accum.contains('\n'),
    ensures
        ini::logical_line(lines, i, accum) matches Some((line, next)) ==> !line.contains('\n')
            && !ini::goes_on(line),
    decreases lines.len() - i,
{
    if ini::goes_on(accum) && i + 1 < lines.len() {
        let a = text::trimmed_end(accum);
        let l = lines[i + 1];
        let c = ini::chomped(l);
        let b = text::trimmed_start(c);
        let next = a.drop_last() + " "@ + b;
        reveal_strlit(" ");
        lemma_trimmed_lies_in(accum);
        lemma_lies_in(a, accum, '\n');
        lemma_trimmed_lies_in(c);
        assert(lies_in(c, l)) by {
            assert forall|k: int| 0 <= k < c.len() implies l.contains(#[trigger] c[k]) by {
                assert(l[k] == c[k]);
            }
        }
        lemma_lies_in(c, l, '\n');
        lemma_lies_in(b, c, '\n');
        if next.contains('\n') {
            let k = next.index_of('\n');
            assert(next[k] == '\n');
            if k < a.len() - 1 {
                assert(a[k] == '\n');
            } else if k > a.len() - 1 {
                assert(b[k - a.len()] == '\n');
            }
        }
        lemma_logical_line(lines, i + 1, next);
    }
}

/// A directive that was read is a plain entry.
proof fn lemma_directive(line: Seq<char>, number: u32)
    requires
        !line.contains('\n'),
        !ini::goes_on(line),
        ini::classify(text::trimmed(line), true) is Directive,
    ensures
        ini::classify(text::trimmed(line), true) matches LineView::Directive(key, value)
            ==> is_plain_entry(EntryView { key, value, line: number }),
{
    let t = text::trimmed(line);
    lemma_trimmed_tight(line);
    lemma_trimmed_lies_in(line);
    lemma_lies_in(t, line, '\n');
    text::lemma_first_index(t, '=');
    let i = text::first_index(t, '=');
    let k = t.take(i);
    let v = t.skip(i + 1);
    let key = text::trimmed(k);
    let value = text::trimmed(v);
    assert(lies_in(k, t)) by {
        assert forall|j: int| 0 <= j < k.len() implies t.contains(#[trigger] k[j]) by {
            assert(t[j] == k[j]);
        }
    }
    assert(lies_in(v, t)) by {
        assert forall|j: int| 0 <= j < v.len() implies t.contains(#[trigger] v[j]) by {
            assert(t[i + 1 + j] == v[j]);
        }
    }
    lemma_trimmed_tight(k);
    lemma_trimmed_tight(v);
    lemma_trimmed_lies_in(k);
    lemma_trimmed_lies_in(v);
    lemma_lies_in(k, t, '\n');
    lemma_lies_in(key, k, '\n');
    lemma_lies_in(v, t, '\n');
    lemma_lies_in(value, v, '\n');
    assert(!k.contains('=')) by {
        if k.contains('=') {
            let j = k.index_of('=');
            assert(k[j] == '=');
            assert(t[j] == '=');
        }
    }
    lemma_lies_in(key, k, '=');
    if key.len() > 0 {
        assert(k.len() > 0);
        assert(k[0] == t[0]);
        assert(text::trimmed_start(k) == k);
        text::lemma_trimmed_ends(k);
        assert(key[0] == k[0]);
    }
    if value.len() > 0 {
        assert(v.len() > 0);
        assert(v.last() == t.last());
        assert(text::trimmed_end(v) == v);
        lemma_trim_last(v);
        lemma_trim_last(line);
        assert(value.last() == t.last());
    }
}

proof fn lemma_with_entries_plain(v: Seq<SectionView>, name: Seq<char>, added: Seq<EntryView>)
    requires
        is_plain(v),
        is_tight(name),
        !name.contains('\n'),
        forall|i: int| 0 <= i < added.len() ==> is_plain_entry(#[trigger] added[i]),
    ensures
        is_plain(ini::with_entries(v, name, added)),
{
    let r = ini::with_entries(v, name, added);
    let k = ini::section_at(v, name);
    ini::lemma_section_at(v, name);
    assert forall|i: int, j: int| 0 <= i < j < r.len() implies (#[trigger] r[i]).name != (
    #[trigger] r[j]).name by {
        if k < v.len() {
            assert(r[i].name == v[i].name && r[j].name == v[j].name);
            assert(v[i].name != v[j].name);
        } else if j < v.len() {
            assert(r[i] == v[i] && r[j] == v[j]);
        } else {
            assert(r[i] == v[i]);
        }
    }
    assert forall|i: int| 0 <= i < r.len() implies is_plain_section(#[trigger] r[i]) by {
        if i < v.len() && i != k {
            assert(r[i] == v[i]);
        } else if i < v.len() {
            let s = v[i];
            assert(is_plain_section(s));
            assert forall|j: int| 0 <= j < r[i].entries.len() implies is_plain_entry(
                #[trigger] r[i].entries[j],
            ) by {
                if j < s.entries.len() {
                    assert(r[i].entries[j] == s.entries[j]);
                } else {
                    assert(r[i].entries[j] == added[j - s.entries.len()]);
                }
            }
        }
    }
}

proof fn lemma_parsed_lines(
    path: Seq<char>,
    lines: Seq<Seq<char>>,
    i: int,
    current: Option<Seq<char>>,
    acc: Seq<SectionView>,
)
    requires
        0 <= i,
        forall|k: int| 0 <= k < lines.len() ==> !(#[trigger] lines[k]).contains('\n'),
        is_plain(acc),
        current matches Some(name) ==> is_tight(name) && !name.contains('\n'),
    ensures
        ini::ini_lines(path, lines, i, current, acc) matches Ok(v) ==> is_plain(v),
    decreases lines.len() - i,
{
    if i < lines.len() {
        let l = lines[i];
        let c = ini::chomped(l);
        assert(lies_in(c, l)) by {
            assert forall|k: int| 0 <= k < c.len() implies l.contains(#[trigger] c[k]) by {
                assert(l[k] == c[k]);
            }
        }
        lemma_lies_in(c, l, '\n');
        lemma_logical_line(lines, i, c);
        ini::lemma_logical_line_advances(lines, i, c);
        if let Some((line, next)) = ini::logical_line(lines, i, c) {
            let t = text::trimmed(line);
            lemma_trimmed_lies_in(line);
            lemma_lies_in(t, line, '\n');
            match ini::classify(t, current is Some) {
                LineView::Blank => lemma_parsed_lines(path, lines, next, current, acc),
                LineView::Header(name) => {
                    let inner = t.subrange(1, t.len() - 1);
                    lemma_trimmed_tight(inner);
                    lemma_trimmed_lies_in(inner);
                    assert(lies_in(inner, t)) by {
                        assert forall|k: int| 0 <= k < inner.len() implies t.contains(
                            #[trigger] inner[k],
                        ) by {
                            assert(t[k + 1] == inner[k]);
                        }
                    }
                    lemma_lies_in(inner, t, '\n');
                    lemma_lies_in(name, inner, '\n');
                    lemma_with_entries_plain(acc, name, seq![]);
                    lemma_parsed_lines(
                        path,
                        lines,
                        next,
                        Some(name),
                        ini::with_entries(acc, name, seq![]),
                    );
                },
                LineView::Directive(key, value) => {
                    let name = current->Some_0;
                    let e = EntryView { key, value, line: ini::line_number(i) };
                    lemma_directive(line, ini::line_number(i));
                    lemma_with_entries_plain(acc, name, seq![e]);
                    lemma_parsed_lines(
                        path,
                        lines,
                        next,
                        current,
                        ini::with_entries(acc, name, seq![e]),
                    );
                },
                LineView::Bad(_) => {},
            }
        }
    }
}

proof fn lemma_parts_clean(s: Seq<char>)
    ensures
        forall|k: int|
            0 <= k < text::split_parts(s, '\n').len() ==> !(#[trigger] text::split_parts(
                s,
                '\n',
            )[k]).contains('\n'),
    decreases s.len(),
{
    let parts = text::split_parts(s, '\n');
    text::lemma_first_index(s, '\n');
    let i = text::first_index(s, '\n');
    if i < s.len() {
        let rest = s.skip(i + 1);
        lemma_parts_clean(rest);
        let more = text::split_parts(rest, '\n');
        let head = s.take(i);
        if head.contains('\n') {
            let j = head.index_of('\n');
            assert(head[j] == '\n');
            assert(s[j] == '\n');
        }
        assert forall|k: int| 0 <= k < parts.len() implies !(#[trigger] parts[k]).contains('\n') by {
            if k > 0 {
                assert(parts[k] == more[k - 1]);
            }
        }
    } else {
        assert(parts =~= seq![s]);
    }
}

/// What was parsed can be rendered.
pub proof fn parsed_ini_is_plain(path: Seq<char>, source: Seq<char>)
    ensures
        ini::parse_ini(path, source) matches Ok(v) ==> is_plain(v),
{
    lemma_parts_clean(source);
    lemma_parsed_lines(path, text::split_parts(source, '\n'), 0, None, seq![]);
}

/// Rendering what was parsed and parsing it again changes nothing but line
/// numbers: every section, key and value is there, in order.
pub proof fn rendering_loses_nothing(path: Seq<char>, source: Seq<char>)
    ensures
        ini::parse_ini(path, source) matches Ok(v) ==> exists|w: Seq<SectionView>|
            #![trigger same_but_lines(w, v)]
            ini::parse_ini(path, ini::ini_text(v)) == Ok::<Seq<SectionView>, ParseErrorView>(w)
                && same_but_lines(w, v),
{
    if let Ok(v) = ini::parse_ini(path, source) {
        parsed_ini_is_plain(path, source);
        rendered_ini_parses_back(path, v);
        lemma_relined_same(v, 0);
        assert(same_but_lines(relined_sections(v, 0), v));
    }
}

// ---------------------------------------------------------------------
// Resetting
// ---------------------------------------------------------------------

/// An empty value drops every value of its key before it, and only those
/// behind it count.
pub proof fn empty_value_resets(before: Seq<EntryView>, e: EntryView, after: Seq<EntryView>)
    requires
        text::trimmed(e.value).len() == 0,
    ensures
        ini::effective(before.push(e) + after, e.key) == ini::effective(after, e.key),
    decreases after.len(),
{
    let all = before.push(e) + after;
    if after.len() == 0 {
        assert(all =~= before.push(e));
        assert(all.last() == e);
    } else {
        assert(all.last() == after.last());
        assert(all.drop_last() =~= before.push(e) + after.drop_last());
        empty_value_resets(before, e, after.drop_last());
    }
}

/// Without an empty value, every value of a key counts, in order.
pub proof fn without_reset_all_count(es: Seq<EntryView>, key: Seq<char>)
    requires
        forall|i: int|
            0 <= i < es.len() && (#[trigger] es[i]).key == key ==> text::trimmed(es[i].value).len()
                > 0,
    ensures
        ini::effective(es, key) == ini::with_key(es, key),
    decreases es.len(),
{
    reveal(Seq::filter);
    if es.len() > 0 {
        let rest = es.drop_last();
        assert forall|i: int| 0 <= i < rest.len() && (#[trigger] rest[i]).key
            == key implies text::trimmed(rest[i].value).len() > 0 by {
            assert(rest[i] == es[i]);
        }
        without_reset_all_count(rest, key);
        assert(es[es.len() - 1] == es.last());
    }
}

} // verus!
