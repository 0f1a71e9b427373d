//! How the lines of a file and the files of a unit come together.

use crate::paths;
use crate::text;
use crate::unit::ini;
use crate::unit::ini::{EntryView, LineView, SectionView};
use crate::unit::load;
use crate::unit::name;
use crate::unit::name::NameView;
use vstd::prelude::*;

verus! {

// ---------------------------------------------------------------------
// Lines
// ---------------------------------------------------------------------

/// An empty line and one that begins with `#` or `;` say nothing.
pub proof fn comments_say_nothing(t: Seq<char>, in_section: bool)
    ensures
        ini::classify(t, in_section) is Blank <==> t.len() == 0 || t[0] == '#' || t[0] == ';',
{
}

/// A name in square brackets begins a section, wherever it stands; without the
/// closing bracket it is an error.
pub proof fn brackets_begin_a_section(s: Seq<char>, in_section: bool)
    ensures
        ini::classify(seq!['['] + s + seq![']'], in_section) == LineView::Header(text::trimmed(s)),
        s.len() > 0 && s.last() != ']' ==> ini::classify(seq!['['] + s, in_section) is Bad,
{
    let t = seq!['['] + s + seq![']'];
    assert(t.subrange(1, t.len() - 1) =~= s);
    assert(t.last() == ']');
    if s.len() > 0 {
        assert((seq!['['] + s).last() == s.last());
    }
}

/// What stands before the first `=` is the key, and all behind it the value, both
/// without the white space around them. Outside a section it is an error, and so is
/// a line without `=`.
pub proof fn the_first_equals_sign_parts_key_and_value(k: Seq<char>, v: Seq<char>)
    requires
        k.len() > 0,
        k[0] != '#',
        k[0] != ';',
        k[0] != '[',
        forall|i: int| 0 <= i < k.len() ==> #[trigger] k[i] != '=',
    ensures
        ini::classify(k + seq!['='] + v, true) == LineView::Directive(
            text::trimmed(k),
            text::trimmed(v),
        ),
        ini::classify(k + seq!['='] + v, false) is Bad,
        ini::classify(k, true) is Bad,
{
    let t = k + seq!['='] + v;
    let n = k.len() as int;
    assert(t[0] == k[0]);
    assert(t[n] == '=');
    assert forall|j: int| 0 <= j < n implies t[j] != '=' by {
        assert(t[j] == k[j]);
    }
    text::lemma_first_index_is(t, '=', n);
    assert(t.take(n) =~= k);
    assert(t.skip(n + 1) =~= v);
    text::lemma_first_index_is(k, '=', n);
}

/// A line that ends in a backslash goes on with the next, with one space for the
/// backslash and the white space around the break.
pub proof fn a_backslash_joins_lines(a: Seq<char>, b: Seq<char>)
    requires
        !ini::goes_on(a + " "@ + text::trimmed_start(ini::chomped(b))),
    ensures
        ini::logical_line(seq![a.push('\\'), b], 0, a.push('\\')) == Some(
            (a + " "@ + text::trimmed_start(ini::chomped(b)), 2int),
        ),
        ini::logical_line(seq![a.push('\\')], 0, a.push('\\')) is None,
{
    let s = a.push('\\');
    assert(!text::is_space('\\'));
    assert(s.last() == '\\');
    assert(text::trimmed_end(s) == s);
    assert(s.drop_last() =~= a);
    let ls = seq![s, b];
    let joined = a + " "@ + text::trimmed_start(ini::chomped(b));
    assert(ls[1] == b);
    assert(ini::logical_line(ls, 1, joined) == Some((joined, 2int)));
}

// ---------------------------------------------------------------------
// Sections
// ---------------------------------------------------------------------

proof fn lemma_with_entries(
    v: Seq<SectionView>,
    name: Seq<char>,
    added: Seq<EntryView>,
    other: Seq<char>,
)
    ensures
        ini::entries_or_none(ini::with_entries(v, name, added), other) == ini::entries_or_none(
            v,
            other,
        ) + if other == name {
            added
        } else {
            seq![]
        },
{
    let w = ini::with_entries(v, name, added);
    let i = ini::section_at(v, name);
    let k = ini::section_at(v, other);
    ini::lemma_section_at(v, name);
    ini::lemma_section_at(v, other);
    ini::lemma_section_at(w, other);
    let none = Seq::<EntryView>::empty();
    if other == name {
        ini::lemma_section_at_is(w, name, i);
        assert(none + added =~= added);
    } else {
        if k < v.len() {
            assert(w[k].name == other);
            assert forall|j: int| 0 <= j < k implies w[j].name != other by {
                if j != i {
                    assert(w[j] == v[j]);
                }
            }
            ini::lemma_section_at_is(w, other, k);
            assert(w[k] == v[k]);
            assert(v[k].entries + none =~= v[k].entries);
        } else {
            assert forall|j: int| 0 <= j < w.len() implies w[j].name != other by {
                if j < v.len() && j != i {
                    assert(w[j] == v[j]);
                }
            }
            ini::lemma_section_at_is(w, other, w.len() as int);
            assert(none + none =~= none);
        }
    }
}

/// The entries of all sections with the name, in order.
pub open spec fn all_entries(v: Seq<SectionView>, name: Seq<char>) -> Seq<EntryView>
    decreases v.len(),
{
    if v.len() == 0 {
        seq![]
    } else if v.last().name == name {
        all_entries(v.drop_last(), name) + v.last().entries
    } else {
        all_entries(v.drop_last(), name)
    }
}

/// What a drop-in says comes behind what the unit says already, section by section:
/// nothing is lost, and each section has just its own entries.
pub proof fn dropins_add_behind(base: Seq<SectionView>, added: Seq<SectionView>, name: Seq<char>)
    ensures
        ini::entries_or_none(load::layered(base, added), name) == ini::entries_or_none(base, name)
            + all_entries(added, name),
    decreases added.len(),
{
    let none = Seq::<EntryView>::empty();
    if added.len() == 0 {
        assert(ini::entries_or_none(base, name) + none =~= ini::entries_or_none(base, name));
    } else {
        let before = added.drop_last();
        dropins_add_behind(base, before, name);
        lemma_with_entries(
            load::layered(base, before),
            added.last().name,
            added.last().entries,
            name,
        );
        let a = ini::entries_or_none(base, name);
        let b = all_entries(before, name);
        let c = added.last().entries;
        assert(a + b + c =~= a + (b + c));
        assert(a + b + none =~= a + b);
    }
}

// ---------------------------------------------------------------------
// Files
// ---------------------------------------------------------------------

proof fn lemma_text_inserted(s: Seq<Seq<char>>, x: Seq<char>)
    ensures
        forall|y: Seq<char>| #[trigger]
            load::text_inserted(s, x).contains(y) <==> s.contains(y) || y == x,
        load::text_inserted(s, x).len() == s.len() + 1,
        in_order(s) ==> in_order(load::text_inserted(s, x)),
        s.len() > 0 && !name::text_before(x, s[0]) ==> load::text_inserted(s, x)[0] == s[0],
        s.len() > 0 && name::text_before(x, s[0]) ==> load::text_inserted(s, x)[0] == x,
        s.len() == 0 ==> load::text_inserted(s, x)[0] == x,
    decreases s.len(),
{
    let r = load::text_inserted(s, x);
    if s.len() == 0 {
        assert(r =~= seq![x]);
        assert(r[0] == x);
    } else if name::text_before(x, s[0]) {
        assert(r[0] == x);
        assert forall|y: Seq<char>| #[trigger] r.contains(y) <==> s.contains(y) || y == x by {
            if s.contains(y) {
                let i = choose|i: int| 0 <= i < s.len() && s[i] == y;
                assert(r[i + 1] == y);
            }
            if r.contains(y) && y != x {
                let i = choose|i: int| 0 <= i < r.len() && r[i] == y;
                assert(s[i - 1] == y);
            }
        }
        if in_order(s) {
            assert forall|i: int| 0 <= i < r.len() - 1 implies !name::text_before(
                #[trigger] r[i + 1],
                r[i],
            ) by {
                if i > 0 {
                    assert(r[i + 1] == s[i - 1 + 1] && r[i] == s[i - 1]);
                } else {
                    assert(r[i + 1] == s[0] && r[i] == x);
                    name::lemma_text_before_total(x, s[0]);
                    lemma_not_both(x, s[0]);
                }
            }
        }
    } else {
        let t = s.skip(1);
        lemma_text_inserted(t, x);
        let q = load::text_inserted(t, x);
        assert(r =~= seq![s[0]] + q);
        assert forall|y: Seq<char>| #[trigger] r.contains(y) <==> s.contains(y) || y == x by {
            assert(q.contains(y) <==> t.contains(y) || y == x);
            if s.contains(y) {
                let i = choose|i: int| 0 <= i < s.len() && s[i] == y;
                if i == 0 {
                    assert(r[0] == y);
                } else {
                    assert(t[i - 1] == y);
                }
            }
            if q.contains(y) {
                let i = choose|i: int| 0 <= i < q.len() && q[i] == y;
                assert(r[i + 1] == y);
            }
            if r.contains(y) {
                let i = choose|i: int| 0 <= i < r.len() && r[i] == y;
                if i == 0 {
                    assert(s[0] == y);
                } else {
                    assert(q[i - 1] == y);
                    if t.contains(y) {
                        let j = choose|j: int| 0 <= j < t.len() && t[j] == y;
                        assert(s[j + 1] == y);
                    }
                }
            }
        }
        if in_order(s) {
            assert forall|i: int| 0 <= i < t.len() - 1 implies !name::text_before(
                #[trigger] t[i + 1],
                t[i],
            ) by {
                assert(t[i + 1] == s[i + 1 + 1] && t[i] == s[i + 1]);
            }
            assert(in_order(q));
            assert forall|i: int| 0 <= i < r.len() - 1 implies !name::text_before(
                #[trigger] r[i + 1],
                r[i],
            ) by {
                if i > 0 {
                    assert(r[i + 1] == q[i - 1 + 1] && r[i] == q[i - 1]);
                } else {
                    assert(r[1] == q[0] && r[0] == s[0]);
                    if t.len() > 0 && !name::text_before(x, t[0]) {
                        assert(t[0] == s[i + 1]);
                    }
                }
            }
        }
    }
}

proof fn lemma_not_both(a: Seq<char>, b: Seq<char>)
    requires
        name::text_before(a, b),
    ensures
        !name::text_before(b, a),
    decreases a.len(),
{
    if a.len() > 0 && b.len() > 0 && a[0] == b[0] {
        lemma_not_both(a.skip(1), b.skip(1));
    }
}

/// Whether no text comes before the one in front of it.
pub open spec fn in_order(s: Seq<Seq<char>>) -> bool {
    forall|i: int| 0 <= i < s.len() - 1 ==> !name::text_before(#[trigger] s[i + 1], s[i])
}

/// The drop-ins of a directory are just its `.conf` files, in the order of their
/// names.
pub proof fn dropins_are_the_conf_files_in_order(ps: Seq<Seq<char>>, p: Seq<char>)
    ensures
        load::conf_files(ps).contains(p) <==> ps.contains(p) && paths::has_extension(p, ".conf"@),
        in_order(load::conf_files(ps)),
    decreases ps.len(),
{
    if ps.len() > 0 {
        let before = ps.drop_last();
        dropins_are_the_conf_files_in_order(before, p);
        let x = ps.last();
        lemma_text_inserted(load::conf_files(before), x);
        assert(ps[ps.len() - 1] == x);
        if before.contains(p) {
            let i = choose|i: int| 0 <= i < before.len() && before[i] == p;
            assert(ps[i] == p);
        }
        if ps.contains(p) && p != x {
            let i = choose|i: int| 0 <= i < ps.len() && ps[i] == p;
            assert(before[i] == p);
        }
    }
}

/// A unit is looked for in each directory under its own name first, and an instance
/// after that under the name of its template; earlier directories win over later
/// ones.
pub proof fn own_files_win_over_templates(n: NameView, dirs: Seq<Seq<char>>, i: int)
    requires
        0 <= i < dirs.len(),
    ensures
        load::main_candidates(n, dirs)[i] == paths::joined(dirs[i], name::name_text(n)),
        name::template_of(n) is None ==> load::main_candidates(n, dirs).len() == dirs.len(),
        name::template_of(n) matches Some(t) ==> load::main_candidates(n, dirs).len() == 2
            * dirs.len() && load::main_candidates(n, dirs)[dirs.len() + i] == paths::joined(
            dirs[i],
            name::name_text(t),
        ),
{
}

/// The first that is there is taken.
pub proof fn the_first_found_is_taken(s: Seq<bool>)
    ensures
        0 <= load::first_true(s) <= s.len(),
        load::first_true(s) < s.len() ==> s[load::first_true(s)],
        forall|i: int| 0 <= i < load::first_true(s) ==> !s[i],
    decreases s.len(),
{
    if s.len() > 0 && !s[0] {
        let t = s.skip(1);
        the_first_found_is_taken(t);
        let k = load::first_true(t);
        if k < t.len() {
            assert(s[k + 1] == t[k]);
        }
        assert forall|i: int| 0 <= i < k + 1 implies !s[i] by {
            if i > 0 {
                assert(t[i - 1] == s[i]);
            }
        }
    }
}

} // verus!
