//! Low-level INI parser for systemd unit files.
//!
//! Recognises:
//! - `# ...` and `; ...` comments (only at start of trimmed line).
//! - `[Section]` headers.
//! - `Key=Value` lines.
//! - Trailing `\` line continuation (continued line is concatenated with a
//!   single space).
//! - Multiple `Key=Value` lines accumulate into a list of values per key.
//! - Empty `Key=` resets the accumulated list to empty (systemd convention),
//!   as [`Ini::effective_list`] reports it.
//!
//! The parser yields the sections in order, each with its entries; typed
//! interpretation is up to the caller.

use crate::keys::KeyTable;
use crate::text;
use crate::text::{chars_of, same, split, split_once, string_of, trim, trim_end, trim_start};
use crate::unit::error::{ParseError, ParseErrorView};
use vstd::prelude::*;
use vstd::slice::slice_subrange;

verus! {

/// One key=value line with its source line number.
#[derive(Debug, PartialEq, Eq)]
pub struct Entry {
    /// Directive key (e.g. `ExecStart`).
    pub key: String,
    /// Raw value, line continuations folded.
    pub value: String,
    /// 1-indexed source line of the first character of the directive.
    pub line: u32,
}

/// An [`Entry`] by its characters.
pub struct EntryView {
    pub key: Seq<char>,
    pub value: Seq<char>,
    pub line: u32,
}

impl View for Entry {
    type V = EntryView;

    open spec fn view(&self) -> EntryView {
        EntryView { key: self.key@, value: self.value@, line: self.line }
    }
}

impl Clone for Entry {
    fn clone(&self) -> (r: Self)
        ensures
            r@ == self@,
    {
        Entry { key: self.key.clone(), value: self.value.clone(), line: self.line }
    }
}

/// The views of a list of entries.
pub open spec fn entries_view(v: Seq<Entry>) -> Seq<EntryView> {
    v.map_values(|e: Entry| e@)
}

/// Copies a list of entries.
pub fn copy_entries(v: &Vec<Entry>) -> (r: Vec<Entry>)
    ensures
        entries_view(r@) == entries_view(v@),
{
    let mut out: Vec<Entry> = Vec::new();
    let mut i: usize = 0;
    while i < v.len()
        invariant
            i <= v.len(),
            entries_view(out@) =~= entries_view(v@).take(i as int),
        decreases v.len() - i,
    {
        let ghost before = out@;
        let e = v[i].clone();
        out.push(e);
        proof {
            assert(entries_view(out@) =~= entries_view(before).push(v@[i as int]@));
        }
        i = i + 1;
    }
    proof {
        assert(entries_view(v@).take(v@.len() as int) =~= entries_view(v@));
    }
    out
}

/// One section: its name and its entries in order.
#[derive(Debug, PartialEq, Eq)]
pub struct Section {
    /// The name between the brackets.
    pub name: String,
    /// The entries in order.
    pub entries: Vec<Entry>,
}

/// A [`Section`] by its characters.
pub struct SectionView {
    pub name: Seq<char>,
    pub entries: Seq<EntryView>,
}

impl View for Section {
    type V = SectionView;

    open spec fn view(&self) -> SectionView {
        SectionView { name: self.name@, entries: entries_view(self.entries@) }
    }
}

/// The views of a list of sections.
pub open spec fn sections_view(v: Seq<Section>) -> Seq<SectionView> {
    v.map_values(|s: Section| s@)
}

/// The key under which a section is kept.
pub open spec fn section_key(name: Seq<char>) -> Seq<Seq<char>> {
    seq![name]
}

/// The keys of a list of sections.
pub open spec fn section_keys(v: Seq<SectionView>) -> Seq<Seq<Seq<char>>> {
    v.map_values(|s: SectionView| section_key(s.name))
}

/// No two sections have the same name.
pub open spec fn distinct_sections(v: Seq<SectionView>) -> bool {
    forall|i: int, j: int|
        0 <= i < j < v.len() ==> (#[trigger] v[i]).name != (#[trigger] v[j]).name
}

/// The position of the first section with the name, or their number.
pub open spec fn section_at(v: Seq<SectionView>, name: Seq<char>) -> int
    decreases v.len(),
{
    if v.len() == 0 || v[0].name == name {
        0
    } else {
        1 + section_at(v.skip(1), name)
    }
}

/// The entries of the section with the name.
pub open spec fn entries_of(v: Seq<SectionView>, name: Seq<char>) -> Option<Seq<EntryView>> {
    let i = section_at(v, name);
    if i < v.len() {
        Some(v[i].entries)
    } else {
        None
    }
}

/// The sections with one more entry in the section with the name, which is
/// added at the end where there is none.
pub open spec fn with_entries(
    v: Seq<SectionView>,
    name: Seq<char>,
    added: Seq<EntryView>,
) -> Seq<SectionView> {
    let i = section_at(v, name);
    if i < v.len() {
        v.update(i, SectionView { name, entries: v[i].entries + added })
    } else {
        v.push(SectionView { name, entries: added })
    }
}

pub proof fn lemma_section_at(v: Seq<SectionView>, name: Seq<char>)
    ensures
        0 <= section_at(v, name) <= v.len(),
        section_at(v, name) < v.len() ==> v[section_at(v, name)].name == name,
        forall|j: int| 0 <= j < section_at(v, name) ==> (#[trigger] v[j]).name != name,
    decreases v.len(),
{
    if v.len() > 0 && v[0].name != name {
        let t = v.skip(1);
        lemma_section_at(t, name);
        assert forall|j: int| 0 <= j < section_at(v, name) implies (#[trigger] v[j]).name != name by {
            if j > 0 {
                assert(t[j - 1] == v[j]);
            }
        }
        if section_at(v, name) < v.len() {
            assert(t[section_at(t, name)] == v[section_at(v, name)]);
        }
    }
}

pub proof fn lemma_section_at_is(v: Seq<SectionView>, name: Seq<char>, i: int)
    requires
        0 <= i <= v.len(),
        i < v.len() ==> v[i].name == name,
        forall|j: int| 0 <= j < i ==> (#[trigger] v[j]).name != name,
    ensures
        section_at(v, name) == i,
{
    lemma_section_at(v, name);
    let k = section_at(v, name);
    if k < i {
        assert(v[k].name != name);
    } else if i < k {
        assert(v[i].name != name);
    }
}

/// Parsed INI file: ordered sections, each an ordered list of entries.
pub struct Ini {
    table: KeyTable,
    sections: Vec<Section>,
}

impl View for Ini {
    type V = Seq<SectionView>;

    closed spec fn view(&self) -> Seq<SectionView> {
        sections_view(self.sections@)
    }
}

fn key_of(name: &str) -> (r: Vec<String>)
    ensures
        text::texts(r@) == section_key(name@),
{
    let mut v: Vec<String> = Vec::new();
    v.push(name.to_owned());
    proof {
        assert(text::texts(v@) =~= section_key(name@));
    }
    v
}

/// The last entry with the key, if there is one.
pub open spec fn last_with_key(es: Seq<EntryView>, key: Seq<char>) -> Option<EntryView>
    decreases es.len(),
{
    if es.len() == 0 {
        None
    } else if es.last().key == key {
        Some(es.last())
    } else {
        last_with_key(es.drop_last(), key)
    }
}

/// The entries with the key, in order.
pub open spec fn with_key(es: Seq<EntryView>, key: Seq<char>) -> Seq<EntryView> {
    es.filter(|e: EntryView| e.key == key)
}

/// The entries with the key that count: an empty value drops those before it.
pub open spec fn effective(es: Seq<EntryView>, key: Seq<char>) -> Seq<EntryView>
    decreases es.len(),
{
    if es.len() == 0 {
        seq![]
    } else if es.last().key != key {
        effective(es.drop_last(), key)
    } else if text::trimmed(es.last().value).len() == 0 {
        seq![]
    } else {
        effective(es.drop_last(), key).push(es.last())
    }
}

/// The entries of a section, none where it is missing.
pub open spec fn entries_or_none(v: Seq<SectionView>, name: Seq<char>) -> Seq<EntryView> {
    match entries_of(v, name) {
        Some(es) => es,
        None => seq![],
    }
}

/// The views of a list of borrowed entries.
pub open spec fn entry_refs_view(v: Seq<&Entry>) -> Seq<EntryView> {
    v.map_values(|e: &Entry| e@)
}

impl Default for Ini {
    fn default() -> (r: Self)
        ensures
            r@ == Seq::<SectionView>::empty(),
    {
        Ini::new()
    }
}

impl Ini {
    #[verifier::type_invariant]
    closed spec fn wf(&self) -> bool {
        &&& self.table@ == section_keys(sections_view(self.sections@))
        &&& self.table.wf()
    }

    /// An INI without sections.
    pub fn new() -> (r: Self)
        ensures
            r@ == Seq::<SectionView>::empty(),
    {
        let table = KeyTable::new();
        let sections: Vec<Section> = Vec::new();
        proof {
            assert(section_keys(sections_view(sections@)) =~= Seq::<Seq<Seq<char>>>::empty());
        }
        let r = Ini { table, sections };
        proof {
            assert(r@ =~= Seq::<SectionView>::empty());
        }
        r
    }

    proof fn lemma_distinct(self)
        requires
            self.wf(),
        ensures
            distinct_sections(self@),
    {
        assert forall|i: int, j: int| 0 <= i < j < self@.len() implies (#[trigger] self@[i]).name
            != (#[trigger] self@[j]).name by {
            assert(self.table@[i] != self.table@[j]);
            assert(self.table@[i] =~= seq![self@[i].name]);
            assert(self.table@[j] =~= seq![self@[j].name]);
        }
    }

    proof fn lemma_found(self, name: Seq<char>, i: int)
        requires
            self.wf(),
            0 <= i < self@.len(),
            self.table@[i] == section_key(name),
        ensures
            section_at(self@, name) == i,
            self@[i].name == name,
    {
        self.lemma_distinct();
        assert(section_key(self@[i].name)[0] == self@[i].name);
        assert(section_key(name)[0] == name);
        assert(self.table@[i] == section_key(self@[i].name));
        lemma_section_at_is(self@, name, i);
    }

    proof fn lemma_missing(self, name: Seq<char>)
        requires
            self.wf(),
            !self.table@.contains(section_key(name)),
        ensures
            section_at(self@, name) == self@.len(),
    {
        assert forall|j: int| 0 <= j < self@.len() implies (#[trigger] self@[j]).name != name by {
            assert(self.table@[j] == section_key(self@[j].name));
        }
        lemma_section_at_is(self@, name, self@.len() as int);
    }

    /// The position of a section.
    fn position(&self, name: &str) -> (r: Option<usize>)
        ensures
            match r {
                Some(i) => i < self.sections@.len() && i == section_at(self@, name@)
                    && self@[i as int].name == name@,
                None => section_at(self@, name@) == self@.len(),
            },
    {
        proof {
            use_type_invariant(self);
        }
        let key = key_of(name);
        match self.table.find(&key) {
            Some(i) => {
                proof {
                    self.lemma_found(name@, i as int);
                }
                Some(i)
            },
            None => {
                proof {
                    self.lemma_missing(name@);
                }
                None
            },
        }
    }

    /// The number of sections.
    pub fn len(&self) -> (r: usize)
        ensures
            r == self@.len(),
    {
        self.sections.len()
    }

    /// The section at a position.
    pub fn section(&self, i: usize) -> (r: &Section)
        requires
            i < self@.len(),
        ensures
            r@ == self@[i as int],
    {
        &self.sections[i]
    }

    /// The entries of a section.
    pub fn get(&self, name: &str) -> (r: Option<&Vec<Entry>>)
        ensures
            match r {
                Some(es) => entries_of(self@, name@) == Some(entries_view(es@)),
                None => entries_of(self@, name@) is None,
            },
    {
        match self.position(name) {
            Some(i) => Some(&self.sections[i].entries),
            None => None,
        }
    }

    /// Adds entries to a section, which is added at the end where it is missing.
    pub fn extend_section(&mut self, name: &str, added: Vec<Entry>)
        ensures
            final(self)@ == with_entries(old(self)@, name@, entries_view(added@)),
            distinct_sections(old(self)@),
            distinct_sections(final(self)@),
    {
        let found = self.position(name);
        let mut whole = Ini::new();
        core::mem::swap(self, &mut whole);
        proof {
            use_type_invariant(&whole);
            whole.lemma_distinct();
        }
        let ghost before = whole@;
        let Ini { mut table, mut sections } = whole;
        let mut more = added;
        match found {
            Some(i) => {
                let ghost old_sections = sections@;
                let ghost old_entries = sections@[i as int].entries@;
                let mut s = sections.remove(i);
                s.entries.append(&mut more);
                sections.insert(i, s);
                proof {
                    assert(entries_view(s.entries@) =~= entries_view(old_entries) + entries_view(
                        added@,
                    ));
                    assert(sections_view(sections@) =~= before.update(
                        i as int,
                        SectionView {
                            name: name@,
                            entries: before[i as int].entries + entries_view(added@),
                        },
                    ));
                    assert(section_keys(sections_view(sections@)) =~= section_keys(before));
                }
            },
            None => {
                let ghost old_rows = table@;
                let _ = table.insert(key_of(name));
                sections.push(Section { name: name.to_owned(), entries: more });
                proof {
                    assert(sections_view(sections@) =~= before.push(
                        SectionView { name: name@, entries: entries_view(added@) },
                    ));
                    if old_rows.contains(section_key(name@)) {
                        let k = choose|k: int|
                            0 <= k < old_rows.len() && old_rows[k] == section_key(name@);
                        assert(old_rows[k] == section_key(before[k].name));
                        assert(section_key(before[k].name)[0] == before[k].name);
                        assert(section_key(name@)[0] == name@);
                        lemma_section_at(before, name@);
                    }
                    assert(section_keys(sections_view(sections@)) =~= section_keys(before).push(
                        section_key(name@),
                    ));
                }
            },
        }
        *self = Ini { table, sections };
        proof {
            use_type_invariant(&*self);
            self.lemma_distinct();
        }
    }

    /// Look up the last (or only) value for a key in a section.
    pub fn last(&self, section: &str, key: &str) -> (r: Option<&str>)
        ensures
            match r {
                Some(v) => last_with_key(entries_or_none(self@, section@), key@) is Some
                    && last_with_key(entries_or_none(self@, section@), key@)->Some_0.value == v@,
                None => last_with_key(entries_or_none(self@, section@), key@) is None,
            },
    {
        match self.get(section) {
            None => None,
            Some(es) => {
                let mut n: usize = es.len();
                let ghost all = entries_view(es@);
                proof {
                    assert(all.take(all.len() as int) =~= all);
                }
                while n > 0
                    invariant
                        n <= es.len(),
                        all == entries_view(es@),
                        all == entries_or_none(self@, section@),
                        last_with_key(all, key@) == last_with_key(all.take(n as int), key@),
                    decreases n,
                {
                    proof {
                        assert(all.take(n as int).last() == es@[n - 1]@);
                        assert(all.take(n as int).drop_last() =~= all.take(n - 1));
                    }
                    if same(es[n - 1].key.as_str(), key) {
                        return Some(es[n - 1].value.as_str());
                    }
                    n = n - 1;
                }
                None
            },
        }
    }

    /// All entries with the given key in declaration order.
    pub fn all(&self, section: &str, key: &str) -> (r: Vec<&Entry>)
        ensures
            entry_refs_view(r@) == with_key(entries_or_none(self@, section@), key@),
    {
        let mut out: Vec<&Entry> = Vec::new();
        let ghost pred = |e: EntryView| e.key == key@;
        match self.get(section) {
            None => {
                proof {
                    assert(entry_refs_view(out@) =~= Seq::<EntryView>::empty().filter(pred));
                }
                out
            },
            Some(es) => {
                let mut i: usize = 0;
                let ghost all = entries_view(es@);
                proof {
                    assert(entry_refs_view(out@) =~= all.take(0).filter(pred));
                }
                while i < es.len()
                    invariant
                        i <= es.len(),
                        all == entries_view(es@),
                        pred == (|e: EntryView| e.key == key@),
                        entry_refs_view(out@) == all.take(i as int).filter(pred),
                    decreases es.len() - i,
                {
                    let ghost before = out@;
                    proof {
                        assert(all.take(i + 1).drop_last() =~= all.take(i as int));
                        reveal(Seq::filter);
                    }
                    if same(es[i].key.as_str(), key) {
                        out.push(&es[i]);
                        proof {
                            assert(entry_refs_view(out@) =~= entry_refs_view(before).push(
                                all[i as int],
                            ));
                        }
                    }
                    i = i + 1;
                }
                proof {
                    assert(all.take(all.len() as int) =~= all);
                }
                out
            },
        }
    }

    /// The *effective* entries for `key`: an empty value resets the list.
    pub fn effective_list(&self, section: &str, key: &str) -> (r: Vec<&Entry>)
        ensures
            entry_refs_view(r@) == effective(entries_or_none(self@, section@), key@),
    {
        let mut out: Vec<&Entry> = Vec::new();
        proof {
            assert(entry_refs_view(out@) =~= seq![]);
        }
        if let Some(es) = self.get(section) {
            let mut i: usize = 0;
            let ghost all = entries_view(es@);
            while i < es.len()
                invariant
                    i <= es.len(),
                    all == entries_view(es@),
                    entry_refs_view(out@) == effective(all.take(i as int), key@),
                decreases es.len() - i,
            {
                let ghost before = out@;
                proof {
                    assert(all.take(i + 1).drop_last() =~= all.take(i as int));
                }
                if same(es[i].key.as_str(), key) {
                    let v = chars_of(es[i].value.as_str());
                    if trim(v.as_slice()).len() == 0 {
                        out = Vec::new();
                        proof {
                            assert(entry_refs_view(out@) =~= seq![]);
                        }
                    } else {
                        out.push(&es[i]);
                        proof {
                            assert(entry_refs_view(out@) =~= entry_refs_view(before).push(
                                all[i as int],
                            ));
                        }
                    }
                }
                i = i + 1;
            }
            proof {
                assert(all.take(all.len() as int) =~= all);
            }
        }
        out
    }
}

// ---------------------------------------------------------------------
// Parsing
// ---------------------------------------------------------------------

/// The number of the line at an index.
pub open spec fn line_number(i: int) -> u32 {
    ((i + 1) % 0x1_0000_0000) as u32
}

/// A line without the carriage return that may end it.
pub open spec fn chomped(line: Seq<char>) -> Seq<char> {
    if line.len() > 0 && line.last() == '\r' {
        line.drop_last()
    } else {
        line
    }
}

/// Whether the line goes on: its last character that is not white space is a
/// backslash.
pub open spec fn goes_on(s: Seq<char>) -> bool {
    let t = text::trimmed_end(s);
    t.len() > 0 && t.last() == '\\'
}

/// The logical line that begins with `accum`, the line at `i` being its last
/// so far, and the index of the line behind it. `None` where the text ends in
/// the middle of it.
pub open spec fn logical_line(lines: Seq<Seq<char>>, i: int, accum: Seq<char>) -> Option<
    (Seq<char>, int),
>
    decreases lines.len() - i,
{
    if goes_on(accum) {
        if i + 1 >= lines.len() {
            None
        } else {
            logical_line(
                lines,
                i + 1,
                text::trimmed_end(accum).drop_last() + " "@ + text::trimmed_start(
                    chomped(lines[i + 1]),
                ),
            )
        }
    } else {
        Some((accum, i + 1))
    }
}

/// What a logical line is.
pub enum LineView {
    Blank,
    Header(Seq<char>),
    Directive(Seq<char>, Seq<char>),
    Bad(Seq<char>),
}

/// What a trimmed logical line is, inside a section or before the first.
pub open spec fn classify(t: Seq<char>, in_section: bool) -> LineView {
    if t.len() == 0 || t[0] == '#' || t[0] == ';' {
        LineView::Blank
    } else if t[0] == '[' {
        if t.len() >= 2 && t.last() == ']' {
            LineView::Header(text::trimmed(t.subrange(1, t.len() - 1)))
        } else {
            LineView::Bad("unterminated section header"@)
        }
    } else if !in_section {
        LineView::Bad("directive outside any section"@)
    } else {
        match text::split_at_first(t, '=') {
            Some((k, v)) => LineView::Directive(text::trimmed(k), text::trimmed(v)),
            None => LineView::Bad("expected Key=Value"@),
        }
    }
}

/// What the lines from `i` on add to the sections `acc`, `current` being open.
pub open spec fn ini_lines(
    path: Seq<char>,
    lines: Seq<Seq<char>>,
    i: int,
    current: Option<Seq<char>>,
    acc: Seq<SectionView>,
) -> Result<Seq<SectionView>, ParseErrorView>
    decreases lines.len() - i,
{
    if i >= lines.len() {
        Ok(acc)
    } else {
        match logical_line(lines, i, chomped(lines[i])) {
            None => Err(
                ParseErrorView::Syntax {
                    path,
                    line: line_number(i),
                    message: "trailing backslash with no continuation"@,
                },
            ),
            Some((line, next)) => if !(i < next <= lines.len()) {
                Ok(acc)
            } else {
                match classify(text::trimmed(line), current is Some) {
                    LineView::Blank => ini_lines(path, lines, next, current, acc),
                    LineView::Header(name) => ini_lines(
                        path,
                        lines,
                        next,
                        Some(name),
                        with_entries(acc, name, seq![]),
                    ),
                    LineView::Directive(key, value) => ini_lines(
                        path,
                        lines,
                        next,
                        current,
                        with_entries(
                            acc,
                            current->Some_0,
                            seq![EntryView { key, value, line: line_number(i) }],
                        ),
                    ),
                    LineView::Bad(message) => Err(
                        ParseErrorView::Syntax { path, line: line_number(i), message },
                    ),
                }
            },
        }
    }
}

/// The sections of a unit file.
pub open spec fn parse_ini(path: Seq<char>, source: Seq<char>) -> Result<
    Seq<SectionView>,
    ParseErrorView,
> {
    ini_lines(path, text::split_parts(source, '\n'), 0, None, seq![])
}

/// The view of a parsed INI.
pub open spec fn ini_result(r: Result<Ini, ParseError>) -> Result<
    Seq<SectionView>,
    ParseErrorView,
> {
    match r {
        Ok(i) => Ok(i@),
        Err(e) => Err(e@),
    }
}

pub proof fn lemma_logical_line_advances(lines: Seq<Seq<char>>, i: int, accum: Seq<char>)
    ensures
        logical_line(lines, i, accum) is Some ==> {
            let next = logical_line(lines, i, accum)->Some_0.1;
            i < next && (i < lines.len() ==> next <= lines.len())
        },
    decreases lines.len() - i,
{
    if goes_on(accum) && i + 1 < lines.len() {
        lemma_logical_line_advances(
            lines,
            i + 1,
            text::trimmed_end(accum).drop_last() + " "@ + text::trimmed_start(
                chomped(lines[i + 1]),
            ),
        );
    }
}

fn chomp(line: &[char]) -> (r: &[char])
    ensures
        r@ == chomped(line@),
{
    if line.len() > 0 && line[line.len() - 1] == '\r' {
        proof {
            assert(line@.drop_last() =~= line@.subrange(0, line@.len() - 1));
        }
        slice_subrange(line, 0, line.len() - 1)
    } else {
        line
    }
}

fn number_of_line(i: usize) -> (r: u32)
    requires
        i < usize::MAX,
    ensures
        r == line_number(i as int),
{
    let n: u64 = (i as u64 + 1) % 0x1_0000_0000;
    n as u32
}

/// The body of a line that goes on, without its final backslash.
fn without_backslash(s: &[char]) -> (r: Option<&[char]>)
    ensures
        match r {
            Some(t) => goes_on(s@) && t@ == text::trimmed_end(s@).drop_last(),
            None => !goes_on(s@),
        },
{
    let t = trim_end(s);
    if t.len() > 0 && t[t.len() - 1] == '\\' {
        proof {
            assert(t@.drop_last() =~= t@.subrange(0, t@.len() - 1));
        }
        Some(slice_subrange(t, 0, t.len() - 1))
    } else {
        None
    }
}

/// Puts together the logical line that begins at `i`.
fn read_logical_line(lines: &Vec<&[char]>, i: usize) -> (r: Option<(Vec<char>, usize)>)
    requires
        i < lines@.len(),
    ensures
        match r {
            Some(p) => logical_line(text::slices(lines@), i as int, chomped(lines@[i as int]@))
                == Some((p.0@, p.1 as int)) && i < p.1 <= lines@.len(),
            None => logical_line(text::slices(lines@), i as int, chomped(lines@[i as int]@)) is None,
        },
{
    let mut accum: Vec<char> = chars_from(chomp(lines[i]));
    let mut at: usize = i;
    let ghost all = text::slices(lines@);
    let ghost first = chomped(lines@[i as int]@);
    loop
        invariant
            i <= at < lines.len(),
            all == text::slices(lines@),
            logical_line(all, i as int, first) == logical_line(all, at as int, accum@),
            first == chomped(lines@[i as int]@),
        decreases lines@.len() - at,
    {
        match without_backslash(accum.as_slice()) {
            None => {
                return Some((accum, at + 1));
            },
            Some(body) => {
                if at + 1 >= lines.len() {
                    return None;
                }
                let mut next: Vec<char> = chars_from(body);
                next.push(' ');
                let tail = trim_start(chomp(lines[at + 1]));
                append_chars(&mut next, tail);
                proof {
                    reveal_strlit(" ");
                    assert(next@ =~= body@ + " "@ + tail@);
                    assert(all[at + 1] == lines@[at + 1]@);
                }
                accum = next;
                at = at + 1;
            },
        }
    }
}

fn chars_from(s: &[char]) -> (r: Vec<char>)
    ensures
        r@ == s@,
{
    let mut out: Vec<char> = Vec::new();
    append_chars(&mut out, s);
    proof {
        assert(out@ =~= s@);
    }
    out
}

fn append_chars(out: &mut Vec<char>, s: &[char])
    ensures
        final(out)@ == old(out)@ + s@,
{
    let mut i: usize = 0;
    proof {
        assert(out@ + s@.take(0) =~= out@);
    }
    while i < s.len()
        invariant
            i <= s.len(),
            out@ == old(out)@ + s@.take(i as int),
        decreases s.len() - i,
    {
        proof {
            assert(s@.take(i + 1) =~= s@.take(i as int).push(s@[i as int]));
        }
        out.push(s[i]);
        i = i + 1;
    }
    proof {
        assert(s@.take(s@.len() as int) =~= s@);
    }
}

fn syntax_error(path: &str, line: u32, message: &str) -> (r: ParseError)
    ensures
        r@ == (ParseErrorView::Syntax { path: path@, line, message: message@ }),
{
    ParseError::Syntax { path: path.to_owned(), line, message: message.to_owned() }
}

/// Parse the contents of a unit file from a string. `path` is purely for
/// error reporting.
pub fn parse(path: &str, source: &str) -> (r: Result<Ini, ParseError>)
    ensures
        ini_result(r) == parse_ini(path@, source@),
{
    let src = chars_of(source);
    let lines = split(src.as_slice(), '\n');
    let mut ini = Ini::new();
    let mut current: Option<String> = None;
    let mut i: usize = 0;
    let ghost all = text::slices(lines@);
    while i < lines.len()
        invariant
            i <= lines.len(),
            all == text::slices(lines@),
            all == text::split_parts(source@, '\n'),
            parse_ini(path@, source@) == ini_lines(
                path@,
                all,
                i as int,
                text::opt_text(current),
                ini@,
            ),
        decreases lines@.len() - i,
    {
        let lineno: u32 = number_of_line(i);
        proof {
            lemma_logical_line_advances(all, i as int, chomped(lines@[i as int]@));
        }
        match read_logical_line(&lines, i) {
            None => {
                return Err(syntax_error(path, lineno, "trailing backslash with no continuation"));
            },
            Some((accum, next)) => {
                let t = trim(accum.as_slice());
                i = next;
                if t.len() == 0 || t[0] == '#' || t[0] == ';' {
                    continue;
                }
                if t[0] == '[' {
                    if t.len() >= 2 && t[t.len() - 1] == ']' {
                        let name = string_of(trim(slice_subrange(t, 1, t.len() - 1)));
                        let none: Vec<Entry> = Vec::new();
                        proof {
                            assert(entries_view(none@) =~= seq![]);
                        }
                        ini.extend_section(name.as_str(), none);
                        current = Some(name);
                        continue;
                    }
                    return Err(syntax_error(path, lineno, "unterminated section header"));
                }
                match &current {
                    None => {
                        return Err(syntax_error(path, lineno, "directive outside any section"));
                    },
                    Some(section) => {
                        match split_once(t, '=') {
                            None => {
                                return Err(syntax_error(path, lineno, "expected Key=Value"));
                            },
                            Some((k, v)) => {
                                let mut one: Vec<Entry> = Vec::new();
                                one.push(
                                    Entry {
                                        key: string_of(trim(k)),
                                        value: string_of(trim(v)),
                                        line: lineno,
                                    },
                                );
                                proof {
                                    assert(entries_view(one@) =~= seq![
                                        EntryView {
                                            key: text::trimmed(k@),
                                            value: text::trimmed(v@),
                                            line: lineno,
                                        },
                                    ]);
                                }
                                ini.extend_section(section.as_str(), one);
                            },
                        }
                    },
                }
            },
        }
    }
    Ok(ini)
}

// ---------------------------------------------------------------------
// Rendering
// ---------------------------------------------------------------------

/// The text of one entry.
pub open spec fn entry_text(e: EntryView) -> Seq<char> {
    e.key + "="@ + e.value + "\n"@
}

/// The text of a list of entries.
pub open spec fn entries_text(es: Seq<EntryView>) -> Seq<char>
    decreases es.len(),
{
    if es.len() == 0 {
        seq![]
    } else {
        entries_text(es.drop_last()) + entry_text(es.last())
    }
}

/// The text of one section: its header, its entries, an empty line.
pub open spec fn section_text(s: SectionView) -> Seq<char> {
    "["@ + s.name + "]\n"@ + entries_text(s.entries) + "\n"@
}

/// The text of an INI, section by section.
pub open spec fn ini_text(v: Seq<SectionView>) -> Seq<char>
    decreases v.len(),
{
    if v.len() == 0 {
        seq![]
    } else {
        ini_text(v.drop_last()) + section_text(v.last())
    }
}

/// Renders an INI back to text.
pub fn render_ini(ini: &Ini) -> (r: String)
    ensures
        r@ == ini_text(ini@),
{
    let mut s: String = String::new();
    let mut i: usize = 0;
    while i < ini.len()
        invariant
            i <= ini@.len(),
            s@ == ini_text(ini@.take(i as int)),
        decreases ini@.len() - i,
    {
        let sec = ini.section(i);
        let ghost before = s@;
        proof {
            assert(ini@.take(i + 1).drop_last() =~= ini@.take(i as int));
        }
        s.append("[");
        s.append(sec.name.as_str());
        s.append("]\n");
        let mut j: usize = 0;
        let ghost es = entries_view(sec.entries@);
        let ghost head = s@;
        while j < sec.entries.len()
            invariant
                j <= sec.entries@.len(),
                es == entries_view(sec.entries@),
                s@ =~= head + entries_text(es.take(j as int)),
            decreases sec.entries@.len() - j,
        {
            proof {
                assert(es.take(j + 1).drop_last() =~= es.take(j as int));
            }
            let e = &sec.entries[j];
            s.append(e.key.as_str());
            s.append("=");
            s.append(e.value.as_str());
            s.append("\n");
            j = j + 1;
        }
        s.append("\n");
        proof {
            assert(es.take(es.len() as int) =~= es);
            assert(s@ =~= before + section_text(ini@[i as int]));
        }
        i = i + 1;
    }
    proof {
        assert(ini@.take(ini@.len() as int) =~= ini@);
    }
    s
}

} // verus!
