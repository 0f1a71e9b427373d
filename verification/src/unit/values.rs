//! Values that several sections share: lists, lists of units, and the error for
//! a value that is wrong.

use crate::text;
use crate::text::{chars_of, split_items, string_of};
use crate::unit::error::{ParseError, ParseErrorView, ParseWarning, ParseWarningView};
use crate::unit::ini::{Entry, EntryView};
use crate::unit::name;
use crate::unit::name::{NameView, UnitName};
use crate::unit::name_set;
use vstd::prelude::*;

verus! {

/// The views of a list of warnings.
pub open spec fn warnings_view(v: Seq<ParseWarning>) -> Seq<ParseWarningView> {
    v.map_values(|w: ParseWarning| w@)
}

pub proof fn lemma_warnings_push(v: Seq<ParseWarning>, w: ParseWarning)
    ensures
        warnings_view(v.push(w)) == warnings_view(v).push(w@),
{
    assert(warnings_view(v.push(w)) =~= warnings_view(v).push(w@));
}

/// Whitespace + comma-separated list.
pub fn parse_list(s: &str) -> (r: Vec<String>)
    ensures
        text::texts(r@) == text::items(s@, true),
{
    let v = chars_of(s);
    let parts = split_items(v.as_slice(), true);
    let mut out: Vec<String> = Vec::new();
    let mut i: usize = 0;
    let ghost all = text::slices(parts@);
    while i < parts.len()
        invariant
            i <= parts.len(),
            all == text::slices(parts@),
            text::texts(out@) =~= all.take(i as int),
        decreases parts.len() - i,
    {
        let ghost before = out@;
        out.push(string_of(parts[i]));
        proof {
            assert(text::texts(out@) =~= text::texts(before).push(parts@[i as int]@));
        }
        i = i + 1;
    }
    proof {
        assert(all.take(all.len() as int) =~= all);
    }
    out
}

/// The names among words; a word that is no name is left out.
pub open spec fn names_among(words: Seq<Seq<char>>) -> Seq<NameView>
    decreases words.len(),
{
    if words.len() == 0 {
        seq![]
    } else {
        match name::parse_name(words.last()) {
            Ok(n) => names_among(words.drop_last()).push(n),
            Err(_) => names_among(words.drop_last()),
        }
    }
}

/// A list of units.
pub fn parse_units_list(s: &str) -> (r: Vec<UnitName>)
    ensures
        name_set::names_view(r@) == names_among(text::items(s@, true)),
{
    let words = parse_list(s);
    let mut out: Vec<UnitName> = Vec::new();
    let mut i: usize = 0;
    let ghost all = text::texts(words@);
    proof {
        assert(name_set::names_view(out@) =~= seq![]);
    }
    while i < words.len()
        invariant
            i <= words.len(),
            all == text::texts(words@),
            name_set::names_view(out@) == names_among(all.take(i as int)),
        decreases words.len() - i,
    {
        proof {
            assert(all.take(i + 1).drop_last() =~= all.take(i as int));
            assert(all.take(i + 1).last() == words@[i as int]@);
        }
        if let Ok(n) = UnitName::from_str(words[i].as_str()) {
            let ghost before = out@;
            out.push(n);
            proof {
                assert(name_set::names_view(out@) =~= name_set::names_view(before).push(n@));
            }
        }
        i = i + 1;
    }
    proof {
        assert(all.take(all.len() as int) =~= all);
    }
    out
}

/// The error for a value that is wrong.
pub open spec fn bad_directive(
    path: Seq<char>,
    section: Seq<char>,
    e: EntryView,
    reason: Seq<char>,
) -> ParseErrorView {
    ParseErrorView::BadDirective {
        path,
        line: e.line,
        section,
        key: e.key,
        value: e.value,
        reason,
    }
}

/// The error for a value that is wrong.
pub fn bad(path: &str, section: &str, e: &Entry, reason: &str) -> (r: ParseError)
    ensures
        r@ == bad_directive(path@, section@, e@, reason@),
{
    ParseError::BadDirective {
        path: path.to_owned(),
        line: e.line,
        section: section.to_owned(),
        key: e.key.clone(),
        value: e.value.clone(),
        reason: reason.to_owned(),
    }
}

} // verus!
