//! Insertion-ordered keys.
//!
//! Sections of a unit file, nodes of the dependency graph, queued jobs and the
//! manager's registry all keep their entries in the order in which they were
//! first seen. A key is a short list of strings; a [`KeyTable`] gives each key
//! its position.

use crate::text;
use indexmap::IndexSet;
use vstd::prelude::*;

verus! {

#[verifier::external_type_specification]
#[verifier::external_body]
#[verifier::reject_recursive_types(T)]
#[verifier::reject_recursive_types(S)]
pub struct ExIndexSet<T, S>(IndexSet<T, S>);

/// The items of the set in insertion order, each by its characters.
pub uninterp spec fn rows(s: IndexSet<Vec<String>>) -> Seq<Seq<Seq<char>>>;

/// `IndexSet::new`: the new set has no items.
#[verifier::external_body]
fn rows_new() -> (r: IndexSet<Vec<String>>)
    ensures
        rows(r) == Seq::<Seq<Seq<char>>>::empty(),
{
    IndexSet::new()
}

/// `IndexSet::get_index_of`: the position of an item, if the set has it.
#[verifier::external_body]
fn rows_find(s: &IndexSet<Vec<String>>, key: &Vec<String>) -> (r: Option<usize>)
    ensures
        match r {
            Some(i) => i < rows(*s).len() && rows(*s)[i as int] == text::texts(key@),
            None => !rows(*s).contains(text::texts(key@)),
        },
{
    s.get_index_of(key)
}

/// `IndexSet::insert_full`: an item that the set has keeps its position and the
/// set is unchanged; a new item goes to the end.
#[verifier::external_body]
fn rows_insert(s: &mut IndexSet<Vec<String>>, key: Vec<String>) -> (r: (usize, bool))
    ensures
        rows(*old(s)).contains(text::texts(key@)) ==> !r.1 && rows(*final(s)) == rows(*old(s)) && r.0
            < rows(*old(s)).len() && rows(*old(s))[r.0 as int] == text::texts(key@),
        !rows(*old(s)).contains(text::texts(key@)) ==> r.1 && rows(*final(s)) == rows(*old(s)).push(
            text::texts(key@),
        ) && r.0 == rows(*old(s)).len(),
{
    s.insert_full(key)
}

/// `IndexSet::shift_remove_full`: removes an item that the set has and closes
/// the gap, keeping the order of the others; the position it had comes back.
#[verifier::external_body]
fn rows_remove(s: &mut IndexSet<Vec<String>>, key: &Vec<String>) -> (r: Option<usize>)
    ensures
        match r {
            Some(i) => i < rows(*old(s)).len() && rows(*old(s))[i as int] == text::texts(key@)
                && rows(*final(s)) == rows(*old(s)).remove(i as int),
            None => !rows(*old(s)).contains(text::texts(key@)) && rows(*final(s)) == rows(*old(s)),
        },
{
    s.shift_remove_full(key).map(|p| p.0)
}

/// Distinct keys, each with its position.
pub struct KeyTable {
    set: IndexSet<Vec<String>>,
}

impl View for KeyTable {
    type V = Seq<Seq<Seq<char>>>;

    closed spec fn view(&self) -> Seq<Seq<Seq<char>>> {
        rows(self.set)
    }
}

impl KeyTable {
    /// No key occurs twice.
    pub open spec fn wf(&self) -> bool {
        self@.no_duplicates()
    }

    /// A table without keys.
    pub fn new() -> (r: Self)
        ensures
            r.wf(),
            r@ == Seq::<Seq<Seq<char>>>::empty(),
    {
        KeyTable { set: rows_new() }
    }

    /// The position of a key.
    pub fn find(&self, key: &Vec<String>) -> (r: Option<usize>)
        ensures
            match r {
                Some(i) => i < self@.len() && self@[i as int] == text::texts(key@),
                None => !self@.contains(text::texts(key@)),
            },
    {
        rows_find(&self.set, key)
    }

    /// The position of a key, added at the end where it is new.
    pub fn insert(&mut self, key: Vec<String>) -> (r: (usize, bool))
        requires
            old(self).wf(),
        ensures
            final(self).wf(),
            r.1 == !old(self)@.contains(text::texts(key@)),
            !r.1 ==> final(self)@ == old(self)@ && r.0 < old(self)@.len()
                && old(self)@[r.0 as int] == text::texts(key@),
            r.1 ==> final(self)@ == old(self)@.push(text::texts(key@)) && r.0 == old(self)@.len(),
    {
        rows_insert(&mut self.set, key)
    }

    /// Removes a key; those behind it move up by one.
    pub fn remove(&mut self, key: &Vec<String>) -> (r: Option<usize>)
        requires
            old(self).wf(),
        ensures
            final(self).wf(),
            match r {
                Some(i) => i < old(self)@.len() && old(self)@[i as int] == text::texts(key@)
                    && final(self)@ == old(self)@.remove(i as int),
                None => !old(self)@.contains(text::texts(key@)) && final(self)@ == old(self)@,
            },
    {
        rows_remove(&mut self.set, key)
    }
}

} // verus!
