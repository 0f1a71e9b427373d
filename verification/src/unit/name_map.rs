//! Unit names in the order in which they were first seen, and values by name.

use crate::keys::KeyTable;
use crate::text;
use crate::unit::name;
use crate::unit::name::{NameView, UnitName};
use crate::unit::name_set;
use vstd::prelude::*;

verus! {

/// The key that stands for a name: its stem, its suffix and its instance, if
/// there is one.
pub open spec fn name_key(n: NameView) -> Seq<Seq<char>> {
    match n.instance {
        None => seq![n.prefix, name::suffix_text(n.kind)],
        Some(i) => seq![n.prefix, name::suffix_text(n.kind), i],
    }
}

/// Distinct names have distinct keys.
proof fn lemma_key_identifies_name(a: NameView, b: NameView)
    requires
        name_key(a) == name_key(b),
    ensures
        a == b,
{
    name::lemma_suffixes_differ();
    let x = name_key(a);
    let y = name_key(b);
    assert(x.len() == y.len());
    assert(x[0] == y[0]);
    assert(x[1] == y[1]);
    if a.instance is Some {
        assert(x[2] == y[2]);
    }
}

fn key_of(n: &UnitName) -> (r: Vec<String>)
    ensures
        text::texts(r@) == name_key(n@),
{
    let mut key: Vec<String> = Vec::new();
    key.push(n.prefix.clone());
    key.push(n.kind.suffix().to_owned());
    if let Some(i) = &n.instance {
        key.push(i.clone());
    }
    proof {
        assert(text::texts(key@) =~= name_key(n@));
    }
    key
}

/// The keys of a list of names.
spec fn keys_view(s: Seq<NameView>) -> Seq<Seq<Seq<char>>> {
    s.map_values(|n: NameView| name_key(n))
}

proof fn lemma_keys_contain(s: Seq<NameView>, n: NameView)
    ensures
        keys_view(s).contains(name_key(n)) == s.contains(n),
{
    if s.contains(n) {
        let k = choose|k: int| 0 <= k < s.len() && s[k] == n;
        assert(keys_view(s)[k] == name_key(n));
    }
    if keys_view(s).contains(name_key(n)) {
        let k = choose|k: int| 0 <= k < s.len() && keys_view(s)[k] == name_key(n);
        lemma_key_identifies_name(s[k], n);
        assert(s[k] == n);
    }
}

/// Distinct unit names in the order in which they were added.
pub struct NameTable {
    table: KeyTable,
    names: Vec<UnitName>,
}

impl View for NameTable {
    type V = Seq<NameView>;

    closed spec fn view(&self) -> Seq<NameView> {
        name_set::names_view(self.names@)
    }
}

/// A list of names with one more, unless it is there.
pub open spec fn with_name(s: Seq<NameView>, n: NameView) -> Seq<NameView> {
    if s.contains(n) {
        s
    } else {
        s.push(n)
    }
}

impl NameTable {
    #[verifier::type_invariant]
    closed spec fn wf(&self) -> bool {
        &&& self.table.wf()
        &&& self.table@ == keys_view(name_set::names_view(self.names@))
    }

    /// A table without names.
    pub fn new() -> (r: Self)
        ensures
            r@ == Seq::<NameView>::empty(),
    {
        let table = KeyTable::new();
        let names: Vec<UnitName> = Vec::new();
        proof {
            assert(keys_view(name_set::names_view(names@)) =~= seq![]);
        }
        let r = NameTable { table, names };
        proof {
            assert(r@ =~= seq![]);
        }
        r
    }

    proof fn lemma_distinct(names: Seq<UnitName>)
        requires
            keys_view(name_set::names_view(names)).no_duplicates(),
        ensures
            name_set::names_view(names).no_duplicates(),
    {
        let s = name_set::names_view(names);
        assert forall|i: int, j: int| 0 <= i < s.len() && 0 <= j < s.len() && i != j implies s[i]
            != s[j] by {
            assert(keys_view(s)[i] != keys_view(s)[j]);
        }
    }

    /// The number of names.
    pub fn len(&self) -> (r: usize)
        ensures
            r == self@.len(),
            self@.no_duplicates(),
    {
        proof {
            use_type_invariant(self);
            NameTable::lemma_distinct(self.names@);
        }
        self.names.len()
    }

    /// The name at a position.
    pub fn get(&self, i: usize) -> (r: &UnitName)
        requires
            i < self@.len(),
        ensures
            r@ == self@[i as int],
    {
        &self.names[i]
    }

    /// The names in order.
    pub fn names(&self) -> (r: Vec<UnitName>)
        ensures
            name_set::names_view(r@) == self@,
            self@.no_duplicates(),
    {
        proof {
            use_type_invariant(self);
            NameTable::lemma_distinct(self.names@);
        }
        copy_names(&self.names)
    }

    /// The position of a name.
    pub fn position(&self, n: &UnitName) -> (r: Option<usize>)
        ensures
            self@.no_duplicates(),
            match r {
                Some(i) => i < self@.len() && self@[i as int] == n@,
                None => !self@.contains(n@),
            },
    {
        proof {
            use_type_invariant(self);
            NameTable::lemma_distinct(self.names@);
            lemma_keys_contain(self@, n@);
        }
        let r = self.table.find(&key_of(n));
        proof {
            if let Some(i) = r {
                lemma_key_identifies_name(self@[i as int], n@);
            }
        }
        r
    }

    /// Whether the table has a name.
    pub fn contains(&self, n: &UnitName) -> (r: bool)
        ensures
            r == self@.contains(n@),
    {
        self.position(n).is_some()
    }

    /// Adds a name at the end, unless the table has it. Gives its position, and
    /// whether it is new.
    pub fn insert(&mut self, n: UnitName) -> (r: (usize, bool))
        ensures
            final(self)@ == with_name(old(self)@, n@),
            final(self)@.no_duplicates(),
            r.1 == !old(self)@.contains(n@),
            r.0 < final(self)@.len(),
            final(self)@[r.0 as int] == n@,
    {
        let mut own = NameTable::new();
        core::mem::swap(&mut own, self);
        proof {
            use_type_invariant(&own);
            lemma_keys_contain(own@, n@);
        }
        let NameTable { mut table, mut names } = own;
        let ghost before = name_set::names_view(names@);
        let r = table.insert(key_of(&n));
        if r.1 {
            names.push(n);
            proof {
                assert(name_set::names_view(names@) =~= before.push(n@));
                assert(keys_view(name_set::names_view(names@)) =~= keys_view(before).push(
                    name_key(n@),
                ));
            }
        } else {
            proof {
                lemma_key_identifies_name(before[r.0 as int], n@);
            }
        }
        *self = NameTable { table, names };
        proof {
            NameTable::lemma_distinct(self.names@);
        }
        r
    }

    /// Removes a name and closes the gap. Gives the position that it had.
    pub fn remove(&mut self, n: &UnitName) -> (r: Option<usize>)
        ensures
            old(self)@.no_duplicates(),
            final(self)@.no_duplicates(),
            match r {
                Some(i) => i < old(self)@.len() && old(self)@[i as int] == n@ && final(self)@
                    == old(self)@.remove(i as int),
                None => !old(self)@.contains(n@) && final(self)@ == old(self)@,
            },
    {
        let mut own = NameTable::new();
        core::mem::swap(&mut own, self);
        proof {
            use_type_invariant(&own);
            NameTable::lemma_distinct(own.names@);
            lemma_keys_contain(own@, n@);
        }
        let NameTable { mut table, mut names } = own;
        let ghost before = name_set::names_view(names@);
        let r = table.remove(&key_of(n));
        if let Some(i) = r {
            proof {
                lemma_key_identifies_name(before[i as int], n@);
            }
            let _ = names.remove(i);
            proof {
                assert(name_set::names_view(names@) =~= before.remove(i as int));
                assert(keys_view(name_set::names_view(names@)) =~= keys_view(before).remove(
                    i as int,
                ));
            }
        }
        *self = NameTable { table, names };
        proof {
            NameTable::lemma_distinct(self.names@);
        }
        r
    }
}

/// A copy of a list of names.
pub fn copy_names(v: &Vec<UnitName>) -> (r: Vec<UnitName>)
    ensures
        name_set::names_view(r@) == name_set::names_view(v@),
{
    let mut out: Vec<UnitName> = Vec::new();
    let mut i: usize = 0;
    let ghost all = name_set::names_view(v@);
    proof {
        assert(name_set::names_view(out@) =~= all.take(0));
    }
    while i < v.len()
        invariant
            i <= v.len(),
            all == name_set::names_view(v@),
            name_set::names_view(out@) == all.take(i as int),
        decreases v.len() - i,
    {
        let ghost before = out@;
        out.push(v[i].clone());
        proof {
            assert(name_set::names_view(out@) =~= name_set::names_view(before).push(all[i as int]));
            assert(all.take(i + 1) =~= all.take(i as int).push(all[i as int]));
        }
        i = i + 1;
    }
    proof {
        assert(all.take(all.len() as int) =~= all);
    }
    out
}

/// Values by unit name, in the order in which the names were first added.
pub struct NameMap<V> {
    names: NameTable,
    vals: Vec<V>,
}

impl<V> NameMap<V> {
    #[verifier::type_invariant]
    closed spec fn wf(&self) -> bool {
        self.names@.len() == self.vals@.len() && self.names@.no_duplicates()
    }

    /// The names in order.
    pub closed spec fn keys(&self) -> Seq<NameView> {
        self.names@
    }

    /// The values, in the order of their names.
    pub closed spec fn values(&self) -> Seq<V> {
        self.vals@
    }

    /// A map without entries.
    pub fn new() -> (r: Self)
        ensures
            r.keys() == Seq::<NameView>::empty(),
            r.values() == Seq::<V>::empty(),
    {
        NameMap { names: NameTable::new(), vals: Vec::new() }
    }

    /// The number of entries.
    pub fn len(&self) -> (r: usize)
        ensures
            r == self.keys().len(),
            self.keys().len() == self.values().len(),
            self.keys().no_duplicates(),
    {
        proof {
            use_type_invariant(self);
        }
        self.vals.len()
    }

    /// Whether there are no entries.
    pub fn is_empty(&self) -> (r: bool)
        ensures
            r == (self.keys().len() == 0),
    {
        self.len() == 0
    }

    /// The name of an entry.
    pub fn name_at(&self, i: usize) -> (r: &UnitName)
        requires
            i < self.keys().len(),
        ensures
            r@ == self.keys()[i as int],
    {
        self.names.get(i)
    }

    /// The value of an entry.
    pub fn value_at(&self, i: usize) -> (r: &V)
        requires
            i < self.keys().len(),
        ensures
            *r == self.values()[i as int],
    {
        proof {
            use_type_invariant(self);
        }
        &self.vals[i]
    }

    /// The names in order.
    pub fn names(&self) -> (r: Vec<UnitName>)
        ensures
            name_set::names_view(r@) == self.keys(),
            self.keys().no_duplicates(),
            self.keys().len() == self.values().len(),
    {
        proof {
            use_type_invariant(self);
        }
        self.names.names()
    }

    /// The position of a name.
    pub fn position(&self, n: &UnitName) -> (r: Option<usize>)
        ensures
            self.keys().no_duplicates(),
            self.keys().len() == self.values().len(),
            match r {
                Some(i) => i < self.keys().len() && self.keys()[i as int] == n@,
                None => !self.keys().contains(n@),
            },
    {
        proof {
            use_type_invariant(self);
        }
        self.names.position(n)
    }

    /// Whether a name has an entry.
    pub fn contains(&self, n: &UnitName) -> (r: bool)
        ensures
            r == self.keys().contains(n@),
    {
        self.names.contains(n)
    }

    /// The value of a name.
    pub fn get(&self, n: &UnitName) -> (r: Option<&V>)
        ensures
            self.keys().no_duplicates(),
            self.keys().len() == self.values().len(),
            match r {
                Some(v) => self.keys().contains(n@) && *v == self.values()[self.keys().index_of(
                    n@,
                )],
                None => !self.keys().contains(n@),
            },
    {
        proof {
            use_type_invariant(self);
        }
        match self.names.position(n) {
            Some(i) => {
                proof {
                    assert(self.keys()[i as int] == n@);
                    assert(self.keys().index_of(n@) == i);
                }
                Some(&self.vals[i])
            },
            None => None,
        }
    }

    /// Sets the value of a name: in its place where the name has an entry, else
    /// at the end.
    pub fn insert(&mut self, n: UnitName, v: V)
        ensures
            final(self).keys() == with_name(old(self).keys(), n@),
            final(self).keys().no_duplicates(),
            final(self).keys().len() == final(self).values().len(),
            old(self).keys().len() == old(self).values().len(),
            old(self).keys().no_duplicates(),
            final(self).values() == if old(self).keys().contains(n@) {
                old(self).values().update(old(self).keys().index_of(n@), v)
            } else {
                old(self).values().push(v)
            },
    {
        let mut own = NameMap::new();
        core::mem::swap(&mut own, self);
        proof {
            use_type_invariant(&own);
        }
        let NameMap { mut names, mut vals } = own;
        let (i, fresh) = names.insert(n);
        if fresh {
            vals.push(v);
        } else {
            proof {
                assert(names@.index_of(n@) == i);
            }
            vals.set(i, v);
        }
        *self = NameMap { names, vals };
    }

    /// Sets the value of an entry.
    pub fn set(&mut self, i: usize, v: V)
        requires
            i < old(self).keys().len(),
        ensures
            final(self).keys() == old(self).keys(),
            final(self).values() == old(self).values().update(i as int, v),
    {
        let mut own = NameMap::new();
        core::mem::swap(&mut own, self);
        proof {
            use_type_invariant(&own);
        }
        let NameMap { names, mut vals } = own;
        vals.set(i, v);
        *self = NameMap { names, vals };
    }

    /// Removes the entry of a name and closes the gap.
    pub fn remove(&mut self, n: &UnitName) -> (r: Option<V>)
        ensures
            old(self).keys().no_duplicates(),
            old(self).keys().len() == old(self).values().len(),
            final(self).keys().no_duplicates(),
            match r {
                Some(v) => old(self).keys().contains(n@) && v == old(self).values()[old(
                    self,
                ).keys().index_of(n@)] && final(self).keys() == old(self).keys().remove(
                    old(self).keys().index_of(n@),
                ) && final(self).values() == old(self).values().remove(
                    old(self).keys().index_of(n@),
                ),
                None => !old(self).keys().contains(n@) && final(self).keys() == old(self).keys()
                    && final(self).values() == old(self).values(),
            },
    {
        let mut own = NameMap::new();
        core::mem::swap(&mut own, self);
        proof {
            use_type_invariant(&own);
        }
        let NameMap { mut names, mut vals } = own;
        let ghost before = names@;
        let r: Option<V> = match names.remove(n) {
            Some(i) => {
                proof {
                    assert(before[i as int] == n@);
                    assert(before.index_of(n@) == i);
                }
                Some(vals.remove(i))
            },
            None => None,
        };
        *self = NameMap { names, vals };
        r
    }
}

// ---------------------------------------------------------------------
// Entries by view
// ---------------------------------------------------------------------

/// The names of a list of entries.
pub open spec fn names_of<T>(s: Seq<(NameView, T)>) -> Seq<NameView> {
    s.map_values(|e: (NameView, T)| e.0)
}

/// What a name stands for.
pub open spec fn found<T>(s: Seq<(NameView, T)>, n: NameView) -> Option<T> {
    if names_of(s).contains(n) {
        Some(s[names_of(s).index_of(n)].1)
    } else {
        None
    }
}

/// The entries with a value for a name: in its place, else at the end.
pub open spec fn with_entry<T>(s: Seq<(NameView, T)>, n: NameView, v: T) -> Seq<(NameView, T)> {
    if names_of(s).contains(n) {
        s.update(names_of(s).index_of(n), (n, v))
    } else {
        s.push((n, v))
    }
}

/// The entries without a name.
pub open spec fn without_entry<T>(s: Seq<(NameView, T)>, n: NameView) -> Seq<(NameView, T)> {
    if names_of(s).contains(n) {
        s.remove(names_of(s).index_of(n))
    } else {
        s
    }
}

impl<V: View> NameMap<V> {
    /// The entries in order.
    pub open spec fn entries(&self) -> Seq<(NameView, V::V)> {
        Seq::new(self.keys().len(), |i: int| (self.keys()[i], self.values()[i]@))
    }

    /// The names of the entries are the names in order.
    pub proof fn lemma_names(&self)
        ensures
            names_of(self.entries()) == self.keys(),
    {
        assert(names_of(self.entries()) =~= self.keys());
    }

    /// The value of a name.
    pub fn lookup(&self, n: &UnitName) -> (r: Option<&V>)
        ensures
            match r {
                Some(v) => found(self.entries(), n@) == Some(v@),
                None => found(self.entries(), n@) is None,
            },
    {
        proof {
            self.lemma_names();
        }
        self.get(n)
    }

    /// Sets the value of a name: in its place where the name has an entry, else
    /// at the end.
    pub fn put(&mut self, n: UnitName, v: V)
        ensures
            final(self).entries() == with_entry(old(self).entries(), n@, v@),
    {
        proof {
            self.lemma_names();
        }
        self.insert(n, v);
        proof {
            assert(self.entries() =~= with_entry(old(self).entries(), n@, v@));
        }
    }

    /// Removes the entry of a name and closes the gap.
    pub fn take(&mut self, n: &UnitName) -> (r: Option<V>)
        ensures
            match r {
                Some(v) => found(old(self).entries(), n@) == Some(v@),
                None => found(old(self).entries(), n@) is None,
            },
            final(self).entries() == without_entry(old(self).entries(), n@),
    {
        proof {
            self.lemma_names();
        }
        let r = self.remove(n);
        proof {
            assert(self.entries() =~= without_entry(old(self).entries(), n@));
        }
        r
    }
}

} // verus!
