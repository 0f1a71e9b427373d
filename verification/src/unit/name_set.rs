//! Ordered sets of unit names.

use crate::unit::name;
use crate::unit::name::{NameView, UnitName};
use vstd::prelude::*;

verus! {

/// The views of a list of names.
pub open spec fn names_view(v: Seq<UnitName>) -> Seq<NameView> {
    v.map_values(|n: UnitName| n@)
}

/// The set with one more name: at its place in the order, unless it is there.
pub open spec fn inserted(s: Seq<NameView>, x: NameView) -> Seq<NameView>
    decreases s.len(),
{
    if s.len() == 0 {
        seq![x]
    } else if s[0] == x {
        s
    } else if name::name_before(x, s[0]) {
        seq![x] + s
    } else {
        seq![s[0]] + inserted(s.skip(1), x)
    }
}

/// The set with more names, one after the other.
pub open spec fn extended(s: Seq<NameView>, xs: Seq<NameView>) -> Seq<NameView>
    decreases xs.len(),
{
    if xs.len() == 0 {
        s
    } else {
        inserted(extended(s, xs.drop_last()), xs.last())
    }
}

/// Whether every name comes before those behind it.
pub open spec fn is_ordered(s: Seq<NameView>) -> bool {
    forall|i: int, j: int| 0 <= i < j < s.len() ==> name::name_before(#[trigger] s[i], #[trigger] s[j])
}

/// A set of unit names, in order.
#[derive(Debug, PartialEq, Eq)]
pub struct NameSet {
    items: Vec<UnitName>,
}

impl View for NameSet {
    type V = Seq<NameView>;

    closed spec fn view(&self) -> Seq<NameView> {
        names_view(self.items@)
    }
}

impl Default for NameSet {
    fn default() -> (r: Self)
        ensures
            r@ == Seq::<NameView>::empty(),
    {
        NameSet::new()
    }
}

impl Clone for NameSet {
    fn clone(&self) -> (r: Self)
        ensures
            r@ == self@,
    {
        NameSet { items: self.names() }
    }
}

impl NameSet {
    /// The empty set.
    pub fn new() -> (r: Self)
        ensures
            r@ == Seq::<NameView>::empty(),
    {
        let r = NameSet { items: Vec::new() };
        proof {
            assert(r@ =~= Seq::<NameView>::empty());
        }
        r
    }

    /// The number of names.
    pub fn len(&self) -> (r: usize)
        ensures
            r == self@.len(),
    {
        self.items.len()
    }

    /// Whether there are no names.
    pub fn is_empty(&self) -> (r: bool)
        ensures
            r == (self@.len() == 0),
    {
        self.items.len() == 0
    }

    /// The name at a position in the order.
    pub fn get(&self, i: usize) -> (r: &UnitName)
        requires
            i < self@.len(),
        ensures
            r@ == self@[i as int],
    {
        &self.items[i]
    }

    /// The names in order.
    pub fn names(&self) -> (r: Vec<UnitName>)
        ensures
            names_view(r@) == self@,
    {
        let mut out: Vec<UnitName> = Vec::new();
        let mut i: usize = 0;
        while i < self.items.len()
            invariant
                i <= self.items.len(),
                names_view(out@) == self@.take(i as int),
            decreases self.items.len() - i,
        {
            let n = self.items[i].clone();
            proof {
                assert(names_view(out@.push(n)) =~= names_view(out@).push(n@));
                assert(self@.take(i + 1) =~= self@.take(i as int).push(self@[i as int]));
            }
            out.push(n);
            i = i + 1;
        }
        proof {
            assert(self@.take(self@.len() as int) =~= self@);
        }
        out
    }

    /// Whether the set has the name.
    pub fn contains(&self, x: &UnitName) -> (r: bool)
        ensures
            r == self@.contains(x@),
    {
        let mut i: usize = 0;
        while i < self.items.len()
            invariant
                i <= self.items.len(),
                forall|j: int| 0 <= j < i ==> self@[j] != x@,
            decreases self.items.len() - i,
        {
            if self.items[i].same_as(x) {
                proof {
                    assert(self@[i as int] == x@);
                }
                return true;
            }
            i = i + 1;
        }
        false
    }

    /// Adds a name; false where the set had it.
    pub fn insert(&mut self, x: UnitName) -> (r: bool)
        ensures
            final(self)@ == inserted(old(self)@, x@),
            r == (final(self)@ != old(self)@),
    {
        let mut i: usize = 0;
        let ghost s = self@;
        proof {
            assert(s.skip(0) =~= s);
            assert(s.take(0) + inserted(s, x@) =~= inserted(s, x@));
        }
        while i < self.items.len() && !self.items[i].same_as(&x) && !x.comes_before(&self.items[i])
            invariant
                i <= self.items.len(),
                s == self@,
                s == old(self)@,
                inserted(s, x@) == s.take(i as int) + inserted(s.skip(i as int), x@),
            decreases self.items.len() - i,
        {
            proof {
                assert(s.skip(i as int).skip(1) =~= s.skip(i + 1));
                assert(s.take(i as int) + (seq![s[i as int]] + inserted(s.skip(i + 1), x@))
                    =~= s.take(i + 1) + inserted(s.skip(i + 1), x@));
            }
            i = i + 1;
        }
        if i < self.items.len() && self.items[i].same_as(&x) {
            proof {
                assert(s.take(i as int) + s.skip(i as int) =~= s);
            }
            return false;
        }
        self.items.insert(i, x);
        proof {
            assert(self@ =~= s.take(i as int) + (seq![x@] + s.skip(i as int)));
            if i < s.len() {
                assert(inserted(s.skip(i as int), x@) == seq![x@] + s.skip(i as int));
            } else {
                assert(s.skip(i as int) =~= seq![]);
                assert(seq![x@] + s.skip(i as int) =~= seq![x@]);
            }
            assert(self@.len() == s.len() + 1);
        }
        true
    }

    /// Adds several names.
    pub fn extend(&mut self, xs: Vec<UnitName>)
        ensures
            final(self)@ == extended(old(self)@, names_view(xs@)),
    {
        let mut i: usize = 0;
        let ghost all = names_view(xs@);
        while i < xs.len()
            invariant
                i <= xs.len(),
                all == names_view(xs@),
                self@ == extended(old(self)@, all.take(i as int)),
            decreases xs.len() - i,
        {
            proof {
                assert(all.take(i + 1).drop_last() =~= all.take(i as int));
            }
            let _ = self.insert(xs[i].clone());
            i = i + 1;
        }
        proof {
            assert(all.take(all.len() as int) =~= all);
        }
    }
}

/// Inserting keeps the set in order, adds the name and nothing else.
pub proof fn insertion_keeps_order(s: Seq<NameView>, x: NameView)
    requires
        is_ordered(s),
    ensures
        is_ordered(inserted(s, x)),
        forall|y: NameView| #[trigger] inserted(s, x).contains(y) <==> s.contains(y) || y == x,
    decreases s.len(),
{
    let r = inserted(s, x);
    if s.len() == 0 {
        assert(r[0] == x);
        assert forall|y: NameView| r.contains(y) implies s.contains(y) || y == x by {}
    } else if s[0] == x {
    } else if name::name_before(x, s[0]) {
        assert forall|i: int, j: int| 0 <= i < j < r.len() implies name::name_before(
            #[trigger] r[i],
            #[trigger] r[j],
        ) by {
            if i == 0 && j > 1 {
                assert(name::name_before(s[0], s[j - 1]));
                name::name_order_is_transitive(x, s[0], s[j - 1]);
            } else if i > 0 {
                assert(name::name_before(s[i - 1], s[j - 1]));
            }
        }
        assert forall|y: NameView| #[trigger] r.contains(y) <==> s.contains(y) || y == x by {
            if s.contains(y) {
                let k = choose|k: int| 0 <= k < s.len() && s[k] == y;
                assert(r[k + 1] == y);
            }
            assert(r[0] == x);
        }
    } else {
        let t = s.skip(1);
        let q = inserted(t, x);
        assert forall|i: int, j: int| 0 <= i < j < t.len() implies name::name_before(
            #[trigger] t[i],
            #[trigger] t[j],
        ) by {
            assert(name::name_before(s[i + 1], s[j + 1]));
        }
        insertion_keeps_order(t, x);
        name::name_order_is_total(s[0], x);
        assert forall|j: int| 0 <= j < q.len() implies name::name_before(s[0], #[trigger] q[j]) by {
            assert(q.contains(q[j]));
            if q[j] != x {
                let k = choose|k: int| 0 <= k < t.len() && t[k] == q[j];
                assert(name::name_before(s[0], s[k + 1]));
            }
        }
        assert forall|i: int, j: int| 0 <= i < j < r.len() implies name::name_before(
            #[trigger] r[i],
            #[trigger] r[j],
        ) by {
            if i == 0 {
                assert(r[j] == q[j - 1]);
            } else {
                assert(r[i] == q[i - 1] && r[j] == q[j - 1]);
            }
        }
        assert forall|y: NameView| #[trigger] r.contains(y) <==> s.contains(y) || y == x by {
            if s.contains(y) {
                let k = choose|k: int| 0 <= k < s.len() && s[k] == y;
                if k == 0 {
                    assert(r[0] == y);
                } else {
                    assert(t[k - 1] == y);
                    assert(q.contains(y));
                    let m = choose|m: int| 0 <= m < q.len() && q[m] == y;
                    assert(r[m + 1] == y);
                }
            }
            if y == x {
                assert(q.contains(y));
                let m = choose|m: int| 0 <= m < q.len() && q[m] == y;
                assert(r[m + 1] == y);
            }
            if r.contains(y) && y != x {
                let k = choose|k: int| 0 <= k < r.len() && r[k] == y;
                if k == 0 {
                    assert(s[0] == y);
                } else {
                    assert(q[k - 1] == y);
                    assert(q.contains(y));
                    let m = choose|m: int| 0 <= m < t.len() && t[m] == y;
                    assert(s[m + 1] == y);
                }
            }
        }
    }
}

} // verus!
