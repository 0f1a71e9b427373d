//! Texts by key, listed in the order of their keys.

use crate::text::same;
use crate::unit::name;
use crate::unit::name::text_comes_before;
use vstd::prelude::*;

verus! {

/// The views of a list of pairs.
pub open spec fn pairs_view(v: Seq<(String, String)>) -> Seq<(Seq<char>, Seq<char>)> {
    v.map_values(|p: (String, String)| (p.0@, p.1@))
}

/// Whether every key comes before those behind it.
pub open spec fn keys_ascend(s: Seq<(Seq<char>, Seq<char>)>) -> bool {
    forall|i: int, j: int|
        0 <= i < j < s.len() ==> name::text_before((#[trigger] s[i]).0, (#[trigger] s[j]).0)
}

/// The map of a list of pairs.
pub open spec fn map_of(s: Seq<(Seq<char>, Seq<char>)>) -> Map<Seq<char>, Seq<char>>
    decreases s.len(),
{
    if s.len() == 0 {
        Map::empty()
    } else {
        map_of(s.drop_last()).insert(s.last().0, s.last().1)
    }
}

/// Whether a list holds the pairs of a map, in the order of their keys.
pub open spec fn lists(s: Seq<(Seq<char>, Seq<char>)>, m: Map<Seq<char>, Seq<char>>) -> bool {
    &&& keys_ascend(s)
    &&& map_of(s) == m
}

proof fn lemma_distinct(s: Seq<(Seq<char>, Seq<char>)>, i: int, j: int)
    requires
        keys_ascend(s),
        0 <= i < s.len(),
        0 <= j < s.len(),
        s[i].0 == s[j].0,
    ensures
        i == j,
{
    name::lemma_text_before_total(s[i].0, s[j].0);
    if i < j {
        assert(name::text_before(s[i].0, s[j].0));
    } else if j < i {
        assert(name::text_before(s[j].0, s[i].0));
    }
}

/// What is found in the map of a list with ascending keys.
proof fn lemma_map_of(s: Seq<(Seq<char>, Seq<char>)>)
    requires
        keys_ascend(s),
    ensures
        forall|i: int|
            0 <= i < s.len() ==> map_of(s).contains_key((#[trigger] s[i]).0) && map_of(s)[s[i].0]
                == s[i].1,
        forall|k: Seq<char>| #[trigger]
            map_of(s).contains_key(k) ==> exists|i: int|
                0 <= i < s.len() && (#[trigger] s[i]).0 == k,
    decreases s.len(),
{
    if s.len() > 0 {
        let rest = s.drop_last();
        assert forall|i: int, j: int| 0 <= i < j < rest.len() implies name::text_before(
            (#[trigger] rest[i]).0,
            (#[trigger] rest[j]).0,
        ) by {
            assert(rest[i] == s[i] && rest[j] == s[j]);
        }
        lemma_map_of(rest);
        let m = map_of(s);
        assert forall|i: int| 0 <= i < s.len() implies m.contains_key((#[trigger] s[i]).0)
            && m[s[i].0] == s[i].1 by {
            if i < rest.len() {
                assert(rest[i] == s[i]);
                if s[i].0 == s.last().0 {
                    lemma_distinct(s, i, s.len() - 1);
                }
            }
        }
        assert forall|k: Seq<char>| #[trigger] m.contains_key(k) implies exists|i: int|
            0 <= i < s.len() && (#[trigger] s[i]).0 == k by {
            if k == s.last().0 {
                assert(s[s.len() - 1].0 == k);
            } else {
                assert(map_of(rest).contains_key(k));
                let i = choose|i: int| 0 <= i < rest.len() && (#[trigger] rest[i]).0 == k;
                assert(s[i].0 == k);
            }
        }
    }
}

/// Two lists with ascending keys, one with a pair more, or with another value
/// at a key.
proof fn lemma_map_with(
    s: Seq<(Seq<char>, Seq<char>)>,
    t: Seq<(Seq<char>, Seq<char>)>,
    k: Seq<char>,
    v: Seq<char>,
)
    requires
        keys_ascend(s),
        keys_ascend(t),
        forall|i: int|
            0 <= i < s.len() && (#[trigger] s[i]).0 != k ==> t.contains(s[i]),
        forall|i: int| 0 <= i < t.len() ==> (#[trigger] t[i]) == (k, v) || s.contains(t[i]),
        t.contains((k, v)),
    ensures
        map_of(t) == map_of(s).insert(k, v),
{
    lemma_map_of(s);
    lemma_map_of(t);
    let a = map_of(t);
    let b = map_of(s).insert(k, v);
    let w = choose|w: int| 0 <= w < t.len() && t[w] == (k, v);
    assert(t[w].0 == k);
    assert forall|x: Seq<char>| #[trigger] a.contains_key(x) == b.contains_key(x) by {
        if a.contains_key(x) {
            let i = choose|i: int| 0 <= i < t.len() && (#[trigger] t[i]).0 == x;
            if t[i] != (k, v) {
                let j = choose|j: int| 0 <= j < s.len() && s[j] == t[i];
                assert(s[j].0 == x);
            }
        }
        if b.contains_key(x) && x != k {
            let i = choose|i: int| 0 <= i < s.len() && (#[trigger] s[i]).0 == x;
            assert(t.contains(s[i]));
            let j = choose|j: int| 0 <= j < t.len() && t[j] == s[i];
            assert(t[j].0 == x);
        }
    }
    assert forall|x: Seq<char>| #[trigger] a.contains_key(x) implies a[x] == b[x] by {
        let i = choose|i: int| 0 <= i < t.len() && (#[trigger] t[i]).0 == x;
        if x == k {
            lemma_distinct(t, i, w);
        } else {
            assert(s.contains(t[i]));
            let j = choose|j: int| 0 <= j < s.len() && s[j] == t[i];
            assert(s[j].0 == x);
        }
    }
    assert(a =~= b);
}

/// A list with ascending keys, without one of its keys.
proof fn lemma_map_without(s: Seq<(Seq<char>, Seq<char>)>, i: int)
    requires
        keys_ascend(s),
        0 <= i < s.len(),
    ensures
        keys_ascend(s.remove(i)),
        map_of(s.remove(i)) == map_of(s).remove(s[i].0),
{
    let t = s.remove(i);
    assert forall|x: int, y: int| 0 <= x < y < t.len() implies name::text_before(
        (#[trigger] t[x]).0,
        (#[trigger] t[y]).0,
    ) by {
        let a = if x < i {
            x
        } else {
            x + 1
        };
        let b = if y < i {
            y
        } else {
            y + 1
        };
        assert(t[x] == s[a] && t[y] == s[b]);
    }
    lemma_map_of(s);
    lemma_map_of(t);
    let a = map_of(t);
    let b = map_of(s).remove(s[i].0);
    assert forall|x: Seq<char>| #[trigger] a.contains_key(x) == b.contains_key(x) by {
        if a.contains_key(x) {
            let j = choose|j: int| 0 <= j < t.len() && (#[trigger] t[j]).0 == x;
            let k = if j < i {
                j
            } else {
                j + 1
            };
            assert(s[k] == t[j]);
            if x == s[i].0 {
                lemma_distinct(s, k, i);
            }
        }
        if b.contains_key(x) {
            let j = choose|j: int| 0 <= j < s.len() && (#[trigger] s[j]).0 == x;
            let k = if j < i {
                j
            } else {
                j - 1
            };
            assert(t[k] == s[j]);
        }
    }
    assert forall|x: Seq<char>| #[trigger] a.contains_key(x) implies a[x] == b[x] by {
        let j = choose|j: int| 0 <= j < t.len() && (#[trigger] t[j]).0 == x;
        let k = if j < i {
            j
        } else {
            j + 1
        };
        assert(s[k] == t[j]);
    }
    assert(a =~= b);
}

/// Texts by key.
#[derive(Debug)]
pub struct TextMap {
    pairs: Vec<(String, String)>,
}

impl View for TextMap {
    type V = Map<Seq<char>, Seq<char>>;

    closed spec fn view(&self) -> Map<Seq<char>, Seq<char>> {
        map_of(pairs_view(self.pairs@))
    }
}

impl Default for TextMap {
    fn default() -> (r: Self)
        ensures
            r@ == Map::<Seq<char>, Seq<char>>::empty(),
    {
        TextMap::new()
    }
}

impl TextMap {
    #[verifier::type_invariant]
    closed spec fn wf(&self) -> bool {
        keys_ascend(pairs_view(self.pairs@))
    }

    /// A map without entries.
    pub fn new() -> (r: Self)
        ensures
            r@ == Map::<Seq<char>, Seq<char>>::empty(),
    {
        let r = TextMap { pairs: Vec::new() };
        proof {
            assert(pairs_view(r.pairs@) =~= seq![]);
        }
        r
    }

    /// A copy of the map.
    pub fn copy(&self) -> (r: Self)
        ensures
            r@ == self@,
    {
        proof {
            use_type_invariant(self);
        }
        let ghost all = pairs_view(self.pairs@);
        let mut pairs: Vec<(String, String)> = Vec::new();
        let mut i: usize = 0;
        proof {
            assert(pairs_view(pairs@) =~= all.take(0));
        }
        while i < self.pairs.len()
            invariant
                i <= self.pairs.len(),
                all == pairs_view(self.pairs@),
                pairs_view(pairs@) == all.take(i as int),
            decreases self.pairs.len() - i,
        {
            let ghost before = pairs@;
            pairs.push((self.pairs[i].0.clone(), self.pairs[i].1.clone()));
            proof {
                assert(pairs_view(pairs@) =~= pairs_view(before).push(all[i as int]));
                assert(all.take(i + 1) =~= all.take(i as int).push(all[i as int]));
            }
            i = i + 1;
        }
        proof {
            assert(all.take(all.len() as int) =~= all);
        }
        TextMap { pairs }
    }

    /// The entries in the order of their keys.
    pub fn entries(&self) -> (r: &Vec<(String, String)>)
        ensures
            lists(pairs_view(r@), self@),
    {
        proof {
            use_type_invariant(self);
        }
        &self.pairs
    }

    /// Where a key stands, or would stand.
    fn place(&self, key: &str) -> (r: (usize, bool))
        ensures
            r.0 <= self.pairs@.len(),
            r.1 ==> r.0 < self.pairs@.len() && self.pairs@[r.0 as int].0@ == key@,
            !r.1 ==> forall|j: int|
                0 <= j < self.pairs@.len() ==> (#[trigger] self.pairs@[j]).0@ != key@,
            forall|j: int|
                0 <= j < r.0 ==> name::text_before((#[trigger] self.pairs@[j]).0@, key@),
            !r.1 ==> forall|j: int|
                r.0 <= j < self.pairs@.len() ==> name::text_before(
                    key@,
                    (#[trigger] self.pairs@[j]).0@,
                ),
    {
        proof {
            use_type_invariant(self);
        }
        let ghost s = pairs_view(self.pairs@);
        let mut i: usize = 0;
        while i < self.pairs.len() && text_comes_before(self.pairs[i].0.as_str(), key)
            invariant
                i <= self.pairs.len(),
                forall|j: int|
                    0 <= j < i ==> name::text_before((#[trigger] self.pairs@[j]).0@, key@),
            decreases self.pairs.len() - i,
        {
            i = i + 1;
        }
        let found = i < self.pairs.len() && same(self.pairs[i].0.as_str(), key);
        proof {
            if i < self.pairs@.len() {
                name::lemma_text_before_total(self.pairs@[i as int].0@, key@);
                assert(s[i as int] == (self.pairs@[i as int].0@, self.pairs@[i as int].1@));
            }
            assert forall|j: int| i < j < self.pairs@.len() implies name::text_before(
                self.pairs@[i as int].0@,
                (#[trigger] self.pairs@[j]).0@,
            ) by {
                assert(name::text_before(s[i as int].0, s[j].0));
            }
            if !found {
                assert forall|j: int| i <= j < self.pairs@.len() implies name::text_before(
                    key@,
                    (#[trigger] self.pairs@[j]).0@,
                ) by {
                    if j > i {
                        name::lemma_text_before_transitive(
                            key@,
                            self.pairs@[i as int].0@,
                            self.pairs@[j].0@,
                        );
                    }
                }
                assert forall|j: int| 0 <= j < self.pairs@.len() implies (
                #[trigger] self.pairs@[j]).0@ != key@ by {
                    name::lemma_text_before_total(self.pairs@[j].0@, key@);
                }
            }
        }
        (i, found)
    }

    /// The text of a key.
    pub fn get(&self, key: &str) -> (r: Option<&String>)
        ensures
            match r {
                Some(v) => self@.contains_key(key@) && v@ == self@[key@],
                None => !self@.contains_key(key@),
            },
    {
        proof {
            use_type_invariant(self);
            lemma_map_of(pairs_view(self.pairs@));
        }
        let (i, found) = self.place(key);
        let ghost s = pairs_view(self.pairs@);
        if found {
            proof {
                assert(s[i as int].0 == key@);
            }
            Some(&self.pairs[i].1)
        } else {
            proof {
                if self@.contains_key(key@) {
                    let j = choose|j: int| 0 <= j < s.len() && (#[trigger] s[j]).0 == key@;
                    assert(self.pairs@[j].0@ == key@);
                }
            }
            None
        }
    }

    /// Sets the text of a key.
    pub fn insert(&mut self, key: &str, value: &str)
        ensures
            final(self)@ == old(self)@.insert(key@, value@),
    {
        let mut own = TextMap::new();
        core::mem::swap(&mut own, self);
        proof {
            use_type_invariant(&own);
        }
        let (i, found) = own.place(key);
        let TextMap { mut pairs } = own;
        let ghost s = pairs_view(pairs@);
        let ghost pairs0 = pairs@;
        if found {
            pairs.set(i, (key.to_owned(), value.to_owned()));
        } else {
            pairs.insert(i, (key.to_owned(), value.to_owned()));
        }
        proof {
            let t = pairs_view(pairs@);
            if found {
                assert(t =~= s.update(i as int, (key@, value@)));
                assert forall|x: int, y: int| 0 <= x < y < t.len() implies name::text_before(
                    (#[trigger] t[x]).0,
                    (#[trigger] t[y]).0,
                ) by {
                    assert(t[x].0 == s[x].0 && t[y].0 == s[y].0);
                }
                assert forall|x: int| 0 <= x < s.len() && (#[trigger] s[x]).0
                    != key@ implies t.contains(s[x]) by {
                    assert(t[x] == s[x]);
                }
                assert(t[i as int] == (key@, value@));
                assert forall|x: int| 0 <= x < t.len() implies (#[trigger] t[x]) == (key@, value@)
                    || s.contains(t[x]) by {
                    if x != i {
                        assert(s[x] == t[x]);
                    }
                }
            } else {
                assert(t =~= s.insert(i as int, (key@, value@)));
                assert forall|j: int| 0 <= j < i implies name::text_before(
                    (#[trigger] s[j]).0,
                    key@,
                ) by {
                    assert(pairs0[j].0@ == s[j].0);
                }
                assert forall|j: int| i <= j < s.len() implies name::text_before(
                    key@,
                    (#[trigger] s[j]).0,
                ) by {
                    assert(pairs0[j].0@ == s[j].0);
                }
                assert forall|x: int, y: int| 0 <= x < y < t.len() implies name::text_before(
                    (#[trigger] t[x]).0,
                    (#[trigger] t[y]).0,
                ) by {
                    if x < i && y < i {
                        assert(t[x] == s[x] && t[y] == s[y]);
                    } else if x < i && y == i {
                        assert(t[x] == s[x]);
                    } else if x < i {
                        assert(t[x] == s[x] && t[y] == s[y - 1]);
                    } else if x == i {
                        assert(t[y] == s[y - 1]);
                    } else {
                        assert(t[x] == s[x - 1] && t[y] == s[y - 1]);
                    }
                }
                assert forall|x: int| 0 <= x < s.len() && (#[trigger] s[x]).0
                    != key@ implies t.contains(s[x]) by {
                    if x < i {
                        assert(t[x] == s[x]);
                    } else {
                        assert(t[x + 1] == s[x]);
                    }
                }
                assert(t[i as int] == (key@, value@));
                assert forall|x: int| 0 <= x < t.len() implies (#[trigger] t[x]) == (key@, value@)
                    || s.contains(t[x]) by {
                    if x < i {
                        assert(s[x] == t[x]);
                    } else if x > i {
                        assert(s[x - 1] == t[x]);
                    }
                }
            }
            lemma_map_with(s, t, key@, value@);
        }
        *self = TextMap { pairs };
    }

    /// Removes a key.
    pub fn remove(&mut self, key: &str)
        ensures
            final(self)@ == old(self)@.remove(key@),
    {
        let mut own = TextMap::new();
        core::mem::swap(&mut own, self);
        proof {
            use_type_invariant(&own);
            lemma_map_of(pairs_view(own.pairs@));
        }
        let (i, found) = own.place(key);
        let TextMap { mut pairs } = own;
        let ghost s = pairs_view(pairs@);
        let ghost pairs0 = pairs@;
        if found {
            proof {
                lemma_map_without(s, i as int);
                assert(s[i as int].0 == key@);
            }
            let _ = pairs.remove(i);
            proof {
                assert(pairs_view(pairs@) =~= s.remove(i as int));
            }
        } else {
            proof {
                if map_of(s).contains_key(key@) {
                    let j = choose|j: int| 0 <= j < s.len() && (#[trigger] s[j]).0 == key@;
                    assert(pairs0[j].0@ == key@);
                }
                assert(map_of(s).remove(key@) =~= map_of(s));
            }
        }
        *self = TextMap { pairs };
    }
}

} // verus!
