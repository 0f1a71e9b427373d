//! Start order.
//!
//! `After=` and `Before=` say which of two units starts first. A list of units
//! is put in start order by a queue: first those that wait for nothing, then,
//! each time a unit leaves the queue, those that waited for it and now wait for
//! nothing more, in the order of the list.

use crate::deps::graph;
use crate::deps::graph::{DepEdge, DepGraph, EdgeView};
use crate::unit::name::{NameView, UnitName};
use crate::unit::name_set;
use vstd::prelude::*;

verus! {

// ---------------------------------------------------------------------
// A relation on positions
// ---------------------------------------------------------------------

/// Whether a relation on the positions of a list is given by its rows.
pub open spec fn is_relation(m: Seq<Seq<bool>>) -> bool {
    forall|p: int| 0 <= p < m.len() ==> (#[trigger] m[p]).len() == m.len()
}

/// Whether a position waits for none but those done.
pub open spec fn unblocked(m: Seq<Seq<bool>>, q: int, done: Seq<int>) -> bool {
    forall|p: int| 0 <= p < m.len() && (#[trigger] m[p])[q] ==> done.contains(p)
}

/// Of the first `k` positions, those that wait for nothing.
pub open spec fn initial(m: Seq<Seq<bool>>, k: int) -> Seq<int>
    decreases k,
{
    if k <= 0 {
        seq![]
    } else if unblocked(m, k - 1, seq![]) {
        initial(m, k - 1).push(k - 1)
    } else {
        initial(m, k - 1)
    }
}

/// Of the first `k` positions, those that waited for the last one done and now
/// wait for nothing more.
pub open spec fn released(m: Seq<Seq<bool>>, done: Seq<int>, k: int) -> Seq<int>
    decreases k,
{
    if k <= 0 {
        seq![]
    } else if m[done.last()][k - 1] && unblocked(m, k - 1, done) {
        released(m, done, k - 1).push(k - 1)
    } else {
        released(m, done, k - 1)
    }
}

/// The queue after `h` positions have left it; those are its first `h`.
pub open spec fn queue(m: Seq<Seq<bool>>, h: nat) -> Seq<int>
    decreases h,
{
    if h == 0 {
        initial(m, m.len() as int)
    } else {
        let q = queue(m, (h - 1) as nat);
        if h <= q.len() {
            q + released(m, q.take(h as int), m.len() as int)
        } else {
            q
        }
    }
}

/// The positions in start order; those on a cycle, and those that wait for
/// them, are left out.
pub open spec fn start_order(m: Seq<Seq<bool>>) -> Seq<int> {
    queue(m, m.len())
}

/// A walk along the relation.
pub open spec fn is_path(m: Seq<Seq<bool>>, s: Seq<int>) -> bool {
    &&& s.len() >= 2
    &&& forall|i: int| 0 <= i < s.len() ==> 0 <= #[trigger] s[i] < m.len()
    &&& forall|i: int| 0 <= i < s.len() - 1 ==> m[#[trigger] s[i]][s[i + 1]]
}

/// Whether a walk leads from one position to another.
pub open spec fn reaches(m: Seq<Seq<bool>>, a: int, b: int) -> bool {
    exists|s: Seq<int>| #[trigger] is_path(m, s) && s[0] == a && s.last() == b
}

/// Whether a position lies on a cycle.
pub open spec fn on_cycle(m: Seq<Seq<bool>>, q: int) -> bool {
    reaches(m, q, q)
}

/// The first position from `k` on that lies on a cycle.
pub open spec fn first_on_cycle(m: Seq<Seq<bool>>, k: int) -> int
    decreases m.len() - k,
{
    if k >= m.len() || on_cycle(m, k) {
        k
    } else {
        first_on_cycle(m, k + 1)
    }
}

// ---------------------------------------------------------------------
// The relation of a graph
// ---------------------------------------------------------------------

/// Whether a unit starts before another: the other is `After` it, or it is
/// `Before` the other.
pub open spec fn precedes(edges: Seq<EdgeView>, a: NameView, b: NameView) -> bool {
    edges.contains(EdgeView { from: b, kind: DepEdge::After, to: a }) || edges.contains(
        EdgeView { from: a, kind: DepEdge::Before, to: b },
    )
}

/// Which positions of a list of units start before which.
pub open spec fn relation(edges: Seq<EdgeView>, us: Seq<NameView>) -> Seq<Seq<bool>> {
    Seq::new(
        us.len(),
        |p: int| Seq::new(us.len(), |q: int| precedes(edges, us[p], us[q])),
    )
}

/// The names at a list of positions.
pub open spec fn names_at(us: Seq<NameView>, ps: Seq<int>) -> Seq<NameView> {
    ps.map_values(|p: int| us[p])
}

/// Units in start order, or the first of them that lies on a cycle.
pub open spec fn topo(edges: Seq<EdgeView>, us: Seq<NameView>) -> Result<Seq<NameView>, NameView> {
    let m = relation(edges, us);
    if start_order(m).len() == us.len() {
        Ok(names_at(us, start_order(m)))
    } else {
        Err(us[first_on_cycle(m, 0)])
    }
}

// ---------------------------------------------------------------------
// Facts about the queue
// ---------------------------------------------------------------------

proof fn lemma_initial(m: Seq<Seq<bool>>, k: int)
    requires
        0 <= k <= m.len(),
    ensures
        forall|i: int| 0 <= i < initial(m, k).len() ==> 0 <= #[trigger] initial(m, k)[i] < k,
        forall|i: int| 0 <= i < initial(m, k).len() ==> unblocked(m, #[trigger] initial(m, k)[i], seq![]),
        forall|q: int| 0 <= q < k && #[trigger] unblocked(m, q, seq![]) ==> initial(m, k).contains(q),
        initial(m, k).no_duplicates(),
    decreases k,
{
    if k > 0 {
        lemma_initial(m, k - 1);
        let a = initial(m, k - 1);
        let b = initial(m, k);
        assert forall|q: int| 0 <= q < k && #[trigger] unblocked(m, q, seq![]) implies b.contains(
            q,
        ) by {
            if q < k - 1 {
                let i = choose|i: int| 0 <= i < a.len() && a[i] == q;
                assert(b[i] == q);
            } else {
                assert(b.last() == q);
            }
        }
    }
}

proof fn lemma_released(m: Seq<Seq<bool>>, done: Seq<int>, k: int)
    requires
        0 <= k <= m.len(),
    ensures
        forall|i: int|
            0 <= i < released(m, done, k).len() ==> 0 <= #[trigger] released(m, done, k)[i] < k
                && m[done.last()][released(m, done, k)[i]] && unblocked(
                m,
                released(m, done, k)[i],
                done,
            ),
        forall|q: int|
            0 <= q < k && m[done.last()][q] && #[trigger] unblocked(m, q, done) ==> released(
                m,
                done,
                k,
            ).contains(q),
        released(m, done, k).no_duplicates(),
    decreases k,
{
    if k > 0 {
        lemma_released(m, done, k - 1);
        let a = released(m, done, k - 1);
        let b = released(m, done, k);
        assert forall|q: int| 0 <= q < k && m[done.last()][q] && #[trigger] unblocked(
            m,
            q,
            done,
        ) implies b.contains(q) by {
            if q < k - 1 {
                let i = choose|i: int| 0 <= i < a.len() && a[i] == q;
                assert(b[i] == q);
            } else {
                assert(b.last() == q);
            }
        }
    }
}

/// The positions that have left the queue after `h` steps.
spec fn left(m: Seq<Seq<bool>>, h: nat) -> Seq<int> {
    if h <= queue(m, h).len() {
        queue(m, h).take(h as int)
    } else {
        queue(m, h)
    }
}

/// What holds of a queue after some steps.
spec fn sound_queue(m: Seq<Seq<bool>>, q: Seq<int>, done: Seq<int>) -> bool {
    &&& q.no_duplicates()
    &&& forall|i: int| 0 <= i < q.len() ==> 0 <= #[trigger] q[i] < m.len()
    &&& forall|x: int| 0 <= x < m.len() ==> #[trigger] q.contains(x) == unblocked(m, x, done)
    &&& forall|i: int| 0 <= i < q.len() ==> unblocked(m, #[trigger] q[i], q.take(i))
}

proof fn lemma_unblocked_more(m: Seq<Seq<bool>>, x: int, a: Seq<int>, b: Seq<int>)
    requires
        unblocked(m, x, a),
        forall|p: int| #[trigger] a.contains(p) ==> b.contains(p),
    ensures
        unblocked(m, x, b),
{
}

proof fn lemma_take_contains(q: Seq<int>, i: int, j: int, x: int)
    requires
        0 <= i <= j <= q.len(),
        q.take(i).contains(x),
    ensures
        q.take(j).contains(x),
{
    let k = choose|k: int| 0 <= k < q.take(i).len() && q.take(i)[k] == x;
    assert(q.take(j)[k] == x);
}

proof fn lemma_queue_step(m: Seq<Seq<bool>>, q: Seq<int>, h: nat)
    requires
        0 < h <= q.len(),
        sound_queue(m, q, q.take(h - 1)),
    ensures
        sound_queue(
            m,
            q + released(m, q.take(h as int), m.len() as int),
            (q + released(m, q.take(h as int), m.len() as int)).take(h as int),
        ),
{
    let d0 = q.take(h - 1);
    let d1 = q.take(h as int);
    let last = q[h - 1];
    let add = released(m, d1, m.len() as int);
    let r = q + add;
    lemma_released(m, d1, m.len() as int);
    assert(d1.last() == last);
    assert(r.take(h as int) =~= d1);
    assert(!d0.contains(last)) by {
        if d0.contains(last) {
            let k = choose|k: int| 0 <= k < d0.len() && d0[k] == last;
            assert(q[k] == q[h - 1]);
        }
    }
    // A released position was blocked until now, so it is new.
    assert forall|i: int| 0 <= i < add.len() implies !q.contains(#[trigger] add[i]) by {
        if q.contains(add[i]) {
            assert(unblocked(m, add[i], d0));
            assert(m[last][add[i]]);
            assert(d0.contains(last));
        }
    }
    assert(r.no_duplicates()) by {
        assert forall|i: int, j: int| 0 <= i < r.len() && 0 <= j < r.len() && i != j implies r[i]
            != r[j] by {
            if i < q.len() && j >= q.len() {
                assert(!q.contains(add[j - q.len()]));
                assert(q[i] == r[i]);
            } else if j < q.len() && i >= q.len() {
                assert(!q.contains(add[i - q.len()]));
                assert(q[j] == r[j]);
            }
        }
    }
    assert forall|x: int| 0 <= x < m.len() implies #[trigger] r.contains(x) == unblocked(
        m,
        x,
        d1,
    ) by {
        if q.contains(x) {
            let k = choose|k: int| 0 <= k < q.len() && q[k] == x;
            assert(r[k] == x);
            assert forall|p: int| #[trigger] d0.contains(p) implies d1.contains(p) by {
                lemma_take_contains(q, h - 1, h as int, p);
            }
            lemma_unblocked_more(m, x, d0, d1);
        } else if unblocked(m, x, d1) {
            assert(!unblocked(m, x, d0));
            let p = choose|p: int|
                0 <= p < m.len() && (#[trigger] m[p])[x] && !d0.contains(p);
            assert(d1.contains(p));
            let k = choose|k: int| 0 <= k < d1.len() && d1[k] == p;
            if k < h - 1 {
                assert(d0[k] == p);
            }
            assert(p == last);
            assert(add.contains(x));
            let i = choose|i: int| 0 <= i < add.len() && add[i] == x;
            assert(r[q.len() + i] == x);
        } else {
            if r.contains(x) {
                let k = choose|k: int| 0 <= k < r.len() && r[k] == x;
                if k < q.len() {
                    assert(q[k] == x);
                } else {
                    assert(add[k - q.len()] == x);
                }
            }
        }
    }
    assert forall|i: int| 0 <= i < r.len() implies unblocked(m, #[trigger] r[i], r.take(i)) by {
        if i < q.len() {
            assert(r.take(i) =~= q.take(i));
            assert(r[i] == q[i]);
        } else {
            assert(r[i] == add[i - q.len()]);
            assert forall|p: int| #[trigger] d1.contains(p) implies r.take(i).contains(p) by {
                assert(r.take(h as int).contains(p));
                lemma_take_contains(r, h as int, i, p);
            }
            lemma_unblocked_more(m, r[i], d1, r.take(i));
        }
    }
    assert forall|i: int| 0 <= i < r.len() implies 0 <= #[trigger] r[i] < m.len() by {
        if i >= q.len() {
            assert(r[i] == add[i - q.len()]);
        }
    }
}

proof fn lemma_queue(m: Seq<Seq<bool>>, h: nat)
    ensures
        sound_queue(m, queue(m, h), left(m, h)),
    decreases h,
{
    if h == 0 {
        lemma_initial(m, m.len() as int);
        let q = queue(m, 0);
        assert(left(m, 0) =~= seq![]);
        assert forall|x: int| 0 <= x < m.len() implies #[trigger] q.contains(x) == unblocked(
            m,
            x,
            left(m, 0),
        ) by {
            if q.contains(x) {
                let k = choose|k: int| 0 <= k < q.len() && q[k] == x;
                assert(unblocked(m, q[k], seq![]));
            }
        }
        assert forall|i: int| 0 <= i < q.len() implies unblocked(m, #[trigger] q[i], q.take(i)) by {
            lemma_unblocked_more(m, q[i], seq![], q.take(i));
        }
    } else {
        let q = queue(m, (h - 1) as nat);
        lemma_queue(m, (h - 1) as nat);
        if h <= q.len() {
            assert(left(m, (h - 1) as nat) =~= q.take(h - 1));
            lemma_queue_step(m, q, h);
        } else {
            assert(left(m, h) =~= q);
            assert(left(m, (h - 1) as nat) =~= q);
        }
    }
}

/// Distinct positions of a list are no more than its length.
proof fn lemma_distinct_bounded(q: Seq<int>, n: nat)
    requires
        q.no_duplicates(),
        forall|i: int| 0 <= i < q.len() ==> 0 <= #[trigger] q[i] < n,
    ensures
        q.len() <= n,
{
    q.unique_seq_to_set();
    vstd::set_lib::lemma_int_range(0, n as int);
    assert(q.to_set().subset_of(vstd::set_lib::set_int_range(0, n as int)));
    vstd::set_lib::lemma_len_subset(q.to_set(), vstd::set_lib::set_int_range(0, n as int));
}

/// What holds of the start order.
proof fn lemma_start_order(m: Seq<Seq<bool>>)
    ensures
        sound_queue(m, start_order(m), start_order(m)),
        start_order(m).len() <= m.len(),
{
    lemma_queue(m, m.len());
    let q = start_order(m);
    lemma_distinct_bounded(q, m.len());
    assert(left(m, m.len()) =~= q);
}

/// Along a walk that ends at place `i` of the start order, every position comes
/// before that place.
proof fn lemma_walk_back(m: Seq<Seq<bool>>, s: Seq<int>, k: int, i: int)
    requires
        is_path(m, s),
        0 <= k < s.len() - 1,
        0 <= i < start_order(m).len(),
        s.last() == start_order(m)[i],
    ensures
        start_order(m).take(i).contains(s[k]),
    decreases s.len() - k,
{
    lemma_start_order(m);
    let q = start_order(m);
    assert(m[s[k]][s[k + 1]]);
    if k + 1 == s.len() - 1 {
        assert(unblocked(m, q[i], q.take(i)));
    } else {
        lemma_walk_back(m, s, k + 1, i);
        let j = choose|j: int| 0 <= j < q.take(i).len() && q.take(i)[j] == s[k + 1];
        assert(q[j] == s[k + 1]);
        assert(unblocked(m, q[j], q.take(j)));
        assert(q.take(j).contains(s[k]));
        lemma_take_contains(q, j, i, s[k]);
    }
}

/// A position on a cycle has no place in the start order.
proof fn lemma_cycle_left_out(m: Seq<Seq<bool>>, x: int)
    requires
        on_cycle(m, x),
    ensures
        !start_order(m).contains(x),
{
    let q = start_order(m);
    lemma_start_order(m);
    if q.contains(x) {
        let i = choose|i: int| 0 <= i < q.len() && q[i] == x;
        let s = choose|s: Seq<int>| #[trigger] is_path(m, s) && s[0] == x && s.last() == x;
        lemma_walk_back(m, s, 0, i);
        let j = choose|j: int| 0 <= j < q.take(i).len() && q.take(i)[j] == x;
        assert(q[j] == q[i]);
    }
}

/// A walk of `k` steps back from a blocked position, through blocked ones.
spec fn back(m: Seq<Seq<bool>>, x: int, k: nat) -> int
    decreases k,
{
    if k == 0 {
        x
    } else {
        blocker(m, back(m, x, (k - 1) as nat))
    }
}

/// A blocked position that a blocked position waits for.
spec fn blocker(m: Seq<Seq<bool>>, x: int) -> int {
    choose|p: int| 0 <= p < m.len() && (#[trigger] m[p])[x] && !start_order(m).contains(p)
}

proof fn lemma_back(m: Seq<Seq<bool>>, x: int, k: nat)
    requires
        0 <= x < m.len(),
        !start_order(m).contains(x),
    ensures
        0 <= back(m, x, k) < m.len(),
        !start_order(m).contains(back(m, x, k)),
        m[back(m, x, k + 1)][back(m, x, k)],
    decreases k,
{
    lemma_start_order(m);
    if k > 0 {
        lemma_back(m, x, (k - 1) as nat);
        let y = back(m, x, (k - 1) as nat);
        assert(!unblocked(m, y, start_order(m)));
    }
    let z = back(m, x, k);
    assert(!unblocked(m, z, start_order(m)));
    assert(back(m, x, k + 1) == blocker(m, z));
}

/// Where a position has no place in the start order, some position lies on a
/// cycle.
proof fn lemma_cycle_exists(m: Seq<Seq<bool>>, x: int)
    requires
        0 <= x < m.len(),
        !start_order(m).contains(x),
    ensures
        exists|q: int| 0 <= q < m.len() && #[trigger] on_cycle(m, q),
{
    let n = m.len();
    let w = Seq::new(n + 1, |k: int| back(m, x, k as nat));
    assert forall|i: int| 0 <= i < w.len() implies 0 <= #[trigger] w[i] < n by {
        lemma_back(m, x, i as nat);
    }
    if w.no_duplicates() {
        lemma_distinct_bounded(w, n);
        assert(false);
    }
    let (i, j) = choose|i: int, j: int|
        0 <= i < w.len() && 0 <= j < w.len() && i != j && #[trigger] w[i] == #[trigger] w[j];
    let a = if i < j {
        i
    } else {
        j
    };
    let b = if i < j {
        j
    } else {
        i
    };
    let s = Seq::new((b - a + 1) as nat, |t: int| w[b - t]);
    assert(s[0] == w[b]);
    assert(s.last() == w[a]);
    assert forall|t: int| 0 <= t < s.len() - 1 implies m[#[trigger] s[t]][s[t + 1]] by {
        lemma_back(m, x, (b - t - 1) as nat);
        assert(s[t] == back(m, x, (b - t) as nat));
        assert(s[t + 1] == back(m, x, (b - t - 1) as nat));
    }
    assert forall|t: int| 0 <= t < s.len() implies 0 <= #[trigger] s[t] < m.len() by {
        assert(s[t] == w[b - t]);
    }
    assert(is_path(m, s));
    assert(on_cycle(m, w[a]));
}

proof fn lemma_first_on_cycle(m: Seq<Seq<bool>>, k: int, q: int)
    requires
        0 <= k <= q < m.len(),
        on_cycle(m, q),
    ensures
        k <= first_on_cycle(m, k) <= q,
        on_cycle(m, first_on_cycle(m, k)),
    decreases q - k,
{
    if !on_cycle(m, k) {
        lemma_first_on_cycle(m, k + 1, q);
    }
}

proof fn lemma_first_from(m: Seq<Seq<bool>>, k: int)
    ensures
        first_on_cycle(m, k) >= k,
    decreases m.len() - k,
{
    if k < m.len() && !on_cycle(m, k) {
        lemma_first_from(m, k + 1);
    }
}

/// A start order with a place for every position exists just if no position
/// lies on a cycle.
proof fn lemma_complete_iff_acyclic(m: Seq<Seq<bool>>)
    ensures
        start_order(m).len() == m.len() <==> forall|q: int|
            0 <= q < m.len() ==> !(#[trigger] on_cycle(m, q)),
        start_order(m).len() < m.len() ==> 0 <= first_on_cycle(m, 0) < m.len() && on_cycle(
            m,
            first_on_cycle(m, 0),
        ),
{
    lemma_start_order(m);
    let o = start_order(m);
    if o.len() < m.len() {
        if forall|x: int| 0 <= x < m.len() ==> #[trigger] o.contains(x) {
            o.unique_seq_to_set();
            vstd::set_lib::lemma_int_range(0, m.len() as int);
            let all = vstd::set_lib::set_int_range(0, m.len() as int);
            assert forall|x: int| #[trigger] all.contains(x) implies o.to_set().contains(x) by {
                assert(o.contains(x));
            }
            vstd::set_lib::lemma_len_subset(all, o.to_set());
            assert(false);
        }
        let x = choose|x: int| 0 <= x < m.len() && !(#[trigger] o.contains(x));
        lemma_cycle_exists(m, x);
        let q = choose|q: int| 0 <= q < m.len() && #[trigger] on_cycle(m, q);
        lemma_first_on_cycle(m, 0, q);
    } else {
        assert forall|q: int| 0 <= q < m.len() implies !(#[trigger] on_cycle(m, q)) by {
            if on_cycle(m, q) {
                lemma_cycle_left_out(m, q);
                lemma_full_order_has_all(m, q);
            }
        }
    }
}

/// A start order of full length has a place for every position.
proof fn lemma_full_order_has_all(m: Seq<Seq<bool>>, x: int)
    requires
        start_order(m).len() == m.len(),
        0 <= x < m.len(),
    ensures
        start_order(m).contains(x),
{
    lemma_start_order(m);
    let o = start_order(m);
    o.unique_seq_to_set();
    vstd::set_lib::lemma_int_range(0, m.len() as int);
    let all = vstd::set_lib::set_int_range(0, m.len() as int);
    assert(o.to_set().subset_of(all));
    vstd::set_lib::lemma_subset_equality(o.to_set(), all);
    assert(o.to_set().contains(x));
}

// ---------------------------------------------------------------------
// Laws
// ---------------------------------------------------------------------

/// A list of units can be put in start order just if none of them lies on a
/// cycle of `After=` and `Before=`; the name that is given back otherwise lies
/// on one.
pub proof fn order_exists_just_without_cycle(edges: Seq<EdgeView>, us: Seq<NameView>)
    ensures
        topo(edges, us) is Ok <==> forall|q: int|
            0 <= q < us.len() ==> !(#[trigger] on_cycle(relation(edges, us), q)),
        topo(edges, us) is Err ==> exists|q: int|
            0 <= q < us.len() && us[q] == topo(edges, us)->Err_0 && #[trigger] on_cycle(
                relation(edges, us),
                q,
            ),
{
    let m = relation(edges, us);
    lemma_complete_iff_acyclic(m);
    lemma_start_order(m);
    if topo(edges, us) is Err {
        assert(on_cycle(m, first_on_cycle(m, 0)));
    }
}

/// The units in start order are the units of the list, each as often as there.
pub proof fn order_keeps_the_units(edges: Seq<EdgeView>, us: Seq<NameView>)
    requires
        topo(edges, us) is Ok,
    ensures
        topo(edges, us)->Ok_0.len() == us.len(),
        forall|n: NameView| #[trigger] topo(edges, us)->Ok_0.contains(n) == us.contains(n),
        us.no_duplicates() ==> topo(edges, us)->Ok_0.no_duplicates(),
{
    let m = relation(edges, us);
    let o = start_order(m);
    let out = topo(edges, us)->Ok_0;
    lemma_start_order(m);
    assert forall|n: NameView| #[trigger] out.contains(n) == us.contains(n) by {
        if out.contains(n) {
            let k = choose|k: int| 0 <= k < out.len() && out[k] == n;
            assert(us[o[k]] == n);
        }
        if us.contains(n) {
            let x = choose|x: int| 0 <= x < us.len() && us[x] == n;
            lemma_full_order_has_all(m, x);
            let k = choose|k: int| 0 <= k < o.len() && o[k] == x;
            assert(out[k] == n);
        }
    }
    if us.no_duplicates() {
        assert forall|i: int, j: int| 0 <= i < out.len() && 0 <= j < out.len() && i
            != j implies out[i] != out[j] by {
            assert(o[i] != o[j]);
            assert(us[o[i]] != us[o[j]]);
        }
    }
}

/// In start order, a unit comes behind every unit of the list that starts
/// before it.
pub proof fn order_respects_edges(edges: Seq<EdgeView>, us: Seq<NameView>, i: int, n: NameView)
    requires
        topo(edges, us) is Ok,
        0 <= i < us.len(),
        us.contains(n),
        precedes(edges, n, topo(edges, us)->Ok_0[i]),
    ensures
        exists|j: int| 0 <= j < i && #[trigger] topo(edges, us)->Ok_0[j] == n,
{
    let m = relation(edges, us);
    let o = start_order(m);
    let out = topo(edges, us)->Ok_0;
    lemma_start_order(m);
    let x = choose|x: int| 0 <= x < us.len() && us[x] == n;
    assert(unblocked(m, o[i], o.take(i)));
    assert(m[x][o[i]]);
    let j = choose|j: int| 0 <= j < o.take(i).len() && o.take(i)[j] == x;
    assert(out[j] == n);
}

/// A unit that is `Before=` another starts first, and a unit that is `After=`
/// another starts second: in start order each edge of the graph between units of
/// the list points the way it says.
pub proof fn before_and_after_hold(edges: Seq<EdgeView>, us: Seq<NameView>)
    requires
        topo(edges, us) is Ok,
        us.no_duplicates(),
    ensures
        forall|e: EdgeView, i: int, j: int|
            #![trigger edges.contains(e), topo(edges, us)->Ok_0[i], topo(edges, us)->Ok_0[j]]
            edges.contains(e) && e.kind is Before && 0 <= i < us.len() && 0 <= j < us.len()
                && topo(edges, us)->Ok_0[i] == e.from && topo(edges, us)->Ok_0[j] == e.to ==> i < j,
        forall|e: EdgeView, i: int, j: int|
            #![trigger edges.contains(e), topo(edges, us)->Ok_0[i], topo(edges, us)->Ok_0[j]]
            edges.contains(e) && e.kind is After && 0 <= i < us.len() && 0 <= j < us.len()
                && topo(edges, us)->Ok_0[i] == e.from && topo(edges, us)->Ok_0[j] == e.to ==> j < i,
{
    let out = topo(edges, us)->Ok_0;
    order_keeps_the_units(edges, us);
    assert forall|e: EdgeView, i: int, j: int|
        #![trigger edges.contains(e), out[i], out[j]]
        edges.contains(e) && e.kind is Before && 0 <= i < us.len() && 0 <= j < us.len() && out[i]
            == e.from && out[j] == e.to implies i < j by {
        assert(e == EdgeView { from: e.from, kind: DepEdge::Before, to: e.to });
        assert(out.contains(out[i]));
        order_respects_edges(edges, us, j, e.from);
        let k = choose|k: int| 0 <= k < j && #[trigger] out[k] == e.from;
        assert(k == i);
    }
    assert forall|e: EdgeView, i: int, j: int|
        #![trigger edges.contains(e), out[i], out[j]]
        edges.contains(e) && e.kind is After && 0 <= i < us.len() && 0 <= j < us.len() && out[i]
            == e.from && out[j] == e.to implies j < i by {
        assert(e == EdgeView { from: e.from, kind: DepEdge::After, to: e.to });
        assert(out.contains(out[j]));
        order_respects_edges(edges, us, i, e.to);
        let k = choose|k: int| 0 <= k < i && #[trigger] out[k] == e.to;
        assert(k == j);
    }
}

/// Whether the graph says of two units that the first starts first.
pub open spec fn told_first(edges: Seq<EdgeView>, a: NameView, b: NameView) -> bool {
    exists|e: EdgeView| #[trigger]
        edges.contains(e) && ((e.kind is Before && e.from == a && e.to == b) || (e.kind is After
            && e.from == b && e.to == a))
}

/// A walk round a cycle of units of a list, each of which is to start before the
/// next, and the last of which is the first.
pub open spec fn is_order_cycle(edges: Seq<EdgeView>, us: Seq<NameView>, s: Seq<NameView>) -> bool {
    &&& s.len() >= 2
    &&& s[0] == s.last()
    &&& forall|i: int| 0 <= i < s.len() ==> us.contains(#[trigger] s[i])
    &&& forall|i: int| 0 <= i < s.len() - 1 ==> told_first(edges, #[trigger] s[i], s[i + 1])
}

proof fn lemma_told_first(edges: Seq<EdgeView>, a: NameView, b: NameView)
    ensures
        told_first(edges, a, b) == precedes(edges, a, b),
{
    if told_first(edges, a, b) {
        let e = choose|e: EdgeView| #[trigger]
            edges.contains(e) && ((e.kind is Before && e.from == a && e.to == b) || (e.kind
                is After && e.from == b && e.to == a));
        assert(e == EdgeView { from: a, kind: DepEdge::Before, to: b } || e == EdgeView {
            from: b,
            kind: DepEdge::After,
            to: a,
        });
    }
}

/// The order fails just where the `After=` and `Before=` edges among the units
/// go round in a circle, and the unit that is named lies on one.
pub proof fn failure_names_a_cycle(edges: Seq<EdgeView>, us: Seq<NameView>)
    ensures
        topo(edges, us) is Err <==> exists|s: Seq<NameView>| #[trigger]
            is_order_cycle(edges, us, s),
        topo(edges, us) is Err ==> exists|s: Seq<NameView>| #[trigger]
            is_order_cycle(edges, us, s) && s[0] == topo(edges, us)->Err_0,
{
    let m = relation(edges, us);
    order_exists_just_without_cycle(edges, us);
    if topo(edges, us) is Err {
        let q = choose|q: int|
            0 <= q < us.len() && us[q] == topo(edges, us)->Err_0 && #[trigger] on_cycle(m, q);
        let p = choose|p: Seq<int>| #[trigger] is_path(m, p) && p[0] == q && p.last() == q;
        let s = names_at(us, p);
        assert forall|i: int| 0 <= i < s.len() - 1 implies told_first(
            edges,
            #[trigger] s[i],
            s[i + 1],
        ) by {
            assert(m[p[i]][p[i + 1]]);
            assert(0 <= p[i] < m.len() && 0 <= p[i + 1] < m.len());
            lemma_told_first(edges, s[i], s[i + 1]);
        }
        assert forall|i: int| 0 <= i < s.len() implies us.contains(#[trigger] s[i]) by {
            assert(s[i] == us[p[i]]);
        }
        assert(is_order_cycle(edges, us, s));
    }
    if exists|s: Seq<NameView>| #[trigger] is_order_cycle(edges, us, s) {
        let s = choose|s: Seq<NameView>| #[trigger] is_order_cycle(edges, us, s);
        let p = Seq::new(s.len(), |i: int| us.index_of(s[i]));
        assert forall|i: int| 0 <= i < p.len() implies 0 <= #[trigger] p[i] < m.len() && us[p[i]]
            == s[i] by {
            assert(us.contains(s[i]));
        }
        assert forall|i: int| 0 <= i < p.len() - 1 implies m[#[trigger] p[i]][p[i + 1]] by {
            assert(told_first(edges, s[i], s[i + 1]));
            lemma_told_first(edges, s[i], s[i + 1]);
            assert(us[p[i]] == s[i] && us[p[i + 1]] == s[i + 1]);
        }
        assert(is_path(m, p));
        assert(on_cycle(m, p[0]));
    }
}

proof fn lemma_free_initial(m: Seq<Seq<bool>>, k: int)
    requires
        0 <= k <= m.len(),
        forall|p: int, q: int| 0 <= p < m.len() && 0 <= q < m.len() ==> !(#[trigger] m[p][q]),
    ensures
        initial(m, k) == Seq::new(k as nat, |i: int| i),
    decreases k,
{
    if k > 0 {
        lemma_free_initial(m, k - 1);
        assert(unblocked(m, k - 1, seq![]));
        assert(initial(m, k) =~= Seq::new(k as nat, |i: int| i));
    } else {
        assert(initial(m, k) =~= Seq::new(0, |i: int| i));
    }
}

proof fn lemma_free_released(m: Seq<Seq<bool>>, done: Seq<int>, k: int)
    requires
        0 <= k <= m.len(),
        done.len() > 0,
        0 <= done.last() < m.len(),
        forall|p: int, q: int| 0 <= p < m.len() && 0 <= q < m.len() ==> !(#[trigger] m[p][q]),
    ensures
        released(m, done, k) == Seq::<int>::empty(),
    decreases k,
{
    if k > 0 {
        lemma_free_released(m, done, k - 1);
        assert(!m[done.last()][k - 1]);
    }
}

proof fn lemma_free_queue(m: Seq<Seq<bool>>, h: nat)
    requires
        forall|p: int, q: int| 0 <= p < m.len() && 0 <= q < m.len() ==> !(#[trigger] m[p][q]),
    ensures
        queue(m, h) == Seq::new(m.len(), |i: int| i),
    decreases h,
{
    if h == 0 {
        lemma_free_initial(m, m.len() as int);
    } else {
        lemma_free_queue(m, (h - 1) as nat);
        let q = queue(m, (h - 1) as nat);
        if h <= q.len() {
            lemma_free_released(m, q.take(h as int), m.len() as int);
            assert(queue(m, h) =~= q);
        }
    }
}

/// Units of which the graph says nothing about who starts first keep the order
/// of the list.
pub proof fn free_units_keep_their_order(edges: Seq<EdgeView>, us: Seq<NameView>)
    requires
        forall|e: EdgeView| #[trigger]
            edges.contains(e) && us.contains(e.from) && us.contains(e.to) ==> !(e.kind is Before)
                && !(e.kind is After),
    ensures
        topo(edges, us) == Ok::<Seq<NameView>, NameView>(us),
{
    let m = relation(edges, us);
    assert forall|p: int, q: int| 0 <= p < m.len() && 0 <= q < m.len() implies !(
    #[trigger] m[p][q]) by {
        assert(us.contains(us[p]) && us.contains(us[q]));
    }
    lemma_free_queue(m, m.len());
    assert(names_at(us, start_order(m)) =~= us);
}

// ---------------------------------------------------------------------
// Sorting
// ---------------------------------------------------------------------

/// The rows of a relation.
spec fn rows_view(v: Seq<Vec<bool>>) -> Seq<Seq<bool>> {
    v.map_values(|r: Vec<bool>| r@)
}

/// A list of positions.
spec fn ints(v: Seq<usize>) -> Seq<int> {
    v.map_values(|x: usize| x as int)
}

fn has_end(v: &Vec<(DepEdge, UnitName)>, kind: DepEdge, n: &UnitName) -> (r: bool)
    ensures
        r == graph::ends_view(v@).contains((kind, n@)),
{
    let ghost s = graph::ends_view(v@);
    let mut i: usize = 0;
    while i < v.len()
        invariant
            i <= v.len(),
            s == graph::ends_view(v@),
            forall|k: int| 0 <= k < i ==> s[k] != (kind, n@),
        decreases v.len() - i,
    {
        if v[i].0 == kind && v[i].1.same_as(n) {
            proof {
                assert(s[i as int] == (kind, n@));
            }
            return true;
        }
        i = i + 1;
    }
    false
}

/// Which positions of a list of units start before which.
fn relation_of(g: &DepGraph, us: &Vec<UnitName>) -> (r: Vec<Vec<bool>>)
    ensures
        rows_view(r@) == relation(g@.edges, name_set::names_view(us@)),
{
    let ghost names = name_set::names_view(us@);
    let ghost m = relation(g@.edges, names);
    let mut outs: Vec<Vec<(DepEdge, UnitName)>> = Vec::new();
    let mut i: usize = 0;
    while i < us.len()
        invariant
            i <= us.len(),
            names == name_set::names_view(us@),
            outs@.len() == i,
            forall|k: int|
                0 <= k < i ==> graph::ends_view((#[trigger] outs@[k])@) == graph::targets(
                    g@.edges,
                    names[k],
                ),
        decreases us.len() - i,
    {
        outs.push(g.outgoing(&us[i]));
        i = i + 1;
    }
    let mut rows: Vec<Vec<bool>> = Vec::new();
    let mut p: usize = 0;
    while p < us.len()
        invariant
            p <= us.len(),
            names == name_set::names_view(us@),
            m == relation(g@.edges, names),
            outs@.len() == us.len(),
            forall|k: int|
                0 <= k < us.len() ==> graph::ends_view((#[trigger] outs@[k])@) == graph::targets(
                    g@.edges,
                    names[k],
                ),
            rows@.len() == p,
            forall|k: int| 0 <= k < p ==> (#[trigger] rows@[k])@ == m[k],
        decreases us.len() - p,
    {
        let mut row: Vec<bool> = Vec::new();
        let mut q: usize = 0;
        while q < us.len()
            invariant
                p < us.len(),
                q <= us.len(),
                names == name_set::names_view(us@),
                m == relation(g@.edges, names),
                outs@.len() == us.len(),
                forall|k: int|
                    0 <= k < us.len() ==> graph::ends_view((#[trigger] outs@[k])@)
                        == graph::targets(g@.edges, names[k]),
                row@.len() == q,
                forall|k: int| 0 <= k < q ==> row@[k] == m[p as int][k],
            decreases us.len() - q,
        {
            proof {
                let a = names[p as int];
                let b = names[q as int];
                graph::forward_and_reverse_agree(
                    g@.edges,
                    EdgeView { from: b, kind: DepEdge::After, to: a },
                );
                graph::forward_and_reverse_agree(
                    g@.edges,
                    EdgeView { from: a, kind: DepEdge::Before, to: b },
                );
                assert(graph::ends_view(outs@[p as int]@) == graph::targets(g@.edges, a));
                assert(graph::ends_view(outs@[q as int]@) == graph::targets(g@.edges, b));
            }
            let b = has_end(&outs[q], DepEdge::After, &us[p]) || has_end(
                &outs[p],
                DepEdge::Before,
                &us[q],
            );
            row.push(b);
            q = q + 1;
        }
        proof {
            assert(row@ =~= m[p as int]);
        }
        rows.push(row);
        p = p + 1;
    }
    proof {
        assert(rows_view(rows@) =~= m);
    }
    rows
}

fn is_unblocked(rows: &Vec<Vec<bool>>, q: usize, done: &Vec<bool>, Ghost(d): Ghost<Seq<int>>) -> (r:
    bool)
    requires
        is_relation(rows_view(rows@)),
        q < rows@.len(),
        done@.len() == rows@.len(),
        forall|p: int| 0 <= p < rows@.len() ==> #[trigger] done@[p] == d.contains(p),
    ensures
        r == unblocked(rows_view(rows@), q as int, d),
{
    let ghost m = rows_view(rows@);
    let mut p: usize = 0;
    while p < rows.len()
        invariant
            p <= rows.len(),
            m == rows_view(rows@),
            is_relation(m),
            q < rows@.len(),
            done@.len() == rows@.len(),
            forall|k: int| 0 <= k < rows@.len() ==> #[trigger] done@[k] == d.contains(k),
            forall|k: int| 0 <= k < p && (#[trigger] m[k])[q as int] ==> d.contains(k),
        decreases rows.len() - p,
    {
        proof {
            assert(m[p as int].len() == m.len());
            assert(m[p as int] == rows@[p as int]@);
        }
        if rows[p][q] && !done[p] {
            proof {
                assert(m[p as int][q as int] && !d.contains(p as int));
            }
            return false;
        }
        p = p + 1;
    }
    true
}


/// Once every position in the queue has left it, the queue stays as it is.
proof fn lemma_queue_rests(m: Seq<Seq<bool>>, h: nat, k: nat)
    requires
        queue(m, h).len() <= h <= k,
    ensures
        queue(m, k) == queue(m, h),
    decreases k - h,
{
    if h < k {
        lemma_queue_rests(m, h, (k - 1) as nat);
    }
}

proof fn lemma_queue_bounded(m: Seq<Seq<bool>>, h: nat)
    ensures
        queue(m, h).len() <= m.len(),
        forall|i: int| 0 <= i < queue(m, h).len() ==> 0 <= #[trigger] queue(m, h)[i] < m.len(),
{
    lemma_queue(m, h);
    lemma_distinct_bounded(queue(m, h), m.len());
}

/// The positions in start order.
fn queue_of(rows: &Vec<Vec<bool>>) -> (r: Vec<usize>)
    requires
        is_relation(rows_view(rows@)),
    ensures
        ints(r@) == start_order(rows_view(rows@)),
{
    let ghost m = rows_view(rows@);
    let n = rows.len();
    let mut done: Vec<bool> = Vec::new();
    let mut i: usize = 0;
    while i < n
        invariant
            i <= n,
            done@.len() == i,
            forall|p: int| 0 <= p < i ==> !(#[trigger] done@[p]),
        decreases n - i,
    {
        done.push(false);
        i = i + 1;
    }
    let mut q: Vec<usize> = Vec::new();
    let mut k: usize = 0;
    proof {
        assert(ints(q@) =~= seq![]);
    }
    while k < n
        invariant
            k <= n,
            n == rows@.len(),
            m == rows_view(rows@),
            is_relation(m),
            done@.len() == n,
            forall|p: int| 0 <= p < n ==> !(#[trigger] done@[p]),
            ints(q@) == initial(m, k as int),
        decreases n - k,
    {
        if is_unblocked(rows, k, &done, Ghost(Seq::<int>::empty())) {
            let ghost before = q@;
            q.push(k);
            proof {
                assert(ints(q@) =~= ints(before).push(k as int));
            }
        }
        k = k + 1;
    }
    let mut h: usize = 0;
    proof {
        assert(ints(q@).take(0) =~= seq![]);
        lemma_queue_bounded(m, 0);
    }
    while h < q.len()
        invariant
            h <= q@.len() <= n,
            n == rows@.len(),
            m == rows_view(rows@),
            is_relation(m),
            done@.len() == n,
            ints(q@) == queue(m, h as nat),
            forall|p: int| 0 <= p < n ==> #[trigger] done@[p] == ints(q@).take(h as int).contains(p),
        decreases n - h,
    {
        let ghost base = ints(q@);
        let ghost d1 = base.take(h + 1);
        let p = q[h];
        proof {
            lemma_queue_bounded(m, h as nat);
            assert(base[h as int] == p as int);
            assert(m[p as int].len() == m.len());
        }
        done.set(p, true);
        proof {
            assert(d1 =~= base.take(h as int).push(p as int));
            assert(d1.last() == p as int);
            assert forall|x: int| 0 <= x < n implies #[trigger] done@[x] == d1.contains(x) by {
                if base.take(h as int).contains(x) {
                    lemma_take_contains(base, h as int, h + 1, x);
                }
                if x == p {
                    assert(d1[h as int] == x);
                }
                if d1.contains(x) && x != p {
                    let t = choose|t: int| 0 <= t < d1.len() && d1[t] == x;
                    assert(base.take(h as int)[t] == x);
                }
            }
        }
        let mut k: usize = 0;
        proof {
            assert(base + released(m, d1, 0) =~= base);
        }
        while k < n
            invariant
                k <= n,
                p < n,
                n == rows@.len(),
                m == rows_view(rows@),
                is_relation(m),
                done@.len() == n,
                d1.len() > 0,
                d1.last() == p,
                forall|x: int| 0 <= x < n ==> #[trigger] done@[x] == d1.contains(x),
                ints(q@) == base + released(m, d1, k as int),
            decreases n - k,
        {
            proof {
                assert(m[p as int].len() == m.len());
                assert(m[p as int] == rows@[p as int]@);
            }
            if rows[p][k] && is_unblocked(rows, k, &done, Ghost(d1)) {
                let ghost before = q@;
                q.push(k);
                proof {
                    assert(ints(q@) =~= ints(before).push(k as int));
                    assert(ints(q@) =~= base + released(m, d1, k + 1));
                }
            }
            k = k + 1;
        }
        h = h + 1;
        proof {
            assert(ints(q@) == queue(m, h as nat));
            lemma_queue_bounded(m, h as nat);
            assert(ints(q@).take(h as int) =~= d1);
        }
    }
    proof {
        lemma_queue_rests(m, h as nat, m.len());
    }
    q
}

/// How many positions are not marked.
spec fn unseen(s: Seq<bool>) -> nat
    decreases s.len(),
{
    if s.len() == 0 {
        0
    } else {
        unseen(s.drop_last()) + if s.last() {
            0nat
        } else {
            1nat
        }
    }
}

proof fn lemma_mark(s: Seq<bool>, q: int)
    requires
        0 <= q < s.len(),
        !s[q],
    ensures
        unseen(s.update(q, true)) + 1 == unseen(s),
    decreases s.len(),
{
    let t = s.update(q, true);
    if q == s.len() - 1 {
        assert(t.drop_last() =~= s.drop_last());
    } else {
        assert(t.drop_last() =~= s.drop_last().update(q, true));
        lemma_mark(s.drop_last(), q);
    }
}

/// Marks what a position leads to, and puts what is new on the stack.
fn mark_next(rows: &Vec<Vec<bool>>, u: usize, seen: &mut Vec<bool>, stack: &mut Vec<usize>)
    requires
        is_relation(rows_view(rows@)),
        u < rows@.len(),
        old(seen)@.len() == rows@.len(),
        forall|i: int|
            0 <= i < old(stack)@.len() ==> (#[trigger] old(stack)@[i]) < rows@.len()
                && old(seen)@[old(stack)@[i] as int],
    ensures
        final(seen)@.len() == rows@.len(),
        forall|q: int|
            0 <= q < rows@.len() ==> #[trigger] final(seen)@[q] == (old(seen)@[q] || rows_view(
                rows@,
            )[u as int][q]),
        forall|i: int|
            0 <= i < final(stack)@.len() ==> (#[trigger] final(stack)@[i]) < rows@.len()
                && final(seen)@[final(stack)@[i] as int],
        forall|x: usize| #[trigger] old(stack)@.contains(x) ==> final(stack)@.contains(x),
        forall|x: usize|
            x < rows@.len() && #[trigger] final(seen)@[x as int] && !old(seen)@[x as int]
                ==> final(stack)@.contains(x),
        unseen(final(seen)@) + final(stack)@.len() == unseen(old(seen)@) + old(stack)@.len(),
{
    let ghost m = rows_view(rows@);
    let ghost seen0 = seen@;
    let ghost stack0 = stack@;
    let mut q: usize = 0;
    while q < rows.len()
        invariant
            q <= rows.len(),
            m == rows_view(rows@),
            is_relation(m),
            u < rows@.len(),
            seen0.len() == rows@.len(),
            seen@.len() == rows@.len(),
            forall|x: int| 0 <= x < q ==> #[trigger] seen@[x] == (seen0[x] || m[u as int][x]),
            forall|x: int| q <= x < rows@.len() ==> #[trigger] seen@[x] == seen0[x],
            forall|i: int|
                0 <= i < stack@.len() ==> (#[trigger] stack@[i]) < rows@.len()
                    && seen@[stack@[i] as int],
            forall|x: usize| #[trigger] stack0.contains(x) ==> stack@.contains(x),
            forall|x: usize|
                x < rows@.len() && #[trigger] seen@[x as int] && !seen0[x as int]
                    ==> stack@.contains(x),
            unseen(seen@) + stack@.len() == unseen(seen0) + stack0.len(),
        decreases rows.len() - q,
    {
        proof {
            assert(m[u as int].len() == m.len());
            assert(m[u as int] == rows@[u as int]@);
        }
        if rows[u][q] && !seen[q] {
            let ghost st = stack@;
            proof {
                lemma_mark(seen@, q as int);
            }
            seen.set(q, true);
            stack.push(q);
            proof {
                assert forall|x: usize| #[trigger] st.contains(x) implies stack@.contains(x) by {
                    let k = choose|k: int| 0 <= k < st.len() && st[k] == x;
                    assert(stack@[k] == x);
                }
                assert(stack@[st.len() as int] == q);
            }
        }
        q = q + 1;
    }
}

proof fn lemma_reach_step(m: Seq<Seq<bool>>, a: int, u: int, q: int)
    requires
        is_relation(m),
        0 <= a < m.len(),
        0 <= u < m.len(),
        0 <= q < m.len(),
        a == u || reaches(m, a, u),
        m[u][q],
    ensures
        reaches(m, a, q),
{
    if a == u {
        let s = seq![a, q];
        assert(is_path(m, s));
    }
    if reaches(m, a, u) {
        let s = choose|s: Seq<int>| #[trigger] is_path(m, s) && s[0] == a && s.last() == u;
        let t = s.push(q);
        assert forall|i: int| 0 <= i < t.len() - 1 implies m[#[trigger] t[i]][t[i + 1]] by {
            if i < s.len() - 1 {
                assert(t[i] == s[i] && t[i + 1] == s[i + 1]);
            }
        }
        assert(is_path(m, t));
        assert(t[0] == a && t.last() == q);
    }
}

/// A marking that holds what its members and the start lead to holds all that
/// can be reached.
proof fn lemma_closed_has_all(m: Seq<Seq<bool>>, a: int, seen: Seq<bool>, s: Seq<int>, k: int)
    requires
        seen.len() == m.len(),
        forall|v: int, q: int|
            0 <= v < m.len() && 0 <= q < m.len() && (v == a || seen[v]) && (#[trigger] m[v])[q]
                ==> #[trigger] seen[q],
        is_path(m, s),
        s[0] == a,
        1 <= k < s.len(),
    ensures
        seen[s[k]],
    decreases k,
{
    if k > 1 {
        lemma_closed_has_all(m, a, seen, s, k - 1);
    }
    assert(m[s[k - 1]][s[k - 1 + 1]]);
    assert(0 <= s[k] < m.len());
}

/// Which positions can be reached from one.
fn reach_from(rows: &Vec<Vec<bool>>, a: usize) -> (r: Vec<bool>)
    requires
        is_relation(rows_view(rows@)),
        a < rows@.len(),
    ensures
        r@.len() == rows@.len(),
        forall|b: int|
            0 <= b < rows@.len() ==> #[trigger] r@[b] == reaches(rows_view(rows@), a as int, b),
{
    let ghost m = rows_view(rows@);
    let n = rows.len();
    let mut seen: Vec<bool> = Vec::new();
    let mut i: usize = 0;
    while i < n
        invariant
            i <= n,
            seen@.len() == i,
            forall|p: int| 0 <= p < i ==> !(#[trigger] seen@[p]),
        decreases n - i,
    {
        seen.push(false);
        i = i + 1;
    }
    let mut stack: Vec<usize> = Vec::new();
    mark_next(rows, a, &mut seen, &mut stack);
    proof {
        assert forall|b: int| 0 <= b < n && #[trigger] seen@[b] implies reaches(m, a as int, b) by {
            lemma_reach_step(m, a as int, a as int, b);
        }
    }
    while stack.len() > 0
        invariant
            n == rows@.len(),
            m == rows_view(rows@),
            is_relation(m),
            a < n,
            seen@.len() == n,
            forall|i: int|
                0 <= i < stack@.len() ==> (#[trigger] stack@[i]) < n && seen@[stack@[i] as int],
            forall|b: int| 0 <= b < n && #[trigger] seen@[b] ==> reaches(m, a as int, b),
            forall|v: usize, q: int|
                v < n && 0 <= q < n && (v == a || (seen@[v as int] && !stack@.contains(v)))
                    && (#[trigger] m[v as int])[q] ==> #[trigger] seen@[q],
        decreases unseen(seen@) + stack@.len(),
    {
        let ghost st0 = stack@;
        let ghost seen0 = seen@;
        let u = match stack.pop() {
            Some(u) => u,
            None => 0,
        };
        let ghost st1 = stack@;
        proof {
            assert(u == st0.last());
            assert(st1 =~= st0.drop_last());
            assert(st0[st0.len() - 1] == u);
            assert forall|i: int| 0 <= i < st1.len() implies (#[trigger] st1[i]) < n
                && seen@[st1[i] as int] by {
                assert(st0[i] == st1[i]);
            }
        }
        mark_next(rows, u, &mut seen, &mut stack);
        proof {
            assert forall|b: int| 0 <= b < n && #[trigger] seen@[b] implies reaches(
                m,
                a as int,
                b,
            ) by {
                if !seen0[b] {
                    lemma_reach_step(m, a as int, u as int, b);
                }
            }
            assert forall|v: usize, q: int|
                v < n && 0 <= q < n && (v == a || (seen@[v as int] && !stack@.contains(v)))
                    && (#[trigger] m[v as int])[q] implies #[trigger] seen@[q] by {
                if v == u {
                    assert(seen@[q] == (seen0[q] || m[u as int][q]));
                } else {
                    if v != a && st0.contains(v) {
                        let k = choose|k: int| 0 <= k < st0.len() && st0[k] == v;
                        assert(st1[k] == v);
                        assert(st1.contains(v));
                    }
                    assert(v == a || seen0[v as int]);
                    assert(seen@[q] == (seen0[q] || m[u as int][q]));
                }
            }
        }
    }
    proof {
        assert forall|b: int| 0 <= b < n implies #[trigger] seen@[b] == reaches(
            m,
            a as int,
            b,
        ) by {
            if reaches(m, a as int, b) {
                let s = choose|s: Seq<int>|
                    #[trigger] is_path(m, s) && s[0] == a as int && s.last() == b;
                assert forall|v: int, q: int|
                    0 <= v < m.len() && 0 <= q < m.len() && (v == a || seen@[v])
                        && (#[trigger] m[v])[q] implies #[trigger] seen@[q] by {
                    let w = v as usize;
                    assert(m[w as int][q]);
                    assert(!stack@.contains(w));
                }
                lemma_closed_has_all(m, a as int, seen@, s, s.len() - 1);
            }
        }
    }
    seen
}

/// The view of a start order.
pub open spec fn order_result(r: Result<Vec<UnitName>, UnitName>) -> Result<
    Seq<NameView>,
    NameView,
> {
    match r {
        Ok(v) => Ok(name_set::names_view(v@)),
        Err(n) => Err(n@),
    }
}

impl DepGraph {
    /// Topologically sort the given names by `After`/`Before` edges.
    ///
    /// `After=A B` and `Before=B A` are normalised to a single direction: for
    /// every unit, every neighbour visited via `After` must precede it; every
    /// neighbour visited via `Before` must follow it. Edges to names outside
    /// `units` are ignored.
    ///
    /// Returns the names in start order. If there is a cycle, returns
    /// `Err(name)` where `name` is the first of the given names on one.
    pub fn topo_order(&self, units: &Vec<UnitName>) -> (r: Result<Vec<UnitName>, UnitName>)
        ensures
            order_result(r) == topo(self@.edges, name_set::names_view(units@)),
    {
        let ghost us = name_set::names_view(units@);
        let ghost m = relation(self@.edges, us);
        let rows = relation_of(self, units);
        proof {
            assert(is_relation(m));
            lemma_start_order(m);
            lemma_complete_iff_acyclic(m);
            assert(rows@.len() == rows_view(rows@).len());
        }
        let q = queue_of(&rows);
        let ghost o = start_order(m);
        proof {
            assert(q@.len() == ints(q@).len());
        }
        if q.len() == units.len() {
            let mut out: Vec<UnitName> = Vec::new();
            let mut i: usize = 0;
            proof {
                assert(name_set::names_view(out@) =~= names_at(us, o).take(0));
            }
            while i < q.len()
                invariant
                    i <= q.len(),
                    q.len() == units.len(),
                    us == name_set::names_view(units@),
                    o == ints(q@),
                    forall|k: int| 0 <= k < o.len() ==> 0 <= #[trigger] o[k] < us.len(),
                    name_set::names_view(out@) == names_at(us, o).take(i as int),
                decreases q.len() - i,
            {
                proof {
                    assert(o[i as int] == q@[i as int]);
                }
                let ghost before = out@;
                out.push(units[q[i]].clone());
                proof {
                    assert(name_set::names_view(out@) =~= name_set::names_view(before).push(
                        us[o[i as int]],
                    ));
                    assert(names_at(us, o).take(i + 1) =~= names_at(us, o).take(i as int).push(
                        us[o[i as int]],
                    ));
                }
                i = i + 1;
            }
            proof {
                assert(names_at(us, o).take(o.len() as int) =~= names_at(us, o));
            }
            Ok(out)
        } else {
            let mut k: usize = 0;
            let mut found = false;
            while !found
                invariant
                    k < units.len(),
                    us == name_set::names_view(units@),
                    m == rows_view(rows@),
                    m.len() == us.len(),
                    is_relation(m),
                    first_on_cycle(m, 0) == first_on_cycle(m, k as int),
                    first_on_cycle(m, k as int) < m.len(),
                    on_cycle(m, first_on_cycle(m, 0)),
                    found ==> on_cycle(m, k as int),
                decreases units.len() - k + if found {
                    0int
                } else {
                    1int
                },
            {
                let seen = reach_from(&rows, k);
                if seen[k] {
                    found = true;
                } else {
                    proof {
                        lemma_first_from(m, k + 1);
                    }
                    k = k + 1;
                }
            }
            Err(units[k].clone())
        }
    }
}

} // verus!
