//! Sorting.

use vstd::prelude::*;

use crate::text::{
    before, before_irreflexive, before_total, before_transitive, copy, precedes, texts,
};
use crate::toposort::ints;

verus! {

/// Values that stand in an order, in which several can share a place.
pub trait Ranked: Sized {
    /// The value stands before another.
    spec fn less(&self, other: &Self) -> bool;

    proof fn asymmetric(a: &Self, b: &Self)
        requires
            a.less(b),
        ensures
            !b.less(a),
    ;

    /// What stands before a value stands before all that do not stand before
    /// that value.
    proof fn carries_over(a: &Self, b: &Self, c: &Self)
        requires
            a.less(b),
            !c.less(b),
        ensures
            a.less(c),
    ;

    /// Whether the value stands before another.
    fn precedes(&self, other: &Self) -> (r: bool)
        ensures
            r == self.less(other),
    ;
}

/// `order` lists the numbers below `n`, each once.
pub open spec fn lists_all(order: Seq<int>, n: nat) -> bool {
    &&& order.len() == n
    &&& order.no_duplicates()
    &&& forall|k: int| 0 <= k < order.len() ==> 0 <= #[trigger] order[k] < n
}

/// `order` lists the values of `v` in their order, those that share a place as
/// they came.
pub open spec fn in_turn<T: Ranked>(order: Seq<int>, v: Seq<T>) -> bool {
    &&& lists_all(order, v.len())
    &&& forall|a: int, b: int|
        0 <= a < b < order.len() ==> ({
            let x = v[#[trigger] order[a]];
            let y = v[#[trigger] order[b]];
            x.less(&y) || (!y.less(&x) && order[a] < order[b])
        })
}

/// The values in the order in which they are listed.
pub open spec fn taken<T>(v: Seq<T>, order: Seq<int>) -> Seq<T> {
    Seq::new(order.len(), |i: int| v[order[i]])
}

proof fn inserted<T: Ranked>(order: Seq<int>, v: Seq<T>, n: int, at: int)
    requires
        0 <= n < v.len(),
        0 <= at <= n,
        in_turn(order, v.take(n)),
        forall|k: int| at <= k < n ==> v[n].less(&v[#[trigger] order[k]]),
        at > 0 ==> !v[n].less(&v[order[at - 1]]),
    ensures
        in_turn(order.insert(at, n), v.take(n + 1)),
{
    let now = order.insert(at, n);
    let w = v.take(n + 1);
    assert forall|k: int| 0 <= k < now.len() implies 0 <= #[trigger] now[k] < n + 1 by {
        if k < at {
            assert(now[k] == order[k]);
        } else if k > at {
            assert(now[k] == order[k - 1]);
        }
    }
    assert(now.no_duplicates()) by {
        assert forall|i: int, j: int| 0 <= i < now.len() && 0 <= j < now.len() && i
            != j implies now[i] != now[j] by {
            let a = if i < at { i } else { i - 1 };
            let b = if j < at { j } else { j - 1 };
            if i != at {
                assert(now[i] == order[a]);
            }
            if j != at {
                assert(now[j] == order[b]);
            }
        }
    }
    assert forall|k: int| 0 <= k < at implies !v[n].less(&v[#[trigger] order[k]]) by {
        if v[n].less(&v[order[k]]) && k < at - 1 {
            let x = v.take(n)[order[k]];
            let y = v.take(n)[order[at - 1]];
            assert(x.less(&y) || !y.less(&x));
            if x.less(&y) {
                T::asymmetric(&x, &y);
            }
            T::carries_over(&v[n], &v[order[k]], &v[order[at - 1]]);
        }
    }
    assert forall|a: int, b: int| 0 <= a < b < now.len() implies ({
        let x = w[#[trigger] now[a]];
        let y = w[#[trigger] now[b]];
        x.less(&y) || (!y.less(&x) && now[a] < now[b])
    }) by {
        if a == at {
            assert(now[b] == order[b - 1]);
            assert(v[n].less(&v[order[b - 1]]));
        } else if b == at {
            assert(now[a] == order[a]);
            assert(!v[n].less(&v[order[a]]));
        } else {
            let i = if a < at { a } else { a - 1 };
            let j = if b < at { b } else { b - 1 };
            assert(now[a] == order[i] && now[b] == order[j]);
            let x = v.take(n)[order[i]];
            let y = v.take(n)[order[j]];
            assert(x.less(&y) || (!y.less(&x) && order[i] < order[j]));
        }
    }
}

/// The order of some values.
pub fn order_of<T: Ranked>(v: &Vec<T>) -> (r: Vec<usize>)
    ensures
        in_turn(ints(r@), v@),
        forall|k: int| 0 <= k < r@.len() ==> #[trigger] r@[k] < v@.len(),
{
    let mut order: Vec<usize> = Vec::new();
    let mut n: usize = 0;
    assert(ints(order@) =~= Seq::<int>::empty());
    while n < v.len()
        invariant
            n <= v@.len(),
            order@.len() == n,
            in_turn(ints(order@), v@.take(n as int)),
            forall|k: int| 0 <= k < order@.len() ==> #[trigger] order@[k] < n,
        decreases v@.len() - n,
    {
        let ghost was = ints(order@);
        let mut at: usize = n;
        while at > 0 && v[n].precedes(&v[order[at - 1]])
            invariant
                n < v@.len(),
                at <= n,
                order@.len() == n,
                was == ints(order@),
                forall|k: int| 0 <= k < order@.len() ==> #[trigger] order@[k] < n,
                forall|k: int| at <= k < n ==> v@[n as int].less(&v@[#[trigger] was[k]]),
            decreases at,
        {
            assert(was[at - 1] == order@[at - 1] as int);
            at -= 1;
        }
        proof {
            if at > 0 {
                assert(was[at - 1] == order@[at - 1] as int);
            }
            inserted(was, v@, n as int, at as int);
        }
        let ghost list = order@;
        order.insert(at, n);
        proof {
            assert(ints(order@) =~= was.insert(at as int, n as int));
            assert forall|k: int| 0 <= k < order@.len() implies #[trigger] order@[k] < n + 1 by {
                if k < at {
                    assert(order@[k] == list[k]);
                } else if k > at {
                    assert(order@[k] == list[k - 1]);
                }
            }
        }
        n += 1;
    }
    assert(v@.take(n as int) =~= v@);
    order
}

/// There is one order only.
pub proof fn order_unique<T: Ranked>(a: Seq<int>, b: Seq<int>, v: Seq<T>)
    requires
        in_turn(a, v),
        in_turn(b, v),
    ensures
        a == b,
{
    order_agrees(a, b, v, v.len());
    assert(a.take(v.len() as int) =~= a);
    assert(b.take(v.len() as int) =~= b);
}

/// A number below `n` is among those that are listed.
pub proof fn listed(order: Seq<int>, n: nat, x: int) -> (k: int)
    requires
        lists_all(order, n),
        0 <= x < n,
    ensures
        0 <= k < order.len(),
        order[k] == x,
{
    let all = vstd::set_lib::set_int_range(0, n as int);
    vstd::set_lib::lemma_int_range(0, n as int);
    order.unique_seq_to_set();
    assert(order.to_set().subset_of(all));
    vstd::set_lib::lemma_len_subset(order.to_set(), all);
    if !order.contains(x) {
        assert(order.to_set().subset_of(all.remove(x)));
        vstd::set_lib::lemma_len_subset(order.to_set(), all.remove(x));
    }
    order.index_of(x)
}

proof fn order_agrees<T: Ranked>(a: Seq<int>, b: Seq<int>, v: Seq<T>, n: nat)
    requires
        in_turn(a, v),
        in_turn(b, v),
        n <= v.len(),
    ensures
        a.take(n as int) == b.take(n as int),
    decreases n,
{
    if n > 0 {
        let m = n - 1;
        order_agrees(a, b, v, m as nat);
        if a[m] != b[m] {
            let i = listed(b, v.len(), a[m]);
            let j = listed(a, v.len(), b[m]);
            if i < m {
                assert(b.take(m)[i] == a.take(m)[i]);
                assert(a[i] == a[m]);
            }
            if j < m {
                assert(a.take(m)[j] == b.take(m)[j]);
                assert(b[j] == b[m]);
            }
            let x = v[a[m]];
            let y = v[b[m]];
            assert(a[j] == b[m] && b[i] == a[m]);
            assert(x.less(&y) || (!y.less(&x) && a[m] < a[j]));
            assert(y.less(&x) || (!x.less(&y) && b[m] < b[i]));
            if x.less(&y) {
                T::asymmetric(&x, &y);
            }
        }
        assert(a.take(n as int) =~= a.take(m).push(a[m]));
        assert(b.take(n as int) =~= b.take(m).push(b[m]));
    } else {
        assert(a.take(0) =~= b.take(0));
    }
}

/// `a` stands before `b` in the order of bytes.
pub open spec fn bytes_before(a: Seq<u8>, b: Seq<u8>) -> bool
    decreases a.len(),
{
    if b.len() == 0 {
        false
    } else if a.len() == 0 {
        true
    } else if a[0] != b[0] {
        a[0] < b[0]
    } else {
        bytes_before(a.skip(1), b.skip(1))
    }
}

pub proof fn bytes_before_asymmetric(a: Seq<u8>, b: Seq<u8>)
    requires
        bytes_before(a, b),
    ensures
        !bytes_before(b, a),
    decreases a.len(),
{
    if a.len() > 0 && b.len() > 0 && a[0] == b[0] {
        bytes_before_asymmetric(a.skip(1), b.skip(1));
    }
}

pub proof fn bytes_before_carries_over(a: Seq<u8>, b: Seq<u8>, c: Seq<u8>)
    requires
        bytes_before(a, b),
        !bytes_before(c, b),
    ensures
        bytes_before(a, c),
    decreases a.len(),
{
    if a.len() > 0 && b.len() > 0 && c.len() > 0 && a[0] == b[0] && b[0] == c[0] {
        bytes_before_carries_over(a.skip(1), b.skip(1), c.skip(1));
    }
}

/// Two texts of bytes of which neither stands before the other are the same.
pub proof fn bytes_before_total(a: Seq<u8>, b: Seq<u8>)
    ensures
        bytes_before(a, b) || bytes_before(b, a) || a == b,
    decreases a.len(),
{
    if a.len() == 0 || b.len() == 0 {
        if a.len() == 0 && b.len() == 0 {
            assert(a =~= b);
        }
    } else if a[0] == b[0] {
        bytes_before_total(a.skip(1), b.skip(1));
        if a.skip(1) == b.skip(1) {
            assert(a =~= seq![a[0]] + a.skip(1));
            assert(b =~= seq![b[0]] + b.skip(1));
        }
    }
}

/// Whether `a` stands before `b` in the order of bytes.
pub fn bytes_precede(a: &[u8], b: &[u8]) -> (r: bool)
    ensures
        r == bytes_before(a@, b@),
{
    let mut i: usize = 0;
    assert(a@.skip(0) =~= a@);
    assert(b@.skip(0) =~= b@);
    while i < a.len() && i < b.len()
        invariant
            i <= a@.len(),
            i <= b@.len(),
            bytes_before(a@, b@) == bytes_before(a@.skip(i as int), b@.skip(i as int)),
        decreases a@.len() - i,
    {
        if a[i] != b[i] {
            return a[i] < b[i];
        }
        assert(a@.skip(i as int).skip(1) =~= a@.skip(i + 1));
        assert(b@.skip(i as int).skip(1) =~= b@.skip(i + 1));
        i += 1;
    }
    i < b.len()
}

// ---------------------------------------------------------------------------
// Texts
// ---------------------------------------------------------------------------

/// Where a text belongs among others: behind those that do not stand behind
/// it.
pub open spec fn text_place(done: Seq<Seq<char>>, s: Seq<char>) -> int
    decreases done.len(),
{
    if done.len() == 0 {
        0
    } else if before(s, done.last()) {
        text_place(done.drop_last(), s)
    } else {
        done.len() as int
    }
}

/// The first `n` texts in order.
pub open spec fn sorted_upto(v: Seq<Seq<char>>, n: nat) -> Seq<Seq<char>>
    decreases n,
{
    if n == 0 {
        Seq::empty()
    } else {
        let done = sorted_upto(v, (n - 1) as nat);
        done.insert(text_place(done, v[n - 1]), v[n - 1])
    }
}

/// Texts in order.
pub open spec fn sorted_texts(v: Seq<Seq<char>>) -> Seq<Seq<char>> {
    sorted_upto(v, v.len())
}

proof fn text_place_means(done: Seq<Seq<char>>, s: Seq<char>)
    ensures
        0 <= text_place(done, s) <= done.len(),
        text_place(done, s) > 0 ==> !before(s, done[text_place(done, s) - 1]),
        forall|i: int| text_place(done, s) <= i < done.len() ==> before(s, #[trigger] done[i]),
    decreases done.len(),
{
    if done.len() > 0 && before(s, done.last()) {
        text_place_means(done.drop_last(), s);
        assert forall|i: int| text_place(done, s) <= i < done.len() implies before(
            s,
            #[trigger] done[i],
        ) by {
            if i < done.len() - 1 {
                assert(done.drop_last()[i] == done[i]);
            }
        }
    }
}

/// Sorting keeps all texts, and puts none before one that stands before it.
pub proof fn sorted_means(v: Seq<Seq<char>>, n: nat)
    requires
        n <= v.len(),
    ensures
        sorted_upto(v, n).len() == n,
        sorted_upto(v, n).to_multiset() == v.take(n as int).to_multiset(),
        forall|i: int, j: int|
            0 <= i < j < n ==> !before(
                #[trigger] sorted_upto(v, n)[j],
                #[trigger] sorted_upto(v, n)[i],
            ),
    decreases n,
{
    if n == 0 {
        assert(v.take(0) =~= Seq::empty());
    } else {
        let m = (n - 1) as nat;
        sorted_means(v, m);
        let done = sorted_upto(v, m);
        let s = v[n - 1];
        let at = text_place(done, s);
        text_place_means(done, s);
        let now = done.insert(at, s);
        vstd::seq_lib::to_multiset_insert(done, at, s);
        vstd::seq_lib::to_multiset_build(v.take(m as int), s);
        assert(v.take(n as int) =~= v.take(m as int).push(s));
        assert forall|i: int, j: int| 0 <= i < j < n implies !before(
            #[trigger] now[j],
            #[trigger] now[i],
        ) by {
            if i == at {
                assert(now[j] == done[j - 1]);
                assert(before(s, done[j - 1]));
                if before(done[j - 1], s) {
                    before_transitive(s, done[j - 1], s);
                    before_irreflexive(s);
                }
            } else if j == at {
                assert(now[i] == done[i]);
                if before(s, done[i]) && i < at - 1 {
                    assert(!before(done[at - 1], done[i]));
                    before_total(done[i], done[at - 1]);
                    if done[i] != done[at - 1] {
                        before_transitive(s, done[i], done[at - 1]);
                    }
                }
            } else {
                let a = if i < at { i } else { i - 1 };
                let b = if j < at { j } else { j - 1 };
                assert(now[i] == done[a] && now[j] == done[b]);
            }
        }
    }
}

/// Texts in order.
pub fn sort_texts(v: &Vec<String>) -> (r: Vec<String>)
    ensures
        texts(r@) == sorted_texts(texts(v@)),
{
    let ghost given = texts(v@);
    let mut out: Vec<String> = Vec::new();
    let mut k: usize = 0;
    assert(texts(out@) =~= Seq::<Seq<char>>::empty());
    while k < v.len()
        invariant
            given == texts(v@),
            k <= v@.len(),
            texts(out@) == sorted_upto(given, k as nat),
        decreases v@.len() - k,
    {
        let ghost done = texts(out@);
        let s = &v[k];
        let mut at: usize = out.len();
        assert(done.take(at as int) =~= done);
        while at > 0 && precedes(s, &out[at - 1])
            invariant
                at <= out@.len(),
                done == texts(out@),
                text_place(done.take(at as int), s@) == text_place(done, s@),
            decreases at,
        {
            assert(done.take(at as int).drop_last() =~= done.take(at - 1));
            assert(done.take(at as int).last() == out@[at - 1]@);
            at -= 1;
        }
        assert(at > 0 ==> done.take(at as int).last() == out@[at - 1]@);
        out.insert(at, copy(s));
        assert(texts(out@) =~= done.insert(at as int, s@));
        assert(given[k as int] == s@);
        k += 1;
    }
    out
}

} // verus!
