//! Ordered sets of texts that share their parts: each set has entries of its
//! own and refers to sets made before it, so passing exports along a chain of
//! targets costs no copies.

use vstd::prelude::*;

use crate::toposort::ints;
use crate::text::{copy, group_texts, lists, texts};

verus! {

/// A set: its own entries, and the sets it takes entries from.
pub struct Shared {
    pub own: Seq<Seq<char>>,
    pub parents: Seq<int>,
}

/// All entries of set `i`, its own first and then those of its parents in
/// order, with repetitions.
pub open spec fn whole(sets: Seq<Shared>, i: int) -> Seq<Seq<char>>
    decreases i, sets[i].parents.len() + 1,
{
    if 0 <= i < sets.len() {
        sets[i].own + inherited(sets, i, sets[i].parents.len())
    } else {
        Seq::empty()
    }
}

/// The entries that set `i` has from its first `k` parents.
pub open spec fn inherited(sets: Seq<Shared>, i: int, k: nat) -> Seq<Seq<char>>
    decreases i, k,
{
    if k == 0 || i < 0 {
        Seq::empty()
    } else {
        let p = sets[i].parents[k - 1];
        inherited(sets, i, (k - 1) as nat) + (if 0 <= p < i {
            whole(sets, p)
        } else {
            Seq::empty()
        })
    }
}

/// `done` and behind it those of `more` that are new, each once.
pub open spec fn add_new(done: Seq<Seq<char>>, more: Seq<Seq<char>>) -> Seq<Seq<char>>
    decreases more.len(),
{
    if more.len() == 0 {
        done
    } else {
        let before = add_new(done, more.drop_last());
        if before.contains(more.last()) {
            before
        } else {
            before.push(more.last())
        }
    }
}

/// The entries of set `i`: its own first, then those of its parents in order;
/// of entries that are the same the first stays.
pub open spec fn flat(sets: Seq<Shared>, i: int) -> Seq<Seq<char>> {
    add_new(Seq::empty(), whole(sets, i))
}

/// All entries of the first `k` of `parents`, with repetitions.
pub open spec fn gathered(sets: Seq<Shared>, parents: Seq<int>, k: nat) -> Seq<Seq<char>>
    decreases k,
{
    if k == 0 {
        Seq::empty()
    } else {
        gathered(sets, parents, (k - 1) as nat) + whole(sets, parents[k - 1])
    }
}

/// The entries of `parents`, each once.
pub open spec fn flat_all(sets: Seq<Shared>, parents: Seq<int>) -> Seq<Seq<char>> {
    add_new(Seq::empty(), gathered(sets, parents, parents.len()))
}

/// Sets refer only to sets before them.
pub open spec fn backward(sets: Seq<Shared>) -> bool {
    forall|i: int, k: int|
        0 <= i < sets.len() && 0 <= k < sets[i].parents.len() ==> 0
            <= #[trigger] sets[i].parents[k] < i
}

/// What `add_new` keeps and adds.
pub proof fn add_new_means(done: Seq<Seq<char>>, more: Seq<Seq<char>>)
    ensures
        add_new(done, more).len() >= done.len(),
        add_new(done, more).take(done.len() as int) == done,
        forall|x: Seq<char>| #[trigger]
            add_new(done, more).contains(x) <==> done.contains(x) || more.contains(x),
        done.no_duplicates() ==> add_new(done, more).no_duplicates(),
    decreases more.len(),
{
    if more.len() == 0 {
        assert(done.take(done.len() as int) =~= done);
    } else {
        let init = more.drop_last();
        let before = add_new(done, init);
        let now = add_new(done, more);
        add_new_means(done, init);
        assert forall|x: Seq<char>| more.contains(x) <==> init.contains(x) || x == more.last() by {
            if init.contains(x) {
                assert(more[init.index_of(x)] == x);
            }
            if x == more.last() {
                assert(more[more.len() - 1] == x);
            }
            if more.contains(x) && x != more.last() {
                assert(init[more.index_of(x)] == x);
            }
        }
        assert(now.take(done.len() as int) =~= before.take(done.len() as int));
        assert forall|x: Seq<char>| #[trigger]
            now.contains(x) <==> done.contains(x) || more.contains(x) by {
            if before.contains(x) {
                assert(now[before.index_of(x)] == x);
            }
            if x == more.last() && !before.contains(x) {
                assert(now[before.len() as int] == x);
            }
            if now.contains(x) && now.index_of(x) < before.len() {
                assert(before[now.index_of(x)] == x);
            }
        }
    }
}

/// Adding one entry.
pub proof fn add_new_one(done: Seq<Seq<char>>, x: Seq<char>)
    ensures
        add_new(done, seq![x]) == if done.contains(x) {
            done
        } else {
            done.push(x)
        },
{
    assert(seq![x].drop_last() =~= Seq::<Seq<char>>::empty());
    assert(add_new(done, Seq::empty()) == done);
}

/// Adding in two parts is adding both.
pub proof fn add_new_split(done: Seq<Seq<char>>, a: Seq<Seq<char>>, b: Seq<Seq<char>>)
    ensures
        add_new(done, a + b) == add_new(add_new(done, a), b),
    decreases b.len(),
{
    if b.len() == 0 {
        assert(a + b =~= a);
    } else {
        assert((a + b).drop_last() =~= a + b.drop_last());
        add_new_split(done, a, b.drop_last());
    }
}

/// Adding what is there changes nothing.
pub proof fn add_new_nothing(done: Seq<Seq<char>>, more: Seq<Seq<char>>)
    requires
        forall|i: int| 0 <= i < more.len() ==> done.contains(#[trigger] more[i]),
    ensures
        add_new(done, more) == done,
    decreases more.len(),
{
    if more.len() > 0 {
        let init = more.drop_last();
        assert forall|i: int| 0 <= i < init.len() implies done.contains(#[trigger] init[i]) by {
            assert(more[i] == init[i]);
        }
        add_new_nothing(done, init);
        assert(done.contains(more[more.len() - 1]));
    }
}

/// The entries of a set are those of its whole, each once.
pub proof fn flat_means(sets: Seq<Shared>, i: int)
    ensures
        flat(sets, i).no_duplicates(),
        forall|x: Seq<char>| #[trigger] flat(sets, i).contains(x) <==> whole(sets, i).contains(x),
{
    add_new_means(Seq::empty(), whole(sets, i));
}

/// One set of `SharedSets`.
#[derive(Debug)]
pub struct SharedSet {
    pub own: Vec<String>,
    pub parents: Vec<usize>,
}

/// Sets that refer to each other by their positions.
#[derive(Debug)]
pub struct SharedSets {
    pub sets: Vec<SharedSet>,
}

/// The set that a `SharedSet` stands for.
pub open spec fn shared(s: SharedSet) -> Shared {
    Shared {
        own: texts(s.own@),
        parents: Seq::new(s.parents@.len(), |k: int| s.parents@[k] as int),
    }
}

impl View for SharedSets {
    type V = Seq<Shared>;

    open spec fn view(&self) -> Seq<Shared> {
        Seq::new(self.sets@.len(), |i: int| shared(self.sets@[i]))
    }
}

impl SharedSets {
    /// No sets.
    pub fn new() -> (r: Self)
        ensures
            r@ == Seq::<Shared>::empty(),
    {
        let r = SharedSets { sets: Vec::new() };
        assert(r@ =~= Seq::<Shared>::empty());
        r
    }

    /// How many sets there are.
    pub fn len(&self) -> (r: usize)
        ensures
            r == self@.len(),
    {
        self.sets.len()
    }

    /// Makes one more set, of its own entries and those of earlier sets.
    pub fn join(&mut self, own: Vec<String>, parents: Vec<usize>) -> (r: usize)
        requires
            backward(old(self)@),
            forall|k: int| 0 <= k < parents@.len() ==> #[trigger] parents@[k] < old(self)@.len(),
        ensures
            backward(final(self)@),
            r == old(self)@.len(),
            final(self)@ == old(self)@.push(
                Shared {
                    own: texts(own@),
                    parents: Seq::new(parents@.len(), |k: int| parents@[k] as int),
                },
            ),
    {
        let at: usize = self.sets.len();
        let ghost before = self@;
        let set = SharedSet { own, parents };
        let ghost added = shared(set);
        self.sets.push(set);
        assert(self@ =~= before.push(added));
        assert forall|i: int, k: int|
            0 <= i < self@.len() && 0 <= k < self@[i].parents.len() implies 0
            <= #[trigger] self@[i].parents[k] < i by {
            if i < before.len() {
                assert(self@[i] == before[i]);
                assert(0 <= before[i].parents[k] < i);
            } else {
                assert(parents@[k] < before.len());
            }
        }
        at
    }

    /// The entries of set `i`.
    pub fn flatten(&self, i: usize) -> (r: Vec<String>)
        requires
            backward(self@),
            i < self@.len(),
        ensures
            texts(r@) == flat(self@, i as int),
    {
        broadcast use group_texts;
        let mut visited = self.unvisited();
        let mut out: Vec<String> = Vec::new();
        self.walk(i, &mut visited, &mut out);
        out
    }

    /// The entries of `parents`, each once.
    pub fn flatten_all(&self, parents: &Vec<usize>) -> (r: Vec<String>)
        requires
            backward(self@),
            forall|k: int| 0 <= k < parents@.len() ==> #[trigger] parents@[k] < self@.len(),
        ensures
            texts(r@) == flat_all(self@, ints(parents@)),
    {
        broadcast use group_texts;
        let ghost from = ints(parents@);
        let mut visited = self.unvisited();
        let mut out: Vec<String> = Vec::new();
        let mut k: usize = 0;
        while k < parents.len()
            invariant
                backward(self@),
                from == ints(parents@),
                forall|k: int| 0 <= k < parents@.len() ==> #[trigger] parents@[k] < self@.len(),
                k <= parents@.len(),
                visited@.len() == self@.len(),
                covered(self@, visited@, texts(out@)),
                texts(out@) == add_new(Seq::empty(), gathered(self@, from, k as nat)),
            decreases parents@.len() - k,
        {
            self.walk(parents[k], &mut visited, &mut out);
            proof {
                add_new_split(
                    Seq::empty(),
                    gathered(self@, from, k as nat),
                    whole(self@, from[k as int]),
                );
            }
            k += 1;
        }
        out
    }

    /// No set is visited.
    fn unvisited(&self) -> (r: Vec<bool>)
        ensures
            r@.len() == self@.len(),
            forall|v: int| 0 <= v < r@.len() ==> !#[trigger] r@[v],
    {
        let mut visited: Vec<bool> = Vec::new();
        let mut n: usize = 0;
        while n < self.sets.len()
            invariant
                n <= self.sets@.len(),
                visited@.len() == n,
                forall|v: int| 0 <= v < n ==> !#[trigger] visited@[v],
            decreases self.sets@.len() - n,
        {
            visited.push(false);
            n += 1;
        }
        visited
    }

    /// Adds the entries of set `i` that are new to `out`. The entries of
    /// visited sets are there already.
    fn walk(&self, i: usize, visited: &mut Vec<bool>, out: &mut Vec<String>)
        requires
            backward(self@),
            i < self@.len(),
            old(visited)@.len() == self@.len(),
            covered(self@, old(visited)@, texts(old(out)@)),
        ensures
            final(visited)@.len() == self@.len(),
            covered(self@, final(visited)@, texts(final(out)@)),
            texts(final(out)@) == add_new(texts(old(out)@), whole(self@, i as int)),
        decreases i,
    {
        broadcast use group_texts;
        let ghost before = texts(out@);
        let ghost sets = self@;
        if visited[i] {
            proof {
                add_new_nothing(before, whole(sets, i as int));
            }
            return;
        }
        let own = &self.sets[i].own;
        let ghost mine = texts(own@);
        assert(mine == sets[i as int].own);
        let mut j: usize = 0;
        while j < own.len()
            invariant
                mine == texts(own@),
                j <= own@.len(),
                texts(out@) == add_new(before, mine.take(j as int)),
                covered(sets, visited@, before),
            decreases own@.len() - j,
        {
            assert(mine.take(j + 1).drop_last() =~= mine.take(j as int));
            if !lists(out, &own[j]) {
                out.push(copy(&own[j]));
            }
            j += 1;
        }
        assert(mine.take(j as int) =~= mine);
        proof {
            covered_grows(sets, visited@, before, mine);
        }
        let parents = &self.sets[i].parents;
        let mut k: usize = 0;
        assert(mine + inherited(sets, i as int, 0) =~= mine);
        while k < parents.len()
            invariant
                sets == self@,
                i < sets.len(),
                parents@ == self.sets@[i as int].parents@,
                backward(sets),
                k <= parents@.len(),
                visited@.len() == sets.len(),
                covered(sets, visited@, texts(out@)),
                texts(out@) == add_new(before, mine + inherited(sets, i as int, k as nat)),
            decreases parents@.len() - k,
        {
            let p: usize = parents[k];
            assert(sets[i as int].parents[k as int] == p);
            self.walk(p, visited, out);
            proof {
                let so_far = mine + inherited(sets, i as int, k as nat);
                add_new_split(before, so_far, whole(sets, p as int));
                assert(so_far + whole(sets, p as int) =~= mine + inherited(
                    sets,
                    i as int,
                    (k + 1) as nat,
                ));
            }
            k += 1;
        }
        let ghost seen = visited@;
        visited.set(i, true);
        proof {
            let all = whole(sets, i as int);
            assert(all == mine + inherited(sets, i as int, parents@.len()));
            add_new_means(before, all);
            assert forall|v: int, e: int|
                0 <= v < sets.len() && visited@[v] && 0 <= e < whole(sets, v).len() implies texts(
                out@,
            ).contains(#[trigger] whole(sets, v)[e]) by {
                if v == i {
                    assert(all.contains(all[e]));
                } else {
                    assert(seen[v]);
                }
            }
        }
    }
}

/// The entries of every visited set are in `done`.
spec fn covered(sets: Seq<Shared>, visited: Seq<bool>, done: Seq<Seq<char>>) -> bool {
    forall|v: int, e: int|
        0 <= v < sets.len() && visited[v] && 0 <= e < whole(sets, v).len() ==> done.contains(
            #[trigger] whole(sets, v)[e],
        )
}

proof fn covered_grows(
    sets: Seq<Shared>,
    visited: Seq<bool>,
    done: Seq<Seq<char>>,
    more: Seq<Seq<char>>,
)
    requires
        covered(sets, visited, done),
    ensures
        covered(sets, visited, add_new(done, more)),
{
    add_new_means(done, more);
}

} // verus!
