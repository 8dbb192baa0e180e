//! Putting targets in an order in which every one stands behind those it
//! depends on.

use vstd::prelude::*;

verus! {

/// The order of a depth-first walk, extended by target `t`: what it depends
/// on first, in declaration order, then itself, unless it is there already.
/// `depth` bounds how deep the walk goes.
pub open spec fn visited(deps: Seq<Seq<int>>, order: Seq<int>, t: int, depth: nat) -> Seq<int>
    decreases depth, 0nat,
{
    if order.contains(t) || depth == 0 {
        order
    } else {
        visited_all(deps, order, deps[t], deps[t].len(), (depth - 1) as nat).push(t)
    }
}

/// The order extended by the first `n` of `targets`.
pub open spec fn visited_all(
    deps: Seq<Seq<int>>,
    order: Seq<int>,
    targets: Seq<int>,
    n: nat,
    depth: nat,
) -> Seq<int>
    decreases depth, n + 1,
{
    if n == 0 {
        order
    } else {
        visited(
            deps,
            visited_all(deps, order, targets, (n - 1) as nat, depth),
            targets[n - 1],
            depth,
        )
    }
}

/// The numbers below `n`.
pub open spec fn below(n: nat) -> Seq<int> {
    Seq::new(n, |i: int| i)
}

/// The order in which targets are built: a depth-first walk from each target
/// in turn.
pub open spec fn build_order(deps: Seq<Seq<int>>) -> Seq<int> {
    visited_all(deps, Seq::empty(), below(deps.len()), deps.len(), deps.len())
}

/// Every target that `order` lists stands behind all that it depends on.
pub open spec fn deps_first(deps: Seq<Seq<int>>, order: Seq<int>) -> bool {
    forall|k: int, j: int|
        0 <= k < order.len() && 0 <= j < deps[order[k]].len() ==> order.take(k).contains(
            #[trigger] deps[order[k]][j],
        )
}

/// `path` follows dependencies: each of its targets depends on the next.
pub open spec fn chain(deps: Seq<Seq<int>>, path: Seq<int>) -> bool {
    forall|k: int|
        0 <= k < path.len() - 1 ==> deps[#[trigger] path[k]].contains(path[k + 1])
}

/// `path` follows dependencies from a target back to itself.
pub open spec fn cycle(deps: Seq<Seq<int>>, path: Seq<int>) -> bool {
    path.len() > 1 && path[0] == path.last() && chain(deps, path)
}

/// The cycle that a depth-first walk to `t` meets first: `path` holds the
/// targets whose dependencies are being visited, `order` those that are done.
/// The cycle runs from where `t` stands on the path to `t` again.
pub open spec fn cycle_met(
    deps: Seq<Seq<int>>,
    order: Seq<int>,
    path: Seq<int>,
    t: int,
    depth: nat,
) -> Option<Seq<int>>
    decreases depth, 0nat,
{
    if order.contains(t) {
        None
    } else if path.contains(t) {
        Some(path.skip(path.index_of(t)).push(t))
    } else if depth == 0 {
        None
    } else {
        cycle_met_among(deps, order, path.push(t), deps[t], deps[t].len(), (depth - 1) as nat)
    }
}

/// The cycle that a depth-first walk to the first `n` of `targets` meets
/// first.
pub open spec fn cycle_met_among(
    deps: Seq<Seq<int>>,
    order: Seq<int>,
    path: Seq<int>,
    targets: Seq<int>,
    n: nat,
    depth: nat,
) -> Option<Seq<int>>
    decreases depth, n + 1,
{
    if n == 0 {
        None
    } else {
        match cycle_met_among(deps, order, path, targets, (n - 1) as nat, depth) {
            Some(found) => Some(found),
            None => cycle_met(
                deps,
                visited_all(deps, order, targets, (n - 1) as nat, depth),
                path,
                targets[n - 1],
                depth,
            ),
        }
    }
}

/// The cycle that the walk from each target in turn meets first.
pub open spec fn first_cycle(deps: Seq<Seq<int>>) -> Option<Seq<int>> {
    cycle_met_among(deps, Seq::empty(), Seq::empty(), below(deps.len()), deps.len(), deps.len())
}

/// Once a walk has met a cycle, it goes on no further.
proof fn met_stays_met(
    deps: Seq<Seq<int>>,
    order: Seq<int>,
    path: Seq<int>,
    targets: Seq<int>,
    m: nat,
    n: nat,
    depth: nat,
)
    requires
        m <= n,
        cycle_met_among(deps, order, path, targets, m, depth) is Some,
    ensures
        cycle_met_among(deps, order, path, targets, n, depth) == cycle_met_among(
            deps,
            order,
            path,
            targets,
            m,
            depth,
        ),
    decreases n,
{
    if m < n {
        met_stays_met(deps, order, path, targets, m, (n - 1) as nat, depth);
    }
}

/// All dependencies are targets.
pub open spec fn in_range(deps: Seq<Seq<int>>) -> bool {
    forall|i: int, j: int|
        0 <= i < deps.len() && 0 <= j < deps[i].len() ==> 0 <= #[trigger] deps[i][j] < deps.len()
}

/// The dependencies as numbers of the mathematics.
pub open spec fn numbers(deps: Seq<Vec<usize>>) -> Seq<Seq<int>> {
    Seq::new(deps.len(), |i: int| Seq::new(deps[i]@.len(), |j: int| deps[i]@[j] as int))
}

/// The targets of an order as numbers of the mathematics.
pub open spec fn ints(v: Seq<usize>) -> Seq<int> {
    Seq::new(v.len(), |i: int| v[i] as int)
}

/// Where an order has its targets first, no target depends on itself through
/// others.
pub proof fn ordered_is_acyclic(deps: Seq<Seq<int>>, order: Seq<int>, path: Seq<int>)
    requires
        deps_first(deps, order),
        order.no_duplicates(),
        forall|k: int| 0 <= k < path.len() ==> order.contains(#[trigger] path[k]),
        chain(deps, path),
        path.len() > 1,
    ensures
        path[0] != path.last(),
        order.index_of(path.last()) < order.index_of(path[0]),
    decreases path.len(),
{
    let n = path.len();
    let a = path[n - 2];
    let b = path[n - 1];
    let ka = order.index_of(a);
    let kb = order.index_of(b);
    assert(order.contains(a) && order.contains(b));
    let j = deps[a].index_of(b);
    assert(deps[path[n - 2]].contains(path[n - 1]));
    assert(deps[order[ka]][j] == b);
    assert(order.take(ka).contains(b));
    let k = order.take(ka).index_of(b);
    assert(order[k] == b);
    assert(kb == k);
    if n > 2 {
        let init = path.drop_last();
        assert forall|k: int| 0 <= k < init.len() - 1 implies deps[#[trigger] init[k]].contains(
            init[k + 1],
        ) by {
            assert(init[k] == path[k]);
        }
        ordered_is_acyclic(deps, order, init);
    }
}

/// Different numbers below `n` are at most `n`.
proof fn few(path: Seq<int>, n: nat)
    requires
        path.no_duplicates(),
        forall|k: int| 0 <= k < path.len() ==> 0 <= #[trigger] path[k] < n,
    ensures
        path.len() <= n,
{
    path.unique_seq_to_set();
    let all = vstd::set_lib::set_int_range(0, n as int);
    vstd::set_lib::lemma_int_range(0, n as int);
    assert(path.to_set().subset_of(all)) by {
        assert forall|x: int| path.to_set().contains(x) implies all.contains(x) by {
            let k = path.index_of(x);
            assert(path[k] == x);
        }
    }
    vstd::set_lib::lemma_len_subset(path.to_set(), all);
}

/// A walk through the dependencies.
struct Walk {
    /// Whether a target is in the order.
    done: Vec<bool>,
    /// The targets whose dependencies are being visited.
    path: Vec<usize>,
    order: Vec<usize>,
}

impl Walk {
    spec fn wf(self, deps: Seq<Seq<int>>) -> bool {
        let order = ints(self.order@);
        let path = ints(self.path@);
        &&& self.done@.len() == deps.len()
        &&& order.no_duplicates()
        &&& forall|k: int| 0 <= k < order.len() ==> 0 <= #[trigger] order[k] < deps.len()
        &&& forall|t: int| 0 <= t < deps.len() ==> #[trigger] self.done@[t] == order.contains(t)
        &&& deps_first(deps, order)
        &&& path.no_duplicates()
        &&& forall|k: int| 0 <= k < path.len() ==> 0 <= #[trigger] path[k] < deps.len()
        &&& chain(deps, path)
        &&& forall|k: int| 0 <= k < path.len() ==> !order.contains(#[trigger] path[k])
    }

    /// Puts `t`, behind what it depends on, into the order. The error is a
    /// cycle of dependencies.
    fn visit(&mut self, deps: &Vec<Vec<usize>>, t: usize) -> (r: Result<(), Vec<usize>>)
        requires
            in_range(numbers(deps@)),
            old(self).wf(numbers(deps@)),
            t < deps@.len(),
            old(self).path@.len() > 0 ==> numbers(
                deps@,
            )[old(self).path@.last() as int].contains(t as int),
        ensures
            match r {
                Ok(_) => {
                    let path = ints(old(self).path@);
                    &&& final(self).wf(numbers(deps@))
                    &&& final(self).path@ == old(self).path@
                    &&& ints(final(self).order@) == visited(
                        numbers(deps@),
                        ints(old(self).order@),
                        t as int,
                        (deps@.len() - old(self).path@.len()) as nat,
                    )
                    &&& ints(final(self).order@).contains(t as int)
                    &&& forall|x: int|
                        ints(old(self).order@).contains(x) ==> #[trigger] ints(
                            final(self).order@,
                        ).contains(x)
                    &&& cycle_met(
                        numbers(deps@),
                        ints(old(self).order@),
                        path,
                        t as int,
                        (deps@.len() - old(self).path@.len()) as nat,
                    ) is None
                },
                Err(found) => cycle(numbers(deps@), ints(found@)) && (forall|k: int|
                    0 <= k < found@.len() ==> #[trigger] found@[k] < deps@.len()) && cycle_met(
                    numbers(deps@),
                    ints(old(self).order@),
                    ints(old(self).path@),
                    t as int,
                    (deps@.len() - old(self).path@.len()) as nat,
                ) == Some(ints(found@)),
            },
        decreases deps@.len() - old(self).path@.len(),
    {
        let ghost edges = numbers(deps@);
        let ghost start = ints(self.order@);
        let ghost path = ints(self.path@);
        let ghost depth: nat = (deps@.len() - self.path@.len()) as nat;
        if self.done[t] {
            return Ok(());
        }
        let mut at: usize = 0;
        while at < self.path.len()
            invariant
                edges == numbers(deps@),
                self.wf(edges),
                t < deps@.len(),
                path == ints(self.path@),
                start == ints(self.order@),
                start == ints(old(self).order@),
                path == ints(old(self).path@),
                !start.contains(t as int),
                self.path@.len() > 0 ==> edges[self.path@.last() as int].contains(t as int),
                at <= self.path@.len(),
                forall|k: int| 0 <= k < at ==> #[trigger] path[k] != t,
            decreases self.path@.len() - at,
        {
            if self.path[at] == t {
                let mut found: Vec<usize> = Vec::new();
                let mut k: usize = at;
                while k < self.path.len()
                    invariant
                        self.wf(edges),
                        path == ints(self.path@),
                        at <= k <= self.path@.len(),
                        edges.len() == deps@.len(),
                        found@ == self.path@.subrange(at as int, k as int),
                    decreases self.path@.len() - k,
                {
                    found.push(self.path[k]);
                    k += 1;
                    assert(found@ =~= self.path@.subrange(at as int, k as int));
                }
                found.push(t);
                proof {
                    let c = ints(found@);
                    assert(c[0] == path[at as int]);
                    assert(path.contains(t as int));
                    assert(path.index_of(t as int) == at);
                    assert(c =~= path.skip(at as int).push(t as int));
                    assert forall|k: int| 0 <= k < c.len() - 1 implies edges[
                    #[trigger] c[k]].contains(c[k + 1]) by {
                        assert(c[k] == path[at + k]);
                        if k < c.len() - 2 {
                            assert(c[k + 1] == path[at + k + 1]);
                        } else {
                            assert(path[path.len() - 1] == self.path@.last());
                        }
                    }
                    assert forall|k: int| 0 <= k < found@.len() implies #[trigger] found@[k]
                        < deps@.len() by {
                        if k < found@.len() - 1 {
                            assert(found@[k] == path[at + k]);
                        }
                    }
                }
                return Err(found);
            }
            assert(path[at as int] != t);
            at += 1;
        }
        assert(!path.contains(t as int)) by {
            if path.contains(t as int) {
                assert(path[path.index_of(t as int)] == t);
            }
        }
        self.path.push(t);
        let ghost deeper = ints(self.path@);
        proof {
            assert(deeper =~= path.push(t as int));
            assert forall|k: int| 0 <= k < deeper.len() - 1 implies edges[
            #[trigger] deeper[k]].contains(deeper[k + 1]) by {
                assert(deeper[k] == path[k]);
                if k < path.len() - 1 {
                    assert(deeper[k + 1] == path[k + 1]);
                } else {
                    assert(path[path.len() - 1] == old(self).path@.last());
                }
            }
            assert(self.wf(edges));
            few(deeper, edges.len());
        }
        let mut j: usize = 0;
        let own = &deps[t];
        while j < own.len()
            invariant
                edges == numbers(deps@),
                in_range(edges),
                t < deps@.len(),
                own@ == deps@[t as int]@,
                j <= own@.len(),
                self.wf(edges),
                self.path@.len() == old(self).path@.len() + 1,
                self.path@ == old(self).path@.push(t),
                self.path@.len() <= deps@.len(),
                depth == deps@.len() - old(self).path@.len(),
                ints(self.order@) == visited_all(
                    edges,
                    start,
                    edges[t as int],
                    j as nat,
                    (depth - 1) as nat,
                ),
                cycle_met_among(
                    edges,
                    start,
                    deeper,
                    edges[t as int],
                    j as nat,
                    (depth - 1) as nat,
                ) is None,
                start == ints(old(self).order@),
                path == ints(old(self).path@),
                deeper == path.push(t as int),
                deeper == ints(self.path@),
                !start.contains(t as int),
                !path.contains(t as int),
                forall|x: int| start.contains(x) ==> #[trigger] ints(self.order@).contains(x),
                forall|k: int|
                    0 <= k < j ==> ints(self.order@).contains(#[trigger] edges[t as int][k]),
            decreases own@.len() - j,
        {
            let dep: usize = own[j];
            assert(edges[t as int][j as int] == dep);
            match self.visit(deps, dep) {
                Ok(_) => {
                    assert(ints(self.path@) =~= deeper);
                },
                Err(found) => {
                    proof {
                        met_stays_met(
                            edges,
                            start,
                            deeper,
                            edges[t as int],
                            (j + 1) as nat,
                            edges[t as int].len(),
                            (depth - 1) as nat,
                        );
                    }
                    return Err(found);
                },
            }
            j += 1;
        }
        let ghost before = ints(self.order@);
        let _ = self.path.pop();
        assert(self.path@ =~= old(self).path@);
        proof {
            assert(edges[t as int].len() == own@.len());
            if before.contains(t as int) {
                assert(deeper[deeper.len() - 1] == t);
                assert(ints(old(self).path@.push(t)) =~= deeper);
            }
        }
        self.done.set(t, true);
        self.order.push(t);
        proof {
            let order = ints(self.order@);
            assert(order =~= before.push(t as int));
            assert forall|x: int| order.contains(x) <==> before.contains(x) || x == t by {
                if before.contains(x) {
                    assert(order[before.index_of(x)] == x);
                }
                if x == t {
                    assert(order[before.len() as int] == x);
                }
            }
            assert forall|k: int, i: int|
                0 <= k < order.len() && 0 <= i < edges[order[k]].len() implies order.take(
                k,
            ).contains(#[trigger] edges[order[k]][i]) by {
                if k < before.len() {
                    assert(order[k] == before[k]);
                    assert(before.take(k).contains(edges[before[k]][i]));
                    assert(order.take(k) =~= before.take(k));
                } else {
                    assert(order.take(k) =~= before);
                    assert(before.contains(edges[t as int][i]));
                }
            }
            assert forall|k: int| 0 <= k < path.len() implies !order.contains(
                #[trigger] path[k],
            ) by {
                assert(deeper[k] == path[k]);
                assert(ints(old(self).path@.push(t)) =~= deeper);
            }
        }
        Ok(())
    }
}

/// The targets `0..deps.len()` in an order in which every one stands behind
/// those it depends on. The error is the cycle of dependencies that is met
/// first.
pub fn toposort(deps: &Vec<Vec<usize>>) -> (r: Result<Vec<usize>, Vec<usize>>)
    requires
        in_range(numbers(deps@)),
    ensures
        match r {
            Ok(order) => ints(order@) == build_order(numbers(deps@)) && deps_first(
                numbers(deps@),
                ints(order@),
            ) && ints(order@).no_duplicates() && (forall|t: int|
                0 <= t < deps@.len() <==> #[trigger] ints(order@).contains(t)) && first_cycle(
                numbers(deps@),
            ) is None,
            Err(found) => cycle(numbers(deps@), ints(found@)) && (forall|k: int|
                0 <= k < found@.len() ==> #[trigger] found@[k] < deps@.len()) && first_cycle(
                numbers(deps@),
            ) == Some(ints(found@)),
        },
{
    let ghost edges = numbers(deps@);
    let n: usize = deps.len();
    let mut done: Vec<bool> = Vec::new();
    let mut i: usize = 0;
    while i < n
        invariant
            i <= n,
            done@.len() == i,
            forall|t: int| 0 <= t < i ==> !#[trigger] done@[t],
        decreases n - i,
    {
        done.push(false);
        i += 1;
    }
    let mut walk = Walk { done, path: Vec::new(), order: Vec::new() };
    let mut t: usize = 0;
    while t < n
        invariant
            edges == numbers(deps@),
            in_range(edges),
            n == deps@.len(),
            t <= n,
            walk.wf(edges),
            walk.path@.len() == 0,
            ints(walk.order@) == visited_all(edges, Seq::empty(), below(n as nat), t as nat, n as nat),
            forall|k: int| 0 <= k < t ==> #[trigger] ints(walk.order@).contains(k),
            cycle_met_among(
                edges,
                Seq::empty(),
                Seq::empty(),
                below(n as nat),
                t as nat,
                n as nat,
            ) is None,
        decreases n - t,
    {
        assert(ints(walk.path@) =~= Seq::<int>::empty());
        match walk.visit(deps, t) {
            Ok(_) => {},
            Err(found) => {
                proof {
                    met_stays_met(
                        edges,
                        Seq::empty(),
                        Seq::empty(),
                        below(n as nat),
                        (t + 1) as nat,
                        n as nat,
                        n as nat,
                    );
                }
                return Err(found);
            },
        }
        t += 1;
    }
    proof {
        let order = ints(walk.order@);
        assert forall|t: int| 0 <= t < deps@.len() <==> #[trigger] order.contains(t) by {
            if order.contains(t) {
                assert(order[order.index_of(t)] == t);
            }
        }
    }
    Ok(walk.order)
}

/// An order has every target once, behind all that it depends on; and there is one
/// exactly where no target depends on itself over others. What is reported instead
/// is such a circle.
pub proof fn order_or_circle(
    deps: Vec<Vec<usize>>,
    r: Result<Vec<usize>, Vec<usize>>,
    t: int,
    j: int,
    path: Seq<int>,
)
    requires
        in_range(numbers(deps@)),
        call_ensures(toposort, (&deps,), r),
        0 <= t < deps@.len(),
        0 <= j < deps@[t]@.len(),
    ensures
        r matches Ok(order) ==> order@.len() == deps@.len() && ints(order@).contains(t) && ints(
            order@,
        ).contains(deps@[t]@[j] as int) && ints(order@).index_of(deps@[t]@[j] as int) < ints(
            order@,
        ).index_of(t),
        r is Ok && path.len() > 1 && path[0] == path.last() && (forall|k: int|
            0 <= k < path.len() ==> 0 <= #[trigger] path[k] < deps@.len()) ==> exists|k: int|
            0 <= k < path.len() - 1 && !numbers(deps@)[#[trigger] path[k]].contains(path[k + 1]),
        r matches Err(found) ==> found@.len() > 1 && found@[0] == found@.last() && forall|k: int|
            0 <= k < found@.len() - 1 ==> ints(deps@[#[trigger] found@[k] as int]@).contains(
                found@[k + 1] as int,
            ),
{
    let edges = numbers(deps@);
    assert(edges[t][j] == deps@[t]@[j] as int);
    if let Ok(order) = r {
        let all = ints(order@);
        assert(all.contains(t));
        let k = all.index_of(t);
        assert(all[k] == t);
        assert(all.take(k).contains(edges[all[k]][j]));
        let d = edges[t][j];
        let h = all.take(k).index_of(d);
        assert(all.take(k)[h] == d);
        assert(all[h] == d);
        assert(all.index_of(d) == h);
        assert(order@.len() == all.len());
        all.unique_seq_to_set();
        assert(all.to_set() =~= vstd::set_lib::set_int_range(0, deps@.len() as int));
        vstd::set_lib::lemma_int_range(0, deps@.len() as int);
        if path.len() > 1 && path[0] == path.last() && (forall|k: int|
            0 <= k < path.len() ==> 0 <= #[trigger] path[k] < deps@.len()) {
            if forall|k: int|
                0 <= k < path.len() - 1 ==> edges[#[trigger] path[k]].contains(path[k + 1]) {
                assert(chain(edges, path));
                assert forall|k: int| 0 <= k < path.len() implies all.contains(
                    #[trigger] path[k],
                ) by {
                    assert(0 <= path[k] < deps@.len());
                }
                ordered_is_acyclic(edges, all, path);
            }
        }
    }
    if let Err(found) = r {
        let all = ints(found@);
        assert(all.len() == found@.len());
        assert(all[0] == found@[0] as int && all.last() == found@.last() as int);
        assert forall|k: int| 0 <= k < found@.len() - 1 implies ints(
            deps@[#[trigger] found@[k] as int]@,
        ).contains(found@[k + 1] as int) by {
            assert(all[k] == found@[k] as int && all[k + 1] == found@[k + 1] as int);
            assert(edges[all[k]].contains(all[k + 1]));
        }
    }
}

} // verus!
