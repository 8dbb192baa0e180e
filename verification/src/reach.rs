//! What can be reached in a directed graph, and on which path.

use vstd::prelude::*;

use crate::toposort::{in_range, ints, numbers};

verus! {

/// `path` follows edges.
pub open spec fn walk(edges: Seq<Seq<int>>, path: Seq<int>) -> bool {
    forall|k: int|
        0 <= k < path.len() - 1 ==> edges[#[trigger] path[k]].contains(path[k + 1])
}

/// `path` follows edges from `a` to `b`.
pub open spec fn walks(edges: Seq<Seq<int>>, path: Seq<int>, a: int, b: int) -> bool {
    path.len() > 0 && path[0] == a && path.last() == b && walk(edges, path)
}

/// `b` can be reached from `a`.
pub open spec fn reaches(edges: Seq<Seq<int>>, a: int, b: int) -> bool {
    exists|path: Seq<int>| #[trigger] walks(edges, path, a, b)
}

/// `b` can be reached from one of `roots`.
pub open spec fn reached_from(edges: Seq<Seq<int>>, roots: Seq<int>, b: int) -> bool {
    exists|r: int| roots.contains(r) && #[trigger] reaches(edges, r, b)
}

/// Everything reaches itself.
pub proof fn reaches_self(edges: Seq<Seq<int>>, a: int)
    ensures
        reaches(edges, a, a),
{
    assert(walks(edges, seq![a], a, a));
}

/// What follows something reached is reached.
pub proof fn reaches_next(edges: Seq<Seq<int>>, a: int, b: int, c: int)
    requires
        reaches(edges, a, b),
        edges[b].contains(c),
    ensures
        reaches(edges, a, c),
{
    let path = choose|path: Seq<int>| #[trigger] walks(edges, path, a, b);
    let longer = path.push(c);
    assert forall|k: int| 0 <= k < longer.len() - 1 implies edges[#[trigger] longer[k]].contains(
        longer[k + 1],
    ) by {
        assert(longer[k] == path[k]);
        if k < path.len() - 1 {
            assert(longer[k + 1] == path[k + 1]);
        }
    }
    assert(walks(edges, longer, a, c));
}

/// Reaching goes on.
pub proof fn reaches_transitive(edges: Seq<Seq<int>>, a: int, b: int, c: int)
    requires
        reaches(edges, a, b),
        reaches(edges, b, c),
    ensures
        reaches(edges, a, c),
{
    let first = choose|path: Seq<int>| #[trigger] walks(edges, path, a, b);
    let second = choose|path: Seq<int>| #[trigger] walks(edges, path, b, c);
    let all = first + second.skip(1);
    assert forall|k: int| 0 <= k < all.len() - 1 implies edges[#[trigger] all[k]].contains(
        all[k + 1],
    ) by {
        if k < first.len() - 1 {
            assert(all[k] == first[k] && all[k + 1] == first[k + 1]);
        } else {
            let j = k - (first.len() - 1);
            assert(all[k] == second[j]);
            assert(all[k + 1] == second[j + 1]);
        }
    }
    assert(all.last() == c) by {
        if second.len() == 1 {
            assert(all =~= first);
        }
    }
    assert(walks(edges, all, a, c));
}

/// A set that is closed under edges and holds `a` holds all that `a` reaches.
pub proof fn closed_holds(edges: Seq<Seq<int>>, set: Set<int>, path: Seq<int>)
    requires
        path.len() > 0,
        walk(edges, path),
        set.contains(path[0]),
        forall|v: int, w: int| set.contains(v) && #[trigger] edges[v].contains(w) ==> set.contains(w),
    ensures
        set.contains(path.last()),
    decreases path.len(),
{
    if path.len() > 1 {
        let init = path.drop_last();
        assert forall|k: int| 0 <= k < init.len() - 1 implies edges[#[trigger] init[k]].contains(
            init[k + 1],
        ) by {
            assert(init[k] == path[k]);
        }
        closed_holds(edges, set, init);
        let n = path.len();
        assert(edges[path[n - 2]].contains(path[n - 1]));
    }
}

/// How many marks are not set.
spec fn unmarked(marks: Seq<bool>) -> nat
    decreases marks.len(),
{
    if marks.len() == 0 {
        0
    } else {
        unmarked(marks.drop_last()) + if marks.last() {
            0nat
        } else {
            1nat
        }
    }
}

/// Setting a mark leaves one less.
proof fn marked_one(marks: Seq<bool>, i: int)
    requires
        0 <= i < marks.len(),
        !marks[i],
    ensures
        unmarked(marks.update(i, true)) + 1 == unmarked(marks),
    decreases marks.len(),
{
    let now = marks.update(i, true);
    if i == marks.len() - 1 {
        assert(now.drop_last() =~= marks.drop_last());
    } else {
        assert(now.drop_last() =~= marks.drop_last().update(i, true));
        marked_one(marks.drop_last(), i);
    }
}

/// Setting marks leaves no more.
proof fn marked_more(before: Seq<bool>, now: Seq<bool>)
    requires
        before.len() == now.len(),
        forall|i: int| 0 <= i < before.len() && #[trigger] before[i] ==> now[i],
    ensures
        unmarked(now) <= unmarked(before),
    decreases before.len(),
{
    if before.len() > 0 {
        marked_more(before.drop_last(), now.drop_last());
    }
}

/// Each number stands before a larger one.
pub open spec fn rising(v: Seq<int>) -> bool {
    forall|i: int, j: int| 0 <= i < j < v.len() ==> #[trigger] v[i] < #[trigger] v[j]
}

fn no_marks(n: usize) -> (r: Vec<bool>)
    ensures
        r@.len() == n,
        forall|i: int| 0 <= i < n ==> !#[trigger] r@[i],
{
    let mut out: Vec<bool> = Vec::new();
    let mut i: usize = 0;
    while i < n
        invariant
            i <= n,
            out@.len() == i,
            forall|k: int| 0 <= k < i ==> !#[trigger] out@[k],
        decreases n - i,
    {
        out.push(false);
        i += 1;
    }
    out
}

/// All that can be reached from `roots`, in ascending order.
pub fn closure(edges: &Vec<Vec<usize>>, roots: &Vec<usize>) -> (r: Vec<usize>)
    requires
        in_range(numbers(edges@)),
        forall|k: int| 0 <= k < roots@.len() ==> #[trigger] roots@[k] < edges@.len(),
    ensures
        rising(ints(r@)),
        forall|x: int| #[trigger]
            ints(r@).contains(x) <==> reached_from(numbers(edges@), ints(roots@), x),
        forall|k: int| 0 <= k < r@.len() ==> #[trigger] r@[k] < edges@.len(),
{
    let ghost e = numbers(edges@);
    let ghost from = ints(roots@);
    let mut marks = no_marks(edges.len());
    let mut stack: Vec<usize> = Vec::new();
    let mut i: usize = 0;
    while i < roots.len()
        invariant
            i <= roots@.len(),
            stack@ == roots@.take(i as int),
        decreases roots@.len() - i,
    {
        stack.push(roots[i]);
        i += 1;
        assert(stack@ =~= roots@.take(i as int));
    }
    assert(stack@ =~= roots@);
    proof {
        assert forall|k: int| 0 <= k < stack@.len() implies reached_from(
            e,
            from,
            #[trigger] stack@[k] as int,
        ) by {
            assert(from[k] == stack@[k]);
            reaches_self(e, from[k]);
        }
        assert forall|x: int| from.contains(x) implies ints(stack@).contains(x) by {
            assert(ints(stack@) =~= from);
        }
    }
    while stack.len() > 0
        invariant
            e == numbers(edges@),
            in_range(e),
            from == ints(roots@),
            marks@.len() == edges@.len(),
            forall|k: int| 0 <= k < stack@.len() ==> #[trigger] stack@[k] < edges@.len(),
            forall|k: int|
                0 <= k < stack@.len() ==> reached_from(e, from, #[trigger] stack@[k] as int),
            forall|v: int| 0 <= v < marks@.len() && #[trigger] marks@[v] ==> reached_from(e, from, v),
            forall|x: int| #[trigger]
                from.contains(x) ==> ints(stack@).contains(x) || (0 <= x < marks@.len()
                    && marks@[x]),
            forall|v: int, w: int|
                0 <= v < marks@.len() && marks@[v] && #[trigger] e[v].contains(w) ==> ints(
                    stack@,
                ).contains(w) || (0 <= w < marks@.len() && marks@[w]),
        decreases unmarked(marks@), stack@.len(),
    {
        let ghost pending = ints(stack@);
        let ghost seen = marks@;
        let v: usize = match stack.pop() {
            Some(v) => v,
            None => {
                assert(false);
                0
            },
        };
        let ghost rest = ints(stack@);
        assert(pending =~= rest.push(v as int));
        assert forall|x: int| pending.contains(x) implies rest.contains(x) || x == v by {
            let k = pending.index_of(x);
            if k < rest.len() {
                assert(rest[k] == x);
            }
        }
        if !marks[v] {
            marks.set(v, true);
            proof {
                marked_one(seen, v as int);
            }
            let next = &edges[v];
            let mut j: usize = 0;
            while j < next.len()
                invariant
                    e == numbers(edges@),
                    in_range(e),
                    v < edges@.len(),
                    next@ == edges@[v as int]@,
                    reached_from(e, from, v as int),
                    j <= next@.len(),
                    forall|k: int| 0 <= k < stack@.len() ==> #[trigger] stack@[k] < edges@.len(),
                    forall|k: int|
                        0 <= k < stack@.len() ==> reached_from(e, from, #[trigger] stack@[k] as int),
                    forall|x: int| rest.contains(x) ==> #[trigger] ints(stack@).contains(x),
                    forall|k: int|
                        0 <= k < j ==> ints(stack@).contains(#[trigger] e[v as int][k]),
                decreases next@.len() - j,
            {
                let w: usize = next[j];
                let ghost before = ints(stack@);
                proof {
                    assert(e[v as int][j as int] == w);
                    let r = choose|r: int| from.contains(r) && #[trigger] reaches(e, r, v as int);
                    reaches_next(e, r, v as int, w as int);
                }
                stack.push(w);
                assert(ints(stack@) =~= before.push(w as int));
                assert forall|x: int| before.contains(x) || x == w implies #[trigger] ints(
                    stack@,
                ).contains(x) by {
                    if before.contains(x) {
                        assert(ints(stack@)[before.index_of(x)] == x);
                    } else {
                        assert(ints(stack@)[before.len() as int] == x);
                    }
                }
                j += 1;
            }
            assert forall|a: int, w: int|
                0 <= a < marks@.len() && marks@[a] && #[trigger] e[a].contains(w) implies ints(
                stack@,
            ).contains(w) || (0 <= w < marks@.len() && marks@[w]) by {
                if a == v {
                    let k = e[a].index_of(w);
                    assert(ints(stack@).contains(e[v as int][k]));
                } else {
                    assert(seen[a]);
                    if pending.contains(w) && w != v {
                        assert(rest.contains(w));
                    }
                }
            }
        }
    }
    let mut out: Vec<usize> = Vec::new();
    let mut v: usize = 0;
    while v < edges.len()
        invariant
            marks@.len() == edges@.len(),
            v <= edges@.len(),
            rising(ints(out@)),
            forall|k: int| 0 <= k < out@.len() ==> #[trigger] out@[k] < v && marks@[out@[k] as int],
            forall|x: int| 0 <= x < v && #[trigger] marks@[x] ==> ints(out@).contains(x),
        decreases edges@.len() - v,
    {
        if marks[v] {
            let ghost before = ints(out@);
            out.push(v);
            proof {
                let now = ints(out@);
                assert(now =~= before.push(v as int));
                assert forall|x: int| 0 <= x < v + 1 && #[trigger] marks@[x] implies now.contains(
                    x,
                ) by {
                    if x < v {
                        assert(now[before.index_of(x)] == x);
                    } else {
                        assert(now[before.len() as int] == x);
                    }
                }
                assert forall|i: int, j: int| 0 <= i < j < now.len() implies #[trigger] now[i]
                    < #[trigger] now[j] by {
                    if j < before.len() {
                        assert(before[i] < before[j]);
                    }
                }
            }
        }
        v += 1;
    }
    proof {
        let set = Set::new(|x: int| 0 <= x < marks@.len() && marks@[x]);
        assert(ints(stack@).len() == 0);
        assert forall|x: int| #[trigger] ints(out@).contains(x) <==> reached_from(e, from, x) by {
            if ints(out@).contains(x) {
                let k = ints(out@).index_of(x);
                assert(out@[k] == x);
            }
            if reached_from(e, from, x) {
                let r = choose|r: int| from.contains(r) && #[trigger] reaches(e, r, x);
                let path = choose|path: Seq<int>| #[trigger] walks(e, path, r, x);
                assert(!ints(stack@).contains(r));
                assert forall|a: int, w: int| set.contains(a) && #[trigger] e[a].contains(
                    w,
                ) implies set.contains(w) by {
                    assert(!ints(stack@).contains(w));
                }
                closed_holds(e, set, path);
                assert(marks@[x]);
            }
        }
    }
    out
}

/// Every way from `a` to `b` meets one of `avoid`.
pub open spec fn blocked(edges: Seq<Seq<int>>, avoid: Seq<int>, a: int, b: int) -> bool {
    forall|way: Seq<int>| #[trigger]
        walks(edges, way, a, b) ==> exists|m: int|
            0 <= m < way.len() && avoid.contains(#[trigger] way[m])
}

/// Behind its first `k + 1` places, `path` goes on along the first edge that
/// leads to `to` without coming back to them.
pub open spec fn goes_on(edges: Seq<Seq<int>>, path: Seq<int>, k: int, to: int) -> bool {
    exists|j: int|
        0 <= j < edges[path[k]].len() && #[trigger] edges[path[k]][j] == path[k + 1] && forall|i: int|
            0 <= i < j ==> blocked(edges, path.take(k + 1), #[trigger] edges[path[k]][i], to)
}

/// `path` takes at each place the first edge that leads to `to`.
pub open spec fn depth_first(edges: Seq<Seq<int>>, path: Seq<int>, to: int) -> bool {
    forall|k: int| 0 <= k < path.len() - 1 ==> #[trigger] goes_on(edges, path, k, to)
}

/// From what was left behind, nothing leads to `to` but through the path.
proof fn left_is_blocked(
    edges: Seq<Seq<int>>,
    seen: Seq<bool>,
    path: Seq<int>,
    a: int,
    to: int,
)
    requires
        0 <= a < seen.len(),
        seen[a],
        left_behind(edges, seen, path, to),
    ensures
        blocked(edges, path, a, to),
{
    assert forall|way: Seq<int>| #[trigger] walks(edges, way, a, to) implies exists|m: int|
        0 <= m < way.len() && path.contains(#[trigger] way[m]) by {
        meets_path(edges, seen, path, way, to);
    }
}

/// What was seen and is not on the path is not `to` and leads only to what was
/// seen.
#[verifier::opaque]
spec fn left_behind(edges: Seq<Seq<int>>, seen: Seq<bool>, path: Seq<int>, to: int) -> bool {
    forall|v: int|
        0 <= v < seen.len() && #[trigger] seen[v] && !path.contains(v) ==> v != to && forall|w: int|
            #[trigger] edges[v].contains(w) ==> 0 <= w < seen.len() && seen[w]
}

/// A path that grows by a place just seen leaves nothing else behind.
proof fn left_by_push(edges: Seq<Seq<int>>, seen: Seq<bool>, path: Seq<int>, v: int, to: int)
    requires
        0 <= v < seen.len(),
        left_behind(edges, seen, path, to),
    ensures
        left_behind(edges, seen.update(v, true), path.push(v), to),
{
    reveal(left_behind);
    let now = path.push(v);
    assert(now[path.len() as int] == v);
    assert forall|x: int| path.contains(x) implies now.contains(x) by {
        assert(now[path.index_of(x)] == x);
    }
}

/// What a search without success has seen is left behind.
proof fn left_by_search(
    edges: Seq<Seq<int>>,
    before: Seq<bool>,
    after: Seq<bool>,
    path: Seq<int>,
    to: int,
)
    requires
        before.len() == after.len() == edges.len(),
        forall|v: int| 0 <= v < edges.len() && #[trigger] before[v] ==> after[v],
        forall|v: int| 0 <= v < edges.len() && !before[v] && #[trigger] after[v] ==> v != to,
        forall|v: int, w: int|
            0 <= v < edges.len() && !before[v] && after[v] && #[trigger] edges[v].contains(w) ==> 0
                <= w < edges.len() && after[w],
        left_behind(edges, before, path, to),
    ensures
        left_behind(edges, after, path, to),
{
    reveal(left_behind);
    assert forall|v: int| 0 <= v < after.len() && #[trigger] after[v] && !path.contains(
        v,
    ) implies v != to && forall|w: int| #[trigger]
        edges[v].contains(w) ==> 0 <= w < after.len() && after[w] by {
        if before[v] {
            assert forall|w: int| #[trigger] edges[v].contains(w) implies 0 <= w < after.len()
                && after[w] by {
                assert(before[w]);
            }
        }
    }
}

/// A search that succeeds from the `j`-th edge of the last place of a path, and
/// not from an edge before it, goes on as it should.
proof fn goes_on_here(
    edges: Seq<Seq<int>>,
    seen: Seq<bool>,
    here: Seq<int>,
    path: Seq<int>,
    j: int,
    to: int,
)
    requires
        in_range(edges),
        seen.len() == edges.len(),
        0 < here.len() < path.len(),
        path.take(here.len() as int) == here,
        0 <= here.last() < edges.len(),
        0 <= j < edges[here.last()].len(),
        path[here.len() as int] == edges[here.last()][j],
        forall|k: int| 0 <= k < j ==> seen[#[trigger] edges[here.last()][k]],
        left_behind(edges, seen, here, to),
    ensures
        goes_on(edges, path, here.len() - 1, to),
{
    let k = here.len() - 1;
    assert(path.take(k + 1) == here);
    assert(path[k] == here[k]);
    assert(edges[path[k]][j] == path[k + 1]);
    assert forall|i: int| 0 <= i < j implies blocked(
        edges,
        path.take(k + 1),
        #[trigger] edges[path[k]][i],
        to,
    ) by {
        left_is_blocked(edges, seen, here, edges[path[k]][i], to);
    }
}

proof fn meets_path(
    edges: Seq<Seq<int>>,
    seen: Seq<bool>,
    path: Seq<int>,
    way: Seq<int>,
    to: int,
)
    requires
        way.len() > 0,
        walk(edges, way),
        way.last() == to,
        0 <= way[0] < seen.len(),
        seen[way[0]],
        left_behind(edges, seen, path, to),
    ensures
        exists|m: int| 0 <= m < way.len() && path.contains(#[trigger] way[m]),
    decreases way.len(),
{
    reveal(left_behind);
    if !path.contains(way[0]) {
        assert(way.len() > 1);
        let rest = way.skip(1);
        assert(edges[way[0]].contains(way[1]));
        assert forall|k: int| 0 <= k < rest.len() - 1 implies edges[#[trigger] rest[k]].contains(
            rest[k + 1],
        ) by {
            assert(rest[k] == way[k + 1] && rest[k + 1] == way[k + 2]);
        }
        assert(rest[0] == way[1] && rest.last() == way.last());
        meets_path(edges, seen, path, rest, to);
        let m = choose|m: int| 0 <= m < rest.len() && path.contains(#[trigger] rest[m]);
        assert(path.contains(way[m + 1]));
    }
}

/// Only one path takes at each place the first edge that leads to its end and
/// comes to no place twice.
pub proof fn depth_first_unique(edges: Seq<Seq<int>>, p: Seq<int>, q: Seq<int>, a: int, b: int)
    requires
        walks(edges, p, a, b),
        walks(edges, q, a, b),
        p.no_duplicates(),
        q.no_duplicates(),
        depth_first(edges, p, b),
        depth_first(edges, q, b),
    ensures
        p == q,
{
    agree(edges, p, q, a, b, if p.len() < q.len() { p.len() } else { q.len() });
    if p.len() < q.len() {
        let n = p.len() as int;
        assert(p.take(n)[n - 1] == q.take(n)[n - 1]);
        assert(q[n - 1] == q.last());
    }
    if q.len() < p.len() {
        let n = q.len() as int;
        assert(p.take(n)[n - 1] == q.take(n)[n - 1]);
        assert(p[n - 1] == p.last());
    }
    assert(p.take(p.len() as int) =~= p && q.take(q.len() as int) =~= q);
}

proof fn agree(edges: Seq<Seq<int>>, p: Seq<int>, q: Seq<int>, a: int, b: int, n: nat)
    requires
        walks(edges, p, a, b),
        walks(edges, q, a, b),
        p.no_duplicates(),
        q.no_duplicates(),
        depth_first(edges, p, b),
        depth_first(edges, q, b),
        n <= p.len(),
        n <= q.len(),
    ensures
        p.take(n as int) == q.take(n as int),
    decreases n,
{
    if n <= 1 {
        assert(p.take(n as int) =~= q.take(n as int));
    } else {
        agree(edges, p, q, a, b, (n - 1) as nat);
        let k = n - 2;
        assert(p.take(k + 1)[k] == p[k] && q.take(k + 1)[k] == q[k]);
        assert(goes_on(edges, p, k, b) && goes_on(edges, q, k, b));
        let i = choose|j: int|
            0 <= j < edges[p[k]].len() && #[trigger] edges[p[k]][j] == p[k + 1] && forall|i: int|
                0 <= i < j ==> blocked(edges, p.take(k + 1), #[trigger] edges[p[k]][i], b);
        let j = choose|j: int|
            0 <= j < edges[q[k]].len() && #[trigger] edges[q[k]][j] == q[k + 1] && forall|i: int|
                0 <= i < j ==> blocked(edges, q.take(k + 1), #[trigger] edges[q[k]][i], b);
        tail_is_open(edges, p, k, b);
        tail_is_open(edges, q, k, b);
        assert(i == j);
        assert(p.take(n as int) =~= p.take(k + 1).push(p[k + 1]));
        assert(q.take(n as int) =~= q.take(k + 1).push(q[k + 1]));
    }
}

/// The rest of a path that comes to no place twice does not come back.
proof fn tail_is_open(edges: Seq<Seq<int>>, p: Seq<int>, k: int, b: int)
    requires
        0 <= k < p.len() - 1,
        walk(edges, p),
        p.last() == b,
        p.no_duplicates(),
    ensures
        !blocked(edges, p.take(k + 1), p[k + 1], b),
{
    let way = p.skip(k + 1);
    assert forall|m: int| 0 <= m < way.len() - 1 implies edges[#[trigger] way[m]].contains(
        way[m + 1],
    ) by {
        assert(way[m] == p[k + 1 + m] && way[m + 1] == p[k + 2 + m]);
    }
    assert(walks(edges, way, p[k + 1], b));
    assert forall|m: int| 0 <= m < way.len() implies !p.take(k + 1).contains(
        #[trigger] way[m],
    ) by {
        assert(way[m] == p[k + 1 + m]);
    }
}

/// Looks for `to` from `current` on, depth first. `path` leads to `current`
/// and is left as it was where `to` is not found.
fn visit(
    edges: &Vec<Vec<usize>>,
    current: usize,
    to: usize,
    path: &mut Vec<usize>,
    seen: &mut Vec<bool>,
) -> (r: bool)
    requires
        in_range(numbers(edges@)),
        current < edges@.len(),
        old(seen)@.len() == edges@.len(),
        walk(numbers(edges@), ints(old(path)@)),
        old(path)@.len() > 0 ==> numbers(edges@)[old(path)@.last() as int].contains(
            current as int,
        ),
        ints(old(path)@).no_duplicates(),
        forall|k: int|
            0 <= k < old(path)@.len() ==> (#[trigger] old(path)@[k]) < edges@.len() && old(
                seen,
            )@[old(path)@[k] as int],
        left_behind(numbers(edges@), old(seen)@, ints(old(path)@), to as int),
    ensures
        final(seen)@.len() == edges@.len(),
        forall|v: int| 0 <= v < edges@.len() && #[trigger] old(seen)@[v] ==> final(seen)@[v],
        r ==> walk(numbers(edges@), ints(final(path)@)) && ints(final(path)@).no_duplicates()
            && final(path)@.len() > old(path)@.len() && final(path)@.take(old(path)@.len() as int)
            == old(path)@ && final(path)@[old(path)@.len() as int] == current
            && final(path)@.last() == to && (forall|k: int|
            0 <= k < final(path)@.len() ==> #[trigger] final(path)@[k] < edges@.len()) && (
        forall|k: int|
            old(path)@.len() <= k < final(path)@.len() - 1 ==> #[trigger] goes_on(
                numbers(edges@),
                ints(final(path)@),
                k,
                to as int,
            )),
        !r ==> final(path)@ == old(path)@ && final(seen)@[current as int] && (forall|v: int|
            0 <= v < edges@.len() && !old(seen)@[v] && #[trigger] final(seen)@[v] ==> v != to) && (
        forall|v: int, w: int|
            0 <= v < edges@.len() && !old(seen)@[v] && final(seen)@[v] && #[trigger] numbers(
                edges@,
            )[v].contains(w) ==> 0 <= w < edges@.len() && final(seen)@[w]),
    decreases unmarked(old(seen)@),
{
    let ghost e = numbers(edges@);
    let ghost p0 = ints(path@);
    let ghost s0 = seen@;
    if seen[current] {
        return false;
    }
    seen.set(current, true);
    proof {
        marked_one(s0, current as int);
    }
    path.push(current);
    let ghost p1 = ints(path@);
    proof {
        assert(p1 =~= p0.push(current as int));
        assert forall|k: int| 0 <= k < p1.len() - 1 implies e[#[trigger] p1[k]].contains(
            p1[k + 1],
        ) by {
            assert(p1[k] == p0[k]);
            if k < p0.len() - 1 {
                assert(p1[k + 1] == p0[k + 1]);
            } else {
                assert(p0[k] == old(path)@.last());
            }
        }
        assert forall|i: int, j: int| 0 <= i < p1.len() && 0 <= j < p1.len() && i != j implies p1[i]
            != p1[j] by {
            if i == p0.len() && j < p0.len() {
                assert(s0[old(path)@[j] as int]);
            }
            if j == p0.len() && i < p0.len() {
                assert(s0[old(path)@[i] as int]);
            }
        }
        assert(path@.take(old(path)@.len() as int) =~= old(path)@);
    }
    if current == to {
        return true;
    }
    let next = &edges[current];
    let ghost here = path@;
    proof {
        left_by_push(e, s0, p0, current as int, to as int);
    }
    let mut j: usize = 0;
    while j < next.len()
        invariant
            e == numbers(edges@),
            in_range(e),
            current < edges@.len(),
            current != to,
            next@ == edges@[current as int]@,
            j <= next@.len(),
            path@ == here,
            here == old(path)@.push(current),
            p1 == ints(here),
            walk(e, p1),
            p1.no_duplicates(),
            s0 == old(seen)@,
            s0.len() == edges@.len(),
            seen@.len() == edges@.len(),
            seen@[current as int],
            !s0[current as int],
            unmarked(seen@) < unmarked(s0),
            forall|k: int|
                0 <= k < here.len() ==> (#[trigger] here[k]) < edges@.len() && seen@[here[k] as int],
            forall|v: int| 0 <= v < edges@.len() && #[trigger] s0[v] ==> seen@[v],
            forall|v: int|
                0 <= v < edges@.len() && !s0[v] && #[trigger] seen@[v] ==> v != to,
            forall|v: int, w: int|
                0 <= v < edges@.len() && v != current && !s0[v] && seen@[v] && #[trigger] e[v].contains(
                    w,
                ) ==> 0 <= w < edges@.len() && seen@[w],
            forall|k: int| 0 <= k < j ==> seen@[#[trigger] e[current as int][k]],
            left_behind(e, seen@, p1, to as int),
        decreases next@.len() - j,
    {
        let w: usize = next[j];
        let ghost s1 = seen@;
        proof {
            assert(e[current as int][j as int] == w);
            assert(e[current as int].contains(w as int));
            assert(here.last() == current);
        }
        if visit(edges, w, to, path, seen) {
            proof {
                let n = old(path)@.len() as int;
                assert(path@.take(n) =~= path@.take(here.len() as int).take(n));
                assert(here.take(n) =~= old(path)@);
                assert(path@.take(here.len() as int)[n] == path@[n]);
                let p = ints(path@);
                assert(p.take(p1.len() as int) =~= p1);
                assert(p1.last() == current);
                goes_on_here(e, s1, p1, p, j as int, to as int);
            }
            return true;
        }
        proof {
            marked_more(s1, seen@);
            assert forall|v: int, w2: int|
                0 <= v < edges@.len() && v != current && !s0[v] && seen@[v] && #[trigger] e[v].contains(
                    w2,
                ) implies 0 <= w2 < edges@.len() && seen@[w2] by {
                if s1[v] {
                    assert(s1[w2]);
                }
            }
            assert forall|v: int| 0 <= v < edges@.len() && !s0[v] && #[trigger] seen@[v] implies v
                != to by {
                if s1[v] {
                }
            }
            left_by_search(e, s1, seen@, p1, to as int);
        }
        j += 1;
    }
    let _ = path.pop();
    proof {
        assert(path@ =~= old(path)@);
        assert forall|v: int, w: int|
            0 <= v < edges@.len() && !s0[v] && seen@[v] && #[trigger] e[v].contains(w) implies 0
            <= w < edges@.len() && seen@[w] by {
            if v == current {
                let k = e[v].index_of(w);
                assert(seen@[e[current as int][k]]);
                assert(0 <= e[v][k] < e.len());
            }
        }
    }
    false
}

/// The path from `from` to `to` that takes at each place the first edge that
/// leads on and visits nothing twice; none where there is no path.
pub fn find_path(edges: &Vec<Vec<usize>>, from: usize, to: usize) -> (r: Option<Vec<usize>>)
    requires
        in_range(numbers(edges@)),
        from < edges@.len(),
    ensures
        match r {
            Some(path) => walks(numbers(edges@), ints(path@), from as int, to as int) && ints(
                path@,
            ).no_duplicates() && (forall|k: int|
                0 <= k < path@.len() ==> #[trigger] path@[k] < edges@.len()) && depth_first(
                numbers(edges@),
                ints(path@),
                to as int,
            ),
            None => !reaches(numbers(edges@), from as int, to as int),
        },
{
    let ghost e = numbers(edges@);
    let mut seen = no_marks(edges.len());
    let mut path: Vec<usize> = Vec::new();
    let ghost s0 = seen@;
    assert(left_behind(e, s0, ints(path@), to as int)) by {
        reveal(left_behind);
    }
    if visit(edges, from, to, &mut path, &mut seen) {
        proof {
            assert(ints(path@)[0] == from);
            assert(ints(path@).last() == to);
        }
        return Some(path);
    }
    proof {
        if reaches(e, from as int, to as int) {
            let way = choose|way: Seq<int>| #[trigger] walks(e, way, from as int, to as int);
            let set = Set::new(|x: int| 0 <= x < seen@.len() && seen@[x]);
            assert forall|v: int, w: int| set.contains(v) && #[trigger] e[v].contains(
                w,
            ) implies set.contains(w) by {
                assert(!s0[v]);
            }
            closed_holds(e, set, way);
            assert(seen@[to as int]);
            assert(!s0[to as int]);
        }
    }
    None
}

} // verus!
