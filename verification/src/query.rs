//! Questions to a build graph: what targets need, what needs them, and on
//! which path.

use vstd::prelude::*;
use vstd::string::*;

use crate::graph::{action_ok, ids_ok, made_by, BuildGraph, FileNode};
use crate::manifest::TargetKind;
use crate::reach::{closure, depth_first, find_path, reached_from, reaches, rising, walk, walks};
use crate::sorted_map::ascending;
use crate::text::{copy, debug_text, group_texts, quoted, texts};
use crate::toposort::{
    build_order, cycle, deps_first, first_cycle, in_range, ints, numbers, toposort,
};

verus! {

/// A name that no target has.
#[derive(Debug)]
pub struct UnknownTarget {
    pub name: String,
}

impl UnknownTarget {
    /// Reports the name.
    pub fn message(&self) -> (r: String)
        ensures
            r@ == "unknown target "@ + debug_text(self.name@),
    {
        let mut out = copy("unknown target ");
        out.append(&quoted(&self.name));
        out
    }
}

/// The actions that write the first `n` of some files.
pub open spec fn producers(files: Seq<FileNode>, ids: Seq<usize>, n: nat) -> Seq<int>
    decreases n,
{
    if n == 0 {
        Seq::empty()
    } else {
        let before = producers(files, ids, (n - 1) as nat);
        let a = made_by(files[ids[n - 1] as int]);
        if a >= 0 {
            before.push(a)
        } else {
            before
        }
    }
}

/// The actions that must run before an action.
pub open spec fn needed(g: BuildGraph, a: int) -> Seq<int> {
    let action = g.actions@[a];
    producers(g.files@, action.inputs@, action.inputs@.len()) + producers(
        g.files@,
        action.order_only_inputs@,
        action.order_only_inputs@.len(),
    )
}

/// For each action those that must run before it.
pub open spec fn needs(g: BuildGraph) -> Seq<Seq<int>> {
    Seq::new(g.actions@.len(), |a: int| needed(g, a))
}

/// For each target those that it depends on, by position.
pub open spec fn dep_edges(g: BuildGraph) -> Seq<Seq<int>> {
    Seq::new(
        g.targets.values@.len(),
        |i: int|
            Seq::new(
                g.targets.values@[i].deps@.len(),
                |j: int| g.targets.spot(g.targets.values@[i].deps@[j]@),
            ),
    )
}

/// The actions of the first `n` of some targets.
pub open spec fn root_actions(g: BuildGraph, names: Seq<Seq<char>>, n: nat) -> Seq<int>
    decreases n,
{
    if n == 0 {
        Seq::empty()
    } else {
        root_actions(g, names, (n - 1) as nat) + ints(g.targets.at(names[n - 1]).actions@)
    }
}

/// The positions of some targets.
pub open spec fn spots(g: BuildGraph, names: Seq<Seq<char>>) -> Seq<int> {
    names.map_values(|name: Seq<char>| g.targets.spot(name))
}

/// One target depends on another, directly or through others, or is it.
pub open spec fn depends(g: BuildGraph, a: Seq<char>, b: Seq<char>) -> bool {
    g.targets.has(a) && g.targets.has(b) && reaches(
        dep_edges(g),
        g.targets.spot(a),
        g.targets.spot(b),
    )
}

/// Adds the actions that write some files.
fn add_producers(g: &BuildGraph, ids: &Vec<usize>, out: &mut Vec<usize>)
    requires
        g.wf(),
        ids_ok(g.files@.len(), ids@),
        forall|k: int| 0 <= k < old(out)@.len() ==> #[trigger] old(out)@[k] < g.actions@.len(),
    ensures
        ints(final(out)@) == ints(old(out)@) + producers(g.files@, ids@, ids@.len()),
        forall|k: int|
            0 <= k < final(out)@.len() ==> #[trigger] final(out)@[k] < g.actions@.len(),
{
    let ghost before = ints(out@);
    let mut i: usize = 0;
    assert(before + Seq::<int>::empty() =~= before);
    while i < ids.len()
        invariant
            g.wf(),
            ids_ok(g.files@.len(), ids@),
            i <= ids@.len(),
            ints(out@) == before + producers(g.files@, ids@, i as nat),
            forall|k: int| 0 <= k < out@.len() ==> #[trigger] out@[k] < g.actions@.len(),
        decreases ids@.len() - i,
    {
        assert(ids@[i as int] < g.files@.len());
        let file = &g.files[ids[i]];
        assert(made_by(g.files@[ids@[i as int] as int]) < g.actions@.len());
        if let Some(a) = file.producer {
            let ghost was = ints(out@);
            out.push(a);
            assert(ints(out@) =~= was.push(a as int));
            assert(was.push(a as int) =~= before + producers(g.files@, ids@, (i + 1) as nat));
        }
        i += 1;
    }
}

/// For each action those that must run before it.
pub(crate) fn need_lists(g: &BuildGraph) -> (r: Vec<Vec<usize>>)
    requires
        g.wf(),
    ensures
        numbers(r@) == needs(*g),
        in_range(numbers(r@)),
{
    let ghost all = needs(*g);
    let mut out: Vec<Vec<usize>> = Vec::new();
    let mut a: usize = 0;
    while a < g.actions.len()
        invariant
            g.wf(),
            all == needs(*g),
            a <= g.actions@.len(),
            out@.len() == a,
            forall|k: int| 0 <= k < a ==> #[trigger] ints(out@[k]@) == all[k],
            forall|k: int, j: int|
                0 <= k < a && 0 <= j < out@[k]@.len() ==> #[trigger] out@[k]@[j] < g.actions@.len(),
        decreases g.actions@.len() - a,
    {
        let action = &g.actions[a];
        let mut own: Vec<usize> = Vec::new();
        add_producers(g, &action.inputs, &mut own);
        add_producers(g, &action.order_only_inputs, &mut own);
        assert(ints(own@) =~= all[a as int]);
        out.push(own);
        a += 1;
    }
    proof {
        lists_are(out@, all);
        assert forall|k: int, j: int|
            0 <= k < numbers(out@).len() && 0 <= j < numbers(out@)[k].len() implies 0
            <= #[trigger] numbers(out@)[k][j] < numbers(out@).len() by {
            assert(out@[k]@[j] < g.actions@.len());
        }
    }
    out
}

/// Lists that hold the numbers of `all` are `all`.
proof fn lists_are(lists: Seq<Vec<usize>>, all: Seq<Seq<int>>)
    requires
        lists.len() == all.len(),
        forall|k: int| 0 <= k < lists.len() ==> #[trigger] ints(lists[k]@) == all[k],
    ensures
        numbers(lists) == all,
{
    assert forall|k: int| 0 <= k < all.len() implies numbers(lists)[k] == all[k] by {
        assert(ints(lists[k]@) == all[k]);
        assert(numbers(lists)[k] =~= ints(lists[k]@));
    }
    assert(numbers(lists) =~= all);
}

/// For each target those that it depends on, by position.
fn dep_lists(g: &BuildGraph) -> (r: Vec<Vec<usize>>)
    requires
        g.wf(),
    ensures
        numbers(r@) == dep_edges(*g),
        in_range(numbers(r@)),
{
    let ghost all = dep_edges(*g);
    let mut out: Vec<Vec<usize>> = Vec::new();
    let mut i: usize = 0;
    while i < g.targets.values.len()
        invariant
            g.wf(),
            all == dep_edges(*g),
            i <= g.targets.values@.len(),
            out@.len() == i,
            forall|k: int| 0 <= k < i ==> #[trigger] ints(out@[k]@) == all[k],
            forall|k: int, j: int|
                0 <= k < i && 0 <= j < out@[k]@.len() ==> #[trigger] out@[k]@[j]
                    < g.targets.values@.len(),
        decreases g.targets.values@.len() - i,
    {
        let deps = &g.targets.values[i].deps;
        let mut own: Vec<usize> = Vec::new();
        let mut j: usize = 0;
        while j < deps.len()
            invariant
                g.wf(),
                all == dep_edges(*g),
                i < g.targets.values@.len(),
                *deps == g.targets.values@[i as int].deps,
                j <= deps@.len(),
                own@.len() == j,
                forall|k: int|
                    0 <= k < j ==> #[trigger] own@[k] == all[i as int][k] && own@[k]
                        < g.targets.values@.len(),
            decreases deps@.len() - j,
        {
            assert(g.target_ok(i as int));
            assert(g.targets.has(g.targets.values@[i as int].deps@[j as int]@));
            match g.targets.find(&deps[j]) {
                Some(at) => {
                    own.push(at);
                },
                None => {
                    assert(false);
                },
            }
            j += 1;
        }
        assert(ints(own@) =~= all[i as int]);
        out.push(own);
        i += 1;
    }
    proof {
        lists_are(out@, all);
        assert forall|k: int, j: int|
            0 <= k < numbers(out@).len() && 0 <= j < numbers(out@)[k].len() implies 0
            <= #[trigger] numbers(out@)[k][j] < numbers(out@).len() by {
            assert(out@[k]@[j] < g.targets.values@.len());
        }
    }
    out
}

/// The names at ascending positions, which ascend too.
fn names_of(g: &BuildGraph, ids: &Vec<usize>) -> (r: Vec<String>)
    requires
        g.targets.wf(),
        rising(ints(ids@)),
        ids_ok(g.targets.keys@.len(), ids@),
    ensures
        ascending(texts(r@)),
        texts(r@) == Seq::new(ids@.len(), |k: int| g.targets.names()[ids@[k] as int]),
{
    broadcast use group_texts;
    let ghost all = Seq::new(ids@.len(), |k: int| g.targets.names()[ids@[k] as int]);
    let mut out: Vec<String> = Vec::new();
    let mut k: usize = 0;
    while k < ids.len()
        invariant
            g.targets.wf(),
            ids_ok(g.targets.keys@.len(), ids@),
            all == Seq::new(ids@.len(), |k: int| g.targets.names()[ids@[k] as int]),
            k <= ids@.len(),
            texts(out@) =~= all.take(k as int),
        decreases ids@.len() - k,
    {
        assert(ids@[k as int] < g.targets.keys@.len());
        assert(all.take(k + 1) =~= all.take(k as int).push(all[k as int]));
        out.push(copy(&g.targets.keys[ids[k]]));
        k += 1;
    }
    assert(texts(out@) =~= all);
    assert forall|i: int, j: int| 0 <= i < j < all.len() implies crate::text::before(
        #[trigger] all[i],
        #[trigger] all[j],
    ) by {
        assert(ints(ids@)[i] < ints(ids@)[j]);
        assert(ids@[j] < g.targets.keys@.len());
    }
    out
}

/// Every action of `order` stands behind those of it that it needs.
pub open spec fn behind_needs(needs: Seq<Seq<int>>, order: Seq<int>) -> bool {
    forall|k: int, j: int|
        0 <= k < order.len() && 0 <= j < needs[order[k]].len() && order.contains(
            #[trigger] needs[order[k]][j],
        ) ==> order.take(k).contains(needs[order[k]][j])
}

/// The actions of a closure in an order in which each stands behind those that
/// it needs. The error is a cycle of actions.
pub fn run_order(graph: &BuildGraph, closure: &Vec<usize>) -> (r: Result<Vec<usize>, Vec<usize>>)
    requires
        graph.wf(),
        ids_ok(graph.actions@.len(), closure@),
    ensures
        match r {
            Ok(order) => {
                &&& first_cycle(needs(*graph)) is None
                &&& ints(order@) == build_order(needs(*graph)).filter(
                    |a: int| ints(closure@).contains(a),
                )
                &&& ints(order@).no_duplicates()
                &&& forall|a: int| #[trigger]
                    ints(order@).contains(a) <==> ints(closure@).contains(a)
                &&& behind_needs(needs(*graph), ints(order@))
                &&& ids_ok(graph.actions@.len(), order@)
            },
            Err(found) => first_cycle(needs(*graph)) == Some(ints(found@)) && cycle(
                needs(*graph),
                ints(found@),
            ),
        },
{
    let ghost edges = needs(*graph);
    let ghost asked = ints(closure@);
    let ghost inside = |a: int| asked.contains(a);
    let lists = need_lists(graph);
    let mut wanted: Vec<bool> = Vec::new();
    let n: usize = graph.actions.len();
    assert(numbers(lists@).len() == lists@.len());
    let mut i: usize = 0;
    while i < n
        invariant
            i <= n,
            wanted@.len() == i,
            forall|k: int| 0 <= k < i ==> !#[trigger] wanted@[k],
        decreases n - i,
    {
        wanted.push(false);
        i += 1;
    }
    let mut c: usize = 0;
    while c < closure.len()
        invariant
            n == graph.actions@.len(),
            ids_ok(graph.actions@.len(), closure@),
            asked == ints(closure@),
            c <= closure@.len(),
            wanted@.len() == n,
            forall|k: int| 0 <= k < n ==> #[trigger] wanted@[k] == asked.take(c as int).contains(k),
        decreases closure@.len() - c,
    {
        let ghost before = asked.take(c as int);
        assert(closure@[c as int] < n);
        wanted.set(closure[c], true);
        proof {
            let a = asked[c as int];
            assert(asked.take(c + 1) =~= before.push(a));
            assert forall|k: int| 0 <= k < n implies #[trigger] wanted@[k] == asked.take(
                c + 1,
            ).contains(k) by {
                if before.contains(k) {
                    assert(before.push(a)[before.index_of(k)] == k);
                }
                if k == a {
                    assert(before.push(a)[before.len() as int] == k);
                }
                if before.push(a).contains(k) && k != a {
                    let at = before.push(a).index_of(k);
                    assert(before[at] == k);
                }
            }
        }
        c += 1;
    }
    assert(asked.take(c as int) =~= asked);
    let all = match toposort(&lists) {
        Ok(all) => all,
        Err(found) => {
            return Err(found);
        },
    };
    let ghost whole = ints(all@);
    let mut order: Vec<usize> = Vec::new();
    let mut i: usize = 0;
    proof {
        reveal(Seq::filter);
        assert(whole.take(0) =~= Seq::empty());
        assert(ints(order@) =~= Seq::empty());
    }
    while i < all.len()
        invariant
            n == graph.actions@.len(),
            edges == needs(*graph),
            edges.len() == n,
            asked == ints(closure@),
            inside == (|a: int| asked.contains(a)),
            whole == ints(all@),
            whole.no_duplicates(),
            deps_first(edges, whole),
            forall|t: int| 0 <= t < n <==> #[trigger] whole.contains(t),
            wanted@.len() == n,
            forall|k: int| 0 <= k < n ==> #[trigger] wanted@[k] == asked.contains(k),
            i <= all@.len(),
            ints(order@) == whole.take(i as int).filter(inside),
            ints(order@).no_duplicates(),
            ids_ok(n as nat, order@),
            forall|a: int| #[trigger]
                ints(order@).contains(a) <==> whole.take(i as int).contains(a) && asked.contains(
                    a,
                ),
            behind_needs(edges, ints(order@)),
        decreases all@.len() - i,
    {
        let a: usize = all[i];
        let ghost so_far = whole.take(i as int);
        proof {
            assert(whole[i as int] == a);
            assert(whole.contains(a as int));
            assert(whole.take(i + 1) =~= so_far.push(a as int));
            so_far.lemma_filter_push(a as int, inside);
            assert forall|x: int| whole.take(i + 1).contains(x) <==> so_far.contains(x) || x
                == a by {
                if so_far.contains(x) {
                    assert(so_far.push(a as int)[so_far.index_of(x)] == x);
                }
                if x == a {
                    assert(so_far.push(a as int)[so_far.len() as int] == x);
                }
                if so_far.push(a as int).contains(x) && x != a {
                    assert(so_far[so_far.push(a as int).index_of(x)] == x);
                }
            }
            assert(!so_far.contains(a as int)) by {
                if so_far.contains(a as int) {
                    let k = so_far.index_of(a as int);
                    assert(whole[k] == whole[i as int]);
                }
            }
        }
        if wanted[a] {
            let ghost before = ints(order@);
            order.push(a);
            proof {
                joins_behind(edges, whole, asked, before, i as int);
                assert(ints(order@) =~= before.push(a as int));
            }
        }
        i += 1;
    }
    assert(whole.take(i as int) =~= whole);
    proof {
        assert forall|a: int| #[trigger] ints(order@).contains(a) <==> asked.contains(a) by {
            if asked.contains(a) {
                let k = asked.index_of(a);
                assert(asked[k] == closure@[k]);
                assert(whole.contains(a));
            }
        }
    }
    Ok(order)
}

/// The next action of the whole order joins an order behind all that it needs.
proof fn joins_behind(
    edges: Seq<Seq<int>>,
    whole: Seq<int>,
    asked: Seq<int>,
    before: Seq<int>,
    i: int,
)
    requires
        0 <= i < whole.len(),
        deps_first(edges, whole),
        behind_needs(edges, before),
        before.no_duplicates(),
        forall|a: int| #[trigger]
            before.contains(a) <==> whole.take(i).contains(a) && asked.contains(a),
        asked.contains(whole[i]),
        !whole.take(i).contains(whole[i]),
        whole.no_duplicates(),
    ensures
        behind_needs(edges, before.push(whole[i])),
        before.push(whole[i]).no_duplicates(),
        forall|a: int| #[trigger]
            before.push(whole[i]).contains(a) <==> before.contains(a) || a == whole[i],
{
    let a = whole[i];
    let after = before.push(a);
    assert(!before.contains(a));
    assert forall|x: int| #[trigger] after.contains(x) <==> before.contains(x) || x == a by {
        if before.contains(x) {
            assert(after[before.index_of(x)] == x);
        }
        if x == a {
            assert(after[before.len() as int] == x);
        }
        if after.contains(x) && x != a {
            assert(before[after.index_of(x)] == x);
        }
    }
    assert forall|k: int, j: int|
        0 <= k < after.len() && 0 <= j < edges[after[k]].len() && after.contains(
            #[trigger] edges[after[k]][j],
        ) implies after.take(k).contains(edges[after[k]][j]) by {
        let need = edges[after[k]][j];
        if k < before.len() {
            assert(after[k] == before[k]);
            assert(after.take(k) =~= before.take(k));
            // What stands before `a` in the whole order needs nothing from `a` on.
            assert(before.contains(before[k]));
            let at = whole.take(i).index_of(before[k]);
            assert(whole[at] == before[k]);
            assert(edges[whole[at]][j] == need);
            assert(whole.take(at).contains(need));
            let p = whole.take(at).index_of(need);
            assert(whole[p] == need);
            assert(need != a) by {
                assert(whole[p] == whole.take(i)[p]);
            }
            assert(before.contains(need));
        } else {
            assert(after.take(k) =~= before);
            assert(edges[whole[i]][j] == need);
            assert(whole.take(i).contains(need));
            assert(need != a);
        }
    }
    assert forall|x: int, y: int| 0 <= x < y < after.len() implies after[x] != after[y] by {
        if y == before.len() {
            assert(before.contains(before[x]));
        }
    }
}

/// The actions that are reached from some, in the order in which they run: each
/// behind those that it needs, where no action needs itself through others,
/// and else in ascending order.
pub open spec fn closure_order(g: BuildGraph, roots: Seq<int>, actions: Seq<int>) -> bool {
    match first_cycle(needs(g)) {
        None => actions == build_order(needs(g)).filter(
            |a: int| reached_from(needs(g), roots, a),
        ) && behind_needs(needs(g), actions),
        Some(_) => rising(actions),
    }
}

impl BuildGraph {
    /// All actions needed to build the given targets, in a valid dependency
    /// order.
    pub fn action_closure(&self, targets: &Vec<String>) -> (r: Result<Vec<usize>, UnknownTarget>)
        requires
            self.wf(),
        ensures
            match r {
                Ok(actions) => (forall|k: int|
                    0 <= k < targets@.len() ==> self.targets.has((#[trigger] targets@[k])@))
                    && closure_order(
                    *self,
                    root_actions(*self, texts(targets@), targets@.len()),
                    ints(actions@),
                ) && ints(actions@).no_duplicates() && (forall|a: int| #[trigger]
                    ints(actions@).contains(a) <==> reached_from(
                        needs(*self),
                        root_actions(*self, texts(targets@), targets@.len()),
                        a,
                    )) && ids_ok(self.actions@.len(), actions@),
                Err(e) => exists|k: int| #![trigger targets@[k]]
                    0 <= k < targets@.len() && e.name@ == targets@[k]@ && !self.targets.has(e.name@)
                        && forall|j: int|
                        0 <= j < k ==> self.targets.has((#[trigger] targets@[j])@),
            },
    {
        let ghost names = texts(targets@);
        let mut roots: Vec<usize> = Vec::new();
        let mut i: usize = 0;
        assert(ints(roots@) =~= Seq::empty());
        while i < targets.len()
            invariant
                self.wf(),
                names == texts(targets@),
                i <= targets@.len(),
                forall|k: int| 0 <= k < i ==> self.targets.has((#[trigger] targets@[k])@),
                ints(roots@) == root_actions(*self, names, i as nat),
                ids_ok(self.actions@.len(), roots@),
            decreases targets@.len() - i,
        {
            assert(names[i as int] == targets@[i as int]@);
            let at = match self.targets.find(&targets[i]) {
                Some(at) => at,
                None => {
                    return Err(UnknownTarget { name: copy(&targets[i]) });
                },
            };
            assert(self.target_ok(at as int));
            let ghost was = roots@;
            let mut more = self.targets.values[at].actions.clone();
            assert(more@ =~= self.targets.values@[at as int].actions@);
            let ghost added = more@;
            roots.append(&mut more);
            assert(ints(roots@) =~= ints(was) + ints(added));
            i += 1;
        }
        let edges = need_lists(self);
        assert(numbers(edges@).len() == edges@.len());
        let found = closure(&edges, &roots);
        let ghost reached = |a: int| reached_from(needs(*self), ints(roots@), a);
        match run_order(self, &found) {
            Ok(order) => {
                assert((|a: int| ints(found@).contains(a)) =~= reached);
                Ok(order)
            },
            Err(_) => Ok(found),
        }
    }

    /// The targets that a target depends on, itself with them, in order.
    pub fn deps_closure(&self, root: &str) -> (r: Result<Vec<String>, UnknownTarget>)
        requires
            self.wf(),
        ensures
            match r {
                Ok(names) => self.targets.has(root@) && ascending(texts(names@)) && forall|
                    x: Seq<char>,
                | #[trigger]
                    texts(names@).contains(x) <==> depends(*self, root@, x),
                Err(e) => !self.targets.has(root@) && e.name@ == root@,
            },
    {
        let at = match self.targets.find(root) {
            Some(at) => at,
            None => {
                return Err(UnknownTarget { name: copy(root) });
            },
        };
        let edges = dep_lists(self);
        let mut roots: Vec<usize> = Vec::new();
        roots.push(at);
        assert(numbers(edges@).len() == edges@.len());
        let found = closure(&edges, &roots);
        let names = names_of(self, &found);
        proof {
            let e = dep_edges(*self);
            assert forall|x: Seq<char>| #[trigger] texts(names@).contains(x) <==> depends(
                *self,
                root@,
                x,
            ) by {
                if texts(names@).contains(x) {
                    let k = texts(names@).index_of(x);
                    let i = found@[k] as int;
                    assert(ints(found@)[k] == i);
                    assert(ints(found@).contains(i));
                    let from = choose|from: int|
                        ints(roots@).contains(from) && #[trigger] reaches(e, from, i);
                    assert(from == at) by {
                        let j = ints(roots@).index_of(from);
                        assert(ints(roots@)[j] == from);
                    }
                    self.targets.spot_is(i);
                }
                if depends(*self, root@, x) {
                    let i = self.targets.spot(x);
                    assert(ints(roots@)[0] == at);
                    assert(reached_from(e, ints(roots@), i));
                    assert(ints(found@).contains(i));
                    let k = ints(found@).index_of(i);
                    assert(found@[k] == i);
                    assert(texts(names@)[k] == self.targets.names()[i]);
                }
            }
        }
        Ok(names)
    }

    /// The targets that depend on a target, itself with them, in order.
    pub fn rdeps_closure(&self, root: &str) -> (r: Result<Vec<String>, UnknownTarget>)
        requires
            self.wf(),
        ensures
            match r {
                Ok(names) => self.targets.has(root@) && ascending(texts(names@)) && forall|
                    x: Seq<char>,
                | #[trigger]
                    texts(names@).contains(x) <==> depends(*self, x, root@),
                Err(e) => !self.targets.has(root@) && e.name@ == root@,
            },
    {
        let at = match self.targets.find(root) {
            Some(at) => at,
            None => {
                return Err(UnknownTarget { name: copy(root) });
            },
        };
        let edges = dep_lists(self);
        let users = turned(&edges);
        let mut roots: Vec<usize> = Vec::new();
        roots.push(at);
        assert(numbers(edges@).len() == edges@.len());
        assert(numbers(users@).len() == users@.len());
        let found = closure(&users, &roots);
        let names = names_of(self, &found);
        proof {
            let e = dep_edges(*self);
            let u = numbers(users@);
            assert forall|x: Seq<char>| #[trigger] texts(names@).contains(x) <==> depends(
                *self,
                x,
                root@,
            ) by {
                if texts(names@).contains(x) {
                    let k = texts(names@).index_of(x);
                    let i = found@[k] as int;
                    assert(ints(found@)[k] == i);
                    assert(ints(found@).contains(i));
                    let from = choose|from: int|
                        ints(roots@).contains(from) && #[trigger] reaches(u, from, i);
                    assert(from == at) by {
                        let j = ints(roots@).index_of(from);
                        assert(ints(roots@)[j] == from);
                    }
                    turned_reaches(u, e, at as int, i);
                    self.targets.spot_is(i);
                }
                if depends(*self, x, root@) {
                    let i = self.targets.spot(x);
                    turned_reaches(e, u, i, at as int);
                    assert(ints(roots@)[0] == at);
                    assert(reached_from(u, ints(roots@), i));
                    assert(ints(found@).contains(i));
                    let k = ints(found@).index_of(i);
                    assert(found@[k] == i);
                    assert(texts(names@)[k] == self.targets.names()[i]);
                }
            }
        }
        Ok(names)
    }
}

/// Every edge of one graph is one of the other, turned round.
pub open spec fn opposite(a: Seq<Seq<int>>, b: Seq<Seq<int>>) -> bool {
    a.len() == b.len() && forall|v: int, w: int|
        0 <= v < a.len() && #[trigger] a[v].contains(w) ==> 0 <= w < b.len() && b[w].contains(v)
}

/// What is reached in a graph reaches back in the graph turned round.
pub proof fn turned_reaches(a: Seq<Seq<int>>, b: Seq<Seq<int>>, from: int, to: int)
    requires
        opposite(a, b),
        0 <= from < a.len(),
        reaches(a, from, to),
    ensures
        reaches(b, to, from),
{
    let path = choose|path: Seq<int>| #[trigger] walks(a, path, from, to);
    stays_inside(a, b, path);
    let back = path.reverse();
    let n = path.len() as int;
    assert forall|k: int| 0 <= k < back.len() - 1 implies b[#[trigger] back[k]].contains(
        back[k + 1],
    ) by {
        let i = n - 2 - k;
        assert(back[k] == path[i + 1]);
        assert(back[k + 1] == path[i]);
        assert(a[path[i]].contains(path[i + 1]));
    }
    assert(walks(b, back, to, from));
}

proof fn stays_inside(a: Seq<Seq<int>>, b: Seq<Seq<int>>, path: Seq<int>)
    requires
        opposite(a, b),
        walk(a, path),
        path.len() > 0,
        0 <= path[0] < a.len(),
    ensures
        forall|k: int| 0 <= k < path.len() ==> 0 <= #[trigger] path[k] < a.len(),
    decreases path.len(),
{
    if path.len() > 1 {
        let init = path.drop_last();
        assert forall|k: int| 0 <= k < init.len() - 1 implies a[#[trigger] init[k]].contains(
            init[k + 1],
        ) by {
            assert(init[k] == path[k]);
        }
        stays_inside(a, b, init);
        let n = path.len() as int;
        assert(a[path[n - 2]].contains(path[n - 1]));
        assert(init[n - 2] == path[n - 2]);
        assert forall|k: int| 0 <= k < path.len() implies 0 <= #[trigger] path[k] < a.len() by {
            if k < n - 1 {
                assert(init[k] == path[k]);
            }
        }
    }
}

/// A graph with its edges turned round.
fn turned(edges: &Vec<Vec<usize>>) -> (r: Vec<Vec<usize>>)
    requires
        in_range(numbers(edges@)),
    ensures
        in_range(numbers(r@)),
        opposite(numbers(edges@), numbers(r@)),
        opposite(numbers(r@), numbers(edges@)),
{
    let ghost e = numbers(edges@);
    let n: usize = edges.len();
    let mut out: Vec<Vec<usize>> = Vec::new();
    let mut w: usize = 0;
    while w < n
        invariant
            e == numbers(edges@),
            in_range(e),
            n == edges@.len(),
            w <= n,
            out@.len() == w,
            forall|k: int, j: int|
                0 <= k < w && 0 <= j < out@[k]@.len() ==> #[trigger] out@[k]@[j] < n
                    && e[out@[k]@[j] as int].contains(k),
            forall|k: int, v: int|
                0 <= k < w && 0 <= v < n && #[trigger] e[v].contains(k) ==> ints(
                    out@[k]@,
                ).contains(v),
        decreases n - w,
    {
        let mut own: Vec<usize> = Vec::new();
        let mut v: usize = 0;
        while v < n
            invariant
                e == numbers(edges@),
                n == edges@.len(),
                w < n,
                v <= n,
                forall|j: int|
                    0 <= j < own@.len() ==> #[trigger] own@[j] < n && e[own@[j] as int].contains(
                        w as int,
                    ),
                forall|x: int|
                    0 <= x < v && #[trigger] e[x].contains(w as int) ==> ints(own@).contains(x),
            decreases n - v,
        {
            let list = &edges[v];
            let mut j: usize = 0;
            while j < list.len() && list[j] != w
                invariant
                    e == numbers(edges@),
                    v < n,
                    n == edges@.len(),
                    list@ == edges@[v as int]@,
                    j <= list@.len(),
                    forall|k: int| 0 <= k < j ==> #[trigger] e[v as int][k] != w,
                decreases list@.len() - j,
            {
                assert(e[v as int][j as int] != w);
                j += 1;
            }
            let ghost before = ints(own@);
            if j < list.len() {
                assert(e[v as int][j as int] == w);
                own.push(v);
                proof {
                    let now = ints(own@);
                    assert(now =~= before.push(v as int));
                    assert forall|x: int| 0 <= x < v + 1 && #[trigger] e[x].contains(
                        w as int,
                    ) implies now.contains(x) by {
                        if x < v {
                            assert(now[before.index_of(x)] == x);
                        } else {
                            assert(now[before.len() as int] == x);
                        }
                    }
                }
            } else {
                assert(!e[v as int].contains(w as int)) by {
                    if e[v as int].contains(w as int) {
                        let k = e[v as int].index_of(w as int);
                        assert(e[v as int][k] == w);
                    }
                }
            }
            v += 1;
        }
        out.push(own);
        w += 1;
    }
    proof {
        let u = numbers(out@);
        assert forall|k: int, j: int| 0 <= k < u.len() && 0 <= j < u[k].len() implies 0
            <= #[trigger] u[k][j] < u.len() by {
            assert(out@[k]@[j] < n);
        }
        assert forall|v: int, w: int| 0 <= v < e.len() && #[trigger] e[v].contains(w) implies 0 <= w
            < u.len() && u[w].contains(v) by {
            let k = e[v].index_of(w);
            assert(0 <= e[v][k] < e.len());
            assert(ints(out@[w]@).contains(v));
            assert(u[w] =~= ints(out@[w]@));
        }
        assert forall|v: int, w: int| 0 <= v < u.len() && #[trigger] u[v].contains(w) implies 0 <= w
            < e.len() && e[w].contains(v) by {
            let k = u[v].index_of(w);
            assert(out@[v]@[k] < n);
            assert(u[v][k] == out@[v]@[k]);
        }
    }
    out
}

/// `path` leads from one target to another: each depends directly on the
/// next, and none stands in it twice.
pub open spec fn dep_path(g: BuildGraph, path: Seq<Seq<char>>, from: Seq<char>, to: Seq<char>) -> bool {
    &&& path.len() > 0 && path[0] == from && path.last() == to
    &&& path.no_duplicates()
    &&& forall|k: int| 0 <= k < path.len() ==> g.targets.has(#[trigger] path[k])
    &&& forall|k: int|
        0 <= k < path.len() - 1 ==> texts(g.targets.at(#[trigger] path[k]).deps@).contains(
            path[k + 1],
        )
}

/// The shape in which `to_dot` draws a kind of target.
pub open spec fn shape(kind: TargetKind) -> Seq<char> {
    match kind {
        TargetKind::CcBinary => "box"@,
        TargetKind::CcLibrary => "ellipse"@,
        TargetKind::CcTest => "box3d"@,
        TargetKind::Genrule => "diamond"@,
        TargetKind::Test => "component"@,
        TargetKind::KofunBinary => "box"@,
        TargetKind::Command => "folder"@,
    }
}

/// The edges from a target to the first `n` that it depends on, as Graphviz
/// reads them.
pub open spec fn dot_edges(name: Seq<char>, deps: Seq<Seq<char>>, n: nat) -> Seq<char>
    decreases n,
{
    if n == 0 {
        Seq::empty()
    } else {
        dot_edges(name, deps, (n - 1) as nat) + ("  \""@ + name + "\" -> \""@ + deps[n - 1]
            + "\";\n"@)
    }
}

/// The first `n` targets as Graphviz reads them.
pub open spec fn dot_nodes(g: BuildGraph, n: nat) -> Seq<char>
    decreases n,
{
    if n == 0 {
        Seq::empty()
    } else {
        let t = g.targets.values@[n - 1];
        dot_nodes(g, (n - 1) as nat) + ("  \""@ + t.name@ + "\" [shape="@ + shape(t.kind)
            + "];\n"@) + dot_edges(t.name@, texts(t.deps@), t.deps@.len())
    }
}

impl BuildGraph {
    /// The path of dependencies from one target down to another that takes at
    /// each target the first dependency that leads there; none where the first
    /// does not depend on the second.
    pub fn somepath(&self, from: &str, to: &str) -> (r: Result<
        Option<Vec<String>>,
        UnknownTarget,
    >)
        requires
            self.wf(),
        ensures
            match r {
                Ok(Some(path)) => dep_path(*self, texts(path@), from@, to@) && depends(
                    *self,
                    from@,
                    to@,
                ) && depth_first(
                    dep_edges(*self),
                    spots(*self, texts(path@)),
                    self.targets.spot(to@),
                ),
                Ok(None) => self.targets.has(from@) && self.targets.has(to@) && !depends(
                    *self,
                    from@,
                    to@,
                ),
                Err(e) => if self.targets.has(from@) {
                    !self.targets.has(to@) && e.name@ == to@
                } else {
                    e.name@ == from@
                },
            },
    {
        broadcast use group_texts;
        let a = match self.targets.find(from) {
            Some(at) => at,
            None => {
                return Err(UnknownTarget { name: copy(from) });
            },
        };
        let b = match self.targets.find(to) {
            Some(at) => at,
            None => {
                return Err(UnknownTarget { name: copy(to) });
            },
        };
        let edges = dep_lists(self);
        assert(numbers(edges@).len() == edges@.len());
        let ghost e = dep_edges(*self);
        let found = match find_path(&edges, a, b) {
            Some(found) => found,
            None => {
                return Ok(None);
            },
        };
        let ghost all = Seq::new(found@.len(), |k: int| self.targets.names()[found@[k] as int]);
        let mut path: Vec<String> = Vec::new();
        let mut k: usize = 0;
        while k < found.len()
            invariant
                self.wf(),
                ids_ok(self.targets.keys@.len(), found@),
                all == Seq::new(found@.len(), |k: int| self.targets.names()[found@[k] as int]),
                k <= found@.len(),
                texts(path@) =~= all.take(k as int),
            decreases found@.len() - k,
        {
            assert(found@[k as int] < self.targets.keys@.len());
            assert(all.take(k + 1) =~= all.take(k as int).push(all[k as int]));
            path.push(copy(&self.targets.keys[found[k]]));
            k += 1;
        }
        proof {
            assert(texts(path@) =~= all);
            let way = ints(found@);
            assert(walks(e, way, a as int, b as int));
            assert(way[0] == found@[0] && way.last() == found@.last());
            assert forall|k: int| 0 <= k < all.len() implies self.targets.has(#[trigger] all[k])
                && self.targets.spot(all[k]) == found@[k] by {
                assert(found@[k] < self.targets.keys@.len());
                self.targets.spot_is(found@[k] as int);
            }
            assert(spots(*self, all) =~= way);
            assert forall|i: int, j: int| 0 <= i < all.len() && 0 <= j < all.len() && i
                != j implies all[i] != all[j] by {
                assert(way[i] != way[j]);
                assert(self.targets.spot(all[i]) == found@[i]);
                assert(self.targets.spot(all[j]) == found@[j]);
            }
            assert forall|k: int| 0 <= k < all.len() - 1 implies texts(
                self.targets.at(#[trigger] all[k]).deps@,
            ).contains(all[k + 1]) by {
                let i = found@[k] as int;
                assert(self.targets.spot(all[k]) == i);
                assert(e[way[k]].contains(way[k + 1]));
                let j = e[i].index_of(way[k + 1]);
                let node = self.targets.values@[i];
                let dep = node.deps@[j]@;
                assert(e[i][j] == self.targets.spot(dep));
                assert(self.target_ok(i));
                assert(self.targets.has(node.deps@[j]@));
                assert(self.targets.names()[self.targets.spot(dep)] == dep);
                assert(texts(node.deps@)[j] == dep);
                assert(found@[k + 1] == way[k + 1]);
            }
        }
        Ok(Some(path))
    }

    /// The target graph as Graphviz reads it.
    pub fn to_dot(&self) -> (r: String)
        requires
            self.targets.wf(),
        ensures
            r@ == "digraph frost {\n  rankdir=LR;\n"@ + dot_nodes(
                *self,
                self.targets.values@.len(),
            ) + "}\n"@,
    {
        let ghost head = "digraph frost {\n  rankdir=LR;\n"@;
        let mut out = copy("digraph frost {\n  rankdir=LR;\n");
        let mut i: usize = 0;
        assert(head + dot_nodes(*self, 0) =~= head);
        while i < self.targets.values.len()
            invariant
                head == "digraph frost {\n  rankdir=LR;\n"@,
                i <= self.targets.values@.len(),
                out@ == head + dot_nodes(*self, i as nat),
            decreases self.targets.values@.len() - i,
        {
            let t = &self.targets.values[i];
            let kind = match t.kind {
                TargetKind::CcBinary => "box",
                TargetKind::CcLibrary => "ellipse",
                TargetKind::CcTest => "box3d",
                TargetKind::Genrule => "diamond",
                TargetKind::Test => "component",
                TargetKind::KofunBinary => "box",
                TargetKind::Command => "folder",
            };
            let ghost start = out@;
            let mut line = copy("  \"");
            line.append(&t.name);
            line.append("\" [shape=");
            line.append(kind);
            line.append("];\n");
            out.append(&line);
            let ghost names = texts(t.deps@);
            let ghost before = out@;
            let mut j: usize = 0;
            assert(before + dot_edges(t.name@, names, 0) =~= before);
            while j < t.deps.len()
                invariant
                    names == texts(t.deps@),
                    j <= t.deps@.len(),
                    out@ == before + dot_edges(t.name@, names, j as nat),
                decreases t.deps@.len() - j,
            {
                assert(names[j as int] == t.deps@[j as int]@);
                let ghost so_far = out@;
                let mut edge = copy("  \"");
                edge.append(&t.name);
                edge.append("\" -> \"");
                edge.append(&t.deps[j]);
                edge.append("\";\n");
                out.append(&edge);
                assert(out@ =~= before + dot_edges(t.name@, names, (j + 1) as nat));
                j += 1;
            }
            assert(out@ =~= head + dot_nodes(*self, (i + 1) as nat));
            i += 1;
        }
        out.append("}\n");
        out
    }
}

/// A target depends on what its dependencies depend on.
pub proof fn depends_transitive(g: BuildGraph, a: Seq<char>, b: Seq<char>, c: Seq<char>)
    requires
        depends(g, a, b),
        depends(g, b, c),
    ensures
        depends(g, a, c),
{
    crate::reach::reaches_transitive(
        dep_edges(g),
        g.targets.spot(a),
        g.targets.spot(b),
        g.targets.spot(c),
    );
}

/// Every target depends on itself and on those it names.
pub proof fn depends_on_named(g: BuildGraph, a: Seq<char>, j: int)
    requires
        g.wf(),
        g.targets.has(a),
        0 <= j < g.targets.at(a).deps@.len(),
    ensures
        depends(g, a, a),
        depends(g, a, g.targets.at(a).deps@[j]@),
{
    let e = dep_edges(g);
    let i = g.targets.spot(a);
    let dep = g.targets.at(a).deps@[j]@;
    assert(g.targets.names()[i] == a);
    assert(g.target_ok(i));
    crate::reach::reaches_self(e, i);
    assert(e[i][j] == g.targets.spot(dep));
    assert(g.targets.has(g.targets.values@[i].deps@[j]@));
    crate::reach::reaches_next(e, i, i, g.targets.spot(dep));
}

/// All that an action of a closure needs is in the closure and stands before
/// it, where no action needs itself through others.
pub proof fn closure_in_order(g: BuildGraph, roots: Seq<int>, actions: Seq<int>, k: int, b: int)
    requires
        first_cycle(needs(g)) is None,
        closure_order(g, roots, actions),
        forall|a: int| #[trigger] actions.contains(a) <==> reached_from(needs(g), roots, a),
        0 <= k < actions.len(),
        0 <= actions[k] < g.actions@.len(),
        needs(g)[actions[k]].contains(b),
    ensures
        exists|j: int| 0 <= j < k && #[trigger] actions[j] == b,
{
    let e = needs(g);
    let a = actions[k];
    assert(actions.contains(a));
    let r = choose|r: int| roots.contains(r) && #[trigger] reaches(e, r, a);
    crate::reach::reaches_next(e, r, a, b);
    assert(reached_from(e, roots, b));
    assert(actions.contains(b));
    let i = e[a].index_of(b);
    assert(actions.contains(e[actions[k]][i]));
    let j = actions.take(k).index_of(b);
    assert(actions[j] == b);
}

/// No file is written by two actions of a graph.
pub proof fn one_producer(g: BuildGraph, f: int, a: int, b: int)
    requires
        g.wf(),
        0 <= f < g.files@.len(),
        0 <= a < g.actions@.len(),
        0 <= b < g.actions@.len(),
        ints(g.actions@[a].outputs@).contains(f),
        ints(g.actions@[b].outputs@).contains(f),
    ensures
        a == b,
{
    assert(made_by(g.files@[f]) == a);
    assert(made_by(g.files@[f]) == b);
}

// ---------------------------------------------------------------------------
// What the answers hold
// ---------------------------------------------------------------------------

proof fn producers_are(files: Seq<FileNode>, ids: Seq<usize>, n: nat, w: int)
    requires
        n <= ids.len(),
    ensures
        producers(files, ids, n).contains(w) <==> w >= 0 && exists|k: int|
            0 <= k < n && made_by(files[#[trigger] ids[k] as int]) == w,
    decreases n,
{
    if n > 0 {
        let less = (n - 1) as nat;
        producers_are(files, ids, less, w);
        let before = producers(files, ids, less);
        let now = producers(files, ids, n);
        if before.contains(w) {
            assert(now[before.index_of(w)] == w);
        }
        if w >= 0 && made_by(files[ids[n - 1] as int]) == w {
            assert(now[now.len() - 1] == w);
        }
        if now.contains(w) {
            let k = now.index_of(w);
            if k < before.len() {
                assert(before[k] == w);
            } else {
                assert(made_by(files[ids[n - 1] as int]) == w);
            }
        }
    }
}

/// An action must run before another exactly where it writes a file that the
/// other reads, or that has to be there before the other runs.
pub proof fn writers_run_first(g: BuildGraph, a: int, w: int)
    requires
        g.wf(),
        0 <= a < g.actions@.len(),
        0 <= w < g.actions@.len(),
    ensures
        needs(g)[a].contains(w) <==> exists|k: int|
            0 <= k < g.actions@[w].outputs@.len() && (g.actions@[a].inputs@.contains(
                #[trigger] g.actions@[w].outputs@[k],
            ) || g.actions@[a].order_only_inputs@.contains(g.actions@[w].outputs@[k])),
{
    let x = g.actions@[a];
    let y = g.actions@[w];
    assert(action_ok(g.files@.len(), x));
    assert(action_ok(g.files@.len(), y));
    producers_are(g.files@, x.inputs@, x.inputs@.len(), w);
    producers_are(g.files@, x.order_only_inputs@, x.order_only_inputs@.len(), w);
    let p = producers(g.files@, x.inputs@, x.inputs@.len());
    let q = producers(g.files@, x.order_only_inputs@, x.order_only_inputs@.len());
    assert((p + q).contains(w) <==> p.contains(w) || q.contains(w)) by {
        if p.contains(w) {
            assert((p + q)[p.index_of(w)] == w);
        }
        if q.contains(w) {
            assert((p + q)[p.len() + q.index_of(w)] == w);
        }
        if (p + q).contains(w) {
            let k = (p + q).index_of(w);
            if k < p.len() {
                assert(p[k] == w);
            } else {
                assert(q[k - p.len()] == w);
            }
        }
    }
    if p.contains(w) {
        let k = choose|k: int|
            0 <= k < x.inputs@.len() && made_by(g.files@[#[trigger] x.inputs@[k] as int]) == w;
        let f = x.inputs@[k] as int;
        assert(ints(y.outputs@).contains(f));
        let j = ints(y.outputs@).index_of(f);
        assert(ints(y.outputs@)[j] == f);
        assert(x.inputs@.contains(y.outputs@[j]));
    }
    if q.contains(w) {
        let k = choose|k: int|
            0 <= k < x.order_only_inputs@.len() && made_by(
                g.files@[#[trigger] x.order_only_inputs@[k] as int],
            ) == w;
        let f = x.order_only_inputs@[k] as int;
        assert(ints(y.outputs@).contains(f));
        let j = ints(y.outputs@).index_of(f);
        assert(ints(y.outputs@)[j] == f);
        assert(x.order_only_inputs@.contains(y.outputs@[j]));
    }
    if exists|k: int|
        0 <= k < y.outputs@.len() && (x.inputs@.contains(#[trigger] y.outputs@[k])
            || x.order_only_inputs@.contains(y.outputs@[k])) {
        let k = choose|k: int|
            0 <= k < y.outputs@.len() && (x.inputs@.contains(#[trigger] y.outputs@[k])
                || x.order_only_inputs@.contains(y.outputs@[k]));
        let f = y.outputs@[k];
        assert(ints(y.outputs@)[k] == f as int);
        assert(made_by(g.files@[f as int]) == w);
        if x.inputs@.contains(f) {
            let j = x.inputs@.index_of(f);
            assert(x.inputs@[j] == f);
            assert(p.contains(w));
        } else {
            let j = x.order_only_inputs@.index_of(f);
            assert(x.order_only_inputs@[j] == f);
            assert(q.contains(w));
        }
    }
}

proof fn roots_are(g: BuildGraph, names: Seq<Seq<char>>, n: nat, a: int)
    requires
        n <= names.len(),
    ensures
        root_actions(g, names, n).contains(a) <==> exists|i: int|
            0 <= i < n && ints(g.targets.at(#[trigger] names[i]).actions@).contains(a),
    decreases n,
{
    if n > 0 {
        let less = (n - 1) as nat;
        roots_are(g, names, less, a);
        let p = root_actions(g, names, less);
        let q = ints(g.targets.at(names[n - 1]).actions@);
        if p.contains(a) {
            assert((p + q)[p.index_of(a)] == a);
        }
        if q.contains(a) {
            assert((p + q)[p.len() + q.index_of(a)] == a);
        }
        if (p + q).contains(a) {
            let k = (p + q).index_of(a);
            if k < p.len() {
                assert(p[k] == a);
            } else {
                assert(q[k - p.len()] == a);
            }
        }
    }
}

/// A walk that begins in a set that no edge leaves stays there.
proof fn walk_stays(e: Seq<Seq<int>>, path: Seq<int>, inside: Set<int>, k: int)
    requires
        walk(e, path),
        0 <= k < path.len(),
        inside.contains(path[0]),
        forall|a: int, b: int| inside.contains(a) && #[trigger] e[a].contains(b) ==> inside.contains(b),
    ensures
        inside.contains(path[k]),
    decreases k,
{
    if k > 0 {
        walk_stays(e, path, inside, k - 1);
        assert(e[path[k - 1]].contains(path[k]));
    }
}

/// The closure of some targets holds all their actions and every action that
/// writes a file which one of its actions needs, each once.
pub proof fn closure_is_complete(
    g: BuildGraph,
    targets: Vec<String>,
    actions: Vec<usize>,
    a: int,
    w: int,
)
    requires
        g.wf(),
        call_ensures(
            BuildGraph::action_closure,
            (&g, &targets),
            Ok::<Vec<usize>, UnknownTarget>(actions),
        ),
        0 <= a < g.actions@.len(),
        0 <= w < g.actions@.len(),
    ensures
        forall|i: int|
            #![trigger targets@[i]]
            0 <= i < targets@.len() && ints(g.targets.at(targets@[i]@).actions@).contains(a)
                ==> ints(actions@).contains(a),
        ints(actions@).contains(a) && (exists|k: int|
            0 <= k < g.actions@[w].outputs@.len() && (g.actions@[a].inputs@.contains(
                #[trigger] g.actions@[w].outputs@[k],
            ) || g.actions@[a].order_only_inputs@.contains(g.actions@[w].outputs@[k]))) ==> ints(
            actions@,
        ).contains(w),
        ints(actions@).no_duplicates(),
{
    let names = texts(targets@);
    let roots = root_actions(g, names, names.len());
    roots_are(g, names, names.len(), a);
    let e = needs(g);
    assert forall|i: int|
        #![trigger targets@[i]]
        0 <= i < targets@.len() && ints(g.targets.at(targets@[i]@).actions@).contains(
            a,
        ) implies ints(actions@).contains(a) by {
        assert(names[i] == targets@[i]@);
        crate::reach::reaches_self(e, a);
        assert(reached_from(e, roots, a));
    }
    writers_run_first(g, a, w);
    if ints(actions@).contains(a) && e[a].contains(w) {
        let r = choose|r: int| roots.contains(r) && #[trigger] reaches(e, r, a);
        crate::reach::reaches_next(e, r, a, w);
        assert(reached_from(e, roots, w));
    }
}

/// The closure of some targets holds nothing else: whatever holds their actions,
/// and with an action those that write what it needs, holds the closure.
pub proof fn closure_is_least(
    g: BuildGraph,
    targets: Vec<String>,
    actions: Vec<usize>,
    enough: Set<int>,
    a: int,
)
    requires
        g.wf(),
        call_ensures(
            BuildGraph::action_closure,
            (&g, &targets),
            Ok::<Vec<usize>, UnknownTarget>(actions),
        ),
        forall|i: int, x: int|
            #![trigger targets@[i], enough.contains(x)]
            0 <= i < targets@.len() && ints(g.targets.at(targets@[i]@).actions@).contains(x)
                ==> enough.contains(x),
        forall|x: int, w: int, k: int|
            #![trigger enough.contains(x), g.actions@[w].outputs@[k]]
            enough.contains(x) && 0 <= x < g.actions@.len() && 0 <= w < g.actions@.len() && 0 <= k
                < g.actions@[w].outputs@.len() && (g.actions@[x].inputs@.contains(
                g.actions@[w].outputs@[k],
            ) || g.actions@[x].order_only_inputs@.contains(g.actions@[w].outputs@[k]))
                ==> enough.contains(w),
        ints(actions@).contains(a),
    ensures
        enough.contains(a),
{
    let names = texts(targets@);
    let roots = root_actions(g, names, names.len());
    let e = needs(g);
    let r = choose|r: int| roots.contains(r) && #[trigger] reaches(e, r, a);
    roots_are(g, names, names.len(), r);
    let i = choose|i: int|
        0 <= i < names.len() && ints(g.targets.at(#[trigger] names[i]).actions@).contains(r);
    assert(names[i] == targets@[i]@);
    assert(enough.contains(r));
    let node = g.targets.at(names[i]);
    assert(g.targets.has(targets@[i]@));
    let at = g.targets.spot(names[i]);
    assert(g.target_ok(at)) by {
        assert(g.targets.names()[at] == names[i]);
        let t = g.targets.values@[at];
    }
    let j = ints(node.actions@).index_of(r);
    assert(node.actions@[j] < g.actions@.len());
    let inside = Set::new(|x: int| enough.contains(x) && 0 <= x < g.actions@.len());
    assert forall|x: int, w: int| inside.contains(x) && #[trigger] e[x].contains(
        w,
    ) implies inside.contains(w) by {
        let k = e[x].index_of(w);
        needs_in_range(g, x, w);
        writers_run_first(g, x, w);
        let k = choose|k: int|
            0 <= k < g.actions@[w].outputs@.len() && (g.actions@[x].inputs@.contains(
                #[trigger] g.actions@[w].outputs@[k],
            ) || g.actions@[x].order_only_inputs@.contains(g.actions@[w].outputs@[k]));
        assert(enough.contains(w));
    }
    let path = choose|path: Seq<int>| #[trigger] walks(e, path, r, a);
    walk_stays(e, path, inside, path.len() - 1);
}

proof fn needs_in_range(g: BuildGraph, a: int, w: int)
    requires
        g.wf(),
        0 <= a < g.actions@.len(),
        needs(g)[a].contains(w),
    ensures
        0 <= w < g.actions@.len(),
{
    let x = g.actions@[a];
    assert(action_ok(g.files@.len(), x));
    producers_are(g.files@, x.inputs@, x.inputs@.len(), w);
    producers_are(g.files@, x.order_only_inputs@, x.order_only_inputs@.len(), w);
    let p = producers(g.files@, x.inputs@, x.inputs@.len());
    let q = producers(g.files@, x.order_only_inputs@, x.order_only_inputs@.len());
    let k = (p + q).index_of(w);
    if k < p.len() {
        assert(p[k] == w);
        let j = choose|j: int|
            0 <= j < x.inputs@.len() && made_by(g.files@[#[trigger] x.inputs@[j] as int]) == w;
        assert(x.inputs@[j] < g.files@.len());
    } else {
        assert(q[k - p.len()] == w);
        let j = choose|j: int|
            0 <= j < x.order_only_inputs@.len() && made_by(
                g.files@[#[trigger] x.order_only_inputs@[j] as int],
            ) == w;
        assert(x.order_only_inputs@[j] < g.files@.len());
    }
}

/// A closure is refused exactly where a named target is unknown, and names it.
pub proof fn closure_is_refused(
    g: BuildGraph,
    targets: Vec<String>,
    r: Result<Vec<usize>, UnknownTarget>,
)
    requires
        g.wf(),
        call_ensures(BuildGraph::action_closure, (&g, &targets), r),
    ensures
        r is Ok <==> forall|i: int|
            0 <= i < targets@.len() ==> g.targets.names().contains((#[trigger] targets@[i])@),
        r matches Err(e) ==> texts(targets@).contains(e.name@) && !g.targets.names().contains(
            e.name@,
        ),
{
    if let Err(e) = r {
        let k = choose|k: int|
            #![trigger targets@[k]]
            0 <= k < targets@.len() && e.name@ == targets@[k]@ && !g.targets.has(e.name@) && forall|
                j: int,
            |
                0 <= j < k ==> g.targets.has((#[trigger] targets@[j])@);
        assert(texts(targets@)[k] == e.name@);
    }
}

/// What a target depends on: itself, what it names, what those name, and so on,
/// and nothing else.
pub proof fn deps_are_followed(
    g: BuildGraph,
    root: &str,
    names: Vec<String>,
    x: Seq<char>,
    y: Seq<char>,
    enough: Set<Seq<char>>,
)
    requires
        g.wf(),
        call_ensures(BuildGraph::deps_closure, (&g, root), Ok::<Vec<String>, UnknownTarget>(names)),
    ensures
        texts(names@).contains(root@),
        texts(names@).contains(x) && texts(g.targets.at(x).deps@).contains(y) ==> texts(
            names@,
        ).contains(y),
        enough.contains(root@) && (forall|a: Seq<char>, b: Seq<char>|
            enough.contains(a) && g.targets.has(a) && #[trigger] texts(
                g.targets.at(a).deps@,
            ).contains(b) ==> enough.contains(b)) && texts(names@).contains(x) ==> enough.contains(x),
{
    let e = dep_edges(g);
    let at = g.targets.spot(root@);
    crate::reach::reaches_self(e, at);
    assert(depends(g, root@, root@));
    if texts(names@).contains(x) && texts(g.targets.at(x).deps@).contains(y) {
        let j = texts(g.targets.at(x).deps@).index_of(y);
        assert(g.targets.at(x).deps@[j]@ == y);
        depends_on_named(g, x, j);
        depends_transitive(g, root@, x, y);
    }
    if enough.contains(root@) && (forall|a: Seq<char>, b: Seq<char>|
        enough.contains(a) && g.targets.has(a) && #[trigger] texts(g.targets.at(a).deps@).contains(
            b,
        ) ==> enough.contains(b)) && texts(names@).contains(x) {
        let path = choose|path: Seq<int>| #[trigger] walks(e, path, at, g.targets.spot(x));
        let inside = Set::new(
            |i: int| 0 <= i < g.targets.keys@.len() && enough.contains(g.targets.keys@[i]@),
        );
        assert(g.targets.names()[at] == root@);
        assert forall|i: int, k: int| inside.contains(i) && #[trigger] e[i].contains(
            k,
        ) implies inside.contains(k) by {
            edge_names_dep(g, i, k);
            g.targets.spot_is(i);
            assert(texts(g.targets.at(g.targets.keys@[i]@).deps@).contains(g.targets.keys@[k]@));
        }
        walk_stays(e, path, inside, path.len() - 1);
        assert(g.targets.names()[g.targets.spot(x)] == x);
    }
}

/// An edge between targets is a name among the dependencies.
proof fn edge_names_dep(g: BuildGraph, i: int, k: int)
    requires
        g.wf(),
        0 <= i < g.targets.keys@.len(),
        dep_edges(g)[i].contains(k),
    ensures
        0 <= k < g.targets.keys@.len(),
        texts(g.targets.values@[i].deps@).contains(g.targets.keys@[k]@),
{
    let e = dep_edges(g);
    let j = e[i].index_of(k);
    let t = g.targets.values@[i];
    assert(g.target_ok(i));
    let dep = t.deps@[j]@;
    assert(g.targets.has(t.deps@[j]@));
    assert(k == g.targets.spot(dep));
    assert(g.targets.names()[k] == dep);
    assert(texts(t.deps@)[j] == dep);
}

/// What depends on a target: itself, those that name it, those that name them,
/// and so on.
pub proof fn users_are_followed(
    g: BuildGraph,
    root: &str,
    names: Vec<String>,
    x: Seq<char>,
    y: Seq<char>,
)
    requires
        g.wf(),
        call_ensures(BuildGraph::rdeps_closure, (&g, root), Ok::<Vec<String>, UnknownTarget>(names)),
    ensures
        texts(names@).contains(root@),
        texts(names@).contains(x) && g.targets.has(y) && texts(g.targets.at(y).deps@).contains(x)
            ==> texts(names@).contains(y),
        texts(names@).contains(x) && x != root@ ==> exists|z: Seq<char>|
            texts(names@).contains(z) && #[trigger] texts(g.targets.at(x).deps@).contains(z),
{
    let e = dep_edges(g);
    let at = g.targets.spot(root@);
    crate::reach::reaches_self(e, at);
    assert(depends(g, root@, root@));
    if texts(names@).contains(x) && g.targets.has(y) && texts(g.targets.at(y).deps@).contains(x) {
        let j = texts(g.targets.at(y).deps@).index_of(x);
        assert(g.targets.at(y).deps@[j]@ == x);
        depends_on_named(g, y, j);
        depends_transitive(g, y, x, root@);
    }
    if texts(names@).contains(x) && x != root@ {
        let from = g.targets.spot(x);
        let path = choose|path: Seq<int>| #[trigger] walks(e, path, from, at);
        assert(g.targets.names()[from] == x);
        assert(g.targets.names()[at] == root@);
        assert(path.len() > 1) by {
            if path.len() == 1 {
                assert(path[0] == path.last());
            }
        }
        assert(e[path[0]].contains(path[1]));
        let k = path[1];
        edge_names_dep(g, from, k);
        let z = g.targets.keys@[k]@;
        g.targets.spot_is(k);
        let rest = path.skip(1);
        assert forall|i: int| 0 <= i < rest.len() - 1 implies e[#[trigger] rest[i]].contains(
            rest[i + 1],
        ) by {
            assert(rest[i] == path[i + 1]);
        }
        assert(walks(e, rest, k, at));
        assert(depends(g, z, root@));
        assert(texts(g.targets.at(x).deps@).contains(z));
    }
}

/// The path between two targets begins with the first and ends with the second,
/// and each target on it names the next; there is one exactly where the second is
/// among what the first depends on.
pub proof fn path_leads_there(
    g: BuildGraph,
    from: &str,
    to: &str,
    r: Option<Vec<String>>,
    names: Vec<String>,
)
    requires
        g.wf(),
        call_ensures(
            BuildGraph::somepath,
            (&g, from, to),
            Ok::<Option<Vec<String>>, UnknownTarget>(r),
        ),
        call_ensures(BuildGraph::deps_closure, (&g, from), Ok::<Vec<String>, UnknownTarget>(names)),
    ensures
        r is Some <==> texts(names@).contains(to@),
        r matches Some(path) ==> ({
            &&& path@.len() > 0
            &&& path@[0]@ == from@
            &&& path@[path@.len() - 1]@ == to@
            &&& forall|k: int|
                0 <= k < path@.len() - 1 ==> texts(
                    g.targets.at((#[trigger] path@[k])@).deps@,
                ).contains(path@[k + 1]@)
        }),
{
    if let Some(path) = r {
        let way = texts(path@);
        assert(way[0] == path@[0]@);
        assert(way.last() == path@[path@.len() - 1]@);
        assert forall|k: int| 0 <= k < path@.len() - 1 implies texts(
            g.targets.at((#[trigger] path@[k])@).deps@,
        ).contains(path@[k + 1]@) by {
            assert(way[k] == path@[k]@);
            assert(way[k + 1] == path@[k + 1]@);
        }
    }
}

proof fn node_stands(g: BuildGraph, n: nat, i: int) -> (r: (Seq<char>, Seq<char>))
    requires
        0 <= i < n <= g.targets.values@.len(),
    ensures
        ({
            let t = g.targets.values@[i];
            dot_nodes(g, n) == r.0 + ("  \""@ + t.name@ + "\" [shape="@ + shape(t.kind) + "];\n"@)
                + dot_edges(t.name@, texts(t.deps@), t.deps@.len()) + r.1
        }),
    decreases n,
{
    let less = (n - 1) as nat;
    let t = g.targets.values@[n - 1];
    let head = "  \""@ + t.name@ + "\" [shape="@ + shape(t.kind) + "];\n"@;
    let edges = dot_edges(t.name@, texts(t.deps@), t.deps@.len());
    if i == less {
        let before = dot_nodes(g, less);
        assert(before + head + edges =~= before + head + edges + Seq::empty());
        (before, Seq::empty())
    } else {
        let (before, after) = node_stands(g, less, i);
        let u = g.targets.values@[i];
        let own = "  \""@ + u.name@ + "\" [shape="@ + shape(u.kind) + "];\n"@;
        let out = dot_edges(u.name@, texts(u.deps@), u.deps@.len());
        let rest = after + head + edges;
        assert(before + own + out + after + head + edges =~= before + own + out + rest);
        (before, rest)
    }
}

proof fn edge_stands(name: Seq<char>, deps: Seq<Seq<char>>, n: nat, j: int) -> (r: (
    Seq<char>,
    Seq<char>,
))
    requires
        0 <= j < n <= deps.len(),
    ensures
        dot_edges(name, deps, n) == r.0 + ("  \""@ + name + "\" -> \""@ + deps[j] + "\";\n"@) + r.1,
    decreases n,
{
    let less = (n - 1) as nat;
    let last = "  \""@ + name + "\" -> \""@ + deps[n - 1] + "\";\n"@;
    if j == less {
        let before = dot_edges(name, deps, less);
        assert(before + last =~= before + last + Seq::empty());
        (before, Seq::empty())
    } else {
        let (before, after) = edge_stands(name, deps, less, j);
        let own = "  \""@ + name + "\" -> \""@ + deps[j] + "\";\n"@;
        assert(before + own + after + last =~= before + own + (after + last));
        (before, after + last)
    }
}

/// The drawing of a graph has a line for every target, and behind it one for
/// every dependency of the target.
pub proof fn drawing_shows_every_edge(g: BuildGraph, out: String, i: int, j: int) -> (r: (
    Seq<char>,
    Seq<char>,
    Seq<char>,
    Seq<char>,
))
    requires
        g.targets.wf(),
        call_ensures(BuildGraph::to_dot, (&g,), out),
        0 <= i < g.targets.values@.len(),
        0 <= j < g.targets.values@[i].deps@.len(),
    ensures
        ({
            let t = g.targets.values@[i];
            &&& out@ == r.0 + ("  \""@ + t.name@ + "\" [shape="@ + r.1 + "];\n"@) + r.2 + ("  \""@
                + t.name@ + "\" -> \""@ + t.deps@[j]@ + "\";\n"@) + r.3
            &&& t.kind == TargetKind::CcBinary || t.kind == TargetKind::KofunBinary ==> r.1
                == "box"@
            &&& t.kind == TargetKind::CcLibrary ==> r.1 == "ellipse"@
            &&& t.kind == TargetKind::CcTest ==> r.1 == "box3d"@
            &&& t.kind == TargetKind::Genrule ==> r.1 == "diamond"@
            &&& t.kind == TargetKind::Test ==> r.1 == "component"@
            &&& t.kind == TargetKind::Command ==> r.1 == "folder"@
        }),
{
    let t = g.targets.values@[i];
    let names = texts(t.deps@);
    let (before, after) = node_stands(g, g.targets.values@.len(), i);
    let (left, right) = edge_stands(t.name@, names, t.deps@.len(), j);
    let head = "digraph frost {\n  rankdir=LR;\n"@;
    let own = "  \""@ + t.name@ + "\" [shape="@ + shape(t.kind) + "];\n"@;
    let edge = "  \""@ + t.name@ + "\" -> \""@ + names[j] + "\";\n"@;
    assert(names[j] == t.deps@[j]@);
    let close = right + after + "}\n"@;
    assert(out@ == head + (before + own + (left + edge + right) + after) + "}\n"@);
    assert(head + (before + own + (left + edge + right) + after) + "}\n"@ =~= (head + before) + own
        + left + edge + close);
    (head + before, shape(t.kind), left, close)
}

} // verus!
