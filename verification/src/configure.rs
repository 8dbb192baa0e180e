//! The build graph of a workspace for a profile and a platform.

use vstd::prelude::*;
use vstd::string::*;

use crate::builder::{add_new_extends, extends, paths_at_grown, Builder};
use crate::closest::{closest, suggestion};
use crate::graph::{
    action_models, file_paths, ids_ok, paths_at, ActionNode, BuildGraph, FileNode, GraphError,
    TargetNode,
};
use crate::lower::{copy_ids, exports, span, target_step, target_step_grows, Given, Settings};
use crate::manifest::{
    ready, Manifest, Profile, Target, TargetKind, Toolchain, DEFAULT_PROFILE, HOST_PLATFORM,
};
use crate::paths::{starts_with_path, under};
use crate::raw::{plain_name, valid_target_name};
use crate::rules::{
    flags, lib_of, own_gens, own_libs, target_files, target_outputs, Action, Exports, Fault, Flags,
    Setting,
};
use crate::shared_set::{add_new, backward, flat, flat_all, Shared, SharedSets};
use crate::sorted_map::SortedMap;
use crate::template::{Config, Configuration};
use crate::text::{copies, copy, group_texts, same, texts};
use crate::toposort::{
    build_order, cycle, deps_first, first_cycle, in_range, ints, numbers, toposort,
};

verus! {

// ---------------------------------------------------------------------------
// Clean directories
// ---------------------------------------------------------------------------

/// The clean directories of the first `n` actions, each with its action.
pub open spec fn claims(actions: Seq<Action>, n: nat) -> Seq<(Seq<char>, Seq<char>)>
    decreases n,
{
    if n == 0 {
        Seq::empty()
    } else {
        let a = actions[n - 1];
        claims(actions, (n - 1) as nat) + Seq::new(
            a.clean_dirs.len(),
            |k: int| (a.clean_dirs[k], a.id),
        )
    }
}

/// One directory is in the other.
pub open spec fn overlapping(a: Seq<char>, b: Seq<char>) -> bool {
    under(a, b) || under(b, a)
}

/// The first of the first `j` claims that claim `k` overlaps.
pub open spec fn overlap(all: Seq<(Seq<char>, Seq<char>)>, k: int, j: nat) -> Option<Fault>
    decreases j,
{
    if j == 0 {
        None
    } else {
        match overlap(all, k, (j - 1) as nat) {
            Some(fault) => Some(fault),
            None => if overlapping(all[k].0, all[j - 1].0) {
                Some(
                    Fault::Overlap {
                        dir: all[k].0,
                        action: all[k].1,
                        other_dir: all[j - 1].0,
                        other: all[j - 1].1,
                    },
                )
            } else {
                None
            },
        }
    }
}

/// The first of the first `f` files that a claimed directory holds.
pub open spec fn held(paths: Seq<Seq<char>>, claim: (Seq<char>, Seq<char>), f: nat) -> Option<Fault>
    decreases f,
{
    if f == 0 {
        None
    } else {
        match held(paths, claim, (f - 1) as nat) {
            Some(fault) => Some(fault),
            None => if under(paths[f - 1], claim.0) {
                Some(Fault::Holds { dir: claim.0, action: claim.1, path: paths[f - 1] })
            } else {
                None
            },
        }
    }
}

/// What is wrong with the first `n` claims: the first that overlaps an earlier
/// one or holds a file of the graph.
pub open spec fn claims_fault(
    all: Seq<(Seq<char>, Seq<char>)>,
    paths: Seq<Seq<char>>,
    n: nat,
) -> Option<Fault>
    decreases n,
{
    if n == 0 {
        None
    } else {
        match claims_fault(all, paths, (n - 1) as nat) {
            Some(fault) => Some(fault),
            None => match overlap(all, n - 1, (n - 1) as nat) {
                Some(fault) => Some(fault),
                None => held(paths, all[n - 1], paths.len()),
            },
        }
    }
}

/// What is wrong with the clean directories of a graph.
pub open spec fn clean_fault(actions: Seq<Action>, paths: Seq<Seq<char>>) -> Option<Fault> {
    let all = claims(actions, actions.len());
    claims_fault(all, paths, all.len())
}

proof fn overlap_stays(all: Seq<(Seq<char>, Seq<char>)>, k: int, j: nat, n: nat)
    requires
        j <= n,
        overlap(all, k, j) is Some,
    ensures
        overlap(all, k, n) == overlap(all, k, j),
    decreases n - j,
{
    if j < n {
        overlap_stays(all, k, j + 1, n);
    }
}

proof fn held_stays(paths: Seq<Seq<char>>, claim: (Seq<char>, Seq<char>), j: nat, n: nat)
    requires
        j <= n,
        held(paths, claim, j) is Some,
    ensures
        held(paths, claim, n) == held(paths, claim, j),
    decreases n - j,
{
    if j < n {
        held_stays(paths, claim, j + 1, n);
    }
}

proof fn claims_fault_stays(
    all: Seq<(Seq<char>, Seq<char>)>,
    paths: Seq<Seq<char>>,
    j: nat,
    n: nat,
)
    requires
        j <= n,
        claims_fault(all, paths, j) is Some,
    ensures
        claims_fault(all, paths, n) == claims_fault(all, paths, j),
    decreases n - j,
{
    if j < n {
        claims_fault_stays(all, paths, j + 1, n);
    }
}

/// Where no fault is found, no two clean directories overlap and none holds a
/// file of the graph.
pub proof fn clean_means(all: Seq<(Seq<char>, Seq<char>)>, paths: Seq<Seq<char>>, n: nat)
    requires
        n <= all.len(),
        claims_fault(all, paths, n) is None,
    ensures
        forall|j: int, k: int|
            0 <= j < k < n ==> !overlapping(#[trigger] all[k].0, #[trigger] all[j].0),
        forall|k: int, f: int|
            0 <= k < n && 0 <= f < paths.len() ==> !under(
                #[trigger] paths[f],
                #[trigger] all[k].0,
            ),
    decreases n,
{
    if n > 0 {
        clean_means(all, paths, (n - 1) as nat);
        no_overlap(all, n - 1, (n - 1) as nat);
        none_held(paths, all[n - 1], paths.len());
    }
}

proof fn no_overlap(all: Seq<(Seq<char>, Seq<char>)>, k: int, j: nat)
    requires
        overlap(all, k, j) is None,
    ensures
        forall|i: int| 0 <= i < j ==> !overlapping(all[k].0, #[trigger] all[i].0),
    decreases j,
{
    if j > 0 {
        no_overlap(all, k, (j - 1) as nat);
    }
}

proof fn none_held(paths: Seq<Seq<char>>, claim: (Seq<char>, Seq<char>), f: nat)
    requires
        held(paths, claim, f) is None,
    ensures
        forall|i: int| 0 <= i < f ==> !under(#[trigger] paths[i], claim.0),
    decreases f,
{
    if f > 0 {
        none_held(paths, claim, (f - 1) as nat);
    }
}

/// A clean directory and its action.
struct Claim {
    dir: String,
    action: String,
}

spec fn claim_texts(v: Seq<Claim>) -> Seq<(Seq<char>, Seq<char>)> {
    Seq::new(v.len(), |i: int| (v[i].dir@, v[i].action@))
}

/// The clean directories of actions, each with its action.
fn collect_claims(actions: &Vec<ActionNode>, Ghost(paths): Ghost<Seq<Seq<char>>>) -> (r: Vec<Claim>)
    ensures
        claim_texts(r@) == claims(action_models(paths, actions@), actions@.len()),
{
    let ghost models = action_models(paths, actions@);
    let mut out: Vec<Claim> = Vec::new();
    let mut a: usize = 0;
    assert(claim_texts(out@) =~= claims(models, 0));
    while a < actions.len()
        invariant
            models == action_models(paths, actions@),
            a <= actions@.len(),
            claim_texts(out@) == claims(models, a as nat),
        decreases actions@.len() - a,
    {
        let action = &actions[a];
        let ghost done = claim_texts(out@);
        let ghost m = models[a as int];
        let ghost mine = Seq::new(m.clean_dirs.len(), |k: int| (m.clean_dirs[k], m.id));
        let mut k: usize = 0;
        assert(done + mine.take(0) =~= done);
        while k < action.clean_dirs.len()
            invariant
                *action == actions@[a as int],
                a < actions@.len(),
                models == action_models(paths, actions@),
                m == models[a as int],
                mine == Seq::new(m.clean_dirs.len(), |k: int| (m.clean_dirs[k], m.id)),
                k <= action.clean_dirs@.len(),
                claim_texts(out@) == done + mine.take(k as int),
            decreases action.clean_dirs@.len() - k,
        {
            let ghost was = claim_texts(out@);
            out.push(Claim { dir: copy(&action.clean_dirs[k]), action: copy(&action.id) });
            assert(m.clean_dirs[k as int] == action.clean_dirs@[k as int]@);
            assert(claim_texts(out@) =~= was.push(mine[k as int]));
            assert(mine.take(k + 1) =~= mine.take(k as int).push(mine[k as int]));
            assert(claim_texts(out@) =~= done + mine.take(k + 1));
            k += 1;
        }
        assert(mine.take(k as int) =~= mine);
        a += 1;
    }
    out
}

/// Checks that no two clean directories overlap and that none holds a file of
/// the graph.
pub fn validate_clean_dirs(files: &Vec<FileNode>, actions: &Vec<ActionNode>) -> (r: Result<
    (),
    GraphError,
>)
    ensures
        match r {
            Ok(_) => clean_fault(
                action_models(file_paths(files@), actions@),
                file_paths(files@),
            ) is None,
            Err(e) => clean_fault(
                action_models(file_paths(files@), actions@),
                file_paths(files@),
            ) == Some(e@),
        },
{
    let ghost paths = file_paths(files@);
    let found = collect_claims(actions, Ghost(paths));
    let ghost all = claim_texts(found@);
    let mut k: usize = 0;
    while k < found.len()
        invariant
            paths == file_paths(files@),
            all == claim_texts(found@),
            all == claims(action_models(paths, actions@), actions@.len()),
            k <= found@.len(),
            claims_fault(all, paths, k as nat) is None,
        decreases found@.len() - k,
    {
        let claim = &found[k];
        assert(all[k as int] == (claim.dir@, claim.action@));
        let mut j: usize = 0;
        while j < k
            invariant
                paths == file_paths(files@),
                all == claim_texts(found@),
                all == claims(action_models(paths, actions@), actions@.len()),
                k < found@.len(),
                *claim == found@[k as int],
                all[k as int] == (claim.dir@, claim.action@),
                j <= k,
                claims_fault(all, paths, k as nat) is None,
                overlap(all, k as int, j as nat) is None,
            decreases k - j,
        {
            let other = &found[j];
            assert(all[j as int] == (other.dir@, other.action@));
            if starts_with_path(&claim.dir, &other.dir) || starts_with_path(
                &other.dir,
                &claim.dir,
            ) {
                let e = GraphError::Overlap {
                    dir: copy(&claim.dir),
                    action: copy(&claim.action),
                    other_dir: copy(&other.dir),
                    other: copy(&other.action),
                };
                proof {
                    assert(overlap(all, k as int, (j + 1) as nat) == Some(e@));
                    overlap_stays(all, k as int, (j + 1) as nat, k as nat);
                    assert(claims_fault(all, paths, (k + 1) as nat) == Some(e@));
                    claims_fault_stays(all, paths, (k + 1) as nat, all.len());
                }
                return Err(e);
            }
            j += 1;
        }
        let mut f: usize = 0;
        while f < files.len()
            invariant
                paths == file_paths(files@),
                all == claim_texts(found@),
                all == claims(action_models(paths, actions@), actions@.len()),
                k < found@.len(),
                *claim == found@[k as int],
                all[k as int] == (claim.dir@, claim.action@),
                f <= files@.len(),
                claims_fault(all, paths, k as nat) is None,
                overlap(all, k as int, k as nat) is None,
                held(paths, all[k as int], f as nat) is None,
            decreases files@.len() - f,
        {
            assert(paths[f as int] == files@[f as int].path@);
            if starts_with_path(&files[f].path, &claim.dir) {
                let e = GraphError::Holds {
                    dir: copy(&claim.dir),
                    action: copy(&claim.action),
                    path: copy(&files[f].path),
                };
                proof {
                    assert(held(paths, all[k as int], (f + 1) as nat) == Some(e@));
                    held_stays(paths, all[k as int], (f + 1) as nat, paths.len());
                    assert(claims_fault(all, paths, (k + 1) as nat) == Some(e@));
                    claims_fault_stays(all, paths, (k + 1) as nat, all.len());
                }
                return Err(e);
            }
            f += 1;
        }
        k += 1;
    }
    Ok(())
}

// ---------------------------------------------------------------------------
// Targets in order
// ---------------------------------------------------------------------------

/// The dependencies of each target as positions among the targets.
pub open spec fn dep_numbers(m: Manifest) -> Seq<Seq<int>> {
    Seq::new(
        m.targets.values@.len(),
        |i: int|
            Seq::new(
                m.targets.values@[i].deps@.len(),
                |j: int| m.targets.spot(m.targets.values@[i].deps@[j]@),
            ),
    )
}

/// The target at position `p` of an order.
pub open spec fn nth(m: Manifest, order: Seq<int>, p: int) -> Target {
    m.targets.values@[order[p]]
}

/// Where the dependencies of the target at position `p` of an order stand in
/// it.
pub open spec fn parents(m: Manifest, order: Seq<int>, p: int) -> Seq<int> {
    let deps = dep_numbers(m)[order[p]];
    Seq::new(deps.len(), |j: int| order.index_of(deps[j]))
}

/// The include directories that the first `n` targets export.
pub open spec fn include_sets(m: Manifest, order: Seq<int>, n: nat) -> Seq<Shared> {
    Seq::new(
        n,
        |p: int|
            Shared { own: texts(nth(m, order, p).includes@), parents: parents(m, order, p) },
    )
}

/// The libraries that the first `n` targets export.
pub open spec fn lib_sets(config: Configuration, m: Manifest, order: Seq<int>, n: nat) -> Seq<
    Shared,
> {
    Seq::new(
        n,
        |p: int|
            Shared { own: own_libs(config, nth(m, order, p)), parents: parents(m, order, p) },
    )
}

/// The generated files that the first `n` targets export.
pub open spec fn gen_sets(config: Configuration, m: Manifest, order: Seq<int>, n: nat) -> Seq<
    Shared,
> {
    Seq::new(
        n,
        |p: int|
            Shared { own: own_gens(config, nth(m, order, p)), parents: parents(m, order, p) },
    )
}

/// The outputs of the first `k` dependencies of target `i`.
pub open spec fn dep_outputs(config: Configuration, m: Manifest, i: int, k: nat) -> Seq<Seq<char>>
    decreases k,
{
    if k == 0 {
        Seq::empty()
    } else {
        dep_outputs(config, m, i, (k - 1) as nat) + target_outputs(
            config,
            m.targets.values@[dep_numbers(m)[i][k - 1]],
        )
    }
}

/// What the target at position `p` of an order has from those it depends on.
#[verifier::opaque]
pub open spec fn exports_at(config: Configuration, m: Manifest, order: Seq<int>, p: int) -> Exports {
    Exports {
        dep_outputs: dep_outputs(config, m, order[p], nth(m, order, p).deps@.len()),
        includes: flat(include_sets(m, order, (p + 1) as nat), p),
        libs: flat_all(lib_sets(config, m, order, p as nat), parents(m, order, p)),
        gens: flat_all(gen_sets(config, m, order, p as nat), parents(m, order, p)),
    }
}

/// The actions of the first `p` targets of an order, or why there are none.
pub open spec fn actions_up_to(s: Setting, m: Manifest, order: Seq<int>, p: nat) -> Result<
    Seq<Action>,
    Fault,
>
    decreases p,
{
    if p == 0 {
        Ok(Seq::empty())
    } else {
        match actions_up_to(s, m, order, (p - 1) as nat) {
            Err(fault) => Err(fault),
            Ok(actions) => target_step(
                actions,
                s,
                nth(m, order, p - 1),
                exports_at(s.config, m, order, p - 1),
            ),
        }
    }
}

/// The files of the first `p` targets of an order.
pub open spec fn files_up_to(s: Setting, m: Manifest, order: Seq<int>, p: nat) -> Seq<Seq<char>>
    decreases p,
{
    if p == 0 {
        Seq::empty()
    } else {
        add_new(
            files_up_to(s, m, order, (p - 1) as nat),
            target_files(s, nth(m, order, p - 1), exports_at(s.config, m, order, p - 1)),
        )
    }
}

/// How many actions the first `p` targets of an order have.
pub open spec fn count_up_to(s: Setting, m: Manifest, order: Seq<int>, p: nat) -> int {
    actions_up_to(s, m, order, p)->Ok_0.len() as int
}

proof fn actions_fault_stays(s: Setting, m: Manifest, order: Seq<int>, k: nat, n: nat)
    requires
        k <= n,
        actions_up_to(s, m, order, k) is Err,
    ensures
        actions_up_to(s, m, order, n) == actions_up_to(s, m, order, k),
    decreases n - k,
{
    if k < n {
        actions_fault_stays(s, m, order, k + 1, n);
    }
}

/// An order of the targets in which each stands behind those it depends on.
#[verifier::opaque]
pub open spec fn sound_order(m: Manifest, order: Seq<int>) -> bool {
    &&& deps_first(dep_numbers(m), order)
    &&& order.no_duplicates()
    &&& forall|t: int| 0 <= t < m.targets.values@.len() <==> #[trigger] order.contains(t)
}

/// A graph that is being built target by target.
struct Progress {
    builder: Builder,
    includes: SharedSets,
    libs: SharedSets,
    gens: SharedSets,
    /// Where a target stands in the order.
    position: Vec<usize>,
    outputs: Vec<Vec<usize>>,
    actions: Vec<Vec<usize>>,
}

impl Progress {
    /// The first `p` targets of `order` are in the graph.
    spec fn reached(self, s: Setting, m: Manifest, order: Seq<int>, p: int) -> bool {
        self.builder.wf() && self.holds(s, m, order, p)
    }

    /// The graph holds the actions, files and exports of the first `p` targets
    /// of `order`.
    #[verifier::opaque]
    spec fn holds(self, s: Setting, m: Manifest, order: Seq<int>, p: int) -> bool {
        let n = m.targets.values@.len();
        &&& 0 <= p <= order.len()
        &&& actions_up_to(s, m, order, p as nat) == Ok::<Seq<Action>, Fault>(
            self.builder.models(),
        )
        &&& self.builder.paths() == files_up_to(s, m, order, p as nat)
        &&& self.includes@ == include_sets(m, order, p as nat) && backward(self.includes@)
        &&& self.libs@ == lib_sets(s.config, m, order, p as nat) && backward(self.libs@)
        &&& self.gens@ == gen_sets(s.config, m, order, p as nat) && backward(self.gens@)
        &&& self.position@.len() == n && self.outputs@.len() == n && self.actions@.len() == n
        &&& forall|q: int| 0 <= q < p ==> self.placed(s, m, order, q, #[trigger] order[q])
    }

    /// The target `t` at position `q` of `order` is in the graph.
    spec fn placed(self, s: Setting, m: Manifest, order: Seq<int>, q: int, t: int) -> bool {
        &&& self.position@[t] == q
        &&& ids_ok(self.builder.files@.len(), self.outputs@[t]@)
        &&& paths_at(self.builder.paths(), self.outputs@[t]@) == target_outputs(
            s.config,
            m.targets.values@[t],
        )
        &&& ids_ok(self.builder.actions@.len(), self.actions@[t]@)
        &&& ints(self.actions@[t]@) == span(
            count_up_to(s, m, order, q as nat),
            count_up_to(s, m, order, (q + 1) as nat),
        )
    }

    /// There are entries for every target.
    proof fn sizes(self, s: Setting, m: Manifest, order: Seq<int>, p: int)
        requires
            self.reached(s, m, order, p),
        ensures
            self.position@.len() == m.targets.values@.len(),
            self.outputs@.len() == m.targets.values@.len(),
            self.actions@.len() == m.targets.values@.len(),
    {
        reveal(Progress::holds);
    }

    /// Where the dependencies of the next target stand in the order.
    fn parents_of(
        &self,
        own: &Vec<usize>,
        Ghost(s): Ghost<Setting>,
        Ghost(m): Ghost<Manifest>,
        Ghost(order): Ghost<Seq<int>>,
        Ghost(p): Ghost<int>,
    ) -> (r: Vec<usize>)
        requires
            sound_order(m, order),
            self.reached(s, m, order, p),
            0 <= p < order.len(),
            ints(own@) == dep_numbers(m)[order[p]],
        ensures
            ints(r@) == parents(m, order, p),
            forall|k: int| 0 <= k < r@.len() ==> #[trigger] r@[k] < p,
    {
        let mut out: Vec<usize> = Vec::new();
        let ghost want = parents(m, order, p);
        let mut j: usize = 0;
        while j < own.len()
            invariant
                sound_order(m, order),
                self.reached(s, m, order, p),
                0 <= p < order.len(),
                ints(own@) == dep_numbers(m)[order[p]],
                want == parents(m, order, p),
                j <= own@.len(),
                out@.len() == j,
                forall|k: int| 0 <= k < j ==> #[trigger] out@[k] == want[k] && out@[k] < p,
            decreases own@.len() - j,
        {
            let d: usize = own[j];
            proof {
                dep_is_placed(*self, s, m, order, p, j as int);
                self.sizes(s, m, order, p);
                assert(ints(own@)[j as int] == d);
            }
            out.push(self.position[d]);
            j += 1;
        }
        assert(ints(out@) =~= want);
        out
    }

    /// The outputs of those that the next target depends on.
    fn outputs_of(
        &self,
        own: &Vec<usize>,
        Ghost(s): Ghost<Setting>,
        Ghost(m): Ghost<Manifest>,
        Ghost(order): Ghost<Seq<int>>,
        Ghost(p): Ghost<int>,
    ) -> (r: Vec<usize>)
        requires
            sound_order(m, order),
            self.reached(s, m, order, p),
            0 <= p < order.len(),
            ints(own@) == dep_numbers(m)[order[p]],
        ensures
            ids_ok(self.builder.files@.len(), r@),
            paths_at(self.builder.paths(), r@) == dep_outputs(
                s.config,
                m,
                order[p],
                own@.len(),
            ),
    {
        let mut out: Vec<usize> = Vec::new();
        let ghost paths = self.builder.paths();
        let mut j: usize = 0;
        assert(paths_at(paths, out@) =~= Seq::empty());
        while j < own.len()
            invariant
                sound_order(m, order),
                self.reached(s, m, order, p),
                0 <= p < order.len(),
                ints(own@) == dep_numbers(m)[order[p]],
                paths == self.builder.paths(),
                j <= own@.len(),
                ids_ok(self.builder.files@.len(), out@),
                paths_at(paths, out@) == dep_outputs(s.config, m, order[p], j as nat),
            decreases own@.len() - j,
        {
            let d: usize = own[j];
            proof {
                dep_is_placed(*self, s, m, order, p, j as int);
                self.sizes(s, m, order, p);
                assert(ints(own@)[j as int] == d);
            }
            let ghost was = out@;
            let mut more = self.outputs[d].clone();
            assert(more@ =~= self.outputs@[d as int]@);
            let ghost added = more@;
            out.append(&mut more);
            assert(paths_at(paths, out@) =~= paths_at(paths, was) + paths_at(paths, added));
            j += 1;
        }
        out
    }
}

/// A dependency of the next target of an order is in the graph.
proof fn dep_is_placed(g: Progress, s: Setting, m: Manifest, order: Seq<int>, p: int, j: int)
    requires
        sound_order(m, order),
        g.reached(s, m, order, p),
        0 <= p < order.len(),
        0 <= j < dep_numbers(m)[order[p]].len(),
    ensures
        ({
            let d = dep_numbers(m)[order[p]][j];
            &&& 0 <= d < m.targets.values@.len()
            &&& 0 <= order.index_of(d) < p
            &&& g.placed(s, m, order, order.index_of(d), d)
        }),
{
    reveal(sound_order);
    reveal(Progress::holds);
    let d = dep_numbers(m)[order[p]][j];
    assert(order.take(p).contains(dep_numbers(m)[order[p]][j]));
    let q = order.take(p).index_of(d);
    assert(order.take(p)[q] == d);
    assert(order[q] == d);
    assert(order.contains(d));
    let k = order.index_of(d);
    assert(order[k] == d);
    assert(k == q);
    assert(g.placed(s, m, order, q, order[q]));
}

/// What was placed stays placed while the graph grows.
proof fn placed_grows(
    was: Progress,
    now: Progress,
    s: Setting,
    m: Manifest,
    order: Seq<int>,
    q: int,
    t: int,
)
    requires
        was.placed(s, m, order, q, t),
        extends(was.builder.paths(), now.builder.paths()),
        was.builder.actions@.len() <= now.builder.actions@.len(),
        now.position@[t] == was.position@[t],
        now.outputs@[t] == was.outputs@[t],
        now.actions@[t] == was.actions@[t],
    ensures
        now.placed(s, m, order, q, t),
{
    paths_at_grown(was.builder.paths(), now.builder.paths(), was.outputs@[t]@);
}

/// Different positions of an order hold different targets.
proof fn differs(m: Manifest, order: Seq<int>, q: int, p: int)
    requires
        sound_order(m, order),
        0 <= q < p < order.len(),
    ensures
        order[q] != order[p],
        0 <= order[q] < m.targets.values@.len(),
{
    reveal(sound_order);
    assert(order.contains(order[q]));
}

/// After one more target is added, one more is reached.
proof fn advanced(
    was: Progress,
    now: Progress,
    s: Setting,
    m: Manifest,
    order: Seq<int>,
    p: int,
)
    requires
        sound_order(m, order),
        was.holds(s, m, order, p),
        0 <= p < order.len(),
        0 <= order[p] < m.targets.values@.len(),
        ({
            let t = order[p];
            let x = exports_at(s.config, m, order, p);
            &&& target_step(was.builder.models(), s, m.targets.values@[t], x) == Ok::<
                Seq<Action>,
                Fault,
            >(now.builder.models())
            &&& now.builder.paths() == add_new(
                was.builder.paths(),
                target_files(s, m.targets.values@[t], x),
            )
            &&& now.position@ == was.position@.update(t, p as usize)
            &&& now.outputs@ == was.outputs@.update(t, now.outputs@[t])
            &&& now.actions@ == was.actions@.update(t, now.actions@[t])
            &&& ints(now.actions@[t]@) == span(
                was.builder.actions@.len() as int,
                now.builder.actions@.len() as int,
            )
            &&& ids_ok(now.builder.files@.len(), now.outputs@[t]@)
            &&& paths_at(now.builder.paths(), now.outputs@[t]@) == target_outputs(
                s.config,
                m.targets.values@[t],
            )
        }),
        p <= usize::MAX,
        now.includes@ == include_sets(m, order, (p + 1) as nat) && backward(now.includes@),
        now.libs@ == lib_sets(s.config, m, order, (p + 1) as nat) && backward(now.libs@),
        now.gens@ == gen_sets(s.config, m, order, (p + 1) as nat) && backward(now.gens@),
    ensures
        now.holds(s, m, order, p + 1),
{
    reveal(Progress::holds);
    let t = order[p];
    let x = exports_at(s.config, m, order, p);
    let before = was.builder.models();
    target_step_grows(before, s, m.targets.values@[t], x);
    assert(before.len() == was.builder.actions@.len());
    assert(now.builder.models().len() == now.builder.actions@.len());
    add_new_extends(was.builder.paths(), target_files(s, m.targets.values@[t], x));
    assert(count_up_to(s, m, order, p as nat) == before.len());
    assert(count_up_to(s, m, order, (p + 1) as nat) == now.builder.actions@.len());
    assert forall|q: int| 0 <= q < p + 1 implies now.placed(s, m, order, q, #[trigger] order[q]) by {
        if q < p {
            differs(m, order, q, p);
            assert(was.placed(s, m, order, q, order[q]));
            placed_grows(was, now, s, m, order, q, order[q]);
        } else {
            assert forall|k: int| 0 <= k < now.actions@[t]@.len() implies #[trigger]
                now.actions@[t]@[k] < now.builder.actions@.len() by {
                let from = was.builder.actions@.len() as int;
                let to = now.builder.actions@.len() as int;
                assert(ints(now.actions@[t]@)[k] == now.actions@[t]@[k]);
                assert(span(from, to).len() == to - from);
                assert(span(from, to)[k] == from + k);
            }
        }
    }
}

impl Progress {
    /// What is known of the sets and the graph.
    proof fn parts(self, s: Setting, m: Manifest, order: Seq<int>, p: int)
        requires
            self.reached(s, m, order, p),
        ensures
            self.builder.wf(),
            actions_up_to(s, m, order, p as nat) == Ok::<Seq<Action>, Fault>(
                self.builder.models(),
            ),
            self.builder.paths() == files_up_to(s, m, order, p as nat),
            self.includes@ == include_sets(m, order, p as nat) && backward(self.includes@),
            self.libs@ == lib_sets(s.config, m, order, p as nat) && backward(self.libs@),
            self.gens@ == gen_sets(s.config, m, order, p as nat) && backward(self.gens@),
    {
        reveal(Progress::holds);
    }

    /// Adds the next target of the order.
    fn step(
        &mut self,
        s: &Settings,
        m: &Manifest,
        own: &Vec<usize>,
        t: usize,
        p: usize,
        Ghost(order): Ghost<Seq<int>>,
    ) -> (r: Result<(), GraphError>)
        requires
            sound_order(*m, order),
            old(self).reached(s@, *m, order, p as int),
            p < order.len(),
            order[p as int] == t,
            t < m.targets.values@.len(),
            ints(own@) == dep_numbers(*m)[t as int],
            ready(m.targets.values@[t as int]),
            s.toolchain.tools.wf(),
        ensures
            match r {
                Ok(_) => final(self).reached(s@, *m, order, p + 1),
                Err(e) => actions_up_to(s@, *m, order, (p + 1) as nat) == Err::<
                    Seq<Action>,
                    Fault,
                >(e@),
            },
    {
        broadcast use group_texts;
        let ghost was = *self;
        let ghost x = exports_at(s.config@, *m, order, p as int);
        let target = &m.targets.values[t];
        let above = self.parents_of(own, Ghost(s@), Ghost(*m), Ghost(order), Ghost(p as int));
        let dep_outputs = self.outputs_of(
            own,
            Ghost(s@),
            Ghost(*m),
            Ghost(order),
            Ghost(p as int),
        );
        proof {
            self.parts(s@, *m, order, p as int);
            self.sizes(s@, *m, order, p as int);
            assert(dep_numbers(*m)[t as int].len() == target.deps@.len());
            assert(ints(own@).len() == own@.len());
        }
        let at = self.includes.join(copies(&target.includes), copy_ids(&above));
        proof {
            assert(Seq::new(above@.len(), |k: int| above@[k] as int) =~= parents(
                *m,
                order,
                p as int,
            ));
            assert(self.includes@ =~= include_sets(*m, order, (p + 1) as nat));
        }
        let includes = self.includes.flatten(at);
        let libs = self.libs.flatten_all(&above);
        let gens = self.gens.flatten_all(&above);
        let given = Given { dep_outputs, includes, libs, gens };
        assert(exports(was.builder.paths(), given) == x) by {
            reveal(exports_at);
        }
        let built = match self.builder.add_target(s, target, &given) {
            Ok(built) => built,
            Err(e) => {
                return Err(e);
            },
        };
        let mut own_lib: Vec<String> = Vec::new();
        if target.kind == TargetKind::CcLibrary {
            own_lib.push(lib_of(&s.config, &target.name));
        }
        assert(texts(own_lib@) =~= own_libs(s.config@, *target));
        let own_gen = if target.kind == TargetKind::Genrule || target.kind == TargetKind::Command {
            self.builder.paths_of(&built.outputs)
        } else {
            Vec::new()
        };
        assert(texts(own_gen@) =~= own_gens(s.config@, *target));
        let _ = self.libs.join(own_lib, copy_ids(&above));
        let _ = self.gens.join(own_gen, above);
        proof {
            assert(self.libs@ =~= lib_sets(s.config@, *m, order, (p + 1) as nat));
            assert(self.gens@ =~= gen_sets(s.config@, *m, order, (p + 1) as nat));
        }
        self.position.set(t, p);
        self.outputs.set(t, built.outputs);
        self.actions.set(t, built.actions);
        proof {
            assert(self.position@ =~= was.position@.update(t as int, p));
            advanced(was, *self, s@, *m, order, p as int);
        }
        Ok(())
    }
}

// ---------------------------------------------------------------------------
// The graph of a workspace
// ---------------------------------------------------------------------------

/// The part of output paths that a profile and a platform decide. The host
/// platform has none of its own.
pub open spec fn tree_of(profile: Seq<char>, platform: Seq<char>) -> Seq<char> {
    if platform == HOST_PLATFORM@ {
        profile
    } else {
        platform + "/"@ + profile
    }
}

/// The configuration for a profile and a platform.
pub open spec fn configuration(profile: Seq<char>, platform: Seq<char>) -> Configuration {
    Configuration { tree: tree_of(profile, platform), profile, platform }
}

/// A workspace that declares profiles knows only those and the default.
pub open spec fn profile_known(m: Manifest, profile: Seq<char>) -> bool {
    m.profiles.keys@.len() == 0 || profile == DEFAULT_PROFILE@ || m.profiles.has(profile)
}

/// The flags of a profile; none where it is not declared.
pub open spec fn profile_flags(m: Manifest, profile: Seq<char>) -> Flags {
    if m.profiles.has(profile) {
        flags(m.profiles.at(profile))
    } else {
        Flags { cflags: Seq::empty(), cxxflags: Seq::empty(), ldflags: Seq::empty() }
    }
}

/// What the targets of a workspace are built with.
pub open spec fn setting_for(
    m: Manifest,
    profile: Seq<char>,
    platform: Seq<char>,
    tc: Toolchain,
) -> Setting {
    Setting {
        config: configuration(profile, platform),
        tc,
        flags: profile_flags(m, profile),
    }
}

/// The order in which the targets of a workspace are built.
pub open spec fn order_of(m: Manifest) -> Seq<int> {
    build_order(dep_numbers(m))
}

/// The names of the targets at some positions.
pub open spec fn names_at(m: Manifest, path: Seq<int>) -> Seq<Seq<char>> {
    Seq::new(path.len(), |k: int| m.targets.names()[path[k]])
}

/// The node of a target: its kind and dependencies, the actions made for it,
/// and its outputs.
pub open spec fn node_for(
    g: BuildGraph,
    s: Setting,
    m: Manifest,
    order: Seq<int>,
    i: int,
) -> bool {
    let t = m.targets.values@[i];
    let node = g.targets.values@[i];
    let p = order.index_of(i);
    &&& node.name@ == t.name@
    &&& node.kind == t.kind
    &&& texts(node.deps@) == texts(t.deps@)
    &&& ints(node.actions@) == span(
        count_up_to(s, m, order, p as nat),
        count_up_to(s, m, order, (p + 1) as nat),
    )
    &&& paths_at(g.paths(), node.outputs@) == target_outputs(s.config, t)
}

/// `g` is the build graph of the workspace `m` for a profile and a platform.
pub open spec fn graph_of(
    m: Manifest,
    profile: Seq<char>,
    platform: Seq<char>,
    g: BuildGraph,
) -> bool {
    let s = setting_for(m, profile, platform, g.toolchain);
    let order = order_of(m);
    let n = m.targets.values@.len();
    &&& plain_name(profile) && profile_known(m, profile)
    &&& m.resolves(platform, g.toolchain)
    &&& first_cycle(dep_numbers(m)) is None
    &&& sound_order(m, order)
    &&& actions_up_to(s, m, order, n) == Ok::<Seq<Action>, Fault>(
        action_models(g.paths(), g.actions@),
    )
    &&& g.paths() == files_up_to(s, m, order, n)
    &&& clean_fault(action_models(g.paths(), g.actions@), g.paths()) is None
    &&& g.targets.names() == m.targets.names()
    &&& forall|i: int| #![trigger g.targets.values@[i]]
        0 <= i < n ==> node_for(g, s, m, order, i)
    &&& g.profile@ == profile && g.platform@ == platform
    &&& texts(g.default_targets@) == texts(m.default_targets@)
}

/// `fault` is why the workspace `m` has no build graph for a profile and a
/// platform: the first of an invalid or unknown profile, an unknown platform,
/// the first cycle of dependencies, what is wrong with a target in build order, and
/// what is wrong with clean directories.
pub open spec fn no_graph(
    m: Manifest,
    profile: Seq<char>,
    platform: Seq<char>,
    fault: Fault,
) -> bool {
    if !plain_name(profile) {
        fault == Fault::InvalidProfile(profile)
    } else if !profile_known(m, profile) {
        fault == Fault::UnknownProfile {
            profile,
            hint: suggestion(profile, m.profiles.names()),
            known: m.profiles.names(),
        }
    } else if platform != HOST_PLATFORM@ && !m.platforms.has(platform) {
        fault == Fault::UnknownPlatform {
            platform,
            hint: suggestion(platform, m.platforms.names()),
            known: m.platforms.names(),
        }
    } else {
        match first_cycle(dep_numbers(m)) {
            Some(path) => cycle(dep_numbers(m), path) && fault == Fault::Cycle(names_at(m, path)),
            None => sound_order(m, order_of(m)) && exists|tc: Toolchain| #[trigger]
                m.resolves(platform, tc) && target_or_clean_fault(
                    m,
                    setting_for(m, profile, platform, tc),
                    fault,
                ),
        }
    }
}

/// `fault` is what is wrong with a target in build order, or else with clean
/// directories.
pub open spec fn target_or_clean_fault(m: Manifest, s: Setting, fault: Fault) -> bool {
    let n = m.targets.values@.len();
    match actions_up_to(s, m, order_of(m), n) {
        Err(e) => fault == e,
        Ok(actions) => clean_fault(actions, files_up_to(s, m, order_of(m), n)) == Some(fault),
    }
}

/// The dependencies of each target as positions among the targets.
fn number_deps(m: &Manifest) -> (r: Vec<Vec<usize>>)
    requires
        m.targets.wf(),
        m.deps_known(),
    ensures
        numbers(r@) == dep_numbers(*m),
        in_range(numbers(r@)),
{
    let ghost all = dep_numbers(*m);
    let mut out: Vec<Vec<usize>> = Vec::new();
    let mut i: usize = 0;
    while i < m.targets.values.len()
        invariant
            m.targets.wf(),
            m.deps_known(),
            all == dep_numbers(*m),
            i <= m.targets.values@.len(),
            out@.len() == i,
            forall|k: int| 0 <= k < i ==> #[trigger] ints(out@[k]@) == all[k],
            forall|k: int, j: int|
                0 <= k < i && 0 <= j < out@[k]@.len() ==> #[trigger] out@[k]@[j]
                    < m.targets.values@.len(),
        decreases m.targets.values@.len() - i,
    {
        let deps = &m.targets.values[i].deps;
        let mut own: Vec<usize> = Vec::new();
        let mut j: usize = 0;
        while j < deps.len()
            invariant
                m.targets.wf(),
                m.deps_known(),
                all == dep_numbers(*m),
                i < m.targets.values@.len(),
                *deps == m.targets.values@[i as int].deps,
                j <= deps@.len(),
                own@.len() == j,
                forall|k: int|
                    0 <= k < j ==> #[trigger] own@[k] == all[i as int][k] && own@[k]
                        < m.targets.values@.len(),
            decreases deps@.len() - j,
        {
            assert(m.targets.has(m.targets.values@[i as int].deps@[j as int]@));
            match m.targets.find(&deps[j]) {
                Some(at) => {
                    own.push(at);
                },
                None => {
                    assert(false);
                },
            }
            j += 1;
        }
        assert(ints(own@) =~= all[i as int]);
        out.push(own);
        i += 1;
    }
    proof {
        assert forall|k: int| 0 <= k < all.len() implies numbers(out@)[k] == all[k] by {
            assert(ints(out@[k]@) == all[k]);
            assert(numbers(out@)[k] =~= ints(out@[k]@));
        }
        assert(numbers(out@) =~= all);
        assert forall|k: int, j: int|
            0 <= k < numbers(out@).len() && 0 <= j < numbers(out@)[k].len() implies 0
            <= #[trigger] numbers(out@)[k][j] < numbers(out@).len() by {
            assert(out@[k]@[j] < m.targets.values@.len());
        }
    }
    out
}

/// The names of the targets at some positions.
fn names_of(m: &Manifest, path: &Vec<usize>) -> (r: Vec<String>)
    requires
        m.targets.wf(),
        forall|k: int| 0 <= k < path@.len() ==> #[trigger] path@[k] < m.targets.values@.len(),
    ensures
        texts(r@) == names_at(*m, ints(path@)),
{
    broadcast use group_texts;
    let mut out: Vec<String> = Vec::new();
    let ghost all = names_at(*m, ints(path@));
    let mut k: usize = 0;
    while k < path.len()
        invariant
            m.targets.wf(),
            forall|k: int| 0 <= k < path@.len() ==> #[trigger] path@[k] < m.targets.values@.len(),
            all == names_at(*m, ints(path@)),
            k <= path@.len(),
            texts(out@) =~= all.take(k as int),
        decreases path@.len() - k,
    {
        assert(path@[k as int] < m.targets.values@.len());
        assert(all.take(k + 1) =~= all.take(k as int).push(all[k as int]));
        out.push(copy(&m.targets.keys[path[k]]));
        k += 1;
    }
    assert(texts(out@) =~= all);
    out
}

/// No flags, or those of a declared profile.
fn flags_for(m: &Manifest, profile: &str) -> (r: Profile)
    requires
        m.profiles.wf(),
    ensures
        flags(r) == profile_flags(*m, profile@),
{
    broadcast use group_texts;
    match m.profiles.get(profile) {
        Some(p) => Profile {
            cflags: copies(&p.cflags),
            cxxflags: copies(&p.cxxflags),
            ldflags: copies(&p.ldflags),
        },
        None => Profile { cflags: Vec::new(), cxxflags: Vec::new(), ldflags: Vec::new() },
    }
}

/// The configuration for a profile and a platform.
fn make_config(profile: &str, platform: &str) -> (r: Config)
    ensures
        r@ == configuration(profile@, platform@),
{
    let tree = if same(platform, HOST_PLATFORM) {
        copy(profile)
    } else {
        let mut tree = copy(platform);
        tree.append("/");
        tree.append(profile);
        tree
    };
    Config { tree, profile: copy(profile), platform: copy(platform) }
}

/// Empty lists, one for each of `n`.
fn empty_lists(n: usize) -> (r: Vec<Vec<usize>>)
    ensures
        r@.len() == n,
{
    let mut out: Vec<Vec<usize>> = Vec::new();
    let mut i: usize = 0;
    while i < n
        invariant
            i <= n,
            out@.len() == i,
        decreases n - i,
    {
        out.push(Vec::new());
        i += 1;
    }
    out
}

/// Adds all targets in order.
fn add_all(
    s: &Settings,
    m: &Manifest,
    deps: &Vec<Vec<usize>>,
    order: &Vec<usize>,
) -> (r: Result<Progress, GraphError>)
    requires
        m.wf(),
        sound_order(*m, ints(order@)),
        numbers(deps@) == dep_numbers(*m),
        s.toolchain.tools.wf(),
    ensures
        match r {
            Ok(g) => g.reached(s@, *m, ints(order@), order@.len() as int),
            Err(e) => actions_up_to(s@, *m, ints(order@), order@.len()) == Err::<
                Seq<Action>,
                Fault,
            >(e@),
        },
{
    let ghost ord = ints(order@);
    let n: usize = m.targets.values.len();
    let mut position: Vec<usize> = Vec::new();
    let mut i: usize = 0;
    while i < n
        invariant
            i <= n,
            position@.len() == i,
        decreases n - i,
    {
        position.push(0);
        i += 1;
    }
    let mut g = Progress {
        builder: Builder::new(),
        includes: SharedSets::new(),
        libs: SharedSets::new(),
        gens: SharedSets::new(),
        position,
        outputs: empty_lists(n),
        actions: empty_lists(n),
    };
    proof {
        begun(g, s@, *m, ord);
    }
    let mut p: usize = 0;
    while p < order.len()
        invariant
            m.wf(),
            ord == ints(order@),
            sound_order(*m, ord),
            numbers(deps@) == dep_numbers(*m),
            s.toolchain.tools.wf(),
            p <= order@.len(),
            g.reached(s@, *m, ord, p as int),
        decreases order@.len() - p,
    {
        let t: usize = order[p];
        proof {
            in_order_ok(*m, ord, p as int);
            assert(numbers(deps@).len() == deps@.len());
            assert(dep_numbers(*m).len() == m.targets.values@.len());
            assert(numbers(deps@)[t as int] =~= ints(deps@[t as int]@));
        }
        match g.step(s, m, &deps[t], t, p, Ghost(ord)) {
            Ok(_) => {},
            Err(e) => {
                proof {
                    actions_fault_stays(s@, *m, ord, (p + 1) as nat, order@.len());
                }
                return Err(e);
            },
        }
        p += 1;
    }
    Ok(g)
}

/// At the beginning no target is reached.
proof fn begun(g: Progress, s: Setting, m: Manifest, order: Seq<int>)
    requires
        g.builder.files@.len() == 0,
        g.builder.actions@.len() == 0,
        g.includes@.len() == 0,
        g.libs@.len() == 0,
        g.gens@.len() == 0,
        g.position@.len() == m.targets.values@.len(),
        g.outputs@.len() == m.targets.values@.len(),
        g.actions@.len() == m.targets.values@.len(),
    ensures
        g.holds(s, m, order, 0),
{
    reveal(Progress::holds);
    assert(g.includes@ =~= include_sets(m, order, 0));
    assert(g.libs@ =~= lib_sets(s.config, m, order, 0));
    assert(g.gens@ =~= gen_sets(s.config, m, order, 0));
    assert(g.builder.models() =~= Seq::empty());
    assert(g.builder.paths() =~= Seq::empty());
}

/// Orders hold targets.
proof fn in_order_ok(m: Manifest, order: Seq<int>, p: int)
    requires
        sound_order(m, order),
        0 <= p < order.len(),
    ensures
        0 <= order[p] < m.targets.values@.len(),
{
    reveal(sound_order);
    assert(order.contains(order[p]));
}

/// The graph that was built.
fn finish(g: Progress, s: Settings, m: &Manifest, Ghost(order): Ghost<Seq<int>>) -> (r: BuildGraph)
    requires
        m.wf(),
        sound_order(*m, order),
        g.reached(s@, *m, order, m.targets.values@.len() as int),
        order.len() == m.targets.values@.len(),
        s.toolchain.tools.wf(),
    ensures
        r.wf(),
        r.files == g.builder.files,
        r.actions == g.builder.actions,
        r.targets.names() == m.targets.names(),
        forall|i: int| #![trigger r.targets.values@[i]]
            0 <= i < m.targets.values@.len() ==> node_for(r, s@, *m, order, i),
        r.profile@ == s.config.profile@,
        r.platform@ == s.config.platform@,
        r.toolchain == s.toolchain,
        texts(r.default_targets@) == texts(m.default_targets@),
{
    let ghost n = m.targets.values@.len() as int;
    let mut nodes: Vec<TargetNode> = Vec::new();
    let mut i: usize = 0;
    proof {
        g.sizes(s@, *m, order, n);
    }
    while i < m.targets.values.len()
        invariant
            m.wf(),
            sound_order(*m, order),
            g.reached(s@, *m, order, n),
            n == m.targets.values@.len(),
            order.len() == n,
            g.outputs@.len() == n,
            g.actions@.len() == n,
            i <= n,
            nodes@.len() == i,
            forall|k: int| 0 <= k < i ==> made_node(g, *m, k, #[trigger] nodes@[k]),
        decreases n - i,
    {
        let t = &m.targets.values[i];
        nodes.push(
            TargetNode {
                name: copy(&t.name),
                kind: t.kind,
                deps: copies(&t.deps),
                actions: copy_ids(&g.actions[i]),
                outputs: copy_ids(&g.outputs[i]),
            },
        );
        i += 1;
    }
    let r = BuildGraph {
        files: g.builder.files,
        actions: g.builder.actions,
        targets: SortedMap { keys: copies(&m.targets.keys), values: nodes },
        profile: s.config.profile,
        platform: s.config.platform,
        toolchain: s.toolchain,
        default_targets: copies(&m.default_targets),
    };
    proof {
        assert forall|i: int| #![trigger r.targets.values@[i]] 0 <= i < n implies node_for(
            r,
            s@,
            *m,
            order,
            i,
        ) && r.target_ok(i) by {
            let node = r.targets.values@[i];
            assert(made_node(g, *m, i, nodes@[i]));
            is_placed(g, s@, *m, order, i);
            assert(texts(node.deps@).len() == node.deps@.len());
            assert(texts(m.targets.values@[i].deps@).len() == m.targets.values@[i].deps@.len());
            assert(m.targets.values@[i].name@ == m.targets.keys@[i]@);
            assert forall|j: int| 0 <= j < node.deps@.len() implies r.targets.has(
                (#[trigger] node.deps@[j])@,
            ) by {
                assert(texts(node.deps@)[j] == node.deps@[j]@);
                assert(texts(m.targets.values@[i].deps@)[j] == m.targets.values@[i].deps@[j]@);
                assert(m.targets.has(m.targets.values@[i].deps@[j]@));
                assert(r.targets.names() == m.targets.names());
            }
        }
    }
    r
}

/// The node that is made for target `i`.
spec fn made_node(g: Progress, m: Manifest, i: int, node: TargetNode) -> bool {
    let t = m.targets.values@[i];
    &&& node.name@ == t.name@
    &&& node.kind == t.kind
    &&& texts(node.deps@) == texts(t.deps@)
    &&& node.actions@ == g.actions@[i]@
    &&& node.outputs@ == g.outputs@[i]@
}

/// When all targets are reached, each is placed.
proof fn is_placed(g: Progress, s: Setting, m: Manifest, order: Seq<int>, i: int)
    requires
        sound_order(m, order),
        g.reached(s, m, order, order.len() as int),
        0 <= i < m.targets.values@.len(),
    ensures
        g.placed(s, m, order, order.index_of(i), i),
{
    reveal(sound_order);
    reveal(Progress::holds);
    assert(order.contains(i));
    let q = order.index_of(i);
    assert(order[q] == i);
    assert(g.placed(s, m, order, q, order[q]));
}

/// An order of all targets is as long as there are targets.
proof fn order_is_full(m: Manifest, order: Seq<int>)
    requires
        sound_order(m, order),
    ensures
        order.len() == m.targets.values@.len(),
{
    reveal(sound_order);
    let n = m.targets.values@.len();
    let all = vstd::set_lib::set_int_range(0, n as int);
    vstd::set_lib::lemma_int_range(0, n as int);
    assert(order.to_set() =~= all) by {
        assert forall|t: int| order.to_set().contains(t) <==> all.contains(t) by {
            assert(order.contains(t) <==> 0 <= t < n);
        }
    }
    order.unique_seq_to_set();
}

impl BuildGraph {
    /// The build graph of a workspace for a profile and a platform.
    pub fn from_manifest_configured(manifest: &Manifest, profile: &str, platform: &str) -> (r: Result<
        BuildGraph,
        GraphError,
    >)
        requires
            manifest.wf(),
        ensures
            match r {
                Ok(g) => g.wf() && graph_of(*manifest, profile@, platform@, g),
                Err(e) => no_graph(*manifest, profile@, platform@, e@),
            },
    {
        if !valid_target_name(profile) {
            return Err(GraphError::InvalidProfile { profile: copy(profile) });
        }
        if !manifest.profiles.is_empty() && !same(profile, DEFAULT_PROFILE)
            && !manifest.profiles.contains_key(profile) {
            return Err(
                GraphError::UnknownProfile {
                    profile: copy(profile),
                    hint: closest(profile, &manifest.profiles.keys),
                    known: copies(&manifest.profiles.keys),
                },
            );
        }
        let toolchain = match manifest.toolchain_for(platform) {
            Ok(toolchain) => toolchain,
            Err(e) => {
                return Err(
                    GraphError::UnknownPlatform {
                        platform: e.platform,
                        hint: e.hint,
                        known: e.known,
                    },
                );
            },
        };
        let deps = number_deps(manifest);
        let order = match toposort(&deps) {
            Ok(order) => order,
            Err(found) => {
                assert(numbers(deps@).len() == deps@.len());
                let names = names_of(manifest, &found);
                let e = GraphError::Cycle { names };
                assert(cycle(dep_numbers(*manifest), ints(found@)));
                return Err(e);
            },
        };
        let ghost ord = ints(order@);
        proof {
            reveal(sound_order);
            assert(numbers(deps@).len() == deps@.len());
            assert(sound_order(*manifest, ord));
            order_is_full(*manifest, ord);
        }
        let settings = Settings {
            config: make_config(profile, platform),
            toolchain,
            flags: flags_for(manifest, profile),
        };
        let ghost s = settings@;
        assert(s == setting_for(*manifest, profile@, platform@, settings.toolchain));
        let ghost tc = settings.toolchain;
        assert(manifest.resolves(platform@, tc));
        let g = match add_all(&settings, manifest, &deps, &order) {
            Ok(g) => g,
            Err(e) => {
                assert(target_or_clean_fault(*manifest, s, e@));
                return Err(e);
            },
        };
        proof {
            g.parts(s, *manifest, ord, order@.len() as int);
        }
        let graph = finish(g, settings, manifest, Ghost(ord));
        match validate_clean_dirs(&graph.files, &graph.actions) {
            Ok(_) => {},
            Err(e) => {
                assert(target_or_clean_fault(*manifest, s, e@));
                return Err(e);
            },
        }
        Ok(graph)
    }

    /// The build graph of a workspace for a profile on the host.
    pub fn from_manifest_with_profile(manifest: &Manifest, profile: &str) -> (r: Result<
        BuildGraph,
        GraphError,
    >)
        requires
            manifest.wf(),
        ensures
            match r {
                Ok(g) => g.wf() && graph_of(*manifest, profile@, HOST_PLATFORM@, g),
                Err(e) => no_graph(*manifest, profile@, HOST_PLATFORM@, e@),
            },
    {
        BuildGraph::from_manifest_configured(manifest, profile, HOST_PLATFORM)
    }

    /// The build graph of a workspace for the default profile on the host.
    pub fn from_manifest(manifest: &Manifest) -> (r: Result<BuildGraph, GraphError>)
        requires
            manifest.wf(),
        ensures
            match r {
                Ok(g) => g.wf() && graph_of(*manifest, DEFAULT_PROFILE@, HOST_PLATFORM@, g),
                Err(e) => no_graph(*manifest, DEFAULT_PROFILE@, HOST_PLATFORM@, e@),
            },
    {
        BuildGraph::from_manifest_with_profile(manifest, DEFAULT_PROFILE)
    }
}

/// Different profiles or platforms have different output trees.
pub proof fn trees_are_isolated(
    profile: Seq<char>,
    platform: Seq<char>,
    other_profile: Seq<char>,
    other_platform: Seq<char>,
)
    requires
        plain_name(profile),
        plain_name(platform),
        plain_name(other_profile),
        plain_name(other_platform),
        tree_of(profile, platform) == tree_of(other_profile, other_platform),
    ensures
        profile == other_profile,
        platform == other_platform,
{
    reveal_strlit("/");
    let a = tree_of(profile, platform);
    let b = tree_of(other_profile, other_platform);
    if platform != HOST_PLATFORM@ {
        assert(a[platform.len() as int] == '/');
        if other_platform == HOST_PLATFORM@ {
            assert(other_profile[platform.len() as int] == '/');
        } else {
            assert(b[other_platform.len() as int] == '/');
            if platform.len() < other_platform.len() {
                assert(other_platform[platform.len() as int] == '/');
            } else if platform.len() > other_platform.len() {
                assert(platform[other_platform.len() as int] == '/');
            }
            assert(a.take(platform.len() as int) =~= platform);
            assert(b.take(platform.len() as int) =~= other_platform);
            assert(a.skip(platform.len() as int + 1) =~= profile);
            assert(b.skip(platform.len() as int + 1) =~= other_profile);
        }
    } else if other_platform != HOST_PLATFORM@ {
        assert(b[other_platform.len() as int] == '/');
        assert(profile[other_platform.len() as int] == '/');
    }
}

} // verus!
