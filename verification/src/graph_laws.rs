//! What the build graph of a workspace holds, in terms of what its manifest
//! declares.

use vstd::prelude::*;

use crate::builder::{add_actions, clash, owner};
use crate::configure::{
    actions_up_to, claims, clean_means, count_up_to, dep_numbers, dep_outputs, exports_at, gen_sets,
    graph_of, include_sets, lib_sets, nth, order_of, overlapping, parents, setting_for, sound_order,
};
use crate::graph::{action_model, action_models, paths_at, BuildGraph, GraphError};
use crate::lower::{span, target_step};
use crate::manifest::{Manifest, Target, TargetKind};
use crate::paths::under;
use crate::reach::{reaches, walk, walks};
use crate::rules::{
    any_cxx, archive_action, bin_path, cc_actions, command_texts, compile_action, compile_actions,
    configured, cxx_source, lib_path, link_action, local_driver, obj_path, objects, own_gens,
    own_libs, run_action, step_argvs, step_drivers, target_actions, target_outputs, Action,
    ActionKind, Exports, Setting,
};
use crate::shared_set::{add_new, add_new_means, gathered, inherited, whole, Shared};
use crate::sorted_map::pairs;
use crate::template::{command_argv, config_texts, test_argv, CommandTexts, Configuration};
use crate::text::{begins, texts};
use crate::toposort::ints;

verus! {

// ---------------------------------------------------------------------------
// Which actions a graph has
// ---------------------------------------------------------------------------

/// Actions that are added stand behind those that were there.
proof fn added(actions: Seq<Action>, more: Seq<Action>, n: nat)
    requires
        n <= more.len(),
        add_actions(actions, more, n) is Ok,
    ensures
        add_actions(actions, more, n)->Ok_0 == actions + more.take(n as int),
    decreases n,
{
    if n == 0 {
        assert(actions + more.take(0) =~= actions);
    } else {
        added(actions, more, (n - 1) as nat);
        assert(more.take(n as int) =~= more.take(n - 1).push(more[n - 1]));
        assert(actions + more.take(n as int) =~= (actions + more.take(n - 1)).push(more[n - 1]));
    }
}

/// The actions of the target at position `p` stand one behind the other.
proof fn placed(s: Setting, m: Manifest, order: Seq<int>, p: int, n: nat)
    requires
        0 <= p < n,
        actions_up_to(s, m, order, n) is Ok,
    ensures
        ({
            let all = actions_up_to(s, m, order, n)->Ok_0;
            let from = count_up_to(s, m, order, p as nat);
            let to = count_up_to(s, m, order, (p + 1) as nat);
            let own = target_actions(s, nth(m, order, p), exports_at(s.config, m, order, p));
            &&& own is Ok
            &&& 0 <= from <= to <= all.len()
            &&& all.subrange(from, to) == own->Ok_0
        }),
    decreases n,
{
    reveal(target_step);
    let before = actions_up_to(s, m, order, (n - 1) as nat)->Ok_0;
    let all = actions_up_to(s, m, order, n)->Ok_0;
    let x = exports_at(s.config, m, order, n - 1);
    let own = target_actions(s, nth(m, order, n - 1), x)->Ok_0;
    added(before, own, own.len());
    assert(own.take(own.len() as int) =~= own);
    assert(all == before + own);
    if p == n - 1 {
        assert(all.subrange(before.len() as int, all.len() as int) =~= own);
    } else {
        placed(s, m, order, p, (n - 1) as nat);
        let from = count_up_to(s, m, order, p as nat);
        let to = count_up_to(s, m, order, (p + 1) as nat);
        assert(all.subrange(from, to) =~= before.subrange(from, to));
    }
}

/// Every action belongs to a target.
proof fn belongs(s: Setting, m: Manifest, order: Seq<int>, n: nat, k: int) -> (p: int)
    requires
        actions_up_to(s, m, order, n) is Ok,
        0 <= k < actions_up_to(s, m, order, n)->Ok_0.len(),
    ensures
        0 <= p < n,
        count_up_to(s, m, order, p as nat) <= k < count_up_to(s, m, order, (p + 1) as nat),
    decreases n,
{
    let before = actions_up_to(s, m, order, (n - 1) as nat)->Ok_0;
    if k < before.len() {
        belongs(s, m, order, (n - 1) as nat, k)
    } else {
        n - 1
    }
}

/// Where target `i` of a workspace stands in the order in which it is built.
pub open spec fn place(m: Manifest, i: int) -> int {
    order_of(m).index_of(i)
}

/// What all targets of a graph are built with.
pub open spec fn setting_of(m: Manifest, g: BuildGraph) -> Setting {
    setting_for(m, g.profile@, g.platform@, g.toolchain)
}

/// What target `i` has from those it depends on.
pub open spec fn given_to(m: Manifest, g: BuildGraph, i: int) -> Exports {
    exports_at(setting_of(m, g).config, m, order_of(m), place(m, i))
}

/// The actions of target `i`, by the numbers that its node lists, are those that
/// the target turns into.
pub proof fn target_has_its_actions(m: Manifest, g: BuildGraph, i: int)
    requires
        graph_of(m, g.profile@, g.platform@, g),
        0 <= i < m.targets.values@.len(),
        g.targets.wf(),
    ensures
        ({
            let own = target_actions(setting_of(m, g), m.targets.values@[i], given_to(m, g, i));
            let ids = g.targets.values@[i].actions@;
            &&& own is Ok
            &&& ids.len() == own->Ok_0.len()
            &&& forall|j: int|
                0 <= j < ids.len() ==> (#[trigger] ids[j]) < g.actions@.len() && action_model(
                    g.paths(),
                    g.actions@[ids[j] as int],
                ) == own->Ok_0[j]
        }),
{
    let s = setting_of(m, g);
    let order = order_of(m);
    let n = m.targets.values@.len();
    reveal(sound_order);
    full_order(m, order);
    assert(order.contains(i));
    let p = place(m, i);
    assert(order[p] == i);
    placed(s, m, order, p, n);
    let from = count_up_to(s, m, order, p as nat);
    let to = count_up_to(s, m, order, (p + 1) as nat);
    let all = action_models(g.paths(), g.actions@);
    let own = target_actions(s, m.targets.values@[i], given_to(m, g, i))->Ok_0;
    assert(crate::configure::node_for(g, s, m, order, i)) by {
        assert(g.targets.names().len() == m.targets.names().len());
        let node = g.targets.values@[i];
    }
    let ids = g.targets.values@[i].actions@;
    assert(ints(ids) == span(from, to));
    assert(ints(ids).len() == ids.len());
    assert forall|j: int| 0 <= j < ids.len() implies (#[trigger] ids[j]) < g.actions@.len()
        && action_model(g.paths(), g.actions@[ids[j] as int]) == own[j] by {
        assert(ints(ids)[j] == from + j);
        assert(all.subrange(from, to)[j] == own[j]);
        assert(all[from + j] == action_model(g.paths(), g.actions@[from + j]));
    }
}

/// An order of all targets is as long as there are targets.
proof fn full_order(m: Manifest, order: Seq<int>)
    requires
        sound_order(m, order),
    ensures
        order.len() == m.targets.values@.len(),
        order.no_duplicates(),
        forall|t: int| 0 <= t < m.targets.values@.len() <==> #[trigger] order.contains(t),
{
    reveal(sound_order);
    let n = m.targets.values@.len();
    let all = vstd::set_lib::set_int_range(0, n as int);
    vstd::set_lib::lemma_int_range(0, n as int);
    assert(order.to_set() =~= all) by {
        assert forall|t: int| order.to_set().contains(t) <==> all.contains(t) by {
            assert(order.contains(t) <==> 0 <= t < n);
        }
    }
    order.unique_seq_to_set();
}

/// Every action of a graph is one that one of the targets turns into.
pub proof fn action_has_its_target(m: Manifest, g: BuildGraph, k: int) -> (r: (int, int))
    requires
        graph_of(m, g.profile@, g.platform@, g),
        0 <= k < g.actions@.len(),
    ensures
        0 <= r.0 < m.targets.values@.len(),
        ({
            let own = target_actions(
                setting_of(m, g),
                m.targets.values@[r.0],
                given_to(m, g, r.0),
            );
            &&& own is Ok
            &&& 0 <= r.1 < own->Ok_0.len()
            &&& action_model(g.paths(), g.actions@[k]) == own->Ok_0[r.1]
        }),
{
    let s = setting_of(m, g);
    let order = order_of(m);
    let n = m.targets.values@.len();
    full_order(m, order);
    let all = action_models(g.paths(), g.actions@);
    assert(all.len() == g.actions@.len());
    let p = belongs(s, m, order, n, k);
    placed(s, m, order, p, n);
    let i = order[p];
    assert(order.contains(i));
    assert(place(m, i) == p);
    let from = count_up_to(s, m, order, p as nat);
    let to = count_up_to(s, m, order, (p + 1) as nat);
    let own = target_actions(s, m.targets.values@[i], given_to(m, g, i))->Ok_0;
    assert(all.subrange(from, to)[k - from] == own[k - from]);
    assert(all[k] == action_model(g.paths(), g.actions@[k]));
    (i, k - from)
}

// ---------------------------------------------------------------------------
// Compilations
// ---------------------------------------------------------------------------

/// A target that is compiled from C or C++.
pub open spec fn is_cc(kind: TargetKind) -> bool {
    kind == TargetKind::CcBinary || kind == TargetKind::CcLibrary || kind == TargetKind::CcTest
}

/// The command and the files of the compilation of one source.
proof fn compile_parts(s: Setting, t: Target, x: Exports, src: Seq<char>)
    ensures
        ({
            let a = compile_action(s, t, x, src);
            let cxx = cxx_source(src);
            let head = seq![if cxx { s.tc.cxx@ } else { s.tc.cc@ }] + texts(s.tc.cflags@)
                + s.flags.cflags + texts(t.cflags@) + (if cxx {
                texts(s.tc.cxxflags@) + s.flags.cxxflags
            } else {
                Seq::empty()
            });
            let obj = obj_path(s.config, t.name@, src);
            let tail = seq!["-MD"@, "-MF"@, obj + ".d"@, "-c"@, src, "-o"@, obj];
            &&& a.argv.len() == head.len() + x.includes.len() + 7
            &&& a.argv.take(head.len() as int) == head
            &&& a.argv.skip(a.argv.len() - 7) == tail
            &&& forall|d: int|
                0 <= d < x.includes.len() ==> #[trigger] a.argv[head.len() + d] == "-I"@
                    + x.includes[d]
            &&& a.kind == ActionKind::Compile
            &&& a.inputs == seq![src]
            &&& a.outputs == seq![obj]
            &&& a.order_only_inputs == x.gens
            &&& a.depfile == Some(obj + ".d"@)
            &&& a.target == t.name@
        }),
{
    let a = compile_action(s, t, x, src);
    let cxx = cxx_source(src);
    let more = if cxx {
        texts(s.tc.cxxflags@) + s.flags.cxxflags
    } else {
        Seq::empty()
    };
    let head = seq![if cxx { s.tc.cxx@ } else { s.tc.cc@ }] + texts(s.tc.cflags@) + s.flags.cflags
        + texts(t.cflags@) + more;
    let obj = obj_path(s.config, t.name@, src);
    let tail = seq!["-MD"@, "-MF"@, obj + ".d"@, "-c"@, src, "-o"@, obj];
    let dirs = crate::rules::include_flags(x.includes);
    assert(a.argv =~= head + dirs + tail);
    assert(a.argv.take(head.len() as int) =~= head);
    assert(a.argv.skip(a.argv.len() - 7) =~= tail);
}

/// Every source of a C or C++ target is compiled by one of the target's actions.
/// Its command is the driver; then the flags of the toolchain, of the profile
/// and of the target, each in their order, and for C++ those for C++ of the
/// toolchain and of the profile; then the include directories; and last where
/// the dependencies are left, the source and the object file.
pub proof fn each_source_is_compiled(
    m: Manifest,
    profile: &str,
    platform: &str,
    g: BuildGraph,
    i: int,
    j: int,
) -> (k: int)
    requires
        call_ensures(
            BuildGraph::from_manifest_configured,
            (&m, profile, platform),
            Ok::<BuildGraph, GraphError>(g),
        ),
        0 <= i < m.targets.values@.len(),
        is_cc(m.targets.values@[i].kind),
        0 <= j < m.targets.values@[i].srcs@.len(),
    ensures
        0 <= k < g.actions@.len(),
        ints(g.targets.values@[i].actions@).contains(k),
        ({
            let t = m.targets.values@[i];
            let src = t.srcs@[j]@;
            let argv = texts(g.actions@[k].argv@);
            let cxx = cxx_source(src);
            let of_profile = if m.profiles.has(profile@) {
                texts(m.profiles.at(profile@).cflags@)
            } else {
                Seq::empty()
            };
            let cxx_of_profile = if m.profiles.has(profile@) {
                texts(m.profiles.at(profile@).cxxflags@)
            } else {
                Seq::empty()
            };
            let head = seq![if cxx { g.toolchain.cxx@ } else { g.toolchain.cc@ }] + texts(
                g.toolchain.cflags@,
            ) + of_profile + texts(t.cflags@) + (if cxx {
                texts(g.toolchain.cxxflags@) + cxx_of_profile
            } else {
                Seq::empty()
            });
            let obj = argv.last();
            &&& g.actions@[k].kind == ActionKind::Compile
            &&& g.actions@[k].target@ == t.name@
            &&& argv.len() >= head.len() + 7
            &&& argv.take(head.len() as int) == head
            &&& forall|d: int|
                head.len() <= d < argv.len() - 7 ==> begins(#[trigger] argv[d], "-I"@)
            &&& argv.skip(argv.len() - 7) == seq![
                "-MD"@,
                "-MF"@,
                obj + ".d"@,
                "-c"@,
                src,
                "-o"@,
                obj,
            ]
            &&& paths_at(g.paths(), g.actions@[k].inputs@) == seq![src]
            &&& paths_at(g.paths(), g.actions@[k].outputs@) == seq![obj]
            &&& g.actions@[k].depfile is Some && g.actions@[k].depfile->0@ == obj + ".d"@
        }),
{
    assert(graph_of(m, profile@, platform@, g) && g.wf());
    let s = setting_of(m, g);
    let t = m.targets.values@[i];
    let x = given_to(m, g, i);
    let src = t.srcs@[j]@;
    target_has_its_actions(m, g, i);
    let own = target_actions(s, t, x)->Ok_0;
    assert(own[j] == compile_actions(s, t, x, t.srcs@.len())[j]);
    compile_parts(s, t, x, src);
    let ids = g.targets.values@[i].actions@;
    let k = ids[j] as int;
    let a = compile_action(s, t, x, src);
    assert(action_model(g.paths(), g.actions@[k]) == a);
    assert(ints(ids)[j] == k);
    let obj = obj_path(s.config, t.name@, src);
    assert(a.argv.last() == a.argv.skip(a.argv.len() - 7)[6]);
    let argv = a.argv;
    assert forall|d: int| argv.len() - 7 - x.includes.len() <= d < argv.len() - 7 implies begins(
        #[trigger] argv[d],
        "-I"@,
    ) by {
        let n = argv.len() - 7 - x.includes.len();
        assert(argv[n + (d - n)] == "-I"@ + x.includes[d - n]);
        assert(argv[d].subrange(0, "-I"@.len() as int) =~= "-I"@);
    }
    k
}

/// Every flag that the profile of a build declares for C stands in the command
/// of every compilation of the graph, and so does every flag of the toolchain
/// and of the target that the compilation is for.
pub proof fn flags_reach_every_compilation(
    m: Manifest,
    profile: &str,
    platform: &str,
    g: BuildGraph,
    k: int,
) -> (i: int)
    requires
        call_ensures(
            BuildGraph::from_manifest_configured,
            (&m, profile, platform),
            Ok::<BuildGraph, GraphError>(g),
        ),
        0 <= k < g.actions@.len(),
        g.actions@[k].kind == ActionKind::Compile,
    ensures
        0 <= i < m.targets.values@.len(),
        g.actions@[k].target@ == m.targets.values@[i].name@,
        forall|f: Seq<char>|
            (m.profiles.has(profile@) && texts(m.profiles.at(profile@).cflags@).contains(f))
                || texts(g.toolchain.cflags@).contains(f) || texts(
                m.targets.values@[i].cflags@,
            ).contains(f) ==> #[trigger] texts(g.actions@[k].argv@).contains(f),
{
    assert(graph_of(m, profile@, platform@, g));
    let (i, j) = action_has_its_target(m, g, k);
    let s = setting_of(m, g);
    let t = m.targets.values@[i];
    let x = given_to(m, g, i);
    let own = target_actions(s, t, x)->Ok_0;
    let a = action_model(g.paths(), g.actions@[k]);
    assert(a == own[j]);
    assert(is_cc(t.kind) && j < t.srcs@.len()) by {
        only_cc_compiles(s, t, x, j);
    }
    assert(own[j] == compile_actions(s, t, x, t.srcs@.len())[j]);
    let src = t.srcs@[j]@;
    compile_parts(s, t, x, src);
    let one = texts(s.tc.cflags@);
    let two = s.flags.cflags;
    let three = texts(t.cflags@);
    let argv = a.argv;
    let head = argv.take((1 + one.len() + two.len() + three.len()) as int);
    assert(head =~= seq![argv[0]] + one + two + three);
    assert forall|f: Seq<char>| one.contains(f) || two.contains(f) || three.contains(
        f,
    ) implies #[trigger] argv.contains(f) by {
        if one.contains(f) {
            assert(head[1 + one.index_of(f)] == f);
            assert(argv[1 + one.index_of(f)] == f);
        } else if two.contains(f) {
            assert(head[1 + one.len() + two.index_of(f)] == f);
            assert(argv[1 + one.len() + two.index_of(f)] == f);
        } else {
            assert(head[1 + one.len() + two.len() + three.index_of(f)] == f);
            assert(argv[1 + one.len() + two.len() + three.index_of(f)] == f);
        }
    }
    i
}

/// Only C and C++ targets have compilations, one for each source and first.
proof fn only_cc_compiles(s: Setting, t: Target, x: Exports, j: int)
    requires
        target_actions(s, t, x) is Ok,
        0 <= j < target_actions(s, t, x)->Ok_0.len(),
        target_actions(s, t, x)->Ok_0[j].kind == ActionKind::Compile,
    ensures
        is_cc(t.kind),
        j < t.srcs@.len(),
{
    let own = target_actions(s, t, x)->Ok_0;
    if is_cc(t.kind) {
        let n = t.srcs@.len() as int;
        if j >= n {
            assert(own == cc_actions(s, t, x));
            assert(own[n].kind != ActionKind::Compile);
            if t.kind == TargetKind::CcTest {
                assert(own[n + 1].kind == ActionKind::Test);
            }
        }
    } else {
        assert(j == 0);
    }
}

// ---------------------------------------------------------------------------
// What targets have from those they depend on
// ---------------------------------------------------------------------------

/// A set has the entries of the sets it takes entries from.
proof fn takes_over(sets: Seq<Shared>, i: int, k: int, n: nat)
    requires
        0 <= i,
        0 <= k < n,
        0 <= sets[i].parents[k] < i,
    ensures
        forall|e: Seq<char>| #[trigger]
            whole(sets, sets[i].parents[k]).contains(e) ==> inherited(sets, i, n).contains(e),
    decreases n,
{
    let p = sets[i].parents[n - 1];
    let before = inherited(sets, i, (n - 1) as nat);
    let last = if 0 <= p < i {
        whole(sets, p)
    } else {
        Seq::empty()
    };
    assert(inherited(sets, i, n) == before + last);
    assert forall|e: Seq<char>| #[trigger] whole(sets, sets[i].parents[k]).contains(
        e,
    ) implies inherited(sets, i, n).contains(e) by {
        if k < n - 1 {
            takes_over(sets, i, k, (n - 1) as nat);
            assert(before.contains(e));
            assert((before + last)[before.index_of(e)] == e);
        } else {
            assert((before + last)[before.len() + last.index_of(e)] == e);
        }
    }
}

/// A set has its own entries.
proof fn own_is_there(sets: Seq<Shared>, i: int, e: Seq<char>)
    requires
        0 <= i < sets.len(),
        sets[i].own.contains(e),
    ensures
        whole(sets, i).contains(e),
{
    let own = sets[i].own;
    assert(whole(sets, i)[own.index_of(e)] == e);
}

/// A set has the entries of each of its parents.
proof fn parent_is_there(sets: Seq<Shared>, i: int, k: int, e: Seq<char>)
    requires
        0 <= i < sets.len(),
        0 <= k < sets[i].parents.len(),
        0 <= sets[i].parents[k] < i,
        whole(sets, sets[i].parents[k]).contains(e),
    ensures
        whole(sets, i).contains(e),
{
    takes_over(sets, i, k, sets[i].parents.len());
    let own = sets[i].own;
    let more = inherited(sets, i, sets[i].parents.len());
    assert(more.contains(e));
    assert(whole(sets, i)[own.len() + more.index_of(e)] == e);
}

/// Where the dependencies of a target stand in the order.
proof fn dep_place(m: Manifest, order: Seq<int>, p: int, c: int) -> (k: int)
    requires
        sound_order(m, order),
        0 <= p < order.len(),
        dep_numbers(m)[order[p]].contains(c),
    ensures
        0 <= k < parents(m, order, p).len(),
        parents(m, order, p)[k] == order.index_of(c),
        0 <= order.index_of(c) < p,
        order[order.index_of(c)] == c,
        dep_numbers(m)[order[p]][k] == c,
{
    reveal(sound_order);
    let deps = dep_numbers(m);
    let k = deps[order[p]].index_of(c);
    assert(deps[order[p]][k] == c);
    assert(order.take(p).contains(deps[order[p]][k]));
    let q = order.take(p).index_of(c);
    assert(order[q] == c);
    assert(order.contains(c));
    let r = order.index_of(c);
    assert(order[r] == c);
    assert(r == q);
    k
}

/// What a target exports, those that depend on it have, however far above.
proof fn exported_far(
    m: Manifest,
    order: Seq<int>,
    sets: Seq<Shared>,
    path: Seq<int>,
    p: int,
    e: Seq<char>,
)
    requires
        sound_order(m, order),
        0 <= p < sets.len() <= order.len(),
        forall|q: int|
            0 <= q < sets.len() ==> (#[trigger] sets[q]).parents == parents(m, order, q),
        walks(dep_numbers(m), path, order[p], path.last()),
        order.index_of(path.last()) < sets.len(),
        sets[order.index_of(path.last())].own.contains(e),
    ensures
        whole(sets, p).contains(e),
    decreases path.len(),
{
    reveal(sound_order);
    if path.len() == 1 {
        assert(order.contains(order[p]));
        assert(order.index_of(order[p]) == p);
        own_is_there(sets, p, e);
    } else {
        let c = path[1];
        assert(dep_numbers(m)[path[0]].contains(path[1]));
        let k = dep_place(m, order, p, c);
        let q = order.index_of(c);
        let rest = path.skip(1);
        assert(walk(dep_numbers(m), rest)) by {
            assert forall|n: int| 0 <= n < rest.len() - 1 implies dep_numbers(
                m,
            )[#[trigger] rest[n]].contains(rest[n + 1]) by {
                assert(rest[n] == path[n + 1]);
            }
        }
        exported_far(m, order, sets, rest, q, e);
        assert(sets[p].parents == parents(m, order, p));
        parent_is_there(sets, p, k, e);
    }
}

/// What is gathered from several sets has the entries of each.
proof fn gathered_has(sets: Seq<Shared>, of: Seq<int>, k: int, n: nat, e: Seq<char>)
    requires
        0 <= k < n <= of.len(),
        whole(sets, of[k]).contains(e),
    ensures
        gathered(sets, of, n).contains(e),
    decreases n,
{
    let before = gathered(sets, of, (n - 1) as nat);
    let last = whole(sets, of[n - 1]);
    if k < n - 1 {
        gathered_has(sets, of, k, (n - 1) as nat, e);
        assert((before + last)[before.index_of(e)] == e);
    } else {
        assert((before + last)[before.len() + last.index_of(e)] == e);
    }
}

/// What target `u` exports reaches target `i`, which depends on it, directly or
/// through others: its include directories, its library, and its generated
/// files. A target also has its own include directories.
proof fn exports_reach(m: Manifest, g: BuildGraph, i: int, u: int)
    requires
        graph_of(m, g.profile@, g.platform@, g),
        0 <= i < m.targets.values@.len(),
        0 <= u < m.targets.values@.len(),
        reaches(dep_numbers(m), i, u),
    ensures
        forall|e: Seq<char>|
            texts(m.targets.values@[u].includes@).contains(e) ==> #[trigger] given_to(
                m,
                g,
                i,
            ).includes.contains(e),
        i != u ==> forall|e: Seq<char>|
            own_libs(setting_of(m, g).config, m.targets.values@[u]).contains(e)
                ==> #[trigger] given_to(m, g, i).libs.contains(e),
        i != u ==> forall|e: Seq<char>|
            own_gens(setting_of(m, g).config, m.targets.values@[u]).contains(e)
                ==> #[trigger] given_to(m, g, i).gens.contains(e),
{
    reveal(exports_at);
    let config = setting_of(m, g).config;
    let order = order_of(m);
    full_order(m, order);
    assert(order.contains(i) && order.contains(u));
    let p = place(m, i);
    let q = order.index_of(u);
    assert(order[p] == i && order[q] == u);
    let deps = dep_numbers(m);
    let path = choose|path: Seq<int>| #[trigger] walks(deps, path, i, u);
    below_on_path(m, order, path);
    let x = given_to(m, g, i);
    let dirs = include_sets(m, order, (p + 1) as nat);
    assert forall|e: Seq<char>| texts(m.targets.values@[u].includes@).contains(
        e,
    ) implies #[trigger] x.includes.contains(e) by {
        exported_far(m, order, dirs, path, p, e);
        add_new_means(Seq::empty(), whole(dirs, p));
    }
    if i != u {
        let c = path[1];
        assert(path.len() > 1);
        assert(deps[path[0]].contains(path[1]));
        let k = dep_place(m, order, p, c);
        let r = order.index_of(c);
        let rest = path.skip(1);
        assert(walk(deps, rest)) by {
            assert forall|n: int| 0 <= n < rest.len() - 1 implies deps[#[trigger] rest[n]].contains(
                rest[n + 1],
            ) by {
                assert(rest[n] == path[n + 1]);
            }
        }
        below_on_path(m, order, rest);
        let libs = lib_sets(config, m, order, p as nat);
        let gens = gen_sets(config, m, order, p as nat);
        let of = parents(m, order, p);
        assert forall|e: Seq<char>| own_libs(config, m.targets.values@[u]).contains(
            e,
        ) implies #[trigger] x.libs.contains(e) by {
            exported_far(m, order, libs, rest, r, e);
            gathered_has(libs, of, k, of.len(), e);
            add_new_means(Seq::empty(), gathered(libs, of, of.len()));
        }
        assert forall|e: Seq<char>| own_gens(config, m.targets.values@[u]).contains(
            e,
        ) implies #[trigger] x.gens.contains(e) by {
            exported_far(m, order, gens, rest, r, e);
            gathered_has(gens, of, k, of.len(), e);
            add_new_means(Seq::empty(), gathered(gens, of, of.len()));
        }
    }
}

/// What a path of dependencies ends with stands before what it begins with, or
/// is it.
proof fn below_on_path(m: Manifest, order: Seq<int>, path: Seq<int>)
    requires
        sound_order(m, order),
        path.len() > 0,
        order.contains(path[0]),
        walk(dep_numbers(m), path),
    ensures
        order.contains(path.last()),
        order.index_of(path.last()) <= order.index_of(path[0]),
    decreases path.len(),
{
    if path.len() > 1 {
        let deps = dep_numbers(m);
        let p = order.index_of(path[0]);
        assert(order[p] == path[0]);
        assert(deps[path[0]].contains(path[1]));
        let k = dep_place(m, order, p, path[1]);
        let rest = path.skip(1);
        assert(walk(deps, rest)) by {
            assert forall|n: int| 0 <= n < rest.len() - 1 implies deps[#[trigger] rest[n]].contains(
                rest[n + 1],
            ) by {
                assert(rest[n] == path[n + 1]);
            }
        }
        assert(order[order.index_of(path[1])] == path[1]);
        assert(order.contains(path[1]));
        below_on_path(m, order, rest);
    }
}

/// The number of the action that stands at place `j` of target `i`.
pub open spec fn action_at(g: BuildGraph, i: int, j: int) -> int {
    g.targets.values@[i].actions@[j] as int
}

/// Every include directory that a target exports stands in the command of every
/// compilation of the targets that depend on it, directly or through others, and
/// of its own. Every file that a genrule makes is there before any compilation of
/// the targets that depend on it.
pub proof fn exports_reach_compilations(
    m: Manifest,
    profile: &str,
    platform: &str,
    g: BuildGraph,
    i: int,
    j: int,
    u: int,
)
    requires
        call_ensures(
            BuildGraph::from_manifest_configured,
            (&m, profile, platform),
            Ok::<BuildGraph, GraphError>(g),
        ),
        0 <= i < m.targets.values@.len(),
        is_cc(m.targets.values@[i].kind),
        0 <= j < m.targets.values@[i].srcs@.len(),
        0 <= u < m.targets.values@.len(),
        reaches(dep_numbers(m), i, u),
    ensures
        g.actions@[action_at(g, i, j)].kind == ActionKind::Compile,
        paths_at(g.paths(), g.actions@[action_at(g, i, j)].inputs@) == seq![
            m.targets.values@[i].srcs@[j]@,
        ],
        forall|d: Seq<char>| #[trigger]
            texts(m.targets.values@[u].includes@).contains(d) ==> texts(
                g.actions@[action_at(g, i, j)].argv@,
            ).contains("-I"@ + d),
        m.targets.values@[u].kind == TargetKind::Genrule && i != u ==> forall|f: Seq<char>| #[trigger]
            texts(m.targets.values@[u].outputs@).contains(f) ==> paths_at(
                g.paths(),
                g.actions@[action_at(g, i, j)].order_only_inputs@,
            ).contains(f),
{
    let s = setting_of(m, g);
    let t = m.targets.values@[i];
    let x = given_to(m, g, i);
    target_has_its_actions(m, g, i);
    exports_reach(m, g, i, u);
    let own = target_actions(s, t, x)->Ok_0;
    assert(own[j] == compile_actions(s, t, x, t.srcs@.len())[j]);
    let a = compile_action(s, t, x, t.srcs@[j]@);
    compile_parts(s, t, x, t.srcs@[j]@);
    let k = action_at(g, i, j);
    assert(g.targets.values@[i].actions@[j] < g.actions@.len());
    assert(action_model(g.paths(), g.actions@[k]) == a);
    assert forall|d: Seq<char>| #[trigger] texts(m.targets.values@[u].includes@).contains(
        d,
    ) implies a.argv.contains("-I"@ + d) by {
        assert(x.includes.contains(d));
        let n = x.includes.index_of(d);
        let h = a.argv.len() - 7 - x.includes.len();
        assert(a.argv[h + n] == "-I"@ + x.includes[n]);
    }
    if m.targets.values@[u].kind == TargetKind::Genrule && i != u {
        reveal(target_outputs);
        assert forall|f: Seq<char>| #[trigger] texts(m.targets.values@[u].outputs@).contains(
            f,
        ) implies a.order_only_inputs.contains(f) by {
            assert(own_gens(s.config, m.targets.values@[u]).contains(f));
            assert(x.gens.contains(f));
        }
    }
}

// ---------------------------------------------------------------------------
// Libraries and programs
// ---------------------------------------------------------------------------

/// The command of a program: the driver, the objects, the libraries, the flags
/// of the toolchain, of the profile and of the target, and the program.
proof fn link_parts(s: Setting, t: Target, x: Exports)
    ensures
        ({
            let a = link_action(s, t, x);
            let objs = objects(s.config, t);
            let bin = bin_path(s.config, t.name@);
            &&& a.argv == seq![if any_cxx(t) { s.tc.cxx@ } else { s.tc.cc@ }] + objs + x.libs
                + texts(s.tc.ldflags@) + s.flags.ldflags + texts(t.ldflags@) + seq!["-o"@, bin]
            &&& a.inputs == objs + x.libs
            &&& a.outputs == seq![bin]
            &&& a.kind == ActionKind::Link
        }),
{
}

/// The library of a target is made of the object of every source, in order: its
/// command is the archiver, the archiver's flags, the library, and the objects
/// that the compilations of the target leave.
pub proof fn library_has_every_object(
    m: Manifest,
    profile: &str,
    platform: &str,
    g: BuildGraph,
    i: int,
)
    requires
        call_ensures(
            BuildGraph::from_manifest_configured,
            (&m, profile, platform),
            Ok::<BuildGraph, GraphError>(g),
        ),
        0 <= i < m.targets.values@.len(),
        m.targets.values@[i].kind == TargetKind::CcLibrary,
    ensures
        ({
            let n = m.targets.values@[i].srcs@.len() as int;
            let a = g.actions@[action_at(g, i, n)];
            let argv = texts(a.argv@);
            let flags = texts(g.toolchain.arflags@);
            &&& g.targets.values@[i].actions@.len() == n + 1
            &&& a.kind == ActionKind::Archive
            &&& argv.len() == 2 + flags.len() + n
            &&& argv[0] == g.toolchain.ar@
            &&& argv.subrange(1, 1 + flags.len() as int) == flags
            &&& paths_at(g.paths(), a.outputs@) == seq![argv[1 + flags.len() as int]]
            &&& paths_at(g.paths(), a.inputs@) == argv.skip(2 + flags.len() as int)
            &&& forall|j: int| #![trigger action_at(g, i, j)]
                0 <= j < n ==> paths_at(g.paths(), g.actions@[action_at(g, i, j)].outputs@) == seq![
                    argv[2 + flags.len() + j],
                ] && g.actions@[action_at(g, i, j)].kind == ActionKind::Compile
        }),
{
    let s = setting_of(m, g);
    let t = m.targets.values@[i];
    let x = given_to(m, g, i);
    target_has_its_actions(m, g, i);
    let own = target_actions(s, t, x)->Ok_0;
    let n = t.srcs@.len() as int;
    let ids = g.targets.values@[i].actions@;
    assert(own[n] == archive_action(s, t));
    assert(ids[n] < g.actions@.len());
    let a = archive_action(s, t);
    let flags = texts(s.tc.arflags@);
    let objs = objects(s.config, t);
    assert(action_model(g.paths(), g.actions@[action_at(g, i, n)]) == a);
    assert(a.argv.subrange(1, 1 + flags.len() as int) =~= flags);
    assert(a.argv.skip(2 + flags.len() as int) =~= objs);
    assert(a.outputs =~= seq![a.argv[1 + flags.len() as int]]);
    assert forall|j: int| #![trigger action_at(g, i, j)]
        0 <= j < n implies paths_at(g.paths(), g.actions@[action_at(g, i, j)].outputs@) == seq![
        a.argv[2 + flags.len() + j],
    ] && g.actions@[action_at(g, i, j)].kind == ActionKind::Compile by {
        assert(ids[j] < g.actions@.len());
        assert(own[j] == compile_actions(s, t, x, t.srcs@.len())[j]);
        compile_parts(s, t, x, t.srcs@[j]@);
        assert(a.argv[2 + flags.len() + j] == objs[j]);
    }
}

/// A program is made of the object of every source, in order, and of the
/// libraries it depends on. The flags of the toolchain, of the profile and of the
/// target stand behind them in their order, and the program is what it leaves.
pub proof fn program_has_every_object(
    m: Manifest,
    profile: &str,
    platform: &str,
    g: BuildGraph,
    i: int,
)
    requires
        call_ensures(
            BuildGraph::from_manifest_configured,
            (&m, profile, platform),
            Ok::<BuildGraph, GraphError>(g),
        ),
        0 <= i < m.targets.values@.len(),
        m.targets.values@[i].kind == TargetKind::CcBinary || m.targets.values@[i].kind
            == TargetKind::CcTest,
    ensures
        ({
            let t = m.targets.values@[i];
            let n = t.srcs@.len() as int;
            let a = g.actions@[action_at(g, i, n)];
            let argv = texts(a.argv@);
            let inputs = paths_at(g.paths(), a.inputs@);
            let of_profile = if m.profiles.has(profile@) {
                texts(m.profiles.at(profile@).ldflags@)
            } else {
                Seq::empty()
            };
            let flags = texts(g.toolchain.ldflags@) + of_profile + texts(t.ldflags@);
            let cxx = exists|j: int| 0 <= j < n && cxx_source((#[trigger] t.srcs@[j])@);
            &&& a.kind == ActionKind::Link
            &&& argv[0] == if cxx {
                g.toolchain.cxx@
            } else {
                g.toolchain.cc@
            }
            &&& inputs.len() >= n
            &&& argv.len() == 1 + inputs.len() + flags.len() + 2
            &&& argv.subrange(1, 1 + inputs.len() as int) == inputs
            &&& argv.subrange(
                1 + inputs.len() as int,
                1 + inputs.len() + flags.len() as int,
            ) == flags
            &&& argv[argv.len() - 2] == "-o"@
            &&& paths_at(g.paths(), a.outputs@) == seq![argv.last()]
            &&& forall|j: int| #![trigger action_at(g, i, j)]
                0 <= j < n ==> paths_at(g.paths(), g.actions@[action_at(g, i, j)].outputs@) == seq![
                    inputs[j],
                ] && g.actions@[action_at(g, i, j)].kind == ActionKind::Compile
        }),
{
    let s = setting_of(m, g);
    let t = m.targets.values@[i];
    let x = given_to(m, g, i);
    target_has_its_actions(m, g, i);
    let own = target_actions(s, t, x)->Ok_0;
    let n = t.srcs@.len() as int;
    let ids = g.targets.values@[i].actions@;
    assert(own[n] == link_action(s, t, x));
    assert(ids[n] < g.actions@.len());
    let a = link_action(s, t, x);
    link_parts(s, t, x);
    let objs = objects(s.config, t);
    let inputs = objs + x.libs;
    let flags = texts(s.tc.ldflags@) + s.flags.ldflags + texts(t.ldflags@);
    assert(action_model(g.paths(), g.actions@[action_at(g, i, n)]) == a);
    assert(a.argv =~= seq![a.argv[0]] + inputs + flags + seq![
        "-o"@,
        bin_path(s.config, t.name@),
    ]);
    assert(a.argv.subrange(1, 1 + inputs.len() as int) =~= inputs);
    assert(a.argv.subrange(1 + inputs.len() as int, 1 + inputs.len() + flags.len() as int)
        =~= flags);
    assert forall|j: int| #![trigger action_at(g, i, j)]
        0 <= j < n implies paths_at(g.paths(), g.actions@[action_at(g, i, j)].outputs@) == seq![
        inputs[j],
    ] && g.actions@[action_at(g, i, j)].kind == ActionKind::Compile by {
        assert(ids[j] < g.actions@.len());
        assert(own[j] == compile_actions(s, t, x, t.srcs@.len())[j]);
        compile_parts(s, t, x, t.srcs@[j]@);
        assert(inputs[j] == objs[j]);
    }
}

/// A program is made of the library of every target that it depends on, directly
/// or through others: the library stands in its command, and its action waits for
/// it.
pub proof fn libraries_are_linked(
    m: Manifest,
    profile: &str,
    platform: &str,
    g: BuildGraph,
    i: int,
    u: int,
)
    requires
        call_ensures(
            BuildGraph::from_manifest_configured,
            (&m, profile, platform),
            Ok::<BuildGraph, GraphError>(g),
        ),
        0 <= i < m.targets.values@.len(),
        m.targets.values@[i].kind == TargetKind::CcBinary || m.targets.values@[i].kind
            == TargetKind::CcTest,
        0 <= u < m.targets.values@.len(),
        m.targets.values@[u].kind == TargetKind::CcLibrary,
        reaches(dep_numbers(m), i, u),
    ensures
        ({
            let link = g.actions@[action_at(g, i, m.targets.values@[i].srcs@.len() as int)];
            let archive = g.actions@[action_at(g, u, m.targets.values@[u].srcs@.len() as int)];
            let made = paths_at(g.paths(), archive.outputs@);
            &&& made.len() == 1
            &&& texts(link.argv@).contains(made[0])
            &&& paths_at(g.paths(), link.inputs@).contains(made[0])
        }),
{
    let s = setting_of(m, g);
    let t = m.targets.values@[i];
    let x = given_to(m, g, i);
    target_has_its_actions(m, g, i);
    target_has_its_actions(m, g, u);
    exports_reach(m, g, i, u);
    let n = t.srcs@.len() as int;
    let lib = m.targets.values@[u];
    let own = target_actions(s, t, x)->Ok_0;
    let of_lib = target_actions(s, lib, given_to(m, g, u))->Ok_0;
    assert(own[n] == link_action(s, t, x));
    assert(of_lib[lib.srcs@.len() as int] == archive_action(s, lib));
    assert(g.targets.values@[i].actions@[n] < g.actions@.len());
    assert(g.targets.values@[u].actions@[lib.srcs@.len() as int] < g.actions@.len());
    link_parts(s, t, x);
    let path = lib_path(s.config, lib.name@);
    assert(own_libs(s.config, lib)[0] == path);
    assert(own_libs(s.config, lib).contains(path));
    assert(x.libs.contains(path));
    let a = link_action(s, t, x);
    let objs = objects(s.config, t);
    let at = objs.len() + x.libs.index_of(path);
    assert(a.inputs[at] == path);
    assert(a.argv[1 + at] == path);
}

/// A test program is linked as other programs are, and then run: its run has the
/// program as its one argument and input, and leaves a stamp.
pub proof fn test_program_is_run(
    m: Manifest,
    profile: &str,
    platform: &str,
    g: BuildGraph,
    i: int,
)
    requires
        call_ensures(
            BuildGraph::from_manifest_configured,
            (&m, profile, platform),
            Ok::<BuildGraph, GraphError>(g),
        ),
        0 <= i < m.targets.values@.len(),
        m.targets.values@[i].kind == TargetKind::CcTest,
    ensures
        ({
            let n = m.targets.values@[i].srcs@.len() as int;
            let link = g.actions@[action_at(g, i, n)];
            let run = g.actions@[action_at(g, i, n + 1)];
            &&& g.targets.values@[i].actions@.len() == n + 2
            &&& run.kind == ActionKind::Test
            &&& run.id@ == "test:"@ + m.targets.values@[i].name@
            &&& texts(run.argv@) == paths_at(g.paths(), link.outputs@)
            &&& paths_at(g.paths(), run.inputs@) == paths_at(g.paths(), link.outputs@)
            &&& run.outputs@.len() == 1
            &&& paths_at(g.paths(), g.targets.values@[i].outputs@) == paths_at(
                g.paths(),
                run.outputs@,
            )
        }),
{
    let s = setting_of(m, g);
    let t = m.targets.values@[i];
    let x = given_to(m, g, i);
    target_has_its_actions(m, g, i);
    target_has_its_outputs(m, g, i);
    reveal(target_outputs);
    let own = target_actions(s, t, x)->Ok_0;
    let n = t.srcs@.len() as int;
    let ids = g.targets.values@[i].actions@;
    assert(own[n] == link_action(s, t, x));
    assert(own[n + 1] == run_action(s, t));
    assert(ids[n] < g.actions@.len());
    assert(ids[n + 1] < g.actions@.len());
    let run = g.actions@[action_at(g, i, n + 1)];
    assert(action_model(g.paths(), run).outputs.len() == run.outputs@.len());
}

/// The outputs of a target's node.
proof fn target_has_its_outputs(m: Manifest, g: BuildGraph, i: int)
    requires
        graph_of(m, g.profile@, g.platform@, g),
        0 <= i < m.targets.values@.len(),
        g.targets.wf(),
    ensures
        paths_at(g.paths(), g.targets.values@[i].outputs@) == target_outputs(
            setting_of(m, g).config,
            m.targets.values@[i],
        ),
{
    assert(g.targets.names().len() == m.targets.names().len());
    let node = g.targets.values@[i];
    assert(crate::configure::node_for(g, setting_of(m, g), m, order_of(m), i));
}

// ---------------------------------------------------------------------------
// Other targets
// ---------------------------------------------------------------------------

/// What a target has from those it names holds the outputs of each.
proof fn dep_outputs_hold(m: Manifest, g: BuildGraph, i: int, j: int, k: nat, e: Seq<char>)
    requires
        0 <= i < m.targets.values@.len(),
        0 <= j < k <= m.targets.values@[i].deps@.len(),
        target_outputs(
            setting_of(m, g).config,
            m.targets.values@[dep_numbers(m)[i][j]],
        ).contains(e),
    ensures
        dep_outputs(setting_of(m, g).config, m, i, k).contains(e),
    decreases k,
{
    let config = setting_of(m, g).config;
    let before = dep_outputs(config, m, i, (k - 1) as nat);
    let last = target_outputs(config, m.targets.values@[dep_numbers(m)[i][k - 1]]);
    if j < k - 1 {
        dep_outputs_hold(m, g, i, j, (k - 1) as nat, e);
        assert((before + last)[before.index_of(e)] == e);
    } else {
        assert((before + last)[before.len() + last.index_of(e)] == e);
    }
}

/// What a genrule, a test, a command or a Kofun program depends on is there
/// before it runs: every output of every target that it names is an input of its
/// action. So is every input that it declares.
pub proof fn dependencies_are_inputs(
    m: Manifest,
    profile: &str,
    platform: &str,
    g: BuildGraph,
    i: int,
    j: int,
    path: Seq<char>,
)
    requires
        call_ensures(
            BuildGraph::from_manifest_configured,
            (&m, profile, platform),
            Ok::<BuildGraph, GraphError>(g),
        ),
        0 <= i < m.targets.values@.len(),
        m.targets.wf(),
        !is_cc(m.targets.values@[i].kind),
    ensures
        g.targets.values@[i].actions@.len() == 1,
        ({
            let t = m.targets.values@[i];
            let inputs = paths_at(g.paths(), g.actions@[action_at(g, i, 0)].inputs@);
            &&& 0 <= j < t.deps@.len() && m.targets.has(t.deps@[j]@) && paths_at(
                g.paths(),
                g.targets.values@[m.targets.spot(t.deps@[j]@)].outputs@,
            ).contains(path) ==> inputs.contains(path)
            &&& t.kind != TargetKind::KofunBinary && texts(t.inputs@).contains(path)
                ==> inputs.contains(path)
            &&& t.kind == TargetKind::KofunBinary && t.srcs@[0]@ == path ==> inputs.contains(path)
        }),
{
    let s = setting_of(m, g);
    let t = m.targets.values@[i];
    let x = given_to(m, g, i);
    target_has_its_actions(m, g, i);
    let own = target_actions(s, t, x)->Ok_0;
    assert(g.targets.values@[i].actions@[0] < g.actions@.len());
    let a = own[0];
    let order = order_of(m);
    full_order(m, order);
    assert(order.contains(i));
    assert(x.dep_outputs == dep_outputs(s.config, m, i, t.deps@.len())) by {
        reveal(exports_at);
    }
    let declared = if t.kind == TargetKind::KofunBinary {
        seq![t.srcs@[0]@]
    } else {
        texts(t.inputs@)
    };
    if t.kind == TargetKind::KofunBinary && t.srcs@[0]@ == path {
        assert(declared[0] == path);
    }
    let from_deps = x.dep_outputs.contains(path);
    if 0 <= j < t.deps@.len() && m.targets.has(t.deps@[j]@) && paths_at(
        g.paths(),
        g.targets.values@[m.targets.spot(t.deps@[j]@)].outputs@,
    ).contains(path) {
        let u = m.targets.spot(t.deps@[j]@);
        assert(dep_numbers(m)[i][j] == u);
        assert(0 <= u < m.targets.names().len());
        target_has_its_outputs(m, g, u);
        dep_outputs_hold(m, g, i, j, t.deps@.len(), path);
    }
    if declared.contains(path) || from_deps {
        let plain = declared + x.dep_outputs;
        if declared.contains(path) {
            assert(plain[declared.index_of(path)] == path);
        } else {
            assert(plain[declared.len() + x.dep_outputs.index_of(path)] == path);
        }
        match t.kind {
            TargetKind::KofunBinary => {
                add_new_means(declared, x.dep_outputs);
            },
            TargetKind::Command => {
                let driver = local_driver(s.tc.tools.at(t.tool->0@)@);
                add_new_means(declared, driver);
                add_new_means(add_new(declared, driver), x.dep_outputs);
                add_new_means(
                    add_new(add_new(declared, driver), x.dep_outputs),
                    step_drivers(s, t, t.steps@.len()),
                );
            },
            TargetKind::Test => {
                if let Some(tool) = t.tool {
                    add_new_means(plain, local_driver(s.tc.tools.at(tool@)@));
                }
            },
            _ => {},
        }
        assert(a.inputs.contains(path));
    }
}

/// Every output that others take from a target is one that an action of the
/// target writes.
pub proof fn outputs_are_made(
    m: Manifest,
    profile: &str,
    platform: &str,
    g: BuildGraph,
    i: int,
    path: Seq<char>,
) -> (j: int)
    requires
        call_ensures(
            BuildGraph::from_manifest_configured,
            (&m, profile, platform),
            Ok::<BuildGraph, GraphError>(g),
        ),
        0 <= i < m.targets.values@.len(),
        paths_at(g.paths(), g.targets.values@[i].outputs@).contains(path),
    ensures
        0 <= j < g.targets.values@[i].actions@.len(),
        paths_at(g.paths(), g.actions@[action_at(g, i, j)].outputs@).contains(path),
{
    let s = setting_of(m, g);
    let t = m.targets.values@[i];
    let x = given_to(m, g, i);
    target_has_its_actions(m, g, i);
    target_has_its_outputs(m, g, i);
    reveal(target_outputs);
    let own = target_actions(s, t, x)->Ok_0;
    let j = own.len() - 1;
    assert(g.targets.values@[i].actions@[j] < g.actions@.len());
    if t.kind == TargetKind::Command {
        config_texts_are(texts(t.outputs@), s.config, t.outputs@.len());
        assert(own[j].outputs =~= configured(texts(t.outputs@), s.config));
    } else if t.kind == TargetKind::KofunBinary {
        assert(own[j].outputs[0] == path);
    } else {
        assert(own[j].outputs == target_outputs(s.config, t));
    }
    j
}

proof fn config_texts_are(values: Seq<Seq<char>>, config: Configuration, n: nat)
    requires
        config_texts(values, config, n) is Ok,
        n <= values.len(),
    ensures
        config_texts(values, config, n)->Ok_0 == configured(values, config).take(n as int),
    decreases n,
{
    if n > 0 {
        config_texts_are(values, config, (n - 1) as nat);
    }
    assert(config_texts(values, config, n)->Ok_0 =~= configured(values, config).take(n as int));
}

/// A genrule runs its command through the shell and writes the outputs that it
/// declares. A test without a tool runs its command as it stands; one with a tool
/// runs the tool of that name, with its environment. Both are kept apart from
/// other files where the target asks for it.
pub proof fn shell_and_tools_are_run(
    m: Manifest,
    profile: &str,
    platform: &str,
    g: BuildGraph,
    i: int,
)
    requires
        call_ensures(
            BuildGraph::from_manifest_configured,
            (&m, profile, platform),
            Ok::<BuildGraph, GraphError>(g),
        ),
        0 <= i < m.targets.values@.len(),
    ensures
        ({
            let t = m.targets.values@[i];
            let a = g.actions@[action_at(g, i, 0)];
            let argv = texts(a.argv@);
            let inputs = paths_at(g.paths(), a.inputs@);
            let outputs = paths_at(g.paths(), a.outputs@);
            &&& t.kind == TargetKind::Genrule ==> {
                &&& a.kind == ActionKind::Genrule
                &&& a.id@ == "genrule:"@ + t.name@
                &&& argv.len() == 3
                &&& argv[0] == "/bin/sh"@
                &&& argv[1] == "-c"@
                &&& outputs == texts(t.outputs@)
            }
            &&& t.kind == TargetKind::Test ==> {
                &&& a.kind == ActionKind::Test
                &&& a.id@ == "test:"@ + t.name@
                &&& outputs.len() == 1
                &&& t.tool is None ==> argv == seq!["/bin/sh"@, "-c"@, t.cmd->0@]
                &&& t.tool matches Some(tool) ==> {
                    &&& g.toolchain.tools.has(tool@)
                    &&& argv[0] == g.toolchain.tools.at(tool@)@
                    &&& pairs(a.env) == pairs(t.env)
                    &&& texts(a.pass_env@) == texts(t.pass_env@)
                }
            }
            &&& t.kind == TargetKind::Command ==> {
                &&& a.kind == ActionKind::Command
                &&& a.id@ == "command:"@ + t.name@
                &&& g.toolchain.tools.has(t.tool->0@)
                &&& argv[0] == g.toolchain.tools.at(t.tool->0@)@
                &&& pairs(a.env) == pairs(t.env)
                &&& texts(a.pass_env@) == texts(t.pass_env@)
                &&& a.preserve_outputs == t.preserve_outputs
                &&& a.clean_dirs@.len() == t.clean_dirs@.len()
                &&& outputs.len() == t.outputs@.len()
                &&& a.depfile is Some <==> t.depfile is Some
                &&& a.followup_argv@.len() == t.steps@.len()
            }
            &&& t.kind == TargetKind::KofunBinary ==> {
                &&& t.srcs@.len() == 1
                &&& a.kind == ActionKind::KofunCompile
                &&& g.toolchain.kofunc is Some
                &&& outputs.len() == 2
                &&& argv == seq![
                    g.toolchain.kofunc->0@,
                    "build"@,
                    t.srcs@[0]@,
                    "-o"@,
                    outputs[0],
                    "--emit-c"@,
                    outputs[1],
                ]
            }
        }),
{
    let s = setting_of(m, g);
    let t = m.targets.values@[i];
    let x = given_to(m, g, i);
    target_has_its_actions(m, g, i);
    let own = target_actions(s, t, x)->Ok_0;
    let node = g.actions@[action_at(g, i, 0)];
    if !is_cc(t.kind) {
        assert(g.targets.values@[i].actions@[0] < g.actions@.len());
        let a = own[0];
        assert(action_model(g.paths(), node) == a);
        assert(a.clean_dirs.len() == node.clean_dirs@.len());
        assert(a.followup_argv.len() == node.followup_argv@.len());
        if t.kind == TargetKind::Command {
            let paths = command_texts(s, t, x)->Ok_0;
            config_texts_are(texts(t.outputs@), s.config, t.outputs@.len());
            config_texts_are(texts(t.clean_dirs@), s.config, t.clean_dirs@.len());
            driver_is_first(
                s.tc.tools.at(t.tool->0@)@,
                texts(t.args@),
                paths,
                s.config,
                t.args@.len(),
            );
            steps_are_each(s, t, paths, t.steps@.len());
        }
        if t.kind == TargetKind::Test {
            if let Some(tool) = t.tool {
                test_driver_is_first(
                    s.tc.tools.at(tool@)@,
                    texts(t.args@),
                    texts(t.inputs@),
                    x.dep_outputs,
                    s.config,
                    t.args@.len(),
                );
            }
        }
    }
}

proof fn driver_is_first(
    driver: Seq<char>,
    args: Seq<Seq<char>>,
    paths: CommandTexts,
    config: Configuration,
    n: nat,
)
    requires
        command_argv(driver, args, paths, config, n) is Ok,
    ensures
        command_argv(driver, args, paths, config, n)->Ok_0.len() > 0,
        command_argv(driver, args, paths, config, n)->Ok_0[0] == driver,
    decreases n,
{
    if n > 0 {
        driver_is_first(driver, args, paths, config, (n - 1) as nat);
    }
}

proof fn test_driver_is_first(
    driver: Seq<char>,
    args: Seq<Seq<char>>,
    inputs: Seq<Seq<char>>,
    deps: Seq<Seq<char>>,
    config: Configuration,
    n: nat,
)
    requires
        test_argv(driver, args, inputs, deps, config, n) is Ok,
    ensures
        test_argv(driver, args, inputs, deps, config, n)->Ok_0.len() > 0,
        test_argv(driver, args, inputs, deps, config, n)->Ok_0[0] == driver,
    decreases n,
{
    if n > 0 {
        test_driver_is_first(driver, args, inputs, deps, config, (n - 1) as nat);
    }
}

proof fn steps_are_each(s: Setting, t: Target, paths: CommandTexts, n: nat)
    requires
        step_argvs(s, t, paths, n) is Ok,
        n <= t.steps@.len(),
    ensures
        step_argvs(s, t, paths, n)->Ok_0.len() == n,
        forall|k: int|
            0 <= k < n ==> s.tc.tools.has((#[trigger] t.steps@[k]).tool@) && step_argvs(
                s,
                t,
                paths,
                n,
            )->Ok_0[k].len() > 0 && step_argvs(s, t, paths, n)->Ok_0[k][0] == s.tc.tools.at(
                t.steps@[k].tool@,
            )@,
    decreases n,
{
    if n > 0 {
        let less = (n - 1) as nat;
        steps_are_each(s, t, paths, less);
        let step = t.steps@[n - 1];
        driver_is_first(
            s.tc.tools.at(step.tool@)@,
            texts(step.args@),
            paths,
            s.config,
            step.args@.len(),
        );
        let before = step_argvs(s, t, paths, less)->Ok_0;
        let now = step_argvs(s, t, paths, n)->Ok_0;
        assert forall|k: int| 0 <= k < n implies s.tc.tools.has((#[trigger] t.steps@[k]).tool@)
            && now[k].len() > 0 && now[k][0] == s.tc.tools.at(t.steps@[k].tool@)@ by {
            if k < less {
                assert(now[k] == before[k]);
            }
        }
    }
}

/// Every step of a command runs the tool that it names, in the order of the
/// steps.
pub proof fn every_step_is_run(
    m: Manifest,
    profile: &str,
    platform: &str,
    g: BuildGraph,
    i: int,
    k: int,
)
    requires
        call_ensures(
            BuildGraph::from_manifest_configured,
            (&m, profile, platform),
            Ok::<BuildGraph, GraphError>(g),
        ),
        0 <= i < m.targets.values@.len(),
        m.targets.values@[i].kind == TargetKind::Command,
        0 <= k < m.targets.values@[i].steps@.len(),
    ensures
        ({
            let step = m.targets.values@[i].steps@[k];
            let a = g.actions@[action_at(g, i, 0)];
            &&& g.toolchain.tools.has(step.tool@)
            &&& texts(a.followup_argv@[k]@).len() > 0
            &&& texts(a.followup_argv@[k]@)[0] == g.toolchain.tools.at(step.tool@)@
        }),
{
    let s = setting_of(m, g);
    let t = m.targets.values@[i];
    let x = given_to(m, g, i);
    target_has_its_actions(m, g, i);
    let own = target_actions(s, t, x)->Ok_0;
    assert(g.targets.values@[i].actions@[0] < g.actions@.len());
    let node = g.actions@[action_at(g, i, 0)];
    assert(action_model(g.paths(), node) == own[0]);
    let paths = command_texts(s, t, x)->Ok_0;
    steps_are_each(s, t, paths, t.steps@.len());
    assert(t.steps@[k].tool@ == t.steps@[k].tool@);
    assert(own[0].followup_argv[k] == texts(node.followup_argv@[k]@));
}

/// Every action of a target bears its name, and is kept apart from other files
/// exactly where the target asks for it.
pub proof fn actions_bear_their_target(
    m: Manifest,
    profile: &str,
    platform: &str,
    g: BuildGraph,
    i: int,
    j: int,
)
    requires
        call_ensures(
            BuildGraph::from_manifest_configured,
            (&m, profile, platform),
            Ok::<BuildGraph, GraphError>(g),
        ),
        0 <= i < m.targets.values@.len(),
        0 <= j < g.targets.values@[i].actions@.len(),
    ensures
        g.actions@[action_at(g, i, j)].target@ == m.targets.values@[i].name@,
        g.actions@[action_at(g, i, j)].sandbox == m.targets.values@[i].sandbox,
{
    let s = setting_of(m, g);
    let t = m.targets.values@[i];
    let x = given_to(m, g, i);
    target_has_its_actions(m, g, i);
    let own = target_actions(s, t, x)->Ok_0;
    assert(g.targets.values@[i].actions@[j] < g.actions@.len());
    assert(action_model(g.paths(), g.actions@[action_at(g, i, j)]) == own[j]);
    if is_cc(t.kind) {
        let n = t.srcs@.len() as int;
        if j < n {
            assert(own[j] == compile_action(s, t, x, t.srcs@[j]@));
        } else if t.kind == TargetKind::CcLibrary {
            assert(own[j] == archive_action(s, t));
        } else if j == n {
            assert(own[j] == link_action(s, t, x));
        } else {
            assert(own[j] == run_action(s, t));
        }
    }
}

// ---------------------------------------------------------------------------
// What a graph never has
// ---------------------------------------------------------------------------

proof fn owner_means(actions: Seq<Action>, path: Seq<char>)
    ensures
        owner(actions, path) < 0 ==> forall|k: int|
            0 <= k < actions.len() ==> !(#[trigger] actions[k]).outputs.contains(path),
    decreases actions.len(),
{
    if actions.len() > 0 && !actions.last().outputs.contains(path) {
        let init = actions.drop_last();
        owner_means(init, path);
        if owner(actions, path) < 0 {
            assert forall|k: int| 0 <= k < actions.len() implies !(
            #[trigger] actions[k]).outputs.contains(path) by {
                if k < init.len() {
                    assert(init[k] == actions[k]);
                }
            }
        }
    }
}

proof fn no_clash(actions: Seq<Action>, a: Action, n: nat)
    requires
        n <= a.outputs.len(),
        clash(actions, a, n) is None,
    ensures
        forall|i: int, k: int|
            0 <= i < n && 0 <= k < actions.len() ==> !(#[trigger] actions[k]).outputs.contains(
                #[trigger] a.outputs[i],
            ),
        forall|i: int, j: int|
            0 <= i < j < n ==> #[trigger] a.outputs[i] != #[trigger] a.outputs[j],
    decreases n,
{
    if n > 0 {
        no_clash(actions, a, (n - 1) as nat);
        owner_means(actions, a.outputs[n - 1]);
        assert forall|i: int| 0 <= i < n - 1 implies #[trigger] a.outputs[i] != a.outputs[n - 1] by {
            assert(a.outputs.take(n - 1)[i] == a.outputs[i]);
        }
    }
}

/// No two actions write one file, and none writes one twice.
pub open spec fn write_apart(actions: Seq<Action>) -> bool {
    &&& forall|i: int, j: int, f: int|
        0 <= i < j < actions.len() && 0 <= f < actions[j].outputs.len() ==> !(
        #[trigger] actions[i]).outputs.contains(#[trigger] actions[j].outputs[f])
    &&& forall|i: int, f: int, h: int|
        0 <= i < actions.len() && 0 <= f < h < actions[i].outputs.len()
            ==> #[trigger] actions[i].outputs[f] != #[trigger] actions[i].outputs[h]
}

proof fn added_apart(actions: Seq<Action>, more: Seq<Action>, n: nat)
    requires
        n <= more.len(),
        write_apart(actions),
        add_actions(actions, more, n) is Ok,
    ensures
        write_apart(add_actions(actions, more, n)->Ok_0),
    decreases n,
{
    if n > 0 {
        added_apart(actions, more, (n - 1) as nat);
        let done = add_actions(actions, more, (n - 1) as nat)->Ok_0;
        let a = more[n - 1];
        no_clash(done, a, a.outputs.len());
        let now = done.push(a);
        assert forall|i: int, j: int, f: int|
            0 <= i < j < now.len() && 0 <= f < now[j].outputs.len() implies !(
        #[trigger] now[i]).outputs.contains(#[trigger] now[j].outputs[f]) by {
            assert(now[i] == done[i]);
            if j < done.len() {
                assert(now[j] == done[j]);
            } else {
                assert(now[j] == a);
            }
        }
        assert forall|i: int, f: int, h: int|
            0 <= i < now.len() && 0 <= f < h < now[i].outputs.len() implies #[trigger] now[i].outputs[f]
            != #[trigger] now[i].outputs[h] by {
            if i < done.len() {
                assert(now[i] == done[i]);
            } else {
                assert(now[i] == a);
            }
        }
    }
}

proof fn all_apart(s: Setting, m: Manifest, order: Seq<int>, n: nat)
    requires
        actions_up_to(s, m, order, n) is Ok,
    ensures
        write_apart(actions_up_to(s, m, order, n)->Ok_0),
    decreases n,
{
    if n > 0 {
        reveal(target_step);
        all_apart(s, m, order, (n - 1) as nat);
        let before = actions_up_to(s, m, order, (n - 1) as nat)->Ok_0;
        let x = exports_at(s.config, m, order, n - 1);
        let own = target_actions(s, nth(m, order, n - 1), x)->Ok_0;
        added_apart(before, own, own.len());
    }
}

/// A file of a graph is written by one action at most.
pub proof fn files_have_one_producer(
    m: Manifest,
    profile: &str,
    platform: &str,
    g: BuildGraph,
    a: int,
    b: int,
    path: Seq<char>,
)
    requires
        call_ensures(
            BuildGraph::from_manifest_configured,
            (&m, profile, platform),
            Ok::<BuildGraph, GraphError>(g),
        ),
        0 <= a < g.actions@.len(),
        0 <= b < g.actions@.len(),
        paths_at(g.paths(), g.actions@[a].outputs@).contains(path),
        paths_at(g.paths(), g.actions@[b].outputs@).contains(path),
    ensures
        a == b,
{
    all_apart(setting_of(m, g), m, order_of(m), m.targets.values@.len());
    let all = action_models(g.paths(), g.actions@);
    assert(all[a].outputs == paths_at(g.paths(), g.actions@[a].outputs@));
    assert(all[b].outputs == paths_at(g.paths(), g.actions@[b].outputs@));
    let f = all[a].outputs.index_of(path);
    let h = all[b].outputs.index_of(path);
    assert(all[a].outputs[f] == path && all[b].outputs[h] == path);
    if a < b {
        assert(!all[a].outputs.contains(all[b].outputs[h]));
    }
    if b < a {
        assert(!all[b].outputs.contains(all[a].outputs[f]));
    }
}

proof fn claim_of(actions: Seq<Action>, n: nat, a: int, d: int) -> (k: int)
    requires
        0 <= a < n,
        0 <= d < actions[a].clean_dirs.len(),
    ensures
        claims_before(actions, a as nat) <= k < claims_before(actions, (a + 1) as nat),
        claims_before(actions, (a + 1) as nat) <= claims(actions, n).len(),
        k == claims_before(actions, a as nat) + d,
        claims(actions, n)[k].0 == actions[a].clean_dirs[d],
    decreases n,
{
    let less = (n - 1) as nat;
    if a < less {
        claim_of(actions, less, a, d)
    } else {
        claims_before(actions, less) + d
    }
}

spec fn claims_before(actions: Seq<Action>, n: nat) -> int {
    claims(actions, n).len() as int
}

proof fn claims_grow(actions: Seq<Action>, a: nat, b: nat)
    requires
        a <= b,
    ensures
        claims_before(actions, a) <= claims_before(actions, b),
    decreases b,
{
    if a < b {
        claims_grow(actions, a, (b - 1) as nat);
    }
}

/// No directory that an action empties holds a file of the graph, and none is in
/// one that another action empties.
pub proof fn emptied_directories_are_apart(
    m: Manifest,
    profile: &str,
    platform: &str,
    g: BuildGraph,
    a: int,
    d: int,
    b: int,
    e: int,
    f: int,
)
    requires
        call_ensures(
            BuildGraph::from_manifest_configured,
            (&m, profile, platform),
            Ok::<BuildGraph, GraphError>(g),
        ),
        0 <= a < g.actions@.len(),
        0 <= b < g.actions@.len(),
        0 <= d < g.actions@[a].clean_dirs@.len(),
        0 <= e < g.actions@[b].clean_dirs@.len(),
        0 <= f < g.paths().len(),
    ensures
        !under(g.paths()[f], g.actions@[a].clean_dirs@[d]@),
        (a, d) != (b, e) ==> !under(
            g.actions@[a].clean_dirs@[d]@,
            g.actions@[b].clean_dirs@[e]@,
        ),
{
    let all = action_models(g.paths(), g.actions@);
    let n = all.len();
    let told = claims(all, n);
    assert(all[a].clean_dirs == texts(g.actions@[a].clean_dirs@));
    assert(all[b].clean_dirs == texts(g.actions@[b].clean_dirs@));
    assert(all[a].clean_dirs.len() == g.actions@[a].clean_dirs@.len());
    assert(all[b].clean_dirs.len() == g.actions@[b].clean_dirs@.len());
    assert(all[a].clean_dirs[d] == g.actions@[a].clean_dirs@[d]@);
    assert(all[b].clean_dirs[e] == g.actions@[b].clean_dirs@[e]@);
    let j = claim_of(all, n, a, d);
    let k = claim_of(all, n, b, e);
    clean_means(told, g.paths(), told.len());
    assert(!under(g.paths()[f], told[j].0));
    if (a, d) != (b, e) {
        if a < b {
            claims_grow(all, (a + 1) as nat, b as nat);
        }
        if b < a {
            claims_grow(all, (b + 1) as nat, a as nat);
        }
        assert(j != k);
        if j < k {
            assert(!overlapping(told[k].0, told[j].0));
        } else {
            assert(!overlapping(told[j].0, told[k].0));
        }
    }
}

} // verus!
