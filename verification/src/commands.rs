//! What the smaller commands show and do.

use vstd::prelude::*;
use vstd::string::*;

use crate::graph::{paths_at, BuildGraph};
use crate::journal::{entry_map, EntryText, Journal};
use crate::json::{
    add_member, list, members, object, optional_text, optional_tree, text, text_list, text_trees,
    tree, trees, Json, JsonText, Member,
};
use crate::manifest::{Manifest, TargetKind, DEFAULT_PROFILE, HOST_PLATFORM};
use crate::paths::{join_path, joined_path};
use crate::query::{dep_edges, dep_path, depends, spots, UnknownTarget};
use crate::reach::depth_first;
use crate::rules::{ActionKind, BIN_DIR, LIB_DIR, OBJ_DIR};
use crate::sorted_map::{ascending, in_order, in_order_means, TextSet};
use crate::text::{
    begins, copies, copy, decimal, ends, ends_with, group_texts, join, joined, lines, lines_of,
    number, pad_right, padded_right, pieces, same, split, starts_with, texts,
};

verus! {

// ---------------------------------------------------------------------------
// Cleaning
// ---------------------------------------------------------------------------

/// The part of each output tree that is cleaned; none where all of it is.
pub open spec fn subtree(platform: Option<Seq<char>>, profile: Option<Seq<char>>) -> Option<
    Seq<char>,
> {
    match (platform, profile) {
        (None, None) => None,
        (None, Some(profile)) => Some(profile),
        (Some(platform), None) => Some(platform),
        (Some(platform), Some(profile)) => Some(platform + "/"@ + profile),
    }
}

/// A text that may be missing.
pub open spec fn given(s: Option<String>) -> Option<Seq<char>> {
    match s {
        Some(text) => Some(text@),
        None => None,
    }
}

/// The output trees that are cleaned.
pub open spec fn cleaned_trees(
    platform: Option<Seq<char>>,
    profile: Option<Seq<char>>,
) -> Seq<Seq<char>> {
    match subtree(platform, profile) {
        None => seq![OBJ_DIR@, LIB_DIR@, BIN_DIR@],
        Some(sub) => seq![
            joined_path(OBJ_DIR@, sub),
            joined_path(LIB_DIR@, sub),
            joined_path(BIN_DIR@, sub),
        ],
    }
}

/// The output trees that are cleaned for what was asked.
pub fn clean_trees(platform: &Option<String>, profile: &Option<String>) -> (r: Vec<String>)
    ensures
        texts(r@) == cleaned_trees(given(*platform), given(*profile)),
{
    let mut out: Vec<String> = Vec::new();
    let sub = match (platform, profile) {
        (None, None) => {
            out.push(copy(OBJ_DIR));
            out.push(copy(LIB_DIR));
            out.push(copy(BIN_DIR));
            assert(texts(out@) =~= seq![OBJ_DIR@, LIB_DIR@, BIN_DIR@]);
            return out;
        },
        (None, Some(profile)) => copy(profile),
        (Some(platform), None) => copy(platform),
        (Some(platform), Some(profile)) => {
            let mut sub = copy(platform);
            sub.append("/");
            sub.append(profile);
            sub
        },
    };
    out.push(join_path(OBJ_DIR, &sub));
    out.push(join_path(LIB_DIR, &sub));
    out.push(join_path(BIN_DIR, &sub));
    assert(texts(out@) =~= cleaned_trees(given(*platform), given(*profile)));
    out
}

/// A name together with others, in order.
pub open spec fn names_with(first: Seq<char>, more: Seq<Seq<char>>) -> Seq<Seq<char>> {
    in_order(more.to_set().insert(first))
}

fn sorted_with(first: &str, more: &Vec<String>) -> (r: Vec<String>)
    ensures
        texts(r@) == names_with(first@, texts(more@)),
{
    let ghost all = texts(more@);
    let mut set = TextSet::new();
    let _ = set.insert(copy(first));
    let mut i: usize = 0;
    assert(set@ =~= all.take(0).to_set().insert(first@));
    while i < more.len()
        invariant
            all == texts(more@),
            i <= more@.len(),
            set.wf(),
            set@ =~= all.take(i as int).to_set().insert(first@),
        decreases more@.len() - i,
    {
        proof {
            assert(all[i as int] == more@[i as int]@);
            assert(all.take(i + 1) =~= all.take(i as int).push(all[i as int]));
            all.take(i as int).lemma_push_to_set_commute(all[i as int]);
        }
        let _ = set.insert(copy(&more[i]));
        i += 1;
    }
    assert(all.take(i as int) =~= all);
    set.items()
}

/// The profiles of a workspace.
pub open spec fn all_profiles(m: Manifest) -> Seq<Seq<char>> {
    names_with(DEFAULT_PROFILE@, m.profiles.names())
}

/// The platforms of a workspace.
pub open spec fn all_platforms(m: Manifest) -> Seq<Seq<char>> {
    names_with(HOST_PLATFORM@, m.platforms.names())
}

/// The profiles of a workspace, in order.
pub fn profiles_of(manifest: &Manifest) -> (r: Vec<String>)
    ensures
        texts(r@) == all_profiles(*manifest),
{
    sorted_with(DEFAULT_PROFILE, &manifest.profiles.keys)
}

/// The platforms of a workspace, in order.
pub fn platforms_of(manifest: &Manifest) -> (r: Vec<String>)
    ensures
        texts(r@) == all_platforms(*manifest),
{
    sorted_with(HOST_PLATFORM, &manifest.platforms.keys)
}

/// A configuration: a platform and a profile.
#[derive(Debug)]
pub struct Configured {
    pub platform: String,
    pub profile: String,
}

/// Configurations.
pub open spec fn configured_texts(v: Seq<Configured>) -> Seq<(Seq<char>, Seq<char>)> {
    Seq::new(v.len(), |i: int| (v[i].platform@, v[i].profile@))
}

/// The configurations of a platform with the first `n` profiles, but the one
/// that is active.
pub open spec fn with_profiles(
    platform: Seq<char>,
    profiles: Seq<Seq<char>>,
    active: (Seq<char>, Seq<char>),
    n: nat,
) -> Seq<(Seq<char>, Seq<char>)>
    decreases n,
{
    if n == 0 {
        Seq::empty()
    } else {
        let before = with_profiles(platform, profiles, active, (n - 1) as nat);
        if (platform, profiles[n - 1]) == active {
            before
        } else {
            before.push((platform, profiles[n - 1]))
        }
    }
}

/// The configurations of the first `n` platforms with all profiles, but the
/// one that is active.
pub open spec fn others_upto(
    platforms: Seq<Seq<char>>,
    profiles: Seq<Seq<char>>,
    active: (Seq<char>, Seq<char>),
    n: nat,
) -> Seq<(Seq<char>, Seq<char>)>
    decreases n,
{
    if n == 0 {
        Seq::empty()
    } else {
        others_upto(platforms, profiles, active, (n - 1) as nat) + with_profiles(
            platforms[n - 1],
            profiles,
            active,
            profiles.len(),
        )
    }
}

/// The configurations that are cleaned next to the active one, where no profile
/// was asked for.
pub open spec fn other_configurations(
    m: Manifest,
    platform: Option<Seq<char>>,
    active: (Seq<char>, Seq<char>),
) -> Seq<(Seq<char>, Seq<char>)> {
    let platforms = match platform {
        Some(platform) => seq![platform],
        None => all_platforms(m),
    };
    others_upto(platforms, all_profiles(m), active, platforms.len())
}

/// The configurations whose outputs are cleaned next to those of the active
/// one: all of the workspace, or of the platform that was asked for.
pub fn clean_configurations(
    manifest: &Manifest,
    platform: &Option<String>,
    active_platform: &str,
    active_profile: &str,
) -> (r: Vec<Configured>)
    ensures
        configured_texts(r@) == other_configurations(
            *manifest,
            given(*platform),
            (active_platform@, active_profile@),
        ),
{
    let profiles = profiles_of(manifest);
    let platforms = match platform {
        Some(platform) => {
            let mut only: Vec<String> = Vec::new();
            only.push(copy(platform));
            assert(texts(only@) =~= seq![platform@]);
            only
        },
        None => platforms_of(manifest),
    };
    let ghost active = (active_platform@, active_profile@);
    let ghost names = texts(platforms@);
    let ghost kinds = texts(profiles@);
    let mut out: Vec<Configured> = Vec::new();
    let mut i: usize = 0;
    assert(configured_texts(out@) =~= Seq::<(Seq<char>, Seq<char>)>::empty());
    while i < platforms.len()
        invariant
            active == (active_platform@, active_profile@),
            names == texts(platforms@),
            kinds == texts(profiles@),
            i <= platforms@.len(),
            configured_texts(out@) == others_upto(names, kinds, active, i as nat),
        decreases platforms@.len() - i,
    {
        assert(names[i as int] == platforms@[i as int]@);
        let ghost before = configured_texts(out@);
        let mut j: usize = 0;
        assert(before + with_profiles(names[i as int], kinds, active, 0) =~= before);
        while j < profiles.len()
            invariant
                active == (active_platform@, active_profile@),
                names == texts(platforms@),
                kinds == texts(profiles@),
                i < platforms@.len(),
                names[i as int] == platforms@[i as int]@,
                j <= profiles@.len(),
                configured_texts(out@) == before + with_profiles(
                    names[i as int],
                    kinds,
                    active,
                    j as nat,
                ),
            decreases profiles@.len() - j,
        {
            assert(kinds[j as int] == profiles@[j as int]@);
            let ghost so_far = configured_texts(out@);
            let ghost next = (names[i as int], kinds[j as int]);
            if !(same(&platforms[i], active_platform) && same(&profiles[j], active_profile)) {
                out.push(
                    Configured { platform: copy(&platforms[i]), profile: copy(&profiles[j]) },
                );
                assert(configured_texts(out@) =~= so_far.push(next));
                assert(so_far.push(next) =~= before + with_profiles(
                    names[i as int],
                    kinds,
                    active,
                    (j + 1) as nat,
                ));
            }
            j += 1;
        }
        assert(kinds.len() == profiles@.len());
        i += 1;
    }
    assert(names.len() == platforms@.len());
    out
}

/// Targets of this kind write where their manifest says.
pub open spec fn writes_anywhere(kind: TargetKind) -> bool {
    kind == TargetKind::Genrule || kind == TargetKind::Command
}

/// The files that the first `n` targets write outside the output trees.
pub open spec fn outside_outputs(g: BuildGraph, n: nat) -> Set<Seq<char>>
    decreases n,
{
    if n == 0 {
        Set::empty()
    } else {
        let t = g.targets.values@[n - 1];
        let before = outside_outputs(g, (n - 1) as nat);
        if writes_anywhere(t.kind) {
            before.union(paths_at(g.paths(), t.outputs@).to_set())
        } else {
            before
        }
    }
}

/// The intermediate directories of the first `n` of some actions.
pub open spec fn action_dirs(g: BuildGraph, actions: Seq<usize>, n: nat) -> Set<Seq<char>>
    decreases n,
{
    if n == 0 {
        Set::empty()
    } else {
        action_dirs(g, actions, (n - 1) as nat).union(
            texts(g.actions@[actions[n - 1] as int].clean_dirs@).to_set(),
        )
    }
}

/// The intermediate directories of the first `n` targets.
pub open spec fn intermediate_dirs(g: BuildGraph, n: nat) -> Set<Seq<char>>
    decreases n,
{
    if n == 0 {
        Set::empty()
    } else {
        let t = g.targets.values@[n - 1];
        let before = intermediate_dirs(g, (n - 1) as nat);
        if writes_anywhere(t.kind) {
            before.union(action_dirs(g, t.actions@, t.actions@.len()))
        } else {
            before
        }
    }
}

fn add_all(set: &mut TextSet, more: &Vec<String>)
    requires
        old(set).wf(),
    ensures
        final(set).wf(),
        final(set)@ == old(set)@.union(texts(more@).to_set()),
{
    let ghost was = set@;
    let ghost names = texts(more@);
    let mut i: usize = 0;
    assert(was.union(names.take(0).to_set()) =~= was);
    while i < more.len()
        invariant
            names == texts(more@),
            i <= more@.len(),
            set.wf(),
            set@ =~= was.union(names.take(i as int).to_set()),
        decreases more@.len() - i,
    {
        proof {
            assert(names[i as int] == more@[i as int]@);
            assert(names.take(i + 1) =~= names.take(i as int).push(names[i as int]));
            names.take(i as int).lemma_push_to_set_commute(names[i as int]);
        }
        let _ = set.insert(copy(&more[i]));
        i += 1;
    }
    assert(names.take(i as int) =~= names);
}

fn add_outputs(graph: &BuildGraph, i: usize, set: &mut TextSet)
    requires
        graph.wf(),
        i < graph.targets.values@.len(),
        old(set).wf(),
    ensures
        final(set).wf(),
        final(set)@ == old(set)@.union(
            paths_at(graph.paths(), graph.targets.values@[i as int].outputs@).to_set(),
        ),
{
    let ghost was = set@;
    let outputs = &graph.targets.values[i].outputs;
    let ghost names = paths_at(graph.paths(), outputs@);
    let mut k: usize = 0;
    assert(graph.target_ok(i as int));
    assert(was.union(names.take(0).to_set()) =~= was);
    while k < outputs.len()
        invariant
            graph.wf(),
            i < graph.targets.values@.len(),
            graph.target_ok(i as int),
            *outputs == graph.targets.values@[i as int].outputs,
            names == paths_at(graph.paths(), outputs@),
            k <= outputs@.len(),
            set.wf(),
            set@ =~= was.union(names.take(k as int).to_set()),
        decreases outputs@.len() - k,
    {
        let f: usize = outputs[k];
        proof {
            assert(graph.targets.values@[i as int].outputs@[k as int] < graph.files@.len());
            assert(names[k as int] == graph.files@[f as int].path@);
            assert(names.take(k + 1) =~= names.take(k as int).push(names[k as int]));
            names.take(k as int).lemma_push_to_set_commute(names[k as int]);
        }
        let _ = set.insert(copy(&graph.files[f].path));
        k += 1;
    }
    assert(names.take(k as int) =~= names);
}

fn add_dirs(graph: &BuildGraph, i: usize, set: &mut TextSet)
    requires
        graph.wf(),
        i < graph.targets.values@.len(),
        old(set).wf(),
    ensures
        final(set).wf(),
        final(set)@ == old(set)@.union(
            action_dirs(
                *graph,
                graph.targets.values@[i as int].actions@,
                graph.targets.values@[i as int].actions@.len(),
            ),
        ),
{
    let ghost was = set@;
    let actions = &graph.targets.values[i].actions;
    let mut k: usize = 0;
    assert(graph.target_ok(i as int));
    assert(was.union(action_dirs(*graph, actions@, 0)) =~= was);
    while k < actions.len()
        invariant
            graph.wf(),
            i < graph.targets.values@.len(),
            graph.target_ok(i as int),
            *actions == graph.targets.values@[i as int].actions,
            k <= actions@.len(),
            set.wf(),
            set@ =~= was.union(action_dirs(*graph, actions@, k as nat)),
        decreases actions@.len() - k,
    {
        let a: usize = actions[k];
        assert(graph.targets.values@[i as int].actions@[k as int] < graph.actions@.len());
        add_all(set, &graph.actions[a].clean_dirs);
        assert(set@ =~= was.union(action_dirs(*graph, actions@, (k + 1) as nat)));
        k += 1;
    }
}

/// What genrules and commands leave outside the output trees: the files that
/// they write, and their intermediate directories, each in order.
pub fn clean_files(graph: &BuildGraph) -> (r: (Vec<String>, Vec<String>))
    requires
        graph.wf(),
    ensures
        texts(r.0@) == in_order(outside_outputs(*graph, graph.targets.values@.len())),
        texts(r.1@) == in_order(intermediate_dirs(*graph, graph.targets.values@.len())),
{
    let mut files = TextSet::new();
    let mut dirs = TextSet::new();
    let mut i: usize = 0;
    while i < graph.targets.values.len()
        invariant
            graph.wf(),
            i <= graph.targets.values@.len(),
            files.wf(),
            dirs.wf(),
            files@ == outside_outputs(*graph, i as nat),
            dirs@ == intermediate_dirs(*graph, i as nat),
        decreases graph.targets.values@.len() - i,
    {
        let external = match graph.targets.values[i].kind {
            TargetKind::Genrule | TargetKind::Command => true,
            _ => false,
        };
        if external {
            add_outputs(graph, i, &mut files);
            add_dirs(graph, i, &mut dirs);
        }
        i += 1;
    }
    (files.items(), dirs.items())
}

/// Whether a file of this name is a record of a build with nothing to do.
pub fn is_noop_record(name: &str) -> (r: bool)
    ensures
        r == (begins(name@, "noop-"@) && ends(name@, ".bin"@)),
{
    starts_with(name, "noop-") && ends_with(name, ".bin")
}

// ---------------------------------------------------------------------------
// Graphs
// ---------------------------------------------------------------------------

/// A line about a target.
pub open spec fn graph_line(name: Seq<char>, kind: TargetKind, deps: Seq<Seq<char>>) -> Seq<char> {
    name + " ["@ + kind.text() + "]"@ + if deps.len() == 0 {
        ""@
    } else {
        " <- "@ + joined(deps, ", "@)
    }
}

/// A line about each target.
pub fn graph_lines(graph: &BuildGraph) -> (r: Vec<String>)
    ensures
        r@.len() == graph.targets.values@.len(),
        forall|i: int|
            0 <= i < r@.len() ==> (#[trigger] r@[i])@ == graph_line(
                graph.targets.values@[i].name@,
                graph.targets.values@[i].kind,
                texts(graph.targets.values@[i].deps@),
            ),
{
    let mut out: Vec<String> = Vec::new();
    let mut i: usize = 0;
    while i < graph.targets.values.len()
        invariant
            i <= graph.targets.values@.len(),
            out@.len() == i,
            forall|k: int|
                0 <= k < i ==> (#[trigger] out@[k])@ == graph_line(
                    graph.targets.values@[k].name@,
                    graph.targets.values@[k].kind,
                    texts(graph.targets.values@[k].deps@),
                ),
        decreases graph.targets.values@.len() - i,
    {
        let t = &graph.targets.values[i];
        let mut line = copy(&t.name);
        line.append(" [");
        line.append(t.kind.as_str());
        line.append("]");
        let mut rest = copy("");
        assert(texts(t.deps@).len() == t.deps@.len());
        if t.deps.len() > 0 {
            rest = copy(" <- ");
            rest.append(&join(&t.deps, ", "));
        }
        line.append(&rest);
        out.push(line);
        i += 1;
    }
    out
}

/// An entry of a compilation database.
#[derive(Debug)]
pub struct CompdbEntry {
    pub file: String,
    pub arguments: Vec<String>,
    pub output: Option<String>,
}

/// The entry for an action.
pub open spec fn compdb_entry(g: BuildGraph, a: int, e: CompdbEntry) -> bool {
    let action = g.actions@[a];
    &&& e.file@ == if action.inputs@.len() > 0 {
        g.files@[action.inputs@[0] as int].path@
    } else {
        Seq::empty()
    }
    &&& texts(e.arguments@) == texts(action.argv@)
    &&& match e.output {
        Some(path) => action.outputs@.len() > 0 && path@ == g.files@[action.outputs@[0] as int].path@,
        None => action.outputs@.len() == 0,
    }
}

/// The numbers of those of the first `n` actions that compile.
pub open spec fn compiles_upto(g: BuildGraph, n: nat) -> Seq<int>
    decreases n,
{
    if n == 0 {
        Seq::empty()
    } else {
        let before = compiles_upto(g, (n - 1) as nat);
        if g.actions@[n - 1].kind == ActionKind::Compile {
            before.push(n - 1)
        } else {
            before
        }
    }
}

/// The entries of the compilation database: one for each action that compiles.
pub fn compdb(graph: &BuildGraph) -> (r: Vec<CompdbEntry>)
    requires
        graph.wf(),
    ensures
        ({
            let all = compiles_upto(*graph, graph.actions@.len());
            &&& r@.len() == all.len()
            &&& forall|k: int|
                0 <= k < r@.len() ==> compdb_entry(*graph, all[k], #[trigger] r@[k])
        }),
{
    let mut out: Vec<CompdbEntry> = Vec::new();
    let mut i: usize = 0;
    while i < graph.actions.len()
        invariant
            graph.wf(),
            i <= graph.actions@.len(),
            out@.len() == compiles_upto(*graph, i as nat).len(),
            forall|k: int|
                0 <= k < out@.len() ==> compdb_entry(
                    *graph,
                    compiles_upto(*graph, i as nat)[k],
                    #[trigger] out@[k],
                ),
        decreases graph.actions@.len() - i,
    {
        let action = &graph.actions[i];
        assert(crate::graph::action_ok(graph.files@.len(), graph.actions@[i as int]));
        if action.kind == ActionKind::Compile {
            let file = if action.inputs.len() > 0 {
                let f: usize = action.inputs[0];
                copy(&graph.files[f].path)
            } else {
                let none = String::new();
                assert(none@ =~= Seq::<char>::empty());
                none
            };
            let output = if action.outputs.len() > 0 {
                let f: usize = action.outputs[0];
                Some(copy(&graph.files[f].path))
            } else {
                None
            };
            out.push(CompdbEntry { file, arguments: copies(&action.argv), output });
        }
        i += 1;
    }
    out
}

// ---------------------------------------------------------------------------
// Queries
// ---------------------------------------------------------------------------

/// A question about the targets of a workspace.
#[derive(Debug)]
pub enum Query {
    Deps { target: String },
    Rdeps { target: String },
    Somepath { from: String, to: String },
}

impl Query {
    /// The question in words.
    pub open spec fn text(self) -> Seq<char> {
        match self {
            Query::Deps { target } => "deps("@ + target@ + ")"@,
            Query::Rdeps { target } => "rdeps("@ + target@ + ")"@,
            Query::Somepath { from, to } => "somepath("@ + from@ + ", "@ + to@ + ")"@,
        }
    }

    /// These targets are the answer.
    pub open spec fn answered(self, g: BuildGraph, names: Seq<Seq<char>>) -> bool {
        match self {
            Query::Deps { target } => g.targets.has(target@) && ascending(names) && forall|
                x: Seq<char>,
            | #[trigger]
                names.contains(x) <==> depends(g, target@, x),
            Query::Rdeps { target } => g.targets.has(target@) && ascending(names) && forall|
                x: Seq<char>,
            | #[trigger]
                names.contains(x) <==> depends(g, x, target@),
            Query::Somepath { from, to } => depends(g, from@, to@) && dep_path(
                g,
                names,
                from@,
                to@,
            ) && depth_first(
                dep_edges(g),
                spots(g, names),
                g.targets.spot(to@),
            ),
        }
    }
}

/// The answer to a question.
#[derive(Debug)]
pub enum Answer {
    /// These targets; `query` is the question in words.
    Targets { query: String, names: Vec<String> },
    /// The one target does not depend on the other.
    NoPath { message: String },
}

/// Answers a question about the targets of a graph. The error is the first
/// name in the question that no target has.
pub fn answer(graph: &BuildGraph, query: &Query) -> (r: Result<Answer, UnknownTarget>)
    requires
        graph.wf(),
    ensures
        match r {
            Ok(Answer::Targets { query: told, names }) => told@ == query.text() && query.answered(
                *graph,
                texts(names@),
            ),
            Ok(Answer::NoPath { message }) => match *query {
                Query::Somepath { from, to } => {
                    &&& graph.targets.has(from@) && graph.targets.has(to@)
                    &&& !depends(*graph, from@, to@)
                    &&& message@ == "no path from "@ + from@ + " to "@ + to@
                },
                _ => false,
            },
            Err(e) => !graph.targets.has(e.name@) && match *query {
                Query::Deps { target } => e.name@ == target@,
                Query::Rdeps { target } => e.name@ == target@,
                Query::Somepath { from, to } => e.name@ == (if graph.targets.has(from@) {
                    to@
                } else {
                    from@
                }),
            },
        },
{
    match query {
        Query::Deps { target } => {
            let mut told = copy("deps(");
            told.append(target);
            told.append(")");
            match graph.deps_closure(target) {
                Ok(names) => Ok(Answer::Targets { query: told, names }),
                Err(e) => Err(e),
            }
        },
        Query::Rdeps { target } => {
            let mut told = copy("rdeps(");
            told.append(target);
            told.append(")");
            match graph.rdeps_closure(target) {
                Ok(names) => Ok(Answer::Targets { query: told, names }),
                Err(e) => Err(e),
            }
        },
        Query::Somepath { from, to } => {
            match graph.somepath(from, to) {
                Ok(Some(names)) => {
                    let mut told = copy("somepath(");
                    told.append(from);
                    told.append(", ");
                    told.append(to);
                    told.append(")");
                    Ok(Answer::Targets { query: told, names })
                },
                Ok(None) => {
                    let mut message = copy("no path from ");
                    message.append(from);
                    message.append(" to ");
                    message.append(to);
                    Ok(Answer::NoPath { message })
                },
                Err(e) => Err(e),
            }
        },
    }
}

/// The answers agree: one target is among the dependencies of another where
/// that one is among those that depend on it, and where there is a path.
pub proof fn answers_agree(
    g: BuildGraph,
    a: String,
    b: String,
    deps: Seq<Seq<char>>,
    rdeps: Seq<Seq<char>>,
    path: Seq<Seq<char>>,
)
    requires
        (Query::Deps { target: a }).answered(g, deps),
        (Query::Rdeps { target: b }).answered(g, rdeps),
    ensures
        deps.contains(b@) <==> rdeps.contains(a@),
        (Query::Somepath { from: a, to: b }).answered(g, path) ==> deps.contains(b@),
{
}

// ---------------------------------------------------------------------------
// What was recorded
// ---------------------------------------------------------------------------

/// The line about what was recorded of an action.
pub open spec fn record_line(id: Seq<char>, entry: EntryText) -> Seq<char> {
    id + " :: "@ + entry.reason + " ("@ + decimal(entry.duration_ms as nat) + " ms)"@
}

/// The lines about those of the first `n` actions that belong to a target and
/// were recorded. `ids` are the names under which the actions are recorded.
pub open spec fn record_lines_upto(
    g: BuildGraph,
    target: Seq<char>,
    ids: Seq<Seq<char>>,
    journal: Map<Seq<char>, EntryText>,
    n: nat,
) -> Seq<Seq<char>>
    decreases n,
{
    if n == 0 {
        Seq::empty()
    } else {
        let before = record_lines_upto(g, target, ids, journal, (n - 1) as nat);
        if g.actions@[n - 1].target@ == target && journal.contains_key(ids[n - 1]) {
            before.push(record_line(g.actions@[n - 1].id@, journal[ids[n - 1]]))
        } else {
            before
        }
    }
}

/// Why the actions of a target last ran, as the journal has it. `ids` are the
/// names under which the actions of the graph are recorded.
pub fn record_lines(
    graph: &BuildGraph,
    target: &str,
    profile: &str,
    ids: &Vec<String>,
    journal: &Journal,
) -> (r: Vec<String>)
    requires
        ids@.len() == graph.actions@.len(),
        journal.wf(),
    ensures
        ({
            let told = record_lines_upto(
                *graph,
                target@,
                texts(ids@),
                entry_map(journal.actions),
                graph.actions@.len(),
            );
            texts(r@) == if told.len() > 0 {
                told
            } else {
                seq!["frost: no recorded execution for "@ + target@ + " ("@ + profile@ + ")"@]
            }
        }),
{
    broadcast use group_texts;

    let mut out: Vec<String> = Vec::new();
    let mut i: usize = 0;
    assert(texts(out@) =~= Seq::<Seq<char>>::empty());
    while i < graph.actions.len()
        invariant
            ids@.len() == graph.actions@.len(),
            journal.wf(),
            i <= graph.actions@.len(),
            texts(out@) == record_lines_upto(
                *graph,
                target@,
                texts(ids@),
                entry_map(journal.actions),
                i as nat,
            ),
        decreases graph.actions@.len() - i,
    {
        let action = &graph.actions[i];
        assert(texts(ids@)[i as int] == ids@[i as int]@);
        if same(&action.target, target) {
            if let Some(entry) = journal.actions.get(&ids[i]) {
                let mut line = copy(&action.id);
                line.append(" :: ");
                line.append(&entry.reason);
                line.append(" (");
                line.append(&number(entry.duration_ms as u128));
                line.append(" ms)");
                out.push(line);
            }
        }
        i += 1;
    }
    assert(texts(out@).len() == out@.len());
    if out.len() == 0 {
        let mut line = copy("frost: no recorded execution for ");
        line.append(target);
        line.append(" (");
        line.append(profile);
        line.append(")");
        let ghost told = line@;
        out.push(line);
        assert(texts(out@) =~= seq![told]);
    }
    out
}

// ---------------------------------------------------------------------------
// Picking targets
// ---------------------------------------------------------------------------

/// The row that a target is picked by.
pub open spec fn pick_row(name: Seq<char>, kind: TargetKind, deps: Seq<Seq<char>>) -> Seq<char> {
    name + "\t"@ + kind.text() + "\t"@ + if deps.len() == 0 {
        "-"@
    } else {
        joined(deps, ","@)
    }
}

/// The rows of those of the first `n` targets that can be picked.
pub open spec fn rows_upto(m: Manifest, tests: bool, n: nat) -> Seq<Seq<char>>
    decreases n,
{
    if n == 0 {
        Seq::empty()
    } else {
        let t = m.targets.values@[n - 1];
        let before = rows_upto(m, tests, (n - 1) as nat);
        if !tests || t.kind.tests() {
            before.push(pick_row(t.name@, t.kind, texts(t.deps@)))
        } else {
            before
        }
    }
}

/// The rows to pick from; with `tests` those of tests only.
pub fn pick_rows(manifest: &Manifest, tests: bool) -> (r: Vec<String>)
    ensures
        texts(r@) == rows_upto(*manifest, tests, manifest.targets.values@.len()),
{
    broadcast use group_texts;

    let mut out: Vec<String> = Vec::new();
    let mut i: usize = 0;
    while i < manifest.targets.values.len()
        invariant
            i <= manifest.targets.values@.len(),
            texts(out@) == rows_upto(*manifest, tests, i as nat),
        decreases manifest.targets.values@.len() - i,
    {
        let t = &manifest.targets.values[i];
        if !tests || t.kind.is_test() {
            let mut row = copy(&t.name);
            row.append("\t");
            row.append(t.kind.as_str());
            row.append("\t");
            assert(texts(t.deps@).len() == t.deps@.len());
            if t.deps.len() == 0 {
                row.append("-");
            } else {
                row.append(&join(&t.deps, ","));
            }
            out.push(row);
        }
        i += 1;
    }
    out
}

/// The targets on the first `n` of the rows that were picked.
pub open spec fn picked_upto(rows: Seq<Seq<char>>, n: nat) -> Seq<Seq<char>>
    decreases n,
{
    if n == 0 {
        Seq::empty()
    } else {
        let before = picked_upto(rows, (n - 1) as nat);
        let name = pieces(rows[n - 1], '\t')[0];
        if name.len() > 0 {
            before.push(name)
        } else {
            before
        }
    }
}

/// The targets that were picked: what stands before the first tab on each
/// line.
pub fn picked(output: &str) -> (r: Vec<String>)
    ensures
        texts(r@) == picked_upto(lines_of(output@), lines_of(output@).len()),
{
    broadcast use group_texts;

    let rows = lines(output);
    let ghost all = lines_of(output@);
    let mut out: Vec<String> = Vec::new();
    let mut i: usize = 0;
    assert(all.len() == rows@.len());
    while i < rows.len()
        invariant
            texts(rows@) == all,
            i <= rows@.len(),
            texts(out@) == picked_upto(all, i as nat),
        decreases rows@.len() - i,
    {
        assert(all[i as int] == rows@[i as int]@);
        let parts = split(&rows[i], '\t');
        proof {
            crate::text::pieces_nonempty(rows@[i as int]@, '\t');
            assert(texts(parts@).len() == parts@.len());
            assert(texts(parts@)[0] == parts@[0]@);
        }
        if !parts[0].as_str().is_empty() {
            out.push(copy(&parts[0]));
        }
        i += 1;
    }
    out
}

/// A row gives its target back, where the name has no tab and no line break in
/// it.
pub proof fn row_read_back(name: Seq<char>, kind: TargetKind, deps: Seq<Seq<char>>)
    requires
        !name.contains('\t'),
    ensures
        pieces(pick_row(name, kind, deps), '\t')[0] == name,
{
    reveal_strlit("\t");
    let rest = kind.text() + "\t"@ + if deps.len() == 0 {
        "-"@
    } else {
        joined(deps, ","@)
    };
    assert("\t"@ =~= seq!['\t']);
    assert(pick_row(name, kind, deps) =~= name + seq!['\t'] + rest);
    crate::text::pieces_add(name, rest, '\t');
    crate::text::pieces_whole(name, '\t');
}

// ---------------------------------------------------------------------------
// Platforms
// ---------------------------------------------------------------------------

/// The platforms of a build for all of them: this machine first.
pub open spec fn build_platforms(m: Manifest) -> Seq<Seq<char>> {
    seq![HOST_PLATFORM@] + m.platforms.names()
}

/// The platforms of a build for all of them.
pub fn platforms_to_build(manifest: &Manifest) -> (r: Vec<String>)
    ensures
        texts(r@) == build_platforms(*manifest),
{
    broadcast use group_texts;

    let mut out: Vec<String> = Vec::new();
    out.push(copy(HOST_PLATFORM));
    crate::text::extend(&mut out, &manifest.platforms.keys);
    assert(texts(out@) =~= build_platforms(*manifest));
    out
}

/// How the build for a platform ended.
#[derive(Debug)]
pub struct PlatformResult {
    pub platform: String,
    pub code: i32,
}

/// A line about a platform.
pub open spec fn platform_line(platform: Seq<char>, code: i32, last: bool) -> Seq<char> {
    (if last {
        "`--"@
    } else {
        "|--"@
    }) + " "@ + padded_right(platform, 16) + " "@ + if code == 0 {
        "ok"@
    } else {
        "failed"@
    }
}

/// A line about each platform.
pub fn platform_lines(results: &Vec<PlatformResult>) -> (r: Vec<String>)
    ensures
        r@.len() == results@.len(),
        forall|i: int|
            0 <= i < r@.len() ==> (#[trigger] r@[i])@ == platform_line(
                results@[i].platform@,
                results@[i].code,
                i + 1 == results@.len(),
            ),
{
    let mut out: Vec<String> = Vec::new();
    let mut i: usize = 0;
    while i < results.len()
        invariant
            i <= results@.len(),
            out@.len() == i,
            forall|k: int|
                0 <= k < i ==> (#[trigger] out@[k])@ == platform_line(
                    results@[k].platform@,
                    results@[k].code,
                    k + 1 == results@.len(),
                ),
        decreases results@.len() - i,
    {
        let mut line = if i + 1 == results.len() {
            copy("`--")
        } else {
            copy("|--")
        };
        line.append(" ");
        line.append(&pad_right(&results[i].platform, 16));
        line.append(" ");
        if results[i].code == 0 {
            line.append("ok");
        } else {
            line.append("failed");
        }
        out.push(line);
        i += 1;
    }
    out
}


// ---------------------------------------------------------------------------
// JSON
// ---------------------------------------------------------------------------

/// An entry of a compilation database.
pub open spec fn entry_tree(root: Seq<char>, e: CompdbEntry) -> JsonText {
    JsonText::Object(
        seq![
            ("directory"@, JsonText::Text(root)),
            ("file"@, JsonText::Text(e.file@)),
            ("arguments"@, JsonText::List(text_trees(texts(e.arguments@)))),
            ("output"@, optional_tree(e.output)),
        ],
    )
}

/// A compilation database for a workspace.
pub fn compdb_file(root: &str, entries: &Vec<CompdbEntry>) -> (r: Json)
    ensures
        tree(r) == JsonText::List(
            Seq::new(entries@.len(), |i: int| entry_tree(root@, entries@[i])),
        ),
{
    let ghost all = Seq::new(entries@.len(), |i: int| entry_tree(root@, entries@[i]));
    let mut out: Vec<Json> = Vec::new();
    let mut i: usize = 0;
    while i < entries.len()
        invariant
            all == Seq::new(entries@.len(), |i: int| entry_tree(root@, entries@[i])),
            i <= entries@.len(),
            out@.len() == i,
            forall|k: int| 0 <= k < i ==> tree(#[trigger] out@[k]) == all[k],
        decreases entries@.len() - i,
    {
        let e = &entries[i];
        let mut v: Vec<Member> = Vec::new();
        add_member(&mut v, "directory", text(root));
        add_member(&mut v, "file", text(&e.file));
        add_member(&mut v, "arguments", text_list(&e.arguments));
        add_member(&mut v, "output", optional_text(&e.output));
        assert(members(v@) =~= entry_tree(root@, *e)->Object_0);
        out.push(object(v));
        i += 1;
    }
    assert(trees(out@) =~= all);
    list(out)
}

/// The targets that answer a question.
pub fn answer_file(query: &str, names: &Vec<String>) -> (r: Json)
    ensures
        tree(r) == JsonText::Object(
            seq![
                ("query"@, JsonText::Text(query@)),
                ("targets"@, JsonText::List(text_trees(texts(names@)))),
            ],
        ),
{
    let mut v: Vec<Member> = Vec::new();
    add_member(&mut v, "query", text(query));
    add_member(&mut v, "targets", text_list(names));
    assert(members(v@) =~= seq![
        ("query"@, JsonText::Text(query@)),
        ("targets"@, JsonText::List(text_trees(texts(names@)))),
    ]);
    object(v)
}

// ---------------------------------------------------------------------------
// What the lists hold
// ---------------------------------------------------------------------------

/// Cleaning is of the three output trees, whole or below the platform and the
/// profile that were asked for.
pub proof fn trees_are_cleaned(platform: Option<String>, profile: Option<String>, r: Vec<String>)
    requires
        call_ensures(clean_trees, (&platform, &profile), r),
    ensures
        r@.len() == 3,
        platform is None && profile is None ==> texts(r@) == seq![
            ".frost/obj"@,
            ".frost/lib"@,
            ".frost/bin"@,
        ],
        platform is None && profile is Some ==> texts(r@) == seq![
            joined_path(".frost/obj"@, profile->0@),
            joined_path(".frost/lib"@, profile->0@),
            joined_path(".frost/bin"@, profile->0@),
        ],
        platform is Some && profile is None ==> texts(r@) == seq![
            joined_path(".frost/obj"@, platform->0@),
            joined_path(".frost/lib"@, platform->0@),
            joined_path(".frost/bin"@, platform->0@),
        ],
        platform is Some && profile is Some ==> texts(r@) == seq![
            joined_path(".frost/obj"@, platform->0@ + "/"@ + profile->0@),
            joined_path(".frost/lib"@, platform->0@ + "/"@ + profile->0@),
            joined_path(".frost/bin"@, platform->0@ + "/"@ + profile->0@),
        ],
{
    assert(texts(r@).len() == r@.len());
}

proof fn names_with_means(first: Seq<char>, more: Seq<Seq<char>>, x: Seq<char>)
    ensures
        ascending(names_with(first, more)),
        names_with(first, more).contains(x) <==> x == first || more.contains(x),
{
    let set = more.to_set().insert(first);
    vstd::seq_lib::seq_to_set_is_finite(more);
    in_order_means(set);
    assert(names_with(first, more).contains(x) <==> names_with(first, more).to_set().contains(x));
}

/// A workspace has the profiles that it declares and the default one, and the
/// platforms that it declares and the host.
pub proof fn all_configurations_are_listed(
    m: Manifest,
    profiles: Vec<String>,
    platforms: Vec<String>,
    x: Seq<char>,
)
    requires
        call_ensures(profiles_of, (&m,), profiles),
        call_ensures(platforms_of, (&m,), platforms),
    ensures
        texts(profiles@).contains(x) <==> x == "debug"@ || m.profiles.names().contains(x),
        texts(platforms@).contains(x) <==> x == "host"@ || m.platforms.names().contains(x),
{
    names_with_means(DEFAULT_PROFILE@, m.profiles.names(), x);
    names_with_means(HOST_PLATFORM@, m.platforms.names(), x);
}

proof fn with_profiles_means(
    platform: Seq<char>,
    profiles: Seq<Seq<char>>,
    active: (Seq<char>, Seq<char>),
    n: nat,
    p: (Seq<char>, Seq<char>),
)
    requires
        n <= profiles.len(),
    ensures
        with_profiles(platform, profiles, active, n).contains(p) <==> p != active && p.0 == platform
            && profiles.take(n as int).contains(p.1),
    decreases n,
{
    if n > 0 {
        let less = (n - 1) as nat;
        with_profiles_means(platform, profiles, active, less, p);
        let before = with_profiles(platform, profiles, active, less);
        let now = with_profiles(platform, profiles, active, n);
        let few = profiles.take(less as int);
        assert(profiles.take(n as int) =~= few.push(profiles[n - 1]));
        if few.contains(p.1) {
            assert(profiles.take(n as int)[few.index_of(p.1)] == p.1);
        }
        if profiles[n - 1] == p.1 {
            assert(profiles.take(n as int)[n - 1] == p.1);
        } else if profiles.take(n as int).contains(p.1) {
            let k = profiles.take(n as int).index_of(p.1);
            assert(few[k] == p.1);
        }
        if before.contains(p) {
            assert(now[before.index_of(p)] == p);
        }
        if now.contains(p) && now.len() > before.len() {
            let k = now.index_of(p);
            if k < before.len() {
                assert(before[k] == p);
            }
        }
        if (platform, profiles[n - 1]) != active && p == (platform, profiles[n - 1]) {
            assert(now[now.len() - 1] == p);
        }
    } else {
        assert(profiles.take(0) =~= Seq::empty());
    }
}

proof fn others_mean(
    platforms: Seq<Seq<char>>,
    profiles: Seq<Seq<char>>,
    active: (Seq<char>, Seq<char>),
    n: nat,
    p: (Seq<char>, Seq<char>),
)
    requires
        n <= platforms.len(),
    ensures
        others_upto(platforms, profiles, active, n).contains(p) <==> p != active && profiles.contains(
            p.1,
        ) && exists|i: int| 0 <= i < n && #[trigger] platforms[i] == p.0,
    decreases n,
{
    if n > 0 {
        let less = (n - 1) as nat;
        others_mean(platforms, profiles, active, less, p);
        with_profiles_means(platforms[n - 1], profiles, active, profiles.len(), p);
        assert(profiles.take(profiles.len() as int) =~= profiles);
        let q = others_upto(platforms, profiles, active, less);
        let w = with_profiles(platforms[n - 1], profiles, active, profiles.len());
        if q.contains(p) {
            assert((q + w)[q.index_of(p)] == p);
        }
        if w.contains(p) {
            assert((q + w)[q.len() + w.index_of(p)] == p);
        }
        if (q + w).contains(p) {
            let k = (q + w).index_of(p);
            if k < q.len() {
                assert(q[k] == p);
            } else {
                assert(w[k - q.len()] == p);
            }
        }
    }
}

/// Next to the active configuration every other of the workspace is cleaned: each
/// profile with each platform, or with the one platform that was asked for.
pub proof fn every_other_configuration_is_cleaned(
    m: Manifest,
    platform: Option<String>,
    active_platform: &str,
    active_profile: &str,
    r: Vec<Configured>,
    p: Seq<char>,
    q: Seq<char>,
)
    requires
        call_ensures(clean_configurations, (&m, &platform, active_platform, active_profile), r),
    ensures
        (exists|i: int|
            0 <= i < r@.len() && (#[trigger] r@[i]).platform@ == p && r@[i].profile@ == q) <==> !(p
            == active_platform@ && q == active_profile@) && (q == "debug"@
            || m.profiles.names().contains(q)) && (match platform {
            Some(only) => p == only@,
            None => p == "host"@ || m.platforms.names().contains(p),
        }),
{
    let active = (active_platform@, active_profile@);
    let platforms = match platform {
        Some(platform) => seq![platform@],
        None => all_platforms(m),
    };
    let profiles = all_profiles(m);
    let all = configured_texts(r@);
    others_mean(platforms, profiles, active, platforms.len(), (p, q));
    names_with_means(DEFAULT_PROFILE@, m.profiles.names(), q);
    names_with_means(HOST_PLATFORM@, m.platforms.names(), p);
    if platforms.contains(p) {
        assert(platforms[platforms.index_of(p)] == p);
    }
    if platform is Some && p == platform->0@ {
        assert(platforms[0] == p);
    }
    if all.contains((p, q)) {
        let i = all.index_of((p, q));
        assert(r@[i].platform@ == p);
    }
    if exists|i: int| 0 <= i < r@.len() && (#[trigger] r@[i]).platform@ == p && r@[i].profile@ == q {
        let i = choose|i: int|
            0 <= i < r@.len() && (#[trigger] r@[i]).platform@ == p && r@[i].profile@ == q;
        assert(all[i] == (p, q));
    }
}

proof fn outside_means(g: BuildGraph, n: nat, x: Seq<char>)
    requires
        n <= g.targets.values@.len(),
    ensures
        outside_outputs(g, n).finite(),
        outside_outputs(g, n).contains(x) <==> exists|i: int|
            0 <= i < n && ((#[trigger] g.targets.values@[i]).kind == TargetKind::Genrule
                || g.targets.values@[i].kind == TargetKind::Command) && paths_at(
                g.paths(),
                g.targets.values@[i].outputs@,
            ).contains(x),
    decreases n,
{
    if n > 0 {
        outside_means(g, (n - 1) as nat, x);
        vstd::seq_lib::seq_to_set_is_finite(
            paths_at(g.paths(), g.targets.values@[n - 1].outputs@),
        );
    }
}

proof fn action_dirs_mean(g: BuildGraph, actions: Seq<usize>, n: nat, x: Seq<char>)
    requires
        n <= actions.len(),
    ensures
        action_dirs(g, actions, n).finite(),
        action_dirs(g, actions, n).contains(x) <==> exists|k: int|
            0 <= k < n && texts(g.actions@[#[trigger] actions[k] as int].clean_dirs@).contains(x),
    decreases n,
{
    if n > 0 {
        action_dirs_mean(g, actions, (n - 1) as nat, x);
        vstd::seq_lib::seq_to_set_is_finite(texts(g.actions@[actions[n - 1] as int].clean_dirs@));
    }
}

proof fn intermediate_means(g: BuildGraph, n: nat, x: Seq<char>)
    requires
        n <= g.targets.values@.len(),
    ensures
        intermediate_dirs(g, n).finite(),
        intermediate_dirs(g, n).contains(x) <==> exists|i: int, k: int|
            0 <= i < n && ((#[trigger] g.targets.values@[i]).kind == TargetKind::Genrule
                || g.targets.values@[i].kind == TargetKind::Command) && 0 <= k
                < g.targets.values@[i].actions@.len() && texts(
                g.actions@[#[trigger] g.targets.values@[i].actions@[k] as int].clean_dirs@,
            ).contains(x),
    decreases n,
{
    if n > 0 {
        let less = (n - 1) as nat;
        intermediate_means(g, less, x);
        let t = g.targets.values@[n - 1];
        action_dirs_mean(g, t.actions@, t.actions@.len(), x);
        if writes_anywhere(t.kind) && action_dirs(g, t.actions@, t.actions@.len()).contains(x) {
            let k = choose|k: int|
                0 <= k < t.actions@.len() && texts(
                    g.actions@[#[trigger] t.actions@[k] as int].clean_dirs@,
                ).contains(x);
            assert(texts(
                g.actions@[g.targets.values@[n - 1].actions@[k] as int].clean_dirs@,
            ).contains(x));
        }
    }
}

/// Of what genrules and commands leave, every output is removed, and every
/// intermediate directory of their actions; of other targets nothing is.
pub proof fn leavings_are_removed(g: BuildGraph, r: (Vec<String>, Vec<String>), x: Seq<char>)
    requires
        g.wf(),
        call_ensures(clean_files, (&g,), r),
    ensures
        texts(r.0@).contains(x) <==> exists|i: int|
            0 <= i < g.targets.values@.len() && ((#[trigger] g.targets.values@[i]).kind
                == TargetKind::Genrule || g.targets.values@[i].kind == TargetKind::Command)
                && paths_at(g.paths(), g.targets.values@[i].outputs@).contains(x),
        texts(r.1@).contains(x) <==> exists|i: int, k: int|
            0 <= i < g.targets.values@.len() && ((#[trigger] g.targets.values@[i]).kind
                == TargetKind::Genrule || g.targets.values@[i].kind == TargetKind::Command) && 0
                <= k < g.targets.values@[i].actions@.len() && texts(
                g.actions@[#[trigger] g.targets.values@[i].actions@[k] as int].clean_dirs@,
            ).contains(x),
{
    let n = g.targets.values@.len();
    outside_means(g, n, x);
    intermediate_means(g, n, x);
    in_order_means(outside_outputs(g, n));
    in_order_means(intermediate_dirs(g, n));
    assert(texts(r.0@).contains(x) <==> texts(r.0@).to_set().contains(x));
    assert(texts(r.1@).contains(x) <==> texts(r.1@).to_set().contains(x));
}

proof fn compiles_mean(g: BuildGraph, n: nat, a: int)
    requires
        n <= g.actions@.len(),
    ensures
        compiles_upto(g, n).contains(a) <==> 0 <= a < n && g.actions@[a].kind
            == ActionKind::Compile,
        compiles_upto(g, n).len() <= n,
    decreases n,
{
    if n > 0 {
        let less = (n - 1) as nat;
        compiles_mean(g, less, a);
        let before = compiles_upto(g, less);
        let now = compiles_upto(g, n);
        if before.contains(a) {
            assert(now[before.index_of(a)] == a);
        }
        if now.contains(a) {
            let k = now.index_of(a);
            if k < before.len() {
                assert(before[k] == a);
            }
        }
        if a == n - 1 && g.actions@[a].kind == ActionKind::Compile {
            assert(now[now.len() - 1] == a);
        }
    }
}

/// Every compilation of a graph has its entry in the compilation database: the
/// source, the whole command and the object; and every entry is of one.
pub proof fn every_compilation_is_listed(g: BuildGraph, r: Vec<CompdbEntry>, a: int) -> (k: int)
    requires
        g.wf(),
        call_ensures(compdb, (&g,), r),
        0 <= a < g.actions@.len(),
        g.actions@[a].kind == ActionKind::Compile,
        g.actions@[a].inputs@.len() > 0,
        g.actions@[a].outputs@.len() > 0,
    ensures
        0 <= k < r@.len(),
        r@[k].file@ == g.files@[g.actions@[a].inputs@[0] as int].path@,
        texts(r@[k].arguments@) == texts(g.actions@[a].argv@),
        r@[k].output is Some,
        r@[k].output->0@ == g.files@[g.actions@[a].outputs@[0] as int].path@,
        forall|j: int|
            0 <= j < r@.len() ==> exists|b: int|
                0 <= b < g.actions@.len() && (#[trigger] g.actions@[b]).kind == ActionKind::Compile
                    && texts((#[trigger] r@[j]).arguments@) == texts(g.actions@[b].argv@),
{
    let n = g.actions@.len();
    let all = compiles_upto(g, n);
    compiles_mean(g, n, a);
    let k = all.index_of(a);
    assert(compdb_entry(g, all[k], r@[k]));
    assert forall|j: int| 0 <= j < r@.len() implies exists|b: int|
        0 <= b < g.actions@.len() && (#[trigger] g.actions@[b]).kind == ActionKind::Compile && texts(
            (#[trigger] r@[j]).arguments@,
        ) == texts(g.actions@[b].argv@) by {
        let b = all[j];
        assert(all.contains(b));
        compiles_mean(g, n, b);
        assert(compdb_entry(g, all[j], r@[j]));
        assert(g.actions@[b].kind == ActionKind::Compile);
    }
    k
}

proof fn record_stands(
    g: BuildGraph,
    target: Seq<char>,
    ids: Seq<Seq<char>>,
    journal: Map<Seq<char>, EntryText>,
    n: nat,
    a: int,
)
    requires
        0 <= a < n <= g.actions@.len(),
        g.actions@[a].target@ == target,
        journal.contains_key(ids[a]),
    ensures
        record_lines_upto(g, target, ids, journal, n).contains(
            record_line(g.actions@[a].id@, journal[ids[a]]),
        ),
    decreases n,
{
    let less = (n - 1) as nat;
    let before = record_lines_upto(g, target, ids, journal, less);
    let now = record_lines_upto(g, target, ids, journal, n);
    let line = record_line(g.actions@[a].id@, journal[ids[a]]);
    if a < less {
        record_stands(g, target, ids, journal, less, a);
        assert(now[before.index_of(line)] == line);
    } else {
        assert(now[now.len() - 1] == line);
    }
}

/// Of every action of a target that was recorded, it is told why it ran and how
/// long it took.
pub proof fn every_record_is_told(
    g: BuildGraph,
    target: &str,
    profile: &str,
    ids: Vec<String>,
    journal: Journal,
    r: Vec<String>,
    a: int,
)
    requires
        ids@.len() == g.actions@.len(),
        journal.wf(),
        call_ensures(record_lines, (&g, target, profile, &ids, &journal), r),
        0 <= a < g.actions@.len(),
        g.actions@[a].target@ == target@,
        journal.actions.has(ids@[a]@),
    ensures
        texts(r@).contains(
            g.actions@[a].id@ + " :: "@ + journal.actions.at(ids@[a]@).reason@ + " ("@ + decimal(
                journal.actions.at(ids@[a]@).duration_ms as nat,
            ) + " ms)"@,
        ),
{
    let all = entry_map(journal.actions);
    assert(texts(ids@)[a] == ids@[a]@);
    assert(all.contains_key(ids@[a]@));
    record_stands(g, target@, texts(ids@), all, g.actions@.len(), a);
}

proof fn row_stands(m: Manifest, tests: bool, n: nat, i: int)
    requires
        0 <= i < n <= m.targets.values@.len(),
        !tests || m.targets.values@[i].kind == TargetKind::CcTest || m.targets.values@[i].kind
            == TargetKind::Test,
    ensures
        rows_upto(m, tests, n).contains(
            pick_row(
                m.targets.values@[i].name@,
                m.targets.values@[i].kind,
                texts(m.targets.values@[i].deps@),
            ),
        ),
    decreases n,
{
    let less = (n - 1) as nat;
    let before = rows_upto(m, tests, less);
    let now = rows_upto(m, tests, n);
    let t = m.targets.values@[i];
    let row = pick_row(t.name@, t.kind, texts(t.deps@));
    if i < less {
        row_stands(m, tests, less, i);
        assert(now[before.index_of(row)] == row);
    } else {
        assert(now[now.len() - 1] == row);
    }
}

/// Every target can be picked, or every test where tests are asked for; and no
/// more rows are shown.
pub proof fn every_target_can_be_picked(m: Manifest, tests: bool, r: Vec<String>, i: int) -> (tail:
    Seq<char>)
    requires
        call_ensures(pick_rows, (&m, tests), r),
        0 <= i < m.targets.values@.len(),
        !tests || m.targets.values@[i].kind == TargetKind::CcTest || m.targets.values@[i].kind
            == TargetKind::Test,
    ensures
        texts(r@).contains(m.targets.values@[i].name@ + "\t"@ + tail),
        r@.len() <= m.targets.values@.len(),
        !tests ==> r@.len() == m.targets.values@.len(),
{
    let t = m.targets.values@[i];
    let n = m.targets.values@.len();
    row_stands(m, tests, n, i);
    rows_count(m, tests, n);
    assert(texts(r@).len() == r@.len());
    let tail = t.kind.text() + "\t"@ + if t.deps@.len() == 0 {
        "-"@
    } else {
        joined(texts(t.deps@), ","@)
    };
    assert(texts(t.deps@).len() == t.deps@.len());
    assert(pick_row(t.name@, t.kind, texts(t.deps@)) =~= t.name@ + "\t"@ + tail);
    tail
}

proof fn rows_count(m: Manifest, tests: bool, n: nat)
    requires
        n <= m.targets.values@.len(),
    ensures
        rows_upto(m, tests, n).len() <= n,
        !tests ==> rows_upto(m, tests, n).len() == n,
    decreases n,
{
    if n > 0 {
        rows_count(m, tests, (n - 1) as nat);
    }
}

/// A build for all platforms is for this machine first, and then for each that is
/// declared.
pub proof fn every_platform_is_built(m: Manifest, r: Vec<String>)
    requires
        call_ensures(platforms_to_build, (&m,), r),
    ensures
        texts(r@).len() == m.platforms.names().len() + 1,
        texts(r@)[0] == "host"@,
        texts(r@).skip(1) == m.platforms.names(),
{
    assert(texts(r@).skip(1) =~= m.platforms.names());
}

/// A platform is reported as built exactly where its build ended with nought.
pub proof fn platforms_are_reported(results: Vec<PlatformResult>, r: Vec<String>, i: int)
    requires
        call_ensures(platform_lines, (&results,), r),
        0 <= i < results@.len(),
    ensures
        r@.len() == results@.len(),
        results@[i].code == 0 ==> r@[i]@.len() >= 2 && r@[i]@.skip(r@[i]@.len() - 2) == "ok"@,
        results@[i].code != 0 ==> r@[i]@.len() >= 6 && r@[i]@.skip(r@[i]@.len() - 6) == "failed"@,
{
    reveal_strlit("ok");
    reveal_strlit("failed");
    let line = r@[i]@;
    assert(line == platform_line(
        results@[i].platform@,
        results@[i].code,
        i + 1 == results@.len(),
    ));
    if results@[i].code == 0 {
        assert(line.skip(line.len() - 2) =~= "ok"@);
    } else {
        assert(line.skip(line.len() - 6) =~= "failed"@);
    }
}

/// Every target is listed with its kind and all that it depends on.
pub proof fn every_target_is_listed(graph: BuildGraph, r: Vec<String>, i: int)
    requires
        call_ensures(graph_lines, (&graph,), r),
        0 <= i < graph.targets.values@.len(),
    ensures
        r@.len() == graph.targets.values@.len(),
        graph.targets.values@[i].deps@.len() == 0 ==> r@[i]@ == graph.targets.values@[i].name@
            + " ["@ + graph.targets.values@[i].kind.text() + "]"@,
        graph.targets.values@[i].deps@.len() > 0 ==> r@[i]@ == graph.targets.values@[i].name@
            + " ["@ + graph.targets.values@[i].kind.text() + "]"@ + " <- "@ + joined(
            texts(graph.targets.values@[i].deps@),
            ", "@,
        ),
{
    reveal_strlit("");
    let t = graph.targets.values@[i];
    let line = r@[i]@;
    assert(texts(t.deps@).len() == t.deps@.len());
    assert(line == graph_line(t.name@, t.kind, texts(t.deps@)));
    let start = t.name@ + " ["@ + t.kind.text() + "]"@;
    if t.deps@.len() == 0 {
        assert(start + ""@ =~= start);
    } else {
        assert(line =~= start + " <- "@ + joined(texts(t.deps@), ", "@));
    }
}

proof fn picked_has(rows: Seq<Seq<char>>, n: nat, i: int)
    requires
        0 <= i < n <= rows.len(),
        pieces(rows[i], '\t')[0].len() > 0,
    ensures
        picked_upto(rows, n).contains(pieces(rows[i], '\t')[0]),
    decreases n,
{
    let less = (n - 1) as nat;
    let name = pieces(rows[i], '\t')[0];
    let before = picked_upto(rows, less);
    let now = picked_upto(rows, n);
    if i < less {
        picked_has(rows, less, i);
        assert(now[before.index_of(name)] == name);
    } else {
        assert(now.last() == name);
    }
}

/// Every line that was picked names its target: what stands before the first tab.
pub proof fn every_picked_line_counts(output: &str, r: Vec<String>, i: int)
    requires
        call_ensures(picked, (output,), r),
        0 <= i < lines_of(output@).len(),
        pieces(lines_of(output@)[i], '\t')[0].len() > 0,
    ensures
        texts(r@).contains(pieces(lines_of(output@)[i], '\t')[0]),
        r@.len() <= lines_of(output@).len(),
{
    let rows = lines_of(output@);
    picked_has(rows, rows.len(), i);
    picked_few(rows, rows.len());
    assert(texts(r@).len() == r@.len());
}

proof fn picked_few(rows: Seq<Seq<char>>, n: nat)
    ensures
        picked_upto(rows, n).len() <= n,
    decreases n,
{
    if n > 0 {
        picked_few(rows, (n - 1) as nat);
    }
}

} // verus!
