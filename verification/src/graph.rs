//! The build graph: files, the actions that read and write them, and targets.

use vstd::prelude::*;
use vstd::string::*;

pub use crate::rules::{ActionKind, BIN_DIR, LIB_DIR, OBJ_DIR, SHELL, SHELL_ARG};

use crate::manifest::{TargetKind, Toolchain};
use crate::rules::{Action, Fault};
use crate::sorted_map::{pairs, SortedMap, TextSet};
use crate::template::TemplateError;
use crate::text::{copy, debug_text, decimal, join, joined, number, quoted, same, texts};
use crate::toposort::ints;

verus! {

pub type FileId = usize;

pub type ActionId = usize;

/// A file that actions name, and the action that writes it.
#[derive(Debug)]
pub struct FileNode {
    pub path: String,
    pub producer: Option<ActionId>,
}

/// An action.
#[derive(Debug)]
pub struct ActionNode {
    /// Stable identifier, e.g. `compile:app:src/main.c`. It does not depend on
    /// hashes or ordering.
    pub id: String,
    /// Short human-readable description, e.g. `CC src/main.c (app)`.
    pub desc: String,
    pub kind: ActionKind,
    pub target: String,
    pub sandbox: bool,
    pub argv: Vec<String>,
    /// Further commands executed after `argv`.
    pub followup_argv: Vec<Vec<String>>,
    /// Intermediate directories removed and recreated before each execution.
    pub clean_dirs: Vec<String>,
    /// Keep earlier outputs while an incremental command reruns.
    pub preserve_outputs: bool,
    pub env: SortedMap<String>,
    /// Names of the host's environment that the action sees.
    pub pass_env: Vec<String>,
    pub inputs: Vec<FileId>,
    /// Files that must be there first, but that the action is not made from.
    pub order_only_inputs: Vec<FileId>,
    pub outputs: Vec<FileId>,
    /// The dependency file that the action writes.
    pub depfile: Option<String>,
}

/// A target, with its actions and what those that depend on it take from it.
#[derive(Debug)]
pub struct TargetNode {
    pub name: String,
    pub kind: TargetKind,
    pub deps: Vec<String>,
    pub actions: Vec<ActionId>,
    pub outputs: Vec<FileId>,
}

/// The build graph of a workspace for one profile and platform.
#[derive(Debug)]
pub struct BuildGraph {
    pub files: Vec<FileNode>,
    pub actions: Vec<ActionNode>,
    pub targets: SortedMap<TargetNode>,
    pub profile: String,
    /// The platform this graph was configured for; `host` has output paths
    /// without a platform.
    pub platform: String,
    /// The toolchain of the platform.
    pub toolchain: Toolchain,
    /// The targets that are built without being asked for.
    pub default_targets: Vec<String>,
}

/// The paths of files.
pub open spec fn file_paths(files: Seq<FileNode>) -> Seq<Seq<char>> {
    Seq::new(files.len(), |i: int| files[i].path@)
}

/// The paths of the files with the given numbers.
pub open spec fn paths_at(paths: Seq<Seq<char>>, ids: Seq<usize>) -> Seq<Seq<char>> {
    Seq::new(ids.len(), |k: int| paths[ids[k] as int])
}

/// All numbers are numbers of files.
pub open spec fn ids_ok(n: nat, ids: Seq<usize>) -> bool {
    forall|k: int| 0 <= k < ids.len() ==> #[trigger] ids[k] < n
}

/// An action with its files named by their paths.
pub open spec fn action_model(paths: Seq<Seq<char>>, a: ActionNode) -> Action {
    Action {
        id: a.id@,
        desc: a.desc@,
        kind: a.kind,
        target: a.target@,
        sandbox: a.sandbox,
        argv: texts(a.argv@),
        followup_argv: Seq::new(a.followup_argv@.len(), |k: int| texts(a.followup_argv@[k]@)),
        clean_dirs: texts(a.clean_dirs@),
        preserve_outputs: a.preserve_outputs,
        env: pairs(a.env),
        pass_env: texts(a.pass_env@),
        inputs: paths_at(paths, a.inputs@),
        order_only_inputs: paths_at(paths, a.order_only_inputs@),
        outputs: paths_at(paths, a.outputs@),
        depfile: match a.depfile {
            Some(path) => Some(path@),
            None => None,
        },
    }
}

/// All actions with their files named by their paths.
pub open spec fn action_models(paths: Seq<Seq<char>>, actions: Seq<ActionNode>) -> Seq<Action> {
    Seq::new(actions.len(), |a: int| action_model(paths, actions[a]))
}

/// The files of an action are files of the graph, and it writes each of its
/// outputs once.
pub open spec fn action_ok(n: nat, a: ActionNode) -> bool {
    &&& action_files_ok(n, a)
    &&& a.outputs@.no_duplicates()
}

/// An action names files of a graph with `n` of them.
pub open spec fn action_files_ok(n: nat, a: ActionNode) -> bool {
    &&& ids_ok(n, a.inputs@)
    &&& ids_ok(n, a.order_only_inputs@)
    &&& ids_ok(n, a.outputs@)
}

/// Files have different paths, actions name files of the graph, and each file
/// knows the one action that writes it.
pub open spec fn nodes_wf(files: Seq<FileNode>, actions: Seq<ActionNode>) -> bool {
    &&& file_paths(files).no_duplicates()
    &&& forall|a: int| 0 <= a < actions.len() ==> action_ok(files.len(), #[trigger] actions[a])
    &&& forall|f: int, a: int| #![trigger files[f], actions[a]]
        0 <= f < files.len() && 0 <= a < actions.len() ==> (made_by(files[f]) == a <==> ints(
            actions[a].outputs@,
        ).contains(f))
    &&& forall|f: int| 0 <= f < files.len() ==> made_by(#[trigger] files[f]) < actions.len()
}

/// The action that writes a file; -1 where none does.
pub open spec fn made_by(file: FileNode) -> int {
    match file.producer {
        Some(a) => a as int,
        None => -1,
    }
}

impl BuildGraph {
    /// The graph is consistent: its nodes are, and targets name actions and
    /// files of the graph, stand under their names, and depend on targets.
    pub open spec fn wf(self) -> bool {
        &&& nodes_wf(self.files@, self.actions@)
        &&& self.targets.wf()
        &&& forall|i: int| #![trigger self.targets.values@[i]]
            0 <= i < self.targets.values@.len() ==> self.target_ok(i)
    }

    /// The target at `i` is consistent.
    pub open spec fn target_ok(self, i: int) -> bool {
        let t = self.targets.values@[i];
        &&& t.name@ == self.targets.keys@[i]@
        &&& ids_ok(self.actions@.len(), t.actions@)
        &&& ids_ok(self.files@.len(), t.outputs@)
        &&& forall|j: int| 0 <= j < t.deps@.len() ==> self.targets.has((#[trigger] t.deps@[j])@)
    }

    /// The paths of the files.
    pub open spec fn paths(self) -> Seq<Seq<char>> {
        file_paths(self.files@)
    }
}

/// Why a workspace has no build graph.
#[derive(Debug)]
pub enum GraphError {
    InvalidProfile { profile: String },
    UnknownProfile { profile: String, hint: Option<String>, known: Vec<String> },
    UnknownPlatform { platform: String, hint: Option<String>, known: Vec<String> },
    Cycle { names: Vec<String> },
    Template { error: TemplateError },
    TestTool { target: String, tool: String, configured: Vec<String> },
    CommandTool { target: String, tool: String, configured: Vec<String> },
    StepTool { target: String, tool: String },
    NoKofunc { target: String },
    KofunSources { target: String, count: usize },
    ProducedByBoth { path: String, first: String, second: String },
    Overlap { dir: String, action: String, other_dir: String, other: String },
    Holds { dir: String, action: String, path: String },
}

/// An optional text.
pub open spec fn opt_text(s: Option<String>) -> Option<Seq<char>> {
    match s {
        Some(s) => Some(s@),
        None => None,
    }
}

impl View for GraphError {
    type V = Fault;

    open spec fn view(&self) -> Fault {
        match *self {
            GraphError::InvalidProfile { profile } => Fault::InvalidProfile(profile@),
            GraphError::UnknownProfile { profile, hint, known } => Fault::UnknownProfile {
                profile: profile@,
                hint: opt_text(hint),
                known: texts(known@),
            },
            GraphError::UnknownPlatform { platform, hint, known } => Fault::UnknownPlatform {
                platform: platform@,
                hint: opt_text(hint),
                known: texts(known@),
            },
            GraphError::Cycle { names } => Fault::Cycle(texts(names@)),
            GraphError::Template { error } => Fault::Template(error.fault, error.text@),
            GraphError::TestTool { target, tool, configured } => Fault::TestTool {
                target: target@,
                tool: tool@,
                configured: texts(configured@),
            },
            GraphError::CommandTool { target, tool, configured } => Fault::CommandTool {
                target: target@,
                tool: tool@,
                configured: texts(configured@),
            },
            GraphError::StepTool { target, tool } => Fault::StepTool {
                target: target@,
                tool: tool@,
            },
            GraphError::NoKofunc { target } => Fault::NoKofunc(target@),
            GraphError::KofunSources { target, count } => Fault::KofunSources {
                target: target@,
                count: count as nat,
            },
            GraphError::ProducedByBoth { path, first, second } => Fault::ProducedByBoth {
                path: path@,
                first: first@,
                second: second@,
            },
            GraphError::Overlap { dir, action, other_dir, other } => Fault::Overlap {
                dir: dir@,
                action: action@,
                other_dir: other_dir@,
                other: other@,
            },
            GraphError::Holds { dir, action, path } => Fault::Holds {
                dir: dir@,
                action: action@,
                path: path@,
            },
        }
    }
}

/// The tools that a platform has, in parentheses; nothing where it has none.
pub open spec fn tool_list(configured: Seq<Seq<char>>) -> Seq<char> {
    if configured.len() == 0 {
        ""@
    } else {
        " (configured: "@ + joined(configured, ", "@) + ")"@
    }
}

fn list_tools(configured: &Vec<String>) -> (r: String)
    ensures
        r@ == tool_list(texts(configured@)),
{
    if configured.len() == 0 {
        return copy("");
    }
    let mut out = copy(" (configured: ");
    out.append(&join(configured, ", "));
    out.append(")");
    out
}

/// The text that reports a fault; of a template fault only where it is.
pub open spec fn fault_text(e: GraphError) -> Seq<char> {
    match e {
        GraphError::InvalidProfile { profile } => "invalid profile name "@ + debug_text(profile@),
        GraphError::UnknownProfile { profile, hint, known } => match hint {
            Some(hint) => "unknown profile "@ + debug_text(profile@) + ". did you mean "@
                + debug_text(hint@) + "?"@,
            None => "unknown profile "@ + debug_text(profile@) + ". declared profiles: "@ + joined(
                texts(known@),
                ", "@,
            ) + " (add an empty [profile."@ + profile@ + "] section for a bare tree)"@,
        },
        GraphError::UnknownPlatform { platform, hint, known } => match hint {
            Some(hint) => "unknown platform "@ + debug_text(platform@) + ". did you mean "@
                + debug_text(hint@) + "?"@,
            None => if known@.len() == 0 {
                "unknown platform "@ + debug_text(platform@)
                    + ". this workspace declares no [platform.*] sections"@
            } else {
                "unknown platform "@ + debug_text(platform@) + ". declared platforms: "@ + joined(
                    texts(known@),
                    ", "@,
                )
            },
        },
        GraphError::Cycle { names } => "dependency cycle: "@ + joined(texts(names@), " -> "@),
        GraphError::Template { error } => error.report(),
        GraphError::TestTool { target, tool, configured } => "test "@ + debug_text(target@)
            + " uses tool "@ + debug_text(tool@)
            + ", but the active platform does not configure [toolchain.tools]."@ + tool@
            + tool_list(texts(configured@)),
        GraphError::CommandTool { target, tool, configured } => "target "@ + debug_text(target@)
            + " uses tool "@ + debug_text(tool@)
            + ", but the active platform does not configure [toolchain.tools]."@ + tool@
            + tool_list(texts(configured@)),
        GraphError::StepTool { target, tool } => "target "@ + debug_text(target@)
            + " uses step tool "@ + debug_text(tool@)
            + ", but the active platform does not configure [toolchain.tools]."@ + tool@,
        GraphError::NoKofunc { target } => "target "@ + debug_text(target@)
            + " is a kofun_binary but [toolchain] does not configure kofunc"@,
        GraphError::KofunSources { target, count } => "target "@ + debug_text(target@)
            + " is a kofun_binary with "@ + decimal(count as nat)
            + " expanded sources; exactly one is required"@,
        GraphError::ProducedByBoth { path, first, second } => "output "@ + debug_text(path@)
            + " is produced by both "@ + debug_text(first@) + " and "@ + debug_text(second@),
        GraphError::Overlap { dir, action, other_dir, other } => "clean directory "@ + debug_text(
            dir@,
        ) + " for action "@ + debug_text(action@) + " overlaps "@ + debug_text(other_dir@)
            + " owned by action "@ + debug_text(other@),
        GraphError::Holds { dir, action, path } => "clean directory "@ + debug_text(dir@)
            + " for action "@ + debug_text(action@) + " contains declared graph path "@ + debug_text(
            path@,
        ) + "; clean_dirs may contain only undeclared intermediates"@,
    }
}

impl GraphError {
    /// Reports the fault.
    pub fn message(&self) -> (r: String)
        ensures
            r@ == fault_text(*self),
    {
        match self {
            GraphError::InvalidProfile { profile } => {
                let mut out = copy("invalid profile name ");
                out.append(&quoted(profile));
                out
            },
            GraphError::UnknownProfile { profile, hint, known } => {
                let mut out = copy("unknown profile ");
                out.append(&quoted(profile));
                match hint {
                    Some(hint) => {
                        out.append(". did you mean ");
                        out.append(&quoted(hint));
                        out.append("?");
                    },
                    None => {
                        out.append(". declared profiles: ");
                        out.append(&join(known, ", "));
                        out.append(" (add an empty [profile.");
                        out.append(profile);
                        out.append("] section for a bare tree)");
                    },
                }
                out
            },
            GraphError::UnknownPlatform { platform, hint, known } => {
                let mut out = copy("unknown platform ");
                out.append(&quoted(platform));
                match hint {
                    Some(hint) => {
                        out.append(". did you mean ");
                        out.append(&quoted(hint));
                        out.append("?");
                    },
                    None => {
                        if known.len() == 0 {
                            out.append(". this workspace declares no [platform.*] sections");
                        } else {
                            out.append(". declared platforms: ");
                            out.append(&join(known, ", "));
                        }
                    },
                }
                out
            },
            GraphError::Cycle { names } => {
                let mut out = copy("dependency cycle: ");
                out.append(&join(names, " -> "));
                out
            },
            GraphError::Template { error } => error.message(),
            GraphError::TestTool { target, tool, configured } => {
                let mut out = copy("test ");
                out.append(&quoted(target));
                out.append(" uses tool ");
                out.append(&quoted(tool));
                out.append(", but the active platform does not configure [toolchain.tools].");
                out.append(tool);
                out.append(&list_tools(configured));
                out
            },
            GraphError::CommandTool { target, tool, configured } => {
                let mut out = copy("target ");
                out.append(&quoted(target));
                out.append(" uses tool ");
                out.append(&quoted(tool));
                out.append(", but the active platform does not configure [toolchain.tools].");
                out.append(tool);
                out.append(&list_tools(configured));
                out
            },
            GraphError::StepTool { target, tool } => {
                let mut out = copy("target ");
                out.append(&quoted(target));
                out.append(" uses step tool ");
                out.append(&quoted(tool));
                out.append(", but the active platform does not configure [toolchain.tools].");
                out.append(tool);
                out
            },
            GraphError::NoKofunc { target } => {
                let mut out = copy("target ");
                out.append(&quoted(target));
                out.append(" is a kofun_binary but [toolchain] does not configure kofunc");
                out
            },
            GraphError::KofunSources { target, count } => {
                let mut out = copy("target ");
                out.append(&quoted(target));
                out.append(" is a kofun_binary with ");
                out.append(&number(*count as u128));
                out.append(" expanded sources; exactly one is required");
                out
            },
            GraphError::ProducedByBoth { path, first, second } => {
                let mut out = copy("output ");
                out.append(&quoted(path));
                out.append(" is produced by both ");
                out.append(&quoted(first));
                out.append(" and ");
                out.append(&quoted(second));
                out
            },
            GraphError::Overlap { dir, action, other_dir, other } => {
                let mut out = copy("clean directory ");
                out.append(&quoted(dir));
                out.append(" for action ");
                out.append(&quoted(action));
                out.append(" overlaps ");
                out.append(&quoted(other_dir));
                out.append(" owned by action ");
                out.append(&quoted(other));
                out
            },
            GraphError::Holds { dir, action, path } => {
                let mut out = copy("clean directory ");
                out.append(&quoted(dir));
                out.append(" for action ");
                out.append(&quoted(action));
                out.append(" contains declared graph path ");
                out.append(&quoted(path));
                out.append("; clean_dirs may contain only undeclared intermediates");
                out
            },
        }
    }
}

// ---------------------------------------------------------------------------
// Graphs from outside
// ---------------------------------------------------------------------------

/// Whether all numbers are below `n`.
fn ids_below(n: usize, ids: &Vec<usize>) -> (r: bool)
    ensures
        r == ids_ok(n as nat, ids@),
{
    let mut k: usize = 0;
    while k < ids.len()
        invariant
            k <= ids@.len(),
            ids_ok(n as nat, ids@.take(k as int)),
        decreases ids@.len() - k,
    {
        if ids[k] >= n {
            assert(ids@[k as int] >= n);
            return false;
        }
        assert forall|i: int| 0 <= i < k + 1 implies #[trigger] ids@.take(k + 1)[i] < n by {
            if i < k {
                assert(ids@.take(k as int)[i] < n);
            }
        }
        k += 1;
    }
    assert(ids@.take(k as int) =~= ids@);
    true
}

/// Whether a number occurs.
fn has_id(ids: &Vec<usize>, id: usize) -> (r: bool)
    ensures
        r == ints(ids@).contains(id as int),
{
    let mut k: usize = 0;
    while k < ids.len()
        invariant
            k <= ids@.len(),
            forall|i: int| 0 <= i < k ==> #[trigger] ids@[i] != id,
        decreases ids@.len() - k,
    {
        if ids[k] == id {
            assert(ints(ids@)[k as int] == id);
            return true;
        }
        k += 1;
    }
    proof {
        if ints(ids@).contains(id as int) {
            let i = ints(ids@).index_of(id as int);
            assert(ids@[i] == id);
        }
    }
    false
}

/// Whether no number occurs twice.
fn ids_differ(ids: &Vec<usize>) -> (r: bool)
    ensures
        r == ids@.no_duplicates(),
{
    let mut k: usize = 0;
    while k < ids.len()
        invariant
            k <= ids@.len(),
            forall|i: int, j: int| 0 <= i < j < k ==> ids@[i] != ids@[j],
        decreases ids@.len() - k,
    {
        let mut i: usize = 0;
        while i < k
            invariant
                i <= k < ids@.len(),
                forall|m: int| 0 <= m < i ==> ids@[m] != ids@[k as int],
            decreases k - i,
        {
            if ids[i] == ids[k] {
                assert(ids@[i as int] == ids@[k as int]);
                return false;
            }
            i += 1;
        }
        k += 1;
    }
    true
}

/// Whether the files have different paths.
fn paths_differ(files: &Vec<FileNode>) -> (r: bool)
    ensures
        r == file_paths(files@).no_duplicates(),
{
    let ghost paths = file_paths(files@);
    let mut seen = TextSet::new();
    let mut i: usize = 0;
    while i < files.len()
        invariant
            paths == file_paths(files@),
            i <= files@.len(),
            seen.wf(),
            forall|s: Seq<char>| #[trigger]
                seen@.contains(s) <==> exists|k: int| 0 <= k < i && paths[k] == s,
            forall|a: int, b: int| 0 <= a < b < i ==> paths[a] != paths[b],
        decreases files@.len() - i,
    {
        assert(paths[i as int] == files@[i as int].path@);
        let ghost before = seen@;
        if !seen.insert(copy(&files[i].path)) {
            assert(before.contains(paths[i as int]));
            let ghost k = choose|k: int| 0 <= k < i && paths[k] == paths[i as int];
            assert(paths[k] == paths[i as int]);
            return false;
        }
        proof {
            assert forall|s: Seq<char>| #[trigger] seen@.contains(s) <==> exists|k: int|
                0 <= k < i + 1 && paths[k] == s by {
                if seen@.contains(s) {
                    if s == paths[i as int] {
                        assert(paths[i as int] == s);
                    } else {
                        assert(before.contains(s));
                        let k = choose|k: int| 0 <= k < i && paths[k] == s;
                        assert(paths[k] == s);
                    }
                }
                if exists|k: int| 0 <= k < i + 1 && paths[k] == s {
                    let k = choose|k: int| 0 <= k < i + 1 && paths[k] == s;
                    if k < i {
                        assert(before.contains(s));
                    }
                }
            }
            assert forall|a: int, b: int| 0 <= a < b < i + 1 implies paths[a] != paths[b] by {
                if b == i && paths[a] == paths[b] {
                    assert(before.contains(paths[b]));
                }
            }
        }
        i += 1;
    }
    true
}

/// Whether the files of an action are files of the graph, each output once and
/// written by the action.
fn action_holds(files: &Vec<FileNode>, action: &ActionNode, a: usize) -> (r: bool)
    ensures
        r == (action_ok(files@.len(), *action) && forall|k: int|
            0 <= k < action.outputs@.len() ==> made_by(
                files@[#[trigger] action.outputs@[k] as int],
            ) == a),
{
    if !(ids_below(files.len(), &action.inputs) && ids_below(
        files.len(),
        &action.order_only_inputs,
    ) && ids_below(files.len(), &action.outputs) && ids_differ(&action.outputs)) {
        return false;
    }
    let mut k: usize = 0;
    while k < action.outputs.len()
        invariant
            k <= action.outputs@.len(),
            ids_ok(files@.len(), action.outputs@),
            forall|i: int|
                0 <= i < k ==> made_by(files@[#[trigger] action.outputs@[i] as int]) == a,
        decreases action.outputs@.len() - k,
    {
        let f: usize = action.outputs[k];
        assert(action.outputs@[k as int] < files@.len());
        let held = match files[f].producer {
            Some(p) => p == a,
            None => false,
        };
        if !held {
            assert(made_by(files@[action.outputs@[k as int] as int]) != a);
            return false;
        }
        k += 1;
    }
    true
}

/// Whether the action that a file names writes it.
fn producer_holds(file: &FileNode, f: usize, actions: &Vec<ActionNode>) -> (r: bool)
    ensures
        r == match file.producer {
            Some(a) => a < actions@.len() && ints(actions@[a as int].outputs@).contains(f as int),
            None => true,
        },
{
    match file.producer {
        Some(a) => a < actions.len() && has_id(&actions[a].outputs, f),
        None => true,
    }
}

impl BuildGraph {
    /// Whether the target at `i` is consistent.
    fn target_holds(&self, i: usize) -> (r: bool)
        requires
            self.targets.wf(),
            i < self.targets.values@.len(),
        ensures
            r == self.target_ok(i as int),
    {
        let t = &self.targets.values[i];
        if !(same(&t.name, &self.targets.keys[i]) && ids_below(self.actions.len(), &t.actions)
            && ids_below(self.files.len(), &t.outputs)) {
            return false;
        }
        let mut j: usize = 0;
        while j < t.deps.len()
            invariant
                self.targets.wf(),
                t == self.targets.values@[i as int],
                j <= t.deps@.len(),
                forall|k: int| 0 <= k < j ==> self.targets.has((#[trigger] t.deps@[k])@),
            decreases t.deps@.len() - j,
        {
            if !self.targets.contains_key(&t.deps[j]) {
                assert(!self.targets.has(t.deps@[j as int]@));
                return false;
            }
            j += 1;
        }
        true
    }

    /// Whether the graph is consistent. A graph that was read from a file is
    /// looked at before it is used.
    pub fn is_consistent(&self) -> (r: bool)
        requires
            self.targets.wf(),
        ensures
            r == self.wf(),
    {
        if !paths_differ(&self.files) {
            return false;
        }
        let mut a: usize = 0;
        while a < self.actions.len()
            invariant
                a <= self.actions@.len(),
                forall|b: int|
                    0 <= b < a ==> action_ok(self.files@.len(), #[trigger] self.actions@[b])
                        && forall|k: int|
                        0 <= k < self.actions@[b].outputs@.len() ==> made_by(
                            self.files@[#[trigger] self.actions@[b].outputs@[k] as int],
                        ) == b,
            decreases self.actions@.len() - a,
        {
            if !action_holds(&self.files, &self.actions[a], a) {
                proof {
                    if self.wf() {
                        let action = self.actions@[a as int];
                        assert forall|k: int| 0 <= k < action.outputs@.len() implies made_by(
                            self.files@[#[trigger] action.outputs@[k] as int],
                        ) == a by {
                            let f = action.outputs@[k] as int;
                            assert(ints(action.outputs@)[k] == f);
                            assert(made_by(self.files@[f]) == a);
                        }
                    }
                }
                return false;
            }
            a += 1;
        }
        let mut f: usize = 0;
        while f < self.files.len()
            invariant
                f <= self.files@.len(),
                forall|g: int|
                    0 <= g < f ==> match (#[trigger] self.files@[g]).producer {
                        Some(b) => b < self.actions@.len() && ints(
                            self.actions@[b as int].outputs@,
                        ).contains(g),
                        None => true,
                    },
            decreases self.files@.len() - f,
        {
            if !producer_holds(&self.files[f], f, &self.actions) {
                proof {
                    if self.wf() {
                        let b = self.files@[f as int].producer->0;
                        assert(made_by(self.files@[f as int]) < self.actions@.len());
                        assert(self.actions@[b as int].outputs@.len() >= 0);
                    }
                }
                return false;
            }
            f += 1;
        }
        assert(nodes_wf(self.files@, self.actions@)) by {
            assert forall|f: int, a: int| #![trigger self.files@[f], self.actions@[a]]
                0 <= f < self.files@.len() && 0 <= a < self.actions@.len() implies (made_by(
                self.files@[f],
            ) == a <==> ints(self.actions@[a].outputs@).contains(f)) by {
                if ints(self.actions@[a].outputs@).contains(f) {
                    let k = ints(self.actions@[a].outputs@).index_of(f);
                    assert(self.actions@[a].outputs@[k] == f);
                }
            }
        }
        let mut i: usize = 0;
        while i < self.targets.values.len()
            invariant
                self.targets.wf(),
                i <= self.targets.values@.len(),
                forall|k: int| #![trigger self.targets.values@[k]]
                    0 <= k < i ==> self.target_ok(k),
            decreases self.targets.values@.len() - i,
        {
            if !self.target_holds(i) {
                assert(self.targets.values@[i as int] == self.targets.values@[i as int]);
                return false;
            }
            i += 1;
        }
        true
    }
}

} // verus!
