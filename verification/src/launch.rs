//! Running, debugging and describing what was built.

use vstd::prelude::*;
use vstd::string::*;

use crate::graph::{ids_ok, ActionNode, BuildGraph};
use crate::manifest::HOST_PLATFORM;
use crate::paths::{
    absolute, components, components_of, extension, extension_of, file_name, file_name_of,
    is_absolute, join_path, joined_path,
};
use crate::query::UnknownTarget;
use crate::rules::ActionKind;
use crate::text::{
    begins, contains, copy, debug_text, extend, join, joined, lower, lowercase, occurs, quoted,
    same, starts_with, texts,
};

verus! {

/// The action at `k` among those of a target is the first of them that links.
pub open spec fn first_link(g: BuildGraph, target: Seq<char>, k: int) -> bool {
    let own = g.targets.at(target).actions@;
    &&& 0 <= k < own.len()
    &&& g.actions@[own[k] as int].kind == ActionKind::Link
    &&& none_links(g, target, k)
}

/// None of the first `n` actions of a target links.
pub open spec fn none_links(g: BuildGraph, target: Seq<char>, n: int) -> bool {
    forall|j: int|
        0 <= j < n ==> g.actions@[#[trigger] g.targets.at(target).actions@[j] as int].kind
            != ActionKind::Link
}

/// Why a target has nothing to run.
#[derive(Debug)]
pub enum RunError {
    Unknown { error: UnknownTarget },
    NoOutput,
}

/// `file` is what is run for a target: what the first link of its own writes,
/// or else its first output.
pub open spec fn runs(g: BuildGraph, target: Seq<char>, file: int) -> bool {
    let node = g.targets.at(target);
    ||| exists|k: int| #[trigger]
        first_link(g, target, k) && g.actions@[node.actions@[k] as int].outputs@.len() > 0 && file
            == g.actions@[node.actions@[k] as int].outputs@[0]
    ||| (unlinked(g, target) && node.outputs@.len() > 0 && file == node.outputs@[0])
}

/// No link of the target's own says what is run.
pub open spec fn unlinked(g: BuildGraph, target: Seq<char>) -> bool {
    let node = g.targets.at(target);
    none_links(g, target, node.actions@.len() as int) || exists|k: int| #[trigger]
        first_link(g, target, k) && g.actions@[node.actions@[k] as int].outputs@.len() == 0
}

/// The path of what is run for a target.
pub fn target_runtime_output(graph: &BuildGraph, target: &str) -> (r: Result<String, RunError>)
    requires
        graph.wf(),
    ensures
        match r {
            Ok(path) => graph.targets.has(target@) && exists|file: int| #[trigger]
                runs(*graph, target@, file) && 0 <= file < graph.files@.len() && path@
                    == graph.files@[file].path@,
            Err(RunError::Unknown { error }) => !graph.targets.has(target@) && error.name@
                == target@,
            Err(RunError::NoOutput) => graph.targets.has(target@) && unlinked(*graph, target@)
                && graph.targets.at(target@).outputs@.len() == 0,
        },
{
    let at = match graph.targets.find(target) {
        Some(at) => at,
        None => {
            return Err(RunError::Unknown { error: UnknownTarget { name: copy(target) } });
        },
    };
    assert(graph.target_ok(at as int));
    let own = &graph.targets.values[at].actions;
    assert(own@ == graph.targets.at(target@).actions@);
    let mut i: usize = 0;
    while i < own.len()
        invariant
            graph.wf(),
            graph.targets.has(target@),
            own@ == graph.targets.at(target@).actions@,
            ids_ok(graph.actions@.len(), own@),
            i <= own@.len(),
            none_links(*graph, target@, i as int),
        decreases own@.len() - i,
    {
        assert(own@[i as int] < graph.actions@.len());
        let a: usize = own[i];
        let action = &graph.actions[a];
        if action.kind == ActionKind::Link {
            assert(first_link(*graph, target@, i as int));
            if action.outputs.len() > 0 {
                let out: usize = action.outputs[0];
                assert(crate::graph::action_ok(graph.files@.len(), graph.actions@[a as int]));
                assert(graph.actions@[a as int].outputs@[0] < graph.files@.len());
                assert(runs(*graph, target@, out as int));
                return Ok(copy(&graph.files[out].path));
            }
            return own_output(graph, target);
        }
        i += 1;
    }
    own_output(graph, target)
}

/// The path of the first output of a target itself.
fn own_output(graph: &BuildGraph, target: &str) -> (r: Result<String, RunError>)
    requires
        graph.wf(),
        graph.targets.has(target@),
        unlinked(*graph, target@),
    ensures
        match r {
            Ok(path) => exists|file: int| #[trigger]
                runs(*graph, target@, file) && 0 <= file < graph.files@.len() && path@
                    == graph.files@[file].path@,
            Err(RunError::Unknown { error }) => false,
            Err(RunError::NoOutput) => graph.targets.at(target@).outputs@.len() == 0,
        },
{
    if let Some(at) = graph.targets.find(target) {
        assert(graph.target_ok(at as int));
        let node = &graph.targets.values[at];
        if node.outputs.len() > 0 {
            let out: usize = node.outputs[0];
            assert(graph.targets.values@[at as int].outputs@[0] < graph.files@.len());
            assert(runs(*graph, target@, out as int));
            return Ok(copy(&graph.files[out].path));
        }
    }
    Err(RunError::NoOutput)
}

// ---------------------------------------------------------------------------
// Runtimes
// ---------------------------------------------------------------------------

/// What an artifact is run with.
#[derive(Debug, Clone, Copy, PartialEq, Eq, Structural)]
pub enum Language {
    Java,
    JavaScript,
    Python,
    Wheel,
    Native,
}

/// The lower-case extension of a path; empty where it has none.
pub open spec fn kind_text(path: Seq<char>) -> Seq<char> {
    match extension(path) {
        Some(ext) => lower(ext),
        None => Seq::empty(),
    }
}

/// The language of an artifact, by its extension.
pub open spec fn language(path: Seq<char>) -> Language {
    let ext = kind_text(path);
    if ext == "jar"@ {
        Language::Java
    } else if ext == "js"@ || ext == "mjs"@ || ext == "cjs"@ {
        Language::JavaScript
    } else if ext == "py"@ || ext == "pyw"@ {
        Language::Python
    } else if ext == "whl"@ {
        Language::Wheel
    } else {
        Language::Native
    }
}

/// The language of an artifact, by its extension.
pub fn language_of(path: &str) -> (r: Language)
    ensures
        r == language(path@),
{
    let ext = match extension_of(path) {
        Some(ext) => lowercase(&ext),
        None => String::new(),
    };
    if same(&ext, "jar") {
        Language::Java
    } else if same(&ext, "js") || same(&ext, "mjs") || same(&ext, "cjs") {
        Language::JavaScript
    } else if same(&ext, "py") || same(&ext, "pyw") {
        Language::Python
    } else if same(&ext, "whl") {
        Language::Wheel
    } else {
        Language::Native
    }
}

/// Where to look for the runtime or debugger of a language: the environment
/// variable that names it, and the programs to look for on the path.
#[derive(Debug)]
pub struct Lookup {
    pub variable: &'static str,
    pub candidates: Vec<String>,
}

fn lookup(variable: &'static str, first: &str, second: &str) -> (r: Lookup)
    ensures
        r.variable@ == variable@,
        texts(r.candidates@) == (if second@.len() == 0 {
            seq![first@]
        } else {
            seq![first@, second@]
        }),
{
    let mut candidates: Vec<String> = Vec::new();
    candidates.push(copy(first));
    if !second.is_empty() {
        candidates.push(copy(second));
        assert(texts(candidates@) =~= seq![first@, second@]);
    } else {
        assert(texts(candidates@) =~= seq![first@]);
    }
    Lookup { variable, candidates }
}

/// Where to look for the runtime of a language; none for what runs by itself
/// or not at all.
pub fn runtime_lookup(language: Language) -> (r: Option<Lookup>)
    ensures
        match language {
            Language::Java => found_by(r, "JAVA_BIN"@, seq!["java"@]),
            Language::JavaScript => found_by(r, "NODE_BIN"@, seq!["node"@]),
            Language::Python => found_by(r, "PYTHON_BIN"@, seq!["python3"@, "python"@]),
            _ => r is None,
        },
{
    proof {
        reveal_strlit("");
        reveal_strlit("python");
    }
    match language {
        Language::Java => Some(lookup("JAVA_BIN", "java", "")),
        Language::JavaScript => Some(lookup("NODE_BIN", "node", "")),
        Language::Python => Some(lookup("PYTHON_BIN", "python3", "python")),
        _ => None,
    }
}

/// Where to look for the debugger of a language; none for native programs,
/// which have debuggers of their own.
pub fn debugger_lookup(language: Language) -> (r: Option<Lookup>)
    ensures
        match language {
            Language::Java => found_by(r, "JDB_BIN"@, seq!["jdb"@]),
            Language::JavaScript => found_by(r, "NODE_BIN"@, seq!["node"@]),
            Language::Python => found_by(r, "PYTHON_BIN"@, seq!["python3"@, "python"@]),
            _ => r is None,
        },
{
    proof {
        reveal_strlit("");
        reveal_strlit("python");
    }
    match language {
        Language::Java => Some(lookup("JDB_BIN", "jdb", "")),
        Language::JavaScript => Some(lookup("NODE_BIN", "node", "")),
        Language::Python => Some(lookup("PYTHON_BIN", "python3", "python")),
        _ => None,
    }
}

/// A program is looked for in these places.
pub open spec fn found_by(r: Option<Lookup>, variable: Seq<char>, candidates: Seq<Seq<char>>) -> bool {
    match r {
        Some(l) => l.variable@ == variable && texts(l.candidates@) == candidates,
        None => false,
    }
}

/// The command that runs an artifact: with an explicit runner, with the
/// runtime of its language, or by itself. A wheel cannot be run.
pub open spec fn run_argv(
    runner: Option<Seq<char>>,
    program: Seq<char>,
    output: Seq<char>,
    args: Seq<Seq<char>>,
) -> Option<Seq<Seq<char>>> {
    match runner {
        Some(runner) => Some(seq![runner, output] + args),
        None => match language(output) {
            Language::Java => Some(seq![program, "-jar"@, output] + args),
            Language::JavaScript | Language::Python => Some(seq![program, output] + args),
            Language::Wheel => None,
            Language::Native => Some(seq![output] + args),
        },
    }
}

/// What runs an artifact, in words.
pub open spec fn run_flavor(runner: bool, language: Language) -> Seq<char> {
    if runner {
        "explicit runner"@
    } else {
        match language {
            Language::Java => "Java"@,
            Language::JavaScript => "JavaScript"@,
            Language::Python => "Python"@,
            _ => "native"@,
        }
    }
}

/// The command that runs an artifact, and what runs it in words; none for a
/// wheel. `program` is the runtime of the artifact's language.
pub fn runtime_argv(
    runner: Option<&str>,
    program: &str,
    output: &str,
    program_args: &Vec<String>,
) -> (r: Option<(Vec<String>, &'static str)>)
    ensures
        match r {
            Some((argv, flavor)) => run_argv(
                str_view(runner),
                program@,
                output@,
                texts(program_args@),
            ) == Some(texts(argv@)) && flavor@ == run_flavor(runner is Some, language(output@)),
            None => run_argv(str_view(runner), program@, output@, texts(program_args@)) == None::<
                Seq<Seq<char>>,
            >,
        },
{
    let mut argv: Vec<String> = Vec::new();
    if let Some(runner) = runner {
        argv.push(copy(runner));
        argv.push(copy(output));
        assert(texts(argv@) =~= seq![runner@, output@]);
        extend(&mut argv, program_args);
        return Some((argv, "explicit runner"));
    }
    let flavor = match language_of(output) {
        Language::Java => {
            argv.push(copy(program));
            argv.push(copy("-jar"));
            argv.push(copy(output));
            assert(texts(argv@) =~= seq![program@, "-jar"@, output@]);
            "Java"
        },
        Language::JavaScript => {
            argv.push(copy(program));
            argv.push(copy(output));
            assert(texts(argv@) =~= seq![program@, output@]);
            "JavaScript"
        },
        Language::Python => {
            argv.push(copy(program));
            argv.push(copy(output));
            assert(texts(argv@) =~= seq![program@, output@]);
            "Python"
        },
        Language::Wheel => {
            return None;
        },
        Language::Native => {
            argv.push(copy(output));
            assert(texts(argv@) =~= seq![output@]);
            "native"
        },
    };
    extend(&mut argv, program_args);
    Some((argv, flavor))
}

/// The characters of an optional text.
pub open spec fn str_view(s: Option<&str>) -> Option<Seq<char>> {
    match s {
        Some(s) => Some(s@),
        None => None,
    }
}

// ---------------------------------------------------------------------------
// Debuggers
// ---------------------------------------------------------------------------

/// The debugger's file name holds `lldb`, in any case.
pub open spec fn is_lldb(debugger: Seq<char>) -> bool {
    match file_name(debugger) {
        Some(name) => occurs(lower(name), "lldb"@),
        None => false,
    }
}

/// The command that debugs an artifact without a shell: jdb with the class
/// path and the main class, Node's inspector, Python's pdb, or a native
/// debugger.
pub open spec fn debug_argv(
    debugger: Seq<char>,
    output: Seq<char>,
    main_class: Seq<char>,
    args: Seq<Seq<char>>,
) -> Seq<Seq<char>> {
    (match language(output) {
        Language::Java => seq![debugger, "-classpath"@, output, main_class],
        Language::JavaScript => seq![debugger, "inspect"@, output],
        Language::Python => seq![debugger, "-m"@, "pdb"@, output],
        _ => seq![
            debugger,
            if is_lldb(debugger) {
                "--"@
            } else {
                "--args"@
            },
            output,
        ],
    }) + args
}

/// What debugs an artifact, in words.
pub open spec fn debug_flavor(language: Language) -> Seq<char> {
    match language {
        Language::Java => "Java/jdb"@,
        Language::JavaScript => "JavaScript/Node inspector"@,
        Language::Python => "Python/pdb"@,
        _ => "native"@,
    }
}

fn names_lldb(debugger: &str) -> (r: bool)
    ensures
        r == is_lldb(debugger@),
{
    match file_name_of(debugger) {
        Some(name) => contains(&lowercase(&name), "lldb"),
        None => false,
    }
}

/// The command that debugs an artifact, and what debugs it in words.
pub fn language_debug_argv(
    debugger: &str,
    output: &str,
    main_class: &str,
    program_args: &Vec<String>,
) -> (r: (Vec<String>, &'static str))
    ensures
        texts(r.0@) == debug_argv(debugger@, output@, main_class@, texts(program_args@)),
        r.1@ == debug_flavor(language(output@)),
{
    let mut argv: Vec<String> = Vec::new();
    argv.push(copy(debugger));
    let flavor = match language_of(output) {
        Language::Java => {
            argv.push(copy("-classpath"));
            argv.push(copy(output));
            argv.push(copy(main_class));
            assert(texts(argv@) =~= seq![debugger@, "-classpath"@, output@, main_class@]);
            "Java/jdb"
        },
        Language::JavaScript => {
            argv.push(copy("inspect"));
            argv.push(copy(output));
            assert(texts(argv@) =~= seq![debugger@, "inspect"@, output@]);
            "JavaScript/Node inspector"
        },
        Language::Python => {
            argv.push(copy("-m"));
            argv.push(copy("pdb"));
            argv.push(copy(output));
            assert(texts(argv@) =~= seq![debugger@, "-m"@, "pdb"@, output@]);
            "Python/pdb"
        },
        _ => {
            argv.push(
                copy(
                    if names_lldb(debugger) {
                        "--"
                    } else {
                        "--args"
                    },
                ),
            );
            argv.push(copy(output));
            assert(texts(argv@) =~= seq![
                debugger@,
                if is_lldb(debugger@) {
                    "--"@
                } else {
                    "--args"@
                },
                output@,
            ]);
            "native"
        },
    };
    extend(&mut argv, program_args);
    (argv, flavor)
}

/// A flag that asks for debug symbols.
pub open spec fn debug_flag(arg: Seq<char>) -> bool {
    arg == "/Zi"@ || arg == "/Z7"@ || arg == "-ggdb"@ || begins(arg, "-g"@)
}

/// The command of an action asks for debug symbols.
pub open spec fn has_symbols(a: ActionNode) -> bool {
    exists|k: int| 0 <= k < a.argv@.len() && debug_flag((#[trigger] a.argv@[k])@)
}

/// Whether the command of an action asks for debug symbols.
fn asks_symbols(a: &ActionNode) -> (r: bool)
    ensures
        r == has_symbols(*a),
{
    let mut k: usize = 0;
    while k < a.argv.len()
        invariant
            k <= a.argv@.len(),
            forall|j: int| 0 <= j < k ==> !debug_flag((#[trigger] a.argv@[j])@),
        decreases a.argv@.len() - k,
    {
        let arg = &a.argv[k];
        if same(arg, "/Zi") || same(arg, "/Z7") || same(arg, "-ggdb") || starts_with(arg, "-g") {
            return true;
        }
        k += 1;
    }
    false
}

/// Whether every compilation among some actions asks for debug symbols.
pub fn debuggable(graph: &BuildGraph, actions: &Vec<usize>) -> (r: bool)
    requires
        ids_ok(graph.actions@.len(), actions@),
    ensures
        r == forall|k: int|
            0 <= k < actions@.len() ==> (graph.actions@[#[trigger] actions@[k] as int].kind
                == ActionKind::Compile ==> has_symbols(graph.actions@[actions@[k] as int])),
{
    let mut i: usize = 0;
    while i < actions.len()
        invariant
            ids_ok(graph.actions@.len(), actions@),
            i <= actions@.len(),
            forall|k: int|
                0 <= k < i ==> (graph.actions@[#[trigger] actions@[k] as int].kind
                    == ActionKind::Compile ==> has_symbols(graph.actions@[actions@[k] as int])),
        decreases actions@.len() - i,
    {
        assert(actions@[i as int] < graph.actions@.len());
        let action = &graph.actions[actions[i]];
        if action.kind == ActionKind::Compile && !asks_symbols(action) {
            assert(graph.actions@[actions@[i as int] as int].kind == ActionKind::Compile);
            return false;
        }
        i += 1;
    }
    true
}

// ---------------------------------------------------------------------------
// Programs
// ---------------------------------------------------------------------------

/// Where a program is.
#[derive(Debug)]
pub enum Located {
    /// At this path.
    At { path: String },
    /// Somewhere on the search path.
    Searched,
}

/// Where a configured program is: one with a directory stands for a path,
/// relative to the workspace root; a bare name is looked for.
pub fn locate_program(root: &str, configured: &str) -> (r: Located)
    ensures
        match r {
            Located::At { path } => (absolute(configured@) || components(configured@).len() > 1)
                && path@ == joined_path(root@, configured@),
            Located::Searched => !absolute(configured@) && components(configured@).len() <= 1,
        },
{
    let parts = components_of(configured);
    assert(texts(parts@).len() == parts@.len());
    if is_absolute(configured) || parts.len() > 1 {
        Located::At { path: join_path(root, configured) }
    } else {
        Located::Searched
    }
}

/// The one target of a command that takes one. The error says which to choose
/// from.
pub fn sole_target(command: &str, targets: &Vec<String>) -> (r: Result<String, String>)
    ensures
        match r {
            Ok(target) => targets@.len() == 1 && target@ == targets@[0]@,
            Err(message) => targets@.len() != 1 && message@ == command@
                + " requires exactly one target; choose one of: "@ + joined(
                texts(targets@),
                ", "@,
            ),
        },
{
    if targets.len() == 1 {
        return Ok(copy(&targets[0]));
    }
    let mut message = copy(command);
    message.append(" requires exactly one target; choose one of: ");
    message.append(&join(targets, ", "));
    Err(message)
}

/// Why what is built for a platform cannot run here; none where it can.
pub fn runner_missing(platform: &str, has_runner: bool) -> (r: Option<String>)
    ensures
        match r {
            Some(message) => platform@ != HOST_PLATFORM@ && !has_runner && message@
                == "cannot execute platform "@ + debug_text(platform@)
                + " on the host directly; pass --runner for an emulator"@,
            None => platform@ == HOST_PLATFORM@ || has_runner,
        },
{
    if has_runner || same(platform, HOST_PLATFORM) {
        return None;
    }
    let mut message = copy("cannot execute platform ");
    message.append(&quoted(platform));
    message.append(" on the host directly; pass --runner for an emulator");
    Some(message)
}

// ---------------------------------------------------------------------------
// What is run
// ---------------------------------------------------------------------------

/// What is run for a target is the first output of the first of its own actions
/// that links; for a target without one it is the target's first output.
pub proof fn linked_program_is_run(g: BuildGraph, target: &str, path: String, k: int)
    requires
        g.wf(),
        call_ensures(target_runtime_output, (&g, target), Ok::<String, RunError>(path)),
    ensures
        g.targets.names().contains(target@),
        ({
            let own = g.targets.at(target@).actions@;
            let outputs = g.targets.at(target@).outputs@;
            &&& 0 <= k < own.len() && g.actions@[own[k] as int].kind == ActionKind::Link
                && g.actions@[own[k] as int].outputs@.len() > 0 && (forall|j: int|
                0 <= j < k ==> g.actions@[#[trigger] own[j] as int].kind != ActionKind::Link)
                ==> path@ == g.files@[g.actions@[own[k] as int].outputs@[0] as int].path@
            &&& (forall|j: int|
                0 <= j < own.len() ==> g.actions@[#[trigger] own[j] as int].kind
                    != ActionKind::Link) ==> outputs.len() > 0 && path@
                == g.files@[outputs[0] as int].path@
        }),
{
    let own = g.targets.at(target@).actions@;
    let file = choose|file: int| #[trigger]
        runs(g, target@, file) && 0 <= file < g.files@.len() && path@ == g.files@[file].path@;
    if 0 <= k < own.len() && g.actions@[own[k] as int].kind == ActionKind::Link
        && g.actions@[own[k] as int].outputs@.len() > 0 && (forall|j: int|
        0 <= j < k ==> g.actions@[#[trigger] own[j] as int].kind != ActionKind::Link) {
        assert(first_link(g, target@, k));
        if exists|q: int| #[trigger]
            first_link(g, target@, q) && g.actions@[own[q] as int].outputs@.len() > 0 && file
                == g.actions@[own[q] as int].outputs@[0] {
            let q = choose|q: int| #[trigger]
                first_link(g, target@, q) && g.actions@[own[q] as int].outputs@.len() > 0 && file
                    == g.actions@[own[q] as int].outputs@[0];
            if q < k {
                assert(g.actions@[own[q] as int].kind != ActionKind::Link);
            } else if k < q {
                assert(g.actions@[own[k] as int].kind != ActionKind::Link);
            }
        } else {
            if none_links(g, target@, own.len() as int) {
                assert(g.actions@[own[k] as int].kind != ActionKind::Link);
            } else {
                let q = choose|q: int| #[trigger]
                    first_link(g, target@, q) && g.actions@[own[q] as int].outputs@.len() == 0;
                if q < k {
                    assert(g.actions@[own[q] as int].kind != ActionKind::Link);
                } else if k < q {
                    assert(g.actions@[own[k] as int].kind != ActionKind::Link);
                }
            }
        }
    }
    if forall|j: int|
        0 <= j < own.len() ==> g.actions@[#[trigger] own[j] as int].kind != ActionKind::Link {
        if exists|q: int| #[trigger]
            first_link(g, target@, q) && g.actions@[own[q] as int].outputs@.len() > 0 && file
                == g.actions@[own[q] as int].outputs@[0] {
            let q = choose|q: int| #[trigger]
                first_link(g, target@, q) && g.actions@[own[q] as int].outputs@.len() > 0 && file
                    == g.actions@[own[q] as int].outputs@[0];
            assert(g.actions@[own[q] as int].kind != ActionKind::Link);
        }
    }
}

/// The extension of an artifact tells what it is, in whatever case it is written.
pub proof fn extension_tells_language(path: &str, r: Language, ext: Seq<char>)
    requires
        call_ensures(language_of, (path,), r),
        extension(path@) == Some(ext),
    ensures
        lower(ext) == "jar"@ <==> r == Language::Java,
        lower(ext) == "js"@ || lower(ext) == "mjs"@ || lower(ext) == "cjs"@ <==> r
            == Language::JavaScript,
        lower(ext) == "py"@ || lower(ext) == "pyw"@ <==> r == Language::Python,
        lower(ext) == "whl"@ <==> r == Language::Wheel,
{
    reveal_strlit("jar");
    reveal_strlit("js");
    reveal_strlit("mjs");
    reveal_strlit("cjs");
    reveal_strlit("py");
    reveal_strlit("pyw");
    reveal_strlit("whl");
    assert("jar"@[0] != "mjs"@[0] && "jar"@[0] != "cjs"@[0] && "jar"@[0] != "pyw"@[0] && "jar"@[0]
        != "whl"@[0]);
    assert("mjs"@[0] != "pyw"@[0] && "mjs"@[0] != "whl"@[0]);
    assert("cjs"@[0] != "pyw"@[0] && "cjs"@[0] != "whl"@[0]);
    assert("js"@[0] != "py"@[0]);
    assert("js"@.len() == 2 && "py"@.len() == 2 && "jar"@.len() == 3 && "whl"@.len() == 3);
    assert("mjs"@.len() == 3 && "cjs"@.len() == 3 && "pyw"@.len() == 3);
    assert("pyw"@[0] != "whl"@[0]);
}

/// An artifact is run by the runner where one is given, and else by what its
/// language needs; all arguments follow it in order. A wheel is not run.
pub proof fn artifact_and_arguments_are_run(
    runner: Option<&str>,
    program: &str,
    output: &str,
    args: Vec<String>,
    r: Option<(Vec<String>, &'static str)>,
    l: Language,
)
    requires
        call_ensures(runtime_argv, (runner, program, output, &args), r),
        call_ensures(language_of, (output,), l),
    ensures
        r is None <==> runner is None && l == Language::Wheel,
        r matches Some(found) ==> ({
            let argv = texts(found.0@);
            let n = argv.len() - args@.len();
            &&& n >= 1
            &&& argv.skip(n) == texts(args@)
            &&& argv[n - 1] == output@
            &&& runner matches Some(first) ==> n == 2 && argv[0] == first@
            &&& runner is None && l == Language::Java ==> n == 3 && argv[0] == program@ && argv[1]
                == "-jar"@
            &&& runner is None && (l == Language::JavaScript || l == Language::Python) ==> n == 2
                && argv[0] == program@
            &&& runner is None && l == Language::Native ==> n == 1
        }),
{
    if let Some(found) = r {
        let argv = texts(found.0@);
        let n = argv.len() - args@.len();
        assert(texts(args@).len() == args@.len());
        assert(argv.skip(n) =~= texts(args@));
    }
}

/// An artifact is debugged by the debugger of its language, and all arguments
/// follow it in order.
pub proof fn artifact_and_arguments_are_debugged(
    debugger: &str,
    output: &str,
    main_class: &str,
    args: Vec<String>,
    r: (Vec<String>, &'static str),
    l: Language,
)
    requires
        call_ensures(language_debug_argv, (debugger, output, main_class, &args), r),
        call_ensures(language_of, (output,), l),
    ensures
        ({
            let argv = texts(r.0@);
            let n = argv.len() - args@.len();
            &&& argv[0] == debugger@
            &&& argv.skip(n) == texts(args@)
            &&& l == Language::Java ==> argv.take(n) == seq![
                debugger@,
                "-classpath"@,
                output@,
                main_class@,
            ]
            &&& l == Language::JavaScript ==> argv.take(n) == seq![debugger@, "inspect"@, output@]
            &&& l == Language::Python ==> argv.take(n) == seq![debugger@, "-m"@, "pdb"@, output@]
            &&& l == Language::Native || l == Language::Wheel ==> n == 3 && argv[2] == output@ && (
            argv[1] == "--"@ || argv[1] == "--args"@)
        }),
{
    let argv = texts(r.0@);
    let n = argv.len() - args@.len();
    assert(texts(args@).len() == args@.len());
    assert(argv.skip(n) =~= texts(args@));
    if l == Language::Java {
        assert(argv.take(n) =~= seq![debugger@, "-classpath"@, output@, main_class@]);
    } else if l == Language::JavaScript {
        assert(argv.take(n) =~= seq![debugger@, "inspect"@, output@]);
    } else if l == Language::Python {
        assert(argv.take(n) =~= seq![debugger@, "-m"@, "pdb"@, output@]);
    }
}

/// Actions can be debugged only where every compilation among them asks for debug
/// symbols.
pub proof fn every_compilation_needs_symbols(g: BuildGraph, actions: Vec<usize>, r: bool)
    requires
        ids_ok(g.actions@.len(), actions@),
        call_ensures(debuggable, (&g, &actions), r),
    ensures
        r <==> forall|k: int|
            0 <= k < actions@.len() && g.actions@[#[trigger] actions@[k] as int].kind
                == ActionKind::Compile ==> exists|j: int|
                0 <= j < g.actions@[actions@[k] as int].argv@.len() && ({
                    let arg = (#[trigger] g.actions@[actions@[k] as int].argv@[j])@;
                    begins(arg, "-g"@) || arg == "/Zi"@ || arg == "/Z7"@
                }),
{
    reveal_strlit("-g");
    reveal_strlit("-ggdb");
    assert(begins("-ggdb"@, "-g"@)) by {
        assert("-ggdb"@.subrange(0, 2) =~= "-g"@);
    }
    assert forall|k: int| 0 <= k < actions@.len() implies (has_symbols(
        g.actions@[#[trigger] actions@[k] as int],
    ) <==> exists|j: int|
        0 <= j < g.actions@[actions@[k] as int].argv@.len() && ({
            let arg = (#[trigger] g.actions@[actions@[k] as int].argv@[j])@;
            begins(arg, "-g"@) || arg == "/Zi"@ || arg == "/Z7"@
        })) by {
        let a = g.actions@[actions@[k] as int];
        if has_symbols(a) {
            let j = choose|j: int| 0 <= j < a.argv@.len() && debug_flag((#[trigger] a.argv@[j])@);
            assert(begins(a.argv@[j]@, "-g"@) || a.argv@[j]@ == "/Zi"@ || a.argv@[j]@ == "/Z7"@);
        }
        if exists|j: int|
            0 <= j < a.argv@.len() && ({
                let arg = (#[trigger] a.argv@[j])@;
                begins(arg, "-g"@) || arg == "/Zi"@ || arg == "/Z7"@
            }) {
            let j = choose|j: int|
                0 <= j < a.argv@.len() && ({
                    let arg = (#[trigger] a.argv@[j])@;
                    begins(arg, "-g"@) || arg == "/Zi"@ || arg == "/Z7"@
                });
            assert(debug_flag(a.argv@[j]@));
        }
    }
}

/// A command of one target takes one, and what is built for another platform runs
/// here only with a runner.
pub proof fn one_target_and_a_runner(
    command: &str,
    targets: Vec<String>,
    r: Result<String, String>,
    platform: &str,
    has_runner: bool,
    missing: Option<String>,
)
    requires
        call_ensures(sole_target, (command, &targets), r),
        call_ensures(runner_missing, (platform, has_runner), missing),
    ensures
        r is Ok <==> targets@.len() == 1,
        r matches Ok(target) ==> target@ == targets@[0]@,
        missing is None <==> platform@ == "host"@ || has_runner,
{
}

} // verus!
