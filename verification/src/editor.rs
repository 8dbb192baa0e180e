//! Tasks and launches for an editor.

use vstd::prelude::*;
use vstd::string::*;

use crate::graph::{ids_ok, BuildGraph};
use crate::json::{
    add_member, list, members, object, text, text_list, text_trees, tree, trees, Json, JsonText,
    Member,
};
use crate::launch::{language, language_of, Language};
use crate::paths::{components, relative_to, remainder, under};
use crate::query::{needs, root_actions, UnknownTarget};
use crate::reach::reached_from;
use crate::text::{copy, ends, ends_with, group_texts, lower, lowercase, replace, replaced, texts};
use crate::toposort::ints;

verus! {

/// How an artifact is debugged.
#[derive(Debug)]
pub enum Launch {
    Java { main_class: String },
    Node { source_maps: bool },
    Python,
    Native { mi_mode: &'static str },
}

/// What an editor is told: a task that builds the target, and a launch that
/// debugs its artifact.
#[derive(Debug)]
pub struct EditorFiles {
    pub task_label: String,
    pub launch_name: String,
    /// The path of the artifact from the folder of the workspace.
    pub artifact: String,
    /// The arguments of the build.
    pub build_args: Vec<String>,
    pub problem_matcher: Vec<String>,
    pub launch: Launch,
    pub flavor: &'static str,
}

/// Why an editor cannot be told how to debug an artifact.
#[derive(Debug)]
pub enum EditorError {
    Outside,
    Wheel,
    UnknownTarget { error: UnknownTarget },
}

impl EditorError {
    pub open spec fn text(self, artifact: Seq<char>) -> Seq<char> {
        match self {
            EditorError::Outside => "artifact "@ + artifact + " is outside the workspace"@,
            EditorError::Wheel =>
                "a wheel has no direct IDE launch configuration; choose a runnable target"@,
            EditorError::UnknownTarget { error } => "unknown target "@ + crate::text::debug_text(
                error.name@,
            ),
        }
    }

    /// Reports the fault.
    pub fn message(&self, artifact: &str) -> (r: String)
        ensures
            r@ == self.text(artifact@),
    {
        match self {
            EditorError::Outside => {
                let mut out = copy("artifact ");
                out.append(artifact);
                out.append(" is outside the workspace");
                out
            },
            EditorError::Wheel => copy(
                "a wheel has no direct IDE launch configuration; choose a runnable target",
            ),
            EditorError::UnknownTarget { error } => error.message(),
        }
    }
}

/// One of the outputs of an action is a source map.
pub open spec fn writes_map(g: BuildGraph, a: int) -> bool {
    exists|k: int|
        0 <= k < g.actions@[a].outputs@.len() && ends(
            lower(g.files@[#[trigger] g.actions@[a].outputs@[k] as int].path@),
            ".map"@,
        )
}

/// One of the actions that a target needs writes a source map.
pub open spec fn has_source_maps(g: BuildGraph, target: Seq<char>) -> bool {
    exists|a: int| #[trigger]
        reached_from(needs(g), root_actions(g, seq![target], 1), a) && writes_map(g, a)
}

/// Whether one of the outputs of an action is a source map.
fn action_writes_map(graph: &BuildGraph, a: usize) -> (r: bool)
    requires
        graph.wf(),
        a < graph.actions@.len(),
    ensures
        r == writes_map(*graph, a as int),
{
    let outputs = &graph.actions[a].outputs;
    assert(crate::graph::action_ok(graph.files@.len(), graph.actions@[a as int]));
    let mut k: usize = 0;
    while k < outputs.len()
        invariant
            graph.wf(),
            a < graph.actions@.len(),
            ids_ok(graph.files@.len(), graph.actions@[a as int].outputs@),
            *outputs == graph.actions@[a as int].outputs,
            k <= outputs@.len(),
            forall|j: int|
                0 <= j < k ==> !ends(
                    lower(
                        graph.files@[#[trigger] graph.actions@[a as int].outputs@[j] as int].path@,
                    ),
                    ".map"@,
                ),
        decreases outputs@.len() - k,
    {
        let f: usize = outputs[k];
        assert(graph.actions@[a as int].outputs@[k as int] < graph.files@.len());
        if ends_with(&lowercase(&graph.files[f].path), ".map") {
            return true;
        }
        k += 1;
    }
    false
}

fn any_source_map(graph: &BuildGraph, actions: &Vec<usize>) -> (r: bool)
    requires
        graph.wf(),
        ids_ok(graph.actions@.len(), actions@),
    ensures
        r == exists|k: int|
            0 <= k < actions@.len() && writes_map(*graph, #[trigger] actions@[k] as int),
{
    let mut i: usize = 0;
    while i < actions.len()
        invariant
            graph.wf(),
            ids_ok(graph.actions@.len(), actions@),
            i <= actions@.len(),
            forall|k: int| 0 <= k < i ==> !writes_map(*graph, #[trigger] actions@[k] as int),
        decreases actions@.len() - i,
    {
        assert(actions@[i as int] < graph.actions@.len());
        if action_writes_map(graph, actions[i]) {
            return true;
        }
        i += 1;
    }
    false
}

/// The arguments of the build.
pub open spec fn build_arguments(
    target: Seq<char>,
    profile: Seq<char>,
    platform: Seq<char>,
) -> Seq<Seq<char>> {
    seq![
        "-C"@,
        "${workspaceFolder}"@,
        "build"@,
        target,
        "--profile"@,
        profile,
        "--platform"@,
        platform,
        "--no-tui"@,
    ]
}

/// What compilers' messages are read by.
pub open spec fn matchers(l: Language) -> Seq<Seq<char>> {
    match l {
        Language::Java | Language::JavaScript | Language::Python => Seq::empty(),
        _ => seq!["$gcc"@],
    }
}

/// The word for a language.
pub open spec fn flavor_text(l: Language) -> Seq<char> {
    match l {
        Language::Java => "Java"@,
        Language::JavaScript => "JavaScript"@,
        Language::Python => "Python"@,
        _ => "native"@,
    }
}

/// How an artifact is debugged.
pub open spec fn launches(
    g: BuildGraph,
    target: Seq<char>,
    l: Language,
    main_class: Seq<char>,
    macos: bool,
    launch: Launch,
) -> bool {
    match l {
        Language::Java => launch matches Launch::Java { main_class: told } && told@ == main_class,
        Language::JavaScript => launch matches Launch::Node { source_maps } && source_maps
            == has_source_maps(g, target),
        Language::Python => launch is Python,
        Language::Wheel => false,
        Language::Native => launch matches Launch::Native { mi_mode } && mi_mode@ == if macos {
            "lldb"@
        } else {
            "gdb"@
        },
    }
}

/// What an editor is told, or why it cannot be.
pub open spec fn editor_files(
    g: BuildGraph,
    root: Seq<char>,
    target: Seq<char>,
    profile: Seq<char>,
    platform: Seq<char>,
    artifact: Seq<char>,
    main_class: Seq<char>,
    macos: bool,
    r: Result<EditorFiles, EditorError>,
) -> bool {
    let l = language(artifact);
    if !under(artifact, root) {
        r is Err && r->Err_0 is Outside
    } else if l == Language::Wheel {
        r is Err && r->Err_0 is Wheel
    } else if l == Language::JavaScript && !g.targets.has(target) {
        r matches Err(EditorError::UnknownTarget { error }) && error.name@ == target
    } else {
        &&& r is Ok
        &&& ({
            let f = r->Ok_0;
            &&& f.task_label@ == "frost: build "@ + target
            &&& f.launch_name@ == "Frost: debug "@ + target
            &&& f.artifact@ == "${workspaceFolder}/"@ + replaced(
                remainder(artifact, components(root).len()),
                "\\"@,
                "/"@,
            )
            &&& texts(f.build_args@) == build_arguments(target, profile, platform)
            &&& texts(f.problem_matcher@) == matchers(l)
            &&& f.flavor@ == flavor_text(l)
            &&& launches(g, target, l, main_class, macos, f.launch)
        })
    }
}

fn arguments(target: &str, profile: &str, platform: &str) -> (r: Vec<String>)
    ensures
        texts(r@) == build_arguments(target@, profile@, platform@),
{
    broadcast use group_texts;

    let mut out: Vec<String> = Vec::new();
    out.push(copy("-C"));
    out.push(copy("${workspaceFolder}"));
    out.push(copy("build"));
    out.push(copy(target));
    out.push(copy("--profile"));
    out.push(copy(profile));
    out.push(copy("--platform"));
    out.push(copy(platform));
    out.push(copy("--no-tui"));
    assert(texts(out@) =~= build_arguments(target@, profile@, platform@));
    out
}

fn source_maps(graph: &BuildGraph, target: &str) -> (r: Result<bool, UnknownTarget>)
    requires
        graph.wf(),
    ensures
        match r {
            Ok(found) => graph.targets.has(target@) && found == has_source_maps(*graph, target@),
            Err(e) => !graph.targets.has(target@) && e.name@ == target@,
        },
{
    let mut only: Vec<String> = Vec::new();
    only.push(copy(target));
    assert(texts(only@) =~= seq![target@]);
    match graph.action_closure(&only) {
        Ok(actions) => {
            assert(graph.targets.has(only@[0]@));
            let found = any_source_map(graph, &actions);
            proof {
                let all = ints(actions@);
                if found {
                    let k = choose|k: int|
                        0 <= k < actions@.len() && writes_map(
                            *graph,
                            #[trigger] actions@[k] as int,
                        );
                    assert(all[k] == actions@[k] as int);
                    assert(all.contains(all[k]));
                }
                if has_source_maps(*graph, target@) {
                    let a = choose|a: int| #[trigger]
                        reached_from(needs(*graph), root_actions(*graph, seq![target@], 1), a)
                            && writes_map(*graph, a);
                    assert(all.contains(a));
                    let k = all.index_of(a);
                    assert(actions@[k] as int == a);
                }
            }
            Ok(found)
        },
        Err(e) => Err(e),
    }
}

/// What an editor is told about a target and its artifact. `main_class` is the
/// class that a JAR names.
pub fn vscode_files(
    graph: &BuildGraph,
    root: &str,
    target: &str,
    profile: &str,
    platform: &str,
    artifact: &str,
    main_class: &str,
    macos: bool,
) -> (r: Result<EditorFiles, EditorError>)
    requires
        graph.wf(),
    ensures
        editor_files(
            *graph,
            root@,
            target@,
            profile@,
            platform@,
            artifact@,
            main_class@,
            macos,
            r,
        ),
{
    let rest = match relative_to(artifact, root) {
        Some(rest) => rest,
        None => {
            return Err(EditorError::Outside);
        },
    };
    let l = language_of(artifact);
    let launch = match l {
        Language::Java => Launch::Java { main_class: copy(main_class) },
        Language::JavaScript => match source_maps(graph, target) {
            Ok(source_maps) => Launch::Node { source_maps },
            Err(error) => {
                return Err(EditorError::UnknownTarget { error });
            },
        },
        Language::Python => Launch::Python,
        Language::Wheel => {
            return Err(EditorError::Wheel);
        },
        Language::Native => Launch::Native {
            mi_mode: if macos {
                "lldb"
            } else {
                "gdb"
            },
        },
    };
    let mut problem_matcher: Vec<String> = Vec::new();
    let native = match l {
        Language::Java | Language::JavaScript | Language::Python => false,
        _ => true,
    };
    if native {
        problem_matcher.push(copy("$gcc"));
    }
    assert(texts(problem_matcher@) =~= matchers(l));
    let flavor = match l {
        Language::Java => "Java",
        Language::JavaScript => "JavaScript",
        Language::Python => "Python",
        _ => "native",
    };
    let mut task_label = copy("frost: build ");
    task_label.append(target);
    let mut launch_name = copy("Frost: debug ");
    launch_name.append(target);
    let mut path = copy("${workspaceFolder}/");
    path.append(&replace(&rest, "\\", "/"));
    Ok(
        EditorFiles {
            task_label,
            launch_name,
            artifact: path,
            build_args: arguments(target, profile, platform),
            problem_matcher,
            launch,
            flavor,
        },
    )
}

/// The tasks that an editor reads: one that builds the target.
pub open spec fn tasks_tree(f: EditorFiles) -> JsonText {
    let task = JsonText::Object(
        seq![
            ("label"@, JsonText::Text(f.task_label@)),
            ("type"@, JsonText::Text("process"@)),
            ("command"@, JsonText::Text("frost"@)),
            ("args"@, JsonText::List(text_trees(texts(f.build_args@)))),
            (
                "options"@,
                JsonText::Object(seq![("cwd"@, JsonText::Text("${workspaceFolder}"@))]),
            ),
            ("problemMatcher"@, JsonText::List(text_trees(texts(f.problem_matcher@)))),
            (
                "group"@,
                JsonText::Object(
                    seq![
                        ("kind"@, JsonText::Text("build"@)),
                        ("isDefault"@, JsonText::Flag(true)),
                    ],
                ),
            ),
        ],
    );
    JsonText::Object(
        seq![("version"@, JsonText::Text("2.0.0"@)), ("tasks"@, JsonText::List(seq![task]))],
    )
}

/// A list of one value.
fn single(value: Json) -> (r: Json)
    ensures
        tree(r) == JsonText::List(seq![tree(value)]),
{
    let mut v: Vec<Json> = Vec::new();
    v.push(value);
    assert(trees(v@) =~= seq![tree(value)]);
    list(v)
}

/// A file of one value, under `name`, with the version of its format.
fn versioned(version: &str, name: &str, value: Json) -> (r: Json)
    ensures
        tree(r) == JsonText::Object(
            seq![
                ("version"@, JsonText::Text(version@)),
                (name@, JsonText::List(seq![tree(value)])),
            ],
        ),
{
    let mut v: Vec<Member> = Vec::new();
    add_member(&mut v, "version", text(version));
    add_member(&mut v, name, single(value));
    assert(members(v@) =~= seq![
        ("version"@, JsonText::Text(version@)),
        (name@, JsonText::List(seq![tree(value)])),
    ]);
    object(v)
}

/// The tasks that an editor reads.
pub fn tasks_file(files: &EditorFiles) -> (r: Json)
    ensures
        tree(r) == tasks_tree(*files),
{
    let mut options: Vec<Member> = Vec::new();
    add_member(&mut options, "cwd", text("${workspaceFolder}"));
    assert(members(options@) =~= seq![("cwd"@, JsonText::Text("${workspaceFolder}"@))]);
    let mut group: Vec<Member> = Vec::new();
    add_member(&mut group, "kind", text("build"));
    add_member(&mut group, "isDefault", Json::Flag(true));
    assert(members(group@) =~= seq![
        ("kind"@, JsonText::Text("build"@)),
        ("isDefault"@, JsonText::Flag(true)),
    ]);
    let mut task: Vec<Member> = Vec::new();
    add_member(&mut task, "label", text(&files.task_label));
    add_member(&mut task, "type", text("process"));
    add_member(&mut task, "command", text("frost"));
    add_member(&mut task, "args", text_list(&files.build_args));
    add_member(&mut task, "options", object(options));
    add_member(&mut task, "problemMatcher", text_list(&files.problem_matcher));
    add_member(&mut task, "group", object(group));
    let ghost whole = tasks_tree(*files)->Object_0[1].1->List_0[0]->Object_0;
    assert(members(task@) =~= whole);
    versioned("2.0.0", "tasks", object(task))
}

/// What a launch says of how its artifact is debugged.
pub open spec fn launch_members(launch: Launch, artifact: Seq<char>) -> Seq<(Seq<char>, JsonText)> {
    match launch {
        Launch::Java { main_class } => seq![
            ("type"@, JsonText::Text("java"@)),
            ("mainClass"@, JsonText::Text(main_class@)),
            ("classPaths"@, JsonText::List(seq![JsonText::Text(artifact)])),
        ],
        Launch::Node { source_maps } => seq![
            ("type"@, JsonText::Text("node"@)),
            ("program"@, JsonText::Text(artifact)),
            ("sourceMaps"@, JsonText::Flag(source_maps)),
        ],
        Launch::Python => seq![
            ("type"@, JsonText::Text("debugpy"@)),
            ("program"@, JsonText::Text(artifact)),
        ],
        Launch::Native { mi_mode } => seq![
            ("type"@, JsonText::Text("cppdbg"@)),
            ("program"@, JsonText::Text(artifact)),
            ("MIMode"@, JsonText::Text(mi_mode@)),
            ("stopAtEntry"@, JsonText::Flag(false)),
        ],
    }
}

/// The launches that an editor reads: one that builds the target first and
/// debugs its artifact.
pub open spec fn launch_tree(f: EditorFiles) -> JsonText {
    let launch = JsonText::Object(
        seq![
            ("name"@, JsonText::Text(f.launch_name@)),
            ("request"@, JsonText::Text("launch"@)),
            ("cwd"@, JsonText::Text("${workspaceFolder}"@)),
            ("preLaunchTask"@, JsonText::Text(f.task_label@)),
            ("args"@, JsonText::List(Seq::empty())),
        ] + launch_members(f.launch, f.artifact@),
    );
    JsonText::Object(
        seq![
            ("version"@, JsonText::Text("0.2.0"@)),
            ("configurations"@, JsonText::List(seq![launch])),
        ],
    )
}

fn add_launch(v: &mut Vec<Member>, launch: &Launch, artifact: &str)
    ensures
        members(final(v)@) == members(old(v)@) + launch_members(*launch, artifact@),
{
    let ghost before = members(v@);
    match launch {
        Launch::Java { main_class } => {
            add_member(v, "type", text("java"));
            add_member(v, "mainClass", text(main_class));
            add_member(v, "classPaths", single(text(artifact)));
        },
        Launch::Node { source_maps } => {
            add_member(v, "type", text("node"));
            add_member(v, "program", text(artifact));
            add_member(v, "sourceMaps", Json::Flag(*source_maps));
        },
        Launch::Python => {
            add_member(v, "type", text("debugpy"));
            add_member(v, "program", text(artifact));
        },
        Launch::Native { mi_mode } => {
            add_member(v, "type", text("cppdbg"));
            add_member(v, "program", text(artifact));
            add_member(v, "MIMode", text(mi_mode));
            add_member(v, "stopAtEntry", Json::Flag(false));
        },
    }
    assert(members(v@) =~= before + launch_members(*launch, artifact@));
}

/// The launches that an editor reads.
pub fn launch_file(files: &EditorFiles) -> (r: Json)
    ensures
        tree(r) == launch_tree(*files),
{
    let none: Vec<Json> = Vec::new();
    assert(trees(none@) =~= Seq::<JsonText>::empty());
    let mut v: Vec<Member> = Vec::new();
    add_member(&mut v, "name", text(&files.launch_name));
    add_member(&mut v, "request", text("launch"));
    add_member(&mut v, "cwd", text("${workspaceFolder}"));
    add_member(&mut v, "preLaunchTask", text(&files.task_label));
    add_member(&mut v, "args", list(none));
    assert(members(v@) =~= seq![
        ("name"@, JsonText::Text(files.launch_name@)),
        ("request"@, JsonText::Text("launch"@)),
        ("cwd"@, JsonText::Text("${workspaceFolder}"@)),
        ("preLaunchTask"@, JsonText::Text(files.task_label@)),
        ("args"@, JsonText::List(Seq::empty())),
    ]);
    add_launch(&mut v, &files.launch, &files.artifact);
    versioned("0.2.0", "configurations", object(v))
}

// ---------------------------------------------------------------------------
// What an editor is told
// ---------------------------------------------------------------------------

/// An editor builds the target for the profile and the platform, and then debugs
/// the artifact: what it launches names the task that builds. A native artifact
/// is debugged with the machine's debugger, a JAR with the class that it names.
pub proof fn editor_builds_before_it_debugs(
    graph: BuildGraph,
    root: &str,
    target: &str,
    profile: &str,
    platform: &str,
    artifact: &str,
    main_class: &str,
    macos: bool,
    f: EditorFiles,
    tasks: Json,
    launch: Json,
) -> (r: (Seq<(Seq<char>, JsonText)>, Seq<(Seq<char>, JsonText)>))
    requires
        call_ensures(
            vscode_files,
            (&graph, root, target, profile, platform, artifact, main_class, macos),
            Ok::<EditorFiles, EditorError>(f),
        ),
        call_ensures(tasks_file, (&f,), tasks),
        call_ensures(launch_file, (&f,), launch),
    ensures
        ({
            let (task, start) = r;
            let l = language(artifact@);
            &&& tree(tasks) == JsonText::Object(
                seq![
                    ("version"@, JsonText::Text("2.0.0"@)),
                    ("tasks"@, JsonText::List(seq![JsonText::Object(task)])),
                ],
            )
            &&& tree(launch) == JsonText::Object(
                seq![
                    ("version"@, JsonText::Text("0.2.0"@)),
                    ("configurations"@, JsonText::List(seq![JsonText::Object(start)])),
                ],
            )
            &&& task.contains(("label"@, JsonText::Text("frost: build "@ + target@)))
            &&& start.contains(("preLaunchTask"@, JsonText::Text("frost: build "@ + target@)))
            &&& task.contains(("command"@, JsonText::Text("frost"@)))
            &&& task.contains(
                (
                    "args"@,
                    JsonText::List(
                        text_trees(
                            seq![
                                "-C"@,
                                "${workspaceFolder}"@,
                                "build"@,
                                target@,
                                "--profile"@,
                                profile@,
                                "--platform"@,
                                platform@,
                                "--no-tui"@,
                            ],
                        ),
                    ),
                ),
            )
            &&& under(artifact@, root@)
            &&& l == Language::Native ==> start.contains(("type"@, JsonText::Text("cppdbg"@)))
                && start.contains(("program"@, JsonText::Text(f.artifact@))) && start.contains(
                (
                    "MIMode"@,
                    JsonText::Text(
                        if macos {
                            "lldb"@
                        } else {
                            "gdb"@
                        },
                    ),
                ),
            )
            &&& l == Language::Java ==> start.contains(("type"@, JsonText::Text("java"@)))
                && start.contains(("mainClass"@, JsonText::Text(main_class@))) && start.contains(
                ("classPaths"@, JsonText::List(seq![JsonText::Text(f.artifact@)])),
            )
            &&& l == Language::Python ==> start.contains(("type"@, JsonText::Text("debugpy"@)))
                && start.contains(("program"@, JsonText::Text(f.artifact@)))
            &&& l == Language::JavaScript ==> start.contains(("type"@, JsonText::Text("node"@)))
                && start.contains(("program"@, JsonText::Text(f.artifact@)))
        }),
{
    let whole = tasks_tree(f)->Object_0;
    let task = (whole[1].1->List_0[0])->Object_0;
    let told = launch_tree(f)->Object_0;
    let start = (told[1].1->List_0[0])->Object_0;
    assert(task[0] == ("label"@, JsonText::Text(f.task_label@)));
    assert(task[2] == ("command"@, JsonText::Text("frost"@)));
    assert(task[3] == ("args"@, JsonText::List(text_trees(texts(f.build_args@)))));
    assert(start[3] == ("preLaunchTask"@, JsonText::Text(f.task_label@)));
    let more = launch_members(f.launch, f.artifact@);
    assert(start[5] == more[0] && start[6] == more[1]);
    if more.len() > 2 {
        assert(start[7] == more[2]);
    }
    (task, start)
}

/// A program of JavaScript is debugged with source maps where an action that the
/// target needs writes one, and only there.
pub proof fn source_maps_are_noticed(
    graph: BuildGraph,
    root: &str,
    target: &str,
    profile: &str,
    platform: &str,
    artifact: &str,
    main_class: &str,
    macos: bool,
    f: EditorFiles,
)
    requires
        call_ensures(
            vscode_files,
            (&graph, root, target, profile, platform, artifact, main_class, macos),
            Ok::<EditorFiles, EditorError>(f),
        ),
        language(artifact@) == Language::JavaScript,
    ensures
        f.launch is Node,
        f.launch->source_maps <==> exists|a: int, k: int|
            #![trigger graph.actions@[a].outputs@[k]]
            reached_from(needs(graph), root_actions(graph, seq![target@], 1), a) && 0 <= k
                < graph.actions@[a].outputs@.len() && ends(
                lower(graph.files@[graph.actions@[a].outputs@[k] as int].path@),
                ".map"@,
            ),
{
    if f.launch->source_maps {
        let a = choose|a: int| #[trigger]
            reached_from(needs(graph), root_actions(graph, seq![target@], 1), a) && writes_map(
                graph,
                a,
            );
        let k = choose|k: int|
            0 <= k < graph.actions@[a].outputs@.len() && ends(
                lower(graph.files@[#[trigger] graph.actions@[a].outputs@[k] as int].path@),
                ".map"@,
            );
        assert(graph.actions@[a].outputs@[k] as int >= 0);
    }
    if exists|a: int, k: int|
        #![trigger graph.actions@[a].outputs@[k]]
        reached_from(needs(graph), root_actions(graph, seq![target@], 1), a) && 0 <= k
            < graph.actions@[a].outputs@.len() && ends(
            lower(graph.files@[graph.actions@[a].outputs@[k] as int].path@),
            ".map"@,
        ) {
        let (a, k) = choose|a: int, k: int|
            #![trigger graph.actions@[a].outputs@[k]]
            reached_from(needs(graph), root_actions(graph, seq![target@], 1), a) && 0 <= k
                < graph.actions@[a].outputs@.len() && ends(
                lower(graph.files@[graph.actions@[a].outputs@[k] as int].path@),
                ".map"@,
            );
        assert(writes_map(graph, a));
    }
}

} // verus!
