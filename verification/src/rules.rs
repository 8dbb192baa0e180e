//! What targets turn into: the actions of each kind of target, stated over
//! paths.

use vstd::prelude::*;
use vstd::string::*;

use crate::manifest::{Profile, Target, TargetKind, Toolchain};
use crate::paths::absolute;
use crate::shared_set::add_new;
use crate::sorted_map::{pairs, Pairs};
use crate::template::{
    command_argv, config_replaced, config_text, config_texts, genrule_cmd, test_argv, CommandTexts,
    Config, Configuration, TemplateFault,
};
use crate::text::{chars_of, copy, ends, last_at, rsplit_once, same, texts};

verus! {

pub const OBJ_DIR: &'static str = ".frost/obj";

pub const LIB_DIR: &'static str = ".frost/lib";

pub const BIN_DIR: &'static str = ".frost/bin";

/// The interpreter that every genrule and shell test runs through.
pub const SHELL: &'static str = "/bin/sh";

pub const SHELL_ARG: &'static str = "-c";

/// What an action does.
#[derive(Debug, Clone, Copy, PartialEq, Eq, Structural)]
pub enum ActionKind {
    Compile,
    Archive,
    Link,
    Genrule,
    Test,
    KofunCompile,
    Command,
}

/// An action, with its files named by their paths.
pub struct Action {
    pub id: Seq<char>,
    pub desc: Seq<char>,
    pub kind: ActionKind,
    pub target: Seq<char>,
    pub sandbox: bool,
    pub argv: Seq<Seq<char>>,
    pub followup_argv: Seq<Seq<Seq<char>>>,
    pub clean_dirs: Seq<Seq<char>>,
    pub preserve_outputs: bool,
    pub env: Pairs,
    pub pass_env: Seq<Seq<char>>,
    pub inputs: Seq<Seq<char>>,
    pub order_only_inputs: Seq<Seq<char>>,
    pub outputs: Seq<Seq<char>>,
    pub depfile: Option<Seq<char>>,
}

/// Why a workspace has no build graph.
pub enum Fault {
    InvalidProfile(Seq<char>),
    UnknownProfile { profile: Seq<char>, hint: Option<Seq<char>>, known: Seq<Seq<char>> },
    UnknownPlatform { platform: Seq<char>, hint: Option<Seq<char>>, known: Seq<Seq<char>> },
    /// A cycle of dependencies, from a target back to itself.
    Cycle(Seq<Seq<char>>),
    Template(TemplateFault, Seq<char>),
    /// A test uses a tool that the platform does not have.
    TestTool { target: Seq<char>, tool: Seq<char>, configured: Seq<Seq<char>> },
    /// A command uses a tool that the platform does not have.
    CommandTool { target: Seq<char>, tool: Seq<char>, configured: Seq<Seq<char>> },
    /// A step of a command uses a tool that the platform does not have.
    StepTool { target: Seq<char>, tool: Seq<char> },
    NoKofunc(Seq<char>),
    KofunSources { target: Seq<char>, count: nat },
    /// Two actions write one file.
    ProducedByBoth { path: Seq<char>, first: Seq<char>, second: Seq<char> },
    /// The clean directories of two actions overlap.
    Overlap { dir: Seq<char>, action: Seq<char>, other_dir: Seq<char>, other: Seq<char> },
    /// A clean directory holds a file of the graph.
    Holds { dir: Seq<char>, action: Seq<char>, path: Seq<char> },
}

/// The flags of a profile.
pub struct Flags {
    pub cflags: Seq<Seq<char>>,
    pub cxxflags: Seq<Seq<char>>,
    pub ldflags: Seq<Seq<char>>,
}

/// The flags of a profile.
pub open spec fn flags(p: Profile) -> Flags {
    Flags {
        cflags: texts(p.cflags@),
        cxxflags: texts(p.cxxflags@),
        ldflags: texts(p.ldflags@),
    }
}

/// What all targets of a build are built with.
pub struct Setting {
    pub config: Configuration,
    pub tc: Toolchain,
    pub flags: Flags,
}

/// What a target has from those it depends on: their outputs, and the include
/// directories, libraries and generated files that they export.
pub struct Exports {
    pub dep_outputs: Seq<Seq<char>>,
    pub includes: Seq<Seq<char>>,
    pub libs: Seq<Seq<char>>,
    pub gens: Seq<Seq<char>>,
}

// ---------------------------------------------------------------------------
// Paths
// ---------------------------------------------------------------------------

/// A label without the slashes before it.
pub open spec fn unslashed(label: Seq<char>) -> Seq<char>
    decreases label.len(),
{
    if label.len() >= 2 && label[0] == '/' && label[1] == '/' {
        unslashed(label.skip(2))
    } else {
        label
    }
}

/// A label as one component of a path.
pub open spec fn path_key(label: Seq<char>) -> Seq<char> {
    let s = unslashed(label);
    Seq::new(
        s.len(),
        |i: int|
            if s[i] == ':' || s[i] == '/' {
                '_'
            } else {
                s[i]
            },
    )
}

/// A label as one component of a path.
pub fn key_of(label: &str) -> (r: String)
    ensures
        r@ == path_key(label@),
{
    let a = chars_of(label);
    let mut i: usize = 0;
    assert(a@.skip(0) =~= a@);
    while a.len() - i >= 2 && a[i] == '/' && a[i + 1] == '/'
        invariant
            i <= a.len(),
            unslashed(a@.skip(i as int)) == unslashed(a@),
        decreases a.len() - i,
    {
        assert(a@.skip(i as int).skip(2) =~= a@.skip(i + 2));
        i += 2;
    }
    let ghost s = unslashed(label@);
    assert(s == a@.skip(i as int));
    let mut out = String::new();
    let ghost from = i;
    while i < a.len()
        invariant
            from <= i <= a.len(),
            s == a@.skip(from as int),
            s == unslashed(label@),
            out@ == path_key(label@).take(i - from),
        decreases a.len() - i,
    {
        let c = a[i];
        assert(s[i - from] == c);
        if c == ':' || c == '/' {
            out.push('_');
        } else {
            out.push(c);
        }
        i += 1;
        assert(out@ =~= path_key(label@).take(i - from));
    }
    assert(out@ =~= path_key(label@));
    out
}

/// The program of a target.
pub open spec fn bin_path(config: Configuration, name: Seq<char>) -> Seq<char> {
    BIN_DIR@ + "/"@ + config.tree + "/"@ + path_key(name)
}

/// The library of a target.
pub open spec fn lib_path(config: Configuration, name: Seq<char>) -> Seq<char> {
    LIB_DIR@ + "/"@ + config.tree + "/lib"@ + path_key(name) + ".a"@
}

/// The C code that the Kofun compiler leaves for a target.
pub open spec fn emitted_path(config: Configuration, name: Seq<char>) -> Seq<char> {
    OBJ_DIR@ + "/"@ + config.tree + "/"@ + path_key(name) + "/kofun.c"@
}

/// The object file of a source of a target.
pub open spec fn obj_path(config: Configuration, name: Seq<char>, src: Seq<char>) -> Seq<char> {
    OBJ_DIR@ + "/"@ + config.tree + "/"@ + path_key(name) + "/"@ + src + ".o"@
}

/// The file that says that a test passed.
pub open spec fn stamp_path(config: Configuration, name: Seq<char>) -> Seq<char> {
    ".frost/test/"@ + config.tree + "/"@ + path_key(name) + "/passed"@
}

pub fn bin_of(config: &Config, name: &str) -> (r: String)
    ensures
        r@ == bin_path(config@, name@),
{
    let mut out = copy(BIN_DIR);
    out.append("/");
    out.append(&config.tree);
    out.append("/");
    out.append(&key_of(name));
    out
}

pub fn lib_of(config: &Config, name: &str) -> (r: String)
    ensures
        r@ == lib_path(config@, name@),
{
    let mut out = copy(LIB_DIR);
    out.append("/");
    out.append(&config.tree);
    out.append("/lib");
    out.append(&key_of(name));
    out.append(".a");
    out
}

pub fn emitted_of(config: &Config, name: &str) -> (r: String)
    ensures
        r@ == emitted_path(config@, name@),
{
    let mut out = copy(OBJ_DIR);
    out.append("/");
    out.append(&config.tree);
    out.append("/");
    out.append(&key_of(name));
    out.append("/kofun.c");
    out
}

pub fn obj_of(config: &Config, name: &str, src: &str) -> (r: String)
    ensures
        r@ == obj_path(config@, name@, src@),
{
    let mut out = copy(OBJ_DIR);
    out.append("/");
    out.append(&config.tree);
    out.append("/");
    out.append(&key_of(name));
    out.append("/");
    out.append(src);
    out.append(".o");
    out
}

pub fn stamp_of(config: &Config, name: &str) -> (r: String)
    ensures
        r@ == stamp_path(config@, name@),
{
    let mut out = copy(".frost/test/");
    out.append(&config.tree);
    out.append("/");
    out.append(&key_of(name));
    out.append("/passed");
    out
}

/// A source of C++.
pub open spec fn cxx_source(path: Seq<char>) -> bool {
    let ext = path.skip(last_at(path, '.') + 1);
    last_at(path, '.') >= 0 && (ext == "cc"@ || ext == "cpp"@ || ext == "cxx"@ || ext == "C"@ || ext
        == "c++"@)
}

/// Whether a path is a source of C++.
pub fn is_cxx_source(path: &str) -> (r: bool)
    ensures
        r == cxx_source(path@),
{
    match rsplit_once(path, '.') {
        Some((_, ext)) => same(&ext, "cc") || same(&ext, "cpp") || same(&ext, "cxx") || same(
            &ext,
            "C",
        ) || same(&ext, "c++"),
        None => false,
    }
}

/// A driver that is a file of the workspace, as a list of none or one.
pub open spec fn local_driver(driver: Seq<char>) -> Seq<Seq<char>> {
    if driver.contains('/') && !absolute(driver) {
        seq![driver]
    } else {
        Seq::empty()
    }
}

// ---------------------------------------------------------------------------
// Outputs and exports
// ---------------------------------------------------------------------------

/// Texts with the configuration in them.
pub open spec fn configured(values: Seq<Seq<char>>, config: Configuration) -> Seq<Seq<char>> {
    Seq::new(values.len(), |i: int| config_replaced(values[i], config))
}

/// What those that depend on a target take from it.
#[verifier::opaque]
pub open spec fn target_outputs(config: Configuration, t: Target) -> Seq<Seq<char>> {
    match t.kind {
        TargetKind::Genrule => texts(t.outputs@),
        TargetKind::Command => configured(texts(t.outputs@), config),
        TargetKind::KofunBinary | TargetKind::CcBinary => seq![bin_path(config, t.name@)],
        TargetKind::CcLibrary => seq![lib_path(config, t.name@)],
        TargetKind::Test | TargetKind::CcTest => seq![stamp_path(config, t.name@)],
    }
}

/// The library that a target exports, if it is one.
pub open spec fn own_libs(config: Configuration, t: Target) -> Seq<Seq<char>> {
    if t.kind == TargetKind::CcLibrary {
        seq![lib_path(config, t.name@)]
    } else {
        Seq::empty()
    }
}

/// The generated files that a target exports.
pub open spec fn own_gens(config: Configuration, t: Target) -> Seq<Seq<char>> {
    if t.kind == TargetKind::Genrule || t.kind == TargetKind::Command {
        target_outputs(config, t)
    } else {
        Seq::empty()
    }
}

// ---------------------------------------------------------------------------
// Actions
// ---------------------------------------------------------------------------

/// An empty environment.
pub open spec fn no_env() -> Pairs {
    Pairs { names: Seq::empty(), texts: Seq::empty() }
}

/// An action of a target with nothing but a command, inputs and outputs.
pub open spec fn plain_action(
    t: Target,
    id: Seq<char>,
    desc: Seq<char>,
    kind: ActionKind,
    argv: Seq<Seq<char>>,
    inputs: Seq<Seq<char>>,
    outputs: Seq<Seq<char>>,
) -> Action {
    Action {
        id,
        desc,
        kind,
        target: t.name@,
        sandbox: t.sandbox,
        argv,
        followup_argv: Seq::empty(),
        clean_dirs: Seq::empty(),
        preserve_outputs: false,
        env: no_env(),
        pass_env: Seq::empty(),
        inputs,
        order_only_inputs: Seq::empty(),
        outputs,
        depfile: None,
    }
}

/// A genrule: one shell command.
pub open spec fn genrule_actions(t: Target, x: Exports) -> Result<Seq<Action>, Fault> {
    match genrule_cmd(t.cmd->0@, texts(t.inputs@), texts(t.outputs@)) {
        Err((fault, text)) => Err(Fault::Template(fault, text)),
        Ok(cmd) => Ok(
            seq![
                plain_action(
                    t,
                    "genrule:"@ + t.name@,
                    "GEN "@ + t.name@,
                    ActionKind::Genrule,
                    seq![SHELL@, SHELL_ARG@, cmd],
                    texts(t.inputs@) + x.dep_outputs,
                    texts(t.outputs@),
                ),
            ],
        ),
    }
}

/// A shell test, or a test that runs a named tool directly. Its output is a
/// stamp.
pub open spec fn test_actions(s: Setting, t: Target, x: Exports) -> Result<Seq<Action>, Fault> {
    let id = "test:"@ + t.name@;
    let desc = "TEST "@ + t.name@;
    let inputs = texts(t.inputs@) + x.dep_outputs;
    let outputs = seq![stamp_path(s.config, t.name@)];
    match t.tool {
        None => Ok(
            seq![
                plain_action(
                    t,
                    id,
                    desc,
                    ActionKind::Test,
                    seq![SHELL@, SHELL_ARG@, t.cmd->0@],
                    inputs,
                    outputs,
                ),
            ],
        ),
        Some(tool) => if !s.tc.tools.has(tool@) {
            Err(
                Fault::TestTool { target: t.name@, tool: tool@, configured: s.tc.tools.names() },
            )
        } else {
            let driver = s.tc.tools.at(tool@)@;
            match test_argv(
                driver,
                texts(t.args@),
                texts(t.inputs@),
                x.dep_outputs,
                s.config,
                t.args@.len(),
            ) {
                Err((fault, text)) => Err(Fault::Template(fault, text)),
                Ok(argv) => Ok(
                    seq![
                        Action {
                            env: pairs(t.env),
                            pass_env: texts(t.pass_env@),
                            ..plain_action(
                                t,
                                id,
                                desc,
                                ActionKind::Test,
                                argv,
                                add_new(inputs, local_driver(driver)),
                                outputs,
                            )
                        },
                    ],
                ),
            }
        },
    }
}

/// The further commands of the first `n` steps.
pub open spec fn step_argvs(s: Setting, t: Target, paths: CommandTexts, n: nat) -> Result<
    Seq<Seq<Seq<char>>>,
    Fault,
>
    decreases n,
{
    if n == 0 {
        Ok(Seq::empty())
    } else {
        match step_argvs(s, t, paths, (n - 1) as nat) {
            Err(e) => Err(e),
            Ok(argvs) => {
                let step = t.steps@[n - 1];
                if !s.tc.tools.has(step.tool@) {
                    Err(Fault::StepTool { target: t.name@, tool: step.tool@ })
                } else {
                    match command_argv(
                        s.tc.tools.at(step.tool@)@,
                        texts(step.args@),
                        paths,
                        s.config,
                        step.args@.len(),
                    ) {
                        Err((fault, text)) => Err(Fault::Template(fault, text)),
                        Ok(argv) => Ok(argvs.push(argv)),
                    }
                }
            },
        }
    }
}

/// The drivers of the first `n` steps that are files of the workspace.
pub open spec fn step_drivers(s: Setting, t: Target, n: nat) -> Seq<Seq<char>>
    decreases n,
{
    if n == 0 {
        Seq::empty()
    } else {
        step_drivers(s, t, (n - 1) as nat) + local_driver(s.tc.tools.at(t.steps@[n - 1].tool@)@)
    }
}

/// The path of a depfile with the configuration in it.
pub open spec fn depfile_text(t: Target, config: Configuration) -> Result<
    Option<Seq<char>>,
    (TemplateFault, Seq<char>),
> {
    match t.depfile {
        None => Ok(None),
        Some(path) => match config_text(path@, config) {
            Ok(text) => Ok(Some(text)),
            Err(e) => Err(e),
        },
    }
}

/// What the variables of a command target stand for.
pub open spec fn command_texts(s: Setting, t: Target, x: Exports) -> Result<CommandTexts, Fault> {
    match config_texts(texts(t.outputs@), s.config, t.outputs@.len()) {
        Err((fault, text)) => Err(Fault::Template(fault, text)),
        Ok(outputs) => match depfile_text(t, s.config) {
            Err((fault, text)) => Err(Fault::Template(fault, text)),
            Ok(depfile) => match config_texts(
                texts(t.clean_dirs@),
                s.config,
                t.clean_dirs@.len(),
            ) {
                Err((fault, text)) => Err(Fault::Template(fault, text)),
                Ok(clean_dirs) => Ok(
                    CommandTexts {
                        inputs: texts(t.inputs@),
                        deps: x.dep_outputs,
                        outputs,
                        clean_dirs,
                        depfile,
                    },
                ),
            },
        },
    }
}

/// A named tool with direct arguments, and the steps behind it.
pub open spec fn command_actions(s: Setting, t: Target, x: Exports) -> Result<Seq<Action>, Fault> {
    let tool = t.tool->0@;
    if !s.tc.tools.has(tool) {
        Err(Fault::CommandTool { target: t.name@, tool, configured: s.tc.tools.names() })
    } else {
        let driver = s.tc.tools.at(tool)@;
        match command_texts(s, t, x) {
            Err(e) => Err(e),
            Ok(paths) => match command_argv(
                driver,
                texts(t.args@),
                paths,
                s.config,
                t.args@.len(),
            ) {
                Err((fault, text)) => Err(Fault::Template(fault, text)),
                Ok(argv) => match step_argvs(s, t, paths, t.steps@.len()) {
                    Err(e) => Err(e),
                    Ok(followup_argv) => Ok(
                        seq![
                            Action {
                                id: "command:"@ + t.name@,
                                desc: "RUN "@ + t.name@ + " ["@ + tool + "]"@,
                                kind: ActionKind::Command,
                                target: t.name@,
                                sandbox: t.sandbox,
                                argv,
                                followup_argv,
                                clean_dirs: paths.clean_dirs,
                                preserve_outputs: t.preserve_outputs,
                                env: pairs(t.env),
                                pass_env: texts(t.pass_env@),
                                inputs: add_new(
                                    add_new(
                                        add_new(texts(t.inputs@), local_driver(driver)),
                                        x.dep_outputs,
                                    ),
                                    step_drivers(s, t, t.steps@.len()),
                                ),
                                order_only_inputs: Seq::empty(),
                                outputs: paths.outputs,
                                depfile: paths.depfile,
                            },
                        ],
                    ),
                },
            },
        }
    }
}

/// A Kofun program: one compilation that also leaves its C code.
pub open spec fn kofun_actions(s: Setting, t: Target, x: Exports) -> Result<Seq<Action>, Fault> {
    if s.tc.kofunc is None {
        Err(Fault::NoKofunc(t.name@))
    } else if t.srcs@.len() != 1 {
        Err(Fault::KofunSources { target: t.name@, count: t.srcs@.len() })
    } else {
        let source = t.srcs@[0]@;
        let bin = bin_path(s.config, t.name@);
        let emitted = emitted_path(s.config, t.name@);
        Ok(
            seq![
                plain_action(
                    t,
                    "kofun:"@ + t.name@,
                    "KOFUN "@ + source + " ("@ + t.name@ + ")"@,
                    ActionKind::KofunCompile,
                    seq![s.tc.kofunc->0@, "build"@, source, "-o"@, bin, "--emit-c"@, emitted],
                    add_new(seq![source], x.dep_outputs),
                    seq![bin, emitted],
                ),
            ],
        )
    }
}

/// The flags that name include directories.
pub open spec fn include_flags(dirs: Seq<Seq<char>>) -> Seq<Seq<char>> {
    Seq::new(dirs.len(), |i: int| "-I"@ + dirs[i])
}

/// The compilation of one source. Generated files must be there before it,
/// but do not belong to what it is made from.
pub open spec fn compile_action(s: Setting, t: Target, x: Exports, src: Seq<char>) -> Action {
    let obj = obj_path(s.config, t.name@, src);
    let depfile = obj + ".d"@;
    let driver = if cxx_source(src) {
        s.tc.cxx@
    } else {
        s.tc.cc@
    };
    let cxxflags = if cxx_source(src) {
        texts(s.tc.cxxflags@) + s.flags.cxxflags
    } else {
        Seq::empty()
    };
    Action {
        order_only_inputs: x.gens,
        depfile: Some(depfile),
        ..plain_action(
            t,
            "compile:"@ + t.name@ + ":"@ + src,
            "CC "@ + src + " ("@ + t.name@ + ")"@,
            ActionKind::Compile,
            seq![driver] + (texts(s.tc.cflags@) + s.flags.cflags + texts(t.cflags@)) + cxxflags
                + include_flags(x.includes) + seq![
                "-MD"@,
                "-MF"@,
                depfile,
                "-c"@,
                src,
                "-o"@,
                obj,
            ],
            seq![src],
            seq![obj],
        )
    }
}

/// The object files of a target.
pub open spec fn objects(config: Configuration, t: Target) -> Seq<Seq<char>> {
    Seq::new(t.srcs@.len(), |i: int| obj_path(config, t.name@, t.srcs@[i]@))
}

/// The library made of the objects of a target.
pub open spec fn archive_action(s: Setting, t: Target) -> Action {
    let lib = lib_path(s.config, t.name@);
    plain_action(
        t,
        "archive:"@ + t.name@,
        "AR lib"@ + t.name@ + ".a"@,
        ActionKind::Archive,
        seq![s.tc.ar@] + texts(s.tc.arflags@) + seq![lib] + objects(s.config, t),
        objects(s.config, t),
        seq![lib],
    )
}

/// The target has a source of C++.
pub open spec fn any_cxx(t: Target) -> bool {
    exists|i: int| 0 <= i < t.srcs@.len() && cxx_source((#[trigger] t.srcs@[i])@)
}

/// The program made of the objects of a target and the libraries it depends
/// on.
pub open spec fn link_action(s: Setting, t: Target, x: Exports) -> Action {
    let bin = bin_path(s.config, t.name@);
    let driver = if any_cxx(t) {
        s.tc.cxx@
    } else {
        s.tc.cc@
    };
    plain_action(
        t,
        "link:"@ + t.name@,
        "LINK "@ + t.name@,
        ActionKind::Link,
        seq![driver] + objects(s.config, t) + x.libs + texts(s.tc.ldflags@) + s.flags.ldflags
            + texts(t.ldflags@) + seq!["-o"@, bin],
        objects(s.config, t) + x.libs,
        seq![bin],
    )
}

/// The run of a test program.
pub open spec fn run_action(s: Setting, t: Target) -> Action {
    let bin = bin_path(s.config, t.name@);
    plain_action(
        t,
        "test:"@ + t.name@,
        "TEST "@ + t.name@,
        ActionKind::Test,
        seq![bin],
        seq![bin],
        seq![stamp_path(s.config, t.name@)],
    )
}

/// The compilations of the first `n` sources of a target.
pub open spec fn compile_actions(s: Setting, t: Target, x: Exports, n: nat) -> Seq<Action> {
    Seq::new(n, |i: int| compile_action(s, t, x, t.srcs@[i]@))
}

/// A C or C++ target: one compilation per source, then a library or a
/// program, and for a test its run.
pub open spec fn cc_actions(s: Setting, t: Target, x: Exports) -> Seq<Action> {
    compile_actions(s, t, x, t.srcs@.len()) + (match t.kind {
        TargetKind::CcLibrary => seq![archive_action(s, t)],
        TargetKind::CcTest => seq![link_action(s, t, x), run_action(s, t)],
        _ => seq![link_action(s, t, x)],
    })
}

/// The actions of a target, or why it has none.
pub open spec fn target_actions(s: Setting, t: Target, x: Exports) -> Result<Seq<Action>, Fault> {
    match t.kind {
        TargetKind::Genrule => genrule_actions(t, x),
        TargetKind::Test => test_actions(s, t, x),
        TargetKind::Command => command_actions(s, t, x),
        TargetKind::KofunBinary => kofun_actions(s, t, x),
        _ => Ok(cc_actions(s, t, x)),
    }
}

/// The files that compiling the first `n` sources names.
pub open spec fn compile_files(config: Configuration, t: Target, x: Exports, n: nat) -> Seq<
    Seq<char>,
>
    decreases n,
{
    if n == 0 {
        Seq::empty()
    } else {
        let src = t.srcs@[n - 1]@;
        compile_files(config, t, x, (n - 1) as nat) + seq![src] + x.gens + seq![
            obj_path(config, t.name@, src),
        ]
    }
}

/// The files that the actions of a target name, in the order in which the
/// graph comes to know them.
#[verifier::opaque]
pub open spec fn target_files(s: Setting, t: Target, x: Exports) -> Seq<Seq<char>> {
    let name = t.name@;
    match t.kind {
        TargetKind::Genrule => texts(t.inputs@) + texts(t.outputs@),
        TargetKind::Test => texts(t.inputs@) + seq![stamp_path(s.config, name)] + (match t.tool {
            Some(tool) => local_driver(s.tc.tools.at(tool@)@),
            None => Seq::empty(),
        }),
        TargetKind::Command => texts(t.inputs@) + local_driver(s.tc.tools.at(t.tool->0@)@)
            + step_drivers(s, t, t.steps@.len()) + configured(texts(t.outputs@), s.config),
        TargetKind::KofunBinary => seq![
            t.srcs@[0]@,
            bin_path(s.config, name),
            emitted_path(s.config, name),
        ],
        TargetKind::CcLibrary => compile_files(s.config, t, x, t.srcs@.len()) + seq![
            lib_path(s.config, name),
        ],
        TargetKind::CcBinary => compile_files(s.config, t, x, t.srcs@.len()) + x.libs + seq![
            bin_path(s.config, name),
        ],
        TargetKind::CcTest => compile_files(s.config, t, x, t.srcs@.len()) + x.libs + seq![
            bin_path(s.config, name),
            stamp_path(s.config, name),
        ],
    }
}

// ---------------------------------------------------------------------------
// Where files go
// ---------------------------------------------------------------------------

/// What is a source of C++ is told by what stands behind the last dot.
pub proof fn extension_tells_cxx(path: &str, r: bool, stem: Seq<char>, ext: Seq<char>)
    requires
        call_ensures(is_cxx_source, (path,), r),
    ensures
        path@ == stem + "."@ + ext && !ext.contains('.') ==> (r <==> ext == "cc"@ || ext == "cpp"@
            || ext == "cxx"@ || ext == "C"@ || ext == "c++"@),
        !path@.contains('.') ==> !r,
{
    reveal_strlit(".");
    if path@ == stem + "."@ + ext && !ext.contains('.') {
        let s = path@;
        assert forall|i: int| stem.len() < i < s.len() implies s[i] != '.' by {
            assert(ext.contains(ext[i - stem.len() - 1]));
        }
        crate::text::last_at_is(s, '.', stem.len() as int);
        assert(s.skip(stem.len() as int + 1) =~= ext);
    }
    if !path@.contains('.') {
        crate::text::last_at_means(path@, '.');
        if last_at(path@, '.') >= 0 {
            assert(path@[last_at(path@, '.')] == '.');
        }
    }
}

/// A name that is no label is its own key, and every slash and colon of a label
/// becomes an underscore: a key is one component of a path.
pub proof fn keys_are_components(name: &str, r: String)
    requires
        call_ensures(key_of, (name,), r),
    ensures
        !name@.contains(':') && !name@.contains('/') ==> r@ == name@,
        !r@.contains('/') && !r@.contains(':'),
{
    if !name@.contains(':') && !name@.contains('/') {
        let s = name@;
        if s.len() >= 2 {
            assert(s.contains(s[0]));
        }
        assert(unslashed(s) == s);
        assert forall|i: int| 0 <= i < s.len() implies s[i] != ':' && s[i] != '/' by {
            assert(s.contains(s[i]));
        }
        assert(r@ =~= s);
    }
}

/// Two sources of a target have objects of their own, each by the source's name.
pub proof fn objects_are_apart(
    config: Config,
    name: &str,
    a: &str,
    b: &str,
    x: String,
    y: String,
)
    requires
        call_ensures(obj_of, (&config, name, a), x),
        call_ensures(obj_of, (&config, name, b), y),
    ensures
        x@ == y@ ==> a@ == b@,
        ends(x@, a@ + ".o"@),
{
    reveal_strlit(".o");
    let head = OBJ_DIR@ + "/"@ + config@.tree + "/"@ + path_key(name@) + "/"@;
    assert(x@ =~= head + (a@ + ".o"@));
    assert(y@ =~= head + (b@ + ".o"@));
    let told = a@ + ".o"@;
    assert(x@.subrange(x@.len() - told.len(), x@.len() as int) =~= told);
    if x@ == y@ {
        assert(a@.len() == b@.len());
        assert(a@ =~= x@.subrange(head.len() as int, head.len() as int + a@.len()));
        assert(b@ =~= y@.subrange(head.len() as int, head.len() as int + b@.len()));
    }
}

} // verus!
