use frostbuild::commands::{
    answer, answer_file, clean_configurations, clean_files, clean_trees, compdb, compdb_file,
    graph_lines, is_noop_record, pick_rows, picked, platform_lines, platforms_to_build,
    record_lines, Answer, PlatformResult, Query,
};
use frostbuild::completion::test_names;
use frostbuild::doctor::{doctor_file, doctor_lines, inspected, optional_tools, required_tools};
use frostbuild::editor::{launch_file, tasks_file, vscode_files, EditorError, Launch};
use frostbuild::execution::{altered_outputs, state_of, undeclared, Execution, Verdict};
use frostbuild::graph::{BuildGraph, GraphError};
use frostbuild::graph_store::GraphStore;
use frostbuild::journal::{Journal, JournalEntry};
use frostbuild::json::Json;
use frostbuild::launch::{debuggable, runner_missing, sole_target, target_runtime_output};
use frostbuild::query::run_order;
use frostbuild::report::{select_targets, Outcome, SelectError};
use frostbuild::request::{resolve_targets, BuildRequest};
use frostbuild::watch::watch_exclusions;
use frostbuild::manifest::{Manifest, Platform, Profile, Step, TargetKind};
use frostbuild::raw::{ManifestError, RawManifest, RawTarget, RawToolchain};
use frostbuild::rules::{ActionKind, BIN_DIR, LIB_DIR, OBJ_DIR};
use frostbuild::sorted_map::SortedMap;

fn strings(table: &toml::Table, key: &str) -> Vec<String> {
    match table.get(key) {
        Some(value) => value
            .as_array()
            .unwrap()
            .iter()
            .map(|item| item.as_str().unwrap().to_string())
            .collect(),
        None => Vec::new(),
    }
}

fn string(table: &toml::Table, key: &str) -> Option<String> {
    table
        .get(key)
        .map(|value| value.as_str().unwrap().to_string())
}

fn texts(table: &toml::Table, key: &str) -> SortedMap<String> {
    let mut out = SortedMap::new();
    if let Some(value) = table.get(key) {
        for (name, text) in value.as_table().unwrap() {
            out.insert(name.clone(), text.as_str().unwrap().to_string());
        }
    }
    out
}

fn kind(name: &str) -> TargetKind {
    match name {
        "cc_binary" => TargetKind::CcBinary,
        "cc_library" => TargetKind::CcLibrary,
        "cc_test" => TargetKind::CcTest,
        "genrule" => TargetKind::Genrule,
        "test" => TargetKind::Test,
        "kofun_binary" => TargetKind::KofunBinary,
        "command" => TargetKind::Command,
        other => panic!("unknown kind {other}"),
    }
}

fn raw_target(table: &toml::Table) -> RawTarget {
    let mut steps = Vec::new();
    if let Some(value) = table.get("steps") {
        for step in value.as_array().unwrap() {
            let step = step.as_table().unwrap();
            steps.push(Step {
                tool: string(step, "tool").unwrap(),
                args: strings(step, "args"),
            });
        }
    }
    RawTarget {
        kind: kind(table["kind"].as_str().unwrap()),
        srcs: strings(table, "srcs"),
        deps: strings(table, "deps"),
        includes: strings(table, "includes"),
        cflags: strings(table, "cflags"),
        ldflags: strings(table, "ldflags"),
        cmd: string(table, "cmd"),
        tool: string(table, "tool"),
        args: strings(table, "args"),
        steps,
        inputs: strings(table, "inputs"),
        outputs: strings(table, "outputs"),
        depfile: string(table, "depfile"),
        clean_dirs: strings(table, "clean_dirs"),
        preserve_outputs: table
            .get("preserve_outputs")
            .is_some_and(|value| value.as_bool().unwrap()),
        env: texts(table, "env"),
        pass_env: strings(table, "pass_env"),
        sandbox: table.get("sandbox").map(|value| value.as_bool().unwrap()),
    }
}

fn arflags(table: &toml::Table) -> Option<Vec<String>> {
    table.get("arflags").map(|_| strings(table, "arflags"))
}

fn sections(root: &toml::Table, key: &str) -> Vec<(String, toml::Table)> {
    match root.get(key) {
        Some(value) => value
            .as_table()
            .unwrap()
            .iter()
            .map(|(name, section)| (name.clone(), section.as_table().unwrap().clone()))
            .collect(),
        None => Vec::new(),
    }
}

fn parse_str(text: &str) -> Result<Manifest, ManifestError> {
    let root: toml::Table = toml::from_str(text).unwrap();
    let empty = toml::Table::new();
    let workspace = root
        .get("workspace")
        .map_or(&empty, |value| value.as_table().unwrap());
    let tools = root
        .get("toolchain")
        .map_or(&empty, |value| value.as_table().unwrap());
    let mut platforms = SortedMap::new();
    for (name, section) in sections(&root, "platform") {
        platforms.insert(
            name,
            Platform {
                cc: string(&section, "cc"),
                cxx: string(&section, "cxx"),
                ar: string(&section, "ar"),
                kofunc: string(&section, "kofunc"),
                arflags: arflags(&section),
                sysroot: string(&section, "sysroot"),
                cflags: strings(&section, "cflags"),
                cxxflags: strings(&section, "cxxflags"),
                ldflags: strings(&section, "ldflags"),
                tools: texts(&section, "tools"),
            },
        );
    }
    let mut profiles = SortedMap::new();
    for (name, section) in sections(&root, "profile") {
        profiles.insert(
            name,
            Profile {
                cflags: strings(&section, "cflags"),
                cxxflags: strings(&section, "cxxflags"),
                ldflags: strings(&section, "ldflags"),
            },
        );
    }
    let mut targets = SortedMap::new();
    for (name, section) in sections(&root, "target") {
        targets.insert(name, raw_target(&section));
    }
    Manifest::from_raw(&RawManifest {
        default_targets: strings(workspace, "default_targets"),
        toolchain: RawToolchain {
            cc: string(tools, "cc"),
            cxx: string(tools, "cxx"),
            ar: string(tools, "ar"),
            kofunc: string(tools, "kofunc"),
            arflags: arflags(tools),
            cflags: strings(tools, "cflags"),
            cxxflags: strings(tools, "cxxflags"),
            ldflags: strings(tools, "ldflags"),
            tools: texts(tools, "tools"),
        },
        platforms,
        profiles,
        targets,
    })
}


fn demo_manifest() -> Manifest {
    parse_str(
        r#"
        [toolchain]
        cc = "cc"

        [target.gen]
        kind = "genrule"
        cmd = "sh gen.sh ${out}"
        inputs = ["gen.sh"]
        outputs = ["gen/config.h"]
        includes = ["gen"]

        [target.util]
        kind = "cc_library"
        srcs = ["src/util.c"]
        includes = ["include"]

        [target.app]
        kind = "cc_binary"
        srcs = ["src/main.c"]
        deps = ["util", "gen"]
        "#,
    )
    .unwrap()
}

#[test]
fn builds_expected_actions() {
    let graph = BuildGraph::from_manifest(&demo_manifest()).unwrap();
    let ids: Vec<&str> = graph.actions.iter().map(|a| a.id.as_str()).collect();
    assert!(ids.contains(&"genrule:gen"));
    assert!(ids.contains(&"compile:util:src/util.c"));
    assert!(ids.contains(&"archive:util"));
    assert!(ids.contains(&"compile:app:src/main.c"));
    assert!(ids.contains(&"link:app"));
}

#[test]
fn kofun_binary_is_one_cacheable_action_with_declared_artifacts() {
    let manifest = parse_str(
        r#"
        [toolchain]
        kofunc = "tools/kofun"

        [target.generated]
        kind = "genrule"
        cmd = "generate ${out}"
        inputs = ["schema.txt"]
        outputs = ["generated/data.txt"]

        [target.app]
        kind = "kofun_binary"
        srcs = ["src/main.kofun"]
        deps = ["generated"]
        "#,
    )
    .unwrap();
    let graph = BuildGraph::from_manifest(&manifest).unwrap();
    let action = graph.actions.iter().find(|a| a.id == "kofun:app").unwrap();
    assert_eq!(action.kind, ActionKind::KofunCompile);
    assert_eq!(
        action.argv,
        vec![
            "tools/kofun",
            "build",
            "src/main.kofun",
            "-o",
            ".frost/bin/debug/app",
            "--emit-c",
            ".frost/obj/debug/app/kofun.c",
        ]
    );
    assert_eq!(action.depfile, None);
    let inputs = action
        .inputs
        .iter()
        .map(|&id| graph.files[id].path.as_str())
        .collect::<Vec<_>>();
    assert_eq!(inputs, vec!["src/main.kofun", "generated/data.txt"]);
    let outputs = action
        .outputs
        .iter()
        .map(|&id| graph.files[id].path.as_str())
        .collect::<Vec<_>>();
    assert_eq!(
        outputs,
        vec![".frost/bin/debug/app", ".frost/obj/debug/app/kofun.c"]
    );
    assert_eq!(
        graph.targets.get("app").unwrap()
            .outputs
            .iter()
            .map(|&id| graph.files[id].path.as_str())
            .collect::<Vec<_>>(),
        vec![".frost/bin/debug/app"]
    );
    assert!(
        graph.to_dot().contains("\"app\" [shape=box]"),
        "{}",
        graph.to_dot()
    );
}

#[test]
fn command_target_expands_direct_argv_and_configuration_paths() {
    let manifest = parse_str(
        r#"
        [toolchain.tools]
        runner = "tools/runner"
        packer = "tools/packer"

        [platform.device.tools]
        runner = "tools/device-runner"
        packer = "tools/device-packer"

        [target.generate]
        kind = "genrule"
        cmd = "generate ${out}"
        inputs = ["schema.txt"]
        outputs = ["generated/data.txt"]

        [target.app]
        kind = "command"
        tool = "runner"
        args = ["--input", "${in}", "--deps", "${deps}", "--output", "${out}",
                "--output-dir", "${out_dir}", "--depfile", "${depfile}",
                "--temp", "${clean_dir}", "--platform", "${platform}"]
        inputs = ["src/app.lang"]
        outputs = [".frost/out/${config}/app.bin"]
        depfile = ".frost/out/${config}/app.d"
        clean_dirs = [".frost/tmp/${config}/app"]
        preserve_outputs = true
        steps = [{ tool = "packer", args = ["${out}", "${clean_dirs}", "${config}"] }]
        deps = ["generate"]
        env = { MODE = "release" }
        pass_env = ["LANG_HOME"]
        sandbox = false
        "#,
    )
    .unwrap();
    let graph = BuildGraph::from_manifest_configured(&manifest, "debug", "device").unwrap();
    let action = graph
        .actions
        .iter()
        .find(|action| action.id == "command:app")
        .unwrap();
    assert_eq!(action.kind, ActionKind::Command);
    assert_eq!(
        action.argv,
        vec![
            "tools/device-runner",
            "--input",
            "src/app.lang",
            "--deps",
            "generated/data.txt",
            "--output",
            ".frost/out/device/debug/app.bin",
            "--output-dir",
            ".frost/out/device/debug",
            "--depfile",
            ".frost/out/device/debug/app.d",
            "--temp",
            ".frost/tmp/device/debug/app",
            "--platform",
            "device",
        ]
    );
    assert_eq!(action.env.get("MODE").unwrap(), "release");
    assert_eq!(action.pass_env, vec!["LANG_HOME"]);
    assert!(action.preserve_outputs);
    assert_eq!(
        action.followup_argv,
        vec![vec![
            "tools/device-packer",
            ".frost/out/device/debug/app.bin",
            ".frost/tmp/device/debug/app",
            "device/debug",
        ]]
    );
    assert_eq!(action.clean_dirs, vec![".frost/tmp/device/debug/app"]);
    assert_eq!(
        action.depfile.as_deref(),
        Some(".frost/out/device/debug/app.d")
    );
    let inputs = action
        .inputs
        .iter()
        .map(|&id| graph.files[id].path.as_str())
        .collect::<Vec<_>>();
    assert_eq!(
        inputs,
        vec![
            "src/app.lang",
            "tools/device-runner",
            "generated/data.txt",
            "tools/device-packer"
        ]
    );
}

#[test]
fn direct_test_uses_named_tool_and_executor_owned_success_stamp() {
    let manifest = parse_str(
        r#"
        [toolchain.tools]
        python = "tools/python"

        [target.generated]
        kind = "genrule"
        cmd = "generate ${out}"
        inputs = ["schema.txt"]
        outputs = ["generated/value.py"]

        [target.unit]
        kind = "test"
        tool = "python"
        args = ["tests/unit.py", "${in}", "${deps}", "${profile}"]
        inputs = ["tests/unit.py"]
        deps = ["generated"]
        env = { PYTHONHASHSEED = "0" }
        pass_env = ["PYTHONPATH"]
        sandbox = false
        "#,
    )
    .unwrap();
    let graph = BuildGraph::from_manifest(&manifest).unwrap();
    let action = graph
        .actions
        .iter()
        .find(|action| action.id == "test:unit")
        .unwrap();
    assert_eq!(action.kind, ActionKind::Test);
    assert_eq!(
        action.argv,
        [
            "tools/python",
            "tests/unit.py",
            "tests/unit.py",
            "generated/value.py",
            "debug"
        ]
    );
    assert_eq!(action.env.get("PYTHONHASHSEED").unwrap(), "0");
    assert_eq!(action.pass_env, ["PYTHONPATH"]);
    assert!(action.followup_argv.is_empty());
    assert_eq!(
        graph.files[action.outputs[0]].path,
        ".frost/test/debug/unit/passed"
    );
}

#[test]
fn command_clean_dirs_cannot_overlap_between_actions() {
    let manifest = parse_str(
        r#"
        [toolchain.tools]
        runner = "runner"

        [target.first]
        kind = "command"
        tool = "runner"
        args = ["${out}"]
        outputs = [".frost/out/${config}/first.bin"]
        clean_dirs = [".frost/tmp/${config}/shared"]

        [target.second]
        kind = "command"
        tool = "runner"
        args = ["${out}"]
        outputs = [".frost/out/${config}/second.bin"]
        clean_dirs = [".frost/tmp/${config}/shared/nested"]
        "#,
    )
    .unwrap();
    let error = BuildGraph::from_manifest(&manifest)
        .unwrap_err()
        .message();
    assert!(error.contains("overlaps"), "{error}");
    assert!(error.contains("command:first"), "{error}");
    assert!(error.contains("command:second"), "{error}");
}

#[test]
fn command_clean_dirs_cannot_contain_declared_graph_paths() {
    let manifest = parse_str(
        r#"
        [toolchain.tools]
        runner = "runner"

        [target.app]
        kind = "command"
        tool = "runner"
        args = ["${out}"]
        outputs = [".frost/tmp/${config}/app/final.bin"]
        clean_dirs = [".frost/tmp/${config}/app"]
        "#,
    )
    .unwrap();
    let error = BuildGraph::from_manifest(&manifest)
        .unwrap_err()
        .message();
    assert!(error.contains("contains declared graph path"), "{error}");
    assert!(error.contains("undeclared intermediates"), "{error}");
}

#[test]
fn command_clean_dir_placeholder_requires_an_owned_directory() {
    let manifest = parse_str(
        r#"
        [toolchain.tools]
        runner = "runner"

        [target.app]
        kind = "command"
        tool = "runner"
        args = ["--temp", "${clean_dir}", "${out}"]
        outputs = [".frost/out/${config}/app.bin"]
        "#,
    )
    .unwrap();
    let error = BuildGraph::from_manifest(&manifest)
        .unwrap_err()
        .message();
    assert!(error.contains("no clean_dirs are configured"), "{error}");
}

#[test]
fn kofun_binary_requires_an_explicit_compiler() {
    let manifest =
        parse_str("[target.app]\nkind='kofun_binary'\nsrcs=['main.kofun']\n")
            .unwrap();
    let error = BuildGraph::from_manifest(&manifest)
        .unwrap_err()
        .message();
    assert!(error.contains("does not configure kofunc"), "{error}");
}

#[test]
fn compile_gets_dep_includes_and_gen_inputs() {
    let graph = BuildGraph::from_manifest(&demo_manifest()).unwrap();
    let compile = graph
        .actions
        .iter()
        .find(|a| a.id == "compile:app:src/main.c")
        .unwrap();
    assert!(compile.argv.contains(&"-Iinclude".to_string()));
    assert!(compile.argv.contains(&"-Igen".to_string()));
    let input_paths: Vec<&str> = compile
        .order_only_inputs
        .iter()
        .map(|&f| graph.files[f].path.as_str())
        .collect();
    assert!(input_paths.contains(&"gen/config.h"));
}

#[test]
fn link_orders_after_archive() {
    let graph = BuildGraph::from_manifest(&demo_manifest()).unwrap();
    let link = graph.actions.iter().find(|a| a.id == "link:app").unwrap();
    let lib = format!("{LIB_DIR}/debug/libutil.a");
    assert!(link.argv.contains(&lib));
    let input_paths: Vec<&str> = link
        .inputs
        .iter()
        .map(|&f| graph.files[f].path.as_str())
        .collect();
    assert!(input_paths.contains(&lib.as_str()));
}

#[test]
fn closure_selects_only_needed_actions() {
    let graph = BuildGraph::from_manifest(&demo_manifest()).unwrap();
    let closure = graph.action_closure(&vec!["util".to_string()]).unwrap();
    let ids: Vec<&str> = closure
        .iter()
        .map(|&a| graph.actions[a].id.as_str())
        .collect();
    assert!(ids.contains(&"compile:util:src/util.c"));
    assert!(ids.contains(&"archive:util"));
    assert!(!ids.contains(&"link:app"));
    assert!(!ids.contains(&"genrule:gen"));
}

#[test]
fn query_closures_and_somepath() {
    let graph = BuildGraph::from_manifest(&demo_manifest()).unwrap();
    assert_eq!(
        graph.deps_closure("app").unwrap(),
        vec!["app", "gen", "util"]
    );
    assert_eq!(graph.deps_closure("util").unwrap(), vec!["util"]);
    assert_eq!(graph.rdeps_closure("util").unwrap(), vec!["app", "util"]);
    assert_eq!(
        graph.somepath("app", "gen").unwrap(),
        Some(vec!["app".to_string(), "gen".to_string()])
    );
    assert_eq!(graph.somepath("util", "gen").unwrap(), None);
    assert!(graph.deps_closure("nope").is_err());
}

#[test]
fn platform_isolates_paths_and_selects_toolchain() {
    let manifest = parse_str(
        r#"
        [toolchain]
        cc = "cc"

        [platform.cross]
        cc = "cross-gcc"
        ar = "cross-ar"
        arflags = ["rcs"]

        [target.util]
        kind = "cc_library"
        srcs = ["src/util.c"]

        [target.app]
        kind = "cc_binary"
        srcs = ["src/main.c"]
        deps = ["util"]
        "#,
    )
    .unwrap();
    let graph = BuildGraph::from_manifest_configured(&manifest, "debug", "cross").unwrap();
    assert_eq!(graph.platform, "cross");

    let compile = graph
        .actions
        .iter()
        .find(|a| a.id == "compile:app:src/main.c")
        .unwrap();
    assert_eq!(compile.argv[0], "cross-gcc");
    let obj = format!("{OBJ_DIR}/cross/debug/app/src/main.c.o");
    assert!(compile.argv.contains(&obj), "argv: {:?}", compile.argv);

    let archive = graph
        .actions
        .iter()
        .find(|a| a.id == "archive:util")
        .unwrap();
    assert_eq!(archive.argv[0], "cross-ar");
    assert_eq!(archive.argv[1], "rcs");
    assert!(archive
        .argv
        .contains(&format!("{LIB_DIR}/cross/debug/libutil.a")));

    let link = graph.actions.iter().find(|a| a.id == "link:app").unwrap();
    assert!(link.argv.contains(&format!("{BIN_DIR}/cross/debug/app")));

    // The host graph keeps historical platform-free paths.
    let host = BuildGraph::from_manifest_with_profile(&manifest, "debug").unwrap();
    let host_link = host.actions.iter().find(|a| a.id == "link:app").unwrap();
    assert!(host_link.argv.contains(&format!("{BIN_DIR}/debug/app")));
}

#[test]
fn platform_selects_kofun_compiler_and_output_tree() {
    let manifest = parse_str(
        r#"
        [toolchain]
        kofunc = "host-kofun"

        [platform.device]
        kofunc = "device-kofun"

        [target.app]
        kind = "kofun_binary"
        srcs = ["main.kofun"]
        "#,
    )
    .unwrap();
    let graph = BuildGraph::from_manifest_configured(&manifest, "release", "device").unwrap();
    let action = graph.actions.iter().find(|a| a.id == "kofun:app").unwrap();
    assert_eq!(action.argv[0], "device-kofun");
    assert!(action
        .argv
        .contains(&format!("{BIN_DIR}/device/release/app")));
    assert!(action
        .argv
        .contains(&format!("{OBJ_DIR}/device/release/app/kofun.c")));
}

#[test]
fn an_undeclared_profile_is_a_typo_not_a_silent_new_tree() {
    let manifest = parse_str(
        r#"
        [profile.release]
        cflags = ["-O2"]

        [target.app]
        kind = "cc_binary"
        srcs = ["a.c"]
        "#,
    )
    .unwrap();
    let err = BuildGraph::from_manifest_with_profile(&manifest, "relase")
        .unwrap_err()
        .message();
    assert!(err.contains("did you mean"), "{err}");
    assert!(err.contains("release"), "{err}");

    // debug always works, declared or not: it is the default.
    assert!(BuildGraph::from_manifest_with_profile(&manifest, "debug").is_ok());
    assert!(BuildGraph::from_manifest_with_profile(&manifest, "release").is_ok());

    // A workspace that declares no profiles keeps naming trees freely.
    let bare = parse_str("[target.app]\nkind='cc_binary'\nsrcs=['a.c']\n").unwrap();
    assert!(BuildGraph::from_manifest_with_profile(&bare, "scratch").is_ok());
}

#[test]
fn detects_dependency_cycle() {
    let manifest = parse_str(
        r#"
        [target.a]
        kind = "cc_library"
        srcs = ["a.c"]
        deps = ["b"]

        [target.b]
        kind = "cc_library"
        srcs = ["b.c"]
        deps = ["a"]
        "#,
    )
    .unwrap();
    let err = BuildGraph::from_manifest(&manifest)
        .unwrap_err()
        .message();
    assert!(err.contains("dependency cycle"), "{err}");
}

#[test]
fn rejects_duplicate_outputs() {
    let manifest = parse_str(
        r#"
        [target.g1]
        kind = "genrule"
        cmd = "true"
        outputs = ["gen/same.h"]

        [target.g2]
        kind = "genrule"
        cmd = "true"
        outputs = ["gen/same.h"]
        "#,
    )
    .unwrap();
    let err = BuildGraph::from_manifest(&manifest)
        .unwrap_err()
        .message();
    assert!(err.contains("produced by both"), "{err}");
}

#[test]
fn unknown_target_in_closure_errors() {
    let graph = BuildGraph::from_manifest(&demo_manifest()).unwrap();
    assert!(graph.action_closure(&vec!["nope".to_string()]).is_err());
}

fn query_manifest() -> Manifest {
    parse_str(
        r#"
        [workspace]
        default_targets = ["app"]

        [target.gen_config]
        kind = "genrule"
        cmd = "sh tools/gen_config.sh ${out}"
        inputs = ["tools/gen_config.sh"]
        outputs = ["gen/config.h"]
        includes = ["gen"]

        [target.util]
        kind = "cc_library"
        srcs = ["src/util.c"]

        [target.app]
        kind = "cc_binary"
        srcs = ["src/main.c"]
        deps = ["util", "gen_config"]

        [target.unit]
        kind = "cc_test"
        srcs = ["src/unit.c"]
        deps = ["util"]
        "#,
    )
    .unwrap()
}

fn somepath(from: &str, to: &str) -> Query {
    Query::Somepath {
        from: from.to_string(),
        to: to.to_string(),
    }
}

#[test]
fn query_deps_rdeps_somepath() {
    let graph = BuildGraph::from_manifest(&query_manifest()).unwrap();
    let told = |query: Query| match answer(&graph, &query).unwrap() {
        Answer::Targets { query, names } => (query, names),
        Answer::NoPath { message } => (message, Vec::new()),
    };
    let (_, names) = told(Query::Deps {
        target: "app".to_string(),
    });
    assert_eq!(names, ["app", "gen_config", "util"]);
    let (_, names) = told(Query::Rdeps {
        target: "gen_config".to_string(),
    });
    assert_eq!(names, ["app", "gen_config"]);
    let (query, names) = told(somepath("app", "gen_config"));
    assert_eq!(query, "somepath(app, gen_config)");
    assert_eq!(names[0], "app");
    let (message, _) = told(somepath("util", "gen_config"));
    assert!(message.contains("no path"), "{message}");
    assert_eq!(
        answer(&graph, &somepath("app", "nope")).unwrap_err().name,
        "nope"
    );
}

#[test]
fn a_path_takes_the_first_dependency_that_leads_on() {
    let manifest = parse_str(
        r#"
        [target.a]
        kind = "cc_library"
        srcs = ["a.c"]
        deps = ["b", "c", "d"]

        [target.b]
        kind = "cc_library"
        srcs = ["b.c"]

        [target.c]
        kind = "cc_library"
        srcs = ["c.c"]
        deps = ["d"]

        [target.d]
        kind = "cc_library"
        srcs = ["d.c"]
        "#,
    )
    .unwrap();
    let graph = BuildGraph::from_manifest(&manifest).unwrap();
    assert_eq!(graph.somepath("a", "d").unwrap().unwrap(), ["a", "c", "d"]);
}

#[test]
fn actions_come_after_what_they_need() {
    let graph = BuildGraph::from_manifest(&query_manifest()).unwrap();
    let closure = graph
        .action_closure(&vec!["app".to_string(), "unit".to_string()])
        .unwrap();
    for (at, &action) in closure.iter().enumerate() {
        for &input in &graph.actions[action].inputs {
            if let Some(producer) = graph.files[input].producer {
                assert!(closure[..at].contains(&producer));
            }
        }
    }
}

#[test]
fn a_file_is_written_before_it_is_read() {
    let graph = BuildGraph::from_manifest(
        &parse_str(
            "[target.a]\nkind='genrule'\ncmd='true'\ninputs=['z.out']\noutputs=['a.out']\n\
             [target.z]\nkind='genrule'\ncmd='true'\noutputs=['z.out']\n",
        )
        .unwrap(),
    )
    .unwrap();
    let closure = graph.action_closure(&vec!["a".to_string()]).unwrap();
    let ids: Vec<&str> = closure.iter().map(|&i| graph.actions[i].id.as_str()).collect();
    assert_eq!(ids, ["genrule:z", "genrule:a"]);
}

#[test]
fn an_output_written_twice_is_refused() {
    let manifest = parse_str(
        "[target.g]\nkind='genrule'\ncmd='true'\noutputs=['same.h', 'same.h']\n",
    )
    .unwrap();
    let error = BuildGraph::from_manifest(&manifest).unwrap_err();
    assert!(matches!(
        &error,
        GraphError::ProducedByBoth { path, first, second }
            if path == "same.h" && first == "genrule:g" && second == "genrule:g"
    ));
    let profiled = parse_str(
        "[profile.release]\n[target.g]\nkind='genrule'\ncmd='true'\noutputs=['same.h', 'same.h']\n",
    )
    .unwrap();
    let unknown = BuildGraph::from_manifest_with_profile(&profiled, "nope").unwrap_err();
    assert!(matches!(unknown, GraphError::UnknownProfile { .. }));
}

#[test]
fn graph_errors_name_what_is_wrong() {
    let manifest = query_manifest();
    assert!(matches!(
        BuildGraph::from_manifest_with_profile(&manifest, "a b"),
        Err(GraphError::InvalidProfile { .. })
    ));
    assert!(matches!(
        BuildGraph::from_manifest_configured(&manifest, "debug", "nope"),
        Err(GraphError::UnknownPlatform { .. })
    ));
    let sources = parse_str(
        "[toolchain]\nkofunc='k'\n[target.a]\nkind='kofun_binary'\nsrcs=['a.kofun','b.kofun']\n",
    )
    .unwrap();
    assert!(matches!(
        BuildGraph::from_manifest(&sources),
        Err(GraphError::KofunSources { count: 2, .. })
    ));
    let tool = parse_str(
        "[target.a]\nkind='command'\ntool='nope'\nargs=['${out}']\noutputs=['a.bin']\n",
    )
    .unwrap();
    assert!(matches!(
        BuildGraph::from_manifest(&tool),
        Err(GraphError::CommandTool { .. })
    ));
}

#[test]
fn targets_are_chosen_for_a_request() {
    let graph = BuildGraph::from_manifest(&query_manifest()).unwrap();
    assert_eq!(resolve_targets(&graph, Vec::new()).unwrap(), ["app"]);
    let error = resolve_targets(&graph, vec!["utill".to_string()]).unwrap_err();
    assert!(error.message().contains("did you mean \"util\""));
    let request = |targets: &[&str]| {
        BuildRequest::plain(
            targets.iter().map(|name| name.to_string()).collect(),
            None,
            false,
            "debug".to_string(),
            "host".to_string(),
            true,
        )
    };
    assert_eq!(select_targets(&graph, &request(&[])).unwrap(), ["unit"]);
    assert!(matches!(
        select_targets(&graph, &request(&["app"])),
        Err(SelectError::NotATest { .. })
    ));
    assert!(matches!(
        select_targets(&graph, &request(&["app", "nowhere", "gone"])),
        Err(SelectError::Unknown { error }) if error.name == "nowhere"
    ));
    assert!(matches!(
        select_targets(&graph, &request(&["unit", "util", "app"])),
        Err(SelectError::NotATest { name }) if name == "util"
    ));
}

fn failed() -> Outcome {
    Outcome::Failed {
        reason: String::new(),
        detail: "no such header".to_string(),
    }
}

#[test]
fn nothing_runs_behind_a_failure() {
    let graph = BuildGraph::from_manifest(&demo_manifest()).unwrap();
    let number = |id: &str| graph.actions.iter().position(|a| a.id == id).unwrap();
    let compile = number("compile:util:src/util.c");
    let archive = number("archive:util");
    let other = number("compile:app:src/main.c");

    let mut going = Execution::new(&graph);
    assert!(matches!(going.decide(compile, false, false), Verdict::GoAhead));
    going.settle(compile, &failed(), true);
    let Verdict::Skip { reason } = going.decide(archive, false, false) else {
        panic!("went ahead");
    };
    assert_eq!(reason, "dependency failed");
    assert!(matches!(going.decide(other, false, false), Verdict::GoAhead));
    assert!(!going.success());

    let mut stopping = Execution::new(&graph);
    stopping.settle(compile, &failed(), false);
    assert!(matches!(
        stopping.decide(other, false, false),
        Verdict::Skip { .. }
    ));

    let mut planned = Execution::new(&graph);
    let would = Outcome::WouldRun {
        reason: "inputs changed".to_string(),
    };
    planned.settle(compile, &would, false);
    assert!(matches!(
        planned.decide(archive, false, true),
        Verdict::MayRun { .. }
    ));
    assert!(matches!(planned.decide(other, false, true), Verdict::GoAhead));
    assert!(planned.success());
    assert!(matches!(
        planned.decide(other, true, true),
        Verdict::Skip { reason } if reason == "cancelled"
    ));
    assert!(matches!(
        planned.decide(other, false, true),
        Verdict::Skip { reason } if reason == "dependency failed"
    ));
}

#[test]
fn actions_run_behind_what_they_need() {
    let graph = BuildGraph::from_manifest(
        &parse_str(
            r#"
            [target.first]
            kind = "genrule"
            cmd = "cp ${in} ${out}"
            inputs = ["made"]
            outputs = ["copied"]

            [target.second]
            kind = "genrule"
            cmd = "touch ${out}"
            outputs = ["made"]
            "#,
        )
        .unwrap(),
    )
    .unwrap();
    let closure = graph.action_closure(&vec!["first".to_string()]).unwrap();
    assert_eq!(closure, [1, 0]);
    assert_eq!(run_order(&graph, &vec![0, 1]).unwrap(), [1, 0]);
    assert_eq!(run_order(&graph, &vec![0]).unwrap(), [0]);

    let round = BuildGraph::from_manifest(
        &parse_str(
            r#"
            [target.first]
            kind = "genrule"
            cmd = "cp ${in} ${out}"
            inputs = ["b"]
            outputs = ["a"]

            [target.second]
            kind = "genrule"
            cmd = "cp ${in} ${out}"
            inputs = ["a"]
            outputs = ["b"]
            "#,
        )
        .unwrap(),
    )
    .unwrap();
    assert_eq!(run_order(&round, &vec![0]).unwrap_err(), [0, 1, 0]);
    assert_eq!(
        round.action_closure(&vec!["second".to_string()]).unwrap(),
        [0, 1]
    );
}

#[test]
fn a_record_holds_while_its_outputs_are_there() {
    let pairs = |items: &[(&str, &str)]| {
        let mut out = SortedMap::new();
        for (name, value) in items {
            out.insert(name.to_string(), value.to_string());
        }
        out
    };
    let entry = JournalEntry {
        key: "k".to_string(),
        inputs: SortedMap::new(),
        discovered: Vec::new(),
        outputs: pairs(&[("a.o", "1"), ("b.o", "2"), ("c.o", "3")]),
        duration_ms: 0,
        reason: String::new(),
    };
    let now = pairs(&[("a.o", "1"), ("b.o", "9")]);
    assert_eq!(altered_outputs(&entry, &now), ["b.o", "c.o"]);
    assert_eq!(
        undeclared(
            &vec!["x.h".to_string(), "main.c".to_string()],
            &vec!["main.c".to_string()]
        ),
        ["x.h"]
    );
    let (state, took, detail) = state_of(&failed());
    assert_eq!(state.as_str(), "failed");
    assert_eq!((took, detail.as_str()), (0, "no such header"));
}

#[test]
fn a_program_is_what_its_link_writes() {
    let graph = BuildGraph::from_manifest(&query_manifest()).unwrap();
    assert_eq!(
        target_runtime_output(&graph, "app").unwrap(),
        ".frost/bin/debug/app"
    );
    assert!(target_runtime_output(&graph, "nope").is_err());
    let tools = BuildGraph::from_manifest(
        &parse_str(
            "[target]\ntool={kind='cc_binary',srcs=['t.c']}\n\
             gen={kind='genrule',cmd='g',outputs=['g.h'],deps=['tool']}\n\
             app={kind='cc_binary',srcs=['a.c'],deps=['gen']}\n",
        )
        .unwrap(),
    )
    .unwrap();
    assert_eq!(
        target_runtime_output(&tools, "app").unwrap(),
        ".frost/bin/debug/app"
    );
    assert_eq!(target_runtime_output(&tools, "gen").unwrap(), "g.h");
    let closure = graph.action_closure(&vec!["app".to_string()]).unwrap();
    assert!(!debuggable(&graph, &closure));
    assert_eq!(
        sole_target("run", &vec!["a".to_string(), "b".to_string()]).unwrap_err(),
        "run requires exactly one target; choose one of: a, b"
    );
    assert!(runner_missing("device", false).unwrap().contains("\"device\""));
    assert!(runner_missing("device", true).is_none());
    assert!(runner_missing("host", false).is_none());
}

#[test]
fn commands_show_a_graph() {
    let manifest = query_manifest();
    let graph = BuildGraph::from_manifest(&manifest).unwrap();
    assert_eq!(
        graph_lines(&graph),
        [
            "app [cc_binary] <- util, gen_config",
            "gen_config [genrule]",
            "unit [cc_test] <- util",
            "util [cc_library]"
        ]
    );
    let entries = compdb(&graph);
    assert_eq!(entries.len(), 3);
    assert!(entries.iter().all(|entry| entry.arguments[0] == "cc"));
    assert!(entries.iter().any(|entry| entry.file == "src/main.c"));
    assert_eq!(
        pick_rows(&manifest, true),
        ["unit\tcc_test\tutil".to_string()]
    );
    assert_eq!(
        picked("app\tcc_binary\tutil\n\nunit\tcc_test\t-\n"),
        ["app", "unit"]
    );
    assert_eq!(test_names(&manifest), ["unit"]);
    assert_eq!(platforms_to_build(&manifest), ["host"]);
    assert_eq!(
        platform_lines(&vec![
            PlatformResult {
                platform: "host".to_string(),
                code: 0
            },
            PlatformResult {
                platform: "device".to_string(),
                code: 1
            }
        ]),
        ["|-- host             ok", "`-- device           failed"]
    );
}

#[test]
fn cleaning_covers_what_was_built() {
    let manifest = query_manifest();
    let graph = BuildGraph::from_manifest(&manifest).unwrap();
    assert_eq!(
        clean_trees(&None, &Some("release".to_string())),
        [
            ".frost/obj/release",
            ".frost/lib/release",
            ".frost/bin/release"
        ]
    );
    let device = Some("device".to_string());
    assert_eq!(
        clean_trees(&device, &Some("debug".to_string())),
        [
            ".frost/obj/device/debug",
            ".frost/lib/device/debug",
            ".frost/bin/device/debug"
        ]
    );
    assert_eq!(clean_trees(&device, &None)[2], ".frost/bin/device");
    assert_eq!(
        clean_trees(&Some("host".to_string()), &None)[0],
        ".frost/obj/host"
    );
    assert_eq!(
        clean_trees(&None, &None),
        [".frost/obj", ".frost/lib", ".frost/bin"]
    );
    let (files, dirs) = clean_files(&graph);
    assert_eq!(files, ["gen/config.h"]);
    assert!(dirs.is_empty());
    assert!(clean_configurations(&manifest, &None, "host", "debug").is_empty());
    assert!(is_noop_record("noop-debug.bin") && !is_noop_record("graph-debug.bin"));
    let exclusions = watch_exclusions(&graph);
    assert!(exclusions.outputs.contains(&"gen/config.h".to_string()));
}

#[test]
fn the_journal_says_why_an_action_ran() {
    let graph = BuildGraph::from_manifest(&query_manifest()).unwrap();
    let ids: Vec<String> = graph.actions.iter().map(|a| format!("host/{}", a.id)).collect();
    let mut journal = Journal {
        actions: SortedMap::new(),
    };
    assert_eq!(
        record_lines(&graph, "app", "debug", &ids, &journal),
        ["frost: no recorded execution for app (debug)"]
    );
    journal.record(
        "host/link:app".to_string(),
        JournalEntry {
            key: "k".to_string(),
            inputs: SortedMap::new(),
            discovered: Vec::new(),
            outputs: SortedMap::new(),
            duration_ms: 12,
            reason: "output missing".to_string(),
        },
    );
    assert_eq!(
        record_lines(&graph, "app", "debug", &ids, &journal),
        ["link:app :: output missing (12 ms)"]
    );
}

#[test]
fn a_kept_graph_is_used_where_it_is_there() {
    let manifest = query_manifest();
    let (compiled, fresh) =
        GraphStore::load_or_compile(&manifest, "debug", None, false).unwrap();
    assert!(fresh);
    let actions = compiled.actions.len();
    let (kept, _) =
        GraphStore::load_or_compile(&manifest, "debug", Some(compiled), true).unwrap();
    assert_eq!(kept.actions.len(), actions);
    assert!(GraphStore::for_configuration(kept, "debug", "device").is_none());
    let (other, _) = GraphStore::load_or_compile(&manifest, "debug", None, false).unwrap();
    assert_eq!(other.profile, "debug");
    let mut wrong = other;
    wrong.profile = "release".to_string();
    wrong.actions.clear();
    let (made, save) =
        GraphStore::load_or_compile(&manifest, "debug", Some(wrong), true).unwrap();
    assert!(save);
    assert_eq!(made.actions.len(), actions);
}

#[test]
fn doctor_reports_every_tool() {
    let graph = BuildGraph::from_manifest(&query_manifest()).unwrap();
    let required: Vec<_> = required_tools(&graph.toolchain)
        .iter()
        .map(|tool| inspected(tool, &Some(format!("/bin/{}", tool.configured)), true))
        .collect();
    let optional: Vec<_> = optional_tools()
        .iter()
        .map(|tool| inspected(tool, &None, false))
        .collect();
    let lines = doctor_lines(
        "/ws",
        "debug",
        "host",
        graph.targets.len(),
        graph.actions.len(),
        &required,
        &optional,
    );
    assert_eq!(lines[0], "frost: doctor · ready");
    let json = shown(&doctor_file("/ws", "debug", "host", 3, 7, &required, &optional));
    assert!(json.starts_with(
        "{status:ready,workspace:/ws,profile:debug,platform:host,targets:3,actions:7,"
    ));
    assert!(json.contains(
        "{name:C compiler,configured:cc,resolved:/bin/cc,available:true,required:true}"
    ));
    let blocked = doctor_file("/ws", "debug", "host", 3, 7, &optional, &required);
    assert!(shown(&blocked).starts_with("{status:blocked,"));
    assert_eq!(lines[1], "|-- workspace  /ws");
    assert!(lines.contains(&"|   |-- C compiler           ok      /bin/cc".to_string()));
    assert_eq!(
        lines.last().unwrap(),
        "`-- result     build prerequisites are ready"
    );
}

fn concat(parts: &[&str]) -> String {
    parts.iter().map(|part| part.to_string()).collect()
}

/// A JSON value with its texts unquoted.
fn shown(json: &Json) -> String {
    match json {
        Json::Null => "null".to_string(),
        Json::Flag(flag) => flag.to_string(),
        Json::Number(number) => number.to_string(),
        Json::Text(text) => text.clone(),
        Json::List(items) => {
            let items: Vec<String> = items.iter().map(shown).collect();
            format!("[{}]", items.join(","))
        }
        Json::Object(members) => {
            let members: Vec<String> = members
                .iter()
                .map(|member| format!("{}:{}", member.name, shown(&member.value)))
                .collect();
            format!("{{{}}}", members.join(","))
        }
    }
}

#[test]
fn databases_and_answers_are_json() {
    let graph = BuildGraph::from_manifest(&demo_manifest()).unwrap();
    let mut entries = compdb(&graph);
    entries.truncate(1);
    entries[0].arguments = vec!["cc".to_string()];
    entries[0].file = "src/util.c".to_string();
    entries[0].output = None;
    assert_eq!(
        shown(&compdb_file("/ws", &entries)),
        "[{directory:/ws,file:src/util.c,arguments:[cc],output:null}]"
    );
    assert_eq!(
        shown(&answer_file("deps(app)", &vec!["util".to_string()])),
        "{query:deps(app),targets:[util]}"
    );
}

#[test]
fn an_editor_launches_what_was_built() {
    let graph = BuildGraph::from_manifest(&query_manifest()).unwrap();
    let files = |artifact: &str| {
        vscode_files(&graph, "/ws", "app", "debug", "host", artifact, "", false)
    };
    let native = files("/ws/.frost/bin/debug/app").unwrap();
    assert_eq!(native.task_label, "frost: build app");
    assert_eq!(native.artifact, "${workspaceFolder}/.frost/bin/debug/app");
    assert!(matches!(native.launch, Launch::Native { mi_mode: "gdb" }));
    assert_eq!(
        shown(&launch_file(&native)),
        concat(&[
            "{version:0.2.0,configurations:[{name:Frost: debug app,request:launch,",
            "cwd:${workspaceFolder},preLaunchTask:frost: build app,args:[],type:cppdbg,",
            "program:${workspaceFolder}/.frost/bin/debug/app,MIMode:gdb,stopAtEntry:false}]}",
        ])
    );
    assert_eq!(
        shown(&tasks_file(&native)),
        concat(&[
            "{version:2.0.0,tasks:[{label:frost: build app,type:process,command:frost,",
            "args:[-C,${workspaceFolder},build,app,--profile,debug,--platform,host,--no-tui],",
            "options:{cwd:${workspaceFolder}},problemMatcher:[$gcc],",
            "group:{kind:build,isDefault:true}}]}",
        ])
    );
    let python = files("/ws/run.py").unwrap();
    assert!(shown(&launch_file(&python)).contains("type:debugpy,program:${workspaceFolder}/run.py"));
    let java = vscode_files(&graph, "/ws", "app", "debug", "host", "/ws/a.jar", "Main", false);
    assert!(shown(&launch_file(&java.unwrap()))
        .contains("type:java,mainClass:Main,classPaths:[${workspaceFolder}/a.jar]"));
    let node = files("/ws/a.mjs").unwrap();
    assert!(shown(&launch_file(&node)).contains("sourceMaps:false"));
    assert!(matches!(files("/other/app"), Err(EditorError::Outside)));
    assert!(matches!(files("/ws/app.whl"), Err(EditorError::Wheel)));
}
