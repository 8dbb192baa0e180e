use frostbuild::closest::closest;
use frostbuild::manifest::{Manifest, Platform, Profile, Step, TargetKind, HOST_PLATFORM};
use frostbuild::raw::{ManifestError, RawManifest, RawTarget, RawToolchain};
use frostbuild::graph::BuildGraph;
use frostbuild::npm::{generate_plan, WorkspacePackage};
use frostbuild::scaffold::{scaffold, scaffold_for, SourceFile};
use frostbuild::shared_set::SharedSets;
use frostbuild::sorted_map::SortedMap;
use frostbuild::template::{expand_genrule_cmd, TemplateFault};
use frostbuild::toposort::toposort;
use frostbuild::workspace::{has_glob, prefix_path, resolve_label, Match, Matches};

fn strings(table: &toml::Table, key: &str) -> Vec<String> {
    match table.get(key) {
        Some(value) => value
            .as_array()
            .unwrap()
            .iter()
            .map(|item| item.as_str().unwrap().to_string())
            .collect(),
        None => Vec::new(),
    }
}

fn string(table: &toml::Table, key: &str) -> Option<String> {
    table
        .get(key)
        .map(|value| value.as_str().unwrap().to_string())
}

fn texts(table: &toml::Table, key: &str) -> SortedMap<String> {
    let mut out = SortedMap::new();
    if let Some(value) = table.get(key) {
        for (name, text) in value.as_table().unwrap() {
            out.insert(name.clone(), text.as_str().unwrap().to_string());
        }
    }
    out
}

fn kind(name: &str) -> TargetKind {
    match name {
        "cc_binary" => TargetKind::CcBinary,
        "cc_library" => TargetKind::CcLibrary,
        "cc_test" => TargetKind::CcTest,
        "genrule" => TargetKind::Genrule,
        "test" => TargetKind::Test,
        "kofun_binary" => TargetKind::KofunBinary,
        "command" => TargetKind::Command,
        other => panic!("unknown kind {other}"),
    }
}

fn raw_target(table: &toml::Table) -> RawTarget {
    let mut steps = Vec::new();
    if let Some(value) = table.get("steps") {
        for step in value.as_array().unwrap() {
            let step = step.as_table().unwrap();
            steps.push(Step {
                tool: string(step, "tool").unwrap(),
                args: strings(step, "args"),
            });
        }
    }
    RawTarget {
        kind: kind(table["kind"].as_str().unwrap()),
        srcs: strings(table, "srcs"),
        deps: strings(table, "deps"),
        includes: strings(table, "includes"),
        cflags: strings(table, "cflags"),
        ldflags: strings(table, "ldflags"),
        cmd: string(table, "cmd"),
        tool: string(table, "tool"),
        args: strings(table, "args"),
        steps,
        inputs: strings(table, "inputs"),
        outputs: strings(table, "outputs"),
        depfile: string(table, "depfile"),
        clean_dirs: strings(table, "clean_dirs"),
        preserve_outputs: table
            .get("preserve_outputs")
            .is_some_and(|value| value.as_bool().unwrap()),
        env: texts(table, "env"),
        pass_env: strings(table, "pass_env"),
        sandbox: table.get("sandbox").map(|value| value.as_bool().unwrap()),
    }
}

fn arflags(table: &toml::Table) -> Option<Vec<String>> {
    table.get("arflags").map(|_| strings(table, "arflags"))
}

fn sections(root: &toml::Table, key: &str) -> Vec<(String, toml::Table)> {
    match root.get(key) {
        Some(value) => value
            .as_table()
            .unwrap()
            .iter()
            .map(|(name, section)| (name.clone(), section.as_table().unwrap().clone()))
            .collect(),
        None => Vec::new(),
    }
}

fn parse_str(text: &str) -> Result<Manifest, ManifestError> {
    Manifest::from_raw(&raw_manifest(text))
}

fn raw_manifest(text: &str) -> RawManifest {
    let root: toml::Table = toml::from_str(text).unwrap();
    let empty = toml::Table::new();
    let workspace = root
        .get("workspace")
        .map_or(&empty, |value| value.as_table().unwrap());
    let tools = root
        .get("toolchain")
        .map_or(&empty, |value| value.as_table().unwrap());
    let mut platforms = SortedMap::new();
    for (name, section) in sections(&root, "platform") {
        platforms.insert(
            name,
            Platform {
                cc: string(&section, "cc"),
                cxx: string(&section, "cxx"),
                ar: string(&section, "ar"),
                kofunc: string(&section, "kofunc"),
                arflags: arflags(&section),
                sysroot: string(&section, "sysroot"),
                cflags: strings(&section, "cflags"),
                cxxflags: strings(&section, "cxxflags"),
                ldflags: strings(&section, "ldflags"),
                tools: texts(&section, "tools"),
            },
        );
    }
    let mut profiles = SortedMap::new();
    for (name, section) in sections(&root, "profile") {
        profiles.insert(
            name,
            Profile {
                cflags: strings(&section, "cflags"),
                cxxflags: strings(&section, "cxxflags"),
                ldflags: strings(&section, "ldflags"),
            },
        );
    }
    let mut targets = SortedMap::new();
    for (name, section) in sections(&root, "target") {
        targets.insert(name, raw_target(&section));
    }
    RawManifest {
        default_targets: strings(workspace, "default_targets"),
        toolchain: RawToolchain {
            cc: string(tools, "cc"),
            cxx: string(tools, "cxx"),
            ar: string(tools, "ar"),
            kofunc: string(tools, "kofunc"),
            arflags: arflags(tools),
            cflags: strings(tools, "cflags"),
            cxxflags: strings(tools, "cxxflags"),
            ldflags: strings(tools, "ldflags"),
            tools: texts(tools, "tools"),
        },
        platforms,
        profiles,
        targets,
    }
}

fn nearest(input: &str, names: &[&str]) -> Option<String> {
    closest(input, &names.iter().map(|name| name.to_string()).collect())
}


const OK: &str = r#"
    [workspace]
    default_targets = ["app"]

    [toolchain]
    cc = "gcc"
    cflags = ["-O2"]

    [target.util]
    kind = "cc_library"
    srcs = ["src/util.c"]
    includes = ["include"]

    [target.app]
    kind = "cc_binary"
    srcs = ["src/main.c"]
    deps = ["util"]

    [target.gen]
    kind = "genrule"
    cmd = "sh gen.sh ${out}"
    inputs = ["gen.sh"]
    outputs = ["gen/config.h"]
"#;

#[test]
fn parses_valid_manifest() {
    let m = parse_str(OK).unwrap();
    assert_eq!(m.default_targets, vec!["app"]);
    assert_eq!(m.toolchain.cc, "gcc");
    assert_eq!(m.targets.len(), 3);
    assert_eq!(m.targets.get("app").unwrap().deps, vec!["util"]);
}

#[test]
fn rejects_unknown_dep() {
    let text = r#"
        [target.app]
        kind = "cc_binary"
        srcs = ["a.c"]
        deps = ["nope"]
    "#;
    let err = parse_str(text).unwrap_err().message();
    assert!(err.contains("unknown dep"), "{err}");
}

#[test]
fn rejects_self_dep() {
    let text = r#"
        [target.app]
        kind = "cc_binary"
        srcs = ["a.c"]
        deps = ["app"]
    "#;
    let err = parse_str(text).unwrap_err().message();
    assert!(err.contains("depends on itself"), "{err}");
}

#[test]
fn rejects_absolute_src() {
    let text = r#"
        [target.app]
        kind = "cc_binary"
        srcs = ["/etc/passwd"]
    "#;
    assert!(parse_str(text).is_err());
}

#[test]
fn rejects_genrule_without_outputs() {
    let text = r#"
        [target.g]
        kind = "genrule"
        cmd = "true"
    "#;
    assert!(parse_str(text).is_err());
}

#[test]
fn platform_overlay_resolves_toolchain() {
    let text = r#"
        [toolchain]
        cc = "gcc"
        cxx = "g++"
        cflags = ["-O2"]

        [platform.aarch64]
        cc = "aarch64-linux-gnu-gcc"
        sysroot = "sysroots/aarch64"
        cflags = ["-mcpu=cortex-a53"]
        ldflags = ["-static"]

        [target.app]
        kind = "cc_binary"
        srcs = ["a.c"]
    "#;
    let m = parse_str(text).unwrap();

    let host = m.toolchain_for(HOST_PLATFORM).unwrap();
    assert_eq!(host.cc, "gcc");
    assert_eq!(host.cflags, vec!["-O2"]);
    assert_eq!(host.arflags, vec!["rcsD"]);

    let cross = m.toolchain_for("aarch64").unwrap();
    assert_eq!(cross.cc, "aarch64-linux-gnu-gcc");
    assert_eq!(cross.cxx, "g++", "unset drivers inherit the root toolchain");
    assert_eq!(
        cross.cflags,
        vec!["-O2", "--sysroot=sysroots/aarch64", "-mcpu=cortex-a53"]
    );
    assert_eq!(cross.ldflags, vec!["--sysroot=sysroots/aarch64", "-static"]);
}

#[test]
fn unknown_platform_errors_with_candidates() {
    let m = parse_str(
        r#"
        [platform.rv64]
        cc = "riscv64-elf-gcc"

        [target.app]
        kind = "cc_binary"
        srcs = ["a.c"]
        "#,
    )
    .unwrap();
    let err = m.toolchain_for("nope").unwrap_err().message();
    assert!(err.contains("unknown platform"), "{err}");
    assert!(err.contains("rv64"), "{err}");
}

#[test]
fn suggests_only_genuinely_close_names() {
    assert_eq!(nearest("relase", &["debug", "release"]).as_deref(), Some("release"));
    assert_eq!(nearest("aarch65", &["aarch64", "riscv"]).as_deref(), Some("aarch64"));
    assert_eq!(nearest("ap", &["app", "lib"]).as_deref(), Some("app"));
    // A short name that resembles nothing gets no suggestion: a wrong
    // hint sends the reader down the wrong path.
    assert_eq!(nearest("zzz", &["debug", "release"]), None);
    assert_eq!(nearest("windows", &["aarch64"]), None);
    assert_eq!(nearest("anything", &[]), None);
}

#[test]
fn rejects_reserved_host_platform() {
    let text = r#"
        [platform.host]
        cc = "gcc"

        [target.app]
        kind = "cc_binary"
        srcs = ["a.c"]
    "#;
    let err = parse_str(text).unwrap_err().message();
    assert!(err.contains("reserved"), "{err}");
}

#[test]
fn default_targets_fall_back_to_binaries() {
    let text = r#"
        [target.lib]
        kind = "cc_library"
        srcs = ["l.c"]

        [target.tool]
        kind = "cc_binary"
        srcs = ["t.c"]
    "#;
    let m = parse_str(text).unwrap();
    assert_eq!(m.default_targets, vec!["tool"]);
}

#[test]
fn a_scaffold_is_a_valid_manifest() {
    let source = |path: &str, text: &str| SourceFile {
        path: path.to_string(),
        text: Some(text.to_string()),
    };
    let made = scaffold(
        "demo",
        &vec![
            source("src/main.c", "int main(void) { return add(20, 22); }"),
            source("src/util.c", "int add(int a, int b) { return a + b; }"),
        ],
        true,
    )
    .unwrap();
    assert!(made.summary.iter().any(|line| line.contains("src/main.c")));
    let manifest = parse_str(&made.manifest).unwrap();
    assert_eq!(manifest.default_targets, ["demo"]);
    assert_eq!(manifest.targets.get("demo").unwrap().deps, ["demo_lib"]);
    assert_eq!(
        manifest.profiles.get("debug").unwrap().cflags,
        ["-O0", "-g"]
    );
}

#[test]
fn a_java_scaffold_is_a_valid_manifest() {
    let source = |path: &str, text: &str| SourceFile {
        path: path.to_string(),
        text: Some(text.to_string()),
    };
    let made = scaffold_for(
        None,
        "demo",
        &Vec::new(),
        &vec![source("Main.java", "class Main { public static void main(String[] a) {} }")],
        false,
        false,
    )
    .unwrap();
    let manifest = parse_str(&made.manifest).unwrap();
    let graph = BuildGraph::from_manifest(&manifest).unwrap();
    assert_eq!(
        graph.actions[0].argv,
        ["javac", "-d", ".frost/tmp/debug/demo", "Main.java"]
    );
    assert_eq!(
        graph.actions[0].followup_argv[0],
        [
            "frost",
            "pack-jar",
            "--input",
            ".frost/tmp/debug/demo",
            "--output",
            ".frost/out/debug/demo.jar",
            "--main-class",
            "Main"
        ]
    );
}

#[test]
fn an_npm_import_is_a_valid_manifest() {
    let mut packages = SortedMap::new();
    for (name, dep) in [("@demo/core", None), ("@demo/web", Some("@demo/core"))] {
        let deps: Vec<String> = dep.iter().map(|dep| dep.to_string()).collect();
        packages.insert(
            name.to_string(),
            WorkspacePackage {
                name: name.to_string(),
                scripts: vec!["test".to_string()],
                all_dependencies: deps.clone(),
                ordered_dependencies: deps,
                own_inputs: vec![format!("{}/*", &name[6..])],
            },
        );
    }
    let plan = generate_plan(&packages, &Vec::new(), "npm", "node", &Vec::new()).unwrap();
    let manifest = parse_str(&plan.manifest).unwrap();
    assert_eq!(manifest.targets.keys, ["demo-core-test", "demo-web-test"]);
    let web = &manifest.targets.values[1];
    assert_eq!(web.kind, TargetKind::Test);
    assert_eq!(web.deps, ["demo-core-test"]);
    assert_eq!(web.args, ["run", "test", "--workspace", "@demo/web"]);
    assert_eq!(web.inputs, ["core/*", "web/*"]);
    assert_eq!(web.env.keys, ["CI"]);
    assert_eq!(web.env.values, ["true"]);
    assert_eq!(web.pass_env.len(), 6);
    assert!(!web.sandbox);
    assert_eq!(manifest.toolchain.tools.keys, ["node", "npm"]);
    assert!(BuildGraph::from_manifest(&manifest).is_ok());
}

fn fault(text: &str) -> String {
    parse_str(text).unwrap_err().message()
}

#[test]
fn a_manifest_says_what_is_wrong_with_it() {
    assert_eq!(
        fault("[workspace]\n"),
        "manifest declares no [target.*] sections"
    );
    assert!(fault("[target.'a b']\nkind='cc_binary'\nsrcs=['a.c']\n").contains("invalid target"));
    assert!(fault("[target.a]\nkind='cc_binary'\n").contains("srcs"));
    assert!(fault("[target.a]\nkind='cc_binary'\nsrcs=['a.c']\ncmd='x'\n").contains("invalid target"));
    assert!(fault("[target.a]\nkind='command'\noutputs=['x']\n").contains("tool"));
    assert!(fault("[workspace]\ndefault_targets=['b']\n[target.a]\nkind='cc_binary'\nsrcs=['a.c']\n")
        .contains("b"));
    assert!(fault("[platform.'a/b']\n[target.a]\nkind='cc_binary'\nsrcs=['a.c']\n").contains("a/b"));
}

fn found(paths: &[&str], ignored: &[&str]) -> Vec<Match> {
    paths
        .iter()
        .map(|path| Match {
            path: path.to_string(),
            ignored: ignored.contains(path),
        })
        .collect()
}

fn unvalidated(text: &str) -> Manifest {
    Manifest::from_raw_unvalidated(&raw_manifest(text)).unwrap()
}

#[test]
fn globs_are_replaced_by_what_they_match() {
    let text = "[target.a]\nkind='cc_library'\nsrcs=['src/*.c', 'main.c']\nincludes=['include']\n";
    let matches = |srcs| {
        vec![Matches {
            srcs: vec![srcs, Vec::new()],
            inputs: Vec::new(),
        }]
    };
    let manifest = unvalidated(text)
        .expand_manifest_paths(
            "lib",
            &matches(found(
                &["lib/src/b.c", "lib/src/a.c", "lib/src/x.c", ".frost/out.c"],
                &["lib/src/x.c"],
            )),
        )
        .unwrap();
    let target = manifest.targets.get("a").unwrap();
    assert_eq!(target.srcs, ["lib/main.c", "lib/src/a.c", "lib/src/b.c"]);
    assert_eq!(target.includes, ["lib/include"]);
    assert_eq!(target.package, "lib");

    let error = unvalidated(text)
        .expand_manifest_paths("", &matches(Vec::new()))
        .unwrap_err();
    assert!(matches!(error, ManifestError::NothingMatched { .. }));
    assert!(error.message().contains("\"src/*.c\" matched no files"));
    assert!(has_glob("a?.c") && has_glob("[ab].c") && !has_glob("a.c"));
    assert_eq!(prefix_path("lib", "a.c"), "lib/a.c");
    assert_eq!(prefix_path("", "a.c"), "a.c");
}

#[test]
fn packages_join_a_workspace_under_their_labels() {
    let root = unvalidated(
        "[workspace]\ndefault_targets=['//:app']\n\
         [target.app]\nkind='cc_binary'\nsrcs=['a.c']\ndeps=['//:base']\n\
         [target.base]\nkind='cc_library'\nsrcs=['b.c']\n",
    );
    let root = root.with_root_labels();
    assert_eq!(root.default_targets, ["app"]);
    assert_eq!(root.targets.get("app").unwrap().deps, ["base"]);
    let child = unvalidated(
        "[target.util]\nkind='cc_library'\nsrcs=['u.c']\ndeps=['local', ':other', '//:base']\n\
         [target.local]\nkind='cc_library'\nsrcs=['l.c']\n\
         [target.other]\nkind='cc_library'\nsrcs=['o.c']\n",
    );
    let whole = root
        .with_package("libs/util", "libs/util/frost.toml".to_string(), child)
        .unwrap();
    assert!(whole.validate().is_ok());
    let util = whole.targets.get("//libs/util:util").unwrap();
    assert_eq!(util.name, "//libs/util:util");
    assert_eq!(
        util.deps,
        ["//libs/util:local", "//libs/util:other", "base"]
    );
    assert_eq!(whole.manifest_paths, ["libs/util/frost.toml"]);

    let again = unvalidated("[target.util]\nkind='cc_library'\nsrcs=['u.c']\n");
    assert!(matches!(
        whole.with_package("libs/util", "x".to_string(), again),
        Err(ManifestError::DuplicateLabel { label }) if label == "//libs/util:util"
    ));
    assert_eq!(resolve_label("//a:b", "p"), "//a:b");
    assert_eq!(resolve_label(":b", "p"), "//p:b");
}

#[test]
fn commands_are_filled_in() {
    let inputs = vec!["a b.txt".to_string(), "c.txt".to_string()];
    let outputs = vec!["out.txt".to_string()];
    let command = expand_genrule_cmd("gen ${in} > ${out}", &inputs, &outputs).unwrap();
    assert!(command.contains("out.txt"), "{command}");
    assert!(command.contains("c.txt"), "{command}");
    assert_eq!(
        expand_genrule_cmd("gen ${nope}", &inputs, &outputs)
            .unwrap_err()
            .fault,
        TemplateFault::GenruleVariable
    );
}

#[test]
fn an_order_has_each_behind_what_it_needs() {
    let order = toposort(&vec![vec![1, 2], vec![2], vec![]]).unwrap();
    let place = |n: usize| order.iter().position(|&other| other == n).unwrap();
    assert!(place(2) < place(1) && place(1) < place(0));
    let cycle = toposort(&vec![vec![1], vec![0]]).unwrap_err();
    assert_eq!(cycle, [0, 1, 0]);
    let first = toposort(&vec![vec![1], vec![2, 3], vec![], vec![4, 1], vec![3]]).unwrap_err();
    assert_eq!(first, [3, 4, 3]);
}

#[test]
fn shared_sets_hold_what_their_parents_hold() {
    let mut sets = SharedSets::new();
    let base = sets.join(vec!["x".to_string()], Vec::new());
    let left = sets.join(vec!["l".to_string()], vec![base]);
    let right = sets.join(vec!["r".to_string(), "x".to_string()], vec![base]);
    let mut all = sets.flatten_all(&vec![left, right]);
    all.sort();
    assert_eq!(all, ["l", "r", "x"]);
    assert_eq!(sets.flatten(base), ["x"]);
}
