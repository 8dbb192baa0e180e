use frostbuild::bazel::{
    bazel_build_args, bazel_run_args, ensure_configuration_free, frost_name, parse_label,
    BazelError, RuleList, XmlRule,
};
use frostbuild::completion::{candidates, completion_workspace};
use frostbuild::doctor::{inspected, optional_tools, ready, Tool};
use frostbuild::jar::{
    jar_entries, jar_main_class, manifest_text, validate_main_class, write_manifest_header,
    MainClassError,
};
use frostbuild::json::Json;
use frostbuild::launch::{
    language_debug_argv, language_of, locate_program, runtime_argv, runtime_lookup, Language,
    Located,
};
use frostbuild::literal::{json_list, toml_array};
use frostbuild::ninja::{import_ninja, sanitize_target, NinjaError};
use frostbuild::npm::{
    add_package, dependency_names, normalized_scripts, package_name, root_files, root_inputs,
    target_name, validate_workspace_pattern, NpmError, PackageJson, WorkspacePackage,
};
use frostbuild::graph::GraphError;
use frostbuild::path_set::PathSet;
use frostbuild::raw::ManifestError;
use frostbuild::progress::{
    truncate, Key, PlainLog, ProgressEvent, ProgressState, Times, TuiState,
};
use frostbuild::report::{
    affected_tests, count_outcomes, exit_code, explain_lines, failure_lines, test_summary,
    trace_events, trace_file, trace_fits, worst_code, ActionResult, Outcome,
};
use frostbuild::request::{summarize, BuildRequest};
use frostbuild::scaffold::{
    defines_main, is_build_tool_file, is_java_source, is_source, is_unseen, sanitize_name, scaffold,
    scaffold_for, NoSources, ScaffoldError, ScaffoldLanguage, SourceFile,
};
use frostbuild::sorted_map::SortedMap;
use frostbuild::watch::{
    after_build, after_first_build, relevant_bazel_watch_path, relevant_watch_path,
    watch_event_changes_files, AfterBuild, BuildEnd, FileEvent, Watch, WatchExclusions,
    WatchFilter,
};
use frostbuild::wheel::{
    left_out, archive_name, check_wheel, csv_field, normalize_distribution, pack_entries, validate_version,
    Entry, WheelFault,
};
use sha2::{Digest, Sha256};

fn strings(items: &[&str]) -> Vec<String> {
    items.iter().map(|item| item.to_string()).collect()
}

// Summaries

#[test]
fn says_what_happened_and_omits_what_did_not() {
    assert_eq!(
        summarize(0, 5, 0, 0, 5, 5, 12),
        "frost: up to date · 5 actions · 12 ms"
    );
    assert_eq!(
        summarize(5, 0, 0, 0, 5, 5, 70),
        "frost: 5 built · 5 actions · 70 ms"
    );
    assert_eq!(
        summarize(2, 3, 0, 0, 5, 5, 40),
        "frost: 2 built, 3 cached · 5 actions · 40 ms"
    );
    // Failures lead, because that is what the reader needs first.
    assert_eq!(
        summarize(0, 3, 1, 1, 5, 5, 20),
        "frost: 1 failed, 1 skipped, 3 cached · 5 actions · 20 ms"
    );
    // Building a subset is worth saying; building everything is not.
    assert_eq!(
        summarize(0, 2, 0, 0, 2, 9, 5),
        "frost: up to date · 2 of 9 actions · 5 ms"
    );
    assert_eq!(
        summarize(0, 0, 0, 0, 0, 0, 1),
        "frost: nothing to do · 0 actions · 1 ms"
    );
}

fn result(id: &str, outcome: Outcome) -> ActionResult {
    ActionResult {
        id: id.to_string(),
        desc: format!("desc of {id}"),
        outcome,
    }
}

fn some_results() -> Vec<ActionResult> {
    vec![
        result(
            "compile:app",
            Outcome::Executed {
                reason: "no previous record".to_string(),
                duration_ms: 7,
            },
        ),
        result("link:app", Outcome::Cached),
        result(
            "test:unit",
            Outcome::Failed {
                reason: "input changed".to_string(),
                detail: "exit 1".to_string(),
            },
        ),
        result(
            "test:other",
            Outcome::Skipped {
                reason: "dependency failed".to_string(),
            },
        ),
    ]
}

#[test]
fn outcomes_are_counted_and_told() {
    let counts = count_outcomes(&some_results());
    assert_eq!(
        (counts.executed, counts.cached, counts.failed, counts.skipped),
        (1, 1, 1, 1)
    );
    let failures = failure_lines(&some_results()).join("\n");
    assert!(failures.contains("exit 1"), "{failures}");
    let explained = explain_lines(&some_results()).join("\n");
    assert!(explained.contains("no previous record"), "{explained}");
    assert_eq!(
        test_summary(&some_results()),
        "tests: 0 passed, 2 failed, 0 cached"
    );
}

#[test]
fn exit_codes_say_how_a_build_ended() {
    assert_eq!(exit_code(false, true), 0);
    assert_eq!(exit_code(false, false), 1);
    assert_eq!(exit_code(true, false), 130);
    assert_eq!(worst_code(&vec![0, 2, 1]), 2);
    assert_eq!(worst_code(&vec![]), 0);
}

#[test]
fn affected_tests_are_those_that_ran() {
    let requested = strings(&["unit", "other"]);
    let affected = affected_tests(
        &requested,
        &vec![
            result(
                "test:unit",
                Outcome::WouldRun {
                    reason: "input changed".to_string(),
                },
            ),
            result("test:other", Outcome::Cached),
        ],
    );
    assert_eq!(affected, ["unit"]);
}

#[test]
fn trace_events_follow_one_another() {
    let events = trace_events(&vec![
        result(
            "a",
            Outcome::Executed {
                reason: String::new(),
                duration_ms: 3,
            },
        ),
        result(
            "b",
            Outcome::Executed {
                reason: String::new(),
                duration_ms: 4,
            },
        ),
    ]);
    assert_eq!(events[0].ts, 0);
    assert_eq!(events[0].dur, 3_000);
    assert_eq!(events[1].ts, 3_000);
    assert_eq!(events[1].dur, 4_000);
    let Json::Object(members) = trace_file(&events) else {
        panic!("no object");
    };
    assert_eq!(members[0].name, "traceEvents");
    let Json::List(items) = &members[0].value else {
        panic!("no list");
    };
    assert_eq!(items.len(), 2);
    let Json::Object(second) = &items[1] else {
        panic!("no object");
    };
    assert!(second
        .iter()
        .any(|member| member.name == "ts" && matches!(member.value, Json::Number(3_000))));

    let long = |duration_ms: u64| {
        vec![result(
            "a",
            Outcome::Executed {
                reason: String::new(),
                duration_ms,
            },
        )]
    };
    assert!(trace_fits(&long(u64::MAX / 1000)));
    assert!(!trace_fits(&long(u64::MAX / 1000 + 1)));
}

#[test]
fn a_request_goes_to_the_daemon_as_arguments() {
    let request = BuildRequest::plain(
        strings(&["app"]),
        Some(4),
        true,
        "release".to_string(),
        "host".to_string(),
        false,
    );
    let args = request.daemon_args("/ws");
    assert!(args.contains(&"build".to_string()), "{args:?}");
    assert!(args.contains(&"/ws".to_string()), "{args:?}");
    assert!(args.contains(&"release".to_string()), "{args:?}");
    assert!(args.contains(&"--keep-going".to_string()), "{args:?}");
    assert!(args.contains(&"app".to_string()), "{args:?}");
}

// Watching

#[test]
fn watch_ignores_self_writes_but_keeps_sources_and_manifests() {
    let root = "/workspace";
    let exclusions = WatchExclusions {
        outputs: strings(&["dist/app.js"]),
        clean_dirs: strings(&["tmp/generated"]),
    };
    for ignored in [
        ".frost/out/debug/app",
        ".git/index",
        "dist/app.js",
        "tmp/generated/member.js",
    ] {
        assert!(
            relevant_watch_path(root, &format!("{root}/{ignored}"), &exclusions).is_none(),
            "{ignored}"
        );
    }
    for watched in ["src/app.ts", "frost.toml", "dist/source.ts"] {
        assert_eq!(
            relevant_watch_path(root, &format!("{root}/{watched}"), &exclusions).as_deref(),
            Some(watched)
        );
    }
}

#[test]
fn watch_ignores_read_access_but_keeps_content_events() {
    assert!(!watch_event_changes_files(FileEvent::Access));
    assert!(watch_event_changes_files(FileEvent::Create));
    assert!(watch_event_changes_files(FileEvent::Modify));
    assert!(watch_event_changes_files(FileEvent::Remove));
}

#[test]
fn bazel_watch_leaves_out_bazels_own_trees() {
    assert!(relevant_bazel_watch_path("/ws", "/ws/bazel-out/k8/app").is_none());
    assert_eq!(
        relevant_bazel_watch_path("/ws", "/ws/src/app.cc").as_deref(),
        Some("src/app.cc")
    );
}

#[test]
fn changes_settle_before_they_are_handed_out() {
    let filter = WatchFilter::Frost {
        exclusions: WatchExclusions {
            outputs: Vec::new(),
            clean_dirs: Vec::new(),
        },
    };
    let mut watch = Watch::new(filter, 50);
    watch.begin(FileEvent::Modify, "/ws", &strings(&["/ws/b.c"]), 1_000);
    assert_eq!(watch.remaining(1_010), Some(40));
    watch.more(FileEvent::Modify, "/ws", &strings(&["/ws/a.c"]), 1_010);
    assert_eq!(watch.remaining(1_055), Some(5));
    assert_eq!(watch.remaining(1_060), Some(0));
    assert_eq!(watch.remaining(1_061), None);
    assert_eq!(
        watch.finish().unwrap(),
        ["frost: change #1 · 2 paths", "|-- a.c", "`-- b.c"]
    );
    watch.begin(FileEvent::Access, "/ws", &strings(&["/ws/b.c"]), 2_000);
    assert!(watch.finish().is_none());
}

#[test]
fn changes_are_listed_by_component() {
    let mut watch = Watch::new(WatchFilter::Bazel, 50);
    watch.begin(
        FileEvent::Modify,
        "/ws",
        &strings(&["/ws/s-/b", "/ws/s/a", "/ws/s//a"]),
        0,
    );
    assert_eq!(
        watch.finish().unwrap(),
        ["frost: Bazel change #1 · 2 paths", "|-- s/a", "`-- s-/b"]
    );
    watch.begin(FileEvent::Modify, "/ws", &strings(&["/ws/a/b"]), 100);
    watch.more(FileEvent::Modify, "/ws", &strings(&["/ws/a/./b"]), 120);
    assert_eq!(watch.remaining(120), Some(30));
    watch.more(
        FileEvent::Create,
        "/ws",
        &strings(&["/ws/e", "/ws/d", "/ws/c", "/ws/a"]),
        130,
    );
    assert_eq!(watch.remaining(130), Some(50));
    assert_eq!(
        watch.finish().unwrap(),
        [
            "frost: Bazel change #2 · 5 paths",
            "|-- a",
            "|-- a/b",
            "|-- c",
            "`-- d",
            "    … and 1 more"
        ]
    );
}

#[test]
fn paths_are_kept_once_and_in_order() {
    let mut set = PathSet::new();
    for path in ["-x", "a/../b", "a/b", "./a", "/a", "a//b", "../z", "a"] {
        set.insert(path.to_string());
    }
    assert_eq!(set.len(), 7);
    assert!(!set.is_empty());
    assert_eq!(
        set.items(),
        ["/a", "./a", "../z", "-x", "a", "a/../b", "a/b"]
    );
}

#[test]
fn a_failed_build_keeps_the_process() {
    assert!(matches!(
        after_build(&BuildEnd::Exit { code: 0 }),
        AfterBuild::Restart
    ));
    assert!(matches!(
        after_build(&BuildEnd::Exit { code: 1 }),
        AfterBuild::Keep { .. }
    ));
    assert!(matches!(
        after_first_build(&BuildEnd::Error {
            message: "no manifest".to_string()
        }),
        AfterBuild::Keep { .. }
    ));
}

// Running and debugging

#[test]
fn debug_selects_language_native_argv_without_a_shell() {
    let debugger = "/usr/bin/tool";
    let (javascript, flavor) = language_debug_argv(
        debugger,
        "/workspace/app.js",
        "",
        &strings(&["--port", "3000"]),
    );
    assert_eq!(
        javascript,
        [debugger, "inspect", "/workspace/app.js", "--port", "3000"]
    );
    assert_eq!(flavor, "JavaScript/Node inspector");

    let (python, flavor) = language_debug_argv(debugger, "/workspace/app.py", "", &Vec::new());
    assert_eq!(python, [debugger, "-m", "pdb", "/workspace/app.py"]);
    assert_eq!(flavor, "Python/pdb");
}

#[test]
fn debug_reads_an_executable_jars_main_class() {
    let manifest = manifest_text(Some("pkg.Main"));
    let main_class = jar_main_class(&manifest).unwrap();
    let (argv, flavor) = language_debug_argv(
        "/usr/bin/jdb",
        "/ws/out/app.jar",
        &main_class,
        &strings(&["argument"]),
    );
    assert_eq!(
        argv,
        [
            "/usr/bin/jdb",
            "-classpath",
            "/ws/out/app.jar",
            "pkg.Main",
            "argument"
        ]
    );
    assert_eq!(flavor, "Java/jdb");
}

#[test]
fn programs_run_with_the_runtime_of_their_language() {
    assert_eq!(language_of("out/app.jar"), Language::Java);
    assert_eq!(language_of("out/app.mjs"), Language::JavaScript);
    assert_eq!(language_of("out/app.py"), Language::Python);
    assert_eq!(language_of("out/app.whl"), Language::Wheel);
    assert_eq!(language_of("out/app"), Language::Native);
    assert!(runtime_lookup(Language::Native).is_none());
    let (argv, _) = runtime_argv(None, "/usr/bin/java", "/ws/app.jar", &strings(&["x"])).unwrap();
    assert_eq!(argv, ["/usr/bin/java", "-jar", "/ws/app.jar", "x"]);
    assert!(runtime_argv(None, "", "/ws/app.whl", &Vec::new()).is_none());
    assert!(matches!(
        locate_program("/ws", "tools/cc"),
        Located::At { path } if path == "/ws/tools/cc"
    ));
    assert!(matches!(locate_program("/ws", "cc"), Located::Searched));
}

// Progress

#[test]
fn log_pane_scrolls_and_returns_to_live_tail() {
    let mut state = TuiState::new();
    for index in 0..20 {
        state.push_log(format!("line {index}"));
    }
    state.scroll(5);
    assert_eq!(state.scroll_from_bottom, 5);
    state.scroll(-2);
    assert_eq!(state.scroll_from_bottom, 3);
    state.scroll_from_bottom = 0;
    assert_eq!(state.scroll_from_bottom, 0);
}

#[test]
fn all_cached_fast_path_is_one_aggregate_event() {
    let mut state = TuiState::new();
    state.apply(
        ProgressEvent::BuildStarted {
            total: 50_000,
            jobs: 16,
            critical_path_ms: 0,
            critical_path: Vec::new(),
        },
        0,
    );
    state.apply(ProgressEvent::AllCached { total: 50_000 }, 1);
    assert_eq!(state.completed, 50_000);
    assert_eq!(state.cache_hits, 50_000);
    assert_eq!(state.logs.len(), 1);
}

fn started(slot: usize, completed: usize) -> ProgressEvent {
    ProgressEvent::ActionStarted {
        slot,
        id: format!("a{completed}"),
        desc: "compile".to_string(),
        command: "cc -c source.c".to_string(),
        critical: false,
    }
}

fn finished(slot: usize, completed: usize, state: ProgressState) -> ProgressEvent {
    ProgressEvent::ActionFinished {
        slot,
        completed,
        total: 50_000,
        id: format!("a{completed}"),
        desc: "compile".to_string(),
        state,
        duration_ms: 0,
        detail: String::new(),
        critical: false,
    }
}

#[test]
fn renderer_overhead_gate_stays_below_20us_per_action() {
    let mut state = TuiState::new();
    state.apply(
        ProgressEvent::BuildStarted {
            total: 50_000,
            jobs: 16,
            critical_path_ms: 500,
            critical_path: vec!["link".to_string()],
        },
        0,
    );
    let start = std::time::Instant::now();
    for completed in 1..=50_000 {
        let slot = completed % 16;
        state.apply(started(slot, completed), 0);
        state.apply(finished(slot, completed, ProgressState::CacheHit), 0);
    }
    let elapsed = start.elapsed();
    assert!(
        elapsed < std::time::Duration::from_secs(1),
        "progress model took {elapsed:?} for 50k actions"
    );
}

#[test]
fn a_failure_is_counted_and_kept_in_sight() {
    let mut state = TuiState::new();
    state.apply(
        ProgressEvent::BuildStarted {
            total: 2,
            jobs: 2,
            critical_path_ms: 0,
            critical_path: Vec::new(),
        },
        0,
    );
    state.apply(started(0, 1), 5);
    state.apply(finished(0, 1, ProgressState::Failed), 9);
    assert_eq!(state.failures, 1);
    assert!(state.last_failure.is_some());
    state.apply(
        ProgressEvent::BuildFinished {
            success: false,
            elapsed_ms: 10,
        },
        10,
    );
    assert_eq!(state.finished, Some((false, 10)));
    assert_eq!(state.elapsed_ms(10), 10);
    let times = Times {
        elapsed: "10 ms".to_string(),
        critical: "0 ms".to_string(),
        slots: strings(&["0 ms", "0 ms"]),
    };
    let frame = state.frame(80, 24, &times);
    assert!(frame.iter().all(|line| line.chars().count() <= 80));
}

#[test]
fn keys_move_the_log() {
    let mut state = TuiState::new();
    for index in 0..100 {
        state.push_log(format!("line {index}"));
    }
    state.press(Key::Up);
    assert_eq!(state.scroll_from_bottom, 1);
    state.press(Key::Down);
    assert_eq!(state.scroll_from_bottom, 0);
    state.press(Key::Home);
    assert!(state.scroll_from_bottom > 0);
    state.press(Key::End);
    assert_eq!(state.scroll_from_bottom, 0);
    assert_eq!(truncate("abcdef", 10), "abcdef");
    assert!(truncate("abcdef", 3).chars().count() <= 3);
}

#[test]
fn a_shortened_log_shows_the_same_tail() {
    let mut state = TuiState::new();
    for index in 0..12_000 {
        state.push_log(format!("line {index}"));
    }
    state.scroll(3_000);
    state.push_log("one more".to_string());
    assert_eq!(state.logs.len(), 10_000);
    assert_eq!(state.logs[0], "line 2001");
    assert_eq!(state.logs[9_999], "one more");
    assert_eq!(state.scroll_from_bottom, 3_000);

    let mut far = TuiState::new();
    for index in 0..12_000 {
        far.push_log(format!("line {index}"));
    }
    far.press(Key::Home);
    assert_eq!(far.scroll_from_bottom, 11_999);
    far.push_log("one more".to_string());
    assert_eq!(far.scroll_from_bottom, 9_999);
}

#[test]
fn the_plain_log_prints_what_was_said() {
    let mut log = PlainLog::new();
    log.apply(started(0, 1), false);
    log.apply(
        ProgressEvent::ActionOutput {
            id: "a1".to_string(),
            output: "source.c:1: warning".to_string(),
        },
        false,
    );
    let lines = log.apply(finished(0, 1, ProgressState::Executed), true);
    assert_eq!(
        lines,
        ["[1/50000] compile", "  $ cc -c source.c", "source.c:1: warning"]
    );
    let lines = log.apply(finished(0, 1, ProgressState::Failed), true);
    assert_eq!(lines, ["FAILED: compile"]);
}

// Archives

#[test]
fn long_main_class_uses_spec_compliant_continuation_lines() {
    let name = format!("pkg.{}", "VeryLongClassName".repeat(8));
    let text = write_manifest_header("Main-Class", &name);
    assert!(
        text.split_terminator("\r\n").all(|line| line.len() <= 70),
        "{text:?}"
    );
    assert!(text.lines().skip(1).all(|line| line.starts_with(' ')));
}

#[test]
fn a_main_class_is_read_back_from_its_manifest() {
    for name in ["Main".to_string(), format!("pkg.{}", "Long".repeat(60))] {
        assert!(validate_main_class(&name));
        assert_eq!(jar_main_class(&manifest_text(Some(&name))).unwrap(), name);
    }
    assert!(!validate_main_class("a\nb"));
    assert!(matches!(
        jar_main_class(&manifest_text(None)),
        Err(MainClassError::NoMainClass)
    ));
    assert!(matches!(
        jar_main_class(" continued\r\n"),
        Err(MainClassError::StartsWithContinuation)
    ));
}

#[test]
fn jar_members_are_sorted_behind_a_manifest_that_can_name_a_main_class() {
    assert_eq!(
        jar_entries(&strings(&["pkg/Z.class", "META-INF/MANIFEST.MF", "pkg/A.class"])),
        ["pkg/A.class", "pkg/Z.class"]
    );
    let manifest = manifest_text(Some("pkg.A"));
    assert!(manifest.contains("Main-Class: pkg.A\r\n"), "{manifest:?}");
}

#[test]
fn distribution_names_follow_wheel_filename_normalization() {
    assert_eq!(
        normalize_distribution("Demo.Package-name").unwrap(),
        "demo_package_name"
    );
    assert!(normalize_distribution("bad/").is_err());
    assert!(validate_version("1.2.3"));
    assert!(!validate_version("1.02.3"));
    assert!(!validate_version("1.0-bad"));
}

fn file(name: &str, bytes: &[u8]) -> Entry {
    Entry {
        name: name.to_string(),
        bytes: bytes.to_vec(),
    }
}

#[test]
fn wheel_is_deterministic_and_record_hashes_every_entry() {
    let output = "dist/demo_pkg-1.2.3-py3-none-any.whl";
    let name = check_wheel("Demo.Pkg", "1.2.3", output).unwrap();
    let entries = pack_entries(
        &name,
        "Demo.Pkg",
        "1.2.3",
        "0.1.0",
        vec![
            file("demo/data.txt", b"data\n"),
            file("demo/__init__.py", b"VALUE = 42\n"),
        ],
    )
    .unwrap();
    let record_name = "demo_pkg-1.2.3.dist-info/RECORD";
    let record = entries
        .iter()
        .find(|entry| entry.name == record_name)
        .map(|entry| String::from_utf8(entry.bytes.clone()).unwrap())
        .unwrap();
    assert!(record.ends_with(&format!("{record_name},,\n")));
    for name in [
        "demo/__init__.py",
        "demo/data.txt",
        "demo_pkg-1.2.3.dist-info/METADATA",
        "demo_pkg-1.2.3.dist-info/WHEEL",
    ] {
        let bytes = &entries.iter().find(|entry| entry.name == name).unwrap().bytes;
        let hash = base64::Engine::encode(
            &base64::engine::general_purpose::URL_SAFE_NO_PAD,
            Sha256::digest(bytes),
        );
        assert!(
            record.contains(&format!("{name},sha256={hash},{}\n", bytes.len())),
            "{record:?}"
        );
    }
}

#[test]
fn a_wheel_says_what_is_wrong_with_it() {
    let fault = |name, version, output| check_wheel(name, version, output).err();
    assert_eq!(
        fault("dé", "1.0.0", "d.whl"),
        Some(WheelFault::DistributionNotAscii)
    );
    assert_eq!(
        fault("a b", "1.0.0", "d.whl"),
        Some(WheelFault::DistributionCharacter)
    );
    assert_eq!(
        fault("a-", "1.0.0", "d.whl"),
        Some(WheelFault::DistributionEnd)
    );
    assert_eq!(fault("a", "01", "d.whl"), Some(WheelFault::Version));
    assert_eq!(fault("a", "1.0.0", "d.whl"), Some(WheelFault::Filename));
    assert_eq!(
        pack_entries("a", "a", "1.0.0", "0.1.0", Vec::new()).err(),
        Some(WheelFault::NoFiles)
    );
    assert_eq!(
        archive_name("../a.py").err(),
        Some(WheelFault::EntryPath)
    );
    assert_eq!(
        archive_name("a\nb.py").err(),
        Some(WheelFault::EntryLineBreak)
    );
    assert_eq!(csv_field("plain"), "plain");
    assert_eq!(csv_field("a,\"b\""), "\"a,\"\"b\"\"\"");
}

// Importing npm workspaces

fn package(
    name: &str,
    scripts: &[&str],
    all: &[&str],
    ordered: &[&str],
    inputs: &[&str],
) -> WorkspacePackage {
    WorkspacePackage {
        name: name.to_string(),
        scripts: strings(scripts),
        all_dependencies: strings(all),
        ordered_dependencies: strings(ordered),
        own_inputs: strings(inputs),
    }
}

#[test]
fn imports_workspace_scripts_and_transitive_inputs() {
    let mut packages = SortedMap::new();
    packages.insert(
        "@demo/core".to_string(),
        package(
            "@demo/core",
            &["test", "typecheck"],
            &[],
            &[],
            &["packages/core/src/**/*"],
        ),
    );
    packages.insert(
        "@demo/web".to_string(),
        package(
            "@demo/web",
            &["typecheck"],
            &["@demo/core"],
            &["@demo/core"],
            &["apps/web/src/**/*"],
        ),
    );
    let common = root_inputs(&strings(&["package.json", "package-lock.json"]), &Vec::new());
    let plan =
        frostbuild::npm::generate_plan(&packages, &Vec::new(), "npm", "node", &common).unwrap();
    assert_eq!(plan.package_count, 2);
    assert_eq!(plan.target_count, 3);
    assert!(plan.manifest.contains("[target.demo-web-typecheck]"));
    assert!(plan.manifest.contains("deps = [\"demo-core-typecheck\"]"));
    let web = plan
        .manifest
        .split("[target.demo-web-typecheck]")
        .nth(1)
        .unwrap();
    assert!(web.contains("packages/core/src/**/*"));
    assert!(web.contains("args = [\"run\",\"typecheck\",\"--workspace\",\"@demo/web\"]"));
    assert!(!plan.manifest.contains("kind = \"command\""));
}

#[test]
fn accepts_object_workspace_syntax_and_selected_scripts() {
    let mut packages = SortedMap::new();
    packages.insert(
        "module-a".to_string(),
        package(
            "module-a",
            &["build", "lint"],
            &[],
            &[],
            &["modules/a/src/**/*"],
        ),
    );
    let plan = frostbuild::npm::generate_plan(
        &packages,
        &strings(&["lint"]),
        "tools/npm",
        "tools/node",
        &Vec::new(),
    )
    .unwrap();
    assert_eq!(plan.target_count, 1);
    assert!(plan.manifest.contains("npm = \"tools/npm\""));
    assert!(plan.manifest.contains("node = \"tools/node\""));
    assert!(plan.manifest.contains("[target.module-a-lint]"));
    assert!(!plan.manifest.contains("vite build"));
}

#[test]
fn rejects_patterns_that_escape_or_match_nothing() {
    let error = validate_workspace_pattern("../*").unwrap_err();
    assert!(error.message().contains("must stay below"), "{error:?}");
    assert!(matches!(
        validate_workspace_pattern(""),
        Err(NpmError::EmptyPattern)
    ));
    assert!(matches!(
        validate_workspace_pattern("!packages/*"),
        Err(NpmError::ExclusionPattern { .. })
    ));
    assert!(validate_workspace_pattern("packages/*").is_ok());
}

#[test]
fn an_npm_import_says_what_it_lacks() {
    let mut packages = SortedMap::new();
    packages.insert(
        "a".to_string(),
        package("a", &["deploy"], &[], &[], &["a/src"]),
    );
    let plan = |requested: &[&str], npm: &str, node: &str| {
        frostbuild::npm::generate_plan(&packages, &strings(requested), npm, node, &Vec::new())
            .unwrap_err()
    };
    assert!(matches!(plan(&[""], "npm", "node"), NpmError::EmptyScript));
    assert!(matches!(plan(&[], "npm", "node"), NpmError::NoScripts { .. }));
    assert!(matches!(plan(&["deploy"], "", "node"), NpmError::EmptyNpm));
    assert!(matches!(plan(&["deploy"], "npm", ""), NpmError::EmptyNode));
    assert!(matches!(target_name("@/", "!"), Err(NpmError::NoTargetName)));
    assert_eq!(target_name("@demo/web", "build").unwrap(), "demo-web-build");
    assert_eq!(normalized_scripts(&strings(&["b", "a", "b"])).unwrap(), ["a", "b"]);
}

#[test]
fn an_npm_import_that_cannot_be_built_is_refused() {
    let plan = |list: Vec<WorkspacePackage>| {
        let mut packages = SortedMap::new();
        for package in list {
            add_package(&mut packages, package).unwrap();
        }
        frostbuild::npm::generate_plan(&packages, &strings(&["test"]), "npm", "node", &Vec::new())
    };
    let own = plan(vec![package("a", &["test"], &["a"], &["a"], &["a/*"])]).unwrap_err();
    assert!(matches!(
        &own,
        NpmError::InvalidManifest { error: ManifestError::DependsOnItself { target } }
            if target == "a-test"
    ));
    assert_eq!(
        own.message(),
        "generated npm manifest is invalid: target \"a-test\" depends on itself"
    );
    let round = plan(vec![
        package("a", &["test"], &["b"], &["b"], &["a/*"]),
        package("b", &["test"], &["a"], &["a"], &["b/*"]),
    ])
    .unwrap_err();
    assert!(matches!(
        &round,
        NpmError::InvalidGraph { fault: GraphError::Cycle { names } }
            if *names == ["a-test", "b-test", "a-test"]
    ));
    assert!(round
        .message()
        .starts_with("generated npm target graph is invalid: "));
    let escaping = plan(vec![package("a", &["test"], &[], &[], &["../a/*"])]).unwrap_err();
    assert!(matches!(
        escaping,
        NpmError::InvalidManifest { error: ManifestError::InvalidTarget { .. } }
    ));
    let peers = plan(vec![
        package("a", &["test"], &["b"], &[], &["a/*"]),
        package("b", &["test"], &["a"], &[], &["b/*"]),
    ])
    .unwrap();
    assert!(!peers.manifest.contains("deps = "));
}

#[test]
fn packages_are_found_by_their_names() {
    assert_eq!(
        package_name(&Some("  @demo/core\n".to_string())).as_deref(),
        Some("@demo/core")
    );
    assert!(package_name(&Some(" \t".to_string())).is_none());
    assert!(package_name(&None).is_none());
    assert_eq!(
        dependency_names(&vec![strings(&["b", "a"]), strings(&["c", "a"])]),
        ["a", "b", "c"]
    );
    let json = PackageJson {
        name: None,
        scripts: strings(&["test"]),
        dependencies: strings(&["d"]),
        dev_dependencies: strings(&["v"]),
        optional_dependencies: strings(&["o"]),
        peer_dependencies: strings(&["p"]),
    };
    let made = WorkspacePackage::new("a".to_string(), &json, strings(&["a/*"]));
    assert_eq!(made.all_dependencies, ["d", "o", "p", "v"]);
    assert_eq!(made.ordered_dependencies, ["d", "o"]);
    assert_eq!(made.scripts, ["test"]);
    let mut packages = SortedMap::new();
    assert!(add_package(&mut packages, made).is_ok());
    let again = package("a", &[], &[], &[], &[]);
    let error = add_package(&mut packages, again).unwrap_err();
    assert_eq!(error.message(), "duplicate npm workspace package name \"a\"");
    assert_eq!(packages.get("a").unwrap().scripts, ["test"]);
    assert_eq!(
        NpmError::NoPackageName { path: "a/package.json".to_string() }.message(),
        "a/package.json has no non-empty package name"
    );
}

#[test]
fn all_scripts_depend_on_the_files_of_the_root() {
    assert_eq!(
        root_files(),
        [
            "package.json",
            "package-lock.json",
            "npm-shrinkwrap.json",
            ".npmrc",
            "tsconfig.json"
        ]
    );
    assert_eq!(
        root_inputs(
            &strings(&["tsconfig.json", "package.json"]),
            &strings(&["tsconfig.base.json", "tsconfig.json", "README.md", "package-lock.json"]),
        ),
        ["package.json", "tsconfig.base.json", "tsconfig.json"]
    );
}

// Importing Bazel and Ninja builds

fn list(name: &str, labels: &[&str], values: &[&str]) -> RuleList {
    RuleList {
        name: name.to_string(),
        labels: strings(labels),
        strings: strings(values),
    }
}

fn rule(class: &str, name: &str, lists: Vec<RuleList>) -> XmlRule {
    XmlRule {
        class: class.to_string(),
        name: name.to_string(),
        lists,
        strings: Vec::new(),
        ints: Vec::new(),
        booleans: Vec::new(),
    }
}

fn two_rules(library: &str, local_defines: &str) -> Vec<XmlRule> {
    vec![
        rule(
            "cc_library rule",
            library,
            vec![
                list("srcs", &["//lib:math.cc"], &[]),
                list("hdrs", &["//lib:math.h"], &[]),
                list("includes", &[], &["include"]),
                list(local_defines, &[], &["LOCAL=1"]),
            ],
        ),
        rule(
            "cc_binary rule",
            "//app:runner",
            vec![
                list("srcs", &["//app:main.cc"], &[]),
                list("deps", &[library], &[]),
                list("copts", &[], &["-Wextra"]),
                list("linkopts", &[], &["-pthread"]),
            ],
        ),
    ]
}

#[test]
fn query_xml_becomes_multi_package_frost_manifests() {
    let plan = frostbuild::bazel::generate_plan(
        &two_rules("//lib:math-core", "local_defines"),
        "bazel 9.1.0",
    )
    .unwrap();
    assert_eq!(plan.rule_count, 2);
    assert_eq!(plan.package_count, 3);
    let text = |path: &str| {
        plan.files
            .iter()
            .find(|file| file.path == path)
            .map(|file| file.text.clone())
            .unwrap()
    };
    let root = text("frost.toml");
    assert!(root.contains("//app:runner"), "{root}");
    let library = text("lib/frost.toml");
    assert!(library.contains("[target.math-core]"), "{library}");
    assert!(library.contains("cflags = [\"-DLOCAL=1\"]"), "{library}");
    let app = text("app/frost.toml");
    assert!(app.contains("deps = [\"//lib:math-core\"]"), "{app}");
    assert!(app.contains("ldflags = [\"-pthread\"]"), "{app}");
}

#[test]
fn unsupported_semantics_fail_the_whole_plan() {
    let external = two_rules("@outside//lib:math", "local_defines");
    let error = frostbuild::bazel::generate_plan(&external, "bazel")
        .unwrap_err()
        .message();
    assert!(error.contains("external repository"), "{error}");

    let defines = two_rules("//lib:math-core", "defines");
    let error = frostbuild::bazel::generate_plan(&defines, "bazel")
        .unwrap_err()
        .message();
    assert!(error.contains("unsupported attribute"), "{error}");

    let error = ensure_configuration_free(
        "cc_binary(name = 'app', srcs = select({'//conditions:default': ['a.cc']}))",
    )
    .unwrap_err()
    .message();
    assert!(error.contains("configuration-dependent"), "{error}");
}

#[test]
fn a_bazel_import_says_what_it_refuses() {
    let refused = |rules: Vec<XmlRule>| {
        frostbuild::bazel::generate_plan(&rules, "bazel").unwrap_err()
    };
    assert!(matches!(refused(Vec::new()), BazelError::NoRules));
    assert!(matches!(
        refused(vec![rule("java_library rule", "//a:b", Vec::new())]),
        BazelError::NoRules
    ));
    assert!(matches!(
        parse_label("lib:math"),
        Err(BazelError::NonCanonical { .. })
    ));
    assert!(matches!(
        parse_label("//lib:"),
        Err(BazelError::NoName { .. })
    ));
    assert_eq!(parse_label("//lib/sub").unwrap().name, "sub");
    let label = parse_label("//lib:math").unwrap();
    assert_eq!((label.package.as_str(), label.name.as_str()), ("lib", "math"));
    assert_eq!(frost_name("a/b"), "a_b");
}

#[test]
fn bazel_is_called_with_the_target_first_named() {
    assert_eq!(
        bazel_build_args("//a:b", &strings(&["-c", "opt"])),
        ["build", "-c", "opt", "//a:b"]
    );
    assert_eq!(
        bazel_run_args("//a:b", &strings(&["-c", "opt"]), &strings(&["--port"])),
        ["run", "-c", "opt", "//a:b", "--", "--port"]
    );
}

#[test]
fn a_ninja_file_becomes_one_target_for_each_statement() {
    let text = "rule cc\n  command = cc -c $in -o $out\nbuild a.o: cc a.c | a.h\nbuild b.o: cc a.o\n";
    assert_eq!(
        import_ninja(text).unwrap(),
        "[workspace]\n\n\
         [target.a_o]\nkind = \"genrule\"\ncmd = \"cc -c ${in} -o ${outs}\"\n\
         inputs = [\"a.c\",\"a.h\"]\noutputs = [\"a.o\"]\ndeps = []\n\n\
         [target.b_o]\nkind = \"genrule\"\ncmd = \"cc -c ${in} -o ${outs}\"\n\
         inputs = []\noutputs = [\"b.o\"]\ndeps = [\"a_o\"]\n\n"
    );
    assert_eq!(sanitize_target("out/a-b.o"), "out_a_b_o");
    assert!(matches!(
        import_ninja("build a.o cc a.c\n"),
        Err(NinjaError::InvalidStatement)
    ));
    assert!(matches!(
        import_ninja("build a.o:\n"),
        Err(NinjaError::MissingRule)
    ));
    assert!(matches!(
        import_ninja("build : cc a.c\n"),
        Err(NinjaError::NoOutput)
    ));
    let error = import_ninja("build a.o: ld a.c\n").unwrap_err();
    assert_eq!(error.message(), "unsupported/unknown Ninja rule \"ld\"");
}

// Starting a workspace

fn source(path: &str, text: &str) -> SourceFile {
    SourceFile {
        path: path.to_string(),
        text: Some(text.to_string()),
    }
}

#[test]
fn a_scaffold_names_what_it_found() {
    let made = scaffold(
        "my app",
        &vec![
            source("src/main.c", "int main(void) { return 0; }"),
            source("src/util.c", "int util(void) { return 1; }"),
        ],
        true,
    )
    .unwrap();
    let text = made.manifest;
    assert!(text.starts_with("[workspace]\ndefault_targets = [\"my-app\"]\n"), "{text}");
    assert!(text.contains("cflags = [\"-O0\", \"-g\"]"), "{text}");
    assert!(
        text.contains("[target.my-app_lib]\nkind = \"cc_library\"\nsrcs = [\"src/util.c\"]\n"),
        "{text}"
    );
    assert!(
        text.ends_with(
            "[target.my-app]\nkind = \"cc_binary\"\nsrcs = [\"src/main.c\"]\ndeps = [\"my-app_lib\"]\n"
        ),
        "{text}"
    );
    assert!(matches!(scaffold("a", &Vec::new(), false), Err(NoSources)));
}

#[test]
fn a_language_is_chosen_or_found() {
    let c = || vec![source("main.c", "int main(void) { return 0; }")];
    let java = || {
        vec![
            source("src/Util.java", "package com.example;\nclass Util {}\n"),
            source(
                "src/Main.java",
                "// static void main(\npackage com.example ;\nclass Main {\n  public static void main(String[] a) {}\n}\n",
            ),
        ]
    };
    let none = Vec::new();
    let made = scaffold_for(None, "demo", &none, &java(), false, false).unwrap();
    assert!(made.manifest.contains("tool = \"javac\""));
    assert!(made.manifest.contains("\"--main-class\", \"com.example.Main\""));
    assert_eq!(made.summary[1], "entry point: src/Main.java");
    let library = scaffold_for(None, "demo", &none, &vec![source("A.java", "class A {}")], false, false);
    assert_eq!(
        library.unwrap().summary[1],
        "no main() found, so the JAR is a library"
    );
    assert!(scaffold_for(None, "demo", &c(), &none, false, false)
        .unwrap()
        .manifest
        .contains("cc_binary"));
    let failed = |chosen, native: &Vec<SourceFile>, java: &Vec<SourceFile>, tool| {
        scaffold_for(chosen, "demo", native, java, false, tool).unwrap_err()
    };
    assert_eq!(failed(None, &c(), &java(), false), ScaffoldError::Mixed);
    assert_eq!(failed(None, &none, &java(), true), ScaffoldError::BuildTool);
    assert_eq!(failed(None, &none, &none, false), ScaffoldError::NoSources);
    assert_eq!(
        failed(Some(ScaffoldLanguage::Native), &none, &java(), false),
        ScaffoldError::NoSources
    );
    assert_eq!(
        failed(Some(ScaffoldLanguage::Java), &c(), &none, false),
        ScaffoldError::NoJavaSources
    );
    assert!(ScaffoldError::NoSources
        .message("/ws")
        .contains("no C or C++ sources"));
    assert!(ScaffoldError::Mixed.message("/ws").contains("--language"));
    assert!(ScaffoldError::BuildTool.message("/ws").contains("Gradle"));
    assert_eq!(
        ScaffoldError::NoJavaSources.message("/ws"),
        "no Java sources under /ws"
    );
    for chosen in [ScaffoldLanguage::Native, ScaffoldLanguage::Java] {
        assert!(scaffold_for(Some(chosen), "demo", &c(), &java(), false, true).is_ok());
    }
    assert!(is_java_source("a/B.java") && !is_java_source("a/b.c"));
    assert!(is_build_tool_file("pom.xml") && !is_build_tool_file("frost.toml"));
}

#[test]
fn a_wheel_leaves_caches_out() {
    assert!(left_out("__pycache__", true) && !left_out("__pycache__", false));
    assert!(left_out("a.pyc", false) && !left_out("a.pyc", true));
    assert!(!left_out("a.py", false));
    assert!(is_source("a.cpp") && !is_source("a.h"));
    assert!(is_unseen(".git") && !is_unseen("src"));
    assert!(defines_main("int main(int argc)") && !defines_main("int other(int a)"));
    assert_eq!(sanitize_name("--a b--"), "a-b");
}

// Tools, completion, literals

#[test]
fn a_workspace_is_ready_when_every_tool_is_there() {
    let tool = Tool {
        name: "cc".to_string(),
        configured: "gcc".to_string(),
    };
    let found = inspected(&tool, &Some("/usr/bin/gcc".to_string()), true);
    assert!(found.available);
    assert_eq!(found.resolved.as_deref(), Some("/usr/bin/gcc"));
    let missing = inspected(&tool, &None, true);
    assert!(!missing.available);
    assert!(ready(&vec![found]));
    assert!(!ready(&vec![missing]));
    assert!(optional_tools().iter().any(|tool| tool.configured == "fzf"));
}

#[test]
fn completion_looks_where_the_command_line_points() {
    let args = strings(&["frost", "-C", "sub", "build"]);
    assert_eq!(completion_workspace(&args, "/home/me"), "/home/me/sub");
    assert_eq!(
        completion_workspace(&strings(&["frost", "build"]), "/home/me"),
        "/home/me"
    );
    assert_eq!(
        candidates("ap", &strings(&["app", "lib", "apt"])),
        ["app", "apt"]
    );
}

#[test]
fn literals_are_quoted() {
    assert_eq!(json_list(&strings(&["a\"b", "c\n"])), "[\"a\\\"b\",\"c\\n\"]");
    assert_eq!(toml_array(&strings(&["a\"b", "c"])), "[\"a\\\"b\", \"c\"]");
    assert_eq!(toml_array(&Vec::new()), "[]");
}
