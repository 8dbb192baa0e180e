use frostbuild::daemon::{
    barrier_path, child_response, error_response, handle, noop_response, read_frame, socket_path,
    spawn_error_response, watcher_barrier_id, write_frame, DaemonState, FastNoopRequest, Handled,
    Hit, Outcome, Phase, Request, Step, FRAME_LIMIT, PROTOCOL_VERSION,
};
use frostbuild::sorted_map::SortedMap;

#[test]
fn watcher_barriers_are_distinct_from_workspace_changes() {
    assert_eq!(watcher_barrier_id(".frost/.frostd-barrier-42"), Some(42));
    assert_eq!(watcher_barrier_id("src/.frostd-barrier-42"), None);
    assert_eq!(watcher_barrier_id(".frost/output"), None);
}

#[test]
fn a_barrier_is_known_by_its_path() {
    for id in [0, 1, 42, u64::MAX] {
        assert_eq!(watcher_barrier_id(&barrier_path(id)), Some(id));
    }
}

#[test]
fn a_path_is_dirty_once() {
    let mut state = DaemonState::new();
    let paths = ["/ws/a//b", "/ws/a/b", "/ws/a/./b", "/ws/c"];
    state.observe("/ws", &paths.iter().map(|path| path.to_string()).collect());
    let status = Request::Status {
        version: PROTOCOL_VERSION,
    };
    let Handled::Reply { response, .. } = handle(&state, &status) else {
        panic!("a status request is answered at once")
    };
    assert_eq!(response.stdout, "running (2 dirty paths)");
    assert_eq!(state.event_epoch, 4);
}

#[test]
fn workspace_daemon_serves_status_and_shutdown() {
    let state = DaemonState::new();
    let Handled::Reply { response, shutdown } = handle(
        &state,
        &Request::Status {
            version: PROTOCOL_VERSION,
        },
    ) else {
        panic!("a status request is answered at once")
    };
    assert_eq!(response.code, 0);
    assert!(response.stdout.starts_with("running ("));
    assert!(!shutdown);

    let Handled::Reply { response, shutdown } = handle(
        &state,
        &Request::Shutdown {
            version: PROTOCOL_VERSION,
        },
    ) else {
        panic!("a shutdown request is answered at once")
    };
    assert_eq!(response.code, 0);
    assert_eq!(response.stdout, "stopped");
    assert!(shutdown);
}

#[test]
fn another_protocol_version_is_refused() {
    let Handled::Reply { response, shutdown } = handle(
        &DaemonState::new(),
        &Request::Shutdown {
            version: PROTOCOL_VERSION + 1,
        },
    ) else {
        panic!("a foreign request is answered at once")
    };
    assert_ne!(response.code, 0);
    assert!(!shutdown);
}

#[test]
fn a_frame_is_its_length_and_its_payload() {
    let frame = write_frame(&b"hello".to_vec());
    assert_eq!(frame, b"\x00\x00\x00\x05hello");
    assert_eq!(read_frame([0, 0, 0, 5]), Some(5));
    assert_eq!(read_frame((FRAME_LIMIT as u32).to_be_bytes()), Some(FRAME_LIMIT));
    assert_eq!(read_frame((FRAME_LIMIT as u32 + 1).to_be_bytes()), None);
}

#[test]
fn responses_say_what_happened() {
    let hit = Hit {
        closure_actions: 2,
        graph_actions: 9,
    };
    let noop = noop_response(PROTOCOL_VERSION, hit, 5);
    assert_eq!(noop.code, 0);
    assert!(
        noop.stdout.contains("frost: up to date · 2 of 9 actions · 5 ms"),
        "{}",
        noop.stdout
    );
    assert_ne!(error_response(PROTOCOL_VERSION, "broken").code, 0);
    assert_ne!(
        spawn_error_response(PROTOCOL_VERSION, "broken".to_string()).code,
        0
    );
    let child = child_response(PROTOCOL_VERSION, Some(3), "out".to_string(), "err".to_string());
    assert_eq!(
        (child.code, child.stdout.as_str(), child.stderr.as_str()),
        (3, "out", "err")
    );
}

fn asked() -> FastNoopRequest {
    FastNoopRequest {
        profile: "debug".to_string(),
        platform: "host".to_string(),
        key_env: SortedMap::new(),
    }
}

const HIT: Hit = Hit {
    closure_actions: 1,
    graph_actions: 1,
};

/// Runs a request as far as its barriers go: every barrier is seen.
fn settle(state: &mut DaemonState, phase: Phase, step: Step, outcomes: &[Outcome]) -> Step {
    let (mut phase, mut step) = (phase, step);
    let mut next = outcomes.iter();
    loop {
        let outcome = match step {
            Step::WriteBarrier { id } => {
                state.observe("/ws", &vec![format!("/ws/{}", barrier_path(id))]);
                Outcome::BarrierWaited
            }
            Step::CheckProof { .. } | Step::Validate | Step::RunChild => *next.next().unwrap(),
            _ => return step,
        };
        (phase, step) = state.advance(phase, &asked(), outcome);
    }
}

#[test]
fn a_proven_build_is_answered_until_something_changes() {
    let mut state = DaemonState::new();
    let (phase, step) = state.start(&Some(asked()));
    let end = settle(
        &mut state,
        phase,
        step,
        &[
            Outcome::Validated {
                hit: HIT,
                ticket: Some(7),
            },
            Outcome::Validated {
                hit: HIT,
                ticket: Some(7),
            },
        ],
    );
    assert!(matches!(end, Step::AnswerUpToDate { .. }), "{end:?}");

    let (phase, step) = state.start(&Some(asked()));
    assert!(matches!(step, Step::CheckProof { ticket: 7 }), "{step:?}");
    let end = settle(&mut state, phase, step, &[Outcome::ProofHit { hit: HIT }]);
    assert!(matches!(end, Step::AnswerUpToDate { .. }), "{end:?}");

    state.observe("/ws", &vec!["/ws/src/main.c".to_string()]);
    let (_, step) = state.start(&Some(asked()));
    assert!(!matches!(step, Step::CheckProof { .. }), "{step:?}");
}

#[test]
fn a_request_without_a_proof_runs_the_child() {
    let mut state = DaemonState::new();
    let (phase, step) = state.start(&None);
    let end = settle(
        &mut state,
        phase,
        step,
        &[Outcome::ChildExited { success: true }],
    );
    assert!(matches!(end, Step::AnswerChild), "{end:?}");
}

#[test]
fn each_workspace_has_its_own_socket() {
    let one = socket_path("/run/user/1000", "/home/me/one");
    let two = socket_path("/run/user/1000", "/home/me/two");
    assert_ne!(one, two);
    assert!(one.starts_with("/run/user/1000/"), "{one}");
    assert!(one.len() < 100, "{one}");
}
