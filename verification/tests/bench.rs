use frostbuild::bench::{
    changed_offset, chunk_modes, fixture_bytes, fixture_size, path_order, recorded_count,
    render_table, simulate_head, simulate_jobs, BenchError, Reference, Simulation, Sweep, ESTIMATORS, GENERATOR_SEED, MIB,
    SCHEDULERS,
};
use frostbuild::request::{EstimatorArg, SchedulerArg};

/// Three actions of 10 ms, two of them in a chain: one worker pays for all
/// the work, four workers reach the chain, whatever the strategy.
fn two_chains(jobs: &[usize]) -> Sweep {
    let reference = Reference {
        duration_ms: vec![10, 10, 10],
        critical_path: vec![0, 1],
        critical_path_ms: 20,
        work_ms: 30,
        actions: 3,
    };
    let mut simulated = Vec::new();
    for _ in 0..SCHEDULERS.len() * ESTIMATORS.len() {
        simulated.push(
            jobs.iter()
                .map(|&jobs| Simulation {
                    jobs,
                    makespan_ms: if jobs == 1 { 30 } else { 20 },
                })
                .collect(),
        );
    }
    Sweep::run(
        &jobs.to_vec(),
        &SCHEDULERS.to_vec(),
        &ESTIMATORS.to_vec(),
        &reference,
        &simulated,
    )
}

#[test]
fn sweep_reports_every_strategy_and_finds_the_best() {
    let sweep = two_chains(&[1, 4]);
    assert_eq!(sweep.points.len(), 2 * 4 * 2);
    assert_eq!(sweep.actions, 3);
    let best = &sweep.points[sweep.best().unwrap()];
    assert_eq!(
        best.simulation.makespan_ms, 20,
        "every strategy is scored on the journal clock, so no estimator \
         can look fast by guessing low"
    );
    assert_eq!(
        best.simulation.jobs, 4,
        "the fastest point uses parallelism"
    );
    for p in &sweep.points {
        assert!(
            p.simulation.makespan_ms >= sweep.critical_path_ms,
            "no schedule can beat the critical path"
        );
    }

    let table = render_table(&sweep);
    assert!(table.contains("critical-path / journal"), "{table}");
    assert!(table.contains("-j 4"), "{table}");
}

#[test]
fn a_sweep_finds_its_points_again() {
    let sweep = two_chains(&[1, 4]);
    let at = sweep
        .get(SchedulerArg::Fifo, EstimatorArg::Journal, 4)
        .unwrap();
    assert_eq!(sweep.points[at].simulation.makespan_ms, 20);
    assert_eq!(sweep.points[at].simulation.jobs, 4);
    assert!(sweep
        .get(SchedulerArg::Fifo, EstimatorArg::Journal, 3)
        .is_none());
}

#[test]
fn job_counts_to_simulate_fit_the_host() {
    assert_eq!(simulate_jobs(&Some(vec![3, 5]), 8), [3, 5]);
    assert_eq!(simulate_jobs(&Some(Vec::new()), 8), [1]);
    assert_eq!(simulate_jobs(&None, 8), [1, 2, 4, 8]);
    assert_eq!(simulate_jobs(&None, 0), [1]);
}

#[test]
fn fixture_sizes_are_checked() {
    assert_eq!(fixture_size(64, 3).unwrap(), 64 * MIB);
    assert!(matches!(fixture_size(64, 0), Err(BenchError::NoIterations)));
    assert!(matches!(
        fixture_size(u64::MAX, 1),
        Err(BenchError::TooLarge)
    ));
    assert!(matches!(fixture_size(0, 1), Err(BenchError::TooSmall)));
}

#[test]
fn fixture_bytes_go_on_where_they_stopped() {
    let (whole, end) = fixture_bytes(GENERATOR_SEED, 100);
    let (first, middle) = fixture_bytes(GENERATOR_SEED, 40);
    let (second, last) = fixture_bytes(middle, 60);
    assert_eq!(whole, [first, second].concat());
    assert_eq!(end, last);
}

#[test]
fn iterations_take_turns() {
    assert_ne!(chunk_modes(0), chunk_modes(1));
    for iteration in 0..4 {
        let mut order = path_order(iteration).to_vec();
        order.sort();
        assert_eq!(order, [0, 1, 2]);
    }
    assert_eq!(changed_offset(1000, 0), 500);
    assert_eq!(changed_offset(8 * MIB, 2), 4 * MIB + 8192);
}

#[test]
fn a_comparison_says_what_it_goes_by() {
    assert_eq!(recorded_count(&vec![Some(3), None, Some(0)]), 1);
    let lines = simulate_head(&two_chains(&[1, 4]), 1);
    assert_eq!(
        lines,
        [
            "frost: simulating 3 actions from the journal (no build, no cache writes)",
            "  note: 2 of 3 actions have no recorded duration; those fall back to estimates",
            "",
            "  critical path  20 ms   total work  30 ms",
            "  no schedule can finish faster than the critical path.",
            ""
        ]
    );
    assert_eq!(simulate_head(&two_chains(&[1]), 3).len(), 5);
}
