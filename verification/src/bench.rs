//! Comparing schedules, and measuring the store.

use vstd::prelude::*;
use vstd::string::*;

use crate::cas::CHUNKING_THRESHOLD;
use crate::request::{EstimatorArg, SchedulerArg};
use crate::text::{
    chars_of, copy, decimal, number, pad_left, pad_right, padded_left, padded_right, texts,
};

verus! {

pub const MIB: u64 = 1024 * 1024;

/// The state that fixtures begin from.
pub const GENERATOR_SEED: u64 = 0x4d59_5df4_d0f3_3173;

/// The schedulers, in the order of a report.
pub const SCHEDULERS: [SchedulerArg; 2] = [SchedulerArg::CriticalPath, SchedulerArg::Fifo];

/// The estimators, in the order of a report.
pub const ESTIMATORS: [EstimatorArg; 4] = [
    EstimatorArg::Journal,
    EstimatorArg::Learned,
    EstimatorArg::Heuristic,
    EstimatorArg::Static,
];

// ---------------------------------------------------------------------------
// Sweeps
// ---------------------------------------------------------------------------

/// How long a schedule takes with a number of workers.
#[derive(Debug, Clone, Copy, PartialEq, Eq, Structural)]
pub struct Simulation {
    pub jobs: usize,
    pub makespan_ms: u64,
}

/// A strategy with a number of workers.
#[derive(Debug, Clone, Copy, PartialEq, Eq, Structural)]
pub struct Point {
    pub scheduler: SchedulerArg,
    pub estimator: EstimatorArg,
    pub simulation: Simulation,
}

/// The schedule that all others are measured by: the one that follows the
/// critical path with the recorded durations.
#[derive(Debug)]
pub struct Reference {
    /// The duration of each action.
    pub duration_ms: Vec<u64>,
    /// The actions on the critical path.
    pub critical_path: Vec<usize>,
    pub critical_path_ms: u64,
    pub work_ms: u64,
    pub actions: usize,
}

/// An action on the critical path and its duration.
#[derive(Debug)]
pub struct Leg {
    pub action: String,
    pub duration_ms: u64,
}

/// Strategies over numbers of workers.
#[derive(Debug)]
pub struct Sweep {
    pub points: Vec<Point>,
    pub jobs: Vec<usize>,
    pub critical_path_ms: u64,
    pub work_ms: u64,
    pub actions: usize,
    pub critical_path: Vec<Leg>,
}

/// The duration of an action; 0 where it is not known.
pub open spec fn duration_of(reference: Reference, action: usize) -> u64 {
    if (action as int) < reference.duration_ms@.len() {
        reference.duration_ms@[action as int]
    } else {
        0
    }
}

/// The points of one strategy.
pub open spec fn strategy_points(
    scheduler: SchedulerArg,
    estimator: EstimatorArg,
    simulated: Seq<Simulation>,
) -> Seq<Point> {
    Seq::new(
        simulated.len(),
        |j: int| Point { scheduler, estimator, simulation: simulated[j] },
    )
}

/// The points of a scheduler with the first `n` estimators. `at` is the number
/// of its first strategy.
pub open spec fn scheduler_points(
    scheduler: SchedulerArg,
    estimators: Seq<EstimatorArg>,
    simulated: Seq<Vec<Simulation>>,
    at: int,
    n: nat,
) -> Seq<Point>
    decreases n,
{
    if n == 0 {
        Seq::empty()
    } else {
        scheduler_points(scheduler, estimators, simulated, at, (n - 1) as nat) + strategy_points(
            scheduler,
            estimators[n - 1],
            simulated[at + n - 1]@,
        )
    }
}

/// The points of the first `n` schedulers.
pub open spec fn sweep_points(
    schedulers: Seq<SchedulerArg>,
    estimators: Seq<EstimatorArg>,
    simulated: Seq<Vec<Simulation>>,
    n: nat,
) -> Seq<Point>
    decreases n,
{
    if n == 0 {
        Seq::empty()
    } else {
        sweep_points(schedulers, estimators, simulated, (n - 1) as nat) + scheduler_points(
            schedulers[n - 1],
            estimators,
            simulated,
            (n - 1) * estimators.len(),
            estimators.len(),
        )
    }
}

/// Point `i` stands first: it is the fastest, with the fewest workers of those
/// that are as fast, and the first of those that are equal in both.
pub open spec fn is_best(points: Seq<Point>, i: int) -> bool {
    &&& 0 <= i < points.len()
    &&& forall|j: int|
        0 <= j < points.len() ==> {
            let a = points[i].simulation;
            let b = (#[trigger] points[j]).simulation;
            ||| a.makespan_ms < b.makespan_ms
            ||| a.makespan_ms == b.makespan_ms && a.jobs < b.jobs
            ||| a.makespan_ms == b.makespan_ms && a.jobs == b.jobs && i <= j
        }
}

/// Point `i` is the first of this strategy and number of workers.
pub open spec fn is_hit(
    points: Seq<Point>,
    scheduler: SchedulerArg,
    estimator: EstimatorArg,
    jobs: usize,
    i: int,
) -> bool {
    &&& 0 <= i < points.len()
    &&& fits(points[i], scheduler, estimator, jobs)
    &&& forall|j: int| 0 <= j < i ==> !fits(#[trigger] points[j], scheduler, estimator, jobs)
}

/// No point is of this strategy and number of workers.
pub open spec fn none_fits(
    points: Seq<Point>,
    scheduler: SchedulerArg,
    estimator: EstimatorArg,
    jobs: usize,
) -> bool {
    forall|j: int|
        0 <= j < points.len() ==> !fits(#[trigger] points[j], scheduler, estimator, jobs)
}

/// A point is of this strategy and number of workers.
pub open spec fn fits(
    p: Point,
    scheduler: SchedulerArg,
    estimator: EstimatorArg,
    jobs: usize,
) -> bool {
    p.scheduler == scheduler && p.estimator == estimator && p.simulation.jobs == jobs
}

impl Sweep {
    /// Every strategy with every number of workers. All are measured by the
    /// durations of one reference: an estimator decides in which order work
    /// begins, not how long it takes. `simulated` has for each strategy, by
    /// schedulers and then estimators, how long it takes with each number of
    /// workers.
    pub fn run(
        jobs: &Vec<usize>,
        schedulers: &Vec<SchedulerArg>,
        estimators: &Vec<EstimatorArg>,
        reference: &Reference,
        simulated: &Vec<Vec<Simulation>>,
    ) -> (r: Sweep)
        requires
            simulated@.len() == schedulers@.len() * estimators@.len(),
        ensures
            r.points@ == sweep_points(
                schedulers@,
                estimators@,
                simulated@,
                schedulers@.len(),
            ),
            r.jobs@ == jobs@,
            r.critical_path_ms == reference.critical_path_ms,
            r.work_ms == reference.work_ms,
            r.actions == reference.actions,
            r.critical_path@.len() == reference.critical_path@.len(),
            forall|i: int|
                0 <= i < r.critical_path@.len() ==> (#[trigger] r.critical_path@[i]).action@
                    == "#"@ + decimal(reference.critical_path@[i] as nat)
                    && r.critical_path@[i].duration_ms == duration_of(
                    *reference,
                    reference.critical_path@[i],
                ),
    {
        let mut points: Vec<Point> = Vec::new();
        let mut s: usize = 0;
        let mut at: usize = 0;
        let ghost width = estimators@.len();
        assert(0 * width == 0) by (nonlinear_arith);
        while s < schedulers.len()
            invariant
                simulated@.len() == schedulers@.len() * estimators@.len(),
                width == estimators@.len(),
                s <= schedulers@.len(),
                at == s * width,
                points@ == sweep_points(schedulers@, estimators@, simulated@, s as nat),
            decreases schedulers@.len() - s,
        {
            let ghost before = points@;
            let ghost start = at as int;
            let mut e: usize = 0;
            assert(before + scheduler_points(
                schedulers@[s as int],
                estimators@,
                simulated@,
                start,
                0,
            ) =~= before);
            assert(s * width + width <= schedulers@.len() * width) by (nonlinear_arith)
                requires
                    s < schedulers@.len(),
            ;
            while e < estimators.len()
                invariant
                    simulated@.len() == schedulers@.len() * estimators@.len(),
                    simulated@.len() == simulated.len(),
                    width == estimators@.len(),
                    s < schedulers@.len(),
                    start == s * width,
                    start + width <= simulated@.len(),
                    e <= estimators@.len(),
                    at == start + e,
                    points@ == before + scheduler_points(
                        schedulers@[s as int],
                        estimators@,
                        simulated@,
                        start,
                        e as nat,
                    ),
                decreases estimators@.len() - e,
            {
                let row = &simulated[at];
                let ghost middle = points@;
                let ghost want = strategy_points(
                    schedulers@[s as int],
                    estimators@[e as int],
                    row@,
                );
                let mut j: usize = 0;
                assert(middle + want.take(0) =~= middle);
                while j < row.len()
                    invariant
                        s < schedulers@.len(),
                        e < estimators@.len(),
                        want == strategy_points(
                            schedulers@[s as int],
                            estimators@[e as int],
                            row@,
                        ),
                        j <= row@.len(),
                        points@ == middle + want.take(j as int),
                    decreases row@.len() - j,
                {
                    points.push(
                        Point {
                            scheduler: schedulers[s],
                            estimator: estimators[e],
                            simulation: row[j],
                        },
                    );
                    assert(points@ =~= middle + want.take(j + 1));
                    j += 1;
                }
                assert(want.take(j as int) =~= want);
                assert(points@ =~= before + scheduler_points(
                    schedulers@[s as int],
                    estimators@,
                    simulated@,
                    start,
                    (e + 1) as nat,
                ));
                e += 1;
                at += 1;
            }
            assert((s + 1) * width == s * width + width) by (nonlinear_arith);
            s += 1;
        }
        let mut critical_path: Vec<Leg> = Vec::new();
        let mut i: usize = 0;
        while i < reference.critical_path.len()
            invariant
                i <= reference.critical_path@.len(),
                critical_path@.len() == i,
                forall|k: int|
                    0 <= k < i ==> (#[trigger] critical_path@[k]).action@ == "#"@ + decimal(
                        reference.critical_path@[k] as nat,
                    ) && critical_path@[k].duration_ms == duration_of(
                        *reference,
                        reference.critical_path@[k],
                    ),
            decreases reference.critical_path@.len() - i,
        {
            let local: usize = reference.critical_path[i];
            let mut action = copy("#");
            action.append(&number(local as u128));
            let duration_ms: u64 = if local < reference.duration_ms.len() {
                reference.duration_ms[local]
            } else {
                0
            };
            critical_path.push(Leg { action, duration_ms });
            i += 1;
        }
        Sweep {
            points,
            jobs: jobs.clone(),
            critical_path_ms: reference.critical_path_ms,
            work_ms: reference.work_ms,
            actions: reference.actions,
            critical_path,
        }
    }

    /// The point of a strategy and number of workers.
    pub fn get(&self, scheduler: SchedulerArg, estimator: EstimatorArg, jobs: usize) -> (r: Option<
        usize,
    >)
        ensures
            match r {
                Some(i) => is_hit(self.points@, scheduler, estimator, jobs, i as int),
                None => none_fits(self.points@, scheduler, estimator, jobs),
            },
    {
        let mut i: usize = 0;
        while i < self.points.len()
            invariant
                i <= self.points@.len(),
                forall|j: int|
                    0 <= j < i ==> !fits(#[trigger] self.points@[j], scheduler, estimator, jobs),
            decreases self.points@.len() - i,
        {
            let p = self.points[i];
            if p.scheduler == scheduler && p.estimator == estimator && p.simulation.jobs == jobs {
                return Some(i);
            }
            i += 1;
        }
        None
    }

    /// The fastest point; of several that are as fast the one with the fewest
    /// workers.
    pub fn best(&self) -> (r: Option<usize>)
        ensures
            match r {
                Some(i) => is_best(self.points@, i as int),
                None => self.points@.len() == 0,
            },
    {
        if self.points.len() == 0 {
            return None;
        }
        let mut best: usize = 0;
        let mut i: usize = 1;
        while i < self.points.len()
            invariant
                1 <= i <= self.points@.len(),
                best < i,
                is_best(self.points@.take(i as int), best as int),
            decreases self.points@.len() - i,
        {
            let ghost seen = self.points@.take(i as int);
            let a = self.points[best].simulation;
            let b = self.points[i].simulation;
            let ghost was = best as int;
            if b.makespan_ms < a.makespan_ms || (b.makespan_ms == a.makespan_ms && b.jobs < a.jobs) {
                best = i;
            }
            proof {
                let all = self.points@.take(i + 1);
                assert forall|j: int| 0 <= j < all.len() implies {
                    let x = all[best as int].simulation;
                    let y = (#[trigger] all[j]).simulation;
                    ||| x.makespan_ms < y.makespan_ms
                    ||| x.makespan_ms == y.makespan_ms && x.jobs < y.jobs
                    ||| x.makespan_ms == y.makespan_ms && x.jobs == y.jobs && best <= j
                } by {
                    if j < i {
                        assert(seen[j] == all[j]);
                        assert(seen[was] == all[was]);
                    }
                }
            }
            i += 1;
        }
        assert(self.points@.take(i as int) =~= self.points@);
        Some(best)
    }
}

// ---------------------------------------------------------------------------
// The table
// ---------------------------------------------------------------------------

/// The name of a strategy.
pub open spec fn strategy(p: Point) -> Seq<char> {
    p.scheduler.text() + " / "@ + p.estimator.text()
}

/// The width of the first column.
pub open spec fn first_width(points: Seq<Point>, n: nat) -> int
    decreases n,
{
    if n == 0 {
        8
    } else {
        let before = first_width(points, (n - 1) as nat);
        let own = strategy(points[n - 1]).len() as int;
        if own > before {
            own
        } else {
            before
        }
    }
}

/// The titles of the first `n` columns with numbers of workers.
pub open spec fn column_titles(jobs: Seq<usize>, n: nat) -> Seq<char>
    decreases n,
{
    if n == 0 {
        Seq::empty()
    } else {
        column_titles(jobs, (n - 1) as nat) + "  "@ + padded_left(
            "-j "@ + decimal(jobs[n - 1] as nat),
            10,
        )
    }
}

/// What stands in a cell.
pub open spec fn cell(points: Seq<Point>, p: Point, jobs: usize) -> Seq<char> {
    if exists|i: int| is_hit(points, p.scheduler, p.estimator, jobs, i) {
        let i = choose|i: int| is_hit(points, p.scheduler, p.estimator, jobs, i);
        decimal(points[i].simulation.makespan_ms as nat) + " ms"@
    } else {
        "-"@
    }
}

/// The first `n` cells of a strategy.
pub open spec fn cells(points: Seq<Point>, p: Point, jobs: Seq<usize>, n: nat) -> Seq<char>
    decreases n,
{
    if n == 0 {
        Seq::empty()
    } else {
        cells(points, p, jobs, (n - 1) as nat) + "  "@ + padded_left(
            cell(points, p, jobs[n - 1]),
            10,
        )
    }
}

/// Point `i` is the first of its strategy.
pub open spec fn first_of_strategy(points: Seq<Point>, i: int) -> bool {
    forall|j: int|
        0 <= j < i ==> !((#[trigger] points[j]).scheduler == points[i].scheduler
            && points[j].estimator == points[i].estimator)
}

/// The rows of the strategies of the first `n` points.
pub open spec fn table_rows(points: Seq<Point>, jobs: Seq<usize>, width: int, n: nat) -> Seq<char>
    decreases n,
{
    if n == 0 {
        Seq::empty()
    } else {
        let before = table_rows(points, jobs, width, (n - 1) as nat);
        if first_of_strategy(points, n - 1) {
            before + ("  "@ + padded_right(strategy(points[n - 1]), width) + cells(
                points,
                points[n - 1],
                jobs,
                jobs.len(),
            ) + "\n"@)
        } else {
            before
        }
    }
}

/// The whole table.
pub open spec fn table(points: Seq<Point>, jobs: Seq<usize>) -> Seq<char> {
    let width = first_width(points, points.len());
    "  "@ + padded_right("strategy"@, width) + column_titles(jobs, jobs.len()) + "\n"@ + table_rows(
        points,
        jobs,
        width,
        points.len(),
    )
}

fn strategy_text(p: Point) -> (r: String)
    ensures
        r@ == strategy(p),
{
    let mut out = copy(p.scheduler.as_str());
    out.append(" / ");
    out.append(p.estimator.as_str());
    out
}

proof fn hit_unique(
    points: Seq<Point>,
    scheduler: SchedulerArg,
    estimator: EstimatorArg,
    jobs: usize,
    i: int,
    j: int,
)
    requires
        is_hit(points, scheduler, estimator, jobs, i),
        is_hit(points, scheduler, estimator, jobs, j),
    ensures
        i == j,
{
    if i < j {
        assert(!fits(points[i], scheduler, estimator, jobs));
    } else if j < i {
        assert(!fits(points[j], scheduler, estimator, jobs));
    }
}

fn cell_text(sweep: &Sweep, p: Point, jobs: usize) -> (r: String)
    ensures
        r@ == cell(sweep.points@, p, jobs),
{
    match sweep.get(p.scheduler, p.estimator, jobs) {
        Some(i) => {
            proof {
                let k = choose|k: int| is_hit(sweep.points@, p.scheduler, p.estimator, jobs, k);
                hit_unique(sweep.points@, p.scheduler, p.estimator, jobs, i as int, k);
            }
            let mut out = number(sweep.points[i].simulation.makespan_ms as u128);
            out.append(" ms");
            out
        },
        None => copy("-"),
    }
}

fn row_text(sweep: &Sweep, p: Point) -> (r: String)
    ensures
        r@ == cells(sweep.points@, p, sweep.jobs@, sweep.jobs@.len()),
{
    let mut out = String::new();
    let mut i: usize = 0;
    while i < sweep.jobs.len()
        invariant
            i <= sweep.jobs@.len(),
            out@ == cells(sweep.points@, p, sweep.jobs@, i as nat),
        decreases sweep.jobs@.len() - i,
    {
        out.append("  ");
        out.append(&pad_left(&cell_text(sweep, p, sweep.jobs[i]), 10));
        i += 1;
    }
    out
}

fn is_new_strategy(sweep: &Sweep, i: usize) -> (r: bool)
    requires
        i < sweep.points@.len(),
    ensures
        r == first_of_strategy(sweep.points@, i as int),
{
    let p = sweep.points[i];
    let mut j: usize = 0;
    while j < i
        invariant
            i < sweep.points@.len(),
            p == sweep.points@[i as int],
            j <= i,
            forall|k: int|
                0 <= k < j ==> !((#[trigger] sweep.points@[k]).scheduler == p.scheduler
                    && sweep.points@[k].estimator == p.estimator),
        decreases i - j,
    {
        if sweep.points[j].scheduler == p.scheduler && sweep.points[j].estimator == p.estimator {
            return false;
        }
        j += 1;
    }
    true
}

/// A sweep as a table: strategies down, numbers of workers across.
pub fn render_table(sweep: &Sweep) -> (r: String)
    ensures
        r@ == table(sweep.points@, sweep.jobs@),
{
    let ghost points = sweep.points@;
    let mut width: usize = 8;
    let mut i: usize = 0;
    while i < sweep.points.len()
        invariant
            points == sweep.points@,
            i <= points.len(),
            width == first_width(points, i as nat),
        decreases points.len() - i,
    {
        let own: usize = chars_of(&strategy_text(sweep.points[i])).len();
        if own > width {
            width = own;
        }
        i += 1;
    }
    let mut out = copy("  ");
    out.append(&pad_right("strategy", width));
    let mut titles = String::new();
    let mut j: usize = 0;
    while j < sweep.jobs.len()
        invariant
            j <= sweep.jobs@.len(),
            titles@ == column_titles(sweep.jobs@, j as nat),
        decreases sweep.jobs@.len() - j,
    {
        let mut title = copy("-j ");
        title.append(&number(sweep.jobs[j] as u128));
        titles.append("  ");
        titles.append(&pad_left(&title, 10));
        j += 1;
    }
    out.append(&titles);
    out.append("\n");
    let mut rows = String::new();
    let mut k: usize = 0;
    while k < sweep.points.len()
        invariant
            points == sweep.points@,
            k <= points.len(),
            rows@ == table_rows(points, sweep.jobs@, width as int, k as nat),
        decreases points.len() - k,
    {
        if is_new_strategy(sweep, k) {
            let p = sweep.points[k];
            let mut row = copy("  ");
            row.append(&pad_right(&strategy_text(p), width));
            row.append(&row_text(sweep, p));
            row.append("\n");
            rows.append(&row);
        }
        k += 1;
    }
    out.append(&rows);
    out
}

/// The numbers of workers that are compared: those asked for, or the usual ones
/// that this machine has; one where there is none.
pub open spec fn compared_jobs(requested: Option<Seq<usize>>, host: usize) -> Seq<usize> {
    let wanted = match requested {
        Some(jobs) => jobs,
        None => seq![1usize, 2, 4, 8, 16].filter(|j: usize| j <= host || j <= 1),
    };
    if wanted.len() == 0 {
        seq![1usize]
    } else {
        wanted
    }
}

/// The numbers of workers that are compared.
pub fn simulate_jobs(requested: &Option<Vec<usize>>, host: usize) -> (r: Vec<usize>)
    ensures
        r@ == compared_jobs(
            match *requested {
                Some(jobs) => Some(jobs@),
                None => None,
            },
            host,
        ),
{
    if let Some(jobs) = requested {
        let mut out = jobs.clone();
        assert(out@ =~= jobs@);
        if out.len() == 0 {
            out.push(1);
            assert(out@ =~= seq![1usize]);
        }
        return out;
    }
    let usual: [usize; 5] = [1, 2, 4, 8, 16];
    let ghost all = seq![1usize, 2, 4, 8, 16];
    let ghost fits = |j: usize| j <= host || j <= 1;
    let mut out: Vec<usize> = Vec::new();
    let mut i: usize = 0;
    proof {
        reveal(Seq::filter);
        assert(usual@ =~= all);
        assert(all.take(0) =~= Seq::<usize>::empty());
    }
    while i < 5
        invariant
            usual@ == all,
            all == seq![1usize, 2, 4, 8, 16],
            fits == (|j: usize| j <= host || j <= 1),
            i <= 5,
            out@ == all.take(i as int).filter(fits),
            i > 0 ==> out@.len() > 0,
        decreases 5 - i,
    {
        proof {
            assert(all.take(i + 1) =~= all.take(i as int).push(all[i as int]));
            all.take(i as int).lemma_filter_push(all[i as int], fits);
        }
        if usual[i] <= host || usual[i] <= 1 {
            out.push(usual[i]);
        }
        i += 1;
    }
    assert(all.take(5) =~= all);
    out
}

// ---------------------------------------------------------------------------
// The store
// ---------------------------------------------------------------------------

/// What is wrong with the arguments of a measurement.
#[derive(Debug, Clone, Copy, PartialEq, Eq, Structural)]
pub enum BenchError {
    NoIterations,
    TooLarge,
    TooSmall,
}

impl BenchError {
    pub open spec fn text(self) -> Seq<char> {
        match self {
            BenchError::NoIterations => "--iterations must be greater than zero"@,
            BenchError::TooLarge => "--size-mib is too large"@,
            BenchError::TooSmall => "--size-mib must produce more than "@ + decimal(
                CHUNKING_THRESHOLD as nat,
            ) + " bytes to exercise FastCDC"@,
        }
    }

    /// Reports the fault.
    pub fn message(&self) -> (r: String)
        ensures
            r@ == self.text(),
    {
        match self {
            BenchError::NoIterations => copy("--iterations must be greater than zero"),
            BenchError::TooLarge => copy("--size-mib is too large"),
            BenchError::TooSmall => {
                let mut out = copy("--size-mib must produce more than ");
                out.append(&number(CHUNKING_THRESHOLD as u128));
                out.append(" bytes to exercise FastCDC");
                out
            },
        }
    }
}

/// The size of the fixture in bytes.
pub fn fixture_size(size_mib: u64, iterations: usize) -> (r: Result<u64, BenchError>)
    ensures
        match r {
            Ok(n) => iterations > 0 && n == size_mib * MIB && n > CHUNKING_THRESHOLD,
            Err(BenchError::NoIterations) => iterations == 0,
            Err(BenchError::TooLarge) => iterations > 0 && size_mib * MIB > u64::MAX,
            Err(BenchError::TooSmall) => iterations > 0 && size_mib * MIB <= CHUNKING_THRESHOLD,
        },
{
    if iterations == 0 {
        return Err(BenchError::NoIterations);
    }
    match size_mib.checked_mul(MIB) {
        None => Err(BenchError::TooLarge),
        Some(n) => if n > CHUNKING_THRESHOLD {
            Ok(n)
        } else {
            Err(BenchError::TooSmall)
        },
    }
}

/// The next state of the generator.
pub open spec fn next_state(s: u64) -> u64 {
    let a = s ^ (s << 13);
    let b = a ^ (a >> 7);
    b ^ (b << 17)
}

/// The state after `n` bytes.
pub open spec fn state_after(s: u64, n: nat) -> u64
    decreases n,
{
    if n == 0 {
        s
    } else {
        next_state(state_after(s, (n - 1) as nat))
    }
}

/// The next `length` bytes of a fixture from a state of the generator, and the
/// state after them.
pub fn fixture_bytes(state: u64, length: usize) -> (r: (Vec<u8>, u64))
    ensures
        r.0@.len() == length,
        forall|i: int|
            0 <= i < length ==> #[trigger] r.0@[i] == (state_after(state, (i + 1) as nat) as u8),
        r.1 == state_after(state, length as nat),
{
    let mut out: Vec<u8> = Vec::new();
    let mut s: u64 = state;
    let mut i: usize = 0;
    while i < length
        invariant
            i <= length,
            out@.len() == i,
            s == state_after(state, i as nat),
            forall|k: int|
                0 <= k < i ==> #[trigger] out@[k] == (state_after(state, (k + 1) as nat) as u8),
        decreases length - i,
    {
        s = s ^ (s << 13);
        s = s ^ (s >> 7);
        s = s ^ (s << 17);
        assert(s == state_after(state, (i + 1) as nat));
        out.push(#[verifier::truncate] (s as u8));
        i += 1;
    }
    (out, s)
}

/// Whether the chunks are worked on several at a time, for the two runs of an
/// iteration: which comes first alternates, so that neither always finds the
/// caches warm.
pub fn chunk_modes(iteration: usize) -> (r: [bool; 2])
    ensures
        r@ == if iteration % 2 == 0 {
            seq![false, true]
        } else {
            seq![true, false]
        },
{
    let out: [bool; 2] = if iteration % 2 == 0 {
        [false, true]
    } else {
        [true, false]
    };
    assert(out@ =~= if iteration % 2 == 0 {
        seq![false, true]
    } else {
        seq![true, false]
    });
    out
}

/// The order of the three paths in an iteration: each is first in turn.
pub fn path_order(iteration: usize) -> (r: [usize; 3])
    ensures
        forall|k: int| 0 <= k < 3 ==> #[trigger] r@[k] == (iteration + k) % 3,
{
    match iteration % 3 {
        0 => [0, 1, 2],
        1 => [1, 2, 0],
        _ => [2, 0, 1],
    }
}

/// Which byte of the fixture an iteration changes.
pub fn changed_offset(size: u64, iteration: u64) -> (r: u64)
    requires
        size > 0,
        size / 2 + iteration * 4096 <= u64::MAX,
    ensures
        r == (size / 2 + iteration * 4096) % size as int,
        r < size,
{
    (size / 2 + iteration * 4096) % size
}

/// How many of some recorded durations are known and not zero.
pub open spec fn measured(durations: Seq<Option<u64>>) -> nat
    decreases durations.len(),
{
    if durations.len() == 0 {
        0
    } else {
        measured(durations.drop_last()) + if durations.last() is Some && durations.last()->0 > 0 {
            1nat
        } else {
            0nat
        }
    }
}

/// How many actions have a duration that was recorded.
pub fn recorded_count(durations: &Vec<Option<u64>>) -> (r: usize)
    ensures
        r == measured(durations@),
        r <= durations@.len(),
{
    let mut n: usize = 0;
    let mut i: usize = 0;
    assert(durations@.take(0) =~= Seq::<Option<u64>>::empty());
    while i < durations.len()
        invariant
            i <= durations@.len(),
            n == measured(durations@.take(i as int)),
            n <= i,
        decreases durations@.len() - i,
    {
        assert(durations@.take(i + 1).drop_last() =~= durations@.take(i as int));
        if let Some(ms) = durations[i] {
            if ms > 0 {
                n += 1;
            }
        }
        i += 1;
    }
    assert(durations@.take(i as int) =~= durations@);
    n
}

/// What stands above the table of a comparison.
pub open spec fn comparison_head(sweep: Sweep, recorded: usize) -> Seq<Seq<char>> {
    let first = "frost: simulating "@ + decimal(sweep.actions as nat)
        + " actions from the journal (no build, no cache writes)"@;
    let bounds = seq![
        ""@,
        "  critical path  "@ + decimal(sweep.critical_path_ms as nat) + " ms   total work  "@
            + decimal(sweep.work_ms as nat) + " ms"@,
        "  no schedule can finish faster than the critical path."@,
        ""@,
    ];
    if recorded < sweep.actions {
        seq![
            first,
            "  note: "@ + decimal((sweep.actions - recorded) as nat) + " of "@ + decimal(
                sweep.actions as nat,
            ) + " actions have no recorded duration; those fall back to estimates"@,
        ] + bounds
    } else {
        seq![first] + bounds
    }
}

/// What stands above the table of a comparison, line by line.
pub fn simulate_head(sweep: &Sweep, recorded: usize) -> (r: Vec<String>)
    ensures
        texts(r@) == comparison_head(*sweep, recorded),
{
    let mut first = copy("frost: simulating ");
    first.append(&number(sweep.actions as u128));
    first.append(" actions from the journal (no build, no cache writes)");
    let mut out: Vec<String> = Vec::new();
    out.push(first);
    if recorded < sweep.actions {
        let mut note = copy("  note: ");
        note.append(&number((sweep.actions - recorded) as u128));
        note.append(" of ");
        note.append(&number(sweep.actions as u128));
        note.append(" actions have no recorded duration; those fall back to estimates");
        out.push(note);
    }
    out.push(copy(""));
    let mut bound = copy("  critical path  ");
    bound.append(&number(sweep.critical_path_ms as u128));
    bound.append(" ms   total work  ");
    bound.append(&number(sweep.work_ms as u128));
    bound.append(" ms");
    out.push(bound);
    out.push(copy("  no schedule can finish faster than the critical path."));
    out.push(copy(""));
    assert(texts(out@) =~= comparison_head(*sweep, recorded));
    out
}

// ---------------------------------------------------------------------------
// What a comparison tells
// ---------------------------------------------------------------------------

proof fn scheduler_points_has(
    scheduler: SchedulerArg,
    estimators: Seq<EstimatorArg>,
    simulated: Seq<Vec<Simulation>>,
    at: int,
    n: nat,
    e: int,
    j: int,
) -> (k: int)
    requires
        0 <= e < n,
        0 <= j < simulated[at + e]@.len(),
    ensures
        0 <= k < scheduler_points(scheduler, estimators, simulated, at, n).len(),
        scheduler_points(scheduler, estimators, simulated, at, n)[k] == (Point {
            scheduler,
            estimator: estimators[e],
            simulation: simulated[at + e]@[j],
        }),
    decreases n,
{
    let less = (n - 1) as nat;
    if e < less {
        scheduler_points_has(scheduler, estimators, simulated, at, less, e, j)
    } else {
        scheduler_points(scheduler, estimators, simulated, at, less).len() + j
    }
}

proof fn sweep_points_has(
    schedulers: Seq<SchedulerArg>,
    estimators: Seq<EstimatorArg>,
    simulated: Seq<Vec<Simulation>>,
    n: nat,
    s: int,
    e: int,
    j: int,
) -> (k: int)
    requires
        0 <= s < n,
        0 <= e < estimators.len(),
        0 <= j < simulated[s * estimators.len() + e]@.len(),
    ensures
        0 <= k < sweep_points(schedulers, estimators, simulated, n).len(),
        sweep_points(schedulers, estimators, simulated, n)[k] == (Point {
            scheduler: schedulers[s],
            estimator: estimators[e],
            simulation: simulated[s * estimators.len() + e]@[j],
        }),
    decreases n,
{
    let less = (n - 1) as nat;
    if s < less {
        sweep_points_has(schedulers, estimators, simulated, less, s, e, j)
    } else {
        let k = scheduler_points_has(
            schedulers[s],
            estimators,
            simulated,
            s * estimators.len(),
            estimators.len(),
            e,
            j,
        );
        sweep_points(schedulers, estimators, simulated, less).len() + k
    }
}

/// A comparison has a point for every scheduler with every estimator and every
/// number of workers that was simulated.
pub proof fn every_strategy_is_compared(
    jobs: Vec<usize>,
    schedulers: Vec<SchedulerArg>,
    estimators: Vec<EstimatorArg>,
    reference: Reference,
    simulated: Vec<Vec<Simulation>>,
    r: Sweep,
    s: int,
    e: int,
    j: int,
) -> (k: int)
    requires
        call_ensures(Sweep::run, (&jobs, &schedulers, &estimators, &reference, &simulated), r),
        0 <= s < schedulers@.len(),
        0 <= e < estimators@.len(),
        0 <= j < simulated@[s * estimators@.len() + e]@.len(),
    ensures
        0 <= k < r.points@.len(),
        r.points@[k].scheduler == schedulers@[s],
        r.points@[k].estimator == estimators@[e],
        r.points@[k].simulation == simulated@[s * estimators@.len() + e]@[j],
{
    sweep_points_has(schedulers@, estimators@, simulated@, schedulers@.len(), s, e, j)
}

/// No point beats the best: none is faster, and none that is as fast does with
/// fewer workers. There is a best one wherever there is a point.
pub proof fn nothing_beats_the_best(sweep: Sweep, r: Option<usize>, j: int)
    requires
        call_ensures(Sweep::best, (&sweep,), r),
        0 <= j < sweep.points@.len(),
    ensures
        r is Some && r->0 < sweep.points@.len(),
        sweep.points@[r->0 as int].simulation.makespan_ms
            <= sweep.points@[j].simulation.makespan_ms,
        sweep.points@[j].simulation.makespan_ms
            == sweep.points@[r->0 as int].simulation.makespan_ms
            ==> sweep.points@[r->0 as int].simulation.jobs <= sweep.points@[j].simulation.jobs,
{
}

/// A point of the comparison is found by its scheduler, its estimator and its
/// number of workers.
pub proof fn points_are_found(
    sweep: Sweep,
    scheduler: SchedulerArg,
    estimator: EstimatorArg,
    jobs: usize,
    r: Option<usize>,
    j: int,
)
    requires
        call_ensures(Sweep::get, (&sweep, scheduler, estimator, jobs), r),
        0 <= j < sweep.points@.len(),
        sweep.points@[j].scheduler == scheduler,
        sweep.points@[j].estimator == estimator,
        sweep.points@[j].simulation.jobs == jobs,
    ensures
        r is Some && r->0 <= j,
        sweep.points@[r->0 as int].scheduler == scheduler,
        sweep.points@[r->0 as int].estimator == estimator,
        sweep.points@[r->0 as int].simulation.jobs == jobs,
{
    assert(fits(sweep.points@[j], scheduler, estimator, jobs));
    if let Some(i) = r {
        assert(is_hit(sweep.points@, scheduler, estimator, jobs, i as int));
    } else {
        assert(none_fits(sweep.points@, scheduler, estimator, jobs));
    }
}

/// What is asked for is what is compared. Where nothing is, one worker is compared,
/// and of the usual numbers all that the machine has workers for, and no others.
pub proof fn jobs_are_as_asked(requested: Option<Vec<usize>>, host: usize, r: Vec<usize>, j: usize)
    requires
        call_ensures(simulate_jobs, (&requested, host), r),
    ensures
        r@.len() > 0,
        requested is Some && requested->0@.len() > 0 ==> r@ == requested->0@,
        requested is None ==> r@.contains(1),
        requested is None && (j == 2 || j == 4 || j == 8 || j == 16) ==> (r@.contains(j) <==> j
            <= host),
        requested is None && r@.contains(j) ==> j == 1 || j == 2 || j == 4 || j == 8 || j == 16,
{
    if requested is None {
        let usual = seq![1usize, 2, 4, 8, 16];
        let keep = |j: usize| j <= host || j <= 1;
        assert(usual[0] == 1 && usual[1] == 2 && usual[2] == 4 && usual[3] == 8 && usual[4] == 16);
        let kept = usual.filter(keep);
        usual.lemma_filter_contains(keep, 0);
        assert(kept.contains(1));
        assert(kept.len() > 0);
        assert forall|k: int| 0 <= k < 5 && keep(#[trigger] usual[k]) implies kept.contains(
            usual[k],
        ) by {
            usual.lemma_filter_contains(keep, k);
        }
        if kept.contains(j) {
            usual.lemma_filter_contains_rev(keep, j);
            let at = kept.index_of(j);
            usual.lemma_filter_pred(keep, at);
        }
    }
}

/// A fixture that is made in two steps is the one that is made at once.
pub proof fn fixture_goes_on(
    state: u64,
    m: usize,
    n: usize,
    all: usize,
    first: (Vec<u8>, u64),
    second: (Vec<u8>, u64),
    whole: (Vec<u8>, u64),
)
    requires
        m + n == all,
        call_ensures(fixture_bytes, (state, m), first),
        call_ensures(fixture_bytes, (first.1, n), second),
        call_ensures(fixture_bytes, (state, all), whole),
    ensures
        whole.0@ == first.0@ + second.0@,
        whole.1 == second.1,
{
    assert forall|k: nat| #[trigger] state_after(first.1, k) == state_after(state, m as nat + k) by {
        states_go_on(state, m as nat, k);
    }
    assert(state_after(first.1, n as nat) == state_after(state, m as nat + n as nat));
    assert forall|i: int| 0 <= i < all implies #[trigger] whole.0@[i] == (first.0@ + second.0@)[i] by {
        if i >= m {
            let k = (i - m + 1) as nat;
            assert(second.0@[i - m] == (state_after(first.1, k) as u8));
            assert(m as nat + k == (i + 1) as nat);
        }
    }
    assert(whole.0@ =~= first.0@ + second.0@);
}

proof fn states_go_on(state: u64, m: nat, n: nat)
    ensures
        state_after(state_after(state, m), n) == state_after(state, m + n),
    decreases n,
{
    if n > 0 {
        states_go_on(state, m, (n - 1) as nat);
    }
}

/// Every duration that was recorded and is not zero counts once, and nothing else
/// does.
pub proof fn recorded_durations_count(
    durations: Vec<Option<u64>>,
    more: Vec<Option<u64>>,
    last: Option<u64>,
    n: usize,
    m: usize,
)
    requires
        more@ == durations@.push(last),
        call_ensures(recorded_count, (&durations,), n),
        call_ensures(recorded_count, (&more,), m),
    ensures
        m == n + if last is Some && last->0 > 0 {
            1int
        } else {
            0int
        },
        durations@.len() == 0 ==> n == 0,
{
    assert(more@.drop_last() =~= durations@);
}

/// In two iterations that follow each other each way of working on chunks goes
/// first once, and in three each path does.
pub proof fn each_goes_first_in_turn(
    i: usize,
    j: usize,
    k: usize,
    a: [bool; 2],
    b: [bool; 2],
    p: [usize; 3],
    q: [usize; 3],
    r: [usize; 3],
)
    requires
        j == i + 1,
        k == i + 2,
        call_ensures(chunk_modes, (i,), a),
        call_ensures(chunk_modes, (j,), b),
        call_ensures(path_order, (i,), p),
        call_ensures(path_order, (j,), q),
        call_ensures(path_order, (k,), r),
    ensures
        a@[0] != a@[1] && b@[0] != b@[1] && a@[0] != b@[0],
        p@[0] != q@[0] && q@[0] != r@[0] && p@[0] != r@[0],
        p@[0] < 3 && q@[0] < 3 && r@[0] < 3,
        p@[0] != p@[1] && p@[1] != p@[2] && p@[0] != p@[2],
{
    assert(p@[0] == (i + 0) % 3 && p@[1] == (i + 1) % 3 && p@[2] == (i + 2) % 3);
    assert(q@[0] == (j + 0) % 3 && r@[0] == (k + 0) % 3);
    assert(a@.len() == 2 && b@.len() == 2);
}

/// What stands above a comparison gives the number of actions, both bounds, and how
/// many actions have no duration, where there are any.
pub proof fn head_gives_the_bounds(sweep: Sweep, recorded: usize, r: Vec<String>)
    requires
        call_ensures(simulate_head, (&sweep, recorded), r),
    ensures
        r@[0]@ == "frost: simulating "@ + decimal(sweep.actions as nat)
            + " actions from the journal (no build, no cache writes)"@,
        r@.len() == if recorded < sweep.actions {
            6int
        } else {
            5int
        },
        r@[r@.len() - 3]@ == "  critical path  "@ + decimal(sweep.critical_path_ms as nat)
            + " ms   total work  "@ + decimal(sweep.work_ms as nat) + " ms"@,
        recorded < sweep.actions ==> r@[1]@ == "  note: "@ + decimal(
            (sweep.actions - recorded) as nat,
        ) + " of "@ + decimal(sweep.actions as nat)
            + " actions have no recorded duration; those fall back to estimates"@,
{
    let all = texts(r@);
    assert(all.len() == r@.len());
    assert(all[0] == r@[0]@ && all[1] == r@[1]@ && all[all.len() - 3] == r@[r@.len() - 3]@);
}

} // verus!
