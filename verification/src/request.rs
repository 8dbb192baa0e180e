//! What a build is asked to do, which targets it is about, and what it says
//! when it is over.

use vstd::prelude::*;
use vstd::string::*;

use crate::closest::{closest, suggestion};
use crate::graph::BuildGraph;
use crate::manifest::suggested;
use crate::text::{
    copies, copy, debug_text, decimal, extend, group_texts, join, joined, number, quoted, texts,
};

verus! {

/// In which order ready actions run.
#[derive(Debug, Clone, Copy, PartialEq, Eq, Structural)]
pub enum SchedulerArg {
    CriticalPath,
    Fifo,
}

impl SchedulerArg {
    pub open spec fn text(self) -> Seq<char> {
        match self {
            SchedulerArg::CriticalPath => "critical-path"@,
            SchedulerArg::Fifo => "fifo"@,
        }
    }

    /// The option as the command line writes it.
    pub fn as_str(self) -> (r: &'static str)
        ensures
            r@ == self.text(),
    {
        match self {
            SchedulerArg::CriticalPath => "critical-path",
            SchedulerArg::Fifo => "fifo",
        }
    }
}

/// How the time of actions is estimated.
#[derive(Debug, Clone, Copy, PartialEq, Eq, Structural)]
pub enum EstimatorArg {
    Heuristic,
    Journal,
    Static,
    Learned,
}

impl EstimatorArg {
    pub open spec fn text(self) -> Seq<char> {
        match self {
            EstimatorArg::Heuristic => "heuristic"@,
            EstimatorArg::Journal => "journal"@,
            EstimatorArg::Static => "static"@,
            EstimatorArg::Learned => "learned"@,
        }
    }

    /// The option as the command line writes it.
    pub fn as_str(self) -> (r: &'static str)
        ensures
            r@ == self.text(),
    {
        match self {
            EstimatorArg::Heuristic => "heuristic",
            EstimatorArg::Journal => "journal",
            EstimatorArg::Static => "static",
            EstimatorArg::Learned => "learned",
        }
    }
}

/// What a build is asked to do.
#[derive(Debug)]
pub struct BuildRequest {
    pub targets: Vec<String>,
    pub jobs: Option<usize>,
    pub keep_going: bool,
    pub explain: bool,
    pub verbose: bool,
    pub profile: String,
    pub platform: String,
    pub no_cache: bool,
    pub sandbox: bool,
    pub check_determinism: bool,
    pub trace: Option<String>,
    pub stats: bool,
    pub no_tui: bool,
    pub test_mode: bool,
    pub daemon: bool,
    pub affected: bool,
    pub predictive: bool,
    pub all: bool,
    pub scheduler: SchedulerArg,
    pub estimator: EstimatorArg,
}

/// A request has exactly these targets, profile, platform and number of jobs,
/// and keeps going or not; all else is as by default.
pub open spec fn plain_request(
    r: BuildRequest,
    targets: Seq<Seq<char>>,
    jobs: Option<usize>,
    keep_going: bool,
    profile: Seq<char>,
    platform: Seq<char>,
    test_mode: bool,
) -> bool {
    &&& texts(r.targets@) == targets
    &&& r.jobs == jobs
    &&& r.keep_going == keep_going
    &&& r.profile@ == profile
    &&& r.platform@ == platform
    &&& r.test_mode == test_mode
    &&& !r.explain && !r.verbose && !r.no_cache && !r.sandbox && !r.check_determinism
    &&& r.trace is None
    &&& !r.stats && !r.no_tui && !r.daemon && !r.affected && !r.predictive && !r.all
    &&& r.scheduler == SchedulerArg::CriticalPath
    &&& r.estimator == EstimatorArg::Journal
}

impl BuildRequest {
    /// A request with nothing but targets, jobs and a configuration.
    pub fn plain(
        targets: Vec<String>,
        jobs: Option<usize>,
        keep_going: bool,
        profile: String,
        platform: String,
        test_mode: bool,
    ) -> (r: BuildRequest)
        ensures
            plain_request(r, texts(targets@), jobs, keep_going, profile@, platform@, test_mode),
    {
        BuildRequest {
            targets,
            jobs,
            keep_going,
            explain: false,
            verbose: false,
            profile,
            platform,
            no_cache: false,
            sandbox: false,
            check_determinism: false,
            trace: None,
            stats: false,
            no_tui: false,
            test_mode,
            daemon: false,
            affected: false,
            predictive: false,
            all: false,
            scheduler: SchedulerArg::CriticalPath,
            estimator: EstimatorArg::Journal,
        }
    }

    /// A build that can be answered without looking at each action: of the
    /// default targets, with nothing asked that only a run can give.
    pub open spec fn may_skip(self) -> bool {
        !self.test_mode && self.targets@.len() == 0 && !self.keep_going && !self.explain
            && !self.verbose && !self.no_cache && !self.sandbox && !self.check_determinism
            && self.trace is None && !self.stats && !self.affected && !self.predictive && !self.all
    }

    /// Whether the build can be answered without looking at each action.
    pub fn enable_fast_noop(&self) -> (r: bool)
        ensures
            r == self.may_skip(),
    {
        !self.test_mode && self.targets.len() == 0 && !self.keep_going && !self.explain
            && !self.verbose && !self.no_cache && !self.sandbox && !self.check_determinism
            && self.trace.is_none() && !self.stats && !self.affected && !self.predictive
            && !self.all
    }

    /// The options without values that the build was asked with.
    pub open spec fn switches(self) -> Seq<Seq<char>> {
        let list = seq![
            (self.keep_going, "--keep-going"@),
            (self.explain, "--explain"@),
            (self.verbose, "--verbose"@),
            (self.no_cache, "--no-cache"@),
            (self.no_tui, "--no-tui"@),
            (self.affected, "--affected"@),
            (self.predictive, "--predictive"@),
            (self.all, "--all"@),
            (self.sandbox, "--sandbox"@),
            (self.check_determinism, "--check-determinism"@),
        ];
        given_flags(list, list.len())
    }

    /// The command line with which the daemon runs the build.
    pub open spec fn argv(self, root: Seq<char>) -> Seq<Seq<char>> {
        seq![
            "-C"@,
            root,
            if self.test_mode {
                "test"@
            } else {
                "build"@
            },
        ] + texts(self.targets@) + (match self.jobs {
            Some(jobs) => seq!["--jobs"@, decimal(jobs as nat)],
            None => Seq::empty(),
        }) + self.switches() + seq![
            "--scheduler"@,
            self.scheduler.text(),
            "--estimator"@,
            self.estimator.text(),
            "--profile"@,
            self.profile@,
            "--platform"@,
            self.platform@,
        ] + flag(self.stats, "--stats"@) + (match self.trace {
            Some(path) => seq!["--trace"@, path@],
            None => Seq::empty(),
        })
    }

    fn head_args(&self, root: &str) -> (r: Vec<String>)
        ensures
            texts(r@) == seq![
                "-C"@,
                root@,
                if self.test_mode {
                    "test"@
                } else {
                    "build"@
                },
            ],
    {
        let mut args: Vec<String> = Vec::new();
        args.push(copy("-C"));
        args.push(copy(root));
        args.push(
            copy(
                if self.test_mode {
                    "test"
                } else {
                    "build"
                },
            ),
        );
        assert(texts(args@) =~= seq![
            "-C"@,
            root@,
            if self.test_mode {
                "test"@
            } else {
                "build"@
            },
        ]);
        args
    }

    fn switch_args(&self) -> (r: Vec<String>)
        ensures
            texts(r@) == self.switches(),
    {
        let list: [(bool, &'static str); 10] = [
            (self.keep_going, "--keep-going"),
            (self.explain, "--explain"),
            (self.verbose, "--verbose"),
            (self.no_cache, "--no-cache"),
            (self.no_tui, "--no-tui"),
            (self.affected, "--affected"),
            (self.predictive, "--predictive"),
            (self.all, "--all"),
            (self.sandbox, "--sandbox"),
            (self.check_determinism, "--check-determinism"),
        ];
        let ghost all = seq![
            (self.keep_going, "--keep-going"@),
            (self.explain, "--explain"@),
            (self.verbose, "--verbose"@),
            (self.no_cache, "--no-cache"@),
            (self.no_tui, "--no-tui"@),
            (self.affected, "--affected"@),
            (self.predictive, "--predictive"@),
            (self.all, "--all"@),
            (self.sandbox, "--sandbox"@),
            (self.check_determinism, "--check-determinism"@),
        ];
        let mut args: Vec<String> = Vec::new();
        let mut i: usize = 0;
        assert(texts(args@) =~= given_flags(all, 0));
        assert(forall|k: int| 0 <= k < 10 ==> all[k] == (list@[k].0, (#[trigger] list@[k]).1@));
        while i < 10
            invariant
                i <= 10,
                all.len() == 10,
                forall|k: int|
                    0 <= k < 10 ==> all[k] == (list@[k].0, (#[trigger] list@[k]).1@),
                texts(args@) == given_flags(all, i as nat),
            decreases 10 - i,
        {
            let (given, name) = list[i];
            assert(all[i as int] == (list@[i as int].0, list@[i as int].1@));
            push_flag(&mut args, given, name);
            i += 1;
        }
        args
    }

    fn config_args(&self) -> (r: Vec<String>)
        ensures
            texts(r@) == seq![
                "--scheduler"@,
                self.scheduler.text(),
                "--estimator"@,
                self.estimator.text(),
                "--profile"@,
                self.profile@,
                "--platform"@,
                self.platform@,
            ],
    {
        let mut config: Vec<String> = Vec::new();
        config.push(copy("--scheduler"));
        config.push(copy(self.scheduler.as_str()));
        config.push(copy("--estimator"));
        config.push(copy(self.estimator.as_str()));
        config.push(copy("--profile"));
        config.push(copy(&self.profile));
        config.push(copy("--platform"));
        config.push(copy(&self.platform));
        assert(texts(config@) =~= seq![
            "--scheduler"@,
            self.scheduler.text(),
            "--estimator"@,
            self.estimator.text(),
            "--profile"@,
            self.profile@,
            "--platform"@,
            self.platform@,
        ]);
        config
    }

    /// The command line with which the daemon runs the build.
    pub fn daemon_args(&self, root: &str) -> (r: Vec<String>)
        ensures
            texts(r@) == self.argv(root@),
    {
        let mut args = self.head_args(root);
        extend(&mut args, &self.targets);
        extend(
            &mut args,
            &option_args(
                "--jobs",
                match self.jobs {
                    Some(jobs) => Some(number(jobs as u128)),
                    None => None,
                },
            ),
        );
        extend(&mut args, &self.switch_args());
        extend(&mut args, &self.config_args());
        push_flag(&mut args, self.stats, "--stats");
        extend(
            &mut args,
            &option_args(
                "--trace",
                match &self.trace {
                    Some(path) => Some(copy(path)),
                    None => None,
                },
            ),
        );
        args
    }
}

/// An option with its value, where it has one.
fn option_args(name: &str, value: Option<String>) -> (r: Vec<String>)
    ensures
        texts(r@) == match value {
            Some(value) => seq![name@, value@],
            None => Seq::empty(),
        },
{
    let mut args: Vec<String> = Vec::new();
    match value {
        Some(value) => {
            args.push(copy(name));
            args.push(value);
            assert(texts(args@) =~= seq![name@, value@]);
        },
        None => {
            assert(texts(args@) =~= Seq::empty());
        },
    }
    args
}

/// An option that is given or not.
#[verifier::opaque]
pub open spec fn flag(given: bool, name: Seq<char>) -> Seq<Seq<char>> {
    if given {
        seq![name]
    } else {
        Seq::empty()
    }
}

/// The first `n` options that are given.
pub open spec fn given_flags(list: Seq<(bool, Seq<char>)>, n: nat) -> Seq<Seq<char>>
    decreases n,
{
    if n == 0 {
        Seq::empty()
    } else {
        given_flags(list, (n - 1) as nat) + flag(list[n - 1].0, list[n - 1].1)
    }
}

fn push_flag(args: &mut Vec<String>, given: bool, name: &str)
    ensures
        texts(final(args)@) == texts(old(args)@) + flag(given, name@),
{
    broadcast use group_texts;
    let ghost was = texts(args@);
    reveal(flag);
    if given {
        args.push(copy(name));
        assert(texts(args@) =~= was + seq![name@]);
    } else {
        assert(was + Seq::<Seq<char>>::empty() =~= was);
    }
}

/// A requested name that no target has.
#[derive(Debug)]
pub struct NoSuchTarget {
    pub name: String,
    pub hint: Option<String>,
    pub known: Vec<String>,
}

impl NoSuchTarget {
    pub open spec fn text(self) -> Seq<char> {
        let head = "unknown target "@ + debug_text(self.name@);
        match self.hint {
            Some(hint) => head + ". did you mean "@ + debug_text(hint@) + "?"@,
            None => head + ". known targets: "@ + joined(texts(self.known@), ", "@),
        }
    }

    /// Reports the name.
    pub fn message(&self) -> (r: String)
        ensures
            r@ == self.text(),
    {
        let mut out = copy("unknown target ");
        out.append(&quoted(&self.name));
        match &self.hint {
            Some(hint) => {
                out.append(". did you mean ");
                out.append(&quoted(hint));
                out.append("?");
            },
            None => {
                out.append(". known targets: ");
                out.append(&join(&self.known, ", "));
            },
        }
        out
    }
}

/// The targets that a request is about: those it names, or the default ones.
/// The error is the first name that no target has.
pub fn resolve_targets(graph: &BuildGraph, requested: Vec<String>) -> (r: Result<
    Vec<String>,
    NoSuchTarget,
>)
    requires
        graph.wf(),
    ensures
        match r {
            Ok(names) => texts(names@) == (if requested@.len() == 0 {
                texts(graph.default_targets@)
            } else {
                texts(requested@)
            }) && (requested@.len() > 0 ==> forall|k: int|
                0 <= k < requested@.len() ==> graph.targets.has((#[trigger] requested@[k])@)),
            Err(e) => exists|k: int| #![trigger requested@[k]]
                0 <= k < requested@.len() && e.name@ == requested@[k]@ && !graph.targets.has(e.name@)
                    && suggested(e.hint, suggestion(e.name@, graph.targets.names())) && texts(
                    e.known@,
                ) == graph.targets.names() && forall|j: int|
                    0 <= j < k ==> graph.targets.has((#[trigger] requested@[j])@),
        },
{
    if requested.len() == 0 {
        return Ok(copies(&graph.default_targets));
    }
    let mut i: usize = 0;
    while i < requested.len()
        invariant
            graph.wf(),
            i <= requested@.len(),
            forall|k: int| 0 <= k < i ==> graph.targets.has((#[trigger] requested@[k])@),
        decreases requested@.len() - i,
    {
        let name = &requested[i];
        if !graph.targets.contains_key(name) {
            return Err(
                NoSuchTarget {
                    name: copy(name),
                    hint: closest(name, &graph.targets.keys),
                    known: copies(&graph.targets.keys),
                },
            );
        }
        i += 1;
    }
    Ok(requested)
}

// ---------------------------------------------------------------------------
// The summary
// ---------------------------------------------------------------------------

/// A count in words, as a list of none or one: nothing is said of zero.
pub open spec fn counted(n: nat, what: Seq<char>) -> Seq<Seq<char>> {
    if n > 0 {
        seq![decimal(n) + what]
    } else {
        Seq::empty()
    }
}

/// What happened, in words: failures first, then what was built, skipped and
/// found in the cache. Where all was found there, that is said instead.
pub open spec fn headline(executed: nat, cached: nat, failed: nat, skipped: nat) -> Seq<char> {
    let parts = counted(failed, " failed"@) + counted(executed, " built"@) + counted(
        skipped,
        " skipped"@,
    );
    if parts.len() == 0 && cached > 0 {
        "up to date"@
    } else if (parts + counted(cached, " cached"@)).len() == 0 {
        "nothing to do"@
    } else {
        joined(parts + counted(cached, " cached"@), ", "@)
    }
}

/// The actions that a build was about; those of the whole graph where it was
/// about fewer.
pub open spec fn scope(selected: nat, total: nat) -> Seq<char> {
    if total > selected {
        decimal(selected) + " of "@ + decimal(total) + " actions"@
    } else {
        decimal(selected) + " actions"@
    }
}

fn push_count(parts: &mut Vec<String>, n: usize, what: &str)
    ensures
        texts(final(parts)@) == texts(old(parts)@) + counted(n as nat, what@),
{
    broadcast use group_texts;
    let ghost was = texts(parts@);
    if n > 0 {
        let mut part = number(n as u128);
        part.append(what);
        parts.push(part);
        assert(texts(parts@) =~= was + seq![part@]);
    } else {
        assert(was + Seq::<Seq<char>>::empty() =~= was);
    }
}

/// The line every build ends with. It leads with what happened, and drops
/// every count that is zero.
pub fn summarize(
    executed: usize,
    cached: usize,
    failed: usize,
    skipped: usize,
    selected: usize,
    total_in_graph: usize,
    elapsed_ms: u128,
) -> (r: String)
    ensures
        r@ == "frost: "@ + headline(
            executed as nat,
            cached as nat,
            failed as nat,
            skipped as nat,
        ) + " · "@ + scope(selected as nat, total_in_graph as nat) + " · "@ + decimal(
            elapsed_ms as nat,
        ) + " ms"@,
{
    broadcast use group_texts;
    let mut parts: Vec<String> = Vec::new();
    push_count(&mut parts, failed, " failed");
    push_count(&mut parts, executed, " built");
    push_count(&mut parts, skipped, " skipped");
    proof {
        let none = Seq::<Seq<char>>::empty();
        assert(none + counted(failed as nat, " failed"@) =~= counted(failed as nat, " failed"@));
        assert(texts(parts@).len() == parts@.len());
    }
    let head = if parts.len() == 0 && cached > 0 {
        copy("up to date")
    } else {
        push_count(&mut parts, cached, " cached");
        assert(texts(parts@).len() == parts@.len());
        if parts.len() == 0 {
            copy("nothing to do")
        } else {
            join(&parts, ", ")
        }
    };
    let mut about = number(selected as u128);
    if total_in_graph > selected {
        about.append(" of ");
        about.append(&number(total_in_graph as u128));
    }
    about.append(" actions");
    let mut out = copy("frost: ");
    out.append(&head);
    out.append(" · ");
    out.append(&about);
    out.append(" · ");
    out.append(&number(elapsed_ms));
    out.append(" ms");
    out
}

// ---------------------------------------------------------------------------
// What is passed on
// ---------------------------------------------------------------------------

/// A build is answered without a look at each action only where nothing was asked
/// that a run alone can give: of the default targets, and without any of the
/// options that change what is run or shown.
pub proof fn only_plain_builds_are_skipped(request: BuildRequest, r: bool)
    requires
        call_ensures(BuildRequest::enable_fast_noop, (&request,), r),
    ensures
        request.test_mode ==> !r,
        request.targets@.len() > 0 ==> !r,
        request.keep_going ==> !r,
        request.explain ==> !r,
        request.verbose ==> !r,
        request.no_cache ==> !r,
        request.sandbox ==> !r,
        request.check_determinism ==> !r,
        request.trace is Some ==> !r,
        request.stats ==> !r,
        request.affected ==> !r,
        request.predictive ==> !r,
        request.all ==> !r,
        !request.test_mode && request.targets@.len() == 0 && !request.keep_going && !request.explain
            && !request.verbose && !request.no_cache && !request.sandbox
            && !request.check_determinism && request.trace is None && !request.stats
            && !request.affected && !request.predictive && !request.all ==> r,
{
}

proof fn given_flag_stands(list: Seq<(bool, Seq<char>)>, n: nat, i: int)
    requires
        0 <= i < n <= list.len(),
        list[i].0,
    ensures
        given_flags(list, n).contains(list[i].1),
    decreases n,
{
    reveal(flag);
    let less = (n - 1) as nat;
    let before = given_flags(list, less);
    let last = flag(list[n - 1].0, list[n - 1].1);
    if i < less {
        given_flag_stands(list, less, i);
        assert((before + last)[before.index_of(list[i].1)] == list[i].1);
    } else {
        assert((before + last)[before.len() as int] == list[i].1);
    }
}

/// How many of the first `n` options are given.
proof fn given_flags_len(list: Seq<(bool, Seq<char>)>, n: nat)
    requires
        n <= list.len(),
    ensures
        given_flags(list, n).len() == list.take(n as int).filter(|p: (bool, Seq<char>)| p.0).len(),
    decreases n,
{
    let on = |p: (bool, Seq<char>)| p.0;
    reveal(flag);
    if n == 0 {
        reveal(Seq::filter);
        assert(list.take(0) =~= Seq::empty());
    } else {
        let less = (n - 1) as nat;
        given_flags_len(list, less);
        assert(list.take(n as int) =~= list.take(less as int).push(list[n - 1]));
        list.take(less as int).lemma_filter_push(list[n - 1], on);
    }
}

/// The options of a request, in the order in which they are passed on.
proof fn switch_list(request: BuildRequest) -> (list: Seq<(bool, Seq<char>)>)
    ensures
        list.len() == 10,
        request.switches() == given_flags(list, 10),
        list[0] == (request.keep_going, "--keep-going"@),
        list[1] == (request.explain, "--explain"@),
        list[2] == (request.verbose, "--verbose"@),
        list[3] == (request.no_cache, "--no-cache"@),
        list[4] == (request.no_tui, "--no-tui"@),
        list[5] == (request.affected, "--affected"@),
        list[6] == (request.predictive, "--predictive"@),
        list[7] == (request.all, "--all"@),
        list[8] == (request.sandbox, "--sandbox"@),
        list[9] == (request.check_determinism, "--check-determinism"@),
{
    seq![
        (request.keep_going, "--keep-going"@),
        (request.explain, "--explain"@),
        (request.verbose, "--verbose"@),
        (request.no_cache, "--no-cache"@),
        (request.no_tui, "--no-tui"@),
        (request.affected, "--affected"@),
        (request.predictive, "--predictive"@),
        (request.all, "--all"@),
        (request.sandbox, "--sandbox"@),
        (request.check_determinism, "--check-determinism"@),
    ]
}

/// The daemon runs a build with every option that it was asked with.
pub proof fn daemon_is_told_every_option(request: BuildRequest, root: &str, r: Vec<String>)
    requires
        call_ensures(BuildRequest::daemon_args, (&request, root), r),
    ensures
        request.keep_going ==> texts(r@).contains("--keep-going"@),
        request.explain ==> texts(r@).contains("--explain"@),
        request.verbose ==> texts(r@).contains("--verbose"@),
        request.no_cache ==> texts(r@).contains("--no-cache"@),
        request.no_tui ==> texts(r@).contains("--no-tui"@),
        request.affected ==> texts(r@).contains("--affected"@),
        request.predictive ==> texts(r@).contains("--predictive"@),
        request.all ==> texts(r@).contains("--all"@),
        request.sandbox ==> texts(r@).contains("--sandbox"@),
        request.check_determinism ==> texts(r@).contains("--check-determinism"@),
        request.stats ==> texts(r@).contains("--stats"@),
{
    let argv = texts(r@);
    let list = switch_list(request);
    let (before, config, after) = argv_parts(request, root@);
    let switches = request.switches();
    assert(argv == before + switches + config + after);
    assert forall|i: int| 0 <= i < 10 && (#[trigger] list[i]).0 implies argv.contains(list[i].1) by {
        given_flag_stands(list, 10, i);
        assert(argv[before.len() + switches.index_of(list[i].1)] == list[i].1);
    }
    assert(list[0].0 == request.keep_going && list[1].0 == request.explain && list[2].0
        == request.verbose && list[3].0 == request.no_cache && list[4].0 == request.no_tui);
    assert(list[5].0 == request.affected && list[6].0 == request.predictive && list[7].0
        == request.all && list[8].0 == request.sandbox && list[9].0 == request.check_determinism);
    if request.stats {
        assert(argv[before.len() + switches.len() + 8 as int] == after[0]);
    }
}

/// The parts of the command line of a build.
proof fn argv_parts(request: BuildRequest, root: Seq<char>) -> (r: (
    Seq<Seq<char>>,
    Seq<Seq<char>>,
    Seq<Seq<char>>,
))
    ensures
        request.argv(root) == r.0 + request.switches() + r.1 + r.2,
        r.0.len() == 3 + request.targets@.len() + (if request.jobs is Some {
            2int
        } else {
            0
        }),
        r.0[0] == "-C"@,
        r.0[1] == root,
        r.0[2] == if request.test_mode {
            "test"@
        } else {
            "build"@
        },
        r.0.subrange(3, 3 + request.targets@.len() as int) == texts(request.targets@),
        request.jobs matches Some(jobs) ==> r.0[3 + request.targets@.len() as int] == "--jobs"@
            && r.0[4 + request.targets@.len() as int] == decimal(jobs as nat),
        r.1.len() == 8,
        r.1[0] == "--scheduler"@,
        r.1[1] == request.scheduler.text(),
        r.1[2] == "--estimator"@,
        r.1[3] == request.estimator.text(),
        r.1[4] == "--profile"@,
        r.1[5] == request.profile@,
        r.1[6] == "--platform"@,
        r.1[7] == request.platform@,
        request.stats ==> r.2.len() > 0 && r.2[0] == "--stats"@,
        !request.stats && request.trace is None ==> r.2.len() == 0,
        request.trace matches Some(path) ==> r.2.len() >= 2 && r.2[r.2.len() - 2] == "--trace"@
            && r.2[r.2.len() - 1] == path@,
{
    reveal(flag);
    let head = seq![
        "-C"@,
        root,
        if request.test_mode {
            "test"@
        } else {
            "build"@
        },
    ];
    let targets = texts(request.targets@);
    let jobs = match request.jobs {
        Some(jobs) => seq!["--jobs"@, decimal(jobs as nat)],
        None => Seq::empty(),
    };
    let config = seq![
        "--scheduler"@,
        request.scheduler.text(),
        "--estimator"@,
        request.estimator.text(),
        "--profile"@,
        request.profile@,
        "--platform"@,
        request.platform@,
    ];
    let stats = flag(request.stats, "--stats"@);
    let trace = match request.trace {
        Some(path) => seq!["--trace"@, path@],
        None => Seq::empty(),
    };
    let before = head + targets + jobs;
    let switches = request.switches();
    let after = stats + trace;
    assert(before.subrange(3, 3 + request.targets@.len() as int) =~= targets);
    assert(before + switches + config + stats + trace =~= before + switches + config + after);
    (before, config, after)
}

/// The daemon runs a build with all that it was asked with: the command, every
/// target in order, the number of jobs, the scheduler, the estimator, the profile,
/// the platform and the trace. Without options there is nothing else.
pub proof fn daemon_is_told_what_to_build(request: BuildRequest, root: &str, r: Vec<String>)
    requires
        call_ensures(BuildRequest::daemon_args, (&request, root), r),
    ensures
        ({
            let argv = texts(r@);
            let n = request.targets@.len() as int;
            let j: int = if request.jobs is Some {
                2
            } else {
                0
            };
            &&& argv.len() >= 3 + n + j + 8
            &&& argv[0] == "-C"@
            &&& argv[1] == root@
            &&& argv[2] == if request.test_mode {
                "test"@
            } else {
                "build"@
            }
            &&& argv.subrange(3, 3 + n) == texts(request.targets@)
            &&& request.jobs matches Some(jobs) ==> argv[3 + n] == "--jobs"@ && argv[4 + n]
                == decimal(jobs as nat)
            &&& request.trace matches Some(path) ==> argv[argv.len() - 2] == "--trace"@
                && argv[argv.len() - 1] == path@
            &&& exists|i: int|
                #![trigger argv[i]]
                3 + n + j <= i && i + 8 <= argv.len() && argv[i] == "--scheduler"@ && argv[i + 1]
                    == request.scheduler.text() && argv[i + 2] == "--estimator"@ && argv[i + 3]
                    == request.estimator.text() && argv[i + 4] == "--profile"@ && argv[i + 5]
                    == request.profile@ && argv[i + 6] == "--platform"@ && argv[i + 7]
                    == request.platform@
            &&& !request.keep_going && !request.explain && !request.verbose && !request.no_cache
                && !request.no_tui && !request.affected && !request.predictive && !request.all
                && !request.sandbox && !request.check_determinism && !request.stats
                && request.trace is None ==> argv.len() == 3 + n + j + 8
        }),
{
    let argv = texts(r@);
    let n = request.targets@.len() as int;
    let (before, config, after) = argv_parts(request, root@);
    let switches = request.switches();
    assert(argv == before + switches + config + after);
    assert(argv.subrange(3, 3 + n) =~= before.subrange(3, 3 + n));
    let at = before.len() + switches.len() as int;
    assert(argv.subrange(at, at + 8) =~= config);
    assert forall|i: int| 0 <= i < 8 implies argv[at + i] == #[trigger] config[i] by {
        assert(argv.subrange(at, at + 8)[i] == argv[at + i]);
    }
    assert(argv[at] == config[0] && argv[at + 1] == config[1] && argv[at + 2] == config[2]);
    if request.trace is Some {
        assert(argv[argv.len() - 2] == after[after.len() - 2]);
        assert(argv[argv.len() - 1] == after[after.len() - 1]);
    }
    let list = switch_list(request);
    given_flags_len(list, 10);
    if !request.keep_going && !request.explain && !request.verbose && !request.no_cache
        && !request.no_tui && !request.affected && !request.predictive && !request.all
        && !request.sandbox && !request.check_determinism {
        let on = |p: (bool, Seq<char>)| p.0;
        if switches.len() > 0 {
            let all = list.take(10);
            all.lemma_filter_pred(on, 0);
            assert(all.filter(on).contains(all.filter(on)[0]));
            all.lemma_filter_contains_rev(on, all.filter(on)[0]);
            let i = all.index_of(all.filter(on)[0]);
            assert(list[i].0);
        }
    }
}

/// A request is about the targets that it names, where all are targets, and about
/// the default ones where it names none; it is refused exactly where one is not.
pub proof fn requested_targets_are_resolved(
    g: BuildGraph,
    requested: Vec<String>,
    r: Result<Vec<String>, NoSuchTarget>,
)
    requires
        g.wf(),
        call_ensures(resolve_targets, (&g, requested), r),
    ensures
        r is Ok <==> forall|k: int|
            0 <= k < requested@.len() ==> g.targets.names().contains((#[trigger] requested@[k])@),
        r matches Ok(names) ==> (if requested@.len() == 0 {
            texts(names@) == texts(g.default_targets@)
        } else {
            texts(names@) == texts(requested@)
        }),
        r matches Err(e) ==> texts(requested@).contains(e.name@) && !g.targets.names().contains(
            e.name@,
        ),
{
    if let Err(e) = r {
        let k = choose|k: int|
            #![trigger requested@[k]]
            0 <= k < requested@.len() && e.name@ == requested@[k]@ && !g.targets.has(e.name@);
        assert(texts(requested@)[k] == e.name@);
    }
}

/// The last line of a build gives every count that is not nought, failures first;
/// that all is up to date is said exactly where nothing failed, ran or was skipped
/// and something was found in the cache.
pub proof fn summary_gives_every_count(
    executed: usize,
    cached: usize,
    failed: usize,
    skipped: usize,
    selected: usize,
    total: usize,
    elapsed: u128,
    r: String,
) -> (tail: Seq<char>)
    requires
        call_ensures(summarize, (executed, cached, failed, skipped, selected, total, elapsed), r),
    ensures
        failed == 0 && executed == 0 && skipped == 0 && cached > 0 ==> r@ == "frost: "@
            + "up to date"@ + tail,
        failed == 0 && executed == 0 && skipped == 0 && cached == 0 ==> r@ == "frost: "@
            + "nothing to do"@ + tail,
        failed > 0 && executed > 0 && skipped > 0 && cached > 0 ==> r@ == "frost: "@ + (decimal(
            failed as nat,
        ) + " failed"@ + ", "@ + (decimal(executed as nat) + " built"@) + ", "@ + (decimal(
            skipped as nat,
        ) + " skipped"@) + ", "@ + (decimal(cached as nat) + " cached"@)) + tail,
        failed > 0 && executed == 0 && skipped == 0 && cached == 0 ==> r@ == "frost: "@ + (decimal(
            failed as nat,
        ) + " failed"@) + tail,
        failed == 0 && executed > 0 && skipped == 0 && cached == 0 ==> r@ == "frost: "@ + (decimal(
            executed as nat,
        ) + " built"@) + tail,
        failed == 0 && executed > 0 && skipped == 0 && cached > 0 ==> r@ == "frost: "@ + (decimal(
            executed as nat,
        ) + " built"@ + ", "@ + (decimal(cached as nat) + " cached"@)) + tail,
        total > selected ==> tail == " · "@ + (decimal(selected as nat) + " of "@ + decimal(
            total as nat,
        ) + " actions"@) + " · "@ + decimal(elapsed as nat) + " ms"@,
        total <= selected ==> tail == " · "@ + (decimal(selected as nat) + " actions"@) + " · "@
            + decimal(elapsed as nat) + " ms"@,
{
    let tail = " · "@ + scope(selected as nat, total as nat) + " · "@ + decimal(elapsed as nat)
        + " ms"@;
    let head = headline(executed as nat, cached as nat, failed as nat, skipped as nat);
    assert(r@ =~= "frost: "@ + head + tail);
    let f = decimal(failed as nat) + " failed"@;
    let b = decimal(executed as nat) + " built"@;
    let s = decimal(skipped as nat) + " skipped"@;
    let c = decimal(cached as nat) + " cached"@;
    let parts = counted(failed as nat, " failed"@) + counted(executed as nat, " built"@) + counted(
        skipped as nat,
        " skipped"@,
    );
    let all = parts + counted(cached as nat, " cached"@);
    reveal_with_fuel(joined, 4);
    if failed > 0 && executed > 0 && skipped > 0 && cached > 0 {
        assert(all =~= seq![f, b, s, c]);
        assert(all.drop_last() =~= seq![f, b, s]);
        assert(all.drop_last().drop_last() =~= seq![f, b]);
        assert(all.drop_last().drop_last().drop_last() =~= seq![f]);
    } else if failed > 0 && executed == 0 && skipped == 0 && cached == 0 {
        assert(all =~= seq![f]);
    } else if failed == 0 && executed > 0 && skipped == 0 {
        if cached > 0 {
            assert(all =~= seq![b, c]);
            assert(all.drop_last() =~= seq![b]);
        } else {
            assert(all =~= seq![b]);
        }
    }
    tail
}

} // verus!
