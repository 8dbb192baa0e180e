//! The build daemon: what it knows of the workspace, what it answers, and the
//! frames it speaks in.

use vstd::prelude::*;
use vstd::string::*;

use crate::digest::{blake3_hex, blake3_of, hex_text};
use crate::path_set::{has_path, paths_ascend, with_path, with_path_means, PathSet};
use crate::paths::{
    components, components_of, join_path, joined_path, relative_to, remainder, starts_with_path,
    two_components, under,
};
use crate::sorted_map::{copy_pairs, pairs, Pairs, SortedMap};
use crate::text::{
    begins, chars_of, copy, decimal, decimal_read_back, number, parse_u64, parsed, same,
    strip_prefix, text_between, texts,
};

verus! {

pub const PROTOCOL_VERSION: u32 = 1;

/// No frame is longer than this.
pub const FRAME_LIMIT: usize = 64 * 1024 * 1024;

/// A plain build of the default targets, with the client's values of the
/// environment that outputs depend on.
#[derive(Debug)]
pub struct FastNoopRequest {
    pub profile: String,
    pub platform: String,
    pub key_env: SortedMap<String>,
}

/// What a client asks.
#[derive(Debug)]
pub enum Request {
    Status { version: u32 },
    Run { version: u32, program: String, args: Vec<String>, fast_noop: Option<FastNoopRequest> },
    Shutdown { version: u32 },
}

/// What the daemon answers.
#[derive(Debug)]
pub struct Response {
    pub version: u32,
    pub code: i32,
    pub stdout: String,
    pub stderr: String,
}

/// A validated build with nothing to do, and the ticket that names what shows
/// so while no file changes.
#[derive(Debug)]
pub struct CachedNoop {
    pub profile: String,
    pub platform: String,
    pub key_env: SortedMap<String>,
    pub ticket: u64,
}

/// What the daemon knows of its workspace.
#[derive(Debug)]
pub struct DaemonState {
    /// Paths that changed since the last settled build.
    pub dirty: PathSet,
    /// No event was lost.
    pub watcher_trusted: bool,
    pub event_epoch: u64,
    pub next_barrier: u64,
    pub barrier_seen: u64,
    pub cached_noop: Option<CachedNoop>,
}

/// A build with nothing to do: the actions that were asked for and those of the
/// whole graph.
#[derive(Debug, Clone, Copy, PartialEq, Eq, Structural)]
pub struct Hit {
    pub closure_actions: usize,
    pub graph_actions: usize,
}

/// What a `CachedNoop` holds.
pub struct NoopView {
    pub profile: Seq<char>,
    pub platform: Seq<char>,
    pub key_env: Pairs,
    pub ticket: u64,
}

/// What a `DaemonState` holds.
pub struct Knowledge {
    pub dirty: Seq<Seq<char>>,
    pub trusted: bool,
    pub epoch: u64,
    pub next_barrier: u64,
    pub seen: u64,
    pub cached: Option<NoopView>,
}

impl View for CachedNoop {
    type V = NoopView;

    open spec fn view(&self) -> NoopView {
        NoopView {
            profile: self.profile@,
            platform: self.platform@,
            key_env: pairs(self.key_env),
            ticket: self.ticket,
        }
    }
}

impl View for DaemonState {
    type V = Knowledge;

    open spec fn view(&self) -> Knowledge {
        Knowledge {
            dirty: self.dirty@,
            trusted: self.watcher_trusted,
            epoch: self.event_epoch,
            next_barrier: self.next_barrier,
            seen: self.barrier_seen,
            cached: match self.cached_noop {
                Some(cached) => Some(cached@),
                None => None,
            },
        }
    }
}

// ---------------------------------------------------------------------------
// Barriers
// ---------------------------------------------------------------------------

pub const WATCHER_BARRIER_PREFIX: &'static str = ".frostd-barrier-";

/// The number of the barrier that a file below `.frost` is, if it is one.
pub open spec fn barrier_number(relative: Seq<char>) -> Option<nat> {
    let parts = components(relative);
    if parts.len() == 2 && parts[0] == ".frost"@ && begins(parts[1], WATCHER_BARRIER_PREFIX@) {
        parsed(parts[1].skip(WATCHER_BARRIER_PREFIX@.len() as int), u64::MAX as nat)
    } else {
        None
    }
}

/// The number of the barrier that a file is, if it is one.
pub fn watcher_barrier_id(relative: &str) -> (r: Option<u64>)
    ensures
        match r {
            Some(id) => barrier_number(relative@) == Some(id as nat),
            None => barrier_number(relative@) == None::<nat>,
        },
{
    let parts = components_of(relative);
    assert(texts(parts@).len() == parts@.len());
    if parts.len() != 2 {
        return None;
    }
    assert(texts(parts@)[0] == parts@[0]@);
    assert(texts(parts@)[1] == parts@[1]@);
    if !same(&parts[0], ".frost") {
        return None;
    }
    match strip_prefix(&parts[1], WATCHER_BARRIER_PREFIX) {
        Some(rest) => parse_u64(&rest),
        None => None,
    }
}

/// The file of a barrier, relative to the workspace root.
pub open spec fn barrier_file(id: nat) -> Seq<char> {
    ".frost/"@ + (WATCHER_BARRIER_PREFIX@ + decimal(id))
}

/// The file of a barrier, relative to the workspace root.
pub fn barrier_path(id: u64) -> (r: String)
    ensures
        r@ == barrier_file(id as nat),
{
    let mut name = copy(WATCHER_BARRIER_PREFIX);
    name.append(&number(id as u128));
    let mut out = copy(".frost/");
    out.append(&name);
    out
}

/// A barrier's file is recognized as that barrier.
pub proof fn barrier_read_back(id: u64)
    ensures
        barrier_number(barrier_file(id as nat)) == Some(id as nat),
{
    let n = id as nat;
    let head = WATCHER_BARRIER_PREFIX@;
    let name = head + decimal(n);
    barrier_words(n);
    two_components(".frost"@, name);
    assert(barrier_file(n) == ".frost"@ + seq!['/'] + name);
    assert(name.subrange(0, head.len() as int) =~= head);
    assert(name.skip(head.len() as int) =~= decimal(n));
    decimal_read_back(n);
}

/// What a barrier's file is made of.
proof fn barrier_words(n: nat)
    ensures
        barrier_file(n) == ".frost"@ + seq!['/'] + (WATCHER_BARRIER_PREFIX@ + decimal(n)),
        !".frost"@.contains('/'),
        ".frost"@.len() > 1,
        ".frost"@ != "."@,
        !(WATCHER_BARRIER_PREFIX@ + decimal(n)).contains('/'),
        (WATCHER_BARRIER_PREFIX@ + decimal(n)).len() > 1,
        (WATCHER_BARRIER_PREFIX@ + decimal(n)) != "."@,
{
    let name = WATCHER_BARRIER_PREFIX@ + decimal(n);
    reveal_strlit(".frost/");
    reveal_strlit(".frost");
    reveal_strlit(".frostd-barrier-");
    reveal_strlit(".");
    assert(".frost/"@ =~= ".frost"@ + seq!['/']);
    assert("."@.len() == 1);
    decimal_digits(n);
    assert forall|k: int| 0 <= k < name.len() implies name[k] != '/' by {
        if k >= WATCHER_BARRIER_PREFIX@.len() {
            assert(name[k] == decimal(n)[k - WATCHER_BARRIER_PREFIX@.len()]);
            assert(crate::text::is_digit(decimal(n)[k - WATCHER_BARRIER_PREFIX@.len()]));
        } else {
            assert(name[k] == WATCHER_BARRIER_PREFIX@[k]);
        }
    }
}

/// Numbers are written in digits.
proof fn decimal_digits(n: nat)
    ensures
        forall|i: int| 0 <= i < decimal(n).len() ==> crate::text::is_digit(#[trigger] decimal(n)[i]),
    decreases n,
{
    let d = n % 10;
    assert(crate::text::digit(d) as u8 == 48 + d);
    assert(crate::text::is_digit(crate::text::digit(d)));
    if n >= 10 {
        decimal_digits(n / 10);
        assert forall|i: int| 0 <= i < decimal(n).len() implies crate::text::is_digit(
            #[trigger] decimal(n)[i],
        ) by {
            if i < decimal(n / 10).len() {
                assert(decimal(n)[i] == decimal(n / 10)[i]);
            }
        }
    }
}

/// A number one higher; the highest is followed by one.
pub open spec fn next_number(n: u64) -> u64 {
    if n == u64::MAX {
        1
    } else {
        (n + 1) as u64
    }
}

/// A count of events one higher; the highest is followed by zero.
pub open spec fn next_epoch(n: u64) -> u64 {
    if n == u64::MAX {
        0
    } else {
        (n + 1) as u64
    }
}

impl Knowledge {
    /// Events may have been lost.
    pub open spec fn lost(self) -> Knowledge {
        Knowledge { trusted: false, cached: None, ..self }
    }

    /// The watcher reported an error.
    pub open spec fn failed(self) -> Knowledge {
        Knowledge { epoch: next_epoch(self.epoch), ..self.lost() }
    }

    /// A path relative to the root changed. A barrier is seen; the version
    /// control's own files do not count; anything else is dirty and ends what
    /// was cached.
    pub open spec fn touched(self, relative: Seq<char>) -> Knowledge {
        match barrier_number(relative) {
            Some(id) => Knowledge {
                seen: if id > self.seen {
                    id as u64
                } else {
                    self.seen
                },
                ..self
            },
            None => if under(relative, ".git"@) {
                self
            } else {
                Knowledge {
                    dirty: with_path(self.dirty, relative),
                    cached: None,
                    epoch: next_epoch(self.epoch),
                    ..self
                }
            },
        }
    }

    /// The first `n` of some paths changed.
    pub open spec fn touched_all(self, root: Seq<char>, paths: Seq<Seq<char>>, n: nat) -> Knowledge
        decreases n,
    {
        if n == 0 {
            self
        } else {
            self.touched_all(root, paths, (n - 1) as nat).touched(below(paths[n - 1], root))
        }
    }

    /// A barrier is to be written.
    pub open spec fn barrier_started(self) -> Knowledge {
        Knowledge { next_barrier: next_number(self.next_barrier), ..self }
    }

    /// Whether a barrier that was written has been seen.
    pub open spec fn passed(self, id: u64) -> bool {
        self.trusted && self.seen >= id
    }

    /// The wait for a barrier is over. One that was not seen ends the trust in
    /// the watcher.
    pub open spec fn barrier_ended(self, id: u64) -> Knowledge {
        if self.passed(id) {
            self
        } else {
            self.lost()
        }
    }

    /// No path is dirty.
    pub open spec fn cleared(self) -> Knowledge {
        Knowledge { dirty: Seq::empty(), ..self }
    }
}

/// A path relative to the root where it is under it; else as it is.
pub open spec fn below(path: Seq<char>, root: Seq<char>) -> Seq<char> {
    if under(path, root) {
        remainder(path, components(root).len())
    } else {
        path
    }
}

impl DaemonState {
    pub open spec fn wf(self) -> bool {
        self.dirty.wf() && match self.cached_noop {
            Some(cached) => cached.key_env.wf(),
            None => true,
        }
    }

    /// A daemon that has just started.
    pub fn new() -> (r: DaemonState)
        ensures
            r.wf(),
            r@ == (Knowledge {
                dirty: Seq::empty(),
                trusted: true,
                epoch: 0,
                next_barrier: 0,
                seen: 0,
                cached: None,
            }),
    {
        DaemonState {
            dirty: PathSet::new(),
            watcher_trusted: true,
            event_epoch: 0,
            next_barrier: 0,
            barrier_seen: 0,
            cached_noop: None,
        }
    }

    /// The watcher reported an error.
    pub fn watcher_failed(&mut self)
        requires
            old(self).wf(),
        ensures
            final(self).wf(),
            final(self)@ == old(self)@.failed(),
    {
        self.distrust();
        self.count_event();
    }

    fn count_event(&mut self)
        requires
            old(self).wf(),
        ensures
            final(self).wf(),
            final(self)@ == (Knowledge { epoch: next_epoch(old(self)@.epoch), ..old(self)@ }),
    {
        self.event_epoch = if self.event_epoch == u64::MAX {
            0
        } else {
            self.event_epoch + 1
        };
    }

    /// Events may have been lost.
    pub fn distrust(&mut self)
        requires
            old(self).wf(),
        ensures
            final(self).wf(),
            final(self)@ == old(self)@.lost(),
    {
        self.watcher_trusted = false;
        self.cached_noop = None;
    }

    /// Paths changed.
    pub fn observe(&mut self, root: &str, paths: &Vec<String>)
        requires
            old(self).wf(),
        ensures
            final(self).wf(),
            final(self)@ == old(self)@.touched_all(root@, texts(paths@), paths@.len()),
    {
        let ghost was = self@;
        let ghost names = texts(paths@);
        let mut i: usize = 0;
        while i < paths.len()
            invariant
                names == texts(paths@),
                i <= paths@.len(),
                self.wf(),
                self@ == was.touched_all(root@, names, i as nat),
            decreases paths@.len() - i,
        {
            assert(names[i as int] == paths@[i as int]@);
            let relative = match relative_to(&paths[i], root) {
                Some(relative) => relative,
                None => copy(&paths[i]),
            };
            if let Some(id) = watcher_barrier_id(&relative) {
                if id > self.barrier_seen {
                    self.barrier_seen = id;
                }
            } else if !starts_with_path(&relative, ".git") {
                self.dirty.insert(relative);
                self.cached_noop = None;
                self.count_event();
            }
            i += 1;
        }
    }

    /// The number of the next barrier to write; none where the watcher is not
    /// trusted.
    pub fn begin_barrier(&mut self) -> (r: Option<u64>)
        requires
            old(self).wf(),
        ensures
            final(self).wf(),
            match r {
                Some(id) => old(self)@.trusted && id == next_number(old(self)@.next_barrier)
                    && final(self)@ == old(self)@.barrier_started(),
                None => !old(self)@.trusted && final(self)@ == old(self)@,
            },
    {
        if !self.watcher_trusted {
            return None;
        }
        self.next_barrier = if self.next_barrier == u64::MAX {
            1
        } else {
            self.next_barrier + 1
        };
        Some(self.next_barrier)
    }

    /// Whether the wait for a barrier can go on.
    pub fn awaits(&self, id: u64) -> (r: bool)
        ensures
            r == (self@.trusted && self@.seen < id),
    {
        self.watcher_trusted && self.barrier_seen < id
    }

    /// Ends the wait for a barrier; says whether it was seen.
    pub fn end_barrier(&mut self, id: u64) -> (r: bool)
        requires
            old(self).wf(),
        ensures
            final(self).wf(),
            r == old(self)@.passed(id),
            final(self)@ == old(self)@.barrier_ended(id),
    {
        let observed = self.watcher_trusted && self.barrier_seen >= id;
        if !observed {
            self.distrust();
        }
        observed
    }

    fn clear(&mut self)
        requires
            old(self).wf(),
        ensures
            final(self).wf(),
            final(self)@ == old(self)@.cleared(),
    {
        self.dirty = PathSet::new();
    }
}

// ---------------------------------------------------------------------------
// Answers
// ---------------------------------------------------------------------------

/// The protocol version of a request.
pub open spec fn version_of(request: Request) -> u32 {
    match request {
        Request::Status { version } => version,
        Request::Run { version, program, args, fast_noop } => version,
        Request::Shutdown { version } => version,
    }
}

/// What is to be done with a request.
#[derive(Debug)]
pub enum Handled {
    /// Answer it, and stop where `shutdown` says so.
    Reply { response: Response, shutdown: bool },
    /// Run it.
    Run,
}

/// A response says the given things.
pub open spec fn says(r: Response, version: u32, code: i32, stdout: Seq<char>, stderr: Seq<char>) -> bool {
    r.version == version && r.code == code && r.stdout@ == stdout && r.stderr@ == stderr
}

/// Answers a request, or says that it is to be run. A request in another
/// version of the protocol is refused.
pub fn handle(state: &DaemonState, request: &Request) -> (r: Handled)
    requires
        state.wf(),
    ensures
        match r {
            Handled::Reply { response, shutdown } => if version_of(*request) != PROTOCOL_VERSION {
                !shutdown && says(response, PROTOCOL_VERSION, 2, ""@, "protocol version mismatch"@)
            } else {
                match *request {
                    Request::Status { version } => !shutdown && says(
                        response,
                        version,
                        0,
                        "running ("@ + decimal(state@.dirty.len()) + " dirty paths)"@,
                        ""@,
                    ),
                    Request::Shutdown { version } => shutdown && says(
                        response,
                        version,
                        0,
                        "stopped"@,
                        ""@,
                    ),
                    _ => false,
                }
            },
            Handled::Run => version_of(*request) == PROTOCOL_VERSION && *request is Run,
        },
{
    let version: u32 = match request {
        Request::Status { version } => *version,
        Request::Run { version, program, args, fast_noop } => *version,
        Request::Shutdown { version } => *version,
    };
    if version != PROTOCOL_VERSION {
        return Handled::Reply {
            response: Response {
                version: PROTOCOL_VERSION,
                code: 2,
                stdout: copy(""),
                stderr: copy("protocol version mismatch"),
            },
            shutdown: false,
        };
    }
    match request {
        Request::Status { version } => {
            let mut stdout = copy("running (");
            stdout.append(&number(state.dirty.len() as u128));
            stdout.append(" dirty paths)");
            Handled::Reply {
                response: Response { version: *version, code: 0, stdout, stderr: copy("") },
                shutdown: false,
            }
        },
        Request::Shutdown { version } => Handled::Reply {
            response: Response {
                version: *version,
                code: 0,
                stdout: copy("stopped"),
                stderr: copy(""),
            },
            shutdown: true,
        },
        Request::Run { version, program, args, fast_noop } => Handled::Run,
    }
}

/// The actions that a build was about: how many of how many.
pub open spec fn scope_text(hit: Hit) -> Seq<char> {
    if hit.closure_actions < hit.graph_actions {
        decimal(hit.closure_actions as nat) + " of "@ + decimal(hit.graph_actions as nat)
            + " actions"@
    } else {
        decimal(hit.closure_actions as nat) + " actions"@
    }
}

/// The answer to a build with nothing to do.
pub fn noop_response(version: u32, hit: Hit, elapsed_ms: u64) -> (r: Response)
    ensures
        says(
            r,
            version,
            0,
            "frost: up to date · "@ + scope_text(hit) + " · "@ + decimal(elapsed_ms as nat)
                + " ms\n"@,
            ""@,
        ),
{
    let mut scope = number(hit.closure_actions as u128);
    if hit.closure_actions < hit.graph_actions {
        scope.append(" of ");
        scope.append(&number(hit.graph_actions as u128));
    }
    scope.append(" actions");
    let mut stdout = copy("frost: up to date · ");
    stdout.append(&scope);
    stdout.append(" · ");
    stdout.append(&number(elapsed_ms as u128));
    stdout.append(" ms\n");
    Response { version, code: 0, stdout, stderr: copy("") }
}

/// The answer to a build that could not be looked at.
pub fn error_response(version: u32, error: &str) -> (r: Response)
    ensures
        says(r, version, 2, ""@, "frost: error: "@ + error@ + "\n"@),
{
    let mut stderr = copy("frost: error: ");
    stderr.append(error);
    stderr.append("\n");
    Response { version, code: 2, stdout: copy(""), stderr }
}

/// The answer to a build that was run: its exit code, or 1 where it has none.
pub fn child_response(version: u32, code: Option<i32>, stdout: String, stderr: String) -> (r: Response)
    ensures
        says(
            r,
            version,
            match code {
                Some(c) => c,
                None => 1,
            },
            stdout@,
            stderr@,
        ),
{
    Response {
        version,
        code: match code {
            Some(c) => c,
            None => 1,
        },
        stdout,
        stderr,
    }
}

/// The answer to a build that could not be started.
pub fn spawn_error_response(version: u32, error: String) -> (r: Response)
    ensures
        says(r, version, 2, ""@, error@),
{
    Response { version, code: 2, stdout: copy(""), stderr: error }
}

// ---------------------------------------------------------------------------
// Running a request
// ---------------------------------------------------------------------------

/// How far the handling of a request has come.
#[derive(Debug, Clone, Copy, PartialEq, Eq, Structural)]
pub enum Phase {
    /// What the cached ticket names is being checked.
    Proof,
    /// The check held; its barrier is awaited.
    ProofBarrier { id: u64, hit: Hit },
    /// The barrier before a validation is awaited.
    FullBarrier { id: u64 },
    /// The whole workspace is being validated. `ready` says that a barrier
    /// passed before, `baseline` which events came before.
    Validating { ready: bool, baseline: u64 },
    /// Validated; the barrier behind it is awaited.
    SettleBarrier { id: u64, hit: Hit, ticket: Option<u64>, baseline: u64 },
    /// The build runs.
    Child,
    /// The build succeeded; its barrier is awaited.
    ChildBarrier { id: u64 },
    /// The request is answered.
    Done,
}

/// What is to be done next for a request.
#[derive(Debug, Clone, Copy, PartialEq, Eq, Structural)]
pub enum Step {
    CheckProof { ticket: u64 },
    WriteBarrier { id: u64 },
    Validate,
    RunChild,
    AnswerUpToDate { hit: Hit },
    AnswerError,
    AnswerChild,
    AnswerSpawnError,
}

/// What came of a step.
#[derive(Debug, Clone, Copy, PartialEq, Eq, Structural)]
pub enum Outcome {
    ProofError,
    ProofMiss,
    ProofHit { hit: Hit },
    BarrierUnwritable,
    /// The barrier was written, and the wait for it is over.
    BarrierWaited,
    ValidateError,
    ValidateMiss,
    Validated { hit: Hit, ticket: Option<u64> },
    ChildExited { success: bool },
    SpawnError,
}

/// What the daemon knows, how far a request has come, and what to do next.
pub struct Progressed {
    pub knowledge: Knowledge,
    pub phase: Phase,
    pub step: Step,
}

/// What a request for a plain build asks.
pub struct Asked {
    pub profile: Seq<char>,
    pub platform: Seq<char>,
    pub key_env: Pairs,
}

impl View for FastNoopRequest {
    type V = Asked;

    open spec fn view(&self) -> Asked {
        Asked { profile: self.profile@, platform: self.platform@, key_env: pairs(self.key_env) }
    }
}

impl Knowledge {
    /// What is cached answers the request, if nothing changed since.
    pub open spec fn cached_for(self, asked: Asked) -> bool {
        match self.cached {
            Some(c) => c.profile == asked.profile && c.platform == asked.platform && c.key_env
                == asked.key_env,
            None => false,
        }
    }

    /// The build is run.
    pub open spec fn to_child(self) -> Progressed {
        Progressed { knowledge: self, phase: Phase::Child, step: Step::RunChild }
    }

    /// The workspace is validated; before that, a barrier where the watcher is
    /// trusted.
    pub open spec fn to_full(self) -> Progressed {
        if self.trusted {
            let id = next_number(self.next_barrier);
            Progressed {
                knowledge: self.barrier_started(),
                phase: Phase::FullBarrier { id },
                step: Step::WriteBarrier { id },
            }
        } else {
            self.to_validate(false)
        }
    }

    /// The workspace is validated. Where a barrier passed, nothing that
    /// changed before it counts.
    pub open spec fn to_validate(self, ready: bool) -> Progressed {
        Progressed {
            knowledge: if ready && self.trusted {
                self.cleared()
            } else {
                self
            },
            phase: Phase::Validating { ready, baseline: self.epoch },
            step: Step::Validate,
        }
    }

    /// A request is run from the beginning. What is cached is looked at where
    /// the watcher is trusted and nothing changed.
    pub open spec fn started(self, fast_noop: Option<Asked>) -> Progressed {
        match fast_noop {
            None => self.to_child(),
            Some(asked) => if self.trusted && self.dirty.len() == 0
                && self.cached_for(asked) {
                Progressed {
                    knowledge: self,
                    phase: Phase::Proof,
                    step: Step::CheckProof { ticket: self.cached->0.ticket },
                }
            } else {
                self.to_full()
            },
        }
    }

    /// A validated workspace. It is up to date, and can be cached, where
    /// nothing changed while it was looked at. A change that a trusted watcher
    /// saw means that the build is run.
    pub open spec fn settled(
        self,
        asked: Asked,
        hit: Hit,
        ticket: Option<u64>,
        ready: bool,
        stable: bool,
        baseline: u64,
    ) -> Progressed {
        let unchanged = stable && self.trusted && self.epoch == baseline;
        let known = if unchanged {
            Knowledge {
                cached: match ticket {
                    Some(ticket) => Some(
                        NoopView {
                            profile: asked.profile,
                            platform: asked.platform,
                            key_env: asked.key_env,
                            ticket,
                        },
                    ),
                    None => None,
                },
                ..self.cleared()
            }
        } else {
            Knowledge { cached: None, ..self }
        };
        if !ready || unchanged {
            Progressed { knowledge: known, phase: Phase::Done, step: Step::AnswerUpToDate { hit } }
        } else {
            known.to_child()
        }
    }

    /// A request after a step.
    pub open spec fn advanced(self, phase: Phase, asked: Asked, outcome: Outcome) -> Option<
        Progressed,
    > {
        match (phase, outcome) {
            (Phase::Proof, Outcome::ProofError) => Some(self.done(Step::AnswerError)),
            (Phase::Proof, Outcome::ProofMiss) => Some(
                (Knowledge { cached: None, ..self }).to_full(),
            ),
            (Phase::Proof, Outcome::ProofHit { hit }) => Some(
                if self.trusted {
                    let id = next_number(self.next_barrier);
                    Progressed {
                        knowledge: self.barrier_started(),
                        phase: Phase::ProofBarrier { id, hit },
                        step: Step::WriteBarrier { id },
                    }
                } else {
                    self.to_full()
                },
            ),
            (Phase::ProofBarrier { id, hit }, Outcome::BarrierUnwritable) => Some(
                self.lost().to_full(),
            ),
            (Phase::ProofBarrier { id, hit }, Outcome::BarrierWaited) => Some(
                if self.passed(id) && self.dirty.len() == 0 && self.cached is Some {
                    self.done(Step::AnswerUpToDate { hit })
                } else {
                    self.barrier_ended(id).to_full()
                },
            ),
            (Phase::FullBarrier { id }, Outcome::BarrierUnwritable) => Some(
                self.lost().to_validate(false),
            ),
            (Phase::FullBarrier { id }, Outcome::BarrierWaited) => Some(
                self.barrier_ended(id).to_validate(self.passed(id)),
            ),
            (Phase::Validating { ready, baseline }, Outcome::ValidateError) => Some(
                self.done(Step::AnswerError),
            ),
            (Phase::Validating { ready, baseline }, Outcome::ValidateMiss) => Some(self.to_child()),
            (Phase::Validating { ready, baseline }, Outcome::Validated { hit, ticket }) => Some(
                if ready && self.trusted {
                    let id = next_number(self.next_barrier);
                    Progressed {
                        knowledge: self.barrier_started(),
                        phase: Phase::SettleBarrier { id, hit, ticket, baseline },
                        step: Step::WriteBarrier { id },
                    }
                } else {
                    self.settled(asked, hit, ticket, ready, false, baseline)
                },
            ),
            (
                Phase::SettleBarrier { id, hit, ticket, baseline },
                Outcome::BarrierUnwritable,
            ) => Some(self.lost().settled(asked, hit, ticket, true, false, baseline)),
            (Phase::SettleBarrier { id, hit, ticket, baseline }, Outcome::BarrierWaited) => Some(
                self.barrier_ended(id).settled(
                    asked,
                    hit,
                    ticket,
                    true,
                    self.passed(id),
                    baseline,
                ),
            ),
            (Phase::Child, Outcome::SpawnError) => Some(self.done(Step::AnswerSpawnError)),
            (Phase::Child, Outcome::ChildExited { success }) => Some(
                if !success {
                    self.done(Step::AnswerChild)
                } else if self.trusted {
                    let id = next_number(self.next_barrier);
                    Progressed {
                        knowledge: self.barrier_started(),
                        phase: Phase::ChildBarrier { id },
                        step: Step::WriteBarrier { id },
                    }
                } else {
                    self.rebuilt()
                },
            ),
            (Phase::ChildBarrier { id }, Outcome::BarrierUnwritable) => Some(self.lost().rebuilt()),
            (Phase::ChildBarrier { id }, Outcome::BarrierWaited) => Some(
                self.barrier_ended(id).rebuilt(),
            ),
            _ => None,
        }
    }

    /// The request is answered.
    pub open spec fn done(self, step: Step) -> Progressed {
        Progressed { knowledge: self, phase: Phase::Done, step }
    }

    /// A build succeeded: nothing is dirty, and nothing is cached until the
    /// next validation.
    pub open spec fn rebuilt(self) -> Progressed {
        (Knowledge { cached: None, ..self.cleared() }).done(Step::AnswerChild)
    }
}

/// Two maps from texts to texts are the same.
fn same_pairs(a: &SortedMap<String>, b: &SortedMap<String>) -> (r: bool)
    requires
        a.wf(),
        b.wf(),
    ensures
        r == (pairs(*a) == pairs(*b)),
{
    same_lists(&a.keys, &b.keys) && same_lists(&a.values, &b.values)
}

pub fn same_lists(a: &Vec<String>, b: &Vec<String>) -> (r: bool)
    ensures
        r == (texts(a@) == texts(b@)),
{
    let ghost x = texts(a@);
    let ghost y = texts(b@);
    assert(x.len() == a@.len() && y.len() == b@.len());
    if a.len() != b.len() {
        return false;
    }
    let mut i: usize = 0;
    while i < a.len()
        invariant
            x == texts(a@),
            y == texts(b@),
            a@.len() == b@.len(),
            i <= a@.len(),
            forall|k: int| 0 <= k < i ==> #[trigger] x[k] == y[k],
        decreases a@.len() - i,
    {
        assert(x[i as int] == a@[i as int]@ && y[i as int] == b@[i as int]@);
        if !same(&a[i], &b[i]) {
            return false;
        }
        i += 1;
    }
    assert(x =~= y);
    true
}

/// What an optional request asks.
pub open spec fn asked_of(request: Option<FastNoopRequest>) -> Option<Asked> {
    match request {
        Some(r) => Some(r@),
        None => None,
    }
}

impl DaemonState {
    /// What a step left behind is what was meant.
    pub open spec fn is_at(self, at: Progressed, phase: Phase, step: Step) -> bool {
        self@ == at.knowledge && phase == at.phase && step == at.step
    }

    fn to_full(&mut self) -> (r: (Phase, Step))
        requires
            old(self).wf(),
        ensures
            final(self).wf(),
            final(self).is_at(old(self)@.to_full(), r.0, r.1),
    {
        match self.begin_barrier() {
            Some(id) => (Phase::FullBarrier { id }, Step::WriteBarrier { id }),
            None => self.to_validate(false),
        }
    }

    fn to_validate(&mut self, ready: bool) -> (r: (Phase, Step))
        requires
            old(self).wf(),
        ensures
            final(self).wf(),
            final(self).is_at(old(self)@.to_validate(ready), r.0, r.1),
    {
        let baseline: u64 = self.event_epoch;
        if ready && self.watcher_trusted {
            self.clear();
        }
        (Phase::Validating { ready, baseline }, Step::Validate)
    }

    fn settle(
        &mut self,
        asked: &FastNoopRequest,
        hit: Hit,
        ticket: Option<u64>,
        ready: bool,
        stable: bool,
        baseline: u64,
    ) -> (r: (Phase, Step))
        requires
            old(self).wf(),
            asked.key_env.wf(),
        ensures
            final(self).wf(),
            final(self).is_at(
                old(self)@.settled(asked@, hit, ticket, ready, stable, baseline),
                r.0,
                r.1,
            ),
    {
        let unchanged = stable && self.watcher_trusted && self.event_epoch == baseline;
        if unchanged {
            self.clear();
            self.cached_noop = match ticket {
                Some(ticket) => Some(
                    CachedNoop {
                        profile: copy(&asked.profile),
                        platform: copy(&asked.platform),
                        key_env: copy_pairs(&asked.key_env),
                        ticket,
                    },
                ),
                None => None,
            };
        } else {
            self.cached_noop = None;
        }
        if !ready || unchanged {
            (Phase::Done, Step::AnswerUpToDate { hit })
        } else {
            (Phase::Child, Step::RunChild)
        }
    }

    fn rebuilt(&mut self) -> (r: (Phase, Step))
        requires
            old(self).wf(),
        ensures
            final(self).wf(),
            final(self).is_at(old(self)@.rebuilt(), r.0, r.1),
    {
        self.clear();
        self.cached_noop = None;
        (Phase::Done, Step::AnswerChild)
    }

    /// Begins to run a request: what to do first.
    pub fn start(&mut self, fast_noop: &Option<FastNoopRequest>) -> (r: (Phase, Step))
        requires
            old(self).wf(),
            match *fast_noop {
                Some(asked) => asked.key_env.wf(),
                None => true,
            },
        ensures
            final(self).wf(),
            final(self).is_at(old(self)@.started(asked_of(*fast_noop)), r.0, r.1),
    {
        let asked = match fast_noop {
            Some(asked) => asked,
            None => {
                return (Phase::Child, Step::RunChild);
            },
        };
        if self.watcher_trusted && self.dirty.is_empty() {
            if let Some(cached) = &self.cached_noop {
                if same(&cached.profile, &asked.profile) && same(&cached.platform, &asked.platform)
                    && same_pairs(&cached.key_env, &asked.key_env) {
                    return (Phase::Proof, Step::CheckProof { ticket: cached.ticket });
                }
            }
        }
        self.to_full()
    }

    /// Takes in what came of a step of a request: what to do next.
    pub fn advance(&mut self, phase: Phase, asked: &FastNoopRequest, outcome: Outcome) -> (r: (
        Phase,
        Step,
    ))
        requires
            old(self).wf(),
            asked.key_env.wf(),
            old(self)@.advanced(phase, asked@, outcome) is Some,
        ensures
            final(self).wf(),
            final(self).is_at(
                old(self)@.advanced(phase, asked@, outcome)->0,
                r.0,
                r.1,
            ),
    {
        match (phase, outcome) {
            (Phase::Proof, Outcome::ProofError) => (Phase::Done, Step::AnswerError),
            (Phase::Proof, Outcome::ProofMiss) => {
                self.cached_noop = None;
                self.to_full()
            },
            (Phase::Proof, Outcome::ProofHit { hit }) => match self.begin_barrier() {
                Some(id) => (Phase::ProofBarrier { id, hit }, Step::WriteBarrier { id }),
                None => self.to_full(),
            },
            (Phase::ProofBarrier { id, hit }, Outcome::BarrierUnwritable) => {
                self.distrust();
                self.to_full()
            },
            (Phase::ProofBarrier { id, hit }, Outcome::BarrierWaited) => {
                if self.end_barrier(id) && self.dirty.is_empty() && self.cached_noop.is_some() {
                    (Phase::Done, Step::AnswerUpToDate { hit })
                } else {
                    self.to_full()
                }
            },
            (Phase::FullBarrier { id }, Outcome::BarrierUnwritable) => {
                self.distrust();
                self.to_validate(false)
            },
            (Phase::FullBarrier { id }, Outcome::BarrierWaited) => {
                let ready = self.end_barrier(id);
                self.to_validate(ready)
            },
            (Phase::Validating { ready, baseline }, Outcome::ValidateError) => (
                Phase::Done,
                Step::AnswerError,
            ),
            (Phase::Validating { ready, baseline }, Outcome::ValidateMiss) => (
                Phase::Child,
                Step::RunChild,
            ),
            (Phase::Validating { ready, baseline }, Outcome::Validated { hit, ticket }) => {
                if ready {
                    if let Some(id) = self.begin_barrier() {
                        return (
                            Phase::SettleBarrier { id, hit, ticket, baseline },
                            Step::WriteBarrier { id },
                        );
                    }
                }
                self.settle(asked, hit, ticket, ready, false, baseline)
            },
            (Phase::SettleBarrier { id, hit, ticket, baseline }, Outcome::BarrierUnwritable) => {
                self.distrust();
                self.settle(asked, hit, ticket, true, false, baseline)
            },
            (Phase::SettleBarrier { id, hit, ticket, baseline }, Outcome::BarrierWaited) => {
                let stable = self.end_barrier(id);
                self.settle(asked, hit, ticket, true, stable, baseline)
            },
            (Phase::Child, Outcome::SpawnError) => (Phase::Done, Step::AnswerSpawnError),
            (Phase::Child, Outcome::ChildExited { success }) => {
                if !success {
                    return (Phase::Done, Step::AnswerChild);
                }
                match self.begin_barrier() {
                    Some(id) => (Phase::ChildBarrier { id }, Step::WriteBarrier { id }),
                    None => self.rebuilt(),
                }
            },
            (Phase::ChildBarrier { id }, Outcome::BarrierUnwritable) => {
                self.distrust();
                self.rebuilt()
            },
            (Phase::ChildBarrier { id }, Outcome::BarrierWaited) => {
                let _ = self.end_barrier(id);
                self.rebuilt()
            },
            _ => {
                assert(false);
                (Phase::Done, Step::AnswerError)
            },
        }
    }
}

// ---------------------------------------------------------------------------
// Laws
// ---------------------------------------------------------------------------

/// A change of a file ends what was cached, so that no later request is
/// answered from it.
pub proof fn change_ends_cache(k: Knowledge, relative: Seq<char>)
    requires
        barrier_number(relative) is None,
        !under(relative, ".git"@),
        paths_ascend(k.dirty),
    ensures
        k.touched(relative).cached is None,
        has_path(k.touched(relative).dirty, relative),
        k.touched(relative).epoch != k.epoch,
{
    with_path_means(k.dirty, relative);
}

/// A watcher that lost events is never trusted again: no event and no barrier
/// brings the trust back.
pub proof fn distrust_stays(k: Knowledge, relative: Seq<char>, id: u64)
    requires
        !k.trusted,
    ensures
        !k.touched(relative).trusted,
        !k.failed().trusted,
        !k.barrier_started().trusted,
        !k.barrier_ended(id).trusted,
        !k.passed(id),
{
}

/// An answer without a build that rests on what is cached needs a trusted
/// watcher, a barrier that passed, and that nothing changed.
pub proof fn cached_answer_is_backed(k: Knowledge, id: u64, hit: Hit, asked: Asked)
    requires
        k.advanced(Phase::ProofBarrier { id, hit }, asked, Outcome::BarrierWaited) == Some(
            k.done(Step::AnswerUpToDate { hit }),
        ),
    ensures
        k.trusted && k.seen >= id && k.dirty.len() == 0 && k.cached is Some,
{
}

/// What is cached after a validation was validated while a trusted watcher
/// saw no change.
pub proof fn caching_needs_quiet(
    k: Knowledge,
    asked: Asked,
    hit: Hit,
    ticket: Option<u64>,
    ready: bool,
    stable: bool,
    baseline: u64,
)
    requires
        k.settled(asked, hit, ticket, ready, stable, baseline).knowledge.cached is Some,
    ensures
        stable && k.trusted && k.epoch == baseline && ticket is Some,
{
}

// ---------------------------------------------------------------------------
// Frames and addresses
// ---------------------------------------------------------------------------

/// A number in four bytes, the highest first.
pub open spec fn big_endian(n: int) -> Seq<u8> {
    seq![
        (n / 0x100_0000 % 0x100) as u8,
        (n / 0x1_0000 % 0x100) as u8,
        (n / 0x100 % 0x100) as u8,
        (n % 0x100) as u8,
    ]
}

/// A frame: the length of the payload in four bytes, then the payload.
pub fn write_frame(payload: &Vec<u8>) -> (r: Vec<u8>)
    ensures
        r@ == big_endian(payload@.len() as int) + payload@,
{
    let n: usize = payload.len();
    let mut out: Vec<u8> = Vec::new();
    out.push((n / 0x100_0000 % 0x100) as u8);
    out.push((n / 0x1_0000 % 0x100) as u8);
    out.push((n / 0x100 % 0x100) as u8);
    out.push((n % 0x100) as u8);
    assert(out@ =~= big_endian(n as int));
    let mut i: usize = 0;
    assert(big_endian(n as int) + payload@.take(0) =~= big_endian(n as int));
    while i < payload.len()
        invariant
            i <= payload@.len(),
            n == payload@.len(),
            out@ == big_endian(n as int) + payload@.take(i as int),
        decreases payload@.len() - i,
    {
        out.push(payload[i]);
        assert(payload@.take(i + 1) =~= payload@.take(i as int).push(payload@[i as int]));
        assert(out@ =~= big_endian(n as int) + payload@.take(i + 1));
        i += 1;
    }
    assert(payload@.take(i as int) =~= payload@);
    out
}

/// The number in four bytes, the highest first.
pub open spec fn from_big_endian(b: Seq<u8>) -> int {
    b[0] * 0x100_0000 + b[1] * 0x1_0000 + b[2] * 0x100 + b[3]
}

/// The length of the payload behind a frame's first four bytes; none where it
/// is over the limit.
pub fn read_frame(header: [u8; 4]) -> (r: Option<usize>)
    ensures
        match r {
            Some(n) => n == from_big_endian(header@) && n <= FRAME_LIMIT,
            None => from_big_endian(header@) > FRAME_LIMIT,
        },
{
    let n: u32 = header[0] as u32 * 0x100_0000 + header[1] as u32 * 0x1_0000 + header[2] as u32
        * 0x100 + header[3] as u32;
    if n as usize <= FRAME_LIMIT {
        Some(n as usize)
    } else {
        None
    }
}

/// The length of a payload within the limit is read back from its frame.
pub proof fn frame_read_back(payload: Seq<u8>)
    requires
        payload.len() <= FRAME_LIMIT,
    ensures
        from_big_endian(big_endian(payload.len() as int)) == payload.len(),
        (big_endian(payload.len() as int) + payload).skip(4) == payload,
{
    let n = payload.len() as int;
    assert(n < 0x100_0000 * 0x100);
    let a = n / 0x100_0000;
    let b = n / 0x1_0000;
    let c = n / 0x100;
    assert(b / 0x100 == a && c / 0x100 == b) by (nonlinear_arith)
        requires
            n >= 0,
            a == n / 0x100_0000,
            b == n / 0x1_0000,
            c == n / 0x100,
    ;
    assert(a % 0x100 == a);
    assert((big_endian(n) + payload).skip(4) =~= payload);
}

/// The name of a workspace's socket.
pub open spec fn socket_text(root: Seq<u8>) -> Seq<char> {
    "frostd-"@ + hex_text(blake3_of(root)).take(16) + ".sock"@
}

/// The path of a workspace's socket in `runtime_dir`: a short, stable name
/// that the path of the workspace decides, so that deep workspaces do not run
/// into the limit on the length of socket addresses.
pub fn socket_path(runtime_dir: &str, root: &str) -> (r: String)
    ensures
        r@ == joined_path(runtime_dir@, socket_text(root.spec_bytes())),
{
    let key = blake3_hex(root.as_bytes());
    let a = chars_of(&key);
    let mut name = copy("frostd-");
    name.append(&text_between(&a, 0, 16));
    name.append(".sock");
    join_path(runtime_dir, &name)
}

// ---------------------------------------------------------------------------
// What answers rest on
// ---------------------------------------------------------------------------

/// That nothing is to be done is answered in three cases alone. What was cached
/// was found to hold, the watcher is trusted, its barrier passed behind the look,
/// and nothing changed. Or the workspace was validated without a watcher that
/// could be trusted before. Or it was validated between two barriers that a
/// trusted watcher passed, and no event came between.
pub proof fn up_to_date_is_backed(
    k: Knowledge,
    phase: Phase,
    asked: Asked,
    outcome: Outcome,
    hit: Hit,
)
    requires
        k.advanced(phase, asked, outcome) is Some,
        k.advanced(phase, asked, outcome)->0.step == (Step::AnswerUpToDate { hit }),
    ensures
        ({
            ||| (phase matches Phase::ProofBarrier { id, hit: found } && outcome
                == Outcome::BarrierWaited && found == hit && k.trusted && k.seen >= id
                && k.dirty.len() == 0 && k.cached is Some)
            ||| (phase matches Phase::Validating { ready, baseline } && outcome matches
                Outcome::Validated { hit: found, ticket } && found == hit && !ready)
            ||| (phase matches Phase::SettleBarrier { id, hit: found, ticket, baseline } && outcome
                == Outcome::BarrierWaited && found == hit && k.trusted && k.seen >= id && k.epoch
                == baseline)
        }),
{
}

/// What is cached is looked at exactly for the same profile, platform and
/// environment, where the watcher is trusted and nothing changed. A request for
/// anything else than a plain build is run.
pub proof fn cache_is_for_the_same_question(k: Knowledge, asked: Asked, ticket: u64)
    ensures
        k.started(Some(asked)).step == (Step::CheckProof { ticket }) <==> k.trusted && k.dirty.len()
            == 0 && k.cached is Some && k.cached->0.profile == asked.profile
            && k.cached->0.platform == asked.platform && k.cached->0.key_env == asked.key_env
            && k.cached->0.ticket == ticket,
        k.started(None).step == Step::RunChild,
        k.started(None).knowledge == k,
{
}

/// A build that failed leaves what is known as it is. One that succeeded leaves
/// nothing dirty and nothing cached, and its answer waits for a barrier where the
/// watcher is trusted.
pub proof fn build_clears_what_changed(k: Knowledge, asked: Asked, id: u64)
    ensures
        ({
            let failed = k.advanced(Phase::Child, asked, Outcome::ChildExited { success: false });
            &&& failed is Some
            &&& failed->0.step == Step::AnswerChild
            &&& failed->0.knowledge == k
        }),
        ({
            let done = k.advanced(Phase::Child, asked, Outcome::ChildExited { success: true });
            &&& done is Some
            &&& k.trusted ==> done->0.step is WriteBarrier && done->0.knowledge.dirty == k.dirty
            &&& !k.trusted ==> done->0.step == Step::AnswerChild && done->0.knowledge.dirty.len()
                == 0 && done->0.knowledge.cached is None
        }),
        ({
            let end = k.advanced(Phase::ChildBarrier { id }, asked, Outcome::BarrierWaited);
            &&& end is Some
            &&& end->0.step == Step::AnswerChild
            &&& end->0.knowledge.dirty.len() == 0
            &&& end->0.knowledge.cached is None
            &&& end->0.knowledge.trusted == (k.trusted && k.seen >= id)
        }),
        k.advanced(Phase::Child, asked, Outcome::SpawnError) is Some,
        k.advanced(Phase::Child, asked, Outcome::SpawnError)->0.step == Step::AnswerSpawnError,
{
}

/// Where a look at the workspace finds something to do, the build is run; where it
/// fails, that is answered.
pub proof fn miss_is_built(k: Knowledge, asked: Asked, ready: bool, baseline: u64)
    ensures
        k.advanced(Phase::Validating { ready, baseline }, asked, Outcome::ValidateMiss) is Some,
        k.advanced(
            Phase::Validating { ready, baseline },
            asked,
            Outcome::ValidateMiss,
        )->0.step == Step::RunChild,
        k.advanced(
            Phase::Validating { ready, baseline },
            asked,
            Outcome::ValidateError,
        )->0.step == Step::AnswerError,
        k.advanced(Phase::Proof, asked, Outcome::ProofError)->0.step == Step::AnswerError,
        k.advanced(Phase::Proof, asked, Outcome::ProofMiss)->0.knowledge.cached is None,
        !(k.advanced(Phase::Proof, asked, Outcome::ProofMiss)->0.step is AnswerUpToDate),
{
}

/// A change of a barrier's file marks the barrier as seen and changes nothing
/// else; a change among the files of version control changes nothing.
pub proof fn barriers_change_nothing_else(k: Knowledge, relative: Seq<char>)
    ensures
        barrier_number(relative) matches Some(id) ==> id > u64::MAX || ({
            let now = k.touched(relative);
            &&& now.seen >= id
            &&& now.seen >= k.seen
            &&& now.seen == id || now.seen == k.seen
            &&& now.dirty == k.dirty && now.cached == k.cached && now.epoch == k.epoch
                && now.trusted == k.trusted
        }),
        barrier_number(relative) is None && under(relative, ".git"@) ==> k.touched(relative) == k,
{
}

/// A request in another version of the protocol is refused. Status and shutdown
/// are answered, only the latter ends the daemon, and a build is run.
pub proof fn requests_are_handled(state: DaemonState, request: Request, r: Handled)
    requires
        state.wf(),
        call_ensures(handle, (&state, &request), r),
    ensures
        ({
            let version = match request {
                Request::Status { version } => version,
                Request::Run { version, program, args, fast_noop } => version,
                Request::Shutdown { version } => version,
            };
            &&& r is Run <==> request is Run && version == PROTOCOL_VERSION
            &&& r matches Handled::Reply { response, shutdown } ==> {
                &&& shutdown <==> request is Shutdown && version == PROTOCOL_VERSION
                &&& response.code == 0 <==> version == PROTOCOL_VERSION
                &&& version != PROTOCOL_VERSION ==> response.code == 2 && response.stderr@
                    == "protocol version mismatch"@
                &&& response.version == PROTOCOL_VERSION
            }
        }),
{
}

/// The answer to a build that was run is what the build gave: its exit code, or
/// one where it was ended from outside, and all that it printed.
pub proof fn answers_are_passed_on(
    version: u32,
    code: Option<i32>,
    stdout: String,
    stderr: String,
    r: Response,
)
    requires
        call_ensures(child_response, (version, code, stdout, stderr), r),
    ensures
        code matches Some(c) ==> r.code == c,
        code is None ==> r.code == 1,
        r.stdout@ == stdout@,
        r.stderr@ == stderr@,
        r.version == version,
{
}

/// Of a frame, the first four bytes tell how long the rest is, where it is within
/// the limit; a longer one is refused.
pub proof fn frames_tell_their_length(payload: Vec<u8>, frame: Vec<u8>, header: [u8; 4], r: Option<
    usize,
>)
    requires
        call_ensures(write_frame, (&payload,), frame),
        call_ensures(read_frame, (header,), r),
        header@ == frame@.take(4),
        payload@.len() < 0x1_0000_0000,
    ensures
        frame@.len() == payload@.len() + 4,
        frame@.skip(4) == payload@,
        r == (if payload@.len() <= FRAME_LIMIT {
            Some(payload@.len() as usize)
        } else {
            None
        }),
{
    let n = payload@.len() as int;
    let a = n / 0x100_0000;
    let b = n / 0x1_0000;
    let c = n / 0x100;
    assert(b / 0x100 == a && c / 0x100 == b) by (nonlinear_arith)
        requires
            n >= 0,
            a == n / 0x100_0000,
            b == n / 0x1_0000,
            c == n / 0x100,
    ;
    assert(a % 0x100 == a);
    assert(frame@.skip(4) =~= payload@);
    assert(header@ =~= big_endian(n));
    assert(from_big_endian(header@) == n);
}

} // verus!
