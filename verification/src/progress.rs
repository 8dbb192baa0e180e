//! What a build shows while it runs: the state behind the terminal screen, and
//! the lines of the plain log.

use vstd::prelude::*;
use vstd::string::*;

use crate::sorted_map::SortedMap;
use crate::text::{
    chars_of, copy, decimal, extend, group_texts, join, joined, lines, lines_of, number, pad_left,
    pad_right, padded_left, padded_right, same, text_between, texts, trim_end, trimmed_end, upper,
    uppercase,
};

verus! {

/// How an action ended.
#[derive(Debug, Clone, Copy, PartialEq, Eq, Structural)]
pub enum ProgressState {
    CacheHit,
    Executed,
    Failed,
    Skipped,
    WouldRun,
    MayRun,
}

impl ProgressState {
    /// The state in words.
    pub open spec fn text(self) -> Seq<char> {
        match self {
            ProgressState::CacheHit => "cache hit"@,
            ProgressState::Executed => "executed"@,
            ProgressState::Failed => "failed"@,
            ProgressState::Skipped => "skipped"@,
            ProgressState::WouldRun => "would run"@,
            ProgressState::MayRun => "may run"@,
        }
    }

    /// The state in words.
    pub fn as_str(self) -> (r: &'static str)
        ensures
            r@ == self.text(),
    {
        match self {
            ProgressState::CacheHit => "cache hit",
            ProgressState::Executed => "executed",
            ProgressState::Failed => "failed",
            ProgressState::Skipped => "skipped",
            ProgressState::WouldRun => "would run",
            ProgressState::MayRun => "may run",
        }
    }
}

/// What happens in a build.
#[derive(Debug)]
pub enum ProgressEvent {
    BuildStarted { total: usize, jobs: usize, critical_path_ms: u64, critical_path: Vec<String> },
    AllCached { total: usize },
    ActionStarted { slot: usize, id: String, desc: String, command: String, critical: bool },
    ActionRunning { id: String },
    ActionOutput { id: String, output: String },
    ActionFinished {
        slot: usize,
        completed: usize,
        total: usize,
        id: String,
        desc: String,
        state: ProgressState,
        duration_ms: u64,
        detail: String,
        critical: bool,
    },
    BuildFinished { success: bool, elapsed_ms: u64 },
}

/// A worker and what it does; `started` is when, in milliseconds of the
/// caller's clock.
#[derive(Debug)]
pub struct Slot {
    pub id: String,
    pub desc: String,
    pub status: String,
    pub started: Option<u64>,
    pub duration_ms: u64,
    pub critical: bool,
}

/// The state behind the screen.
#[derive(Debug)]
pub struct TuiState {
    pub started: Option<u64>,
    pub total: usize,
    pub completed: usize,
    pub jobs: usize,
    pub critical_path_ms: u64,
    pub critical_path: Vec<String>,
    pub slots: Vec<Slot>,
    pub cache_hits: usize,
    pub cache_misses: usize,
    pub failures: usize,
    pub last_failure: Option<String>,
    pub logs: Vec<String>,
    pub scroll_from_bottom: usize,
    pub finished: Option<(bool, u64)>,
}

/// A worker and what it does.
pub struct SlotView {
    pub id: Seq<char>,
    pub desc: Seq<char>,
    pub status: Seq<char>,
    pub started: Option<u64>,
    pub duration_ms: u64,
    pub critical: bool,
}

/// The lines of the log, and how far up from its end the screen shows it.
pub struct Log {
    pub lines: Seq<Seq<char>>,
    pub scroll: int,
}

/// The state behind the screen.
pub struct Screen {
    pub started: Option<u64>,
    pub total: int,
    pub completed: int,
    pub jobs: int,
    pub critical_path_ms: int,
    pub critical_path: Seq<Seq<char>>,
    pub slots: Seq<SlotView>,
    pub cache_hits: int,
    pub cache_misses: int,
    pub failures: int,
    pub last_failure: Option<Seq<char>>,
    pub log: Log,
    pub finished: Option<(bool, u64)>,
}

impl View for Slot {
    type V = SlotView;

    open spec fn view(&self) -> SlotView {
        SlotView {
            id: self.id@,
            desc: self.desc@,
            status: self.status@,
            started: self.started,
            duration_ms: self.duration_ms,
            critical: self.critical,
        }
    }
}

/// Workers and what they do.
pub open spec fn slot_views(slots: Seq<Slot>) -> Seq<SlotView> {
    Seq::new(slots.len(), |i: int| slots[i]@)
}

impl View for TuiState {
    type V = Screen;

    open spec fn view(&self) -> Screen {
        Screen {
            started: self.started,
            total: self.total as int,
            completed: self.completed as int,
            jobs: self.jobs as int,
            critical_path_ms: self.critical_path_ms as int,
            critical_path: texts(self.critical_path@),
            slots: slot_views(self.slots@),
            cache_hits: self.cache_hits as int,
            cache_misses: self.cache_misses as int,
            failures: self.failures as int,
            last_failure: match self.last_failure {
                Some(desc) => Some(desc@),
                None => None,
            },
            log: Log { lines: texts(self.logs@), scroll: self.scroll_from_bottom as int },
            finished: self.finished,
        }
    }
}

/// A log with more lines than this is shortened.
pub const LOG_LIMIT: usize = 12_000;

/// How many lines of a log that is shortened stay.
pub const LOG_KEPT: usize = 10_000;

/// The larger of a number and zero.
pub open spec fn not_below_zero(n: int) -> int {
    if n < 0 {
        0
    } else {
        n
    }
}

/// The smaller of a number and a limit.
pub open spec fn at_most(n: int, most: int) -> int {
    if n > most {
        most
    } else {
        n
    }
}

impl Log {
    /// The log with one more line. A log over the limit loses its oldest
    /// lines; the screen stays where it is from the end, unless too few lines
    /// are left for that.
    pub open spec fn with(self, line: Seq<char>) -> Log {
        let all = self.lines.push(line);
        if all.len() > LOG_LIMIT {
            let removed = all.len() - LOG_KEPT;
            Log { lines: all.skip(removed), scroll: at_most(self.scroll, LOG_KEPT - 1) }
        } else {
            Log { lines: all, scroll: self.scroll }
        }
    }

    /// The log with the first `n` of `more` behind it, each with `head` before
    /// it.
    pub open spec fn with_all(self, head: Seq<char>, more: Seq<Seq<char>>, n: nat) -> Log
        decreases n,
    {
        if n == 0 {
            self
        } else {
            self.with_all(head, more, (n - 1) as nat).with(head + more[n - 1])
        }
    }

    /// The log with the lines of a text behind it, each with `head` before it.
    pub open spec fn with_text(self, head: Seq<char>, text: Seq<char>) -> Log {
        let more = lines_of(trimmed_end(text));
        self.with_all(head, more, more.len())
    }
}

/// A worker that never did anything.
pub open spec fn idle() -> SlotView {
    SlotView {
        id: Seq::empty(),
        desc: Seq::empty(),
        status: Seq::empty(),
        started: None,
        duration_ms: 0,
        critical: false,
    }
}

/// The first worker that has `id`; their number where none has.
pub open spec fn slot_of(slots: Seq<SlotView>, id: Seq<char>) -> int
    decreases slots.len(),
{
    if slots.len() == 0 || slots[0].id == id {
        0
    } else {
        1 + slot_of(slots.skip(1), id)
    }
}

impl Screen {
    /// The screen after an event at the time `now`.
    pub open spec fn after(self, event: ProgressEvent, now: u64) -> Screen {
        match event {
            ProgressEvent::BuildStarted { total, jobs, critical_path_ms, critical_path } => Screen {
                started: Some(now),
                total: total as int,
                jobs: jobs as int,
                critical_path_ms: critical_path_ms as int,
                critical_path: texts(critical_path@),
                slots: Seq::new(
                    jobs as nat,
                    |i: int|
                        if i < self.slots.len() {
                            self.slots[i]
                        } else {
                            idle()
                        },
                ),
                ..self
            },
            ProgressEvent::AllCached { total } => Screen {
                total: total as int,
                completed: total as int,
                cache_hits: total as int,
                slots: Seq::new(
                    self.slots.len(),
                    |i: int|
                        SlotView { status: "cache hit"@, started: None, ..self.slots[i] },
                ),
                log: self.log.with("CACHE HIT: all "@ + decimal(total as nat) + " actions"@),
                ..self
            },
            ProgressEvent::ActionStarted { slot, id, desc, command, critical } => Screen {
                slots: if slot < self.slots.len() {
                    self.slots.update(
                        slot as int,
                        SlotView {
                            id: id@,
                            desc: desc@,
                            status: "checking cache"@,
                            started: Some(now),
                            duration_ms: 0,
                            critical,
                        },
                    )
                } else {
                    self.slots
                },
                log: self.log.with("START "@ + id@ + ": "@ + command@),
                ..self
            },
            ProgressEvent::ActionRunning { id } => Screen {
                slots: if slot_of(self.slots, id@) < self.slots.len() {
                    self.slots.update(
                        slot_of(self.slots, id@),
                        SlotView {
                            status: "running/miss"@,
                            ..self.slots[slot_of(self.slots, id@)]
                        },
                    )
                } else {
                    self.slots
                },
                cache_misses: self.cache_misses + 1,
                ..self
            },
            ProgressEvent::ActionOutput { id, output } => Screen {
                log: self.log.with_text(id@ + ": "@, output@),
                ..self
            },
            ProgressEvent::ActionFinished {
                slot,
                completed,
                total,
                id,
                desc,
                state,
                duration_ms,
                detail,
                critical,
            } => {
                let ended = self.log.with(
                    upper(state.text()) + " "@ + id@ + " ("@ + decimal(duration_ms as nat)
                        + " ms): "@ + desc@,
                );
                Screen {
                    completed: completed as int,
                    cache_hits: self.cache_hits + if state == ProgressState::CacheHit {
                        1int
                    } else {
                        0
                    },
                    failures: self.failures + if state == ProgressState::Failed {
                        1int
                    } else {
                        0
                    },
                    last_failure: if state == ProgressState::Failed {
                        Some(desc@)
                    } else {
                        self.last_failure
                    },
                    slots: if slot < self.slots.len() {
                        self.slots.update(
                            slot as int,
                            SlotView {
                                id: self.slots[slot as int].id,
                                desc: desc@,
                                status: state.text(),
                                started: None,
                                duration_ms,
                                critical,
                            },
                        )
                    } else {
                        self.slots
                    },
                    log: if state == ProgressState::Failed {
                        ended.with("FAILED: "@ + desc@).with_text("  "@, detail@)
                    } else {
                        ended
                    },
                    ..self
                }
            },
            ProgressEvent::BuildFinished { success, elapsed_ms } => Screen {
                finished: Some((success, elapsed_ms)),
                log: self.log.with(
                    "BUILD "@ + (if success {
                        "SUCCEEDED"@
                    } else {
                        "FAILED"@
                    }) + " ("@ + decimal(elapsed_ms as nat) + " ms)"@,
                ),
                ..self
            },
        }
    }
}

impl TuiState {
    /// The counters can still count.
    pub open spec fn countable(self) -> bool {
        self.cache_hits < usize::MAX && self.cache_misses < usize::MAX && self.failures
            < usize::MAX
    }

    /// The state before a build.
    pub fn new() -> (r: TuiState)
        ensures
            r@ == (Screen {
                started: None,
                total: 0,
                completed: 0,
                jobs: 0,
                critical_path_ms: 0,
                critical_path: Seq::empty(),
                slots: Seq::empty(),
                cache_hits: 0,
                cache_misses: 0,
                failures: 0,
                last_failure: None,
                log: Log { lines: Seq::empty(), scroll: 0 },
                finished: None,
            }),
    {
        let r = TuiState {
            started: None,
            total: 0,
            completed: 0,
            jobs: 0,
            critical_path_ms: 0,
            critical_path: Vec::new(),
            slots: Vec::new(),
            cache_hits: 0,
            cache_misses: 0,
            failures: 0,
            last_failure: None,
            logs: Vec::new(),
            scroll_from_bottom: 0,
            finished: None,
        };
        assert(r@.critical_path =~= Seq::empty());
        assert(r@.slots =~= Seq::empty());
        assert(r@.log.lines =~= Seq::empty());
        r
    }

    /// Adds a line to the log. A log over the limit loses its oldest lines
    /// without a change of what the screen shows of its end.
    pub fn push_log(&mut self, line: String)
        ensures
            final(self)@ == (Screen { log: old(self)@.log.with(line@), ..old(self)@ }),
    {
        broadcast use group_texts;
        let ghost was = self@;
        self.logs.push(line);
        let ghost all = texts(self.logs@);
        assert(all == was.log.lines.push(line@));
        if self.logs.len() > LOG_LIMIT {
            let removed: usize = self.logs.len() - LOG_KEPT;
            let kept = self.logs.split_off(removed);
            assert(texts(kept@) =~= all.skip(removed as int));
            self.logs = kept;
            if self.scroll_from_bottom > LOG_KEPT - 1 {
                self.scroll_from_bottom = LOG_KEPT - 1;
            }
        }
    }

    /// Adds the lines of a text to the log, each with `head` before it.
    fn push_text(&mut self, head: &str, text: &str)
        ensures
            final(self)@ == (Screen { log: old(self)@.log.with_text(head@, text@), ..old(self)@ }),
    {
        let ghost was = self@;
        let all = lines(&trim_end(text));
        let ghost more = texts(all@);
        let mut i: usize = 0;
        while i < all.len()
            invariant
                more == texts(all@),
                i <= all@.len(),
                self@ == (Screen { log: was.log.with_all(head@, more, i as nat), ..was }),
            decreases all@.len() - i,
        {
            assert(more[i as int] == all@[i as int]@);
            let mut line = copy(head);
            line.append(&all[i]);
            self.push_log(line);
            i += 1;
        }
    }

    /// Takes in an event at the time `now`, in milliseconds of the caller's
    /// clock.
    pub fn apply(&mut self, event: ProgressEvent, now: u64)
        requires
            old(self).countable(),
        ensures
            final(self)@ == old(self)@.after(event, now),
    {
        let ghost was = self@;
        match event {
            ProgressEvent::BuildStarted { total, jobs, critical_path_ms, critical_path } => {
                self.started = Some(now);
                self.total = total;
                self.jobs = jobs;
                self.critical_path_ms = critical_path_ms;
                self.critical_path = critical_path;
                self.resize(jobs);
            },
            ProgressEvent::AllCached { total } => {
                self.total = total;
                self.completed = total;
                self.cache_hits = total;
                self.all_hit();
                let ghost mid = self@;
                let mut line = copy("CACHE HIT: all ");
                line.append(&number(total as u128));
                line.append(" actions");
                self.push_log(line);
            },
            ProgressEvent::ActionStarted { slot, id, desc, command, critical } => {
                let mut line = copy("START ");
                line.append(&id);
                line.append(": ");
                line.append(&command);
                if slot < self.slots.len() {
                    let ghost before = self.slots@;
                    let ghost next = SlotView {
                        id: id@,
                        desc: desc@,
                        status: "checking cache"@,
                        started: Some(now),
                        duration_ms: 0,
                        critical,
                    };
                    self.slots.set(
                        slot,
                        Slot {
                            id,
                            desc,
                            status: copy("checking cache"),
                            started: Some(now),
                            duration_ms: 0,
                            critical,
                        },
                    );
                    assert(slot_views(self.slots@) =~= slot_views(before).update(
                        slot as int,
                        next,
                    ));
                }
                self.push_log(line);
            },
            ProgressEvent::ActionRunning { id } => {
                self.mark_running(&id);
                self.cache_misses = self.cache_misses + 1;
            },
            ProgressEvent::ActionOutput { id, output } => {
                let mut head = copy(&id);
                head.append(": ");
                self.push_text(&head, &output);
            },
            ProgressEvent::ActionFinished {
                slot,
                completed,
                total,
                id,
                desc,
                state,
                duration_ms,
                detail,
                critical,
            } => {
                self.completed = completed;
                match state {
                    ProgressState::CacheHit => {
                        self.cache_hits = self.cache_hits + 1;
                    },
                    ProgressState::Failed => {
                        self.failures = self.failures + 1;
                        self.last_failure = Some(copy(&desc));
                    },
                    _ => {},
                }
                let mut line = uppercase(state.as_str());
                line.append(" ");
                line.append(&id);
                line.append(" (");
                line.append(&number(duration_ms as u128));
                line.append(" ms): ");
                line.append(&desc);
                if slot < self.slots.len() {
                    let ghost before = self.slots@;
                    self.slots[slot].desc = copy(&desc);
                    self.slots[slot].status = copy(state.as_str());
                    self.slots[slot].started = None;
                    self.slots[slot].duration_ms = duration_ms;
                    self.slots[slot].critical = critical;
                    assert(slot_views(self.slots@) =~= slot_views(before).update(
                        slot as int,
                        SlotView {
                            id: before[slot as int].id@,
                            desc: desc@,
                            status: state.text(),
                            started: None,
                            duration_ms,
                            critical,
                        },
                    ));
                }
                self.push_log(line);
                if state == ProgressState::Failed {
                    let mut failed = copy("FAILED: ");
                    failed.append(&desc);
                    self.push_log(failed);
                    self.push_text("  ", &detail);
                }
            },
            ProgressEvent::BuildFinished { success, elapsed_ms } => {
                self.finished = Some((success, elapsed_ms));
                let mut line = copy("BUILD ");
                line.append(
                    if success {
                        "SUCCEEDED"
                    } else {
                        "FAILED"
                    },
                );
                line.append(" (");
                line.append(&number(elapsed_ms as u128));
                line.append(" ms)");
                self.push_log(line);
            },
        }
    }

    /// Makes as many workers as there are jobs.
    fn resize(&mut self, jobs: usize)
        ensures
            final(self)@ == (Screen {
                slots: Seq::new(
                    jobs as nat,
                    |i: int|
                        if i < old(self)@.slots.len() {
                            old(self)@.slots[i]
                        } else {
                            idle()
                        },
                ),
                ..old(self)@
            }),
    {
        let ghost was = self@;
        let ghost before = slot_views(self.slots@);
        if jobs < self.slots.len() {
            self.slots.truncate(jobs);
        }
        while self.slots.len() < jobs
            invariant
                was == old(self)@,
                before == was.slots,
                self@ == (Screen { slots: slot_views(self.slots@), ..was }),
                self.slots@.len() <= jobs,
                forall|i: int|
                    0 <= i < self.slots@.len() ==> (#[trigger] slot_views(self.slots@)[i]) == if i
                        < before.len() {
                        before[i]
                    } else {
                        idle()
                    },
                self.slots@.len() < jobs ==> self.slots@.len() >= before.len(),
            decreases jobs - self.slots@.len(),
        {
            let ghost so_far = slot_views(self.slots@);
            self.slots.push(
                Slot {
                    id: String::new(),
                    desc: String::new(),
                    status: String::new(),
                    started: None,
                    duration_ms: 0,
                    critical: false,
                },
            );
            assert(slot_views(self.slots@) =~= so_far.push(idle()));
        }
        assert(self@.slots =~= Seq::new(
            jobs as nat,
            |i: int|
                if i < was.slots.len() {
                    was.slots[i]
                } else {
                    idle()
                },
        ));
    }

    /// Every worker has a cache hit.
    fn all_hit(&mut self)
        ensures
            final(self)@ == (Screen {
                slots: Seq::new(
                    old(self)@.slots.len(),
                    |i: int|
                        SlotView {
                            status: "cache hit"@,
                            started: None,
                            ..old(self)@.slots[i]
                        },
                ),
                ..old(self)@
            }),
    {
        let ghost was = self@;
        let ghost n = self.slots@.len();
        let mut i: usize = 0;
        while i < self.slots.len()
            invariant
                was == old(self)@,
                n == was.slots.len(),
                self.slots@.len() == n,
                i <= n,
                self@ == (Screen { slots: slot_views(self.slots@), ..was }),
                forall|k: int|
                    0 <= k < n ==> (#[trigger] slot_views(self.slots@)[k]) == if k < i {
                        SlotView { status: "cache hit"@, started: None, ..was.slots[k] }
                    } else {
                        was.slots[k]
                    },
            decreases n - i,
        {
            let ghost before = slot_views(self.slots@);
            self.slots[i].status = copy("cache hit");
            self.slots[i].started = None;
            assert(slot_views(self.slots@) =~= before.update(
                i as int,
                SlotView { status: "cache hit"@, started: None, ..before[i as int] },
            ));
            i += 1;
        }
        assert(self@.slots =~= Seq::new(
            was.slots.len(),
            |i: int| SlotView { status: "cache hit"@, started: None, ..was.slots[i] },
        ));
    }

    /// The first worker that has `id` runs its action.
    fn mark_running(&mut self, id: &str)
        ensures
            final(self)@ == (Screen {
                slots: if slot_of(old(self)@.slots, id@) < old(self)@.slots.len() {
                    old(self)@.slots.update(
                        slot_of(old(self)@.slots, id@),
                        SlotView {
                            status: "running/miss"@,
                            ..old(self)@.slots[slot_of(old(self)@.slots, id@)]
                        },
                    )
                } else {
                    old(self)@.slots
                },
                ..old(self)@
            }),
    {
        let ghost was = self@;
        let mut i: usize = 0;
        assert(was.slots.skip(0) =~= was.slots);
        while i < self.slots.len() && !same(&self.slots[i].id, id)
            invariant
                *self == *old(self),
                was == self@,
                i <= self.slots@.len(),
                slot_of(was.slots, id@) == i + slot_of(was.slots.skip(i as int), id@),
            decreases self.slots@.len() - i,
        {
            assert(was.slots.skip(i as int)[0] == self.slots@[i as int]@);
            assert(was.slots.skip(i as int).skip(1) =~= was.slots.skip(i + 1));
            i += 1;
        }
        if i < self.slots.len() {
            assert(was.slots.skip(i as int)[0] == self.slots@[i as int]@);
            self.slots[i].status = copy("running/miss");
            assert(slot_views(self.slots@) =~= was.slots.update(
                i as int,
                SlotView { status: "running/miss"@, ..was.slots[i as int] },
            ));
        }
    }
}

// ---------------------------------------------------------------------------
// The log pane
// ---------------------------------------------------------------------------

/// The keys that move the log pane.
#[derive(Debug, Clone, Copy, PartialEq, Eq, Structural)]
pub enum Key {
    Up,
    Down,
    PageUp,
    PageDown,
    Home,
    End,
}

impl Log {
    /// The screen shows some part of the log.
    pub open spec fn in_view(self) -> bool {
        0 <= self.scroll && (self.scroll == 0 || self.scroll < self.lines.len())
    }

    /// How far up the pane can go.
    pub open spec fn top(self) -> int {
        not_below_zero(self.lines.len() - 1)
    }

    /// Where the pane stands after it was moved by `delta` lines: not above the
    /// first line, not below the end.
    pub open spec fn scrolled(self, delta: int) -> int {
        if delta > 0 {
            if self.scroll + delta <= self.top() {
                self.scroll + delta
            } else {
                self.top()
            }
        } else {
            not_below_zero(self.scroll + delta)
        }
    }
}

/// A new line never moves the pane out of the log.
pub proof fn log_stays_in_view(log: Log, line: Seq<char>)
    requires
        log.in_view(),
        log.lines.len() <= LOG_LIMIT,
    ensures
        log.with(line).in_view(),
        log.with(line).lines.len() <= LOG_LIMIT,
{
}

/// That a log loses its oldest lines is not seen in a pane of `rows` lines that
/// stands among those that are left.
pub proof fn shortening_is_unseen(screen: Screen, line: Seq<char>, rows: int)
    requires
        screen.log.scroll >= 0,
        rows >= 0,
        screen.log.scroll + rows <= LOG_KEPT,
        screen.log.scroll < LOG_KEPT,
    ensures
        (Screen { log: screen.log.with(line), ..screen }).pane(rows) == (Screen {
            log: Log { lines: screen.log.lines.push(line), scroll: screen.log.scroll },
            ..screen
        }).pane(rows),
{
    let all = screen.log.lines.push(line);
    if all.len() > LOG_LIMIT {
        let now = screen.log.with(line);
        let removed = all.len() - LOG_KEPT;
        let end = now.lines.len() - now.scroll;
        assert(now.lines.subrange(end - rows, end) =~= all.subrange(
            removed + end - rows,
            removed + end,
        ));
    }
}

/// Moving never takes the pane out of the log.
pub proof fn scroll_stays_in_view(log: Log, delta: int)
    requires
        log.in_view(),
    ensures
        (Log { scroll: log.scrolled(delta), ..log }).in_view(),
{
}

impl TuiState {
    /// Moves the log pane, up where `delta` is positive.
    pub fn scroll(&mut self, delta: isize)
        ensures
            final(self)@ == (Screen {
                log: Log { scroll: old(self)@.log.scrolled(delta as int), ..old(self)@.log },
                ..old(self)@
            }),
    {
        if delta > 0 {
            let top: usize = if self.logs.len() > 0 {
                self.logs.len() - 1
            } else {
                0
            };
            let step: usize = delta as usize;
            self.scroll_from_bottom = if self.scroll_from_bottom <= top && step <= top
                - self.scroll_from_bottom {
                self.scroll_from_bottom + step
            } else {
                top
            };
        } else {
            let to: i128 = self.scroll_from_bottom as i128 + delta as i128;
            self.scroll_from_bottom = if to > 0 {
                to as usize
            } else {
                0
            };
        }
    }

    /// Moves the log pane by a key.
    pub fn press(&mut self, key: Key)
        ensures
            final(self)@ == (Screen {
                log: Log {
                    scroll: match key {
                        Key::Up => old(self)@.log.scrolled(1),
                        Key::Down => old(self)@.log.scrolled(-1),
                        Key::PageUp => old(self)@.log.scrolled(10),
                        Key::PageDown => old(self)@.log.scrolled(-10),
                        Key::Home => old(self)@.log.top(),
                        Key::End => 0,
                    },
                    ..old(self)@.log
                },
                ..old(self)@
            }),
    {
        match key {
            Key::Up => self.scroll(1),
            Key::Down => self.scroll(-1),
            Key::PageUp => self.scroll(10),
            Key::PageDown => self.scroll(-10),
            Key::Home => {
                self.scroll_from_bottom = if self.logs.len() > 0 {
                    self.logs.len() - 1
                } else {
                    0
                };
            },
            Key::End => {
                self.scroll_from_bottom = 0;
            },
        }
    }
}

// ---------------------------------------------------------------------------
// The screen
// ---------------------------------------------------------------------------

/// `s` in at most `width` characters; a mark stands for what is left out.
pub open spec fn truncated(s: Seq<char>, width: int) -> Seq<char> {
    if s.len() <= width {
        s
    } else if width > 1 {
        s.take(width - 1).push('…')
    } else {
        s.take(width)
    }
}

/// `s` in at most `width` characters; a mark stands for what is left out.
pub fn truncate(s: &str, width: usize) -> (r: String)
    ensures
        r@ == truncated(s@, width as int),
{
    let a = chars_of(s);
    if a.len() <= width {
        return copy(s);
    }
    if width > 1 {
        let mut out = text_between(&a, 0, width - 1);
        out.push('…');
        out
    } else {
        text_between(&a, 0, width)
    }
}

/// The times on a screen, in words: of the build, its estimated critical path,
/// and each worker.
#[derive(Debug)]
pub struct Times {
    pub elapsed: String,
    pub critical: String,
    pub slots: Vec<String>,
}

/// The line of a worker.
pub open spec fn slot_line(i: int, slot: SlotView, time: Seq<char>) -> Seq<char> {
    let desc = if slot.desc.len() == 0 {
        "idle"@
    } else {
        slot.desc
    };
    let status = if slot.status.len() == 0 {
        "idle"@
    } else {
        slot.status
    };
    " "@ + (if slot.critical {
        "*"@
    } else {
        " "@
    }) + " "@ + padded_left(decimal((i + 1) as nat), 2) + " "@ + padded_right(status, 14) + " "@
        + padded_left(time, 8) + "  "@ + desc
}

impl Screen {
    /// The lines above the workers.
    pub open spec fn head(self, elapsed: Seq<char>, critical: Seq<char>) -> Seq<Seq<char>> {
        let done = decimal(self.completed as nat) + "/"@ + decimal(self.total as nat);
        seq![
            match self.last_failure {
                Some(failure) => "FAILED: "@ + failure + "  "@ + done + "  elapsed "@ + elapsed,
                None => "frost build  "@ + done + "  elapsed "@ + elapsed + "  critical estimate "@
                    + critical,
            },
            "cache  "@ + decimal(self.cache_hits as nat) + " hit / "@ + decimal(
                self.cache_misses as nat,
            ) + " miss    failures "@ + decimal(self.failures as nat) + "    jobs "@ + decimal(
                self.jobs as nat,
            ),
            "critical path: "@ + (if self.critical_path.len() == 0 {
                "(none)"@
            } else {
                joined(self.critical_path, " -> "@)
            }),
            "slots"@,
        ]
    }

    /// How many workers a screen of `height` lines shows: all, or as many as
    /// leave a line to count the rest and two for the log.
    pub open spec fn visible(self, height: int) -> int {
        let rows = height - 6;
        if self.slots.len() > rows {
            rows - 1
        } else {
            self.slots.len() as int
        }
    }

    /// The lines of the workers.
    pub open spec fn workers(self, times: Seq<Seq<char>>, height: int) -> Seq<Seq<char>> {
        let shown = Seq::new(
            self.visible(height) as nat,
            |i: int| slot_line(i, self.slots[i], times[i]),
        );
        if self.slots.len() > self.visible(height) {
            shown.push(
                "   … "@ + decimal((self.slots.len() - self.visible(height)) as nat)
                    + " more job slots"@,
            )
        } else {
            shown
        }
    }

    /// The part of the log that is shown in `rows` lines.
    pub open spec fn pane(self, rows: int) -> Seq<Seq<char>> {
        let n = self.log.lines.len();
        let end = not_below_zero(n - self.log.scroll);
        self.log.lines.subrange(not_below_zero(end - rows), end)
    }

    /// All lines of a screen of `height` lines.
    pub open spec fn lines(
        self,
        elapsed: Seq<char>,
        critical: Seq<char>,
        times: Seq<Seq<char>>,
        height: int,
    ) -> Seq<Seq<char>> {
        let above = (self.head(elapsed, critical) + self.workers(times, height)).push(
            "logs (Up/Down/PgUp/PgDn/Home/End to scroll)"@,
        );
        let left = height - above.len();
        above + self.pane(
            if left < 1 {
                1
            } else {
                left
            },
        )
    }
}

impl Screen {
    /// The screen: as many lines as fit, each cut to the width.
    pub open spec fn framed(
        self,
        elapsed: Seq<char>,
        critical: Seq<char>,
        times: Seq<Seq<char>>,
        width: int,
        height: int,
    ) -> Seq<Seq<char>> {
        let all = self.lines(elapsed, critical, times, height);
        Seq::new(
            if all.len() < height {
                all.len()
            } else {
                height as nat
            },
            |i: int| truncated(all[i], width),
        )
    }
}

/// `n`, or `least` where that is more.
pub open spec fn at_least(n: int, least: int) -> int {
    if n < least {
        least
    } else {
        n
    }
}

impl TuiState {
    /// How long the build took or has been running at the time `now`.
    pub fn elapsed_ms(&self, now: u64) -> (r: u64)
        ensures
            r == match self.finished {
                Some((_, elapsed)) => elapsed as int,
                None => match self.started {
                    Some(started) => not_below_zero(now - started),
                    None => 0,
                },
            },
    {
        match self.finished {
            Some((_, elapsed)) => elapsed,
            None => match self.started {
                Some(started) => since(started, now),
                None => 0,
            },
        }
    }

    /// How long worker `i` took or has been running at the time `now`.
    pub fn slot_elapsed_ms(&self, i: usize, now: u64) -> (r: u64)
        requires
            i < self.slots@.len(),
        ensures
            r == match self.slots@[i as int].started {
                Some(started) => not_below_zero(now - started),
                None => self.slots@[i as int].duration_ms as int,
            },
    {
        match self.slots[i].started {
            Some(started) => since(started, now),
            None => self.slots[i].duration_ms,
        }
    }

    /// The lines above the workers.
    fn head_lines(&self, times: &Times) -> (r: Vec<String>)
        ensures
            texts(r@) == self@.head(times.elapsed@, times.critical@),
    {
        let mut done = number(self.completed as u128);
        done.append("/");
        done.append(&number(self.total as u128));
        let first = match &self.last_failure {
            Some(failure) => {
                let mut line = copy("FAILED: ");
                line.append(failure);
                line.append("  ");
                line.append(&done);
                line.append("  elapsed ");
                line.append(&times.elapsed);
                line
            },
            None => {
                let mut line = copy("frost build  ");
                line.append(&done);
                line.append("  elapsed ");
                line.append(&times.elapsed);
                line.append("  critical estimate ");
                line.append(&times.critical);
                line
            },
        };
        let mut second = copy("cache  ");
        second.append(&number(self.cache_hits as u128));
        second.append(" hit / ");
        second.append(&number(self.cache_misses as u128));
        second.append(" miss    failures ");
        second.append(&number(self.failures as u128));
        second.append("    jobs ");
        second.append(&number(self.jobs as u128));
        let mut third = copy("critical path: ");
        if self.critical_path.len() == 0 {
            third.append("(none)");
        } else {
            third.append(&join(&self.critical_path, " -> "));
        }
        let mut out: Vec<String> = Vec::new();
        out.push(first);
        out.push(second);
        out.push(third);
        out.push(copy("slots"));
        assert(texts(out@) =~= self@.head(times.elapsed@, times.critical@));
        out
    }

    /// The line of worker `i`.
    fn worker_line(&self, i: usize, time: &str) -> (r: String)
        requires
            i < self.slots@.len(),
        ensures
            r@ == slot_line(i as int, self@.slots[i as int], time@),
    {
        let slot = &self.slots[i];
        let mut line = copy(" ");
        line.append(
            if slot.critical {
                "*"
            } else {
                " "
            },
        );
        line.append(" ");
        line.append(&pad_left(&number(i as u128 + 1), 2));
        line.append(" ");
        line.append(
            &pad_right(
                if slot.status.as_str().is_empty() {
                    "idle"
                } else {
                    slot.status.as_str()
                },
                14,
            ),
        );
        line.append(" ");
        line.append(&pad_left(time, 8));
        line.append("  ");
        line.append(
            if slot.desc.as_str().is_empty() {
                "idle"
            } else {
                slot.desc.as_str()
            },
        );
        line
    }

    /// The lines of the workers on a screen of `h` lines.
    fn worker_lines(&self, times: &Times, h: usize) -> (r: Vec<String>)
        requires
            times.slots@.len() == self.slots@.len(),
            h >= 8,
        ensures
            texts(r@) == self@.workers(texts(times.slots@), h as int),
    {
        broadcast use group_texts;
        let ghost screen = self@;
        let ghost clocks = texts(times.slots@);
        let rows: usize = h - 6;
        let visible: usize = if self.slots.len() > rows {
            rows - 1
        } else {
            self.slots.len()
        };
        let ghost shown = Seq::new(
            visible as nat,
            |i: int| slot_line(i, screen.slots[i], clocks[i]),
        );
        let mut all: Vec<String> = Vec::new();
        let mut i: usize = 0;
        assert(texts(all@) =~= shown.take(0));
        while i < visible
            invariant
                times.slots@.len() == self.slots@.len(),
                visible <= self.slots@.len(),
                screen == self@,
                clocks == texts(times.slots@),
                shown == Seq::new(
                    visible as nat,
                    |i: int| slot_line(i, screen.slots[i], clocks[i]),
                ),
                i <= visible,
                texts(all@) == shown.take(i as int),
            decreases visible - i,
        {
            assert(clocks[i as int] == times.slots@[i as int]@);
            let line = self.worker_line(i, &times.slots[i]);
            assert(line@ == shown[i as int]);
            all.push(line);
            assert(shown.take(i + 1) =~= shown.take(i as int).push(shown[i as int]));
            i += 1;
        }
        assert(shown.take(i as int) =~= shown);
        if self.slots.len() > visible {
            let mut line = copy("   … ");
            line.append(&number((self.slots.len() - visible) as u128));
            line.append(" more job slots");
            all.push(line);
        }
        all
    }

    /// The part of the log that is shown in `rows` lines.
    fn pane_lines(&self, rows: usize) -> (r: Vec<String>)
        ensures
            texts(r@) == self@.pane(rows as int),
    {
        broadcast use group_texts;
        let ghost screen = self@;
        let end: usize = if self.scroll_from_bottom < self.logs.len() {
            self.logs.len() - self.scroll_from_bottom
        } else {
            0
        };
        let start: usize = if end > rows {
            end - rows
        } else {
            0
        };
        let ghost pane = screen.pane(rows as int);
        let mut all: Vec<String> = Vec::new();
        let mut k: usize = start;
        assert(texts(all@) =~= pane.take(0));
        while k < end
            invariant
                start <= k <= end <= self.logs@.len(),
                screen == self@,
                pane == screen.log.lines.subrange(start as int, end as int),
                texts(all@) == pane.take(k - start),
            decreases end - k,
        {
            all.push(copy(&self.logs[k]));
            assert(pane[k - start] == self.logs@[k as int]@);
            assert(pane.take(k + 1 - start) =~= pane.take(k - start).push(pane[k - start]));
            k += 1;
        }
        assert(pane.take(k - start) =~= pane);
        all
    }

    /// The lines of a screen of the given size.
    pub fn frame(&self, width: u16, height: u16, times: &Times) -> (r: Vec<String>)
        requires
            times.slots@.len() == self.slots@.len(),
        ensures
            texts(r@) == self@.framed(
                times.elapsed@,
                times.critical@,
                texts(times.slots@),
                at_least(width as int, 20),
                at_least(height as int, 8),
            ),
    {
        broadcast use group_texts;
        let w: usize = if width < 20 {
            20
        } else {
            width as usize
        };
        let h: usize = if height < 8 {
            8
        } else {
            height as usize
        };
        let mut all = self.head_lines(times);
        extend(&mut all, &self.worker_lines(times, h));
        all.push(copy("logs (Up/Down/PgUp/PgDn/Home/End to scroll)"));
        let left: usize = if all.len() < h {
            h - all.len()
        } else {
            1
        };
        assert(all@.len() == texts(all@).len());
        extend(&mut all, &self.pane_lines(left));
        let ghost lines = texts(all@);
        let mut out: Vec<String> = Vec::new();
        let mut row: usize = 0;
        while row < all.len() && row < h
            invariant
                lines == texts(all@),
                row <= all@.len(),
                row <= h,
                texts(out@) =~= Seq::new(row as nat, |i: int| truncated(lines[i], w as int)),
            decreases all@.len() - row,
        {
            let ghost so_far = texts(out@);
            assert(lines[row as int] == all@[row as int]@);
            out.push(truncate(&all[row], w));
            assert(texts(out@) == so_far.push(truncated(lines[row as int], w as int)));
            row += 1;
        }
        out
    }
}

/// The time from `started` to `now`.
fn since(started: u64, now: u64) -> (r: u64)
    ensures
        r == not_below_zero(now - started),
{
    if now > started {
        now - started
    } else {
        0
    }
}

// ---------------------------------------------------------------------------
// The plain log
// ---------------------------------------------------------------------------

/// The commands and outputs of actions that have not ended, by their ids.
#[derive(Debug)]
pub struct PlainLog {
    pub commands: SortedMap<String>,
    pub outputs: SortedMap<String>,
}

/// A text without the white space at its end, as a list of none or one.
pub open spec fn shown_text(text: Seq<char>) -> Seq<Seq<char>> {
    if trimmed_end(text).len() == 0 {
        Seq::empty()
    } else {
        seq![trimmed_end(text)]
    }
}

impl PlainLog {
    pub open spec fn wf(self) -> bool {
        self.commands.wf() && self.outputs.wf()
    }

    /// What is printed for an event: an executed action with its command where
    /// commands are wanted and its output, a failed one with its details.
    pub open spec fn printed(self, event: ProgressEvent, verbose: bool) -> Seq<Seq<char>> {
        match event {
            ProgressEvent::ActionFinished {
                slot,
                completed,
                total,
                id,
                desc,
                state,
                duration_ms,
                detail,
                critical,
            } => match state {
                ProgressState::Executed => seq![
                    "["@ + decimal(completed as nat) + "/"@ + decimal(total as nat) + "] "@ + desc@,
                ] + (if verbose && self.commands.has(id@) {
                    seq!["  $ "@ + self.commands.at(id@)@]
                } else {
                    Seq::empty()
                }) + (if self.outputs.has(id@) {
                    shown_text(self.outputs.at(id@)@)
                } else {
                    Seq::empty()
                }),
                ProgressState::Failed => seq!["FAILED: "@ + desc@] + shown_text(detail@),
                _ => Seq::empty(),
            },
            _ => Seq::empty(),
        }
    }

    /// `now` is the log after an event: a started action has its command, one
    /// with output its output, and one that ended has neither.
    pub open spec fn follows(self, event: ProgressEvent, now: PlainLog) -> bool {
        match event {
            ProgressEvent::ActionStarted { slot, id, desc, command, critical } => {
                &&& stored(self.commands, id@, command@, now.commands)
                &&& now.outputs == self.outputs
            },
            ProgressEvent::ActionOutput { id, output } => {
                &&& stored(self.outputs, id@, output@, now.outputs)
                &&& now.commands == self.commands
            },
            ProgressEvent::ActionFinished {
                slot,
                completed,
                total,
                id,
                desc,
                state,
                duration_ms,
                detail,
                critical,
            } => dropped(self.commands, id@, now.commands) && dropped(
                self.outputs,
                id@,
                now.outputs,
            ),
            _ => now == self,
        }
    }

    /// A log of no actions.
    pub fn new() -> (r: PlainLog)
        ensures
            r.wf(),
            r.commands.keys@.len() == 0,
            r.outputs.keys@.len() == 0,
    {
        PlainLog { commands: SortedMap::new(), outputs: SortedMap::new() }
    }

    /// Takes in an event, and returns the texts to print for it.
    pub fn apply(&mut self, event: ProgressEvent, verbose: bool) -> (r: Vec<String>)
        requires
            old(self).wf(),
        ensures
            final(self).wf(),
            texts(r@) == old(self).printed(event, verbose),
            old(self).follows(event, *final(self)),
    {
        broadcast use group_texts;
        let mut out: Vec<String> = Vec::new();
        match event {
            ProgressEvent::ActionStarted { slot, id, desc, command, critical } => {
                let _ = self.commands.insert(id, command);
            },
            ProgressEvent::ActionOutput { id, output } => {
                let _ = self.outputs.insert(id, output);
            },
            ProgressEvent::ActionFinished {
                slot,
                completed,
                total,
                id,
                desc,
                state,
                duration_ms,
                detail,
                critical,
            } => {
                let ghost was = *self;
                let command = self.commands.remove(&id);
                let output = self.outputs.remove(&id);
                match state {
                    ProgressState::Executed => {
                        let mut line = copy("[");
                        line.append(&number(completed as u128));
                        line.append("/");
                        line.append(&number(total as u128));
                        line.append("] ");
                        line.append(&desc);
                        out.push(line);
                        assert(texts(out@) =~= seq![line@]);
                        let ghost first = texts(out@);
                        if verbose && command.is_some() {
                            if let Some(command) = command {
                                let mut line = copy("  $ ");
                                line.append(&command);
                                out.push(line);
                                assert(texts(out@) =~= first + seq![line@]);
                            }
                        } else {
                            assert(first + Seq::<Seq<char>>::empty() =~= first);
                        }
                        let ghost second = texts(out@);
                        if let Some(output) = output {
                            push_shown(&mut out, &output);
                        } else {
                            assert(second + Seq::<Seq<char>>::empty() =~= second);
                        }
                    },
                    ProgressState::Failed => {
                        let mut line = copy("FAILED: ");
                        line.append(&desc);
                        out.push(line);
                        assert(texts(out@) =~= seq![line@]);
                        push_shown(&mut out, &detail);
                    },
                    _ => {},
                }
            },
            _ => {},
        }
        out
    }
}

/// `now` is the map with `key` giving `value`.
pub open spec fn stored(
    was: SortedMap<String>,
    key: Seq<char>,
    value: Seq<char>,
    now: SortedMap<String>,
) -> bool {
    &&& forall|k: Seq<char>| #[trigger] now.has(k) <==> was.has(k) || k == key
    &&& forall|k: Seq<char>|
        now.has(k) ==> #[trigger] now.at(k)@ == if k == key {
            value
        } else {
            was.at(k)@
        }
}

/// `now` is the map without `key`.
pub open spec fn dropped(was: SortedMap<String>, key: Seq<char>, now: SortedMap<String>) -> bool {
    &&& forall|k: Seq<char>| #[trigger] now.has(k) <==> was.has(k) && k != key
    &&& forall|k: Seq<char>| now.has(k) ==> #[trigger] now.at(k) == was.at(k)
}

/// Adds a text without the white space at its end, unless nothing is left.
fn push_shown(out: &mut Vec<String>, text: &str)
    ensures
        texts(final(out)@) == texts(old(out)@) + shown_text(text@),
{
    broadcast use group_texts;
    let ghost was = texts(out@);
    let shown = trim_end(text);
    if !shown.as_str().is_empty() {
        out.push(shown);
        assert(texts(out@) =~= was + seq![shown@]);
    } else {
        assert(was + Seq::<Seq<char>>::empty() =~= was);
    }
}

/// What became of an action is counted: a hit among the hits, a failure among the
/// failures and as the last of them, and nothing else among these; the number of
/// actions that are done is the one that is told. Other workers stay as they are.
pub proof fn ends_are_counted(
    s: Screen,
    slot: usize,
    completed: usize,
    total: usize,
    id: String,
    desc: String,
    state: ProgressState,
    duration_ms: u64,
    detail: String,
    critical: bool,
    now: u64,
    k: int,
)
    ensures
        ({
            let event = ProgressEvent::ActionFinished {
                slot,
                completed,
                total,
                id,
                desc,
                state,
                duration_ms,
                detail,
                critical,
            };
            let after = s.after(event, now);
            &&& after.completed == completed
            &&& state == ProgressState::CacheHit ==> after.cache_hits == s.cache_hits + 1
            &&& state != ProgressState::CacheHit ==> after.cache_hits == s.cache_hits
            &&& state == ProgressState::Failed ==> after.failures == s.failures + 1
                && after.last_failure == Some(desc@)
            &&& state != ProgressState::Failed ==> after.failures == s.failures
                && after.last_failure == s.last_failure
            &&& after.cache_misses == s.cache_misses && after.total == s.total && after.finished
                == s.finished && after.jobs == s.jobs
            &&& after.slots.len() == s.slots.len()
            &&& slot < s.slots.len() ==> after.slots[slot as int].desc == desc@
                && after.slots[slot as int].duration_ms == duration_ms
                && after.slots[slot as int].started is None
            &&& 0 <= k < s.slots.len() && k != slot ==> after.slots[k] == s.slots[k]
        }),
{
}

/// A start of an action is shown on its worker alone; a run that was not found in
/// the cache is counted; the end of a build is kept with whether it succeeded.
pub proof fn starts_and_ends_are_shown(
    s: Screen,
    slot: usize,
    id: String,
    desc: String,
    command: String,
    critical: bool,
    success: bool,
    elapsed_ms: u64,
    now: u64,
    k: int,
)
    ensures
        ({
            let after = s.after(
                ProgressEvent::ActionStarted { slot, id, desc, command, critical },
                now,
            );
            &&& after.slots.len() == s.slots.len()
            &&& slot < s.slots.len() ==> after.slots[slot as int].id == id@
                && after.slots[slot as int].desc == desc@ && after.slots[slot as int].started
                == Some(now) && after.slots[slot as int].critical == critical
            &&& 0 <= k < s.slots.len() && k != slot ==> after.slots[k] == s.slots[k]
            &&& after.cache_hits == s.cache_hits && after.cache_misses == s.cache_misses
                && after.failures == s.failures && after.completed == s.completed
        }),
        ({
            let after = s.after(ProgressEvent::ActionRunning { id }, now);
            &&& after.cache_misses == s.cache_misses + 1
            &&& after.cache_hits == s.cache_hits && after.failures == s.failures
                && after.completed == s.completed
        }),
        ({
            let after = s.after(ProgressEvent::BuildFinished { success, elapsed_ms }, now);
            &&& after.finished == Some((success, elapsed_ms))
            &&& after.failures == s.failures && after.completed == s.completed
        }),
        ({
            let after = s.after(ProgressEvent::AllCached { total: slot }, now);
            &&& after.completed == slot && after.total == slot && after.cache_hits == slot
            &&& after.failures == s.failures
        }),
{
}

/// The newest line stands last, and those before it are the newest of the others,
/// in their order: all of them until the log is over its limit, and else as many as
/// are kept.
pub proof fn log_keeps_the_newest(log: Log, line: Seq<char>, k: int)
    ensures
        ({
            let now = log.with(line);
            let n = now.lines.len() as int;
            &&& n > 0
            &&& now.lines.last() == line
            &&& n <= log.lines.len() + 1
            &&& log.lines.len() < 12_000 ==> n == log.lines.len() + 1 && now.scroll == log.scroll
            &&& log.lines.len() >= 12_000 ==> n == 10_000
            &&& 0 <= k < n - 1 ==> now.lines[k] == log.lines[log.lines.len() - (n - 1) + k]
        }),
{
}

// ---------------------------------------------------------------------------
// What a screen shows
// ---------------------------------------------------------------------------

/// A text that fits is kept; any other is cut to the width, and a mark stands where
/// it was cut.
pub proof fn cut_texts_are_marked(s: &str, width: usize, r: String)
    requires
        call_ensures(truncate, (s, width), r),
    ensures
        s@.len() <= width ==> r@ == s@,
        s@.len() > width ==> r@.len() == width,
        s@.len() > width && width > 1 ==> r@.last() == '…' && forall|i: int|
            0 <= i < width - 1 ==> #[trigger] r@[i] == s@[i],
{
}

/// A screen keeps to its size: no more lines than it has, and none that is wider.
/// Its second line counts what was found in the cache, what was not, and what
/// failed; its first says how far the build is, or what failed.
pub proof fn screen_shows_the_build(
    state: TuiState,
    width: u16,
    height: u16,
    times: Times,
    r: Vec<String>,
    i: int,
)
    requires
        times.slots@.len() == state.slots@.len(),
        call_ensures(TuiState::frame, (&state, width, height, &times), r),
        width >= 20,
        height >= 8,
    ensures
        r@.len() <= height,
        0 <= i < r@.len() ==> r@[i]@.len() <= width,
        ({
            let done = decimal(state@.completed as nat) + "/"@ + decimal(state@.total as nat);
            let first = if state@.last_failure is Some {
                "FAILED: "@ + state@.last_failure->0 + "  "@ + done + "  elapsed "@
                    + times.elapsed@
            } else {
                "frost build  "@ + done + "  elapsed "@ + times.elapsed@ + "  critical estimate "@
                    + times.critical@
            };
            r@.len() > 1 && (first.len() <= width ==> r@[0]@ == first)
        }),
        ({
            let second = "cache  "@ + decimal(state@.cache_hits as nat) + " hit / "@ + decimal(
                state@.cache_misses as nat,
            ) + " miss    failures "@ + decimal(state@.failures as nat) + "    jobs "@ + decimal(
                state@.jobs as nat,
            );
            second.len() <= width ==> r@[1]@ == second
        }),
{
    let h = at_least(height as int, 8);
    let w = at_least(width as int, 20);
    let slots = texts(times.slots@);
    let all = state@.lines(times.elapsed@, times.critical@, slots, h);
    let shown = texts(r@);
    assert(shown == state@.framed(times.elapsed@, times.critical@, slots, w, h));
    assert(shown.len() == r@.len());
    let head = state@.head(times.elapsed@, times.critical@);
    assert(all[0] == head[0] && all[1] == head[1]);
    assert(all.len() >= 5);
    assert(shown[0] == r@[0]@ && shown[1] == r@[1]@);
    assert(shown[0] == truncated(all[0], w) && shown[1] == truncated(all[1], w));
    if 0 <= i < r@.len() {
        assert(shown[i] == r@[i]@);
        assert(shown[i] == truncated(all[i], w));
    }
}

/// Every worker that a screen has room for has its line, with its number, its
/// status, its time and what it does; one on the critical path has a star.
pub proof fn screen_shows_the_workers(
    state: TuiState,
    width: u16,
    height: u16,
    times: Times,
    r: Vec<String>,
    i: int,
)
    requires
        times.slots@.len() == state.slots@.len(),
        state@.slots.len() == state.slots@.len(),
        call_ensures(TuiState::frame, (&state, width, height, &times), r),
        width >= 20,
        height >= 8,
        state.slots@.len() <= height - 6,
        0 <= i < state.slots@.len(),
        state@.slots[i].desc.len() > 0,
        state@.slots[i].status.len() > 0,
    ensures
        4 + i < r@.len(),
        ({
            let slot = state@.slots[i];
            let line = " "@ + (if slot.critical {
                "*"@
            } else {
                " "@
            }) + " "@ + padded_left(decimal((i + 1) as nat), 2) + " "@ + padded_right(
                slot.status,
                14,
            ) + " "@ + padded_left(times.slots@[i]@, 8) + "  "@ + slot.desc;
            line.len() <= width ==> r@[4 + i]@ == line
        }),
{
    let h = at_least(height as int, 8);
    let w = at_least(width as int, 20);
    let slots = texts(times.slots@);
    let all = state@.lines(times.elapsed@, times.critical@, slots, h);
    let shown = texts(r@);
    assert(shown == state@.framed(times.elapsed@, times.critical@, slots, w, h));
    assert(shown.len() == r@.len());
    let workers = state@.workers(slots, h);
    assert(slots[i] == times.slots@[i]@);
    assert(workers[i] == slot_line(i, state@.slots[i], slots[i]));
    assert(all[4 + i] == workers[i]);
    assert(shown[4 + i] == truncated(all[4 + i], w));
    assert(shown[4 + i] == r@[4 + i]@);
}

/// Where the log was not scrolled, its newest line is the last of the screen.
pub proof fn screen_ends_with_the_newest_line(
    state: TuiState,
    width: u16,
    height: u16,
    times: Times,
    r: Vec<String>,
)
    requires
        times.slots@.len() == state.slots@.len(),
        state@.slots.len() == state.slots@.len(),
        call_ensures(TuiState::frame, (&state, width, height, &times), r),
        width >= 20,
        height >= 8,
        state@.log.scroll == 0,
        state@.log.lines.len() > 0,
        state@.log.lines.last().len() <= width,
    ensures
        r@.len() > 0,
        r@.last()@ == state@.log.lines.last(),
{
    let h = at_least(height as int, 8);
    let w = at_least(width as int, 20);
    let slots = texts(times.slots@);
    let all = state@.lines(times.elapsed@, times.critical@, slots, h);
    let shown = texts(r@);
    assert(shown == state@.framed(times.elapsed@, times.critical@, slots, w, h));
    assert(shown.len() == r@.len());
    let above = (state@.head(times.elapsed@, times.critical@) + state@.workers(slots, h)).push(
        "logs (Up/Down/PgUp/PgDn/Home/End to scroll)"@,
    );
    assert(state@.workers(slots, h).len() <= h - 6);
    assert(above.len() <= h - 1);
    let left = h - above.len();
    let pane = state@.pane(left);
    assert(all == above + pane);
    assert(pane.len() > 0 && pane.len() <= left);
    assert(pane.last() == state@.log.lines.last());
    assert(all.len() <= h);
    assert(shown.last() == truncated(all.last(), w));
    assert(shown.last() == r@.last()@);
}

} // verus!
