//! Carrying out the actions of a closure: which may go ahead, which cannot
//! because something failed, and which records still hold.

use vstd::prelude::*;

use crate::action_key::text_map;
use crate::graph::BuildGraph;
use crate::journal::JournalEntry;
use crate::progress::ProgressState;
use crate::query::{need_lists, needs};
use crate::report::Outcome;
use crate::sorted_map::SortedMap;
use crate::text::{copy, group_texts, lists, same, texts};
use crate::toposort::{in_range, numbers};

verus! {

/// Whether an action may go ahead.
#[derive(Debug)]
pub enum Verdict {
    Skip { reason: String },
    MayRun { reason: String },
    GoAhead,
}

/// A verdict with its reason as a text of the mathematics.
pub enum Decision {
    Skip(Seq<char>),
    MayRun(Seq<char>),
    GoAhead,
}

impl View for Verdict {
    type V = Decision;

    open spec fn view(&self) -> Decision {
        match *self {
            Verdict::Skip { reason } => Decision::Skip(reason@),
            Verdict::MayRun { reason } => Decision::MayRun(reason@),
            Verdict::GoAhead => Decision::GoAhead,
        }
    }
}

/// How far the actions of a graph have come.
pub struct Course {
    /// For each action those that must run before it.
    pub needs: Seq<Seq<int>>,
    /// The actions that failed or were skipped.
    pub broken: Seq<bool>,
    /// The actions that would run, or may.
    pub changed: Seq<bool>,
    /// No action is started any more.
    pub stopped: bool,
}

/// One of some actions is marked.
pub open spec fn one_marked(actions: Seq<int>, marks: Seq<bool>) -> bool {
    exists|k: int| 0 <= k < actions.len() && marks[#[trigger] actions[k]]
}

/// An action whose outcome keeps those that need it from running.
pub open spec fn breaks(outcome: Outcome) -> bool {
    outcome is Failed || outcome is Skipped
}

/// An action whose outputs may be others once it has run.
pub open spec fn may_change(outcome: Outcome) -> bool {
    outcome is WouldRun || outcome is MayRun
}

impl Course {
    /// Whether action `a` may go ahead: not after a cancellation, not once the
    /// build has stopped, and not behind one that failed. A dry run cannot
    /// tell of an action behind one that would run.
    pub open spec fn decision(self, a: int, cancelled: bool, dry_run: bool) -> Decision {
        if cancelled {
            Decision::Skip("cancelled"@)
        } else if self.stopped || one_marked(self.needs[a], self.broken) {
            Decision::Skip("dependency failed"@)
        } else if dry_run && one_marked(self.needs[a], self.changed) {
            Decision::MayRun("inputs may change"@)
        } else {
            Decision::GoAhead
        }
    }

    /// The course once an action was asked about: a cancellation stops it.
    pub open spec fn asked(self, cancelled: bool) -> Course {
        Course { stopped: self.stopped || cancelled, ..self }
    }

    /// The course with the outcome of action `a`. A failure stops it, unless it
    /// is to keep going.
    pub open spec fn settled(self, a: int, outcome: Outcome, keep_going: bool) -> Course {
        Course {
            needs: self.needs,
            broken: self.broken.update(a, breaks(outcome)),
            changed: self.changed.update(a, may_change(outcome)),
            stopped: self.stopped || (outcome is Failed && !keep_going),
        }
    }
}

/// How far the actions of a graph have come.
pub struct Execution {
    needs: Vec<Vec<usize>>,
    broken: Vec<bool>,
    changed: Vec<bool>,
    stopped: bool,
}

impl View for Execution {
    type V = Course;

    closed spec fn view(&self) -> Course {
        Course {
            needs: numbers(self.needs@),
            broken: self.broken@,
            changed: self.changed@,
            stopped: self.stopped,
        }
    }
}

fn some_marked(actions: &Vec<usize>, marks: &Vec<bool>, Ghost(all): Ghost<Seq<int>>) -> (r: bool)
    requires
        all.len() == actions@.len(),
        forall|k: int|
            0 <= k < actions@.len() ==> #[trigger] all[k] == actions@[k] && actions@[k]
                < marks@.len(),
    ensures
        r == one_marked(all, marks@),
{
    let mut k: usize = 0;
    while k < actions.len()
        invariant
            all.len() == actions@.len(),
            forall|k: int|
                0 <= k < actions@.len() ==> #[trigger] all[k] == actions@[k] && actions@[k]
                    < marks@.len(),
            k <= actions@.len(),
            forall|j: int| 0 <= j < k ==> !marks@[#[trigger] all[j]],
        decreases actions@.len() - k,
    {
        assert(all[k as int] == actions@[k as int]);
        if marks[actions[k]] {
            return true;
        }
        k += 1;
    }
    false
}

impl Execution {
    /// Every action has its marks, and needs actions.
    pub closed spec fn wf(self) -> bool {
        &&& in_range(numbers(self.needs@))
        &&& self.broken@.len() == self.needs@.len()
        &&& self.changed@.len() == self.needs@.len()
    }

    /// No action of a graph has been carried out.
    pub fn new(graph: &BuildGraph) -> (r: Execution)
        requires
            graph.wf(),
        ensures
            r.wf(),
            r@.needs == needs(*graph),
            r@.broken == Seq::new(graph.actions@.len(), |a: int| false),
            r@.changed == Seq::new(graph.actions@.len(), |a: int| false),
            !r@.stopped,
    {
        let all = need_lists(graph);
        assert(numbers(all@).len() == all@.len());
        let mut broken: Vec<bool> = Vec::new();
        let mut changed: Vec<bool> = Vec::new();
        let mut a: usize = 0;
        while a < all.len()
            invariant
                a <= all@.len(),
                broken@ == Seq::new(a as nat, |a: int| false),
                changed@ == Seq::new(a as nat, |a: int| false),
            decreases all@.len() - a,
        {
            broken.push(false);
            changed.push(false);
            a += 1;
            assert(broken@ =~= Seq::new(a as nat, |a: int| false));
            assert(changed@ =~= Seq::new(a as nat, |a: int| false));
        }
        Execution { needs: all, broken, changed, stopped: false }
    }

    /// Whether an action may go ahead.
    pub fn decide(&mut self, action: usize, cancelled: bool, dry_run: bool) -> (r: Verdict)
        requires
            old(self).wf(),
            action < old(self)@.needs.len(),
        ensures
            final(self).wf(),
            final(self)@ == old(self)@.asked(cancelled),
            r@ == old(self)@.decision(action as int, cancelled, dry_run),
    {
        if cancelled {
            self.stopped = true;
            return Verdict::Skip { reason: copy("cancelled") };
        }
        let ghost own = numbers(self.needs@)[action as int];
        proof {
            assert forall|k: int| 0 <= k < own.len() implies #[trigger] own[k]
                == self.needs@[action as int]@[k] && self.needs@[action as int]@[k]
                < self.needs@.len() by {
                assert(0 <= numbers(self.needs@)[action as int][k] < numbers(self.needs@).len());
            }
        }
        if self.stopped || some_marked(&self.needs[action], &self.broken, Ghost(own)) {
            return Verdict::Skip { reason: copy("dependency failed") };
        }
        if dry_run && some_marked(&self.needs[action], &self.changed, Ghost(own)) {
            return Verdict::MayRun { reason: copy("inputs may change") };
        }
        Verdict::GoAhead
    }

    /// Takes note of what became of an action.
    pub fn settle(&mut self, action: usize, outcome: &Outcome, keep_going: bool)
        requires
            old(self).wf(),
            action < old(self)@.needs.len(),
        ensures
            final(self).wf(),
            final(self)@ == old(self)@.settled(action as int, *outcome, keep_going),
    {
        let broken = match outcome {
            Outcome::Failed { .. } => true,
            Outcome::Skipped { .. } => true,
            _ => false,
        };
        let changed = match outcome {
            Outcome::WouldRun { .. } => true,
            Outcome::MayRun { .. } => true,
            _ => false,
        };
        let failed = match outcome {
            Outcome::Failed { .. } => true,
            _ => false,
        };
        self.broken.set(action, broken);
        self.changed.set(action, changed);
        if failed && !keep_going {
            self.stopped = true;
        }
    }

    /// Every action that was settled went well.
    pub fn success(&self) -> (r: bool)
        ensures
            r == !self@.broken.contains(true),
    {
        let mut a: usize = 0;
        while a < self.broken.len()
            invariant
                a <= self.broken@.len(),
                forall|k: int| 0 <= k < a ==> !#[trigger] self.broken@[k],
            decreases self.broken@.len() - a,
        {
            if self.broken[a] {
                assert(self@.broken[a as int]);
                return false;
            }
            a += 1;
        }
        true
    }
}

/// What progress says of an outcome: the state, the time it took, and details.
pub open spec fn shown_state(outcome: Outcome) -> (ProgressState, u64, Seq<char>) {
    match outcome {
        Outcome::Executed { reason, duration_ms } => (ProgressState::Executed, duration_ms, ""@),
        Outcome::Cached => (ProgressState::CacheHit, 0, ""@),
        Outcome::Failed { reason, detail } => (ProgressState::Failed, 0, detail@),
        Outcome::Skipped { reason } => (ProgressState::Skipped, 0, reason@),
        Outcome::WouldRun { reason } => (ProgressState::WouldRun, 0, reason@),
        Outcome::MayRun { reason } => (ProgressState::MayRun, 0, reason@),
    }
}

/// What progress says of an outcome.
pub fn state_of(outcome: &Outcome) -> (r: (ProgressState, u64, String))
    ensures
        (r.0, r.1, r.2@) == shown_state(*outcome),
{
    match outcome {
        Outcome::Executed { duration_ms, .. } => (ProgressState::Executed, *duration_ms, copy("")),
        Outcome::Cached => (ProgressState::CacheHit, 0, copy("")),
        Outcome::Failed { detail, .. } => (ProgressState::Failed, 0, copy(detail)),
        Outcome::Skipped { reason } => (ProgressState::Skipped, 0, copy(reason)),
        Outcome::WouldRun { reason } => (ProgressState::WouldRun, 0, copy(reason)),
        Outcome::MayRun { reason } => (ProgressState::MayRun, 0, copy(reason)),
    }
}

/// The outputs of a record that have another digest now, or none.
pub open spec fn altered(
    recorded: Map<Seq<char>, Seq<char>>,
    now: Map<Seq<char>, Seq<char>>,
    path: Seq<char>,
) -> bool {
    !now.dom().contains(path) || now[path] != recorded[path]
}

/// The outputs of a record that are not as the action left them, in order.
pub fn altered_outputs(entry: &JournalEntry, now: &SortedMap<String>) -> (r: Vec<String>)
    requires
        entry.wf(),
        now.wf(),
    ensures
        texts(r@) == entry.outputs.names().filter(
            |path: Seq<char>| altered(text_map(entry.outputs), text_map(*now), path),
        ),
{
    broadcast use group_texts;

    let ghost gone = |path: Seq<char>| altered(text_map(entry.outputs), text_map(*now), path);
    let ghost names = entry.outputs.names();
    let mut out: Vec<String> = Vec::new();
    let mut i: usize = 0;
    proof {
        reveal(Seq::filter);
        assert(names.take(0) =~= Seq::empty());
    }
    while i < entry.outputs.keys.len()
        invariant
            entry.wf(),
            now.wf(),
            names == entry.outputs.names(),
            gone == (|path: Seq<char>| altered(text_map(entry.outputs), text_map(*now), path)),
            i <= entry.outputs.keys@.len(),
            texts(out@) == names.take(i as int).filter(gone),
        decreases entry.outputs.keys@.len() - i,
    {
        let path = &entry.outputs.keys[i];
        proof {
            entry.outputs.spot_is(i as int);
            assert(names[i as int] == path@);
            assert(names.take(i + 1) =~= names.take(i as int).push(path@));
            names.take(i as int).lemma_filter_push(path@, gone);
        }
        let kept = match now.get(path) {
            Some(digest) => same(digest, &entry.outputs.values[i]),
            None => false,
        };
        if !kept {
            out.push(copy(path));
        }
        i += 1;
    }
    assert(names.take(i as int) =~= names);
    out
}

/// The inputs that a run discovered and that were not declared.
pub fn undeclared(found: &Vec<String>, declared: &Vec<String>) -> (r: Vec<String>)
    ensures
        texts(r@) == texts(found@).filter(|path: Seq<char>| !texts(declared@).contains(path)),
{
    broadcast use group_texts;

    let ghost other = |path: Seq<char>| !texts(declared@).contains(path);
    let ghost all = texts(found@);
    let mut out: Vec<String> = Vec::new();
    let mut i: usize = 0;
    proof {
        reveal(Seq::filter);
        assert(all.take(0) =~= Seq::empty());
    }
    while i < found.len()
        invariant
            all == texts(found@),
            other == (|path: Seq<char>| !texts(declared@).contains(path)),
            i <= found@.len(),
            texts(out@) == all.take(i as int).filter(other),
        decreases found@.len() - i,
    {
        let path = &found[i];
        proof {
            assert(all[i as int] == path@);
            assert(all.take(i + 1) =~= all.take(i as int).push(path@));
            all.take(i as int).lemma_filter_push(path@, other);
        }
        if !lists(declared, path) {
            out.push(copy(path));
        }
        i += 1;
    }
    assert(all.take(i as int) =~= all);
    out
}

/// Behind an action that failed or was skipped, none that needs it goes ahead.
pub proof fn failure_spreads(
    c: Course,
    a: int,
    b: int,
    outcome: Outcome,
    keep_going: bool,
    cancelled: bool,
    dry_run: bool,
)
    requires
        0 <= a < c.broken.len(),
        c.needs[b].contains(a),
        breaks(outcome),
    ensures
        c.settled(a, outcome, keep_going).decision(b, cancelled, dry_run) is Skip,
{
    let now = c.settled(a, outcome, keep_going);
    let k = c.needs[b].index_of(a);
    assert(now.needs[b][k] == a);
    assert(now.broken[now.needs[b][k]]);
    assert(one_marked(now.needs[b], now.broken));
}

/// Without keeping going, no action goes ahead behind a failure.
pub proof fn failure_stops(
    c: Course,
    a: int,
    b: int,
    outcome: Outcome,
    cancelled: bool,
    dry_run: bool,
)
    requires
        outcome is Failed,
    ensures
        c.settled(a, outcome, false).decision(b, cancelled, dry_run) is Skip,
{
}

/// Behind an action that would run or may run, a dry run cannot tell of one that
/// needs it: the answer is that it may run, unless something that it needs failed
/// or the build has stopped.
pub proof fn pending_spreads(
    c: Course,
    a: int,
    b: int,
    outcome: Outcome,
    keep_going: bool,
)
    requires
        0 <= a < c.changed.len(),
        c.needs[b].contains(a),
        outcome is WouldRun || outcome is MayRun,
    ensures
        c.settled(a, outcome, keep_going).decision(b, false, true) !is GoAhead,
        !c.stopped && (forall|k: int|
            0 <= k < c.needs[b].len() ==> 0 <= (#[trigger] c.needs[b][k]) < c.broken.len() && (
            c.needs[b][k] == a || !c.broken[c.needs[b][k]])) ==> c.settled(
            a,
            outcome,
            keep_going,
        ).decision(b, false, true) == Decision::MayRun("inputs may change"@),
{
    let now = c.settled(a, outcome, keep_going);
    let k = c.needs[b].index_of(a);
    assert(now.needs[b][k] == a);
    assert(now.changed[now.needs[b][k]]);
    assert(one_marked(now.needs[b], now.changed));
    if !c.stopped && (forall|k: int|
        0 <= k < c.needs[b].len() ==> 0 <= (#[trigger] c.needs[b][k]) < c.broken.len() && (
        c.needs[b][k] == a || !c.broken[c.needs[b][k]])) {
        if one_marked(now.needs[b], now.broken) {
            let j = choose|j: int|
                0 <= j < now.needs[b].len() && now.broken[#[trigger] now.needs[b][j]];
            assert(0 <= c.needs[b][j] < c.broken.len());
        }
    }
}

/// An action goes ahead exactly where nothing is in its way: no cancellation, no
/// stop, none of the actions that it needs failed or was skipped, and in a dry run
/// none of them would run or may run.
pub proof fn goes_ahead_where_nothing_hinders(c: Course, a: int, cancelled: bool, dry_run: bool)
    ensures
        c.decision(a, cancelled, dry_run) is GoAhead <==> !cancelled && !c.stopped && (forall|k: int|
            0 <= k < c.needs[a].len() ==> !c.broken[#[trigger] c.needs[a][k]]) && (dry_run ==> forall|
            k: int,
        |
            0 <= k < c.needs[a].len() ==> !c.changed[#[trigger] c.needs[a][k]]),
        c.decision(a, cancelled, dry_run) is MayRun ==> dry_run,
        c.decision(a, cancelled, dry_run) is Skip <==> cancelled || c.stopped || exists|k: int|
            0 <= k < c.needs[a].len() && c.broken[#[trigger] c.needs[a][k]],
        cancelled ==> c.decision(a, cancelled, dry_run) == Decision::Skip("cancelled"@),
        cancelled ==> c.asked(cancelled).decision(a, false, dry_run) is Skip,
        !cancelled ==> c.asked(cancelled) == c,
{
}

/// What became of an action is kept, and changes nothing of the others.
pub proof fn settled_is_kept(c: Course, a: int, b: int, outcome: Outcome, keep_going: bool)
    requires
        0 <= a < c.broken.len(),
        c.changed.len() == c.broken.len(),
    ensures
        ({
            let now = c.settled(a, outcome, keep_going);
            &&& now.needs == c.needs
            &&& now.broken.len() == c.broken.len()
            &&& now.changed.len() == c.changed.len()
            &&& outcome is Failed || outcome is Skipped ==> now.broken[a]
            &&& outcome is Executed || outcome is Cached ==> !now.broken[a] && !now.changed[a]
            &&& outcome is WouldRun || outcome is MayRun ==> !now.broken[a] && now.changed[a]
            &&& 0 <= b < c.broken.len() && b != a ==> now.broken[b] == c.broken[b]
                && now.changed[b] == c.changed[b]
            &&& c.stopped ==> now.stopped
            &&& outcome is Failed && !keep_going ==> now.stopped
            &&& outcome !is Failed || keep_going ==> now.stopped == c.stopped
        }),
{
}

/// An output of a record is named exactly where the file is gone or has other
/// contents now.
pub proof fn altered_outputs_are_named(
    entry: JournalEntry,
    now: SortedMap<String>,
    r: Vec<String>,
    path: Seq<char>,
)
    requires
        call_ensures(altered_outputs, (&entry, &now), r),
        entry.outputs.has(path),
        entry.wf(),
        now.wf(),
    ensures
        texts(r@).contains(path) <==> !now.has(path) || now.at(path)@ != entry.outputs.at(path)@,
{
    let gone = |path: Seq<char>| altered(text_map(entry.outputs), text_map(now), path);
    let names = entry.outputs.names();
    assert(names.contains(path));
    if gone(path) {
        names.lemma_filter_contains(gone, names.index_of(path));
    } else if names.filter(gone).contains(path) {
        names.lemma_filter_pred(gone, names.filter(gone).index_of(path));
    }
}

/// What a run discovered is undeclared exactly where it is not declared.
pub proof fn undeclared_is_the_rest(
    found: Vec<String>,
    declared: Vec<String>,
    r: Vec<String>,
    path: Seq<char>,
)
    requires
        call_ensures(undeclared, (&found, &declared), r),
    ensures
        texts(r@).contains(path) <==> texts(found@).contains(path) && !texts(declared@).contains(
            path,
        ),
{
    let other = |path: Seq<char>| !texts(declared@).contains(path);
    let all = texts(found@);
    if all.contains(path) && other(path) {
        all.lemma_filter_contains(other, all.index_of(path));
    }
    if all.filter(other).contains(path) {
        all.lemma_filter_pred(other, all.filter(other).index_of(path));
        all.lemma_filter_contains_rev(other, path);
    }
}

/// A build succeeded exactly where no action of it is broken.
pub proof fn one_broken_action_is_no_success(e: Execution, r: bool, a: int)
    requires
        call_ensures(Execution::success, (&e,), r),
        0 <= a < e@.broken.len(),
    ensures
        e@.broken[a] ==> !r,
        (forall|k: int| 0 <= k < e@.broken.len() ==> !#[trigger] e@.broken[k]) ==> r,
{
    if e@.broken[a] {
        assert(e@.broken.contains(true));
    }
}

/// Progress tells every outcome apart, with the time of one that ran and the words
/// of every other that has some.
pub proof fn outcomes_are_told_apart(outcome: Outcome, r: (ProgressState, u64, String))
    requires
        call_ensures(state_of, (&outcome,), r),
    ensures
        outcome is Executed <==> r.0 == ProgressState::Executed,
        outcome is Cached <==> r.0 == ProgressState::CacheHit,
        outcome is Failed <==> r.0 == ProgressState::Failed,
        outcome is Skipped <==> r.0 == ProgressState::Skipped,
        outcome is WouldRun <==> r.0 == ProgressState::WouldRun,
        outcome is MayRun <==> r.0 == ProgressState::MayRun,
        outcome matches Outcome::Executed { duration_ms, .. } ==> r.1 == duration_ms,
        outcome matches Outcome::Failed { detail, .. } ==> r.2@ == detail@,
        outcome matches Outcome::Skipped { reason } ==> r.2@ == reason@,
        outcome matches Outcome::WouldRun { reason } ==> r.2@ == reason@,
        outcome matches Outcome::MayRun { reason } ==> r.2@ == reason@,
{
}

} // verus!
