//! What came of a build: which tests it is about, the lines it prints, and its
//! exit code.

use vstd::prelude::*;
use vstd::string::*;

use crate::closest::suggestion;
use crate::graph::BuildGraph;
use crate::json::{add_member, list, members, object, text, tree, trees, Json, JsonText, Member};
use crate::manifest::{suggested, TargetKind};
use crate::request::{resolve_targets, BuildRequest, NoSuchTarget};
use crate::text::{
    begins, chars_of, copy, debug_text, decimal, ends, group_texts, lines, lines_of, lists, number,
    quoted, starts_with, text_between, texts,
};

verus! {

/// What became of an action.
#[derive(Debug)]
pub enum Outcome {
    Executed { reason: String, duration_ms: u64 },
    Cached,
    Failed { reason: String, detail: String },
    Skipped { reason: String },
    WouldRun { reason: String },
    MayRun { reason: String },
}

/// An action and what became of it.
#[derive(Debug)]
pub struct ActionResult {
    pub id: String,
    pub desc: String,
    pub outcome: Outcome,
}

/// Why a build cannot be about what was asked.
#[derive(Debug)]
pub enum SelectError {
    Unknown { error: NoSuchTarget },
    NoTests,
    NotATest { name: String },
}

impl SelectError {
    pub open spec fn text(self) -> Seq<char> {
        match self {
            SelectError::Unknown { error } => error.text(),
            SelectError::NoTests => "workspace declares no cc_test or test targets"@,
            SelectError::NotATest { name } => debug_text(name@) + " is not a test target"@,
        }
    }

    /// Reports the error.
    pub fn message(&self) -> (r: String)
        ensures
            r@ == self.text(),
    {
        match self {
            SelectError::Unknown { error } => error.message(),
            SelectError::NoTests => copy("workspace declares no cc_test or test targets"),
            SelectError::NotATest { name } => {
                let mut out = quoted(name);
                out.append(" is not a test target");
                out
            },
        }
    }
}

/// The names of the tests among the first `n` targets.
pub open spec fn test_names(g: BuildGraph, n: nat) -> Seq<Seq<char>>
    decreases n,
{
    if n == 0 {
        Seq::empty()
    } else {
        let before = test_names(g, (n - 1) as nat);
        if g.targets.values@[n - 1].kind.tests() {
            before.push(g.targets.values@[n - 1].name@)
        } else {
            before
        }
    }
}

/// The names of all tests.
pub fn test_targets(graph: &BuildGraph) -> (r: Vec<String>)
    requires
        graph.wf(),
    ensures
        texts(r@) == test_names(*graph, graph.targets.values@.len()),
{
    broadcast use group_texts;
    let mut out: Vec<String> = Vec::new();
    let mut i: usize = 0;
    while i < graph.targets.values.len()
        invariant
            graph.wf(),
            i <= graph.targets.values@.len(),
            texts(out@) == test_names(*graph, i as nat),
        decreases graph.targets.values@.len() - i,
    {
        let t = &graph.targets.values[i];
        if t.kind.is_test() {
            out.push(copy(&t.name));
        }
        i += 1;
    }
    out
}

/// The first `n` names are targets of a graph.
pub open spec fn first_known(g: BuildGraph, names: Seq<Seq<char>>, n: int) -> bool {
    forall|k: int| 0 <= k < n ==> g.targets.has(#[trigger] names[k])
}

/// The first `n` names are tests.
pub open spec fn first_tests(g: BuildGraph, names: Seq<Seq<char>>, n: int) -> bool {
    forall|k: int| 0 <= k < n ==> g.targets.at(#[trigger] names[k]).kind.tests()
}

/// A build is about all tests: none was named, or all were asked for.
pub open spec fn about_all_tests(request: BuildRequest) -> bool {
    request.test_mode && (request.all || request.targets@.len() == 0)
}

/// `e` is why a build cannot be about what was asked: there are no tests, or
/// else the first name that is no target, or else the first target that is no
/// test.
pub open spec fn not_selected(g: BuildGraph, request: BuildRequest, e: SelectError) -> bool {
    let asked = texts(request.targets@);
    match e {
        SelectError::NoTests => about_all_tests(request) && test_names(
            g,
            g.targets.values@.len(),
        ).len() == 0,
        SelectError::Unknown { error } => !about_all_tests(request) && suggested(
            error.hint,
            suggestion(error.name@, g.targets.names()),
        ) && texts(error.known@) == g.targets.names() && exists|k: int| #![trigger asked[k]]
            0 <= k < asked.len() && error.name@ == asked[k] && !g.targets.has(asked[k])
                && first_known(g, asked, k),
        SelectError::NotATest { name } => !about_all_tests(request) && request.test_mode
            && first_known(g, asked, asked.len() as int) && exists|k: int| #![trigger asked[k]]
            0 <= k < asked.len() && name@ == asked[k] && !g.targets.at(asked[k]).kind.tests()
                && first_tests(g, asked, k),
    }
}

/// The targets that a build is about: what was asked, or for tests all of them
/// where none was named. A build of tests needs tests, and nothing else.
pub fn select_targets(graph: &BuildGraph, request: &BuildRequest) -> (r: Result<
    Vec<String>,
    SelectError,
>)
    requires
        graph.wf(),
    ensures
        ({
            let asked = texts(request.targets@);
            match r {
                Ok(names) => if about_all_tests(*request) {
                    names@.len() > 0 && texts(names@) == test_names(
                        *graph,
                        graph.targets.values@.len(),
                    )
                } else {
                    &&& first_known(*graph, asked, asked.len() as int)
                    &&& request.test_mode ==> first_tests(*graph, asked, asked.len() as int)
                    &&& texts(names@) == (if asked.len() == 0 {
                        texts(graph.default_targets@)
                    } else {
                        asked
                    })
                },
                Err(e) => not_selected(*graph, *request, e),
            }
        }),
        request.test_mode && r is Ok ==> forall|k: int|
            0 <= k < r->Ok_0@.len() ==> graph.targets.has((#[trigger] r->Ok_0@[k])@)
                && graph.targets.at(r->Ok_0@[k]@).kind.tests(),
{
    if request.test_mode && (request.all || request.targets.len() == 0) {
        let names = test_targets(graph);
        assert(texts(names@).len() == names@.len());
        if names.len() == 0 {
            return Err(SelectError::NoTests);
        }
        proof {
            let n = graph.targets.values@.len();
            tests_are_tests(*graph, n);
            assert forall|k: int| 0 <= k < names@.len() implies graph.targets.has(
                (#[trigger] names@[k])@,
            ) && graph.targets.at(names@[k]@).kind.tests() by {
                assert(texts(names@)[k] == names@[k]@);
                assert(graph.targets.has(test_names(*graph, n)[k]));
            }
        }
        return Ok(names);
    }
    let wanted = crate::text::copies(&request.targets);
    let names = match resolve_targets(graph, wanted) {
        Ok(names) => names,
        Err(error) => {
            proof {
                let asked = texts(request.targets@);
                assert(texts(wanted@) == asked);
                let k = choose|k: int| #![trigger wanted@[k]]
                    0 <= k < wanted@.len() && error.name@ == wanted@[k]@ && !graph.targets.has(
                        error.name@,
                    ) && forall|j: int| 0 <= j < k ==> graph.targets.has((#[trigger] wanted@[j])@);
                assert(texts(wanted@)[k] == error.name@);
                assert forall|j: int| 0 <= j < k implies graph.targets.has(
                    #[trigger] asked[j],
                ) by {
                    assert(texts(wanted@)[j] == wanted@[j]@);
                }
            }
            return Err(SelectError::Unknown { error });
        },
    };
    assert(first_known(*graph, texts(request.targets@), request.targets@.len() as int)) by {
        assert forall|k: int| 0 <= k < request.targets@.len() implies graph.targets.has(
            #[trigger] texts(request.targets@)[k],
        ) by {
            assert(texts(wanted@)[k] == wanted@[k]@);
        }
    }
    if request.test_mode {
        let mut i: usize = 0;
        assert(texts(names@).len() == names@.len());
        assert(texts(request.targets@).len() == request.targets@.len());
        assert forall|k: int| 0 <= k < names@.len() implies graph.targets.has(
            (#[trigger] names@[k])@,
        ) by {
            assert(texts(names@)[k] == names@[k]@);
            assert(texts(request.targets@)[k] == request.targets@[k]@);
            assert(graph.targets.has(wanted@[k]@));
        }
        while i < names.len()
            invariant
                graph.wf(),
                request.test_mode,
                !request.all,
                !about_all_tests(*request),
                texts(names@) == texts(request.targets@),
                first_known(*graph, texts(request.targets@), request.targets@.len() as int),
                i <= names@.len(),
                forall|k: int|
                    0 <= k < names@.len() ==> graph.targets.has((#[trigger] names@[k])@),
                forall|k: int|
                    0 <= k < i ==> graph.targets.at((#[trigger] names@[k])@).kind.tests(),
            decreases names@.len() - i,
        {
            let name = &names[i];
            if let Some(node) = graph.targets.get(name) {
                if !node.kind.is_test() {
                    proof {
                        let asked = texts(request.targets@);
                        assert(asked[i as int] == name@);
                        assert forall|k: int| 0 <= k < i implies graph.targets.at(
                            #[trigger] asked[k],
                        ).kind.tests() by {
                            assert(texts(names@)[k] == names@[k]@);
                        }
                    }
                    return Err(SelectError::NotATest { name: copy(name) });
                }
            }
            i += 1;
        }
        assert forall|k: int| 0 <= k < names@.len() implies graph.targets.at(
            #[trigger] texts(request.targets@)[k],
        ).kind.tests() by {
            assert(texts(names@)[k] == names@[k]@);
        }
    }
    Ok(names)
}

/// The tests of a graph are targets and tests.
proof fn tests_are_tests(g: BuildGraph, n: nat)
    requires
        g.wf(),
        n <= g.targets.values@.len(),
    ensures
        forall|k: int|
            0 <= k < test_names(g, n).len() ==> g.targets.has(#[trigger] test_names(g, n)[k])
                && g.targets.at(test_names(g, n)[k]).kind.tests(),
    decreases n,
{
    if n > 0 {
        tests_are_tests(g, (n - 1) as nat);
        assert(g.target_ok(n - 1));
        g.targets.spot_is(n - 1);
        let before = test_names(g, (n - 1) as nat);
        assert forall|k: int| 0 <= k < test_names(g, n).len() implies g.targets.has(
            #[trigger] test_names(g, n)[k],
        ) && g.targets.at(test_names(g, n)[k]).kind.tests() by {
            if k < before.len() {
                assert(test_names(g, n)[k] == before[k]);
            }
        }
    }
}

// ---------------------------------------------------------------------------
// Tests that a change affects
// ---------------------------------------------------------------------------

/// `s` without every `head` at its beginning.
pub open spec fn without_heads(s: Seq<char>, head: Seq<char>) -> Seq<char>
    decreases s.len(),
{
    if head.len() > 0 && begins(s, head) {
        without_heads(s.skip(head.len() as int), head)
    } else {
        s
    }
}

/// The action is a test.
pub open spec fn is_test(r: ActionResult) -> bool {
    begins(r.id@, "test:"@)
}

/// The action is a test that would or may run.
pub open spec fn test_pending(r: ActionResult) -> bool {
    is_test(r) && (r.outcome is WouldRun || r.outcome is MayRun)
}

/// The target of a test that would or may run is `name`.
pub open spec fn affects(results: Seq<ActionResult>, name: Seq<char>) -> bool {
    exists|i: int| #![trigger results[i]]
        0 <= i < results.len() && test_pending(results[i]) && without_heads(
            results[i].id@,
            "test:"@,
        ) == name
}

fn strip_heads(s: &str, head: &str) -> (r: String)
    ensures
        r@ == without_heads(s@, head@),
{
    let a = chars_of(s);
    let h = chars_of(head);
    let mut i: usize = 0;
    assert(a@.skip(0) =~= a@);
    while h.len() > 0 && crate::text::occurs_here(&a, i, &h)
        invariant
            i <= a@.len(),
            without_heads(a@.skip(i as int), h@) == without_heads(a@, h@),
        decreases a@.len() - i,
    {
        proof {
            let rest = a@.skip(i as int);
            assert(a@.subrange(i as int, i + h@.len()) =~= rest.subrange(0, h@.len() as int));
            assert(rest.skip(h@.len() as int) =~= a@.skip(i + h@.len()));
        }
        assert(i + h.len() <= a.len());
        i += h.len();
    }
    proof {
        let rest = a@.skip(i as int);
        if h@.len() > 0 && begins(rest, h@) {
            assert(a@.subrange(i as int, i + h@.len()) =~= rest.subrange(0, h@.len() as int));
        }
    }
    text_between(&a, i, a.len())
}

/// Those of the requested tests that a dry run would or may run.
pub fn affected_tests(requested: &Vec<String>, results: &Vec<ActionResult>) -> (r: Vec<String>)
    ensures
        texts(r@) == texts(requested@).filter(|name: Seq<char>| affects(results@, name)),
{
    broadcast use group_texts;
    let mut names: Vec<String> = Vec::new();
    let mut i: usize = 0;
    while i < results.len()
        invariant
            i <= results@.len(),
            forall|name: Seq<char>| #[trigger]
                texts(names@).contains(name) <==> affects(results@.take(i as int), name),
        decreases results@.len() - i,
    {
        let result = &results[i];
        let ghost before = texts(names@);
        let ghost now = results@.take(i + 1);
        let pending = starts_with(&result.id, "test:") && (match &result.outcome {
            Outcome::WouldRun { reason } => true,
            Outcome::MayRun { reason } => true,
            _ => false,
        });
        if pending {
            names.push(strip_heads(&result.id, "test:"));
        }
        proof {
            let added = without_heads(result.id@, "test:"@);
            assert forall|name: Seq<char>| #[trigger] texts(names@).contains(name) <==> affects(
                now,
                name,
            ) by {
                if affects(results@.take(i as int), name) {
                    let k = choose|k: int| #![trigger results@.take(i as int)[k]]
                        0 <= k < i && test_pending(results@.take(i as int)[k]) && without_heads(
                            results@.take(i as int)[k].id@,
                            "test:"@,
                        ) == name;
                    assert(now[k] == results@.take(i as int)[k]);
                    assert(before.contains(name));
                    assert(texts(names@)[before.index_of(name)] == name);
                }
                if pending && name == added {
                    assert(now[i as int] == *result);
                    assert(texts(names@)[before.len() as int] == name);
                }
                if affects(now, name) {
                    let k = choose|k: int| #![trigger now[k]]
                        0 <= k < now.len() && test_pending(now[k]) && without_heads(
                            now[k].id@,
                            "test:"@,
                        ) == name;
                    if k < i {
                        assert(results@.take(i as int)[k] == now[k]);
                        assert(affects(results@.take(i as int), name));
                    }
                }
                if texts(names@).contains(name) {
                    let k = texts(names@).index_of(name);
                    if k < before.len() {
                        assert(before[k] == name);
                        assert(before.contains(name));
                    }
                }
            }
        }
        i += 1;
    }
    assert(results@.take(i as int) =~= results@);
    let ghost keep = |name: Seq<char>| affects(results@, name);
    let ghost given = texts(requested@);
    let mut out: Vec<String> = Vec::new();
    let mut j: usize = 0;
    proof {
        reveal(Seq::filter);
        assert(given.take(0).filter(keep) =~= Seq::empty());
    }
    while j < requested.len()
        invariant
            given == texts(requested@),
            keep == (|name: Seq<char>| affects(results@, name)),
            forall|name: Seq<char>| #[trigger]
                texts(names@).contains(name) <==> affects(results@, name),
            j <= requested@.len(),
            texts(out@) == given.take(j as int).filter(keep),
        decreases requested@.len() - j,
    {
        proof {
            assert(given.take(j + 1) =~= given.take(j as int).push(given[j as int]));
            given.take(j as int).lemma_filter_push(given[j as int], keep);
            assert(given[j as int] == requested@[j as int]@);
        }
        if lists(&names, &requested[j]) {
            out.push(copy(&requested[j]));
        }
        j += 1;
    }
    assert(given.take(j as int) =~= given);
    out
}

// ---------------------------------------------------------------------------
// Lines
// ---------------------------------------------------------------------------

/// What `--explain` says of an action, as a list of none or one.
pub open spec fn explained(r: ActionResult) -> Seq<Seq<char>> {
    match r.outcome {
        Outcome::Executed { reason, duration_ms } => seq!["  ran "@ + r.id@ + " :: "@ + reason@],
        Outcome::Cached => seq!["  cached "@ + r.id@],
        Outcome::Failed { reason, detail } => seq!["  failed "@ + r.id@ + " :: "@ + reason@],
        Outcome::Skipped { reason } => seq!["  skipped "@ + r.id@ + " :: "@ + reason@],
        _ => Seq::empty(),
    }
}

/// What `plan` says of an action, as a list of none or one.
pub open spec fn planned(r: ActionResult) -> Seq<Seq<char>> {
    match r.outcome {
        Outcome::WouldRun { reason } => seq!["would run "@ + r.id@ + " :: "@ + reason@],
        Outcome::MayRun { reason } => seq!["may run   "@ + r.id@ + " :: "@ + reason@],
        _ => Seq::empty(),
    }
}

/// What is said of the first `n` actions.
pub open spec fn all_said(
    results: Seq<ActionResult>,
    said: spec_fn(ActionResult) -> Seq<Seq<char>>,
    n: nat,
) -> Seq<Seq<char>>
    decreases n,
{
    if n == 0 {
        Seq::empty()
    } else {
        all_said(results, said, (n - 1) as nat) + said(results[n - 1])
    }
}

fn line(head: &str, id: &str, reason: &str) -> (r: String)
    ensures
        r@ == head@ + id@ + " :: "@ + reason@,
{
    let mut out = copy(head);
    out.append(id);
    out.append(" :: ");
    out.append(reason);
    out
}

/// The lines that `--explain` prints of a build.
pub fn explain_lines(results: &Vec<ActionResult>) -> (r: Vec<String>)
    ensures
        texts(r@) == all_said(results@, |x: ActionResult| explained(x), results@.len()),
{
    broadcast use group_texts;
    let ghost said = |x: ActionResult| explained(x);
    let mut out: Vec<String> = Vec::new();
    let mut i: usize = 0;
    while i < results.len()
        invariant
            said == (|x: ActionResult| explained(x)),
            i <= results@.len(),
            texts(out@) == all_said(results@, said, i as nat),
        decreases results@.len() - i,
    {
        let result = &results[i];
        let ghost was = texts(out@);
        let said_here = match &result.outcome {
            Outcome::Executed { reason, duration_ms } => Some(line("  ran ", &result.id, reason)),
            Outcome::Cached => {
                let mut text = copy("  cached ");
                text.append(&result.id);
                Some(text)
            },
            Outcome::Failed { reason, detail } => Some(line("  failed ", &result.id, reason)),
            Outcome::Skipped { reason } => Some(line("  skipped ", &result.id, reason)),
            _ => None,
        };
        match said_here {
            Some(text) => {
                out.push(text);
                assert(texts(out@) =~= was + seq![text@]);
            },
            None => {
                assert(was + Seq::<Seq<char>>::empty() =~= was);
            },
        }
        assert(said(*result) == explained(*result));
        i += 1;
    }
    out
}

/// The lines that `plan` prints of the actions of a dry run.
pub fn plan_lines(results: &Vec<ActionResult>) -> (r: Vec<String>)
    ensures
        texts(r@) == all_said(results@, |x: ActionResult| planned(x), results@.len()),
{
    broadcast use group_texts;
    let ghost said = |x: ActionResult| planned(x);
    let mut out: Vec<String> = Vec::new();
    let mut i: usize = 0;
    while i < results.len()
        invariant
            said == (|x: ActionResult| planned(x)),
            i <= results@.len(),
            texts(out@) == all_said(results@, said, i as nat),
        decreases results@.len() - i,
    {
        let result = &results[i];
        let ghost was = texts(out@);
        let said_here = match &result.outcome {
            Outcome::WouldRun { reason } => Some(line("would run ", &result.id, reason)),
            Outcome::MayRun { reason } => Some(line("may run   ", &result.id, reason)),
            _ => None,
        };
        match said_here {
            Some(text) => {
                out.push(text);
                assert(texts(out@) =~= was + seq![text@]);
            },
            None => {
                assert(was + Seq::<Seq<char>>::empty() =~= was);
            },
        }
        assert(said(*result) == planned(*result));
        i += 1;
    }
    out
}

/// The first line of a failure's details, or `failed`.
pub open spec fn failure_line(r: ActionResult) -> Seq<char> {
    let detail = lines_of(r.outcome->Failed_detail@);
    "  "@ + r.id@ + ": "@ + (if detail.len() > 0 {
        detail[0]
    } else {
        "failed"@
    })
}

/// The lines of the first ten failures among the first `n` actions.
pub open spec fn failures(results: Seq<ActionResult>, n: nat) -> Seq<Seq<char>>
    decreases n,
{
    if n == 0 {
        Seq::empty()
    } else {
        let before = failures(results, (n - 1) as nat);
        if results[n - 1].outcome is Failed && before.len() < 10 {
            before.push(failure_line(results[n - 1]))
        } else {
            before
        }
    }
}

/// The lines of the first ten failures.
pub fn failure_lines(results: &Vec<ActionResult>) -> (r: Vec<String>)
    ensures
        texts(r@) == failures(results@, results@.len()),
{
    broadcast use group_texts;
    let mut out: Vec<String> = Vec::new();
    let mut i: usize = 0;
    while i < results.len()
        invariant
            i <= results@.len(),
            texts(out@) == failures(results@, i as nat),
        decreases results@.len() - i,
    {
        assert(texts(out@).len() == out@.len());
        let result = &results[i];
        if out.len() < 10 {
            if let Outcome::Failed { reason, detail } = &result.outcome {
                let all = lines(detail);
                assert(texts(all@).len() == all@.len());
                let mut text = copy("  ");
                text.append(&result.id);
                text.append(": ");
                if all.len() > 0 {
                    assert(texts(all@)[0] == all@[0]@);
                    text.append(&all[0]);
                } else {
                    text.append("failed");
                }
                out.push(text);
            }
        }
        i += 1;
    }
    out
}

/// How many of the first `n` actions are such.
pub open spec fn count(results: Seq<ActionResult>, such: spec_fn(ActionResult) -> bool, n: nat) -> nat
    decreases n,
{
    if n == 0 {
        0
    } else {
        count(results, such, (n - 1) as nat) + if such(results[n - 1]) {
            1nat
        } else {
            0nat
        }
    }
}

/// How many actions came out each way.
#[derive(Debug, Clone, Copy, PartialEq, Eq, Structural)]
pub struct Counts {
    pub executed: usize,
    pub cached: usize,
    pub failed: usize,
    pub skipped: usize,
    pub would_run: usize,
    pub may_run: usize,
}

/// The counts are those of the first `n` actions.
pub open spec fn counts_of(c: Counts, results: Seq<ActionResult>, n: nat) -> bool {
    &&& c.executed == count(results, |x: ActionResult| x.outcome is Executed, n)
    &&& c.cached == count(results, |x: ActionResult| x.outcome is Cached, n)
    &&& c.failed == count(results, |x: ActionResult| x.outcome is Failed, n)
    &&& c.skipped == count(results, |x: ActionResult| x.outcome is Skipped, n)
    &&& c.would_run == count(results, |x: ActionResult| x.outcome is WouldRun, n)
    &&& c.may_run == count(results, |x: ActionResult| x.outcome is MayRun, n)
}

/// Counts the actions by what became of them.
pub fn count_outcomes(results: &Vec<ActionResult>) -> (r: Counts)
    ensures
        counts_of(r, results@, results@.len()),
{
    let mut c = Counts {
        executed: 0,
        cached: 0,
        failed: 0,
        skipped: 0,
        would_run: 0,
        may_run: 0,
    };
    let mut i: usize = 0;
    while i < results.len()
        invariant
            i <= results@.len(),
            counts_of(c, results@, i as nat),
            c.executed <= i && c.cached <= i && c.failed <= i && c.skipped <= i && c.would_run <= i
                && c.may_run <= i,
        decreases results@.len() - i,
    {
        match &results[i].outcome {
            Outcome::Executed { reason, duration_ms } => {
                c.executed = c.executed + 1;
            },
            Outcome::Cached => {
                c.cached = c.cached + 1;
            },
            Outcome::Failed { reason, detail } => {
                c.failed = c.failed + 1;
            },
            Outcome::Skipped { reason } => {
                c.skipped = c.skipped + 1;
            },
            Outcome::WouldRun { reason } => {
                c.would_run = c.would_run + 1;
            },
            Outcome::MayRun { reason } => {
                c.may_run = c.may_run + 1;
            },
        }
        i += 1;
    }
    c
}

/// The line that `plan` ends with.
pub fn plan_summary(counts: Counts, total: usize) -> (r: String)
    ensures
        r@ == "plan: "@ + decimal(counts.would_run as nat) + " would run, "@ + decimal(
            counts.may_run as nat,
        ) + " may run, "@ + decimal(counts.cached as nat) + " cached ("@ + decimal(total as nat)
            + " actions)"@,
{
    let mut out = copy("plan: ");
    out.append(&number(counts.would_run as u128));
    out.append(" would run, ");
    out.append(&number(counts.may_run as u128));
    out.append(" may run, ");
    out.append(&number(counts.cached as u128));
    out.append(" cached (");
    out.append(&number(total as u128));
    out.append(" actions)");
    out
}

/// The line that a build of tests ends with: what was run passed, and what
/// failed or was skipped failed.
pub fn test_summary(results: &Vec<ActionResult>) -> (r: String)
    ensures
        r@ == "tests: "@ + decimal(
            count(
                results@,
                |x: ActionResult| is_test(x) && x.outcome is Executed,
                results@.len(),
            ),
        ) + " passed, "@ + decimal(
            count(
                results@,
                |x: ActionResult| is_test(x) && (x.outcome is Failed || x.outcome is Skipped),
                results@.len(),
            ),
        ) + " failed, "@ + decimal(
            count(
                results@,
                |x: ActionResult| is_test(x) && x.outcome is Cached,
                results@.len(),
            ),
        ) + " cached"@,
{
    let ghost ran = |x: ActionResult| is_test(x) && x.outcome is Executed;
    let ghost lost = |x: ActionResult|
        is_test(x) && (x.outcome is Failed || x.outcome is Skipped);
    let ghost kept = |x: ActionResult| is_test(x) && x.outcome is Cached;
    let mut passed: usize = 0;
    let mut failed: usize = 0;
    let mut cached: usize = 0;
    let mut i: usize = 0;
    while i < results.len()
        invariant
            ran == (|x: ActionResult| is_test(x) && x.outcome is Executed),
            lost == (|x: ActionResult|
                is_test(x) && (x.outcome is Failed || x.outcome is Skipped)),
            kept == (|x: ActionResult| is_test(x) && x.outcome is Cached),
            i <= results@.len(),
            passed <= i && failed <= i && cached <= i,
            passed == count(results@, ran, i as nat),
            failed == count(results@, lost, i as nat),
            cached == count(results@, kept, i as nat),
        decreases results@.len() - i,
    {
        let result = &results[i];
        if starts_with(&result.id, "test:") {
            match &result.outcome {
                Outcome::Executed { reason, duration_ms } => {
                    passed += 1;
                },
                Outcome::Cached => {
                    cached += 1;
                },
                Outcome::Failed { reason, detail } => {
                    failed += 1;
                },
                Outcome::Skipped { reason } => {
                    failed += 1;
                },
                _ => {},
            }
        }
        i += 1;
    }
    let mut out = copy("tests: ");
    out.append(&number(passed as u128));
    out.append(" passed, ");
    out.append(&number(failed as u128));
    out.append(" failed, ");
    out.append(&number(cached as u128));
    out.append(" cached");
    out
}

/// The exit code of a build: 130 where it was cancelled, else whether it
/// succeeded.
pub fn exit_code(cancelled: bool, success: bool) -> (r: i32)
    ensures
        r == (if cancelled {
            130int
        } else if success {
            0
        } else {
            1
        }),
{
    if cancelled {
        130
    } else if success {
        0
    } else {
        1
    }
}

/// The exit code of builds for several platforms: the highest of theirs.
pub fn worst_code(codes: &Vec<i32>) -> (r: i32)
    ensures
        codes@.len() == 0 ==> r == 0,
        codes@.len() > 0 ==> codes@.contains(r) && forall|k: int|
            0 <= k < codes@.len() ==> #[trigger] codes@[k] <= r,
{
    if codes.len() == 0 {
        return 0;
    }
    let mut worst: i32 = codes[0];
    let mut i: usize = 1;
    assert(codes@[0] == worst);
    while i < codes.len()
        invariant
            1 <= i <= codes@.len(),
            codes@.contains(worst),
            forall|k: int| 0 <= k < i ==> #[trigger] codes@[k] <= worst,
        decreases codes@.len() - i,
    {
        if codes[i] > worst {
            worst = codes[i];
            assert(codes@[i as int] == worst);
        }
        i += 1;
    }
    worst
}

// ---------------------------------------------------------------------------
// Traces
// ---------------------------------------------------------------------------

/// An action on the time line, in microseconds.
#[derive(Debug)]
pub struct TraceEvent {
    pub name: String,
    pub id: String,
    pub ts: u64,
    pub dur: u64,
}

/// How long an action ran, in microseconds.
pub open spec fn micros(r: ActionResult) -> nat {
    match r.outcome {
        Outcome::Executed { reason, duration_ms } => duration_ms as nat * 1000,
        _ => 0,
    }
}

/// How long the first `n` actions ran, in microseconds.
pub open spec fn total_micros(results: Seq<ActionResult>, n: nat) -> nat
    decreases n,
{
    if n == 0 {
        0
    } else {
        total_micros(results, (n - 1) as nat) + micros(results[n - 1])
    }
}

/// An action on the time line.
pub struct Traced {
    pub name: Seq<char>,
    pub id: Seq<char>,
    pub ts: nat,
    pub dur: nat,
}

/// The executed ones of the first `n` actions on the time line, one behind
/// the other.
pub open spec fn traced(results: Seq<ActionResult>, n: nat) -> Seq<Traced>
    decreases n,
{
    if n == 0 {
        Seq::empty()
    } else {
        let before = traced(results, (n - 1) as nat);
        let r = results[n - 1];
        if r.outcome is Executed {
            before.push(
                Traced {
                    name: r.desc@,
                    id: r.id@,
                    ts: total_micros(results, (n - 1) as nat),
                    dur: micros(r),
                },
            )
        } else {
            before
        }
    }
}

/// Events on the time line.
pub open spec fn trace_views(events: Seq<TraceEvent>) -> Seq<Traced> {
    Seq::new(
        events.len(),
        |i: int|
            Traced {
                name: events[i].name@,
                id: events[i].id@,
                ts: events[i].ts as nat,
                dur: events[i].dur as nat,
            },
    )
}

proof fn micros_grow(results: Seq<ActionResult>, k: nat, n: nat)
    requires
        k <= n,
    ensures
        total_micros(results, k) <= total_micros(results, n),
    decreases n - k,
{
    if k < n {
        micros_grow(results, k + 1, n);
    }
}

/// The executed actions on the time line, one behind the other.
pub fn trace_events(results: &Vec<ActionResult>) -> (r: Vec<TraceEvent>)
    requires
        total_micros(results@, results@.len()) <= u64::MAX,
    ensures
        trace_views(r@) == traced(results@, results@.len()),
{
    let mut out: Vec<TraceEvent> = Vec::new();
    let mut ts: u64 = 0;
    let mut i: usize = 0;
    assert(trace_views(out@) =~= Seq::empty());
    while i < results.len()
        invariant
            total_micros(results@, results@.len()) <= u64::MAX,
            i <= results@.len(),
            ts == total_micros(results@, i as nat),
            trace_views(out@) == traced(results@, i as nat),
        decreases results@.len() - i,
    {
        let result = &results[i];
        proof {
            micros_grow(results@, (i + 1) as nat, results@.len());
        }
        if let Outcome::Executed { reason, duration_ms } = &result.outcome {
            let ghost was = trace_views(out@);
            let dur: u64 = *duration_ms * 1000;
            out.push(TraceEvent { name: copy(&result.desc), id: copy(&result.id), ts, dur });
            assert(trace_views(out@) =~= was.push(
                Traced {
                    name: result.desc@,
                    id: result.id@,
                    ts: ts as nat,
                    dur: dur as nat,
                },
            ));
            ts = ts + dur;
        }
        i += 1;
    }
    out
}


/// Whether the executed actions have their place on a time line.
pub fn trace_fits(results: &Vec<ActionResult>) -> (r: bool)
    ensures
        r == (total_micros(results@, results@.len()) <= u64::MAX),
{
    let mut total: u64 = 0;
    let mut i: usize = 0;
    while i < results.len()
        invariant
            i <= results@.len(),
            total == total_micros(results@, i as nat),
        decreases results@.len() - i,
    {
        proof {
            micros_grow(results@, (i + 1) as nat, results@.len());
        }
        if let Outcome::Executed { reason, duration_ms } = &results[i].outcome {
            match duration_ms.checked_mul(1000) {
                None => {
                    return false;
                },
                Some(dur) => match total.checked_add(dur) {
                    None => {
                        return false;
                    },
                    Some(sum) => {
                        total = sum;
                    },
                },
            }
        }
        i += 1;
    }
    true
}

/// An event in the format of Chrome's trace viewer.
pub open spec fn event_tree(e: TraceEvent) -> JsonText {
    JsonText::Object(
        seq![
            ("name"@, JsonText::Text(e.name@)),
            ("cat"@, JsonText::Text("action"@)),
            ("ph"@, JsonText::Text("X"@)),
            ("pid"@, JsonText::Number(1)),
            ("tid"@, JsonText::Number(1)),
            ("ts"@, JsonText::Number(e.ts as nat)),
            ("dur"@, JsonText::Number(e.dur as nat)),
            ("args"@, JsonText::Object(seq![("id"@, JsonText::Text(e.id@))])),
        ],
    )
}

/// A time line in the format of Chrome's trace viewer.
pub open spec fn trace_tree(events: Seq<TraceEvent>) -> JsonText {
    JsonText::Object(
        seq![
            (
                "traceEvents"@,
                JsonText::List(Seq::new(events.len(), |i: int| event_tree(events[i]))),
            ),
        ],
    )
}

fn event_json(e: &TraceEvent) -> (r: Json)
    ensures
        tree(r) == event_tree(*e),
{
    let mut args: Vec<Member> = Vec::new();
    add_member(&mut args, "id", text(&e.id));
    assert(members(args@) =~= seq![("id"@, JsonText::Text(e.id@))]);
    let mut v: Vec<Member> = Vec::new();
    add_member(&mut v, "name", text(&e.name));
    add_member(&mut v, "cat", text("action"));
    add_member(&mut v, "ph", text("X"));
    add_member(&mut v, "pid", Json::Number(1));
    add_member(&mut v, "tid", Json::Number(1));
    add_member(&mut v, "ts", Json::Number(e.ts));
    add_member(&mut v, "dur", Json::Number(e.dur));
    add_member(&mut v, "args", object(args));
    assert(members(v@) =~= event_tree(*e)->Object_0);
    object(v)
}

/// A time line in the format of Chrome's trace viewer.
pub fn trace_file(events: &Vec<TraceEvent>) -> (r: Json)
    ensures
        tree(r) == trace_tree(events@),
{
    let ghost all = Seq::new(events@.len(), |i: int| event_tree(events@[i]));
    let mut out: Vec<Json> = Vec::new();
    let mut i: usize = 0;
    while i < events.len()
        invariant
            all == Seq::new(events@.len(), |i: int| event_tree(events@[i])),
            i <= events@.len(),
            out@.len() == i,
            forall|k: int| 0 <= k < i ==> tree(#[trigger] out@[k]) == all[k],
        decreases events@.len() - i,
    {
        out.push(event_json(&events[i]));
        i += 1;
    }
    assert(trees(out@) =~= all);
    let mut v: Vec<Member> = Vec::new();
    add_member(&mut v, "traceEvents", list(out));
    assert(members(v@) =~= seq![("traceEvents"@, JsonText::List(all))]);
    object(v)
}

// ---------------------------------------------------------------------------
// Laws
// ---------------------------------------------------------------------------

/// What is left once `head` was taken off.
proof fn one_head(name: Seq<char>, head: Seq<char>)
    requires
        head.len() > 0,
        !begins(name, head),
    ensures
        begins(head + name, head),
        without_heads(head + name, head) == name,
{
    let s = head + name;
    reveal_with_fuel(without_heads, 2);
    assert(s.subrange(0, head.len() as int) =~= head);
    assert(s.skip(head.len() as int) =~= name);
}

/// A text ends with what is left of it once every `head` was taken off.
proof fn heads_before(s: Seq<char>, head: Seq<char>)
    ensures
        ends(s, without_heads(s, head)),
        head.len() > 0 ==> !begins(without_heads(s, head), head),
    decreases s.len(),
{
    let left = without_heads(s, head);
    if head.len() > 0 && begins(s, head) {
        let rest = s.skip(head.len() as int);
        heads_before(rest, head);
        assert(s.subrange(s.len() - left.len(), s.len() as int) =~= rest.subrange(
            rest.len() - left.len(),
            rest.len() as int,
        ));
    } else {
        assert(s.subrange(0, s.len() as int) =~= s);
    }
}

/// A test that was requested, and that would run in a dry run or may run, is
/// among those that a change affects.
pub proof fn pending_test_is_affected(
    requested: Vec<String>,
    results: Vec<ActionResult>,
    r: Vec<String>,
    name: Seq<char>,
    i: int,
)
    requires
        call_ensures(affected_tests, (&requested, &results), r),
        texts(requested@).contains(name),
        !begins(name, "test:"@),
        0 <= i < results@.len(),
        results@[i].id@ == "test:"@ + name,
        results@[i].outcome is WouldRun || results@[i].outcome is MayRun,
    ensures
        texts(r@).contains(name),
{
    reveal_strlit("test:");
    one_head(name, "test:"@);
    let keep = |name: Seq<char>| affects(results@, name);
    assert(test_pending(results@[i]));
    assert(keep(name));
    let k = texts(requested@).index_of(name);
    texts(requested@).lemma_filter_contains(keep, k);
}

/// The tests that a change affects were requested, each has an action among
/// those that would or may run, and they stand in the order in which they were
/// requested.
pub proof fn affected_test_is_pending(
    requested: Vec<String>,
    results: Vec<ActionResult>,
    r: Vec<String>,
    name: Seq<char>,
)
    requires
        call_ensures(affected_tests, (&requested, &results), r),
        texts(r@).contains(name),
    ensures
        texts(requested@).contains(name),
        exists|i: int| #![trigger results@[i]]
            0 <= i < results@.len() && begins(results@[i].id@, "test:"@) && ends(
                results@[i].id@,
                name,
            ) && (results@[i].outcome is WouldRun || results@[i].outcome is MayRun),
        texts(r@).len() <= requested@.len(),
{
    let keep = |name: Seq<char>| affects(results@, name);
    let all = texts(requested@);
    all.lemma_filter_contains_rev(keep, name);
    let k = all.filter(keep).index_of(name);
    all.lemma_filter_pred(keep, k);
    all.lemma_filter_len(keep);
    assert(affects(results@, name));
    let i = choose|i: int| #![trigger results@[i]]
        0 <= i < results@.len() && test_pending(results@[i]) && without_heads(
            results@[i].id@,
            "test:"@,
        ) == name;
    heads_before(results@[i].id@, "test:"@);
}

// ---------------------------------------------------------------------------
// What the lists hold
// ---------------------------------------------------------------------------

proof fn test_names_are(g: BuildGraph, n: nat, name: Seq<char>)
    requires
        n <= g.targets.values@.len(),
    ensures
        test_names(g, n).contains(name) <==> exists|i: int|
            0 <= i < n && (#[trigger] g.targets.values@[i]).name@ == name && (
            g.targets.values@[i].kind == TargetKind::CcTest || g.targets.values@[i].kind
                == TargetKind::Test),
    decreases n,
{
    if n > 0 {
        let less = (n - 1) as nat;
        test_names_are(g, less, name);
        let before = test_names(g, less);
        let now = test_names(g, n);
        let t = g.targets.values@[n - 1];
        if before.contains(name) {
            assert(now[before.index_of(name)] == name);
        }
        if t.kind.tests() && t.name@ == name {
            assert(now[now.len() - 1] == name);
        }
        if now.contains(name) {
            let k = now.index_of(name);
            if k < before.len() {
                assert(before[k] == name);
            } else {
                assert(t.name@ == name);
            }
        }
    }
}

/// Where a build of tests names none, or asks for all, it is about every target
/// that is a test and about no other. Otherwise it is about what was named, and
/// where nothing was named about the default targets.
pub proof fn selection_is_what_was_asked(
    g: BuildGraph,
    request: BuildRequest,
    names: Vec<String>,
    name: Seq<char>,
)
    requires
        g.wf(),
        call_ensures(
            select_targets,
            (&g, &request),
            Ok::<Vec<String>, SelectError>(names),
        ),
    ensures
        request.test_mode && (request.all || request.targets@.len() == 0) ==> (texts(
            names@,
        ).contains(name) <==> exists|i: int|
            0 <= i < g.targets.values@.len() && (#[trigger] g.targets.values@[i]).name@ == name && (
            g.targets.values@[i].kind == TargetKind::CcTest || g.targets.values@[i].kind
                == TargetKind::Test)),
        !(request.test_mode && (request.all || request.targets@.len() == 0))
            && request.targets@.len() > 0 ==> texts(names@) == texts(request.targets@),
        !request.test_mode && request.targets@.len() == 0 ==> texts(names@) == texts(
            g.default_targets@,
        ),
        request.test_mode ==> names@.len() > 0 && forall|k: int|
            0 <= k < names@.len() ==> ({
                let kind = g.targets.at((#[trigger] names@[k])@).kind;
                kind == TargetKind::CcTest || kind == TargetKind::Test
            }),
{
    test_names_are(g, g.targets.values@.len(), name);
    assert(texts(request.targets@).len() == request.targets@.len());
    assert(texts(names@).len() == names@.len());
}

/// A list of all that is said holds what is said of each action, and nothing
/// else.
proof fn said_of_each(
    results: Seq<ActionResult>,
    said: spec_fn(ActionResult) -> Seq<Seq<char>>,
    n: nat,
    x: Seq<char>,
)
    requires
        n <= results.len(),
    ensures
        all_said(results, said, n).contains(x) <==> exists|i: int|
            0 <= i < n && said(#[trigger] results[i]).contains(x),
    decreases n,
{
    if n > 0 {
        let less = (n - 1) as nat;
        said_of_each(results, said, less, x);
        let p = all_said(results, said, less);
        let q = said(results[n - 1]);
        if p.contains(x) {
            assert((p + q)[p.index_of(x)] == x);
        }
        if q.contains(x) {
            assert((p + q)[p.len() + q.index_of(x)] == x);
        }
        if (p + q).contains(x) {
            let k = (p + q).index_of(x);
            if k < p.len() {
                assert(p[k] == x);
            } else {
                assert(q[k - p.len()] == x);
            }
        }
    }
}

proof fn said_of_none(
    results: Seq<ActionResult>,
    said: spec_fn(ActionResult) -> Seq<Seq<char>>,
    n: nat,
)
    requires
        n <= results.len(),
        forall|i: int| 0 <= i < results.len() ==> said(#[trigger] results[i]).len() <= 1,
    ensures
        all_said(results, said, n).len() == results.take(n as int).filter(
            |x: ActionResult| said(x).len() == 1,
        ).len(),
    decreases n,
{
    let one = |x: ActionResult| said(x).len() == 1;
    if n == 0 {
        reveal(Seq::filter);
        assert(results.take(0) =~= Seq::empty());
    } else {
        let less = (n - 1) as nat;
        said_of_none(results, said, less);
        assert(results.take(n as int) =~= results.take(less as int).push(results[n - 1]));
        results.take(less as int).lemma_filter_push(results[n - 1], one);
    }
}

/// Every action that a build was about is explained, with its reason, and there
/// are no more lines than such actions.
pub proof fn every_action_is_explained(results: Vec<ActionResult>, r: Vec<String>, i: int)
    requires
        call_ensures(explain_lines, (&results,), r),
        0 <= i < results@.len(),
    ensures
        match results@[i].outcome {
            Outcome::Executed { reason, duration_ms } => texts(r@).contains(
                "  ran "@ + results@[i].id@ + " :: "@ + reason@,
            ),
            Outcome::Cached => texts(r@).contains("  cached "@ + results@[i].id@),
            Outcome::Failed { reason, detail } => texts(r@).contains(
                "  failed "@ + results@[i].id@ + " :: "@ + reason@,
            ),
            Outcome::Skipped { reason } => texts(r@).contains(
                "  skipped "@ + results@[i].id@ + " :: "@ + reason@,
            ),
            _ => true,
        },
        r@.len() == results@.filter(
            |x: ActionResult| !(x.outcome is WouldRun) && !(x.outcome is MayRun),
        ).len(),
{
    let said = |x: ActionResult| explained(x);
    let x = results@[i];
    let own = explained(x);
    if own.len() > 0 {
        said_of_each(results@, said, results@.len(), own[0]);
        assert(said(results@[i])[0] == own[0]);
        assert(said(results@[i]).contains(own[0]));
    }
    said_of_none(results@, said, results@.len());
    let one = |x: ActionResult| said(x).len() == 1;
    let told = |x: ActionResult| !(x.outcome is WouldRun) && !(x.outcome is MayRun);
    assert(one =~= told);
    assert(results@.take(results@.len() as int) =~= results@);
    assert(texts(r@).len() == r@.len());
}

/// A plan names every action that would run and every action that may run, with
/// its reason, and no other.
pub proof fn every_pending_action_is_planned(results: Vec<ActionResult>, r: Vec<String>, i: int)
    requires
        call_ensures(plan_lines, (&results,), r),
        0 <= i < results@.len(),
    ensures
        match results@[i].outcome {
            Outcome::WouldRun { reason } => texts(r@).contains(
                "would run "@ + results@[i].id@ + " :: "@ + reason@,
            ),
            Outcome::MayRun { reason } => texts(r@).contains(
                "may run   "@ + results@[i].id@ + " :: "@ + reason@,
            ),
            _ => true,
        },
        r@.len() == results@.filter(
            |x: ActionResult| x.outcome is WouldRun || x.outcome is MayRun,
        ).len(),
{
    let said = |x: ActionResult| planned(x);
    let x = results@[i];
    let own = planned(x);
    if own.len() > 0 {
        said_of_each(results@, said, results@.len(), own[0]);
        assert(said(results@[i])[0] == own[0]);
        assert(said(results@[i]).contains(own[0]));
    }
    said_of_none(results@, said, results@.len());
    let one = |x: ActionResult| said(x).len() == 1;
    let told = |x: ActionResult| x.outcome is WouldRun || x.outcome is MayRun;
    assert(one =~= told);
    assert(results@.take(results@.len() as int) =~= results@);
    assert(texts(r@).len() == r@.len());
}

proof fn failures_are(results: Seq<ActionResult>, n: nat, i: int)
    requires
        n <= results.len(),
        0 <= i < n,
        results[i].outcome is Failed,
    ensures
        failures(results, n).len() <= 10,
        failures(results, n).len() < 10 ==> failures(results, n).contains(failure_line(results[i])),
        failures(results, n).len() > 0,
    decreases n,
{
    let less = (n - 1) as nat;
    let before = failures(results, less);
    let now = failures(results, n);
    if i < less {
        failures_are(results, less, i);
        if before.len() < 10 {
            assert(now[before.index_of(failure_line(results[i]))] == failure_line(results[i]));
        }
    } else {
        failures_bounded(results, less);
        if before.len() < 10 {
            assert(now[now.len() - 1] == failure_line(results[i]));
        }
    }
}

proof fn failures_bounded(results: Seq<ActionResult>, n: nat)
    ensures
        failures(results, n).len() <= 10,
    decreases n,
{
    if n > 0 {
        failures_bounded(results, (n - 1) as nat);
    }
}

/// The summary of failures has ten lines at most. Where it has fewer, every
/// failure has its line: the action and the first line of its details, or
/// `failed` where there are none.
pub proof fn every_failure_is_shown(results: Vec<ActionResult>, r: Vec<String>, i: int)
    requires
        call_ensures(failure_lines, (&results,), r),
        0 <= i < results@.len(),
        results@[i].outcome is Failed,
    ensures
        0 < r@.len() <= 10,
        r@.len() < 10 ==> texts(r@).contains(
            "  "@ + results@[i].id@ + ": "@ + (if lines_of(
                results@[i].outcome->Failed_detail@,
            ).len() > 0 {
                lines_of(results@[i].outcome->Failed_detail@)[0]
            } else {
                "failed"@
            }),
        ),
{
    failures_are(results@, results@.len(), i);
    assert(texts(r@).len() == r@.len());
}

proof fn count_is_filter(results: Seq<ActionResult>, such: spec_fn(ActionResult) -> bool, n: nat)
    requires
        n <= results.len(),
    ensures
        count(results, such, n) == results.take(n as int).filter(such).len(),
    decreases n,
{
    if n == 0 {
        reveal(Seq::filter);
        assert(results.take(0) =~= Seq::empty());
    } else {
        let less = (n - 1) as nat;
        count_is_filter(results, such, less);
        assert(results.take(n as int) =~= results.take(less as int).push(results[n - 1]));
        results.take(less as int).lemma_filter_push(results[n - 1], such);
    }
}

/// Every action is counted once, under what became of it.
pub proof fn counts_add_up(results: Vec<ActionResult>, c: Counts)
    requires
        call_ensures(count_outcomes, (&results,), c),
    ensures
        c.executed == results@.filter(|x: ActionResult| x.outcome is Executed).len(),
        c.cached == results@.filter(|x: ActionResult| x.outcome is Cached).len(),
        c.failed == results@.filter(|x: ActionResult| x.outcome is Failed).len(),
        c.skipped == results@.filter(|x: ActionResult| x.outcome is Skipped).len(),
        c.would_run == results@.filter(|x: ActionResult| x.outcome is WouldRun).len(),
        c.may_run == results@.filter(|x: ActionResult| x.outcome is MayRun).len(),
        c.executed + c.cached + c.failed + c.skipped + c.would_run + c.may_run == results@.len(),
{
    let n = results@.len();
    assert(results@.take(n as int) =~= results@);
    count_is_filter(results@, |x: ActionResult| x.outcome is Executed, n);
    count_is_filter(results@, |x: ActionResult| x.outcome is Cached, n);
    count_is_filter(results@, |x: ActionResult| x.outcome is Failed, n);
    count_is_filter(results@, |x: ActionResult| x.outcome is Skipped, n);
    count_is_filter(results@, |x: ActionResult| x.outcome is WouldRun, n);
    count_is_filter(results@, |x: ActionResult| x.outcome is MayRun, n);
    kinds_add_up(results@, n);
}

proof fn kinds_add_up(results: Seq<ActionResult>, n: nat)
    ensures
        count(results, |x: ActionResult| x.outcome is Executed, n) + count(
            results,
            |x: ActionResult| x.outcome is Cached,
            n,
        ) + count(results, |x: ActionResult| x.outcome is Failed, n) + count(
            results,
            |x: ActionResult| x.outcome is Skipped,
            n,
        ) + count(results, |x: ActionResult| x.outcome is WouldRun, n) + count(
            results,
            |x: ActionResult| x.outcome is MayRun,
            n,
        ) == n,
    decreases n,
{
    if n > 0 {
        kinds_add_up(results, (n - 1) as nat);
    }
}

/// The last line of a build of tests gives how many tests passed, how many failed
/// or were skipped, and how many were cached.
pub proof fn tests_are_summed_up(results: Vec<ActionResult>, r: String)
    requires
        call_ensures(test_summary, (&results,), r),
    ensures
        r@ == "tests: "@ + decimal(
            results@.filter(
                |x: ActionResult| begins(x.id@, "test:"@) && x.outcome is Executed,
            ).len(),
        ) + " passed, "@ + decimal(
            results@.filter(
                |x: ActionResult|
                    begins(x.id@, "test:"@) && (x.outcome is Failed || x.outcome is Skipped),
            ).len(),
        ) + " failed, "@ + decimal(
            results@.filter(
                |x: ActionResult| begins(x.id@, "test:"@) && x.outcome is Cached,
            ).len(),
        ) + " cached"@,
{
    let n = results@.len();
    assert(results@.take(n as int) =~= results@);
    let ran = |x: ActionResult| is_test(x) && x.outcome is Executed;
    let lost = |x: ActionResult| is_test(x) && (x.outcome is Failed || x.outcome is Skipped);
    let kept = |x: ActionResult| is_test(x) && x.outcome is Cached;
    count_is_filter(results@, ran, n);
    count_is_filter(results@, lost, n);
    count_is_filter(results@, kept, n);
    assert(ran =~= (|x: ActionResult| begins(x.id@, "test:"@) && x.outcome is Executed));
    assert(lost =~= (|x: ActionResult|
        begins(x.id@, "test:"@) && (x.outcome is Failed || x.outcome is Skipped)));
    assert(kept =~= (|x: ActionResult| begins(x.id@, "test:"@) && x.outcome is Cached));
}

proof fn traced_are(results: Seq<ActionResult>, n: nat)
    requires
        n <= results.len(),
    ensures
        ({
            let ran = results.take(n as int).filter(|x: ActionResult| x.outcome is Executed);
            let t = traced(results, n);
            &&& t.len() == ran.len()
            &&& forall|k: int|
                #![trigger t[k]]
                0 <= k < t.len() ==> t[k].name == ran[k].desc@ && t[k].id == ran[k].id@ && t[k].dur
                    == ran[k].outcome->Executed_duration_ms * 1000 && t[k].ts == (if k == 0 {
                    0
                } else {
                    t[k - 1].ts + t[k - 1].dur
                }) && ran[k].outcome is Executed
            &&& total_micros(results, n) == (if t.len() == 0 {
                0
            } else {
                t.last().ts + t.last().dur
            })
        }),
    decreases n,
{
    let such = |x: ActionResult| x.outcome is Executed;
    if n == 0 {
        reveal(Seq::filter);
        assert(results.take(0) =~= Seq::empty());
    } else {
        let less = (n - 1) as nat;
        traced_are(results, less);
        assert(results.take(n as int) =~= results.take(less as int).push(results[n - 1]));
        results.take(less as int).lemma_filter_push(results[n - 1], such);
        let before = traced(results, less);
        let t = traced(results, n);
        let old_ran = results.take(less as int).filter(such);
        let ran = results.take(n as int).filter(such);
        assert forall|k: int|
            #![trigger t[k]]
            0 <= k < t.len() implies t[k].name == ran[k].desc@ && t[k].id == ran[k].id@ && t[k].dur
            == ran[k].outcome->Executed_duration_ms * 1000 && t[k].ts == (if k == 0 {
            0
        } else {
            t[k - 1].ts + t[k - 1].dur
        }) && ran[k].outcome is Executed by {
            if k < before.len() {
                assert(t[k] == before[k]);
                assert(ran[k] == old_ran[k]);
                if k > 0 {
                    assert(t[k - 1] == before[k - 1]);
                }
            }
        }
    }
}

/// On the time line every executed action has its event, in order: it begins
/// where the one before ends, the first at nought, and lasts as long as the action
/// ran.
pub proof fn events_follow_each_other(results: Vec<ActionResult>, r: Vec<TraceEvent>)
    requires
        call_ensures(trace_events, (&results,), r),
    ensures
        ({
            let ran = results@.filter(|x: ActionResult| x.outcome is Executed);
            &&& r@.len() == ran.len()
            &&& forall|k: int|
                #![trigger r@[k]]
                0 <= k < r@.len() ==> r@[k].name@ == ran[k].desc@ && r@[k].id@ == ran[k].id@
                    && r@[k].dur == ran[k].outcome->Executed_duration_ms * 1000 && r@[k].ts == (
                if k == 0 {
                    0
                } else {
                    r@[k - 1].ts + r@[k - 1].dur
                })
        }),
{
    let n = results@.len();
    assert(results@.take(n as int) =~= results@);
    traced_are(results@, n);
    let t = traced(results@, n);
    assert(trace_views(r@).len() == r@.len());
    assert forall|k: int| #![trigger r@[k]] 0 <= k < r@.len() implies t[k].name == r@[k].name@
        && t[k].id == r@[k].id@ && t[k].ts == r@[k].ts && t[k].dur == r@[k].dur by {
        assert(trace_views(r@)[k] == t[k]);
    }
    assert forall|k: int|
        #![trigger r@[k]]
        0 <= k < r@.len() implies r@[k].ts == (if k == 0 {
        0
    } else {
        r@[k - 1].ts + r@[k - 1].dur
    }) by {
        assert(t[k].ts == r@[k].ts);
        if k > 0 {
            assert(t[k - 1].ts == r@[k - 1].ts && t[k - 1].dur == r@[k - 1].dur);
        }
    }
    assert forall|k: int| #![trigger r@[k]] 0 <= k < r@.len() implies t[k].dur == r@[k].dur by {
        assert(t[k].dur == r@[k].dur);
    }
}

/// A build that was cancelled, one that failed and one that succeeded are told
/// apart by their codes; of several builds the worst counts.
pub proof fn codes_tell_builds_apart(
    success: bool,
    cancelled: i32,
    failed: i32,
    good: i32,
    codes: Vec<i32>,
    worst: i32,
    k: int,
)
    requires
        call_ensures(exit_code, (true, success), cancelled),
        call_ensures(exit_code, (false, false), failed),
        call_ensures(exit_code, (false, true), good),
        call_ensures(worst_code, (&codes,), worst),
        0 <= k < codes@.len(),
    ensures
        good == 0 && failed == 1 && cancelled == 130,
        codes@[k] <= worst && codes@.contains(worst),
{
}

proof fn test_names_mean(g: BuildGraph, n: nat, s: Seq<char>)
    requires
        n <= g.targets.values@.len(),
    ensures
        test_names(g, n).contains(s) <==> exists|i: int|
            0 <= i < n && (#[trigger] g.targets.values@[i]).kind.tests()
                && g.targets.values@[i].name@ == s,
    decreases n,
{
    if n > 0 {
        let less = (n - 1) as nat;
        test_names_mean(g, less, s);
        let before = test_names(g, less);
        let now = test_names(g, n);
        if before.contains(s) {
            assert(now[before.index_of(s)] == s);
        }
        if g.targets.values@[n - 1].kind.tests() {
            assert(now.last() == g.targets.values@[n - 1].name@);
            if now.contains(s) && s != now.last() {
                let k = now.index_of(s);
                assert(before[k] == s);
            }
        }
    }
}

/// The tests of a graph are its targets of a kind that is run as a test: all of
/// them, and nothing else.
pub proof fn every_test_is_listed(graph: BuildGraph, r: Vec<String>, s: Seq<char>)
    requires
        call_ensures(test_targets, (&graph,), r),
    ensures
        texts(r@).contains(s) <==> exists|i: int|
            0 <= i < graph.targets.values@.len() && (
            #[trigger] graph.targets.values@[i]).kind.tests() && graph.targets.values@[i].name@
                == s,
{
    test_names_mean(graph, graph.targets.values@.len(), s);
}

} // verus!
