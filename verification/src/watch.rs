//! Watching a workspace: which changes count, how they are gathered into sets,
//! and when a build or a process follows.

use vstd::prelude::*;
use vstd::string::*;

use crate::daemon::below;
use crate::graph::{ids_ok, paths_at, BuildGraph};
use crate::path_set::{has_path, paths_ascend, with_path, with_path_means, PathSet};
use crate::paths::{components, components_of, relative_to, starts_with_path, under};
use crate::request::{plain_request, BuildRequest};
use crate::text::{
    begins, copies, copy, decimal, extend, group_texts, number, same, starts_with, texts,
};

verus! {

/// What happened to files.
#[derive(Debug, Clone, Copy, PartialEq, Eq, Structural)]
pub enum FileEvent {
    Any,
    Access,
    Create,
    Modify,
    Remove,
    Other,
}

/// The event may have changed a file: anything but a read.
pub open spec fn may_change(kind: FileEvent) -> bool {
    kind != FileEvent::Access && kind != FileEvent::Other
}

/// Whether the event may have changed a file.
pub fn watch_event_changes_files(kind: FileEvent) -> (r: bool)
    ensures
        r == may_change(kind),
{
    match kind {
        FileEvent::Any | FileEvent::Create | FileEvent::Modify | FileEvent::Remove => true,
        FileEvent::Access | FileEvent::Other => false,
    }
}

/// What a build itself writes.
#[derive(Debug)]
pub struct WatchExclusions {
    pub outputs: Vec<String>,
    pub clean_dirs: Vec<String>,
}

/// Two paths have the same components.
pub open spec fn same_path(a: Seq<char>, b: Seq<char>) -> bool {
    components(a) == components(b)
}

/// A build writes the file at `relative`.
pub open spec fn written(x: WatchExclusions, relative: Seq<char>) -> bool {
    ||| exists|k: int| 0 <= k < x.outputs@.len() && same_path((#[trigger] x.outputs@[k])@, relative)
    ||| exists|k: int|
        0 <= k < x.clean_dirs@.len() && under(relative, (#[trigger] x.clean_dirs@[k])@)
}

/// Which changes count.
#[derive(Debug)]
pub enum WatchFilter {
    /// All but those of the build itself and of version control.
    Frost { exclusions: WatchExclusions },
    /// All but those of Bazel's links, of the build itself and of version
    /// control.
    Bazel,
}

/// A change of the file at `relative` counts.
pub open spec fn counts(filter: WatchFilter, relative: Seq<char>) -> bool {
    match filter {
        WatchFilter::Frost { exclusions } => relative.len() > 0 && !under(relative, ".frost"@)
            && !under(relative, ".git"@) && !written(exclusions, relative),
        WatchFilter::Bazel => {
            let parts = components(relative);
            parts.len() > 0 && parts[0] != ".git"@ && parts[0] != ".frost"@ && !begins(
                parts[0],
                "bazel-"@,
            )
        },
    }
}

/// Whether two paths have the same components.
fn is_same_path(a: &str, b: &str) -> (r: bool)
    ensures
        r == same_path(a@, b@),
{
    let x = components_of(a);
    let y = components_of(b);
    crate::daemon::same_lists(&x, &y)
}

/// A path relative to the root where it is under it; else as it is.
fn relative_path(root: &str, path: &str) -> (r: String)
    ensures
        r@ == below(path@, root@),
{
    match relative_to(path, root) {
        Some(relative) => relative,
        None => copy(path),
    }
}

fn is_written(x: &WatchExclusions, relative: &str) -> (r: bool)
    ensures
        r == written(*x, relative@),
{
    let mut i: usize = 0;
    while i < x.outputs.len()
        invariant
            i <= x.outputs@.len(),
            forall|k: int| 0 <= k < i ==> !same_path((#[trigger] x.outputs@[k])@, relative@),
        decreases x.outputs@.len() - i,
    {
        if is_same_path(&x.outputs[i], relative) {
            return true;
        }
        i += 1;
    }
    let mut j: usize = 0;
    while j < x.clean_dirs.len()
        invariant
            j <= x.clean_dirs@.len(),
            forall|k: int|
                0 <= k < x.outputs@.len() ==> !same_path((#[trigger] x.outputs@[k])@, relative@),
            forall|k: int| 0 <= k < j ==> !under(relative@, (#[trigger] x.clean_dirs@[k])@),
        decreases x.clean_dirs@.len() - j,
    {
        if starts_with_path(relative, &x.clean_dirs[j]) {
            return true;
        }
        j += 1;
    }
    false
}

/// The changed path relative to the root, where the change counts.
pub fn relevant_watch_path(root: &str, path: &str, exclusions: &WatchExclusions) -> (r: Option<
    String,
>)
    ensures
        match r {
            Some(relative) => relative@ == below(path@, root@) && counts(
                (WatchFilter::Frost { exclusions: *exclusions }),
                relative@,
            ),
            None => !counts(
                (WatchFilter::Frost { exclusions: *exclusions }),
                below(path@, root@),
            ),
        },
{
    let relative = relative_path(root, path);
    if relative.as_str().is_empty() || starts_with_path(&relative, ".frost") || starts_with_path(
        &relative,
        ".git",
    ) || is_written(exclusions, &relative) {
        return None;
    }
    Some(relative)
}

/// The changed path relative to the root of a Bazel workspace, where the
/// change counts.
pub fn relevant_bazel_watch_path(root: &str, path: &str) -> (r: Option<String>)
    ensures
        match r {
            Some(relative) => relative@ == below(path@, root@) && counts(
                WatchFilter::Bazel,
                relative@,
            ),
            None => !counts(WatchFilter::Bazel, below(path@, root@)),
        },
{
    let relative = relative_path(root, path);
    let parts = components_of(&relative);
    assert(texts(parts@).len() == parts@.len());
    if parts.len() == 0 {
        return None;
    }
    assert(texts(parts@)[0] == parts@[0]@);
    let first = &parts[0];
    if same(first, ".git") || same(first, ".frost") || starts_with(first, "bazel-") {
        return None;
    }
    Some(relative)
}

/// The paths of the outputs of the first `n` actions.
pub open spec fn all_outputs(g: BuildGraph, n: nat) -> Seq<Seq<char>>
    decreases n,
{
    if n == 0 {
        Seq::empty()
    } else {
        all_outputs(g, (n - 1) as nat) + paths_at(g.paths(), g.actions@[n - 1].outputs@)
    }
}

/// The clean directories of the first `n` actions.
pub open spec fn all_clean_dirs(g: BuildGraph, n: nat) -> Seq<Seq<char>>
    decreases n,
{
    if n == 0 {
        Seq::empty()
    } else {
        all_clean_dirs(g, (n - 1) as nat) + texts(g.actions@[n - 1].clean_dirs@)
    }
}

/// What the build of a graph itself writes.
pub fn watch_exclusions(graph: &BuildGraph) -> (r: WatchExclusions)
    requires
        graph.wf(),
    ensures
        texts(r.outputs@) == all_outputs(*graph, graph.actions@.len()),
        texts(r.clean_dirs@) == all_clean_dirs(*graph, graph.actions@.len()),
{
    broadcast use group_texts;
    let mut outputs: Vec<String> = Vec::new();
    let mut clean_dirs: Vec<String> = Vec::new();
    let mut a: usize = 0;
    while a < graph.actions.len()
        invariant
            graph.wf(),
            a <= graph.actions@.len(),
            texts(outputs@) == all_outputs(*graph, a as nat),
            texts(clean_dirs@) == all_clean_dirs(*graph, a as nat),
        decreases graph.actions@.len() - a,
    {
        let action = &graph.actions[a];
        extend(&mut outputs, &paths_of(graph, &action.outputs));
        extend(&mut clean_dirs, &action.clean_dirs);
        a += 1;
    }
    WatchExclusions { outputs, clean_dirs }
}

/// The paths of files.
pub fn paths_of(graph: &BuildGraph, ids: &Vec<usize>) -> (r: Vec<String>)
    requires
        ids_ok(graph.files@.len(), ids@),
    ensures
        texts(r@) == paths_at(graph.paths(), ids@),
{
    broadcast use group_texts;
    let mut out: Vec<String> = Vec::new();
    let mut i: usize = 0;
    while i < ids.len()
        invariant
            ids_ok(graph.files@.len(), ids@),
            i <= ids@.len(),
            texts(out@) =~= paths_at(graph.paths(), ids@).take(i as int),
        decreases ids@.len() - i,
    {
        let ghost all = paths_at(graph.paths(), ids@);
        assert(all.take(i + 1) =~= all.take(i as int).push(all[i as int]));
        assert(ids@[i as int] < graph.files@.len());
        out.push(copy(&graph.files[ids[i]].path));
        i += 1;
    }
    assert(texts(out@) =~= paths_at(graph.paths(), ids@));
    out
}

// ---------------------------------------------------------------------------
// Sets of changes
// ---------------------------------------------------------------------------

/// Changes that are being gathered, until none came for a while.
#[derive(Debug)]
pub struct Watch {
    pub filter: WatchFilter,
    pub changed: PathSet,
    /// When the set of changes is complete, in milliseconds of the caller's
    /// clock.
    pub deadline: u64,
    /// How long no change must come, in milliseconds.
    pub debounce: u64,
    /// How many sets of changes there have been.
    pub change_set: usize,
}

/// A set of changes with those that count among the first `n` of some paths.
pub open spec fn counting(
    changed: Seq<Seq<char>>,
    filter: WatchFilter,
    root: Seq<char>,
    paths: Seq<Seq<char>>,
    n: nat,
) -> Seq<Seq<char>>
    decreases n,
{
    if n == 0 {
        changed
    } else {
        let before = counting(changed, filter, root, paths, (n - 1) as nat);
        let relative = below(paths[n - 1], root);
        if counts(filter, relative) {
            with_path(before, relative)
        } else {
            before
        }
    }
}

/// A set of changes with those that count in an event.
pub open spec fn with_event(
    changed: Seq<Seq<char>>,
    filter: WatchFilter,
    kind: FileEvent,
    root: Seq<char>,
    paths: Seq<Seq<char>>,
) -> Seq<Seq<char>> {
    if may_change(kind) {
        counting(changed, filter, root, paths, paths.len())
    } else {
        changed
    }
}

/// A time later by some milliseconds, or the last there is.
pub open spec fn later(now: u64, millis: u64) -> u64 {
    if now + millis > u64::MAX {
        u64::MAX
    } else {
        (now + millis) as u64
    }
}

/// The lines that report a set of changes: how many, and the first four.
pub open spec fn change_lines(head: Seq<char>, change_set: nat, paths: Seq<Seq<char>>) -> Seq<
    Seq<char>,
> {
    let shown = if paths.len() < 4 {
        paths.len()
    } else {
        4
    };
    let lines = seq![
        head + decimal(change_set) + " · "@ + decimal(paths.len()) + " path"@ + (if paths.len()
            == 1 {
            ""@
        } else {
            "s"@
        }),
    ] + Seq::new(
        shown,
        |i: int|
            (if i + 1 == shown {
                "`-- "@
            } else {
                "|-- "@
            }) + paths[i],
    );
    if paths.len() > 4 {
        lines.push("    … and "@ + decimal((paths.len() - 4) as nat) + " more"@)
    } else {
        lines
    }
}

/// The words before the number of a set of changes.
pub open spec fn change_head(filter: WatchFilter) -> Seq<char> {
    match filter {
        WatchFilter::Frost { exclusions } => "frost: change #"@,
        WatchFilter::Bazel => "frost: Bazel change #"@,
    }
}

fn add_millis(now: u64, millis: u64) -> (r: u64)
    ensures
        r == later(now, millis),
{
    if millis > u64::MAX - now {
        u64::MAX
    } else {
        now + millis
    }
}

impl Watch {
    pub open spec fn wf(self) -> bool {
        self.changed.wf()
    }

    /// A watch that has seen nothing.
    pub fn new(filter: WatchFilter, debounce: u64) -> (r: Watch)
        ensures
            r.wf(),
            r.filter == filter,
            r.debounce == debounce,
            r.changed@ == Seq::<Seq<char>>::empty(),
            r.deadline == 0,
            r.change_set == 0,
    {
        Watch { filter, changed: PathSet::new(), deadline: 0, debounce, change_set: 0 }
    }

    /// Adds the changes that count in an event.
    fn gather(&mut self, kind: FileEvent, root: &str, paths: &Vec<String>)
        requires
            old(self).wf(),
        ensures
            final(self).wf(),
            final(self).changed@ == with_event(
                old(self).changed@,
                old(self).filter,
                kind,
                root@,
                texts(paths@),
            ),
            final(self).filter == old(self).filter,
            final(self).debounce == old(self).debounce,
            final(self).deadline == old(self).deadline,
            final(self).change_set == old(self).change_set,
    {
        let ghost was = self.changed@;
        let ghost names = texts(paths@);
        let ghost filter = self.filter;
        if !watch_event_changes_files(kind) {
            return;
        }
        let mut i: usize = 0;
        while i < paths.len()
            invariant
                names == texts(paths@),
                i <= paths@.len(),
                self.wf(),
                self.filter == filter,
                self.changed@ == counting(was, filter, root@, names, i as nat),
                self.filter == old(self).filter,
                self.debounce == old(self).debounce,
                self.deadline == old(self).deadline,
                self.change_set == old(self).change_set,
            decreases paths@.len() - i,
        {
            assert(names[i as int] == paths@[i as int]@);
            let relevant = match &self.filter {
                WatchFilter::Frost { exclusions } => relevant_watch_path(
                    root,
                    &paths[i],
                    exclusions,
                ),
                WatchFilter::Bazel => relevant_bazel_watch_path(root, &paths[i]),
            };
            if let Some(relative) = relevant {
                self.changed.insert(relative);
            }
            i += 1;
        }
    }

    /// Begins a set of changes with an event.
    pub fn begin(&mut self, kind: FileEvent, root: &str, paths: &Vec<String>, now: u64)
        requires
            old(self).wf(),
        ensures
            final(self).wf(),
            final(self).changed@ == with_event(
                Seq::empty(),
                old(self).filter,
                kind,
                root@,
                texts(paths@),
            ),
            final(self).deadline == later(now, old(self).debounce),
            final(self).filter == old(self).filter,
            final(self).debounce == old(self).debounce,
            final(self).change_set == old(self).change_set,
    {
        self.changed = PathSet::new();
        self.gather(kind, root, paths);
        self.deadline = add_millis(now, self.debounce);
    }

    /// Adds an event to the set of changes. A change that is new to the set
    /// makes the wait start anew.
    pub fn more(&mut self, kind: FileEvent, root: &str, paths: &Vec<String>, now: u64)
        requires
            old(self).wf(),
        ensures
            final(self).wf(),
            final(self).changed@ == with_event(
                old(self).changed@,
                old(self).filter,
                kind,
                root@,
                texts(paths@),
            ),
            final(self).deadline == (if final(self).changed@.len() > old(self).changed@.len() {
                later(now, old(self).debounce)
            } else {
                old(self).deadline
            }),
            final(self).filter == old(self).filter,
            final(self).debounce == old(self).debounce,
            final(self).change_set == old(self).change_set,
    {
        let before: usize = self.changed.len();
        self.gather(kind, root, paths);
        if self.changed.len() > before {
            self.deadline = add_millis(now, self.debounce);
        }
    }

    /// How long to wait for further changes; none where the set is complete.
    pub fn remaining(&self, now: u64) -> (r: Option<u64>)
        ensures
            r == (if now <= self.deadline {
                Some((self.deadline - now) as u64)
            } else {
                None
            }),
    {
        if now <= self.deadline {
            Some(self.deadline - now)
        } else {
            None
        }
    }

    /// Ends a set of changes: the lines that report it, and a build follows;
    /// none where nothing changed that counts.
    pub fn finish(&mut self) -> (r: Option<Vec<String>>)
        requires
            old(self).wf(),
            old(self).change_set < usize::MAX,
        ensures
            final(self).wf(),
            final(self).filter == old(self).filter,
            final(self).debounce == old(self).debounce,
            final(self).deadline == old(self).deadline,
            final(self).changed@ == Seq::<Seq<char>>::empty(),
            match r {
                Some(lines) => old(self).changed@.len() > 0
                    && final(self).change_set == old(self).change_set + 1 && texts(lines@)
                    == change_lines(
                    change_head(old(self).filter),
                    (old(self).change_set + 1) as nat,
                    old(self).changed@,
                ),
                None => old(self).changed@.len() == 0 && final(self).change_set
                    == old(self).change_set,
            },
    {
        if self.changed.is_empty() {
            assert(self.changed@ =~= Seq::<Seq<char>>::empty());
            return None;
        }
        let mut changed = PathSet::new();
        core::mem::swap(&mut self.changed, &mut changed);
        let paths = changed.items();
        self.change_set = self.change_set + 1;
        let head = match &self.filter {
            WatchFilter::Frost { exclusions } => "frost: change #",
            WatchFilter::Bazel => "frost: Bazel change #",
        };
        Some(report_changes(head, self.change_set, &paths))
    }
}

/// The lines that report a set of changes.
fn report_changes(head: &str, change_set: usize, paths: &Vec<String>) -> (r: Vec<String>)
    ensures
        texts(r@) == change_lines(head@, change_set as nat, texts(paths@)),
{
    broadcast use group_texts;
    let ghost names = texts(paths@);
    assert(names.len() == paths@.len());
    let mut first = copy(head);
    first.append(&number(change_set as u128));
    first.append(" · ");
    first.append(&number(paths.len() as u128));
    first.append(" path");
    first.append(
        if paths.len() == 1 {
            ""
        } else {
            "s"
        },
    );
    let mut out: Vec<String> = Vec::new();
    out.push(first);
    let ghost top = texts(out@);
    assert(top =~= seq![first@]);
    let shown: usize = if paths.len() < 4 {
        paths.len()
    } else {
        4
    };
    let ghost listed = Seq::new(
        shown as nat,
        |i: int|
            (if i + 1 == shown {
                "`-- "@
            } else {
                "|-- "@
            }) + names[i],
    );
    let mut i: usize = 0;
    assert(top + listed.take(0) =~= top);
    while i < shown
        invariant
            names == texts(paths@),
            shown <= paths@.len(),
            listed == Seq::new(
                shown as nat,
                |i: int|
                    (if i + 1 == shown {
                        "`-- "@
                    } else {
                        "|-- "@
                    }) + names[i],
            ),
            i <= shown,
            texts(out@) == top + listed.take(i as int),
        decreases shown - i,
    {
        let ghost so_far = texts(out@);
        let mut line = copy(
            if i + 1 == shown {
                "`-- "
            } else {
                "|-- "
            },
        );
        line.append(&paths[i]);
        assert(line@ == listed[i as int]);
        out.push(line);
        assert(listed.take(i + 1) =~= listed.take(i as int).push(listed[i as int]));
        assert(texts(out@) == so_far.push(listed[i as int]));
        assert(texts(out@) =~= top + listed.take(i + 1));
        i += 1;
    }
    assert(listed.take(i as int) =~= listed);
    if paths.len() > 4 {
        let mut more = copy("    … and ");
        more.append(&number((paths.len() - 4) as u128));
        more.append(" more");
        out.push(more);
    }
    out
}

// ---------------------------------------------------------------------------
// Builds and processes
// ---------------------------------------------------------------------------

/// How a build ended.
#[derive(Debug)]
pub enum BuildEnd {
    Exit { code: i32 },
    Error { message: String },
}

/// What follows a build.
#[derive(Debug)]
pub enum AfterBuild {
    /// The process is started anew.
    Restart,
    /// The process of the last build that succeeded goes on; this is said.
    Keep { message: String },
}

/// The build succeeded.
pub open spec fn succeeded(end: BuildEnd) -> bool {
    match end {
        BuildEnd::Exit { code } => code == 0,
        BuildEnd::Error { message } => false,
    }
}

/// What follows a build while watching: only a build that succeeded restarts
/// the process.
pub fn after_build(end: &BuildEnd) -> (r: AfterBuild)
    ensures
        match r {
            AfterBuild::Restart => succeeded(*end),
            AfterBuild::Keep { message } => !succeeded(*end) && message@ == (match *end {
                BuildEnd::Exit { code } => "frost: build failed (exit "@ + signed(code as int)
                    + "); keeping the last successful dev process"@,
                BuildEnd::Error { message } => "frost: build failed: "@ + message@
                    + "; keeping the last successful dev process"@,
            }),
        },
{
    match end {
        BuildEnd::Exit { code } => {
            if *code == 0 {
                return AfterBuild::Restart;
            }
            let mut message = copy("frost: build failed (exit ");
            message.append(&signed_number(*code));
            message.append("); keeping the last successful dev process");
            AfterBuild::Keep { message }
        },
        BuildEnd::Error { message } => {
            let mut out = copy("frost: build failed: ");
            out.append(message);
            out.append("; keeping the last successful dev process");
            AfterBuild::Keep { message: out }
        },
    }
}

/// What follows the first build of a watch.
pub fn after_first_build(end: &BuildEnd) -> (r: AfterBuild)
    ensures
        match r {
            AfterBuild::Restart => succeeded(*end),
            AfterBuild::Keep { message } => !succeeded(*end) && message@ == (match *end {
                BuildEnd::Exit { code } => "|   initial build failed (exit "@ + signed(code as int)
                    + "); watching for a fix"@,
                BuildEnd::Error { message } => "|   initial build failed: "@ + message@
                    + "; watching for a fix"@,
            }),
        },
{
    match end {
        BuildEnd::Exit { code } => {
            if *code == 0 {
                return AfterBuild::Restart;
            }
            let mut message = copy("|   initial build failed (exit ");
            message.append(&signed_number(*code));
            message.append("); watching for a fix");
            AfterBuild::Keep { message }
        },
        BuildEnd::Error { message } => {
            let mut out = copy("|   initial build failed: ");
            out.append(message);
            out.append("; watching for a fix");
            AfterBuild::Keep { message: out }
        },
    }
}

/// A whole number in decimal digits.
pub open spec fn signed(n: int) -> Seq<char> {
    if n < 0 {
        "-"@ + decimal((-n) as nat)
    } else {
        decimal(n as nat)
    }
}

fn signed_number(n: i32) -> (r: String)
    ensures
        r@ == signed(n as int),
{
    if n < 0 {
        let mut out = copy("-");
        let size: i64 = -(n as i64);
        out.append(&number(size as u128));
        out
    } else {
        number(n as u128)
    }
}

/// What is watched and built.
#[derive(Debug)]
pub struct WatchRequest {
    pub targets: Vec<String>,
    pub jobs: Option<usize>,
    pub profile: String,
    pub platform: String,
    pub debounce_ms: u64,
    pub run: Vec<String>,
    pub auto_run: Option<AutoRun>,
}

/// A target whose artifact is run.
#[derive(Debug)]
pub struct AutoRun {
    pub target: String,
    pub runner: Option<String>,
    pub program_args: Vec<String>,
}

/// The build of a watch: it keeps going, and asks for nothing else.
pub fn watch_build_request(request: &WatchRequest) -> (r: BuildRequest)
    ensures
        plain_request(
            r,
            texts(request.targets@),
            request.jobs,
            true,
            request.profile@,
            request.platform@,
            false,
        ),
{
    BuildRequest::plain(
        copies(&request.targets),
        request.jobs,
        true,
        copy(&request.profile),
        copy(&request.platform),
        false,
    )
}

// ---------------------------------------------------------------------------
// What is noticed
// ---------------------------------------------------------------------------

/// Reading a file changes nothing; making, changing or removing one does.
pub proof fn reading_changes_nothing(kind: FileEvent, r: bool)
    requires
        call_ensures(watch_event_changes_files, (kind,), r),
    ensures
        kind == FileEvent::Access || kind == FileEvent::Other ==> !r,
        kind == FileEvent::Any || kind == FileEvent::Create || kind == FileEvent::Modify || kind
            == FileEvent::Remove ==> r,
{
}

proof fn outputs_listed(g: BuildGraph, n: nat, a: int, x: Seq<char>)
    requires
        n <= g.actions@.len(),
    ensures
        0 <= a < n && paths_at(g.paths(), g.actions@[a].outputs@).contains(x) ==> all_outputs(
            g,
            n,
        ).contains(x),
        0 <= a < n && texts(g.actions@[a].clean_dirs@).contains(x) ==> all_clean_dirs(
            g,
            n,
        ).contains(x),
        all_outputs(g, n).contains(x) ==> exists|b: int|
            0 <= b < n && paths_at(g.paths(), (#[trigger] g.actions@[b]).outputs@).contains(x),
        all_clean_dirs(g, n).contains(x) ==> exists|b: int|
            0 <= b < n && texts((#[trigger] g.actions@[b]).clean_dirs@).contains(x),
    decreases n,
{
    if n > 0 {
        let less = (n - 1) as nat;
        outputs_listed(g, less, a, x);
        let last = g.actions@[n - 1];
        in_either(all_outputs(g, less), paths_at(g.paths(), last.outputs@), x);
        in_either(all_clean_dirs(g, less), texts(last.clean_dirs@), x);
    }
}

proof fn in_either(p: Seq<Seq<char>>, q: Seq<Seq<char>>, x: Seq<char>)
    ensures
        (p + q).contains(x) <==> p.contains(x) || q.contains(x),
{
    if p.contains(x) {
        assert((p + q)[p.index_of(x)] == x);
    }
    if q.contains(x) {
        assert((p + q)[p.len() + q.index_of(x)] == x);
    }
    if (p + q).contains(x) {
        let k = (p + q).index_of(x);
        if k < p.len() {
            assert(p[k] == x);
        } else {
            assert(q[k - p.len()] == x);
        }
    }
}

/// A change is noticed exactly where no build writes the file: it is no output of
/// an action, below no clean directory of one, and neither among the build's own
/// files nor among those of version control.
pub proof fn own_writes_are_not_noticed(
    g: BuildGraph,
    x: WatchExclusions,
    root: &str,
    path: &str,
    r: Option<String>,
)
    requires
        g.wf(),
        call_ensures(watch_exclusions, (&g,), x),
        call_ensures(relevant_watch_path, (root, path, &x), r),
    ensures
        ({
            let relative = below(path@, root@);
            &&& r matches Some(found) ==> found@ == relative
            &&& r is Some <==> relative.len() > 0 && !under(relative, ".frost"@) && !under(
                relative,
                ".git"@,
            ) && (forall|a: int, f: Seq<char>|
                0 <= a < g.actions@.len() && #[trigger] paths_at(
                    g.paths(),
                    g.actions@[a].outputs@,
                ).contains(f) ==> components(f) != components(relative)) && (forall|
                a: int,
                d: Seq<char>,
            |
                0 <= a < g.actions@.len() && #[trigger] texts(g.actions@[a].clean_dirs@).contains(d)
                    ==> !under(relative, d))
        }),
{
    let relative = below(path@, root@);
    let n = g.actions@.len();
    if r is Some {
        assert forall|a: int, f: Seq<char>|
            0 <= a < g.actions@.len() && #[trigger] paths_at(
                g.paths(),
                g.actions@[a].outputs@,
            ).contains(f) implies components(f) != components(relative) by {
            outputs_listed(g, n, a, f);
            let k = texts(x.outputs@).index_of(f);
            assert(x.outputs@[k]@ == f);
            assert(!same_path(x.outputs@[k]@, relative));
        }
        assert forall|a: int, d: Seq<char>|
            0 <= a < g.actions@.len() && #[trigger] texts(g.actions@[a].clean_dirs@).contains(
                d,
            ) implies !under(relative, d) by {
            outputs_listed(g, n, a, d);
            let k = texts(x.clean_dirs@).index_of(d);
            assert(x.clean_dirs@[k]@ == d);
        }
    } else if relative.len() > 0 && !under(relative, ".frost"@) && !under(relative, ".git"@) {
        assert(written(x, relative));
        if exists|k: int|
            0 <= k < x.outputs@.len() && same_path((#[trigger] x.outputs@[k])@, relative) {
            let k = choose|k: int|
                0 <= k < x.outputs@.len() && same_path((#[trigger] x.outputs@[k])@, relative);
            let f = x.outputs@[k]@;
            assert(texts(x.outputs@)[k] == f);
            assert(texts(x.outputs@).contains(f));
            outputs_listed(g, n, 0, f);
            let a = choose|b: int|
                0 <= b < n && paths_at(g.paths(), (#[trigger] g.actions@[b]).outputs@).contains(f);
            assert(paths_at(g.paths(), g.actions@[a].outputs@).contains(f));
        } else {
            let k = choose|k: int|
                0 <= k < x.clean_dirs@.len() && under(relative, (#[trigger] x.clean_dirs@[k])@);
            let d = x.clean_dirs@[k]@;
            assert(texts(x.clean_dirs@)[k] == d);
            assert(texts(x.clean_dirs@).contains(d));
            outputs_listed(g, n, 0, d);
            let a = choose|b: int|
                0 <= b < n && texts((#[trigger] g.actions@[b]).clean_dirs@).contains(d);
            assert(texts(g.actions@[a].clean_dirs@).contains(d));
        }
    }
}

/// In a Bazel workspace a change is noticed exactly where it is neither below a
/// link of Bazel nor among the build's own files or those of version control.
pub proof fn bazel_links_are_not_noticed(root: &str, path: &str, r: Option<String>)
    requires
        call_ensures(relevant_bazel_watch_path, (root, path), r),
    ensures
        ({
            let relative = below(path@, root@);
            let parts = components(relative);
            &&& r matches Some(found) ==> found@ == relative
            &&& r is Some <==> parts.len() > 0 && parts[0] != ".git"@ && parts[0] != ".frost"@
                && !begins(parts[0], "bazel-"@)
        }),
{
}

/// Every change of an event that counts is in the set, and all that was there
/// stays; an event that changes no file adds nothing.
pub proof fn every_change_is_gathered(
    changed: Seq<Seq<char>>,
    filter: WatchFilter,
    kind: FileEvent,
    root: Seq<char>,
    paths: Seq<Seq<char>>,
    p: Seq<char>,
)
    requires
        paths_ascend(changed),
    ensures
        kind == FileEvent::Access || kind == FileEvent::Other ==> with_event(
            changed,
            filter,
            kind,
            root,
            paths,
        ) == changed,
        kind != FileEvent::Access && kind != FileEvent::Other ==> (has_path(
            with_event(changed, filter, kind, root, paths),
            p,
        ) <==> has_path(changed, p) || exists|i: int|
            0 <= i < paths.len() && counts(filter, below(#[trigger] paths[i], root)) && components(p)
                == components(below(paths[i], root))),
{
    counting_means(changed, filter, root, paths, paths.len(), p);
}

proof fn counting_means(
    changed: Seq<Seq<char>>,
    filter: WatchFilter,
    root: Seq<char>,
    paths: Seq<Seq<char>>,
    n: nat,
    p: Seq<char>,
)
    requires
        paths_ascend(changed),
    ensures
        paths_ascend(counting(changed, filter, root, paths, n)),
        has_path(counting(changed, filter, root, paths, n), p) <==> has_path(changed, p) || exists|
            i: int,
        |
            0 <= i < n && counts(filter, below(#[trigger] paths[i], root)) && components(p)
                == components(below(paths[i], root)),
    decreases n,
{
    if n > 0 {
        let less = (n - 1) as nat;
        counting_means(changed, filter, root, paths, less, p);
        let before = counting(changed, filter, root, paths, less);
        let relative = below(paths[n - 1], root);
        if counts(filter, relative) {
            with_path_means(before, relative);
        }
    }
}

/// A process is started anew exactly behind a build that ended with nought.
pub proof fn only_success_restarts(end: BuildEnd, r: AfterBuild, first: AfterBuild)
    requires
        call_ensures(after_build, (&end,), r),
        call_ensures(after_first_build, (&end,), first),
    ensures
        r is Restart <==> (end matches BuildEnd::Exit { code } && code == 0),
        first is Restart <==> (end matches BuildEnd::Exit { code } && code == 0),
{
}

/// The wait is for what is left until the set is complete, and over behind that.
pub proof fn wait_ends_at_the_deadline(w: Watch, now: u64, r: Option<u64>)
    requires
        call_ensures(Watch::remaining, (&w, now), r),
    ensures
        r matches Some(left) ==> now + left == w.deadline,
        r is None <==> now > w.deadline,
{
}

/// The build of a watch is of the targets, the profile, the platform and the
/// number of jobs that were asked for, and keeps going behind a failure.
pub proof fn watch_builds_what_was_asked(request: WatchRequest, r: BuildRequest)
    requires
        call_ensures(watch_build_request, (&request,), r),
    ensures
        texts(r.targets@) == texts(request.targets@),
        r.jobs == request.jobs,
        r.profile@ == request.profile@,
        r.platform@ == request.platform@,
        r.keep_going,
        !r.test_mode && !r.all && !r.no_cache && !r.affected,
{
}

} // verus!
