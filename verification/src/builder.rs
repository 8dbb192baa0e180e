//! Growing a build graph, file by file and action by action.

use vstd::prelude::*;

use crate::graph::{
    action_files_ok, action_model, action_models, action_ok, file_paths, ids_ok, nodes_wf, paths_at,
    ActionNode, made_by, FileNode, GraphError,
};
use crate::rules::{Action, Fault};
use crate::shared_set::{add_new, add_new_means, add_new_one, add_new_split};
use crate::sorted_map::SortedMap;
use crate::text::{copy, texts};
use crate::toposort::ints;

verus! {

/// A graph that is being built. `ids` finds a file by its path.
pub struct Builder {
    pub files: Vec<FileNode>,
    pub actions: Vec<ActionNode>,
    pub ids: SortedMap<usize>,
}

/// The second list of paths begins with the first.
pub open spec fn extends(before: Seq<Seq<char>>, now: Seq<Seq<char>>) -> bool {
    before.len() <= now.len() && forall|f: int|
        0 <= f < before.len() ==> #[trigger] now[f] == before[f]
}

/// The action that writes `path`; -1 where none does.
pub open spec fn owner(actions: Seq<Action>, path: Seq<char>) -> int
    decreases actions.len(),
{
    if actions.len() == 0 {
        -1
    } else if actions.last().outputs.contains(path) {
        actions.len() - 1
    } else {
        owner(actions.drop_last(), path)
    }
}

/// What is wrong with an action because another writes one of its first `n`
/// outputs, or it writes one of them twice.
pub open spec fn clash(actions: Seq<Action>, a: Action, n: nat) -> Option<Fault>
    decreases n,
{
    if n == 0 {
        None
    } else {
        match clash(actions, a, (n - 1) as nat) {
            Some(fault) => Some(fault),
            None => {
                let path = a.outputs[n - 1];
                let other = owner(actions, path);
                if other >= 0 {
                    Some(
                        Fault::ProducedByBoth { path, first: actions[other].id, second: a.id },
                    )
                } else if a.outputs.take(n - 1).contains(path) {
                    Some(Fault::ProducedByBoth { path, first: a.id, second: a.id })
                } else {
                    None
                }
            },
        }
    }
}

/// The actions with the first `n` of `more` behind them, or the first clash of
/// two that write one file.
pub open spec fn add_actions(actions: Seq<Action>, more: Seq<Action>, n: nat) -> Result<
    Seq<Action>,
    Fault,
>
    decreases n,
{
    if n == 0 {
        Ok(actions)
    } else {
        match add_actions(actions, more, (n - 1) as nat) {
            Err(fault) => Err(fault),
            Ok(done) => match clash(done, more[n - 1], more[n - 1].outputs.len()) {
                Some(fault) => Err(fault),
                None => Ok(done.push(more[n - 1])),
            },
        }
    }
}

pub proof fn add_fault_stays(actions: Seq<Action>, more: Seq<Action>, k: nat, n: nat)
    requires
        k <= n <= more.len(),
        add_actions(actions, more, k) is Err,
    ensures
        add_actions(actions, more, n) == add_actions(actions, more, k),
    decreases n - k,
{
    if k < n {
        add_fault_stays(actions, more, k + 1, n);
    }
}

proof fn clash_stays(actions: Seq<Action>, a: Action, k: nat, n: nat)
    requires
        k <= n <= a.outputs.len(),
        clash(actions, a, k) is Some,
    ensures
        clash(actions, a, n) == clash(actions, a, k),
    decreases n - k,
{
    if k < n {
        clash_stays(actions, a, k + 1, n);
    }
}

/// Numbers of files stand for the same paths when files are added.
pub proof fn paths_at_grown(before: Seq<Seq<char>>, now: Seq<Seq<char>>, ids: Seq<usize>)
    requires
        extends(before, now),
        ids_ok(before.len(), ids),
    ensures
        paths_at(now, ids) == paths_at(before, ids),
        ids_ok(now.len(), ids),
{
    assert forall|k: int| 0 <= k < ids.len() implies #[trigger] paths_at(now, ids)[k] == paths_at(
        before,
        ids,
    )[k] by {
        assert(ids[k] < before.len());
        assert(now[ids[k] as int] == before[ids[k] as int]);
    }
    assert(paths_at(now, ids) =~= paths_at(before, ids));
}

/// Actions stay what they are when files are added.
pub proof fn models_grown(before: Seq<Seq<char>>, now: Seq<Seq<char>>, actions: Seq<ActionNode>)
    requires
        extends(before, now),
        forall|a: int|
            0 <= a < actions.len() ==> action_ok(before.len(), #[trigger] actions[a]),
    ensures
        action_models(now, actions) == action_models(before, actions),
        forall|a: int| 0 <= a < actions.len() ==> action_ok(now.len(), #[trigger] actions[a]),
{
    assert forall|a: int| 0 <= a < actions.len() implies #[trigger] action_models(
        now,
        actions,
    )[a] == action_models(before, actions)[a] && action_ok(now.len(), actions[a]) by {
        assert(action_ok(before.len(), actions[a]));
        paths_at_grown(before, now, actions[a].inputs@);
        paths_at_grown(before, now, actions[a].order_only_inputs@);
        paths_at_grown(before, now, actions[a].outputs@);
    }
    assert(action_models(now, actions) =~= action_models(before, actions));
    assert forall|a: int| 0 <= a < actions.len() implies action_ok(
        now.len(),
        #[trigger] actions[a],
    ) by {
        assert(action_models(now, actions)[a] == action_models(before, actions)[a]);
    }
}

/// Adding paths keeps those that are there.
pub proof fn add_new_extends(before: Seq<Seq<char>>, more: Seq<Seq<char>>)
    ensures
        extends(before, add_new(before, more)),
{
    add_new_means(before, more);
    let now = add_new(before, more);
    assert forall|f: int| 0 <= f < before.len() implies #[trigger] now[f] == before[f] by {
        assert(now.take(before.len() as int)[f] == now[f]);
    }
}

/// A path stands among the paths of some files where its number stands among
/// theirs.
proof fn found_by_id(paths: Seq<Seq<char>>, ids: Seq<usize>, f: int)
    requires
        paths.no_duplicates(),
        ids_ok(paths.len(), ids),
        0 <= f < paths.len(),
    ensures
        paths_at(paths, ids).contains(paths[f]) <==> ints(ids).contains(f),
{
    let at = paths_at(paths, ids);
    if ints(ids).contains(f) {
        let k = ints(ids).index_of(f);
        assert(at[k] == paths[f]);
    }
    if at.contains(paths[f]) {
        let k = at.index_of(paths[f]);
        assert(paths[ids[k] as int] == paths[f]);
        assert(ids[k] < paths.len());
        assert(ints(ids)[k] == f);
    }
}

impl Builder {
    /// The paths of the files.
    pub open spec fn paths(self) -> Seq<Seq<char>> {
        file_paths(self.files@)
    }

    /// The actions, with files named by their paths.
    pub open spec fn models(self) -> Seq<Action> {
        action_models(self.paths(), self.actions@)
    }

    /// The nodes are consistent, and `ids` finds exactly the files.
    pub open spec fn wf(self) -> bool {
        &&& nodes_wf(self.files@, self.actions@)
        &&& self.ids.wf()
        &&& forall|p: Seq<char>| #[trigger] self.ids.has(p) <==> self.paths().contains(p)
        &&& forall|p: Seq<char>|
            self.ids.has(p) ==> #[trigger] self.ids.at(p) < self.files@.len()
                && self.paths()[self.ids.at(p) as int] == p
    }

    /// A graph without files and actions.
    pub fn new() -> (r: Builder)
        ensures
            r.wf(),
            r.files@.len() == 0,
            r.actions@.len() == 0,
    {
        let r = Builder { files: Vec::new(), actions: Vec::new(), ids: SortedMap::new() };
        assert forall|p: Seq<char>| #[trigger] r.ids.has(p) <==> r.paths().contains(p) by {
            assert(r.ids.names().len() == 0);
        }
        r
    }

    /// The number of the file at `path`, which is added if it is new.
    pub fn file(&mut self, path: &str) -> (r: usize)
        requires
            old(self).wf(),
        ensures
            final(self).wf(),
            final(self).actions@ == old(self).actions@,
            final(self).models() == old(self).models(),
            extends(old(self).paths(), final(self).paths()),
            final(self).paths() == add_new(old(self).paths(), seq![path@]),
            r < final(self).files@.len(),
            final(self).paths()[r as int] == path@,
    {
        let ghost before = self.paths();
        let ghost was = *self;
        proof {
            add_new_one(before, path@);
        }
        if let Some(at) = self.ids.find(path) {
            let id: usize = self.ids.values[at];
            assert(before.contains(path@));
            assert(self.ids.at(path@) == id);
            return id;
        }
        assert(!before.contains(path@));
        let id: usize = self.files.len();
        self.files.push(FileNode { path: copy(path), producer: None });
        let _ = self.ids.insert(copy(path), id);
        proof {
            let now = self.paths();
            assert(now =~= before.push(path@));
            assert(add_new(before, seq![path@]) == before.push(path@));
            assert forall|p: Seq<char>| now.contains(p) <==> before.contains(p) || p == path@ by {
                if before.contains(p) {
                    assert(now[before.index_of(p)] == p);
                }
                if p == path@ {
                    assert(now[before.len() as int] == p);
                }
            }
            assert forall|p: Seq<char>| self.ids.has(p) implies #[trigger] self.ids.at(p)
                < self.files@.len() && now[self.ids.at(p) as int] == p by {
                if p != path@ {
                    assert(was.ids.has(p));
                    assert(was.ids.at(p) < before.len());
                }
            }
            models_grown(before, now, self.actions@);
            assert forall|f: int, a: int| #![trigger self.files@[f], self.actions@[a]]
                0 <= f < self.files@.len() && 0 <= a < self.actions@.len() implies (made_by(
                self.files@[f],
            ) == a <==> ints(self.actions@[a].outputs@).contains(f)) by {
                assert(action_ok(was.files@.len(), was.actions@[a]));
                if f < was.files@.len() {
                    assert(self.files@[f] == was.files@[f]);
                } else if ints(self.actions@[a].outputs@).contains(f) {
                    let k = ints(self.actions@[a].outputs@).index_of(f);
                    assert(was.actions@[a].outputs@[k] < was.files@.len());
                }
            }
        }
        id
    }

    /// The numbers of the files at `paths`; those that are new are added.
    pub fn files_at(&mut self, paths: &Vec<String>) -> (r: Vec<usize>)
        requires
            old(self).wf(),
        ensures
            final(self).wf(),
            final(self).actions@ == old(self).actions@,
            final(self).models() == old(self).models(),
            extends(old(self).paths(), final(self).paths()),
            final(self).paths() == add_new(old(self).paths(), texts(paths@)),
            ids_ok(final(self).files@.len(), r@),
            paths_at(final(self).paths(), r@) == texts(paths@),
    {
        let ghost names = texts(paths@);
        let ghost before = self.paths();
        let mut out: Vec<usize> = Vec::new();
        let mut i: usize = 0;
        assert(names.take(0) =~= Seq::<Seq<char>>::empty());
        assert(paths_at(self.paths(), out@) =~= names.take(0));
        while i < paths.len()
            invariant
                names == texts(paths@),
                before == old(self).paths(),
                i <= paths@.len(),
                self.wf(),
                self.actions@ == old(self).actions@,
                self.models() == old(self).models(),
                extends(old(self).paths(), self.paths()),
                self.paths() == add_new(before, names.take(i as int)),
                ids_ok(self.files@.len(), out@),
                paths_at(self.paths(), out@) == names.take(i as int),
            decreases paths@.len() - i,
        {
            let ghost was = self.paths();
            assert(names[i as int] == paths@[i as int]@);
            let id = self.file(&paths[i]);
            proof {
                add_new_split(before, names.take(i as int), seq![names[i as int]]);
                assert(names.take(i as int) + seq![names[i as int]] =~= names.take(i + 1));
                paths_at_grown(was, self.paths(), out@);
            }
            out.push(id);
            assert(paths_at(self.paths(), out@) =~= names.take(i + 1));
            i += 1;
        }
        assert(names.take(i as int) =~= names);
        out
    }

    /// A file's producer is the action that writes its path.
    proof fn producer_is_owner(self, f: int, n: nat)
        requires
            self.wf(),
            0 <= f < self.files@.len(),
            n <= self.actions@.len(),
        ensures
            owner(self.models().take(n as int), self.paths()[f]) == (if made_by(self.files@[f]) < n {
                made_by(self.files@[f])
            } else {
                -1
            }),
        decreases n,
    {
        let models = self.models().take(n as int);
        if n > 0 {
            let a = n - 1;
            assert(self.files@[f].path@ == self.paths()[f]);
            assert(action_ok(self.files@.len(), self.actions@[a]));
            found_by_id(self.paths(), self.actions@[a].outputs@, f);
            assert(models.last().outputs == paths_at(self.paths(), self.actions@[a].outputs@));
            assert(models.drop_last() =~= self.models().take(a));
            self.producer_is_owner(f, a as nat);
        }
    }

    /// Adds an action. It fails where another action writes one of its
    /// outputs, or it names one of them twice.
    pub fn push_action(&mut self, action: ActionNode) -> (r: Result<usize, GraphError>)
        requires
            old(self).wf(),
            action_files_ok(old(self).files@.len(), action),
        ensures
            match r {
                Ok(id) => final(self).wf() && id == old(self).actions@.len()
                    && final(self).actions@ == old(self).actions@.push(action)
                    && final(self).paths() == old(self).paths() && final(self).models() == old(
                    self,
                ).models().push(action_model(old(self).paths(), action)) && (clash(
                    old(self).models(),
                    action_model(old(self).paths(), action),
                    action.outputs@.len(),
                ) is None),
                Err(e) => clash(
                    old(self).models(),
                    action_model(old(self).paths(), action),
                    action.outputs@.len(),
                ) == Some(e@),
            },
    {
        let ghost was = *self;
        let ghost paths = self.paths();
        let ghost model = action_model(paths, action);
        let ghost models = self.models();
        let id: usize = self.actions.len();
        let mut i: usize = 0;
        assert(models.take(self.actions@.len() as int) =~= models);
        while i < action.outputs.len()
            invariant
                *self == was,
                was == *old(self),
                self.wf(),
                action_files_ok(self.files@.len(), action),
                forall|j: int, k: int|
                    0 <= j < k < i ==> action.outputs@[j] != action.outputs@[k],
                paths == self.paths(),
                model == action_model(paths, action),
                models == self.models(),
                models.take(self.actions@.len() as int) == models,
                i <= action.outputs@.len(),
                clash(models, model, i as nat) is None,
                forall|j: int|
                    0 <= j < i ==> (self.files@[#[trigger] action.outputs@[j] as int].producer is None),
            decreases action.outputs@.len() - i,
        {
            let out: usize = action.outputs[i];
            assert(model.outputs[i as int] == paths[out as int]);
            proof {
                self.producer_is_owner(out as int, self.actions@.len());
            }
            if let Some(other) = self.files[out].producer {
                assert(other < self.actions@.len());
                let e = GraphError::ProducedByBoth {
                    path: copy(&self.files[out].path),
                    first: copy(&self.actions[other].id),
                    second: copy(&action.id),
                };
                proof {
                    assert(clash(models, model, (i + 1) as nat) == Some(e@));
                    clash_stays(models, model, (i + 1) as nat, action.outputs@.len());
                }
                return Err(e);
            }
            let mut j: usize = 0;
            while j < i
                invariant
                    *self == was,
                    was == *old(self),
                    self.wf(),
                    action_files_ok(self.files@.len(), action),
                    paths == self.paths(),
                    model == action_model(paths, action),
                    models == self.models(),
                    i < action.outputs@.len(),
                    j <= i,
                    out == action.outputs@[i as int],
                    model.outputs[i as int] == paths[out as int],
                    clash(models, model, i as nat) is None,
                    owner(models, paths[out as int]) < 0,
                    forall|k: int| 0 <= k < j ==> #[trigger] action.outputs@[k] != out,
                decreases i - j,
            {
                if action.outputs[j] == out {
                    let e = GraphError::ProducedByBoth {
                        path: copy(&self.files[out].path),
                        first: copy(&action.id),
                        second: copy(&action.id),
                    };
                    proof {
                        assert(model.outputs.take(i as int)[j as int] == paths[out as int]);
                        assert(clash(models, model, (i + 1) as nat) == Some(e@));
                        clash_stays(models, model, (i + 1) as nat, action.outputs@.len());
                    }
                    return Err(e);
                }
                j += 1;
            }
            proof {
                let earlier = model.outputs.take(i as int);
                if earlier.contains(paths[out as int]) {
                    let k = earlier.index_of(paths[out as int]);
                    assert(paths[action.outputs@[k] as int] == paths[out as int]);
                    assert(action.outputs@[k] < paths.len());
                    assert(action.outputs@[k] != out);
                }
            }
            i += 1;
        }
        let mut k: usize = 0;
        while k < action.outputs.len()
            invariant
                was == *old(self),
                was.wf(),
                id == was.actions@.len(),
                action_ok(was.files@.len(), action),
                self.actions@ == was.actions@,
                self.ids == was.ids,
                self.files@.len() == was.files@.len(),
                k <= action.outputs@.len(),
                forall|f: int|
                    0 <= f < self.files@.len() ==> (#[trigger] self.files@[f]).path
                        == was.files@[f].path,
                forall|f: int|
                    0 <= f < self.files@.len() ==> made_by(#[trigger] self.files@[f]) == if ints(
                        action.outputs@,
                    ).take(k as int).contains(f) {
                        id as int
                    } else {
                        made_by(was.files@[f])
                    },
            decreases action.outputs@.len() - k,
        {
            let out: usize = action.outputs[k];
            self.files[out].producer = Some(id);
            proof {
                let done = ints(action.outputs@).take(k as int);
                assert(ints(action.outputs@).take(k + 1) =~= done.push(out as int));
                assert forall|f: int| 0 <= f < self.files@.len() implies made_by(
                    #[trigger] self.files@[f],
                ) == if done.push(out as int).contains(f) {
                    id as int
                } else {
                    made_by(was.files@[f])
                } by {
                    if done.contains(f) {
                        assert(done.push(out as int)[done.index_of(f)] == f);
                    }
                    if f == out {
                        assert(done.push(out as int)[k as int] == f);
                    }
                }
            }
            k += 1;
        }
        proof {
            assert(ints(action.outputs@).take(k as int) =~= ints(action.outputs@));
        }
        self.actions.push(action);
        proof {
            assert(self.paths() =~= paths);
            assert(self.models() =~= models.push(model));
            assert forall|f: int, a: int| #![trigger self.files@[f], self.actions@[a]]
                0 <= f < self.files@.len() && 0 <= a < self.actions@.len() implies (made_by(
                self.files@[f],
            ) == a <==> ints(self.actions@[a].outputs@).contains(f)) by {
                assert(was.files@[f].path == self.files@[f].path);
                if a < id {
                    assert(self.actions@[a] == was.actions@[a]);
                    if ints(action.outputs@).contains(f) {
                        let j = ints(action.outputs@).index_of(f);
                        assert(was.files@[action.outputs@[j] as int].producer is None);
                    }
                } else {
                    assert(self.actions@[a] == action);
                }
            }
        }
        Ok(id)
    }
}

} // verus!
