//! Turning targets into actions of a build graph.

use vstd::prelude::*;
use vstd::string::*;

use crate::builder::{
    add_actions, add_fault_stays, add_new_extends, clash, extends, paths_at_grown, Builder,
};
use crate::graph::{action_files_ok, action_model, ids_ok, paths_at, ActionNode, GraphError};
use crate::manifest::{ready, Profile, Target, TargetKind, Toolchain};
use crate::paths::{has_char, is_absolute};
use crate::rules::{
    any_cxx, archive_action, bin_of, bin_path, cc_actions, command_texts, compile_action,
    compile_files, configured, cxx_source, emitted_of, emitted_path, flags, include_flags,
    is_cxx_source, lib_of, link_action, local_driver, obj_of, obj_path, objects, plain_action,
    run_action, stamp_of, step_argvs, step_drivers, target_actions, target_files, target_outputs,
    Action, ActionKind, Exports, Fault, Setting, SHELL, SHELL_ARG,
};
use crate::shared_set::{add_new, add_new_split};
use crate::sorted_map::{copy_pairs, pairs, SortedMap};
use crate::template::{
    config_replaced, config_texts, expand_command_args, expand_config_template,
    expand_config_templates, expand_genrule_cmd, expand_test_args, CommandPaths, CommandTexts,
    Config, Configuration,
};
use crate::text::{copies, copy, extend, group_texts, texts};

verus! {

/// What all targets of a build are built with.
#[derive(Debug)]
pub struct Settings {
    pub config: Config,
    pub toolchain: Toolchain,
    pub flags: Profile,
}

impl View for Settings {
    type V = Setting;

    open spec fn view(&self) -> Setting {
        Setting { config: self.config@, tc: self.toolchain, flags: flags(self.flags) }
    }
}

/// What a target has from those it depends on; their outputs by number.
#[derive(Debug)]
pub struct Given {
    pub dep_outputs: Vec<usize>,
    pub includes: Vec<String>,
    pub libs: Vec<String>,
    pub gens: Vec<String>,
}

/// What a target has from those it depends on.
pub open spec fn exports(paths: Seq<Seq<char>>, given: Given) -> Exports {
    Exports {
        dep_outputs: paths_at(paths, given.dep_outputs@),
        includes: texts(given.includes@),
        libs: texts(given.libs@),
        gens: texts(given.gens@),
    }
}

/// The actions and outputs of a target, by number.
#[derive(Debug)]
pub struct Built {
    pub actions: Vec<usize>,
    pub outputs: Vec<usize>,
}

/// The numbers from `from` up to `to`.
pub open spec fn span(from: int, to: int) -> Seq<int> {
    Seq::new((to - from) as nat, |i: int| from + i)
}

/// The actions of a graph with those of one more target, or why it has none.
#[verifier::opaque]
pub open spec fn target_step(actions: Seq<Action>, s: Setting, t: Target, x: Exports) -> Result<
    Seq<Action>,
    Fault,
> {
    match target_actions(s, t, x) {
        Err(fault) => Err(fault),
        Ok(more) => add_actions(actions, more, more.len()),
    }
}

/// Adding a target makes actions more, not fewer.
pub proof fn target_step_grows(actions: Seq<Action>, s: Setting, t: Target, x: Exports)
    requires
        target_step(actions, s, t, x) is Ok,
    ensures
        target_step(actions, s, t, x)->Ok_0.len() >= actions.len(),
{
    reveal(target_step);
    let more = target_actions(s, t, x)->Ok_0;
    add_actions_len(actions, more, more.len());
}

/// Adding actions makes that many more.
proof fn add_actions_len(actions: Seq<Action>, more: Seq<Action>, n: nat)
    requires
        add_actions(actions, more, n) is Ok,
    ensures
        add_actions(actions, more, n)->Ok_0.len() == actions.len() + n,
    decreases n,
{
    if n > 0 {
        add_actions_len(actions, more, (n - 1) as nat);
    }
}

/// One more target was added to a graph, or it was said why not.
pub open spec fn applied(
    before: Builder,
    now: Builder,
    s: Setting,
    t: Target,
    x: Exports,
    r: Result<Built, GraphError>,
) -> bool {
    match r {
        Ok(b) => {
            &&& now.wf()
            &&& target_step(before.models(), s, t, x) == Ok::<Seq<Action>, Fault>(now.models())
            &&& now.paths() == add_new(before.paths(), target_files(s, t, x))
            &&& crate::toposort::ints(b.actions@) == span(
                before.actions@.len() as int,
                now.actions@.len() as int,
            )
            &&& ids_ok(now.files@.len(), b.outputs@)
            &&& paths_at(now.paths(), b.outputs@) == target_outputs(s.config, t)
        },
        Err(e) => target_step(before.models(), s, t, x) == Err::<Seq<Action>, Fault>(e@),
    }
}

proof fn add_one(actions: Seq<Action>, a: Action)
    ensures
        add_actions(actions, seq![a], 1) == match clash(actions, a, a.outputs.len()) {
            Some(fault) => Err::<Seq<Action>, Fault>(fault),
            None => Ok::<Seq<Action>, Fault>(actions.push(a)),
        },
{
    assert(add_actions(actions, seq![a], 0) == Ok::<Seq<Action>, Fault>(actions));
}

fn cat(a: &str, b: &str) -> (r: String)
    ensures
        r@ == a@ + b@,
{
    let mut out = copy(a);
    out.append(b);
    out
}

/// `head` and `b` in parentheses behind it.
fn cat_in(head: &str, a: &str, b: &str) -> (r: String)
    ensures
        r@ == head@ + a@ + " ("@ + b@ + ")"@,
{
    let mut out = copy(head);
    out.append(a);
    out.append(" (");
    out.append(b);
    out.append(")");
    out
}

/// An action of a target with nothing but a command, inputs and outputs.
fn plain_node(
    t: &Target,
    id: String,
    desc: String,
    kind: ActionKind,
    argv: Vec<String>,
    inputs: Vec<usize>,
    outputs: Vec<usize>,
) -> (r: ActionNode)
    ensures
        r.inputs@ == inputs@,
        r.outputs@ == outputs@,
        r.order_only_inputs@.len() == 0,
        r.env.wf(),
        forall|paths: Seq<Seq<char>>| #[trigger]
            action_model(paths, r) == plain_action(
                *t,
                id@,
                desc@,
                kind,
                texts(argv@),
                paths_at(paths, inputs@),
                paths_at(paths, outputs@),
            ),
{
    broadcast use group_texts;
    let r = ActionNode {
        id,
        desc,
        kind,
        target: copy(&t.name),
        sandbox: t.sandbox,
        argv,
        followup_argv: Vec::new(),
        clean_dirs: Vec::new(),
        preserve_outputs: false,
        env: SortedMap::new(),
        pass_env: Vec::new(),
        inputs,
        order_only_inputs: Vec::new(),
        outputs,
        depfile: None,
    };
    assert forall|paths: Seq<Seq<char>>| #[trigger] action_model(paths, r) == plain_action(
        *t,
        id@,
        desc@,
        kind,
        texts(argv@),
        paths_at(paths, inputs@),
        paths_at(paths, outputs@),
    ) by {
        let m = action_model(paths, r);
        assert(m.followup_argv =~= Seq::empty());
        assert(m.clean_dirs =~= Seq::empty());
        assert(m.pass_env =~= Seq::empty());
        assert(m.env.names =~= Seq::empty());
        assert(m.env.texts =~= Seq::empty());
        assert(m.order_only_inputs =~= Seq::empty());
    }
    r
}

/// Paths at numbers, one behind the other.
proof fn paths_at_add(paths: Seq<Seq<char>>, a: Seq<usize>, b: Seq<usize>)
    ensures
        paths_at(paths, a + b) == paths_at(paths, a) + paths_at(paths, b),
{
    assert(paths_at(paths, a + b) =~= paths_at(paths, a) + paths_at(paths, b));
}

/// A list of one.
fn just<T>(x: T) -> (r: Vec<T>)
    ensures
        r@ == seq![x],
{
    let mut v: Vec<T> = Vec::new();
    v.push(x);
    assert(v@ =~= seq![x]);
    v
}

pub fn copy_ids(ids: &Vec<usize>) -> (r: Vec<usize>)
    ensures
        r@ == ids@,
{
    let r = ids.clone();
    assert(r@ =~= ids@);
    r
}

/// `SHELL -c cmd`.
fn shell(cmd: &str) -> (r: Vec<String>)
    ensures
        texts(r@) == seq![SHELL@, SHELL_ARG@, cmd@],
{
    let mut v: Vec<String> = Vec::new();
    v.push(copy(SHELL));
    v.push(copy(SHELL_ARG));
    v.push(copy(cmd));
    assert(texts(v@) =~= seq![SHELL@, SHELL_ARG@, cmd@]);
    v
}

impl Builder {
    /// Adds the only action of a target.
    fn push_only(&mut self, action: ActionNode, outputs: Vec<usize>) -> (r: Result<
        Built,
        GraphError,
    >)
        requires
            old(self).wf(),
            action_files_ok(old(self).files@.len(), action),
            ids_ok(old(self).files@.len(), outputs@),
        ensures
            match r {
                Ok(b) => final(self).wf() && add_actions(
                    old(self).models(),
                    seq![action_model(old(self).paths(), action)],
                    1,
                ) == Ok::<Seq<Action>, Fault>(final(self).models()) && final(self).paths() == old(
                    self,
                ).paths() && crate::toposort::ints(b.actions@) == span(
                    old(self).actions@.len() as int,
                    final(self).actions@.len() as int,
                ) && b.outputs == outputs,
                Err(e) => add_actions(
                    old(self).models(),
                    seq![action_model(old(self).paths(), action)],
                    1,
                ) == Err::<Seq<Action>, Fault>(e@),
            },
    {
        proof {
            add_one(self.models(), action_model(self.paths(), action));
        }
        match self.push_action(action) {
            Ok(id) => {
                let actions = just(id);
                assert(crate::toposort::ints(actions@) =~= span(
                    old(self).actions@.len() as int,
                    self.actions@.len() as int,
                ));
                assert(self.files@.len() == self.paths().len());
                assert(old(self).files@.len() == old(self).paths().len());
                Ok(Built { actions, outputs })
            },
            Err(e) => Err(e),
        }
    }

    /// Adds a genrule.
    fn genrule(&mut self, s: &Settings, t: &Target, given: &Given) -> (r: Result<Built, GraphError>)
        requires
            old(self).wf(),
            t.kind == TargetKind::Genrule,
            ready(*t),
            ids_ok(old(self).files@.len(), given.dep_outputs@),
        ensures
            applied(*old(self), *final(self), s@, *t, exports(old(self).paths(), *given), r),
    {
        let ghost p0 = self.paths();
        let ghost x = exports(p0, *given);
        proof {
            reveal(target_step);
            reveal(target_files);
            reveal(target_outputs);
        }
        let cmd = match &t.cmd {
            Some(cmd) => cmd,
            None => {
                assert(false);
                &t.name
            },
        };
        let text = match expand_genrule_cmd(cmd, &t.inputs, &t.outputs) {
            Ok(text) => text,
            Err(error) => {
                return Err(GraphError::Template { error });
            },
        };
        let mut inputs = self.files_at(&t.inputs);
        let ghost p1 = self.paths();
        let ghost own = inputs@;
        let mut deps = copy_ids(&given.dep_outputs);
        inputs.append(&mut deps);
        let outputs = self.files_at(&t.outputs);
        let ghost p2 = self.paths();
        proof {
            add_new_split(p0, texts(t.inputs@), texts(t.outputs@));
            paths_at_grown(p0, p2, given.dep_outputs@);
            paths_at_grown(p1, p2, own);
            paths_at_add(p2, own, given.dep_outputs@);
        }
        let node = plain_node(
            t,
            cat("genrule:", &t.name),
            cat("GEN ", &t.name),
            ActionKind::Genrule,
            shell(&text),
            inputs,
            copy_ids(&outputs),
        );
        proof {
            let a = action_model(p2, node);
            assert(target_actions(s@, *t, x) == Ok::<Seq<Action>, Fault>(seq![a]));
        }
        self.push_only(node, outputs)
    }
}

/// Adds numbers that are not there yet.
fn add_ids(ids: &mut Vec<usize>, more: &Vec<usize>, Ghost(paths): Ghost<Seq<Seq<char>>>)
    requires
        paths.no_duplicates(),
        ids_ok(paths.len(), old(ids)@),
        ids_ok(paths.len(), more@),
    ensures
        ids_ok(paths.len(), final(ids)@),
        paths_at(paths, final(ids)@) == add_new(
            paths_at(paths, old(ids)@),
            paths_at(paths, more@),
        ),
{
    let ghost done = paths_at(paths, ids@);
    let ghost names = paths_at(paths, more@);
    let mut i: usize = 0;
    assert(names.take(0) =~= Seq::<Seq<char>>::empty());
    while i < more.len()
        invariant
            paths.no_duplicates(),
            names == paths_at(paths, more@),
            ids_ok(paths.len(), ids@),
            ids_ok(paths.len(), more@),
            i <= more@.len(),
            paths_at(paths, ids@) == add_new(done, names.take(i as int)),
        decreases more@.len() - i,
    {
        let id: usize = more[i];
        let ghost so_far = paths_at(paths, ids@);
        let mut k: usize = 0;
        while k < ids.len() && ids[k] != id
            invariant
                k <= ids@.len(),
                forall|j: int| 0 <= j < k ==> #[trigger] ids@[j] != id,
            decreases ids@.len() - k,
        {
            k += 1;
        }
        proof {
            assert(names.take(i + 1).drop_last() =~= names.take(i as int));
            assert(names[i as int] == paths[id as int]);
            assert(id < paths.len());
            if k < ids@.len() {
                assert(so_far[k as int] == paths[id as int]);
            } else {
                assert forall|j: int| 0 <= j < so_far.len() implies so_far[j] != paths[id as int] by {
                    assert(ids@[j] != id);
                    assert(ids@[j] < paths.len());
                }
            }
        }
        if k == ids.len() {
            ids.push(id);
            assert(paths_at(paths, ids@) =~= so_far.push(paths[id as int]));
        }
        i += 1;
    }
    assert(names.take(i as int) =~= names);
}

fn is_local_driver(driver: &str) -> (r: bool)
    ensures
        r == (local_driver(driver@).len() > 0),
        r ==> local_driver(driver@) == seq![driver@],
        !r ==> local_driver(driver@) == Seq::<Seq<char>>::empty(),
{
    has_char(driver, '/') && !is_absolute(driver)
}

impl Builder {
    /// Makes a driver that is a file of the workspace one of the inputs.
    fn driver_input(&mut self, driver: &str, inputs: &mut Vec<usize>)
        requires
            old(self).wf(),
            ids_ok(old(self).files@.len(), old(inputs)@),
        ensures
            final(self).wf(),
            final(self).actions@ == old(self).actions@,
            final(self).models() == old(self).models(),
            extends(old(self).paths(), final(self).paths()),
            final(self).paths() == add_new(old(self).paths(), local_driver(driver@)),
            ids_ok(final(self).files@.len(), final(inputs)@),
            paths_at(final(self).paths(), final(inputs)@) == add_new(
                paths_at(old(self).paths(), old(inputs)@),
                local_driver(driver@),
            ),
    {
        let ghost before = self.paths();
        let ghost was = inputs@;
        if is_local_driver(driver) {
            let id = self.file(driver);
            proof {
                paths_at_grown(before, self.paths(), was);
                assert(self.files@.len() == self.paths().len());
            }
            let one = just(id);
            assert(paths_at(self.paths(), one@) =~= seq![driver@]);
            add_ids(inputs, &one, Ghost(self.paths()));
        }
    }

    /// Adds a shell test, or one that runs a named tool.
    fn test(&mut self, s: &Settings, t: &Target, given: &Given) -> (r: Result<Built, GraphError>)
        requires
            old(self).wf(),
            t.kind == TargetKind::Test,
            ready(*t),
            s.toolchain.tools.wf(),
            ids_ok(old(self).files@.len(), given.dep_outputs@),
        ensures
            applied(*old(self), *final(self), s@, *t, exports(old(self).paths(), *given), r),
    {
        broadcast use group_texts;
        let ghost p0 = self.paths();
        let ghost x = exports(p0, *given);
        proof {
            reveal(target_step);
            reveal(target_files);
            reveal(target_outputs);
        }
        let mut inputs = self.files_at(&t.inputs);
        let ghost p1 = self.paths();
        let ghost own = inputs@;
        let mut deps = copy_ids(&given.dep_outputs);
        inputs.append(&mut deps);
        let ghost both = inputs@;
        let stamp = stamp_of(&s.config, &t.name);
        let stamp_id = self.file(&stamp);
        let ghost p2 = self.paths();
        proof {
            add_new_split(p0, texts(t.inputs@), seq![stamp@]);
            paths_at_grown(p0, p2, given.dep_outputs@);
            paths_at_grown(p1, p2, own);
            paths_at_add(p2, own, given.dep_outputs@);
        }
        let outputs = just(stamp_id);
        assert(paths_at(p2, outputs@) =~= seq![stamp@]);
        let id = cat("test:", &t.name);
        let desc = cat("TEST ", &t.name);
        match &t.tool {
            None => {
                let cmd = match &t.cmd {
                    Some(cmd) => cmd,
                    None => {
                        assert(false);
                        &t.name
                    },
                };
                let node = plain_node(
                    t,
                    id,
                    desc,
                    ActionKind::Test,
                    shell(cmd),
                    inputs,
                    copy_ids(&outputs),
                );
                proof {
                    let a = action_model(p2, node);
                    assert(target_actions(s@, *t, x) == Ok::<Seq<Action>, Fault>(seq![a]));
                    let names = texts(t.inputs@) + seq![stamp@];
                    assert(names + Seq::<Seq<char>>::empty() =~= names);
                }
                self.push_only(node, outputs)
            },
            Some(tool) => {
                let driver = match s.toolchain.tools.get(tool) {
                    Some(driver) => driver,
                    None => {
                        return Err(
                            GraphError::TestTool {
                                target: copy(&t.name),
                                tool: copy(tool),
                                configured: copies(&s.toolchain.tools.keys),
                            },
                        );
                    },
                };
                let dep_paths = self.paths_of(&given.dep_outputs);
                let argv = match expand_test_args(
                    driver,
                    &t.args,
                    &t.inputs,
                    &dep_paths,
                    &s.config,
                ) {
                    Ok(argv) => argv,
                    Err(error) => {
                        return Err(GraphError::Template { error });
                    },
                };
                self.driver_input(driver, &mut inputs);
                let ghost p3 = self.paths();
                proof {
                    add_new_split(
                        p0,
                        texts(t.inputs@) + seq![stamp@],
                        local_driver(driver@),
                    );
                    paths_at_grown(p2, p3, outputs@);
                }
                let mut node = plain_node(
                    t,
                    id,
                    desc,
                    ActionKind::Test,
                    argv,
                    inputs,
                    copy_ids(&outputs),
                );
                let ghost plain = action_model(p3, node);
                node.env = copy_pairs(&t.env);
                node.pass_env = copies(&t.pass_env);
                proof {
                    let a = action_model(p3, node);
                    assert(a == Action {
                        env: pairs(t.env),
                        pass_env: texts(t.pass_env@),
                        ..plain
                    });
                    assert(target_actions(s@, *t, x) == Ok::<Seq<Action>, Fault>(seq![a]));
                }
                self.push_only(node, outputs)
            },
        }
    }

    /// The paths of files.
    pub fn paths_of(&self, ids: &Vec<usize>) -> (r: Vec<String>)
        requires
            ids_ok(self.files@.len(), ids@),
        ensures
            texts(r@) == paths_at(self.paths(), ids@),
    {
        broadcast use group_texts;
        let mut out: Vec<String> = Vec::new();
        let mut i: usize = 0;
        while i < ids.len()
            invariant
                ids_ok(self.files@.len(), ids@),
                i <= ids@.len(),
                texts(out@) =~= paths_at(self.paths(), ids@).take(i as int),
            decreases ids@.len() - i,
        {
            let ghost all = paths_at(self.paths(), ids@);
            assert(all.take(i + 1) =~= all.take(i as int).push(all[i as int]));
            assert(ids@[i as int] < self.files@.len());
            out.push(copy(&self.files[ids[i]].path));
            i += 1;
        }
        assert(texts(out@) =~= paths_at(self.paths(), ids@));
        out
    }

    /// Adds a Kofun program.
    fn kofun(&mut self, s: &Settings, t: &Target, given: &Given) -> (r: Result<Built, GraphError>)
        requires
            old(self).wf(),
            t.kind == TargetKind::KofunBinary,
            ids_ok(old(self).files@.len(), given.dep_outputs@),
        ensures
            applied(*old(self), *final(self), s@, *t, exports(old(self).paths(), *given), r),
    {
        broadcast use group_texts;
        let ghost p0 = self.paths();
        let ghost x = exports(p0, *given);
        proof {
            reveal(target_step);
            reveal(target_files);
            reveal(target_outputs);
        }
        let driver = match &s.toolchain.kofunc {
            Some(driver) => driver,
            None => {
                return Err(GraphError::NoKofunc { target: copy(&t.name) });
            },
        };
        if t.srcs.len() != 1 {
            return Err(GraphError::KofunSources { target: copy(&t.name), count: t.srcs.len() });
        }
        let source = &t.srcs[0];
        let bin = bin_of(&s.config, &t.name);
        let emitted = emitted_of(&s.config, &t.name);
        let source_id = self.file(source);
        let ghost p1 = self.paths();
        let mut inputs = just(source_id);
        assert(paths_at(p1, inputs@) =~= seq![source@]);
        proof {
            paths_at_grown(p0, p1, given.dep_outputs@);
            assert(p1.len() == self.files@.len());
        }
        add_ids(&mut inputs, &given.dep_outputs, Ghost(p1));
        let bin_id = self.file(&bin);
        let ghost p2 = self.paths();
        let emitted_id = self.file(&emitted);
        let ghost p3 = self.paths();
        let mut outputs = just(bin_id);
        outputs.push(emitted_id);
        let mut argv: Vec<String> = Vec::new();
        argv.push(copy(driver));
        argv.push(copy("build"));
        argv.push(copy(source));
        argv.push(copy("-o"));
        argv.push(copy(&bin));
        argv.push(copy("--emit-c"));
        argv.push(copy(&emitted));
        assert(texts(argv@) =~= seq![
            driver@,
            "build"@,
            source@,
            "-o"@,
            bin@,
            "--emit-c"@,
            emitted@,
        ]);
        proof {
            add_new_split(p0, seq![source@], seq![bin@]);
            add_new_split(p0, seq![source@] + seq![bin@], seq![emitted@]);
            assert(seq![source@] + seq![bin@] + seq![emitted@] =~= seq![source@, bin@, emitted@]);
            paths_at_grown(p1, p3, inputs@);
            assert(paths_at(p3, outputs@) =~= seq![bin@, emitted@]);
            bin_is_not_emitted(s.config@, t.name@);
        }
        let node = plain_node(
            t,
            cat("kofun:", &t.name),
            cat_in("KOFUN ", source, &t.name),
            ActionKind::KofunCompile,
            argv,
            inputs,
            outputs,
        );
        let own = just(bin_id);
        proof {
            let a = action_model(p3, node);
            assert(target_actions(s@, *t, x) == Ok::<Seq<Action>, Fault>(seq![a]));
            assert(paths_at(p3, own@) =~= seq![bin@]);
        }
        self.push_only(node, own)
    }
}

/// Programs and emitted C code have different paths.
proof fn bin_is_not_emitted(config: Configuration, name: Seq<char>)
    ensures
        bin_path(config, name) != emitted_path(config, name),
{
    reveal_strlit(".frost/bin");
    reveal_strlit(".frost/obj");
    assert(bin_path(config, name)[7] == 'b');
    assert(emitted_path(config, name)[7] == 'o');
}

/// Texts that were filled in are those with the configuration in them.
proof fn filled_is_configured(values: Seq<Seq<char>>, config: Configuration, n: nat)
    requires
        n <= values.len(),
        config_texts(values, config, n) is Ok,
    ensures
        config_texts(values, config, n)->Ok_0 == configured(values, config).take(n as int),
    decreases n,
{
    if n > 0 {
        filled_is_configured(values, config, (n - 1) as nat);
        assert(configured(values, config).take(n as int) =~= configured(values, config).take(
            n - 1,
        ).push(config_replaced(values[n - 1], config)));
    } else {
        assert(configured(values, config).take(0) =~= Seq::empty());
    }
}

proof fn step_fault_stays(s: Setting, t: Target, paths: CommandTexts, k: nat, n: nat)
    requires
        k <= n <= t.steps@.len(),
        step_argvs(s, t, paths, k) is Err,
    ensures
        step_argvs(s, t, paths, n) == step_argvs(s, t, paths, k),
    decreases n - k,
{
    if k < n {
        step_fault_stays(s, t, paths, k + 1, n);
    }
}

/// The further commands of a target.
spec fn argv_lists(v: Seq<Vec<String>>) -> Seq<Seq<Seq<char>>> {
    Seq::new(v.len(), |k: int| texts(v[k]@))
}

/// What the variables of a command target stand for.
fn command_paths(s: &Settings, t: &Target, deps: Vec<String>, Ghost(x): Ghost<Exports>) -> (r: Result<
    CommandPaths,
    GraphError,
>)
    requires
        texts(deps@) == x.dep_outputs,
    ensures
        match r {
            Ok(paths) => command_texts(s@, *t, x) == Ok::<CommandTexts, Fault>(paths@)
                && texts(paths.outputs@) == configured(texts(t.outputs@), s.config@)
                && paths.outputs@.len() == t.outputs@.len(),
            Err(e) => command_texts(s@, *t, x) == Err::<CommandTexts, Fault>(e@),
        },
{
    let outputs = match expand_config_templates(&t.outputs, &s.config) {
        Ok(outputs) => outputs,
        Err(error) => {
            return Err(GraphError::Template { error });
        },
    };
    proof {
        filled_is_configured(texts(t.outputs@), s.config@, t.outputs@.len());
        assert(configured(texts(t.outputs@), s.config@).take(t.outputs@.len() as int)
            =~= configured(texts(t.outputs@), s.config@));
        assert(texts(outputs@).len() == outputs@.len());
    }
    let depfile = match &t.depfile {
        None => None,
        Some(path) => match expand_config_template(path, &s.config) {
            Ok(path) => Some(path),
            Err(error) => {
                return Err(GraphError::Template { error });
            },
        },
    };
    let clean_dirs = match expand_config_templates(&t.clean_dirs, &s.config) {
        Ok(clean_dirs) => clean_dirs,
        Err(error) => {
            return Err(GraphError::Template { error });
        },
    };
    Ok(CommandPaths { inputs: copies(&t.inputs), deps, outputs, clean_dirs, depfile })
}

impl Builder {
    /// The further commands of a target. Their drivers become inputs where
    /// they are files of the workspace.
    fn steps(
        &mut self,
        s: &Settings,
        t: &Target,
        paths: &CommandPaths,
        inputs: &mut Vec<usize>,
    ) -> (r: Result<Vec<Vec<String>>, GraphError>)
        requires
            old(self).wf(),
            s.toolchain.tools.wf(),
            paths.outputs@.len() > 0,
            ids_ok(old(self).files@.len(), old(inputs)@),
        ensures
            match r {
                Ok(argvs) => final(self).wf() && final(self).actions@ == old(self).actions@
                    && final(self).models() == old(self).models() && extends(
                    old(self).paths(),
                    final(self).paths(),
                ) && final(self).paths() == add_new(
                    old(self).paths(),
                    step_drivers(s@, *t, t.steps@.len()),
                ) && ids_ok(final(self).files@.len(), final(inputs)@) && paths_at(
                    final(self).paths(),
                    final(inputs)@,
                ) == add_new(
                    paths_at(old(self).paths(), old(inputs)@),
                    step_drivers(s@, *t, t.steps@.len()),
                ) && step_argvs(s@, *t, paths@, t.steps@.len()) == Ok::<
                    Seq<Seq<Seq<char>>>,
                    Fault,
                >(argv_lists(argvs@)),
                Err(e) => step_argvs(s@, *t, paths@, t.steps@.len()) == Err::<
                    Seq<Seq<Seq<char>>>,
                    Fault,
                >(e@),
            },
    {
        let ghost p0 = self.paths();
        let ghost i0 = paths_at(p0, inputs@);
        let mut argvs: Vec<Vec<String>> = Vec::new();
        let mut k: usize = 0;
        assert(argv_lists(argvs@) =~= Seq::empty());
        while k < t.steps.len()
            invariant
                s.toolchain.tools.wf(),
                paths.outputs@.len() > 0,
                k <= t.steps@.len(),
                self.wf(),
                self.actions@ == old(self).actions@,
                self.models() == old(self).models(),
                p0 == old(self).paths(),
                extends(p0, self.paths()),
                self.paths() == add_new(p0, step_drivers(s@, *t, k as nat)),
                ids_ok(self.files@.len(), inputs@),
                paths_at(self.paths(), inputs@) == add_new(i0, step_drivers(s@, *t, k as nat)),
                step_argvs(s@, *t, paths@, k as nat) == Ok::<Seq<Seq<Seq<char>>>, Fault>(
                    argv_lists(argvs@),
                ),
            decreases t.steps@.len() - k,
        {
            let step = &t.steps[k];
            let ghost done = argv_lists(argvs@);
            let ghost next = step_argvs(s@, *t, paths@, (k + 1) as nat);
            proof {
                if next is Err {
                    step_fault_stays(s@, *t, paths@, (k + 1) as nat, t.steps@.len());
                }
            }
            let driver = match s.toolchain.tools.get(&step.tool) {
                Some(driver) => driver,
                None => {
                    return Err(
                        GraphError::StepTool { target: copy(&t.name), tool: copy(&step.tool) },
                    );
                },
            };
            proof {
                let more = local_driver(driver@);
                add_new_split(p0, step_drivers(s@, *t, k as nat), more);
                add_new_split(i0, step_drivers(s@, *t, k as nat), more);
            }
            self.driver_input(driver, inputs);
            match expand_command_args(driver, &step.args, paths, &s.config) {
                Ok(argv) => {
                    argvs.push(argv);
                    assert(argv_lists(argvs@) =~= done.push(texts(argv@)));
                },
                Err(error) => {
                    return Err(GraphError::Template { error });
                },
            }
            k += 1;
        }
        Ok(argvs)
    }

    /// Adds a command target.
    fn command(&mut self, s: &Settings, t: &Target, given: &Given) -> (r: Result<
        Built,
        GraphError,
    >)
        requires
            old(self).wf(),
            t.kind == TargetKind::Command,
            ready(*t),
            s.toolchain.tools.wf(),
            ids_ok(old(self).files@.len(), given.dep_outputs@),
        ensures
            applied(*old(self), *final(self), s@, *t, exports(old(self).paths(), *given), r),
    {
        let ghost p0 = self.paths();
        let ghost x = exports(p0, *given);
        proof {
            reveal(target_step);
            reveal(target_files);
            reveal(target_outputs);
        }
        let tool = match &t.tool {
            Some(tool) => tool,
            None => {
                assert(false);
                &t.name
            },
        };
        let driver = match s.toolchain.tools.get(tool) {
            Some(driver) => driver,
            None => {
                return Err(
                    GraphError::CommandTool {
                        target: copy(&t.name),
                        tool: copy(tool),
                        configured: copies(&s.toolchain.tools.keys),
                    },
                );
            },
        };
        let ghost ins = texts(t.inputs@);
        let ghost local = local_driver(driver@);
        let dep_paths = self.paths_of(&given.dep_outputs);
        let paths = match command_paths(s, t, dep_paths, Ghost(x)) {
            Ok(paths) => paths,
            Err(e) => {
                return Err(e);
            },
        };
        let argv = match expand_command_args(driver, &t.args, &paths, &s.config) {
            Ok(argv) => argv,
            Err(error) => {
                return Err(GraphError::Template { error });
            },
        };
        let mut inputs = self.files_at(&t.inputs);
        let ghost p1 = self.paths();
        self.driver_input(driver, &mut inputs);
        let ghost p2 = self.paths();
        proof {
            add_new_split(p0, ins, local);
            paths_at_grown(p0, p2, given.dep_outputs@);
            assert(p2.len() == self.files@.len());
        }
        add_ids(&mut inputs, &given.dep_outputs, Ghost(p2));
        let followup_argv = match self.steps(s, t, &paths, &mut inputs) {
            Ok(argvs) => argvs,
            Err(e) => {
                return Err(e);
            },
        };
        let ghost p3 = self.paths();
        let ghost used = inputs@;
        let outputs = self.files_at(&paths.outputs);
        let ghost p4 = self.paths();
        proof {
            let drivers = step_drivers(s@, *t, t.steps@.len());
            add_new_split(p0, ins + local, drivers);
            add_new_split(p0, ins + local + drivers, texts(paths.outputs@));
            paths_at_grown(p3, p4, used);
        }
        let mut desc = copy("RUN ");
        desc.append(&t.name);
        desc.append(" [");
        desc.append(tool);
        desc.append("]");
        let node = ActionNode {
            id: cat("command:", &t.name),
            desc,
            kind: ActionKind::Command,
            target: copy(&t.name),
            sandbox: t.sandbox,
            argv,
            followup_argv,
            clean_dirs: paths.clean_dirs,
            preserve_outputs: t.preserve_outputs,
            env: copy_pairs(&t.env),
            pass_env: copies(&t.pass_env),
            inputs,
            order_only_inputs: Vec::new(),
            outputs: copy_ids(&outputs),
            depfile: paths.depfile,
        };
        proof {
            let a = action_model(p4, node);
            assert(a.order_only_inputs =~= Seq::empty());
            assert(a.followup_argv =~= argv_lists(followup_argv@));
            assert(target_actions(s@, *t, x) == Ok::<Seq<Action>, Fault>(seq![a]));
        }
        self.push_only(node, outputs)
    }
}

/// The flags that name include directories.
fn flags_of(dirs: &Vec<String>) -> (r: Vec<String>)
    ensures
        texts(r@) == include_flags(texts(dirs@)),
{
    broadcast use group_texts;
    let mut out: Vec<String> = Vec::new();
    let mut i: usize = 0;
    while i < dirs.len()
        invariant
            i <= dirs@.len(),
            texts(out@) =~= include_flags(texts(dirs@)).take(i as int),
        decreases dirs@.len() - i,
    {
        let ghost all = include_flags(texts(dirs@));
        assert(all.take(i + 1) =~= all.take(i as int).push("-I"@ + dirs@[i as int]@));
        out.push(cat("-I", &dirs[i]));
        i += 1;
    }
    assert(texts(out@) =~= include_flags(texts(dirs@)));
    out
}

/// The command that compiles one source.
fn compile_argv(s: &Settings, t: &Target, given: &Given, src: &str, obj: &str, depfile: &str) -> (r: Vec<
    String,
>)
    requires
        obj@ == obj_path(s.config@, t.name@, src@),
        depfile@ == obj@ + ".d"@,
    ensures
        forall|x: Exports|
            x.includes == texts(given.includes@) ==> texts(r@) == (#[trigger] compile_action(
                s@,
                *t,
                x,
                src@,
            )).argv,
{
    broadcast use group_texts;
    let tc = &s.toolchain;
    let cxx = is_cxx_source(src);
    let mut argv = just(if cxx {
        copy(&tc.cxx)
    } else {
        copy(&tc.cc)
    });
    let mut cflags = copies(&tc.cflags);
    extend(&mut cflags, &s.flags.cflags);
    extend(&mut cflags, &t.cflags);
    let ghost driver = argv@[0]@;
    assert(texts(argv@) =~= seq![driver]);
    extend(&mut argv, &cflags);
    let ghost so_far = texts(argv@);
    if cxx {
        let mut cxxflags = copies(&tc.cxxflags);
        extend(&mut cxxflags, &s.flags.cxxflags);
        extend(&mut argv, &cxxflags);
    } else {
        assert(so_far + Seq::<Seq<char>>::empty() =~= so_far);
    }
    extend(&mut argv, &flags_of(&given.includes));
    let mut tail: Vec<String> = Vec::new();
    tail.push(copy("-MD"));
    tail.push(copy("-MF"));
    tail.push(copy(depfile));
    tail.push(copy("-c"));
    tail.push(copy(src));
    tail.push(copy("-o"));
    tail.push(copy(obj));
    assert(texts(tail@) =~= seq!["-MD"@, "-MF"@, depfile@, "-c"@, src@, "-o"@, obj@]);
    extend(&mut argv, &tail);
    argv
}

/// Whether the target has a source of C++.
fn has_cxx(t: &Target) -> (r: bool)
    ensures
        r == any_cxx(*t),
{
    let mut i: usize = 0;
    while i < t.srcs.len()
        invariant
            i <= t.srcs@.len(),
            forall|j: int| 0 <= j < i ==> !cxx_source((#[trigger] t.srcs@[j])@),
        decreases t.srcs@.len() - i,
    {
        if is_cxx_source(&t.srcs[i]) {
            return true;
        }
        i += 1;
    }
    false
}

/// The target is one of C or C++.
pub open spec fn is_cc(kind: TargetKind) -> bool {
    kind == TargetKind::CcBinary || kind == TargetKind::CcLibrary || kind == TargetKind::CcTest
}

/// The compilations of a target so far.
struct Objects {
    paths: Vec<String>,
    ids: Vec<usize>,
    actions: Vec<usize>,
}

/// The first `k` actions of a C or C++ target are in the graph.
spec fn compiled(before: Builder, now: Builder, s: Setting, t: Target, x: Exports, o: Objects, k: nat) -> bool {
    &&& now.wf()
    &&& extends(before.paths(), now.paths())
    &&& add_actions(before.models(), cc_actions(s, t, x), k) == Ok::<Seq<Action>, Fault>(
        now.models(),
    )
    &&& now.paths() == add_new(before.paths(), compile_files(s.config, t, x, k))
    &&& texts(o.paths@) == objects(s.config, t).take(k as int)
    &&& ids_ok(now.files@.len(), o.ids@)
    &&& paths_at(now.paths(), o.ids@) == objects(s.config, t).take(k as int)
    &&& crate::toposort::ints(o.actions@) == span(
        before.actions@.len() as int,
        (before.actions@.len() + k) as int,
    )
    &&& now.actions@.len() == before.actions@.len() + k
}

impl Builder {
    /// Adds the compilation of source `i`.
    fn compile(
        &mut self,
        s: &Settings,
        t: &Target,
        given: &Given,
        i: usize,
        o: &mut Objects,
        Ghost(b0): Ghost<Builder>,
        Ghost(x): Ghost<Exports>,
    ) -> (r: Result<(), GraphError>)
        requires
            is_cc(t.kind),
            i < t.srcs@.len(),
            x.includes == texts(given.includes@),
            x.gens == texts(given.gens@),
            compiled(b0, *old(self), s@, *t, x, *old(o), i as nat),
        ensures
            match r {
                Ok(_) => compiled(b0, *final(self), s@, *t, x, *final(o), (i + 1) as nat),
                Err(e) => add_actions(
                    b0.models(),
                    cc_actions(s@, *t, x),
                    (i + 1) as nat,
                ) == Err::<Seq<Action>, Fault>(e@),
            },
    {
        broadcast use group_texts;
        let ghost all = cc_actions(s@, *t, x);
        let ghost objs = objects(s.config@, *t);
        let ghost p0 = self.paths();
        let ghost m0 = self.models();
        let src = &t.srcs[i];
        let obj = obj_of(&s.config, &t.name, src);
        let depfile = cat(&obj, ".d");
        let argv = compile_argv(s, t, given, src, &obj, &depfile);
        let src_id = self.file(src);
        let ghost p1 = self.paths();
        let gens = self.files_at(&given.gens);
        let ghost p2 = self.paths();
        let obj_id = self.file(&obj);
        let ghost p3 = self.paths();
        let inputs = just(src_id);
        let outputs = just(obj_id);
        let mut id = copy("compile:");
        id.append(&t.name);
        id.append(":");
        id.append(src);
        let mut node = plain_node(
            t,
            id,
            cat_in("CC ", src, &t.name),
            ActionKind::Compile,
            argv,
            inputs,
            outputs,
        );
        let ghost plain = action_model(p3, node);
        node.order_only_inputs = gens;
        node.depfile = Some(depfile);
        proof {
            let before = b0.paths();
            let done = compile_files(s.config@, *t, x, i as nat);
            add_new_split(before, done, seq![src@]);
            add_new_split(before, done + seq![src@], x.gens);
            add_new_split(before, done + seq![src@] + x.gens, seq![obj@]);
            add_new_extends(before, compile_files(s.config@, *t, x, (i + 1) as nat));
            assert(p3 == add_new(before, compile_files(s.config@, *t, x, (i + 1) as nat)));
            paths_at_grown(p2, p3, gens@);
            assert(paths_at(p3, inputs@) =~= seq![src@]);
            assert(paths_at(p3, outputs@) =~= seq![obj@]);
            paths_at_grown(p0, p3, o.ids@);
            let a = action_model(p3, node);
            assert(a == Action {
                order_only_inputs: x.gens,
                depfile: Some(obj@ + ".d"@),
                ..plain
            });
            assert(a == compile_action(s@, *t, x, src@));
            assert(all[i as int] == a);
            assert(objs.take(i + 1) =~= objs.take(i as int).push(obj@));
        }
        match self.push_action(node) {
            Ok(action) => {
                let ghost was = o.ids@;
                let ghost acts = crate::toposort::ints(o.actions@);
                o.paths.push(obj);
                o.ids.push(obj_id);
                o.actions.push(action);
                proof {
                    assert(self.paths() == p3);
                    assert(self.files@.len() == p3.len());
                    assert(paths_at(p3, o.ids@) =~= paths_at(p3, was).push(obj@));
                    let n = b0.actions@.len() as int;
                    assert(action == n + i);
                    assert(crate::toposort::ints(o.actions@) =~= acts.push(action as int));
                    assert(span(n, n + i + 1) =~= span(n, n + i).push(n + i));
                    assert(self.models().len() == self.actions@.len());
                }
                Ok(())
            },
            Err(e) => Err(e),
        }
    }
}

/// A fault before the end is the fault of all actions of a target.
proof fn cc_fault(before: Builder, s: Setting, t: Target, x: Exports, k: nat)
    requires
        is_cc(t.kind),
        k <= cc_actions(s, t, x).len(),
        add_actions(before.models(), cc_actions(s, t, x), k) is Err,
    ensures
        target_step(before.models(), s, t, x) == add_actions(
            before.models(),
            cc_actions(s, t, x),
            k,
        ),
{
    reveal(target_step);
    let all = cc_actions(s, t, x);
    add_fault_stays(before.models(), all, k, all.len());
}

impl Builder {
    /// Adds a C or C++ target.
    fn cc(&mut self, s: &Settings, t: &Target, given: &Given) -> (r: Result<Built, GraphError>)
        requires
            old(self).wf(),
            is_cc(t.kind),
            ids_ok(old(self).files@.len(), given.dep_outputs@),
        ensures
            applied(*old(self), *final(self), s@, *t, exports(old(self).paths(), *given), r),
    {
        broadcast use group_texts;
        let ghost b0 = *self;
        let ghost x = exports(self.paths(), *given);
        let ghost all = cc_actions(s@, *t, x);
        let ghost n = t.srcs@.len();
        let mut o = Objects { paths: Vec::new(), ids: Vec::new(), actions: Vec::new() };
        let mut i: usize = 0;
        proof {
            let objs = objects(s.config@, *t);
            assert(objs.take(0) =~= Seq::empty());
            assert(paths_at(self.paths(), o.ids@) =~= Seq::empty());
            assert(crate::toposort::ints(o.actions@) =~= span(
                b0.actions@.len() as int,
                b0.actions@.len() as int,
            ));
            assert(compile_files(s.config@, *t, x, 0) =~= Seq::empty());
        }
        while i < t.srcs.len()
            invariant
                b0 == *old(self),
                is_cc(t.kind),
                x == exports(old(self).paths(), *given),
                all == cc_actions(s@, *t, x),
                n == t.srcs@.len(),
                all.len() >= n,
                i <= n,
                compiled(b0, *self, s@, *t, x, o, i as nat),
            decreases n - i,
        {
            match self.compile(s, t, given, i, &mut o, Ghost(b0), Ghost(x)) {
                Ok(_) => {},
                Err(e) => {
                    proof {
                        cc_fault(b0, s@, *t, x, (i + 1) as nat);
                    }
                    return Err(e);
                },
            }
            i += 1;
        }
        let ghost objs = objects(s.config@, *t);
        assert(objs.take(n as int) =~= objs);
        if t.kind == TargetKind::CcLibrary {
            self.archive(s, t, o, Ghost(b0), Ghost(x))
        } else {
            self.link(s, t, given, o, Ghost(b0), Ghost(x))
        }
    }

    /// Adds the library of a target whose sources are compiled.
    fn archive(
        &mut self,
        s: &Settings,
        t: &Target,
        o: Objects,
        Ghost(b0): Ghost<Builder>,
        Ghost(x): Ghost<Exports>,
    ) -> (r: Result<Built, GraphError>)
        requires
            t.kind == TargetKind::CcLibrary,
            compiled(b0, *old(self), s@, *t, x, o, t.srcs@.len()),
        ensures
            applied(b0, *final(self), s@, *t, x, r),
    {
        broadcast use group_texts;
        proof {
            reveal(target_step);
            reveal(target_files);
            reveal(target_outputs);
        }
        let ghost all = cc_actions(s@, *t, x);
        let ghost n = t.srcs@.len();
        let ghost objs = objects(s.config@, *t);
        assert(objs.take(n as int) =~= objs);
        let ghost p0 = self.paths();
        let mut o = o;
        let lib = lib_of(&s.config, &t.name);
        let mut argv = just(copy(&s.toolchain.ar));
        assert(texts(argv@) =~= seq![s.toolchain.ar@]);
        extend(&mut argv, &s.toolchain.arflags);
        let ghost so_far = texts(argv@);
        argv.push(copy(&lib));
        assert(texts(argv@) =~= so_far + seq![lib@]);
        extend(&mut argv, &o.paths);
        let lib_id = self.file(&lib);
        let ghost p1 = self.paths();
        let outputs = just(lib_id);
        let mut desc = copy("AR lib");
        desc.append(&t.name);
        desc.append(".a");
        let node = plain_node(
            t,
            cat("archive:", &t.name),
            desc,
            ActionKind::Archive,
            argv,
            copy_ids(&o.ids),
            just(lib_id),
        );
        proof {
            let before = b0.paths();
            add_new_split(before, compile_files(s.config@, *t, x, n), seq![lib@]);
            add_new_extends(before, target_files(s@, *t, x));
            paths_at_grown(p0, p1, o.ids@);
            assert(paths_at(p1, outputs@) =~= seq![lib@]);
            let a = action_model(p1, node);
            assert(a == archive_action(s@, *t));
            assert(all[n as int] == a);
            assert(all.len() == n + 1);
        }
        match self.push_action(node) {
            Ok(action) => {
                let ghost acts = crate::toposort::ints(o.actions@);
                o.actions.push(action);
                proof {
                    let m = b0.actions@.len() as int;
                    assert(crate::toposort::ints(o.actions@) =~= acts.push(action as int));
                    assert(span(m, m + n + 1) =~= span(m, m + n).push(m + n));
                    assert(self.files@.len() == self.paths().len());
                }
                Ok(Built { actions: o.actions, outputs })
            },
            Err(e) => {
                proof {
                    cc_fault(b0, s@, *t, x, n + 1);
                }
                Err(e)
            },
        }
    }

    /// Adds the program of a target whose sources are compiled, and for a test
    /// its run.
    fn link(
        &mut self,
        s: &Settings,
        t: &Target,
        given: &Given,
        o: Objects,
        Ghost(b0): Ghost<Builder>,
        Ghost(x): Ghost<Exports>,
    ) -> (r: Result<Built, GraphError>)
        requires
            t.kind == TargetKind::CcBinary || t.kind == TargetKind::CcTest,
            x.libs == texts(given.libs@),
            compiled(b0, *old(self), s@, *t, x, o, t.srcs@.len()),
        ensures
            applied(b0, *final(self), s@, *t, x, r),
    {
        broadcast use group_texts;
        proof {
            reveal(target_step);
            reveal(target_files);
            reveal(target_outputs);
        }
        let ghost all = cc_actions(s@, *t, x);
        let ghost n = t.srcs@.len();
        let ghost objs = objects(s.config@, *t);
        assert(objs.take(n as int) =~= objs);
        let ghost p0 = self.paths();
        let mut o = o;
        let bin = bin_of(&s.config, &t.name);
        let mut argv = just(if has_cxx(t) {
            copy(&s.toolchain.cxx)
        } else {
            copy(&s.toolchain.cc)
        });
        assert(texts(argv@) =~= seq![argv@[0]@]);
        extend(&mut argv, &o.paths);
        extend(&mut argv, &given.libs);
        extend(&mut argv, &s.toolchain.ldflags);
        extend(&mut argv, &s.flags.ldflags);
        extend(&mut argv, &t.ldflags);
        let mut tail: Vec<String> = Vec::new();
        tail.push(copy("-o"));
        tail.push(copy(&bin));
        assert(texts(tail@) =~= seq!["-o"@, bin@]);
        extend(&mut argv, &tail);
        let mut lib_ids = self.files_at(&given.libs);
        let ghost p1 = self.paths();
        let ghost libs = lib_ids@;
        let mut inputs = copy_ids(&o.ids);
        inputs.append(&mut lib_ids);
        let bin_id = self.file(&bin);
        let ghost p2 = self.paths();
        let node = plain_node(
            t,
            cat("link:", &t.name),
            cat("LINK ", &t.name),
            ActionKind::Link,
            argv,
            inputs,
            just(bin_id),
        );
        let ghost done = compile_files(s.config@, *t, x, n);
        proof {
            let before = b0.paths();
            add_new_split(before, done, x.libs);
            add_new_split(before, done + x.libs, seq![bin@]);
            add_new_extends(before, done + x.libs + seq![bin@]);
            paths_at_grown(p0, p2, o.ids@);
            paths_at_grown(p1, p2, libs);
            paths_at_add(p2, o.ids@, libs);
            assert(paths_at(p2, seq![bin_id]) =~= seq![bin@]);
            let a = action_model(p2, node);
            assert(a == link_action(s@, *t, x));
            assert(all[n as int] == a);
        }
        match self.push_action(node) {
            Ok(action) => {
                let ghost acts = crate::toposort::ints(o.actions@);
                o.actions.push(action);
                proof {
                    let m = b0.actions@.len() as int;
                    assert(crate::toposort::ints(o.actions@) =~= acts.push(action as int));
                    assert(span(m, m + n + 1) =~= span(m, m + n).push(m + n));
                    assert(self.files@.len() == self.paths().len());
                }
            },
            Err(e) => {
                proof {
                    cc_fault(b0, s@, *t, x, n + 1);
                }
                return Err(e);
            },
        }
        if t.kind == TargetKind::CcBinary {
            let outputs = just(bin_id);
            assert(paths_at(p2, outputs@) =~= seq![bin@]);
            assert(all.len() == n + 1);
            return Ok(Built { actions: o.actions, outputs });
        }
        let stamp = stamp_of(&s.config, &t.name);
        let stamp_id = self.file(&stamp);
        let ghost p3 = self.paths();
        let outputs = just(stamp_id);
        let node = plain_node(
            t,
            cat("test:", &t.name),
            cat("TEST ", &t.name),
            ActionKind::Test,
            just(copy(&bin)),
            just(bin_id),
            just(stamp_id),
        );
        proof {
            let before = b0.paths();
            add_new_split(before, done + x.libs + seq![bin@], seq![stamp@]);
            assert(done + x.libs + seq![bin@] + seq![stamp@] =~= done + x.libs + seq![
                bin@,
                stamp@,
            ]);
            paths_at_grown(p2, p3, seq![bin_id]);
            assert(paths_at(p3, seq![stamp_id]) =~= seq![stamp@]);
            let a = action_model(p3, node);
            assert(a.argv =~= seq![bin@]);
            assert(a == run_action(s@, *t));
            assert(all[n as int + 1] == a);
            assert(all.len() == n + 2);
        }
        match self.push_action(node) {
            Ok(action) => {
                let ghost acts = crate::toposort::ints(o.actions@);
                o.actions.push(action);
                proof {
                    let m = b0.actions@.len() as int;
                    assert(crate::toposort::ints(o.actions@) =~= acts.push(action as int));
                    assert(span(m, m + n + 2) =~= span(m, m + n + 1).push(m + n + 1));
                    assert(self.files@.len() == self.paths().len());
                }
                Ok(Built { actions: o.actions, outputs })
            },
            Err(e) => {
                proof {
                    cc_fault(b0, s@, *t, x, n + 2);
                }
                Err(e)
            },
        }
    }

    /// Adds one target.
    pub fn add_target(&mut self, s: &Settings, t: &Target, given: &Given) -> (r: Result<
        Built,
        GraphError,
    >)
        requires
            old(self).wf(),
            ready(*t),
            s.toolchain.tools.wf(),
            ids_ok(old(self).files@.len(), given.dep_outputs@),
        ensures
            applied(*old(self), *final(self), s@, *t, exports(old(self).paths(), *given), r),
    {
        match t.kind {
            TargetKind::Genrule => self.genrule(s, t, given),
            TargetKind::Test => self.test(s, t, given),
            TargetKind::Command => self.command(s, t, given),
            TargetKind::KofunBinary => self.kofun(s, t, given),
            TargetKind::CcBinary | TargetKind::CcLibrary | TargetKind::CcTest => self.cc(
                s,
                t,
                given,
            ),
        }
    }
}

} // verus!
