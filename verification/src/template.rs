//! The variables in commands, arguments and output paths of targets.

use vstd::prelude::*;
use vstd::string::*;

use crate::text::{
    contains, copy, debug_text, extend, group_texts, join, joined, last_at, occurs, quoted,
    occurs_at, replace, replaced, replaced_behind, replaced_nowhere, rsplit_once, same, texts,
};

verus! {

/// What is wrong with a text that holds variables.
#[derive(Debug, Clone, Copy, PartialEq, Eq, Structural)]
pub enum TemplateFault {
    /// A genrule command holds an unknown variable.
    GenruleVariable,
    /// A path or argument holds an unknown variable.
    ConfigVariable,
    /// A variable that stands for several arguments is part of a longer one.
    SplitCommandArgument,
    SplitTestArgument,
    /// `${depfile}` without a depfile.
    NoDepfile,
    /// `${clean_dir}` without clean directories.
    NoCleanDir,
}

/// A text that holds variables, and what is wrong with it.
#[derive(Debug)]
pub struct TemplateError {
    pub fault: TemplateFault,
    pub text: String,
}

impl TemplateError {
    /// The text that reports the fault.
    pub open spec fn report(self) -> Seq<char> {
        match self.fault {
            TemplateFault::GenruleVariable => "genrule cmd has unknown variable: "@ + debug_text(
                self.text@,
            ) + " (supported: ${in}, ${out}, ${outs})"@,
            TemplateFault::ConfigVariable => "unknown configuration variable in "@ + debug_text(
                self.text@,
            ) + " (supported: ${config}, ${profile}, ${platform})"@,
            TemplateFault::SplitCommandArgument =>
                "multi-value command variables must occupy one complete argument: "@ + debug_text(
                self.text@,
            ),
            TemplateFault::SplitTestArgument =>
                "multi-value test variables must occupy one complete argument: "@ + debug_text(
                self.text@,
            ),
            TemplateFault::NoDepfile =>
                "command arg uses ${depfile} but no depfile is configured"@,
            TemplateFault::NoCleanDir =>
                "command arg uses ${clean_dir} but no clean_dirs are configured"@,
        }
    }

    /// Reports the fault.
    pub fn message(&self) -> (r: String)
        ensures
            r@ == self.report(),
    {
        match self.fault {
            TemplateFault::GenruleVariable => {
                let mut out = copy("genrule cmd has unknown variable: ");
                out.append(&quoted(&self.text));
                out.append(" (supported: ${in}, ${out}, ${outs})");
                out
            },
            TemplateFault::ConfigVariable => {
                let mut out = copy("unknown configuration variable in ");
                out.append(&quoted(&self.text));
                out.append(" (supported: ${config}, ${profile}, ${platform})");
                out
            },
            TemplateFault::SplitCommandArgument => {
                let mut out = copy(
                    "multi-value command variables must occupy one complete argument: ",
                );
                out.append(&quoted(&self.text));
                out
            },
            TemplateFault::SplitTestArgument => {
                let mut out = copy("multi-value test variables must occupy one complete argument: ");
                out.append(&quoted(&self.text));
                out
            },
            TemplateFault::NoDepfile => copy(
                "command arg uses ${depfile} but no depfile is configured",
            ),
            TemplateFault::NoCleanDir => copy(
                "command arg uses ${clean_dir} but no clean_dirs are configured",
            ),
        }
    }
}

/// A result, or what is wrong with which text.
pub type Filled<T> = Result<T, (TemplateFault, Seq<char>)>;

/// What a function returned is what was meant.
pub open spec fn filled_text(r: Result<String, TemplateError>, want: Filled<Seq<char>>) -> bool {
    match r {
        Ok(s) => want == Ok::<Seq<char>, (TemplateFault, Seq<char>)>(s@),
        Err(e) => want == Err::<Seq<char>, (TemplateFault, Seq<char>)>((e.fault, e.text@)),
    }
}

/// What a function returned is what was meant.
pub open spec fn filled_texts(
    r: Result<Vec<String>, TemplateError>,
    want: Filled<Seq<Seq<char>>>,
) -> bool {
    match r {
        Ok(v) => want == Ok::<Seq<Seq<char>>, (TemplateFault, Seq<char>)>(texts(v@)),
        Err(e) => want == Err::<Seq<Seq<char>>, (TemplateFault, Seq<char>)>((e.fault, e.text@)),
    }
}

/// A genrule's command with its inputs and outputs in it. No variable may be
/// left.
pub open spec fn genrule_cmd(
    cmd: Seq<char>,
    inputs: Seq<Seq<char>>,
    outputs: Seq<Seq<char>>,
) -> Filled<Seq<char>> {
    let text = replaced(
        replaced(
            replaced(cmd, "${in}"@, joined(inputs, " "@)),
            "${outs}"@,
            joined(outputs, " "@),
        ),
        "${out}"@,
        outputs[0],
    );
    if occurs(text, "${"@) {
        Err((TemplateFault::GenruleVariable, cmd))
    } else {
        Ok(text)
    }
}

/// A genrule's command with its inputs and outputs in it.
pub fn expand_genrule_cmd(cmd: &str, inputs: &Vec<String>, outputs: &Vec<String>) -> (r: Result<
    String,
    TemplateError,
>)
    requires
        outputs@.len() > 0,
    ensures
        filled_text(r, genrule_cmd(cmd@, texts(inputs@), texts(outputs@))),
{
    assert(texts(outputs@)[0] == outputs@[0]@);
    let text = replace(cmd, "${in}", &join(inputs, " "));
    let text = replace(&text, "${outs}", &join(outputs, " "));
    let text = replace(&text, "${out}", &outputs[0]);
    if contains(&text, "${") {
        return Err(TemplateError { fault: TemplateFault::GenruleVariable, text: copy(cmd) });
    }
    Ok(text)
}

/// The configuration of a build: its profile, its platform, and the part of
/// output paths that both decide.
#[derive(Debug)]
pub struct Config {
    pub tree: String,
    pub profile: String,
    pub platform: String,
}

/// The texts of a configuration.
pub struct Configuration {
    pub tree: Seq<char>,
    pub profile: Seq<char>,
    pub platform: Seq<char>,
}

impl View for Config {
    type V = Configuration;

    open spec fn view(&self) -> Configuration {
        Configuration { tree: self.tree@, profile: self.profile@, platform: self.platform@ }
    }
}

/// A text with the configuration in it.
pub open spec fn config_replaced(value: Seq<char>, config: Configuration) -> Seq<char> {
    replaced(
        replaced(replaced(value, "${config}"@, config.tree), "${profile}"@, config.profile),
        "${platform}"@,
        config.platform,
    )
}

/// A text with the configuration in it. No variable may be left.
pub open spec fn config_text(value: Seq<char>, config: Configuration) -> Filled<Seq<char>> {
    if occurs(config_replaced(value, config), "${"@) {
        Err((TemplateFault::ConfigVariable, value))
    } else {
        Ok(config_replaced(value, config))
    }
}

/// A text with the configuration in it, variables that are left included.
pub fn fill_config(value: &str, config: &Config) -> (r: String)
    ensures
        r@ == config_replaced(value@, config@),
{
    let text = replace(value, "${config}", &config.tree);
    let text = replace(&text, "${profile}", &config.profile);
    replace(&text, "${platform}", &config.platform)
}

/// A text with the configuration in it.
pub fn expand_config_template(value: &str, config: &Config) -> (r: Result<String, TemplateError>)
    ensures
        filled_text(r, config_text(value@, config@)),
{
    let text = fill_config(value, config);
    if contains(&text, "${") {
        return Err(TemplateError { fault: TemplateFault::ConfigVariable, text: copy(value) });
    }
    Ok(text)
}

/// The first `n` texts with the configuration in them, or what is wrong with
/// the first that is left with a variable.
pub open spec fn config_texts(values: Seq<Seq<char>>, config: Configuration, n: nat) -> Filled<
    Seq<Seq<char>>,
>
    decreases n,
{
    if n == 0 {
        Ok(Seq::empty())
    } else {
        match config_texts(values, config, (n - 1) as nat) {
            Err(e) => Err(e),
            Ok(done) => match config_text(values[n - 1], config) {
                Err(e) => Err(e),
                Ok(text) => Ok(done.push(text)),
            },
        }
    }
}

proof fn config_fault_stays(values: Seq<Seq<char>>, config: Configuration, k: nat, n: nat)
    requires
        k <= n <= values.len(),
        config_texts(values, config, k) is Err,
    ensures
        config_texts(values, config, n) == config_texts(values, config, k),
    decreases n - k,
{
    if k < n {
        config_fault_stays(values, config, k + 1, n);
    }
}

/// Texts with the configuration in them.
pub fn expand_config_templates(values: &Vec<String>, config: &Config) -> (r: Result<
    Vec<String>,
    TemplateError,
>)
    ensures
        filled_texts(r, config_texts(texts(values@), config@, values@.len())),
{
    broadcast use group_texts;
    let ghost given = texts(values@);
    let mut out: Vec<String> = Vec::new();
    let mut i: usize = 0;
    while i < values.len()
        invariant
            given == texts(values@),
            i <= values@.len(),
            config_texts(given, config@, i as nat) == Ok::<
                Seq<Seq<char>>,
                (TemplateFault, Seq<char>),
            >(texts(out@)),
        decreases values@.len() - i,
    {
        assert(given[i as int] == values@[i as int]@);
        let ghost done = texts(out@);
        match expand_config_template(&values[i], config) {
            Ok(text) => {
                out.push(text);
                assert(texts(out@) == done.push(text@));
                assert(config_texts(given, config@, (i + 1) as nat) == Ok::<
                    Seq<Seq<char>>,
                    (TemplateFault, Seq<char>),
                >(done.push(text@)));
            },
            Err(e) => {
                proof {
                    config_fault_stays(given, config@, (i + 1) as nat, values@.len());
                }
                return Err(e);
            },
        }
        i += 1;
    }
    Ok(out)
}

/// What the variables of a command stand for.
#[derive(Debug)]
pub struct CommandPaths {
    pub inputs: Vec<String>,
    pub deps: Vec<String>,
    pub outputs: Vec<String>,
    pub clean_dirs: Vec<String>,
    pub depfile: Option<String>,
}

/// The texts that the variables of a command stand for.
pub struct CommandTexts {
    pub inputs: Seq<Seq<char>>,
    pub deps: Seq<Seq<char>>,
    pub outputs: Seq<Seq<char>>,
    pub clean_dirs: Seq<Seq<char>>,
    pub depfile: Option<Seq<char>>,
}

impl View for CommandPaths {
    type V = CommandTexts;

    open spec fn view(&self) -> CommandTexts {
        CommandTexts {
            inputs: texts(self.inputs@),
            deps: texts(self.deps@),
            outputs: texts(self.outputs@),
            clean_dirs: texts(self.clean_dirs@),
            depfile: match self.depfile {
                Some(path) => Some(path@),
                None => None,
            },
        }
    }
}

/// The directory of a path: what stands before its last slash, or `.`.
pub open spec fn directory(path: Seq<char>) -> Seq<char> {
    if last_at(path, '/') < 0 {
        "."@
    } else {
        path.take(last_at(path, '/'))
    }
}

/// An argument with the single-valued variables of a command in it.
pub open spec fn command_text(arg: Seq<char>, paths: CommandTexts, config: Configuration) -> Filled<
    Seq<char>,
> {
    let first = replaced(
        replaced(arg, "${out_dir}"@, directory(paths.outputs[0])),
        "${out}"@,
        paths.outputs[0],
    );
    if occurs(first, "${depfile}"@) && paths.depfile is None {
        Err((TemplateFault::NoDepfile, arg))
    } else {
        let second = match paths.depfile {
            Some(depfile) => replaced(first, "${depfile}"@, depfile),
            None => first,
        };
        if occurs(second, "${clean_dir}"@) && paths.clean_dirs.len() == 0 {
            Err((TemplateFault::NoCleanDir, arg))
        } else {
            let third = if paths.clean_dirs.len() == 0 {
                second
            } else {
                replaced(second, "${clean_dir}"@, paths.clean_dirs[0])
            };
            config_text(third, config)
        }
    }
}

/// The arguments that one argument of a command stands for: a variable with
/// several values stands alone and stands for all of them.
pub open spec fn command_arg(arg: Seq<char>, paths: CommandTexts, config: Configuration) -> Filled<
    Seq<Seq<char>>,
> {
    if arg == "${in}"@ {
        Ok(paths.inputs)
    } else if arg == "${deps}"@ {
        Ok(paths.deps)
    } else if arg == "${outs}"@ {
        Ok(paths.outputs)
    } else if arg == "${clean_dirs}"@ {
        Ok(paths.clean_dirs)
    } else if occurs(arg, "${in}"@) || occurs(arg, "${deps}"@) || occurs(arg, "${outs}"@)
        || occurs(arg, "${clean_dirs}"@) {
        Err((TemplateFault::SplitCommandArgument, arg))
    } else {
        match command_text(arg, paths, config) {
            Ok(text) => Ok(seq![text]),
            Err(e) => Err(e),
        }
    }
}

/// A command: its driver and what its first `n` arguments stand for.
pub open spec fn command_argv(
    driver: Seq<char>,
    args: Seq<Seq<char>>,
    paths: CommandTexts,
    config: Configuration,
    n: nat,
) -> Filled<Seq<Seq<char>>>
    decreases n,
{
    if n == 0 {
        Ok(seq![driver])
    } else {
        match command_argv(driver, args, paths, config, (n - 1) as nat) {
            Err(e) => Err(e),
            Ok(done) => match command_arg(args[n - 1], paths, config) {
                Err(e) => Err(e),
                Ok(more) => Ok(done + more),
            },
        }
    }
}

proof fn command_fault_stays(
    driver: Seq<char>,
    args: Seq<Seq<char>>,
    paths: CommandTexts,
    config: Configuration,
    k: nat,
    n: nat,
)
    requires
        k <= n <= args.len(),
        command_argv(driver, args, paths, config, k) is Err,
    ensures
        command_argv(driver, args, paths, config, n) == command_argv(
            driver,
            args,
            paths,
            config,
            k,
        ),
    decreases n - k,
{
    if k < n {
        command_fault_stays(driver, args, paths, config, k + 1, n);
    }
}

/// Replacing what does not stand in a text changes nothing.
pub proof fn nothing_replaced(s: Seq<char>, from: Seq<char>, to: Seq<char>)
    requires
        !occurs(s, from),
    ensures
        replaced(s, from, to) == s,
    decreases s.len(),
{
    if s.len() > 0 && from.len() > 0 {
        assert(!occurs_at(s, 0, from));
        let rest = s.skip(1);
        assert(!occurs(rest, from)) by {
            if occurs(rest, from) {
                let i = choose|i: int| occurs_at(rest, i, from);
                assert(s.subrange(i + 1, i + 1 + from.len()) =~= rest.subrange(i, i + from.len()));
                assert(occurs_at(s, i + 1, from));
            }
        }
        nothing_replaced(rest, from, to);
        assert(seq![s[0]] + rest =~= s);
    }
}

/// The directory of a path: what stands before its last slash, or `.`.
fn directory_of(path: &str) -> (r: String)
    ensures
        r@ == directory(path@),
{
    match rsplit_once(path, '/') {
        Some((directory, _)) => directory,
        None => copy("."),
    }
}

fn refuse<T>(fault: TemplateFault, text: &str) -> (r: Result<T, TemplateError>)
    ensures
        match r {
            Ok(_) => false,
            Err(e) => e.fault == fault && e.text@ == text@,
        },
{
    Err(TemplateError { fault, text: copy(text) })
}

/// An argument with the single-valued variables of a command in it.
fn expand_command_text(arg: &str, paths: &CommandPaths, config: &Config) -> (r: Result<
    String,
    TemplateError,
>)
    requires
        paths.outputs@.len() > 0,
    ensures
        filled_text(r, command_text(arg@, paths@, config@)),
{
    let output = &paths.outputs[0];
    let mut text = replace(arg, "${out_dir}", &directory_of(output));
    text = replace(&text, "${out}", output);
    if contains(&text, "${depfile}") {
        match &paths.depfile {
            Some(depfile) => {
                text = replace(&text, "${depfile}", depfile);
            },
            None => {
                return refuse(TemplateFault::NoDepfile, arg);
            },
        }
    } else {
        proof {
            if paths.depfile is Some {
                nothing_replaced(text@, "${depfile}"@, paths.depfile->0@);
            }
        }
    }
    if contains(&text, "${clean_dir}") {
        if paths.clean_dirs.len() == 0 {
            return refuse(TemplateFault::NoCleanDir, arg);
        }
        text = replace(&text, "${clean_dir}", &paths.clean_dirs[0]);
    } else {
        proof {
            if paths.clean_dirs@.len() > 0 {
                nothing_replaced(text@, "${clean_dir}"@, paths.clean_dirs@[0]@);
            }
        }
    }
    expand_config_template(&text, config)
}

/// A command: its driver and what its arguments stand for.
pub fn expand_command_args(
    driver: &str,
    args: &Vec<String>,
    paths: &CommandPaths,
    config: &Config,
) -> (r: Result<Vec<String>, TemplateError>)
    requires
        paths.outputs@.len() > 0,
    ensures
        filled_texts(r, command_argv(driver@, texts(args@), paths@, config@, args@.len())),
{
    broadcast use group_texts;
    let ghost given = texts(args@);
    let mut argv: Vec<String> = Vec::new();
    argv.push(copy(driver));
    assert(texts(argv@) =~= seq![driver@]);
    let mut i: usize = 0;
    while i < args.len()
        invariant
            given == texts(args@),
            paths.outputs@.len() > 0,
            i <= args@.len(),
            command_argv(driver@, given, paths@, config@, i as nat) == Ok::<
                Seq<Seq<char>>,
                (TemplateFault, Seq<char>),
            >(texts(argv@)),
        decreases args@.len() - i,
    {
        let arg = &args[i];
        let ghost done = texts(argv@);
        let ghost next = command_argv(driver@, given, paths@, config@, (i + 1) as nat);
        assert(given[i as int] == arg@);
        assert(next == match command_arg(arg@, paths@, config@) {
            Err(e) => Err(e),
            Ok(more) => Ok::<Seq<Seq<char>>, (TemplateFault, Seq<char>)>(done + more),
        });
        proof {
            if next is Err {
                command_fault_stays(driver@, given, paths@, config@, (i + 1) as nat, args@.len());
            }
        }
        if same(arg, "${in}") {
            extend(&mut argv, &paths.inputs);
        } else if same(arg, "${deps}") {
            extend(&mut argv, &paths.deps);
        } else if same(arg, "${outs}") {
            extend(&mut argv, &paths.outputs);
        } else if same(arg, "${clean_dirs}") {
            extend(&mut argv, &paths.clean_dirs);
        } else if contains(arg, "${in}") || contains(arg, "${deps}") || contains(arg, "${outs}")
            || contains(arg, "${clean_dirs}") {
            return refuse(TemplateFault::SplitCommandArgument, arg);
        } else {
            match expand_command_text(arg, paths, config) {
                Ok(text) => {
                    argv.push(text);
                    assert(texts(argv@) =~= done + seq![text@]);
                },
                Err(e) => {
                    return Err(e);
                },
            }
        }
        i += 1;
    }
    Ok(argv)
}

/// The arguments that one argument of a test stands for.
pub open spec fn test_arg(
    arg: Seq<char>,
    inputs: Seq<Seq<char>>,
    deps: Seq<Seq<char>>,
    config: Configuration,
) -> Filled<Seq<Seq<char>>> {
    if arg == "${in}"@ {
        Ok(inputs)
    } else if arg == "${deps}"@ {
        Ok(deps)
    } else if occurs(arg, "${in}"@) || occurs(arg, "${deps}"@) {
        Err((TemplateFault::SplitTestArgument, arg))
    } else {
        match config_text(arg, config) {
            Ok(text) => Ok(seq![text]),
            Err(e) => Err(e),
        }
    }
}

/// A test's command: its driver and what its first `n` arguments stand for.
pub open spec fn test_argv(
    driver: Seq<char>,
    args: Seq<Seq<char>>,
    inputs: Seq<Seq<char>>,
    deps: Seq<Seq<char>>,
    config: Configuration,
    n: nat,
) -> Filled<Seq<Seq<char>>>
    decreases n,
{
    if n == 0 {
        Ok(seq![driver])
    } else {
        match test_argv(driver, args, inputs, deps, config, (n - 1) as nat) {
            Err(e) => Err(e),
            Ok(done) => match test_arg(args[n - 1], inputs, deps, config) {
                Err(e) => Err(e),
                Ok(more) => Ok(done + more),
            },
        }
    }
}

proof fn test_fault_stays(
    driver: Seq<char>,
    args: Seq<Seq<char>>,
    inputs: Seq<Seq<char>>,
    deps: Seq<Seq<char>>,
    config: Configuration,
    k: nat,
    n: nat,
)
    requires
        k <= n <= args.len(),
        test_argv(driver, args, inputs, deps, config, k) is Err,
    ensures
        test_argv(driver, args, inputs, deps, config, n) == test_argv(
            driver,
            args,
            inputs,
            deps,
            config,
            k,
        ),
    decreases n - k,
{
    if k < n {
        test_fault_stays(driver, args, inputs, deps, config, k + 1, n);
    }
}

/// A test's command: its driver and what its arguments stand for.
pub fn expand_test_args(
    driver: &str,
    args: &Vec<String>,
    inputs: &Vec<String>,
    deps: &Vec<String>,
    config: &Config,
) -> (r: Result<Vec<String>, TemplateError>)
    ensures
        filled_texts(
            r,
            test_argv(
                driver@,
                texts(args@),
                texts(inputs@),
                texts(deps@),
                config@,
                args@.len(),
            ),
        ),
{
    broadcast use group_texts;
    let ghost given = texts(args@);
    let ghost ins = texts(inputs@);
    let ghost outs = texts(deps@);
    let mut argv: Vec<String> = Vec::new();
    argv.push(copy(driver));
    assert(texts(argv@) =~= seq![driver@]);
    let mut i: usize = 0;
    while i < args.len()
        invariant
            given == texts(args@),
            ins == texts(inputs@),
            outs == texts(deps@),
            i <= args@.len(),
            test_argv(driver@, given, ins, outs, config@, i as nat) == Ok::<
                Seq<Seq<char>>,
                (TemplateFault, Seq<char>),
            >(texts(argv@)),
        decreases args@.len() - i,
    {
        let arg = &args[i];
        let ghost done = texts(argv@);
        let ghost next = test_argv(driver@, given, ins, outs, config@, (i + 1) as nat);
        assert(given[i as int] == arg@);
        assert(next == match test_arg(arg@, ins, outs, config@) {
            Err(e) => Err(e),
            Ok(more) => Ok::<Seq<Seq<char>>, (TemplateFault, Seq<char>)>(done + more),
        });
        proof {
            if next is Err {
                test_fault_stays(driver@, given, ins, outs, config@, (i + 1) as nat, args@.len());
            }
        }
        if same(arg, "${in}") {
            extend(&mut argv, inputs);
        } else if same(arg, "${deps}") {
            extend(&mut argv, deps);
        } else if contains(arg, "${in}") || contains(arg, "${deps}") {
            return refuse(TemplateFault::SplitTestArgument, arg);
        } else {
            match expand_config_template(arg, config) {
                Ok(text) => {
                    argv.push(text);
                    assert(texts(argv@) =~= done + seq![text@]);
                },
                Err(e) => {
                    return Err(e);
                },
            }
        }
        i += 1;
    }
    Ok(argv)
}

/// No variable is left in a text that was filled in.
pub proof fn no_variable_left(value: Seq<char>, config: Configuration, text: Seq<char>)
    requires
        config_text(value, config) == Ok::<Seq<char>, (TemplateFault, Seq<char>)>(text),
    ensures
        !occurs(text, "${"@),
{
}

// ---------------------------------------------------------------------------
// What variables stand for
// ---------------------------------------------------------------------------

/// Without a dollar sign there is no variable.
proof fn plain_has_none(s: Seq<char>, variable: Seq<char>)
    requires
        !s.contains('$'),
        variable.len() > 0,
        variable[0] == '$',
    ensures
        !occurs(s, variable),
{
    if occurs(s, variable) {
        let i = choose|i: int| occurs_at(s, i, variable);
        assert(s.subrange(i, i + variable.len())[0] == s[i]);
        assert(s.contains(s[i]));
    }
}

proof fn joined_plain(parts: Seq<Seq<char>>, sep: Seq<char>)
    requires
        !sep.contains('$'),
        forall|i: int| 0 <= i < parts.len() ==> !(#[trigger] parts[i]).contains('$'),
    ensures
        !joined(parts, sep).contains('$'),
{
    if joined(parts, sep).contains('$') {
        crate::text::joined_from(parts, sep, '$');
    }
}

proof fn three_plain(a: Seq<char>, b: Seq<char>, c: Seq<char>)
    requires
        !a.contains('$'),
        !b.contains('$'),
        !c.contains('$'),
    ensures
        !(a + b + c).contains('$'),
{
    let s = a + b + c;
    if s.contains('$') {
        let i = s.index_of('$');
        if i < a.len() {
            assert(a[i] == '$');
        } else if i < a.len() + b.len() {
            assert(b[i - a.len()] == '$');
        } else {
            assert(c[i - a.len() - b.len()] == '$');
        }
    }
}

/// In the command of a genrule `${in}` stands for all inputs and `${outs}` for all
/// outputs, with blanks between, and `${out}` for the first output; what stands
/// around them stays. The variables stand between texts without a dollar sign.
pub proof fn genrule_variables_are_filled_in(
    cmd: &str,
    inputs: Vec<String>,
    outputs: Vec<String>,
    r: Result<String, TemplateError>,
    p: Seq<char>,
    q: Seq<char>,
)
    requires
        call_ensures(expand_genrule_cmd, (cmd, &inputs, &outputs), r),
        outputs@.len() > 0,
        !p.contains('$'),
        !q.contains('$'),
        forall|i: int| 0 <= i < inputs@.len() ==> !(#[trigger] inputs@[i])@.contains('$'),
        forall|i: int| 0 <= i < outputs@.len() ==> !(#[trigger] outputs@[i])@.contains('$'),
    ensures
        cmd@ == p + "${in}"@ + q ==> r is Ok && r->Ok_0@ == p + joined(texts(inputs@), " "@) + q,
        cmd@ == p + "${outs}"@ + q ==> r is Ok && r->Ok_0@ == p + joined(texts(outputs@), " "@) + q,
        cmd@ == p + "${out}"@ + q ==> r is Ok && r->Ok_0@ == p + outputs@[0]@ + q,
        cmd@ == p + q ==> r is Ok && r->Ok_0@ == p + q,
{
    reveal_strlit("${in}");
    reveal_strlit("${out}");
    reveal_strlit("${outs}");
    reveal_strlit("${");
    reveal_strlit(" ");
    let ins = joined(texts(inputs@), " "@);
    let outs = joined(texts(outputs@), " "@);
    let first = outputs@[0]@;
    assert(texts(outputs@)[0] == first);
    assert forall|i: int| 0 <= i < texts(inputs@).len() implies !(#[trigger] texts(
        inputs@,
    )[i]).contains('$') by {
        assert(!inputs@[i]@.contains('$'));
    }
    assert forall|i: int| 0 <= i < texts(outputs@).len() implies !(#[trigger] texts(
        outputs@,
    )[i]).contains('$') by {
        assert(!outputs@[i]@.contains('$'));
    }
    joined_plain(texts(inputs@), " "@);
    joined_plain(texts(outputs@), " "@);
    assert(!first.contains('$'));
    if cmd@ == p + "${in}"@ + q {
        replaced_behind(p, "${in}"@, q, ins);
        replaced_nowhere(q, "${in}"@, ins);
        let s = p + ins + q;
        three_plain(p, ins, q);
        replaced_nowhere(s, "${outs}"@, outs);
        replaced_nowhere(s, "${out}"@, first);
        plain_has_none(s, "${"@);
    }
    if cmd@ == p + "${outs}"@ + q {
        assert("${outs}"@.take(5)[2] == "${outs}"@[2]);
        absent_before(p, "${outs}"@, q, "${in}"@, ins);
        replaced_behind(p, "${outs}"@, q, outs);
        replaced_nowhere(q, "${outs}"@, outs);
        let s = p + outs + q;
        three_plain(p, outs, q);
        replaced_nowhere(s, "${out}"@, first);
        plain_has_none(s, "${"@);
    }
    if cmd@ == p + "${out}"@ + q {
        assert("${out}"@.take(5)[2] == "${out}"@[2]);
        absent_before(p, "${out}"@, q, "${in}"@, ins);
        absent_before(p, "${out}"@, q, "${outs}"@, outs);
        replaced_behind(p, "${out}"@, q, first);
        replaced_nowhere(q, "${out}"@, first);
        let s = p + first + q;
        three_plain(p, first, q);
        plain_has_none(s, "${"@);
    }
    if cmd@ == p + q {
        let none = Seq::<char>::empty();
        assert(p + q =~= p + none + q);
        three_plain(p, none, q);
        replaced_nowhere(p + q, "${in}"@, ins);
        replaced_nowhere(p + q, "${outs}"@, outs);
        replaced_nowhere(p + q, "${out}"@, first);
        plain_has_none(p + q, "${"@);
    }
}

/// Another variable than the one that stands there is not replaced.
proof fn absent_before(
    p: Seq<char>,
    here: Seq<char>,
    q: Seq<char>,
    other: Seq<char>,
    to: Seq<char>,
)
    requires
        !p.contains('$'),
        !q.contains('$'),
        here.len() > 0,
        other.len() > 0,
        other[0] == '$',
        here[0] == '$',
        !here.skip(1).contains('$'),
        here.len() <= other.len() || here.take(other.len() as int) != other,
        here.len() >= other.len() || other[here.len() as int - 1] != here[here.len() as int - 1],
        here.len() == other.len() ==> here != other,
    ensures
        replaced(p + here + q, other, to) == p + here + q,
{
    let s = p + here + q;
    if occurs(s, other) {
        let i = choose|i: int| occurs_at(s, i, other);
        let part = s.subrange(i, i + other.len());
        assert(part[0] == s[i]);
        if i < p.len() {
            assert(p[i] == '$');
        } else if i == p.len() {
            if here.len() >= other.len() {
                assert(here.take(other.len() as int) =~= part);
                if here.len() == other.len() {
                    assert(here.take(other.len() as int) =~= here);
                }
            } else {
                assert(part[here.len() as int - 1] == here[here.len() as int - 1]);
            }
        } else if i < p.len() + here.len() {
            assert(here.skip(1)[i - p.len() - 1] == '$');
        } else {
            assert(q[i - p.len() - here.len()] == '$');
        }
    }
    nothing_replaced(s, other, to);
}

/// In paths and arguments `${profile}` stands for the profile, `${platform}` for
/// the platform and `${config}` for the part of output paths that both decide.
pub proof fn config_variables_are_filled_in(
    value: &str,
    config: Config,
    r: Result<String, TemplateError>,
    p: Seq<char>,
    q: Seq<char>,
)
    requires
        call_ensures(expand_config_template, (value, &config), r),
        !p.contains('$'),
        !q.contains('$'),
        !config.tree@.contains('$'),
        !config.profile@.contains('$'),
        !config.platform@.contains('$'),
    ensures
        value@ == p + "${config}"@ + q ==> r is Ok && r->Ok_0@ == p + config.tree@ + q,
        value@ == p + "${profile}"@ + q ==> r is Ok && r->Ok_0@ == p + config.profile@ + q,
        value@ == p + "${platform}"@ + q ==> r is Ok && r->Ok_0@ == p + config.platform@ + q,
        value@ == p + q ==> r is Ok && r->Ok_0@ == p + q,
{
    reveal_strlit("${config}");
    reveal_strlit("${profile}");
    reveal_strlit("${platform}");
    reveal_strlit("${");
    let tree = config.tree@;
    let profile = config.profile@;
    let platform = config.platform@;
    if value@ == p + "${config}"@ + q {
        replaced_behind(p, "${config}"@, q, tree);
        replaced_nowhere(q, "${config}"@, tree);
        let s = p + tree + q;
        three_plain(p, tree, q);
        replaced_nowhere(s, "${profile}"@, profile);
        replaced_nowhere(s, "${platform}"@, platform);
        plain_has_none(s, "${"@);
    }
    if value@ == p + "${profile}"@ + q {
        assert("${config}"@[2] != "${profile}"@[2]);
        assert("${profile}"@.take(9)[2] == "${profile}"@[2]);
        absent_before(p, "${profile}"@, q, "${config}"@, tree);
        replaced_behind(p, "${profile}"@, q, profile);
        replaced_nowhere(q, "${profile}"@, profile);
        let s = p + profile + q;
        three_plain(p, profile, q);
        replaced_nowhere(s, "${platform}"@, platform);
        plain_has_none(s, "${"@);
    }
    if value@ == p + "${platform}"@ + q {
        assert("${platform}"@.take(9)[2] == "${platform}"@[2]);
        assert("${platform}"@.take(10)[3] == "${platform}"@[3]);
        absent_before(p, "${platform}"@, q, "${config}"@, tree);
        absent_before(p, "${platform}"@, q, "${profile}"@, profile);
        replaced_behind(p, "${platform}"@, q, platform);
        replaced_nowhere(q, "${platform}"@, platform);
        let s = p + platform + q;
        three_plain(p, platform, q);
        plain_has_none(s, "${"@);
    }
    if value@ == p + q {
        let none = Seq::<char>::empty();
        assert(p + q =~= p + none + q);
        three_plain(p, none, q);
        replaced_nowhere(p + q, "${config}"@, tree);
        replaced_nowhere(p + q, "${profile}"@, profile);
        replaced_nowhere(p + q, "${platform}"@, platform);
        plain_has_none(p + q, "${"@);
    }
}

/// One more argument of a command adds behind what was there: all inputs for
/// `${in}`, all outputs of dependencies for `${deps}`, all outputs for `${outs}`,
/// all clean directories for `${clean_dirs}`, and an argument without variables as
/// it stands. Without arguments a command is its driver alone.
pub proof fn each_argument_adds_its_values(
    driver: &str,
    args: Vec<String>,
    longer: Vec<String>,
    paths: CommandPaths,
    config: Config,
    r: Vec<String>,
    s: Vec<String>,
)
    requires
        call_ensures(
            expand_command_args,
            (driver, &args, &paths, &config),
            Ok::<Vec<String>, TemplateError>(r),
        ),
        call_ensures(
            expand_command_args,
            (driver, &longer, &paths, &config),
            Ok::<Vec<String>, TemplateError>(s),
        ),
        longer@.len() == args@.len() + 1,
        texts(longer@).drop_last() == texts(args@),
        paths.outputs@.len() > 0,
    ensures
        args@.len() == 0 ==> texts(r@) == seq![driver@],
        longer@.last()@ == "${in}"@ ==> texts(s@) == texts(r@) + texts(paths.inputs@),
        longer@.last()@ == "${deps}"@ ==> texts(s@) == texts(r@) + texts(paths.deps@),
        longer@.last()@ == "${outs}"@ ==> texts(s@) == texts(r@) + texts(paths.outputs@),
        longer@.last()@ == "${clean_dirs}"@ ==> texts(s@) == texts(r@) + texts(paths.clean_dirs@),
        !longer@.last()@.contains('$') ==> texts(s@) == texts(r@) + seq![longer@.last()@],
{
    reveal_strlit("${in}");
    reveal_strlit("${deps}");
    reveal_strlit("${outs}");
    reveal_strlit("${clean_dirs}");
    assert("${outs}"@[2] != "${deps}"@[2]);
    let n = args@.len();
    let x = longer@.last()@;
    assert(texts(longer@).len() == longer@.len());
    assert(texts(args@).len() == n);
    assert(texts(longer@)[n as int] == x);
    command_argv_prefix(driver@, texts(args@), texts(longer@), paths@, config@, n);
    assert(command_argv(driver@, texts(longer@), paths@, config@, n + 1) is Ok);
    if !x.contains('$') {
        reveal_strlit("${out_dir}");
        reveal_strlit("${out}");
        reveal_strlit("${depfile}");
        reveal_strlit("${clean_dir}");
        reveal_strlit("${config}");
        reveal_strlit("${profile}");
        reveal_strlit("${platform}");
        reveal_strlit("${");
        plain_has_none(x, "${in}"@);
        plain_has_none(x, "${deps}"@);
        plain_has_none(x, "${outs}"@);
        plain_has_none(x, "${clean_dirs}"@);
        plain_has_none(x, "${depfile}"@);
        plain_has_none(x, "${clean_dir}"@);
        plain_has_none(x, "${"@);
        replaced_nowhere(x, "${out_dir}"@, directory(paths@.outputs[0]));
        replaced_nowhere(x, "${out}"@, paths@.outputs[0]);
        if let Some(depfile) = paths@.depfile {
            replaced_nowhere(x, "${depfile}"@, depfile);
        }
        if paths@.clean_dirs.len() > 0 {
            replaced_nowhere(x, "${clean_dir}"@, paths@.clean_dirs[0]);
        }
        replaced_nowhere(x, "${config}"@, config@.tree);
        replaced_nowhere(x, "${profile}"@, config@.profile);
        replaced_nowhere(x, "${platform}"@, config@.platform);
        assert(x != "${in}"@) by {
            assert("${in}"@[0] == '$' && "${in}"@.contains("${in}"@[0]));
        }
        assert(x != "${deps}"@) by {
            assert("${deps}"@[0] == '$' && "${deps}"@.contains("${deps}"@[0]));
        }
        assert(x != "${outs}"@) by {
            assert("${outs}"@[0] == '$' && "${outs}"@.contains("${outs}"@[0]));
        }
        assert(x != "${clean_dirs}"@) by {
            assert("${clean_dirs}"@[0] == '$' && "${clean_dirs}"@.contains("${clean_dirs}"@[0]));
        }
        assert(command_arg(x, paths@, config@) == Ok::<
            Seq<Seq<char>>,
            (TemplateFault, Seq<char>),
        >(seq![x]));
    }
}

proof fn command_argv_prefix(
    driver: Seq<char>,
    args: Seq<Seq<char>>,
    longer: Seq<Seq<char>>,
    paths: CommandTexts,
    config: Configuration,
    n: nat,
)
    requires
        n <= args.len() < longer.len(),
        longer.take(args.len() as int) == args,
    ensures
        command_argv(driver, args, paths, config, n) == command_argv(
            driver,
            longer,
            paths,
            config,
            n,
        ),
    decreases n,
{
    if n > 0 {
        command_argv_prefix(driver, args, longer, paths, config, (n - 1) as nat);
        assert(longer.take(args.len() as int)[n - 1] == longer[n - 1]);
    }
}

/// An argument that holds a variable of several values beside other text is
/// refused.
pub proof fn split_variable_is_refused(
    driver: &str,
    args: Vec<String>,
    paths: CommandPaths,
    config: Config,
    r: Result<Vec<String>, TemplateError>,
    i: int,
)
    requires
        call_ensures(expand_command_args, (driver, &args, &paths, &config), r),
        paths.outputs@.len() > 0,
        0 <= i < args@.len(),
        ({
            let x = args@[i]@;
            ||| occurs(x, "${in}"@) && x.len() > "${in}"@.len()
            ||| occurs(x, "${deps}"@) && x.len() > "${deps}"@.len()
            ||| occurs(x, "${outs}"@) && x.len() > "${outs}"@.len()
        }),
    ensures
        r is Err,
{
    reveal_strlit("${in}");
    reveal_strlit("${deps}");
    reveal_strlit("${outs}");
    reveal_strlit("${clean_dirs}");
    let x = args@[i]@;
    assert(texts(args@)[i] == x);
    assert(texts(args@).len() == args@.len());
    assert(command_arg(x, paths@, config@) is Err) by {
        whole_variable_is_alone(x);
    }
    assert(command_argv(driver@, texts(args@), paths@, config@, (i + 1) as nat) is Err);
    command_fault_stays(
        driver@,
        texts(args@),
        paths@,
        config@,
        (i + 1) as nat,
        args@.len(),
    );
}

/// A variable of several values holds no other.
proof fn whole_variable_is_alone(x: Seq<char>)
    requires
        ({
            ||| occurs(x, "${in}"@) && x.len() > "${in}"@.len()
            ||| occurs(x, "${deps}"@) && x.len() > "${deps}"@.len()
            ||| occurs(x, "${outs}"@) && x.len() > "${outs}"@.len()
        }),
    ensures
        x != "${in}"@ && x != "${deps}"@ && x != "${outs}"@ && x != "${clean_dirs}"@,
{
    reveal_strlit("${in}");
    reveal_strlit("${deps}");
    reveal_strlit("${outs}");
    reveal_strlit("${clean_dirs}");
    if occurs(x, "${in}"@) {
        let i = choose|i: int| occurs_at(x, i, "${in}"@);
        let part = x.subrange(i, i + 5);
        assert(part[0] == x[i] && part[2] == x[i + 2] && part[3] == x[i + 3]);
    }
    if occurs(x, "${deps}"@) {
        let i = choose|i: int| occurs_at(x, i, "${deps}"@);
        let part = x.subrange(i, i + 7);
        assert(part[0] == x[i] && part[2] == x[i + 2] && part[3] == x[i + 3]);
    }
    if occurs(x, "${outs}"@) {
        let i = choose|i: int| occurs_at(x, i, "${outs}"@);
        let part = x.subrange(i, i + 7);
        assert(part[0] == x[i] && part[2] == x[i + 2] && part[3] == x[i + 3]);
    }
}

proof fn test_argv_prefix(
    driver: Seq<char>,
    args: Seq<Seq<char>>,
    longer: Seq<Seq<char>>,
    inputs: Seq<Seq<char>>,
    deps: Seq<Seq<char>>,
    config: Configuration,
    n: nat,
)
    requires
        n <= args.len() < longer.len(),
        longer.take(args.len() as int) == args,
    ensures
        test_argv(driver, args, inputs, deps, config, n) == test_argv(
            driver,
            longer,
            inputs,
            deps,
            config,
            n,
        ),
    decreases n,
{
    if n > 0 {
        test_argv_prefix(driver, args, longer, inputs, deps, config, (n - 1) as nat);
        assert(longer.take(args.len() as int)[n - 1] == longer[n - 1]);
    }
}

/// One more argument of a test adds behind what was there: all inputs for `${in}`,
/// all outputs of dependencies for `${deps}`, and an argument without variables as
/// it stands. Without arguments a test is its driver alone.
pub proof fn each_test_argument_adds_its_values(
    driver: &str,
    args: Vec<String>,
    longer: Vec<String>,
    inputs: Vec<String>,
    deps: Vec<String>,
    config: Config,
    r: Vec<String>,
    s: Vec<String>,
)
    requires
        call_ensures(
            expand_test_args,
            (driver, &args, &inputs, &deps, &config),
            Ok::<Vec<String>, TemplateError>(r),
        ),
        call_ensures(
            expand_test_args,
            (driver, &longer, &inputs, &deps, &config),
            Ok::<Vec<String>, TemplateError>(s),
        ),
        longer@.len() == args@.len() + 1,
        texts(longer@).drop_last() == texts(args@),
    ensures
        args@.len() == 0 ==> texts(r@) == seq![driver@],
        longer@.last()@ == "${in}"@ ==> texts(s@) == texts(r@) + texts(inputs@),
        longer@.last()@ == "${deps}"@ ==> texts(s@) == texts(r@) + texts(deps@),
        !longer@.last()@.contains('$') ==> texts(s@) == texts(r@) + seq![longer@.last()@],
{
    reveal_strlit("${in}");
    reveal_strlit("${deps}");
    let n = args@.len();
    let x = longer@.last()@;
    assert(texts(longer@).len() == longer@.len());
    assert(texts(args@).len() == n);
    assert(texts(longer@)[n as int] == x);
    test_argv_prefix(
        driver@,
        texts(args@),
        texts(longer@),
        texts(inputs@),
        texts(deps@),
        config@,
        n,
    );
    assert(test_argv(
        driver@,
        texts(longer@),
        texts(inputs@),
        texts(deps@),
        config@,
        n + 1,
    ) is Ok);
    if !x.contains('$') {
        reveal_strlit("${config}");
        reveal_strlit("${profile}");
        reveal_strlit("${platform}");
        reveal_strlit("${");
        plain_has_none(x, "${in}"@);
        plain_has_none(x, "${deps}"@);
        plain_has_none(x, "${"@);
        replaced_nowhere(x, "${config}"@, config@.tree);
        replaced_nowhere(x, "${profile}"@, config@.profile);
        replaced_nowhere(x, "${platform}"@, config@.platform);
        assert(x != "${in}"@) by {
            assert("${in}"@[0] == '$' && "${in}"@.contains("${in}"@[0]));
        }
        assert(x != "${deps}"@) by {
            assert("${deps}"@[0] == '$' && "${deps}"@.contains("${deps}"@[0]));
        }
        assert(test_arg(x, texts(inputs@), texts(deps@), config@) == Ok::<
            Seq<Seq<char>>,
            (TemplateFault, Seq<char>),
        >(seq![x]));
    }
}

} // verus!
