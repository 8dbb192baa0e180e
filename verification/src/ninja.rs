//! Importing Ninja files.

use vstd::prelude::*;
use vstd::string::*;

use crate::action_key::text_map;
use crate::literal::{json_array, json_list};
use crate::sorted_map::SortedMap;
use crate::text::{
    alphanumeric, begins, chars_of, copy, debug_text, first_at, group_texts, is_alphanumeric, lines,
    lines_of, quoted, replace, replaced, same, split_once, split_whitespace, starts_with,
    strip_prefix, text_of, texts, trim, trim_start, trimmed, trimmed_start, words,
};

verus! {

/// What is wrong with a Ninja file.
#[derive(Debug)]
pub enum NinjaError {
    InvalidStatement,
    MissingRule,
    NoOutput,
    UnknownRule { rule: String },
}

impl NinjaError {
    pub open spec fn text(self) -> Seq<char> {
        match self {
            NinjaError::InvalidStatement => "invalid Ninja build statement"@,
            NinjaError::MissingRule => "missing Ninja rule"@,
            NinjaError::NoOutput => "build has no output"@,
            NinjaError::UnknownRule { rule } => "unsupported/unknown Ninja rule "@ + debug_text(
                rule@,
            ),
        }
    }

    /// Reports the fault.
    pub fn message(&self) -> (r: String)
        ensures
            r@ == self.text(),
    {
        match self {
            NinjaError::InvalidStatement => copy("invalid Ninja build statement"),
            NinjaError::MissingRule => copy("missing Ninja rule"),
            NinjaError::NoOutput => copy("build has no output"),
            NinjaError::UnknownRule { rule } => {
                let mut out = copy("unsupported/unknown Ninja rule ");
                out.append(&quoted(rule));
                out
            },
        }
    }
}

/// The commands of rules, and the rule that lines belong to.
#[verifier::ext_equal]
pub struct RuleState {
    pub commands: Map<Seq<char>, Seq<char>>,
    pub current: Option<Seq<char>>,
}

/// The rules after one more line.
pub open spec fn rule_step(s: RuleState, line: Seq<char>) -> RuleState {
    let inner = trimmed_start(line);
    if begins(line, "rule "@) {
        RuleState { current: Some(trimmed(line.skip(5))), ..s }
    } else if begins(inner, "command = "@) {
        match s.current {
            Some(name) => RuleState { commands: s.commands.insert(name, inner.skip(10)), ..s },
            None => s,
        }
    } else if !begins(line, " "@) {
        RuleState { current: None, ..s }
    } else {
        s
    }
}

/// The rules after the first `n` lines.
pub open spec fn rules_upto(lines: Seq<Seq<char>>, n: nat) -> RuleState
    decreases n,
{
    if n == 0 {
        RuleState { commands: Map::empty(), current: None }
    } else {
        rule_step(rules_upto(lines, (n - 1) as nat), lines[n - 1])
    }
}

/// A build statement.
#[verifier::ext_equal]
pub struct BuildText {
    pub name: Seq<char>,
    pub rule: Seq<char>,
    pub inputs: Seq<Seq<char>>,
    pub outputs: Seq<Seq<char>>,
}

/// A character of a target's name.
pub open spec fn target_char(c: char) -> char {
    if is_alphanumeric(c) {
        c
    } else {
        '_'
    }
}

/// The name of the target that makes a file.
pub open spec fn target_of(path: Seq<char>) -> Seq<char> {
    path.map_values(|c: char| target_char(c))
}

/// Words but the bar between inputs.
pub open spec fn without_bars(w: Seq<Seq<char>>) -> Seq<Seq<char>> {
    w.filter(|s: Seq<char>| s != "|"@)
}

/// What is wrong with a build statement.
#[derive(Debug, Clone, Copy, PartialEq, Eq, Structural)]
pub enum StatementFault {
    Invalid,
    NoRule,
    NoOutput,
}

/// The build statement on a line that begins one, or what is wrong with it.
pub open spec fn statement_on(line: Seq<char>) -> Result<BuildText, StatementFault> {
    let rest = line.skip(6);
    let at = first_at(rest, ':');
    if at >= rest.len() {
        Err(StatementFault::Invalid)
    } else {
        let outputs = words(rest.take(at));
        let fields = words(rest.skip(at + 1));
        if fields.len() == 0 {
            Err(StatementFault::NoRule)
        } else if outputs.len() == 0 {
            Err(StatementFault::NoOutput)
        } else {
            Ok(
                BuildText {
                    name: target_of(outputs[0]),
                    rule: fields[0],
                    inputs: without_bars(fields.skip(1)),
                    outputs,
                },
            )
        }
    }
}

/// The build statements on the first `n` lines, or what is wrong with the
/// first that is not valid.
pub open spec fn statements_upto(lines: Seq<Seq<char>>, n: nat) -> Result<
    Seq<BuildText>,
    StatementFault,
>
    decreases n,
{
    if n == 0 {
        Ok(Seq::empty())
    } else {
        match statements_upto(lines, (n - 1) as nat) {
            Err(fault) => Err(fault),
            Ok(before) => if begins(lines[n - 1], "build "@) {
                match statement_on(lines[n - 1]) {
                    Err(fault) => Err(fault),
                    Ok(b) => Ok(before.push(b)),
                }
            } else {
                Ok(before)
            },
        }
    }
}

proof fn statement_fault_stays(lines: Seq<Seq<char>>, n: nat, m: nat)
    requires
        n <= m,
        statements_upto(lines, n) is Err,
    ensures
        statements_upto(lines, m) == statements_upto(lines, n),
    decreases m,
{
    if n < m {
        statement_fault_stays(lines, n, (m - 1) as nat);
    }
}

/// Which target makes each of some files.
pub open spec fn makes(
    before: Map<Seq<char>, Seq<char>>,
    files: Seq<Seq<char>>,
    name: Seq<char>,
    n: nat,
) -> Map<Seq<char>, Seq<char>>
    decreases n,
{
    if n == 0 {
        before
    } else {
        makes(before, files, name, (n - 1) as nat).insert(files[n - 1], name)
    }
}

/// Which target makes each output of the first `n` statements.
pub open spec fn producers(builds: Seq<BuildText>, n: nat) -> Map<Seq<char>, Seq<char>>
    decreases n,
{
    if n == 0 {
        Map::empty()
    } else {
        makes(
            producers(builds, (n - 1) as nat),
            builds[n - 1].outputs,
            builds[n - 1].name,
            builds[n - 1].outputs.len(),
        )
    }
}

/// The targets that make the first `n` inputs.
pub open spec fn made_by(
    inputs: Seq<Seq<char>>,
    made: Map<Seq<char>, Seq<char>>,
    n: nat,
) -> Seq<Seq<char>>
    decreases n,
{
    if n == 0 {
        Seq::empty()
    } else {
        let before = made_by(inputs, made, (n - 1) as nat);
        if made.dom().contains(inputs[n - 1]) {
            before.push(made[inputs[n - 1]])
        } else {
            before
        }
    }
}

/// Those of the first `n` inputs that no target makes.
pub open spec fn given_files(
    inputs: Seq<Seq<char>>,
    made: Map<Seq<char>, Seq<char>>,
    n: nat,
) -> Seq<Seq<char>>
    decreases n,
{
    if n == 0 {
        Seq::empty()
    } else {
        let before = given_files(inputs, made, (n - 1) as nat);
        if made.dom().contains(inputs[n - 1]) {
            before
        } else {
            before.push(inputs[n - 1])
        }
    }
}

/// A command with its variables in the notation of manifests.
pub open spec fn command_text(command: Seq<char>) -> Seq<char> {
    replaced(replaced(command, "$in"@, "${in}"@), "$out"@, "${outs}"@)
}

/// The manifest section of a build statement.
pub open spec fn section(
    b: BuildText,
    commands: Map<Seq<char>, Seq<char>>,
    made: Map<Seq<char>, Seq<char>>,
) -> Seq<char> {
    "[target."@ + b.name + "]\nkind = \"genrule\"\ncmd = "@ + debug_text(
        command_text(commands[b.rule]),
    ) + "\ninputs = "@ + json_array(given_files(b.inputs, made, b.inputs.len()))
        + "\noutputs = "@ + json_array(b.outputs) + "\ndeps = "@ + json_array(
        made_by(b.inputs, made, b.inputs.len()),
    ) + "\n\n"@
}

/// The manifest sections of the first `n` build statements.
pub open spec fn sections(
    builds: Seq<BuildText>,
    commands: Map<Seq<char>, Seq<char>>,
    made: Map<Seq<char>, Seq<char>>,
    n: nat,
) -> Seq<char>
    decreases n,
{
    if n == 0 {
        Seq::empty()
    } else {
        sections(builds, commands, made, (n - 1) as nat) + section(builds[n - 1], commands, made)
    }
}

/// What the import of a file gives.
pub open spec fn imports(text: Seq<char>, r: Result<String, NinjaError>) -> bool {
    let all = lines_of(text);
    let commands = rules_upto(all, all.len()).commands;
    match statements_upto(all, all.len()) {
        Err(StatementFault::Invalid) => r is Err && r->Err_0 is InvalidStatement,
        Err(StatementFault::NoRule) => r is Err && r->Err_0 is MissingRule,
        Err(StatementFault::NoOutput) => r is Err && r->Err_0 is NoOutput,
        Ok(builds) => match r {
            Ok(out) => {
                &&& forall|i: int|
                    0 <= i < builds.len() ==> commands.dom().contains((#[trigger] builds[i]).rule)
                &&& out@ == "[workspace]\n\n"@ + sections(
                    builds,
                    commands,
                    producers(builds, builds.len()),
                    builds.len(),
                )
            },
            Err(e) => exists|i: int| unknown_rule(builds, commands, i, e),
        },
    }
}

/// Statement `i` is the first whose rule has no command.
pub open spec fn unknown_rule(
    builds: Seq<BuildText>,
    commands: Map<Seq<char>, Seq<char>>,
    i: int,
    e: NinjaError,
) -> bool {
    &&& 0 <= i < builds.len()
    &&& !commands.dom().contains(builds[i].rule)
    &&& forall|j: int| 0 <= j < i ==> commands.dom().contains((#[trigger] builds[j]).rule)
    &&& e matches NinjaError::UnknownRule { rule } && rule@ == builds[i].rule
}

/// A build statement.
struct Build {
    name: String,
    rule: String,
    inputs: Vec<String>,
    outputs: Vec<String>,
}

spec fn build_text(b: Build) -> BuildText {
    BuildText {
        name: b.name@,
        rule: b.rule@,
        inputs: texts(b.inputs@),
        outputs: texts(b.outputs@),
    }
}

spec fn build_texts(v: Seq<Build>) -> Seq<BuildText> {
    Seq::new(v.len(), |i: int| build_text(v[i]))
}

/// The name of the target that makes a file.
pub fn sanitize_target(path: &str) -> (r: String)
    ensures
        r@ == target_of(path@),
{
    let a = chars_of(path);
    let ghost want = target_of(path@);
    let mut out: Vec<char> = Vec::new();
    let mut i: usize = 0;
    while i < a.len()
        invariant
            a@ == path@,
            want == target_of(path@),
            i <= a@.len(),
            out@ =~= want.take(i as int),
        decreases a@.len() - i,
    {
        let c = a[i];
        out.push(
            if alphanumeric(c) {
                c
            } else {
                '_'
            },
        );
        assert(want.take(i + 1) =~= want.take(i as int).push(want[i as int]));
        i += 1;
    }
    assert(want.take(i as int) =~= want);
    text_of(&out)
}

fn read_rules(all: &Vec<String>) -> (r: SortedMap<String>)
    ensures
        r.wf(),
        text_map(r) == rules_upto(texts(all@), all@.len()).commands,
{
    let ghost names = texts(all@);
    let mut commands: SortedMap<String> = SortedMap::new();
    let mut current: Option<String> = None;
    let mut i: usize = 0;
    assert(text_map(commands) =~= Map::<Seq<char>, Seq<char>>::empty());
    proof {
        reveal_strlit("rule ");
        reveal_strlit("command = ");
    }
    while i < all.len()
        invariant
            names == texts(all@),
            "rule "@.len() == 5,
            "command = "@.len() == 10,
            i <= all@.len(),
            commands.wf(),
            text_map(commands) == rules_upto(names, i as nat).commands,
            match current {
                Some(name) => rules_upto(names, i as nat).current == Some(name@),
                None => rules_upto(names, i as nat).current is None,
            },
        decreases all@.len() - i,
    {
        let line = &all[i];
        assert(names[i as int] == line@);
        let ghost s = rules_upto(names, i as nat);
        assert(rules_upto(names, (i + 1) as nat) == rule_step(s, line@));
        let inner = trim_start(line);
        if let Some(name) = strip_prefix(line, "rule ") {
            current = Some(trim(&name));
        } else if let Some(command) = strip_prefix(&inner, "command = ") {
            if let Some(name) = &current {
                let ghost was = text_map(commands);
                let ghost told = command@;
                let _ = commands.insert(copy(name), command);
                assert(text_map(commands) =~= was.insert(name@, told));
            }
        } else if !starts_with(line, " ") {
            current = None;
        }
        i += 1;
    }
    commands
}

fn drop_bars(fields: &Vec<String>) -> (r: Vec<String>)
    requires
        fields@.len() > 0,
    ensures
        texts(r@) == without_bars(texts(fields@).skip(1)),
{
    broadcast use group_texts;

    let ghost all = texts(fields@).skip(1);
    let ghost kept = |s: Seq<char>| s != "|"@;
    let mut out: Vec<String> = Vec::new();
    let mut i: usize = 1;
    proof {
        reveal(Seq::filter);
        assert(all.take(0) =~= Seq::empty());
    }
    while i < fields.len()
        invariant
            all == texts(fields@).skip(1),
            kept == (|s: Seq<char>| s != "|"@),
            1 <= i <= fields@.len(),
            texts(out@) == all.take(i - 1).filter(kept),
        decreases fields@.len() - i,
    {
        proof {
            assert(all.take(i as int) =~= all.take(i - 1).push(all[i - 1]));
            all.take(i - 1).lemma_filter_push(all[i - 1], kept);
            assert(all[i - 1] == fields@[i as int]@);
        }
        if !same(&fields[i], "|") {
            out.push(copy(&fields[i]));
        }
        i += 1;
    }
    assert(all.take(i - 1) =~= all);
    out
}

fn read_statement(line: &str) -> (r: Result<Build, StatementFault>)
    requires
        begins(line@, "build "@),
    ensures
        match r {
            Ok(b) => statement_on(line@) == Ok::<BuildText, StatementFault>(build_text(b)),
            Err(fault) => statement_on(line@) == Err::<BuildText, StatementFault>(fault),
        },
{
    proof {
        reveal_strlit("build ");
    }
    let rest = match strip_prefix(line, "build ") {
        Some(rest) => rest,
        None => {
            return Err(StatementFault::Invalid);
        },
    };
    assert(rest@ == line@.skip(6));
    let (left, right) = match split_once(&rest, ':') {
        Some(cut) => cut,
        None => {
            return Err(StatementFault::Invalid);
        },
    };
    let fields = split_whitespace(&right);
    assert(texts(fields@).len() == fields@.len());
    if fields.len() == 0 {
        return Err(StatementFault::NoRule);
    }
    let outputs = split_whitespace(&left);
    assert(texts(outputs@).len() == outputs@.len());
    if outputs.len() == 0 {
        return Err(StatementFault::NoOutput);
    }
    let name = sanitize_target(&outputs[0]);
    let inputs = drop_bars(&fields);
    Ok(Build { name, rule: copy(&fields[0]), inputs, outputs })
}

fn read_statements(all: &Vec<String>) -> (r: Result<Vec<Build>, StatementFault>)
    ensures
        match r {
            Ok(builds) => statements_upto(texts(all@), all@.len()) == Ok::<
                Seq<BuildText>,
                StatementFault,
            >(build_texts(builds@)),
            Err(fault) => statements_upto(texts(all@), all@.len()) == Err::<
                Seq<BuildText>,
                StatementFault,
            >(fault),
        },
{
    let ghost names = texts(all@);
    let mut builds: Vec<Build> = Vec::new();
    let mut i: usize = 0;
    assert(build_texts(builds@) =~= Seq::<BuildText>::empty());
    while i < all.len()
        invariant
            names == texts(all@),
            i <= all@.len(),
            statements_upto(names, i as nat) == Ok::<Seq<BuildText>, StatementFault>(
                build_texts(builds@),
            ),
        decreases all@.len() - i,
    {
        let line = &all[i];
        assert(names[i as int] == line@);
        if starts_with(line, "build ") {
            match read_statement(line) {
                Ok(b) => {
                    let ghost was = build_texts(builds@);
                    let ghost told = build_text(b);
                    builds.push(b);
                    assert(build_texts(builds@) =~= was.push(told));
                },
                Err(fault) => {
                    proof {
                        statement_fault_stays(names, (i + 1) as nat, all@.len());
                    }
                    return Err(fault);
                },
            }
        }
        i += 1;
    }
    Ok(builds)
}

fn find_producers(builds: &Vec<Build>) -> (r: SortedMap<String>)
    ensures
        r.wf(),
        text_map(r) == producers(build_texts(builds@), builds@.len()),
{
    let ghost all = build_texts(builds@);
    let mut made: SortedMap<String> = SortedMap::new();
    let mut i: usize = 0;
    assert(text_map(made) =~= Map::<Seq<char>, Seq<char>>::empty());
    while i < builds.len()
        invariant
            all == build_texts(builds@),
            i <= builds@.len(),
            made.wf(),
            text_map(made) == producers(all, i as nat),
        decreases builds@.len() - i,
    {
        let b = &builds[i];
        let ghost before = text_map(made);
        let ghost files = texts(b.outputs@);
        assert(all[i as int] == build_text(*b));
        let mut j: usize = 0;
        while j < b.outputs.len()
            invariant
                files == texts(b.outputs@),
                j <= b.outputs@.len(),
                made.wf(),
                text_map(made) == makes(before, files, b.name@, j as nat),
            decreases b.outputs@.len() - j,
        {
            let ghost was = text_map(made);
            let _ = made.insert(copy(&b.outputs[j]), copy(&b.name));
            assert(text_map(made) =~= was.insert(files[j as int], b.name@));
            j += 1;
        }
        i += 1;
    }
    made
}

fn write_section(b: &Build, command: &str, made: &SortedMap<String>, commands: Ghost<
    Map<Seq<char>, Seq<char>>,
>) -> (r: String)
    requires
        made.wf(),
        command@ == commands@[b.rule@],
    ensures
        r@ == section(build_text(*b), commands@, text_map(*made)),
{
    broadcast use group_texts;

    let ghost inputs = texts(b.inputs@);
    let ghost map = text_map(*made);
    let mut deps: Vec<String> = Vec::new();
    let mut files: Vec<String> = Vec::new();
    let mut i: usize = 0;
    while i < b.inputs.len()
        invariant
            made.wf(),
            inputs == texts(b.inputs@),
            map == text_map(*made),
            i <= b.inputs@.len(),
            texts(deps@) == made_by(inputs, map, i as nat),
            texts(files@) == given_files(inputs, map, i as nat),
        decreases b.inputs@.len() - i,
    {
        assert(inputs[i as int] == b.inputs@[i as int]@);
        match made.get(&b.inputs[i]) {
            Some(name) => {
                deps.push(copy(name));
            },
            None => {
                files.push(copy(&b.inputs[i]));
            },
        }
        i += 1;
    }
    let expanded = replace(&replace(command, "$in", "${in}"), "$out", "${outs}");
    let mut out = copy("[target.");
    out.append(&b.name);
    out.append("]\nkind = \"genrule\"\ncmd = ");
    out.append(&quoted(&expanded));
    out.append("\ninputs = ");
    out.append(&json_list(&files));
    out.append("\noutputs = ");
    out.append(&json_list(&b.outputs));
    out.append("\ndeps = ");
    out.append(&json_list(&deps));
    out.append("\n\n");
    out
}

/// The manifest for a Ninja file: a target for each build statement.
pub fn import_ninja(text: &str) -> (r: Result<String, NinjaError>)
    ensures
        imports(text@, r),
{
    let all = lines(text);
    assert(texts(all@).len() == all@.len());
    let commands = read_rules(&all);
    let builds = match read_statements(&all) {
        Ok(builds) => builds,
        Err(StatementFault::Invalid) => {
            return Err(NinjaError::InvalidStatement);
        },
        Err(StatementFault::NoRule) => {
            return Err(NinjaError::MissingRule);
        },
        Err(StatementFault::NoOutput) => {
            return Err(NinjaError::NoOutput);
        },
    };
    let made = find_producers(&builds);
    let ghost found = build_texts(builds@);
    let ghost map = text_map(commands);
    let ghost by_file = text_map(made);
    let mut body = String::new();
    let mut i: usize = 0;
    while i < builds.len()
        invariant
            commands.wf(),
            made.wf(),
            found == build_texts(builds@),
            map == text_map(commands),
            by_file == text_map(made),
            i <= builds@.len(),
            body@ == sections(found, map, by_file, i as nat),
            forall|j: int| 0 <= j < i ==> map.dom().contains((#[trigger] found[j]).rule),
            statements_upto(lines_of(text@), lines_of(text@).len()) == Ok::<
                Seq<BuildText>,
                StatementFault,
            >(found),
            map == rules_upto(lines_of(text@), lines_of(text@).len()).commands,
        decreases builds@.len() - i,
    {
        let b = &builds[i];
        assert(found[i as int] == build_text(*b));
        match commands.get(&b.rule) {
            None => {
                let e = NinjaError::UnknownRule { rule: copy(&b.rule) };
                proof {
                    let k = i as int;
                    assert(!map.dom().contains(found[k].rule));
                    assert(e->rule@ == found[k].rule);
                    let all = lines_of(text@);
                    assert(statements_upto(all, all.len())->Ok_0 == found);
                    assert(unknown_rule(
                        statements_upto(all, all.len())->Ok_0,
                        rules_upto(all, all.len()).commands,
                        k,
                        e,
                    ));
                }
                return Err(e);
            },
            Some(command) => {
                let piece = write_section(b, command, &made, Ghost(map));
                body.append(&piece);
            },
        }
        i += 1;
    }
    let mut out = copy("[workspace]\n\n");
    out.append(&body);
    Ok(out)
}

// ---------------------------------------------------------------------------
// What an import gives of a file, line by line
// ---------------------------------------------------------------------------

/// The statements of the first lines begin those of more.
proof fn statements_grow(all: Seq<Seq<char>>, m: nat, n: nat)
    requires
        m <= n,
        statements_upto(all, n) is Ok,
    ensures
        statements_upto(all, m) is Ok,
        statements_upto(all, m)->Ok_0.len() <= statements_upto(all, n)->Ok_0.len(),
        statements_upto(all, n)->Ok_0.take(statements_upto(all, m)->Ok_0.len() as int)
            == statements_upto(all, m)->Ok_0,
    decreases n,
{
    if m < n {
        statements_grow(all, m, (n - 1) as nat);
        let few = statements_upto(all, m)->Ok_0;
        let some = statements_upto(all, (n - 1) as nat)->Ok_0;
        let more = statements_upto(all, n)->Ok_0;
        assert(more.take(few.len() as int) =~= some.take(few.len() as int));
    } else {
        let few = statements_upto(all, m)->Ok_0;
        assert(few.take(few.len() as int) =~= few);
    }
}

/// The statement on line `m` stands behind those of the lines before.
proof fn statement_of_line(all: Seq<Seq<char>>, m: nat, n: nat)
    requires
        m < n <= all.len(),
        statements_upto(all, n) is Ok,
        begins(all[m as int], "build "@),
    ensures
        statements_upto(all, m) is Ok,
        statement_on(all[m as int]) is Ok,
        statements_upto(all, m)->Ok_0.len() < statements_upto(all, n)->Ok_0.len(),
        statements_upto(all, n)->Ok_0[statements_upto(all, m)->Ok_0.len() as int] == statement_on(
            all[m as int],
        )->Ok_0,
{
    statements_grow(all, m + 1, n);
    statements_grow(all, m, m + 1);
    let at = statements_upto(all, m)->Ok_0.len() as int;
    let next = statements_upto(all, m + 1)->Ok_0;
    let builds = statements_upto(all, n)->Ok_0;
    assert(next.len() == at + 1);
    assert(builds.take(at + 1)[at] == builds[at]);
}

/// Statement `j` stands on a line.
proof fn line_of_statement(all: Seq<Seq<char>>, n: nat, j: int) -> (m: nat)
    requires
        n <= all.len(),
        statements_upto(all, n) is Ok,
        0 <= j < statements_upto(all, n)->Ok_0.len(),
    ensures
        m < n,
        begins(all[m as int], "build "@),
        statements_upto(all, m) is Ok,
        statements_upto(all, m)->Ok_0.len() == j,
    decreases n,
{
    let before = (n - 1) as nat;
    statements_grow(all, before, n);
    if j < statements_upto(all, before)->Ok_0.len() {
        line_of_statement(all, before, j)
    } else {
        before
    }
}

proof fn makes_each(
    before: Map<Seq<char>, Seq<char>>,
    files: Seq<Seq<char>>,
    name: Seq<char>,
    n: nat,
    x: Seq<char>,
)
    requires
        n <= files.len(),
    ensures
        files.take(n as int).contains(x) ==> makes(before, files, name, n).dom().contains(x)
            && makes(before, files, name, n)[x] == name,
        !files.take(n as int).contains(x) ==> (makes(before, files, name, n).dom().contains(x)
            <==> before.dom().contains(x)) && makes(before, files, name, n)[x] == before[x],
    decreases n,
{
    if n > 0 {
        let less = (n - 1) as nat;
        makes_each(before, files, name, less, x);
        assert(files.take(n as int) =~= files.take(less as int).push(files[n - 1]));
        if files.take(less as int).contains(x) {
            let k = files.take(less as int).index_of(x);
            assert(files.take(n as int)[k] == x);
        }
        if files[n - 1] == x {
            assert(files.take(n as int)[n - 1] == x);
        } else if files.take(n as int).contains(x) {
            let k = files.take(n as int).index_of(x);
            assert(files.take(less as int)[k] == x);
        }
    }
}

/// A file that a statement makes has a producer, the name of the last
/// statement that makes it; any other file has none.
proof fn producer_is_last(builds: Seq<BuildText>, n: nat, x: Seq<char>)
    requires
        n <= builds.len(),
    ensures
        forall|j: int|
            #![trigger builds[j]]
            0 <= j < n && builds[j].outputs.contains(x) && (forall|k: int|
                j < k < n ==> !(#[trigger] builds[k]).outputs.contains(x)) ==> producers(
                builds,
                n,
            ).dom().contains(x) && producers(builds, n)[x] == builds[j].name,
        (forall|j: int| 0 <= j < n ==> !(#[trigger] builds[j]).outputs.contains(x))
            ==> !producers(builds, n).dom().contains(x),
    decreases n,
{
    if n > 0 {
        let less = (n - 1) as nat;
        producer_is_last(builds, less, x);
        let b = builds[n - 1];
        makes_each(producers(builds, less), b.outputs, b.name, b.outputs.len(), x);
        assert(b.outputs.take(b.outputs.len() as int) =~= b.outputs);
        assert forall|j: int|
            #![trigger builds[j]]
            0 <= j < n && builds[j].outputs.contains(x) && (forall|k: int|
                j < k < n ==> !(#[trigger] builds[k]).outputs.contains(x)) implies producers(
            builds,
            n,
        ).dom().contains(x) && producers(builds, n)[x] == builds[j].name by {
            if j < n - 1 {
                assert(!builds[n - 1].outputs.contains(x));
            }
        }
    }
}

/// Every input is a dependency on what makes it, or a file.
proof fn inputs_are_sorted_out(
    inputs: Seq<Seq<char>>,
    made: Map<Seq<char>, Seq<char>>,
    n: nat,
)
    requires
        n <= inputs.len(),
    ensures
        made_by(inputs, made, n).len() + given_files(inputs, made, n).len() == n,
        forall|i: int|
            #![trigger inputs[i]]
            0 <= i < n && made.dom().contains(inputs[i]) ==> made_by(inputs, made, n).contains(
                made[inputs[i]],
            ),
        forall|i: int|
            #![trigger inputs[i]]
            0 <= i < n && !made.dom().contains(inputs[i]) ==> given_files(
                inputs,
                made,
                n,
            ).contains(inputs[i]),
        forall|x: Seq<char>| #[trigger]
            given_files(inputs, made, n).contains(x) ==> inputs.contains(x)
                && !made.dom().contains(x),
    decreases n,
{
    if n > 0 {
        let less = (n - 1) as nat;
        inputs_are_sorted_out(inputs, made, less);
        let deps = made_by(inputs, made, less);
        let files = given_files(inputs, made, less);
        let now_deps = made_by(inputs, made, n);
        let now_files = given_files(inputs, made, n);
        let last = inputs[n - 1];
        assert forall|i: int|
            #![trigger inputs[i]]
            0 <= i < n && made.dom().contains(inputs[i]) implies now_deps.contains(
            made[inputs[i]],
        ) by {
            if i < less {
                let k = deps.index_of(made[inputs[i]]);
                assert(now_deps[k] == deps[k]);
            } else {
                assert(now_deps[now_deps.len() - 1] == made[last]);
            }
        }
        assert forall|i: int|
            #![trigger inputs[i]]
            0 <= i < n && !made.dom().contains(inputs[i]) implies now_files.contains(inputs[i]) by {
            if i < less {
                let k = files.index_of(inputs[i]);
                assert(now_files[k] == files[k]);
            } else {
                assert(now_files[now_files.len() - 1] == last);
            }
        }
        assert forall|x: Seq<char>| #[trigger] now_files.contains(x) implies inputs.contains(x)
            && !made.dom().contains(x) by {
            let k = now_files.index_of(x);
            if k < files.len() {
                assert(files[k] == x);
                assert(files.contains(x));
            } else {
                assert(inputs[n - 1] == x);
            }
        }
    }
}

/// The section of each statement stands in the text.
proof fn section_stands(
    builds: Seq<BuildText>,
    commands: Map<Seq<char>, Seq<char>>,
    made: Map<Seq<char>, Seq<char>>,
    n: nat,
    j: int,
) -> (r: (Seq<char>, Seq<char>))
    requires
        0 <= j < n <= builds.len(),
    ensures
        sections(builds, commands, made, n) == r.0 + section(builds[j], commands, made) + r.1,
    decreases n,
{
    let less = (n - 1) as nat;
    if j == less {
        let before = sections(builds, commands, made, less);
        let own = section(builds[j], commands, made);
        assert(before + own =~= before + own + Seq::empty());
        (before, Seq::empty())
    } else {
        let (before, after) = section_stands(builds, commands, made, less, j);
        let own = section(builds[j], commands, made);
        let last = section(builds[n - 1], commands, made);
        assert(before + own + after + last =~= before + own + (after + last));
        (before, after + last)
    }
}

/// Every build statement of a file becomes a target of the manifest. Of its
/// inputs, each that the statement on some line makes becomes a dependency on the
/// target of that line (the last of them, where several make it), and each that
/// none makes becomes an input; there are no others. The outputs stay as they
/// are, and the command is that of the rule, with the variables of manifests.
pub proof fn every_statement_is_a_target(text: &str, out: String, n: int) -> (r: (
    Seq<char>,
    Seq<Seq<char>>,
    Seq<Seq<char>>,
    Seq<char>,
    Seq<char>,
))
    requires
        call_ensures(import_ninja, (text,), Ok::<String, NinjaError>(out)),
        0 <= n < lines_of(text@).len(),
        begins(lines_of(text@)[n], "build "@),
    ensures
        ({
            let (before, files, deps, after, name) = r;
            let all = lines_of(text@);
            let made_on = |m: int|
                if begins(all[m], "build "@) {
                    words(all[m].skip(6).take(first_at(all[m].skip(6), ':')))
                } else {
                    Seq::empty()
                };
            let rest = all[n].skip(6);
            let colon = first_at(rest, ':');
            let fields = words(rest.skip(colon + 1));
            let inputs = fields.skip(1).filter(|s: Seq<char>| s != "|"@);
            let rules = rules_upto(all, all.len()).commands;
            let makers = |x: Seq<char>, m: int|
                0 <= m < all.len() && made_on(m).contains(x) && forall|k: int|
                    m < k < all.len() ==> !(#[trigger] made_on(k)).contains(x);
            &&& colon < rest.len()
            &&& fields.len() > 0
            &&& made_on(n).len() > 0
            &&& rules.dom().contains(fields[0])
            &&& name == Seq::new(
                made_on(n)[0].len(),
                |k: int|
                    if is_alphanumeric(made_on(n)[0][k]) {
                        made_on(n)[0][k]
                    } else {
                        '_'
                    },
            )
            &&& out@ == before + ("[target."@ + name + "]\nkind = \"genrule\"\ncmd = "@ + debug_text(
                replaced(replaced(rules[fields[0]], "$in"@, "${in}"@), "$out"@, "${outs}"@),
            ) + "\ninputs = "@ + json_array(files) + "\noutputs = "@ + json_array(made_on(n))
                + "\ndeps = "@ + json_array(deps) + "\n\n"@) + after
            &&& files.len() + deps.len() == inputs.len()
            &&& forall|x: Seq<char>, m: int|
                #![trigger inputs.contains(x), made_on(m)]
                inputs.contains(x) && makers(x, m) ==> deps.contains(
                    made_on(m)[0].map_values(
                        |c: char|
                            if is_alphanumeric(c) {
                                c
                            } else {
                                '_'
                            },
                    ),
                )
            &&& forall|x: Seq<char>| #[trigger]
                inputs.contains(x) && (forall|m: int|
                    0 <= m < all.len() ==> !(#[trigger] made_on(m)).contains(x)) ==> files.contains(
                    x,
                )
        }),
{
    let all = lines_of(text@);
    let len = all.len();
    let builds = statements_upto(all, len)->Ok_0;
    let commands = rules_upto(all, len).commands;
    let made = producers(builds, builds.len());
    statement_of_line(all, n as nat, len);
    let j = statements_upto(all, n as nat)->Ok_0.len() as int;
    let b = builds[j];
    let (before, after) = section_stands(builds, commands, made, builds.len(), j);
    let inputs = b.inputs;
    let files = given_files(inputs, made, inputs.len());
    let deps = made_by(inputs, made, inputs.len());
    inputs_are_sorted_out(inputs, made, inputs.len());
    assert(commands.dom().contains(builds[j].rule));
    let made_on = |m: int|
        if begins(all[m], "build "@) {
            words(all[m].skip(6).take(first_at(all[m].skip(6), ':')))
        } else {
            Seq::empty()
        };
    let makers = |x: Seq<char>, m: int|
        0 <= m < all.len() && made_on(m).contains(x) && forall|k: int|
            m < k < all.len() ==> !(#[trigger] made_on(k)).contains(x);
    assert(made_on(n) == b.outputs);
    let head = "[workspace]\n\n"@;
    let own = section(b, commands, made);
    assert(out@ == head + (before + own + after));
    assert(head + (before + own + after) =~= (head + before) + own + after);
    assert forall|x: Seq<char>, m: int|
        #![trigger inputs.contains(x), made_on(m)]
        inputs.contains(x) && makers(x, m) implies deps.contains(
        made_on(m)[0].map_values(
            |c: char|
                if is_alphanumeric(c) {
                    c
                } else {
                    '_'
                },
        ),
    ) by {
        statement_of_line(all, m as nat, len);
        let at = statements_upto(all, m as nat)->Ok_0.len() as int;
        assert forall|k: int| at < k < builds.len() implies !(#[trigger] builds[k]).outputs.contains(
            x,
        ) by {
            let l = line_of_statement(all, len, k);
            statement_of_line(all, l, len);
            if l <= m {
                statements_grow(all, l, m as nat);
            }
            assert(!made_on(l as int).contains(x));
        }
        producer_is_last(builds, builds.len(), x);
        assert(builds[at].outputs.contains(x));
        assert(made[x] == builds[at].name);
        let i = inputs.index_of(x);
        assert(inputs[i] == x);
        assert(target_of(made_on(m)[0]) =~= made_on(m)[0].map_values(
            |c: char|
                if is_alphanumeric(c) {
                    c
                } else {
                    '_'
                },
        ));
    }
    assert forall|x: Seq<char>| #[trigger]
        inputs.contains(x) && (forall|m: int|
            0 <= m < all.len() ==> !(#[trigger] made_on(m)).contains(x)) implies files.contains(x) by {
        assert forall|k: int| 0 <= k < builds.len() implies !(#[trigger] builds[k]).outputs.contains(
            x,
        ) by {
            let l = line_of_statement(all, len, k);
            statement_of_line(all, l, len);
            assert(!made_on(l as int).contains(x));
        }
        producer_is_last(builds, builds.len(), x);
        let i = inputs.index_of(x);
        assert(inputs[i] == x);
    }
    assert(b.name =~= Seq::new(
        made_on(n)[0].len(),
        |k: int|
            if is_alphanumeric(made_on(n)[0][k]) {
                made_on(n)[0][k]
            } else {
                '_'
            },
    ));
    (head + before, files, deps, after, b.name)
}

proof fn sorted_out_in_order(inputs: Seq<Seq<char>>, made: Map<Seq<char>, Seq<char>>, n: nat)
    requires
        n <= inputs.len(),
    ensures
        given_files(inputs, made, n) == inputs.take(n as int).filter(
            |x: Seq<char>| !made.dom().contains(x),
        ),
        made_by(inputs, made, n) == inputs.take(n as int).filter(
            |x: Seq<char>| made.dom().contains(x),
        ).map_values(|x: Seq<char>| made[x]),
    decreases n,
{
    let free = |x: Seq<char>| !made.dom().contains(x);
    let taken = |x: Seq<char>| made.dom().contains(x);
    let name = |x: Seq<char>| made[x];
    if n == 0 {
        reveal(Seq::filter);
        assert(inputs.take(0) =~= Seq::empty());
        assert(made_by(inputs, made, 0) =~= inputs.take(0).filter(taken).map_values(name));
    } else {
        let less = (n - 1) as nat;
        sorted_out_in_order(inputs, made, less);
        let few = inputs.take(less as int);
        let last = inputs[n - 1];
        assert(inputs.take(n as int) =~= few.push(last));
        few.lemma_filter_push(last, free);
        few.lemma_filter_push(last, taken);
        assert(made_by(inputs, made, n) =~= inputs.take(n as int).filter(taken).map_values(name));
    }
}

/// The inputs of a target are those of its statement that no statement of the
/// file makes, in the order of the statement.
pub proof fn inputs_keep_their_order(text: &str, out: String, n: int) -> (r: (
    Seq<char>,
    Seq<char>,
))
    requires
        call_ensures(import_ninja, (text,), Ok::<String, NinjaError>(out)),
        0 <= n < lines_of(text@).len(),
        begins(lines_of(text@)[n], "build "@),
    ensures
        ({
            let all = lines_of(text@);
            let made_on = |m: int|
                if begins(all[m], "build "@) {
                    words(all[m].skip(6).take(first_at(all[m].skip(6), ':')))
                } else {
                    Seq::empty()
                };
            let rest = all[n].skip(6);
            let fields = words(rest.skip(first_at(rest, ':') + 1));
            let inputs = fields.skip(1).filter(|s: Seq<char>| s != "|"@);
            let free = inputs.filter(
                |x: Seq<char>|
                    forall|m: int| 0 <= m < all.len() ==> !(#[trigger] made_on(m)).contains(x),
            );
            out@ == r.0 + ("\ninputs = "@ + json_array(free) + "\noutputs = "@ + json_array(
                made_on(n),
            ) + "\ndeps = "@) + r.1
        }),
{
    let all = lines_of(text@);
    let len = all.len();
    let builds = statements_upto(all, len)->Ok_0;
    let commands = rules_upto(all, len).commands;
    let made = producers(builds, builds.len());
    statement_of_line(all, n as nat, len);
    let j = statements_upto(all, n as nat)->Ok_0.len() as int;
    let b = builds[j];
    let (before, after) = section_stands(builds, commands, made, builds.len(), j);
    let inputs = b.inputs;
    sorted_out_in_order(inputs, made, inputs.len());
    assert(inputs.take(inputs.len() as int) =~= inputs);
    let made_on = |m: int|
        if begins(all[m], "build "@) {
            words(all[m].skip(6).take(first_at(all[m].skip(6), ':')))
        } else {
            Seq::empty()
        };
    let unmade = |x: Seq<char>|
        forall|m: int| 0 <= m < all.len() ==> !(#[trigger] made_on(m)).contains(x);
    let absent = |x: Seq<char>| !made.dom().contains(x);
    assert forall|x: Seq<char>| #[trigger] unmade(x) == absent(x) by {
        unmade_has_no_producer(all, x);
    }
    assert(unmade =~= absent);
    let free = inputs.filter(unmade);
    assert(free == given_files(inputs, made, inputs.len()));
    let head = "[workspace]\n\n"@;
    let (start, close) = section_pieces(b, commands, made);
    let middle = "\ninputs = "@ + json_array(free) + "\noutputs = "@ + json_array(b.outputs)
        + "\ndeps = "@;
    let left = head + before + start;
    let right = close + after;
    assert(out@ == left + middle + right) by {
        assert(head + (before + (start + middle + close) + after) =~= left + middle + right);
    }
    (left, right)
}

proof fn section_pieces(
    b: BuildText,
    commands: Map<Seq<char>, Seq<char>>,
    made: Map<Seq<char>, Seq<char>>,
) -> (r: (Seq<char>, Seq<char>))
    ensures
        section(b, commands, made) == r.0 + ("\ninputs = "@ + json_array(
            given_files(b.inputs, made, b.inputs.len()),
        ) + "\noutputs = "@ + json_array(b.outputs) + "\ndeps = "@) + r.1,
{
    let start = "[target."@ + b.name + "]\nkind = \"genrule\"\ncmd = "@ + debug_text(
        command_text(commands[b.rule]),
    );
    let close = json_array(made_by(b.inputs, made, b.inputs.len())) + "\n\n"@;
    let files = json_array(given_files(b.inputs, made, b.inputs.len()));
    let outs = json_array(b.outputs);
    assert(section(b, commands, made) =~= start + ("\ninputs = "@ + files + "\noutputs = "@ + outs
        + "\ndeps = "@) + close);
    (start, close)
}

proof fn unmade_has_no_producer(all: Seq<Seq<char>>, x: Seq<char>)
    requires
        statements_upto(all, all.len()) is Ok,
    ensures
        ({
            let builds = statements_upto(all, all.len())->Ok_0;
            let made_on = |m: int|
                if begins(all[m], "build "@) {
                    words(all[m].skip(6).take(first_at(all[m].skip(6), ':')))
                } else {
                    Seq::empty()
                };
            (forall|m: int| 0 <= m < all.len() ==> !(#[trigger] made_on(m)).contains(x))
                == !producers(builds, builds.len()).dom().contains(x)
        }),
{
    let len = all.len();
    let builds = statements_upto(all, len)->Ok_0;
    let made_on = |m: int|
        if begins(all[m], "build "@) {
            words(all[m].skip(6).take(first_at(all[m].skip(6), ':')))
        } else {
            Seq::empty()
        };
    producer_is_last(builds, builds.len(), x);
    if forall|m: int| 0 <= m < all.len() ==> !(#[trigger] made_on(m)).contains(x) {
        assert forall|k: int| 0 <= k < builds.len() implies !(#[trigger] builds[k]).outputs.contains(
            x,
        ) by {
            let l = line_of_statement(all, len, k);
            statement_of_line(all, l, len);
            assert(!made_on(l as int).contains(x));
        }
    } else {
        let m = choose|m: int| 0 <= m < all.len() && (#[trigger] made_on(m)).contains(x);
        statement_of_line(all, m as nat, len);
        let at = statements_upto(all, m as nat)->Ok_0.len() as int;
        some_last(builds, x, at);
    }
}

/// Of the statements that make a file, one is the last.
proof fn some_last(builds: Seq<BuildText>, x: Seq<char>, at: int)
    requires
        0 <= at < builds.len(),
        builds[at].outputs.contains(x),
    ensures
        producers(builds, builds.len()).dom().contains(x),
    decreases builds.len() - at,
{
    if forall|k: int| at < k < builds.len() ==> !(#[trigger] builds[k]).outputs.contains(x) {
        producer_is_last(builds, builds.len(), x);
    } else {
        let k = choose|k: int| at < k < builds.len() && (#[trigger] builds[k]).outputs.contains(x);
        some_last(builds, x, k);
    }
}

/// A file whose build statements all name an output and a rule that the file
/// gives a command is imported.
pub proof fn sound_file_is_imported(text: &str, r: Result<String, NinjaError>)
    requires
        call_ensures(import_ninja, (text,), r),
        ({
            let all = lines_of(text@);
            forall|n: int|
                0 <= n < all.len() && begins(#[trigger] all[n], "build "@) ==> ({
                    let rest = all[n].skip(6);
                    let colon = first_at(rest, ':');
                    let fields = words(rest.skip(colon + 1));
                    &&& colon < rest.len()
                    &&& fields.len() > 0
                    &&& words(rest.take(colon)).len() > 0
                    &&& rules_upto(all, all.len()).commands.dom().contains(fields[0])
                })
        }),
    ensures
        r is Ok,
{
    let all = lines_of(text@);
    sound_statements(all, all.len());
    let builds = statements_upto(all, all.len())->Ok_0;
    let commands = rules_upto(all, all.len()).commands;
    if r is Err {
        let i = choose|i: int| unknown_rule(builds, commands, i, r->Err_0);
        let m = line_of_statement(all, all.len(), i);
        statement_of_line(all, m, all.len());
        assert(begins(all[m as int], "build "@));
    }
}

proof fn sound_statements(all: Seq<Seq<char>>, n: nat)
    requires
        n <= all.len(),
        forall|n: int|
            0 <= n < all.len() && begins(#[trigger] all[n], "build "@) ==> ({
                let rest = all[n].skip(6);
                let colon = first_at(rest, ':');
                &&& colon < rest.len()
                &&& words(rest.skip(colon + 1)).len() > 0
                &&& words(rest.take(colon)).len() > 0
            }),
    ensures
        statements_upto(all, n) is Ok,
    decreases n,
{
    if n > 0 {
        sound_statements(all, (n - 1) as nat);
        assert(begins(all[n - 1], "build "@) ==> statement_on(all[n - 1]) is Ok);
    }
}

/// The command of a rule is the one on line `q` where the rule begins on line `r`,
/// the lines between belong to it, and no later line gives it another.
pub proof fn rule_has_its_command(all: Seq<Seq<char>>, r: int, q: int, n: nat)
    requires
        0 <= r < q < n <= all.len(),
        begins(all[r], "rule "@),
        forall|p: int| r < p < q ==> begins(#[trigger] all[p], " "@),
        !begins(all[q], "rule "@),
        begins(trimmed_start(all[q]), "command = "@),
        forall|p: int|
            q < p < n ==> !begins(#[trigger] all[p], "rule "@) && !begins(
                trimmed_start(all[p]),
                "command = "@,
            ) || begins(all[p], "rule "@) && trimmed(all[p].skip(5)) != trimmed(all[r].skip(5))
                || exists|s: int|
                q < s < p && ends_rule(#[trigger] all[s]),
        forall|p: int|
            q < p < n && begins(#[trigger] all[p], "rule "@) ==> trimmed(all[p].skip(5)) != trimmed(
                all[r].skip(5),
            ),
    ensures
        rules_upto(all, n).commands.dom().contains(trimmed(all[r].skip(5))),
        rules_upto(all, n).commands[trimmed(all[r].skip(5))] == trimmed_start(all[q]).skip(10),
{
    let name = trimmed(all[r].skip(5));
    assert(rules_upto(all, (r + 1) as nat).current == Some(name));
    rule_stays(all, r, q, name);
    let now = rules_upto(all, (q + 1) as nat);
    assert(now.commands[name] == trimmed_start(all[q]).skip(10));
    command_stays(all, r, q, n);
}

/// A line behind which no rule is open, or another one.
pub open spec fn ends_rule(line: Seq<char>) -> bool {
    begins(line, "rule "@) || !begins(trimmed_start(line), "command = "@) && !begins(line, " "@)
}

proof fn rule_stays(all: Seq<Seq<char>>, r: int, q: int, name: Seq<char>)
    requires
        0 <= r < q <= all.len(),
        rules_upto(all, (r + 1) as nat).current == Some(name),
        forall|p: int| r < p < q ==> begins(#[trigger] all[p], " "@),
    ensures
        rules_upto(all, q as nat).current == Some(name),
    decreases q,
{
    if r + 1 < q {
        rule_stays(all, r, q - 1, name);
        let line = all[q - 1];
        reveal_strlit(" ");
        reveal_strlit("rule ");
        assert(begins(line, " "@));
        assert(line[0] == ' ') by {
            assert(line.take(1)[0] == line[0]);
        }
        assert(!begins(line, "rule "@)) by {
            if begins(line, "rule "@) {
                assert(line.take(5)[0] == line[0]);
            }
        }
    }
}

proof fn command_stays(all: Seq<Seq<char>>, r: int, q: int, n: nat)
    requires
        0 <= r < q < n <= all.len(),
        ({
            let name = trimmed(all[r].skip(5));
            let now = rules_upto(all, (q + 1) as nat);
            &&& now.commands.dom().contains(name)
            &&& now.commands[name] == trimmed_start(all[q]).skip(10)
        }),
        forall|p: int|
            q < p < n ==> !begins(#[trigger] all[p], "rule "@) && !begins(
                trimmed_start(all[p]),
                "command = "@,
            ) || begins(all[p], "rule "@) && trimmed(all[p].skip(5)) != trimmed(all[r].skip(5))
                || exists|s: int|
                q < s < p && ends_rule(#[trigger] all[s]),
        forall|p: int|
            q < p < n && begins(#[trigger] all[p], "rule "@) ==> trimmed(all[p].skip(5)) != trimmed(
                all[r].skip(5),
            ),
    ensures
        ({
            let name = trimmed(all[r].skip(5));
            let now = rules_upto(all, n);
            &&& now.commands.dom().contains(name)
            &&& now.commands[name] == trimmed_start(all[q]).skip(10)
            &&& (exists|s: int| q < s < n && ends_rule(#[trigger] all[s])) ==> now.current != Some(
                name,
            )
        }),
    decreases n,
{
    if n > q + 1 {
        command_stays(all, r, q, (n - 1) as nat);
        let p = n - 1;
        let name = trimmed(all[r].skip(5));
        let was = rules_upto(all, p as nat);
        assert(rules_upto(all, n) == rule_step(was, all[p]));
        if exists|s: int| q < s < n && ends_rule(#[trigger] all[s]) {
            let s = choose|s: int| q < s < n && ends_rule(#[trigger] all[s]);
            if s < p {
                assert(was.current != Some(name));
            }
        }
    }
}

/// The target for a file has the file's path for its name, with an underscore for
/// every character that is neither letter nor digit.
pub proof fn paths_become_names(path: &str, r: String, i: int)
    requires
        call_ensures(sanitize_target, (path,), r),
        0 <= i < path@.len(),
    ensures
        r@.len() == path@.len(),
        is_alphanumeric(path@[i]) ==> r@[i] == path@[i],
        !is_alphanumeric(path@[i]) ==> r@[i] == '_',
{
}

} // verus!
