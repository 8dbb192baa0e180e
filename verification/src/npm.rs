//! Importing the scripts of npm workspaces as tests.

use vstd::prelude::*;
use vstd::string::*;

use crate::configure::{dep_numbers, graph_of, no_graph, order_of, sound_order};
use crate::graph::{fault_text, BuildGraph, GraphError};
use crate::literal::{json_array, json_list, json_string, json_text};
use crate::manifest::{Manifest, TargetKind, DEFAULT_PROFILE, HOST_PLATFORM};
use crate::paths::{absolute, components, components_of, is_absolute};
use crate::raw::{
    declaration_error, declared, made_from, targets_valid, ManifestError, RawManifest, RawTarget,
    RawToolchain,
};
use crate::reach::{closure, reached_from, reaches};
use crate::sorted_map::{in_order, in_order_means, pairs, Pairs, SortedMap, TextSet};
use crate::text::{
    alphanumeric, before, begins, chars_of, copies, copy, debug_text, ends, ends_with, group_texts,
    is_alphanumeric, join, joined, lists, lower_char, quoted, same, starts_with, text_between,
    text_of, texts, trim, trimmed,
};
use crate::toposort::{chain, in_range, ints, numbers, ordered_is_acyclic};
use crate::workspace::{dep_ok, refused};

verus! {

/// What is wrong with an import.
#[derive(Debug)]
pub enum NpmError {
    EmptyScript,
    EmptyPattern,
    ExclusionPattern { pattern: String },
    PatternEscapes { pattern: String },
    NoPackageName { path: String },
    DuplicatePackage { name: String },
    NoTargetName,
    NamesCollide { name: String },
    NoScripts { scripts: Vec<String> },
    EmptyNpm,
    EmptyNode,
    InvalidManifest { error: ManifestError },
    InvalidGraph { fault: GraphError },
}

impl NpmError {
    pub open spec fn text(self) -> Seq<char> {
        match self {
            NpmError::EmptyScript => "--script values must not be empty"@,
            NpmError::EmptyPattern => "npm workspace pattern is empty"@,
            NpmError::ExclusionPattern { pattern } => "npm workspace exclusion pattern "@
                + debug_text(pattern@)
                + " is not supported; list the included packages explicitly"@,
            NpmError::PatternEscapes { pattern } => "npm workspace pattern "@ + debug_text(pattern@)
                + " must stay below the workspace root"@,
            NpmError::NoTargetName => "cannot derive a Frost target name from npm package/script"@,
            NpmError::NamesCollide { name } =>
                "npm package/script target names collide after sanitization: "@ + debug_text(name@),
            NpmError::NoScripts { scripts } => "none of the requested scripts ("@ + joined(
                texts(scripts@),
                ", "@,
            ) + ") exist in the discovered npm workspaces"@,
            NpmError::EmptyNpm => "--npm must not be empty"@,
            NpmError::EmptyNode => "--node must not be empty"@,
            NpmError::NoPackageName { path } => path@ + " has no non-empty package name"@,
            NpmError::DuplicatePackage { name } => "duplicate npm workspace package name "@
                + debug_text(name@),
            NpmError::InvalidManifest { error } => "generated npm manifest is invalid: "@
                + error.text(),
            NpmError::InvalidGraph { fault } => "generated npm target graph is invalid: "@
                + fault_text(fault),
        }
    }

    /// Reports the fault.
    pub fn message(&self) -> (r: String)
        ensures
            r@ == self.text(),
    {
        match self {
            NpmError::EmptyScript => copy("--script values must not be empty"),
            NpmError::EmptyPattern => copy("npm workspace pattern is empty"),
            NpmError::ExclusionPattern { pattern } => {
                let mut out = copy("npm workspace exclusion pattern ");
                out.append(&quoted(pattern));
                out.append(" is not supported; list the included packages explicitly");
                out
            },
            NpmError::PatternEscapes { pattern } => {
                let mut out = copy("npm workspace pattern ");
                out.append(&quoted(pattern));
                out.append(" must stay below the workspace root");
                out
            },
            NpmError::NoTargetName => copy(
                "cannot derive a Frost target name from npm package/script",
            ),
            NpmError::NamesCollide { name } => {
                let mut out = copy("npm package/script target names collide after sanitization: ");
                out.append(&quoted(name));
                out
            },
            NpmError::NoScripts { scripts } => {
                let mut out = copy("none of the requested scripts (");
                out.append(&join(scripts, ", "));
                out.append(") exist in the discovered npm workspaces");
                out
            },
            NpmError::EmptyNpm => copy("--npm must not be empty"),
            NpmError::EmptyNode => copy("--node must not be empty"),
            NpmError::NoPackageName { path } => {
                let mut out = copy(path);
                out.append(" has no non-empty package name");
                out
            },
            NpmError::DuplicatePackage { name } => {
                let mut out = copy("duplicate npm workspace package name ");
                out.append(&quoted(name));
                out
            },
            NpmError::InvalidManifest { error } => {
                let mut out = copy("generated npm manifest is invalid: ");
                out.append(&error.message());
                out
            },
            NpmError::InvalidGraph { fault } => {
                let mut out = copy("generated npm target graph is invalid: ");
                out.append(&fault.message());
                out
            },
        }
    }
}

/// The scripts that are imported: those asked for without the space round
/// them, or the usual ones.
pub open spec fn wanted_scripts(requested: Seq<Seq<char>>) -> Seq<Seq<char>> {
    if requested.len() == 0 {
        seq!["test"@, "typecheck"@]
    } else {
        Seq::new(requested.len(), |i: int| trimmed(requested[i]))
    }
}

/// The scripts that are imported, in order and without repetition.
pub fn normalized_scripts(requested: &Vec<String>) -> (r: Result<Vec<String>, NpmError>)
    ensures
        match r {
            Ok(scripts) => texts(scripts@) == in_order(
                wanted_scripts(texts(requested@)).to_set(),
            ) && forall|i: int|
                0 <= i < requested@.len() ==> (#[trigger] wanted_scripts(texts(requested@))[i]).len()
                    > 0,
            Err(e) => e is EmptyScript && exists|i: int|
                0 <= i < requested@.len() && (#[trigger] wanted_scripts(
                    texts(requested@),
                )[i]).len() == 0,
        },
{
    let ghost want = wanted_scripts(texts(requested@));
    let mut set = TextSet::new();
    if requested.len() == 0 {
        let _ = set.insert(copy("test"));
        let _ = set.insert(copy("typecheck"));
        proof {
            assert(want.len() == 2);
            assert(set@ =~= want.to_set()) by {
                assert(want[0] == "test"@ && want[1] == "typecheck"@);
                assert forall|x: Seq<char>| set@.contains(x) <==> want.to_set().contains(x) by {
                    if x == "test"@ {
                        assert(want.contains(want[0]));
                    }
                    if x == "typecheck"@ {
                        assert(want.contains(want[1]));
                    }
                }
            }
        }
        return Ok(set.items());
    }
    let mut i: usize = 0;
    assert(want.take(0).to_set() =~= Set::empty());
    while i < requested.len()
        invariant
            want == wanted_scripts(texts(requested@)),
            requested@.len() > 0,
            i <= requested@.len(),
            set.wf(),
            set@ =~= want.take(i as int).to_set(),
            forall|k: int| 0 <= k < i ==> (#[trigger] want[k]).len() > 0,
        decreases requested@.len() - i,
    {
        let script = trim(&requested[i]);
        assert(want[i as int] == script@);
        if script.as_str().is_empty() {
            return Err(NpmError::EmptyScript);
        }
        proof {
            assert(want.take(i + 1) =~= want.take(i as int).push(script@));
            want.take(i as int).lemma_push_to_set_commute(script@);
        }
        let _ = set.insert(script);
        i += 1;
    }
    assert(want.take(i as int) =~= want);
    Ok(set.items())
}

/// A pattern of workspaces stays below the workspace root: it is relative and
/// has no component that leads upwards.
pub open spec fn stays_below(pattern: Seq<char>) -> bool {
    !absolute(pattern) && forall|i: int|
        0 <= i < components(pattern).len() ==> (#[trigger] components(pattern)[i]) != ".."@
}

/// Checks a pattern of workspaces.
pub fn validate_workspace_pattern(pattern: &str) -> (r: Result<(), NpmError>)
    ensures
        match r {
            Ok(_) => trimmed(pattern@).len() > 0 && !begins(pattern@, "!"@) && stays_below(
                pattern@,
            ),
            Err(NpmError::EmptyPattern) => trimmed(pattern@).len() == 0,
            Err(NpmError::ExclusionPattern { pattern: p }) => trimmed(pattern@).len() > 0 && begins(
                pattern@,
                "!"@,
            ) && p@ == pattern@,
            Err(NpmError::PatternEscapes { pattern: p }) => trimmed(pattern@).len() > 0 && !begins(
                pattern@,
                "!"@,
            ) && !stays_below(pattern@) && p@ == pattern@,
            Err(_) => false,
        },
{
    if trim(pattern).as_str().is_empty() {
        return Err(NpmError::EmptyPattern);
    }
    if starts_with(pattern, "!") {
        return Err(NpmError::ExclusionPattern { pattern: copy(pattern) });
    }
    if is_absolute(pattern) {
        return Err(NpmError::PatternEscapes { pattern: copy(pattern) });
    }
    let parts = components_of(pattern);
    let ghost all = components(pattern@);
    assert(all.len() == parts@.len());
    let mut i: usize = 0;
    while i < parts.len()
        invariant
            all == texts(parts@),
            all == components(pattern@),
            !absolute(pattern@),
            trimmed(pattern@).len() > 0,
            !begins(pattern@, "!"@),
            i <= parts@.len(),
            forall|k: int| 0 <= k < i ==> (#[trigger] all[k]) != ".."@,
        decreases parts@.len() - i,
    {
        assert(all[i as int] == parts@[i as int]@);
        if same(&parts[i], "..") {
            assert(!stays_below(pattern@));
            return Err(NpmError::PatternEscapes { pattern: copy(pattern) });
        }
        i += 1;
    }
    Ok(())
}

// ---------------------------------------------------------------------------
// Inputs
// ---------------------------------------------------------------------------

/// A character of a path in a pattern that matches it and nothing else.
pub open spec fn escaped_char(c: char) -> Seq<char> {
    if c == '?' || c == '*' || c == '[' || c == ']' {
        seq!['[', c, ']']
    } else {
        seq![c]
    }
}

/// A pattern that matches a path and nothing else.
pub open spec fn escaped(s: Seq<char>) -> Seq<char>
    decreases s.len(),
{
    if s.len() == 0 {
        Seq::empty()
    } else {
        escaped(s.drop_last()) + escaped_char(s.last())
    }
}

/// `glob::Pattern::escape`: the characters with a meaning in patterns stand in
/// brackets.
#[verifier::external_body]
pub(crate) fn escape_pattern(s: &str) -> (r: String)
    ensures
        r@ == escaped(s@),
{
    glob::Pattern::escape(s)
}

/// The patterns of the inputs of a package: the files of its directory, and
/// all below those of its directories that hold files.
pub open spec fn package_inputs(relative: Seq<char>, directories: Seq<Seq<char>>) -> Set<Seq<char>> {
    Seq::new(
        directories.len(),
        |i: int| escaped(relative) + "/"@ + escaped(directories[i]) + "/**/*"@,
    ).to_set().insert(escaped(relative) + "/*"@)
}

/// The patterns of the inputs of a package, in order.
pub fn package_input_patterns(relative: &str, directories: &Vec<String>) -> (r: Vec<String>)
    ensures
        texts(r@) == in_order(package_inputs(relative@, texts(directories@))),
{
    let ghost names = texts(directories@);
    let ghost all = Seq::new(
        names.len(),
        |i: int| escaped(relative@) + "/"@ + escaped(names[i]) + "/**/*"@,
    );
    let head = escape_pattern(relative);
    let mut set = TextSet::new();
    let mut i: usize = 0;
    assert(all.take(0).to_set() =~= Set::empty());
    while i < directories.len()
        invariant
            names == texts(directories@),
            head@ == escaped(relative@),
            all == Seq::new(
                names.len(),
                |i: int| escaped(relative@) + "/"@ + escaped(names[i]) + "/**/*"@,
            ),
            i <= directories@.len(),
            set.wf(),
            set@ =~= all.take(i as int).to_set(),
        decreases directories@.len() - i,
    {
        let mut pattern = copy(&head);
        pattern.append("/");
        pattern.append(&escape_pattern(&directories[i]));
        pattern.append("/**/*");
        proof {
            assert(names[i as int] == directories@[i as int]@);
            assert(all[i as int] == pattern@);
            assert(all.take(i + 1) =~= all.take(i as int).push(pattern@));
            all.take(i as int).lemma_push_to_set_commute(pattern@);
        }
        let _ = set.insert(pattern);
        i += 1;
    }
    assert(all.take(i as int) =~= all);
    let mut own = copy(&head);
    own.append("/*");
    let _ = set.insert(own);
    set.items()
}

/// A directory that tools fill, not people.
pub open spec fn generated(name: Seq<char>) -> bool {
    name == "node_modules"@ || name == "dist"@ || name == "build"@ || name == "coverage"@ || name
        == "target"@ || name == ".git"@ || name == ".frost"@ || name == ".cache"@ || name
        == ".turbo"@ || name == ".vite"@ || name == ".next"@
}

/// Whether tools fill a directory, not people.
pub fn is_generated_directory(name: &str) -> (r: bool)
    ensures
        r == generated(name@),
{
    same(name, "node_modules") || same(name, "dist") || same(name, "build") || same(
        name,
        "coverage",
    ) || same(name, "target") || same(name, ".git") || same(name, ".frost") || same(name, ".cache")
        || same(name, ".turbo") || same(name, ".vite") || same(name, ".next")
}

/// The files of the workspace root that all scripts depend on, where they are
/// there.
pub open spec fn root_files_text() -> Seq<Seq<char>> {
    seq![
        "package.json"@,
        "package-lock.json"@,
        "npm-shrinkwrap.json"@,
        ".npmrc"@,
        "tsconfig.json"@,
    ]
}

/// The files of the workspace root that all scripts depend on, where they are
/// there.
pub fn root_files() -> (r: Vec<String>)
    ensures
        texts(r@) == root_files_text(),
{
    broadcast use group_texts;

    let mut out = four("package.json", "package-lock.json", "npm-shrinkwrap.json", ".npmrc");
    out.push(copy("tsconfig.json"));
    assert(texts(out@) =~= root_files_text());
    out
}

/// The name of a file that configures the compiler of TypeScript.
pub open spec fn compiler_config(name: Seq<char>) -> bool {
    begins(name, "tsconfig"@) && ends(name, ".json"@)
}

/// The inputs that all scripts share, in order: the root files that were found,
/// and those of the regular files of the root that configure the compiler.
pub fn root_inputs(found: &Vec<String>, regular: &Vec<String>) -> (r: Vec<String>)
    ensures
        texts(r@) == in_order(
            texts(found@).to_set().union(
                texts(regular@).filter(|name: Seq<char>| compiler_config(name)).to_set(),
            ),
        ),
{
    let ghost given = texts(regular@);
    let ghost first = texts(found@).to_set();
    let ghost keep = |name: Seq<char>| compiler_config(name);
    let mut set = TextSet::new();
    add_texts(&mut set, found);
    let mut i: usize = 0;
    proof {
        reveal(Seq::filter);
        assert(set@ =~= first.union(given.take(0).filter(keep).to_set()));
    }
    while i < regular.len()
        invariant
            given == texts(regular@),
            keep == (|name: Seq<char>| compiler_config(name)),
            i <= regular@.len(),
            set.wf(),
            set@ =~= first.union(given.take(i as int).filter(keep).to_set()),
        decreases regular@.len() - i,
    {
        let ghost name = given[i as int];
        proof {
            assert(name == regular@[i as int]@);
            assert(given.take(i + 1) =~= given.take(i as int).push(name));
            given.take(i as int).lemma_filter_push(name, keep);
            given.take(i as int).filter(keep).lemma_push_to_set_commute(name);
        }
        let file = &regular[i];
        if starts_with(file, "tsconfig") && ends_with(file, ".json") {
            let _ = set.insert(copy(file));
        }
        i += 1;
    }
    assert(given.take(i as int) =~= given);
    set.items()
}

// ---------------------------------------------------------------------------
// Names
// ---------------------------------------------------------------------------

/// A name as part of a target's name so far: letters in lower case and digits,
/// with one dash for each run of other characters between them.
pub open spec fn dashed(s: Seq<char>) -> Seq<char>
    decreases s.len(),
{
    if s.len() == 0 {
        Seq::empty()
    } else {
        let done = dashed(s.drop_last());
        if is_alphanumeric(s.last()) {
            done.push(lower_char(s.last()))
        } else if done.len() > 0 && done.last() != '-' {
            done.push('-')
        } else {
            done
        }
    }
}

/// A name as part of a target's name.
pub open spec fn component(s: Seq<char>) -> Seq<char> {
    let d = dashed(s);
    if d.len() > 0 && d.last() == '-' {
        d.drop_last()
    } else {
        d
    }
}

/// Dashes never follow each other.
proof fn single_dashes(s: Seq<char>)
    ensures
        dashed(s).len() > 0 ==> dashed(s)[0] != '-',
        forall|i: int|
            0 <= i < dashed(s).len() - 1 && dashed(s)[i] == '-' ==> #[trigger] dashed(s)[i + 1]
                != '-',
    decreases s.len(),
{
    if s.len() > 0 {
        single_dashes(s.drop_last());
        let done = dashed(s.drop_last());
        let c = s.last();
        assert(is_alphanumeric(c) ==> lower_char(c) != '-');
        assert forall|i: int|
            0 <= i < dashed(s).len() - 1 && dashed(s)[i] == '-' implies #[trigger] dashed(s)[i + 1]
            != '-' by {
            if i + 1 < done.len() {
                assert(dashed(s)[i] == done[i]);
                assert(done[i + 1] != '-');
            } else if i + 1 == done.len() {
                assert(dashed(s)[i] == done[i]);
            }
        }
    }
}

/// A name as part of a target's name.
pub fn target_component(value: &str) -> (r: String)
    ensures
        r@ == component(value@),
{
    let a = chars_of(value);
    let mut out: Vec<char> = Vec::new();
    let mut i: usize = 0;
    assert(a@.take(0) =~= Seq::empty());
    assert(out@ =~= Seq::empty());
    while i < a.len()
        invariant
            a@ == value@,
            i <= a@.len(),
            out@ == dashed(a@.take(i as int)),
        decreases a@.len() - i,
    {
        let c = a[i];
        assert(a@.take(i + 1).drop_last() =~= a@.take(i as int));
        assert(a@.take(i + 1).last() == c);
        if alphanumeric(c) {
            if 'A' <= c && c <= 'Z' {
                let small: u8 = c as u8 + 32;
                out.push(small as char);
            } else {
                out.push(c);
            }
        } else if out.len() > 0 && out[out.len() - 1] != '-' {
            out.push('-');
        }
        i += 1;
    }
    assert(a@.take(i as int) =~= a@);
    if out.len() > 0 && out[out.len() - 1] == '-' {
        let r = text_between(&out, 0, out.len() - 1);
        assert(r@ =~= out@.drop_last());
        return r;
    }
    text_of(&out)
}

/// No target's name ends or begins with a dash.
pub proof fn component_has_no_loose_dash(s: Seq<char>)
    ensures
        component(s).len() > 0 ==> component(s)[0] != '-' && component(s).last() != '-',
{
    single_dashes(s);
    let d = dashed(s);
    if d.len() > 0 && d.last() == '-' && d.len() > 1 {
        let i = d.len() - 2;
        if d[i] == '-' {
            assert(d[i + 1] != '-');
        }
    }
}

/// The name of the target for a script of a package; none where nothing is
/// left of one of them.
pub open spec fn name_for(package: Seq<char>, script: Seq<char>) -> Option<Seq<char>> {
    if component(package).len() == 0 || component(script).len() == 0 {
        None
    } else {
        Some(component(package) + "-"@ + component(script))
    }
}

/// The name of the target for a script of a package.
pub fn target_name(package: &str, script: &str) -> (r: Result<String, NpmError>)
    ensures
        match r {
            Ok(name) => name_for(package@, script@) == Some(name@),
            Err(e) => e is NoTargetName && name_for(package@, script@) == None::<Seq<char>>,
        },
{
    let p = target_component(package);
    let s = target_component(script);
    if p.as_str().is_empty() || s.as_str().is_empty() {
        return Err(NpmError::NoTargetName);
    }
    let mut out = p;
    out.append("-");
    out.append(&s);
    Ok(out)
}

// ---------------------------------------------------------------------------
// The plan
// ---------------------------------------------------------------------------

/// A package of an npm workspace. `ordered_dependencies` are those whose
/// scripts must have run before.
#[derive(Debug)]
pub struct WorkspacePackage {
    pub name: String,
    pub scripts: Vec<String>,
    pub all_dependencies: Vec<String>,
    pub ordered_dependencies: Vec<String>,
    pub own_inputs: Vec<String>,
}

/// What the file of a package says.
#[derive(Debug)]
pub struct PackageJson {
    pub name: Option<String>,
    pub scripts: Vec<String>,
    pub dependencies: Vec<String>,
    pub dev_dependencies: Vec<String>,
    pub optional_dependencies: Vec<String>,
    pub peer_dependencies: Vec<String>,
}

/// The texts of some lists.
pub open spec fn union_of(lists: Seq<Seq<Seq<char>>>) -> Set<Seq<char>> {
    Set::new(
        |s: Seq<char>|
            exists|i: int| 0 <= i < lists.len() && (#[trigger] lists[i]).contains(s),
    )
}

/// The lists as sequences.
pub open spec fn list_texts(lists: Seq<Vec<String>>) -> Seq<Seq<Seq<char>>> {
    Seq::new(lists.len(), |i: int| texts(lists[i]@))
}

/// The name of a package without the space round it; none where it has none.
pub fn package_name(raw: &Option<String>) -> (r: Option<String>)
    ensures
        r is Some <==> *raw is Some && trimmed(raw->0@).len() > 0,
        r is Some ==> r->0@ == trimmed(raw->0@),
{
    match raw {
        Some(raw) => {
            let name = trim(raw);
            if name.as_str().is_empty() {
                None
            } else {
                Some(name)
            }
        },
        None => None,
    }
}

/// The names in lists of dependencies, in order and without repetition.
pub fn dependency_names(lists: &Vec<Vec<String>>) -> (r: Vec<String>)
    ensures
        texts(r@) == in_order(union_of(list_texts(lists@))),
{
    let ghost all = list_texts(lists@);
    let mut set = TextSet::new();
    let mut i: usize = 0;
    while i < lists.len()
        invariant
            all == list_texts(lists@),
            i <= lists@.len(),
            set.wf(),
            forall|s: Seq<char>| #[trigger]
                set@.contains(s) <==> exists|j: int|
                    0 <= j < i && (#[trigger] all[j]).contains(s),
        decreases lists@.len() - i,
    {
        let ghost before = set@;
        add_texts(&mut set, &lists[i]);
        proof {
            assert forall|s: Seq<char>| #[trigger] set@.contains(s) <==> exists|j: int|
                0 <= j < i + 1 && (#[trigger] all[j]).contains(s) by {
                if all[i as int].contains(s) {
                    assert(set@.contains(s));
                }
                if before.contains(s) {
                    let j = choose|j: int| 0 <= j < i && (#[trigger] all[j]).contains(s);
                    assert(0 <= j < i + 1 && all[j].contains(s));
                }
            }
        }
        i += 1;
    }
    assert(set@ =~= union_of(all));
    set.items()
}

impl PackageJson {
    /// The lists of all dependencies.
    pub open spec fn all_lists(self) -> Seq<Seq<Seq<char>>> {
        seq![
            texts(self.dependencies@),
            texts(self.dev_dependencies@),
            texts(self.optional_dependencies@),
            texts(self.peer_dependencies@),
        ]
    }

    /// The lists of the dependencies whose scripts must have run before.
    pub open spec fn ordered_lists(self) -> Seq<Seq<Seq<char>>> {
        seq![texts(self.dependencies@), texts(self.optional_dependencies@)]
    }

    /// The names of all dependencies.
    pub fn all_dependency_names(&self) -> (r: Vec<String>)
        ensures
            texts(r@) == in_order(union_of(self.all_lists())),
    {
        let mut lists: Vec<Vec<String>> = Vec::new();
        lists.push(copies(&self.dependencies));
        lists.push(copies(&self.dev_dependencies));
        lists.push(copies(&self.optional_dependencies));
        lists.push(copies(&self.peer_dependencies));
        assert(list_texts(lists@) =~= self.all_lists());
        dependency_names(&lists)
    }

    /// The names of the dependencies whose scripts must have run before.
    pub fn ordered_dependency_names(&self) -> (r: Vec<String>)
        ensures
            texts(r@) == in_order(union_of(self.ordered_lists())),
    {
        let mut lists: Vec<Vec<String>> = Vec::new();
        lists.push(copies(&self.dependencies));
        lists.push(copies(&self.optional_dependencies));
        assert(list_texts(lists@) =~= self.ordered_lists());
        dependency_names(&lists)
    }
}

impl WorkspacePackage {
    /// The package that a file describes.
    pub fn new(name: String, json: &PackageJson, own_inputs: Vec<String>) -> (r: WorkspacePackage)
        ensures
            r.name == name,
            texts(r.scripts@) == texts(json.scripts@),
            texts(r.all_dependencies@) == in_order(union_of(json.all_lists())),
            texts(r.ordered_dependencies@) == in_order(union_of(json.ordered_lists())),
            r.own_inputs == own_inputs,
    {
        WorkspacePackage {
            name,
            scripts: copies(&json.scripts),
            all_dependencies: json.all_dependency_names(),
            ordered_dependencies: json.ordered_dependency_names(),
            own_inputs,
        }
    }
}

/// Adds a package; refuses one with a name that is there already.
pub fn add_package(packages: &mut SortedMap<WorkspacePackage>, package: WorkspacePackage) -> (r:
    Result<(), NpmError>)
    requires
        packages_wf(*old(packages)),
    ensures
        packages_wf(*final(packages)),
        match r {
            Ok(_) => !old(packages).has(package.name@) && (forall|k: Seq<char>| #[trigger]
                final(packages).has(k) <==> old(packages).has(k) || k == package.name@) && (forall|
                k: Seq<char>,
            |
                final(packages).has(k) ==> #[trigger] final(packages).at(k) == if k
                    == package.name@ {
                    package
                } else {
                    old(packages).at(k)
                }),
            Err(e) => old(packages).has(package.name@) && *final(packages) == *old(packages) && (
            e matches NpmError::DuplicatePackage { name } && name@ == package.name@),
        },
{
    if packages.contains_key(&package.name) {
        return Err(NpmError::DuplicatePackage { name: package.name });
    }
    let _ = packages.insert(copy(&package.name), package);
    proof {
        assert forall|i: int| #![trigger packages.values@[i]]
            0 <= i < packages.values@.len() implies packages.values@[i].name@
            == packages.keys@[i]@ by {
            packages.spot_is(i);
            let k = packages.keys@[i]@;
            assert(packages.at(k) == packages.values@[i]);
            if k != package.name@ {
                let j = old(packages).spot(k);
                assert(old(packages).has(k));
                assert(old(packages).names()[j] == k);
                assert(old(packages).values@[j].name@ == old(packages).keys@[j]@);
            }
        }
    }
    Ok(())
}

/// Packages stand under their names.
pub open spec fn packages_wf(packages: SortedMap<WorkspacePackage>) -> bool {
    packages.wf() && forall|i: int| #![trigger packages.values@[i]]
        0 <= i < packages.values@.len() ==> packages.values@[i].name@ == packages.keys@[i]@
}

/// The first `m` scripts that package `i` has.
pub open spec fn package_gates(
    packages: SortedMap<WorkspacePackage>,
    scripts: Seq<Seq<char>>,
    i: int,
    m: nat,
) -> Seq<(int, int)>
    decreases m,
{
    if m == 0 {
        Seq::empty()
    } else {
        let before = package_gates(packages, scripts, i, (m - 1) as nat);
        if texts(packages.values@[i].scripts@).contains(scripts[m - 1]) {
            before.push((i, m - 1))
        } else {
            before
        }
    }
}

/// The scripts that the first `n` packages have, by the numbers of both.
pub open spec fn all_gates(
    packages: SortedMap<WorkspacePackage>,
    scripts: Seq<Seq<char>>,
    n: nat,
) -> Seq<(int, int)>
    decreases n,
{
    if n == 0 {
        Seq::empty()
    } else {
        all_gates(packages, scripts, (n - 1) as nat) + package_gates(
            packages,
            scripts,
            n - 1,
            scripts.len(),
        )
    }
}

/// The name of the target for a gate.
pub open spec fn gate_name(
    packages: SortedMap<WorkspacePackage>,
    scripts: Seq<Seq<char>>,
    gate: (int, int),
) -> Option<Seq<char>> {
    name_for(packages.values@[gate.0].name@, scripts[gate.1])
}

/// Gate `k` has a name, which none of the gates before it has.
pub open spec fn gate_ok(
    packages: SortedMap<WorkspacePackage>,
    scripts: Seq<Seq<char>>,
    gates: Seq<(int, int)>,
    k: int,
) -> bool {
    &&& gate_name(packages, scripts, gates[k]) is Some
    &&& forall|j: int|
        0 <= j < k ==> gate_name(packages, scripts, #[trigger] gates[j]) != gate_name(
            packages,
            scripts,
            gates[k],
        )
}

/// For each package those packages of the workspace that it depends on.
pub open spec fn package_edges(packages: SortedMap<WorkspacePackage>) -> Seq<Seq<int>> {
    Seq::new(
        packages.values@.len(),
        |i: int| known_deps(packages, i, packages.values@[i].all_dependencies@.len()),
    )
}

/// The packages of the workspace among the first `n` dependencies of package
/// `i`.
pub open spec fn known_deps(packages: SortedMap<WorkspacePackage>, i: int, n: nat) -> Seq<int>
    decreases n,
{
    if n == 0 {
        Seq::empty()
    } else {
        let before = known_deps(packages, i, (n - 1) as nat);
        let dep = packages.values@[i].all_dependencies@[n - 1]@;
        if packages.has(dep) {
            before.push(packages.spot(dep))
        } else {
            before
        }
    }
}

/// The inputs of the scripts of package `i`: those common to all, its own, and
/// those of all packages of the workspace that it depends on.
pub open spec fn gate_inputs(
    packages: SortedMap<WorkspacePackage>,
    common: Seq<Seq<char>>,
    i: int,
) -> Set<Seq<char>> {
    Set::new(
        |s: Seq<char>|
            common.contains(s) || exists|x: int|
                0 <= x < packages.values@.len() && #[trigger] reaches(
                    package_edges(packages),
                    i,
                    x,
                ) && texts(packages.values@[x].own_inputs@).contains(s),
    )
}

/// The targets that must run before a gate: the same script of the packages it
/// depends on in order.
pub open spec fn gate_deps(
    packages: SortedMap<WorkspacePackage>,
    script: Seq<char>,
    i: int,
) -> Set<Seq<char>> {
    Set::new(
        |s: Seq<char>|
            exists|k: int| #![trigger packages.values@[i].ordered_dependencies@[k]]
                0 <= k < packages.values@[i].ordered_dependencies@.len() && gate_of(
                    packages,
                    script,
                    packages.values@[i].ordered_dependencies@[k]@,
                    s,
                ),
    )
}

/// `s` is the name of the target for a script of the package `dep`, which is in
/// the workspace and has the script.
pub open spec fn gate_of(
    packages: SortedMap<WorkspacePackage>,
    script: Seq<char>,
    dep: Seq<char>,
    s: Seq<char>,
) -> bool {
    packages.has(dep) && texts(packages.at(dep).scripts@).contains(script) && name_for(dep, script)
        == Some(s)
}

/// What the scripts see of the environment.
pub open spec fn node_pass_env() -> Seq<Seq<char>> {
    seq![
        "NODE_OPTIONS"@,
        "NODE_PATH"@,
        "NPM_CONFIG_CACHE"@,
        "NPM_CONFIG_USERCONFIG"@,
        "COREPACK_HOME"@,
        "FORCE_COLOR"@,
    ]
}

/// The manifest section of a gate.
pub open spec fn gate_text(
    packages: SortedMap<WorkspacePackage>,
    scripts: Seq<Seq<char>>,
    common: Seq<Seq<char>>,
    gate: (int, int),
) -> Seq<char> {
    let package = packages.values@[gate.0].name@;
    let script = scripts[gate.1];
    let deps = in_order(gate_deps(packages, script, gate.0));
    "[target."@ + gate_name(packages, scripts, gate)->0
        + "]\nkind = \"test\"\ntool = \"npm\"\nargs = "@ + json_array(
        seq!["run"@, script, "--workspace"@, package],
    ) + "\ninputs = "@ + json_array(in_order(gate_inputs(packages, common, gate.0))) + "\n"@ + (
    if deps.len() == 0 {
        ""@
    } else {
        "deps = "@ + json_array(deps) + "\n"@
    }) + "env = { CI = \"true\" }\npass_env = "@ + json_array(node_pass_env())
        + "\nsandbox = false\n\n"@
}

/// The manifest sections of the first `n` gates.
pub open spec fn gate_texts(
    packages: SortedMap<WorkspacePackage>,
    scripts: Seq<Seq<char>>,
    common: Seq<Seq<char>>,
    gates: Seq<(int, int)>,
    n: nat,
) -> Seq<char>
    decreases n,
{
    if n == 0 {
        Seq::empty()
    } else {
        gate_texts(packages, scripts, common, gates, (n - 1) as nat) + gate_text(
            packages,
            scripts,
            common,
            gates[n - 1],
        )
    }
}

/// What the manifest section of a gate declares.
pub open spec fn gate_declares(
    packages: SortedMap<WorkspacePackage>,
    scripts: Seq<Seq<char>>,
    common: Seq<Seq<char>>,
    gate: (int, int),
    raw: RawTarget,
) -> bool {
    let package = packages.values@[gate.0].name@;
    let script = scripts[gate.1];
    &&& raw.kind == TargetKind::Test
    &&& raw.tool is Some && raw.tool->0@ == "npm"@
    &&& texts(raw.args@) == seq!["run"@, script, "--workspace"@, package]
    &&& texts(raw.inputs@) == in_order(gate_inputs(packages, common, gate.0))
    &&& texts(raw.deps@) == in_order(gate_deps(packages, script, gate.0))
    &&& raw.env.wf() && pairs(raw.env) == (Pairs { names: seq!["CI"@], texts: seq!["true"@] })
    &&& texts(raw.pass_env@) == node_pass_env()
    &&& raw.sandbox == Some(false)
    &&& raw.cmd is None && raw.depfile is None && !raw.preserve_outputs
    &&& raw.srcs@.len() == 0 && raw.includes@.len() == 0 && raw.cflags@.len() == 0
    &&& raw.ldflags@.len() == 0 && raw.steps@.len() == 0 && raw.outputs@.len() == 0
    &&& raw.clean_dirs@.len() == 0
}

/// `s` is the name of one of the first `n` gates.
pub open spec fn names_a_gate(
    packages: SortedMap<WorkspacePackage>,
    scripts: Seq<Seq<char>>,
    gates: Seq<(int, int)>,
    n: int,
    s: Seq<char>,
) -> bool {
    exists|k: int| 0 <= k < n && gate_name(packages, scripts, #[trigger] gates[k]) == Some(s)
}

/// Targets are what the manifest sections of the first `n` gates declare.
pub open spec fn gates_declare(
    packages: SortedMap<WorkspacePackage>,
    scripts: Seq<Seq<char>>,
    common: Seq<Seq<char>>,
    gates: Seq<(int, int)>,
    n: int,
    targets: SortedMap<RawTarget>,
) -> bool {
    &&& targets.wf()
    &&& forall|s: Seq<char>| #[trigger]
        targets.has(s) <==> names_a_gate(packages, scripts, gates, n, s)
    &&& forall|k: int|
        0 <= k < n ==> gate_declares(
            packages,
            scripts,
            common,
            #[trigger] gates[k],
            targets.at(gate_name(packages, scripts, gates[k])->0),
        )
}

/// What the manifest of an import declares.
pub open spec fn import_declares(
    packages: SortedMap<WorkspacePackage>,
    scripts: Seq<Seq<char>>,
    common: Seq<Seq<char>>,
    npm: Seq<char>,
    node: Seq<char>,
    gates: Seq<(int, int)>,
    raw: RawManifest,
) -> bool {
    let tools = raw.toolchain;
    &&& gates_declare(packages, scripts, common, gates, gates.len() as int, raw.targets)
    &&& tools.tools.wf()
    &&& pairs(tools.tools) == (Pairs { names: seq!["node"@, "npm"@], texts: seq![node, npm] })
    &&& tools.cc is None && tools.cxx is None && tools.ar is None && tools.kofunc is None
    &&& tools.arflags is None && tools.cflags@.len() == 0 && tools.cxxflags@.len() == 0
    &&& tools.ldflags@.len() == 0
    &&& raw.default_targets@.len() == 0
    &&& raw.platforms.wf() && raw.platforms.keys@.len() == 0
    &&& raw.profiles.wf() && raw.profiles.keys@.len() == 0
}

/// A manifest is valid, and the workspace that it declares has a build graph.
pub open spec fn builds(raw: RawManifest, m: Manifest, g: BuildGraph) -> bool {
    &&& targets_valid(raw)
    &&& made_from(raw, m)
    &&& m.linked()
    &&& graph_of(m, DEFAULT_PROFILE@, HOST_PLATFORM@, g)
}

/// `e` says what is wrong first with a manifest, or else with its build graph.
pub open spec fn build_refused(raw: RawManifest, e: NpmError) -> bool {
    match e {
        NpmError::InvalidManifest { error } => declaration_error(raw, error) || (targets_valid(raw)
            && exists|m: Manifest| #[trigger] made_from(raw, m) && refused(m, error)),
        NpmError::InvalidGraph { fault } => targets_valid(raw) && exists|m: Manifest| #[trigger]
            made_from(raw, m) && m.linked() && no_graph(
                m,
                DEFAULT_PROFILE@,
                HOST_PLATFORM@,
                fault@,
            ),
        _ => false,
    }
}

/// Gate `a` must run behind gate `b`.
pub open spec fn gate_needs(
    packages: SortedMap<WorkspacePackage>,
    scripts: Seq<Seq<char>>,
    gates: Seq<(int, int)>,
    a: int,
    b: int,
) -> bool {
    gate_deps(packages, scripts[gates[a].1], gates[a].0).contains(
        gate_name(packages, scripts, gates[b])->0,
    )
}

/// `path` leads from a gate over those it must run behind back to itself.
pub open spec fn gate_cycle(
    packages: SortedMap<WorkspacePackage>,
    scripts: Seq<Seq<char>>,
    gates: Seq<(int, int)>,
    path: Seq<int>,
) -> bool {
    &&& path.len() > 1
    &&& path[0] == path.last()
    &&& forall|i: int| 0 <= i < path.len() ==> 0 <= #[trigger] path[i] < gates.len()
    &&& forall|i: int|
        0 <= i < path.len() - 1 ==> gate_needs(
            packages,
            scripts,
            gates,
            #[trigger] path[i],
            path[i + 1],
        )
}

/// The first lines of the manifest.
pub open spec fn manifest_head(npm: Seq<char>, node: Seq<char>) -> Seq<char> {
    "# Generated by `frost import-npm` from npm workspace metadata.\n# Only non-interactive script gates are imported. Build/dev scripts and dynamic\n# output trees remain npm/Vite-owned until an explicit artifact boundary exists.\n\n[toolchain.tools]\nnpm = "@
        + json_text(npm) + "\nnode = "@ + json_text(node) + "\n\n"@
}

/// An import: the manifest, and how many packages and targets it is about.
#[derive(Debug)]
pub struct ImportPlan {
    pub manifest: String,
    pub package_count: usize,
    pub target_count: usize,
    pub scripts: Vec<String>,
}

/// A gate by the numbers of its package and script.
#[derive(Debug, Clone, Copy, PartialEq, Eq, Structural)]
struct Gate {
    package: usize,
    script: usize,
}

spec fn gate_views(v: Seq<Gate>) -> Seq<(int, int)> {
    Seq::new(v.len(), |k: int| (v[k].package as int, v[k].script as int))
}

/// The scripts that the packages have.
fn find_gates(packages: &SortedMap<WorkspacePackage>, scripts: &Vec<String>) -> (r: Vec<Gate>)
    requires
        packages_wf(*packages),
    ensures
        gate_views(r@) == all_gates(*packages, texts(scripts@), packages.values@.len()),
        forall|k: int|
            0 <= k < r@.len() ==> (#[trigger] r@[k]).package < packages.values@.len()
                && r@[k].script < scripts@.len(),
{
    let ghost names = texts(scripts@);
    let mut out: Vec<Gate> = Vec::new();
    let mut i: usize = 0;
    assert(gate_views(out@) =~= Seq::empty());
    while i < packages.values.len()
        invariant
            packages_wf(*packages),
            names == texts(scripts@),
            i <= packages.values@.len(),
            gate_views(out@) == all_gates(*packages, names, i as nat),
            forall|k: int|
                0 <= k < out@.len() ==> (#[trigger] out@[k]).package < packages.values@.len()
                    && out@[k].script < scripts@.len(),
        decreases packages.values@.len() - i,
    {
        let package = &packages.values[i];
        let ghost before = gate_views(out@);
        let mut j: usize = 0;
        assert(before + package_gates(*packages, names, i as int, 0) =~= before);
        while j < scripts.len()
            invariant
                packages_wf(*packages),
                names == texts(scripts@),
                i < packages.values@.len(),
                *package == packages.values@[i as int],
                j <= scripts@.len(),
                gate_views(out@) == before + package_gates(*packages, names, i as int, j as nat),
                forall|k: int|
                    0 <= k < out@.len() ==> (#[trigger] out@[k]).package < packages.values@.len()
                        && out@[k].script < scripts@.len(),
            decreases scripts@.len() - j,
        {
            assert(names[j as int] == scripts@[j as int]@);
            if lists(&package.scripts, &scripts[j]) {
                let ghost so_far = gate_views(out@);
                out.push(Gate { package: i, script: j });
                assert(gate_views(out@) =~= so_far.push((i as int, j as int)));
                assert(so_far.push((i as int, j as int)) =~= before + package_gates(
                    *packages,
                    names,
                    i as int,
                    (j + 1) as nat,
                ));
            }
            j += 1;
        }
        i += 1;
    }
    out
}

/// For each package those packages of the workspace that it depends on.
fn edge_lists(packages: &SortedMap<WorkspacePackage>) -> (r: Vec<Vec<usize>>)
    requires
        packages_wf(*packages),
    ensures
        numbers(r@) == package_edges(*packages),
        in_range(numbers(r@)),
        r@.len() == packages.values@.len(),
{
    let ghost all = package_edges(*packages);
    let mut out: Vec<Vec<usize>> = Vec::new();
    let mut i: usize = 0;
    while i < packages.values.len()
        invariant
            packages_wf(*packages),
            all == package_edges(*packages),
            i <= packages.values@.len(),
            out@.len() == i,
            forall|k: int| 0 <= k < i ==> #[trigger] ints(out@[k]@) == all[k],
            forall|k: int, j: int|
                0 <= k < i && 0 <= j < out@[k]@.len() ==> #[trigger] out@[k]@[j]
                    < packages.values@.len(),
        decreases packages.values@.len() - i,
    {
        let deps = &packages.values[i].all_dependencies;
        let mut own: Vec<usize> = Vec::new();
        let mut j: usize = 0;
        assert(ints(own@) =~= Seq::empty());
        while j < deps.len()
            invariant
                packages_wf(*packages),
                i < packages.values@.len(),
                *deps == packages.values@[i as int].all_dependencies,
                j <= deps@.len(),
                ints(own@) == known_deps(*packages, i as int, j as nat),
                forall|k: int| 0 <= k < own@.len() ==> #[trigger] own@[k] < packages.values@.len(),
            decreases deps@.len() - j,
        {
            if let Some(at) = packages.find(&deps[j]) {
                let ghost was = ints(own@);
                own.push(at);
                assert(ints(own@) =~= was.push(at as int));
            }
            j += 1;
        }
        assert(all[i as int] == ints(own@));
        out.push(own);
        i += 1;
    }
    proof {
        assert forall|k: int| 0 <= k < all.len() implies numbers(out@)[k] == all[k] by {
            assert(ints(out@[k]@) == all[k]);
            assert(numbers(out@)[k] =~= ints(out@[k]@));
        }
        assert(numbers(out@) =~= all);
        assert forall|k: int, j: int|
            0 <= k < numbers(out@).len() && 0 <= j < numbers(out@)[k].len() implies 0
            <= #[trigger] numbers(out@)[k][j] < numbers(out@).len() by {
            assert(out@[k]@[j] < packages.values@.len());
        }
    }
    out
}

/// The inputs of the scripts of package `i`, in order.
fn collect_inputs(
    packages: &SortedMap<WorkspacePackage>,
    edges: &Vec<Vec<usize>>,
    common: &Vec<String>,
    i: usize,
) -> (r: Vec<String>)
    requires
        packages_wf(*packages),
        numbers(edges@) == package_edges(*packages),
        in_range(numbers(edges@)),
        edges@.len() == packages.values@.len(),
        i < packages.values@.len(),
    ensures
        texts(r@) == in_order(gate_inputs(*packages, texts(common@), i as int)),
{
    let ghost e = package_edges(*packages);
    let mut roots: Vec<usize> = Vec::new();
    roots.push(i);
    let found = closure(edges, &roots);
    let mut set = TextSet::new();
    add_texts(&mut set, common);
    let mut k: usize = 0;
    while k < found.len()
        invariant
            packages_wf(*packages),
            forall|j: int| 0 <= j < found@.len() ==> #[trigger] found@[j] < packages.values@.len(),
            k <= found@.len(),
            set.wf(),
            forall|s: Seq<char>| #[trigger]
                set@.contains(s) <==> texts(common@).contains(s) || exists|j: int|
                    0 <= j < k && texts(
                        packages.values@[#[trigger] found@[j] as int].own_inputs@,
                    ).contains(s),
        decreases found@.len() - k,
    {
        let x: usize = found[k];
        let ghost before = set@;
        add_texts(&mut set, &packages.values[x].own_inputs);
        proof {
            assert forall|s: Seq<char>| #[trigger] set@.contains(s) <==> texts(
                common@,
            ).contains(s) || exists|j: int|
                0 <= j < k + 1 && texts(
                    packages.values@[#[trigger] found@[j] as int].own_inputs@,
                ).contains(s) by {
                if texts(packages.values@[x as int].own_inputs@).contains(s) {
                    assert(found@[k as int] == x);
                }
                if before.contains(s) && !texts(common@).contains(s) {
                    let j = choose|j: int|
                        0 <= j < k && texts(
                            packages.values@[#[trigger] found@[j] as int].own_inputs@,
                        ).contains(s);
                    assert(0 <= j < k + 1 && texts(
                        packages.values@[found@[j] as int].own_inputs@,
                    ).contains(s));
                }
            }
        }
        k += 1;
    }
    proof {
        let want = gate_inputs(*packages, texts(common@), i as int);
        assert(set@ =~= want) by {
            assert forall|s: Seq<char>| set@.contains(s) <==> want.contains(s) by {
                if set@.contains(s) && !texts(common@).contains(s) {
                    let j = choose|j: int|
                        0 <= j < found@.len() && texts(
                            packages.values@[#[trigger] found@[j] as int].own_inputs@,
                        ).contains(s);
                    let x = found@[j] as int;
                    assert(ints(found@)[j] == x);
                    assert(ints(found@).contains(x));
                    let r = choose|r: int| ints(roots@).contains(r) && #[trigger] reaches(e, r, x);
                    assert(ints(roots@)[ints(roots@).index_of(r)] == r);
                    assert(reaches(e, i as int, x));
                }
                if want.contains(s) && !texts(common@).contains(s) {
                    let x = choose|x: int|
                        0 <= x < packages.values@.len() && #[trigger] reaches(e, i as int, x)
                            && texts(packages.values@[x].own_inputs@).contains(s);
                    assert(ints(roots@)[0] == i);
                    assert(reached_from(e, ints(roots@), x));
                    assert(ints(found@).contains(x));
                    let j = ints(found@).index_of(x);
                    assert(found@[j] == x);
                }
            }
        }
    }
    set.items()
}

/// Adds texts to a set.
fn add_texts(set: &mut TextSet, more: &Vec<String>)
    requires
        old(set).wf(),
    ensures
        final(set).wf(),
        final(set)@ == old(set)@.union(texts(more@).to_set()),
{
    let ghost was = set@;
    let ghost names = texts(more@);
    let mut i: usize = 0;
    assert(was.union(names.take(0).to_set()) =~= was);
    while i < more.len()
        invariant
            names == texts(more@),
            i <= more@.len(),
            set.wf(),
            set@ =~= was.union(names.take(i as int).to_set()),
        decreases more@.len() - i,
    {
        proof {
            assert(names[i as int] == more@[i as int]@);
            assert(names.take(i + 1) =~= names.take(i as int).push(names[i as int]));
            names.take(i as int).lemma_push_to_set_commute(names[i as int]);
        }
        let _ = set.insert(copy(&more[i]));
        i += 1;
    }
    assert(names.take(i as int) =~= names);
}

/// The targets that must run before a gate, in order.
fn collect_deps(packages: &SortedMap<WorkspacePackage>, script: &str, i: usize) -> (r: Vec<String>)
    requires
        packages_wf(*packages),
        i < packages.values@.len(),
    ensures
        texts(r@) == in_order(gate_deps(*packages, script@, i as int)),
{
    let deps = &packages.values[i].ordered_dependencies;
    let mut set = TextSet::new();
    let mut k: usize = 0;
    while k < deps.len()
        invariant
            packages_wf(*packages),
            i < packages.values@.len(),
            *deps == packages.values@[i as int].ordered_dependencies,
            k <= deps@.len(),
            set.wf(),
            forall|s: Seq<char>| #[trigger]
                set@.contains(s) <==> exists|j: int| #![trigger deps@[j]]
                    0 <= j < k && gate_of(*packages, script@, deps@[j]@, s),
        decreases deps@.len() - k,
    {
        let ghost before = set@;
        if let Some(package) = packages.get(&deps[k]) {
            if lists(&package.scripts, script) {
                if let Ok(name) = target_name(&deps[k], script) {
                    let _ = set.insert(name);
                }
            }
        }
        proof {
            assert forall|s: Seq<char>| #[trigger] set@.contains(s) <==> exists|j: int|
                #![trigger deps@[j]]
                0 <= j < k + 1 && gate_of(*packages, script@, deps@[j]@, s) by {
                if gate_of(*packages, script@, deps@[k as int]@, s) {
                    assert(set@.contains(s));
                }
                if before.contains(s) {
                    let j = choose|j: int| #![trigger deps@[j]]
                        0 <= j < k && gate_of(*packages, script@, deps@[j]@, s);
                    assert(0 <= j < k + 1 && gate_of(*packages, script@, deps@[j]@, s));
                }
            }
        }
        k += 1;
    }
    assert(set@ =~= gate_deps(*packages, script@, i as int));
    set.items()
}

/// Four texts as a list.
fn four(a: &str, b: &str, c: &str, d: &str) -> (r: Vec<String>)
    ensures
        texts(r@) == seq![a@, b@, c@, d@],
{
    let mut out: Vec<String> = Vec::new();
    out.push(copy(a));
    out.push(copy(b));
    out.push(copy(c));
    out.push(copy(d));
    assert(texts(out@) =~= seq![a@, b@, c@, d@]);
    out
}

/// What the scripts see of the environment.
fn pass_env() -> (r: Vec<String>)
    ensures
        texts(r@) == node_pass_env(),
{
    broadcast use group_texts;

    let mut out = four("NODE_OPTIONS", "NODE_PATH", "NPM_CONFIG_CACHE", "NPM_CONFIG_USERCONFIG");
    out.push(copy("COREPACK_HOME"));
    out.push(copy("FORCE_COLOR"));
    assert(texts(out@) =~= node_pass_env());
    out
}

/// What a gate declares.
fn gate_target(
    packages: &SortedMap<WorkspacePackage>,
    edges: &Vec<Vec<usize>>,
    scripts: &Vec<String>,
    common: &Vec<String>,
    i: usize,
    j: usize,
) -> (r: RawTarget)
    requires
        packages_wf(*packages),
        numbers(edges@) == package_edges(*packages),
        in_range(numbers(edges@)),
        edges@.len() == packages.values@.len(),
        i < packages.values@.len(),
        j < scripts@.len(),
    ensures
        gate_declares(*packages, texts(scripts@), texts(common@), (i as int, j as int), r),
{
    assert(texts(scripts@)[j as int] == scripts@[j as int]@);
    let mut names: Vec<String> = Vec::new();
    names.push(copy("CI"));
    let mut values: Vec<String> = Vec::new();
    values.push(copy("true"));
    assert(texts(names@) =~= seq!["CI"@]);
    assert(texts(values@) =~= seq!["true"@]);
    RawTarget {
        kind: TargetKind::Test,
        srcs: Vec::new(),
        deps: collect_deps(packages, &scripts[j], i),
        includes: Vec::new(),
        cflags: Vec::new(),
        ldflags: Vec::new(),
        cmd: None,
        tool: Some(copy("npm")),
        args: four("run", &scripts[j], "--workspace", &packages.values[i].name),
        steps: Vec::new(),
        inputs: collect_inputs(packages, edges, common, i),
        outputs: Vec::new(),
        depfile: None,
        clean_dirs: Vec::new(),
        preserve_outputs: false,
        env: SortedMap { keys: names, values },
        pass_env: pass_env(),
        sandbox: Some(false),
    }
}

/// The manifest section of a gate that declares `target`.
fn gate_section(
    name: &str,
    target: &RawTarget,
    Ghost(packages): Ghost<SortedMap<WorkspacePackage>>,
    Ghost(scripts): Ghost<Seq<Seq<char>>>,
    Ghost(common): Ghost<Seq<Seq<char>>>,
    Ghost(gate): Ghost<(int, int)>,
) -> (r: String)
    requires
        gate_declares(packages, scripts, common, gate, *target),
        gate_name(packages, scripts, gate) == Some(name@),
    ensures
        r@ == gate_text(packages, scripts, common, gate),
{
    let mut out = copy("[target.");
    out.append(name);
    out.append("]\nkind = \"test\"\ntool = \"npm\"\nargs = ");
    out.append(&json_list(&target.args));
    out.append("\ninputs = ");
    out.append(&json_list(&target.inputs));
    out.append("\n");
    let mut dep_line = copy("");
    if target.deps.len() > 0 {
        dep_line = copy("deps = ");
        dep_line.append(&json_list(&target.deps));
        dep_line.append("\n");
    }
    assert(texts(target.deps@).len() == target.deps@.len());
    out.append(&dep_line);
    out.append("env = { CI = \"true\" }\npass_env = ");
    out.append(&json_list(&target.pass_env));
    out.append("\nsandbox = false\n\n");
    out
}

/// What keeps a list of gates from being imported: the first gate without a
/// name of its own.
pub open spec fn gates_fault(
    packages: SortedMap<WorkspacePackage>,
    scripts: Seq<Seq<char>>,
    gates: Seq<(int, int)>,
    e: NpmError,
) -> bool {
    exists|k: int|
        {
            &&& 0 <= k < gates.len()
            &&& !(#[trigger] gate_ok(packages, scripts, gates, k))
            &&& forall|j: int| 0 <= j < k ==> #[trigger] gate_ok(packages, scripts, gates, j)
            &&& match gate_name(packages, scripts, gates[k]) {
                None => e is NoTargetName,
                Some(name) => e matches NpmError::NamesCollide { name: told } && told@ == name,
            }
        }
}

/// Names the gates.
fn name_gates(
    packages: &SortedMap<WorkspacePackage>,
    scripts: &Vec<String>,
    gates: &Vec<Gate>,
) -> (r: Result<Vec<String>, NpmError>)
    requires
        packages_wf(*packages),
        forall|k: int|
            0 <= k < gates@.len() ==> (#[trigger] gates@[k]).package < packages.values@.len()
                && gates@[k].script < scripts@.len(),
    ensures
        match r {
            Ok(names) => {
                &&& names@.len() == gates@.len()
                &&& forall|k: int|
                    0 <= k < gates@.len() ==> Some(#[trigger] names@[k]@) == gate_name(
                        *packages,
                        texts(scripts@),
                        gate_views(gates@)[k],
                    )
                &&& forall|k: int|
                    0 <= k < gates@.len() ==> #[trigger] gate_ok(
                        *packages,
                        texts(scripts@),
                        gate_views(gates@),
                        k,
                    )
            },
            Err(e) => gates_fault(*packages, texts(scripts@), gate_views(gates@), e),
        },
{
    let ghost wanted = texts(scripts@);
    let ghost views = gate_views(gates@);
    let mut names: Vec<String> = Vec::new();
    let mut k: usize = 0;
    while k < gates.len()
        invariant
            packages_wf(*packages),
            wanted == texts(scripts@),
            views == gate_views(gates@),
            forall|k: int|
                0 <= k < gates@.len() ==> (#[trigger] gates@[k]).package < packages.values@.len()
                    && gates@[k].script < scripts@.len(),
            k <= gates@.len(),
            names@.len() == k,
            forall|j: int|
                0 <= j < k ==> Some(#[trigger] names@[j]@) == gate_name(
                    *packages,
                    wanted,
                    views[j],
                ),
            forall|j: int| 0 <= j < k ==> #[trigger] gate_ok(*packages, wanted, views, j),
        decreases gates@.len() - k,
    {
        let gate = gates[k];
        assert(views[k as int] == (gate.package as int, gate.script as int));
        assert(wanted[gate.script as int] == scripts@[gate.script as int]@);
        let name = match target_name(&packages.values[gate.package].name, &scripts[gate.script]) {
            Ok(name) => name,
            Err(e) => {
                assert(!gate_ok(*packages, wanted, views, k as int));
                return Err(e);
            },
        };
        if lists(&names, &name) {
            proof {
                let at = texts(names@).index_of(name@);
                assert(names@[at]@ == name@);
                assert(gate_name(*packages, wanted, views[at]) == Some(name@));
                assert(!gate_ok(*packages, wanted, views, k as int));
            }
            return Err(NpmError::NamesCollide { name });
        }
        proof {
            assert forall|j: int| 0 <= j < k implies gate_name(
                *packages,
                wanted,
                #[trigger] views[j],
            ) != gate_name(*packages, wanted, views[k as int]) by {
                assert(Some(names@[j]@) == gate_name(*packages, wanted, views[j]));
                assert(texts(names@)[j] == names@[j]@);
                assert(texts(names@).contains(texts(names@)[j]));
            }
            assert(gate_ok(*packages, wanted, views, k as int));
        }
        names.push(name);
        k += 1;
    }
    Ok(names)
}

/// The manifest sections of all gates, and what they declare.
fn gate_sections(
    packages: &SortedMap<WorkspacePackage>,
    scripts: &Vec<String>,
    common: &Vec<String>,
    gates: &Vec<Gate>,
    names: &Vec<String>,
    head: String,
) -> (r: (String, SortedMap<RawTarget>))
    requires
        packages_wf(*packages),
        forall|k: int|
            0 <= k < gates@.len() ==> (#[trigger] gates@[k]).package < packages.values@.len()
                && gates@[k].script < scripts@.len(),
        names@.len() == gates@.len(),
        forall|k: int|
            0 <= k < gates@.len() ==> Some(#[trigger] names@[k]@) == gate_name(
                *packages,
                texts(scripts@),
                gate_views(gates@)[k],
            ),
        forall|k: int|
            0 <= k < gates@.len() ==> #[trigger] gate_ok(
                *packages,
                texts(scripts@),
                gate_views(gates@),
                k,
            ),
    ensures
        r.0@ == head@ + gate_texts(
            *packages,
            texts(scripts@),
            texts(common@),
            gate_views(gates@),
            gates@.len(),
        ),
        gates_declare(
            *packages,
            texts(scripts@),
            texts(common@),
            gate_views(gates@),
            gates@.len() as int,
            r.1,
        ),
{
    let ghost wanted = texts(scripts@);
    let ghost shared = texts(common@);
    let ghost views = gate_views(gates@);
    let edges = edge_lists(packages);
    let mut out = String::new();
    let mut targets: SortedMap<RawTarget> = SortedMap::new();
    let mut k: usize = 0;
    proof {
        assert forall|s: Seq<char>| #[trigger] targets.has(s) <==> names_a_gate(
            *packages,
            wanted,
            views,
            0,
            s,
        ) by {
            assert(targets.names().len() == 0);
        }
    }
    while k < gates.len()
        invariant
            packages_wf(*packages),
            wanted == texts(scripts@),
            shared == texts(common@),
            views == gate_views(gates@),
            numbers(edges@) == package_edges(*packages),
            in_range(numbers(edges@)),
            edges@.len() == packages.values@.len(),
            forall|k: int|
                0 <= k < gates@.len() ==> (#[trigger] gates@[k]).package < packages.values@.len()
                    && gates@[k].script < scripts@.len(),
            names@.len() == gates@.len(),
            forall|j: int|
                0 <= j < gates@.len() ==> Some(#[trigger] names@[j]@) == gate_name(
                    *packages,
                    wanted,
                    views[j],
                ),
            forall|j: int|
                0 <= j < gates@.len() ==> #[trigger] gate_ok(*packages, wanted, views, j),
            k <= gates@.len(),
            out@ == gate_texts(*packages, wanted, shared, views, k as nat),
            gates_declare(*packages, wanted, shared, views, k as int, targets),
        decreases gates@.len() - k,
    {
        let gate = gates[k];
        assert(views[k as int] == (gate.package as int, gate.script as int));
        assert(Some(names@[k as int]@) == gate_name(*packages, wanted, views[k as int]));
        let target = gate_target(packages, &edges, scripts, common, gate.package, gate.script);
        let section = gate_section(
            &names[k],
            &target,
            Ghost(*packages),
            Ghost(wanted),
            Ghost(shared),
            Ghost(views[k as int]),
        );
        out.append(&section);
        let ghost before = targets;
        let _ = targets.insert(copy(&names[k]), target);
        proof {
            assert forall|j: int| 0 <= j < k implies gate_name(
                *packages,
                wanted,
                #[trigger] views[j],
            ) is Some by {
                assert(gate_ok(*packages, wanted, views, j));
            }
            declares_one_more(
                *packages,
                wanted,
                shared,
                views,
                k as int,
                before,
                targets,
                names@[k as int]@,
                target,
            );
        }
        k += 1;
    }
    let mut whole = head;
    whole.append(&out);
    (whole, targets)
}

/// What gates declare together with the next.
proof fn declares_one_more(
    packages: SortedMap<WorkspacePackage>,
    scripts: Seq<Seq<char>>,
    common: Seq<Seq<char>>,
    gates: Seq<(int, int)>,
    n: int,
    before: SortedMap<RawTarget>,
    after: SortedMap<RawTarget>,
    name: Seq<char>,
    target: RawTarget,
)
    requires
        0 <= n < gates.len(),
        gates_declare(packages, scripts, common, gates, n, before),
        gate_ok(packages, scripts, gates, n),
        gate_name(packages, scripts, gates[n]) == Some(name),
        gate_declares(packages, scripts, common, gates[n], target),
        after.wf(),
        forall|k: Seq<char>| #[trigger] after.has(k) <==> before.has(k) || k == name,
        forall|k: Seq<char>|
            after.has(k) ==> #[trigger] after.at(k) == if k == name {
                target
            } else {
                before.at(k)
            },
        forall|j: int| 0 <= j < n ==> gate_name(packages, scripts, #[trigger] gates[j]) is Some,
    ensures
        gates_declare(packages, scripts, common, gates, n + 1, after),
{
    assert forall|s: Seq<char>| #[trigger] after.has(s) <==> names_a_gate(
        packages,
        scripts,
        gates,
        n + 1,
        s,
    ) by {
        if before.has(s) {
            let k = choose|k: int|
                0 <= k < n && gate_name(packages, scripts, #[trigger] gates[k]) == Some(s);
            assert(0 <= k < n + 1 && gate_name(packages, scripts, gates[k]) == Some(s));
        }
        if s == name {
            assert(gate_name(packages, scripts, gates[n]) == Some(s));
        }
        if names_a_gate(packages, scripts, gates, n + 1, s) && s != name {
            let k = choose|k: int|
                0 <= k < n + 1 && gate_name(packages, scripts, #[trigger] gates[k]) == Some(s);
            assert(k < n);
            assert(names_a_gate(packages, scripts, gates, n, s));
        }
    }
    assert forall|k: int| 0 <= k < n + 1 implies gate_declares(
        packages,
        scripts,
        common,
        #[trigger] gates[k],
        after.at(gate_name(packages, scripts, gates[k])->0),
    ) by {
        let own = gate_name(packages, scripts, gates[k])->0;
        if k < n {
            assert(gate_name(packages, scripts, gates[k]) == Some(own));
            assert(names_a_gate(packages, scripts, gates, n, own));
            assert(before.has(own));
            assert(own != name);
        } else {
            assert(after.has(name));
        }
        assert(after.has(own));
    }
}

/// What an import declares has its maps in order.
proof fn declared_is_wf(
    packages: SortedMap<WorkspacePackage>,
    scripts: Seq<Seq<char>>,
    common: Seq<Seq<char>>,
    gates: Seq<(int, int)>,
    targets: SortedMap<RawTarget>,
)
    requires
        gates_declare(packages, scripts, common, gates, gates.len() as int, targets),
    ensures
        forall|i: int|
            0 <= i < targets.values@.len() ==> (#[trigger] targets.values@[i]).env.wf(),
{
    assert forall|i: int| 0 <= i < targets.values@.len() implies (
    #[trigger] targets.values@[i]).env.wf() by {
        targets.spot_is(i);
        let s = targets.keys@[i]@;
        assert(names_a_gate(packages, scripts, gates, gates.len() as int, s));
        let k = choose|k: int|
            0 <= k < gates.len() && gate_name(packages, scripts, #[trigger] gates[k]) == Some(s);
        assert(gate_declares(packages, scripts, common, gates[k], targets.at(s)));
    }
}

/// The tools that an import declares.
fn import_tools(npm: &str, node: &str) -> (r: SortedMap<String>)
    ensures
        r.wf(),
        pairs(r) == (Pairs { names: seq!["node"@, "npm"@], texts: seq![node@, npm@] }),
{
    let mut keys: Vec<String> = Vec::new();
    keys.push(copy("node"));
    keys.push(copy("npm"));
    let mut values: Vec<String> = Vec::new();
    values.push(copy(node));
    values.push(copy(npm));
    assert(texts(keys@) =~= seq!["node"@, "npm"@]);
    assert(texts(values@) =~= seq![node@, npm@]);
    let r = SortedMap { keys, values };
    proof {
        reveal_strlit("node");
        reveal_strlit("npm");
        reveal_with_fuel(before, 3);
        assert(before("node"@, "npm"@));
    }
    r
}

/// The targets that a gate needs are finitely many.
proof fn few_deps(packages: SortedMap<WorkspacePackage>, script: Seq<char>, i: int)
    ensures
        gate_deps(packages, script, i).finite(),
{
    let deps = packages.values@[i].ordered_dependencies@;
    let named = Seq::new(deps.len(), |k: int| name_for(deps[k]@, script)->0);
    vstd::seq_lib::seq_to_set_is_finite(named);
    assert(gate_deps(packages, script, i).subset_of(named.to_set())) by {
        assert forall|s: Seq<char>| gate_deps(packages, script, i).contains(
            s,
        ) implies named.to_set().contains(s) by {
            let k = choose|k: int| #![trigger deps[k]]
                0 <= k < deps.len() && gate_of(packages, script, deps[k]@, s);
            assert(named[k] == s);
        }
    }
    vstd::set_lib::lemma_set_subset_finite(named.to_set(), gate_deps(packages, script, i));
}

/// Where the manifest of an import has a build graph, a gate depends on another
/// that it needs in the numbers of the targets, and never on itself.
proof fn need_is_dep(
    packages: SortedMap<WorkspacePackage>,
    scripts: Seq<Seq<char>>,
    common: Seq<Seq<char>>,
    gates: Seq<(int, int)>,
    raw: RawManifest,
    m: Manifest,
    a: int,
    b: int,
)
    requires
        gates_declare(packages, scripts, common, gates, gates.len() as int, raw.targets),
        made_from(raw, m),
        m.linked(),
        0 <= a < gates.len(),
        0 <= b < gates.len(),
        gate_name(packages, scripts, gates[a]) is Some,
        gate_name(packages, scripts, gates[b]) is Some,
        gate_needs(packages, scripts, gates, a, b),
    ensures
        ({
            let x = m.targets.spot(gate_name(packages, scripts, gates[a])->0);
            let y = m.targets.spot(gate_name(packages, scripts, gates[b])->0);
            &&& 0 <= x < m.targets.values@.len()
            &&& dep_numbers(m)[x].contains(y)
            &&& gate_name(packages, scripts, gates[a]) != gate_name(packages, scripts, gates[b])
        }),
{
    let own = gate_name(packages, scripts, gates[a])->0;
    let other = gate_name(packages, scripts, gates[b])->0;
    let script = scripts[gates[a].1];
    assert(gate_name(packages, scripts, gates[a]) == Some(own));
    assert(names_a_gate(packages, scripts, gates, gates.len() as int, own));
    assert(raw.targets.has(own));
    let x = raw.targets.spot(own);
    assert(raw.targets.names()[x] == own);
    assert(raw.targets.keys@[x]@ == own);
    assert(m.targets.names().len() == raw.targets.names().len());
    assert(declared(raw.targets.keys@[x]@, raw.targets.values@[x], m.targets.values@[x]));
    few_deps(packages, script, gates[a].0);
    in_order_means(gate_deps(packages, script, gates[a].0));
    let deps = texts(m.targets.values@[x].deps@);
    assert(gate_declares(packages, scripts, common, gates[a], raw.targets.at(own)));
    assert(deps.to_set().contains(other));
    let j = deps.index_of(other);
    assert(deps[j] == m.targets.values@[x].deps@[j]@);
    assert(dep_ok(m.targets, x, j));
    assert(dep_numbers(m)[x][j] == m.targets.spot(other));
}

/// Where the manifest of an import has a build graph, no gate must run behind
/// itself, neither at once nor over others.
pub proof fn gates_run_in_order(
    packages: SortedMap<WorkspacePackage>,
    scripts: Seq<Seq<char>>,
    common: Seq<Seq<char>>,
    npm: Seq<char>,
    node: Seq<char>,
    gates: Seq<(int, int)>,
    raw: RawManifest,
    m: Manifest,
    g: BuildGraph,
)
    requires
        import_declares(packages, scripts, common, npm, node, gates, raw),
        builds(raw, m, g),
        forall|k: int| 0 <= k < gates.len() ==> #[trigger] gate_ok(packages, scripts, gates, k),
    ensures
        forall|k: int|
            0 <= k < gates.len() ==> !#[trigger] gate_needs(packages, scripts, gates, k, k),
        forall|path: Seq<int>| !#[trigger] gate_cycle(packages, scripts, gates, path),
{
    reveal(sound_order);
    assert forall|k: int| 0 <= k < gates.len() implies !#[trigger] gate_needs(
        packages,
        scripts,
        gates,
        k,
        k,
    ) by {
        assert(gate_ok(packages, scripts, gates, k));
        if gate_needs(packages, scripts, gates, k, k) {
            need_is_dep(packages, scripts, common, gates, raw, m, k, k);
        }
    }
    assert forall|path: Seq<int>| !#[trigger] gate_cycle(packages, scripts, gates, path) by {
        if gate_cycle(packages, scripts, gates, path) {
            let deps = dep_numbers(m);
            let order = order_of(m);
            let spots = Seq::new(
                path.len(),
                |i: int| m.targets.spot(gate_name(packages, scripts, gates[path[i]])->0),
            );
            assert forall|i: int| 0 <= i < spots.len() - 1 implies deps[#[trigger] spots[i]].contains(
                spots[i + 1],
            ) && 0 <= spots[i] < m.targets.values@.len() by {
                let a = path[i];
                let b = path[i + 1];
                assert(gate_ok(packages, scripts, gates, a));
                assert(gate_ok(packages, scripts, gates, b));
                need_is_dep(packages, scripts, common, gates, raw, m, a, b);
            }
            assert(chain(deps, spots));
            assert forall|i: int| 0 <= i < spots.len() implies order.contains(
                #[trigger] spots[i],
            ) by {
                if i == spots.len() - 1 {
                    assert(spots[i] == spots[0]);
                }
                assert(0 <= spots[0] < m.targets.values@.len());
                assert(0 <= spots[i] < m.targets.values@.len());
            }
            ordered_is_acyclic(deps, order, spots);
            assert(spots[0] == spots.last());
        }
    }
}

/// The scripts that an import is about.
pub open spec fn imported_scripts(requested: Seq<Seq<char>>) -> Seq<Seq<char>> {
    in_order(wanted_scripts(requested).to_set())
}

/// What the import of scripts gives.
pub open spec fn planned(
    packages: SortedMap<WorkspacePackage>,
    requested: Seq<Seq<char>>,
    npm: Seq<char>,
    node: Seq<char>,
    common: Seq<Seq<char>>,
    r: Result<ImportPlan, NpmError>,
) -> bool {
    let scripts = imported_scripts(requested);
    let gates = all_gates(packages, scripts, packages.values@.len());
    let empty = exists|i: int|
        0 <= i < requested.len() && (#[trigger] wanted_scripts(
            requested,
        )[i]).len() == 0;
    let named = forall|k: int|
        0 <= k < gates.len() ==> #[trigger] gate_ok(packages, scripts, gates, k);
    match r {
        Ok(plan) => {
            &&& !empty
            &&& named
            &&& gates.len() > 0
            &&& trimmed(npm).len() > 0
            &&& trimmed(node).len() > 0
            &&& plan.manifest@ == manifest_head(npm, node) + gate_texts(
                packages,
                scripts,
                common,
                gates,
                gates.len(),
            )
            &&& plan.package_count == packages.values@.len()
            &&& plan.target_count == gates.len()
            &&& texts(plan.scripts@) == scripts
            &&& exists|raw: RawManifest, m: Manifest, g: BuildGraph|
                import_declares(
                    packages,
                    scripts,
                    common,
                    npm,
                    node,
                    gates,
                    raw,
                ) && #[trigger] builds(raw, m, g)
            &&& forall|k: int|
                0 <= k < gates.len() ==> !#[trigger] gate_needs(
                    packages,
                    scripts,
                    gates,
                    k,
                    k,
                )
            &&& forall|path: Seq<int>|
                !#[trigger] gate_cycle(packages, scripts, gates, path)
        },
        Err(e) => if empty {
            e is EmptyScript
        } else if !named {
            gates_fault(packages, scripts, gates, e)
        } else if gates.len() == 0 {
            e matches NpmError::NoScripts { scripts: told } && texts(told@) == scripts
        } else if trimmed(npm).len() == 0 {
            e is EmptyNpm
        } else if trimmed(node).len() == 0 {
            e is EmptyNode
        } else {
            exists|raw: RawManifest|
                import_declares(
                    packages,
                    scripts,
                    common,
                    npm,
                    node,
                    gates,
                    raw,
                ) && #[trigger] build_refused(raw, e)
        },
    }
}

/// Plans the import of the scripts of the packages of a workspace as tests.
/// `common` are the inputs that all of them share.
pub fn generate_plan(
    packages: &SortedMap<WorkspacePackage>,
    requested: &Vec<String>,
    npm: &str,
    node: &str,
    common: &Vec<String>,
) -> (r: Result<ImportPlan, NpmError>)
    requires
        packages_wf(*packages),
    ensures
        planned(*packages, texts(requested@), npm@, node@, texts(common@), r),
{
    assert(texts(requested@).len() == requested@.len());
    let scripts = match normalized_scripts(requested) {
        Ok(scripts) => scripts,
        Err(e) => {
            return Err(e);
        },
    };
    let gates = find_gates(packages, &scripts);
    assert(gate_views(gates@).len() == gates@.len());
    let names = match name_gates(packages, &scripts, &gates) {
        Ok(names) => names,
        Err(e) => {
            return Err(e);
        },
    };
    if gates.len() == 0 {
        return Err(NpmError::NoScripts { scripts });
    }
    if trim(npm).as_str().is_empty() {
        return Err(NpmError::EmptyNpm);
    }
    if trim(node).as_str().is_empty() {
        return Err(NpmError::EmptyNode);
    }
    let mut head = copy(
        "# Generated by `frost import-npm` from npm workspace metadata.\n# Only non-interactive script gates are imported. Build/dev scripts and dynamic\n# output trees remain npm/Vite-owned until an explicit artifact boundary exists.\n\n[toolchain.tools]\nnpm = ",
    );
    head.append(&json_string(npm));
    head.append("\nnode = ");
    head.append(&json_string(node));
    head.append("\n\n");
    let (manifest, targets) = gate_sections(packages, &scripts, common, &gates, &names, head);
    let raw = RawManifest {
        default_targets: Vec::new(),
        toolchain: RawToolchain {
            cc: None,
            cxx: None,
            ar: None,
            kofunc: None,
            arflags: None,
            cflags: Vec::new(),
            cxxflags: Vec::new(),
            ldflags: Vec::new(),
            tools: import_tools(npm, node),
        },
        platforms: SortedMap::new(),
        profiles: SortedMap::new(),
        targets,
    };
    let ghost all = gate_views(gates@);
    let ghost wanted = texts(scripts@);
    let ghost shared = texts(common@);
    proof {
        declared_is_wf(*packages, wanted, shared, all, raw.targets);
        assert(import_declares(*packages, wanted, shared, npm@, node@, all, raw));
    }
    let m = match Manifest::from_raw(&raw) {
        Ok(m) => m,
        Err(error) => {
            let e = NpmError::InvalidManifest { error };
            assert(build_refused(raw, e));
            return Err(e);
        },
    };
    match BuildGraph::from_manifest(&m) {
        Ok(g) => {
            assert(builds(raw, m, g));
            proof {
                gates_run_in_order(*packages, wanted, shared, npm@, node@, all, raw, m, g);
            }
        },
        Err(fault) => {
            let e = NpmError::InvalidGraph { fault };
            assert(made_from(raw, m));
            assert(build_refused(raw, e));
            return Err(e);
        },
    }
    Ok(
        ImportPlan {
            manifest,
            package_count: packages.values.len(),
            target_count: gates.len(),
            scripts,
        },
    )
}

// ---------------------------------------------------------------------------
// What is imported
// ---------------------------------------------------------------------------

spec fn all_inputs(packages: SortedMap<WorkspacePackage>, n: nat) -> Set<Seq<char>>
    decreases n,
{
    if n == 0 {
        Set::empty()
    } else {
        all_inputs(packages, (n - 1) as nat).union(
            texts(packages.values@[n - 1].own_inputs@).to_set(),
        )
    }
}

proof fn all_inputs_hold(packages: SortedMap<WorkspacePackage>, n: nat)
    ensures
        all_inputs(packages, n).finite(),
        forall|x: int, s: Seq<char>|
            0 <= x < n && #[trigger] texts(packages.values@[x].own_inputs@).contains(s)
                ==> all_inputs(packages, n).contains(s),
    decreases n,
{
    if n > 0 {
        all_inputs_hold(packages, (n - 1) as nat);
        vstd::seq_lib::seq_to_set_is_finite(texts(packages.values@[n - 1].own_inputs@));
    }
}

proof fn inputs_are_finite(
    packages: SortedMap<WorkspacePackage>,
    common: Seq<Seq<char>>,
    i: int,
)
    ensures
        gate_inputs(packages, common, i).finite(),
{
    let n = packages.values@.len();
    all_inputs_hold(packages, n);
    vstd::seq_lib::seq_to_set_is_finite(common);
    let all = common.to_set().union(all_inputs(packages, n));
    assert(gate_inputs(packages, common, i).subset_of(all));
    vstd::set_lib::lemma_set_subset_finite(all, gate_inputs(packages, common, i));
}

proof fn known_deps_has(packages: SortedMap<WorkspacePackage>, i: int, n: nat, k: int)
    requires
        0 <= k < n,
        packages.has(packages.values@[i].all_dependencies@[k]@),
    ensures
        known_deps(packages, i, n).contains(
            packages.spot(packages.values@[i].all_dependencies@[k]@),
        ),
    decreases n,
{
    let less = (n - 1) as nat;
    let before = known_deps(packages, i, less);
    let now = known_deps(packages, i, n);
    if k < less {
        known_deps_has(packages, i, less, k);
        let x = packages.spot(packages.values@[i].all_dependencies@[k]@);
        assert(now[before.index_of(x)] == x);
    } else {
        assert(now.last() == packages.spot(packages.values@[i].all_dependencies@[k]@));
    }
}

/// A script of a package has all inputs that one of a package which it depends on
/// has, of whatever kind the dependency is; and so, over those, all that it depends
/// on in turn.
pub proof fn inputs_of_dependencies_count(
    packages: SortedMap<WorkspacePackage>,
    common: Seq<Seq<char>>,
    i: int,
    k: int,
    s: Seq<char>,
)
    requires
        packages_wf(packages),
        0 <= i < packages.values@.len(),
        0 <= k < packages.values@[i].all_dependencies@.len(),
        packages.has(packages.values@[i].all_dependencies@[k]@),
        gate_inputs(
            packages,
            common,
            packages.spot(packages.values@[i].all_dependencies@[k]@),
        ).contains(s),
    ensures
        gate_inputs(packages, common, i).contains(s),
{
    let edges = package_edges(packages);
    let y = packages.spot(packages.values@[i].all_dependencies@[k]@);
    known_deps_has(packages, i, packages.values@[i].all_dependencies@.len(), k);
    assert(edges[i].contains(y));
    if !common.contains(s) {
        let x = choose|x: int|
            0 <= x < packages.values@.len() && #[trigger] reaches(edges, y, x) && texts(
                packages.values@[x].own_inputs@,
            ).contains(s);
        crate::reach::reaches_self(edges, i);
        crate::reach::reaches_next(edges, i, i, y);
        crate::reach::reaches_transitive(edges, i, y, x);
        assert(reaches(edges, i, x));
    }
}

proof fn package_gates_has(
    packages: SortedMap<WorkspacePackage>,
    scripts: Seq<Seq<char>>,
    i: int,
    m: nat,
    j: int,
)
    requires
        0 <= j < m,
        texts(packages.values@[i].scripts@).contains(scripts[j]),
    ensures
        package_gates(packages, scripts, i, m).contains((i, j)),
    decreases m,
{
    let less = (m - 1) as nat;
    let before = package_gates(packages, scripts, i, less);
    let now = package_gates(packages, scripts, i, m);
    if j < less {
        package_gates_has(packages, scripts, i, less, j);
        assert(now[before.index_of((i, j))] == (i, j));
    } else {
        assert(now.last() == (i, j));
    }
}

proof fn all_gates_has(
    packages: SortedMap<WorkspacePackage>,
    scripts: Seq<Seq<char>>,
    n: nat,
    i: int,
    j: int,
)
    requires
        0 <= i < n,
        0 <= j < scripts.len(),
        texts(packages.values@[i].scripts@).contains(scripts[j]),
    ensures
        all_gates(packages, scripts, n).contains((i, j)),
    decreases n,
{
    let less = (n - 1) as nat;
    let before = all_gates(packages, scripts, less);
    let now = all_gates(packages, scripts, n);
    if i < less {
        all_gates_has(packages, scripts, less, i, j);
        assert(now[before.index_of((i, j))] == (i, j));
    } else {
        package_gates_has(packages, scripts, i, scripts.len(), j);
        let own = package_gates(packages, scripts, i, scripts.len());
        assert(now[before.len() + own.index_of((i, j))] == (i, j));
    }
}

proof fn gate_text_stands(
    packages: SortedMap<WorkspacePackage>,
    scripts: Seq<Seq<char>>,
    common: Seq<Seq<char>>,
    gates: Seq<(int, int)>,
    n: nat,
    k: int,
) -> (r: (Seq<char>, Seq<char>))
    requires
        0 <= k < n,
    ensures
        gate_texts(packages, scripts, common, gates, n) == r.0 + gate_text(
            packages,
            scripts,
            common,
            gates[k],
        ) + r.1,
    decreases n,
{
    let less = (n - 1) as nat;
    let last = gate_text(packages, scripts, common, gates[n - 1]);
    if k == less {
        let before = gate_texts(packages, scripts, common, gates, less);
        assert(before + last =~= before + last + Seq::empty());
        (before, Seq::empty())
    } else {
        let (before, after) = gate_text_stands(packages, scripts, common, gates, less, k);
        let own = gate_text(packages, scripts, common, gates[k]);
        assert(before + own + after + last =~= before + own + (after + last));
        (before, after + last)
    }
}

proof fn wanted_is_imported(requested: Seq<Seq<char>>, script: Seq<char>) -> (j: int)
    requires
        wanted_scripts(requested).contains(script),
    ensures
        0 <= j < imported_scripts(requested).len(),
        imported_scripts(requested)[j] == script,
{
    let wanted = wanted_scripts(requested);
    vstd::seq_lib::seq_to_set_is_finite(wanted);
    in_order_means(wanted.to_set());
    assert(wanted.to_set().contains(script));
    let all = imported_scripts(requested);
    assert(all.to_set().contains(script));
    all.index_of(script)
}

/// Every script that was asked for, or of the usual ones where none was, is a test
/// for every package that has it: npm runs it for that package. Its inputs are the
/// common ones, those of the package, and those of the packages that it depends on;
/// it runs behind the same script of every package that it depends on in order.
pub proof fn every_script_is_a_test(
    packages: SortedMap<WorkspacePackage>,
    requested: Vec<String>,
    npm: &str,
    node: &str,
    common: Vec<String>,
    plan: ImportPlan,
    i: int,
    script: Seq<char>,
    q: int,
) -> (r: (Seq<char>, Seq<char>, Seq<char>, Seq<Seq<char>>, Seq<Seq<char>>))
    requires
        call_ensures(
            generate_plan,
            (&packages, &requested, npm, node, &common),
            Ok::<ImportPlan, NpmError>(plan),
        ),
        packages_wf(packages),
        0 <= i < packages.values@.len(),
        texts(packages.values@[i].scripts@).contains(script),
        requested@.len() == 0 ==> script == "test"@ || script == "typecheck"@,
        requested@.len() > 0 ==> 0 <= q < requested@.len() && script == trimmed(requested@[q]@),
    ensures
        ({
            let (before, after, name, inputs, deps) = r;
            let package = packages.values@[i];
            &&& plan.manifest@ == before + "[target."@ + name
                + "]\nkind = \"test\"\ntool = \"npm\"\nargs = "@ + json_array(
                seq!["run"@, script, "--workspace"@, package.name@],
            ) + "\ninputs = "@ + json_array(inputs) + "\n"@ + (if deps.len() == 0 {
                ""@
            } else {
                "deps = "@ + json_array(deps) + "\n"@
            }) + "env = { CI = \"true\" }\npass_env = "@ + after
            &&& name == component(package.name@) + "-"@ + component(script)
            &&& forall|k: int|
                0 <= k < common@.len() ==> inputs.contains((#[trigger] common@[k])@)
            &&& forall|k: int|
                0 <= k < package.own_inputs@.len() ==> inputs.contains(
                    (#[trigger] package.own_inputs@[k])@,
                )
            &&& inputs.to_set() == gate_inputs(packages, texts(common@), i)
            &&& forall|k: int|
                #![trigger package.ordered_dependencies@[k]]
                0 <= k < package.ordered_dependencies@.len() && packages.has(
                    package.ordered_dependencies@[k]@,
                ) && texts(
                    packages.at(package.ordered_dependencies@[k]@).scripts@,
                ).contains(script) && component(package.ordered_dependencies@[k]@).len() > 0
                    ==> deps.contains(
                    component(package.ordered_dependencies@[k]@) + "-"@ + component(script),
                )
        }),
{
    let asked = texts(requested@);
    let scripts = imported_scripts(asked);
    let package = packages.values@[i];
    let wanted = wanted_scripts(asked);
    assert(asked.len() == requested@.len());
    if requested@.len() == 0 {
        assert(wanted[0] == "test"@ && wanted[1] == "typecheck"@);
    } else {
        assert(asked[q] == requested@[q]@);
        assert(wanted[q] == script);
    }
    let j = wanted_is_imported(asked, script);
    let gates = all_gates(packages, scripts, packages.values@.len());
    all_gates_has(packages, scripts, packages.values@.len(), i, j);
    let at = gates.index_of((i, j));
    assert(gates[at] == (i, j));
    assert(gate_ok(packages, scripts, gates, at));
    let name = gate_name(packages, scripts, gates[at])->0;
    let told = texts(common@);
    let (before, after) = gate_text_stands(packages, scripts, told, gates, gates.len(), at);
    let inputs = inputs_hold(packages, told, i);
    let deps = deps_hold(packages, script, i);
    let head = manifest_head(npm@, node@);
    let rest = gate_text_is(packages, scripts, told, gates[at]);
    assert forall|k: int| 0 <= k < common@.len() implies inputs.contains((#[trigger] common@[k])@) by {
        assert(told[k] == common@[k]@);
    }
    joined_up(
        head,
        before,
        "[target."@,
        name,
        "]\nkind = \"test\"\ntool = \"npm\"\nargs = "@,
        json_array(seq!["run"@, script, "--workspace"@, package.name@]),
        "\ninputs = "@,
        json_array(inputs),
        "\n"@,
        if deps.len() == 0 {
            ""@
        } else {
            "deps = "@ + json_array(deps) + "\n"@
        },
        "env = { CI = \"true\" }\npass_env = "@,
        rest,
        after,
    );
    (head + before, rest + after, name, inputs, deps)
}

proof fn inputs_hold(
    packages: SortedMap<WorkspacePackage>,
    common: Seq<Seq<char>>,
    i: int,
) -> (inputs: Seq<Seq<char>>)
    requires
        0 <= i < packages.values@.len(),
    ensures
        inputs == in_order(gate_inputs(packages, common, i)),
        inputs.to_set() == gate_inputs(packages, common, i),
        forall|k: int| 0 <= k < common.len() ==> inputs.contains(#[trigger] common[k]),
        forall|k: int|
            0 <= k < packages.values@[i].own_inputs@.len() ==> inputs.contains(
                (#[trigger] packages.values@[i].own_inputs@[k])@,
            ),
{
    let set = gate_inputs(packages, common, i);
    inputs_are_finite(packages, common, i);
    in_order_means(set);
    let inputs = in_order(set);
    assert forall|k: int| 0 <= k < common.len() implies inputs.contains(#[trigger] common[k]) by {
        assert(set.contains(common[k]));
        assert(inputs.to_set().contains(common[k]));
    }
    let given = packages.values@[i].own_inputs@;
    assert forall|k: int| 0 <= k < given.len() implies inputs.contains((#[trigger] given[k])@) by {
        let own = texts(given);
        assert(own[k] == given[k]@);
        crate::reach::reaches_self(package_edges(packages), i);
        assert(set.contains(given[k]@));
        assert(inputs.to_set().contains(given[k]@));
    }
    inputs
}

proof fn deps_hold(packages: SortedMap<WorkspacePackage>, script: Seq<char>, i: int) -> (deps: Seq<
    Seq<char>,
>)
    requires
        component(script).len() > 0,
    ensures
        deps == in_order(gate_deps(packages, script, i)),
        forall|k: int|
            #![trigger packages.values@[i].ordered_dependencies@[k]]
            0 <= k < packages.values@[i].ordered_dependencies@.len() && packages.has(
                packages.values@[i].ordered_dependencies@[k]@,
            ) && texts(
                packages.at(packages.values@[i].ordered_dependencies@[k]@).scripts@,
            ).contains(script) && component(packages.values@[i].ordered_dependencies@[k]@).len() > 0
                ==> deps.contains(
                component(packages.values@[i].ordered_dependencies@[k]@) + "-"@ + component(
                    script,
                ),
            ),
{
    let needed = gate_deps(packages, script, i);
    few_deps(packages, script, i);
    in_order_means(needed);
    let deps = in_order(needed);
    let given = packages.values@[i].ordered_dependencies@;
    assert forall|k: int|
        #![trigger given[k]]
        0 <= k < given.len() && packages.has(given[k]@) && texts(
            packages.at(given[k]@).scripts@,
        ).contains(script) && component(given[k]@).len() > 0 implies deps.contains(
        component(given[k]@) + "-"@ + component(script),
    ) by {
        let name = component(given[k]@) + "-"@ + component(script);
        assert(gate_of(packages, script, given[k]@, name));
        assert(needed.contains(name));
        assert(deps.to_set().contains(name));
    }
    deps
}

proof fn gate_text_is(
    packages: SortedMap<WorkspacePackage>,
    scripts: Seq<Seq<char>>,
    common: Seq<Seq<char>>,
    gate: (int, int),
) -> (rest: Seq<char>)
    ensures
        ({
            let deps = in_order(gate_deps(packages, scripts[gate.1], gate.0));
            gate_text(packages, scripts, common, gate) == "[target."@ + gate_name(
                packages,
                scripts,
                gate,
            )->0 + "]\nkind = \"test\"\ntool = \"npm\"\nargs = "@ + json_array(
                seq!["run"@, scripts[gate.1], "--workspace"@, packages.values@[gate.0].name@],
            ) + "\ninputs = "@ + json_array(in_order(gate_inputs(packages, common, gate.0)))
                + "\n"@ + (if deps.len() == 0 {
                ""@
            } else {
                "deps = "@ + json_array(deps) + "\n"@
            }) + "env = { CI = \"true\" }\npass_env = "@ + rest
        }),
{
    let rest = json_array(node_pass_env()) + "\nsandbox = false\n\n"@;
    let deps = in_order(gate_deps(packages, scripts[gate.1], gate.0));
    let first = "[target."@ + gate_name(packages, scripts, gate)->0
        + "]\nkind = \"test\"\ntool = \"npm\"\nargs = "@ + json_array(
        seq!["run"@, scripts[gate.1], "--workspace"@, packages.values@[gate.0].name@],
    ) + "\ninputs = "@ + json_array(in_order(gate_inputs(packages, common, gate.0))) + "\n"@ + (
    if deps.len() == 0 {
        ""@
    } else {
        "deps = "@ + json_array(deps) + "\n"@
    }) + "env = { CI = \"true\" }\npass_env = "@;
    assert(first + json_array(node_pass_env()) + "\nsandbox = false\n\n"@ =~= first + rest);
    rest
}

proof fn joined_up(
    x: Seq<char>,
    z: Seq<char>,
    a: Seq<char>,
    b: Seq<char>,
    c: Seq<char>,
    d: Seq<char>,
    e: Seq<char>,
    f: Seq<char>,
    g: Seq<char>,
    h: Seq<char>,
    i: Seq<char>,
    y: Seq<char>,
    w: Seq<char>,
)
    ensures
        x + (z + (a + b + c + d + e + f + g + h + i + y) + w) == (x + z) + a + b + c + d + e + f + g
            + h + i + (y + w),
{
    let own = a + b + c + d + e + f + g + h + i;
    assert(x + (z + (own + y) + w) =~= (x + z) + own + (y + w));
    assert((x + z) + own =~= (x + z) + a + b + c + d + e + f + g + h + i);
}

/// A package depends on all that its file names: at run time, for development,
/// where it can be had, and as a peer. Its scripts run behind those of the first
/// and the third.
pub proof fn dependencies_of_every_kind(
    name: String,
    json: PackageJson,
    own_inputs: Vec<String>,
    r: WorkspacePackage,
    s: Seq<char>,
)
    requires
        call_ensures(WorkspacePackage::new, (name, &json, own_inputs), r),
    ensures
        texts(r.all_dependencies@).contains(s) <==> texts(json.dependencies@).contains(s) || texts(
            json.dev_dependencies@,
        ).contains(s) || texts(json.optional_dependencies@).contains(s) || texts(
            json.peer_dependencies@,
        ).contains(s),
        texts(r.ordered_dependencies@).contains(s) <==> texts(json.dependencies@).contains(s)
            || texts(json.optional_dependencies@).contains(s),
{
    let a = texts(json.dependencies@);
    let d = texts(json.dev_dependencies@);
    let o = texts(json.optional_dependencies@);
    let p = texts(json.peer_dependencies@);
    vstd::seq_lib::seq_to_set_is_finite(a);
    vstd::seq_lib::seq_to_set_is_finite(d);
    vstd::seq_lib::seq_to_set_is_finite(o);
    vstd::seq_lib::seq_to_set_is_finite(p);
    let all = json.all_lists();
    assert(all[0] == a && all[1] == d && all[2] == o && all[3] == p);
    let ordered = json.ordered_lists();
    assert(ordered[0] == a && ordered[1] == o);
    assert(union_of(all) =~= a.to_set().union(d.to_set()).union(o.to_set()).union(p.to_set()));
    assert(union_of(ordered) =~= a.to_set().union(o.to_set()));
    in_order_means(union_of(all));
    in_order_means(union_of(ordered));
    assert(texts(r.all_dependencies@).to_set().contains(s) == union_of(all).contains(s));
    assert(texts(r.ordered_dependencies@).to_set().contains(s) == union_of(ordered).contains(s));
}

/// The inputs of a package are the files of its directory and all below those of
/// its directories that hold files, and nothing else.
pub proof fn whole_package_is_input(
    relative: &str,
    directories: Vec<String>,
    r: Vec<String>,
    s: Seq<char>,
)
    requires
        call_ensures(package_input_patterns, (relative, &directories), r),
    ensures
        texts(r@).contains(s) <==> s == escaped(relative@) + "/*"@ || exists|i: int|
            0 <= i < directories@.len() && s == escaped(relative@) + "/"@ + escaped(
                (#[trigger] directories@[i])@,
            ) + "/**/*"@,
{
    let names = texts(directories@);
    let below = Seq::new(
        names.len(),
        |i: int| escaped(relative@) + "/"@ + escaped(names[i]) + "/**/*"@,
    );
    vstd::seq_lib::seq_to_set_is_finite(below);
    let set = package_inputs(relative@, names);
    assert(set == below.to_set().insert(escaped(relative@) + "/*"@));
    in_order_means(set);
    assert(texts(r@).to_set().contains(s) == set.contains(s));
    if below.contains(s) {
        let i = below.index_of(s);
        assert(names[i] == directories@[i]@);
    }
    assert forall|i: int|
        0 <= i < directories@.len() && s == escaped(relative@) + "/"@ + escaped(
            (#[trigger] directories@[i])@,
        ) + "/**/*"@ implies below.contains(s) by {
        assert(names[i] == directories@[i]@);
        assert(below[i] == s);
    }
}

/// What all scripts share are the root files that were found and the configurations
/// of the compiler, and nothing else.
pub proof fn root_files_are_shared(
    found: Vec<String>,
    regular: Vec<String>,
    r: Vec<String>,
    s: Seq<char>,
)
    requires
        call_ensures(root_inputs, (&found, &regular), r),
    ensures
        texts(r@).contains(s) <==> texts(found@).contains(s) || texts(regular@).contains(s)
            && begins(s, "tsconfig"@) && ends(s, ".json"@),
{
    let given = texts(regular@);
    let keep = |name: Seq<char>| compiler_config(name);
    let kept = given.filter(keep);
    vstd::seq_lib::seq_to_set_is_finite(kept);
    vstd::seq_lib::seq_to_set_is_finite(texts(found@));
    let set = texts(found@).to_set().union(kept.to_set());
    in_order_means(set);
    assert(texts(r@).to_set().contains(s) == set.contains(s));
    if kept.contains(s) {
        given.lemma_filter_contains_rev(keep, s);
        given.lemma_filter_pred(keep, kept.index_of(s));
    }
    if given.contains(s) && compiler_config(s) {
        given.lemma_filter_contains(keep, given.index_of(s));
    }
}

/// A name of letters and digits is kept, its letters in lower case.
pub proof fn plain_names_are_kept(value: &str, r: String)
    requires
        call_ensures(target_component, (value,), r),
        forall|i: int| 0 <= i < value@.len() ==> is_alphanumeric(#[trigger] value@[i]),
    ensures
        r@.len() == value@.len(),
        forall|i: int| 0 <= i < value@.len() ==> #[trigger] r@[i] == lower_char(value@[i]),
{
    dashed_plain(value@);
    let d = dashed(value@);
    if d.len() > 0 {
        assert(d.last() == lower_char(value@.last()));
        assert(is_alphanumeric(value@[value@.len() - 1]));
    }
}

proof fn dashed_plain(s: Seq<char>)
    requires
        forall|i: int| 0 <= i < s.len() ==> is_alphanumeric(#[trigger] s[i]),
    ensures
        dashed(s).len() == s.len(),
        forall|i: int| 0 <= i < s.len() ==> #[trigger] dashed(s)[i] == lower_char(s[i]),
    decreases s.len(),
{
    if s.len() > 0 {
        let rest = s.drop_last();
        assert forall|i: int| 0 <= i < rest.len() implies is_alphanumeric(#[trigger] rest[i]) by {
            assert(rest[i] == s[i]);
        }
        dashed_plain(rest);
        assert(is_alphanumeric(s[s.len() - 1]));
    }
}

} // verus!
