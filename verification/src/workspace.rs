//! Putting the manifests of a workspace together: labels, packages, the files
//! that patterns stand for, and the checks across targets.

use vstd::prelude::*;
use vstd::string::*;

use crate::manifest::{ready, Manifest, Target};
use crate::raw::{
    declaration_error, declared, made_from, platforms_valid, same_platform, target_valid,
    targets_valid, ManifestError, PathField, RawManifest,
};
use crate::sorted_map::{in_order, SortedMap, TextSet};
use crate::text::{
    begins, chars_of, copy, group_texts, same, starts_with, strip_prefix, text_between, texts,
};

verus! {

// ---------------------------------------------------------------------------
// Checks across targets
// ---------------------------------------------------------------------------

/// The dependency `j` of target `i` is another target.
pub open spec fn dep_ok(targets: SortedMap<Target>, i: int, j: int) -> bool {
    let dep = targets.values@[i].deps@[j]@;
    dep != targets.values@[i].name@ && targets.has(dep)
}

/// Every dependency of the first `n` targets is another target.
pub open spec fn deps_ok(targets: SortedMap<Target>, n: int) -> bool {
    forall|i: int, j: int|
        0 <= i < n && 0 <= j < targets.values@[i].deps@.len() ==> #[trigger] dep_ok(targets, i, j)
}

/// `e` reports the first dependency that is no other target.
pub open spec fn dep_error(targets: SortedMap<Target>, e: ManifestError) -> bool {
    exists|i: int, j: int| #[trigger]
        dep_reported(targets, i, j, e) && 0 <= i < targets.values@.len() && 0 <= j
            < targets.values@[i].deps@.len() && deps_ok(targets, i) && forall|k: int|
            0 <= k < j ==> #[trigger] dep_ok(targets, i, k)
}

/// `e` says what is wrong with dependency `j` of target `i`.
pub open spec fn dep_reported(targets: SortedMap<Target>, i: int, j: int, e: ManifestError) -> bool {
    let name = targets.values@[i].name@;
    let given = targets.values@[i].deps@[j]@;
    match e {
        ManifestError::DependsOnItself { target } => given == name && target@ == name,
        ManifestError::UnknownDep { target, dep } => given != name && !targets.has(given)
            && target@ == name && dep@ == given,
        _ => false,
    }
}

/// Checks that every dependency is another target.
fn validate_dependencies(targets: &SortedMap<Target>) -> (r: Result<(), ManifestError>)
    requires
        targets.wf(),
    ensures
        match r {
            Ok(_) => deps_ok(*targets, targets.values@.len() as int),
            Err(e) => dep_error(*targets, e),
        },
{
    let mut i: usize = 0;
    while i < targets.values.len()
        invariant
            targets.wf(),
            i <= targets.values@.len(),
            deps_ok(*targets, i as int),
        decreases targets.values@.len() - i,
    {
        let target = &targets.values[i];
        let mut j: usize = 0;
        while j < target.deps.len()
            invariant
                targets.wf(),
                i < targets.values@.len(),
                *target == targets.values@[i as int],
                j <= target.deps@.len(),
                deps_ok(*targets, i as int),
                forall|k: int| 0 <= k < j ==> #[trigger] dep_ok(*targets, i as int, k),
            decreases target.deps@.len() - j,
        {
            let dep = &target.deps[j];
            if same(dep, &target.name) {
                let e = ManifestError::DependsOnItself { target: copy(&target.name) };
                assert(dep_reported(*targets, i as int, j as int, e));
                return Err(e);
            }
            if !targets.contains_key(dep) {
                let e = ManifestError::UnknownDep { target: copy(&target.name), dep: copy(dep) };
                assert(dep_reported(*targets, i as int, j as int, e));
                return Err(e);
            }
            assert(dep_ok(*targets, i as int, j as int));
            j += 1;
        }
        i += 1;
    }
    Ok(())
}

/// The first `n` default targets are targets.
pub open spec fn defaults_ok(m: Manifest, n: int) -> bool {
    forall|i: int| 0 <= i < n ==> m.targets.has((#[trigger] m.default_targets@[i])@)
}

/// `e` reports the first default target that is no target.
pub open spec fn default_error(m: Manifest, e: ManifestError) -> bool {
    match e {
        ManifestError::UnknownDefault { name } => exists|i: int| #![trigger m.default_targets@[i]]
            0 <= i < m.default_targets@.len() && m.default_targets@[i]@ == name@
                && !m.targets.has(name@) && defaults_ok(m, i),
        _ => false,
    }
}

impl Manifest {
    /// The dependencies and the default targets are targets.
    pub open spec fn linked(self) -> bool {
        deps_ok(self.targets, self.targets.values@.len() as int) && defaults_ok(
            self,
            self.default_targets@.len() as int,
        )
    }

    /// Checks that the dependencies and the default targets are targets.
    pub fn validate(&self) -> (r: Result<(), ManifestError>)
        requires
            self.targets.wf(),
        ensures
            match r {
                Ok(_) => self.linked(),
                Err(e) => dep_error(self.targets, e) || (deps_ok(
                    self.targets,
                    self.targets.values@.len() as int,
                ) && default_error(*self, e)),
            },
    {
        match validate_dependencies(&self.targets) {
            Ok(_) => {},
            Err(e) => {
                return Err(e);
            },
        }
        let mut i: usize = 0;
        while i < self.default_targets.len()
            invariant
                self.targets.wf(),
                deps_ok(self.targets, self.targets.values@.len() as int),
                i <= self.default_targets@.len(),
                defaults_ok(*self, i as int),
            decreases self.default_targets@.len() - i,
        {
            let name = &self.default_targets[i];
            if !self.targets.contains_key(name) {
                return Err(ManifestError::UnknownDefault { name: copy(name) });
            }
            i += 1;
        }
        Ok(())
    }

    /// The workspace that one manifest file declares, with all checks.
    pub fn from_raw(raw: &RawManifest) -> (r: Result<Manifest, ManifestError>)
        requires
            raw.wf(),
        ensures
            match r {
                Ok(m) => targets_valid(*raw) && platforms_valid(*raw) && made_from(*raw, m)
                    && m.targets.keys@.len() > 0 && m.linked() && m.wf(),
                Err(e) => declaration_error(*raw, e) || (targets_valid(*raw) && platforms_valid(
                    *raw,
                ) && refused_as_made(*raw, e)),
            },
    {
        let m = match Manifest::from_raw_unvalidated(raw) {
            Ok(m) => m,
            Err(e) => {
                return Err(e);
            },
        };
        if m.targets.is_empty() {
            assert(refused(m, ManifestError::NoTargets));
            assert(refused_as_made(*raw, ManifestError::NoTargets));
            return Err(ManifestError::NoTargets);
        }
        match m.validate() {
            Ok(_) => {},
            Err(e) => {
                assert(refused(m, e));
                assert(refused_as_made(*raw, e));
                return Err(e);
            },
        }
        proof {
            made_is_wf(*raw, m);
        }
        Ok(m)
    }
}

/// What is wrong with a workspace of one manifest file, beyond its single
/// declarations.
pub open spec fn refused(m: Manifest, e: ManifestError) -> bool {
    if m.targets.keys@.len() == 0 {
        e is NoTargets
    } else {
        dep_error(m.targets, e) || (deps_ok(m.targets, m.targets.values@.len() as int)
            && default_error(m, e))
    }
}

/// `e` is what is wrong with the workspace that a manifest file declares.
pub open spec fn refused_as_made(raw: RawManifest, e: ManifestError) -> bool {
    exists|m: Manifest| #[trigger] made_from(raw, m) && refused(m, e)
}

/// A checked workspace is complete.
proof fn made_is_wf(raw: RawManifest, m: Manifest)
    requires
        raw.wf(),
        targets_valid(raw),
        made_from(raw, m),
        m.linked(),
    ensures
        m.wf(),
{
    assert(m.targets.keys@.len() == raw.targets.keys@.len()) by {
        assert(m.targets.names().len() == raw.targets.names().len());
    }
    assert(m.platforms.keys@.len() == raw.platforms.keys@.len()) by {
        assert(m.platforms.names().len() == raw.platforms.names().len());
    }
    assert forall|i: int| #![trigger m.targets.values@[i]]
        0 <= i < m.targets.values@.len() implies ready(m.targets.values@[i])
        && m.targets.values@[i].name@ == m.targets.keys@[i]@ by {
        assert(target_valid(raw.targets.keys@[i]@, raw.targets.values@[i]));
        assert(m.targets.names()[i] == raw.targets.names()[i]);
        assert(declared(
            raw.targets.keys@[i]@,
            raw.targets.values@[i],
            m.targets.values@[i],
        ));
    }
    assert forall|i: int, j: int|
        0 <= i < m.targets.values@.len() && 0 <= j
            < m.targets.values@[i].deps@.len() implies m.targets.has(
        (#[trigger] m.targets.values@[i].deps@[j])@,
    ) by {
        assert(dep_ok(m.targets, i, j));
    }
    assert forall|i: int| 0 <= i < m.platforms.values@.len() implies (
    #[trigger] m.platforms.values@[i]).tools.wf() by {
        assert(same_platform(m.platforms.values@[i], raw.platforms.values@[i]));
    }
}

// ---------------------------------------------------------------------------
// Labels and packages
// ---------------------------------------------------------------------------

/// A label without the prefix of the root package.
pub open spec fn root_label(label: Seq<char>) -> Seq<char> {
    if begins(label, "//:"@) {
        label.skip("//:"@.len() as int)
    } else {
        label
    }
}

/// `s` without the colons at its beginning.
pub open spec fn without_colons(s: Seq<char>) -> Seq<char>
    decreases s.len(),
{
    if s.len() > 0 && s[0] == ':' {
        without_colons(s.skip(1))
    } else {
        s
    }
}

/// The full label of a target `local` in `package`.
pub open spec fn label(package: Seq<char>, local: Seq<char>) -> Seq<char> {
    "//"@ + package + ":"@ + local
}

/// What a label in the manifest of `package` stands for: labels of the root
/// package lose their prefix, other full labels stay, and local ones, with or
/// without a colon, name a target of the package.
pub open spec fn resolved_label(raw: Seq<char>, package: Seq<char>) -> Seq<char> {
    if begins(raw, "//:"@) {
        raw.skip("//:"@.len() as int)
    } else if begins(raw, "//"@) {
        raw
    } else {
        label(package, without_colons(raw))
    }
}

fn make_label(package: &str, local: &str) -> (r: String)
    ensures
        r@ == label(package@, local@),
{
    let mut out = copy("//");
    out.append(package);
    out.append(":");
    out.append(local);
    out
}

/// What a label in the manifest of `package` stands for.
pub fn resolve_label(raw: &str, package: &str) -> (r: String)
    ensures
        r@ == resolved_label(raw@, package@),
{
    if let Some(root) = strip_prefix(raw, "//:") {
        return root;
    }
    if starts_with(raw, "//") {
        return copy(raw);
    }
    let a = chars_of(raw);
    let mut i: usize = 0;
    assert(a@.skip(0) =~= a@);
    while i < a.len() && a[i] == ':'
        invariant
            i <= a.len(),
            without_colons(a@.skip(i as int)) == without_colons(a@),
        decreases a.len() - i,
    {
        assert(a@.skip(i as int).skip(1) =~= a@.skip(i + 1));
        i += 1;
    }
    make_label(package, &text_between(&a, i, a.len()))
}

/// A path of a package, relative to the workspace root.
pub open spec fn in_package(package: Seq<char>, path: Seq<char>) -> Seq<char> {
    if package.len() == 0 {
        path
    } else {
        package + "/"@ + path
    }
}

/// A path of a package, relative to the workspace root.
pub fn prefix_path(package: &str, path: &str) -> (r: String)
    ensures
        r@ == in_package(package@, path@),
{
    if package.is_empty() {
        return copy(path);
    }
    let mut out = copy(package);
    out.append("/");
    out.append(path);
    out
}

/// Paths of a package, relative to the workspace root.
pub open spec fn all_in_package(package: Seq<char>, paths: Seq<Seq<char>>) -> Seq<Seq<char>> {
    Seq::new(paths.len(), |i: int| in_package(package, paths[i]))
}

fn prefix_paths(package: &str, paths: &Vec<String>) -> (r: Vec<String>)
    ensures
        texts(r@) == all_in_package(package@, texts(paths@)),
{
    broadcast use group_texts;
    let mut out: Vec<String> = Vec::new();
    let mut i: usize = 0;
    while i < paths.len()
        invariant
            i <= paths.len(),
            texts(out@) =~= all_in_package(package@, texts(paths@)).take(i as int),
        decreases paths.len() - i,
    {
        let ghost all = all_in_package(package@, texts(paths@));
        assert(all.take(i + 1) =~= all.take(i as int).push(
            in_package(package@, paths@[i as int]@),
        ));
        out.push(prefix_path(package, &paths[i]));
        i += 1;
    }
    assert(texts(out@) =~= all_in_package(package@, texts(paths@)));
    out
}

/// The path is a pattern.
pub open spec fn is_pattern(path: Seq<char>) -> bool {
    path.contains('*') || path.contains('?') || path.contains('[')
}

/// Whether the path is a pattern.
pub fn has_glob(path: &str) -> (r: bool)
    ensures
        r == is_pattern(path@),
{
    crate::paths::has_char(path, '*') || crate::paths::has_char(path, '?')
        || crate::paths::has_char(path, '[')
}

// ---------------------------------------------------------------------------
// The files that patterns stand for
// ---------------------------------------------------------------------------

/// A file that a pattern matched: its path relative to the workspace root, and
/// whether an ignore file excludes it.
#[derive(Debug)]
pub struct Match {
    pub path: String,
    pub ignored: bool,
}

/// A matched file that a target may use: not ignored, and not among the
/// build's own or the version control's files.
pub open spec fn usable(m: Match) -> bool {
    !m.ignored && !begins(m.path@, ".frost/"@) && !begins(m.path@, ".git/"@)
}

/// The files that one path of a target stands for: itself below its package,
/// or what the pattern matched and a target may use.
pub open spec fn stands_for(package: Seq<char>, path: Seq<char>, found: Seq<Match>) -> Set<
    Seq<char>,
> {
    if is_pattern(path) {
        found.filter(|m: Match| usable(m)).map_values(|m: Match| m.path@).to_set()
    } else {
        set![in_package(package, path)]
    }
}

/// The files that the first `n` paths stand for.
pub open spec fn all_stand_for(
    package: Seq<char>,
    paths: Seq<Seq<char>>,
    found: Seq<Vec<Match>>,
    n: nat,
) -> Set<Seq<char>>
    decreases n,
{
    if n == 0 {
        Set::empty()
    } else {
        all_stand_for(package, paths, found, (n - 1) as nat).union(
            stands_for(package, paths[n - 1], found[n - 1]@),
        )
    }
}

/// Adds the usable files of a match to `out`; says whether there was one.
fn add_matches(out: &mut TextSet, found: &Vec<Match>) -> (r: bool)
    requires
        old(out).wf(),
    ensures
        final(out).wf(),
        final(out)@ == old(out)@.union(
            found@.filter(|m: Match| usable(m)).map_values(|m: Match| m.path@).to_set(),
        ),
        r == (found@.filter(|m: Match| usable(m)).len() > 0),
{
    let ghost keep = |m: Match| usable(m);
    let ghost named = |m: Match| m.path@;
    let mut any = false;
    let mut i: usize = 0;
    proof {
        reveal(Seq::filter);
        assert(found@.take(0).filter(keep).map_values(named).to_set() =~= Set::empty());
    }
    while i < found.len()
        invariant
            i <= found.len(),
            out.wf(),
            keep == (|m: Match| usable(m)),
            named == (|m: Match| m.path@),
            out@ =~= old(out)@.union(found@.take(i as int).filter(keep).map_values(named).to_set()),
            any == (found@.take(i as int).filter(keep).len() > 0),
        decreases found.len() - i,
    {
        let ghost m = found@[i as int];
        let ghost kept = found@.take(i as int).filter(keep);
        proof {
            assert(found@.take(i + 1) =~= found@.take(i as int).push(m));
            found@.take(i as int).lemma_filter_push(m, keep);
            kept.lemma_push_map_commute(named, m);
            kept.map_values(named).lemma_push_to_set_commute(m.path@);
        }
        let m = &found[i];
        if !m.ignored && !starts_with(&m.path, ".frost/") && !starts_with(&m.path, ".git/") {
            let _ = out.insert(copy(&m.path));
            any = true;
        }
        i += 1;
    }
    assert(found@.take(i as int) =~= found@);
    any
}

/// The files that paths of a target stand for, in order and without
/// repetition. `found` holds what each pattern among them matched. The error is
/// the first pattern that stands for no file.
pub fn expand_paths(package: &str, paths: &Vec<String>, found: &Vec<Vec<Match>>) -> (r: Result<
    Vec<String>,
    String,
>)
    requires
        found@.len() == paths@.len(),
    ensures
        match r {
            Ok(files) => nothing_lost(texts(paths@), found@, paths@.len() as int)
                && texts(files@) == in_order(
                all_stand_for(package@, texts(paths@), found@, paths@.len()),
            ),
            Err(pattern) => exists|i: int| #![trigger texts(paths@)[i]]
                0 <= i < paths@.len() && pattern@ == texts(paths@)[i] && !matched(
                    texts(paths@)[i],
                    found@[i]@,
                ) && nothing_lost(texts(paths@), found@, i),
        },
{
    let ghost names = texts(paths@);
    let mut out = TextSet::new();
    let mut i: usize = 0;
    while i < paths.len()
        invariant
            names == texts(paths@),
            found@.len() == paths@.len(),
            i <= paths.len(),
            out.wf(),
            out@ == all_stand_for(package@, names, found@, i as nat),
            nothing_lost(names, found@, i as int),
        decreases paths.len() - i,
    {
        assert(names[i as int] == paths@[i as int]@);
        if !has_glob(&paths[i]) {
            let ghost before = out@;
            let _ = out.insert(prefix_path(package, &paths[i]));
            assert(out@ =~= before.union(stands_for(package@, names[i as int], found@[i as int]@)));
            assert(matched(names[i as int], found@[i as int]@));
        } else if !add_matches(&mut out, &found[i]) {
            assert(!matched(names[i as int], found@[i as int]@));
            return Err(copy(&paths[i]));
        }
        i += 1;
    }
    Ok(out.items())
}

/// The path is no pattern, or one that stands for some file.
pub open spec fn matched(path: Seq<char>, found: Seq<Match>) -> bool {
    is_pattern(path) ==> found.filter(|m: Match| usable(m)).len() > 0
}

/// None of the first `n` paths is a pattern without files.
pub open spec fn nothing_lost(paths: Seq<Seq<char>>, found: Seq<Vec<Match>>, n: int) -> bool {
    forall|i: int| #![trigger paths[i]] 0 <= i < n ==> matched(paths[i], found[i]@)
}

/// What the patterns of one target matched.
#[derive(Debug)]
pub struct Matches {
    pub srcs: Vec<Vec<Match>>,
    pub inputs: Vec<Vec<Match>>,
}

/// There are matches for every path of the target.
pub open spec fn matches_fit(t: Target, found: Matches) -> bool {
    found.srcs@.len() == t.srcs@.len() && found.inputs@.len() == t.inputs@.len()
}

/// Every pattern of the target stands for some file.
pub open spec fn all_matched(t: Target, found: Matches) -> bool {
    nothing_lost(texts(t.srcs@), found.srcs@, t.srcs@.len() as int) && nothing_lost(
        texts(t.inputs@),
        found.inputs@,
        t.inputs@.len() as int,
    )
}

/// `r` is the target `t` of `package` with its patterns expanded and its paths
/// relative to the workspace root.
pub open spec fn expanded(t: Target, package: Seq<char>, found: Matches, r: Target) -> bool {
    &&& all_matched(t, found)
    &&& r.package@ == package
    &&& texts(r.srcs@) == in_order(
        all_stand_for(package, texts(t.srcs@), found.srcs@, t.srcs@.len()),
    )
    &&& texts(r.inputs@) == in_order(
        all_stand_for(package, texts(t.inputs@), found.inputs@, t.inputs@.len()),
    )
    &&& texts(r.includes@) == all_in_package(package, texts(t.includes@))
    &&& texts(r.outputs@) == all_in_package(package, texts(t.outputs@))
    &&& texts(r.clean_dirs@) == all_in_package(package, texts(t.clean_dirs@))
    &&& match (t.depfile, r.depfile) {
        (Some(a), Some(b)) => b@ == in_package(package, a@),
        (None, None) => true,
        _ => false,
    }
    &&& r.name == t.name && r.kind == t.kind && r.deps == t.deps
    &&& r.cflags == t.cflags && r.ldflags == t.ldflags && r.cmd == t.cmd && r.tool == t.tool
    &&& r.args == t.args && r.steps == t.steps && r.preserve_outputs == t.preserve_outputs
    &&& r.env == t.env && r.pass_env == t.pass_env && r.sandbox == t.sandbox
}

/// `e` reports the first pattern of the target that stands for no file.
pub open spec fn unmatched(t: Target, found: Matches, e: ManifestError) -> bool {
    match e {
        ManifestError::NothingMatched { target, field, pattern } => {
            &&& target@ == t.name@
            &&& match field {
                PathField::Srcs => first_unmatched(texts(t.srcs@), found.srcs@, pattern@),
                PathField::Inputs => nothing_lost(
                    texts(t.srcs@),
                    found.srcs@,
                    t.srcs@.len() as int,
                ) && first_unmatched(texts(t.inputs@), found.inputs@, pattern@),
                _ => false,
            }
        },
        _ => false,
    }
}

/// `pattern` is the first path that is a pattern without files.
pub open spec fn first_unmatched(
    paths: Seq<Seq<char>>,
    found: Seq<Vec<Match>>,
    pattern: Seq<char>,
) -> bool {
    exists|i: int| #![trigger paths[i]]
        0 <= i < paths.len() && pattern == paths[i] && !matched(paths[i], found[i]@)
            && nothing_lost(paths, found, i)
}

fn expand_target(t: Target, package: &str, found: &Matches) -> (r: Result<Target, ManifestError>)
    requires
        matches_fit(t, *found),
    ensures
        match r {
            Ok(x) => expanded(t, package@, *found, x),
            Err(e) => unmatched(t, *found, e),
        },
{
    let srcs = match expand_paths(package, &t.srcs, &found.srcs) {
        Ok(files) => files,
        Err(pattern) => {
            return Err(
                ManifestError::NothingMatched { target: t.name, field: PathField::Srcs, pattern },
            );
        },
    };
    let inputs = match expand_paths(package, &t.inputs, &found.inputs) {
        Ok(files) => files,
        Err(pattern) => {
            return Err(
                ManifestError::NothingMatched { target: t.name, field: PathField::Inputs, pattern },
            );
        },
    };
    let depfile = match &t.depfile {
        Some(path) => Some(prefix_path(package, path)),
        None => None,
    };
    Ok(
        Target {
            package: copy(package),
            srcs,
            inputs,
            includes: prefix_paths(package, &t.includes),
            outputs: prefix_paths(package, &t.outputs),
            clean_dirs: prefix_paths(package, &t.clean_dirs),
            depfile,
            name: t.name,
            kind: t.kind,
            deps: t.deps,
            cflags: t.cflags,
            ldflags: t.ldflags,
            cmd: t.cmd,
            tool: t.tool,
            args: t.args,
            steps: t.steps,
            preserve_outputs: t.preserve_outputs,
            env: t.env,
            pass_env: t.pass_env,
            sandbox: t.sandbox,
        },
    )
}

/// The elements of `v` in the opposite order, for taking them from the back.
pub fn reversed<T>(v: Vec<T>) -> (r: Vec<T>)
    ensures
        r@ == v@.reverse(),
{
    let mut from = v;
    let mut out: Vec<T> = Vec::new();
    let ghost n = v@.len();
    while from.len() > 0
        invariant
            n == v@.len(),
            from@.len() <= n,
            from@ == v@.take(from@.len() as int),
            out@ == v@.skip(from@.len() as int).reverse(),
        decreases from@.len(),
    {
        let ghost k = from@.len();
        if let Some(x) = from.pop() {
            out.push(x);
        }
        assert(from@ =~= v@.take(k - 1));
        assert(v@.skip(k - 1).reverse() =~= v@.skip(k as int).reverse().push(v@[k - 1]));
    }
    assert(v@.skip(0) =~= v@);
    out
}

impl Manifest {
    /// Every target of `self` is expanded in `r`, and nothing else differs.
    pub open spec fn expands(self, package: Seq<char>, found: Seq<Matches>, r: Manifest) -> bool {
        &&& r.targets.keys@ == self.targets.keys@
        &&& r.targets.values@.len() == self.targets.values@.len()
        &&& forall|i: int|
            0 <= i < self.targets.values@.len() ==> expanded(
                self.targets.values@[i],
                package,
                found[i],
                #[trigger] r.targets.values@[i],
            )
        &&& r.default_targets == self.default_targets && r.toolchain == self.toolchain
        &&& r.platforms == self.platforms && r.profiles == self.profiles
        &&& r.manifest_paths == self.manifest_paths
    }

    /// The workspace with the patterns of its targets expanded and their paths
    /// relative to the workspace root.
    pub fn expand_manifest_paths(self, package: &str, found: &Vec<Matches>) -> (r: Result<
        Manifest,
        ManifestError,
    >)
        requires
            self.targets.wf(),
            found@.len() == self.targets.values@.len(),
            forall|i: int|
                0 <= i < found@.len() ==> matches_fit(
                    self.targets.values@[i],
                    #[trigger] found@[i],
                ),
        ensures
            match r {
                Ok(m) => self.expands(package@, found@, m) && m.targets.wf(),
                Err(e) => exists|i: int| #![trigger found@[i]]
                    0 <= i < found@.len() && unmatched(self.targets.values@[i], found@[i], e)
                        && forall|j: int|
                        0 <= j < i ==> all_matched(self.targets.values@[j], #[trigger] found@[j]),
            },
    {
        let ghost given = self.targets.values@;
        let mut rest = reversed(self.targets.values);
        let mut values: Vec<Target> = Vec::new();
        let mut i: usize = 0;
        while i < found.len()
            invariant
                given == self.targets.values@,
                found@.len() == given.len(),
                forall|j: int|
                    0 <= j < found@.len() ==> matches_fit(given[j], #[trigger] found@[j]),
                i <= found@.len(),
                rest@ == given.skip(i as int).reverse(),
                values@.len() == i,
                forall|j: int|
                    0 <= j < i ==> expanded(
                        given[j],
                        package@,
                        found@[j],
                        #[trigger] values@[j],
                    ),
            decreases found@.len() - i,
        {
            if let Some(t) = rest.pop() {
                assert(t == given[i as int]);
                assert(rest@ =~= given.skip(i + 1).reverse());
                match expand_target(t, package, &found[i]) {
                    Ok(x) => values.push(x),
                    Err(e) => {
                        assert(unmatched(given[i as int], found@[i as int], e));
                        assert forall|j: int| 0 <= j < i implies all_matched(
                            given[j],
                            #[trigger] found@[j],
                        ) by {
                            assert(expanded(given[j], package@, found@[j], values@[j]));
                        }
                        return Err(e);
                    },
                }
            } else {
                assert(rest@.len() == given.skip(i as int).reverse().len());
            }
            i += 1;
        }
        Ok(
            Manifest {
                targets: SortedMap { keys: self.targets.keys, values },
                default_targets: self.default_targets,
                toolchain: self.toolchain,
                platforms: self.platforms,
                profiles: self.profiles,
                manifest_paths: self.manifest_paths,
            },
        )
    }
}

/// Labels as the root manifest uses them.
pub open spec fn root_labels(labels: Seq<Seq<char>>) -> Seq<Seq<char>> {
    Seq::new(labels.len(), |i: int| root_label(labels[i]))
}

fn strip_root(labels: &Vec<String>) -> (r: Vec<String>)
    ensures
        texts(r@) == root_labels(texts(labels@)),
{
    broadcast use group_texts;
    let mut out: Vec<String> = Vec::new();
    let mut i: usize = 0;
    while i < labels.len()
        invariant
            i <= labels.len(),
            texts(out@) =~= root_labels(texts(labels@)).take(i as int),
        decreases labels.len() - i,
    {
        let ghost all = root_labels(texts(labels@));
        assert(all.take(i + 1) =~= all.take(i as int).push(root_label(labels@[i as int]@)));
        match strip_prefix(&labels[i], "//:") {
            Some(rest) => out.push(rest),
            None => out.push(copy(&labels[i])),
        }
        i += 1;
    }
    assert(texts(out@) =~= root_labels(texts(labels@)));
    out
}

/// Labels as the manifest of `package` uses them.
pub open spec fn package_labels(labels: Seq<Seq<char>>, package: Seq<char>) -> Seq<Seq<char>> {
    Seq::new(labels.len(), |i: int| resolved_label(labels[i], package))
}

fn resolve_labels(labels: &Vec<String>, package: &str) -> (r: Vec<String>)
    ensures
        texts(r@) == package_labels(texts(labels@), package@),
{
    broadcast use group_texts;
    let mut out: Vec<String> = Vec::new();
    let mut i: usize = 0;
    while i < labels.len()
        invariant
            i <= labels.len(),
            texts(out@) =~= package_labels(texts(labels@), package@).take(i as int),
        decreases labels.len() - i,
    {
        let ghost all = package_labels(texts(labels@), package@);
        assert(all.take(i + 1) =~= all.take(i as int).push(
            resolved_label(labels@[i as int]@, package@),
        ));
        out.push(resolve_label(&labels[i], package));
        i += 1;
    }
    assert(texts(out@) =~= package_labels(texts(labels@), package@));
    out
}

/// `b` is `a` but for its dependencies.
pub open spec fn same_but_deps(a: Target, b: Target) -> bool {
    Target { deps: b.deps, ..a } == b
}

impl Manifest {
    /// The root manifest of a workspace with the labels of its own package in
    /// their short form.
    pub fn with_root_labels(self) -> (r: Manifest)
        requires
            self.targets.wf(),
        ensures
            r.targets.wf(),
            r.targets.keys@ == self.targets.keys@,
            r.targets.values@.len() == self.targets.values@.len(),
            forall|i: int|
                0 <= i < self.targets.values@.len() ==> same_but_deps(
                    self.targets.values@[i],
                    #[trigger] r.targets.values@[i],
                ) && texts(r.targets.values@[i].deps@) == root_labels(
                    texts(self.targets.values@[i].deps@),
                ),
            texts(r.default_targets@) == root_labels(texts(self.default_targets@)),
            r.toolchain == self.toolchain && r.platforms == self.platforms && r.profiles
                == self.profiles && r.manifest_paths == self.manifest_paths,
    {
        let ghost given = self.targets.values@;
        let default_targets = strip_root(&self.default_targets);
        let mut rest = reversed(self.targets.values);
        let mut values: Vec<Target> = Vec::new();
        assert(given.skip(0) =~= given);
        while rest.len() > 0
            invariant
                values@.len() + rest@.len() == given.len(),
                rest@ == given.skip(values@.len() as int).reverse(),
                forall|i: int|
                    0 <= i < values@.len() ==> same_but_deps(given[i], #[trigger] values@[i])
                        && texts(values@[i].deps@) == root_labels(texts(given[i].deps@)),
            decreases rest@.len(),
        {
            let ghost k = values@.len();
            if let Some(t) = rest.pop() {
                assert(t == given[k as int]);
                let deps = strip_root(&t.deps);
                values.push(Target { deps, ..t });
            }
            assert(rest@ =~= given.skip(k as int + 1).reverse());
        }
        Manifest {
            default_targets,
            toolchain: self.toolchain,
            platforms: self.platforms,
            profiles: self.profiles,
            targets: SortedMap { keys: self.targets.keys, values },
            manifest_paths: self.manifest_paths,
        }
    }

    /// `t` is the target `i` of a package's manifest as the workspace has it.
    pub open spec fn packaged(self, i: int, package: Seq<char>, t: Target) -> bool {
        let local = self.targets.values@[i];
        &&& t.name@ == label(package, self.targets.keys@[i]@)
        &&& t.package@ == package
        &&& texts(t.deps@) == package_labels(texts(local.deps@), package)
        &&& Target { name: t.name, package: t.package, deps: t.deps, ..local } == t
    }

    /// The labels of the first `n` targets of a package's manifest.
    pub open spec fn labels(self, package: Seq<char>, n: int) -> Set<Seq<char>> {
        Set::new(
            |k: Seq<char>|
                exists|i: int|
                    0 <= i < n && k == label(package, (#[trigger] self.targets.keys@[i])@),
        )
    }

    /// No label of the first `n` targets of a package's manifest is one of the
    /// workspace already.
    pub open spec fn none_taken(self, package: Seq<char>, child: Manifest, n: int) -> bool {
        forall|i: int|
            0 <= i < n ==> !self.targets.has(label(package, (#[trigger] child.targets.keys@[i])@))
    }

    /// The workspace with the targets of one more package in it, each under
    /// its full label. The error is the first label that was taken.
    pub fn with_package(self, package: &str, path: String, child: Manifest) -> (r: Result<
        Manifest,
        ManifestError,
    >)
        requires
            self.targets.wf(),
            child.targets.wf(),
        ensures
            match r {
                Ok(m) => m.targets.wf() && self.none_taken(
                    package@,
                    child,
                    child.targets.keys@.len() as int,
                ) && (forall|k: Seq<char>| #[trigger]
                    m.targets.has(k) <==> self.targets.has(k) || child.labels(
                        package@,
                        child.targets.keys@.len() as int,
                    ).contains(k)) && (forall|k: Seq<char>|
                    self.targets.has(k) ==> #[trigger] m.targets.at(k) == self.targets.at(k)) && (
                forall|i: int|
                    0 <= i < child.targets.keys@.len() ==> child.packaged(
                        i,
                        package@,
                        m.targets.at(label(package@, (#[trigger] child.targets.keys@[i])@)),
                    )) && m.manifest_paths@ == self.manifest_paths@.push(path) && m.default_targets
                    == self.default_targets && m.toolchain == self.toolchain && m.platforms
                    == self.platforms && m.profiles == self.profiles,
                Err(e) => match e {
                    ManifestError::DuplicateLabel { label: taken } => self.targets.has(taken@)
                        && exists|i: int| #![trigger child.targets.keys@[i]]
                        0 <= i < child.targets.keys@.len() && taken@ == label(
                            package@,
                            child.targets.keys@[i]@,
                        ) && self.none_taken(package@, child, i),
                    _ => false,
                },
            },
    {
        let ghost names = child.targets.keys@;
        let ghost locals = child.targets.values@;
        let mut targets = self.targets;
        let ghost before = targets;
        let mut rest = reversed(child.targets.values);
        let keys = child.targets.keys;
        let mut i: usize = 0;
        assert(locals.skip(0) =~= locals);
        while i < keys.len()
            invariant
                keys@ == names,
                names.len() == locals.len(),
                names == child.targets.keys@,
                locals == child.targets.values@,
                before == self.targets,
                child.targets.wf(),
                i <= keys@.len(),
                rest@ == locals.skip(i as int).reverse(),
                self.none_taken(package@, child, i as int),
                targets.wf(),
                forall|k: Seq<char>| #[trigger]
                    targets.has(k) <==> before.has(k) || child.labels(
                        package@,
                        i as int,
                    ).contains(k),
                forall|k: Seq<char>| before.has(k) ==> #[trigger] targets.at(k) == before.at(k),
                forall|j: int|
                    0 <= j < i ==> child.packaged(
                        j,
                        package@,
                        targets.at(label(package@, (#[trigger] names[j])@)),
                    ),
            decreases keys@.len() - i,
        {
            let canonical = make_label(package, &keys[i]);
            let ghost was = targets;
            if let Some(t) = rest.pop() {
                assert(t == locals[i as int]);
                let deps = resolve_labels(&t.deps, package);
                let t = Target { name: copy(&canonical), package: copy(package), deps, ..t };
                let ghost placed = t;
                assert(child.packaged(i as int, package@, placed));
                match targets.insert(canonical.clone(), t) {
                    Some(_) => {
                        proof {
                            let k = canonical@;
                            assert(was.has(k));
                            assert(k == label(package@, names[i as int]@));
                            if !before.has(k) {
                                let j = choose|j: int|
                                    0 <= j < i && k == label(package@, (#[trigger] names[j])@);
                                labels_differ(package@, names[j]@, names[i as int]@);
                                child.targets.spot_is(i as int);
                                child.targets.spot_is(j);
                            }
                        }
                        return Err(ManifestError::DuplicateLabel { label: canonical });
                    },
                    None => {},
                }
                proof {
                    assert forall|k: Seq<char>| child.labels(package@, i + 1).contains(k)
                        <==> child.labels(package@, i as int).contains(k) || k == canonical@ by {
                        if child.labels(package@, i as int).contains(k) {
                            let j = choose|j: int|
                                0 <= j < i && k == label(package@, (#[trigger] names[j])@);
                            assert(k == label(package@, names[j]@));
                        }
                        if k == canonical@ {
                            assert(k == label(package@, names[i as int]@));
                        }
                    }
                    assert forall|j: int| 0 <= j < i + 1 implies child.packaged(
                        j,
                        package@,
                        targets.at(label(package@, (#[trigger] names[j])@)),
                    ) by {
                        let k = label(package@, names[j]@);
                        assert(targets.has(k)) by {
                            assert(child.labels(package@, i + 1).contains(k));
                        }
                        if j < i {
                            assert(was.has(k)) by {
                                assert(child.labels(package@, i as int).contains(k));
                            }
                        }
                    }
                    assert forall|k: Seq<char>| before.has(k) implies #[trigger] targets.at(k)
                        == before.at(k) by {
                        assert(was.has(k));
                    }
                }
            } else {
                assert(locals.skip(i as int).reverse().len() == 0);
            }
            assert(rest@ =~= locals.skip(i + 1).reverse());
            i += 1;
        }
        let mut manifest_paths = self.manifest_paths;
        manifest_paths.push(path);
        Ok(
            Manifest {
                default_targets: self.default_targets,
                toolchain: self.toolchain,
                platforms: self.platforms,
                profiles: self.profiles,
                targets,
                manifest_paths,
            },
        )
    }
}

/// Different targets of a package have different labels.
pub proof fn labels_differ(package: Seq<char>, a: Seq<char>, b: Seq<char>)
    requires
        label(package, a) == label(package, b),
    ensures
        a == b,
{
    let head = "//"@ + package + ":"@;
    assert(label(package, a).skip(head.len() as int) =~= a);
    assert(label(package, b).skip(head.len() as int) =~= b);
}

} // verus!
