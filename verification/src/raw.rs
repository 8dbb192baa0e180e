//! What a manifest file declares, before it is checked, and the checks that
//! make a workspace of it.

use vstd::prelude::*;
use vstd::string::*;

use crate::manifest::{
    Manifest, Platform, Profile, Step, Target, TargetKind, Toolchain, HOST_PLATFORM,
};
use crate::paths::{normal_path, validate_rel_path, PathError, PathFault};
use crate::sorted_map::{copy_pairs, pairs, SortedMap};
use crate::text::{
    alphanumeric, chars_of, copies, copy, copy_option, debug_text, group_texts, is_alphanumeric,
    quoted, same, texts, trim, trimmed,
};

verus! {

/// A target as a manifest file declares it.
#[derive(Debug)]
pub struct RawTarget {
    pub kind: TargetKind,
    pub srcs: Vec<String>,
    pub deps: Vec<String>,
    pub includes: Vec<String>,
    pub cflags: Vec<String>,
    pub ldflags: Vec<String>,
    pub cmd: Option<String>,
    pub tool: Option<String>,
    pub args: Vec<String>,
    pub steps: Vec<Step>,
    pub inputs: Vec<String>,
    pub outputs: Vec<String>,
    pub depfile: Option<String>,
    pub clean_dirs: Vec<String>,
    pub preserve_outputs: bool,
    pub env: SortedMap<String>,
    pub pass_env: Vec<String>,
    pub sandbox: Option<bool>,
}

/// A toolchain as a manifest file declares it.
#[derive(Debug)]
pub struct RawToolchain {
    pub cc: Option<String>,
    pub cxx: Option<String>,
    pub ar: Option<String>,
    pub kofunc: Option<String>,
    pub arflags: Option<Vec<String>>,
    pub cflags: Vec<String>,
    pub cxxflags: Vec<String>,
    pub ldflags: Vec<String>,
    pub tools: SortedMap<String>,
}

/// A manifest file.
#[derive(Debug)]
pub struct RawManifest {
    pub default_targets: Vec<String>,
    pub toolchain: RawToolchain,
    pub platforms: SortedMap<Platform>,
    pub profiles: SortedMap<Profile>,
    pub targets: SortedMap<RawTarget>,
}

impl RawManifest {
    /// All maps are in order.
    pub open spec fn wf(self) -> bool {
        &&& self.targets.wf()
        &&& self.platforms.wf()
        &&& self.profiles.wf()
        &&& self.toolchain.tools.wf()
        &&& forall|i: int|
            0 <= i < self.targets.values@.len() ==> (#[trigger] self.targets.values@[i]).env.wf()
        &&& forall|i: int|
            0 <= i < self.platforms.values@.len()
                ==> (#[trigger] self.platforms.values@[i]).tools.wf()
    }
}

/// The lists of paths of a target.
#[derive(Debug, Clone, Copy, PartialEq, Eq, Structural)]
pub enum PathField {
    Srcs,
    Includes,
    Inputs,
    Outputs,
    CleanDirs,
    Depfile,
}

impl PathField {
    /// The field as a manifest writes it.
    pub open spec fn text(self) -> Seq<char> {
        match self {
            PathField::Srcs => "srcs"@,
            PathField::Includes => "includes"@,
            PathField::Inputs => "inputs"@,
            PathField::Outputs => "outputs"@,
            PathField::CleanDirs => "clean_dirs"@,
            PathField::Depfile => "depfile"@,
        }
    }

    fn as_str(self) -> (r: &'static str)
        ensures
            r@ == self.text(),
    {
        match self {
            PathField::Srcs => "srcs",
            PathField::Includes => "includes",
            PathField::Inputs => "inputs",
            PathField::Outputs => "outputs",
            PathField::CleanDirs => "clean_dirs",
            PathField::Depfile => "depfile",
        }
    }
}

/// A rule that targets of a kind must keep.
#[derive(Debug, Clone, Copy, PartialEq, Eq, Structural)]
pub enum KindRule {
    NeedsSrcs,
    NoGenruleFields,
    NeedsCmd,
    NeedsOutputs,
    NeedsTool,
    NoSrcs,
    NoFlags,
}

/// The kind whose rules targets of a kind keep: shell tests keep those of
/// genrules.
pub open spec fn family(kind: TargetKind) -> Seq<char> {
    if kind == TargetKind::Test {
        "genrule"@
    } else {
        kind.text()
    }
}

/// What is wrong with a target.
#[derive(Debug)]
pub enum TargetFault {
    Name,
    Path { field: PathField, error: PathError },
    Kind { kind: TargetKind, rule: KindRule },
}

impl TargetFault {
    /// The text that reports the fault.
    pub open spec fn text(self) -> Seq<char> {
        match self {
            TargetFault::Name => "target name must match [A-Za-z0-9_-]+"@,
            TargetFault::Path { field, error } => field.text() + ": "@ + error.text(),
            TargetFault::Kind { kind, rule } => match rule {
                KindRule::NeedsSrcs => kind.text() + " requires non-empty srcs"@,
                KindRule::NoGenruleFields => kind.text()
                    + " must not set genrule fields (cmd/inputs/outputs)"@,
                KindRule::NeedsCmd => family(kind) + " requires a non-empty cmd"@,
                KindRule::NeedsOutputs => family(kind) + " requires non-empty outputs"@,
                KindRule::NeedsTool => family(kind) + " requires a tool"@,
                KindRule::NoSrcs => family(kind) + " uses inputs, not srcs"@,
                KindRule::NoFlags => family(kind) + " must not set cflags/ldflags"@,
            },
        }
    }

    /// Reports the fault.
    pub fn message(&self) -> (r: String)
        ensures
            r@ == self.text(),
    {
        match self {
            TargetFault::Name => copy("target name must match [A-Za-z0-9_-]+"),
            TargetFault::Path { field, error } => {
                let mut out = copy(field.as_str());
                out.append(": ");
                out.append(&error.message());
                out
            },
            TargetFault::Kind { kind, rule } => {
                let mut out = match rule {
                    KindRule::NeedsSrcs | KindRule::NoGenruleFields => copy(kind.as_str()),
                    _ => match kind {
                        TargetKind::Test => copy("genrule"),
                        _ => copy(kind.as_str()),
                    },
                };
                match rule {
                    KindRule::NeedsSrcs => out.append(" requires non-empty srcs"),
                    KindRule::NoGenruleFields => out.append(
                        " must not set genrule fields (cmd/inputs/outputs)",
                    ),
                    KindRule::NeedsCmd => out.append(" requires a non-empty cmd"),
                    KindRule::NeedsOutputs => out.append(" requires non-empty outputs"),
                    KindRule::NeedsTool => out.append(" requires a tool"),
                    KindRule::NoSrcs => out.append(" uses inputs, not srcs"),
                    KindRule::NoFlags => out.append(" must not set cflags/ldflags"),
                }
                out
            },
        }
    }
}

/// Names of targets, platforms and profiles: letters, digits, `_` and `-`.
pub open spec fn plain_name(name: Seq<char>) -> bool {
    name.len() > 0 && forall|i: int|
        0 <= i < name.len() ==> is_alphanumeric(#[trigger] name[i]) || name[i] == '_' || name[i]
            == '-'
}

/// Whether a name is made of letters, digits, `_` and `-`.
pub fn valid_target_name(name: &str) -> (r: bool)
    ensures
        r == plain_name(name@),
{
    let a = chars_of(name);
    if a.len() == 0 {
        return false;
    }
    let mut i: usize = 0;
    while i < a.len()
        invariant
            i <= a.len(),
            a@ == name@,
            forall|j: int|
                0 <= j < i ==> is_alphanumeric(#[trigger] name@[j]) || name@[j] == '_' || name@[j]
                    == '-',
        decreases a.len() - i,
    {
        let c = a[i];
        if !(alphanumeric(c) || c == '_' || c == '-') {
            assert(!(is_alphanumeric(name@[i as int]) || name@[i as int] == '_' || name@[i as int]
                == '-'));
            return false;
        }
        i += 1;
    }
    true
}

/// Every path of `raw` is workspace-relative, and `r` lists their normal
/// forms.
pub open spec fn normal_paths(raw: Seq<Seq<char>>, r: Seq<Seq<char>>) -> bool {
    raw.len() == r.len() && forall|i: int|
        0 <= i < raw.len() ==> normal_path(#[trigger] raw[i]) == Ok::<Seq<char>, PathFault>(r[i])
}

/// `e` reports the first path of `raw` that is not workspace-relative.
pub open spec fn first_bad_path(raw: Seq<Seq<char>>, e: PathError) -> bool {
    exists|i: int| #![trigger raw[i]]
        0 <= i < raw.len() && e.path@ == raw[i] && normal_path(raw[i]) == Err::<
            Seq<char>,
            PathFault,
        >(e.fault) && forall|j: int| 0 <= j < i ==> (normal_path(#[trigger] raw[j]) is Ok)
}

/// Every path of `raw` is workspace-relative.
pub open spec fn all_paths_ok(raw: Seq<Seq<char>>) -> bool {
    forall|i: int| 0 <= i < raw.len() ==> (normal_path(#[trigger] raw[i]) is Ok)
}

/// The normal forms of workspace-relative paths.
fn validate_paths(raw: &Vec<String>) -> (r: Result<Vec<String>, PathError>)
    ensures
        match r {
            Ok(paths) => normal_paths(texts(raw@), texts(paths@)) && all_paths_ok(texts(raw@)),
            Err(e) => first_bad_path(texts(raw@), e) && !all_paths_ok(texts(raw@)),
        },
{
    broadcast use group_texts;
    let ghost given = texts(raw@);
    let mut out: Vec<String> = Vec::new();
    let mut i: usize = 0;
    while i < raw.len()
        invariant
            i <= raw.len(),
            given == texts(raw@),
            out@.len() == i,
            forall|j: int|
                0 <= j < i ==> normal_path(#[trigger] given[j]) == Ok::<Seq<char>, PathFault>(
                    texts(out@)[j],
                ),
        decreases raw.len() - i,
    {
        assert(given[i as int] == raw@[i as int]@);
        match validate_rel_path(&raw[i]) {
            Ok(path) => out.push(path),
            Err(e) => {
                assert(normal_path(given[i as int]) == Err::<Seq<char>, PathFault>(e.fault));
                return Err(e);
            },
        }
        i += 1;
    }
    Ok(out)
}

/// The rule of its kind that a target breaks first.
pub open spec fn broken_rule(raw: RawTarget) -> Option<KindRule> {
    let no_cmd = match raw.cmd {
        Some(cmd) => trimmed(cmd@).len() == 0,
        None => true,
    };
    match raw.kind {
        TargetKind::CcBinary
        | TargetKind::CcLibrary
        | TargetKind::CcTest
        | TargetKind::KofunBinary => if raw.srcs@.len() == 0 {
            Some(KindRule::NeedsSrcs)
        } else if raw.cmd is Some || raw.inputs@.len() > 0 || raw.outputs@.len() > 0 {
            Some(KindRule::NoGenruleFields)
        } else {
            None
        },
        TargetKind::Genrule | TargetKind::Test | TargetKind::Command => if raw.kind
            == TargetKind::Command && raw.tool is None {
            Some(KindRule::NeedsTool)
        } else if no_cmd && raw.kind != TargetKind::Command && !(raw.kind == TargetKind::Test
            && raw.tool is Some) {
            Some(KindRule::NeedsCmd)
        } else if raw.kind != TargetKind::Test && raw.outputs@.len() == 0 {
            Some(KindRule::NeedsOutputs)
        } else if raw.srcs@.len() > 0 {
            Some(KindRule::NoSrcs)
        } else if raw.cflags@.len() > 0 || raw.ldflags@.len() > 0 {
            Some(KindRule::NoFlags)
        } else {
            None
        },
    }
}

/// The path of a depfile, as a list of none or one.
pub open spec fn depfile_path(depfile: Option<String>) -> Seq<Seq<char>> {
    match depfile {
        Some(path) => seq![path@],
        None => Seq::empty(),
    }
}

/// The paths of a target in one of its lists.
pub open spec fn field_paths(raw: RawTarget, field: PathField) -> Seq<Seq<char>> {
    match field {
        PathField::Srcs => texts(raw.srcs@),
        PathField::Includes => texts(raw.includes@),
        PathField::Inputs => texts(raw.inputs@),
        PathField::Outputs => texts(raw.outputs@),
        PathField::CleanDirs => texts(raw.clean_dirs@),
        PathField::Depfile => depfile_path(raw.depfile),
    }
}

/// The list of paths that is checked before another.
pub open spec fn checked_before(field: PathField) -> Option<PathField> {
    match field {
        PathField::Srcs => None,
        PathField::Includes => Some(PathField::Srcs),
        PathField::Inputs => Some(PathField::Includes),
        PathField::Outputs => Some(PathField::Inputs),
        PathField::CleanDirs => Some(PathField::Outputs),
        PathField::Depfile => Some(PathField::CleanDirs),
    }
}

/// The paths of a list, and of all lists checked before it, are
/// workspace-relative.
pub open spec fn paths_ok_up_to(raw: RawTarget, field: PathField) -> bool {
    &&& all_paths_ok(texts(raw.srcs@))
    &&& field != PathField::Srcs ==> all_paths_ok(texts(raw.includes@))
    &&& field != PathField::Srcs && field != PathField::Includes ==> all_paths_ok(
        texts(raw.inputs@),
    )
    &&& field == PathField::Outputs || field == PathField::CleanDirs || field
        == PathField::Depfile ==> all_paths_ok(texts(raw.outputs@))
    &&& field == PathField::CleanDirs || field == PathField::Depfile ==> all_paths_ok(
        texts(raw.clean_dirs@),
    )
    &&& field == PathField::Depfile ==> all_paths_ok(depfile_path(raw.depfile))
}

/// `fault` is what is wrong first with the target `raw` called `name`.
pub open spec fn target_fault(name: Seq<char>, raw: RawTarget, fault: TargetFault) -> bool {
    match fault {
        TargetFault::Name => !plain_name(name),
        TargetFault::Path { field, error } => {
            &&& plain_name(name)
            &&& match checked_before(field) {
                Some(earlier) => paths_ok_up_to(raw, earlier),
                None => true,
            }
            &&& first_bad_path(field_paths(raw, field), error)
        },
        TargetFault::Kind { kind, rule } => {
            &&& plain_name(name)
            &&& paths_ok_up_to(raw, PathField::Depfile)
            &&& kind == raw.kind
            &&& broken_rule(raw) == Some(rule)
        },
    }
}

/// Nothing is wrong with the target `raw` called `name`.
pub open spec fn target_valid(name: Seq<char>, raw: RawTarget) -> bool {
    plain_name(name) && paths_ok_up_to(raw, PathField::Depfile) && broken_rule(raw) is None
}

/// Two lists of steps name the same tools with the same arguments.
pub open spec fn same_steps(a: Seq<Step>, b: Seq<Step>) -> bool {
    a.len() == b.len() && forall|i: int|
        0 <= i < a.len() ==> (#[trigger] a[i]).tool@ == b[i].tool@ && texts(a[i].args@) == texts(
            b[i].args@,
        )
}

/// `t` is the target that `raw` declares under `name`: its paths are in normal
/// form, it is sandboxed unless it says otherwise, and all else is as it was.
pub open spec fn declared(name: Seq<char>, raw: RawTarget, t: Target) -> bool {
    &&& t.name@ == name
    &&& t.kind == raw.kind
    &&& normal_paths(texts(raw.srcs@), texts(t.srcs@))
    &&& texts(t.deps@) == texts(raw.deps@)
    &&& normal_paths(texts(raw.includes@), texts(t.includes@))
    &&& texts(t.cflags@) == texts(raw.cflags@)
    &&& texts(t.ldflags@) == texts(raw.ldflags@)
    &&& t.cmd == raw.cmd
    &&& t.tool == raw.tool
    &&& texts(t.args@) == texts(raw.args@)
    &&& same_steps(t.steps@, raw.steps@)
    &&& normal_paths(texts(raw.inputs@), texts(t.inputs@))
    &&& normal_paths(texts(raw.outputs@), texts(t.outputs@))
    &&& normal_paths(depfile_path(raw.depfile), depfile_path(t.depfile))
    &&& normal_paths(texts(raw.clean_dirs@), texts(t.clean_dirs@))
    &&& t.preserve_outputs == raw.preserve_outputs
    &&& t.env.wf() && pairs(t.env) == pairs(raw.env)
    &&& texts(t.pass_env@) == texts(raw.pass_env@)
    &&& t.sandbox == (match raw.sandbox { Some(b) => b, None => true })
    &&& t.package@ == Seq::<char>::empty()
}

fn copy_steps(steps: &Vec<Step>) -> (r: Vec<Step>)
    ensures
        same_steps(r@, steps@),
{
    let mut out: Vec<Step> = Vec::new();
    let mut i: usize = 0;
    while i < steps.len()
        invariant
            i <= steps.len(),
            out@.len() == i,
            forall|j: int|
                0 <= j < i ==> (#[trigger] out@[j]).tool@ == steps@[j].tool@ && texts(
                    out@[j].args@,
                ) == texts(steps@[j].args@),
        decreases steps.len() - i,
    {
        out.push(Step { tool: copy(&steps[i].tool), args: copies(&steps[i].args) });
        i += 1;
    }
    out
}

/// The target that `raw` declares under `name`.
fn build_target(name: &str, raw: &RawTarget) -> (r: Result<Target, TargetFault>)
    requires
        raw.env.wf(),
    ensures
        match r {
            Ok(t) => target_valid(name@, *raw) && declared(name@, *raw, t),
            Err(fault) => !target_valid(name@, *raw) && target_fault(name@, *raw, fault),
        },
{
    broadcast use group_texts;
    if !valid_target_name(name) {
        return Err(TargetFault::Name);
    }
    let srcs = match validate_paths(&raw.srcs) {
        Ok(paths) => paths,
        Err(error) => {
            return Err(TargetFault::Path { field: PathField::Srcs, error });
        },
    };
    let includes = match validate_paths(&raw.includes) {
        Ok(paths) => paths,
        Err(error) => {
            return Err(TargetFault::Path { field: PathField::Includes, error });
        },
    };
    let inputs = match validate_paths(&raw.inputs) {
        Ok(paths) => paths,
        Err(error) => {
            return Err(TargetFault::Path { field: PathField::Inputs, error });
        },
    };
    let outputs = match validate_paths(&raw.outputs) {
        Ok(paths) => paths,
        Err(error) => {
            return Err(TargetFault::Path { field: PathField::Outputs, error });
        },
    };
    let clean_dirs = match validate_paths(&raw.clean_dirs) {
        Ok(paths) => paths,
        Err(error) => {
            return Err(TargetFault::Path { field: PathField::CleanDirs, error });
        },
    };
    let depfile = match &raw.depfile {
        Some(path) => {
            assert(depfile_path(raw.depfile)[0] == path@);
            match validate_rel_path(path) {
                Ok(path) => Some(path),
                Err(error) => {
                    return Err(TargetFault::Path { field: PathField::Depfile, error });
                },
            }
        },
        None => None,
    };
    assert(paths_ok_up_to(*raw, PathField::Depfile));
    let no_cmd = match &raw.cmd {
        Some(cmd) => trim(cmd).as_str().is_empty(),
        None => true,
    };
    let kind = raw.kind;
    let rule = match kind {
        TargetKind::CcBinary
        | TargetKind::CcLibrary
        | TargetKind::CcTest
        | TargetKind::KofunBinary => {
            if srcs.len() == 0 {
                Some(KindRule::NeedsSrcs)
            } else if raw.cmd.is_some() || inputs.len() > 0 || outputs.len() > 0 {
                Some(KindRule::NoGenruleFields)
            } else {
                None
            }
        },
        TargetKind::Genrule | TargetKind::Test | TargetKind::Command => {
            if kind == TargetKind::Command && raw.tool.is_none() {
                Some(KindRule::NeedsTool)
            } else if no_cmd && kind != TargetKind::Command && !(kind == TargetKind::Test
                && raw.tool.is_some()) {
                Some(KindRule::NeedsCmd)
            } else if kind != TargetKind::Test && outputs.len() == 0 {
                Some(KindRule::NeedsOutputs)
            } else if srcs.len() > 0 {
                Some(KindRule::NoSrcs)
            } else if raw.cflags.len() > 0 || raw.ldflags.len() > 0 {
                Some(KindRule::NoFlags)
            } else {
                None
            }
        },
    };
    assert(rule == broken_rule(*raw));
    if let Some(rule) = rule {
        return Err(TargetFault::Kind { kind, rule });
    }
    Ok(
        Target {
            name: copy(name),
            kind,
            srcs,
            deps: copies(&raw.deps),
            includes,
            cflags: copies(&raw.cflags),
            ldflags: copies(&raw.ldflags),
            cmd: copy_option(&raw.cmd),
            tool: copy_option(&raw.tool),
            args: copies(&raw.args),
            steps: copy_steps(&raw.steps),
            inputs,
            outputs,
            depfile,
            clean_dirs,
            preserve_outputs: raw.preserve_outputs,
            env: copy_pairs(&raw.env),
            pass_env: copies(&raw.pass_env),
            sandbox: match raw.sandbox {
                Some(b) => b,
                None => true,
            },
            package: String::new(),
        },
    )
}

/// Why a workspace is refused.
#[derive(Debug)]
pub enum ManifestError {
    InvalidTarget { name: String, fault: TargetFault },
    ReservedPlatform,
    PlatformName { name: String },
    NoTargets,
    DependsOnItself { target: String },
    UnknownDep { target: String, dep: String },
    UnknownDefault { name: String },
    DuplicateLabel { label: String },
    NothingMatched { target: String, field: PathField, pattern: String },
}

impl ManifestError {
    /// The text that reports the error.
    pub open spec fn text(self) -> Seq<char> {
        match self {
            ManifestError::InvalidTarget { name, fault } => "invalid target "@ + debug_text(name@)
                + ": "@ + fault.text(),
            ManifestError::ReservedPlatform => "platform name "@ + debug_text(HOST_PLATFORM@)
                + " is reserved for the root [toolchain]"@,
            ManifestError::PlatformName { name } => "platform name must match [A-Za-z0-9_-]+, got "@
                + debug_text(name@),
            ManifestError::NoTargets => "manifest declares no [target.*] sections"@,
            ManifestError::DependsOnItself { target } => "target "@ + debug_text(target@)
                + " depends on itself"@,
            ManifestError::UnknownDep { target, dep } => "target "@ + debug_text(target@)
                + " has unknown dep "@ + debug_text(dep@),
            ManifestError::UnknownDefault { name } =>
                "workspace.default_targets names unknown target "@ + debug_text(name@),
            ManifestError::DuplicateLabel { label } => "duplicate target label "@ + debug_text(
                label@,
            ),
            ManifestError::NothingMatched { target, field, pattern } => "target "@ + debug_text(
                target@,
            ) + " "@ + field.text() + ": "@ + debug_text(pattern@) + " matched no files"@,
        }
    }

    /// Reports the error.
    pub fn message(&self) -> (r: String)
        ensures
            r@ == self.text(),
    {
        match self {
            ManifestError::InvalidTarget { name, fault } => {
                let mut out = copy("invalid target ");
                out.append(&quoted(name));
                out.append(": ");
                out.append(&fault.message());
                out
            },
            ManifestError::ReservedPlatform => {
                let mut out = copy("platform name ");
                out.append(&quoted(HOST_PLATFORM));
                out.append(" is reserved for the root [toolchain]");
                out
            },
            ManifestError::PlatformName { name } => {
                let mut out = copy("platform name must match [A-Za-z0-9_-]+, got ");
                out.append(&quoted(name));
                out
            },
            ManifestError::NoTargets => copy("manifest declares no [target.*] sections"),
            ManifestError::DependsOnItself { target } => {
                let mut out = copy("target ");
                out.append(&quoted(target));
                out.append(" depends on itself");
                out
            },
            ManifestError::UnknownDep { target, dep } => {
                let mut out = copy("target ");
                out.append(&quoted(target));
                out.append(" has unknown dep ");
                out.append(&quoted(dep));
                out
            },
            ManifestError::UnknownDefault { name } => {
                let mut out = copy("workspace.default_targets names unknown target ");
                out.append(&quoted(name));
                out
            },
            ManifestError::DuplicateLabel { label } => {
                let mut out = copy("duplicate target label ");
                out.append(&quoted(label));
                out
            },
            ManifestError::NothingMatched { target, field, pattern } => {
                let mut out = copy("target ");
                out.append(&quoted(target));
                out.append(" ");
                out.append(field.as_str());
                out.append(": ");
                out.append(&quoted(pattern));
                out.append(" matched no files");
                out
            },
        }
    }
}

/// A name that a platform may have.
pub open spec fn platform_name_ok(name: Seq<char>) -> bool {
    name != HOST_PLATFORM@ && plain_name(name)
}

/// Two platforms set the same drivers and flags.
pub open spec fn same_platform(a: Platform, b: Platform) -> bool {
    &&& a.cc == b.cc
    &&& a.cxx == b.cxx
    &&& a.ar == b.ar
    &&& a.kofunc == b.kofunc
    &&& match (a.arflags, b.arflags) {
        (Some(x), Some(y)) => texts(x@) == texts(y@),
        (None, None) => true,
        _ => false,
    }
    &&& a.sysroot == b.sysroot
    &&& texts(a.cflags@) == texts(b.cflags@)
    &&& texts(a.cxxflags@) == texts(b.cxxflags@)
    &&& texts(a.ldflags@) == texts(b.ldflags@)
    &&& pairs(a.tools) == pairs(b.tools)
    &&& a.tools.wf()
}

/// Two profiles set the same flags.
pub open spec fn same_profile(a: Profile, b: Profile) -> bool {
    &&& texts(a.cflags@) == texts(b.cflags@)
    &&& texts(a.cxxflags@) == texts(b.cxxflags@)
    &&& texts(a.ldflags@) == texts(b.ldflags@)
}

/// The root toolchain of a manifest file, with the drivers that are not set.
pub open spec fn root_toolchain(raw: RawToolchain, t: Toolchain) -> bool {
    &&& t.cc@ == (match raw.cc { Some(s) => s@, None => "cc"@ })
    &&& t.cxx@ == (match raw.cxx { Some(s) => s@, None => "c++"@ })
    &&& t.ar@ == (match raw.ar { Some(s) => s@, None => "ar"@ })
    &&& t.kofunc == raw.kofunc
    &&& texts(t.arflags@) == (match raw.arflags { Some(v) => texts(v@), None => seq!["rcsD"@] })
    &&& texts(t.cflags@) == texts(raw.cflags@)
    &&& texts(t.cxxflags@) == texts(raw.cxxflags@)
    &&& texts(t.ldflags@) == texts(raw.ldflags@)
    &&& pairs(t.tools) == pairs(raw.tools)
    &&& t.tools.wf()
}

/// The names of the targets that are built without being asked for: those the
/// workspace lists; else its C and C++ binaries; else all.
pub open spec fn defaults(listed: Seq<Seq<char>>, targets: SortedMap<Target>) -> Seq<Seq<char>> {
    let binaries = targets.values@.filter(|t: Target| t.kind == TargetKind::CcBinary).map_values(
        |t: Target| t.name@,
    );
    if listed.len() > 0 {
        listed
    } else if binaries.len() > 0 {
        binaries
    } else {
        targets.names()
    }
}

/// `m` is the workspace that the manifest file `raw` declares.
pub open spec fn made_from(raw: RawManifest, m: Manifest) -> bool {
    &&& m.targets.wf() && m.targets.names() == raw.targets.names()
    &&& forall|i: int|
        0 <= i < raw.targets.values@.len() ==> declared(
            raw.targets.keys@[i]@,
            raw.targets.values@[i],
            #[trigger] m.targets.values@[i],
        )
    &&& m.platforms.wf() && m.platforms.names() == raw.platforms.names()
    &&& forall|i: int|
        0 <= i < raw.platforms.values@.len() ==> same_platform(
            #[trigger] m.platforms.values@[i],
            raw.platforms.values@[i],
        )
    &&& m.profiles.wf() && m.profiles.names() == raw.profiles.names()
    &&& forall|i: int|
        0 <= i < raw.profiles.values@.len() ==> same_profile(
            #[trigger] m.profiles.values@[i],
            raw.profiles.values@[i],
        )
    &&& root_toolchain(raw.toolchain, m.toolchain)
    &&& texts(m.default_targets@) == defaults(texts(raw.default_targets@), m.targets)
    &&& m.manifest_paths@.len() == 0
}

/// Every declared target is valid.
pub open spec fn targets_valid(raw: RawManifest) -> bool {
    forall|i: int| #![trigger raw.targets.keys@[i]]
        0 <= i < raw.targets.keys@.len() ==> target_valid(
            raw.targets.keys@[i]@,
            raw.targets.values@[i],
        )
}

/// Every declared platform has a name that platforms may have.
pub open spec fn platforms_valid(raw: RawManifest) -> bool {
    forall|i: int|
        0 <= i < raw.platforms.keys@.len() ==> platform_name_ok(
            (#[trigger] raw.platforms.keys@[i])@,
        )
}

/// `e` reports the first target that is not valid, or else the first platform
/// with a name that it may not have.
pub open spec fn declaration_error(raw: RawManifest, e: ManifestError) -> bool {
    match e {
        ManifestError::InvalidTarget { name, fault } => exists|i: int| #![trigger raw.targets.keys@[i]]
            0 <= i < raw.targets.keys@.len() && raw.targets.keys@[i]@ == name@ && target_fault(
                name@,
                raw.targets.values@[i],
                fault,
            ) && forall|j: int| #![trigger raw.targets.keys@[j]]
                0 <= j < i ==> target_valid(raw.targets.keys@[j]@, raw.targets.values@[j]),
        ManifestError::ReservedPlatform => targets_valid(raw) && exists|i: int| #![trigger raw.platforms.keys@[i]]
            0 <= i < raw.platforms.keys@.len() && raw.platforms.keys@[i]@ == HOST_PLATFORM@
                && forall|j: int|
                0 <= j < i ==> platform_name_ok((#[trigger] raw.platforms.keys@[j])@),
        ManifestError::PlatformName { name } => targets_valid(raw) && exists|i: int| #![trigger raw.platforms.keys@[i]]
            0 <= i < raw.platforms.keys@.len() && raw.platforms.keys@[i]@ == name@ && name@
                != HOST_PLATFORM@ && !plain_name(name@) && forall|j: int|
                0 <= j < i ==> platform_name_ok((#[trigger] raw.platforms.keys@[j])@),
        _ => false,
    }
}

fn copy_platform(p: &Platform) -> (r: Platform)
    requires
        p.tools.wf(),
    ensures
        same_platform(r, *p),
{
    Platform {
        cc: copy_option(&p.cc),
        cxx: copy_option(&p.cxx),
        ar: copy_option(&p.ar),
        kofunc: copy_option(&p.kofunc),
        arflags: match &p.arflags {
            Some(flags) => Some(copies(flags)),
            None => None,
        },
        sysroot: copy_option(&p.sysroot),
        cflags: copies(&p.cflags),
        cxxflags: copies(&p.cxxflags),
        ldflags: copies(&p.ldflags),
        tools: copy_pairs(&p.tools),
    }
}

fn or_default(value: &Option<String>, default: &str) -> (r: String)
    ensures
        r@ == (match *value {
            Some(s) => s@,
            None => default@,
        }),
{
    match value {
        Some(s) => copy(s),
        None => copy(default),
    }
}

impl Manifest {
    /// The workspace that one manifest file declares, each of its targets and
    /// platforms checked by itself.
    pub fn from_raw_unvalidated(raw: &RawManifest) -> (r: Result<Manifest, ManifestError>)
        requires
            raw.wf(),
        ensures
            match r {
                Ok(m) => targets_valid(*raw) && platforms_valid(*raw) && made_from(*raw, m),
                Err(e) => declaration_error(*raw, e),
            },
    {
        broadcast use group_texts;
        let mut values: Vec<Target> = Vec::new();
        let mut binaries: Vec<String> = Vec::new();
        let ghost binary = |t: Target| t.kind == TargetKind::CcBinary;
        let ghost named = |t: Target| t.name@;
        let mut i: usize = 0;
        proof {
            reveal(Seq::filter);
            assert(values@.filter(binary).map_values(named) =~= Seq::empty());
        }
        while i < raw.targets.keys.len()
            invariant
                raw.wf(),
                i <= raw.targets.keys@.len(),
                values@.len() == i,
                binary == (|t: Target| t.kind == TargetKind::CcBinary),
                named == (|t: Target| t.name@),
                texts(binaries@) == values@.filter(binary).map_values(named),
                forall|j: int| #![trigger raw.targets.keys@[j]]
                    0 <= j < i ==> target_valid(raw.targets.keys@[j]@, raw.targets.values@[j]),
                forall|j: int|
                    0 <= j < i ==> declared(
                        raw.targets.keys@[j]@,
                        raw.targets.values@[j],
                        #[trigger] values@[j],
                    ),
            decreases raw.targets.keys@.len() - i,
        {
            match build_target(&raw.targets.keys[i], &raw.targets.values[i]) {
                Ok(target) => {
                    let ghost before = values@;
                    if target.kind == TargetKind::CcBinary {
                        binaries.push(copy(&target.name));
                    }
                    values.push(target);
                    proof {
                        before.lemma_filter_push(target, binary);
                        before.filter(binary).lemma_push_map_commute(named, target);
                    }
                },
                Err(fault) => {
                    return Err(
                        ManifestError::InvalidTarget { name: copy(&raw.targets.keys[i]), fault },
                    );
                },
            }
            i += 1;
        }
        let targets = SortedMap { keys: copies(&raw.targets.keys), values };
        let default_targets = if raw.default_targets.len() > 0 {
            copies(&raw.default_targets)
        } else if binaries.len() > 0 {
            binaries
        } else {
            copies(&targets.keys)
        };
        let mut overlays: Vec<Platform> = Vec::new();
        let mut k: usize = 0;
        while k < raw.platforms.keys.len()
            invariant
                raw.wf(),
                targets_valid(*raw),
                k <= raw.platforms.keys@.len(),
                overlays@.len() == k,
                forall|j: int| 0 <= j < k ==> platform_name_ok((#[trigger] raw.platforms.keys@[j])@),
                forall|j: int|
                    0 <= j < k ==> same_platform(
                        #[trigger] overlays@[j],
                        raw.platforms.values@[j],
                    ),
            decreases raw.platforms.keys@.len() - k,
        {
            let name = &raw.platforms.keys[k];
            if same(name, HOST_PLATFORM) {
                return Err(ManifestError::ReservedPlatform);
            }
            if !valid_target_name(name) {
                return Err(ManifestError::PlatformName { name: copy(name) });
            }
            overlays.push(copy_platform(&raw.platforms.values[k]));
            k += 1;
        }
        let mut profiles: Vec<Profile> = Vec::new();
        let mut p: usize = 0;
        while p < raw.profiles.keys.len()
            invariant
                raw.wf(),
                p <= raw.profiles.keys@.len(),
                profiles@.len() == p,
                forall|j: int|
                    0 <= j < p ==> same_profile(#[trigger] profiles@[j], raw.profiles.values@[j]),
            decreases raw.profiles.keys@.len() - p,
        {
            let profile = &raw.profiles.values[p];
            profiles.push(
                Profile {
                    cflags: copies(&profile.cflags),
                    cxxflags: copies(&profile.cxxflags),
                    ldflags: copies(&profile.ldflags),
                },
            );
            p += 1;
        }
        let arflags = match &raw.toolchain.arflags {
            Some(flags) => copies(flags),
            None => {
                let mut flags: Vec<String> = Vec::new();
                flags.push(copy("rcsD"));
                assert(texts(flags@) =~= seq!["rcsD"@]);
                flags
            },
        };
        let m = Manifest {
            default_targets,
            toolchain: Toolchain {
                cc: or_default(&raw.toolchain.cc, "cc"),
                cxx: or_default(&raw.toolchain.cxx, "c++"),
                ar: or_default(&raw.toolchain.ar, "ar"),
                kofunc: copy_option(&raw.toolchain.kofunc),
                arflags,
                cflags: copies(&raw.toolchain.cflags),
                cxxflags: copies(&raw.toolchain.cxxflags),
                ldflags: copies(&raw.toolchain.ldflags),
                tools: copy_pairs(&raw.toolchain.tools),
            },
            platforms: SortedMap { keys: copies(&raw.platforms.keys), values: overlays },
            profiles: SortedMap { keys: copies(&raw.profiles.keys), values: profiles },
            targets,
            manifest_paths: Vec::new(),
        };
        Ok(m)
    }
}

} // verus!
