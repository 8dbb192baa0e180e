//! What a workspace holds, in terms of what its manifest files declare.

use vstd::prelude::*;

use crate::manifest::{Manifest, Target, TargetKind};
use crate::paths::{normal_path, PathFault};
use crate::raw::{valid_target_name, ManifestError, RawManifest};
use crate::sorted_map::{ascending, in_order_means, pairs};
use crate::text::{begins, is_alphanumeric, texts, trimmed};
use crate::workspace::{
    all_in_package, all_stand_for, expand_paths, expanded, has_glob, in_package, is_pattern,
    matched, nothing_lost, prefix_path, resolve_label, root_labels, stands_for, usable,
    without_colons, Match, Matches,
};

verus! {

/// A name is valid exactly where it is not empty and made of letters, digits,
/// underscores and hyphens.
pub proof fn valid_names(name: &str, r: bool)
    requires
        call_ensures(valid_target_name, (name,), r),
    ensures
        r <==> name@.len() > 0 && forall|i: int|
            0 <= i < name@.len() ==> is_alphanumeric(#[trigger] name@[i]) || name@[i] == '_'
                || name@[i] == '-',
{
}

/// An accepted workspace has every target that its file declares and no other,
/// each as it was declared: kind, dependencies, flags, command, tool, arguments,
/// environment; with as many sources, inputs, outputs, include and clean
/// directories, each in its normal form; and kept apart from other files unless
/// it says otherwise.
pub proof fn targets_are_as_declared(raw: RawManifest, m: Manifest, i: int)
    requires
        raw.wf(),
        call_ensures(Manifest::from_raw, (&raw,), Ok::<Manifest, ManifestError>(m)),
        0 <= i < raw.targets.values@.len(),
    ensures
        m.targets.names() == raw.targets.names(),
        m.targets.values@.len() == raw.targets.values@.len(),
        ({
            let x = raw.targets.values@[i];
            let t = m.targets.values@[i];
            &&& t.name@ == raw.targets.keys@[i]@
            &&& t.kind == x.kind
            &&& texts(t.deps@) == texts(x.deps@)
            &&& texts(t.cflags@) == texts(x.cflags@)
            &&& texts(t.ldflags@) == texts(x.ldflags@)
            &&& t.cmd == x.cmd
            &&& t.tool == x.tool
            &&& texts(t.args@) == texts(x.args@)
            &&& texts(t.pass_env@) == texts(x.pass_env@)
            &&& pairs(t.env) == pairs(x.env)
            &&& t.preserve_outputs == x.preserve_outputs
            &&& t.sandbox == (x.sandbox != Some(false))
            &&& t.steps@.len() == x.steps@.len()
            &&& forall|k: int|
                #![trigger t.steps@[k]]
                0 <= k < t.steps@.len() ==> t.steps@[k].tool@ == x.steps@[k].tool@ && texts(
                    t.steps@[k].args@,
                ) == texts(x.steps@[k].args@)
            &&& t.srcs@.len() == x.srcs@.len()
            &&& forall|k: int|
                #![trigger t.srcs@[k]]
                0 <= k < t.srcs@.len() ==> normal_path(x.srcs@[k]@) == Ok::<
                    Seq<char>,
                    PathFault,
                >(t.srcs@[k]@)
            &&& t.inputs@.len() == x.inputs@.len()
            &&& forall|k: int|
                #![trigger t.inputs@[k]]
                0 <= k < t.inputs@.len() ==> normal_path(x.inputs@[k]@) == Ok::<
                    Seq<char>,
                    PathFault,
                >(t.inputs@[k]@)
            &&& t.outputs@.len() == x.outputs@.len()
            &&& forall|k: int|
                #![trigger t.outputs@[k]]
                0 <= k < t.outputs@.len() ==> normal_path(x.outputs@[k]@) == Ok::<
                    Seq<char>,
                    PathFault,
                >(t.outputs@[k]@)
            &&& t.includes@.len() == x.includes@.len()
            &&& forall|k: int|
                #![trigger t.includes@[k]]
                0 <= k < t.includes@.len() ==> normal_path(x.includes@[k]@) == Ok::<
                    Seq<char>,
                    PathFault,
                >(t.includes@[k]@)
            &&& t.clean_dirs@.len() == x.clean_dirs@.len()
            &&& forall|k: int|
                #![trigger t.clean_dirs@[k]]
                0 <= k < t.clean_dirs@.len() ==> normal_path(x.clean_dirs@[k]@) == Ok::<
                    Seq<char>,
                    PathFault,
                >(t.clean_dirs@[k]@)
            &&& t.depfile is Some <==> x.depfile is Some
        }),
{
    let x = raw.targets.values@[i];
    let t = m.targets.values@[i];
    assert(m.targets.names().len() == raw.targets.names().len());
    assert(crate::raw::declared(raw.targets.keys@[i]@, x, t));
    in_step(texts(x.srcs@), x.srcs@, texts(t.srcs@), t.srcs@);
    in_step(texts(x.inputs@), x.inputs@, texts(t.inputs@), t.inputs@);
    in_step(texts(x.outputs@), x.outputs@, texts(t.outputs@), t.outputs@);
    in_step(texts(x.includes@), x.includes@, texts(t.includes@), t.includes@);
    in_step(texts(x.clean_dirs@), x.clean_dirs@, texts(t.clean_dirs@), t.clean_dirs@);
    assert(crate::raw::depfile_path(x.depfile).len() == crate::raw::depfile_path(t.depfile).len());
    assert forall|k: int| #![trigger t.steps@[k]] 0 <= k < t.steps@.len() implies t.steps@[k].tool@
        == x.steps@[k].tool@ && texts(t.steps@[k].args@) == texts(x.steps@[k].args@) by {}
}

proof fn in_step(a: Seq<Seq<char>>, x: Seq<String>, b: Seq<Seq<char>>, y: Seq<String>)
    requires
        a == texts(x),
        b == texts(y),
        crate::raw::normal_paths(a, b),
    ensures
        x.len() == y.len(),
        forall|k: int|
            #![trigger y[k]]
            0 <= k < y.len() ==> normal_path(x[k]@) == Ok::<Seq<char>, PathFault>(y[k]@),
{
    assert(a.len() == x.len() && b.len() == y.len());
    assert forall|k: int|
        #![trigger y[k]]
        0 <= k < y.len() implies normal_path(x[k]@) == Ok::<Seq<char>, PathFault>(y[k]@) by {
        assert(a[k] == x[k]@);
        assert(b[k] == y[k]@);
    }
}

/// In an accepted workspace every target keeps the rules of its kind: what is
/// compiled has sources and neither a command nor inputs or outputs; a genrule has
/// a command and outputs, a test a command or a tool, a command a tool and
/// outputs, and none of these has sources or flags. Names are plain, every
/// dependency is another target, and every default target is a target.
pub proof fn rules_are_kept(raw: RawManifest, m: Manifest, i: int, j: int)
    requires
        raw.wf(),
        call_ensures(Manifest::from_raw, (&raw,), Ok::<Manifest, ManifestError>(m)),
        0 <= i < raw.targets.values@.len(),
    ensures
        ({
            let x = raw.targets.values@[i];
            let name = raw.targets.keys@[i]@;
            let no_cmd = x.cmd is None || trimmed(x.cmd->0@).len() == 0;
            &&& name.len() > 0
            &&& forall|k: int|
                0 <= k < name.len() ==> is_alphanumeric(#[trigger] name[k]) || name[k] == '_'
                    || name[k] == '-'
            &&& x.kind == TargetKind::CcBinary || x.kind == TargetKind::CcLibrary || x.kind
                == TargetKind::CcTest || x.kind == TargetKind::KofunBinary ==> x.srcs@.len() > 0
                && x.cmd is None && x.inputs@.len() == 0 && x.outputs@.len() == 0
            &&& x.kind == TargetKind::Genrule ==> !no_cmd && x.outputs@.len() > 0
            &&& x.kind == TargetKind::Test ==> !no_cmd || x.tool is Some
            &&& x.kind == TargetKind::Command ==> x.tool is Some && x.outputs@.len() > 0
            &&& x.kind == TargetKind::Genrule || x.kind == TargetKind::Test || x.kind
                == TargetKind::Command ==> x.srcs@.len() == 0 && x.cflags@.len() == 0
                && x.ldflags@.len() == 0
            &&& 0 <= j < x.deps@.len() ==> raw.targets.names().contains(x.deps@[j]@) && x.deps@[j]@
                != name
            &&& 0 <= j < m.default_targets@.len() ==> raw.targets.names().contains(
                m.default_targets@[j]@,
            )
        }),
{
    let x = raw.targets.values@[i];
    assert(m.targets.names().len() == raw.targets.names().len());
    let t = m.targets.values@[i];
    assert(crate::raw::declared(raw.targets.keys@[i]@, x, t));
    assert(crate::raw::target_valid(raw.targets.keys@[i]@, x));
    if 0 <= j < x.deps@.len() {
        assert(texts(x.deps@)[j] == x.deps@[j]@);
        assert(texts(t.deps@).len() == t.deps@.len());
        assert(texts(t.deps@)[j] == t.deps@[j]@);
        assert(crate::workspace::dep_ok(m.targets, i, j));
    }
    if 0 <= j < m.default_targets@.len() {
        assert(m.targets.has(m.default_targets@[j]@));
    }
}

/// A file whose targets keep the rules is accepted.
pub proof fn sound_manifest_is_accepted(raw: RawManifest, r: Result<Manifest, ManifestError>)
    requires
        raw.wf(),
        call_ensures(Manifest::from_raw, (&raw,), r),
        raw.targets.keys@.len() > 0,
        raw.platforms.keys@.len() == 0,
        forall|k: int|
            0 <= k < raw.default_targets@.len() ==> raw.targets.has(
                (#[trigger] raw.default_targets@[k])@,
            ),
        forall|i: int|
            #![trigger raw.targets.values@[i]]
            0 <= i < raw.targets.values@.len() ==> ({
                let x = raw.targets.values@[i];
                let name = raw.targets.keys@[i]@;
                &&& name.len() > 0
                &&& forall|k: int|
                    0 <= k < name.len() ==> is_alphanumeric(#[trigger] name[k]) || name[k] == '_'
                        || name[k] == '-'
                &&& forall|k: int|
                    0 <= k < x.deps@.len() ==> (#[trigger] x.deps@[k])@ != name && raw.targets.has(
                        x.deps@[k]@,
                    )
                &&& forall|k: int|
                    0 <= k < x.srcs@.len() ==> normal_path((#[trigger] x.srcs@[k])@) is Ok
                &&& forall|k: int|
                    0 <= k < x.includes@.len() ==> normal_path((#[trigger] x.includes@[k])@) is Ok
                &&& forall|k: int|
                    0 <= k < x.inputs@.len() ==> normal_path((#[trigger] x.inputs@[k])@) is Ok
                &&& forall|k: int|
                    0 <= k < x.outputs@.len() ==> normal_path((#[trigger] x.outputs@[k])@) is Ok
                &&& x.clean_dirs@.len() == 0
                &&& x.depfile is None
                &&& match x.kind {
                    TargetKind::CcBinary
                    | TargetKind::CcLibrary
                    | TargetKind::CcTest
                    | TargetKind::KofunBinary => x.srcs@.len() > 0 && x.cmd is None
                        && x.inputs@.len() == 0 && x.outputs@.len() == 0,
                    TargetKind::Genrule => x.cmd is Some && trimmed(x.cmd->0@).len() > 0
                        && x.outputs@.len() > 0 && x.srcs@.len() == 0 && x.cflags@.len() == 0
                        && x.ldflags@.len() == 0,
                    TargetKind::Test => (x.tool is Some || x.cmd is Some && trimmed(
                        x.cmd->0@,
                    ).len() > 0) && x.srcs@.len() == 0 && x.cflags@.len() == 0
                        && x.ldflags@.len() == 0,
                    TargetKind::Command => x.tool is Some && x.outputs@.len() > 0 && x.srcs@.len()
                        == 0 && x.cflags@.len() == 0 && x.ldflags@.len() == 0,
                }
            }),
    ensures
        r is Ok,
{
    assert forall|i: int|
        #![trigger raw.targets.keys@[i]]
        0 <= i < raw.targets.keys@.len() implies crate::raw::target_valid(
        raw.targets.keys@[i]@,
        raw.targets.values@[i],
    ) by {
        let x = raw.targets.values@[i];
        let none = Seq::<Seq<char>>::empty();
        assert(texts(x.clean_dirs@) =~= none);
        assert forall|k: int| 0 <= k < texts(x.srcs@).len() implies normal_path(
            #[trigger] texts(x.srcs@)[k],
        ) is Ok by {
            assert(normal_path(x.srcs@[k]@) is Ok);
        }
        assert forall|k: int| 0 <= k < texts(x.includes@).len() implies normal_path(
            #[trigger] texts(x.includes@)[k],
        ) is Ok by {
            assert(normal_path(x.includes@[k]@) is Ok);
        }
        assert forall|k: int| 0 <= k < texts(x.inputs@).len() implies normal_path(
            #[trigger] texts(x.inputs@)[k],
        ) is Ok by {
            assert(normal_path(x.inputs@[k]@) is Ok);
        }
        assert forall|k: int| 0 <= k < texts(x.outputs@).len() implies normal_path(
            #[trigger] texts(x.outputs@)[k],
        ) is Ok by {
            assert(normal_path(x.outputs@[k]@) is Ok);
        }
    }
    if let Err(e) = r {
        assert(!crate::raw::declaration_error(raw, e)) by {
            if crate::raw::declaration_error(raw, e) {
                if let ManifestError::InvalidTarget { name, fault } = e {
                    let i = choose|i: int|
                        #![trigger raw.targets.keys@[i]]
                        0 <= i < raw.targets.keys@.len() && raw.targets.keys@[i]@ == name@
                            && crate::raw::target_fault(name@, raw.targets.values@[i], fault);
                    assert(crate::raw::target_valid(raw.targets.keys@[i]@, raw.targets.values@[i]));
                    no_fault(name@, raw.targets.values@[i], fault);
                }
            }
        }
        let m = choose|m: Manifest| #[trigger]
            crate::raw::made_from(raw, m) && crate::workspace::refused(m, e);
        assert(m.targets.names().len() == raw.targets.names().len());
        assert forall|i: int, j: int|
            0 <= i < m.targets.values@.len() && 0 <= j
                < m.targets.values@[i].deps@.len() implies #[trigger] crate::workspace::dep_ok(
            m.targets,
            i,
            j,
        ) by {
            let x = raw.targets.values@[i];
            let t = m.targets.values@[i];
            assert(crate::raw::declared(raw.targets.keys@[i]@, x, t));
            assert(texts(t.deps@)[j] == t.deps@[j]@);
            assert(texts(x.deps@).len() == x.deps@.len());
            assert(texts(x.deps@)[j] == x.deps@[j]@);
        }
        assert(!crate::workspace::dep_error(m.targets, e)) by {
            if crate::workspace::dep_error(m.targets, e) {
                let (i, j) = choose|i: int, j: int| #[trigger]
                    crate::workspace::dep_reported(m.targets, i, j, e) && 0 <= i
                        < m.targets.values@.len() && 0 <= j < m.targets.values@[i].deps@.len();
                assert(crate::workspace::dep_ok(m.targets, i, j));
            }
        }
        assert forall|j: int| 0 <= j < m.default_targets@.len() implies m.targets.has(
            (#[trigger] m.default_targets@[j])@,
        ) by {
            default_is_target(raw, m, j);
        }
    }
}

proof fn no_fault(name: Seq<char>, x: crate::raw::RawTarget, fault: crate::raw::TargetFault)
    requires
        crate::raw::target_valid(name, x),
    ensures
        !crate::raw::target_fault(name, x, fault),
{
    if let crate::raw::TargetFault::Path { field, error } = fault {
        let all = crate::raw::field_paths(x, field);
        if crate::raw::first_bad_path(all, error) {
            let i = choose|i: int|
                #![trigger all[i]]
                0 <= i < all.len() && normal_path(all[i]) is Err;
            assert(normal_path(all[i]) is Ok);
        }
    }
}

/// The default targets of a workspace are those that it lists, or its programs,
/// or all; so they are targets where those that it lists are.
proof fn default_is_target(raw: RawManifest, m: Manifest, j: int)
    requires
        raw.wf(),
        crate::raw::made_from(raw, m),
        0 <= j < m.default_targets@.len(),
        forall|k: int|
            0 <= k < raw.default_targets@.len() ==> raw.targets.has(
                (#[trigger] raw.default_targets@[k])@,
            ),
    ensures
        m.targets.has(m.default_targets@[j]@),
{
    let name = m.default_targets@[j]@;
    let all = texts(m.default_targets@);
    assert(all[j] == name);
    let listed = texts(raw.default_targets@);
    let binary = |t: Target| t.kind == TargetKind::CcBinary;
    let named = |t: Target| t.name@;
    let programs = m.targets.values@.filter(binary);
    if listed.len() > 0 {
        assert(listed[j] == raw.default_targets@[j]@);
    } else if programs.map_values(named).len() > 0 {
        let t = programs[j];
        assert(programs.contains(t));
        m.targets.values@.lemma_filter_contains_rev(binary, t);
        let i = m.targets.values@.index_of(t);
        assert(m.targets.values@[i] == t);
        assert(m.targets.names().len() == raw.targets.names().len());
        assert(crate::raw::declared(
            raw.targets.keys@[i]@,
            raw.targets.values@[i],
            m.targets.values@[i],
        ));
        assert(m.targets.names()[i] == raw.targets.names()[i]);
    } else {
        assert(m.targets.names()[j] == name);
    }
}

/// Without a list of default targets a build is about every C and C++ program; a
/// list is taken as it is.
pub proof fn programs_are_built_by_default(raw: RawManifest, m: Manifest, i: int)
    requires
        raw.wf(),
        call_ensures(Manifest::from_raw, (&raw,), Ok::<Manifest, ManifestError>(m)),
        0 <= i < raw.targets.values@.len(),
    ensures
        raw.default_targets@.len() > 0 ==> texts(m.default_targets@) == texts(raw.default_targets@),
        raw.default_targets@.len() == 0 && raw.targets.values@[i].kind == TargetKind::CcBinary
            ==> texts(m.default_targets@).contains(raw.targets.keys@[i]@),
        raw.default_targets@.len() == 0 && (forall|k: int|
            0 <= k < raw.targets.values@.len() ==> (#[trigger] raw.targets.values@[k]).kind
                != TargetKind::CcBinary) ==> texts(m.default_targets@) == raw.targets.names(),
{
    let binary = |t: Target| t.kind == TargetKind::CcBinary;
    let named = |t: Target| t.name@;
    let programs = m.targets.values@.filter(binary);
    assert(texts(raw.default_targets@).len() == raw.default_targets@.len());
    assert(m.targets.names().len() == raw.targets.names().len());
    let t = m.targets.values@[i];
    assert(crate::raw::declared(raw.targets.keys@[i]@, raw.targets.values@[i], t));
    if raw.default_targets@.len() == 0 && raw.targets.values@[i].kind == TargetKind::CcBinary {
        m.targets.values@.lemma_filter_contains(binary, i);
        let k = programs.index_of(t);
        assert(programs.map_values(named)[k] == t.name@);
        assert(programs.map_values(named).contains(t.name@));
    }
    if raw.default_targets@.len() == 0 && (forall|k: int|
        0 <= k < raw.targets.values@.len() ==> (#[trigger] raw.targets.values@[k]).kind
            != TargetKind::CcBinary) {
        if programs.len() > 0 {
            let u = programs[0];
            m.targets.values@.lemma_filter_pred(binary, 0);
            assert(programs.contains(u));
            m.targets.values@.lemma_filter_contains_rev(binary, u);
            let k = m.targets.values@.index_of(u);
            assert(m.targets.values@[k] == u);
            assert(crate::raw::declared(
                raw.targets.keys@[k]@,
                raw.targets.values@[k],
                m.targets.values@[k],
            ));
            assert(raw.targets.values@[k].kind != TargetKind::CcBinary);
        }
        assert(programs.map_values(named).len() == 0);
    }
}

/// The root toolchain has the drivers that the file sets, and `cc`, `c++` and `ar`
/// where it sets none; its flags are the file's; and profiles keep theirs.
pub proof fn toolchain_is_as_declared(raw: RawManifest, m: Manifest, k: int)
    requires
        raw.wf(),
        call_ensures(Manifest::from_raw, (&raw,), Ok::<Manifest, ManifestError>(m)),
    ensures
        ({
            let x = raw.toolchain;
            let t = m.toolchain;
            &&& x.cc matches Some(cc) ==> t.cc@ == cc@
            &&& x.cc is None ==> t.cc@ == "cc"@
            &&& x.cxx matches Some(cxx) ==> t.cxx@ == cxx@
            &&& x.cxx is None ==> t.cxx@ == "c++"@
            &&& x.ar matches Some(ar) ==> t.ar@ == ar@
            &&& x.ar is None ==> t.ar@ == "ar"@
            &&& t.kofunc == x.kofunc
            &&& x.arflags matches Some(flags) ==> texts(t.arflags@) == texts(flags@)
            &&& x.arflags is None ==> texts(t.arflags@) == seq!["rcsD"@]
            &&& texts(t.cflags@) == texts(x.cflags@)
            &&& texts(t.cxxflags@) == texts(x.cxxflags@)
            &&& texts(t.ldflags@) == texts(x.ldflags@)
            &&& pairs(t.tools) == pairs(x.tools)
        }),
        m.profiles.names() == raw.profiles.names(),
        0 <= k < raw.profiles.values@.len() ==> texts(m.profiles.values@[k].cflags@) == texts(
            raw.profiles.values@[k].cflags@,
        ) && texts(m.profiles.values@[k].cxxflags@) == texts(raw.profiles.values@[k].cxxflags@)
            && texts(m.profiles.values@[k].ldflags@) == texts(raw.profiles.values@[k].ldflags@),
        m.platforms.names() == raw.platforms.names(),
        0 <= k < raw.platforms.values@.len() ==> ({
            let x = raw.platforms.values@[k];
            let p = m.platforms.values@[k];
            &&& p.cc == x.cc && p.cxx == x.cxx && p.ar == x.ar && p.kofunc == x.kofunc
            &&& p.sysroot == x.sysroot
            &&& texts(p.cflags@) == texts(x.cflags@)
            &&& texts(p.cxxflags@) == texts(x.cxxflags@)
            &&& texts(p.ldflags@) == texts(x.ldflags@)
            &&& pairs(p.tools) == pairs(x.tools)
            &&& raw.platforms.keys@[k]@ != "host"@
        }),
{
    if 0 <= k < raw.platforms.values@.len() {
        assert(crate::raw::same_platform(m.platforms.values@[k], raw.platforms.values@[k]));
        assert(crate::raw::platform_name_ok(raw.platforms.keys@[k]@));
    }
    if 0 <= k < raw.profiles.values@.len() {
        assert(crate::raw::same_profile(m.profiles.values@[k], raw.profiles.values@[k]));
    }
}

// ---------------------------------------------------------------------------
// Labels and paths
// ---------------------------------------------------------------------------

/// A label of the root package loses its prefix, another full label stays, and a
/// name with or without a colon before it is one of the package.
pub proof fn labels_are_resolved(raw: &str, package: &str, r: String, name: Seq<char>)
    requires
        call_ensures(resolve_label, (raw, package), r),
    ensures
        raw@ == "//:"@ + name ==> r@ == name,
        raw@ == "//"@ + name && (name.len() == 0 || name[0] != ':') ==> r@ == raw@,
        raw@ == ":"@ + name && name.len() > 0 && name[0] != ':' ==> r@ == "//"@ + package@ + ":"@
            + name,
        raw@ == name && name.len() > 0 && name[0] != ':' && name[0] != '/' ==> r@ == "//"@
            + package@ + ":"@ + name,
{
    reveal_strlit("//:");
    reveal_strlit("//");
    reveal_strlit(":");
    let s = raw@;
    if s == "//:"@ + name {
        assert(s.subrange(0, 3) =~= "//:"@);
        assert(s.skip(3) =~= name);
    }
    if s == "//"@ + name && (name.len() == 0 || name[0] != ':') {
        assert(s.subrange(0, 2) =~= "//"@);
        if begins(s, "//:"@) {
            assert(s.subrange(0, 3)[2] == s[2]);
            assert(s[2] == name[0]);
        }
    }
    if s == ":"@ + name && name.len() > 0 && name[0] != ':' {
        assert(s[0] == ':');
        if begins(s, "//"@) {
            assert(s.subrange(0, 2)[0] == s[0]);
        }
        if begins(s, "//:"@) {
            assert(s.subrange(0, 3)[0] == s[0]);
        }
        assert(s.skip(1) =~= name);
        reveal_with_fuel(without_colons, 2);
        assert(without_colons(s) == name);
    }
    if s == name && name.len() > 0 && name[0] != ':' && name[0] != '/' {
        if begins(s, "//"@) {
            assert(s.subrange(0, 2)[0] == s[0]);
        }
        if begins(s, "//:"@) {
            assert(s.subrange(0, 3)[0] == s[0]);
        }
    }
}

/// A path of a package stands below the package; one of the root package is as it
/// is.
pub proof fn paths_stand_below_their_package(package: &str, path: &str, r: String)
    requires
        call_ensures(prefix_path, (package, path), r),
    ensures
        package@.len() == 0 ==> r@ == path@,
        package@.len() > 0 ==> r@ == package@ + "/"@ + path@,
{
}

/// A path is a pattern exactly where it holds a star, a question mark or a
/// bracket.
pub proof fn patterns_have_wildcards(path: &str, r: bool)
    requires
        call_ensures(has_glob, (path,), r),
    ensures
        r <==> path@.contains('*') || path@.contains('?') || path@.contains('['),
{
}

proof fn stands_for_means(package: Seq<char>, path: Seq<char>, found: Seq<Match>, x: Seq<char>)
    ensures
        stands_for(package, path, found).finite(),
        stands_for(package, path, found).contains(x) <==> if is_pattern(path) {
            exists|k: int|
                0 <= k < found.len() && usable(#[trigger] found[k]) && found[k].path@ == x
        } else {
            x == in_package(package, path)
        },
{
    let keep = |m: Match| usable(m);
    let named = |m: Match| m.path@;
    let kept = found.filter(keep);
    let all = kept.map_values(named);
    if is_pattern(path) {
        vstd::seq_lib::seq_to_set_is_finite(all);
        if all.to_set().contains(x) {
            let i = all.index_of(x);
            found.lemma_filter_pred(keep, i);
            assert(kept.contains(kept[i]));
            found.lemma_filter_contains_rev(keep, kept[i]);
            let k = found.index_of(kept[i]);
            assert(found[k] == kept[i]);
        }
        if exists|k: int| 0 <= k < found.len() && usable(#[trigger] found[k]) && found[k].path@ == x {
            let k = choose|k: int|
                0 <= k < found.len() && usable(#[trigger] found[k]) && found[k].path@ == x;
            found.lemma_filter_contains(keep, k);
            let i = kept.index_of(found[k]);
            assert(all[i] == x);
        }
    }
}

proof fn all_stand_for_means(
    package: Seq<char>,
    paths: Seq<Seq<char>>,
    found: Seq<Vec<Match>>,
    n: nat,
    x: Seq<char>,
)
    ensures
        all_stand_for(package, paths, found, n).finite(),
        all_stand_for(package, paths, found, n).contains(x) <==> exists|i: int|
            0 <= i < n && stands_for(package, #[trigger] paths[i], found[i]@).contains(x),
    decreases n,
{
    if n > 0 {
        all_stand_for_means(package, paths, found, (n - 1) as nat, x);
        stands_for_means(package, paths[n - 1], found[n - 1]@, x);
    }
}

/// The paths of a target stand for files: a path for itself, below its package; a
/// pattern for every file that it matched and that is neither ignored nor one of
/// the build's own or of version control. There are no others, and they ascend.
pub proof fn paths_stand_for_files(
    package: &str,
    paths: Vec<String>,
    found: Vec<Vec<Match>>,
    files: Vec<String>,
    x: Seq<char>,
)
    requires
        found@.len() == paths@.len(),
        call_ensures(
            expand_paths,
            (package, &paths, &found),
            Ok::<Vec<String>, String>(files),
        ),
    ensures
        ascending(texts(files@)),
        texts(files@).contains(x) <==> exists|i: int|
            0 <= i < paths@.len() && ({
                let path = (#[trigger] paths@[i])@;
                if path.contains('*') || path.contains('?') || path.contains('[') {
                    exists|k: int|
                        0 <= k < found@[i]@.len() && !(#[trigger] found@[i]@[k]).ignored && !begins(
                            found@[i]@[k].path@,
                            ".frost/"@,
                        ) && !begins(found@[i]@[k].path@, ".git/"@) && found@[i]@[k].path@ == x
                } else if package@.len() == 0 {
                    x == path
                } else {
                    x == package@ + "/"@ + path
                }
            }),
{
    let names = texts(paths@);
    let set = all_stand_for(package@, names, found@, paths@.len());
    all_stand_for_means(package@, names, found@, paths@.len(), x);
    in_order_means(set);
    assert(texts(files@).contains(x) <==> texts(files@).to_set().contains(x));
    if set.contains(x) {
        let i = choose|i: int|
            0 <= i < names.len() && stands_for(package@, #[trigger] names[i], found@[i]@).contains(x);
        assert(names[i] == paths@[i]@);
        stands_for_means(package@, names[i], found@[i]@, x);
    }
    if exists|i: int|
        0 <= i < paths@.len() && ({
            let path = (#[trigger] paths@[i])@;
            if path.contains('*') || path.contains('?') || path.contains('[') {
                exists|k: int|
                    0 <= k < found@[i]@.len() && !(#[trigger] found@[i]@[k]).ignored && !begins(
                        found@[i]@[k].path@,
                        ".frost/"@,
                    ) && !begins(found@[i]@[k].path@, ".git/"@) && found@[i]@[k].path@ == x
            } else if package@.len() == 0 {
                x == path
            } else {
                x == package@ + "/"@ + path
            }
        }) {
        let i = choose|i: int|
            0 <= i < paths@.len() && ({
                let path = (#[trigger] paths@[i])@;
                if path.contains('*') || path.contains('?') || path.contains('[') {
                    exists|k: int|
                        0 <= k < found@[i]@.len() && !(#[trigger] found@[i]@[k]).ignored && !begins(
                            found@[i]@[k].path@,
                            ".frost/"@,
                        ) && !begins(found@[i]@[k].path@, ".git/"@) && found@[i]@[k].path@ == x
                } else if package@.len() == 0 {
                    x == path
                } else {
                    x == package@ + "/"@ + path
                }
            });
        assert(names[i] == paths@[i]@);
        stands_for_means(package@, names[i], found@[i]@, x);
        assert(stands_for(package@, names[i], found@[i]@).contains(x));
    }
}

/// A pattern that stands for no file is refused, and nothing else is.
pub proof fn patterns_need_files(
    package: &str,
    paths: Vec<String>,
    found: Vec<Vec<Match>>,
    r: Result<Vec<String>, String>,
)
    requires
        found@.len() == paths@.len(),
        call_ensures(expand_paths, (package, &paths, &found), r),
    ensures
        r is Ok <==> forall|i: int|
            0 <= i < paths@.len() && ((#[trigger] paths@[i])@.contains('*') || paths@[i]@.contains(
                '?',
            ) || paths@[i]@.contains('[')) ==> exists|k: int|
                0 <= k < found@[i]@.len() && !(#[trigger] found@[i]@[k]).ignored && !begins(
                    found@[i]@[k].path@,
                    ".frost/"@,
                ) && !begins(found@[i]@[k].path@, ".git/"@),
{
    let names = texts(paths@);
    let keep = |m: Match| usable(m);
    assert forall|i: int| 0 <= i < paths@.len() implies (matched(
        #[trigger] names[i],
        found@[i]@,
    ) <==> (is_pattern(paths@[i]@) ==> exists|k: int|
        0 <= k < found@[i]@.len() && usable(#[trigger] found@[i]@[k]))) by {
        let all = found@[i]@;
        if all.filter(keep).len() > 0 {
            all.lemma_filter_pred(keep, 0);
            assert(all.filter(keep).contains(all.filter(keep)[0]));
            all.lemma_filter_contains_rev(keep, all.filter(keep)[0]);
            let k = all.index_of(all.filter(keep)[0]);
            assert(usable(all[k]));
        }
        if exists|k: int| 0 <= k < all.len() && usable(#[trigger] all[k]) {
            let k = choose|k: int| 0 <= k < all.len() && usable(#[trigger] all[k]);
            all.lemma_filter_contains(keep, k);
        }
    }
    if r is Ok {
        assert forall|i: int|
            0 <= i < paths@.len() && is_pattern((#[trigger] paths@[i])@) implies exists|k: int|
            0 <= k < found@[i]@.len() && !(#[trigger] found@[i]@[k]).ignored && !begins(
                found@[i]@[k].path@,
                ".frost/"@,
            ) && !begins(found@[i]@[k].path@, ".git/"@) by {
            assert(matched(names[i], found@[i]@));
            let k = choose|k: int| 0 <= k < found@[i]@.len() && usable(#[trigger] found@[i]@[k]);
            assert(!found@[i]@[k].ignored);
        }
    } else {
        let pattern = r->Err_0;
        let i = choose|i: int|
            #![trigger names[i]]
            0 <= i < paths@.len() && pattern@ == names[i] && !matched(names[i], found@[i]@)
                && nothing_lost(names, found@, i);
        assert(names[i] == paths@[i]@);
        assert(is_pattern(paths@[i]@));
        if exists|k: int|
            0 <= k < found@[i]@.len() && !(#[trigger] found@[i]@[k]).ignored && !begins(
                found@[i]@[k].path@,
                ".frost/"@,
            ) && !begins(found@[i]@[k].path@, ".git/"@) {
            let k = choose|k: int|
                0 <= k < found@[i]@.len() && !(#[trigger] found@[i]@[k]).ignored && !begins(
                    found@[i]@[k].path@,
                    ".frost/"@,
                ) && !begins(found@[i]@[k].path@, ".git/"@);
            assert(usable(found@[i]@[k]));
        }
    }
}

/// A workspace with one more package has all that it had, and every target of the
/// package under its full label, with its dependencies as full labels. Two targets
/// of one label are refused.
pub proof fn package_joins(
    m: Manifest,
    package: &str,
    path: String,
    child: Manifest,
    r: Result<Manifest, ManifestError>,
    i: int,
    k: Seq<char>,
)
    requires
        m.targets.wf(),
        child.targets.wf(),
        call_ensures(Manifest::with_package, (m, package, path, child), r),
        0 <= i < child.targets.keys@.len(),
    ensures
        r is Ok <==> forall|j: int|
            0 <= j < child.targets.keys@.len() ==> !m.targets.has(
                "//"@ + package@ + ":"@ + (#[trigger] child.targets.keys@[j])@,
            ),
        r matches Ok(now) ==> ({
            let name = "//"@ + package@ + ":"@ + child.targets.keys@[i]@;
            let was = child.targets.values@[i];
            let t = now.targets.at(name);
            &&& now.targets.has(name)
            &&& t.name@ == name
            &&& t.package@ == package@
            &&& t.kind == was.kind && t.srcs == was.srcs && t.cflags == was.cflags && t.cmd
                == was.cmd && t.tool == was.tool && t.inputs == was.inputs && t.outputs
                == was.outputs && t.includes == was.includes && t.ldflags == was.ldflags && t.env
                == was.env && t.sandbox == was.sandbox && t.args == was.args && t.steps
                == was.steps
            &&& t.deps@.len() == was.deps@.len()
            &&& m.targets.has(k) ==> now.targets.has(k) && now.targets.at(k) == m.targets.at(k)
            &&& now.manifest_paths@ == m.manifest_paths@.push(path)
            &&& now.default_targets == m.default_targets
            &&& now.toolchain == m.toolchain
        }),
{
    let n = child.targets.keys@.len() as int;
    if let Ok(now) = r {
        let key = child.targets.keys@[i];
        let name = crate::workspace::label(package@, key@);
        assert(child.labels(package@, n).contains(name));
        assert(child.packaged(i, package@, now.targets.at(name)));
        assert(texts(now.targets.at(name).deps@).len() == now.targets.at(name).deps@.len());
        assert(texts(child.targets.values@[i].deps@).len() == child.targets.values@[i].deps@.len());
        assert forall|j: int| 0 <= j < n implies !m.targets.has(
            "//"@ + package@ + ":"@ + (#[trigger] child.targets.keys@[j])@,
        ) by {
            assert(!m.targets.has(
                crate::workspace::label(package@, child.targets.keys@[j]@),
            ));
        }
    } else {
        let taken = r->Err_0->DuplicateLabel_label;
        let j = choose|j: int|
            #![trigger child.targets.keys@[j]]
            0 <= j < n && taken@ == crate::workspace::label(package@, child.targets.keys@[j]@);
        assert(m.targets.has("//"@ + package@ + ":"@ + child.targets.keys@[j]@));
    }
}

/// The targets of a package have for their sources and inputs the files that each
/// list stands for, and all their other paths below the package. Nothing else of
/// them differs.
pub proof fn every_target_is_expanded(
    m: Manifest,
    package: &str,
    found: Vec<Matches>,
    r: Manifest,
    i: int,
    srcs: Vec<String>,
    inputs: Vec<String>,
)
    requires
        call_ensures(
            Manifest::expand_manifest_paths,
            (m, package, &found),
            Ok::<Manifest, ManifestError>(r),
        ),
        0 <= i < m.targets.values@.len(),
        call_ensures(
            expand_paths,
            (package, &m.targets.values@[i].srcs, &found@[i].srcs),
            Ok::<Vec<String>, String>(srcs),
        ),
        call_ensures(
            expand_paths,
            (package, &m.targets.values@[i].inputs, &found@[i].inputs),
            Ok::<Vec<String>, String>(inputs),
        ),
    ensures
        ({
            let was = m.targets.values@[i];
            let now = r.targets.values@[i];
            let below = |path: Seq<char>|
                if package@.len() == 0 {
                    path
                } else {
                    package@ + "/"@ + path
                };
            &&& texts(now.srcs@) == texts(srcs@)
            &&& texts(now.inputs@) == texts(inputs@)
            &&& now.outputs@.len() == was.outputs@.len()
            &&& forall|k: int|
                0 <= k < was.outputs@.len() ==> (#[trigger] now.outputs@[k])@ == below(
                    was.outputs@[k]@,
                )
            &&& now.includes@.len() == was.includes@.len()
            &&& forall|k: int|
                0 <= k < was.includes@.len() ==> (#[trigger] now.includes@[k])@ == below(
                    was.includes@[k]@,
                )
            &&& now.clean_dirs@.len() == was.clean_dirs@.len()
            &&& forall|k: int|
                0 <= k < was.clean_dirs@.len() ==> (#[trigger] now.clean_dirs@[k])@ == below(
                    was.clean_dirs@[k]@,
                )
            &&& was.depfile is Some ==> now.depfile is Some && now.depfile->0@ == below(
                was.depfile->0@,
            )
            &&& was.depfile is None ==> now.depfile is None
            &&& now.name == was.name && now.kind == was.kind && now.deps == was.deps && now.cflags
                == was.cflags && now.ldflags == was.ldflags && now.cmd == was.cmd && now.tool
                == was.tool && now.args == was.args && now.steps == was.steps && now.env == was.env
                && now.pass_env == was.pass_env && now.sandbox == was.sandbox
            &&& r.default_targets == m.default_targets && r.toolchain == m.toolchain
            &&& r.platforms == m.platforms && r.profiles == m.profiles
        }),
{
    let was = m.targets.values@[i];
    let now = r.targets.values@[i];
    assert(expanded(was, package@, found@[i], now));
    each_in_package(package@, was.outputs@, now.outputs@);
    each_in_package(package@, was.includes@, now.includes@);
    each_in_package(package@, was.clean_dirs@, now.clean_dirs@);
}

proof fn each_in_package(package: Seq<char>, was: Seq<String>, now: Seq<String>)
    requires
        texts(now) == all_in_package(package, texts(was)),
    ensures
        now.len() == was.len(),
        forall|k: int| 0 <= k < was.len() ==> (#[trigger] now[k])@ == in_package(package, was[k]@),
{
    assert(texts(now).len() == now.len());
    assert(texts(was).len() == was.len());
    assert forall|k: int| 0 <= k < was.len() implies (#[trigger] now[k])@ == in_package(
        package,
        was[k]@,
    ) by {
        assert(texts(now)[k] == now[k]@);
        assert(texts(was)[k] == was[k]@);
    }
}

/// Every dependency of a package's target is resolved in the package.
pub proof fn dependencies_are_resolved(
    m: Manifest,
    package: &str,
    path: String,
    child: Manifest,
    now: Manifest,
    i: int,
    j: int,
    raw: &str,
    full: String,
)
    requires
        call_ensures(
            Manifest::with_package,
            (m, package, path, child),
            Ok::<Manifest, ManifestError>(now),
        ),
        0 <= i < child.targets.keys@.len(),
        0 <= j < child.targets.values@[i].deps@.len(),
        raw@ == child.targets.values@[i].deps@[j]@,
        call_ensures(resolve_label, (raw, package), full),
    ensures
        now.targets.at("//"@ + package@ + ":"@ + child.targets.keys@[i]@).deps@[j]@ == full@,
{
    let name = crate::workspace::label(package@, child.targets.keys@[i]@);
    let t = now.targets.at(name);
    assert(child.packaged(i, package@, t));
    let was = child.targets.values@[i].deps@;
    assert(texts(t.deps@).len() == t.deps@.len());
    assert(texts(was).len() == was.len());
    assert(texts(t.deps@)[j] == t.deps@[j]@);
    assert(texts(was)[j] == was[j]@);
}

/// In the root manifest a label of the root package loses its slashes and its
/// colon; every other label stays as it is, and so does all else.
pub proof fn root_labels_are_short(m: Manifest, r: Manifest, i: int, j: int, name: Seq<char>)
    requires
        call_ensures(Manifest::with_root_labels, (m,), r),
        0 <= i < m.targets.values@.len(),
        0 <= j < m.targets.values@[i].deps@.len(),
    ensures
        r.targets.keys@ == m.targets.keys@,
        r.targets.values@.len() == m.targets.values@.len(),
        r.targets.values@[i].deps@.len() == m.targets.values@[i].deps@.len(),
        m.targets.values@[i].deps@[j]@ == "//:"@ + name ==> r.targets.values@[i].deps@[j]@ == name,
        !begins(m.targets.values@[i].deps@[j]@, "//:"@) ==> r.targets.values@[i].deps@[j]@
            == m.targets.values@[i].deps@[j]@,
        r.targets.values@[i].kind == m.targets.values@[i].kind && r.targets.values@[i].srcs
            == m.targets.values@[i].srcs && r.targets.values@[i].cflags
            == m.targets.values@[i].cflags && r.targets.values@[i].inputs
            == m.targets.values@[i].inputs && r.targets.values@[i].outputs
            == m.targets.values@[i].outputs && r.targets.values@[i].cmd
            == m.targets.values@[i].cmd,
        r.default_targets@.len() == m.default_targets@.len(),
        r.toolchain == m.toolchain && r.platforms == m.platforms && r.profiles == m.profiles,
{
    let was = m.targets.values@[i];
    let now = r.targets.values@[i];
    assert(texts(now.deps@) == root_labels(texts(was.deps@)));
    assert(texts(now.deps@).len() == now.deps@.len());
    assert(texts(was.deps@).len() == was.deps@.len());
    assert(texts(now.deps@)[j] == now.deps@[j]@);
    assert(texts(was.deps@)[j] == was.deps@[j]@);
    assert(texts(r.default_targets@).len() == r.default_targets@.len());
    assert(texts(m.default_targets@).len() == m.default_targets@.len());
    reveal_strlit("//:");
    if was.deps@[j]@ == "//:"@ + name {
        assert(was.deps@[j]@.subrange(0, 3) =~= "//:"@);
        assert(was.deps@[j]@.skip(3) =~= name);
    }
}

/// In a workspace that was checked every dependency is another target, and every
/// target that is built by default is one.
pub proof fn links_are_known(m: Manifest, i: int, j: int, k: int)
    requires
        call_ensures(Manifest::validate, (&m,), Ok::<(), ManifestError>(())),
        0 <= i < m.targets.values@.len(),
        0 <= j < m.targets.values@[i].deps@.len(),
        0 <= k < m.default_targets@.len(),
    ensures
        m.targets.has(m.targets.values@[i].deps@[j]@),
        m.targets.values@[i].deps@[j]@ != m.targets.values@[i].name@,
        m.targets.has(m.default_targets@[k]@),
{
    assert(crate::workspace::dep_ok(m.targets, i, j));
}

} // verus!
