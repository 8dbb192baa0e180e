//! The manifest of a workspace: its targets, toolchain, platforms and
//! profiles.

use vstd::prelude::*;
use vstd::string::*;

pub use crate::closest::closest;

use crate::closest::suggestion;
use crate::sorted_map::{copy_pairs, pairs, SortedMap};
use crate::text::{
    copies, copy, copy_option, debug_text, extend, group_texts, join, joined, quoted, same, texts,
};

verus! {

pub const MANIFEST_FILE: &'static str = "frost.toml";

/// The implicit platform backed by the root `[toolchain]` table. Building for
/// it keeps output paths free of a platform.
pub const HOST_PLATFORM: &'static str = "host";

/// The profile every workspace has without declaring one.
pub const DEFAULT_PROFILE: &'static str = "debug";

/// What a target is.
#[derive(Debug, Clone, Copy, PartialEq, Eq, Structural)]
pub enum TargetKind {
    CcBinary,
    CcLibrary,
    CcTest,
    Genrule,
    Test,
    KofunBinary,
    Command,
}

impl TargetKind {
    /// The kind as a manifest writes it.
    pub open spec fn text(self) -> Seq<char> {
        match self {
            TargetKind::CcBinary => "cc_binary"@,
            TargetKind::CcLibrary => "cc_library"@,
            TargetKind::CcTest => "cc_test"@,
            TargetKind::Genrule => "genrule"@,
            TargetKind::Test => "test"@,
            TargetKind::KofunBinary => "kofun_binary"@,
            TargetKind::Command => "command"@,
        }
    }

    /// The kind as a manifest writes it.
    pub fn as_str(self) -> (r: &'static str)
        ensures
            r@ == self.text(),
    {
        match self {
            TargetKind::CcBinary => "cc_binary",
            TargetKind::CcLibrary => "cc_library",
            TargetKind::CcTest => "cc_test",
            TargetKind::Genrule => "genrule",
            TargetKind::Test => "test",
            TargetKind::KofunBinary => "kofun_binary",
            TargetKind::Command => "command",
        }
    }

    /// Targets of this kind are tests.
    pub open spec fn tests(self) -> bool {
        self == TargetKind::CcTest || self == TargetKind::Test
    }

    /// Whether targets of this kind are tests.
    pub fn is_test(self) -> (r: bool)
        ensures
            r == self.tests(),
    {
        match self {
            TargetKind::CcTest | TargetKind::Test => true,
            _ => false,
        }
    }
}

/// The drivers and flags of a build. `tools` names the drivers that command
/// and test targets refer to.
#[derive(Debug)]
pub struct Toolchain {
    pub cc: String,
    pub cxx: String,
    pub ar: String,
    pub kofunc: Option<String>,
    pub arflags: Vec<String>,
    pub cflags: Vec<String>,
    pub cxxflags: Vec<String>,
    pub ldflags: Vec<String>,
    pub tools: SortedMap<String>,
}

/// A toolchain overlay declared as `[platform.<name>]`. Drivers that are not
/// set are those of the root toolchain; flags stand behind its flags.
#[derive(Debug)]
pub struct Platform {
    pub cc: Option<String>,
    pub cxx: Option<String>,
    pub ar: Option<String>,
    pub kofunc: Option<String>,
    pub arflags: Option<Vec<String>>,
    pub sysroot: Option<String>,
    pub cflags: Vec<String>,
    pub cxxflags: Vec<String>,
    pub ldflags: Vec<String>,
    pub tools: SortedMap<String>,
}

/// The flags of a build profile.
#[derive(Debug)]
pub struct Profile {
    pub cflags: Vec<String>,
    pub cxxflags: Vec<String>,
    pub ldflags: Vec<String>,
}

/// A further direct command of a command target.
#[derive(Debug)]
pub struct Step {
    pub tool: String,
    pub args: Vec<String>,
}

/// One target of a workspace.
#[derive(Debug)]
pub struct Target {
    pub name: String,
    pub kind: TargetKind,
    pub srcs: Vec<String>,
    pub deps: Vec<String>,
    /// Exported include directories, visible to this target and dependents.
    pub includes: Vec<String>,
    pub cflags: Vec<String>,
    pub ldflags: Vec<String>,
    /// Shell command; a genrule's may hold `${in}`, `${out}` and `${outs}`.
    pub cmd: Option<String>,
    /// The named tool that a command or test target runs without a shell.
    pub tool: Option<String>,
    pub args: Vec<String>,
    pub steps: Vec<Step>,
    pub inputs: Vec<String>,
    pub outputs: Vec<String>,
    pub depfile: Option<String>,
    /// Intermediate directories removed and recreated before each run.
    pub clean_dirs: Vec<String>,
    pub preserve_outputs: bool,
    pub env: SortedMap<String>,
    pub pass_env: Vec<String>,
    pub sandbox: bool,
    /// Package directory relative to the workspace root (empty for root).
    pub package: String,
}

/// A workspace: what its manifests declare.
#[derive(Debug)]
pub struct Manifest {
    pub default_targets: Vec<String>,
    pub toolchain: Toolchain,
    pub platforms: SortedMap<Platform>,
    pub profiles: SortedMap<Profile>,
    pub targets: SortedMap<Target>,
    /// Manifests which contributed to this workspace.
    pub manifest_paths: Vec<String>,
}

/// The toolchain of a platform: the overlay's drivers where it sets them, its
/// flags behind those of the root toolchain, `--sysroot=` between, and its
/// tools before those of the root.
pub open spec fn overlaid(base: Toolchain, over: Platform, r: Toolchain) -> bool {
    let sysroot = match over.sysroot {
        Some(s) => seq!["--sysroot="@ + s@],
        None => Seq::empty(),
    };
    &&& r.cc@ == set_or(over.cc, base.cc@)
    &&& r.cxx@ == set_or(over.cxx, base.cxx@)
    &&& r.ar@ == set_or(over.ar, base.ar@)
    &&& r.kofunc == (if over.kofunc is Some { over.kofunc } else { base.kofunc })
    &&& texts(r.arflags@) == (match over.arflags { Some(flags) => texts(flags@), None => texts(base.arflags@) })
    &&& texts(r.cflags@) == texts(base.cflags@) + sysroot + texts(over.cflags@)
    &&& texts(r.cxxflags@) == texts(base.cxxflags@) + texts(over.cxxflags@)
    &&& texts(r.ldflags@) == texts(base.ldflags@) + sysroot + texts(over.ldflags@)
    &&& r.tools.wf()
    &&& forall|k: Seq<char>| #[trigger] r.tools.has(k) <==> base.tools.has(k) || over.tools.has(k)
    &&& forall|k: Seq<char>| r.tools.has(k) ==> #[trigger] r.tools.at(k)@ == (if over.tools.has(k) { over.tools.at(k)@ } else { base.tools.at(k)@ })
}

/// A text where it is set, else the other.
pub open spec fn set_or(value: Option<String>, other: Seq<char>) -> Seq<char> {
    match value {
        Some(s) => s@,
        None => other,
    }
}

/// Two toolchains have the same drivers, flags and tools.
pub open spec fn same_toolchain(a: Toolchain, b: Toolchain) -> bool {
    &&& a.cc@ == b.cc@
    &&& a.cxx@ == b.cxx@
    &&& a.ar@ == b.ar@
    &&& a.kofunc == b.kofunc
    &&& texts(a.arflags@) == texts(b.arflags@)
    &&& texts(a.cflags@) == texts(b.cflags@)
    &&& texts(a.cxxflags@) == texts(b.cxxflags@)
    &&& texts(a.ldflags@) == texts(b.ldflags@)
    &&& pairs(a.tools) == pairs(b.tools)
    &&& a.tools.wf()
}

impl Toolchain {
    /// A copy of the toolchain.
    pub fn copy(&self) -> (r: Toolchain)
        requires
            self.tools.wf(),
        ensures
            same_toolchain(r, *self),
    {
        Toolchain {
            cc: copy(&self.cc),
            cxx: copy(&self.cxx),
            ar: copy(&self.ar),
            kofunc: copy_option(&self.kofunc),
            arflags: copies(&self.arflags),
            cflags: copies(&self.cflags),
            cxxflags: copies(&self.cxxflags),
            ldflags: copies(&self.ldflags),
            tools: copy_pairs(&self.tools),
        }
    }
}

/// A text where it is set, else the other.
fn pick(value: &Option<String>, other: &str) -> (r: String)
    ensures
        r@ == set_or(*value, other@),
{
    match value {
        Some(s) => copy(s),
        None => copy(other),
    }
}

/// A platform that no manifest declares.
#[derive(Debug)]
pub struct UnknownPlatform {
    pub platform: String,
    /// A declared platform with a similar name.
    pub hint: Option<String>,
    pub known: Vec<String>,
}

impl UnknownPlatform {
    /// The text that reports the platform.
    pub open spec fn text(self) -> Seq<char> {
        let head = "unknown platform "@ + debug_text(self.platform@);
        match self.hint {
            Some(hint) => head + ". did you mean "@ + debug_text(hint@) + "?"@,
            None => if self.known@.len() == 0 {
                head + ". this workspace declares no [platform.*] sections"@
            } else {
                head + ". declared platforms: "@ + joined(texts(self.known@), ", "@)
            },
        }
    }

    /// Reports the platform.
    pub fn message(&self) -> (r: String)
        ensures
            r@ == self.text(),
    {
        let mut out = copy("unknown platform ");
        out.append(&quoted(&self.platform));
        match &self.hint {
            Some(hint) => {
                out.append(". did you mean ");
                out.append(&quoted(hint));
                out.append("?");
            },
            None => {
                if self.known.len() == 0 {
                    out.append(". this workspace declares no [platform.*] sections");
                } else {
                    out.append(". declared platforms: ");
                    out.append(&join(&self.known, ", "));
                }
            },
        }
        out
    }
}

/// A target has what targets of its kind are built from.
pub open spec fn ready(t: Target) -> bool {
    &&& t.env.wf()
    &&& match t.kind {
        TargetKind::Genrule => t.cmd is Some && t.outputs@.len() > 0,
        TargetKind::Test => t.cmd is Some || t.tool is Some,
        TargetKind::Command => t.tool is Some && t.outputs@.len() > 0,
        _ => true,
    }
}

impl Manifest {
    /// Every target stands under its name and has what its kind needs.
    pub open spec fn targets_ready(self) -> bool {
        &&& self.targets.wf()
        &&& forall|i: int| #![trigger self.targets.values@[i]]
            0 <= i < self.targets.values@.len() ==> ready(self.targets.values@[i])
                && self.targets.values@[i].name@ == self.targets.keys@[i]@
    }

    /// Every dependency is a target.
    pub open spec fn deps_known(self) -> bool {
        forall|i: int, j: int|
            0 <= i < self.targets.values@.len() && 0 <= j < self.targets.values@[i].deps@.len()
                ==> self.targets.has((#[trigger] self.targets.values@[i].deps@[j])@)
    }

    /// Maps are in order, targets are complete, and dependencies are targets.
    pub open spec fn wf(self) -> bool {
        &&& self.toolchains_wf()
        &&& self.profiles.wf()
        &&& self.targets_ready()
        &&& self.deps_known()
    }

    /// The overlays and the root toolchain have their tools in order.
    pub open spec fn toolchains_wf(self) -> bool {
        &&& self.toolchain.tools.wf()
        &&& self.platforms.wf()
        &&& forall|i: int|
            0 <= i < self.platforms.values@.len()
                ==> (#[trigger] self.platforms.values@[i]).tools.wf()
    }

    /// The toolchain that `platform` builds with.
    pub open spec fn resolves(self, platform: Seq<char>, r: Toolchain) -> bool {
        if platform == HOST_PLATFORM@ {
            same_toolchain(r, self.toolchain)
        } else {
            self.platforms.has(platform) && overlaid(
                self.toolchain,
                self.platforms.at(platform),
                r,
            )
        }
    }

    /// The toolchain of a platform: the root `[toolchain]` for `host`, else
    /// that toolchain with the `[platform.<name>]` overlay applied.
    pub fn toolchain_for(&self, platform: &str) -> (r: Result<Toolchain, UnknownPlatform>)
        requires
            self.toolchains_wf(),
        ensures
            match r {
                Ok(toolchain) => self.resolves(platform@, toolchain) && toolchain.tools.wf(),
                Err(e) => platform@ != HOST_PLATFORM@ && !self.platforms.has(platform@)
                    && e.platform@ == platform@ && texts(e.known@) == self.platforms.names()
                    && suggested(e.hint, suggestion(platform@, self.platforms.names())),
            },
    {
        broadcast use group_texts;
        if same(platform, HOST_PLATFORM) {
            return Ok(self.toolchain.copy());
        }
        let at = match self.platforms.find(platform) {
            Some(i) => i,
            None => {
                return Err(
                    UnknownPlatform {
                        platform: copy(platform),
                        hint: closest(platform, &self.platforms.keys),
                        known: copies(&self.platforms.keys),
                    },
                );
            },
        };
        let over = &self.platforms.values[at];
        let base = &self.toolchain;
        let mut cflags = copies(&base.cflags);
        let mut cxxflags = copies(&base.cxxflags);
        let mut ldflags = copies(&base.ldflags);
        match &over.sysroot {
            Some(sysroot) => {
                let mut flag = copy("--sysroot=");
                flag.append(sysroot);
                cflags.push(flag.clone());
                ldflags.push(flag);
                assert(texts(cflags@) =~= texts(base.cflags@) + seq!["--sysroot="@ + sysroot@]);
                assert(texts(ldflags@) =~= texts(base.ldflags@) + seq!["--sysroot="@ + sysroot@]);
            },
            None => {
                assert(texts(cflags@) =~= texts(base.cflags@) + Seq::<Seq<char>>::empty());
                assert(texts(ldflags@) =~= texts(base.ldflags@) + Seq::<Seq<char>>::empty());
            },
        }
        extend(&mut cflags, &over.cflags);
        extend(&mut cxxflags, &over.cxxflags);
        extend(&mut ldflags, &over.ldflags);
        let tools = overlay(&base.tools, &over.tools);
        let kofunc = match &over.kofunc {
            Some(s) => Some(s.clone()),
            None => copy_option(&base.kofunc),
        };
        let arflags = match &over.arflags {
            Some(flags) => copies(flags),
            None => copies(&base.arflags),
        };
        Ok(
            Toolchain {
                cc: pick(&over.cc, &base.cc),
                cxx: pick(&over.cxx, &base.cxx),
                ar: pick(&over.ar, &base.ar),
                kofunc,
                arflags,
                cflags,
                cxxflags,
                ldflags,
                tools,
            },
        )
    }
}

/// A hint is what was to be suggested.
pub open spec fn suggested(hint: Option<String>, wanted: Option<Seq<char>>) -> bool {
    match hint {
        Some(name) => wanted == Some(name@),
        None => wanted == None::<Seq<char>>,
    }
}

/// The pairs of `base`, with those of `over` before them.
fn overlay(base: &SortedMap<String>, over: &SortedMap<String>) -> (r: SortedMap<String>)
    requires
        base.wf(),
        over.wf(),
    ensures
        r.wf(),
        forall|k: Seq<char>| #[trigger] r.has(k) <==> base.has(k) || over.has(k),
        forall|k: Seq<char>|
            r.has(k) ==> #[trigger] r.at(k)@ == (if over.has(k) {
                over.at(k)@
            } else {
                base.at(k)@
            }),
{
    let mut r = copy_pairs(base);
    let mut i: usize = 0;
    while i < over.keys.len()
        invariant
            i <= over.keys@.len(),
            base.wf(),
            over.wf(),
            r.wf(),
            forall|k: Seq<char>| #[trigger]
                r.has(k) <==> base.has(k) || over.names().take(i as int).contains(k),
            forall|k: Seq<char>|
                r.has(k) ==> #[trigger] r.at(k)@ == (if over.names().take(i as int).contains(k) {
                    over.at(k)@
                } else {
                    base.at(k)@
                }),
        decreases over.keys@.len() - i,
    {
        let ghost names = over.names();
        let ghost key = names[i as int];
        let _ = r.insert(copy(&over.keys[i]), copy(&over.values[i]));
        proof {
            over.spot_is(i as int);
            assert(names.take(i + 1) =~= names.take(i as int).push(key));
            assert forall|k: Seq<char>| names.take(i + 1).contains(k) <==> names.take(
                i as int,
            ).contains(k) || k == key by {
                if names.take(i as int).contains(k) {
                    let j = names.take(i as int).index_of(k);
                    assert(names.take(i + 1)[j] == k);
                }
                if k == key {
                    assert(names.take(i + 1)[i as int] == k);
                }
            }
        }
        i += 1;
    }
    assert(over.names().take(i as int) =~= over.names());
    r
}

/// The toolchain of the host is the root toolchain. That of a declared platform
/// has the drivers that the platform sets and else those of the root; every flag
/// of the root stands in it, the sysroot behind, and every flag of the platform
/// last; and a tool is the platform's where it sets one of that name.
pub proof fn platform_is_laid_over(
    m: Manifest,
    platform: &str,
    r: Toolchain,
    tool: Seq<char>,
)
    requires
        call_ensures(
            Manifest::toolchain_for,
            (&m, platform),
            Ok::<Toolchain, UnknownPlatform>(r),
        ),
    ensures
        platform@ == "host"@ ==> {
            &&& r.cc@ == m.toolchain.cc@
            &&& r.cxx@ == m.toolchain.cxx@
            &&& r.ar@ == m.toolchain.ar@
            &&& r.kofunc == m.toolchain.kofunc
            &&& texts(r.arflags@) == texts(m.toolchain.arflags@)
            &&& texts(r.cflags@) == texts(m.toolchain.cflags@)
            &&& texts(r.cxxflags@) == texts(m.toolchain.cxxflags@)
            &&& texts(r.ldflags@) == texts(m.toolchain.ldflags@)
            &&& r.tools.has(tool) <==> m.toolchain.tools.has(tool)
            &&& r.tools.has(tool) ==> r.tools.at(tool)@ == m.toolchain.tools.at(tool)@
        },
        platform@ != "host"@ ==> m.platforms.has(platform@) && {
            let base = m.toolchain;
            let over = m.platforms.at(platform@);
            let root = texts(base.cflags@).len() as int;
            let linked = texts(base.ldflags@).len() as int;
            &&& over.cc matches Some(cc) ==> r.cc@ == cc@
            &&& over.cc is None ==> r.cc@ == base.cc@
            &&& over.cxx matches Some(cxx) ==> r.cxx@ == cxx@
            &&& over.cxx is None ==> r.cxx@ == base.cxx@
            &&& over.ar matches Some(ar) ==> r.ar@ == ar@
            &&& over.ar is None ==> r.ar@ == base.ar@
            &&& over.kofunc is Some ==> r.kofunc == over.kofunc
            &&& over.kofunc is None ==> r.kofunc == base.kofunc
            &&& over.arflags matches Some(flags) ==> texts(r.arflags@) == texts(flags@)
            &&& over.arflags is None ==> texts(r.arflags@) == texts(base.arflags@)
            &&& over.sysroot is None ==> texts(r.cflags@) == texts(base.cflags@) + texts(
                over.cflags@,
            ) && texts(r.ldflags@) == texts(base.ldflags@) + texts(over.ldflags@)
            &&& over.sysroot matches Some(sysroot) ==> {
                &&& texts(r.cflags@).take(root) == texts(base.cflags@)
                &&& texts(r.cflags@)[root] == "--sysroot="@ + sysroot@
                &&& texts(r.cflags@).skip(root + 1) == texts(over.cflags@)
                &&& texts(r.ldflags@).take(linked) == texts(base.ldflags@)
                &&& texts(r.ldflags@)[linked] == "--sysroot="@ + sysroot@
                &&& texts(r.ldflags@).skip(linked + 1) == texts(over.ldflags@)
            }
            &&& texts(r.cxxflags@) == texts(base.cxxflags@) + texts(over.cxxflags@)
            &&& r.tools.has(tool) <==> base.tools.has(tool) || over.tools.has(tool)
            &&& over.tools.has(tool) ==> r.tools.at(tool)@ == over.tools.at(tool)@
            &&& !over.tools.has(tool) && base.tools.has(tool) ==> r.tools.at(tool)@
                == base.tools.at(tool)@
        },
{
    if platform@ == HOST_PLATFORM@ {
        assert(pairs(r.tools).names == pairs(m.toolchain.tools).names);
        if r.tools.has(tool) {
            let k = r.tools.spot(tool);
            assert(r.tools.names()[k] == tool);
            assert(m.toolchain.tools.names() == r.tools.names());
            assert(texts(r.tools.values@) == texts(m.toolchain.tools.values@));
            assert(texts(r.tools.values@).len() == r.tools.values@.len());
            assert(texts(r.tools.values@)[k] == r.tools.values@[k]@);
            assert(texts(m.toolchain.tools.values@).len() == m.toolchain.tools.values@.len());
            assert(texts(m.toolchain.tools.values@)[k] == m.toolchain.tools.values@[k]@);
        }
    } else {
        let base = m.toolchain;
        let over = m.platforms.at(platform@);
        let root = texts(base.cflags@).len() as int;
        let linked = texts(base.ldflags@).len() as int;
        if let Some(sysroot) = over.sysroot {
            let flag = seq!["--sysroot="@ + sysroot@];
            assert(texts(r.cflags@) == texts(base.cflags@) + flag + texts(over.cflags@));
            assert(texts(r.cflags@).take(root) =~= texts(base.cflags@));
            assert(texts(r.cflags@)[root] == flag[0]);
            assert(texts(r.cflags@).skip(root + 1) =~= texts(over.cflags@));
            assert(texts(r.ldflags@) == texts(base.ldflags@) + flag + texts(over.ldflags@));
            assert(texts(r.ldflags@).take(linked) =~= texts(base.ldflags@));
            assert(texts(r.ldflags@)[linked] == flag[0]);
            assert(texts(r.ldflags@).skip(linked + 1) =~= texts(over.ldflags@));
        } else {
            let none = Seq::<Seq<char>>::empty();
            assert(texts(base.cflags@) + none =~= texts(base.cflags@));
            assert(texts(base.ldflags@) + none =~= texts(base.ldflags@));
        }
    }
}

/// A platform is refused exactly where it is neither the host nor declared.
pub proof fn only_unknown_platforms_are_refused(
    m: Manifest,
    platform: &str,
    r: Result<Toolchain, UnknownPlatform>,
)
    requires
        call_ensures(Manifest::toolchain_for, (&m, platform), r),
    ensures
        r is Ok <==> platform@ == "host"@ || m.platforms.names().contains(platform@),
        r matches Err(e) ==> e.platform@ == platform@,
{
}

} // verus!
