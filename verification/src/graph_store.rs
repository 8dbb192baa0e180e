//! The file that a build graph is kept in.

use vstd::prelude::*;
use vstd::string::*;
use vstd::utf8::*;

use crate::bytes::{
    bytes_between, from_le32, le32, le32_read_back, push_bytes, push_le32, read_le32, stands_at,
};
use crate::configure::{graph_of, no_graph};
use crate::digest::{blake3_bytes, blake3_hex, blake3_of, hex_tells_all, hex_text};
use crate::graph::{BuildGraph, GraphError};
use crate::manifest::{Manifest, HOST_PLATFORM};
use crate::order::{
    bytes_before, bytes_before_asymmetric, bytes_before_carries_over, bytes_precede, in_turn,
    listed, order_of, order_unique, taken, Ranked,
};
use crate::paths::{join_path, joined_path};
use crate::raw::plain_name;
use crate::text::{copy, lists, same, texts};
use crate::toposort::ints;

verus! {

/// The version of the file.
pub const VERSION: u32 = 6;

/// The state of a directory. Its time changes when something is added to it,
/// removed or renamed; on some systems not at once, so what it lists is part
/// of the state too.
#[derive(Debug)]
pub struct DirStamp {
    pub path: String,
    pub mtime_ns: i128,
    /// The digest of what the directory lists.
    pub entries_hash: [u8; 32],
}

/// The state of a directory.
pub struct DirText {
    pub path: Seq<char>,
    pub mtime_ns: i128,
    pub entries_hash: Seq<u8>,
}

impl View for DirStamp {
    type V = DirText;

    open spec fn view(&self) -> DirText {
        DirText {
            path: self.path@,
            mtime_ns: self.mtime_ns,
            entries_hash: self.entries_hash@,
        }
    }
}

/// Evidence that what a graph was made from has not changed: the digest of
/// every manifest, and the state of every directory. Where both are as they
/// were, the same packages are found and patterns match the same files.
#[derive(Debug)]
pub struct SourcesStamp {
    pub manifests: Vec<(String, String)>,
    pub dirs: Vec<DirStamp>,
}

/// What a stamp says.
#[verifier::ext_equal]
pub struct StampText {
    pub manifests: Seq<(Seq<char>, Seq<char>)>,
    pub dirs: Seq<DirText>,
}

/// Pairs of texts.
pub open spec fn pair_texts(v: Seq<(String, String)>) -> Seq<(Seq<char>, Seq<char>)> {
    Seq::new(v.len(), |i: int| (v[i].0@, v[i].1@))
}

/// The states of directories.
pub open spec fn dir_texts(v: Seq<DirStamp>) -> Seq<DirText> {
    Seq::new(v.len(), |i: int| v[i]@)
}

impl View for SourcesStamp {
    type V = StampText;

    open spec fn view(&self) -> StampText {
        StampText { manifests: pair_texts(self.manifests@), dirs: dir_texts(self.dirs@) }
    }
}

// ---------------------------------------------------------------------------
// The stamp in the file
// ---------------------------------------------------------------------------

/// A stamp as it is encoded.
pub type Wire = (Vec<(String, String)>, Vec<(String, i128, [u8; 32])>);

/// What an encoded stamp says.
pub open spec fn wire_text(w: Wire) -> StampText {
    StampText {
        manifests: pair_texts(w.0@),
        dirs: Seq::new(
            w.1@.len(),
            |i: int|
                DirText {
                    path: w.1@[i].0@,
                    mtime_ns: w.1@[i].1,
                    entries_hash: w.1@[i].2@,
                },
        ),
    }
}

/// The stamp that bytes hold.
pub uninterp spec fn stamp_of(bytes: Seq<u8>) -> Option<StampText>;

/// The bytes of a stamp.
pub uninterp spec fn stamp_code(stamp: StampText) -> Option<Seq<u8>>;

/// `postcard::from_bytes`: the stamp at the beginning of the bytes, or none
/// where they hold no stamp. The bytes alone decide.
#[verifier::external_body]
fn decode_stamp(bytes: &[u8]) -> (r: Option<Wire>)
    ensures
        match r {
            Some(w) => stamp_of(bytes@) == Some(wire_text(w)),
            None => stamp_of(bytes@) == None::<StampText>,
        },
{
    postcard::from_bytes(bytes).ok()
}

/// `postcard::to_allocvec`: bytes that the stamp alone decides, and from which
/// it is read back.
#[verifier::external_body]
fn encode_stamp(stamp: &Wire) -> (r: Option<Vec<u8>>)
    ensures
        match r {
            Some(bytes) => stamp_code(wire_text(*stamp)) == Some(bytes@) && stamp_of(bytes@)
                == Some(wire_text(*stamp)),
            None => stamp_code(wire_text(*stamp)) == None::<Seq<u8>>,
        },
{
    postcard::to_allocvec(stamp).ok()
}

fn from_wire(w: Wire) -> (r: SourcesStamp)
    ensures
        r@ == wire_text(w),
{
    let ghost want = wire_text(w).dirs;
    let (manifests, listed) = w;
    let mut dirs: Vec<DirStamp> = Vec::new();
    let mut i: usize = 0;
    while i < listed.len()
        invariant
            want.len() == listed@.len(),
            forall|k: int|
                0 <= k < listed@.len() ==> #[trigger] want[k] == (DirText {
                    path: listed@[k].0@,
                    mtime_ns: listed@[k].1,
                    entries_hash: listed@[k].2@,
                }),
            i <= listed@.len(),
            dir_texts(dirs@) =~= want.take(i as int),
        decreases listed@.len() - i,
    {
        let d = &listed[i];
        dirs.push(DirStamp { path: copy(&d.0), mtime_ns: d.1, entries_hash: d.2 });
        assert(want.take(i + 1) =~= want.take(i as int).push(want[i as int]));
        i += 1;
    }
    assert(want.take(i as int) =~= want);
    SourcesStamp { manifests, dirs }
}

fn to_wire(s: &SourcesStamp) -> (r: Wire)
    ensures
        wire_text(r) == s@,
{
    let mut manifests: Vec<(String, String)> = Vec::new();
    let ghost want = pair_texts(s.manifests@);
    let mut i: usize = 0;
    while i < s.manifests.len()
        invariant
            want == pair_texts(s.manifests@),
            i <= s.manifests@.len(),
            pair_texts(manifests@) =~= want.take(i as int),
        decreases s.manifests@.len() - i,
    {
        manifests.push((copy(&s.manifests[i].0), copy(&s.manifests[i].1)));
        assert(want.take(i + 1) =~= want.take(i as int).push(want[i as int]));
        i += 1;
    }
    assert(want.take(i as int) =~= want);
    let mut dirs: Vec<(String, i128, [u8; 32])> = Vec::new();
    let mut j: usize = 0;
    while j < s.dirs.len()
        invariant
            j <= s.dirs@.len(),
            dirs@.len() == j,
            forall|k: int|
                0 <= k < j ==> (#[trigger] dirs@[k]).0@ == s.dirs@[k].path@ && dirs@[k].1
                    == s.dirs@[k].mtime_ns && dirs@[k].2@ == s.dirs@[k].entries_hash@,
        decreases s.dirs@.len() - j,
    {
        let d = &s.dirs[j];
        dirs.push((copy(&d.path), d.mtime_ns, d.entries_hash));
        j += 1;
    }
    let out = (manifests, dirs);
    assert(wire_text(out).dirs =~= s@.dirs);
    out
}

// ---------------------------------------------------------------------------
// The file
// ---------------------------------------------------------------------------

/// What is wrong with the file of a graph.
#[derive(Debug, Clone, Copy, PartialEq, Eq, Structural)]
pub enum StoreError {
    InvalidHeader,
    UnsupportedVersion,
    TruncatedHeader,
    CorruptStamp,
    /// The graph is that of another manifest, profile or platform.
    Stale,
    SourcesChanged,
}

impl StoreError {
    pub open spec fn text(self) -> Seq<char> {
        match self {
            StoreError::InvalidHeader => "invalid graph header"@,
            StoreError::UnsupportedVersion => "unsupported graph version"@,
            StoreError::TruncatedHeader => "truncated graph header"@,
            StoreError::CorruptStamp => "corrupt sources stamp"@,
            StoreError::Stale => "stale graph store"@,
            StoreError::SourcesChanged => "workspace sources changed"@,
        }
    }

    /// Reports the fault.
    pub fn message(&self) -> (r: String)
        ensures
            r@ == self.text(),
    {
        match self {
            StoreError::InvalidHeader => copy("invalid graph header"),
            StoreError::UnsupportedVersion => copy("unsupported graph version"),
            StoreError::TruncatedHeader => copy("truncated graph header"),
            StoreError::CorruptStamp => copy("corrupt sources stamp"),
            StoreError::Stale => copy("stale graph store"),
            StoreError::SourcesChanged => copy("workspace sources changed"),
        }
    }
}

/// The parts of the file: the digest of what the graph was made from, the
/// stamp, and the graph itself in its encoding.
#[derive(Debug)]
pub struct ParsedStore {
    pub fingerprint: Vec<u8>,
    pub stamp: SourcesStamp,
    pub payload: Vec<u8>,
}

/// The parts of the file.
#[verifier::ext_equal]
pub struct StoreText {
    pub fingerprint: Seq<u8>,
    pub stamp: StampText,
    pub payload: Seq<u8>,
}

impl View for ParsedStore {
    type V = StoreText;

    open spec fn view(&self) -> StoreText {
        StoreText {
            fingerprint: self.fingerprint@,
            stamp: self.stamp@,
            payload: self.payload@,
        }
    }
}

/// The bytes at the beginning of the file.
pub open spec fn magic() -> Seq<u8> {
    seq![0x46u8, 0x52, 0x53, 0x54, 0x47, 0x52, 0x30, 0x31]
}

/// The parts of a file, or what is wrong with it.
pub open spec fn store_in(bytes: Seq<u8>) -> Result<StoreText, StoreError> {
    if bytes.len() < 48 || bytes.take(8) != magic() {
        Err(StoreError::InvalidHeader)
    } else if from_le32(bytes.skip(8)) != VERSION {
        Err(StoreError::UnsupportedVersion)
    } else {
        let n = from_le32(bytes.skip(44));
        if bytes.len() < 48 + n {
            Err(StoreError::TruncatedHeader)
        } else {
            match stamp_of(bytes.subrange(48, 48 + n)) {
                None => Err(StoreError::CorruptStamp),
                Some(stamp) => Ok(
                    StoreText {
                        fingerprint: bytes.subrange(12, 44),
                        stamp,
                        payload: bytes.skip(48 + n),
                    },
                ),
            }
        }
    }
}

/// The parts of a file.
pub fn parse_header(bytes: &[u8]) -> (r: Result<ParsedStore, StoreError>)
    ensures
        match r {
            Ok(parsed) => store_in(bytes@) == Ok::<StoreText, StoreError>(parsed@)
                && parsed.fingerprint@.len() == 32,
            Err(e) => store_in(bytes@) == Err::<StoreText, StoreError>(e),
        },
{
    let start: [u8; 8] = [0x46, 0x52, 0x53, 0x54, 0x47, 0x52, 0x30, 0x31];
    proof {
        assert(start@ =~= magic());
        if bytes@.len() >= 8 {
            assert(bytes@.subrange(0, 8) =~= bytes@.take(8));
        }
    }
    if bytes.len() < 48 || !stands_at(bytes, 0, &start) {
        return Err(StoreError::InvalidHeader);
    }
    if read_le32(bytes, 8) != VERSION {
        return Err(StoreError::UnsupportedVersion);
    }
    let n: usize = read_le32(bytes, 44) as usize;
    if n > bytes.len() - 48 {
        return Err(StoreError::TruncatedHeader);
    }
    let code = bytes_between(bytes, 48, 48 + n);
    match decode_stamp(code.as_slice()) {
        None => Err(StoreError::CorruptStamp),
        Some(w) => {
            let payload = bytes_between(bytes, 48 + n, bytes.len());
            assert(payload@ =~= bytes@.skip(48 + n));
            Ok(
                ParsedStore {
                    fingerprint: bytes_between(bytes, 12, 44),
                    stamp: from_wire(w),
                    payload,
                },
            )
        },
    }
}

/// The contents of the file for a stamp that is encoded as `code`.
pub open spec fn store_code(fingerprint: Seq<u8>, code: Seq<u8>, payload: Seq<u8>) -> Seq<u8> {
    magic() + le32(VERSION as int) + fingerprint + le32(code.len() as int) + code + payload
}

/// What is written is read back.
pub proof fn store_read_back(
    fingerprint: Seq<u8>,
    stamp: StampText,
    code: Seq<u8>,
    payload: Seq<u8>,
)
    requires
        fingerprint.len() == 32,
        code.len() < 0x1_0000_0000,
        stamp_of(code) == Some(stamp),
    ensures
        store_in(store_code(fingerprint, code, payload)) == Ok::<StoreText, StoreError>(
            StoreText { fingerprint, stamp, payload },
        ),
{
    let bytes = store_code(fingerprint, code, payload);
    let n = code.len() as int;
    le32_read_back(VERSION as int);
    le32_read_back(n);
    assert(bytes.take(8) =~= magic());
    assert(bytes.skip(8).take(4) =~= le32(VERSION as int));
    assert(from_le32(bytes.skip(8)) == from_le32(bytes.skip(8).take(4)));
    assert(bytes.skip(44).take(4) =~= le32(n));
    assert(from_le32(bytes.skip(44)) == from_le32(bytes.skip(44).take(4)));
    assert(bytes.subrange(48, 48 + n) =~= code);
    assert(bytes.subrange(12, 44) =~= fingerprint);
    assert(bytes.skip(48 + n) =~= payload);
}

/// The contents of the file; none where the stamp cannot be encoded. What is
/// written is read back.
pub fn store_bytes(fingerprint: &[u8], stamp: &SourcesStamp, payload: &[u8]) -> (r: Option<Vec<u8>>)
    requires
        fingerprint@.len() == 32,
    ensures
        match r {
            Some(bytes) => {
                &&& stamp_code(stamp@) is Some
                &&& bytes@ == store_code(fingerprint@, stamp_code(stamp@)->0, payload@)
                &&& stamp_code(stamp@)->0.len() < 0x1_0000_0000 ==> store_in(bytes@) == Ok::<
                    StoreText,
                    StoreError,
                >(StoreText { fingerprint: fingerprint@, stamp: stamp@, payload: payload@ })
            },
            None => stamp_code(stamp@) is None,
        },
{
    match encode_stamp(&to_wire(stamp)) {
        None => None,
        Some(code) => {
            let start: [u8; 8] = [0x46, 0x52, 0x53, 0x54, 0x47, 0x52, 0x30, 0x31];
            let mut out: Vec<u8> = Vec::new();
            push_bytes(&mut out, &start);
            assert(out@ =~= magic());
            push_le32(&mut out, VERSION as usize);
            push_bytes(&mut out, fingerprint);
            push_le32(&mut out, code.len());
            push_bytes(&mut out, code.as_slice());
            push_bytes(&mut out, payload);
            proof {
                if code@.len() < 0x1_0000_0000 {
                    store_read_back(fingerprint@, stamp@, code@, payload@);
                }
            }
            Some(out)
        },
    }
}

// ---------------------------------------------------------------------------
// Stamps
// ---------------------------------------------------------------------------

fn same_pairs(a: &Vec<(String, String)>, b: &Vec<(String, String)>) -> (r: bool)
    ensures
        r == (pair_texts(a@) == pair_texts(b@)),
{
    if a.len() != b.len() {
        assert(pair_texts(a@).len() != pair_texts(b@).len());
        return false;
    }
    let mut i: usize = 0;
    while i < a.len()
        invariant
            i <= a@.len(),
            a@.len() == b@.len(),
            forall|k: int| 0 <= k < i ==> #[trigger] pair_texts(a@)[k] == pair_texts(b@)[k],
        decreases a@.len() - i,
    {
        if !same(&a[i].0, &b[i].0) || !same(&a[i].1, &b[i].1) {
            assert(pair_texts(a@)[i as int] != pair_texts(b@)[i as int]);
            return false;
        }
        i += 1;
    }
    assert(pair_texts(a@) =~= pair_texts(b@));
    true
}

fn same_dirs(a: &Vec<DirStamp>, b: &Vec<DirStamp>) -> (r: bool)
    ensures
        r == (dir_texts(a@) == dir_texts(b@)),
{
    if a.len() != b.len() {
        assert(dir_texts(a@).len() != dir_texts(b@).len());
        return false;
    }
    let mut i: usize = 0;
    while i < a.len()
        invariant
            i <= a@.len(),
            a@.len() == b@.len(),
            forall|k: int| 0 <= k < i ==> #[trigger] dir_texts(a@)[k] == dir_texts(b@)[k],
        decreases a@.len() - i,
    {
        let x = &a[i];
        let y = &b[i];
        let hashes = stands_at(&x.entries_hash, 0, &y.entries_hash);
        proof {
            let u = x.entries_hash@;
            let v = y.entries_hash@;
            assert(u.subrange(0, 32) =~= u);
        }
        if !same(&x.path, &y.path) || x.mtime_ns != y.mtime_ns || !hashes {
            assert(dir_texts(a@)[i as int] != dir_texts(b@)[i as int]);
            return false;
        }
        i += 1;
    }
    assert(dir_texts(a@) =~= dir_texts(b@));
    true
}

/// Whether two stamps say the same.
pub fn same_stamp(a: &SourcesStamp, b: &SourcesStamp) -> (r: bool)
    ensures
        r == (a@ == b@),
{
    same_pairs(&a.manifests, &b.manifests) && same_dirs(&a.dirs, &b.dirs)
}

/// The files that say what is left out of patterns; they need not exist.
pub open spec fn ignore_file(path: Seq<char>) -> bool {
    path == ".gitignore"@ || path == ".frostignore"@
}

/// The manifests that a stamp is about.
pub open spec fn stamped(stamp: StampText) -> Seq<Seq<char>> {
    Seq::new(stamp.manifests.len(), |i: int| stamp.manifests[i].0).filter(
        |p: Seq<char>| !ignore_file(p),
    )
}

/// The manifests that a stamp is about, which are read again to see whether
/// they have changed.
pub fn stamped_manifests(stamp: &SourcesStamp) -> (r: Vec<String>)
    ensures
        texts(r@) == stamped(stamp@),
{
    broadcast use crate::text::group_texts;

    let ghost all = Seq::new(stamp@.manifests.len(), |i: int| stamp@.manifests[i].0);
    let ghost kept = |p: Seq<char>| !ignore_file(p);
    let mut out: Vec<String> = Vec::new();
    let mut i: usize = 0;
    proof {
        reveal(Seq::filter);
        assert(all.take(0) =~= Seq::empty());
    }
    while i < stamp.manifests.len()
        invariant
            all == Seq::new(stamp@.manifests.len(), |i: int| stamp@.manifests[i].0),
            kept == (|p: Seq<char>| !ignore_file(p)),
            i <= stamp.manifests@.len(),
            texts(out@) == all.take(i as int).filter(kept),
        decreases stamp.manifests@.len() - i,
    {
        let path = &stamp.manifests[i].0;
        proof {
            assert(all.take(i + 1) =~= all.take(i as int).push(all[i as int]));
            all.take(i as int).lemma_filter_push(all[i as int], kept);
            assert(all[i as int] == path@);
        }
        if !same(path, ".gitignore") && !same(path, ".frostignore") {
            out.push(copy(path));
        }
        i += 1;
    }
    assert(all.take(i as int) =~= all);
    out
}

/// What a directory lists under a name: a link, a directory, a file, or
/// something else.
#[derive(Debug, Clone, Copy, PartialEq, Eq, Structural)]
pub enum FileKind {
    Link,
    Directory,
    File,
    Other,
}

/// The letter for a kind.
pub open spec fn kind_letter(kind: FileKind) -> u8 {
    match kind {
        FileKind::Link => 0x6c,
        FileKind::Directory => 0x64,
        FileKind::File => 0x66,
        FileKind::Other => 0x6f,
    }
}

fn letter_of(kind: FileKind) -> (r: u8)
    ensures
        r == kind_letter(kind),
{
    match kind {
        FileKind::Link => 0x6c,
        FileKind::Directory => 0x64,
        FileKind::File => 0x66,
        FileKind::Other => 0x6f,
    }
}

/// What a directory lists.
#[derive(Debug)]
pub struct Listed {
    pub name: Vec<u8>,
    pub kind: FileKind,
}

impl Ranked for Listed {
    open spec fn less(&self, other: &Self) -> bool {
        bytes_before(self.name@, other.name@) || (self.name@ == other.name@ && kind_letter(
            self.kind,
        ) < kind_letter(other.kind))
    }

    proof fn asymmetric(a: &Self, b: &Self) {
        if bytes_before(a.name@, b.name@) {
            bytes_before_asymmetric(a.name@, b.name@);
        }
        if bytes_before(b.name@, a.name@) {
            bytes_before_asymmetric(b.name@, a.name@);
        }
    }

    proof fn carries_over(a: &Self, b: &Self, c: &Self) {
        if bytes_before(a.name@, b.name@) {
            bytes_before_carries_over(a.name@, b.name@, c.name@);
        } else {
            crate::order::bytes_before_total(c.name@, b.name@);
        }
    }

    fn precedes(&self, other: &Self) -> (r: bool) {
        if bytes_precede(self.name.as_slice(), other.name.as_slice()) {
            return true;
        }
        let equal = self.name.len() == other.name.len() && stands_at(
            self.name.as_slice(),
            0,
            other.name.as_slice(),
        );
        proof {
            if self.name@.len() == other.name@.len() {
                assert(self.name@.subrange(0, other.name@.len() as int) =~= self.name@);
            }
        }
        equal && letter_of(self.kind) < letter_of(other.kind)
    }
}

/// A number in eight bytes, the lowest first.
pub open spec fn le64(n: int) -> Seq<u8> {
    le32(n % 0x1_0000_0000) + le32(n / 0x1_0000_0000)
}

/// What is hashed of a name in a directory: its length, the name and its kind.
pub open spec fn listed_bytes(e: Listed) -> Seq<u8> {
    le64(e.name@.len() as int) + e.name@ + seq![kind_letter(e.kind)]
}

/// What is hashed of the first `n` names.
pub open spec fn listing_bytes(v: Seq<Listed>, n: nat) -> Seq<u8>
    decreases n,
{
    if n == 0 {
        Seq::empty()
    } else {
        listing_bytes(v, (n - 1) as nat) + listed_bytes(v[n - 1])
    }
}

/// What is hashed of a directory: its names in order.
pub open spec fn directory_bytes(v: Seq<Listed>) -> Seq<u8> {
    let order = choose|order: Seq<int>| in_turn(order, v);
    listing_bytes(taken(v, order), v.len())
}

fn push_le64(out: &mut Vec<u8>, n: usize)
    ensures
        final(out)@ == old(out)@ + le64(n as int),
{
    let wide: u64 = n as u64;
    let low: usize = (wide % 0x1_0000_0000) as usize;
    push_le32(out, low);
    let high: usize = (wide / 0x1_0000_0000) as usize;
    push_le32(out, high);
    assert(out@ =~= old(out)@ + le64(n as int));
}

/// Names that neither discovery nor patterns look behind.
pub open spec fn skipped(name: Seq<char>) -> bool {
    name == ".git"@ || name == ".frost"@ || name == "target"@
}

/// Whether a directory of this name is left out.
pub fn is_skipped(name: &str) -> (r: bool)
    ensures
        r == skipped(name@),
{
    same(name, ".git") || same(name, ".frost") || same(name, "target")
}

/// The digest of what a directory lists. The order in which the system lists
/// it does not matter.
pub fn entries_hash(listed: &Vec<Listed>) -> (r: Vec<u8>)
    ensures
        r@ == blake3_of(directory_bytes(listed@)),
        r@.len() == 32,
{
    let order = order_of(listed);
    let ghost sorted = taken(listed@, ints(order@));
    let mut bytes: Vec<u8> = Vec::new();
    let mut i: usize = 0;
    assert(bytes@ =~= listing_bytes(sorted, 0));
    while i < order.len()
        invariant
            i <= order@.len(),
            sorted == taken(listed@, ints(order@)),
            forall|k: int| 0 <= k < order@.len() ==> #[trigger] order@[k] < listed@.len(),
            bytes@ == listing_bytes(sorted, i as nat),
        decreases order@.len() - i,
    {
        let e = &listed[order[i]];
        assert(sorted[i as int] == *e);
        let ghost was = bytes@;
        push_le64(&mut bytes, e.name.len());
        push_bytes(&mut bytes, e.name.as_slice());
        bytes.push(letter_of(e.kind));
        assert(bytes@ =~= was + listed_bytes(*e));
        i += 1;
    }
    proof {
        let chosen = choose|order: Seq<int>| in_turn(order, listed@);
        order_unique(chosen, ints(order@), listed@);
    }
    blake3_bytes(bytes.as_slice())
}

/// A number of 64 bits is read back from its bytes.
proof fn le64_differs(n: int, m: int)
    requires
        0 <= n < 0x1_0000_0000_0000_0000,
        0 <= m < 0x1_0000_0000_0000_0000,
        le64(n) == le64(m),
    ensures
        n == m,
{
    let big: int = 0x1_0000_0000;
    assert(le64(n).take(4) =~= le32(n % big));
    assert(le64(m).take(4) =~= le32(m % big));
    assert(le64(n).skip(4) =~= le32(n / big));
    assert(le64(m).skip(4) =~= le32(m / big));
    le32_read_back(n % big);
    le32_read_back(m % big);
    le32_read_back(n / big);
    le32_read_back(m / big);
}

/// What is hashed of a name tells where it ends, and what it is.
proof fn first_tells(a: Listed, b: Listed, x: Seq<u8>, y: Seq<u8>)
    requires
        a.name@.len() < 0x1_0000_0000_0000_0000,
        b.name@.len() < 0x1_0000_0000_0000_0000,
        listed_bytes(a) + x == listed_bytes(b) + y,
    ensures
        a.name@ == b.name@,
        a.kind == b.kind,
        x == y,
{
    let bytes = listed_bytes(a) + x;
    let m = a.name@.len() as int;
    assert(bytes.take(8) =~= le64(m));
    assert((listed_bytes(b) + y).take(8) =~= le64(b.name@.len() as int));
    le64_differs(m, b.name@.len() as int);
    assert(bytes.subrange(8, 8 + m) =~= a.name@);
    assert((listed_bytes(b) + y).subrange(8, 8 + m) =~= b.name@);
    assert(bytes[8 + m] == kind_letter(a.kind));
    assert((listed_bytes(b) + y)[8 + m] == kind_letter(b.kind));
    assert(bytes.skip(9 + m) =~= x);
    assert((listed_bytes(b) + y).skip(9 + m) =~= y);
}

/// What is hashed of a listing begins with what is hashed of its first name.
proof fn listing_from_front(v: Seq<Listed>, n: nat)
    requires
        0 < n <= v.len(),
    ensures
        listing_bytes(v, n) == listed_bytes(v[0]) + listing_bytes(v.skip(1), (n - 1) as nat),
    decreases n,
{
    if n == 1 {
        assert(listing_bytes(v, 0) =~= Seq::<u8>::empty());
        assert(listing_bytes(v, 1) =~= listed_bytes(v[0]));
        assert(listing_bytes(v.skip(1), 0) =~= Seq::<u8>::empty());
    } else {
        listing_from_front(v, (n - 1) as nat);
        assert(v.skip(1)[n - 2] == v[n - 1]);
        assert(listing_bytes(v, n) =~= listed_bytes(v[0]) + listing_bytes(
            v.skip(1),
            (n - 1) as nat,
        ));
    }
}

/// The lengths of names take eight bytes.
pub open spec fn lengths_fit(v: Seq<Listed>) -> bool {
    forall|i: int| 0 <= i < v.len() ==> (#[trigger] v[i]).name@.len() < 0x1_0000_0000_0000_0000
}

/// Two listings have the same names with the same kinds.
pub open spec fn same_listing(v: Seq<Listed>, w: Seq<Listed>) -> bool {
    v.len() == w.len() && forall|i: int|
        0 <= i < v.len() ==> (#[trigger] v[i]).name@ == w[i].name@ && v[i].kind == w[i].kind
}

proof fn lengths_fit_behind(v: Seq<Listed>)
    requires
        v.len() > 0,
        lengths_fit(v),
    ensures
        lengths_fit(v.skip(1)),
        v[0].name@.len() < 0x1_0000_0000_0000_0000,
{
    assert forall|i: int| 0 <= i < v.skip(1).len() implies (#[trigger] v.skip(1)[i]).name@.len()
        < 0x1_0000_0000_0000_0000 by {
        assert(v.skip(1)[i] == v[i + 1]);
    }
}

proof fn same_from_front(v: Seq<Listed>, w: Seq<Listed>)
    requires
        v.len() > 0,
        w.len() > 0,
        v[0].name@ == w[0].name@,
        v[0].kind == w[0].kind,
        same_listing(v.skip(1), w.skip(1)),
    ensures
        same_listing(v, w),
{
    assert forall|i: int| 0 <= i < v.len() implies (#[trigger] v[i]).name@ == w[i].name@
        && v[i].kind == w[i].kind by {
        if i > 0 {
            assert(v.skip(1)[i - 1] == v[i]);
            assert(w.skip(1)[i - 1] == w[i]);
        }
    }
}

/// What is hashed of a listing with names is not nothing.
proof fn listing_takes_bytes(v: Seq<Listed>, n: nat)
    requires
        n > 0,
    ensures
        listing_bytes(v, n).len() > 0,
{
    assert(listed_bytes(v[n - 1]).len() > 0);
}

/// The bytes that are hashed of a listing tell its names and their kinds.
proof fn listing_tells_all(v: Seq<Listed>, w: Seq<Listed>)
    requires
        listing_bytes(v, v.len()) == listing_bytes(w, w.len()),
        lengths_fit(v),
        lengths_fit(w),
    ensures
        same_listing(v, w),
    decreases v.len(),
{
    if v.len() == 0 || w.len() == 0 {
        assert(listing_bytes(v, 0).len() == 0);
        assert(listing_bytes(w, 0).len() == 0);
        if v.len() > 0 {
            listing_takes_bytes(v, v.len());
        }
        if w.len() > 0 {
            listing_takes_bytes(w, w.len());
        }
    } else {
        listing_from_front(v, v.len());
        listing_from_front(w, w.len());
        lengths_fit_behind(v);
        lengths_fit_behind(w);
        first_tells(
            v[0],
            w[0],
            listing_bytes(v.skip(1), (v.len() - 1) as nat),
            listing_bytes(w.skip(1), (w.len() - 1) as nat),
        );
        listing_tells_all(v.skip(1), w.skip(1));
        same_from_front(v, w);
    }
}

/// The bytes that are hashed of a directory tell what it lists: the same names
/// with the same kinds, however each was listed.
pub proof fn directory_tells_all(v: Seq<Listed>, w: Seq<Listed>, ov: Seq<int>, ow: Seq<int>)
    requires
        in_turn(ov, v),
        in_turn(ow, w),
        directory_bytes(v) == directory_bytes(w),
        lengths_fit(v),
        lengths_fit(w),
    ensures
        same_listing(taken(v, ov), taken(w, ow)),
{
    listing_order_is_irrelevant(v, ov);
    listing_order_is_irrelevant(w, ow);
    let a = taken(v, ov);
    let b = taken(w, ow);
    assert(lengths_fit(a)) by {
        assert forall|i: int| 0 <= i < a.len() implies (#[trigger] a[i]).name@.len()
            < 0x1_0000_0000_0000_0000 by {
            assert(a[i] == v[ov[i]]);
        }
    }
    assert(lengths_fit(b)) by {
        assert forall|i: int| 0 <= i < b.len() implies (#[trigger] b[i]).name@.len()
            < 0x1_0000_0000_0000_0000 by {
            assert(b[i] == w[ow[i]]);
        }
    }
    listing_tells_all(a, b);
}

/// The same names in another order have the same digest.
pub proof fn listing_order_is_irrelevant(v: Seq<Listed>, order: Seq<int>)
    requires
        in_turn(order, v),
    ensures
        directory_bytes(v) == listing_bytes(taken(v, order), v.len()),
{
    let chosen = choose|order: Seq<int>| in_turn(order, v);
    order_unique(chosen, order, v);
}

impl Ranked for DirStamp {
    open spec fn less(&self, other: &Self) -> bool {
        bytes_before(encode_utf8(self.path@), encode_utf8(other.path@))
    }

    proof fn asymmetric(a: &Self, b: &Self) {
        bytes_before_asymmetric(encode_utf8(a.path@), encode_utf8(b.path@));
    }

    proof fn carries_over(a: &Self, b: &Self, c: &Self) {
        bytes_before_carries_over(
            encode_utf8(a.path@),
            encode_utf8(b.path@),
            encode_utf8(c.path@),
        );
    }

    fn precedes(&self, other: &Self) -> (r: bool) {
        bytes_precede(
            self.path.as_str().as_bytes_vec().as_slice(),
            other.path.as_str().as_bytes_vec().as_slice(),
        )
    }
}

/// The states of directories in the order of their paths.
pub open spec fn dirs_in_order(dirs: Seq<DirStamp>) -> Seq<DirText> {
    let order = choose|order: Seq<int>| in_turn(order, dirs);
    dir_texts(taken(dirs, order))
}

fn sort_dirs(dirs: &Vec<DirStamp>) -> (r: Vec<DirStamp>)
    ensures
        dir_texts(r@) == dirs_in_order(dirs@),
{
    let order = order_of(dirs);
    let ghost want = dir_texts(taken(dirs@, ints(order@)));
    let mut out: Vec<DirStamp> = Vec::new();
    let mut i: usize = 0;
    while i < order.len()
        invariant
            i <= order@.len(),
            want == dir_texts(taken(dirs@, ints(order@))),
            forall|k: int| 0 <= k < order@.len() ==> #[trigger] order@[k] < dirs@.len(),
            dir_texts(out@) =~= want.take(i as int),
        decreases order@.len() - i,
    {
        let d = &dirs[order[i]];
        out.push(
            DirStamp { path: copy(&d.path), mtime_ns: d.mtime_ns, entries_hash: d.entries_hash },
        );
        assert(want.take(i + 1) =~= want.take(i as int).push(want[i as int]));
        i += 1;
    }
    proof {
        assert(want.take(i as int) =~= want);
        let chosen = choose|order: Seq<int>| in_turn(order, dirs@);
        order_unique(chosen, ints(order@), dirs@);
    }
    out
}

/// The digest of a file in a stamp.
pub open spec fn stamp_digest(content: Option<Seq<u8>>) -> Seq<char> {
    match content {
        Some(bytes) => hex_text(blake3_of(bytes)),
        None => "ABSENT"@,
    }
}

/// The digests of manifests.
pub open spec fn manifest_digests(paths: Seq<Seq<char>>, contents: Seq<Vec<u8>>) -> Seq<
    (Seq<char>, Seq<char>),
> {
    Seq::new(paths.len(), |i: int| (paths[i], hex_text(blake3_of(contents[i]@))))
}

/// An entry for a file of patterns that are left out, unless it is among the
/// manifests.
pub open spec fn ignore_digest(
    paths: Seq<Seq<char>>,
    path: Seq<char>,
    content: Option<Seq<u8>>,
) -> Seq<(Seq<char>, Seq<char>)> {
    if paths.contains(path) {
        Seq::empty()
    } else {
        seq![(path, stamp_digest(content))]
    }
}

/// The contents of a file, where there is one.
pub open spec fn contents_of(content: Option<Vec<u8>>) -> Option<Seq<u8>> {
    match content {
        Some(bytes) => Some(bytes@),
        None => None,
    }
}

fn push_ignore(
    out: &mut Vec<(String, String)>,
    paths: &Vec<String>,
    path: &str,
    content: &Option<Vec<u8>>,
)
    ensures
        pair_texts(final(out)@) == pair_texts(old(out)@) + ignore_digest(
            texts(paths@),
            path@,
            contents_of(*content),
        ),
{
    let ghost was = pair_texts(out@);
    if lists(paths, path) {
        assert(pair_texts(out@) =~= was + Seq::<(Seq<char>, Seq<char>)>::empty());
        return ;
    }
    let digest = match content {
        Some(bytes) => blake3_hex(bytes.as_slice()),
        None => copy("ABSENT"),
    };
    out.push((copy(path), digest));
    assert(pair_texts(out@) =~= was + ignore_digest(texts(paths@), path@, contents_of(*content)));
}

/// What the stamp of a workspace says.
pub open spec fn stamp_for(
    paths: Seq<Seq<char>>,
    contents: Seq<Vec<u8>>,
    gitignore: Option<Seq<u8>>,
    frostignore: Option<Seq<u8>>,
    dirs: Seq<DirStamp>,
) -> StampText {
    StampText {
        manifests: manifest_digests(paths, contents) + ignore_digest(
            paths,
            ".gitignore"@,
            gitignore,
        ) + ignore_digest(paths, ".frostignore"@, frostignore),
        dirs: dirs_in_order(dirs),
    }
}

/// Equal stamps of the same manifests mean equal digests of every manifest and
/// of the files of patterns that are left out, and equal states of every
/// directory.
pub proof fn stamp_tells_all(
    paths: Seq<Seq<char>>,
    contents: Seq<Vec<u8>>,
    gitignore: Option<Seq<u8>>,
    frostignore: Option<Seq<u8>>,
    dirs: Seq<DirStamp>,
    other_contents: Seq<Vec<u8>>,
    other_gitignore: Option<Seq<u8>>,
    other_frostignore: Option<Seq<u8>>,
    other_dirs: Seq<DirStamp>,
)
    requires
        stamp_for(paths, contents, gitignore, frostignore, dirs) == stamp_for(
            paths,
            other_contents,
            other_gitignore,
            other_frostignore,
            other_dirs,
        ),
    ensures
        forall|i: int|
            0 <= i < paths.len() ==> #[trigger] blake3_of(contents[i]@) == blake3_of(
                other_contents[i]@,
            ),
        !paths.contains(".gitignore"@) ==> stamp_digest(gitignore) == stamp_digest(
            other_gitignore,
        ),
        !paths.contains(".frostignore"@) ==> stamp_digest(frostignore) == stamp_digest(
            other_frostignore,
        ),
        dirs_in_order(dirs) == dirs_in_order(other_dirs),
{
    let a = stamp_for(paths, contents, gitignore, frostignore, dirs).manifests;
    let n = paths.len() as int;
    let first = ignore_digest(paths, ".gitignore"@, gitignore);
    let m = first.len() as int;
    assert forall|i: int| 0 <= i < n implies #[trigger] blake3_of(contents[i]@) == blake3_of(
        other_contents[i]@,
    ) by {
        assert(a[i] == manifest_digests(paths, contents)[i]);
        assert(a[i] == manifest_digests(paths, other_contents)[i]);
        hex_tells_all(blake3_of(contents[i]@), blake3_of(other_contents[i]@));
    }
    if !paths.contains(".gitignore"@) {
        assert(a[n] == (".gitignore"@, stamp_digest(gitignore)));
        assert(a[n] == (".gitignore"@, stamp_digest(other_gitignore)));
    }
    if !paths.contains(".frostignore"@) {
        assert(a[n + m] == (".frostignore"@, stamp_digest(frostignore)));
        assert(a[n + m] == (".frostignore"@, stamp_digest(other_frostignore)));
    }
}

/// A directory that lists something else than before has another state, where
/// the digests of the two listings differ as the listings do.
pub proof fn new_file_is_seen(
    dirs: Seq<DirStamp>,
    other_dirs: Seq<DirStamp>,
    order: Seq<int>,
    other_order: Seq<int>,
    i: int,
    v: Seq<Listed>,
    w: Seq<Listed>,
    ov: Seq<int>,
    ow: Seq<int>,
)
    requires
        in_turn(order, dirs),
        in_turn(other_order, other_dirs),
        0 <= i < dirs.len(),
        dirs[i].entries_hash@ == blake3_of(directory_bytes(v)),
        forall|j: int|
            0 <= j < other_dirs.len() && (#[trigger] other_dirs[j]).path@ == dirs[i].path@
                ==> other_dirs[j].entries_hash@ == blake3_of(directory_bytes(w)),
        blake3_of(directory_bytes(v)) == blake3_of(directory_bytes(w)) ==> directory_bytes(v)
            == directory_bytes(w),
        in_turn(ov, v),
        in_turn(ow, w),
        lengths_fit(v),
        lengths_fit(w),
        !same_listing(taken(v, ov), taken(w, ow)),
    ensures
        dirs_in_order(dirs) != dirs_in_order(other_dirs),
{
    let one = choose|order: Seq<int>| in_turn(order, dirs);
    let two = choose|order: Seq<int>| in_turn(order, other_dirs);
    order_unique(one, order, dirs);
    order_unique(two, other_order, other_dirs);
    let a = dir_texts(taken(dirs, order));
    let b = dir_texts(taken(other_dirs, other_order));
    if a == b {
        let k = listed(order, dirs.len(), i);
        assert(a.len() == order.len() && b.len() == other_order.len());
        assert(a[k] == dirs[i]@);
        let j = other_order[k];
        assert(b[k] == other_dirs[j]@);
        assert(other_dirs[j].path@ == dirs[i].path@);
        directory_tells_all(v, w, ov, ow);
    }
}

/// The stamp of a workspace: from the contents of its manifests and of the
/// files of patterns that are left out, and the states of its directories.
pub fn sources_stamp(
    paths: &Vec<String>,
    contents: &Vec<Vec<u8>>,
    gitignore: &Option<Vec<u8>>,
    frostignore: &Option<Vec<u8>>,
    dirs: &Vec<DirStamp>,
) -> (r: SourcesStamp)
    requires
        paths@.len() == contents@.len(),
    ensures
        r@ == stamp_for(
            texts(paths@),
            contents@,
            contents_of(*gitignore),
            contents_of(*frostignore),
            dirs@,
        ),
{
    let ghost want = manifest_digests(texts(paths@), contents@);
    let mut manifests: Vec<(String, String)> = Vec::new();
    let mut i: usize = 0;
    while i < paths.len()
        invariant
            paths@.len() == contents@.len(),
            want == manifest_digests(texts(paths@), contents@),
            i <= paths@.len(),
            pair_texts(manifests@) =~= want.take(i as int),
        decreases paths@.len() - i,
    {
        manifests.push((copy(&paths[i]), blake3_hex(contents[i].as_slice())));
        assert(want.take(i + 1) =~= want.take(i as int).push(want[i as int]));
        i += 1;
    }
    assert(want.take(i as int) =~= want);
    push_ignore(&mut manifests, paths, ".gitignore", gitignore);
    push_ignore(&mut manifests, paths, ".frostignore", frostignore);
    SourcesStamp { manifests, dirs: sort_dirs(dirs) }
}

// ---------------------------------------------------------------------------
// What the store answers
// ---------------------------------------------------------------------------

/// The file of a graph, in a workspace.
pub open spec fn store_name(profile: Seq<char>, platform: Seq<char>) -> Seq<char> {
    if platform == HOST_PLATFORM@ {
        ".frost/graph-"@ + profile + ".bin"@
    } else {
        ".frost/graph-"@ + platform + "@"@ + profile + ".bin"@
    }
}

/// Different profiles or platforms have their graphs in different files.
pub proof fn stores_are_isolated(
    profile: Seq<char>,
    platform: Seq<char>,
    other_profile: Seq<char>,
    other_platform: Seq<char>,
)
    requires
        plain_name(profile),
        plain_name(platform),
        plain_name(other_profile),
        plain_name(other_platform),
        store_name(profile, platform) == store_name(other_profile, other_platform),
    ensures
        profile == other_profile,
        platform == other_platform,
{
    reveal_strlit("@");
    let a = store_name(profile, platform);
    let b = store_name(other_profile, other_platform);
    let head = ".frost/graph-"@.len() as int;
    let tail = ".bin"@.len() as int;
    let x = a.subrange(head, a.len() - tail);
    let y = b.subrange(head, b.len() - tail);
    if platform == HOST_PLATFORM@ {
        assert(x =~= profile);
    } else {
        assert(x =~= platform + "@"@ + profile);
    }
    if other_platform == HOST_PLATFORM@ {
        assert(y =~= other_profile);
    } else {
        assert(y =~= other_platform + "@"@ + other_profile);
    }
    if platform != HOST_PLATFORM@ {
        assert(x[platform.len() as int] == '@');
        if other_platform == HOST_PLATFORM@ {
            assert(other_profile[platform.len() as int] == '@');
        } else {
            assert(y[other_platform.len() as int] == '@');
            if platform.len() < other_platform.len() {
                assert(other_platform[platform.len() as int] == '@');
            } else if platform.len() > other_platform.len() {
                assert(platform[other_platform.len() as int] == '@');
            }
            assert(x.take(platform.len() as int) =~= platform);
            assert(y.take(platform.len() as int) =~= other_platform);
            assert(x.skip(platform.len() as int + 1) =~= profile);
            assert(y.skip(platform.len() as int + 1) =~= other_profile);
        }
    } else if other_platform != HOST_PLATFORM@ {
        assert(y[other_platform.len() as int] == '@');
        assert(profile[other_platform.len() as int] == '@');
    }
}

/// The file of a graph.
pub fn store_path(root: &str, profile: &str, platform: &str) -> (r: String)
    ensures
        r@ == joined_path(root@, store_name(profile@, platform@)),
{
    let mut name = copy(".frost/graph-");
    if !same(platform, HOST_PLATFORM) {
        name.append(platform);
        name.append("@");
    }
    name.append(profile);
    name.append(".bin");
    join_path(root, &name)
}

/// The digest of what a graph is made from, given in its encoding.
pub fn manifest_fingerprint(encoded: &[u8]) -> (r: Vec<u8>)
    ensures
        r@ == blake3_of(encoded@),
        r@.len() == 32,
{
    blake3_bytes(encoded)
}

/// What a file gives of the graph that was made from what has this digest.
pub open spec fn matching(bytes: Seq<u8>, fingerprint: Seq<u8>) -> Result<Seq<u8>, StoreError> {
    match store_in(bytes) {
        Err(fault) => Err(fault),
        Ok(parts) => if parts.fingerprint == fingerprint {
            Ok(parts.payload)
        } else {
            Err(StoreError::Stale)
        },
    }
}

/// What a file gives of its graph where the workspace has this stamp now.
pub open spec fn cached(bytes: Seq<u8>, current: StampText) -> Result<Seq<u8>, StoreError> {
    match store_in(bytes) {
        Err(fault) => Err(fault),
        Ok(parts) => if parts.stamp == current {
            Ok(parts.payload)
        } else {
            Err(StoreError::SourcesChanged)
        },
    }
}

/// The digest of what the graph of a file was made from, where the workspace
/// has this stamp now and had it then.
pub open spec fn current_digest(bytes: Seq<u8>, current: StampText) -> Option<Seq<u8>> {
    match store_in(bytes) {
        Err(_) => None,
        Ok(parts) => if parts.stamp == current {
            Some(parts.fingerprint)
        } else {
            None
        },
    }
}

/// `g` is a graph for this profile and this platform.
pub open spec fn is_for(g: BuildGraph, profile: Seq<char>, platform: Seq<char>) -> bool {
    g.profile@ == profile && g.platform@ == platform
}

/// The graph that is kept in a file.
#[derive(Debug, Clone, Copy, PartialEq, Eq)]
pub struct GraphStore;

impl GraphStore {
    /// The encoded graph of a file that is well formed.
    pub fn validate_bytes(bytes: &[u8]) -> (r: Result<Vec<u8>, StoreError>)
        ensures
            match r {
                Ok(payload) => store_in(bytes@) is Ok && payload@ == store_in(bytes@)->Ok_0.payload,
                Err(e) => store_in(bytes@) == Err::<StoreText, StoreError>(e),
            },
    {
        match parse_header(bytes) {
            Ok(parsed) => Ok(parsed.payload),
            Err(e) => Err(e),
        }
    }

    /// The encoded graph of a file, where it was made from what has this
    /// digest.
    pub fn load_matching(bytes: &[u8], fingerprint: &[u8]) -> (r: Result<Vec<u8>, StoreError>)
        ensures
            match r {
                Ok(payload) => matching(bytes@, fingerprint@) == Ok::<Seq<u8>, StoreError>(
                    payload@,
                ),
                Err(e) => matching(bytes@, fingerprint@) == Err::<Seq<u8>, StoreError>(e),
            },
    {
        match parse_header(bytes) {
            Err(e) => Err(e),
            Ok(parsed) => {
                let found = parsed.fingerprint.as_slice();
                let equal = found.len() == fingerprint.len() && stands_at(found, 0, fingerprint);
                proof {
                    if found@.len() == fingerprint@.len() {
                        assert(found@.subrange(0, fingerprint@.len() as int) =~= found@);
                    }
                }
                if equal {
                    Ok(parsed.payload)
                } else {
                    Err(StoreError::Stale)
                }
            },
        }
    }

    /// The encoded graph of a file, where what it was made from is as it was:
    /// `current` is the stamp of the workspace now. No manifest is read.
    pub fn load_cached(bytes: &[u8], current: &SourcesStamp) -> (r: Result<Vec<u8>, StoreError>)
        ensures
            match r {
                Ok(payload) => cached(bytes@, current@) == Ok::<Seq<u8>, StoreError>(payload@),
                Err(e) => cached(bytes@, current@) == Err::<Seq<u8>, StoreError>(e),
            },
    {
        match parse_header(bytes) {
            Err(e) => Err(e),
            Ok(parsed) => if same_stamp(&parsed.stamp, current) {
                Ok(parsed.payload)
            } else {
                Err(StoreError::SourcesChanged)
            },
        }
    }

    /// The digest of what the graph of a file was made from, where that is as
    /// it was.
    pub fn cached_fingerprint(bytes: &[u8], current: &SourcesStamp) -> (r: Option<Vec<u8>>)
        ensures
            match r {
                Some(fingerprint) => current_digest(bytes@, current@) == Some(fingerprint@)
                    && fingerprint@.len() == 32,
                None => current_digest(bytes@, current@) is None,
            },
    {
        match parse_header(bytes) {
            Err(_) => None,
            Ok(parsed) => if same_stamp(&parsed.stamp, current) {
                Some(parsed.fingerprint)
            } else {
                None
            },
        }
    }

    /// Whether what the graph of a file was made from is as it was.
    pub fn cached_sources_current(bytes: &[u8], current: &SourcesStamp) -> (r: bool)
        ensures
            r == (current_digest(bytes@, current@) is Some),
    {
        GraphStore::cached_fingerprint(bytes, current).is_some()
    }

    /// The graph of a file where it is one for this profile and this platform.
    pub fn for_configuration(graph: BuildGraph, profile: &str, platform: &str) -> (r: Option<
        BuildGraph,
    >)
        ensures
            r == (if is_for(graph, profile@, platform@) {
                Some(graph)
            } else {
                None
            }),
    {
        if same(&graph.profile, profile) && same(&graph.platform, platform) {
            Some(graph)
        } else {
            None
        }
    }

    /// The graph of a workspace for a profile and a platform. `kept` is the
    /// graph of the file, where it was made from this manifest; it is taken
    /// where it is for them. Otherwise the graph is made. Also says whether the
    /// file must be written: for a graph that was made, and for one that was
    /// kept where the stamp of the file is no longer that of the workspace.
    pub fn load_or_compile_configured(
        manifest: &Manifest,
        profile: &str,
        platform: &str,
        kept: Option<BuildGraph>,
        sources_current: bool,
    ) -> (r: Result<(BuildGraph, bool), GraphError>)
        requires
            manifest.wf(),
        ensures
            loads(*manifest, profile@, platform@, kept, sources_current, r),
    {
        if let Some(graph) = kept {
            if let Some(graph) = GraphStore::for_configuration(graph, profile, platform) {
                return Ok((graph, !sources_current));
            }
        }
        match BuildGraph::from_manifest_configured(manifest, profile, platform) {
            Ok(graph) => Ok((graph, true)),
            Err(e) => Err(e),
        }
    }

    /// The graph of a workspace for a profile on this machine.
    pub fn load_or_compile(
        manifest: &Manifest,
        profile: &str,
        kept: Option<BuildGraph>,
        sources_current: bool,
    ) -> (r: Result<(BuildGraph, bool), GraphError>)
        requires
            manifest.wf(),
        ensures
            loads(*manifest, profile@, HOST_PLATFORM@, kept, sources_current, r),
    {
        GraphStore::load_or_compile_configured(
            manifest,
            profile,
            HOST_PLATFORM,
            kept,
            sources_current,
        )
    }
}

/// What comes of looking for the graph of a workspace: the kept one, where it
/// is for the profile and the platform, and else what is made.
pub open spec fn loads(
    m: Manifest,
    profile: Seq<char>,
    platform: Seq<char>,
    kept: Option<BuildGraph>,
    sources_current: bool,
    r: Result<(BuildGraph, bool), GraphError>,
) -> bool {
    if kept is Some && is_for(kept->0, profile, platform) {
        r == Ok::<(BuildGraph, bool), GraphError>((kept->0, !sources_current))
    } else {
        match r {
            Ok((g, save)) => save && g.wf() && graph_of(m, profile, platform, g),
            Err(e) => no_graph(m, profile, platform, e@),
        }
    }
}

/// The graph that a file gives for what has this digest, where its payload can
/// be decoded.
pub open spec fn kept_graph(
    file: Seq<u8>,
    fingerprint: Seq<u8>,
    decode: spec_fn(Seq<u8>) -> Option<BuildGraph>,
) -> Option<BuildGraph> {
    match matching(file, fingerprint) {
        Ok(payload) => decode(payload),
        Err(_) => None,
    }
}

/// A file of a graph that was made from `m` for a profile and a platform: under
/// the digest of these, with a stamp, and with the encoded graph.
pub open spec fn written_for(
    file: Seq<u8>,
    fingerprint: Seq<u8>,
    decode: spec_fn(Seq<u8>) -> Option<BuildGraph>,
    m: Manifest,
    profile: Seq<char>,
    platform: Seq<char>,
) -> bool {
    &&& store_in(file) is Ok
    &&& store_in(file)->Ok_0.fingerprint == fingerprint
    &&& decode(store_in(file)->Ok_0.payload) is Some
    &&& graph_of(m, profile, platform, decode(store_in(file)->Ok_0.payload)->0)
}

/// The graph that a loaded result has is for the profile and the platform that
/// were asked for, whatever was kept.
pub proof fn loaded_graph_is_asked_for(
    m: Manifest,
    profile: Seq<char>,
    platform: Seq<char>,
    kept: Option<BuildGraph>,
    sources_current: bool,
    r: Result<(BuildGraph, bool), GraphError>,
)
    requires
        loads(m, profile, platform, kept, sources_current, r),
        r is Ok,
    ensures
        is_for(r->Ok_0.0, profile, platform),
{
}

/// A stale or corrupt file never shows in the result. The file gives no graph,
/// or it was written for some manifest, profile and platform under the digest
/// of these; `digest` tells those from the ones asked for. Then the result is
/// the graph that the manifest has, or why it has none.
pub proof fn store_never_shows(
    m: Manifest,
    profile: Seq<char>,
    platform: Seq<char>,
    file: Seq<u8>,
    decode: spec_fn(Seq<u8>) -> Option<BuildGraph>,
    digest: spec_fn(Manifest, Seq<char>, Seq<char>) -> Seq<u8>,
    sources_current: bool,
    r: Result<(BuildGraph, bool), GraphError>,
)
    requires
        kept_graph(file, digest(m, profile, platform), decode) is None || exists|m0: Manifest, p0: Seq<char>, q0: Seq<char>| #[trigger]
            written_for(file, digest(m0, p0, q0), decode, m0, p0, q0) && (digest(m0, p0, q0)
                == digest(m, profile, platform) ==> m0 == m && p0 == profile && q0 == platform),
        loads(
            m,
            profile,
            platform,
            kept_graph(file, digest(m, profile, platform), decode),
            sources_current,
            r,
        ),
    ensures
        match r {
            Ok((g, save)) => graph_of(m, profile, platform, g),
            Err(e) => no_graph(m, profile, platform, e@),
        },
{
}

/// The graph that is taken without a manifest is the one that the manifest has:
/// the file was written for some manifest, profile and platform, and while the
/// stamp is the same the manifest is.
pub proof fn warm_graph_is_current(
    m: Manifest,
    profile: Seq<char>,
    platform: Seq<char>,
    file: Seq<u8>,
    fingerprint: Seq<u8>,
    decode: spec_fn(Seq<u8>) -> Option<BuildGraph>,
    current: StampText,
    m0: Manifest,
    p0: Seq<char>,
    q0: Seq<char>,
    g: BuildGraph,
)
    requires
        written_for(file, fingerprint, decode, m0, p0, q0),
        store_in(file)->Ok_0.stamp == current ==> m0 == m,
        cached(file, current) is Ok,
        decode(cached(file, current)->Ok_0) == Some(g),
        is_for(g, profile, platform),
    ensures
        graph_of(m, profile, platform, g),
{
}

/// A file gives out only what was written to it under the digest that is asked
/// for.
pub proof fn matching_was_written(
    fingerprint: Seq<u8>,
    stamp: StampText,
    code: Seq<u8>,
    payload: Seq<u8>,
    asked: Seq<u8>,
)
    requires
        fingerprint.len() == 32,
        code.len() < 0x1_0000_0000,
        stamp_of(code) == Some(stamp),
    ensures
        matching(store_code(fingerprint, code, payload), asked) == (if asked == fingerprint {
            Ok::<Seq<u8>, StoreError>(payload)
        } else {
            Err::<Seq<u8>, StoreError>(StoreError::Stale)
        }),
{
    store_read_back(fingerprint, stamp, code, payload);
}

/// What was written is given out without a manifest exactly while the stamp is
/// the same.
pub proof fn cached_while_unchanged(
    fingerprint: Seq<u8>,
    stamp: StampText,
    code: Seq<u8>,
    payload: Seq<u8>,
    current: StampText,
)
    requires
        fingerprint.len() == 32,
        code.len() < 0x1_0000_0000,
        stamp_of(code) == Some(stamp),
    ensures
        ({
            let file = store_code(fingerprint, code, payload);
            &&& cached(file, current) == (if current == stamp {
                Ok::<Seq<u8>, StoreError>(payload)
            } else {
                Err::<Seq<u8>, StoreError>(StoreError::SourcesChanged)
            })
            &&& current_digest(file, current) == (if current == stamp {
                Some(fingerprint)
            } else {
                None
            })
        }),
{
    store_read_back(fingerprint, stamp, code, payload);
}

/// A graph is given out without a manifest only where the sources are current.
pub proof fn cached_means_current(file: Seq<u8>, current: StampText)
    ensures
        cached(file, current) is Ok <==> current_digest(file, current) is Some,
{
}

/// A file gives nothing out without a manifest once a manifest, a file of
/// patterns that are left out, or a directory is not as it was when the file
/// was written.
pub proof fn changes_are_seen(
    fingerprint: Seq<u8>,
    code: Seq<u8>,
    payload: Seq<u8>,
    paths: Seq<Seq<char>>,
    contents: Seq<Vec<u8>>,
    gitignore: Option<Seq<u8>>,
    frostignore: Option<Seq<u8>>,
    dirs: Seq<DirStamp>,
    other_contents: Seq<Vec<u8>>,
    other_gitignore: Option<Seq<u8>>,
    other_frostignore: Option<Seq<u8>>,
    other_dirs: Seq<DirStamp>,
)
    requires
        fingerprint.len() == 32,
        code.len() < 0x1_0000_0000,
        stamp_of(code) == Some(stamp_for(paths, contents, gitignore, frostignore, dirs)),
        (exists|i: int|
            0 <= i < paths.len() && #[trigger] blake3_of(contents[i]@) != blake3_of(
                other_contents[i]@,
            )) || (!paths.contains(".gitignore"@) && stamp_digest(gitignore) != stamp_digest(
            other_gitignore,
        )) || (!paths.contains(".frostignore"@) && stamp_digest(frostignore) != stamp_digest(
            other_frostignore,
        )) || dirs_in_order(dirs) != dirs_in_order(other_dirs),
    ensures
        ({
            let file = store_code(fingerprint, code, payload);
            let now = stamp_for(
                paths,
                other_contents,
                other_gitignore,
                other_frostignore,
                other_dirs,
            );
            &&& cached(file, now) == Err::<Seq<u8>, StoreError>(StoreError::SourcesChanged)
            &&& current_digest(file, now) is None
        }),
{
    let was = stamp_for(paths, contents, gitignore, frostignore, dirs);
    let now = stamp_for(paths, other_contents, other_gitignore, other_frostignore, other_dirs);
    if was == now {
        stamp_tells_all(
            paths,
            contents,
            gitignore,
            frostignore,
            dirs,
            other_contents,
            other_gitignore,
            other_frostignore,
            other_dirs,
        );
    }
    cached_while_unchanged(fingerprint, was, code, payload, now);
}

/// Every manifest of a stamp is read again, but for the files that say what is left
/// out of patterns.
pub proof fn every_manifest_is_read_again(stamp: SourcesStamp, r: Vec<String>, i: int)
    requires
        call_ensures(stamped_manifests, (&stamp,), r),
        0 <= i < stamp@.manifests.len(),
    ensures
        stamp@.manifests[i].0 != ".gitignore"@ && stamp@.manifests[i].0 != ".frostignore"@ ==> texts(
            r@,
        ).contains(stamp@.manifests[i].0),
{
    let all = Seq::new(stamp@.manifests.len(), |i: int| stamp@.manifests[i].0);
    let keep = |p: Seq<char>| !ignore_file(p);
    assert(all[i] == stamp@.manifests[i].0);
    if keep(all[i]) {
        all.lemma_filter_contains(keep, i);
    }
}

} // verus!
