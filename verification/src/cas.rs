//! The store of build outputs by content.

use vstd::prelude::*;
use vstd::string::*;
use vstd::utf8::*;

use crate::bytes::push_bytes;
use crate::digest::{blake3_hex, blake3_of, hex_digit, hex_text, to_hex};
use crate::fastcdc::{
    chunks_tile, tiles, FastCdc, DEFAULT_AVG, DEFAULT_MAX, DEFAULT_MIN, DEFAULT_NORMALIZATION,
};
use crate::hashcache::{hash_file, hashed_bytes};
use crate::order::{in_turn, listed, lists_all, order_of, Ranked};
use crate::path_set::{
    path_before, path_before_asymmetric, path_before_carries_over, path_precedes,
};
use crate::paths::{join_path, joined_path};
use crate::sorted_map::TextSet;
use crate::text::{
    chars_of, copy, same, text_between, texts,
};
use crate::toposort::ints;
use crate::wheel::{sha256_bytes, sha256_of};

verus! {

pub const CAS_REL: &'static str = ".frost/cas/objects";

pub const CHUNKS_REL: &'static str = ".frost/cas/chunks";

pub const MANIFESTS_REL: &'static str = ".frost/cas/manifests";

pub const DELTAS_REL: &'static str = ".frost/cas/deltas";

pub const ARTIFACTS_REL: &'static str = ".frost/cas/artifacts";

pub const GC_STAMP_REL: &'static str = ".frost/cas/gc.stamp";

/// How long a store that this build has not changed is left alone after it was
/// looked through, in milliseconds.
pub const GC_INTERVAL_MS: u64 = 60_000;

/// Objects that are not larger are kept whole only.
pub const CHUNKING_THRESHOLD: u64 = 2 * 1024 * 1024;

pub const CHUNK_MANIFEST_VERSION: u32 = 2;

/// How a chunk is made from another: the chunk that it is made from, and the
/// patch.
#[derive(Debug)]
pub struct DeltaRef {
    pub base_sha256: String,
    pub patch_sha256: String,
    pub patch_bytes: u32,
}

/// A chunk of an object.
#[derive(Debug)]
pub struct ChunkRef {
    pub sha256: String,
    pub length: u32,
    pub delta: Option<DeltaRef>,
}

/// The chunks of an object.
#[derive(Debug)]
pub struct ChunkManifest {
    pub version: u32,
    pub blob_digest: String,
    pub total_bytes: u64,
    pub executable: bool,
    pub average: u32,
    pub minimum: u32,
    pub maximum: u32,
    pub normalization: u8,
    pub seed: u64,
    pub chunks: Vec<ChunkRef>,
}

/// How a chunk is made from another.
pub struct DeltaText {
    pub base_sha256: Seq<char>,
    pub patch_sha256: Seq<char>,
    pub patch_bytes: u32,
}

/// A chunk of an object.
pub struct ChunkText {
    pub sha256: Seq<char>,
    pub length: u32,
    pub delta: Option<DeltaText>,
}

/// The chunks of an object.
#[verifier::ext_equal]
pub struct ManifestText {
    pub version: u32,
    pub blob_digest: Seq<char>,
    pub total_bytes: u64,
    pub executable: bool,
    pub average: u32,
    pub minimum: u32,
    pub maximum: u32,
    pub normalization: u8,
    pub seed: u64,
    pub chunks: Seq<ChunkText>,
}

impl View for DeltaRef {
    type V = DeltaText;

    open spec fn view(&self) -> DeltaText {
        DeltaText {
            base_sha256: self.base_sha256@,
            patch_sha256: self.patch_sha256@,
            patch_bytes: self.patch_bytes,
        }
    }
}

/// How a chunk is made from another, where it is.
pub open spec fn delta_text(d: Option<DeltaRef>) -> Option<DeltaText> {
    match d {
        Some(delta) => Some(delta@),
        None => None,
    }
}

impl View for ChunkRef {
    type V = ChunkText;

    open spec fn view(&self) -> ChunkText {
        ChunkText { sha256: self.sha256@, length: self.length, delta: delta_text(self.delta) }
    }
}

/// Chunks of an object.
pub open spec fn chunk_texts(v: Seq<ChunkRef>) -> Seq<ChunkText> {
    Seq::new(v.len(), |i: int| v[i]@)
}

impl View for ChunkManifest {
    type V = ManifestText;

    open spec fn view(&self) -> ManifestText {
        ManifestText {
            version: self.version,
            blob_digest: self.blob_digest@,
            total_bytes: self.total_bytes,
            executable: self.executable,
            average: self.average,
            minimum: self.minimum,
            maximum: self.maximum,
            normalization: self.normalization,
            seed: self.seed,
            chunks: chunk_texts(self.chunks@),
        }
    }
}

// ---------------------------------------------------------------------------
// Manifests
// ---------------------------------------------------------------------------

/// A hexadecimal digit in lower or upper case.
pub open spec fn is_hex(c: char) -> bool {
    '0' <= c <= '9' || 'a' <= c <= 'f' || 'A' <= c <= 'F'
}

/// A digest of 32 bytes in hexadecimal.
pub open spec fn hex_digest(s: Seq<char>) -> bool {
    s.len() == 64 && forall|i: int| 0 <= i < 64 ==> is_hex(#[trigger] s[i])
}

/// A chunk in a valid manifest.
pub open spec fn valid_chunk(c: ChunkText) -> bool {
    &&& 0 < c.length <= DEFAULT_MAX
    &&& hex_digest(c.sha256)
    &&& match c.delta {
        None => true,
        Some(d) => hex_digest(d.base_sha256) && hex_digest(d.patch_sha256) && d.patch_bytes > 0,
    }
}

/// Where chunk `n` begins.
pub open spec fn starts_at(chunks: Seq<ChunkText>, n: int) -> int
    decreases n,
{
    if n <= 0 {
        0
    } else {
        starts_at(chunks, n - 1) + chunks[n - 1].length
    }
}

/// A manifest of the object with this digest: made with the sizes in use, with
/// chunks that are valid and make up the whole object.
pub open spec fn valid(m: ManifestText, expected: Seq<char>) -> bool {
    &&& m.version == CHUNK_MANIFEST_VERSION
    &&& m.blob_digest == expected
    &&& m.average == DEFAULT_AVG
    &&& m.minimum == DEFAULT_MIN
    &&& m.maximum == DEFAULT_MAX
    &&& m.normalization == DEFAULT_NORMALIZATION
    &&& m.seed == 0
    &&& m.chunks.len() > 0
    &&& forall|i: int| 0 <= i < m.chunks.len() ==> valid_chunk(#[trigger] m.chunks[i])
    &&& starts_at(m.chunks, m.chunks.len() as int) == m.total_bytes
}

fn is_hex_digest(s: &str) -> (r: bool)
    ensures
        r == hex_digest(s@),
{
    let a = chars_of(s);
    if a.len() != 64 {
        return false;
    }
    let mut i: usize = 0;
    while i < 64
        invariant
            i <= 64,
            a@ == s@,
            a@.len() == 64,
            forall|k: int| 0 <= k < i ==> is_hex(#[trigger] a@[k]),
        decreases 64 - i,
    {
        let c = a[i];
        if !(('0' <= c && c <= '9') || ('a' <= c && c <= 'f') || ('A' <= c && c <= 'F')) {
            assert(!is_hex(a@[i as int]));
            return false;
        }
        i += 1;
    }
    true
}

fn is_valid_chunk(c: &ChunkRef) -> (r: bool)
    ensures
        r == valid_chunk(c@),
{
    c.length > 0 && c.length as usize <= DEFAULT_MAX && is_hex_digest(&c.sha256) && match &c.delta {
        None => true,
        Some(d) => is_hex_digest(&d.base_sha256) && is_hex_digest(&d.patch_sha256)
            && d.patch_bytes > 0,
    }
}

proof fn starts_grow(chunks: Seq<ChunkText>, i: int, n: int)
    requires
        0 <= i <= n,
    ensures
        0 <= starts_at(chunks, i) <= starts_at(chunks, n),
    decreases n,
{
    if i < n {
        starts_grow(chunks, i, n - 1);
    } else if i > 0 {
        starts_grow(chunks, i - 1, i - 1);
    }
}

/// Whether a manifest is a valid one of the object with this digest.
pub fn valid_manifest(manifest: &ChunkManifest, expected_digest: &str) -> (r: bool)
    ensures
        r == valid(manifest@, expected_digest@),
{
    let ghost m = manifest@;
    if !(manifest.version == CHUNK_MANIFEST_VERSION && same(&manifest.blob_digest, expected_digest)
        && manifest.average as usize == DEFAULT_AVG && manifest.minimum as usize == DEFAULT_MIN
        && manifest.maximum as usize == DEFAULT_MAX && manifest.normalization as usize
        == DEFAULT_NORMALIZATION && manifest.seed == 0 && manifest.chunks.len() > 0) {
        return false;
    }
    let mut total: u64 = 0;
    let mut i: usize = 0;
    while i < manifest.chunks.len()
        invariant
            m == manifest@,
            i <= manifest.chunks@.len(),
            total == starts_at(m.chunks, i as int),
            forall|k: int| 0 <= k < i ==> valid_chunk(#[trigger] m.chunks[k]),
        decreases manifest.chunks@.len() - i,
    {
        let chunk = &manifest.chunks[i];
        assert(m.chunks[i as int] == chunk@);
        if !is_valid_chunk(chunk) {
            return false;
        }
        if total > u64::MAX - chunk.length as u64 {
            proof {
                starts_grow(m.chunks, i + 1, m.chunks.len() as int);
                assert(starts_at(m.chunks, i + 1) == total + chunk.length);
            }
            return false;
        }
        total = total + chunk.length as u64;
        i += 1;
    }
    total == manifest.total_bytes
}

/// Where each chunk of a manifest begins in the object.
pub fn placements(manifest: &ChunkManifest) -> (r: Vec<u64>)
    requires
        valid(manifest@, manifest@.blob_digest),
    ensures
        r@.len() == manifest.chunks@.len(),
        forall|i: int|
            0 <= i < r@.len() ==> #[trigger] r@[i] == starts_at(manifest@.chunks, i),
{
    let ghost m = manifest@;
    let mut out: Vec<u64> = Vec::new();
    let mut offset: u64 = 0;
    let mut i: usize = 0;
    while i < manifest.chunks.len()
        invariant
            m == manifest@,
            valid(m, m.blob_digest),
            i <= manifest.chunks@.len(),
            out@.len() == i,
            offset == starts_at(m.chunks, i as int),
            forall|k: int| 0 <= k < i ==> #[trigger] out@[k] == starts_at(m.chunks, k),
        decreases manifest.chunks@.len() - i,
    {
        let chunk = &manifest.chunks[i];
        proof {
            assert(m.chunks[i as int] == chunk@);
            starts_grow(m.chunks, i + 1, m.chunks.len() as int);
            assert(starts_at(m.chunks, i + 1) == offset + chunk.length);
        }
        out.push(offset);
        offset = offset + chunk.length as u64;
        i += 1;
    }
    out
}

/// How much of the bytes from `a` to `b` lies between `from` and `to`.
pub open spec fn shared_bytes(a: int, b: int, from: int, to: int) -> int {
    let high = if b < to { b } else { to };
    let low = if a > from { a } else { from };
    if high > low { high - low } else { 0 }
}

/// How much of chunk `i` lies between `from` and `to`.
pub open spec fn overlap(chunks: Seq<ChunkText>, i: int, from: int, to: int) -> int {
    shared_bytes(starts_at(chunks, i), starts_at(chunks, i + 1), from, to)
}

/// The chunk of a manifest that shares most with the bytes from `target_start`
/// to `target_end`, the last of them where several share as much.
pub fn positional_base(manifest: &ChunkManifest, target_start: u64, target_end: u64) -> (r: Option<
    usize,
>)
    requires
        valid(manifest@, manifest@.blob_digest),
    ensures
        match r {
            Some(i) => {
                &&& i < manifest.chunks@.len()
                &&& overlap(manifest@.chunks, i as int, target_start as int, target_end as int) > 0
                &&& forall|j: int|
                    0 <= j < manifest.chunks@.len() ==> #[trigger] overlap(
                        manifest@.chunks,
                        j,
                        target_start as int,
                        target_end as int,
                    ) <= overlap(
                        manifest@.chunks,
                        i as int,
                        target_start as int,
                        target_end as int,
                    ) && (j > i ==> overlap(
                        manifest@.chunks,
                        j,
                        target_start as int,
                        target_end as int,
                    ) < overlap(
                        manifest@.chunks,
                        i as int,
                        target_start as int,
                        target_end as int,
                    ))
            },
            None => forall|j: int|
                0 <= j < manifest.chunks@.len() ==> #[trigger] overlap(
                    manifest@.chunks,
                    j,
                    target_start as int,
                    target_end as int,
                ) == 0,
        },
{
    let ghost chunks = manifest@.chunks;
    let ghost from = target_start as int;
    let ghost to = target_end as int;
    let mut start: u64 = 0;
    let mut best: Option<usize> = None;
    let mut most: u64 = 0;
    let mut i: usize = 0;
    while i < manifest.chunks.len()
        invariant
            valid(manifest@, manifest@.blob_digest),
            chunks == manifest@.chunks,
            from == target_start,
            to == target_end,
            i <= manifest.chunks@.len(),
            start == starts_at(chunks, i as int),
            match best {
                Some(b) => {
                    &&& b < i
                    &&& most == overlap(chunks, b as int, from, to)
                    &&& most > 0
                    &&& forall|j: int|
                        0 <= j < i ==> #[trigger] overlap(chunks, j, from, to) <= most && (j > b
                            ==> overlap(chunks, j, from, to) < most)
                },
                None => most == 0 && forall|j: int|
                    0 <= j < i ==> #[trigger] overlap(chunks, j, from, to) == 0,
            },
        decreases manifest.chunks@.len() - i,
    {
        let chunk = &manifest.chunks[i];
        assert(chunks[i as int] == chunk@);
        proof {
            starts_grow(chunks, i + 1, chunks.len() as int);
            assert(starts_at(chunks, i + 1) == start + chunk.length);
        }
        let end: u64 = start + chunk.length as u64;
        let high: u64 = if end < target_end {
            end
        } else {
            target_end
        };
        let low: u64 = if start > target_start {
            start
        } else {
            target_start
        };
        let shared: u64 = if high > low {
            high - low
        } else {
            0
        };
        assert(shared == overlap(chunks, i as int, from, to));
        if shared > 0 && shared >= most {
            best = Some(i);
            most = shared;
        }
        start = end;
        i += 1;
    }
    best
}

// ---------------------------------------------------------------------------
// Manifests in files
// ---------------------------------------------------------------------------

/// A chunk as it is encoded.
pub type WireChunk = (String, u32, Option<(String, String, u32)>);

/// A manifest as it is encoded.
pub type Wire = (u32, String, u64, bool, u32, u32, u32, u8, u64, Vec<WireChunk>);

/// What an encoded chunk says.
pub open spec fn wire_chunk_text(c: WireChunk) -> ChunkText {
    ChunkText {
        sha256: c.0@,
        length: c.1,
        delta: match c.2 {
            Some(d) => Some(
                DeltaText { base_sha256: d.0@, patch_sha256: d.1@, patch_bytes: d.2 },
            ),
            None => None,
        },
    }
}

/// What an encoded manifest says.
pub open spec fn wire_text(w: Wire) -> ManifestText {
    ManifestText {
        version: w.0,
        blob_digest: w.1@,
        total_bytes: w.2,
        executable: w.3,
        average: w.4,
        minimum: w.5,
        maximum: w.6,
        normalization: w.7,
        seed: w.8,
        chunks: Seq::new(w.9@.len(), |i: int| wire_chunk_text(w.9@[i])),
    }
}

/// The manifest that bytes hold.
pub uninterp spec fn manifest_of(bytes: Seq<u8>) -> Option<ManifestText>;

/// The bytes of a manifest.
pub uninterp spec fn manifest_code(manifest: ManifestText) -> Option<Seq<u8>>;

/// `postcard::from_bytes`: the manifest at the beginning of the bytes, or none
/// where they hold no manifest. The bytes alone decide.
#[verifier::external_body]
fn decode_wire(bytes: &[u8]) -> (r: Option<Wire>)
    ensures
        match r {
            Some(w) => manifest_of(bytes@) == Some(wire_text(w)),
            None => manifest_of(bytes@) == None::<ManifestText>,
        },
{
    postcard::from_bytes(bytes).ok()
}

/// `postcard::to_allocvec`: bytes that the manifest alone decides, and from
/// which it is read back.
#[verifier::external_body]
fn encode_wire(manifest: &Wire) -> (r: Option<Vec<u8>>)
    ensures
        match r {
            Some(bytes) => manifest_code(wire_text(*manifest)) == Some(bytes@) && manifest_of(
                bytes@,
            ) == Some(wire_text(*manifest)),
            None => manifest_code(wire_text(*manifest)) == None::<Seq<u8>>,
        },
{
    postcard::to_allocvec(manifest).ok()
}

fn chunk_from(c: &WireChunk) -> (r: ChunkRef)
    ensures
        r@ == wire_chunk_text(*c),
{
    ChunkRef {
        sha256: copy(&c.0),
        length: c.1,
        delta: match &c.2 {
            Some(d) => Some(
                DeltaRef {
                    base_sha256: copy(&d.0),
                    patch_sha256: copy(&d.1),
                    patch_bytes: d.2,
                },
            ),
            None => None,
        },
    }
}

fn chunk_to(c: &ChunkRef) -> (r: WireChunk)
    ensures
        wire_chunk_text(r) == c@,
{
    (
        copy(&c.sha256),
        c.length,
        match &c.delta {
            Some(d) => Some((copy(&d.base_sha256), copy(&d.patch_sha256), d.patch_bytes)),
            None => None,
        },
    )
}

/// The manifest in a file.
pub fn decode_manifest(bytes: &[u8]) -> (r: Option<ChunkManifest>)
    ensures
        match r {
            Some(m) => manifest_of(bytes@) == Some(m@),
            None => manifest_of(bytes@) == None::<ManifestText>,
        },
{
    match decode_wire(bytes) {
        None => None,
        Some(w) => {
            let ghost want = wire_text(w).chunks;
            let mut chunks: Vec<ChunkRef> = Vec::new();
            let mut i: usize = 0;
            while i < w.9.len()
                invariant
                    want == wire_text(w).chunks,
                    i <= w.9@.len(),
                    chunk_texts(chunks@) =~= want.take(i as int),
                decreases w.9@.len() - i,
            {
                chunks.push(chunk_from(&w.9[i]));
                assert(want.take(i + 1) =~= want.take(i as int).push(want[i as int]));
                i += 1;
            }
            assert(want.take(i as int) =~= want);
            Some(
                ChunkManifest {
                    version: w.0,
                    blob_digest: copy(&w.1),
                    total_bytes: w.2,
                    executable: w.3,
                    average: w.4,
                    minimum: w.5,
                    maximum: w.6,
                    normalization: w.7,
                    seed: w.8,
                    chunks,
                },
            )
        },
    }
}

/// The contents of the file of a manifest; none where it cannot be encoded.
pub fn encode_manifest(m: &ChunkManifest) -> (r: Option<Vec<u8>>)
    ensures
        match r {
            Some(bytes) => manifest_code(m@) == Some(bytes@) && manifest_of(bytes@) == Some(m@),
            None => manifest_code(m@) is None,
        },
{
    let ghost want = m@.chunks;
    let mut chunks: Vec<WireChunk> = Vec::new();
    let mut i: usize = 0;
    while i < m.chunks.len()
        invariant
            want == m@.chunks,
            i <= m.chunks@.len(),
            chunks@.len() == i,
            forall|k: int| 0 <= k < i ==> wire_chunk_text(#[trigger] chunks@[k]) == want[k],
        decreases m.chunks@.len() - i,
    {
        chunks.push(chunk_to(&m.chunks[i]));
        i += 1;
    }
    let w: Wire = (
        m.version,
        copy(&m.blob_digest),
        m.total_bytes,
        m.executable,
        m.average,
        m.minimum,
        m.maximum,
        m.normalization,
        m.seed,
        chunks,
    );
    assert(wire_text(w).chunks =~= want);
    encode_wire(&w)
}

// ---------------------------------------------------------------------------
// Chunks
// ---------------------------------------------------------------------------

/// The name of a chunk: its SHA-256 hash in hexadecimal.
pub open spec fn chunk_name(bytes: Seq<u8>) -> Seq<char> {
    hex_text(sha256_of(bytes))
}

/// The name of a chunk.
pub fn sha256(bytes: &[u8]) -> (r: String)
    ensures
        r@ == chunk_name(bytes@),
        r@.len() == 64,
{
    to_hex(sha256_bytes(bytes).as_slice())
}

/// Whether bytes are those of the chunk with this name.
pub fn verify_sha256(bytes: &[u8], expected: &str) -> (r: bool)
    ensures
        r == (chunk_name(bytes@) == expected@),
{
    same(&sha256(bytes), expected)
}

/// A name in lower-case hexadecimal is a digest.
proof fn name_is_digest(bytes: Seq<u8>)
    requires
        sha256_of(bytes).len() == 32,
    ensures
        hex_digest(chunk_name(bytes)),
{
    let s = chunk_name(bytes);
    assert forall|i: int| 0 <= i < 64 implies is_hex(#[trigger] s[i]) by {
        let b = sha256_of(bytes)[i / 2] as int;
        let d = if i % 2 == 0 { b / 16 } else { b % 16 };
        assert(0 <= d < 16);
        assert(s[i] == hex_digit(d));
    }
}

/// How large a window zstd needs for this many bytes: twice as many, within
/// what it can do.
pub open spec fn window_log(length: nat) -> int {
    let bits = bit_length(if length > 0 {
        (length - 1) as nat
    } else {
        0
    }) + 1;
    if bits < 20 {
        20
    } else if bits > 30 {
        30
    } else {
        bits as int
    }
}

/// How many binary digits a number has.
pub open spec fn bit_length(n: nat) -> nat
    decreases n,
{
    if n == 0 {
        0
    } else {
        1 + bit_length(n / 2)
    }
}

/// How large a window zstd needs for this many bytes.
pub fn zstd_window_log(length: usize) -> (r: u32)
    ensures
        r == window_log(length as nat),
{
    let mut rest: usize = if length > 0 {
        length - 1
    } else {
        0
    };
    let ghost all = rest as nat;
    let mut bits: u32 = 1;
    while rest > 0 && bits < 31
        invariant
            1 <= bits <= 31,
            bits + bit_length(rest as nat) == bit_length(all) + 1,
        decreases rest,
    {
        rest = rest / 2;
        bits += 1;
    }
    if bits < 20 {
        20
    } else if bits > 30 {
        30
    } else {
        bits
    }
}

/// Bytes compressed on their own.
pub uninterp spec fn compressed(level: i32, data: Seq<u8>) -> Option<Seq<u8>>;

/// Bytes compressed with a dictionary.
pub uninterp spec fn compressed_with(
    level: i32,
    dictionary: Seq<u8>,
    long_distance: bool,
    window_log: u32,
    data: Seq<u8>,
) -> Option<Seq<u8>>;

/// Bytes decompressed with a dictionary.
pub uninterp spec fn decompressed_with(
    dictionary: Seq<u8>,
    window_log_max: u32,
    data: Seq<u8>,
    capacity: int,
) -> Option<Seq<u8>>;

/// `zstd::bulk::compress`: what the level and the bytes alone decide; none
/// where zstd refuses them.
#[verifier::external_body]
fn compress(level: i32, data: &[u8]) -> (r: Option<Vec<u8>>)
    ensures
        match r {
            Some(out) => compressed(level, data@) == Some(out@),
            None => compressed(level, data@) == None::<Seq<u8>>,
        },
{
    zstd::bulk::compress(data, level).ok()
}

/// The bytes begin like a dictionary in zstd's own format, so that zstd does not
/// take them as they are.
pub open spec fn is_dictionary(bytes: Seq<u8>) -> bool {
    bytes.len() >= 4 && bytes.take(4) == seq![0x37u8, 0xa4, 0x30, 0xec]
}

/// `zstd::bulk::Compressor::compress` with a dictionary, long-distance matching
/// and a window: what these and the bytes alone decide; none where zstd refuses
/// them. With the same dictionary, a window as large and enough room, the bytes
/// are decompressed again. Of a dictionary in zstd's own format that is not
/// stated.
#[verifier::external_body]
fn compress_with(
    level: i32,
    dictionary: &[u8],
    long_distance: bool,
    window_log: u32,
    data: &[u8],
) -> (r: Option<Vec<u8>>)
    requires
        10 <= window_log <= 30,
    ensures
        match r {
            Some(out) => {
                &&& compressed_with(level, dictionary@, long_distance, window_log, data@) == Some(
                    out@,
                )
                &&& !is_dictionary(dictionary@) && data@.len() <= 0x7fff_ffff ==> forall|w: u32|
                    window_log <= w <= 30 ==> #[trigger] decompressed_with(
                        dictionary@,
                        w,
                        out@,
                        data@.len() as int,
                    ) == Some(data@)
            },
            None => compressed_with(level, dictionary@, long_distance, window_log, data@) == None::<
                Seq<u8>,
            >,
        },
{
    let mut compressor = zstd::bulk::Compressor::with_dictionary(level, dictionary).ok()?;
    compressor.long_distance_matching(long_distance).ok()?;
    compressor.window_log(window_log).ok()?;
    compressor.compress(data).ok()
}

/// `zstd::bulk::Decompressor::decompress` with a dictionary and a limit on the
/// window: at most `capacity` bytes, which these and the bytes alone decide;
/// none where zstd refuses them.
#[verifier::external_body]
fn decompress_with(
    dictionary: &[u8],
    window_log_max: u32,
    data: &[u8],
    capacity: usize,
) -> (r: Option<Vec<u8>>)
    requires
        10 <= window_log_max <= 30,
        capacity <= 0x7fff_ffff,
    ensures
        match r {
            Some(out) => decompressed_with(dictionary@, window_log_max, data@, capacity as int)
                == Some(out@) && out@.len() <= capacity,
            None => decompressed_with(dictionary@, window_log_max, data@, capacity as int)
                == None::<Seq<u8>>,
        },
{
    let mut decompressor = zstd::bulk::Decompressor::with_dictionary(dictionary).ok()?;
    decompressor.window_log_max(window_log_max).ok()?;
    decompressor.decompress(data, capacity).ok()
}

/// The patch that makes `target` from `base`.
pub open spec fn patch_for(base: Seq<u8>, target: Seq<u8>) -> Option<Seq<u8>> {
    let longer = if base.len() > target.len() {
        base.len()
    } else {
        target.len()
    };
    compressed_with(19, base, true, window_log(longer) as u32, target)
}

/// What a patch makes from `base`, of at most `length` bytes.
pub open spec fn patched(base: Seq<u8>, patch: Seq<u8>, length: int) -> Option<Seq<u8>> {
    decompressed_with(base, 30, patch, length)
}

/// Zstd takes `base` as it is, and has room for `target`.
pub open spec fn undoable(base: Seq<u8>, target: Seq<u8>) -> bool {
    !is_dictionary(base) && target.len() <= 0x7fff_ffff
}

/// The patch that makes `target` from `base`; none where zstd refuses.
pub fn zstd_delta(base: &[u8], target: &[u8]) -> (r: Option<Vec<u8>>)
    ensures
        match r {
            Some(patch) => patch_for(base@, target@) == Some(patch@) && (undoable(base@, target@)
                ==> patched(base@, patch@, target@.len() as int) == Some(target@)),
            None => patch_for(base@, target@) is None,
        },
{
    let longer: usize = if base.len() > target.len() {
        base.len()
    } else {
        target.len()
    };
    compress_with(19, base, true, zstd_window_log(longer), target)
}

/// What a patch makes from `base`; none where zstd refuses.
pub fn zstd_undelta(base: &[u8], patch: &[u8], target_length: usize) -> (r: Option<Vec<u8>>)
    requires
        target_length <= 0x7fff_ffff,
    ensures
        match r {
            Some(out) => patched(base@, patch@, target_length as int) == Some(out@),
            None => patched(base@, patch@, target_length as int) is None,
        },
{
    decompress_with(base, 30, patch, target_length)
}

/// What has become of an attempt to make a chunk from another.
#[derive(Debug)]
pub enum DeltaOutcome {
    /// The chunk is better kept whole.
    Whole,
    /// The chunk that it was to be made from is not what its name says.
    BadBase,
    /// zstd refused.
    Refused,
    /// The patch is too long to be recorded.
    TooLong,
    /// How the chunk is made, and the patch.
    Delta(DeltaRef, Vec<u8>),
}

/// What becomes of an attempt to make a chunk from another.
pub open spec fn delta_for(
    base_name: Seq<char>,
    base: Seq<u8>,
    target_name: Seq<char>,
    target: Seq<u8>,
    r: DeltaOutcome,
) -> bool {
    if chunk_name(base) != base_name {
        r is BadBase
    } else if patch_for(base, target) is None || compressed(3, target) is None {
        r is Refused
    } else {
        let patch = patch_for(base, target)->0;
        if patch.len() >= compressed(3, target)->0.len() {
            r is Whole
        } else {
            match patched(base, patch, target.len() as int) {
                None => r is Refused,
                Some(back) => if chunk_name(back) != target_name {
                    r is Whole
                } else if patch.len() > u32::MAX {
                    r is TooLong
                } else {
                    r matches DeltaOutcome::Delta(delta, bytes) && bytes@ == patch && delta@ == (
                    DeltaText {
                        base_sha256: base_name,
                        patch_sha256: chunk_name(patch),
                        patch_bytes: patch.len() as u32,
                    })
                },
            }
        }
    }
}

/// How a chunk is made from another, where that takes less than the chunk
/// itself compressed. What comes out is tried, and must have the name of the
/// chunk.
pub fn build_delta(base_name: &str, base: &[u8], target_name: &str, target: &[u8]) -> (r:
    DeltaOutcome)
    requires
        target@.len() <= DEFAULT_MAX,
    ensures
        delta_for(base_name@, base@, target_name@, target@, r),
        undoable(base@, target@) ==> match r {
            DeltaOutcome::Delta(_, patch) => patched(base@, patch@, target@.len() as int) == Some(
                target@,
            ),
            _ => true,
        },
{
    if !verify_sha256(base, base_name) {
        return DeltaOutcome::BadBase;
    }
    let patch = match zstd_delta(base, target) {
        Some(patch) => patch,
        None => {
            return DeltaOutcome::Refused;
        },
    };
    let full = match compress(3, target) {
        Some(full) => full,
        None => {
            return DeltaOutcome::Refused;
        },
    };
    if patch.len() >= full.len() {
        return DeltaOutcome::Whole;
    }
    match zstd_undelta(base, patch.as_slice(), target.len()) {
        None => DeltaOutcome::Refused,
        Some(back) => {
            if !verify_sha256(back.as_slice(), target_name) {
                return DeltaOutcome::Whole;
            }
            if patch.len() as u64 > u32::MAX as u64 {
                return DeltaOutcome::TooLong;
            }
            let delta = DeltaRef {
                base_sha256: copy(base_name),
                patch_sha256: sha256(patch.as_slice()),
                patch_bytes: patch.len() as u32,
            };
            DeltaOutcome::Delta(delta, patch)
        },
    }
}

/// What has become of an attempt to make a chunk that is not in the store.
#[derive(Debug)]
pub enum Rebuilt {
    /// The chunk.
    Chunk(Vec<u8>),
    /// It cannot be made.
    Nothing,
    /// The chunk that it is made from is not what its name says, and goes.
    BadBase,
    /// The patch is not what its name says, and goes.
    BadPatch,
}

/// How a chunk that is not in the store comes out.
pub open spec fn rebuilt_from(
    chunk: ChunkText,
    base: Option<Seq<u8>>,
    patch: Option<Seq<u8>>,
    r: Rebuilt,
) -> bool {
    match (chunk.delta, base) {
        (Some(delta), Some(base)) => if chunk_name(base) != delta.base_sha256 {
            r is BadBase
        } else {
            match patch {
                None => r is Nothing,
                Some(patch) => if patch.len() != delta.patch_bytes {
                    r is Nothing
                } else if chunk_name(patch) != delta.patch_sha256 {
                    r is BadPatch
                } else {
                    match patched(base, patch, chunk.length as int) {
                        Some(bytes) if chunk_name(bytes) == chunk.sha256 => r matches Rebuilt::Chunk(
                            out,
                        ) && out@ == bytes,
                        _ => r is Nothing,
                    }
                },
            }
        },
        _ => r is Nothing,
    }
}

/// Bytes that were read, where they could be.
pub open spec fn bytes_of(v: Option<Vec<u8>>) -> Option<Seq<u8>> {
    match v {
        Some(bytes) => Some(bytes@),
        None => None,
    }
}

/// A chunk that is not in the store, made from another. `base` and `patch` are
/// what was read of these.
pub fn reconstruct_delta(chunk: &ChunkRef, base: &Option<Vec<u8>>, patch: &Option<Vec<u8>>) -> (r:
    Rebuilt)
    requires
        valid_chunk(chunk@),
    ensures
        rebuilt_from(chunk@, bytes_of(*base), bytes_of(*patch), r),
{
    let delta = match &chunk.delta {
        Some(delta) => delta,
        None => {
            return Rebuilt::Nothing;
        },
    };
    let base = match base {
        Some(base) => base,
        None => {
            return Rebuilt::Nothing;
        },
    };
    if !verify_sha256(base.as_slice(), &delta.base_sha256) {
        return Rebuilt::BadBase;
    }
    let patch = match patch {
        Some(patch) => patch,
        None => {
            return Rebuilt::Nothing;
        },
    };
    if patch.len() != delta.patch_bytes as usize {
        return Rebuilt::Nothing;
    }
    if !verify_sha256(patch.as_slice(), &delta.patch_sha256) {
        return Rebuilt::BadPatch;
    }
    match zstd_undelta(base.as_slice(), patch.as_slice(), chunk.length as usize) {
        None => Rebuilt::Nothing,
        Some(bytes) => if verify_sha256(bytes.as_slice(), &chunk.sha256) {
            Rebuilt::Chunk(bytes)
        } else {
            Rebuilt::Nothing
        },
    }
}

/// Where a chunk was recorded as made from another, it is made from that one
/// and the patch again.
pub proof fn delta_is_made_again(
    base_name: Seq<char>,
    base: Seq<u8>,
    target_name: Seq<char>,
    target: Seq<u8>,
    delta: DeltaRef,
    patch: Vec<u8>,
    r: Rebuilt,
)
    requires
        target.len() <= DEFAULT_MAX,
        delta_for(base_name, base, target_name, target, DeltaOutcome::Delta(delta, patch)),
        rebuilt_from(
            (ChunkText { sha256: target_name, length: target.len() as u32, delta: Some(delta@) }),
            Some(base),
            Some(patch@),
            r,
        ),
    ensures
        r matches Rebuilt::Chunk(out) && chunk_name(out@) == target_name && patched(
            base,
            patch@,
            target.len() as int,
        ) == Some(out@),
{
}

// ---------------------------------------------------------------------------
// Objects
// ---------------------------------------------------------------------------

/// The sizes in use.
pub open spec fn chunker_in_use(c: FastCdc) -> bool {
    c.configured(DEFAULT_AVG, DEFAULT_MIN, DEFAULT_MAX, DEFAULT_NORMALIZATION, 0)
}

/// Where an object is cut: offset and length of each chunk.
pub fn cut(content: &[u8]) -> (r: Vec<(usize, usize)>)
    ensures
        exists|c: FastCdc| #[trigger]
            chunker_in_use(c) && c.wf() && tiles(c, content@, 0, r@),
{
    let chunker = FastCdc::default();
    assert(chunker_in_use(chunker));
    let out = chunker.chunks(content).collect();
    out
}

/// The bytes of a chunk.
pub open spec fn piece(content: Seq<u8>, at: (usize, usize)) -> Seq<u8> {
    content.subrange(at.0 as int, at.0 + at.1)
}

/// The chunks of an object that is cut at `cuts`.
pub open spec fn chunks_of(
    content: Seq<u8>,
    cuts: Seq<(usize, usize)>,
    deltas: Seq<Option<DeltaRef>>,
) -> Seq<ChunkText> {
    Seq::new(
        cuts.len(),
        |i: int|
            ChunkText {
                sha256: chunk_name(piece(content, cuts[i])),
                length: cuts[i].1 as u32,
                delta: delta_text(deltas[i]),
            },
    )
}

/// The manifest of an object that is cut at `cuts`.
pub open spec fn manifest_for(
    content: Seq<u8>,
    digest: Seq<char>,
    executable: bool,
    cuts: Seq<(usize, usize)>,
    deltas: Seq<Option<DeltaRef>>,
) -> ManifestText {
    ManifestText {
        version: CHUNK_MANIFEST_VERSION,
        blob_digest: digest,
        total_bytes: content.len() as u64,
        executable,
        average: DEFAULT_AVG as u32,
        minimum: DEFAULT_MIN as u32,
        maximum: DEFAULT_MAX as u32,
        normalization: DEFAULT_NORMALIZATION as u8,
        seed: 0,
        chunks: chunks_of(content, cuts, deltas),
    }
}

/// The cuts lie within the object.
pub open spec fn cuts_within(cuts: Seq<(usize, usize)>, length: nat) -> bool {
    forall|i: int|
        0 <= i < cuts.len() ==> (#[trigger] cuts[i]).0 + cuts[i].1 <= length && cuts[i].1
            <= DEFAULT_MAX
}

/// A delta that can stand in a manifest.
pub open spec fn sound_delta(d: Option<DeltaRef>) -> bool {
    match d {
        None => true,
        Some(delta) => hex_digest(delta.base_sha256@) && hex_digest(delta.patch_sha256@)
            && delta.patch_bytes > 0,
    }
}

fn copy_delta(d: &Option<DeltaRef>) -> (r: Option<DeltaRef>)
    ensures
        delta_text(r) == delta_text(*d),
{
    match d {
        None => None,
        Some(delta) => Some(
            DeltaRef {
                base_sha256: copy(&delta.base_sha256),
                patch_sha256: copy(&delta.patch_sha256),
                patch_bytes: delta.patch_bytes,
            },
        ),
    }
}

/// The manifest of an object that is cut at `cuts`, with the ways in which its
/// chunks are made.
pub fn chunk_manifest(
    content: &[u8],
    digest: &str,
    executable: bool,
    cuts: &Vec<(usize, usize)>,
    deltas: &Vec<Option<DeltaRef>>,
) -> (r: ChunkManifest)
    requires
        cuts@.len() == deltas@.len(),
        cuts_within(cuts@, content@.len()),
    ensures
        r@ == manifest_for(content@, digest@, executable, cuts@, deltas@),
        forall|i: int|
            0 <= i < cuts@.len() ==> hex_digest(chunk_name(piece(content@, #[trigger] cuts@[i]))),
{
    let ghost want = chunks_of(content@, cuts@, deltas@);
    let mut chunks: Vec<ChunkRef> = Vec::new();
    let mut i: usize = 0;
    while i < cuts.len()
        invariant
            cuts@.len() == deltas@.len(),
            cuts_within(cuts@, content@.len()),
            want == chunks_of(content@, cuts@, deltas@),
            i <= cuts@.len(),
            chunk_texts(chunks@) =~= want.take(i as int),
            forall|k: int|
                0 <= k < i ==> hex_digest(chunk_name(piece(content@, #[trigger] cuts@[k]))),
        decreases cuts@.len() - i,
    {
        let (offset, length) = cuts[i];
        assert(cuts@[i as int].0 + cuts@[i as int].1 <= content.len());
        let end: usize = offset + length;
        let bytes = vstd::slice::slice_subrange(content, offset, end);
        let hash = sha256_bytes(bytes);
        proof {
            assert(bytes@ =~= piece(content@, cuts@[i as int]));
            name_is_digest(bytes@);
        }
        chunks.push(
            ChunkRef {
                sha256: to_hex(hash.as_slice()),
                length: length as u32,
                delta: copy_delta(&deltas[i]),
            },
        );
        assert(want.take(i + 1) =~= want.take(i as int).push(want[i as int]));
        i += 1;
    }
    assert(want.take(i as int) =~= want);
    ChunkManifest {
        version: CHUNK_MANIFEST_VERSION,
        blob_digest: copy(digest),
        total_bytes: content.len() as u64,
        executable,
        average: DEFAULT_AVG as u32,
        minimum: DEFAULT_MIN as u32,
        maximum: DEFAULT_MAX as u32,
        normalization: DEFAULT_NORMALIZATION as u8,
        seed: 0,
        chunks,
    }
}

/// Bytes are those of a chunk.
pub open spec fn sound(chunk: ChunkText, bytes: Seq<u8>) -> bool {
    chunk_name(bytes) == chunk.sha256 && bytes.len() == chunk.length
}

/// What was read of a chunk.
#[derive(Debug, Clone, Copy, PartialEq, Eq, Structural)]
pub enum ChunkState {
    Ready,
    /// The bytes are not what their name says, and go.
    Corrupt,
    /// The manifest says another length.
    WrongLength,
}

/// Compares what was read of a chunk with what the manifest says of it.
pub fn check_chunk(chunk: &ChunkRef, bytes: &[u8]) -> (r: ChunkState)
    ensures
        r == (if chunk_name(bytes@) != chunk.sha256@ {
            ChunkState::Corrupt
        } else if bytes@.len() != chunk.length {
            ChunkState::WrongLength
        } else {
            ChunkState::Ready
        }),
        (r == ChunkState::Ready) == sound(chunk@, bytes@),
{
    if !verify_sha256(bytes, &chunk.sha256) {
        ChunkState::Corrupt
    } else if bytes.len() as u64 != chunk.length as u64 {
        ChunkState::WrongLength
    } else {
        ChunkState::Ready
    }
}

/// The first `n` parts one after the other.
pub open spec fn spliced(parts: Seq<Vec<u8>>, n: int) -> Seq<u8>
    decreases n,
{
    if n <= 0 {
        Seq::empty()
    } else {
        spliced(parts, n - 1) + parts[n - 1]@
    }
}

/// The digest of an object.
pub open spec fn object_digest(executable: bool, content: Seq<u8>) -> Seq<char> {
    hex_text(blake3_of(hashed_bytes(executable, content)))
}

/// A file: whether it can be executed, and its bytes.
pub struct FileText {
    pub executable: bool,
    pub content: Seq<u8>,
}

/// A file is the object with this digest.
pub open spec fn is_object(file: FileText, digest: Seq<char>) -> bool {
    object_digest(file.executable, file.content) == digest
}

/// Whether a file that was prepared, for the store or from it, is published: it
/// is the object with this digest.
pub fn publishes(digest: &str, executable: bool, content: &[u8]) -> (r: bool)
    ensures
        r == is_object(FileText { executable, content: content@ }, digest@),
{
    same(&hash_file(executable, content), digest)
}

/// Where an object is to come from: first what is stored of it whole, then its
/// chunks.
#[derive(Debug, Clone, Copy, PartialEq, Eq, Structural)]
pub enum Attempt {
    Whole,
    Chunks,
    Done { published: bool },
}

impl Attempt {
    /// What follows an attempt.
    pub open spec fn next(self, published: bool) -> Attempt {
        match self {
            Attempt::Done { published } => Attempt::Done { published },
            Attempt::Chunks => Attempt::Done { published },
            Attempt::Whole => if published {
                Attempt::Done { published: true }
            } else {
                Attempt::Chunks
            },
        }
    }

    /// What follows an attempt. `published` says whether what it prepared was
    /// published.
    pub fn after(self, published: bool) -> (r: Attempt)
        ensures
            r == self.next(published),
    {
        match self {
            Attempt::Done { published } => Attempt::Done { published },
            Attempt::Chunks => Attempt::Done { published },
            Attempt::Whole => if published {
                Attempt::Done { published: true }
            } else {
                Attempt::Chunks
            },
        }
    }
}

/// What stands at a destination once a file was prepared for it: the file where
/// it is published, and else what was there.
pub open spec fn placed(
    before: Option<FileText>,
    prepared: Option<FileText>,
    digest: Seq<char>,
) -> Option<FileText> {
    if prepared is Some && is_object(prepared->0, digest) {
        prepared
    } else {
        before
    }
}

/// What becomes of a destination: `whole` and `rebuilt` are what was prepared
/// from the object and from its chunks, in whatever state these are. Also says
/// where it ends.
pub open spec fn materialized(
    before: Option<FileText>,
    whole: Option<FileText>,
    rebuilt: Option<FileText>,
    digest: Seq<char>,
) -> (Attempt, Option<FileText>) {
    let first = whole is Some && is_object(whole->0, digest);
    let second = rebuilt is Some && is_object(rebuilt->0, digest);
    if first {
        (Attempt::Whole.next(true), placed(before, whole, digest))
    } else {
        (
            Attempt::Whole.next(false).next(second),
            placed(placed(before, whole, digest), rebuilt, digest),
        )
    }
}

/// Nothing but the object itself is ever handed out: where it is said to be,
/// the destination has its digest, and otherwise the destination is as it was.
/// An object that is stored whole is handed out as it is.
pub proof fn only_the_object_is_handed_out(
    before: Option<FileText>,
    whole: Option<FileText>,
    rebuilt: Option<FileText>,
    digest: Seq<char>,
)
    ensures
        ({
            let (end, after) = materialized(before, whole, rebuilt, digest);
            &&& end == Attempt::Done { published: true } ==> after is Some && is_object(
                after->0,
                digest,
            )
            &&& end == Attempt::Done { published: false } ==> after == before
            &&& end == Attempt::Done { published: true } || end == Attempt::Done {
                published: false,
            }
            &&& whole is Some && is_object(whole->0, digest) ==> end == Attempt::Done {
                published: true,
            } && after == whole
        }),
{
}

/// The parts are those of the object with this digest.
pub open spec fn restorable(m: ManifestText, digest: Seq<char>, parts: Seq<Vec<u8>>) -> bool {
    &&& valid(m, digest)
    &&& forall|i: int| 0 <= i < parts.len() ==> sound(#[trigger] m.chunks[i], parts[i]@)
    &&& object_digest(m.executable, spliced(parts, parts.len() as int)) == digest
}

/// An object from its chunks. Nothing is given out that does not have the
/// digest that was asked for: every chunk is compared with its name and length,
/// and then the whole with the digest.
pub fn restore(manifest: &ChunkManifest, digest: &str, parts: &Vec<Vec<u8>>) -> (r: Option<Vec<u8>>)
    requires
        parts@.len() == manifest.chunks@.len(),
    ensures
        match r {
            Some(content) => {
                &&& restorable(manifest@, digest@, parts@)
                &&& content@ == spliced(parts@, parts@.len() as int)
                &&& object_digest(manifest.executable, content@) == digest@
            },
            None => !restorable(manifest@, digest@, parts@),
        },
{
    if !valid_manifest(manifest, digest) {
        return None;
    }
    let mut out: Vec<u8> = Vec::new();
    let mut i: usize = 0;
    while i < parts.len()
        invariant
            parts@.len() == manifest.chunks@.len(),
            i <= parts@.len(),
            out@ == spliced(parts@, i as int),
            forall|k: int| 0 <= k < i ==> sound(#[trigger] manifest@.chunks[k], parts@[k]@),
        decreases parts@.len() - i,
    {
        let chunk = &manifest.chunks[i];
        assert(manifest@.chunks[i as int] == chunk@);
        match check_chunk(chunk, parts[i].as_slice()) {
            ChunkState::Ready => {},
            _ => {
                return None;
            },
        }
        push_bytes(&mut out, parts[i].as_slice());
        i += 1;
    }
    if same(&hash_file(manifest.executable, out.as_slice()), digest) {
        Some(out)
    } else {
        None
    }
}

/// In an object put together from its chunks, each stands where the manifest
/// has it begin.
pub proof fn chunks_stand_in_place(m: ManifestText, parts: Seq<Vec<u8>>, n: int, i: int)
    requires
        0 <= i < n <= parts.len(),
        forall|k: int| 0 <= k < n ==> (#[trigger] m.chunks[k]).length == parts[k]@.len(),
    ensures
        spliced(parts, n).len() == starts_at(m.chunks, n),
        spliced(parts, n).subrange(starts_at(m.chunks, i), starts_at(m.chunks, i + 1))
            == parts[i]@,
    decreases n,
{
    if n > 1 {
        chunks_stand_in_place(m, parts, n - 1, if i < n - 1 { i } else { 0 });
    }
    assert(m.chunks[n - 1].length == parts[n - 1]@.len());
    assert(spliced(parts, n - 1).len() == starts_at(m.chunks, n - 1));
    starts_grow(m.chunks, i, i + 1);
    if i < n - 1 {
        starts_grow(m.chunks, i + 1, n - 1);
    }
    assert(spliced(parts, n).subrange(starts_at(m.chunks, i), starts_at(m.chunks, i + 1))
        =~= parts[i]@) by {
        let inner = spliced(parts, n - 1);
        if i < n - 1 {
            assert(spliced(parts, n).subrange(starts_at(m.chunks, i), starts_at(m.chunks, i + 1))
                =~= inner.subrange(starts_at(m.chunks, i), starts_at(m.chunks, i + 1)));
        }
    }
}

proof fn cut_starts(
    c: FastCdc,
    content: Seq<u8>,
    offset: int,
    cuts: Seq<(usize, usize)>,
    all: Seq<(usize, usize)>,
    deltas: Seq<Option<DeltaRef>>,
    parts: Seq<Vec<u8>>,
    done: int,
)
    requires
        c.wf(),
        c.minimum >= 2,
        c.maximum == DEFAULT_MAX,
        0 <= done <= all.len(),
        all.skip(done) == cuts,
        parts.len() == all.len(),
        0 <= offset <= content.len(),
        tiles(c, content, offset, cuts),
        starts_at(chunks_of(content, all, deltas), done) == offset,
        spliced(parts, done) == content.take(offset),
        forall|i: int| 0 <= i < all.len() ==> (#[trigger] parts[i])@ == piece(content, all[i]),
    ensures
        starts_at(chunks_of(content, all, deltas), all.len() as int) == content.len(),
        spliced(parts, all.len() as int) == content,
    decreases cuts.len(),
{
    if cuts.len() == 0 {
        assert(done == all.len());
        assert(content.take(offset) =~= content);
    } else {
        let first = cuts[0];
        let chunks = chunks_of(content, all, deltas);
        chunks_tile(c, content, offset, cuts);
        assert(cuts[0].1 <= c.maximum);
        assert(all[done] == first);
        assert(first.0 == offset);
        assert(c.first_chunk(content.skip(offset), first.1 as int));
        assert(chunks[done].length == first.1);
        assert(starts_at(chunks, done + 1) == offset + first.1);
        assert(parts[done]@ == piece(content, first));
        assert(content.take(offset) + piece(content, first) =~= content.take(offset + first.1));
        assert(all.skip(done + 1) =~= cuts.skip(1));
        cut_starts(
            c,
            content,
            offset + first.1,
            cuts.skip(1),
            all,
            deltas,
            parts,
            done + 1,
        );
    }
}

/// What is put into the store comes out of it: the manifest of an object is
/// valid, and its chunks make up the object.
pub proof fn stored_is_restored(
    c: FastCdc,
    content: Seq<u8>,
    executable: bool,
    cuts: Seq<(usize, usize)>,
    deltas: Seq<Option<DeltaRef>>,
    parts: Seq<Vec<u8>>,
)
    requires
        chunker_in_use(c),
        c.wf(),
        tiles(c, content, 0, cuts),
        0 < content.len() <= u64::MAX,
        deltas.len() == cuts.len(),
        parts.len() == cuts.len(),
        forall|i: int| 0 <= i < cuts.len() ==> sound_delta(#[trigger] deltas[i]),
        forall|i: int| 0 <= i < cuts.len() ==> (#[trigger] parts[i])@ == piece(content, cuts[i]),
        forall|i: int|
            0 <= i < cuts.len() ==> hex_digest(chunk_name(piece(content, #[trigger] cuts[i]))),
    ensures
        restorable(
            manifest_for(content, object_digest(executable, content), executable, cuts, deltas),
            object_digest(executable, content),
            parts,
        ),
        spliced(parts, parts.len() as int) == content,
{
    let digest = object_digest(executable, content);
    let m = manifest_for(content, digest, executable, cuts, deltas);
    assert(cuts.skip(0) =~= cuts);
    assert(content.take(0) =~= Seq::<u8>::empty());
    chunks_tile(c, content, 0, cuts);
    cut_starts(c, content, 0, cuts, cuts, deltas, parts, 0);
    assert(cuts.len() > 0);
    cuts_fit(c, content, 0, cuts);
    assert forall|i: int| 0 <= i < m.chunks.len() implies valid_chunk(#[trigger] m.chunks[i]) by {
        assert(cuts[i].1 <= c.maximum && cuts[i].1 > 0);
        assert(sound_delta(deltas[i]));
        assert(hex_digest(chunk_name(piece(content, cuts[i]))));
    }
    assert forall|i: int| 0 <= i < parts.len() implies sound(#[trigger] m.chunks[i], parts[i]@) by {
        assert(parts[i]@ == piece(content, cuts[i]));
        assert(cuts[i].0 + cuts[i].1 <= content.len());
    }
}

/// The chunks of an object lie within it.
pub proof fn cuts_fit(c: FastCdc, content: Seq<u8>, offset: int, cuts: Seq<(usize, usize)>)
    requires
        c.wf(),
        c.minimum >= 2,
        c.maximum <= DEFAULT_MAX,
        0 <= offset <= content.len(),
        tiles(c, content, offset, cuts),
    ensures
        cuts_within(cuts, content.len()),
    decreases cuts.len(),
{
    if cuts.len() > 0 {
        chunks_tile(c, content, offset, cuts);
        assert(cuts[0].1 <= c.maximum);
        assert(c.first_chunk(content.skip(offset), cuts[0].1 as int));
        cuts_fit(c, content, offset + cuts[0].1, cuts.skip(1));
        assert forall|i: int| 0 <= i < cuts.len() implies (#[trigger] cuts[i]).0 + cuts[i].1
            <= content.len() && cuts[i].1 <= DEFAULT_MAX by {
            if i > 0 {
                assert(cuts.skip(1)[i - 1] == cuts[i]);
            }
        }
    }
}

/// An object that is larger than the threshold and has no manifest yet is also
/// kept in chunks.
pub fn needs_chunks(length: u64, has_manifest: bool) -> (r: bool)
    ensures
        r == (length > CHUNKING_THRESHOLD && !has_manifest),
{
    length > CHUNKING_THRESHOLD && !has_manifest
}

// ---------------------------------------------------------------------------
// Where things are
// ---------------------------------------------------------------------------

/// A text whose first two bytes can be told apart from the rest.
pub open spec fn shardable(digest: Seq<char>) -> bool {
    ||| digest.len() == 0
    ||| 0x80 <= digest[0] as u32 && (digest[0] as u32) < 0x800
    ||| (digest[0] as u32) < 0x80 && (digest.len() == 1 || (digest[1] as u32) < 0x80)
}

/// The first two bytes of a digest, under which it is filed.
pub open spec fn shard(digest: Seq<char>) -> Seq<char> {
    if digest.len() == 0 {
        digest
    } else if digest[0] as u32 >= 0x80 || digest.len() == 1 {
        digest.take(1)
    } else {
        digest.take(2)
    }
}

/// The path under which something is filed by its digest.
pub open spec fn filed(store: Seq<char>, digest: Seq<char>, name: Seq<char>) -> Seq<char> {
    joined_path(joined_path(store, shard(digest)), name)
}

fn file_under(store: &str, digest: &str, name: &str) -> (r: String)
    requires
        shardable(digest@),
    ensures
        r@ == filed(store@, digest@, name@),
{
    let a = chars_of(digest);
    let n: usize = if a.len() == 0 {
        0
    } else if a[0] as u32 >= 0x80 || a.len() == 1 {
        1
    } else {
        2
    };
    let short = text_between(&a, 0, n);
    assert(short@ =~= shard(digest@));
    join_path(&join_path(store, &short), name)
}

/// A store in a workspace.
#[derive(Debug)]
pub struct LocalCas {
    pub root: String,
    pub chunks: String,
    pub manifests: String,
    pub deltas: String,
    pub artifacts: String,
    pub gc_stamp: String,
    pub max_bytes: u64,
    pub parallel_chunks: bool,
}

impl LocalCas {
    /// The store of a workspace that may take `max_bytes`; with 0 it may take
    /// any number.
    pub fn new(workspace_root: &str, max_bytes: u64) -> (r: LocalCas)
        ensures
            r.root@ == joined_path(workspace_root@, CAS_REL@),
            r.chunks@ == joined_path(workspace_root@, CHUNKS_REL@),
            r.manifests@ == joined_path(workspace_root@, MANIFESTS_REL@),
            r.deltas@ == joined_path(workspace_root@, DELTAS_REL@),
            r.artifacts@ == joined_path(workspace_root@, ARTIFACTS_REL@),
            r.gc_stamp@ == joined_path(workspace_root@, GC_STAMP_REL@),
            r.max_bytes == max_bytes,
            r.parallel_chunks,
    {
        LocalCas {
            root: join_path(workspace_root, CAS_REL),
            chunks: join_path(workspace_root, CHUNKS_REL),
            manifests: join_path(workspace_root, MANIFESTS_REL),
            deltas: join_path(workspace_root, DELTAS_REL),
            artifacts: join_path(workspace_root, ARTIFACTS_REL),
            gc_stamp: join_path(workspace_root, GC_STAMP_REL),
            max_bytes,
            parallel_chunks: true,
        }
    }

    /// The store with its chunks worked on one after the other, or several at
    /// a time. What is stored is the same.
    pub fn with_parallel_chunks(self, enabled: bool) -> (r: LocalCas)
        ensures
            r == (LocalCas { parallel_chunks: enabled, ..self }),
    {
        let mut out = self;
        out.parallel_chunks = enabled;
        out
    }

    /// The path of an object.
    pub fn object(&self, digest: &str) -> (r: String)
        requires
            shardable(digest@),
        ensures
            r@ == filed(self.root@, digest@, digest@),
    {
        file_under(&self.root, digest, digest)
    }

    /// The path of a chunk.
    pub fn chunk(&self, digest: &str) -> (r: String)
        requires
            shardable(digest@),
        ensures
            r@ == filed(self.chunks@, digest@, digest@),
    {
        file_under(&self.chunks, digest, digest)
    }

    /// The path of a manifest.
    pub fn manifest(&self, digest: &str) -> (r: String)
        requires
            shardable(digest@),
        ensures
            r@ == filed(self.manifests@, digest@, digest@),
    {
        file_under(&self.manifests, digest, digest)
    }

    /// The path of a patch.
    pub fn delta(&self, target_digest: &str, patch_digest: &str) -> (r: String)
        requires
            shardable(target_digest@),
        ensures
            r@ == filed(self.deltas@, target_digest@, target_digest@ + "-"@ + patch_digest@),
    {
        let mut name = copy(target_digest);
        name.append("-");
        name.append(patch_digest);
        file_under(&self.deltas, target_digest, &name)
    }

    /// The path of the file that names the last object made of an output.
    pub fn artifact_head(&self, source: &str) -> (r: String)
        ensures
            ({
                let key = hex_text(blake3_of(encode_utf8(source@)));
                r@ == filed(self.artifacts@, key, key)
            }),
    {
        let key = blake3_hex(source.as_bytes_vec().as_slice());
        proof {
            let bytes = blake3_of(encode_utf8(source@));
            assert forall|d: int| 0 <= d < 16 implies (#[trigger] hex_digit(d) as u32) < 0x80 by {}
            assert(key@[0] == hex_digit(bytes[0] as int / 16));
            assert(key@[1] == hex_digit(bytes[0] as int % 16));
        }
        file_under(&self.artifacts, &key, &key)
    }
}

/// A digest in hexadecimal can be filed.
pub proof fn digests_are_shardable(s: Seq<char>)
    requires
        hex_digest(s),
    ensures
        shardable(s),
        shard(s) == s.take(2),
{
    assert(is_hex(s[0]));
    assert(is_hex(s[1]));
}

// ---------------------------------------------------------------------------
// Keeping within bounds
// ---------------------------------------------------------------------------

/// A file in the store: when it was last written, its size, and its path by
/// components.
#[derive(Debug)]
pub struct StoredFile {
    pub mtime_ns: Option<i128>,
    pub size: u64,
    pub path: Vec<String>,
}

/// An earlier time stands first; a time that is not known before all others.
pub open spec fn earlier(a: Option<i128>, b: Option<i128>) -> bool {
    match (a, b) {
        (None, Some(_)) => true,
        (Some(x), Some(y)) => x < y,
        _ => false,
    }
}

impl Ranked for StoredFile {
    open spec fn less(&self, other: &Self) -> bool {
        earlier(self.mtime_ns, other.mtime_ns) || (self.mtime_ns == other.mtime_ns && path_before(
            texts(self.path@),
            texts(other.path@),
        ))
    }

    proof fn asymmetric(a: &Self, b: &Self) {
        if path_before(texts(a.path@), texts(b.path@)) {
            path_before_asymmetric(texts(a.path@), texts(b.path@));
        }
    }

    proof fn carries_over(a: &Self, b: &Self, c: &Self) {
        if a.mtime_ns == b.mtime_ns && b.mtime_ns == c.mtime_ns {
            path_before_carries_over(texts(a.path@), texts(b.path@), texts(c.path@));
        }
    }

    fn precedes(&self, other: &Self) -> (r: bool) {
        match (self.mtime_ns, other.mtime_ns) {
            (None, Some(_)) => true,
            (Some(_), None) => false,
            (None, None) => path_precedes(&self.path, &other.path),
            (Some(x), Some(y)) => x < y || (x == y && path_precedes(&self.path, &other.path)),
        }
    }
}

/// Whether the store is looked through: where it is bounded and exists, and
/// this build has changed it or it was not looked through of late. `age_ms` is
/// how long ago that was, where it is known.
pub fn gc_due(max_bytes: u64, exists: bool, changed: bool, age_ms: Option<u64>) -> (r: bool)
    ensures
        r == (max_bytes != 0 && exists && (changed || match age_ms {
            Some(age) => age >= GC_INTERVAL_MS,
            None => true,
        })),
{
    max_bytes != 0 && exists && (changed || match age_ms {
        Some(age) => age >= GC_INTERVAL_MS,
        None => true,
    })
}

/// The sizes of the first `n` files.
pub open spec fn sizes(files: Seq<StoredFile>, n: int) -> int
    decreases n,
{
    if n <= 0 {
        0
    } else {
        sizes(files, n - 1) + files[n - 1].size
    }
}

proof fn sizes_grow(files: Seq<StoredFile>, i: int, n: int)
    requires
        0 <= i <= n,
    ensures
        0 <= sizes(files, i) <= sizes(files, n),
    decreases n,
{
    if i < n {
        sizes_grow(files, i, n - 1);
    } else if i > 0 {
        sizes_grow(files, i - 1, i - 1);
    }
}

/// Whether the sizes of files can be counted together.
pub fn sizes_fit(files: &Vec<StoredFile>) -> (r: bool)
    ensures
        r == (sizes(files@, files@.len() as int) <= u64::MAX),
{
    let mut total: u64 = 0;
    let mut i: usize = 0;
    while i < files.len()
        invariant
            i <= files@.len(),
            total == sizes(files@, i as int),
        decreases files@.len() - i,
    {
        proof {
            sizes_grow(files@, i + 1, files@.len() as int);
        }
        match total.checked_add(files[i].size) {
            Some(sum) => {
                total = sum;
            },
            None => {
                return false;
            },
        }
        i += 1;
    }
    true
}

/// The sizes of the files with these numbers.
spec fn sizes_of(files: Seq<StoredFile>, order: Seq<int>) -> int
    decreases order.len(),
{
    if order.len() == 0 {
        0
    } else {
        files[order[0]].size + sizes_of(files, order.skip(1))
    }
}

proof fn sizes_without(files: Seq<StoredFile>, order: Seq<int>, k: int)
    requires
        0 <= k < order.len(),
    ensures
        sizes_of(files, order) == sizes_of(files, order.remove(k)) + files[order[k]].size,
    decreases order.len(),
{
    if k == 0 {
        assert(order.remove(0) =~= order.skip(1));
    } else {
        sizes_without(files, order.skip(1), k - 1);
        assert(order.remove(k)[0] == order[0]);
        assert(order.remove(k).skip(1) =~= order.skip(1).remove(k - 1));
        assert(order.skip(1)[k - 1] == order[k]);
    }
}

/// All files have the same size in any order.
proof fn sizes_in_any_order(files: Seq<StoredFile>, order: Seq<int>, n: nat)
    requires
        lists_all(order, n),
    ensures
        sizes_of(files, order) == sizes(files, n as int),
    decreases n,
{
    if n > 0 {
        let k = listed(order, n, n - 1);
        let rest = order.remove(k);
        sizes_without(files, order, k);
        assert(lists_all(rest, (n - 1) as nat)) by {
            assert forall|i: int, j: int| 0 <= i < rest.len() && 0 <= j < rest.len() && i
                != j implies rest[i] != rest[j] by {
                let a = if i < k { i } else { i + 1 };
                let b = if j < k { j } else { j + 1 };
                assert(rest[i] == order[a] && rest[j] == order[b]);
            }
            assert forall|i: int| 0 <= i < rest.len() implies 0 <= #[trigger] rest[i] < n - 1 by {
                let a = if i < k { i } else { i + 1 };
                assert(rest[i] == order[a]);
                assert(order[a] != order[k]);
            }
        }
        sizes_in_any_order(files, rest, (n - 1) as nat);
    }
}

proof fn sizes_of_positive(files: Seq<StoredFile>, order: Seq<int>)
    ensures
        sizes_of(files, order) >= 0,
    decreases order.len(),
{
    if order.len() > 0 {
        sizes_of_positive(files, order.skip(1));
    }
}

/// Removing the oldest files of a store until it is within its bound.
#[derive(Debug)]
pub struct Gc {
    files: Vec<StoredFile>,
    order: Vec<usize>,
    next: usize,
    total: u64,
    removed: u64,
    max_bytes: u64,
}

/// What a removal of files has come to: the files and the order in which they
/// are tried, how many were tried, how much is left, and how much was removed.
pub struct GcState {
    pub files: Seq<StoredFile>,
    pub order: Seq<int>,
    pub next: int,
    pub total: int,
    pub removed: int,
    pub max_bytes: int,
}

impl View for Gc {
    type V = GcState;

    closed spec fn view(&self) -> GcState {
        GcState {
            files: self.files@,
            order: ints(self.order@),
            next: self.next as int,
            total: self.total as int,
            removed: self.removed as int,
            max_bytes: self.max_bytes as int,
        }
    }
}

impl GcState {
    /// The file that is tried next: none where the store is within its bound or
    /// all were tried.
    pub open spec fn candidate(self) -> Option<int> {
        if self.total > self.max_bytes && self.next < self.order.len() {
            Some(self.order[self.next])
        } else {
            None
        }
    }
}

impl Gc {
    /// Nothing is counted twice.
    pub closed spec fn wf(self) -> bool {
        &&& in_turn(ints(self.order@), self.files@)
        &&& self.next <= self.order@.len()
        &&& forall|k: int| 0 <= k < self.order@.len() ==> #[trigger] self.order@[k]
            < self.files@.len()
        &&& self.total + self.removed == sizes(self.files@, self.files@.len() as int)
        &&& sizes_of(self.files@, ints(self.order@).skip(self.next as int)) <= self.total
        &&& sizes(self.files@, self.files@.len() as int) <= u64::MAX
    }

    /// Begins with the files of a store.
    pub fn new(files: Vec<StoredFile>, max_bytes: u64) -> (r: Gc)
        requires
            sizes(files@, files@.len() as int) <= u64::MAX,
        ensures
            r.wf(),
            r@.files == files@,
            in_turn(r@.order, files@),
            r@.next == 0,
            r@.total == sizes(files@, files@.len() as int),
            r@.removed == 0,
            r@.max_bytes == max_bytes,
    {
        let mut total: u64 = 0;
        let mut i: usize = 0;
        while i < files.len()
            invariant
                i <= files@.len(),
                total == sizes(files@, i as int),
                sizes(files@, files@.len() as int) <= u64::MAX,
            decreases files@.len() - i,
        {
            proof {
                sizes_grow(files@, i + 1, files@.len() as int);
                assert(sizes(files@, i + 1) == total + files@[i as int].size);
            }
            total = total + files[i].size;
            i += 1;
        }
        let order = order_of(&files);
        proof {
            sizes_in_any_order(files@, ints(order@), files@.len());
            assert(ints(order@).skip(0) =~= ints(order@));
        }
        Gc { files, order, next: 0, total, removed: 0, max_bytes }
    }

    /// The file to remove next: the oldest that was not tried, as long as the
    /// store is over its bound.
    pub fn candidate(&self) -> (r: Option<usize>)
        requires
            self.wf(),
        ensures
            match r {
                Some(i) => self@.candidate() == Some(i as int) && i < self@.files.len(),
                None => self@.candidate() is None,
            },
    {
        if self.total > self.max_bytes && self.next < self.order.len() {
            let i: usize = self.order[self.next];
            assert(ints(self.order@)[self.next as int] == i as int);
            Some(i)
        } else {
            None
        }
    }

    /// Takes note of whether the file was removed. One that was not still
    /// counts.
    pub fn tried(&mut self, removed: bool)
        requires
            old(self).wf(),
            old(self)@.candidate() is Some,
        ensures
            final(self).wf(),
            ({
                let size = old(self)@.files[old(self)@.candidate()->0].size;
                let gone = if removed {
                    size as int
                } else {
                    0
                };
                final(self)@ == (GcState {
                    next: old(self)@.next + 1,
                    total: old(self)@.total - gone,
                    removed: old(self)@.removed + gone,
                    ..old(self)@
                })
            }),
    {
        let i: usize = self.order[self.next];
        assert(ints(self.order@)[self.next as int] == i as int);
        proof {
            let order = ints(self.order@);
            let rest = order.skip(self.next as int);
            assert(rest.skip(1) =~= order.skip(self.next + 1));
            assert(rest[0] == i as int);
            sizes_of_positive(self.files@, rest.skip(1));
        }
        if removed {
            let size: u64 = self.files[i].size;
            self.total = self.total - size;
            self.removed = self.removed + size;
        }
        assert(self.next < self.order.len());
        self.next = self.next + 1;
    }

    /// How much was removed.
    pub fn removed(&self) -> (r: u64)
        ensures
            r == self@.removed,
    {
        self.removed
    }
}

/// Files go oldest first, and none goes while the store is within its bound:
/// where every file that is tried is removed, those that go are the first in
/// order, as many as are needed and no more.
pub proof fn oldest_go_first(s: GcState)
    requires
        in_turn(s.order, s.files),
        0 <= s.next,
    ensures
        match s.candidate() {
            Some(i) => {
                &&& s.total > s.max_bytes
                &&& i == s.order[s.next]
                &&& forall|k: int|
                    s.next < k < s.order.len() ==> !s.files[#[trigger] s.order[k]].less(&s.files[i])
            },
            None => s.total <= s.max_bytes || s.next >= s.order.len(),
        },
{
    if s.candidate() is Some {
        let i = s.order[s.next];
        assert forall|k: int| s.next < k < s.order.len() implies !s.files[#[trigger] s.order[k]].less(
            &s.files[i],
        ) by {
            let a = s.next;
            assert(s.files[s.order[a]].less(&s.files[s.order[k]]) || !s.files[s.order[k]].less(
                &s.files[s.order[a]],
            ));
            if s.files[s.order[a]].less(&s.files[s.order[k]]) {
                StoredFile::asymmetric(&s.files[s.order[a]], &s.files[s.order[k]]);
            }
        }
    }
}

// ---------------------------------------------------------------------------
// What the store holds
// ---------------------------------------------------------------------------

/// What the manifests of a store say of its chunks, next to how many files it
/// has and how large they are.
#[derive(Debug, Clone, Copy, PartialEq, Eq, Structural)]
pub struct CasStats {
    pub object_count: u64,
    pub object_bytes: u64,
    pub chunk_count: u64,
    pub chunk_bytes: u64,
    pub delta_count: u64,
    pub delta_bytes: u64,
    pub manifest_count: u64,
    pub logical_chunk_count: u64,
    pub logical_chunk_bytes: u64,
    pub reused_chunk_count: u64,
    pub reused_chunk_bytes: u64,
}

/// The chunks of the valid ones of the first `n` manifests.
pub open spec fn referenced(manifests: Seq<ChunkManifest>, n: int) -> Seq<ChunkText>
    decreases n,
{
    if n <= 0 {
        Seq::empty()
    } else if valid(manifests[n - 1]@, manifests[n - 1]@.blob_digest) {
        referenced(manifests, n - 1) + manifests[n - 1]@.chunks
    } else {
        referenced(manifests, n - 1)
    }
}

/// How many of the first `n` manifests are valid.
pub open spec fn valid_count(manifests: Seq<ChunkManifest>, n: int) -> int
    decreases n,
{
    if n <= 0 {
        0
    } else {
        valid_count(manifests, n - 1) + if valid(
            manifests[n - 1]@,
            manifests[n - 1]@.blob_digest,
        ) {
            1int
        } else {
            0
        }
    }
}

/// Chunk `i` is the first with its name.
pub open spec fn is_first(chunks: Seq<ChunkText>, i: int) -> bool {
    forall|j: int| 0 <= j < i ==> (#[trigger] chunks[j]).sha256 != chunks[i].sha256
}

/// The lengths of the first `n` chunks.
pub open spec fn logical_bytes(chunks: Seq<ChunkText>, n: int) -> int {
    starts_at(chunks, n)
}

/// How many different chunks there are among the first `n`.
pub open spec fn different_count(chunks: Seq<ChunkText>, n: int) -> int
    decreases n,
{
    if n <= 0 {
        0
    } else {
        different_count(chunks, n - 1) + if is_first(chunks, n - 1) {
            1int
        } else {
            0
        }
    }
}

/// The lengths of the different chunks among the first `n`; the first of
/// several with one name counts.
pub open spec fn different_bytes(chunks: Seq<ChunkText>, n: int) -> int
    decreases n,
{
    if n <= 0 {
        0
    } else {
        different_bytes(chunks, n - 1) + if is_first(chunks, n - 1) {
            chunks[n - 1].length as int
        } else {
            0
        }
    }
}

/// Running totals over chunks.
struct Tally {
    seen: TextSet,
    count: u64,
    bytes: u64,
    different: u64,
    different_bytes: u64,
}

impl Tally {
    spec fn of(self, chunks: Seq<ChunkText>) -> bool {
        let n = chunks.len() as int;
        &&& self.seen.wf()
        &&& forall|s: Seq<char>| #[trigger]
            self.seen@.contains(s) <==> exists|i: int|
                0 <= i < n && (#[trigger] chunks[i]).sha256 == s
        &&& self.count == n
        &&& self.bytes == logical_bytes(chunks, n)
        &&& self.different == different_count(chunks, n)
        &&& self.different_bytes == different_bytes(chunks, n)
    }
}

/// The totals over the first `n` chunks do not depend on what follows.
proof fn totals_of_prefix(a: Seq<ChunkText>, b: Seq<ChunkText>, n: int)
    requires
        0 <= n <= a.len(),
        n <= b.len(),
        forall|i: int| 0 <= i < n ==> a[i] == b[i],
    ensures
        logical_bytes(a, n) == logical_bytes(b, n),
        different_count(a, n) == different_count(b, n),
        different_bytes(a, n) == different_bytes(b, n),
    decreases n,
{
    if n > 0 {
        totals_of_prefix(a, b, n - 1);
        assert(is_first(a, n - 1) == is_first(b, n - 1)) by {
            if is_first(a, n - 1) {
                assert forall|j: int| 0 <= j < n - 1 implies (#[trigger] b[j]).sha256 != b[n
                    - 1].sha256 by {
                    assert(a[j].sha256 != a[n - 1].sha256);
                }
            }
            if is_first(b, n - 1) {
                assert forall|j: int| 0 <= j < n - 1 implies (#[trigger] a[j]).sha256 != a[n
                    - 1].sha256 by {
                    assert(b[j].sha256 != b[n - 1].sha256);
                }
            }
        }
    }
}

proof fn totals_bounded(chunks: Seq<ChunkText>, n: int)
    requires
        0 <= n <= chunks.len(),
    ensures
        0 <= logical_bytes(chunks, n) <= n * 0x1_0000_0000,
        0 <= different_count(chunks, n) <= n,
        0 <= different_bytes(chunks, n) <= logical_bytes(chunks, n),
    decreases n,
{
    if n > 0 {
        totals_bounded(chunks, n - 1);
        assert(n * 0x1_0000_0000 == (n - 1) * 0x1_0000_0000 + 0x1_0000_0000) by (nonlinear_arith);
    }
}

/// Counts one more chunk.
fn tally_one(t: &mut Tally, chunk: &ChunkRef, before: Ghost<Seq<ChunkText>>)
    requires
        old(t).of(before@),
        before@.len() < 0x1_0000_0000 - 1,
    ensures
        final(t).of(before@.push(chunk@)),
{
    let ghost all = before@.push(chunk@);
    let ghost n = before@.len() as int;
    proof {
        totals_of_prefix(before@, all, n);
        totals_bounded(before@, n);
        assert(n * 0x1_0000_0000 + 0x1_0000_0000 <= 0xffff_ffff * 0x1_0000_0000)
            by (nonlinear_arith)
            requires
                n < 0x1_0000_0000 - 1,
        ;
    }
    let ghost seen = t.seen@;
    let fresh = t.seen.insert(copy(&chunk.sha256));
    proof {
        assert(fresh == is_first(all, n)) by {
            if fresh {
                assert forall|j: int| 0 <= j < n implies (#[trigger] all[j]).sha256
                    != all[n].sha256 by {
                    assert(all[j] == before@[j]);
                }
            } else {
                let i = choose|i: int| 0 <= i < n && (#[trigger] before@[i]).sha256 == chunk@.sha256;
                assert(all[i] == before@[i]);
            }
        }
        assert forall|s: Seq<char>| #[trigger] t.seen@.contains(s) <==> exists|i: int|
            0 <= i < n + 1 && (#[trigger] all[i]).sha256 == s by {
            if seen.contains(s) {
                let i = choose|i: int| 0 <= i < n && (#[trigger] before@[i]).sha256 == s;
                assert(all[i].sha256 == s);
            }
            if s == chunk@.sha256 {
                assert(all[n].sha256 == s);
            }
            if exists|i: int| 0 <= i < n + 1 && (#[trigger] all[i]).sha256 == s {
                let i = choose|i: int| 0 <= i < n + 1 && (#[trigger] all[i]).sha256 == s;
                if i < n {
                    assert(before@[i].sha256 == s);
                }
            }
        }
    }
    t.count = t.count + 1;
    t.bytes = t.bytes + chunk.length as u64;
    if fresh {
        t.different = t.different + 1;
        t.different_bytes = t.different_bytes + chunk.length as u64;
    }
}

/// Counts the chunks of a manifest.
fn tally_chunks(t: &mut Tally, chunks: &Vec<ChunkRef>, before: Ghost<Seq<ChunkText>>)
    requires
        old(t).of(before@),
        before@.len() + chunks@.len() < 0x1_0000_0000,
    ensures
        final(t).of(before@ + chunk_texts(chunks@)),
{
    let ghost more = chunk_texts(chunks@);
    let mut i: usize = 0;
    assert(before@ + more.take(0) =~= before@);
    while i < chunks.len()
        invariant
            more == chunk_texts(chunks@),
            i <= chunks@.len(),
            before@.len() + chunks@.len() < 0x1_0000_0000,
            t.of(before@ + more.take(i as int)),
        decreases chunks@.len() - i,
    {
        tally_one(t, &chunks[i], Ghost(before@ + more.take(i as int)));
        assert((before@ + more.take(i as int)).push(more[i as int]) =~= before@ + more.take(i + 1));
        i += 1;
    }
    assert(more.take(i as int) =~= more);
}

/// What the manifests of a store say of its chunks. `objects`, `chunks` and
/// `deltas` are how many files of each kind there are, and how large they are.
pub fn stats(
    objects: (u64, u64),
    chunks: (u64, u64),
    deltas: (u64, u64),
    manifests: &Vec<ChunkManifest>,
) -> (r: CasStats)
    requires
        referenced(manifests@, manifests@.len() as int).len() < 0x1_0000_0000,
    ensures
        ({
            let all = referenced(manifests@, manifests@.len() as int);
            let n = all.len() as int;
            &&& r.object_count == objects.0 && r.object_bytes == objects.1
            &&& r.chunk_count == chunks.0 && r.chunk_bytes == chunks.1
            &&& r.delta_count == deltas.0 && r.delta_bytes == deltas.1
            &&& r.manifest_count == valid_count(manifests@, manifests@.len() as int)
            &&& r.logical_chunk_count == n
            &&& r.logical_chunk_bytes == logical_bytes(all, n)
            &&& r.reused_chunk_count == n - different_count(all, n)
            &&& r.reused_chunk_bytes == logical_bytes(all, n) - different_bytes(all, n)
        }),
{
    let mut t = Tally { seen: TextSet::new(), count: 0, bytes: 0, different: 0, different_bytes: 0 };
    let mut manifest_count: u64 = 0;
    let mut i: usize = 0;
    while i < manifests.len()
        invariant
            referenced(manifests@, manifests@.len() as int).len() < 0x1_0000_0000,
            i <= manifests@.len(),
            t.of(referenced(manifests@, i as int)),
            manifest_count == valid_count(manifests@, i as int),
            manifest_count <= i,
        decreases manifests@.len() - i,
    {
        let manifest = &manifests[i];
        proof {
            referenced_grows(manifests@, i + 1, manifests@.len() as int);
        }
        if valid_manifest(manifest, &manifest.blob_digest) {
            manifest_count = manifest_count + 1;
            tally_chunks(&mut t, &manifest.chunks, Ghost(referenced(manifests@, i as int)));
        }
        i += 1;
    }
    proof {
        let all = referenced(manifests@, manifests@.len() as int);
        totals_bounded(all, all.len() as int);
    }
    CasStats {
        object_count: objects.0,
        object_bytes: objects.1,
        chunk_count: chunks.0,
        chunk_bytes: chunks.1,
        delta_count: deltas.0,
        delta_bytes: deltas.1,
        manifest_count,
        logical_chunk_count: t.count,
        logical_chunk_bytes: t.bytes,
        reused_chunk_count: t.count - t.different,
        reused_chunk_bytes: t.bytes - t.different_bytes,
    }
}

proof fn referenced_grows(manifests: Seq<ChunkManifest>, i: int, n: int)
    requires
        0 <= i <= n,
    ensures
        referenced(manifests, i).len() <= referenced(manifests, n).len(),
    decreases n,
{
    if i < n {
        referenced_grows(manifests, i, n - 1);
    }
}

// ---------------------------------------------------------------------------
// What the answers mean
// ---------------------------------------------------------------------------

/// In a valid manifest the chunks stand one behind the other without a gap: the
/// first begins at nought, each where the one before ends, and the last ends where
/// the object does. It is a manifest of the object that was asked for, and no
/// chunk is empty or longer than the longest.
pub proof fn chunks_make_up_the_object(
    m: ChunkManifest,
    digest: &str,
    r: Vec<u64>,
    i: int,
)
    requires
        call_ensures(valid_manifest, (&m, digest), true),
        call_ensures(placements, (&m,), r),
        0 <= i < m.chunks@.len(),
    ensures
        m.blob_digest@ == digest@,
        m.chunks@.len() > 0,
        r@.len() == m.chunks@.len(),
        r@[0] == 0,
        0 < m.chunks@[i].length <= DEFAULT_MAX,
        m.chunks@[i].sha256@.len() == 64,
        i + 1 < r@.len() ==> r@[i + 1] == r@[i] + m.chunks@[i].length,
        i + 1 == r@.len() ==> m.total_bytes == r@[i] + m.chunks@[i].length,
{
    assert(m@.chunks[i] == m.chunks@[i]@);
    assert(valid_chunk(m@.chunks[i]));
    assert(r@[0] == starts_at(m@.chunks, 0));
    assert(r@[i] == starts_at(m@.chunks, i));
    if i + 1 < r@.len() {
        assert(r@[i + 1] == starts_at(m@.chunks, i + 1));
    }
}

/// A file is published exactly under its own digest, and the digest of a file
/// that can be executed is that of other bytes than the digest of one that cannot.
pub proof fn published_under_its_digest(
    digest: &str,
    executable: bool,
    content: &[u8],
    own: String,
    r: bool,
)
    requires
        call_ensures(publishes, (digest, executable, content), r),
        call_ensures(hash_file, (executable, content), own),
    ensures
        r <==> own@ == digest@,
        hashed_bytes(executable, content@) != hashed_bytes(!executable, content@),
{
    if hashed_bytes(executable, content@) == hashed_bytes(!executable, content@) {
        crate::hashcache::hashed_bytes_tell_all(executable, content@, !executable, content@);
    }
}

/// What is restored has the digest that was asked for, is as long as the manifest
/// says, and holds the bytes of every chunk where the chunk begins.
pub proof fn restored_is_the_object(
    m: ChunkManifest,
    digest: &str,
    parts: Vec<Vec<u8>>,
    r: Vec<u8>,
    file: &[u8],
    own: String,
    starts: Vec<u64>,
    i: int,
)
    requires
        parts@.len() == m.chunks@.len(),
        call_ensures(restore, (&m, digest, &parts), Some(r)),
        file@ == r@,
        call_ensures(hash_file, (m.executable, file), own),
        call_ensures(placements, (&m,), starts),
        0 <= i < parts@.len(),
    ensures
        own@ == digest@,
        r@.len() == m.total_bytes,
        starts@[i] + parts@[i]@.len() <= r@.len(),
        r@.subrange(starts@[i] as int, starts@[i] + parts@[i]@.len()) == parts@[i]@,
        parts@[i]@.len() == m.chunks@[i].length,
        chunk_name(parts@[i]@) == m.chunks@[i].sha256@,
{
    let n = parts@.len() as int;
    assert forall|k: int| 0 <= k < n implies (#[trigger] m@.chunks[k]).length
        == parts@[k]@.len() by {
        assert(sound(m@.chunks[k], parts@[k]@));
    }
    chunks_stand_in_place(m@, parts@, n, i);
    assert(starts@[i] == starts_at(m@.chunks, i));
    assert(m@.chunks[i] == m.chunks@[i]@);
    assert(sound(m@.chunks[i], parts@[i]@));
    assert(starts_at(m@.chunks, i + 1) == starts@[i] + parts@[i]@.len());
    starts_grow(m@.chunks, i + 1, n);
}

/// A chunk is taken only where its bytes have the name and the length that the
/// manifest says, and goes where they do not have the name.
pub proof fn chunk_is_held_to_its_name(
    chunk: ChunkRef,
    bytes: &[u8],
    name: String,
    r: ChunkState,
)
    requires
        call_ensures(check_chunk, (&chunk, bytes), r),
        call_ensures(sha256, (bytes,), name),
    ensures
        r == ChunkState::Ready <==> name@ == chunk.sha256@ && bytes@.len() == chunk.length,
        r == ChunkState::Corrupt <==> name@ != chunk.sha256@,
{
}

/// Different digests are filed under different paths.
pub proof fn filed_apart(cas: LocalCas, a: &str, b: &str, p: String, q: String)
    requires
        hex_digest(a@),
        hex_digest(b@),
        ({
            ||| call_ensures(LocalCas::object, (&cas, a), p) && call_ensures(
                LocalCas::object,
                (&cas, b),
                q,
            )
            ||| call_ensures(LocalCas::chunk, (&cas, a), p) && call_ensures(
                LocalCas::chunk,
                (&cas, b),
                q,
            )
            ||| call_ensures(LocalCas::manifest, (&cas, a), p) && call_ensures(
                LocalCas::manifest,
                (&cas, b),
                q,
            )
        }),
    ensures
        p@ == q@ ==> a@ == b@,
        p@.len() >= 64 && p@.skip(p@.len() - 64) == a@,
{
    let stores = seq![cas.root@, cas.chunks@, cas.manifests@];
    assert forall|k: int, x: Seq<char>| 0 <= k < 3 && hex_digest(x) implies #[trigger] ends_in(
        filed(stores[k], x, x),
        x,
    ) by {
        assert(is_hex(x[0]));
        name_stands_last(joined_path(stores[k], shard(x)), x);
    }
    assert(stores[0] == cas.root@ && stores[1] == cas.chunks@ && stores[2] == cas.manifests@);
    assert(ends_in(filed(stores[0], a@, a@), a@) && ends_in(filed(stores[0], b@, b@), b@));
    assert(ends_in(filed(stores[1], a@, a@), a@) && ends_in(filed(stores[1], b@, b@), b@));
    assert(ends_in(filed(stores[2], a@, a@), a@) && ends_in(filed(stores[2], b@, b@), b@));
}

/// A path has a name of this length at its end.
pub open spec fn ends_in(path: Seq<char>, name: Seq<char>) -> bool {
    path.len() >= name.len() && path.skip(path.len() - name.len()) == name
}

proof fn name_stands_last(dir: Seq<char>, name: Seq<char>)
    requires
        name.len() > 0,
        name[0] != '/',
    ensures
        ends_in(joined_path(dir, name), name),
{
    let path = joined_path(dir, name);
    assert(path.skip(path.len() - name.len()) =~= name);
}

/// Of two files the one with the earlier time goes first; one whose time is not
/// known goes before all others.
pub proof fn older_files_go_first(s: GcState, k: int)
    requires
        in_turn(s.order, s.files),
        0 <= s.next < k < s.order.len(),
        s.candidate() is Some,
    ensures
        ({
            let gone = s.files[s.candidate()->0];
            let kept = s.files[s.order[k]];
            &&& kept.mtime_ns is None ==> gone.mtime_ns is None
            &&& kept.mtime_ns is Some && gone.mtime_ns is Some ==> gone.mtime_ns->0
                <= kept.mtime_ns->0
        }),
        s.total > s.max_bytes,
        s.candidate() == Some(s.order[s.next]),
{
    let a = s.next;
    assert(s.files[s.order[a]].less(&s.files[s.order[k]]) || !s.files[s.order[k]].less(
        &s.files[s.order[a]],
    ));
}

/// A store is looked through only where it is bounded and there is one. There it
/// is looked through where the build changed it, where it is not known when it was
/// last done, and once the interval has passed.
pub proof fn when_a_store_is_looked_through(
    max_bytes: u64,
    exists_: bool,
    changed: bool,
    age_ms: Option<u64>,
    r: bool,
)
    requires
        call_ensures(gc_due, (max_bytes, exists_, changed, age_ms), r),
    ensures
        max_bytes == 0 ==> !r,
        !exists_ ==> !r,
        max_bytes > 0 && exists_ && changed ==> r,
        max_bytes > 0 && exists_ && age_ms is None ==> r,
        max_bytes > 0 && exists_ && !changed && age_ms is Some ==> (r <==> age_ms->0
            >= GC_INTERVAL_MS),
{
}

/// Chunks are made of an object that is larger than the threshold and has none
/// yet.
pub proof fn when_chunks_are_made(length: u64, has_manifest: bool, r: bool)
    requires
        call_ensures(needs_chunks, (length, has_manifest), r),
    ensures
        r <==> !has_manifest && length > CHUNKING_THRESHOLD,
{
}

/// Of a store with one manifest more, the numbers say so: where it is valid, there
/// is one more manifest, and its chunks and their bytes count as well; where it is
/// not, nothing changes. Chunks that other manifests have too count as used again.
pub proof fn one_more_manifest_counts(
    objects: (u64, u64),
    chunks: (u64, u64),
    deltas: (u64, u64),
    manifests: Vec<ChunkManifest>,
    more: Vec<ChunkManifest>,
    a: CasStats,
    b: CasStats,
)
    requires
        call_ensures(stats, (objects, chunks, deltas, &manifests), a),
        call_ensures(stats, (objects, chunks, deltas, &more), b),
        more@.len() == manifests@.len() + 1,
        more@.drop_last() == manifests@,
    ensures
        a.object_count == objects.0 && a.object_bytes == objects.1,
        a.chunk_count == chunks.0 && a.chunk_bytes == chunks.1,
        a.delta_count == deltas.0 && a.delta_bytes == deltas.1,
        a.reused_chunk_count <= a.logical_chunk_count,
        a.reused_chunk_bytes <= a.logical_chunk_bytes,
        ({
            let m = more@.last()@;
            if valid(m, m.blob_digest) {
                &&& b.manifest_count == a.manifest_count + 1
                &&& b.logical_chunk_count == a.logical_chunk_count + m.chunks.len()
                &&& b.logical_chunk_bytes == a.logical_chunk_bytes + m.total_bytes
                &&& (forall|k: int|
                    0 <= k < m.chunks.len() ==> exists|i: int, j: int|
                        0 <= i < manifests@.len() && valid(
                            (#[trigger] manifests@[i])@,
                            manifests@[i]@.blob_digest,
                        ) && 0 <= j < manifests@[i]@.chunks.len() && (
                        #[trigger] manifests@[i]@.chunks[j]).sha256 == (#[trigger]
                        m.chunks[k]).sha256) ==> b.reused_chunk_count == a.reused_chunk_count
                    + m.chunks.len() && b.reused_chunk_bytes == a.reused_chunk_bytes + m.total_bytes
            } else {
                b == a
            }
        }),
{
    let n = manifests@.len() as int;
    let m = more@.last()@;
    referenced_of_prefix(manifests@, more@, n);
    let all = referenced(manifests@, n);
    let now = referenced(more@, n + 1);
    totals_bounded(all, all.len() as int);
    if valid(m, m.blob_digest) {
        assert(now =~= all + m.chunks);
        totals_of_prefix(all, now, all.len() as int);
        totals_behind(all, m.chunks, m.chunks.len() as int);
        if forall|k: int|
            0 <= k < m.chunks.len() ==> exists|i: int, j: int|
                0 <= i < manifests@.len() && valid(
                    (#[trigger] manifests@[i])@,
                    manifests@[i]@.blob_digest,
                ) && 0 <= j < manifests@[i]@.chunks.len() && (
                #[trigger] manifests@[i]@.chunks[j]).sha256 == (#[trigger] m.chunks[k]).sha256 {
            assert forall|k: int| 0 <= k < m.chunks.len() implies exists|q: int|
                0 <= q < all.len() && (#[trigger] all[q]).sha256 == (#[trigger] m.chunks[k]).sha256 by {
                let (i, j) = choose|i: int, j: int|
                    0 <= i < manifests@.len() && valid(
                        (#[trigger] manifests@[i])@,
                        manifests@[i]@.blob_digest,
                    ) && 0 <= j < manifests@[i]@.chunks.len() && (
                    #[trigger] manifests@[i]@.chunks[j]).sha256 == m.chunks[k].sha256;
                let q = place_of_chunk(manifests@, n, i, j);
                assert(all[q].sha256 == m.chunks[k].sha256);
            }
            nothing_new(all, m.chunks, m.chunks.len() as int);
        }
    }
}

proof fn referenced_of_prefix(a: Seq<ChunkManifest>, b: Seq<ChunkManifest>, n: int)
    requires
        0 <= n <= a.len(),
        b.len() == a.len() + 1,
        b.drop_last() == a,
    ensures
        referenced(a, n) == referenced(b, n),
        valid_count(a, n) == valid_count(b, n),
    decreases n,
{
    if n > 0 {
        referenced_of_prefix(a, b, n - 1);
        assert(b.drop_last()[n - 1] == b[n - 1]);
    }
}

proof fn place_of_chunk(v: Seq<ChunkManifest>, n: int, i: int, j: int) -> (q: int)
    requires
        0 <= i < n <= v.len(),
        valid(v[i]@, v[i]@.blob_digest),
        0 <= j < v[i]@.chunks.len(),
    ensures
        0 <= q < referenced(v, n).len(),
        referenced(v, n)[q] == v[i]@.chunks[j],
    decreases n,
{
    if i == n - 1 {
        referenced(v, n - 1).len() + j
    } else {
        place_of_chunk(v, n - 1, i, j)
    }
}

/// The lengths of chunks behind others are their own.
proof fn totals_behind(all: Seq<ChunkText>, more: Seq<ChunkText>, k: int)
    requires
        0 <= k <= more.len(),
    ensures
        starts_at(all + more, all.len() + k) == starts_at(all, all.len() as int) + starts_at(
            more,
            k,
        ),
    decreases k,
{
    if k > 0 {
        totals_behind(all, more, k - 1);
    } else {
        totals_of_prefix(all, all + more, all.len() as int);
    }
}

proof fn nothing_new(all: Seq<ChunkText>, more: Seq<ChunkText>, k: int)
    requires
        0 <= k <= more.len(),
        forall|k: int|
            0 <= k < more.len() ==> exists|q: int|
                0 <= q < all.len() && (#[trigger] all[q]).sha256 == (#[trigger] more[k]).sha256,
    ensures
        different_count(all + more, all.len() + k) == different_count(all, all.len() as int),
        different_bytes(all + more, all.len() + k) == different_bytes(all, all.len() as int),
    decreases k,
{
    if k > 0 {
        nothing_new(all, more, k - 1);
        let now = all + more;
        let at = all.len() + k - 1;
        assert(now[at] == more[k - 1]);
        let q = choose|q: int| 0 <= q < all.len() && (#[trigger] all[q]).sha256 == more[k - 1].sha256;
        assert(now[q] == all[q]);
        assert(!is_first(now, at));
    } else {
        totals_of_prefix(all, all + more, all.len() as int);
    }
}

/// A delta is kept only where it is shorter than the chunk is on its own, names the
/// chunk that it starts from, and gives the chunk back.
pub proof fn kept_delta_pays(
    base_name: &str,
    base: &[u8],
    target_name: &str,
    target: &[u8],
    delta: DeltaRef,
    patch: Vec<u8>,
)
    requires
        call_ensures(
            build_delta,
            (base_name, base, target_name, target),
            DeltaOutcome::Delta(delta, patch),
        ),
    ensures
        compressed(3, target@) is Some && patch@.len() < compressed(3, target@)->0.len(),
        chunk_name(base@) == base_name@,
        delta.base_sha256@ == base_name@,
        delta.patch_sha256@ == chunk_name(patch@),
        delta.patch_bytes == patch@.len(),
        patched(base@, patch@, target@.len() as int) is Some,
        chunk_name(patched(base@, patch@, target@.len() as int)->0) == target_name@,
{
    assert(delta@.base_sha256 == delta.base_sha256@);
    assert(delta@.patch_sha256 == delta.patch_sha256@);
}

/// The manifest of an object has a chunk for every cut, in order, each with the
/// digest of the bytes that were cut, their number and its delta; and it has the
/// length of the object, its digest and whether it can be executed.
pub proof fn every_cut_is_a_chunk(
    content: &[u8],
    digest: &str,
    executable: bool,
    cuts: Vec<(usize, usize)>,
    deltas: Vec<Option<DeltaRef>>,
    r: ChunkManifest,
    i: int,
)
    requires
        call_ensures(chunk_manifest, (content, digest, executable, &cuts, &deltas), r),
        content@.len() <= u64::MAX,
        cuts@.len() == deltas@.len(),
        cuts_within(cuts@, content@.len()),
        0 <= i < cuts@.len(),
    ensures
        r.blob_digest@ == digest@,
        r.executable == executable,
        r.total_bytes == content@.len(),
        r.chunks@.len() == cuts@.len(),
        r.chunks@[i].sha256@ == chunk_name(
            content@.subrange(cuts@[i].0 as int, cuts@[i].0 + cuts@[i].1),
        ),
        r.chunks@[i].length == cuts@[i].1,
        deltas@[i] is None ==> r.chunks@[i].delta is None,
        deltas@[i] is Some ==> r.chunks@[i].delta is Some && r.chunks@[i].delta->0@ == deltas@[i]->0@,
{
    assert(r@.chunks == chunks_of(content@, cuts@, deltas@));
    assert(r@.chunks.len() == r.chunks@.len());
    assert(r@.chunks[i] == r.chunks@[i]@);
    assert(cuts@[i].1 <= DEFAULT_MAX);
}

} // verus!
