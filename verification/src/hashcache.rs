//! The cache of content digests.

use vstd::prelude::*;
use vstd::string::*;

use crate::bytes::{bytes_between, push_bytes, stands_at};
use crate::digest::{blake3_hex, blake3_of, hex_text};
use crate::paths::{absolute, is_absolute, join_path, joined_path};
use crate::sorted_map::{in_order, in_order_is, SortedMap};
use crate::text::copy;

verus! {

/// The digest of a path where nothing is. It is part of keys as any other, so
/// that the removal of an input is noticed.
pub const MISSING: &'static str = "MISSING";

/// The path of the cache in a workspace.
pub const CACHE_REL_PATH: &'static str = ".frost/hashcache.bin";

/// The path of the cache in a workspace of an earlier version.
pub const LEGACY_CACHE_REL_PATH: &'static str = ".frost/hashcache.json";

/// What identifies the state of a file without its content.
#[derive(Debug, Clone, Copy, PartialEq, Eq, Structural)]
pub struct Stat {
    pub mtime_ns: i128,
    pub size: u64,
    pub ino: u64,
}

/// What is known of a file: its state, and its digest in that state. An empty
/// digest stands for a path that nothing is known of any more.
#[derive(Debug)]
pub struct Entry {
    pub stat: Stat,
    pub hash: String,
}

/// What an entry says.
pub struct EntryText {
    pub stat: Stat,
    pub hash: Seq<char>,
}

impl View for Entry {
    type V = EntryText;

    open spec fn view(&self) -> EntryText {
        EntryText { stat: self.stat, hash: self.hash@ }
    }
}

/// Content digests by path. One value covers one build, and treats it as one
/// point in time: what was digested is not looked at again, unless the build
/// itself has written it.
#[derive(Debug)]
pub struct HashCache {
    /// As read from the file; never changed.
    snapshot: SortedMap<Entry>,
    /// What this build found otherwise.
    updates: SortedMap<Entry>,
    changed: bool,
    /// Digests that this build has established.
    settled: SortedMap<String>,
}

/// What a cache knows.
#[verifier::ext_equal]
pub struct CacheText {
    pub snapshot: Map<Seq<char>, EntryText>,
    pub updates: Map<Seq<char>, EntryText>,
    pub changed: bool,
    pub settled: Map<Seq<char>, Seq<char>>,
}

/// What entries say.
pub open spec fn entry_texts(m: SortedMap<Entry>) -> Map<Seq<char>, EntryText> {
    Map::new(|k: Seq<char>| m.has(k), |k: Seq<char>| m.at(k)@)
}

/// What texts say.
spec fn digests(m: SortedMap<String>) -> Map<Seq<char>, Seq<char>> {
    Map::new(|k: Seq<char>| m.has(k), |k: Seq<char>| m.at(k)@)
}

impl View for HashCache {
    type V = CacheText;

    closed spec fn view(&self) -> CacheText {
        CacheText {
            snapshot: entry_texts(self.snapshot),
            updates: entry_texts(self.updates),
            changed: self.changed,
            settled: digests(self.settled),
        }
    }
}

impl CacheText {
    /// The newest entry of a path.
    pub open spec fn lookup(self, rel: Seq<char>) -> Option<EntryText> {
        if self.changed && self.updates.dom().contains(rel) {
            Some(self.updates[rel])
        } else if self.snapshot.dom().contains(rel) {
            Some(self.snapshot[rel])
        } else {
            None
        }
    }

    /// The path has an entry with a digest.
    pub open spec fn knows(self, rel: Seq<char>) -> bool {
        self.lookup(rel) is Some && self.lookup(rel)->0.hash.len() > 0
    }

    /// The digest of the path is known for this state.
    pub open spec fn current(self, rel: Seq<char>, stat: Stat) -> bool {
        self.knows(rel) && self.lookup(rel)->0.stat == stat
    }

    /// The cache after what is known of a path was dropped. That it is gone is
    /// remembered, because the snapshot still has it.
    pub open spec fn forgotten(self, rel: Seq<char>) -> CacheText {
        CacheText {
            updates: self.updates.insert(rel, gone()),
            settled: self.settled.remove(rel),
            changed: true,
            ..self
        }
    }

    /// The cache after a digest was established.
    pub open spec fn settle(self, rel: Seq<char>, hash: Seq<char>) -> CacheText {
        CacheText { settled: self.settled.insert(rel, hash), ..self }
    }

    /// The cache after a file was hashed.
    pub open spec fn hashed(self, rel: Seq<char>, stat: Stat, hash: Seq<char>) -> CacheText {
        CacheText {
            updates: self.updates.insert(rel, EntryText { stat, hash }),
            settled: self.settled.insert(rel, hash),
            changed: true,
            ..self
        }
    }

    /// The entries that are kept.
    pub open spec fn merged(self) -> Map<Seq<char>, EntryText> {
        Map::new(
            |k: Seq<char>|
                if self.updates.dom().contains(k) {
                    self.updates[k].hash.len() > 0
                } else {
                    self.snapshot.dom().contains(k)
                },
            |k: Seq<char>|
                if self.updates.dom().contains(k) {
                    self.updates[k]
                } else {
                    self.snapshot[k]
                },
        )
    }
}

/// The entry of a path that nothing is known of any more.
pub open spec fn gone() -> EntryText {
    EntryText { stat: Stat { mtime_ns: i128::MIN, size: 0, ino: 0 }, hash: Seq::empty() }
}

/// What a look at a path has shown.
#[derive(Debug)]
pub enum Checked {
    /// The digest of the path.
    Known(String),
    /// The file must be hashed.
    Unknown,
}

/// What a look at a path shows, and the cache after it. `stat` is the state of
/// the file, where there is one.
pub open spec fn check_result(
    c: CacheText,
    rel: Seq<char>,
    stat: Option<Stat>,
) -> (CacheText, Option<Seq<char>>) {
    if c.settled.dom().contains(rel) {
        (c, Some(c.settled[rel]))
    } else {
        match stat {
            None => (
                if c.knows(rel) {
                    c.forgotten(rel)
                } else {
                    c
                },
                Some("MISSING"@),
            ),
            Some(now) => if c.current(rel, now) {
                (c.settle(rel, c.lookup(rel)->0.hash), Some(c.lookup(rel)->0.hash))
            } else {
                (c, None)
            },
        }
    }
}

proof fn updated(m: SortedMap<Entry>, n: SortedMap<Entry>, rel: Seq<char>, e: Entry)
    requires
        forall|k: Seq<char>| #[trigger] n.has(k) <==> m.has(k) || k == rel,
        forall|k: Seq<char>|
            n.has(k) ==> #[trigger] n.at(k) == if k == rel {
                e
            } else {
                m.at(k)
            },
    ensures
        entry_texts(n) == entry_texts(m).insert(rel, e@),
{
    assert(entry_texts(n) =~= entry_texts(m).insert(rel, e@));
}

impl HashCache {
    /// The maps are in order.
    pub closed spec fn wf(self) -> bool {
        self.snapshot.wf() && self.updates.wf() && self.settled.wf()
    }

    /// A cache that knows nothing.
    pub fn new() -> (r: HashCache)
        ensures
            r.wf(),
            r@ == (CacheText {
                snapshot: Map::empty(),
                updates: Map::empty(),
                changed: false,
                settled: Map::empty(),
            }),
    {
        let r = HashCache {
            snapshot: SortedMap::new(),
            updates: SortedMap::new(),
            changed: false,
            settled: SortedMap::new(),
        };
        assert(entry_texts(r.snapshot) =~= Map::<Seq<char>, EntryText>::empty());
        assert(digests(r.settled) =~= Map::<Seq<char>, Seq<char>>::empty());
        r
    }

    fn lookup(&self, rel: &str) -> (r: Option<&Entry>)
        requires
            self.wf(),
        ensures
            match r {
                Some(e) => self@.lookup(rel@) == Some(e@),
                None => self@.lookup(rel@) is None,
            },
    {
        if self.changed {
            if let Some(hit) = self.updates.get(rel) {
                return Some(hit);
            }
        }
        self.snapshot.get(rel)
    }

    /// The digest that this build has established.
    pub fn settled(&self, rel: &str) -> (r: Option<String>)
        requires
            self.wf(),
        ensures
            match r {
                Some(hash) => self@.settled.dom().contains(rel@) && hash@ == self@.settled[rel@],
                None => !self@.settled.dom().contains(rel@),
            },
    {
        match self.settled.get(rel) {
            Some(hash) => Some(copy(hash)),
            None => None,
        }
    }

    fn settle(&mut self, rel: &str, hash: &str)
        requires
            old(self).wf(),
        ensures
            final(self).wf(),
            final(self)@ == old(self)@.settle(rel@, hash@),
    {
        let ghost was = self.settled;
        let _ = self.settled.insert(copy(rel), copy(hash));
        assert(digests(self.settled) =~= digests(was).insert(rel@, hash@));
    }

    /// Drops what is known of a path that was written, so that it is hashed
    /// again: a file can be written twice without a difference in its state.
    pub fn invalidate(&mut self, rel: &str)
        requires
            old(self).wf(),
        ensures
            final(self).wf(),
            final(self)@ == old(self)@.forgotten(rel@),
    {
        let ghost was = *self;
        let entry = Entry {
            stat: Stat { mtime_ns: i128::MIN, size: 0, ino: 0 },
            hash: String::new(),
        };
        let ghost given = entry;
        assert(given@.hash =~= Seq::<char>::empty());
        let _ = self.updates.insert(copy(rel), entry);
        let _ = self.settled.remove(rel);
        self.changed = true;
        proof {
            updated(was.updates, self.updates, rel@, given);
            assert(digests(self.settled) =~= digests(was.settled).remove(rel@));
        }
    }

    /// The digest of a path, where it is known or the file is missing. `stat`
    /// is the state of the file, where there is one.
    pub fn digest(&mut self, rel: &str, stat: Option<Stat>) -> (r: Checked)
        requires
            old(self).wf(),
        ensures
            final(self).wf(),
            final(self)@ == check_result(old(self)@, rel@, stat).0,
            match r {
                Checked::Known(hash) => check_result(old(self)@, rel@, stat).1 == Some(hash@),
                Checked::Unknown => check_result(old(self)@, rel@, stat).1 is None,
            },
    {
        if let Some(hash) = self.settled(rel) {
            return Checked::Known(hash);
        }
        let found = match self.lookup(rel) {
            Some(entry) => if entry.hash.as_str().is_empty() {
                None
            } else {
                Some((entry.stat, copy(&entry.hash)))
            },
            None => None,
        };
        match stat {
            None => {
                if found.is_some() {
                    self.invalidate(rel);
                }
                Checked::Known(copy(MISSING))
            },
            Some(now) => {
                if let Some((then, hash)) = found {
                    if then == now {
                        self.settle(rel, &hash);
                        return Checked::Known(hash);
                    }
                }
                Checked::Unknown
            },
        }
    }

    /// Takes over the digest of a file that was hashed.
    pub fn store(&mut self, rel: &str, stat: Stat, hash: &str)
        requires
            old(self).wf(),
        ensures
            final(self).wf(),
            final(self)@ == old(self)@.hashed(rel@, stat, hash@),
    {
        self.settle(rel, hash);
        let ghost was = *self;
        let entry = Entry { stat, hash: copy(hash) };
        let ghost given = entry;
        let _ = self.updates.insert(copy(rel), entry);
        self.changed = true;
        proof {
            updated(was.updates, self.updates, rel@, given);
        }
    }
}

/// The cache after a look at the first `n` paths.
pub open spec fn checked_upto(
    c: CacheText,
    paths: Seq<Seq<char>>,
    stats: Seq<Option<Stat>>,
    n: nat,
) -> CacheText
    decreases n,
{
    if n == 0 {
        c
    } else {
        check_result(
            checked_upto(c, paths, stats, (n - 1) as nat),
            paths[n - 1],
            stats[n - 1],
        ).0
    }
}

/// What the look at path `i` shows.
pub open spec fn shown(
    c: CacheText,
    paths: Seq<Seq<char>>,
    stats: Seq<Option<Stat>>,
    i: int,
) -> Option<Seq<char>> {
    check_result(checked_upto(c, paths, stats, i as nat), paths[i], stats[i]).1
}

impl HashCache {
    /// Looks at paths one after the other: for each what is known of it. Those
    /// that must be hashed can be hashed in any order.
    pub fn digest_many(&mut self, paths: &Vec<String>, stats: &Vec<Option<Stat>>) -> (r: Vec<
        Checked,
    >)
        requires
            old(self).wf(),
            paths@.len() == stats@.len(),
        ensures
            final(self).wf(),
            final(self)@ == checked_upto(
                old(self)@,
                crate::text::texts(paths@),
                stats@,
                paths@.len(),
            ),
            r@.len() == paths@.len(),
            forall|i: int|
                0 <= i < paths@.len() ==> match #[trigger] r@[i] {
                    Checked::Known(hash) => shown(
                        old(self)@,
                        crate::text::texts(paths@),
                        stats@,
                        i,
                    ) == Some(hash@),
                    Checked::Unknown => shown(
                        old(self)@,
                        crate::text::texts(paths@),
                        stats@,
                        i,
                    ) is None,
                },
    {
        let ghost start = self@;
        let ghost names = crate::text::texts(paths@);
        let mut out: Vec<Checked> = Vec::new();
        let mut i: usize = 0;
        while i < paths.len()
            invariant
                names == crate::text::texts(paths@),
                paths@.len() == stats@.len(),
                i <= paths@.len(),
                self.wf(),
                self@ == checked_upto(start, names, stats@, i as nat),
                out@.len() == i,
                forall|j: int|
                    0 <= j < i ==> match #[trigger] out@[j] {
                        Checked::Known(hash) => shown(start, names, stats@, j) == Some(hash@),
                        Checked::Unknown => shown(start, names, stats@, j) is None,
                    },
            decreases paths@.len() - i,
        {
            assert(names[i as int] == paths@[i as int]@);
            let found = self.digest(&paths[i], stats[i]);
            out.push(found);
            i += 1;
        }
        out
    }
}

/// What this build has established does not change, whatever the state of the
/// file, until the build writes the file.
pub proof fn settled_stays(c: CacheText, rel: Seq<char>, stat: Option<Stat>)
    requires
        c.settled.dom().contains(rel),
    ensures
        check_result(c, rel, stat) == (c, Some(c.settled[rel])),
{
}

/// A file that was hashed has its digest, and one that was written since must
/// be hashed again, whatever its state.
pub proof fn invalidated_is_hashed_again(
    c: CacheText,
    rel: Seq<char>,
    stat: Stat,
    hash: Seq<char>,
    now: Stat,
)
    ensures
        check_result(c.hashed(rel, stat, hash), rel, Some(now)).1 == Some(hash),
        check_result(c.forgotten(rel), rel, Some(now)).1 is None,
        check_result(c.forgotten(rel), rel, None).1 == Some("MISSING"@),
{
}

/// A look at a path changes nothing that is known of another.
pub proof fn others_unchanged(c: CacheText, rel: Seq<char>, stat: Option<Stat>, other: Seq<char>)
    requires
        rel != other,
        c.updates.dom().len() == 0 || c.changed,
        c.updates.dom().finite(),
    ensures
        check_result(c, rel, stat).0.lookup(other) == c.lookup(other),
        check_result(c, rel, stat).0.settled.dom().contains(other) == c.settled.dom().contains(
            other,
        ),
{
    if !c.changed {
        assert(c.updates.dom() =~= Set::<Seq<char>>::empty());
    }
}

// ---------------------------------------------------------------------------
// The file
// ---------------------------------------------------------------------------

/// An entry as it is encoded: the path, then the time, the size, the inode and
/// the digest.
pub type Wire = (String, (i128, u64, u64, String));

/// What encoded entries say.
pub open spec fn wire_texts(v: Seq<Wire>) -> Seq<(Seq<char>, EntryText)> {
    Seq::new(
        v.len(),
        |i: int|
            (
                v[i].0@,
                EntryText {
                    stat: Stat { mtime_ns: v[i].1.0, size: v[i].1.1, ino: v[i].1.2 },
                    hash: v[i].1.3@,
                },
            ),
    )
}

/// The entries that bytes hold.
pub uninterp spec fn entries_of(bytes: Seq<u8>) -> Option<Seq<(Seq<char>, EntryText)>>;

/// The bytes of entries.
pub uninterp spec fn entries_code(entries: Seq<(Seq<char>, EntryText)>) -> Option<Seq<u8>>;

/// `postcard::from_bytes`: the entries at the beginning of the bytes, or none
/// where they hold no entries. The bytes alone decide.
#[verifier::external_body]
fn decode_entries(bytes: &[u8]) -> (r: Option<Vec<Wire>>)
    ensures
        match r {
            Some(v) => entries_of(bytes@) == Some(wire_texts(v@)),
            None => entries_of(bytes@) == None::<Seq<(Seq<char>, EntryText)>>,
        },
{
    postcard::from_bytes(bytes).ok()
}

/// `postcard::to_allocvec`: bytes that the entries alone decide, and from which
/// they are read back.
#[verifier::external_body]
fn encode_entries(entries: &Vec<Wire>) -> (r: Option<Vec<u8>>)
    ensures
        match r {
            Some(bytes) => entries_code(wire_texts(entries@)) == Some(bytes@) && entries_of(bytes@)
                == Some(wire_texts(entries@)),
            None => entries_code(wire_texts(entries@)) == None::<Seq<u8>>,
        },
{
    postcard::to_allocvec(entries).ok()
}

/// The bytes at the beginning of the file.
pub open spec fn magic() -> Seq<u8> {
    seq![0x46u8, 0x52, 0x53, 0x54, 0x48, 0x43, 0x30, 0x32]
}

/// A map from entries: a later one overrides an earlier one.
pub open spec fn entries_map(entries: Seq<(Seq<char>, EntryText)>) -> Map<Seq<char>, EntryText>
    decreases entries.len(),
{
    if entries.len() == 0 {
        Map::empty()
    } else {
        entries_map(entries.drop_last()).insert(entries.last().0, entries.last().1)
    }
}

/// The entries in a file; none where it is not valid.
pub open spec fn file_entries(bytes: Seq<u8>) -> Map<Seq<char>, EntryText> {
    if bytes.len() >= 8 && bytes.take(8) == magic() && entries_of(bytes.skip(8)) is Some {
        entries_map(entries_of(bytes.skip(8))->0)
    } else {
        Map::empty()
    }
}

fn map_of(entries: Vec<Wire>) -> (r: SortedMap<Entry>)
    ensures
        r.wf(),
        entry_texts(r) == entries_map(wire_texts(entries@)),
{
    let ghost all = wire_texts(entries@);
    let mut out: SortedMap<Entry> = SortedMap::new();
    let mut i: usize = 0;
    assert(all.take(0) =~= Seq::empty());
    assert(entry_texts(out) =~= Map::<Seq<char>, EntryText>::empty());
    while i < entries.len()
        invariant
            all == wire_texts(entries@),
            i <= entries@.len(),
            out.wf(),
            entry_texts(out) == entries_map(all.take(i as int)),
        decreases entries@.len() - i,
    {
        let ghost was = out;
        let e = &entries[i];
        let entry = Entry {
            stat: Stat { mtime_ns: e.1.0, size: e.1.1, ino: e.1.2 },
            hash: copy(&e.1.3),
        };
        let ghost given = entry;
        let _ = out.insert(copy(&e.0), entry);
        proof {
            updated(was, out, e.0@, given);
            assert(all.take(i + 1).drop_last() =~= all.take(i as int));
            assert(given@ == all[i as int].1);
        }
        i += 1;
    }
    assert(all.take(i as int) =~= all);
    out
}

/// The entries of a map in order.
spec fn listed(m: SortedMap<Entry>) -> Seq<(Seq<char>, EntryText)> {
    Seq::new(m.keys@.len(), |i: int| (m.keys@[i]@, m.values@[i]@))
}

/// The entries of a map in the order of their paths.
pub open spec fn in_key_order(m: Map<Seq<char>, EntryText>) -> Seq<(Seq<char>, EntryText)> {
    let names = in_order(m.dom());
    Seq::new(names.len(), |i: int| (names[i], m[names[i]]))
}

proof fn listed_upto(m: SortedMap<Entry>, n: int)
    requires
        m.wf(),
        0 <= n <= m.keys@.len(),
    ensures
        forall|k: Seq<char>| #[trigger]
            entries_map(listed(m).take(n)).dom().contains(k) <==> m.names().take(n).contains(k),
        forall|i: int|
            0 <= i < n ==> entries_map(listed(m).take(n))[#[trigger] m.names()[i]] == m.values@[i]@,
    decreases n,
{
    let names = m.names();
    if n > 0 {
        listed_upto(m, n - 1);
        let all = listed(m).take(n);
        assert(all.drop_last() =~= listed(m).take(n - 1));
        let before = entries_map(listed(m).take(n - 1));
        assert(entries_map(all) == before.insert(names[n - 1], m.values@[n - 1]@));
        assert forall|k: Seq<char>| #[trigger]
            entries_map(listed(m).take(n)).dom().contains(k) <==> m.names().take(n).contains(k) by {
            assert(entries_map(all).dom().contains(k) <==> before.dom().contains(k) || k
                == names[n - 1]);
            if names.take(n - 1).contains(k) {
                let i = names.take(n - 1).index_of(k);
                assert(names.take(n)[i] == k);
            }
            if k == names[n - 1] {
                assert(names.take(n)[n - 1] == k);
            }
            if names.take(n).contains(k) && k != names[n - 1] {
                let i = names.take(n).index_of(k);
                assert(names.take(n - 1)[i] == k);
            }
        }
        assert forall|i: int| 0 <= i < n implies entries_map(all)[#[trigger] names[i]]
            == m.values@[i]@ by {
            if i < n - 1 {
                crate::sorted_map::ascending_distinct(names);
                assert(names[i] != names[n - 1]);
            }
        }
    }
}

/// The entries of a map make the map.
proof fn entries_read_back(m: SortedMap<Entry>)
    requires
        m.wf(),
    ensures
        entries_map(listed(m)) == entry_texts(m),
{
    let n = m.keys@.len() as int;
    listed_upto(m, n);
    assert(listed(m).take(n) =~= listed(m));
    assert(m.names().take(n) =~= m.names());
    assert forall|k: Seq<char>| m.has(k) implies entries_map(listed(m))[k] == entry_texts(m)[k] by {
        let i = m.spot(k);
        assert(m.names()[i] == k);
    }
    assert(entries_map(listed(m)) =~= entry_texts(m));
}

fn wires_of(m: &SortedMap<Entry>) -> (r: Vec<Wire>)
    requires
        m.wf(),
    ensures
        wire_texts(r@) == listed(*m),
{
    let ghost all = listed(*m);
    let mut out: Vec<Wire> = Vec::new();
    let mut i: usize = 0;
    while i < m.keys.len()
        invariant
            m.wf(),
            all == listed(*m),
            i <= m.keys@.len(),
            wire_texts(out@) =~= all.take(i as int),
        decreases m.keys@.len() - i,
    {
        let e = &m.values[i];
        out.push((copy(&m.keys[i]), (e.stat.mtime_ns, e.stat.size, e.stat.ino, copy(&e.hash))));
        assert(all.take(i + 1) =~= all.take(i as int).push(all[i as int]));
        i += 1;
    }
    assert(all.take(i as int) =~= all);
    out
}

fn copy_entry(e: &Entry) -> (r: Entry)
    ensures
        r@ == e@,
{
    Entry { stat: e.stat, hash: copy(&e.hash) }
}

impl HashCache {
    /// The cache from the contents of its file, which may be empty.
    pub fn load(file: &[u8]) -> (r: HashCache)
        ensures
            r.wf(),
            r@ == (CacheText {
                snapshot: file_entries(file@),
                updates: Map::empty(),
                changed: false,
                settled: Map::empty(),
            }),
    {
        let mut out = HashCache::new();
        let start: [u8; 8] = [0x46, 0x52, 0x53, 0x54, 0x48, 0x43, 0x30, 0x32];
        proof {
            assert(start@ =~= magic());
            if file@.len() >= 8 {
                assert(file@.subrange(0, 8) =~= file@.take(8));
            }
        }
        if stands_at(file, 0, &start) {
            let rest = bytes_between(file, 8, file.len());
            assert(rest@ =~= file@.skip(8));
            if let Some(entries) = decode_entries(rest.as_slice()) {
                out.snapshot = map_of(entries);
            }
        }
        out
    }

    /// The entries that are kept.
    fn merge(&self) -> (r: SortedMap<Entry>)
        requires
            self.wf(),
        ensures
            r.wf(),
            entry_texts(r) == self@.merged(),
    {
        let ghost names = self.updates.names();
        let mut out: SortedMap<Entry> = SortedMap::new();
        let mut i: usize = 0;
        while i < self.snapshot.keys.len()
            invariant
                self.wf(),
                i <= self.snapshot.keys@.len(),
                out.wf(),
                forall|k: Seq<char>| #[trigger]
                    out.has(k) <==> self.snapshot.names().take(i as int).contains(k),
                forall|k: Seq<char>|
                    out.has(k) ==> (#[trigger] out.at(k))@ == self.snapshot.at(k)@,
            decreases self.snapshot.keys@.len() - i,
        {
            let ghost was = out;
            let ghost all = self.snapshot.names();
            let _ = out.insert(copy(&self.snapshot.keys[i]), copy_entry(&self.snapshot.values[i]));
            proof {
                self.snapshot.spot_is(i as int);
                assert(all.take(i + 1) =~= all.take(i as int).push(all[i as int]));
                assert forall|k: Seq<char>| #[trigger]
                    out.has(k) <==> all.take(i + 1).contains(k) by {
                    if all.take(i as int).contains(k) {
                        let j = all.take(i as int).index_of(k);
                        assert(all.take(i + 1)[j] == k);
                    }
                    if k == all[i as int] {
                        assert(all.take(i + 1)[i as int] == k);
                    }
                }
            }
            i += 1;
        }
        assert(self.snapshot.names().take(i as int) =~= self.snapshot.names());
        let mut j: usize = 0;
        while j < self.updates.keys.len()
            invariant
                self.wf(),
                names == self.updates.names(),
                j <= self.updates.keys@.len(),
                out.wf(),
                forall|k: Seq<char>| #[trigger]
                    out.has(k) <==> if names.take(j as int).contains(k) {
                        self.updates.at(k)@.hash.len() > 0
                    } else {
                        self.snapshot.has(k)
                    },
                forall|k: Seq<char>|
                    out.has(k) ==> (#[trigger] out.at(k))@ == if names.take(j as int).contains(k) {
                        self.updates.at(k)@
                    } else {
                        self.snapshot.at(k)@
                    },
            decreases self.updates.keys@.len() - j,
        {
            let entry = &self.updates.values[j];
            if entry.hash.as_str().is_empty() {
                let _ = out.remove(&self.updates.keys[j]);
            } else {
                let _ = out.insert(copy(&self.updates.keys[j]), copy_entry(entry));
            }
            proof {
                self.updates.spot_is(j as int);
                assert(names.take(j + 1) =~= names.take(j as int).push(names[j as int]));
                assert forall|k: Seq<char>|
                    names.take(j + 1).contains(k) <==> names.take(j as int).contains(k) || k
                        == names[j as int] by {
                    if names.take(j as int).contains(k) {
                        let n = names.take(j as int).index_of(k);
                        assert(names.take(j + 1)[n] == k);
                    }
                    if k == names[j as int] {
                        assert(names.take(j + 1)[j as int] == k);
                    }
                }
            }
            j += 1;
        }
        assert(names.take(j as int) =~= names);
        assert(entry_texts(out) =~= self@.merged());
        out
    }

    /// The contents of the file; none where nothing has changed or the entries
    /// cannot be encoded. From the file what is kept is read back.
    pub fn save(&self) -> (r: Option<Vec<u8>>)
        requires
            self.wf(),
        ensures
            match r {
                Some(bytes) => {
                    &&& self@.changed
                    &&& entries_code(in_key_order(self@.merged())) is Some
                    &&& bytes@ == magic() + entries_code(in_key_order(self@.merged()))->0
                    &&& file_entries(bytes@) == self@.merged()
                },
                None => !self@.changed || entries_code(in_key_order(self@.merged())) is None,
            },
    {
        if !self.changed {
            return None;
        }
        let merged = self.merge();
        proof {
            assert(merged.names().to_set() =~= self@.merged().dom());
            in_order_is(merged.names());
            assert forall|i: int| 0 <= i < merged.keys@.len() implies #[trigger] listed(merged)[i]
                == in_key_order(self@.merged())[i] by {
                merged.spot_is(i as int);
                assert(merged.names().contains(merged.names()[i]));
            }
            assert(listed(merged) =~= in_key_order(self@.merged()));
        }
        match encode_entries(&wires_of(&merged)) {
            None => None,
            Some(code) => {
                let start: [u8; 8] = [0x46, 0x52, 0x53, 0x54, 0x48, 0x43, 0x30, 0x32];
                let mut out: Vec<u8> = Vec::new();
                push_bytes(&mut out, &start);
                push_bytes(&mut out, code.as_slice());
                proof {
                    entries_read_back(merged);
                    assert(out@.take(8) =~= magic());
                    assert(out@.skip(8) =~= code@);
                }
                Some(out)
            },
        }
    }
}

// ---------------------------------------------------------------------------
// Files
// ---------------------------------------------------------------------------

/// The state of a file from what the system says of it. The mode is part of
/// the size, because a change of mode leaves the time as it was.
pub fn stat_triple(mtime: i64, mtime_nsec: i64, size: u64, mode: u32, ino: u64) -> (r: Stat)
    ensures
        r.mtime_ns == mtime * 1_000_000_000 + mtime_nsec,
        r.size == size ^ ((mode as u64 & 0o111) << 40),
        r.ino == ino,
        is_triple(mtime as int, mtime_nsec as int, size, mode, ino, r),
{
    Stat {
        mtime_ns: mtime as i128 * 1_000_000_000 + mtime_nsec as i128,
        size: size ^ ((mode as u64 & 0o111) << 40),
        ino,
    }
}

/// `r` is the state of a file with this time, size, mode and inode.
pub open spec fn is_triple(
    mtime: int,
    mtime_nsec: int,
    size: u64,
    mode: u32,
    ino: u64,
    r: Stat,
) -> bool {
    &&& r.mtime_ns == mtime * 1_000_000_000 + mtime_nsec
    &&& r.size == size ^ ((mode as u64 & 0o111) << 40)
    &&& r.ino == ino
}

/// Files with one state were written at one time, to the nanosecond, have one
/// inode, and, as long as they are smaller than a tebibyte, one size and one
/// set of executable bits.
pub proof fn state_tells_all(
    mtime: int,
    nsec: int,
    size: u64,
    mode: u32,
    ino: u64,
    other_mtime: int,
    other_nsec: int,
    other_size: u64,
    other_mode: u32,
    other_ino: u64,
    r: Stat,
)
    requires
        0 <= nsec < 1_000_000_000,
        0 <= other_nsec < 1_000_000_000,
        size < 0x100_0000_0000,
        other_size < 0x100_0000_0000,
        is_triple(mtime, nsec, size, mode, ino, r),
        is_triple(other_mtime, other_nsec, other_size, other_mode, other_ino, r),
    ensures
        mtime == other_mtime,
        nsec == other_nsec,
        size == other_size,
        mode & 0o111 == other_mode & 0o111,
        ino == other_ino,
{
    assert(size == other_size && mode & 0o111 == other_mode & 0o111) by (bit_vector)
        requires
            size < 0x100_0000_0000,
            other_size < 0x100_0000_0000,
            size ^ ((mode as u64 & 0o111) << 40) == other_size ^ ((other_mode as u64 & 0o111)
                << 40),
    ;
}

/// A file that becomes executable, or ceases to be, changes its state.
pub proof fn mode_is_part_of_state(size: u64, a: u32, b: u32)
    requires
        a & 0o111 != b & 0o111,
    ensures
        size ^ ((a as u64 & 0o111) << 40) != size ^ ((b as u64 & 0o111) << 40),
{
    assert(size ^ ((a as u64 & 0o111) << 40) != size ^ ((b as u64 & 0o111) << 40)) by (bit_vector)
        requires
            a & 0o111 != b & 0o111,
    ;
}

/// What is hashed of a file: whether it is executable, then its content. A
/// file that is executable differs from one that is not.
pub open spec fn hashed_bytes(executable: bool, content: Seq<u8>) -> Seq<u8> {
    seq![if executable {
        0x78u8
    } else {
        0x2du8
    }] + content
}

/// The digest of a file.
pub fn hash_file(executable: bool, content: &[u8]) -> (r: String)
    ensures
        r@ == hex_text(blake3_of(hashed_bytes(executable, content@))),
        r@.len() == 64,
{
    let mut bytes: Vec<u8> = Vec::new();
    if executable {
        bytes.push(0x78);
    } else {
        bytes.push(0x2d);
    }
    push_bytes(&mut bytes, content);
    assert(bytes@ =~= hashed_bytes(executable, content@));
    blake3_hex(bytes.as_slice())
}

/// What is hashed tells mode and content.
pub proof fn hashed_bytes_tell_all(a: bool, x: Seq<u8>, b: bool, y: Seq<u8>)
    requires
        hashed_bytes(a, x) == hashed_bytes(b, y),
    ensures
        a == b,
        x == y,
{
    let mark = |e: bool|
        if e {
            0x78u8
        } else {
            0x2du8
        };
    assert(hashed_bytes(a, x)[0] == mark(a));
    assert(hashed_bytes(b, y)[0] == mark(b));
    assert(x =~= hashed_bytes(a, x).skip(1));
    assert(y =~= hashed_bytes(b, y).skip(1));
}

/// Where a path leads from a workspace.
pub fn resolve(workspace_root: &str, rel: &str) -> (r: String)
    ensures
        r@ == if absolute(rel@) {
            rel@
        } else {
            joined_path(workspace_root@, rel@)
        },
{
    if is_absolute(rel) {
        copy(rel)
    } else {
        join_path(workspace_root, rel)
    }
}

// ---------------------------------------------------------------------------
// What a look at a file rests on
// ---------------------------------------------------------------------------

/// A digest that was not established in this build is taken over exactly where
/// the time, the size and the inode are those that were recorded with it: by
/// this build, or else in the file of the cache. In any other state the file is
/// hashed.
pub proof fn state_decides(c: CacheText, rel: Seq<char>, now: Stat)
    requires
        !c.settled.dom().contains(rel),
    ensures
        c.changed && c.updates.dom().contains(rel) ==> check_result(c, rel, Some(now)).1 == (
        if c.updates[rel].hash.len() > 0 && c.updates[rel].stat.mtime_ns == now.mtime_ns
            && c.updates[rel].stat.size == now.size && c.updates[rel].stat.ino == now.ino {
            Some(c.updates[rel].hash)
        } else {
            None
        }),
        !(c.changed && c.updates.dom().contains(rel)) && c.snapshot.dom().contains(rel)
            ==> check_result(c, rel, Some(now)).1 == (if c.snapshot[rel].hash.len() > 0
            && c.snapshot[rel].stat.mtime_ns == now.mtime_ns && c.snapshot[rel].stat.size
            == now.size && c.snapshot[rel].stat.ino == now.ino {
            Some(c.snapshot[rel].hash)
        } else {
            None
        }),
        !(c.changed && c.updates.dom().contains(rel)) && !c.snapshot.dom().contains(rel)
            ==> check_result(c, rel, Some(now)).1 is None,
{
}

/// A path where nothing is has its own digest, which no file has, and is hashed
/// once there is a file again.
pub proof fn missing_is_noticed(c: CacheText, rel: Seq<char>, now: Stat)
    requires
        !c.settled.dom().contains(rel),
    ensures
        check_result(c, rel, None).1 == Some("MISSING"@),
        check_result(check_result(c, rel, None).0, rel, Some(now)).1 is None,
        check_result(check_result(c, rel, None).0, rel, None).1 == Some("MISSING"@),
        "MISSING"@.len() != 64,
{
    reveal_strlit("MISSING");
    assert("MISSING"@.len() == 7);
}

/// What is kept of a build: the digest of every file that was hashed, nothing
/// of a file that was written and not hashed since, and what was known of all
/// others.
pub proof fn kept_for_the_next_build(
    c: CacheText,
    rel: Seq<char>,
    stat: Stat,
    hash: Seq<char>,
    other: Seq<char>,
)
    requires
        rel != other,
    ensures
        hash.len() > 0 ==> c.hashed(rel, stat, hash).merged().dom().contains(rel) && c.hashed(
            rel,
            stat,
            hash,
        ).merged()[rel].hash == hash && c.hashed(rel, stat, hash).merged()[rel].stat == stat,
        !c.forgotten(rel).merged().dom().contains(rel),
        c.hashed(rel, stat, hash).merged().dom().contains(other) == c.merged().dom().contains(
            other,
        ),
        c.forgotten(rel).merged().dom().contains(other) == c.merged().dom().contains(other),
        c.merged().dom().contains(other) ==> c.hashed(rel, stat, hash).merged()[other]
            == c.merged()[other] && c.forgotten(rel).merged()[other] == c.merged()[other],
        c.updates.dom().contains(other) ==> (c.merged().dom().contains(other) <==> c.updates[
        other].hash.len() > 0),
        !c.updates.dom().contains(other) ==> c.merged().dom().contains(other)
            == c.snapshot.dom().contains(other),
{
}

/// The next build, which reads what is kept, takes the digest of a file over
/// exactly where its time, size and inode are as they were when it was hashed.
pub proof fn next_build_takes_over(
    c: CacheText,
    rel: Seq<char>,
    stat: Stat,
    hash: Seq<char>,
    now: Stat,
)
    requires
        hash.len() > 0,
    ensures
        ({
            let next = CacheText {
                snapshot: c.hashed(rel, stat, hash).merged(),
                updates: Map::empty(),
                changed: false,
                settled: Map::empty(),
            };
            check_result(next, rel, Some(now)).1 == (if now.mtime_ns == stat.mtime_ns && now.size
                == stat.size && now.ino == stat.ino {
                Some(hash)
            } else {
                None
            })
        }),
        ({
            let next = CacheText {
                snapshot: c.forgotten(rel).merged(),
                updates: Map::empty(),
                changed: false,
                settled: Map::empty(),
            };
            check_result(next, rel, Some(now)).1 is None
        }),
{
}

/// A look at several paths shows of each what a look at it alone shows.
pub proof fn many_are_each(
    c: CacheText,
    paths: Seq<Seq<char>>,
    stats: Seq<Option<Stat>>,
    n: nat,
    rel: Seq<char>,
    stat: Option<Stat>,
)
    requires
        n <= paths.len(),
        paths.len() == stats.len(),
        c.changed || c.updates == Map::<Seq<char>, EntryText>::empty(),
        !paths.take(n as int).contains(rel),
    ensures
        check_result(checked_upto(c, paths, stats, n), rel, stat).1 == check_result(c, rel, stat).1,
        checked_upto(c, paths, stats, n).lookup(rel) == c.lookup(rel),
        checked_upto(c, paths, stats, n).settled.dom().contains(rel) == c.settled.dom().contains(
            rel,
        ),
        c.settled.dom().contains(rel) ==> checked_upto(c, paths, stats, n).settled[rel]
            == c.settled[rel],
        checked_upto(c, paths, stats, n).changed || checked_upto(c, paths, stats, n).updates
            == Map::<Seq<char>, EntryText>::empty(),
    decreases n,
{
    if n > 0 {
        let m = (n - 1) as nat;
        assert(!paths.take(m as int).contains(rel)) by {
            if paths.take(m as int).contains(rel) {
                let k = paths.take(m as int).index_of(rel);
                assert(paths.take(n as int)[k] == rel);
            }
        }
        assert(paths[n - 1] != rel) by {
            assert(paths.take(n as int)[n - 1] == paths[n - 1]);
        }
        many_are_each(c, paths, stats, m, rel, stat);
    }
}

} // verus!
