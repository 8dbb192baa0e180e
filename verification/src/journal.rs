//! The journal of what was built.

use vstd::prelude::*;
use vstd::string::*;

use crate::action_key::text_map;
use crate::bytes::{
    bytes_between, from_le32, le32, le32_read_back, push_bytes, push_le32, read_le32, stands_at,
};
use crate::sorted_map::SortedMap;
use crate::text::{copies, copy, texts};

verus! {

/// The path of the journal in a workspace.
pub const JOURNAL_REL_PATH: &'static str = ".frost/journal.bin";

/// The path of the journal in a workspace of an earlier version.
pub const LEGACY_JOURNAL_REL_PATH: &'static str = ".frost/journal.json";

/// The result of one run of an action. An action whose key is that of its
/// entry, and whose outputs are as recorded, need not run again.
#[derive(Debug)]
pub struct JournalEntry {
    /// The digest of the action's key, with the inputs that were discovered.
    pub key: String,
    /// The digest of every input that is in the key.
    pub inputs: SortedMap<String>,
    /// The inputs that were discovered.
    pub discovered: Vec<String>,
    /// The digest of every output after the run.
    pub outputs: SortedMap<String>,
    pub duration_ms: u64,
    pub reason: String,
}

/// What an entry says.
#[verifier::ext_equal]
pub struct EntryText {
    pub key: Seq<char>,
    pub inputs: Map<Seq<char>, Seq<char>>,
    pub discovered: Seq<Seq<char>>,
    pub outputs: Map<Seq<char>, Seq<char>>,
    pub duration_ms: u64,
    pub reason: Seq<char>,
}

impl View for JournalEntry {
    type V = EntryText;

    open spec fn view(&self) -> EntryText {
        EntryText {
            key: self.key@,
            inputs: text_map(self.inputs),
            discovered: texts(self.discovered@),
            outputs: text_map(self.outputs),
            duration_ms: self.duration_ms,
            reason: self.reason@,
        }
    }
}

impl JournalEntry {
    /// Inputs and outputs are in order.
    pub open spec fn wf(self) -> bool {
        self.inputs.wf() && self.outputs.wf()
    }
}

/// The entries by the names of their actions.
#[derive(Debug)]
pub struct Journal {
    pub actions: SortedMap<JournalEntry>,
}

/// What entries say, by the names of their actions.
pub open spec fn entry_map(m: SortedMap<JournalEntry>) -> Map<Seq<char>, EntryText> {
    Map::new(|k: Seq<char>| m.has(k), |k: Seq<char>| m.at(k)@)
}

/// A record of the journal as it is encoded: the name of the action, then the
/// key, the inputs, the discovered inputs, the outputs, the duration and the
/// reason of its entry.
pub type Wire = (
    String,
    (String, Vec<(String, String)>, Vec<String>, Vec<(String, String)>, u64, String),
);

/// What a record says.
#[verifier::ext_equal]
pub struct RecordText {
    pub id: Seq<char>,
    pub key: Seq<char>,
    pub inputs: Seq<(Seq<char>, Seq<char>)>,
    pub discovered: Seq<Seq<char>>,
    pub outputs: Seq<(Seq<char>, Seq<char>)>,
    pub duration_ms: u64,
    pub reason: Seq<char>,
}

/// Pairs of texts.
pub open spec fn pair_texts(v: Seq<(String, String)>) -> Seq<(Seq<char>, Seq<char>)> {
    Seq::new(v.len(), |i: int| (v[i].0@, v[i].1@))
}

/// What an encoded record says.
pub open spec fn wire_text(w: Wire) -> RecordText {
    RecordText {
        id: w.0@,
        key: w.1.0@,
        inputs: pair_texts(w.1.1@),
        discovered: texts(w.1.2@),
        outputs: pair_texts(w.1.3@),
        duration_ms: w.1.4,
        reason: w.1.5@,
    }
}

/// The record that bytes hold.
pub uninterp spec fn record_of(bytes: Seq<u8>) -> Option<RecordText>;

/// The bytes of a record.
pub uninterp spec fn record_code(record: RecordText) -> Option<Seq<u8>>;

/// `postcard::from_bytes`: the record at the beginning of the bytes, or none
/// where they hold no record. The bytes alone decide.
#[verifier::external_body]
fn decode_record(bytes: &[u8]) -> (r: Option<Wire>)
    ensures
        match r {
            Some(w) => record_of(bytes@) == Some(wire_text(w)),
            None => record_of(bytes@) == None::<RecordText>,
        },
{
    postcard::from_bytes(bytes).ok()
}

/// `postcard::to_allocvec`: bytes that the record alone decides, and from which
/// it is read back.
#[verifier::external_body]
fn encode_record(record: &Wire) -> (r: Option<Vec<u8>>)
    ensures
        match r {
            Some(bytes) => record_code(wire_text(*record)) == Some(bytes@) && record_of(bytes@)
                == Some(wire_text(*record)),
            None => record_code(wire_text(*record)) == None::<Seq<u8>>,
        },
{
    postcard::to_allocvec(record).ok()
}

// ---------------------------------------------------------------------------
// Records and entries
// ---------------------------------------------------------------------------

/// A map from pairs: a later pair overrides an earlier one.
pub open spec fn pairs_map(pairs: Seq<(Seq<char>, Seq<char>)>) -> Map<Seq<char>, Seq<char>>
    decreases pairs.len(),
{
    if pairs.len() == 0 {
        Map::empty()
    } else {
        pairs_map(pairs.drop_last()).insert(pairs.last().0, pairs.last().1)
    }
}

/// The entry in a record.
pub open spec fn entry_in(r: RecordText) -> EntryText {
    EntryText {
        key: r.key,
        inputs: pairs_map(r.inputs),
        discovered: r.discovered,
        outputs: pairs_map(r.outputs),
        duration_ms: r.duration_ms,
        reason: r.reason,
    }
}

/// Entries from records: a later record overrides an earlier one.
pub open spec fn settled(records: Seq<RecordText>) -> Map<Seq<char>, EntryText>
    decreases records.len(),
{
    if records.len() == 0 {
        Map::empty()
    } else {
        settled(records.drop_last()).insert(records.last().id, entry_in(records.last()))
    }
}

/// The pairs of a map, in order.
pub open spec fn map_pairs(m: SortedMap<String>) -> Seq<(Seq<char>, Seq<char>)> {
    Seq::new(m.keys@.len(), |i: int| (m.keys@[i]@, m.values@[i]@))
}

/// The record of an entry.
pub open spec fn record_for(id: Seq<char>, entry: JournalEntry) -> RecordText {
    RecordText {
        id,
        key: entry.key@,
        inputs: map_pairs(entry.inputs),
        discovered: texts(entry.discovered@),
        outputs: map_pairs(entry.outputs),
        duration_ms: entry.duration_ms,
        reason: entry.reason@,
    }
}

/// The pairs of the first `n` keys make the part of the map with these keys.
proof fn pairs_of_map(m: SortedMap<String>, n: int)
    requires
        m.wf(),
        0 <= n <= m.keys@.len(),
    ensures
        forall|k: Seq<char>| #[trigger]
            pairs_map(map_pairs(m).take(n)).dom().contains(k) <==> m.names().take(n).contains(k),
        forall|i: int|
            0 <= i < n ==> pairs_map(map_pairs(m).take(n))[#[trigger] m.names()[i]]
                == m.values@[i]@,
    decreases n,
{
    let names = m.names();
    if n > 0 {
        pairs_of_map(m, n - 1);
        let all = map_pairs(m).take(n);
        assert(all.drop_last() =~= map_pairs(m).take(n - 1));
        assert(all.last() == (names[n - 1], m.values@[n - 1]@));
        assert(names.take(n) =~= names.take(n - 1).push(names[n - 1]));
        assert forall|k: Seq<char>| names.take(n).contains(k) <==> names.take(n - 1).contains(k)
            || k == names[n - 1] by {
            if names.take(n - 1).contains(k) {
                let i = names.take(n - 1).index_of(k);
                assert(names.take(n)[i] == k);
            }
            if k == names[n - 1] {
                assert(names.take(n)[n - 1] == k);
            }
        }
        let before = pairs_map(map_pairs(m).take(n - 1));
        assert(pairs_map(all) == before.insert(names[n - 1], m.values@[n - 1]@));
        assert forall|k: Seq<char>| #[trigger]
            pairs_map(map_pairs(m).take(n)).dom().contains(k) <==> m.names().take(n).contains(k) by {
            assert(pairs_map(all).dom().contains(k) <==> before.dom().contains(k) || k == names[n
                - 1]);
        }
        assert forall|i: int| 0 <= i < n implies pairs_map(all)[#[trigger] names[i]]
            == m.values@[i]@ by {
            if i < n - 1 {
                crate::sorted_map::ascending_distinct(names);
                assert(names[i] != names[n - 1]);
            }
        }
    }
}

/// The pairs of a map make the map.
pub proof fn map_read_back(m: SortedMap<String>)
    requires
        m.wf(),
    ensures
        pairs_map(map_pairs(m)) == text_map(m),
{
    let n = m.keys@.len() as int;
    pairs_of_map(m, n);
    assert(map_pairs(m).take(n) =~= map_pairs(m));
    assert(m.names().take(n) =~= m.names());
    assert forall|k: Seq<char>| m.has(k) implies pairs_map(map_pairs(m))[k] == text_map(m)[k] by {
        let i = m.spot(k);
        assert(m.names()[i] == k);
    }
    assert(pairs_map(map_pairs(m)) =~= text_map(m));
}

/// A map from pairs.
fn map_of(pairs: Vec<(String, String)>) -> (r: SortedMap<String>)
    ensures
        r.wf(),
        text_map(r) == pairs_map(pair_texts(pairs@)),
{
    let ghost all = pair_texts(pairs@);
    let mut out: SortedMap<String> = SortedMap::new();
    let mut i: usize = 0;
    assert(all.take(0) =~= Seq::empty());
    assert(text_map(out) =~= Map::<Seq<char>, Seq<char>>::empty());
    while i < pairs.len()
        invariant
            all == pair_texts(pairs@),
            i <= pairs@.len(),
            out.wf(),
            text_map(out) == pairs_map(all.take(i as int)),
        decreases pairs@.len() - i,
    {
        let ghost was = text_map(out);
        let _ = out.insert(copy(&pairs[i].0), copy(&pairs[i].1));
        proof {
            assert(all.take(i + 1).drop_last() =~= all.take(i as int));
            assert(text_map(out) =~= was.insert(all[i as int].0, all[i as int].1));
        }
        i += 1;
    }
    assert(all.take(i as int) =~= all);
    out
}

/// The pairs of a map, in order.
fn pairs_of(m: &SortedMap<String>) -> (r: Vec<(String, String)>)
    requires
        m.wf(),
    ensures
        pair_texts(r@) == map_pairs(*m),
{
    let ghost all = map_pairs(*m);
    let mut out: Vec<(String, String)> = Vec::new();
    let mut i: usize = 0;
    while i < m.keys.len()
        invariant
            m.wf(),
            all == map_pairs(*m),
            i <= m.keys@.len(),
            pair_texts(out@) =~= all.take(i as int),
        decreases m.keys@.len() - i,
    {
        out.push((copy(&m.keys[i]), copy(&m.values[i])));
        assert(all.take(i + 1) =~= all.take(i as int).push(all[i as int]));
        i += 1;
    }
    assert(all.take(i as int) =~= all);
    out
}

/// An entry as a record.
fn to_wire(id: &str, entry: &JournalEntry) -> (r: Wire)
    requires
        entry.wf(),
    ensures
        wire_text(r) == record_for(id@, *entry),
{
    (
        copy(id),
        (
            copy(&entry.key),
            pairs_of(&entry.inputs),
            copies(&entry.discovered),
            pairs_of(&entry.outputs),
            entry.duration_ms,
            copy(&entry.reason),
        ),
    )
}

// ---------------------------------------------------------------------------
// The file
// ---------------------------------------------------------------------------

/// The bytes at the beginning of a journal.
pub open spec fn magic() -> Seq<u8> {
    seq![0x46u8, 0x52, 0x53, 0x54, 0x4a, 0x52, 0x30, 0x31]
}

/// A record in the file: its length in four bytes, then its bytes.
pub open spec fn frame(payload: Seq<u8>) -> Seq<u8> {
    le32(payload.len() as int) + payload
}

/// Bytes that hold no whole record.
pub open spec fn torn(bytes: Seq<u8>) -> bool {
    bytes.len() < 4 || bytes.len() < 4 + from_le32(bytes)
}

/// The records at the beginning of bytes, up to the first that is not whole or
/// not valid.
pub open spec fn records_in(bytes: Seq<u8>) -> Seq<RecordText>
    decreases bytes.len(),
{
    if torn(bytes) {
        Seq::empty()
    } else {
        let end = 4 + from_le32(bytes);
        match record_of(bytes.subrange(4, end)) {
            None => Seq::empty(),
            Some(record) => seq![record] + records_in(bytes.skip(end)),
        }
    }
}

/// How many of the bytes at the beginning hold records that are whole and
/// valid.
pub open spec fn whole_in(bytes: Seq<u8>) -> nat
    decreases bytes.len(),
{
    if torn(bytes) {
        0
    } else {
        let end = 4 + from_le32(bytes);
        match record_of(bytes.subrange(4, end)) {
            None => 0,
            Some(record) => (end + whole_in(bytes.skip(end))) as nat,
        }
    }
}

/// How many bytes of a journal hold its records, with its beginning; none where
/// it does not begin as a journal does.
pub open spec fn whole_prefix(bytes: Seq<u8>) -> nat {
    if bytes.len() >= 8 && bytes.take(8) == magic() {
        8 + whole_in(bytes.skip(8))
    } else {
        0
    }
}

/// The records of a journal; none where it does not begin as a journal does.
pub open spec fn journal_records(bytes: Seq<u8>) -> Seq<RecordText> {
    if bytes.len() >= 8 && bytes.take(8) == magic() {
        records_in(bytes.skip(8))
    } else {
        Seq::empty()
    }
}

/// Frames one after the other.
pub open spec fn frames(payloads: Seq<Seq<u8>>) -> Seq<u8>
    decreases payloads.len(),
{
    if payloads.len() == 0 {
        Seq::empty()
    } else {
        frame(payloads[0]) + frames(payloads.skip(1))
    }
}

/// Records that are written one after the other are read back, also where the
/// file ends in a record that is not whole.
pub proof fn torn_tail_is_ignored(
    payloads: Seq<Seq<u8>>,
    records: Seq<RecordText>,
    tail: Seq<u8>,
)
    requires
        payloads.len() == records.len(),
        forall|i: int|
            0 <= i < payloads.len() ==> record_of(#[trigger] payloads[i]) == Some(records[i])
                && payloads[i].len() < 0x1_0000_0000,
        torn(tail),
    ensures
        records_in(frames(payloads) + tail) == records,
    decreases payloads.len(),
{
    if payloads.len() == 0 {
        assert(frames(payloads) + tail =~= tail);
        assert(records =~= Seq::empty());
    } else {
        let first = payloads[0];
        let n = first.len() as int;
        let rest = frames(payloads.skip(1)) + tail;
        let whole = frames(payloads) + tail;
        assert(whole =~= le32(n) + first + rest);
        le32_read_back(n);
        assert(from_le32(whole) == n);
        assert(whole.subrange(4, 4 + n) =~= first);
        assert(whole.skip(4 + n) =~= rest);
        assert forall|i: int| 0 <= i < payloads.skip(1).len() implies record_of(
            #[trigger] payloads.skip(1)[i],
        ) == Some(records.skip(1)[i]) && payloads.skip(1)[i].len() < 0x1_0000_0000 by {
            assert(payloads.skip(1)[i] == payloads[i + 1]);
        }
        torn_tail_is_ignored(payloads.skip(1), records.skip(1), tail);
        assert(seq![records[0]] + records.skip(1) =~= records);
    }
}

/// Whatever is cut off at the end of a journal, what is left holds the first
/// of its records and no others.
pub proof fn cut_keeps_first_records(bytes: Seq<u8>, n: int)
    requires
        0 <= n <= bytes.len(),
    ensures
        records_in(bytes.take(n)).len() <= records_in(bytes).len(),
        records_in(bytes.take(n)) == records_in(bytes).take(
            records_in(bytes.take(n)).len() as int,
        ),
    decreases bytes.len(),
{
    let cut = bytes.take(n);
    if torn(cut) {
        assert(records_in(cut) =~= records_in(bytes).take(0));
    } else {
        let end = 4 + from_le32(cut);
        assert(from_le32(cut) == from_le32(bytes));
        assert(cut.subrange(4, end) =~= bytes.subrange(4, end));
        match record_of(bytes.subrange(4, end)) {
            None => {
                assert(records_in(cut) =~= records_in(bytes).take(0));
            },
            Some(record) => {
                assert(cut.skip(end) =~= bytes.skip(end).take(n - end));
                cut_keeps_first_records(bytes.skip(end), n - end);
                let a = records_in(cut.skip(end));
                let b = records_in(bytes.skip(end));
                assert(seq![record] + a =~= (seq![record] + b).take(a.len() as int + 1));
            },
        }
    }
}

proof fn whole_fits(bytes: Seq<u8>)
    ensures
        whole_in(bytes) <= bytes.len(),
    decreases bytes.len(),
{
    if !torn(bytes) {
        whole_fits(bytes.skip(4 + from_le32(bytes)));
    }
}

/// What stands behind whole records is read behind them.
proof fn read_behind_whole(bytes: Seq<u8>, more: Seq<u8>)
    ensures
        whole_in(bytes) <= bytes.len(),
        records_in(bytes.take(whole_in(bytes) as int) + more) == records_in(bytes) + records_in(
            more,
        ),
    decreases bytes.len(),
{
    whole_fits(bytes);
    let n = whole_in(bytes) as int;
    let now = bytes.take(n) + more;
    if torn(bytes) || record_of(bytes.subrange(4, 4 + from_le32(bytes))) is None {
        assert(now =~= more);
        assert(records_in(bytes) + records_in(more) =~= records_in(more));
    } else {
        let end = 4 + from_le32(bytes);
        let rest = bytes.skip(end);
        read_behind_whole(rest, more);
        assert(n == end + whole_in(rest));
        assert(now.take(4) =~= bytes.take(4));
        assert(from_le32(now) == from_le32(bytes));
        assert(now.subrange(4, end) =~= bytes.subrange(4, end));
        assert(now.skip(end) =~= rest.take(whole_in(rest) as int) + more);
        let record = record_of(bytes.subrange(4, end))->0;
        assert(seq![record] + (records_in(rest) + records_in(more)) =~= (seq![record]
            + records_in(rest)) + records_in(more));
    }
}

/// What a journal is after a record was appended: what is not whole at its end
/// is cut off first.
pub open spec fn appended(file: Seq<u8>, code: Seq<u8>) -> Seq<u8> {
    let kept = file.take(whole_prefix(file) as int);
    if kept.len() == 0 {
        magic() + frame(code)
    } else {
        kept + frame(code)
    }
}

/// A record that was appended is found again, and all that was found before it
/// still is, whatever state the file was in: also where its last record was not
/// whole.
pub proof fn appended_is_found(file: Seq<u8>, id: Seq<char>, entry: JournalEntry, code: Seq<u8>)
    requires
        entry.wf(),
        code.len() < 0x1_0000_0000,
        record_of(code) == Some(record_for(id, entry)),
    ensures
        journal_records(appended(file, code)) == journal_records(file).push(record_for(id, entry)),
        settled(journal_records(appended(file, code))) == settled(journal_records(file)).insert(
            id,
            entry@,
        ),
{
    let record = record_for(id, entry);
    let one = frame(code);
    let none = Seq::<u8>::empty();
    assert(frames(seq![code]) =~= one) by {
        assert(seq![code].skip(1) =~= Seq::<Seq<u8>>::empty());
        assert(frames(seq![code].skip(1)) =~= none);
    }
    torn_tail_is_ignored(seq![code], seq![record], none);
    assert(one + none =~= one);
    let now = appended(file, code);
    let before = journal_records(file);
    if file.len() >= 8 && file.take(8) == magic() {
        let body = file.skip(8);
        read_behind_whole(body, one);
        let n = whole_in(body) as int;
        assert(file.take(8 + n).len() == 8 + n);
        assert(now.take(8) =~= magic()) by {
            assert(now.take(8) =~= file.take(8));
        }
        assert(now.skip(8) =~= body.take(n) + one);
        assert(before + seq![record] =~= before.push(record));
    } else {
        assert(file.take(0).len() == 0);
        assert(now.take(8) =~= magic());
        assert(now.skip(8) =~= one);
        assert(before =~= Seq::empty());
        assert(before.push(record) =~= seq![record]);
    }
    entry_read_back(id, entry);
    assert(before.push(record).drop_last() =~= before);
}

/// The entries of a journal file. Of invalid or torn bytes it gives the
/// entries of the valid records before them.
pub fn decode_bytes(bytes: &[u8]) -> (r: SortedMap<JournalEntry>)
    ensures
        r.wf(),
        entry_map(r) == settled(journal_records(bytes@)),
        forall|i: int| 0 <= i < r.values@.len() ==> (#[trigger] r.values@[i]).wf(),
{
    let mut actions: SortedMap<JournalEntry> = SortedMap::new();
    assert(entry_map(actions) =~= Map::<Seq<char>, EntryText>::empty());
    let start: [u8; 8] = [0x46, 0x52, 0x53, 0x54, 0x4a, 0x52, 0x30, 0x31];
    proof {
        assert(start@ =~= magic());
        if bytes@.len() >= 8 {
            assert(bytes@.subrange(0, 8) =~= bytes@.take(8));
        }
    }
    if !stands_at(bytes, 0, &start) {
        assert(settled(journal_records(bytes@)) =~= Map::<Seq<char>, EntryText>::empty());
        return actions;
    }
    let ghost all = journal_records(bytes@);
    let ghost mut done: Seq<RecordText> = Seq::empty();
    let mut cursor: usize = 8;
    assert(done + records_in(bytes@.skip(8)) =~= all);
    while bytes.len() - cursor >= 4
        invariant_except_break
            done + records_in(bytes@.skip(cursor as int)) == all,
        invariant
            8 <= cursor <= bytes@.len(),
            bytes@.len() == bytes.len(),
            actions.wf(),
            entry_map(actions) == settled(done),
            forall|i: int| 0 <= i < actions.values@.len() ==> (#[trigger] actions.values@[i]).wf(),
        ensures
            done == all,
        decreases bytes@.len() - cursor,
    {
        let n: usize = read_le32(bytes, cursor) as usize;
        let ghost here = bytes@.skip(cursor as int);
        if n > bytes.len() - cursor - 4 {
            assert(torn(here));
            assert(done + records_in(here) =~= done);
            break;
        }
        let payload = bytes_between(bytes, cursor + 4, cursor + 4 + n);
        assert(payload@ =~= here.subrange(4, 4 + n));
        match decode_record(payload.as_slice()) {
            None => {
                assert(done + records_in(here) =~= done);
                break;
            },
            Some(wire) => {
                let ghost record = wire_text(wire);
                let (id, (key, inputs, discovered, outputs, duration_ms, reason)) = wire;
                let entry = JournalEntry {
                    key,
                    inputs: map_of(inputs),
                    discovered,
                    outputs: map_of(outputs),
                    duration_ms,
                    reason,
                };
                let ghost was = actions;
                let ghost given = entry;
                assert(entry@ == entry_in(record));
                let _ = actions.insert(id, entry);
                proof {
                    crate::sorted_map::rank_means(was.names(), record.id);
                    assert forall|i: int| 0 <= i < actions.values@.len() implies (
                    #[trigger] actions.values@[i]).wf() by {
                        let at = crate::sorted_map::rank(was.names(), record.id);
                        if !was.has(record.id) && i > at {
                            assert(actions.values@[i] == was.values@[i - 1]);
                        } else if !was.has(record.id) && i < at {
                            assert(actions.values@[i] == was.values@[i]);
                        }
                    }
                    assert(entry_map(actions) =~= entry_map(was).insert(record.id, given@));
                    assert(done.push(record).drop_last() =~= done);
                    assert(here.skip(4 + n) =~= bytes@.skip(cursor + 4 + n));
                    assert(done.push(record) + records_in(bytes@.skip(cursor + 4 + n)) =~= done
                        + records_in(here));
                    done = done.push(record);
                }
                cursor = cursor + 4 + n;
            },
        }
    }
    actions
}

/// The records of all entries, in the order of the actions.
pub open spec fn all_records(m: SortedMap<JournalEntry>) -> Seq<RecordText> {
    Seq::new(m.keys@.len(), |i: int| record_for(m.keys@[i]@, m.values@[i]))
}

/// The bytes of the records of all entries.
pub open spec fn all_codes(m: SortedMap<JournalEntry>) -> Seq<Seq<u8>> {
    Seq::new(m.keys@.len(), |i: int| record_code(record_for(m.keys@[i]@, m.values@[i]))->0)
}

/// The entry of a record that was made of an entry.
proof fn entry_read_back(id: Seq<char>, entry: JournalEntry)
    requires
        entry.wf(),
    ensures
        entry_in(record_for(id, entry)) == entry@,
{
    map_read_back(entry.inputs);
    map_read_back(entry.outputs);
}

/// The records of the first `n` entries make these entries.
proof fn settled_upto(m: SortedMap<JournalEntry>, n: int)
    requires
        m.wf(),
        forall|i: int| 0 <= i < m.values@.len() ==> (#[trigger] m.values@[i]).wf(),
        0 <= n <= m.keys@.len(),
    ensures
        forall|k: Seq<char>| #[trigger]
            settled(all_records(m).take(n)).dom().contains(k) <==> m.names().take(n).contains(k),
        forall|i: int|
            0 <= i < n ==> settled(all_records(m).take(n))[#[trigger] m.names()[i]]
                == m.values@[i]@,
    decreases n,
{
    let names = m.names();
    if n > 0 {
        settled_upto(m, n - 1);
        entry_read_back(names[n - 1], m.values@[n - 1]);
        let all = all_records(m).take(n);
        assert(all.drop_last() =~= all_records(m).take(n - 1));
        assert(all.last() == record_for(names[n - 1], m.values@[n - 1]));
        let before = settled(all_records(m).take(n - 1));
        assert(settled(all) == before.insert(names[n - 1], m.values@[n - 1]@));
        assert forall|k: Seq<char>| #[trigger]
            settled(all_records(m).take(n)).dom().contains(k) <==> m.names().take(n).contains(k) by {
            assert(settled(all).dom().contains(k) <==> before.dom().contains(k) || k == names[n
                - 1]);
            if names.take(n - 1).contains(k) {
                let i = names.take(n - 1).index_of(k);
                assert(names.take(n)[i] == k);
            }
            if k == names[n - 1] {
                assert(names.take(n)[n - 1] == k);
            }
            if names.take(n).contains(k) && k != names[n - 1] {
                let i = names.take(n).index_of(k);
                assert(names.take(n - 1)[i] == k);
            }
        }
        assert forall|i: int| 0 <= i < n implies settled(all)[#[trigger] names[i]]
            == m.values@[i]@ by {
            if i < n - 1 {
                crate::sorted_map::ascending_distinct(names);
                assert(names[i] != names[n - 1]);
            }
        }
    }
}

/// The records of all entries make the entries.
pub proof fn entries_read_back(m: SortedMap<JournalEntry>)
    requires
        m.wf(),
        forall|i: int| 0 <= i < m.values@.len() ==> (#[trigger] m.values@[i]).wf(),
    ensures
        settled(all_records(m)) == entry_map(m),
{
    let n = m.keys@.len() as int;
    settled_upto(m, n);
    assert(all_records(m).take(n) =~= all_records(m));
    assert(m.names().take(n) =~= m.names());
    assert forall|k: Seq<char>| m.has(k) implies settled(all_records(m))[k] == entry_map(m)[k] by {
        let i = m.spot(k);
        assert(m.names()[i] == k);
    }
    assert(settled(all_records(m)) =~= entry_map(m));
}

proof fn frames_push(payloads: Seq<Seq<u8>>, payload: Seq<u8>)
    ensures
        frames(payloads.push(payload)) == frames(payloads) + frame(payload),
    decreases payloads.len(),
{
    let all = payloads.push(payload);
    if payloads.len() == 0 {
        assert(all.skip(1) =~= Seq::<Seq<u8>>::empty());
        assert(frames(all.skip(1)) =~= Seq::<u8>::empty());
        assert(frames(all) =~= frame(payload));
        assert(frames(payloads) + frame(payload) =~= frame(payload));
    } else {
        frames_push(payloads.skip(1), payload);
        assert(all.skip(1) =~= payloads.skip(1).push(payload));
        assert(frame(payloads[0]) + (frames(payloads.skip(1)) + frame(payload)) =~= frame(
            payloads[0],
        ) + frames(payloads.skip(1)) + frame(payload));
    }
}

/// Appends a frame.
fn push_frame(out: &mut Vec<u8>, payload: &[u8])
    ensures
        final(out)@ == old(out)@ + frame(payload@),
{
    push_le32(out, payload.len());
    push_bytes(out, payload);
    assert(out@ =~= old(out)@ + frame(payload@));
}

/// The bytes at the beginning of a journal.
fn magic_bytes() -> (r: Vec<u8>)
    ensures
        r@ == magic(),
{
    let start: [u8; 8] = [0x46, 0x52, 0x53, 0x54, 0x4a, 0x52, 0x30, 0x31];
    let mut out: Vec<u8> = Vec::new();
    push_bytes(&mut out, &start);
    assert(out@ =~= magic());
    out
}

impl Journal {
    /// Actions and entries are in order.
    pub open spec fn wf(self) -> bool {
        &&& self.actions.wf()
        &&& forall|i: int|
            0 <= i < self.actions.values@.len() ==> (#[trigger] self.actions.values@[i]).wf()
    }

    /// The journal from the contents of its file, which may be empty. Where it
    /// has no entries, those of an earlier version take their place.
    pub fn load(file: &[u8], legacy: Option<Journal>) -> (r: Journal)
        requires
            legacy is Some ==> legacy->0.wf(),
        ensures
            r.wf(),
            entry_map(r.actions) == if journal_records(file@).len() > 0 {
                settled(journal_records(file@))
            } else if legacy is Some {
                entry_map(legacy->0.actions)
            } else {
                Map::empty()
            },
    {
        let actions = decode_bytes(file);
        proof {
            let records = journal_records(file@);
            if records.len() > 0 {
                assert(settled(records).dom().contains(records.last().id));
                assert(actions.has(records.last().id));
                assert(actions.keys@.len() > 0);
            } else if actions.keys@.len() > 0 {
                assert(actions.has(actions.names()[0]));
                assert(entry_map(actions).dom().contains(actions.names()[0]));
            }
        }
        if actions.is_empty() {
            match legacy {
                Some(journal) => journal,
                None => Journal { actions },
            }
        } else {
            Journal { actions }
        }
    }

    /// How many bytes of a file hold its records; behind them a record is not
    /// found. A file is cut there before records are appended.
    pub fn whole_prefix(file: &[u8]) -> (r: usize)
        ensures
            r == whole_prefix(file@),
            r <= file@.len(),
    {
        let start: [u8; 8] = [0x46, 0x52, 0x53, 0x54, 0x4a, 0x52, 0x30, 0x31];
        proof {
            assert(start@ =~= magic());
            if file@.len() >= 8 {
                assert(file@.subrange(0, 8) =~= file@.take(8));
            }
        }
        if !stands_at(file, 0, &start) {
            return 0;
        }
        let mut cursor: usize = 8;
        while file.len() - cursor >= 4
            invariant_except_break
                cursor + whole_in(file@.skip(cursor as int)) == whole_prefix(file@),
            invariant
                8 <= cursor <= file@.len(),
                file@.len() == file.len(),
            ensures
                cursor == whole_prefix(file@),
            decreases file@.len() - cursor,
        {
            let n: usize = read_le32(file, cursor) as usize;
            let ghost here = file@.skip(cursor as int);
            if n > file.len() - cursor - 4 {
                assert(torn(here));
                break;
            }
            let payload = bytes_between(file, cursor + 4, cursor + 4 + n);
            assert(payload@ =~= here.subrange(4, 4 + n));
            match decode_record(payload.as_slice()) {
                None => {
                    break;
                },
                Some(_) => {
                    assert(here.skip(4 + n) =~= file@.skip(cursor + 4 + n));
                    cursor = cursor + 4 + n;
                },
            }
        }
        cursor
    }

    /// What is appended to the file for an action that has run. A file that is
    /// new begins as a journal does. None where the entry cannot be encoded.
    pub fn record_bytes(id: &str, entry: &JournalEntry, new_file: bool) -> (r: Option<Vec<u8>>)
        requires
            entry.wf(),
        ensures
            match r {
                Some(bytes) => {
                    &&& record_code(record_for(id@, *entry)) is Some
                    &&& bytes@ == if new_file {
                        magic() + frame(record_code(record_for(id@, *entry))->0)
                    } else {
                        frame(record_code(record_for(id@, *entry))->0)
                    }
                    &&& record_of(record_code(record_for(id@, *entry))->0) == Some(
                        record_for(id@, *entry),
                    )
                },
                None => record_code(record_for(id@, *entry)) is None,
            },
    {
        match encode_record(&to_wire(id, entry)) {
            None => None,
            Some(payload) => {
                let mut out: Vec<u8> = if new_file {
                    magic_bytes()
                } else {
                    Vec::new()
                };
                push_frame(&mut out, payload.as_slice());
                proof {
                    if !new_file {
                        assert(out@ =~= frame(payload@));
                    }
                }
                Some(out)
            },
        }
    }

    /// Takes over the entry of an action that has run and was appended to the
    /// file.
    pub fn record(&mut self, id: String, entry: JournalEntry)
        requires
            old(self).wf(),
            entry.wf(),
        ensures
            final(self).wf(),
            entry_map(final(self).actions) == entry_map(old(self).actions).insert(id@, entry@),
    {
        let ghost was = self.actions;
        let ghost name = id@;
        let ghost given = entry;
        let _ = self.actions.insert(id, entry);
        proof {
            crate::sorted_map::rank_means(was.names(), name);
            let at = crate::sorted_map::rank(was.names(), name);
            assert forall|i: int| 0 <= i < self.actions.values@.len() implies (
            #[trigger] self.actions.values@[i]).wf() by {
                if !was.has(name) && i > at {
                    assert(self.actions.values@[i] == was.values@[i - 1]);
                } else if !was.has(name) && i < at {
                    assert(self.actions.values@[i] == was.values@[i]);
                }
            }
            assert(entry_map(self.actions) =~= entry_map(was).insert(name, given@));
        }
    }

    /// The whole file. None where an entry cannot be encoded. From the file the
    /// entries are read back as they were.
    pub fn save(&self) -> (r: Option<Vec<u8>>)
        requires
            self.wf(),
        ensures
            match r {
                Some(bytes) => {
                    &&& forall|i: int|
                        0 <= i < self.actions.keys@.len() ==> record_code(
                            #[trigger] all_records(self.actions)[i],
                        ) is Some
                    &&& bytes@ == magic() + frames(all_codes(self.actions))
                    &&& (forall|i: int|
                        0 <= i < self.actions.keys@.len() ==> (#[trigger] all_codes(
                            self.actions,
                        )[i]).len() < 0x1_0000_0000) ==> settled(journal_records(bytes@))
                        == entry_map(self.actions)
                },
                None => exists|i: int|
                    0 <= i < self.actions.keys@.len() && record_code(
                        #[trigger] all_records(self.actions)[i],
                    ) is None,
            },
    {
        let ghost codes = all_codes(self.actions);
        let ghost records = all_records(self.actions);
        let mut out = magic_bytes();
        let mut i: usize = 0;
        assert(codes.take(0) =~= Seq::<Seq<u8>>::empty());
        assert(out@ =~= magic() + frames(codes.take(0)));
        while i < self.actions.keys.len()
            invariant
                self.wf(),
                codes == all_codes(self.actions),
                records == all_records(self.actions),
                i <= self.actions.keys@.len(),
                out@ == magic() + frames(codes.take(i as int)),
                forall|j: int|
                    0 <= j < i ==> record_code(#[trigger] records[j]) == Some(codes[j])
                        && record_of(codes[j]) == Some(records[j]),
            decreases self.actions.keys@.len() - i,
        {
            assert(self.actions.values@[i as int].wf());
            let wire = to_wire(&self.actions.keys[i], &self.actions.values[i]);
            assert(wire_text(wire) == records[i as int]);
            match encode_record(&wire) {
                None => {
                    assert(record_code(records[i as int]) is None);
                    return None;
                },
                Some(payload) => {
                    push_frame(&mut out, payload.as_slice());
                    proof {
                        assert(codes[i as int] == payload@);
                        assert(codes.take(i + 1) =~= codes.take(i as int).push(payload@));
                        frames_push(codes.take(i as int), payload@);
                        assert(out@ =~= magic() + frames(codes.take(i + 1)));
                    }
                },
            }
            i += 1;
        }
        proof {
            assert(codes.take(i as int) =~= codes);
            if forall|i: int| 0 <= i < codes.len() ==> (#[trigger] codes[i]).len() < 0x1_0000_0000 {
                let none = Seq::<u8>::empty();
                assert forall|j: int| 0 <= j < codes.len() implies record_of(#[trigger] codes[j])
                    == Some(records[j]) by {
                    assert(record_code(records[j]) == Some(codes[j]));
                }
                torn_tail_is_ignored(codes, records, none);
                assert(frames(codes) + none =~= frames(codes));
                assert(out@.take(8) =~= magic());
                assert(out@.skip(8) =~= frames(codes));
                entries_read_back(self.actions);
            }
        }
        Some(out)
    }
}

/// Of several records of an action the last one counts, and an action without a
/// record has no entry.
pub proof fn last_record_counts(records: Seq<RecordText>, id: Seq<char>, k: int)
    requires
        0 <= k < records.len(),
        records[k].id == id,
        forall|j: int| k < j < records.len() ==> (#[trigger] records[j]).id != id,
    ensures
        settled(records).dom().contains(id),
        settled(records)[id].key == records[k].key,
        settled(records)[id].discovered == records[k].discovered,
        settled(records)[id].duration_ms == records[k].duration_ms,
        settled(records)[id].reason == records[k].reason,
    decreases records.len(),
{
    let init = records.drop_last();
    if k < records.len() - 1 {
        assert(records[records.len() - 1].id != id);
        assert forall|j: int| k < j < init.len() implies (#[trigger] init[j]).id != id by {
            assert(init[j] == records[j]);
        }
        last_record_counts(init, id, k);
    }
}

/// An action without a record has no entry.
pub proof fn no_record_no_entry(records: Seq<RecordText>, id: Seq<char>)
    requires
        forall|j: int| 0 <= j < records.len() ==> (#[trigger] records[j]).id != id,
    ensures
        !settled(records).dom().contains(id),
    decreases records.len(),
{
    if records.len() > 0 {
        let init = records.drop_last();
        assert(records[records.len() - 1].id != id);
        assert forall|j: int| 0 <= j < init.len() implies (#[trigger] init[j]).id != id by {
            assert(init[j] == records[j]);
        }
        no_record_no_entry(init, id);
    }
}

/// What is written of an action in a new journal is read back whole: the key, the
/// digest of every input and of every output, what the run discovered, how long it
/// took and why it ran.
pub proof fn every_field_is_read_back(
    id: &str,
    entry: JournalEntry,
    bytes: Vec<u8>,
    file: &[u8],
    r: Journal,
    path: Seq<char>,
)
    requires
        entry.wf(),
        call_ensures(Journal::record_bytes, (id, &entry, true), Some(bytes)),
        call_ensures(Journal::load, (file, None::<Journal>), r),
        file@ == bytes@,
        bytes@.len() < 0x1_0000_0000,
    ensures
        r.actions.has(id@),
        ({
            let e = r.actions.at(id@);
            &&& e.key@ == entry.key@
            &&& texts(e.discovered@) == texts(entry.discovered@)
            &&& e.duration_ms == entry.duration_ms
            &&& e.reason@ == entry.reason@
            &&& e.inputs.has(path) <==> entry.inputs.has(path)
            &&& entry.inputs.has(path) ==> e.inputs.at(path)@ == entry.inputs.at(path)@
            &&& e.outputs.has(path) <==> entry.outputs.has(path)
            &&& entry.outputs.has(path) ==> e.outputs.at(path)@ == entry.outputs.at(path)@
        }),
{
    let record = record_for(id@, entry);
    let code = record_code(record)->0;
    let none = Seq::<u8>::empty();
    assert(bytes@ == magic() + frame(code));
    appended_is_found(none, id@, entry, code);
    assert(none.take(0) =~= none);
    assert(appended(none, code) == bytes@);
    assert(journal_records(none) =~= Seq::<RecordText>::empty());
    assert(journal_records(bytes@).len() == 1);
    let all = entry_map(r.actions);
    assert(all.dom().contains(id@));
    assert(all[id@] == entry@);
    let e = r.actions.at(id@);
    assert(e@ == entry@);
    assert(e@.inputs.dom().contains(path) <==> entry@.inputs.dom().contains(path));
    assert(e@.outputs.dom().contains(path) <==> entry@.outputs.dom().contains(path));
    assert(entry@.inputs.dom().contains(path) ==> e@.inputs[path] == entry@.inputs[path]);
    assert(entry@.outputs.dom().contains(path) ==> e@.outputs[path] == entry@.outputs[path]);
}

} // verus!
