//! Python wheels: names, versions, and the record of what a wheel holds.

use vstd::prelude::*;
use vstd::string::*;

use crate::paths::{
    components, components_of, extension, extension_of, file_name, file_name_of, has_char,
};
use crate::text::{
    alphanumeric, before, before_irreflexive, before_total, before_transitive, begins, chars_of,
    copy, decimal, is_alphanumeric, is_digit, join, joined, lower_char, number, pieces, precedes,
    replace, replaced, same, split, texts,
};

verus! {

/// The SHA-256 hash of some bytes.
pub uninterp spec fn sha256_of(bytes: Seq<u8>) -> Seq<u8>;

/// `sha2::Sha256::digest`: 32 bytes that depend on the input alone.
#[verifier::external_body]
pub(crate) fn sha256_bytes(bytes: &[u8]) -> (r: Vec<u8>)
    ensures
        r@ == sha256_of(bytes@),
        r@.len() == 32,
{
    <sha2::Sha256 as sha2::Digest>::digest(bytes).to_vec()
}

/// The character for six bits in base64 for addresses and file names.
pub open spec fn base64_char(n: int) -> char {
    if n < 26 {
        (65 + n) as u8 as char
    } else if n < 52 {
        (71 + n) as u8 as char
    } else if n < 62 {
        (n - 4) as u8 as char
    } else if n == 62 {
        '-'
    } else {
        '_'
    }
}

/// Bytes in base64 for addresses and file names, without padding: four
/// characters for three bytes, and three or two for what is left.
pub open spec fn base64_url(bytes: Seq<u8>) -> Seq<char>
    decreases bytes.len(),
{
    let a = bytes[0] as int;
    let b = bytes[1] as int;
    let c = bytes[2] as int;
    if bytes.len() == 0 {
        Seq::empty()
    } else if bytes.len() == 1 {
        seq![base64_char(a / 4), base64_char(a % 4 * 16)]
    } else if bytes.len() == 2 {
        seq![
            base64_char(a / 4),
            base64_char(a % 4 * 16 + b / 16),
            base64_char(b % 16 * 4),
        ]
    } else {
        seq![
            base64_char(a / 4),
            base64_char(a % 4 * 16 + b / 16),
            base64_char(b % 16 * 4 + c / 64),
            base64_char(c % 64),
        ] + base64_url(bytes.skip(3))
    }
}

/// `base64::engine::general_purpose::URL_SAFE_NO_PAD.encode`: base64 with the
/// alphabet for addresses and file names, without padding.
#[verifier::external_body]
pub(crate) fn encode_base64_url(bytes: &[u8]) -> (r: String)
    requires
        bytes@.len() <= 0x7fff_ffff,
    ensures
        r@ == base64_url(bytes@),
{
    base64::Engine::encode(&base64::engine::general_purpose::URL_SAFE_NO_PAD, bytes)
}

/// What is wrong with a wheel.
#[derive(Debug, Clone, Copy, PartialEq, Eq, Structural)]
pub enum WheelFault {
    DistributionNotAscii,
    DistributionCharacter,
    DistributionEnd,
    Version,
    Filename,
    NoFiles,
    EntryPath,
    EntryLineBreak,
}

impl WheelFault {
    /// Reports the fault.
    pub fn message(self) -> (r: &'static str)
        ensures
            r@ == match self {
                WheelFault::DistributionNotAscii =>
                    "wheel distribution must be a non-empty ASCII Python distribution name"@,
                WheelFault::DistributionCharacter => "invalid character in wheel distribution"@,
                WheelFault::DistributionEnd =>
                    "wheel distribution must end with an ASCII letter or digit"@,
                WheelFault::Version =>
                    "wheel version must be a normalized numeric Python release such as 1.2.3"@,
                WheelFault::Filename =>
                    "wheel output must have the standard wheel filename"@,
                WheelFault::NoFiles => "wheel input contains no files"@,
                WheelFault::EntryPath => "invalid wheel entry path"@,
                WheelFault::EntryLineBreak => "wheel entry contains a line break"@,
            },
    {
        match self {
            WheelFault::DistributionNotAscii =>
                "wheel distribution must be a non-empty ASCII Python distribution name",
            WheelFault::DistributionCharacter => "invalid character in wheel distribution",
            WheelFault::DistributionEnd =>
                "wheel distribution must end with an ASCII letter or digit",
            WheelFault::Version =>
                "wheel version must be a normalized numeric Python release such as 1.2.3",
            WheelFault::Filename => "wheel output must have the standard wheel filename",
            WheelFault::NoFiles => "wheel input contains no files",
            WheelFault::EntryPath => "invalid wheel entry path",
            WheelFault::EntryLineBreak => "wheel entry contains a line break",
        }
    }
}

/// A name in the form that file names of wheels have: letters in lower case,
/// and one underscore for each run of `-`, `_` and `.`. None where another
/// character stands in it, or one of these at its beginning.
pub open spec fn normal_name(s: Seq<char>) -> Option<Seq<char>>
    decreases s.len(),
{
    if s.len() == 0 {
        Some(Seq::empty())
    } else {
        match normal_name(s.drop_last()) {
            None => None,
            Some(r) => {
                let c = s.last();
                if is_alphanumeric(c) {
                    Some(r.push(lower_char(c)))
                } else if (c == '-' || c == '_' || c == '.') && r.len() > 0 {
                    if r.last() == '_' {
                        Some(r)
                    } else {
                        Some(r.push('_'))
                    }
                } else {
                    None
                }
            },
        }
    }
}

/// All characters are ASCII.
pub open spec fn ascii(s: Seq<char>) -> bool {
    forall|i: int| 0 <= i < s.len() ==> #[trigger] s[i] as u32 <= 0x7f
}

/// The normal form of a distribution's name, or what is wrong with it.
pub open spec fn normal_distribution(s: Seq<char>) -> Result<Seq<char>, WheelFault> {
    if s.len() == 0 || !ascii(s) {
        Err(WheelFault::DistributionNotAscii)
    } else {
        match normal_name(s) {
            None => Err(WheelFault::DistributionCharacter),
            Some(r) => if r.len() > 0 && r.last() == '_' {
                Err(WheelFault::DistributionEnd)
            } else {
                Ok(r)
            },
        }
    }
}

proof fn normal_fails(s: Seq<char>, k: int)
    requires
        0 <= k <= s.len(),
        normal_name(s.take(k)) is None,
    ensures
        normal_name(s) is None,
    decreases s.len() - k,
{
    if k < s.len() {
        assert(s.take(k + 1).drop_last() =~= s.take(k));
        normal_fails(s, k + 1);
    } else {
        assert(s.take(k) =~= s);
    }
}

/// The normal form of a distribution's name.
pub fn normalize_distribution(value: &str) -> (r: Result<String, WheelFault>)
    ensures
        match r {
            Ok(name) => normal_distribution(value@) == Ok::<Seq<char>, WheelFault>(name@),
            Err(e) => normal_distribution(value@) == Err::<Seq<char>, WheelFault>(e),
        },
{
    let a = chars_of(value);
    if a.len() == 0 {
        return Err(WheelFault::DistributionNotAscii);
    }
    let mut j: usize = 0;
    while j < a.len()
        invariant
            a@ == value@,
            j <= a@.len(),
            forall|i: int| 0 <= i < j ==> #[trigger] value@[i] as u32 <= 0x7f,
        decreases a@.len() - j,
    {
        if a[j] as u32 > 0x7f {
            assert(value@[j as int] as u32 > 0x7f);
            return Err(WheelFault::DistributionNotAscii);
        }
        j += 1;
    }
    let mut out: Vec<char> = Vec::new();
    let mut i: usize = 0;
    assert(a@.take(0) =~= Seq::empty());
    assert(out@ =~= Seq::empty());
    while i < a.len()
        invariant
            a@ == value@,
            a@.len() > 0,
            ascii(value@),
            i <= a@.len(),
            normal_name(a@.take(i as int)) == Some(out@),
        decreases a@.len() - i,
    {
        let c = a[i];
        assert(a@.take(i + 1).drop_last() =~= a@.take(i as int));
        assert(a@.take(i + 1).last() == c);
        if alphanumeric(c) {
            if 'A' <= c && c <= 'Z' {
                let small: u8 = c as u8 + 32;
                out.push(small as char);
            } else {
                out.push(c);
            }
        } else if (c == '-' || c == '_' || c == '.') && out.len() > 0 {
            if out[out.len() - 1] != '_' {
                out.push('_');
            }
        } else {
            proof {
                normal_fails(value@, i + 1);
            }
            return Err(WheelFault::DistributionCharacter);
        }
        i += 1;
    }
    assert(a@.take(i as int) =~= a@);
    if out.len() > 0 && out[out.len() - 1] == '_' {
        return Err(WheelFault::DistributionEnd);
    }
    Ok(crate::text::text_of(&out))
}

/// A part of a version: a number without leading zeros.
pub open spec fn release_part(s: Seq<char>) -> bool {
    s.len() > 0 && (forall|i: int| 0 <= i < s.len() ==> is_digit(#[trigger] s[i])) && (s == "0"@ || s[0]
        != '0')
}

/// A normalized numeric release: numbers with dots between them.
pub open spec fn release(s: Seq<char>) -> bool {
    s.len() > 0 && forall|i: int|
        0 <= i < pieces(s, '.').len() ==> release_part(#[trigger] pieces(s, '.')[i])
}

fn is_release_part(s: &str) -> (r: bool)
    ensures
        r == release_part(s@),
{
    let a = chars_of(s);
    if a.len() == 0 {
        return false;
    }
    let mut i: usize = 0;
    while i < a.len()
        invariant
            a@ == s@,
            i <= a@.len(),
            forall|k: int| 0 <= k < i ==> is_digit(#[trigger] s@[k]),
        decreases a@.len() - i,
    {
        let c = a[i];
        if !('0' <= c && c <= '9') {
            assert(!is_digit(s@[i as int]));
            return false;
        }
        i += 1;
    }
    same(s, "0") || a[0] != '0'
}

/// Whether a text is a normalized numeric release.
pub fn validate_version(value: &str) -> (r: bool)
    ensures
        r == release(value@),
{
    if value.is_empty() {
        return false;
    }
    let parts = split(value, '.');
    let ghost all = pieces(value@, '.');
    assert(all.len() == parts@.len());
    let mut i: usize = 0;
    while i < parts.len()
        invariant
            all == texts(parts@),
            all == pieces(value@, '.'),
            i <= parts@.len(),
            forall|k: int| 0 <= k < i ==> release_part(#[trigger] all[k]),
        decreases parts@.len() - i,
    {
        assert(all[i as int] == parts@[i as int]@);
        if !is_release_part(&parts[i]) {
            assert(!release_part(all[i as int]));
            return false;
        }
        i += 1;
    }
    true
}

/// A field of a table: in quotes where it holds a comma, a quote or a line
/// break, with its quotes doubled.
pub open spec fn field(value: Seq<char>) -> Seq<char> {
    if value.contains(',') || value.contains('"') || value.contains('\r') || value.contains('\n') {
        "\""@ + replaced(value, "\""@, "\"\""@) + "\""@
    } else {
        value
    }
}

/// A field of a table.
pub fn csv_field(value: &str) -> (r: String)
    ensures
        r@ == field(value@),
{
    if has_char(value, ',') || has_char(value, '"') || has_char(value, '\r') || has_char(
        value,
        '\n',
    ) {
        let mut out = copy("\"");
        out.append(&replace(value, "\"", "\"\""));
        out.append("\"");
        out
    } else {
        copy(value)
    }
}

/// A component that an entry's name may have.
pub open spec fn entry_part(part: Seq<char>) -> Option<WheelFault> {
    if part == "/"@ || part == "."@ || part == ".."@ {
        Some(WheelFault::EntryPath)
    } else if part.contains('\r') || part.contains('\n') {
        Some(WheelFault::EntryLineBreak)
    } else {
        None
    }
}

/// What is wrong with the first of the first `n` components that an entry's
/// name may not have.
pub open spec fn entry_fault(parts: Seq<Seq<char>>, n: nat) -> Option<WheelFault>
    decreases n,
{
    if n == 0 {
        None
    } else {
        match entry_fault(parts, (n - 1) as nat) {
            Some(fault) => Some(fault),
            None => entry_part(parts[n - 1]),
        }
    }
}

proof fn entry_fault_stays(parts: Seq<Seq<char>>, k: nat, n: nat)
    requires
        k <= n,
        entry_fault(parts, k) is Some,
    ensures
        entry_fault(parts, n) == entry_fault(parts, k),
    decreases n - k,
{
    if k < n {
        entry_fault_stays(parts, k + 1, n);
    }
}

/// Whether a wheel leaves out what stands in a directory under this name:
/// Python's caches, and compiled files.
pub fn left_out(name: &str, is_dir: bool) -> (r: bool)
    ensures
        r == (if is_dir {
            name@ == "__pycache__"@
        } else {
            extension(name@) == Some("pyc"@)
        }),
{
    if is_dir {
        same(name, "__pycache__")
    } else {
        match extension_of(name) {
            Some(ext) => same(&ext, "pyc"),
            None => false,
        }
    }
}

/// The name of a wheel's entry for a file at a relative path.
pub fn archive_name(path: &str) -> (r: Result<String, WheelFault>)
    ensures
        match r {
            Ok(name) => entry_fault(components(path@), components(path@).len()) == None::<WheelFault>
                && name@ == joined(components(path@), "/"@),
            Err(e) => entry_fault(components(path@), components(path@).len()) == Some(e),
        },
{
    let parts = components_of(path);
    let ghost all = components(path@);
    assert(all.len() == parts@.len());
    let mut i: usize = 0;
    while i < parts.len()
        invariant
            all == texts(parts@),
            all == components(path@),
            i <= parts@.len(),
            entry_fault(all, i as nat) is None,
        decreases parts@.len() - i,
    {
        let part = &parts[i];
        assert(all[i as int] == part@);
        let fault = if same(part, "/") || same(part, ".") || same(part, "..") {
            Some(WheelFault::EntryPath)
        } else if has_char(part, '\r') || has_char(part, '\n') {
            Some(WheelFault::EntryLineBreak)
        } else {
            None
        };
        if let Some(fault) = fault {
            proof {
                entry_fault_stays(all, (i + 1) as nat, all.len());
            }
            return Err(fault);
        }
        i += 1;
    }
    Ok(join(&parts, "/"))
}

// ---------------------------------------------------------------------------
// Contents
// ---------------------------------------------------------------------------

/// A file in a wheel.
#[derive(Debug)]
pub struct Entry {
    pub name: String,
    pub bytes: Vec<u8>,
}

/// A file in a wheel.
pub struct EntryView {
    pub name: Seq<char>,
    pub bytes: Seq<u8>,
}

impl View for Entry {
    type V = EntryView;

    open spec fn view(&self) -> EntryView {
        EntryView { name: self.name@, bytes: self.bytes@ }
    }
}

/// Files in a wheel.
pub open spec fn entry_views(v: Seq<Entry>) -> Seq<EntryView> {
    Seq::new(v.len(), |i: int| v[i]@)
}

/// Where an entry belongs among others: behind those whose names do not stand
/// behind its own.
pub open spec fn place(done: Seq<EntryView>, name: Seq<char>) -> int
    decreases done.len(),
{
    if done.len() == 0 {
        0
    } else if before(name, done.last().name) {
        place(done.drop_last(), name)
    } else {
        done.len() as int
    }
}

/// The first `n` entries in the order of their names; those with one name in
/// the order they came.
pub open spec fn by_name(v: Seq<EntryView>, n: nat) -> Seq<EntryView>
    decreases n,
{
    if n == 0 {
        Seq::empty()
    } else {
        let done = by_name(v, (n - 1) as nat);
        done.insert(place(done, v[n - 1].name), v[n - 1])
    }
}

proof fn place_in(done: Seq<EntryView>, name: Seq<char>)
    ensures
        0 <= place(done, name) <= done.len(),
    decreases done.len(),
{
    if done.len() > 0 {
        place_in(done.drop_last(), name);
    }
}

/// Entries in the order of their names.
pub fn sort_entries(v: Vec<Entry>) -> (r: Vec<Entry>)
    ensures
        entry_views(r@) == by_name(entry_views(v@), v@.len()),
{
    let ghost given = entry_views(v@);
    let mut rest = crate::workspace::reversed(v);
    let mut out: Vec<Entry> = Vec::new();
    let ghost n = v@.len();
    let ghost mut k: nat = 0;
    assert(v@.skip(0) =~= v@);
    assert(entry_views(out@) =~= Seq::empty());
    while rest.len() > 0
        invariant
            given == entry_views(v@),
            n == v@.len(),
            k + rest@.len() == n,
            rest@ == v@.skip(k as int).reverse(),
            entry_views(out@) == by_name(given, k),
        decreases rest@.len(),
    {
        let ghost done = entry_views(out@);
        if let Some(entry) = rest.pop() {
            assert(entry == v@[k as int]);
            let mut at: usize = out.len();
            assert(done.take(at as int) =~= done);
            while at > 0 && precedes(&entry.name, &out[at - 1].name)
                invariant
                    at <= out@.len(),
                    done == entry_views(out@),
                    place(done.take(at as int), entry.name@) == place(done, entry.name@),
                decreases at,
            {
                assert(done.take(at as int).drop_last() =~= done.take(at - 1));
                assert(done.take(at as int).last() == out@[at - 1]@);
                at -= 1;
            }
            assert(at > 0 ==> done.take(at as int).last() == out@[at - 1]@);
            out.insert(at, entry);
            assert(entry_views(out@) =~= done.insert(at as int, entry@));
            assert(given[k as int] == entry@);
        }
        assert(rest@ =~= v@.skip(k as int + 1).reverse());
        proof {
            k = k + 1;
        }
    }
    out
}

/// Sorting keeps all entries, and puts none before one with an earlier name.
pub proof fn by_name_means(v: Seq<EntryView>, n: nat)
    requires
        n <= v.len(),
    ensures
        by_name(v, n).len() == n,
        by_name(v, n).to_multiset() == v.take(n as int).to_multiset(),
        forall|i: int, j: int|
            0 <= i < j < n ==> !before(
                (#[trigger] by_name(v, n)[j]).name,
                (#[trigger] by_name(v, n)[i]).name,
            ),
    decreases n,
{
    if n == 0 {
        assert(v.take(0) =~= Seq::empty());
    } else {
        let m = (n - 1) as nat;
        by_name_means(v, m);
        let done = by_name(v, m);
        let e = v[n - 1];
        let at = place(done, e.name);
        place_means(done, e.name);
        let now = done.insert(at, e);
        vstd::seq_lib::to_multiset_insert(done, at, e);
        assert(v.take(n as int) =~= v.take(m as int).push(e));
        vstd::seq_lib::to_multiset_build(v.take(m as int), e);
        assert forall|i: int, j: int| 0 <= i < j < n implies !before(
            (#[trigger] now[j]).name,
            (#[trigger] now[i]).name,
        ) by {
            if j == at {
                assert(now[i] == done[i]);
            } else if i == at {
                assert(now[j] == done[j - 1]);
                before_transitive_not(e.name, done[j - 1].name);
            } else {
                let a = if i < at {
                    i
                } else {
                    i - 1
                };
                let b = if j < at {
                    j
                } else {
                    j - 1
                };
                assert(now[i] == done[a] && now[j] == done[b]);
            }
        }
    }
}

proof fn before_transitive_not(a: Seq<char>, b: Seq<char>)
    requires
        before(a, b),
    ensures
        !before(b, a),
{
    if before(b, a) {
        before_transitive(a, b, a);
        before_irreflexive(a);
    }
}

/// What `place` means among entries in order.
proof fn place_means(done: Seq<EntryView>, name: Seq<char>)
    requires
        forall|i: int, j: int|
            0 <= i < j < done.len() ==> !before(
                (#[trigger] done[j]).name,
                (#[trigger] done[i]).name,
            ),
    ensures
        0 <= place(done, name) <= done.len(),
        forall|i: int| 0 <= i < place(done, name) ==> !before(name, (#[trigger] done[i]).name),
        forall|i: int| place(done, name) <= i < done.len() ==> before(name, (#[trigger] done[i]).name),
    decreases done.len(),
{
    if done.len() > 0 {
        let init = done.drop_last();
        let last = done.last();
        if before(name, last.name) {
            assert forall|i: int, j: int| 0 <= i < j < init.len() implies !before(
                (#[trigger] init[j]).name,
                (#[trigger] init[i]).name,
            ) by {
                assert(init[i] == done[i] && init[j] == done[j]);
            }
            place_means(init, name);
            assert forall|i: int| 0 <= i < place(done, name) implies !before(
                name,
                (#[trigger] done[i]).name,
            ) by {
                assert(init[i] == done[i]);
            }
            assert forall|i: int| place(done, name) <= i < done.len() implies before(
                name,
                (#[trigger] done[i]).name,
            ) by {
                if i < init.len() {
                    assert(init[i] == done[i]);
                }
            }
        } else {
            assert forall|i: int| 0 <= i < done.len() implies !before(
                name,
                (#[trigger] done[i]).name,
            ) by {
                if before(name, done[i].name) && i < done.len() - 1 {
                    before_total(last.name, done[i].name);
                    assert(!before(done[done.len() - 1].name, done[i].name));
                    if before(done[i].name, last.name) {
                        before_transitive(name, done[i].name, last.name);
                    }
                }
            }
        }
    }
}

/// A line of the record: an entry's name, hash and size.
pub open spec fn record_line(e: EntryView) -> Seq<char> {
    field(e.name) + ",sha256="@ + base64_url(sha256_of(e.bytes)) + ","@ + decimal(e.bytes.len())
        + "\n"@
}

/// The record of the first `n` entries.
pub open spec fn record_of(entries: Seq<EntryView>, n: nat) -> Seq<char>
    decreases n,
{
    if n == 0 {
        Seq::empty()
    } else {
        record_of(entries, (n - 1) as nat) + record_line(entries[n - 1])
    }
}

/// A text in UTF-8.
pub open spec fn utf8(s: Seq<char>) -> Seq<u8> {
    vstd::utf8::encode_utf8(s)
}

/// The entries of a wheel: its files in order, its metadata, and last the
/// record of all of them, in which the record itself has no hash.
pub open spec fn wheel_contents(
    name: Seq<char>,
    distribution: Seq<char>,
    version: Seq<char>,
    generator: Seq<char>,
    files: Seq<EntryView>,
) -> Seq<EntryView> {
    let info = name + "-"@ + version + ".dist-info"@;
    let listed = by_name(files, files.len()).push(
        EntryView {
            name: info + "/METADATA"@,
            bytes: utf8(
                "Metadata-Version: 2.1\nName: "@ + distribution + "\nVersion: "@ + version + "\n\n"@,
            ),
        },
    ).push(
        EntryView {
            name: info + "/WHEEL"@,
            bytes: utf8(
                "Wheel-Version: 1.0\nGenerator: FrostBuild "@ + generator
                    + "\nRoot-Is-Purelib: true\nTag: py3-none-any\n"@,
            ),
        },
    );
    listed.push(
        EntryView {
            name: info + "/RECORD"@,
            bytes: utf8(
                record_of(listed, listed.len()) + field(info + "/RECORD"@) + ",,\n"@,
            ),
        },
    )
}

fn text_entry(name: String, text: &str) -> (r: Entry)
    ensures
        r@ == (EntryView { name: name@, bytes: utf8(text@) }),
{
    Entry { name, bytes: text.as_bytes_vec() }
}

/// The file name that a wheel must have.
pub open spec fn filename(name: Seq<char>, version: Seq<char>) -> Seq<char> {
    name + "-"@ + version + "-py3-none-any.whl"@
}

/// The normal name of a distribution, where its name, its version and the
/// output's file name are in order.
pub fn check_wheel(distribution: &str, version: &str, output: &str) -> (r: Result<
    String,
    WheelFault,
>)
    ensures
        match normal_distribution(distribution@) {
            Err(fault) => r == Err::<String, WheelFault>(fault),
            Ok(name) => if !release(version@) {
                r == Err::<String, WheelFault>(WheelFault::Version)
            } else if file_name(output@) != Some(filename(name, version@)) {
                r == Err::<String, WheelFault>(WheelFault::Filename)
            } else {
                r is Ok && r->Ok_0@ == name
            },
        },
{
    let name = match normalize_distribution(distribution) {
        Ok(name) => name,
        Err(fault) => {
            return Err(fault);
        },
    };
    if !validate_version(version) {
        return Err(WheelFault::Version);
    }
    let mut expected = copy(&name);
    expected.append("-");
    expected.append(version);
    expected.append("-py3-none-any.whl");
    let fits = match file_name_of(output) {
        Some(found) => same(&found, &expected),
        None => false,
    };
    if !fits {
        return Err(WheelFault::Filename);
    }
    Ok(name)
}

/// The entries of a wheel of some files. `name` is the normal name of the
/// distribution, `generator` the version of the program that packs it.
pub fn pack_entries(
    name: &str,
    distribution: &str,
    version: &str,
    generator: &str,
    files: Vec<Entry>,
) -> (r: Result<Vec<Entry>, WheelFault>)
    ensures
        match r {
            Ok(entries) => files@.len() > 0 && entry_views(entries@) == wheel_contents(
                name@,
                distribution@,
                version@,
                generator@,
                entry_views(files@),
            ),
            Err(e) => files@.len() == 0 && e == WheelFault::NoFiles,
        },
{
    let mut entries = sort_entries(files);
    let ghost sorted = entry_views(entries@);
    let ghost given = entry_views(files@);
    proof {
        by_name_len(given, given.len());
        assert(sorted.len() == entries@.len());
    }
    if entries.len() == 0 {
        return Err(WheelFault::NoFiles);
    }
    let mut info = copy(name);
    info.append("-");
    info.append(version);
    info.append(".dist-info");
    let mut metadata_name = copy(&info);
    metadata_name.append("/METADATA");
    let mut metadata = copy("Metadata-Version: 2.1\nName: ");
    metadata.append(distribution);
    metadata.append("\nVersion: ");
    metadata.append(version);
    metadata.append("\n\n");
    let one = text_entry(metadata_name, &metadata);
    let ghost first = one@;
    entries.push(one);
    assert(entry_views(entries@) =~= sorted.push(first));
    let mut wheel_name = copy(&info);
    wheel_name.append("/WHEEL");
    let mut wheel = copy("Wheel-Version: 1.0\nGenerator: FrostBuild ");
    wheel.append(generator);
    wheel.append("\nRoot-Is-Purelib: true\nTag: py3-none-any\n");
    let two = text_entry(wheel_name, &wheel);
    let ghost second = two@;
    entries.push(two);
    let ghost listed = sorted.push(first).push(second);
    assert(entry_views(entries@) =~= listed);
    let mut record_name = copy(&info);
    record_name.append("/RECORD");
    let mut record = String::new();
    let mut i: usize = 0;
    assert(record@ =~= record_of(listed, 0));
    while i < entries.len()
        invariant
            listed == entry_views(entries@),
            i <= entries@.len(),
            record@ == record_of(listed, i as nat),
        decreases entries@.len() - i,
    {
        let entry = &entries[i];
        assert(listed[i as int] == entry@);
        let mut line = csv_field(&entry.name);
        line.append(",sha256=");
        line.append(&encode_base64_url(sha256_bytes(entry.bytes.as_slice()).as_slice()));
        line.append(",");
        line.append(&number(entry.bytes.len() as u128));
        line.append("\n");
        record.append(&line);
        i += 1;
    }
    record.append(&csv_field(&record_name));
    record.append(",,\n");
    let three = text_entry(record_name, &record);
    let ghost third = three@;
    entries.push(three);
    assert(entry_views(entries@) =~= listed.push(third));
    Ok(entries)
}

proof fn by_name_len(v: Seq<EntryView>, n: nat)
    ensures
        by_name(v, n).len() == n,
    decreases n,
{
    if n > 0 {
        by_name_len(v, (n - 1) as nat);
        place_in(by_name(v, (n - 1) as nat), v[n - 1].name);
    }
}

// ---------------------------------------------------------------------------
// What a wheel holds
// ---------------------------------------------------------------------------

proof fn record_has(entries: Seq<EntryView>, n: nat, k: int) -> (r: (Seq<char>, Seq<char>))
    requires
        0 <= k < n,
    ensures
        record_of(entries, n) == r.0 + record_line(entries[k]) + r.1,
    decreases n,
{
    let less = (n - 1) as nat;
    let last = record_line(entries[n - 1]);
    if k == less {
        let before = record_of(entries, less);
        assert(before + last =~= before + last + Seq::empty());
        (before, Seq::empty())
    } else {
        let (before, after) = record_has(entries, less, k);
        let own = record_line(entries[k]);
        assert(before + own + after + last =~= before + own + (after + last));
        (before, after + last)
    }
}

/// Every file is in the wheel, under its name and with its bytes; three entries of
/// metadata stand behind them, the record last.
pub proof fn every_file_is_packed(
    name: &str,
    distribution: &str,
    version: &str,
    generator: &str,
    files: Vec<Entry>,
    entries: Vec<Entry>,
    k: int,
) -> (j: int)
    requires
        call_ensures(
            pack_entries,
            (name, distribution, version, generator, files),
            Ok::<Vec<Entry>, WheelFault>(entries),
        ),
        0 <= k < files@.len(),
    ensures
        entries@.len() == files@.len() + 3,
        0 <= j < files@.len(),
        entries@[j].name@ == files@[k].name@,
        entries@[j].bytes@ == files@[k].bytes@,
        entries@.last().name@ == name@ + "-"@ + version@ + ".dist-info"@ + "/RECORD"@,
{
    let given = entry_views(files@);
    let n = given.len();
    assert(n == files@.len());
    by_name_means(given, n);
    assert(given.take(n as int) =~= given);
    let sorted = by_name(given, n);
    assert(given[k] == files@[k]@);
    given.to_multiset_ensures();
    sorted.to_multiset_ensures();
    assert(given.contains(given[k]));
    assert(given.to_multiset().count(given[k]) > 0);
    assert(sorted.contains(given[k]));
    let j = sorted.index_of(given[k]);
    let all = entry_views(entries@);
    assert(all.len() == entries@.len());
    assert(all.len() == n + 3);
    assert(all[j] == sorted[j]);
    assert(all[j] == entries@[j]@);
    assert(all.last() == entries@.last()@);
    j
}

/// The record has a line for every entry before it, with the entry's name, the hash
/// of its bytes and their number.
pub proof fn every_entry_is_recorded(
    name: &str,
    distribution: &str,
    version: &str,
    generator: &str,
    files: Vec<Entry>,
    entries: Vec<Entry>,
    k: int,
) -> (r: (Seq<char>, Seq<char>))
    requires
        call_ensures(
            pack_entries,
            (name, distribution, version, generator, files),
            Ok::<Vec<Entry>, WheelFault>(entries),
        ),
        0 <= k < entries@.len() - 1,
    ensures
        entries@.last().bytes@ == vstd::utf8::encode_utf8(
            r.0 + field(entries@[k].name@) + ",sha256="@ + base64_url(
                sha256_of(entries@[k].bytes@),
            ) + ","@ + decimal(entries@[k].bytes@.len()) + "\n"@ + r.1,
        ),
{
    let given = entry_views(files@);
    let all = entry_views(entries@);
    assert(all.len() == entries@.len());
    assert(all.last() == entries@.last()@);
    assert(all[k] == entries@[k]@);
    let info = name@ + "-"@ + version@ + ".dist-info"@;
    let listed = record_is_last(name@, distribution@, version@, generator@, given);
    assert(listed[k] == all[k]);
    let (before, after) = record_has(listed, listed.len(), k);
    let last = field(info + "/RECORD"@);
    line_in_record(
        before,
        field(entries@[k].name@),
        base64_url(sha256_of(entries@[k].bytes@)),
        decimal(entries@[k].bytes@.len()),
        after,
        last,
    );
    (before, after + (last + ",,\n"@))
}

proof fn record_is_last(
    name: Seq<char>,
    distribution: Seq<char>,
    version: Seq<char>,
    generator: Seq<char>,
    files: Seq<EntryView>,
) -> (listed: Seq<EntryView>)
    ensures
        ({
            let info = name + "-"@ + version + ".dist-info"@;
            let whole = wheel_contents(name, distribution, version, generator, files);
            &&& listed == whole.drop_last()
            &&& whole.len() == listed.len() + 1
            &&& whole.last().bytes == utf8(
                record_of(listed, listed.len()) + field(info + "/RECORD"@) + ",,\n"@,
            )
        }),
{
    let info = name + "-"@ + version + ".dist-info"@;
    let metadata = EntryView {
        name: info + "/METADATA"@,
        bytes: utf8(
            "Metadata-Version: 2.1\nName: "@ + distribution + "\nVersion: "@ + version + "\n\n"@,
        ),
    };
    let wheel = EntryView {
        name: info + "/WHEEL"@,
        bytes: utf8(
            "Wheel-Version: 1.0\nGenerator: FrostBuild "@ + generator
                + "\nRoot-Is-Purelib: true\nTag: py3-none-any\n"@,
        ),
    };
    let listed = by_name(files, files.len()).push(metadata).push(wheel);
    let whole = wheel_contents(name, distribution, version, generator, files);
    assert(whole.drop_last() =~= listed);
    listed
}

proof fn line_in_record(
    before: Seq<char>,
    name: Seq<char>,
    hash: Seq<char>,
    size: Seq<char>,
    after: Seq<char>,
    last: Seq<char>,
)
    ensures
        before + (name + ",sha256="@ + hash + ","@ + size + "\n"@) + after + last + ",,\n"@ == before
            + name + ",sha256="@ + hash + ","@ + size + "\n"@ + (after + (last + ",,\n"@)),
{
    assert(before + (name + ",sha256="@ + hash + ","@ + size + "\n"@) + after + last + ",,\n"@
        =~= before + name + ",sha256="@ + hash + ","@ + size + "\n"@ + (after + (last + ",,\n"@)));
}

/// A field without commas, quotes and line breaks stands as it is; any other stands
/// in quotes, and every quote in it is doubled.
pub proof fn fields_are_quoted(value: &str, r: String)
    requires
        call_ensures(csv_field, (value,), r),
    ensures
        !value@.contains(',') && !value@.contains('"') && !value@.contains('\r')
            && !value@.contains('\n') ==> r@ == value@,
        value@.contains(',') || value@.contains('\r') || value@.contains('\n')
            || value@.contains('"') ==> r@.len() >= value@.len() + 2 && r@[0] == '"' && r@.last()
            == '"',
        value@.contains(',') && !value@.contains('"') ==> r@ == seq!['"'] + value@ + seq!['"'],
{
    reveal_strlit("\"");
    reveal_strlit("\"\"");
    doubled_is_longer(value@);
    if !value@.contains('"') {
        replaced_without(value@);
    }
}

proof fn doubled_is_longer(s: Seq<char>)
    ensures
        replaced(s, "\""@, "\"\""@).len() >= s.len(),
    decreases s.len(),
{
    reveal_strlit("\"");
    reveal_strlit("\"\"");
    if s.len() > 0 {
        doubled_is_longer(s.skip(1));
    }
}

proof fn replaced_without(s: Seq<char>)
    requires
        !s.contains('"'),
    ensures
        replaced(s, "\""@, "\"\""@) == s,
    decreases s.len(),
{
    reveal_strlit("\"");
    if s.len() > 0 {
        assert(s.contains(s[0]));
        if begins(s, "\""@) {
            assert(s.subrange(0, 1)[0] == s[0]);
        }
        assert forall|c: char| s.skip(1).contains(c) implies s.contains(c) by {
            let i = s.skip(1).index_of(c);
            assert(s[i + 1] == c);
        }
        replaced_without(s.skip(1));
        assert(seq![s[0]] + s.skip(1) =~= s);
    }
}

proof fn normal_chars(s: Seq<char>)
    ensures
        normal_name(s) is Some ==> ({
            let r = normal_name(s)->0;
            &&& r.len() <= s.len()
            &&& r.len() > 0 ==> r[0] != '_' && is_alphanumeric(s[0])
            &&& s.len() > 0 ==> r.len() > 0
            &&& forall|i: int| 0 <= i < r.len() - 1 && r[i] == '_' ==> #[trigger] r[i + 1] != '_'
            &&& !r.contains('-') && !r.contains('.')
        }),
    decreases s.len(),
{
    if s.len() > 0 {
        normal_chars(s.drop_last());
        if normal_name(s) is Some {
            let before = normal_name(s.drop_last())->0;
            let r = normal_name(s)->0;
            if s.len() > 1 {
                assert(s.drop_last()[0] == s[0]);
            }
            if r.contains('-') {
                let k = r.index_of('-');
                if k < before.len() {
                    assert(before[k] == '-');
                }
            }
            if r.contains('.') {
                let k = r.index_of('.');
                if k < before.len() {
                    assert(before[k] == '.');
                }
            }
            assert forall|i: int| 0 <= i < r.len() - 1 && r[i] == '_' implies #[trigger] r[i + 1]
                != '_' by {
                if i + 1 < before.len() {
                    assert(before[i + 1] == r[i + 1]);
                }
            }
        }
    }
}

/// A normal name begins and ends with a letter or a digit, has no dashes and no
/// dots, and no two underscores side by side.
pub proof fn normal_names_are_plain(value: &str, r: String)
    requires
        call_ensures(normalize_distribution, (value,), Ok::<String, WheelFault>(r)),
    ensures
        0 < r@.len() <= value@.len(),
        r@[0] != '_' && r@.last() != '_',
        !r@.contains('-') && !r@.contains('.'),
        forall|i: int| 0 <= i < r@.len() - 1 && r@[i] == '_' ==> #[trigger] r@[i + 1] != '_',
        is_alphanumeric(value@[0]),
{
    normal_chars(value@);
}

proof fn entries_sound(parts: Seq<Seq<char>>, n: nat)
    requires
        n <= parts.len(),
    ensures
        entry_fault(parts, n) is None <==> forall|i: int|
            0 <= i < n ==> (#[trigger] parts[i]) != ".."@ && parts[i] != "."@ && parts[i] != "/"@
                && !parts[i].contains('\r') && !parts[i].contains('\n'),
    decreases n,
{
    if n > 0 {
        entries_sound(parts, (n - 1) as nat);
    }
}

/// A path is an entry's name exactly where it leads nowhere but downwards and has
/// no line breaks.
pub proof fn entries_stay_inside(path: &str, r: Result<String, WheelFault>)
    requires
        call_ensures(archive_name, (path,), r),
    ensures
        r is Ok <==> forall|i: int|
            0 <= i < components(path@).len() ==> (#[trigger] components(path@)[i]) != ".."@
                && components(path@)[i] != "."@ && components(path@)[i] != "/"@ && !components(
                path@,
            )[i].contains('\r') && !components(path@)[i].contains('\n'),
        r is Ok ==> r->Ok_0@ == joined(components(path@), "/"@),
{
    entries_sound(components(path@), components(path@).len());
}

} // verus!
