//! What an action depends on, and the names that come from it.

use vstd::prelude::*;
use vstd::string::*;
use vstd::utf8::*;

use crate::digest::{blake3_hex, blake3_of, hex16, hex_text, to_hex16};
use crate::paths::{components, relative_to, remainder, under};
use crate::sorted_map::{in_order, in_order_is, SortedMap};
use crate::text::{copies, copy, decimal, decimal_read_back, number};
use crate::text::{replace, replaced, texts};

verus! {

/// What an action depends on: the command, the environment, the tools, and the
/// digests of its inputs.
#[derive(Debug)]
pub struct ActionKey {
    pub builder: String,
    pub target: String,
    pub argv: Vec<String>,
    pub cwd: String,
    pub env: SortedMap<String>,
    pub inputs: SortedMap<String>,
    pub toolchain_hash: String,
}

/// A map from texts to texts.
pub open spec fn text_map(m: SortedMap<String>) -> Map<Seq<char>, Seq<char>> {
    Map::new(|k: Seq<char>| m.has(k), |k: Seq<char>| m.at(k)@)
}

/// A field of a payload: what it is, and its value.
pub struct Field {
    pub label: Seq<char>,
    pub value: Seq<char>,
}

/// A field as text: its label, the length of its value in bytes, and the
/// value, each followed by a null character.
pub open spec fn framed(f: Field) -> Seq<char> {
    f.label + seq!['\0'] + decimal(encode_utf8(f.value).len()) + seq!['\0'] + f.value + seq!['\0']
}

/// Fields one after the other.
pub open spec fn all_framed(fields: Seq<Field>) -> Seq<char>
    decreases fields.len(),
{
    if fields.len() == 0 {
        Seq::empty()
    } else {
        all_framed(fields.drop_last()) + framed(fields.last())
    }
}

/// The working directory as it stands in a payload: below the workspace where
/// it can be, with forward slashes.
pub open spec fn cwd_text(cwd: Seq<char>, root: Seq<char>) -> Seq<char> {
    if under(cwd, root) {
        let rest = remainder(cwd, components(root).len());
        if rest.len() == 0 {
            "."@
        } else {
            replaced(rest, "\\"@, "/"@)
        }
    } else {
        replaced(cwd, "\\"@, "/"@)
    }
}

/// One field for each text.
pub open spec fn list_fields(label: Seq<char>, values: Seq<Seq<char>>) -> Seq<Field> {
    Seq::new(values.len(), |i: int| Field { label, value: values[i] })
}

/// Two fields for each entry of a map, in the order of its keys.
pub open spec fn map_fields(label: Seq<char>, map: Map<Seq<char>, Seq<char>>) -> Seq<Field> {
    let names = in_order(map.dom());
    Seq::new(
        2 * names.len(),
        |i: int|
            Field {
                label,
                value: if i % 2 == 0 {
                    names[i / 2]
                } else {
                    map[names[i / 2]]
                },
            },
    )
}

/// What an action key says.
#[verifier::ext_equal]
pub struct KeyContent {
    pub builder: Seq<char>,
    pub target: Seq<char>,
    pub cwd: Seq<char>,
    pub toolchain: Seq<char>,
    pub argv: Seq<Seq<char>>,
    pub env: Map<Seq<char>, Seq<char>>,
    pub inputs: Map<Seq<char>, Seq<char>>,
}

/// The fields of a payload that come first.
pub open spec fn head_fields(c: KeyContent) -> Seq<Field> {
    seq![
        Field { label: "schema"@, value: "frost-action-key-v2"@ },
        Field { label: "builder"@, value: c.builder },
        Field { label: "target"@, value: c.target },
        Field { label: "cwd"@, value: c.cwd },
        Field { label: "toolchain"@, value: c.toolchain },
    ]
}

/// The fields of a payload.
pub open spec fn key_fields(c: KeyContent) -> Seq<Field> {
    head_fields(c) + list_fields("argv"@, c.argv) + map_fields("env"@, c.env) + map_fields(
        "input"@,
        c.inputs,
    )
}

/// The payload of an action key.
pub open spec fn payload_of(c: KeyContent) -> Seq<char> {
    all_framed(key_fields(c))
}

pub proof fn all_framed_push(fields: Seq<Field>, f: Field)
    ensures
        all_framed(fields.push(f)) == all_framed(fields) + framed(f),
{
    assert(fields.push(f).drop_last() =~= fields);
}

/// Appends a field.
fn write_field(payload: &mut String, label: &str, value: &str)
    ensures
        final(payload)@ == old(payload)@ + framed(Field { label: label@, value: value@ }),
{
    let bytes = value.as_bytes_vec();
    let mut field = copy(label);
    field.push('\0');
    field.append(&number(bytes.len() as u128));
    field.push('\0');
    field.append(value);
    field.push('\0');
    proof {
        let f = Field { label: label@, value: value@ };
        assert(field@ =~= framed(f));
    }
    payload.append(&field);
}

/// The FNV-1a hash of bytes, in 64 bits.
pub open spec fn fnv1a(bytes: Seq<u8>) -> u64
    decreases bytes.len(),
{
    if bytes.len() == 0 {
        0xcbf2_9ce4_8422_2325
    } else {
        ((fnv1a(bytes.drop_last()) ^ (bytes.last() as u64)) as int * 0x0000_0100_0000_01b3
            % 0x1_0000_0000_0000_0000) as u64
    }
}

/// The FNV-1a hash of bytes.
pub fn fnv1a64(bytes: &[u8]) -> (r: u64)
    ensures
        r == fnv1a(bytes@),
{
    let mut hash: u64 = 0xcbf2_9ce4_8422_2325;
    let mut i: usize = 0;
    assert(bytes@.take(0) =~= Seq::empty());
    while i < bytes.len()
        invariant
            i <= bytes@.len(),
            hash == fnv1a(bytes@.take(i as int)),
        decreases bytes@.len() - i,
    {
        assert(bytes@.take(i + 1).drop_last() =~= bytes@.take(i as int));
        hash = hash ^ (bytes[i] as u64);
        hash = hash.wrapping_mul(0x0000_0100_0000_01b3);
        i += 1;
    }
    assert(bytes@.take(i as int) =~= bytes@);
    hash
}

impl ActionKey {
    /// Environment and inputs are in order.
    pub open spec fn wf(self) -> bool {
        self.env.wf() && self.inputs.wf()
    }

    /// What the key says, seen from a workspace.
    pub open spec fn content(self, root: Seq<char>) -> KeyContent {
        KeyContent {
            builder: self.builder@,
            target: self.target@,
            cwd: cwd_text(self.cwd@, root),
            toolchain: self.toolchain_hash@,
            argv: texts(self.argv@),
            env: text_map(self.env),
            inputs: text_map(self.inputs),
        }
    }

    /// A key without environment and inputs.
    pub fn new(
        builder: &str,
        target: &str,
        argv: &Vec<String>,
        cwd: &str,
        toolchain_hash: &str,
    ) -> (r: ActionKey)
        ensures
            r.wf(),
            r.builder@ == builder@,
            r.target@ == target@,
            texts(r.argv@) == texts(argv@),
            r.cwd@ == cwd@,
            r.toolchain_hash@ == toolchain_hash@,
            text_map(r.env) == Map::<Seq<char>, Seq<char>>::empty(),
            text_map(r.inputs) == Map::<Seq<char>, Seq<char>>::empty(),
    {
        let r = ActionKey {
            builder: copy(builder),
            target: copy(target),
            argv: copies(argv),
            cwd: copy(cwd),
            env: SortedMap::new(),
            inputs: SortedMap::new(),
            toolchain_hash: copy(toolchain_hash),
        };
        assert(text_map(r.env) =~= Map::<Seq<char>, Seq<char>>::empty());
        assert(text_map(r.inputs) =~= Map::<Seq<char>, Seq<char>>::empty());
        r
    }

    /// The key with a variable of the environment set.
    pub fn with_env(self, key: &str, value: &str) -> (r: ActionKey)
        requires
            self.wf(),
        ensures
            r.wf(),
            text_map(r.env) == text_map(self.env).insert(key@, value@),
            r == (ActionKey { env: r.env, ..self }),
    {
        let mut out = self;
        let _ = out.env.insert(copy(key), copy(value));
        assert(text_map(out.env) =~= text_map(self.env).insert(key@, value@));
        out
    }

    /// The key with the digest of an input.
    pub fn with_input(self, path: &str, digest: &str) -> (r: ActionKey)
        requires
            self.wf(),
        ensures
            r.wf(),
            text_map(r.inputs) == text_map(self.inputs).insert(path@, digest@),
            r == (ActionKey { inputs: r.inputs, ..self }),
    {
        let mut out = self;
        let _ = out.inputs.insert(copy(path), copy(digest));
        assert(text_map(out.inputs) =~= text_map(self.inputs).insert(path@, digest@));
        out
    }

    /// All that the key says as one text.
    pub fn canonical_payload(&self, workspace_root: &str) -> (r: String)
        requires
            self.wf(),
        ensures
            r@ == payload_of(self.content(workspace_root@)),
    {
        let cwd = match relative_to(&self.cwd, workspace_root) {
            Some(rest) => if rest.as_str().is_empty() {
                copy(".")
            } else {
                replace(&rest, "\\", "/")
            },
            None => replace(&self.cwd, "\\", "/"),
        };
        let ghost c = self.content(workspace_root@);
        let mut payload = String::new();
        write_field(&mut payload, "schema", "frost-action-key-v2");
        write_field(&mut payload, "builder", &self.builder);
        write_field(&mut payload, "target", &self.target);
        write_field(&mut payload, "cwd", &cwd);
        write_field(&mut payload, "toolchain", &self.toolchain_hash);
        proof {
            let h = head_fields(c);
            assert(h.take(0) =~= Seq::<Field>::empty());
            assert(h.take(1) =~= h.take(0).push(h[0]));
            assert(h.take(2) =~= h.take(1).push(h[1]));
            assert(h.take(3) =~= h.take(2).push(h[2]));
            assert(h.take(4) =~= h.take(3).push(h[3]));
            assert(h =~= h.take(4).push(h[4]));
            all_framed_push(h.take(0), h[0]);
            all_framed_push(h.take(1), h[1]);
            all_framed_push(h.take(2), h[2]);
            all_framed_push(h.take(3), h[3]);
            all_framed_push(h.take(4), h[4]);
            assert(payload@ =~= all_framed(h));
        }
        let ghost before = head_fields(c);
        write_list(&mut payload, "argv", &self.argv, Ghost(before));
        let ghost before = before + list_fields("argv"@, c.argv);
        write_map(&mut payload, "env", &self.env, Ghost(before));
        let ghost before = before + map_fields("env"@, c.env);
        write_map(&mut payload, "input", &self.inputs, Ghost(before));
        payload
    }

    /// A short name for what the key says.
    pub fn stable_id(&self, workspace_root: &str) -> (r: String)
        requires
            self.wf(),
        ensures
            r@ == hex16(fnv1a(encode_utf8(payload_of(self.content(workspace_root@))))),
    {
        let payload = self.canonical_payload(workspace_root);
        to_hex16(fnv1a64(payload.as_str().as_bytes_vec().as_slice()))
    }

    /// The digest of all that the key says, by which the action is cached.
    pub fn digest(&self, workspace_root: &str) -> (r: String)
        requires
            self.wf(),
        ensures
            r@ == hex_text(blake3_of(encode_utf8(payload_of(self.content(workspace_root@))))),
    {
        let payload = self.canonical_payload(workspace_root);
        blake3_hex(payload.as_str().as_bytes_vec().as_slice())
    }
}

/// Appends one field for each text.
fn write_list(payload: &mut String, label: &str, values: &Vec<String>, before: Ghost<Seq<Field>>)
    requires
        old(payload)@ == all_framed(before@),
    ensures
        final(payload)@ == all_framed(before@ + list_fields(label@, texts(values@))),
{
    let ghost more = list_fields(label@, texts(values@));
    let mut i: usize = 0;
    assert(before@ + more.take(0) =~= before@);
    while i < values.len()
        invariant
            more == list_fields(label@, texts(values@)),
            i <= values@.len(),
            payload@ == all_framed(before@ + more.take(i as int)),
        decreases values@.len() - i,
    {
        write_field(payload, label, &values[i]);
        proof {
            let f = more[i as int];
            assert(before@ + more.take(i + 1) =~= (before@ + more.take(i as int)).push(f));
            all_framed_push(before@ + more.take(i as int), f);
        }
        i += 1;
    }
    assert(more.take(i as int) =~= more);
}

/// Appends two fields for each entry of a map.
fn write_map(
    payload: &mut String,
    label: &str,
    map: &SortedMap<String>,
    before: Ghost<Seq<Field>>,
)
    requires
        map.wf(),
        old(payload)@ == all_framed(before@),
    ensures
        final(payload)@ == all_framed(before@ + map_fields(label@, text_map(*map))),
{
    let ghost more = map_fields(label@, text_map(*map));
    let ghost names = map.names();
    proof {
        assert(names.to_set() =~= text_map(*map).dom());
        in_order_is(names);
    }
    let mut i: usize = 0;
    assert(before@ + more.take(0) =~= before@);
    while i < map.keys.len()
        invariant
            map.wf(),
            names == map.names(),
            names == in_order(text_map(*map).dom()),
            more == map_fields(label@, text_map(*map)),
            i <= map.keys@.len(),
            payload@ == all_framed(before@ + more.take(2 * i as int)),
        decreases map.keys@.len() - i,
    {
        write_field(payload, label, &map.keys[i]);
        write_field(payload, label, &map.values[i]);
        proof {
            map.spot_is(i as int);
            let a = 2 * i as int;
            assert(a / 2 == i && (a + 1) / 2 == i && a % 2 == 0 && (a + 1) % 2 == 1);
            assert(names[i as int] == map.keys@[i as int]@);
            assert(names.contains(names[i as int]));
            assert(text_map(*map)[names[i as int]] == map.values@[i as int]@);
            assert(before@ + more.take(a + 1) =~= (before@ + more.take(a)).push(more[a]));
            assert(before@ + more.take(a + 2) =~= (before@ + more.take(a + 1)).push(more[a + 1]));
            all_framed_push(before@ + more.take(a), more[a]);
            all_framed_push(before@ + more.take(a + 1), more[a + 1]);
        }
        i += 1;
    }
    assert(more.take(2 * i as int) =~= more);
}

/// Variables and inputs given in another order make the same payload.
pub proof fn order_does_not_matter(
    c: KeyContent,
    k1: Seq<char>,
    v1: Seq<char>,
    k2: Seq<char>,
    v2: Seq<char>,
)
    requires
        k1 != k2,
    ensures
        payload_of(KeyContent { env: c.env.insert(k1, v1).insert(k2, v2), ..c }) == payload_of(
            KeyContent { env: c.env.insert(k2, v2).insert(k1, v1), ..c },
        ),
        payload_of(KeyContent { inputs: c.inputs.insert(k1, v1).insert(k2, v2), ..c })
            == payload_of(KeyContent { inputs: c.inputs.insert(k2, v2).insert(k1, v1), ..c }),
{
    assert(c.env.insert(k1, v1).insert(k2, v2) =~= c.env.insert(k2, v2).insert(k1, v1));
    assert(c.inputs.insert(k1, v1).insert(k2, v2) =~= c.inputs.insert(k2, v2).insert(k1, v1));
}

/// The bytes of two texts one after the other.
proof fn encode_add(a: Seq<char>, b: Seq<char>)
    ensures
        encode_utf8(a + b) == encode_utf8(a) + encode_utf8(b),
    decreases a.len(),
{
    if a.len() == 0 {
        assert(a + b =~= b);
        assert(encode_utf8(a) =~= Seq::<u8>::empty());
        assert(encode_utf8(a) + encode_utf8(b) =~= encode_utf8(b));
    } else {
        encode_add(a.drop_first(), b);
        assert((a + b).drop_first() =~= a.drop_first() + b);
        assert(encode_utf8(a + b) =~= encode_scalar(a[0] as u32) + (encode_utf8(a.drop_first())
            + encode_utf8(b)));
        assert(encode_utf8(a) + encode_utf8(b) =~= encode_scalar(a[0] as u32) + (encode_utf8(
            a.drop_first(),
        ) + encode_utf8(b)));
    }
}

/// A text that is not empty has bytes.
proof fn encode_some(a: Seq<char>)
    requires
        a.len() > 0,
    ensures
        encode_utf8(a).len() > 0,
{
    assert(encode_utf8(a) == encode_scalar(a[0] as u32) + encode_utf8(a.drop_first()));
    assert(encode_scalar(a[0] as u32).len() > 0);
}

/// Two beginnings of one text with as many bytes are the same.
proof fn same_beginning(a: Seq<char>, x: Seq<char>, b: Seq<char>, y: Seq<char>)
    requires
        a + x == b + y,
        encode_utf8(a).len() == encode_utf8(b).len(),
    ensures
        a == b,
        x == y,
{
    let whole = a + x;
    if a.len() < b.len() {
        let rest = b.skip(a.len() as int);
        assert(b =~= a + rest) by {
            assert forall|i: int| 0 <= i < a.len() implies a[i] == b[i] by {
                assert(whole[i] == a[i] && (b + y)[i] == b[i]);
            }
        }
        encode_add(a, rest);
        encode_some(rest);
    } else if b.len() < a.len() {
        let rest = a.skip(b.len() as int);
        assert(a =~= b + rest) by {
            assert forall|i: int| 0 <= i < b.len() implies b[i] == a[i] by {
                assert(whole[i] == a[i] && (b + y)[i] == b[i]);
            }
        }
        encode_add(b, rest);
        encode_some(rest);
    }
    assert(a =~= whole.take(a.len() as int));
    assert(b =~= (b + y).take(b.len() as int));
    assert(x =~= whole.skip(a.len() as int));
    assert(y =~= (b + y).skip(b.len() as int));
}

/// What stands before the first null character is told by the text.
proof fn up_to_null(a: Seq<char>, x: Seq<char>, b: Seq<char>, y: Seq<char>)
    requires
        a + seq!['\0'] + x == b + seq!['\0'] + y,
        !a.contains('\0'),
        !b.contains('\0'),
    ensures
        a == b,
        x == y,
{
    let left = a + seq!['\0'] + x;
    let right = b + seq!['\0'] + y;
    assert(left[a.len() as int] == '\0');
    assert(right[b.len() as int] == '\0');
    if a.len() < b.len() {
        assert(right[a.len() as int] == b[a.len() as int]);
        assert(b.contains(b[a.len() as int]));
    }
    if b.len() < a.len() {
        assert(left[b.len() as int] == a[b.len() as int]);
        assert(a.contains(a[b.len() as int]));
    }
    assert(a =~= left.take(a.len() as int));
    assert(b =~= right.take(b.len() as int));
    assert(x =~= left.skip(a.len() as int + 1));
    assert(y =~= right.skip(b.len() as int + 1));
}

/// A number in digits holds no null character.
proof fn decimal_plain(n: nat)
    ensures
        !decimal(n).contains('\0'),
    decreases n,
{
    let d = n % 10;
    assert(crate::text::digit(d) as u8 == 48 + d);
    assert(crate::text::digit(d) != '\0');
    if n >= 10 {
        decimal_plain(n / 10);
        assert forall|i: int| 0 <= i < decimal(n).len() implies decimal(n)[i] != '\0' by {
            if i < decimal(n).len() - 1 {
                assert(decimal(n / 10).contains(decimal(n / 10)[i]));
            }
        }
    }
}

/// A field at the beginning of a text is told by the text.
proof fn field_read_back(f: Field, x: Seq<char>, g: Field, y: Seq<char>)
    requires
        framed(f) + x == framed(g) + y,
        !f.label.contains('\0'),
        !g.label.contains('\0'),
    ensures
        f == g,
        x == y,
{
    let n = encode_utf8(f.value).len();
    let m = encode_utf8(g.value).len();
    let z = seq!['\0'];
    let f2 = decimal(n) + z + (f.value + z + x);
    let g2 = decimal(m) + z + (g.value + z + y);
    assert(framed(f) + x =~= f.label + z + f2);
    assert(framed(g) + y =~= g.label + z + g2);
    up_to_null(f.label, f2, g.label, g2);
    decimal_plain(n);
    decimal_plain(m);
    up_to_null(decimal(n), f.value + z + x, decimal(m), g.value + z + y);
    decimal_read_back(n);
    decimal_read_back(m);
    assert(f.value + z + x =~= f.value + (z + x));
    assert(g.value + z + y =~= g.value + (z + y));
    same_beginning(f.value, z + x, g.value, z + y);
    assert(x =~= (z + x).skip(1));
    assert(y =~= (z + y).skip(1));
}

/// The first field and what follows.
proof fn all_framed_first(fields: Seq<Field>)
    requires
        fields.len() > 0,
    ensures
        all_framed(fields) == framed(fields[0]) + all_framed(fields.skip(1)),
    decreases fields.len(),
{
    if fields.len() == 1 {
        assert(fields.drop_last() =~= Seq::<Field>::empty());
        assert(fields.skip(1) =~= Seq::<Field>::empty());
        assert(all_framed(fields.drop_last()) =~= Seq::<char>::empty());
        assert(all_framed(fields.skip(1)) =~= Seq::<char>::empty());
        assert(all_framed(fields) =~= framed(fields[0]));
        assert(framed(fields[0]) + all_framed(fields.skip(1)) =~= framed(fields[0]));
    } else {
        all_framed_first(fields.drop_last());
        assert(fields.drop_last().skip(1) =~= fields.skip(1).drop_last());
        assert(fields.skip(1).last() == fields.last());
        let mid = all_framed(fields.skip(1).drop_last());
        assert(framed(fields[0]) + mid + framed(fields.last()) =~= framed(fields[0]) + (mid
            + framed(fields.last())));
    }
}

/// Labels without null characters.
pub open spec fn plain_labels(fields: Seq<Field>) -> bool {
    forall|i: int| 0 <= i < fields.len() ==> !(#[trigger] fields[i]).label.contains('\0')
}

/// Framed fields can be told from their text.
pub proof fn fields_read_back(a: Seq<Field>, b: Seq<Field>)
    requires
        plain_labels(a),
        plain_labels(b),
        all_framed(a) == all_framed(b),
    ensures
        a == b,
    decreases a.len(),
{
    if a.len() == 0 || b.len() == 0 {
        if a.len() > 0 {
            all_framed_first(a);
            assert(all_framed(a).len() > 0);
        }
        if b.len() > 0 {
            all_framed_first(b);
            assert(all_framed(b).len() > 0);
        }
        assert(a =~= b);
    } else {
        all_framed_first(a);
        all_framed_first(b);
        assert(!a[0].label.contains('\0'));
        assert(!b[0].label.contains('\0'));
        field_read_back(a[0], all_framed(a.skip(1)), b[0], all_framed(b.skip(1)));
        assert(plain_labels(a.skip(1))) by {
            assert forall|i: int| 0 <= i < a.skip(1).len() implies !(#[trigger] a.skip(
                1,
            )[i]).label.contains('\0') by {
                assert(a.skip(1)[i] == a[i + 1]);
            }
        }
        assert(plain_labels(b.skip(1))) by {
            assert forall|i: int| 0 <= i < b.skip(1).len() implies !(#[trigger] b.skip(
                1,
            )[i]).label.contains('\0') by {
                assert(b.skip(1)[i] == b[i + 1]);
            }
        }
        fields_read_back(a.skip(1), b.skip(1));
        assert(a =~= seq![a[0]] + a.skip(1));
        assert(b =~= seq![b[0]] + b.skip(1));
    }
}

/// The keys of a map in order.
proof fn map_names(m: SortedMap<String>)
    requires
        m.wf(),
    ensures
        in_order(text_map(m).dom()) == m.names(),
        m.names().to_set() == text_map(m).dom(),
{
    assert(m.names().to_set() =~= text_map(m).dom());
    in_order_is(m.names());
}

/// The fields of a map tell the map.
proof fn map_read_back(label: Seq<char>, a: SortedMap<String>, b: SortedMap<String>)
    requires
        a.wf(),
        b.wf(),
        map_fields(label, text_map(a)) == map_fields(label, text_map(b)),
    ensures
        text_map(a) == text_map(b),
{
    map_names(a);
    map_names(b);
    let f = map_fields(label, text_map(a));
    let g = map_fields(label, text_map(b));
    assert(f.len() == 2 * a.names().len() && g.len() == 2 * b.names().len());
    assert forall|i: int| 0 <= i < a.names().len() implies a.names()[i] == b.names()[i] && text_map(
        a,
    )[a.names()[i]] == text_map(b)[a.names()[i]] by {
        assert((2 * i) / 2 == i && (2 * i) % 2 == 0 && (2 * i + 1) / 2 == i && (2 * i + 1) % 2
            == 1);
        assert(f[2 * i].value == a.names()[i] && g[2 * i].value == b.names()[i]);
        assert(f[2 * i + 1].value == text_map(a)[a.names()[i]]);
        assert(g[2 * i + 1].value == text_map(b)[b.names()[i]]);
    }
    assert(a.names() =~= b.names());
    assert forall|k: Seq<char>| text_map(a).dom().contains(k) implies text_map(a)[k] == text_map(
        b,
    )[k] by {
        let i = a.names().index_of(k);
        assert(a.names()[i] == k);
    }
    assert(text_map(a) =~= text_map(b));
}

/// The labels of a payload.
proof fn labels_differ()
    ensures
        "argv"@ != "env"@,
        "argv"@ != "input"@,
        "env"@ != "input"@,
        !"schema"@.contains('\0'),
        !"builder"@.contains('\0'),
        !"target"@.contains('\0'),
        !"cwd"@.contains('\0'),
        !"toolchain"@.contains('\0'),
        !"argv"@.contains('\0'),
        !"env"@.contains('\0'),
        !"input"@.contains('\0'),
{
    reveal_strlit("schema");
    reveal_strlit("builder");
    reveal_strlit("target");
    reveal_strlit("cwd");
    reveal_strlit("toolchain");
    reveal_strlit("argv");
    reveal_strlit("env");
    reveal_strlit("input");
    assert("env"@.len() == 3 && "argv"@.len() == 4 && "input"@.len() == 5);
}

proof fn key_labels(c: KeyContent)
    ensures
        plain_labels(key_fields(c)),
{
    labels_differ();
    let fields = key_fields(c);
    let h = head_fields(c);
    let l = list_fields("argv"@, c.argv);
    let e = map_fields("env"@, c.env);
    let i = map_fields("input"@, c.inputs);
    assert forall|k: int| 0 <= k < fields.len() implies !(#[trigger] fields[k]).label.contains(
        '\0',
    ) by {
        if k < 5 {
            assert(fields[k] == h[k]);
        } else if k < 5 + l.len() {
            assert(fields[k] == l[k - 5]);
        } else if k < 5 + l.len() + e.len() {
            assert(fields[k] == e[k - 5 - l.len()]);
        } else {
            assert(fields[k] == i[k - 5 - l.len() - e.len()]);
        }
    }
}

/// Where runs of equal labels end is told by the labels.
proof fn runs_end(
    a1: Seq<Field>,
    a2: Seq<Field>,
    b1: Seq<Field>,
    b2: Seq<Field>,
    label: Seq<char>,
)
    requires
        a1 + a2 == b1 + b2,
        forall|i: int| 0 <= i < a1.len() ==> (#[trigger] a1[i]).label == label,
        forall|i: int| 0 <= i < b1.len() ==> (#[trigger] b1[i]).label == label,
        forall|i: int| 0 <= i < a2.len() ==> (#[trigger] a2[i]).label != label,
        forall|i: int| 0 <= i < b2.len() ==> (#[trigger] b2[i]).label != label,
    ensures
        a1 == b1,
        a2 == b2,
{
    let a = a1 + a2;
    let b = b1 + b2;
    if a1.len() < b1.len() {
        assert(b[a1.len() as int] == b1[a1.len() as int]);
        assert(a[a1.len() as int] == a2[0]);
    }
    if b1.len() < a1.len() {
        assert(a[b1.len() as int] == a1[b1.len() as int]);
        assert(b[b1.len() as int] == b2[0]);
    }
    assert(a1 =~= a.take(a1.len() as int));
    assert(b1 =~= b.take(b1.len() as int));
    assert(a2 =~= a.skip(a1.len() as int));
    assert(b2 =~= b.skip(b1.len() as int));
}

/// Keys with the same payload say the same: whatever the command, the
/// environment, the tools or the digest of an input changes, the payload
/// changes with it.
pub proof fn payload_tells_all(a: ActionKey, b: ActionKey, root: Seq<char>)
    requires
        a.wf(),
        b.wf(),
        payload_of(a.content(root)) == payload_of(b.content(root)),
    ensures
        a.content(root) == b.content(root),
        texts(a.argv@) == texts(b.argv@),
        a.builder@ == b.builder@,
        a.target@ == b.target@,
        a.toolchain_hash@ == b.toolchain_hash@,
        text_map(a.env) == text_map(b.env),
        text_map(a.inputs) == text_map(b.inputs),
        cwd_text(a.cwd@, root) == cwd_text(b.cwd@, root),
{
    let c = a.content(root);
    let d = b.content(root);
    key_labels(c);
    key_labels(d);
    fields_read_back(key_fields(c), key_fields(d));
    labels_differ();
    let f = key_fields(c);
    let g = key_fields(d);
    let fl = list_fields("argv"@, c.argv);
    let gl = list_fields("argv"@, d.argv);
    let fe = map_fields("env"@, c.env);
    let ge = map_fields("env"@, d.env);
    let fi = map_fields("input"@, c.inputs);
    let gi = map_fields("input"@, d.inputs);
    assert(f.skip(5) =~= fl + (fe + fi));
    assert(g.skip(5) =~= gl + (ge + gi));
    assert forall|i: int| 0 <= i < 5 implies head_fields(c)[i] == head_fields(d)[i] by {
        assert(f[i] == head_fields(c)[i]);
        assert(g[i] == head_fields(d)[i]);
    }
    assert(head_fields(c)[1].value == c.builder && head_fields(d)[1].value == d.builder);
    assert(head_fields(c)[2].value == c.target && head_fields(d)[2].value == d.target);
    assert(head_fields(c)[3].value == c.cwd && head_fields(d)[3].value == d.cwd);
    assert(head_fields(c)[4].value == c.toolchain && head_fields(d)[4].value == d.toolchain);
    runs_end(fl, fe + fi, gl, ge + gi, "argv"@);
    runs_end(fe, fi, ge, gi, "env"@);
    assert forall|i: int| 0 <= i < c.argv.len() implies c.argv[i] == d.argv[i] by {
        assert(fl[i].value == c.argv[i]);
        assert(gl[i].value == d.argv[i]);
    }
    assert(fl.len() == c.argv.len() && gl.len() == d.argv.len());
    assert(c.argv =~= d.argv);
    map_read_back("env"@, a.env, b.env);
    map_read_back("input"@, a.inputs, b.inputs);
}

/// Keys with one payload have the same arguments in the same order, the same
/// variables with the same values, and the same inputs with the same digests:
/// an action with another flag, variable or input is never taken for this one.
pub proof fn payload_tells_each(a: ActionKey, b: ActionKey, root: Seq<char>)
    requires
        a.wf(),
        b.wf(),
        payload_of(a.content(root)) == payload_of(b.content(root)),
    ensures
        a.argv@.len() == b.argv@.len(),
        forall|i: int| #![trigger a.argv@[i]]
            0 <= i < a.argv@.len() ==> a.argv@[i]@ == b.argv@[i]@,
        forall|k: Seq<char>| a.env.has(k) == #[trigger] b.env.has(k),
        forall|k: Seq<char>| a.env.has(k) ==> a.env.at(k)@ == (#[trigger] b.env.at(k))@,
        forall|k: Seq<char>| a.inputs.has(k) == #[trigger] b.inputs.has(k),
        forall|k: Seq<char>| a.inputs.has(k) ==> a.inputs.at(k)@ == (#[trigger] b.inputs.at(k))@,
{
    payload_tells_all(a, b, root);
    assert(texts(a.argv@).len() == a.argv@.len() && texts(b.argv@).len() == b.argv@.len());
    assert forall|i: int| #![trigger a.argv@[i]]
        0 <= i < a.argv@.len() implies a.argv@[i]@ == b.argv@[i]@ by {
        assert(texts(a.argv@)[i] == a.argv@[i]@);
        assert(texts(b.argv@)[i] == b.argv@[i]@);
    }
    assert forall|k: Seq<char>| a.env.has(k) == #[trigger] b.env.has(k) by {
        assert(text_map(a.env).dom().contains(k) == text_map(b.env).dom().contains(k));
    }
    assert forall|k: Seq<char>| a.env.has(k) implies a.env.at(k)@ == (#[trigger] b.env.at(k))@ by {
        assert(text_map(a.env).dom().contains(k));
        assert(text_map(a.env)[k] == text_map(b.env)[k]);
        assert(b.env.has(k));
    }
    assert forall|k: Seq<char>| a.inputs.has(k) == #[trigger] b.inputs.has(k) by {
        assert(text_map(a.inputs).dom().contains(k) == text_map(b.inputs).dom().contains(k));
    }
    assert forall|k: Seq<char>| a.inputs.has(k) implies a.inputs.at(k)@ == (#[trigger] b.inputs.at(
        k,
    ))@ by {
        assert(text_map(a.inputs).dom().contains(k));
        assert(text_map(a.inputs)[k] == text_map(b.inputs)[k]);
        assert(b.inputs.has(k));
    }
}

/// Keys with the same command, environment, inputs, tools, builder, target and
/// working directory have one payload.
pub proof fn same_key_same_payload(a: ActionKey, b: ActionKey, root: Seq<char>)
    requires
        texts(a.argv@) == texts(b.argv@),
        text_map(a.env) == text_map(b.env),
        text_map(a.inputs) == text_map(b.inputs),
        a.toolchain_hash@ == b.toolchain_hash@,
        a.builder@ == b.builder@,
        a.target@ == b.target@,
        a.cwd@ == b.cwd@,
    ensures
        payload_of(a.content(root)) == payload_of(b.content(root)),
{
    assert(a.content(root) =~= b.content(root));
}

/// A directory without backslashes stands in a payload as it is, where it is
/// outside of the workspace, and by what is left of it behind the root where it
/// is inside. So an action has one key in every checkout, and another one in
/// every directory of a checkout.
pub proof fn cwd_is_told(cwd: Seq<char>, root: Seq<char>)
    requires
        !cwd.contains('\\'),
    ensures
        !under(cwd, root) ==> cwd_text(cwd, root) == cwd,
        under(cwd, root) && remainder(cwd, components(root).len()).len() == 0 ==> cwd_text(
            cwd,
            root,
        ) == "."@,
        under(cwd, root) && remainder(cwd, components(root).len()).len() > 0 && !remainder(
            cwd,
            components(root).len(),
        ).contains('\\') ==> cwd_text(cwd, root) == remainder(cwd, components(root).len()),
{
    let back = "\\"@;
    reveal_strlit("\\");
    assert forall|s: Seq<char>| !(#[trigger] s.contains('\\')) implies replaced(
        s,
        back,
        "/"@,
    ) == s by {
        assert(!crate::text::occurs(s, back)) by {
            if crate::text::occurs(s, back) {
                let i = choose|i: int| crate::text::occurs_at(s, i, back);
                assert(s.subrange(i, i + back.len())[0] == s[i]);
                assert(s[i] == back[0]);
            }
        }
        crate::template::nothing_replaced(s, back, "/"@);
    }
}

} // verus!
