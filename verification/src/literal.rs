//! Texts and lists as generated manifests hold them.

use vstd::prelude::*;
use vstd::string::*;

use crate::digest::hex_digit;
use crate::text::{copy, debug_text, group_texts, join, joined, quoted, texts};

verus! {

/// A character in a JSON string.
pub open spec fn json_char(c: char) -> Seq<char> {
    if c == '"' {
        seq!['\\', '"']
    } else if c == '\\' {
        seq!['\\', '\\']
    } else if c == '\u{8}' {
        seq!['\\', 'b']
    } else if c == '\u{c}' {
        seq!['\\', 'f']
    } else if c == '\n' {
        seq!['\\', 'n']
    } else if c == '\r' {
        seq!['\\', 'r']
    } else if c == '\t' {
        seq!['\\', 't']
    } else if (c as u32) < 0x20 {
        seq!['\\', 'u', '0', '0', hex_digit(c as u32 as int / 16), hex_digit(c as u32 as int % 16)]
    } else {
        seq![c]
    }
}

/// The characters of a text in a JSON string.
pub open spec fn json_chars(s: Seq<char>) -> Seq<char>
    decreases s.len(),
{
    if s.len() == 0 {
        Seq::empty()
    } else {
        json_chars(s.drop_last()) + json_char(s.last())
    }
}

/// A text as a JSON string.
pub open spec fn json_text(s: Seq<char>) -> Seq<char> {
    "\""@ + json_chars(s) + "\""@
}

/// `serde_json::to_string` of a text: a JSON string, in which quotes,
/// backslashes and control characters are escaped.
#[verifier::external_body]
pub(crate) fn json_string(s: &str) -> (r: String)
    ensures
        r@ == json_text(s@),
{
    serde_json::to_string(s).unwrap_or_default()
}

/// Texts as JSON strings.
pub open spec fn json_texts(values: Seq<Seq<char>>) -> Seq<Seq<char>> {
    Seq::new(values.len(), |i: int| json_text(values[i]))
}

/// Texts as a JSON array, which is also a TOML array.
pub open spec fn json_array(values: Seq<Seq<char>>) -> Seq<char> {
    "["@ + joined(json_texts(values), ","@) + "]"@
}

/// Texts as a JSON array, which is also a TOML array.
pub fn json_list(values: &Vec<String>) -> (r: String)
    ensures
        r@ == json_array(texts(values@)),
{
    broadcast use group_texts;
    let ghost all = json_texts(texts(values@));
    let mut items: Vec<String> = Vec::new();
    let mut i: usize = 0;
    while i < values.len()
        invariant
            all == json_texts(texts(values@)),
            i <= values@.len(),
            texts(items@) =~= all.take(i as int),
        decreases values@.len() - i,
    {
        assert(all.take(i + 1) =~= all.take(i as int).push(all[i as int]));
        items.push(json_string(&values[i]));
        i += 1;
    }
    assert(texts(items@) =~= all);
    let mut out = copy("[");
    out.append(&join(&items, ","));
    out.append("]");
    out
}

/// Texts as a TOML array, each in quotes as Rust writes them.
pub open spec fn quoted_array(values: Seq<Seq<char>>) -> Seq<char> {
    "["@ + joined(Seq::new(values.len(), |i: int| debug_text(values[i])), ", "@) + "]"@
}

/// Texts as a TOML array, each in quotes as Rust writes them.
pub fn toml_array(values: &Vec<String>) -> (r: String)
    ensures
        r@ == quoted_array(texts(values@)),
{
    broadcast use group_texts;
    let ghost given = texts(values@);
    let ghost all = Seq::new(given.len(), |i: int| debug_text(given[i]));
    let mut items: Vec<String> = Vec::new();
    let mut i: usize = 0;
    while i < values.len()
        invariant
            given == texts(values@),
            all == Seq::new(given.len(), |i: int| debug_text(given[i])),
            i <= values@.len(),
            texts(items@) =~= all.take(i as int),
        decreases values@.len() - i,
    {
        assert(all.take(i + 1) =~= all.take(i as int).push(all[i as int]));
        items.push(quoted(&values[i]));
        i += 1;
    }
    assert(texts(items@) =~= all);
    let mut out = copy("[");
    out.append(&join(&items, ", "));
    out.append("]");
    out
}

/// An array has every value, one behind the other: one more value stands behind
/// those that were there.
pub proof fn arrays_hold_every_value(
    values: Vec<String>,
    more: Vec<String>,
    r: String,
    s: String,
    t: String,
    u: String,
)
    requires
        call_ensures(json_list, (&values,), r),
        call_ensures(json_list, (&more,), s),
        call_ensures(toml_array, (&values,), t),
        call_ensures(toml_array, (&more,), u),
        more@.len() == values@.len() + 1,
        texts(more@).drop_last() == texts(values@),
    ensures
        values@.len() == 0 ==> r@ == "["@ + "]"@ && s@ == "["@ + json_text(more@[0]@) + "]"@,
        values@.len() == 0 ==> t@ == "["@ + "]"@ && u@ == "["@ + debug_text(more@[0]@) + "]"@,
        values@.len() > 0 ==> s@ == r@.drop_last() + ","@ + json_text(more@.last()@) + "]"@,
        values@.len() > 0 ==> u@ == t@.drop_last() + ", "@ + debug_text(more@.last()@) + "]"@,
{
    reveal_strlit("]");
    let old = texts(values@);
    let new = texts(more@);
    assert(new.len() == more@.len());
    assert(old.len() == values@.len());
    assert(new.last() == more@.last()@);
    assert(new[0] == more@[0]@);
    let a = json_texts(old);
    let b = json_texts(new);
    assert(b.drop_last() =~= a);
    let c = Seq::new(old.len(), |i: int| debug_text(old[i]));
    let d = Seq::new(new.len(), |i: int| debug_text(new[i]));
    assert(d.drop_last() =~= c);
    if values@.len() == 0 {
        assert("["@ + joined(a, ","@) + "]"@ =~= "["@ + "]"@);
        assert("["@ + joined(c, ", "@) + "]"@ =~= "["@ + "]"@);
    } else {
        assert(r@.drop_last() =~= "["@ + joined(a, ","@));
        assert(t@.drop_last() =~= "["@ + joined(c, ", "@));
        assert(s@ =~= "["@ + joined(a, ","@) + ","@ + json_text(more@.last()@) + "]"@);
        assert(u@ =~= "["@ + joined(c, ", "@) + ", "@ + debug_text(more@.last()@) + "]"@);
    }
}

} // verus!
