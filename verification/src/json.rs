//! JSON values as trees.

use vstd::prelude::*;

use crate::text::{copy, texts};

verus! {

/// A JSON value.
#[derive(Debug)]
pub enum Json {
    Null,
    Flag(bool),
    Number(u64),
    Text(String),
    List(Vec<Json>),
    Object(Vec<Member>),
}

/// A member of a JSON object.
#[derive(Debug)]
pub struct Member {
    pub name: String,
    pub value: Json,
}

/// A JSON value with its texts as sequences of characters.
pub enum JsonText {
    Null,
    Flag(bool),
    Number(nat),
    Text(Seq<char>),
    List(Seq<JsonText>),
    Object(Seq<(Seq<char>, JsonText)>),
}

/// What a JSON value says.
pub open spec fn tree(j: Json) -> JsonText
    decreases j,
{
    match j {
        Json::Null => JsonText::Null,
        Json::Flag(b) => JsonText::Flag(b),
        Json::Number(n) => JsonText::Number(n as nat),
        Json::Text(s) => JsonText::Text(s@),
        Json::List(v) => JsonText::List(
            Seq::new(
                v@.len(),
                |i: int|
                    if 0 <= i < v@.len() {
                        tree(v@[i])
                    } else {
                        JsonText::Null
                    },
            ),
        ),
        Json::Object(v) => JsonText::Object(
            Seq::new(
                v@.len(),
                |i: int|
                    if 0 <= i < v@.len() {
                        (v@[i].name@, tree(v@[i].value))
                    } else {
                        (Seq::empty(), JsonText::Null)
                    },
            ),
        ),
    }
}

/// What some values say.
pub open spec fn trees(v: Seq<Json>) -> Seq<JsonText> {
    Seq::new(v.len(), |i: int| tree(v[i]))
}

/// What some members say.
pub open spec fn members(v: Seq<Member>) -> Seq<(Seq<char>, JsonText)> {
    Seq::new(v.len(), |i: int| (v[i].name@, tree(v[i].value)))
}

/// Texts as JSON values.
pub open spec fn text_trees(v: Seq<Seq<char>>) -> Seq<JsonText> {
    Seq::new(v.len(), |i: int| JsonText::Text(v[i]))
}

/// A text.
pub fn text(s: &str) -> (r: Json)
    ensures
        tree(r) == JsonText::Text(s@),
{
    Json::Text(copy(s))
}

/// What is said of a text that may be missing.
pub open spec fn optional_tree(s: Option<String>) -> JsonText {
    match s {
        Some(s) => JsonText::Text(s@),
        None => JsonText::Null,
    }
}

/// A text, or null where it is missing.
pub fn optional_text(s: &Option<String>) -> (r: Json)
    ensures
        tree(r) == optional_tree(*s),
{
    match s {
        Some(s) => text(s),
        None => Json::Null,
    }
}

/// A list.
pub fn list(v: Vec<Json>) -> (r: Json)
    ensures
        tree(r) == JsonText::List(trees(v@)),
{
    let r = Json::List(v);
    assert(tree(r)->List_0 =~= trees(v@));
    r
}

/// A list of texts.
pub fn text_list(v: &Vec<String>) -> (r: Json)
    ensures
        tree(r) == JsonText::List(text_trees(texts(v@))),
{
    let ghost all = text_trees(texts(v@));
    let mut out: Vec<Json> = Vec::new();
    let mut i: usize = 0;
    while i < v.len()
        invariant
            all == text_trees(texts(v@)),
            i <= v@.len(),
            out@.len() == i,
            forall|k: int| 0 <= k < i ==> tree(#[trigger] out@[k]) == all[k],
        decreases v@.len() - i,
    {
        out.push(text(&v[i]));
        i += 1;
    }
    assert(trees(out@) =~= all);
    list(out)
}

/// An object.
pub fn object(v: Vec<Member>) -> (r: Json)
    ensures
        tree(r) == JsonText::Object(members(v@)),
{
    let r = Json::Object(v);
    assert(tree(r)->Object_0 =~= members(v@));
    r
}

/// Adds a member to those of an object.
pub fn add_member(v: &mut Vec<Member>, name: &str, value: Json)
    ensures
        members(final(v)@) == members(old(v)@).push((name@, tree(value))),
{
    let ghost before = members(v@);
    v.push(Member { name: copy(name), value });
    assert(members(v@) =~= before.push((name@, tree(value))));
}

} // verus!
