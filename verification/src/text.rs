//! Text as sequences of characters: searching, replacing, splitting, joining
//! and ordering, each stated over the characters of its arguments.

use vstd::prelude::*;
use vstd::string::*;

verus! {

/// `String::push` appends one character.
pub assume_specification[ String::push ](s: &mut String, c: char)
    ensures
        final(s)@ == old(s)@.push(c),
;

/// The characters of each string of a list.
pub open spec fn texts(v: Seq<String>) -> Seq<Seq<char>> {
    Seq::new(v.len(), |i: int| v[i]@)
}

pub broadcast proof fn texts_push(v: Seq<String>, s: String)
    ensures
        #[trigger] texts(v.push(s)) == texts(v).push(s@),
{
    assert(texts(v.push(s)) =~= texts(v).push(s@));
}

pub broadcast proof fn texts_add(a: Seq<String>, b: Seq<String>)
    ensures
        #[trigger] texts(a + b) == texts(a) + texts(b),
{
    assert(texts(a + b) =~= texts(a) + texts(b));
}

pub broadcast proof fn texts_empty()
    ensures
        #[trigger] texts(Seq::<String>::empty()) == Seq::<Seq<char>>::empty(),
{
    assert(texts(Seq::<String>::empty()) =~= Seq::<Seq<char>>::empty());
}

pub broadcast group group_texts {
    texts_push,
    texts_add,
    texts_empty,
}

/// The characters of `s`.
pub fn chars_of(s: &str) -> (r: Vec<char>)
    ensures
        r@ == s@,
{
    let mut out: Vec<char> = Vec::new();
    for c in it: s.chars()
        invariant
            out@ == it.seq().take(it.index()),
            it.seq() == s@,
    {
        out.push(c);
    }
    assert(out@ =~= s@);
    out
}

/// The text made of the characters `from..to` of `chars`.
pub fn text_between(chars: &Vec<char>, from: usize, to: usize) -> (r: String)
    requires
        from <= to <= chars.len(),
    ensures
        r@ == chars@.subrange(from as int, to as int),
{
    let mut out = String::new();
    let mut i: usize = from;
    while i < to
        invariant
            from <= i <= to <= chars.len(),
            out@ == chars@.subrange(from as int, i as int),
        decreases to - i,
    {
        out.push(chars[i]);
        i += 1;
        assert(out@ =~= chars@.subrange(from as int, i as int));
    }
    assert(out@ =~= chars@.subrange(from as int, to as int));
    out
}

/// The text made of `chars`.
pub fn text_of(chars: &Vec<char>) -> (r: String)
    ensures
        r@ == chars@,
{
    let out = text_between(chars, 0, chars.len());
    assert(out@ =~= chars@);
    out
}

/// Whether two texts are the same.
pub fn same(a: &str, b: &str) -> (r: bool)
    ensures
        r == (a@ == b@),
{
    let x = a.to_owned();
    let y = b.to_owned();
    x == y
}

/// A copy of `s`.
pub fn copy(s: &str) -> (r: String)
    ensures
        r@ == s@,
{
    s.to_owned()
}

/// A copy of a list of texts.
pub fn copies(v: &Vec<String>) -> (r: Vec<String>)
    ensures
        texts(r@) == texts(v@),
        r@ == v@,
{
    let r = v.clone();
    assert(r@ =~= v@);
    r
}

/// A copy of an optional text.
pub fn copy_option(v: &Option<String>) -> (r: Option<String>)
    ensures
        r == *v,
{
    match v {
        Some(s) => Some(s.clone()),
        None => None,
    }
}

/// Appends copies of `more` to `out`.
pub fn extend(out: &mut Vec<String>, more: &Vec<String>)
    ensures
        texts(final(out)@) == texts(old(out)@) + texts(more@),
{
    broadcast use group_texts;
    let mut tail = copies(more);
    out.append(&mut tail);
}

/// Whether some text of the list is `s`.
pub fn lists(v: &Vec<String>, s: &str) -> (r: bool)
    ensures
        r == texts(v@).contains(s@),
{
    let mut i: usize = 0;
    while i < v.len()
        invariant
            i <= v.len(),
            forall|j: int| 0 <= j < i ==> v[j]@ != s@,
        decreases v.len() - i,
    {
        if same(&v[i], s) {
            assert(texts(v@)[i as int] == s@);
            return true;
        }
        i += 1;
    }
    assert forall|j: int| 0 <= j < texts(v@).len() implies texts(v@)[j] != s@ by {
        assert(v[j]@ != s@);
    }
    false
}

// ---------------------------------------------------------------------------
// Searching and replacing
// ---------------------------------------------------------------------------

/// `p` stands in `s` from position `i` on.
pub open spec fn occurs_at(s: Seq<char>, i: int, p: Seq<char>) -> bool {
    0 <= i && i + p.len() <= s.len() && s.subrange(i, i + p.len()) == p
}

/// `p` stands somewhere in `s`.
pub open spec fn occurs(s: Seq<char>, p: Seq<char>) -> bool {
    exists|i: int| occurs_at(s, i, p)
}

/// `s` begins with `p`.
pub open spec fn begins(s: Seq<char>, p: Seq<char>) -> bool {
    occurs_at(s, 0, p)
}

/// `s` ends with `p`.
pub open spec fn ends(s: Seq<char>, p: Seq<char>) -> bool {
    occurs_at(s, s.len() - p.len(), p)
}

/// `s` with every occurrence of `from`, taken from the left, replaced by `to`.
pub open spec fn replaced(s: Seq<char>, from: Seq<char>, to: Seq<char>) -> Seq<char>
    decreases s.len(),
{
    if s.len() == 0 || from.len() == 0 {
        s
    } else if begins(s, from) {
        to + replaced(s.skip(from.len() as int), from, to)
    } else {
        seq![s[0]] + replaced(s.skip(1), from, to)
    }
}

/// Whether `p` stands in `s` from position `i` on.
pub fn occurs_here(s: &Vec<char>, i: usize, p: &Vec<char>) -> (r: bool)
    ensures
        r == occurs_at(s@, i as int, p@),
{
    if p.len() > s.len() || i > s.len() - p.len() {
        return false;
    }
    let mut k: usize = 0;
    while k < p.len()
        invariant
            k <= p.len(),
            i + p.len() <= s.len(),
            forall|j: int| 0 <= j < k ==> s[i + j] == p[j],
        decreases p.len() - k,
    {
        if s[i + k] != p[k] {
            assert(s@.subrange(i as int, i + p.len())[k as int] != p@[k as int]);
            return false;
        }
        k += 1;
    }
    assert(s@.subrange(i as int, i + p.len()) =~= p@);
    true
}

/// The first position at or after `from` where `p` stands in `s`.
pub fn find_from(s: &Vec<char>, from: usize, p: &Vec<char>) -> (r: Option<usize>)
    requires
        from <= s.len(),
    ensures
        match r {
            Some(i) => from <= i && occurs_at(s@, i as int, p@) && (forall|j: int|
                from <= j < i ==> !occurs_at(s@, j, p@)),
            None => forall|j: int| from <= j ==> !occurs_at(s@, j, p@),
        },
{
    let mut i: usize = from;
    loop
        invariant
            from <= i <= s.len(),
            forall|j: int| from <= j < i ==> !occurs_at(s@, j, p@),
        decreases s.len() - i,
    {
        if occurs_here(s, i, p) {
            return Some(i);
        }
        if i == s.len() {
            return None;
        }
        i += 1;
    }
}

/// Whether `p` stands somewhere in `s`.
pub fn contains(s: &str, p: &str) -> (r: bool)
    ensures
        r == occurs(s@, p@),
{
    let a = chars_of(s);
    let b = chars_of(p);
    match find_from(&a, 0, &b) {
        Some(i) => {
            assert(occurs_at(s@, i as int, p@));
            true
        },
        None => {
            assert forall|i: int| !occurs_at(s@, i, p@) by {
                if 0 <= i {
                    assert(!occurs_at(a@, i, b@));
                }
            }
            false
        },
    }
}

/// Whether `s` begins with `p`.
pub fn starts_with(s: &str, p: &str) -> (r: bool)
    ensures
        r == begins(s@, p@),
{
    let a = chars_of(s);
    let b = chars_of(p);
    occurs_here(&a, 0, &b)
}

/// Whether `s` ends with `p`.
pub fn ends_with(s: &str, p: &str) -> (r: bool)
    ensures
        r == ends(s@, p@),
{
    let a = chars_of(s);
    let b = chars_of(p);
    if b.len() > a.len() {
        return false;
    }
    let at: usize = a.len() - b.len();
    occurs_here(&a, at, &b)
}

/// What is left of `s` behind the prefix `p`; none where `s` does not begin
/// with it.
pub fn strip_prefix(s: &str, p: &str) -> (r: Option<String>)
    ensures
        match r {
            Some(rest) => begins(s@, p@) && rest@ == s@.skip(p@.len() as int),
            None => !begins(s@, p@),
        },
{
    let a = chars_of(s);
    let b = chars_of(p);
    if occurs_here(&a, 0, &b) {
        Some(text_between(&a, b.len(), a.len()))
    } else {
        None
    }
}

/// `s` with every occurrence of `from` replaced by `to`.
pub fn replace(s: &str, from: &str, to: &str) -> (r: String)
    ensures
        r@ == replaced(s@, from@, to@),
{
    let a = chars_of(s);
    let b = chars_of(from);
    if b.len() == 0 {
        return copy(s);
    }
    let mut out = String::new();
    let mut i: usize = 0;
    assert(a@.skip(0) =~= a@);
    assert(out@ + replaced(a@, b@, to@) =~= replaced(a@, b@, to@));
    while i < a.len()
        invariant
            i <= a.len(),
            b.len() > 0,
            out@ + replaced(a@.skip(i as int), b@, to@) == replaced(a@, b@, to@),
        decreases a.len() - i,
    {
        let ghost before = out@;
        let ghost rest = a@.skip(i as int);
        let here = occurs_here(&a, i, &b);
        assert(here == begins(rest, b@)) by {
            if i + b.len() <= a.len() {
                assert(a@.subrange(i as int, i + b.len()) =~= rest.subrange(0, b.len() as int));
            }
        }
        if here {
            out.append(to);
            assert(rest.skip(b.len() as int) =~= a@.skip(i + b.len()));
            assert(before + (to@ + replaced(rest.skip(b.len() as int), b@, to@)) =~= out@
                + replaced(a@.skip(i + b.len()), b@, to@));
            i += b.len();
        } else {
            out.push(a[i]);
            assert(rest.skip(1) =~= a@.skip(i + 1));
            assert(before + (seq![rest[0]] + replaced(rest.skip(1), b@, to@)) =~= out@ + replaced(
                a@.skip(i + 1),
                b@,
                to@,
            ));
            i += 1;
        }
    }
    assert(replaced(a@.skip(i as int), b@, to@) =~= Seq::<char>::empty());
    assert(out@ =~= replaced(a@, b@, to@));
    out
}

// ---------------------------------------------------------------------------
// Splitting and joining
// ---------------------------------------------------------------------------

/// The pieces of `s` between the characters `c`, empty ones included.
pub open spec fn pieces(s: Seq<char>, c: char) -> Seq<Seq<char>>
    decreases s.len(),
{
    if s.len() == 0 {
        seq![Seq::empty()]
    } else {
        let before = pieces(s.drop_last(), c);
        if s.last() == c {
            before.push(Seq::empty())
        } else {
            before.drop_last().push(before.last().push(s.last()))
        }
    }
}

/// The parts one after the other, with `sep` between two of them.
pub open spec fn joined(parts: Seq<Seq<char>>, sep: Seq<char>) -> Seq<char>
    decreases parts.len(),
{
    if parts.len() == 0 {
        Seq::empty()
    } else if parts.len() == 1 {
        parts[0]
    } else {
        joined(parts.drop_last(), sep) + sep + parts.last()
    }
}

pub proof fn pieces_nonempty(s: Seq<char>, c: char)
    ensures
        pieces(s, c).len() > 0,
    decreases s.len(),
{
    if s.len() > 0 {
        pieces_nonempty(s.drop_last(), c);
    }
}

/// Text without `c` is one piece.
pub proof fn pieces_whole(s: Seq<char>, c: char)
    requires
        !s.contains(c),
    ensures
        pieces(s, c) == seq![s],
    decreases s.len(),
{
    if s.len() > 0 {
        let init = s.drop_last();
        assert(s.last() != c) by {
            assert(s[s.len() - 1] == s.last());
        }
        assert(!init.contains(c)) by {
            if init.contains(c) {
                let i = init.index_of(c);
                assert(s[i] == c);
            }
        }
        pieces_whole(init, c);
        assert(init.push(s.last()) =~= s);
        assert(pieces(s, c) =~= seq![s]);
    } else {
        assert(s =~= Seq::empty());
    }
}

/// The pieces of two texts with `c` between them are the pieces of both.
pub proof fn pieces_add(a: Seq<char>, b: Seq<char>, c: char)
    ensures
        pieces(a + seq![c] + b, c) == pieces(a, c) + pieces(b, c),
    decreases b.len(),
{
    let all = a + seq![c] + b;
    pieces_nonempty(b, c);
    if b.len() == 0 {
        assert(all =~= a.push(c));
        assert(all.drop_last() =~= a);
        assert(pieces(all, c) =~= pieces(a, c) + pieces(b, c));
    } else {
        let rest = b.drop_last();
        pieces_nonempty(rest, c);
        pieces_add(a, rest, c);
        assert(all.drop_last() =~= a + seq![c] + rest);
        assert(pieces(all, c) =~= pieces(a, c) + pieces(b, c));
    }
}

/// Splitting what was joined gives the parts back, where none of them holds
/// the separator.
pub proof fn pieces_joined(parts: Seq<Seq<char>>, c: char)
    requires
        parts.len() > 0,
        forall|i: int| 0 <= i < parts.len() ==> !(#[trigger] parts[i]).contains(c),
    ensures
        pieces(joined(parts, seq![c]), c) == parts,
    decreases parts.len(),
{
    if parts.len() == 1 {
        pieces_whole(parts[0], c);
        assert(parts =~= seq![parts[0]]);
    } else {
        let init = parts.drop_last();
        pieces_joined(init, c);
        pieces_whole(parts.last(), c);
        pieces_add(joined(init, seq![c]), parts.last(), c);
        assert(init + seq![parts.last()] =~= parts);
    }
}

/// No piece holds the character that the text was split at.
pub proof fn pieces_without(s: Seq<char>, c: char)
    ensures
        forall|i: int| 0 <= i < pieces(s, c).len() ==> !(#[trigger] pieces(s, c)[i]).contains(c),
    decreases s.len(),
{
    pieces_nonempty(s, c);
    if s.len() > 0 {
        let before = pieces(s.drop_last(), c);
        pieces_nonempty(s.drop_last(), c);
        pieces_without(s.drop_last(), c);
        assert forall|i: int| 0 <= i < pieces(s, c).len() implies !(#[trigger] pieces(
            s,
            c,
        )[i]).contains(c) by {
            let p = pieces(s, c)[i];
            if s.last() == c {
                if i < before.len() {
                    assert(p == before[i]);
                }
            } else if i < before.len() - 1 {
                assert(p == before[i]);
            } else {
                let q = before[i];
                assert(p == q.push(s.last()));
                if p.contains(c) {
                    let k = p.index_of(c);
                    assert(q[k] == c);
                }
            }
        }
    }
}

/// What stands in a piece stands in the text.
pub proof fn pieces_from(s: Seq<char>, c: char, i: int, d: char)
    requires
        0 <= i < pieces(s, c).len(),
        pieces(s, c)[i].contains(d),
    ensures
        s.contains(d),
    decreases s.len(),
{
    pieces_nonempty(s, c);
    if s.len() > 0 {
        let init = s.drop_last();
        pieces_nonempty(init, c);
        let before = pieces(init, c);
        let p = pieces(s, c)[i];
        if i < before.len() && before[i].contains(d) {
            pieces_from(init, c, i, d);
            let k = init.index_of(d);
            assert(s[k] == d);
        } else {
            let k = p.index_of(d);
            assert(p[k] == d);
            if k < p.len() - 1 {
                assert(before[i][k] == d);
            }
            assert(s[s.len() - 1] == d);
        }
    }
}

/// What stands in joined parts stands in a part or in the separator.
pub proof fn joined_from(parts: Seq<Seq<char>>, sep: Seq<char>, d: char)
    requires
        joined(parts, sep).contains(d),
        !sep.contains(d),
    ensures
        exists|i: int| 0 <= i < parts.len() && (#[trigger] parts[i]).contains(d),
    decreases parts.len(),
{
    if parts.len() == 1 {
        assert(parts[0].contains(d));
    } else if parts.len() > 1 {
        let init = parts.drop_last();
        let head = joined(init, sep);
        let all = head + sep + parts.last();
        let k = all.index_of(d);
        if k < head.len() {
            assert(head[k] == d);
            joined_from(init, sep, d);
            let i = choose|i: int| 0 <= i < init.len() && (#[trigger] init[i]).contains(d);
            assert(parts[i].contains(d));
        } else if k < head.len() + sep.len() {
            assert(sep[k - head.len()] == d);
        } else {
            assert(parts.last()[k - head.len() - sep.len()] == d);
            assert(parts[parts.len() - 1].contains(d));
        }
    }
}

/// Splits `s` at every `c`.
pub fn split(s: &str, c: char) -> (r: Vec<String>)
    ensures
        texts(r@) == pieces(s@, c),
{
    broadcast use group_texts;
    let a = chars_of(s);
    let mut out: Vec<String> = Vec::new();
    let mut start: usize = 0;
    let mut i: usize = 0;
    assert(a@.take(0) =~= Seq::empty());
    assert(texts(out@).push(a@.subrange(0, 0)) =~= pieces(a@.take(0), c));
    while i < a.len()
        invariant
            start <= i <= a.len(),
            texts(out@).push(a@.subrange(start as int, i as int)) == pieces(a@.take(i as int), c),
        decreases a.len() - i,
    {
        let ghost before = pieces(a@.take(i as int), c);
        assert(a@.take(i + 1).drop_last() =~= a@.take(i as int));
        if a[i] == c {
            out.push(text_between(&a, start, i));
            start = i + 1;
            assert(a@.subrange(i + 1, i + 1) =~= Seq::empty());
            assert(texts(out@) =~= before);
        } else {
            assert(before.drop_last() =~= texts(out@));
            assert(before.last().push(a[i as int]) =~= a@.subrange(start as int, i + 1));
        }
        i += 1;
    }
    assert(a@.take(i as int) =~= a@);
    out.push(text_between(&a, start, a.len()));
    out
}

/// The parts one after the other, with `sep` between two of them.
pub fn join(parts: &Vec<String>, sep: &str) -> (r: String)
    ensures
        r@ == joined(texts(parts@), sep@),
{
    let mut out = String::new();
    if parts.len() == 0 {
        return out;
    }
    out.append(&parts[0]);
    let mut i: usize = 1;
    assert(out@ =~= joined(texts(parts@).take(1), sep@));
    while i < parts.len()
        invariant
            1 <= i <= parts.len(),
            out@ == joined(texts(parts@).take(i as int), sep@),
        decreases parts.len() - i,
    {
        out.append(sep);
        out.append(&parts[i]);
        assert(texts(parts@).take(i + 1).drop_last() =~= texts(parts@).take(i as int));
        i += 1;
    }
    assert(texts(parts@).take(i as int) =~= texts(parts@));
    out
}

/// The position of the first `c`; the length of `s` where there is none.
pub open spec fn first_at(s: Seq<char>, c: char) -> int
    decreases s.len(),
{
    if s.len() == 0 || s[0] == c {
        0
    } else {
        1 + first_at(s.skip(1), c)
    }
}

/// The position of the last `c`; -1 where there is none.
pub open spec fn last_at(s: Seq<char>, c: char) -> int
    decreases s.len(),
{
    if s.len() == 0 {
        -1
    } else if s.last() == c {
        s.len() - 1
    } else {
        last_at(s.drop_last(), c)
    }
}

/// What `first_at` means.
pub proof fn first_at_means(s: Seq<char>, c: char)
    ensures
        0 <= first_at(s, c) <= s.len(),
        first_at(s, c) < s.len() ==> s[first_at(s, c)] == c,
        forall|i: int| 0 <= i < first_at(s, c) ==> s[i] != c,
    decreases s.len(),
{
    if s.len() > 0 && s[0] != c {
        let t = s.skip(1);
        first_at_means(t, c);
        assert forall|i: int| 0 <= i < first_at(s, c) implies s[i] != c by {
            if i > 0 {
                assert(t[i - 1] == s[i]);
            }
        }
    }
}

/// What `last_at` means.
pub proof fn last_at_means(s: Seq<char>, c: char)
    ensures
        -1 <= last_at(s, c) < s.len(),
        last_at(s, c) >= 0 ==> s[last_at(s, c)] == c,
        forall|i: int| last_at(s, c) < i < s.len() ==> s[i] != c,
    decreases s.len(),
{
    if s.len() > 0 && s.last() != c {
        let t = s.drop_last();
        last_at_means(t, c);
        assert forall|i: int| last_at(s, c) < i < s.len() implies s[i] != c by {
            if i < t.len() {
                assert(t[i] == s[i]);
            }
        }
    }
}

/// A position with nothing but other characters before it, holding `c` or
/// ending the text, is the first.
pub proof fn first_at_is(s: Seq<char>, c: char, k: int)
    requires
        0 <= k <= s.len(),
        k < s.len() ==> s[k] == c,
        forall|i: int| 0 <= i < k ==> s[i] != c,
    ensures
        first_at(s, c) == k,
{
    first_at_means(s, c);
}

/// A position with nothing but other characters behind it, holding `c` or
/// standing before the text, is the last.
pub proof fn last_at_is(s: Seq<char>, c: char, k: int)
    requires
        -1 <= k < s.len(),
        k >= 0 ==> s[k] == c,
        forall|i: int| k < i < s.len() ==> s[i] != c,
    ensures
        last_at(s, c) == k,
{
    last_at_means(s, c);
}

/// Cuts `s` at its first `c`.
pub fn split_once(s: &str, c: char) -> (r: Option<(String, String)>)
    ensures
        match r {
            Some(cut) => first_at(s@, c) < s@.len() && cut.0@ == s@.take(first_at(s@, c))
                && cut.1@ == s@.skip(first_at(s@, c) + 1),
            None => first_at(s@, c) == s@.len(),
        },
{
    let a = chars_of(s);
    let mut i: usize = 0;
    while i < a.len()
        invariant
            i <= a.len(),
            a@ == s@,
            forall|j: int| 0 <= j < i ==> a[j] != c,
        decreases a.len() - i,
    {
        if a[i] == c {
            proof {
                first_at_is(s@, c, i as int);
            }
            return Some((text_between(&a, 0, i), text_between(&a, i + 1, a.len())));
        }
        i += 1;
    }
    proof {
        first_at_is(s@, c, i as int);
    }
    None
}

/// Cuts `s` at its last `c`.
pub fn rsplit_once(s: &str, c: char) -> (r: Option<(String, String)>)
    ensures
        match r {
            Some(cut) => last_at(s@, c) >= 0 && cut.0@ == s@.take(last_at(s@, c)) && cut.1@
                == s@.skip(last_at(s@, c) + 1),
            None => last_at(s@, c) == -1,
        },
{
    let a = chars_of(s);
    let mut i: usize = a.len();
    while i > 0
        invariant
            i <= a.len(),
            a@ == s@,
            forall|j: int| i <= j < a.len() ==> a[j] != c,
        decreases i,
    {
        i -= 1;
        if a[i] == c {
            proof {
                last_at_is(s@, c, i as int);
            }
            return Some((text_between(&a, 0, i), text_between(&a, i + 1, a.len())));
        }
    }
    proof {
        last_at_is(s@, c, -1);
    }
    None
}

// ---------------------------------------------------------------------------
// White space
// ---------------------------------------------------------------------------

/// The characters with Unicode's property `White_Space`.
pub open spec fn is_space(c: char) -> bool {
    ||| '\u{9}' <= c <= '\u{d}'
    ||| c == ' '
    ||| c == '\u{85}'
    ||| c == '\u{a0}'
    ||| c == '\u{1680}'
    ||| '\u{2000}' <= c <= '\u{200a}'
    ||| c == '\u{2028}'
    ||| c == '\u{2029}'
    ||| c == '\u{202f}'
    ||| c == '\u{205f}'
    ||| c == '\u{3000}'
}

/// Whether `c` is white space.
pub fn space(c: char) -> (r: bool)
    ensures
        r == is_space(c),
{
    ('\u{9}' <= c && c <= '\u{d}') || c == ' ' || c == '\u{85}' || c == '\u{a0}' || c
        == '\u{1680}' || ('\u{2000}' <= c && c <= '\u{200a}') || c == '\u{2028}' || c
        == '\u{2029}' || c == '\u{202f}' || c == '\u{205f}' || c == '\u{3000}'
}

/// `s` from its first character that is no white space on.
pub open spec fn trimmed_start(s: Seq<char>) -> Seq<char>
    decreases s.len(),
{
    if s.len() > 0 && is_space(s[0]) {
        trimmed_start(s.skip(1))
    } else {
        s
    }
}

/// `s` up to its last character that is no white space.
pub open spec fn trimmed_end(s: Seq<char>) -> Seq<char>
    decreases s.len(),
{
    if s.len() > 0 && is_space(s.last()) {
        trimmed_end(s.drop_last())
    } else {
        s
    }
}

/// `s` without the white space at its two ends.
pub open spec fn trimmed(s: Seq<char>) -> Seq<char> {
    trimmed_end(trimmed_start(s))
}

/// `s` without the white space at its beginning.
pub fn trim_start(s: &str) -> (r: String)
    ensures
        r@ == trimmed_start(s@),
{
    let a = chars_of(s);
    let mut i: usize = 0;
    assert(a@.skip(0) =~= a@);
    while i < a.len() && space(a[i])
        invariant
            i <= a.len(),
            trimmed_start(a@.skip(i as int)) == trimmed_start(a@),
        decreases a.len() - i,
    {
        assert(a@.skip(i as int).skip(1) =~= a@.skip(i + 1));
        i += 1;
    }
    text_between(&a, i, a.len())
}

/// `s` without the white space at its end.
pub fn trim_end(s: &str) -> (r: String)
    ensures
        r@ == trimmed_end(s@),
{
    let a = chars_of(s);
    let mut i: usize = a.len();
    assert(a@.take(i as int) =~= a@);
    while i > 0 && space(a[i - 1])
        invariant
            i <= a.len(),
            trimmed_end(a@.take(i as int)) == trimmed_end(a@),
        decreases i,
    {
        assert(a@.take(i as int).drop_last() =~= a@.take(i - 1));
        i -= 1;
    }
    text_between(&a, 0, i)
}

/// `s` without the white space at its two ends.
pub fn trim(s: &str) -> (r: String)
    ensures
        r@ == trimmed(s@),
{
    trim_end(&trim_start(s))
}

/// The words of `s`: its longest runs without white space, the last of them
/// still open where `s` does not end in white space.
pub open spec fn words(s: Seq<char>) -> Seq<Seq<char>>
    decreases s.len(),
{
    if s.len() == 0 {
        Seq::empty()
    } else {
        let before = words(s.drop_last());
        if is_space(s.last()) {
            before
        } else if s.len() == 1 || is_space(s[s.len() - 2]) {
            before.push(seq![s.last()])
        } else {
            before.drop_last().push(before.last().push(s.last()))
        }
    }
}

/// The words of `s`.
pub fn split_whitespace(s: &str) -> (r: Vec<String>)
    ensures
        texts(r@) == words(s@),
{
    broadcast use group_texts;
    let a = chars_of(s);
    let mut out: Vec<String> = Vec::new();
    let mut start: usize = 0;
    let mut i: usize = 0;
    assert(texts(out@) =~= words(a@.take(0)));
    while i < a.len()
        invariant
            start <= i <= a.len(),
            start < i ==> !is_space(a[i - 1]),
            start == i && i > 0 ==> is_space(a[i - 1]),
            start == i ==> texts(out@) == words(a@.take(i as int)),
            start < i ==> texts(out@).push(a@.subrange(start as int, i as int)) == words(
                a@.take(i as int),
            ),
        decreases a.len() - i,
    {
        let ghost next = a@.take(i + 1);
        assert(next.drop_last() =~= a@.take(i as int));
        assert(i > 0 ==> next[next.len() - 2] == a[i - 1]);
        if space(a[i]) {
            if start < i {
                out.push(text_between(&a, start, i));
            }
            start = i + 1;
        } else if start < i {
            let ghost before = words(a@.take(i as int));
            assert(before.drop_last() =~= texts(out@));
            assert(before.last().push(a[i as int]) =~= a@.subrange(start as int, i + 1));
        } else {
            assert(seq![a[i as int]] =~= a@.subrange(start as int, i + 1));
        }
        i += 1;
    }
    assert(a@.take(i as int) =~= a@);
    if start < i {
        out.push(text_between(&a, start, i));
    }
    out
}

/// The lines of `s`: the pieces between its line feeds, without a last empty
/// one, and each without the carriage return before its line feed.
pub open spec fn lines_of(s: Seq<char>) -> Seq<Seq<char>> {
    let all = pieces(s, '\n');
    let ended = Seq::new((all.len() - 1) as nat, |i: int| without_return(all[i]));
    if all.last().len() == 0 {
        ended
    } else {
        ended.push(all.last())
    }
}

/// `s` without one carriage return at its end.
pub open spec fn without_return(s: Seq<char>) -> Seq<char> {
    if s.len() > 0 && s.last() == '\r' {
        s.drop_last()
    } else {
        s
    }
}

/// The lines of `s`.
pub fn lines(s: &str) -> (r: Vec<String>)
    ensures
        texts(r@) == lines_of(s@),
{
    broadcast use group_texts;
    let all = split(s, '\n');
    proof {
        pieces_nonempty(s@, '\n');
        assert(texts(all@).len() == all@.len());
    }
    let mut out: Vec<String> = Vec::new();
    let mut i: usize = 0;
    while i < all.len() - 1
        invariant
            i <= all.len() - 1,
            texts(all@) == pieces(s@, '\n'),
            texts(out@) =~= Seq::new(i as nat, |j: int| without_return(pieces(s@, '\n')[j])),
        decreases all.len() - i,
    {
        let a = chars_of(&all[i]);
        let ghost done = texts(out@);
        assert(a@ == pieces(s@, '\n')[i as int]) by {
            assert(texts(all@)[i as int] == a@);
        }
        if a.len() > 0 && a[a.len() - 1] == '\r' {
            out.push(text_between(&a, 0, a.len() - 1));
            assert(a@.subrange(0, a.len() - 1) =~= a@.drop_last());
        } else {
            out.push(text_of(&a));
        }
        assert(texts(out@) == done.push(without_return(a@)));
        i += 1;
    }
    assert(all[i as int]@ == texts(all@)[i as int]);
    if !all[i].as_str().is_empty() {
        out.push(copy(&all[i]));
    }
    out
}

// ---------------------------------------------------------------------------
// Order
// ---------------------------------------------------------------------------

/// `a` stands before `b` in the order by characters, which for valid texts is
/// the order by bytes too.
pub open spec fn before(a: Seq<char>, b: Seq<char>) -> bool
    decreases a.len(),
{
    if b.len() == 0 {
        false
    } else if a.len() == 0 {
        true
    } else {
        a[0] < b[0] || (a[0] == b[0] && before(a.skip(1), b.skip(1)))
    }
}

pub proof fn before_irreflexive(a: Seq<char>)
    ensures
        !before(a, a),
    decreases a.len(),
{
    if a.len() > 0 {
        before_irreflexive(a.skip(1));
    }
}

pub proof fn before_transitive(a: Seq<char>, b: Seq<char>, c: Seq<char>)
    requires
        before(a, b),
        before(b, c),
    ensures
        before(a, c),
    decreases a.len(),
{
    if a.len() > 0 && a[0] == b[0] && b[0] == c[0] {
        before_transitive(a.skip(1), b.skip(1), c.skip(1));
    }
}

pub proof fn before_total(a: Seq<char>, b: Seq<char>)
    ensures
        before(a, b) || before(b, a) || a == b,
    decreases a.len(),
{
    if a.len() > 0 && b.len() > 0 && a[0] == b[0] {
        before_total(a.skip(1), b.skip(1));
        if a.skip(1) == b.skip(1) {
            assert(a =~= seq![a[0]] + a.skip(1));
            assert(b =~= seq![b[0]] + b.skip(1));
        }
    } else if a.len() == 0 && b.len() == 0 {
        assert(a =~= b);
    }
}

/// Whether `a` stands before `b`.
pub fn precedes(a: &str, b: &str) -> (r: bool)
    ensures
        r == before(a@, b@),
{
    let x = chars_of(a);
    let y = chars_of(b);
    let mut i: usize = 0;
    assert(x@.skip(0) =~= x@);
    assert(y@.skip(0) =~= y@);
    while i < x.len() && i < y.len() && x[i] == y[i]
        invariant
            i <= x.len(),
            i <= y.len(),
            before(x@.skip(i as int), y@.skip(i as int)) == before(x@, y@),
        decreases x.len() - i,
    {
        assert(x@.skip(i as int).skip(1) =~= x@.skip(i + 1));
        assert(y@.skip(i as int).skip(1) =~= y@.skip(i + 1));
        i += 1;
    }
    if i >= y.len() {
        false
    } else if i >= x.len() {
        true
    } else {
        x[i] < y[i]
    }
}

// ---------------------------------------------------------------------------
// Numbers and letters
// ---------------------------------------------------------------------------

/// The decimal digit for `d`.
pub open spec fn digit(d: nat) -> char {
    (48 + d) as u8 as char
}

/// The decimal digits of `n`.
pub open spec fn decimal(n: nat) -> Seq<char>
    decreases n,
{
    if n < 10 {
        seq![digit(n)]
    } else {
        decimal(n / 10).push(digit(n % 10))
    }
}

/// The decimal digits of `n`.
pub fn number(n: u128) -> (r: String)
    ensures
        r@ == decimal(n as nat),
    decreases n,
{
    let mut out = if n < 10 {
        String::new()
    } else {
        number(n / 10)
    };
    let d: u8 = 48 + (n % 10) as u8;
    out.push(d as char);
    assert(out@ =~= decimal(n as nat));
    out
}

/// A decimal digit.
pub open spec fn is_digit(c: char) -> bool {
    '0' <= c <= '9'
}

/// The number that decimal digits write; none where there are other
/// characters or none at all.
pub open spec fn digits_value(s: Seq<char>) -> Option<nat>
    decreases s.len(),
{
    if s.len() == 0 || !is_digit(s.last()) {
        None
    } else {
        let d = (s.last() as u8 - 48) as nat;
        if s.len() == 1 {
            Some(d)
        } else {
            match digits_value(s.drop_last()) {
                Some(n) => Some(10 * n + d),
                None => None,
            }
        }
    }
}

/// The number up to `limit` that a text writes, with or without a plus sign.
pub open spec fn parsed(s: Seq<char>, limit: nat) -> Option<nat> {
    let digits = if s.len() > 0 && s[0] == '+' {
        s.skip(1)
    } else {
        s
    };
    match digits_value(digits) {
        Some(n) => if n <= limit {
            Some(n)
        } else {
            None
        },
        None => None,
    }
}

/// Longer texts of digits write larger numbers.
proof fn digits_grow(s: Seq<char>, k: int)
    requires
        0 < k <= s.len(),
        digits_value(s) is Some,
    ensures
        digits_value(s.take(k)) is Some,
        digits_value(s.take(k))->0 <= digits_value(s)->0,
    decreases s.len() - k,
{
    if k < s.len() {
        digits_grow(s, k + 1);
        assert(s.take(k + 1).drop_last() =~= s.take(k));
    } else {
        assert(s.take(k) =~= s);
    }
}

/// A number written in digits is read back.
pub proof fn decimal_read_back(n: nat)
    ensures
        digits_value(decimal(n)) == Some(n),
        decimal(n).len() > 0,
        decimal(n)[0] != '+',
    decreases n,
{
    let d = n % 10;
    assert(digit(d) as u8 == 48 + d);
    assert(is_digit(digit(d)));
    if n >= 10 {
        decimal_read_back(n / 10);
        assert(decimal(n).drop_last() =~= decimal(n / 10));
        assert(decimal(n)[0] == decimal(n / 10)[0]);
    } else {
        assert(decimal(n).last() == digit(d));
    }
}

/// The `u64` that a text writes, with or without a plus sign.
pub fn parse_u64(s: &str) -> (r: Option<u64>)
    ensures
        match r {
            Some(n) => parsed(s@, u64::MAX as nat) == Some(n as nat),
            None => parsed(s@, u64::MAX as nat) == None::<nat>,
        },
{
    let a = chars_of(s);
    let from: usize = if a.len() > 0 && a[0] == '+' {
        1
    } else {
        0
    };
    let ghost digits = a@.skip(from as int);
    assert(from == 0 ==> digits =~= s@);
    if from == a.len() {
        return None;
    }
    let mut n: u64 = 0;
    let mut i: usize = from;
    while i < a.len()
        invariant
            from <= i <= a.len(),
            from < a.len(),
            digits == a@.skip(from as int),
            digits == (if s@.len() > 0 && s@[0] == '+' {
                s@.skip(1)
            } else {
                s@
            }),
            i == from ==> n == 0,
            i > from ==> digits_value(digits.take(i - from)) == Some(n as nat),
        decreases a.len() - i,
    {
        let c = a[i];
        let ghost next = digits.take(i + 1 - from);
        assert(next.last() == c);
        assert(next.drop_last() =~= digits.take(i - from));
        if !('0' <= c && c <= '9') {
            proof {
                if digits_value(digits) is Some {
                    digits_grow(digits, i + 1 - from);
                }
            }
            return None;
        }
        let d: u64 = (c as u8 - 48) as u64;
        if n > 1844674407370955161 || (n == 1844674407370955161 && d > 5) {
            proof {
                assert(digits_value(next) == Some((10 * n + d) as nat));
                if digits_value(digits) is Some {
                    digits_grow(digits, i + 1 - from);
                }
            }
            return None;
        }
        n = 10 * n + d;
        i += 1;
    }
    assert(digits.take(i - from) =~= digits);
    Some(n)
}

/// An ASCII letter or digit.
pub open spec fn is_alphanumeric(c: char) -> bool {
    'a' <= c <= 'z' || 'A' <= c <= 'Z' || '0' <= c <= '9'
}

/// Whether `c` is an ASCII letter or digit.
pub fn alphanumeric(c: char) -> (r: bool)
    ensures
        r == is_alphanumeric(c),
{
    ('a' <= c && c <= 'z') || ('A' <= c && c <= 'Z') || ('0' <= c && c <= '9')
}

/// The ASCII lower case of a character.
pub open spec fn lower_char(c: char) -> char {
    if 'A' <= c <= 'Z' {
        (c as u8 + 32) as u8 as char
    } else {
        c
    }
}

/// `s` with its ASCII letters in lower case.
pub open spec fn lower(s: Seq<char>) -> Seq<char> {
    Seq::new(s.len(), |i: int| lower_char(s[i]))
}

/// `s` with its ASCII letters in lower case.
pub fn lowercase(s: &str) -> (r: String)
    ensures
        r@ == lower(s@),
{
    let a = chars_of(s);
    let mut out = String::new();
    let mut i: usize = 0;
    while i < a.len()
        invariant
            i <= a.len(),
            out@ =~= lower(a@).take(i as int),
        decreases a.len() - i,
    {
        let c = a[i];
        if 'A' <= c && c <= 'Z' {
            let small: u8 = c as u8 + 32;
            out.push(small as char);
        } else {
            out.push(c);
        }
        i += 1;
    }
    assert(out@ =~= lower(a@));
    out
}

/// The ASCII upper case of a character.
pub open spec fn upper_char(c: char) -> char {
    if 'a' <= c <= 'z' {
        (c as u8 - 32) as u8 as char
    } else {
        c
    }
}

/// `s` with its ASCII letters in upper case.
pub open spec fn upper(s: Seq<char>) -> Seq<char> {
    Seq::new(s.len(), |i: int| upper_char(s[i]))
}

/// `s` with its ASCII letters in upper case.
pub fn uppercase(s: &str) -> (r: String)
    ensures
        r@ == upper(s@),
{
    let a = chars_of(s);
    let mut out = String::new();
    let mut i: usize = 0;
    while i < a.len()
        invariant
            i <= a.len(),
            out@ =~= upper(a@).take(i as int),
        decreases a.len() - i,
    {
        let c = a[i];
        if 'a' <= c && c <= 'z' {
            let large: u8 = c as u8 - 32;
            out.push(large as char);
        } else {
            out.push(c);
        }
        i += 1;
    }
    assert(out@ =~= upper(a@));
    out
}

/// `n` spaces.
pub open spec fn spaces(n: int) -> Seq<char> {
    Seq::new(
        if n < 0 {
            0
        } else {
            n as nat
        },
        |i: int| ' ',
    )
}

/// `s` with spaces before it up to `width` characters.
pub open spec fn padded_left(s: Seq<char>, width: int) -> Seq<char> {
    spaces(width - s.len()) + s
}

/// `s` with spaces behind it up to `width` characters.
pub open spec fn padded_right(s: Seq<char>, width: int) -> Seq<char> {
    s + spaces(width - s.len())
}

fn blanks(n: usize) -> (r: String)
    ensures
        r@ == spaces(n as int),
{
    let mut out = String::new();
    let mut i: usize = 0;
    while i < n
        invariant
            i <= n,
            out@ =~= spaces(i as int),
        decreases n - i,
    {
        out.push(' ');
        i += 1;
    }
    out
}

/// `s` with spaces before it up to `width` characters.
pub fn pad_left(s: &str, width: usize) -> (r: String)
    ensures
        r@ == padded_left(s@, width as int),
{
    let n: usize = chars_of(s).len();
    let mut out = if n < width {
        blanks(width - n)
    } else {
        String::new()
    };
    assert(out@ =~= spaces(width - s@.len()));
    out.append(s);
    out
}

/// `s` with spaces behind it up to `width` characters.
pub fn pad_right(s: &str, width: usize) -> (r: String)
    ensures
        r@ == padded_right(s@, width as int),
{
    let n: usize = chars_of(s).len();
    let mut out = copy(s);
    if n < width {
        out.append(&blanks(width - n));
    } else {
        assert(spaces(width - s@.len()) =~= Seq::empty());
        assert(out@ =~= padded_right(s@, width as int));
    }
    out
}

/// A text as Rust's `{:?}` writes it: in quotes, with escapes.
pub uninterp spec fn debug_text(s: Seq<char>) -> Seq<char>;

/// `std::fmt::Debug` of `str`, through `format!`: the text in quotes, with its
/// special characters escaped. The result depends on the text alone; which
/// characters it escapes is not stated.
#[verifier::external_body]
pub(crate) fn quoted(s: &str) -> (r: String)
    ensures
        r@ == debug_text(s@),
{
    format!("{s:?}")
}

/// What stands behind the first occurrence is replaced on its own.
pub proof fn replaced_behind(p: Seq<char>, from: Seq<char>, q: Seq<char>, to: Seq<char>)
    requires
        from.len() > 0,
        !p.contains(from[0]),
    ensures
        replaced(p + from + q, from, to) == p + to + replaced(q, from, to),
    decreases p.len(),
{
    let s = p + from + q;
    if p.len() == 0 {
        assert(s.subrange(0, from.len() as int) =~= from);
        assert(s.skip(from.len() as int) =~= q);
        assert(p + to + replaced(q, from, to) =~= to + replaced(q, from, to));
    } else {
        let rest = p.skip(1);
        assert(s[0] == p[0] && p.contains(p[0]));
        if begins(s, from) {
            assert(s.subrange(0, from.len() as int)[0] == s[0]);
        }
        assert forall|i: int| 0 <= i < rest.len() implies rest[i] != from[0] by {
            assert(p[i + 1] == rest[i] && p.contains(p[i + 1]));
        }
        replaced_behind(rest, from, q, to);
        assert(s.skip(1) =~= rest + from + q);
        assert(seq![s[0]] + (rest + to + replaced(q, from, to)) =~= p + to + replaced(q, from, to));
    }
}

/// A text without the first character of what is replaced stays as it is.
pub proof fn replaced_nowhere(s: Seq<char>, from: Seq<char>, to: Seq<char>)
    requires
        from.len() > 0,
        !s.contains(from[0]),
    ensures
        replaced(s, from, to) == s,
    decreases s.len(),
{
    if s.len() > 0 {
        let rest = s.skip(1);
        assert(s.contains(s[0]));
        if begins(s, from) {
            assert(s.subrange(0, from.len() as int)[0] == s[0]);
        }
        assert forall|i: int| 0 <= i < rest.len() implies rest[i] != from[0] by {
            assert(s[i + 1] == rest[i] && s.contains(s[i + 1]));
        }
        replaced_nowhere(rest, from, to);
        assert(seq![s[0]] + rest =~= s);
    }
}

// ---------------------------------------------------------------------------
// What the cutting of texts keeps
// ---------------------------------------------------------------------------

proof fn trimmed_start_means(s: Seq<char>) -> (a: Seq<char>)
    ensures
        s == a + trimmed_start(s),
        forall|i: int| 0 <= i < a.len() ==> is_space(#[trigger] a[i]),
        trimmed_start(s).len() > 0 ==> !is_space(trimmed_start(s)[0]),
    decreases s.len(),
{
    if s.len() > 0 && is_space(s[0]) {
        let a = trimmed_start_means(s.skip(1));
        let all = seq![s[0]] + a;
        assert(s =~= seq![s[0]] + s.skip(1));
        assert(s =~= all + trimmed_start(s));
        all
    } else {
        assert(s =~= Seq::<char>::empty() + s);
        Seq::empty()
    }
}

proof fn trimmed_end_means(s: Seq<char>) -> (b: Seq<char>)
    ensures
        s == trimmed_end(s) + b,
        forall|i: int| 0 <= i < b.len() ==> is_space(#[trigger] b[i]),
        trimmed_end(s).len() > 0 ==> !is_space(trimmed_end(s).last()),
    decreases s.len(),
{
    if s.len() > 0 && is_space(s.last()) {
        let b = trimmed_end_means(s.drop_last());
        let all = b.push(s.last());
        assert(s =~= s.drop_last().push(s.last()));
        assert(s =~= trimmed_end(s) + all);
        all
    } else {
        assert(s =~= s + Seq::<char>::empty());
        Seq::empty()
    }
}

/// Trimming takes white space from both ends, all of it and nothing else.
pub proof fn trimmed_is_the_middle(s: &str, r: String) -> (ends: (Seq<char>, Seq<char>))
    requires
        call_ensures(trim, (s,), r),
    ensures
        s@ == ends.0 + r@ + ends.1,
        forall|i: int| 0 <= i < ends.0.len() ==> is_space(#[trigger] ends.0[i]),
        forall|i: int| 0 <= i < ends.1.len() ==> is_space(#[trigger] ends.1[i]),
        r@.len() > 0 ==> !is_space(r@[0]) && !is_space(r@.last()),
{
    let a = trimmed_start_means(s@);
    let b = trimmed_end_means(trimmed_start(s@));
    assert(s@ =~= a + r@ + b);
    if r@.len() > 0 {
        assert(trimmed_start(s@)[0] == r@[0]);
    }
    (a, b)
}

/// Lines that are each ended are read back as they were.
pub proof fn lines_read_back(parts: Seq<Seq<char>>)
    requires
        parts.len() > 0,
        forall|i: int|
            0 <= i < parts.len() ==> !(#[trigger] parts[i]).contains('\n') && !(parts[i].len() > 0
                && parts[i].last() == '\r'),
    ensures
        lines_of(joined(parts, "\n"@) + "\n"@) == parts,
{
    reveal_strlit("\n");
    let more = parts.push(Seq::empty());
    assert(more.drop_last() =~= parts);
    assert(joined(more, "\n"@) =~= joined(parts, "\n"@) + "\n"@);
    assert("\n"@ =~= seq!['\n']);
    assert forall|i: int| 0 <= i < more.len() implies !(#[trigger] more[i]).contains('\n') by {
        if i < parts.len() {
            assert(more[i] == parts[i]);
        }
    }
    pieces_joined(more, '\n');
    assert(pieces(joined(parts, "\n"@) + "\n"@, '\n') == more);
    assert(lines_of(joined(parts, "\n"@) + "\n"@) =~= parts);
}

/// Joining puts every part behind the one before it, with the separator between
/// them.
pub proof fn joined_one_by_one(
    parts: Vec<String>,
    more: Vec<String>,
    sep: &str,
    r: String,
    s: String,
)
    requires
        call_ensures(join, (&parts, sep), r),
        call_ensures(join, (&more, sep), s),
        more@.len() == parts@.len() + 1,
        texts(more@).drop_last() == texts(parts@),
    ensures
        parts@.len() == 0 ==> r@.len() == 0 && s@ == more@[0]@,
        parts@.len() > 0 ==> s@ == r@ + sep@ + more@.last()@,
{
    assert(texts(more@).len() == more@.len());
    assert(texts(parts@).len() == parts@.len());
    assert(texts(more@).last() == more@.last()@);
    assert(texts(more@)[0] == more@[0]@);
}

proof fn open_word(s: Seq<char>)
    ensures
        s.len() > 0 && !is_space(s.last()) ==> words(s).len() > 0,
    decreases s.len(),
{
    if s.len() > 1 && !is_space(s.last()) && !is_space(s[s.len() - 2]) {
        assert(s.drop_last().last() == s[s.len() - 2]);
        open_word(s.drop_last());
    }
}

proof fn words_apart(a: Seq<char>, c: char, b: Seq<char>)
    requires
        is_space(c),
    ensures
        words(a + seq![c] + b) == words(a) + words(b),
    decreases b.len(),
{
    let all = a + seq![c] + b;
    if b.len() == 0 {
        assert(all.last() == c);
        assert(all.drop_last() =~= a);
        assert(words(a) + words(b) =~= words(a));
    } else {
        let rest = b.drop_last();
        words_apart(a, c, rest);
        assert(all.drop_last() =~= a + seq![c] + rest);
        assert(all.last() == b.last());
        if !is_space(b.last()) {
            if b.len() == 1 {
                assert(all[all.len() - 2] == c);
                assert(rest =~= Seq::empty());
                assert(words(rest) =~= Seq::empty());
                assert(words(all) =~= words(a) + words(b));
            } else {
                assert(all[all.len() - 2] == b[b.len() - 2]);
                if is_space(b[b.len() - 2]) {
                    assert(words(all) =~= words(a) + words(b));
                } else {
                    assert(rest.last() == b[b.len() - 2]);
                    open_word(rest);
                    let before = words(a) + words(rest);
                    assert(before.last() == words(rest).last());
                    assert(before.drop_last() =~= words(a) + words(rest).drop_last());
                    assert(words(all) =~= words(a) + words(b));
                }
            }
        } else {
            assert(words(all) == words(all.drop_last()));
        }
    }
}

proof fn whole_word(s: Seq<char>)
    requires
        s.len() > 0,
        forall|i: int| 0 <= i < s.len() ==> !is_space(#[trigger] s[i]),
    ensures
        words(s) == seq![s],
    decreases s.len(),
{
    if s.len() == 1 {
        assert(s.drop_last() =~= Seq::empty());
        assert(words(s.drop_last()) =~= Seq::empty());
        assert(seq![s.last()] =~= s);
        assert(words(s) =~= seq![s]);
    } else {
        let rest = s.drop_last();
        assert forall|i: int| 0 <= i < rest.len() implies !is_space(#[trigger] rest[i]) by {
            assert(rest[i] == s[i]);
        }
        whole_word(rest);
        assert(!is_space(s[s.len() - 2]));
        assert(words(rest).last().push(s.last()) =~= s);
        assert(words(s) =~= seq![s]);
    }
}

/// White space parts words: what stands on its two sides has its own words, and
/// what has none is one word.
pub proof fn spaces_part_words(s: &str, r: Vec<String>, a: Seq<char>, c: char, b: Seq<char>)
    requires
        call_ensures(split_whitespace, (s,), r),
    ensures
        s@ == a + seq![c] + b && is_space(c) ==> texts(r@) == words(a) + words(b),
        s@.len() > 0 && (forall|i: int| 0 <= i < s@.len() ==> !is_space(#[trigger] s@[i]))
            ==> texts(r@) == seq![s@],
        s@.len() == 0 ==> r@.len() == 0,
{
    if s@ == a + seq![c] + b && is_space(c) {
        words_apart(a, c, b);
    }
    if s@.len() > 0 && (forall|i: int| 0 <= i < s@.len() ==> !is_space(#[trigger] s@[i])) {
        whole_word(s@);
    }
    assert(texts(r@).len() == r@.len());
}

} // verus!
