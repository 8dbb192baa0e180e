//! Java archives: their manifest, and the order of their entries.

use vstd::prelude::*;
use vstd::string::*;

use crate::text::{
    before, begins, chars_of, copy, group_texts, lines, lines_of, lower, lowercase, pieces,
    pieces_add, pieces_nonempty, same, split, strip_prefix, text_between, texts,
};

verus! {

/// A letter of any script.
pub uninterp spec fn is_letter(c: char) -> bool;

/// A digit or other numeral of any script.
pub uninterp spec fn is_numeral(c: char) -> bool;

/// `char::is_alphabetic` depends on the character alone; which characters are
/// letters is not stated.
pub assume_specification[ char::is_alphabetic ](c: char) -> (r: bool)
    ensures
        r == is_letter(c),
;

/// `char::is_numeric` depends on the character alone; which characters are
/// numerals is not stated.
pub assume_specification[ char::is_numeric ](c: char) -> (r: bool)
    ensures
        r == is_numeral(c),
;

/// How many bytes a character takes.
pub open spec fn width(c: char) -> nat {
    if c as u32 <= 0x7f {
        1
    } else if c as u32 <= 0x7ff {
        2
    } else if c as u32 <= 0xffff {
        3
    } else {
        4
    }
}

/// How many bytes a text takes.
pub open spec fn size(s: Seq<char>) -> nat
    decreases s.len(),
{
    if s.len() == 0 {
        0
    } else {
        size(s.drop_last()) + width(s.last())
    }
}

fn char_width(c: char) -> (r: usize)
    ensures
        r == width(c),
{
    let n: u32 = c as u32;
    if n <= 0x7f {
        1
    } else if n <= 0x7ff {
        2
    } else if n <= 0xffff {
        3
    } else {
        4
    }
}

/// A character that a Java identifier may begin with.
pub open spec fn identifier_start(c: char) -> bool {
    c == '_' || c == '$' || is_letter(c)
}

/// A character that a Java identifier may hold.
pub open spec fn identifier_part(c: char) -> bool {
    identifier_start(c) || is_numeral(c)
}

/// A Java identifier.
pub open spec fn identifier(s: Seq<char>) -> bool {
    s.len() > 0 && identifier_start(s[0]) && forall|i: int|
        1 <= i < s.len() ==> identifier_part(#[trigger] s[i])
}

/// A Java binary name: identifiers with dots between them, within the limit of
/// a class file.
pub open spec fn binary_name(s: Seq<char>) -> bool {
    s.len() > 0 && size(s) <= 65_535 && forall|i: int|
        0 <= i < pieces(s, '.').len() ==> identifier(#[trigger] pieces(s, '.')[i])
}

fn is_java_identifier_start(c: char) -> (r: bool)
    ensures
        r == identifier_start(c),
{
    c == '_' || c == '$' || c.is_alphabetic()
}

fn is_java_identifier_part(c: char) -> (r: bool)
    ensures
        r == identifier_part(c),
{
    is_java_identifier_start(c) || c.is_numeric()
}

fn is_identifier(s: &str) -> (r: bool)
    ensures
        r == identifier(s@),
{
    let a = chars_of(s);
    if a.len() == 0 || !is_java_identifier_start(a[0]) {
        return false;
    }
    let mut i: usize = 1;
    while i < a.len()
        invariant
            a@ == s@,
            1 <= i <= a@.len(),
            forall|k: int| 1 <= k < i ==> identifier_part(#[trigger] s@[k]),
        decreases a@.len() - i,
    {
        if !is_java_identifier_part(a[i]) {
            assert(!identifier_part(s@[i as int]));
            return false;
        }
        i += 1;
    }
    true
}

/// The sizes of the parts of a text do not exceed its own.
pub proof fn size_take(s: Seq<char>, k: int)
    requires
        0 <= k <= s.len(),
    ensures
        size(s.take(k)) <= size(s),
    decreases s.len(),
{
    if k < s.len() {
        assert(s.drop_last().take(k) =~= s.take(k));
        size_take(s.drop_last(), k);
    } else {
        assert(s.take(k) =~= s);
    }
}

/// Whether a text takes at most `limit` bytes.
fn fits(s: &str, limit: usize) -> (r: bool)
    requires
        limit <= 0x1_0000_0000,
    ensures
        r == (size(s@) <= limit),
{
    let a = chars_of(s);
    let mut n: usize = 0;
    let mut i: usize = 0;
    assert(a@.take(0) =~= Seq::empty());
    while i < a.len()
        invariant
            limit <= 0x1_0000_0000,
            a@ == s@,
            i <= a@.len(),
            n == size(a@.take(i as int)),
            n <= limit,
        decreases a@.len() - i,
    {
        assert(a@.take(i + 1).drop_last() =~= a@.take(i as int));
        let more: usize = char_width(a[i]);
        if more > limit - n {
            proof {
                size_take(a@, i + 1);
            }
            return false;
        }
        n += more;
        i += 1;
    }
    assert(a@.take(i as int) =~= a@);
    true
}

/// Whether a text is a Java binary name.
pub fn validate_main_class(value: &str) -> (r: bool)
    ensures
        r == binary_name(value@),
{
    if value.is_empty() || !fits(value, 65_535) {
        return false;
    }
    let parts = split(value, '.');
    let ghost all = pieces(value@, '.');
    assert(all.len() == parts@.len());
    let mut i: usize = 0;
    while i < parts.len()
        invariant
            all == texts(parts@),
            all == pieces(value@, '.'),
            i <= parts@.len(),
            forall|k: int| 0 <= k < i ==> identifier(#[trigger] all[k]),
        decreases parts@.len() - i,
    {
        assert(all[i as int] == parts@[i as int]@);
        if !is_identifier(&parts[i]) {
            assert(!identifier(all[i as int]));
            return false;
        }
        i += 1;
    }
    true
}

// ---------------------------------------------------------------------------
// Manifest lines
// ---------------------------------------------------------------------------

/// How many bytes of content a manifest line holds. With its line end it stays
/// below the limit of the format.
pub const CONTENT_BYTES: usize = 70;

/// How many characters of `s`, from its `i`th on, fit in `max` bytes.
pub open spec fn fitting(s: Seq<char>, max: int) -> int
    decreases s.len(),
{
    if s.len() == 0 || width(s[0]) > max {
        0
    } else {
        1 + fitting(s.skip(1), max - width(s[0]))
    }
}

/// A continuation line: a space, what fits behind it, and the line end.
pub open spec fn continued(s: Seq<char>) -> Seq<Seq<char>>
    decreases s.len(),
{
    let k = fitting(s, CONTENT_BYTES - 1);
    if s.len() == 0 || k <= 0 || k > s.len() {
        Seq::empty()
    } else {
        seq![" "@ + s.take(k)] + continued(s.skip(k))
    }
}

/// The lines of a manifest attribute: as much of it as fits in the first, the
/// rest in continuation lines.
pub open spec fn header_lines(name: Seq<char>, value: Seq<char>) -> Seq<Seq<char>> {
    let head = name + ": "@;
    let k = fitting(value, CONTENT_BYTES - size(head));
    seq![head + value.take(k)] + continued(value.skip(k))
}

/// Lines with their ends.
pub open spec fn ended(lines: Seq<Seq<char>>) -> Seq<char>
    decreases lines.len(),
{
    if lines.len() == 0 {
        Seq::empty()
    } else {
        ended(lines.drop_last()) + lines.last() + "\r\n"@
    }
}

/// What fits, fits, and nothing more does.
pub proof fn fitting_means(s: Seq<char>, max: int)
    requires
        max >= 0,
    ensures
        0 <= fitting(s, max) <= s.len(),
        size(s.take(fitting(s, max))) <= max,
        fitting(s, max) < s.len() ==> size(s.take(fitting(s, max) + 1)) > max,
        s.len() > 0 && max >= 4 ==> fitting(s, max) > 0,
    decreases s.len(),
{
    if s.len() == 0 {
        assert(s.take(0) =~= Seq::empty());
    } else if width(s[0]) > max {
        assert(s.take(0) =~= Seq::empty());
        assert(s.take(1).drop_last() =~= Seq::empty());
        assert(size(Seq::<char>::empty()) == 0);
        assert(size(s.take(1)) == width(s[0]));
    } else {
        let rest = s.skip(1);
        let left = max - width(s[0]);
        fitting_means(rest, left);
        let k = fitting(rest, left);
        size_front(s, k + 1);
        assert(s.take(k + 1).skip(1) =~= rest.take(k));
        if k < rest.len() {
            size_front(s, k + 2);
            assert(s.take(k + 2).skip(1) =~= rest.take(k + 1));
        }
    }
}

/// The size of a text is that of its first character and of the rest.
proof fn size_front(s: Seq<char>, k: int)
    requires
        0 < k <= s.len(),
    ensures
        size(s.take(k)) == width(s[0]) + size(s.take(k).skip(1)),
    decreases k,
{
    let t = s.take(k);
    if k == 1 {
        assert(t.drop_last() =~= Seq::empty());
        assert(t.skip(1) =~= Seq::empty());
        assert(size(Seq::<char>::empty()) == 0);
    } else {
        size_front(s, k - 1);
        assert(t.drop_last() =~= s.take(k - 1));
        assert(t.skip(1).drop_last() =~= s.take(k - 1).skip(1));
        assert(t.skip(1).last() == t.last());
    }
}

/// No line of an attribute holds more bytes than a manifest line may.
pub proof fn header_lines_fit(name: Seq<char>, value: Seq<char>)
    requires
        size(name) + 2 <= CONTENT_BYTES,
    ensures
        forall|i: int|
            0 <= i < header_lines(name, value).len() ==> size(
                #[trigger] header_lines(name, value)[i],
            ) <= CONTENT_BYTES,
{
    let head = name + ": "@;
    reveal_strlit(": ");
    size_add(name, ": "@);
    size_two(": "@);
    let k = fitting(value, CONTENT_BYTES - size(head));
    fitting_means(value, CONTENT_BYTES - size(head));
    size_add(head, value.take(k));
    continued_fit(value.skip(k));
    let all = header_lines(name, value);
    assert forall|i: int| 0 <= i < all.len() implies size(#[trigger] all[i]) <= CONTENT_BYTES by {
        if i > 0 {
            assert(all[i] == continued(value.skip(k))[i - 1]);
        }
    }
}

/// The size of a text of two ASCII characters.
proof fn size_two(s: Seq<char>)
    requires
        s.len() == 2,
        s[0] as u32 <= 0x7f,
        s[1] as u32 <= 0x7f,
    ensures
        size(s) == 2,
{
    assert(s.drop_last().drop_last() =~= Seq::empty());
    assert(size(Seq::<char>::empty()) == 0);
    assert(size(s.drop_last()) == 1);
}

/// Sizes add up.
pub proof fn size_add(a: Seq<char>, b: Seq<char>)
    ensures
        size(a + b) == size(a) + size(b),
    decreases b.len(),
{
    if b.len() == 0 {
        assert(a + b =~= a);
    } else {
        assert((a + b).drop_last() =~= a + b.drop_last());
        size_add(a, b.drop_last());
    }
}

proof fn continued_fit(s: Seq<char>)
    ensures
        forall|i: int|
            0 <= i < continued(s).len() ==> size(#[trigger] continued(s)[i]) <= CONTENT_BYTES,
    decreases s.len(),
{
    if s.len() > 0 {
        let k = fitting(s, CONTENT_BYTES - 1);
        fitting_means(s, CONTENT_BYTES - 1);
        reveal_strlit(" ");
        assert(" "@.drop_last() =~= Seq::empty());
        assert(size(Seq::<char>::empty()) == 0);
        assert(size(" "@) == 1);
        size_add(" "@, s.take(k));
        continued_fit(s.skip(k));
        assert forall|i: int| 0 <= i < continued(s).len() implies size(
            #[trigger] continued(s)[i],
        ) <= CONTENT_BYTES by {
            if i > 0 {
                assert(continued(s)[i] == continued(s.skip(k))[i - 1]);
            }
        }
    }
}

/// How many characters fit in `max` bytes, from `from` on.
fn utf8_prefix(a: &Vec<char>, from: usize, max: usize) -> (r: usize)
    requires
        from <= a@.len(),
    ensures
        r == fitting(a@.skip(from as int), max as int),
        from + r <= a@.len(),
{
    let mut left: usize = max;
    let mut i: usize = from;
    while i < a.len() && char_width(a[i]) <= left
        invariant
            from <= i <= a@.len(),
            left <= max,
            fitting(a@.skip(from as int), max as int) == (i - from) + fitting(
                a@.skip(i as int),
                left as int,
            ),
        decreases a@.len() - i,
    {
        assert(a@.skip(i as int).skip(1) =~= a@.skip(i + 1));
        left -= char_width(a[i]);
        i += 1;
    }
    i - from
}

/// A manifest attribute, in lines that are not too long.
pub fn write_manifest_header(name: &str, value: &str) -> (r: String)
    requires
        size(name@) + 2 <= CONTENT_BYTES,
    ensures
        r@ == ended(header_lines(name@, value@)),
{
    let mut out = copy(name);
    out.append(": ");
    let ghost head = out@;
    proof {
        reveal_strlit(": ");
        size_add(name@, ": "@);
        size_two(": "@);
    }
    let used: usize = text_size(&out);
    let a = chars_of(value);
    assert(a@.skip(0) =~= a@);
    let first: usize = utf8_prefix(&a, 0, CONTENT_BYTES - used);
    out.append(&text_between(&a, 0, first));
    out.append("\r\n");
    let ghost top = head + a@.take(first as int);
    let ghost all = header_lines(name@, value@);
    let ghost done = seq![top];
    assert(a@.subrange(0, first as int) =~= a@.take(first as int));
    assert(done.drop_last() =~= Seq::empty());
    assert(ended(Seq::empty()) =~= Seq::empty());
    assert(ended(done) =~= out@);
    let mut cursor: usize = first;
    while cursor < a.len()
        invariant
            cursor <= a@.len(),
            out@ == ended(done),
            done + continued(a@.skip(cursor as int)) == all,
        decreases a@.len() - cursor,
    {
        let ghost rest = a@.skip(cursor as int);
        proof {
            fitting_means(rest, CONTENT_BYTES - 1);
        }
        let length: usize = utf8_prefix(&a, cursor, CONTENT_BYTES - 1);
        let end: usize = cursor + length;
        out.append(" ");
        out.append(&text_between(&a, cursor, end));
        out.append("\r\n");
        proof {
            let line = " "@ + rest.take(length as int);
            assert(a@.subrange(cursor as int, end as int) =~= rest.take(length as int));
            assert(rest.skip(length as int) =~= a@.skip(end as int));
            let more = done.push(line);
            assert(more.drop_last() =~= done);
            assert(ended(more) =~= out@);
            assert(more + continued(a@.skip(end as int)) =~= done + (seq![line] + continued(
                a@.skip(end as int),
            )));
            done = more;
        }
        cursor = end;
    }
    assert(continued(a@.skip(cursor as int)) =~= Seq::empty());
    assert(done =~= all);
    out
}

/// How many bytes a short text takes.
fn text_size(s: &str) -> (r: usize)
    requires
        size(s@) <= CONTENT_BYTES,
    ensures
        r == size(s@),
{
    let a = chars_of(s);
    let mut n: usize = 0;
    let mut i: usize = 0;
    assert(a@.take(0) =~= Seq::empty());
    while i < a.len()
        invariant
            a@ == s@,
            size(s@) <= CONTENT_BYTES,
            i <= a@.len(),
            n == size(a@.take(i as int)),
        decreases a@.len() - i,
    {
        proof {
            assert(a@.take(i + 1).drop_last() =~= a@.take(i as int));
            size_take(a@, i + 1);
        }
        n += char_width(a[i]);
        i += 1;
    }
    assert(a@.take(i as int) =~= a@);
    n
}

// ---------------------------------------------------------------------------
// Manifests
// ---------------------------------------------------------------------------

/// The lines of a manifest, up to the empty one that ends it.
pub open spec fn manifest_lines(main_class: Option<Seq<char>>) -> Seq<Seq<char>> {
    seq!["Manifest-Version: 1.0"@, "Created-By: FrostBuild"@] + (match main_class {
        Some(name) => header_lines("Main-Class"@, name),
        None => Seq::empty(),
    }) + seq![""@]
}

/// A JAR's manifest, with the class that is run where there is one.
pub fn manifest_text(main_class: Option<&str>) -> (r: String)
    ensures
        r@ == ended(manifest_lines(crate::launch::str_view(main_class))),
{
    let ghost first = seq!["Manifest-Version: 1.0"@, "Created-By: FrostBuild"@];
    let mut out = copy("Manifest-Version: 1.0\r\nCreated-By: FrostBuild\r\n");
    proof {
        reveal_strlit("Manifest-Version: 1.0\r\nCreated-By: FrostBuild\r\n");
        reveal_strlit("Manifest-Version: 1.0");
        reveal_strlit("Created-By: FrostBuild");
        reveal_strlit("\r\n");
        reveal_strlit("Main-Class");
        assert(first.drop_last() =~= seq!["Manifest-Version: 1.0"@]);
        assert(seq!["Manifest-Version: 1.0"@].drop_last() =~= Seq::empty());
        assert(ended(Seq::empty()) =~= Seq::empty());
        assert(ended(seq!["Manifest-Version: 1.0"@]) =~= "Manifest-Version: 1.0"@ + "\r\n"@);
        assert(out@ =~= ended(first));
    }
    let ghost middle = match crate::launch::str_view(main_class) {
        Some(name) => header_lines("Main-Class"@, name),
        None => Seq::empty(),
    };
    match main_class {
        Some(name) => {
            proof {
                ascii_size("Main-Class"@);
            }
            out.append(&write_manifest_header("Main-Class", name));
            proof {
                ended_add(first, middle);
            }
        },
        None => {
            assert(first + middle =~= first);
        },
    }
    out.append("\r\n");
    proof {
        let all = manifest_lines(crate::launch::str_view(main_class));
        assert(all.drop_last() =~= first + middle);
        reveal_strlit("");
        assert(ended(first + middle) + ""@ =~= ended(first + middle));
        assert(ended(all) =~= out@);
    }
    out
}

/// ASCII characters take one byte each.
proof fn ascii_size(s: Seq<char>)
    requires
        forall|i: int| 0 <= i < s.len() ==> #[trigger] s[i] as u32 <= 0x7f,
    ensures
        size(s) == s.len(),
    decreases s.len(),
{
    if s.len() > 0 {
        let init = s.drop_last();
        assert forall|i: int| 0 <= i < init.len() implies #[trigger] init[i] as u32 <= 0x7f by {
            assert(init[i] == s[i]);
        }
        ascii_size(init);
        assert(s[s.len() - 1] as u32 <= 0x7f);
    }
}

/// Ended lines, one list behind the other.
proof fn ended_add(a: Seq<Seq<char>>, b: Seq<Seq<char>>)
    ensures
        ended(a + b) == ended(a) + ended(b),
    decreases b.len(),
{
    if b.len() == 0 {
        assert(a + b =~= a);
        assert(ended(a) + ended(b) =~= ended(a));
    } else {
        assert((a + b).drop_last() =~= a + b.drop_last());
        ended_add(a, b.drop_last());
        assert(ended(a + b) =~= ended(a) + ended(b));
    }
}

/// `s` without the carriage returns at its end.
pub open spec fn without_returns(s: Seq<char>) -> Seq<char>
    decreases s.len(),
{
    if s.len() > 0 && s.last() == '\r' {
        without_returns(s.drop_last())
    } else {
        s
    }
}

/// The attributes of the first `n` lines of a manifest: continuation lines
/// belong to the line before them. None where the first is one.
pub open spec fn unfolded(lines: Seq<Seq<char>>, n: nat) -> Option<Seq<Seq<char>>>
    decreases n,
{
    if n == 0 {
        Some(Seq::empty())
    } else {
        match unfolded(lines, (n - 1) as nat) {
            None => None,
            Some(done) => {
                let line = lines[n - 1];
                if begins(line, " "@) {
                    if done.len() == 0 {
                        None
                    } else {
                        Some(done.drop_last().push(done.last() + line.skip(1)))
                    }
                } else {
                    Some(done.push(without_returns(line)))
                }
            },
        }
    }
}

/// The value of the first of the first `n` attributes that names the class to
/// run.
pub open spec fn named_class(attributes: Seq<Seq<char>>, n: nat) -> Option<Seq<char>>
    decreases n,
{
    if n == 0 {
        None
    } else {
        match named_class(attributes, (n - 1) as nat) {
            Some(name) => Some(name),
            None => if begins(attributes[n - 1], "Main-Class: "@) {
                Some(attributes[n - 1].skip("Main-Class: "@.len() as int))
            } else {
                None
            },
        }
    }
}

/// What is wrong with a manifest that should name the class to run.
#[derive(Debug, Clone, Copy, PartialEq, Eq, Structural)]
pub enum MainClassError {
    StartsWithContinuation,
    NoMainClass,
}

impl MainClassError {
    /// Reports the fault.
    pub fn message(self) -> (r: &'static str)
        ensures
            r@ == match self {
                MainClassError::StartsWithContinuation =>
                    "JAR manifest starts with a continuation line"@,
                MainClassError::NoMainClass =>
                    "JAR has no Main-Class; add pack-jar --main-class or use a direct command"@,
            },
    {
        match self {
            MainClassError::StartsWithContinuation =>
                "JAR manifest starts with a continuation line",
            MainClassError::NoMainClass =>
                "JAR has no Main-Class; add pack-jar --main-class or use a direct command",
        }
    }
}

/// The class that a manifest says is run.
pub open spec fn main_class_in(text: Seq<char>) -> Result<Seq<char>, MainClassError> {
    let lines = lines_of(text);
    match unfolded(lines, lines.len()) {
        None => Err(MainClassError::StartsWithContinuation),
        Some(attributes) => match named_class(attributes, attributes.len()) {
            Some(name) => Ok(name),
            None => Err(MainClassError::NoMainClass),
        },
    }
}

fn trim_returns(s: &str) -> (r: String)
    ensures
        r@ == without_returns(s@),
{
    let a = chars_of(s);
    let mut i: usize = a.len();
    assert(a@.take(i as int) =~= a@);
    while i > 0 && a[i - 1] == '\r'
        invariant
            i <= a@.len(),
            without_returns(a@.take(i as int)) == without_returns(a@),
        decreases i,
    {
        assert(a@.take(i as int).drop_last() =~= a@.take(i - 1));
        i -= 1;
    }
    text_between(&a, 0, i)
}

proof fn unfold_fails(lines: Seq<Seq<char>>, k: nat, n: nat)
    requires
        k <= n,
        unfolded(lines, k) is None,
    ensures
        unfolded(lines, n) is None,
    decreases n - k,
{
    if k < n {
        unfold_fails(lines, k + 1, n);
    }
}

proof fn class_stays(attributes: Seq<Seq<char>>, k: nat, n: nat)
    requires
        k <= n,
        named_class(attributes, k) is Some,
    ensures
        named_class(attributes, n) == named_class(attributes, k),
    decreases n - k,
{
    if k < n {
        class_stays(attributes, k + 1, n);
    }
}

/// The class that a manifest says is run.
pub fn jar_main_class(manifest: &str) -> (r: Result<String, MainClassError>)
    ensures
        match r {
            Ok(name) => main_class_in(manifest@) == Ok::<Seq<char>, MainClassError>(name@),
            Err(e) => main_class_in(manifest@) == Err::<Seq<char>, MainClassError>(e),
        },
{
    broadcast use group_texts;
    proof {
        reveal_strlit(" ");
    }
    let all = lines(manifest);
    let ghost given = texts(all@);
    let mut done: Vec<String> = Vec::new();
    let mut i: usize = 0;
    while i < all.len()
        invariant
            given == texts(all@),
            given == lines_of(manifest@),
            " "@.len() == 1,
            i <= all@.len(),
            unfolded(given, i as nat) == Some(texts(done@)),
        decreases all@.len() - i,
    {
        assert(given[i as int] == all@[i as int]@);
        let ghost before = texts(done@);
        assert(before.len() == done@.len());
        match strip_prefix(&all[i], " ") {
            Some(rest) => match done.pop() {
                Some(last) => {
                    assert(texts(done@) =~= before.drop_last());
                    let mut longer = last;
                    longer.append(&rest);
                    done.push(longer);
                },
                None => {
                    proof {
                        unfold_fails(given, (i + 1) as nat, given.len());
                    }
                    return Err(MainClassError::StartsWithContinuation);
                },
            },
            None => {
                done.push(trim_returns(&all[i]));
            },
        }
        i += 1;
    }
    let ghost attributes = texts(done@);
    let mut k: usize = 0;
    while k < done.len()
        invariant
            attributes == texts(done@),
            given == lines_of(manifest@),
            unfolded(given, given.len()) == Some(attributes),
            k <= done@.len(),
            named_class(attributes, k as nat) is None,
        decreases done@.len() - k,
    {
        assert(attributes[k as int] == done@[k as int]@);
        if let Some(name) = strip_prefix(&done[k], "Main-Class: ") {
            proof {
                class_stays(attributes, (k + 1) as nat, attributes.len());
            }
            return Ok(name);
        }
        k += 1;
    }
    Err(MainClassError::NoMainClass)
}

// ---------------------------------------------------------------------------
// What is written is read back
// ---------------------------------------------------------------------------

/// Text without `c` belongs to the last piece of what stands before it.
proof fn pieces_tail(a: Seq<char>, b: Seq<char>, c: char)
    requires
        !b.contains(c),
    ensures
        pieces(a + b, c) == pieces(a, c).drop_last().push(pieces(a, c).last() + b),
    decreases b.len(),
{
    pieces_nonempty(a, c);
    if b.len() == 0 {
        assert(a + b =~= a);
        assert(pieces(a, c).last() + b =~= pieces(a, c).last());
        assert(pieces(a, c) =~= pieces(a, c).drop_last().push(pieces(a, c).last()));
    } else {
        let init = b.drop_last();
        assert(!init.contains(c)) by {
            if init.contains(c) {
                assert(b[init.index_of(c)] == c);
            }
        }
        assert(b[b.len() - 1] != c);
        pieces_tail(a, init, c);
        assert((a + b).drop_last() =~= a + init);
        assert((pieces(a, c).last() + init).push(b.last()) =~= pieces(a, c).last() + b);
        assert(pieces(a + b, c) =~= pieces(a, c).drop_last().push(pieces(a, c).last() + b));
    }
}

/// The pieces of ended lines: each with its carriage return, and an empty one.
proof fn ended_pieces(ls: Seq<Seq<char>>)
    requires
        forall|i: int| 0 <= i < ls.len() ==> !(#[trigger] ls[i]).contains('\n'),
    ensures
        pieces(ended(ls), '\n') == Seq::new(ls.len(), |i: int| ls[i].push('\r')).push(Seq::empty()),
    decreases ls.len(),
{
    let want = Seq::new(ls.len(), |i: int| ls[i].push('\r'));
    if ls.len() == 0 {
        assert(ended(ls) =~= Seq::empty());
        assert(pieces(ended(ls), '\n') =~= want.push(Seq::empty()));
    } else {
        let init = ls.drop_last();
        let l = ls.last();
        assert(!ls[ls.len() - 1].contains('\n'));
        assert forall|i: int| 0 <= i < init.len() implies !(#[trigger] init[i]).contains('\n') by {
            assert(init[i] == ls[i]);
        }
        ended_pieces(init);
        reveal_strlit("\r\n");
        let e = ended(init);
        let y = l.push('\r');
        assert(!y.contains('\n')) by {
            if y.contains('\n') {
                let k = y.index_of('\n');
                assert(l[k] == '\n');
            }
        }
        pieces_tail(e, y, '\n');
        pieces_add(e + y, Seq::empty(), '\n');
        assert(e + l + "\r\n"@ =~= (e + y) + seq!['\n'] + Seq::<char>::empty());
        let before = Seq::new(init.len(), |i: int| init[i].push('\r')).push(Seq::<char>::empty());
        assert(before.last() + y =~= y);
        assert(pieces(Seq::<char>::empty(), '\n') =~= seq![Seq::<char>::empty()]);
        assert(pieces(ended(ls), '\n') =~= want.push(Seq::empty()));
    }
}

/// Ended lines are read back.
pub proof fn ended_read_back(ls: Seq<Seq<char>>)
    requires
        forall|i: int| 0 <= i < ls.len() ==> !(#[trigger] ls[i]).contains('\n'),
    ensures
        lines_of(ended(ls)) == ls,
{
    ended_pieces(ls);
    let all = pieces(ended(ls), '\n');
    assert forall|i: int| 0 <= i < ls.len() implies #[trigger] lines_of(ended(ls))[i] == ls[i] by {
        assert(all[i] == ls[i].push('\r'));
        assert(ls[i].push('\r').drop_last() =~= ls[i]);
    }
    assert(lines_of(ended(ls)) =~= ls);
}

/// Continuation lines give back what they continue.
proof fn continued_unfold(lines: Seq<Seq<char>>, n: nat, s: Seq<char>, done: Seq<Seq<char>>)
    requires
        n + continued(s).len() <= lines.len(),
        lines.subrange(n as int, (n + continued(s).len()) as int) == continued(s),
        unfolded(lines, n) == Some(done),
        done.len() > 0,
    ensures
        unfolded(lines, n + continued(s).len()) == Some(done.drop_last().push(done.last() + s)),
    decreases s.len(),
{
    if s.len() == 0 {
        assert(done.last() + s =~= done.last());
        assert(done.drop_last().push(done.last()) =~= done);
    } else {
        reveal_strlit(" ");
        fitting_means(s, CONTENT_BYTES - 1);
        let k = fitting(s, CONTENT_BYTES - 1);
        let line = " "@ + s.take(k);
        let rest = s.skip(k);
        let more = continued(rest);
        assert(continued(s) == seq![line] + more);
        assert(lines[n as int] == lines.subrange(
            n as int,
            (n + continued(s).len()) as int,
        )[0]);
        assert(lines[n as int] == line);
        assert(line.subrange(0, 1) =~= " "@);
        assert(line.skip(1) =~= s.take(k));
        let next = done.drop_last().push(done.last() + s.take(k));
        assert(unfolded(lines, n + 1) == Some(next));
        assert(lines.subrange((n + 1) as int, (n + 1 + more.len()) as int) =~= more) by {
            let all = lines.subrange(n as int, (n + continued(s).len()) as int);
            assert forall|i: int| 0 <= i < more.len() implies lines[n + 1 + i] == more[i] by {
                assert(all[i + 1] == (seq![line] + more)[i + 1]);
            }
        }
        continued_unfold(lines, n + 1, rest, next);
        assert(next.drop_last() =~= done.drop_last());
        assert(done.last() + s.take(k) + rest =~= done.last() + s);
    }
}

/// No line of an attribute's value holds what the value does not hold.
proof fn continued_without(s: Seq<char>, c: char)
    requires
        !s.contains(c),
        c != ' ',
    ensures
        forall|i: int| 0 <= i < continued(s).len() ==> !(#[trigger] continued(s)[i]).contains(c),
    decreases s.len(),
{
    if s.len() > 0 {
        reveal_strlit(" ");
        fitting_means(s, CONTENT_BYTES - 1);
        let k = fitting(s, CONTENT_BYTES - 1);
        let rest = s.skip(k);
        let line = " "@ + s.take(k);
        assert(!rest.contains(c)) by {
            if rest.contains(c) {
                assert(s[rest.index_of(c) + k] == c);
            }
        }
        assert(!line.contains(c)) by {
            if line.contains(c) {
                let j = line.index_of(c);
                if j > 0 {
                    assert(s[j - 1] == c);
                }
            }
        }
        continued_without(rest, c);
        assert forall|i: int| 0 <= i < continued(s).len() implies !(#[trigger] continued(
            s,
        )[i]).contains(c) by {
            if i > 0 {
                assert(continued(s)[i] == continued(rest)[i - 1]);
            }
        }
    }
}

/// What the first lines of a manifest are made of.
proof fn manifest_words()
    ensures
        !begins("Manifest-Version: 1.0"@, " "@),
        !begins("Created-By: FrostBuild"@, " "@),
        !begins("Manifest-Version: 1.0"@, "Main-Class: "@),
        !begins("Created-By: FrostBuild"@, "Main-Class: "@),
        !"Manifest-Version: 1.0"@.contains('\n'),
        !"Created-By: FrostBuild"@.contains('\n'),
        without_returns("Manifest-Version: 1.0"@) == "Manifest-Version: 1.0"@,
        without_returns("Created-By: FrostBuild"@) == "Created-By: FrostBuild"@,
        "Main-Class"@ + ": "@ == "Main-Class: "@,
        !"Main-Class: "@.contains('\n'),
        "Main-Class: "@.len() == 12,
        "Main-Class: "@.last() == ' ',
        "Main-Class: "@[0] == 'M',
        size("Main-Class: "@) == 12,
        " "@.len() == 1,
        " "@[0] == ' ',
        ""@.len() == 0,
{
    reveal_strlit("Manifest-Version: 1.0");
    reveal_strlit("Created-By: FrostBuild");
    reveal_strlit("Main-Class: ");
    reveal_strlit("Main-Class");
    reveal_strlit(": ");
    reveal_strlit(" ");
    reveal_strlit("");
    assert("Main-Class"@ + ": "@ =~= "Main-Class: "@);
    assert(" "@[0] == ' ');
    assert("Manifest-Version: 1.0"@.subrange(0, 1)[0] == 'M');
    assert("Created-By: FrostBuild"@.subrange(0, 1)[0] == 'C');
    assert("Manifest-Version: 1.0"@.subrange(0, 12)[2] == 'n');
    assert("Main-Class: "@[2] == 'i');
    assert("Created-By: FrostBuild"@.subrange(0, 12)[0] == 'C');
    assert("Main-Class: "@[0] == 'M');
    ascii_size("Main-Class: "@);
}

/// The class that a manifest was written with is read back from it. Values
/// with line breaks are left out: no Java name holds one.
pub proof fn main_class_read_back(value: Seq<char>)
    requires
        !value.contains('\n'),
        !value.contains('\r'),
    ensures
        main_class_in(ended(manifest_lines(Some(value)))) == Ok::<Seq<char>, MainClassError>(value),
{
    manifest_words();
    let head = "Main-Class: "@;
    let all = manifest_lines(Some(value));
    let k = fitting(value, CONTENT_BYTES - size(head));
    fitting_means(value, CONTENT_BYTES - size(head));
    let first = head + value.take(k);
    let rest = value.skip(k);
    let more = continued(rest);
    assert(header_lines("Main-Class"@, value) == seq![first] + more);
    assert(!rest.contains('\n')) by {
        if rest.contains('\n') {
            assert(value[rest.index_of('\n') + k] == '\n');
        }
    }
    continued_without(rest, '\n');
    assert(!first.contains('\n')) by {
        if first.contains('\n') {
            let j = first.index_of('\n');
            if j < head.len() {
                assert(head[j] == '\n');
            } else {
                assert(value[j - head.len()] == '\n');
            }
        }
    }
    let start = seq!["Manifest-Version: 1.0"@, "Created-By: FrostBuild"@];
    assert(all == start + (seq![first] + more) + seq![""@]);
    let n = more.len();
    assert(all.len() == n + 4);
    assert forall|i: int| 0 <= i < all.len() implies !(#[trigger] all[i]).contains('\n') by {
        if i == 0 || i == 1 {
        } else if i == 2 {
            assert(all[i] == first);
        } else if i < n + 3 {
            assert(all[i] == more[i - 3]);
        }
    }
    ended_read_back(all);
    // The first three lines.
    assert(all[0] == "Manifest-Version: 1.0"@);
    assert(all[1] == "Created-By: FrostBuild"@);
    assert(all[2] == first);
    assert(all[n as int + 3] == ""@);
    assert(first[0] == 'M');
    assert(!begins(first, " "@)) by {
        assert(first.subrange(0, 1)[0] == 'M');
    }
    assert(without_returns(first) == first) by {
        if value.take(k).len() > 0 {
            assert(first.last() == value[k - 1]);
        } else {
            assert(first.last() == head.last());
        }
    }
    let one = seq!["Manifest-Version: 1.0"@];
    let three = start.push(first);
    assert(unfolded(all, 0) == Some(Seq::<Seq<char>>::empty()));
    assert(Seq::<Seq<char>>::empty().push("Manifest-Version: 1.0"@) =~= one);
    assert(unfolded(all, 1) == Some(one));
    assert(one.push("Created-By: FrostBuild"@) =~= start);
    assert(unfolded(all, 2) == Some(start));
    assert(unfolded(all, 3) == Some(three));
    // The continuation lines.
    assert(all.subrange(3, (3 + n) as int) =~= more);
    continued_unfold(all, 3, rest, three);
    let whole = three.drop_last().push(first + rest);
    assert(first + rest =~= head + value);
    assert(!begins(""@, " "@));
    assert(without_returns(""@) == ""@);
    let attributes = whole.push(""@);
    assert(unfolded(all, (n + 4) as nat) == Some(attributes));
    // The attribute.
    assert(attributes[0] == "Manifest-Version: 1.0"@);
    assert(attributes[1] == "Created-By: FrostBuild"@);
    assert(attributes[2] == head + value);
    assert(named_class(attributes, 0) is None);
    assert(named_class(attributes, 1) is None);
    assert(named_class(attributes, 2) is None);
    assert((head + value).subrange(0, head.len() as int) =~= head);
    assert((head + value).skip(head.len() as int) =~= value);
    assert(named_class(attributes, 3) == Some(value));
    class_stays(attributes, 3, attributes.len());
}

// ---------------------------------------------------------------------------
// Entries
// ---------------------------------------------------------------------------

/// A file that becomes an entry: any but a manifest of its own.
pub open spec fn entry_kept(name: Seq<char>) -> bool {
    lower(name) != lower("META-INF/MANIFEST.MF"@)
}

/// The entries of a JAR, in the order of their names, without a manifest of
/// their own.
pub fn jar_entries(names: &Vec<String>) -> (r: Vec<String>)
    ensures
        texts(r@) == crate::sorted_map::in_order(
            texts(names@).filter(|name: Seq<char>| entry_kept(name)).to_set(),
        ),
{
    let ghost given = texts(names@);
    let ghost keep = |name: Seq<char>| entry_kept(name);
    let mut out = crate::sorted_map::TextSet::new();
    let manifest = lowercase("META-INF/MANIFEST.MF");
    let mut i: usize = 0;
    proof {
        reveal(Seq::filter);
        assert(given.take(0).filter(keep).to_set() =~= Set::empty());
    }
    while i < names.len()
        invariant
            given == texts(names@),
            keep == (|name: Seq<char>| entry_kept(name)),
            manifest@ == lower("META-INF/MANIFEST.MF"@),
            i <= names@.len(),
            out.wf(),
            out@ =~= given.take(i as int).filter(keep).to_set(),
        decreases names@.len() - i,
    {
        let ghost name = given[i as int];
        proof {
            assert(name == names@[i as int]@);
            assert(given.take(i + 1) =~= given.take(i as int).push(name));
            given.take(i as int).lemma_filter_push(name, keep);
            given.take(i as int).filter(keep).lemma_push_to_set_commute(name);
        }
        if !same(&lowercase(&names[i]), &manifest) {
            let _ = out.insert(copy(&names[i]));
        }
        i += 1;
    }
    assert(given.take(i as int) =~= given);
    out.items()
}

/// A JAR has all files that it is given but a manifest of their own, however that
/// is written, and no others.
pub proof fn every_file_is_an_entry(names: Vec<String>, r: Vec<String>, s: Seq<char>)
    requires
        call_ensures(jar_entries, (&names,), r),
    ensures
        texts(r@).contains(s) <==> texts(names@).contains(s) && lower(s) != lower(
            "META-INF/MANIFEST.MF"@,
        ),
{
    let all = texts(names@);
    let keep = |name: Seq<char>| entry_kept(name);
    let kept = all.filter(keep);
    vstd::seq_lib::seq_to_set_is_finite(kept);
    crate::sorted_map::in_order_means(kept.to_set());
    assert(texts(r@).to_set().contains(s) == kept.to_set().contains(s));
    if kept.contains(s) {
        all.lemma_filter_contains_rev(keep, s);
        all.lemma_filter_pred(keep, kept.index_of(s));
    }
    if all.contains(s) && entry_kept(s) {
        all.lemma_filter_contains(keep, all.index_of(s));
    }
}

} // verus!
