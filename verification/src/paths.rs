//! Workspace-relative paths, and paths as sequences of components.

use vstd::prelude::*;
use vstd::string::*;

use crate::text::{
    chars_of, copy, debug_text, first_at, first_at_is, group_texts, join, joined, joined_from,
    last_at, last_at_means, pieces, pieces_add, pieces_from, pieces_joined, pieces_whole,
    pieces_without, quoted, rsplit_once, same, split, text_between, texts,
};

verus! {

/// What is wrong with a path.
#[derive(Debug, Clone, Copy, PartialEq, Eq, Structural)]
pub enum PathFault {
    Empty,
    Backslash,
    Absolute,
    EmptyComponent,
    Escapes,
    NoFile,
}

/// A path that is not workspace-relative, and why.
#[derive(Debug)]
pub struct PathError {
    pub path: String,
    pub fault: PathFault,
}

impl PathError {
    /// The text that reports the fault.
    pub open spec fn text(self) -> Seq<char> {
        let path = debug_text(self.path@);
        match self.fault {
            PathFault::Empty => "empty path"@,
            PathFault::Backslash => "path "@ + path + " must use forward slashes"@,
            PathFault::Absolute => "path "@ + path
                + " must be workspace-relative, not absolute"@,
            PathFault::EmptyComponent => "path "@ + path + " has an empty component"@,
            PathFault::Escapes => "path "@ + path
                + " must not escape the workspace with `..`"@,
            PathFault::NoFile => "path "@ + path + " does not name a file"@,
        }
    }

    /// Reports the fault.
    pub fn message(&self) -> (r: String)
        ensures
            r@ == self.text(),
    {
        let tail = match self.fault {
            PathFault::Empty => {
                return copy("empty path");
            },
            PathFault::Backslash => " must use forward slashes",
            PathFault::Absolute => " must be workspace-relative, not absolute",
            PathFault::EmptyComponent => " has an empty component",
            PathFault::Escapes => " must not escape the workspace with `..`",
            PathFault::NoFile => " does not name a file",
        };
        let mut out = copy("path ");
        out.append(&quoted(&self.path));
        out.append(tail);
        out
    }
}

/// The fault of the first component that a workspace path may not have.
pub open spec fn first_fault(parts: Seq<Seq<char>>) -> Option<PathFault>
    decreases parts.len(),
{
    if parts.len() == 0 {
        None
    } else {
        match first_fault(parts.drop_last()) {
            Some(fault) => Some(fault),
            None => if parts.last().len() == 0 {
                Some(PathFault::EmptyComponent)
            } else if parts.last() == ".."@ {
                Some(PathFault::Escapes)
            } else {
                None
            },
        }
    }
}

/// The components that name something: all but `.`.
pub open spec fn named(parts: Seq<Seq<char>>) -> Seq<Seq<char>> {
    parts.filter(|p: Seq<char>| p != "."@)
}

/// The normal form of a workspace-relative path, or what is wrong with it.
pub open spec fn normal_path(raw: Seq<char>) -> Result<Seq<char>, PathFault> {
    let parts = pieces(raw, '/');
    if raw.len() == 0 {
        Err(PathFault::Empty)
    } else if raw.contains('\\') {
        Err(PathFault::Backslash)
    } else if raw[0] == '/' {
        Err(PathFault::Absolute)
    } else {
        match first_fault(parts) {
            Some(fault) => Err(fault),
            None => if named(parts).len() == 0 {
                Err(PathFault::NoFile)
            } else {
                Ok(joined(named(parts), "/"@))
            },
        }
    }
}

/// Whether `c` stands in `s`.
pub fn has_char(s: &str, c: char) -> (r: bool)
    ensures
        r == s@.contains(c),
{
    let a = chars_of(s);
    let mut i: usize = 0;
    while i < a.len()
        invariant
            i <= a.len(),
            a@ == s@,
            forall|j: int| 0 <= j < i ==> a[j] != c,
        decreases a.len() - i,
    {
        if a[i] == c {
            assert(s@[i as int] == c);
            return true;
        }
        i += 1;
    }
    false
}

/// Validates and normalizes a workspace-relative path: not empty, relative,
/// forward slashes only, no `..` components; `.` components are left out.
pub fn validate_rel_path(raw: &str) -> (r: Result<String, PathError>)
    ensures
        match r {
            Ok(path) => normal_path(raw@) == Ok::<Seq<char>, PathFault>(path@),
            Err(e) => normal_path(raw@) == Err::<Seq<char>, PathFault>(e.fault) && e.path@ == raw@,
        },
{
    broadcast use group_texts;
    let chars = chars_of(raw);
    if chars.len() == 0 {
        return Err(PathError { path: copy(raw), fault: PathFault::Empty });
    }
    if has_char(raw, '\\') {
        return Err(PathError { path: copy(raw), fault: PathFault::Backslash });
    }
    if chars[0] == '/' {
        return Err(PathError { path: copy(raw), fault: PathFault::Absolute });
    }
    let all = split(raw, '/');
    let ghost parts = pieces(raw@, '/');
    let ghost keep = |p: Seq<char>| p != "."@;
    let mut kept: Vec<String> = Vec::new();
    let mut i: usize = 0;
    assert(parts.take(0) =~= Seq::empty());
    reveal_with_fuel(Seq::filter, 1);
    while i < all.len()
        invariant
            i <= all.len(),
            texts(all@) == parts,
            parts == pieces(raw@, '/'),
            keep == (|p: Seq<char>| p != "."@),
            raw@.len() > 0,
            !raw@.contains('\\'),
            raw@[0] != '/',
            first_fault(parts.take(i as int)) is None,
            texts(kept@) == parts.take(i as int).filter(keep),
        decreases all.len() - i,
    {
        let ghost part = parts[i as int];
        assert(all[i as int]@ == part);
        assert(parts.take(i + 1).drop_last() =~= parts.take(i as int));
        assert(parts.take(i + 1) =~= parts.take(i as int).push(part));
        proof {
            parts.take(i as int).lemma_filter_push(part, keep);
        }
        let escapes = same(&all[i], "..");
        if all[i].as_str().is_empty() || escapes {
            proof {
                fault_stays(parts, i + 1);
            }
            let fault = if escapes {
                proof {
                    reveal_strlit("..");
                }
                PathFault::Escapes
            } else {
                PathFault::EmptyComponent
            };
            return Err(PathError { path: copy(raw), fault });
        }
        if !same(&all[i], ".") {
            kept.push(copy(&all[i]));
        }
        i += 1;
    }
    assert(parts.take(i as int) =~= parts);
    if kept.len() == 0 {
        return Err(PathError { path: copy(raw), fault: PathFault::NoFile });
    }
    Ok(join(&kept, "/"))
}

/// A fault among the first components is the fault of all of them.
proof fn fault_stays(parts: Seq<Seq<char>>, n: int)
    requires
        0 <= n <= parts.len(),
        first_fault(parts.take(n)) is Some,
    ensures
        first_fault(parts) == first_fault(parts.take(n)),
    decreases parts.len() - n,
{
    if n < parts.len() {
        assert(parts.take(n + 1).drop_last() =~= parts.take(n));
        fault_stays(parts, n + 1);
    } else {
        assert(parts.take(n) =~= parts);
    }
}

/// Without a fault, every component is neither empty nor `..`.
pub proof fn no_fault_means(parts: Seq<Seq<char>>)
    ensures
        first_fault(parts) is None <==> forall|i: int|
            0 <= i < parts.len() ==> (#[trigger] parts[i]).len() > 0 && parts[i] != ".."@,
    decreases parts.len(),
{
    if parts.len() > 0 {
        let init = parts.drop_last();
        no_fault_means(init);
        if first_fault(parts) is None {
            assert forall|i: int| 0 <= i < parts.len() implies (#[trigger] parts[i]).len() > 0
                && parts[i] != ".."@ by {
                if i < init.len() {
                    assert(init[i] == parts[i]);
                }
            }
        }
        if forall|i: int|
            0 <= i < parts.len() ==> (#[trigger] parts[i]).len() > 0 && parts[i] != ".."@ {
            assert forall|i: int| 0 <= i < init.len() implies (#[trigger] init[i]).len() > 0
                && init[i] != ".."@ by {
                assert(init[i] == parts[i]);
            }
            assert(parts[parts.len() - 1] == parts.last());
        }
    }
}

/// A normal path names every one of its components: none is empty, `.` or
/// `..`, and they are the named components of the path it came from.
pub proof fn normal_path_components(raw: Seq<char>, path: Seq<char>)
    requires
        normal_path(raw) == Ok::<Seq<char>, PathFault>(path),
    ensures
        pieces(path, '/') == named(pieces(raw, '/')),
        forall|i: int|
            0 <= i < pieces(path, '/').len() ==> (#[trigger] pieces(path, '/')[i]).len() > 0
                && pieces(path, '/')[i] != "."@ && pieces(path, '/')[i] != ".."@,
{
    let parts = pieces(raw, '/');
    let keep = |p: Seq<char>| p != "."@;
    let kept = named(parts);
    no_fault_means(parts);
    pieces_without(raw, '/');
    reveal_strlit("/");
    assert("/"@ =~= seq!['/']);
    assert forall|i: int| 0 <= i < kept.len() implies !(#[trigger] kept[i]).contains('/')
        && kept[i].len() > 0 && kept[i] != "."@ && kept[i] != ".."@ by {
        parts.lemma_filter_pred(keep, i);
        parts.lemma_filter_contains_rev(keep, kept[i]);
        let k = parts.index_of(kept[i]);
        assert(parts[k] == kept[i]);
    }
    pieces_joined(kept, '/');
}

/// Normalizing a normal path changes nothing.
pub proof fn normal_path_stable(raw: Seq<char>, path: Seq<char>)
    requires
        normal_path(raw) == Ok::<Seq<char>, PathFault>(path),
    ensures
        normal_path(path) == Ok::<Seq<char>, PathFault>(path),
{
    normal_path_components(raw, path);
    let parts = pieces(raw, '/');
    let kept = pieces(path, '/');
    let keep = |p: Seq<char>| p != "."@;
    reveal_strlit("/");
    assert("/"@ =~= seq!['/']);
    no_fault_means(kept);
    all_kept(kept, keep);
    assert(!path.contains('\\')) by {
        if path.contains('\\') {
            joined_from(kept, "/"@, '\\');
            let i = choose|i: int| 0 <= i < kept.len() && (#[trigger] kept[i]).contains('\\');
            parts.lemma_filter_contains_rev(keep, kept[i]);
            let k = parts.index_of(kept[i]);
            pieces_from(raw, '/', k, '\\');
        }
    }
    if path.len() == 0 {
        assert(pieces(path, '/')[0].len() == 0);
    } else if path[0] == '/' {
        let empty = Seq::<char>::empty();
        assert(path =~= empty + seq!['/'] + path.skip(1));
        pieces_add(empty, path.skip(1), '/');
        assert(pieces(path, '/')[0] == pieces(empty, '/')[0]);
        assert(pieces(empty, '/')[0].len() == 0);
    }
}

/// Filtering by what holds of every element changes nothing.
proof fn all_kept(parts: Seq<Seq<char>>, keep: spec_fn(Seq<char>) -> bool)
    requires
        forall|i: int| 0 <= i < parts.len() ==> keep(#[trigger] parts[i]),
    ensures
        parts.filter(keep) == parts,
    decreases parts.len(),
{
    reveal(Seq::filter);
    if parts.len() > 0 {
        let init = parts.drop_last();
        assert forall|i: int| 0 <= i < init.len() implies keep(#[trigger] init[i]) by {
            assert(init[i] == parts[i]);
        }
        all_kept(init, keep);
        assert(keep(parts[parts.len() - 1]));
        assert(init.push(parts.last()) =~= parts);
    } else {
        assert(parts.filter(keep) =~= parts);
    }
}

// ---------------------------------------------------------------------------
// Paths as components
// ---------------------------------------------------------------------------

/// `p` begins at the root.
pub open spec fn absolute(p: Seq<char>) -> bool {
    p.len() > 0 && p[0] == '/'
}

/// `p` begins with the component `.`.
pub open spec fn dot_first(p: Seq<char>) -> bool {
    p.len() > 0 && p[0] == '.' && (p.len() == 1 || p[1] == '/')
}

/// The components of a path below its root: what stands between slashes,
/// without what is empty and without `.`.
pub open spec fn body(parts: Seq<Seq<char>>) -> Seq<Seq<char>> {
    parts.filter(|p: Seq<char>| p.len() > 0 && p != "."@)
}

/// The components of a path: `/` for its root or `.` where it begins with
/// that, then those below.
pub open spec fn components(p: Seq<char>) -> Seq<Seq<char>> {
    let below = body(pieces(p, '/'));
    if absolute(p) {
        seq!["/"@] + below
    } else if dot_first(p) {
        seq!["."@] + below
    } else {
        below
    }
}

/// Every component of `base` begins `p`.
pub open spec fn under(p: Seq<char>, base: Seq<char>) -> bool {
    components(base).is_prefix_of(components(p))
}

/// `s` from its first component on.
pub open spec fn left_trimmed(s: Seq<char>) -> Seq<char>
    decreases s.len(),
{
    if s.len() > 0 && (s[0] == '/' || dot_first(s)) {
        left_trimmed(s.skip(1))
    } else {
        s
    }
}

/// `s` up to the end of its last component.
pub open spec fn right_trimmed(s: Seq<char>) -> Seq<char>
    decreases s.len(),
{
    if s.len() > 0 && (s.last() == '/' || (s.last() == '.' && (s.len() == 1 || s[s.len() - 2]
        == '/'))) {
        right_trimmed(s.drop_last())
    } else {
        s
    }
}

/// What is left of `s` behind `n` of its components.
pub open spec fn behind(s: Seq<char>, n: nat) -> Seq<char>
    decreases n,
{
    if n == 0 {
        s
    } else {
        let t = left_trimmed(s);
        behind(t.skip(first_at(t, '/')), (n - 1) as nat)
    }
}

/// What is left of `p` behind its first `n` components.
pub open spec fn remainder(p: Seq<char>, n: nat) -> Seq<char> {
    let lead: nat = if absolute(p) || dot_first(p) {
        1
    } else {
        0
    };
    if n < lead || n == 0 {
        p.take(lead as int) + right_trimmed(p.skip(lead as int))
    } else {
        right_trimmed(left_trimmed(behind(p.skip(lead as int), (n - lead) as nat)))
    }
}

/// Whether `p` begins at the root.
pub fn is_absolute(p: &str) -> (r: bool)
    ensures
        r == absolute(p@),
{
    let a = chars_of(p);
    a.len() > 0 && a[0] == '/'
}

/// The components of a path.
pub fn components_of(p: &str) -> (r: Vec<String>)
    ensures
        texts(r@) == components(p@),
{
    broadcast use group_texts;
    let a = chars_of(p);
    let mut out: Vec<String> = Vec::new();
    if a.len() > 0 && a[0] == '/' {
        out.push(copy("/"));
    } else if a.len() > 0 && a[0] == '.' && (a.len() == 1 || a[1] == '/') {
        out.push(copy("."));
    }
    let ghost lead = texts(out@);
    let all = split(p, '/');
    let ghost parts = pieces(p@, '/');
    let ghost keep = |p: Seq<char>| p.len() > 0 && p != "."@;
    let mut i: usize = 0;
    assert(parts.take(0) =~= Seq::empty());
    proof {
        reveal(Seq::filter);
    }
    assert(texts(out@) =~= lead + parts.take(0).filter(keep));
    while i < all.len()
        invariant
            i <= all.len(),
            texts(all@) == parts,
            keep == (|p: Seq<char>| p.len() > 0 && p != "."@),
            texts(out@) == lead + parts.take(i as int).filter(keep),
        decreases all.len() - i,
    {
        let ghost part = parts[i as int];
        assert(all[i as int]@ == part);
        assert(parts.take(i + 1) =~= parts.take(i as int).push(part));
        proof {
            parts.take(i as int).lemma_filter_push(part, keep);
        }
        if !all[i].as_str().is_empty() && !same(&all[i], ".") {
            out.push(copy(&all[i]));
            let ghost kept = parts.take(i as int).filter(keep);
            assert(parts.take(i + 1).filter(keep) == kept.push(part));
            assert((lead + kept).push(part) =~= lead + kept.push(part));
        }
        i += 1;
    }
    assert(parts.take(i as int) =~= parts);
    assert(texts(out@) =~= components(p@));
    out
}

/// Whether every component of `base` begins `p`.
pub fn starts_with_path(p: &str, base: &str) -> (r: bool)
    ensures
        r == under(p@, base@),
{
    let a = components_of(p);
    let b = components_of(base);
    let ghost x = texts(a@);
    let ghost y = texts(b@);
    if b.len() > a.len() {
        return false;
    }
    let mut i: usize = 0;
    while i < b.len()
        invariant
            i <= b.len() <= a.len(),
            x == texts(a@),
            y == texts(b@),
            x == components(p@),
            y == components(base@),
            forall|j: int| 0 <= j < i ==> x[j] == y[j],
        decreases b.len() - i,
    {
        assert(x[i as int] == a[i as int]@);
        assert(y[i as int] == b[i as int]@);
        if !same(&a[i], &b[i]) {
            assert(x.subrange(0, y.len() as int)[i as int] != y[i as int]);
            return false;
        }
        i += 1;
    }
    assert(x.subrange(0, y.len() as int) =~= y);
    true
}

/// What is left of `p` behind the components of `base`; none where `p` is not
/// under `base`.
pub fn relative_to(p: &str, base: &str) -> (r: Option<String>)
    ensures
        match r {
            Some(rest) => under(p@, base@) && rest@ == remainder(p@, components(base@).len()),
            None => !under(p@, base@),
        },
{
    if !starts_with_path(p, base) {
        return None;
    }
    let n: usize = components_of(base).len();
    let a = chars_of(p);
    let lead: usize = if a.len() > 0 && (a[0] == '/' || (a[0] == '.' && (a.len() == 1 || a[1]
        == '/'))) {
        1
    } else {
        0
    };
    let mut from: usize = lead;
    if n >= lead && n > 0 {
        let mut k: usize = n - lead;
        while k > 0
            invariant
                from <= a.len(),
                k <= n - lead,
                behind(a@.skip(from as int), k as nat) == behind(
                    a@.skip(lead as int),
                    (n - lead) as nat,
                ),
            decreases k,
        {
            let ghost s = a@.skip(from as int);
            let start = trim_left(&a, from);
            let ghost t = a@.skip(start as int);
            let mut end: usize = start;
            while end < a.len() && a[end] != '/'
                invariant
                    start <= end <= a.len(),
                    t == a@.skip(start as int),
                    forall|j: int| 0 <= j < end - start ==> t[j] != '/',
                decreases a.len() - end,
            {
                end += 1;
            }
            proof {
                first_at_is(t, '/', end - start);
                assert(t.skip(end - start) =~= a@.skip(end as int));
            }
            from = end;
            k -= 1;
        }
        from = trim_left(&a, from);
        let to = trim_right(&a, from);
        return Some(text_between(&a, from, to));
    }
    let to = trim_right(&a, from);
    assert(a@.subrange(0, to as int) =~= a@.take(lead as int) + a@.subrange(
        lead as int,
        to as int,
    ));
    Some(text_between(&a, 0, to))
}

/// Where the first component at or behind `from` begins.
fn trim_left(a: &Vec<char>, from: usize) -> (r: usize)
    requires
        from <= a.len(),
    ensures
        from <= r <= a.len(),
        a@.skip(r as int) == left_trimmed(a@.skip(from as int)),
{
    let mut i: usize = from;
    while i < a.len() && (a[i] == '/' || (a[i] == '.' && (i + 1 == a.len() || a[i + 1] == '/')))
        invariant
            from <= i <= a.len(),
            left_trimmed(a@.skip(i as int)) == left_trimmed(a@.skip(from as int)),
        decreases a.len() - i,
    {
        assert(a@.skip(i as int).skip(1) =~= a@.skip(i + 1));
        i += 1;
    }
    i
}

/// Where the last component at or behind `from` ends.
fn trim_right(a: &Vec<char>, from: usize) -> (r: usize)
    requires
        from <= a.len(),
    ensures
        from <= r <= a.len(),
        a@.subrange(from as int, r as int) == right_trimmed(a@.skip(from as int)),
{
    let mut i: usize = a.len();
    assert(a@.subrange(from as int, i as int) =~= a@.skip(from as int));
    while i > from && (a[i - 1] == '/' || (a[i - 1] == '.' && (i - 1 == from || a[i - 2] == '/')))
        invariant
            from <= i <= a.len(),
            right_trimmed(a@.subrange(from as int, i as int)) == right_trimmed(
                a@.skip(from as int),
            ),
        decreases i,
    {
        assert(a@.subrange(from as int, i as int).drop_last() =~= a@.subrange(
            from as int,
            i - 1,
        ));
        i -= 1;
    }
    i
}

/// A relative path of two named components.
pub proof fn two_components(a: Seq<char>, b: Seq<char>)
    requires
        !a.contains('/'),
        !b.contains('/'),
        a.len() > 0,
        b.len() > 0,
        a != "."@,
        b != "."@,
    ensures
        components(a + seq!['/'] + b) == seq![a, b],
{
    let path = a + seq!['/'] + b;
    let keep = |p: Seq<char>| p.len() > 0 && p != "."@;
    pieces_add(a, b, '/');
    pieces_whole(a, '/');
    pieces_whole(b, '/');
    let parts = seq![a, b];
    assert(seq![a] + seq![b] =~= parts);
    all_kept(parts, keep);
    assert(path[0] == a[0]);
    assert(a[0] != '/') by {
        if a[0] == '/' {
            assert(a.contains('/'));
        }
    }
    if dot_first(path) {
        reveal_strlit(".");
        if a.len() == 1 {
            assert(a =~= "."@);
        } else {
            assert(path[1] == a[1]);
            assert(a.contains('/'));
        }
    }
}

/// A path below a directory; an absolute path stands for itself.
pub open spec fn joined_path(dir: Seq<char>, path: Seq<char>) -> Seq<char> {
    if absolute(path) || dir.len() == 0 {
        path
    } else if dir.last() == '/' {
        dir + path
    } else {
        dir + "/"@ + path
    }
}

/// A path below a directory; an absolute path stands for itself.
pub fn join_path(dir: &str, path: &str) -> (r: String)
    ensures
        r@ == joined_path(dir@, path@),
{
    let a = chars_of(dir);
    if is_absolute(path) || a.len() == 0 {
        return copy(path);
    }
    let mut out = copy(dir);
    if a[a.len() - 1] != '/' {
        out.append("/");
    }
    out.append(path);
    out
}

/// The last component of a path, where it names something.
pub open spec fn file_name(p: Seq<char>) -> Option<Seq<char>> {
    let parts = components(p);
    if parts.len() == 0 || parts.last() == "/"@ || parts.last() == "."@ || parts.last() == ".."@ {
        None
    } else {
        Some(parts.last())
    }
}

/// What stands behind the last dot of a file name, where something stands
/// before it.
pub open spec fn extension(p: Seq<char>) -> Option<Seq<char>> {
    match file_name(p) {
        Some(name) => if last_at(name, '.') <= 0 {
            None
        } else {
            Some(name.skip(last_at(name, '.') + 1))
        },
        None => None,
    }
}

/// The last component of a path, where it names something.
pub fn file_name_of(p: &str) -> (r: Option<String>)
    ensures
        match r {
            Some(name) => file_name(p@) == Some(name@),
            None => file_name(p@) == None::<Seq<char>>,
        },
{
    let parts = components_of(p);
    assert(texts(parts@).len() == parts@.len());
    if parts.len() == 0 {
        return None;
    }
    let last = &parts[parts.len() - 1];
    assert(texts(parts@).last() == last@);
    if same(last, "/") || same(last, ".") || same(last, "..") {
        return None;
    }
    Some(copy(last))
}

/// What stands behind the last dot of a file name, where something stands
/// before it.
pub fn extension_of(p: &str) -> (r: Option<String>)
    ensures
        match r {
            Some(ext) => extension(p@) == Some(ext@),
            None => extension(p@) == None::<Seq<char>>,
        },
{
    match file_name_of(p) {
        Some(name) => match rsplit_once(&name, '.') {
            Some((head, ext)) => {
                proof {
                    last_at_means(name@, '.');
                    assert(head@.len() == last_at(name@, '.'));
                }
                if head.as_str().is_empty() {
                    None
                } else {
                    Some(ext)
                }
            },
            None => None,
        },
        None => None,
    }
}

// ---------------------------------------------------------------------------
// Which paths are taken
// ---------------------------------------------------------------------------

/// A path of a workspace is taken exactly where it is relative, has no backslashes,
/// names something, and every part of it names something or the place where it
/// stands: none is empty and none leads upwards.
pub proof fn sound_paths_are_taken(raw: &str, r: Result<String, PathError>)
    requires
        call_ensures(validate_rel_path, (raw,), r),
    ensures
        r is Ok <==> raw@.len() > 0 && !raw@.contains('\\') && raw@[0] != '/' && (forall|i: int|
            0 <= i < pieces(raw@, '/').len() ==> (#[trigger] pieces(raw@, '/')[i]).len() > 0
                && pieces(raw@, '/')[i] != ".."@) && exists|i: int|
            0 <= i < pieces(raw@, '/').len() && #[trigger] pieces(raw@, '/')[i] != "."@,
        r is Ok ==> forall|i: int|
            0 <= i < pieces(raw@, '/').len() && #[trigger] pieces(raw@, '/')[i] != "."@ ==> pieces(
                r->Ok_0@,
                '/',
            ).contains(pieces(raw@, '/')[i]),
{
    let parts = pieces(raw@, '/');
    let keep = |p: Seq<char>| p != "."@;
    let kept = parts.filter(keep);
    assert(kept == named(parts));
    no_fault_means(parts);
    assert forall|i: int| 0 <= i < parts.len() && #[trigger] parts[i] != "."@ implies kept.contains(
        parts[i],
    ) by {
        parts.lemma_filter_contains(keep, i);
    }
    if kept.len() > 0 {
        parts.lemma_filter_pred(keep, 0);
        parts.lemma_filter_contains_rev(keep, kept[0]);
        let i = parts.index_of(kept[0]);
        assert(parts[i] != "."@);
    }
    if r is Ok {
        normal_path_components(raw@, r->Ok_0@);
    }
}

/// A relative path that is joined to a directory stands behind it, with one slash
/// between them; an absolute one stands for itself.
pub proof fn joined_stands_behind(dir: &str, path: &str, r: String)
    requires
        call_ensures(join_path, (dir, path), r),
    ensures
        path@.len() > 0 && path@[0] == '/' ==> r@ == path@,
        dir@.len() == 0 ==> r@ == path@,
        (path@.len() == 0 || path@[0] != '/') && dir@.len() > 0 && dir@.last() != '/' ==> r@ == dir@
            + "/"@ + path@,
        (path@.len() == 0 || path@[0] != '/') && dir@.len() > 0 && dir@.last() == '/' ==> r@ == dir@
            + path@,
{
}

/// The extension of a file name is what stands behind its last dot, where
/// something stands before it.
pub proof fn extension_stands_behind_the_dot(
    p: &str,
    r: Option<String>,
    stem: Seq<char>,
    ext: Seq<char>,
)
    requires
        call_ensures(extension_of, (p,), r),
        !p@.contains('/'),
        p@.len() > 0,
        p@ != "."@,
        p@ != ".."@,
    ensures
        p@ == stem + seq!['.'] + ext && !ext.contains('.') && stem.len() > 0 ==> r is Some && r->0@
            == ext,
        !p@.contains('.') ==> r is None,
{
    let s = p@;
    reveal_strlit(".");
    reveal_strlit("/");
    pieces_whole(s, '/');
    let parts = seq![s];
    let keep = |q: Seq<char>| q.len() > 0 && q != "."@;
    all_kept(parts, keep);
    assert(s.contains(s[0]));
    if s.len() > 1 {
        assert(s.contains(s[1]));
    } else if s[0] == '.' {
        assert(s =~= "."@);
    }
    assert(!absolute(s));
    assert(!dot_first(s));
    assert(components(s) == parts);
    assert(parts.last() == s);
    if s == "/"@ {
        assert(s[0] == '/');
    }
    assert(file_name(s) == Some(s));
    if s == stem + seq!['.'] + ext && !ext.contains('.') && stem.len() > 0 {
        assert forall|i: int| stem.len() < i < s.len() implies s[i] != '.' by {
            assert(ext.contains(ext[i - stem.len() - 1]));
        }
        crate::text::last_at_is(s, '.', stem.len() as int);
        assert(s.skip(stem.len() as int + 1) =~= ext);
    }
    if !s.contains('.') {
        last_at_means(s, '.');
        if last_at(s, '.') > 0 {
            assert(s[last_at(s, '.')] == '.');
        }
    }
}

} // verus!
