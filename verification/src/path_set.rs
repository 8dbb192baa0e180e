//! The order of paths, and sets of paths kept in it.

use vstd::prelude::*;

use crate::paths::{components, components_of};
use crate::text::{
    before, before_irreflexive, before_total, before_transitive, precedes, same, texts,
};

verus! {

// ---------------------------------------------------------------------------
// The order of paths
// ---------------------------------------------------------------------------

/// Which kind of component stands first: the root, then `.`, then `..`, then
/// those with a name.
pub open spec fn part_rank(part: Seq<char>) -> int {
    if part == "/"@ {
        0
    } else if part == "."@ {
        1
    } else if part == ".."@ {
        2
    } else {
        3
    }
}

/// A component stands before another.
pub open spec fn part_before(a: Seq<char>, b: Seq<char>) -> bool {
    part_rank(a) < part_rank(b) || (part_rank(a) == part_rank(b) && before(a, b))
}

/// A path stands before another component by component.
pub open spec fn path_before(a: Seq<Seq<char>>, b: Seq<Seq<char>>) -> bool
    decreases a.len(),
{
    if b.len() == 0 {
        false
    } else if a.len() == 0 {
        true
    } else if a[0] != b[0] {
        part_before(a[0], b[0])
    } else {
        path_before(a.skip(1), b.skip(1))
    }
}

proof fn part_before_total(a: Seq<char>, b: Seq<char>)
    ensures
        a != b ==> part_before(a, b) || part_before(b, a),
        !part_before(a, a),
        part_before(a, b) ==> !part_before(b, a),
{
    before_total(a, b);
    before_irreflexive(a);
    if before(a, b) && before(b, a) {
        before_transitive(a, b, a);
    }
}

proof fn part_before_transitive(a: Seq<char>, b: Seq<char>, c: Seq<char>)
    requires
        part_before(a, b),
        part_before(b, c),
    ensures
        part_before(a, c),
{
    if before(a, b) && before(b, c) {
        before_transitive(a, b, c);
    }
}

pub proof fn path_before_asymmetric(a: Seq<Seq<char>>, b: Seq<Seq<char>>)
    requires
        path_before(a, b),
    ensures
        !path_before(b, a),
    decreases a.len(),
{
    if a.len() > 0 && b.len() > 0 {
        if a[0] == b[0] {
            path_before_asymmetric(a.skip(1), b.skip(1));
        } else {
            part_before_total(a[0], b[0]);
        }
    }
}

pub proof fn path_before_carries_over(a: Seq<Seq<char>>, b: Seq<Seq<char>>, c: Seq<Seq<char>>)
    requires
        path_before(a, b),
        !path_before(c, b),
    ensures
        path_before(a, c),
    decreases a.len(),
{
    if a.len() > 0 && b.len() > 0 && c.len() > 0 {
        if a[0] == b[0] && b[0] == c[0] {
            path_before_carries_over(a.skip(1), b.skip(1), c.skip(1));
        } else if a[0] != b[0] && b[0] != c[0] {
            part_before_total(b[0], c[0]);
            part_before_total(a[0], c[0]);
            part_before_transitive(a[0], b[0], c[0]);
        } else if a[0] == b[0] {
            part_before_total(b[0], c[0]);
        }
    }
}

/// Of two different paths one stands before the other.
pub proof fn path_before_total(a: Seq<Seq<char>>, b: Seq<Seq<char>>)
    ensures
        a != b ==> path_before(a, b) || path_before(b, a),
        !path_before(a, a),
    decreases a.len(),
{
    if a.len() > 0 {
        if b.len() > 0 {
            if a[0] != b[0] {
                part_before_total(a[0], b[0]);
            } else {
                path_before_total(a.skip(1), b.skip(1));
                if a.skip(1) == b.skip(1) {
                    assert(a =~= seq![a[0]] + a.skip(1));
                    assert(b =~= seq![b[0]] + b.skip(1));
                }
            }
        }
        path_before_total(a.skip(1), a.skip(1));
    } else if b.len() == 0 {
        assert(a =~= b);
    }
}

fn rank_of(part: &str) -> (r: u8)
    ensures
        r == part_rank(part@),
{
    if same(part, "/") {
        0
    } else if same(part, ".") {
        1
    } else if same(part, "..") {
        2
    } else {
        3
    }
}

/// Whether a path stands before another component by component.
pub fn path_precedes(a: &Vec<String>, b: &Vec<String>) -> (r: bool)
    ensures
        r == path_before(texts(a@), texts(b@)),
{
    let ghost x = texts(a@);
    let ghost y = texts(b@);
    let mut i: usize = 0;
    assert(x.skip(0) =~= x);
    assert(y.skip(0) =~= y);
    while i < a.len() && i < b.len()
        invariant
            x == texts(a@),
            y == texts(b@),
            i <= a@.len(),
            i <= b@.len(),
            path_before(x, y) == path_before(x.skip(i as int), y.skip(i as int)),
        decreases a@.len() - i,
    {
        if !same(&a[i], &b[i]) {
            let left: u8 = rank_of(&a[i]);
            let right: u8 = rank_of(&b[i]);
            return left < right || (left == right && precedes(&a[i], &b[i]));
        }
        assert(x.skip(i as int).skip(1) =~= x.skip(i + 1));
        assert(y.skip(i as int).skip(1) =~= y.skip(i + 1));
        i += 1;
    }
    i < b.len()
}

// ---------------------------------------------------------------------------
// Sets of paths
// ---------------------------------------------------------------------------

/// Every path stands before the next.
pub open spec fn paths_ascend(paths: Seq<Seq<char>>) -> bool {
    forall|i: int, j: int|
        0 <= i < j < paths.len() ==> path_before(
            components(#[trigger] paths[i]),
            components(#[trigger] paths[j]),
        )
}

/// One of `paths` has the components of `path`.
pub open spec fn has_path(paths: Seq<Seq<char>>, path: Seq<char>) -> bool {
    exists|i: int|
        0 <= i < paths.len() && components(#[trigger] paths[i]) == components(path)
}

/// How many of ascending paths stand before `path`.
pub open spec fn path_place(paths: Seq<Seq<char>>, path: Seq<char>) -> int
    decreases paths.len(),
{
    if paths.len() == 0 {
        0
    } else if path_before(components(paths.last()), components(path)) {
        paths.len() as int
    } else {
        path_place(paths.drop_last(), path)
    }
}

/// Ascending paths with one more in its place; unchanged where it is there
/// already, under whatever spelling.
pub open spec fn with_path(paths: Seq<Seq<char>>, path: Seq<char>) -> Seq<Seq<char>> {
    if has_path(paths, path) {
        paths
    } else {
        paths.insert(path_place(paths, path), path)
    }
}

/// What `path_place` means.
proof fn place_means(paths: Seq<Seq<char>>, path: Seq<char>)
    requires
        paths_ascend(paths),
    ensures
        0 <= path_place(paths, path) <= paths.len(),
        forall|i: int|
            0 <= i < path_place(paths, path) ==> path_before(
                components(#[trigger] paths[i]),
                components(path),
            ),
        forall|i: int|
            path_place(paths, path) <= i < paths.len() ==> !path_before(
                components(#[trigger] paths[i]),
                components(path),
            ),
    decreases paths.len(),
{
    if paths.len() > 0 {
        let last = paths.last();
        let c = components(path);
        if path_before(components(last), c) {
            assert forall|i: int| 0 <= i < paths.len() implies path_before(
                components(#[trigger] paths[i]),
                c,
            ) by {
                if i < paths.len() - 1 {
                    assert(path_before(components(paths[i]), components(last)));
                    path_before_asymmetric(components(last), c);
                    path_before_carries_over(components(paths[i]), components(last), c);
                }
            }
        } else {
            let init = paths.drop_last();
            assert forall|i: int, j: int| 0 <= i < j < init.len() implies path_before(
                components(#[trigger] init[i]),
                components(#[trigger] init[j]),
            ) by {
                assert(init[i] == paths[i] && init[j] == paths[j]);
            }
            place_means(init, path);
            let at = path_place(init, path);
            assert forall|i: int| 0 <= i < at implies path_before(
                components(#[trigger] paths[i]),
                c,
            ) by {
                assert(init[i] == paths[i]);
            }
            assert forall|i: int| at <= i < paths.len() implies !path_before(
                components(#[trigger] paths[i]),
                c,
            ) by {
                if i < init.len() {
                    assert(init[i] == paths[i]);
                }
            }
        }
    }
}

/// A path that is added is in the set, with all that were there and no others,
/// and the paths still ascend.
pub proof fn with_path_means(paths: Seq<Seq<char>>, path: Seq<char>)
    requires
        paths_ascend(paths),
    ensures
        paths_ascend(with_path(paths, path)),
        forall|p: Seq<char>| #[trigger]
            has_path(with_path(paths, path), p) <==> has_path(paths, p) || components(p)
                == components(path),
{
    let now = with_path(paths, path);
    let c = components(path);
    if has_path(paths, path) {
        let k = choose|i: int| 0 <= i < paths.len() && components(#[trigger] paths[i]) == c;
        assert forall|p: Seq<char>| #[trigger] has_path(now, p) <==> has_path(paths, p)
            || components(p) == c by {
            if components(p) == c {
                assert(components(paths[k]) == components(p));
            }
        }
    } else {
        place_means(paths, path);
        let at = path_place(paths, path);
        assert forall|i: int| at <= i < paths.len() implies path_before(
            c,
            components(#[trigger] paths[i]),
        ) by {
            path_before_total(c, components(paths[i]));
        }
        assert forall|i: int, j: int| 0 <= i < j < now.len() implies path_before(
            components(#[trigger] now[i]),
            components(#[trigger] now[j]),
        ) by {
            if i < at {
                assert(now[i] == paths[i]);
            } else if i > at {
                assert(now[i] == paths[i - 1]);
            }
            if j < at {
                assert(now[j] == paths[j]);
            } else if j > at {
                assert(now[j] == paths[j - 1]);
            }
        }
        assert forall|p: Seq<char>| #[trigger] has_path(now, p) <==> has_path(paths, p)
            || components(p) == c by {
            if has_path(now, p) {
                let k = choose|k: int|
                    0 <= k < now.len() && components(#[trigger] now[k]) == components(p);
                if k < at {
                    assert(components(paths[k]) == components(p));
                } else if k > at {
                    assert(components(paths[k - 1]) == components(p));
                }
            }
            if has_path(paths, p) {
                let k = choose|k: int|
                    0 <= k < paths.len() && components(#[trigger] paths[k]) == components(p);
                if k < at {
                    assert(components(now[k]) == components(p));
                } else {
                    assert(components(now[k + 1]) == components(p));
                }
            }
            if components(p) == c {
                assert(components(now[at]) == components(p));
            }
        }
    }
}

/// Paths, each once, in their order. Two spellings of the same components are
/// one path; the first that was added is kept.
#[derive(Debug)]
pub struct PathSet {
    paths: Vec<String>,
}

impl View for PathSet {
    type V = Seq<Seq<char>>;

    closed spec fn view(&self) -> Seq<Seq<char>> {
        texts(self.paths@)
    }
}

impl PathSet {
    /// The paths ascend.
    pub open spec fn wf(self) -> bool {
        paths_ascend(self@)
    }

    /// A set without paths.
    pub fn new() -> (r: Self)
        ensures
            r.wf(),
            r@ == Seq::<Seq<char>>::empty(),
    {
        let r = PathSet { paths: Vec::new() };
        assert(r@ =~= Seq::<Seq<char>>::empty());
        r
    }

    /// Adds a path.
    pub fn insert(&mut self, path: String)
        requires
            old(self).wf(),
        ensures
            final(self).wf(),
            final(self)@ == with_path(old(self)@, path@),
    {
        let ghost was = self@;
        proof {
            place_means(was, path@);
            with_path_means(was, path@);
        }
        let parts = components_of(&path);
        let mut at: usize = self.paths.len();
        assert(was.take(at as int) =~= was);
        while at > 0
            invariant
                was == texts(self.paths@),
                paths_ascend(was),
                texts(parts@) == components(path@),
                forall|i: int|
                    0 <= i < path_place(was, path@) ==> path_before(
                        components(#[trigger] was[i]),
                        components(path@),
                    ),
                at <= self.paths@.len(),
                path_place(was.take(at as int), path@) == path_place(was, path@),
                forall|i: int|
                    at <= i < was.len() ==> components(#[trigger] was[i]) != components(path@)
                        && !path_before(components(was[i]), components(path@)),
            ensures
                at <= self.paths@.len(),
                at == path_place(was, path@),
                !has_path(was, path@),
            decreases at,
        {
            let other = components_of(&self.paths[at - 1]);
            assert(was[at - 1] == self.paths@[at - 1]@);
            assert(was.take(at as int).last() == was[at - 1]);
            assert(was.take(at as int).drop_last() =~= was.take(at - 1));
            if crate::daemon::same_lists(&other, &parts) {
                return;
            }
            if path_precedes(&other, &parts) {
                proof {
                    assert forall|i: int| 0 <= i < was.len() implies components(
                        #[trigger] was[i],
                    ) != components(path@) by {
                        path_before_total(components(path@), components(path@));
                    }
                }
                break;
            }
            at -= 1;
        }
        self.paths.insert(at, path);
        assert(self@ =~= was.insert(at as int, path@));
    }

    /// How many paths there are.
    pub fn len(&self) -> (r: usize)
        ensures
            r == self@.len(),
    {
        self.paths.len()
    }

    /// Whether there is no path.
    pub fn is_empty(&self) -> (r: bool)
        ensures
            r == (self@.len() == 0),
    {
        self.paths.len() == 0
    }

    /// The paths, in order.
    pub fn items(self) -> (r: Vec<String>)
        ensures
            texts(r@) == self@,
    {
        self.paths
    }
}

} // verus!
