//! Suggestions for names that were probably mistyped.

use vstd::prelude::*;
use vstd::string::*;

use crate::text::{chars_of, copy, texts};

verus! {

/// The smallest of three numbers.
pub open spec fn least(a: nat, b: nat, c: nat) -> nat {
    if a <= b && a <= c {
        a
    } else if b <= c {
        b
    } else {
        c
    }
}

/// How many characters must be replaced, added or left out to turn `a` into
/// `b`.
pub open spec fn distance(a: Seq<char>, b: Seq<char>) -> nat
    decreases a.len() + b.len(),
{
    if a.len() == 0 {
        b.len()
    } else if b.len() == 0 {
        a.len()
    } else {
        let change: nat = if a.last() == b.last() {
            0
        } else {
            1
        };
        least(
            distance(a.drop_last(), b.drop_last()) + change,
            distance(a.drop_last(), b) + 1,
            distance(a, b.drop_last()) + 1,
        )
    }
}

/// A text has no distance from itself, and from no other.
pub proof fn distance_zero(a: Seq<char>, b: Seq<char>)
    ensures
        distance(a, b) == 0 <==> a == b,
    decreases a.len() + b.len(),
{
    if a.len() == 0 || b.len() == 0 {
        assert(a.len() == b.len() ==> a =~= b);
    } else {
        distance_zero(a.drop_last(), b.drop_last());
        if a == b {
            assert(a.drop_last() == b.drop_last());
        } else if a.last() == b.last() && a.drop_last() == b.drop_last() {
            assert(a =~= a.drop_last().push(a.last()));
            assert(b =~= b.drop_last().push(b.last()));
        }
    }
}

/// The distance is the same both ways.
pub proof fn distance_symmetric(a: Seq<char>, b: Seq<char>)
    ensures
        distance(a, b) == distance(b, a),
    decreases a.len() + b.len(),
{
    if a.len() > 0 && b.len() > 0 {
        distance_symmetric(a.drop_last(), b.drop_last());
        distance_symmetric(a.drop_last(), b);
        distance_symmetric(a, b.drop_last());
    }
}

/// The distance is at most the length of the longer text.
pub proof fn distance_bound(a: Seq<char>, b: Seq<char>)
    ensures
        distance(a, b) <= a.len() || distance(a, b) <= b.len(),
    decreases a.len() + b.len(),
{
    if a.len() > 0 && b.len() > 0 {
        distance_bound(a.drop_last(), b.drop_last());
    }
}

/// How many characters must be replaced, added or left out to turn `a` into
/// `b`.
fn edit_distance(a: &str, b: &str) -> (r: u128)
    ensures
        r == distance(a@, b@),
{
    let x = chars_of(a);
    let y = chars_of(b);
    let mut row: Vec<u128> = Vec::new();
    let mut j: usize = 0;
    while j < y.len()
        invariant
            j <= y.len(),
            row@.len() == j,
            forall|k: int|
                0 <= k < j ==> #[trigger] row@[k] == distance(x@.take(0), y@.take(k + 1)),
        decreases y.len() - j,
    {
        row.push(j as u128 + 1);
        j += 1;
    }
    let mut i: usize = 0;
    while i < x.len()
        invariant
            i <= x.len(),
            row@.len() == y.len(),
            forall|k: int|
                0 <= k < y.len() ==> #[trigger] row@[k] == distance(x@.take(i as int), y@.take(
                    k + 1,
                )),
        decreases x.len() - i,
    {
        let ghost above = row@;
        let mut diagonal: u128 = i as u128;
        let mut left: u128 = i as u128 + 1;
        let mut j: usize = 0;
        assert(y@.take(0).len() == 0);
        assert(distance(x@.take(i + 1), y@.take(0)) == i + 1);
        assert(distance(x@.take(i as int), y@.take(0)) == i);
        while j < y.len()
            invariant
                i < x.len(),
                j <= y.len(),
                row@.len() == y.len(),
                above.len() == y.len(),
                diagonal == distance(x@.take(i as int), y@.take(j as int)),
                left == distance(x@.take(i + 1), y@.take(j as int)),
                forall|k: int|
                    0 <= k < y.len() ==> #[trigger] above[k] == distance(x@.take(i as int), y@.take(
                        k + 1,
                    )),
                forall|k: int|
                    0 <= k < j ==> #[trigger] row@[k] == distance(x@.take(i + 1), y@.take(k + 1)),
                forall|k: int| j <= k < y.len() ==> #[trigger] row@[k] == above[k],
            decreases y.len() - j,
        {
            proof {
                let p = x@.take(i + 1);
                let q = y@.take(j + 1);
                assert(p.drop_last() =~= x@.take(i as int));
                assert(q.drop_last() =~= y@.take(j as int));
                assert(p.last() == x@[i as int]);
                assert(q.last() == y@[j as int]);
                distance_bound(p.drop_last(), q.drop_last());
                distance_bound(p.drop_last(), q);
                distance_bound(p, q.drop_last());
            }
            let change: u128 = if x[i] == y[j] {
                0
            } else {
                1
            };
            let up: u128 = row[j];
            let mut best: u128 = diagonal + change;
            if up + 1 < best {
                best = up + 1;
            }
            if left + 1 < best {
                best = left + 1;
            }
            row.set(j, best);
            diagonal = up;
            left = best;
            j += 1;
        }
        i += 1;
    }
    assert(x@.take(i as int) =~= x@);
    assert(y@.take(y.len() as int) =~= y@);
    if y.len() == 0 {
        x.len() as u128
    } else {
        row[y.len() - 1]
    }
}

/// The position of the candidate nearest to `input`, the first of them where
/// several are; -1 without candidates.
pub open spec fn nearest(input: Seq<char>, candidates: Seq<Seq<char>>) -> int
    decreases candidates.len(),
{
    if candidates.len() == 0 {
        -1
    } else {
        let best = nearest(input, candidates.drop_last());
        if best < 0 || distance(input, candidates.last()) < distance(input, candidates[best]) {
            candidates.len() - 1
        } else {
            best
        }
    }
}

/// The candidate worth suggesting for `input`: the nearest, if it is within
/// one edit and one more for every three characters.
pub open spec fn suggestion(input: Seq<char>, candidates: Seq<Seq<char>>) -> Option<Seq<char>> {
    let best = nearest(input, candidates);
    if best < 0 || distance(input, candidates[best]) > 1 + input.len() / 3 {
        None
    } else {
        Some(candidates[best])
    }
}

/// The nearest candidate is one of them, and none is nearer.
pub proof fn nearest_means(input: Seq<char>, candidates: Seq<Seq<char>>)
    ensures
        -1 <= nearest(input, candidates) < candidates.len(),
        candidates.len() > 0 ==> nearest(input, candidates) >= 0,
        forall|i: int|
            0 <= i < candidates.len() ==> distance(input, candidates[nearest(input, candidates)])
                <= distance(input, #[trigger] candidates[i]),
    decreases candidates.len(),
{
    if candidates.len() > 0 {
        let init = candidates.drop_last();
        nearest_means(input, init);
        let best = nearest(input, candidates);
        assert forall|i: int| 0 <= i < candidates.len() implies distance(input, candidates[best])
            <= distance(input, #[trigger] candidates[i]) by {
            if i < init.len() {
                assert(init[i] == candidates[i]);
            }
        }
    }
}

/// The closest candidate to `input`, when one is close enough to be worth
/// suggesting.
pub fn closest(input: &str, candidates: &Vec<String>) -> (r: Option<String>)
    ensures
        match r {
            Some(name) => suggestion(input@, texts(candidates@)) == Some(name@),
            None => suggestion(input@, texts(candidates@)) == None::<Seq<char>>,
        },
{
    let ghost names = texts(candidates@);
    let mut best: Option<(u128, usize)> = None;
    let mut i: usize = 0;
    while i < candidates.len()
        invariant
            i <= candidates.len(),
            names == texts(candidates@),
            match best {
                Some((d, k)) => k < i && nearest(input@, names.take(i as int)) == k && d
                    == distance(input@, names[k as int]),
                None => i == 0,
            },
        decreases candidates.len() - i,
    {
        assert(names.take(i + 1).drop_last() =~= names.take(i as int));
        assert(names[i as int] == candidates@[i as int]@);
        assert(i == 0 ==> nearest(input@, names.take(i as int)) == -1);
        assert(names.take(i + 1).last() == names[i as int]);
        assert(forall|k: int| 0 <= k < i ==> #[trigger] names.take(i + 1)[k] == names[k]);
        let d: u128 = edit_distance(input, &candidates[i]);
        match best {
            Some((least, _)) => {
                if d < least {
                    best = Some((d, i));
                }
            },
            None => {
                best = Some((d, i));
            },
        }
        i += 1;
    }
    assert(names.take(i as int) =~= names);
    let budget: u128 = 1 + (chars_of(input).len() / 3) as u128;
    match best {
        Some((d, k)) => if d <= budget {
            assert(names[k as int] == candidates@[k as int]@);
            Some(copy(&candidates[k]))
        } else {
            None
        },
        None => None,
    }
}

// ---------------------------------------------------------------------------
// What is suggested
// ---------------------------------------------------------------------------

/// A suggestion is one of the candidates, is near enough, and no candidate is
/// nearer. There is one wherever a candidate is near enough.
pub proof fn suggestion_is_nearest(
    input: &str,
    candidates: Vec<String>,
    r: Option<String>,
    i: int,
)
    requires
        call_ensures(closest, (input, &candidates), r),
        0 <= i < candidates@.len(),
    ensures
        distance(input@, candidates@[i]@) <= 1 + input@.len() / 3 ==> r is Some,
        r is Some ==> texts(candidates@).contains(r->0@) && distance(input@, r->0@) <= 1
            + input@.len() / 3 && distance(input@, r->0@) <= distance(input@, candidates@[i]@),
{
    let names = texts(candidates@);
    nearest_means(input@, names);
    assert(names.len() == candidates@.len());
    assert(names[i] == candidates@[i]@);
    let best = nearest(input@, names);
    assert(names.contains(names[best]));
}

proof fn same_end(a: Seq<char>, b: Seq<char>, q: Seq<char>)
    ensures
        distance(a + q, b + q) <= distance(a, b),
    decreases q.len(),
{
    if q.len() == 0 {
        assert(a + q =~= a && b + q =~= b);
    } else {
        same_end(a, b, q.drop_last());
        assert((a + q).drop_last() =~= a + q.drop_last());
        assert((b + q).drop_last() =~= b + q.drop_last());
        assert((a + q).last() == (b + q).last());
    }
}

/// One character more, or another one in its place, is one edit.
pub proof fn one_edit(p: Seq<char>, c: char, d: char, q: Seq<char>)
    ensures
        distance(p + seq![c] + q, p + q) == 1,
        distance(p + q, p + seq![c] + q) == 1,
        c != d ==> distance(p + seq![c] + q, p + seq![d] + q) == 1,
{
    let with_c = p + seq![c];
    let with_d = p + seq![d];
    distance_zero(p, p);
    distance_zero(with_c + q, p + q);
    assert((with_c + q).len() != (p + q).len());
    assert(with_c.drop_last() =~= p && with_d.drop_last() =~= p);
    assert(distance(with_c, p) <= 1) by {
        if p.len() == 0 {
            assert(with_c.len() == 1);
        }
    }
    same_end(with_c, p, q);
    distance_symmetric(with_c + q, p + q);
    if c != d {
        distance_zero(with_c + q, with_d + q);
        assert((with_c + q)[p.len() as int] == c && (with_d + q)[p.len() as int] == d);
        assert(distance(with_c, with_d) <= 1);
        same_end(with_c, with_d, q);
    }
}

} // verus!
