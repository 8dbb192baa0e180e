//! Completing command lines.

use vstd::prelude::*;
use vstd::string::*;
use vstd::utf8::*;

use crate::manifest::Manifest;
use crate::paths::{join_path, joined_path};
use crate::text::{begins, copy, group_texts, same, starts_with, strip_prefix, texts};

verus! {

/// The workspace that the first `n` arguments name: the last one given counts.
pub open spec fn selected_upto(args: Seq<Seq<char>>, n: nat) -> Option<Seq<char>>
    decreases n,
{
    if n == 0 {
        None
    } else {
        let i = n - 1;
        let arg = args[i];
        if arg == "-C"@ || arg == "--workspace"@ {
            if i + 1 < args.len() {
                Some(args[i + 1])
            } else {
                None
            }
        } else if begins(arg, "--workspace="@) {
            Some(arg.skip(12))
        } else if begins(arg, "-C"@) && arg.len() > 2 {
            Some(arg.skip(2))
        } else {
            selected_upto(args, (n - 1) as nat)
        }
    }
}

/// The workspace of a command line that is being completed.
pub open spec fn workspace_of(args: Seq<Seq<char>>, current: Seq<char>) -> Seq<char> {
    match selected_upto(args, args.len()) {
        Some(path) => joined_path(current, path),
        None => current,
    }
}

/// The workspace of a command line that is being completed: the one it names,
/// seen from the current directory, or the current directory.
pub fn completion_workspace(args: &Vec<String>, current: &str) -> (r: String)
    ensures
        r@ == workspace_of(texts(args@), current@),
{
    let ghost all = texts(args@);
    let mut selected: Option<String> = None;
    let mut i: usize = 0;
    proof {
        reveal_strlit("--workspace=");
        reveal_strlit("-C");
    }
    while i < args.len()
        invariant
            all == texts(args@),
            "--workspace="@.len() == 12,
            "-C"@.len() == 2,
            i <= args@.len(),
            match selected {
                Some(path) => selected_upto(all, i as nat) == Some(path@),
                None => selected_upto(all, i as nat) is None,
            },
        decreases args@.len() - i,
    {
        let arg = &args[i];
        assert(all[i as int] == arg@);
        if same(arg, "-C") || same(arg, "--workspace") {
            selected = if i + 1 < args.len() {
                assert(all[i + 1] == args@[i + 1]@);
                Some(copy(&args[i + 1]))
            } else {
                None
            };
        } else if let Some(value) = strip_prefix(arg, "--workspace=") {
            selected = Some(value);
        } else if let Some(value) = strip_prefix(arg, "-C") {
            proof {
                if arg@.len() <= 2 {
                    assert(arg@ =~= arg@.subrange(0, 2));
                }
            }
            selected = Some(value);
        }
        i += 1;
    }
    match selected {
        Some(path) => join_path(current, &path),
        None => copy(current),
    }
}

/// The values that begin with what was typed.
pub open spec fn matching(current: Seq<char>, values: Seq<Seq<char>>) -> Seq<Seq<char>> {
    values.filter(|v: Seq<char>| begins(v, current))
}

/// The values that begin with what was typed.
pub fn candidates(current: &str, values: &Vec<String>) -> (r: Vec<String>)
    ensures
        texts(r@) == matching(current@, texts(values@)),
{
    broadcast use group_texts;

    let ghost all = texts(values@);
    let ghost fits = |v: Seq<char>| begins(v, current@);
    let mut out: Vec<String> = Vec::new();
    let mut i: usize = 0;
    proof {
        reveal(Seq::filter);
        assert(all.take(0) =~= Seq::empty());
    }
    while i < values.len()
        invariant
            all == texts(values@),
            fits == (|v: Seq<char>| begins(v, current@)),
            i <= values@.len(),
            texts(out@) == all.take(i as int).filter(fits),
        decreases values@.len() - i,
    {
        proof {
            assert(all.take(i + 1) =~= all.take(i as int).push(all[i as int]));
            all.take(i as int).lemma_filter_push(all[i as int], fits);
            assert(all[i as int] == values@[i as int]@);
        }
        if starts_with(&values[i], current) {
            out.push(copy(&values[i]));
        }
        i += 1;
    }
    assert(all.take(i as int) =~= all);
    out
}

/// The names of those of the first `n` targets that are tests.
pub open spec fn tests_upto(m: Manifest, n: nat) -> Seq<Seq<char>>
    decreases n,
{
    if n == 0 {
        Seq::empty()
    } else {
        let before = tests_upto(m, (n - 1) as nat);
        if m.targets.values@[n - 1].kind.tests() {
            before.push(m.targets.values@[n - 1].name@)
        } else {
            before
        }
    }
}

/// The names of the tests of a workspace.
pub fn test_names(manifest: &Manifest) -> (r: Vec<String>)
    ensures
        texts(r@) == tests_upto(*manifest, manifest.targets.values@.len()),
{
    broadcast use group_texts;

    let mut out: Vec<String> = Vec::new();
    let mut i: usize = 0;
    while i < manifest.targets.values.len()
        invariant
            i <= manifest.targets.values@.len(),
            texts(out@) == tests_upto(*manifest, i as nat),
        decreases manifest.targets.values@.len() - i,
    {
        let t = &manifest.targets.values[i];
        if t.kind.is_test() {
            out.push(copy(&t.name));
        }
        i += 1;
    }
    out
}

// ---------------------------------------------------------------------------
// What is completed
// ---------------------------------------------------------------------------

proof fn others_select_nothing(args: Seq<Seq<char>>, i: int, n: nat)
    requires
        0 <= i <= n <= args.len(),
        forall|j: int|
            i <= j < n ==> !begins(#[trigger] args[j], "-C"@) && !begins(args[j], "--workspace"@),
    ensures
        selected_upto(args, n) == selected_upto(args, i as nat),
    decreases n,
{
    if i < n {
        let arg = args[n - 1];
        assert(!begins(arg, "-C"@) && !begins(arg, "--workspace"@));
        reveal_strlit("-C");
        reveal_strlit("--workspace");
        reveal_strlit("--workspace=");
        if arg == "-C"@ {
            assert(arg.subrange(0, 2) =~= arg);
        }
        if arg == "--workspace"@ {
            assert(arg.subrange(0, 11) =~= arg);
        }
        if begins(arg, "--workspace="@) {
            assert(arg.subrange(0, 11) =~= arg.subrange(0, 12).subrange(0, 11));
            assert("--workspace="@.subrange(0, 11) =~= "--workspace"@);
        }
        others_select_nothing(args, i, (n - 1) as nat);
    }
}

/// The workspace is the last that the arguments name, in any of the ways to name
/// one; where they name none it is the current directory.
pub proof fn last_workspace_counts(
    args: Vec<String>,
    current: &str,
    r: String,
    i: int,
    path: Seq<char>,
)
    requires
        call_ensures(completion_workspace, (&args, current), r),
        0 <= i <= args@.len(),
        forall|j: int|
            i < j < args@.len() ==> !begins((#[trigger] args@[j])@, "-C"@) && !begins(
                args@[j]@,
                "--workspace"@,
            ),
    ensures
        i + 1 < args@.len() && (args@[i]@ == "-C"@ || args@[i]@ == "--workspace"@) ==> r@
            == joined_path(current@, args@[i + 1]@),
        i < args@.len() && args@[i]@ == "--workspace="@ + path ==> r@ == joined_path(
            current@,
            path,
        ),
        i < args@.len() && args@[i]@ == "-C"@ + path && path.len() > 0 ==> r@ == joined_path(
            current@,
            path,
        ),
        i == 0 && (args@.len() > 0 ==> !begins(args@[0]@, "-C"@) && !begins(
            args@[0]@,
            "--workspace"@,
        )) ==> r@ == current@,
{
    reveal_strlit("-C");
    reveal_strlit("--workspace");
    reveal_strlit("--workspace=");
    let all = texts(args@);
    let n = all.len();
    assert(n == args@.len());
    assert forall|j: int| i < j < n implies !begins(#[trigger] all[j], "-C"@) && !begins(
        all[j],
        "--workspace"@,
    ) by {
        assert(all[j] == args@[j]@);
    }
    if i < n {
        assert(all[i] == args@[i]@);
        others_select_nothing(all, i + 1, n);
        if i + 1 < n {
            assert(all[i + 1] == args@[i + 1]@);
        }
        if all[i] == "--workspace="@ + path {
            assert(all[i].subrange(0, 12) =~= "--workspace="@);
            assert(all[i].skip(12) =~= path);
            assert(all[i][1] == '-');
            assert(all[i] != "-C"@);
            assert(all[i].len() >= 12);
        }
        if all[i] == "-C"@ + path && path.len() > 0 {
            assert(all[i].subrange(0, 2) =~= "-C"@);
            assert(all[i].skip(2) =~= path);
            assert(all[i][1] == 'C');
            assert("--workspace"@[1] == '-');
            if begins(all[i], "--workspace="@) {
                assert(all[i].subrange(0, 12)[1] == all[i][1]);
            }
        }
    }
    if i == 0 && (args@.len() > 0 ==> !begins(args@[0]@, "-C"@) && !begins(
        args@[0]@,
        "--workspace"@,
    )) {
        assert forall|j: int| 0 <= j < n implies !begins(#[trigger] all[j], "-C"@) && !begins(
            all[j],
            "--workspace"@,
        ) by {
            assert(all[j] == args@[j]@);
        }
        others_select_nothing(all, 0, n);
    }
}

/// Every value that begins with what was typed is offered, and no other.
pub proof fn every_fitting_value_is_offered(
    current: &str,
    values: Vec<String>,
    r: Vec<String>,
    s: Seq<char>,
)
    requires
        call_ensures(candidates, (current, &values), r),
    ensures
        texts(r@).contains(s) <==> texts(values@).contains(s) && begins(s, current@),
{
    let all = texts(values@);
    let fits = |v: Seq<char>| begins(v, current@);
    let kept = all.filter(fits);
    if kept.contains(s) {
        all.lemma_filter_contains_rev(fits, s);
        all.lemma_filter_pred(fits, kept.index_of(s));
    }
    if all.contains(s) && begins(s, current@) {
        all.lemma_filter_contains(fits, all.index_of(s));
    }
}

proof fn tests_upto_means(m: Manifest, n: nat, s: Seq<char>)
    requires
        n <= m.targets.values@.len(),
    ensures
        tests_upto(m, n).contains(s) <==> exists|i: int|
            0 <= i < n && (#[trigger] m.targets.values@[i]).kind.tests()
                && m.targets.values@[i].name@ == s,
    decreases n,
{
    if n > 0 {
        let less = (n - 1) as nat;
        tests_upto_means(m, less, s);
        let before = tests_upto(m, less);
        let now = tests_upto(m, n);
        if before.contains(s) {
            assert(now[before.index_of(s)] == s);
        }
        if m.targets.values@[n - 1].kind.tests() {
            assert(now.last() == m.targets.values@[n - 1].name@);
            if now.contains(s) && s != now.last() {
                let k = now.index_of(s);
                assert(before[k] == s);
            }
        }
    }
}

/// Every test of a workspace is offered, and nothing else.
pub proof fn every_test_is_offered(manifest: Manifest, r: Vec<String>, s: Seq<char>)
    requires
        call_ensures(test_names, (&manifest,), r),
    ensures
        texts(r@).contains(s) <==> exists|i: int|
            0 <= i < manifest.targets.values@.len() && (
            #[trigger] manifest.targets.values@[i]).kind.tests()
                && manifest.targets.values@[i].name@ == s,
{
    tests_upto_means(manifest, manifest.targets.values@.len(), s);
}

} // verus!
