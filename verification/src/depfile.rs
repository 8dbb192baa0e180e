//! Makefile-style dependency files, as `gcc -MD -MF` writes them.

use vstd::prelude::*;
use vstd::string::*;

use crate::sorted_map::{in_order, TextSet};
use crate::text::{
    before, before_irreflexive, begins, chars_of, copy, group_texts, is_space, space, strip_prefix,
    text_between, texts,
};

verus! {

/// A character of a dependency file, with its escapes resolved.
pub enum Symbol {
    /// Belongs to a name.
    Letter(char),
    /// An unescaped colon.
    Colon,
    /// The end of a rule.
    Newline,
    /// Other white space.
    Blank,
}

/// How many characters the first symbol of `s` takes, and which it is. A
/// backslash before the end of a line joins the lines; before a space, `#` or
/// a backslash it stands for that character. `$$` stands for `$`.
pub open spec fn first_symbol(s: Seq<char>) -> (nat, Option<Symbol>) {
    let c = s[0];
    if c == '\\' {
        if s.len() > 1 && s[1] == '\n' {
            (2, None)
        } else if s.len() > 1 && s[1] == '\r' {
            if s.len() > 2 && s[2] == '\n' {
                (3, None)
            } else {
                (2, None)
            }
        } else if s.len() > 1 && (s[1] == ' ' || s[1] == '#' || s[1] == '\\') {
            (2, Some(Symbol::Letter(s[1])))
        } else {
            (1, Some(Symbol::Letter(c)))
        }
    } else if c == '$' && s.len() > 1 && s[1] == '$' {
        (2, Some(Symbol::Letter(c)))
    } else if c == ':' {
        (1, Some(Symbol::Colon))
    } else if c == '\n' {
        (1, Some(Symbol::Newline))
    } else if is_space(c) {
        (1, Some(Symbol::Blank))
    } else {
        (1, Some(Symbol::Letter(c)))
    }
}

/// The symbols of a dependency file.
pub open spec fn symbols(s: Seq<char>) -> Seq<Symbol>
    decreases s.len(),
{
    if s.len() == 0 {
        Seq::empty()
    } else {
        let (n, symbol) = first_symbol(s);
        let rest = symbols(s.skip(n as int));
        match symbol {
            Some(x) => seq![x] + rest,
            None => rest,
        }
    }
}

/// What was read so far: the open name, on which side of a colon it stands,
/// and the names on both sides.
pub struct Reading {
    pub name: Seq<char>,
    pub in_deps: bool,
    pub deps: Set<Seq<char>>,
    pub targets: Set<Seq<char>>,
}

impl Reading {
    /// Nothing was read.
    pub open spec fn start() -> Reading {
        Reading {
            name: Seq::empty(),
            in_deps: false,
            deps: Set::empty(),
            targets: Set::empty(),
        }
    }

    /// The open name is complete.
    pub open spec fn close(self) -> Reading {
        if self.name.len() == 0 {
            self
        } else if self.in_deps {
            Reading { name: Seq::empty(), deps: self.deps.insert(self.name), ..self }
        } else {
            Reading { name: Seq::empty(), targets: self.targets.insert(self.name), ..self }
        }
    }

    /// One more symbol is read. The first colon of a rule ends its targets;
    /// a later one belongs to a name.
    pub open spec fn step(self, symbol: Symbol) -> Reading {
        match symbol {
            Symbol::Letter(c) => Reading { name: self.name.push(c), ..self },
            Symbol::Colon => if self.in_deps {
                Reading { name: self.name.push(':'), ..self }
            } else {
                Reading { in_deps: true, ..self.close() }
            },
            Symbol::Newline => Reading { in_deps: false, ..self.close() },
            Symbol::Blank => self.close(),
        }
    }

    /// All of `symbols` are read.
    pub open spec fn read(self, symbols: Seq<Symbol>) -> Reading
        decreases symbols.len(),
    {
        if symbols.len() == 0 {
            self
        } else {
            self.step(symbols[0]).read(symbols.skip(1))
        }
    }
}

/// What a dependency file says.
pub open spec fn reading(text: Seq<char>) -> Reading {
    Reading::start().read(symbols(text)).close()
}

/// The root of a workspace with one slash behind it.
pub open spec fn root_prefix(root: Seq<char>) -> Seq<char> {
    without_slashes(root).push('/')
}

/// `s` without the slashes at its end.
pub open spec fn without_slashes(s: Seq<char>) -> Seq<char>
    decreases s.len(),
{
    if s.len() > 0 && s.last() == '/' {
        without_slashes(s.drop_last())
    } else {
        s
    }
}

/// A path below the workspace root relative to it; another as it is.
pub open spec fn relative(path: Seq<char>, root: Seq<char>) -> Seq<char> {
    if begins(path, root_prefix(root)) {
        path.skip(root_prefix(root).len() as int)
    } else {
        path
    }
}

/// The names that a dependency file has as dependencies and not as targets.
pub open spec fn pure_deps(text: Seq<char>) -> Set<Seq<char>> {
    reading(text).deps.difference(reading(text).targets)
}

/// The dependencies of a file, those below the workspace root relative to it:
/// each path once, in order.
pub open spec fn dependencies(text: Seq<char>, root: Seq<char>) -> Seq<Seq<char>> {
    in_order(pure_deps(text).map(|d: Seq<char>| relative(d, root)))
}

proof fn read_first(state: Reading, x: Symbol, rest: Seq<Symbol>)
    ensures
        state.read(seq![x] + rest) == state.step(x).read(rest),
{
    assert((seq![x] + rest).skip(1) =~= rest);
}

/// The names that are being collected.
struct Names {
    name: String,
    in_deps: bool,
    deps: TextSet,
    targets: TextSet,
}

impl Names {
    spec fn wf(self) -> bool {
        self.deps.wf() && self.targets.wf()
    }

    spec fn model(self) -> Reading {
        Reading {
            name: self.name@,
            in_deps: self.in_deps,
            deps: self.deps@,
            targets: self.targets@,
        }
    }

    fn close(&mut self)
        requires
            old(self).wf(),
        ensures
            final(self).wf(),
            final(self).model() == old(self).model().close(),
    {
        if self.name.as_str().is_empty() {
            return;
        }
        let mut name = String::new();
        core::mem::swap(&mut self.name, &mut name);
        if self.in_deps {
            let _ = self.deps.insert(name);
        } else {
            let _ = self.targets.insert(name);
        }
    }
}

/// The dependency paths of a dependency file, without repetition and without
/// those that are also targets. Paths under `workspace_root` are returned
/// relative to it; others stay as they are.
pub fn parse(text: &str, workspace_root: &str) -> (r: Vec<String>)
    ensures
        texts(r@) == dependencies(text@, workspace_root@),
        texts(r@).no_duplicates(),
        forall|path: Seq<char>| #[trigger]
            texts(r@).contains(path) <==> exists|d: Seq<char>| #[trigger]
                pure_deps(text@).contains(d) && path == relative(d, workspace_root@),
{
    broadcast use group_texts;
    let a = chars_of(text);
    let mut state = Names {
        name: String::new(),
        in_deps: false,
        deps: TextSet::new(),
        targets: TextSet::new(),
    };
    let mut i: usize = 0;
    assert(a@.skip(0) =~= a@);
    while i < a.len()
        invariant
            i <= a.len(),
            a@ == text@,
            state.wf(),
            state.model().read(symbols(a@.skip(i as int))) == Reading::start().read(
                symbols(text@),
            ),
        decreases a.len() - i,
    {
        let c = a[i];
        let ghost rest = a@.skip(i as int);
        let ghost was = state.model();
        let ghost (n, symbol) = first_symbol(rest);
        let more: bool = i + 1 < a.len();
        proof {
            assert(rest.skip(n as int) =~= a@.skip(i + n));
            if let Some(x) = symbol {
                read_first(was, x, symbols(rest.skip(n as int)));
            }
        }
        if c == '\\' {
            if more && a[i + 1] == '\n' {
                i += 2;
            } else if more && a[i + 1] == '\r' {
                if i + 2 < a.len() && a[i + 2] == '\n' {
                    i += 3;
                } else {
                    i += 2;
                }
            } else if more && (a[i + 1] == ' ' || a[i + 1] == '#' || a[i + 1] == '\\') {
                state.name.push(a[i + 1]);
                i += 2;
            } else {
                state.name.push('\\');
                i += 1;
            }
        } else if c == '$' && more && a[i + 1] == '$' {
            state.name.push('$');
            i += 2;
        } else if c == ':' {
            if state.in_deps {
                state.name.push(':');
            } else {
                state.close();
                state.in_deps = true;
            }
            i += 1;
        } else if c == '\n' {
            state.close();
            state.in_deps = false;
            i += 1;
        } else if space(c) {
            state.close();
            i += 1;
        } else {
            state.name.push(c);
            i += 1;
        }
    }
    assert(a@.skip(i as int) =~= Seq::empty());
    state.close();
    let prefix = prefix_of(workspace_root);
    let ghost found = in_order(state.deps@);
    let targets = state.targets;
    let all = state.deps.items();
    let ghost names = texts(all@);
    let ghost shorten = |d: Seq<char>| relative(d, workspace_root@);
    let mut kept = TextSet::new();
    let mut j: usize = 0;
    while j < all.len()
        invariant
            j <= all.len(),
            names == texts(all@),
            kept.wf(),
            targets.wf(),
            prefix@ == root_prefix(workspace_root@),
            shorten == (|d: Seq<char>| relative(d, workspace_root@)),
            forall|x: Seq<char>| #[trigger]
                kept@.contains(x) <==> exists|k: int|
                    0 <= k < j && !targets@.contains(#[trigger] names[k]) && x == shorten(names[k]),
        decreases all.len() - j,
    {
        let ghost was = kept@;
        let ghost name = names[j as int];
        if !targets.contains(&all[j]) {
            let path = match strip_prefix(&all[j], &prefix) {
                Some(rest) => rest,
                None => copy(&all[j]),
            };
            assert(path@ == shorten(name));
            let _ = kept.insert(path);
        }
        proof {
            assert forall|x: Seq<char>| #[trigger]
                kept@.contains(x) <==> exists|k: int|
                    0 <= k < j + 1 && !targets@.contains(#[trigger] names[k]) && x == shorten(
                        names[k],
                    ) by {
                if was.contains(x) {
                    let k = choose|k: int|
                        0 <= k < j && !targets@.contains(#[trigger] names[k]) && x == shorten(
                            names[k],
                        );
                    assert(!targets@.contains(names[k]));
                }
            }
        }
        j += 1;
    }
    proof {
        let pure = pure_deps(text@);
        assert forall|x: Seq<char>| kept@.contains(x) <==> pure.map(shorten).contains(x) by {
            if kept@.contains(x) {
                let k = choose|k: int|
                    0 <= k < j && !targets@.contains(#[trigger] names[k]) && x == shorten(names[k]);
                assert(names.to_set().contains(names[k]));
                assert(pure.contains(names[k]));
            }
            if pure.map(shorten).contains(x) {
                let d = choose|d: Seq<char>| pure.contains(d) && x == shorten(d);
                assert(names.to_set().contains(d));
                let k = names.index_of(d);
                assert(names[k] == d);
            }
        }
        assert(kept@ =~= pure.map(shorten));
    }
    let ghost found = kept@;
    let out = kept.items();
    proof {
        let r = texts(out@);
        assert forall|i: int, j: int| 0 <= i < j < r.len() implies r[i] != r[j] by {
            assert(before(r[i], r[j]));
            before_irreflexive(r[i]);
        }
        assert forall|path: Seq<char>| #[trigger]
            r.contains(path) <==> exists|d: Seq<char>| #[trigger]
                pure_deps(text@).contains(d) && path == relative(d, workspace_root@) by {
            assert(r.contains(path) <==> r.to_set().contains(path));
            if found.contains(path) {
                let d = choose|d: Seq<char>| pure_deps(text@).contains(d) && path == shorten(d);
                assert(pure_deps(text@).contains(d));
            }
        }
    }
    out
}

/// The root of a workspace with one slash behind it.
fn prefix_of(root: &str) -> (r: String)
    ensures
        r@ == root_prefix(root@),
{
    let a = chars_of(root);
    let mut i: usize = a.len();
    assert(a@.take(i as int) =~= a@);
    while i > 0 && a[i - 1] == '/'
        invariant
            i <= a.len(),
            without_slashes(a@.take(i as int)) == without_slashes(a@),
        decreases i,
    {
        assert(a@.take(i as int).drop_last() =~= a@.take(i - 1));
        i -= 1;
    }
    let mut out = text_between(&a, 0, i);
    out.push('/');
    out
}

/// A dependency file never lists one of its own targets.
pub proof fn targets_are_excluded(text: Seq<char>, target: Seq<char>)
    requires
        reading(text).targets.contains(target),
    ensures
        !pure_deps(text).contains(target),
{
}

// ---------------------------------------------------------------------------
// What a rule says
// ---------------------------------------------------------------------------

/// A name as a dependency file writes it.
pub open spec fn escaped(name: Seq<char>) -> Seq<char>
    decreases name.len(),
{
    if name.len() == 0 {
        Seq::empty()
    } else {
        let c = name[0];
        (if c == ' ' || c == '#' || c == '\\' {
            seq!['\\', c]
        } else if c == '$' {
            seq!['$', '$']
        } else {
            seq![c]
        }) + escaped(name.skip(1))
    }
}

/// A name that can be written: of white space it holds blanks alone, and no
/// colon.
pub open spec fn nameable(name: Seq<char>) -> bool {
    &&& name.len() > 0
    &&& forall|i: int|
        0 <= i < name.len() ==> (#[trigger] name[i]) != ':' && name[i] != '\n' && (name[i] == ' '
            || !is_space(name[i]))
}

/// Names one behind the other with `gap` before each, and the end of the rule.
pub open spec fn listing(names: Seq<Seq<char>>, gap: Seq<char>) -> Seq<char>
    decreases names.len(),
{
    if names.len() == 0 {
        seq!['\n']
    } else {
        gap + escaped(names[0]) + listing(names.skip(1), gap)
    }
}

/// A name is read as it is.
proof fn name_is_read(state: Reading, name: Seq<char>, rest: Seq<char>)
    requires
        forall|i: int|
            0 <= i < name.len() ==> (#[trigger] name[i]) != ':' && name[i] != '\n' && (name[i]
                == ' ' || !is_space(name[i])),
    ensures
        state.read(symbols(escaped(name) + rest)) == (Reading {
            name: state.name + name,
            ..state
        }).read(symbols(rest)),
    decreases name.len(),
{
    if name.len() == 0 {
        assert(escaped(name) + rest =~= rest);
        assert(state.name + name =~= state.name);
    } else {
        let c = name[0];
        let tail = name.skip(1);
        let s = escaped(name) + rest;
        let more = escaped(tail) + rest;
        let n: int = if c == ' ' || c == '#' || c == '\\' || c == '$' {
            2
        } else {
            1
        };
        assert(s.skip(n) =~= more);
        assert(s[0] == if c == ' ' || c == '#' { '\\' } else { c });
        assert(first_symbol(s) == (n as nat, Some(Symbol::Letter(c))));
        assert(symbols(s) == seq![Symbol::Letter(c)] + symbols(more));
        read_first(state, Symbol::Letter(c), symbols(more));
        let next = state.step(Symbol::Letter(c));
        assert forall|i: int| 0 <= i < tail.len() implies (#[trigger] tail[i]) != ':' && tail[i]
            != '\n' && (tail[i] == ' ' || !is_space(tail[i])) by {
            assert(tail[i] == name[i + 1]);
        }
        name_is_read(next, tail, rest);
        assert(state.name.push(c) + tail =~= state.name + name);
    }
}

/// A gap ends the open name.
proof fn gap_is_read(state: Reading, gap: Seq<char>, rest: Seq<char>)
    requires
        gap == seq![' '] || gap == seq![' ', '\\', '\n', ' '],
        is_space(' '),
    ensures
        state.read(symbols(gap + rest)) == state.close().read(symbols(rest)),
{
    let s = gap + rest;
    if gap.len() == 1 {
        assert(s.skip(1) =~= rest);
        assert(symbols(s) == seq![Symbol::Blank] + symbols(rest));
        read_first(state, Symbol::Blank, symbols(rest));
    } else {
        let joined = seq!['\\', '\n', ' '] + rest;
        let blank = seq![' '] + rest;
        assert(s.skip(1) =~= joined);
        assert(joined.skip(2) =~= blank);
        assert(blank.skip(1) =~= rest);
        assert(symbols(blank) == seq![Symbol::Blank] + symbols(rest));
        assert(symbols(joined) == symbols(blank));
        assert(symbols(s) == seq![Symbol::Blank] + symbols(blank));
        read_first(state, Symbol::Blank, symbols(blank));
        let closed = state.close();
        read_first(closed, Symbol::Blank, symbols(rest));
        assert(closed.close() == closed);
    }
}

/// The names behind a colon are dependencies.
proof fn listing_is_read(state: Reading, names: Seq<Seq<char>>, gap: Seq<char>)
    requires
        state.in_deps,
        gap == seq![' '] || gap == seq![' ', '\\', '\n', ' '],
        is_space(' '),
        forall|i: int| 0 <= i < names.len() ==> nameable(#[trigger] names[i]),
    ensures
        ({
            let end = state.read(symbols(listing(names, gap)));
            &&& end.name.len() == 0
            &&& end.targets == state.targets
            &&& forall|d: Seq<char>| #[trigger]
                end.deps.contains(d) <==> state.close().deps.contains(d) || names.contains(d)
        }),
    decreases names.len(),
{
    if names.len() == 0 {
        let s = seq!['\n'];
        assert(s.skip(1) =~= Seq::<char>::empty());
        let none = Seq::<Symbol>::empty();
        reveal_with_fuel(symbols, 2);
        assert(symbols(s) =~= seq![Symbol::Newline] + none);
        read_first(state, Symbol::Newline, none);
    } else {
        let rest = names.skip(1);
        let tail = listing(rest, gap);
        assert(listing(names, gap) =~= gap + (escaped(names[0]) + tail));
        gap_is_read(state, gap, escaped(names[0]) + tail);
        let closed = state.close();
        assert(nameable(names[0]));
        name_is_read(closed, names[0], tail);
        let open = Reading { name: closed.name + names[0], ..closed };
        assert(closed.name + names[0] =~= names[0]);
        assert forall|i: int| 0 <= i < rest.len() implies nameable(#[trigger] rest[i]) by {
            assert(rest[i] == names[i + 1]);
        }
        listing_is_read(open, rest, gap);
        let end = state.read(symbols(listing(names, gap)));
        assert forall|d: Seq<char>| #[trigger] end.deps.contains(d) <==> state.close().deps.contains(
            d,
        ) || names.contains(d) by {
            if names.contains(d) {
                let k = names.index_of(d);
                if k > 0 {
                    assert(rest[k - 1] == d);
                }
            }
            if rest.contains(d) {
                assert(names[rest.index_of(d) + 1] == d);
            }
            if d == names[0] {
                assert(names.contains(names[0]));
            }
        }
    }
}

/// Of a rule every name behind the colon is a dependency, on one line or on
/// several joined by backslashes, unless the rule makes it; there are no others.
/// Names below the root of the workspace lose the root.
pub proof fn every_dependency_is_read(
    text: &str,
    root: &str,
    r: Vec<String>,
    target: Seq<char>,
    names: Seq<Seq<char>>,
    gap: Seq<char>,
    path: Seq<char>,
)
    requires
        call_ensures(parse, (text, root), r),
        nameable(target),
        forall|i: int| 0 <= i < names.len() ==> nameable(#[trigger] names[i]),
        gap == seq![' '] || gap == seq![' ', '\\', '\n', ' '],
        is_space(' '),
        text@ == escaped(target) + seq![':'] + listing(names, gap),
        root@.len() == 0 || root@.last() != '/',
    ensures
        texts(r@).contains(path) <==> exists|i: int|
            0 <= i < names.len() && (#[trigger] names[i]) != target && path == (if begins(
                names[i],
                root@ + seq!['/'],
            ) {
                names[i].skip(root@.len() as int + 1)
            } else {
                names[i]
            }),
        texts(r@).no_duplicates(),
{
    let start = Reading::start();
    let tail = listing(names, gap);
    let rest = seq![':'] + tail;
    assert(text@ =~= escaped(target) + rest);
    name_is_read(start, target, rest);
    let open = Reading { name: start.name + target, ..start };
    assert(start.name + target =~= target);
    assert(rest.skip(1) =~= tail);
    assert(symbols(rest) == seq![Symbol::Colon] + symbols(tail));
    read_first(open, Symbol::Colon, symbols(tail));
    let behind = open.step(Symbol::Colon);
    listing_is_read(behind, names, gap);
    let end = reading(text@);
    assert(end == start.read(symbols(text@)));
    assert forall|d: Seq<char>| #[trigger] pure_deps(text@).contains(d) <==> names.contains(d) && d
        != target by {
        assert(end.targets.contains(d) <==> d == target);
    }
    assert(root_prefix(root@) =~= root@ + seq!['/']);
    if texts(r@).contains(path) {
        let d = choose|d: Seq<char>| #[trigger]
            pure_deps(text@).contains(d) && path == relative(d, root@);
        let i = names.index_of(d);
        assert(names[i] == d);
    }
    if exists|i: int|
        0 <= i < names.len() && (#[trigger] names[i]) != target && path == (if begins(
            names[i],
            root@ + seq!['/'],
        ) {
            names[i].skip(root@.len() as int + 1)
        } else {
            names[i]
        }) {
        let i = choose|i: int|
            0 <= i < names.len() && (#[trigger] names[i]) != target && path == (if begins(
                names[i],
                root@ + seq!['/'],
            ) {
                names[i].skip(root@.len() as int + 1)
            } else {
                names[i]
            });
        assert(names.contains(names[i]));
        assert(pure_deps(text@).contains(names[i]));
        assert(path == relative(names[i], root@));
    }
}

} // verus!
