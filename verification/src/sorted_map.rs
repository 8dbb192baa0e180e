//! A map from texts to values, kept in the order of its keys.

use vstd::prelude::*;

use crate::text::{
    before, before_irreflexive, before_total, before_transitive, copies, precedes, same, texts,
};

verus! {

/// A map from texts to values: `values[i]` belongs to `keys[i]`, and the keys
/// ascend.
#[derive(Debug)]
pub struct SortedMap<V> {
    pub keys: Vec<String>,
    pub values: Vec<V>,
}

/// Every text stands before the next.
pub open spec fn ascending(keys: Seq<Seq<char>>) -> bool {
    forall|i: int, j: int| 0 <= i < j < keys.len() ==> before(#[trigger] keys[i], #[trigger] keys[j])
}

/// Ascending texts differ from each other.
pub proof fn ascending_distinct(keys: Seq<Seq<char>>)
    requires
        ascending(keys),
    ensures
        keys.no_duplicates(),
{
    assert forall|i: int, j: int| 0 <= i < keys.len() && 0 <= j < keys.len() && i != j implies
        keys[i] != keys[j] by {
        before_irreflexive(keys[i]);
        if i < j {
            assert(before(keys[i], keys[j]));
        } else {
            assert(before(keys[j], keys[i]));
        }
    }
}

/// Where `key` stands among ascending keys, or would have to stand.
pub open spec fn rank(keys: Seq<Seq<char>>, key: Seq<char>) -> int
    decreases keys.len(),
{
    if keys.len() == 0 {
        0
    } else if before(keys.last(), key) {
        keys.len() as int
    } else {
        rank(keys.drop_last(), key)
    }
}

/// What `rank` means.
pub proof fn rank_means(keys: Seq<Seq<char>>, key: Seq<char>)
    requires
        ascending(keys),
    ensures
        0 <= rank(keys, key) <= keys.len(),
        forall|i: int| 0 <= i < rank(keys, key) ==> before(#[trigger] keys[i], key),
        forall|i: int| rank(keys, key) <= i < keys.len() ==> !before(#[trigger] keys[i], key),
    decreases keys.len(),
{
    if keys.len() > 0 {
        let last = keys.last();
        if before(last, key) {
            assert forall|i: int| 0 <= i < keys.len() implies before(#[trigger] keys[i], key) by {
                if i < keys.len() - 1 {
                    before_transitive(keys[i], last, key);
                }
            }
        } else {
            let init = keys.drop_last();
            assert(ascending(init));
            rank_means(init, key);
            assert forall|i: int| 0 <= i < rank(keys, key) implies before(
                #[trigger] keys[i],
                key,
            ) by {
                assert(init[i] == keys[i]);
            }
            assert forall|i: int| rank(keys, key) <= i < keys.len() implies !before(
                #[trigger] keys[i],
                key,
            ) by {
                if i < init.len() {
                    assert(init[i] == keys[i]);
                }
            }
        }
    }
}

/// What a map from texts to texts holds, in the order of its keys.
pub struct Pairs {
    pub names: Seq<Seq<char>>,
    pub texts: Seq<Seq<char>>,
}

/// What a map from texts to texts holds.
pub open spec fn pairs(m: SortedMap<String>) -> Pairs {
    Pairs { names: texts(m.keys@), texts: texts(m.values@) }
}

/// A copy of a map from texts to texts.
pub fn copy_pairs(m: &SortedMap<String>) -> (r: SortedMap<String>)
    requires
        m.wf(),
    ensures
        r.wf(),
        pairs(r) == pairs(*m),
        r.keys@ == m.keys@,
        r.values@ == m.values@,
{
    SortedMap { keys: copies(&m.keys), values: copies(&m.values) }
}

impl<V> SortedMap<V> {
    /// The keys, in order.
    pub open spec fn names(self) -> Seq<Seq<char>> {
        texts(self.keys@)
    }

    /// Each key has its value, and the keys ascend.
    pub open spec fn wf(self) -> bool {
        &&& self.keys@.len() == self.values@.len()
        &&& ascending(self.names())
    }

    /// `key` has a value.
    pub open spec fn has(self, key: Seq<char>) -> bool {
        self.names().contains(key)
    }

    /// The position of `key`.
    pub open spec fn spot(self, key: Seq<char>) -> int {
        self.names().index_of(key)
    }

    /// The value of `key`.
    pub open spec fn at(self, key: Seq<char>) -> V {
        self.values@[self.spot(key)]
    }

    /// A key is found where it stands.
    pub proof fn spot_is(self, i: int)
        requires
            self.wf(),
            0 <= i < self.keys@.len(),
        ensures
            self.has(self.keys@[i]@),
            self.spot(self.keys@[i]@) == i,
    {
        let names = self.names();
        ascending_distinct(names);
        assert(names[i] == self.keys@[i]@);
        assert(names.contains(names[i]));
        let k = names.index_of(names[i]);
        assert(names[k] == names[i]);
    }

    /// What a map holds after a key was added to another.
    proof fn grown(self, old: Self, at: int, key: Seq<char>, value: V)
        requires
            old.wf(),
            self.wf(),
            0 <= at <= old.names().len(),
            !old.has(key),
            self.names() == old.names().insert(at, key),
            self.values@ == old.values@.insert(at, value),
        ensures
            forall|k: Seq<char>| #[trigger] self.has(k) <==> old.has(k) || k == key,
            forall|k: Seq<char>|
                self.has(k) ==> #[trigger] self.at(k) == if k == key {
                    value
                } else {
                    old.at(k)
                },
    {
        let names = old.names();
        let now = self.names();
        assert forall|k: Seq<char>| #[trigger] self.has(k) <==> old.has(k) || k == key by {
            if old.has(k) {
                let i = old.spot(k);
                assert(now[if i < at {
                    i
                } else {
                    i + 1
                }] == k);
            }
            if k == key {
                assert(now[at] == k);
            }
            if self.has(k) && k != key {
                let i = self.spot(k);
                assert(names[if i < at {
                    i
                } else {
                    i - 1
                }] == k);
            }
        }
        assert forall|k: Seq<char>| self.has(k) implies #[trigger] self.at(k) == if k == key {
            value
        } else {
            old.at(k)
        } by {
            let i = self.spot(k);
            assert(now[i] == k);
            if k == key {
                assert(now[at] == key);
                assert(self.keys@[at]@ == key);
                self.spot_is(at);
            } else {
                assert(old.has(k));
                let j = old.spot(k);
                assert(names[j] == k);
                let there = if j < at {
                    j
                } else {
                    j + 1
                };
                assert(now[there] == k);
                assert(self.keys@[there]@ == k);
                self.spot_is(there);
            }
        }
    }

    /// A map without keys.
    pub fn new() -> (r: Self)
        ensures
            r.wf(),
            r.keys@.len() == 0,
            r.values@.len() == 0,
    {
        SortedMap { keys: Vec::new(), values: Vec::new() }
    }

    /// How many keys there are.
    pub fn len(&self) -> (r: usize)
        ensures
            r == self.keys@.len(),
    {
        self.keys.len()
    }

    /// Whether there is no key.
    pub fn is_empty(&self) -> (r: bool)
        ensures
            r == (self.keys@.len() == 0),
    {
        self.keys.len() == 0
    }

    /// The number of keys before `key`.
    fn rank_of(&self, key: &str) -> (r: usize)
        requires
            self.wf(),
        ensures
            r == rank(self.names(), key@),
            r <= self.keys@.len(),
    {
        let mut low: usize = 0;
        let mut high: usize = self.keys.len();
        let ghost names = self.names();
        while low < high
            invariant
                low <= high <= self.keys@.len(),
                names == self.names(),
                ascending(names),
                forall|i: int| 0 <= i < low ==> before(#[trigger] names[i], key@),
                forall|i: int| high <= i < names.len() ==> !before(#[trigger] names[i], key@),
            decreases high - low,
        {
            let middle: usize = low + (high - low) / 2;
            assert(names[middle as int] == self.keys@[middle as int]@);
            if precedes(&self.keys[middle], key) {
                assert forall|i: int| 0 <= i < middle + 1 implies before(
                    #[trigger] names[i],
                    key@,
                ) by {
                    if i < middle {
                        before_transitive(names[i], names[middle as int], key@);
                    }
                }
                low = middle + 1;
            } else {
                assert forall|i: int| middle <= i < names.len() implies !before(
                    #[trigger] names[i],
                    key@,
                ) by {
                    if i > middle && before(names[i], key@) {
                        before_transitive(names[middle as int], names[i], key@);
                    }
                }
                high = middle;
            }
        }
        proof {
            rank_means(names, key@);
            let k = rank(names, key@);
            if k < low {
                assert(before(names[k], key@));
            } else if k > low {
                assert(!before(names[low as int], key@));
            }
        }
        low
    }

    /// The position of `key`.
    pub fn find(&self, key: &str) -> (r: Option<usize>)
        requires
            self.wf(),
        ensures
            match r {
                Some(i) => i < self.keys@.len() && self.keys@[i as int]@ == key@ && self.has(key@)
                    && self.spot(key@) == i,
                None => !self.has(key@),
            },
    {
        let at = self.rank_of(key);
        let ghost names = self.names();
        proof {
            rank_means(names, key@);
        }
        if at < self.keys.len() && same(&self.keys[at], key) {
            proof {
                self.spot_is(at as int);
            }
            return Some(at);
        }
        assert forall|i: int| 0 <= i < names.len() implies names[i] != key@ by {
            before_irreflexive(key@);
            if i > at {
                before_total(names[at as int], key@);
                assert(before(names[at as int], names[i]));
                assert(names[at as int] == self.keys@[at as int]@);
                assert(!before(names[at as int], key@));
            } else if i < at {
                assert(before(names[i], key@));
            } else {
                assert(names[i] == self.keys@[i]@);
            }
        }
        None
    }

    /// Whether `key` has a value.
    pub fn contains_key(&self, key: &str) -> (r: bool)
        requires
            self.wf(),
        ensures
            r == self.has(key@),
    {
        self.find(key).is_some()
    }

    /// The value of `key`.
    pub fn get(&self, key: &str) -> (r: Option<&V>)
        requires
            self.wf(),
        ensures
            match r {
                Some(v) => self.has(key@) && *v == self.at(key@),
                None => !self.has(key@),
            },
    {
        match self.find(key) {
            Some(i) => Some(&self.values[i]),
            None => None,
        }
    }

    /// Takes `key` and its value out.
    pub fn remove(&mut self, key: &str) -> (r: Option<V>)
        requires
            old(self).wf(),
        ensures
            final(self).wf(),
            match r {
                Some(was) => old(self).has(key@) && was == old(self).at(key@),
                None => !old(self).has(key@) && *final(self) == *old(self),
            },
            forall|k: Seq<char>| #[trigger]
                final(self).has(k) <==> old(self).has(k) && k != key@,
            forall|k: Seq<char>|
                final(self).has(k) ==> #[trigger] final(self).at(k) == old(self).at(k),
    {
        let ghost names = self.names();
        match self.find(key) {
            Some(i) => {
                let _ = self.keys.remove(i);
                let value = self.values.remove(i);
                proof {
                    let now = self.names();
                    assert(now =~= names.remove(i as int));
                    assert(self.wf());
                    assert forall|k: Seq<char>| #[trigger] self.has(k) <==> old(self).has(k) && k
                        != key@ by {
                        ascending_distinct(names);
                        if self.has(k) {
                            let j = self.spot(k);
                            let was = if j < i {
                                j
                            } else {
                                j + 1
                            };
                            assert(names[was] == k);
                            assert(names[i as int] == key@);
                        }
                        if old(self).has(k) && k != key@ {
                            let j = old(self).spot(k);
                            assert(names[i as int] == key@);
                            assert(now[if j < i {
                                j
                            } else {
                                j - 1
                            }] == k);
                        }
                    }
                    assert forall|k: Seq<char>| self.has(k) implies #[trigger] self.at(k) == old(
                        self,
                    ).at(k) by {
                        let j = self.spot(k);
                        let was = if j < i {
                            j
                        } else {
                            j + 1
                        };
                        assert(now[j] == k);
                        assert(names[was] == k);
                        assert(old(self).keys@[was]@ == k);
                        old(self).spot_is(was);
                    }
                }
                Some(value)
            },
            None => None,
        }
    }

    /// Gives `key` the value `value`, and returns the value it had before.
    pub fn insert(&mut self, key: String, value: V) -> (r: Option<V>)
        requires
            old(self).wf(),
        ensures
            final(self).wf(),
            match r {
                Some(was) => old(self).has(key@) && was == old(self).at(key@)
                    && final(self).keys@ == old(self).keys@ && final(self).values@
                    == old(self).values@.update(old(self).spot(key@), value),
                None => !old(self).has(key@) && final(self).keys@ == old(self).keys@.insert(
                    rank(old(self).names(), key@),
                    key,
                ) && final(self).values@ == old(self).values@.insert(
                    rank(old(self).names(), key@),
                    value,
                ),
            },
            forall|k: Seq<char>| #[trigger]
                final(self).has(k) <==> old(self).has(k) || k == key@,
            forall|k: Seq<char>|
                final(self).has(k) ==> #[trigger] final(self).at(k) == if k == key@ {
                    value
                } else {
                    old(self).at(k)
                },
    {
        let ghost names = self.names();
        match self.find(&key) {
            Some(i) => {
                let mut slot = value;
                let ghost given = slot;
                core::mem::swap(&mut self.values[i], &mut slot);
                assert(self.values@ =~= old(self).values@.update(i as int, given));
                proof {
                    assert forall|k: Seq<char>| self.has(k) implies #[trigger] self.at(k) == if k
                        == key@ {
                        value
                    } else {
                        old(self).at(k)
                    } by {
                        let j = self.spot(k);
                        assert(names[j] == k);
                        assert(names[i as int] == key@);
                    }
                }
                Some(slot)
            },
            None => {
                let at = self.rank_of(&key);
                proof {
                    rank_means(names, key@);
                }
                self.keys.insert(at, key);
                self.values.insert(at, value);
                proof {
                    let now = self.names();
                    assert(now =~= names.insert(at as int, key@));
                    assert forall|i: int, j: int| 0 <= i < j < now.len() implies before(
                        #[trigger] now[i],
                        #[trigger] now[j],
                    ) by {
                        if i == at {
                            before_total(names[j - 1], key@);
                            assert(!before(names[j - 1], key@));
                            assert(names.contains(names[j - 1]));
                        } else if j == at {
                            assert(before(names[i], key@));
                        }
                    }
                    self.grown(*old(self), at as int, key@, value);
                }
                None
            },
        }
    }
}

/// Ascending texts with the same elements are the same.
pub proof fn ascending_unique(a: Seq<Seq<char>>, b: Seq<Seq<char>>)
    requires
        ascending(a),
        ascending(b),
        a.to_set() == b.to_set(),
    ensures
        a == b,
    decreases a.len(),
{
    if a.len() == 0 {
        if b.len() > 0 {
            assert(b.to_set().contains(b[0]));
            assert(a.to_set().contains(b[0]));
        }
        assert(a =~= b);
    } else if b.len() == 0 {
        assert(a.to_set().contains(a[0]));
        assert(b.to_set().contains(a[0]));
    } else {
        ascending_distinct(a);
        ascending_distinct(b);
        let x = a.last();
        let y = b.last();
        assert(b.to_set().contains(x)) by {
            assert(a.to_set().contains(x));
        }
        assert(a.to_set().contains(y)) by {
            assert(b.to_set().contains(y));
        }
        let i = b.index_of(x);
        let j = a.index_of(y);
        if x != y {
            assert(before(b[i], b[b.len() - 1]));
            assert(before(a[j], a[a.len() - 1]));
            before_transitive(x, y, x);
            before_irreflexive(x);
        }
        let ia = a.drop_last();
        let ib = b.drop_last();
        assert(ascending(ia));
        assert(ascending(ib));
        assert(ia.to_set() =~= a.to_set().remove(x)) by {
            assert forall|e: Seq<char>| ia.to_set().contains(e) == a.to_set().remove(x).contains(e)
                by {
                if a.to_set().remove(x).contains(e) {
                    let k = a.index_of(e);
                    assert(ia[k] == e);
                }
                if ia.contains(e) {
                    let k = ia.index_of(e);
                    assert(a[k] == e);
                }
            }
        }
        assert(ib.to_set() =~= b.to_set().remove(x)) by {
            assert forall|e: Seq<char>| ib.to_set().contains(e) == b.to_set().remove(x).contains(e)
                by {
                if b.to_set().remove(x).contains(e) {
                    let k = b.index_of(e);
                    assert(ib[k] == e);
                }
                if ib.contains(e) {
                    let k = ib.index_of(e);
                    assert(b[k] == e);
                }
            }
        }
        ascending_unique(ia, ib);
        assert(a =~= ia.push(x));
        assert(b =~= ib.push(y));
    }
}

/// The elements of a set of texts, in order.
pub open spec fn in_order(set: Set<Seq<char>>) -> Seq<Seq<char>> {
    choose|q: Seq<Seq<char>>| ascending(q) && #[trigger] q.to_set() == set
}

/// Ascending texts are the elements of their set in order.
pub proof fn in_order_is(q: Seq<Seq<char>>)
    requires
        ascending(q),
    ensures
        in_order(q.to_set()) == q,
{
    ascending_unique(in_order(q.to_set()), q);
}

/// A finite set of texts can be listed in order: each of its elements, and no
/// others.
pub proof fn in_order_means(set: Set<Seq<char>>)
    requires
        set.finite(),
    ensures
        ascending(in_order(set)),
        in_order(set).to_set() == set,
    decreases set.len(),
{
    if set.len() == 0 {
        let none = Seq::<Seq<char>>::empty();
        assert(none.to_set() =~= set);
        in_order_is(none);
    } else {
        let x = set.choose();
        let rest = set.remove(x);
        in_order_means(rest);
        let q = in_order(rest);
        let at = rank(q, x);
        rank_means(q, x);
        let now = q.insert(at, x);
        assert(!q.contains(x)) by {
            if q.contains(x) {
                assert(q.to_set().contains(x));
            }
        }
        assert forall|i: int, j: int| 0 <= i < j < now.len() implies before(
            #[trigger] now[i],
            #[trigger] now[j],
        ) by {
            if i == at {
                before_total(q[j - 1], x);
                assert(q.contains(q[j - 1]));
            }
        }
        assert(now.to_set() =~= set) by {
            assert forall|e: Seq<char>| now.to_set().contains(e) <==> set.contains(e) by {
                if now.contains(e) {
                    let k = now.index_of(e);
                    if k != at {
                        assert(q.to_set().contains(q[if k < at {
                            k
                        } else {
                            k - 1
                        }]));
                    }
                }
                if e == x {
                    assert(now[at] == e);
                } else if set.contains(e) {
                    assert(q.to_set().contains(e));
                    let k = q.index_of(e);
                    assert(now[if k < at {
                        k
                    } else {
                        k + 1
                    }] == e);
                }
            }
        }
        in_order_is(now);
    }
}

/// A set of texts, kept in order.
#[derive(Debug)]
pub struct TextSet {
    map: SortedMap<()>,
}

impl View for TextSet {
    type V = Set<Seq<char>>;

    closed spec fn view(&self) -> Set<Seq<char>> {
        self.map.names().to_set()
    }
}

impl TextSet {
    /// The elements ascend.
    pub closed spec fn wf(self) -> bool {
        self.map.wf()
    }

    /// A set without elements.
    pub fn new() -> (r: Self)
        ensures
            r.wf(),
            r@ == Set::<Seq<char>>::empty(),
    {
        let r = TextSet { map: SortedMap::new() };
        assert(r@ =~= Set::<Seq<char>>::empty());
        r
    }

    /// Whether `s` is an element.
    pub fn contains(&self, s: &str) -> (r: bool)
        requires
            self.wf(),
        ensures
            r == self@.contains(s@),
    {
        self.map.contains_key(s)
    }

    /// Adds `s`; says whether it was new.
    pub fn insert(&mut self, s: String) -> (r: bool)
        requires
            old(self).wf(),
        ensures
            final(self).wf(),
            r == !old(self)@.contains(s@),
            final(self)@ == old(self)@.insert(s@),
    {
        let ghost names = self.map.names();
        let ghost at = rank(names, s@);
        let was = self.map.insert(s, ());
        proof {
            let now = self.map.names();
            if was is None {
                rank_means(names, s@);
                assert(now =~= names.insert(at, s@));
                assert forall|e: Seq<char>| now.to_set().contains(e) == names.to_set().insert(
                    s@,
                ).contains(e) by {
                    if names.contains(e) {
                        let k = names.index_of(e);
                        if k < at {
                            assert(now[k] == e);
                        } else {
                            assert(now[k + 1] == e);
                        }
                    }
                    if e == s@ {
                        assert(now[at] == e);
                    }
                    if now.contains(e) {
                        let k = now.index_of(e);
                        if k < at {
                            assert(names[k] == e);
                        } else if k > at {
                            assert(names[k - 1] == e);
                        }
                    }
                }
                assert(now.to_set() =~= names.to_set().insert(s@));
            } else {
                assert(now == names);
                assert(names.to_set() =~= names.to_set().insert(s@));
            }
        }
        was.is_none()
    }

    /// How many elements there are.
    pub fn len(&self) -> (r: usize)
        requires
            self.wf(),
        ensures
            r == self@.len(),
            self@.finite(),
    {
        proof {
            ascending_distinct(self.map.names());
            self.map.names().unique_seq_to_set();
        }
        self.map.keys.len()
    }

    /// Whether there is no element.
    pub fn is_empty(&self) -> (r: bool)
        requires
            self.wf(),
        ensures
            r == (self@ == Set::<Seq<char>>::empty()),
    {
        proof {
            if self.map.keys@.len() > 0 {
                assert(self@.contains(self.map.names()[0]));
            } else {
                assert(self@ =~= Set::<Seq<char>>::empty());
            }
        }
        self.map.keys.len() == 0
    }

    /// The elements, in order.
    pub fn items(self) -> (r: Vec<String>)
        requires
            self.wf(),
        ensures
            ascending(texts(r@)),
            texts(r@).to_set() == self@,
            texts(r@) == in_order(self@),
    {
        proof {
            in_order_is(self.map.names());
        }
        self.map.keys
    }
}

} // verus!
