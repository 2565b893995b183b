//! A small map that keeps its keys in the order in which they were added.

use vstd::prelude::*;

verus! {

/// A type whose values can be compared for use as a key.
pub trait Key: Sized {
    /// What the key stands for in contracts.
    type Id;

    /// The identity of this key.
    spec fn id(&self) -> Self::Id;

    /// Whether two keys are the same.
    fn same(&self, other: &Self) -> (r: bool)
        ensures
            r == (self.id() == other.id()),
    ;

    /// A copy of the key.
    fn copy(&self) -> (r: Self)
        ensures
            r.id() == self.id(),
    ;
}

impl Key for String {
    type Id = Seq<char>;

    open spec fn id(&self) -> Seq<char> {
        self@
    }

    fn same(&self, other: &Self) -> (r: bool) {
        *self == *other
    }

    fn copy(&self) -> (r: Self) {
        self.clone()
    }
}

impl Key for usize {
    type Id = usize;

    open spec fn id(&self) -> usize {
        *self
    }

    fn same(&self, other: &Self) -> (r: bool) {
        *self == *other
    }

    fn copy(&self) -> (r: Self) {
        *self
    }
}

/// A map with its keys in the order in which they were first added.
pub struct OrderedMap<K: Key, V> {
    entries: Vec<(K, V)>,
}

/// The keys of a list of entries.
pub closed spec fn entry_ids<K: Key, V>(e: Seq<(K, V)>) -> Seq<K::Id> {
    e.map_values(|p: (K, V)| p.0.id())
}

/// The map that a list of entries with different keys stands for.
pub closed spec fn entry_map<K: Key, V>(e: Seq<(K, V)>) -> Map<K::Id, V>
    decreases e.len(),
{
    if e.len() == 0 {
        Map::empty()
    } else {
        entry_map(e.drop_last()).insert(e.last().0.id(), e.last().1)
    }
}

proof fn entry_map_dom<K: Key, V>(e: Seq<(K, V)>)
    ensures
        forall|k: K::Id| #[trigger] entry_map(e).dom().contains(k) <==> entry_ids(e).contains(k),
    decreases e.len(),
{
    let ids = entry_ids(e);
    if e.len() > 0 {
        entry_map_dom(e.drop_last());
        let front = entry_ids(e.drop_last());
        assert(ids =~= front.push(e.last().0.id()));
        assert forall|k: K::Id| #[trigger] entry_map(e).dom().contains(k) <==> ids.contains(k) by {
            assert(entry_map(e.drop_last()).dom().contains(k) <==> front.contains(k));
            if front.contains(k) {
                let i = choose|i: int| 0 <= i < front.len() && front[i] == k;
                assert(ids[i] == k);
            }
            if k == e.last().0.id() {
                assert(ids[ids.len() - 1] == k);
            }
            if ids.contains(k) {
                let i = choose|i: int| 0 <= i < ids.len() && ids[i] == k;
                if i < front.len() {
                    assert(front[i] == k);
                }
            }
        }
    }
}

proof fn entry_map_at<K: Key, V>(e: Seq<(K, V)>, i: int)
    requires
        0 <= i < e.len(),
        entry_ids(e).no_duplicates(),
    ensures
        entry_map(e).dom().contains(e[i].0.id()),
        entry_map(e)[e[i].0.id()] == e[i].1,
    decreases e.len(),
{
    let ids = entry_ids(e);
    if i < e.len() - 1 {
        let front = e.drop_last();
        assert(entry_ids(front) =~= ids.drop_last());
        entry_map_at(front, i);
        assert(ids[i] != ids[e.len() - 1]);
        assert(front[i] == e[i]);
    }
}

proof fn entry_map_push<K: Key, V>(e: Seq<(K, V)>, p: (K, V))
    ensures
        entry_map(e.push(p)) == entry_map(e).insert(p.0.id(), p.1),
        entry_ids(e.push(p)) == entry_ids(e).push(p.0.id()),
{
    assert(e.push(p).drop_last() =~= e);
    assert(entry_ids(e.push(p)) =~= entry_ids(e).push(p.0.id()));
}

proof fn entry_map_update<K: Key, V>(e: Seq<(K, V)>, i: int, p: (K, V))
    requires
        0 <= i < e.len(),
        entry_ids(e).no_duplicates(),
        p.0.id() == e[i].0.id(),
    ensures
        entry_map(e.update(i, p)) == entry_map(e).insert(p.0.id(), p.1),
        entry_ids(e.update(i, p)) == entry_ids(e),
    decreases e.len(),
{
    let n = e.update(i, p);
    assert(entry_ids(n) =~= entry_ids(e));
    if i == e.len() - 1 {
        assert(n.drop_last() =~= e.drop_last());
        assert(entry_map(n) =~= entry_map(e).insert(p.0.id(), p.1));
    } else {
        let ids = entry_ids(e);
        assert(entry_ids(e.drop_last()) =~= ids.drop_last());
        entry_map_update(e.drop_last(), i, p);
        assert(n.drop_last() =~= e.drop_last().update(i, p));
        assert(ids[i] != ids[e.len() - 1]);
        assert(entry_map(n) =~= entry_map(e).insert(p.0.id(), p.1));
    }
}

proof fn entry_map_remove<K: Key, V>(e: Seq<(K, V)>, i: int)
    requires
        0 <= i < e.len(),
        entry_ids(e).no_duplicates(),
    ensures
        entry_map(e.remove(i)) == entry_map(e).remove(e[i].0.id()),
        entry_ids(e.remove(i)) == entry_ids(e).remove(i),
        entry_ids(e.remove(i)).no_duplicates(),
    decreases e.len(),
{
    let n = e.remove(i);
    let ids = entry_ids(e);
    assert(entry_ids(n) =~= ids.remove(i));
    assert forall|a: int, b: int| 0 <= a < b < n.len() implies entry_ids(n)[a] != entry_ids(n)[b] by {
        let a2 = if a < i { a } else { a + 1 };
        let b2 = if b < i { b } else { b + 1 };
        assert(ids[a2] != ids[b2]);
    }
    if i == e.len() - 1 {
        assert(n =~= e.drop_last());
        entry_map_dom(e.drop_last());
        assert(entry_ids(e.drop_last()) =~= ids.drop_last());
        if entry_map(e.drop_last()).dom().contains(e[i].0.id()) {
            let j = choose|j: int| 0 <= j < ids.drop_last().len() && ids.drop_last()[j] == ids[i];
            assert(ids[j] != ids[i]);
        }
        assert(entry_map(n) =~= entry_map(e).remove(e[i].0.id()));
    } else {
        assert(entry_ids(e.drop_last()) =~= ids.drop_last());
        entry_map_remove(e.drop_last(), i);
        assert(n.drop_last() =~= e.drop_last().remove(i));
        assert(n.last() == e.last());
        assert(ids[i] != ids[e.len() - 1]);
        assert(entry_map(n) =~= entry_map(e).remove(e[i].0.id()));
    }
}

/// The keys without `k`.
pub open spec fn without<A>(s: Seq<A>, k: A) -> Seq<A>
    decreases s.len(),
{
    if s.len() == 0 {
        s
    } else if s.last() == k {
        without(s.drop_last(), k)
    } else {
        without(s.drop_last(), k).push(s.last())
    }
}

proof fn without_absent<A>(s: Seq<A>, k: A)
    requires
        !s.contains(k),
    ensures
        without(s, k) == s,
    decreases s.len(),
{
    if s.len() > 0 {
        assert(s[s.len() - 1] == s.last());
        assert forall|i: int| 0 <= i < s.len() - 1 implies s.drop_last()[i] != k by {
            assert(s[i] != k);
        }
        without_absent(s.drop_last(), k);
        assert(s.drop_last().push(s.last()) =~= s);
    }
}

proof fn without_is_remove<A>(s: Seq<A>, i: int)
    requires
        0 <= i < s.len(),
        s.no_duplicates(),
    ensures
        without(s, s[i]) == s.remove(i),
    decreases s.len(),
{
    let k = s[i];
    if i == s.len() - 1 {
        assert forall|j: int| 0 <= j < s.len() - 1 implies s.drop_last()[j] != k by {
            assert(s[j] != s[i]);
        }
        without_absent(s.drop_last(), k);
        assert(s.remove(i) =~= s.drop_last());
    } else {
        assert(s.last() != k);
        without_is_remove(s.drop_last(), i);
        assert(s.remove(i) =~= s.drop_last().remove(i).push(s.last()));
    }
}

/// Whether a list holds the keys of a map, each once.
pub open spec fn lists<K, V>(order: Seq<K>, m: Map<K, V>) -> bool {
    &&& order.no_duplicates()
    &&& forall|k: K| #[trigger] m.dom().contains(k) <==> order.contains(k)
}

/// A list without `k` holds what it held but for `k`, and repeats nothing that
/// was not repeated.
pub proof fn without_leaves_the_others<A>(s: Seq<A>, k: A)
    ensures
        forall|x: A| #[trigger] without(s, k).contains(x) <==> s.contains(x) && x != k,
        s.no_duplicates() ==> without(s, k).no_duplicates(),
    decreases s.len(),
{
    let w = without(s, k);
    if s.len() > 0 {
        let front = s.drop_last();
        let v = without(front, k);
        without_leaves_the_others(front, k);
        assert forall|x: A| #[trigger] w.contains(x) <==> s.contains(x) && x != k by {
            assert(v.contains(x) <==> front.contains(x) && x != k);
            if s.contains(x) {
                let i = s.index_of(x);
                if i < front.len() {
                    assert(front[i] == x);
                }
            }
            if front.contains(x) {
                let i = front.index_of(x);
                assert(s[i] == x);
            }
            if w.contains(x) {
                let i = w.index_of(x);
                if i < v.len() {
                    assert(v[i] == x);
                } else {
                    assert(s[s.len() - 1] == x);
                }
            }
            if v.contains(x) {
                let i = v.index_of(x);
                assert(w[i] == x);
            }
            if x == s.last() && x != k {
                assert(w[w.len() - 1] == x);
            }
        }
        if s.no_duplicates() {
            assert(front.no_duplicates());
            if s.last() != k {
                assert forall|i: int, j: int| 0 <= i < j < w.len() implies w[i] != w[j] by {
                    if j == v.len() {
                        assert(v.contains(v[i]));
                        let a = front.index_of(v[i]);
                        assert(s[a] != s[s.len() - 1]);
                    }
                }
            }
        }
    }
}

impl<K: Key, V> View for OrderedMap<K, V> {
    type V = Map<K::Id, V>;

    closed spec fn view(&self) -> Map<K::Id, V> {
        entry_map(self.entries@)
    }
}

impl<K: Key, V> OrderedMap<K, V> {
    #[verifier::type_invariant]
    spec fn keys_differ(self) -> bool {
        entry_ids(self.entries@).no_duplicates()
    }

    /// The keys, in the order in which they were added.
    pub closed spec fn order(&self) -> Seq<K::Id> {
        entry_ids(self.entries@)
    }

    /// An empty map.
    pub fn new() -> (m: Self)
        ensures
            m@ == Map::<K::Id, V>::empty(),
            m.order() == Seq::<K::Id>::empty(),
            lists(m.order(), m@),
    {
        let m = OrderedMap { entries: Vec::new() };
        assert(m.order() =~= Seq::<K::Id>::empty());
        m
    }

    /// The number of keys.
    pub fn len(&self) -> (n: usize)
        ensures
            n == self.order().len(),
            n == self@.dom().len(),
            self@.dom().finite(),
            lists(self.order(), self@),
    {
        proof {
            use_type_invariant(self);
            entry_map_dom(self.entries@);
            self.order().unique_seq_to_set();
            assert(self.order().to_set() =~= self@.dom());
        }
        self.entries.len()
    }

    fn position(&self, k: &K) -> (r: usize)
        ensures
            r <= self.entries@.len(),
            r < self.entries@.len() ==> self.entries@[r as int].0.id() == k.id(),
            (r == self.entries@.len()) == !self@.dom().contains(k.id()),
            (r == self.entries@.len()) == !self.order().contains(k.id()),
    {
        proof {
            entry_map_dom(self.entries@);
        }
        let ghost ids = self.order();
        let mut i: usize = 0;
        while i < self.entries.len()
            invariant
                i <= self.entries@.len(),
                ids == entry_ids(self.entries@),
                ids == self.order(),
                self@ == entry_map(self.entries@),
                forall|k: K::Id| #[trigger]
                    entry_map(self.entries@).dom().contains(k) <==> ids.contains(k),
                forall|j: int| 0 <= j < i ==> #[trigger] ids[j] != k.id(),
            decreases self.entries.len() - i,
        {
            if self.entries[i].0.same(k) {
                assert(ids[i as int] == k.id());
                return i;
            }
            assert(ids[i as int] != k.id());
            i += 1;
        }
        i
    }

    /// Whether `k` is a key.
    pub fn contains(&self, k: &K) -> (r: bool)
        ensures
            r == self@.dom().contains(k.id()),
            r == self.order().contains(k.id()),
    {
        self.position(k) < self.entries.len()
    }

    /// The value at `k`.
    pub fn get(&self, k: &K) -> (r: Option<&V>)
        ensures
            match r {
                Some(v) => self@.dom().contains(k.id()) && *v == self@[k.id()],
                None => !self@.dom().contains(k.id()),
            },
            r is Some <==> self.order().contains(k.id()),
    {
        let i = self.position(k);
        if i < self.entries.len() {
            proof {
                use_type_invariant(self);
                entry_map_at(self.entries@, i as int);
            }
            Some(&self.entries[i].1)
        } else {
            None
        }
    }

    /// The key in place `i`.
    pub fn key_at(&self, i: usize) -> (k: &K)
        requires
            i < self.order().len(),
        ensures
            k.id() == self.order()[i as int],
            self@.dom().contains(k.id()),
    {
        proof {
            use_type_invariant(self);
            entry_map_at(self.entries@, i as int);
        }
        &self.entries[i].0
    }

    /// The value in place `i`.
    pub fn value_at(&self, i: usize) -> (v: &V)
        requires
            i < self.order().len(),
        ensures
            self@.dom().contains(self.order()[i as int]),
            *v == self@[self.order()[i as int]],
    {
        proof {
            use_type_invariant(self);
            entry_map_at(self.entries@, i as int);
        }
        &self.entries[i].1
    }

    /// Sets `k` to `v`. A key that is there keeps its place, a new one goes to
    /// the end.
    pub fn insert(&mut self, k: K, v: V)
        ensures
            final(self)@ == old(self)@.insert(k.id(), v),
            final(self).order() == (if old(self)@.dom().contains(k.id()) {
                old(self).order()
            } else {
                old(self).order().push(k.id())
            }),
            lists(final(self).order(), final(self)@),
    {
        proof {
            use_type_invariant(&*self);
        }
        let i = self.position(&k);
        let ghost e = self.entries@;
        let ghost ids = self.order();
        let mut entries: Vec<(K, V)> = Vec::new();
        std::mem::swap(&mut entries, &mut self.entries);
        if i < entries.len() {
            proof {
                entry_map_update(e, i as int, (k, v));
            }
            entries.set(i, (k, v));
        } else {
            proof {
                entry_map_push(e, (k, v));
                assert forall|a: int, b: int| 0 <= a < b < ids.push(k.id()).len() implies ids.push(
                    k.id(),
                )[a] != ids.push(k.id())[b] by {
                    if b == ids.len() {
                        assert(ids[a] != k.id());
                    }
                }
            }
            entries.push((k, v));
        }
        self.entries = entries;
        proof {
            entry_map_dom(self.entries@);
        }
    }

    /// Takes `k` out of the map.
    pub fn remove(&mut self, k: &K) -> (r: Option<V>)
        ensures
            final(self)@ == old(self)@.remove(k.id()),
            final(self).order() == without(old(self).order(), k.id()),
            r is None ==> final(self).order() == old(self).order(),
            lists(final(self).order(), final(self)@),
            match r {
                Some(v) => old(self)@.dom().contains(k.id()) && v == old(self)@[k.id()],
                None => !old(self)@.dom().contains(k.id()),
            },
    {
        proof {
            use_type_invariant(&*self);
        }
        let i = self.position(k);
        let ghost e = self.entries@;
        if i < self.entries.len() {
            let mut entries: Vec<(K, V)> = Vec::new();
            std::mem::swap(&mut entries, &mut self.entries);
            proof {
                entry_map_remove(e, i as int);
                entry_map_at(e, i as int);
                without_is_remove(entry_ids(e), i as int);
            }
            let p = entries.remove(i);
            self.entries = entries;
            proof {
                entry_map_dom(self.entries@);
            }
            Some(p.1)
        } else {
            proof {
                entry_map_dom(self.entries@);
                without_absent(self.order(), k.id());
                assert(self@.remove(k.id()) =~= self@);
            }
            None
        }
    }
}

} // verus!
