//! A map keyed by text, walked in the ascending order of its keys.

use crate::text::{same_text, text_less};
use vstd::prelude::*;

verus! {

/// A map from text to `T`: each key occurs once, and the keys ascend.
#[derive(Debug, PartialEq, Eq)]
pub struct TextMap<T> {
    entries: Vec<(String, T)>,
}

/// The keys ascend.
pub open spec fn ascending(keys: Seq<Seq<char>>) -> bool {
    forall|i: int, j: int|
        #![trigger keys[i], keys[j]]
        0 <= i < j < keys.len() ==> crate::text::text_lt(keys[i], keys[j])
}

impl<T> TextMap<T> {
    #[verifier::type_invariant]
    pub closed spec fn keys_ascend(self) -> bool {
        ascending(self.keys())
    }

    /// The keys, in ascending order.
    pub closed spec fn keys(self) -> Seq<Seq<char>> {
        Seq::new(self.entries@.len(), |i: int| self.entries@[i].0@)
    }
}

impl<T: View> View for TextMap<T> {
    type V = Map<Seq<char>, T::V>;

    closed spec fn view(&self) -> Map<Seq<char>, T::V> {
        Map::new(
            |k: Seq<char>| self.keys().contains(k),
            |k: Seq<char>| self.entries@[self.keys().index_of(k)].1@,
        )
    }
}

/// In an ascending sequence no key occurs twice.
pub proof fn lemma_ascending_distinct(keys: Seq<Seq<char>>)
    requires
        ascending(keys),
    ensures
        keys.no_duplicates(),
{
    assert forall|i: int, j: int|
        0 <= i < keys.len() && 0 <= j < keys.len() && i != j implies keys[i] != keys[j] by {
        crate::text::lemma_text_lt_asymmetric(keys[i], keys[j]);
        crate::text::lemma_text_lt_asymmetric(keys[j], keys[i]);
        if i < j {
            assert(crate::text::text_lt(keys[i], keys[j]));
        } else {
            assert(crate::text::text_lt(keys[j], keys[i]));
        }
    }
}

impl<T: View> TextMap<T> {
    /// The map holds a value at each of its keys, and nowhere else.
    pub open spec fn keys_are_dom(self) -> bool {
        forall|k: Seq<char>|
            #![trigger self@.dom().contains(k)]
            #![trigger self.keys().contains(k)]
            self@.dom().contains(k) <==> self.keys().contains(k)
    }

    /// What the map holds at the key in place `i`.
    proof fn lemma_at(self, i: int)
        requires
            self.keys_ascend(),
            0 <= i < self.entries@.len(),
        ensures
            self@.dom().contains(self.entries@[i].0@),
            self@[self.entries@[i].0@] == self.entries@[i].1@,
    {
        lemma_ascending_distinct(self.keys());
        assert(self.keys()[i] == self.entries@[i].0@);
        let k = self.entries@[i].0@;
        assert(self.keys().contains(k));
        assert(self.keys().index_of(k) == i);
    }

    /// The empty map.
    pub fn new() -> (r: Self)
        ensures
            r@ == Map::<Seq<char>, T::V>::empty(),
    {
        let r = TextMap { entries: Vec::new() };
        assert(r@ =~= Map::<Seq<char>, T::V>::empty());
        r
    }

    /// The keys are those of the map, in ascending order.
    pub proof fn lemma_keys_sorted(&self)
        requires
            ascending(self.keys()),
            self.keys_are_dom(),
        ensures
            self.keys() == sorted(self@.dom()),
    {
        assert(self.keys().to_set() =~= self@.dom());
        lemma_sorted(self.keys());
    }

    /// How many keys there are.
    pub fn len(&self) -> (n: usize)
        ensures
            n == self.keys().len(),
            ascending(self.keys()),
            self.keys_are_dom(),
            self@.dom().finite(),
            self@.dom().len() == n,
    {
        proof {
            use_type_invariant(self);
            lemma_ascending_distinct(self.keys());
            assert(self@.dom() =~= self.keys().to_set());
            self.keys().unique_seq_to_set();
        }
        self.entries.len()
    }

    /// The key and the value in place `i` of the ascending order.
    pub fn at(&self, i: usize) -> (r: (&String, &T))
        requires
            i < self.keys().len(),
        ensures
            r.0@ == self.keys()[i as int],
            self@.dom().contains(self.keys()[i as int]),
            r.1@ == self@[self.keys()[i as int]],
    {
        proof {
            use_type_invariant(self);
            self.lemma_at(i as int);
        }
        let entry = &self.entries[i];
        (&entry.0, &entry.1)
    }

    /// The place of `key`, or else the place where it would stand.
    fn find(&self, key: &str) -> (r: (bool, usize))
        ensures
            r.1 <= self.entries@.len(),
            r.0 == self@.dom().contains(key@),
            r.0 ==> r.1 < self.entries@.len() && self.entries@[r.1 as int].0@ == key@,
            forall|j: int|
                0 <= j < r.1 ==> crate::text::text_lt(#[trigger] self.entries@[j].0@, key@),
            !r.0 ==> forall|j: int|
                r.1 <= j < self.entries@.len() ==> crate::text::text_lt(
                    key@,
                    #[trigger] self.entries@[j].0@,
                ),
    {
        proof {
            use_type_invariant(self);
        }
        let mut i: usize = 0;
        while i < self.entries.len()
            invariant
                i <= self.entries@.len(),
                self.keys_ascend(),
                forall|j: int|
                    0 <= j < i ==> crate::text::text_lt(#[trigger] self.entries@[j].0@, key@),
            decreases self.entries@.len() - i,
        {
            let here = self.entries[i].0.as_str();
            if !text_less(here, key) {
                if same_text(here, key) {
                    proof {
                        self.lemma_at(i as int);
                    }
                    return (true, i);
                }
                proof {
                    crate::text::lemma_text_lt_total(here@, key@);
                    assert forall|j: int| i <= j < self.entries@.len() implies
                        crate::text::text_lt(key@, #[trigger] self.entries@[j].0@) by {
                        assert(self.keys()[i as int] == here@);
                        assert(self.keys()[j] == self.entries@[j].0@);
                        if j > i {
                            crate::text::lemma_text_lt_transitive(
                                key@,
                                here@,
                                self.entries@[j].0@,
                            );
                        }
                    }
                    self.lemma_absent(key@, i as int);
                }
                return (false, i);
            }
            i = i + 1;
        }
        proof {
            self.lemma_absent(key@, i as int);
        }
        (false, i)
    }

    /// A key that lies between two neighbours is not in the map.
    proof fn lemma_absent(self, key: Seq<char>, at: int)
        requires
            0 <= at <= self.entries@.len(),
            forall|j: int|
                0 <= j < at ==> crate::text::text_lt(#[trigger] self.entries@[j].0@, key),
            forall|j: int|
                at <= j < self.entries@.len() ==> crate::text::text_lt(
                    key,
                    #[trigger] self.entries@[j].0@,
                ),
        ensures
            !self@.dom().contains(key),
    {
        if self.keys().contains(key) {
            let j = self.keys().index_of(key);
            assert(self.keys()[j] == self.entries@[j].0@);
            crate::text::lemma_text_lt_asymmetric(key, key);
        }
    }

    /// Whether `key` is in the map.
    pub fn contains(&self, key: &str) -> (r: bool)
        ensures
            r == self@.dom().contains(key@),
    {
        self.find(key).0
    }

    /// What the map holds at `key`.
    pub fn get(&self, key: &str) -> (r: Option<&T>)
        ensures
            r is Some <==> self@.dom().contains(key@),
            r matches Some(v) ==> v@ == self@[key@],
    {
        let (found, i) = self.find(key);
        if found {
            proof {
                use_type_invariant(self);
                self.lemma_at(i as int);
            }
            Some(&self.entries[i].1)
        } else {
            None
        }
    }

    /// Puts `value` at `key`, in place of what was there.
    pub fn insert(&mut self, key: String, value: T)
        ensures
            final(self)@ == old(self)@.insert(key@, value@),
    {
        let (found, i) = self.find(key.as_str());
        proof {
            use_type_invariant(&*self);
        }
        let ghost before = *self;
        let ghost k = key@;
        let ghost v = value@;
        let mut entries: Vec<(String, T)> = Vec::new();
        std::mem::swap(&mut entries, &mut self.entries);
        if found {
            entries[i] = (key, value);
        } else {
            entries.insert(i, (key, value));
        }
        let ghost after = TextMap { entries: entries };
        proof {
            assert forall|a: int, b: int| 0 <= a < b < after.keys().len() implies
                crate::text::text_lt(#[trigger] after.keys()[a], #[trigger] after.keys()[b]) by {
                let shift = |n: int| if found || n <= i { n } else { n - 1 };
                assert(a != i || found ==> after.keys()[a] == before.keys()[shift(a)]);
                assert(b != i || found ==> after.keys()[b] == before.keys()[shift(b)]);
                if a == i && !found {
                    assert(before.keys()[shift(b)] == before.entries@[shift(b)].0@);
                }
                if b == i && !found {
                    assert(before.keys()[shift(a)] == before.entries@[shift(a)].0@);
                }
            }
            before.lemma_replaced(after, found, i as int, k, v);
        }
        self.entries = entries;
    }

    /// What the map holds after one entry was put in place `i`.
    proof fn lemma_replaced(self, after: Self, found: bool, i: int, k: Seq<char>, v: T::V)
        requires
            self.keys_ascend(),
            after.keys_ascend(),
            0 <= i < after.entries@.len(),
            after.entries@[i].0@ == k,
            after.entries@[i].1@ == v,
            found ==> i < self.entries@.len() && self.entries@[i].0@ == k
                && after.entries@.len() == self.entries@.len() && forall|j: int|
                0 <= j < self.entries@.len() && j != i ==> #[trigger] after.entries@[j]
                    == self.entries@[j],
            !found ==> i <= self.entries@.len() && after.entries@.len() == self.entries@.len() + 1
                && (forall|j: int| 0 <= j < i ==> #[trigger] after.entries@[j] == self.entries@[j])
                && (forall|j: int|
                i < j < after.entries@.len() ==> #[trigger] after.entries@[j] == self.entries@[j
                    - 1]),
        ensures
            after@ == self@.insert(k, v),
    {
        assert forall|q: Seq<char>| #[trigger]
            after@.dom().contains(q) <==> self@.insert(k, v).dom().contains(q) by {
            if after.keys().contains(q) {
                let j = after.keys().index_of(q);
                assert(after.entries@[j].0@ == q);
                if j != i {
                    let old_j = if found || j < i { j } else { j - 1 };
                    self.lemma_at(old_j);
                }
            }
            if q == k {
                after.lemma_at(i);
            } else if self.keys().contains(q) {
                let j = self.keys().index_of(q);
                assert(self.entries@[j].0@ == q);
                let new_j = if found || j < i { j } else { j + 1 };
                after.lemma_at(new_j);
            }
        }
        assert forall|q: Seq<char>| #[trigger] after@.dom().contains(q) implies after@[q]
            == self@.insert(k, v)[q] by {
            let j = after.keys().index_of(q);
            assert(after.entries@[j].0@ == q);
            after.lemma_at(j);
            if j != i {
                let old_j = if found || j < i { j } else { j - 1 };
                self.lemma_at(old_j);
                lemma_ascending_distinct(after.keys());
                assert(after.keys()[j] == q && after.keys()[i] == k);
            }
        }
        assert(after@ =~= self@.insert(k, v));
    }

    /// Takes `key` out of the map.
    pub fn remove(&mut self, key: &str)
        ensures
            final(self)@ == old(self)@.remove(key@),
    {
        let (found, i) = self.find(key);
        proof {
            use_type_invariant(&*self);
        }
        if !found {
            assert(self@ =~= self@.remove(key@));
            return ;
        }
        let ghost before = *self;
        let mut entries: Vec<(String, T)> = Vec::new();
        std::mem::swap(&mut entries, &mut self.entries);
        let taken = entries.remove(i);
        let ghost after = TextMap { entries: entries };
        proof {
            assert forall|a: int, b: int| 0 <= a < b < after.keys().len() implies
                crate::text::text_lt(#[trigger] after.keys()[a], #[trigger] after.keys()[b]) by {
                let shift = |n: int| if n < i { n } else { n + 1 };
                assert(after.keys()[a] == before.keys()[shift(a)]);
                assert(after.keys()[b] == before.keys()[shift(b)]);
            }
            after.lemma_replaced(before, false, i as int, key@, taken.1@);
            after.lemma_absent_after(before, i as int);
            assert(after@ =~= before@.remove(key@));
        }
        self.entries = entries;
    }

    /// Once the entry in place `i` of `before` is gone, so is its key.
    proof fn lemma_absent_after(self, before: Self, i: int)
        requires
            before.keys_ascend(),
            0 <= i < before.entries@.len(),
            self.entries@ == before.entries@.remove(i),
        ensures
            !self@.dom().contains(before.entries@[i].0@),
    {
        let k = before.entries@[i].0@;
        if self.keys().contains(k) {
            let j = self.keys().index_of(k);
            assert(self.entries@[j].0@ == k);
            let old_j = if j < i { j } else { j + 1 };
            lemma_ascending_distinct(before.keys());
            assert(before.keys()[old_j] == before.keys()[i]);
        }
    }
}

impl Clone for TextMap<String> {
    fn clone(&self) -> (r: Self)
        ensures
            r@ == self@,
    {
        let mut r: TextMap<String> = TextMap::new();
        let n = self.len();
        let mut i: usize = 0;
        while i < n
            invariant
                i <= n,
                n == self.keys().len(),
                ascending(self.keys()),
                self.keys_are_dom(),
                forall|k: Seq<char>| #[trigger]
                    r@.dom().contains(k) <==> self.keys().take(i as int).contains(k),
                forall|k: Seq<char>| #[trigger] r@.dom().contains(k) ==> r@[k] == self@[k],
            decreases n - i,
        {
            let (k, v) = self.at(i);
            r.insert(k.clone(), v.clone());
            proof {
                assert(self.keys().take(i + 1) == self.keys().take(i as int).push(
                    self.keys()[i as int],
                ));
                assert forall|q: Seq<char>| #[trigger]
                    r@.dom().contains(q) <==> self.keys().take(i + 1).contains(q) by {
                    let t = self.keys().take(i as int);
                    if t.contains(q) {
                        let j = t.index_of(q);
                        assert(self.keys().take(i + 1)[j] == q);
                    }
                    assert(self.keys().take(i + 1)[i as int] == k@);
                }
            }
            i = i + 1;
        }
        assert(self.keys().take(n as int) == self.keys());
        assert(r@ =~= self@);
        r
    }
}

/// The elements of `s` in ascending order.
pub open spec fn sorted(s: Set<Seq<char>>) -> Seq<Seq<char>> {
    choose|k: Seq<Seq<char>>| #[trigger] ascending(k) && k.to_set() == s
}

/// The keys at which `m` holds a value that `p` picks.
pub open spec fn picked<R>(m: Map<Seq<char>, R>, p: spec_fn(R) -> bool) -> Set<Seq<char>> {
    m.dom().filter(|k: Seq<char>| p(m[k]))
}

/// What `f` makes of the values of `m` that `p` picks, in the ascending order of their keys.
pub open spec fn listing<R, S>(
    m: Map<Seq<char>, R>,
    p: spec_fn(R) -> bool,
    f: spec_fn(R) -> S,
) -> Seq<S> {
    sorted(picked(m, p)).map_values(|k: Seq<char>| f(m[k]))
}

/// The first of the keys at which `m` holds a value that `p` picks.
pub open spec fn first_picked<R>(m: Map<Seq<char>, R>, p: spec_fn(R) -> bool) -> Option<Seq<char>> {
    let keys = sorted(picked(m, p));
    if keys.len() == 0 {
        None
    } else {
        Some(keys[0])
    }
}

/// A set has one ascending order.
pub proof fn lemma_sorted(k: Seq<Seq<char>>)
    requires
        ascending(k),
    ensures
        sorted(k.to_set()) == k,
{
    let j = sorted(k.to_set());
    assert(ascending(j) && j.to_set() == k.to_set());
    lemma_ascending_unique(j, k);
}

/// A finite set has an ascending order.
pub proof fn lemma_sorted_set(s: Set<Seq<char>>)
    requires
        s.finite(),
    ensures
        ascending(sorted(s)),
        sorted(s).to_set() == s,
{
    let k = lemma_in_order(s);
    assert(ascending(k) && k.to_set() == s);
}

proof fn lemma_in_order(s: Set<Seq<char>>) -> (k: Seq<Seq<char>>)
    requires
        s.finite(),
    ensures
        ascending(k),
        k.to_set() == s,
    decreases s.len(),
{
    if s.len() == 0 {
        assert(Seq::<Seq<char>>::empty().to_set() =~= s);
        Seq::empty()
    } else {
        let x = s.choose();
        let k = lemma_in_order(s.remove(x));
        assert(!k.contains(x)) by {
            assert(!k.to_set().contains(x));
        }
        let r = lemma_placed(k, x);
        assert(r.to_set() =~= s);
        r
    }
}

proof fn lemma_placed(k: Seq<Seq<char>>, x: Seq<char>) -> (r: Seq<Seq<char>>)
    requires
        ascending(k),
        !k.contains(x),
    ensures
        ascending(r),
        r.to_set() == k.to_set().insert(x),
    decreases k.len(),
{
    if k.len() == 0 {
        let r = seq![x];
        assert(r[0] == x);
        assert(r.to_set() =~= k.to_set().insert(x));
        r
    } else if crate::text::text_lt(k.last(), x) {
        let r = k.push(x);
        assert forall|i: int, j: int|
            #![trigger r[i], r[j]]
            0 <= i < j < r.len() implies crate::text::text_lt(r[i], r[j]) by {
            if j == k.len() && i < k.len() - 1 {
                crate::text::lemma_text_lt_transitive(k[i], k.last(), x);
            }
        }
        assert forall|y: Seq<char>| #[trigger] r.contains(y) <==> k.contains(y) || y == x by {
            if k.contains(y) {
                let i = k.index_of(y);
                assert(r[i] == y);
            }
            assert(r[k.len() as int] == x);
        }
        assert(r.to_set() =~= k.to_set().insert(x));
        r
    } else {
        let front = k.drop_last();
        crate::text::lemma_text_lt_total(k.last(), x);
        assert(k[k.len() - 1] == k.last());
        assert forall|y: Seq<char>| #[trigger] front.contains(y) implies k.contains(y) by {
            assert(k[front.index_of(y)] == y);
        }
        let a = lemma_placed(front, x);
        let r = a.push(k.last());
        assert forall|i: int, j: int|
            #![trigger r[i], r[j]]
            0 <= i < j < r.len() implies crate::text::text_lt(r[i], r[j]) by {
            if j == a.len() {
                assert(a.to_set().contains(a[i]));
                if a[i] != x {
                    assert(front.contains(a[i]));
                    let p = front.index_of(a[i]);
                    assert(k[p] == a[i]);
                }
            }
        }
        assert forall|y: Seq<char>| #[trigger] r.contains(y) <==> k.contains(y) || y == x by {
            assert(r[a.len() as int] == k.last());
            if r.contains(y) && y != k.last() {
                let i = r.index_of(y);
                assert(a[i] == y);
                assert(a.to_set().contains(y));
            }
            if k.contains(y) && y != k.last() {
                let i = k.index_of(y);
                assert(front[i] == y);
                assert(front.to_set().contains(y));
                assert(a.to_set().contains(y));
                assert(r[a.index_of(y)] == y);
            }
            assert(a.to_set().contains(x));
            assert(r[a.index_of(x)] == x);
        }
        assert(r.to_set() =~= k.to_set().insert(x));
        r
    }
}

/// Two ascending sequences with the same elements are the same.
proof fn lemma_ascending_unique(a: Seq<Seq<char>>, b: Seq<Seq<char>>)
    requires
        ascending(a),
        ascending(b),
        a.to_set() == b.to_set(),
    ensures
        a == b,
    decreases a.len(),
{
    if a.len() == 0 {
        if b.len() > 0 {
            assert(b.to_set().contains(b[0]));
        }
        assert(a =~= b);
    } else if b.len() == 0 {
        assert(a.to_set().contains(a[0]));
    } else {
        let x = a.last();
        let y = b.last();
        assert(b.to_set().contains(y) && a.to_set().contains(x));
        assert(a.contains(y) && b.contains(x));
        let i = a.index_of(y);
        let j = b.index_of(x);
        if x != y {
            assert(crate::text::text_lt(a[i], a[a.len() - 1]));
            assert(crate::text::text_lt(b[j], b[b.len() - 1]));
            crate::text::lemma_text_lt_asymmetric(x, y);
        }
        lemma_ascending_distinct(a);
        lemma_ascending_distinct(b);
        assert forall|k: Seq<char>| #[trigger]
            a.drop_last().to_set().contains(k) <==> b.drop_last().to_set().contains(k) by {
            lemma_drop_last_set(a, k);
            lemma_drop_last_set(b, k);
        }
        assert(a.drop_last().to_set() =~= b.drop_last().to_set());
        lemma_ascending_unique(a.drop_last(), b.drop_last());
        assert(a =~= a.drop_last().push(x));
        assert(b =~= b.drop_last().push(y));
    }
}

/// Without its last element a sequence has the same elements but that one.
proof fn lemma_drop_last_set(a: Seq<Seq<char>>, k: Seq<char>)
    requires
        a.len() > 0,
        a.no_duplicates(),
    ensures
        a.drop_last().to_set().contains(k) <==> a.to_set().contains(k) && k != a.last(),
{
    if a.drop_last().contains(k) {
        let i = a.drop_last().index_of(k);
        assert(a[i] == k);
        assert(a.contains(k));
    }
    if a.contains(k) && k != a.last() {
        let i = a.index_of(k);
        assert(a.drop_last()[i] == k);
    }
}

/// What is filtered out of an ascending sequence ascends.
pub proof fn lemma_filter_ascending(keys: Seq<Seq<char>>, p: spec_fn(Seq<char>) -> bool)
    requires
        ascending(keys),
    ensures
        ascending(keys.filter(p)),
        forall|k: Seq<char>| #[trigger]
            keys.filter(p).contains(k) <==> keys.contains(k) && p(k),
    decreases keys.len(),
{
    reveal(Seq::filter);
    if keys.len() > 0 {
        let r = keys.drop_last();
        lemma_filter_ascending(r, p);
        assert(keys =~= r.push(keys.last()));
        crate::seqs::lemma_filter_push(r, p, keys.last());
        assert forall|k: Seq<char>| #[trigger]
            keys.filter(p).contains(k) <==> keys.contains(k) && p(k) by {
            if keys.filter(p).contains(k) {
                let i = keys.filter(p).index_of(k);
                if i < r.filter(p).len() {
                    assert(r.filter(p)[i] == k);
                    assert(r.filter(p).contains(k));
                    let j = r.index_of(k);
                    assert(keys[j] == k);
                } else {
                    assert(keys[keys.len() - 1] == k);
                }
            }
            if keys.contains(k) && p(k) {
                let i = keys.index_of(k);
                if i < r.len() {
                    assert(r[i] == k);
                    assert(r.filter(p).contains(k));
                    let j = r.filter(p).index_of(k);
                    assert(keys.filter(p)[j] == k);
                } else {
                    assert(keys.filter(p)[keys.filter(p).len() - 1] == k);
                }
            }
        }
        assert forall|i: int, j: int|
            #![trigger keys.filter(p)[i], keys.filter(p)[j]]
            0 <= i < j < keys.filter(p).len() implies crate::text::text_lt(
            keys.filter(p)[i],
            keys.filter(p)[j],
        ) by {
            if j < r.filter(p).len() {
                assert(keys.filter(p)[i] == r.filter(p)[i]);
                assert(keys.filter(p)[j] == r.filter(p)[j]);
            } else {
                let k = r.filter(p)[i];
                assert(keys.filter(p)[i] == k);
                assert(r.filter(p).contains(k));
                let n = r.index_of(k);
                assert(keys[n] == k);
                assert(crate::text::text_lt(keys[n], keys[keys.len() - 1]));
            }
        }
    }
}

/// Walking the keys in order and taking what `p` picks gives the listing.
pub proof fn lemma_listing<R, S>(
    keys: Seq<Seq<char>>,
    m: Map<Seq<char>, R>,
    p: spec_fn(R) -> bool,
    f: spec_fn(R) -> S,
)
    requires
        ascending(keys),
        forall|k: Seq<char>|
            #![trigger m.dom().contains(k)]
            #![trigger keys.contains(k)]
            m.dom().contains(k) <==> keys.contains(k),
    ensures
        keys.filter(|k: Seq<char>| p(m[k])).map_values(|k: Seq<char>| f(m[k])) == listing(m, p, f),
        sorted(picked(m, p)) == keys.filter(|k: Seq<char>| p(m[k])),
{
    let q = |k: Seq<char>| p(m[k]);
    lemma_filter_ascending(keys, q);
    assert(keys.filter(q).to_set() =~= picked(m, p));
    lemma_sorted(keys.filter(q));
}

/// A listing is what `ps` picks of the listing of everything, and that is in the ascending order of
/// the keys, each once.
pub proof fn lemma_listing_filters<R, S>(
    m: Map<Seq<char>, R>,
    p: spec_fn(R) -> bool,
    f: spec_fn(R) -> S,
    all: spec_fn(R) -> bool,
    ps: spec_fn(S) -> bool,
)
    requires
        m.dom().finite(),
        forall|k: Seq<char>| #[trigger] m.dom().contains(k) ==> all(m[k]) && ps(f(m[k])) == p(m[k]),
    ensures
        listing(m, p, f) == listing(m, all, f).filter(ps),
        listing(m, all, f) == sorted(m.dom()).map_values(|k: Seq<char>| f(m[k])),
        ascending(sorted(m.dom())),
        sorted(m.dom()).no_duplicates(),
        sorted(m.dom()).to_set() == m.dom(),
{
    let keys = sorted(m.dom());
    let q = |k: Seq<char>| p(m[k]);
    let g = |k: Seq<char>| f(m[k]);
    lemma_sorted_set(m.dom());
    lemma_ascending_distinct(keys);
    assert forall|k: Seq<char>|
        #![trigger m.dom().contains(k)]
        #![trigger keys.contains(k)]
        m.dom().contains(k) <==> keys.contains(k) by {
        assert(keys.to_set().contains(k) <==> keys.contains(k));
    }
    lemma_listing(keys, m, p, f);
    assert(picked(m, all) =~= m.dom());
    assert forall|i: int| 0 <= i < keys.len() implies ps(g(#[trigger] keys[i])) == q(keys[i]) by {
        assert(keys.contains(keys[i]));
    }
    crate::seqs::lemma_map_filter(keys, g, ps, q);
}

/// Values by name; of two with the same name the later counts.
pub open spec fn indexed<R>(recs: Seq<R>, name: spec_fn(R) -> Seq<char>) -> Map<Seq<char>, R>
    decreases recs.len(),
{
    if recs.len() == 0 {
        Map::empty()
    } else {
        indexed(recs.drop_last(), name).insert(name(recs.last()), recs.last())
    }
}

/// Whether one of the values is named `k`.
pub open spec fn is_named<R>(recs: Seq<R>, name: spec_fn(R) -> Seq<char>, k: Seq<char>) -> bool {
    exists|i: int| 0 <= i < recs.len() && name(#[trigger] recs[i]) == k
}

/// Whether `recs` are the values of `m`, in some order.
pub open spec fn enumerates<R>(
    recs: Seq<R>,
    name: spec_fn(R) -> Seq<char>,
    m: Map<Seq<char>, R>,
) -> bool {
    &&& forall|i: int|
        0 <= i < recs.len() ==> m.dom().contains(name(#[trigger] recs[i])) && m[name(recs[i])]
            == recs[i]
    &&& forall|k: Seq<char>| #[trigger] m.dom().contains(k) ==> is_named(recs, name, k)
}

/// The names by which values are found.
pub proof fn lemma_indexed_dom<R>(recs: Seq<R>, name: spec_fn(R) -> Seq<char>, k: Seq<char>)
    ensures
        indexed(recs, name).dom().contains(k) <==> is_named(recs, name, k),
    decreases recs.len(),
{
    if recs.len() > 0 {
        let r = recs.drop_last();
        lemma_indexed_dom(r, name, k);
        assert(recs[recs.len() - 1] == recs.last());
        if is_named(r, name, k) {
            let i = choose|i: int| 0 <= i < r.len() && name(#[trigger] r[i]) == k;
            assert(name(recs[i]) == k);
        }
        if is_named(recs, name, k) && name(recs.last()) != k {
            let i = choose|i: int| 0 <= i < recs.len() && name(#[trigger] recs[i]) == k;
            assert(name(r[i]) == k);
        }
    }
}

/// The values of a map, read back in any order, make up the map again.
pub proof fn lemma_indexed_restores<R>(
    recs: Seq<R>,
    name: spec_fn(R) -> Seq<char>,
    m: Map<Seq<char>, R>,
)
    requires
        enumerates(recs, name, m),
    ensures
        indexed(recs, name) == m,
{
    assert forall|k: Seq<char>| #[trigger]
        indexed(recs, name).dom().contains(k) <==> m.dom().contains(k) by {
        lemma_indexed_dom(recs, name, k);
        if is_named(recs, name, k) {
            let i = choose|i: int| 0 <= i < recs.len() && name(#[trigger] recs[i]) == k;
            assert(m.dom().contains(name(recs[i])));
        }
    }
    assert forall|k: Seq<char>| #[trigger] indexed(recs, name).dom().contains(k) implies indexed(
        recs,
        name,
    )[k] == m[k] by {
        lemma_indexed_value(recs, name, m, k);
    }
    assert(indexed(recs, name) =~= m);
}

proof fn lemma_indexed_value<R>(
    recs: Seq<R>,
    name: spec_fn(R) -> Seq<char>,
    m: Map<Seq<char>, R>,
    k: Seq<char>,
)
    requires
        indexed(recs, name).dom().contains(k),
        forall|i: int|
            0 <= i < recs.len() ==> m.dom().contains(name(#[trigger] recs[i])) && m[name(recs[i])]
                == recs[i],
    ensures
        indexed(recs, name)[k] == m[k],
    decreases recs.len(),
{
    if recs.len() > 0 {
        let r = recs.drop_last();
        assert(recs[recs.len() - 1] == recs.last());
        if name(recs.last()) != k {
            assert forall|i: int| 0 <= i < r.len() implies m.dom().contains(name(#[trigger] r[i]))
                && m[name(r[i])] == r[i] by {
                assert(r[i] == recs[i]);
            }
            lemma_indexed_value(r, name, m, k);
        }
    }
}

} // verus!
