//! An insertion-ordered map keyed by strings, with a `Map` view.
use vstd::prelude::*;
use crate::text::chars_of;

verus! {

/// Keys of the entries are pairwise different.
pub open spec fn keys_distinct<V>(s: Seq<(String, V)>) -> bool {
    forall|i: int, j: int| 0 <= i < j < s.len() ==> s[i].0@ != s[j].0@
}

/// The map that an entry list denotes (a later entry wins).
pub open spec fn to_map<V>(s: Seq<(String, V)>) -> Map<Seq<char>, V>
    decreases s.len(),
{
    if s.len() == 0 {
        Map::empty()
    } else {
        to_map(s.drop_last()).insert(s.last().0@, s.last().1)
    }
}

/// Keys of an entry list, in order.
pub open spec fn key_views<V>(s: Seq<(String, V)>) -> Seq<Seq<char>> {
    s.map_values(|e: (String, V)| e.0@)
}

/// Each entry is in the map with its value; every key of the map comes from
/// an entry; the domain is finite and as large as the list.
pub proof fn lemma_to_map<V>(s: Seq<(String, V)>)
    requires
        keys_distinct(s),
    ensures
        forall|i: int|
            0 <= i < s.len() ==> #[trigger] to_map(s).contains_key(s[i].0@) && to_map(s)[s[i].0@]
                == s[i].1,
        forall|k: Seq<char>|
            #[trigger] to_map(s).contains_key(k) ==> exists|i: int| 0 <= i < s.len() && s[i].0@ == k,
        to_map(s).dom().finite(),
        to_map(s).dom().len() == s.len(),
    decreases s.len(),
{
    if s.len() > 0 {
        let t = s.drop_last();
        assert(keys_distinct(t));
        lemma_to_map(t);
        let last = s.last();
        assert forall|k: Seq<char>| #[trigger] to_map(s).contains_key(k) implies exists|i: int|
            0 <= i < s.len() && s[i].0@ == k by {
            if k == last.0@ {
                assert(s[s.len() - 1].0@ == k);
            } else {
                assert(to_map(t).contains_key(k));
                let i = choose|i: int| 0 <= i < t.len() && t[i].0@ == k;
                assert(s[i].0@ == k);
            }
        }
        assert(!to_map(t).contains_key(last.0@)) by {
            if to_map(t).contains_key(last.0@) {
                let i = choose|i: int| 0 <= i < t.len() && t[i].0@ == last.0@;
                assert(s[i].0@ == s[s.len() - 1].0@);
            }
        }
        assert forall|i: int| 0 <= i < s.len() implies #[trigger] to_map(s).contains_key(s[i].0@)
            && to_map(s)[s[i].0@] == s[i].1 by {
            if i < s.len() - 1 {
                assert(t[i] == s[i]);
                assert(s[i].0@ != s[s.len() - 1].0@);
            }
        }
    }
}

/// A key that no entry has is not in the map.
pub proof fn lemma_to_map_absent<V>(s: Seq<(String, V)>, k: Seq<char>)
    requires
        forall|i: int| 0 <= i < s.len() ==> s[i].0@ != k,
    ensures
        !to_map(s).contains_key(k),
    decreases s.len(),
{
    if s.len() > 0 {
        lemma_to_map_absent(s.drop_last(), k);
    }
}

/// Replacing the value of the entry at `i` updates the map at that key.
pub proof fn lemma_to_map_update<V>(s: Seq<(String, V)>, i: int, e: (String, V))
    requires
        keys_distinct(s),
        0 <= i < s.len(),
        e.0@ == s[i].0@,
    ensures
        keys_distinct(s.update(i, e)),
        to_map(s.update(i, e)) == to_map(s).insert(e.0@, e.1),
{
    let u = s.update(i, e);
    assert(keys_distinct(u)) by {
        assert forall|a: int, b: int| 0 <= a < b < u.len() implies u[a].0@ != u[b].0@ by {
            assert(s[a].0@ != s[b].0@);
        }
    }
    lemma_to_map(s);
    lemma_to_map(u);
    assert forall|k: Seq<char>| #[trigger] to_map(u).contains_key(k) == to_map(s).insert(
        e.0@,
        e.1,
    ).contains_key(k) by {
        if to_map(u).contains_key(k) {
            let j = choose|j: int| 0 <= j < u.len() && u[j].0@ == k;
            if j != i {
                assert(to_map(s).contains_key(s[j].0@));
            }
        }
        if to_map(s).contains_key(k) {
            let j = choose|j: int| 0 <= j < s.len() && s[j].0@ == k;
            if j != i {
                assert(to_map(u).contains_key(u[j].0@));
            } else {
                assert(to_map(u).contains_key(u[i].0@));
            }
        }
        if k == e.0@ {
            assert(to_map(u).contains_key(u[i].0@));
        }
    }
    assert forall|k: Seq<char>| #[trigger] to_map(u).contains_key(k) implies to_map(u)[k]
        == to_map(s).insert(e.0@, e.1)[k] by {
        let j = choose|j: int| 0 <= j < u.len() && u[j].0@ == k;
        if j != i {
            assert(u[j] == s[j]);
            assert(s[j].0@ != s[i].0@);
            assert(to_map(s)[s[j].0@] == s[j].1);
        }
    }
    assert(to_map(u) =~= to_map(s).insert(e.0@, e.1));
}

/// Removing the entry at `i` removes its key from the map.
pub proof fn lemma_to_map_remove<V>(s: Seq<(String, V)>, i: int)
    requires
        keys_distinct(s),
        0 <= i < s.len(),
    ensures
        keys_distinct(s.remove(i)),
        to_map(s.remove(i)) == to_map(s).remove(s[i].0@),
{
    let u = s.remove(i);
    let k = s[i].0@;
    assert(keys_distinct(u)) by {
        assert forall|a: int, b: int| 0 <= a < b < u.len() implies u[a].0@ != u[b].0@ by {
            let a2 = if a < i { a } else { a + 1 };
            let b2 = if b < i { b } else { b + 1 };
            assert(u[a] == s[a2]);
            assert(u[b] == s[b2]);
        }
    }
    lemma_to_map(s);
    lemma_to_map(u);
    assert forall|q: Seq<char>| #[trigger] to_map(u).contains_key(q) == to_map(s).remove(k).contains_key(q) by {
        if to_map(u).contains_key(q) {
            let j = choose|j: int| 0 <= j < u.len() && u[j].0@ == q;
            let j2 = if j < i { j } else { j + 1 };
            assert(u[j] == s[j2]);
            assert(to_map(s).contains_key(s[j2].0@));
            assert(s[j2].0@ != s[i].0@);
        }
        if to_map(s).contains_key(q) && q != k {
            let j = choose|j: int| 0 <= j < s.len() && s[j].0@ == q;
            assert(j != i);
            let j2 = if j < i { j } else { j - 1 };
            assert(u[j2] == s[j]);
            assert(to_map(u).contains_key(u[j2].0@));
        }
    }
    assert forall|q: Seq<char>| #[trigger] to_map(u).contains_key(q) implies to_map(u)[q] == to_map(s).remove(k)[q] by {
        let j = choose|j: int| 0 <= j < u.len() && u[j].0@ == q;
        let j2 = if j < i { j } else { j + 1 };
        assert(u[j] == s[j2]);
        assert(to_map(s)[s[j2].0@] == s[j2].1);
    }
    assert(to_map(u) =~= to_map(s).remove(k));
}

/// Map keyed by strings that remembers the order in which keys first came.
pub struct StrMap<V> {
    entries: Vec<(String, V)>,
}

impl<V> View for StrMap<V> {
    type V = Map<Seq<char>, V>;

    closed spec fn view(&self) -> Map<Seq<char>, V> {
        to_map(self.entries@)
    }
}

impl<V> StrMap<V> {
    #[verifier::type_invariant]
    closed spec fn wf(&self) -> bool {
        keys_distinct(self.entries@)
    }

    /// The keys, in the order they were first inserted.
    pub closed spec fn key_order(&self) -> Seq<Seq<char>> {
        key_views(self.entries@)
    }

    /// An empty map.
    pub fn new() -> (m: Self)
        ensures
            m@ == Map::<Seq<char>, V>::empty(),
            m.key_order() == Seq::<Seq<char>>::empty(),
    {
        let m = StrMap { entries: Vec::new() };
        assert(m.key_order() =~= Seq::<Seq<char>>::empty());
        m
    }

    /// Index of the entry with key `k`, if any.
    fn position(&self, k: &[char]) -> (r: Option<usize>)
        ensures
            match r {
                Some(i) => i < self.entries@.len() && self.entries@[i as int].0@ == k@,
                None => forall|i: int| 0 <= i < self.entries@.len() ==> self.entries@[i].0@ != k@,
            },
    {
        let mut i: usize = 0;
        while i < self.entries.len()
            invariant
                i <= self.entries@.len(),
                forall|j: int| 0 <= j < i ==> self.entries@[j].0@ != k@,
            decreases self.entries@.len() - i,
        {
            if crate::text::eq_str(k, self.entries[i].0.as_str()) {
                return Some(i);
            }
            i = i + 1;
        }
        None
    }

    /// The value stored under `k`.
    pub fn get(&self, k: &str) -> (r: Option<&V>)
        ensures
            match r {
                Some(v) => self@.contains_key(k@) && self@[k@] == *v,
                None => !self@.contains_key(k@),
            },
    {
        proof {
            use_type_invariant(self);
            lemma_to_map(self.entries@);
        }
        let kc = chars_of(k);
        match self.position(&kc) {
            Some(i) => {
                assert(to_map(self.entries@).contains_key(self.entries@[i as int].0@));
                Some(&self.entries[i].1)
            },
            None => {
                proof {
                    lemma_to_map_absent(self.entries@, k@);
                }
                None
            },
        }
    }

    /// Whether `k` is a key.
    pub fn contains_key(&self, k: &str) -> (b: bool)
        ensures
            b == self@.contains_key(k@),
    {
        self.get(k).is_some()
    }

    /// Stores `v` under `k`, replacing an earlier value; a new key goes last.
    pub fn insert(&mut self, k: String, v: V)
        ensures
            final(self)@ == old(self)@.insert(k@, v),
            final(self).key_order() == (if old(self)@.contains_key(k@) {
                old(self).key_order()
            } else {
                old(self).key_order().push(k@)
            }),
    {
        proof {
            use_type_invariant(&*self);
            lemma_to_map(self.entries@);
        }
        let kc = chars_of(k.as_str());
        match self.position(&kc) {
            Some(i) => {
                proof {
                    lemma_to_map_update(self.entries@, i as int, (k, v));
                    assert(key_views(self.entries@.update(i as int, (k, v))) =~= key_views(
                        self.entries@,
                    ));
                }
                let mut e: Vec<(String, V)> = Vec::new();
                std::mem::swap(&mut e, &mut self.entries);
                e.set(i, (k, v));
                self.entries = e;
            },
            None => {
                proof {
                    lemma_to_map_absent(self.entries@, k@);
                    assert(self.entries@.push((k, v)).drop_last() =~= self.entries@);
                    assert(key_views(self.entries@.push((k, v))) =~= key_views(self.entries@).push(
                        k@,
                    ));
                }
                let mut e: Vec<(String, V)> = Vec::new();
                std::mem::swap(&mut e, &mut self.entries);
                e.push((k, v));
                self.entries = e;
            },
        }
    }

    /// Removes `k` and hands back its value.
    pub fn remove(&mut self, k: &str) -> (r: Option<V>)
        ensures
            final(self)@ == old(self)@.remove(k@),
            match r {
                Some(v) => old(self)@.contains_key(k@) && old(self)@[k@] == v,
                None => !old(self)@.contains_key(k@),
            },
    {
        proof {
            use_type_invariant(&*self);
            lemma_to_map(self.entries@);
        }
        let kc = chars_of(k);
        match self.position(&kc) {
            Some(i) => {
                proof {
                    lemma_to_map_remove(self.entries@, i as int);
                    assert(to_map(self.entries@).contains_key(self.entries@[i as int].0@));
                }
                let mut e: Vec<(String, V)> = Vec::new();
                std::mem::swap(&mut e, &mut self.entries);
                let (_, v) = e.remove(i);
                self.entries = e;
                Some(v)
            },
            None => {
                proof {
                    lemma_to_map_absent(self.entries@, k@);
                    assert(self.entries@.len() >= 0);
                }
                assert(to_map(self.entries@).remove(k@) =~= to_map(self.entries@));
                None
            },
        }
    }

    /// Number of keys; the key order lists each key of the map exactly once.
    pub fn len(&self) -> (n: usize)
        ensures
            n == self@.len(),
            self@.dom().finite(),
            self.key_order().len() == n,
            forall|i: int|
                0 <= i < n ==> self@.contains_key(#[trigger] self.key_order()[i]),
            forall|k: Seq<char>| #[trigger] self@.contains_key(k) ==> self.key_order().contains(k),
            forall|i: int, j: int|
                0 <= i < j < n ==> self.key_order()[i] != self.key_order()[j],
    {
        proof {
            use_type_invariant(self);
            lemma_to_map(self.entries@);
            assert forall|k: Seq<char>| #[trigger] self@.contains_key(k) implies self.key_order().contains(
                k,
            ) by {
                let i = choose|i: int| 0 <= i < self.entries@.len() && self.entries@[i].0@ == k;
                assert(self.key_order()[i] == k);
            }
        }
        self.entries.len()
    }

    /// Whether there is no key.
    pub fn is_empty(&self) -> (b: bool)
        ensures
            b == (self@.len() == 0),
    {
        self.len() == 0
    }

    /// Removes every key.
    pub fn clear(&mut self)
        ensures
            final(self)@ == Map::<Seq<char>, V>::empty(),
            final(self).key_order() == Seq::<Seq<char>>::empty(),
    {
        self.entries = Vec::new();
        assert(key_views(self.entries@) =~= Seq::<Seq<char>>::empty());
    }

    /// The `i`-th key in insertion order and its value.
    pub fn entry_at(&self, i: usize) -> (r: (&String, &V))
        requires
            i < self.key_order().len(),
        ensures
            r.0@ == self.key_order()[i as int],
            self@.contains_key(r.0@),
            self@[r.0@] == *r.1,
    {
        proof {
            use_type_invariant(self);
            lemma_to_map(self.entries@);
        }
        (&self.entries[i].0, &self.entries[i].1)
    }
}

} // verus!

verus! {

/// Set of strings, kept in insertion order.
pub struct StrSet {
    map: StrMap<()>,
}

impl View for StrSet {
    type V = Set<Seq<char>>;

    closed spec fn view(&self) -> Set<Seq<char>> {
        self.map@.dom()
    }
}

impl StrSet {
    /// The members, in the order they were first inserted.
    pub closed spec fn order(&self) -> Seq<Seq<char>> {
        self.map.key_order()
    }

    /// An empty set.
    pub fn new() -> (s: Self)
        ensures
            s@ == Set::<Seq<char>>::empty(),
            s.order() == Seq::<Seq<char>>::empty(),
    {
        let s = StrSet { map: StrMap::new() };
        assert(s@ =~= Set::<Seq<char>>::empty());
        s
    }

    /// Adds `k`; returns whether it was new.
    pub fn insert(&mut self, k: String) -> (b: bool)
        ensures
            final(self)@ == old(self)@.insert(k@),
            b == !old(self)@.contains(k@),
            final(self).order() == (if b { old(self).order().push(k@) } else { old(self).order() }),
    {
        let b = !self.map.contains_key(k.as_str());
        self.map.insert(k, ());
        assert(self.map@.dom() =~= old(self).map@.dom().insert(k@));
        b
    }

    /// Removes `k`; returns whether it was a member.
    pub fn remove(&mut self, k: &str) -> (b: bool)
        ensures
            final(self)@ == old(self)@.remove(k@),
            b == old(self)@.contains(k@),
    {
        let r = self.map.remove(k);
        assert(self.map@.dom() =~= old(self).map@.dom().remove(k@));
        r.is_some()
    }

    /// Whether `k` is a member.
    pub fn contains(&self, k: &str) -> (b: bool)
        ensures
            b == self@.contains(k@),
    {
        self.map.contains_key(k)
    }

    /// Number of members.
    pub fn len(&self) -> (n: usize)
        ensures
            n == self@.len(),
            self@.finite(),
            self.order().len() == n,
            forall|i: int| 0 <= i < n ==> self@.contains(#[trigger] self.order()[i]),
            forall|i: int, j: int| 0 <= i < j < n ==> self.order()[i] != self.order()[j],
    {
        self.map.len()
    }

    /// Whether there is no member.
    pub fn is_empty(&self) -> (b: bool)
        ensures
            b == (self@.len() == 0),
            self@.finite(),
    {
        self.len() == 0
    }

    /// The `i`-th member in insertion order.
    pub fn member_at(&self, i: usize) -> (r: &String)
        requires
            i < self.order().len(),
        ensures
            r@ == self.order()[i as int],
            self@.contains(r@),
    {
        self.map.entry_at(i).0
    }
}

} // verus!
