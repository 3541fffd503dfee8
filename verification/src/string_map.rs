//! A map from strings to strings that remembers insertion order.
//!
//! It stands in for the hash maps and ordered maps of credentials that the
//! service keeps: keys are unique, inserting an existing key replaces its
//! value in place, and the entries can be read back in order.

use vstd::prelude::*;

verus! {

/// The character sequences of a list of string pairs.
pub open spec fn pairs_view(e: Seq<(String, String)>) -> Seq<(Seq<char>, Seq<char>)> {
    e.map_values(|p: (String, String)| (p.0@, p.1@))
}

/// No key occurs twice among the pairs.
pub open spec fn keys_distinct(e: Seq<(Seq<char>, Seq<char>)>) -> bool {
    forall|i: int, j: int| 0 <= i < j < e.len() ==> e[i].0 != e[j].0
}

/// The map that the pairs describe, a later pair overriding an earlier one
/// with the same key.
pub open spec fn map_of(e: Seq<(Seq<char>, Seq<char>)>) -> Map<Seq<char>, Seq<char>>
    decreases e.len(),
{
    if e.len() == 0 {
        Map::empty()
    } else {
        map_of(e.drop_last()).insert(e.last().0, e.last().1)
    }
}

/// What `map_of` holds: every key of the pairs, and with distinct keys the
/// value that the pair gives.
pub proof fn lemma_map_of(e: Seq<(Seq<char>, Seq<char>)>)
    ensures
        forall|x: Seq<char>|
            #[trigger] map_of(e).contains_key(x) <==> exists|j: int| 0 <= j < e.len() && e[j].0 == x,
        keys_distinct(e) ==> forall|j: int| 0 <= j < e.len() ==> #[trigger] map_of(e)[e[j].0] == e[j].1,
        map_of(e).dom().finite(),
    decreases e.len(),
{
    if e.len() > 0 {
        let p = e.drop_last();
        lemma_map_of(p);
        assert forall|x: Seq<char>| #[trigger]
            map_of(e).contains_key(x) <==> exists|j: int| 0 <= j < e.len() && e[j].0 == x by {
            if map_of(e).contains_key(x) {
                if x == e.last().0 {
                    assert(e[e.len() - 1].0 == x);
                } else {
                    assert(map_of(p).contains_key(x));
                    let j = choose|j: int| 0 <= j < p.len() && p[j].0 == x;
                    assert(e[j].0 == x);
                }
            }
            if exists|j: int| 0 <= j < e.len() && e[j].0 == x {
                let j = choose|j: int| 0 <= j < e.len() && e[j].0 == x;
                if j < e.len() - 1 {
                    assert(p[j].0 == x);
                }
            }
        }
        if keys_distinct(e) {
            assert(keys_distinct(p));
            assert forall|j: int| 0 <= j < e.len() implies #[trigger] map_of(e)[e[j].0] == e[j].1 by {
                if j < e.len() - 1 {
                    assert(p[j] == e[j]);
                    assert(e[j].0 != e.last().0);
                }
            }
        }
    }
}

/// Replacing the value of a key that occurs once changes the map as `insert` does.
pub proof fn lemma_map_of_update(e: Seq<(Seq<char>, Seq<char>)>, i: int, v: Seq<char>)
    requires
        keys_distinct(e),
        0 <= i < e.len(),
    ensures
        keys_distinct(e.update(i, (e[i].0, v))),
        map_of(e.update(i, (e[i].0, v))) == map_of(e).insert(e[i].0, v),
{
    let k = e[i].0;
    let f = e.update(i, (k, v));
    assert(keys_distinct(f)) by {
        assert forall|a: int, b: int| 0 <= a < b < f.len() implies f[a].0 != f[b].0 by {
            assert(f[a].0 == e[a].0);
            assert(f[b].0 == e[b].0);
        }
    }
    lemma_map_of(e);
    lemma_map_of(f);
    assert forall|x: Seq<char>| #[trigger] map_of(f).contains_key(x) <==> map_of(e).insert(
        k,
        v,
    ).contains_key(x) by {
        if map_of(f).contains_key(x) {
            let j = choose|j: int| 0 <= j < f.len() && f[j].0 == x;
            assert(e[j].0 == x);
        }
        if map_of(e).contains_key(x) {
            let j = choose|j: int| 0 <= j < e.len() && e[j].0 == x;
            assert(f[j].0 == x);
        }
        if x == k {
            assert(f[i].0 == x);
        }
    }
    assert forall|x: Seq<char>| #[trigger] map_of(f).contains_key(x) implies map_of(f)[x] == map_of(
        e,
    ).insert(k, v)[x] by {
        let j = choose|j: int| 0 <= j < f.len() && f[j].0 == x;
        assert(map_of(f)[f[j].0] == f[j].1);
        if j == i {
        } else {
            assert(f[j] == e[j]);
            assert(map_of(e)[e[j].0] == e[j].1);
        }
    }
    assert(map_of(f) =~= map_of(e).insert(k, v));
}

/// The entries after storing `v` under `k`: the entry with key `k` gets the
/// new value where there is one, else the new entry goes last.
pub open spec fn entries_after_insert(
    e: Seq<(Seq<char>, Seq<char>)>,
    k: Seq<char>,
    v: Seq<char>,
) -> Seq<(Seq<char>, Seq<char>)> {
    if exists|j: int| 0 <= j < e.len() && e[j].0 == k {
        let j = choose|j: int| 0 <= j < e.len() && e[j].0 == k;
        e.update(j, (k, v))
    } else {
        e.push((k, v))
    }
}

/// A map from strings to strings with unique keys, kept in insertion order.
pub struct StringMap {
    entries: Vec<(String, String)>,
}

impl View for StringMap {
    type V = Map<Seq<char>, Seq<char>>;

    closed spec fn view(&self) -> Map<Seq<char>, Seq<char>> {
        map_of(pairs_view(self.entries@))
    }
}

impl StringMap {
    /// The entries, in insertion order.
    pub closed spec fn entries_view(&self) -> Seq<(Seq<char>, Seq<char>)> {
        pairs_view(self.entries@)
    }

    /// Keys are unique.
    pub closed spec fn wf(&self) -> bool {
        keys_distinct(self.entries_view())
    }

    /// How the map relates to its entries.
    pub proof fn lemma_view(&self)
        requires
            self.wf(),
        ensures
            self@ == map_of(self.entries_view()),
            keys_distinct(self.entries_view()),
            self@.dom().finite(),
            self@.len() == self.entries_view().len(),
            forall|x: Seq<char>|
                #[trigger] self@.contains_key(x) <==> exists|j: int|
                    0 <= j < self.entries_view().len() && self.entries_view()[j].0 == x,
            forall|j: int|
                0 <= j < self.entries_view().len() ==> #[trigger] self@[self.entries_view()[j].0]
                    == self.entries_view()[j].1,
    {
        lemma_map_of(self.entries_view());
        lemma_map_of_len(self.entries_view());
    }

    /// An empty map.
    pub fn new() -> (r: Self)
        ensures
            r.wf(),
            r@ == Map::<Seq<char>, Seq<char>>::empty(),
            r.entries_view() == Seq::<(Seq<char>, Seq<char>)>::empty(),
    {
        let r = StringMap { entries: Vec::new() };
        assert(r.entries_view() =~= Seq::<(Seq<char>, Seq<char>)>::empty());
        r
    }

    /// Number of keys.
    pub fn len(&self) -> (n: usize)
        requires
            self.wf(),
        ensures
            n == self@.len(),
            n == self.entries_view().len(),
    {
        proof {
            self.lemma_view();
        }
        self.entries.len()
    }

    /// Position of `k` among the entries.
    fn position(&self, k: &String) -> (r: Option<usize>)
        ensures
            match r {
                Some(i) => i < self.entries_view().len() && self.entries_view()[i as int].0 == k@,
                None => forall|j: int|
                    0 <= j < self.entries_view().len() ==> self.entries_view()[j].0 != k@,
            },
    {
        let n = self.entries.len();
        let mut i: usize = 0;
        while i < n
            invariant
                n == self.entries@.len(),
                i <= n,
                forall|j: int| 0 <= j < i ==> self.entries_view()[j].0 != k@,
            decreases n - i,
        {
            if self.entries[i].0 == *k {
                return Some(i);
            }
            i = i + 1;
        }
        None
    }

    /// The value stored under `k`.
    pub fn get(&self, k: &String) -> (r: Option<&String>)
        requires
            self.wf(),
        ensures
            match r {
                Some(v) => self@.contains_key(k@) && self@[k@] == v@,
                None => !self@.contains_key(k@),
            },
    {
        proof {
            self.lemma_view();
        }
        match self.position(k) {
            Some(i) => Some(&self.entries[i].1),
            None => None,
        }
    }

    /// Stores `v` under `k`, replacing an earlier value in place.
    pub fn insert(&mut self, k: String, v: String)
        requires
            old(self).wf(),
        ensures
            final(self).wf(),
            final(self)@ == old(self)@.insert(k@, v@),
            final(self).entries_view() == entries_after_insert(old(self).entries_view(), k@, v@),
    {
        let ghost e = self.entries_view();
        match self.position(&k) {
            Some(i) => {
                proof {
                    lemma_map_of_update(e, i as int, v@);
                    let j = choose|j: int| 0 <= j < e.len() && e[j].0 == k@;
                    assert(j == i);
                }
                self.entries.set(i, (k, v));
                assert(self.entries_view() =~= e.update(i as int, (e[i as int].0, v@)));
            },
            None => {
                self.entries.push((k, v));
                assert(self.entries_view() =~= e.push((k@, v@)));
                assert(self.entries_view().drop_last() =~= e);
            },
        }
    }

    /// The keys, in entry order.
    pub fn keys(&self) -> (r: Vec<String>)
        ensures
            r@.len() == self.entries_view().len(),
            forall|i: int| 0 <= i < r@.len() ==> #[trigger] r@[i]@ == self.entries_view()[i].0,
    {
        let n = self.entries.len();
        let mut r: Vec<String> = Vec::new();
        let mut i: usize = 0;
        while i < n
            invariant
                n == self.entries@.len(),
                i <= n,
                r@.len() == i,
                forall|j: int| 0 <= j < i ==> #[trigger] r@[j]@ == self.entries_view()[j].0,
            decreases n - i,
        {
            r.push(self.entries[i].0.clone());
            i = i + 1;
        }
        r
    }

    /// The values, in entry order.
    pub fn values(&self) -> (r: Vec<String>)
        ensures
            r@.len() == self.entries_view().len(),
            forall|i: int| 0 <= i < r@.len() ==> #[trigger] r@[i]@ == self.entries_view()[i].1,
    {
        let n = self.entries.len();
        let mut r: Vec<String> = Vec::new();
        let mut i: usize = 0;
        while i < n
            invariant
                n == self.entries@.len(),
                i <= n,
                r@.len() == i,
                forall|j: int| 0 <= j < i ==> #[trigger] r@[j]@ == self.entries_view()[j].1,
            decreases n - i,
        {
            r.push(self.entries[i].1.clone());
            i = i + 1;
        }
        r
    }

    /// The entries, in order.
    pub fn entries(&self) -> (r: &Vec<(String, String)>)
        ensures
            pairs_view(r@) == self.entries_view(),
    {
        &self.entries
    }

    /// Builds a map from pairs; a later pair overrides an earlier one with
    /// the same key.
    pub fn from_pairs(pairs: Vec<(String, String)>) -> (r: Self)
        ensures
            r.wf(),
            r@ == map_of(pairs_view(pairs@)),
    {
        let mut r = StringMap::new();
        let n = pairs.len();
        let mut i: usize = 0;
        while i < n
            invariant
                n == pairs@.len(),
                i <= n,
                r.wf(),
                r@ == map_of(pairs_view(pairs@.take(i as int))),
            decreases n - i,
        {
            let k = pairs[i].0.clone();
            let v = pairs[i].1.clone();
            r.insert(k, v);
            assert(pairs_view(pairs@.take(i + 1)).drop_last() =~= pairs_view(pairs@.take(i as int)));
            i = i + 1;
        }
        assert(pairs@.take(n as int) =~= pairs@);
        r
    }

    /// Adds every entry of `other`, its values winning over those already
    /// stored.
    pub fn merge(&mut self, other: &StringMap)
        requires
            old(self).wf(),
            other.wf(),
        ensures
            final(self).wf(),
            final(self)@ == old(self)@.union_prefer_right(other@),
    {
        let ghost start = self@;
        let n = other.entries.len();
        let mut i: usize = 0;
        proof {
            other.lemma_view();
        }
        while i < n
            invariant
                n == other.entries@.len(),
                i <= n,
                self.wf(),
                other.wf(),
                self@ == start.union_prefer_right(map_of(other.entries_view().take(i as int))),
            decreases n - i,
        {
            let k = other.entries[i].0.clone();
            let v = other.entries[i].1.clone();
            self.insert(k, v);
            proof {
                let t = other.entries_view().take(i + 1);
                assert(t.drop_last() =~= other.entries_view().take(i as int));
                assert(self@ =~= start.union_prefer_right(map_of(t)));
            }
            i = i + 1;
        }
        assert(other.entries_view().take(n as int) =~= other.entries_view());
    }
}

pub proof fn lemma_map_of_len(e: Seq<(Seq<char>, Seq<char>)>)
    requires
        keys_distinct(e),
    ensures
        map_of(e).len() == e.len(),
    decreases e.len(),
{
    if e.len() > 0 {
        let p = e.drop_last();
        assert(keys_distinct(p));
        lemma_map_of_len(p);
        lemma_map_of(p);
        assert(!map_of(p).contains_key(e.last().0)) by {
            if map_of(p).contains_key(e.last().0) {
                let j = choose|j: int| 0 <= j < p.len() && p[j].0 == e.last().0;
                assert(e[j].0 == e[e.len() - 1].0);
            }
        }
    }
}

} // verus!
