//! A map from strings to strings, kept as a list of entries with distinct keys.

use vstd::prelude::*;

verus! {

/// Entries seen by their views.
pub open spec fn entry_views(entries: Seq<(String, String)>) -> Seq<(Seq<char>, Seq<char>)> {
    entries.map_values(|e: (String, String)| (e.0@, e.1@))
}

pub proof fn lemma_entry_views_push(es: Seq<(String, String)>, e: (String, String))
    ensures
        entry_views(es.push(e)) == entry_views(es).push((e.0@, e.1@)),
{
    assert(entry_views(es.push(e)) =~= entry_views(es).push((e.0@, e.1@)));
}

/// No key occurs twice.
pub open spec fn keys_distinct(ps: Seq<(Seq<char>, Seq<char>)>) -> bool {
    forall|i: int, j: int| 0 <= i < j < ps.len() ==> #[trigger] ps[i].0 != #[trigger] ps[j].0
}

/// Some entry has key `k`.
pub open spec fn has_key(ps: Seq<(Seq<char>, Seq<char>)>, k: Seq<char>) -> bool {
    exists|i: int| 0 <= i < ps.len() && #[trigger] ps[i].0 == k
}

/// The map that a list of entries with distinct keys stands for.
pub open spec fn map_of(ps: Seq<(Seq<char>, Seq<char>)>) -> Map<Seq<char>, Seq<char>> {
    Map::new(
        |k: Seq<char>| has_key(ps, k),
        |k: Seq<char>| ps[choose|i: int| 0 <= i < ps.len() && #[trigger] ps[i].0 == k].1,
    )
}

/// In a list with distinct keys, entry `i` is what the map holds for its key.
pub proof fn lemma_map_of_entry(ps: Seq<(Seq<char>, Seq<char>)>, i: int)
    requires
        keys_distinct(ps),
        0 <= i < ps.len(),
    ensures
        map_of(ps).contains_key(ps[i].0),
        map_of(ps)[ps[i].0] == ps[i].1,
{
    let k = ps[i].0;
    assert(has_key(ps, k));
    let j = choose|j: int| 0 <= j < ps.len() && #[trigger] ps[j].0 == k;
    if j != i {
        if j < i {
            assert(ps[j].0 != ps[i].0);
        } else {
            assert(ps[i].0 != ps[j].0);
        }
    }
}

/// Appending an entry with a fresh key inserts it into the map.
pub proof fn lemma_map_of_push(ps: Seq<(Seq<char>, Seq<char>)>, k: Seq<char>, v: Seq<char>)
    requires
        keys_distinct(ps),
        !has_key(ps, k),
    ensures
        keys_distinct(ps.push((k, v))),
        map_of(ps.push((k, v))) == map_of(ps).insert(k, v),
{
    let qs = ps.push((k, v));
    assert forall|i: int, j: int| 0 <= i < j < qs.len() implies #[trigger] qs[i].0
        != #[trigger] qs[j].0 by {
        if j == ps.len() {
            assert(ps[i].0 == qs[i].0);
        } else {
            assert(ps[i].0 != ps[j].0);
        }
    }
    assert forall|key: Seq<char>| #[trigger]
        map_of(qs).contains_key(key) <==> map_of(ps).insert(k, v).contains_key(key) by {
        if has_key(ps, key) {
            let i = choose|i: int| 0 <= i < ps.len() && #[trigger] ps[i].0 == key;
            assert(qs[i].0 == key);
        }
        if has_key(qs, key) && key != k {
            let i = choose|i: int| 0 <= i < qs.len() && #[trigger] qs[i].0 == key;
            assert(ps[i].0 == key);
        }
        if key == k {
            assert(qs[ps.len() as int].0 == k);
        }
    }
    assert forall|key: Seq<char>| #[trigger] map_of(qs).contains_key(key) implies map_of(qs)[key]
        == map_of(ps).insert(k, v)[key] by {
        if key == k {
            lemma_map_of_entry(qs, ps.len() as int);
        } else {
            let i = choose|i: int| 0 <= i < qs.len() && #[trigger] qs[i].0 == key;
            lemma_map_of_entry(qs, i);
            lemma_map_of_entry(ps, i);
        }
    }
    assert(map_of(qs) =~= map_of(ps).insert(k, v));
}

/// Replacing the value of entry `i` updates the map at its key.
pub proof fn lemma_map_of_update(ps: Seq<(Seq<char>, Seq<char>)>, i: int, v: Seq<char>)
    requires
        keys_distinct(ps),
        0 <= i < ps.len(),
    ensures
        keys_distinct(ps.update(i, (ps[i].0, v))),
        map_of(ps.update(i, (ps[i].0, v))) == map_of(ps).insert(ps[i].0, v),
{
    let k = ps[i].0;
    let qs = ps.update(i, (k, v));
    assert forall|a: int, b: int| 0 <= a < b < qs.len() implies #[trigger] qs[a].0
        != #[trigger] qs[b].0 by {
        assert(qs[a].0 == ps[a].0 && qs[b].0 == ps[b].0);
    }
    assert forall|key: Seq<char>| #[trigger]
        map_of(qs).contains_key(key) <==> map_of(ps).insert(k, v).contains_key(key) by {
        if has_key(ps, key) {
            let j = choose|j: int| 0 <= j < ps.len() && #[trigger] ps[j].0 == key;
            assert(qs[j].0 == key);
        }
        if has_key(qs, key) {
            let j = choose|j: int| 0 <= j < qs.len() && #[trigger] qs[j].0 == key;
            assert(ps[j].0 == key);
        }
        assert(qs[i].0 == k);
        assert(ps[i].0 == k);
    }
    assert forall|key: Seq<char>| #[trigger] map_of(qs).contains_key(key) implies map_of(qs)[key]
        == map_of(ps).insert(k, v)[key] by {
        let j = choose|j: int| 0 <= j < qs.len() && #[trigger] qs[j].0 == key;
        lemma_map_of_entry(qs, j);
        if j != i {
            lemma_map_of_entry(ps, j);
        }
    }
    assert(map_of(qs) =~= map_of(ps).insert(k, v));
}

/// A map from strings to strings (header names to values, variable names to
/// captured values). Keys are distinct; the entries keep the order in which
/// keys were first inserted.
pub struct StrMap {
    entries: Vec<(String, String)>,
}

impl StrMap {
    /// The entries, by their views.
    pub closed spec fn pairs(self) -> Seq<(Seq<char>, Seq<char>)> {
        entry_views(self.entries@)
    }

    #[verifier::type_invariant]
    spec fn distinct(self) -> bool {
        keys_distinct(self.pairs())
    }

    /// An empty map.
    pub fn new() -> (m: StrMap)
        ensures
            m@ == Map::<Seq<char>, Seq<char>>::empty(),
            m.pairs() == Seq::<(Seq<char>, Seq<char>)>::empty(),
    {
        let m = StrMap { entries: Vec::new() };
        assert(m.pairs() =~= Seq::<(Seq<char>, Seq<char>)>::empty());
        assert(m@ =~= Map::<Seq<char>, Seq<char>>::empty());
        m
    }

    /// The number of entries (whose keys are distinct).
    pub fn len(&self) -> (n: usize)
        ensures
            n == self.pairs().len(),
            keys_distinct(self.pairs()),
    {
        proof {
            use_type_invariant(self);
        }
        self.entries.len()
    }

    /// The entry at position `i`.
    pub fn entry(&self, i: usize) -> (r: (&String, &String))
        requires
            i < self.pairs().len(),
        ensures
            (r.0@, r.1@) == self.pairs()[i as int],
    {
        (&self.entries[i].0, &self.entries[i].1)
    }

    /// The position of the entry with key `key`, if any.
    fn position(&self, key: &String) -> (r: Option<usize>)
        ensures
            r matches Some(i) ==> i < self.pairs().len() && self.pairs()[i as int].0 == key@,
            r is None ==> !has_key(self.pairs(), key@),
    {
        let mut i: usize = 0;
        while i < self.entries.len()
            invariant
                0 <= i <= self.entries@.len(),
                forall|j: int| 0 <= j < i ==> #[trigger] self.pairs()[j].0 != key@,
            decreases self.entries.len() - i,
        {
            if self.entries[i].0 == *key {
                return Some(i);
            }
            i = i + 1;
        }
        None
    }

    /// The value held for `key`.
    pub fn get(&self, key: &String) -> (r: Option<&String>)
        ensures
            r matches Some(v) ==> self@.contains_key(key@) && v@ == self@[key@],
            r is None ==> !self@.contains_key(key@),
    {
        proof {
            use_type_invariant(self);
        }
        match self.position(key) {
            Some(i) => {
                proof {
                    lemma_map_of_entry(self.pairs(), i as int);
                }
                Some(&self.entries[i].1)
            },
            None => None,
        }
    }

    /// Sets `key` to `value`, replacing an earlier value.
    pub fn insert(&mut self, key: String, value: String)
        ensures
            final(self)@ == old(self)@.insert(key@, value@),
    {
        proof {
            use_type_invariant(&*self);
        }
        let ghost ps = self.pairs();
        match self.position(&key) {
            Some(i) => {
                proof {
                    lemma_map_of_update(ps, i as int, value@);
                }
                let mut entries: Vec<(String, String)> = Vec::new();
                std::mem::swap(&mut entries, &mut self.entries);
                entries.set(i, (key, value));
                assert(entry_views(entries@) =~= ps.update(i as int, (ps[i as int].0, value@)));
                self.entries = entries;
            },
            None => {
                proof {
                    lemma_map_of_push(ps, key@, value@);
                }
                let mut entries: Vec<(String, String)> = Vec::new();
                std::mem::swap(&mut entries, &mut self.entries);
                let ghost kv = key@;
                let ghost vv = value@;
                entries.push((key, value));
                assert(entry_views(entries@) =~= ps.push((kv, vv)));
                self.entries = entries;
            },
        }
    }

    /// A map with the same entries.
    pub fn copy(&self) -> (r: StrMap)
        ensures
            r@ == self@,
            r.pairs() == self.pairs(),
    {
        proof {
            use_type_invariant(self);
        }
        let mut entries: Vec<(String, String)> = Vec::new();
        let mut i: usize = 0;
        while i < self.entries.len()
            invariant
                0 <= i <= self.entries@.len(),
                entry_views(entries@) == self.pairs().subrange(0, i as int),
            decreases self.entries.len() - i,
        {
            let e = (self.entries[i].0.clone(), self.entries[i].1.clone());
            let ghost before = entries@;
            entries.push(e);
            proof {
                lemma_entry_views_push(before, e);
            }
            assert(self.pairs()[i as int] == (self.entries@[i as int].0@, self.entries@[i as int].1@));
            assert(entry_views(entries@) =~= self.pairs().subrange(0, i + 1));
            i = i + 1;
        }
        assert(self.pairs().subrange(0, self.entries@.len() as int) =~= self.pairs());
        StrMap { entries }
    }

    /// Sets every key of `other` to its value there, as `HashMap::extend` does.
    pub fn extend(&mut self, other: &StrMap)
        ensures
            final(self)@ == old(self)@.union_prefer_right(other@),
    {
        proof {
            use_type_invariant(other);
        }
        let ghost start = self@;
        let mut i: usize = 0;
        while i < other.len()
            invariant
                0 <= i <= other.pairs().len(),
                keys_distinct(other.pairs()),
                self@ == start.union_prefer_right(map_of(other.pairs().subrange(0, i as int))),
            decreases other.pairs().len() - i,
        {
            let (k, v) = other.entry(i);
            let ghost before = self@;
            self.insert(k.clone(), v.clone());
            proof {
                let ps = other.pairs().subrange(0, i as int);
                assert(keys_distinct(ps));
                if has_key(ps, k@) {
                    let j = choose|j: int| 0 <= j < ps.len() && #[trigger] ps[j].0 == k@;
                    assert(other.pairs()[j].0 != other.pairs()[i as int].0);
                }
                lemma_map_of_push(ps, k@, v@);
                assert(other.pairs().subrange(0, i + 1) =~= ps.push((k@, v@)));
                assert(self@ =~= start.union_prefer_right(
                    map_of(other.pairs().subrange(0, i + 1)),
                ));
            }
            i = i + 1;
        }
        assert(other.pairs().subrange(0, other.pairs().len() as int) =~= other.pairs());
    }

    /// A map holding the given pairs; a later pair wins over an earlier one with the same key.
    pub fn from_pairs(pairs: Vec<(String, String)>) -> (m: StrMap)
        ensures
            forall|k: Seq<char>| #[trigger]
                m@.contains_key(k) <==> exists|i: int|
                    0 <= i < pairs@.len() && #[trigger] pairs@[i].0@ == k,
            forall|i: int|
                0 <= i < pairs@.len() && (forall|j: int|
                    i < j < pairs@.len() ==> #[trigger] pairs@[j].0@ != pairs@[i].0@)
                    ==> m@[#[trigger] pairs@[i].0@] == pairs@[i].1@,
    {
        let mut m = StrMap::new();
        let mut i: usize = 0;
        while i < pairs.len()
            invariant
                0 <= i <= pairs@.len(),
                forall|k: Seq<char>| #[trigger]
                    m@.contains_key(k) <==> exists|j: int|
                        0 <= j < i && #[trigger] pairs@[j].0@ == k,
                forall|a: int|
                    0 <= a < i && (forall|j: int|
                        a < j < i ==> #[trigger] pairs@[j].0@ != pairs@[a].0@)
                        ==> m@[#[trigger] pairs@[a].0@] == pairs@[a].1@,
            decreases pairs.len() - i,
        {
            let k = pairs[i].0.clone();
            let v = pairs[i].1.clone();
            let ghost before = m@;
            m.insert(k, v);
            proof {
                assert forall|key: Seq<char>| #[trigger] m@.contains_key(key) implies exists|j: int|
                    0 <= j < i + 1 && #[trigger] pairs@[j].0@ == key by {
                    if key == pairs@[i as int].0@ {
                        assert(pairs@[i as int].0@ == key);
                    }
                }
                assert forall|a: int|
                    0 <= a < i + 1 && (forall|j: int|
                        a < j < i + 1 ==> #[trigger] pairs@[j].0@ != pairs@[a].0@) implies m@[
                    #[trigger] pairs@[a].0@] == pairs@[a].1@ by {
                    if a < i {
                        assert(pairs@[i as int].0@ != pairs@[a].0@);
                    }
                }
            }
            i = i + 1;
        }
        m
    }
}

impl View for StrMap {
    type V = Map<Seq<char>, Seq<char>>;

    open spec fn view(&self) -> Map<Seq<char>, Seq<char>> {
        map_of(self.pairs())
    }
}

} // verus!
