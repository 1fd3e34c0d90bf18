//! The key-value storage of a node.
use vstd::prelude::*;

verus! {

/// The map that a sequence of key-value pairs stands for.
pub open spec fn spec_pairs_map(s: Seq<(Seq<char>, Seq<char>)>) -> Map<Seq<char>, Seq<char>>
    decreases s.len(),
{
    if s.len() == 0 {
        Map::empty()
    } else {
        spec_pairs_map(s.drop_last()).insert(s.last().0, s.last().1)
    }
}

/// No key occurs twice.
pub open spec fn spec_keys_distinct(s: Seq<(Seq<char>, Seq<char>)>) -> bool {
    forall|i: int, j: int| 0 <= i < j < s.len() ==> #[trigger] s[i].0 != #[trigger] s[j].0
}

/// The value stored under `key`, if any.
pub open spec fn spec_lookup(m: Map<Seq<char>, Seq<char>>, key: Seq<char>) -> Option<Seq<char>> {
    if m.dom().contains(key) {
        Some(m[key])
    } else {
        None
    }
}

proof fn lemma_pairs_map_dom(s: Seq<(Seq<char>, Seq<char>)>, k: Seq<char>)
    ensures
        spec_pairs_map(s).dom().contains(k) <==> exists|i: int| 0 <= i < s.len() && s[i].0 == k,
    decreases s.len(),
{
    if s.len() > 0 {
        lemma_pairs_map_dom(s.drop_last(), k);
        if exists|i: int| 0 <= i < s.drop_last().len() && s.drop_last()[i].0 == k {
            let i = choose|i: int| 0 <= i < s.drop_last().len() && s.drop_last()[i].0 == k;
            assert(s[i].0 == k);
        }
        if exists|i: int| 0 <= i < s.len() && s[i].0 == k {
            let i = choose|i: int| 0 <= i < s.len() && s[i].0 == k;
            if i < s.len() - 1 {
                assert(s.drop_last()[i].0 == k);
            }
        }
    }
}

proof fn lemma_pairs_map_at(s: Seq<(Seq<char>, Seq<char>)>, i: int)
    requires
        spec_keys_distinct(s),
        0 <= i < s.len(),
    ensures
        spec_pairs_map(s).dom().contains(s[i].0),
        spec_pairs_map(s)[s[i].0] == s[i].1,
    decreases s.len(),
{
    if i < s.len() - 1 {
        let t = s.drop_last();
        assert(t[i] == s[i]);
        assert(spec_keys_distinct(t)) by {
            assert forall|a: int, b: int| 0 <= a < b < t.len() implies #[trigger] t[a].0
                != #[trigger] t[b].0 by {
                assert(t[a] == s[a] && t[b] == s[b]);
            }
        }
        lemma_pairs_map_at(t, i);
        assert(s[i].0 != s[s.len() - 1].0);
    }
}

proof fn lemma_pairs_map_update(s: Seq<(Seq<char>, Seq<char>)>, i: int, v: Seq<char>)
    requires
        0 <= i < s.len(),
    ensures
        spec_pairs_map(s.update(i, (s[i].0, v))) == spec_pairs_map(s).insert(s[i].0, v)
            || exists|j: int| i < j < s.len() && s[j].0 == s[i].0,
    decreases s.len(),
{
    let u = s.update(i, (s[i].0, v));
    if i == s.len() - 1 {
        assert(u.drop_last() == s.drop_last());
        assert(spec_pairs_map(s).insert(s[i].0, v) == spec_pairs_map(s.drop_last()).insert(
            s[i].0,
            v,
        ));
    } else {
        let t = s.drop_last();
        lemma_pairs_map_update(t, i, v);
        assert(u.drop_last() == t.update(i, (t[i].0, v)));
        assert(u.last() == s.last());
        if exists|j: int| i < j < t.len() && t[j].0 == t[i].0 {
            let j = choose|j: int| i < j < t.len() && t[j].0 == t[i].0;
            assert(s[j].0 == s[i].0);
        } else if s.last().0 == s[i].0 {
            assert(s[s.len() - 1].0 == s[i].0);
        } else {
            assert(spec_pairs_map(u) == spec_pairs_map(s).insert(s[i].0, v));
        }
    }
}

/// The pairs after storing `value` under `key`: a stored key keeps its place
/// and takes the new value, a new key goes at the end.
pub open spec fn spec_put_pairs(s: Seq<(Seq<char>, Seq<char>)>, key: Seq<char>, value: Seq<char>) -> Seq<
    (Seq<char>, Seq<char>),
> {
    if exists|i: int| 0 <= i < s.len() && s[i].0 == key {
        s.update(choose|i: int| 0 <= i < s.len() && s[i].0 == key, (key, value))
    } else {
        s.push((key, value))
    }
}

/// The keys of the pairs, in order.
pub open spec fn spec_pair_keys(s: Seq<(Seq<char>, Seq<char>)>) -> Seq<Seq<char>> {
    s.map_values(|p: (Seq<char>, Seq<char>)| p.0)
}

/// The key-value store of a node: each key is stored at most once.
pub struct KvStore {
    entries: Vec<(String, String)>,
}

impl KvStore {
    /// The stored pairs, in the order their keys were first stored.
    pub closed spec fn pairs(&self) -> Seq<(Seq<char>, Seq<char>)> {
        self.entries.deep_view()
    }

    #[verifier::type_invariant]
    spec fn keys_distinct(&self) -> bool {
        spec_keys_distinct(self.entries.deep_view())
    }
}

impl View for KvStore {
    type V = Map<Seq<char>, Seq<char>>;

    closed spec fn view(&self) -> Map<Seq<char>, Seq<char>> {
        spec_pairs_map(self.entries.deep_view())
    }
}

impl KvStore {
    /// An empty store.
    pub fn new() -> (r: Self)
        ensures
            r@ == Map::<Seq<char>, Seq<char>>::empty(),
            r.pairs() == Seq::<(Seq<char>, Seq<char>)>::empty(),
    {
        KvStore { entries: Vec::new() }
    }

    fn find(&self, key: &String) -> (r: Option<usize>)
        ensures
            match r {
                Some(i) => i < self.entries.len() && self.entries@[i as int].0@ == key@,
                None => forall|i: int|
                    0 <= i < self.entries.len() ==> self.entries@[i].0@ != key@,
            },
    {
        let n = self.entries.len();
        for i in 0..n
            invariant
                n == self.entries.len(),
                forall|j: int| 0 <= j < i ==> self.entries@[j].0@ != key@,
        {
            if self.entries[i].0 == *key {
                return Some(i);
            }
        }
        None
    }

    /// The value stored under `key`, if any.
    pub fn get(&self, key: &String) -> (r: Option<String>)
        ensures
            match r {
                Some(v) => spec_lookup(self@, key@) == Some(v@),
                None => spec_lookup(self@, key@) == None::<Seq<char>>,
            },
    {
        proof {
            use_type_invariant(self);
        }
        let ghost s = self.entries.deep_view();
        match self.find(key) {
            Some(i) => {
                proof {
                    assert(s[i as int] == (self.entries@[i as int].0@, self.entries@[i as int].1@));
                    lemma_pairs_map_at(s, i as int);
                }
                Some(self.entries[i].1.clone())
            },
            None => {
                proof {
                    lemma_pairs_map_dom(s, key@);
                    if exists|i: int| 0 <= i < s.len() && s[i].0 == key@ {
                        let i = choose|i: int| 0 <= i < s.len() && s[i].0 == key@;
                        assert(self.entries@[i].0@ == s[i].0);
                    }
                }
                None
            },
        }
    }

    /// Stores `value` under `key`, replacing what was stored there.
    pub fn put(&mut self, key: String, value: String)
        ensures
            final(self)@ == old(self)@.insert(key@, value@),
            final(self).pairs() == spec_put_pairs(old(self).pairs(), key@, value@),
    {
        proof {
            use_type_invariant(&*self);
        }
        let ghost s = self.entries.deep_view();
        let found = self.find(&key);
        proof {
            if found is None {
                assert forall|i: int| 0 <= i < s.len() implies s[i].0 != key@ by {
                    assert(s[i].0 == self.entries@[i].0@);
                }
            }
        }
        let mut entries: Vec<(String, String)> = Vec::new();
        std::mem::swap(&mut entries, &mut self.entries);
        match found {
            Some(i) => {
                let old_key = entries[i].0.clone();
                entries.set(i, (old_key, value));
                proof {
                    assert(entries.deep_view() == s.update(i as int, (s[i as int].0, value@)));
                    assert(s[i as int].0 == key@);
                    let c = choose|j: int| 0 <= j < s.len() && s[j].0 == key@;
                    if c != i as int {
                        if c < i {
                            assert(s[c].0 != s[i as int].0);
                        } else {
                            assert(s[i as int].0 != s[c].0);
                        }
                    }
                    lemma_pairs_map_update(s, i as int, value@);
                    if exists|j: int| i < j < s.len() && s[j].0 == s[i as int].0 {
                        let j = choose|j: int| i < j < s.len() && s[j].0 == s[i as int].0;
                        assert(s[i as int].0 != s[j].0);
                    }
                    assert(spec_keys_distinct(entries.deep_view())) by {
                        let t = entries.deep_view();
                        assert forall|a: int, b: int| 0 <= a < b < t.len() implies #[trigger] t[a].0
                            != #[trigger] t[b].0 by {
                            assert(t[a].0 == s[a].0 && t[b].0 == s[b].0);
                        }
                    }
                }
            },
            None => {
                entries.push((key, value));
                proof {
                    let t = entries.deep_view();
                    assert(t.drop_last() == s);
                    assert(spec_keys_distinct(t)) by {
                        assert forall|a: int, b: int| 0 <= a < b < t.len() implies #[trigger] t[a].0
                            != #[trigger] t[b].0 by {
                            if b < t.len() - 1 {
                                assert(t[a] == s[a] && t[b] == s[b]);
                            } else {
                                assert(t[a] == s[a]);
                            }
                        }
                    }
                }
            },
        }
        self.entries = entries;
    }

    /// Every stored key, once each, in the order the keys were first stored.
    pub fn keys(&self) -> (r: Vec<String>)
        ensures
            r.deep_view() == spec_pair_keys(self.pairs()),
            r.deep_view().no_duplicates(),
            r.deep_view().to_set() == self@.dom(),
    {
        proof {
            use_type_invariant(self);
        }
        let ghost s = self.entries.deep_view();
        let mut r: Vec<String> = Vec::new();
        let n = self.entries.len();
        for i in 0..n
            invariant
                n == self.entries.len(),
                s == self.entries.deep_view(),
                spec_keys_distinct(s),
                r.deep_view().len() == i,
                forall|j: int| 0 <= j < i ==> #[trigger] r.deep_view()[j] == s[j].0,
        {
            let ghost prev = r.deep_view();
            r.push(self.entries[i].0.clone());
            assert(r.deep_view() == prev.push(s[i as int].0));
        }
        proof {
            let d = r.deep_view();
            assert(d == spec_pair_keys(s));
            assert forall|a: int, b: int| 0 <= a < d.len() && 0 <= b < d.len() && a != b implies d[a]
                != d[b] by {
                if a < b {
                    assert(s[a].0 != s[b].0);
                } else {
                    assert(s[b].0 != s[a].0);
                }
            }
            assert forall|k: Seq<char>| d.to_set().contains(k) <==> self@.dom().contains(k) by {
                lemma_pairs_map_dom(s, k);
                if d.contains(k) {
                    let j = choose|j: int| 0 <= j < d.len() && d[j] == k;
                    assert(s[j].0 == k);
                }
                if exists|j: int| 0 <= j < s.len() && s[j].0 == k {
                    let j = choose|j: int| 0 <= j < s.len() && s[j].0 == k;
                    assert(d[j] == k);
                }
            }
        }
        r
    }
}

} // verus!

verus! {

/// Reading a key gives back the last value written to it, and writing one key
/// leaves every other key as it was.
pub proof fn law_read_after_write(
    m: Map<Seq<char>, Seq<char>>,
    key: Seq<char>,
    value: Seq<char>,
    other: Seq<char>,
)
    requires
        other != key,
    ensures
        spec_lookup(m.insert(key, value), key) == Some(value),
        spec_lookup(m.insert(key, value), other) == spec_lookup(m, other),
{
}

} // verus!
