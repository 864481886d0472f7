//! A small map keyed by strings, kept as a list of entries in insertion
//! order with no key twice. It holds request headers, per-host settings and
//! the per-host preferences.
use vstd::prelude::*;

verus! {

/// The map an entry list describes: a later entry for a key wins.
pub open spec fn assoc_map<V>(e: Seq<(String, V)>) -> Map<Seq<char>, V>
    decreases e.len(),
{
    if e.len() == 0 {
        Map::empty()
    } else {
        assoc_map(e.drop_last()).insert(e.last().0@, e.last().1)
    }
}

/// No key occurs twice.
pub open spec fn distinct_keys<V>(e: Seq<(String, V)>) -> bool {
    forall|i: int, j: int| 0 <= i < j < e.len() ==> #[trigger] e[i].0@ != #[trigger] e[j].0@
}

/// The keys of an entry list, in order.
pub open spec fn key_list<V>(e: Seq<(String, V)>) -> Seq<Seq<char>> {
    e.map_values(|p: (String, V)| p.0@)
}

/// A key is in the map exactly when some entry has it.
pub proof fn lemma_assoc_dom<V>(e: Seq<(String, V)>, k: Seq<char>)
    ensures
        assoc_map(e).contains_key(k) <==> exists|i: int| 0 <= i < e.len() && #[trigger] e[i].0@ == k,
    decreases e.len(),
{
    if e.len() > 0 {
        lemma_assoc_dom(e.drop_last(), k);
        if assoc_map(e.drop_last()).contains_key(k) {
            let i = choose|i: int| 0 <= i < e.drop_last().len() && #[trigger] e.drop_last()[i].0@ == k;
            assert(e[i].0@ == k);
        }
        if exists|i: int| 0 <= i < e.len() && #[trigger] e[i].0@ == k {
            let i = choose|i: int| 0 <= i < e.len() && #[trigger] e[i].0@ == k;
            if i < e.len() - 1 {
                assert(e.drop_last()[i].0@ == k);
            }
        }
    }
}

/// With distinct keys, each entry's value is the map's value for its key.
pub proof fn lemma_assoc_value<V>(e: Seq<(String, V)>, i: int)
    requires
        distinct_keys(e),
        0 <= i < e.len(),
    ensures
        assoc_map(e).contains_key(e[i].0@),
        assoc_map(e)[e[i].0@] == e[i].1,
    decreases e.len(),
{
    if i < e.len() - 1 {
        assert(distinct_keys(e.drop_last()));
        lemma_assoc_value(e.drop_last(), i);
        assert(e[i].0@ != e.last().0@);
    }
}

/// Replacing the value of entry `i` replaces the map's value for its key.
pub proof fn lemma_assoc_update<V>(e: Seq<(String, V)>, i: int, k: String, v: V)
    requires
        distinct_keys(e),
        0 <= i < e.len(),
        e[i].0@ == k@,
    ensures
        assoc_map(e.update(i, (k, v))) == assoc_map(e).insert(k@, v),
        distinct_keys(e.update(i, (k, v))),
    decreases e.len(),
{
    let e2 = e.update(i, (k, v));
    assert forall|a: int, b: int| 0 <= a < b < e2.len() implies #[trigger] e2[a].0@
        != #[trigger] e2[b].0@ by {
        assert(e[a].0@ != e[b].0@);
    }
    if i == e.len() - 1 {
        assert(e2.drop_last() =~= e.drop_last());
        lemma_assoc_dom(e.drop_last(), k@);
        assert(!assoc_map(e.drop_last()).contains_key(k@)) by {
            if assoc_map(e.drop_last()).contains_key(k@) {
                let j = choose|j: int| 0 <= j < e.drop_last().len() && #[trigger] e.drop_last()[j].0@
                    == k@;
                assert(e[j].0@ == e[i].0@);
            }
        }
        assert(assoc_map(e2) =~= assoc_map(e).insert(k@, v));
    } else {
        assert(distinct_keys(e.drop_last()));
        lemma_assoc_update(e.drop_last(), i, k, v);
        assert(e2.drop_last() =~= e.drop_last().update(i, (k, v)));
        assert(e.last().0@ != k@);
        assert(assoc_map(e2) =~= assoc_map(e).insert(k@, v));
    }
}

/// A map keyed by strings.
pub struct Assoc<V> {
    entries: Vec<(String, V)>,
}

impl<V> View for Assoc<V> {
    type V = Map<Seq<char>, V>;

    open spec fn view(&self) -> Map<Seq<char>, V> {
        assoc_map(self.pairs())
    }
}

impl<V> Assoc<V> {
    #[verifier::type_invariant]
    spec fn keys_distinct(self) -> bool {
        distinct_keys(self.entries@)
    }

    /// The entries, in insertion order.
    pub closed spec fn pairs(self) -> Seq<(String, V)> {
        self.entries@
    }

    /// An empty map.
    pub fn new() -> (r: Self)
        ensures
            r@ == Map::<Seq<char>, V>::empty(),
            r.pairs() == Seq::<(String, V)>::empty(),
    {
        Assoc { entries: Vec::new() }
    }

    /// The entries in insertion order.
    pub fn entries(&self) -> (r: &[(String, V)])
        ensures
            r@ == self.pairs(),
            distinct_keys(self.pairs()),
    {
        proof {
            use_type_invariant(self);
        }
        self.entries.as_slice()
    }

    /// Index of the entry with key `k`.
    fn position(&self, k: &str) -> (r: Option<usize>)
        ensures
            match r {
                Some(i) => i < self.pairs().len() && self.pairs()[i as int].0@ == k@,
                None => forall|i: int| 0 <= i < self.pairs().len() ==> #[trigger] self.pairs()[i].0@ != k@,
            },
    {
        let mut i: usize = 0;
        while i < self.entries.len()
            invariant
                i <= self.entries@.len(),
                forall|j: int| 0 <= j < i ==> #[trigger] self.entries@[j].0@ != k@,
            decreases self.entries@.len() - i,
        {
            if crate::text::same_text(self.entries[i].0.as_str(), k) {
                return Some(i);
            }
            i += 1;
        }
        None
    }

    /// The value for key `k`.
    pub fn get(&self, k: &str) -> (r: Option<&V>)
        ensures
            match r {
                Some(v) => self@.contains_key(k@) && self@[k@] == *v,
                None => !self@.contains_key(k@),
            },
    {
        proof {
            use_type_invariant(self);
            lemma_assoc_dom(self.entries@, k@);
        }
        match self.position(k) {
            Some(i) => {
                proof {
                    lemma_assoc_value(self.entries@, i as int);
                }
                Some(&self.entries[i].1)
            },
            None => None,
        }
    }

    /// Whether key `k` is present.
    pub fn contains_key(&self, k: &str) -> (b: bool)
        ensures
            b == self@.contains_key(k@),
    {
        proof {
            use_type_invariant(self);
            lemma_assoc_dom(self.entries@, k@);
        }
        self.position(k).is_some()
    }

    /// Sets the value for key `k`: an existing entry keeps its place, a new
    /// key goes last.
    pub fn insert(&mut self, k: String, v: V)
        ensures
            final(self)@ == old(self)@.insert(k@, v),
            key_list(final(self).pairs()) == (if old(self)@.contains_key(k@) {
                key_list(old(self).pairs())
            } else {
                key_list(old(self).pairs()).push(k@)
            }),
    {
        proof {
            use_type_invariant(&*self);
            lemma_assoc_dom(self.entries@, k@);
        }
        let ghost kv = k@;
        match self.position(k.as_str()) {
            Some(i) => {
                proof {
                    lemma_assoc_update(self.entries@, i as int, k, v);
                    assert(key_list(self.entries@.update(i as int, (k, v))) =~= key_list(
                        self.entries@,
                    ));
                }
                let mut entries: Vec<(String, V)> = Vec::new();
                std::mem::swap(&mut entries, &mut self.entries);
                entries.set(i, (k, v));
                self.entries = entries;
            },
            None => {
                let ghost old_e = self.entries@;
                assert forall|i: int| 0 <= i < old_e.len() implies #[trigger] old_e[i].0@ != kv by {
                    assert(self.pairs()[i].0@ != k@);
                }
                let mut entries: Vec<(String, V)> = Vec::new();
                std::mem::swap(&mut entries, &mut self.entries);
                entries.push((k, v));
                proof {
                    assert(entries@.drop_last() =~= old_e);
                    assert(key_list(entries@) =~= key_list(old_e).push(kv));
                    assert forall|a: int, b: int| 0 <= a < b < entries@.len() implies #[trigger] entries@[a].0@
                        != #[trigger] entries@[b].0@ by {
                        if b < old_e.len() {
                            assert(old_e[a].0@ != old_e[b].0@);
                        } else {
                            assert(old_e[a].0@ != kv);
                        }
                    }
                }
                self.entries = entries;
            },
        }
    }
}

impl Assoc<String> {
    /// A copy of this map, entries in the same order.
    pub fn duplicate(&self) -> (r: Self)
        ensures
            r@ == self@,
            r.pairs() == self.pairs(),
    {
        proof {
            use_type_invariant(self);
        }
        let mut v: Vec<(String, String)> = Vec::new();
        let mut i: usize = 0;
        while i < self.entries.len()
            invariant
                i <= self.entries@.len(),
                v@ == self.entries@.take(i as int),
            decreases self.entries@.len() - i,
        {
            let k = self.entries[i].0.clone();
            let x = self.entries[i].1.clone();
            v.push((k, x));
            proof {
                assert(v@ =~= self.entries@.take(i + 1));
            }
            i += 1;
        }
        proof {
            assert(v@ =~= self.entries@);
        }
        Assoc { entries: v }
    }
}

} // verus!
