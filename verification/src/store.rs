//! Keyed stores used by the in-process cache.
//!
//! Each store keeps its entries in a vector with pairwise-distinct keys and
//! is specified against a mathematical `Map` or `Set` view, so that every
//! cache operation can state exactly which entries it adds, replaces or
//! removes.

use vstd::prelude::*;

verus! {

/// The map described by an entry sequence: later entries win.
pub open spec fn entries_map<V>(s: Seq<(u64, V)>) -> Map<u64, V>
    decreases s.len(),
{
    if s.len() == 0 {
        Map::empty()
    } else {
        entries_map(s.drop_last()).insert(s.last().0, s.last().1)
    }
}

/// No two entries share a key.
pub open spec fn distinct_keys<V>(s: Seq<(u64, V)>) -> bool {
    forall|i: int, j: int| 0 <= i < j < s.len() ==> s[i].0 != s[j].0
}

/// Some entry carries this key.
pub open spec fn has_entry_key<V>(s: Seq<(u64, V)>, k: u64) -> bool {
    exists|i: int| 0 <= i < s.len() && (#[trigger] s[i]).0 == k
}

proof fn lemma_entries_map_dom<V>(s: Seq<(u64, V)>)
    ensures
        forall|k: u64| #[trigger] entries_map(s).contains_key(k) <==> has_entry_key(s, k),
    decreases s.len(),
{
    if s.len() > 0 {
        lemma_entries_map_dom(s.drop_last());
        assert(entries_map(s) == entries_map(s.drop_last()).insert(s.last().0, s.last().1));
        assert forall|k: u64| #[trigger]
            entries_map(s).contains_key(k) implies has_entry_key(s, k) by {
            if k == s.last().0 {
                assert((s[s.len() - 1]).0 == k);
            } else {
                assert(entries_map(s.drop_last()).contains_key(k));
                let i = choose|i: int|
                    0 <= i < s.drop_last().len() && (#[trigger] s.drop_last()[i]).0 == k;
                assert(s.drop_last()[i] == s[i]);
                assert((s[i]).0 == k);
            }
        }
        assert forall|k: u64| has_entry_key(s, k) implies #[trigger] entries_map(
            s,
        ).contains_key(k) by {
            let i = choose|i: int| 0 <= i < s.len() && (#[trigger] s[i]).0 == k;
            if i < s.len() - 1 {
                assert(s.drop_last()[i] == s[i]);
                assert((s.drop_last()[i]).0 == k);
                assert(has_entry_key(s.drop_last(), k));
                assert(entries_map(s.drop_last()).contains_key(k));
            } else {
                assert(k == s.last().0);
                assert(entries_map(s).contains_key(s.last().0));
            }
        }
    }
}

proof fn lemma_entries_map_absent<V>(s: Seq<(u64, V)>, k: u64)
    requires
        forall|i: int| 0 <= i < s.len() ==> (#[trigger] s[i]).0 != k,
    ensures
        !entries_map(s).contains_key(k),
{
    lemma_entries_map_dom(s);
    if entries_map(s).contains_key(k) {
        let i = choose|i: int| 0 <= i < s.len() && (#[trigger] s[i]).0 == k;
        assert(false);
    }
}

proof fn lemma_entries_map_present<V>(s: Seq<(u64, V)>, i: int)
    requires
        0 <= i < s.len(),
    ensures
        entries_map(s).contains_key(s[i].0),
{
    lemma_entries_map_dom(s);
    assert((s[i]).0 == s[i].0);
    assert(has_entry_key(s, s[i].0));
}

proof fn lemma_entries_map_value<V>(s: Seq<(u64, V)>, i: int)
    requires
        distinct_keys(s),
        0 <= i < s.len(),
    ensures
        entries_map(s).contains_key(s[i].0),
        entries_map(s)[s[i].0] == s[i].1,
    decreases s.len(),
{
    lemma_entries_map_present(s, i);
    if i < s.len() - 1 {
        assert(distinct_keys(s.drop_last()));
        assert(s.drop_last()[i] == s[i]);
        lemma_entries_map_value(s.drop_last(), i);
        assert(s[i].0 != s.last().0);
    }
}

proof fn lemma_entries_map_push<V>(s: Seq<(u64, V)>, k: u64, v: V)
    ensures
        entries_map(s.push((k, v))) == entries_map(s).insert(k, v),
{
    assert(s.push((k, v)).drop_last() =~= s);
    assert(s.push((k, v)).last() == (k, v));
}

proof fn lemma_entries_map_update<V>(s: Seq<(u64, V)>, i: int, k: u64, v: V)
    requires
        distinct_keys(s),
        0 <= i < s.len(),
        s[i].0 == k,
    ensures
        entries_map(s.update(i, (k, v))) == entries_map(s).insert(k, v),
        distinct_keys(s.update(i, (k, v))),
    decreases s.len(),
{
    let t = s.update(i, (k, v));
    assert(distinct_keys(t)) by {
        assert(forall|j: int| 0 <= j < s.len() && j != i ==> (#[trigger] t[j]).0 == s[j].0);
        assert(t[i].0 == k == s[i].0);
    }
    if i == s.len() - 1 {
        assert(t.drop_last() =~= s.drop_last());
        assert(t.last() == (k, v));
        assert(entries_map(t) == entries_map(s.drop_last()).insert(k, v));
        assert(entries_map(s).insert(k, v) =~= entries_map(s.drop_last()).insert(k, v));
    } else {
        assert(t.drop_last() =~= s.drop_last().update(i, (k, v)));
        assert(t.last() == s.last());
        assert(distinct_keys(s.drop_last()));
        assert(s.drop_last()[i] == s[i]);
        lemma_entries_map_update(s.drop_last(), i, k, v);
        assert(entries_map(t) == entries_map(s.drop_last()).insert(k, v).insert(
            s.last().0,
            s.last().1,
        ));
        assert(s.last().0 != k);
        assert(entries_map(s.drop_last()).insert(k, v).insert(s.last().0, s.last().1)
            =~= entries_map(s.drop_last()).insert(s.last().0, s.last().1).insert(k, v));
    }
}

proof fn lemma_entries_map_remove<V>(s: Seq<(u64, V)>, i: int)
    requires
        distinct_keys(s),
        0 <= i < s.len(),
    ensures
        entries_map(s.remove(i)) == entries_map(s).remove(s[i].0),
        distinct_keys(s.remove(i)),
    decreases s.len(),
{
    let k = s[i].0;
    let t = s.remove(i);
    assert(distinct_keys(t)) by {
        assert(forall|j: int| 0 <= j < i ==> #[trigger] t[j] == s[j]);
        assert(forall|j: int| i <= j < t.len() ==> #[trigger] t[j] == s[j + 1]);
    }
    if i == s.len() - 1 {
        assert(t =~= s.drop_last());
        assert(!entries_map(s.drop_last()).contains_key(k)) by {
            assert forall|j: int|
                0 <= j < s.drop_last().len() implies (#[trigger] s.drop_last()[j]).0 != k by {
                assert(s.drop_last()[j] == s[j]);
            }
            lemma_entries_map_absent(s.drop_last(), k);
        }
        assert(entries_map(s).remove(k) =~= entries_map(s.drop_last()));
    } else {
        assert(t.drop_last() =~= s.drop_last().remove(i));
        assert(t.last() == s.last());
        assert(distinct_keys(s.drop_last()));
        assert(s.drop_last()[i] == s[i]);
        lemma_entries_map_remove(s.drop_last(), i);
        assert(entries_map(t) == entries_map(s.drop_last()).remove(k).insert(
            s.last().0,
            s.last().1,
        ));
        assert(s.last().0 != k);
        assert(entries_map(s.drop_last()).remove(k).insert(s.last().0, s.last().1)
            =~= entries_map(s.drop_last()).insert(s.last().0, s.last().1).remove(k));
    }
}

proof fn lemma_entries_map_finite<V>(s: Seq<(u64, V)>)
    ensures
        entries_map(s).dom().finite(),
    decreases s.len(),
{
    if s.len() > 0 {
        lemma_entries_map_finite(s.drop_last());
    }
}

proof fn lemma_entries_map_len<V>(s: Seq<(u64, V)>)
    requires
        distinct_keys(s),
    ensures
        entries_map(s).dom().len() == s.len(),
    decreases s.len(),
{
    if s.len() > 0 {
        assert(distinct_keys(s.drop_last()));
        lemma_entries_map_len(s.drop_last());
        lemma_entries_map_finite(s.drop_last());
        assert(!entries_map(s.drop_last()).contains_key(s.last().0)) by {
            assert forall|j: int|
                0 <= j < s.drop_last().len() implies (#[trigger] s.drop_last()[j]).0
                != s.last().0 by {
                assert(s.drop_last()[j] == s[j]);
            }
            lemma_entries_map_absent(s.drop_last(), s.last().0);
        }
    }
}

/// A store of values keyed by a 64-bit identifier.
pub struct IdMap<V> {
    entries: Vec<(u64, V)>,
}

impl<V> View for IdMap<V> {
    type V = Map<u64, V>;

    closed spec fn view(&self) -> Map<u64, V> {
        entries_map(self.entries@)
    }
}

impl<V> IdMap<V> {
    /// Every key appears at most once.
    pub closed spec fn wf(&self) -> bool {
        distinct_keys(self.entries@)
    }

    /// Creates an empty store.
    pub fn new() -> (r: Self)
        ensures
            r.wf(),
            r@ == Map::<u64, V>::empty(),
    {
        IdMap { entries: Vec::new() }
    }

    fn find(&self, key: u64) -> (r: Option<usize>)
        ensures
            match r {
                Some(i) => i < self.entries@.len() && self.entries@[i as int].0 == key,
                None => forall|i: int| 0 <= i < self.entries@.len() ==> self.entries@[i].0 != key,
            },
    {
        let mut i: usize = 0;
        while i < self.entries.len()
            invariant
                i <= self.entries@.len(),
                forall|j: int| 0 <= j < i ==> self.entries@[j].0 != key,
            decreases self.entries@.len() - i,
        {
            if self.entries[i].0 == key {
                return Some(i);
            }
            i = i + 1;
        }
        None
    }

    /// Whether an entry with this key is present.
    pub fn contains_key(&self, key: u64) -> (r: bool)
        ensures
            r == self@.contains_key(key),
    {
        proof {
            lemma_entries_map_dom(self.entries@);
        }
        self.find(key).is_some()
    }

    /// Reads the value stored under a key.
    pub fn get(&self, key: u64) -> (r: Option<&V>)
        requires
            self.wf(),
        ensures
            match r {
                Some(v) => self@.contains_key(key) && *v == self@[key],
                None => !self@.contains_key(key),
            },
    {
        proof {
            lemma_entries_map_dom(self.entries@);
        }
        match self.find(key) {
            Some(i) => {
                proof {
                    lemma_entries_map_value(self.entries@, i as int);
                }
                Some(&self.entries[i].1)
            },
            None => None,
        }
    }

    /// Stores a value under a key, replacing any previous value.
    pub fn insert(&mut self, key: u64, value: V)
        requires
            old(self).wf(),
        ensures
            final(self).wf(),
            final(self)@ == old(self)@.insert(key, value),
    {
        match self.find(key) {
            Some(i) => {
                proof {
                    lemma_entries_map_update(self.entries@, i as int, key, value);
                }
                self.entries[i] = (key, value);
            },
            None => {
                proof {
                    lemma_entries_map_push(self.entries@, key, value);
                }
                self.entries.push((key, value));
            },
        }
    }

    /// Removes the entry stored under a key, returning its value.
    pub fn remove(&mut self, key: u64) -> (r: Option<V>)
        requires
            old(self).wf(),
        ensures
            final(self).wf(),
            final(self)@ == old(self)@.remove(key),
            match r {
                Some(v) => old(self)@.contains_key(key) && v == old(self)@[key],
                None => !old(self)@.contains_key(key) && final(self)@ == old(self)@,
            },
    {
        proof {
            lemma_entries_map_dom(self.entries@);
        }
        match self.find(key) {
            Some(i) => {
                proof {
                    lemma_entries_map_value(self.entries@, i as int);
                    lemma_entries_map_remove(self.entries@, i as int);
                }
                let (_, v) = self.entries.remove(i);
                Some(v)
            },
            None => {
                proof {
                    assert(!self@.contains_key(key));
                    assert(self@.remove(key) =~= self@);
                }
                None
            },
        }
    }

    /// The number of entries.
    pub fn len(&self) -> (r: usize)
        requires
            self.wf(),
        ensures
            r == self@.dom().len(),
    {
        proof {
            lemma_entries_map_len(self.entries@);
        }
        self.entries.len()
    }

    /// Whether the store is empty.
    pub fn is_empty(&self) -> (r: bool)
        requires
            self.wf(),
        ensures
            r == (self@ == Map::<u64, V>::empty()),
    {
        proof {
            lemma_entries_map_len(self.entries@);
            lemma_entries_map_finite(self.entries@);
            if self.entries@.len() == 0 {
                assert(self@ =~= Map::<u64, V>::empty());
            } else {
                assert(self@.dom().len() != 0);
                if self@ == Map::<u64, V>::empty() {
                    assert(self@.dom().len() == 0);
                }
            }
        }
        self.entries.is_empty()
    }

    /// Removes every entry.
    pub fn clear(&mut self)
        ensures
            final(self).wf(),
            final(self)@ == Map::<u64, V>::empty(),
    {
        self.entries.clear();
    }

    /// The keys of all entries, each exactly once.
    pub fn keys(&self) -> (r: Vec<u64>)
        requires
            self.wf(),
        ensures
            r@.len() == self@.dom().len(),
            r@.no_duplicates(),
            forall|k: u64| r@.contains(k) <==> self@.contains_key(k),
    {
        proof {
            lemma_entries_map_dom(self.entries@);
            lemma_entries_map_len(self.entries@);
        }
        let mut out: Vec<u64> = Vec::new();
        let mut i: usize = 0;
        while i < self.entries.len()
            invariant
                i <= self.entries@.len(),
                out@.len() == i,
                forall|j: int| 0 <= j < i ==> out@[j] == self.entries@[j].0,
            decreases self.entries@.len() - i,
        {
            out.push(self.entries[i].0);
            i = i + 1;
        }
        proof {
            assert forall|k: u64| out@.contains(k) implies self@.contains_key(k) by {
                let j = choose|j: int| 0 <= j < out@.len() && out@[j] == k;
                assert(self.entries@[j].0 == k);
            }
            assert forall|k: u64| self@.contains_key(k) implies out@.contains(k) by {
                let j = choose|j: int|
                    0 <= j < self.entries@.len() && #[trigger] self.entries@[j].0 == k;
                assert(out@[j] == k);
            }
            assert(out@.no_duplicates()) by {
                assert forall|p: int, q: int|
                    0 <= p < q < out@.len() implies out@[p] != out@[q] by {
                    assert(self.entries@[p].0 != self.entries@[q].0);
                }
            }
        }
        out
    }
}


/// A set of 64-bit identifiers.
pub struct IdSet {
    ids: Vec<u64>,
}

impl View for IdSet {
    type V = Set<u64>;

    closed spec fn view(&self) -> Set<u64> {
        self.ids@.to_set()
    }
}

impl IdSet {
    /// Every identifier appears at most once.
    pub closed spec fn wf(&self) -> bool {
        self.ids@.no_duplicates()
    }

    /// Creates an empty set.
    pub fn new() -> (r: Self)
        ensures
            r.wf(),
            r@ == Set::<u64>::empty(),
    {
        let r = IdSet { ids: Vec::new() };
        proof {
            assert(r.ids@.to_set() =~= Set::<u64>::empty());
        }
        r
    }

    fn find(&self, id: u64) -> (r: Option<usize>)
        ensures
            match r {
                Some(i) => i < self.ids@.len() && self.ids@[i as int] == id,
                None => forall|i: int| 0 <= i < self.ids@.len() ==> self.ids@[i] != id,
            },
    {
        let mut i: usize = 0;
        while i < self.ids.len()
            invariant
                i <= self.ids@.len(),
                forall|j: int| 0 <= j < i ==> self.ids@[j] != id,
            decreases self.ids@.len() - i,
        {
            if self.ids[i] == id {
                return Some(i);
            }
            i = i + 1;
        }
        None
    }

    /// Whether the identifier is in the set.
    pub fn contains(&self, id: u64) -> (r: bool)
        ensures
            r == self@.contains(id),
    {
        match self.find(id) {
            Some(_) => true,
            None => {
                proof {
                    if self.ids@.contains(id) {
                        let i = choose|i: int| 0 <= i < self.ids@.len() && self.ids@[i] == id;
                    }
                }
                false
            },
        }
    }

    /// Adds an identifier to the set.
    pub fn insert(&mut self, id: u64)
        requires
            old(self).wf(),
        ensures
            final(self).wf(),
            final(self)@ == old(self)@.insert(id),
    {
        if !self.contains(id) {
            self.ids.push(id);
            proof {
                assert(self.ids@.drop_last() =~= old(self).ids@);
                assert(self.ids@.to_set() =~= old(self).ids@.to_set().insert(id)) by {
                    assert forall|x: u64| self.ids@.contains(x) implies old(self).ids@.to_set()
                        .insert(id).contains(x) by {
                        let i = choose|i: int| 0 <= i < self.ids@.len() && self.ids@[i] == x;
                        if i < self.ids@.len() - 1 {
                            assert(old(self).ids@[i] == x);
                        }
                    }
                    assert forall|x: u64| old(self).ids@.to_set().insert(id).contains(
                        x,
                    ) implies self.ids@.contains(x) by {
                        if x == id {
                            assert(self.ids@[self.ids@.len() - 1] == x);
                        } else {
                            let i = choose|i: int|
                                0 <= i < old(self).ids@.len() && old(self).ids@[i] == x;
                            assert(self.ids@[i] == x);
                        }
                    }
                }
            }
        } else {
            proof {
                assert(self.ids@.to_set() =~= self.ids@.to_set().insert(id));
            }
        }
    }

    /// Removes an identifier from the set.
    pub fn remove(&mut self, id: u64)
        requires
            old(self).wf(),
        ensures
            final(self).wf(),
            final(self)@ == old(self)@.remove(id),
    {
        match self.find(id) {
            Some(i) => {
                let _ = self.ids.remove(i);
                proof {
                    let olds = old(self).ids@;
                    let news = self.ids@;
                    assert(news =~= olds.remove(i as int));
                    assert(news.no_duplicates()) by {
                        assert(forall|j: int| 0 <= j < i ==> #[trigger] news[j] == olds[j]);
                        assert(forall|j: int|
                            i <= j < news.len() ==> #[trigger] news[j] == olds[j + 1]);
                    }
                    assert(news.to_set() =~= olds.to_set().remove(id)) by {
                        assert forall|x: u64| news.contains(x) implies olds.to_set().remove(
                            id,
                        ).contains(x) by {
                            let j = choose|j: int| 0 <= j < news.len() && news[j] == x;
                            if j < i {
                                assert(olds[j] == x);
                                assert(olds[j] != olds[i as int]);
                            } else {
                                assert(olds[j + 1] == x);
                                assert(olds[j + 1] != olds[i as int]);
                            }
                        }
                        assert forall|x: u64| olds.to_set().remove(id).contains(
                            x,
                        ) implies news.contains(x) by {
                            let j = choose|j: int| 0 <= j < olds.len() && olds[j] == x;
                            if j < i {
                                assert(news[j] == x);
                            } else {
                                assert(j != i);
                                assert(news[j - 1] == x);
                            }
                        }
                    }
                }
            },
            None => {
                proof {
                    if self.ids@.contains(id) {
                        let i = choose|i: int| 0 <= i < self.ids@.len() && self.ids@[i] == id;
                    }
                    assert(self.ids@.to_set() =~= self.ids@.to_set().remove(id));
                }
            },
        }
    }

    /// The number of identifiers in the set.
    pub fn len(&self) -> (r: usize)
        requires
            self.wf(),
        ensures
            r == self@.len(),
    {
        proof {
            self.ids@.unique_seq_to_set();
        }
        self.ids.len()
    }

    /// Whether the set is empty.
    pub fn is_empty(&self) -> (r: bool)
        requires
            self.wf(),
        ensures
            r == (self@ == Set::<u64>::empty()),
    {
        proof {
            self.ids@.unique_seq_to_set();
            if self.ids@.len() == 0 {
                assert(self@ =~= Set::<u64>::empty());
            } else {
                assert(self@.contains(self.ids@[0]));
            }
        }
        self.ids.is_empty()
    }

    /// Removes every identifier.
    pub fn clear(&mut self)
        ensures
            final(self).wf(),
            final(self)@ == Set::<u64>::empty(),
    {
        self.ids.clear();
        proof {
            assert(self.ids@.to_set() =~= Set::<u64>::empty());
        }
    }

    /// The identifiers of the set, each exactly once.
    pub fn to_vec(&self) -> (r: Vec<u64>)
        requires
            self.wf(),
        ensures
            r@.len() == self@.len(),
            r@.no_duplicates(),
            forall|x: u64| r@.contains(x) <==> self@.contains(x),
    {
        proof {
            self.ids@.unique_seq_to_set();
        }
        let mut out: Vec<u64> = Vec::new();
        let mut i: usize = 0;
        while i < self.ids.len()
            invariant
                i <= self.ids@.len(),
                out@ =~= self.ids@.take(i as int),
            decreases self.ids@.len() - i,
        {
            out.push(self.ids[i]);
            proof {
                assert(out@ =~= self.ids@.take(i + 1));
            }
            i = i + 1;
        }
        proof {
            assert(out@ =~= self.ids@);
        }
        out
    }
}


/// The map described by a pair-keyed entry sequence: later entries win.
pub open spec fn pair_entries_map<V>(s: Seq<(u64, u64, V)>) -> Map<(u64, u64), V>
    decreases s.len(),
{
    if s.len() == 0 {
        Map::empty()
    } else {
        pair_entries_map(s.drop_last()).insert((s.last().0, s.last().1), s.last().2)
    }
}

/// No two entries share a key pair.
pub open spec fn distinct_pair_keys<V>(s: Seq<(u64, u64, V)>) -> bool {
    forall|i: int, j: int|
        0 <= i < j < s.len() ==> (s[i].0, s[i].1) != (s[j].0, s[j].1)
}

/// Some entry carries this key pair.
pub open spec fn has_pair_key<V>(s: Seq<(u64, u64, V)>, a: u64, b: u64) -> bool {
    exists|i: int| 0 <= i < s.len() && (#[trigger] s[i]).0 == a && s[i].1 == b
}

proof fn lemma_pair_map_dom<V>(s: Seq<(u64, u64, V)>)
    ensures
        forall|a: u64, b: u64| #[trigger]
            pair_entries_map(s).contains_key((a, b)) <==> has_pair_key(s, a, b),
    decreases s.len(),
{
    if s.len() > 0 {
        lemma_pair_map_dom(s.drop_last());
        assert(pair_entries_map(s) == pair_entries_map(s.drop_last()).insert(
            (s.last().0, s.last().1),
            s.last().2,
        ));
        assert forall|a: u64, b: u64| #[trigger]
            pair_entries_map(s).contains_key((a, b)) implies has_pair_key(s, a, b) by {
            if a == s.last().0 && b == s.last().1 {
                assert((s[s.len() - 1]).0 == a && s[s.len() - 1].1 == b);
            } else {
                assert(pair_entries_map(s.drop_last()).contains_key((a, b)));
                let i = choose|i: int|
                    0 <= i < s.drop_last().len() && (#[trigger] s.drop_last()[i]).0 == a
                        && s.drop_last()[i].1 == b;
                assert(s.drop_last()[i] == s[i]);
                assert((s[i]).0 == a && s[i].1 == b);
            }
        }
        assert forall|a: u64, b: u64| has_pair_key(s, a, b) implies #[trigger] pair_entries_map(
            s,
        ).contains_key((a, b)) by {
            let i = choose|i: int| 0 <= i < s.len() && (#[trigger] s[i]).0 == a && s[i].1 == b;
            if i < s.len() - 1 {
                assert(s.drop_last()[i] == s[i]);
                assert((s.drop_last()[i]).0 == a && s.drop_last()[i].1 == b);
                assert(has_pair_key(s.drop_last(), a, b));
                assert(pair_entries_map(s.drop_last()).contains_key((a, b)));
            } else {
                assert(a == s.last().0 && b == s.last().1);
                assert(pair_entries_map(s).contains_key((s.last().0, s.last().1)));
            }
        }
    }
}

proof fn lemma_pair_map_absent<V>(s: Seq<(u64, u64, V)>, a: u64, b: u64)
    requires
        forall|i: int| 0 <= i < s.len() ==> !((#[trigger] s[i]).0 == a && s[i].1 == b),
    ensures
        !pair_entries_map(s).contains_key((a, b)),
{
    lemma_pair_map_dom(s);
    if pair_entries_map(s).contains_key((a, b)) {
        let i = choose|i: int| 0 <= i < s.len() && (#[trigger] s[i]).0 == a && s[i].1 == b;
        assert(false);
    }
}

proof fn lemma_pair_map_value<V>(s: Seq<(u64, u64, V)>, i: int)
    requires
        distinct_pair_keys(s),
        0 <= i < s.len(),
    ensures
        pair_entries_map(s).contains_key((s[i].0, s[i].1)),
        pair_entries_map(s)[(s[i].0, s[i].1)] == s[i].2,
    decreases s.len(),
{
    lemma_pair_map_dom(s);
    assert((s[i]).0 == s[i].0 && s[i].1 == s[i].1);
    assert(has_pair_key(s, s[i].0, s[i].1));
    if i < s.len() - 1 {
        assert(distinct_pair_keys(s.drop_last()));
        assert(s.drop_last()[i] == s[i]);
        lemma_pair_map_value(s.drop_last(), i);
        assert((s[i].0, s[i].1) != (s.last().0, s.last().1));
    }
}

proof fn lemma_pair_map_push<V>(s: Seq<(u64, u64, V)>, a: u64, b: u64, v: V)
    ensures
        pair_entries_map(s.push((a, b, v))) == pair_entries_map(s).insert((a, b), v),
{
    assert(s.push((a, b, v)).drop_last() =~= s);
    assert(s.push((a, b, v)).last() == (a, b, v));
}

proof fn lemma_pair_map_update<V>(s: Seq<(u64, u64, V)>, i: int, a: u64, b: u64, v: V)
    requires
        distinct_pair_keys(s),
        0 <= i < s.len(),
        s[i].0 == a,
        s[i].1 == b,
    ensures
        pair_entries_map(s.update(i, (a, b, v))) == pair_entries_map(s).insert((a, b), v),
        distinct_pair_keys(s.update(i, (a, b, v))),
    decreases s.len(),
{
    let t = s.update(i, (a, b, v));
    assert(distinct_pair_keys(t)) by {
        assert(forall|j: int|
            0 <= j < s.len() && j != i ==> (#[trigger] t[j]).0 == s[j].0 && t[j].1 == s[j].1);
        assert(t[i].0 == a && t[i].1 == b);
    }
    if i == s.len() - 1 {
        assert(t.drop_last() =~= s.drop_last());
        assert(t.last() == (a, b, v));
        assert(pair_entries_map(t) == pair_entries_map(s.drop_last()).insert((a, b), v));
        assert(pair_entries_map(s).insert((a, b), v) =~= pair_entries_map(s.drop_last()).insert(
            (a, b),
            v,
        ));
    } else {
        assert(t.drop_last() =~= s.drop_last().update(i, (a, b, v)));
        assert(t.last() == s.last());
        assert(distinct_pair_keys(s.drop_last()));
        assert(s.drop_last()[i] == s[i]);
        lemma_pair_map_update(s.drop_last(), i, a, b, v);
        assert(pair_entries_map(t) == pair_entries_map(s.drop_last()).insert((a, b), v).insert(
            (s.last().0, s.last().1),
            s.last().2,
        ));
        assert((s.last().0, s.last().1) != (a, b));
        assert(pair_entries_map(s.drop_last()).insert((a, b), v).insert(
            (s.last().0, s.last().1),
            s.last().2,
        ) =~= pair_entries_map(s.drop_last()).insert((s.last().0, s.last().1), s.last().2).insert(
            (a, b),
            v,
        ));
    }
}

proof fn lemma_pair_map_remove<V>(s: Seq<(u64, u64, V)>, i: int)
    requires
        distinct_pair_keys(s),
        0 <= i < s.len(),
    ensures
        pair_entries_map(s.remove(i)) == pair_entries_map(s).remove((s[i].0, s[i].1)),
        distinct_pair_keys(s.remove(i)),
    decreases s.len(),
{
    let k = (s[i].0, s[i].1);
    let t = s.remove(i);
    assert(distinct_pair_keys(t)) by {
        assert(forall|j: int| 0 <= j < i ==> #[trigger] t[j] == s[j]);
        assert(forall|j: int| i <= j < t.len() ==> #[trigger] t[j] == s[j + 1]);
    }
    if i == s.len() - 1 {
        assert(t =~= s.drop_last());
        assert(!pair_entries_map(s.drop_last()).contains_key(k)) by {
            assert forall|j: int|
                0 <= j < s.drop_last().len() implies !((#[trigger] s.drop_last()[j]).0 == k.0
                && s.drop_last()[j].1 == k.1) by {
                assert(s.drop_last()[j] == s[j]);
            }
            lemma_pair_map_absent(s.drop_last(), k.0, k.1);
        }
        assert(pair_entries_map(s).remove(k) =~= pair_entries_map(s.drop_last()));
    } else {
        assert(t.drop_last() =~= s.drop_last().remove(i));
        assert(t.last() == s.last());
        assert(distinct_pair_keys(s.drop_last()));
        assert(s.drop_last()[i] == s[i]);
        lemma_pair_map_remove(s.drop_last(), i);
        assert(pair_entries_map(t) == pair_entries_map(s.drop_last()).remove(k).insert(
            (s.last().0, s.last().1),
            s.last().2,
        ));
        assert((s.last().0, s.last().1) != k);
        assert(pair_entries_map(s.drop_last()).remove(k).insert(
            (s.last().0, s.last().1),
            s.last().2,
        ) =~= pair_entries_map(s.drop_last()).insert((s.last().0, s.last().1), s.last().2).remove(
            k,
        ));
    }
}

proof fn lemma_pair_map_finite<V>(s: Seq<(u64, u64, V)>)
    ensures
        pair_entries_map(s).dom().finite(),
    decreases s.len(),
{
    if s.len() > 0 {
        lemma_pair_map_finite(s.drop_last());
    }
}

proof fn lemma_pair_map_len<V>(s: Seq<(u64, u64, V)>)
    requires
        distinct_pair_keys(s),
    ensures
        pair_entries_map(s).dom().len() == s.len(),
    decreases s.len(),
{
    if s.len() > 0 {
        assert(distinct_pair_keys(s.drop_last()));
        lemma_pair_map_len(s.drop_last());
        lemma_pair_map_finite(s.drop_last());
        assert(!pair_entries_map(s.drop_last()).contains_key((s.last().0, s.last().1))) by {
            assert forall|j: int|
                0 <= j < s.drop_last().len() implies !((#[trigger] s.drop_last()[j]).0
                == s.last().0 && s.drop_last()[j].1 == s.last().1) by {
                assert(s.drop_last()[j] == s[j]);
            }
            lemma_pair_map_absent(s.drop_last(), s.last().0, s.last().1);
        }
    }
}

/// A store of values keyed by a pair of 64-bit identifiers.
pub struct PairMap<V> {
    entries: Vec<(u64, u64, V)>,
}

impl<V> View for PairMap<V> {
    type V = Map<(u64, u64), V>;

    closed spec fn view(&self) -> Map<(u64, u64), V> {
        pair_entries_map(self.entries@)
    }
}

impl<V> PairMap<V> {
    /// Every key pair appears at most once.
    pub closed spec fn wf(&self) -> bool {
        distinct_pair_keys(self.entries@)
    }

    /// Creates an empty store.
    pub fn new() -> (r: Self)
        ensures
            r.wf(),
            r@ == Map::<(u64, u64), V>::empty(),
    {
        PairMap { entries: Vec::new() }
    }

    fn find(&self, a: u64, b: u64) -> (r: Option<usize>)
        ensures
            match r {
                Some(i) => i < self.entries@.len() && self.entries@[i as int].0 == a
                    && self.entries@[i as int].1 == b,
                None => forall|i: int|
                    0 <= i < self.entries@.len() ==> !((#[trigger] self.entries@[i]).0 == a
                        && self.entries@[i].1 == b),
            },
    {
        let mut i: usize = 0;
        while i < self.entries.len()
            invariant
                i <= self.entries@.len(),
                forall|j: int|
                    0 <= j < i ==> !((#[trigger] self.entries@[j]).0 == a && self.entries@[j].1
                        == b),
            decreases self.entries@.len() - i,
        {
            if self.entries[i].0 == a && self.entries[i].1 == b {
                return Some(i);
            }
            i = i + 1;
        }
        None
    }

    /// Whether an entry with this key pair is present.
    pub fn contains_key(&self, a: u64, b: u64) -> (r: bool)
        ensures
            r == self@.contains_key((a, b)),
    {
        proof {
            lemma_pair_map_dom(self.entries@);
        }
        match self.find(a, b) {
            Some(i) => {
                proof {
                    assert((self.entries@[i as int]).0 == a && self.entries@[i as int].1 == b);
                    assert(has_pair_key(self.entries@, a, b));
                }
                true
            },
            None => {
                proof {
                    lemma_pair_map_absent(self.entries@, a, b);
                }
                false
            },
        }
    }

    /// Reads the value stored under a key pair.
    pub fn get(&self, a: u64, b: u64) -> (r: Option<&V>)
        requires
            self.wf(),
        ensures
            match r {
                Some(v) => self@.contains_key((a, b)) && *v == self@[(a, b)],
                None => !self@.contains_key((a, b)),
            },
    {
        match self.find(a, b) {
            Some(i) => {
                proof {
                    lemma_pair_map_value(self.entries@, i as int);
                }
                Some(&self.entries[i].2)
            },
            None => {
                proof {
                    lemma_pair_map_absent(self.entries@, a, b);
                }
                None
            },
        }
    }

    /// Stores a value under a key pair, replacing any previous value.
    pub fn insert(&mut self, a: u64, b: u64, value: V)
        requires
            old(self).wf(),
        ensures
            final(self).wf(),
            final(self)@ == old(self)@.insert((a, b), value),
    {
        match self.find(a, b) {
            Some(i) => {
                proof {
                    lemma_pair_map_update(self.entries@, i as int, a, b, value);
                }
                self.entries[i] = (a, b, value);
            },
            None => {
                proof {
                    lemma_pair_map_push(self.entries@, a, b, value);
                }
                self.entries.push((a, b, value));
            },
        }
    }

    /// Removes the entry stored under a key pair, returning its value.
    pub fn remove(&mut self, a: u64, b: u64) -> (r: Option<V>)
        requires
            old(self).wf(),
        ensures
            final(self).wf(),
            final(self)@ == old(self)@.remove((a, b)),
            match r {
                Some(v) => old(self)@.contains_key((a, b)) && v == old(self)@[(a, b)],
                None => !old(self)@.contains_key((a, b)) && final(self)@ == old(self)@,
            },
    {
        match self.find(a, b) {
            Some(i) => {
                proof {
                    lemma_pair_map_value(self.entries@, i as int);
                    lemma_pair_map_remove(self.entries@, i as int);
                }
                let (_, _, v) = self.entries.remove(i);
                Some(v)
            },
            None => {
                proof {
                    lemma_pair_map_absent(self.entries@, a, b);
                    assert(self@.remove((a, b)) =~= self@);
                }
                None
            },
        }
    }

    /// The number of entries.
    pub fn len(&self) -> (r: usize)
        requires
            self.wf(),
        ensures
            r == self@.dom().len(),
    {
        proof {
            lemma_pair_map_len(self.entries@);
        }
        self.entries.len()
    }

    /// Whether the store is empty.
    pub fn is_empty(&self) -> (r: bool)
        requires
            self.wf(),
        ensures
            r == (self@ == Map::<(u64, u64), V>::empty()),
    {
        proof {
            lemma_pair_map_len(self.entries@);
            lemma_pair_map_finite(self.entries@);
            if self.entries@.len() == 0 {
                assert(self@ =~= Map::<(u64, u64), V>::empty());
            } else {
                assert(self@.dom().len() != 0);
                if self@ == Map::<(u64, u64), V>::empty() {
                    assert(self@.dom().len() == 0);
                }
            }
        }
        self.entries.is_empty()
    }

    /// Removes every entry.
    pub fn clear(&mut self)
        ensures
            final(self).wf(),
            final(self)@ == Map::<(u64, u64), V>::empty(),
    {
        self.entries.clear();
    }

    /// The key pairs of all entries, each exactly once.
    pub fn keys(&self) -> (r: Vec<(u64, u64)>)
        requires
            self.wf(),
        ensures
            r@.len() == self@.dom().len(),
            r@.no_duplicates(),
            forall|p: (u64, u64)| r@.contains(p) <==> self@.contains_key(p),
    {
        proof {
            lemma_pair_map_dom(self.entries@);
            lemma_pair_map_len(self.entries@);
        }
        let mut out: Vec<(u64, u64)> = Vec::new();
        let mut i: usize = 0;
        while i < self.entries.len()
            invariant
                i <= self.entries@.len(),
                out@.len() == i,
                forall|j: int|
                    0 <= j < i ==> #[trigger] out@[j] == (self.entries@[j].0, self.entries@[j].1),
            decreases self.entries@.len() - i,
        {
            out.push((self.entries[i].0, self.entries[i].1));
            i = i + 1;
        }
        proof {
            assert forall|p: (u64, u64)| out@.contains(p) implies self@.contains_key(p) by {
                let j = choose|j: int| 0 <= j < out@.len() && out@[j] == p;
                assert((self.entries@[j]).0 == p.0 && self.entries@[j].1 == p.1);
                assert(has_pair_key(self.entries@, p.0, p.1));
            }
            assert forall|p: (u64, u64)| self@.contains_key(p) implies out@.contains(p) by {
                let j = choose|j: int|
                    0 <= j < self.entries@.len() && (#[trigger] self.entries@[j]).0 == p.0
                        && self.entries@[j].1 == p.1;
                assert(out@[j] == p);
            }
            assert(out@.no_duplicates()) by {
                assert forall|p: int, q: int|
                    0 <= p < q < out@.len() implies out@[p] != out@[q] by {
                    assert((self.entries@[p].0, self.entries@[p].1) != (
                        self.entries@[q].0,
                        self.entries@[q].1,
                    ));
                }
            }
        }
        out
    }
}

/// A set of pairs of 64-bit identifiers.
pub struct PairSet {
    pairs: Vec<(u64, u64)>,
}

impl View for PairSet {
    type V = Set<(u64, u64)>;

    closed spec fn view(&self) -> Set<(u64, u64)> {
        self.pairs@.to_set()
    }
}

impl PairSet {
    /// Every pair appears at most once.
    pub closed spec fn wf(&self) -> bool {
        self.pairs@.no_duplicates()
    }

    /// Creates an empty set.
    pub fn new() -> (r: Self)
        ensures
            r.wf(),
            r@ == Set::<(u64, u64)>::empty(),
    {
        let r = PairSet { pairs: Vec::new() };
        proof {
            assert(r.pairs@.to_set() =~= Set::<(u64, u64)>::empty());
        }
        r
    }

    fn find(&self, a: u64, b: u64) -> (r: Option<usize>)
        ensures
            match r {
                Some(i) => i < self.pairs@.len() && self.pairs@[i as int] == (a, b),
                None => forall|i: int| 0 <= i < self.pairs@.len() ==> self.pairs@[i] != (a, b),
            },
    {
        let mut i: usize = 0;
        while i < self.pairs.len()
            invariant
                i <= self.pairs@.len(),
                forall|j: int| 0 <= j < i ==> self.pairs@[j] != (a, b),
            decreases self.pairs@.len() - i,
        {
            if self.pairs[i].0 == a && self.pairs[i].1 == b {
                proof {
                    assert(self.pairs@[i as int] == (a, b));
                }
                return Some(i);
            }
            i = i + 1;
        }
        None
    }

    /// Whether the pair is in the set.
    pub fn contains(&self, a: u64, b: u64) -> (r: bool)
        ensures
            r == self@.contains((a, b)),
    {
        match self.find(a, b) {
            Some(_) => true,
            None => {
                proof {
                    if self.pairs@.contains((a, b)) {
                        let i = choose|i: int|
                            0 <= i < self.pairs@.len() && self.pairs@[i] == (a, b);
                    }
                }
                false
            },
        }
    }

    /// Adds a pair to the set.
    pub fn insert(&mut self, a: u64, b: u64)
        requires
            old(self).wf(),
        ensures
            final(self).wf(),
            final(self)@ == old(self)@.insert((a, b)),
    {
        if !self.contains(a, b) {
            self.pairs.push((a, b));
            proof {
                assert(self.pairs@.drop_last() =~= old(self).pairs@);
                assert(self.pairs@.to_set() =~= old(self).pairs@.to_set().insert((a, b))) by {
                    assert forall|x: (u64, u64)| self.pairs@.contains(x) implies old(self).pairs@
                        .to_set().insert((a, b)).contains(x) by {
                        let i = choose|i: int| 0 <= i < self.pairs@.len() && self.pairs@[i] == x;
                        if i < self.pairs@.len() - 1 {
                            assert(old(self).pairs@[i] == x);
                        }
                    }
                    assert forall|x: (u64, u64)| old(self).pairs@.to_set().insert((a, b)).contains(
                        x,
                    ) implies self.pairs@.contains(x) by {
                        if x == (a, b) {
                            assert(self.pairs@[self.pairs@.len() - 1] == x);
                        } else {
                            let i = choose|i: int|
                                0 <= i < old(self).pairs@.len() && old(self).pairs@[i] == x;
                            assert(self.pairs@[i] == x);
                        }
                    }
                }
            }
        } else {
            proof {
                assert(self.pairs@.to_set() =~= self.pairs@.to_set().insert((a, b)));
            }
        }
    }

    /// Removes a pair from the set.
    pub fn remove(&mut self, a: u64, b: u64)
        requires
            old(self).wf(),
        ensures
            final(self).wf(),
            final(self)@ == old(self)@.remove((a, b)),
    {
        match self.find(a, b) {
            Some(i) => {
                let _ = self.pairs.remove(i);
                proof {
                    let olds = old(self).pairs@;
                    let news = self.pairs@;
                    assert(news =~= olds.remove(i as int));
                    assert(news.no_duplicates()) by {
                        assert(forall|j: int| 0 <= j < i ==> #[trigger] news[j] == olds[j]);
                        assert(forall|j: int|
                            i <= j < news.len() ==> #[trigger] news[j] == olds[j + 1]);
                    }
                    assert(news.to_set() =~= olds.to_set().remove((a, b))) by {
                        assert forall|x: (u64, u64)| news.contains(x) implies olds.to_set().remove(
                            (a, b),
                        ).contains(x) by {
                            let j = choose|j: int| 0 <= j < news.len() && news[j] == x;
                            if j < i {
                                assert(olds[j] == x);
                                assert(olds[j] != olds[i as int]);
                            } else {
                                assert(olds[j + 1] == x);
                                assert(olds[j + 1] != olds[i as int]);
                            }
                        }
                        assert forall|x: (u64, u64)| olds.to_set().remove((a, b)).contains(
                            x,
                        ) implies news.contains(x) by {
                            let j = choose|j: int| 0 <= j < olds.len() && olds[j] == x;
                            if j < i {
                                assert(news[j] == x);
                            } else {
                                assert(j != i);
                                assert(news[j - 1] == x);
                            }
                        }
                    }
                }
            },
            None => {
                proof {
                    if self.pairs@.contains((a, b)) {
                        let i = choose|i: int|
                            0 <= i < self.pairs@.len() && self.pairs@[i] == (a, b);
                    }
                    assert(self.pairs@.to_set() =~= self.pairs@.to_set().remove((a, b)));
                }
            },
        }
    }

    /// The number of pairs in the set.
    pub fn len(&self) -> (r: usize)
        requires
            self.wf(),
        ensures
            r == self@.len(),
    {
        proof {
            self.pairs@.unique_seq_to_set();
        }
        self.pairs.len()
    }

    /// Whether the set is empty.
    pub fn is_empty(&self) -> (r: bool)
        requires
            self.wf(),
        ensures
            r == (self@ == Set::<(u64, u64)>::empty()),
    {
        proof {
            self.pairs@.unique_seq_to_set();
            if self.pairs@.len() == 0 {
                assert(self@ =~= Set::<(u64, u64)>::empty());
            } else {
                assert(self@.contains(self.pairs@[0]));
            }
        }
        self.pairs.is_empty()
    }

    /// The pairs of the set, each exactly once.
    pub fn to_vec(&self) -> (r: Vec<(u64, u64)>)
        requires
            self.wf(),
        ensures
            r@.len() == self@.len(),
            r@.no_duplicates(),
            forall|x: (u64, u64)| r@.contains(x) <==> self@.contains(x),
    {
        proof {
            self.pairs@.unique_seq_to_set();
        }
        let mut out: Vec<(u64, u64)> = Vec::new();
        let mut i: usize = 0;
        while i < self.pairs.len()
            invariant
                i <= self.pairs@.len(),
                out@ =~= self.pairs@.take(i as int),
            decreases self.pairs@.len() - i,
        {
            out.push((self.pairs[i].0, self.pairs[i].1));
            proof {
                assert(self.pairs@[i as int] == (self.pairs@[i as int].0, self.pairs@[i as int].1));
                assert(out@ =~= self.pairs@.take(i + 1));
            }
            i = i + 1;
        }
        proof {
            assert(out@ =~= self.pairs@);
        }
        out
    }
}

} // verus!
