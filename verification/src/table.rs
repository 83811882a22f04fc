//! A small association table from 64-bit keys to copyable values, backed
//! by a vector of pairs with pairwise-distinct keys and viewed as a
//! mathematical `Map`.

use vstd::prelude::*;

verus! {

/// The map denoted by a sequence of key/value pairs; later pairs win.
pub open spec fn map_of<V>(s: Seq<(u64, V)>) -> Map<u64, V>
    decreases s.len(),
{
    if s.len() == 0 {
        Map::empty()
    } else {
        map_of(s.drop_last()).insert(s.last().0, s.last().1)
    }
}

/// No key occurs in two pairs of the sequence.
pub open spec fn distinct_keys<V>(s: Seq<(u64, V)>) -> bool {
    forall|i: int, j: int| 0 <= i < j < s.len() ==> (#[trigger] s[i]).0 != (#[trigger] s[j]).0
}

/// A key is in the map exactly when some pair of the sequence carries it.
pub proof fn lemma_map_of_contains<V>(s: Seq<(u64, V)>, k: u64)
    ensures
        map_of(s).contains_key(k) <==> exists|i: int| 0 <= i < s.len() && (#[trigger] s[i]).0 == k,
    decreases s.len(),
{
    if s.len() > 0 {
        lemma_map_of_contains(s.drop_last(), k);
        if map_of(s).contains_key(k) {
            if s.last().0 == k {
                assert(s[s.len() - 1].0 == k);
            }
        }
        if exists|i: int| 0 <= i < s.len() && (#[trigger] s[i]).0 == k {
            let i = choose|i: int| 0 <= i < s.len() && (#[trigger] s[i]).0 == k;
            if i < s.len() - 1 {
                assert(s.drop_last()[i].0 == k);
            }
        }
    }
}

/// Under distinct keys, the pair at any index gives the map's value there.
pub proof fn lemma_map_of_index<V>(s: Seq<(u64, V)>, i: int)
    requires
        distinct_keys(s),
        0 <= i < s.len(),
    ensures
        map_of(s).contains_key(s[i].0),
        map_of(s)[s[i].0] == s[i].1,
    decreases s.len(),
{
    if i == s.len() - 1 {
        assert(s.last() == s[i]);
    } else {
        assert(distinct_keys(s.drop_last())) by {
            assert(forall|a: int, b: int|
                0 <= a < b < s.drop_last().len() ==> (#[trigger] s.drop_last()[a]).0
                    != (#[trigger] s.drop_last()[b]).0) by {
                assert(forall|a: int|
                    0 <= a < s.drop_last().len() ==> #[trigger] s.drop_last()[a] == s[a]);
            }
        }
        lemma_map_of_index(s.drop_last(), i);
        assert(s.drop_last()[i] == s[i]);
        assert(s[i].0 != s.last().0);
    }
}

/// Removing the pair at an index removes exactly that key from the map.
pub proof fn lemma_map_of_remove<V>(s: Seq<(u64, V)>, i: int)
    requires
        distinct_keys(s),
        0 <= i < s.len(),
    ensures
        distinct_keys(s.remove(i)),
        map_of(s.remove(i)) == map_of(s).remove(s[i].0),
    decreases s.len(),
{
    assert(forall|a: int| 0 <= a < i ==> #[trigger] s.remove(i)[a] == s[a]);
    assert(forall|a: int| i <= a < s.len() - 1 ==> #[trigger] s.remove(i)[a] == s[a + 1]);
    if i == s.len() - 1 {
        assert(s.remove(i) =~= s.drop_last());
        lemma_map_of_contains(s.drop_last(), s[i].0);
        assert(forall|a: int|
            0 <= a < s.drop_last().len() ==> (#[trigger] s.drop_last()[a]).0 != s[i].0);
        assert(map_of(s.drop_last()) =~= map_of(s.drop_last()).insert(s.last().0, s.last().1).remove(
            s[i].0,
        ));
    } else {
        assert(distinct_keys(s.drop_last())) by {
            assert(forall|a: int|
                0 <= a < s.drop_last().len() ==> #[trigger] s.drop_last()[a] == s[a]);
        }
        lemma_map_of_remove(s.drop_last(), i);
        assert(s.remove(i).drop_last() =~= s.drop_last().remove(i));
        assert(s.remove(i).last() == s.last());
        assert(s.last().0 != s[i].0);
        assert(map_of(s.remove(i)) =~= map_of(s).remove(s[i].0));
    }
}

/// Under distinct keys, the map has exactly as many keys as the sequence
/// has pairs.
pub proof fn lemma_map_of_len<V>(s: Seq<(u64, V)>)
    requires
        distinct_keys(s),
    ensures
        map_of(s).dom().finite(),
        map_of(s).dom().len() == s.len(),
    decreases s.len(),
{
    if s.len() > 0 {
        assert(distinct_keys(s.drop_last())) by {
            assert(forall|a: int|
                0 <= a < s.drop_last().len() ==> #[trigger] s.drop_last()[a] == s[a]);
        }
        lemma_map_of_len(s.drop_last());
        lemma_map_of_contains(s.drop_last(), s.last().0);
        assert(forall|a: int|
            0 <= a < s.drop_last().len() ==> (#[trigger] s.drop_last()[a]).0 != s.last().0);
        assert(map_of(s).dom() =~= map_of(s.drop_last()).dom().insert(s.last().0));
        vstd::set::axiom_set_insert_finite(map_of(s.drop_last()).dom(), s.last().0);
        vstd::set::axiom_set_insert_len(map_of(s.drop_last()).dom(), s.last().0);
    }
}


/// The map after removing every key of a sequence, in order.
pub open spec fn remove_all<V>(m: Map<u64, V>, s: Seq<u64>) -> Map<u64, V>
    decreases s.len(),
{
    if s.len() == 0 {
        m
    } else {
        remove_all(m, s.drop_last()).remove(s.last())
    }
}

/// Removing a set of keys removes exactly those keys and no values.
pub proof fn lemma_remove_all<V>(m: Map<u64, V>, s: Seq<u64>, k: u64)
    ensures
        remove_all(m, s).contains_key(k) <==> (m.contains_key(k) && !s.contains(k)),
        remove_all(m, s).contains_key(k) ==> remove_all(m, s)[k] == m[k],
    decreases s.len(),
{
    if s.len() > 0 {
        lemma_remove_all(m, s.drop_last(), k);
        if s.contains(k) {
            let a = choose|a: int| 0 <= a < s.len() && s[a] == k;
            if a < s.len() - 1 {
                assert(s.drop_last()[a] == k);
                assert(s.drop_last().contains(k));
            }
        }
        if s.drop_last().contains(k) {
            let a = choose|a: int| 0 <= a < s.drop_last().len() && s.drop_last()[a] == k;
            assert(s[a] == k);
            assert(s.contains(k));
        }
    }
}

/// An association table from 64-bit keys to values, with at most one
/// entry per key.
pub struct Table<V> {
    entries: Vec<(u64, V)>,
}

impl<V: Copy> Table<V> {
    /// The table as a mathematical map.
    pub closed spec fn view(&self) -> Map<u64, V> {
        map_of(self.entries@)
    }

    /// The table's keys are pairwise distinct.
    pub closed spec fn wf(&self) -> bool {
        distinct_keys(self.entries@)
    }

    /// An empty table.
    pub fn new() -> (r: Self)
        ensures
            r.wf(),
            r@ == Map::<u64, V>::empty(),
    {
        Table { entries: Vec::new() }
    }

    /// The index of the entry holding a key, if any.
    fn position(&self, k: u64) -> (r: Option<usize>)
        ensures
            match r {
                Some(i) => i < self.entries@.len() && self.entries@[i as int].0 == k,
                None => forall|a: int|
                    0 <= a < self.entries@.len() ==> (#[trigger] self.entries@[a]).0 != k,
            },
    {
        let mut i: usize = 0;
        while i < self.entries.len()
            invariant
                i <= self.entries@.len(),
                forall|a: int| 0 <= a < i ==> (#[trigger] self.entries@[a]).0 != k,
            decreases self.entries@.len() - i,
        {
            if self.entries[i].0 == k {
                return Some(i);
            }
            i = i + 1;
        }
        None
    }

    /// Binds a key to a value, replacing any earlier binding.
    pub fn put(&mut self, k: u64, v: V)
        requires
            old(self).wf(),
        ensures
            final(self).wf(),
            final(self)@ == old(self)@.insert(k, v),
    {
        let pos = self.position(k);
        match pos {
            Some(i) => {
                proof {
                    lemma_map_of_remove(self.entries@, i as int);
                }
                self.entries.remove(i);
                proof {
                    lemma_map_of_contains(self.entries@, k);
                }
                self.entries.push((k, v));
                proof {
                    assert(self.entries@.drop_last() =~= old(self).entries@.remove(pos.unwrap() as int));
                    assert(final(self)@ =~= old(self)@.insert(k, v));
                }
            },
            None => {
                proof {
                    lemma_map_of_contains(self.entries@, k);
                }
                self.entries.push((k, v));
                proof {
                    assert(self.entries@.drop_last() =~= old(self).entries@);
                    assert(final(self)@ =~= old(self)@.insert(k, v));
                }
            },
        }
    }

    /// Removes a key's binding; without one, leaves the table unchanged.
    pub fn remove(&mut self, k: u64)
        requires
            old(self).wf(),
        ensures
            final(self).wf(),
            final(self)@ == old(self)@.remove(k),
    {
        let pos = self.position(k);
        match pos {
            Some(i) => {
                proof {
                    lemma_map_of_remove(self.entries@, i as int);
                }
                self.entries.remove(i);
            },
            None => {
                proof {
                    lemma_map_of_contains(self.entries@, k);
                    assert(final(self)@ =~= old(self)@.remove(k));
                }
            },
        }
    }

    /// The value bound to a key, if any.
    pub fn get(&self, k: u64) -> (r: Option<V>)
        requires
            self.wf(),
        ensures
            r == if self@.contains_key(k) {
                Some(self@[k])
            } else {
                None::<V>
            },
    {
        proof {
            lemma_map_of_contains(self.entries@, k);
        }
        let pos = self.position(k);
        match pos {
            Some(i) => {
                proof {
                    lemma_map_of_index(self.entries@, i as int);
                }
                Some(self.entries[i].1)
            },
            None => None,
        }
    }

    /// How many keys the table holds.
    pub fn len(&self) -> (r: usize)
        requires
            self.wf(),
        ensures
            r == self@.dom().len(),
    {
        proof {
            lemma_map_of_len(self.entries@);
        }
        self.entries.len()
    }

    /// Every key of the table, each exactly once.
    pub fn keys(&self) -> (r: Vec<u64>)
        requires
            self.wf(),
        ensures
            forall|k: u64| r@.contains(k) <==> self@.contains_key(k),
            forall|i: int, j: int| 0 <= i < j < r@.len() ==> r@[i] != r@[j],
    {
        let mut r: Vec<u64> = Vec::new();
        let mut i: usize = 0;
        while i < self.entries.len()
            invariant
                i <= self.entries@.len(),
                r@.len() == i,
                forall|a: int| 0 <= a < i ==> r@[a] == (#[trigger] self.entries@[a]).0,
            decreases self.entries@.len() - i,
        {
            let k = self.entries[i].0;
            r.push(k);
            i = i + 1;
        }
        proof {
            assert forall|k: u64| r@.contains(k) <==> self@.contains_key(k) by {
                lemma_map_of_contains(self.entries@, k);
                if r@.contains(k) {
                    let a = choose|a: int| 0 <= a < r@.len() && r@[a] == k;
                    assert(self.entries@[a].0 == k);
                }
                if self@.contains_key(k) {
                    let a = choose|a: int| 0 <= a < self.entries@.len() && (#[trigger] self.entries@[a]).0 == k;
                    assert(r@[a] == k);
                }
            }
            assert forall|i2: int, j2: int| 0 <= i2 < j2 < r@.len() implies r@[i2] != r@[j2] by {
                assert(self.entries@[i2].0 != self.entries@[j2].0);
            }
        }
        r
    }
}

} // verus!
