//! The sensor registry: a map from hardware identity to expiry deadline,
//! refreshed on every decoded reading and swept of expired entries on a
//! timer.

use vstd::prelude::*;
use crate::table::Table;

verus! {

/// Seconds an identity stays registered after its last reading.
pub const TTL_SECONDS: u64 = 300;

/// The registry map after an identity is touched at a time: its deadline
/// becomes the touch time plus the TTL, other entries are untouched.
pub open spec fn touched(m: Map<u64, u64>, key: u64, now: u64) -> Map<u64, u64>
    recommends
        now + TTL_SECONDS <= u64::MAX,
{
    m.insert(key, (now + TTL_SECONDS) as u64)
}

/// Whether a key survives a sweep at a time: it is present and its
/// deadline has not yet passed.
pub open spec fn survives(m: Map<u64, u64>, key: u64, now: u64) -> bool {
    m.contains_key(key) && m[key] >= now
}

/// The registry of currently-live sensor identities.
pub struct Registry {
    entries: Table<u64>,
}

impl Registry {
    /// The registry as a map from identity key to expiry deadline.
    pub closed spec fn view(&self) -> Map<u64, u64> {
        self.entries@
    }

    /// The registry's internal store is well formed.
    pub closed spec fn wf(&self) -> bool {
        self.entries.wf()
    }

    /// An empty registry.
    pub fn new() -> (r: Self)
        ensures
            r.wf(),
            r@ == Map::<u64, u64>::empty(),
    {
        Registry { entries: Table::new() }
    }

    /// Creates or refreshes an identity's entry: its deadline becomes
    /// `now + TTL_SECONDS`.
    pub fn touch(&mut self, key: u64, now: u64)
        requires
            old(self).wf(),
            now + TTL_SECONDS <= u64::MAX,
        ensures
            final(self).wf(),
            final(self)@ == touched(old(self)@, key, now),
    {
        self.entries.put(key, now + TTL_SECONDS);
    }

    /// The identity's current expiry deadline, if it is registered.
    pub fn deadline_of(&self, key: u64) -> (r: Option<u64>)
        requires
            self.wf(),
        ensures
            r == if self@.contains_key(key) {
                Some(self@[key])
            } else {
                None::<u64>
            },
    {
        self.entries.get(key)
    }

    /// How many identities are registered.
    pub fn len(&self) -> (r: usize)
        requires
            self.wf(),
        ensures
            r == self@.dom().len(),
    {
        self.entries.len()
    }

    /// Removes every entry whose deadline lies strictly before `now` and
    /// returns the removed identities, each exactly once. Entries whose
    /// deadline is at or past `now` are kept unchanged.
    pub fn sweep(&mut self, now: u64) -> (removed: Vec<u64>)
        requires
            old(self).wf(),
        ensures
            final(self).wf(),
            forall|k: u64| final(self)@.contains_key(k) <==> survives(old(self)@, k, now),
            forall|k: u64|
                #[trigger] final(self)@.contains_key(k) ==> final(self)@[k] == old(self)@[k],
            forall|k: u64|
                removed@.contains(k) <==> (old(self)@.contains_key(k) && old(self)@[k] < now),
            forall|i: int, j: int| 0 <= i < j < removed@.len() ==> removed@[i] != removed@[j],
    {
        let ghost orig: Map<u64, u64> = self@;
        let ks = self.entries.keys();
        let mut removed: Vec<u64> = Vec::new();
        let mut i: usize = 0;
        while i < ks.len()
            invariant
                self.wf(),
                i <= ks@.len(),
                forall|k: u64| ks@.contains(k) <==> orig.contains_key(k),
                forall|a: int, b: int| 0 <= a < b < ks@.len() ==> ks@[a] != ks@[b],
                forall|k: u64|
                    self.entries@.contains_key(k) <==> (orig.contains_key(k)
                        && !removed@.contains(k)),
                forall|k: u64|
                    #[trigger] self.entries@.contains_key(k) ==> self.entries@[k] == orig[k],
                forall|k: u64|
                    #[trigger] removed@.contains(k) ==> (orig.contains_key(k) && orig[k] < now),
                forall|a: int|
                    0 <= a < i ==> (orig[ks@[a]] < now ==> removed@.contains(#[trigger] ks@[a])),
                forall|j: int|
                    0 <= j < removed@.len() ==> exists|a: int|
                        0 <= a < i && ks@[a] == #[trigger] removed@[j],
                forall|a: int, b: int| 0 <= a < b < removed@.len() ==> removed@[a] != removed@[b],
            decreases ks@.len() - i,
        {
            let k = ks[i];
            let ghost pre_removed = removed@;
            let ghost pre_map = self.entries@;
            proof {
                assert(ks@.contains(k));
                assert(!pre_removed.contains(k)) by {
                    if pre_removed.contains(k) {
                        let j = choose|j: int|
                            0 <= j < pre_removed.len() && pre_removed[j] == k;
                        let a = choose|a: int| 0 <= a < i && ks@[a] == pre_removed[j];
                        assert(ks@[a] == ks@[i as int]);
                    }
                }
                assert(self.entries@.contains_key(k));
                assert(pre_map[k] == orig[k]);
            }
            let d = self.entries.get(k);
            match d {
                Some(deadline) => {
                    if deadline < now {
                        self.entries.remove(k);
                        removed.push(k);
                        proof {
                            assert(self.entries@ == pre_map.remove(k));
                            assert(orig[k] < now);
                            assert(removed@ == pre_removed.push(k));
                            assert(removed@[removed@.len() - 1] == k);
                            assert forall|k2: u64| #[trigger] removed@.contains(k2) <==> (
                            pre_removed.contains(k2) || k2 == k) by {
                                if removed@.contains(k2) {
                                    let a = choose|a: int|
                                        0 <= a < removed@.len() && #[trigger] removed@[a] == k2;
                                    if a < pre_removed.len() {
                                        assert(pre_removed[a] == k2);
                                    }
                                }
                                if pre_removed.contains(k2) {
                                    let a = choose|a: int|
                                        0 <= a < pre_removed.len() && #[trigger] pre_removed[a]
                                            == k2;
                                    assert(removed@[a] == k2);
                                }
                            }
                            assert forall|k2: u64|
                                self.entries@.contains_key(k2) <==> (orig.contains_key(k2)
                                    && !removed@.contains(k2)) by {
                                if k2 != k {
                                    assert(self.entries@.contains_key(k2)
                                        == pre_map.contains_key(k2));
                                    assert(pre_map.contains_key(k2) <==> (orig.contains_key(k2) && !pre_removed.contains(k2)));
                                }
                            }
                            assert(ks@[i as int] == removed@[removed@.len() - 1]);
                            assert forall|j: int| 0 <= j < removed@.len() implies exists|a: int|
                                0 <= a < i + 1 && ks@[a] == #[trigger] removed@[j] by {
                                if j < pre_removed.len() {
                                    assert(removed@[j] == pre_removed[j]);
                                    let a = choose|a: int|
                                        0 <= a < i && ks@[a] == pre_removed[j];
                                    assert(0 <= a < i + 1 && ks@[a] == removed@[j]);
                                } else {
                                    assert(ks@[i as int] == removed@[j]);
                                }
                            }
                        }
                    } else {
                        proof {
                            assert(orig[k] >= now);
                        }
                    }
                },
                None => {
                    proof {
                        assert(false);
                    }
                },
            }
            i = i + 1;
        }
        proof {
            assert forall|k: u64|
                removed@.contains(k) <==> (orig.contains_key(k) && orig[k]
                    < now) by {
                assert(self.entries@.contains_key(k) <==> (orig.contains_key(k)
                    && !removed@.contains(k)));
                if orig.contains_key(k) && orig[k] < now {
                    assert(ks@.contains(k));
                    let a = choose|a: int| 0 <= a < ks@.len() && ks@[a] == k;
                    assert(removed@.contains(ks@[a]));
                }
            }
            assert forall|k: u64|
                self.entries@.contains_key(k) <==> survives(orig, k, now) by {
                assert(self.entries@.contains_key(k) <==> (orig.contains_key(k)
                    && !removed@.contains(k)));
                assert(removed@.contains(k) <==> (orig.contains_key(k) && orig[k]
                    < now));
            }
        }
        removed
    }
}

/// Law: touching the same identity twice, the later touch wins. Whatever
/// the registry held before, two touches of one key leave a single entry
/// for it, carrying the later touch's deadline, and add no other key.
pub proof fn lemma_touch_latest_wins(m: Map<u64, u64>, key: u64, t1: u64, t2: u64)
    requires
        t1 + TTL_SECONDS <= u64::MAX,
        t2 + TTL_SECONDS <= u64::MAX,
    ensures
        touched(touched(m, key, t1), key, t2) == touched(m, key, t2),
        touched(touched(m, key, t1), key, t2)[key] == t2 + TTL_SECONDS,
        touched(touched(m, key, t1), key, t2).dom() == m.dom().insert(key),
{
    assert(touched(touched(m, key, t1), key, t2) =~= touched(m, key, t2));
    assert(touched(touched(m, key, t1), key, t2).dom() =~= m.dom().insert(key));
}

/// Law: an identity touched at `t0` survives every sweep at or before
/// the deadline `t0 + TTL_SECONDS`, and no sweep after it.
pub proof fn lemma_expiry_window(m: Map<u64, u64>, key: u64, t0: u64, now: u64)
    requires
        t0 + TTL_SECONDS <= u64::MAX,
    ensures
        now <= t0 + TTL_SECONDS ==> survives(touched(m, key, t0), key, now),
        now > t0 + TTL_SECONDS ==> !survives(touched(m, key, t0), key, now),
{
}

} // verus!
