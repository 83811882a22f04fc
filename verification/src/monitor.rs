//! The monitor couples the sensor registry with the published metric
//! state: every decoded reading refreshes the registry and republishes
//! the identity's four quantity slots, and the periodic sweep removes
//! expired identities together with their metrics in one step.

use vstd::prelude::*;
use crate::decode::SensorReading;
use crate::registry::Registry;
use crate::registry::TTL_SECONDS;
use crate::registry::survives;
use crate::registry::touched;
use crate::table::Table;
use crate::table::lemma_remove_all;
use crate::table::remove_all;

verus! {

/// The four published quantity slots of one identity; an absent slot is
/// a cleared metric.
#[derive(Clone, Copy, Debug, PartialEq, Eq)]
pub struct Quantities {
    /// Temperature in thousandths of a degree Celsius.
    pub temperature: Option<i32>,
    /// Relative humidity in ten-thousandths of a percent.
    pub humidity: Option<u32>,
    /// Air pressure in pascals.
    pub pressure: Option<u32>,
    /// Battery level in millivolts.
    pub battery: Option<u16>,
}

/// The quantity slots a reading publishes: its four decoded values.
pub open spec fn quantities_of(r: SensorReading) -> Quantities {
    Quantities {
        temperature: r.temperature,
        humidity: r.humidity,
        pressure: r.pressure,
        battery: r.battery,
    }
}

/// The numeric key of a six-byte hardware identity: its big-endian
/// 48-bit value.
pub open spec fn mac_key(m: Seq<u8>) -> u64
    recommends
        m.len() == 6,
{
    ((m[0] as int) * 0x10000000000 + (m[1] as int) * 0x100000000 + (m[2] as int) * 0x1000000 + (
    m[3] as int) * 0x10000 + (m[4] as int) * 0x100 + (m[5] as int)) as u64
}

/// The numeric key of a six-byte hardware identity.
pub fn mac_key_of(mac: &[u8; 6]) -> (r: u64)
    ensures
        r == mac_key(mac@),
{
    (mac[0] as u64) * 0x10000000000 + (mac[1] as u64) * 0x100000000 + (mac[2] as u64) * 0x1000000
        + (mac[3] as u64) * 0x10000 + (mac[4] as u64) * 0x100 + (mac[5] as u64)
}

/// The live registry and the published metric state, kept in step.
pub struct Monitor {
    registry: Registry,
    book: Table<Quantities>,
}

impl Monitor {
    /// The registry as a map from identity key to expiry deadline.
    pub closed spec fn registry_view(&self) -> Map<u64, u64> {
        self.registry@
    }

    /// The published metrics as a map from identity key to its slots.
    pub closed spec fn metrics_view(&self) -> Map<u64, Quantities> {
        self.book@
    }

    /// The monitor's internal stores are well formed.
    pub closed spec fn wf(&self) -> bool {
        self.registry.wf() && self.book.wf()
    }

    /// Metric/registry mirroring: an identity with published metrics is
    /// always registered — metrics never outlive the registry entry.
    pub open spec fn mirrored(&self) -> bool {
        forall|k: u64|
            #[trigger] self.metrics_view().contains_key(k) ==> self.registry_view().contains_key(k)
    }

    /// An empty monitor: nothing registered, nothing published.
    pub fn new() -> (r: Self)
        ensures
            r.wf(),
            r.mirrored(),
            r.registry_view() == Map::<u64, u64>::empty(),
            r.metrics_view() == Map::<u64, Quantities>::empty(),
    {
        Monitor { registry: Registry::new(), book: Table::new() }
    }

    /// Applies one decoded reading: refreshes the identity's registry
    /// deadline and republishes its four quantity slots.
    pub fn observe(&mut self, reading: &SensorReading, now: u64)
        requires
            old(self).wf(),
            old(self).mirrored(),
            now + TTL_SECONDS <= u64::MAX,
        ensures
            final(self).wf(),
            final(self).mirrored(),
            final(self).registry_view() == touched(
                old(self).registry_view(),
                mac_key(reading.mac@),
                now,
            ),
            final(self).metrics_view() == old(self).metrics_view().insert(
                mac_key(reading.mac@),
                quantities_of(*reading),
            ),
    {
        let key = mac_key_of(&reading.mac);
        self.registry.touch(key, now);
        self.book.put(
            key,
            Quantities {
                temperature: reading.temperature,
                humidity: reading.humidity,
                pressure: reading.pressure,
                battery: reading.battery,
            },
        );
        proof {
            assert forall|k: u64| #[trigger] self.metrics_view().contains_key(k) implies self.registry_view().contains_key(k) by {
                if k != mac_key(reading.mac@) {
                    assert(old(self).metrics_view().contains_key(k));
                }
            }
        }
    }

    /// The identity's published quantity slots, if any.
    pub fn metrics_of(&self, key: u64) -> (r: Option<Quantities>)
        requires
            self.wf(),
        ensures
            r == if self.metrics_view().contains_key(key) {
                Some(self.metrics_view()[key])
            } else {
                None::<Quantities>
            },
    {
        self.book.get(key)
    }

    /// The identity's registry deadline, if it is registered.
    pub fn deadline_of(&self, key: u64) -> (r: Option<u64>)
        requires
            self.wf(),
        ensures
            r == if self.registry_view().contains_key(key) {
                Some(self.registry_view()[key])
            } else {
                None::<u64>
            },
    {
        self.registry.deadline_of(key)
    }

    /// Removes every identity whose deadline lies strictly before `now`,
    /// clearing its metrics in the same step, and returns the removed
    /// identities; survivors keep deadline and metrics unchanged.
    pub fn sweep(&mut self, now: u64) -> (removed: Vec<u64>)
        requires
            old(self).wf(),
            old(self).mirrored(),
        ensures
            final(self).wf(),
            final(self).mirrored(),
            forall|k: u64|
                final(self).registry_view().contains_key(k) <==> survives(
                    old(self).registry_view(),
                    k,
                    now,
                ),
            forall|k: u64|
                #[trigger] final(self).registry_view().contains_key(k) ==> final(self).registry_view()[k] == old(self).registry_view()[k],
            forall|k: u64|
                removed@.contains(k) <==> (old(self).registry_view().contains_key(k) && old(
                    self,
                ).registry_view()[k] < now),
            forall|i: int, j: int| 0 <= i < j < removed@.len() ==> removed@[i] != removed@[j],
            forall|k: u64|
                final(self).metrics_view().contains_key(k) <==> (old(
                    self,
                ).metrics_view().contains_key(k) && survives(old(self).registry_view(), k, now)),
            forall|k: u64|
                #[trigger] final(self).metrics_view().contains_key(k) ==> final(self).metrics_view()[k] == old(self).metrics_view()[k],
    {
        let ghost orig_reg: Map<u64, u64> = self.registry@;
        let ghost orig_book: Map<u64, Quantities> = self.book@;
        let removed = self.registry.sweep(now);
        let ghost swept_reg: Map<u64, u64> = self.registry@;
        let ghost swept_wf = self.registry.wf();
        let mut i: usize = 0;
        while i < removed.len()
            invariant
                self.book.wf(),
                self.registry.wf() == swept_wf,
                self.registry@ == swept_reg,
                i <= removed@.len(),
                self.book@ == remove_all(orig_book, removed@.take(i as int)),
            decreases removed@.len() - i,
        {
            let k = removed[i];
            let ghost gi = i as int;
            let ghost pre_book = self.book@;
            self.book.remove(k);
            i = i + 1;
            proof {
                assert(removed@.take(gi + 1).drop_last() =~= removed@.take(gi));
                assert(removed@.take(gi + 1).last() == k);
                assert(remove_all(orig_book, removed@.take(gi + 1)) == remove_all(
                    orig_book,
                    removed@.take(gi),
                ).remove(k));
                assert(i as int == gi + 1);
                assert(self.book@ == remove_all(orig_book, removed@.take(i as int)));
            }
        }
        proof {
            assert(removed@.take(removed@.len() as int) =~= removed@);
            assert(self.book@ == remove_all(orig_book, removed@));
            assert forall|k: u64|
                self.book@.contains_key(k) <==> (orig_book.contains_key(k) && survives(
                    orig_reg,
                    k,
                    now,
                )) by {
                lemma_remove_all(orig_book, removed@, k);
                if orig_book.contains_key(k) {
                    assert(old(self).metrics_view().contains_key(k));
                    assert(orig_reg.contains_key(k));
                }
            }
            assert forall|k: u64| #[trigger] self.book@.contains_key(k) implies self.book@[k]
                == orig_book[k] by {
                lemma_remove_all(orig_book, removed@, k);
            }
            assert forall|k: u64|
                #[trigger] self.metrics_view().contains_key(k) implies self.registry_view().contains_key(k) by {
                lemma_remove_all(orig_book, removed@, k);
            }
        }
        removed
    }
}

} // verus!
