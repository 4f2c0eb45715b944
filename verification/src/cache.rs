//! The duplicate-suppression cache.
//!
//! A bounded first-in first-out collection with a linear containment
//! test.  Adding a value that is already present reports a duplicate and
//! changes nothing; adding a fresh value evicts the oldest entry once the
//! cache is full.

use vstd::prelude::*;

use crate::packets::{MeshPacket, Payload, PayloadType};

verus! {

/// A bounded first-in first-out cache with a containment test.
pub struct Cache<T> {
    deque: Vec<T>,
    size: usize,
}

impl<T: PartialEq + vstd::std_specs::cmp::PartialEqSpec> Cache<T> {
    /// The entries, oldest first.
    pub closed spec fn view(&self) -> Seq<T> {
        self.deque@
    }

    /// The capacity the cache was created with.
    pub closed spec fn spec_size(&self) -> nat {
        self.size as nat
    }

    /// The cache never holds more entries than its capacity.
    pub open spec fn wf(&self) -> bool {
        self.view().len() <= self.spec_size()
    }

    /// Whether the cache holds the value.
    pub open spec fn spec_contains(&self, value: T) -> bool {
        exists|i: int| 0 <= i < self.view().len() && self.view()[i].eq_spec(&value)
    }

    /// Creates an empty cache of the given capacity.
    pub fn new(size: usize) -> (r: Cache<T>)
        ensures
            r@ == Seq::<T>::empty(),
            r.spec_size() == size,
            r.wf(),
    {
        Cache { deque: Vec::new(), size }
    }

    /// How many entries the cache holds.
    pub fn len(&self) -> (r: usize)
        ensures
            r == self@.len(),
    {
        self.deque.len()
    }

    /// Adds a value.  Reports true and appends the value when it was not
    /// yet present, evicting the oldest entry if the cache is full;
    /// reports false and changes nothing when it was.
    pub fn add(&mut self, value: T) -> (r: bool)
        requires
            T::obeys_eq_spec(),
            old(self).wf(),
            old(self).spec_size() > 0,
        ensures
            final(self).spec_size() == old(self).spec_size(),
            final(self).wf(),
            r == !old(self).spec_contains(value),
            !r ==> final(self)@ == old(self)@,
            r && old(self)@.len() < old(self).spec_size() ==> final(self)@ == old(self)@.push(
                value,
            ),
            r && old(self)@.len() == old(self).spec_size() ==> final(self)@ == old(
                self,
            )@.drop_first().push(value),
            r ==> final(self)@.len() <= old(self)@.len() + 1,
    {
        let mut i: usize = 0;
        while i < self.deque.len()
            invariant
                i <= self.deque@.len(),
                T::obeys_eq_spec(),
                self.deque@ == old(self).deque@,
                self.size == old(self).size,
                self.deque@.len() <= self.size,
                forall|j: int| 0 <= j < i ==> !self.deque@[j].eq_spec(&value),
            decreases self.deque@.len() - i,
        {
            if self.deque[i] == value {
                proof {
                    assert(old(self).spec_contains(value));
                }
                return false;
            }
            i = i + 1;
        }
        if self.deque.len() == self.size {
            self.deque.remove(0);
            self.deque.push(value);
            proof {
                assert(self.deque@ =~= old(self)@.drop_first().push(value));
            }
            return true;
        }
        self.deque.push(value);
        true
    }
}

/// The duplicate-suppression fingerprint of a mesh packet.  Uplink and
/// downlink packets are identified by payload type, uplink id and relay
/// id; event and command packets by payload type, relay id and their own
/// timestamp, so that a retransmission with a fresh timestamp is not
/// taken for a duplicate.
#[derive(Debug, Clone, Copy, Eq)]
pub struct PayloadCache {
    pub p_type: PayloadType,
    pub uplink_id: u16,
    pub timestamp: u32,
    pub relay_id: [u8; 4],
}

impl PartialEq for PayloadCache {
    fn eq(&self, other: &PayloadCache) -> (r: bool) {
        broadcast use vstd::array::group_array_axioms;

        let r = self.p_type == other.p_type && self.uplink_id == other.uplink_id
            && self.timestamp == other.timestamp && crate::packets::relay_ids_equal(
            &self.relay_id,
            &other.relay_id,
        );
        proof {
            if r {
                assert(self.relay_id =~= other.relay_id);
            }
            if *self == *other {
                assert(self.relay_id@ == other.relay_id@);
            }
        }
        r
    }
}

impl vstd::std_specs::cmp::PartialEqSpecImpl for PayloadCache {
    open spec fn obeys_eq_spec() -> bool {
        true
    }

    open spec fn eq_spec(&self, other: &PayloadCache) -> bool {
        *self == *other
    }
}

impl PayloadCache {
    /// The fingerprint of a packet, as a function of its view.
    pub open spec fn spec_of_packet(p: crate::packets::MeshPacketView) -> PayloadCache {
        match p.payload {
            crate::packets::PayloadView::Uplink(v) => PayloadCache {
                p_type: p.mhdr.payload_type,
                uplink_id: v.metadata.uplink_id,
                relay_id: [v.relay_id[0], v.relay_id[1], v.relay_id[2], v.relay_id[3]],
                timestamp: 0,
            },
            crate::packets::PayloadView::Downlink(v) => PayloadCache {
                p_type: p.mhdr.payload_type,
                uplink_id: v.metadata.uplink_id,
                relay_id: [v.relay_id[0], v.relay_id[1], v.relay_id[2], v.relay_id[3]],
                timestamp: 0,
            },
            crate::packets::PayloadView::Event(v) => PayloadCache {
                p_type: p.mhdr.payload_type,
                uplink_id: 0,
                relay_id: [v.relay_id[0], v.relay_id[1], v.relay_id[2], v.relay_id[3]],
                timestamp: v.timestamp,
            },
            crate::packets::PayloadView::Command(v) => PayloadCache {
                p_type: p.mhdr.payload_type,
                uplink_id: 0,
                relay_id: [v.relay_id[0], v.relay_id[1], v.relay_id[2], v.relay_id[3]],
                timestamp: v.timestamp,
            },
        }
    }

    /// Builds the fingerprint of a packet.
    pub fn from_packet(p: &MeshPacket) -> (r: PayloadCache)
        ensures
            r == Self::spec_of_packet(p@),
    {
        broadcast use vstd::array::group_array_axioms;

        let r = match &p.payload {
            Payload::Uplink(v) => PayloadCache {
                p_type: p.mhdr.payload_type,
                uplink_id: v.metadata.uplink_id,
                relay_id: v.relay_id,
                timestamp: 0,
            },
            Payload::Downlink(v) => PayloadCache {
                p_type: p.mhdr.payload_type,
                uplink_id: v.metadata.uplink_id,
                relay_id: v.relay_id,
                timestamp: 0,
            },
            Payload::Event(v) => PayloadCache {
                p_type: p.mhdr.payload_type,
                uplink_id: 0,
                relay_id: v.relay_id,
                timestamp: v.timestamp,
            },
            Payload::Command(v) => PayloadCache {
                p_type: p.mhdr.payload_type,
                uplink_id: 0,
                relay_id: v.relay_id,
                timestamp: v.timestamp,
            },
        };
        proof {
            assert(r.relay_id =~= Self::spec_of_packet(p@).relay_id);
        }
        r
    }
}

/// Adding a value reports it fresh, and adding it again right away
/// reports it a duplicate; the cache never grows past its capacity.
pub proof fn lemma_cache_add_idempotent<T: PartialEq + vstd::std_specs::cmp::PartialEqSpec + Copy>(
    c: Cache<T>,
    value: T,
)
    requires
        T::obeys_eq_spec(),
        forall|x: T| #[trigger] x.eq_spec(&x),
        c.wf(),
        !c.spec_contains(value),
    ensures
        ({
            // what `add` must report on a cache in this state
            &&& !c.spec_contains(value)
            // and after the value is appended, a second `add` must
            // report a duplicate, whether or not an eviction happened
            &&& c@.push(value).len() <= c.spec_size() ==> exists|i: int|
                0 <= i < c@.push(value).len() && c@.push(value)[i].eq_spec(&value)
            &&& exists|i: int|
                0 <= i < c@.drop_first().push(value).len() && c@.drop_first().push(
                    value,
                )[i].eq_spec(&value)
        }),
{
    let s1 = c@.push(value);
    assert(s1[s1.len() - 1].eq_spec(&value));
    let s2 = c@.drop_first().push(value);
    assert(s2[s2.len() - 1].eq_spec(&value));
}

} // verus!
