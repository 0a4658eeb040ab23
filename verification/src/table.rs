//! The correlation table: a dense table of reusable slots, keyed by the
//! numeric correlation tag. A tag is the index of the slot that holds the
//! entry; it is assigned when an entry is registered and may be reused by a
//! later, unrelated entry once the slot is vacated.

use vstd::prelude::*;

verus! {

/// A dense, reusable-slot table from correlation tags to entries.
///
/// Registering an entry fills the lowest vacant slot (growing the table when
/// every slot is occupied) and hands back that slot's index as the tag, so at
/// any instant at most one live entry exists per tag, and a freshly assigned
/// tag is never one of the currently live tags.
pub struct Table<V> {
    slots: Vec<Option<V>>,
}

impl<V> Table<V> {
    /// The live entries, as a map from tag to entry.
    pub closed spec fn view(&self) -> Map<u64, V> {
        Map::new(
            |k: u64| k < self.slots@.len() && self.slots@[k as int] is Some,
            |k: u64| self.slots@[k as int]->0,
        )
    }

    /// How many slots the table has grown to; every live tag lies below this.
    pub closed spec fn slot_count(&self) -> nat {
        self.slots@.len()
    }

    /// A vacated slot at `tag`: the slot exists but holds no entry, so the
    /// entry that was removed from it can be reinstated under the same tag.
    pub closed spec fn vacated(&self, tag: u64) -> bool {
        tag < self.slots@.len() && self.slots@[tag as int] is None
    }

    /// Every live tag indexes one of the table's slots.
    pub proof fn lemma_live_tags_bounded(&self)
        ensures
            forall|k: u64| self@.contains_key(k) ==> k < self.slot_count(),
    {
    }

    /// An empty table.
    pub fn new() -> (t: Table<V>)
        ensures
            t@ == Map::<u64, V>::empty(),
            t.slot_count() == 0,
    {
        let t = Table { slots: Vec::new() };
        proof {
            assert(t@ =~= Map::<u64, V>::empty());
        }
        t
    }

    /// Whether a live entry exists for `tag`.
    pub fn contains(&self, tag: u64) -> (r: bool)
        ensures
            r == self@.contains_key(tag),
    {
        tag < (self.slots.len() as u64) && self.slots[tag as usize].is_some()
    }

    /// A borrow of the live entry for `tag`, if one exists.
    pub fn get(&self, tag: u64) -> (r: Option<&V>)
        ensures
            match r {
                Some(v) => self@.contains_key(tag) && *v == self@[tag],
                None => !self@.contains_key(tag),
            },
    {
        if tag < (self.slots.len() as u64) {
            match &self.slots[tag as usize] {
                Some(v) => Some(v),
                None => None,
            }
        } else {
            None
        }
    }

    /// Registers an entry in the lowest vacant slot and returns its tag.
    /// The tag is fresh: no live entry had it just before this call.
    #[verifier::loop_isolation(false)]
    pub fn register(&mut self, v: V) -> (tag: u64)
        ensures
            !old(self)@.contains_key(tag),
            final(self)@ == old(self)@.insert(tag, v),
            old(self).slot_count() <= final(self).slot_count() <= old(self).slot_count() + 1,
    {
        let mut i: usize = 0;
        while i < self.slots.len()
            invariant
                *self == *old(self),
                i <= self.slots@.len(),
                forall|j: int| 0 <= j < i ==> self.slots@[j] is Some,
            decreases self.slots@.len() - i,
        {
            if self.slots[i].is_none() {
                self.slots[i] = Some(v);
                proof {
                    assert(self@ =~= old(self)@.insert(i as u64, v));
                }
                return i as u64;
            }
            i += 1;
        }
        self.slots.push(Some(v));
        let tag = (self.slots.len() - 1) as u64;
        proof {
            assert(self@ =~= old(self)@.insert(tag, v));
        }
        tag
    }

    /// Removes and returns the live entry for `tag`, vacating its slot.
    pub fn remove(&mut self, tag: u64) -> (v: V)
        requires
            old(self)@.contains_key(tag),
        ensures
            v == old(self)@[tag],
            final(self)@ == old(self)@.remove(tag),
            final(self).slot_count() == old(self).slot_count(),
            final(self).vacated(tag),
    {
        let n = self.slots.len();
        proof {
            assert(old(self)@.dom().contains(tag));
            assert(tag < self.slots@.len());
            assert(self.slots@[tag as int] is Some);
            assert(self.slots@.len() == n);
            assert((tag as usize) as int == tag as int);
        }
        let mut taken: Option<V> = None;
        core::mem::swap(&mut taken, &mut self.slots[tag as usize]);
        proof {
            assert(self@ =~= old(self)@.remove(tag));
        }
        match taken {
            Some(v) => v,
            None => {
                proof {
                    assert(false);
                }
                unreached()
            },
        }
    }

    /// Reinstates an entry at a vacated slot, under the same tag that the
    /// slot had before it was vacated.
    pub fn reinstate(&mut self, tag: u64, v: V)
        requires
            old(self).vacated(tag),
        ensures
            final(self)@ == old(self)@.insert(tag, v),
            final(self).slot_count() == old(self).slot_count(),
    {
        let n = self.slots.len();
        proof {
            assert(self.slots@.len() == n);
            assert((tag as usize) as int == tag as int);
        }
        self.slots[tag as usize] = Some(v);
        proof {
            assert(self@ =~= old(self)@.insert(tag, v));
        }
    }
}

/// No two simultaneously live entries ever share a tag. The live entries
/// form the table's view, a map from tag to entry, so at any instant a tag
/// names at most one live entry; and `register`, the only operation that
/// assigns tags, only ever returns a tag that is not currently live (its
/// first postcondition). Composing those two facts over any sequence of
/// registrations and removals: a registration made while an earlier entry is
/// still live yields a tag distinct from that entry's.
pub proof fn lemma_distinct_while_live<V>(m: Map<u64, V>, k1: u64, k2: u64, v1: V)
    requires
        !m.contains_key(k1),
        !m.insert(k1, v1).contains_key(k2),
    ensures
        k1 != k2,
{
}

} // verus!
