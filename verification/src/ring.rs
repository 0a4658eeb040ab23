//! The ring resource the driver depends on: a non-blocking push into the
//! submission ring, a blocking flush that may surface completions, and a pop
//! of the next available completion record. An in-memory realization of the
//! interface, `MemRing`, lets the reactor run without a kernel; an adapter
//! around a real ring pair implements the same trait outside the library.

use vstd::prelude::*;

use crate::record::CompletionRecord;

verus! {

/// The two rings, as the reactor sees them.
///
/// Each side is given a view: `cq_view` lists the completion records
/// available to drain, oldest first, and `sq_view` lists every tagged
/// descriptor the submission side has accepted, oldest first — the pairing
/// of correlation tag and descriptor that the driver's contracts promise.
/// How many of the accepted descriptors a flush hands to the kernel, and
/// which completions it surfaces, stay the kernel's business: `flush`
/// promises only that nothing accepted is lost, that completions are never
/// lost, and that its result reports whether any are available.
pub trait RingResource: Sized {
    /// The submission descriptor this ring carries.
    type Desc;

    /// The completion records available to drain, oldest first. The default
    /// commits to nothing, so an unverified impl outside the library (an
    /// adapter over a real kernel ring) may leave it untouched; a verified
    /// impl overrides it with its actual contents.
    open spec fn cq_view(&self) -> Seq<CompletionRecord> {
        arbitrary()
    }

    /// Every tagged descriptor the submission side has accepted, oldest
    /// first, whether still queued or already handed to the kernel. This is
    /// what ties a correlation tag to the descriptor submitted under it.
    /// The default commits to nothing, like `cq_view`.
    open spec fn sq_view(&self) -> Seq<(u64, u8, Self::Desc)> {
        arbitrary()
    }

    /// Whether the submission ring is certain to accept one more push. The
    /// default commits to nothing, like `cq_view`.
    open spec fn has_room(&self) -> bool {
        arbitrary()
    }

    /// How many blocking flushes have been performed. The default commits
    /// to nothing, like `cq_view`.
    open spec fn flush_count(&self) -> nat {
        arbitrary()
    }

    /// Non-blocking push of a tagged descriptor into the submission ring.
    /// Gives the descriptor back untouched when the ring is full; never
    /// surfaces completions, never flushes, and never refuses while the
    /// ring has room.
    fn try_push(&mut self, tag: u64, flags: u8, d: Self::Desc) -> (r: Option<Self::Desc>)
        ensures
            final(self).cq_view() == old(self).cq_view(),
            final(self).flush_count() == old(self).flush_count(),
            old(self).has_room() ==> r is None,
            r is None ==> final(self).sq_view() == old(self).sq_view().push((tag, flags, d)),
            r matches Some(back) ==> back == d && *final(self) == *old(self),
    ;

    /// Blocking flush: hands queued submissions to the kernel, which may
    /// accept any number of them and may surface newly arrived completions.
    /// Returns whether completion records are now available to drain. One
    /// call performs at most one flush, loses no accepted submission and no
    /// completion.
    fn flush(&mut self) -> (surfaced: bool)
        ensures
            exists|extra: Seq<CompletionRecord>|
                final(self).cq_view() == old(self).cq_view() + extra,
            surfaced == (final(self).cq_view().len() > 0),
            final(self).sq_view() == old(self).sq_view(),
            old(self).flush_count() <= final(self).flush_count() <= old(self).flush_count() + 1,
    ;

    /// Pops the oldest available completion record, if any. Touches nothing
    /// on the submission side.
    fn next_completion(&mut self) -> (r: Option<CompletionRecord>)
        ensures
            old(self).cq_view().len() == 0 ==> r is None && *final(self) == *old(self),
            old(self).cq_view().len() > 0 ==> r == Some(old(self).cq_view()[0])
                && final(self).cq_view() == old(self).cq_view().skip(1),
            final(self).sq_view() == old(self).sq_view(),
            final(self).flush_count() == old(self).flush_count(),
    ;
}

/// An in-memory ring pair: descriptors queue into a bounded submission
/// buffer, a flush moves them to the accepted list when the kernel side is
/// not congested, and completion records are delivered explicitly by the
/// surrounding code, which plays the kernel. This is the reference
/// realization of `RingResource`, and what drives the reactor in tests.
pub struct MemRing<D> {
    /// Tagged descriptors pushed but not yet accepted by a flush.
    pub queued: Vec<(u64, u8, D)>,
    /// Capacity of the submission ring.
    pub capacity: usize,
    /// Descriptors a flush has handed to the kernel side, oldest first.
    pub accepted: Vec<(u64, u8, D)>,
    /// Completion records delivered and not yet drained, oldest first.
    pub delivered: Vec<CompletionRecord>,
    /// While set, the kernel side accepts nothing: flushes free no room.
    pub congested: bool,
    /// How many flushes have been performed.
    pub flushes: u64,
}

impl<D> MemRing<D> {
    /// A fresh, empty ring pair with the given submission capacity.
    pub fn new(capacity: usize) -> (r: MemRing<D>)
        ensures
            r.queued@.len() == 0,
            r.capacity == capacity,
            r.accepted@.len() == 0,
            r.delivered@.len() == 0,
            !r.congested,
            r.flushes == 0,
    {
        MemRing {
            queued: Vec::new(),
            capacity,
            accepted: Vec::new(),
            delivered: Vec::new(),
            congested: false,
            flushes: 0,
        }
    }

    /// The kernel side delivers one completion record.
    pub fn deliver(&mut self, rec: CompletionRecord)
        ensures
            final(self).delivered@ == old(self).delivered@.push(rec),
            final(self).queued == old(self).queued,
            final(self).accepted == old(self).accepted,
            final(self).capacity == old(self).capacity,
            final(self).congested == old(self).congested,
            final(self).flushes == old(self).flushes,
    {
        self.delivered.push(rec);
    }
}

impl<D> RingResource for MemRing<D> {
    type Desc = D;

    open spec fn cq_view(&self) -> Seq<CompletionRecord> {
        self.delivered@
    }

    open spec fn sq_view(&self) -> Seq<(u64, u8, D)> {
        self.accepted@ + self.queued@
    }

    open spec fn has_room(&self) -> bool {
        self.queued@.len() < self.capacity
    }

    open spec fn flush_count(&self) -> nat {
        self.flushes as nat
    }

    fn try_push(&mut self, tag: u64, flags: u8, d: D) -> (r: Option<D>)
        ensures
            old(self).queued@.len() < old(self).capacity ==> r is None
                && final(self).queued@ == old(self).queued@.push((tag, flags, d)),
            old(self).queued@.len() >= old(self).capacity ==> r == Some(d),
            final(self).accepted == old(self).accepted,
            final(self).delivered == old(self).delivered,
            final(self).capacity == old(self).capacity,
            final(self).congested == old(self).congested,
            final(self).flushes == old(self).flushes,
    {
        if self.queued.len() < self.capacity {
            self.queued.push((tag, flags, d));
            proof {
                assert(self.sq_view() =~= old(self).sq_view().push((tag, flags, d)));
            }
            None
        } else {
            Some(d)
        }
    }

    fn flush(&mut self) -> (surfaced: bool)
        ensures
            old(self).flushes < u64::MAX ==> final(self).flushes == old(self).flushes + 1,
            !old(self).congested ==> final(self).queued@.len() == 0
                && final(self).accepted@ == old(self).accepted@ + old(self).queued@,
            old(self).congested ==> final(self).queued == old(self).queued
                && final(self).accepted == old(self).accepted,
            final(self).delivered == old(self).delivered,
            final(self).capacity == old(self).capacity,
            final(self).congested == old(self).congested,
    {
        if self.flushes < u64::MAX {
            self.flushes = self.flushes + 1;
        }
        if !self.congested {
            self.accepted.append(&mut self.queued);
        }
        let surfaced = self.delivered.len() > 0;
        proof {
            assert(self.cq_view() =~= old(self).cq_view() + Seq::<CompletionRecord>::empty());
            assert(self.sq_view() =~= old(self).sq_view());
        }
        surfaced
    }

    fn next_completion(&mut self) -> (r: Option<CompletionRecord>)
        ensures
            final(self).queued == old(self).queued,
            final(self).accepted == old(self).accepted,
            final(self).capacity == old(self).capacity,
            final(self).congested == old(self).congested,
            final(self).flushes == old(self).flushes,
    {
        if self.delivered.len() > 0 {
            let rec = self.delivered.remove(0);
            proof {
                assert(self.delivered@ =~= old(self).delivered@.skip(1));
            }
            Some(rec)
        } else {
            None
        }
    }
}

} // verus!
