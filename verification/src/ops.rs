//! The two-phase operation adapter: stage a descriptor together with its
//! owned state and a completion-mapping function, submit it to obtain an
//! in-flight handle, then poll that handle at a suspension point until the
//! matching completion resolves it. The handle is safe to abandon at any
//! point before resolution: abandonment parks the owned state in the table
//! entry so the kernel never references freed memory.

use vstd::prelude::*;

use crate::driver::Driver;
use crate::driver::Fault;
use crate::driver::LifeCycle;
use crate::driver::SubmitError;
use crate::record::CompletionRecord;
use crate::ring::RingResource;

verus! {

/// A staged, not yet submitted operation: the descriptor, the owned state
/// the kernel will reference, and the function that turns the completion
/// record plus that state into the operation's typed result.
pub struct Unsubmitted<D, S, F> {
    /// The submission descriptor, not yet tagged.
    pub sqe: D,
    /// Owned state (buffers and the like) the kernel operation references
    /// until its matching completion arrives.
    pub state: S,
    /// The completion-mapping function, applied at resolution.
    pub f: F,
    /// Submission flags to attach to the descriptor.
    pub flags: u8,
}

/// A submitted operation, correlated to its eventual completion by its tag.
/// It still owns the operation's state; the state is surrendered either to
/// the caller on resolution or to the table entry on abandonment.
pub struct InFlight<S> {
    /// The correlation tag assigned at submission.
    pub id: u64,
    /// The owned state the kernel still references.
    pub state: S,
}

/// What submitting a staged operation produced.
pub enum SubmitOutcome<D, S> {
    /// The operation is in flight; poll the handle to resolve it.
    Flying(InFlight<S>),
    /// The submission ring stayed full even after one flush-and-retry;
    /// nothing was registered, and descriptor and state come back.
    Full(D, S),
    /// Draining during the backpressure flush hit a consistency violation;
    /// the state comes back, but the reactor should be torn down.
    Fault(Fault, S),
}

/// One poll of an in-flight operation.
pub enum PollStep<S> {
    /// Not ready: the handle keeps waiting, its waker parked in the entry.
    Pending(InFlight<S>),
    /// Resolved: the completion record and the surrendered state.
    Ready(CompletionRecord, S),
}

impl<D, S, F> Unsubmitted<D, S, F> {
    /// Stages an operation with no flags set.
    pub fn new(sqe: D, state: S, f: F) -> (r: Unsubmitted<D, S, F>)
        ensures
            r.sqe == sqe,
            r.state == state,
            r.f == f,
            r.flags == 0,
    {
        Unsubmitted { sqe, state, f, flags: 0 }
    }

    /// Sets the submission flags (e.g. link-to-next-operation). Only flags
    /// may change between staging and submission.
    pub fn flags(&mut self, flags: u8)
        ensures
            final(self).flags == flags,
            final(self).sqe == old(self).sqe,
            final(self).state == old(self).state,
            final(self).f == old(self).f,
    {
        self.flags = flags;
    }

    /// Hands the operation to the driver under its backpressure policy and,
    /// on success, returns the in-flight handle carrying the assigned tag
    /// and the owned state. The completion-mapping function is handed back
    /// in either case, to be applied once the handle resolves. On `Full`
    /// nothing was registered and the descriptor and state come back.
    pub fn submit<R: RingResource<Desc = D>>(self, driver: &mut Driver<S, R>) -> (r: (
        SubmitOutcome<D, S>,
        F,
    ))
        ensures
            r.1 == self.f,
            old(driver).ring.has_room() ==> r.0 is Flying,
            final(driver).ring.flush_count() <= old(driver).ring.flush_count() + 1,
            old(driver).sent@.is_prefix_of(final(driver).sent@),
            match r.0 {
                SubmitOutcome::Flying(op) => op.state == self.state
                    && crate::driver::submitted_from(
                    old(driver).entries(),
                    final(driver).entries(),
                    op.id,
                ) && final(driver).ring.sq_view() == old(driver).ring.sq_view().push(
                    (op.id, self.flags, self.sqe),
                ) && (final(driver).ring.cq_view() == old(driver).ring.cq_view()
                    || final(driver).ring.cq_view().len() == 0),
                SubmitOutcome::Full(d, s) => d == self.sqe && s == self.state
                    && crate::driver::drained_to(old(driver).entries(), final(driver).entries())
                    && final(driver).ring.sq_view() == old(driver).ring.sq_view() && (final(driver).ring.cq_view() == old(driver).ring.cq_view()
                    || final(driver).ring.cq_view().len() == 0),
                SubmitOutcome::Fault(f, s) => s == self.state && crate::driver::drain_faulted(
                    old(driver).entries(),
                    f,
                ) && final(driver).ring.sq_view() == old(driver).ring.sq_view(),
            },
    {
        let Unsubmitted { sqe, state, f, flags } = self;
        match driver.fire_off(sqe, flags) {
            Ok(tag) => (SubmitOutcome::Flying(InFlight { id: tag, state }), f),
            Err(SubmitError::Full(d)) => (SubmitOutcome::Full(d, state), f),
            Err(SubmitError::Fault(fault)) => (SubmitOutcome::Fault(fault, state), f),
        }
    }
}

impl<S> InFlight<S> {
    /// One poll of the suspension point. A live handle's entry is always
    /// `Submitted`, `Waiting` or `Completed`: only this handle's own
    /// abandonment could produce `Cancelled`, and an abandoned handle is
    /// never polled again.
    ///
    /// While not ready, the given waker is parked in the entry, superseding
    /// any previous one. When the completion has arrived, the entry is
    /// removed and the record and owned state are surrendered to the caller.
    pub fn poll<R: RingResource>(self, driver: &mut Driver<S, R>, w: core::task::Waker) -> (r:
        PollStep<S>)
        requires
            old(driver).entries().contains_key(self.id),
            !(old(driver).entries()[self.id] is Cancelled),
            !(old(driver).entries()[self.id] is Notify),
        ensures
            (old(driver).entries()[self.id] is Submitted || old(driver).entries()[self.id]
                is Waiting) ==> r == PollStep::<S>::Pending(self) && final(driver).entries() == old(driver).entries().insert(self.id, LifeCycle::<S>::Waiting(w)),
            old(driver).entries()[self.id] matches LifeCycle::Completed(rec) ==> r
                == PollStep::<S>::Ready(rec, self.state) && final(driver).entries() == old(driver).entries().remove(self.id),
            final(driver).ring == old(driver).ring,
            final(driver).sent == old(driver).sent,
    {
        let InFlight { id, state } = self;
        let entry = driver.reactor.remove(id);
        match entry {
            LifeCycle::Submitted => {
                driver.reactor.reinstate(id, LifeCycle::Waiting(w));
                proof {
                    assert(driver.entries() =~= old(driver).entries().insert(
                        id,
                        LifeCycle::<S>::Waiting(w),
                    ));
                }
                PollStep::Pending(InFlight { id, state })
            },
            LifeCycle::Waiting(superseded) => {
                let _ = superseded;
                driver.reactor.reinstate(id, LifeCycle::Waiting(w));
                proof {
                    assert(driver.entries() =~= old(driver).entries().insert(
                        id,
                        LifeCycle::<S>::Waiting(w),
                    ));
                }
                PollStep::Pending(InFlight { id, state })
            },
            LifeCycle::Completed(rec) => PollStep::Ready(rec, state),
            LifeCycle::Cancelled(_) => {
                proof {
                    assert(false);
                }
                unreached()
            },
            LifeCycle::Notify(_) => {
                proof {
                    assert(false);
                }
                unreached()
            },
        }
    }

    /// Abandonment: the consumer drops interest without resolving. If the
    /// completion is still outstanding, the owned state moves into the entry
    /// as `Cancelled`, keeping it alive until the driver observes the
    /// matching completion; the kernel-side operation is not cancelled. If
    /// the entry already holds its completion, entry, record and state are
    /// all released now: the kernel has finished referencing the state. A
    /// missing entry, or one this handle could not own, is a disposal
    /// violation, reported for the caller to treat as fatal.
    pub fn abandon<R: RingResource>(self, driver: &mut Driver<S, R>) -> (r: Result<(), Fault>)
        ensures
            !old(driver).entries().contains_key(self.id) ==> r == Err::<(), Fault>(
                Fault::LostEntry(self.id),
            ) && final(driver).entries() == old(driver).entries(),
            old(driver).entries().contains_key(self.id) ==> match old(driver).entries()[self.id] {
                LifeCycle::Submitted => r is Ok && final(driver).entries() == old(driver).entries().insert(self.id, LifeCycle::<S>::Cancelled(self.state)),
                LifeCycle::Waiting(_) => r is Ok && final(driver).entries() == old(driver).entries().insert(self.id, LifeCycle::<S>::Cancelled(self.state)),
                LifeCycle::Completed(_) => r is Ok && final(driver).entries() == old(driver).entries().remove(self.id),
                LifeCycle::Cancelled(_) => r == Err::<(), Fault>(Fault::LostEntry(self.id))
                    && final(driver).entries() == old(driver).entries(),
                LifeCycle::Notify(_) => r == Err::<(), Fault>(Fault::LostEntry(self.id)) && final(driver).entries() == old(driver).entries(),
            },
            final(driver).ring == old(driver).ring,
            final(driver).sent == old(driver).sent,
    {
        let InFlight { id, state } = self;
        if !driver.reactor.contains(id) {
            return Err(Fault::LostEntry(id));
        }
        let entry = driver.reactor.remove(id);
        match entry {
            LifeCycle::Submitted => {
                driver.reactor.reinstate(id, LifeCycle::Cancelled(state));
                proof {
                    assert(driver.entries() =~= old(driver).entries().insert(
                        id,
                        LifeCycle::<S>::Cancelled(state),
                    ));
                }
                Ok(())
            },
            LifeCycle::Waiting(superseded) => {
                let _ = superseded;
                driver.reactor.reinstate(id, LifeCycle::Cancelled(state));
                proof {
                    assert(driver.entries() =~= old(driver).entries().insert(
                        id,
                        LifeCycle::<S>::Cancelled(state),
                    ));
                }
                Ok(())
            },
            LifeCycle::Completed(_) => {
                // record and state are both released here; the operation has
                // finished, so no kernel-owned memory is left dangling
                Ok(())
            },
            LifeCycle::Cancelled(prior) => {
                driver.reactor.reinstate(id, LifeCycle::Cancelled(prior));
                proof {
                    assert(driver.entries() =~= old(driver).entries());
                }
                Err(Fault::LostEntry(id))
            },
            LifeCycle::Notify(resp) => {
                driver.reactor.reinstate(id, LifeCycle::Notify(resp));
                proof {
                    assert(driver.entries() =~= old(driver).entries());
                }
                Err(Fault::LostEntry(id))
            },
        }
    }
}

/// Applies the completion-mapping function to a resolved operation's record
/// and surrendered state, yielding the operation's typed result. The record
/// is forwarded verbatim: the mapping function alone decides how a result
/// code translates for its operation kind.
pub fn resolve<S, Out, E, F: FnOnce((CompletionRecord, S)) -> Result<Out, E>>(
    f: F,
    rec: CompletionRecord,
    state: S,
) -> (r: Result<Out, E>)
    requires
        call_requires(f, ((rec, state),)),
    ensures
        call_ensures(f, ((rec, state),), r),
{
    f((rec, state))
}

} // verus!
