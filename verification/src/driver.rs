//! The driver: owner of the ring resource and the correlation table, and the
//! only component that pushes submissions or drains completions. Submission
//! follows a single-retry backpressure policy: when the ring is full, one
//! blocking flush is performed (draining any completions it surfaces) and the
//! push is retried exactly once. Draining dispatches every available
//! completion record against the life-cycle entry of its tag; an impossible
//! dispatch is a consistency violation and is reported as a `Fault` rather
//! than being swallowed.

use vstd::prelude::*;

use crate::notify::Responder;
use crate::record::CompletionRecord;
use crate::ring::RingResource;
use crate::table::Table;

verus! {

/// Verus-visible declaration of the standard task waker.
#[verifier::external_type_specification]
#[verifier::external_body]
pub struct ExWaker(core::task::Waker);

/// Relies on `core::task::Waker::wake`: schedules the suspended task to be
/// polled again. Waking has no effect the reactor's contracts can see, so
/// nothing is promised of it. This also assumes the executor-supplied wake
/// implementation returns normally: the standard library does not rule out
/// a panicking waker, and such a panic would propagate through the drain.
pub assume_specification[ core::task::Waker::wake ](w: core::task::Waker);

/// Where one submitted operation stands between submission and resolution.
pub enum LifeCycle<S> {
    /// Pushed to the submission ring; no consumer waiting yet.
    Submitted,
    /// A suspension point is parked on this entry; holds the single most
    /// recent waker (an older waker is superseded, not queued).
    Waiting(core::task::Waker),
    /// A completion record arrived and waits to be consumed by exactly one
    /// poll.
    Completed(CompletionRecord),
    /// The consumer abandoned interest before completion; the entry keeps
    /// the operation's owned state alive, purely so the kernel never
    /// references freed memory, until the matching completion arrives.
    Cancelled(S),
    /// Alternate delivery mode: each completion goes to this responder's
    /// subscribers instead of resolving a single poll.
    Notify(Responder),
}

/// An unrecoverable correlation-table inconsistency. Continuing after one of
/// these risks acting on unowned or aliased state, so the caller is expected
/// to terminate the process rather than swallow it.
#[derive(Clone, Copy, PartialEq, Eq, Structural, Debug)]
pub enum Fault {
    /// A completion arrived for a tag with no live entry.
    UnknownTag(u64),
    /// A completion arrived for an entry that already holds one.
    DuplicateDelivery(u64),
    /// A consumer tried to dispose of an entry that is gone or not its own.
    LostEntry(u64),
}

/// Why a submission did not register an in-flight operation.
#[derive(Debug)]
pub enum SubmitError<D> {
    /// The submission ring stayed full even after one flush-and-retry; the
    /// descriptor comes back so the caller may retry later. No table entry
    /// was left allocated.
    Full(D),
    /// Draining the completions surfaced by the backpressure flush hit a
    /// consistency violation.
    Fault(Fault),
}

/// What one completion record does to the table: `Submitted` and `Waiting`
/// entries become `Completed`, a `Cancelled` entry is disposed of, a
/// single-shot notify entry is delivered and removed, a multi-shot notify
/// entry is delivered and retained. A record for an unknown tag or for an
/// entry that is already `Completed` is a consistency violation.
pub open spec fn dispatch_spec<S>(
    m: Map<u64, LifeCycle<S>>,
    rec: CompletionRecord,
) -> Result<Map<u64, LifeCycle<S>>, Fault> {
    if !m.contains_key(rec.tag) {
        Err(Fault::UnknownTag(rec.tag))
    } else {
        match m[rec.tag] {
            LifeCycle::Submitted => Ok(m.insert(rec.tag, LifeCycle::Completed(rec))),
            LifeCycle::Waiting(_) => Ok(m.insert(rec.tag, LifeCycle::Completed(rec))),
            LifeCycle::Completed(_) => Err(Fault::DuplicateDelivery(rec.tag)),
            LifeCycle::Cancelled(_) => Ok(m.remove(rec.tag)),
            LifeCycle::Notify(Responder::OneShot(_)) => Ok(m.remove(rec.tag)),
            LifeCycle::Notify(Responder::MultiShot(_)) => Ok(m),
        }
    }
}

/// `dispatch_spec` folded over a sequence of completion records, in delivery
/// order, stopping at the first consistency violation.
pub open spec fn drain_spec<S>(
    m: Map<u64, LifeCycle<S>>,
    recs: Seq<CompletionRecord>,
) -> Result<Map<u64, LifeCycle<S>>, Fault>
    decreases recs.len(),
{
    if recs.len() == 0 {
        Ok(m)
    } else {
        match dispatch_spec(m, recs[0]) {
            Ok(m2) => drain_spec(m2, recs.skip(1)),
            Err(f) => Err(f),
        }
    }
}

/// Appending one record to a drain: draining `p.push(rec)` is draining `p`
/// and then dispatching `rec` against the result.
pub proof fn lemma_drain_snoc<S>(
    m: Map<u64, LifeCycle<S>>,
    p: Seq<CompletionRecord>,
    rec: CompletionRecord,
)
    ensures
        drain_spec(m, p.push(rec)) == (match drain_spec(m, p) {
            Ok(m1) => dispatch_spec(m1, rec),
            Err(f) => Err(f),
        }),
    decreases p.len(),
{
    if p.len() == 0 {
        assert(p.push(rec)[0] == rec);
        assert(p.push(rec).skip(1) =~= Seq::<CompletionRecord>::empty());
        match dispatch_spec(m, rec) {
            Ok(m2) => {
                assert(drain_spec(m2, p.push(rec).skip(1)) == Ok::<_, Fault>(m2));
            },
            Err(_) => {},
        }
    } else {
        assert(p.push(rec)[0] == p[0]);
        assert(p.push(rec).skip(1) =~= p.skip(1).push(rec));
        match dispatch_spec(m, p[0]) {
            Ok(m1) => {
                lemma_drain_snoc(m1, p.skip(1), rec);
                assert(drain_spec(m, p.push(rec)) == drain_spec(m1, p.skip(1).push(rec)));
                assert(drain_spec(m, p) == drain_spec(m1, p.skip(1)));
            },
            Err(_) => {},
        }
    }
}

/// What one dispatch hands to a responder: the record itself when its
/// entry is in notifier mode at that moment, nothing otherwise.
pub open spec fn send_of<S>(m: Map<u64, LifeCycle<S>>, rec: CompletionRecord) -> Seq<
    CompletionRecord,
> {
    if m.contains_key(rec.tag) && m[rec.tag] is Notify {
        seq![rec]
    } else {
        Seq::empty()
    }
}

/// Everything a drain hands to responders, in delivery order: one send per
/// record whose entry is in notifier mode when that record is dispatched —
/// so each record reaches the responder exactly once — and nothing for or
/// after a record whose dispatch faults.
pub open spec fn drain_sends<S>(
    m: Map<u64, LifeCycle<S>>,
    recs: Seq<CompletionRecord>,
) -> Seq<CompletionRecord>
    decreases recs.len(),
{
    if recs.len() == 0 {
        Seq::empty()
    } else {
        match dispatch_spec(m, recs[0]) {
            Ok(m2) => send_of(m, recs[0]) + drain_sends(m2, recs.skip(1)),
            Err(_) => Seq::empty(),
        }
    }
}

/// Appending one record to a successful drain appends exactly its send.
pub proof fn lemma_drain_sends_snoc<S>(
    m: Map<u64, LifeCycle<S>>,
    p: Seq<CompletionRecord>,
    rec: CompletionRecord,
    m1: Map<u64, LifeCycle<S>>,
)
    requires
        drain_spec(m, p) == Ok::<_, Fault>(m1),
    ensures
        drain_sends(m, p.push(rec)) == drain_sends(m, p) + send_of(m1, rec),
    decreases p.len(),
{
    if p.len() == 0 {
        assert(p.push(rec)[0] == rec);
        assert(p.push(rec).skip(1) =~= Seq::<CompletionRecord>::empty());
        match dispatch_spec(m, rec) {
            Ok(m2) => {
                assert(drain_sends(m2, p.push(rec).skip(1)) =~= Seq::<CompletionRecord>::empty());
                assert(drain_sends(m, p.push(rec)) =~= send_of(m, rec) + Seq::<
                    CompletionRecord,
                >::empty());
            },
            Err(_) => {
                assert(send_of(m, rec) =~= Seq::<CompletionRecord>::empty());
                assert(drain_sends(m, p.push(rec)) =~= Seq::<CompletionRecord>::empty());
            },
        }
        assert(drain_sends(m, p) =~= Seq::<CompletionRecord>::empty());
        assert(drain_sends(m, p.push(rec)) =~= drain_sends(m, p) + send_of(m, rec));
    } else {
        assert(p.push(rec)[0] == p[0]);
        assert(p.push(rec).skip(1) =~= p.skip(1).push(rec));
        match dispatch_spec(m, p[0]) {
            Ok(m2) => {
                lemma_drain_sends_snoc(m2, p.skip(1), rec, m1);
                assert(drain_sends(m, p.push(rec)) == send_of(m, p[0]) + drain_sends(
                    m2,
                    p.skip(1).push(rec),
                ));
                assert(send_of(m, p[0]) + (drain_sends(m2, p.skip(1)) + send_of(m1, rec)) =~= (
                send_of(m, p[0]) + drain_sends(m2, p.skip(1))) + send_of(m1, rec));
            },
            Err(_) => {
                assert(false);
            },
        }
    }
}

/// A sequence is a prefix of itself extended by anything.
proof fn lemma_extends_prefix(s: Seq<CompletionRecord>, t: Seq<CompletionRecord>)
    ensures
        s.is_prefix_of(s + t),
        s.is_prefix_of(s),
{
    assert((s + t).take(s.len() as int) =~= s);
    assert(s.take(s.len() as int) =~= s);
}

/// The life-cycle entry of one tag, if it is live.
pub open spec fn entry_at<S>(m: Map<u64, LifeCycle<S>>, k: u64) -> Option<LifeCycle<S>> {
    if m.contains_key(k) {
        Some(m[k])
    } else {
        None
    }
}

/// How the drain path may move one tag's entry: leave it as it stands,
/// advance `Submitted` or `Waiting` to `Completed`, or dispose of a
/// `Cancelled` or notify entry. Nothing else.
pub open spec fn step_forward<S>(pre: Option<LifeCycle<S>>, post: Option<LifeCycle<S>>) -> bool {
    ||| post == pre
    ||| (match (pre, post) {
        (Some(e1), Some(e2)) => (e1 is Submitted || e1 is Waiting) && e2 is Completed,
        (Some(e1), None) => e1 is Cancelled || e1 is Notify,
        _ => false,
    })
}

/// Law: draining moves every entry only forward. Dispatching any sequence
/// of completion records never creates an entry, never revives a cancelled
/// one, and only ever advances `Submitted`/`Waiting` to `Completed` or
/// disposes of `Cancelled` and single-shot notify entries. In particular
/// `Completed` never becomes `Cancelled` (a completed entry is about to be
/// consumed, not abandoned) and `Cancelled` never becomes `Waiting` (no
/// consumer remains) on this path.
pub proof fn lemma_drain_steps_forward<S>(
    m: Map<u64, LifeCycle<S>>,
    recs: Seq<CompletionRecord>,
    m2: Map<u64, LifeCycle<S>>,
    k: u64,
)
    requires
        drain_spec(m, recs) == Ok::<_, Fault>(m2),
    ensures
        step_forward(entry_at(m, k), entry_at(m2, k)),
    decreases recs.len(),
{
    if recs.len() == 0 {
    } else {
        match dispatch_spec(m, recs[0]) {
            Ok(m1) => {
                assert(step_forward(entry_at(m, k), entry_at(m1, k)));
                lemma_drain_steps_forward(m1, recs.skip(1), m2, k);
            },
            Err(_) => {
                assert(false);
            },
        }
    }
}

/// The table went from `pre` to `post` by successfully draining some
/// sequence of completion records (possibly none).
pub open spec fn drained_to<S>(pre: Map<u64, LifeCycle<S>>, post: Map<u64, LifeCycle<S>>) -> bool {
    exists|recs: Seq<CompletionRecord>| drain_spec(pre, recs) == Ok::<_, Fault>(post)
}

/// Draining some sequence of completion records from table state `pre` hit
/// the consistency violation `f`.
pub open spec fn drain_faulted<S>(pre: Map<u64, LifeCycle<S>>, f: Fault) -> bool {
    exists|recs: Seq<CompletionRecord>|
        drain_spec(pre, recs) == Err::<Map<u64, LifeCycle<S>>, _>(f)
}

/// The table went from `pre` to `post` by draining zero or more completions
/// (as a backpressure flush may surface) and then registering a `Submitted`
/// entry under `tag`, which was fresh at registration time.
pub open spec fn submitted_from<S>(
    pre: Map<u64, LifeCycle<S>>,
    post: Map<u64, LifeCycle<S>>,
    tag: u64,
) -> bool {
    exists|mid: Map<u64, LifeCycle<S>>|
        {
            &&& #[trigger] drained_to(pre, mid)
            &&& !mid.contains_key(tag)
            &&& post == mid.insert(tag, LifeCycle::<S>::Submitted)
        }
}

/// Draining nothing leaves the table as it stands.
pub proof fn lemma_drained_to_refl<S>(m: Map<u64, LifeCycle<S>>)
    ensures
        drained_to(m, m),
{
    assert(drain_spec(m, Seq::<CompletionRecord>::empty()) == Ok::<_, Fault>(m));
}

/// Owns the ring resource and the correlation table.
pub struct Driver<S, R> {
    /// The submission/completion ring pair.
    pub ring: R,
    /// The correlation table: tag to life-cycle entry.
    pub reactor: Table<LifeCycle<S>>,
    /// Every completion record handed to a responder, in delivery order.
    /// Ghost: exists only so the contracts can speak of delivery.
    pub sent: Ghost<Seq<CompletionRecord>>,
}

impl<S, R: RingResource> Driver<S, R> {
    /// The live life-cycle entries, by tag.
    pub open spec fn entries(&self) -> Map<u64, LifeCycle<S>> {
        self.reactor@
    }

    /// A driver over a fresh ring, with no live entries.
    pub fn new(ring: R) -> (d: Driver<S, R>)
        ensures
            d.entries() == Map::<u64, LifeCycle<S>>::empty(),
            d.ring == ring,
            d.sent@ == Seq::<CompletionRecord>::empty(),
    {
        Driver { ring, reactor: Table::new(), sent: Ghost(Seq::empty()) }
    }

    /// Whether `tag` names a live entry that a consumer handle owns — one
    /// that `InFlight::poll` may act on: `Submitted`, `Waiting` or
    /// `Completed`. An unverified caller tests this before polling.
    pub fn consumer_owned(&self, tag: u64) -> (r: bool)
        ensures
            r == (self.entries().contains_key(tag) && !(self.entries()[tag] is Cancelled) && !(
            self.entries()[tag] is Notify)),
    {
        match self.reactor.get(tag) {
            Some(entry) => match entry {
                LifeCycle::Submitted => true,
                LifeCycle::Waiting(_) => true,
                LifeCycle::Completed(_) => true,
                LifeCycle::Cancelled(_) => false,
                LifeCycle::Notify(_) => false,
            },
            None => false,
        }
    }

    /// Registers a `Submitted` entry under a fresh tag and pushes the
    /// descriptor, tagged with it, into the submission ring. No retry: a
    /// full ring hands the descriptor back and leaves no entry allocated.
    pub fn submit_event(&mut self, sqe: R::Desc, flags: u8) -> (r: Result<u64, R::Desc>)
        ensures
            old(self).ring.has_room() ==> r is Ok,
            match r {
                Ok(tag) => !old(self).entries().contains_key(tag)
                    && final(self).entries() == old(self).entries().insert(
                        tag,
                        LifeCycle::<S>::Submitted,
                    )
                    && final(self).ring.sq_view() == old(self).ring.sq_view().push(
                        (tag, flags, sqe),
                    ),
                Err(d) => d == sqe && final(self).entries() == old(self).entries()
                    && final(self).ring == old(self).ring,
            },
            final(self).ring.cq_view() == old(self).ring.cq_view(),
            final(self).ring.flush_count() == old(self).ring.flush_count(),
            final(self).sent == old(self).sent,
    {
        let tag = self.reactor.register(LifeCycle::Submitted);
        match self.ring.try_push(tag, flags, sqe) {
            None => Ok(tag),
            Some(d) => {
                let _ = self.reactor.remove(tag);
                proof {
                    assert(self.entries() =~= old(self).entries());
                }
                Err(d)
            },
        }
    }

    /// Dispatches one completion record against its entry, handing it to
    /// the responder when the entry is in notifier mode.
    fn dispatch_one(&mut self, rec: CompletionRecord) -> (r: Result<(), Fault>)
        ensures
            match r {
                Ok(()) => dispatch_spec(old(self).entries(), rec) == Ok::<_, Fault>(
                    final(self).entries(),
                ) && final(self).sent@ == old(self).sent@ + send_of(old(self).entries(), rec),
                Err(f) => dispatch_spec(old(self).entries(), rec) == Err::<
                    Map<u64, LifeCycle<S>>,
                    _,
                >(f) && final(self).entries() == old(self).entries() && final(self).sent == old(self).sent,
            },
            final(self).ring == old(self).ring,
    {
        let ghost sent_pre = self.sent@;
        if !self.reactor.contains(rec.tag) {
            return Err(Fault::UnknownTag(rec.tag));
        }
        let entry = self.reactor.remove(rec.tag);
        match entry {
            LifeCycle::Submitted => {
                self.reactor.reinstate(rec.tag, LifeCycle::Completed(rec));
                proof {
                    assert(self.entries() =~= old(self).entries().insert(
                        rec.tag,
                        LifeCycle::<S>::Completed(rec),
                    ));
                    assert(self.sent@ =~= old(self).sent@ + send_of(old(self).entries(), rec));
                }
                Ok(())
            },
            LifeCycle::Waiting(w) => {
                self.reactor.reinstate(rec.tag, LifeCycle::Completed(rec));
                w.wake();
                proof {
                    assert(self.entries() =~= old(self).entries().insert(
                        rec.tag,
                        LifeCycle::<S>::Completed(rec),
                    ));
                    assert(self.sent@ =~= old(self).sent@ + send_of(old(self).entries(), rec));
                }
                Ok(())
            },
            LifeCycle::Completed(prior) => {
                self.reactor.reinstate(rec.tag, LifeCycle::Completed(prior));
                proof {
                    assert(self.entries() =~= old(self).entries());
                }
                Err(Fault::DuplicateDelivery(rec.tag))
            },
            LifeCycle::Cancelled(_) => {
                // the abandoned state is released here, now that its matching
                // completion has been observed; the record itself is discarded
                proof {
                    assert(self.sent@ =~= old(self).sent@ + send_of(old(self).entries(), rec));
                }
                Ok(())
            },
            LifeCycle::Notify(Responder::OneShot(tx)) => {
                let _ = crate::notify::oneshot_send(tx, rec);
                self.sent = Ghost(sent_pre.push(rec));
                proof {
                    assert(self.sent@ =~= old(self).sent@ + send_of(old(self).entries(), rec));
                }
                Ok(())
            },
            LifeCycle::Notify(Responder::MultiShot(tx)) => {
                let _ = crate::notify::broadcast_send(&tx, rec);
                self.reactor.reinstate(rec.tag, LifeCycle::Notify(Responder::MultiShot(tx)));
                self.sent = Ghost(sent_pre.push(rec));
                proof {
                    assert(self.entries() =~= old(self).entries());
                    assert(self.sent@ =~= old(self).sent@ + send_of(old(self).entries(), rec));
                }
                Ok(())
            },
        }
    }

    /// Drains every currently available completion record, dispatching each
    /// in delivery order, and handing each notifier-mode record to its
    /// responder exactly once (the `sent` log records them). Stops at the
    /// first consistency violation, which is returned for the caller to
    /// treat as fatal: the records before it have been dispatched normally,
    /// the offending record overwrites and removes nothing, and the records
    /// after it stay queued. The submission side of the ring is never
    /// touched.
    #[verifier::loop_isolation(false)]
    pub fn complete_events(&mut self) -> (r: Result<(), Fault>)
        ensures
            final(self).ring.sq_view() == old(self).ring.sq_view(),
            final(self).ring.flush_count() == old(self).ring.flush_count(),
            old(self).sent@.is_prefix_of(final(self).sent@),
            match r {
                Ok(()) => drain_spec(old(self).entries(), old(self).ring.cq_view()) == Ok::<
                    _,
                    Fault,
                >(final(self).entries()) && final(self).ring.cq_view().len() == 0 && final(self).sent@ == old(self).sent@ + drain_sends(
                    old(self).entries(),
                    old(self).ring.cq_view(),
                ),
                Err(f) => drain_spec(old(self).entries(), old(self).ring.cq_view()) == Err::<
                    Map<u64, LifeCycle<S>>,
                    _,
                >(f) && (exists|recs: Seq<CompletionRecord>, bad: CompletionRecord|
                    {
                        &&& drain_spec(old(self).entries(), recs) == Ok::<_, Fault>(
                            final(self).entries(),
                        )
                        &&& dispatch_spec(final(self).entries(), bad) == Err::<
                            Map<u64, LifeCycle<S>>,
                            _,
                        >(f)
                        &&& old(self).ring.cq_view() == recs.push(bad) + final(self).ring.cq_view()
                        &&& final(self).sent@ == old(self).sent@ + drain_sends(
                            old(self).entries(),
                            recs,
                        )
                    }),
            },
    {
        let ghost mut done: Seq<CompletionRecord> = Seq::empty();
        proof {
            assert(old(self).ring.cq_view() =~= done + self.ring.cq_view());
            assert(drain_sends(old(self).entries(), done) =~= Seq::<CompletionRecord>::empty());
            assert(self.sent@ =~= old(self).sent@ + drain_sends(old(self).entries(), done));
        }
        loop
            invariant
                old(self).ring.cq_view() == done + self.ring.cq_view(),
                drain_spec(old(self).entries(), done) == Ok::<_, Fault>(self.entries()),
                drain_spec(old(self).entries(), old(self).ring.cq_view()) == drain_spec(
                    self.entries(),
                    self.ring.cq_view(),
                ),
                self.sent@ == old(self).sent@ + drain_sends(old(self).entries(), done),
                self.ring.sq_view() == old(self).ring.sq_view(),
                self.ring.flush_count() == old(self).ring.flush_count(),
            decreases self.ring.cq_view().len(),
        {
            match self.ring.next_completion() {
                None => {
                    proof {
                        assert(old(self).ring.cq_view() =~= done);
                        lemma_extends_prefix(
                            old(self).sent@,
                            drain_sends(old(self).entries(), done),
                        );
                    }
                    return Ok(());
                },
                Some(rec) => {
                    let ghost pre = self.entries();
                    match self.dispatch_one(rec) {
                        Ok(()) => {
                            proof {
                                lemma_drain_snoc(old(self).entries(), done, rec);
                                lemma_drain_sends_snoc(old(self).entries(), done, rec, pre);
                                assert((old(self).sent@ + drain_sends(
                                    old(self).entries(),
                                    done,
                                )) + send_of(pre, rec) =~= old(self).sent@ + (drain_sends(
                                    old(self).entries(),
                                    done,
                                ) + send_of(pre, rec)));
                                done = done.push(rec);
                                assert(old(self).ring.cq_view() =~= done + self.ring.cq_view());
                            }
                        },
                        Err(f) => {
                            proof {
                                assert(old(self).ring.cq_view() =~= done.push(rec)
                                    + self.ring.cq_view());
                                lemma_extends_prefix(
                                    old(self).sent@,
                                    drain_sends(old(self).entries(), done),
                                );
                            }
                            return Err(f);
                        },
                    }
                },
            }
        }
    }

    /// Submits one operation under the backpressure policy of the reactor:
    /// push; on a full ring, perform one blocking flush (never more), drain
    /// immediately whatever completions it surfaced, and retry the push
    /// exactly once; if the ring is still full, report `Full` with no entry
    /// left allocated. On success the ring received the descriptor paired
    /// with the returned tag as its correlation key; on failure the
    /// submission side is untouched. Except on a fault, the completion
    /// queue on return is either untouched (no flush was needed) or fully
    /// drained.
    pub fn fire_off(&mut self, sqe: R::Desc, flags: u8) -> (r: Result<u64, SubmitError<R::Desc>>)
        ensures
            old(self).ring.has_room() ==> r is Ok,
            final(self).ring.flush_count() <= old(self).ring.flush_count() + 1,
            old(self).sent@.is_prefix_of(final(self).sent@),
            match r {
                Ok(tag) => submitted_from(old(self).entries(), final(self).entries(), tag)
                    && final(self).ring.sq_view() == old(self).ring.sq_view().push(
                        (tag, flags, sqe),
                    )
                    && (final(self).ring.cq_view() == old(self).ring.cq_view() || final(self).ring.cq_view().len() == 0),
                Err(SubmitError::Full(d)) => d == sqe && drained_to(
                    old(self).entries(),
                    final(self).entries(),
                ) && final(self).ring.sq_view() == old(self).ring.sq_view() && (final(self).ring.cq_view() == old(self).ring.cq_view() || final(self).ring.cq_view().len()
                    == 0),
                Err(SubmitError::Fault(f)) => drain_faulted(old(self).entries(), f) && final(self).ring.sq_view() == old(self).ring.sq_view(),
            },
    {
        proof {
            lemma_extends_prefix(old(self).sent@, Seq::empty());
        }
        match self.submit_event(sqe, flags) {
            Ok(tag) => {
                proof {
                    lemma_drained_to_refl(old(self).entries());
                    assert(submitted_from(old(self).entries(), self.entries(), tag));
                }
                Ok(tag)
            },
            Err(d) => {
                let surfaced = self.ring.flush();
                if surfaced {
                    let ghost recs = self.ring.cq_view();
                    match self.complete_events() {
                        Ok(()) => {
                            proof {
                                assert(drain_spec(old(self).entries(), recs) == Ok::<_, Fault>(
                                    self.entries(),
                                ));
                                assert(drained_to(old(self).entries(), self.entries()));
                            }
                        },
                        Err(f) => {
                            proof {
                                assert(drain_spec(old(self).entries(), recs) == Err::<
                                    Map<u64, LifeCycle<S>>,
                                    _,
                                >(f));
                            }
                            return Err(SubmitError::Fault(f));
                        },
                    }
                } else {
                    proof {
                        lemma_drained_to_refl(old(self).entries());
                    }
                }
                match self.submit_event(d, flags) {
                    Ok(tag) => {
                        proof {
                            assert(submitted_from(old(self).entries(), self.entries(), tag));
                        }
                        Ok(tag)
                    },
                    Err(d2) => Err(SubmitError::Full(d2)),
                }
            },
        }
    }

    /// Registers an operation in the alternate, notifier delivery mode: its
    /// completions will be handed to the responder instead of resolving a
    /// poll. Uses the same single-retry backpressure policy as `fire_off`,
    /// but drains surfaced completions only after the entry is registered,
    /// since the flush may already have completed this very operation. On
    /// `Full` no entry is left allocated and the responder is dropped, which
    /// closes its channel.
    pub fn submit_oneshot(&mut self, sqe: R::Desc, flags: u8, responder: Responder) -> (r: Result<
        u64,
        SubmitError<R::Desc>,
    >)
        ensures
            old(self).ring.has_room() ==> r is Ok,
            final(self).ring.flush_count() <= old(self).ring.flush_count() + 1,
            old(self).sent@.is_prefix_of(final(self).sent@),
            match r {
                Ok(tag) => !old(self).entries().contains_key(tag) && drained_to(
                    old(self).entries().insert(tag, LifeCycle::<S>::Notify(responder)),
                    final(self).entries(),
                ) && final(self).ring.sq_view() == old(self).ring.sq_view().push(
                    (tag, flags, sqe),
                ) && (final(self).ring.cq_view() == old(self).ring.cq_view()
                    || final(self).ring.cq_view().len() == 0),
                Err(SubmitError::Full(d)) => d == sqe && drained_to(
                    old(self).entries(),
                    final(self).entries(),
                ) && final(self).ring.sq_view() == old(self).ring.sq_view() && (final(self).ring.cq_view() == old(self).ring.cq_view()
                    || final(self).ring.cq_view().len() == 0),
                Err(SubmitError::Fault(f)) => (drain_faulted(old(self).entries(), f) || exists|
                    t: u64,
                |
                    !old(self).entries().contains_key(t) && drain_faulted(
                        old(self).entries().insert(t, LifeCycle::<S>::Notify(responder)),
                        f,
                    )) && (final(self).ring.sq_view() == old(self).ring.sq_view() || exists|
                    t: u64,
                |
                    final(self).ring.sq_view() == old(self).ring.sq_view().push(
                        (t, flags, sqe),
                    )),
            },
    {
        proof {
            lemma_extends_prefix(old(self).sent@, Seq::empty());
        }
        let tag = self.reactor.register(LifeCycle::Notify(responder));
        match self.ring.try_push(tag, flags, sqe) {
            None => {
                proof {
                    lemma_drained_to_refl(self.entries());
                }
                Ok(tag)
            },
            Some(d) => {
                let surfaced = self.ring.flush();
                match self.ring.try_push(tag, flags, d) {
                    None => {
                        if surfaced {
                            let ghost mid = self.entries();
                            let ghost recs = self.ring.cq_view();
                            match self.complete_events() {
                                Ok(()) => {
                                    proof {
                                        assert(drain_spec(mid, recs) == Ok::<_, Fault>(
                                            self.entries(),
                                        ));
                                        assert(drained_to(mid, self.entries()));
                                    }
                                },
                                Err(f) => {
                                    proof {
                                        assert(!old(self).entries().contains_key(tag)
                                            && drain_faulted(
                                            old(self).entries().insert(
                                                tag,
                                                LifeCycle::<S>::Notify(responder),
                                            ),
                                            f,
                                        ));
                                        assert(self.ring.sq_view() == old(self).ring.sq_view().push((tag, flags, sqe)));
                                    }
                                    return Err(SubmitError::Fault(f));
                                },
                            }
                        } else {
                            proof {
                                lemma_drained_to_refl(self.entries());
                            }
                        }
                        Ok(tag)
                    },
                    Some(d2) => {
                        let _ = self.reactor.remove(tag);
                        proof {
                            assert(self.entries() =~= old(self).entries());
                        }
                        if surfaced {
                            let ghost pre = self.entries();
                            let ghost recs = self.ring.cq_view();
                            match self.complete_events() {
                                Ok(()) => {
                                    proof {
                                        assert(drain_spec(pre, recs) == Ok::<_, Fault>(
                                            self.entries(),
                                        ));
                                        assert(drained_to(old(self).entries(), self.entries()));
                                    }
                                },
                                Err(f) => {
                                    proof {
                                        assert(drain_faulted(pre, f));
                                    }
                                    return Err(SubmitError::Fault(f));
                                },
                            }
                        } else {
                            proof {
                                lemma_drained_to_refl(self.entries());
                            }
                        }
                        Err(SubmitError::Full(d2))
                    },
                }
            },
        }
    }
}

} // verus!
