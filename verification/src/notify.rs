//! The multi-completion notifier: for operations whose single submission may
//! legitimately yield many completion records over time, each record is
//! delivered to subscribers through a channel instead of resolving a poll.

use vstd::prelude::*;

use crate::record::CompletionRecord;

verus! {

/// Verus-visible declaration of tokio's single-use channel sender.
#[verifier::external_type_specification]
#[verifier::external_body]
#[verifier::reject_recursive_types(T)]
pub struct ExOneshotSender<T>(tokio::sync::oneshot::Sender<T>);

/// Verus-visible declaration of tokio's broadcast channel sender.
#[verifier::external_type_specification]
#[verifier::external_body]
#[verifier::reject_recursive_types(T)]
pub struct ExBroadcastSender<T>(tokio::sync::broadcast::Sender<T>);

/// How the completions of one notifier-mode operation reach whoever asked
/// for them.
pub enum Responder {
    /// Single-consumer, single-delivery: one subscriber receives exactly one
    /// record; delivering it consumes the channel and removes the entry.
    OneShot(tokio::sync::oneshot::Sender<CompletionRecord>),
    /// Multi-consumer fan-out: every current subscriber receives every
    /// record, and the entry is retained until explicit teardown. A
    /// subscriber that falls behind the channel's retention window misses
    /// the oldest unread records rather than stalling the drain for others.
    MultiShot(tokio::sync::broadcast::Sender<CompletionRecord>),
}

impl Responder {
    /// The single-use sender behind this responder, when it is single-shot.
    pub fn one_shot(self) -> (r: Option<tokio::sync::oneshot::Sender<CompletionRecord>>)
        ensures
            r is Some <==> self is OneShot,
            self matches Responder::OneShot(tx) ==> r == Some(tx),
    {
        match self {
            Responder::OneShot(x) => Some(x),
            Responder::MultiShot(_) => None,
        }
    }
}

/// Hands one record to the single subscriber. Relies on tokio's
/// `oneshot::Sender::send`: the value reaches the receiver unless it has
/// already hung up, and the channel is consumed either way. Whether delivery
/// succeeded depends on the receiver's side, so nothing is promised of the
/// result.
#[verifier::external_body]
pub(crate) fn oneshot_send(
    tx: tokio::sync::oneshot::Sender<CompletionRecord>,
    rec: CompletionRecord,
) -> bool {
    tx.send(rec).is_ok()
}

/// Fans one record out to every current subscriber. Relies on tokio's
/// `broadcast::Sender::send`: each live receiver that does not lag past the
/// channel's retention window will observe the record; the result says only
/// whether any receiver existed. Delivery depends on the receivers' side, so
/// nothing is promised of the result.
#[verifier::external_body]
pub(crate) fn broadcast_send(
    tx: &tokio::sync::broadcast::Sender<CompletionRecord>,
    rec: CompletionRecord,
) -> bool {
    tx.send(rec).is_ok()
}

} // verus!
