//! The outbound side of a peer's message channel. The registry stores one
//! sender per peer; the hub pushes messages through it. Both operations come
//! from the `futures` unbounded mpsc channel and are taken on trust.
use vstd::prelude::*;

use crate::message::DesktopdMessage;

verus! {

#[verifier::external_type_specification]
#[verifier::external_body]
#[verifier::reject_recursive_types(T)]
pub struct ExUnboundedSender<T>(futures::channel::mpsc::UnboundedSender<T>);

/// The sending half of a peer's outbound message channel.
pub type Tx = futures::channel::mpsc::UnboundedSender<DesktopdMessage>;

/// Relies on `UnboundedSender::unbounded_send`: it queues the message and
/// returns `Ok` unless the receiving half is gone. Whether a send is
/// accepted depends on the receiver's state, so nothing is promised of the
/// result.
#[verifier::external_body]
pub fn send_to(tx: &Tx, msg: DesktopdMessage) -> (accepted: bool) {
    tx.unbounded_send(msg).is_ok()
}

/// Relies on `Clone` for `UnboundedSender`: a sender is a handle to its
/// channel's queue, and a clone is a handle to the same queue, so the clone
/// is the same sender value.
#[verifier::external_body]
pub fn clone_tx(tx: &Tx) -> (r: Tx)
    ensures
        r == *tx,
{
    tx.clone()
}

} // verus!
