use vstd::prelude::*;

use crate::bz_task::info::BzTaskControl;
use crate::error::BzTaskControlSendError;

verus! {

/// tokio's bounded multi-producer single-consumer sender. Task records carry
/// one of these, opaquely, to address the control channel of their live
/// worker.
#[verifier::external_type_specification]
#[verifier::external_body]
#[verifier::reject_recursive_types(T)]
pub struct ExSender<T>(tokio::sync::mpsc::Sender<T>);

/// tokio's owned handle to a spawned concurrent unit. Task records carry one,
/// opaquely, so the worker's termination can be observed out-of-band.
#[verifier::external_type_specification]
#[verifier::external_body]
#[verifier::reject_recursive_types(T)]
pub struct ExJoinHandle<T>(tokio::task::JoinHandle<T>);

/// The error of joining a tokio handle; never inspected here, declared only
/// because the handle's own declaration needs it.
#[verifier::external_type_specification]
#[verifier::external_body]
pub struct ExJoinError(tokio::task::JoinError);

/// Relies on tokio's `Sender::try_send`: a non-blocking send that either
/// queues the message, or hands it back untouched as `Full` (the bounded
/// channel is at capacity) or `Closed` (the receiver is gone).
#[verifier::external_body]
pub(crate) fn try_send_control(
    sender: &tokio::sync::mpsc::Sender<BzTaskControl>,
    message: BzTaskControl,
) -> (r: Result<(), BzTaskControlSendError>)
    ensures
        r matches Err(BzTaskControlSendError::Full(m)) ==> m == message,
        r matches Err(BzTaskControlSendError::Closed(m)) ==> m == message,
{
    match sender.try_send(message) {
        Ok(()) => Ok(()),
        Err(tokio::sync::mpsc::error::TrySendError::Full(m)) => Err(
            BzTaskControlSendError::Full(m),
        ),
        Err(tokio::sync::mpsc::error::TrySendError::Closed(m)) => Err(
            BzTaskControlSendError::Closed(m),
        ),
    }
}

} // verus!
