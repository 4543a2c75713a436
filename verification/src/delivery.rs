//! The decision made when a message is handed to a connected client's
//! delivery channel.
use vstd::prelude::*;
use crate::messaging_types::DeliveryResult;
use crate::text::push_str;

verus! {

/// How handing a message to the target's delivery channel went.
#[derive(Debug, Clone, Copy, PartialEq, Eq, Structural)]
pub enum SendAttempt {
    /// The target has no delivery channel.
    Offline,
    /// The message was placed in the channel's buffer.
    Sent,
    /// The channel's buffer is full.
    Full,
    /// The channel was closed by the receiving side.
    Closed,
}

/// The delivery result for a message to `target`: delivered when sent,
/// queued when the target is offline or its channel is closed, failed when
/// the channel is full.
pub fn delivery_outcome(target: &str, attempt: SendAttempt) -> (r: DeliveryResult)
    ensures
        attempt == SendAttempt::Sent ==> r == DeliveryResult::Delivered,
        (attempt == SendAttempt::Offline || attempt == SendAttempt::Closed) ==> r == DeliveryResult::Queued,
        attempt == SendAttempt::Full ==> (r matches DeliveryResult::Failed(m) && m@ == "channel full for client "@ + target@),
{
    match attempt {
        SendAttempt::Sent => DeliveryResult::Delivered,
        SendAttempt::Offline | SendAttempt::Closed => DeliveryResult::Queued,
        SendAttempt::Full => {
            let mut m = String::new();
            push_str(&mut m, "channel full for client ");
            push_str(&mut m, target);
            DeliveryResult::Failed(m)
        },
    }
}

/// Whether the target's delivery channel must be forgotten: it is when the
/// receiving side closed it.
pub fn drops_sender(attempt: SendAttempt) -> (b: bool)
    ensures
        b == (attempt == SendAttempt::Closed),
{
    attempt == SendAttempt::Closed
}

} // verus!
