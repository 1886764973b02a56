//! The channel on which complete frames are shown to whoever watches.

use tokio::sync::watch::{Receiver, Sender};
use vstd::prelude::*;
use crate::frame::A010Frame;

verus! {

/// The sending end of a channel that holds the value sent last.
#[verifier::external_type_specification]
#[verifier::external_body]
#[verifier::reject_recursive_types(T)]
pub struct ExSender<T>(tokio::sync::watch::Sender<T>);

/// The receiving end of such a channel.
#[verifier::external_type_specification]
#[verifier::external_body]
#[verifier::reject_recursive_types(T)]
pub struct ExReceiver<T>(tokio::sync::watch::Receiver<T>);

/// The sending end of the channel of frames.
pub type FrameSender = Sender<A010Frame>;

/// The receiving end of the channel of frames.
pub type FrameReceiver = Receiver<A010Frame>;

/// The frames that a channel has held, oldest first. It holds the last of them, and that is the one
/// that its receiving ends show.
pub uninterp spec fn held(sender: Sender<A010Frame>) -> Seq<A010Frame>;

/// The two ends belong to one channel. An end belongs to the channel that it was made with for as
/// long as it is there.
pub uninterp spec fn linked(sender: Sender<A010Frame>, receiver: Receiver<A010Frame>) -> bool;

/// A send on the channel has found that no receiving end is left. This stays so: receiving ends
/// come only from other receiving ends, as the sending end makes none here.
pub uninterp spec fn abandoned(sender: Sender<A010Frame>) -> bool;

/// Calls `tokio::sync::watch::channel`.
///
/// Claims that the two ends belong to one channel, that it holds the frame that it is made with and
/// has held no other, and that it is not abandoned. When a receiving end is read is up to those who
/// hold it.
#[verifier::external_body]
pub(crate) fn frame_channel(frame: A010Frame) -> (ends: (Sender<A010Frame>, Receiver<A010Frame>))
    ensures
        held(ends.0) == seq![frame],
        linked(ends.0, ends.1),
        !abandoned(ends.0),
{
    tokio::sync::watch::channel(frame)
}

/// Calls `Sender::send`, which fails when no receiving end is left.
///
/// Claims that the channel holds the frame, after those that it has held before, and is not
/// abandoned, if the frame was sent. If it was not, the channel holds what it held before and is
/// abandoned, and an abandoned channel is sent nothing any more. Either way the sending end belongs
/// to the channel that it belonged to. Whether a receiving end is left is up to those who hold
/// them. Only a sending end changes what the channel holds, and there is only this one. The call
/// waits while a borrow of what a receiving end shows is alive.
#[verifier::external_body]
pub(crate) fn send_frame(sender: &mut Sender<A010Frame>, frame: A010Frame) -> (sent: bool)
    ensures
        sent ==> held(*final(sender)) == held(*old(sender)).push(frame) && !abandoned(
            *final(sender),
        ),
        !sent ==> held(*final(sender)) == held(*old(sender)) && abandoned(*final(sender)),
        abandoned(*old(sender)) ==> !sent,
        forall|receiver: Receiver<A010Frame>| #[trigger]
            linked(*final(sender), receiver) == linked(*old(sender), receiver),
{
    sender.send(frame).is_ok()
}

} // verus!
