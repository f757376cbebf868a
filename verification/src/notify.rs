//! Telling the foreground that the background has processed a block.

use crate::error::Error;
use crate::types::MonitorId;
use crossbeam_channel::{SendError, Sender};
use vstd::prelude::*;

verus! {

/// `crossbeam_channel::Sender`: the sending side of a channel. Nothing is
/// claimed of its contents.
#[verifier::external_type_specification]
#[verifier::external_body]
#[verifier::reject_recursive_types(T)]
pub struct ExSender<T>(Sender<T>);

/// `Sender::send` of `crossbeam_channel`: it hands the message to the
/// channel, waiting while a bounded channel is full, and fails only when the
/// receiving side is gone. Whether it succeeds depends on the other side, so
/// nothing is claimed of the result.
pub assume_specification<T>[ Sender::<T>::send ](sender: &Sender<T>, msg: T) -> (r: Result<
    (),
    SendError<T>,
>)
;

/// A block was processed for a monitor.
#[derive(Clone, Copy, Debug, PartialEq, Eq, Structural)]
pub struct BlockProcessed {
    pub monitor_id: MonitorId,
    /// Height of the block.
    pub block_index: u64,
    /// The number of outputs of the monitor that the block brought.
    pub found: usize,
}

/// What the engine makes of the outcome of a send: a message that could not
/// be sent is a send failure, whatever the message was.
pub fn send_outcome(sent: Result<(), SendError<BlockProcessed>>) -> (r: Result<(), Error>)
    ensures
        match sent {
            Ok(_) => r is Ok,
            Err(_) => r matches Err(e) && e == Error::ChannelSend,
        },
{
    match sent {
        Ok(_) => Ok(()),
        Err(e) => Err(Error::from(e)),
    }
}

/// Sends `event` to the foreground. Where the receiving side is gone this is
/// a send failure; the sender goes on.
pub fn notify(sender: &Sender<BlockProcessed>, event: BlockProcessed) -> (r: Result<(), Error>)
    ensures
        r matches Err(e) ==> e == Error::ChannelSend,
{
    send_outcome(sender.send(event))
}

} // verus!
