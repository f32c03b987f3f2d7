//! The way from the capture buffers to the aggregator: an unbounded channel
//! that any number of producers may share.

use crate::buffer::FnTimer;
use crate::error::Error;
use crate::record::TimeMsg;
use std::sync::mpsc::{Receiver, SendError, Sender};
use vstd::prelude::*;

verus! {

/// `std::sync::mpsc::Sender`, the sending end of a channel. Its inside is not
/// looked at.
#[verifier::external_type_specification]
#[verifier::external_body]
#[verifier::reject_recursive_types(T)]
pub struct ExSender<T>(Sender<T>);

/// `std::sync::mpsc::Receiver`, the receiving end of a channel. Its inside is
/// not looked at.
#[verifier::external_type_specification]
#[verifier::external_body]
#[verifier::reject_recursive_types(T)]
pub struct ExReceiver<T>(Receiver<T>);

/// `std::sync::mpsc::SendError`, which hands back a value that could not be
/// sent. Its inside is not looked at.
#[verifier::external_type_specification]
#[verifier::external_body]
#[verifier::reject_recursive_types(T)]
pub struct ExSendError<T>(SendError<T>);

/// `std::sync::mpsc::channel` makes the two ends of a new channel; nothing
/// is assumed of them.
pub assume_specification<T>[ std::sync::mpsc::channel::<T> ]() -> (ends: (Sender<T>, Receiver<T>))
;

/// `Sender::send` puts a value on the channel without waiting, and fails
/// once the receiving end is gone. Which of the two happens is not assumed.
pub assume_specification<T>[ Sender::<T>::send ](tx: &Sender<T>, t: T) -> (res: Result<
    (),
    SendError<T>,
>)
;

/// The sending end of the transport. Any number of producers may share it.
pub struct Collector {
    tx: Sender<TimeMsg>,
}

/// What a send comes to, given whether the channel took the reading: a
/// reading that was not taken is lost, and the loss is reported as a closed
/// transport.
pub fn delivery(taken: bool) -> (res: Result<(), Error>)
    ensures
        res == if taken {
            Ok::<(), Error>(())
        } else {
            Err::<(), Error>(Error::TransportClosed)
        },
{
    if taken {
        Ok(())
    } else {
        Err(Error::TransportClosed)
    }
}

impl Collector {
    /// The channel end that this collector sends on.
    pub closed spec fn channel(&self) -> Sender<TimeMsg> {
        self.tx
    }

    /// A collector that sends on `tx`.
    pub fn new(tx: Sender<TimeMsg>) -> (collector: Collector)
        ensures
            collector.channel() == tx,
    {
        Collector { tx }
    }

    /// Drains both sequences of `fnt` into one reading and puts it on the
    /// transport. The buffer is empty afterwards whether or not the reading
    /// was taken; the only failure is a transport whose receiving end is gone.
    pub fn send(&self, fnt: &mut FnTimer) -> (res: Result<(), Error>)
        requires
            old(fnt).wf(),
        ensures
            final(fnt).wf(),
            final(fnt)@ == old(fnt)@.without_spots().without_counters(),
            res is Err ==> res == Err::<(), Error>(Error::TransportClosed),
    {
        let msg = fnt.drain();
        let taken = match self.tx.send(msg) {
            Ok(_) => true,
            Err(_) => false,
        };
        delivery(taken)
    }
}

} // verus!
