//! What the transport's operations come to.
//!
//! A transport offers two primitives, subscribing to the frames that arrive
//! and submitting a frame for sending, and two operations built from them:
//! `read`, which subscribes and waits for one frame, and `write`, which
//! submits a frame and waits until it was handed to the stream. The waiting
//! is the runtime's business. This module holds the rules by which what the
//! runtime saw becomes what the caller is told, and the single steps of the
//! two background tasks that serve a connection.

use crate::error::Error;
use vstd::prelude::*;

verus! {

/// What became of an attempt to receive one frame.
#[derive(Debug, PartialEq, Eq)]
pub enum Delivery {
    /// No subscription could be made: the reader task is gone.
    NoSubscription,
    /// The subscription ended before it delivered anything.
    Ended,
    /// This frame was delivered.
    Frame(Vec<u8>),
}

/// What became of one submitted frame.
#[derive(Debug, PartialEq, Eq)]
pub enum Submission {
    /// The queue did not take the frame: the writer task is gone.
    Rejected,
    /// The frame was queued, and its completion signal went away unresolved.
    Dropped,
    /// The writer task resolved the completion signal with this.
    Completed(Result<Vec<u8>, Error>),
}

/// What one wait on a subscription came back with.
#[derive(Debug, PartialEq, Eq)]
pub enum Reception {
    /// This frame arrived.
    Frame(Vec<u8>),
    /// The subscription has ended: no frame will come.
    Closed,
    /// The subscriber fell behind and this many frames passed it by; the
    /// subscription goes on with the oldest frame still kept.
    Lagged(u64),
}

/// What a `read` makes of one wait on its subscription: the delivery that
/// ends the read, or `None` when it has to wait again.
pub open spec fn delivery_of(reception: Reception) -> Option<Delivery> {
    match reception {
        Reception::Frame(frame) => Some(Delivery::Frame(frame)),
        Reception::Closed => Some(Delivery::Ended),
        Reception::Lagged(_) => None,
    }
}

/// One step of a `read` that has its subscription: a frame or the end of the
/// subscription ends the read, and a subscriber that has fallen behind waits
/// again, for the oldest frame still kept.
pub fn read_step(reception: Reception) -> (delivery: Option<Delivery>)
    ensures
        delivery == delivery_of(reception),
{
    match reception {
        Reception::Frame(frame) => Some(Delivery::Frame(frame)),
        Reception::Closed => Some(Delivery::Ended),
        Reception::Lagged(_) => None,
    }
}

/// The result of `read`: the delivered frame, or
/// [`Error::TransportClosed`] when there is none to come.
pub open spec fn read_result(delivery: Delivery) -> Result<Vec<u8>, Error> {
    match delivery {
        Delivery::Frame(frame) => Ok(frame),
        Delivery::NoSubscription | Delivery::Ended => Err(Error::TransportClosed),
    }
}

/// The result of `write`: what the writer task reported for this frame,
/// [`Error::TransportClosed`] when the frame was never queued, and
/// [`Error::BrokenPipe`] when it was queued and never answered.
pub open spec fn write_result(submission: Submission) -> Result<Vec<u8>, Error> {
    match submission {
        Submission::Completed(reported) => reported,
        Submission::Rejected => Err(Error::TransportClosed),
        Submission::Dropped => Err(Error::BrokenPipe),
    }
}

/// What `read` returns to its caller.
pub fn read_outcome(delivery: Delivery) -> (outcome: Result<Vec<u8>, Error>)
    ensures
        outcome == read_result(delivery),
{
    match delivery {
        Delivery::Frame(frame) => Ok(frame),
        Delivery::NoSubscription | Delivery::Ended => Err(Error::TransportClosed),
    }
}

/// What `write` returns to its caller.
pub fn write_outcome(submission: Submission) -> (outcome: Result<Vec<u8>, Error>)
    ensures
        outcome == write_result(submission),
{
    match submission {
        Submission::Completed(reported) => reported,
        Submission::Rejected => Err(Error::TransportClosed),
        Submission::Dropped => Err(Error::BrokenPipe),
    }
}

/// What the reader task does with what the framed stream gave it.
#[derive(Debug, PartialEq, Eq)]
pub enum ReaderStep {
    /// Send this frame to every subscriber there is now, and read on whether
    /// or not there was one.
    Broadcast(Vec<u8>),
    /// The stream has ended: leave the loop, which closes every
    /// subscription.
    Exit,
}

/// One round of the reader task: `item` is the next frame of the stream, or
/// `None` at its end.
pub fn rx_task_step(item: Option<Vec<u8>>) -> (step: ReaderStep)
    ensures
        step == match item {
            Some(frame) => ReaderStep::Broadcast(frame),
            None => ReaderStep::Exit,
        },
{
    match item {
        Some(frame) => ReaderStep::Broadcast(frame),
        None => ReaderStep::Exit,
    }
}

/// What the completion signal of the frame `data` is resolved with, once
/// the stream has taken the frame or failed to: the frame as it was, or the
/// failure.
pub open spec fn completion_of(data: Vec<u8>, written: Result<(), Error>) -> Result<
    Vec<u8>,
    Error,
> {
    match written {
        Ok(_) => Ok(data),
        Err(error) => Err(error),
    }
}

/// One round of the writer task, after the frame `data` was given to the
/// stream with the result `written`: what to resolve the frame's completion
/// signal with, if it has one. Whatever the result, the task goes on to the
/// next frame.
pub fn tx_task_step(data: Vec<u8>, has_callback: bool, written: Result<(), Error>) -> (completion:
    Option<Result<Vec<u8>, Error>>)
    ensures
        completion == if has_callback {
            Some(completion_of(data, written))
        } else {
            None
        },
{
    if has_callback {
        Some(
            match written {
                Ok(_) => Ok(data),
                Err(error) => Err(error),
            },
        )
    } else {
        None
    }
}

/// Once the background tasks are gone, nothing can be subscribed to and
/// nothing submitted is answered: every `read` then ends in
/// [`Error::TransportClosed`], and every `write` in
/// [`Error::TransportClosed`] or [`Error::BrokenPipe`].
pub proof fn law_closed_transport_fails(delivery: Delivery, submission: Submission)
    requires
        delivery is NoSubscription || delivery is Ended,
        submission is Rejected || submission is Dropped,
    ensures
        read_result(delivery) == Err::<Vec<u8>, Error>(Error::TransportClosed),
        write_result(submission) == Err::<Vec<u8>, Error>(Error::TransportClosed)
            || write_result(submission) == Err::<Vec<u8>, Error>(Error::BrokenPipe),
{
}

} // verus!
