//! The channels between the tasks: one that carries a single completion code,
//! and one over which the pollers are told to stop.
use vstd::prelude::*;

verus! {

/// The sending half of tokio's one-shot channel, an opaque value.
#[verifier::external_type_specification]
#[verifier::external_body]
#[verifier::reject_recursive_types(T)]
pub struct ExOneshotSender<T>(tokio::sync::oneshot::Sender<T>);

/// The receiving half of tokio's one-shot channel, an opaque value.
#[verifier::external_type_specification]
#[verifier::external_body]
#[verifier::reject_recursive_types(T)]
pub struct ExOneshotReceiver<T>(tokio::sync::oneshot::Receiver<T>);

/// The error of tokio's one-shot receiver, an opaque value. It is the output
/// type of the receiver's own `Future` impl, and is used nowhere else.
#[verifier::external_type_specification]
#[verifier::external_body]
pub struct ExOneshotRecvError(tokio::sync::oneshot::error::RecvError);

/// The sending half of a crossbeam channel, an opaque value.
#[verifier::external_type_specification]
#[verifier::external_body]
#[verifier::reject_recursive_types(T)]
pub struct ExCrossbeamSender<T>(crossbeam_channel::Sender<T>);

/// The receiving half of a crossbeam channel, an opaque value.
#[verifier::external_type_specification]
#[verifier::external_body]
#[verifier::reject_recursive_types(T)]
pub struct ExCrossbeamReceiver<T>(crossbeam_channel::Receiver<T>);

/// What a look at the finish channel found.
#[derive(Debug, Clone, Copy, PartialEq, Eq, Structural)]
pub enum FinishSignal {
    /// No message, and the sender is still there.
    Empty,
    /// No message, and the sender is gone.
    Disconnected,
    /// A message.
    Received,
}

/// The two are the halves of one channel: what is sent by the first arrives at
/// the second, and nowhere else.
pub uninterp spec fn one_channel(
    tx: tokio::sync::oneshot::Sender<i32>,
    rx: tokio::sync::oneshot::Receiver<i32>,
) -> bool;

/// This code was handed to this sender's `send`, and this came of it.
pub uninterp spec fn sent_over(
    tx: tokio::sync::oneshot::Sender<i32>,
    code: i32,
    outcome: Result<(), i32>,
) -> bool;

/// The finish channel that a sender belongs to.
pub uninterp spec fn finish_of_sender(tx: crossbeam_channel::Sender<()>) -> int;

/// The finish channel that a receiver belongs to.
pub uninterp spec fn finish_of_receiver(rx: crossbeam_channel::Receiver<()>) -> int;

/// A look at this receiver found this. Later looks may find something else.
pub uninterp spec fn found_in(rx: crossbeam_channel::Receiver<()>, signal: FinishSignal) -> bool;

/// Calls `tokio::sync::oneshot::channel`: a new channel for one completion
/// code. What it returns are the two halves of one channel.
#[verifier::external_body]
pub(crate) fn completion_channel() -> (pair: (
    tokio::sync::oneshot::Sender<i32>,
    tokio::sync::oneshot::Receiver<i32>,
))
    ensures
        one_channel(pair.0, pair.1),
{
    tokio::sync::oneshot::channel()
}

/// Calls `tokio::sync::oneshot::Sender::send` on this sender, with this value.
/// Whether the value goes through depends on the receiving task; where it does
/// not, `send` hands back the very value that it was given.
#[verifier::external_body]
pub(crate) fn send_completion(sender: tokio::sync::oneshot::Sender<i32>, result: i32) -> (sent:
    Result<(), i32>)
    ensures
        sent_over(sender, result, sent),
        sent matches Err(returned) ==> returned == result,
{
    sender.send(result)
}

/// Calls `crossbeam_channel::unbounded`: a new finish channel. What it returns
/// are a sender and a receiver of one channel.
#[verifier::external_body]
pub(crate) fn finish_channel() -> (pair: (
    crossbeam_channel::Sender<()>,
    crossbeam_channel::Receiver<()>,
))
    ensures
        finish_of_sender(pair.0) == finish_of_receiver(pair.1),
{
    crossbeam_channel::unbounded()
}

/// Calls `clone` of `crossbeam_channel::Receiver`: another receiver of the same
/// channel.
#[verifier::external_body]
pub(crate) fn share_finish(finish: &crossbeam_channel::Receiver<()>) -> (other:
    crossbeam_channel::Receiver<()>)
    ensures
        finish_of_receiver(other) == finish_of_receiver(*finish),
{
    finish.clone()
}

/// Calls `crossbeam_channel::Receiver::try_recv` on this receiver, which does
/// not block. What it finds depends on the other tasks: all that is claimed is
/// that this is what was found there.
#[verifier::external_body]
pub(crate) fn look_for_finish(finish: &crossbeam_channel::Receiver<()>) -> (signal: FinishSignal)
    ensures
        found_in(*finish, signal),
{
    match finish.try_recv() {
        Ok(()) => FinishSignal::Received,
        Err(crossbeam_channel::TryRecvError::Empty) => FinishSignal::Empty,
        Err(crossbeam_channel::TryRecvError::Disconnected) => FinishSignal::Disconnected,
    }
}

} // verus!
