//! Waiting until everything that was submitted has completed.
use crate::entry::{flush_entry, Entry};
use crate::error::UringError;
use crate::read::Received;
use crate::task::UringTask;
use std::sync::Arc;
use vstd::prelude::*;

verus! {

/// What has happened to a flush.
#[derive(Debug, PartialEq, Eq)]
pub enum FlushEvent {
    /// It begins; `user_data` stands for its task.
    Started { user_data: u64 },
    /// The queue was full, and gave the entry back.
    Refused(Entry),
    /// The queue took the entry.
    Pushed,
    /// The completion channel was looked at.
    Received(Received),
}

/// What has to be done for a flush.
#[derive(Debug, PartialEq, Eq)]
pub enum FlushAction<E> {
    /// Push this entry, and report `Refused` or `Pushed`.
    Push(Entry),
    /// Look at the completion channel, and report `Received`.
    Receive,
    /// Wait for the completion channel.
    Park,
    /// Return this result.
    Finish(Result<(), UringError<E>>),
}

/// What a flush does after an event: it pushes until the queue takes its entry,
/// and succeeds with the code 0 alone.
pub open spec fn flush_action<E>(event: FlushEvent) -> FlushAction<E> {
    match event {
        FlushEvent::Started { user_data } => FlushAction::Push(flush_entry(user_data)),
        FlushEvent::Refused(entry) => FlushAction::Push(entry),
        FlushEvent::Pushed => FlushAction::Receive,
        FlushEvent::Received(Received::Empty) => FlushAction::Park,
        FlushEvent::Received(Received::Value(0)) => FlushAction::Finish(Ok(())),
        FlushEvent::Received(_) => FlushAction::Finish(Err(UringError::Other("failed to recv"))),
    }
}

/// A flush under way.
pub struct UringFlushFuture<R> {
    pub ring: Arc<R>,
    pub task: UringTask,
    pub rx: tokio::sync::oneshot::Receiver<i32>,
}

impl<R> UringFlushFuture<R> {
    /// A flush of this ring that has not begun yet.
    pub fn new(ring: Arc<R>) -> (flush: Self)
        ensures
            flush.ring == ring,
            flush.task.reports_to(flush.rx),
    {
        let (task, rx) = UringTask::new();
        UringFlushFuture { ring, task, rx }
    }

    /// A flush, event by event, until the action is to return.
    pub fn poll<E>(event: FlushEvent) -> (action: FlushAction<E>)
        ensures
            action == flush_action::<E>(event),
    {
        match event {
            FlushEvent::Started { user_data } => FlushAction::Push(Entry::flush(user_data)),
            FlushEvent::Refused(entry) => FlushAction::Push(entry),
            FlushEvent::Pushed => FlushAction::Receive,
            FlushEvent::Received(Received::Empty) => FlushAction::Park,
            FlushEvent::Received(Received::Closed) => FlushAction::Finish(
                Err(UringError::Other("failed to recv")),
            ),
            FlushEvent::Received(Received::Value(code)) => {
                if code == 0 {
                    FlushAction::Finish(Ok(()))
                } else {
                    FlushAction::Finish(Err(UringError::Other("failed to recv")))
                }
            },
        }
    }
}

/// The entry that is pushed after so many refusals, each of which gave back
/// the entry that was pushed before.
pub open spec fn entry_after_refusals<E>(user_data: u64, refusals: nat) -> Entry
    decreases refusals,
{
    let event = if refusals == 0 {
        FlushEvent::Started { user_data }
    } else {
        FlushEvent::Refused(entry_after_refusals::<E>(user_data, (refusals - 1) as nat))
    };
    flush_action::<E>(event)->Push_0
}

/// However often the queue is full, what a flush pushes in the end is the entry
/// that waits for everything submitted before it.
pub proof fn law_flush_pushes_one_entry<E>(user_data: u64, refusals: nat)
    ensures
        entry_after_refusals::<E>(user_data, refusals) == flush_entry(user_data),
        flush_entry(user_data).drain,
    decreases refusals,
{
    if refusals > 0 {
        law_flush_pushes_one_entry::<E>(user_data, (refusals - 1) as nat);
    }
}

} // verus!
