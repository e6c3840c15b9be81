//! The end of an operation that the poller reports to.
use crate::channel::{completion_channel, one_channel, send_completion, sent_over};
use vstd::prelude::*;

verus! {

/// Holds the sender of the one completion code that its operation waits for,
/// until that code has been sent.
pub struct UringTask {
    pub complete: Option<tokio::sync::oneshot::Sender<i32>>,
}

impl UringTask {
    /// Whether the task still waits for its completion code.
    pub open spec fn armed(self) -> bool {
        self.complete is Some
    }

    /// The code that the task sends arrives at this receiver.
    pub open spec fn reports_to(self, rx: tokio::sync::oneshot::Receiver<i32>) -> bool {
        self.complete matches Some(tx) && one_channel(tx, rx)
    }

    /// A task that waits for its code, and the receiver that the code goes to.
    pub fn new() -> (pair: (UringTask, tokio::sync::oneshot::Receiver<i32>))
        ensures
            pair.0.armed(),
            pair.0.reports_to(pair.1),
    {
        let (tx, rx) = completion_channel();
        (UringTask { complete: Some(tx) }, rx)
    }

    /// Whether the task still waits for its completion code.
    pub fn is_armed(&self) -> (armed: bool)
        ensures
            armed == self.armed(),
    {
        self.complete.is_some()
    }

    /// Sends the completion code to the task's receiver, which can be done once.
    /// The code comes back where nobody is left to receive it.
    pub fn finish(&mut self, result: i32) -> (sent: Result<(), i32>)
        requires
            old(self).armed(),
        ensures
            !final(self).armed(),
            sent_over(old(self).complete->0, result, sent),
            sent matches Err(returned) ==> returned == result,
    {
        let sender = self.complete.take().unwrap();
        send_completion(sender, result)
    }
}

} // verus!
