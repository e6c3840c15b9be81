//! The task that submits what was pushed and hands out what was completed.
use crate::channel::{found_in, look_for_finish, FinishSignal};
use std::sync::Arc;
use vstd::prelude::*;

verus! {

/// A completed operation: the value that its entry carried, and the kernel's
/// code.
#[derive(Debug, Clone, Copy, PartialEq, Eq, Structural)]
pub struct Completion {
    pub user_data: u64,
    pub result: i32,
}

/// What has happened to a poller.
#[derive(Debug, PartialEq, Eq)]
pub enum PollEvent<E> {
    /// It is polled, and the finish channel was looked at.
    Signalled(FinishSignal),
    /// The ring was told to submit.
    Submitted(Result<usize, E>),
    /// The completion queue was asked for its next entry.
    Popped(Option<Completion>),
    /// A completion was delivered.
    Delivered,
}

/// What a poller has to do.
#[derive(Debug, PartialEq, Eq)]
pub enum PollAction<E> {
    /// Have the ring submit, and report `Submitted`.
    Submit,
    /// Ask the completion queue for its next entry, and report `Popped`.
    Pop,
    /// Finish the task that `user_data` stands for with `result`, and report
    /// `Delivered`.
    Deliver(Completion),
    /// Ask to be polled again at once, and return pending.
    Yield,
    /// Return this result.
    Finish(Result<(), E>),
}

/// What a poller does after an event. A poller remembers nothing between two
/// events.
pub open spec fn poll_action<E>(event: PollEvent<E>) -> PollAction<E> {
    match event {
        PollEvent::Signalled(FinishSignal::Empty) => PollAction::Submit,
        PollEvent::Signalled(_) => PollAction::Finish(Ok(())),
        PollEvent::Submitted(Err(err)) => PollAction::Finish(Err(err)),
        PollEvent::Submitted(Ok(_)) => PollAction::Pop,
        PollEvent::Popped(Some(completion)) => PollAction::Deliver(completion),
        PollEvent::Popped(None) => PollAction::Yield,
        PollEvent::Delivered => PollAction::Pop,
    }
}

/// A poller of the ring, which runs until it is told to finish.
pub struct UringPollFuture<R> {
    pub ring: Arc<R>,
    pub finish: crossbeam_channel::Receiver<()>,
}

impl<R> UringPollFuture<R> {
    /// The beginning of a poll: looks at the finish channel. Which of its two
    /// answers is given depends on what the channel holds.
    pub fn start<E>(&self) -> (action: PollAction<E>)
        ensures
            exists|signal: FinishSignal| #[trigger]
                found_in(self.finish, signal) && action == poll_action(
                    PollEvent::<E>::Signalled(signal),
                ),
    {
        let signal = look_for_finish(&self.finish);
        Self::poll(PollEvent::Signalled(signal))
    }

    /// A poll, event by event, until the action is to return.
    pub fn poll<E>(event: PollEvent<E>) -> (action: PollAction<E>)
        ensures
            action == poll_action(event),
    {
        match event {
            PollEvent::Signalled(FinishSignal::Empty) => PollAction::Submit,
            PollEvent::Signalled(FinishSignal::Disconnected) => PollAction::Finish(Ok(())),
            PollEvent::Signalled(FinishSignal::Received) => PollAction::Finish(Ok(())),
            PollEvent::Submitted(Err(err)) => PollAction::Finish(Err(err)),
            PollEvent::Submitted(Ok(_)) => PollAction::Pop,
            PollEvent::Popped(Some(completion)) => PollAction::Deliver(completion),
            PollEvent::Popped(None) => PollAction::Yield,
            PollEvent::Delivered => PollAction::Pop,
        }
    }
}

/// How far an event is from the end of a poll in which nothing more is found.
pub open spec fn distance<E>(event: PollEvent<E>) -> nat {
    match event {
        PollEvent::Signalled(_) => 3,
        PollEvent::Submitted(_) | PollEvent::Popped(Some(_)) => 2,
        PollEvent::Delivered => 1,
        PollEvent::Popped(None) => 0,
    }
}

/// The actions of a poll from an event on, each of which is performed and
/// reported: to submit has this outcome, and these completions are in the queue.
pub open spec fn actions_from<E>(
    event: PollEvent<E>,
    outcome: Result<usize, E>,
    queue: Seq<Completion>,
) -> Seq<PollAction<E>>
    decreases queue.len(), distance(event),
{
    let action = poll_action(event);
    let later = match action {
        PollAction::Submit => actions_from(PollEvent::Submitted(outcome), outcome, queue),
        PollAction::Pop => if queue.len() == 0 {
            actions_from(PollEvent::Popped(None), outcome, queue)
        } else {
            actions_from(PollEvent::Popped(Some(queue.first())), outcome, queue.drop_first())
        },
        PollAction::Deliver(_) => actions_from(PollEvent::Delivered, outcome, queue),
        PollAction::Yield | PollAction::Finish(_) => seq![],
    };
    seq![action] + later
}

/// The actions of a poller that goes through a queue: it pops and delivers every
/// completion, once, in the order of the queue, and when it has popped nothing
/// it yields.
pub open spec fn goes_through<E>(actions: Seq<PollAction<E>>, queue: Seq<Completion>) -> bool {
    let n = queue.len() as int;
    &&& actions.len() == 2 * n + 2
    &&& forall|k: int| 0 <= k <= n ==> #[trigger] actions[2 * k] == PollAction::<E>::Pop
    &&& forall|k: int|
        0 <= k < n ==> actions[2 * k + 1] == PollAction::<E>::Deliver(#[trigger] queue[k])
    &&& actions[2 * n + 1] == PollAction::<E>::Yield
}

proof fn lemma_goes_through<E>(
    event: PollEvent<E>,
    outcome: Result<usize, E>,
    queue: Seq<Completion>,
)
    requires
        poll_action(event) == PollAction::<E>::Pop,
    ensures
        goes_through(actions_from(event, outcome, queue), queue),
    decreases queue.len(),
{
    let actions = actions_from(event, outcome, queue);
    if queue.len() == 0 {
        let popped = PollEvent::<E>::Popped(None);
        assert(actions_from(popped, outcome, queue) =~= seq![PollAction::<E>::Yield]);
        assert(actions =~= seq![PollAction::<E>::Pop, PollAction::<E>::Yield]);
    } else {
        let rest = queue.drop_first();
        let popped = PollEvent::<E>::Popped(Some(queue.first()));
        let delivered = PollEvent::<E>::Delivered;
        let later = actions_from(delivered, outcome, rest);
        lemma_goes_through(delivered, outcome, rest);
        assert(actions_from(popped, outcome, rest) =~= seq![
            PollAction::<E>::Deliver(queue.first()),
        ] + later);
        assert(actions =~= seq![
            PollAction::<E>::Pop,
            PollAction::<E>::Deliver(queue.first()),
        ] + later);
        assert forall|k: int| 0 <= k <= queue.len() implies #[trigger] actions[2 * k]
            == PollAction::<E>::Pop by {
            if k > 0 {
                assert(actions[2 * k] == later[2 * (k - 1)]);
            }
        }
        assert forall|k: int| 0 <= k < queue.len() implies actions[2 * k + 1] == PollAction::<
            E,
        >::Deliver(#[trigger] queue[k]) by {
            if k > 0 {
                assert(queue[k] == rest[k - 1]);
                assert(actions[2 * k + 1] == later[2 * (k - 1) + 1]);
            }
        }
        let n = queue.len() as int;
        assert(actions[2 * n + 1] == later[2 * (n - 1) + 1]);
    }
}

/// A poll that is not told to stop has the ring submit, once and first. Where
/// that fails, it ends with the error. Otherwise it pops and delivers every
/// completion in the queue, once, in the order of the queue, and then yields.
pub proof fn law_every_completion_is_delivered<E>(
    outcome: Result<usize, E>,
    queue: Seq<Completion>,
)
    ensures
        ({
            let start = PollEvent::<E>::Signalled(FinishSignal::Empty);
            let actions = actions_from(start, outcome, queue);
            &&& actions.first() == PollAction::<E>::Submit
            &&& outcome matches Err(err) ==> actions.drop_first() == seq![
                PollAction::<E>::Finish(Err(err)),
            ]
            &&& outcome is Ok ==> goes_through(actions.drop_first(), queue)
        }),
{
    let start = PollEvent::<E>::Signalled(FinishSignal::Empty);
    let submitted = PollEvent::<E>::Submitted(outcome);
    let actions = actions_from(start, outcome, queue);
    assert(actions.drop_first() =~= actions_from(submitted, outcome, queue));
    match outcome {
        Err(err) => {
            assert(actions_from(submitted, outcome, queue) =~= seq![
                PollAction::<E>::Finish(Err(err)),
            ]);
        },
        Ok(_) => {
            lemma_goes_through(submitted, outcome, queue);
        },
    }
}

/// A poller stops without touching the ring when it is told to, and when nobody
/// is left to tell it; otherwise it goes on.
pub proof fn law_finish_stops_the_poller<E>(signal: FinishSignal)
    ensures
        signal != FinishSignal::Empty <==> poll_action(PollEvent::<E>::Signalled(signal))
            == PollAction::<E>::Finish(Ok(())),
        signal == FinishSignal::Empty <==> poll_action(PollEvent::<E>::Signalled(signal))
            == PollAction::<E>::Submit,
{
}

} // verus!
