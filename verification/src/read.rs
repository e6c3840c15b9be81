//! A positioned read, from its first poll to its result.
use crate::entry::{Entry, read_entry};
use crate::error::UringError;
use crate::task::UringTask;
use std::sync::Arc;
use vstd::prelude::*;

verus! {

/// What a look at the completion channel found.
#[derive(Debug, Clone, Copy, PartialEq, Eq, Structural)]
pub enum Received {
    /// The completion code.
    Value(i32),
    /// No code will ever come: the sender is gone.
    Closed,
    /// No code yet.
    Empty,
}

/// What has happened to a read.
#[derive(Debug, PartialEq, Eq)]
pub enum ReadEvent<E> {
    /// It is polled. The buffer has `buf_len` bytes, and `user_data` stands for
    /// its task.
    Polled { buf_len: usize, user_data: u64 },
    /// Its entry was pushed: `true` where the queue took it, `false` where the
    /// queue was full.
    Pushed(bool),
    /// The ring was told to submit.
    Submitted(Result<usize, E>),
    /// The completion channel was looked at.
    Received(Received),
}

/// What has to be done for a read.
#[derive(Debug, PartialEq, Eq)]
pub enum ReadAction<O, E> {
    /// Push this entry, and report `Pushed`.
    Push(Entry),
    /// Have the ring submit, and report `Submitted`.
    Submit,
    /// Look at the completion channel, and report `Received`.
    Receive,
    /// Ask to be polled again at once, and return pending.
    Wake,
    /// Return pending; the completion channel will wake the task.
    Park,
    /// Return this result.
    Finish(Result<O, UringError<E>>),
}

/// A value, or not yet.
#[derive(Debug, PartialEq, Eq)]
pub enum Polled<O> {
    Ready(O),
    Pending,
}

/// The part of a read that decides what it does next.
pub struct ReadState<T> {
    pub buf: Option<T>,
    pub id: u32,
    pub offset: u64,
    pub submitted: bool,
    pub per_submit: bool,
}

impl<T> ReadState<T> {
    /// A read that has not been polled.
    pub open spec fn fresh(buf: T, id: u32, offset: u64, per_submit: bool) -> Self {
        ReadState { buf: Some(buf), id, offset, submitted: false, per_submit }
    }

    /// The kernel is not handed a buffer that is not there.
    pub open spec fn valid(self) -> bool {
        !self.submitted ==> self.buf is Some
    }

    /// The events that can come next: an entry is pushed while the read is not
    /// submitted, and only a submitted read that still has its buffer looks for
    /// its completion.
    pub open spec fn accepts<E>(self, event: ReadEvent<E>) -> bool {
        match event {
            ReadEvent::Polled { .. } => true,
            ReadEvent::Pushed(_) => !self.submitted,
            ReadEvent::Submitted(_) => self.submitted && self.per_submit,
            ReadEvent::Received(_) => self.submitted && self.buf is Some,
        }
    }

    /// The state after an event: a push that the queue took submits the read,
    /// and a completion code that is no error releases the buffer.
    pub open spec fn after<E>(self, event: ReadEvent<E>) -> Self {
        match event {
            ReadEvent::Pushed(true) => ReadState { submitted: true, ..self },
            ReadEvent::Received(Received::Value(code)) if code >= 0 => ReadState {
                buf: None,
                ..self
            },
            _ => self,
        }
    }

    /// What an event calls for.
    pub open spec fn action<E>(self, event: ReadEvent<E>) -> ReadAction<(T, usize), E> {
        match event {
            ReadEvent::Polled { buf_len, user_data } => if self.submitted {
                ReadAction::Receive
            } else {
                ReadAction::Push(read_entry(self.id, buf_len, self.offset, user_data))
            },
            ReadEvent::Pushed(false) => ReadAction::Wake,
            ReadEvent::Pushed(true) => if self.per_submit {
                ReadAction::Submit
            } else {
                ReadAction::Receive
            },
            ReadEvent::Submitted(Ok(_)) => ReadAction::Receive,
            ReadEvent::Submitted(Err(err)) => ReadAction::Finish(Err(UringError::Io(err))),
            ReadEvent::Received(Received::Empty) => ReadAction::Park,
            ReadEvent::Received(Received::Closed) => ReadAction::Finish(
                Err(UringError::Other("failed to receive")),
            ),
            ReadEvent::Received(Received::Value(code)) => if code >= 0 {
                ReadAction::Finish(Ok((self.buf->0, code as usize)))
            } else {
                ReadAction::Finish(Err(UringError::Os(code)))
            },
        }
    }
}

/// A positioned read into the buffer `buf`. It keeps the buffer until the
/// kernel is done with it.
pub struct UringReadFuture<R, T> {
    pub ring: Arc<R>,
    pub buf: Option<T>,
    pub id: u32,
    pub offset: u64,
    pub rx: tokio::sync::oneshot::Receiver<i32>,
    pub submitted: bool,
    pub task: UringTask,
    pub per_submit: bool,
}

impl<R, T> UringReadFuture<R, T> {
    /// The part that decides what comes next.
    pub open spec fn state(self) -> ReadState<T> {
        ReadState {
            buf: self.buf,
            id: self.id,
            offset: self.offset,
            submitted: self.submitted,
            per_submit: self.per_submit,
        }
    }

    /// What no event touches: the ring, the receiver and the task.
    pub open spec fn same_ends(self, other: Self) -> bool {
        &&& self.ring == other.ring
        &&& self.rx == other.rx
        &&& self.task == other.task
    }

    /// A read that has not been polled yet.
    pub fn new(ring: Arc<R>, buf: T, id: u32, offset: u64, per_submit: bool) -> (read: Self)
        ensures
            read.state() == ReadState::fresh(buf, id, offset, per_submit),
            read.ring == ring,
            read.task.reports_to(read.rx),
    {
        let (task, rx) = UringTask::new();
        UringReadFuture { ring, buf: Some(buf), id, offset, rx, submitted: false, task, per_submit }
    }

    /// The first half of a poll, up to the point where the entry is in the
    /// queue: `Receive` says that this is so.
    pub fn submit<E>(&mut self, event: ReadEvent<E>) -> (action: ReadAction<(T, usize), E>)
        requires
            old(self).state().valid(),
            old(self).state().accepts(event),
            !(event is Received),
        ensures
            final(self).state() == old(self).state().after(event),
            final(self).state().valid(),
            final(self).same_ends(*old(self)),
            action == old(self).state().action(event),
    {
        match event {
            ReadEvent::Polled { buf_len, user_data } => {
                if !self.submitted {
                    ReadAction::Push(Entry::read(self.id, buf_len, self.offset, user_data))
                } else {
                    ReadAction::Receive
                }
            },
            ReadEvent::Pushed(taken) => {
                if !taken {
                    return ReadAction::Wake;
                }
                self.submitted = true;
                if self.per_submit {
                    ReadAction::Submit
                } else {
                    ReadAction::Receive
                }
            },
            ReadEvent::Submitted(Err(err)) => ReadAction::Finish(Err(UringError::Io(err))),
            ReadEvent::Submitted(Ok(_)) | ReadEvent::Received(_) => ReadAction::Receive,
        }
    }

    /// The completion code, once there is one.
    pub fn retrieve<E>(received: Received) -> (code: Polled<Result<i32, UringError<E>>>)
        ensures
            code == (match received {
                Received::Closed => Polled::Ready(
                    Err::<i32, UringError<E>>(UringError::Other("failed to receive")),
                ),
                Received::Value(code) => Polled::Ready(Ok::<i32, UringError<E>>(code)),
                Received::Empty => Polled::Pending,
            }),
    {
        match received {
            Received::Closed => Polled::Ready(Err(UringError::Other("failed to receive"))),
            Received::Value(code) => Polled::Ready(Ok(code)),
            Received::Empty => Polled::Pending,
        }
    }

    /// A poll, event by event: it begins with `Polled`, and goes on until the
    /// action is to return.
    pub fn poll<E>(&mut self, event: ReadEvent<E>) -> (action: ReadAction<(T, usize), E>)
        requires
            old(self).state().valid(),
            old(self).state().accepts(event),
        ensures
            final(self).state() == old(self).state().after(event),
            final(self).state().valid(),
            final(self).same_ends(*old(self)),
            action == old(self).state().action(event),
    {
        let received = match event {
            ReadEvent::Received(received) => received,
            other => return self.submit(other),
        };
        match Self::retrieve::<E>(received) {
            Polled::Pending => ReadAction::Park,
            Polled::Ready(Err(err)) => ReadAction::Finish(Err(err)),
            Polled::Ready(Ok(code)) => {
                if code >= 0 {
                    ReadAction::Finish(Ok((self.buf.take().unwrap(), code as usize)))
                } else {
                    ReadAction::Finish(Err(UringError::Os(code)))
                }
            },
        }
    }
}

/// The state after a sequence of events.
pub open spec fn state_after<T, E>(start: ReadState<T>, events: Seq<ReadEvent<E>>) -> ReadState<T>
    decreases events.len(),
{
    if events.len() == 0 {
        start
    } else {
        state_after(start, events.drop_last()).after(events.last())
    }
}

/// The state in which the `i`-th event of a sequence comes.
pub open spec fn state_before<T, E>(
    start: ReadState<T>,
    events: Seq<ReadEvent<E>>,
    i: int,
) -> ReadState<T> {
    state_after(start, events.take(i))
}

/// What the `i`-th event of a sequence calls for.
pub open spec fn action_at<T, E>(
    start: ReadState<T>,
    events: Seq<ReadEvent<E>>,
    i: int,
) -> ReadAction<(T, usize), E> {
    state_before(start, events, i).action(events[i])
}

/// Each event comes in a state that accepts it.
pub open spec fn accepted<T, E>(start: ReadState<T>, events: Seq<ReadEvent<E>>) -> bool {
    forall|i: int|
        #![trigger events[i]]
        0 <= i < events.len() ==> state_before(start, events, i).accepts(events[i])
}

proof fn lemma_one_event<T, E>(start: ReadState<T>, events: Seq<ReadEvent<E>>, i: int)
    requires
        0 <= i < events.len(),
    ensures
        state_before(start, events, i + 1) == state_before(start, events, i).after(events[i]),
{
    assert(events.take(i + 1).drop_last() =~= events.take(i));
    assert(events.take(i + 1).last() == events[i]);
}

proof fn lemma_submitted_stays<T, E>(
    start: ReadState<T>,
    events: Seq<ReadEvent<E>>,
    i: int,
    j: int,
)
    requires
        0 <= i <= j <= events.len(),
        state_before(start, events, i).submitted,
    ensures
        state_before(start, events, j).submitted,
    decreases j - i,
{
    if i < j {
        lemma_one_event(start, events, i);
        lemma_submitted_stays(start, events, i + 1, j);
    }
}

/// Whatever happens to a read, it keeps asking for the same bytes, in the same
/// manner: file, offset and way of submitting never change.
pub proof fn law_request_never_changes<T, E>(start: ReadState<T>, events: Seq<ReadEvent<E>>)
    ensures
        state_after(start, events).id == start.id,
        state_after(start, events).offset == start.offset,
        state_after(start, events).per_submit == start.per_submit,
    decreases events.len(),
{
    if events.len() > 0 {
        law_request_never_changes(start, events.drop_last());
    }
}

/// Every state that a valid one leads to is valid.
pub proof fn law_states_stay_valid<T, E>(start: ReadState<T>, events: Seq<ReadEvent<E>>)
    requires
        start.valid(),
        accepted(start, events),
    ensures
        state_after(start, events).valid(),
    decreases events.len(),
{
    if events.len() > 0 {
        let init = events.drop_last();
        assert forall|i: int|
            #![trigger init[i]]
            0 <= i < init.len() implies state_before(start, init, i).accepts(init[i]) by {
            assert(init.take(i) =~= events.take(i));
            assert(init[i] == events[i]);
        }
        law_states_stay_valid(start, init);
        assert(events.take(events.len() - 1) =~= init);
        assert(state_before(start, events, events.len() - 1).accepts(events[events.len() - 1]));
    }
}

/// Every entry that a read has pushed is the entry of the bytes that were asked
/// for, however often the queue was full before.
pub proof fn law_only_the_request_is_pushed<T, E>(
    buf: T,
    id: u32,
    offset: u64,
    per_submit: bool,
    events: Seq<ReadEvent<E>>,
    i: int,
)
    requires
        0 <= i < events.len(),
        action_at(ReadState::fresh(buf, id, offset, per_submit), events, i) is Push,
    ensures
        events[i] matches ReadEvent::Polled { buf_len, user_data } && action_at(
            ReadState::fresh(buf, id, offset, per_submit),
            events,
            i,
        ) == ReadAction::<(T, usize), E>::Push(read_entry(id, buf_len, offset, user_data)),
{
    law_request_never_changes(ReadState::fresh(buf, id, offset, per_submit), events.take(i));
}

/// The kernel gets a read once: after a push that the queue took, no later
/// event is a push, and no later action asks for one.
pub proof fn law_pushed_once<T, E>(
    start: ReadState<T>,
    events: Seq<ReadEvent<E>>,
    i: int,
    j: int,
)
    requires
        accepted(start, events),
        0 <= i < j < events.len(),
        events[i] == ReadEvent::<E>::Pushed(true),
    ensures
        !(events[j] is Pushed),
        !(action_at(start, events, j) is Push),
{
    lemma_one_event(start, events, i);
    lemma_submitted_stays(start, events, i + 1, j);
    assert(state_before(start, events, j).accepts(events[j]));
}

/// A push that the queue refused leaves the read as it was, so that the next
/// poll asks for the same push again.
pub proof fn law_refused_push_is_retried<T, E>(
    state: ReadState<T>,
    buf_len: usize,
    user_data: u64,
)
    requires
        !state.submitted,
    ensures
        ({
            let poll = ReadEvent::<E>::Polled { buf_len, user_data };
            let refused = ReadEvent::<E>::Pushed(false);
            &&& state.after(poll).action(refused) == ReadAction::<(T, usize), E>::Wake
            &&& state.after(poll).after(refused).action(poll) == state.action(poll)
            &&& state.action(poll) is Push
        }),
{
}

/// The buffer stays with the read until the kernel has filled it: as long as no
/// event ended the read with success, the read holds the buffer that it was
/// given.
pub proof fn law_buffer_is_kept<T, E>(
    buf: T,
    id: u32,
    offset: u64,
    per_submit: bool,
    events: Seq<ReadEvent<E>>,
)
    requires
        forall|i: int|
            0 <= i < events.len() ==> !(#[trigger] action_at(
                ReadState::fresh(buf, id, offset, per_submit),
                events,
                i,
            ) matches ReadAction::Finish(Ok(_))),
    ensures
        state_after(ReadState::fresh(buf, id, offset, per_submit), events).buf == Some(buf),
    decreases events.len(),
{
    let start = ReadState::fresh(buf, id, offset, per_submit);
    if events.len() > 0 {
        let init = events.drop_last();
        let last = events.len() - 1;
        assert forall|i: int| 0 <= i < init.len() implies !(#[trigger] action_at(
            start,
            init,
            i,
        ) matches ReadAction::Finish(Ok(_))) by {
            assert(init.take(i) =~= events.take(i));
            assert(action_at(start, init, i) == action_at(start, events, i));
        }
        law_buffer_is_kept(buf, id, offset, per_submit, init);
        assert(events.take(last) =~= init);
        assert(!(action_at(start, events, last) matches ReadAction::Finish(Ok(_))));
    }
}

/// A read that succeeds returns the buffer that it was given, and the number of
/// bytes that the kernel reported.
pub proof fn law_success_returns_the_buffer<T, E>(
    buf: T,
    id: u32,
    offset: u64,
    per_submit: bool,
    events: Seq<ReadEvent<E>>,
    i: int,
    returned: T,
    size: usize,
)
    requires
        accepted(ReadState::fresh(buf, id, offset, per_submit), events),
        0 <= i < events.len(),
        action_at(ReadState::fresh(buf, id, offset, per_submit), events, i) == ReadAction::<
            (T, usize),
            E,
        >::Finish(Ok((returned, size))),
    ensures
        returned == buf,
        events[i] matches ReadEvent::Received(Received::Value(code)) && code == size,
{
    let start = ReadState::fresh(buf, id, offset, per_submit);
    assert(state_before(start, events, i).accepts(events[i]));
    lemma_held_buffer_is_the_first(buf, id, offset, per_submit, events.take(i));
}

/// A read succeeds once: after its success no completion code is accepted any
/// more, and nothing that happens makes it succeed again.
pub proof fn law_succeeds_once<T, E>(
    start: ReadState<T>,
    events: Seq<ReadEvent<E>>,
    i: int,
    j: int,
)
    requires
        accepted(start, events),
        0 <= i < j < events.len(),
        action_at(start, events, i) matches ReadAction::Finish(Ok(_)),
    ensures
        !(events[j] is Received),
        !(action_at(start, events, j) matches ReadAction::Finish(Ok(_))),
{
    lemma_one_event(start, events, i);
    lemma_released_stays_released(start, events, i + 1, j);
    assert(state_before(start, events, j).accepts(events[j]));
}

/// Where a read is submitted after some events, one of them is a push that the
/// queue took.
proof fn lemma_submitted_was_pushed<T, E>(start: ReadState<T>, events: Seq<ReadEvent<E>>, i: int)
    requires
        !start.submitted,
        0 <= i <= events.len(),
        state_before(start, events, i).submitted,
    ensures
        exists|k: int| 0 <= k < i && #[trigger] events[k] == ReadEvent::<E>::Pushed(true),
    decreases i,
{
    if i == 0 {
        assert(events.take(0).len() == 0);
    } else {
        lemma_one_event(start, events, i - 1);
        if state_before(start, events, i - 1).submitted {
            lemma_submitted_was_pushed(start, events, i - 1);
        } else {
            assert(events[i - 1] == ReadEvent::<E>::Pushed(true));
        }
    }
}

/// A read that succeeds was pushed once: one push before its success was taken
/// by the queue, and no other ever. The ring is told to submit at most once, and
/// only where the read has it do so: right after the push that was taken.
pub proof fn law_success_took_one_push<T, E>(
    buf: T,
    id: u32,
    offset: u64,
    per_submit: bool,
    events: Seq<ReadEvent<E>>,
    i: int,
) -> (pushed: int)
    requires
        accepted(ReadState::fresh(buf, id, offset, per_submit), events),
        0 <= i < events.len(),
        action_at(
            ReadState::fresh(buf, id, offset, per_submit),
            events,
            i,
        ) matches ReadAction::Finish(Ok(_)),
    ensures
        0 <= pushed < i,
        forall|j: int|
            0 <= j < events.len() ==> (#[trigger] events[j] == ReadEvent::<E>::Pushed(true)
                <==> j == pushed),
        forall|j: int|
            0 <= j < events.len() ==> (#[trigger] action_at(
                ReadState::fresh(buf, id, offset, per_submit),
                events,
                j,
            ) is Submit <==> per_submit && j == pushed),
{
    let start = ReadState::fresh(buf, id, offset, per_submit);
    assert(state_before(start, events, i).accepts(events[i]));
    lemma_submitted_was_pushed(start, events, i);
    let pushed = choose|k: int| 0 <= k < i && #[trigger] events[k] == ReadEvent::<E>::Pushed(true);
    assert forall|j: int| 0 <= j < events.len() implies (#[trigger] events[j] == ReadEvent::<
        E,
    >::Pushed(true) <==> j == pushed) by {
        if j > pushed {
            law_pushed_once(start, events, pushed, j);
        }
        if j < pushed && events[j] == ReadEvent::<E>::Pushed(true) {
            law_pushed_once(start, events, j, pushed);
        }
    }
    assert forall|j: int| 0 <= j < events.len() implies (#[trigger] action_at(
        start,
        events,
        j,
    ) is Submit <==> per_submit && j == pushed) by {
        law_request_never_changes(start, events.take(j));
        assert(events[j] == ReadEvent::<E>::Pushed(true) <==> j == pushed);
    }
    pushed
}

proof fn lemma_released_stays_released<T, E>(
    start: ReadState<T>,
    events: Seq<ReadEvent<E>>,
    i: int,
    j: int,
)
    requires
        0 <= i <= j <= events.len(),
        state_before(start, events, i).buf is None,
    ensures
        state_before(start, events, j).buf is None,
    decreases j - i,
{
    if i < j {
        lemma_one_event(start, events, i);
        lemma_released_stays_released(start, events, i + 1, j);
    }
}

proof fn lemma_held_buffer_is_the_first<T, E>(
    buf: T,
    id: u32,
    offset: u64,
    per_submit: bool,
    events: Seq<ReadEvent<E>>,
)
    ensures
        state_after(ReadState::fresh(buf, id, offset, per_submit), events).buf is Some
            ==> state_after(ReadState::fresh(buf, id, offset, per_submit), events).buf == Some(buf),
    decreases events.len(),
{
    if events.len() > 0 {
        lemma_held_buffer_is_the_first(buf, id, offset, per_submit, events.drop_last());
    }
}

} // verus!
