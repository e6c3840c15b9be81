//! How reads, flushes and pollers work together.
use crate::entry::{flush_entry, read_entry};
use crate::error::UringError;
use crate::flush::{flush_action, FlushAction, FlushEvent};
use crate::poller::{poll_action, Completion, PollAction, PollEvent};
use crate::read::{ReadAction, ReadEvent, ReadState, Received};
use vstd::prelude::*;

verus! {

/// The state of a read whose entry the queue took and, where it has the ring
/// submit, whose ring did so.
pub open spec fn in_flight<T, E>(
    buf: T,
    id: u32,
    offset: u64,
    per_submit: bool,
    buf_len: usize,
    user_data: u64,
    submitted: usize,
) -> ReadState<T> {
    let queued = ReadState::fresh(buf, id, offset, per_submit).after(
        ReadEvent::<E>::Polled { buf_len, user_data },
    ).after(ReadEvent::<E>::Pushed(true));
    if per_submit {
        queued.after(ReadEvent::<E>::Submitted(Ok(submitted)))
    } else {
        queued
    }
}

/// A read gives back what the kernel answered it: the entry that it pushes
/// carries its task, a poller that finds the completion of that entry delivers
/// the kernel's code to that task, and with that code the read ends: with its
/// buffer and the number of bytes, or, where the code is negative, with the
/// code as the error.
pub proof fn law_read_gives_back_the_answer<T, E>(
    buf: T,
    id: u32,
    offset: u64,
    per_submit: bool,
    buf_len: usize,
    user_data: u64,
    submitted: usize,
    code: i32,
)
    ensures
        ({
            let start = ReadState::fresh(buf, id, offset, per_submit);
            let entry = read_entry(id, buf_len, offset, user_data);
            let completion = Completion { user_data: entry.user_data, result: code };
            let flying = in_flight::<T, E>(
                buf,
                id,
                offset,
                per_submit,
                buf_len,
                user_data,
                submitted,
            );
            let answer = ReadEvent::<E>::Received(Received::Value(completion.result));
            &&& start.action(ReadEvent::<E>::Polled { buf_len, user_data }) == ReadAction::<
                (T, usize),
                E,
            >::Push(entry)
            &&& poll_action(PollEvent::<E>::Popped(Some(completion))) == PollAction::<E>::Deliver(
                completion,
            )
            &&& completion.user_data == user_data
            &&& flying.accepts(answer)
            &&& flying.action(answer) == if code >= 0 {
                ReadAction::<(T, usize), E>::Finish(Ok((buf, code as usize)))
            } else {
                ReadAction::<(T, usize), E>::Finish(Err(UringError::Os(code)))
            }
        }),
{
}

/// A read that waits for a poller and one that has the ring submit do the same
/// in the same situation, but that the second has the ring submit once it is in
/// the queue.
pub proof fn law_ways_of_submitting_agree<T, E>(state: ReadState<T>, event: ReadEvent<E>)
    ensures
        ({
            let waits = ReadState { per_submit: false, ..state };
            let submits = ReadState { per_submit: true, ..state };
            &&& waits.after(event) == (ReadState { per_submit: false, ..submits.after(event) })
            &&& event == ReadEvent::<E>::Pushed(true) ==> {
                &&& waits.action(event) == ReadAction::<(T, usize), E>::Receive
                &&& submits.action(event) == ReadAction::<(T, usize), E>::Submit
            }
            &&& event != ReadEvent::<E>::Pushed(true) ==> waits.action(event) == submits.action(
                event,
            )
        }),
{
}

/// A flush ends well if and only if the kernel answered its entry with 0.
pub proof fn law_flush_needs_its_answer<E>(user_data: u64, received: Received)
    ensures
        flush_action::<E>(FlushEvent::Started { user_data }) == FlushAction::<E>::Push(
            flush_entry(user_data),
        ),
        flush_entry(user_data).user_data == user_data,
        flush_action::<E>(FlushEvent::Received(received)) == FlushAction::<E>::Finish(Ok(()))
            <==> received == Received::Value(0),
        flush_action::<E>(FlushEvent::Received(received)) == FlushAction::<E>::Finish(
            Err(UringError::Other("failed to recv")),
        ) <==> received != Received::Value(0) && received != Received::Empty,
{
}

} // verus!
