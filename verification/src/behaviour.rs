//! What the operations do, told by what goes into a call and what comes out of
//! it.
use crate::bench::{
    check_read, copy_block, drawn_below, madvise_rand, random_position, read_position,
    samples_since, time_is_over, Metric, MmapWorker, Progress, ReadFault,
};
use crate::block::{gen_hash, Mismatch};
use crate::channel::{
    finish_of_receiver, finish_of_sender, found_in, one_channel, sent_over, FinishSignal,
};
use crate::contents::{lemma_tells, tells, words_are};
use crate::context::{
    FileRegistration, PollerLaunch, RingRequest, UringContext, UringContextInner,
};
use crate::entry::{truncate_to_u32, Entry, Operation};
use crate::error::UringError;
use crate::flush::{FlushAction, FlushEvent, UringFlushFuture};
use crate::poller::{PollAction, PollEvent, UringPollFuture};
use crate::read::{Polled, ReadAction, ReadEvent, Received, UringReadFuture};
use crate::task::UringTask;
use crate::traits::RandomAccessFiles;
use crate::uring::{UringRandomAccessFiles, UringSizeFuture};
use crate::word::ByteOrder;
use std::sync::Arc;
use vstd::prelude::*;

verus! {

/// The entry asks to read the file `id` from `offset` on, as many bytes as the
/// buffer has: the 32 bits of the length and the 64 bits of the offset are those
/// of the numbers asked for.
pub open spec fn reads_at(
    entry: Entry,
    id: u32,
    buf_len: usize,
    offset: u64,
    user_data: u64,
) -> bool {
    &&& entry.operation matches Operation::Read { file, len, offset: at } && file == id && (buf_len
        - len) % 0x1_0000_0000 == 0 && (offset - at) % 0x1_0000_0000_0000_0000 == 0
    &&& !entry.drain
    &&& entry.user_data == user_data
}

/// What is kept of a number that is cut to 32 bits differs from it by a multiple
/// of 2^32.
pub proof fn law_truncation_keeps_the_low_bits(n: usize, low: u32)
    requires
        call_ensures(truncate_to_u32, (n,), low),
    ensures
        (n - low) % 0x1_0000_0000 == 0,
{
}

/// The entry of a read asks for what the read is to read, and carries its task.
pub proof fn law_read_entry_asks_for_the_read(
    id: u32,
    buf_len: usize,
    offset: u64,
    user_data: u64,
    entry: Entry,
)
    requires
        call_ensures(Entry::read, (id, buf_len, offset, user_data), entry),
    ensures
        reads_at(entry, id, buf_len, offset, user_data),
{
}

/// The entry of a flush asks for no operation, waits for everything before it,
/// and carries its task, whatever the task.
pub proof fn law_flush_entry_does_nothing_but_drain(user_data: u64, entry: Entry)
    requires
        call_ensures(Entry::flush, (user_data,), entry),
    ensures
        entry.operation is Nop,
        entry.drain,
        entry.user_data == user_data,
{
}

/// What calls for each action of a read in this state, and for no other.
pub open spec fn read_acts<R, T, E>(
    read: UringReadFuture<R, T>,
    event: ReadEvent<E>,
    action: ReadAction<(T, usize), E>,
) -> bool {
    &&& action is Push <==> event is Polled && !read.submitted
    &&& action matches ReadAction::Push(entry) ==> reads_at(
        entry,
        read.id,
        event->buf_len,
        read.offset,
        event->user_data,
    )
    &&& action is Submit <==> event == ReadEvent::<E>::Pushed(true) && read.per_submit
    &&& action is Wake <==> event == ReadEvent::<E>::Pushed(false)
    &&& action is Park <==> event == ReadEvent::<E>::Received(Received::Empty)
    &&& action is Finish <==> {
        ||| event matches ReadEvent::Submitted(Err(_))
        ||| event == ReadEvent::<E>::Received(Received::Closed)
        ||| event matches ReadEvent::Received(Received::Value(_))
    }
    &&& event matches ReadEvent::Submitted(Err(err)) ==> action == ReadAction::<
        (T, usize),
        E,
    >::Finish(Err(UringError::Io(err)))
    &&& event == ReadEvent::<E>::Received(Received::Closed) ==> action == ReadAction::<
        (T, usize),
        E,
    >::Finish(Err(UringError::Other("failed to receive")))
    &&& event matches ReadEvent::Received(Received::Value(code)) ==> {
        &&& code < 0 ==> action == ReadAction::<(T, usize), E>::Finish(Err(UringError::Os(code)))
        &&& code >= 0 ==> action == ReadAction::<(T, usize), E>::Finish(
            Ok((read.buf->0, code as usize)),
        )
    }
}

/// What an event changes of a read: the queue taking its entry makes it
/// submitted, and a code that is no error takes the buffer. Nothing else changes.
pub open spec fn read_changes<R, T, E>(
    before: UringReadFuture<R, T>,
    event: ReadEvent<E>,
    after: UringReadFuture<R, T>,
) -> bool {
    &&& after.submitted <==> before.submitted || event == ReadEvent::<E>::Pushed(true)
    &&& match event {
        ReadEvent::Received(Received::Value(code)) => if code >= 0 {
            after.buf is None
        } else {
            after.buf == before.buf
        },
        _ => after.buf == before.buf,
    }
    &&& after.id == before.id
    &&& after.offset == before.offset
    &&& after.per_submit == before.per_submit
    &&& after.ring == before.ring
    &&& after.rx == before.rx
    &&& after.task == before.task
}

/// A read in flight ends with what the completion channel gave, or with a failed
/// submit, and with nothing else. An empty channel parks it, in every state. It
/// asks the kernel for its bytes as long as the queue has not taken its entry.
pub proof fn law_read_poll<R, T, E>(
    read: &mut UringReadFuture<R, T>,
    event: ReadEvent<E>,
    action: ReadAction<(T, usize), E>,
)
    requires
        call_ensures(UringReadFuture::<R, T>::poll::<E>, (read, event), action),
    ensures
        read_acts(*old(read), event, action),
        read_changes(*old(read), event, *final(read)),
{
}

/// The first half of a poll does the same on the events that belong to it.
pub proof fn law_read_submit<R, T, E>(
    read: &mut UringReadFuture<R, T>,
    event: ReadEvent<E>,
    action: ReadAction<(T, usize), E>,
)
    requires
        call_ensures(UringReadFuture::<R, T>::submit::<E>, (read, event), action),
    ensures
        read_acts(*old(read), event, action),
        read_changes(*old(read), event, *final(read)),
{
}

/// A read can be polled at any time, and takes every event that answers its last
/// action: a push while it is not submitted, a submit where it has the ring do
/// so, and whatever the channel holds as long as it has its buffer.
pub proof fn law_read_takes_its_events<R, T, E>(
    read: &mut UringReadFuture<R, T>,
    event: ReadEvent<E>,
)
    requires
        !old(read).submitted ==> old(read).buf is Some,
        match event {
            ReadEvent::Polled { .. } => true,
            ReadEvent::Pushed(_) => !old(read).submitted,
            ReadEvent::Submitted(_) => old(read).submitted && old(read).per_submit,
            ReadEvent::Received(_) => old(read).submitted && old(read).buf is Some,
        },
    ensures
        call_requires(UringReadFuture::<R, T>::poll::<E>, (read, event)),
        !(event is Received) ==> call_requires(
            UringReadFuture::<R, T>::submit::<E>,
            (read, event),
        ),
{
}

/// What the channel gave is what is retrieved, and nothing is retrieved from an
/// empty one.
pub proof fn law_retrieve<R, T, E>(
    received: Received,
    code: Polled<Result<i32, UringError<E>>>,
)
    requires
        call_ensures(UringReadFuture::<R, T>::retrieve::<E>, (received,), code),
    ensures
        code is Pending <==> received is Empty,
        received matches Received::Value(n) ==> code == Polled::Ready(
            Ok::<i32, UringError<E>>(n),
        ),
        received is Closed ==> code == Polled::Ready(
            Err::<i32, UringError<E>>(UringError::Other("failed to receive")),
        ),
{
}

/// A read that ends with the size alone does what the read itself does, and ends
/// with the number of bytes that the kernel reported, or with its error.
pub proof fn law_size_poll<'a, R, E>(
    read: &mut UringSizeFuture<'a, R>,
    event: ReadEvent<E>,
    action: ReadAction<usize, E>,
)
    requires
        call_ensures(UringSizeFuture::<'a, R>::poll::<E>, (read, event), action),
    ensures
        read_changes(old(read).read, event, final(read).read),
        action is Push <==> event is Polled && !old(read).read.submitted,
        action matches ReadAction::Push(entry) ==> reads_at(
            entry,
            old(read).read.id,
            event->buf_len,
            old(read).read.offset,
            event->user_data,
        ),
        action is Submit <==> event == ReadEvent::<E>::Pushed(true) && old(read).read.per_submit,
        action is Wake <==> event == ReadEvent::<E>::Pushed(false),
        action is Park <==> event == ReadEvent::<E>::Received(Received::Empty),
        action is Finish ==> event is Submitted || event is Received,
        event matches ReadEvent::Submitted(outcome) ==> match outcome {
            Ok(_) => action is Receive,
            Err(err) => action == ReadAction::<usize, E>::Finish(Err(UringError::Io(err))),
        },
        event == ReadEvent::<E>::Received(Received::Closed) ==> action == ReadAction::<
            usize,
            E,
        >::Finish(Err(UringError::Other("failed to receive"))),
        event matches ReadEvent::Received(Received::Value(code)) ==> action == ReadAction::<
            usize,
            E,
        >::Finish(
            if code >= 0 {
                Ok(code as usize)
            } else {
                Err(UringError::Os(code))
            },
        ),
{
}

/// A read that ends with the size alone takes the events that the read takes.
pub proof fn law_size_takes_its_events<'a, R, E>(
    read: &mut UringSizeFuture<'a, R>,
    event: ReadEvent<E>,
)
    requires
        !old(read).read.submitted ==> old(read).read.buf is Some,
        match event {
            ReadEvent::Polled { .. } => true,
            ReadEvent::Pushed(_) => !old(read).read.submitted,
            ReadEvent::Submitted(_) => old(read).read.submitted && old(read).read.per_submit,
            ReadEvent::Received(_) => old(read).read.submitted && old(read).read.buf is Some,
        },
    ensures
        call_requires(UringSizeFuture::<'a, R>::poll::<E>, (read, event)),
{
}

/// What a read is when it begins: it holds its buffer, asks for its bytes, is not
/// submitted, and its task sends to its own receiver.
pub open spec fn begins<R, T>(
    read: UringReadFuture<R, T>,
    ring: Arc<R>,
    buf: T,
    id: u32,
    offset: u64,
    per_submit: bool,
) -> bool {
    &&& read.ring == ring
    &&& read.buf == Some(buf)
    &&& read.id == id
    &&& read.offset == offset
    &&& read.per_submit == per_submit
    &&& !read.submitted
    &&& read.task.complete matches Some(tx) && one_channel(tx, read.rx)
}

/// A new read asks for what it was told to, on the ring that it was given.
pub proof fn law_new_read<R, T>(
    ring: Arc<R>,
    buf: T,
    id: u32,
    offset: u64,
    per_submit: bool,
    read: UringReadFuture<R, T>,
)
    requires
        call_ensures(UringReadFuture::<R, T>::new, (ring, buf, id, offset, per_submit), read),
    ensures
        begins(read, ring, buf, id, offset, per_submit),
{
}

/// A read through a context asks its ring for the bytes; `read` waits for a
/// poller, and `read_submit` has the ring submit.
pub proof fn law_context_read<R, F, H, T>(
    context: &UringContext<R, F, H>,
    id: u32,
    offset: u64,
    buf: T,
    waits: UringReadFuture<R, T>,
    submits: UringReadFuture<R, T>,
)
    requires
        call_ensures(UringContext::<R, F, H>::read::<T>, (context, id, offset, buf), waits),
        call_ensures(
            UringContext::<R, F, H>::read_submit::<T>,
            (context, id, offset, buf),
            submits,
        ),
    ensures
        begins(waits, context.inner.ring, buf, id, offset, false),
        begins(submits, context.inner.ring, buf, id, offset, true),
{
}

/// A read through random access files asks the ring of their context.
pub proof fn law_files_read<'a, R, F, H>(
    files: &UringRandomAccessFiles<R, F, H>,
    id: u32,
    offset: u64,
    buf: &'a mut [u8],
    waits: UringSizeFuture<'a, R>,
    submits: UringSizeFuture<'a, R>,
)
    requires
        call_ensures(UringRandomAccessFiles::<R, F, H>::read, (files, id, offset, buf), waits),
        call_ensures(
            UringRandomAccessFiles::<R, F, H>::read_submit,
            (files, id, offset, buf),
            submits,
        ),
    ensures
        begins(waits.read, files.context.inner.ring, buf, id, offset, false),
        begins(submits.read, files.context.inner.ring, buf, id, offset, true),
{
}

/// Through the trait the files begin the same read, and what the trait says of it
/// is the file, the offset and the buffer that were asked for.
pub proof fn law_trait_read<'a, R, F, H>(
    files: &UringRandomAccessFiles<R, F, H>,
    id: u32,
    offset: u64,
    buf: &'a mut [u8],
    read: UringSizeFuture<'a, R>,
)
    requires
        call_ensures(
            <UringRandomAccessFiles<R, F, H> as RandomAccessFiles>::read,
            (files, id, offset, buf),
            read,
        ),
    ensures
        begins(read.read, files.context.inner.ring, buf, id, offset, false),
        <UringRandomAccessFiles<R, F, H> as RandomAccessFiles>::asks_for(&read) == (
            read.read.id,
            read.read.offset,
            read.read.buf,
        ),
{
}

/// A flush, however it is begun, is one of the ring, and its task sends to its own
/// receiver.
pub proof fn law_new_flush<R, F, H>(
    ring: Arc<R>,
    inner: &UringContextInner<R, F, H>,
    context: &UringContext<R, F, H>,
    files: &UringRandomAccessFiles<R, F, H>,
    bare: UringFlushFuture<R>,
    of_inner: UringFlushFuture<R>,
    of_context: UringFlushFuture<R>,
    of_files: UringFlushFuture<R>,
)
    requires
        call_ensures(UringFlushFuture::<R>::new, (ring,), bare),
        call_ensures(UringContextInner::<R, F, H>::flush, (inner,), of_inner),
        call_ensures(UringContext::<R, F, H>::flush, (context,), of_context),
        call_ensures(UringRandomAccessFiles::<R, F, H>::flush, (files,), of_files),
    ensures
        bare.ring == ring,
        of_inner.ring == inner.ring,
        of_context.ring == context.inner.ring,
        of_files.ring == files.context.inner.ring,
        bare.task.complete matches Some(tx) && one_channel(tx, bare.rx),
        of_inner.task.complete matches Some(tx) && one_channel(tx, of_inner.rx),
        of_context.task.complete matches Some(tx) && one_channel(tx, of_context.rx),
        of_files.task.complete matches Some(tx) && one_channel(tx, of_files.rx),
{
}

/// A task waits as long as it has its sender. It sends the code that it is given
/// over that sender, once.
pub proof fn law_task<'a>(
    made: (UringTask, tokio::sync::oneshot::Receiver<i32>),
    looked: &UringTask,
    armed: bool,
    task: &'a mut UringTask,
    code: i32,
    sent: Result<(), i32>,
)
    requires
        call_ensures(UringTask::new, (), made),
        call_ensures(UringTask::is_armed, (looked,), armed),
        call_ensures(UringTask::finish, (task, code), sent),
    ensures
        made.0.complete matches Some(tx) && one_channel(tx, made.1),
        armed <==> looked.complete is Some,
        final(task).complete is None,
        sent_over(old(task).complete->0, code, sent),
        sent matches Err(returned) ==> returned == code,
{
}

/// A task that has its sender can be finished.
pub proof fn law_armed_task_can_finish(task: &mut UringTask, code: i32)
    requires
        old(task).complete is Some,
    ensures
        call_requires(UringTask::finish, (task, code)),
{
}

/// What calls for each action of a poller, and for no other: it submits when it
/// is not told to stop, pops after a submit and after every delivery, delivers
/// what it popped, yields when nothing is left, and ends when it is told to, or
/// with the error of a submit.
pub open spec fn poller_acts<E>(event: PollEvent<E>, action: PollAction<E>) -> bool {
    &&& action is Submit <==> event == PollEvent::<E>::Signalled(FinishSignal::Empty)
    &&& action is Pop <==> event is Delivered || (event is Submitted && event->Submitted_0 is Ok)
    &&& action is Deliver <==> event is Popped && event->Popped_0 is Some
    &&& action matches PollAction::Deliver(completion) ==> event == PollEvent::<E>::Popped(
        Some(completion),
    )
    &&& action is Yield <==> event == PollEvent::<E>::Popped(None)
    &&& action == PollAction::<E>::Finish(Ok(())) <==> event is Signalled && event
        != PollEvent::<E>::Signalled(FinishSignal::Empty)
    &&& action is Finish && action->Finish_0 is Err <==> event is Submitted
        && event->Submitted_0 is Err
    &&& event matches PollEvent::Submitted(Err(err)) ==> action == PollAction::<E>::Finish(
        Err(err),
    )
}

/// A poller does what the event calls for.
pub proof fn law_poller<R, E>(event: PollEvent<E>, action: PollAction<E>)
    requires
        call_ensures(UringPollFuture::<R>::poll::<E>, (event,), action),
    ensures
        poller_acts(event, action),
{
}

/// A poll begins with a look at the poller's own finish channel, and does what
/// that calls for.
pub proof fn law_poller_start<R, E>(poller: &UringPollFuture<R>, action: PollAction<E>)
    requires
        call_ensures(UringPollFuture::<R>::start::<E>, (poller,), action),
    ensures
        exists|signal: FinishSignal| #[trigger]
            found_in(poller.finish, signal) && (if signal is Empty {
                action == PollAction::<E>::Submit
            } else {
                action == PollAction::<E>::Finish(Ok(()))
            }),
{
}

/// What calls for each action of a flush, and for no other. What it pushes first
/// is an entry without an operation that drains; what it pushes again is what
/// came back.
pub proof fn law_flush_poll<R, E>(event: FlushEvent, action: FlushAction<E>)
    requires
        call_ensures(UringFlushFuture::<R>::poll::<E>, (event,), action),
    ensures
        action is Push <==> event is Started || event is Refused,
        event matches FlushEvent::Started { user_data } ==> action matches FlushAction::Push(entry)
            && entry.operation is Nop && entry.drain && entry.user_data == user_data,
        event matches FlushEvent::Refused(entry) ==> action == FlushAction::<E>::Push(entry),
        action is Receive <==> event is Pushed,
        action is Park <==> event == FlushEvent::Received(Received::Empty),
        action == FlushAction::<E>::Finish(Ok(())) <==> event == FlushEvent::Received(
            Received::Value(0),
        ),
        event matches FlushEvent::Received(received) ==> (received != Received::Empty && received
            != Received::Value(0) ==> action == FlushAction::<E>::Finish(
            Err(UringError::Other("failed to recv")),
        )),
{
}

/// On a kernel that answers an entry without an operation with 0, every flush
/// ends well, and no flush reads from a file.
pub proof fn law_flush_ends_well<R, E>(
    kernel: spec_fn(Operation) -> i32,
    user_data: u64,
    pushed: FlushAction<E>,
    ended: FlushAction<E>,
)
    requires
        kernel(Operation::Nop) == 0,
        call_ensures(
            UringFlushFuture::<R>::poll::<E>,
            (FlushEvent::Started { user_data },),
            pushed,
        ),
        pushed matches FlushAction::Push(entry) ==> call_ensures(
            UringFlushFuture::<R>::poll::<E>,
            (FlushEvent::Received(Received::Value(kernel(entry.operation))),),
            ended,
        ),
    ensures
        pushed matches FlushAction::Push(entry) && !(entry.operation is Read),
        ended == FlushAction::<E>::Finish(Ok(())),
{
}

/// A request for a ring with room for `nr` entries, cut to 32 bits, over these
/// files and descriptors, each in its place.
pub open spec fn requests<F>(
    request: RingRequest<F>,
    files: Seq<F>,
    fds: Seq<i32>,
    nr: usize,
    poll: usize,
    kernel_poll: bool,
) -> bool {
    &&& (nr - request.entries) % 0x1_0000_0000 == 0
    &&& request.kernel_poll == kernel_poll
    &&& request.poll == poll
    &&& request.files@.len() == files.len()
    &&& forall|i: int| 0 <= i < files.len() ==> #[trigger] request.files@[i] == files[i]
    &&& request.fds@.len() == fds.len()
    &&& forall|i: int| 0 <= i < fds.len() ==> #[trigger] request.fds@[i] == fds[i]
}

/// To set a ring up asks for what was asked for, whether the ring owns the files
/// or somebody else keeps them open.
pub proof fn law_set_up_asks<R, F, H>(
    files: Vec<F>,
    fds: Vec<i32>,
    nr: usize,
    poll: usize,
    kernel_poll: bool,
    owning: RingRequest<F>,
    of_files: RingRequest<F>,
    borrowing: RingRequest<F>,
)
    requires
        call_ensures(
            UringContext::<R, F, H>::new,
            (files, fds, nr, poll, kernel_poll),
            owning,
        ),
        call_ensures(
            UringRandomAccessFiles::<R, F, H>::new,
            (files, fds, nr, poll, kernel_poll),
            of_files,
        ),
        call_ensures(UringContext::<R, F, H>::new_ref, (fds, nr, poll, kernel_poll), borrowing),
    ensures
        requests(owning, files@, fds@, nr, poll, kernel_poll),
        requests(of_files, files@, fds@, nr, poll, kernel_poll),
        requests(borrowing, Seq::empty(), fds@, nr, poll, kernel_poll),
{
}

/// The kernel is given the descriptors of the files in the order of the files: at
/// every place up to the registration, and of any number of files, stands the
/// descriptor of the file at that place, and the files that are kept are those.
/// So the file that a read names by its place is the file at that place.
pub proof fn law_descriptors_keep_their_places<R, F, H, E>(
    fd_of: spec_fn(F) -> i32,
    files: Vec<F>,
    fds: Vec<i32>,
    nr: usize,
    poll: usize,
    kernel_poll: bool,
    request: RingRequest<F>,
    created: Result<FileRegistration<F>, E>,
    ring: Arc<R>,
    launched: Result<PollerLaunch<R, F, H>, E>,
    id: int,
)
    requires
        fds@.len() == files@.len(),
        forall|i: int| 0 <= i < files@.len() ==> #[trigger] fds@[i] == fd_of(files@[i]),
        call_ensures(
            UringContext::<R, F, H>::new,
            (files, fds, nr, poll, kernel_poll),
            request,
        ),
        call_ensures(RingRequest::<F>::created::<E>, (request, Ok::<(), E>(())), created),
        created is Ok ==> call_ensures(
            FileRegistration::<F>::registered::<R, H, E>,
            (created->Ok_0, Ok::<Arc<R>, E>(ring)),
            launched,
        ),
        0 <= id < files@.len(),
    ensures
        created is Ok,
        created->Ok_0.fds@.len() == files@.len(),
        created->Ok_0.fds@[id] == fd_of(files@[id]),
        launched is Ok,
        launched->Ok_0.inner._files@.len() == files@.len(),
        launched->Ok_0.inner._files@[id] == files@[id],
{
}

/// What is registered without owned files are the descriptors given, each in its
/// place.
pub proof fn law_borrowed_descriptors_keep_their_places<R, F, H, E>(
    fds: Vec<i32>,
    nr: usize,
    poll: usize,
    kernel_poll: bool,
    request: RingRequest<F>,
    created: Result<FileRegistration<F>, E>,
)
    requires
        call_ensures(UringContext::<R, F, H>::new_ref, (fds, nr, poll, kernel_poll), request),
        call_ensures(RingRequest::<F>::created::<E>, (request, Ok::<(), E>(())), created),
    ensures
        created is Ok,
        created->Ok_0.fds@ == fds@,
        created->Ok_0.files@ == Seq::<F>::empty(),
        created->Ok_0.poll == poll,
{
}

/// A step of the set-up that fails ends the set-up with its error.
pub proof fn law_failed_step_ends_the_set_up<R, F, H, E>(
    request: RingRequest<F>,
    registration: FileRegistration<F>,
    err: E,
    created: Result<FileRegistration<F>, E>,
    launched: Result<PollerLaunch<R, F, H>, E>,
)
    requires
        call_ensures(RingRequest::<F>::created::<E>, (request, Err::<(), E>(err)), created),
        call_ensures(
            FileRegistration::<F>::registered::<R, H, E>,
            (registration, Err::<Arc<R>, E>(err)),
            launched,
        ),
    ensures
        created == Err::<FileRegistration<F>, E>(err),
        launched == Err::<PollerLaunch<R, F, H>, E>(err),
{
}

/// So many pollers, each of which polls this ring, and listens to the sender that
/// is kept.
pub open spec fn launches<R, F, H>(
    launch: PollerLaunch<R, F, H>,
    ring: Arc<R>,
    files: Vec<F>,
    poll: usize,
) -> bool {
    &&& launch.inner.ring == ring
    &&& launch.inner._files == files
    &&& launch.pollers@.len() == poll
    &&& launch.inner.poll_finish is Some
    &&& forall|i: int|
        0 <= i < poll ==> {
            &&& (#[trigger] launch.pollers@[i]).ring == ring
            &&& finish_of_receiver(launch.pollers@[i].finish) == finish_of_sender(
                launch.inner.poll_finish->0,
            )
        }
}

/// A set-up whose steps succeed ends with a context of that ring and those files,
/// with as many pollers as were asked for, and with the handles of the tasks that
/// were spawned.
pub proof fn law_set_up_ends_with_the_context<R, F, H, E>(
    registration: FileRegistration<F>,
    ring: Arc<R>,
    launched: Result<PollerLaunch<R, F, H>, E>,
    handles: Vec<H>,
    context: UringContext<R, F, H>,
)
    requires
        call_ensures(
            FileRegistration::<F>::registered::<R, H, E>,
            (registration, Ok::<Arc<R>, E>(ring)),
            launched,
        ),
        launched is Ok ==> call_ensures(
            PollerLaunch::<R, F, H>::spawned,
            (launched->Ok_0, handles),
            context,
        ),
    ensures
        launched is Ok,
        launches(launched->Ok_0, ring, registration.files, registration.poll),
        launched->Ok_0.inner.handles@.len() == 0,
        context.inner.ring == ring,
        context.inner._files == registration.files,
        context.inner.handles == handles,
        context.inner.poll_finish == launched->Ok_0.inner.poll_finish,
        context.inner.poll_finish is Some,
{
}

/// A ring is given its pollers, and keeps what it had.
pub proof fn law_from_inner<R, F, H>(
    inner: UringContextInner<R, F, H>,
    poll: usize,
    launch: PollerLaunch<R, F, H>,
)
    requires
        call_ensures(UringContext::<R, F, H>::from_inner, (inner, poll), launch),
    ensures
        launches(launch, inner.ring, inner._files, poll),
        launch.inner.handles == inner.handles,
{
}

/// A ring begins without pollers, with the files that it is to keep open.
pub proof fn law_new_inner<R, F, H>(
    files: Vec<F>,
    ring: Arc<R>,
    owning: UringContextInner<R, F, H>,
    borrowing: UringContextInner<R, F, H>,
)
    requires
        call_ensures(UringContextInner::<R, F, H>::new, (files, ring), owning),
        call_ensures(UringContextInner::<R, F, H>::new_ref, (ring,), borrowing),
    ensures
        owning.ring == ring,
        owning._files == files,
        owning.handles@.len() == 0,
        owning.poll_finish is None,
        borrowing.ring == ring,
        borrowing._files@.len() == 0,
        borrowing.handles@.len() == 0,
        borrowing.poll_finish is None,
{
}

/// To shut down drops the sender and hands out every handle, in order, and can be
/// done as long as the sender is there.
pub proof fn law_shut_down<R, F, H>(inner: &mut UringContextInner<R, F, H>, handles: Vec<H>)
    requires
        call_ensures(UringContextInner::<R, F, H>::shut_down, (inner,), handles),
    ensures
        old(inner).poll_finish is Some ==> call_requires(
            UringContextInner::<R, F, H>::shut_down,
            (inner,),
        ),
        handles == old(inner).handles,
        final(inner).handles@.len() == 0,
        final(inner).poll_finish is None,
        final(inner).ring == old(inner).ring,
        final(inner)._files == old(inner)._files,
{
}

/// Files over a context read through that context.
pub proof fn law_files_of_a_context<R, F, H>(
    context: UringContext<R, F, H>,
    files: UringRandomAccessFiles<R, F, H>,
)
    requires
        call_ensures(UringRandomAccessFiles::<R, F, H>::from_context, (context,), files),
    ensures
        files.context == context,
{
}

/// A clone shares everything with what was cloned.
pub proof fn law_clone_shares<R, F, H>(
    context: &UringContext<R, F, H>,
    copy: UringContext<R, F, H>,
    files: &UringRandomAccessFiles<R, F, H>,
    files_copy: UringRandomAccessFiles<R, F, H>,
)
    requires
        call_ensures(UringContext::<R, F, H>::clone, (context,), copy),
        call_ensures(UringRandomAccessFiles::<R, F, H>::clone, (files,), files_copy),
    ensures
        copy.inner == context.inner,
        files_copy.context.inner == files.context.inner,
{
}

/// A position is drawn from the files and from the blocks, wherever there are
/// any.
pub proof fn law_random_position(nf: usize, nb: usize, position: (usize, usize))
    requires
        call_ensures(random_position, (nf, nb), position),
    ensures
        nf > 0 && nb > 0 ==> call_requires(random_position, (nf, nb)),
        position.0 < nf && drawn_below(nf, position.0),
        position.1 < nb && drawn_below(nb, position.1),
{
}

/// A block is asked for by the number of its file, cut to 32 bits, and from the
/// byte on that so many blocks of 4096 bytes come before.
pub proof fn law_read_position(fid: usize, blkid: usize, at: (u32, u64))
    requires
        call_ensures(read_position, (fid, blkid), at),
    ensures
        4096 * blkid <= u64::MAX ==> call_requires(read_position, (fid, blkid)),
        (fid - at.0) % 0x1_0000_0000 == 0,
        at.1 == 4096 * blkid,
{
}

/// A read passes where it has read 4096 bytes, every word of which stands for the
/// hash of that file and block. What is wrong otherwise is told as it is, the
/// size first.
pub proof fn law_check_read(
    size: usize,
    buf: &[u8],
    fid: usize,
    blkid: usize,
    hash: u64,
    outcome: Result<(), ReadFault>,
)
    requires
        call_ensures(gen_hash, (fid, blkid), hash),
        call_ensures(check_read, (size, buf, fid, blkid), outcome),
    ensures
        outcome is Ok <==> size == 4096 && buf@.len() == 4096 && words_are(
            ByteOrder::Big,
            buf@,
            512,
            hash,
        ),
        size != 4096 ==> outcome == Err::<(), ReadFault>(ReadFault::Size(size)),
        outcome matches Err(ReadFault::Size(n)) ==> n == size && size != 4096,
        outcome matches Err(ReadFault::Block(mismatch)) ==> {
            &&& buf@.len() == 4096 ==> tells(ByteOrder::Big, buf@, hash, Err(mismatch))
            &&& buf@.len() != 4096 ==> (mismatch matches Mismatch::Length { len } && len
                == buf@.len())
        },
{
    if size == 4096 && buf@.len() == 4096 {
        match outcome {
            Ok(()) => {
                lemma_tells(ByteOrder::Big, buf@, hash, Ok(()));
            },
            Err(ReadFault::Block(mismatch)) => {
                lemma_tells(ByteOrder::Big, buf@, hash, Err(mismatch));
            },
            Err(ReadFault::Size(_)) => {},
        }
    }
}

/// A block that is copied out of a file has the 4096 bytes of the file that stand
/// at its place, and can be copied wherever the file has them.
pub proof fn law_copy_block(file: &[u8], blkid: usize, block: Vec<u8>)
    requires
        4096 * blkid + 4096 <= file@.len(),
    ensures
        call_requires(copy_block, (file, blkid)),
        call_ensures(copy_block, (file, blkid), block) ==> {
            &&& block@.len() == 4096
            &&& forall|i: int| 0 <= i < 4096 ==> #[trigger] block@[i] == file@[4096 * blkid + i]
        },
{
}

/// Progress counts the blocks one by one from 0, asks for a look at the clock after
/// every so many, and tells to stop when the time is over, the first time only.
pub proof fn law_progress<'a>(
    begun: Progress,
    counting: &'a mut Progress,
    interval: usize,
    look: bool,
    looking: &'a mut Progress,
    over: bool,
    stop: bool,
)
    requires
        call_ensures(Progress::new, (), begun),
        call_ensures(Progress::completed, (counting, interval), look),
        call_ensures(Progress::looked, (looking, over), stop),
    ensures
        begun.cnt == 0 && !begun.stopped,
        old(counting).cnt < usize::MAX && interval > 0 ==> call_requires(
            Progress::completed,
            (counting, interval),
        ),
        final(counting).cnt == old(counting).cnt + 1,
        final(counting).stopped == old(counting).stopped,
        look <==> (old(counting).cnt + 1) % interval as int == 0,
        stop <==> over && !old(looking).stopped,
        final(looking).stopped <==> over || old(looking).stopped,
        final(looking).cnt == old(looking).cnt,
{
}

/// A thread that reads mapped files counts its blocks, looks at its own channel
/// after every 10000 of them, and stops when it finds the channel at its end, and
/// at no other time.
pub proof fn law_worker<'a>(
    rx: crossbeam_channel::Receiver<()>,
    begun: MmapWorker,
    cnt: usize,
    signal: FinishSignal,
    stops: bool,
    worker: &'a mut MmapWorker,
    stop: bool,
)
    requires
        call_ensures(MmapWorker::new, (rx,), begun),
        call_ensures(MmapWorker::stops, (cnt, signal), stops),
        call_ensures(MmapWorker::completed, (worker,), stop),
    ensures
        begun.cnt == 0 && begun.rx == rx,
        stops <==> cnt % 10000 == 0 && signal is Disconnected,
        old(worker).cnt < usize::MAX ==> call_requires(MmapWorker::completed, (worker,)),
        final(worker).cnt == old(worker).cnt + 1,
        final(worker).rx == old(worker).rx,
        (old(worker).cnt + 1) % 10000 != 0 ==> !stop,
        (old(worker).cnt + 1) % 10000 == 0 ==> exists|found: FinishSignal| #[trigger]
            found_in(old(worker).rx, found) && (stop <==> found is Disconnected),
{
}

/// A report counts what is new, and remembers the count.
pub proof fn law_report_counts_what_is_new(count: Option<u64>, total: &mut u64, samples: u64)
    requires
        call_ensures(samples_since, (count, total), samples),
    ensures
        count matches Some(n) ==> {
            &&& *final(total) == n
            &&& samples == n - *old(total)
            &&& n >= *old(total) ==> call_requires(samples_since, (count, total))
        },
        count is None ==> *final(total) == 0 && samples == 0 - *old(total),
{
}

/// Advice that the kernel took is a success, and any other answer is the error
/// that the system left behind.
pub proof fn law_madvise<E>(result: i32, errno: i32, outcome: Result<(), UringError<E>>)
    requires
        call_ensures(madvise_rand::<E>, (result, errno), outcome),
    ensures
        outcome is Ok <==> result == 0,
        outcome matches Err(err) ==> err == UringError::<E>::Os(errno),
{
}

/// The time is over from its last second on.
pub proof fn law_time_is_over(elapsed: u64, time: u64, over: bool)
    requires
        call_ensures(time_is_over, (elapsed, time), over),
    ensures
        over <==> time <= elapsed,
{
}

/// The metric is shown by its name.
pub proof fn law_metric_name(metric: &Metric, name: String)
    requires
        call_ensures(Metric::to_string, (metric,), name),
    ensures
        name@ == seq!['B', 'l', 'o', 'c', 'k', 'O', 'p'],
{
    reveal_strlit("BlockOp");
    assert(name@ =~= seq!['B', 'l', 'o', 'c', 'k', 'O', 'p']);
}

} // verus!
