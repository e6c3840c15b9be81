//! Random access to files through a ring.
use crate::context::{RingRequest, UringContext};
use crate::flush::UringFlushFuture;
use crate::read::{ReadAction, ReadEvent, ReadState, UringReadFuture};
use crate::traits::RandomAccessFiles;
use vstd::prelude::*;

verus! {

/// The action of a read whose caller wants the number of bytes alone.
pub open spec fn size_only<T, E>(action: ReadAction<(T, usize), E>) -> ReadAction<usize, E> {
    match action {
        ReadAction::Push(entry) => ReadAction::Push(entry),
        ReadAction::Submit => ReadAction::Submit,
        ReadAction::Receive => ReadAction::Receive,
        ReadAction::Wake => ReadAction::Wake,
        ReadAction::Park => ReadAction::Park,
        ReadAction::Finish(Err(err)) => ReadAction::Finish(Err(err)),
        ReadAction::Finish(Ok((_, size))) => ReadAction::Finish(Ok(size)),
    }
}

/// A read into a borrowed buffer, which ends with the number of bytes read.
pub struct UringSizeFuture<'a, R> {
    pub read: UringReadFuture<R, &'a mut [u8]>,
}

impl<'a, R> UringSizeFuture<'a, R> {
    /// A poll, event by event, until the action is to return.
    pub fn poll<E>(&mut self, event: ReadEvent<E>) -> (action: ReadAction<usize, E>)
        requires
            old(self).read.state().valid(),
            old(self).read.state().accepts(event),
        ensures
            final(self).read.state() == old(self).read.state().after(event),
            final(self).read.state().valid(),
            final(self).read.same_ends(old(self).read),
            action == size_only(old(self).read.state().action(event)),
    {
        match self.read.poll(event) {
            ReadAction::Push(entry) => ReadAction::Push(entry),
            ReadAction::Submit => ReadAction::Submit,
            ReadAction::Receive => ReadAction::Receive,
            ReadAction::Wake => ReadAction::Wake,
            ReadAction::Park => ReadAction::Park,
            ReadAction::Finish(Err(err)) => ReadAction::Finish(Err(err)),
            ReadAction::Finish(Ok((_, size))) => ReadAction::Finish(Ok(size)),
        }
    }
}

/// Files that are read through a ring. A clone reads through the same ring.
pub struct UringRandomAccessFiles<R, F, H> {
    pub context: UringContext<R, F, H>,
}

impl<R, F, H> Clone for UringRandomAccessFiles<R, F, H> {
    fn clone(&self) -> (copy: Self)
        ensures
            copy == *self,
    {
        UringRandomAccessFiles { context: self.context.clone() }
    }
}

impl<R, F, H> UringRandomAccessFiles<R, F, H> {
    /// Begins to set up the ring; `from_context` takes what comes of it.
    pub fn new(
        files: Vec<F>,
        fds: Vec<i32>,
        nr: usize,
        poll_futures: usize,
        kernel_poll: bool,
    ) -> (request: RingRequest<F>)
        ensures
            request.asks(files@, fds@, nr, poll_futures, kernel_poll),
    {
        UringContext::<R, F, H>::new(files, fds, nr, poll_futures, kernel_poll)
    }

    /// The files of a ring that has been set up.
    pub fn from_context(context: UringContext<R, F, H>) -> (files: Self)
        ensures
            files.context == context,
    {
        UringRandomAccessFiles { context }
    }

    /// A read that has the ring submit as soon as it is in the queue.
    pub fn read_submit<'a>(&self, id: u32, offset: u64, buf: &'a mut [u8]) -> (read:
        UringSizeFuture<'a, R>)
        ensures
            read.read.state() == ReadState::fresh(buf, id, offset, true),
            read.read.ring == self.context.inner.ring,
            read.read.task.reports_to(read.read.rx),
    {
        let read = self.context.read_submit(id, offset, buf);
        UringSizeFuture { read }
    }

    /// Begins to wait until everything that was submitted has completed.
    pub fn flush(&self) -> (flush: UringFlushFuture<R>)
        ensures
            flush.ring == self.context.inner.ring,
            flush.task.reports_to(flush.rx),
    {
        self.context.flush()
    }

    /// A read that waits for a poller to submit it.
    pub fn read<'a>(&self, id: u32, offset: u64, buf: &'a mut [u8]) -> (read: UringSizeFuture<
        'a,
        R,
    >)
        ensures
            read.read.state() == ReadState::fresh(buf, id, offset, false),
            read.read.ring == self.context.inner.ring,
            read.read.task.reports_to(read.read.rx),
    {
        let read = self.context.read(id, offset, buf);
        UringSizeFuture { read }
    }
}

impl<R, F, H> RandomAccessFiles for UringRandomAccessFiles<R, F, H> {
    type Read<'a> = UringSizeFuture<'a, R>;

    open spec fn asks_for<'a>(read: &Self::Read<'a>) -> (u32, u64, Option<&'a mut [u8]>) {
        (read.read.id, read.read.offset, read.read.buf)
    }

    fn read<'a>(&self, id: u32, offset: u64, buf: &'a mut [u8]) -> (read: UringSizeFuture<'a, R>)
        ensures
            read.read.state() == ReadState::fresh(buf, id, offset, false),
            read.read.ring == self.context.inner.ring,
            read.read.task.reports_to(read.read.rx),
    {
        let read = self.context.read(id, offset, buf);
        UringSizeFuture { read }
    }
}

} // verus!
