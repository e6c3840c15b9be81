//! Setting up a ring with its files and its pollers, and reading through it.
use crate::channel::{
    finish_channel, finish_of_receiver, finish_of_sender, share_finish, FinishSignal,
};
use crate::entry::{low_32_bits, truncate_to_u32};
use crate::flush::UringFlushFuture;
use crate::poller::{poll_action, PollAction, PollEvent, UringPollFuture};
use crate::read::{ReadState, UringReadFuture};
use std::sync::Arc;
use vstd::prelude::*;

verus! {

/// What the users of a ring share: the ring `R`, the handles `H` of the tasks
/// that poll it, the sender that keeps those tasks running, and the files `F`
/// that have to stay open as long as the ring reads from them.
pub struct UringContextInner<R, F, H> {
    pub handles: Vec<H>,
    pub ring: Arc<R>,
    pub poll_finish: Option<crossbeam_channel::Sender<()>>,
    pub _files: Vec<F>,
}

impl<R, F, H> UringContextInner<R, F, H> {
    /// The sender that keeps the pollers running is there.
    pub open spec fn running(self) -> bool {
        self.poll_finish is Some
    }

    /// A ring that owns its files.
    pub fn new(files: Vec<F>, ring: Arc<R>) -> (inner: Self)
        ensures
            inner.ring == ring,
            inner._files == files,
            inner.handles@ == Seq::<H>::empty(),
            inner.poll_finish is None,
    {
        let mut this = Self::new_ref(ring);
        this._files = files;
        this
    }

    /// A ring whose files somebody else keeps open.
    pub fn new_ref(ring: Arc<R>) -> (inner: Self)
        ensures
            inner.ring == ring,
            inner._files@ == Seq::<F>::empty(),
            inner.handles@ == Seq::<H>::empty(),
            inner.poll_finish is None,
    {
        UringContextInner { _files: vec![], ring, handles: vec![], poll_finish: None }
    }

    /// Begins a flush of the ring.
    pub fn flush(&self) -> (flush: UringFlushFuture<R>)
        ensures
            flush.ring == self.ring,
            flush.task.reports_to(flush.rx),
    {
        UringFlushFuture::new(self.ring.clone())
    }

    /// The end of the ring: drops the sender that keeps the pollers running,
    /// and hands out the handles, which are to be aborted in this order.
    pub fn shut_down(&mut self) -> (handles: Vec<H>)
        requires
            old(self).running(),
        ensures
            handles == old(self).handles,
            final(self).handles@ == Seq::<H>::empty(),
            !final(self).running(),
            final(self).ring == old(self).ring,
            final(self)._files == old(self)._files,
    {
        self.poll_finish = None;
        let mut handles: Vec<H> = Vec::new();
        std::mem::swap(&mut handles, &mut self.handles);
        handles
    }
}

/// The first step of setting up: create a ring of `entries` entries, polled by
/// a kernel thread where `kernel_poll` says so, and report `created`.
pub struct RingRequest<F> {
    pub entries: u32,
    pub kernel_poll: bool,
    pub files: Vec<F>,
    pub fds: Vec<i32>,
    pub poll: usize,
}

/// The second step: register `fds` with the ring, and report `registered`.
pub struct FileRegistration<F> {
    pub fds: Vec<i32>,
    pub files: Vec<F>,
    pub poll: usize,
}

/// The third step: spawn `pollers`, and report `spawned`.
pub struct PollerLaunch<R, F, H> {
    pub pollers: Vec<UringPollFuture<R>>,
    pub inner: UringContextInner<R, F, H>,
}

impl<F> RingRequest<F> {
    /// What is to be asked for.
    pub open spec fn asks(
        self,
        files: Seq<F>,
        fds: Seq<i32>,
        nr: usize,
        poll: usize,
        kernel_poll: bool,
    ) -> bool {
        &&& self.entries == low_32_bits(nr as nat)
        &&& self.kernel_poll == kernel_poll
        &&& self.files@ == files
        &&& self.fds@ == fds
        &&& self.poll == poll
    }

    /// The ring was created, or creating it failed.
    pub fn created<E>(self, outcome: Result<(), E>) -> (next: Result<FileRegistration<F>, E>)
        ensures
            outcome matches Err(err) ==> next == Err::<FileRegistration<F>, E>(err),
            outcome is Ok ==> next == Ok::<FileRegistration<F>, E>(
                FileRegistration { fds: self.fds, files: self.files, poll: self.poll },
            ),
    {
        match outcome {
            Err(err) => Err(err),
            Ok(()) => Ok(FileRegistration { fds: self.fds, files: self.files, poll: self.poll }),
        }
    }
}

impl<F> FileRegistration<F> {
    /// The files were registered with this ring, or registering them failed.
    pub fn registered<R, H, E>(self, outcome: Result<Arc<R>, E>) -> (next: Result<
        PollerLaunch<R, F, H>,
        E,
    >)
        ensures
            outcome matches Err(err) ==> next == Err::<PollerLaunch<R, F, H>, E>(err),
            outcome matches Ok(ring) ==> {
                &&& next is Ok
                &&& next->Ok_0.ready(ring, self.files, self.poll)
                &&& next->Ok_0.inner.handles@ == Seq::<H>::empty()
            },
    {
        match outcome {
            Err(err) => Err(err),
            Ok(ring) => {
                let inner = UringContextInner::new(self.files, ring);
                Ok(UringContext::from_inner(inner, self.poll))
            },
        }
    }
}

impl<R, F, H> PollerLaunch<R, F, H> {
    /// A ring with its files, its finish channel and so many pollers, each of
    /// which polls that ring, and listens to the sender that the ring keeps.
    pub open spec fn ready(self, ring: Arc<R>, files: Vec<F>, poll: usize) -> bool {
        &&& self.inner.ring == ring
        &&& self.inner._files == files
        &&& self.inner.running()
        &&& self.pollers@.len() == poll
        &&& forall|i: int| 0 <= i < poll ==> (#[trigger] self.pollers@[i]).ring == ring
        &&& forall|i: int|
            0 <= i < poll ==> finish_of_receiver((#[trigger] self.pollers@[i]).finish)
                == finish_of_sender(self.inner.poll_finish->0)
    }

    /// The context that comes of this once its pollers are spawned.
    pub open spec fn leads_to(self, context: UringContext<R, F, H>, handles: Vec<H>) -> bool {
        &&& context.inner.handles == handles
        &&& context.inner.ring == self.inner.ring
        &&& context.inner._files == self.inner._files
        &&& context.inner.poll_finish == self.inner.poll_finish
    }

    /// The pollers were spawned, and these are their handles.
    pub fn spawned(self, handles: Vec<H>) -> (context: UringContext<R, F, H>)
        ensures
            self.leads_to(context, handles),
            self.inner.running() ==> context.running(),
    {
        let mut inner = self.inner;
        inner.handles = handles;
        UringContext { inner: Arc::new(inner) }
    }
}

/// A ring that files can be read through. A clone reads through the same ring.
pub struct UringContext<R, F, H> {
    pub inner: Arc<UringContextInner<R, F, H>>,
}

impl<R, F, H> Clone for UringContext<R, F, H> {
    fn clone(&self) -> (copy: Self)
        ensures
            copy == *self,
    {
        UringContext { inner: self.inner.clone() }
    }
}

impl<R, F, H> UringContext<R, F, H> {
    /// The context can be used, and its pollers are kept running.
    pub open spec fn running(self) -> bool {
        self.inner.running()
    }

    /// Begins to set up a ring that owns `files`, whose descriptors are `fds`,
    /// with room for `nr` entries and with `poll` pollers.
    pub fn new(
        files: Vec<F>,
        fds: Vec<i32>,
        nr: usize,
        poll: usize,
        kernel_poll: bool,
    ) -> (request: RingRequest<F>)
        ensures
            request.asks(files@, fds@, nr, poll, kernel_poll),
    {
        RingRequest { entries: truncate_to_u32(nr), kernel_poll, files, fds, poll }
    }

    /// Begins to set up a ring over files that somebody else keeps open.
    pub fn new_ref(fds: Vec<i32>, nr: usize, poll: usize, kernel_poll: bool) -> (request:
        RingRequest<F>)
        ensures
            request.asks(Seq::empty(), fds@, nr, poll, kernel_poll),
    {
        RingRequest { entries: truncate_to_u32(nr), kernel_poll, files: vec![], fds, poll }
    }

    /// Gives a ring its finish channel and its pollers.
    pub fn from_inner(inner: UringContextInner<R, F, H>, poll: usize) -> (launch: PollerLaunch<
        R,
        F,
        H,
    >)
        ensures
            launch.ready(inner.ring, inner._files, poll),
            launch.inner.handles == inner.handles,
    {
        let (tx, rx) = finish_channel();
        let mut inner = inner;
        let ghost ring = inner.ring;
        let ghost files = inner._files;
        inner.poll_finish = Some(tx);
        let mut pollers: Vec<UringPollFuture<R>> = Vec::new();
        for i in 0..poll
            invariant
                pollers@.len() == i,
                forall|j: int| 0 <= j < i ==> (#[trigger] pollers@[j]).ring == ring,
                forall|j: int|
                    0 <= j < i ==> finish_of_receiver((#[trigger] pollers@[j]).finish)
                        == finish_of_receiver(rx),
                inner.ring == ring,
        {
            pollers.push(UringPollFuture { ring: inner.ring.clone(), finish: share_finish(&rx) });
        }
        PollerLaunch { pollers, inner }
    }

    /// A read at `offset` of the `id`-th file into `buf`, which waits for a
    /// poller to submit it.
    pub fn read<T>(&self, id: u32, offset: u64, buf: T) -> (read: UringReadFuture<R, T>)
        ensures
            read.state() == ReadState::fresh(buf, id, offset, false),
            read.ring == self.inner.ring,
            read.task.reports_to(read.rx),
    {
        UringReadFuture::new(self.inner.ring.clone(), buf, id, offset, false)
    }

    /// A read at `offset` of the `id`-th file into `buf`, which has the ring
    /// submit as soon as it is in the queue.
    pub fn read_submit<T>(&self, id: u32, offset: u64, buf: T) -> (read: UringReadFuture<R, T>)
        ensures
            read.state() == ReadState::fresh(buf, id, offset, true),
            read.ring == self.inner.ring,
            read.task.reports_to(read.rx),
    {
        UringReadFuture::new(self.inner.ring.clone(), buf, id, offset, true)
    }

    /// Begins to wait until everything that was submitted has completed.
    pub fn flush(&self) -> (flush: UringFlushFuture<R>)
        ensures
            flush.ring == self.inner.ring,
            flush.task.reports_to(flush.rx),
    {
        self.inner.flush()
    }
}

/// A context and its clones: how many there are, and the sender that they share.
pub struct Owners {
    pub count: nat,
    pub poll_finish: Option<crossbeam_channel::Sender<()>>,
}

/// What can be done with a context or one of its clones.
pub enum OwnerStep {
    /// It is cloned.
    Clone,
    /// It is read through or flushed.
    Use,
    /// It is dropped; the last one is shut down.
    Drop,
}

impl Owners {
    /// A context that has not been cloned yet.
    pub open spec fn of<R, F, H>(context: UringContext<R, F, H>) -> Self {
        Owners { count: 1, poll_finish: context.inner.poll_finish }
    }

    /// What is left after a step: a clone shares the sender, reads and flushes
    /// do not touch it, and it is gone once the last owner is.
    pub open spec fn after(self, step: OwnerStep) -> Self {
        match step {
            OwnerStep::Clone => Owners { count: self.count + 1, ..self },
            OwnerStep::Use => self,
            OwnerStep::Drop => if self.count > 1 {
                Owners { count: (self.count - 1) as nat, ..self }
            } else {
                Owners { count: 0, poll_finish: None }
            },
        }
    }

    /// What is left after a sequence of steps.
    pub open spec fn after_all(self, steps: Seq<OwnerStep>) -> Self
        decreases steps.len(),
    {
        if steps.len() == 0 {
            self
        } else {
            self.after_all(steps.drop_last()).after(steps.last())
        }
    }

    /// Each step has an owner to take it.
    pub open spec fn possible(self, steps: Seq<OwnerStep>) -> bool
        decreases steps.len(),
    {
        steps.len() > 0 ==> self.possible(steps.drop_last()) && self.after_all(
            steps.drop_last(),
        ).count > 0
    }

    /// What a poller finds in the finish channel. Nothing is sent over it, and
    /// it has one sender, so that it is empty as long as that sender is there,
    /// and disconnected from then on.
    pub open spec fn signal(self) -> FinishSignal {
        match self.poll_finish {
            Some(_) => FinishSignal::Empty,
            None => FinishSignal::Disconnected,
        }
    }
}

proof fn lemma_sender_is_kept(owners: Owners, steps: Seq<OwnerStep>)
    requires
        owners.count > 0,
        owners.possible(steps),
    ensures
        owners.after_all(steps).poll_finish == if owners.after_all(steps).count > 0 {
            owners.poll_finish
        } else {
            None
        },
    decreases steps.len(),
{
    if steps.len() > 0 {
        lemma_sender_is_kept(owners, steps.drop_last());
    }
}

/// A context runs until the last of its owners is gone. As long as there is one,
/// the sender of the finish channel is the one that the context was set up with:
/// the context can be shut down, and all its pollers, which listen to that
/// sender, go on. Once the last owner is gone, they stop.
pub proof fn law_context_runs_until_the_last_drop<R, F, H, E>(
    launch: PollerLaunch<R, F, H>,
    ring: Arc<R>,
    files: Vec<F>,
    poll: usize,
    context: UringContext<R, F, H>,
    handles: Vec<H>,
    steps: Seq<OwnerStep>,
)
    requires
        launch.ready(ring, files, poll),
        launch.leads_to(context, handles),
        Owners::of(context).possible(steps),
    ensures
        ({
            let now = Owners::of(context).after_all(steps);
            let action = poll_action(PollEvent::<E>::Signalled(now.signal()));
            &&& context.running()
            &&& now.count > 0 ==> {
                &&& now.poll_finish == context.inner.poll_finish
                &&& now.poll_finish is Some
                &&& forall|i: int|
                    0 <= i < poll ==> finish_of_receiver((#[trigger] launch.pollers@[i]).finish)
                        == finish_of_sender(now.poll_finish->0)
                &&& action == PollAction::<E>::Submit
            }
            &&& now.count == 0 ==> {
                &&& now.poll_finish is None
                &&& action == PollAction::<E>::Finish(Ok(()))
            }
        }),
{
    lemma_sender_is_kept(Owners::of(context), steps);
}

} // verus!
