use std::cell::RefCell;
use std::sync::Arc;
use uring_positioned_io::context::{PollerLaunch, RingRequest, UringContext, UringContextInner};
use uring_positioned_io::entry::{Entry, Operation};
use uring_positioned_io::error::UringError;
use uring_positioned_io::flush::{FlushAction, FlushEvent, UringFlushFuture};
use uring_positioned_io::poller::{Completion, PollAction, PollEvent, UringPollFuture};
use uring_positioned_io::read::{ReadAction, ReadEvent, Received};
use uring_positioned_io::traits::RandomAccessFiles;
use uring_positioned_io::uring::UringRandomAccessFiles;

const NO_SPACE: i32 = -28;
const BAD_FILE: i32 = -9;

/// A ring over files in memory, which performs what was pushed when it is told
/// to submit.
struct Ring {
    room: usize,
    files: Vec<Vec<u8>>,
    queue: RefCell<Vec<Entry>>,
    completed: RefCell<Vec<Completion>>,
    data: RefCell<Vec<(u64, Vec<u8>)>>,
    submits: RefCell<usize>,
}

impl Ring {
    fn push(&self, entry: Entry) -> Result<(), Entry> {
        let mut queue = self.queue.borrow_mut();
        if queue.len() == self.room {
            return Err(entry);
        }
        queue.push(entry);
        Ok(())
    }

    fn submit(&self) -> Result<usize, i32> {
        *self.submits.borrow_mut() += 1;
        let entries: Vec<Entry> = self.queue.borrow_mut().drain(..).collect();
        let count = entries.len();
        for entry in entries {
            let result = match entry.operation {
                Operation::Nop => 0,
                Operation::Read { file, len, offset } => match self.files.get(file as usize) {
                    None => BAD_FILE,
                    Some(bytes) => {
                        let from = (offset as usize).min(bytes.len());
                        let to = (from + len as usize).min(bytes.len());
                        let read = bytes[from..to].to_vec();
                        let size = read.len() as i32;
                        self.data.borrow_mut().push((entry.user_data, read));
                        size
                    }
                },
            };
            self.completed.borrow_mut().push(Completion { user_data: entry.user_data, result });
        }
        Ok(count)
    }

    fn pop(&self) -> Option<Completion> {
        let mut completed = self.completed.borrow_mut();
        if completed.is_empty() {
            None
        } else {
            Some(completed.remove(0))
        }
    }
}

type Context = UringContext<Ring, Vec<u8>, usize>;

fn set_up(request: RingRequest<Vec<u8>>) -> (Context, Vec<UringPollFuture<Ring>>) {
    let room = request.entries as usize;
    let registration = request.created::<i32>(Ok(())).unwrap();
    let contents = registration.files.clone();
    assert_eq!(registration.fds.len(), contents.len());
    let ring = Arc::new(Ring {
        room,
        files: contents,
        queue: RefCell::new(vec![]),
        completed: RefCell::new(vec![]),
        data: RefCell::new(vec![]),
        submits: RefCell::new(0),
    });
    let launch: PollerLaunch<Ring, Vec<u8>, usize> = registration.registered::<_, _, i32>(Ok(ring)).unwrap();
    let PollerLaunch { pollers, inner } = launch;
    let handles: Vec<usize> = (0..pollers.len()).collect();
    let context = PollerLaunch { pollers: vec![], inner }.spawned(handles);
    (context, pollers)
}

/// One poll of a poller: the deliveries, and the action that it returned with.
fn run_poller(poller: &UringPollFuture<Ring>) -> (Vec<Completion>, PollAction<i32>) {
    let mut delivered = vec![];
    let mut action: PollAction<i32> = poller.start();
    loop {
        action = match action {
            PollAction::Submit => UringPollFuture::<Ring>::poll(PollEvent::Submitted(poller.ring.submit())),
            PollAction::Pop => UringPollFuture::<Ring>::poll(PollEvent::Popped(poller.ring.pop())),
            PollAction::Deliver(completion) => {
                delivered.push(completion);
                UringPollFuture::<Ring>::poll(PollEvent::Delivered)
            }
            done => return (delivered, done),
        };
    }
}

fn received(rx: &mut tokio::sync::oneshot::Receiver<i32>) -> Received {
    match rx.try_recv() {
        Ok(code) => Received::Value(code),
        Err(tokio::sync::oneshot::error::TryRecvError::Empty) => Received::Empty,
        Err(tokio::sync::oneshot::error::TryRecvError::Closed) => Received::Closed,
    }
}

/// Reads through the ring, with a poller that is polled whenever the read waits.
fn read(
    context: &Context,
    poller: &UringPollFuture<Ring>,
    id: u32,
    offset: u64,
    buf: &mut Vec<u8>,
    per_submit: bool,
) -> Result<usize, UringError<i32>> {
    let key = 77;
    let mut read = if per_submit {
        context.read_submit(id, offset, buf)
    } else {
        context.read(id, offset, buf)
    };
    loop {
        let buf_len = read.buf.as_ref().unwrap().len();
        let mut action = read.poll::<i32>(ReadEvent::Polled { buf_len, user_data: key });
        loop {
            action = match action {
                ReadAction::Push(entry) => {
                    let taken = read.ring.push(entry).is_ok();
                    read.poll(ReadEvent::Pushed(taken))
                }
                ReadAction::Submit => {
                    let outcome = read.ring.submit();
                    read.poll(ReadEvent::Submitted(outcome))
                }
                ReadAction::Receive => {
                    let found = received(&mut read.rx);
                    read.poll(ReadEvent::Received(found))
                }
                ReadAction::Wake | ReadAction::Park => break,
                ReadAction::Finish(result) => return result.map(|(_, size)| size),
            };
        }
        let (delivered, last) = run_poller(poller);
        assert_eq!(last, PollAction::Yield);
        for completion in delivered {
            assert_eq!(completion.user_data, key);
            let data: Vec<(u64, Vec<u8>)> = read.ring.data.borrow_mut().drain(..).collect();
            for (_, bytes) in data {
                read.buf.as_mut().unwrap()[..bytes.len()].copy_from_slice(&bytes);
            }
            assert!(read.task.is_armed());
            read.task.finish(completion.result).unwrap();
            assert!(!read.task.is_armed());
        }
    }
}

fn flush(context: &Context, poller: &UringPollFuture<Ring>) -> Result<(), UringError<i32>> {
    let key = 99;
    let mut flush = context.flush();
    let mut action: FlushAction<i32> = UringFlushFuture::<Ring>::poll(FlushEvent::Started { user_data: key });
    loop {
        action = match action {
            FlushAction::Push(entry) => {
                assert_eq!(entry, Entry { operation: Operation::Nop, drain: true, user_data: key });
                match flush.ring.push(entry) {
                    Ok(()) => UringFlushFuture::<Ring>::poll(FlushEvent::Pushed),
                    Err(entry) => {
                        let (_, last) = run_poller(poller);
                        assert_eq!(last, PollAction::Yield);
                        UringFlushFuture::<Ring>::poll(FlushEvent::Refused(entry))
                    }
                }
            }
            FlushAction::Receive => {
                UringFlushFuture::<Ring>::poll(FlushEvent::Received(received(&mut flush.rx)))
            }
            FlushAction::Park => {
                let (delivered, last) = run_poller(poller);
                assert_eq!(last, PollAction::Yield);
                assert_eq!(delivered.len(), 1);
                assert_eq!(delivered[0].user_data, key);
                flush.task.finish(delivered[0].result).unwrap();
                UringFlushFuture::<Ring>::poll(FlushEvent::Received(received(&mut flush.rx)))
            }
            FlushAction::Finish(result) => return result,
        };
    }
}

#[test]
fn test_new() {
    let files = (0..25).map(|_| b"test\n".to_vec()).collect::<Vec<_>>();
    let fds = (100..125).collect::<Vec<i32>>();
    let request = Context::new(files.clone(), fds.clone(), 256, 1, false);
    assert_eq!(request.entries, 256);
    assert_eq!(request.fds, fds);
    assert!(!request.kernel_poll);
    let (context, pollers) = set_up(request);
    assert_eq!(pollers.len(), 1);
    assert_eq!(context.inner._files, files);
    assert_eq!(context.inner.handles, vec![0]);
    assert!(context.inner.poll_finish.is_some());
}

#[test]
fn test_read_and_flush() {
    let files = (0..4).map(|_| b"test".to_vec()).collect::<Vec<_>>();
    let (context, pollers) = set_up(Context::new(files, vec![3, 4, 5, 6], 256, 1, false));
    let mut buf = vec![0; 4];
    for i in 0..4 {
        let sz = read(&context, &pollers[0], i, 0, &mut buf, false).unwrap();
        assert_eq!(&buf[..sz], b"test");
        let sz = read(&context, &pollers[0], i, 1, &mut buf, false).unwrap();
        assert_eq!(&buf[..sz], b"est");
        let sz = read(&context, &pollers[0], i, 0, &mut buf, false).unwrap();
        assert_eq!(&buf[..sz], b"test");
    }
    flush(&context, &pollers[0]).unwrap();
}

#[test]
fn basic_usage() {
    let (context, pollers) = set_up(Context::new(vec![b"test".to_vec()], vec![3], 256, 1, false));
    let mut buf = vec![0; 4];
    let sz = read(&context, &pollers[0], 0, 0, &mut buf, false).unwrap();
    assert_eq!(&buf[..sz], b"test");
}

#[test]
fn read_submit_has_the_ring_submit() {
    let (context, pollers) = set_up(Context::new(vec![b"test".to_vec()], vec![3], 4, 1, true));
    let mut buf = vec![0; 2];
    let sz = read(&context, &pollers[0], 0, 2, &mut buf, true).unwrap();
    assert_eq!(&buf[..sz], b"st");
    // once for the read itself, once for the poller
    assert_eq!(*context.inner.ring.submits.borrow(), 2);
}

#[test]
fn a_read_past_the_end_reads_nothing() {
    let (context, pollers) = set_up(Context::new(vec![b"test".to_vec()], vec![3], 4, 1, false));
    let mut buf = vec![7; 4];
    assert_eq!(read(&context, &pollers[0], 0, 9, &mut buf, false), Ok(0));
    assert_eq!(buf, vec![7; 4]);
}

#[test]
fn a_negative_code_is_the_error() {
    let (context, pollers) = set_up(Context::new(vec![b"test".to_vec()], vec![3], 4, 1, false));
    let mut buf = vec![0; 4];
    assert_eq!(
        read(&context, &pollers[0], 1, 0, &mut buf, false),
        Err(UringError::Os(BAD_FILE))
    );
}

#[test]
fn a_full_queue_is_tried_again() {
    let (context, pollers) = set_up(Context::new(vec![b"test".to_vec()], vec![3], 0, 1, false));
    let mut read = context.read(0, 1, vec![0u8; 4]);
    let poll = || ReadEvent::<i32>::Polled { buf_len: 4, user_data: 5 };
    let first = read.poll(poll());
    let ReadAction::Push(entry) = first else { panic!("{:?}", first) };
    assert!(read.ring.push(entry).is_err());
    assert_eq!(read.poll::<i32>(ReadEvent::Pushed(false)), ReadAction::Wake);
    assert_eq!(read.poll(poll()), ReadAction::Push(entry));
    assert_eq!(read.poll::<i32>(ReadEvent::Pushed(true)), ReadAction::Receive);
    assert_eq!(read.poll(poll()), ReadAction::Receive);
    drop(pollers);
}

#[test]
fn a_flush_pushes_until_the_queue_has_room() {
    let (context, pollers) = set_up(Context::new(vec![b"test".to_vec()], vec![3], 1, 1, false));
    let blocking = Entry { operation: Operation::Nop, drain: false, user_data: 1 };
    context.inner.ring.push(blocking).unwrap();
    assert_eq!(flush(&context, &pollers[0]), Ok(()));
}

#[test]
fn setting_up_fails_with_the_error_of_its_step() {
    let request = Context::new(vec![vec![]], vec![3], 8, 1, false);
    assert_eq!(request.created(Err(NO_SPACE)).err(), Some(NO_SPACE));
    let request = Context::new(vec![vec![]], vec![3], 8, 1, false);
    let registration = request.created::<i32>(Ok(())).unwrap();
    assert_eq!(registration.fds, vec![3]);
    let launch: Result<PollerLaunch<Ring, Vec<u8>, usize>, i32> = registration.registered(Err(BAD_FILE));
    assert_eq!(launch.err(), Some(BAD_FILE));
}

#[test]
fn new_ref_holds_no_files() {
    let request = Context::new_ref(vec![3, 4], 0x1_0000_0010, 2, true);
    assert_eq!(request.entries, 16);
    assert!(request.files.is_empty());
    assert_eq!(request.fds, vec![3, 4]);
    assert_eq!(request.poll, 2);
    assert!(request.kernel_poll);
}

#[test]
fn shutting_down_stops_the_pollers() {
    let (context, pollers) = set_up(Context::new(vec![], vec![], 8, 3, false));
    assert_eq!(pollers.len(), 3);
    for poller in &pollers {
        assert_eq!(poller.start::<i32>(), PollAction::Submit);
    }
    let mut inner: UringContextInner<Ring, Vec<u8>, usize> = Arc::into_inner(context.inner).unwrap();
    assert_eq!(inner.shut_down(), vec![0, 1, 2]);
    assert!(inner.poll_finish.is_none());
    assert!(inner.handles.is_empty());
    for poller in &pollers {
        assert_eq!(run_poller(poller), (vec![], PollAction::Finish(Ok(()))));
    }
}

#[test]
fn a_finish_message_stops_a_poller() {
    let (context, pollers) = set_up(Context::new(vec![], vec![], 8, 1, false));
    context.inner.poll_finish.as_ref().unwrap().send(()).unwrap();
    assert_eq!(pollers[0].start::<i32>(), PollAction::Finish(Ok(())));
    assert_eq!(pollers[0].start::<i32>(), PollAction::Submit);
}

#[test]
fn a_poll_delivers_everything_in_order() {
    let (context, pollers) = set_up(Context::new(vec![], vec![], 8, 1, false));
    for user_data in [4, 2, 9] {
        context.inner.ring.push(Entry { operation: Operation::Nop, drain: false, user_data }).unwrap();
    }
    let (delivered, last) = run_poller(&pollers[0]);
    assert_eq!(
        delivered,
        vec![
            Completion { user_data: 4, result: 0 },
            Completion { user_data: 2, result: 0 },
            Completion { user_data: 9, result: 0 },
        ]
    );
    assert_eq!(last, PollAction::Yield);
}

#[test]
fn a_failed_submit_ends_a_poll() {
    assert_eq!(
        UringPollFuture::<Ring>::poll(PollEvent::Submitted(Err(NO_SPACE))),
        PollAction::Finish(Err(NO_SPACE))
    );
}

#[test]
fn a_clone_reads_through_the_same_ring() {
    let (context, _pollers) = set_up(Context::new(vec![], vec![], 8, 1, false));
    let copy = context.clone();
    assert!(Arc::ptr_eq(&context.inner, &copy.inner));
    let files = UringRandomAccessFiles::from_context(context);
    assert!(Arc::ptr_eq(&files.context.inner, &files.clone().context.inner));
}

#[test]
fn random_access_files_return_the_size() {
    let request = UringRandomAccessFiles::<Ring, Vec<u8>, usize>::new(vec![b"test".to_vec()], vec![3], 8, 1, false);
    let (context, _pollers) = set_up(request);
    let files = UringRandomAccessFiles::from_context(context);
    let mut buf = [0u8; 4];
    let mut read = RandomAccessFiles::read(&files, 0, 1, &mut buf);
    assert_eq!(
        read.poll::<i32>(ReadEvent::Polled { buf_len: 4, user_data: 1 }),
        ReadAction::Push(Entry {
            operation: Operation::Read { file: 0, len: 4, offset: 1 },
            drain: false,
            user_data: 1
        })
    );
    assert_eq!(read.poll::<i32>(ReadEvent::Pushed(true)), ReadAction::Receive);
    assert_eq!(read.poll::<i32>(ReadEvent::Received(Received::Empty)), ReadAction::Park);
    assert_eq!(read.poll::<i32>(ReadEvent::Received(Received::Value(3))), ReadAction::Finish(Ok(3)));

    let mut read = files.read_submit(7, 8, &mut buf);
    assert!(matches!(
        read.poll::<i32>(ReadEvent::Polled { buf_len: 4, user_data: 1 }),
        ReadAction::Push(_)
    ));
    assert_eq!(read.poll::<i32>(ReadEvent::Pushed(true)), ReadAction::Submit);
    assert_eq!(
        read.poll(ReadEvent::Submitted(Err(NO_SPACE))),
        ReadAction::Finish(Err(UringError::Io(NO_SPACE)))
    );
    assert!(files.flush().task.is_armed());
    assert!(!files.read(1, 2, &mut buf).read.per_submit);
}

#[test]
fn reads_under_way_together_each_get_their_own_answer() {
    let files = vec![b"a".to_vec(), b"bb".to_vec(), b"ccc".to_vec()];
    let (context, pollers) = set_up(Context::new(files, vec![3, 4, 5], 8, 1, false));
    let mut reads: Vec<_> = (0..3).map(|id| context.read(id, 0, vec![0u8; 8])).collect();
    for i in [2, 0, 1] {
        match reads[i].poll::<i32>(ReadEvent::Polled { buf_len: 8, user_data: i as u64 }) {
            ReadAction::Push(entry) => context.inner.ring.push(entry).unwrap(),
            other => panic!("{:?}", other),
        }
        assert_eq!(reads[i].poll::<i32>(ReadEvent::Pushed(true)), ReadAction::Receive);
    }
    let mut waiting = context.flush();
    match UringFlushFuture::<Ring>::poll::<i32>(FlushEvent::Started { user_data: 9 }) {
        FlushAction::Push(entry) => context.inner.ring.push(entry).unwrap(),
        other => panic!("{:?}", other),
    }

    let (delivered, last) = run_poller(&pollers[0]);
    assert_eq!(last, PollAction::Yield);
    assert_eq!(delivered.iter().map(|completion| completion.user_data).collect::<Vec<_>>(), vec![2, 0, 1, 9]);
    for completion in &delivered {
        let task = match completion.user_data {
            9 => &mut waiting.task,
            i => &mut reads[i as usize].task,
        };
        assert!(task.is_armed());
        task.finish(completion.result).unwrap();
        assert!(!task.is_armed());
    }
    for (i, mut read) in reads.into_iter().enumerate() {
        let found = received(&mut read.rx);
        assert_eq!(found, Received::Value(i as i32 + 1));
        assert_eq!(
            read.poll::<i32>(ReadEvent::Received(found)),
            ReadAction::Finish(Ok((vec![0; 8], i + 1)))
        );
    }
    let found = received(&mut waiting.rx);
    assert_eq!(
        UringFlushFuture::<Ring>::poll::<i32>(FlushEvent::Received(found)),
        FlushAction::Finish(Ok(()))
    );
}

#[test]
fn a_read_is_positioned() {
    let files = vec![b"0123456789".to_vec(), b"abcdef".to_vec()];
    let (context, pollers) = set_up(Context::new(files, vec![3, 4], 8, 1, false));
    for before in [None, Some(7)] {
        if let Some(offset) = before {
            read(&context, &pollers[0], 0, offset, &mut vec![0; 2], false).unwrap();
        }
        let mut buf = vec![b'x'; 5];
        assert_eq!(read(&context, &pollers[0], 1, 3, &mut buf, false), Ok(3));
        assert_eq!(buf, b"defxx");
        assert_eq!(read(&context, &pollers[0], 0, 4, &mut buf, true), Ok(5));
        assert_eq!(buf, b"45678");
    }
}

#[test]
fn operations_receive_their_own_codes() {
    let (context, _pollers) = set_up(Context::new(vec![], vec![], 8, 1, false));
    let mut first = context.read(0, 0, vec![0u8; 1]);
    let mut second = context.read_submit(0, 0, vec![0u8; 1]);
    let mut third = context.flush();
    second.task.finish(-5).unwrap();
    assert_eq!(received(&mut first.rx), Received::Empty);
    assert_eq!(received(&mut second.rx), Received::Value(-5));
    assert_eq!(received(&mut third.rx), Received::Empty);
    third.task.finish(0).unwrap();
    first.task.finish(7).unwrap();
    assert_eq!(received(&mut first.rx), Received::Value(7));
    assert_eq!(received(&mut third.rx), Received::Value(0));
}

#[test]
fn a_poll_takes_its_steps_in_order() {
    type Poller = UringPollFuture<Ring>;
    let completion = Completion { user_data: 4, result: -9 };
    assert_eq!(Poller::poll::<i32>(PollEvent::Submitted(Ok(1))), PollAction::Pop);
    assert_eq!(Poller::poll::<i32>(PollEvent::Popped(Some(completion))), PollAction::Deliver(completion));
    assert_eq!(Poller::poll::<i32>(PollEvent::Delivered), PollAction::Pop);
    assert_eq!(Poller::poll::<i32>(PollEvent::Popped(None)), PollAction::Yield);
}

#[test]
fn a_context_runs_until_its_last_owner_is_gone() {
    let (context, pollers) = set_up(Context::new(vec![], vec![], 8, 2, false));
    let copy = context.clone();
    let another = copy.clone();
    drop(context);
    let _ = another.flush();
    drop(another);
    for poller in &pollers {
        assert_eq!(poller.start::<i32>(), PollAction::Submit);
    }
    let mut inner = Arc::into_inner(copy.inner).unwrap();
    assert!(inner.poll_finish.is_some());
    assert_eq!(inner.shut_down(), vec![0, 1]);
    for poller in &pollers {
        assert_eq!(poller.start::<i32>(), PollAction::Finish(Ok(())));
    }
}

#[test]
fn handles_are_those_of_the_spawned_pollers() {
    let (context, _pollers) = set_up(Context::new(vec![], vec![], 8, 1, false));
    let inner = Arc::into_inner(context.inner).unwrap();
    assert_eq!(inner.handles, vec![0]);
    let launch = Context::from_inner(inner, 2);
    assert_eq!(launch.inner.handles, vec![0]);
    assert_eq!(launch.pollers.len(), 2);
    assert_eq!(launch.spawned(vec![8, 9]).inner.handles, vec![8, 9]);
}
