use std::sync::Arc;
use uring_positioned_io::entry::{truncate_to_u32, Entry, Operation};
use uring_positioned_io::error::UringError;
use uring_positioned_io::flush::{FlushAction, FlushEvent, UringFlushFuture};
use uring_positioned_io::read::{Polled, ReadAction, ReadEvent, Received, UringReadFuture};
use uring_positioned_io::task::UringTask;

fn read_entry(buf_len: usize, offset: u64) -> Operation {
    let entry = Entry::read(3, buf_len, offset, 11);
    assert_eq!(entry.user_data, 11);
    assert!(!entry.drain);
    entry.operation
}

#[test]
fn entries_ask_for_what_was_asked() {
    assert_eq!(read_entry(4096, 8192), Operation::Read { file: 3, len: 4096, offset: 8192 });
    assert_eq!(read_entry(0, 0), Operation::Read { file: 3, len: 0, offset: 0 });
    assert_eq!(
        read_entry(0xffff_ffff, i64::MAX as u64),
        Operation::Read { file: 3, len: 0xffff_ffff, offset: i64::MAX }
    );
}

#[test]
fn entries_keep_the_low_bits() {
    assert_eq!(read_entry(0x1_0000_0005, 0), Operation::Read { file: 3, len: 5, offset: 0 });
    assert_eq!(read_entry(1, u64::MAX), Operation::Read { file: 3, len: 1, offset: -1 });
    assert_eq!(read_entry(1, 1 << 63), Operation::Read { file: 3, len: 1, offset: i64::MIN });
    assert_eq!(truncate_to_u32(0x1_0000_0000), 0);
    assert_eq!(truncate_to_u32(256), 256);
}

#[test]
fn flush_entries_wait_for_everything_before() {
    assert_eq!(
        Entry::flush(5),
        Entry { operation: Operation::Nop, drain: true, user_data: 5 }
    );
}

fn submitted_read(per_submit: bool) -> UringReadFuture<(), &'static str> {
    let mut read = UringReadFuture::new(Arc::new(()), "buffer", 1, 2, per_submit);
    read.poll::<u8>(ReadEvent::Polled { buf_len: 6, user_data: 1 });
    read.poll::<u8>(ReadEvent::Pushed(true));
    read
}

#[test]
fn a_new_read_waits_to_be_polled() {
    let read = UringReadFuture::new(Arc::new(9), "buffer", 1, 2, true);
    assert_eq!((*read.ring, read.buf, read.id, read.offset), (9, Some("buffer"), 1, 2));
    assert!(read.per_submit && !read.submitted && read.task.is_armed());
}

#[test]
fn success_returns_the_buffer() {
    let mut read = submitted_read(false);
    assert_eq!(
        read.poll::<u8>(ReadEvent::Received(Received::Value(0))),
        ReadAction::Finish(Ok(("buffer", 0)))
    );
    assert_eq!(read.buf, None);
    let mut read = submitted_read(true);
    assert_eq!(read.poll::<u8>(ReadEvent::Submitted(Ok(1))), ReadAction::Receive);
    assert_eq!(
        read.poll::<u8>(ReadEvent::Received(Received::Value(i32::MAX))),
        ReadAction::Finish(Ok(("buffer", 0x7fff_ffff)))
    );
}

#[test]
fn failure_keeps_the_buffer() {
    let mut read = submitted_read(false);
    assert_eq!(read.poll::<u8>(ReadEvent::Received(Received::Empty)), ReadAction::Park);
    assert_eq!(
        read.poll::<u8>(ReadEvent::Received(Received::Value(-5))),
        ReadAction::Finish(Err(UringError::Os(-5)))
    );
    assert_eq!(
        read.poll::<u8>(ReadEvent::Received(Received::Closed)),
        ReadAction::Finish(Err(UringError::Other("failed to receive")))
    );
    assert_eq!(read.buf, Some("buffer"));
}

#[test]
fn a_failed_submit_leaves_the_read_submitted() {
    let mut read = submitted_read(true);
    assert_eq!(
        read.poll(ReadEvent::Submitted(Err(8u8))),
        ReadAction::Finish(Err(UringError::Io(8u8)))
    );
    assert!(read.submitted);
    assert_eq!(
        read.poll::<u8>(ReadEvent::Polled { buf_len: 6, user_data: 1 }),
        ReadAction::Receive
    );
}

#[test]
fn submit_stops_where_the_entry_is_in_the_queue() {
    let mut read = UringReadFuture::new(Arc::new(()), "buffer", 1, 2, false);
    let pushed = read.submit::<u8>(ReadEvent::Polled { buf_len: 6, user_data: 1 });
    assert_eq!(pushed, ReadAction::Push(Entry::read(1, 6, 2, 1)));
    assert_eq!(read.submit::<u8>(ReadEvent::Pushed(false)), ReadAction::Wake);
    assert!(!read.submitted);
    assert_eq!(read.submit::<u8>(ReadEvent::Pushed(true)), ReadAction::Receive);
}

#[test]
fn retrieve_tells_the_three_cases_apart() {
    type Read = UringReadFuture<(), ()>;
    assert_eq!(Read::retrieve::<u8>(Received::Empty), Polled::Pending);
    assert_eq!(Read::retrieve::<u8>(Received::Value(-1)), Polled::Ready(Ok(-1)));
    assert_eq!(
        Read::retrieve::<u8>(Received::Closed),
        Polled::Ready(Err(UringError::Other("failed to receive")))
    );
}

#[test]
fn a_task_sends_its_code_once() {
    let (mut task, mut rx) = UringTask::new();
    assert!(rx.try_recv().is_err());
    assert_eq!(task.finish(42), Ok(()));
    assert!(!task.is_armed());
    assert_eq!(rx.try_recv(), Ok(42));
}

#[test]
fn a_code_that_nobody_waits_for_comes_back() {
    let (mut task, rx) = UringTask::new();
    drop(rx);
    assert_eq!(task.finish(42), Err(42));
}

#[test]
fn a_flush_succeeds_with_zero_alone() {
    type Flush = UringFlushFuture<()>;
    let failed = || FlushAction::Finish(Err(UringError::Other("failed to recv")));
    assert_eq!(
        Flush::poll::<u8>(FlushEvent::Received(Received::Value(0))),
        FlushAction::Finish(Ok(()))
    );
    assert_eq!(Flush::poll::<u8>(FlushEvent::Received(Received::Value(1))), failed());
    assert_eq!(Flush::poll::<u8>(FlushEvent::Received(Received::Value(-22))), failed());
    assert_eq!(Flush::poll::<u8>(FlushEvent::Received(Received::Closed)), failed());
    assert_eq!(Flush::poll::<u8>(FlushEvent::Received(Received::Empty)), FlushAction::Park);
    assert_eq!(Flush::poll::<u8>(FlushEvent::Pushed), FlushAction::Receive);
    assert_eq!(
        Flush::poll::<u8>(FlushEvent::Refused(Entry::flush(3))),
        FlushAction::Push(Entry::flush(3))
    );
}
