//! All the operations on a ring together: what is kept while reads, flushes,
//! pollers and the kernel take turns in any order.
use crate::entry::{flush_entry, low_32_bits, read_entry, same_bits_signed, Entry, Operation};
use crate::error::UringError;
use crate::flush::{flush_action, FlushEvent};
use crate::poller::{poll_action, Completion, PollEvent};
use crate::read::{ReadAction, ReadEvent, ReadState, Received};
use vstd::prelude::*;

verus! {

/// How far the one message from the poller to an operation has come.
pub enum Message {
    /// The task is armed: nothing was sent.
    Awaited,
    /// This code was sent, and not received yet.
    Sent(i32),
    /// The code was received.
    Taken,
}

/// An operation on the ring.
pub enum Op<T> {
    Read(ReadState<T>),
    Flush { pushed: bool },
}

impl<T> Op<T> {
    /// The queue took the operation's entry.
    pub open spec fn submitted(self) -> bool {
        match self {
            Op::Read(state) => state.submitted,
            Op::Flush { pushed } => pushed,
        }
    }
}

/// An operation, the message that it waits for, and the buffer that it reads
/// into.
pub struct Pending<T> {
    pub op: Op<T>,
    pub message: Message,
    /// The buffer that was lent to a read.
    pub lent: Option<T>,
    /// The contents of the buffer when it was lent.
    pub given: Seq<u8>,
    /// The contents of the buffer.
    pub bytes: Seq<u8>,
    /// The kernel's code.
    pub answer: Option<i32>,
}

impl<T> Pending<T> {
    /// A poll of this operation, which reports the length of its buffer.
    pub open spec fn polled(self, task: u64) -> ReadEvent<()> {
        ReadEvent::Polled { buf_len: self.given.len() as usize, user_data: task }
    }

    /// The entry that asks the kernel for this operation.
    pub open spec fn entry(self, task: u64) -> Entry {
        match self.op {
            Op::Read(state) => read_entry(state.id, self.given.len() as usize, state.offset, task),
            Op::Flush { .. } => flush_entry(task),
        }
    }

    /// What is sent is what the kernel answered, nothing is answered that was
    /// not submitted, the buffer is as it was until the kernel has answered, and
    /// a read has the buffer that it was lent as long as it has not received its
    /// code.
    pub open spec fn wf(self) -> bool {
        &&& self.given.len() <= usize::MAX
        &&& !self.op.submitted() ==> self.answer is None
        &&& self.answer is None ==> self.bytes == self.given
        &&& match self.message {
            Message::Awaited => true,
            Message::Sent(code) => self.answer == Some(code),
            Message::Taken => self.answer is Some,
        }
        &&& self.op matches Op::Read(state) ==> {
            &&& state.valid()
            &&& !(self.message is Taken) ==> self.lent is Some && state.buf == self.lent
        }
    }
}

/// A ring with everything that is under way on it. A task is known by the value
/// that its entry carries.
pub struct System<T> {
    pub tasks: Map<u64, Pending<T>>,
    /// Pushed, and not submitted to the kernel.
    pub queue: Seq<Entry>,
    /// With the kernel, in the order in which it got them.
    pub running: Seq<Entry>,
    /// Answered by the kernel, and not popped.
    pub completed: Seq<Completion>,
}

/// What can happen next.
pub enum Move<T> {
    /// A read begins, into a buffer with these contents.
    StartRead { task: u64, buf: T, given: Seq<u8>, id: u32, offset: u64, per_submit: bool },
    /// A flush begins.
    StartFlush { task: u64 },
    /// An operation is polled and pushes its entry, which the queue takes or
    /// refuses.
    Push { task: u64, taken: bool },
    /// The ring submits the first `count` entries.
    Submit { count: int },
    /// The kernel answers the `i`-th of the entries that it has, and leaves these
    /// contents in the buffer of its operation.
    Answer { i: int, code: i32, bytes: Seq<u8> },
    /// A poller pops a completion and finishes its task.
    Deliver,
    /// An operation receives its code.
    Receive { task: u64 },
    /// An operation that has received its code is dropped.
    Retire { task: u64 },
}

impl<T> System<T> {
    /// A ring on which nothing is under way.
    pub open spec fn idle() -> Self {
        System {
            tasks: Map::empty(),
            queue: Seq::empty(),
            running: Seq::empty(),
            completed: Seq::empty(),
        }
    }

    /// The entries that were pushed and are not answered, in the order in which
    /// they were pushed.
    pub open spec fn line(self) -> Seq<Entry> {
        self.running + self.queue
    }

    /// The kernel answered the task, and the answer was not popped.
    pub open spec fn answered(self, task: u64) -> bool {
        has_completion(self.completed, task)
    }

    /// The task's entry is in the queue, with the kernel, or among the answers.
    pub open spec fn outstanding(self, task: u64) -> bool {
        has_entry(self.line(), task) || self.answered(task)
    }

    /// The entry of `other` was pushed before that of `task`, and neither is
    /// answered.
    pub open spec fn ahead(self, other: u64, task: u64) -> bool {
        exists|i: int, j: int|
            0 <= i < j < self.line().len() && (#[trigger] self.line()[i]).user_data == other && (
            #[trigger] self.line()[j]).user_data == task
    }

    /// What holds at any time.
    pub open spec fn inv(self) -> bool {
        &&& self.once()
        &&& self.accounted()
    }

    /// Every entry is in one place, once.
    pub open spec fn once(self) -> bool {
        &&& forall|i: int, j: int|
            0 <= i < j < self.line().len() ==> (#[trigger] self.line()[i]).user_data != (
            #[trigger] self.line()[j]).user_data
        &&& forall|i: int, j: int|
            0 <= i < j < self.completed.len() ==> (#[trigger] self.completed[i]).user_data != (
            #[trigger] self.completed[j]).user_data
        &&& forall|i: int, j: int|
            0 <= i < self.line().len() && 0 <= j < self.completed.len() ==> (
            #[trigger] self.line()[i]).user_data != (#[trigger] self.completed[j]).user_data
    }

    /// An operation's entry is outstanding from the moment that the queue took
    /// it until its task has been finished, and is the entry of that operation;
    /// what is among the answers is what the kernel answered.
    pub open spec fn accounted(self) -> bool {
        &&& forall|task: u64| #[trigger]
            self.tasks.contains_key(task) ==> self.tasks[task].wf()
        &&& forall|task: u64| #[trigger]
            self.outstanding(task) ==> {
                &&& self.tasks.contains_key(task)
                &&& self.tasks[task].op.submitted()
                &&& self.tasks[task].message is Awaited
            }
        &&& forall|task: u64| #[trigger]
            self.tasks.contains_key(task) && self.tasks[task].op.submitted()
                && self.tasks[task].message is Awaited ==> self.outstanding(task)
        &&& forall|i: int|
            #![trigger self.line()[i]]
            0 <= i < self.line().len() ==> {
                let pending = self.tasks[self.line()[i].user_data];
                &&& self.line()[i] == pending.entry(self.line()[i].user_data)
                &&& pending.answer is None
            }
        &&& forall|i: int|
            #![trigger self.completed[i]]
            0 <= i < self.completed.len() ==> self.tasks[self.completed[i].user_data].answer == Some(
                self.completed[i].result,
            )
    }

    /// The kernel may answer the `i`-th of the entries that it has: it does not
    /// begin a draining entry before everything older is done, nor anything
    /// newer before the draining entry is done.
    pub open spec fn may_answer(self, i: int) -> bool {
        &&& 0 <= i < self.running.len()
        &&& self.running[i].drain ==> i == 0
        &&& forall|j: int| 0 <= j < i ==> !(#[trigger] self.running[j]).drain
    }

    /// The moves that can be made. A value stands for one task at a time, a
    /// buffer has a length that fits a `usize`, and a task is not dropped before
    /// it has received its code.
    pub open spec fn can(self, m: Move<T>) -> bool {
        match m {
            Move::StartRead { task, given, .. } => !self.tasks.contains_key(task) && given.len()
                <= usize::MAX,
            Move::StartFlush { task } => !self.tasks.contains_key(task),
            Move::Push { task, .. } => self.tasks.contains_key(task)
                && !self.tasks[task].op.submitted(),
            Move::Submit { count } => 0 <= count <= self.queue.len(),
            Move::Answer { i, .. } => self.may_answer(i),
            Move::Deliver => self.completed.len() > 0,
            Move::Receive { task } => self.tasks.contains_key(task)
                && self.tasks[task].message is Sent,
            Move::Retire { task } => self.tasks.contains_key(task)
                && self.tasks[task].message is Taken,
        }
    }

    /// What an operation pushes when it is polled.
    pub open spec fn pushes(self, task: u64) -> Entry {
        match self.tasks[task].op {
            Op::Read(state) => state.action(self.tasks[task].polled(task))->Push_0,
            Op::Flush { .. } => flush_action::<()>(
                FlushEvent::Started { user_data: task },
            )->Push_0,
        }
    }

    /// The task of the completion that a poller pops next, as the poller
    /// delivers it.
    pub open spec fn delivery(self) -> Completion {
        poll_action(PollEvent::<()>::Popped(Some(self.completed.first())))->Deliver_0
    }

    /// The system after a move.
    pub open spec fn after(self, m: Move<T>) -> Self {
        match m {
            Move::StartRead { task, buf, given, id, offset, per_submit } => System {
                tasks: self.tasks.insert(
                    task,
                    Pending {
                        op: Op::Read(ReadState::fresh(buf, id, offset, per_submit)),
                        message: Message::Awaited,
                        lent: Some(buf),
                        given,
                        bytes: given,
                        answer: None,
                    },
                ),
                ..self
            },
            Move::StartFlush { task } => System {
                tasks: self.tasks.insert(
                    task,
                    Pending {
                        op: Op::Flush { pushed: false },
                        message: Message::Awaited,
                        lent: None,
                        given: Seq::empty(),
                        bytes: Seq::empty(),
                        answer: None,
                    },
                ),
                ..self
            },
            Move::Push { task, taken } => System {
                tasks: self.tasks.insert(
                    task,
                    Pending {
                        op: match self.tasks[task].op {
                            Op::Read(state) => Op::Read(
                                state.after(self.tasks[task].polled(task)).after(
                                    ReadEvent::<()>::Pushed(taken),
                                ),
                            ),
                            Op::Flush { .. } => Op::Flush { pushed: taken },
                        },
                        ..self.tasks[task]
                    },
                ),
                queue: if taken {
                    self.queue.push(self.pushes(task))
                } else {
                    self.queue
                },
                ..self
            },
            Move::Submit { count } => System {
                queue: self.queue.skip(count),
                running: self.running + self.queue.take(count),
                ..self
            },
            Move::Answer { i, code, bytes } => System {
                tasks: self.tasks.insert(
                    self.running[i].user_data,
                    Pending {
                        answer: Some(code),
                        bytes,
                        ..self.tasks[self.running[i].user_data]
                    },
                ),
                running: self.running.remove(i),
                completed: self.completed.push(
                    Completion { user_data: self.running[i].user_data, result: code },
                ),
                ..self
            },
            Move::Deliver => System {
                completed: self.completed.skip(1),
                tasks: self.tasks.insert(
                    self.delivery().user_data,
                    Pending {
                        message: Message::Sent(self.delivery().result),
                        ..self.tasks[self.delivery().user_data]
                    },
                ),
                ..self
            },
            Move::Receive { task } => System {
                tasks: self.tasks.insert(
                    task,
                    Pending {
                        op: match self.tasks[task].op {
                            Op::Read(state) => Op::Read(
                                state.after(
                                    ReadEvent::<()>::Received(
                                        Received::Value(self.tasks[task].message->Sent_0),
                                    ),
                                ),
                            ),
                            flush => flush,
                        },
                        message: Message::Taken,
                        ..self.tasks[task]
                    },
                ),
                ..self
            },
            Move::Retire { task } => System { tasks: self.tasks.remove(task), ..self },
        }
    }
}

/// One of the entries is that of the task.
pub open spec fn has_entry(entries: Seq<Entry>, task: u64) -> bool {
    exists|i: int| 0 <= i < entries.len() && (#[trigger] entries[i]).user_data == task
}

/// One of the completions is that of the task.
pub open spec fn has_completion(completions: Seq<Completion>, task: u64) -> bool {
    exists|i: int| 0 <= i < completions.len() && (#[trigger] completions[i]).user_data == task
}

/// What a move does to the entries that are not answered: the queue takes one
/// more, or the kernel answers one.
proof fn lemma_line<T>(before: System<T>, m: Move<T>)
    requires
        before.inv(),
        before.can(m),
    ensures
        before.after(m).line() == match m {
            Move::Push { task, taken: true } => before.line().push(before.pushes(task)),
            Move::Answer { i, .. } => before.line().remove(i),
            _ => before.line(),
        },
{
    let after = before.after(m);
    match m {
        Move::Push { task, taken: true } => {
            assert(after.line() =~= before.line().push(before.pushes(task)));
        },
        Move::Answer { i, .. } => {
            assert(after.line() =~= before.line().remove(i));
        },
        _ => {
            assert(after.line() =~= before.line());
        },
    }
}

/// A move leaves every entry in one place, once.
proof fn lemma_once_is_kept<T>(before: System<T>, m: Move<T>)
    requires
        before.inv(),
        before.can(m),
    ensures
        before.after(m).once(),
{
    let after = before.after(m);
    lemma_line(before, m);
    match m {
        Move::Push { task, .. } => {
            assert(!before.outstanding(task));
            assert(before.pushes(task).user_data == task);
            assert forall|i: int| 0 <= i < before.line().len() implies (
            #[trigger] before.line()[i]).user_data != task by {}
            assert forall|i: int| 0 <= i < before.completed.len() implies (
            #[trigger] before.completed[i]).user_data != task by {}
        },
        Move::Answer { i, .. } => {
            assert(before.line()[i] == before.running[i]);
            assert forall|k: int| 0 <= k < after.line().len() implies #[trigger] after.line()[k]
                == before.line()[if k < i {
                k
            } else {
                k + 1
            }] by {}
        },
        _ => {},
    }
}

/// Which entries are outstanding after a move: those that were, with the one
/// that the queue took, and without the one that was delivered.
proof fn lemma_outstanding<T>(before: System<T>, m: Move<T>, task: u64)
    requires
        before.inv(),
        before.can(m),
    ensures
        before.after(m).outstanding(task) <==> {
            ||| before.outstanding(task) && !(m is Deliver && task
                == before.completed.first().user_data)
            ||| m matches Move::Push { task: pushed, taken: true, .. } && task == pushed
        },
{
    let after = before.after(m);
    lemma_line(before, m);
    match m {
        Move::Push { task: pushed, taken } => {
            let len = before.line().len() as int;
            if taken {
                assert(after.line()[len].user_data == pushed);
                if has_entry(before.line(), task) {
                    let i = choose|i: int|
                        0 <= i < len && (#[trigger] before.line()[i]).user_data == task;
                    assert(after.line()[i].user_data == task);
                }
                if has_entry(after.line(), task) {
                    let i = choose|i: int|
                        0 <= i <= len && (#[trigger] after.line()[i]).user_data == task;
                    if i < len {
                        assert(before.line()[i].user_data == task);
                    }
                }
            }
        },
        Move::Answer { i: at, .. } => {
            let len = before.completed.len() as int;
            assert(before.line()[at] == before.running[at]);
            assert(after.completed[len].user_data == before.line()[at].user_data);
            if has_entry(before.line(), task) {
                let i = choose|i: int|
                    0 <= i < before.line().len() && (#[trigger] before.line()[i]).user_data == task;
                if i < at {
                    assert(after.line()[i].user_data == task);
                } else if i > at {
                    assert(after.line()[i - 1].user_data == task);
                }
            }
            if has_entry(after.line(), task) {
                let i = choose|i: int|
                    0 <= i < after.line().len() && (#[trigger] after.line()[i]).user_data == task;
                if i < at {
                    assert(before.line()[i].user_data == task);
                } else {
                    assert(before.line()[i + 1].user_data == task);
                }
            }
            if before.answered(task) {
                let i = choose|i: int|
                    0 <= i < len && (#[trigger] before.completed[i]).user_data == task;
                assert(after.completed[i].user_data == task);
            }
            if after.answered(task) {
                let i = choose|i: int|
                    0 <= i <= len && (#[trigger] after.completed[i]).user_data == task;
                if i < len {
                    assert(before.completed[i].user_data == task);
                }
            }
        },
        Move::Deliver => {
            assert(before.completed[0] == before.completed.first());
            if before.answered(task) {
                let i = choose|i: int|
                    0 <= i < before.completed.len() && (
                    #[trigger] before.completed[i]).user_data == task;
                if i > 0 {
                    assert(after.completed[i - 1].user_data == task);
                }
            }
            if after.answered(task) {
                let i = choose|i: int|
                    0 <= i < after.completed.len() && (
                    #[trigger] after.completed[i]).user_data == task;
                assert(before.completed[i + 1].user_data == task);
            }
        },
        _ => {},
    }
}

/// A move keeps account of every entry.
proof fn lemma_accounts_are_kept<T>(before: System<T>, m: Move<T>)
    requires
        before.inv(),
        before.can(m),
    ensures
        before.after(m).accounted(),
{
    let after = before.after(m);
    if let Move::Answer { i, .. } = m {
        assert(before.line()[i] == before.running[i]);
        assert(has_entry(before.line(), before.running[i].user_data));
        assert(before.outstanding(before.running[i].user_data));
    }
    if m is Deliver {
        assert(before.answered(before.completed[0].user_data));
        assert(before.outstanding(before.completed.first().user_data));
    }
    assert forall|task: u64| #[trigger] after.tasks.contains_key(task) implies after.tasks[task].wf()
        && (after.tasks[task].op.submitted() && after.tasks[task].message is Awaited
        ==> after.outstanding(task)) by {
        lemma_outstanding(before, m, task);
        if before.tasks.contains_key(task) {
            assert(before.tasks[task].wf());
        }
    }
    assert forall|task: u64| #[trigger] after.outstanding(task) implies {
        &&& after.tasks.contains_key(task)
        &&& after.tasks[task].op.submitted()
        &&& after.tasks[task].message is Awaited
    } by {
        lemma_outstanding(before, m, task);
    }
    assert forall|i: int|
        #![trigger after.line()[i]]
        0 <= i < after.line().len() implies {
        let pending = after.tasks[after.line()[i].user_data];
        &&& after.line()[i] == pending.entry(after.line()[i].user_data)
        &&& pending.answer is None
    } by {
        let entry = after.line()[i];
        lemma_line(before, m);
        let k = match m {
            Move::Answer { i: at, .. } if i >= at => i + 1,
            _ => i,
        };
        if k < before.line().len() {
            assert(entry == before.line()[k]);
            assert(has_entry(before.line(), entry.user_data));
            assert(before.outstanding(entry.user_data));
        }
    }
    assert forall|i: int|
        #![trigger after.completed[i]]
        0 <= i < after.completed.len() implies after.tasks[after.completed[i].user_data].answer
        == Some(after.completed[i].result) by {
        let k = if m is Deliver {
            i + 1
        } else {
            i
        };
        if k < before.completed.len() {
            assert(after.completed[i] == before.completed[k]);
            assert(before.answered(before.completed[k].user_data));
            assert(before.outstanding(before.completed[k].user_data));
        }
    }
}

/// What holds at any time still holds after any move.
pub proof fn law_every_move_keeps_order<T>(before: System<T>, m: Move<T>)
    requires
        before.inv(),
        before.can(m),
    ensures
        before.after(m).inv(),
{
    lemma_once_is_kept(before, m);
    lemma_accounts_are_kept(before, m);
}

/// The system that a sequence of moves makes of an idle ring.
pub open spec fn reached<T>(moves: Seq<Move<T>>) -> System<T>
    decreases moves.len(),
{
    if moves.len() == 0 {
        System::idle()
    } else {
        reached(moves.drop_last()).after(moves.last())
    }
}

/// Each move of a sequence can be made when its turn comes.
pub open spec fn possible<T>(moves: Seq<Move<T>>) -> bool
    decreases moves.len(),
{
    moves.len() > 0 ==> possible(moves.drop_last()) && reached(moves.drop_last()).can(moves.last())
}

/// In whatever order reads, flushes, pollers and the kernel take turns, every
/// entry is in one place, once, and every operation is accounted for.
pub proof fn law_order_is_kept<T>(moves: Seq<Move<T>>)
    requires
        possible(moves),
    ensures
        reached(moves).inv(),
    decreases moves.len(),
{
    if moves.len() > 0 {
        law_order_is_kept(moves.drop_last());
        law_every_move_keeps_order(reached(moves.drop_last()), moves.last());
    }
}

/// A poller that pops a completion always finds the task of that completion,
/// and finds it still waiting: no task is finished twice, and none is finished
/// after it is gone.
pub proof fn law_popped_task_waits<T>(moves: Seq<Move<T>>)
    requires
        possible(moves),
        reached(moves).can(Move::Deliver),
    ensures
        reached(moves).tasks.contains_key(reached(moves).delivery().user_data),
        reached(moves).tasks[reached(moves).delivery().user_data].message is Awaited,
{
    let now = reached(moves);
    law_order_is_kept(moves);
    assert(now.answered(now.completed[0].user_data));
    assert(now.outstanding(now.delivery().user_data));
}

/// No operation is lost: its entry is in the queue, with the kernel or among
/// the answers exactly while the queue has taken it and its task still waits.
pub proof fn law_no_operation_is_lost<T>(moves: Seq<Move<T>>, task: u64)
    requires
        possible(moves),
    ensures
        reached(moves).outstanding(task) <==> {
            &&& reached(moves).tasks.contains_key(task)
            &&& reached(moves).tasks[task].op.submitted()
            &&& reached(moves).tasks[task].message is Awaited
        },
{
    law_order_is_kept(moves);
}

/// As long as the kernel has an operation, the operation is there, the kernel
/// has its entry, and a read holds the buffer that it was lent.
pub proof fn law_kernel_reads_into_a_held_buffer<T>(moves: Seq<Move<T>>, i: int)
    requires
        possible(moves),
        0 <= i < reached(moves).running.len(),
    ensures
        ({
            let now = reached(moves);
            let entry = now.running[i];
            let pending = now.tasks[entry.user_data];
            &&& now.tasks.contains_key(entry.user_data)
            &&& entry == pending.entry(entry.user_data)
            &&& pending.op matches Op::Read(state) ==> state.buf is Some && state.buf
                == pending.lent
        }),
{
    let now = reached(moves);
    law_order_is_kept(moves);
    assert(now.line()[i] == now.running[i]);
    assert(has_entry(now.line(), now.running[i].user_data));
    assert(now.outstanding(now.running[i].user_data));
}

/// A read that is polled before the queue took it asks for its file, its offset
/// and as many bytes as its buffer has, kept to the 32 bits that an entry has
/// for the length.
pub proof fn law_read_asks_for_its_buffer<T>(now: System<T>, task: u64)
    requires
        now.inv(),
        now.can(Move::Push { task, taken: true }),
        now.tasks[task].op is Read,
    ensures
        now.pushes(task) == now.tasks[task].entry(task),
        now.pushes(task).operation == (Operation::Read {
            file: now.tasks[task].op->Read_0.id,
            len: low_32_bits(now.tasks[task].given.len()),
            offset: same_bits_signed(now.tasks[task].op->Read_0.offset),
        }),
{
}

/// Nothing gets ahead of an entry that was pushed: what is ahead of it after a
/// move was ahead of it before.
pub proof fn law_nothing_gets_ahead<T>(before: System<T>, m: Move<T>, other: u64, task: u64)
    requires
        before.inv(),
        before.can(m),
        has_entry(before.line(), task),
        before.after(m).ahead(other, task),
    ensures
        before.ahead(other, task),
{
    let after = before.after(m);
    lemma_line(before, m);
    let (i, j) = choose|i: int, j: int|
        0 <= i < j < after.line().len() && (#[trigger] after.line()[i]).user_data == other && (
        #[trigger] after.line()[j]).user_data == task;
    let k = choose|k: int|
        0 <= k < before.line().len() && (#[trigger] before.line()[k]).user_data == task;
    match m {
        Move::Push { task: pushed, taken: true } => {
            assert(before.outstanding(task));
            assert(before.pushes(pushed).user_data == pushed);
            assert(before.line()[i].user_data == other && before.line()[j].user_data == task);
        },
        Move::Answer { i: at, .. } => {
            let was = |n: int|
                if n < at {
                    n
                } else {
                    n + 1
                };
            assert(before.line()[was(i)] == after.line()[i]);
            assert(before.line()[was(j)] == after.line()[j]);
        },
        _ => {
            assert(before.line()[i].user_data == other && before.line()[j].user_data == task);
        },
    }
}

/// The kernel answers a flush only when nothing that was pushed before it is
/// left unanswered.
pub proof fn law_flush_is_answered_last<T>(
    moves: Seq<Move<T>>,
    i: int,
    code: i32,
    bytes: Seq<u8>,
    other: u64,
)
    requires
        possible(moves),
        reached(moves).can(Move::Answer { i, code, bytes }),
        reached(moves).tasks[reached(moves).running[i].user_data].op is Flush,
    ensures
        !reached(moves).ahead(other, reached(moves).running[i].user_data),
{
    let now = reached(moves);
    law_order_is_kept(moves);
    assert(now.line()[i] == now.running[i]);
}

/// Nothing but the receipt of its own code, and its own end, takes the buffer
/// from a read, and nothing but its end changes what it asks for or which buffer
/// it was lent.
pub proof fn law_buffer_changes_hands_once<T>(before: System<T>, m: Move<T>, task: u64)
    requires
        before.inv(),
        before.can(m),
        before.tasks.contains_key(task),
        before.tasks[task].op is Read,
        m != (Move::<T>::Retire { task }),
    ensures
        ({
            let was = before.tasks[task];
            let then = before.after(m).tasks[task];
            &&& before.after(m).tasks.contains_key(task)
            &&& then.op is Read
            &&& then.entry(task) == was.entry(task)
            &&& then.lent == was.lent
            &&& then.given == was.given
            &&& m != (Move::<T>::Receive { task }) ==> then.op->Read_0.buf == was.op->Read_0.buf
        }),
{
}

/// The answer that a poller delivers reaches the operation that the kernel
/// answered, and no other: a read ends with its buffer and the number of bytes,
/// or with the kernel's code where that is negative.
pub proof fn law_answer_reaches_its_read<T>(moves: Seq<Move<T>>)
    requires
        possible(moves),
        reached(moves).can(Move::Deliver),
        reached(moves).tasks[reached(moves).completed.first().user_data].op is Read,
    ensures
        ({
            let now = reached(moves);
            let answer = now.completed.first();
            let state = now.tasks[answer.user_data].op->Read_0;
            let then = now.after(Move::Deliver);
            &&& then.tasks[answer.user_data] == (Pending {
                message: Message::Sent(answer.result),
                ..now.tasks[answer.user_data]
            })
            &&& now.tasks[answer.user_data].answer == Some(answer.result)
            &&& then.can(Move::Receive { task: answer.user_data })
            &&& state.accepts(ReadEvent::<()>::Received(Received::Value(answer.result)))
            &&& state.action(ReadEvent::<()>::Received(Received::Value(answer.result))) == (
            if answer.result >= 0 {
                ReadAction::<(T, usize), ()>::Finish(Ok((state.buf->0, answer.result as usize)))
            } else {
                ReadAction::<(T, usize), ()>::Finish(Err(UringError::Os(answer.result)))
            })
            &&& forall|other: u64|
                other != answer.user_data && #[trigger] now.tasks.contains_key(other)
                    ==> then.tasks[other] == now.tasks[other]
        }),
{
    let now = reached(moves);
    law_popped_task_waits(moves);
    law_order_is_kept(moves);
    assert(now.answered(now.completed[0].user_data));
    assert(now.outstanding(now.completed.first().user_data));
}

/// The move is the kernel's answer to the task.
pub open spec fn answers<T>(now: System<T>, m: Move<T>, task: u64) -> bool {
    m matches Move::Answer { i, .. } && now.running[i].user_data == task
}

/// One of the moves that follow the first ones is the kernel's answer to the
/// task.
pub open spec fn answered_among<T>(first: Seq<Move<T>>, more: Seq<Move<T>>, task: u64) -> bool {
    exists|k: int|
        0 <= k < more.len() && answers(reached(first + more.take(k)), #[trigger] more[k], task)
}

/// What is in the line when the queue takes an entry is ahead of it.
pub proof fn law_pushed_entry_comes_after<T>(before: System<T>, task: u64, other: u64)
    requires
        before.inv(),
        before.can(Move::Push { task, taken: true }),
        has_entry(before.line(), other),
    ensures
        before.after(Move::Push { task, taken: true }).ahead(other, task),
{
    let m = Move::<T>::Push { task, taken: true };
    let after = before.after(m);
    lemma_line(before, m);
    let i = choose|i: int|
        0 <= i < before.line().len() && (#[trigger] before.line()[i]).user_data == other;
    let j = before.line().len() as int;
    assert(before.pushes(task).user_data == task);
    assert(after.line()[i].user_data == other && after.line()[j].user_data == task);
}

/// What is ahead of a flush stays ahead of it until the kernel has answered it.
pub proof fn law_ahead_until_answered<T>(before: System<T>, m: Move<T>, other: u64, flush: u64)
    requires
        before.inv(),
        before.can(m),
        before.tasks[flush].op is Flush,
        before.ahead(other, flush),
    ensures
        before.after(m).tasks[flush].op is Flush,
        before.after(m).ahead(other, flush) || answers(before, m, other),
{
    let after = before.after(m);
    lemma_line(before, m);
    let (i, j) = choose|i: int, j: int|
        0 <= i < j < before.line().len() && (#[trigger] before.line()[i]).user_data == other && (
        #[trigger] before.line()[j]).user_data == flush;
    assert(has_entry(before.line(), flush));
    assert(before.outstanding(flush));
    match m {
        Move::Answer { i: at, .. } => {
            assert(before.line()[at] == before.running[at]);
            if at < i {
                assert(after.line()[i - 1].user_data == other);
                assert(after.line()[j - 1].user_data == flush);
            } else if at > i {
                assert(before.line()[j].drain);
                assert(at < j ==> after.line()[j - 1].user_data == flush);
                assert(at > j ==> after.line()[j].user_data == flush);
                assert(after.line()[i].user_data == other);
            }
        },
        _ => {
            assert(after.line()[i].user_data == other && after.line()[j].user_data == flush);
        },
    }
}

/// What is ahead of a flush is still ahead of it after more moves, unless one of
/// them was the kernel's answer to it.
proof fn lemma_ahead_until_answered<T>(
    first: Seq<Move<T>>,
    more: Seq<Move<T>>,
    other: u64,
    flush: u64,
)
    requires
        possible(first + more),
        reached(first).tasks[flush].op is Flush,
        reached(first).ahead(other, flush),
    ensures
        answered_among(first, more, other) || (reached(first + more).tasks[flush].op is Flush
            && reached(first + more).ahead(other, flush)),
    decreases more.len(),
{
    if more.len() == 0 {
        assert(first + more =~= first);
    } else {
        let init = more.drop_last();
        let last = more.len() - 1;
        assert((first + more).drop_last() =~= first + init);
        assert(more.take(last) =~= init);
        lemma_ahead_until_answered(first, init, other, flush);
        law_order_is_kept(first + init);
        if answered_among(first, init, other) {
            let k = choose|k: int|
                0 <= k < init.len() && answers(
                    reached(first + init.take(k)),
                    #[trigger] init[k],
                    other,
                );
            assert(init.take(k) =~= more.take(k));
            assert(more[k] == init[k]);
        } else {
            law_ahead_until_answered(reached(first + init), more.last(), other, flush);
            assert(more[last] == more.last());
        }
    }
}

/// A flush waits for everything before it: where the queue took the entry of a
/// flush while that of another operation was not answered, and the kernel may
/// answer the flush after some more moves, one of these was the kernel's answer
/// to the other operation.
pub proof fn law_flush_waits_for_everything_before<T>(
    before: Seq<Move<T>>,
    flush: u64,
    more: Seq<Move<T>>,
    answer: Move<T>,
    other: u64,
)
    requires
        ({
            let pushed = before.push(Move::Push { task: flush, taken: true });
            &&& possible((pushed + more).push(answer))
            &&& reached(before).tasks[flush].op is Flush
            &&& has_entry(reached(before).line(), other)
            &&& answers(reached(pushed + more), answer, flush)
        }),
    ensures
        answered_among(before.push(Move::Push { task: flush, taken: true }), more, other),
{
    let push = Move::<T>::Push { task: flush, taken: true };
    let pushed = before.push(push);
    let all = pushed + more;
    assert(all.push(answer).drop_last() =~= all);
    assert(possible(all));
    lemma_prefix_is_possible(pushed, more);
    assert(pushed.drop_last() =~= before);
    assert(pushed.last() == push);
    law_order_is_kept(before);
    law_pushed_entry_comes_after(reached(before), flush, other);
    lemma_ahead_until_answered(pushed, more, other, flush);
    assert(all.push(answer).last() == answer);
    if !answered_among(pushed, more, other) {
        if let Move::Answer { i, code, bytes } = answer {
            law_flush_is_answered_last(all, i, code, bytes, other);
        }
    }
}

/// A flush ends after everything before it: where the queue took the entry of a
/// flush while that of another operation was not answered, and the flush can
/// receive its code after some more moves, one of these was the kernel's answer
/// to the other operation.
pub proof fn law_flush_ends_after_everything_before<T>(
    before: Seq<Move<T>>,
    flush: u64,
    more: Seq<Move<T>>,
    other: u64,
)
    requires
        ({
            let pushed = before.push(Move::Push { task: flush, taken: true });
            &&& possible(pushed + more)
            &&& reached(before).tasks[flush].op is Flush
            &&& has_entry(reached(before).line(), other)
            &&& reached(pushed + more).can(Move::Receive { task: flush })
        }),
    ensures
        answered_among(before.push(Move::Push { task: flush, taken: true }), more, other),
{
    let push = Move::<T>::Push { task: flush, taken: true };
    let pushed = before.push(push);
    let now = reached(pushed + more);
    lemma_prefix_is_possible(pushed, more);
    assert(pushed.drop_last() =~= before);
    assert(pushed.last() == push);
    law_order_is_kept(before);
    law_pushed_entry_comes_after(reached(before), flush, other);
    lemma_ahead_until_answered(pushed, more, other, flush);
    law_order_is_kept(pushed + more);
    if now.ahead(other, flush) {
        assert(has_entry(now.line(), flush));
        assert(now.outstanding(flush));
    }
}

proof fn lemma_prefix_is_possible<T>(first: Seq<Move<T>>, more: Seq<Move<T>>)
    requires
        possible(first + more),
    ensures
        possible(first),
    decreases more.len(),
{
    if more.len() == 0 {
        assert(first + more =~= first);
    } else {
        assert((first + more).drop_last() =~= first + more.drop_last());
        lemma_prefix_is_possible(first, more.drop_last());
    }
}

/// What a kernel does that reads these files and answers with this code: it has
/// copied so many bytes from the file's offset on to the front of the buffer,
/// and has left the rest of the buffer as it was. It reads neither more than it
/// was asked for nor past the end of the file. Nothing is said of a read that
/// fails, nor of a negative offset.
pub open spec fn kernel_read(
    files: Seq<Seq<u8>>,
    operation: Operation,
    before: Seq<u8>,
    after: Seq<u8>,
    code: i32,
) -> bool {
    match operation {
        Operation::Read { file, len, offset } => offset >= 0 && code >= 0 ==> {
            let contents = files[file as int];
            &&& file < files.len()
            &&& code <= len
            &&& code > 0 ==> offset + code <= contents.len()
            &&& after.len() == before.len()
            &&& forall|i: int| 0 <= i < code ==> #[trigger] after[i] == contents[offset + i]
            &&& forall|i: int| code <= i < after.len() ==> #[trigger] after[i] == before[i]
        },
        Operation::Nop => true,
    }
}

/// Every answer among these moves is that of a kernel that reads these files,
/// whose contents do not change meanwhile.
pub open spec fn reads_files<T>(files: Seq<Seq<u8>>, moves: Seq<Move<T>>) -> bool
    decreases moves.len(),
{
    moves.len() > 0 ==> {
        let now = reached(moves.drop_last());
        &&& reads_files(files, moves.drop_last())
        &&& moves.last() matches Move::Answer { i, code, bytes } ==> kernel_read(
            files,
            now.running[i].operation,
            now.tasks[now.running[i].user_data].bytes,
            bytes,
            code,
        )
    }
}

proof fn lemma_buffer_holds_the_answer<T>(files: Seq<Seq<u8>>, moves: Seq<Move<T>>, task: u64)
    requires
        possible(moves),
        reads_files(files, moves),
        reached(moves).tasks.contains_key(task),
        reached(moves).tasks[task].answer is Some,
    ensures
        ({
            let pending = reached(moves).tasks[task];
            kernel_read(
                files,
                pending.entry(task).operation,
                pending.given,
                pending.bytes,
                pending.answer->0,
            )
        }),
    decreases moves.len(),
{
    if moves.len() > 0 {
        let init = moves.drop_last();
        let before = reached(init);
        law_order_is_kept(init);
        match moves.last() {
            Move::Answer { i, .. } if before.running[i].user_data == task => {
                assert(before.line()[i] == before.running[i]);
                assert(has_entry(before.line(), task));
                assert(before.outstanding(task));
                assert(before.tasks[task].wf());
            },
            _ => {
                if moves.last() is Deliver {
                    assert(before.answered(before.completed[0].user_data));
                    assert(before.outstanding(before.completed.first().user_data));
                }
                lemma_buffer_holds_the_answer(files, init, task);
            },
        }
    }
}

/// A read is positioned. Whatever else went on before and meanwhile, where the
/// kernel reads these files and a read receives its code, the read ends with the
/// kernel's error, or with the buffer that it was lent and a number of bytes
/// that fits the buffer; so many bytes at the front of the buffer are those of
/// its file from its offset on, and the rest of the buffer is as it was. An
/// offset past the end of the file reads nothing. (An entry has room for lengths
/// below 2^32 and offsets below 2^63.)
pub proof fn law_read_is_positioned<T>(files: Seq<Seq<u8>>, moves: Seq<Move<T>>, task: u64)
    requires
        possible(moves),
        reads_files(files, moves),
        reached(moves).can(Move::Receive { task }),
        reached(moves).tasks[task].op is Read,
        reached(moves).tasks[task].given.len() <= u32::MAX,
        reached(moves).tasks[task].op->Read_0.offset <= i64::MAX,
    ensures
        ({
            let pending = reached(moves).tasks[task];
            let state = pending.op->Read_0;
            let code = pending.message->Sent_0;
            let event = ReadEvent::<()>::Received(Received::Value(code));
            let contents = files[state.id as int];
            &&& state.accepts(event)
            &&& code < 0 ==> state.action(event) == ReadAction::<(T, usize), ()>::Finish(
                Err(UringError::Os(code)),
            )
            &&& code >= 0 ==> {
                &&& state.action(event) == ReadAction::<(T, usize), ()>::Finish(
                    Ok((pending.lent->0, code as usize)),
                )
                &&& state.id < files.len()
                &&& code <= pending.given.len()
                &&& pending.bytes.len() == pending.given.len()
                &&& pending.bytes.skip(code as int) == pending.given.skip(code as int)
                &&& state.offset <= contents.len() ==> {
                    &&& state.offset + code <= contents.len()
                    &&& pending.bytes.take(code as int) == contents.subrange(
                        state.offset as int,
                        state.offset + code,
                    )
                }
                &&& state.offset > contents.len() ==> code == 0
            }
        }),
{
    let pending = reached(moves).tasks[task];
    let state = pending.op->Read_0;
    let code = pending.message->Sent_0;
    let contents = files[state.id as int];
    law_order_is_kept(moves);
    assert(pending.wf());
    lemma_buffer_holds_the_answer(files, moves, task);
    if code >= 0 {
        assert(pending.bytes.skip(code as int) =~= pending.given.skip(code as int));
        if state.offset <= contents.len() {
            assert(pending.bytes.take(code as int) =~= contents.subrange(
                state.offset as int,
                state.offset + code,
            ));
        }
    }
}

} // verus!
