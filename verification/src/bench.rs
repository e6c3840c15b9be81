//! Measuring how fast the test files are read, and checking what was read.
use crate::block::{
    block_bytes, block_checked, block_hash, compared, law_verified_is_generated, verify_buf, Mismatch,
    BLOCK_SIZE,
};
use crate::channel::{found_in, look_for_finish, FinishSignal};
use crate::entry::{low_32_bits, truncate_to_u32};
use crate::error::UringError;
use crate::generate::{
    all_steps, contents_after, law_block_is_at_its_offset, law_files_hold_their_blocks,
};
use crate::word::ByteOrder;
use rand::Rng;
use vstd::prelude::*;
use vstd::slice::{slice_subrange, slice_to_vec};

verus! {

/// After so many blocks a reader looks whether it is to stop.
pub const LOOK_INTERVAL: usize = 10000;

/// The same for a reader that takes no measures.
pub const PLAIN_LOOK_INTERVAL: usize = 1000;

/// What is measured.
#[derive(Debug, Clone, Copy, PartialEq, Eq, Hash, Structural)]
pub enum Metric {
    /// The reading of a block.
    BlockOp,
}

impl Metric {
    /// The name of the metric.
    pub fn to_string(&self) -> (name: String)
        ensures
            name@ == "BlockOp"@,
    {
        match self {
            Metric::BlockOp => "BlockOp".to_owned(),
        }
    }
}

/// A draw from the numbers below `n` gave this one. Later draws may give others.
pub uninterp spec fn drawn_below(n: usize, r: usize) -> bool;

/// Calls `gen_range` of `rand::Rng` on the thread's generator, with the range
/// from 0 up to `n`, which must not be empty. The number is random: all that is
/// claimed is that it was drawn there, and lies in the range. (The generator itself panics where the
/// operating system gives it no seed.)
#[verifier::external_body]
fn random_below(n: usize) -> (r: usize)
    requires
        n > 0,
    ensures
        drawn_below(n, r),
        r < n,
{
    rand::thread_rng().gen_range(0..n)
}

/// A file and a block at random, of `nf` files with `nb` blocks each: a draw for
/// the file, and one for the block.
pub fn random_position(nf: usize, nb: usize) -> (position: (usize, usize))
    requires
        nf > 0,
        nb > 0,
    ensures
        drawn_below(nf, position.0),
        drawn_below(nb, position.1),
        position.0 < nf,
        position.1 < nb,
{
    let fid = random_below(nf);
    let blkid = random_below(nb);
    (fid, blkid)
}

/// The file and the offset to ask the ring for.
pub fn read_position(fid: usize, blkid: usize) -> (at: (u32, u64))
    requires
        blkid * BLOCK_SIZE <= u64::MAX,
    ensures
        at.0 == low_32_bits(fid as nat),
        at.1 == blkid * BLOCK_SIZE,
{
    (truncate_to_u32(fid), blkid as u64 * 4096)
}

/// What is wrong with a read.
#[derive(Debug, Clone, Copy, PartialEq, Eq, Structural)]
pub enum ReadFault {
    /// So many bytes were read, and not a block.
    Size(usize),
    /// The block does not hold what was written.
    Block(Mismatch),
}

/// Checks a block that was read, and how much was read.
pub fn check_read(size: usize, buf: &[u8], fid: usize, blkid: usize) -> (outcome: Result<
    (),
    ReadFault,
>)
    ensures
        outcome is Ok <==> size == BLOCK_SIZE && buf@ == block_bytes(ByteOrder::Big, fid, blkid),
        size != BLOCK_SIZE ==> outcome == Err::<(), ReadFault>(ReadFault::Size(size)),
        size == BLOCK_SIZE ==> match outcome {
            Ok(()) => block_checked(buf@, fid, blkid, Ok(())),
            Err(ReadFault::Block(mismatch)) => block_checked(buf@, fid, blkid, Err(mismatch)),
            Err(ReadFault::Size(_)) => false,
        },
{
    if size != BLOCK_SIZE {
        return Err(ReadFault::Size(size));
    }
    match verify_buf(buf, fid, blkid) {
        Ok(()) => Ok(()),
        Err(mismatch) => Err(ReadFault::Block(mismatch)),
    }
}

/// Copies a block out of a whole file.
pub fn copy_block(file: &[u8], blkid: usize) -> (block: Vec<u8>)
    requires
        (blkid + 1) * BLOCK_SIZE <= file@.len(),
    ensures
        block@ == file@.subrange(blkid * BLOCK_SIZE, (blkid + 1) * BLOCK_SIZE),
{
    let len: usize = file.len();
    slice_to_vec(slice_subrange(file, blkid * 4096, (blkid + 1) * 4096))
}

/// The blocks that were read through the ring, and whether the reading has been
/// told to stop.
pub struct Progress {
    pub cnt: usize,
    pub stopped: bool,
}

impl Progress {
    /// No block was read yet.
    pub fn new() -> (progress: Self)
        ensures
            progress.cnt == 0,
            !progress.stopped,
    {
        Progress { cnt: 0, stopped: false }
    }

    /// One more block was read. Says whether it is time to look at the clock,
    /// which is after every `interval` blocks.
    pub fn completed(&mut self, interval: usize) -> (look: bool)
        requires
            old(self).cnt < usize::MAX,
            interval > 0,
        ensures
            final(self).cnt == old(self).cnt + 1,
            final(self).stopped == old(self).stopped,
            look <==> final(self).cnt % interval == 0,
    {
        self.cnt = self.cnt + 1;
        self.cnt % interval == 0
    }

    /// The clock was looked at. Says whether the reading has to be told to stop
    /// now: when the time is over, once.
    pub fn looked(&mut self, time_is_over: bool) -> (stop: bool)
        ensures
            stop <==> time_is_over && !old(self).stopped,
            final(self).stopped <==> time_is_over || old(self).stopped,
            final(self).cnt == old(self).cnt,
    {
        if time_is_over && !self.stopped {
            self.stopped = true;
            return true;
        }
        false
    }
}

/// Whether the time to read, in seconds, is over after so many whole seconds.
pub fn time_is_over(elapsed: u64, time: u64) -> (over: bool)
    ensures
        over <==> elapsed >= time,
{
    elapsed >= time
}

/// A thread that reads mapped files looks for the end of its channel after
/// every `LOOK_INTERVAL` blocks, and stops when it is there.
pub open spec fn worker_stops(cnt: usize, signal: FinishSignal) -> bool {
    cnt % LOOK_INTERVAL == 0 && signal == FinishSignal::Disconnected
}

/// A thread that reads mapped files, with the number of blocks it has read.
pub struct MmapWorker {
    pub cnt: usize,
    pub rx: crossbeam_channel::Receiver<()>,
}

impl MmapWorker {
    /// A thread that has read nothing yet.
    pub fn new(rx: crossbeam_channel::Receiver<()>) -> (worker: Self)
        ensures
            worker.cnt == 0,
            worker.rx == rx,
    {
        MmapWorker { cnt: 0, rx }
    }

    /// Whether a thread that has read `cnt` blocks stops, when this is what its
    /// channel holds.
    pub fn stops(cnt: usize, signal: FinishSignal) -> (stop: bool)
        ensures
            stop == worker_stops(cnt, signal),
    {
        cnt % LOOK_INTERVAL == 0 && matches!(signal, FinishSignal::Disconnected)
    }

    /// One more block was read. Says whether the thread stops, for which it
    /// looks at its channel where it is time to.
    pub fn completed(&mut self) -> (stop: bool)
        requires
            old(self).cnt < usize::MAX,
        ensures
            final(self).cnt == old(self).cnt + 1,
            final(self).rx == old(self).rx,
            final(self).cnt % LOOK_INTERVAL != 0 ==> !stop,
            final(self).cnt % LOOK_INTERVAL == 0 ==> exists|signal: FinishSignal| #[trigger]
                found_in(old(self).rx, signal) && stop == worker_stops(final(self).cnt, signal),
    {
        self.cnt = self.cnt + 1;
        if self.cnt % LOOK_INTERVAL == 0 {
            let signal = look_for_finish(&self.rx);
            Self::stops(self.cnt, signal)
        } else {
            false
        }
    }
}

/// The samples in all; no count yet is a count of 0.
pub open spec fn counted(count: Option<u64>) -> u64 {
    match count {
        Some(n) => n,
        None => 0,
    }
}

/// The total after reports that were made with these counts, one after the
/// other, the first with a total of 0.
pub open spec fn total_after(counts: Seq<Option<u64>>) -> u64 {
    if counts.len() == 0 {
        0
    } else {
        counted(counts.last())
    }
}

/// The samples of the `i`-th of these reports.
pub open spec fn samples_of(counts: Seq<Option<u64>>, i: int) -> int {
    counted(counts[i]) - total_after(counts.take(i))
}

/// The samples of the first `n` of these reports together.
pub open spec fn samples_together(counts: Seq<Option<u64>>, n: nat) -> int
    decreases n,
{
    if n == 0 {
        0
    } else {
        samples_together(counts, (n - 1) as nat) + samples_of(counts, n - 1)
    }
}

proof fn lemma_samples_together(counts: Seq<Option<u64>>, n: nat)
    requires
        n <= counts.len(),
    ensures
        samples_together(counts, n) == total_after(counts.take(n as int)),
    decreases n,
{
    if n > 0 {
        lemma_samples_together(counts, (n - 1) as nat);
        assert(counts.take(n as int).last() == counts[n - 1]);
    }
}

/// Every sample enters one report: where the count never falls, the samples of
/// each report are no less than 0, and those of all reports add up to the last
/// count, which is the total.
pub proof fn law_every_sample_is_reported_once(counts: Seq<Option<u64>>)
    requires
        forall|i: int, j: int|
            0 <= i <= j < counts.len() ==> counted(#[trigger] counts[i]) <= counted(
                #[trigger] counts[j],
            ),
    ensures
        forall|i: int| 0 <= i < counts.len() ==> 0 <= #[trigger] samples_of(counts, i),
        samples_together(counts, counts.len()) == total_after(counts),
        counts.len() > 0 ==> samples_together(counts, counts.len()) == match counts.last() {
            Some(n) => n as int,
            None => 0,
        },
{
    lemma_samples_together(counts, counts.len());
    assert(counts.take(counts.len() as int) =~= counts);
    assert forall|i: int| 0 <= i < counts.len() implies 0 <= #[trigger] samples_of(counts, i) by {
        if i > 0 {
            assert(counts.take(i).last() == counts[i - 1]);
        }
    }
}

/// The samples since the last report, which is made with `count` samples in
/// all.
pub fn samples_since(count: Option<u64>, total: &mut u64) -> (samples: u64)
    requires
        counted(count) >= *old(total),
    ensures
        *final(total) == counted(count),
        samples == *final(total) - *old(total),
{
    let counted: u64 = count.unwrap_or(0);
    let samples: u64 = counted - *total;
    *total = counted;
    samples
}

/// The outcome of advising the kernel, of which `result` came back: 0 is
/// success, and otherwise the system's error code says what failed.
pub fn madvise_rand<E>(result: i32, errno: i32) -> (outcome: Result<(), UringError<E>>)
    ensures
        outcome == if result == 0 {
            Ok::<(), UringError<E>>(())
        } else {
            Err(UringError::Os(errno))
        },
{
    if result == 0 {
        Ok(())
    } else {
        Err(UringError::Os(errno))
    }
}

/// A block of a test file that is read from its offset passes the check: once
/// all steps of writing the files are taken, the bytes from `blkid * 4096` on
/// are the block that was generated, and no other outcome of holding them
/// against the block's hash is possible than that they match.
pub proof fn law_generated_blocks_verify(
    order: ByteOrder,
    nf: nat,
    nb: nat,
    fid: usize,
    blkid: usize,
    outcome: Result<(), Mismatch>,
)
    requires
        fid < nf <= usize::MAX,
        blkid < nb,
        ({
            let file = contents_after(order, all_steps(nf, nb), fid);
            let read = file.subrange(blkid * BLOCK_SIZE, (blkid + 1) * BLOCK_SIZE);
            ||| compared(order, read, block_hash(fid, blkid), outcome)
            ||| order == ByteOrder::Big && block_checked(read, fid, blkid, outcome)
        }),
    ensures
        ({
            let file = contents_after(order, all_steps(nf, nb), fid);
            let read = file.subrange(blkid * BLOCK_SIZE, (blkid + 1) * BLOCK_SIZE);
            &&& file.len() == nb * BLOCK_SIZE
            &&& read == block_bytes(order, fid, blkid)
            &&& outcome is Ok
        }),
{
    law_files_hold_their_blocks(order, nf, nb, fid);
    law_block_is_at_its_offset(order, fid, nb, blkid);
    law_verified_is_generated(order, block_bytes(order, fid, blkid), fid, blkid, outcome);
}

} // verus!
