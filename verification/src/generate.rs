//! Writing the test files, block by block.
use crate::block::{block_bytes, gen_block, BLOCK_SIZE};
use crate::word::ByteOrder;
use vstd::prelude::*;
use vstd::string::StringExecFns;

verus! {

/// A decimal digit.
pub open spec fn digit(n: nat) -> char {
    ('0' as int + n) as char
}

/// A number in decimal notation.
pub open spec fn decimal(n: nat) -> Seq<char>
    decreases n,
{
    if n < 10 {
        seq![digit(n)]
    } else {
        decimal(n / 10).push(digit(n % 10))
    }
}

/// The name of a test file.
pub open spec fn file_name(id: usize) -> Seq<char> {
    decimal(id as nat) + ".blk"@
}

fn digit_str(n: usize) -> (s: &'static str)
    requires
        n < 10,
    ensures
        s@ == seq![digit(n as nat)],
{
    proof {
        reveal_strlit("0");
        reveal_strlit("1");
        reveal_strlit("2");
        reveal_strlit("3");
        reveal_strlit("4");
        reveal_strlit("5");
        reveal_strlit("6");
        reveal_strlit("7");
        reveal_strlit("8");
        reveal_strlit("9");
    }
    match n {
        0 => "0",
        1 => "1",
        2 => "2",
        3 => "3",
        4 => "4",
        5 => "5",
        6 => "6",
        7 => "7",
        8 => "8",
        _ => "9",
    }
}

fn decimal_string(n: usize) -> (s: String)
    ensures
        s@ == decimal(n as nat),
    decreases n,
{
    if n < 10 {
        String::from_str(digit_str(n))
    } else {
        let mut s = decimal_string(n / 10);
        s.append(digit_str(n % 10));
        assert(s@ =~= decimal(n as nat));
        s
    }
}

/// The name of a test file: its number and the ending `.blk`.
pub fn block_file_name(id: usize) -> (name: String)
    ensures
        name@ == file_name(id),
{
    let mut name = decimal_string(id);
    name.append(".blk");
    name
}

/// A step of writing the test files.
#[derive(Debug, Clone, Copy, PartialEq, Eq, Structural)]
pub enum Step {
    /// Open the file, empty.
    Open { id: usize },
    /// Write the block to the end of the file.
    Write { id: usize, block: usize },
}

/// The steps of writing the first `blocks` blocks of a file.
pub open spec fn file_steps(id: usize, blocks: nat) -> Seq<Step> {
    seq![Step::Open { id }] + Seq::new(blocks, |b: int| Step::Write { id, block: b as usize })
}

/// The steps of writing the first `files` files, of `nb` blocks each.
pub open spec fn all_steps(files: nat, nb: nat) -> Seq<Step>
    decreases files,
{
    if files == 0 {
        seq![]
    } else {
        all_steps((files - 1) as nat, nb) + file_steps((files - 1) as usize, nb)
    }
}

/// What has to be done to write the test files.
#[derive(Debug, PartialEq, Eq)]
pub enum GenerateAction {
    /// Open the `id`-th file, of this name, empty.
    Open { id: usize, name: String },
    /// Write these bytes to the end of the file that was opened last.
    Write(Vec<u8>),
    /// Nothing is left.
    Done,
}

impl GenerateAction {
    /// Doing this takes that step, with the words of a block in the given order.
    pub open spec fn takes(self, step: Step, order: ByteOrder) -> bool {
        match step {
            Step::Open { id } => self matches GenerateAction::Open { id: file, name } && file == id
                && name@ == file_name(id),
            Step::Write { id, block } => self matches GenerateAction::Write(bytes) && bytes@
                == block_bytes(order, id, block),
        }
    }
}

/// The writing of `nf` files with `nb` blocks each, under way: `id` is the file
/// that is being written, `open` says whether it has been opened, and `block`
/// of its blocks are written.
pub struct Generate {
    pub order: ByteOrder,
    pub nf: usize,
    pub nb: usize,
    pub id: usize,
    pub open: bool,
    pub block: usize,
}

impl Generate {
    pub open spec fn wf(self) -> bool {
        &&& self.id <= self.nf
        &&& self.open ==> self.id < self.nf && self.block <= self.nb
    }

    /// The steps that have been taken.
    pub open spec fn taken(self) -> Seq<Step> {
        all_steps(self.id as nat, self.nb as nat) + if self.open {
            file_steps(self.id, self.block as nat)
        } else {
            seq![]
        }
    }

    /// The same files.
    pub open spec fn same_job(self, other: Self) -> bool {
        &&& self.order == other.order
        &&& self.nf == other.nf
        &&& self.nb == other.nb
    }

    /// Nothing is written yet.
    pub fn new(order: ByteOrder, nf: usize, nb: usize) -> (job: Self)
        ensures
            job.wf(),
            job.order == order,
            job.nf == nf,
            job.nb == nb,
            job.taken() == Seq::<Step>::empty(),
    {
        let job = Generate { order, nf, nb, id: 0, open: false, block: 0 };
        assert(job.taken() =~= Seq::<Step>::empty());
        job
    }

    /// The next step, which the caller takes.
    pub fn next(&mut self) -> (action: GenerateAction)
        requires
            old(self).wf(),
        ensures
            final(self).wf(),
            final(self).same_job(*old(self)),
            ({
                let all = all_steps(old(self).nf as nat, old(self).nb as nat);
                let n = old(self).taken().len() as int;
                &&& n <= all.len()
                &&& old(self).taken() == all.take(n)
                &&& n < all.len() ==> {
                    &&& action.takes(all[n], old(self).order)
                    &&& final(self).taken() == all.take(n + 1)
                }
                &&& n == all.len() ==> {
                    &&& action is Done
                    &&& final(self).taken() == old(self).taken()
                }
            }),
    {
        if self.open && self.block == self.nb {
            self.id = self.id + 1;
            self.open = false;
            assert(self.taken() =~= old(self).taken());
        }
        let ghost before = *self;
        let ghost all = all_steps(self.nf as nat, self.nb as nat);
        let ghost n = self.taken().len() as int;
        proof {
            lemma_taken_is_prefix(before);
        }
        if self.id >= self.nf {
            assert(self.taken() =~= all);
            return GenerateAction::Done;
        }
        if !self.open {
            self.open = true;
            self.block = 0;
            proof {
                assert(self.taken() =~= before.taken().push(Step::Open { id: self.id }));
                lemma_taken_is_prefix(*self);
                assert(all[n] == self.taken()[n]);
            }
            return GenerateAction::Open { id: self.id, name: block_file_name(self.id) };
        }
        let bytes = gen_block(self.order, self.id, self.block);
        self.block = self.block + 1;
        proof {
            assert(self.taken() =~= before.taken().push(
                Step::Write { id: before.id, block: before.block },
            ));
            lemma_taken_is_prefix(*self);
            assert(all[n] == self.taken()[n]);
        }
        GenerateAction::Write(bytes)
    }
}

proof fn lemma_files_are_prefix(files: nat, nf: nat, nb: nat)
    requires
        files <= nf,
    ensures
        all_steps(files, nb).len() <= all_steps(nf, nb).len(),
        all_steps(files, nb) == all_steps(nf, nb).take(all_steps(files, nb).len() as int),
    decreases nf,
{
    let n = all_steps(files, nb).len() as int;
    if files < nf {
        lemma_files_are_prefix(files, (nf - 1) as nat, nb);
        assert(all_steps(nf, nb).take(n) =~= all_steps((nf - 1) as nat, nb).take(n));
    } else {
        assert(all_steps(nf, nb).take(n) =~= all_steps(nf, nb));
    }
}

proof fn lemma_taken_is_prefix(job: Generate)
    requires
        job.wf(),
    ensures
        job.taken().len() <= all_steps(job.nf as nat, job.nb as nat).len(),
        job.taken() == all_steps(job.nf as nat, job.nb as nat).take(job.taken().len() as int),
{
    let nb = job.nb as nat;
    let all = all_steps(job.nf as nat, nb);
    let n = job.taken().len() as int;
    lemma_files_are_prefix(job.id as nat, job.nf as nat, nb);
    if job.open {
        lemma_files_are_prefix((job.id + 1) as nat, job.nf as nat, nb);
        let next = all_steps((job.id + 1) as nat, nb);
        assert(job.taken() =~= next.take(n));
        assert(next.take(n) =~= all.take(n));
    } else {
        assert(job.taken() =~= all_steps(job.id as nat, nb));
    }
}

/// What the steps leave in the `id`-th file.
pub open spec fn contents_after(order: ByteOrder, steps: Seq<Step>, id: usize) -> Seq<u8>
    decreases steps.len(),
{
    if steps.len() == 0 {
        seq![]
    } else {
        let before = contents_after(order, steps.drop_last(), id);
        match steps.last() {
            Step::Open { id: file } => if file == id {
                seq![]
            } else {
                before
            },
            Step::Write { id: file, block } => if file == id {
                before + block_bytes(order, id, block)
            } else {
                before
            },
        }
    }
}

/// The first `nb` blocks of a file, one after the other.
pub open spec fn file_bytes(order: ByteOrder, id: usize, nb: nat) -> Seq<u8>
    decreases nb,
{
    if nb == 0 {
        seq![]
    } else {
        file_bytes(order, id, (nb - 1) as nat) + block_bytes(order, id, (nb - 1) as usize)
    }
}

proof fn lemma_steps_of_one_file(
    order: ByteOrder,
    before: Seq<Step>,
    file: usize,
    blocks: nat,
    id: usize,
)
    ensures
        contents_after(order, before + file_steps(file, blocks), id) == if file == id {
            file_bytes(order, id, blocks)
        } else {
            contents_after(order, before, id)
        },
    decreases blocks,
{
    let steps = before + file_steps(file, blocks);
    if blocks == 0 {
        assert(steps.drop_last() =~= before);
        assert(steps.last() == Step::Open { id: file });
    } else {
        let fewer = (blocks - 1) as nat;
        lemma_steps_of_one_file(order, before, file, fewer, id);
        assert(steps.drop_last() =~= before + file_steps(file, fewer));
        assert(steps.last() == Step::Write { id: file, block: fewer as usize });
    }
}

/// Once all steps are taken, every file holds its blocks, one after the other.
pub proof fn law_files_hold_their_blocks(order: ByteOrder, nf: nat, nb: nat, id: usize)
    requires
        id < nf <= usize::MAX,
    ensures
        contents_after(order, all_steps(nf, nb), id) == file_bytes(order, id, nb),
    decreases nf,
{
    let fewer = (nf - 1) as nat;
    lemma_steps_of_one_file(order, all_steps(fewer, nb), fewer as usize, nb, id);
    if id < fewer {
        law_files_hold_their_blocks(order, fewer, nb, id);
    }
}

/// The bytes of a file from `block * 4096` on are those of that block.
pub proof fn law_block_is_at_its_offset(order: ByteOrder, id: usize, nb: nat, block: usize)
    requires
        block < nb,
    ensures
        file_bytes(order, id, nb).len() == nb * BLOCK_SIZE,
        file_bytes(order, id, nb).subrange(
            block * BLOCK_SIZE,
            block * BLOCK_SIZE + BLOCK_SIZE,
        ) == block_bytes(order, id, block),
    decreases nb,
{
    let fewer = (nb - 1) as nat;
    let at = block * BLOCK_SIZE;
    lemma_file_len(order, id, nb);
    lemma_file_len(order, id, fewer);
    let all = file_bytes(order, id, nb);
    if block < fewer {
        law_block_is_at_its_offset(order, id, fewer, block);
        assert(all.subrange(at, at + BLOCK_SIZE) =~= file_bytes(order, id, fewer).subrange(
            at,
            at + BLOCK_SIZE,
        ));
    } else {
        assert(all.subrange(at, at + BLOCK_SIZE) =~= block_bytes(order, id, block));
    }
}

proof fn lemma_file_len(order: ByteOrder, id: usize, nb: nat)
    ensures
        file_bytes(order, id, nb).len() == nb * BLOCK_SIZE,
    decreases nb,
{
    if nb > 0 {
        lemma_file_len(order, id, (nb - 1) as nat);
    }
}

} // verus!
