//! What the test files hold, and what a check of them tells, in numbers and names
//! as they are read.
use crate::block::{
    block_bytes, compared, gen_block, gen_hash, verify_buf, verify_buf_le, verify_words, word_at, Mismatch,
};
use crate::generate::{
    all_steps, block_file_name, contents_after, decimal, digit, file_bytes, file_name, file_steps,
    law_block_is_at_its_offset, law_files_hold_their_blocks, Generate, GenerateAction, Step,
};
use crate::word::{get_word, little_endian, put_word, usize_bytes, word_bytes, ByteOrder};
use std::collections::hash_map::DefaultHasher;
use vstd::arithmetic::power::{lemma_pow0, pow};
use vstd::endian::{endianness, Endian};
use vstd::prelude::*;
use vstd::std_specs::hash::DefaultHasherAdditionalSpecFns;

verus! {

/// The number that bytes stand for when they are read from left to right, the
/// most significant byte first.
pub open spec fn number(bytes: Seq<u8>) -> nat
    decreases bytes.len(),
{
    if bytes.len() == 0 {
        0
    } else {
        256 * number(bytes.drop_last()) + bytes.last() as nat
    }
}

/// The number that bytes in the given order stand for.
pub open spec fn number_in(order: ByteOrder, bytes: Seq<u8>) -> nat {
    match order {
        ByteOrder::Big => number(bytes),
        ByteOrder::Little => number(bytes.reverse()),
    }
}

/// These are the bytes of `n`, as the machine keeps a `usize`.
pub open spec fn keeps(bytes: Seq<u8>, n: usize) -> bool {
    &&& bytes.len() == usize::BITS / 8
    &&& n == match endianness() {
        Endian::Big => number(bytes),
        Endian::Little => number(bytes.reverse()),
    }
}

proof fn lemma_number_of_bytes(n: nat, len: nat)
    requires
        n < pow(256, len),
    ensures
        little_endian(n, len).len() == len,
        number(little_endian(n, len).reverse()) == n,
    decreases len,
{
    if len == 0 {
        lemma_pow0(256);
    } else {
        let rest = (len - 1) as nat;
        let p = pow(256, rest);
        assert(pow(256, len) == 256 * p) by {
            reveal(pow);
        }
        lemma_number_of_bytes(n / 256, rest);
        let all = little_endian(n, len).reverse();
        assert(all.drop_last() =~= little_endian(n / 256, rest).reverse());
        assert(all.last() == (n % 256) as u8);
    }
}

proof fn lemma_number_is_injective(a: Seq<u8>, b: Seq<u8>)
    requires
        a.len() == b.len(),
        number(a) == number(b),
    ensures
        a == b,
    decreases a.len(),
{
    if a.len() > 0 {
        lemma_number_is_injective(a.drop_last(), b.drop_last());
        assert(a =~= a.drop_last().push(a.last()));
        assert(b =~= b.drop_last().push(b.last()));
    } else {
        assert(a =~= b);
    }
}

proof fn lemma_word(order: ByteOrder, bytes: Seq<u8>, n: u64)
    requires
        bytes.len() == 8,
    ensures
        word_bytes(order, n).len() == 8,
        bytes == word_bytes(order, n) <==> number_in(order, bytes) == n,
{
    assert(pow(256, 8) == 0x1_0000_0000_0000_0000) by {
        reveal_with_fuel(pow, 9);
    }
    let le = little_endian(n as nat, 8);
    lemma_number_of_bytes(n as nat, 8);
    assert(le.reverse().reverse() =~= le);
    if number_in(order, bytes) == n {
        match order {
            ByteOrder::Big => {
                lemma_number_is_injective(bytes, le.reverse());
            },
            ByteOrder::Little => {
                lemma_number_is_injective(bytes.reverse(), le.reverse());
                assert(bytes.reverse().reverse() =~= bytes);
            },
        }
    }
}

proof fn lemma_usize(bytes: Seq<u8>, n: usize)
    ensures
        keeps(bytes, n) <==> bytes == usize_bytes(n),
{
    let len = (usize::BITS / 8) as nat;
    assert(pow(256, 4) == 0x1_0000_0000 && pow(256, 8) == 0x1_0000_0000_0000_0000) by {
        reveal_with_fuel(pow, 9);
    }
    assert(n < pow(256, len));
    let le = little_endian(n as nat, len);
    lemma_number_of_bytes(n as nat, len);
    assert(le.reverse().reverse() =~= le);
    if keeps(bytes, n) {
        match endianness() {
            Endian::Big => {
                lemma_number_is_injective(bytes, le.reverse());
            },
            Endian::Little => {
                lemma_number_is_injective(bytes.reverse(), le.reverse());
                assert(bytes.reverse().reverse() =~= bytes);
            },
        }
    }
}

/// To put a number appends eight bytes that stand for it, and nothing else.
pub proof fn law_put_word(order: ByteOrder, buf: &mut Vec<u8>, n: u64)
    requires
        call_ensures(put_word, (order, buf, n), ()),
    ensures
        final(buf)@.len() == old(buf)@.len() + 8,
        final(buf)@.take(old(buf)@.len() as int) == old(buf)@,
        number_in(order, final(buf)@.skip(old(buf)@.len() as int)) == n,
{
    let word = word_bytes(order, n);
    lemma_number_of_bytes_of_word(order, n);
    assert(final(buf)@.skip(old(buf)@.len() as int) =~= word);
    assert(final(buf)@.take(old(buf)@.len() as int) =~= old(buf)@);
}

proof fn lemma_number_of_bytes_of_word(order: ByteOrder, n: u64)
    ensures
        word_bytes(order, n).len() == 8,
        number_in(order, word_bytes(order, n)) == n,
{
    lemma_word(order, Seq::new(8, |i: int| 0u8), n);
    lemma_word(order, word_bytes(order, n), n);
}

/// To get a number takes eight bytes off the front, and gives what they stand
/// for.
pub proof fn law_get_word<'a>(order: ByteOrder, buf: &'a mut &'a [u8], n: u64)
    requires
        old(buf)@.len() >= 8,
        call_ensures(get_word, (order, buf), n),
    ensures
        number_in(order, old(buf)@.take(8)) == n,
        final(buf)@ == old(buf)@.skip(8),
{
    lemma_word(order, old(buf)@.take(8), n);
}

/// The hash that fills a block is what the default hasher gives once the bytes of
/// the file's number and then those of the block's number, and nothing else, were
/// written to it.
pub proof fn law_hash_is_of_the_two_numbers(
    id: usize,
    block: usize,
    hash: u64,
    id_kept: Seq<u8>,
    block_kept: Seq<u8>,
)
    requires
        call_ensures(gen_hash, (id, block), hash),
        keeps(id_kept, id),
        keeps(block_kept, block),
    ensures
        hash == DefaultHasher::spec_finish(seq![id_kept, block_kept]),
{
    lemma_usize(id_kept, id);
    lemma_usize(block_kept, block);
}

/// What is written to the hasher tells any two blocks apart: the hashes of two
/// blocks are those of two inputs, each of which keeps the two numbers of its
/// block, and which are the same only for the same file and the same block.
pub proof fn law_hash_inputs_tell_blocks_apart(
    id: usize,
    block: usize,
    hash: u64,
    other_id: usize,
    other_block: usize,
    other_hash: u64,
) -> (inputs: (Seq<Seq<u8>>, Seq<Seq<u8>>))
    requires
        call_ensures(gen_hash, (id, block), hash),
        call_ensures(gen_hash, (other_id, other_block), other_hash),
    ensures
        hash == DefaultHasher::spec_finish(inputs.0),
        other_hash == DefaultHasher::spec_finish(inputs.1),
        inputs.0.len() == 2 && keeps(inputs.0[0], id) && keeps(inputs.0[1], block),
        inputs.1.len() == 2 && keeps(inputs.1[0], other_id) && keeps(inputs.1[1], other_block),
        inputs.0 == inputs.1 <==> id == other_id && block == other_block,
{
    lemma_usize(usize_bytes(id), id);
    lemma_usize(usize_bytes(block), block);
    lemma_usize(usize_bytes(other_id), other_id);
    lemma_usize(usize_bytes(other_block), other_block);
    (
        seq![usize_bytes(id), usize_bytes(block)],
        seq![usize_bytes(other_id), usize_bytes(other_block)],
    )
}

/// The number that the `w`-th word of some bytes stands for.
pub open spec fn word_number(order: ByteOrder, bytes: Seq<u8>, w: int) -> nat {
    number_in(order, bytes.subrange(8 * w, 8 * w + 8))
}

/// The first `n` words all stand for this number.
pub open spec fn words_are(order: ByteOrder, bytes: Seq<u8>, n: int, number: u64) -> bool {
    forall|w: int| 0 <= w < n ==> #[trigger] word_number(order, bytes, w) == number
}

/// A block has 4096 bytes, every word of which stands for its hash.
pub proof fn law_block_is_filled_with_its_hash(
    order: ByteOrder,
    id: usize,
    block: usize,
    bytes: Vec<u8>,
    hash: u64,
)
    requires
        call_ensures(gen_block, (order, id, block), bytes),
        call_ensures(gen_hash, (id, block), hash),
    ensures
        bytes@.len() == 4096,
        words_are(order, bytes@, 512, hash),
{
    lemma_block_words(order, id, block, bytes@, hash);
}

/// What a comparison of bytes with a number tells: nothing is wrong, or which is
/// the first word that stands for another number, and for which, or that the last
/// bytes are no whole word.
pub open spec fn tells(
    order: ByteOrder,
    bytes: Seq<u8>,
    number: u64,
    outcome: Result<(), Mismatch>,
) -> bool {
    let words = bytes.len() as int / 8;
    &&& outcome is Ok <==> bytes.len() % 8 == 0 && words_are(order, bytes, words, number)
    &&& outcome matches Err(Mismatch::Word { index, found, expected }) ==> {
        &&& index < words
        &&& words_are(order, bytes, index as int, number)
        &&& word_number(order, bytes, index as int) == found
        &&& found != number
        &&& expected == number
    }
    &&& outcome matches Err(Mismatch::Trailing { left }) ==> {
        &&& words_are(order, bytes, words, number)
        &&& left == bytes.len() % 8
        &&& left > 0
    }
    &&& !(outcome matches Err(Mismatch::Length { .. }))
}

/// What a comparison says is what it tells.
pub proof fn lemma_tells(order: ByteOrder, bytes: Seq<u8>, val: u64, outcome: Result<(), Mismatch>)
    requires
        compared(order, bytes, val, outcome),
    ensures
        tells(order, bytes, val, outcome),
{
    let words = bytes.len() as int / 8;
    assert forall|w: int| 0 <= w < words implies (#[trigger] word_number(order, bytes, w) == val
        <==> word_at(bytes, w) == word_bytes(order, val)) by {
        lemma_word(order, bytes.subrange(8 * w, 8 * w + 8), val);
    }
    if let Err(Mismatch::Word { index, found, .. }) = outcome {
        lemma_word(order, word_at(bytes, index as int), found);
        assert(word_number(order, bytes, index as int) == found);
    }
}

/// A comparison tells what is wrong with the bytes.
pub proof fn law_verify_words(
    order: ByteOrder,
    bytes: &[u8],
    val: u64,
    outcome: Result<(), Mismatch>,
)
    requires
        call_ensures(verify_words, (order, bytes, val), outcome),
    ensures
        tells(order, bytes@, val, outcome),
{
    lemma_tells(order, bytes@, val, outcome);
}

/// A block passes the check where it has 4096 bytes, every word of which stands
/// for the hash of that file and block, the most significant byte first. Anything
/// else is told as it is.
pub proof fn law_verify_buf(
    buf: &[u8],
    id: usize,
    block: usize,
    hash: u64,
    outcome: Result<(), Mismatch>,
)
    requires
        call_ensures(gen_hash, (id, block), hash),
        call_ensures(verify_buf, (buf, id, block), outcome),
    ensures
        outcome is Ok <==> buf@.len() == 4096 && words_are(ByteOrder::Big, buf@, 512, hash),
        outcome matches Err(Mismatch::Length { len }) ==> len == buf@.len(),
        buf@.len() != 4096 ==> outcome matches Err(Mismatch::Length { .. }),
        buf@.len() == 4096 ==> tells(ByteOrder::Big, buf@, hash, outcome),
{
    if buf@.len() == 4096 {
        lemma_tells(ByteOrder::Big, buf@, hash, outcome);
    }
}

/// What was read of a block passes the other check where every word stands for
/// the hash of that file and block, the least significant byte first.
pub proof fn law_verify_buf_le(
    buf: &[u8],
    id: usize,
    block: usize,
    hash: u64,
    outcome: Result<(), Mismatch>,
)
    requires
        call_ensures(gen_hash, (id, block), hash),
        call_ensures(verify_buf_le, (buf, id, block), outcome),
    ensures
        tells(ByteOrder::Little, buf@, hash, outcome),
{
    lemma_tells(ByteOrder::Little, buf@, hash, outcome);
}

/// The block of one file and number passes the check of another one only where
/// the default hasher gives the two the same hash.
pub proof fn law_check_tells_blocks_apart(
    id: usize,
    block: usize,
    hash: u64,
    bytes: Vec<u8>,
    buf: &[u8],
    other_id: usize,
    other_block: usize,
    other_hash: u64,
    outcome: Result<(), Mismatch>,
)
    requires
        call_ensures(gen_hash, (id, block), hash),
        call_ensures(gen_block, (ByteOrder::Big, id, block), bytes),
        buf@ == bytes@,
        call_ensures(gen_hash, (other_id, other_block), other_hash),
        call_ensures(verify_buf, (buf, other_id, other_block), outcome),
    ensures
        outcome is Ok <==> hash == other_hash,
{
    law_block_is_filled_with_its_hash(ByteOrder::Big, id, block, bytes, hash);
    law_verify_buf(buf, other_id, other_block, other_hash, outcome);
    assert(word_number(ByteOrder::Big, buf@, 0) == hash);
}

/// The number that decimal digits stand for when they are read from left to
/// right.
pub open spec fn digits_number(digits: Seq<char>) -> int
    decreases digits.len(),
{
    if digits.len() == 0 {
        0
    } else {
        10 * digits_number(digits.drop_last()) + (digits.last() as int - '0' as int)
    }
}

/// These are decimal digits, without a 0 in front of others.
pub open spec fn plain_digits(digits: Seq<char>) -> bool {
    &&& digits.len() > 0
    &&& forall|i: int| 0 <= i < digits.len() ==> '0' <= #[trigger] digits[i] <= '9'
    &&& digits.len() > 1 ==> digits[0] != '0'
}

/// This is the number of the file in decimal digits, and `.blk`.
pub open spec fn names(name: Seq<char>, id: usize) -> bool {
    let n = name.len() - 4;
    &&& n > 0
    &&& name.skip(n) == seq!['.', 'b', 'l', 'k']
    &&& plain_digits(name.take(n))
    &&& digits_number(name.take(n)) == id
}

proof fn lemma_decimal_is_plain(n: nat)
    ensures
        plain_digits(decimal(n)),
        digits_number(decimal(n)) == n,
        n > 0 ==> decimal(n)[0] != '0',
    decreases n,
{
    if n < 10 {
        assert(decimal(n).drop_last() =~= Seq::<char>::empty());
        assert(decimal(n).last() == digit(n));
        assert(digits_number(decimal(n).drop_last()) == 0);
    } else {
        lemma_decimal_is_plain(n / 10);
        assert(decimal(n).drop_last() =~= decimal(n / 10));
        assert(decimal(n).last() == digit(n % 10));
    }
}

proof fn lemma_digits_are_positive(digits: Seq<char>)
    requires
        plain_digits(digits),
        digits[0] != '0',
    ensures
        digits_number(digits) > 0,
    decreases digits.len(),
{
    let init = digits.drop_last();
    assert('0' <= digits[digits.len() - 1] <= '9');
    if digits.len() > 1 {
        assert forall|i: int| 0 <= i < init.len() implies '0' <= #[trigger] init[i] <= '9' by {
            assert(init[i] == digits[i]);
        }
        lemma_digits_are_positive(init);
    } else {
        assert(digits_number(init) == 0);
        assert('0' <= digits[0] <= '9');
    }
}

proof fn lemma_plain_digits_are_decimal(digits: Seq<char>, n: nat)
    requires
        plain_digits(digits),
        digits_number(digits) == n,
    ensures
        digits == decimal(n),
    decreases digits.len(),
{
    let init = digits.drop_last();
    let last = digits.last();
    assert('0' <= digits[digits.len() - 1] <= '9');
    if digits.len() == 1 {
        assert(digits_number(init) == 0);
        assert(digits =~= seq![digit(n)]);
    } else {
        assert forall|i: int| 0 <= i < init.len() implies '0' <= #[trigger] init[i] <= '9' by {
            assert(init[i] == digits[i]);
        }
        assert(init[0] == digits[0]);
        lemma_digits_are_positive(init);
        lemma_plain_digits_are_decimal(init, (n / 10) as nat);
        assert(digits =~= decimal(n / 10).push(digit(n % 10)));
    }
}

proof fn lemma_name(name: Seq<char>, id: usize)
    ensures
        names(name, id) <==> name == file_name(id),
{
    reveal_strlit(".blk");
    let suffix = ".blk"@;
    assert(suffix =~= seq!['.', 'b', 'l', 'k']);
    let digits = decimal(id as nat);
    lemma_decimal_is_plain(id as nat);
    assert(file_name(id).take(file_name(id).len() - 4) =~= digits);
    assert(file_name(id).skip(file_name(id).len() - 4) =~= suffix);
    if names(name, id) {
        let n = name.len() - 4;
        lemma_plain_digits_are_decimal(name.take(n), id as nat);
        assert(name =~= name.take(n) + name.skip(n));
    }
}

/// The name of a test file is its number in decimal digits, read from left to
/// right and without a 0 in front, and `.blk`.
pub proof fn law_file_name(id: usize, name: String)
    requires
        call_ensures(block_file_name, (id,), name),
    ensures
        names(name@, id),
{
    lemma_name(name@, id);
}

/// Different files have different names.
pub proof fn law_names_tell_files_apart(
    id: usize,
    name: String,
    other_id: usize,
    other_name: String,
)
    requires
        call_ensures(block_file_name, (id,), name),
        call_ensures(block_file_name, (other_id,), other_name),
    ensures
        name@ == other_name@ <==> id == other_id,
{
    lemma_name(name@, id);
    lemma_name(other_name@, other_id);
}

/// The files on a disk by their names, and the name of the file that was opened
/// last.
pub struct Disk {
    pub files: Map<Seq<char>, Seq<u8>>,
    pub open: Seq<char>,
}

impl Disk {
    /// The disk after an action is performed: to open empties the file of that
    /// name, and to write appends to the file that was opened last.
    pub open spec fn after(self, action: GenerateAction) -> Self {
        match action {
            GenerateAction::Open { name, .. } => Disk {
                files: self.files.insert(name@, Seq::empty()),
                open: name@,
            },
            GenerateAction::Write(bytes) => Disk {
                files: self.files.insert(self.open, self.files[self.open] + bytes@),
                ..self
            },
            GenerateAction::Done => self,
        }
    }

    /// The disk after the first `n` actions.
    pub open spec fn after_first(self, actions: Seq<GenerateAction>, n: nat) -> Self
        decreases n,
    {
        if n == 0 {
            self
        } else {
            self.after_first(actions, (n - 1) as nat).after(actions[n - 1])
        }
    }
}

/// Where a run of the job stands after `k` calls.
proof fn lemma_job_at(
    order: ByteOrder,
    nf: usize,
    nb: usize,
    jobs: Seq<Generate>,
    calls: Seq<&mut Generate>,
    actions: Seq<GenerateAction>,
    k: int,
)
    requires
        jobs.len() > actions.len() == calls.len(),
        call_ensures(Generate::new, (order, nf, nb), jobs[0]),
        forall|k: int|
            #![trigger calls[k]]
            0 <= k < calls.len() ==> {
                &&& call_ensures(Generate::next, (calls[k],), actions[k])
                &&& *calls[k] == jobs[k]
                &&& *final(calls[k]) == jobs[k + 1]
            },
        0 <= k < actions.len(),
        k <= all_steps(nf as nat, nb as nat).len(),
    ensures
        ({
            let all = all_steps(nf as nat, nb as nat);
            &&& jobs[k].wf()
            &&& jobs[k].order == order && jobs[k].nf == nf && jobs[k].nb == nb
            &&& jobs[k].taken() == all.take(k)
            &&& k < all.len() ==> actions[k].takes(all[k], order)
            &&& k == all.len() ==> actions[k] is Done
        }),
    decreases k,
{
    let all = all_steps(nf as nat, nb as nat);
    if k == 0 {
        assert(all.take(0) =~= Seq::<Step>::empty());
    } else {
        lemma_job_at(order, nf, nb, jobs, calls, actions, k - 1);
        assert(*final(calls[k - 1]) == jobs[k]);
        assert(all.take(k - 1).len() == k - 1);
    }
    assert(all.take(k).len() == k);
    assert(*calls[k] == jobs[k]);
}

spec fn file_of(step: Step) -> usize {
    match step {
        Step::Open { id } => id,
        Step::Write { id, .. } => id,
    }
}

spec fn opened(steps: Seq<Step>, k: int, id: usize) -> bool {
    exists|j: int| 0 <= j < k && #[trigger] steps[j] == (Step::Open { id })
}

proof fn lemma_writes_follow(files: nat, nb: nat, k: int)
    requires
        files <= usize::MAX,
        0 <= k < all_steps(files, nb).len(),
    ensures
        file_of(all_steps(files, nb)[k]) < files,
        all_steps(files, nb)[k] is Write ==> k > 0 && file_of(all_steps(files, nb)[k - 1])
            == file_of(all_steps(files, nb)[k]),
    decreases files,
{
    let fewer = (files - 1) as nat;
    let before = all_steps(fewer, nb);
    let own = file_steps(fewer as usize, nb);
    let all = all_steps(files, nb);
    if k < before.len() {
        lemma_writes_follow(fewer, nb, k);
        assert(all[k] == before[k]);
        if k > 0 {
            assert(all[k - 1] == before[k - 1]);
        }
    } else {
        let i = k - before.len();
        assert(all[k] == own[i]);
        if i > 0 {
            assert(all[k - 1] == own[i - 1]);
        }
    }
}

proof fn lemma_every_file_is_opened(files: nat, nb: nat, id: usize)
    requires
        id < files <= usize::MAX,
    ensures
        opened(all_steps(files, nb), all_steps(files, nb).len() as int, id),
    decreases files,
{
    let fewer = (files - 1) as nat;
    let before = all_steps(fewer, nb);
    let all = all_steps(files, nb);
    if id == fewer {
        assert(all[before.len() as int] == Step::Open { id });
    } else {
        lemma_every_file_is_opened(fewer, nb, id);
        let j = choose|j: int| 0 <= j < before.len() && #[trigger] before[j] == (Step::Open { id });
        assert(all[j] == before[j]);
    }
}

proof fn lemma_disk(
    start: Disk,
    order: ByteOrder,
    nf: usize,
    nb: usize,
    actions: Seq<GenerateAction>,
    k: nat,
    id: usize,
)
    requires
        k <= all_steps(nf as nat, nb as nat).len() <= actions.len(),
        forall|n: int|
            0 <= n < k ==> (#[trigger] actions[n]).takes(all_steps(nf as nat, nb as nat)[n], order),
    ensures
        ({
            let all = all_steps(nf as nat, nb as nat);
            let disk = start.after_first(actions, k);
            &&& k > 0 ==> disk.open == file_name(file_of(all[k - 1])) && opened(
                all,
                k as int,
                file_of(all[k - 1]),
            )
            &&& opened(all, k as int, id) ==> {
                &&& disk.files.contains_key(file_name(id))
                &&& disk.files[file_name(id)] == contents_after(order, all.take(k as int), id)
            }
        }),
    decreases k,
{
    if k > 0 {
        let all = all_steps(nf as nat, nb as nat);
        let last = k - 1;
        let step = all[last];
        let file = file_of(step);
        let action = actions[last];
        let before = start.after_first(actions, last as nat);
        lemma_disk(start, order, nf, nb, actions, last as nat, id);
        lemma_writes_follow(nf as nat, nb as nat, last);
        assert(all.take(k as int).drop_last() =~= all.take(last));
        assert(all.take(k as int).last() == step);
        assert(action.takes(step, order));
        lemma_name(file_name(id), id);
        lemma_name(file_name(file), file);
        assert(file_name(id) == file_name(file) ==> id == file);
        if opened(all, last, file) {
            let j = choose|j: int| 0 <= j < last && #[trigger] all[j] == (Step::Open { id: file });
            assert(0 <= j < k && all[j] == (Step::Open { id: file }));
        }
        if opened(all, last, id) {
            let j = choose|j: int| 0 <= j < last && #[trigger] all[j] == (Step::Open { id });
            assert(0 <= j < k && all[j] == (Step::Open { id }));
        }
        if opened(all, k as int, id) && !opened(all, last, id) {
            let j = choose|j: int| 0 <= j < k && #[trigger] all[j] == (Step::Open { id });
            assert(j == last);
        }
        if step is Open {
            assert(all[last] == (Step::Open { id: file }));
        } else {
            lemma_disk(start, order, nf, nb, actions, last as nat, file);
        }
    }
}

proof fn lemma_other_files(
    start: Disk,
    order: ByteOrder,
    nf: usize,
    nb: usize,
    actions: Seq<GenerateAction>,
    k: nat,
    name: Seq<char>,
)
    requires
        k <= all_steps(nf as nat, nb as nat).len() <= actions.len(),
        forall|n: int|
            0 <= n < k ==> (#[trigger] actions[n]).takes(all_steps(nf as nat, nb as nat)[n], order),
        forall|id: usize| id < nf ==> name != #[trigger] file_name(id),
    ensures
        start.after_first(actions, k).files.contains_key(name) <==> start.files.contains_key(name),
        start.after_first(actions, k).files[name] == start.files[name],
    decreases k,
{
    if k > 0 {
        let all = all_steps(nf as nat, nb as nat);
        let last = k - 1;
        lemma_other_files(start, order, nf, nb, actions, last as nat, name);
        lemma_writes_follow(nf as nat, nb as nat, last);
        lemma_disk(start, order, nf, nb, actions, last as nat, 0);
        assert(actions[last].takes(all[last], order));
    }
}

/// A run of the job writes every file, and no other. Begun with so many files and
/// blocks on any disk, and asked for its next action until nothing is left (the
/// `k`-th call finds the job as `jobs[k]`, and leaves it as `jobs[k + 1]`), each
/// action being performed, it leaves under the name of each of the files, which
/// is the file's number in decimal digits and `.blk`, so many blocks of 4096
/// bytes; every word of a block stands for the hash of that file and block. What
/// the disk holds under other names is as it was.
pub proof fn law_run_writes_the_files(
    start: Disk,
    order: ByteOrder,
    nf: usize,
    nb: usize,
    jobs: Seq<Generate>,
    calls: Seq<&mut Generate>,
    actions: Seq<GenerateAction>,
    name: Seq<char>,
    id: usize,
    block: usize,
    hash: u64,
)
    requires
        jobs.len() > actions.len() == calls.len(),
        call_ensures(Generate::new, (order, nf, nb), jobs[0]),
        forall|k: int|
            #![trigger calls[k]]
            0 <= k < calls.len() ==> {
                &&& call_ensures(Generate::next, (calls[k],), actions[k])
                &&& *calls[k] == jobs[k]
                &&& *final(calls[k]) == jobs[k + 1]
            },
        actions.len() > 0,
        forall|k: int| 0 <= k < actions.len() - 1 ==> !(#[trigger] actions[k] is Done),
        actions.last() is Done,
        call_ensures(gen_hash, (id, block), hash),
    ensures
        ({
            let disk = start.after_first(actions, actions.len());
            &&& names(name, id) && id < nf ==> {
                &&& disk.files.contains_key(name)
                &&& disk.files[name].len() == nb * 4096
                &&& block < nb ==> words_are(
                    order,
                    disk.files[name].subrange(block * 4096, block * 4096 + 4096),
                    512,
                    hash,
                )
            }
            &&& (forall|file: usize| file < nf ==> !#[trigger] names(name, file)) ==> {
                &&& disk.files.contains_key(name) <==> start.files.contains_key(name)
                &&& disk.files[name] == start.files[name]
            }
        }),
{
    let all = all_steps(nf as nat, nb as nat);
    let len = all.len();
    let end = actions.len() - 1;
    if end > len {
        lemma_job_at(order, nf, nb, jobs, calls, actions, len as int);
        assert(!(actions[len as int] is Done));
    }
    if end < len {
        lemma_job_at(order, nf, nb, jobs, calls, actions, end);
        assert(actions[end] is Done);
    }
    assert forall|n: int| 0 <= n < len implies (#[trigger] actions[n]).takes(all[n], order) by {
        lemma_job_at(order, nf, nb, jobs, calls, actions, n);
    }
    let disk = start.after_first(actions, len);
    assert(start.after_first(actions, actions.len()) == disk.after(actions[end]));
    if names(name, id) && id < nf {
        lemma_name(name, id);
        lemma_disk(start, order, nf, nb, actions, len, id);
        lemma_every_file_is_opened(nf as nat, nb as nat, id);
        assert(all.take(len as int) =~= all);
        law_files_hold_their_blocks(order, nf as nat, nb as nat, id);
        assert(disk.files[name] == file_bytes(order, id, nb as nat));
        lemma_file_length(order, id, nb as nat);
        if block < nb {
            law_block_is_at_its_offset(order, id, nb as nat, block);
            let read = disk.files[name].subrange(block * 4096, block * 4096 + 4096);
            lemma_block_words(order, id, block, read, hash);
        }
    }
    if forall|file: usize| file < nf ==> !#[trigger] names(name, file) {
        assert forall|file: usize| file < nf implies name != #[trigger] file_name(file) by {
            lemma_name(name, file);
        }
        lemma_other_files(start, order, nf, nb, actions, len, name);
    }
}

proof fn lemma_file_length(order: ByteOrder, id: usize, nb: nat)
    ensures
        file_bytes(order, id, nb).len() == nb * 4096,
    decreases nb,
{
    if nb > 0 {
        lemma_file_length(order, id, (nb - 1) as nat);
    }
}

proof fn lemma_block_words(
    order: ByteOrder,
    id: usize,
    block: usize,
    bytes: Seq<u8>,
    hash: u64,
)
    requires
        bytes == block_bytes(order, id, block),
        call_ensures(gen_hash, (id, block), hash),
    ensures
        bytes.len() == 4096,
        words_are(order, bytes, 512, hash),
{
    assert forall|w: int| 0 <= w < 512 implies #[trigger] word_number(order, bytes, w) == hash by {
        let word = bytes.subrange(8 * w, 8 * w + 8);
        lemma_number_of_bytes_of_word(order, hash);
        assert(word =~= word_bytes(order, hash));
    }
}

} // verus!
