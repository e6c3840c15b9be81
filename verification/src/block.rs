//! The contents of the test files: every block is filled with a hash of the
//! file's and the block's number.
use crate::word::{
    get_word, law_word_bytes_tell_numbers_apart, lemma_word_len, native_bytes, put_word,
    usize_bytes, word_bytes, ByteOrder,
};
use std::collections::hash_map::DefaultHasher;
use std::hash::Hasher;
use vstd::prelude::*;
use vstd::std_specs::hash::DefaultHasherAdditionalSpecFns;

verus! {

/// The size of a block in bytes.
pub const BLOCK_SIZE: usize = 4096;

/// What is wrong with the contents of a block.
#[derive(Debug, Clone, Copy, PartialEq, Eq, Structural)]
pub enum Mismatch {
    /// The block does not have the size of a block.
    Length { len: usize },
    /// This word, counted from 0, is the first that is not the expected one.
    Word { index: usize, found: u64, expected: u64 },
    /// All words are the expected one, but so many bytes are left over.
    Trailing { left: usize },
}

/// The hash that fills a block: that of the standard library's default hasher
/// over the two numbers.
pub open spec fn block_hash(id: usize, block: usize) -> u64 {
    DefaultHasher::spec_finish(seq![usize_bytes(id), usize_bytes(block)])
}

/// The contents of a block: its hash, over and over.
pub open spec fn block_bytes(order: ByteOrder, id: usize, block: usize) -> Seq<u8> {
    Seq::new(BLOCK_SIZE as nat, |i: int| word_bytes(order, block_hash(id, block))[i % 8])
}

/// The `i`-th word of some bytes.
pub open spec fn word_at(bytes: Seq<u8>, i: int) -> Seq<u8> {
    bytes.subrange(8 * i, 8 * i + 8)
}

/// The first `n` words are all this one.
pub open spec fn starts_with_words(order: ByteOrder, bytes: Seq<u8>, val: u64, n: int) -> bool {
    forall|i: int| 0 <= i < n ==> #[trigger] word_at(bytes, i) == word_bytes(order, val)
}

/// The outcome of holding some bytes against a word that is to fill them. For
/// any bytes it allows one outcome.
pub open spec fn compared(
    order: ByteOrder,
    bytes: Seq<u8>,
    val: u64,
    outcome: Result<(), Mismatch>,
) -> bool {
    let words = bytes.len() as int / 8;
    match outcome {
        Ok(()) => bytes.len() % 8 == 0 && starts_with_words(order, bytes, val, words),
        Err(Mismatch::Word { index, found, expected }) => {
            &&& index < words
            &&& starts_with_words(order, bytes, val, index as int)
            &&& word_at(bytes, index as int) == word_bytes(order, found)
            &&& found != val
            &&& expected == val
        },
        Err(Mismatch::Trailing { left }) => {
            &&& starts_with_words(order, bytes, val, words)
            &&& left == bytes.len() % 8
            &&& left > 0
        },
        Err(Mismatch::Length { .. }) => false,
    }
}

/// The outcome of checking a block. For any bytes it allows one outcome.
pub open spec fn block_checked(
    bytes: Seq<u8>,
    id: usize,
    block: usize,
    outcome: Result<(), Mismatch>,
) -> bool {
    if bytes.len() != BLOCK_SIZE {
        outcome matches Err(Mismatch::Length { len }) && len == bytes.len()
    } else {
        compared(ByteOrder::Big, bytes, block_hash(id, block), outcome)
    }
}

/// The hash that fills a block. The two numbers are hashed as the machine keeps
/// them, so that machines of another byte order have other hashes.
pub fn gen_hash(id: usize, block: usize) -> (hash: u64)
    ensures
        hash == block_hash(id, block),
{
    let mut hasher = DefaultHasher::new();
    hasher.write(native_bytes(id).as_slice());
    hasher.write(native_bytes(block).as_slice());
    proof {
        assert(hasher@ =~= seq![usize_bytes(id), usize_bytes(block)]);
    }
    hasher.finish()
}

/// The contents of a block.
pub fn gen_block(order: ByteOrder, id: usize, block: usize) -> (bytes: Vec<u8>)
    ensures
        bytes@ == block_bytes(order, id, block),
{
    let val = gen_hash(id, block);
    let mut word: Vec<u8> = Vec::new();
    put_word(order, &mut word, val);
    proof {
        lemma_word_len(order, val);
        assert(word@ =~= word_bytes(order, val));
    }
    let times: usize = BLOCK_SIZE / word.len();
    let mut bytes: Vec<u8> = Vec::new();
    for n in 0..times
        invariant
            times == 512,
            word@ == word_bytes(order, val),
            word@.len() == 8,
            bytes@ == Seq::new((8 * n) as nat, |i: int| word@[i % 8]),
    {
        let ghost before = bytes@;
        for k in 0..8usize
            invariant
                word@.len() == 8,
                before == Seq::new((8 * n) as nat, |i: int| word@[i % 8]),
                bytes@ == before + word@.take(k as int),
        {
            bytes.push(word[k]);
            assert(word@.take(k + 1) =~= word@.take(k as int).push(word@[k as int]));
        }
        assert(word@.take(8) =~= word@);
        assert(bytes@ =~= Seq::new((8 * (n + 1)) as nat, |i: int| word@[i % 8]));
    }
    assert(bytes@ =~= block_bytes(order, id, block));
    bytes
}

/// Holds some bytes against a word that is to fill them.
pub fn verify_words(order: ByteOrder, bytes: &[u8], val: u64) -> (outcome: Result<(), Mismatch>)
    ensures
        compared(order, bytes@, val, outcome),
{
    let len: usize = bytes.len();
    let mut rest: &[u8] = bytes;
    let mut index: usize = 0;
    while rest.len() > 0
        invariant
            8 * index <= bytes@.len() == len,
            rest@ == bytes@.skip(8 * index as int),
            starts_with_words(order, bytes@, val, index as int),
        decreases rest@.len(),
    {
        if rest.len() < 8 {
            return Err(Mismatch::Trailing { left: rest.len() });
        }
        let found = get_word(order, &mut rest);
        proof {
            assert(bytes@.skip(8 * index as int).take(8) =~= word_at(bytes@, index as int));
            assert(bytes@.skip(8 * index as int).skip(8) =~= bytes@.skip(8 * (index + 1)));
        }
        if found != val {
            return Err(Mismatch::Word { index, found, expected: val });
        }
        index = index + 1;
    }
    Ok(())
}

proof fn lemma_filled_with_words(order: ByteOrder, bytes: Seq<u8>, id: usize, block: usize)
    requires
        bytes.len() == BLOCK_SIZE,
    ensures
        starts_with_words(order, bytes, block_hash(id, block), 512) <==> bytes == block_bytes(
            order,
            id,
            block,
        ),
{
    let val = block_hash(id, block);
    lemma_word_len(order, val);
    if starts_with_words(order, bytes, val, 512) {
        assert forall|i: int| 0 <= i < bytes.len() implies bytes[i] == block_bytes(
            order,
            id,
            block,
        )[i] by {
            assert(word_at(bytes, i / 8)[i % 8] == bytes[i]);
        }
        assert(bytes =~= block_bytes(order, id, block));
    }
    if bytes == block_bytes(order, id, block) {
        assert forall|i: int| 0 <= i < 512 implies #[trigger] word_at(bytes, i) == word_bytes(
            order,
            val,
        ) by {
            assert(word_at(bytes, i) =~= word_bytes(order, val));
        }
    }
}

/// Checks a block that was read: it has to have the size of a block, and every
/// word has to be the hash, the most significant byte first.
pub fn verify_buf(buf: &[u8], id: usize, block: usize) -> (outcome: Result<(), Mismatch>)
    ensures
        outcome is Ok <==> buf@ == block_bytes(ByteOrder::Big, id, block),
        block_checked(buf@, id, block, outcome),
{
    if buf.len() != BLOCK_SIZE {
        return Err(Mismatch::Length { len: buf.len() });
    }
    let val = gen_hash(id, block);
    let outcome = verify_words(ByteOrder::Big, buf, val);
    proof {
        law_verified_is_generated(ByteOrder::Big, buf@, id, block, outcome);
    }
    outcome
}

/// Checks what was read of a block whose words have the least significant byte
/// first, however much that is.
pub fn verify_buf_le(buf: &[u8], id: usize, block: usize) -> (outcome: Result<(), Mismatch>)
    ensures
        compared(ByteOrder::Little, buf@, block_hash(id, block), outcome),
        buf@.len() == BLOCK_SIZE ==> (outcome is Ok <==> buf@ == block_bytes(
            ByteOrder::Little,
            id,
            block,
        )),
{
    let val = gen_hash(id, block);
    let outcome = verify_words(ByteOrder::Little, buf, val);
    proof {
        if buf@.len() == BLOCK_SIZE {
            law_verified_is_generated(ByteOrder::Little, buf@, id, block, outcome);
        }
    }
    outcome
}

proof fn lemma_first_mismatch(
    order: ByteOrder,
    bytes: Seq<u8>,
    val: u64,
    index: usize,
    found: u64,
    n: int,
)
    requires
        starts_with_words(order, bytes, val, n),
        word_at(bytes, index as int) == word_bytes(order, found),
        found != val,
    ensures
        n <= index,
{
    if index < n {
        assert(word_at(bytes, index as int) == word_bytes(order, val));
        law_word_bytes_tell_numbers_apart(order, found, val);
    }
}

/// Holding bytes against a word has one outcome.
pub proof fn law_one_outcome(
    order: ByteOrder,
    bytes: Seq<u8>,
    val: u64,
    a: Result<(), Mismatch>,
    b: Result<(), Mismatch>,
)
    requires
        compared(order, bytes, val, a),
        compared(order, bytes, val, b),
    ensures
        a == b,
{
    let words = bytes.len() as int / 8;
    match (a, b) {
        (
            Err(Mismatch::Word { index: i, found: x, expected: _ }),
            Err(Mismatch::Word { index: j, found: y, expected: _ }),
        ) => {
            lemma_first_mismatch(order, bytes, val, i, x, j as int);
            lemma_first_mismatch(order, bytes, val, j, y, i as int);
            law_word_bytes_tell_numbers_apart(order, x, y);
        },
        (Err(Mismatch::Word { index: i, found: x, expected: _ }), _) => {
            lemma_first_mismatch(order, bytes, val, i, x, words);
        },
        (_, Err(Mismatch::Word { index: j, found: y, expected: _ })) => {
            lemma_first_mismatch(order, bytes, val, j, y, words);
        },
        (Ok(u), Ok(v)) => {
            assert(u == v);
        },
        _ => {},
    }
}

/// A whole block passes the comparison where it is the block that was
/// generated, and nowhere else.
pub proof fn law_verified_is_generated(
    order: ByteOrder,
    bytes: Seq<u8>,
    id: usize,
    block: usize,
    outcome: Result<(), Mismatch>,
)
    requires
        bytes.len() == BLOCK_SIZE,
        compared(order, bytes, block_hash(id, block), outcome),
    ensures
        outcome is Ok <==> bytes == block_bytes(order, id, block),
{
    lemma_filled_with_words(order, bytes, id, block);
    if bytes == block_bytes(order, id, block) {
        law_one_outcome(order, bytes, block_hash(id, block), outcome, Ok(()));
    }
}

} // verus!
