//! What is put into the submission queue.
use vstd::prelude::*;

verus! {

/// The operation that the kernel is asked to perform.
#[derive(Debug, Clone, Copy, PartialEq, Eq, Structural)]
pub enum Operation {
    /// Read at most `len` bytes at `offset` of the `file`-th registered file.
    Read { file: u32, len: u32, offset: i64 },
    /// Do nothing, and complete.
    Nop,
}

/// A submission: the operation, whether it waits for everything submitted
/// before it, and the value by which its completion is recognised.
#[derive(Debug, Clone, Copy, PartialEq, Eq, Structural)]
pub struct Entry {
    pub operation: Operation,
    pub drain: bool,
    pub user_data: u64,
}

/// The low 32 bits of a number.
pub open spec fn low_32_bits(n: nat) -> u32 {
    (n % 0x1_0000_0000) as u32
}

/// The signed number with the same 64 bits.
pub open spec fn same_bits_signed(n: u64) -> i64 {
    if n <= i64::MAX {
        n as i64
    } else {
        (n - 0x1_0000_0000_0000_0000) as i64
    }
}

/// The entry of a read: a queue entry has 32 bits for the length and a signed
/// 64-bit offset, whatever the buffer's length and the offset asked for.
pub open spec fn read_entry(id: u32, buf_len: usize, offset: u64, user_data: u64) -> Entry {
    Entry {
        operation: Operation::Read {
            file: id,
            len: low_32_bits(buf_len as nat),
            offset: same_bits_signed(offset),
        },
        drain: false,
        user_data,
    }
}

/// The entry of a flush: no operation, after everything submitted before it.
pub open spec fn flush_entry(user_data: u64) -> Entry {
    Entry { operation: Operation::Nop, drain: true, user_data }
}

/// `n as u32`: keeps the low 32 bits.
pub fn truncate_to_u32(n: usize) -> (low: u32)
    ensures
        low == low_32_bits(n as nat),
{
    let wide: u64 = n as u64;
    assert(#[verifier::truncate] (wide as u32) == (wide % 0x1_0000_0000) as u32) by (bit_vector);
    #[verifier::truncate]
    (n as u32)
}

impl Entry {
    /// Builds the entry of a read.
    pub fn read(id: u32, buf_len: usize, offset: u64, user_data: u64) -> (entry: Entry)
        ensures
            entry == read_entry(id, buf_len, offset, user_data),
    {
        proof {
            assert(offset <= 0x7fff_ffff_ffff_ffff ==> (offset as i64) == offset) by (bit_vector);
            assert(offset > 0x7fff_ffff_ffff_ffff ==> (offset as i64) == offset
                - 0x1_0000_0000_0000_0000) by (bit_vector);
        }
        let signed: i64 = #[verifier::truncate]
        (offset as i64);
        Entry {
            operation: Operation::Read { file: id, len: truncate_to_u32(buf_len), offset: signed },
            drain: false,
            user_data,
        }
    }

    /// Builds the entry of a flush.
    pub fn flush(user_data: u64) -> (entry: Entry)
        ensures
            entry == flush_entry(user_data),
    {
        Entry { operation: Operation::Nop, drain: true, user_data }
    }
}

/// Where the buffer is shorter than four gibibytes and the offset is below
/// 2^63, the entry asks for exactly the bytes that the read asked for.
pub proof fn law_read_entry_is_exact(id: u32, buf_len: usize, offset: u64, user_data: u64)
    requires
        buf_len < 0x1_0000_0000,
        offset <= i64::MAX,
    ensures
        read_entry(id, buf_len, offset, user_data).operation matches Operation::Read {
            file,
            len,
            offset: at,
        } && file == id && len == buf_len && at == offset,
{
}

} // verus!
