//! Numbers as bytes.
use bytes::{Buf, BufMut};
use vstd::endian::{endianness, Endian};
use vstd::prelude::*;

verus! {

/// The order in which the bytes of a number are written.
#[derive(Debug, Clone, Copy, PartialEq, Eq, Structural)]
pub enum ByteOrder {
    /// The most significant byte first.
    Big,
    /// The least significant byte first.
    Little,
}

/// The low `len` bytes of a number, the least significant byte first.
pub open spec fn little_endian(n: nat, len: nat) -> Seq<u8>
    decreases len,
{
    if len == 0 {
        seq![]
    } else {
        seq![(n % 256) as u8] + little_endian(n / 256, (len - 1) as nat)
    }
}

/// The low `len` bytes of a number, the most significant byte first.
pub open spec fn big_endian(n: nat, len: nat) -> Seq<u8> {
    little_endian(n, len).reverse()
}

/// The eight bytes of a number in the given order.
pub open spec fn word_bytes(order: ByteOrder, n: u64) -> Seq<u8> {
    match order {
        ByteOrder::Big => big_endian(n as nat, 8),
        ByteOrder::Little => little_endian(n as nat, 8),
    }
}

/// Calls `put_u64` of `bytes::BufMut` on a vector: appends the eight bytes of
/// `n`, the most significant byte first. A vector takes up to `isize::MAX`
/// bytes.
#[verifier::external_body]
fn put_big(buf: &mut Vec<u8>, n: u64)
    requires
        old(buf)@.len() + 8 <= isize::MAX,
    ensures
        final(buf)@ == old(buf)@ + big_endian(n as nat, 8),
{
    buf.put_u64(n)
}

/// Calls `put_u64_le` of `bytes::BufMut` on a vector: appends the eight bytes
/// of `n`, the least significant byte first. A vector takes up to `isize::MAX`
/// bytes.
#[verifier::external_body]
fn put_little(buf: &mut Vec<u8>, n: u64)
    requires
        old(buf)@.len() + 8 <= isize::MAX,
    ensures
        final(buf)@ == old(buf)@ + little_endian(n as nat, 8),
{
    buf.put_u64_le(n)
}

/// Calls `get_u64` of `bytes::Buf` on a slice: takes eight bytes off its front,
/// and returns the number that they stand for with the most significant byte
/// first. It panics on a shorter slice.
#[verifier::external_body]
fn get_big(buf: &mut &[u8]) -> (n: u64)
    requires
        old(buf)@.len() >= 8,
    ensures
        big_endian(n as nat, 8) == old(buf)@.take(8),
        final(buf)@ == old(buf)@.skip(8),
{
    buf.get_u64()
}

/// Calls `get_u64_le` of `bytes::Buf` on a slice: takes eight bytes off its
/// front, and returns the number that they stand for with the least significant
/// byte first. It panics on a shorter slice.
#[verifier::external_body]
fn get_little(buf: &mut &[u8]) -> (n: u64)
    requires
        old(buf)@.len() >= 8,
    ensures
        little_endian(n as nat, 8) == old(buf)@.take(8),
        final(buf)@ == old(buf)@.skip(8),
{
    buf.get_u64_le()
}

/// Appends the bytes of a number.
pub fn put_word(order: ByteOrder, buf: &mut Vec<u8>, n: u64)
    requires
        old(buf)@.len() + 8 <= isize::MAX,
    ensures
        final(buf)@ == old(buf)@ + word_bytes(order, n),
{
    match order {
        ByteOrder::Big => put_big(buf, n),
        ByteOrder::Little => put_little(buf, n),
    }
}

/// Takes a number off the front.
pub fn get_word(order: ByteOrder, buf: &mut &[u8]) -> (n: u64)
    requires
        old(buf)@.len() >= 8,
    ensures
        word_bytes(order, n) == old(buf)@.take(8),
        final(buf)@ == old(buf)@.skip(8),
{
    match order {
        ByteOrder::Big => get_big(buf),
        ByteOrder::Little => get_little(buf),
    }
}

/// The bytes of a `usize`, in the order in which the machine keeps them.
pub open spec fn usize_bytes(n: usize) -> Seq<u8> {
    let len = (usize::BITS / 8) as nat;
    match endianness() {
        Endian::Little => little_endian(n as nat, len),
        Endian::Big => big_endian(n as nat, len),
    }
}

/// Calls `usize::to_ne_bytes`: the bytes of `n` in the machine's own order, as
/// many as a `usize` has.
#[verifier::external_body]
pub(crate) fn native_bytes(n: usize) -> (bytes: Vec<u8>)
    ensures
        bytes@ == usize_bytes(n),
{
    n.to_ne_bytes().to_vec()
}

proof fn lemma_little_endian_len(n: nat, len: nat)
    ensures
        little_endian(n, len).len() == len,
    decreases len,
{
    if len > 0 {
        lemma_little_endian_len(n / 256, (len - 1) as nat);
    }
}

/// The bytes of a number in the given order are eight.
pub proof fn lemma_word_len(order: ByteOrder, n: u64)
    ensures
        word_bytes(order, n).len() == 8,
{
    lemma_little_endian_len(n as nat, 8);
}

proof fn lemma_little_endian_injective(a: nat, b: nat, len: nat)
    requires
        little_endian(a, len) == little_endian(b, len),
        a < vstd::arithmetic::power::pow(256, len),
        b < vstd::arithmetic::power::pow(256, len),
    ensures
        a == b,
    decreases len,
{
    if len == 0 {
        vstd::arithmetic::power::lemma_pow0(256);
    } else {
        let la = little_endian(a, len);
        let lb = little_endian(b, len);
        let rest = (len - 1) as nat;
        assert(la[0] == (a % 256) as u8);
        assert(lb[0] == (b % 256) as u8);
        assert(la.skip(1) =~= little_endian(a / 256, rest));
        assert(lb.skip(1) =~= little_endian(b / 256, rest));
        let p = vstd::arithmetic::power::pow(256, rest);
        assert(vstd::arithmetic::power::pow(256, len) == 256 * p) by {
            reveal(vstd::arithmetic::power::pow);
        }
        lemma_little_endian_injective(a / 256, b / 256, rest);
    }
}

/// Different numbers have different bytes.
pub proof fn law_word_bytes_tell_numbers_apart(order: ByteOrder, a: u64, b: u64)
    ensures
        word_bytes(order, a) == word_bytes(order, b) <==> a == b,
{
    if word_bytes(order, a) == word_bytes(order, b) {
        lemma_word_len(order, a);
        lemma_word_len(order, b);
        let la = little_endian(a as nat, 8);
        let lb = little_endian(b as nat, 8);
        if order == ByteOrder::Big {
            assert(la.reverse().reverse() =~= la);
            assert(lb.reverse().reverse() =~= lb);
        }
        assert(vstd::arithmetic::power::pow(256, 8) == 0x1_0000_0000_0000_0000) by {
            reveal_with_fuel(vstd::arithmetic::power::pow, 9);
        }
        lemma_little_endian_injective(a as nat, b as nat, 8);
    }
}

} // verus!
