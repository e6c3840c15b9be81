//! Files that can be read at any position.
use vstd::prelude::*;

verus! {

/// A set of files, numbered from 0, that can be read at any position.
pub trait RandomAccessFiles {
    /// A read under way, which holds the buffer that it reads into.
    type Read<'a>;

    /// The file and the offset that a read asks for, and the buffer that it
    /// holds.
    spec fn asks_for<'a>(read: &Self::Read<'a>) -> (u32, u64, Option<&'a mut [u8]>);

    /// Begins a read at `offset` of the `id`-th file into `buf`.
    fn read<'a>(&self, id: u32, offset: u64, buf: &'a mut [u8]) -> (read: Self::Read<'a>)
        ensures
            Self::asks_for(&read) == (id, offset, Some(buf)),
    ;
}

} // verus!
