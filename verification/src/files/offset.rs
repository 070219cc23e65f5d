//! Offsets from the start of a file.

use crate::files::ByteReader;
use vstd::prelude::*;

verus! {

/// A number of bytes from the start of a file.
#[derive(Debug, Default, PartialEq, Eq, PartialOrd, Ord, Clone, Copy)]
pub struct Offset(pub u32);

impl Offset {
    /// Moves `read` to this offset and returns the new position.
    pub fn seek_to(&self, read: &mut ByteReader) -> (r: u64)
        ensures
            final(read).data@ == old(read).data@,
            final(read).pos == self.0,
            r == self.0,
    {
        read.seek_to(self.0 as usize);
        self.0 as u64
    }

    /// Moves `read` to `offset` bytes past this offset and returns the new
    /// position, or `None`, leaving `read` where it is, if the machine
    /// cannot address that position.
    pub fn seek_with_offset(&self, read: &mut ByteReader, offset: Offset) -> (r: Option<u64>)
        ensures
            final(read).data@ == old(read).data@,
            match r {
                Some(p) => p == self.0 + offset.0 && final(read).pos == self.0 + offset.0,
                None => self.0 + offset.0 > usize::MAX && final(read).pos == old(read).pos,
            },
    {
        let pos: u64 = self.0 as u64 + offset.0 as u64;
        if pos <= usize::MAX as u64 {
            read.seek_to(pos as usize);
            Some(pos)
        } else {
            None
        }
    }

    /// The offset `rhs` bytes further on, if it fits in 32 bits.
    pub fn checked_add(self, rhs: u32) -> (r: Option<Offset>)
        ensures
            match r {
                Some(o) => o.0 == self.0 + rhs,
                None => self.0 + rhs > u32::MAX,
            },
    {
        match self.0.checked_add(rhs) {
            Some(v) => Some(Offset(v)),
            None => None,
        }
    }
}

} // verus!
