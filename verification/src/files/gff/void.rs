//! Opaque bytes.

use crate::error::{Error, ParseFault, WriteFault};
use crate::files::{bytes_at, push_u32_le, u32_at, u32_le_bytes, write_all, ByteReader};
use vstd::prelude::*;

verus! {

/// A field of bytes that the format does not interpret.
#[derive(Debug, PartialEq, Eq, Hash)]
pub struct Void {
    pub data: Vec<u8>,
}

/// The bytes that a count at `pos` announces and that follow it, and where they end.
pub open spec fn void_at(bytes: Seq<u8>, pos: int) -> Result<(Seq<u8>, int), Error> {
    match u32_at(bytes, pos) {
        None => Err(Error::ParseError(ParseFault::UnexpectedEof)),
        Some(size) => match bytes_at(bytes, pos + 4, size as int) {
            None => Err(Error::ParseError(ParseFault::UnexpectedEof)),
            Some(data) => Ok((data, pos + 4 + size)),
        },
    }
}

/// The count of `data` in four bytes, then `data`.
pub open spec fn void_bytes(data: Seq<u8>) -> Seq<u8> {
    u32_le_bytes(data.len() as u32) + data
}

/// What was written as opaque bytes is read back as the same bytes, whatever follows.
pub proof fn lemma_void_round_trip(before: Seq<u8>, data: Seq<u8>, after: Seq<u8>)
    requires
        data.len() <= u32::MAX,
    ensures
        void_at(before + void_bytes(data) + after, before.len() as int) == Ok::<
            (Seq<u8>, int),
            Error,
        >((data, before.len() as int + 4 + data.len())),
{
    let all = before + void_bytes(data) + after;
    let pos = before.len() as int;
    crate::files::lemma_u32_le_round_trip(data.len() as u32, data);
    assert(all.subrange(pos, pos + 4) =~= u32_le_bytes(data.len() as u32));
    assert(all.subrange(pos + 4, pos + 4 + data.len()) =~= data);
}

impl View for Void {
    type V = Seq<u8>;

    open spec fn view(&self) -> Seq<u8> {
        self.data@
    }
}

impl Clone for Void {
    fn clone(&self) -> (r: Self)
        ensures
            r@ == self@,
    {
        Void { data: vstd::slice::slice_to_vec(self.data.as_slice()) }
    }
}

impl Void {
    /// Reads a count and as many bytes.
    pub fn read(data: &mut ByteReader) -> (r: Result<Self, Error>)
        ensures
            final(data).data@ == old(data).data@,
            match r {
                Ok(v) => void_at(old(data).bytes(), old(data).pos as int) == Ok::<
                    (Seq<u8>, int),
                    Error,
                >((v@, final(data).pos as int)),
                Err(e) => void_at(old(data).bytes(), old(data).pos as int) == Err::<
                    (Seq<u8>, int),
                    Error,
                >(e),
            },
    {
        let size = data.read_u32_le()?;
        let buf = data.read_exact(size as usize)?;
        Ok(Self { data: vstd::slice::slice_to_vec(buf) })
    }

    /// Appends the count of the bytes and the bytes, or fails with
    /// `WriteError(TooLarge)` and appends nothing, if the count does not fit
    /// in 32 bits.
    pub fn write(&self, writer: &mut Vec<u8>) -> (r: Result<(), Error>)
        ensures
            match r {
                Ok(_) => self@.len() <= u32::MAX && final(writer)@ == old(writer)@ + void_bytes(
                    self@,
                ),
                Err(e) => self@.len() > u32::MAX && final(writer)@ == old(writer)@ && e
                    == Error::WriteError(WriteFault::TooLarge),
            },
    {
        if self.data.len() > u32::MAX as usize {
            return Err(Error::WriteError(WriteFault::TooLarge));
        }
        let ghost before = writer@;
        push_u32_le(writer, self.data.len() as u32);
        let _ = write_all(writer, self.data.as_slice());
        assert(writer@ =~= before + void_bytes(self@));
        Ok(())
    }
}

} // verus!
