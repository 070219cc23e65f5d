//! Names of game resources.

use crate::error::{Error, ParseFault};
use crate::files::{bytes_at, write_all, ByteReader, MAX_TEXT_LEN};
use crate::files::text::{
    ascii_text, decode_windows_1252, encode_windows_1252, is_ascii_bytes, windows_1252_decoded,
    windows_1252_encoded,
};
use vstd::prelude::*;

verus! {

/// The most bytes that the name of a resource has.
pub const RES_REF_SIZE: usize = 16;

/// The name of a game resource: at most sixteen bytes of windows-1252 text.
#[derive(Debug, PartialEq, Eq, Hash)]
pub struct ResRef {
    bytes: Vec<u8>,
}

/// The smaller of a count and the most bytes that a name has.
pub open spec fn clamped(size: int) -> int {
    if size < RES_REF_SIZE {
        size
    } else {
        RES_REF_SIZE as int
    }
}

/// The name that a one-byte count at `pos` announces and that follows it, and
/// where it ends. A count above sixteen is taken for sixteen.
pub open spec fn res_ref_at(bytes: Seq<u8>, pos: int) -> Result<(Seq<u8>, int), Error> {
    match bytes_at(bytes, pos, 1) {
        None => Err(Error::ParseError(ParseFault::UnexpectedEof)),
        Some(size) => match bytes_at(bytes, pos + 1, clamped(size[0] as int)) {
            None => Err(Error::ParseError(ParseFault::UnexpectedEof)),
            Some(name) => Ok((name, pos + 1 + clamped(size[0] as int))),
        },
    }
}

/// The count of `name` in one byte, then `name`.
pub open spec fn res_ref_bytes(name: Seq<u8>) -> Seq<u8> {
    seq![name.len() as u8] + name
}

/// What was written as a name is read back as the same name, whatever follows.
pub proof fn lemma_res_ref_round_trip(before: Seq<u8>, name: Seq<u8>, after: Seq<u8>)
    requires
        name.len() <= RES_REF_SIZE,
    ensures
        res_ref_at(before + res_ref_bytes(name) + after, before.len() as int) == Ok::<
            (Seq<u8>, int),
            Error,
        >((name, before.len() as int + 1 + name.len())),
{
    let all = before + res_ref_bytes(name) + after;
    let pos = before.len() as int;
    assert(all.subrange(pos, pos + 1) =~= seq![name.len() as u8]);
    assert(all.subrange(pos + 1, pos + 1 + name.len()) =~= name);
}

impl View for ResRef {
    type V = Seq<u8>;

    closed spec fn view(&self) -> Seq<u8> {
        self.bytes@
    }
}

impl Clone for ResRef {
    fn clone(&self) -> (r: Self)
        ensures
            r@ == self@,
    {
        proof {
            use_type_invariant(self);
        }
        ResRef { bytes: vstd::slice::slice_to_vec(self.bytes.as_slice()) }
    }
}

impl ResRef {
    #[verifier::type_invariant]
    spec fn inv(self) -> bool {
        self.bytes@.len() <= RES_REF_SIZE
    }

    /// The name that holds the first sixteen bytes of `bytes`.
    pub fn from_bytes(bytes: &[u8]) -> (r: Self)
        ensures
            r@ == bytes@.take(clamped(bytes@.len() as int)),
    {
        let n = if bytes.len() < RES_REF_SIZE {
            bytes.len()
        } else {
            RES_REF_SIZE
        };
        ResRef { bytes: vstd::slice::slice_to_vec(vstd::slice::slice_subrange(bytes, 0, n)) }
    }

    /// The name whose text is `text`: the first sixteen bytes of its
    /// windows-1252 encoding. `None` if `text` is too long to encode.
    pub fn from_text(text: &str) -> (r: Option<Self>)
        ensures
            r is Some <==> vstd::utf8::encode_utf8(text@).len() <= MAX_TEXT_LEN,
            r matches Some(s) ==> s@ == windows_1252_encoded(text@).take(
                clamped(windows_1252_encoded(text@).len() as int),
            ),
    {
        if text.as_bytes().len() > MAX_TEXT_LEN {
            return None;
        }
        let encoded = encode_windows_1252(text);
        Some(Self::from_bytes(encoded.as_slice()))
    }

    /// The bytes of the name.
    pub fn as_bytes(&self) -> (r: &[u8])
        ensures
            r@ == self@,
            r@.len() <= RES_REF_SIZE,
    {
        proof {
            use_type_invariant(self);
        }
        self.bytes.as_slice()
    }

    /// The text that the bytes of the name stand for.
    pub open spec fn spec_text(&self) -> Seq<char> {
        windows_1252_decoded(self@)
    }

    /// The text of the name.
    pub fn text(&self) -> (r: String)
        ensures
            r@ == self.spec_text(),
            is_ascii_bytes(self@) ==> r@ == ascii_text(self@),
    {
        decode_windows_1252(self.as_bytes())
    }

    /// Reads a one-byte count and a name of as many bytes, at most sixteen.
    pub fn read(data: &mut ByteReader) -> (r: Result<Self, Error>)
        ensures
            final(data).data@ == old(data).data@,
            match r {
                Ok(v) => res_ref_at(old(data).bytes(), old(data).pos as int) == Ok::<
                    (Seq<u8>, int),
                    Error,
                >((v@, final(data).pos as int)),
                Err(e) => res_ref_at(old(data).bytes(), old(data).pos as int) == Err::<
                    (Seq<u8>, int),
                    Error,
                >(e),
            },
    {
        let size = data.read_u8()?;
        let n: usize = if (size as usize) < RES_REF_SIZE {
            size as usize
        } else {
            RES_REF_SIZE
        };
        let buf = data.read_exact(n)?;
        Ok(ResRef { bytes: vstd::slice::slice_to_vec(buf) })
    }

    /// Appends the count of the bytes and the bytes. Writing to memory cannot fail.
    pub fn write(&self, writer: &mut Vec<u8>) -> (r: Result<(), Error>)
        ensures
            r is Ok,
            final(writer)@ == old(writer)@ + res_ref_bytes(self@),
    {
        let bytes = self.as_bytes();
        let ghost before = writer@;
        writer.push(bytes.len() as u8);
        let _ = write_all(writer, bytes);
        assert(writer@ =~= before + res_ref_bytes(self@));
        Ok(())
    }
}

} // verus!
