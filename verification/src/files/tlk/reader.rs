//! The table of entries of a talk table, and the reading of one entry.

use crate::error::{Error, ParseFault};
use crate::files::{bytes_at, u32_at, ByteReader, Offset};
use vstd::prelude::*;

verus! {

/// The number of bytes that the description of one entry takes.
pub const STRING_INFO_SIZE: usize = 40;

/// Where the text of an entry lies, from the start of the entries, and how long it is.
#[derive(Debug, PartialEq, Eq, Clone, Copy)]
pub struct StringInfo {
    pub offset: Offset,
    pub size: u32,
}

/// The description of an entry that starts at `pos` in `bytes`.
pub open spec fn string_info_at(bytes: Seq<u8>, pos: int) -> Result<StringInfo, Error> {
    match (u32_at(bytes, pos + 28), u32_at(bytes, pos + 32)) {
        (Some(offset), Some(size)) => if pos + STRING_INFO_SIZE <= usize::MAX {
            Ok(StringInfo { offset: Offset(offset), size })
        } else {
            Err(Error::ParseError(ParseFault::UnexpectedEof))
        },
        _ => Err(Error::ParseError(ParseFault::UnexpectedEof)),
    }
}

/// The descriptions of the first `n` entries of the table that starts at `pos`.
pub open spec fn entries_at(bytes: Seq<u8>, pos: int, n: nat) -> Result<Seq<StringInfo>, Error>
    decreases n,
{
    if n == 0 {
        Ok(Seq::empty())
    } else {
        match entries_at(bytes, pos, (n - 1) as nat) {
            Err(e) => Err(e),
            Ok(s) => match string_info_at(bytes, pos + STRING_INFO_SIZE * (n - 1)) {
                Err(e) => Err(e),
                Ok(info) => Ok(s.push(info)),
            },
        }
    }
}

/// A table whose first `n` entries cannot be read has no longer readable beginning.
pub proof fn lemma_entries_fail(bytes: Seq<u8>, pos: int, n: nat, m: nat)
    requires
        n <= m,
        entries_at(bytes, pos, n) is Err,
    ensures
        entries_at(bytes, pos, m) == entries_at(bytes, pos, n),
    decreases m,
{
    if n < m {
        lemma_entries_fail(bytes, pos, n, (m - 1) as nat);
    }
}

impl StringInfo {
    /// Reads the description of one entry.
    pub fn read(data: &mut ByteReader) -> (r: Result<Self, Error>)
        ensures
            final(data).data@ == old(data).data@,
            r == string_info_at(old(data).bytes(), old(data).pos as int),
            r is Ok ==> final(data).pos == old(data).pos + STRING_INFO_SIZE,
    {
        data.skip(28)?;
        let offset = data.read_u32_le()?;
        let size = data.read_u32_le()?;
        data.skip(4)?;
        Ok(Self { offset: Offset(offset), size })
    }
}

/// The bytes from which the entries of a talk table are read.
#[derive(Debug)]
pub struct TlkReaderInner {
    pub data: Vec<u8>,
}

/// The table of entries of a talk table, with the bytes to read them from.
#[derive(Debug)]
pub struct TlkReader {
    pub string_info: Vec<StringInfo>,
    pub string_entry_offset: Offset,
    pub inner: TlkReaderInner,
}

/// What the table of entries is, as plain values.
pub struct TlkReaderView {
    pub string_info: Seq<StringInfo>,
    pub string_entry_offset: Offset,
    pub data: Seq<u8>,
}

impl View for TlkReader {
    type V = TlkReaderView;

    open spec fn view(&self) -> TlkReaderView {
        TlkReaderView {
            string_info: self.string_info@,
            string_entry_offset: self.string_entry_offset,
            data: self.inner.data@,
        }
    }
}

/// The bytes of the entry with index `index`.
pub open spec fn entry_bytes(tlk: TlkReaderView, index: u32) -> Result<Seq<u8>, Error> {
    if index >= tlk.string_info.len() {
        Err(Error::InvalidStrRef { value: index })
    } else {
        let info = tlk.string_info[index as int];
        if info.size == 0 {
            Ok(Seq::empty())
        } else {
            match bytes_at(
                tlk.data,
                info.offset.0 as int + tlk.string_entry_offset.0 as int,
                info.size as int,
            ) {
                Some(b) => Ok(b),
                None => Err(Error::ParseError(ParseFault::UnexpectedEof)),
            }
        }
    }
}

impl Default for TlkReaderInner {
    fn default() -> (r: Self)
        ensures
            r.data@.len() == 0,
    {
        TlkReaderInner { data: Vec::new() }
    }
}

impl Default for TlkReader {
    fn default() -> (r: Self)
        ensures
            r@.string_info.len() == 0,
            r@.string_entry_offset == Offset(0),
            r@.data.len() == 0,
    {
        TlkReader {
            string_info: Vec::new(),
            string_entry_offset: Offset(0),
            inner: TlkReaderInner::default(),
        }
    }
}

impl TlkReader {
    /// The table with the entries that `string_info` describes, whose texts
    /// start at `string_entry_offset` in `data`.
    pub fn new(string_info: Vec<StringInfo>, string_entry_offset: Offset, data: Vec<u8>) -> (r:
        Self)
        ensures
            r.string_info == string_info,
            r.string_entry_offset == string_entry_offset,
            r.inner.data == data,
    {
        TlkReader { string_info, string_entry_offset, inner: TlkReaderInner { data } }
    }

    /// The bytes of the entry with index `index`: `InvalidStrRef` if the
    /// table has no such entry, `ParseError` if the bytes end before the entry does.
    pub fn read_index(&self, index: u32) -> (r: Result<Vec<u8>, Error>)
        ensures
            match r {
                Ok(b) => entry_bytes(self@, index) == Ok::<Seq<u8>, Error>(b@),
                Err(e) => entry_bytes(self@, index) == Err::<Seq<u8>, Error>(e),
            },
    {
        let len = self.inner.data.len();
        if index as usize >= self.string_info.len() {
            return Err(Error::InvalidStrRef { value: index });
        }
        let info = self.string_info[index as usize];
        if info.size == 0 {
            return Ok(Vec::new());
        }
        let mut cursor = ByteReader::new(self.inner.data.as_slice());
        match info.offset.seek_with_offset(&mut cursor, self.string_entry_offset) {
            Some(_) => {},
            None => {
                return Err(Error::ParseError(ParseFault::UnexpectedEof));
            },
        }
        let bytes = cursor.read_exact(info.size as usize)?;
        Ok(vstd::slice::slice_to_vec(bytes))
    }
}

} // verus!
