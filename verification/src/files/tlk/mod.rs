//! The talk table: the texts that string references stand for.

pub mod reader;

use crate::error::{Error, ParseFault};
use crate::files::{u32_at, ByteReader, Language, Offset};
use crate::files::tlk::reader::{entries_at, entry_bytes, StringInfo, TlkReader, TlkReaderView};
use vstd::prelude::*;

verus! {

/// The number of bytes that the header of a talk table takes.
pub const HEADER_SIZE: usize = 20;

/// The string reference that stands for "no text".
pub const NO_STR_REF: u32 = 0xffff_ffff;

/// The header of a talk table.
#[derive(Debug, PartialEq, Eq, Clone, Copy)]
pub struct Header {
    /// The four bytes that name the file type.
    pub file_type: [u8; 4],
    /// The four bytes that name the version of the format.
    pub file_version: [u8; 4],
    pub language: Language,
    pub string_count: u32,
    pub string_entry_offset: u32,
}

/// The header that the twenty bytes of `bytes` from `pos` on hold.
pub open spec fn header_at(bytes: Seq<u8>, pos: int) -> Result<Header, Error> {
    match (crate::files::bytes_at(bytes, pos, 4), crate::files::bytes_at(bytes, pos + 4, 4)) {
        (Some(file_type), Some(file_version)) => match u32_at(bytes, pos + 8) {
            None => Err(Error::ParseError(ParseFault::UnexpectedEof)),
            Some(lang) => match Language::spec_from_num((lang % 0x100) as u8) {
                None => Err(
                    Error::EnumError {
                        enum_type: crate::error::EnumType::Language,
                        value: (lang % 0x100) as u32,
                    },
                ),
                Some(language) => match (u32_at(bytes, pos + 12), u32_at(bytes, pos + 16)) {
                    (Some(string_count), Some(string_entry_offset)) => Ok(
                        Header {
                            file_type: array_of4(file_type),
                            file_version: array_of4(file_version),
                            language,
                            string_count,
                            string_entry_offset,
                        },
                    ),
                    _ => Err(Error::ParseError(ParseFault::UnexpectedEof)),
                },
            },
        },
        _ => Err(Error::ParseError(ParseFault::UnexpectedEof)),
    }
}

/// The array that holds the four bytes `s`.
pub open spec fn array_of4(s: Seq<u8>) -> [u8; 4] {
    [s[0], s[1], s[2], s[3]]
}

impl Header {
    /// Reads the header of a talk table.
    pub fn read(data: &mut ByteReader) -> (r: Result<Self, Error>)
        ensures
            final(data).data@ == old(data).data@,
            r == header_at(old(data).bytes(), old(data).pos as int),
            r is Ok ==> final(data).pos == old(data).pos + HEADER_SIZE,
    {
        let file_type = data.read_exact(4)?;
        let file_version = data.read_exact(4)?;
        let lang = data.read_u32_le()?;
        let language = match Language::try_from((lang % 0x100) as u8) {
            Ok(l) => l,
            Err(e) => {
                return Err(Error::from_enum_error(e));
            },
        };
        let string_count = data.read_u32_le()?;
        let string_entry_offset = data.read_u32_le()?;
        let file_type = [file_type[0], file_type[1], file_type[2], file_type[3]];
        let file_version = [file_version[0], file_version[1], file_version[2], file_version[3]];
        Ok(Header { file_type, file_version, language, string_count, string_entry_offset })
    }
}

/// A text without characters.
pub fn get_empty_string() -> (r: String)
    ensures
        r@ == Seq::<char>::empty(),
{
    String::new()
}

/// What a talk table is, as plain values.
pub struct TlkView {
    pub header: Header,
    pub reader: TlkReaderView,
}

/// The bytes that the string reference `str_ref` stands for: none for the
/// reference that stands for "no text", else those of the entry.
pub open spec fn resolved_bytes(tlk: TlkView, str_ref: u32) -> Result<Seq<u8>, Error> {
    if str_ref == NO_STR_REF {
        Ok(Seq::empty())
    } else {
        entry_bytes(tlk.reader, str_ref)
    }
}

/// The talk table that `bytes` hold.
pub open spec fn tlk_at(bytes: Seq<u8>) -> Result<TlkView, Error> {
    match header_at(bytes, 0) {
        Err(e) => Err(e),
        Ok(header) => match entries_at(bytes, HEADER_SIZE as int, header.string_count as nat) {
            Err(e) => Err(e),
            Ok(string_info) => Ok(
                TlkView {
                    header,
                    reader: TlkReaderView {
                        string_info,
                        string_entry_offset: Offset(header.string_entry_offset),
                        data: bytes,
                    },
                },
            ),
        },
    }
}

/// A talk table.
#[derive(Debug)]
pub struct Tlk {
    pub header: Header,
    pub reader: TlkReader,
}

impl View for Tlk {
    type V = TlkView;

    open spec fn view(&self) -> TlkView {
        TlkView { header: self.header, reader: self.reader@ }
    }
}

impl Default for Header {
    fn default() -> (r: Self)
        ensures
            r.language == Language::English,
            r.string_count == 0,
            r.string_entry_offset == 0,
    {
        Header {
            file_type: [0u8, 0u8, 0u8, 0u8],
            file_version: [0u8, 0u8, 0u8, 0u8],
            language: Language::English,
            string_count: 0,
            string_entry_offset: 0,
        }
    }
}

impl Default for Tlk {
    fn default() -> (r: Self)
        ensures
            r@.reader.string_info.len() == 0,
            r@.reader.data.len() == 0,
    {
        Tlk { header: Header::default(), reader: TlkReader::default() }
    }
}

impl Tlk {
    /// Reads the header and the table of entries of the talk table `data`,
    /// and keeps `data` to read the entries from.
    pub fn read(data: Vec<u8>) -> (r: Result<Self, Error>)
        ensures
            match r {
                Ok(t) => tlk_at(data@) == Ok::<TlkView, Error>(t@),
                Err(e) => tlk_at(data@) == Err::<TlkView, Error>(e),
            },
    {
        let mut cursor = ByteReader::new(data.as_slice());
        let header = Header::read(&mut cursor)?;
        let mut string_info: Vec<StringInfo> = Vec::new();
        let mut i: u32 = 0;
        while i < header.string_count
            invariant
                0 <= i <= header.string_count,
                cursor.data@ == data@,
                cursor.pos == HEADER_SIZE + 40 * i,
                header_at(data@, 0) == Ok::<Header, Error>(header),
                entries_at(data@, HEADER_SIZE as int, i as nat) == Ok::<Seq<StringInfo>, Error>(
                    string_info@,
                ),
            decreases header.string_count - i,
        {
            match StringInfo::read(&mut cursor) {
                Ok(info) => {
                    string_info.push(info);
                },
                Err(e) => {
                    proof {
                        crate::files::tlk::reader::lemma_entries_fail(
                            data@,
                            HEADER_SIZE as int,
                            i as nat + 1,
                            header.string_count as nat,
                        );
                    }
                    return Err(e);
                },
            }
            i = i + 1;
        }
        let reader = TlkReader::new(string_info, Offset(header.string_entry_offset), data);
        Ok(Self { header, reader })
    }

    /// The bytes that `str_ref` stands for: none for the reference that
    /// stands for "no text"; else those of the entry, `InvalidStrRef` if the
    /// table has no such entry, `ParseError` if the table ends before the entry does.
    pub fn get_bytes_from_str_ref(&self, str_ref: u32) -> (r: Result<Vec<u8>, Error>)
        ensures
            match r {
                Ok(b) => resolved_bytes(self@, str_ref) == Ok::<Seq<u8>, Error>(b@),
                Err(e) => resolved_bytes(self@, str_ref) == Err::<Seq<u8>, Error>(e),
            },
    {
        if str_ref == NO_STR_REF {
            Ok(Vec::new())
        } else {
            self.reader.read_index(str_ref)
        }
    }

    /// The text that `str_ref` stands for: the bytes of
    /// [`Tlk::get_bytes_from_str_ref`], read as UTF-8 with every malformed
    /// sequence replaced.
    pub fn get_from_str_ref(&self, str_ref: u32) -> (r: Result<String, Error>)
        ensures
            match r {
                Ok(s) => resolved_bytes(self@, str_ref) matches Ok(b) && s@
                    == crate::files::text::utf8_lossy_decoded(b),
                Err(e) => resolved_bytes(self@, str_ref) == Err::<Seq<u8>, Error>(e),
            },
    {
        let bytes = self.get_bytes_from_str_ref(str_ref)?;
        Ok(crate::files::text::decode_utf8_lossy(bytes.as_slice()))
    }
}

/// The text that a resolver, if there is one, gives for `str_ref`: none
/// without a resolver and none for the reference that stands for "no text".
pub open spec fn resolved_text(tlk: Option<TlkView>, str_ref: u32) -> Result<
    Option<Seq<char>>,
    Error,
> {
    match tlk {
        None => Ok(None),
        Some(t) => if str_ref == NO_STR_REF {
            Ok(None)
        } else {
            match entry_bytes(t.reader, str_ref) {
                Ok(b) => Ok(Some(crate::files::text::utf8_lossy_decoded(b))),
                Err(e) => Err(e),
            }
        },
    }
}

/// The view of the resolver that `tlk` may hold.
pub open spec fn tlk_view(tlk: Option<&Tlk>) -> Option<TlkView> {
    match tlk {
        Some(t) => Some(t@),
        None => None,
    }
}

/// Looks `str_ref` up in `tlk`, unless there is no resolver or the reference
/// stands for "no text": then the resolver is not consulted.
pub fn resolve_text(tlk: Option<&Tlk>, str_ref: u32) -> (r: Result<Option<String>, Error>)
    ensures
        match r {
            Ok(Some(s)) => resolved_text(tlk_view(tlk), str_ref) == Ok::<Option<Seq<char>>, Error>(
                Some(s@),
            ),
            Ok(None) => resolved_text(tlk_view(tlk), str_ref) == Ok::<Option<Seq<char>>, Error>(
                None,
            ),
            Err(e) => resolved_text(tlk_view(tlk), str_ref) == Err::<Option<Seq<char>>, Error>(e),
        },
        str_ref == NO_STR_REF ==> r == Ok::<Option<String>, Error>(None),
{
    match tlk {
        None => Ok(None),
        Some(t) => {
            if str_ref == NO_STR_REF {
                Ok(None)
            } else {
                let s = t.get_from_str_ref(str_ref)?;
                Ok(Some(s))
            }
        },
    }
}

} // verus!
