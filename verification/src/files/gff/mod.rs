//! The Generic File Format.

pub mod bin;
pub mod exo_string;
pub mod field;
pub mod frame;
pub mod label;
pub mod laws;
pub mod layout;
pub mod reread;
pub mod resolve;
pub mod store;
pub mod structs;
pub mod traverse;
pub mod void;

use crate::error::{Error, ParseFault};
use crate::files::{bytes_at, push_u32_le, u32_at, u32_le_bytes, write_all, ByteReader, Offset};
use crate::files::gff::bin::{gff_at, gff_bytes, resolved_struct, GffView};
use crate::files::gff::store::flat_form;
use crate::files::gff::structs::{Struct, StructView};
use crate::files::text::{decode_utf8_lossy, is_valid_utf8, utf8_lossy_decoded};
use crate::files::tlk::{tlk_view, Tlk, TlkView};
use vstd::prelude::*;

verus! {

/// The number of bytes that the header of a file takes.
pub const HEADER_SIZE: u32 = 56;

/// A text of exactly `N` bytes of UTF-8.
#[derive(PartialEq, Eq, Clone, Copy, Debug)]
pub struct FixedSizeString<const N: usize>(pub(crate) [u8; N]);

impl<const N: usize> View for FixedSizeString<N> {
    type V = Seq<u8>;

    closed spec fn view(&self) -> Seq<u8> {
        self.0@
    }
}

impl<const N: usize> FixedSizeString<N> {
    /// The text that holds the bytes `x`, or `ParseError(InvalidUtf8)` if
    /// they are not valid UTF-8.
    pub fn new(x: [u8; N]) -> (r: Result<Self, Error>)
        ensures
            match r {
                Ok(s) => vstd::utf8::valid_utf8(x@) && s@ == x@,
                Err(e) => !vstd::utf8::valid_utf8(x@) && e == Error::ParseError(
                    ParseFault::InvalidUtf8,
                ),
            },
    {
        if is_valid_utf8(x.as_slice()) {
            Ok(Self(x))
        } else {
            Err(Error::ParseError(ParseFault::InvalidUtf8))
        }
    }

    /// The number of bytes of every such text.
    pub fn len() -> (r: usize)
        ensures
            r == N,
    {
        N
    }

    /// The text.
    pub fn to_str(&self) -> (r: String)
        ensures
            r@ == utf8_lossy_decoded(self@),
            vstd::utf8::valid_utf8(self@) ==> r@ == vstd::utf8::decode_utf8(self@),
    {
        decode_utf8_lossy(self.0.as_slice())
    }

    /// The bytes of the text.
    pub fn as_bytes(&self) -> (r: &[u8])
        ensures
            r@ == self@,
            r@.len() == N,
    {
        self.0.as_slice()
    }

    /// The text of `N` zero bytes.
    pub fn zeroed() -> (r: Self)
        ensures
            r@ == Seq::new(N as nat, |i: int| 0u8),
    {
        let r = Self([0u8; N]);
        assert(r@ =~= Seq::new(N as nat, |i: int| 0u8));
        r
    }

    /// The length of the view.
    pub proof fn lemma_len(&self)
        ensures
            self@.len() == N,
    {
    }
}

/// The header of a file: what it is, and where its six sections lie.
#[derive(Debug, PartialEq, Eq, Clone, Copy)]
pub struct Header {
    /// The four characters that name the kind of file.
    pub file_type: FixedSizeString<4>,
    /// The four characters that name the version of the format.
    pub file_version: FixedSizeString<4>,
    /// Where the structs start, in bytes from the start of the file.
    pub struct_offset: Offset,
    /// The number of structs.
    pub struct_count: u32,
    /// Where the fields start, in bytes from the start of the file.
    pub field_offset: Offset,
    /// The number of fields.
    pub field_count: u32,
    /// Where the labels start, in bytes from the start of the file.
    pub label_offset: Offset,
    /// The number of labels.
    pub label_count: u32,
    /// Where the field data start, in bytes from the start of the file.
    pub field_data_offset: Offset,
    /// The number of bytes of field data.
    pub field_data_count: u32,
    /// Where the field indices start, in bytes from the start of the file.
    pub field_indices_offset: Offset,
    /// The number of bytes of field indices.
    pub field_indices_count: u32,
    /// Where the list indices start, in bytes from the start of the file.
    pub list_indices_offset: Offset,
    /// The number of bytes of list indices.
    pub list_indices_count: u32,
}

/// The header that starts at `pos`: two tags of four bytes, which must be
/// valid UTF-8, and twelve numbers.
pub open spec fn header_at(bytes: Seq<u8>, pos: int) -> Result<Header, Error> {
    match bytes_at(bytes, pos, 4) {
        None => Err(Error::ParseError(ParseFault::UnexpectedEof)),
        Some(file_type) => if !vstd::utf8::valid_utf8(file_type) {
            Err(Error::ParseError(ParseFault::InvalidUtf8))
        } else {
            match bytes_at(bytes, pos + 4, 4) {
                None => Err(Error::ParseError(ParseFault::UnexpectedEof)),
                Some(file_version) => if !vstd::utf8::valid_utf8(file_version) {
                    Err(Error::ParseError(ParseFault::InvalidUtf8))
                } else if pos + HEADER_SIZE > bytes.len() {
                    Err(Error::ParseError(ParseFault::UnexpectedEof))
                } else {
                    Ok(
                        Header {
                            file_type: tag_of(file_type),
                            file_version: tag_of(file_version),
                            struct_offset: Offset(u32_at(bytes, pos + 8)->Some_0),
                            struct_count: u32_at(bytes, pos + 12)->Some_0,
                            field_offset: Offset(u32_at(bytes, pos + 16)->Some_0),
                            field_count: u32_at(bytes, pos + 20)->Some_0,
                            label_offset: Offset(u32_at(bytes, pos + 24)->Some_0),
                            label_count: u32_at(bytes, pos + 28)->Some_0,
                            field_data_offset: Offset(u32_at(bytes, pos + 32)->Some_0),
                            field_data_count: u32_at(bytes, pos + 36)->Some_0,
                            field_indices_offset: Offset(u32_at(bytes, pos + 40)->Some_0),
                            field_indices_count: u32_at(bytes, pos + 44)->Some_0,
                            list_indices_offset: Offset(u32_at(bytes, pos + 48)->Some_0),
                            list_indices_count: u32_at(bytes, pos + 52)->Some_0,
                        },
                    )
                },
            }
        },
    }
}

/// The tag that holds the four bytes `s`.
pub closed spec fn tag_of(s: Seq<u8>) -> FixedSizeString<4> {
    FixedSizeString([s[0], s[1], s[2], s[3]])
}

/// The tag of four bytes holds those bytes, and a tag is the tag of its bytes.
pub proof fn lemma_tag_of(s: Seq<u8>, t: FixedSizeString<4>)
    ensures
        s.len() == 4 ==> tag_of(s)@ == s,
        tag_of(t@) == t,
{
    if s.len() == 4 {
        assert(tag_of(s)@ =~= s);
    }
    assert(tag_of(t@).0 =~= t.0);
}

/// The 56 bytes of a header.
pub open spec fn header_bytes(h: Header) -> Seq<u8> {
    h.file_type@ + h.file_version@ + u32_le_bytes(h.struct_offset.0) + u32_le_bytes(h.struct_count)
        + u32_le_bytes(h.field_offset.0) + u32_le_bytes(h.field_count) + u32_le_bytes(
        h.label_offset.0,
    ) + u32_le_bytes(h.label_count) + u32_le_bytes(h.field_data_offset.0) + u32_le_bytes(
        h.field_data_count,
    ) + u32_le_bytes(h.field_indices_offset.0) + u32_le_bytes(h.field_indices_count)
        + u32_le_bytes(h.list_indices_offset.0) + u32_le_bytes(h.list_indices_count)
}

impl<const N: usize> Default for FixedSizeString<N> {
    fn default() -> (r: Self)
        ensures
            r@ == Seq::new(N as nat, |i: int| 0u8),
    {
        Self::zeroed()
    }
}

impl Default for Header {
    fn default() -> (r: Self)
        ensures
            r == Header::spec_empty(),
    {
        Header::empty()
    }
}

impl Header {
    /// The header with zeros for tags, counts and offsets.
    pub closed spec fn spec_empty() -> Header {
        Header {
            file_type: FixedSizeString([0u8, 0u8, 0u8, 0u8]),
            file_version: FixedSizeString([0u8, 0u8, 0u8, 0u8]),
            struct_offset: Offset(0),
            struct_count: 0,
            field_offset: Offset(0),
            field_count: 0,
            label_offset: Offset(0),
            label_count: 0,
            field_data_offset: Offset(0),
            field_data_count: 0,
            field_indices_offset: Offset(0),
            field_indices_count: 0,
            list_indices_offset: Offset(0),
            list_indices_count: 0,
        }
    }

    /// The header with zeros for tags, counts and offsets.
    #[verifier::when_used_as_spec(spec_empty)]
    pub fn empty() -> (r: Self)
        ensures
            r == Header::spec_empty(),
    {
        Header {
            file_type: FixedSizeString([0u8, 0u8, 0u8, 0u8]),
            file_version: FixedSizeString([0u8, 0u8, 0u8, 0u8]),
            struct_offset: Offset(0),
            struct_count: 0,
            field_offset: Offset(0),
            field_count: 0,
            label_offset: Offset(0),
            label_count: 0,
            field_data_offset: Offset(0),
            field_data_count: 0,
            field_indices_offset: Offset(0),
            field_indices_count: 0,
            list_indices_offset: Offset(0),
            list_indices_count: 0,
        }
    }

    /// Reads a header.
    pub fn read(data: &mut ByteReader) -> (r: Result<Self, Error>)
        ensures
            final(data).data@ == old(data).data@,
            r == header_at(old(data).bytes(), old(data).pos as int),
            r is Ok ==> final(data).pos == old(data).pos + HEADER_SIZE,
    {
        let file_type = Self::read_string(data)?;
        let file_version = Self::read_string(data)?;
        let ghost bytes = data.bytes();
        let ghost pos = old(data).pos as int;
        if data.data.len() < HEADER_SIZE as usize || data.pos - 8 > data.data.len()
            - HEADER_SIZE as usize {
            return Err(Error::ParseError(ParseFault::UnexpectedEof));
        }
        let struct_offset = data.read_u32_le()?;
        let struct_count = data.read_u32_le()?;
        let field_offset = data.read_u32_le()?;
        let field_count = data.read_u32_le()?;
        let label_offset = data.read_u32_le()?;
        let label_count = data.read_u32_le()?;
        let field_data_offset = data.read_u32_le()?;
        let field_data_count = data.read_u32_le()?;
        let field_indices_offset = data.read_u32_le()?;
        let field_indices_count = data.read_u32_le()?;
        let list_indices_offset = data.read_u32_le()?;
        let list_indices_count = data.read_u32_le()?;
        Ok(
            Header {
                file_type,
                file_version,
                struct_offset: Offset(struct_offset),
                struct_count,
                field_offset: Offset(field_offset),
                field_count,
                label_offset: Offset(label_offset),
                label_count,
                field_data_offset: Offset(field_data_offset),
                field_data_count,
                field_indices_offset: Offset(field_indices_offset),
                field_indices_count,
                list_indices_offset: Offset(list_indices_offset),
                list_indices_count,
            },
        )
    }

    /// Reads a tag of four bytes, which must be valid UTF-8.
    fn read_string(data: &mut ByteReader) -> (r: Result<FixedSizeString<4>, Error>)
        ensures
            final(data).data@ == old(data).data@,
            match r {
                Ok(s) => bytes_at(old(data).bytes(), old(data).pos as int, 4) matches Some(b)
                    && vstd::utf8::valid_utf8(b) && s == tag_of(b) && final(data).pos == old(
                    data,
                ).pos + 4,
                Err(e) => match bytes_at(old(data).bytes(), old(data).pos as int, 4) {
                    None => e == Error::ParseError(ParseFault::UnexpectedEof),
                    Some(b) => !vstd::utf8::valid_utf8(b) && e == Error::ParseError(
                        ParseFault::InvalidUtf8,
                    ),
                },
            },
    {
        let buf = data.read_exact(4)?;
        let tag = [buf[0], buf[1], buf[2], buf[3]];
        assert(tag@ =~= buf@);
        let s = FixedSizeString::new(tag)?;
        assert(s.0 =~= tag_of(buf@).0);
        Ok(s)
    }

    /// Appends the 56 bytes of the header. Writing to memory cannot fail.
    pub fn write(&self, writer: &mut Vec<u8>) -> (r: Result<(), Error>)
        ensures
            r is Ok,
            final(writer)@ == old(writer)@ + header_bytes(*self),
    {
        let ghost before = writer@;
        let _ = write_all(writer, self.file_type.as_bytes());
        let _ = write_all(writer, self.file_version.as_bytes());
        push_u32_le(writer, self.struct_offset.0);
        push_u32_le(writer, self.struct_count);
        push_u32_le(writer, self.field_offset.0);
        push_u32_le(writer, self.field_count);
        push_u32_le(writer, self.label_offset.0);
        push_u32_le(writer, self.label_count);
        push_u32_le(writer, self.field_data_offset.0);
        push_u32_le(writer, self.field_data_count);
        push_u32_le(writer, self.field_indices_offset.0);
        push_u32_le(writer, self.field_indices_count);
        push_u32_le(writer, self.list_indices_offset.0);
        push_u32_le(writer, self.list_indices_count);
        assert(writer@ =~= before + header_bytes(*self));
        Ok(())
    }
}

/// A file as a tree: its two tags and its top-level struct.
#[derive(Debug, PartialEq)]
pub struct Gff {
    pub file_type: FixedSizeString<4>,
    pub file_version: FixedSizeString<4>,
    pub root: Struct,
}

/// What a file as a tree is, as plain values.
pub struct TreeView {
    pub file_type: FixedSizeString<4>,
    pub file_version: FixedSizeString<4>,
    pub root: StructView,
}

impl View for Gff {
    type V = TreeView;

    open spec fn view(&self) -> TreeView {
        TreeView { file_type: self.file_type, file_version: self.file_version, root: self.root@ }
    }
}

/// The tree of the file `g`: its first struct with everything below it,
/// strings looked up in `tlk`. Structs may be nested as deep as the file
/// has structs.
pub open spec fn tree_of(g: GffView, tlk: Option<TlkView>) -> Result<TreeView, Error> {
    if g.structs.len() == 0 {
        Err(Error::ParseError(ParseFault::MissingRoot))
    } else {
        match resolved_struct(g, tlk, g.structs[0], g.structs.len()) {
            Err(e) => Err(e),
            Ok(root) => Ok(
                TreeView {
                    file_type: g.header.file_type,
                    file_version: g.header.file_version,
                    root,
                },
            ),
        }
    }
}

/// The tree of the file whose header starts at `pos` in `bytes`.
pub open spec fn tree_at(bytes: Seq<u8>, pos: int, tlk: Option<TlkView>) -> Result<
    TreeView,
    Error,
> {
    match gff_at(bytes, pos) {
        Err(e) => Err(e),
        Ok(g) => tree_of(g, tlk),
    }
}

/// The bytes of the file that holds the tree `t`.
pub open spec fn tree_bytes(t: TreeView) -> Result<Seq<u8>, Error> {
    match flat_form(t.file_type, t.file_version, t.root) {
        Err(e) => Err(e),
        Ok(g) => Ok(gff_bytes(g)),
    }
}

impl Clone for Gff {
    fn clone(&self) -> (r: Self)
        ensures
            r@ == self@,
    {
        Gff { file_type: self.file_type, file_version: self.file_version, root: self.root.clone() }
    }
}

impl Gff {
    /// The tree of the file `gff`, strings looked up in `tlk` if there is one.
    ///
    /// `ParseError(MissingRoot)` if the file has no struct; else the first
    /// error met on the way through the tree, fields in their order:
    /// `AlignmentError` for a misaligned offset of a struct with several
    /// fields, `ParseError` for an index or offset outside its section and
    /// for a struct that contains itself, `EnumError` for an unknown
    /// language, `InvalidStrRef` for a string reference that `tlk` does not hold.
    pub fn from_binary(gff: &bin::Gff, tlk: Option<&Tlk>) -> (r: Result<Self, Error>)
        ensures
            match r {
                Ok(t) => tree_of(gff@, tlk_view(tlk)) == Ok::<TreeView, Error>(t@),
                Err(e) => tree_of(gff@, tlk_view(tlk)) == Err::<TreeView, Error>(e),
            },
    {
        if gff.structs.len() == 0 {
            return Err(Error::ParseError(ParseFault::MissingRoot));
        }
        let root = resolve::resolve_struct(&gff.structs[0], gff, tlk, gff.structs.len())?;
        Ok(Self { file_type: gff.header.file_type, file_version: gff.header.file_version, root })
    }

    /// The flat form of the tree.
    pub fn to_binary(&self) -> (r: Result<bin::Gff, Error>)
        ensures
            match r {
                Ok(g) => flat_form(self.file_type, self.file_version, self.root@) == Ok::<
                    GffView,
                    Error,
                >(g@),
                Err(e) => flat_form(self.file_type, self.file_version, self.root@) == Err::<
                    GffView,
                    Error,
                >(e),
            },
    {
        bin::Gff::from_data(self)
    }

    /// Reads the file whose header starts at the position of `data`, as a
    /// tree, strings looked up in `tlk` if there is one.
    pub fn read(data: &mut ByteReader, tlk: Option<&Tlk>) -> (r: Result<Self, Error>)
        ensures
            final(data).data@ == old(data).data@,
            match r {
                Ok(t) => tree_at(old(data).bytes(), old(data).pos as int, tlk_view(tlk)) == Ok::<
                    TreeView,
                    Error,
                >(t@),
                Err(e) => tree_at(old(data).bytes(), old(data).pos as int, tlk_view(tlk)) == Err::<
                    TreeView,
                    Error,
                >(e),
            },
    {
        let bin = bin::Gff::read(data)?;
        Self::from_binary(&bin, tlk)
    }

    /// Reads the file whose header starts at the position of `data`, as a
    /// tree, without looking any string up.
    pub fn read_without_tlk(data: &mut ByteReader) -> (r: Result<Self, Error>)
        ensures
            final(data).data@ == old(data).data@,
            match r {
                Ok(t) => tree_at(old(data).bytes(), old(data).pos as int, None) == Ok::<
                    TreeView,
                    Error,
                >(t@),
                Err(e) => tree_at(old(data).bytes(), old(data).pos as int, None) == Err::<
                    TreeView,
                    Error,
                >(e),
            },
    {
        Self::read(data, None)
    }

    /// Appends the bytes of the file that holds the tree, or fails with
    /// `WriteError(TooLarge)` and appends nothing, if a count, an index or an
    /// offset does not fit in 32 bits.
    pub fn write(&self, writer: &mut Vec<u8>) -> (r: Result<(), Error>)
        ensures
            match r {
                Ok(_) => tree_bytes(self@) matches Ok(b) && final(writer)@ == old(writer)@ + b,
                Err(e) => tree_bytes(self@) == Err::<Seq<u8>, Error>(e) && final(writer)@ == old(
                    writer,
                )@,
            },
    {
        let bin = self.to_binary()?;
        bin.write(writer)
    }
}

} // verus!
