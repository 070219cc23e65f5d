//! The flat, offset-addressed form that a file holds.

use crate::error::{EnumError, EnumType, Error, ParseFault};
use crate::files::{
    bytes_at, push_u32_le, u16_as_i16, u32_as_i32, u32_le, u32_le_bytes, u64_as_i64, u64_at,
    write_all, ByteReader,
};
use crate::files::gff::{header_at, header_bytes, Header};
use crate::files::gff::exo_string::{exo_loc_string_at, exo_string_at, ExoLocString, ExoString};
use crate::files::gff::field::{FieldView, LabeledFieldView};
use crate::files::gff::label::{slot_content, slot_of, Label, LABEL_SIZE};
use crate::files::gff::structs::{StructOrigin, StructView};
use crate::files::gff::void::{void_at, Void};
use crate::files::res_ref::{res_ref_at, ResRef};
use crate::files::tlk::{tlk_view, Tlk, TlkView};
use vstd::prelude::*;

verus! {

/// The kinds of value that a field holds, in the order of their numbers in a file.
#[derive(Debug, Clone, Copy, PartialEq, Eq, Structural)]
pub enum FieldType {
    Byte,
    Char,
    Word,
    Short,
    DWord,
    Int,
    DWord64,
    Int64,
    Float,
    Double,
    ExoString,
    ResRef,
    ExoLocString,
    Void,
    Struct,
    List,
}

impl FieldType {
    /// The number that stands for this kind in a file.
    pub open spec fn spec_as_num(&self) -> u8 {
        match self {
            FieldType::Byte => 0,
            FieldType::Char => 1,
            FieldType::Word => 2,
            FieldType::Short => 3,
            FieldType::DWord => 4,
            FieldType::Int => 5,
            FieldType::DWord64 => 6,
            FieldType::Int64 => 7,
            FieldType::Float => 8,
            FieldType::Double => 9,
            FieldType::ExoString => 10,
            FieldType::ResRef => 11,
            FieldType::ExoLocString => 12,
            FieldType::Void => 13,
            FieldType::Struct => 14,
            FieldType::List => 15,
        }
    }

    /// The kind that `value` stands for, if any.
    pub open spec fn spec_from_num(value: u32) -> Option<FieldType> {
        match value {
            0 => Some(FieldType::Byte),
            1 => Some(FieldType::Char),
            2 => Some(FieldType::Word),
            3 => Some(FieldType::Short),
            4 => Some(FieldType::DWord),
            5 => Some(FieldType::Int),
            6 => Some(FieldType::DWord64),
            7 => Some(FieldType::Int64),
            8 => Some(FieldType::Float),
            9 => Some(FieldType::Double),
            10 => Some(FieldType::ExoString),
            11 => Some(FieldType::ResRef),
            12 => Some(FieldType::ExoLocString),
            13 => Some(FieldType::Void),
            14 => Some(FieldType::Struct),
            15 => Some(FieldType::List),
            _ => None,
        }
    }

    /// Whether a value of this kind does not fit in four bytes, so that a
    /// field of this kind holds an index or an offset in place of the value.
    pub open spec fn spec_is_complex(&self) -> bool {
        match self {
            FieldType::Byte
            | FieldType::Char
            | FieldType::Word
            | FieldType::Short
            | FieldType::DWord
            | FieldType::Int
            | FieldType::Float => false,
            _ => true,
        }
    }

    /// The number that stands for this kind in a file.
    #[verifier::when_used_as_spec(spec_as_num)]
    pub fn as_num(&self) -> (r: u8)
        ensures
            r == self.spec_as_num(),
            r <= 15,
            FieldType::spec_from_num(r as u32) == Some(*self),
    {
        match self {
            FieldType::Byte => 0,
            FieldType::Char => 1,
            FieldType::Word => 2,
            FieldType::Short => 3,
            FieldType::DWord => 4,
            FieldType::Int => 5,
            FieldType::DWord64 => 6,
            FieldType::Int64 => 7,
            FieldType::Float => 8,
            FieldType::Double => 9,
            FieldType::ExoString => 10,
            FieldType::ResRef => 11,
            FieldType::ExoLocString => 12,
            FieldType::Void => 13,
            FieldType::Struct => 14,
            FieldType::List => 15,
        }
    }

    /// The kind that `value` stands for; an `EnumError` carrying `value` if there is none.
    pub fn try_from(value: u32) -> (r: Result<FieldType, EnumError>)
        ensures
            match FieldType::spec_from_num(value) {
                Some(t) => r == Ok::<FieldType, EnumError>(t),
                None => r == Err::<FieldType, EnumError>(
                    EnumError { enum_type: EnumType::FieldType, value },
                ),
            },
    {
        match value {
            0 => Ok(FieldType::Byte),
            1 => Ok(FieldType::Char),
            2 => Ok(FieldType::Word),
            3 => Ok(FieldType::Short),
            4 => Ok(FieldType::DWord),
            5 => Ok(FieldType::Int),
            6 => Ok(FieldType::DWord64),
            7 => Ok(FieldType::Int64),
            8 => Ok(FieldType::Float),
            9 => Ok(FieldType::Double),
            10 => Ok(FieldType::ExoString),
            11 => Ok(FieldType::ResRef),
            12 => Ok(FieldType::ExoLocString),
            13 => Ok(FieldType::Void),
            14 => Ok(FieldType::Struct),
            15 => Ok(FieldType::List),
            _ => Err(EnumError { enum_type: EnumType::FieldType, value }),
        }
    }

    /// Whether a value of this kind does not fit in four bytes.
    #[verifier::when_used_as_spec(spec_is_complex)]
    pub fn is_complex(&self) -> (r: bool)
        ensures
            r == self.spec_is_complex(),
    {
        match self {
            FieldType::Byte
            | FieldType::Char
            | FieldType::Word
            | FieldType::Short
            | FieldType::DWord
            | FieldType::Int
            | FieldType::Float => false,
            FieldType::DWord64
            | FieldType::Int64
            | FieldType::Double
            | FieldType::ExoString
            | FieldType::ResRef
            | FieldType::ExoLocString
            | FieldType::Void
            | FieldType::Struct
            | FieldType::List => true,
        }
    }
}

/// The number of bytes of an entry of the field indices and of the list indices.
pub const INDEX_SIZE: u32 = 4;

/// The number of bytes of a struct in a file.
pub const STRUCT_SIZE: u32 = 12;

/// The number of bytes of a field in a file.
pub const FIELD_SIZE: u32 = 12;

/// A struct as a file holds it.
///
/// What `data_or_data_offset` means depends on `field_count`: nothing for
/// a struct without fields, the index of the field for a struct with one,
/// and else the offset in bytes, into the field indices, of the indices of
/// the fields.
#[derive(Debug, PartialEq, Eq, Clone, Copy, Structural)]
pub struct Struct {
    pub id: u32,
    pub data_or_data_offset: u32,
    pub field_count: u32,
}

/// A field as a file holds it.
///
/// `data_or_data_offset` is the value itself for a kind that fits in four
/// bytes, the index of a struct for a struct, the offset in bytes into the
/// list indices for a list, and else the offset in bytes into the field data.
#[derive(Debug, PartialEq, Eq, Clone, Copy, Structural)]
pub struct Field {
    pub id: FieldType,
    pub label_index: u32,
    pub data_or_data_offset: u32,
}

/// The struct that the first twelve bytes of `b` hold.
pub open spec fn struct_of(b: Seq<u8>) -> Struct {
    Struct {
        id: u32_le(b.subrange(0, 4)),
        data_or_data_offset: u32_le(b.subrange(4, 8)),
        field_count: u32_le(b.subrange(8, 12)),
    }
}

/// The twelve bytes of a struct.
pub open spec fn struct_bytes(s: Struct) -> Seq<u8> {
    u32_le_bytes(s.id) + u32_le_bytes(s.data_or_data_offset) + u32_le_bytes(s.field_count)
}

/// The field that the first twelve bytes of `b` hold, or an `EnumError` if
/// the first number stands for no kind of field.
pub open spec fn field_of(b: Seq<u8>) -> Result<Field, Error> {
    match FieldType::spec_from_num(u32_le(b.subrange(0, 4))) {
        None => Err(
            Error::EnumError { enum_type: EnumType::FieldType, value: u32_le(b.subrange(0, 4)) },
        ),
        Some(id) => Ok(
            Field {
                id,
                label_index: u32_le(b.subrange(4, 8)),
                data_or_data_offset: u32_le(b.subrange(8, 12)),
            },
        ),
    }
}

/// The twelve bytes of a field.
pub open spec fn field_bytes(f: Field) -> Seq<u8> {
    u32_le_bytes(f.id.spec_as_num() as u32) + u32_le_bytes(f.label_index) + u32_le_bytes(
        f.data_or_data_offset,
    )
}

/// The struct that starts at `pos`.
pub open spec fn struct_at(bytes: Seq<u8>, pos: int) -> Result<Struct, Error> {
    match bytes_at(bytes, pos, STRUCT_SIZE as int) {
        None => Err(Error::ParseError(ParseFault::UnexpectedEof)),
        Some(b) => Ok(struct_of(b)),
    }
}

/// The field that starts at `pos`.
pub open spec fn field_at(bytes: Seq<u8>, pos: int) -> Result<Field, Error> {
    match bytes_at(bytes, pos, FIELD_SIZE as int) {
        None => Err(Error::ParseError(ParseFault::UnexpectedEof)),
        Some(b) => field_of(b),
    }
}

/// The `n` structs that start at `pos`, one after another.
pub open spec fn structs_at(bytes: Seq<u8>, pos: int, n: nat) -> Result<Seq<Struct>, Error> {
    if n == 0 || (0 <= pos && pos + STRUCT_SIZE * n <= bytes.len()) {
        Ok(
            Seq::new(
                n,
                |k: int| struct_of(bytes.subrange(pos + STRUCT_SIZE * k, pos + STRUCT_SIZE * (k + 1))),
            ),
        )
    } else {
        Err(Error::ParseError(ParseFault::UnexpectedEof))
    }
}

/// The `n` fields that start at `pos`, one after another: the error of the
/// first that cannot be read, if there is one.
#[verifier::opaque]
pub open spec fn fields_at(bytes: Seq<u8>, pos: int, n: nat) -> Result<Seq<Field>, Error>
    decreases n,
{
    if n == 0 {
        Ok(Seq::empty())
    } else {
        match fields_at(bytes, pos, (n - 1) as nat) {
            Err(e) => Err(e),
            Ok(s) => match field_at(bytes, pos + FIELD_SIZE * (n - 1)) {
                Err(e) => Err(e),
                Ok(f) => Ok(s.push(f)),
            },
        }
    }
}

/// Reading one field more: the fields before it, then the field itself.
pub proof fn lemma_fields_step(bytes: Seq<u8>, pos: int, n: nat)
    ensures
        fields_at(bytes, pos, 0) == Ok::<Seq<Field>, Error>(Seq::empty()),
        fields_at(bytes, pos, n + 1) == match fields_at(bytes, pos, n) {
            Err(e) => Err::<Seq<Field>, Error>(e),
            Ok(s) => match field_at(bytes, pos + FIELD_SIZE * n) {
                Err(e) => Err(e),
                Ok(f) => Ok(s.push(f)),
            },
        },
{
    reveal_with_fuel(fields_at, 2);
    assert(((n + 1) - 1) as nat == n);
}

/// Fields of which the first `n` cannot be read cannot be read as more either.
pub proof fn lemma_fields_fail(bytes: Seq<u8>, pos: int, n: nat, m: nat)
    requires
        n <= m,
        fields_at(bytes, pos, n) is Err,
    ensures
        fields_at(bytes, pos, m) == fields_at(bytes, pos, n),
    decreases m,
{
    if n < m {
        lemma_fields_fail(bytes, pos, n, (m - 1) as nat);
        lemma_fields_step(bytes, pos, (m - 1) as nat);
    }
}

/// The `n` labels that start at `pos`, one after another.
pub open spec fn labels_at(bytes: Seq<u8>, pos: int, n: nat) -> Result<Seq<Seq<u8>>, Error> {
    if n == 0 || (0 <= pos && pos + LABEL_SIZE * n <= bytes.len()) {
        Ok(
            Seq::new(
                n,
                |k: int|
                    slot_content(bytes.subrange(pos + LABEL_SIZE * k, pos + LABEL_SIZE * (k + 1))),
            ),
        )
    } else {
        Err(Error::ParseError(ParseFault::UnexpectedEof))
    }
}

/// The `n` numbers that start at `pos`, one after another.
pub open spec fn indices_at(bytes: Seq<u8>, pos: int, n: nat) -> Result<Seq<u32>, Error> {
    if n == 0 || (0 <= pos && pos + INDEX_SIZE * n <= bytes.len()) {
        Ok(
            Seq::new(
                n,
                |k: int| u32_le(bytes.subrange(pos + INDEX_SIZE * k, pos + INDEX_SIZE * (k + 1))),
            ),
        )
    } else {
        Err(Error::ParseError(ParseFault::UnexpectedEof))
    }
}

/// The bytes of the structs `s`, one after another.
pub open spec fn structs_bytes(s: Seq<Struct>) -> Seq<u8>
    decreases s.len(),
{
    if s.len() == 0 {
        Seq::empty()
    } else {
        structs_bytes(s.drop_last()) + struct_bytes(s.last())
    }
}

/// The bytes of the fields `s`, one after another.
pub open spec fn fields_bytes(s: Seq<Field>) -> Seq<u8>
    decreases s.len(),
{
    if s.len() == 0 {
        Seq::empty()
    } else {
        fields_bytes(s.drop_last()) + field_bytes(s.last())
    }
}

/// The slots of the labels `s`, one after another.
pub open spec fn labels_bytes(s: Seq<Seq<u8>>) -> Seq<u8>
    decreases s.len(),
{
    if s.len() == 0 {
        Seq::empty()
    } else {
        labels_bytes(s.drop_last()) + slot_of(s.last())
    }
}

/// The bytes of the numbers `s`, one after another.
pub open spec fn indices_bytes(s: Seq<u32>) -> Seq<u8>
    decreases s.len(),
{
    if s.len() == 0 {
        Seq::empty()
    } else {
        indices_bytes(s.drop_last()) + u32_le_bytes(s.last())
    }
}

impl Struct {
    /// Reads a struct.
    pub fn read(data: &mut ByteReader) -> (r: Result<Self, Error>)
        ensures
            final(data).data@ == old(data).data@,
            r == struct_at(old(data).bytes(), old(data).pos as int),
            r is Ok ==> final(data).pos == old(data).pos + STRUCT_SIZE,
    {
        let b = data.read_exact(STRUCT_SIZE as usize)?;
        let id = crate::files::u32_from_le(vstd::slice::slice_subrange(b, 0, 4));
        let data_or_data_offset = crate::files::u32_from_le(vstd::slice::slice_subrange(b, 4, 8));
        let field_count = crate::files::u32_from_le(vstd::slice::slice_subrange(b, 8, 12));
        Ok(Self { id, data_or_data_offset, field_count })
    }

    /// Appends the twelve bytes of the struct. Writing to memory cannot fail.
    pub fn write(&self, writer: &mut Vec<u8>) -> (r: Result<(), Error>)
        ensures
            r is Ok,
            final(writer)@ == old(writer)@ + struct_bytes(*self),
    {
        let ghost before = writer@;
        push_u32_le(writer, self.id);
        push_u32_le(writer, self.data_or_data_offset);
        push_u32_le(writer, self.field_count);
        assert(writer@ =~= before + struct_bytes(*self));
        Ok(())
    }
}

impl Field {
    /// Reads a field; an `EnumError` if its first number stands for no kind of field.
    pub fn read(data: &mut ByteReader) -> (r: Result<Self, Error>)
        ensures
            final(data).data@ == old(data).data@,
            r == field_at(old(data).bytes(), old(data).pos as int),
            r is Ok ==> final(data).pos == old(data).pos + FIELD_SIZE,
    {
        let b = data.read_exact(FIELD_SIZE as usize)?;
        let index = crate::files::u32_from_le(vstd::slice::slice_subrange(b, 0, 4));
        let id = match FieldType::try_from(index) {
            Ok(t) => t,
            Err(e) => {
                return Err(Error::from_enum_error(e));
            },
        };
        let label_index = crate::files::u32_from_le(vstd::slice::slice_subrange(b, 4, 8));
        let data_or_data_offset = crate::files::u32_from_le(vstd::slice::slice_subrange(b, 8, 12));
        Ok(Self { id, label_index, data_or_data_offset })
    }

    /// Appends the twelve bytes of the field. Writing to memory cannot fail.
    pub fn write(&self, writer: &mut Vec<u8>) -> (r: Result<(), Error>)
        ensures
            r is Ok,
            final(writer)@ == old(writer)@ + field_bytes(*self),
    {
        let ghost before = writer@;
        push_u32_le(writer, self.id.as_num() as u32);
        push_u32_le(writer, self.label_index);
        push_u32_le(writer, self.data_or_data_offset);
        assert(writer@ =~= before + field_bytes(*self));
        Ok(())
    }
}

/// The bytes of the labels `l`.
pub open spec fn label_views(l: Seq<Label>) -> Seq<Seq<u8>> {
    Seq::new(l.len(), |i: int| l[i]@)
}

/// A file in its flat form: the header and the six sections.
#[derive(Debug, PartialEq, Eq)]
pub struct Gff {
    pub header: Header,
    pub structs: Vec<Struct>,
    pub fields: Vec<Field>,
    pub labels: Vec<Label>,
    pub field_data: Vec<u8>,
    pub field_indices: Vec<u32>,
    pub list_indices: Vec<u32>,
}

/// What a file in its flat form is, as plain values.
pub struct GffView {
    pub header: Header,
    pub structs: Seq<Struct>,
    pub fields: Seq<Field>,
    pub labels: Seq<Seq<u8>>,
    pub field_data: Seq<u8>,
    pub field_indices: Seq<u32>,
    pub list_indices: Seq<u32>,
}

impl View for Gff {
    type V = GffView;

    open spec fn view(&self) -> GffView {
        GffView {
            header: self.header,
            structs: self.structs@,
            fields: self.fields@,
            labels: label_views(self.labels@),
            field_data: self.field_data@,
            field_indices: self.field_indices@,
            list_indices: self.list_indices@,
        }
    }
}

/// The file in its flat form whose header starts at `pos`: each section is
/// read where the header says it lies, and as long as the header says it is.
pub open spec fn gff_at(bytes: Seq<u8>, pos: int) -> Result<GffView, Error> {
    match header_at(bytes, pos) {
        Err(e) => Err(e),
        Ok(header) => match structs_at(
            bytes,
            header.struct_offset.0 as int,
            header.struct_count as nat,
        ) {
            Err(e) => Err(e),
            Ok(structs) => match fields_at(
                bytes,
                header.field_offset.0 as int,
                header.field_count as nat,
            ) {
                Err(e) => Err(e),
                Ok(fields) => match labels_at(
                    bytes,
                    header.label_offset.0 as int,
                    header.label_count as nat,
                ) {
                    Err(e) => Err(e),
                    Ok(labels) => match data_at(
                        bytes,
                        header.field_data_offset.0 as int,
                        header.field_data_count as int,
                    ) {
                        None => Err(Error::ParseError(ParseFault::UnexpectedEof)),
                        Some(field_data) => match indices_at(
                            bytes,
                            header.field_indices_offset.0 as int,
                            (header.field_indices_count / INDEX_SIZE) as nat,
                        ) {
                            Err(e) => Err(e),
                            Ok(field_indices) => match indices_at(
                                bytes,
                                header.list_indices_offset.0 as int,
                                (header.list_indices_count / INDEX_SIZE) as nat,
                            ) {
                                Err(e) => Err(e),
                                Ok(list_indices) => Ok(
                                    GffView {
                                        header,
                                        structs,
                                        fields,
                                        labels,
                                        field_data,
                                        field_indices,
                                        list_indices,
                                    },
                                ),
                            },
                        },
                    },
                },
            },
        },
    }
}

/// The `n` bytes that start at `pos`; none, wherever `pos` lies, if `n` is zero.
pub open spec fn data_at(bytes: Seq<u8>, pos: int, n: int) -> Option<Seq<u8>> {
    if n == 0 {
        Some(Seq::empty())
    } else {
        bytes_at(bytes, pos, n)
    }
}

/// The bytes of a file in its flat form: the header, then the six sections.
pub open spec fn gff_bytes(g: GffView) -> Seq<u8> {
    header_bytes(g.header) + structs_bytes(g.structs) + fields_bytes(g.fields) + labels_bytes(
        g.labels,
    ) + g.field_data + indices_bytes(g.field_indices) + indices_bytes(g.list_indices)
}

/// Reads `n` numbers, one after another.
fn read_indices(data: &mut ByteReader, n: u32) -> (r: Result<Vec<u32>, Error>)
    ensures
        final(data).data@ == old(data).data@,
        match r {
            Ok(v) => indices_at(old(data).bytes(), old(data).pos as int, n as nat) == Ok::<
                Seq<u32>,
                Error,
            >(v@),
            Err(e) => indices_at(old(data).bytes(), old(data).pos as int, n as nat) == Err::<
                Seq<u32>,
                Error,
            >(e),
        },
{
    let ghost bytes = data.bytes();
    let ghost pos = data.pos as int;
    let mut out: Vec<u32> = Vec::new();
    let mut i: u32 = 0;
    while i < n
        invariant
            0 <= i <= n,
            data.data@ == bytes,
            bytes == old(data).data@,
            pos == old(data).pos,
            data.pos == pos + INDEX_SIZE * i,
            out@.len() == i,
            i > 0 ==> pos + INDEX_SIZE * i <= bytes.len(),
            forall|k: int|
                0 <= k < i ==> out@[k] == u32_le(
                    bytes.subrange(pos + INDEX_SIZE * k, pos + INDEX_SIZE * (k + 1)),
                ),
        decreases n - i,
    {
        match data.read_u32_le() {
            Ok(v) => {
                out.push(v);
            },
            Err(e) => {
                return Err(e);
            },
        }
        i = i + 1;
    }
    proof {
        assert(out@ =~= indices_at(bytes, pos, n as nat)->Ok_0);
    }
    Ok(out)
}

/// Reads `n` structs, one after another.
fn read_structs(data: &mut ByteReader, n: u32) -> (r: Result<Vec<Struct>, Error>)
    ensures
        final(data).data@ == old(data).data@,
        match r {
            Ok(v) => structs_at(old(data).bytes(), old(data).pos as int, n as nat) == Ok::<
                Seq<Struct>,
                Error,
            >(v@),
            Err(e) => structs_at(old(data).bytes(), old(data).pos as int, n as nat) == Err::<
                Seq<Struct>,
                Error,
            >(e),
        },
{
    let ghost bytes = data.bytes();
    let ghost pos = data.pos as int;
    let mut out: Vec<Struct> = Vec::new();
    let mut i: u32 = 0;
    while i < n
        invariant
            0 <= i <= n,
            data.data@ == bytes,
            bytes == old(data).data@,
            pos == old(data).pos,
            data.pos == pos + STRUCT_SIZE * i,
            out@.len() == i,
            i > 0 ==> pos + STRUCT_SIZE * i <= bytes.len(),
            forall|k: int|
                0 <= k < i ==> out@[k] == struct_of(
                    bytes.subrange(pos + STRUCT_SIZE * k, pos + STRUCT_SIZE * (k + 1)),
                ),
        decreases n - i,
    {
        match Struct::read(data) {
            Ok(v) => {
                out.push(v);
            },
            Err(e) => {
                return Err(e);
            },
        }
        i = i + 1;
    }
    proof {
        assert(out@ =~= structs_at(bytes, pos, n as nat)->Ok_0);
    }
    Ok(out)
}

/// Reads `n` fields, one after another.
fn read_fields(data: &mut ByteReader, n: u32) -> (r: Result<Vec<Field>, Error>)
    ensures
        final(data).data@ == old(data).data@,
        match r {
            Ok(v) => fields_at(old(data).bytes(), old(data).pos as int, n as nat) == Ok::<
                Seq<Field>,
                Error,
            >(v@),
            Err(e) => fields_at(old(data).bytes(), old(data).pos as int, n as nat) == Err::<
                Seq<Field>,
                Error,
            >(e),
        },
{
    let ghost bytes = data.bytes();
    let ghost pos = data.pos as int;
    let mut out: Vec<Field> = Vec::new();
    let mut i: u32 = 0;
    proof {
        lemma_fields_step(bytes, pos, 0);
    }
    while i < n
        invariant
            0 <= i <= n,
            data.data@ == bytes,
            bytes == old(data).data@,
            pos == old(data).pos,
            data.pos == pos + FIELD_SIZE * i,
            fields_at(bytes, pos, i as nat) == Ok::<Seq<Field>, Error>(out@),
        decreases n - i,
    {
        proof {
            lemma_fields_step(bytes, pos, i as nat);
        }
        match Field::read(data) {
            Ok(f) => {
                out.push(f);
            },
            Err(e) => {
                proof {
                    lemma_fields_fail(bytes, pos, i as nat + 1, n as nat);
                }
                return Err(e);
            },
        }
        i = i + 1;
    }
    Ok(out)
}

/// Reads `n` labels, one after another.
fn read_labels(data: &mut ByteReader, n: u32) -> (r: Result<Vec<Label>, Error>)
    ensures
        final(data).data@ == old(data).data@,
        match r {
            Ok(v) => labels_at(old(data).bytes(), old(data).pos as int, n as nat) == Ok::<
                Seq<Seq<u8>>,
                Error,
            >(label_views(v@)),
            Err(e) => labels_at(old(data).bytes(), old(data).pos as int, n as nat) == Err::<
                Seq<Seq<u8>>,
                Error,
            >(e),
        },
{
    let ghost bytes = data.bytes();
    let ghost pos = data.pos as int;
    let mut out: Vec<Label> = Vec::new();
    let mut i: u32 = 0;
    while i < n
        invariant
            0 <= i <= n,
            data.data@ == bytes,
            bytes == old(data).data@,
            pos == old(data).pos,
            data.pos == pos + LABEL_SIZE * i,
            out@.len() == i,
            i > 0 ==> pos + LABEL_SIZE * i <= bytes.len(),
            forall|k: int|
                0 <= k < i ==> (#[trigger] out@[k])@ == slot_content(
                    bytes.subrange(pos + LABEL_SIZE * k, pos + LABEL_SIZE * (k + 1)),
                ),
        decreases n - i,
    {
        match Label::read(data) {
            Ok(v) => {
                out.push(v);
            },
            Err(e) => {
                return Err(e);
            },
        }
        i = i + 1;
    }
    proof {
        assert(label_views(out@) =~= labels_at(bytes, pos, n as nat)->Ok_0);
    }
    Ok(out)
}

impl Default for Gff {
    fn default() -> (r: Self)
        ensures
            r@.header == Header::spec_empty(),
            r@.structs.len() == 0,
            r@.fields.len() == 0,
            r@.labels.len() == 0,
            r@.field_data.len() == 0,
            r@.field_indices.len() == 0,
            r@.list_indices.len() == 0,
    {
        Gff::empty()
    }
}

impl Gff {
    /// A file without structs, fields, labels or data.
    pub fn empty() -> (r: Self)
        ensures
            r@.header == Header::spec_empty(),
            r@.structs.len() == 0,
            r@.fields.len() == 0,
            r@.labels.len() == 0,
            r@.field_data.len() == 0,
            r@.field_indices.len() == 0,
            r@.list_indices.len() == 0,
    {
        Gff {
            header: Header::empty(),
            structs: Vec::new(),
            fields: Vec::new(),
            labels: Vec::new(),
            field_data: Vec::new(),
            field_indices: Vec::new(),
            list_indices: Vec::new(),
        }
    }

    /// Reads the header at the position of `data`, and then each section
    /// where the header says it lies.
    pub fn read(data: &mut ByteReader) -> (r: Result<Self, Error>)
        ensures
            final(data).data@ == old(data).data@,
            match r {
                Ok(g) => gff_at(old(data).bytes(), old(data).pos as int) == Ok::<GffView, Error>(
                    g@,
                ),
                Err(e) => gff_at(old(data).bytes(), old(data).pos as int) == Err::<
                    GffView,
                    Error,
                >(e),
            },
    {
        let header = Header::read(data)?;
        let _ = header.struct_offset.seek_to(data);
        let structs = read_structs(data, header.struct_count)?;
        let _ = header.field_offset.seek_to(data);
        let fields = read_fields(data, header.field_count)?;
        let _ = header.label_offset.seek_to(data);
        let labels = read_labels(data, header.label_count)?;
        let _ = header.field_data_offset.seek_to(data);
        let field_data = if header.field_data_count == 0 {
            Vec::new()
        } else {
            let buf = data.read_exact(header.field_data_count as usize)?;
            vstd::slice::slice_to_vec(buf)
        };
        let _ = header.field_indices_offset.seek_to(data);
        let field_indices = read_indices(data, header.field_indices_count / INDEX_SIZE)?;
        let _ = header.list_indices_offset.seek_to(data);
        let list_indices = read_indices(data, header.list_indices_count / INDEX_SIZE)?;
        Ok(Self { header, structs, fields, labels, field_data, field_indices, list_indices })
    }

    /// Appends the header and the six sections. Writing to memory cannot fail.
    pub fn write(&self, writer: &mut Vec<u8>) -> (r: Result<(), Error>)
        ensures
            r is Ok,
            final(writer)@ == old(writer)@ + gff_bytes(self@),
    {
        let ghost before = writer@;
        let _ = self.header.write(writer);
        let ghost w0 = writer@;

        let mut i: usize = 0;
        while i < self.structs.len()
            invariant
                0 <= i <= self.structs@.len(),
                writer@ == w0 + structs_bytes(self.structs@.take(i as int)),
            decreases self.structs@.len() - i,
        {
            let _ = self.structs[i].write(writer);
            proof {
                let t = self.structs@.take(i + 1);
                assert(t.drop_last() =~= self.structs@.take(i as int));
                assert(writer@ =~= w0 + structs_bytes(t));
            }
            i = i + 1;
        }
        assert(self.structs@.take(i as int) =~= self.structs@);
        let ghost w1 = writer@;

        let mut i: usize = 0;
        while i < self.fields.len()
            invariant
                0 <= i <= self.fields@.len(),
                writer@ == w1 + fields_bytes(self.fields@.take(i as int)),
            decreases self.fields@.len() - i,
        {
            let _ = self.fields[i].write(writer);
            proof {
                let t = self.fields@.take(i + 1);
                assert(t.drop_last() =~= self.fields@.take(i as int));
                assert(writer@ =~= w1 + fields_bytes(t));
            }
            i = i + 1;
        }
        assert(self.fields@.take(i as int) =~= self.fields@);
        let ghost w2 = writer@;

        let ghost lv = label_views(self.labels@);
        let mut i: usize = 0;
        while i < self.labels.len()
            invariant
                0 <= i <= self.labels@.len(),
                lv == label_views(self.labels@),
                writer@ == w2 + labels_bytes(lv.take(i as int)),
            decreases self.labels@.len() - i,
        {
            let _ = self.labels[i].write(writer);
            proof {
                let t = lv.take(i + 1);
                assert(t.drop_last() =~= lv.take(i as int));
                assert(t.last() == self.labels@[i as int]@);
                assert(writer@ =~= w2 + labels_bytes(t));
            }
            i = i + 1;
        }
        assert(lv.take(i as int) =~= lv);
        let ghost w3 = writer@;

        let _ = write_all(writer, self.field_data.as_slice());
        let ghost w4 = writer@;

        let mut i: usize = 0;
        while i < self.field_indices.len()
            invariant
                0 <= i <= self.field_indices@.len(),
                writer@ == w4 + indices_bytes(self.field_indices@.take(i as int)),
            decreases self.field_indices@.len() - i,
        {
            push_u32_le(writer, self.field_indices[i]);
            proof {
                let t = self.field_indices@.take(i + 1);
                assert(t.drop_last() =~= self.field_indices@.take(i as int));
                assert(writer@ =~= w4 + indices_bytes(t));
            }
            i = i + 1;
        }
        assert(self.field_indices@.take(i as int) =~= self.field_indices@);
        let ghost w5 = writer@;

        let mut i: usize = 0;
        while i < self.list_indices.len()
            invariant
                0 <= i <= self.list_indices@.len(),
                writer@ == w5 + indices_bytes(self.list_indices@.take(i as int)),
            decreases self.list_indices@.len() - i,
        {
            push_u32_le(writer, self.list_indices[i]);
            proof {
                let t = self.list_indices@.take(i + 1);
                assert(t.drop_last() =~= self.list_indices@.take(i as int));
                assert(writer@ =~= w5 + indices_bytes(t));
            }
            i = i + 1;
        }
        assert(self.list_indices@.take(i as int) =~= self.list_indices@);
        assert(writer@ =~= before + gff_bytes(self@));
        Ok(())
    }
}

/// The index, among the fields of the file, of field `i` of the struct `s`,
/// which has more than `i` fields.
///
/// A struct with one field holds the index itself. A struct with more holds
/// the offset in bytes of its indices among the field indices; that offset
/// must be a multiple of four.
pub open spec fn field_index_at(g: GffView, s: Struct, i: int) -> Result<int, Error> {
    if s.field_count == 1 {
        Ok(s.data_or_data_offset as int)
    } else if s.data_or_data_offset % INDEX_SIZE != 0 {
        Err(Error::AlignmentError { offset: s.data_or_data_offset })
    } else if s.data_or_data_offset / INDEX_SIZE + i < g.field_indices.len() {
        Ok(g.field_indices[s.data_or_data_offset / INDEX_SIZE + i] as int)
    } else {
        Err(Error::ParseError(ParseFault::OutOfRange))
    }
}

/// Field `index` of the struct `s`: none if `s` has no more than `index` fields.
pub open spec fn field_of_struct(g: GffView, s: Struct, index: u32) -> Result<
    Option<Field>,
    Error,
> {
    if index >= s.field_count {
        Ok(None)
    } else {
        match field_index_at(g, s, index as int) {
            Err(e) => Err(e),
            Ok(k) => if k < g.fields.len() {
                Ok(Some(g.fields[k]))
            } else {
                Err(Error::ParseError(ParseFault::OutOfRange))
            },
        }
    }
}

/// The value of the field `field`, with structs nested at most `fuel` deep below it.
pub open spec fn resolved_field(g: GffView, tlk: Option<TlkView>, field: Field, fuel: nat) -> Result<
    FieldView,
    Error,
>
    decreases fuel, 0nat, 0nat,
{
    let d = field.data_or_data_offset;
    match field.id {
        FieldType::Byte => Ok(FieldView::Byte((d % 0x100) as u8)),
        FieldType::Char => Ok(FieldView::Char(d)),
        FieldType::Word => Ok(FieldView::Word((d % 0x1_0000) as u16)),
        FieldType::Short => Ok(FieldView::Short(u16_as_i16((d % 0x1_0000) as u16))),
        FieldType::DWord => Ok(FieldView::DWord(d)),
        FieldType::Int => Ok(FieldView::Int(u32_as_i32(d))),
        FieldType::Float => Ok(FieldView::Float(d)),
        FieldType::DWord64 => match u64_at(g.field_data, d as int) {
            Some(v) => Ok(FieldView::DWord64(v)),
            None => Err(Error::ParseError(ParseFault::UnexpectedEof)),
        },
        FieldType::Int64 => match u64_at(g.field_data, d as int) {
            Some(v) => Ok(FieldView::Int64(u64_as_i64(v))),
            None => Err(Error::ParseError(ParseFault::UnexpectedEof)),
        },
        FieldType::Double => match u64_at(g.field_data, d as int) {
            Some(v) => Ok(FieldView::Double(v)),
            None => Err(Error::ParseError(ParseFault::UnexpectedEof)),
        },
        FieldType::ExoString => match exo_string_at(g.field_data, d as int) {
            Ok((v, _)) => Ok(FieldView::ExoString(v)),
            Err(e) => Err(e),
        },
        FieldType::ResRef => match res_ref_at(g.field_data, d as int) {
            Ok((v, _)) => Ok(FieldView::ResRef(v)),
            Err(e) => Err(e),
        },
        FieldType::ExoLocString => match exo_loc_string_at(g.field_data, d as int, tlk) {
            Ok((v, _)) => Ok(FieldView::ExoLocString(v)),
            Err(e) => Err(e),
        },
        FieldType::Void => match void_at(g.field_data, d as int) {
            Ok((v, _)) => Ok(FieldView::Void(v)),
            Err(e) => Err(e),
        },
        FieldType::Struct => if d >= g.structs.len() {
            Err(Error::ParseError(ParseFault::OutOfRange))
        } else if fuel == 0 {
            Err(Error::ParseError(ParseFault::NestingTooDeep))
        } else {
            match resolved_struct(g, tlk, g.structs[d as int], (fuel - 1) as nat) {
                Ok(v) => Ok(FieldView::Struct(v)),
                Err(e) => Err(e),
            }
        },
        FieldType::List => if d / INDEX_SIZE >= g.list_indices.len() {
            Err(Error::ParseError(ParseFault::OutOfRange))
        } else if d / INDEX_SIZE + 1 + g.list_indices[(d / INDEX_SIZE) as int]
            > g.list_indices.len() {
            Err(Error::ParseError(ParseFault::OutOfRange))
        } else if fuel == 0 {
            Err(Error::ParseError(ParseFault::NestingTooDeep))
        } else {
            match resolved_structs(
                g,
                tlk,
                d / INDEX_SIZE + 1,
                g.list_indices[(d / INDEX_SIZE) as int] as nat,
                (fuel - 1) as nat,
            ) {
                Ok(v) => Ok(FieldView::List(v)),
                Err(e) => Err(e),
            }
        },
    }
}

/// Field `i` of the struct `s`, with its name.
pub open spec fn resolved_cell(g: GffView, tlk: Option<TlkView>, s: Struct, i: int, fuel: nat) -> Result<
    LabeledFieldView,
    Error,
>
    decreases fuel, 1nat, 0nat,
{
    match field_index_at(g, s, i) {
        Err(e) => Err(e),
        Ok(k) => if k >= g.fields.len() {
            Err(Error::ParseError(ParseFault::OutOfRange))
        } else if g.fields[k].label_index >= g.labels.len() {
            Err(Error::ParseError(ParseFault::OutOfRange))
        } else {
            match resolved_field(g, tlk, g.fields[k], fuel) {
                Err(e) => Err(e),
                Ok(field) => Ok(
                    LabeledFieldView { label: g.labels[g.fields[k].label_index as int], field },
                ),
            }
        },
    }
}

/// The first `n` fields of the struct `s`, in their order: the error of
/// the first that cannot be resolved, if there is one.
pub open spec fn resolved_cells(g: GffView, tlk: Option<TlkView>, s: Struct, n: nat, fuel: nat) -> Result<
    Seq<LabeledFieldView>,
    Error,
>
    decreases fuel, 2nat, n,
{
    if n == 0 {
        Ok(Seq::empty())
    } else {
        match resolved_cells(g, tlk, s, (n - 1) as nat, fuel) {
            Err(e) => Err(e),
            Ok(cells) => match resolved_cell(g, tlk, s, n - 1, fuel) {
                Err(e) => Err(e),
                Ok(c) => Ok(cells.push(c)),
            },
        }
    }
}

/// The struct `s` with all its fields, with structs nested at most `fuel` deep below it.
pub open spec fn resolved_struct(g: GffView, tlk: Option<TlkView>, s: Struct, fuel: nat) -> Result<
    StructView,
    Error,
>
    decreases fuel, 3nat, 0nat,
{
    match resolved_cells(g, tlk, s, s.field_count as nat, fuel) {
        Err(e) => Err(e),
        Ok(fields) => Ok(
            StructView { id: s.id, origin: StructOrigin::FromFile(s.data_or_data_offset), fields },
        ),
    }
}

/// The `n` structs whose indices stand at `start` and after it among the
/// list indices: the error of the first that cannot be resolved, if there is one.
pub open spec fn resolved_structs(
    g: GffView,
    tlk: Option<TlkView>,
    start: int,
    n: nat,
    fuel: nat,
) -> Result<Seq<StructView>, Error>
    decreases fuel, 4nat, n,
{
    if n == 0 {
        Ok(Seq::empty())
    } else {
        match resolved_structs(g, tlk, start, (n - 1) as nat, fuel) {
            Err(e) => Err(e),
            Ok(structs) => if g.list_indices[start + n - 1] >= g.structs.len() {
                Err(Error::ParseError(ParseFault::OutOfRange))
            } else {
                match resolved_struct(
                    g,
                    tlk,
                    g.structs[g.list_indices[start + n - 1] as int],
                    fuel,
                ) {
                    Err(e) => Err(e),
                    Ok(s) => Ok(structs.push(s)),
                }
            },
        }
    }
}

/// Fields of which the first `n` cannot be resolved cannot be resolved as more either.
pub proof fn lemma_cells_fail(
    g: GffView,
    tlk: Option<TlkView>,
    s: Struct,
    n: nat,
    m: nat,
    fuel: nat,
)
    requires
        n <= m,
        resolved_cells(g, tlk, s, n, fuel) is Err,
    ensures
        resolved_cells(g, tlk, s, m, fuel) == resolved_cells(g, tlk, s, n, fuel),
    decreases m,
{
    if n < m {
        lemma_cells_fail(g, tlk, s, n, (m - 1) as nat, fuel);
    }
}

/// Structs of which the first `n` cannot be resolved cannot be resolved as more either.
pub proof fn lemma_structs_fail(
    g: GffView,
    tlk: Option<TlkView>,
    start: int,
    n: nat,
    m: nat,
    fuel: nat,
)
    requires
        n <= m,
        resolved_structs(g, tlk, start, n, fuel) is Err,
    ensures
        resolved_structs(g, tlk, start, m, fuel) == resolved_structs(g, tlk, start, n, fuel),
    decreases m,
{
    if n < m {
        lemma_structs_fail(g, tlk, start, n, (m - 1) as nat, fuel);
    }
}

impl Struct {
    /// Field `index` of this struct in `file`.
    ///
    /// `Ok(None)` if the struct has no more than `index` fields, whatever
    /// else it holds. Else `AlignmentError` if the struct has several fields
    /// and its offset is no multiple of four, and `ParseError(OutOfRange)`
    /// if the offset or the index it leads to lies outside the file.
    pub fn get_field<'a>(&self, file: &'a Gff, index: u32) -> (r: Result<Option<&'a Field>, Error>)
        ensures
            index >= self.field_count ==> r == Ok::<Option<&Field>, Error>(None),
            self.field_count > 1 && index < self.field_count && self.data_or_data_offset % 4 != 0
                ==> r == Err::<Option<&Field>, Error>(
                Error::AlignmentError { offset: self.data_or_data_offset },
            ),
            match r {
                Ok(Some(f)) => field_of_struct(file@, *self, index) == Ok::<Option<Field>, Error>(
                    Some(*f),
                ),
                Ok(None) => field_of_struct(file@, *self, index) == Ok::<Option<Field>, Error>(
                    None,
                ),
                Err(e) => field_of_struct(file@, *self, index) == Err::<Option<Field>, Error>(e),
            },
    {
        if index >= self.field_count {
            return Ok(None);
        }
        let k: usize = if self.field_count == 1 {
            self.data_or_data_offset as usize
        } else {
            if self.data_or_data_offset % INDEX_SIZE != 0 {
                return Err(Error::AlignmentError { offset: self.data_or_data_offset });
            }
            let base: usize = (self.data_or_data_offset / INDEX_SIZE) as usize;
            let len: usize = file.field_indices.len();
            if base >= len || index as usize >= len - base {
                return Err(Error::ParseError(ParseFault::OutOfRange));
            }
            file.field_indices[base + index as usize] as usize
        };
        if k >= file.fields.len() {
            return Err(Error::ParseError(ParseFault::OutOfRange));
        }
        Ok(Some(&file.fields[k]))
    }
}

impl Field {
    /// The value of this field in `file`, strings looked up in `tlk` if
    /// there is one. Structs may be nested as deep below the field as the
    /// file has structs.
    pub fn to_field(&self, file: &Gff, tlk: Option<&Tlk>) -> (r: Result<
        crate::files::gff::field::Field,
        Error,
    >)
        ensures
            match r {
                Ok(v) => resolved_field(file@, tlk_view(tlk), *self, file@.structs.len()) == Ok::<
                    FieldView,
                    Error,
                >(v@),
                Err(e) => resolved_field(file@, tlk_view(tlk), *self, file@.structs.len())
                    == Err::<FieldView, Error>(e),
            },
    {
        crate::files::gff::resolve::resolve_field(self, file, tlk, file.structs.len())
    }
}

} // verus!
