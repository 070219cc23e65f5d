//! The values that fields hold.

use crate::error::{EnumType, Error};
use crate::files::u32_le_bytes;
use crate::files::gff::bin::FieldType;
use crate::files::gff::exo_string::{ExoLocString, ExoLocStringView, ExoString};
use crate::files::gff::label::Label;
use crate::files::gff::structs::{struct_views, Struct, StructView};
use crate::files::gff::void::Void;
use crate::files::res_ref::ResRef;
use crate::files::text::{decode_windows_1252_without_bom, windows_1252_decoded_without_bom};
use vstd::prelude::*;

verus! {

/// A character as a file holds it: in 32 bits, of which the game uses the lowest eight.
#[derive(Debug, PartialEq, Eq, Clone, Copy, Structural)]
pub struct U32Char(pub u32);

impl U32Char {
    /// The character that the four bytes stand for in windows-1252: the
    /// first character of their text, if it has one.
    pub fn get_char(&self) -> (r: Option<char>)
        ensures
            r == if windows_1252_decoded_without_bom(u32_le_bytes(self.0)).len() > 0 {
                Some(windows_1252_decoded_without_bom(u32_le_bytes(self.0))[0])
            } else {
                None
            },
    {
        let mut bytes: Vec<u8> = Vec::new();
        crate::files::push_u32_le(&mut bytes, self.0);
        assert(bytes@ =~= u32_le_bytes(self.0));
        let text = decode_windows_1252_without_bom(bytes.as_slice());
        if text.as_str().unicode_len() > 0 {
            Some(text.as_str().get_char(0))
        } else {
            None
        }
    }

    /// Holds the code point of `c` from now on.
    pub fn set_char(&mut self, c: char)
        ensures
            final(self).0 == c as u32,
    {
        self.0 = c as u32;
    }
}

/// The value of a field.
#[derive(Debug, PartialEq)]
pub enum Field {
    Byte(u8),
    ExoLocString(ExoLocString),
    ExoString(ExoString),
    /// The value may be above 255, so all 32 bits are kept.
    Char(U32Char),
    ResRef(ResRef),
    /// The 64 bits of an IEEE-754 number of double precision.
    Double(u64),
    DWord(u32),
    DWord64(u64),
    /// The 32 bits of an IEEE-754 number of single precision.
    Float(u32),
    Int(i32),
    Int64(i64),
    Short(i16),
    Void(Void),
    Word(u16),
    Struct(Struct),
    List(Vec<Struct>),
}

/// What the value of a field is, as plain values.
pub enum FieldView {
    Byte(u8),
    ExoLocString(ExoLocStringView),
    ExoString(Seq<u8>),
    Char(u32),
    ResRef(Seq<u8>),
    Double(u64),
    DWord(u32),
    DWord64(u64),
    Float(u32),
    Int(i32),
    Int64(i64),
    Short(i16),
    Void(Seq<u8>),
    Word(u16),
    Struct(StructView),
    List(Seq<StructView>),
}

impl FieldView {
    /// The kind of the value.
    pub open spec fn field_type(self) -> FieldType {
        match self {
            FieldView::Byte(_) => FieldType::Byte,
            FieldView::ExoLocString(_) => FieldType::ExoLocString,
            FieldView::ExoString(_) => FieldType::ExoString,
            FieldView::Char(_) => FieldType::Char,
            FieldView::ResRef(_) => FieldType::ResRef,
            FieldView::Double(_) => FieldType::Double,
            FieldView::DWord(_) => FieldType::DWord,
            FieldView::DWord64(_) => FieldType::DWord64,
            FieldView::Float(_) => FieldType::Float,
            FieldView::Int(_) => FieldType::Int,
            FieldView::Int64(_) => FieldType::Int64,
            FieldView::Short(_) => FieldType::Short,
            FieldView::Void(_) => FieldType::Void,
            FieldView::Word(_) => FieldType::Word,
            FieldView::Struct(_) => FieldType::Struct,
            FieldView::List(_) => FieldType::List,
        }
    }
}

impl View for Field {
    type V = FieldView;

    open spec fn view(&self) -> FieldView
        decreases self,
    {
        match self {
            Field::Byte(v) => FieldView::Byte(*v),
            Field::ExoLocString(v) => FieldView::ExoLocString(v@),
            Field::ExoString(v) => FieldView::ExoString(v@),
            Field::Char(v) => FieldView::Char(v.0),
            Field::ResRef(v) => FieldView::ResRef(v@),
            Field::Double(v) => FieldView::Double(*v),
            Field::DWord(v) => FieldView::DWord(*v),
            Field::DWord64(v) => FieldView::DWord64(*v),
            Field::Float(v) => FieldView::Float(*v),
            Field::Int(v) => FieldView::Int(*v),
            Field::Int64(v) => FieldView::Int64(*v),
            Field::Short(v) => FieldView::Short(*v),
            Field::Void(v) => FieldView::Void(v@),
            Field::Word(v) => FieldView::Word(*v),
            Field::Struct(v) => FieldView::Struct(v@),
            Field::List(l) => FieldView::List(struct_views(l@)),
        }
    }
}

impl Clone for Field {
    fn clone(&self) -> (r: Self)
        ensures
            r@ == self@,
    {
        self.duplicate()
    }
}

impl Clone for LabeledField {
    fn clone(&self) -> (r: Self)
        ensures
            r@ == self@,
    {
        LabeledField { label: self.label.clone(), field: self.field.duplicate() }
    }
}

impl Field {
    /// A copy of the value with everything below it.
    pub fn duplicate(&self) -> (r: Self)
        ensures
            r@ == self@,
        decreases self, 0nat,
    {
        match self {
            Field::Byte(v) => Field::Byte(*v),
            Field::ExoLocString(v) => Field::ExoLocString(v.clone()),
            Field::ExoString(v) => Field::ExoString(v.clone()),
            Field::Char(v) => Field::Char(*v),
            Field::ResRef(v) => Field::ResRef(v.clone()),
            Field::Double(v) => Field::Double(*v),
            Field::DWord(v) => Field::DWord(*v),
            Field::DWord64(v) => Field::DWord64(*v),
            Field::Float(v) => Field::Float(*v),
            Field::Int(v) => Field::Int(*v),
            Field::Int64(v) => Field::Int64(*v),
            Field::Short(v) => Field::Short(*v),
            Field::Void(v) => Field::Void(v.clone()),
            Field::Word(v) => Field::Word(*v),
            Field::Struct(v) => Field::Struct(v.duplicate()),
            Field::List(l) => Field::List(crate::files::gff::structs::duplicate_structs(l)),
        }
    }

    /// The kind of the value.
    pub fn get_field_type(&self) -> (r: FieldType)
        ensures
            r == self@.field_type(),
    {
        match self {
            Field::Byte(_) => FieldType::Byte,
            Field::ExoLocString(_) => FieldType::ExoLocString,
            Field::ExoString(_) => FieldType::ExoString,
            Field::Char(_) => FieldType::Char,
            Field::ResRef(_) => FieldType::ResRef,
            Field::Double(_) => FieldType::Double,
            Field::DWord(_) => FieldType::DWord,
            Field::DWord64(_) => FieldType::DWord64,
            Field::Float(_) => FieldType::Float,
            Field::Int(_) => FieldType::Int,
            Field::Int64(_) => FieldType::Int64,
            Field::Short(_) => FieldType::Short,
            Field::Void(_) => FieldType::Void,
            Field::Word(_) => FieldType::Word,
            Field::Struct(_) => FieldType::Struct,
            Field::List(_) => FieldType::List,
        }
    }
}

impl Field {
    /// The error that says that a value of another kind was expected.
    pub open spec fn spec_unexpected(&self) -> Error {
        Error::EnumError { enum_type: EnumType::Field, value: self@.field_type().spec_as_num() as u32 }
    }

    /// The error that says that a value of another kind was expected: an
    /// `EnumError` that carries the number of the kind that was found.
    pub fn unexpected(&self) -> (e: Error)
        ensures
            e == self.spec_unexpected(),
    {
        Error::EnumError { enum_type: EnumType::Field, value: self.get_field_type().as_num() as u32 }
    }

    /// The value, if it is a byte; else the error of [`Field::unexpected`].
    pub fn expect_byte(&self) -> (r: Result<u8, Error>)
        ensures
            match r {
                Ok(x) => *self == Field::Byte(x),
                Err(e) => !(self is Byte) && e == self.spec_unexpected(),
            },
    {
        match self {
            Field::Byte(x) => Ok(*x),
            _ => Err(self.unexpected()),
        }
    }

    /// The value, if it is a byte.
    pub fn try_byte(&self) -> (r: Option<u8>)
        ensures
            match r {
                Some(x) => *self == Field::Byte(x),
                None => !(self is Byte),
            },
    {
        match self {
            Field::Byte(x) => Some(*x),
            _ => None,
        }
    }

    /// The value, if it is a character; else the error of [`Field::unexpected`].
    pub fn expect_char(&self) -> (r: Result<U32Char, Error>)
        ensures
            match r {
                Ok(x) => *self == Field::Char(x),
                Err(e) => !(self is Char) && e == self.spec_unexpected(),
            },
    {
        match self {
            Field::Char(x) => Ok(*x),
            _ => Err(self.unexpected()),
        }
    }

    /// The value, if it is a character.
    pub fn try_char(&self) -> (r: Option<U32Char>)
        ensures
            match r {
                Some(x) => *self == Field::Char(x),
                None => !(self is Char),
            },
    {
        match self {
            Field::Char(x) => Some(*x),
            _ => None,
        }
    }

    /// The value, if it is a number of double precision; else the error of [`Field::unexpected`].
    pub fn expect_double(&self) -> (r: Result<u64, Error>)
        ensures
            match r {
                Ok(x) => *self == Field::Double(x),
                Err(e) => !(self is Double) && e == self.spec_unexpected(),
            },
    {
        match self {
            Field::Double(x) => Ok(*x),
            _ => Err(self.unexpected()),
        }
    }

    /// The value, if it is a number of double precision.
    pub fn try_double(&self) -> (r: Option<u64>)
        ensures
            match r {
                Some(x) => *self == Field::Double(x),
                None => !(self is Double),
            },
    {
        match self {
            Field::Double(x) => Some(*x),
            _ => None,
        }
    }

    /// The value, if it is an unsigned number of 64 bits; else the error of [`Field::unexpected`].
    pub fn expect_dword64(&self) -> (r: Result<u64, Error>)
        ensures
            match r {
                Ok(x) => *self == Field::DWord64(x),
                Err(e) => !(self is DWord64) && e == self.spec_unexpected(),
            },
    {
        match self {
            Field::DWord64(x) => Ok(*x),
            _ => Err(self.unexpected()),
        }
    }

    /// The value, if it is an unsigned number of 64 bits.
    pub fn try_dword64(&self) -> (r: Option<u64>)
        ensures
            match r {
                Some(x) => *self == Field::DWord64(x),
                None => !(self is DWord64),
            },
    {
        match self {
            Field::DWord64(x) => Some(*x),
            _ => None,
        }
    }

    /// The value, if it is an unsigned number of 32 bits; else the error of [`Field::unexpected`].
    pub fn expect_dword(&self) -> (r: Result<u32, Error>)
        ensures
            match r {
                Ok(x) => *self == Field::DWord(x),
                Err(e) => !(self is DWord) && e == self.spec_unexpected(),
            },
    {
        match self {
            Field::DWord(x) => Ok(*x),
            _ => Err(self.unexpected()),
        }
    }

    /// The value, if it is an unsigned number of 32 bits.
    pub fn try_dword(&self) -> (r: Option<u32>)
        ensures
            match r {
                Some(x) => *self == Field::DWord(x),
                None => !(self is DWord),
            },
    {
        match self {
            Field::DWord(x) => Some(*x),
            _ => None,
        }
    }

    /// The value, if it is a localized string; else the error of [`Field::unexpected`].
    pub fn expect_exolocstring(&self) -> (r: Result<&ExoLocString, Error>)
        ensures
            match r {
                Ok(x) => *self == Field::ExoLocString(*x),
                Err(e) => !(self is ExoLocString) && e == self.spec_unexpected(),
            },
    {
        match self {
            Field::ExoLocString(x) => Ok(x),
            _ => Err(self.unexpected()),
        }
    }

    /// The value, if it is a localized string.
    pub fn try_exolocstring(&self) -> (r: Option<&ExoLocString>)
        ensures
            match r {
                Some(x) => *self == Field::ExoLocString(*x),
                None => !(self is ExoLocString),
            },
    {
        match self {
            Field::ExoLocString(x) => Some(x),
            _ => None,
        }
    }

    /// The value, if it is a string; else the error of [`Field::unexpected`].
    pub fn expect_exostring(&self) -> (r: Result<&ExoString, Error>)
        ensures
            match r {
                Ok(x) => *self == Field::ExoString(*x),
                Err(e) => !(self is ExoString) && e == self.spec_unexpected(),
            },
    {
        match self {
            Field::ExoString(x) => Ok(x),
            _ => Err(self.unexpected()),
        }
    }

    /// The value, if it is a string.
    pub fn try_exostring(&self) -> (r: Option<&ExoString>)
        ensures
            match r {
                Some(x) => *self == Field::ExoString(*x),
                None => !(self is ExoString),
            },
    {
        match self {
            Field::ExoString(x) => Some(x),
            _ => None,
        }
    }

    /// The value, if it is a number of single precision; else the error of [`Field::unexpected`].
    pub fn expect_float(&self) -> (r: Result<u32, Error>)
        ensures
            match r {
                Ok(x) => *self == Field::Float(x),
                Err(e) => !(self is Float) && e == self.spec_unexpected(),
            },
    {
        match self {
            Field::Float(x) => Ok(*x),
            _ => Err(self.unexpected()),
        }
    }

    /// The value, if it is a number of single precision.
    pub fn try_float(&self) -> (r: Option<u32>)
        ensures
            match r {
                Some(x) => *self == Field::Float(x),
                None => !(self is Float),
            },
    {
        match self {
            Field::Float(x) => Some(*x),
            _ => None,
        }
    }

    /// The value, if it is a signed number of 64 bits; else the error of [`Field::unexpected`].
    pub fn expect_int64(&self) -> (r: Result<i64, Error>)
        ensures
            match r {
                Ok(x) => *self == Field::Int64(x),
                Err(e) => !(self is Int64) && e == self.spec_unexpected(),
            },
    {
        match self {
            Field::Int64(x) => Ok(*x),
            _ => Err(self.unexpected()),
        }
    }

    /// The value, if it is a signed number of 64 bits.
    pub fn try_int64(&self) -> (r: Option<i64>)
        ensures
            match r {
                Some(x) => *self == Field::Int64(x),
                None => !(self is Int64),
            },
    {
        match self {
            Field::Int64(x) => Some(*x),
            _ => None,
        }
    }

    /// The value, if it is a signed number of 32 bits; else the error of [`Field::unexpected`].
    pub fn expect_int(&self) -> (r: Result<i32, Error>)
        ensures
            match r {
                Ok(x) => *self == Field::Int(x),
                Err(e) => !(self is Int) && e == self.spec_unexpected(),
            },
    {
        match self {
            Field::Int(x) => Ok(*x),
            _ => Err(self.unexpected()),
        }
    }

    /// The value, if it is a signed number of 32 bits.
    pub fn try_int(&self) -> (r: Option<i32>)
        ensures
            match r {
                Some(x) => *self == Field::Int(x),
                None => !(self is Int),
            },
    {
        match self {
            Field::Int(x) => Some(*x),
            _ => None,
        }
    }

    /// The value, if it is a list; else the error of [`Field::unexpected`].
    pub fn expect_list(&self) -> (r: Result<&Vec<Struct>, Error>)
        ensures
            match r {
                Ok(x) => *self == Field::List(*x),
                Err(e) => !(self is List) && e == self.spec_unexpected(),
            },
    {
        match self {
            Field::List(x) => Ok(x),
            _ => Err(self.unexpected()),
        }
    }

    /// The value, if it is a list.
    pub fn try_list(&self) -> (r: Option<&Vec<Struct>>)
        ensures
            match r {
                Some(x) => *self == Field::List(*x),
                None => !(self is List),
            },
    {
        match self {
            Field::List(x) => Some(x),
            _ => None,
        }
    }

    /// The value, if it is the name of a resource; else the error of [`Field::unexpected`].
    pub fn expect_resref(&self) -> (r: Result<&ResRef, Error>)
        ensures
            match r {
                Ok(x) => *self == Field::ResRef(*x),
                Err(e) => !(self is ResRef) && e == self.spec_unexpected(),
            },
    {
        match self {
            Field::ResRef(x) => Ok(x),
            _ => Err(self.unexpected()),
        }
    }

    /// The value, if it is the name of a resource.
    pub fn try_resref(&self) -> (r: Option<&ResRef>)
        ensures
            match r {
                Some(x) => *self == Field::ResRef(*x),
                None => !(self is ResRef),
            },
    {
        match self {
            Field::ResRef(x) => Some(x),
            _ => None,
        }
    }

    /// The value, if it is a signed number of 16 bits; else the error of [`Field::unexpected`].
    pub fn expect_short(&self) -> (r: Result<i16, Error>)
        ensures
            match r {
                Ok(x) => *self == Field::Short(x),
                Err(e) => !(self is Short) && e == self.spec_unexpected(),
            },
    {
        match self {
            Field::Short(x) => Ok(*x),
            _ => Err(self.unexpected()),
        }
    }

    /// The value, if it is a signed number of 16 bits.
    pub fn try_short(&self) -> (r: Option<i16>)
        ensures
            match r {
                Some(x) => *self == Field::Short(x),
                None => !(self is Short),
            },
    {
        match self {
            Field::Short(x) => Some(*x),
            _ => None,
        }
    }

    /// The value, if it is a struct; else the error of [`Field::unexpected`].
    pub fn expect_struct(&self) -> (r: Result<&Struct, Error>)
        ensures
            match r {
                Ok(x) => *self == Field::Struct(*x),
                Err(e) => !(self is Struct) && e == self.spec_unexpected(),
            },
    {
        match self {
            Field::Struct(x) => Ok(x),
            _ => Err(self.unexpected()),
        }
    }

    /// The value, if it is a struct.
    pub fn try_struct(&self) -> (r: Option<&Struct>)
        ensures
            match r {
                Some(x) => *self == Field::Struct(*x),
                None => !(self is Struct),
            },
    {
        match self {
            Field::Struct(x) => Some(x),
            _ => None,
        }
    }

    /// The value, if it is opaque bytes; else the error of [`Field::unexpected`].
    pub fn expect_void(&self) -> (r: Result<&Void, Error>)
        ensures
            match r {
                Ok(x) => *self == Field::Void(*x),
                Err(e) => !(self is Void) && e == self.spec_unexpected(),
            },
    {
        match self {
            Field::Void(x) => Ok(x),
            _ => Err(self.unexpected()),
        }
    }

    /// The value, if it is opaque bytes.
    pub fn try_void(&self) -> (r: Option<&Void>)
        ensures
            match r {
                Some(x) => *self == Field::Void(*x),
                None => !(self is Void),
            },
    {
        match self {
            Field::Void(x) => Some(x),
            _ => None,
        }
    }

    /// The value, if it is an unsigned number of 16 bits; else the error of [`Field::unexpected`].
    pub fn expect_word(&self) -> (r: Result<u16, Error>)
        ensures
            match r {
                Ok(x) => *self == Field::Word(x),
                Err(e) => !(self is Word) && e == self.spec_unexpected(),
            },
    {
        match self {
            Field::Word(x) => Ok(*x),
            _ => Err(self.unexpected()),
        }
    }

    /// The value, if it is an unsigned number of 16 bits.
    pub fn try_word(&self) -> (r: Option<u16>)
        ensures
            match r {
                Some(x) => *self == Field::Word(x),
                None => !(self is Word),
            },
    {
        match self {
            Field::Word(x) => Some(*x),
            _ => None,
        }
    }
}

impl From<u8> for Field {
    fn from(value: u8) -> (r: Field) {
        Field::Byte(value)
    }
}

impl vstd::std_specs::convert::FromSpecImpl<u8> for Field {
    open spec fn obeys_from_spec() -> bool {
        true
    }

    open spec fn from_spec(value: u8) -> Field {
        Field::Byte(value)
    }
}

impl From<ExoLocString> for Field {
    fn from(value: ExoLocString) -> (r: Field) {
        Field::ExoLocString(value)
    }
}

impl vstd::std_specs::convert::FromSpecImpl<ExoLocString> for Field {
    open spec fn obeys_from_spec() -> bool {
        true
    }

    open spec fn from_spec(value: ExoLocString) -> Field {
        Field::ExoLocString(value)
    }
}

impl From<ExoString> for Field {
    fn from(value: ExoString) -> (r: Field) {
        Field::ExoString(value)
    }
}

impl vstd::std_specs::convert::FromSpecImpl<ExoString> for Field {
    open spec fn obeys_from_spec() -> bool {
        true
    }

    open spec fn from_spec(value: ExoString) -> Field {
        Field::ExoString(value)
    }
}

impl From<U32Char> for Field {
    fn from(value: U32Char) -> (r: Field) {
        Field::Char(value)
    }
}

impl vstd::std_specs::convert::FromSpecImpl<U32Char> for Field {
    open spec fn obeys_from_spec() -> bool {
        true
    }

    open spec fn from_spec(value: U32Char) -> Field {
        Field::Char(value)
    }
}

impl From<ResRef> for Field {
    fn from(value: ResRef) -> (r: Field) {
        Field::ResRef(value)
    }
}

impl vstd::std_specs::convert::FromSpecImpl<ResRef> for Field {
    open spec fn obeys_from_spec() -> bool {
        true
    }

    open spec fn from_spec(value: ResRef) -> Field {
        Field::ResRef(value)
    }
}

impl From<u32> for Field {
    fn from(value: u32) -> (r: Field) {
        Field::DWord(value)
    }
}

impl vstd::std_specs::convert::FromSpecImpl<u32> for Field {
    open spec fn obeys_from_spec() -> bool {
        true
    }

    open spec fn from_spec(value: u32) -> Field {
        Field::DWord(value)
    }
}

impl From<u64> for Field {
    fn from(value: u64) -> (r: Field) {
        Field::DWord64(value)
    }
}

impl vstd::std_specs::convert::FromSpecImpl<u64> for Field {
    open spec fn obeys_from_spec() -> bool {
        true
    }

    open spec fn from_spec(value: u64) -> Field {
        Field::DWord64(value)
    }
}

impl From<i32> for Field {
    fn from(value: i32) -> (r: Field) {
        Field::Int(value)
    }
}

impl vstd::std_specs::convert::FromSpecImpl<i32> for Field {
    open spec fn obeys_from_spec() -> bool {
        true
    }

    open spec fn from_spec(value: i32) -> Field {
        Field::Int(value)
    }
}

impl From<i64> for Field {
    fn from(value: i64) -> (r: Field) {
        Field::Int64(value)
    }
}

impl vstd::std_specs::convert::FromSpecImpl<i64> for Field {
    open spec fn obeys_from_spec() -> bool {
        true
    }

    open spec fn from_spec(value: i64) -> Field {
        Field::Int64(value)
    }
}

impl From<i16> for Field {
    fn from(value: i16) -> (r: Field) {
        Field::Short(value)
    }
}

impl vstd::std_specs::convert::FromSpecImpl<i16> for Field {
    open spec fn obeys_from_spec() -> bool {
        true
    }

    open spec fn from_spec(value: i16) -> Field {
        Field::Short(value)
    }
}

impl From<Void> for Field {
    fn from(value: Void) -> (r: Field) {
        Field::Void(value)
    }
}

impl vstd::std_specs::convert::FromSpecImpl<Void> for Field {
    open spec fn obeys_from_spec() -> bool {
        true
    }

    open spec fn from_spec(value: Void) -> Field {
        Field::Void(value)
    }
}

impl From<u16> for Field {
    fn from(value: u16) -> (r: Field) {
        Field::Word(value)
    }
}

impl vstd::std_specs::convert::FromSpecImpl<u16> for Field {
    open spec fn obeys_from_spec() -> bool {
        true
    }

    open spec fn from_spec(value: u16) -> Field {
        Field::Word(value)
    }
}

impl From<Struct> for Field {
    fn from(value: Struct) -> (r: Field) {
        Field::Struct(value)
    }
}

impl vstd::std_specs::convert::FromSpecImpl<Struct> for Field {
    open spec fn obeys_from_spec() -> bool {
        true
    }

    open spec fn from_spec(value: Struct) -> Field {
        Field::Struct(value)
    }
}

impl From<Vec<Struct>> for Field {
    fn from(value: Vec<Struct>) -> (r: Field) {
        Field::List(value)
    }
}

impl vstd::std_specs::convert::FromSpecImpl<Vec<Struct>> for Field {
    open spec fn obeys_from_spec() -> bool {
        true
    }

    open spec fn from_spec(value: Vec<Struct>) -> Field {
        Field::List(value)
    }
}

/// A value together with the name of its field.
#[derive(Debug, PartialEq)]
pub struct LabeledField {
    pub label: Label,
    pub field: Field,
}

/// What a named value is, as plain values.
pub struct LabeledFieldView {
    pub label: Seq<u8>,
    pub field: FieldView,
}

impl View for LabeledField {
    type V = LabeledFieldView;

    open spec fn view(&self) -> LabeledFieldView
        decreases self,
    {
        LabeledFieldView { label: self.label@, field: self.field@ }
    }
}

impl LabeledField {
    /// The value `field` under the name `label`.
    pub fn new(label: Label, field: Field) -> (r: Self)
        ensures
            r.label == label,
            r.field == field,
    {
        Self { label, field }
    }
}

} // verus!
