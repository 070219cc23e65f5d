//! The errors that reading and writing report.

use crate::decimal::{digits_of, push_decimal};
use vstd::prelude::*;

verus! {

/// Why some bytes could not be read as the value that was asked for.
#[derive(Debug, Clone, Copy, PartialEq, Eq, Structural)]
pub enum ParseFault {
    /// The input ends before the value does.
    UnexpectedEof,
    /// A four-character tag is not valid UTF-8.
    InvalidUtf8,
    /// An index or an offset points outside the array it refers to.
    OutOfRange,
    /// Structs are nested more deeply than the file has structs, which only
    /// happens when a struct contains itself.
    NestingTooDeep,
    /// The size that a localized string declares differs from the size of its parts.
    SizeMismatch,
    /// A text is longer than [`crate::files::MAX_TEXT_LEN`] bytes.
    TooLong,
    /// The file has no struct, so not even the top-level one.
    MissingRoot,
    /// A table does not start with the line that names its format.
    BadHeader,
    /// A table has no line that names its columns.
    MissingTableHeader,
    /// A line of a table does not start with the number of its row.
    BadRowIndex,
    /// A text is no decimal number, or one that is too large.
    BadNumber,
}

/// Why a value could not be written.
#[derive(Debug, Clone, Copy, PartialEq, Eq, Structural)]
pub enum WriteFault {
    /// A count, an index or an offset does not fit the 32 bits that the format gives it.
    TooLarge,
}

/// The enumerations that are stored as numbers.
#[derive(Debug, Clone, Copy, PartialEq, Eq, Structural)]
pub enum EnumType {
    FieldType,
    Language,
    Gender,
    /// The kinds of value that a field holds.
    Field,
}

/// A number that names no case of the enumeration it was read for.
#[derive(Debug, Clone, Copy, PartialEq, Eq, Structural)]
pub struct EnumError {
    pub enum_type: EnumType,
    pub value: u32,
}

#[derive(Debug, Clone, Copy, PartialEq, Eq, Structural)]
pub enum Error {
    /// The input is truncated or malformed.
    ParseError(ParseFault),
    /// The value cannot be represented in the format.
    WriteError(WriteFault),
    /// A string reference that the talk table does not hold.
    InvalidStrRef { value: u32 },
    /// A number that names no case of an enumeration.
    EnumError { enum_type: EnumType, value: u32 },
    /// The offset of a struct with several fields is not a multiple of four.
    AlignmentError { offset: u32 },
}

/// The four kinds of error.
#[derive(Debug, Clone, Copy, PartialEq, Eq, Structural)]
pub enum ErrorKind {
    /// The input is truncated or malformed: it ends too early, a text is
    /// not encoded as it must be, or a number names no case of an enumeration.
    Parse,
    /// The offset of a struct with several fields is not a multiple of four.
    Alignment,
    /// The value cannot be written.
    Write,
    /// A string reference was looked up and not found.
    Lookup,
}

impl Error {
    /// The kind of this error.
    pub open spec fn spec_kind(&self) -> ErrorKind {
        match self {
            Error::ParseError(_) => ErrorKind::Parse,
            Error::EnumError { .. } => ErrorKind::Parse,
            Error::AlignmentError { .. } => ErrorKind::Alignment,
            Error::WriteError(_) => ErrorKind::Write,
            Error::InvalidStrRef { .. } => ErrorKind::Lookup,
        }
    }

    /// The kind of this error.
    #[verifier::when_used_as_spec(spec_kind)]
    pub fn kind(&self) -> (r: ErrorKind)
        ensures
            r == self.spec_kind(),
    {
        match self {
            Error::ParseError(_) => ErrorKind::Parse,
            Error::EnumError { .. } => ErrorKind::Parse,
            Error::AlignmentError { .. } => ErrorKind::Alignment,
            Error::WriteError(_) => ErrorKind::Write,
            Error::InvalidStrRef { .. } => ErrorKind::Lookup,
        }
    }

    /// The error that reports `e`.
    pub fn from_enum_error(e: EnumError) -> (r: Error)
        ensures
            r == (Error::EnumError { enum_type: e.enum_type, value: e.value }),
    {
        Error::EnumError { enum_type: e.enum_type, value: e.value }
    }

    /// Whether this error reports truncated or malformed input.
    pub fn is_parse_error(&self) -> (r: bool)
        ensures
            r == (self.spec_kind() == ErrorKind::Parse),
    {
        match self {
            Error::ParseError(_) => true,
            Error::EnumError { .. } => true,
            _ => false,
        }
    }
}

impl ParseFault {
    /// What the fault is, in words.
    pub open spec fn spec_text(&self) -> Seq<char> {
        match self {
            ParseFault::UnexpectedEof => "the input ends too early"@,
            ParseFault::InvalidUtf8 => "a tag is not valid UTF-8"@,
            ParseFault::OutOfRange => "an index or an offset lies outside its section"@,
            ParseFault::NestingTooDeep => "a struct contains itself"@,
            ParseFault::SizeMismatch => "a localized string has another size than it declares"@,
            ParseFault::TooLong => "a text is too long"@,
            ParseFault::MissingRoot => "the file has no struct"@,
            ParseFault::BadHeader => "the table does not name its format"@,
            ParseFault::MissingTableHeader => "the table does not name its columns"@,
            ParseFault::BadRowIndex => "a row does not start with its number"@,
            ParseFault::BadNumber => "a text is no number"@,
        }
    }

    /// What the fault is, in words.
    pub fn text(&self) -> (r: &'static str)
        ensures
            r@ == self.spec_text(),
    {
        match self {
            ParseFault::UnexpectedEof => "the input ends too early",
            ParseFault::InvalidUtf8 => "a tag is not valid UTF-8",
            ParseFault::OutOfRange => "an index or an offset lies outside its section",
            ParseFault::NestingTooDeep => "a struct contains itself",
            ParseFault::SizeMismatch => "a localized string has another size than it declares",
            ParseFault::TooLong => "a text is too long",
            ParseFault::MissingRoot => "the file has no struct",
            ParseFault::BadHeader => "the table does not name its format",
            ParseFault::MissingTableHeader => "the table does not name its columns",
            ParseFault::BadRowIndex => "a row does not start with its number",
            ParseFault::BadNumber => "a text is no number",
        }
    }
}

impl EnumType {
    /// The name of the enumeration.
    pub open spec fn spec_name(&self) -> Seq<char> {
        match self {
            EnumType::FieldType => "FieldType"@,
            EnumType::Language => "Language"@,
            EnumType::Gender => "Gender"@,
            EnumType::Field => "Field"@,
        }
    }

    /// The name of the enumeration.
    pub fn name(&self) -> (r: &'static str)
        ensures
            r@ == self.spec_name(),
    {
        match self {
            EnumType::FieldType => "FieldType",
            EnumType::Language => "Language",
            EnumType::Gender => "Gender",
            EnumType::Field => "Field",
        }
    }
}

impl Error {
    /// What the error says, in words: the kind of error, and after a colon
    /// the fault, or the number that was not expected or not found.
    pub open spec fn spec_message(&self) -> Seq<char> {
        match self {
            Error::ParseError(fault) => "parse error: "@ + fault.spec_text(),
            Error::WriteError(_) => "write error: a number does not fit in 32 bits"@,
            Error::InvalidStrRef { value } => "string reference not found: "@ + digits_of(
                *value as nat,
            ),
            Error::EnumError { enum_type, value } => "unexpected value for "@
                + enum_type.spec_name() + ": "@ + digits_of(*value as nat),
            Error::AlignmentError { offset } => "offset not aligned on four bytes: "@ + digits_of(
                *offset as nat,
            ),
        }
    }

    /// What the error says, in words.
    pub fn message(&self) -> (r: String)
        ensures
            r@ == self.spec_message(),
    {
        let mut out = String::new();
        match self {
            Error::ParseError(fault) => {
                out.append("parse error: ");
                out.append(fault.text());
            },
            Error::WriteError(_) => {
                out.append("write error: a number does not fit in 32 bits");
            },
            Error::InvalidStrRef { value } => {
                out.append("string reference not found: ");
                push_decimal(&mut out, *value as u64);
            },
            Error::EnumError { enum_type, value } => {
                out.append("unexpected value for ");
                out.append(enum_type.name());
                out.append(": ");
                push_decimal(&mut out, *value as u64);
            },
            Error::AlignmentError { offset } => {
                out.append("offset not aligned on four bytes: ");
                push_decimal(&mut out, *offset as u64);
            },
        }
        assert(out@ =~= self.spec_message());
        out
    }
}

/// An error together with the name of the file it came from.
#[derive(Debug, Clone)]
pub struct FileError {
    pub file: String,
    pub err: Error,
}

impl FileError {
    /// The error `e`, which came from the file with the name `file_name`.
    pub fn from_err(file_name: String, e: Error) -> (r: Self)
        ensures
            r.file == file_name,
            r.err == e,
    {
        Self { file: file_name, err: e }
    }

    /// The result `res`, whose error, if it is one, came from the file with
    /// the name `file_name`.
    pub fn from_result<T>(file_name: String, res: Result<T, Error>) -> (r: Result<T, Self>)
        ensures
            match res {
                Ok(v) => r == Ok::<T, Self>(v),
                Err(e) => r == Err::<T, Self>(FileError { file: file_name, err: e }),
            },
    {
        match res {
            Ok(v) => Ok(v),
            Err(e) => Err(Self { file: file_name, err: e }),
        }
    }
}

} // verus!
