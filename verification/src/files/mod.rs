//! The file formats, and the byte-level reading and writing they share.

pub mod gff;
pub mod offset;
pub mod res_ref;
pub mod text;
pub mod tlk;
pub mod two_da;

use crate::error::{EnumError, EnumType, Error, ParseFault};
use vstd::prelude::*;

pub use offset::Offset;

verus! {

/// The longest text, in bytes, that this library reads or holds.
pub const MAX_TEXT_LEN: usize = 0x00ff_ffff;

/// The language of a substring of a localized string.
#[derive(Debug, Clone, Copy, PartialEq, Eq, Structural)]
pub enum Language {
    English,
    French,
    German,
    Italian,
    Spanish,
    Polish,
    Korean,
    ChineseTraditional,
    ChineseSimplified,
    Japanese,
}

impl Language {
    /// The number that stands for this language in a file.
    pub open spec fn spec_as_num(&self) -> u8 {
        match self {
            Language::English => 0,
            Language::French => 1,
            Language::German => 2,
            Language::Italian => 3,
            Language::Spanish => 4,
            Language::Polish => 5,
            Language::Korean => 128,
            Language::ChineseTraditional => 129,
            Language::ChineseSimplified => 130,
            Language::Japanese => 131,
        }
    }

    /// The language that `value` stands for, if any.
    pub open spec fn spec_from_num(value: u8) -> Option<Language> {
        match value {
            0 => Some(Language::English),
            1 => Some(Language::French),
            2 => Some(Language::German),
            3 => Some(Language::Italian),
            4 => Some(Language::Spanish),
            5 => Some(Language::Polish),
            128 => Some(Language::Korean),
            129 => Some(Language::ChineseTraditional),
            130 => Some(Language::ChineseSimplified),
            131 => Some(Language::Japanese),
            _ => None,
        }
    }

    /// The number that stands for this language in a file.
    #[verifier::when_used_as_spec(spec_as_num)]
    pub fn as_num(&self) -> (r: u8)
        ensures
            r == self.spec_as_num(),
            Language::spec_from_num(r) == Some(*self),
    {
        match self {
            Language::English => 0,
            Language::French => 1,
            Language::German => 2,
            Language::Italian => 3,
            Language::Spanish => 4,
            Language::Polish => 5,
            Language::Korean => 128,
            Language::ChineseTraditional => 129,
            Language::ChineseSimplified => 130,
            Language::Japanese => 131,
        }
    }

    /// The language that `value` stands for; an `EnumError` carrying `value` if there is none.
    pub fn try_from(value: u8) -> (r: Result<Language, EnumError>)
        ensures
            match Language::spec_from_num(value) {
                Some(l) => r == Ok::<Language, EnumError>(l),
                None => r == Err::<Language, EnumError>(
                    EnumError { enum_type: EnumType::Language, value: value as u32 },
                ),
            },
    {
        match value {
            0 => Ok(Language::English),
            1 => Ok(Language::French),
            2 => Ok(Language::German),
            3 => Ok(Language::Italian),
            4 => Ok(Language::Spanish),
            5 => Ok(Language::Polish),
            128 => Ok(Language::Korean),
            129 => Ok(Language::ChineseTraditional),
            130 => Ok(Language::ChineseSimplified),
            131 => Ok(Language::Japanese),
            _ => Err(EnumError { enum_type: EnumType::Language, value: value as u32 }),
        }
    }
}

impl Default for Language {
    fn default() -> (r: Self)
        ensures
            r == Language::English,
    {
        Language::English
    }
}

/// The grammatical gender of a substring of a localized string.
#[derive(Debug, Clone, Copy, PartialEq, Eq, Structural)]
pub enum Gender {
    Masculine,
    Feminine,
}

impl Gender {
    /// The number that stands for this gender in a file.
    pub open spec fn spec_as_num(&self) -> u8 {
        match self {
            Gender::Masculine => 0,
            Gender::Feminine => 1,
        }
    }

    /// The gender that `value` stands for, if any.
    pub open spec fn spec_from_num(value: u8) -> Option<Gender> {
        match value {
            0 => Some(Gender::Masculine),
            1 => Some(Gender::Feminine),
            _ => None,
        }
    }

    /// The number that stands for this gender in a file.
    #[verifier::when_used_as_spec(spec_as_num)]
    pub fn as_num(&self) -> (r: u8)
        ensures
            r == self.spec_as_num(),
            Gender::spec_from_num(r) == Some(*self),
    {
        match self {
            Gender::Masculine => 0,
            Gender::Feminine => 1,
        }
    }

    /// The gender that `value` stands for; an `EnumError` carrying `value` if there is none.
    pub fn try_from(value: u8) -> (r: Result<Gender, EnumError>)
        ensures
            match Gender::spec_from_num(value) {
                Some(g) => r == Ok::<Gender, EnumError>(g),
                None => r == Err::<Gender, EnumError>(
                    EnumError { enum_type: EnumType::Gender, value: value as u32 },
                ),
            },
    {
        match value {
            0 => Ok(Gender::Masculine),
            1 => Ok(Gender::Feminine),
            _ => Err(EnumError { enum_type: EnumType::Gender, value: value as u32 }),
        }
    }
}

impl Default for Gender {
    fn default() -> (r: Self)
        ensures
            r == Gender::Masculine,
    {
        Gender::Masculine
    }
}

/// The number whose little-endian encoding is the first two bytes of `b`.
pub open spec fn u16_le(b: Seq<u8>) -> u16
    recommends
        b.len() >= 2,
{
    (b[0] as int + b[1] as int * 0x100) as u16
}

/// The number whose little-endian encoding is the first four bytes of `b`.
pub open spec fn u32_le(b: Seq<u8>) -> u32
    recommends
        b.len() >= 4,
{
    (b[0] as int + b[1] as int * 0x100 + b[2] as int * 0x1_0000 + b[3] as int * 0x100_0000) as u32
}

/// The number whose little-endian encoding is the first eight bytes of `b`.
pub open spec fn u64_le(b: Seq<u8>) -> u64
    recommends
        b.len() >= 8,
{
    (u32_le(b) as int + u32_le(b.subrange(4, 8)) as int * 0x1_0000_0000) as u64
}

/// The four bytes that encode `x`, least significant first.
pub open spec fn u32_le_bytes(x: u32) -> Seq<u8> {
    seq![
        (x % 0x100) as u8,
        (x / 0x100 % 0x100) as u8,
        (x / 0x100 / 0x100 % 0x100) as u8,
        (x / 0x100 / 0x100 / 0x100) as u8,
    ]
}

/// The eight bytes that encode `x`, least significant first.
pub open spec fn u64_le_bytes(x: u64) -> Seq<u8> {
    u32_le_bytes((x % 0x1_0000_0000) as u32) + u32_le_bytes((x / 0x1_0000_0000) as u32)
}

/// The signed number with the same 16 bits as `x`.
pub open spec fn u16_as_i16(x: u16) -> i16 {
    if x < 0x8000 {
        x as i16
    } else {
        (x - 0x1_0000) as i16
    }
}

/// The unsigned number with the same 16 bits as `x`.
pub open spec fn i16_as_u16(x: i16) -> u16 {
    if x >= 0 {
        x as u16
    } else {
        (x + 0x1_0000) as u16
    }
}

/// The signed number with the same 32 bits as `x`.
pub open spec fn u32_as_i32(x: u32) -> i32 {
    if x < 0x8000_0000 {
        x as i32
    } else {
        (x - 0x1_0000_0000) as i32
    }
}

/// The unsigned number with the same 32 bits as `x`.
pub open spec fn i32_as_u32(x: i32) -> u32 {
    if x >= 0 {
        x as u32
    } else {
        (x + 0x1_0000_0000) as u32
    }
}

/// The signed number with the same 64 bits as `x`.
pub open spec fn u64_as_i64(x: u64) -> i64 {
    if x < 0x8000_0000_0000_0000 {
        x as i64
    } else {
        (x - 0x1_0000_0000_0000_0000) as i64
    }
}

/// The unsigned number with the same 64 bits as `x`.
pub open spec fn i64_as_u64(x: i64) -> u64 {
    if x >= 0 {
        x as u64
    } else {
        (x + 0x1_0000_0000_0000_0000) as u64
    }
}

/// Decoding undoes encoding, and encoding undoes decoding, for 32-bit numbers.
pub proof fn lemma_u32_le_round_trip(x: u32, b: Seq<u8>)
    ensures
        u32_le_bytes(x).len() == 4,
        u32_le(u32_le_bytes(x)) == x,
        b.len() == 4 ==> u32_le_bytes(u32_le(b)) == b,
{
    let q1 = x as int / 0x100;
    let q2 = q1 / 0x100;
    let q3 = q2 / 0x100;
    assert(x as int == q1 * 0x100 + x as int % 0x100);
    assert(q1 == q2 * 0x100 + q1 % 0x100);
    assert(q2 == q3 * 0x100 + q2 % 0x100);
    assert(q3 < 0x100);
    assert(u32_le(u32_le_bytes(x)) == x);
    if b.len() == 4 {
        let v = b[0] as int + b[1] as int * 0x100 + b[2] as int * 0x1_0000 + b[3] as int
            * 0x100_0000;
        let k1 = b[1] as int + b[2] as int * 0x100 + b[3] as int * 0x1_0000;
        let k2 = b[2] as int + b[3] as int * 0x100;
        assert(v == k1 * 0x100 + b[0] as int);
        assert(v / 0x100 == k1 && v % 0x100 == b[0] as int);
        assert(k1 == k2 * 0x100 + b[1] as int);
        assert(k1 / 0x100 == k2 && k1 % 0x100 == b[1] as int);
        assert(k2 / 0x100 == b[3] as int && k2 % 0x100 == b[2] as int);
        assert(u32_le(b) as int == v);
        assert(u32_le_bytes(u32_le(b)) =~= b);
    }
}

/// Decoding undoes encoding, and encoding undoes decoding, for 64-bit numbers.
pub proof fn lemma_u64_le_round_trip(x: u64, b: Seq<u8>)
    ensures
        u64_le_bytes(x).len() == 8,
        u64_le(u64_le_bytes(x)) == x,
        b.len() == 8 ==> u64_le_bytes(u64_le(b)) == b,
{
    let lo = (x % 0x1_0000_0000) as u32;
    let hi = (x / 0x1_0000_0000) as u32;
    lemma_u32_le_round_trip(lo, b);
    lemma_u32_le_round_trip(hi, b);
    let e = u64_le_bytes(x);
    assert(e.subrange(4, 8) =~= u32_le_bytes(hi));
    assert(u32_le(e) == u32_le(u32_le_bytes(lo)));
    if b.len() == 8 {
        let l = b.subrange(0, 4);
        let h = b.subrange(4, 8);
        lemma_u32_le_round_trip(0, l);
        lemma_u32_le_round_trip(0, h);
        assert(u32_le(b) == u32_le(l));
        let v = u64_le(b);
        assert(v as int == u32_le(l) as int + u32_le(h) as int * 0x1_0000_0000);
        assert((v % 0x1_0000_0000) as u32 == u32_le(l));
        assert((v / 0x1_0000_0000) as u32 == u32_le(h));
        assert(u64_le_bytes(v) =~= l + h);
        assert(l + h =~= b);
    }
}

/// The signed and the unsigned reading of the same bits undo each other.
pub proof fn lemma_sign_round_trip(a: u16, b: u32, c: u64, d: i16, e: i32, f: i64)
    ensures
        i16_as_u16(u16_as_i16(a)) == a,
        i32_as_u32(u32_as_i32(b)) == b,
        i64_as_u64(u64_as_i64(c)) == c,
        u16_as_i16(i16_as_u16(d)) == d,
        u32_as_i32(i32_as_u32(e)) == e,
        u64_as_i64(i64_as_u64(f)) == f,
{
}

/// Reads the little-endian number in the first two bytes of `b`.
pub fn u16_from_le(b: &[u8]) -> (r: u16)
    requires
        b@.len() >= 2,
    ensures
        r == u16_le(b@),
{
    let b0: u16 = b[0] as u16;
    let b1: u16 = b[1] as u16;
    b0 + b1 * 0x100
}

/// Reads the little-endian number in the first four bytes of `b`.
pub fn u32_from_le(b: &[u8]) -> (r: u32)
    requires
        b@.len() >= 4,
    ensures
        r == u32_le(b@),
{
    let b0: u32 = b[0] as u32;
    let b1: u32 = b[1] as u32;
    let b2: u32 = b[2] as u32;
    let b3: u32 = b[3] as u32;
    b0 + b1 * 0x100 + b2 * 0x1_0000 + b3 * 0x100_0000
}

/// Reads the little-endian number in the first eight bytes of `b`.
pub fn u64_from_le(b: &[u8]) -> (r: u64)
    requires
        b@.len() >= 8,
    ensures
        r == u64_le(b@),
{
    let lo: u64 = u32_from_le(b) as u64;
    let hi: u64 = u32_from_le(vstd::slice::slice_subrange(b, 4, 8)) as u64;
    lo + hi * 0x1_0000_0000
}

/// Appends the four bytes of `x`, least significant first.
pub fn push_u32_le(out: &mut Vec<u8>, x: u32)
    ensures
        final(out)@ == old(out)@ + u32_le_bytes(x),
{
    out.push((x % 0x100) as u8);
    out.push((x / 0x100 % 0x100) as u8);
    out.push((x / 0x100 / 0x100 % 0x100) as u8);
    out.push((x / 0x100 / 0x100 / 0x100) as u8);
    assert(out@ =~= old(out)@ + u32_le_bytes(x));
}

/// Appends the eight bytes of `x`, least significant first.
pub fn push_u64_le(out: &mut Vec<u8>, x: u64)
    ensures
        final(out)@ == old(out)@ + u64_le_bytes(x),
{
    push_u32_le(out, (x % 0x1_0000_0000) as u32);
    push_u32_le(out, (x / 0x1_0000_0000) as u32);
    assert(out@ =~= old(out)@ + u64_le_bytes(x));
}

/// Reinterprets the 16 bits of `x` as a signed number.
pub fn u16_to_i16(x: u16) -> (r: i16)
    ensures
        r == u16_as_i16(x),
{
    if x < 0x8000 {
        x as i16
    } else {
        ((x - 0x8000) as i16) + i16::MIN
    }
}

/// Reinterprets the 16 bits of `x` as an unsigned number.
pub fn i16_to_u16(x: i16) -> (r: u16)
    ensures
        r == i16_as_u16(x),
{
    if x >= 0 {
        x as u16
    } else {
        ((x - i16::MIN) as u16) + 0x8000
    }
}

/// Reinterprets the 32 bits of `x` as a signed number.
pub fn u32_to_i32(x: u32) -> (r: i32)
    ensures
        r == u32_as_i32(x),
{
    if x < 0x8000_0000 {
        x as i32
    } else {
        ((x - 0x8000_0000) as i32) + i32::MIN
    }
}

/// Reinterprets the 32 bits of `x` as an unsigned number.
pub fn i32_to_u32(x: i32) -> (r: u32)
    ensures
        r == i32_as_u32(x),
{
    if x >= 0 {
        x as u32
    } else {
        ((x - i32::MIN) as u32) + 0x8000_0000
    }
}

/// Reinterprets the 64 bits of `x` as a signed number.
pub fn u64_to_i64(x: u64) -> (r: i64)
    ensures
        r == u64_as_i64(x),
{
    if x < 0x8000_0000_0000_0000 {
        x as i64
    } else {
        ((x - 0x8000_0000_0000_0000) as i64) + i64::MIN
    }
}

/// Reinterprets the 64 bits of `x` as an unsigned number.
pub fn i64_to_u64(x: i64) -> (r: u64)
    ensures
        r == i64_as_u64(x),
{
    if x >= 0 {
        x as u64
    } else {
        ((x - i64::MIN) as u64) + 0x8000_0000_0000_0000
    }
}

/// The `n` bytes of `b` that start at `pos`, if `b` holds them.
pub open spec fn bytes_at(b: Seq<u8>, pos: int, n: int) -> Option<Seq<u8>> {
    if 0 <= pos && 0 <= n && pos + n <= b.len() {
        Some(b.subrange(pos, pos + n))
    } else {
        None
    }
}

/// The little-endian 32-bit number at `pos` in `b`, if `b` holds its four bytes.
pub open spec fn u32_at(b: Seq<u8>, pos: int) -> Option<u32> {
    match bytes_at(b, pos, 4) {
        Some(s) => Some(u32_le(s)),
        None => None,
    }
}

/// The little-endian 64-bit number at `pos` in `b`, if `b` holds its eight bytes.
pub open spec fn u64_at(b: Seq<u8>, pos: int) -> Option<u64> {
    match bytes_at(b, pos, 8) {
        Some(s) => Some(u64_le(s)),
        None => None,
    }
}

/// A position in a byte buffer, from which values are read one after another.
///
/// The position may lie beyond the end of the buffer; every read from there fails.
pub struct ByteReader<'a> {
    pub data: &'a [u8],
    pub pos: usize,
}

impl<'a> ByteReader<'a> {
    /// The bytes of the buffer.
    pub open spec fn bytes(&self) -> Seq<u8> {
        self.data@
    }

    /// A reader at the start of `data`.
    pub fn new(data: &'a [u8]) -> (r: Self)
        ensures
            r.data@ == data@,
            r.pos == 0,
    {
        ByteReader { data, pos: 0 }
    }

    /// The number of bytes between the start of the buffer and the position.
    pub fn position(&self) -> (r: usize)
        ensures
            r == self.pos,
    {
        self.pos
    }

    /// Moves to `pos` bytes from the start of the buffer, which may lie beyond its end.
    pub fn seek_to(&mut self, pos: usize)
        ensures
            final(self).data@ == old(self).data@,
            final(self).pos == pos,
    {
        self.pos = pos;
    }

    /// Reads the next `n` bytes and moves past them, or fails with
    /// `ParseError(UnexpectedEof)` and stays, if fewer than `n` are left.
    pub fn read_exact(&mut self, n: usize) -> (r: Result<&'a [u8], Error>)
        ensures
            final(self).data@ == old(self).data@,
            match r {
                Ok(s) => bytes_at(old(self).bytes(), old(self).pos as int, n as int) == Some(s@)
                    && final(self).pos == old(self).pos + n,
                Err(e) => bytes_at(old(self).bytes(), old(self).pos as int, n as int) is None
                    && final(self).pos == old(self).pos
                    && e == Error::ParseError(ParseFault::UnexpectedEof),
            },
    {
        let len = self.data.len();
        if self.pos <= len && n <= len - self.pos {
            let s = vstd::slice::slice_subrange(self.data, self.pos, self.pos + n);
            self.pos = self.pos + n;
            Ok(s)
        } else {
            Err(Error::ParseError(ParseFault::UnexpectedEof))
        }
    }

    /// Moves `n` bytes forward, possibly beyond the end of the buffer, or
    /// fails with `ParseError(UnexpectedEof)` and stays, if the machine
    /// cannot address that position.
    pub fn skip(&mut self, n: usize) -> (r: Result<(), Error>)
        ensures
            final(self).data@ == old(self).data@,
            match r {
                Ok(_) => final(self).pos == old(self).pos + n,
                Err(e) => old(self).pos + n > usize::MAX && final(self).pos == old(self).pos && e
                    == Error::ParseError(ParseFault::UnexpectedEof),
            },
    {
        match self.pos.checked_add(n) {
            Some(p) => {
                self.pos = p;
                Ok(())
            },
            None => Err(Error::ParseError(ParseFault::UnexpectedEof)),
        }
    }

    /// Reads one byte.
    pub fn read_u8(&mut self) -> (r: Result<u8, Error>)
        ensures
            final(self).data@ == old(self).data@,
            match r {
                Ok(v) => bytes_at(old(self).bytes(), old(self).pos as int, 1) == Some(seq![v])
                    && final(self).pos == old(self).pos + 1,
                Err(e) => bytes_at(old(self).bytes(), old(self).pos as int, 1) is None
                    && final(self).pos == old(self).pos
                    && e == Error::ParseError(ParseFault::UnexpectedEof),
            },
    {
        let s = self.read_exact(1)?;
        assert(s@ =~= seq![s@[0]]);
        Ok(s[0])
    }

    /// Reads a little-endian 32-bit number.
    pub fn read_u32_le(&mut self) -> (r: Result<u32, Error>)
        ensures
            final(self).data@ == old(self).data@,
            match r {
                Ok(v) => u32_at(old(self).bytes(), old(self).pos as int) == Some(v)
                    && final(self).pos == old(self).pos + 4,
                Err(e) => u32_at(old(self).bytes(), old(self).pos as int) is None
                    && final(self).pos == old(self).pos
                    && e == Error::ParseError(ParseFault::UnexpectedEof),
            },
    {
        let s = self.read_exact(4)?;
        Ok(u32_from_le(s))
    }

    /// Reads a little-endian 64-bit number.
    pub fn read_u64_le(&mut self) -> (r: Result<u64, Error>)
        ensures
            final(self).data@ == old(self).data@,
            match r {
                Ok(v) => u64_at(old(self).bytes(), old(self).pos as int) == Some(v)
                    && final(self).pos == old(self).pos + 8,
                Err(e) => u64_at(old(self).bytes(), old(self).pos as int) is None
                    && final(self).pos == old(self).pos
                    && e == Error::ParseError(ParseFault::UnexpectedEof),
            },
    {
        let s = self.read_exact(8)?;
        Ok(u64_from_le(s))
    }
}

/// Appends `data` to `writer`. Writing to memory cannot fail.
pub fn write_all(writer: &mut Vec<u8>, data: &[u8]) -> (r: Result<(), Error>)
    ensures
        r is Ok,
        final(writer)@ == old(writer)@ + data@,
{
    let ghost before = writer@;
    writer.extend_from_slice(data);
    assert(writer@ =~= before + data@);
    Ok(())
}

} // verus!
