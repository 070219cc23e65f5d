//! Strings, and strings in several languages.

use crate::error::{EnumType, Error, ParseFault, WriteFault};
use crate::files::{
    bytes_at, push_u32_le, u32_at, u32_le_bytes, write_all, ByteReader, Gender, Language,
    MAX_TEXT_LEN,
};
use crate::files::text::{
    ascii_bytes, ascii_text, decode_windows_1252, encode_windows_1252, is_ascii_bytes,
    is_ascii_text, windows_1252_decoded, windows_1252_encoded,
};
use crate::files::tlk::{resolve_text, resolved_text, tlk_view, NO_STR_REF, Tlk, TlkView};
use vstd::prelude::*;

verus! {

/// A text in the windows-1252 encoding, of at most `MAX_TEXT_LEN` bytes.
#[derive(Debug, PartialEq, Eq, Hash)]
pub struct ExoString {
    bytes: Vec<u8>,
}

/// The text that a count at `pos` announces and that follows it, and where it ends.
pub open spec fn exo_string_at(bytes: Seq<u8>, pos: int) -> Result<(Seq<u8>, int), Error> {
    match u32_at(bytes, pos) {
        None => Err(Error::ParseError(ParseFault::UnexpectedEof)),
        Some(size) => if size > MAX_TEXT_LEN {
            Err(Error::ParseError(ParseFault::TooLong))
        } else {
            match bytes_at(bytes, pos + 4, size as int) {
                None => Err(Error::ParseError(ParseFault::UnexpectedEof)),
                Some(data) => Ok((data, pos + 4 + size)),
            }
        },
    }
}

/// The count of `text` in four bytes, then `text`.
pub open spec fn exo_string_bytes(text: Seq<u8>) -> Seq<u8> {
    u32_le_bytes(text.len() as u32) + text
}

/// What was written as a string is read back as the same string, whatever follows.
pub proof fn lemma_exo_string_round_trip(before: Seq<u8>, text: Seq<u8>, after: Seq<u8>)
    requires
        text.len() <= MAX_TEXT_LEN,
    ensures
        exo_string_at(before + exo_string_bytes(text) + after, before.len() as int) == Ok::<
            (Seq<u8>, int),
            Error,
        >((text, before.len() as int + 4 + text.len())),
{
    let all = before + exo_string_bytes(text) + after;
    let pos = before.len() as int;
    crate::files::lemma_u32_le_round_trip(text.len() as u32, text);
    assert(all.subrange(pos, pos + 4) =~= u32_le_bytes(text.len() as u32));
    assert(all.subrange(pos + 4, pos + 4 + text.len()) =~= text);
}

impl View for ExoString {
    type V = Seq<u8>;

    closed spec fn view(&self) -> Seq<u8> {
        self.bytes@
    }
}

impl Clone for ExoString {
    fn clone(&self) -> (r: Self)
        ensures
            r@ == self@,
    {
        proof {
            use_type_invariant(self);
        }
        ExoString { bytes: vstd::slice::slice_to_vec(self.bytes.as_slice()) }
    }
}

impl ExoString {
    #[verifier::type_invariant]
    spec fn inv(self) -> bool {
        self.bytes@.len() <= MAX_TEXT_LEN
    }

    /// The string that holds `bytes`, or `None` if they are more than `MAX_TEXT_LEN`.
    pub fn from_bytes(bytes: Vec<u8>) -> (r: Option<Self>)
        ensures
            r is Some <==> bytes@.len() <= MAX_TEXT_LEN,
            r matches Some(s) ==> s@ == bytes@,
    {
        if bytes.len() <= MAX_TEXT_LEN {
            Some(ExoString { bytes })
        } else {
            None
        }
    }

    /// The string whose text is `text`, or `None` if `text` or its encoding
    /// is longer than `MAX_TEXT_LEN` bytes.
    pub fn from_text(text: &str) -> (r: Option<Self>)
        ensures
            r is Some <==> vstd::utf8::encode_utf8(text@).len() <= MAX_TEXT_LEN
                && windows_1252_encoded(text@).len() <= MAX_TEXT_LEN,
            r matches Some(s) ==> s@ == windows_1252_encoded(text@),
            r matches Some(s) ==> is_ascii_text(text@) ==> s@ == ascii_bytes(text@),
    {
        if text.as_bytes().len() > MAX_TEXT_LEN {
            return None;
        }
        Self::from_bytes(encode_windows_1252(text))
    }

    /// The bytes of the string.
    pub fn as_bytes(&self) -> (r: &[u8])
        ensures
            r@ == self@,
            r@.len() <= MAX_TEXT_LEN,
    {
        proof {
            use_type_invariant(self);
        }
        self.bytes.as_slice()
    }

    /// The text that the bytes of the string stand for.
    pub open spec fn spec_text(&self) -> Seq<char> {
        windows_1252_decoded(self@)
    }

    /// The text of the string.
    pub fn text(&self) -> (r: String)
        ensures
            r@ == self.spec_text(),
            is_ascii_bytes(self@) ==> r@ == ascii_text(self@),
    {
        decode_windows_1252(self.as_bytes())
    }

    /// Reads a count and a text of as many bytes; `ParseError(TooLong)` if
    /// the count is more than `MAX_TEXT_LEN`.
    pub fn read(data: &mut ByteReader) -> (r: Result<Self, Error>)
        ensures
            final(data).data@ == old(data).data@,
            match r {
                Ok(v) => exo_string_at(old(data).bytes(), old(data).pos as int) == Ok::<
                    (Seq<u8>, int),
                    Error,
                >((v@, final(data).pos as int)),
                Err(e) => exo_string_at(old(data).bytes(), old(data).pos as int) == Err::<
                    (Seq<u8>, int),
                    Error,
                >(e),
            },
    {
        let size = data.read_u32_le()?;
        if size as usize > MAX_TEXT_LEN {
            return Err(Error::ParseError(ParseFault::TooLong));
        }
        let buf = data.read_exact(size as usize)?;
        Ok(ExoString { bytes: vstd::slice::slice_to_vec(buf) })
    }

    /// Appends the count of the bytes and the bytes. Writing to memory cannot fail.
    pub fn write(&self, writer: &mut Vec<u8>) -> (r: Result<(), Error>)
        ensures
            r is Ok,
            final(writer)@ == old(writer)@ + exo_string_bytes(self@),
    {
        let bytes = self.as_bytes();
        let ghost before = writer@;
        push_u32_le(writer, bytes.len() as u32);
        let _ = write_all(writer, bytes);
        assert(writer@ =~= before + exo_string_bytes(self@));
        Ok(())
    }
}

/// One text of a localized string, for one language and one gender.
#[derive(Debug, PartialEq, Eq)]
pub struct ExoLocSubString {
    pub gender: Gender,
    pub language: Language,
    pub data: ExoString,
}

/// What one text of a localized string is, as plain values.
pub struct ExoLocSubStringView {
    pub gender: Gender,
    pub language: Language,
    pub data: Seq<u8>,
}

impl View for ExoLocSubString {
    type V = ExoLocSubStringView;

    open spec fn view(&self) -> ExoLocSubStringView {
        ExoLocSubStringView { gender: self.gender, language: self.language, data: self.data@ }
    }
}

/// The number under which a language and a gender are stored together.
pub open spec fn string_id(language: Language, gender: Gender) -> u32 {
    (language.spec_as_num() * 2 + gender.spec_as_num()) as u32
}

/// The gender that the number `id` stores: its lowest bit.
pub open spec fn gender_of(id: u32) -> Gender {
    if id % 2 == 0 {
        Gender::Masculine
    } else {
        Gender::Feminine
    }
}

/// The number of the language that the number `id` stores: its next eight bits.
pub open spec fn language_num_of(id: u32) -> u8 {
    (id / 2 % 0x100) as u8
}

/// The text with its language and gender that starts at `pos`, and where it ends.
pub open spec fn sub_string_at(bytes: Seq<u8>, pos: int) -> Result<
    (ExoLocSubStringView, int),
    Error,
> {
    match (u32_at(bytes, pos), u32_at(bytes, pos + 4)) {
        (Some(id), Some(size)) => match Language::spec_from_num(language_num_of(id)) {
            None => Err(
                Error::EnumError { enum_type: EnumType::Language, value: language_num_of(id) as u32 },
            ),
            Some(language) => if size > MAX_TEXT_LEN {
                Err(Error::ParseError(ParseFault::TooLong))
            } else {
                match bytes_at(bytes, pos + 8, size as int) {
                    None => Err(Error::ParseError(ParseFault::UnexpectedEof)),
                    Some(data) => Ok(
                        (
                            ExoLocSubStringView { gender: gender_of(id), language, data },
                            pos + 8 + size,
                        ),
                    ),
                }
            },
        },
        _ => Err(Error::ParseError(ParseFault::UnexpectedEof)),
    }
}

/// The bytes of one text with its language and gender.
pub open spec fn sub_string_bytes(s: ExoLocSubStringView) -> Seq<u8> {
    u32_le_bytes(string_id(s.language, s.gender)) + u32_le_bytes(s.data.len() as u32) + s.data
}

/// The `n` texts that start at `pos`, one after another, and where they end.
#[verifier::opaque]
pub open spec fn sub_strings_at(bytes: Seq<u8>, pos: int, n: nat) -> Result<
    (Seq<ExoLocSubStringView>, int),
    Error,
>
    decreases n,
{
    if n == 0 {
        Ok((Seq::empty(), pos))
    } else {
        match sub_strings_at(bytes, pos, (n - 1) as nat) {
            Err(e) => Err(e),
            Ok((subs, p)) => match sub_string_at(bytes, p) {
                Err(e) => Err(e),
                Ok((s, q)) => Ok((subs.push(s), q)),
            },
        }
    }
}

/// Reading one text more: the texts before it, then the text itself.
pub proof fn lemma_sub_strings_step(bytes: Seq<u8>, pos: int, n: nat)
    ensures
        sub_strings_at(bytes, pos, n + 1) == match sub_strings_at(bytes, pos, n) {
            Err(e) => Err::<(Seq<ExoLocSubStringView>, int), Error>(e),
            Ok((subs, p)) => match sub_string_at(bytes, p) {
                Err(e) => Err(e),
                Ok((s, q)) => Ok((subs.push(s), q)),
            },
        },
{
    reveal_with_fuel(sub_strings_at, 2);
    assert(((n + 1) - 1) as nat == n);
}

/// No texts start anywhere and end there.
pub proof fn lemma_sub_strings_none(bytes: Seq<u8>, pos: int)
    ensures
        sub_strings_at(bytes, pos, 0) == Ok::<(Seq<ExoLocSubStringView>, int), Error>(
            (Seq::empty(), pos),
        ),
{
    reveal_with_fuel(sub_strings_at, 1);
}

/// Texts of which the first `n` cannot be read cannot be read as more either.
pub proof fn lemma_sub_strings_fail(bytes: Seq<u8>, pos: int, n: nat, m: nat)
    requires
        n <= m,
        sub_strings_at(bytes, pos, n) is Err,
    ensures
        sub_strings_at(bytes, pos, m) == sub_strings_at(bytes, pos, n),
    decreases m,
{
    if n < m {
        lemma_sub_strings_fail(bytes, pos, n, (m - 1) as nat);
        lemma_sub_strings_step(bytes, pos, (m - 1) as nat);
    }
}

/// The bytes of the texts `subs`, one after another.
pub open spec fn sub_strings_bytes(subs: Seq<ExoLocSubStringView>) -> Seq<u8>
    decreases subs.len(),
{
    if subs.len() == 0 {
        Seq::empty()
    } else {
        sub_strings_bytes(subs.drop_last()) + sub_string_bytes(subs.last())
    }
}

/// The number of bytes that the texts `subs` take in a file.
pub open spec fn sub_strings_size(subs: Seq<ExoLocSubStringView>) -> int
    decreases subs.len(),
{
    if subs.len() == 0 {
        0
    } else {
        sub_strings_size(subs.drop_last()) + 8 + subs.last().data.len()
    }
}

/// The size that a localized string declares: that of its texts, and eight
/// bytes for its string reference and the number of its texts.
pub open spec fn total_size(subs: Seq<ExoLocSubStringView>) -> int {
    sub_strings_size(subs) + 8
}

/// What a localized string is, as plain values.
pub struct ExoLocStringView {
    pub str_ref: u32,
    pub tlk_string: Option<Seq<char>>,
    pub substrings: Seq<ExoLocSubStringView>,
}

/// The localized string that starts at `pos`, with the text that `tlk`
/// gives for its string reference, and where it ends.
pub open spec fn exo_loc_string_at(bytes: Seq<u8>, pos: int, tlk: Option<TlkView>) -> Result<
    (ExoLocStringView, int),
    Error,
> {
    match (u32_at(bytes, pos), u32_at(bytes, pos + 4), u32_at(bytes, pos + 8)) {
        (Some(size), Some(str_ref), Some(count)) => match resolved_text(tlk, str_ref) {
            Err(e) => Err(e),
            Ok(tlk_string) => match sub_strings_at(bytes, pos + 12, count as nat) {
                Err(e) => Err(e),
                Ok((substrings, end)) => if size != total_size(substrings) {
                    Err(Error::ParseError(ParseFault::SizeMismatch))
                } else {
                    Ok((ExoLocStringView { str_ref, tlk_string, substrings }, end))
                },
            },
        },
        _ => Err(Error::ParseError(ParseFault::UnexpectedEof)),
    }
}

/// The bytes of a localized string, if its size fits in 32 bits.
pub open spec fn exo_loc_string_bytes(s: ExoLocStringView) -> Option<Seq<u8>> {
    if total_size(s.substrings) <= u32::MAX {
        Some(
            u32_le_bytes(total_size(s.substrings) as u32) + u32_le_bytes(s.str_ref) + u32_le_bytes(
                s.substrings.len() as u32,
            ) + sub_strings_bytes(s.substrings),
        )
    } else {
        None
    }
}

/// A string reference into the talk table, with texts that stand in its
/// place for single languages and genders.
#[derive(Debug, PartialEq, Eq)]
pub struct ExoLocString {
    /// The string reference; `NO_STR_REF` if there is none.
    pub str_ref: u32,
    /// The text that the talk table gave for the string reference.
    pub tlk_string: Option<String>,
    pub substrings: Vec<ExoLocSubString>,
}

/// The views of the texts `subs`.
pub open spec fn sub_string_views(subs: Seq<ExoLocSubString>) -> Seq<ExoLocSubStringView> {
    Seq::new(subs.len(), |i: int| subs[i]@)
}

impl View for ExoLocString {
    type V = ExoLocStringView;

    open spec fn view(&self) -> ExoLocStringView {
        ExoLocStringView {
            str_ref: self.str_ref,
            tlk_string: match self.tlk_string {
                Some(s) => Some(s@),
                None => None,
            },
            substrings: sub_string_views(self.substrings@),
        }
    }
}

impl Clone for ExoLocSubString {
    fn clone(&self) -> (r: Self)
        ensures
            r@ == self@,
    {
        ExoLocSubString { gender: self.gender, language: self.language, data: self.data.clone() }
    }
}

impl Clone for ExoLocString {
    fn clone(&self) -> (r: Self)
        ensures
            r@ == self@,
    {
        let mut substrings: Vec<ExoLocSubString> = Vec::new();
        let mut i: usize = 0;
        while i < self.substrings.len()
            invariant
                0 <= i <= self.substrings@.len(),
                substrings@.len() == i,
                forall|k: int| 0 <= k < i ==> (#[trigger] substrings@[k])@ == self.substrings@[k]@,
            decreases self.substrings@.len() - i,
        {
            substrings.push(self.substrings[i].clone());
            i = i + 1;
        }
        let tlk_string = match &self.tlk_string {
            Some(s) => Some(s.clone()),
            None => None,
        };
        assert(sub_string_views(substrings@) =~= sub_string_views(self.substrings@));
        ExoLocString { str_ref: self.str_ref, tlk_string, substrings }
    }
}

impl ExoLocSubString {
    /// The number of bytes that this text takes in a file.
    pub fn get_file_data_size(&self) -> (r: u32)
        ensures
            r == self@.data.len() + 8,
    {
        self.data.as_bytes().len() as u32 + 8
    }

    /// Reads the number of a language and a gender, a count, and a text of as many bytes.
    pub fn read(data: &mut ByteReader) -> (r: Result<Self, Error>)
        ensures
            final(data).data@ == old(data).data@,
            match r {
                Ok(v) => sub_string_at(old(data).bytes(), old(data).pos as int) == Ok::<
                    (ExoLocSubStringView, int),
                    Error,
                >((v@, final(data).pos as int)),
                Err(e) => sub_string_at(old(data).bytes(), old(data).pos as int) == Err::<
                    (ExoLocSubStringView, int),
                    Error,
                >(e),
            },
    {
        let id = data.read_u32_le()?;
        let size = data.read_u32_le()?;
        let gender = if id % 2 == 0 {
            Gender::Masculine
        } else {
            Gender::Feminine
        };
        let language = match Language::try_from((id / 2 % 0x100) as u8) {
            Ok(l) => l,
            Err(e) => {
                return Err(Error::from_enum_error(e));
            },
        };
        if size as usize > MAX_TEXT_LEN {
            return Err(Error::ParseError(ParseFault::TooLong));
        }
        let buf = data.read_exact(size as usize)?;
        let text = ExoString::from_bytes(vstd::slice::slice_to_vec(buf));
        match text {
            Some(s) => Ok(Self { gender, language, data: s }),
            None => Err(Error::ParseError(ParseFault::TooLong)),
        }
    }

    /// Appends the number of the language and the gender, the count of the
    /// text and the text. Writing to memory cannot fail.
    pub fn write(&self, writer: &mut Vec<u8>) -> (r: Result<(), Error>)
        ensures
            r is Ok,
            final(writer)@ == old(writer)@ + sub_string_bytes(self@),
    {
        let ghost before = writer@;
        let id: u32 = self.language.as_num() as u32 * 2 + self.gender.as_num() as u32;
        let bytes = self.data.as_bytes();
        push_u32_le(writer, id);
        push_u32_le(writer, bytes.len() as u32);
        let _ = write_all(writer, bytes);
        assert(writer@ =~= before + sub_string_bytes(self@));
        Ok(())
    }
}

impl ExoLocString {
    /// The size that the localized string with the texts `substrings`
    /// declares, or `None` if it does not fit in 32 bits.
    pub fn get_total_size(substrings: &[ExoLocSubString]) -> (r: Option<u32>)
        ensures
            match r {
                Some(n) => n == total_size(sub_string_views(substrings@)),
                None => total_size(sub_string_views(substrings@)) > u32::MAX,
            },
    {
        let ghost views = sub_string_views(substrings@);
        let mut size: u64 = 8;
        let mut i: usize = 0;
        while i < substrings.len()
            invariant
                0 <= i <= substrings@.len(),
                views == sub_string_views(substrings@),
                size == total_size(views.take(i as int)),
                size <= u32::MAX,
            decreases substrings@.len() - i,
        {
            let part = substrings[i].get_file_data_size();
            proof {
                let t = views.take(i + 1);
                assert(t.drop_last() =~= views.take(i as int));
                assert(t.last() == substrings@[i as int]@);
                lemma_size_monotone(views, i + 1);
            }
            size = size + part as u64;
            if size > u32::MAX as u64 {
                return None;
            }
            i = i + 1;
        }
        assert(views.take(i as int) =~= views);
        Some(size as u32)
    }

    /// Reads a localized string, and looks its string reference up in `tlk`
    /// unless that is `NO_STR_REF` or there is no `tlk`.
    pub fn read(data: &mut ByteReader, tlk: Option<&Tlk>) -> (r: Result<Self, Error>)
        ensures
            final(data).data@ == old(data).data@,
            match r {
                Ok(v) => exo_loc_string_at(old(data).bytes(), old(data).pos as int, tlk_view(tlk))
                    == Ok::<(ExoLocStringView, int), Error>((v@, final(data).pos as int)),
                Err(e) => exo_loc_string_at(old(data).bytes(), old(data).pos as int, tlk_view(tlk))
                    == Err::<(ExoLocStringView, int), Error>(e),
            },
            r matches Ok(v) ==> (v.str_ref == NO_STR_REF ==> v.tlk_string is None),
    {
        let ghost bytes = data.bytes();
        let ghost start = data.pos as int;
        let size = data.read_u32_le()?;
        let str_ref = data.read_u32_le()?;
        let count = data.read_u32_le()?;
        let tlk_string = resolve_text(tlk, str_ref)?;
        let mut substrings: Vec<ExoLocSubString> = Vec::new();
        let mut i: u32 = 0;
        proof {
            assert(sub_string_views(substrings@) =~= Seq::empty());
            lemma_sub_strings_none(bytes, start + 12);
        }
        while i < count
            invariant
                0 <= i <= count,
                data.data@ == bytes,
                bytes == old(data).data@,
                start == old(data).pos,
                u32_at(bytes, start) == Some(size),
                u32_at(bytes, start + 4) == Some(str_ref),
                u32_at(bytes, start + 8) == Some(count),
                resolved_text(tlk_view(tlk), str_ref) is Ok,
                sub_strings_at(bytes, start + 12, i as nat) == Ok::<
                    (Seq<ExoLocSubStringView>, int),
                    Error,
                >((sub_string_views(substrings@), data.pos as int)),
            decreases count - i,
        {
            let ghost before = sub_string_views(substrings@);
            proof {
                lemma_sub_strings_step(bytes, start + 12, i as nat);
            }
            match ExoLocSubString::read(data) {
                Ok(s) => {
                    let ghost sv = s@;
                    substrings.push(s);
                    assert(sub_string_views(substrings@) =~= before.push(sv));
                },
                Err(e) => {
                    proof {
                        lemma_sub_strings_fail(bytes, start + 12, i as nat + 1, count as nat);
                    }
                    return Err(e);
                },
            }
            i = i + 1;
        }
        match Self::get_total_size(substrings.as_slice()) {
            Some(n) => {
                if n != size {
                    return Err(Error::ParseError(ParseFault::SizeMismatch));
                }
            },
            None => {
                return Err(Error::ParseError(ParseFault::SizeMismatch));
            },
        }
        Ok(Self { str_ref, tlk_string, substrings })
    }

    /// Appends the localized string, or fails with `WriteError(TooLarge)`
    /// and appends nothing, if its size does not fit in 32 bits.
    pub fn write(&self, writer: &mut Vec<u8>) -> (r: Result<(), Error>)
        ensures
            match r {
                Ok(_) => exo_loc_string_bytes(self@) matches Some(b) && final(writer)@ == old(
                    writer,
                )@ + b,
                Err(e) => exo_loc_string_bytes(self@) is None && final(writer)@ == old(writer)@
                    && e == Error::WriteError(WriteFault::TooLarge),
            },
    {
        let ghost before = writer@;
        let ghost views = sub_string_views(self.substrings@);
        let total = match Self::get_total_size(self.substrings.as_slice()) {
            Some(n) => n,
            None => {
                return Err(Error::WriteError(WriteFault::TooLarge));
            },
        };
        proof {
            lemma_size_monotone(views, views.len() as int);
            assert(views.take(views.len() as int) =~= views);
        }
        push_u32_le(writer, total);
        push_u32_le(writer, self.str_ref);
        push_u32_le(writer, self.substrings.len() as u32);
        let ghost head = writer@;
        let mut i: usize = 0;
        while i < self.substrings.len()
            invariant
                0 <= i <= self.substrings@.len(),
                views == sub_string_views(self.substrings@),
                writer@ == head + sub_strings_bytes(views.take(i as int)),
            decreases self.substrings@.len() - i,
        {
            let _ = self.substrings[i].write(writer);
            proof {
                let t = views.take(i + 1);
                assert(t.drop_last() =~= views.take(i as int));
                assert(t.last() == self.substrings@[i as int]@);
                assert(writer@ =~= head + sub_strings_bytes(t));
            }
            i = i + 1;
        }
        assert(views.take(i as int) =~= views);
        assert(writer@ =~= before + exo_loc_string_bytes(self@)->Some_0);
        Ok(())
    }
}

/// The first `n` texts take at least eight bytes each and no more than all of them.
pub proof fn lemma_size_monotone(subs: Seq<ExoLocSubStringView>, n: int)
    requires
        0 <= n <= subs.len(),
    ensures
        8 * n <= sub_strings_size(subs.take(n)) <= sub_strings_size(subs),
    decreases subs.len(),
{
    if subs.len() == 0 {
        assert(subs.take(n) =~= subs);
    } else if n == subs.len() {
        assert(subs.take(n) =~= subs);
        lemma_size_monotone(subs.drop_last(), n - 1);
        assert(subs.drop_last().take(n - 1) =~= subs.drop_last());
    } else {
        lemma_size_monotone(subs.drop_last(), n);
        assert(subs.drop_last().take(n) =~= subs.take(n));
    }
}

/// What was written as one text is read back as the same text, whatever follows.
pub proof fn lemma_sub_string_round_trip(before: Seq<u8>, s: ExoLocSubStringView, after: Seq<u8>)
    requires
        s.data.len() <= MAX_TEXT_LEN,
    ensures
        sub_string_bytes(s).len() == 8 + s.data.len(),
        sub_string_at(before + sub_string_bytes(s) + after, before.len() as int) == Ok::<
            (ExoLocSubStringView, int),
            Error,
        >((s, before.len() as int + 8 + s.data.len())),
{
    let all = before + sub_string_bytes(s) + after;
    let pos = before.len() as int;
    let id = string_id(s.language, s.gender);
    crate::files::lemma_u32_le_round_trip(id, s.data);
    crate::files::lemma_u32_le_round_trip(s.data.len() as u32, s.data);
    assert(all.subrange(pos, pos + 4) =~= u32_le_bytes(id));
    assert(all.subrange(pos + 4, pos + 8) =~= u32_le_bytes(s.data.len() as u32));
    assert(all.subrange(pos + 8, pos + 8 + s.data.len()) =~= s.data);
    assert(gender_of(id) == s.gender);
    assert(language_num_of(id) == s.language.spec_as_num());
    assert(Language::spec_from_num(s.language.spec_as_num()) == Some(s.language));
}

/// What was written as texts, one after another, is read back as the same
/// texts, whatever follows.
pub proof fn lemma_sub_strings_round_trip(
    before: Seq<u8>,
    subs: Seq<ExoLocSubStringView>,
    n: nat,
    after: Seq<u8>,
)
    requires
        n <= subs.len(),
        forall|i: int| 0 <= i < subs.len() ==> (#[trigger] subs[i]).data.len() <= MAX_TEXT_LEN,
    ensures
        sub_strings_bytes(subs.take(n as int)).len() == sub_strings_size(subs.take(n as int)),
        sub_strings_at(
            before + sub_strings_bytes(subs.take(n as int)) + after,
            before.len() as int,
            n,
        ) == Ok::<(Seq<ExoLocSubStringView>, int), Error>(
            (subs.take(n as int), before.len() as int + sub_strings_size(subs.take(n as int))),
        ),
    decreases n,
{
    let pos = before.len() as int;
    if n == 0 {
        lemma_sub_strings_none(before + sub_strings_bytes(subs.take(0)) + after, pos);
        assert(subs.take(0) =~= Seq::empty());
    } else {
        let m = (n - 1) as nat;
        let head = subs.take(m as int);
        let last = subs[m as int];
        let part = sub_string_bytes(last);
        assert(subs.take(n as int).drop_last() =~= head);
        assert(subs.take(n as int).last() == last);
        let all = before + sub_strings_bytes(subs.take(n as int)) + after;
        assert(all =~= before + sub_strings_bytes(head) + (part + after));
        lemma_sub_strings_round_trip(before, subs, m, part + after);
        lemma_sub_string_round_trip(before + sub_strings_bytes(head), last, after);
        assert(all =~= (before + sub_strings_bytes(head)) + part + after);
        lemma_sub_strings_step(all, pos, m);
        assert(head.push(last) =~= subs.take(n as int));
    }
}

/// What was written as a localized string is read back as the same
/// localized string, whatever follows, if no text of it is too long and it
/// holds the text that `tlk` gives for its string reference.
pub proof fn lemma_exo_loc_string_round_trip(
    before: Seq<u8>,
    v: ExoLocStringView,
    after: Seq<u8>,
    tlk: Option<TlkView>,
)
    requires
        exo_loc_string_bytes(v) is Some,
        forall|i: int|
            0 <= i < v.substrings.len() ==> (#[trigger] v.substrings[i]).data.len() <= MAX_TEXT_LEN,
        resolved_text(tlk, v.str_ref) == Ok::<Option<Seq<char>>, Error>(v.tlk_string),
    ensures
        exo_loc_string_at(
            before + exo_loc_string_bytes(v)->Some_0 + after,
            before.len() as int,
            tlk,
        ) == Ok::<(ExoLocStringView, int), Error>(
            (v, before.len() as int + 12 + sub_strings_size(v.substrings)),
        ),
        exo_loc_string_bytes(v)->Some_0.len() == 12 + sub_strings_size(v.substrings),
{
    let subs = v.substrings;
    let bytes = exo_loc_string_bytes(v)->Some_0;
    let all = before + bytes + after;
    let pos = before.len() as int;
    let total = total_size(subs) as u32;
    lemma_size_monotone(subs, subs.len() as int);
    assert(subs.take(subs.len() as int) =~= subs);
    crate::files::lemma_u32_le_round_trip(total, before);
    crate::files::lemma_u32_le_round_trip(v.str_ref, before);
    crate::files::lemma_u32_le_round_trip(subs.len() as u32, before);
    let head = u32_le_bytes(total) + u32_le_bytes(v.str_ref) + u32_le_bytes(subs.len() as u32);
    assert(all.subrange(pos, pos + 4) =~= u32_le_bytes(total));
    assert(all.subrange(pos + 4, pos + 8) =~= u32_le_bytes(v.str_ref));
    assert(all.subrange(pos + 8, pos + 12) =~= u32_le_bytes(subs.len() as u32));
    lemma_sub_strings_round_trip(before + head, subs, subs.len(), after);
    assert(all =~= (before + head) + sub_strings_bytes(subs) + after);
}

} // verus!
