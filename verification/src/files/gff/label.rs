//! Field names.

use crate::error::Error;
use crate::files::{bytes_at, ByteReader, MAX_TEXT_LEN};
use crate::files::text::{
    ascii_bytes, ascii_text, decode_windows_1252, encode_windows_1252, is_ascii_bytes,
    is_ascii_text, windows_1252_decoded,
    windows_1252_encoded,
};
use vstd::prelude::*;

verus! {

/// The width of a label's slot in a file.
pub const LABEL_SIZE: usize = 16;

/// Whether `b` can be the content of a label: at most sixteen bytes, none of them zero.
pub open spec fn label_wf(b: Seq<u8>) -> bool {
    &&& b.len() <= LABEL_SIZE
    &&& forall|i: int| 0 <= i < b.len() ==> b[i] != 0
}

/// The number of bytes of `s` before its first zero byte; its length if it has none.
pub open spec fn first_zero(s: Seq<u8>) -> int
    decreases s.len(),
{
    if s.len() == 0 || s[0] == 0 {
        0
    } else {
        1 + first_zero(s.drop_first())
    }
}

/// The content of a slot: its bytes before the first zero byte.
pub open spec fn slot_content(slot: Seq<u8>) -> Seq<u8> {
    slot.subrange(0, first_zero(slot))
}

/// The slot that holds `content`: its first sixteen bytes, then zeros up to sixteen.
pub open spec fn slot_of(content: Seq<u8>) -> Seq<u8> {
    Seq::new(
        LABEL_SIZE as nat,
        |i: int|
            if i < content.len() {
                content[i]
            } else {
                0u8
            },
    )
}

/// `first_zero(s)` is the one position up to which `s` has no zero byte and
/// at which `s` ends or has one.
pub proof fn lemma_first_zero(s: Seq<u8>, n: int)
    requires
        0 <= n <= s.len(),
        forall|i: int| 0 <= i < n ==> s[i] != 0,
        n == s.len() || s[n] == 0,
    ensures
        first_zero(s) == n,
    decreases s.len(),
{
    if s.len() == 0 || s[0] == 0 {
    } else {
        lemma_first_zero(s.drop_first(), n - 1);
    }
}

/// The first zero byte lies within the sequence, and nothing before it is zero.
pub proof fn lemma_first_zero_bounds(s: Seq<u8>)
    ensures
        0 <= first_zero(s) <= s.len(),
        forall|i: int| 0 <= i < first_zero(s) ==> s[i] != 0,
        first_zero(s) == s.len() || s[first_zero(s)] == 0,
    decreases s.len(),
{
    if s.len() == 0 || s[0] == 0 {
    } else {
        let t = s.drop_first();
        lemma_first_zero_bounds(t);
        assert forall|i: int| 0 <= i < first_zero(s) implies s[i] != 0 by {
            if i > 0 {
                assert(s[i] == t[i - 1]);
            }
        }
    }
}

/// A label written to its slot and read back is the same label.
pub proof fn lemma_slot_round_trip(content: Seq<u8>)
    requires
        label_wf(content),
    ensures
        slot_of(content).len() == LABEL_SIZE,
        slot_content(slot_of(content)) == content,
        label_wf(slot_content(slot_of(content))),
{
    lemma_first_zero(slot_of(content), content.len() as int);
    assert(slot_content(slot_of(content)) =~= content);
}

/// A slot read as a label and written back is the same slot, if nothing but
/// zeros follows its first zero byte.
pub proof fn lemma_content_round_trip(slot: Seq<u8>)
    requires
        slot.len() == LABEL_SIZE,
        forall|i: int| first_zero(slot) <= i < slot.len() ==> slot[i] == 0,
    ensures
        label_wf(slot_content(slot)),
        slot_of(slot_content(slot)) == slot,
{
    lemma_first_zero_bounds(slot);
    assert(slot_of(slot_content(slot)) =~= slot);
}

/// A slot of zeros holds the label without bytes.
pub proof fn lemma_empty_slot(slot: Seq<u8>)
    requires
        slot.len() == LABEL_SIZE,
        forall|i: int| 0 <= i < slot.len() ==> slot[i] == 0,
    ensures
        slot_content(slot) == Seq::<u8>::empty(),
{
    lemma_first_zero(slot, 0);
    assert(slot_content(slot) =~= Seq::<u8>::empty());
}

/// A slot without a zero byte holds the label of all its sixteen bytes.
pub proof fn lemma_full_slot(slot: Seq<u8>)
    requires
        slot.len() == LABEL_SIZE,
        forall|i: int| 0 <= i < slot.len() ==> slot[i] != 0,
    ensures
        slot_content(slot) == slot,
{
    lemma_first_zero(slot, slot.len() as int);
    assert(slot_content(slot) =~= slot);
}

/// The bytes of the label whose text is `text`: the windows-1252 encoding
/// of `text`, cut at sixteen bytes and before the first zero byte.
pub open spec fn label_of_text(text: Seq<char>) -> Seq<u8> {
    slot_content(slot_of(windows_1252_encoded(text)))
}

/// **A text that is made a label, written to a slot and read back from it
/// is the same text**, if its encoding has at most sixteen bytes, none of
/// them zero, and the encoding itself gives the text back.
pub proof fn lemma_label_text_round_trip(text: Seq<char>)
    requires
        label_wf(windows_1252_encoded(text)),
        windows_1252_decoded(windows_1252_encoded(text)) == text,
    ensures
        label_of_text(text) == windows_1252_encoded(text),
        windows_1252_decoded(slot_content(slot_of(label_of_text(text)))) == text,
{
    lemma_slot_round_trip(windows_1252_encoded(text));
}

/// The byte that stands for an ASCII character has its number, and stands
/// for no other character.
pub proof fn lemma_ascii_char(c: char)
    requires
        (c as u32) < 0x80,
    ensures
        c as u8 == c as u32,
        (c as u8) as char == c,
{
    assert(c as int == (c as u32) as int);
}

/// **An ASCII text that is made a label, written to a slot and read back
/// from it is the same text**, if it has at most sixteen characters, none
/// of them the character zero: the slot gives back the bytes that stand
/// for the characters of the text, and these stand for the text.
pub proof fn lemma_ascii_label_round_trip(text: Seq<char>)
    requires
        is_ascii_text(text),
        text.len() <= LABEL_SIZE,
        forall|i: int| 0 <= i < text.len() ==> text[i] as u32 != 0,
    ensures
        is_ascii_bytes(ascii_bytes(text)),
        slot_content(slot_of(ascii_bytes(text))) == ascii_bytes(text),
        ascii_text(slot_content(slot_of(ascii_bytes(text)))) == text,
{
    let bytes = ascii_bytes(text);
    assert forall|i: int| 0 <= i < bytes.len() implies bytes[i] != 0 && bytes[i] < 0x80
        && bytes[i] as char == text[i] by {
        assert(bytes[i] == text[i] as u8);
        lemma_ascii_char(text[i]);
    }
    lemma_slot_round_trip(bytes);
    assert(ascii_text(bytes) =~= text);
}

/// The name of a field: at most sixteen bytes of windows-1252 text without a zero byte.
#[derive(Debug, PartialEq, Eq, Hash)]
pub struct Label {
    bytes: Vec<u8>,
}

impl View for Label {
    type V = Seq<u8>;

    closed spec fn view(&self) -> Seq<u8> {
        self.bytes@
    }
}

impl Clone for Label {
    fn clone(&self) -> (r: Self)
        ensures
            r@ == self@,
    {
        proof {
            use_type_invariant(self);
        }
        Label { bytes: vstd::slice::slice_to_vec(self.bytes.as_slice()) }
    }
}

impl Label {
    #[verifier::type_invariant]
    spec fn inv(self) -> bool {
        label_wf(self.bytes@)
    }

    /// Reads the next sixteen bytes as a label.
    pub fn read(data: &mut ByteReader) -> (r: Result<Self, Error>)
        ensures
            final(data).data@ == old(data).data@,
            match r {
                Ok(l) => bytes_at(old(data).bytes(), old(data).pos as int, LABEL_SIZE as int)
                    matches Some(slot) && l@ == slot_content(slot) && final(data).pos == old(
                    data,
                ).pos + LABEL_SIZE,
                Err(e) => bytes_at(old(data).bytes(), old(data).pos as int, LABEL_SIZE as int)
                    is None && final(data).pos == old(data).pos && e == Error::ParseError(
                    crate::error::ParseFault::UnexpectedEof,
                ),
            },
    {
        let slot = data.read_exact(LABEL_SIZE)?;
        Ok(Self::from_slot(slot))
    }

    /// Appends the label's slot to `writer`. Writing to memory cannot fail.
    pub fn write(&self, writer: &mut Vec<u8>) -> (r: Result<(), Error>)
        ensures
            r is Ok,
            final(writer)@ == old(writer)@ + slot_of(self@),
    {
        let slot = self.to_array();
        crate::files::write_all(writer, slot.as_slice())
    }

    /// The label in the slot `data`: its bytes before the first zero byte.
    pub fn new(data: [u8; LABEL_SIZE]) -> (r: Result<Self, Error>)
        ensures
            r matches Ok(l) && l@ == slot_content(data@),
    {
        Ok(Self::from_slot(data.as_slice()))
    }

    /// The label at the start of `slot`: the bytes before the first zero
    /// byte, among the first sixteen.
    pub fn from_slot(slot: &[u8]) -> (r: Self)
        ensures
            r@ == slot_content(slot@.take(LABEL_SIZE as int)) || (slot@.len() < LABEL_SIZE && r@
                == slot_content(slot@)),
            slot@.len() == LABEL_SIZE ==> r@ == slot_content(slot@),
            label_wf(r@),
    {
        let mut bytes: Vec<u8> = Vec::new();
        let mut i: usize = 0;
        let n: usize = if slot.len() < LABEL_SIZE {
            slot.len()
        } else {
            LABEL_SIZE
        };
        let ghost s = slot@.take(n as int);
        while i < n && slot[i] != 0
            invariant
                0 <= i <= n <= slot@.len(),
                n <= LABEL_SIZE,
                s == slot@.take(n as int),
                bytes@ == s.subrange(0, i as int),
                forall|j: int| 0 <= j < i ==> s[j] != 0,
            decreases n - i,
        {
            bytes.push(slot[i]);
            i = i + 1;
            assert(bytes@ =~= s.subrange(0, i as int));
        }
        proof {
            lemma_first_zero(s, i as int);
            if slot@.len() <= LABEL_SIZE {
                assert(s =~= slot@);
            }
        }
        Label { bytes }
    }

    /// The label whose text is `text`: the windows-1252 encoding of `text`,
    /// cut at sixteen bytes and before the first zero byte. `None` if `text`
    /// is too long to encode.
    pub fn from_text(text: &str) -> (r: Option<Self>)
        ensures
            r is Some <==> vstd::utf8::encode_utf8(text@).len() <= MAX_TEXT_LEN,
            r matches Some(l) ==> {
                &&& l@ == label_of_text(text@)
                &&& label_wf(l@)
                &&& is_ascii_text(text@) ==> l@ == slot_content(
                    slot_of(ascii_bytes(text@)),
                )
            },
    {
        if text.as_bytes().len() > MAX_TEXT_LEN {
            return None;
        }
        let encoded = encode_windows_1252(text);
        let mut slot = [0u8; LABEL_SIZE];
        let mut i: usize = 0;
        while i < LABEL_SIZE && i < encoded.len()
            invariant
                0 <= i <= LABEL_SIZE,
                i <= encoded@.len(),
                forall|j: int| 0 <= j < i ==> slot@[j] == encoded@[j],
                forall|j: int| i <= j < LABEL_SIZE ==> slot@[j] == 0,
            decreases LABEL_SIZE - i,
        {
            slot[i] = encoded[i];
            i = i + 1;
        }
        assert(slot@ =~= slot_of(encoded@));
        Some(Self::from_slot(slot.as_slice()))
    }

    /// The slot that holds this label: its bytes, then zeros up to sixteen.
    pub fn to_array(&self) -> (r: [u8; LABEL_SIZE])
        ensures
            r@ == slot_of(self@),
    {
        proof {
            use_type_invariant(self);
        }
        let mut slot = [0u8; LABEL_SIZE];
        let mut i: usize = 0;
        while i < self.bytes.len()
            invariant
                0 <= i <= self.bytes@.len() <= LABEL_SIZE,
                forall|j: int| 0 <= j < i ==> slot@[j] == self.bytes@[j],
                forall|j: int| i <= j < LABEL_SIZE ==> slot@[j] == 0,
            decreases self.bytes@.len() - i,
        {
            slot[i] = self.bytes[i];
            i = i + 1;
        }
        assert(slot@ =~= slot_of(self@));
        slot
    }

    /// The bytes of the label.
    pub fn as_bytes(&self) -> (r: &[u8])
        ensures
            r@ == self@,
            label_wf(r@),
    {
        proof {
            use_type_invariant(self);
        }
        self.bytes.as_slice()
    }

    /// The text of the label.
    pub fn as_str(&self) -> (r: String)
        ensures
            r@ == self.text(),
            is_ascii_bytes(self@) ==> r@ == ascii_text(self@),
    {
        proof {
            use_type_invariant(self);
        }
        decode_windows_1252(self.bytes.as_slice())
    }

    /// The text of the label read as UTF-8, or `ParseError(InvalidUtf8)` if
    /// its bytes are not valid UTF-8.
    pub fn get_string(&self) -> (r: Result<String, Error>)
        ensures
            match r {
                Ok(s) => vstd::utf8::valid_utf8(self@) && s@ == vstd::utf8::decode_utf8(self@),
                Err(e) => !vstd::utf8::valid_utf8(self@) && e == Error::ParseError(
                    crate::error::ParseFault::InvalidUtf8,
                ),
            },
    {
        if crate::files::text::is_valid_utf8(self.bytes.as_slice()) {
            Ok(crate::files::text::decode_utf8_lossy(self.bytes.as_slice()))
        } else {
            Err(Error::ParseError(crate::error::ParseFault::InvalidUtf8))
        }
    }

    /// The text that the label's bytes stand for.
    pub open spec fn text(&self) -> Seq<char> {
        windows_1252_decoded(self@)
    }

    /// Whether two labels hold the same bytes.
    pub fn same(&self, other: &Label) -> (r: bool)
        ensures
            r == (self@ == other@),
    {
        let a = self.as_bytes();
        let b = other.as_bytes();
        if a.len() != b.len() {
            return false;
        }
        let mut i: usize = 0;
        while i < a.len()
            invariant
                0 <= i <= a@.len(),
                a@.len() == b@.len(),
                a@ == self@,
                b@ == other@,
                forall|j: int| 0 <= j < i ==> a@[j] == b@[j],
            decreases a@.len() - i,
        {
            if a[i] != b[i] {
                assert(a@[i as int] != b@[i as int]);
                return false;
            }
            i = i + 1;
        }
        assert(a@ =~= b@);
        true
    }
}

} // verus!
