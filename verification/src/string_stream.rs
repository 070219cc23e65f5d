//! Characters and lines from bytes of UTF-8, read leniently: a sequence is
//! taken for a character by the shape of its bytes alone.

use crate::files::ByteReader;
use crate::files::text::push_char;
use vstd::prelude::*;

verus! {

/// Whether `byte` alone is a character: its highest bit is clear.
pub open spec fn spec_is_ascii(byte: u8) -> bool {
    (byte & 0b1000_0000) == 0
}

/// Whether `byte` continues a sequence: its highest two bits are `10`.
pub open spec fn spec_starts_with_10(byte: u8) -> bool {
    (byte & 0b1100_0000) == 0b1000_0000
}

/// Whether the two bytes have the shape of a sequence of two.
pub open spec fn spec_is_two_bytes(first: u8, second: u8) -> bool {
    (first & 0b1110_0000) == 0b1100_0000 && spec_starts_with_10(second)
}

/// Whether the three bytes have the shape of a sequence of three.
pub open spec fn spec_is_three_bytes(first: u8, second: u8, third: u8) -> bool {
    (first & 0b1111_0000) == 0b1110_0000 && spec_starts_with_10(second) && spec_starts_with_10(
        third,
    )
}

/// Whether the four bytes have the shape of a sequence of four.
pub open spec fn spec_is_four_bytes(first: u8, second: u8, third: u8, fourth: u8) -> bool {
    (first & 0b1111_1000) == 0b1111_0000 && spec_starts_with_10(second) && spec_starts_with_10(
        third,
    ) && spec_starts_with_10(fourth)
}

/// The number that a sequence of two bytes encodes.
pub open spec fn code_of_two(first: u8, second: u8) -> u32 {
    ((first & 0b0001_1111) as u32) << 6 | ((second & 0b0011_1111) as u32)
}

/// The number that a sequence of three bytes encodes.
pub open spec fn code_of_three(first: u8, second: u8, third: u8) -> u32 {
    ((first & 0b0000_1111) as u32) << 12 | ((second & 0b0011_1111) as u32) << 6 | ((third
        & 0b0011_1111) as u32)
}

/// The number that a sequence of four bytes encodes.
pub open spec fn code_of_four(first: u8, second: u8, third: u8, fourth: u8) -> u32 {
    ((first & 0b0000_0111) as u32) << 18 | ((second & 0b0011_1111) as u32) << 12 | ((third
        & 0b0011_1111) as u32) << 6 | ((fourth & 0b0011_1111) as u32)
}

/// The character with the number `v`, if `v` is the number of a character:
/// at most `0x10FFFF` and no surrogate.
pub open spec fn char_of(v: u32) -> Option<char> {
    if v <= 0x10_FFFF && !(0xD800 <= v <= 0xDFFF) {
        Some(v as char)
    } else {
        None
    }
}

/// Calls `char::from_u32`.
///
/// Trusted: the call returns the character with the number `v` if `v` is at
/// most `0x10FFFF` and no surrogate, and nothing else.
#[verifier::external_body]
fn char_from_u32(v: u32) -> (c: Option<char>)
    ensures
        c == char_of(v),
{
    char::from_u32(v)
}

fn is_ascii(byte: u8) -> (r: bool)
    ensures
        r == spec_is_ascii(byte),
{
    (byte & 0b1000_0000) == 0
}

fn starts_with_10(byte: u8) -> (r: bool)
    ensures
        r == spec_starts_with_10(byte),
{
    (byte & 0b1100_0000) == 0b1000_0000
}

fn is_two_bytes(first: u8, second: u8) -> (r: bool)
    ensures
        r == spec_is_two_bytes(first, second),
{
    (first & 0b1110_0000) == 0b1100_0000 && starts_with_10(second)
}

fn is_three_bytes(first: u8, second: u8, third: u8) -> (r: bool)
    ensures
        r == spec_is_three_bytes(first, second, third),
{
    (first & 0b1111_0000) == 0b1110_0000 && starts_with_10(second) && starts_with_10(third)
}

fn is_four_bytes(first: u8, second: u8, third: u8, fourth: u8) -> (r: bool)
    ensures
        r == spec_is_four_bytes(first, second, third, fourth),
{
    (first & 0b1111_1000) == 0b1111_0000 && starts_with_10(second) && starts_with_10(third)
        && starts_with_10(fourth)
}

/// The character that starts at `pos`, if the bytes there have the shape of
/// one, and the position after the bytes that were looked at.
///
/// One byte is looked at if it is a character alone; else a second, and a
/// third and a fourth as long as the bytes so far do not have the shape of
/// a sequence. At the end of the bytes there is no character.
pub open spec fn char_at(b: Seq<u8>, pos: int) -> (Option<char>, int) {
    if pos < 0 || pos >= b.len() {
        (None, pos)
    } else if spec_is_ascii(b[pos]) {
        (char_of(b[pos] as u32), pos + 1)
    } else if pos + 1 >= b.len() {
        (None, pos + 1)
    } else if spec_is_two_bytes(b[pos], b[pos + 1]) {
        (char_of(code_of_two(b[pos], b[pos + 1])), pos + 2)
    } else if pos + 2 >= b.len() {
        (None, pos + 2)
    } else if spec_is_three_bytes(b[pos], b[pos + 1], b[pos + 2]) {
        (char_of(code_of_three(b[pos], b[pos + 1], b[pos + 2])), pos + 3)
    } else if pos + 3 >= b.len() {
        (None, pos + 3)
    } else if spec_is_four_bytes(b[pos], b[pos + 1], b[pos + 2], b[pos + 3]) {
        (char_of(code_of_four(b[pos], b[pos + 1], b[pos + 2], b[pos + 3])), pos + 4)
    } else {
        (None, pos + 4)
    }
}

/// The rest of the line that has `line` so far and goes on at `pos`, and
/// the position after it.
///
/// A line ends before a line feed, before a carriage return that a line
/// feed follows, and where no character can be read. After a carriage
/// return that no line feed follows, the carriage return belongs to the
/// line and the character after it is dropped.
pub open spec fn line_from(b: Seq<u8>, pos: int, line: Seq<char>) -> (Seq<char>, int)
    decreases b.len() - pos,
{
    let (c, p) = char_at(b, pos);
    match c {
        None => (line, p),
        Some(ch) => if ch == '\r' {
            let (after, q) = char_at(b, p);
            if after == Some('\n') {
                (line, q)
            } else {
                line_from(b, q, line.push(ch))
            }
        } else if ch == '\n' {
            (line, p)
        } else {
            line_from(b, p, line.push(ch))
        },
    }
}

/// The lines that start at `pos`, up to the first that is empty.
pub open spec fn lines_from(b: Seq<u8>, pos: int) -> Seq<Seq<char>>
    decreases b.len() - pos,
{
    let (line, p) = line_from(b, pos, Seq::empty());
    if line.len() == 0 || p <= pos || p > b.len() {
        Seq::empty()
    } else {
        seq![line] + lines_from(b, p)
    }
}

/// A character is read from bytes alone, and the position moves on by at
/// least one and at most four bytes when one is read.
pub proof fn lemma_char_at(b: Seq<u8>, pos: int)
    ensures
        char_at(b, pos).0 is Some ==> pos < char_at(b, pos).1 <= b.len(),
        pos <= char_at(b, pos).1,
        0 <= pos <= b.len() ==> char_at(b, pos).1 <= b.len(),
{
}

/// A line ends at or after the position where it goes on, and after it if
/// it has grown.
pub proof fn lemma_line_from(b: Seq<u8>, pos: int, line: Seq<char>)
    requires
        0 <= pos <= b.len(),
    ensures
        pos <= line_from(b, pos, line).1 <= b.len(),
        line_from(b, pos, line).0.len() >= line.len(),
        line_from(b, pos, line).0.len() > line.len() ==> pos < line_from(b, pos, line).1,
    decreases b.len() - pos,
{
    lemma_char_at(b, pos);
    let (c, p) = char_at(b, pos);
    match c {
        None => {},
        Some(ch) => {
            if ch == '\r' {
                lemma_char_at(b, p);
                let (after, q) = char_at(b, p);
                if after != Some('\n') {
                    lemma_line_from(b, q, line.push(ch));
                }
            } else if ch != '\n' {
                lemma_line_from(b, p, line.push(ch));
            }
        },
    }
}

/// A reader of characters and lines.
pub struct StringStream<'a> {
    bytes: ByteReader<'a>,
}

/// The texts `l` as sequences of characters.
pub open spec fn text_views(l: Seq<String>) -> Seq<Seq<char>> {
    Seq::new(l.len(), |i: int| l[i]@)
}

impl<'a> StringStream<'a> {
    #[verifier::type_invariant]
    spec fn inv(self) -> bool {
        self.bytes.pos <= self.bytes.data@.len()
    }

    /// The bytes that are read.
    pub closed spec fn data(&self) -> Seq<u8> {
        self.bytes.data@
    }

    /// The number of bytes that have been read.
    pub closed spec fn spec_position(&self) -> int {
        self.bytes.pos as int
    }

    /// A reader at the start of `x`.
    pub fn new(x: &'a [u8]) -> (r: Self)
        ensures
            r.data() == x@,
            r.spec_position() == 0,
    {
        Self { bytes: ByteReader::new(x) }
    }

    /// The number of bytes that have been read.
    pub fn position(&self) -> (r: usize)
        ensures
            r == self.spec_position(),
            r <= self.data().len() <= usize::MAX,
    {
        proof {
            use_type_invariant(self);
        }
        let len = self.bytes.data.len();
        self.bytes.position()
    }

    /// The byte at `pos`, if there is one.
    fn byte_at(&self, pos: usize) -> (r: Option<u8>)
        ensures
            match r {
                Some(v) => pos < self.data().len() && v == self.data()[pos as int],
                None => pos >= self.data().len(),
            },
    {
        if pos < self.bytes.data.len() {
            Some(self.bytes.data[pos])
        } else {
            None
        }
    }

    /// Moves to `pos`, which lies within the bytes or at their end.
    fn move_to(&mut self, pos: usize)
        requires
            pos <= old(self).data().len(),
        ensures
            final(self).data() == old(self).data(),
            final(self).spec_position() == pos,
    {
        self.bytes.pos = pos;
    }

    /// The next character, if the next bytes have the shape of one.
    pub fn next(&mut self) -> (r: Option<char>)
        ensures
            final(self).data() == old(self).data(),
            (r, final(self).spec_position()) == char_at(old(self).data(), old(self).spec_position()),
    {
        let start = self.position();
        let first = match self.byte_at(start) {
            Some(v) => v,
            None => {
                return None;
            },
        };
        if is_ascii(first) {
            self.move_to(start + 1);
            return char_from_u32(first as u32);
        }
        let second = match self.byte_at(start + 1) {
            Some(v) => v,
            None => {
                self.move_to(start + 1);
                return None;
            },
        };
        if is_two_bytes(first, second) {
            self.move_to(start + 2);
            let a = first & 0b0001_1111;
            let b = second & 0b0011_1111;
            let ch = (a as u32) << 6 | b as u32;
            return char_from_u32(ch);
        }
        let third = match self.byte_at(start + 2) {
            Some(v) => v,
            None => {
                self.move_to(start + 2);
                return None;
            },
        };
        if is_three_bytes(first, second, third) {
            self.move_to(start + 3);
            let a = first & 0b0000_1111;
            let b = second & 0b0011_1111;
            let c = third & 0b0011_1111;
            let ch = (a as u32) << 12 | (b as u32) << 6 | c as u32;
            return char_from_u32(ch);
        }
        let fourth = match self.byte_at(start + 3) {
            Some(v) => v,
            None => {
                self.move_to(start + 3);
                return None;
            },
        };
        self.move_to(start + 4);
        if is_four_bytes(first, second, third, fourth) {
            let a = first & 0b0000_0111;
            let b = second & 0b0011_1111;
            let c = third & 0b0011_1111;
            let d = fourth & 0b0011_1111;
            let ch = (a as u32) << 18 | (b as u32) << 12 | (c as u32) << 6 | (d as u32);
            return char_from_u32(ch);
        }
        None
    }

    /// The next line, without its end; `None` if it has no characters.
    pub fn next_line(&mut self) -> (r: Option<String>)
        ensures
            final(self).data() == old(self).data(),
            final(self).spec_position() == line_from(
                old(self).data(),
                old(self).spec_position(),
                Seq::empty(),
            ).1,
            match r {
                Some(s) => s@.len() > 0 && s@ == line_from(
                    old(self).data(),
                    old(self).spec_position(),
                    Seq::empty(),
                ).0,
                None => line_from(old(self).data(), old(self).spec_position(), Seq::empty()).0.len()
                    == 0,
            },
    {
        let ghost b = self.data();
        let ghost start = self.spec_position();
        let at = self.position();
        let mut buf = String::new();
        loop
            invariant_except_break
                line_from(b, start, Seq::empty()) == line_from(b, self.spec_position(), buf@),
            invariant
                self.data() == b,
                b == old(self).data(),
                start == old(self).spec_position(),
                0 <= self.spec_position() <= b.len(),
            ensures
                self.data() == b,
                line_from(b, start, Seq::empty()) == (buf@, self.spec_position()),
            decreases b.len() - self.spec_position(),
        {
            proof {
                lemma_char_at(b, self.spec_position());
            }
            let ch = match self.next() {
                Some(c) => c,
                None => {
                    break ;
                },
            };
            if ch == '\r' {
                proof {
                    lemma_char_at(b, self.spec_position());
                }
                let next = self.next();
                let is_feed = match next {
                    Some(c) => c == '\n',
                    None => false,
                };
                if is_feed {
                    break ;
                } else {
                    push_char(&mut buf, ch);
                }
            } else if ch == '\n' {
                break ;
            } else {
                push_char(&mut buf, ch);
            }
        }
        if buf.as_str().unicode_len() > 0 {
            Some(buf)
        } else {
            None
        }
    }

    /// The lines from here on, up to the first that is empty.
    pub fn lines(self) -> (r: Vec<String>)
        ensures
            text_views(r@) == lines_from(self.data(), self.spec_position()),
    {
        let mut this = self;
        let ghost b = this.data();
        let ghost start = this.spec_position();
        let at = this.position();
        let mut out: Vec<String> = Vec::new();
        assert(text_views(out@) =~= Seq::empty());
        loop
            invariant_except_break
                lines_from(b, start) == text_views(out@) + lines_from(b, this.spec_position()),
            invariant
                this.data() == b,
                0 <= this.spec_position() <= b.len(),
            ensures
                lines_from(b, start) == text_views(out@),
            decreases b.len() - this.spec_position(),
        {
            let ghost before = text_views(out@);
            let ghost pos = this.spec_position();
            proof {
                lemma_line_from(b, pos, Seq::empty());
            }
            match this.next_line() {
                Some(line) => {
                    let ghost lv = line@;
                    out.push(line);
                    assert(text_views(out@) =~= before.push(lv));
                    assert(before + (seq![lv] + lines_from(b, this.spec_position()))
                        =~= before.push(lv) + lines_from(b, this.spec_position()));
                },
                None => {
                    assert(before + Seq::<Seq<char>>::empty() =~= before);
                    break ;
                },
            }
        }
        out
    }
}

} // verus!
