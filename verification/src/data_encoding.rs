use vstd::prelude::*;
use vstd::utf8::*;

use crate::logic::decode::DisassemblyError;
use crate::picture::decode::PictureDecodingError;

verus! {

/// Why bytes could not be read back as a resource.
#[derive(Debug, Clone, PartialEq, Eq, Structural)]
pub enum DecodingError {
    UnexpectedEof,
    InvalidUtf8,
    Disassembly(DisassemblyError),
    Picture(PictureDecodingError),
}

/// The two bytes of `value`, low byte first.
pub open spec fn u16_le_bytes(value: u16) -> Seq<u8> {
    seq![(value % 256) as u8, (value / 256) as u8]
}

/// The two bytes of `value`, high byte first.
pub open spec fn u16_be_bytes(value: u16) -> Seq<u8> {
    seq![(value / 256) as u8, (value % 256) as u8]
}

/// The number that two bytes hold, the first the low byte.
pub open spec fn le_u16_of(lo: u8, hi: u8) -> u16 {
    (lo + hi * 256) as u16
}

pub fn encode_uint16le(value: u16) -> (r: Vec<u8>)
    ensures
        r@ == u16_le_bytes(value),
{
    let lo = (value & 0xff) as u8;
    let hi = ((value & 0xff00) >> 8) as u8;
    assert(value & 0xff == value % 256) by (bit_vector);
    assert((value & 0xff00) >> 8 == value / 256) by (bit_vector);
    let r = vec![lo, hi];
    r
}

pub fn encode_uint16be(value: u16) -> (r: Vec<u8>)
    ensures
        r@ == u16_be_bytes(value),
{
    let lo = (value & 0xff) as u8;
    let hi = ((value & 0xff00) >> 8) as u8;
    assert(value & 0xff == value % 256) by (bit_vector);
    assert((value & 0xff00) >> 8 == value / 256) by (bit_vector);
    let r = vec![hi, lo];
    r
}

/// The bytes of a text followed by a terminating zero.
pub open spec fn null_terminated(text: Seq<char>) -> Seq<u8> {
    encode_utf8(text).push(0u8)
}

/// `String::from_utf8`: the text that `bytes` encode, if they are valid UTF-8.
#[verifier::external_body]
fn string_from_utf8(bytes: Vec<u8>) -> (r: Option<String>)
    ensures
        r is Some <==> valid_utf8(bytes@),
        r matches Some(s) ==> s@ == decode_utf8(bytes@),
{
    String::from_utf8(bytes).ok()
}

/// A read position over a byte buffer, as a cursor over memory gives it.
pub struct ByteCursor {
    data: Vec<u8>,
    pos: usize,
}

impl ByteCursor {
    pub closed spec fn contents(&self) -> Seq<u8> {
        self.data@
    }

    pub closed spec fn position(&self) -> int {
        self.pos as int
    }

    /// A cursor at the start of `data`.
    pub fn new(data: Vec<u8>) -> (r: ByteCursor)
        ensures
            r.contents() == data@,
            r.position() == 0,
    {
        ByteCursor { data, pos: 0 }
    }

    pub fn stream_position(&self) -> (r: usize)
        ensures
            r == self.position(),
    {
        self.pos
    }

    pub fn len(&self) -> (r: usize)
        ensures
            r == self.contents().len(),
    {
        self.data.len()
    }

    /// Moves to an absolute position, which may lie past the end.
    pub fn seek(&mut self, pos: usize)
        ensures
            final(self).contents() == old(self).contents(),
            final(self).position() == pos,
    {
        self.pos = pos;
    }

    pub fn read_u8(&mut self) -> (r: Result<u8, DecodingError>)
        ensures
            final(self).contents() == old(self).contents(),
            old(self).position() < old(self).contents().len() ==> r == Ok::<u8, DecodingError>(
                old(self).contents()[old(self).position()],
            ) && final(self).position() == old(self).position() + 1,
            old(self).position() >= old(self).contents().len() ==> r == Err::<u8, DecodingError>(
                DecodingError::UnexpectedEof,
            ) && final(self).position() == old(self).position(),
    {
        if self.pos < self.data.len() {
            let b = self.data[self.pos];
            self.pos = self.pos + 1;
            Ok(b)
        } else {
            Err(DecodingError::UnexpectedEof)
        }
    }

    /// Reads two bytes; where fewer remain the cursor moves to the end and
    /// the read fails.
    fn read_two(&mut self) -> (r: Result<(u8, u8), DecodingError>)
        ensures
            final(self).contents() == old(self).contents(),
            old(self).position() + 2 <= old(self).contents().len() ==> r == Ok::<
                (u8, u8),
                DecodingError,
            >(
                (
                    old(self).contents()[old(self).position()],
                    old(self).contents()[old(self).position() + 1],
                ),
            ) && final(self).position() == old(self).position() + 2,
            old(self).position() + 2 > old(self).contents().len() ==> r == Err::<
                (u8, u8),
                DecodingError,
            >(DecodingError::UnexpectedEof) && final(self).position() == (if old(
                self,
            ).position() < old(self).contents().len() {
                old(self).contents().len() as int
            } else {
                old(self).position()
            }),
    {
        if self.pos < self.data.len() && self.data.len() - self.pos >= 2 {
            let a = self.data[self.pos];
            let b = self.data[self.pos + 1];
            self.pos = self.pos + 2;
            Ok((a, b))
        } else {
            if self.pos < self.data.len() {
                self.pos = self.data.len();
            }
            Err(DecodingError::UnexpectedEof)
        }
    }

    pub fn read_u16_le(&mut self) -> (r: Result<u16, DecodingError>)
        ensures
            final(self).contents() == old(self).contents(),
            old(self).position() + 2 <= old(self).contents().len() ==> r == Ok::<
                u16,
                DecodingError,
            >(
                le_u16_of(
                    old(self).contents()[old(self).position()],
                    old(self).contents()[old(self).position() + 1],
                ),
            ) && final(self).position() == old(self).position() + 2,
            old(self).position() + 2 > old(self).contents().len() ==> r == Err::<
                u16,
                DecodingError,
            >(DecodingError::UnexpectedEof),
    {
        let (a, b) = self.read_two()?;
        proof {
            lemma_u16_from_bytes(a, b);
        }
        Ok(a as u16 | ((b as u16) << 8))
    }

    pub fn read_u16_be(&mut self) -> (r: Result<u16, DecodingError>)
        ensures
            final(self).contents() == old(self).contents(),
            old(self).position() + 2 <= old(self).contents().len() ==> r == Ok::<
                u16,
                DecodingError,
            >(
                le_u16_of(
                    old(self).contents()[old(self).position() + 1],
                    old(self).contents()[old(self).position()],
                ),
            ) && final(self).position() == old(self).position() + 2,
            old(self).position() + 2 > old(self).contents().len() ==> r == Err::<
                u16,
                DecodingError,
            >(DecodingError::UnexpectedEof),
    {
        let (a, b) = self.read_two()?;
        proof {
            lemma_u16_from_bytes(b, a);
        }
        Ok(b as u16 | ((a as u16) << 8))
    }

    /// Reads bytes up to a zero, and the zero, as UTF-8 text.
    pub fn read_null_terminated_string(&mut self) -> (r: Result<String, DecodingError>)
        ensures
            final(self).contents() == old(self).contents(),
            text_result(r) == null_terminated_at(old(self).contents(), old(self).position()),
            r is Ok ==> final(self).position() == old(self).position() + encode_utf8(r->Ok_0@).len()
                + 1,
    {
        let ghost start = self.pos as int;
        let mut bytes: Vec<u8> = Vec::new();
        loop
            invariant
                self.contents() == old(self).contents(),
                start == old(self).position(),
                self.position() == start + bytes@.len(),
                bytes@.len() > 0 ==> self.position() <= self.contents().len(),
                forall|k: int| 0 <= k < bytes@.len() ==> bytes@[k] == self.contents()[start + k],
                forall|k: int| start <= k < self.position() ==> self.contents()[k] != 0,
                start >= 0,
            decreases self.contents().len() - self.position(),
        {
            let ghost before = self.pos as int;
            let byte = self.read_u8();
            match byte {
                Err(e) => {
                    proof {
                        lemma_no_terminator_to_end(self.contents(), start, before);
                    }
                    return Err(e);
                },
                Ok(b) => {
                    if b == 0 {
                        proof {
                            lemma_terminator_found(self.contents(), start, before);
                        }
                        match string_from_utf8(bytes) {
                            Some(s) => {
                                proof {
                                    assert(bytes@ =~= self.contents().subrange(start, before));
                                    decode_utf8_encode_utf8(self.contents().subrange(start, before));
                                }
                                return Ok(s);
                            },
                            None => {
                                assert(bytes@ =~= self.contents().subrange(start, before));
                                return Err(DecodingError::InvalidUtf8);
                            },
                        }
                    }
                    bytes.push(b);
                },
            }
        }
    }
}

/// The position of the first zero at or after `i`, if any.
pub open spec fn first_zero_from(s: Seq<u8>, i: int) -> Option<int>
    decreases s.len() - i,
{
    if i < 0 || i >= s.len() {
        None
    } else if s[i] == 0 {
        Some(i)
    } else {
        first_zero_from(s, i + 1)
    }
}

/// Reading a zero-terminated UTF-8 text at position `i` of `s`.
pub open spec fn null_terminated_at(s: Seq<u8>, i: int) -> Result<Seq<char>, DecodingError> {
    match first_zero_from(s, i) {
        None => Err(DecodingError::UnexpectedEof),
        Some(z) => if valid_utf8(s.subrange(i, z)) {
            Ok(decode_utf8(s.subrange(i, z)))
        } else {
            Err(DecodingError::InvalidUtf8)
        },
    }
}

/// A text result seen as its characters.
pub open spec fn text_result(r: Result<String, DecodingError>) -> Result<Seq<char>, DecodingError> {
    match r {
        Ok(s) => Ok(s@),
        Err(e) => Err(e),
    }
}

proof fn lemma_u16_from_bytes(lo: u8, hi: u8)
    ensures
        (lo as u16 | ((hi as u16) << 8)) == le_u16_of(lo, hi),
{
    assert((lo as u16 | ((hi as u16) << 8)) == lo as u16 + (hi as u16) * 256) by (bit_vector);
}

proof fn lemma_no_terminator_to_end(s: Seq<u8>, start: int, end: int)
    requires
        0 <= start <= end,
        end >= s.len(),
        forall|k: int| start <= k < s.len() ==> s[k] != 0,
    ensures
        first_zero_from(s, start) is None,
    decreases s.len() - start,
{
    if start < s.len() {
        lemma_no_terminator_to_end(s, start + 1, end);
    }
}

pub proof fn lemma_terminator_found(s: Seq<u8>, start: int, z: int)
    requires
        0 <= start <= z < s.len(),
        s[z] == 0,
        forall|k: int| start <= k < z ==> s[k] != 0,
    ensures
        first_zero_from(s, start) == Some(z),
    decreases z - start,
{
    if start < z {
        lemma_terminator_found(s, start + 1, z);
    }
}

} // verus!

verus! {

/// A text without the NUL character encodes to bytes without a zero.
pub proof fn lemma_encode_utf8_no_zero(chars: Seq<char>)
    requires
        forall|i: int| 0 <= i < chars.len() ==> chars[i] != '\0',
    ensures
        forall|k: int| 0 <= k < encode_utf8(chars).len() ==> encode_utf8(chars)[k] != 0,
    decreases chars.len(),
{
    if chars.len() > 0 {
        let c = chars[0] as u32;
        let rest = chars.drop_first();
        lemma_encode_utf8_no_zero(rest);
        char_is_scalar(chars[0]);
        char_u32_cast(chars[0], c);
        let e = encode_scalar(c);
        assert(c != 0) by {
            if c == 0 {
                assert((0u32 as char) == '\0');
            }
        }
        assert(forall|k: int| 0 <= k < e.len() ==> e[k] != 0) by {
            if has_width_1_encoding(c) {
                assert(c != 0 && c <= 0x7F ==> (c & 0x7F) as u8 != 0) by (bit_vector);
            } else {
                assert(forall|x: u8| (0xC0u8 | x) != 0) by (bit_vector);
                assert(forall|x: u8| (0xE0u8 | x) != 0) by (bit_vector);
                assert(forall|x: u8| (0xF0u8 | x) != 0) by (bit_vector);
                assert(forall|x: u8| (0x80u8 | x) != 0) by (bit_vector);
            }
        }
        assert(encode_utf8(chars) == e + encode_utf8(rest));
    }
}

/// An output buffer that grows at its end.
pub struct ByteWriter {
    data: Vec<u8>,
}

impl ByteWriter {
    pub closed spec fn contents(&self) -> Seq<u8> {
        self.data@
    }

    pub fn new() -> (r: ByteWriter)
        ensures
            r.contents() == Seq::<u8>::empty(),
    {
        ByteWriter { data: Vec::new() }
    }

    pub fn len(&self) -> (r: usize)
        ensures
            r == self.contents().len(),
    {
        self.data.len()
    }

    pub fn write_u8(&mut self, value: u8)
        ensures
            final(self).contents() == old(self).contents().push(value),
    {
        self.data.push(value);
    }

    pub fn write_u16_le(&mut self, value: u16)
        ensures
            final(self).contents() == old(self).contents() + u16_le_bytes(value),
    {
        let bytes = encode_uint16le(value);
        self.data.push(bytes[0]);
        self.data.push(bytes[1]);
        assert(self.data@ =~= old(self).contents() + u16_le_bytes(value));
    }

    pub fn write_u16_be(&mut self, value: u16)
        ensures
            final(self).contents() == old(self).contents() + u16_be_bytes(value),
    {
        let bytes = encode_uint16be(value);
        self.data.push(bytes[0]);
        self.data.push(bytes[1]);
        assert(self.data@ =~= old(self).contents() + u16_be_bytes(value));
    }

    pub fn write_all(&mut self, bytes: &[u8])
        ensures
            final(self).contents() == old(self).contents() + bytes@,
    {
        let mut k: usize = 0;
        while k < bytes.len()
            invariant
                k <= bytes@.len(),
                self.contents() == old(self).contents() + bytes@.subrange(0, k as int),
            decreases bytes@.len() - k,
        {
            self.data.push(bytes[k]);
            k = k + 1;
            assert(self.contents() =~= old(self).contents() + bytes@.subrange(0, k as int));
        }
        assert(bytes@.subrange(0, bytes@.len() as int) =~= bytes@);
    }

    /// Writes the UTF-8 bytes of `value` and a terminating zero.
    pub fn write_null_terminated_string(&mut self, value: &str)
        ensures
            final(self).contents() == old(self).contents() + null_terminated(value@),
    {
        let bytes = value.as_bytes();
        self.write_all(bytes);
        self.write_u8(0);
        assert(self.contents() =~= old(self).contents() + null_terminated(value@));
    }

    pub fn into_bytes(self) -> (r: Vec<u8>)
        ensures
            r@ == self.contents(),
    {
        self.data
    }
}

} // verus!
