use vstd::prelude::*;
use std::io::Cursor;

use bitstream_io::{BigEndian, BitRead, BitReader, BitWrite, BitWriter, LittleEndian};

verus! {

// Bit sequences as the bitstream orders them.

/// The `n` low bits of `v`, most significant first.
pub open spec fn be_bits_of(v: nat, n: nat) -> Seq<bool>
    decreases n,
{
    if n == 0 {
        Seq::empty()
    } else {
        be_bits_of(v / 2, (n - 1) as nat).push(v % 2 == 1)
    }
}

/// The `n` low bits of `v`, least significant first.
pub open spec fn le_bits_of(v: nat, n: nat) -> Seq<bool>
    decreases n,
{
    if n == 0 {
        Seq::empty()
    } else {
        seq![v % 2 == 1] + le_bits_of(v / 2, (n - 1) as nat)
    }
}

/// The number that bits, most significant first, write.
pub open spec fn be_value(bits: Seq<bool>) -> nat
    decreases bits.len(),
{
    if bits.len() == 0 {
        0
    } else {
        2 * be_value(bits.drop_last()) + if bits.last() {
            1nat
        } else {
            0nat
        }
    }
}

/// The number that bits, least significant first, write.
pub open spec fn le_value(bits: Seq<bool>) -> nat
    decreases bits.len(),
{
    if bits.len() == 0 {
        0
    } else {
        (if bits[0] {
            1nat
        } else {
            0nat
        }) + 2 * le_value(bits.drop_first())
    }
}

/// The bits of bytes, each byte most significant bit first.
pub open spec fn bytes_to_bits_be(bytes: Seq<u8>) -> Seq<bool>
    decreases bytes.len(),
{
    if bytes.len() == 0 {
        Seq::empty()
    } else {
        bytes_to_bits_be(bytes.drop_last()) + be_bits_of(bytes.last() as nat, 8)
    }
}

/// The bits of bytes, each byte least significant bit first.
pub open spec fn bytes_to_bits_le(bytes: Seq<u8>) -> Seq<bool>
    decreases bytes.len(),
{
    if bytes.len() == 0 {
        Seq::empty()
    } else {
        bytes_to_bits_le(bytes.drop_last()) + le_bits_of(bytes.last() as nat, 8)
    }
}

/// `n` zero bits.
pub open spec fn zero_bits(n: nat) -> Seq<bool> {
    Seq::new(n, |i: int| false)
}

/// The zero bits that pad a stream of `len` bits to a whole byte.
pub open spec fn align_padding(len: nat) -> Seq<bool> {
    zero_bits(((8 - len % 8) % 8) as nat)
}

// The outside reader and writer over memory. Their generic parameters carry
// bounds that the specifications cannot state, so each concrete reader and
// writer is declared opaque, and what it holds is named by the spec
// functions below.

#[verifier::external_type_specification]
#[verifier::external_body]
pub struct ExIoError(std::io::Error);

/// A most-significant-bit-first reader over bytes in memory.
#[verifier::external_body]
pub struct MsbBitReader {
    inner: BitReader<Cursor<Vec<u8>>, BigEndian>,
}

/// A least-significant-bit-first reader over bytes in memory.
#[verifier::external_body]
pub struct LsbBitReader {
    inner: BitReader<Cursor<Vec<u8>>, LittleEndian>,
}

/// A most-significant-bit-first writer into memory.
#[verifier::external_body]
pub struct MsbBitWriter {
    inner: BitWriter<Vec<u8>, BigEndian>,
}

/// A least-significant-bit-first writer into memory.
#[verifier::external_body]
pub struct LsbBitWriter {
    inner: BitWriter<Vec<u8>, LittleEndian>,
}

/// Why a read failed.
pub enum BitReadError {
    /// The data ended before the bits asked for.
    EndOfData(std::io::Error),
    /// Any other failure of the underlying reader.
    Other(std::io::Error),
}

/// The bits that a most-significant-first reader has not read yet.
pub uninterp spec fn msb_reader_unread(r: MsbBitReader) -> Seq<bool>;

/// The bits that a least-significant-first reader has not read yet.
pub uninterp spec fn lsb_reader_unread(r: LsbBitReader) -> Seq<bool>;

/// The bits written so far to a most-significant-first writer,
/// including those of a byte not yet complete.
pub uninterp spec fn msb_writer_bits(w: MsbBitWriter) -> Seq<bool>;

/// The bits written so far to a least-significant-first writer,
/// including those of a byte not yet complete.
pub uninterp spec fn lsb_writer_bits(w: LsbBitWriter) -> Seq<bool>;

/// `BitReader::endian(Cursor::new(bytes), BigEndian)`: a reader whose
/// unread bits are all the bits of `bytes`, each byte high bit first.
#[verifier::external_body]
pub(crate) fn msb_reader_new(bytes: Vec<u8>) -> (r: MsbBitReader)
    ensures
        msb_reader_unread(r) == bytes_to_bits_be(bytes@),
{
    MsbBitReader { inner: BitReader::endian(Cursor::new(bytes), BigEndian) }
}

/// `BitReader::endian(Cursor::new(bytes), LittleEndian)`: a reader whose
/// unread bits are all the bits of `bytes`, each byte low bit first.
#[verifier::external_body]
pub(crate) fn lsb_reader_new(bytes: Vec<u8>) -> (r: LsbBitReader)
    ensures
        lsb_reader_unread(r) == bytes_to_bits_le(bytes@),
{
    LsbBitReader { inner: BitReader::endian(Cursor::new(bytes), LittleEndian) }
}

/// `BitRead::read_var::<u32>` on the big-endian reader: with `bits` bits left it
/// returns their value, the first the most significant, and consumes them;
/// with fewer, the cursor's `read_exact` reports the end of the data. What the
/// reader holds after a failed read is not stated.
#[verifier::external_body]
pub(crate) fn msb_read_var(r: &mut MsbBitReader, bits: u32) -> (res: Result<u32, BitReadError>)
    requires
        1 <= bits <= 32,
    ensures
        msb_reader_unread(*old(r)).len() >= bits ==> (res matches Ok(v) && v == be_value(
            msb_reader_unread(*old(r)).take(bits as int),
        ) && msb_reader_unread(*final(r)) == msb_reader_unread(*old(r)).skip(bits as int)),
        msb_reader_unread(*old(r)).len() < bits ==> res matches Err(BitReadError::EndOfData(_)),
{
    match r.inner.read_var::<u32>(bits) {
        Ok(v) => Ok(v),
        Err(e) => match e.kind() {
            std::io::ErrorKind::UnexpectedEof => Err(BitReadError::EndOfData(e)),
            _ => Err(BitReadError::Other(e)),
        },
    }
}

/// `BitRead::read_var::<u32>` on the little-endian reader: with `bits` bits left it
/// returns their value, the first the least significant, and consumes them;
/// with fewer, the cursor's `read_exact` reports the end of the data. What the
/// reader holds after a failed read is not stated.
#[verifier::external_body]
pub(crate) fn lsb_read_var(r: &mut LsbBitReader, bits: u32) -> (res: Result<u32, BitReadError>)
    requires
        1 <= bits <= 32,
    ensures
        lsb_reader_unread(*old(r)).len() >= bits ==> (res matches Ok(v) && v == le_value(
            lsb_reader_unread(*old(r)).take(bits as int),
        ) && lsb_reader_unread(*final(r)) == lsb_reader_unread(*old(r)).skip(bits as int)),
        lsb_reader_unread(*old(r)).len() < bits ==> res matches Err(BitReadError::EndOfData(_)),
{
    match r.inner.read_var::<u32>(bits) {
        Ok(v) => Ok(v),
        Err(e) => match e.kind() {
            std::io::ErrorKind::UnexpectedEof => Err(BitReadError::EndOfData(e)),
            _ => Err(BitReadError::Other(e)),
        },
    }
}

/// `BitWriter::endian(Vec::new(), BigEndian)`: a writer with nothing written.
#[verifier::external_body]
pub(crate) fn msb_writer_new() -> (w: MsbBitWriter)
    ensures
        msb_writer_bits(w) == Seq::<bool>::empty(),
{
    MsbBitWriter { inner: BitWriter::endian(Vec::new(), BigEndian) }
}

/// `BitWriter::endian(Vec::new(), LittleEndian)`: a writer with nothing written.
#[verifier::external_body]
pub(crate) fn lsb_writer_new() -> (w: LsbBitWriter)
    ensures
        lsb_writer_bits(w) == Seq::<bool>::empty(),
{
    LsbBitWriter { inner: BitWriter::endian(Vec::new(), LittleEndian) }
}

/// `BitWrite::write_var::<u32>` on the big-endian writer: a value that fits in
/// `bits` bits is appended, most significant bit first (writing to a `Vec`
/// cannot fail); a larger value is refused and nothing is written.
#[verifier::external_body]
pub(crate) fn msb_write_var(w: &mut MsbBitWriter, bits: u32, value: u32) -> (res: Result<(), std::io::Error>)
    requires
        1 <= bits <= 32,
    ensures
        value < pow2_nat(bits as nat) ==> res is Ok && msb_writer_bits(*final(w)) == msb_writer_bits(*old(w))
            + be_bits_of(value as nat, bits as nat),
        value >= pow2_nat(bits as nat) ==> res is Err && msb_writer_bits(*final(w)) == msb_writer_bits(*old(w)),
{
    w.inner.write_var::<u32>(bits, value)
}

/// `BitWrite::write_var::<u32>` on the little-endian writer: a value that fits
/// in `bits` bits is appended, least significant bit first (writing to a `Vec`
/// cannot fail); a larger value is refused and nothing is written.
#[verifier::external_body]
pub(crate) fn lsb_write_var(w: &mut LsbBitWriter, bits: u32, value: u32) -> (res: Result<(), std::io::Error>)
    requires
        1 <= bits <= 32,
    ensures
        value < pow2_nat(bits as nat) ==> res is Ok && lsb_writer_bits(*final(w)) == lsb_writer_bits(*old(w))
            + le_bits_of(value as nat, bits as nat),
        value >= pow2_nat(bits as nat) ==> res is Err && lsb_writer_bits(*final(w)) == lsb_writer_bits(*old(w)),
{
    w.inner.write_var::<u32>(bits, value)
}

/// `BitWrite::byte_align` on the little-endian writer: zero bits up to the
/// next whole byte (writing to a `Vec` cannot fail).
#[verifier::external_body]
pub(crate) fn lsb_byte_align(w: &mut LsbBitWriter) -> (res: Result<(), std::io::Error>)
    ensures
        res is Ok,
        lsb_writer_bits(*final(w)) == lsb_writer_bits(*old(w)) + align_padding(lsb_writer_bits(*old(w)).len()),
{
    w.inner.byte_align()
}

/// `BitWriter::into_writer` on the big-endian writer: the whole bytes
/// written; the bits of a byte not yet complete are dropped.
#[verifier::external_body]
pub(crate) fn msb_writer_into_bytes(w: MsbBitWriter) -> (r: Vec<u8>)
    ensures
        bytes_to_bits_be(r@) == msb_writer_bits(w).take(8 * (msb_writer_bits(w).len() / 8) as int),
{
    w.inner.into_writer()
}

/// `BitWriter::into_writer` on the little-endian writer: the whole bytes
/// written; the bits of a byte not yet complete are dropped.
#[verifier::external_body]
pub(crate) fn lsb_writer_into_bytes(w: LsbBitWriter) -> (r: Vec<u8>)
    ensures
        bytes_to_bits_le(r@) == lsb_writer_bits(w).take(8 * (lsb_writer_bits(w).len() / 8) as int),
{
    w.inner.into_writer()
}

/// 2 to the power `n`.
pub open spec fn pow2_nat(n: nat) -> nat
    decreases n,
{
    if n == 0 {
        1
    } else {
        2 * pow2_nat((n - 1) as nat)
    }
}

/// A value of `bits.len()` bits, most significant first, is below 2 to that power.
pub proof fn lemma_be_value_bound(bits: Seq<bool>)
    ensures
        be_value(bits) < pow2_nat(bits.len()),
    decreases bits.len(),
{
    if bits.len() > 0 {
        lemma_be_value_bound(bits.drop_last());
    }
}

/// Writing the value of some bits in as many bits gives them back.
pub proof fn lemma_be_bits_of_value(bits: Seq<bool>)
    ensures
        be_bits_of(be_value(bits), bits.len()) == bits,
    decreases bits.len(),
{
    if bits.len() > 0 {
        let v = be_value(bits);
        let front = bits.drop_last();
        lemma_be_bits_of_value(front);
        assert(v / 2 == be_value(front));
        assert(be_bits_of(v, bits.len()) =~= bits);
    }
}

/// Reading back `n` bits written from `v` gives `v`, when it fits.
pub proof fn lemma_be_value_of_bits(v: nat, n: nat)
    requires
        v < pow2_nat(n),
    ensures
        be_value(be_bits_of(v, n)) == v,
        be_bits_of(v, n).len() == n,
    decreases n,
{
    if n > 0 {
        lemma_be_value_of_bits(v / 2, (n - 1) as nat);
        assert(be_bits_of(v, n).drop_last() =~= be_bits_of(v / 2, (n - 1) as nat));
    }
}

} // verus!
