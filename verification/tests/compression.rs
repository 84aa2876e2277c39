use std::io::Cursor;

use agikit::compression::lzw::{agi_lzw_compress, agi_lzw_decompress, decompression_panics, DecompressionError};
use bitstream_io::{BitRead, BitReader, BitWrite, BitWriter, LittleEndian};

const KNOWN_STRING: &[u8] = b"TOBEORNOTTOBEORTOBEORNOT";
const KNOWN_COMPRESSED: &[u32] = &[
    //   T   O   B   E   O   R   N   O   T   TO   BE   OR   TOB  EO   RN   OT   [eof]
    256, 84, 79, 66, 69, 79, 82, 78, 79, 84, 258, 260, 262, 267, 261, 263, 265, 257,
];

fn codes_of(compressed: Vec<u8>) -> Vec<u32> {
    let mut cursor = Cursor::new(compressed);
    let mut reader = BitReader::endian(&mut cursor, LittleEndian);
    let mut codes = vec![];
    while let Ok(code) = reader.read::<9, u32>() {
        codes.push(code);
    }
    codes
}

fn bytes_of(codes: &[u32]) -> Vec<u8> {
    let mut bitstream: Vec<u8> = vec![];
    let mut writer = BitWriter::endian(&mut bitstream, LittleEndian);
    for code in codes {
        writer.write::<9, _>(*code).unwrap();
    }
    writer.byte_align().unwrap();
    writer.flush().unwrap();
    drop(writer);
    bitstream
}

#[test]
fn smoke_test_bitstream() {
    let codes: [u32; 4] = [1, 2, 3, 4];
    let mut encoded: Vec<u8> = vec![];
    let mut writer = BitWriter::endian(&mut encoded, LittleEndian);

    for code in codes {
        writer.write::<9, _>(code).unwrap();
    }

    writer.byte_align().unwrap();
    writer.flush().unwrap();
    drop(writer);

    let mut cursor = Cursor::new(encoded);
    let mut reader = BitReader::endian(&mut cursor, LittleEndian);
    let mut decoded: Vec<u32> = vec![];

    while let Ok(code) = reader.read::<9, u32>() {
        decoded.push(code);
    }

    assert_eq!(decoded, codes);
}

#[test]
fn test_compress_known_string() {
    let compressed = agi_lzw_compress(KNOWN_STRING).expect("Compression failed");
    assert_eq!(codes_of(compressed), KNOWN_COMPRESSED);
}

#[test]
fn test_decompress_known_string() {
    let mut bitstream: Vec<u8> = vec![];
    let mut bitstream_writer = BitWriter::endian(&mut bitstream, LittleEndian);
    for code in KNOWN_COMPRESSED {
        bitstream_writer.write::<9, _>(*code).unwrap();
    }
    drop(bitstream_writer);
    let compressed = agi_lzw_decompress(&bitstream).expect("Decompression failed");
    assert_eq!(compressed, KNOWN_STRING);
}

#[test]
fn lzw_round_trips_text() {
    for text in [&b""[..], b"a", b"aaaaaaaaaaaaaaaaaaaa", b"abababababababab", b"The quick brown fox jumps over the lazy dog"] {
        let compressed = agi_lzw_compress(text).expect("Compression failed");
        let decompressed = agi_lzw_decompress(&compressed).expect("Decompression failed");
        assert_eq!(decompressed, text);
    }
}

#[test]
fn lzw_compresses_empty_input_to_markers() {
    let compressed = agi_lzw_compress(b"").expect("Compression failed");
    assert_eq!(codes_of(compressed), vec![256, 257]);
}

#[test]
fn lzw_refuses_codes_ahead_of_dictionary() {
    let bitstream = bytes_of(&[256, 65, 300, 257]);
    match agi_lzw_decompress(&bitstream) {
        Err(DecompressionError::UnexpectedCode { expected, actual }) => {
            assert_eq!(expected, 258);
            assert_eq!(actual, 300);
        }
        other => panic!("unexpected result {:?}", other),
    }
}

#[test]
fn lzw_detects_inputs_on_which_the_decoder_panics() {
    // a byte, a start-over code, a first code with no word, then the next
    // code: it would extend an empty word
    let stuck: [u8; 5] = [65, 0, 2, 20, 8];
    assert!(decompression_panics(&stuck));
    let compressed = agi_lzw_compress(b"hello").expect("Compression failed");
    assert!(!decompression_panics(&compressed));
}
