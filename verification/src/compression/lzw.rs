//! The LZW variant of AGI version 3 resources: codes of 9 to 11 bits, least
//! significant bit first, with 256 to start over and 257 to end the resource.

use vstd::prelude::*;
use vstd::string::StringExecFns;
use std::collections::HashMap;

use crate::compression::bitstreams::{
    align_padding, bytes_to_bits_le, le_bits_of, le_value, lsb_byte_align, lsb_read_var, lsb_reader_new,
    lsb_reader_unread, lsb_write_var, lsb_writer_bits, lsb_writer_into_bytes, lsb_writer_new,
    pow2_nat, BitReadError, LsbBitReader, LsbBitWriter,
};

verus! {

pub const START_OVER_CODE: u32 = 256;

pub const END_RESOURCE_CODE: u32 = 257;

/// AGI's LZW variant reserves 256 and 257 as "start over" and "end resource".
pub const STARTING_SIZE: u32 = 257;

/// The number of binary digits of `n` (none for zero).
pub open spec fn bits_needed(n: nat) -> nat
    decreases n,
{
    if n == 0 {
        0
    } else {
        1 + bits_needed(n / 2)
    }
}

/// The width of a code for a dictionary of `size`: `ceil(log2(size + 1))`,
/// at most 11.
pub open spec fn code_length_of(size: nat) -> nat {
    if bits_needed(size) < 11 {
        bits_needed(size)
    } else {
        11
    }
}

/// A dictionary of `size` entries or more has no room left.
pub open spec fn is_full_size(size: nat) -> bool {
    size >= 2047
}

/// Every number is below 2 to the power of its number of digits.
pub proof fn lemma_below_pow2_bits_needed(n: nat)
    ensures
        n < pow2_nat(bits_needed(n)),
    decreases n,
{
    if n > 0 {
        lemma_below_pow2_bits_needed(n / 2);
    }
}

/// Fewer digits for smaller numbers.
pub proof fn lemma_bits_needed_monotonic(a: nat, b: nat)
    requires
        a <= b,
    ensures
        bits_needed(a) <= bits_needed(b),
    decreases b,
{
    if a > 0 {
        lemma_bits_needed_monotonic(a / 2, b / 2);
    }
}

/// Code widths of the dictionary sizes the coder meets.
pub proof fn lemma_code_length_range(size: nat)
    requires
        257 <= size,
    ensures
        9 <= code_length_of(size) <= 11,
        size <= 2047 ==> code_length_of(size) == bits_needed(size),
{
    lemma_bits_needed_monotonic(257, size);
    reveal_with_fuel(bits_needed, 10);
    assert(bits_needed(257) == 9);
    if size <= 2047 {
        lemma_bits_needed_monotonic(size, 2047);
        reveal_with_fuel(bits_needed, 12);
        assert(bits_needed(2047) == 11);
    }
}

/// A code of a dictionary of `size` fits in the width for that size.
pub proof fn lemma_code_fits(code: nat, size: nat)
    requires
        code <= size,
        257 <= size <= 2047,
    ensures
        code < pow2_nat(code_length_of(size)),
{
    lemma_code_length_range(size);
    lemma_below_pow2_bits_needed(size);
}

fn code_length_for(size: u32) -> (r: u32)
    ensures
        r == code_length_of(size as nat),
{
    proof {
        lemma_bits_needed_monotonic(size as nat, 0xffff_ffff);
        reveal_with_fuel(bits_needed, 33);
        assert(bits_needed(0xffff_ffff) == 32);
    }
    let mut n: u32 = size;
    let mut bits: u32 = 0;
    while n > 0
        invariant
            bits + bits_needed(n as nat) == bits_needed(size as nat),
            bits_needed(size as nat) <= 32,
        decreases n,
    {
        n = n / 2;
        bits = bits + 1;
    }
    if bits < 11 {
        bits
    } else {
        11
    }
}

/// Whether two byte strings are equal.
fn bytes_equal(a: &[u8], b: &[u8]) -> (r: bool)
    ensures
        r == (a@ == b@),
{
    if a.len() != b.len() {
        return false;
    }
    let mut i: usize = 0;
    while i < a.len()
        invariant
            a@.len() == b@.len(),
            0 <= i <= a@.len(),
            forall|j: int| 0 <= j < i ==> a@[j] == b@[j],
        decreases a@.len() - i,
    {
        if a[i] != b[i] {
            return false;
        }
        i = i + 1;
    }
    assert(a@ =~= b@);
    true
}

/// A fresh copy of a byte string.
fn copy_bytes(a: &[u8]) -> (r: Vec<u8>)
    ensures
        r@ == a@,
{
    let mut r: Vec<u8> = Vec::new();
    let mut i: usize = 0;
    while i < a.len()
        invariant
            0 <= i <= a@.len(),
            r@ == a@.subrange(0, i as int),
        decreases a@.len() - i,
    {
        r.push(a[i]);
        i = i + 1;
        assert(r@ =~= a@.subrange(0, i as int));
    }
    assert(r@ =~= a@);
    r
}

/// A copy of `a` with `b` appended.
fn bytes_with(a: &[u8], b: u8) -> (r: Vec<u8>)
    ensures
        r@ == a@.push(b),
{
    let mut r = copy_bytes(a);
    r.push(b);
    r
}

#[derive(Debug)]
pub enum CompressionError {
    KeyNotFound(Vec<u8>),
    IoError(std::io::Error),
}

/// What a fresh compression dictionary maps: each single byte to its value.
pub open spec fn initial_compression_mapping() -> Map<Seq<u8>, u32> {
    Map::new(|w: Seq<u8>| w.len() == 1, |w: Seq<u8>| w[0] as u32)
}

/// The words met so far while compressing, each with its code.
pub struct CompressionDictionary {
    words: Vec<Vec<u8>>,
    codes: Vec<u32>,
    size: u32,
    mapping: Ghost<Map<Seq<u8>, u32>>,
}

impl View for CompressionDictionary {
    type V = Map<Seq<u8>, u32>;

    closed spec fn view(&self) -> Map<Seq<u8>, u32> {
        self.mapping@
    }
}

impl CompressionDictionary {
    /// The number that the last code added took.
    pub closed spec fn size_of(&self) -> nat {
        self.size as nat
    }

    /// Each word is held once, with the code that the mapping gives it.
    pub closed spec fn wf(&self) -> bool {
        &&& self.words@.len() == self.codes@.len()
        &&& forall|j: int|
            0 <= j < self.words@.len() ==> #[trigger] self.mapping@.contains_key(self.words@[j]@)
                && self.mapping@[self.words@[j]@] == self.codes@[j]
        &&& forall|w: Seq<u8>|
            #[trigger] self.mapping@.contains_key(w) ==> exists|j: int|
                0 <= j < self.words@.len() && self.words@[j]@ == w
        &&& forall|i: int, j: int|
            0 <= i < self.words@.len() && 0 <= j < self.words@.len() && i != j
                ==> #[trigger] self.words@[i]@ != #[trigger] self.words@[j]@
    }

    pub fn new() -> (d: Self)
        ensures
            d.wf(),
            d@ == initial_compression_mapping(),
            d.size_of() == STARTING_SIZE,
    {
        let mut words: Vec<Vec<u8>> = Vec::new();
        let mut codes: Vec<u32> = Vec::new();
        let ghost mut mapping: Map<Seq<u8>, u32> = Map::empty();
        let mut i: u32 = 0;
        while i < 256
            invariant
                i <= 256,
                words@.len() == i,
                codes@.len() == i,
                forall|j: int| 0 <= j < i ==> #[trigger] words@[j]@ == seq![j as u8],
                forall|j: int| 0 <= j < i ==> #[trigger] codes@[j] == j,
                mapping == Map::new(
                    |w: Seq<u8>| w.len() == 1 && w[0] < i,
                    |w: Seq<u8>| w[0] as u32,
                ),
            decreases 256 - i,
        {
            let b: u8 = i as u8;
            let mut w: Vec<u8> = Vec::new();
            w.push(b);
            words.push(w);
            codes.push(i);
            proof {
                mapping = mapping.insert(seq![b], i);
                assert forall|x: Seq<u8>| x.len() == 1 && x[0] == b implies x == seq![b] by {
                    assert(x =~= seq![b]);
                }
                assert(mapping =~= Map::new(
                    |w: Seq<u8>| w.len() == 1 && w[0] < i + 1,
                    |w: Seq<u8>| w[0] as u32,
                ));
            }
            i = i + 1;
        }
        let d = CompressionDictionary { words, codes, size: STARTING_SIZE, mapping: Ghost(mapping) };
        assert forall|w: Seq<u8>| #[trigger] d.mapping@.contains_key(w) implies exists|j: int|
            0 <= j < d.words@.len() && d.words@[j]@ == w by {
            assert(d.words@[w[0] as int]@ =~= w);
        }
        assert forall|j: int| 0 <= j < d.words@.len() implies #[trigger] d.mapping@.contains_key(d.words@[j]@)
            && d.mapping@[d.words@[j]@] == d.codes@[j] by {
            assert(d.words@[j]@ == seq![j as u8]);
        }
        assert forall|a: int, b: int|
            0 <= a < d.words@.len() && 0 <= b < d.words@.len() && a != b
                implies #[trigger] d.words@[a]@ != #[trigger] d.words@[b]@ by {
            assert(d.words@[a]@[0] != d.words@[b]@[0]);
        }
        assert(mapping =~= initial_compression_mapping());
        d
    }

    /// Where `word` is held, if it is.
    fn find(&self, word: &[u8]) -> (r: Option<usize>)
        requires
            self.wf(),
        ensures
            match r {
                Some(j) => j < self.words@.len() && self.words@[j as int]@ == word@,
                None => !self@.contains_key(word@),
            },
    {
        let mut j: usize = 0;
        while j < self.words.len()
            invariant
                self.wf(),
                0 <= j <= self.words@.len(),
                forall|k: int| 0 <= k < j ==> self.words@[k]@ != word@,
            decreases self.words@.len() - j,
        {
            if bytes_equal(self.words[j].as_slice(), word) {
                return Some(j);
            }
            j = j + 1;
        }
        None
    }

    pub fn get(&self, word: &[u8]) -> (r: Result<u32, CompressionError>)
        requires
            self.wf(),
        ensures
            self@.contains_key(word@) ==> (r matches Ok(c) && c == self@[word@]),
            !self@.contains_key(word@) ==> (r matches Err(CompressionError::KeyNotFound(w)) && w@ == word@),
    {
        match self.find(word) {
            Some(j) => Ok(self.codes[j]),
            None => Err(CompressionError::KeyNotFound(copy_bytes(word))),
        }
    }

    pub fn has(&self, key: &Vec<u8>) -> (r: bool)
        requires
            self.wf(),
        ensures
            r == self@.contains_key(key@),
    {
        self.find(key.as_slice()).is_some()
    }

    /// Gives `word` the next code: the size grows by one and is the word's code.
    pub fn add(&mut self, word: &[u8])
        requires
            old(self).wf(),
            old(self).size_of() < u32::MAX,
        ensures
            final(self).wf(),
            final(self).size_of() == old(self).size_of() + 1,
            final(self)@ == old(self)@.insert(word@, (old(self).size_of() + 1) as u32),
    {
        self.size = self.size + 1;
        let code = self.size;
        match self.find(word) {
            Some(j) => {
                self.codes.set(j, code);
                proof {
                    self.mapping@ = self.mapping@.insert(word@, code);
                }
            },
            None => {
                self.words.push(copy_bytes(word));
                self.codes.push(code);
                proof {
                    self.mapping@ = self.mapping@.insert(word@, code);
                }
            },
        }
        assert forall|j: int|
            0 <= j < self.words@.len() implies #[trigger] self.mapping@.contains_key(self.words@[j]@)
                && self.mapping@[self.words@[j]@] == self.codes@[j] by {
            if j < old(self).words@.len() {
                assert(old(self).mapping@.contains_key(old(self).words@[j]@));
            }
        }
        assert forall|a: int, b: int|
            0 <= a < self.words@.len() && 0 <= b < self.words@.len() && a != b
                implies #[trigger] self.words@[a]@ != #[trigger] self.words@[b]@ by {
            if a < old(self).words@.len() && b < old(self).words@.len() {
                assert(old(self).words@[a]@ != old(self).words@[b]@);
            } else if a < old(self).words@.len() {
                assert(old(self).mapping@.contains_key(old(self).words@[a]@));
            } else {
                assert(old(self).mapping@.contains_key(old(self).words@[b]@));
            }
        }
        assert forall|w: Seq<u8>| #[trigger] self.mapping@.contains_key(w) implies exists|j: int|
            0 <= j < self.words@.len() && self.words@[j]@ == w by {
            if w == word@ {
                if self.words@.len() > old(self).words@.len() {
                    assert(self.words@[self.words@.len() - 1]@ == w);
                }
            } else {
                assert(old(self).mapping@.contains_key(w));
                let j = choose|j: int| 0 <= j < old(self).words@.len() && old(self).words@[j]@ == w;
                assert(self.words@[j]@ == w);
            }
        }
    }

    pub fn get_size(&self) -> (r: u32)
        ensures
            r == self.size_of(),
    {
        self.size
    }

    /// The width of the next code written: `ceil(log2(size + 1))`, at most 11.
    pub fn code_length(&self) -> (r: u32)
        ensures
            r == code_length_of(self.size_of()),
    {
        code_length_for(self.size)
    }

    pub fn is_full(&self) -> (r: bool)
        ensures
            r == is_full_size(self.size_of()),
    {
        self.size >= 2047
    }
}

/// The words met so far while decompressing, by code. Code 256 is never
/// given a word.
pub struct DecompressionDictionary {
    mapping: HashMap<u32, Vec<u8>>,
    size: u32,
}

/// What a fresh decompression dictionary maps: each byte value to that byte.
pub open spec fn initial_decompression_mapping() -> Map<u32, Seq<u8>> {
    Map::new(|c: u32| c < 256, |c: u32| seq![c as u8])
}

impl View for DecompressionDictionary {
    type V = Map<u32, Seq<u8>>;

    closed spec fn view(&self) -> Map<u32, Seq<u8>> {
        self.mapping@.map_values(|w: Vec<u8>| w@)
    }
}

impl DecompressionDictionary {
    /// The code that the next word added takes.
    pub closed spec fn size_of(&self) -> nat {
        self.size as nat
    }

    /// A word for each code below the size but the start-over code.
    pub closed spec fn wf(&self) -> bool {
        &&& forall|c: u32| #[trigger] self.mapping@.contains_key(c) <==> (c < self.size && c != START_OVER_CODE)
        &&& self.size >= STARTING_SIZE
    }

    pub fn new() -> (d: Self)
        ensures
            d.wf(),
            d@ == initial_decompression_mapping(),
            d.size_of() == STARTING_SIZE,
    {
        broadcast use vstd::std_specs::hash::group_hash_axioms;
        let mut mapping: HashMap<u32, Vec<u8>> = HashMap::new();
        let mut i: u32 = 0;
        while i < 256
            invariant
                i <= 256,
                forall|c: u32| #[trigger] mapping@.contains_key(c) <==> c < i,
                forall|c: u32| c < i ==> (#[trigger] mapping@[c])@ == seq![c as u8],
            decreases 256 - i,
        {
            let mut w: Vec<u8> = Vec::new();
            w.push(i as u8);
            mapping.insert(i, w);
            i = i + 1;
        }
        let d = DecompressionDictionary { mapping, size: STARTING_SIZE };
        assert(d@ =~= initial_decompression_mapping());
        d
    }

    pub fn get(&self, key: &u32) -> (r: Option<&Vec<u8>>)
        requires
            self.wf(),
        ensures
            self@.contains_key(*key) ==> (r matches Some(w) && w@ == self@[*key]),
            !self@.contains_key(*key) ==> r is None,
    {
        broadcast use vstd::std_specs::hash::group_hash_axioms;
        self.mapping.get(key)
    }

    pub fn has(&self, key: &u32) -> (r: bool)
        requires
            self.wf(),
        ensures
            r == self@.contains_key(*key),
    {
        broadcast use vstd::std_specs::hash::group_hash_axioms;
        self.mapping.contains_key(key)
    }

    /// Gives `word` the code equal to the size, which then grows by one.
    pub fn add(&mut self, word: &[u8])
        requires
            old(self).wf(),
            old(self).size_of() < u32::MAX,
        ensures
            final(self).wf(),
            final(self).size_of() == old(self).size_of() + 1,
            final(self)@ == old(self)@.insert(old(self).size_of() as u32, word@),
    {
        broadcast use vstd::std_specs::hash::group_hash_axioms;
        let size = self.size;
        self.mapping.insert(size, copy_bytes(word));
        self.size = size + 1;
        assert(self@ =~= old(self)@.insert(old(self).size_of() as u32, word@));
    }

    pub fn get_size(&self) -> (r: u32)
        ensures
            r == self.size_of(),
    {
        self.size
    }

    /// The width of the next code read: `ceil(log2(size + 1))`, at most 11.
    pub fn code_length(&self) -> (r: u32)
        ensures
            r == code_length_of(self.size_of()),
    {
        code_length_for(self.size)
    }

    pub fn is_full(&self) -> (r: bool)
        ensures
            r == is_full_size(self.size_of()),
    {
        self.size >= 2047
    }
}

/// Where compression stands after a prefix of the input: the dictionary and
/// its size, the word matched so far, and the bits written.
pub struct CompressState {
    pub dict: Map<Seq<u8>, u32>,
    pub size: nat,
    pub word: Seq<u8>,
    pub bits: Seq<bool>,
}

/// Before the first byte: a fresh dictionary, and the start-over code in 9 bits.
pub open spec fn compress_start() -> CompressState {
    CompressState {
        dict: initial_compression_mapping(),
        size: STARTING_SIZE as nat,
        word: Seq::empty(),
        bits: le_bits_of(START_OVER_CODE as nat, 9),
    }
}

/// One byte more. While the word with the byte appended is known, the word
/// grows. Otherwise the word's code is written; then either the word with the
/// byte takes the next code, or, in a full dictionary, the start-over code is
/// written and the dictionary starts afresh. The byte begins the next word.
pub open spec fn compress_step(s: CompressState, byte: u8) -> CompressState {
    let joined = s.word.push(byte);
    if s.dict.contains_key(joined) {
        CompressState { word: joined, ..s }
    } else {
        let width = code_length_of(s.size);
        let bits = s.bits + le_bits_of(s.dict[s.word] as nat, width);
        if is_full_size(s.size) {
            CompressState {
                dict: initial_compression_mapping(),
                size: STARTING_SIZE as nat,
                word: seq![byte],
                bits: bits + le_bits_of(START_OVER_CODE as nat, width),
            }
        } else {
            CompressState {
                dict: s.dict.insert(joined, (s.size + 1) as u32),
                size: s.size + 1,
                word: seq![byte],
                bits,
            }
        }
    }
}

/// Where compression stands after all of `input`.
pub open spec fn compress_after(input: Seq<u8>) -> CompressState
    decreases input.len(),
{
    if input.len() == 0 {
        compress_start()
    } else {
        compress_step(compress_after(input.drop_last()), input.last())
    }
}

/// The bits of the compressed form of `input`: the codes written while
/// reading it, the code of the last word, the end code, and zero bits up to
/// a whole byte.
pub open spec fn compressed_bits(input: Seq<u8>) -> Seq<bool> {
    let s = compress_after(input);
    let width = code_length_of(s.size);
    let with_word = if s.word.len() > 0 {
        s.bits + le_bits_of(s.dict[s.word] as nat, width)
    } else {
        s.bits
    };
    let ended = with_word + le_bits_of(END_RESOURCE_CODE as nat, width);
    ended + align_padding(ended.len())
}

/// What holds of every state that compression reaches.
pub open spec fn compress_state_ok(s: CompressState) -> bool {
    &&& STARTING_SIZE <= s.size <= 2047
    &&& forall|w: Seq<u8>| #[trigger] s.dict.contains_key(w) ==> s.dict[w] <= s.size
    &&& forall|b: u8| #[trigger] s.dict.contains_key(seq![b])
    &&& s.word.len() > 0 ==> s.dict.contains_key(s.word)
}

proof fn lemma_initial_singles(b: u8)
    ensures
        initial_compression_mapping().contains_key(seq![b]),
{
}

/// Every step keeps what holds of the states of compression.
pub proof fn lemma_compress_step_ok(s: CompressState, byte: u8)
    requires
        compress_state_ok(s),
    ensures
        compress_state_ok(compress_step(s, byte)),
{
    let t = compress_step(s, byte);
    let joined = s.word.push(byte);
    if !s.dict.contains_key(joined) {
        assert forall|b: u8| #[trigger] t.dict.contains_key(seq![b]) by {
            lemma_initial_singles(b);
            assert(s.dict.contains_key(seq![b]));
        }
        assert(t.dict.contains_key(seq![byte]));
    }
}

/// Every state that compression reaches is as it should be.
pub proof fn lemma_compress_after_ok(input: Seq<u8>)
    ensures
        compress_state_ok(compress_after(input)),
    decreases input.len(),
{
    if input.len() == 0 {
        assert forall|b: u8| #[trigger] compress_start().dict.contains_key(seq![b]) by {
            lemma_initial_singles(b);
        }
    } else {
        lemma_compress_after_ok(input.drop_last());
        lemma_compress_step_ok(compress_after(input.drop_last()), input.last());
    }
}

/// Padding a stream to a whole byte leaves a whole number of bytes.
proof fn lemma_padded_whole_bytes(bits: Seq<bool>)
    ensures
        (bits + align_padding(bits.len())).len() % 8 == 0,
{
}

/// Compresses `compressed` (the bytes to compress): the codes of the words
/// found, 9 to 11 bits each, least significant bit first, after a start-over
/// code and before an end code.
pub fn agi_lzw_compress(compressed: &[u8]) -> (r: Result<Vec<u8>, CompressionError>)
    ensures
        r matches Ok(out) && bytes_to_bits_le(out@) == compressed_bits(compressed@),
{
    let mut writer: LsbBitWriter = lsb_writer_new();
    let mut dictionary = CompressionDictionary::new();
    let mut word: Vec<u8> = Vec::new();
    proof {
        reveal_with_fuel(pow2_nat, 10);
    }
    match lsb_write_var(&mut writer, 9, START_OVER_CODE) {
        Ok(()) => {},
        Err(e) => {
            return Err(CompressionError::IoError(e));
        },
    }
    let ghost input = compressed@;
    let mut i: usize = 0;
    while i < compressed.len()
        invariant
            0 <= i <= input.len(),
            input == compressed@,
            dictionary.wf(),
            ({
                let s = compress_after(input.take(i as int));
                &&& dictionary@ == s.dict
                &&& dictionary.size_of() == s.size
                &&& word@ == s.word
                &&& lsb_writer_bits(writer) == s.bits
                &&& compress_state_ok(s)
            }),
        decreases input.len() - i,
    {
        let ghost s = compress_after(input.take(i as int));
        let byte = compressed[i];
        proof {
            assert(input.take(i + 1).drop_last() =~= input.take(i as int));
            lemma_compress_step_ok(s, byte);
        }
        let joined = bytes_with(word.as_slice(), byte);
        if dictionary.has(&joined) {
            word = joined;
        } else {
            proof {
                if s.word.len() == 0 {
                    assert(joined@ =~= seq![byte]);
                }
            }
            let word_code = match dictionary.get(word.as_slice()) {
                Ok(c) => c,
                Err(e) => {
                    return Err(e);
                },
            };
            let width = dictionary.code_length();
            proof {
                lemma_code_length_range(s.size);
                lemma_code_fits(word_code as nat, s.size);
                lemma_code_fits(START_OVER_CODE as nat, s.size);
            }
            match lsb_write_var(&mut writer, width, word_code) {
                Ok(()) => {},
                Err(e) => {
                    return Err(CompressionError::IoError(e));
                },
            }
            if dictionary.is_full() {
                match lsb_write_var(&mut writer, width, START_OVER_CODE) {
                    Ok(()) => {},
                    Err(e) => {
                        return Err(CompressionError::IoError(e));
                    },
                }
                dictionary = CompressionDictionary::new();
            } else {
                dictionary.add(joined.as_slice());
            }
            let mut next: Vec<u8> = Vec::new();
            next.push(byte);
            word = next;
            proof {
                assert(word@ =~= seq![byte]);
            }
        }
        i = i + 1;
    }
    proof {
        assert(input.take(input.len() as int) =~= input);
    }
    let ghost s = compress_after(input);
    let width = dictionary.code_length();
    proof {
        lemma_code_length_range(s.size);
        lemma_code_fits(END_RESOURCE_CODE as nat, s.size);
    }
    if word.len() > 0 {
        let word_code = match dictionary.get(word.as_slice()) {
            Ok(c) => c,
            Err(e) => {
                return Err(e);
            },
        };
        proof {
            lemma_code_fits(word_code as nat, s.size);
        }
        match lsb_write_var(&mut writer, width, word_code) {
            Ok(()) => {},
            Err(e) => {
                return Err(CompressionError::IoError(e));
            },
        }
    }
    match lsb_write_var(&mut writer, width, END_RESOURCE_CODE) {
        Ok(()) => {},
        Err(e) => {
            return Err(CompressionError::IoError(e));
        },
    }
    let ghost ended = lsb_writer_bits(writer);
    match lsb_byte_align(&mut writer) {
        Ok(()) => {},
        Err(e) => {
            return Err(CompressionError::IoError(e));
        },
    }
    let ghost all_bits = lsb_writer_bits(writer);
    proof {
        lemma_padded_whole_bytes(ended);
        assert(all_bits == compressed_bits(input));
    }
    let out = lsb_writer_into_bytes(writer);
    proof {
        assert(all_bits.take(8 * (all_bits.len() / 8) as int) =~= all_bits);
    }
    Ok(out)
}

#[derive(Debug)]
pub enum DecompressionError {
    IoError(std::io::Error),
    UnexpectedCode { expected: u32, actual: u32 },
}

impl DecompressionError {
    /// The error as it is reported: the reading error's own text, or the
    /// code that was expected and the one read.
    pub fn to_string(&self) -> (r: String)
        ensures
            self matches DecompressionError::UnexpectedCode { expected, actual } ==> r@ == "Unexpected code: expected "@
                + crate::formatting::decimal_digits(expected as nat) + ", got "@ + crate::formatting::decimal_digits(
                actual as nat,
            ),
    {
        proof {
            reveal_strlit("Unexpected code: expected ");
            reveal_strlit(", got ");
        }
        match self {
            DecompressionError::IoError(e) => e.to_string(),
            DecompressionError::UnexpectedCode { expected, actual } => {
                let mut s = String::from_str("Unexpected code: expected ");
                s.append(crate::formatting::decimal_string(*expected).as_str());
                s.append(", got ");
                s.append(crate::formatting::decimal_string(*actual).as_str());
                s
            },
        }
    }
}

/// How decompressing a stream of bits ends.
pub enum DecompressOutcome {
    /// The end code, or the end of the data where a code would start: the bytes.
    Finished(Seq<u8>),
    /// The data ended where the first code, or the code after a start-over
    /// code, should be.
    ReadFailed,
    /// A code that is neither known nor the next to be given.
    UnexpectedCode { expected: nat, actual: nat },
    /// A code that would extend an empty word, or a dictionary that would
    /// outgrow `u32`: the decoder panics there.
    Stuck,
}

/// The word a fresh dictionary gives `code`, or nothing.
pub open spec fn initial_word(code: nat) -> Seq<u8> {
    if code < 256 {
        seq![code as u8]
    } else {
        Seq::empty()
    }
}

/// Decompression from the state reached: the dictionary and its size, the
/// last word, the bytes produced, and the bits not read yet.
pub open spec fn decompress_loop(
    dict: Map<u32, Seq<u8>>,
    size: nat,
    word: Seq<u8>,
    result: Seq<u8>,
    bits: Seq<bool>,
) -> DecompressOutcome
    decreases bits.len(),
{
    let width = code_length_of(size);
    if width == 0 || bits.len() < width {
        DecompressOutcome::Finished(result)
    } else {
        let code = le_value(bits.take(width as int));
        let rest = bits.skip(width as int);
        if code == END_RESOURCE_CODE {
            DecompressOutcome::Finished(result)
        } else if code == START_OVER_CODE {
            if rest.len() < 9 {
                DecompressOutcome::ReadFailed
            } else {
                let w = initial_word(le_value(rest.take(9)));
                decompress_loop(
                    initial_decompression_mapping().insert(STARTING_SIZE, w),
                    (STARTING_SIZE + 1) as nat,
                    w,
                    result + w,
                    rest.skip(9),
                )
            }
        } else {
            let known = dict.contains_key(code as u32);
            if !known && code != size {
                DecompressOutcome::UnexpectedCode { expected: size, actual: code }
            } else if !known && word.len() == 0 {
                DecompressOutcome::Stuck
            } else {
                let entry = if known {
                    dict[code as u32]
                } else {
                    word.push(word[0])
                };
                if entry.len() == 0 || size >= u32::MAX {
                    DecompressOutcome::Stuck
                } else {
                    decompress_loop(
                        dict.insert(size as u32, word.push(entry[0])),
                        size + 1,
                        entry,
                        result + entry,
                        rest,
                    )
                }
            }
        }
    }
}

/// Decompression of a whole stream of bits: a first code of 9 bits, whose
/// word (if any) opens the output, then codes until the end.
pub open spec fn decompress_outcome(bits: Seq<bool>) -> DecompressOutcome {
    if bits.len() < 9 {
        DecompressOutcome::ReadFailed
    } else {
        let w = initial_word(le_value(bits.take(9)));
        decompress_loop(initial_decompression_mapping(), STARTING_SIZE as nat, w, w, bits.skip(9))
    }
}

/// A value of `bits.len()` bits is below 2 to that power.
pub proof fn lemma_le_value_bound(bits: Seq<bool>)
    ensures
        le_value(bits) < pow2_nat(bits.len()),
    decreases bits.len(),
{
    if bits.len() > 0 {
        lemma_le_value_bound(bits.drop_first());
    }
}

/// Appends `extra` to `v`.
fn append_bytes(v: &mut Vec<u8>, extra: &[u8])
    ensures
        final(v)@ == old(v)@ + extra@,
{
    let mut i: usize = 0;
    while i < extra.len()
        invariant
            0 <= i <= extra@.len(),
            v@ == old(v)@ + extra@.subrange(0, i as int),
        decreases extra@.len() - i,
    {
        v.push(extra[i]);
        i = i + 1;
        assert(v@ =~= old(v)@ + extra@.subrange(0, i as int));
    }
    assert(extra@.subrange(0, extra@.len() as int) =~= extra@);
}

/// Reads one code of `width` bits; a read past the end of the data is an error.
fn read_code(reader: &mut LsbBitReader, width: u32) -> (r: Result<u32, DecompressionError>)
    requires
        9 <= width <= 11,
    ensures
        lsb_reader_unread(*old(reader)).len() >= width ==> (r matches Ok(c) && c == le_value(
            lsb_reader_unread(*old(reader)).take(width as int),
        ) && lsb_reader_unread(*final(reader)) == lsb_reader_unread(*old(reader)).skip(width as int)),
        lsb_reader_unread(*old(reader)).len() < width ==> r matches Err(DecompressionError::IoError(_)),
{
    match lsb_read_var(reader, width) {
        Ok(c) => Ok(c),
        Err(BitReadError::EndOfData(e)) => Err(DecompressionError::IoError(e)),
        Err(BitReadError::Other(e)) => Err(DecompressionError::IoError(e)),
    }
}

/// Decompresses a resource: codes of 9 to 11 bits, least significant bit
/// first, each a byte, a word known to the dictionary, or the word that the
/// next code will name; 256 starts over and 257 ends.
pub fn agi_lzw_decompress(compressed: &[u8]) -> (r: Result<Vec<u8>, DecompressionError>)
    requires
        !(decompress_outcome(bytes_to_bits_le(compressed@)) is Stuck),
    ensures
        decompressed_as(r, decompress_outcome(bytes_to_bits_le(compressed@))),
{
    match agi_lzw_decompress_checked(compressed) {
        Some(r) => r,
        None => Ok(Vec::new()),
    }
}

/// `r` is what the outcome `o` describes.
pub open spec fn decompressed_as(r: Result<Vec<u8>, DecompressionError>, o: DecompressOutcome) -> bool {
    match o {
        DecompressOutcome::Finished(out) => r matches Ok(v) && v@ == out,
        DecompressOutcome::ReadFailed => r matches Err(DecompressionError::IoError(_)),
        DecompressOutcome::UnexpectedCode { expected, actual } => r matches Err(
            DecompressionError::UnexpectedCode { expected: e, actual: a },
        ) && e == expected && a == actual,
        DecompressOutcome::Stuck => false,
    }
}

/// Whether decompressing `compressed` reaches a point where the decoder
/// panics (a code that extends an empty word, or a dictionary that outgrows
/// `u32`).
pub fn decompression_panics(compressed: &[u8]) -> (b: bool)
    ensures
        b == (decompress_outcome(bytes_to_bits_le(compressed@)) is Stuck),
{
    agi_lzw_decompress_checked(compressed).is_none()
}

/// Decompression as `agi_lzw_decompress` does it, with `None` on the inputs
/// where that decoder panics.
pub fn agi_lzw_decompress_checked(compressed: &[u8]) -> (r: Option<Result<Vec<u8>, DecompressionError>>)
    ensures
        match r {
            Some(x) => decompressed_as(x, decompress_outcome(bytes_to_bits_le(compressed@))),
            None => decompress_outcome(bytes_to_bits_le(compressed@)) is Stuck,
        },
{
    let ghost all_bits = bytes_to_bits_le(compressed@);
    proof {
        lemma_bits_le_len(compressed@);
    }
    let mut dictionary = DecompressionDictionary::new();
    let mut reader = lsb_reader_new(copy_bytes(compressed));
    proof {
        lemma_code_length_range(STARTING_SIZE as nat);
        reveal_with_fuel(bits_needed, 10);
    }
    let first = read_code(&mut reader, dictionary.code_length());
    let first = match first {
        Ok(c) => c,
        Err(e) => {
            return Some(Err(e));
        },
    };
    let mut word: Vec<u8> = match dictionary.get(&first) {
        Some(w) => copy_bytes(w.as_slice()),
        None => Vec::new(),
    };
    proof {
        assert(word@ =~= initial_word(first as nat));
    }
    let mut result: Vec<u8> = copy_bytes(word.as_slice());
    loop
        invariant
            dictionary.wf(),
            STARTING_SIZE <= dictionary.size_of(),
            dictionary.size_of() + lsb_reader_unread(reader).len() / 9 <= 258 + all_bits.len() / 9,
            all_bits.len() == 8 * compressed@.len(),
            all_bits == bytes_to_bits_le(compressed@),
            decompress_loop(
                dictionary@,
                dictionary.size_of(),
                word@,
                result@,
                lsb_reader_unread(reader),
            ) == decompress_outcome(all_bits),
        decreases lsb_reader_unread(reader).len(),
    {
        let ghost unread = lsb_reader_unread(reader);
        let width = dictionary.code_length();
        proof {
            lemma_code_length_range(dictionary.size_of());
        }
        let code = match lsb_read_var(&mut reader, width) {
            Ok(c) => c,
            Err(BitReadError::EndOfData(_)) => {
                assert(decompress_loop(dictionary@, dictionary.size_of(), word@, result@, unread)
                    == DecompressOutcome::Finished(result@));
                return Some(Ok(result));
            },
            Err(BitReadError::Other(e)) => {
                return Some(Err(DecompressionError::IoError(e)));
            },
        };
        proof {
            lemma_le_value_bound(unread.take(width as int));
            reveal_with_fuel(pow2_nat, 12);
        }
        if code == END_RESOURCE_CODE {
            assert(decompress_loop(dictionary@, dictionary.size_of(), word@, result@, unread)
                == DecompressOutcome::Finished(result@));
            return Some(Ok(result));
        }
        if code == START_OVER_CODE {
            dictionary = DecompressionDictionary::new();
            let c = match read_code(&mut reader, 9) {
                Ok(c) => c,
                Err(e) => {
                    return Some(Err(e));
                },
            };
            word = match dictionary.get(&c) {
                Some(w) => copy_bytes(w.as_slice()),
                None => Vec::new(),
            };
            proof {
                assert(word@ =~= initial_word(c as nat));
            }
            dictionary.add(word.as_slice());
            append_bytes(&mut result, word.as_slice());
        } else {
            let size = dictionary.get_size();
            let entry: Vec<u8> = match dictionary.get(&code) {
                Some(w) => copy_bytes(w.as_slice()),
                None => {
                    if code == size {
                        if word.len() == 0 {
                            return None;
                        }
                        let first_byte = word[0];
                        bytes_with(word.as_slice(), first_byte)
                    } else {
                        return Some(Err(DecompressionError::UnexpectedCode { expected: size, actual: code }));
                    }
                },
            };
            if entry.len() == 0 || size == u32::MAX {
                return None;
            }
            append_bytes(&mut result, entry.as_slice());
            let new_word = bytes_with(word.as_slice(), entry[0]);
            dictionary.add(new_word.as_slice());
            word = entry;
        }
    }
}

/// Eight bits for each byte.
pub proof fn lemma_bits_le_len(bytes: Seq<u8>)
    ensures
        bytes_to_bits_le(bytes).len() == 8 * bytes.len(),
    decreases bytes.len(),
{
    if bytes.len() > 0 {
        lemma_bits_le_len(bytes.drop_last());
        lemma_le_bits_len(bytes.last() as nat, 8);
    }
}

/// `le_bits_of(v, n)` has `n` bits.
pub proof fn lemma_le_bits_len(v: nat, n: nat)
    ensures
        le_bits_of(v, n).len() == n,
    decreases n,
{
    if n > 0 {
        lemma_le_bits_len(v / 2, (n - 1) as nat);
    }
}

} // verus!
