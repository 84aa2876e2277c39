//! What decompressing the output of compression gives back.

use vstd::prelude::*;

use crate::compression::bitstreams::{align_padding, le_bits_of, le_value, pow2_nat};
use crate::compression::lzw::{
    code_length_of, compress_after, compress_start, compress_state_ok, compress_step, compressed_bits,
    decompress_loop, decompress_outcome, initial_compression_mapping, initial_decompression_mapping,
    initial_word, is_full_size, lemma_bits_needed_monotonic, lemma_code_fits, lemma_code_length_range,
    lemma_compress_step_ok, lemma_le_bits_len, lemma_le_value_bound, bits_needed, CompressState,
    DecompressOutcome, END_RESOURCE_CODE, STARTING_SIZE, START_OVER_CODE,
};

verus! {

/// The value that `n` bits write, read back.
proof fn lemma_le_bits_value(v: nat, n: nat)
    requires
        v < pow2_nat(n),
    ensures
        le_value(le_bits_of(v, n)) == v,
        le_bits_of(v, n).len() == n,
    decreases n,
{
    lemma_le_bits_len(v, n);
    if n > 0 {
        lemma_le_bits_value(v / 2, (n - 1) as nat);
        let b = le_bits_of(v, n);
        assert(b.drop_first() =~= le_bits_of(v / 2, (n - 1) as nat));
    }
}

/// A zero bit after the most significant one changes nothing.
proof fn lemma_le_value_push_zero(bits: Seq<bool>)
    ensures
        le_value(bits.push(false)) == le_value(bits),
    decreases bits.len(),
{
    if bits.len() > 0 {
        assert(bits.push(false)[0] == bits[0]);
        assert(bits.push(false).drop_first() =~= bits.drop_first().push(false));
        lemma_le_value_push_zero(bits.drop_first());
    } else {
        assert(bits.push(false).drop_first() =~= Seq::<bool>::empty());
        assert(le_value(Seq::<bool>::empty()) == 0);
        assert(le_value(bits.push(false).drop_first()) == 0);
    }
}

/// The code widths of the sizes that compression meets, and of one more.
proof fn lemma_code_length_values(n: nat)
    requires
        257 <= n <= 2048,
    ensures
        code_length_of(n) == (if n < 512 {
            9nat
        } else if n < 1024 {
            10nat
        } else {
            11nat
        }),
{
    reveal_with_fuel(bits_needed, 13);
    assert(bits_needed(257) == 9);
    assert(bits_needed(511) == 9);
    assert(bits_needed(512) == 10);
    assert(bits_needed(1023) == 10);
    assert(bits_needed(1024) == 11);
    assert(bits_needed(2048) == 12);
    if n < 512 {
        lemma_bits_needed_monotonic(257, n);
        lemma_bits_needed_monotonic(n, 511);
    } else if n < 1024 {
        lemma_bits_needed_monotonic(512, n);
        lemma_bits_needed_monotonic(n, 1023);
    } else {
        lemma_bits_needed_monotonic(1024, n);
    }
}

/// What holds of the codes of every state that compression reaches: a
/// single byte keeps its own value, a longer word has a code from 258 on,
/// and no two words share a code.
spec fn compress_codes_ok(s: CompressState) -> bool {
    &&& compress_state_ok(s)
    &&& forall|w: Seq<u8>|
        #[trigger] s.dict.contains_key(w) ==> {
            &&& w.len() >= 1
            &&& (w.len() == 1 ==> s.dict[w] == w[0] as u32)
            &&& (w.len() >= 2 ==> 258 <= s.dict[w])
        }
    &&& forall|w1: Seq<u8>, w2: Seq<u8>|
        #![trigger s.dict[w1], s.dict[w2]]
        s.dict.contains_key(w1) && s.dict.contains_key(w2) && s.dict[w1] == s.dict[w2] ==> w1 == w2
}

proof fn lemma_initial_codes_ok(s: CompressState)
    requires
        s.dict == initial_compression_mapping(),
        STARTING_SIZE <= s.size <= 2047,
        s.word.len() > 0 ==> s.word.len() == 1,
    ensures
        compress_codes_ok(s),
{
    assert forall|b: u8| #[trigger] s.dict.contains_key(seq![b]) by {
        assert(seq![b].len() == 1);
    }
    assert forall|w1: Seq<u8>, w2: Seq<u8>|
        s.dict.contains_key(w1) && s.dict.contains_key(w2) && #[trigger] s.dict[w1] == #[trigger] s.dict[w2]
        implies w1 == w2 by {
        assert(w1 =~= w2);
    }
}

proof fn lemma_codes_step(s: CompressState, byte: u8)
    requires
        compress_codes_ok(s),
    ensures
        compress_codes_ok(compress_step(s, byte)),
{
    lemma_compress_step_ok(s, byte);
    let t = compress_step(s, byte);
    let joined = s.word.push(byte);
    if !s.dict.contains_key(joined) {
        if s.word.len() == 0 {
            assert(joined =~= seq![byte]);
        }
        if is_full_size(s.size) {
            lemma_initial_codes_ok(t);
        } else {
            assert forall|w1: Seq<u8>, w2: Seq<u8>|
                t.dict.contains_key(w1) && t.dict.contains_key(w2) && #[trigger] t.dict[w1]
                    == #[trigger] t.dict[w2] implies w1 == w2 by {
                if w1 != joined && w2 != joined {
                    assert(s.dict[w1] == s.dict[w2]);
                }
            }
        }
    }
}

proof fn lemma_codes_after(input: Seq<u8>)
    ensures
        compress_codes_ok(compress_after(input)),
    decreases input.len(),
{
    if input.len() == 0 {
        lemma_initial_codes_ok(compress_start());
    } else {
        lemma_codes_after(input.drop_last());
        lemma_codes_step(compress_after(input.drop_last()), input.last());
    }
}

/// The decompressor's state `dict`, `word`, `result` follows compression
/// that stands at `s` after `input`: the bytes produced and the word
/// pending make up the input; it knows each code below the size; and the
/// word last added pairs its last word with the pending word's first byte.
spec fn decompress_tracks(
    s: CompressState,
    dict: Map<u32, Seq<u8>>,
    word: Seq<u8>,
    result: Seq<u8>,
    input: Seq<u8>,
) -> bool {
    &&& result + s.word == input
    &&& forall|w: Seq<u8>|
        #[trigger] s.dict.contains_key(w) && s.dict[w] < s.size ==> dict.contains_key(s.dict[w])
            && dict[s.dict[w]] == w
    &&& forall|k: u32| #[trigger] dict.contains_key(k) ==> k < s.size && k != START_OVER_CODE
    &&& s.size > STARTING_SIZE ==> {
        &&& word.len() > 0
        &&& s.word.len() > 0
        &&& s.dict.contains_key(word.push(s.word[0]))
        &&& s.dict[word.push(s.word[0])] == s.size
    }
}

/// Reading the code that compression writes for its pending word.
proof fn lemma_read_word(
    s: CompressState,
    dict: Map<u32, Seq<u8>>,
    word: Seq<u8>,
    result: Seq<u8>,
    input: Seq<u8>,
    rest: Seq<bool>,
)
    requires
        compress_codes_ok(s),
        decompress_tracks(s, dict, word, result, input),
        s.word.len() > 0,
    ensures
        decompress_loop(
            dict,
            s.size,
            word,
            result,
            le_bits_of(s.dict[s.word] as nat, code_length_of(s.size)) + rest,
        ) == decompress_loop(
            dict.insert(s.size as u32, word.push(s.word[0])),
            s.size + 1,
            s.word,
            result + s.word,
            rest,
        ),
{
    let c = s.dict[s.word];
    let w = code_length_of(s.size);
    lemma_code_length_range(s.size);
    lemma_code_fits(c as nat, s.size);
    lemma_le_bits_value(c as nat, w);
    let bits = le_bits_of(c as nat, w) + rest;
    assert(bits.take(w as int) =~= le_bits_of(c as nat, w));
    assert(bits.skip(w as int) =~= rest);
    assert(s.dict.contains_key(s.word));
    if c < s.size {
        assert(dict.contains_key(c) && dict[c] == s.word);
    } else {
        assert(!dict.contains_key(c));
        assert(s.dict[word.push(s.word[0])] == s.size);
        assert(s.word == word.push(s.word[0]));
        assert(word.push(word[0]) =~= s.word);
    }
}

/// A start-over code followed by a single byte's code leaves the reader
/// where a fresh one stands before that code.
proof fn lemma_start_over(
    dict: Map<u32, Seq<u8>>,
    size: nat,
    word: Seq<u8>,
    result: Seq<u8>,
    rest: Seq<bool>,
    b: u8,
)
    requires
        code_length_of(size) == 11,
        rest.len() >= 9,
        rest.take(9) == le_bits_of(b as nat, 9),
    ensures
        decompress_loop(dict, size, word, result, le_bits_of(START_OVER_CODE as nat, 11) + rest)
            == decompress_loop(initial_decompression_mapping(), STARTING_SIZE as nat, Seq::empty(), result, rest),
{
    reveal_with_fuel(pow2_nat, 12);
    lemma_le_bits_value(START_OVER_CODE as nat, 11);
    lemma_le_bits_value(b as nat, 9);
    lemma_code_length_values(257);
    let bits = le_bits_of(START_OVER_CODE as nat, 11) + rest;
    assert(bits.take(11) =~= le_bits_of(START_OVER_CODE as nat, 11));
    assert(bits.skip(11) =~= rest);
    assert(Seq::<u8>::empty().push(b) =~= seq![b]);
    assert(initial_decompression_mapping()[b as u32] == seq![b]);
}

/// Reading the end code, written in `w` bits, in a stream that zero bits pad.
proof fn lemma_read_end(
    dict: Map<u32, Seq<u8>>,
    size: nat,
    word: Seq<u8>,
    result: Seq<u8>,
    w: nat,
    pad: Seq<bool>,
)
    requires
        9 <= w <= 11,
        code_length_of(size) == w || code_length_of(size) == w + 1,
        forall|k: int| 0 <= k < pad.len() ==> !pad[k],
    ensures
        decompress_loop(dict, size, word, result, le_bits_of(END_RESOURCE_CODE as nat, w) + pad)
            == DecompressOutcome::Finished(result),
{
    reveal_with_fuel(pow2_nat, 12);
    lemma_le_bits_value(END_RESOURCE_CODE as nat, w);
    let e = le_bits_of(END_RESOURCE_CODE as nat, w);
    let bits = e + pad;
    if code_length_of(size) == w {
        assert(bits.take(w as int) =~= e);
    } else if bits.len() >= w + 1 {
        assert(bits.take(w + 1 as int) =~= e.push(false));
        lemma_le_value_push_zero(e);
    }
}

proof fn lemma_after_step(input: Seq<u8>, j: int)
    requires
        0 < j <= input.len(),
    ensures
        compress_after(input.take(j)) == compress_step(compress_after(input.take(j - 1)), input[j - 1]),
{
    assert(input.take(j).drop_last() =~= input.take(j - 1));
}

/// The bits written so far only grow.
proof fn lemma_bits_extend(input: Seq<u8>, i: int, j: int)
    requires
        0 <= i <= j <= input.len(),
    ensures
        compress_after(input.take(i)).bits.len() <= compress_after(input.take(j)).bits.len(),
        compress_after(input.take(j)).bits.take(compress_after(input.take(i)).bits.len() as int)
            == compress_after(input.take(i)).bits,
    decreases j - i,
{
    let a = compress_after(input.take(i)).bits;
    if i < j {
        lemma_bits_extend(input, i, j - 1);
        lemma_after_step(input, j);
        let m = compress_after(input.take(j - 1)).bits;
        let b = compress_after(input.take(j)).bits;
        assert(b.take(m.len() as int) =~= m);
        assert(b.take(a.len() as int) =~= m.take(a.len() as int));
    } else {
        assert(a.take(a.len() as int) =~= a);
    }
}

/// What compression writes after `i` bytes opens its whole output.
proof fn lemma_bits_in_output(input: Seq<u8>, i: int)
    requires
        0 <= i <= input.len(),
    ensures
        compress_after(input.take(i)).bits.len() <= compressed_bits(input).len(),
        compressed_bits(input).take(compress_after(input.take(i)).bits.len() as int) == compress_after(
            input.take(i),
        ).bits,
{
    lemma_bits_extend(input, i, input.len() as int);
    assert(input.take(input.len() as int) =~= input);
    let last = compress_after(input).bits;
    let out = compressed_bits(input);
    assert(out.take(last.len() as int) =~= last);
    let a = compress_after(input.take(i)).bits;
    assert(out.take(a.len() as int) =~= last.take(a.len() as int));
}

/// Where `pre + x` opens `big`, `x` opens what follows `pre`.
proof fn lemma_split_at_prefix(big: Seq<bool>, pre: Seq<bool>, x: Seq<bool>)
    requires
        pre.len() + x.len() <= big.len(),
        big.take((pre.len() + x.len()) as int) == pre + x,
    ensures
        big.skip(pre.len() as int) == x + big.skip((pre.len() + x.len()) as int),
{
    let n = (pre.len() + x.len()) as int;
    assert forall|k: int| 0 <= k < x.len() implies big[pre.len() + k] == x[k] by {
        assert((pre + x)[pre.len() + k] == x[k]);
        assert(big.take(n)[pre.len() + k] == big[pre.len() + k]);
    }
    assert(big.skip(pre.len() as int) =~= x + big.skip((pre.len() + x.len()) as int));
}

/// After a fresh start with one pending byte, compression next writes that
/// byte's code in 9 bits.
proof fn lemma_next_code_after_reset(input: Seq<u8>, i: int)
    requires
        0 <= i <= input.len(),
        compress_after(input.take(i)).size == STARTING_SIZE,
        compress_after(input.take(i)).word.len() == 1,
    ensures
        ({
            let s = compress_after(input.take(i));
            let out = compressed_bits(input);
            &&& s.bits.len() + 9 <= out.len()
            &&& out.skip(s.bits.len() as int).take(9) == le_bits_of(s.word[0] as nat, 9)
        }),
{
    let s = compress_after(input.take(i));
    let out = compressed_bits(input);
    lemma_codes_after(input.take(i));
    lemma_code_length_values(257);
    assert(s.dict.contains_key(s.word));
    assert(s.word =~= seq![s.word[0]]);
    let code = le_bits_of(s.word[0] as nat, 9);
    lemma_le_bits_len(s.word[0] as nat, 9);
    if i == input.len() {
        assert(input.take(i) =~= input);
        let rest = out.skip((s.bits.len() + 9) as int);
        assert(out =~= s.bits + code + rest);
    } else {
        lemma_after_step(input, i + 1);
        let joined = s.word.push(input[i]);
        assert(!s.dict.contains_key(joined));
        let t = compress_after(input.take(i + 1));
        lemma_bits_in_output(input, i + 1);
        assert(t.bits.take((s.bits.len() + 9) as int) =~= s.bits + code);
        assert(out.take((s.bits.len() + 9) as int) =~= s.bits + code);
        lemma_split_at_prefix(out, s.bits, code);
    }
    assert(out.skip(s.bits.len() as int).take(9) =~= code);
}

/// After the pending word's code is read and its word added, the reader
/// follows compression that took the byte into a new word.
proof fn lemma_tracks_after_insert(
    s: CompressState,
    dict: Map<u32, Seq<u8>>,
    word: Seq<u8>,
    result: Seq<u8>,
    input: Seq<u8>,
    b: u8,
)
    requires
        compress_codes_ok(s),
        decompress_tracks(s, dict, word, result, input),
        s.word.len() > 0,
        !s.dict.contains_key(s.word.push(b)),
        !is_full_size(s.size),
    ensures
        decompress_tracks(
            compress_step(s, b),
            dict.insert(s.size as u32, word.push(s.word[0])),
            s.word,
            result + s.word,
            input.push(b),
        ),
{
    let t = compress_step(s, b);
    let joined = s.word.push(b);
    let dict2 = dict.insert(s.size as u32, word.push(s.word[0]));
    assert((result + s.word) + t.word =~= input.push(b));
    assert forall|w: Seq<u8>| #[trigger] t.dict.contains_key(w) && t.dict[w] < t.size implies dict2.contains_key(
        t.dict[w],
    ) && dict2[t.dict[w]] == w by {
        assert(w != joined);
        assert(s.dict.contains_key(w) && t.dict[w] == s.dict[w]);
        if s.dict[w] == s.size {
            assert(s.dict[word.push(s.word[0])] == s.size);
            assert(w == word.push(s.word[0]));
        }
    }
    assert(t.dict.contains_key(s.word.push(t.word[0])));
}

/// After a start-over, the reader follows the fresh compression.
proof fn lemma_tracks_after_reset(t: CompressState, result: Seq<u8>, input: Seq<u8>)
    requires
        t.dict == initial_compression_mapping(),
        t.size == STARTING_SIZE,
        result + t.word == input,
    ensures
        decompress_tracks(t, initial_decompression_mapping(), Seq::empty(), result, input),
{
    let dict = initial_decompression_mapping();
    assert forall|w: Seq<u8>| #[trigger] t.dict.contains_key(w) && t.dict[w] < t.size implies dict.contains_key(
        t.dict[w],
    ) && dict[t.dict[w]] == w by {
        assert(w =~= seq![w[0]]);
    }
}

/// Decompressing the whole output reaches, after the codes written for the
/// first `i` bytes, a state that follows compression there.
proof fn lemma_decompress_follows(input: Seq<u8>, i: int) -> (r: (Map<u32, Seq<u8>>, Seq<u8>, Seq<u8>))
    requires
        0 <= i <= input.len(),
    ensures
        ({
            let s = compress_after(input.take(i));
            let out = compressed_bits(input);
            &&& decompress_tracks(s, r.0, r.1, r.2, input.take(i))
            &&& decompress_outcome(out) == decompress_loop(
                r.0,
                s.size,
                r.1,
                r.2,
                out.skip(s.bits.len() as int),
            )
        }),
    decreases i,
{
    let out = compressed_bits(input);
    if i == 0 {
        let s = compress_start();
        assert(input.take(0) =~= Seq::<u8>::empty());
        lemma_bits_in_output(input, 0);
        reveal_with_fuel(pow2_nat, 10);
        lemma_le_bits_value(START_OVER_CODE as nat, 9);
        assert(out.take(9) == s.bits);
        assert(initial_word(START_OVER_CODE as nat) =~= Seq::<u8>::empty());
        lemma_tracks_after_reset(s, Seq::empty(), Seq::empty());
        assert(Seq::<u8>::empty() + s.word =~= Seq::<u8>::empty());
        (initial_decompression_mapping(), Seq::empty(), Seq::empty())
    } else {
        let (dict, word, result) = lemma_decompress_follows(input, i - 1);
        let s = compress_after(input.take(i - 1));
        let b = input[i - 1];
        lemma_after_step(input, i);
        lemma_codes_after(input.take(i - 1));
        let t = compress_step(s, b);
        let joined = s.word.push(b);
        assert(input.take(i) =~= input.take(i - 1).push(b));
        if s.dict.contains_key(joined) {
            assert(result + t.word =~= input.take(i));
            (dict, word, result)
        } else {
            if s.word.len() == 0 {
                assert(joined =~= seq![b]);
            }
            let c = s.dict[s.word];
            let w = code_length_of(s.size);
            let code = le_bits_of(c as nat, w);
            lemma_code_length_range(s.size);
            lemma_le_bits_len(c as nat, w);
            lemma_bits_in_output(input, i);
            assert(t.bits.take((s.bits.len() + w) as int) =~= s.bits + code);
            assert(out.take((s.bits.len() + w) as int) =~= s.bits + code);
            lemma_split_at_prefix(out, s.bits, code);
            let rest = out.skip((s.bits.len() + w) as int);
            lemma_read_word(s, dict, word, result, input.take(i - 1), rest);
            let dict2 = dict.insert(s.size as u32, word.push(s.word[0]));
            if is_full_size(s.size) {
                lemma_code_length_values(s.size);
                lemma_code_length_values(s.size + 1);
                let so = le_bits_of(START_OVER_CODE as nat, w);
                lemma_le_bits_len(START_OVER_CODE as nat, w);
                assert(t.bits =~= (s.bits + code) + so);
                assert(out.take(t.bits.len() as int) == t.bits);
                lemma_split_at_prefix(out, s.bits + code, so);
                assert(t.word =~= seq![b]);
                lemma_next_code_after_reset(input, i);
                let after = out.skip(t.bits.len() as int);
                lemma_start_over(dict2, s.size + 1, s.word, result + s.word, after, b);
                assert((result + s.word) + t.word =~= input.take(i));
                lemma_tracks_after_reset(t, result + s.word, input.take(i));
                (initial_decompression_mapping(), Seq::empty(), result + s.word)
            } else {
                assert(t.bits =~= s.bits + code);
                lemma_tracks_after_insert(s, dict, word, result, input.take(i - 1), b);
                (dict2, s.word, result + s.word)
            }
        }
    }
}

/// Decompressing what compression writes gives the input back.
pub proof fn lemma_lzw_round_trip(input: Seq<u8>)
    ensures
        decompress_outcome(compressed_bits(input)) == DecompressOutcome::Finished(input),
{
    let n = input.len() as int;
    assert(input.take(n) =~= input);
    let (dict, word, result) = lemma_decompress_follows(input, n);
    let s = compress_after(input);
    lemma_codes_after(input);
    let out = compressed_bits(input);
    let w = code_length_of(s.size);
    lemma_code_length_range(s.size);
    lemma_code_length_values(s.size);
    lemma_code_length_values(s.size + 1);
    let end = le_bits_of(END_RESOURCE_CODE as nat, w);
    lemma_le_bits_len(END_RESOURCE_CODE as nat, w);
    if s.word.len() > 0 {
        let c = s.dict[s.word];
        let code = le_bits_of(c as nat, w);
        lemma_le_bits_len(c as nat, w);
        let pad = align_padding((s.bits + code + end).len());
        assert(out =~= s.bits + code + end + pad);
        assert(out.skip(s.bits.len() as int) =~= code + (end + pad));
        lemma_read_word(s, dict, word, result, input, end + pad);
        lemma_read_end(
            dict.insert(s.size as u32, word.push(s.word[0])),
            s.size + 1,
            s.word,
            result + s.word,
            w,
            pad,
        );
    } else {
        let pad = align_padding((s.bits + end).len());
        assert(out =~= s.bits + end + pad);
        assert(out.skip(s.bits.len() as int) =~= end + pad);
        assert(result =~= input);
        lemma_read_end(dict, s.size, word, result, w, pad);
    }
}

} // verus!
