use vstd::prelude::*;

verus! {

/// The key that the interpreter's files are XOR-scrambled with, `Avis Durgan`.
pub open spec fn agi_encryption_key() -> Seq<u8> {
    seq![65u8, 118u8, 105u8, 115u8, 32u8, 68u8, 117u8, 114u8, 103u8, 97u8, 110u8]
}

pub fn agi_encryption_key_bytes() -> (r: Vec<u8>)
    ensures
        r@ == agi_encryption_key(),
{
    vec![65u8, 118u8, 105u8, 115u8, 32u8, 68u8, 117u8, 114u8, 103u8, 97u8, 110u8]
}

/// The key byte that applies at stream position `pos` when the key starts at `offset`.
pub open spec fn key_byte_at(pos: int, offset: int) -> u8 {
    agi_encryption_key()[(pos - offset) % 11]
}

/// `data` with each byte at stream position `start + k` XORed with the key byte
/// for that position, the key starting at stream position `offset`.
pub open spec fn xor_at(data: Seq<u8>, start: int, offset: int) -> Seq<u8> {
    Seq::new(data.len(), |k: int| data[k] ^ key_byte_at(start + k, offset))
}

/// Scrambles (or unscrambles, the same operation) `data`, the first byte of
/// which sits at stream position `start`, with the key starting at `offset`.
pub fn xor_transform(data: &[u8], start: usize, offset: usize) -> (r: Vec<u8>)
    requires
        start + data@.len() <= usize::MAX,
    ensures
        r@ == xor_at(data@, start as int, offset as int),
{
    let key = agi_encryption_key_bytes();
    let mut out: Vec<u8> = Vec::with_capacity(data.len());
    let mut k: usize = 0;
    while k < data.len()
        invariant
            k <= data@.len(),
            start + data@.len() <= usize::MAX,
            key@ == agi_encryption_key(),
            out@.len() == k,
            forall|j: int| 0 <= j < k ==> out@[j] == data@[j] ^ key_byte_at(start + j, offset as int),
        decreases data@.len() - k,
    {
        let pos = start + k;
        let idx: usize = if pos >= offset {
            (pos - offset) % 11
        } else {
            let back = (offset - pos) % 11;
            if back == 0 {
                0
            } else {
                11 - back
            }
        };
        proof {
            lemma_key_index(pos as int, offset as int, idx as int);
        }
        out.push(data[k] ^ key[idx]);
        k = k + 1;
    }
    assert(out@ =~= xor_at(data@, start as int, offset as int));
    out
}

proof fn lemma_key_index(pos: int, offset: int, idx: int)
    requires
        pos >= offset ==> idx == (pos - offset) % 11,
        pos < offset ==> idx == (if (offset - pos) % 11 == 0 {
            0
        } else {
            11 - (offset - pos) % 11
        }),
    ensures
        idx == (pos - offset) % 11,
{
    if pos < offset {
        let d = offset - pos;
        let q = d / 11;
        let r = d % 11;
        assert(d == q * 11 + r);
        if r == 0 {
            assert(pos - offset == (-q) * 11);
            vstd::arithmetic::div_mod::lemma_mod_multiples_basic(-q, 11);
        } else {
            assert(pos - offset == (-q - 1) * 11 + (11 - r));
            vstd::arithmetic::div_mod::lemma_mod_multiples_vanish(-q - 1, 11 - r, 11);
            vstd::arithmetic::div_mod::lemma_small_mod((11 - r) as nat, 11);
        }
    }
}

/// XOR scrambling undoes itself.
pub proof fn lemma_xor_involution(data: Seq<u8>, start: int, offset: int)
    ensures
        xor_at(xor_at(data, start, offset), start, offset) == data,
{
    assert forall|k: int| 0 <= k < data.len() implies #[trigger] xor_at(
        xor_at(data, start, offset),
        start,
        offset,
    )[k] == data[k] by {
        let b = data[k];
        let x = key_byte_at(start + k, offset);
        assert((b ^ x) ^ x == b) by (bit_vector);
    }
    assert(xor_at(xor_at(data, start, offset), start, offset) =~= data);
}

} // verus!
