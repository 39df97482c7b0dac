use vstd::prelude::*;

verus! {

/// The byte that `byte` becomes under the XOR cipher with `key`.
pub open spec fn xor_byte(byte: u8, key: u8) -> u8 {
    byte ^ key
}

/// Every byte of `bytes` XOR-ed with `key`, in order.
pub open spec fn xor_seq(bytes: Seq<u8>, key: u8) -> Seq<u8> {
    bytes.map_values(|b: u8| xor_byte(b, key))
}

/// Applies the XOR cipher with `key` to every byte of `bytes`; the same call
/// both encrypts and decrypts.
pub fn xor_cipher(bytes: &[u8], key: u8) -> (out: Vec<u8>)
    ensures
        out@ == xor_seq(bytes@, key),
        out@.len() == bytes@.len(),
        forall|i: int| 0 <= i < bytes@.len() ==> #[trigger] out@[i] == bytes@[i] ^ key,
{
    let mut out: Vec<u8> = Vec::new();
    let mut i: usize = 0;
    while i < bytes.len()
        invariant
            i <= bytes@.len(),
            out@ == xor_seq(bytes@.subrange(0, i as int), key),
        decreases bytes@.len() - i,
    {
        out.push(bytes[i] ^ key);
        assert(bytes@.subrange(0, i + 1) =~= bytes@.subrange(0, i as int).push(bytes@[i as int]));
        i = i + 1;
    }
    assert(bytes@.subrange(0, bytes@.len() as int) =~= bytes@);
    proof {
        lemma_xor_seq_pointwise(bytes@, key);
    }
    out
}

/// The cipher changes every byte, at every position of a message of any
/// length: the result is as long as the message and its byte at `i` is the
/// message's byte at `i` XOR-ed with the key.
pub proof fn lemma_xor_seq_pointwise(bytes: Seq<u8>, key: u8)
    ensures
        xor_seq(bytes, key).len() == bytes.len(),
        forall|i: int| 0 <= i < bytes.len() ==> #[trigger] xor_seq(bytes, key)[i] == bytes[i] ^ key,
{
}

/// Deciphering what was enciphered with the same key gives the original
/// bytes back: the cipher is its own inverse.
pub proof fn lemma_xor_cipher_involution(bytes: Seq<u8>, key: u8)
    ensures
        xor_seq(xor_seq(bytes, key), key) == bytes,
{
    assert forall|i: int| 0 <= i < bytes.len() implies #[trigger] xor_seq(
        xor_seq(bytes, key),
        key,
    )[i] == bytes[i] by {
        let b: u8 = bytes[i];
        assert((b ^ key) ^ key == b) by (bit_vector);
    }
    assert(xor_seq(xor_seq(bytes, key), key) =~= bytes);
}

} // verus!
