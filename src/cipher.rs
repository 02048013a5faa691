//! The XOR obfuscation that keeps the program's about text out of plain sight
//! in the binary.

use vstd::prelude::*;
use vstd::utf8::{decode_utf8, valid_utf8};

verus! {

/// The text that `String::from_utf8_lossy` makes of `bytes`.
pub uninterp spec fn utf8_lossy(bytes: Seq<u8>) -> Seq<char>;

/// Each byte of `data` XOR-ed with `key`.
pub open spec fn xor_seq(data: Seq<u8>, key: u8) -> Seq<u8> {
    data.map_values(|b: u8| b ^ key)
}

/// Relies on `String::from_utf8_lossy`: every invalid sequence becomes U+FFFD,
/// and valid UTF-8 decodes to the text it encodes.
#[verifier::external_body]
fn decode_lossy(bytes: &[u8]) -> (r: String)
    ensures
        r@ == utf8_lossy(bytes@),
        valid_utf8(bytes@) ==> r@ == decode_utf8(bytes@),
{
    String::from_utf8_lossy(bytes).into_owned()
}

/// Each byte of `data` XOR-ed with `key`; applying it twice with the same key
/// gives `data` back.
pub fn xor_bytes(data: &[u8], key: u8) -> (r: Vec<u8>)
    ensures
        r@ == xor_seq(data@, key),
{
    let mut out: Vec<u8> = Vec::new();
    let mut i: usize = 0;
    while i < data.len()
        invariant
            i <= data@.len(),
            out@ == xor_seq(data@.take(i as int), key),
        decreases data@.len() - i,
    {
        out.push(data[i] ^ key);
        i = i + 1;
        proof {
            assert(out@ =~= xor_seq(data@.take(i as int), key));
        }
    }
    proof {
        assert(data@.take(data@.len() as int) == data@);
    }
    out
}

/// The text hidden in `data` under `key`: the bytes XOR-ed with `key`, read as
/// UTF-8 with invalid sequences replaced.
pub fn xor_cipher(data: &[u8], key: u8) -> (r: String)
    ensures
        r@ == utf8_lossy(xor_seq(data@, key)),
        valid_utf8(xor_seq(data@, key)) ==> r@ == decode_utf8(xor_seq(data@, key)),
{
    let plain = xor_bytes(data, key);
    decode_lossy(plain.as_slice())
}

/// XOR with the same key undoes itself.
pub proof fn lemma_xor_involutive(data: Seq<u8>, key: u8)
    ensures
        xor_seq(xor_seq(data, key), key) == data,
{
    assert forall|i: int| 0 <= i < data.len() implies #[trigger] xor_seq(xor_seq(data, key), key)[i]
        == data[i] by {
        let b = data[i];
        assert((b ^ key) ^ key == b) by (bit_vector);
    }
    assert(xor_seq(xor_seq(data, key), key) =~= data);
}

} // verus!
