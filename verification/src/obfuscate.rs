//! Reversible masking of a credential for embedding in generated source.
//!
//! The mask is plain XOR with a keystream derived from a fixed label and the
//! current time.  The keystream is embedded next to the ciphertext, so the
//! plaintext is trivially recoverable: this is obfuscation, not encryption.

use crate::text::dec_rep;
use crate::text::u128_to_chars;
use vstd::prelude::*;
use vstd::string::StringSliceAdditionalSpecFns;

verus! {

/// `data` XOR-masked with `key`, repeated cyclically.
pub open spec fn xor_seq(data: Seq<u8>, key: Seq<u8>) -> Seq<u8> {
    Seq::new(data.len(), |i: int| data[i] ^ key[i % key.len() as int])
}

/// The characters of the keystream derived from timestamp `n`.
pub open spec fn key_stream_chars(n: nat) -> Seq<char> {
    "matthiashihic-"@ + dec_rep(n)
}

/// The keystream bytes derived from timestamp `n`: the ASCII encoding of the
/// label followed by the decimal timestamp.
pub open spec fn key_stream(n: nat) -> Seq<u8> {
    key_stream_chars(n).map_values(|c: char| c as u8)
}

/// XOR of both texts is an involution: masking the ciphertext with the same
/// keystream recovers the plaintext exactly, for any non-empty keystream.
pub proof fn lemma_obfuscation_round_trip(data: Seq<u8>, key: Seq<u8>)
    requires
        key.len() > 0,
    ensures
        xor_seq(xor_seq(data, key), key) == data,
{
    assert forall|i: int| 0 <= i < data.len() implies xor_seq(xor_seq(data, key), key)[i]
        == data[i] by {
        let b = data[i];
        let k = key[i % key.len() as int];
        assert((b ^ k) ^ k == b) by (bit_vector);
    }
    assert(xor_seq(xor_seq(data, key), key) =~= data);
}

/// `data`'s UTF-8 bytes, each XORed with the keystream byte at the same
/// position modulo the keystream length.
pub fn xor_encrypt(data: &str, key: &[u8]) -> (r: Vec<u8>)
    requires
        data.spec_bytes().len() > 0 ==> key@.len() > 0,
    ensures
        r@ == xor_seq(data.spec_bytes(), key@),
{
    let bytes = data.as_bytes();
    let n = bytes.len();
    let klen = key.len();
    let mut r: Vec<u8> = Vec::new();
    let mut i: usize = 0;
    while i < n
        invariant
            i <= n,
            n == bytes@.len(),
            klen == key@.len(),
            n > 0 ==> klen > 0,
            bytes@ == data.spec_bytes(),
            r@.len() == i,
            forall|j: int| 0 <= j < i ==> r@[j] == (bytes@[j] ^ key@[j % klen as int]),
        decreases n - i,
    {
        let b = bytes[i] ^ key[i % klen];
        r.push(b);
        i += 1;
    }
    proof {
        assert(r@ =~= xor_seq(data.spec_bytes(), key@));
    }
    r
}

/// Relies on `std::time::SystemTime`: `now` then `duration_since(UNIX_EPOCH)`
/// and `as_nanos` read the clock; nothing is assumed of the value.
#[verifier::external_body]
fn unix_nanos() -> (r: u128) {
    match std::time::SystemTime::now().duration_since(std::time::UNIX_EPOCH) {
        Ok(d) => d.as_nanos(),
        Err(_) => 0,
    }
}

/// A fresh keystream: a fixed label followed by the decimal value of a
/// high-resolution timestamp, encoded as ASCII bytes.  Always non-empty.
pub fn generate_xor_key() -> (r: Vec<u8>)
    ensures
        exists|n: nat| r@ == key_stream(n),
        r@.len() > 0,
{
    let nanos = unix_nanos();
    let mut cs: Vec<char> = Vec::new();
    crate::text::append_str(&mut cs, "matthiashihic-");
    let digits = u128_to_chars(nanos);
    let n = digits.len();
    let mut i: usize = 0;
    while i < n
        invariant
            i <= n,
            n == digits@.len(),
            cs@ == "matthiashihic-"@ + digits@.subrange(0, i as int),
        decreases n - i,
    {
        cs.push(digits[i]);
        proof {
            assert(cs@ =~= "matthiashihic-"@ + digits@.subrange(0, i + 1 as int));
        }
        i += 1;
    }
    proof {
        assert(digits@.subrange(0, n as int) =~= digits@);
        assert(cs@ == key_stream_chars(nanos as nat));
    }
    let m = cs.len();
    let mut r: Vec<u8> = Vec::new();
    let mut j: usize = 0;
    while j < m
        invariant
            j <= m,
            m == cs@.len(),
            r@.len() == j,
            forall|k: int| 0 <= k < j ==> r@[k] == (cs@[k] as u8),
        decreases m - j,
    {
        let c = cs[j];
        let b: u8 = c as u8;
        r.push(b);
        j += 1;
    }
    proof {
        assert(r@ =~= key_stream(nanos as nat));
        reveal_strlit("matthiashihic-");
        assert(key_stream_chars(nanos as nat).len() > 0);
    }
    r
}

} // verus!
