//! Hexadecimal text, hashes, message authentication codes and random bytes.

use vstd::prelude::*;

use hmac::{Hmac, KeyInit, Mac};
use sha2::{Digest, Sha256};

use crate::text::{digit_char, digit_value};

verus! {

/// The SHA-256 hash of some bytes.
pub uninterp spec fn sha256_of(data: Seq<u8>) -> Seq<u8>;

/// The HMAC-SHA256 code of a message under a key.
pub uninterp spec fn hmac_of(key: Seq<u8>, message: Seq<u8>) -> Seq<u8>;

/// Two lower case hexadecimal digits for each byte.
pub open spec fn hex_text(data: Seq<u8>) -> Seq<char> {
    Seq::new(
        2 * data.len(),
        |i: int|
            if i % 2 == 0 {
                digit_char((data[i / 2] / 16) as nat)
            } else {
                digit_char((data[i / 2] % 16) as nat)
            },
    )
}

/// The value of a hexadecimal digit.
pub open spec fn nibble(c: char) -> int {
    match digit_value(c, 16) {
        Some(v) => v,
        None => 0,
    }
}

/// The bytes that a hexadecimal text stands for: pairs of digits of either case.
pub open spec fn from_hex(text: Seq<char>) -> Option<Seq<u8>> {
    if text.len() % 2 == 0 && forall|i: int|
        0 <= i < text.len() ==> digit_value(#[trigger] text[i], 16) is Some {
        Some(
            Seq::new(
                (text.len() / 2) as nat,
                |i: int| (16 * nibble(text[2 * i]) + nibble(text[2 * i + 1])) as u8,
            ),
        )
    } else {
        None
    }
}

/// `hex::encode` writes each byte as two lower case hexadecimal digits.
#[verifier::external_body]
pub(crate) fn hex_encode(data: &[u8]) -> (text: String)
    ensures
        text@ == hex_text(data@),
{
    hex::encode(data)
}

/// `hex::decode` reads pairs of hexadecimal digits of either case, and fails if their number is
/// odd or another character occurs.
#[verifier::external_body]
pub(crate) fn hex_decode(text: &str) -> (data: Option<Vec<u8>>)
    ensures
        match data {
            Some(d) => from_hex(text@) == Some(d@),
            None => from_hex(text@) is None,
        },
{
    hex::decode(text).ok()
}

/// `Sha256::digest` hashes the bytes; the hash is 32 bytes long.
#[verifier::external_body]
pub(crate) fn sha256(data: &[u8]) -> (hash: Vec<u8>)
    ensures
        hash@ == sha256_of(data@),
        hash@.len() == 32,
{
    Sha256::digest(data).to_vec()
}

/// `Hmac::<Sha256>`, keyed with `new_from_slice`, which takes keys of any length, and fed the
/// message with `update`: `finalize` returns the code, which is 32 bytes long.
#[verifier::external_body]
pub(crate) fn hmac_sha256(key: &[u8], message: &[u8]) -> (code: Vec<u8>)
    ensures
        code@ == hmac_of(key@, message@),
        code@.len() == 32,
{
    let mut mac = <Hmac<Sha256> as KeyInit>::new_from_slice(key).unwrap();
    mac.update(message);
    mac.finalize().into_bytes().to_vec()
}

/// `Hmac::<Sha256>`, keyed and fed as in [`hmac_sha256`]: `verify_slice` succeeds exactly for the
/// code of the message.
#[verifier::external_body]
pub(crate) fn hmac_verify(key: &[u8], message: &[u8], code: &[u8]) -> (valid: bool)
    ensures
        valid == (code@ == hmac_of(key@, message@)),
{
    let mut mac = <Hmac<Sha256> as KeyInit>::new_from_slice(key).unwrap();
    mac.update(message);
    mac.verify_slice(code).is_ok()
}

/// `rand::random` returns `N` bytes; any bytes may come back.
#[verifier::external_body]
pub(crate) fn random_bytes<const N: usize>() -> (data: [u8; N])
{
    rand::random::<[u8; N]>()
}

/// Decoding hexadecimal text gives back the bytes it was written from.
pub proof fn law_hex_round_trip(data: Seq<u8>)
    ensures
        from_hex(hex_text(data)) == Some(data),
{
    let text = hex_text(data);
    assert forall|i: int| 0 <= i < text.len() implies digit_value(#[trigger] text[i], 16)
        is Some by {
        lemma_digit(data[i / 2]);
    }
    let back = from_hex(text).unwrap();
    assert(back.len() == data.len());
    assert forall|i: int| 0 <= i < data.len() implies back[i] == data[i] by {
        lemma_digit(data[i]);
        assert(text[2 * i] == digit_char((data[(2 * i) / 2] / 16) as nat));
        assert(text[2 * i + 1] == digit_char((data[(2 * i + 1) / 2] % 16) as nat));
        assert((2 * i) / 2 == i && (2 * i + 1) / 2 == i);
    }
    assert(back =~= data);
}

/// The two digits of a byte have its high and low half as values.
proof fn lemma_digit(b: u8)
    ensures
        digit_value(digit_char((b / 16) as nat), 16) == Some((b / 16) as int),
        digit_value(digit_char((b % 16) as nat), 16) == Some((b % 16) as int),
{
}

} // verus!
