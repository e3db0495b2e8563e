//! Hashing, message authentication, hexadecimal text and key-stream ciphering.
use crate::octets::{
    be_bytes, be_bytes_len, be_value, be_value_bound, be_value_of_be_bytes, pow256, pow256_values,
};
use ctr::cipher::{KeyIvInit, StreamCipher};
use hmac::Mac;
use rand::RngCore;
use sha2::Digest;
use vstd::prelude::*;
use vstd::utf8::encode_utf8;

verus! {

/// The SHA-256 digest of `data`.
pub uninterp spec fn sha256(data: Seq<u8>) -> Seq<u8>;

/// `sha2::Sha256::digest` returns the SHA-256 digest of its argument.
#[verifier::external_body]
pub(crate) fn sha256_digest(data: &[u8]) -> (res: [u8; 32])
    ensures
        res@ == sha256(data@),
{
    sha2::Sha256::digest(data).into()
}

/// The HMAC-SHA-256 tag of `data` under `key`.
pub uninterp spec fn hmac_sha256(key: Seq<u8>, data: Seq<u8>) -> Seq<u8>;

/// `hmac::Hmac::<Sha256>` accepts a key of any length, and its tag over the bytes
/// fed to `update` is the HMAC-SHA-256 tag.
#[verifier::external_body]
pub(crate) fn hmac_sha256_tag(key: &[u8; 32], data: &[u8]) -> (res: Result<[u8; 32], String>)
    ensures
        match res {
            Ok(tag) => tag@ == hmac_sha256(key@, data@),
            Err(_) => false,
        },
{
    let mut mac = hmac::Hmac::<sha2::Sha256>::new_from_slice(key).map_err(
        |e| format!("invalid mac key: {}", e),
    )?;
    mac.update(data);
    Ok(mac.finalize().into_bytes().into())
}

/// One block of AES-256: the encryption of `block` under `key`.
pub uninterp spec fn aes256_block(key: Seq<u8>, block: Seq<u8>) -> Seq<u8>;

/// The counter block used for key-stream block `n`: the 128-bit big-endian sum of
/// the initial vector and `n`, wrapping.
pub open spec fn counter_block(iv: Seq<u8>, n: nat) -> Seq<u8> {
    be_bytes((be_value(iv) + n) % pow256(16), 16)
}

/// Byte `i` of the AES-256-CTR key stream.
pub open spec fn keystream_byte(key: Seq<u8>, iv: Seq<u8>, i: nat) -> u8 {
    aes256_block(key, counter_block(iv, i / 16))[(i % 16) as int]
}

/// `ctr::Ctr128BE::<Aes256>::apply_keystream` on a fresh cipher: XORs the data with
/// the key stream whose block `n` is the AES-256 encryption of the 128-bit
/// big-endian counter `iv + n`.
#[verifier::external_body]
pub(crate) fn apply_aes256_ctr(buf: &mut Vec<u8>, key: &[u8; 32], iv: &[u8; 16])
    ensures
        final(buf)@ == Seq::new(
            old(buf)@.len(),
            |i: int|
                old(buf)@[i] ^ aes256_block(key@, counter_block(iv@, (i / 16) as nat))[i % 16],
        ),
{
    let mut cipher = ctr::Ctr128BE::<aes::Aes256>::new(key.into(), iv.into());
    cipher.apply_keystream(buf);
}

/// `rand::thread_rng().fill_bytes`: sixteen random bytes.
#[verifier::external_body]
pub(crate) fn random_seed() -> (res: [u8; 16]) {
    let mut seed = [0u8; 16];
    rand::thread_rng().fill_bytes(&mut seed);
    seed
}

/// `uuid::Uuid::now_v7().to_string()`: a fresh identifier in hyphenated form,
/// 36 characters out of lower-case hexadecimal digits and hyphens.
#[verifier::external_body]
pub(crate) fn fresh_id() -> (res: String)
    ensures
        res@.len() == 36,
        forall|i: int|
            0 <= i < 36 ==> {
                let c = #[trigger] res@[i];
                '0' <= c <= '9' || 'a' <= c <= 'f' || c == '-'
            },
{
    uuid::Uuid::now_v7().to_string()
}

// ---------------------------------------------------------------- hexadecimal text
pub open spec fn hex_digit(n: nat) -> char {
    if n < 10 {
        (n + 48) as char
    } else {
        (n + 87) as char
    }
}

/// Two lower-case hexadecimal digits for each byte.
pub open spec fn hex_text(data: Seq<u8>) -> Seq<char> {
    Seq::new(
        2 * data.len(),
        |i: int|
            if i % 2 == 0 {
                hex_digit(data[i / 2] as nat / 16)
            } else {
                hex_digit(data[i / 2] as nat % 16)
            },
    )
}

pub open spec fn is_hex_byte(b: u8) -> bool {
    0x30 <= b <= 0x39 || 0x41 <= b <= 0x46 || 0x61 <= b <= 0x66
}

pub open spec fn hex_byte_value(b: u8) -> nat {
    if b <= 0x39 {
        (b - 0x30) as nat
    } else if b <= 0x46 {
        (b - 0x41 + 10) as nat
    } else {
        (b - 0x61 + 10) as nat
    }
}

/// An even number of hexadecimal digits, in either case.
pub open spec fn is_hex_text(text: Seq<u8>) -> bool {
    text.len() % 2 == 0 && forall|i: int| 0 <= i < text.len() ==> is_hex_byte(#[trigger] text[i])
}

pub open spec fn hex_value(text: Seq<u8>) -> Seq<u8> {
    Seq::new(
        text.len() / 2,
        |i: int| (hex_byte_value(text[2 * i]) * 16 + hex_byte_value(text[2 * i + 1])) as u8,
    )
}

/// `hex::encode` writes two lower-case digits for each byte.
#[verifier::external_body]
pub(crate) fn hex_encode(data: &[u8]) -> (res: String)
    ensures
        res@ == hex_text(data@),
{
    hex::encode(data)
}

/// What `hex::FromHexError` says of a text that `hex::decode` refuses.
pub uninterp spec fn hex_error(text: Seq<char>) -> Seq<char>;

/// `hex::decode` accepts an even number of hexadecimal digits in either case and
/// returns the bytes they spell; otherwise it returns an error, here by its message.
#[verifier::external_body]
pub(crate) fn hex_decode(text: &str) -> (res: Result<Vec<u8>, String>)
    ensures
        match res {
            Ok(bytes) => is_hex_text(encode_utf8(text@)) && bytes@ == hex_value(encode_utf8(text@)),
            Err(message) => !is_hex_text(encode_utf8(text@)) && message@ == hex_error(text@),
        },
{
    hex::decode(text).map_err(|e| e.to_string())
}

/// Hexadecimal text decodes to the bytes it was made of.
pub proof fn hex_roundtrip(data: Seq<u8>)
    ensures
        is_hex_text(encode_utf8(hex_text(data))),
        hex_value(encode_utf8(hex_text(data))) == data,
{
    let text = hex_text(data);
    assert forall|i: int| 0 <= i < text.len() implies (text[i] as nat) < 128 by {}
    vstd::utf8::is_ascii_chars_encode_utf8(text);
    let bytes = encode_utf8(text);
    assert forall|i: int| 0 <= i < data.len() implies hex_value(bytes)[i] == data[i] by {
        assert(bytes[2 * i] == text[2 * i] as u8);
        assert(bytes[2 * i + 1] == text[2 * i + 1] as u8);
        assert((2 * i) / 2 == i && (2 * i + 1) / 2 == i);
        assert(data[i] as nat / 16 * 16 + data[i] as nat % 16 == data[i] as nat);
    }
    assert(hex_value(bytes) =~= data);
}

// ---------------------------------------------------------------- laws
/// The key stream is made of blocks of sixteen bytes: the first block encrypts the
/// initial vector, and each further one the number that is one higher than that of the
/// block before, read and written with the highest byte first and starting again from
/// zero behind the highest.
pub proof fn the_key_stream_counts_up(key: Seq<u8>, iv: Seq<u8>, n: nat, i: nat)
    requires
        iv.len() == 16,
        i < 16,
    ensures
        keystream_byte(key, iv, i) == aes256_block(key, iv)[i as int],
        ({
            let next = counter_block(iv, n + 1);
            &&& keystream_byte(key, iv, 16 * (n + 1) + i) == aes256_block(key, next)[i as int]
            &&& next.len() == 16
            &&& be_value(next) == (be_value(counter_block(iv, n)) + 1)
                % 0x1_0000_0000_0000_0000_0000_0000_0000_0000nat
        }),
{
    pow256_values();
    be_value_bound(iv);
    be_bytes_of_be_value(iv);
    let m = pow256(16);
    assert(be_value(iv) % m == be_value(iv)) by {
        vstd::arithmetic::div_mod::lemma_small_mod(be_value(iv), m);
    }
    assert(counter_block(iv, 0) == iv);
    assert(i / 16 == 0 && i % 16 == i);
    let j = 16 * (n + 1) + i;
    assert(j / 16 == n + 1 && j % 16 == i);
    let a = be_value(iv) + n;
    be_bytes_len((a + 1) % m, 16);
    be_value_of_be_bytes((a + 1) % m, 16);
    be_value_of_be_bytes(a % m, 16);
    vstd::arithmetic::div_mod::lemma_add_mod_noop(a as int, 1, m as int);
    vstd::arithmetic::div_mod::lemma_small_mod(1, m);
    assert((a % m + 1) % m == (a + 1) % m);
}

proof fn be_bytes_of_be_value(s: Seq<u8>)
    ensures
        be_bytes(be_value(s), s.len()) == s,
    decreases s.len(),
{
    if s.len() > 0 {
        be_bytes_of_be_value(s.drop_last());
        crate::octets::bytes_spell_numbers_in_base_256(
            be_value(s.drop_last()),
            s.last(),
            (s.len() - 1) as nat,
            s.drop_last(),
        );
        assert(s.drop_last().push(s.last()) =~= s);
    } else {
        assert(be_bytes(0, 0) =~= s);
    }
}

/// A byte is written as two digits, the higher one first, out of the ten figures and
/// the first six small letters; capital letters are read as well.
pub proof fn digits_are_those_of_base_sixteen(data: Seq<u8>, i: int)
    requires
        0 <= i < data.len(),
    ensures
        ({
            let digits = seq![
                '0', '1', '2', '3', '4', '5', '6', '7', '8', '9', 'a', 'b', 'c', 'd', 'e', 'f',
            ];
            &&& hex_text(data).len() == 2 * data.len()
            &&& hex_text(data)[2 * i] == digits[data[i] as int / 16]
            &&& hex_text(data)[2 * i + 1] == digits[data[i] as int % 16]
        }),
{
    assert((2 * i) / 2 == i && (2 * i + 1) / 2 == i);
    assert((2 * i) % 2 == 0 && (2 * i + 1) % 2 == 1);
}

} // verus!
