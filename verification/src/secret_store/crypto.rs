//! The primitives: AES-256-GCM, HKDF-SHA-256, hexadecimal, and chance.

use crate::inspect::body::hex_digit;
use vstd::prelude::*;

verus! {

/// The ciphertext and tag of a message.
pub uninterp spec fn gcm_seal(key: Seq<u8>, nonce: Seq<u8>, plain: Seq<u8>) -> Option<Seq<u8>>;

/// The message of a ciphertext and tag, where the tag is right.
pub uninterp spec fn gcm_open(key: Seq<u8>, nonce: Seq<u8>, sealed: Seq<u8>) -> Option<Seq<u8>>;

pub open spec fn bytes_of(v: Option<Vec<u8>>) -> Option<Seq<u8>> {
    match v {
        Some(b) => Some(b@),
        None => None,
    }
}

/// `aes_gcm::Aes256Gcm::encrypt`, without associated data. It fails only on messages that
/// are too long for the mode; the ciphertext is sixteen bytes longer than the message,
/// and decrypts to it under the same key and nonce.
#[verifier::external_body]
pub(crate) fn encrypt(key: &[u8], nonce: &[u8], plain: &[u8]) -> (r: Option<Vec<u8>>)
    requires
        key@.len() == 32,
        nonce@.len() == 12,
    ensures
        bytes_of(r) == gcm_seal(key@, nonce@, plain@),
        plain@.len() <= 0xf_ffff_ffe0 ==> r is Some,
        r matches Some(c) ==> c@.len() == plain@.len() + 16,
        r matches Some(c) ==> gcm_open(key@, nonce@, c@) == Some(plain@),
{
    let cipher = <aes_gcm::Aes256Gcm as aes_gcm::KeyInit>::new_from_slice(key).ok()?;
    let nonce: [u8; 12] = nonce.try_into().ok()?;
    let nonce = aes_gcm::Nonce::<aes_gcm::aead::consts::U12>::from(nonce);
    aes_gcm::aead::Aead::encrypt(&cipher, &nonce, plain).ok()
}

/// `aes_gcm::Aes256Gcm::decrypt`, without associated data. It fails where the tag is
/// wrong; the message is sixteen bytes shorter than the ciphertext.
#[verifier::external_body]
pub(crate) fn decrypt(key: &[u8], nonce: &[u8], sealed: &[u8]) -> (r: Option<Vec<u8>>)
    requires
        key@.len() == 32,
        nonce@.len() == 12,
    ensures
        bytes_of(r) == gcm_open(key@, nonce@, sealed@),
        r matches Some(p) ==> p@.len() + 16 == sealed@.len(),
{
    let cipher = <aes_gcm::Aes256Gcm as aes_gcm::KeyInit>::new_from_slice(key).ok()?;
    let nonce: [u8; 12] = nonce.try_into().ok()?;
    let nonce = aes_gcm::Nonce::<aes_gcm::aead::consts::U12>::from(nonce);
    aes_gcm::aead::Aead::decrypt(&cipher, &nonce, sealed).ok()
}

/// The key of 32 bytes that HKDF-SHA-256 derives; without a salt, from the default one.
pub uninterp spec fn hkdf_key(salt: Option<Seq<u8>>, ikm: Seq<u8>, info: Seq<u8>) -> Seq<u8>;

pub open spec fn slice_seen(s: Option<&[u8]>) -> Option<Seq<u8>> {
    match s {
        Some(b) => Some(b@),
        None => None,
    }
}

/// `hkdf::Hkdf::<sha2::Sha256>::new` and `expand`, for a key of 32 bytes. Expanding fails
/// only for keys of more than 255 digests.
#[verifier::external_body]
pub(crate) fn expand_key(salt: Option<&[u8]>, ikm: &[u8], info: &[u8]) -> (r: Option<Vec<u8>>)
    ensures
        r is Some,
        r matches Some(k) ==> k@ == hkdf_key(slice_seen(salt), ikm@, info@) && k@.len() == 32,
{
    let mut key = vec![0u8; 32];
    hkdf::Hkdf::<sha2::Sha256>::new(salt, ikm).expand(info, &mut key).ok()?;
    Some(key)
}

/// A lower-case hexadecimal digit.
pub open spec fn hex_char(d: nat) -> char {
    if d < 10 {
        (d as u8 + 48) as char
    } else {
        (d as u8 + 87) as char
    }
}

/// Bytes in hexadecimal, two lower-case digits each.
pub open spec fn hex_text(b: Seq<u8>) -> Seq<char>
    decreases b.len(),
{
    if b.len() == 0 {
        Seq::empty()
    } else {
        hex_text(b.drop_last()).push(hex_char((b.last() / 16) as nat)).push(
            hex_char((b.last() % 16) as nat),
        )
    }
}

/// The bytes that hexadecimal digits stand for, in either case; none if a digit is missing
/// or is none.
pub open spec fn hex_bytes(s: Seq<char>) -> Option<Seq<u8>>
    decreases s.len(),
{
    if s.len() == 0 {
        Some(Seq::empty())
    } else if s.len() == 1 {
        None
    } else {
        match (
            hex_bytes(s.drop_last().drop_last()),
            hex_digit(s[s.len() - 2]),
            hex_digit(s.last()),
        ) {
            (Some(b), Some(h), Some(l)) => Some(b.push((h * 16 + l) as u8)),
            _ => None,
        }
    }
}

/// `hex::encode` writes bytes in hexadecimal.
#[verifier::external_body]
pub(crate) fn encode_hex(b: &[u8]) -> (s: String)
    ensures
        s@ == hex_text(b@),
{
    hex::encode(b)
}

/// `hex::decode` reads bytes in hexadecimal.
#[verifier::external_body]
pub(crate) fn decode_hex(s: &str) -> (r: Option<Vec<u8>>)
    ensures
        bytes_of(r) == hex_bytes(s@),
{
    hex::decode(s).ok()
}

/// What is written in hexadecimal is read back as it was.
pub proof fn law_hex_round_trip(b: Seq<u8>)
    ensures
        hex_bytes(hex_text(b)) == Some(b),
        hex_text(b).len() == 2 * b.len(),
    decreases b.len(),
{
    if b.len() > 0 {
        law_hex_round_trip(b.drop_last());
        let s = hex_text(b);
        let h = (b.last() / 16) as nat;
        let l = (b.last() % 16) as nat;
        assert(s.drop_last().drop_last() =~= hex_text(b.drop_last()));
        assert(hex_digit(hex_char(h)) == Some(h));
        assert(hex_digit(hex_char(l)) == Some(l));
        assert(b.drop_last().push((h * 16 + l) as u8) =~= b);
    } else {
        assert(b =~= Seq::<u8>::empty());
    }
}

/// `aes_gcm::aead::Key::<aes_gcm::Aes256Gcm>::generate` draws a key at random.
#[verifier::external_body]
pub(crate) fn fresh_key() -> (k: Vec<u8>)
    ensures
        k@.len() == 32,
{
    <aes_gcm::Key<aes_gcm::Aes256Gcm> as aes_gcm::aead::Generate>::generate().to_vec()
}

/// `aes_gcm::Nonce::generate` draws a nonce of twelve bytes at random.
#[verifier::external_body]
pub(crate) fn fresh_nonce() -> (n: Vec<u8>)
    ensures
        n@.len() == 12,
{
    <aes_gcm::Nonce<aes_gcm::aead::consts::U12> as aes_gcm::aead::Generate>::generate().to_vec()
}

/// `rand::random` draws a salt of sixteen bytes.
#[verifier::external_body]
pub(crate) fn fresh_salt() -> (s: Vec<u8>)
    ensures
        s@.len() == 16,
{
    rand::random::<[u8; 16]>().to_vec()
}

} // verus!
