//! The cryptographic primitives of the chain: SHA-256, RIPEMD-160,
//! Base58, ECDSA P-256 signatures and key generation, and the clock.
//!
//! The hash functions and the signature scheme come from outside
//! crates; each is reached through one trusted wrapper whose contract
//! states what the crate's documentation promises, over names for the
//! results that no short formula can state.

use vstd::prelude::*;

verus! {

/// The SHA-256 digest of a byte string, before its 32-byte length is
/// imposed.
pub uninterp spec fn sha256_digest(b: Seq<u8>) -> Seq<u8>;

/// The RIPEMD-160 digest of a byte string, before its 20-byte length
/// is imposed.
pub uninterp spec fn ripemd160_digest(b: Seq<u8>) -> Seq<u8>;

/// The SHA-256 digest of a byte string: 32 bytes.
pub open spec fn sha256_of(b: Seq<u8>) -> Seq<u8> {
    Seq::new(32, |i: int| sha256_digest(b)[i])
}

/// The RIPEMD-160 digest of a byte string: 20 bytes.
pub open spec fn ripemd160_of(b: Seq<u8>) -> Seq<u8> {
    Seq::new(20, |i: int| ripemd160_digest(b)[i])
}

/// The Base58 text (Bitcoin alphabet) of a byte string.
pub uninterp spec fn base58_of(b: Seq<u8>) -> Seq<u8>;

/// Whether `sig` is a valid ECDSA P-256/SHA-256 fixed-form signature
/// of `msg` under the uncompressed public key `pub_key`.
pub uninterp spec fn ecdsa_p256_sig_ok(pub_key: Seq<u8>, msg: Seq<u8>, sig: Seq<u8>) -> bool;

/// The uncompressed public key held in a PKCS#8 ECDSA P-256 document.
pub uninterp spec fn p256_public_key_of(pkcs8: Seq<u8>) -> Seq<u8>;

/// Relies on sha2::Sha256: a 32-byte digest that depends on the input
/// bytes alone.
#[verifier::external_body]
pub fn sha256(b: &Vec<u8>) -> (r: Vec<u8>)
    ensures
        r@ == sha256_digest(b@),
        r@ == sha256_of(b@),
        r@.len() == 32,
{
    <sha2::Sha256 as sha2::Digest>::digest(b).to_vec()
}

/// Relies on ripemd::Ripemd160: a 20-byte digest that depends on the
/// input bytes alone.
#[verifier::external_body]
pub fn ripe_md_160(b: &Vec<u8>) -> (r: Vec<u8>)
    ensures
        r@ == ripemd160_digest(b@),
        r@ == ripemd160_of(b@),
        r@.len() == 20,
{
    <ripemd::Ripemd160 as ripemd::Digest>::digest(b).to_vec()
}

/// Relies on bs58::encode: the Base58 text of the input bytes, a
/// function of the input alone.
#[verifier::external_body]
pub fn base58_encode(b: &Vec<u8>) -> (r: Vec<u8>)
    ensures
        r@ == base58_of(b@),
{
    bs58::encode(b).into_vec()
}

/// Relies on bs58::decode: the inverse of bs58::encode. Base58 is a
/// bijection between byte strings and the texts over its alphabet
/// (leading zero bytes map one-to-one to leading '1' digits, the rest
/// is the base-58 numeral), so decoding succeeds exactly on the texts
/// that some byte string encodes to, and yields that byte string.
#[verifier::external_body]
pub fn base58_decode(s: &Vec<u8>) -> (r: Option<Vec<u8>>)
    ensures
        r matches Some(v) ==> base58_of(v@) == s@,
        r matches Some(v) ==> forall|w: Seq<u8>| base58_of(w) == s@ ==> w == v@,
        r is None ==> forall|w: Seq<u8>| base58_of(w) != s@,
{
    bs58::decode(s).into_vec().ok()
}

/// Relies on ring::signature::EcdsaKeyPair::generate_pkcs8 with
/// ECDSA_P256_SHA256_FIXED_SIGNING: a fresh random key; nothing is
/// promised of the bytes.
#[verifier::external_body]
pub fn new_key_pair() -> (r: Option<Vec<u8>>)
{
    let rng = ring::rand::SystemRandom::new();
    let alg = &ring::signature::ECDSA_P256_SHA256_FIXED_SIGNING;
    ring::signature::EcdsaKeyPair::generate_pkcs8(alg, &rng)
        .ok()
        .map(|doc| doc.as_ref().to_vec())
}

/// Relies on ring::signature::EcdsaKeyPair::from_pkcs8 and
/// ring::signature::KeyPair::public_key: the public key stored in (or
/// derived from) the PKCS#8 document, a function of the document
/// alone; None when the document is rejected.
#[verifier::external_body]
pub fn public_key_from_pkcs8(pkcs8: &Vec<u8>) -> (r: Option<Vec<u8>>)
    ensures
        r matches Some(k) ==> k@ == p256_public_key_of(pkcs8@),
{
    let rng = ring::rand::SystemRandom::new();
    let alg = &ring::signature::ECDSA_P256_SHA256_FIXED_SIGNING;
    ring::signature::EcdsaKeyPair::from_pkcs8(alg, pkcs8, &rng)
        .ok()
        .map(|kp| ring::signature::KeyPair::public_key(&kp).as_ref().to_vec())
}

/// Relies on ring::signature::EcdsaKeyPair::sign with the fixed
/// signature encoding: the signature is r||s, two 32-byte scalars,
/// and a produced signature verifies over the message under the key
/// pair's public key, which from_pkcs8 checks to be the one held in
/// the document. The nonce is random, so nothing more is promised of
/// the bytes.
#[verifier::external_body]
pub fn ecdsa_sign(pkcs8: &Vec<u8>, msg: &Vec<u8>) -> (r: Option<Vec<u8>>)
    ensures
        r matches Some(sig) ==> sig@.len() == 64,
        r matches Some(sig) ==> ecdsa_p256_sig_ok(p256_public_key_of(pkcs8@), msg@, sig@),
{
    let rng = ring::rand::SystemRandom::new();
    let alg = &ring::signature::ECDSA_P256_SHA256_FIXED_SIGNING;
    let key_pair = match ring::signature::EcdsaKeyPair::from_pkcs8(alg, pkcs8, &rng) {
        Ok(kp) => kp,
        Err(_) => return None,
    };
    key_pair.sign(&rng, msg).ok().map(|sig| sig.as_ref().to_vec())
}

/// Relies on ring::signature::UnparsedPublicKey::verify with
/// ECDSA_P256_SHA256_FIXED: acceptance depends on the key, message
/// and signature bytes alone.
#[verifier::external_body]
pub fn ecdsa_sign_verify(public_key: &Vec<u8>, msg: &Vec<u8>, sig: &Vec<u8>) -> (r: bool)
    ensures
        r == ecdsa_p256_sig_ok(public_key@, msg@, sig@),
{
    let alg = &ring::signature::ECDSA_P256_SHA256_FIXED;
    let key = ring::signature::UnparsedPublicKey::new(alg, public_key);
    key.verify(msg, sig).is_ok()
}

/// Relies on chrono::Local::now: the wall clock in milliseconds since
/// the epoch; nothing is promised of the value.
#[verifier::external_body]
pub fn current_millis() -> (r: i64)
{
    chrono::Local::now().timestamp_millis()
}

/// The RIPEMD-160 of the SHA-256 of a public key: the hash an output
/// is locked with.
pub open spec fn hash_pub_key_of(pub_key: Seq<u8>) -> Seq<u8> {
    ripemd160_of(sha256_of(pub_key))
}

/// Hashes a public key into the 20-byte hash outputs are locked with.
pub fn hash_pub_key(pub_key: &Vec<u8>) -> (r: Vec<u8>)
    ensures
        r@ == hash_pub_key_of(pub_key@),
        r@.len() == 20,
{
    let sha = sha256(pub_key);
    ripe_md_160(&sha)
}

/// The first four bytes of the double SHA-256 of a payload.
pub open spec fn checksum_of(payload: Seq<u8>) -> Seq<u8> {
    sha256_of(sha256_of(payload)).take(4)
}

/// Computes the four-byte checksum of an address payload.
pub fn check_sum(payload: &Vec<u8>) -> (r: Vec<u8>)
    ensures
        r@ == checksum_of(payload@),
        r@.len() == 4,
{
    let first = sha256(payload);
    let second = sha256(&first);
    let mut r: Vec<u8> = Vec::new();
    r.push(second[0]);
    r.push(second[1]);
    r.push(second[2]);
    r.push(second[3]);
    proof {
        assert(r@ =~= sha256_of(sha256_of(payload@)).take(4));
    }
    r
}

} // verus!
