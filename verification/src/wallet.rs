//! Keys and addresses: an address is the Base58 text of
//! `VERSION || ripe_md_160(sha256(public_key)) || checksum`, where the
//! checksum is the first four bytes of the double SHA-256 of what
//! precedes it.

use vstd::prelude::*;
use crate::bytes::push_bytes;
use crate::crypto::base58_decode;
use crate::crypto::base58_encode;
use crate::crypto::base58_of;
use crate::crypto::check_sum;
use crate::crypto::checksum_of;
use crate::crypto::new_key_pair;
use crate::crypto::hash_pub_key;
use crate::crypto::hash_pub_key_of;
use crate::crypto::p256_public_key_of;
use crate::crypto::public_key_from_pkcs8;
use crate::ChainError;

verus! {

/// The version byte that prefixes every address payload.
pub const ADDRESS_VERSION: u8 = 0x00;

/// The length of the checksum that ends every address payload.
pub const ADDRESS_CHECK_SUM_LEN: usize = 4;

/// The payload whose Base58 text is the address of a public key hash.
pub open spec fn address_payload_of(pkh: Seq<u8>) -> Seq<u8> {
    seq![ADDRESS_VERSION] + pkh + checksum_of(seq![ADDRESS_VERSION] + pkh)
}

/// Whether a decoded address payload ends in the checksum of its
/// leading bytes.
pub open spec fn payload_checksum_ok(p: Seq<u8>) -> bool {
    &&& p.len() >= 5
    &&& p.subrange(p.len() - 4, p.len() as int) == checksum_of(p.take(p.len() - 4))
}

/// The public key hash held in an address payload: everything between
/// the version byte and the checksum.
pub open spec fn pkh_of_payload(p: Seq<u8>) -> Seq<u8> {
    p.subrange(1, p.len() - 4)
}

/// Whether a byte string is a well-formed address: the Base58 text of
/// some payload whose checksum matches.
pub open spec fn spec_valid_address(a: Seq<u8>) -> bool {
    exists|p: Seq<u8>| base58_of(p) == a && payload_checksum_ok(p)
}

/// The address of a public key hash.
pub fn calc_address(pkh: &Vec<u8>) -> (r: Vec<u8>)
    ensures
        r@ == base58_of(address_payload_of(pkh@)),
{
    let mut payload: Vec<u8> = Vec::new();
    payload.push(ADDRESS_VERSION);
    push_bytes(&mut payload, pkh);
    proof {
        assert(payload@ =~= seq![ADDRESS_VERSION] + pkh@);
    }
    let cs = check_sum(&payload);
    let mut full = payload;
    push_bytes(&mut full, &cs);
    proof {
        assert(full@ =~= address_payload_of(pkh@));
    }
    base58_encode(&full)
}

/// Checks an address: decodes it and compares the trailing checksum
/// with the checksum of the version byte and public key hash.
pub fn validate_address(address: &Vec<u8>) -> (r: bool)
    ensures
        r == spec_valid_address(address@),
{
    let decoded = base58_decode(address);
    match decoded {
        None => false,
        Some(p) => {
            if p.len() < 5 {
                proof {
                    assert forall|q: Seq<u8>| base58_of(q) == address@ implies !payload_checksum_ok(q) by {
                        assert(q == p@);
                    }
                }
                false
            } else {
                let split = p.len() - 4;
                let mut head: Vec<u8> = Vec::new();
                let mut i: usize = 0;
                while i < split
                    invariant
                        i <= split,
                        split == p.len() - 4,
                        p.len() >= 5,
                        head@ == p@.take(i as int),
                    decreases split - i,
                {
                    head.push(p[i]);
                    i = i + 1;
                    proof {
                        assert(head@ =~= p@.take(i as int));
                    }
                }
                let target = check_sum(&head);
                let mut tail: Vec<u8> = Vec::new();
                let mut j: usize = split;
                while j < p.len()
                    invariant
                        split <= j <= p.len(),
                        split == p.len() - 4,
                        p.len() >= 5,
                        tail@ == p@.subrange(split as int, j as int),
                    decreases p.len() - j,
                {
                    tail.push(p[j]);
                    j = j + 1;
                    proof {
                        assert(tail@ =~= p@.subrange(split as int, j as int));
                    }
                }
                let ok = crate::bytes::bytes_eq(&target, &tail);
                proof {
                    assert(tail@ =~= p@.subrange(p@.len() - 4, p@.len() as int));
                    if ok {
                        assert(payload_checksum_ok(p@));
                    } else {
                        assert forall|q: Seq<u8>| base58_of(q) == address@ implies !payload_checksum_ok(q) by {
                            assert(q == p@);
                        }
                    }
                }
                ok
            }
        }
    }
}

/// Decodes an address into the public key hash it pays to.
pub fn address_to_pkh(address: &Vec<u8>) -> (r: Option<Vec<u8>>)
    ensures
        r matches Some(k) ==> exists|p: Seq<u8>|
            base58_of(p) == address@ && p.len() >= 5 && k@ == pkh_of_payload(p),
        r is None ==> forall|p: Seq<u8>| base58_of(p) == address@ ==> p.len() < 5,
{
    let decoded = base58_decode(address);
    match decoded {
        None => None,
        Some(p) => {
            if p.len() < 5 {
                proof {
                    assert forall|q: Seq<u8>| base58_of(q) == address@ implies q.len() < 5 by {
                        assert(q == p@);
                    }
                }
                None
            } else {
                let stop = p.len() - 4;
                let mut k: Vec<u8> = Vec::new();
                let mut i: usize = 1;
                while i < stop
                    invariant
                        1 <= i <= stop,
                        stop == p.len() - 4,
                        p.len() >= 5,
                        k@ == p@.subrange(1, i as int),
                    decreases stop - i,
                {
                    k.push(p[i]);
                    i = i + 1;
                    proof {
                        assert(k@ =~= p@.subrange(1, i as int));
                    }
                }
                proof {
                    assert(k@ == pkh_of_payload(p@));
                }
                Some(k)
            }
        }
    }
}

/// Every address built from a public key hash validates: the payload
/// it encodes carries the checksum of its own leading bytes.
pub proof fn lemma_address_round_trip(pkh: Seq<u8>)
    ensures
        spec_valid_address(base58_of(address_payload_of(pkh))),
{
    let p = address_payload_of(pkh);
    assert(p.take(p.len() - 4) =~= seq![ADDRESS_VERSION] + pkh);
    assert(p.subrange(p.len() - 4, p.len() as int) =~= checksum_of(seq![ADDRESS_VERSION] + pkh));
    assert(payload_checksum_ok(p));
}

/// The public key hash of an address built from `pkh` is `pkh` itself.
pub proof fn lemma_address_payload_pkh(pkh: Seq<u8>)
    ensures
        pkh_of_payload(address_payload_of(pkh)) == pkh,
{
    let p = address_payload_of(pkh);
    assert(p.subrange(1, p.len() - 4) =~= pkh);
}

/// The mathematical content of a wallet.
pub struct WalletV {
    /// The PKCS#8 document holding the private key.
    pub private_key: Seq<u8>,
    /// The raw uncompressed public key.
    pub public_key: Seq<u8>,
}

/// A key pair: a PKCS#8 private key document and the raw public key
/// derived from it.
pub struct Wallet {
    private_key: Vec<u8>,
    /// The raw uncompressed public key.
    pub public_key: Vec<u8>,
}

impl View for Wallet {
    type V = WalletV;

    closed spec fn view(&self) -> WalletV {
        WalletV { private_key: self.private_key@, public_key: self.public_key@ }
    }
}

impl Wallet {
    /// Generates a fresh P-256 key pair.
    pub fn new_wallet() -> (r: Result<Wallet, ChainError>)
        ensures
            r matches Ok(w) ==> w@.public_key == p256_public_key_of(w@.private_key),
            r matches Err(e) ==> e == ChainError::KeyDecodeError,
    {
        let private_key = match new_key_pair() {
            Some(k) => k,
            None => {
                return Err(ChainError::KeyDecodeError);
            },
        };
        let public_key = match public_key_from_pkcs8(&private_key) {
            Some(k) => k,
            None => {
                return Err(ChainError::KeyDecodeError);
            },
        };
        Ok(Wallet { private_key, public_key })
    }

    /// Rebuilds a wallet from its stored parts.
    pub fn from_keys(private_key: Vec<u8>, public_key: Vec<u8>) -> (r: Wallet)
        ensures
            r@.private_key == private_key@,
            r@.public_key == public_key@,
    {
        Wallet { private_key, public_key }
    }

    /// The address paying to this wallet's public key.
    pub fn get_address(&self) -> (r: Vec<u8>)
        ensures
            r@ == base58_of(address_payload_of(hash_pub_key_of(self@.public_key))),
    {
        let pkh = hash_pub_key(&self.public_key);
        calc_address(&pkh)
    }

    /// The raw public key.
    pub fn get_public_key(&self) -> (r: Vec<u8>)
        ensures
            r@ == self@.public_key,
    {
        crate::bytes::copy_bytes(&self.public_key)
    }

    /// The PKCS#8 document holding the private key.
    pub fn get_private_key(&self) -> (r: Vec<u8>)
        ensures
            r@ == self@.private_key,
    {
        let mut r: Vec<u8> = Vec::new();
        push_bytes(&mut r, &self.private_key);
        proof {
            assert(r@ =~= self@.private_key);
        }
        r
    }
}

} // verus!
