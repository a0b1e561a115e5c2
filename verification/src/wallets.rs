//! A set of wallets, keyed by address.

use vstd::prelude::*;
use crate::bytes::bytes_eq;
use crate::bytes::copy_bytes;
use crate::wallet::Wallet;
use crate::ChainError;

verus! {

/// The addresses held by a sequence of address-wallet pairs.
pub open spec fn addresses_of(s: Seq<(Vec<u8>, Wallet)>) -> Seq<Seq<u8>> {
    s.map_values(|p: (Vec<u8>, Wallet)| p.0@)
}

/// A collection of wallets, each under its address.
pub struct Wallets {
    entries: Vec<(Vec<u8>, Wallet)>,
}

/// An empty collection; its content comes from `create_wallet` and
/// `restore_wallet`.
pub fn new_wallets() -> (r: Wallets)
    ensures
        r.spec_entries().len() == 0,
{
    Wallets { entries: Vec::new() }
}

impl Wallets {
    /// The stored pairs.
    pub closed spec fn spec_entries(&self) -> Seq<(Vec<u8>, Wallet)> {
        self.entries@
    }

    /// The stored addresses, in insertion order.
    pub fn get_addresses(&self) -> (r: Vec<Vec<u8>>)
        ensures
            crate::bytes::views_of(r@) == addresses_of(self.spec_entries()),
    {
        let mut r: Vec<Vec<u8>> = Vec::new();
        let mut i: usize = 0;
        while i < self.entries.len()
            invariant
                i <= self.entries.len(),
                r@.len() == i,
                self.spec_entries().len() == self.entries.len(),
                forall|j: int| 0 <= j < i ==> r@[j]@ == self.spec_entries()[j].0@,
            decreases self.entries.len() - i,
        {
            r.push(copy_bytes(&self.entries[i].0));
            i = i + 1;
        }
        proof {
            assert(crate::bytes::views_of(r@) =~= addresses_of(self.spec_entries()));
        }
        r
    }

    /// The wallet stored under an address.
    pub fn get_wallet(&self, address: &Vec<u8>) -> (r: Option<Wallet>)
        ensures
            r matches Some(w) ==> exists|i: int|
                0 <= i < self.spec_entries().len() && self.spec_entries()[i].0@ == address@
                    && (#[trigger] self.spec_entries()[i].1)@ == w@,
            r is None ==> forall|i: int|
                0 <= i < self.spec_entries().len() ==> (#[trigger] self.spec_entries()[i]).0@
                    != address@,
    {
        let mut i: usize = 0;
        while i < self.entries.len()
            invariant
                i <= self.entries.len(),
                self.spec_entries().len() == self.entries.len(),
                forall|j: int| 0 <= j < i ==> (#[trigger] self.spec_entries()[j]).0@ != address@,
            decreases self.entries.len() - i,
        {
            if bytes_eq(&self.entries[i].0, address) {
                let w = &self.entries[i].1;
                let copied = Wallet::from_keys(w.get_private_key(), w.get_public_key());
                proof {
                    assert(self.spec_entries()[i as int].1@ == copied@);
                }
                return Some(copied);
            }
            i = i + 1;
        }
        None
    }

    /// Generates a fresh key pair and stores it under its Base58Check
    /// address: the stored wallet's public key is the one its private
    /// document holds, the returned address is the address of that
    /// public key, and it validates.
    pub fn create_wallet(&mut self) -> (r: Result<Vec<u8>, ChainError>)
        ensures
            r matches Ok(address) ==> final(self).spec_entries().len() == old(
                self,
            ).spec_entries().len() + 1 && final(self).spec_entries().last().0@ == address@
                && forall|j: int|
                0 <= j < old(self).spec_entries().len() ==> final(self).spec_entries()[j] == old(
                    self,
                ).spec_entries()[j],
            r matches Ok(address) ==> ({
                let w = final(self).spec_entries().last().1;
                &&& w@.public_key == crate::crypto::p256_public_key_of(w@.private_key)
                &&& address@ == crate::crypto::base58_of(
                    crate::wallet::address_payload_of(
                        crate::crypto::hash_pub_key_of(w@.public_key),
                    ),
                )
                &&& crate::wallet::spec_valid_address(address@)
            }),
            r matches Err(e) ==> e == ChainError::KeyDecodeError && *final(self) == *old(self),
    {
        let wallet = match Wallet::new_wallet() {
            Ok(w) => w,
            Err(e) => {
                return Err(e);
            },
        };
        let address = wallet.get_address();
        proof {
            crate::wallet::lemma_address_round_trip(
                crate::crypto::hash_pub_key_of(wallet@.public_key),
            );
        }
        let stored = copy_bytes(&address);
        self.entries.push((stored, wallet));
        Ok(address)
    }

    /// Restores a wallet read back from the wallet file; an address
    /// already stored is refused, so lookups stay unambiguous.
    pub fn restore_wallet(&mut self, address: Vec<u8>, wallet: Wallet) -> (r: bool)
        ensures
            r ==> final(self).spec_entries() == old(self).spec_entries().push((address, wallet)),
            !r ==> *final(self) == *old(self) && exists|i: int|
                0 <= i < old(self).spec_entries().len() && (
                #[trigger] old(self).spec_entries()[i]).0@ == address@,
    {
        let mut i: usize = 0;
        while i < self.entries.len()
            invariant
                i <= self.entries.len(),
                *self == *old(self),
                self.spec_entries().len() == self.entries.len(),
            decreases self.entries.len() - i,
        {
            if bytes_eq(&self.entries[i].0, &address) {
                proof {
                    assert(self.spec_entries()[i as int].0@ == address@);
                }
                return false;
            }
            i = i + 1;
        }
        self.entries.push((address, wallet));
        true
    }

    /// How many wallets are stored.
    pub fn len(&self) -> (r: usize)
        ensures
            r == self.spec_entries().len(),
    {
        self.entries.len()
    }
}

} // verus!
