//! A didactic Bitcoin-style blockchain core: hash-linked blocks of
//! ECDSA-signed UTXO transactions sealed by a proof-of-work puzzle,
//! an unspent-output index derived from the chain, and the decision
//! logic of a small peer-gossip protocol.

pub mod block;
pub mod bytes;
pub mod chain;
pub mod codec;
pub mod crypto;
pub mod merkle;
pub mod node;
pub mod pow;
pub mod transaction;
pub mod utxo;
pub mod wallet;
pub mod wallets;

use vstd::prelude::*;

verus! {

/// The error kinds of the library.
#[derive(Clone, Copy, Debug, PartialEq, Eq, Structural)]
pub enum ChainError {
    /// An address whose checksum does not match.
    InvalidAddress,
    /// A chain store created twice.
    AlreadyInitialized,
    /// A chain store opened before it was created.
    NotInitialized,
    /// A signature that does not verify, or signing failed.
    BadSignature,
    /// A private key that could not be decoded.
    KeyDecodeError,
    /// An input referencing a transaction that is not known.
    InputUnknown,
    /// Spendable inputs that do not cover the requested amount.
    InsufficientFunds,
    /// An input spending an output that is no longer unspent.
    DoubleSpend,
    /// A coinbase transaction of the wrong shape.
    InvalidCoinbase,
    /// A lookup that found nothing.
    NotFound,
    /// A block or message that does not satisfy the chain's rules.
    Malformed,
    /// The nonce space was exhausted without meeting the target.
    MiningExhausted,
}

} // verus!
