//! Decoders for the deterministic binary encoding: big-endian
//! integers, length-prefixed byte strings, transactions and blocks.
//! Each executable parser returns exactly what its specification
//! parser yields on the same bytes.

use vstd::prelude::*;
use crate::transaction::ins_view;
use crate::transaction::outs_view;
use crate::transaction::Transaction;
use crate::transaction::TxInV;
use crate::transaction::TxOutV;
use crate::transaction::TxV;
use crate::transaction::TXInput;
use crate::transaction::TXOutput;
use crate::block::Block;
use crate::block::BlockV;

verus! {

/// Eight bytes read as a big-endian unsigned integer.
pub open spec fn u64_from_be(s: Seq<u8>) -> u64
    recommends
        s.len() == 8,
{
    ((s[0] as u64) << 56) | ((s[1] as u64) << 48) | ((s[2] as u64) << 40) | ((s[3] as u64) << 32)
        | ((s[4] as u64) << 24) | ((s[5] as u64) << 16) | ((s[6] as u64) << 8) | (s[7] as u64)
}

/// Parses a big-endian 64-bit unsigned integer.
pub open spec fn sp_u64(d: Seq<u8>, pos: int) -> Option<(u64, int)> {
    if 0 <= pos && pos + 8 <= d.len() {
        Some((u64_from_be(d.subrange(pos, pos + 8)), pos + 8))
    } else {
        None
    }
}

/// Parses a big-endian 64-bit signed integer (two's complement).
pub open spec fn sp_i64(d: Seq<u8>, pos: int) -> Option<(i64, int)> {
    match sp_u64(d, pos) {
        None => None,
        Some((n, p)) => Some((n as i64, p)),
    }
}

/// Parses a length-prefixed byte string.
pub open spec fn sp_bytes(d: Seq<u8>, pos: int) -> Option<(Seq<u8>, int)> {
    match sp_u64(d, pos) {
        None => None,
        Some((n, p)) => if p + n <= d.len() {
            Some((d.subrange(p, p + n), p + n))
        } else {
            None
        },
    }
}

/// Parses one transaction input.
pub open spec fn sp_txin(d: Seq<u8>, pos: int) -> Option<(TxInV, int)> {
    match sp_bytes(d, pos) {
        None => None,
        Some((txid, p1)) => match sp_i64(d, p1) {
            None => None,
            Some((vout, p2)) => match sp_bytes(d, p2) {
                None => None,
                Some((signature, p3)) => match sp_bytes(d, p3) {
                    None => None,
                    Some((pub_key, p4)) => Some(
                        (TxInV { txid, vout, signature, pub_key }, p4),
                    ),
                },
            },
        },
    }
}

/// Parses `n` transaction inputs.
pub open spec fn sp_txins(d: Seq<u8>, pos: int, n: u64) -> Option<(Seq<TxInV>, int)>
    decreases n,
{
    if n == 0 {
        Some((Seq::empty(), pos))
    } else {
        match sp_txin(d, pos) {
            None => None,
            Some((x, p1)) => match sp_txins(d, p1, (n - 1) as u64) {
                None => None,
                Some((rest, p2)) => Some((seq![x] + rest, p2)),
            },
        }
    }
}

/// Parses one transaction output.
pub open spec fn sp_txout(d: Seq<u8>, pos: int) -> Option<(TxOutV, int)> {
    match sp_i64(d, pos) {
        None => None,
        Some((value, p1)) => match sp_bytes(d, p1) {
            None => None,
            Some((pub_key_hash, p2)) => Some((TxOutV { value, pub_key_hash }, p2)),
        },
    }
}

/// Parses `n` transaction outputs.
pub open spec fn sp_txouts(d: Seq<u8>, pos: int, n: u64) -> Option<(Seq<TxOutV>, int)>
    decreases n,
{
    if n == 0 {
        Some((Seq::empty(), pos))
    } else {
        match sp_txout(d, pos) {
            None => None,
            Some((x, p1)) => match sp_txouts(d, p1, (n - 1) as u64) {
                None => None,
                Some((rest, p2)) => Some((seq![x] + rest, p2)),
            },
        }
    }
}

/// Parses one transaction.
pub open spec fn sp_tx(d: Seq<u8>, pos: int) -> Option<(TxV, int)> {
    match sp_bytes(d, pos) {
        None => None,
        Some((id, p1)) => match sp_u64(d, p1) {
            None => None,
            Some((nvin, p2)) => match sp_txins(d, p2, nvin) {
                None => None,
                Some((vin, p3)) => match sp_u64(d, p3) {
                    None => None,
                    Some((nvout, p4)) => match sp_txouts(d, p4, nvout) {
                        None => None,
                        Some((vout, p5)) => Some((TxV { id, vin, vout }, p5)),
                    },
                },
            },
        },
    }
}

/// Parses `n` transactions.
pub open spec fn sp_txs(d: Seq<u8>, pos: int, n: u64) -> Option<(Seq<TxV>, int)>
    decreases n,
{
    if n == 0 {
        Some((Seq::empty(), pos))
    } else {
        match sp_tx(d, pos) {
            None => None,
            Some((x, p1)) => match sp_txs(d, p1, (n - 1) as u64) {
                None => None,
                Some((rest, p2)) => Some((seq![x] + rest, p2)),
            },
        }
    }
}

/// Parses one block.
pub open spec fn sp_block(d: Seq<u8>, pos: int) -> Option<(BlockV, int)> {
    match sp_i64(d, pos) {
        None => None,
        Some((timestamp, p1)) => match sp_i64(d, p1) {
            None => None,
            Some((nonce, p2)) => match sp_u64(d, p2) {
                None => None,
                Some((height, p3)) => if height > usize::MAX as u64 {
                    None
                } else {
                    match sp_bytes(d, p3) {
                        None => None,
                        Some((prev_block_hash, p4)) => match sp_bytes(d, p4) {
                            None => None,
                            Some((hash, p5)) => match sp_u64(d, p5) {
                                None => None,
                                Some((ntx, p6)) => match sp_txs(d, p6, ntx) {
                                    None => None,
                                    Some((transactions, p7)) => Some(
                                        (
                                            BlockV {
                                                timestamp,
                                                transactions,
                                                prev_block_hash,
                                                hash,
                                                nonce,
                                                height: height as usize,
                                            },
                                            p7,
                                        ),
                                    ),
                                },
                            },
                        },
                    }
                },
            },
        },
    }
}

/// Reads a big-endian 64-bit unsigned integer.
pub fn parse_u64(d: &Vec<u8>, pos: usize) -> (r: Option<(u64, usize)>)
    ensures
        r matches Some((v, end)) ==> sp_u64(d@, pos as int) == Some((v, end as int)),
        r is None ==> sp_u64(d@, pos as int) is None,
{
    if d.len() < 8 || pos > d.len() - 8 {
        return None;
    }
    let v: u64 = ((d[pos] as u64) << 56) | ((d[pos + 1] as u64) << 48) | ((d[pos + 2] as u64)
        << 40) | ((d[pos + 3] as u64) << 32) | ((d[pos + 4] as u64) << 24) | ((d[pos + 5] as u64)
        << 16) | ((d[pos + 6] as u64) << 8) | (d[pos + 7] as u64);
    proof {
        let s = d@.subrange(pos as int, pos + 8);
        assert(s[0] == d@[pos as int]);
        assert(s[1] == d@[pos + 1]);
        assert(s[2] == d@[pos + 2]);
        assert(s[3] == d@[pos + 3]);
        assert(s[4] == d@[pos + 4]);
        assert(s[5] == d@[pos + 5]);
        assert(s[6] == d@[pos + 6]);
        assert(s[7] == d@[pos + 7]);
        assert(v == u64_from_be(s));
    }
    Some((v, pos + 8))
}

/// Reads a big-endian 64-bit signed integer.
pub fn parse_i64(d: &Vec<u8>, pos: usize) -> (r: Option<(i64, usize)>)
    ensures
        r matches Some((v, end)) ==> sp_i64(d@, pos as int) == Some((v, end as int)),
        r is None ==> sp_i64(d@, pos as int) is None,
{
    match parse_u64(d, pos) {
        None => None,
        Some((n, p)) => Some((#[verifier::truncate] (n as i64), p)),
    }
}

/// Reads a length-prefixed byte string.
#[verifier::loop_isolation(false)]
pub fn parse_bytes(d: &Vec<u8>, pos: usize) -> (r: Option<(Vec<u8>, usize)>)
    ensures
        r matches Some((v, end)) ==> sp_bytes(d@, pos as int) == Some((v@, end as int)),
        r is None ==> sp_bytes(d@, pos as int) is None,
{
    let (n, p) = match parse_u64(d, pos) {
        None => {
            return None;
        },
        Some(x) => x,
    };
    if n > (d.len() - p) as u64 {
        return None;
    }
    let count = n as usize;
    let mut v: Vec<u8> = Vec::new();
    let mut i: usize = 0;
    while i < count
        invariant
            i <= count,
            p + count <= d@.len(),
            v@ == d@.subrange(p as int, p + i),
        decreases count - i,
    {
        v.push(d[p + i]);
        i = i + 1;
        proof {
            assert(v@ =~= d@.subrange(p as int, p + i));
        }
    }
    Some((v, p + count))
}

/// Reads one transaction input.
pub fn parse_txin(d: &Vec<u8>, pos: usize) -> (r: Option<(TXInput, usize)>)
    ensures
        r matches Some((v, end)) ==> sp_txin(d@, pos as int) == Some((v@, end as int)),
        r is None ==> sp_txin(d@, pos as int) is None,
{
    let (txid, p1) = match parse_bytes(d, pos) {
        None => {
            return None;
        },
        Some(x) => x,
    };
    let (vout, p2) = match parse_i64(d, p1) {
        None => {
            return None;
        },
        Some(x) => x,
    };
    let (signature, p3) = match parse_bytes(d, p2) {
        None => {
            return None;
        },
        Some(x) => x,
    };
    let (pub_key, p4) = match parse_bytes(d, p3) {
        None => {
            return None;
        },
        Some(x) => x,
    };
    Some((TXInput::from_parts(txid, vout, signature, pub_key), p4))
}

/// Reads one transaction output.
pub fn parse_txout(d: &Vec<u8>, pos: usize) -> (r: Option<(TXOutput, usize)>)
    ensures
        r matches Some((v, end)) ==> sp_txout(d@, pos as int) == Some((v@, end as int)),
        r is None ==> sp_txout(d@, pos as int) is None,
{
    let (value, p1) = match parse_i64(d, pos) {
        None => {
            return None;
        },
        Some(x) => x,
    };
    let (pub_key_hash, p2) = match parse_bytes(d, p1) {
        None => {
            return None;
        },
        Some(x) => x,
    };
    Some((TXOutput::from_parts(value, pub_key_hash), p2))
}

/// Reads one transaction.
#[verifier::loop_isolation(false)]
#[verifier::rlimit(60)]
pub fn parse_tx(d: &Vec<u8>, pos: usize) -> (r: Option<(Transaction, usize)>)
    ensures
        r matches Some((v, end)) ==> sp_tx(d@, pos as int) == Some((v@, end as int)),
        r is None ==> sp_tx(d@, pos as int) is None,
{
    let (id, p1) = match parse_bytes(d, pos) {
        None => {
            return None;
        },
        Some(x) => x,
    };
    let (nvin, p2) = match parse_u64(d, p1) {
        None => {
            return None;
        },
        Some(x) => x,
    };
    let mut vin: Vec<TXInput> = Vec::new();
    let mut k: u64 = 0;
    let mut p3: usize = p2;
    while k < nvin
        invariant
            k <= nvin,
            sp_txins(d@, p2 as int, nvin) == (match sp_txins(d@, p3 as int, (nvin - k) as u64) {
                None => None::<(Seq<TxInV>, int)>,
                Some((rest, end)) => Some((ins_view(vin@) + rest, end)),
            }),
        decreases nvin - k,
    {
        let (x, pnext) = match parse_txin(d, p3) {
            None => {
                proof {
                    assert(sp_txins(d@, p3 as int, (nvin - k) as u64) is None);
                    assert(sp_txins(d@, p2 as int, nvin) is None);
                }
                return None;
            },
            Some(x) => x,
        };
        let ghost before: Seq<TXInput> = vin@;
        vin.push(x);
        proof {
            assert(ins_view(vin@) =~= ins_view(before).push(x@));
            match sp_txins(d@, pnext as int, (nvin - k - 1) as u64) {
                Some((rest, end)) => {
                    assert((ins_view(before) + (seq![x@] + rest)) =~= (ins_view(vin@) + rest));
                },
                None => {},
            }
        }
        p3 = pnext;
        k = k + 1;
    }
    proof {
        assert(sp_txins(d@, p3 as int, 0) == Some((Seq::<TxInV>::empty(), p3 as int)));
        assert(ins_view(vin@) + Seq::<TxInV>::empty() =~= ins_view(vin@));
    }
    let (nvout, p4) = match parse_u64(d, p3) {
        None => {
            return None;
        },
        Some(x) => x,
    };
    let mut vout: Vec<TXOutput> = Vec::new();
    let mut k2: u64 = 0;
    let mut p5: usize = p4;
    while k2 < nvout
        invariant
            k2 <= nvout,
            sp_txouts(d@, p4 as int, nvout) == (match sp_txouts(
                d@,
                p5 as int,
                (nvout - k2) as u64,
            ) {
                None => None::<(Seq<TxOutV>, int)>,
                Some((rest, end)) => Some((outs_view(vout@) + rest, end)),
            }),
        decreases nvout - k2,
    {
        let (x, pnext) = match parse_txout(d, p5) {
            None => {
                proof {
                    assert(sp_txouts(d@, p5 as int, (nvout - k2) as u64) is None);
                    assert(sp_txouts(d@, p4 as int, nvout) is None);
                }
                return None;
            },
            Some(x) => x,
        };
        let ghost before: Seq<TXOutput> = vout@;
        vout.push(x);
        proof {
            assert(outs_view(vout@) =~= outs_view(before).push(x@));
            match sp_txouts(d@, pnext as int, (nvout - k2 - 1) as u64) {
                Some((rest, end)) => {
                    assert((outs_view(before) + (seq![x@] + rest)) =~= (outs_view(vout@) + rest));
                },
                None => {},
            }
        }
        p5 = pnext;
        k2 = k2 + 1;
    }
    proof {
        assert(sp_txouts(d@, p5 as int, 0) == Some((Seq::<TxOutV>::empty(), p5 as int)));
        assert(outs_view(vout@) + Seq::<TxOutV>::empty() =~= outs_view(vout@));
    }
    Some((Transaction::from_parts(id, vin, vout), p5))
}

/// Reads one block; the whole input must be consumed.
#[verifier::loop_isolation(false)]
#[verifier::rlimit(60)]
pub fn deserialize_block(d: &Vec<u8>) -> (r: Option<Block>)
    ensures
        r matches Some(b) ==> sp_block(d@, 0) == Some((b@, d@.len() as int)),
        r is None ==> forall|b: BlockV| sp_block(d@, 0) != Some((b, d@.len() as int)),
{
    let (timestamp, p1) = match parse_i64(d, 0) {
        None => {
            return None;
        },
        Some(x) => x,
    };
    let (nonce, p2) = match parse_i64(d, p1) {
        None => {
            return None;
        },
        Some(x) => x,
    };
    let (height64, p3) = match parse_u64(d, p2) {
        None => {
            return None;
        },
        Some(x) => x,
    };
    if height64 > usize::MAX as u64 {
        return None;
    }
    let height = height64 as usize;
    let (prev_block_hash, p4) = match parse_bytes(d, p3) {
        None => {
            return None;
        },
        Some(x) => x,
    };
    let (hash, p5) = match parse_bytes(d, p4) {
        None => {
            return None;
        },
        Some(x) => x,
    };
    let (ntx, p6) = match parse_u64(d, p5) {
        None => {
            return None;
        },
        Some(x) => x,
    };
    let mut txs: Vec<Transaction> = Vec::new();
    let mut k: u64 = 0;
    let mut p7: usize = p6;
    while k < ntx
        invariant
            k <= ntx,
            sp_txs(d@, p6 as int, ntx) == (match sp_txs(d@, p7 as int, (ntx - k) as u64) {
                None => None::<(Seq<TxV>, int)>,
                Some((rest, end)) => Some((crate::transaction::txs_view(txs@) + rest, end)),
            }),
        decreases ntx - k,
    {
        let (x, pnext) = match parse_tx(d, p7) {
            None => {
                proof {
                    assert(sp_txs(d@, p7 as int, (ntx - k) as u64) is None);
                    assert(sp_txs(d@, p6 as int, ntx) is None);
                }
                return None;
            },
            Some(x) => x,
        };
        let ghost before: Seq<Transaction> = txs@;
        txs.push(x);
        proof {
            assert(crate::transaction::txs_view(txs@) =~= crate::transaction::txs_view(
                before,
            ).push(x@));
            match sp_txs(d@, pnext as int, (ntx - k - 1) as u64) {
                Some((rest, end)) => {
                    assert((crate::transaction::txs_view(before) + (seq![x@] + rest))
                        =~= (crate::transaction::txs_view(txs@) + rest));
                },
                None => {},
            }
        }
        p7 = pnext;
        k = k + 1;
    }
    proof {
        assert(sp_txs(d@, p7 as int, 0) == Some((Seq::<TxV>::empty(), p7 as int)));
        assert(crate::transaction::txs_view(txs@) + Seq::<TxV>::empty()
            =~= crate::transaction::txs_view(txs@));
    }
    if p7 != d.len() {
        return None;
    }
    Some(Block::from_parts(timestamp, txs, prev_block_hash, hash, nonce, height))
}

} // verus!
