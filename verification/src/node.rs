//! The peer-gossip protocol: framed messages — a twelve-byte
//! zero-padded ASCII command followed by a deterministic binary
//! payload — and the node state machine that reconciles heights,
//! pulls missing blocks, propagates transactions and triggers mining.

use vstd::prelude::*;
use crate::block::block_enc;
use crate::block::Block;
use crate::block::BlockV;
use crate::bytes::be8;
use crate::bytes::bytes_eq;
use crate::bytes::copy_bytes;
use crate::bytes::push_be8;
use crate::bytes::push_bytes;
use crate::codec::sp_bytes;
use crate::codec::sp_u64;
use crate::transaction::enc_bytes;
use crate::transaction::serialize_transaction;
use crate::transaction::tx_enc;
use crate::transaction::Transaction;
use crate::transaction::TXOutput;
use crate::transaction::TxV;

verus! {

/// A command text padded with zero bytes to the fixed twelve-byte
/// command field.
pub open spec fn pad12(s: Seq<u8>) -> Seq<u8>
    recommends
        s.len() <= 12,
{
    s + Seq::new((12 - s.len()) as nat, |i: int| 0u8)
}

/// Pads a command text to the twelve-byte command field.
pub fn command_to_bytes(command: &Vec<u8>) -> (r: Vec<u8>)
    requires
        command@.len() <= 12,
    ensures
        r@ == pad12(command@),
        r@.len() == 12,
{
    let mut r = copy_bytes(command);
    while r.len() < 12
        invariant
            command@.len() <= r@.len() <= 12,
            r@ == command@ + Seq::new((r@.len() - command@.len()) as nat, |i: int| 0u8),
        decreases 12 - r.len(),
    {
        r.push(0u8);
        proof {
            assert(r@ =~= command@ + Seq::new((r@.len() - command@.len()) as nat, |i: int| 0u8));
        }
    }
    proof {
        assert(r@ =~= pad12(command@));
    }
    r
}

/// The non-zero bytes of a command field, in order.
pub open spec fn nonzero_bytes(s: Seq<u8>) -> Seq<u8>
    decreases s.len(),
{
    if s.len() == 0 {
        Seq::empty()
    } else {
        (if s[0] == 0 {
            Seq::<u8>::empty()
        } else {
            seq![s[0]]
        }) + nonzero_bytes(s.skip(1))
    }
}

/// Strips the zero padding from a command field.
pub fn bytes_to_command(bytes: &Vec<u8>) -> (r: Vec<u8>)
    ensures
        r@ == nonzero_bytes(bytes@),
{
    let mut r: Vec<u8> = Vec::new();
    let mut i: usize = 0;
    proof {
        assert(bytes@.skip(0) =~= bytes@);
    }
    while i < bytes.len()
        invariant
            i <= bytes.len(),
            nonzero_bytes(bytes@) == r@ + nonzero_bytes(bytes@.skip(i as int)),
        decreases bytes.len() - i,
    {
        proof {
            assert(bytes@.skip(i as int)[0] == bytes@[i as int]);
            assert(bytes@.skip(i as int).skip(1) =~= bytes@.skip(i + 1));
        }
        let ghost before: Seq<u8> = r@;
        if bytes[i] != 0 {
            r.push(bytes[i]);
            proof {
                assert(before + (seq![bytes@[i as int]] + nonzero_bytes(bytes@.skip(i + 1)))
                    =~= r@ + nonzero_bytes(bytes@.skip(i + 1)));
            }
        } else {
            proof {
                assert(before + (Seq::<u8>::empty() + nonzero_bytes(bytes@.skip(i + 1))) =~= before
                    + nonzero_bytes(bytes@.skip(i + 1)));
            }
        }
        i = i + 1;
    }
    proof {
        assert(nonzero_bytes(bytes@.skip(bytes@.len() as int)) == Seq::<u8>::empty());
        assert(r@ + Seq::<u8>::empty() =~= r@);
    }
    r
}

/// What an inventory message advertises.
#[derive(Clone, Copy, Debug, PartialEq, Eq, Structural)]
pub enum InvKind {
    /// Block hashes.
    Blocks,
    /// Transaction ids.
    Txs,
}

/// The byte that stands for an inventory kind on the wire.
pub open spec fn kind_byte(k: InvKind) -> u8 {
    match k {
        InvKind::Blocks => 0u8,
        InvKind::Txs => 1u8,
    }
}

/// The mathematical content of a message.
#[verifier::ext_equal]
pub enum MessageV {
    /// A height announcement.
    Version { version: u64, best_height: u64, addr_from: Seq<u8> },
    /// A request for all block hashes.
    GetBlocks { addr_from: Seq<u8> },
    /// An advertisement of blocks or transactions.
    Inv { addr_from: Seq<u8>, kind: InvKind, items: Seq<Seq<u8>> },
    /// A request for one block or transaction.
    GetData { addr_from: Seq<u8>, kind: InvKind, id: Seq<u8> },
    /// A transaction in flight.
    TxMsg { addr_from: Seq<u8>, transaction: TxV },
    /// A block in flight.
    BlockMsg { addr_from: Seq<u8>, block: BlockV },
    /// A list of peer addresses.
    Addr { addr_list: Seq<Seq<u8>> },
}

/// A gossip message.
pub enum Message {
    /// A height announcement.
    Version { version: u64, best_height: u64, addr_from: Vec<u8> },
    /// A request for all block hashes.
    GetBlocks { addr_from: Vec<u8> },
    /// An advertisement of blocks or transactions.
    Inv { addr_from: Vec<u8>, kind: InvKind, items: Vec<Vec<u8>> },
    /// A request for one block or transaction.
    GetData { addr_from: Vec<u8>, kind: InvKind, id: Vec<u8> },
    /// A transaction in flight.
    TxMsg { addr_from: Vec<u8>, transaction: Transaction },
    /// A block in flight.
    BlockMsg { addr_from: Vec<u8>, block: Block },
    /// A list of peer addresses.
    Addr { addr_list: Vec<Vec<u8>> },
}

impl View for Message {
    type V = MessageV;

    closed spec fn view(&self) -> MessageV {
        match self {
            Message::Version { version, best_height, addr_from } => MessageV::Version {
                version: *version,
                best_height: *best_height,
                addr_from: addr_from@,
            },
            Message::GetBlocks { addr_from } => MessageV::GetBlocks { addr_from: addr_from@ },
            Message::Inv { addr_from, kind, items } => MessageV::Inv {
                addr_from: addr_from@,
                kind: *kind,
                items: crate::bytes::views_of(items@),
            },
            Message::GetData { addr_from, kind, id } => MessageV::GetData {
                addr_from: addr_from@,
                kind: *kind,
                id: id@,
            },
            Message::TxMsg { addr_from, transaction } => MessageV::TxMsg {
                addr_from: addr_from@,
                transaction: transaction@,
            },
            Message::BlockMsg { addr_from, block } => MessageV::BlockMsg {
                addr_from: addr_from@,
                block: block@,
            },
            Message::Addr { addr_list } => MessageV::Addr {
                addr_list: crate::bytes::views_of(addr_list@),
            },
        }
    }
}

/// The text of the `version` command.
pub open spec fn version_text() -> Seq<u8> {
    seq![118u8, 101u8, 114u8, 115u8, 105u8, 111u8, 110u8]
}

/// The text of the `getblocks` command.
pub open spec fn getblocks_text() -> Seq<u8> {
    seq![103u8, 101u8, 116u8, 98u8, 108u8, 111u8, 99u8, 107u8, 115u8]
}

/// The text of the `inv` command.
pub open spec fn inv_text() -> Seq<u8> {
    seq![105u8, 110u8, 118u8]
}

/// The text of the `getdata` command.
pub open spec fn getdata_text() -> Seq<u8> {
    seq![103u8, 101u8, 116u8, 100u8, 97u8, 116u8, 97u8]
}

/// The text of the `tx` command.
pub open spec fn tx_text() -> Seq<u8> {
    seq![116u8, 120u8]
}

/// The text of the `block` command.
pub open spec fn block_text() -> Seq<u8> {
    seq![98u8, 108u8, 111u8, 99u8, 107u8]
}

/// The text of the `addr` command.
pub open spec fn addr_text() -> Seq<u8> {
    seq![97u8, 100u8, 100u8, 114u8]
}

/// The concatenated length-prefixed items of an inventory.
pub open spec fn enc_items(items: Seq<Seq<u8>>) -> Seq<u8>
    decreases items.len(),
{
    if items.len() == 0 {
        Seq::empty()
    } else {
        enc_items(items.drop_last()) + enc_bytes(items.last())
    }
}

/// The wire form of a message: the padded command, then the payload.
pub open spec fn msg_enc(m: MessageV) -> Seq<u8> {
    match m {
        MessageV::Version { version, best_height, addr_from } => pad12(version_text()) + be8(
            version,
        ) + be8(best_height) + enc_bytes(addr_from),
        MessageV::GetBlocks { addr_from } => pad12(getblocks_text()) + enc_bytes(addr_from),
        MessageV::Inv { addr_from, kind, items } => pad12(inv_text()) + enc_bytes(addr_from)
            + seq![kind_byte(kind)] + be8(items.len() as u64) + enc_items(items),
        MessageV::GetData { addr_from, kind, id } => pad12(getdata_text()) + enc_bytes(addr_from)
            + seq![kind_byte(kind)] + enc_bytes(id),
        MessageV::TxMsg { addr_from, transaction } => pad12(tx_text()) + enc_bytes(addr_from)
            + enc_bytes(tx_enc(transaction)),
        MessageV::BlockMsg { addr_from, block } => pad12(block_text()) + enc_bytes(addr_from)
            + enc_bytes(block_enc(block)),
        MessageV::Addr { addr_list } => pad12(addr_text()) + be8(addr_list.len() as u64)
            + enc_items(addr_list),
    }
}

/// Appends a length-prefixed byte string.
fn push_enc_bytes(out: &mut Vec<u8>, src: &Vec<u8>)
    ensures
        final(out)@ == old(out)@ + enc_bytes(src@),
{
    push_be8(out, src.len() as u64);
    push_bytes(out, src);
    proof {
        assert(final(out)@ =~= old(out)@ + enc_bytes(src@));
    }
}

/// Appends the length-prefixed items of an inventory.
fn push_items(out: &mut Vec<u8>, items: &Vec<Vec<u8>>)
    ensures
        final(out)@ == old(out)@ + enc_items(crate::bytes::views_of(items@)),
{
    let ghost iv: Seq<Seq<u8>> = crate::bytes::views_of(items@);
    let mut i: usize = 0;
    proof {
        assert(iv.take(0) =~= Seq::<Seq<u8>>::empty());
    }
    while i < items.len()
        invariant
            i <= items.len(),
            iv == crate::bytes::views_of(items@),
            iv.len() == items.len(),
            out@ == old(out)@ + enc_items(iv.take(i as int)),
        decreases items.len() - i,
    {
        push_enc_bytes(out, &items[i]);
        proof {
            assert(iv.take(i + 1).drop_last() =~= iv.take(i as int));
            assert(iv.take(i + 1).last() == iv[i as int]);
            assert(out@ =~= old(out)@ + (enc_items(iv.take(i as int)) + enc_bytes(iv[i as int])));
        }
        i = i + 1;
    }
    proof {
        assert(iv.take(iv.len() as int) =~= iv);
    }
}

/// The exec form of a command text.
fn command_text(tag: u8) -> (r: Vec<u8>)
    requires
        tag < 7,
    ensures
        tag == 0 ==> r@ == version_text(),
        tag == 1 ==> r@ == getblocks_text(),
        tag == 2 ==> r@ == inv_text(),
        tag == 3 ==> r@ == getdata_text(),
        tag == 4 ==> r@ == tx_text(),
        tag == 5 ==> r@ == block_text(),
        tag == 6 ==> r@ == addr_text(),
        r@.len() <= 12,
{
    let mut r: Vec<u8> = Vec::new();
    if tag == 0 {
        r.push(118u8);
        r.push(101u8);
        r.push(114u8);
        r.push(115u8);
        r.push(105u8);
        r.push(111u8);
        r.push(110u8);
        proof {
            assert(r@ =~= version_text());
        }
    } else if tag == 1 {
        r.push(103u8);
        r.push(101u8);
        r.push(116u8);
        r.push(98u8);
        r.push(108u8);
        r.push(111u8);
        r.push(99u8);
        r.push(107u8);
        r.push(115u8);
        proof {
            assert(r@ =~= getblocks_text());
        }
    } else if tag == 2 {
        r.push(105u8);
        r.push(110u8);
        r.push(118u8);
        proof {
            assert(r@ =~= inv_text());
        }
    } else if tag == 3 {
        r.push(103u8);
        r.push(101u8);
        r.push(116u8);
        r.push(100u8);
        r.push(97u8);
        r.push(116u8);
        r.push(97u8);
        proof {
            assert(r@ =~= getdata_text());
        }
    } else if tag == 4 {
        r.push(116u8);
        r.push(120u8);
        proof {
            assert(r@ =~= tx_text());
        }
    } else if tag == 5 {
        r.push(98u8);
        r.push(108u8);
        r.push(111u8);
        r.push(99u8);
        r.push(107u8);
        proof {
            assert(r@ =~= block_text());
        }
    } else {
        r.push(97u8);
        r.push(100u8);
        r.push(100u8);
        r.push(114u8);
        proof {
            assert(r@ =~= addr_text());
        }
    }
    r
}

/// Encodes a message for the wire.
pub fn encode_message(m: &Message) -> (r: Vec<u8>)
    ensures
        r@ == msg_enc(m@),
{
    match m {
        Message::Version { version, best_height, addr_from } => {
            let text = command_text(0);
            let mut out = command_to_bytes(&text);
            push_be8(&mut out, *version);
            push_be8(&mut out, *best_height);
            push_enc_bytes(&mut out, addr_from);
            proof {
                assert(out@ =~= msg_enc(m@));
            }
            out
        },
        Message::GetBlocks { addr_from } => {
            let text = command_text(1);
            let mut out = command_to_bytes(&text);
            push_enc_bytes(&mut out, addr_from);
            proof {
                assert(out@ =~= msg_enc(m@));
            }
            out
        },
        Message::Inv { addr_from, kind, items } => {
            let text = command_text(2);
            let mut out = command_to_bytes(&text);
            push_enc_bytes(&mut out, addr_from);
            let kb: u8 = match kind {
                InvKind::Blocks => 0u8,
                InvKind::Txs => 1u8,
            };
            out.push(kb);
            push_be8(&mut out, items.len() as u64);
            push_items(&mut out, items);
            proof {
                assert(out@ =~= msg_enc(m@));
            }
            out
        },
        Message::GetData { addr_from, kind, id } => {
            let text = command_text(3);
            let mut out = command_to_bytes(&text);
            push_enc_bytes(&mut out, addr_from);
            let kb: u8 = match kind {
                InvKind::Blocks => 0u8,
                InvKind::Txs => 1u8,
            };
            out.push(kb);
            push_enc_bytes(&mut out, id);
            proof {
                assert(out@ =~= msg_enc(m@));
            }
            out
        },
        Message::TxMsg { addr_from, transaction } => {
            let text = command_text(4);
            let mut out = command_to_bytes(&text);
            push_enc_bytes(&mut out, addr_from);
            let tx_bytes = serialize_transaction(transaction);
            push_enc_bytes(&mut out, &tx_bytes);
            proof {
                assert(out@ =~= msg_enc(m@));
            }
            out
        },
        Message::BlockMsg { addr_from, block } => {
            let text = command_text(5);
            let mut out = command_to_bytes(&text);
            push_enc_bytes(&mut out, addr_from);
            let block_bytes = block.serialize();
            push_enc_bytes(&mut out, &block_bytes);
            proof {
                assert(out@ =~= msg_enc(m@));
            }
            out
        },
        Message::Addr { addr_list } => {
            let text = command_text(6);
            let mut out = command_to_bytes(&text);
            push_be8(&mut out, addr_list.len() as u64);
            push_items(&mut out, addr_list);
            proof {
                assert(out@ =~= msg_enc(m@));
            }
            out
        },
    }
}

} // verus!

verus! {

/// Parses `n` length-prefixed items.
pub open spec fn sp_items(d: Seq<u8>, pos: int, n: u64) -> Option<(Seq<Seq<u8>>, int)>
    decreases n,
{
    if n == 0 {
        Some((Seq::empty(), pos))
    } else {
        match sp_bytes(d, pos) {
            None => None,
            Some((x, p1)) => match sp_items(d, p1, (n - 1) as u64) {
                None => None,
                Some((rest, p2)) => Some((seq![x] + rest, p2)),
            },
        }
    }
}

/// Parses the inventory-kind byte.
pub open spec fn sp_kind(d: Seq<u8>, pos: int) -> Option<(InvKind, int)> {
    if 0 <= pos < d.len() {
        if d[pos] == 0 {
            Some((InvKind::Blocks, pos + 1))
        } else if d[pos] == 1 {
            Some((InvKind::Txs, pos + 1))
        } else {
            None
        }
    } else {
        None
    }
}

/// Parses a whole wire message: the command field picks the payload
/// shape, and the payload must use every byte.
pub open spec fn sp_message(d: Seq<u8>) -> Option<MessageV> {
    if d.len() < 12 {
        None
    } else {
        let cmd = d.take(12);
        if cmd == pad12(version_text()) {
            match sp_u64(d, 12) {
                None => None,
                Some((version, p1)) => match sp_u64(d, p1) {
                    None => None,
                    Some((best_height, p2)) => match sp_bytes(d, p2) {
                        None => None,
                        Some((addr_from, p3)) => if p3 == d.len() {
                            Some(MessageV::Version { version, best_height, addr_from })
                        } else {
                            None
                        },
                    },
                },
            }
        } else if cmd == pad12(getblocks_text()) {
            match sp_bytes(d, 12) {
                None => None,
                Some((addr_from, p1)) => if p1 == d.len() {
                    Some(MessageV::GetBlocks { addr_from })
                } else {
                    None
                },
            }
        } else if cmd == pad12(inv_text()) {
            match sp_bytes(d, 12) {
                None => None,
                Some((addr_from, p1)) => match sp_kind(d, p1) {
                    None => None,
                    Some((kind, p2)) => match sp_u64(d, p2) {
                        None => None,
                        Some((n, p3)) => match sp_items(d, p3, n) {
                            None => None,
                            Some((items, p4)) => if p4 == d.len() {
                                Some(MessageV::Inv { addr_from, kind, items })
                            } else {
                                None
                            },
                        },
                    },
                },
            }
        } else if cmd == pad12(getdata_text()) {
            match sp_bytes(d, 12) {
                None => None,
                Some((addr_from, p1)) => match sp_kind(d, p1) {
                    None => None,
                    Some((kind, p2)) => match sp_bytes(d, p2) {
                        None => None,
                        Some((id, p3)) => if p3 == d.len() {
                            Some(MessageV::GetData { addr_from, kind, id })
                        } else {
                            None
                        },
                    },
                },
            }
        } else if cmd == pad12(tx_text()) {
            match sp_bytes(d, 12) {
                None => None,
                Some((addr_from, p1)) => match sp_bytes(d, p1) {
                    None => None,
                    Some((tx_bytes, p2)) => if p2 != d.len() {
                        None
                    } else {
                        match crate::codec::sp_tx(tx_bytes, 0) {
                            None => None,
                            Some((transaction, e)) => if e == tx_bytes.len() {
                                Some(MessageV::TxMsg { addr_from, transaction })
                            } else {
                                None
                            },
                        }
                    },
                },
            }
        } else if cmd == pad12(block_text()) {
            match sp_bytes(d, 12) {
                None => None,
                Some((addr_from, p1)) => match sp_bytes(d, p1) {
                    None => None,
                    Some((block_bytes, p2)) => if p2 != d.len() {
                        None
                    } else {
                        match crate::codec::sp_block(block_bytes, 0) {
                            None => None,
                            Some((block, e)) => if e == block_bytes.len() {
                                Some(MessageV::BlockMsg { addr_from, block })
                            } else {
                                None
                            },
                        }
                    },
                },
            }
        } else if cmd == pad12(addr_text()) {
            match sp_u64(d, 12) {
                None => None,
                Some((n, p1)) => match sp_items(d, p1, n) {
                    None => None,
                    Some((addr_list, p2)) => if p2 == d.len() {
                        Some(MessageV::Addr { addr_list })
                    } else {
                        None
                    },
                },
            }
        } else {
            None
        }
    }
}

/// Reads `n` length-prefixed items.
#[verifier::loop_isolation(false)]
fn parse_items(d: &Vec<u8>, pos: usize, n: u64) -> (r: Option<(Vec<Vec<u8>>, usize)>)
    ensures
        r matches Some((v, end)) ==> sp_items(d@, pos as int, n) == Some(
            (crate::bytes::views_of(v@), end as int),
        ),
        r is None ==> sp_items(d@, pos as int, n) is None,
{
    let mut items: Vec<Vec<u8>> = Vec::new();
    let mut k: u64 = 0;
    let mut p: usize = pos;
    while k < n
        invariant
            k <= n,
            sp_items(d@, pos as int, n) == (match sp_items(d@, p as int, (n - k) as u64) {
                None => None::<(Seq<Seq<u8>>, int)>,
                Some((rest, end)) => Some((crate::bytes::views_of(items@) + rest, end)),
            }),
        decreases n - k,
    {
        let (x, pnext) = match crate::codec::parse_bytes(d, p) {
            None => {
                proof {
                    assert(sp_items(d@, p as int, (n - k) as u64) is None);
                }
                return None;
            },
            Some(x) => x,
        };
        let ghost before: Seq<Vec<u8>> = items@;
        let ghost xv: Seq<u8> = x@;
        items.push(x);
        proof {
            assert(crate::bytes::views_of(items@) =~= crate::bytes::views_of(before).push(xv));
            match sp_items(d@, pnext as int, (n - k - 1) as u64) {
                Some((rest, end)) => {
                    assert((crate::bytes::views_of(before) + (seq![xv] + rest))
                        =~= (crate::bytes::views_of(items@) + rest));
                },
                None => {},
            }
        }
        p = pnext;
        k = k + 1;
    }
    proof {
        assert(sp_items(d@, p as int, 0) == Some((Seq::<Seq<u8>>::empty(), p as int)));
        assert(crate::bytes::views_of(items@) + Seq::<Seq<u8>>::empty() =~= crate::bytes::views_of(
            items@,
        ));
    }
    Some((items, p))
}

/// Reads the inventory-kind byte.
fn parse_kind(d: &Vec<u8>, pos: usize) -> (r: Option<(InvKind, usize)>)
    ensures
        r matches Some((v, end)) ==> sp_kind(d@, pos as int) == Some((v, end as int)),
        r is None ==> sp_kind(d@, pos as int) is None,
{
    if pos < d.len() {
        if d[pos] == 0 {
            Some((InvKind::Blocks, pos + 1))
        } else if d[pos] == 1 {
            Some((InvKind::Txs, pos + 1))
        } else {
            None
        }
    } else {
        None
    }
}

/// Decodes a wire message.
#[verifier::rlimit(100)]
#[verifier::spinoff_prover]
pub fn decode_message(d: &Vec<u8>) -> (r: Option<Message>)
    ensures
        r matches Some(m) ==> sp_message(d@) == Some(m@),
        r is None ==> sp_message(d@) is None,
{
    if d.len() < 12 {
        return None;
    }
    let mut cmd: Vec<u8> = Vec::new();
    let mut i: usize = 0;
    while i < 12
        invariant
            i <= 12,
            d@.len() >= 12,
            cmd@ == d@.take(i as int),
        decreases 12 - i,
    {
        cmd.push(d[i]);
        i = i + 1;
        proof {
            assert(cmd@ =~= d@.take(i as int));
        }
    }
    if bytes_eq(&cmd, &command_to_bytes(&command_text(0))) {
        let (version, p1) = match crate::codec::parse_u64(d, 12) {
            None => {
                return None;
            },
            Some(x) => x,
        };
        let (best_height, p2) = match crate::codec::parse_u64(d, p1) {
            None => {
                return None;
            },
            Some(x) => x,
        };
        let (addr_from, p3) = match crate::codec::parse_bytes(d, p2) {
            None => {
                return None;
            },
            Some(x) => x,
        };
        if p3 != d.len() {
            return None;
        }
        Some(Message::Version { version, best_height, addr_from })
    } else if bytes_eq(&cmd, &command_to_bytes(&command_text(1))) {
        let (addr_from, p1) = match crate::codec::parse_bytes(d, 12) {
            None => {
                return None;
            },
            Some(x) => x,
        };
        if p1 != d.len() {
            return None;
        }
        Some(Message::GetBlocks { addr_from })
    } else if bytes_eq(&cmd, &command_to_bytes(&command_text(2))) {
        let (addr_from, p1) = match crate::codec::parse_bytes(d, 12) {
            None => {
                return None;
            },
            Some(x) => x,
        };
        let (kind, p2) = match parse_kind(d, p1) {
            None => {
                return None;
            },
            Some(x) => x,
        };
        let (n, p3) = match crate::codec::parse_u64(d, p2) {
            None => {
                return None;
            },
            Some(x) => x,
        };
        let (items, p4) = match parse_items(d, p3, n) {
            None => {
                return None;
            },
            Some(x) => x,
        };
        if p4 != d.len() {
            return None;
        }
        Some(Message::Inv { addr_from, kind, items })
    } else if bytes_eq(&cmd, &command_to_bytes(&command_text(3))) {
        let (addr_from, p1) = match crate::codec::parse_bytes(d, 12) {
            None => {
                return None;
            },
            Some(x) => x,
        };
        let (kind, p2) = match parse_kind(d, p1) {
            None => {
                return None;
            },
            Some(x) => x,
        };
        let (id, p3) = match crate::codec::parse_bytes(d, p2) {
            None => {
                return None;
            },
            Some(x) => x,
        };
        if p3 != d.len() {
            return None;
        }
        Some(Message::GetData { addr_from, kind, id })
    } else if bytes_eq(&cmd, &command_to_bytes(&command_text(4))) {
        let (addr_from, p1) = match crate::codec::parse_bytes(d, 12) {
            None => {
                return None;
            },
            Some(x) => x,
        };
        let (tx_bytes, p2) = match crate::codec::parse_bytes(d, p1) {
            None => {
                return None;
            },
            Some(x) => x,
        };
        if p2 != d.len() {
            return None;
        }
        let (transaction, e) = match crate::codec::parse_tx(&tx_bytes, 0) {
            None => {
                return None;
            },
            Some(x) => x,
        };
        if e != tx_bytes.len() {
            return None;
        }
        Some(Message::TxMsg { addr_from, transaction })
    } else if bytes_eq(&cmd, &command_to_bytes(&command_text(5))) {
        let (addr_from, p1) = match crate::codec::parse_bytes(d, 12) {
            None => {
                return None;
            },
            Some(x) => x,
        };
        let (block_bytes, p2) = match crate::codec::parse_bytes(d, p1) {
            None => {
                return None;
            },
            Some(x) => x,
        };
        if p2 != d.len() {
            return None;
        }
        let block = match crate::codec::deserialize_block(&block_bytes) {
            None => {
                proof {
                    match crate::codec::sp_block(block_bytes@, 0) {
                        Some((b, e)) => {
                            if e == block_bytes@.len() {
                                assert(crate::codec::sp_block(block_bytes@, 0) == Some(
                                    (b, block_bytes@.len() as int),
                                ));
                                assert(false);
                            }
                        },
                        None => {},
                    }
                }
                return None;
            },
            Some(b) => b,
        };
        Some(Message::BlockMsg { addr_from, block })
    } else if bytes_eq(&cmd, &command_to_bytes(&command_text(6))) {
        let (n, p1) = match crate::codec::parse_u64(d, 12) {
            None => {
                return None;
            },
            Some(x) => x,
        };
        let (addr_list, p2) = match parse_items(d, p1, n) {
            None => {
                return None;
            },
            Some(x) => x,
        };
        if p2 != d.len() {
            return None;
        }
        Some(Message::Addr { addr_list })
    } else {
        None
    }
}

} // verus!

verus! {

/// The protocol version this node announces.
pub const NODE_VERSION: u64 = 1;

/// Whether an address occurs in a list of addresses.
pub open spec fn contains_addr(s: Seq<Seq<u8>>, a: Seq<u8>) -> bool {
    exists|i: int| 0 <= i < s.len() && s[i] == a
}

/// The addresses of a list that are neither `a` nor `b`, in order.
pub open spec fn peers_except(s: Seq<Seq<u8>>, a: Seq<u8>, b: Seq<u8>) -> Seq<Seq<u8>>
    decreases s.len(),
{
    if s.len() == 0 {
        Seq::empty()
    } else {
        (if s[0] != a && s[0] != b {
            seq![s[0]]
        } else {
            Seq::<Seq<u8>>::empty()
        }) + peers_except(s.skip(1), a, b)
    }
}

/// The views of a list of outgoing messages: each target address with
/// the message sent to it.
pub open spec fn msgs_view(s: Seq<(Vec<u8>, Message)>) -> Seq<(Seq<u8>, MessageV)> {
    s.map_values(|p: (Vec<u8>, Message)| (p.0@, p.1@))
}

/// The ids of a sequence of transactions.
pub open spec fn ids_of(s: Seq<TxV>) -> Seq<Seq<u8>> {
    s.map_values(|t: TxV| t.id)
}

/// One node of the gossip network: its own address, the reward
/// address when it mines, its peers, the blocks it is pulling, its
/// mempool, and the chain store with its unspent-output index.
pub struct Node {
    node_address: Vec<u8>,
    mining_address: Vec<u8>,
    known_nodes: Vec<Vec<u8>>,
    blocks_in_transit: Vec<Vec<u8>>,
    mempool: Vec<Transaction>,
    chain: crate::chain::Blockchain,
    utxo_set: crate::utxo::UtxoSet,
}

impl Node {
    /// The node's own address.
    pub closed spec fn spec_node_address(&self) -> Seq<u8> {
        self.node_address@
    }

    /// The reward address; empty when the node does not mine.
    pub closed spec fn spec_mining_address(&self) -> Seq<u8> {
        self.mining_address@
    }

    /// The known peer addresses, in order.
    pub closed spec fn spec_known_nodes(&self) -> Seq<Seq<u8>> {
        crate::bytes::views_of(self.known_nodes@)
    }

    /// The block hashes still to be fetched, in order.
    pub closed spec fn spec_transit(&self) -> Seq<Seq<u8>> {
        crate::bytes::views_of(self.blocks_in_transit@)
    }

    /// The unconfirmed transactions, in arrival order.
    pub closed spec fn spec_mempool(&self) -> Seq<TxV> {
        crate::transaction::txs_view(self.mempool@)
    }

    /// The chain store's content.
    pub closed spec fn spec_chain(&self) -> crate::chain::ChainV {
        self.chain@
    }

    /// The unspent-output index's content.
    pub closed spec fn spec_utxo(&self) -> Seq<(Vec<u8>, Vec<TXOutput>)> {
        self.utxo_set.spec_entries()
    }

    /// The node's invariant: a well-formed store and index, at least
    /// the seed peer, and a mempool with distinct transaction ids.
    pub open spec fn wf(&self) -> bool {
        &&& crate::chain::wf(self.spec_chain())
        &&& crate::utxo::utxo_keys_ok(self.spec_utxo())
        &&& self.spec_known_nodes().len() >= 1
        &&& forall|a: int, b: int|
            0 <= a < self.spec_mempool().len() && 0 <= b < self.spec_mempool().len() && a != b
                ==> self.spec_mempool()[a].id != self.spec_mempool()[b].id
    }

    /// Builds a node around an opened chain store and index, with the
    /// seed peer as its first known node.
    pub fn new_node(
        node_address: Vec<u8>,
        mining_address: Vec<u8>,
        seed: Vec<u8>,
        chain: crate::chain::Blockchain,
        utxo_set: crate::utxo::UtxoSet,
    ) -> (r: Node)
        requires
            crate::chain::wf(chain@),
            utxo_set.wf(),
        ensures
            r.wf(),
            r.spec_node_address() == node_address@,
            r.spec_mining_address() == mining_address@,
            r.spec_known_nodes() == seq![seed@],
            r.spec_transit().len() == 0,
            r.spec_mempool().len() == 0,
            r.spec_chain() == chain@,
    {
        let r = Node {
            node_address,
            mining_address,
            known_nodes: vec![seed],
            blocks_in_transit: Vec::new(),
            mempool: Vec::new(),
            chain,
            utxo_set,
        };
        proof {
            assert(r.spec_known_nodes() =~= seq![r.known_nodes@[0]@]);
            assert(r.spec_mempool().len() == 0);
        }
        r
    }

    /// A borrow of the chain store.
    pub fn chain_ref(&self) -> (r: &crate::chain::Blockchain)
        ensures
            r@ == self.spec_chain(),
    {
        &self.chain
    }

    /// A borrow of the unspent-output index.
    pub fn utxo_ref(&self) -> (r: &crate::utxo::UtxoSet)
        ensures
            r.spec_entries() == self.spec_utxo(),
    {
        &self.utxo_set
    }

    /// The node's own address.
    pub fn address(&self) -> (r: Vec<u8>)
        ensures
            r@ == self.spec_node_address(),
    {
        copy_bytes(&self.node_address)
    }

    /// The message a freshly started non-seed node sends to the seed:
    /// its own height.
    pub fn startup_message(&self) -> (r: Option<(Vec<u8>, Message)>)
        requires
            self.wf(),
        ensures
            self.spec_node_address() == self.spec_known_nodes()[0] ==> r is None,
            self.spec_node_address() != self.spec_known_nodes()[0] ==> (r matches Some(m)
                && m.0@ == self.spec_known_nodes()[0] && m.1@ == (MessageV::Version {
                version: NODE_VERSION,
                best_height: crate::chain::spec_best_height(self.spec_chain()) as u64,
                addr_from: self.spec_node_address(),
            })),
    {
        if bytes_eq(&self.node_address, &self.known_nodes[0]) {
            None
        } else {
            let best_height = self.chain.get_best_height() as u64;
            Some(
                (
                    copy_bytes(&self.known_nodes[0]),
                    Message::Version {
                        version: NODE_VERSION,
                        best_height,
                        addr_from: copy_bytes(&self.node_address),
                    },
                ),
            )
        }
    }

    /// Answers a height announcement: asks a taller peer for its
    /// blocks, announces back to a shorter one, and learns the
    /// sender's address.
    pub fn handle_version(&mut self, version: u64, best_height: u64, addr_from: Vec<u8>) -> (r:
        Vec<(Vec<u8>, Message)>)
        requires
            old(self).wf(),
        ensures
            final(self).wf(),
            final(self).spec_chain() == old(self).spec_chain(),
            final(self).spec_utxo() == old(self).spec_utxo(),
            final(self).spec_mempool() == old(self).spec_mempool(),
            final(self).spec_transit() == old(self).spec_transit(),
            final(self).spec_node_address() == old(self).spec_node_address(),
            final(self).spec_mining_address() == old(self).spec_mining_address(),
            final(self).spec_known_nodes() == (if contains_addr(
                old(self).spec_known_nodes(),
                addr_from@,
            ) {
                old(self).spec_known_nodes()
            } else {
                old(self).spec_known_nodes().push(addr_from@)
            }),
            ({
                let my = crate::chain::spec_best_height(old(self).spec_chain()) as u64;
                &&& my < best_height ==> msgs_view(r@) == seq![
                    (
                        addr_from@,
                        MessageV::GetBlocks { addr_from: old(self).spec_node_address() },
                    ),
                ]
                &&& my > best_height ==> msgs_view(r@) == seq![
                    (
                        addr_from@,
                        MessageV::Version {
                            version: NODE_VERSION,
                            best_height: my,
                            addr_from: old(self).spec_node_address(),
                        },
                    ),
                ]
                &&& my == best_height ==> r@.len() == 0
            }),
    {
        let my = self.chain.get_best_height() as u64;
        let mut out: Vec<(Vec<u8>, Message)> = Vec::new();
        if my < best_height {
            out.push(
                (
                    copy_bytes(&addr_from),
                    Message::GetBlocks { addr_from: copy_bytes(&self.node_address) },
                ),
            );
        } else if my > best_height {
            out.push(
                (
                    copy_bytes(&addr_from),
                    Message::Version {
                        version: NODE_VERSION,
                        best_height: my,
                        addr_from: copy_bytes(&self.node_address),
                    },
                ),
            );
        }
        let known = self.node_is_known(&addr_from);
        if !known {
            self.known_nodes.push(addr_from);
            proof {
                assert(self.spec_known_nodes() =~= old(self).spec_known_nodes().push(
                    self.known_nodes@.last()@,
                ));
            }
        }
        proof {
            if msgs_view(out@).len() == 1 {
                assert(msgs_view(out@) =~= seq![msgs_view(out@)[0]]);
            }
            assert(self.spec_mempool() == old(self).spec_mempool());
            assert(self.spec_utxo() == old(self).spec_utxo());
            assert(self.spec_chain() == old(self).spec_chain());
            assert(self.spec_known_nodes().len() >= 1);
        }
        out
    }

    /// Forgets a peer that could not be reached: every entry holding
    /// its address is removed, unless that would leave the node
    /// without peers, in which case the list is kept as it is.
    pub fn forget_peer(&mut self, addr: &Vec<u8>)
        requires
            old(self).wf(),
        ensures
            final(self).wf(),
            final(self).spec_chain() == old(self).spec_chain(),
            final(self).spec_utxo() == old(self).spec_utxo(),
            final(self).spec_mempool() == old(self).spec_mempool(),
            final(self).spec_transit() == old(self).spec_transit(),
            final(self).spec_node_address() == old(self).spec_node_address(),
            final(self).spec_mining_address() == old(self).spec_mining_address(),
            final(self).spec_known_nodes() == (if peers_except(
                old(self).spec_known_nodes(),
                addr@,
                addr@,
            ).len() >= 1 {
                peers_except(old(self).spec_known_nodes(), addr@, addr@)
            } else {
                old(self).spec_known_nodes()
            }),
    {
        let ghost kv: Seq<Seq<u8>> = self.spec_known_nodes();
        proof {
            assert(kv.skip(0) =~= kv);
        }
        let mut kept: Vec<Vec<u8>> = Vec::new();
        let mut i: usize = 0;
        while i < self.known_nodes.len()
            invariant
                i <= self.known_nodes.len(),
                kv == self.spec_known_nodes(),
                kv.len() == self.known_nodes.len(),
                peers_except(kv, addr@, addr@) == crate::bytes::views_of(kept@) + peers_except(
                    kv.skip(i as int),
                    addr@,
                    addr@,
                ),
            decreases self.known_nodes.len() - i,
        {
            proof {
                assert(kv.skip(i as int)[0] == kv[i as int]);
                assert(kv.skip(i as int).skip(1) =~= kv.skip(i + 1));
            }
            let ghost before: Seq<Vec<u8>> = kept@;
            if !bytes_eq(&self.known_nodes[i], addr) {
                kept.push(copy_bytes(&self.known_nodes[i]));
                proof {
                    assert(crate::bytes::views_of(kept@) =~= crate::bytes::views_of(before).push(
                        kv[i as int],
                    ));
                    assert(crate::bytes::views_of(before) + (seq![kv[i as int]] + peers_except(
                        kv.skip(i + 1),
                        addr@,
                        addr@,
                    )) =~= crate::bytes::views_of(kept@) + peers_except(
                        kv.skip(i + 1),
                        addr@,
                        addr@,
                    ));
                }
            } else {
                proof {
                    assert(crate::bytes::views_of(before) + (Seq::<Seq<u8>>::empty()
                        + peers_except(kv.skip(i + 1), addr@, addr@)) =~= crate::bytes::views_of(
                        before,
                    ) + peers_except(kv.skip(i + 1), addr@, addr@));
                }
            }
            i = i + 1;
        }
        proof {
            assert(peers_except(kv.skip(kv.len() as int), addr@, addr@) == Seq::<
                Seq<u8>,
            >::empty());
            assert(crate::bytes::views_of(kept@) + Seq::<Seq<u8>>::empty()
                =~= crate::bytes::views_of(kept@));
        }
        if kept.len() >= 1 {
            self.known_nodes = kept;
        }
        proof {
            assert(self.spec_mempool() == old(self).spec_mempool());
        }
    }

    /// Whether a peer address is already known.
    pub fn node_is_known(&self, addr: &Vec<u8>) -> (r: bool)
        ensures
            r == contains_addr(self.spec_known_nodes(), addr@),
    {
        let mut i: usize = 0;
        while i < self.known_nodes.len()
            invariant
                i <= self.known_nodes.len(),
                forall|j: int| 0 <= j < i ==> self.spec_known_nodes()[j] != addr@,
                self.spec_known_nodes().len() == self.known_nodes.len(),
            decreases self.known_nodes.len() - i,
        {
            if bytes_eq(&self.known_nodes[i], addr) {
                proof {
                    assert(self.spec_known_nodes()[i as int] == addr@);
                }
                return true;
            }
            i = i + 1;
        }
        false
    }

    /// Answers a request for the chain: every block hash, tip first.
    pub fn handle_get_blocks(&self, addr_from: Vec<u8>) -> (r: Vec<(Vec<u8>, Message)>)
        requires
            self.wf(),
        ensures
            msgs_view(r@) == seq![
                (
                    addr_from@,
                    MessageV::Inv {
                        addr_from: self.spec_node_address(),
                        kind: InvKind::Blocks,
                        items: crate::chain::hashes_of(
                            crate::chain::chain_walk(self.spec_chain()),
                        ),
                    },
                ),
            ],
    {
        let hashes = self.chain.get_block_hashes();
        let mut out: Vec<(Vec<u8>, Message)> = Vec::new();
        out.push(
            (
                addr_from,
                Message::Inv {
                    addr_from: copy_bytes(&self.node_address),
                    kind: InvKind::Blocks,
                    items: hashes,
                },
            ),
        );
        proof {
            assert(msgs_view(out@) =~= seq![msgs_view(out@)[0]]);
        }
        out
    }

    /// Whether the mempool holds a transaction with the given id.
    pub fn mempool_has(&self, id: &Vec<u8>) -> (r: bool)
        ensures
            r == (crate::transaction::find_tx(self.spec_mempool(), id@) is Some),
    {
        match crate::transaction::find_transaction_in(&self.mempool, id) {
            Some(_) => true,
            None => false,
        }
    }

    /// Answers an advertisement. For blocks, the classical protocol
    /// requests the first advertised hash, but this store refuses a
    /// block whose parent it does not hold, and the advertisement
    /// lists the tip first: pulled in that order every block would
    /// arrive as an orphan. The pull therefore starts at the deepest
    /// advertised hash and keeps the rest in transit, so each hash is
    /// still requested exactly once, parents before children. For an
    /// unknown transaction the advertised id is requested.
    pub fn handle_inv(&mut self, addr_from: Vec<u8>, kind: InvKind, items: Vec<Vec<u8>>) -> (r:
        Vec<(Vec<u8>, Message)>)
        requires
            old(self).wf(),
        ensures
            final(self).wf(),
            final(self).spec_chain() == old(self).spec_chain(),
            final(self).spec_utxo() == old(self).spec_utxo(),
            final(self).spec_mempool() == old(self).spec_mempool(),
            final(self).spec_known_nodes() == old(self).spec_known_nodes(),
            final(self).spec_node_address() == old(self).spec_node_address(),
            final(self).spec_mining_address() == old(self).spec_mining_address(),
            items@.len() == 0 ==> r@.len() == 0 && final(self).spec_transit() == old(
                self,
            ).spec_transit(),
            kind == InvKind::Blocks && items@.len() > 0 ==> final(self).spec_transit()
                == crate::bytes::views_of(items@).drop_last() && msgs_view(r@) == seq![
                (
                    addr_from@,
                    MessageV::GetData {
                        addr_from: old(self).spec_node_address(),
                        kind: InvKind::Blocks,
                        id: items@.last()@,
                    },
                ),
            ],
            kind == InvKind::Txs ==> final(self).spec_transit() == old(self).spec_transit(),
            kind == InvKind::Txs && items@.len() > 0 ==> msgs_view(r@) == (
            if crate::transaction::find_tx(old(self).spec_mempool(), items@[0]@) is Some {
                Seq::<(Seq<u8>, MessageV)>::empty()
            } else {
                seq![
                    (
                        addr_from@,
                        MessageV::GetData {
                            addr_from: old(self).spec_node_address(),
                            kind: InvKind::Txs,
                            id: items@[0]@,
                        },
                    ),
                ]
            }),
    {
        let mut out: Vec<(Vec<u8>, Message)> = Vec::new();
        if items.len() == 0 {
            return out;
        }
        match kind {
            InvKind::Blocks => {
                let ghost items_v: Seq<Seq<u8>> = crate::bytes::views_of(items@);
                let mut transit = items;
                let deepest = match transit.pop() {
                    Some(h) => h,
                    None => {
                        proof {
                            assert(false);
                        }
                        unreached()
                    },
                };
                proof {
                    assert(crate::bytes::views_of(transit@) =~= items_v.drop_last());
                }
                self.blocks_in_transit = transit;
                out.push(
                    (
                        addr_from,
                        Message::GetData {
                            addr_from: copy_bytes(&self.node_address),
                            kind: InvKind::Blocks,
                            id: deepest,
                        },
                    ),
                );
                proof {
                    assert(msgs_view(out@) =~= seq![msgs_view(out@)[0]]);
                }
            },
            InvKind::Txs => {
                let id = copy_bytes(&items[0]);
                if !self.mempool_has(&id) {
                    out.push(
                        (
                            addr_from,
                            Message::GetData {
                                addr_from: copy_bytes(&self.node_address),
                                kind: InvKind::Txs,
                                id,
                            },
                        ),
                    );
                    proof {
                        assert(msgs_view(out@) =~= seq![msgs_view(out@)[0]]);
                    }
                }
            },
        }
        out
    }
}

} // verus!

verus! {

impl Node {
    /// Answers a data request: the named block from the store, or the
    /// named transaction from the mempool; nothing when it is absent.
    pub fn handle_get_data(&self, addr_from: Vec<u8>, kind: InvKind, id: &Vec<u8>) -> (r: Vec<
        (Vec<u8>, Message),
    >)
        requires
            self.wf(),
        ensures
            kind == InvKind::Blocks ==> msgs_view(r@) == (match crate::chain::lookup(
                self.spec_chain().blocks,
                id@,
            ) {
                Some(b) => seq![
                    (
                        addr_from@,
                        MessageV::BlockMsg { addr_from: self.spec_node_address(), block: b },
                    ),
                ],
                None => Seq::<(Seq<u8>, MessageV)>::empty(),
            }),
            kind == InvKind::Txs ==> msgs_view(r@) == (match crate::transaction::find_tx(
                self.spec_mempool(),
                id@,
            ) {
                Some(t) => seq![
                    (
                        addr_from@,
                        MessageV::TxMsg { addr_from: self.spec_node_address(), transaction: t },
                    ),
                ],
                None => Seq::<(Seq<u8>, MessageV)>::empty(),
            }),
    {
        let mut out: Vec<(Vec<u8>, Message)> = Vec::new();
        match kind {
            InvKind::Blocks => {
                match self.chain.get_block(id) {
                    Some(block) => {
                        out.push(
                            (
                                addr_from,
                                Message::BlockMsg {
                                    addr_from: copy_bytes(&self.node_address),
                                    block,
                                },
                            ),
                        );
                        proof {
                            assert(msgs_view(out@) =~= seq![msgs_view(out@)[0]]);
                        }
                    },
                    None => {},
                }
            },
            InvKind::Txs => {
                match crate::transaction::find_transaction_in(&self.mempool, id) {
                    Some(t) => {
                        let tx = t.duplicate();
                        out.push(
                            (
                                addr_from,
                                Message::TxMsg {
                                    addr_from: copy_bytes(&self.node_address),
                                    transaction: tx,
                                },
                            ),
                        );
                        proof {
                            assert(msgs_view(out@) =~= seq![msgs_view(out@)[0]]);
                        }
                    },
                    None => {},
                }
            },
        }
        out
    }

    /// Takes a block received from a peer: admits it to the store,
    /// then requests the next block in transit — the transit list is
    /// consumed from its deep end, so every block arrives after its
    /// parent and is never rejected as an orphan — or, when the pull
    /// is complete, rebuilds the unspent-output index from the chain.
    pub fn handle_block(&mut self, addr_from: Vec<u8>, block: Block) -> (r: Result<
        Vec<(Vec<u8>, Message)>,
        crate::ChainError,
    >)
        requires
            old(self).wf(),
        ensures
            final(self).wf(),
            final(self).spec_mempool() == old(self).spec_mempool(),
            final(self).spec_known_nodes() == old(self).spec_known_nodes(),
            final(self).spec_node_address() == old(self).spec_node_address(),
            final(self).spec_mining_address() == old(self).spec_mining_address(),
            r matches Err(e) ==> e == crate::ChainError::Malformed && *final(self) == *old(self)
                && !crate::chain::admissible(old(self).spec_chain(), block@) && crate::chain::lookup(
                old(self).spec_chain().blocks,
                block@.hash,
            ) is None,
            r is Ok ==> final(self).spec_chain() == (if crate::chain::lookup(
                old(self).spec_chain().blocks,
                block@.hash,
            ) is Some {
                old(self).spec_chain()
            } else {
                crate::chain::ChainV {
                    blocks: old(self).spec_chain().blocks.push(block@),
                    tip: crate::chain::tip_after(old(self).spec_chain(), block@),
                }
            }),
            r is Ok && old(self).spec_transit().len() > 0 ==> final(self).spec_transit() == old(
                self,
            ).spec_transit().drop_last() && final(self).spec_utxo() == old(self).spec_utxo(),
            r matches Ok(msgs) ==> (old(self).spec_transit().len() > 0 ==> msgs_view(msgs@)
                == seq![
                (
                    addr_from@,
                    MessageV::GetData {
                        addr_from: old(self).spec_node_address(),
                        kind: InvKind::Blocks,
                        id: old(self).spec_transit().last(),
                    },
                ),
            ]),
            r matches Ok(msgs) ==> (old(self).spec_transit().len() == 0 ==> msgs@.len() == 0
                && final(self).spec_transit().len() == 0) && (old(self).spec_transit().len() == 0
                ==> forall|id: Seq<u8>|
                crate::utxo::assoc_outs(final(self).spec_utxo(), id)
                    == crate::chain::utxo_entry(
                    crate::chain::chain_walk(final(self).spec_chain()),
                    id,
                )),
    {
        let ghost oldc: crate::chain::ChainV = self.chain@;
        let ghost bv: BlockV = block@;
        match self.chain.add_block(block) {
            Ok(()) => {},
            Err(e) => {
                return Err(e);
            },
        }
        let mut out: Vec<(Vec<u8>, Message)> = Vec::new();
        if self.blocks_in_transit.len() > 0 {
            let ghost tv: Seq<Seq<u8>> = self.spec_transit();
            let next = match self.blocks_in_transit.pop() {
                Some(h) => h,
                None => {
                    proof {
                        assert(false);
                    }
                    unreached()
                },
            };
            proof {
                assert(crate::bytes::views_of(self.blocks_in_transit@) =~= tv.drop_last());
                assert(next@ == tv.last());
            }
            out.push(
                (
                    addr_from,
                    Message::GetData {
                        addr_from: copy_bytes(&self.node_address),
                        kind: InvKind::Blocks,
                        id: next,
                    },
                ),
            );
            proof {
                assert(msgs_view(out@) =~= seq![msgs_view(out@)[0]]);
            }
        } else {
            self.utxo_set.reindex(&self.chain);
        }
        proof {
            assert(self.spec_mempool() == old(self).spec_mempool());
        }
        Ok(out)
    }

    /// Merges announced peer addresses and asks every known peer for
    /// its blocks.
    pub fn handle_addr(&mut self, addr_list: Vec<Vec<u8>>) -> (r: Vec<(Vec<u8>, Message)>)
        requires
            old(self).wf(),
        ensures
            final(self).wf(),
            final(self).spec_chain() == old(self).spec_chain(),
            final(self).spec_utxo() == old(self).spec_utxo(),
            final(self).spec_mempool() == old(self).spec_mempool(),
            final(self).spec_transit() == old(self).spec_transit(),
            final(self).spec_node_address() == old(self).spec_node_address(),
            final(self).spec_known_nodes() == old(self).spec_known_nodes()
                + crate::bytes::views_of(addr_list@),
            msgs_view(r@).len() == final(self).spec_known_nodes().len(),
            forall|i: int|
                0 <= i < msgs_view(r@).len() ==> msgs_view(r@)[i] == (
                final(self).spec_known_nodes()[i],
                MessageV::GetBlocks { addr_from: old(self).spec_node_address() },
            ),
    {
        let ghost added: Seq<Seq<u8>> = crate::bytes::views_of(addr_list@);
        let mut incoming = addr_list;
        let mut j: usize = 0;
        let n = incoming.len();
        while j < n
            invariant
                j <= n,
                n == incoming.len(),
                incoming@.len() == n,
                added == crate::bytes::views_of(incoming@),
                added.len() == n,
                self.spec_known_nodes() == old(self).spec_known_nodes() + added.take(j as int),
                self.spec_mempool() == old(self).spec_mempool(),
                self.spec_chain() == old(self).spec_chain(),
                self.spec_utxo() == old(self).spec_utxo(),
                self.spec_transit() == old(self).spec_transit(),
                self.spec_node_address() == old(self).spec_node_address(),
                self.spec_mining_address() == old(self).spec_mining_address(),
                old(self).wf(),
            decreases n - j,
        {
            let ghost kn_before: Seq<Seq<u8>> = self.spec_known_nodes();
            self.known_nodes.push(copy_bytes(&incoming[j]));
            proof {
                assert(incoming@[j as int]@ == added[j as int]);
                assert(self.known_nodes@.last()@ == added[j as int]);
                assert(self.spec_known_nodes() =~= kn_before.push(added[j as int]));
                assert(kn_before.push(added[j as int]) =~= old(self).spec_known_nodes()
                    + added.take(j + 1));
            }
            j = j + 1;
        }
        proof {
            assert(added.take(n as int) =~= added);
        }
        let mut out: Vec<(Vec<u8>, Message)> = Vec::new();
        let mut i: usize = 0;
        while i < self.known_nodes.len()
            invariant
                i <= self.known_nodes.len(),
                self.spec_known_nodes().len() == self.known_nodes.len(),
                msgs_view(out@).len() == i,
                forall|k: int|
                    0 <= k < i ==> msgs_view(out@)[k] == (
                    self.spec_known_nodes()[k],
                    MessageV::GetBlocks { addr_from: self.spec_node_address() },
                ),
            decreases self.known_nodes.len() - i,
        {
            let ghost mv_before: Seq<(Seq<u8>, MessageV)> = msgs_view(out@);
            out.push(
                (
                    copy_bytes(&self.known_nodes[i]),
                    Message::GetBlocks { addr_from: copy_bytes(&self.node_address) },
                ),
            );
            proof {
                assert(msgs_view(out@) =~= mv_before.push(
                    (
                        self.spec_known_nodes()[i as int],
                        MessageV::GetBlocks { addr_from: self.spec_node_address() },
                    ),
                ));
            }
            i = i + 1;
        }
        proof {
            assert(self.spec_mempool() == old(self).spec_mempool());
            assert(self.spec_known_nodes().len() >= old(self).spec_known_nodes().len());
        }
        out
    }
}

} // verus!

verus! {

/// One message addressed to each target, in order.
pub open spec fn fanout(targets: Seq<Seq<u8>>, m: MessageV) -> Seq<(Seq<u8>, MessageV)> {
    targets.map_values(|t: Seq<u8>| (t, m))
}

/// A block already satisfying the mined-block shape keeps it when
/// another block is appended after it.
proof fn lemma_mined_block_ok_push(
    bs: Seq<BlockV>,
    b: BlockV,
    i: int,
    mining_address: Seq<u8>,
    mempool_after: Seq<crate::transaction::TxV>,
)
    requires
        0 <= i < bs.len(),
        mined_block_ok(bs, i, mining_address, mempool_after),
    ensures
        mined_block_ok(bs.push(b), i, mining_address, mempool_after),
{
    assert(bs.push(b)[i] == bs[i]);
    assert(bs.push(b).take(i) =~= bs.take(i));
}

/// Whether every outgoing message is a block inventory of a newly
/// appended block's hash, sent from the node to a known peer other
/// than itself.
pub open spec fn broadcasts_ok(
    msgs: Seq<(Seq<u8>, MessageV)>,
    node_addr: Seq<u8>,
    known: Seq<Seq<u8>>,
    bs: Seq<BlockV>,
    old_len: int,
) -> bool {
    forall|j: int|
        0 <= j < msgs.len() ==> (#[trigger] msgs[j]).0 != node_addr && contains_addr(
            known,
            msgs[j].0,
        ) && exists|i: int|
            #![trigger bs[i]]
            old_len <= i < bs.len() && msgs[j].1 == (MessageV::Inv {
                addr_from: node_addr,
                kind: InvKind::Blocks,
                items: seq![bs[i].hash],
            })
}

/// Broadcast messages stay valid when another block is appended.
proof fn lemma_broadcasts_ok_push(
    msgs: Seq<(Seq<u8>, MessageV)>,
    node_addr: Seq<u8>,
    known: Seq<Seq<u8>>,
    bs: Seq<BlockV>,
    b: BlockV,
    old_len: int,
)
    requires
        0 <= old_len,
        broadcasts_ok(msgs, node_addr, known, bs, old_len),
    ensures
        broadcasts_ok(msgs, node_addr, known, bs.push(b), old_len),
{
    assert forall|j: int| 0 <= j < msgs.len() implies (#[trigger] msgs[j]).0 != node_addr
        && contains_addr(known, msgs[j].0) && exists|i: int|
        #![trigger bs.push(b)[i]]
        old_len <= i < bs.push(b).len() && msgs[j].1 == (MessageV::Inv {
            addr_from: node_addr,
            kind: InvKind::Blocks,
            items: seq![bs.push(b)[i].hash],
        }) by {
        assert((#[trigger] msgs[j]).0 != node_addr && contains_addr(known, msgs[j].0) && exists|
            i: int,
        |
            #![trigger bs[i]]
            old_len <= i < bs.len() && msgs[j].1 == (MessageV::Inv {
                addr_from: node_addr,
                kind: InvKind::Blocks,
                items: seq![bs[i].hash],
            }));
        let i = choose|i: int|
            #![trigger bs[i]]
            old_len <= i < bs.len() && msgs[j].1 == (MessageV::Inv {
                addr_from: node_addr,
                kind: InvKind::Blocks,
                items: seq![bs[i].hash],
            });
        assert(bs.push(b)[i] == bs[i]);
        assert(old_len <= i < bs.push(b).len() && msgs[j].1 == (MessageV::Inv {
            addr_from: node_addr,
            kind: InvKind::Blocks,
            items: seq![bs.push(b)[i].hash],
        }));
    }
}

/// Whether some transaction of a block carries the given id.
pub open spec fn block_holds_id(b: BlockV, id: Seq<u8>) -> bool {
    exists|k: int| 0 <= k < b.transactions.len() && (#[trigger] b.transactions[k]).id == id
}

/// What holds of every block the mining path appends, read over the
/// final store `bs` and the final mempool: the block carries at least
/// one mempool transaction and, last, a coinbase paying the mining
/// address; every other transaction verified against the chain the
/// block was mined on (the blocks below it, under its parent as tip);
/// and none of its transactions is left in the mempool.
pub open spec fn mined_block_ok(
    bs: Seq<BlockV>,
    i: int,
    mining_address: Seq<u8>,
    mempool_after: Seq<TxV>,
) -> bool {
    let b = bs[i];
    &&& b.transactions.len() >= 2
    &&& exists|p: Seq<u8>|
        #![trigger crate::crypto::base58_of(p)]
        crate::crypto::base58_of(p) == mining_address && p.len() >= 5 && b.transactions.last()
            == crate::transaction::coinbase_shape(
            crate::wallet::pkh_of_payload(p),
            crate::transaction::default_coinbase_data(mining_address),
        )
    &&& forall|k: int|
        0 <= k < b.transactions.len() - 1 ==> crate::transaction::tx_verifies(
            #[trigger] b.transactions[k],
            crate::chain::chain_txs(
                crate::chain::chain_walk(
                    crate::chain::ChainV { blocks: bs.take(i), tip: b.prev_block_hash },
                ),
            ),
        )
    &&& forall|k: int|
        0 <= k < b.transactions.len() ==> crate::transaction::find_tx(
            mempool_after,
            (#[trigger] b.transactions[k]).id,
        ) is None
}

/// Replaces or inserts a transaction, keyed by its id.
fn mp_put(mp: &mut Vec<Transaction>, tx: Transaction)
    requires
        forall|a: int, b: int|
            0 <= a < old(mp)@.len() && 0 <= b < old(mp)@.len() && a != b
                ==> crate::transaction::txs_view(old(mp)@)[a].id != crate::transaction::txs_view(
                old(mp)@,
            )[b].id,
    ensures
        forall|a: int, b: int|
            0 <= a < final(mp)@.len() && 0 <= b < final(mp)@.len() && a != b
                ==> crate::transaction::txs_view(final(mp)@)[a].id
                != crate::transaction::txs_view(final(mp)@)[b].id,
        crate::transaction::find_tx(crate::transaction::txs_view(final(mp)@), tx@.id) == Some(tx@),
        forall|id: Seq<u8>|
            id != tx@.id ==> crate::transaction::find_tx(
                crate::transaction::txs_view(final(mp)@),
                id,
            ) == crate::transaction::find_tx(crate::transaction::txs_view(old(mp)@), id),
{
    let txid = tx.get_id();
    mp_remove(mp, &txid);
    let ghost mid: Seq<crate::transaction::TxV> = crate::transaction::txs_view(mp@);
    let ghost tv: crate::transaction::TxV = tx@;
    mp.push(tx);
    proof {
        assert(crate::transaction::txs_view(mp@) =~= mid.push(tv));
        crate::transaction::lemma_find_tx_push(mid, tv, tv.id);
        assert forall|id: Seq<u8>| id != tv.id implies crate::transaction::find_tx(
            mid.push(tv),
            id,
        ) == crate::transaction::find_tx(mid, id) by {
            crate::transaction::lemma_find_tx_push(mid, tv, id);
            if crate::transaction::find_tx(mid, id) is None {
            }
        }
        assert(crate::transaction::find_tx(mid, tv.id) is None);
        assert(crate::transaction::find_tx(mid.push(tv), tv.id) == Some(tv));
        assert forall|a: int, b: int|
            0 <= a < mp@.len() && 0 <= b < mp@.len() && a != b implies crate::transaction::txs_view(
            mp@,
        )[a].id != crate::transaction::txs_view(mp@)[b].id by {
            let s = mid.push(tv);
            if a < mid.len() && b < mid.len() {
            } else if a < mid.len() {
                crate::transaction::lemma_find_tx_at_index(mid, a);
                assert(crate::transaction::find_tx(mid, mid[a].id) is Some);
            } else if b < mid.len() {
                crate::transaction::lemma_find_tx_at_index(mid, b);
                assert(crate::transaction::find_tx(mid, mid[b].id) is Some);
            }
        }
    }
}

/// Removes the transaction with the given id, if it is held.
fn mp_remove(mp: &mut Vec<Transaction>, id: &Vec<u8>)
    requires
        forall|a: int, b: int|
            0 <= a < old(mp)@.len() && 0 <= b < old(mp)@.len() && a != b
                ==> crate::transaction::txs_view(old(mp)@)[a].id != crate::transaction::txs_view(
                old(mp)@,
            )[b].id,
    ensures
        forall|a: int, b: int|
            0 <= a < final(mp)@.len() && 0 <= b < final(mp)@.len() && a != b
                ==> crate::transaction::txs_view(final(mp)@)[a].id
                != crate::transaction::txs_view(final(mp)@)[b].id,
        crate::transaction::find_tx(crate::transaction::txs_view(final(mp)@), id@) is None,
        forall|id2: Seq<u8>|
            id2 != id@ ==> crate::transaction::find_tx(
                crate::transaction::txs_view(final(mp)@),
                id2,
            ) == crate::transaction::find_tx(crate::transaction::txs_view(old(mp)@), id2),
        crate::transaction::find_tx(crate::transaction::txs_view(old(mp)@), id@) is Some
            ==> final(mp)@.len() + 1 == old(mp)@.len(),
        crate::transaction::find_tx(crate::transaction::txs_view(old(mp)@), id@) is None
            ==> *final(mp) == *old(mp),
{
    let ghost before: Seq<crate::transaction::TxV> = crate::transaction::txs_view(mp@);
    let mut i: usize = 0;
    while i < mp.len()
        invariant
            i <= mp.len(),
            *mp == *old(mp),
            before == crate::transaction::txs_view(mp@),
            before.len() == mp@.len(),
            forall|a: int, b: int|
                0 <= a < before.len() && 0 <= b < before.len() && a != b ==> before[a].id
                    != before[b].id,
            forall|j: int| 0 <= j < i ==> before[j].id != id@,
        decreases mp.len() - i,
    {
        if bytes_eq(mp[i].get_id_ref(), id) {
            proof {
                assert(before[i as int].id == id@);
                crate::transaction::lemma_find_tx_at_index(before, i as int);
            }
            mp.remove(i);
            proof {
                assert(crate::transaction::txs_view(mp@) =~= before.remove(i as int));
                crate::transaction::lemma_find_tx_remove(before, i as int, id@);
                assert forall|id2: Seq<u8>| id2 != id@ implies crate::transaction::find_tx(
                    before.remove(i as int),
                    id2,
                ) == crate::transaction::find_tx(before, id2) by {
                    crate::transaction::lemma_find_tx_remove(before, i as int, id2);
                }
                assert forall|a: int, b: int|
                    0 <= a < mp@.len() && 0 <= b < mp@.len() && a != b implies
                    crate::transaction::txs_view(mp@)[a].id != crate::transaction::txs_view(
                    mp@,
                )[b].id by {
                    let a0 = if a < i as int {
                        a
                    } else {
                        a + 1
                    };
                    let b0 = if b < i as int {
                        b
                    } else {
                        b + 1
                    };
                    assert(crate::transaction::txs_view(mp@)[a] == before[a0]);
                    assert(crate::transaction::txs_view(mp@)[b] == before[b0]);
                }
            }
            return ;
        }
        i = i + 1;
    }
    proof {
        if crate::transaction::find_tx(before, id@) is Some {
            crate::transaction::lemma_find_tx_member(before, id@);
            assert(false);
        }
    }
}

} // verus!

verus! {

impl Node {
    /// Takes a transaction received from a peer: stores it in the
    /// mempool; the seed node advertises it to every other peer,
    /// while a mining node with a full enough mempool assembles
    /// blocks from the transactions that verify, rewards itself with
    /// a coinbase, rebuilds the index and advertises each mined
    /// block.
    #[verifier::loop_isolation(false)]
    #[verifier::rlimit(100)]
    #[verifier::spinoff_prover]
    pub fn handle_tx(&mut self, addr_from: Vec<u8>, tx: Transaction) -> (r: Result<
        Vec<(Vec<u8>, Message)>,
        crate::ChainError,
    >)
        requires
            old(self).wf(),
        ensures
            final(self).wf(),
            final(self).spec_known_nodes() == old(self).spec_known_nodes(),
            final(self).spec_transit() == old(self).spec_transit(),
            final(self).spec_node_address() == old(self).spec_node_address(),
            final(self).spec_mining_address() == old(self).spec_mining_address(),
            final(self).spec_chain().blocks.take(old(self).spec_chain().blocks.len() as int) == old(
                self,
            ).spec_chain().blocks,
            final(self).spec_chain().blocks.len() >= old(self).spec_chain().blocks.len(),
            old(self).spec_node_address() == old(self).spec_known_nodes()[0] ==> r is Ok
                && final(self).spec_chain() == old(self).spec_chain() && final(self).spec_utxo()
                == old(self).spec_utxo() && crate::transaction::find_tx(
                final(self).spec_mempool(),
                tx@.id,
            ) == Some(tx@),
            r matches Ok(msgs) ==> (old(self).spec_node_address() == old(
                self,
            ).spec_known_nodes()[0] ==> msgs_view(msgs@) == fanout(
                peers_except(
                    old(self).spec_known_nodes(),
                    old(self).spec_node_address(),
                    addr_from@,
                ),
                MessageV::Inv {
                    addr_from: old(self).spec_node_address(),
                    kind: InvKind::Txs,
                    items: seq![tx@.id],
                },
            )),
            final(self).spec_chain() == old(self).spec_chain() ==> final(self).spec_utxo()
                == old(self).spec_utxo(),
            final(self).spec_chain().blocks.len() > old(self).spec_chain().blocks.len()
                ==> forall|id: Seq<u8>|
                crate::utxo::assoc_outs(final(self).spec_utxo(), id)
                    == crate::chain::utxo_entry(
                    crate::chain::chain_walk(final(self).spec_chain()),
                    id,
                ),
            crate::transaction::find_tx(final(self).spec_mempool(), tx@.id) == Some(tx@)
                || exists|i: int|
                old(self).spec_chain().blocks.len() <= i < final(self).spec_chain().blocks.len()
                    && block_holds_id(#[trigger] final(self).spec_chain().blocks[i], tx@.id),
            forall|i: int|
                old(self).spec_chain().blocks.len() <= i < final(self).spec_chain().blocks.len()
                    ==> #[trigger] mined_block_ok(
                    final(self).spec_chain().blocks,
                    i,
                    old(self).spec_mining_address(),
                    final(self).spec_mempool(),
                ),
            r matches Ok(_) && old(self).spec_node_address() != old(self).spec_known_nodes()[0]
                ==> final(self).spec_mempool().len() < 2 || old(
                self,
            ).spec_mining_address().len() == 0 || final(self).spec_chain().blocks.len() > old(
                self,
            ).spec_chain().blocks.len() || (forall|j: int|
                0 <= j < final(self).spec_mempool().len()
                    ==> !(crate::transaction::resolvable(
                    #[trigger] final(self).spec_mempool()[j],
                    crate::chain::chain_txs(crate::chain::chain_walk(final(self).spec_chain())),
                ) && crate::transaction::tx_verifies(
                    final(self).spec_mempool()[j],
                    crate::chain::chain_txs(crate::chain::chain_walk(final(self).spec_chain())),
                ))),
            r matches Ok(msgs) ==> (old(self).spec_node_address()
                != old(self).spec_known_nodes()[0] ==> broadcasts_ok(
                msgs_view(msgs@),
                old(self).spec_node_address(),
                old(self).spec_known_nodes(),
                final(self).spec_chain().blocks,
                old(self).spec_chain().blocks.len() as int,
            )),
            r matches Err(e) ==> e == crate::ChainError::InvalidAddress || e
                == crate::ChainError::MiningExhausted || e == crate::ChainError::Malformed || e
                == crate::ChainError::BadSignature || e == crate::ChainError::InputUnknown,
    {
        let txid = tx.get_id();
        proof {
            assert(self.spec_mempool() == crate::transaction::txs_view(self.mempool@));
        }
        mp_put(&mut self.mempool, tx);
        let mut out: Vec<(Vec<u8>, Message)> = Vec::new();
        if bytes_eq(&self.node_address, &self.known_nodes[0]) {
            let ghost kv: Seq<Seq<u8>> = self.spec_known_nodes();
            let ghost inv_msg: MessageV = MessageV::Inv {
                addr_from: self.spec_node_address(),
                kind: InvKind::Txs,
                items: seq![txid@],
            };
            proof {
                assert(kv.skip(0) =~= kv);
            }
            let mut i: usize = 0;
            while i < self.known_nodes.len()
                invariant
                    i <= self.known_nodes.len(),
                    fanout(
                        peers_except(kv, self.spec_node_address(), addr_from@),
                        inv_msg,
                    ) == msgs_view(out@) + fanout(
                        peers_except(
                            kv.skip(i as int),
                            self.spec_node_address(),
                            addr_from@,
                        ),
                        inv_msg,
                    ),
                decreases self.known_nodes.len() - i,
            {
                proof {
                    assert(kv.skip(i as int)[0] == kv[i as int]);
                    assert(kv.skip(i as int).skip(1) =~= kv.skip(i + 1));
                }
                let ghost mv_before: Seq<(Seq<u8>, MessageV)> = msgs_view(out@);
                let target = &self.known_nodes[i];
                if !bytes_eq(target, &self.node_address) && !bytes_eq(target, &addr_from) {
                    out.push(
                        (
                            copy_bytes(target),
                            Message::Inv {
                                addr_from: copy_bytes(&self.node_address),
                                kind: InvKind::Txs,
                                items: vec![copy_bytes(&txid)],
                            },
                        ),
                    );
                    proof {
                        assert(crate::bytes::views_of(out@.last().1.arrow_Inv_items()@) =~= seq![
                            txid@,
                        ]) by {
                            assert(out@.last().1.arrow_Inv_items()@.len() == 1);
                        }
                        assert(msgs_view(out@) =~= mv_before.push((kv[i as int], inv_msg)));
                        assert(peers_except(
                            kv.skip(i as int),
                            self.spec_node_address(),
                            addr_from@,
                        ) == seq![kv[i as int]] + peers_except(
                            kv.skip(i + 1),
                            self.spec_node_address(),
                            addr_from@,
                        ));
                        assert(fanout(
                            seq![kv[i as int]] + peers_except(
                                kv.skip(i + 1),
                                self.spec_node_address(),
                                addr_from@,
                            ),
                            inv_msg,
                        ) =~= seq![(kv[i as int], inv_msg)] + fanout(
                            peers_except(kv.skip(i + 1), self.spec_node_address(), addr_from@),
                            inv_msg,
                        ));
                        assert(mv_before + (seq![(kv[i as int], inv_msg)] + fanout(
                            peers_except(kv.skip(i + 1), self.spec_node_address(), addr_from@),
                            inv_msg,
                        )) =~= msgs_view(out@) + fanout(
                            peers_except(kv.skip(i + 1), self.spec_node_address(), addr_from@),
                            inv_msg,
                        ));
                    }
                } else {
                    proof {
                        assert(peers_except(
                            kv.skip(i as int),
                            self.spec_node_address(),
                            addr_from@,
                        ) == peers_except(
                            kv.skip(i + 1),
                            self.spec_node_address(),
                            addr_from@,
                        )) by {
                            assert(Seq::<Seq<u8>>::empty() + peers_except(
                                kv.skip(i + 1),
                                self.spec_node_address(),
                                addr_from@,
                            ) =~= peers_except(
                                kv.skip(i + 1),
                                self.spec_node_address(),
                                addr_from@,
                            ));
                        }
                    }
                }
                i = i + 1;
            }
            proof {
                assert(peers_except(
                    kv.skip(kv.len() as int),
                    self.spec_node_address(),
                    addr_from@,
                ) == Seq::<Seq<u8>>::empty());
                assert(fanout(Seq::<Seq<u8>>::empty(), inv_msg) =~= Seq::<
                    (Seq<u8>, MessageV),
                >::empty());
                assert(msgs_view(out@) + Seq::<(Seq<u8>, MessageV)>::empty() =~= msgs_view(out@));
            }
            return Ok(out);
        }
        let ghost old_len: int = old(self).spec_chain().blocks.len() as int;
        proof {
            assert(self.spec_chain().blocks.take(old_len) =~= old(self).spec_chain().blocks);
        }
        while self.mempool.len() >= 2 && self.mining_address.len() > 0
            invariant
                crate::chain::wf(self.spec_chain()),
                crate::utxo::utxo_keys_ok(self.spec_utxo()),
                self.spec_known_nodes() == old(self).spec_known_nodes(),
                self.spec_transit() == old(self).spec_transit(),
                self.spec_node_address() == old(self).spec_node_address(),
                self.spec_mining_address() == old(self).spec_mining_address(),
                old_len == old(self).spec_chain().blocks.len() as int,
                self.spec_chain().blocks.take(old_len) == old(self).spec_chain().blocks,
                self.spec_chain().blocks.len() >= old_len,
                self.spec_chain() == old(self).spec_chain() || self.spec_chain().blocks.len()
                    > old_len,
                forall|a: int, b: int|
                    0 <= a < self.spec_mempool().len() && 0 <= b < self.spec_mempool().len() && a
                        != b ==> self.spec_mempool()[a].id != self.spec_mempool()[b].id,
                self.spec_chain() == old(self).spec_chain() ==> self.spec_utxo() == old(
                    self,
                ).spec_utxo(),
                self.spec_chain().blocks.len() > old_len ==> forall|id: Seq<u8>|
                    crate::utxo::assoc_outs(self.spec_utxo(), id) == crate::chain::utxo_entry(
                        crate::chain::chain_walk(self.spec_chain()),
                        id,
                    ),
                crate::transaction::find_tx(self.spec_mempool(), tx@.id) == Some(tx@) || exists|
                    i: int,
                |
                    old_len <= i < self.spec_chain().blocks.len() && block_holds_id(
                        #[trigger] self.spec_chain().blocks[i],
                        tx@.id,
                    ),
                forall|i: int|
                    old_len <= i < self.spec_chain().blocks.len() ==> #[trigger] mined_block_ok(
                        self.spec_chain().blocks,
                        i,
                        self.spec_mining_address(),
                        self.spec_mempool(),
                    ),
                broadcasts_ok(
                    msgs_view(out@),
                    self.spec_node_address(),
                    self.spec_known_nodes(),
                    self.spec_chain().blocks,
                    old_len,
                ),
            decreases self.spec_mempool().len(),
        {
            let ghost chain_at_head: crate::chain::ChainV = self.spec_chain();
            let len_before = self.mempool.len();
            let mut valid: Vec<Transaction> = Vec::new();
            let mut i: usize = 0;
            while i < self.mempool.len()
                invariant
                    i <= self.mempool.len(),
                    forall|j: int|
                        0 <= j < valid@.len() ==> crate::transaction::find_tx(
                            self.spec_mempool(),
                            (#[trigger] valid@[j])@.id,
                        ) == Some(valid@[j]@),
                    forall|j: int|
                        0 <= j < valid@.len() ==> crate::transaction::tx_verifies(
                            (#[trigger] valid@[j])@,
                            crate::chain::chain_txs(crate::chain::chain_walk(chain_at_head)),
                        ),
                    valid@.len() == 0 ==> forall|j: int|
                        0 <= j < i ==> !(crate::transaction::resolvable(
                            #[trigger] self.spec_mempool()[j],
                            crate::chain::chain_txs(crate::chain::chain_walk(chain_at_head)),
                        ) && crate::transaction::tx_verifies(
                            self.spec_mempool()[j],
                            crate::chain::chain_txs(crate::chain::chain_walk(chain_at_head)),
                        )),
                decreases self.mempool.len() - i,
            {
                let verdict = match self.chain.verify_transaction(&self.mempool[i]) {
                    Ok(b) => b,
                    Err(_) => false,
                };
                if verdict {
                    proof {
                        crate::transaction::lemma_find_tx_at_index(self.spec_mempool(), i as int);
                    }
                    valid.push(self.mempool[i].duplicate());
                }
                i = i + 1;
            }
            if valid.len() == 0 {
                return Ok(out);
            }
            let coinbase = match crate::transaction::new_coinbase_tx(
                &self.mining_address,
                Vec::new(),
            ) {
                Some(c) => c,
                None => {
                    return Err(crate::ChainError::InvalidAddress);
                },
            };
            let ghost cbv: crate::transaction::TxV = coinbase@;
            let ghost mempool_txs: Seq<crate::transaction::TxV> = crate::transaction::txs_view(
                valid@,
            );
            valid.push(coinbase);
            proof {
                assert(crate::transaction::txs_view(valid@) =~= mempool_txs.push(cbv));
            }
            let ghost blockv: Seq<crate::transaction::TxV> = crate::transaction::txs_view(valid@);
            let mined = match self.chain.mine_block(valid) {
                Ok(b) => b,
                Err(e) => {
                    return Err(e);
                },
            };
            let ghost mi: int = chain_at_head.blocks.len() as int;
            proof {
                assert(self.spec_chain().blocks == chain_at_head.blocks.push(mined@));
                lemma_broadcasts_ok_push(
                    msgs_view(out@),
                    self.spec_node_address(),
                    self.spec_known_nodes(),
                    chain_at_head.blocks,
                    mined@,
                    old_len,
                );
                assert(self.spec_chain().blocks.take(old_len) =~= chain_at_head.blocks.take(
                    old_len,
                ));
                assert(self.spec_chain().blocks.take(mi) =~= chain_at_head.blocks);
                assert(self.spec_chain().blocks[mi] == mined@);
            }
            self.utxo_set.reindex(&self.chain);
            let ghost chain_now: crate::chain::ChainV = self.spec_chain();
            let ghost utxo_now: Seq<(Vec<u8>, Vec<TXOutput>)> = self.spec_utxo();
            let mined_txs = mined.get_transactions();
            proof {
                assert(crate::transaction::txs_view(mined_txs@) == blockv);
                assert(blockv.last() == cbv);
                assert(blockv.len() >= 2);
                assert forall|i: int| old_len <= i < mi implies #[trigger] mined_block_ok(
                    self.spec_chain().blocks,
                    i,
                    self.spec_mining_address(),
                    self.spec_mempool(),
                ) by {
                    lemma_mined_block_ok_push(
                        chain_at_head.blocks,
                        mined@,
                        i,
                        self.spec_mining_address(),
                        self.spec_mempool(),
                    );
                }
            }
            let mut k: usize = 0;
            while k < mined_txs.len()
                invariant
                    k <= mined_txs.len(),
                    self.spec_chain() == chain_now,
                    self.spec_utxo() == utxo_now,
                    self.spec_known_nodes() == old(self).spec_known_nodes(),
                    self.spec_transit() == old(self).spec_transit(),
                    self.spec_node_address() == old(self).spec_node_address(),
                    self.spec_mining_address() == old(self).spec_mining_address(),
                    forall|a: int, b: int|
                        0 <= a < self.spec_mempool().len() && 0 <= b < self.spec_mempool().len()
                            && a != b ==> self.spec_mempool()[a].id != self.spec_mempool()[b].id,
                    self.spec_mempool().len() <= len_before,
                    old_len <= mi < self.spec_chain().blocks.len(),
                    self.spec_chain().blocks[mi].transactions == blockv,
                    blockv.len() == mined_txs@.len(),
                    crate::transaction::txs_view(mined_txs@) == blockv,
                    crate::transaction::find_tx(self.spec_mempool(), tx@.id) == Some(tx@)
                        || exists|i: int|
                        old_len <= i < self.spec_chain().blocks.len() && block_holds_id(
                            #[trigger] self.spec_chain().blocks[i],
                            tx@.id,
                        ),
                    forall|i: int|
                        old_len <= i < mi ==> #[trigger] mined_block_ok(
                            self.spec_chain().blocks,
                            i,
                            self.spec_mining_address(),
                            self.spec_mempool(),
                        ),
                    forall|k2: int|
                        0 <= k2 < k ==> crate::transaction::find_tx(
                            self.spec_mempool(),
                            (#[trigger] blockv[k2]).id,
                        ) is None,
                decreases mined_txs.len() - k,
            {
                let id = mined_txs[k].get_id();
                let ghost mp_before: Seq<crate::transaction::TxV> = self.spec_mempool();
                proof {
                    assert(mined_txs@[k as int]@ == blockv[k as int]);
                    assert(id@ == blockv[k as int].id);
                }
                mp_remove(&mut self.mempool, &id);
                proof {
                    let gk: int = k as int;
                    if crate::transaction::find_tx(mp_before, tx@.id) == Some(tx@) {
                        if id@ == tx@.id {
                            assert(self.spec_chain().blocks[mi].transactions[gk].id == tx@.id) by {
                                assert(self.spec_chain().blocks[mi].transactions == blockv);
                                assert(blockv[gk].id == id@);
                            }
                            assert(block_holds_id(self.spec_chain().blocks[mi], tx@.id));
                        }
                    }
                    assert forall|i: int| old_len <= i < mi implies #[trigger] mined_block_ok(
                        self.spec_chain().blocks,
                        i,
                        self.spec_mining_address(),
                        self.spec_mempool(),
                    ) by {
                        assert(mined_block_ok(
                            self.spec_chain().blocks,
                            i,
                            self.spec_mining_address(),
                            mp_before,
                        ));
                        assert forall|k2: int|
                            0 <= k2 < self.spec_chain().blocks[i].transactions.len() implies
                            crate::transaction::find_tx(
                                self.spec_mempool(),
                                (#[trigger] self.spec_chain().blocks[i].transactions[k2]).id,
                            ) is None by {
                            assert(crate::transaction::find_tx(
                                mp_before,
                                self.spec_chain().blocks[i].transactions[k2].id,
                            ) is None);
                            if self.spec_chain().blocks[i].transactions[k2].id != id@ {
                                assert(crate::transaction::find_tx(
                                    self.spec_mempool(),
                                    self.spec_chain().blocks[i].transactions[k2].id,
                                ) == crate::transaction::find_tx(
                                    mp_before,
                                    self.spec_chain().blocks[i].transactions[k2].id,
                                ));
                            }
                        }
                    }
                }
                k = k + 1;
            }
            if self.mempool.len() >= len_before {
                return Ok(out);
            }
            proof {
                assert(mined_block_ok(
                    self.spec_chain().blocks,
                    mi,
                    self.spec_mining_address(),
                    self.spec_mempool(),
                )) by {
                    let bs = self.spec_chain().blocks;
                    assert(bs[mi].transactions == blockv);
                    assert forall|k2: int| 0 <= k2 < blockv.len() - 1 implies
                        crate::transaction::tx_verifies(
                        #[trigger] bs[mi].transactions[k2],
                        crate::chain::chain_txs(
                            crate::chain::chain_walk(
                                crate::chain::ChainV {
                                    blocks: bs.take(mi),
                                    tip: bs[mi].prev_block_hash,
                                },
                            ),
                        ),
                    ) by {
                        assert(blockv[k2] == mempool_txs[k2]);
                        assert(crate::chain::ChainV {
                            blocks: bs.take(mi),
                            tip: bs[mi].prev_block_hash,
                        } =~= chain_at_head);
                    }
                }
            }
            let block_hash = mined.get_hash();
            let mut t: usize = 0;
            while t < self.known_nodes.len()
                invariant
                    t <= self.known_nodes.len(),
                    self.spec_known_nodes().len() == self.known_nodes@.len(),
                    broadcasts_ok(
                        msgs_view(out@),
                        self.spec_node_address(),
                        self.spec_known_nodes(),
                        self.spec_chain().blocks,
                        old_len,
                    ),
                decreases self.known_nodes.len() - t,
            {
                let target = &self.known_nodes[t];
                if !bytes_eq(target, &self.node_address) {
                    let ghost mv_before: Seq<(Seq<u8>, MessageV)> = msgs_view(out@);
                    out.push(
                        (
                            copy_bytes(target),
                            Message::Inv {
                                addr_from: copy_bytes(&self.node_address),
                                kind: InvKind::Blocks,
                                items: vec![copy_bytes(&block_hash)],
                            },
                        ),
                    );
                    proof {
                        let gt: int = t as int;
                        assert(crate::bytes::views_of(out@.last().1.arrow_Inv_items()@) =~= seq![
                            block_hash@,
                        ]) by {
                            assert(out@.last().1.arrow_Inv_items()@.len() == 1);
                        }
                        assert(block_hash@ == self.spec_chain().blocks[mi].hash);
                        assert(msgs_view(out@) =~= mv_before.push(
                            (
                                self.spec_known_nodes()[gt],
                                MessageV::Inv {
                                    addr_from: self.spec_node_address(),
                                    kind: InvKind::Blocks,
                                    items: seq![self.spec_chain().blocks[mi].hash],
                                },
                            ),
                        ));
                        assert(contains_addr(
                            self.spec_known_nodes(),
                            self.spec_known_nodes()[gt],
                        ));
                    }
                }
                t = t + 1;
            }
        }
        Ok(out)
    }
}

} // verus!