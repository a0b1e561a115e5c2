//! The UTXO transaction model: inputs spending prior outputs, outputs
//! locked to a public key hash, a deterministic binary encoding, the
//! SHA-256 identity over that encoding, and ECDSA signing and
//! verification over per-input trimmed copies.

use vstd::prelude::*;
use vstd::pervasive::VecAdditionalExecFns;
use crate::bytes::be8;
use crate::bytes::copy_bytes;
use crate::bytes::push_be8;
use crate::bytes::push_bytes;
use crate::crypto::hash_pub_key;
use crate::crypto::hash_pub_key_of;
use crate::crypto::sha256;
use crate::crypto::sha256_of;
use crate::wallet::address_to_pkh;
use crate::wallet::pkh_of_payload;
use crate::crypto::base58_of;
use crate::crypto::ecdsa_p256_sig_ok;
use crate::ChainError;

verus! {

/// The block reward paid by a coinbase transaction.
pub const SUBSIDY: i64 = 10;

/// The mathematical content of a transaction input.
#[verifier::ext_equal]
pub struct TxInV {
    /// The id of the transaction whose output is spent.
    pub txid: Seq<u8>,
    /// The index of that output, or -1 in a coinbase.
    pub vout: i64,
    /// The fixed-form ECDSA signature over the signing payload.
    pub signature: Seq<u8>,
    /// The spender's raw public key, or arbitrary data in a coinbase.
    pub pub_key: Seq<u8>,
}

/// The mathematical content of a transaction output.
#[verifier::ext_equal]
pub struct TxOutV {
    /// The amount carried by the output.
    pub value: i64,
    /// The hash of the public key the output is locked to.
    pub pub_key_hash: Seq<u8>,
}

/// The mathematical content of a transaction.
#[verifier::ext_equal]
pub struct TxV {
    /// The SHA-256 of the encoding of the transaction with empty id.
    pub id: Seq<u8>,
    /// The inputs, in order.
    pub vin: Seq<TxInV>,
    /// The outputs, in order.
    pub vout: Seq<TxOutV>,
}

/// An input of a transaction: a reference to a prior output together
/// with the signature and public key that unlock it.
pub struct TXInput {
    txid: Vec<u8>,
    vout: i64,
    signature: Vec<u8>,
    pub_key: Vec<u8>,
}

/// An output of a transaction: an amount locked to a public key hash.
pub struct TXOutput {
    value: i64,
    pub_key_hash: Vec<u8>,
}

/// A transaction: an id over its own encoding, inputs and outputs.
pub struct Transaction {
    id: Vec<u8>,
    vin: Vec<TXInput>,
    vout: Vec<TXOutput>,
}

impl View for TXInput {
    type V = TxInV;

    closed spec fn view(&self) -> TxInV {
        TxInV {
            txid: self.txid@,
            vout: self.vout,
            signature: self.signature@,
            pub_key: self.pub_key@,
        }
    }
}

impl View for TXOutput {
    type V = TxOutV;

    closed spec fn view(&self) -> TxOutV {
        TxOutV { value: self.value, pub_key_hash: self.pub_key_hash@ }
    }
}

/// The views of a sequence of inputs.
pub open spec fn ins_view(s: Seq<TXInput>) -> Seq<TxInV> {
    s.map_values(|x: TXInput| x@)
}

/// The views of a sequence of outputs.
pub open spec fn outs_view(s: Seq<TXOutput>) -> Seq<TxOutV> {
    s.map_values(|x: TXOutput| x@)
}

/// The views of a sequence of transactions.
pub open spec fn txs_view(s: Seq<Transaction>) -> Seq<TxV> {
    s.map_values(|x: Transaction| x@)
}

impl View for Transaction {
    type V = TxV;

    closed spec fn view(&self) -> TxV {
        TxV { id: self.id@, vin: ins_view(self.vin@), vout: outs_view(self.vout@) }
    }
}

/// A byte string prefixed by its length: the unit of the encoding.
pub open spec fn enc_bytes(s: Seq<u8>) -> Seq<u8> {
    be8(s.len() as u64) + s
}

/// The encoding of one input.
pub open spec fn enc_txin(i: TxInV) -> Seq<u8> {
    enc_bytes(i.txid) + be8(i.vout as u64) + enc_bytes(i.signature) + enc_bytes(i.pub_key)
}

/// The encoding of a sequence of inputs, in order.
pub open spec fn enc_txins(s: Seq<TxInV>) -> Seq<u8>
    decreases s.len(),
{
    if s.len() == 0 {
        Seq::empty()
    } else {
        enc_txins(s.drop_last()) + enc_txin(s.last())
    }
}

/// The encoding of one output.
pub open spec fn enc_txout(o: TxOutV) -> Seq<u8> {
    be8(o.value as u64) + enc_bytes(o.pub_key_hash)
}

/// The encoding of a sequence of outputs, in order.
pub open spec fn enc_txouts(s: Seq<TxOutV>) -> Seq<u8>
    decreases s.len(),
{
    if s.len() == 0 {
        Seq::empty()
    } else {
        enc_txouts(s.drop_last()) + enc_txout(s.last())
    }
}

/// The deterministic binary encoding of a transaction: the id, then
/// the counted inputs, then the counted outputs.
pub open spec fn tx_enc(t: TxV) -> Seq<u8> {
    enc_bytes(t.id) + be8(t.vin.len() as u64) + enc_txins(t.vin) + be8(t.vout.len() as u64)
        + enc_txouts(t.vout)
}

/// The hash of a transaction: the SHA-256 of its encoding.
pub open spec fn tx_hash(t: TxV) -> Seq<u8> {
    sha256_of(tx_enc(t))
}

/// Whether a transaction has the coinbase shape: a single input that
/// references nothing.
pub open spec fn spec_is_coinbase(t: TxV) -> bool {
    t.vin.len() == 1 && t.vin[0].txid.len() == 0 && t.vin[0].vout == -1
}

/// The transaction with every input's signature and public key
/// cleared: the base of each signing payload.
pub open spec fn trimmed(t: TxV) -> TxV {
    TxV {
        id: t.id,
        vin: t.vin.map_values(
            |i: TxInV| TxInV {
                txid: i.txid,
                vout: i.vout,
                signature: Seq::empty(),
                pub_key: Seq::empty(),
            },
        ),
        vout: t.vout,
    }
}

/// Encodes a transaction.
#[verifier::rlimit(50)]
pub fn serialize_transaction(tx: &Transaction) -> (r: Vec<u8>)
    ensures
        r@ == tx_enc(tx@),
{
    let mut out: Vec<u8> = Vec::new();
    push_be8(&mut out, tx.id.len() as u64);
    push_bytes(&mut out, &tx.id);
    push_be8(&mut out, tx.vin.len() as u64);
    let ghost head: Seq<u8> = enc_bytes(tx@.id) + be8(tx@.vin.len() as u64);
    proof {
        assert(out@ =~= head);
        assert(tx@.vin.take(0) =~= Seq::<TxInV>::empty());
    }
    let mut i: usize = 0;
    while i < tx.vin.len()
        invariant
            i <= tx.vin.len(),
            tx@.vin.len() == tx.vin.len(),
            out@ == head + enc_txins(tx@.vin.take(i as int)),
        decreases tx.vin.len() - i,
    {
        let vin = &tx.vin[i];
        push_be8(&mut out, vin.txid.len() as u64);
        push_bytes(&mut out, &vin.txid);
        push_be8(&mut out, #[verifier::truncate] (vin.vout as u64));
        push_be8(&mut out, vin.signature.len() as u64);
        push_bytes(&mut out, &vin.signature);
        push_be8(&mut out, vin.pub_key.len() as u64);
        push_bytes(&mut out, &vin.pub_key);
        proof {
            assert(tx@.vin.take(i + 1).drop_last() =~= tx@.vin.take(i as int));
            assert(tx@.vin.take(i + 1).last() == tx@.vin[i as int]);
            assert(tx@.vin[i as int] == vin@);
            assert(out@ =~= head + (enc_txins(tx@.vin.take(i as int)) + enc_txin(vin@)));
        }
        i = i + 1;
    }
    proof {
        assert(tx@.vin.take(tx@.vin.len() as int) =~= tx@.vin);
    }
    push_be8(&mut out, tx.vout.len() as u64);
    let ghost mid: Seq<u8> = head + enc_txins(tx@.vin) + be8(tx@.vout.len() as u64);
    proof {
        assert(out@ =~= mid);
        assert(tx@.vout.take(0) =~= Seq::<TxOutV>::empty());
    }
    let mut j: usize = 0;
    while j < tx.vout.len()
        invariant
            j <= tx.vout.len(),
            tx@.vout.len() == tx.vout.len(),
            out@ == mid + enc_txouts(tx@.vout.take(j as int)),
        decreases tx.vout.len() - j,
    {
        let vout = &tx.vout[j];
        push_be8(&mut out, #[verifier::truncate] (vout.value as u64));
        push_be8(&mut out, vout.pub_key_hash.len() as u64);
        push_bytes(&mut out, &vout.pub_key_hash);
        proof {
            assert(tx@.vout.take(j + 1).drop_last() =~= tx@.vout.take(j as int));
            assert(tx@.vout.take(j + 1).last() == tx@.vout[j as int]);
            assert(tx@.vout[j as int] == vout@);
            assert(out@ =~= mid + (enc_txouts(tx@.vout.take(j as int)) + enc_txout(vout@)));
        }
        j = j + 1;
    }
    proof {
        assert(tx@.vout.take(tx@.vout.len() as int) =~= tx@.vout);
        assert(out@ =~= tx_enc(tx@));
    }
    out
}

impl TXOutput {
    /// Locks an output to the public key hash held in an address.
    /// Fails when the address does not decode to a long-enough
    /// payload.
    pub fn lock(&mut self, address: &Vec<u8>) -> (r: bool)
        ensures
            final(self)@.value == old(self)@.value,
            r ==> exists|p: Seq<u8>|
                base58_of(p) == address@ && p.len() >= 5
                    && final(self)@.pub_key_hash == pkh_of_payload(p),
            !r ==> *final(self) == *old(self),
            !r ==> forall|p: Seq<u8>| base58_of(p) == address@ ==> p.len() < 5,
    {
        match address_to_pkh(address) {
            Some(pkh) => {
                self.pub_key_hash = pkh;
                true
            },
            None => false,
        }
    }

    /// Whether the output is locked to the given public key hash.
    pub fn is_locked_with_key(&self, pub_key_hash: &Vec<u8>) -> (r: bool)
        ensures
            r == (self@.pub_key_hash == pub_key_hash@),
    {
        crate::bytes::bytes_eq(&self.pub_key_hash, pub_key_hash)
    }

    /// The amount carried by the output.
    pub fn get_value(&self) -> (r: i64)
        ensures
            r == self@.value,
    {
        self.value
    }

    /// Builds an output paying `value` to the holder of `address`.
    /// Fails when the address does not decode to a long-enough
    /// payload.
    pub fn new_tx_output(value: i64, address: &Vec<u8>) -> (r: Option<TXOutput>)
        ensures
            r matches Some(o) ==> o@.value == value && exists|p: Seq<u8>|
                base58_of(p) == address@ && p.len() >= 5 && o@.pub_key_hash == pkh_of_payload(p),
            r is None ==> forall|p: Seq<u8>| base58_of(p) == address@ ==> p.len() < 5,
    {
        let mut tx_output = TXOutput { value, pub_key_hash: Vec::new() };
        if tx_output.lock(address) {
            Some(tx_output)
        } else {
            None
        }
    }

    /// The hash of the public key the output is locked to.
    pub fn get_pub_key_hash(&self) -> (r: Vec<u8>)
        ensures
            r@ == self@.pub_key_hash,
    {
        copy_bytes(&self.pub_key_hash)
    }

    /// Builds an output from its parts.
    pub fn from_parts(value: i64, pub_key_hash: Vec<u8>) -> (r: TXOutput)
        ensures
            r@.value == value,
            r@.pub_key_hash == pub_key_hash@,
    {
        TXOutput { value, pub_key_hash }
    }

    /// An output equal to this one.
    pub fn duplicate(&self) -> (r: TXOutput)
        ensures
            r@ == self@,
    {
        TXOutput { value: self.value, pub_key_hash: copy_bytes(&self.pub_key_hash) }
    }
}

impl TXInput {
    /// Whether the input's public key hashes to the given key hash:
    /// the key that unlocks the referenced output.
    pub fn uses_key(&self, pub_key_hash: &Vec<u8>) -> (r: bool)
        ensures
            r == (hash_pub_key_of(self@.pub_key) == pub_key_hash@),
    {
        let locking_hash = hash_pub_key(&self.pub_key);
        crate::bytes::bytes_eq(&locking_hash, pub_key_hash)
    }

    /// The id of the transaction whose output this input spends.
    pub fn get_txid(&self) -> (r: Vec<u8>)
        ensures
            r@ == self@.txid,
    {
        copy_bytes(&self.txid)
    }

    /// The index of the spent output in the referenced transaction.
    pub fn get_vout(&self) -> (r: i64)
        ensures
            r == self@.vout,
    {
        self.vout
    }

    /// The input's signature bytes.
    pub fn get_signature(&self) -> (r: Vec<u8>)
        ensures
            r@ == self@.signature,
    {
        copy_bytes(&self.signature)
    }

    /// The spender's raw public key.
    pub fn get_pub_key(&self) -> (r: Vec<u8>)
        ensures
            r@ == self@.pub_key,
    {
        copy_bytes(&self.pub_key)
    }

    /// Builds an input from its parts.
    pub fn from_parts(txid: Vec<u8>, vout: i64, signature: Vec<u8>, pub_key: Vec<u8>) -> (r:
        TXInput)
        ensures
            r@.txid == txid@,
            r@.vout == vout,
            r@.signature == signature@,
            r@.pub_key == pub_key@,
    {
        TXInput { txid, vout, signature, pub_key }
    }

    /// An input equal to this one.
    pub fn duplicate(&self) -> (r: TXInput)
        ensures
            r@ == self@,
    {
        TXInput {
            txid: copy_bytes(&self.txid),
            vout: self.vout,
            signature: copy_bytes(&self.signature),
            pub_key: copy_bytes(&self.pub_key),
        }
    }
}

/// Copies a vector of inputs.
pub fn copy_inputs(v: &Vec<TXInput>) -> (r: Vec<TXInput>)
    ensures
        ins_view(r@) == ins_view(v@),
        r@.len() == v@.len(),
{
    let mut r: Vec<TXInput> = Vec::new();
    let mut i: usize = 0;
    while i < v.len()
        invariant
            i <= v.len(),
            r@.len() == i,
            forall|j: int| 0 <= j < i ==> r@[j]@ == v@[j]@,
        decreases v.len() - i,
    {
        r.push(v[i].duplicate());
        i = i + 1;
    }
    proof {
        assert(ins_view(r@) =~= ins_view(v@));
    }
    r
}

/// Copies a vector of outputs.
pub fn copy_outputs(v: &Vec<TXOutput>) -> (r: Vec<TXOutput>)
    ensures
        outs_view(r@) == outs_view(v@),
        r@.len() == v@.len(),
{
    let mut r: Vec<TXOutput> = Vec::new();
    let mut i: usize = 0;
    while i < v.len()
        invariant
            i <= v.len(),
            r@.len() == i,
            forall|j: int| 0 <= j < i ==> r@[j]@ == v@[j]@,
        decreases v.len() - i,
    {
        r.push(v[i].duplicate());
        i = i + 1;
    }
    proof {
        assert(outs_view(r@) =~= outs_view(v@));
    }
    r
}

impl Transaction {
    /// The SHA-256 of the transaction's encoding.
    pub fn hash(&self) -> (r: Vec<u8>)
        ensures
            r@ == tx_hash(self@),
            r@.len() == 32,
    {
        let encoded = serialize_transaction(self);
        sha256(&encoded)
    }

    /// Whether the transaction is a coinbase: one input that
    /// references no prior output.
    pub fn is_coinbase(&self) -> (r: bool)
        ensures
            r == spec_is_coinbase(self@),
    {
        self.vin.len() == 1 && self.vin[0].txid.len() == 0 && self.vin[0].get_vout() == -1
    }

    /// A copy with every input's signature and public key cleared,
    /// the shape both signing and verification hash.
    pub fn trimmed_copy(&self) -> (r: Transaction)
        ensures
            r@ == trimmed(self@),
    {
        let mut inputs: Vec<TXInput> = Vec::new();
        let mut i: usize = 0;
        while i < self.vin.len()
            invariant
                i <= self.vin.len(),
                inputs@.len() == i,
                forall|j: int| 0 <= j < i ==> inputs@[j]@ == trimmed(self@).vin[j],
                self@.vin.len() == self.vin.len(),
            decreases self.vin.len() - i,
        {
            let vin = &self.vin[i];
            inputs.push(
                TXInput {
                    txid: copy_bytes(&vin.txid),
                    vout: vin.vout,
                    signature: Vec::new(),
                    pub_key: Vec::new(),
                },
            );
            i = i + 1;
        }
        let outputs = copy_outputs(&self.vout);
        let r = Transaction { id: copy_bytes(&self.id), vin: inputs, vout: outputs };
        proof {
            assert(ins_view(r.vin@) =~= trimmed(self@).vin);
            assert(r@ =~= trimmed(self@));
        }
        r
    }

    /// A borrow of the transaction's id.
    pub fn get_id_ref(&self) -> (r: &Vec<u8>)
        ensures
            r@ == self@.id,
    {
        &self.id
    }

    /// The transaction's id.
    pub fn get_id(&self) -> (r: Vec<u8>)
        ensures
            r@ == self@.id,
    {
        copy_bytes(&self.id)
    }

    /// The outputs, in order.
    pub fn get_vout(&self) -> (r: Vec<TXOutput>)
        ensures
            outs_view(r@) == self@.vout,
            r@.len() == self@.vout.len(),
    {
        copy_outputs(&self.vout)
    }

    /// The inputs, in order.
    pub fn get_vin(&self) -> (r: Vec<TXInput>)
        ensures
            ins_view(r@) == self@.vin,
            r@.len() == self@.vin.len(),
    {
        copy_inputs(&self.vin)
    }

    /// Builds a transaction from its parts; nothing is checked here,
    /// verification checks the signatures.
    pub fn from_parts(id: Vec<u8>, vin: Vec<TXInput>, vout: Vec<TXOutput>) -> (r: Transaction)
        ensures
            r@ == (TxV { id: id@, vin: ins_view(vin@), vout: outs_view(vout@) }),
    {
        Transaction { id, vin, vout }
    }

    /// A transaction equal to this one.
    pub fn duplicate(&self) -> (r: Transaction)
        ensures
            r@ == self@,
    {
        let r = Transaction {
            id: copy_bytes(&self.id),
            vin: copy_inputs(&self.vin),
            vout: copy_outputs(&self.vout),
        };
        proof {
            assert(r@ =~= self@);
        }
        r
    }
}

/// The data a coinbase input carries when none is given: the text
/// `Reward to '<address>'`.
pub open spec fn default_coinbase_data(to: Seq<u8>) -> Seq<u8> {
    seq![82u8, 101u8, 119u8, 97u8, 114u8, 100u8, 32u8, 116u8, 111u8, 32u8, 39u8] + to + seq![39u8]
}

/// The coinbase transaction paying the block reward to `pkh`, with
/// `data` as the input's filler, and the id over the empty-id body.
pub open spec fn coinbase_shape(pkh: Seq<u8>, data: Seq<u8>) -> TxV {
    let vin = seq![
        TxInV { txid: Seq::empty(), vout: -1i64, signature: Seq::empty(), pub_key: data },
    ];
    let vout = seq![TxOutV { value: SUBSIDY, pub_key_hash: pkh }];
    let body = TxV { id: Seq::empty(), vin, vout };
    TxV { id: tx_hash(body), vin, vout }
}

/// Builds the coinbase transaction paying the block reward to the
/// holder of `to`. Empty `data` stands for the default reward text.
/// Fails when the address does not decode.
pub fn new_coinbase_tx(to: &Vec<u8>, data: Vec<u8>) -> (r: Option<Transaction>)
    ensures
        r matches Some(tx) ==> exists|p: Seq<u8>|
            base58_of(p) == to@ && p.len() >= 5 && tx@ == coinbase_shape(
                pkh_of_payload(p),
                if data@.len() == 0 {
                    default_coinbase_data(to@)
                } else {
                    data@
                },
            ),
        r matches Some(tx) ==> spec_is_coinbase(tx@),
        r is None ==> forall|p: Seq<u8>| base58_of(p) == to@ ==> p.len() < 5,
{
    let filler: Vec<u8> = if data.len() == 0 {
        let mut d: Vec<u8> = Vec::new();
        d.push(82u8);
        d.push(101u8);
        d.push(119u8);
        d.push(97u8);
        d.push(114u8);
        d.push(100u8);
        d.push(32u8);
        d.push(116u8);
        d.push(111u8);
        d.push(32u8);
        d.push(39u8);
        push_bytes(&mut d, to);
        d.push(39u8);
        proof {
            assert(d@ =~= default_coinbase_data(to@));
        }
        d
    } else {
        data
    };
    let txout = match TXOutput::new_tx_output(SUBSIDY, to) {
        Some(o) => o,
        None => {
            return None;
        },
    };
    let txin = TXInput { txid: Vec::new(), vout: -1, signature: Vec::new(), pub_key: filler };
    let mut tx = Transaction { id: Vec::new(), vin: vec![txin], vout: vec![txout] };
    let id = tx.hash();
    tx.id = id;
    proof {
        let p = choose|p: Seq<u8>|
            base58_of(p) == to@ && p.len() >= 5 && txout@.pub_key_hash == pkh_of_payload(p);
        let d = if data@.len() == 0 {
            default_coinbase_data(to@)
        } else {
            data@
        };
        let shape = coinbase_shape(pkh_of_payload(p), d);
        assert(ins_view(tx.vin@) =~= shape.vin);
        assert(outs_view(tx.vout@) =~= shape.vout);
        assert(TxV { id: Seq::<u8>::empty(), vin: ins_view(tx.vin@), vout: outs_view(tx.vout@) }
            =~= TxV { id: Seq::<u8>::empty(), vin: shape.vin, vout: shape.vout });
        assert(tx@ =~= shape);
    }
    Some(tx)
}

} // verus!

verus! {

/// The first transaction in `txs` whose id is `id`.
pub open spec fn find_tx(txs: Seq<TxV>, id: Seq<u8>) -> Option<TxV>
    decreases txs.len(),
{
    if txs.len() == 0 {
        None
    } else if txs[0].id == id {
        Some(txs[0])
    } else {
        find_tx(txs.skip(1), id)
    }
}

/// Whether input `i` of `t` references an output that `prevs` holds.
pub open spec fn input_resolvable(t: TxV, prevs: Seq<TxV>, i: int) -> bool {
    &&& find_tx(prevs, t.vin[i].txid) is Some
    &&& 0 <= t.vin[i].vout
    &&& t.vin[i].vout < find_tx(prevs, t.vin[i].txid).unwrap().vout.len()
}

/// Whether every input of `t` references an output that `prevs`
/// holds.
pub open spec fn resolvable(t: TxV, prevs: Seq<TxV>) -> bool {
    forall|i: int| 0 <= i < t.vin.len() ==> input_resolvable(t, prevs, i)
}

/// The public key hash of the output spent by input `i` of `t`.
pub open spec fn prev_pkh(t: TxV, prevs: Seq<TxV>, i: int) -> Seq<u8> {
    find_tx(prevs, t.vin[i].txid).unwrap().vout[t.vin[i].vout as int].pub_key_hash
}

/// The rolling trimmed copy after the first `i` inputs were stamped:
/// each step writes the spent output's key hash into one input,
/// rewrites the id as the hash of that shape, and clears the key
/// again, exactly as signing and verification both do.
pub open spec fn copy_after(t: TxV, prevs: Seq<TxV>, i: int) -> TxV
    decreases i,
{
    if i <= 0 {
        trimmed(t)
    } else {
        let c = copy_after(t, prevs, i - 1);
        let stamped = TxV {
            id: c.id,
            vin: c.vin.update(
                i - 1,
                TxInV {
                    txid: c.vin[i - 1].txid,
                    vout: c.vin[i - 1].vout,
                    signature: Seq::empty(),
                    pub_key: prev_pkh(t, prevs, i - 1),
                },
            ),
            vout: c.vout,
        };
        TxV { id: tx_hash(stamped), vin: c.vin, vout: c.vout }
    }
}

/// The rolling copy changes only the id: its inputs stay the trimmed
/// inputs and its outputs stay the transaction's outputs.
pub proof fn lemma_copy_after_shape(t: TxV, prevs: Seq<TxV>, i: int)
    ensures
        copy_after(t, prevs, i).vin == trimmed(t).vin,
        copy_after(t, prevs, i).vout == t.vout,
        copy_after(t, prevs, i).vin.len() == t.vin.len(),
        forall|j: int| 0 <= j < t.vin.len() ==> copy_after(t, prevs, i).vin[j].txid
            == t.vin[j].txid && copy_after(t, prevs, i).vin[j].vout == t.vin[j].vout
            && copy_after(t, prevs, i).vin[j].signature == Seq::<u8>::empty()
            && copy_after(t, prevs, i).vin[j].pub_key == Seq::<u8>::empty(),
    decreases i,
{
    if i > 0 {
        lemma_copy_after_shape(t, prevs, i - 1);
    }
}

/// The bytes that input `i` of `t` signs.
pub open spec fn signing_payload(t: TxV, prevs: Seq<TxV>, i: int) -> Seq<u8> {
    tx_enc(copy_after(t, prevs, i + 1))
}

/// Whether the signature of input `i` of `t` verifies under the
/// input's own public key, over the payload the signer hashed.
pub open spec fn input_sig_ok(t: TxV, prevs: Seq<TxV>, i: int) -> bool {
    ecdsa_p256_sig_ok(t.vin[i].pub_key, signing_payload(t, prevs, i), t.vin[i].signature)
}

/// Whether a transaction verifies against its prior transactions: a
/// coinbase always does, any other when every input's signature does.
pub open spec fn tx_verifies(t: TxV, prevs: Seq<TxV>) -> bool {
    spec_is_coinbase(t) || forall|i: int| 0 <= i < t.vin.len() ==> input_sig_ok(t, prevs, i)
}

/// Finds the first transaction with the given id.
pub fn find_transaction_in<'a>(txs: &'a Vec<Transaction>, id: &Vec<u8>) -> (r: Option<
    &'a Transaction,
>)
    ensures
        r matches Some(t) ==> find_tx(txs_view(txs@), id@) == Some(t@),
        r is None ==> find_tx(txs_view(txs@), id@) is None,
{
    let ghost whole: Seq<TxV> = txs_view(txs@);
    proof {
        assert(whole.skip(0) =~= whole);
    }
    let mut i: usize = 0;
    while i < txs.len()
        invariant
            i <= txs.len(),
            whole == txs_view(txs@),
            whole.len() == txs.len(),
            find_tx(whole, id@) == find_tx(whole.skip(i as int), id@),
        decreases txs.len() - i,
    {
        if crate::bytes::bytes_eq(&txs[i].id, id) {
            proof {
                assert(whole.skip(i as int)[0] == whole[i as int]);
            }
            return Some(&txs[i]);
        }
        proof {
            assert(whole.skip(i as int)[0] == whole[i as int]);
            assert(whole.skip(i as int).skip(1) =~= whole.skip(i + 1));
        }
        i = i + 1;
    }
    proof {
        assert(whole.skip(txs.len() as int).len() == 0);
    }
    None
}

impl Transaction {
    /// Verifies every input's signature the way the signer built it:
    /// stamp the rolling trimmed copy with the spent output's key
    /// hash, rehash, clear, and check the input's signature over the
    /// resulting bytes. A coinbase verifies by itself. Fails with
    /// `InputUnknown` when an input references a transaction or
    /// output index that `prev_txs` does not hold.
    pub fn verify(&self, prev_txs: &Vec<Transaction>) -> (r: Result<bool, ChainError>)
        ensures
            spec_is_coinbase(self@) ==> r == Ok::<bool, ChainError>(true),
            r is Err ==> !resolvable(self@, txs_view(prev_txs@)),
            resolvable(self@, txs_view(prev_txs@)) ==> r is Ok,
            r matches Ok(b) ==> b == tx_verifies(self@, txs_view(prev_txs@)),
            r matches Err(e) ==> e == ChainError::InputUnknown,
    {
        if self.is_coinbase() {
            return Ok(true);
        }
        let ghost t: TxV = self@;
        let ghost prevs: Seq<TxV> = txs_view(prev_txs@);
        let mut copy_tx = self.trimmed_copy();
        proof {
            assert(copy_tx@.vin == ins_view(copy_tx.vin@));
            assert(ins_view(copy_tx.vin@).len() == copy_tx.vin@.len());
            assert(trimmed(t).vin.len() == t.vin.len());
            assert(t.vin.len() == ins_view(self.vin@).len());
        }
        let mut i: usize = 0;
        while i < self.vin.len()
            invariant
                i <= self.vin.len(),
                t == self@,
                prevs == txs_view(prev_txs@),
                !spec_is_coinbase(t),
                t.vin.len() == self.vin.len(),
                copy_tx@ == copy_after(t, prevs, i as int),
                copy_tx.vin@.len() == self.vin.len(),
                forall|j: int| 0 <= j < i ==> input_resolvable(t, prevs, j),
                forall|j: int| 0 <= j < i ==> input_sig_ok(t, prevs, j),
            decreases self.vin.len() - i,
        {
            let vin = &self.vin[i];
            let prev = match find_transaction_in(prev_txs, &vin.txid) {
                Some(p) => p,
                None => {
                    proof {
                        assert(!input_resolvable(t, prevs, i as int));
                    }
                    return Err(ChainError::InputUnknown);
                },
            };
            if vin.vout < 0 || (vin.vout as u64) >= (prev.vout.len() as u64) {
                proof {
                    assert(!input_resolvable(t, prevs, i as int));
                }
                return Err(ChainError::InputUnknown);
            }
            let idx: usize = vin.vout as usize;
            let pkh = copy_bytes(&prev.vout[idx].pub_key_hash);
            proof {
                assert(prev@.vout[vin@.vout as int] == prev.vout@[idx as int]@);
                assert(pkh@ == prev_pkh(t, prevs, i as int));
            }
            let mut stamped = Transaction {
                id: copy_bytes(&copy_tx.id),
                vin: copy_inputs(&copy_tx.vin),
                vout: copy_outputs(&copy_tx.vout),
            };
            stamped.vin.set(
                i,
                TXInput {
                    txid: copy_bytes(&vin.txid),
                    vout: vin.vout,
                    signature: Vec::new(),
                    pub_key: pkh,
                },
            );
            proof {
                lemma_copy_after_shape(t, prevs, i as int);
                let c = copy_after(t, prevs, i as int);
                let stamped_spec = TxV {
                    id: c.id,
                    vin: c.vin.update(
                        i as int,
                        TxInV {
                            txid: c.vin[i as int].txid,
                            vout: c.vin[i as int].vout,
                            signature: Seq::empty(),
                            pub_key: prev_pkh(t, prevs, i as int),
                        },
                    ),
                    vout: c.vout,
                };
                assert(c.vin[i as int].txid == t.vin[i as int].txid);
                assert(c.vin[i as int].vout == t.vin[i as int].vout);
                assert(ins_view(stamped.vin@) =~= stamped_spec.vin);
                assert(stamped@ =~= stamped_spec);
            }
            let new_id = stamped.hash();
            copy_tx.id = new_id;
            proof {
                assert(copy_tx@ =~= copy_after(t, prevs, i + 1));
            }
            let payload = serialize_transaction(&copy_tx);
            let ok = crate::crypto::ecdsa_sign_verify(&vin.pub_key, &payload, &vin.signature);
            if !ok {
                proof {
                    assert(!input_sig_ok(t, prevs, i as int));
                }
                return Ok(false);
            }
            i = i + 1;
        }
        Ok(true)
    }

    /// Signs every input: computes the same rolling payloads that
    /// verification recomputes and stores one signature per input.
    /// A coinbase is left as it is. Fails with `InputUnknown` when an
    /// input cannot be resolved and `KeyDecodeError` when the key is
    /// rejected; on failure the transaction is unchanged.
    pub fn sign(&mut self, private_key: &Vec<u8>, prev_txs: &Vec<Transaction>) -> (r: Result<
        (),
        ChainError,
    >)
        ensures
            spec_is_coinbase(old(self)@) ==> r == Ok::<(), ChainError>(()) && *final(self)
                == *old(self),
            r matches Err(e) ==> *final(self) == *old(self) && (e == ChainError::InputUnknown || e
                == ChainError::KeyDecodeError),
            r == Err::<(), ChainError>(ChainError::InputUnknown) ==> !resolvable(
                old(self)@,
                txs_view(prev_txs@),
            ),
            resolvable(old(self)@, txs_view(prev_txs@)) ==> r != Err::<(), ChainError>(
                ChainError::InputUnknown,
            ),
            r is Ok ==> final(self)@.id == old(self)@.id && final(self)@.vout == old(self)@.vout
                && final(self)@.vin.len() == old(self)@.vin.len(),
            r is Ok ==> forall|j: int|
                0 <= j < old(self)@.vin.len() ==> (#[trigger] final(self)@.vin[j]).txid
                    == old(self)@.vin[j].txid && final(self)@.vin[j].vout
                    == old(self)@.vin[j].vout && final(self)@.vin[j].pub_key
                    == old(self)@.vin[j].pub_key,
            r is Ok && !spec_is_coinbase(old(self)@) ==> forall|j: int|
                0 <= j < old(self)@.vin.len() ==> (#[trigger] final(self)@.vin[j]).signature.len()
                    == 64,
            r is Ok && !spec_is_coinbase(old(self)@) ==> forall|j: int|
                0 <= j < old(self)@.vin.len() ==> ecdsa_p256_sig_ok(
                    crate::crypto::p256_public_key_of(private_key@),
                    #[trigger] signing_payload(final(self)@, txs_view(prev_txs@), j),
                    final(self)@.vin[j].signature,
                ),
            r is Ok && !spec_is_coinbase(old(self)@) && (forall|j: int|
                0 <= j < old(self)@.vin.len() ==> (#[trigger] old(self)@.vin[j]).pub_key
                    == crate::crypto::p256_public_key_of(private_key@)) ==> tx_verifies(
                final(self)@,
                txs_view(prev_txs@),
            ),
    {
        if self.is_coinbase() {
            return Ok(());
        }
        let ghost t: TxV = self@;
        let ghost prevs: Seq<TxV> = txs_view(prev_txs@);
        let mut copy_tx = self.trimmed_copy();
        proof {
            assert(copy_tx@.vin == ins_view(copy_tx.vin@));
            assert(ins_view(copy_tx.vin@).len() == copy_tx.vin@.len());
            assert(trimmed(t).vin.len() == t.vin.len());
            assert(t.vin.len() == ins_view(self.vin@).len());
        }
        let mut sigs: Vec<Vec<u8>> = Vec::new();
        let mut i: usize = 0;
        while i < self.vin.len()
            invariant
                i <= self.vin.len(),
                t == self@,
                prevs == txs_view(prev_txs@),
                !spec_is_coinbase(t),
                t.vin.len() == self.vin.len(),
                copy_tx@ == copy_after(t, prevs, i as int),
                copy_tx.vin@.len() == self.vin.len(),
                sigs@.len() == i,
                forall|j: int| 0 <= j < i ==> input_resolvable(t, prevs, j),
                forall|j: int| 0 <= j < i ==> sigs@[j]@.len() == 64,
                forall|j: int| 0 <= j < i ==> ecdsa_p256_sig_ok(
                    crate::crypto::p256_public_key_of(private_key@),
                    tx_enc(copy_after(t, prevs, j + 1)),
                    #[trigger] sigs@[j]@,
                ),
            decreases self.vin.len() - i,
        {
            let vin = &self.vin[i];
            let prev = match find_transaction_in(prev_txs, &vin.txid) {
                Some(p) => p,
                None => {
                    proof {
                        assert(!input_resolvable(t, prevs, i as int));
                    }
                    return Err(ChainError::InputUnknown);
                },
            };
            if vin.vout < 0 || (vin.vout as u64) >= (prev.vout.len() as u64) {
                proof {
                    assert(!input_resolvable(t, prevs, i as int));
                }
                return Err(ChainError::InputUnknown);
            }
            let idx: usize = vin.vout as usize;
            let pkh = copy_bytes(&prev.vout[idx].pub_key_hash);
            proof {
                assert(prev@.vout[vin@.vout as int] == prev.vout@[idx as int]@);
                assert(pkh@ == prev_pkh(t, prevs, i as int));
            }
            let mut stamped = Transaction {
                id: copy_bytes(&copy_tx.id),
                vin: copy_inputs(&copy_tx.vin),
                vout: copy_outputs(&copy_tx.vout),
            };
            stamped.vin.set(
                i,
                TXInput {
                    txid: copy_bytes(&vin.txid),
                    vout: vin.vout,
                    signature: Vec::new(),
                    pub_key: pkh,
                },
            );
            proof {
                lemma_copy_after_shape(t, prevs, i as int);
                let c = copy_after(t, prevs, i as int);
                let stamped_spec = TxV {
                    id: c.id,
                    vin: c.vin.update(
                        i as int,
                        TxInV {
                            txid: c.vin[i as int].txid,
                            vout: c.vin[i as int].vout,
                            signature: Seq::empty(),
                            pub_key: prev_pkh(t, prevs, i as int),
                        },
                    ),
                    vout: c.vout,
                };
                assert(c.vin[i as int].txid == t.vin[i as int].txid);
                assert(c.vin[i as int].vout == t.vin[i as int].vout);
                assert(ins_view(stamped.vin@) =~= stamped_spec.vin);
                assert(stamped@ =~= stamped_spec);
            }
            let new_id = stamped.hash();
            copy_tx.id = new_id;
            proof {
                assert(copy_tx@ =~= copy_after(t, prevs, i + 1));
            }
            let payload = serialize_transaction(&copy_tx);
            let sig = match crate::crypto::ecdsa_sign(private_key, &payload) {
                Some(s) => s,
                None => {
                    return Err(ChainError::KeyDecodeError);
                },
            };
            sigs.push(sig);
            i = i + 1;
        }
        let mut k: usize = 0;
        while k < self.vin.len()
            invariant
                k <= self.vin.len(),
                sigs@.len() == self.vin.len(),
                self.vin@.len() == old(self).vin@.len(),
                self@.id == old(self)@.id,
                self@.vout == old(self)@.vout,
                self@.vin.len() == old(self)@.vin.len(),
                forall|j: int| 0 <= j < self.vin@.len() ==> self@.vin[j].txid
                    == old(self)@.vin[j].txid && self@.vin[j].vout == old(self)@.vin[j].vout
                    && self@.vin[j].pub_key == old(self)@.vin[j].pub_key,
                forall|j: int| 0 <= j < sigs@.len() ==> sigs@[j]@.len() == 64,
                t == old(self)@,
                prevs == txs_view(prev_txs@),
                !spec_is_coinbase(t),
                forall|j: int| 0 <= j < sigs@.len() ==> ecdsa_p256_sig_ok(
                    crate::crypto::p256_public_key_of(private_key@),
                    tx_enc(copy_after(t, prevs, j + 1)),
                    #[trigger] sigs@[j]@,
                ),
                forall|j: int| 0 <= j < k ==> self@.vin[j].signature == sigs@[j]@,
                forall|j: int| k <= j < self.vin@.len() ==> self@.vin[j].signature
                    == old(self)@.vin[j].signature,
            decreases self.vin.len() - k,
        {
            let replacement = TXInput {
                txid: copy_bytes(&self.vin[k].txid),
                vout: self.vin[k].vout,
                signature: copy_bytes(&sigs[k]),
                pub_key: copy_bytes(&self.vin[k].pub_key),
            };
            self.vin.set(k, replacement);
            k = k + 1;
        }
        proof {
            assert forall|j: int| 0 <= j < old(self)@.vin.len() implies self@.vin[j].signature.len()
                == 64 by {
                assert(self@.vin[j].signature == sigs@[j]@);
            }
            assert forall|j: int| 0 <= j < old(self)@.vin.len() implies ecdsa_p256_sig_ok(
                crate::crypto::p256_public_key_of(private_key@),
                #[trigger] signing_payload(self@, prevs, j),
                self@.vin[j].signature,
            ) by {
                lemma_copy_after_ignores_signatures(self@, t, prevs, j + 1);
                assert(self@.vin[j].signature == sigs@[j]@);
            }
            if forall|j: int|
                0 <= j < old(self)@.vin.len() ==> (#[trigger] old(self)@.vin[j]).pub_key
                    == crate::crypto::p256_public_key_of(private_key@) {
                assert forall|j: int| 0 <= j < self@.vin.len() implies input_sig_ok(
                    self@,
                    prevs,
                    j,
                ) by {
                    assert(self@.vin[j].pub_key == old(self)@.vin[j].pub_key);
                }
            }
        }
        Ok(())
    }
}

/// Signing then verifying succeeds: a non-coinbase transaction whose
/// every input carries the signer's public key and a signature valid
/// over its own signing payload verifies against the same prior
/// transactions the signer resolved.
pub proof fn lemma_sign_then_verify(t: TxV, prevs: Seq<TxV>, key_pub: Seq<u8>)
    requires
        !spec_is_coinbase(t),
        forall|i: int| 0 <= i < t.vin.len() ==> (#[trigger] t.vin[i]).pub_key == key_pub,
        forall|i: int| 0 <= i < t.vin.len() ==> ecdsa_p256_sig_ok(
            key_pub,
            signing_payload(t, prevs, i),
            (#[trigger] t.vin[i]).signature,
        ),
    ensures
        tx_verifies(t, prevs),
{
    assert forall|i: int| 0 <= i < t.vin.len() implies input_sig_ok(t, prevs, i) by {}
}

/// The signing payload of an input does not depend on any signature
/// held by the transaction: two transactions that agree on id,
/// outputs, and every input's reference agree on every payload.
pub proof fn lemma_payload_ignores_signatures(t1: TxV, t2: TxV, prevs: Seq<TxV>, i: int)
    requires
        t1.id == t2.id,
        t1.vout == t2.vout,
        t1.vin.len() == t2.vin.len(),
        forall|j: int| 0 <= j < t1.vin.len() ==> t1.vin[j].txid == t2.vin[j].txid
            && t1.vin[j].vout == t2.vin[j].vout,
        0 <= i < t1.vin.len(),
    ensures
        signing_payload(t1, prevs, i) == signing_payload(t2, prevs, i),
{
    lemma_copy_after_ignores_signatures(t1, t2, prevs, i + 1);
}

/// The rolling trimmed copy depends only on the id, the outputs and
/// each input's reference.
proof fn lemma_copy_after_ignores_signatures(t1: TxV, t2: TxV, prevs: Seq<TxV>, i: int)
    requires
        t1.id == t2.id,
        t1.vout == t2.vout,
        t1.vin.len() == t2.vin.len(),
        forall|j: int| 0 <= j < t1.vin.len() ==> t1.vin[j].txid == t2.vin[j].txid
            && t1.vin[j].vout == t2.vin[j].vout,
        i <= t1.vin.len(),
    ensures
        copy_after(t1, prevs, i) == copy_after(t2, prevs, i),
    decreases i,
{
    if i <= 0 {
        assert(trimmed(t1).vin =~= trimmed(t2).vin);
        assert(trimmed(t1) =~= trimmed(t2));
    } else {
        lemma_copy_after_ignores_signatures(t1, t2, prevs, i - 1);
        assert(t1.vin[i - 1].txid == t2.vin[i - 1].txid);
        assert(t1.vin[i - 1].vout == t2.vin[i - 1].vout);
        assert(prev_pkh(t1, prevs, i - 1) == prev_pkh(t2, prevs, i - 1));
        assert(copy_after(t1, prevs, i) =~= copy_after(t2, prevs, i));
    }
}

} // verus!

verus! {

/// Finding an id in an extended list finds what it found before, or
/// the appended transaction when its id matches and nothing did.
pub proof fn lemma_find_tx_push(txs: Seq<TxV>, t: TxV, id: Seq<u8>)
    ensures
        find_tx(txs.push(t), id) == (if find_tx(txs, id) is Some {
            find_tx(txs, id)
        } else if t.id == id {
            Some(t)
        } else {
            None::<TxV>
        }),
    decreases txs.len(),
{
    if txs.len() == 0 {
        assert(txs.push(t)[0] == t);
        assert(txs.push(t).skip(1) =~= Seq::<TxV>::empty());
        if t.id == id {
            assert(find_tx(txs.push(t), id) == Some(t));
        } else {
            assert(find_tx(txs.push(t).skip(1), id) is None);
            assert(find_tx(txs.push(t), id) is None);
        }
    } else {
        assert(txs.push(t)[0] == txs[0]);
        assert(txs.push(t).skip(1) =~= txs.skip(1).push(t));
        lemma_find_tx_push(txs.skip(1), t, id);
    }
}

/// A found transaction carries the id it was found under.
pub proof fn lemma_find_tx_id(txs: Seq<TxV>, id: Seq<u8>)
    requires
        find_tx(txs, id) is Some,
    ensures
        find_tx(txs, id).unwrap().id == id,
    decreases txs.len(),
{
    if txs.len() > 0 && txs[0].id != id {
        lemma_find_tx_id(txs.skip(1), id);
    }
}

/// Finding an id in a concatenation searches the front first.
pub proof fn lemma_find_tx_concat(a: Seq<TxV>, b: Seq<TxV>, id: Seq<u8>)
    ensures
        find_tx(a + b, id) == (if find_tx(a, id) is Some {
            find_tx(a, id)
        } else {
            find_tx(b, id)
        }),
    decreases a.len(),
{
    if a.len() == 0 {
        assert(a + b =~= b);
    } else {
        assert((a + b)[0] == a[0]);
        assert((a + b).skip(1) =~= a.skip(1) + b);
        lemma_find_tx_concat(a.skip(1), b, id);
    }
}

/// Two lists of prior transactions that resolve every input of `t` to
/// the same transaction validate `t` alike.
pub proof fn lemma_verify_same_prevs(t: TxV, p1: Seq<TxV>, p2: Seq<TxV>)
    requires
        forall|j: int| 0 <= j < t.vin.len() ==> find_tx(p1, #[trigger] t.vin[j].txid) == find_tx(
            p2,
            t.vin[j].txid,
        ),
    ensures
        tx_verifies(t, p1) == tx_verifies(t, p2),
        resolvable(t, p1) == resolvable(t, p2),
{
    assert forall|i: int| 0 <= i < t.vin.len() implies input_sig_ok(t, p1, i) == input_sig_ok(
        t,
        p2,
        i,
    ) by {
        lemma_copy_after_same_prevs(t, p1, p2, i + 1);
    }
    assert forall|i: int| 0 <= i < t.vin.len() implies input_resolvable(t, p1, i)
        == input_resolvable(t, p2, i) by {}
    if resolvable(t, p1) {
        assert(resolvable(t, p2));
    }
    if resolvable(t, p2) {
        assert(resolvable(t, p1));
    }
    if tx_verifies(t, p1) {
        assert(tx_verifies(t, p2));
    }
    if tx_verifies(t, p2) {
        assert(tx_verifies(t, p1));
    }
}

/// The rolling trimmed copy agrees between two lists of prior
/// transactions that resolve every input alike.
proof fn lemma_copy_after_same_prevs(t: TxV, p1: Seq<TxV>, p2: Seq<TxV>, i: int)
    requires
        forall|j: int| 0 <= j < t.vin.len() ==> find_tx(p1, #[trigger] t.vin[j].txid) == find_tx(
            p2,
            t.vin[j].txid,
        ),
        i <= t.vin.len(),
    ensures
        copy_after(t, p1, i) == copy_after(t, p2, i),
    decreases i,
{
    if i > 0 {
        lemma_copy_after_same_prevs(t, p1, p2, i - 1);
        assert(find_tx(p1, t.vin[i - 1].txid) == find_tx(p2, t.vin[i - 1].txid));
        assert(prev_pkh(t, p1, i - 1) == prev_pkh(t, p2, i - 1));
        assert(copy_after(t, p1, i) =~= copy_after(t, p2, i));
    }
}

} // verus!

verus! {

/// The unsigned inputs spending the selected positions of one entry.
pub open spec fn entry_inputs(p: (Seq<u8>, Seq<int>), pk: Seq<u8>) -> Seq<TxInV> {
    p.1.map_values(
        |i: int| TxInV { txid: p.0, vout: i as i64, signature: Seq::empty(), pub_key: pk },
    )
}

/// The unsigned inputs spending a whole selection, in order.
pub open spec fn sel_inputs(sel: Seq<(Seq<u8>, Seq<int>)>, pk: Seq<u8>) -> Seq<TxInV>
    decreases sel.len(),
{
    if sel.len() == 0 {
        Seq::empty()
    } else {
        sel_inputs(sel.drop_last(), pk) + entry_inputs(sel.last(), pk)
    }
}

/// Every input a selection spends carries the spender's public key
/// and, before signing, an empty signature.
proof fn lemma_sel_inputs_pub_key(sel: Seq<(Seq<u8>, Seq<int>)>, pk: Seq<u8>, j: int)
    requires
        0 <= j < sel_inputs(sel, pk).len(),
    ensures
        sel_inputs(sel, pk)[j].pub_key == pk,
    decreases sel.len(),
{
    if sel.len() > 0 {
        let front = sel_inputs(sel.drop_last(), pk);
        if j < front.len() {
            lemma_sel_inputs_pub_key(sel.drop_last(), pk, j);
        } else {
            assert(sel_inputs(sel, pk)[j] == entry_inputs(sel.last(), pk)[j - front.len()]);
        }
    }
}

/// The outputs of a payment: `amount` to the holder of `to_pkh`, and
/// the change, if any, back to `change_pkh`.
pub open spec fn payment_outs(amount: i64, acc: i64, to_pkh: Seq<u8>, change_pkh: Seq<u8>) -> Seq<
    TxOutV,
> {
    if acc == amount {
        seq![TxOutV { value: amount, pub_key_hash: to_pkh }]
    } else {
        seq![
            TxOutV { value: amount, pub_key_hash: to_pkh },
            TxOutV { value: (acc - amount) as i64, pub_key_hash: change_pkh },
        ]
    }
}

/// Builds and signs a payment: spends outputs of `wallet` selected
/// from the index until they cover `amount`, pays `amount` to the
/// holder of `to`, and pays the change back to the wallet. Fails with
/// `InsufficientFunds` when the spendable outputs fall short,
/// `InvalidAddress` when `to` does not decode, and the signing
/// errors otherwise.
#[verifier::loop_isolation(false)]
pub fn new_utxo_transaction(
    wallet: &crate::wallet::Wallet,
    to: &Vec<u8>,
    amount: i64,
    utxo_set: &crate::utxo::UtxoSet,
    chain: &crate::chain::Blockchain,
) -> (r: Result<Transaction, ChainError>)
    requires
        utxo_set.wf(),
        crate::chain::wf(chain@),
        0 < amount,
    ensures
        ({
            let pkh = crate::crypto::hash_pub_key_of(wallet@.public_key);
            let scan = crate::utxo::scan_entries(utxo_set.spec_entries(), pkh, amount, 0, 0);
            &&& ((r == Err::<Transaction, ChainError>(ChainError::InsufficientFunds)) <==> scan.0
                < amount)
            &&& (r == Err::<Transaction, ChainError>(ChainError::InvalidAddress) ==> forall|
                p: Seq<u8>,
            | #[trigger] base58_of(p) == to@ ==> p.len() < 5)
            &&& (scan.0 >= amount && (forall|p: Seq<u8>|
                #[trigger] base58_of(p) == to@ ==> p.len() < 5) ==> r == Err::<
                Transaction,
                ChainError,
            >(ChainError::InvalidAddress))
            &&& (r matches Ok(tx) ==> (!spec_is_coinbase(tx@) ==> forall|i: int|
                0 <= i < tx@.vin.len() ==> (#[trigger] tx@.vin[i]).signature.len() == 64))
            &&& (r matches Ok(tx) ==> (wallet@.public_key == crate::crypto::p256_public_key_of(
                wallet@.private_key,
            ) ==> tx_verifies(
                tx@,
                crate::chain::chain_txs(crate::chain::chain_walk(chain@)),
            )))
            &&& (r matches Ok(tx) ==> scan.0 >= amount && exists|p: Seq<u8>|
                {
                    let vin0 = sel_inputs(scan.1, wallet@.public_key);
                    let vout0 = payment_outs(amount, scan.0, pkh_of_payload(p), pkh);
                    &&& #[trigger] base58_of(p) == to@
                    &&& p.len() >= 5
                    &&& tx@.id == tx_hash(TxV { id: Seq::empty(), vin: vin0, vout: vout0 })
                    &&& tx@.vout == vout0
                    &&& tx@.vin.len() == vin0.len()
                    &&& forall|i: int|
                        0 <= i < vin0.len() ==> (#[trigger] tx@.vin[i]).txid == vin0[i].txid
                            && tx@.vin[i].vout == vin0[i].vout && tx@.vin[i].pub_key
                            == vin0[i].pub_key
                })
            &&& (r matches Err(e) ==> e == ChainError::InsufficientFunds || e
                == ChainError::InvalidAddress || e == ChainError::InputUnknown || e
                == ChainError::KeyDecodeError)
        }),
{
    let pub_key = wallet.get_public_key();
    let pkh = crate::crypto::hash_pub_key(&pub_key);
    let (accumulated, selection) = utxo_set.find_spendable_outputs(&pkh, amount);
    if accumulated < amount {
        return Err(ChainError::InsufficientFunds);
    }
    let ghost sel: Seq<(Seq<u8>, Seq<int>)> = crate::utxo::sel_view(selection@);
    let ghost pk: Seq<u8> = wallet@.public_key;
    let mut inputs: Vec<TXInput> = Vec::new();
    let mut si: usize = 0;
    while si < selection.len()
        invariant
            si <= selection.len(),
            sel == crate::utxo::sel_view(selection@),
            pk == wallet@.public_key,
            pub_key@ == pk,
            sel.len() == selection.len(),
            ins_view(inputs@) == sel_inputs(sel.take(si as int), pk),
        decreases selection.len() - si,
    {
        let ghost gsi: int = si as int;
        let ghost before_entry: Seq<TxInV> = ins_view(inputs@);
        let idxs = &selection[si].1;
        proof {
            assert(sel[gsi].0 == selection@[gsi].0@);
            assert(sel[gsi].1 == selection@[gsi].1@.map_values(|u: usize| u as int));
            assert(sel[gsi].1.len() == idxs@.len());
        }
        let mut j: usize = 0;
        while j < idxs.len()
            invariant
                j <= idxs.len(),
                si < selection.len(),
                gsi == si as int,
                sel == crate::utxo::sel_view(selection@),
                pk == wallet@.public_key,
                pub_key@ == pk,
                sel.len() == selection.len(),
                idxs == &selection@[gsi].1,
                sel[gsi].0 == selection@[gsi].0@,
                sel[gsi].1 == selection@[gsi].1@.map_values(|u: usize| u as int),
                sel[gsi].1.len() == idxs@.len(),
                before_entry == sel_inputs(sel.take(gsi), pk),
                ins_view(inputs@) == before_entry + entry_inputs(
                    (sel[gsi].0, sel[gsi].1.take(j as int)),
                    pk,
                ),
            decreases idxs.len() - j,
        {
            let txid = crate::bytes::copy_bytes(&selection[si].0);
            let vout: i64 = #[verifier::truncate] (idxs[j] as i64);
            let input = TXInput::from_parts(txid, vout, Vec::new(), copy_bytes(&pub_key));
            let ghost before: Seq<TxInV> = ins_view(inputs@);
            inputs.push(input);
            proof {
                assert(ins_view(inputs@) =~= before.push(input@));
                assert(sel[gsi].1[j as int] == idxs@[j as int] as int);
                assert(input@ == TxInV {
                    txid: sel[gsi].0,
                    vout: (sel[gsi].1[j as int]) as i64,
                    signature: Seq::empty(),
                    pub_key: pk,
                });
                assert(entry_inputs((sel[gsi].0, sel[gsi].1.take(j + 1)), pk) =~= entry_inputs(
                    (sel[gsi].0, sel[gsi].1.take(j as int)),
                    pk,
                ).push(input@));
                assert(ins_view(inputs@) =~= before_entry + entry_inputs(
                    (sel[gsi].0, sel[gsi].1.take(j + 1)),
                    pk,
                ));
            }
            j = j + 1;
        }
        proof {
            assert(sel[gsi].1.take(sel[gsi].1.len() as int) =~= sel[gsi].1);
            assert((sel[gsi].0, sel[gsi].1.take(sel[gsi].1.len() as int)) == sel[gsi]);
            assert(sel.take(gsi + 1).drop_last() =~= sel.take(gsi));
            assert(sel.take(gsi + 1).last() == sel[gsi]);
            assert(sel_inputs(sel.take(gsi + 1), pk) == sel_inputs(sel.take(gsi), pk)
                + entry_inputs(sel[gsi], pk));
        }
        si = si + 1;
    }
    proof {
        assert(sel.take(sel.len() as int) =~= sel);
    }
    let to_out = match TXOutput::new_tx_output(amount, to) {
        Some(o) => o,
        None => {
            return Err(ChainError::InvalidAddress);
        },
    };
    proof {
        let q = choose|q: Seq<u8>|
            base58_of(q) == to@ && q.len() >= 5 && to_out@.pub_key_hash == pkh_of_payload(q);
        assert(!(forall|p: Seq<u8>| #[trigger] base58_of(p) == to@ ==> p.len() < 5));
    }
    let ghost to_pkh: Seq<u8> = to_out@.pub_key_hash;
    proof {
        assert(exists|p: Seq<u8>|
            base58_of(p) == to@ && p.len() >= 5 && to_pkh == pkh_of_payload(p));
    }
    let mut outputs: Vec<TXOutput> = Vec::new();
    outputs.push(to_out);
    if accumulated > amount {
        outputs.push(TXOutput::from_parts(accumulated - amount, copy_bytes(&pkh)));
    }
    proof {
        assert(outs_view(outputs@) =~= payment_outs(
            amount,
            accumulated,
            to_pkh,
            crate::crypto::hash_pub_key_of(pk),
        ));
    }
    let mut tx = Transaction { id: Vec::new(), vin: inputs, vout: outputs };
    let ghost unsigned: TxV = tx@;
    proof {
        assert(unsigned =~= TxV {
            id: Seq::<u8>::empty(),
            vin: sel_inputs(sel, pk),
            vout: payment_outs(amount, accumulated, to_pkh, crate::crypto::hash_pub_key_of(pk)),
        });
    }
    let id = tx.hash();
    tx.id = id;
    let private_key = wallet.get_private_key();
    match chain.sign_transaction(&mut tx, &private_key) {
        Ok(()) => {},
        Err(e) => {
            return Err(e);
        },
    }
    proof {
        if !spec_is_coinbase(unsigned) {
            assert(spec_is_coinbase(tx@) == spec_is_coinbase(unsigned)) by {
                assert(tx@.vin.len() == unsigned.vin.len());
                if tx@.vin.len() == 1 {
                    assert(tx@.vin[0].txid == unsigned.vin[0].txid);
                    assert(tx@.vin[0].vout == unsigned.vin[0].vout);
                }
            }
        }
        if wallet@.public_key == crate::crypto::p256_public_key_of(wallet@.private_key) {
            if spec_is_coinbase(tx@) {
                assert(tx_verifies(tx@, crate::chain::chain_txs(crate::chain::chain_walk(chain@))));
            } else {
                assert forall|j: int| 0 <= j < unsigned.vin.len() implies (
                #[trigger] unsigned.vin[j]).pub_key == crate::crypto::p256_public_key_of(
                    private_key@,
                ) by {
                    lemma_sel_inputs_pub_key(sel, pk, j);
                }
                assert(tx_verifies(tx@, crate::chain::chain_txs(crate::chain::chain_walk(chain@))));
            }
        }
        let p = choose|p: Seq<u8>|
            base58_of(p) == to@ && p.len() >= 5 && to_pkh == pkh_of_payload(p);
        let vin0 = sel_inputs(sel, pk);
        let vout0 = payment_outs(
            amount,
            accumulated,
            pkh_of_payload(p),
            crate::crypto::hash_pub_key_of(pk),
        );
        assert(unsigned == TxV { id: Seq::<u8>::empty(), vin: vin0, vout: vout0 });
        assert(tx@.id == tx_hash(unsigned));
        assert(tx@.vout == vout0);
        assert(tx@.vin.len() == vin0.len());
        assert forall|i: int| 0 <= i < vin0.len() implies (#[trigger] tx@.vin[i]).txid
            == vin0[i].txid && tx@.vin[i].vout == vin0[i].vout && tx@.vin[i].pub_key
            == vin0[i].pub_key by {}
    }
    Ok(tx)
}

} // verus!

verus! {

/// Removing the transaction at an index removes exactly its id from
/// the lookup, when ids are distinct.
pub proof fn lemma_find_tx_remove(txs: Seq<TxV>, i: int, id: Seq<u8>)
    requires
        0 <= i < txs.len(),
        forall|a: int, b: int|
            0 <= a < txs.len() && 0 <= b < txs.len() && a != b ==> txs[a].id != txs[b].id,
    ensures
        txs[i].id == id ==> find_tx(txs.remove(i), id) is None,
        txs[i].id != id ==> find_tx(txs.remove(i), id) == find_tx(txs, id),
    decreases txs.len(),
{
    if i == 0 {
        assert(txs.remove(0) =~= txs.skip(1));
        if txs[0].id == id {
            if find_tx(txs.skip(1), id) is Some {
                lemma_find_tx_member(txs.skip(1), id);
                let a = choose|a: int|
                    0 <= a < txs.skip(1).len() && txs.skip(1)[a].id == id;
                assert(txs[a + 1] == txs.skip(1)[a]);
                assert(false);
            }
        }
    } else {
        assert(txs.remove(i)[0] == txs[0]);
        assert(txs.remove(i).skip(1) =~= txs.skip(1).remove(i - 1));
        assert(txs.skip(1)[i - 1] == txs[i]);
        assert forall|a: int, b: int|
            0 <= a < txs.skip(1).len() && 0 <= b < txs.skip(1).len() && a != b implies txs.skip(
            1,
        )[a].id != txs.skip(1)[b].id by {
            assert(txs.skip(1)[a] == txs[a + 1]);
            assert(txs.skip(1)[b] == txs[b + 1]);
        }
        lemma_find_tx_remove(txs.skip(1), i - 1, id);
        assert(txs[0].id != txs[i].id);
    }
}

/// A found id is held by some transaction.
pub proof fn lemma_find_tx_member(txs: Seq<TxV>, id: Seq<u8>)
    requires
        find_tx(txs, id) is Some,
    ensures
        exists|a: int| 0 <= a < txs.len() && txs[a].id == id,
    decreases txs.len(),
{
    if txs[0].id == id {
    } else {
        lemma_find_tx_member(txs.skip(1), id);
        let a = choose|a: int| 0 <= a < txs.skip(1).len() && txs.skip(1)[a].id == id;
        assert(txs[a + 1] == txs.skip(1)[a]);
    }
}

/// A transaction at an index with distinct ids is what the lookup of
/// its own id finds.
pub proof fn lemma_find_tx_at_index(txs: Seq<TxV>, i: int)
    requires
        0 <= i < txs.len(),
        forall|a: int, b: int|
            0 <= a < txs.len() && 0 <= b < txs.len() && a != b ==> txs[a].id != txs[b].id,
    ensures
        find_tx(txs, txs[i].id) == Some(txs[i]),
    decreases txs.len(),
{
    if i == 0 {
    } else {
        assert(txs[0].id != txs[i].id);
        assert(txs.skip(1)[i - 1] == txs[i]);
        assert forall|a: int, b: int|
            0 <= a < txs.skip(1).len() && 0 <= b < txs.skip(1).len() && a != b implies txs.skip(
            1,
        )[a].id != txs.skip(1)[b].id by {
            assert(txs.skip(1)[a] == txs[a + 1]);
            assert(txs.skip(1)[b] == txs[b + 1]);
        }
        lemma_find_tx_at_index(txs.skip(1), i - 1);
    }
}

} // verus!
