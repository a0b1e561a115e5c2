//! The unspent-output index: an association from transaction id to
//! the outputs of that transaction that no stored input spends. It is
//! rebuilt from the chain by `reindex` and advanced block by block by
//! `update`.

use vstd::prelude::*;
use crate::bytes::bytes_eq;
use crate::bytes::copy_bytes;
use crate::transaction::outs_view;
use crate::transaction::TxOutV;
use crate::transaction::TXOutput;

verus! {

/// The outputs stored under an id: those of the first pair whose key
/// matches, or nothing.
pub open spec fn assoc_outs(s: Seq<(Vec<u8>, Vec<TXOutput>)>, id: Seq<u8>) -> Seq<TxOutV>
    decreases s.len(),
{
    if s.len() == 0 {
        Seq::empty()
    } else if s[0].0@ == id {
        outs_view(s[0].1@)
    } else {
        assoc_outs(s.skip(1), id)
    }
}

/// Whether a pair with the given key is stored.
pub open spec fn assoc_has(s: Seq<(Vec<u8>, Vec<TXOutput>)>, id: Seq<u8>) -> bool
    decreases s.len(),
{
    if s.len() == 0 {
        false
    } else if s[0].0@ == id {
        true
    } else {
        assoc_has(s.skip(1), id)
    }
}

/// The index's shape: keys are distinct and no stored list is empty.
pub open spec fn utxo_keys_ok(s: Seq<(Vec<u8>, Vec<TXOutput>)>) -> bool {
    &&& forall|i: int, j: int|
        0 <= i < s.len() && 0 <= j < s.len() && i != j ==> s[i].0@ != s[j].0@
    &&& forall|i: int| 0 <= i < s.len() ==> (#[trigger] s[i].1@).len() > 0
}

/// Under distinct keys, the stored pair at any index is what the
/// association finds for its key.
pub proof fn lemma_assoc_at_index(s: Seq<(Vec<u8>, Vec<TXOutput>)>, i: int)
    requires
        0 <= i < s.len(),
        forall|a: int, b: int| 0 <= a < s.len() && 0 <= b < s.len() && a != b ==> s[a].0@ != s[b].0@,
    ensures
        assoc_outs(s, s[i].0@) == outs_view(s[i].1@),
        assoc_has(s, s[i].0@),
    decreases s.len(),
{
    if i == 0 {
    } else {
        assert(s[0].0@ != s[i].0@);
        assert(s.skip(1)[i - 1] == s[i]);
        assert forall|a: int, b: int|
            0 <= a < s.skip(1).len() && 0 <= b < s.skip(1).len() && a != b implies s.skip(
            1,
        )[a].0@ != s.skip(1)[b].0@ by {
            assert(s.skip(1)[a] == s[a + 1]);
            assert(s.skip(1)[b] == s[b + 1]);
        }
        lemma_assoc_at_index(s.skip(1), i - 1);
    }
}

/// A key the association does not hold stores nothing.
pub proof fn lemma_assoc_missing(s: Seq<(Vec<u8>, Vec<TXOutput>)>, id: Seq<u8>)
    requires
        !assoc_has(s, id),
    ensures
        assoc_outs(s, id) == Seq::<TxOutV>::empty(),
    decreases s.len(),
{
    if s.len() > 0 {
        lemma_assoc_missing(s.skip(1), id);
    }
}

/// Appending a pair leaves every earlier key's entry as it was, and
/// serves the new key when it was absent.
pub proof fn lemma_assoc_push(
    s: Seq<(Vec<u8>, Vec<TXOutput>)>,
    p: (Vec<u8>, Vec<TXOutput>),
    id: Seq<u8>,
)
    ensures
        assoc_has(s.push(p), id) == (assoc_has(s, id) || p.0@ == id),
        assoc_outs(s.push(p), id) == (if assoc_has(s, id) {
            assoc_outs(s, id)
        } else if p.0@ == id {
            outs_view(p.1@)
        } else {
            Seq::<TxOutV>::empty()
        }),
    decreases s.len(),
{
    if s.len() == 0 {
        assert(s.push(p)[0] == p);
        assert(s.push(p).skip(1) =~= Seq::<(Vec<u8>, Vec<TXOutput>)>::empty());
        if p.0@ == id {
            assert(assoc_has(s.push(p), id));
            assert(assoc_outs(s.push(p), id) == outs_view(p.1@));
        } else {
            assert(assoc_has(s.push(p).skip(1), id) == false);
            assert(assoc_outs(s.push(p).skip(1), id) == Seq::<TxOutV>::empty());
            assert(!assoc_has(s.push(p), id));
            assert(assoc_outs(s.push(p), id) == Seq::<TxOutV>::empty());
        }
    } else {
        assert(s.push(p)[0] == s[0]);
        assert(s.push(p).skip(1) =~= s.skip(1).push(p));
        lemma_assoc_push(s.skip(1), p, id);
        if s[0].0@ == id {
            assert(assoc_has(s.push(p), id));
            assert(assoc_outs(s.push(p), id) == outs_view(s[0].1@));
        } else {
            assert(assoc_outs(s.push(p), id) == assoc_outs(s.skip(1).push(p), id));
            assert(assoc_has(s.push(p), id) == assoc_has(s.skip(1).push(p), id));
        }
    }
}

/// Replacing the pair at an index changes only that key's entry, when
/// keys are distinct.
pub proof fn lemma_assoc_update(
    s: Seq<(Vec<u8>, Vec<TXOutput>)>,
    i: int,
    p: (Vec<u8>, Vec<TXOutput>),
    id: Seq<u8>,
)
    requires
        0 <= i < s.len(),
        p.0@ == s[i].0@,
        forall|a: int, b: int| 0 <= a < s.len() && 0 <= b < s.len() && a != b ==> s[a].0@ != s[b].0@,
    ensures
        assoc_has(s.update(i, p), id) == assoc_has(s, id),
        assoc_outs(s.update(i, p), id) == (if s[i].0@ == id {
            outs_view(p.1@)
        } else {
            assoc_outs(s, id)
        }),
    decreases s.len(),
{
    if i == 0 {
        assert(s.update(0, p)[0] == p);
        assert(s.update(0, p).skip(1) =~= s.skip(1));
    } else {
        assert(s.update(i, p)[0] == s[0]);
        assert(s.update(i, p).skip(1) =~= s.skip(1).update(i - 1, p));
        assert(s.skip(1)[i - 1] == s[i]);
        assert forall|a: int, b: int|
            0 <= a < s.skip(1).len() && 0 <= b < s.skip(1).len() && a != b implies s.skip(
            1,
        )[a].0@ != s.skip(1)[b].0@ by {
            assert(s.skip(1)[a] == s[a + 1]);
            assert(s.skip(1)[b] == s[b + 1]);
        }
        lemma_assoc_update(s.skip(1), i - 1, p, id);
        assert(s[0].0@ != s[i].0@);
    }
}

/// Finds the position of a key among the pairs.
pub fn assoc_find(s: &Vec<(Vec<u8>, Vec<TXOutput>)>, id: &Vec<u8>) -> (r: Option<usize>)
    ensures
        r matches Some(i) ==> i < s@.len() && s@[i as int].0@ == id@,
        r is None ==> !assoc_has(s@, id@),
{
    let ghost whole: Seq<(Vec<u8>, Vec<TXOutput>)> = s@;
    proof {
        assert(whole.skip(0) =~= whole);
    }
    let mut i: usize = 0;
    while i < s.len()
        invariant
            i <= s.len(),
            whole == s@,
            whole.len() == s@.len(),
            assoc_has(whole, id@) == assoc_has(whole.skip(i as int), id@),
        decreases s.len() - i,
    {
        proof {
            assert(whole.skip(i as int)[0] == whole[i as int]);
            assert(whole.skip(i as int).skip(1) =~= whole.skip(i + 1));
        }
        if bytes_eq(&s[i].0, id) {
            return Some(i);
        }
        i = i + 1;
    }
    proof {
        assert(whole.skip(s@.len() as int).len() == 0);
    }
    None
}

/// Appends one output to the entry of `id`, creating the entry when
/// it is absent. Every other entry is untouched.
pub fn utxo_push_out(utxo: &mut Vec<(Vec<u8>, Vec<TXOutput>)>, id: &Vec<u8>, out: TXOutput)
    requires
        utxo_keys_ok(old(utxo)@),
    ensures
        utxo_keys_ok(final(utxo)@),
        assoc_outs(final(utxo)@, id@) == assoc_outs(old(utxo)@, id@).push(out@),
        assoc_has(final(utxo)@, id@),
        forall|id2: Seq<u8>| id2 != id@ ==> assoc_outs(final(utxo)@, id2) == assoc_outs(
            old(utxo)@,
            id2,
        ) && assoc_has(final(utxo)@, id2) == assoc_has(old(utxo)@, id2),
{
    let ghost before: Seq<(Vec<u8>, Vec<TXOutput>)> = utxo@;
    let ghost ov: TxOutV = out@;
    match assoc_find(utxo, id) {
        Some(i) => {
            let mut pair = utxo.remove(i);
            pair.1.push(out);
            let ghost pv = pair;
            utxo.insert(i, pair);
            proof {
                assert(utxo@ =~= before.update(i as int, pv));
                lemma_assoc_at_index(before, i as int);
                assert(outs_view(pv.1@) =~= outs_view(before[i as int].1@).push(ov));
                lemma_assoc_update(before, i as int, pv, id@);
                assert(assoc_outs(utxo@, id@) == assoc_outs(before, id@).push(ov));
                assert forall|id2: Seq<u8>| id2 != id@ implies assoc_outs(utxo@, id2)
                    == assoc_outs(before, id2) && assoc_has(utxo@, id2) == assoc_has(
                    before,
                    id2,
                ) by {
                    lemma_assoc_update(before, i as int, pv, id2);
                }
                assert forall|a: int, b: int|
                    0 <= a < utxo@.len() && 0 <= b < utxo@.len() && a != b implies utxo@[a].0@
                    != utxo@[b].0@ by {
                    assert(utxo@[a].0@ == before[a].0@);
                    assert(utxo@[b].0@ == before[b].0@);
                }
                assert forall|a: int| 0 <= a < utxo@.len() implies (#[trigger] utxo@[a].1@).len()
                    > 0 by {
                    if a != i {
                        assert(utxo@[a] == before[a]);
                    }
                }
            }
        },
        None => {
            let mut outs: Vec<TXOutput> = Vec::new();
            outs.push(out);
            let pair = (copy_bytes(id), outs);
            let ghost pv = pair;
            utxo.push(pair);
            proof {
                assert(utxo@ =~= before.push(pv));
                lemma_assoc_missing(before, id@);
                assert(outs_view(pv.1@) =~= Seq::<TxOutV>::empty().push(ov));
                lemma_assoc_push(before, pv, id@);
                assert(assoc_outs(utxo@, id@) == assoc_outs(before, id@).push(ov));
                assert forall|id2: Seq<u8>| id2 != id@ implies assoc_outs(utxo@, id2)
                    == assoc_outs(before, id2) && assoc_has(utxo@, id2) == assoc_has(
                    before,
                    id2,
                ) by {
                    lemma_assoc_push(before, pv, id2);
                    if !assoc_has(before, id2) {
                        lemma_assoc_missing(before, id2);
                    }
                }
                assert forall|a: int, b: int|
                    0 <= a < utxo@.len() && 0 <= b < utxo@.len() && a != b implies utxo@[a].0@
                    != utxo@[b].0@ by {
                    if a < before.len() && b < before.len() {
                        assert(utxo@[a] == before[a]);
                        assert(utxo@[b] == before[b]);
                    } else if a < before.len() {
                        assert(utxo@[a] == before[a]);
                        lemma_assoc_at_index(before, a);
                    } else {
                        assert(utxo@[b] == before[b]);
                        lemma_assoc_at_index(before, b);
                    }
                }
                assert forall|a: int| 0 <= a < utxo@.len() implies (#[trigger] utxo@[a].1@).len()
                    > 0 by {
                    if a < before.len() {
                        assert(utxo@[a] == before[a]);
                    }
                }
            }
        },
    }
}

} // verus!

verus! {

/// The index as a map from transaction id to its stored outputs.
pub open spec fn as_map(s: Seq<(Vec<u8>, Vec<TXOutput>)>) -> Map<Seq<u8>, Seq<TxOutV>> {
    Map::new(|id: Seq<u8>| assoc_has(s, id), |id: Seq<u8>| assoc_outs(s, id))
}

/// Removing the pair at an index removes exactly its key, when keys
/// are distinct.
pub proof fn lemma_assoc_remove(s: Seq<(Vec<u8>, Vec<TXOutput>)>, i: int, id: Seq<u8>)
    requires
        0 <= i < s.len(),
        forall|a: int, b: int| 0 <= a < s.len() && 0 <= b < s.len() && a != b ==> s[a].0@ != s[b].0@,
    ensures
        assoc_has(s.remove(i), id) == (assoc_has(s, id) && s[i].0@ != id),
        s[i].0@ != id ==> assoc_outs(s.remove(i), id) == assoc_outs(s, id),
    decreases s.len(),
{
    if i == 0 {
        assert(s.remove(0) =~= s.skip(1));
        if s[0].0@ == id {
            if assoc_has(s.skip(1), id) {
                let ghost sk = s.skip(1);
                lemma_assoc_has_member(sk, id);
                let a = choose|a: int| 0 <= a < sk.len() && sk[a].0@ == id;
                assert(s[a + 1] == sk[a]);
                assert(s[a + 1].0@ == s[0].0@);
                assert(false);
            }
        }
    } else {
        assert(s.remove(i)[0] == s[0]);
        assert(s.remove(i).skip(1) =~= s.skip(1).remove(i - 1));
        assert(s.skip(1)[i - 1] == s[i]);
        assert forall|a: int, b: int|
            0 <= a < s.skip(1).len() && 0 <= b < s.skip(1).len() && a != b implies s.skip(
            1,
        )[a].0@ != s.skip(1)[b].0@ by {
            assert(s.skip(1)[a] == s[a + 1]);
            assert(s.skip(1)[b] == s[b + 1]);
        }
        lemma_assoc_remove(s.skip(1), i - 1, id);
    }
}

/// A held key is held by some pair.
pub proof fn lemma_assoc_has_member(s: Seq<(Vec<u8>, Vec<TXOutput>)>, id: Seq<u8>)
    requires
        assoc_has(s, id),
    ensures
        exists|a: int| 0 <= a < s.len() && s[a].0@ == id,
    decreases s.len(),
{
    if s[0].0@ == id {
    } else {
        lemma_assoc_has_member(s.skip(1), id);
        let a = choose|a: int| 0 <= a < s.skip(1).len() && s.skip(1)[a].0@ == id;
        assert(s[a + 1] == s.skip(1)[a]);
    }
}

/// Removes the entry of a key, if it is held.
pub fn utxo_remove_key(utxo: &mut Vec<(Vec<u8>, Vec<TXOutput>)>, id: &Vec<u8>)
    requires
        utxo_keys_ok(old(utxo)@),
    ensures
        utxo_keys_ok(final(utxo)@),
        !assoc_has(final(utxo)@, id@),
        forall|id2: Seq<u8>| id2 != id@ ==> assoc_outs(final(utxo)@, id2) == assoc_outs(
            old(utxo)@,
            id2,
        ) && assoc_has(final(utxo)@, id2) == assoc_has(old(utxo)@, id2),
{
    let ghost before: Seq<(Vec<u8>, Vec<TXOutput>)> = utxo@;
    match assoc_find(utxo, id) {
        Some(i) => {
            utxo.remove(i);
            proof {
                assert(utxo@ =~= before.remove(i as int));
                lemma_assoc_remove(before, i as int, id@);
                assert(!assoc_has(utxo@, id@));
                assert forall|id2: Seq<u8>| id2 != id@ implies assoc_outs(utxo@, id2)
                    == assoc_outs(before, id2) && assoc_has(utxo@, id2) == assoc_has(
                    before,
                    id2,
                ) by {
                    lemma_assoc_remove(before, i as int, id2);
                }
                assert forall|a: int, b: int|
                    0 <= a < utxo@.len() && 0 <= b < utxo@.len() && a != b implies utxo@[a].0@
                    != utxo@[b].0@ by {
                    let a0 = if a < i as int {
                        a
                    } else {
                        a + 1
                    };
                    let b0 = if b < i as int {
                        b
                    } else {
                        b + 1
                    };
                    assert(utxo@[a] == before[a0]);
                    assert(utxo@[b] == before[b0]);
                }
                assert forall|a: int| 0 <= a < utxo@.len() implies (#[trigger] utxo@[a].1@).len()
                    > 0 by {
                    let a0 = if a < i as int {
                        a
                    } else {
                        a + 1
                    };
                    assert(utxo@[a] == before[a0]);
                }
            }
        },
        None => {},
    }
}

/// Stores `outs` as the whole entry of `id`, replacing any old entry.
pub fn utxo_set_entry(utxo: &mut Vec<(Vec<u8>, Vec<TXOutput>)>, id: &Vec<u8>, outs: Vec<TXOutput>)
    requires
        utxo_keys_ok(old(utxo)@),
        outs@.len() > 0,
    ensures
        utxo_keys_ok(final(utxo)@),
        assoc_has(final(utxo)@, id@),
        assoc_outs(final(utxo)@, id@) == outs_view(outs@),
        forall|id2: Seq<u8>| id2 != id@ ==> assoc_outs(final(utxo)@, id2) == assoc_outs(
            old(utxo)@,
            id2,
        ) && assoc_has(final(utxo)@, id2) == assoc_has(old(utxo)@, id2),
{
    utxo_remove_key(utxo, id);
    let ghost mid: Seq<(Vec<u8>, Vec<TXOutput>)> = utxo@;
    let pair = (crate::bytes::copy_bytes(id), outs);
    let ghost pv = pair;
    utxo.push(pair);
    proof {
        assert(utxo@ =~= mid.push(pv));
        lemma_assoc_push(mid, pv, id@);
        lemma_assoc_missing(mid, id@);
        assert forall|id2: Seq<u8>| id2 != id@ implies assoc_outs(utxo@, id2) == assoc_outs(
            mid,
            id2,
        ) && assoc_has(utxo@, id2) == assoc_has(mid, id2) by {
            lemma_assoc_push(mid, pv, id2);
            if !assoc_has(mid, id2) {
                lemma_assoc_missing(mid, id2);
            }
        }
        assert forall|a: int, b: int|
            0 <= a < utxo@.len() && 0 <= b < utxo@.len() && a != b implies utxo@[a].0@
            != utxo@[b].0@ by {
            if a < mid.len() && b < mid.len() {
                assert(utxo@[a] == mid[a]);
                assert(utxo@[b] == mid[b]);
            } else if a < mid.len() {
                assert(utxo@[a] == mid[a]);
                lemma_assoc_at_index(mid, a);
            } else if b < mid.len() {
                assert(utxo@[b] == mid[b]);
                lemma_assoc_at_index(mid, b);
            }
        }
        assert forall|a: int| 0 <= a < utxo@.len() implies (#[trigger] utxo@[a].1@).len() > 0 by {
            if a < mid.len() {
                assert(utxo@[a] == mid[a]);
            }
        }
    }
}

} // verus!

verus! {

/// An entry with the output at position `pos` dropped: positions, not
/// original indices, as the stored list shrinks when outputs are
/// spent.
pub open spec fn drop_at_from(e: Seq<TxOutV>, pos: i64, from: int) -> Seq<TxOutV>
    decreases e.len() - from,
{
    if from < 0 || from >= e.len() {
        Seq::empty()
    } else {
        (if from == pos {
            Seq::empty()
        } else {
            seq![e[from]]
        }) + drop_at_from(e, pos, from + 1)
    }
}

/// An entry with the output at position `pos` dropped.
pub open spec fn drop_at(e: Seq<TxOutV>, pos: i64) -> Seq<TxOutV> {
    drop_at_from(e, pos, 0)
}

/// One input applied to the index: the stored entry of the referenced
/// id loses the output at the input's position; an emptied entry is
/// removed; a missing entry fails.
pub open spec fn apply_input(
    m: Map<Seq<u8>, Seq<TxOutV>>,
    txid: Seq<u8>,
    vout: i64,
) -> Option<Map<Seq<u8>, Seq<TxOutV>>> {
    if !m.dom().contains(txid) {
        None
    } else {
        let e2 = drop_at(m[txid], vout);
        if e2.len() == 0 {
            Some(m.remove(txid))
        } else {
            Some(m.insert(txid, e2))
        }
    }
}

/// A transaction's inputs applied in order, from position `i` on.
pub open spec fn apply_inputs(
    m: Map<Seq<u8>, Seq<TxOutV>>,
    vins: Seq<crate::transaction::TxInV>,
    i: int,
) -> Option<Map<Seq<u8>, Seq<TxOutV>>>
    decreases vins.len() - i,
{
    if i < 0 || i >= vins.len() {
        Some(m)
    } else {
        match apply_input(m, vins[i].txid, vins[i].vout) {
            None => None,
            Some(m2) => apply_inputs(m2, vins, i + 1),
        }
    }
}

/// A transaction applied to the index: its inputs spend, then its
/// full output list is stored under its id. A coinbase only stores.
pub open spec fn apply_tx(m: Map<Seq<u8>, Seq<TxOutV>>, t: crate::transaction::TxV) -> Option<
    Map<Seq<u8>, Seq<TxOutV>>,
> {
    let m1 = if crate::transaction::spec_is_coinbase(t) {
        Some(m)
    } else {
        apply_inputs(m, t.vin, 0)
    };
    match m1 {
        None => None,
        Some(m2) => if t.vout.len() == 0 {
            Some(m2)
        } else {
            Some(m2.insert(t.id, t.vout))
        },
    }
}

/// A block's transactions applied in order, from position `i` on.
pub open spec fn apply_block(
    m: Map<Seq<u8>, Seq<TxOutV>>,
    txs: Seq<crate::transaction::TxV>,
    i: int,
) -> Option<Map<Seq<u8>, Seq<TxOutV>>>
    decreases txs.len() - i,
{
    if i < 0 || i >= txs.len() {
        Some(m)
    } else {
        match apply_tx(m, txs[i]) {
            None => None,
            Some(m2) => apply_block(m2, txs, i + 1),
        }
    }
}

/// Saturating addition over signed 64-bit values.
pub open spec fn sat_add(a: i64, v: i64) -> i64 {
    if a + v > i64::MAX {
        i64::MAX
    } else if a + v < i64::MIN {
        i64::MIN
    } else {
        (a + v) as i64
    }
}

/// The scan of one entry for spendable outputs: positions of outputs
/// locked to `pkh` are taken, in order, while the accumulated value
/// stays below `amount`.
pub open spec fn scan_outs(
    e: Seq<TxOutV>,
    pkh: Seq<u8>,
    amount: i64,
    acc: i64,
    j: int,
) -> (i64, Seq<int>)
    decreases e.len() - j,
{
    if j < 0 || j >= e.len() {
        (acc, Seq::empty())
    } else if e[j].pub_key_hash == pkh && acc < amount {
        let r = scan_outs(e, pkh, amount, sat_add(acc, e[j].value), j + 1);
        (r.0, seq![j] + r.1)
    } else {
        scan_outs(e, pkh, amount, acc, j + 1)
    }
}

/// The scan of the whole index, entry by entry in stored order.
pub open spec fn scan_entries(
    s: Seq<(Vec<u8>, Vec<TXOutput>)>,
    pkh: Seq<u8>,
    amount: i64,
    acc: i64,
    i: int,
) -> (i64, Seq<(Seq<u8>, Seq<int>)>)
    decreases s.len() - i,
{
    if i < 0 || i >= s.len() {
        (acc, Seq::empty())
    } else {
        let e = scan_outs(outs_view(s[i].1@), pkh, amount, acc, 0);
        let rest = scan_entries(s, pkh, amount, e.0, i + 1);
        if e.1.len() > 0 {
            (rest.0, seq![(s[i].0@, e.1)] + rest.1)
        } else {
            (rest.0, rest.1)
        }
    }
}

/// The outputs locked to a key, over the whole index in stored order.
pub open spec fn locked_outs(s: Seq<(Vec<u8>, Vec<TXOutput>)>, pkh: Seq<u8>, i: int) -> Seq<TxOutV>
    decreases s.len() - i,
{
    if i < 0 || i >= s.len() {
        Seq::empty()
    } else {
        outs_view(s[i].1@).filter(|o: TxOutV| o.pub_key_hash == pkh) + locked_outs(s, pkh, i + 1)
    }
}

/// The unspent-output index.
pub struct UtxoSet {
    entries: Vec<(Vec<u8>, Vec<TXOutput>)>,
}

impl UtxoSet {
    /// The stored pairs.
    pub closed spec fn spec_entries(&self) -> Seq<(Vec<u8>, Vec<TXOutput>)> {
        self.entries@
    }

    /// The index's invariant: distinct keys, no empty entry.
    pub open spec fn wf(&self) -> bool {
        utxo_keys_ok(self.spec_entries())
    }

    /// An empty index.
    pub fn new() -> (r: UtxoSet)
        ensures
            r.wf(),
            r.spec_entries().len() == 0,
    {
        UtxoSet { entries: Vec::new() }
    }

    /// How many transactions have unspent outputs.
    pub fn count_transactions(&self) -> (r: usize)
        ensures
            r == self.spec_entries().len(),
    {
        self.entries.len()
    }

    /// The stored pairs, for persistence.
    pub fn entries_ref(&self) -> (r: &Vec<(Vec<u8>, Vec<TXOutput>)>)
        ensures
            r@ == self.spec_entries(),
    {
        &self.entries
    }

    /// Restores an entry read back from persistence; an empty or
    /// duplicate key is refused.
    pub fn restore_entry(&mut self, id: Vec<u8>, outs: Vec<TXOutput>) -> (r: bool)
        requires
            old(self).wf(),
        ensures
            final(self).wf(),
            r ==> assoc_outs(final(self).spec_entries(), id@) == outs_view(outs@),
            r ==> forall|id2: Seq<u8>| id2 != id@ ==> assoc_outs(final(self).spec_entries(), id2)
                == assoc_outs(old(self).spec_entries(), id2),
            !r ==> *final(self) == *old(self),
    {
        if outs.len() == 0 {
            return false;
        }
        match assoc_find(&self.entries, &id) {
            Some(_) => false,
            None => {
                utxo_set_entry(&mut self.entries, &id, outs);
                true
            },
        }
    }
}

} // verus!

verus! {

/// The outputs of one entry locked to a key, from position `j` on.
pub open spec fn locked_in_entry(e: Seq<TxOutV>, pkh: Seq<u8>, j: int) -> Seq<TxOutV>
    decreases e.len() - j,
{
    if j < 0 || j >= e.len() {
        Seq::empty()
    } else {
        (if e[j].pub_key_hash == pkh {
            seq![e[j]]
        } else {
            Seq::empty()
        }) + locked_in_entry(e, pkh, j + 1)
    }
}

/// The outputs locked to a key over the whole index, in stored order.
pub open spec fn spec_locked_outs(s: Seq<(Vec<u8>, Vec<TXOutput>)>, pkh: Seq<u8>, i: int) -> Seq<
    TxOutV,
>
    decreases s.len() - i,
{
    if i < 0 || i >= s.len() {
        Seq::empty()
    } else {
        locked_in_entry(outs_view(s[i].1@), pkh, 0) + spec_locked_outs(s, pkh, i + 1)
    }
}

/// The rest of one transaction's application: its inputs from `vi`
/// on, then its output insertion, then the remaining transactions.
pub open spec fn continue_tx(
    m: Map<Seq<u8>, Seq<TxOutV>>,
    t: crate::transaction::TxV,
    vi: int,
    txs: Seq<crate::transaction::TxV>,
    ti: int,
) -> Option<Map<Seq<u8>, Seq<TxOutV>>> {
    match apply_inputs(m, t.vin, vi) {
        None => None,
        Some(m2) => apply_block(
            if t.vout.len() == 0 {
                m2
            } else {
                m2.insert(t.id, t.vout)
            },
            txs,
            ti + 1,
        ),
    }
}

impl UtxoSet {
    /// Rebuilds the index from the chain: afterwards the entry of
    /// every transaction id is exactly the unspent outputs that the
    /// tip-first chain scan yields for it.
    pub fn reindex(&mut self, chain: &crate::chain::Blockchain)
        requires
            crate::chain::wf(chain@),
        ensures
            final(self).wf(),
            forall|id: Seq<u8>| assoc_outs(final(self).spec_entries(), id)
                == crate::chain::utxo_entry(crate::chain::chain_walk(chain@), id),
    {
        self.entries = chain.find_utxo();
    }

    /// Advances the index by one block: each non-coinbase input drops
    /// the output at its position from the referenced entry, an
    /// emptied entry is removed, and every transaction's full output
    /// list is stored under its id. Fails with `NotFound`, leaving
    /// the index unchanged, when an input references an id the index
    /// does not hold.
    pub fn update(&mut self, block: &crate::block::Block) -> (r: Result<(), crate::ChainError>)
        requires
            old(self).wf(),
        ensures
            final(self).wf(),
            (r == Ok::<(), crate::ChainError>(())) <==> apply_block(
                as_map(old(self).spec_entries()),
                block@.transactions,
                0,
            ) is Some,
            r == Ok::<(), crate::ChainError>(()) ==> as_map(final(self).spec_entries())
                == apply_block(as_map(old(self).spec_entries()), block@.transactions, 0).unwrap(),
            r matches Err(e) ==> e == crate::ChainError::NotFound && *final(self) == *old(self),
    {
        let ghost m0: Map<Seq<u8>, Seq<TxOutV>> = as_map(self.entries@);
        let ghost txsv: Seq<crate::transaction::TxV> = block@.transactions;
        let txs = block.get_transactions();
        let mut work: Vec<(Vec<u8>, Vec<TXOutput>)> = Vec::new();
        let mut ci: usize = 0;
        while ci < self.entries.len()
            invariant
                ci <= self.entries.len(),
                *self == *old(self),
                utxo_keys_ok(self.entries@),
                utxo_keys_ok(work@),
                work@.len() == ci,
                forall|a: int| 0 <= a < ci ==> (#[trigger] work@[a]).0@ == self.entries@[a].0@
                    && outs_view(work@[a].1@) == outs_view(self.entries@[a].1@),
            decreases self.entries.len() - ci,
        {
            let key = crate::bytes::copy_bytes(&self.entries[ci].0);
            let val = crate::transaction::copy_outputs(&self.entries[ci].1);
            work.push((key, val));
            proof {
                assert forall|a: int, b: int|
                    0 <= a < work@.len() && 0 <= b < work@.len() && a != b implies work@[a].0@
                    != work@[b].0@ by {
                    assert(work@[a].0@ == self.entries@[a].0@);
                    assert(work@[b].0@ == self.entries@[b].0@);
                }
            }
            ci = ci + 1;
        }
        proof {
            lemma_assoc_views_agree(work@, self.entries@);
            assert(as_map(work@) =~= m0);
        }
        let mut ti: usize = 0;
        while ti < txs.len()
            invariant
                ti <= txs.len(),
                *self == *old(self),
                m0 == as_map(old(self).spec_entries()),
                old(self).wf(),
                txsv == block@.transactions,
                crate::transaction::txs_view(txs@) == txsv,
                txs@.len() == txsv.len(),
                utxo_keys_ok(work@),
                apply_block(m0, txsv, 0) == apply_block(as_map(work@), txsv, ti as int),
            decreases txs.len() - ti,
        {
            let ghost gti: int = ti as int;
            let ghost t: crate::transaction::TxV = txsv[gti];
            let tx = &txs[ti];
            let txid = tx.get_id();
            proof {
                assert(tx@ == t);
            }
            if !tx.is_coinbase() {
                let vins = tx.get_vin();
                let mut vi: usize = 0;
                proof {
                    assert(apply_block(as_map(work@), txsv, gti) == continue_tx(
                        as_map(work@),
                        t,
                        0,
                        txsv,
                        gti,
                    ));
                }
                while vi < vins.len()
                    invariant
                        vi <= vins.len(),
                        *self == *old(self),
                        m0 == as_map(old(self).spec_entries()),
                        old(self).wf(),
                        gti == ti as int,
                        ti < txs.len(),
                        txsv == block@.transactions,
                        txs@.len() == txsv.len(),
                        t == txsv[gti],
                        !crate::transaction::spec_is_coinbase(t),
                        crate::transaction::ins_view(vins@) == t.vin,
                        vins@.len() == t.vin.len(),
                        utxo_keys_ok(work@),
                        apply_block(m0, txsv, 0) == continue_tx(as_map(work@), t, vi as int, txsv, gti),
                    decreases vins.len() - vi,
                {
                    let ghost gvi: int = vi as int;
                    let ghost cur: Map<Seq<u8>, Seq<TxOutV>> = as_map(work@);
                    let vin_txid = vins[vi].get_txid();
                    let vin_vout = vins[vi].get_vout();
                    proof {
                        assert(vins@[gvi]@ == t.vin[gvi]);
                        assert(vin_txid@ == t.vin[gvi].txid);
                        assert(vin_vout == t.vin[gvi].vout);
                    }
                    let pos = match assoc_find(&work, &vin_txid) {
                        Some(p) => p,
                        None => {
                            proof {
                                assert(!cur.dom().contains(t.vin[gvi].txid));
                                assert(apply_input(cur, t.vin[gvi].txid, t.vin[gvi].vout) is None);
                                assert(apply_inputs(cur, t.vin, gvi) is None);
                                assert(apply_block(m0, txsv, 0) is None);
                            }
                            return Err(crate::ChainError::NotFound);
                        },
                    };
                    let ghost e: Seq<TxOutV> = outs_view(work@[pos as int].1@);
                    proof {
                        lemma_assoc_at_index(work@, pos as int);
                        assert(cur.dom().contains(t.vin[gvi].txid));
                        assert(cur[t.vin[gvi].txid] == e);
                    }
                    let mut kept: Vec<TXOutput> = Vec::new();
                    let mut j: usize = 0;
                    let entry_len = work[pos].1.len();
                    while j < entry_len
                        invariant
                            j <= entry_len,
                            pos < work@.len(),
                            entry_len == work@[pos as int].1@.len(),
                            e == outs_view(work@[pos as int].1@),
                            e.len() == entry_len,
                            drop_at(e, vin_vout) == outs_view(kept@) + drop_at_from(
                                e,
                                vin_vout,
                                j as int,
                            ),
                        decreases entry_len - j,
                    {
                        proof {
                            assert(drop_at_from(e, vin_vout, j as int) == (if j as int
                                == vin_vout {
                                Seq::<TxOutV>::empty()
                            } else {
                                seq![e[j as int]]
                            }) + drop_at_from(e, vin_vout, j + 1));
                        }
                        if vin_vout < 0 || (vin_vout as u64) != (j as u64) {
                            let ghost kb: Seq<TXOutput> = kept@;
                            kept.push(work[pos].1[j].duplicate());
                            proof {
                                assert(work@[pos as int].1@[j as int]@ == e[j as int]);
                                assert(outs_view(kept@) =~= outs_view(kb).push(e[j as int]));
                                assert(outs_view(kb) + (seq![e[j as int]] + drop_at_from(
                                    e,
                                    vin_vout,
                                    j + 1,
                                )) =~= outs_view(kept@) + drop_at_from(e, vin_vout, j + 1));
                            }
                        } else {
                            proof {
                                assert(j as int == vin_vout);
                                assert(outs_view(kept@) + (Seq::<TxOutV>::empty() + drop_at_from(
                                    e,
                                    vin_vout,
                                    j + 1,
                                )) =~= outs_view(kept@) + drop_at_from(e, vin_vout, j + 1));
                            }
                        }
                        j = j + 1;
                    }
                    proof {
                        assert(drop_at_from(e, vin_vout, entry_len as int) == Seq::<
                            TxOutV,
                        >::empty());
                        assert(outs_view(kept@) + Seq::<TxOutV>::empty() =~= outs_view(kept@));
                        assert(drop_at(e, vin_vout) == outs_view(kept@));
                    }
                    if kept.len() == 0 {
                        utxo_remove_key(&mut work, &vin_txid);
                        proof {
                            assert(as_map(work@) =~= cur.remove(t.vin[gvi].txid));
                            assert(apply_input(cur, t.vin[gvi].txid, t.vin[gvi].vout) == Some(
                                as_map(work@),
                            ));
                        }
                    } else {
                        utxo_set_entry(&mut work, &vin_txid, kept);
                        proof {
                            assert(as_map(work@) =~= cur.insert(
                                t.vin[gvi].txid,
                                drop_at(e, vin_vout),
                            ));
                            assert(apply_input(cur, t.vin[gvi].txid, t.vin[gvi].vout) == Some(
                                as_map(work@),
                            ));
                        }
                    }
                    proof {
                        assert(apply_inputs(cur, t.vin, gvi) == apply_inputs(
                            as_map(work@),
                            t.vin,
                            gvi + 1,
                        ));
                    }
                    vi = vi + 1;
                }
                proof {
                    assert(apply_inputs(as_map(work@), t.vin, vins@.len() as int) == Some(
                        as_map(work@),
                    ));
                }
            } else {
                proof {
                    assert(apply_block(as_map(work@), txsv, gti) == (match apply_tx(
                        as_map(work@),
                        t,
                    ) {
                        None => None::<Map<Seq<u8>, Seq<TxOutV>>>,
                        Some(m2) => apply_block(m2, txsv, gti + 1),
                    }));
                }
            }
            let ghost cur2: Map<Seq<u8>, Seq<TxOutV>> = as_map(work@);
            let outs = tx.get_vout();
            if outs.len() > 0 {
                utxo_set_entry(&mut work, &txid, outs);
                proof {
                    assert(as_map(work@) =~= cur2.insert(t.id, t.vout));
                }
            }
            proof {
                assert(apply_block(m0, txsv, 0) == apply_block(as_map(work@), txsv, gti + 1));
            }
            ti = ti + 1;
        }
        proof {
            assert(apply_block(as_map(work@), txsv, txs@.len() as int) == Some(as_map(work@)));
        }
        self.entries = work;
        Ok(())
    }
}

/// Two stores of pairwise equal views hold the same association.
proof fn lemma_assoc_views_agree(
    a: Seq<(Vec<u8>, Vec<TXOutput>)>,
    b: Seq<(Vec<u8>, Vec<TXOutput>)>,
)
    requires
        a.len() == b.len(),
        forall|i: int| 0 <= i < a.len() ==> (#[trigger] a[i]).0@ == b[i].0@ && outs_view(a[i].1@)
            == outs_view(b[i].1@),
    ensures
        forall|id: Seq<u8>| assoc_has(a, id) == assoc_has(b, id) && assoc_outs(a, id)
            == assoc_outs(b, id),
    decreases a.len(),
{
    if a.len() > 0 {
        assert forall|i: int| 0 <= i < a.skip(1).len() implies (#[trigger] a.skip(1)[i]).0@
            == b.skip(1)[i].0@ && outs_view(a.skip(1)[i].1@) == outs_view(b.skip(1)[i].1@) by {
            assert(a.skip(1)[i] == a[i + 1]);
            assert(b.skip(1)[i] == b[i + 1]);
        }
        lemma_assoc_views_agree(a.skip(1), b.skip(1));
        assert forall|id: Seq<u8>| assoc_has(a, id) == assoc_has(b, id) && assoc_outs(a, id)
            == assoc_outs(b, id) by {
            assert(a[0].0@ == b[0].0@);
            assert(outs_view(a[0].1@) == outs_view(b[0].1@));
            assert(assoc_has(a.skip(1), id) == assoc_has(b.skip(1), id));
            assert(assoc_outs(a.skip(1), id) == assoc_outs(b.skip(1), id));
        }
    }
}

} // verus!

verus! {

/// The views of a selection: each pair as its key bytes and positions.
pub open spec fn sel_view(v: Seq<(Vec<u8>, Vec<usize>)>) -> Seq<(Seq<u8>, Seq<int>)> {
    v.map_values(
        |p: (Vec<u8>, Vec<usize>)| (p.0@, p.1@.map_values(|u: usize| u as int)),
    )
}

/// Saturating addition.
fn sat_add_exec(a: i64, v: i64) -> (r: i64)
    ensures
        r == sat_add(a, v),
{
    let wide: i128 = a as i128 + v as i128;
    if wide > i64::MAX as i128 {
        i64::MAX
    } else if wide < i64::MIN as i128 {
        i64::MIN
    } else {
        wide as i64
    }
}

impl UtxoSet {
    /// Scans the index in stored order and takes outputs locked to
    /// `pub_key_hash`, in order, while the accumulated value stays
    /// below `amount`; returns the accumulated value (saturating) and
    /// the taken positions, keyed by transaction id.
    pub fn find_spendable_outputs(&self, pub_key_hash: &Vec<u8>, amount: i64) -> (r: (
        i64,
        Vec<(Vec<u8>, Vec<usize>)>,
    ))
        requires
            self.wf(),
        ensures
            r.0 == scan_entries(self.spec_entries(), pub_key_hash@, amount, 0, 0).0,
            sel_view(r.1@) == scan_entries(self.spec_entries(), pub_key_hash@, amount, 0, 0).1,
    {
        let ghost es: Seq<(Vec<u8>, Vec<TXOutput>)> = self.spec_entries();
        let ghost pkh: Seq<u8> = pub_key_hash@;
        let ghost whole: (i64, Seq<(Seq<u8>, Seq<int>)>) = scan_entries(es, pkh, amount, 0, 0);
        let mut selected: Vec<(Vec<u8>, Vec<usize>)> = Vec::new();
        let mut accumulated: i64 = 0;
        let mut i: usize = 0;
        while i < self.entries.len()
            invariant
                i <= self.entries.len(),
                es == self.spec_entries(),
                pkh == pub_key_hash@,
                es.len() == self.entries.len(),
                whole == scan_entries(es, pkh, amount, 0, 0),
                whole.0 == scan_entries(es, pkh, amount, accumulated, i as int).0,
                whole.1 == sel_view(selected@) + scan_entries(es, pkh, amount, accumulated, i as int).1,
            decreases self.entries.len() - i,
        {
            let ghost gi: int = i as int;
            let ghost e: Seq<TxOutV> = outs_view(es[gi].1@);
            let ghost acc0: i64 = accumulated;
            let ghost entry_scan: (i64, Seq<int>) = scan_outs(e, pkh, amount, acc0, 0);
            let mut idxs: Vec<usize> = Vec::new();
            let outs = &self.entries[i].1;
            let mut j: usize = 0;
            while j < outs.len()
                invariant
                    j <= outs.len(),
                    gi == i as int,
                    i < self.entries.len(),
                    es == self.spec_entries(),
                    pkh == pub_key_hash@,
                    es.len() == self.entries.len(),
                    outs == &self.entries@[gi].1,
                    e == outs_view(es[gi].1@),
                    e.len() == outs.len(),
                    entry_scan == scan_outs(e, pkh, amount, acc0, 0),
                    entry_scan.0 == scan_outs(e, pkh, amount, accumulated, j as int).0,
                    entry_scan.1 == idxs@.map_values(|u: usize| u as int) + scan_outs(
                        e,
                        pkh,
                        amount,
                        accumulated,
                        j as int,
                    ).1,
                decreases outs.len() - j,
            {
                let ghost idxs_before: Seq<usize> = idxs@;
                if outs[j].is_locked_with_key(pub_key_hash) && accumulated < amount {
                    proof {
                        assert(e[j as int] == outs@[j as int]@);
                    }
                    accumulated = sat_add_exec(accumulated, outs[j].get_value());
                    idxs.push(j);
                    proof {
                        assert(idxs@.map_values(|u: usize| u as int) =~= idxs_before.map_values(
                            |u: usize| u as int,
                        ).push(j as int));
                        assert(idxs_before.map_values(|u: usize| u as int) + (seq![j as int]
                            + scan_outs(e, pkh, amount, accumulated, j + 1).1) =~= idxs@.map_values(
                            |u: usize| u as int,
                        ) + scan_outs(e, pkh, amount, accumulated, j + 1).1);
                    }
                } else {
                    proof {
                        assert(e[j as int] == outs@[j as int]@);
                    }
                }
                j = j + 1;
            }
            proof {
                assert(scan_outs(e, pkh, amount, accumulated, outs@.len() as int).1 == Seq::<
                    int,
                >::empty());
                assert(idxs@.map_values(|u: usize| u as int) + Seq::<int>::empty()
                    =~= idxs@.map_values(|u: usize| u as int));
                assert(entry_scan.1 == idxs@.map_values(|u: usize| u as int));
                assert(entry_scan.0 == accumulated);
            }
            let ghost sel_before: Seq<(Vec<u8>, Vec<usize>)> = selected@;
            if idxs.len() > 0 {
                let key = crate::bytes::copy_bytes(&self.entries[i].0);
                selected.push((key, idxs));
                proof {
                    assert(sel_view(selected@) =~= sel_view(sel_before).push(
                        (es[gi].0@, entry_scan.1),
                    ));
                    assert(sel_view(sel_before) + (seq![(es[gi].0@, entry_scan.1)] + scan_entries(
                        es,
                        pkh,
                        amount,
                        accumulated,
                        gi + 1,
                    ).1) =~= sel_view(selected@) + scan_entries(es, pkh, amount, accumulated, gi + 1).1);
                }
            }
            i = i + 1;
        }
        proof {
            assert(scan_entries(es, pkh, amount, accumulated, es.len() as int).1 == Seq::<
                (Seq<u8>, Seq<int>),
            >::empty());
            assert(sel_view(selected@) + Seq::<(Seq<u8>, Seq<int>)>::empty() =~= sel_view(
                selected@,
            ));
        }
        (accumulated, selected)
    }

    /// Every output locked to a key, over the whole index in stored
    /// order.
    pub fn find_utxo(&self, pub_key_hash: &Vec<u8>) -> (r: Vec<TXOutput>)
        ensures
            outs_view(r@) == spec_locked_outs(self.spec_entries(), pub_key_hash@, 0),
    {
        let ghost es: Seq<(Vec<u8>, Vec<TXOutput>)> = self.spec_entries();
        let ghost pkh: Seq<u8> = pub_key_hash@;
        let mut found: Vec<TXOutput> = Vec::new();
        let mut i: usize = 0;
        while i < self.entries.len()
            invariant
                i <= self.entries.len(),
                es == self.spec_entries(),
                pkh == pub_key_hash@,
                es.len() == self.entries.len(),
                spec_locked_outs(es, pkh, 0) == outs_view(found@) + spec_locked_outs(es, pkh, i as int),
            decreases self.entries.len() - i,
        {
            let ghost gi: int = i as int;
            let ghost e: Seq<TxOutV> = outs_view(es[gi].1@);
            let outs = &self.entries[i].1;
            let mut j: usize = 0;
            while j < outs.len()
                invariant
                    j <= outs.len(),
                    gi == i as int,
                    i < self.entries.len(),
                    es == self.spec_entries(),
                    pkh == pub_key_hash@,
                    es.len() == self.entries.len(),
                    outs == &self.entries@[gi].1,
                    e == outs_view(es[gi].1@),
                    e.len() == outs.len(),
                    spec_locked_outs(es, pkh, 0) == outs_view(found@) + locked_in_entry(e, pkh, j as int)
                        + spec_locked_outs(es, pkh, gi + 1),
                decreases outs.len() - j,
            {
                let ghost fb: Seq<TXOutput> = found@;
                proof {
                    assert(e[j as int] == outs@[j as int]@);
                }
                if outs[j].is_locked_with_key(pub_key_hash) {
                    found.push(outs[j].duplicate());
                    proof {
                        assert(outs_view(found@) =~= outs_view(fb).push(e[j as int]));
                        assert(outs_view(fb) + (seq![e[j as int]] + locked_in_entry(e, pkh, j + 1))
                            + spec_locked_outs(es, pkh, gi + 1) =~= outs_view(found@)
                            + locked_in_entry(e, pkh, j + 1) + spec_locked_outs(es, pkh, gi + 1));
                    }
                } else {
                    proof {
                        assert(outs_view(fb) + (Seq::<TxOutV>::empty() + locked_in_entry(
                            e,
                            pkh,
                            j + 1,
                        )) + spec_locked_outs(es, pkh, gi + 1) =~= outs_view(fb) + locked_in_entry(
                            e,
                            pkh,
                            j + 1,
                        ) + spec_locked_outs(es, pkh, gi + 1));
                    }
                }
                j = j + 1;
            }
            proof {
                assert(locked_in_entry(e, pkh, outs@.len() as int) == Seq::<TxOutV>::empty());
                assert(outs_view(found@) + Seq::<TxOutV>::empty() + spec_locked_outs(
                    es,
                    pkh,
                    gi + 1,
                ) =~= outs_view(found@) + spec_locked_outs(es, pkh, gi + 1));
            }
            i = i + 1;
        }
        proof {
            assert(spec_locked_outs(es, pkh, es.len() as int) == Seq::<TxOutV>::empty());
            assert(outs_view(found@) + Seq::<TxOutV>::empty() =~= outs_view(found@));
        }
        found
    }
}

} // verus!
