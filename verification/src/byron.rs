//! Byron-era block processing: epoch-boundary blocks carry no transactions
//! and are skipped; main blocks insert one transaction row per payload,
//! hashed with blake2b-256, then the outputs (with their resolved addresses)
//! and the inputs, inside one transactional working copy per block.

use vstd::prelude::*;
use crate::ledger::OutputRef;
use crate::store::{
    Store, BlockRow, TransactionRow, FatalError, wf_store, store_extends, clone_store,
    lemma_wf_store_eqv, lemma_store_extends_pointwise, lemma_store_extends_trans,
    lemma_store_extends_refl,
};
use crate::era_common::{
    insert_addresses, find_resolved_address, get_outputs_for_inputs, gen_input_to_output_map,
    insert_inputs, distinct_keys, lemma_flat_pos_zero, lemma_flat_pos_step, lemma_flat_pos_total,
};
use crate::codecs::{blake2b256, blake2b256_of};
use crate::lex::{bytes_eq, copy_bytes};

verus! {

/// One output of a Byron transaction, as the decoder hands it over.
pub struct ByronTxOut {
    /// Serialized address, stored and resolved like any other payload.
    pub address: Vec<u8>,
    /// Serialized output, stored verbatim.
    pub payload: Vec<u8>,
}

/// One input of a Byron transaction. The ledger reserves room for encodings
/// beyond the standard one; the core refuses those rather than guess.
pub enum ByronTxIn {
    Standard { hash: Vec<u8>, index: u32 },
    Other { tag: u64, payload: Vec<u8> },
}

/// One Byron transaction, as the decoder hands it over: the body to hash,
/// the full payload to store, and the decoded outputs and inputs.
pub struct ByronTxData {
    pub transaction_payload: Vec<u8>,
    pub full_payload: Vec<u8>,
    pub outputs: Vec<ByronTxOut>,
    pub inputs: Vec<ByronTxIn>,
}

/// One Byron block: epoch-boundary blocks carry no transactions.
pub enum ByronBlockData {
    Boundary,
    Main { txs: Vec<ByronTxData> },
}

/// The candidate batch carries this address payload.
spec fn cands_cover(cands: Seq<(Vec<u8>, i64)>, addr: Seq<u8>) -> bool {
    exists|c2: int| 0 <= c2 < cands.len() && (#[trigger] cands[c2]).0@ == addr
}

/// Some transaction of the block carries an input in the reserved encoding
/// with this tag.
pub open spec fn byron_has_reserved_input(txs: Seq<ByronTxData>, tag: u64) -> bool {
    exists|j: int, b: int|
        #![trigger txs[j].inputs@[b]]
        {
            &&& 0 <= j < txs.len()
            &&& 0 <= b < txs[j].inputs@.len()
            &&& txs[j].inputs@[b] matches ByronTxIn::Other { tag: t, .. }
            &&& t == tag
        }
}

/// Some transaction of the block spends the output identified by
/// (producing tx hash, index).
pub open spec fn byron_references(txs: Seq<ByronTxData>, h: Seq<u8>, idx: int) -> bool {
    exists|j: int, b: int|
        #![trigger txs[j].inputs@[b]]
        {
            &&& 0 <= j < txs.len()
            &&& 0 <= b < txs[j].inputs@.len()
            &&& txs[j].inputs@[b] matches ByronTxIn::Standard { hash, index }
            &&& hash@ == h
            &&& index == idx
        }
}

/// The output table holds a row for output `o` of the transaction with row
/// id `tx_row_id`, storing this payload.
pub open spec fn byron_output_row_in(
    rows: Seq<crate::store::TransactionOutputRow>,
    tx_row_id: int,
    o: int,
    payload: Seq<u8>,
) -> bool {
    exists|i: int|
        0 <= i < rows.len() && (#[trigger] rows[i]).tx_id == tx_row_id && rows[i].output_index == o
            && rows[i].payload@ == payload
}

/// The input table holds a row for input `b` of the transaction with row id
/// `tx_row_id`.
pub open spec fn byron_input_row_in(
    rows: Seq<crate::store::TransactionInputRow>,
    tx_row_id: int,
    b: int,
) -> bool {
    exists|i: int|
        0 <= i < rows.len() && (#[trigger] rows[i]).tx_id == tx_row_id && rows[i].input_index == b
}

/// `h` is the identity (body digest) of one of the block's transactions.
pub open spec fn byron_tx_identity(txs: Seq<ByronTxData>, j: int, h: Seq<u8>) -> bool {
    0 <= j < txs.len() && h == blake2b256_of(txs[j].transaction_payload@)
}

/// `h` identifies a transaction of the block that clashes: either a stored
/// row already carries it, or a second transaction of the block shares it.
pub open spec fn byron_duplicate_identity(
    txs: Seq<ByronTxData>,
    prior: Seq<crate::store::TransactionRow>,
    h: Seq<u8>,
) -> bool {
    exists|j: int|
        #[trigger] byron_tx_identity(txs, j, h) && (crate::store::has_tx_hash(prior, h)
            || exists|j2: int| j2 != j && #[trigger] byron_tx_identity(txs, j2, h))
}

/// Converts a Byron input to the common output reference; the reserved
/// encoding is refused as unsupported.
pub fn byron_input_to_alonzo(input: &ByronTxIn) -> (r: Result<OutputRef, FatalError>)
    ensures
        match r {
            Ok(oref) => input matches ByronTxIn::Standard { hash, index } && oref.hash@ == hash@
                && oref.index == index as u64,
            Err(e) => input matches ByronTxIn::Other { tag, .. } && e matches
                FatalError::UnsupportedInput { tag: t } && t == tag,
        },
{
    match input {
        ByronTxIn::Standard { hash, index } => Ok(
            OutputRef { hash: copy_bytes(hash), index: *index as u64 },
        ),
        ByronTxIn::Other { tag, .. } => Err(FatalError::UnsupportedInput { tag: *tag }),
    }
}

/// Resolves the outputs' addresses and inserts one output row per output of
/// the transaction, leaving every other table (and the transaction table in
/// particular) untouched.
#[verifier::loop_isolation(false)]
#[verifier::rlimit(100)]
fn insert_byron_outputs(work: &mut Store, tx_id: i64, outputs: &Vec<ByronTxOut>) -> (r: Result<
    (),
    FatalError,
>)
    requires
        wf_store(*old(work)),
        0 < tx_id <= old(work).transactions@.len(),
        forall|i: int|
            0 <= i < old(work).outputs@.len() ==> (#[trigger] old(work).outputs@[i]).tx_id < tx_id,
    ensures
        match r {
            Ok(_) => {
                &&& wf_store(*final(work))
                &&& store_extends(*old(work), *final(work))
                &&& final(work).transactions == old(work).transactions
                &&& final(work).blocks == old(work).blocks
                &&& final(work).inputs == old(work).inputs
                &&& forall|i: int|
                    0 <= i < old(work).outputs@.len() ==> final(work).outputs@[i] == old(
                        work,
                    ).outputs@[i]
                &&& final(work).outputs@.len() == old(work).outputs@.len() + outputs@.len()
                // one row per output, in output order, paying to its
                // resolved address
                &&& forall|o: int|
                    0 <= o < outputs@.len() ==> {
                        let row = #[trigger] final(work).outputs@[old(work).outputs@.len() + o];
                        &&& row.tx_id == tx_id
                        &&& row.output_index == o
                        &&& row.payload@ == outputs@[o].payload@
                        &&& 0 < row.address_id <= final(work).addresses@.len()
                        &&& final(work).addresses@[row.address_id - 1].payload@
                            == crate::era_common::trunc_spec(outputs@[o].address@)
                    }
            },
            Err(e) => wf_store(*final(work)) && store_extends(*old(work), *final(work))
                && e matches FatalError::CapacityExceeded,
        },
{
    let ghost w0 = *work;
    proof {
        lemma_store_extends_refl(w0);
    }
    // resolve the addresses in one deduplicated batch
    let mut cands: Vec<(Vec<u8>, i64)> = Vec::new();
    let mut o: usize = 0;
    while o < outputs.len()
        invariant
            0 <= o <= outputs@.len(),
            distinct_keys(cands@),
            *work == w0,
            forall|o2: int|
                0 <= o2 < o ==> cands_cover(cands@, (#[trigger] outputs@[o2]).address@),
        decreases outputs@.len() - o,
    {
        let ghost cands0 = cands@;
        let mut seen = false;
        let mut c: usize = 0;
        while c < cands.len()
            invariant
                0 <= c <= cands@.len(),
                0 <= o < outputs@.len(),
                seen ==> exists|c2: int|
                    0 <= c2 < cands@.len() && (#[trigger] cands@[c2]).0@ == outputs@[
                        o as int].address@,
                !seen ==> forall|c2: int|
                    0 <= c2 < c ==> (#[trigger] cands@[c2]).0@ != outputs@[o as int].address@,
            decreases cands@.len() - c,
        {
            if bytes_eq(cands[c].0.as_slice(), outputs[o].address.as_slice()) {
                seen = true;
            }
            c = c + 1;
        }
        if !seen {
            cands.push((copy_bytes(&outputs[o].address), tx_id));
        }
        proof {
            assert forall|o2: int|
                0 <= o2 < o + 1 implies cands_cover(
                cands@,
                (#[trigger] outputs@[o2]).address@,
            ) by {
                if o2 < o {
                    let c2 = choose|c2: int|
                        0 <= c2 < cands0.len() && (#[trigger] cands0[c2]).0@ == outputs@[
                            o2].address@;
                    assert(cands@[c2] == cands0[c2]);
                } else {
                    if seen {
                        assert(cands@ == cands0);
                        assert(cands_cover(cands@, outputs@[o2].address@));
                    } else {
                        assert(cands@[cands@.len() - 1].0@ == outputs@[o2 as int].address@);
                        assert(cands_cover(cands@, outputs@[o2].address@));
                    }
                }
            }
        }
        o = o + 1;
    }
    let ghost cands_done = cands@;
    let st: u128 = (work.addresses.len() as u128) + (cands.len() as u128);
    if st > (i64::MAX as u128) || st >= (usize::MAX as u128) {
        return Err(FatalError::CapacityExceeded);
    }
    if outputs.len() >= (i32::MAX as usize) {
        return Err(FatalError::CapacityExceeded);
    }
    let resolved = insert_addresses(&cands, work);
    let ghost w_addr = *work;
    proof {
        lemma_store_extends_pointwise(w0, *work);
    }
    // build the output rows, then append
    let base = work.outputs.len();
    let mut rows: Vec<crate::store::TransactionOutputRow> = Vec::new();
    let mut o2: usize = 0;
    while o2 < outputs.len()
        invariant
            0 <= o2 <= outputs@.len(),
            outputs@.len() <= i32::MAX,
            *work == w_addr,
            wf_store(w_addr),
            base == w_addr.outputs@.len(),
            0 < tx_id <= w_addr.transactions@.len(),
            rows@.len() == o2,
            forall|j: int|
                0 <= j < rows@.len() ==> {
                    let row = #[trigger] rows@[j];
                    &&& row.id == base + j + 1
                    &&& row.tx_id == tx_id
                    &&& row.output_index == j
                    &&& row.payload@ == outputs@[j].payload@
                    &&& 0 < row.address_id <= w_addr.addresses@.len()
                    &&& w_addr.addresses@[row.address_id - 1].payload@
                        == crate::era_common::trunc_spec(outputs@[j].address@)
                },
        decreases outputs@.len() - o2,
    {
        proof {
            // the output's address was a candidate, so the batch resolved it
            assert(cands_cover(cands@, outputs@[o2 as int].address@));
            let c2 = choose|c2: int|
                0 <= c2 < cands@.len() && (#[trigger] cands@[c2]).0@ == outputs@[
                    o2 as int].address@;
            assert(crate::era_common::res_has_payload(
                resolved@,
                crate::era_common::trunc_spec(cands@[c2].0@),
            ));
            assert(crate::era_common::res_has_payload(
                resolved@,
                crate::era_common::trunc_spec(outputs@[o2 as int].address@),
            ));
        }
        let entry = match find_resolved_address(&resolved, outputs[o2].address.as_slice()) {
            Some(e) => e,
            None => {
                proof {
                    assert(false);
                }
                return Err(FatalError::MissingAddress { payload: copy_bytes(&outputs[o2].address) });
            },
        };
        if !(0 < entry.model.id && (entry.model.id as u128) <= (work.addresses.len() as u128)) {
            proof {
                assert(false);
            }
            return Err(FatalError::MissingAddress { payload: copy_bytes(&outputs[o2].address) });
        }
        proof {
            assert(crate::store::addr_row_eqv(
                w_addr.addresses@[entry.model.id - 1],
                entry.model,
            ));
        }
        let stc: u128 = (base as u128) + (rows.len() as u128) + 1;
        if stc > (i64::MAX as u128) || stc >= (usize::MAX as u128) {
            return Err(FatalError::CapacityExceeded);
        }
        rows.push(
            crate::store::TransactionOutputRow {
                id: (base + rows.len() + 1) as i64,
                tx_id,
                output_index: o2 as i32,
                address_id: entry.model.id,
                payload: copy_bytes(&outputs[o2].payload),
            },
        );
        o2 = o2 + 1;
    }
    // a fresh transaction owns no stored outputs yet, so the pairs are new
    let mut i: usize = 0;
    while i < work.outputs.len()
        invariant
            0 <= i <= work.outputs@.len(),
            *work == w_addr,
            forall|i2: int| 0 <= i2 < i ==> (#[trigger] work.outputs@[i2]).tx_id != tx_id,
        decreases work.outputs@.len() - i,
    {
        proof {
            assert(work.outputs@[i as int] == w0.outputs@[i as int]);
        }
        if work.outputs[i].tx_id == tx_id {
            proof {
                assert(false);
            }
            return Err(FatalError::DuplicateRow { hash: Vec::new() });
        }
        i = i + 1;
    }
    let ghost rows_v = rows@;
    let mut t: usize = 0;
    while t < rows.len()
        invariant
            0 <= t <= rows@.len(),
            rows@ == rows_v,
            work.blocks == w_addr.blocks,
            work.transactions == w_addr.transactions,
            work.inputs == w_addr.inputs,
            work.addresses == w_addr.addresses,
            work.assets == w_addr.assets,
            work.asset_transfers == w_addr.asset_transfers,
            work.mean_prices == w_addr.mean_prices,
            work.swaps == w_addr.swaps,
            work.outputs@.len() == w_addr.outputs@.len() + t,
            forall|i2: int| 0 <= i2 < w_addr.outputs@.len() ==> work.outputs@[i2] == w_addr.outputs@[i2],
            forall|t2: int|
                0 <= t2 < t ==> crate::store::output_row_eqv(
                    rows_v[t2],
                    #[trigger] work.outputs@[w_addr.outputs@.len() + t2],
                ) && work.outputs@[w_addr.outputs@.len() + t2].id == rows_v[t2].id
                    && work.outputs@[w_addr.outputs@.len() + t2].tx_id == rows_v[t2].tx_id
                    && work.outputs@[w_addr.outputs@.len() + t2].output_index == rows_v[
                    t2].output_index && work.outputs@[w_addr.outputs@.len() + t2].address_id
                    == rows_v[t2].address_id && work.outputs@[w_addr.outputs@.len() + t2].payload@
                    == rows_v[t2].payload@,
        decreases rows@.len() - t,
    {
        work.outputs.push(crate::store::copy_output_row(&rows[t]));
        t = t + 1;
    }
    proof {
        let n0 = w_addr.outputs@.len() as int;
        assert forall|a: int|
            0 <= a < work.outputs@.len() implies (#[trigger] work.outputs@[a]).id == a + 1 && 0
            < work.outputs@[a].tx_id <= work.transactions@.len() && 0 < work.outputs@[a].address_id
            <= work.addresses@.len() && work.outputs@[a].output_index >= 0 by {
            if a < n0 {
                assert(work.outputs@[a] == w_addr.outputs@[a]);
            } else {
                assert(work.outputs@[n0 + (a - n0)].id == rows_v[a - n0].id);
            }
        }
        assert forall|a: int, b: int|
            0 <= a < b < work.outputs@.len() implies !((#[trigger] work.outputs@[a]).tx_id == (
        #[trigger] work.outputs@[b]).tx_id && work.outputs@[a].output_index == work.outputs@[
        b].output_index) by {
            if b < n0 {
                assert(work.outputs@[a] == w_addr.outputs@[a]);
                assert(work.outputs@[b] == w_addr.outputs@[b]);
            } else if a < n0 {
                assert(work.outputs@[a] == w_addr.outputs@[a]);
                assert(work.outputs@[n0 + (b - n0)].tx_id == tx_id);
            } else {
                assert(work.outputs@[n0 + (a - n0)].output_index == rows_v[a - n0].output_index);
                assert(work.outputs@[n0 + (b - n0)].output_index == rows_v[b - n0].output_index);
            }
        }
        assert(wf_store(*work));
        lemma_store_extends_pointwise(w0, *work);
        assert forall|o3: int|
            0 <= o3 < outputs@.len() implies {
            let row = #[trigger] work.outputs@[w0.outputs@.len() + o3];
            &&& row.tx_id == tx_id
            &&& row.output_index == o3
            &&& row.payload@ == outputs@[o3].payload@
            &&& 0 < row.address_id <= work.addresses@.len()
            &&& work.addresses@[row.address_id - 1].payload@ == crate::era_common::trunc_spec(
                outputs@[o3].address@,
            )
        } by {
            assert(work.outputs@[w_addr.outputs@.len() + o3].tx_id == rows_v[o3].tx_id);
        }
    }
    Ok(())
}

/// Processes one Byron block against a transactional working copy of the
/// store: nothing is committed unless every transaction of the block went
/// through, so a failed block leaves no partial rows. Epoch-boundary blocks
/// carry no transactions and commit nothing.
#[verifier::loop_isolation(false)]
#[verifier::rlimit(100)]
#[verifier::spinoff_prover]
pub fn process_byron_block(
    store: &mut Store,
    db_block: &BlockRow,
    byron_block: &ByronBlockData,
) -> (r: Result<(), FatalError>)
    requires
        wf_store(*old(store)),
    ensures
        match r {
            Ok(_) => {
                &&& wf_store(*final(store))
                &&& store_extends(*old(store), *final(store))
                &&& (byron_block matches ByronBlockData::Main { txs } ==> {
                    let n0 = old(store).transactions@.len() as int;
                    &&& final(store).transactions@.len() == n0 + txs@.len()
                    &&& forall|j: int|
                        0 <= j < txs@.len() ==> {
                            let row = #[trigger] final(store).transactions@[n0 + j];
                            &&& row.hash@ == blake2b256_of(txs@[j].transaction_payload@)
                            &&& row.block_id == db_block.id
                            &&& row.tx_index == j
                            &&& row.payload@ == txs@[j].full_payload@
                            &&& row.is_valid
                        }
                })
                &&& (byron_block matches ByronBlockData::Main { txs } ==> {
                    let n0_tx = old(store).transactions@.len() as int;
                    // one output row per decoded output, one input row per
                    // input, each under its transaction's row id
                    &&& forall|j: int, o: int|
                        #![trigger txs@[j].outputs@[o]]
                        0 <= j < txs@.len() && 0 <= o < txs@[j].outputs@.len()
                            ==> byron_output_row_in(
                            final(store).outputs@,
                            n0_tx + j + 1,
                            o,
                            txs@[j].outputs@[o].payload@,
                        )
                    &&& forall|j: int, b: int|
                        #![trigger byron_input_row_in(final(store).inputs@, n0_tx + j + 1, b)]
                        0 <= j < txs@.len() && 0 <= b < txs@[j].inputs@.len()
                            ==> byron_input_row_in(final(store).inputs@, n0_tx + j + 1, b)
                })
                &&& (byron_block matches ByronBlockData::Boundary ==> *final(store) == *old(store))
            },
            Err(e) => {
                &&& *final(store) == *old(store)
                &&& (byron_block matches ByronBlockData::Main { txs } ==> match e {
                    FatalError::UnsupportedInput { tag } => byron_has_reserved_input(txs@, tag),
                    FatalError::MissingOutput { tx_hash, output_index } => byron_references(
                        txs@,
                        tx_hash@,
                        output_index as int,
                    ),
                    FatalError::DuplicateRow { hash } => byron_duplicate_identity(
                        txs@,
                        old(store).transactions@,
                        hash@,
                    ),
                    FatalError::CapacityExceeded => true,
                    _ => false,
                })
            },
        },
{
    let txs = match byron_block {
        ByronBlockData::Boundary => {
            return Ok(());
        },
        ByronBlockData::Main { txs } => txs,
    };
    let mut work = clone_store(store);
    proof {
        lemma_wf_store_eqv(*store, work);
    }
    let ghost s0 = *store;
    let ghost n0 = work.transactions@.len() as int;
    if txs.len() > (i32::MAX as usize) {
        return Err(FatalError::CapacityExceeded);
    }
    let st: u128 = (work.transactions.len() as u128) + (txs.len() as u128);
    if st > (i64::MAX as u128) || st >= (usize::MAX as u128) {
        return Err(FatalError::CapacityExceeded);
    }
    let base = work.transactions.len();
    let mut j: usize = 0;
    while j < txs.len()
        invariant
            0 <= j <= txs@.len(),
            txs@.len() <= i32::MAX,
            wf_store(work),
            store_extends(s0, work),
            base as int == n0,
            n0 == s0.transactions@.len(),
            base + txs@.len() <= i64::MAX,
            base + txs@.len() < usize::MAX,
            work.transactions@.len() == n0 + j,
            forall|j2: int|
                0 <= j2 < j ==> {
                    let row = #[trigger] work.transactions@[n0 + j2];
                    &&& row.hash@ == blake2b256_of(txs@[j2].transaction_payload@)
                    &&& row.block_id == db_block.id
                    &&& row.tx_index == j2
                    &&& row.payload@ == txs@[j2].full_payload@
                    &&& row.is_valid
                },
            forall|j2: int, o: int|
                #![trigger txs@[j2].outputs@[o]]
                0 <= j2 < j && 0 <= o < txs@[j2].outputs@.len() ==> byron_output_row_in(
                    work.outputs@,
                    n0 + j2 + 1,
                    o,
                    txs@[j2].outputs@[o].payload@,
                ),
            forall|j2: int, b2: int|
                #![trigger byron_input_row_in(work.inputs@, n0 + j2 + 1, b2)]
                0 <= j2 < j && 0 <= b2 < txs@[j2].inputs@.len() ==> byron_input_row_in(
                    work.inputs@,
                    n0 + j2 + 1,
                    b2,
                ),
        decreases txs@.len() - j,
    {
        let ghost w_iter = work;
        let tx = &txs[j];
        let digest = blake2b256(tx.transaction_payload.as_slice());
        let tx_hash = vstd::slice::slice_to_vec(digest.as_slice());
        // the transaction identity must be new
        let mut i: usize = 0;
        while i < work.transactions.len()
            invariant
                0 <= i <= work.transactions@.len(),
                work == w_iter,
                forall|i2: int|
                    0 <= i2 < i ==> (#[trigger] work.transactions@[i2]).hash@ != tx_hash@,
            decreases work.transactions@.len() - i,
        {
            if bytes_eq(work.transactions[i].hash.as_slice(), tx_hash.as_slice()) {
                proof {
                    assert(byron_tx_identity(txs@, j as int, tx_hash@));
                    if i < n0 {
                        assert(crate::store::tx_row_eqv(
                            s0.transactions@[i as int],
                            work.transactions@[i as int],
                        ));
                        assert(crate::store::has_tx_hash(s0.transactions@, tx_hash@));
                    } else {
                        assert(work.transactions@[n0 + (i - n0)].hash@ == blake2b256_of(
                            txs@[i - n0].transaction_payload@,
                        ));
                        assert(byron_tx_identity(txs@, i - n0, tx_hash@));
                        assert(i - n0 != j);
                    }
                    assert(byron_duplicate_identity(txs@, s0.transactions@, tx_hash@));
                    assert(s0.transactions@ == old(store).transactions@);
                }
                return Err(FatalError::DuplicateRow { hash: tx_hash });
            }
            i = i + 1;
        }
        let tx_id: i64 = (work.transactions.len() + 1) as i64;
        let ghost w_pre_tx = work;
        work.transactions.push(
            TransactionRow {
                id: tx_id,
                hash: tx_hash,
                block_id: db_block.id,
                tx_index: j as i32,
                payload: copy_bytes(&tx.full_payload),
                is_valid: true,
            },
        );
        proof {
            assert forall|a: int, b: int|
                0 <= a < b < work.transactions@.len() implies (
            #[trigger] work.transactions@[a]).hash@ != (#[trigger] work.transactions@[b]).hash@ by {
                if b < work.transactions@.len() - 1 {
                    assert(work.transactions@[a] == w_pre_tx.transactions@[a]);
                    assert(work.transactions@[b] == w_pre_tx.transactions@[b]);
                } else {
                    assert(work.transactions@[a] == w_pre_tx.transactions@[a]);
                }
            }
            assert(wf_store(work));
            lemma_store_extends_pointwise(w_pre_tx, work);
            lemma_store_extends_trans(s0, w_pre_tx, work);
        }
        // outputs first, inputs after: inputs may spend this block's outputs
        let ghost w_tx = work;
        proof {
            assert forall|i2: int|
                0 <= i2 < work.outputs@.len() implies (#[trigger] work.outputs@[i2]).tx_id
                < tx_id by {
                assert(0 < work.outputs@[i2].tx_id <= w_pre_tx.transactions@.len());
            }
        }
        match insert_byron_outputs(&mut work, tx_id, &tx.outputs) {
            Ok(_) => {},
            Err(e) => {
                return Err(e);
            },
        }
        proof {
            lemma_store_extends_trans(s0, w_tx, work);
        }
        let mut refs: Vec<OutputRef> = Vec::new();
        let mut b: usize = 0;
        while b < tx.inputs.len()
            invariant
                0 <= b <= tx.inputs@.len(),
                tx == &txs@[j as int],
                0 <= j < txs@.len(),
                refs@.len() == b,
                forall|b2: int|
                    0 <= b2 < b ==> {
                        &&& (#[trigger] tx.inputs@[b2]) matches ByronTxIn::Standard { hash, index }
                        &&& refs@[b2].hash@ == hash@
                        &&& refs@[b2].index == index as u64
                    },
            decreases tx.inputs@.len() - b,
        {
            match byron_input_to_alonzo(&tx.inputs[b]) {
                Ok(oref) => {
                    refs.push(oref);
                },
                Err(e) => {
                    proof {
                        assert(tx.inputs@[b as int] == txs@[j as int].inputs@[b as int]);
                        assert(byron_has_reserved_input(txs@, e->UnsupportedInput_tag));
                    }
                    return Err(e);
                },
            }
            b = b + 1;
        }
        if refs.len() > (i32::MAX as usize) {
            return Err(FatalError::CapacityExceeded);
        }
        let sti: u128 = (work.inputs.len() as u128) + (refs.len() as u128);
        if sti > (i64::MAX as u128) || sti >= (usize::MAX as u128) {
            return Err(FatalError::CapacityExceeded);
        }
        let mut inputs: Vec<(Vec<OutputRef>, i64)> = Vec::new();
        inputs.push((refs, tx_id));
        proof {
            lemma_flat_pos_zero(inputs@);
            lemma_flat_pos_step(inputs@, 0);
            lemma_flat_pos_total(inputs@);
        }
        let pairs = get_outputs_for_inputs(&inputs, &work);
        let map = gen_input_to_output_map(&pairs);
        proof {
            assert forall|a2: int, b2: int|
                #![trigger map.entries@[a2].1@[b2]]
                0 <= a2 < map.entries@.len() && 0 <= b2 < map.entries@[a2].1@.len() implies {
                let o = map.entries@[a2].1@[b2].1;
                &&& 0 < o.id <= work.outputs@.len()
                &&& crate::store::output_row_eqv(work.outputs@[o.id - 1], o)
                &&& 0 <= map.entries@[a2].1@[b2].0 <= i32::MAX
            } by {
                let kk = choose|kk: int|
                    0 <= kk < pairs@.len() && (#[trigger] pairs@[kk]).1.hash@ == map.entries@[a2].0@
                        && pairs@[kk].0.output_index == map.entries@[a2].1@[b2].0
                        && crate::store::output_row_eqv(pairs@[kk].0, map.entries@[a2].1@[b2].1);
                assert(crate::store::output_row_eqv(
                    work.outputs@[pairs@[kk].0.id - 1],
                    pairs@[kk].0,
                ));
                assert(work.outputs@[pairs@[kk].0.id - 1].output_index >= 0);
            }
            assert(crate::era_common::map_rows_from_store(map, work));
        }
        let ghost w_in = work;
        let inserted_rows = match insert_inputs(&inputs, &map, &mut work) {
            Ok(rows_ret) => rows_ret,
            Err(e) => {
                proof {
                    match e {
                        FatalError::MissingOutput { ref tx_hash, output_index } => {
                            // the unresolvable reference is one of this
                            // transaction's standard inputs
                            let (a2, b2) = choose|a2: int, b2: int|
                                #![trigger inputs@[a2].0@[b2]]
                                0 <= a2 < inputs@.len() && 0 <= b2 < inputs@[a2].0@.len()
                                    && inputs@[a2].0@[b2].hash@ == tx_hash@ && inputs@[a2].0@[
                                    b2].index == output_index;
                            assert(a2 == 0);
                            assert(refs@[b2] == inputs@[0].0@[b2]);
                            assert({
                                &&& txs@[j as int].inputs@[b2] matches ByronTxIn::Standard {
                                    hash,
                                    index,
                                }
                                &&& hash@ == tx_hash@
                                &&& index as u64 == output_index
                            });
                            assert(byron_references(txs@, tx_hash@, output_index as int));
                        },
                        _ => {},
                    }
                }
                return Err(e);
            },
        };
        proof {
            lemma_store_extends_pointwise(w_in, work);
            lemma_store_extends_trans(s0, w_in, work);
            assert(w_pre_tx == w_iter);
            assert(w_tx.inputs == w_iter.inputs);
            assert(w_tx.outputs == w_iter.outputs);
            assert(w_in.inputs == w_tx.inputs);
            assert(work.inputs@ == w_in.inputs@ + inserted_rows@);
            // the transaction's output and input rows are now in place and
            // earlier transactions' rows are untouched
            assert(w_pre_tx == w_iter);
            assert(w_tx.inputs == w_iter.inputs);
            assert(w_tx.outputs == w_iter.outputs);
            assert(w_in.inputs == w_tx.inputs);
            assert(work.inputs@ == w_in.inputs@ + inserted_rows@);
            assert(work.outputs == w_in.outputs);
            assert forall|j2: int, o: int|
                #![trigger txs@[j2].outputs@[o]]
                0 <= j2 < j + 1 && 0 <= o < txs@[j2].outputs@.len() implies byron_output_row_in(
                work.outputs@,
                n0 + j2 + 1,
                o,
                txs@[j2].outputs@[o].payload@,
            ) by {
                if j2 < j {
                    assert(byron_output_row_in(
                        w_iter.outputs@,
                        n0 + j2 + 1,
                        o,
                        txs@[j2].outputs@[o].payload@,
                    ));
                    let i2 = choose|i2: int|
                        0 <= i2 < w_iter.outputs@.len() && (#[trigger] w_iter.outputs@[i2]).tx_id
                            == n0 + j2 + 1 && w_iter.outputs@[i2].output_index == o
                            && w_iter.outputs@[i2].payload@ == txs@[j2].outputs@[o].payload@;
                    assert(w_in.outputs@[i2] == w_iter.outputs@[i2]);
                    assert(work.outputs@[i2] == w_in.outputs@[i2]);
                } else {
                    let i2 = w_tx.outputs@.len() as int + o;
                    assert(w_in.outputs@[i2].tx_id == tx_id);
                    assert(w_in.outputs@[i2].output_index == o);
                    assert(w_in.outputs@[i2].payload@ == tx.outputs@[o].payload@);
                    assert(work.outputs@[i2] == w_in.outputs@[i2]);
                }
            }
            assert forall|j2: int, b2: int|
                #![trigger byron_input_row_in(work.inputs@, n0 + j2 + 1, b2)]
                0 <= j2 < j + 1 && 0 <= b2 < txs@[j2].inputs@.len() implies byron_input_row_in(
                work.inputs@,
                n0 + j2 + 1,
                b2,
            ) by {
                if j2 < j {
                    assert(byron_input_row_in(w_iter.inputs@, n0 + j2 + 1, b2));
                    let i2 = choose|i2: int|
                        0 <= i2 < w_iter.inputs@.len() && (#[trigger] w_iter.inputs@[i2]).tx_id
                            == n0 + j2 + 1 && w_iter.inputs@[i2].input_index == b2;
                    assert(0 <= i2 < w_in.inputs@.len());
                    assert(work.inputs@[i2] == (w_in.inputs@ + inserted_rows@)[i2]);
                    assert(work.inputs@[i2] == w_in.inputs@[i2]);
                    assert(work.inputs@[i2] == w_iter.inputs@[i2]);
                } else {
                    assert(crate::era_common::row_matches(
                        inputs@,
                        map,
                        w_in.inputs@.len() as int,
                        inserted_rows@,
                        0,
                        b2,
                    ));
                    assert(crate::era_common::flat_pos(inputs@, 0) == 0);
                    assert(inserted_rows@[b2].tx_id == inputs@[0].1);
                    assert(inserted_rows@[b2].input_index == b2);
                    let i2 = w_in.inputs@.len() as int + b2;
                    assert(work.inputs@[i2] == inserted_rows@[b2]);
                }
            }
        }
        j = j + 1;
    }
    let ghost wfin = work;
    *store = work;
    proof {
        assert forall|j2: int, b2: int|
            #![trigger byron_input_row_in(store.inputs@, n0 + j2 + 1, b2)]
            0 <= j2 < txs@.len() && 0 <= b2 < txs@[j2].inputs@.len() implies byron_input_row_in(
            store.inputs@,
            n0 + j2 + 1,
            b2,
        ) by {
            assert(byron_input_row_in(wfin.inputs@, n0 + j2 + 1, b2));
            assert(store.inputs@ == wfin.inputs@);
        }
    }
    Ok(())
}

} // verus!
