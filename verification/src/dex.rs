//! Shared machinery of the exchange-protocol parsers: asset-pair handling,
//! pool-output selection, and the batched insertion of mean-price and swap
//! events. Protocol selection is a closed tagged union dispatched by match.

use vstd::prelude::*;
use crate::ledger::{
    AssetPair, TxOutputData, PlutusDatum, DatumWithHash, DexSwapDirection, shelley_payment_hash,
    get_payment_hash, datum_for_output_spec, get_plutus_datum_for_output,
};
use crate::lex::bytes_eq;
use crate::era_common::hashes_has;
use crate::store::{Store, FatalError, has_asset, wf_store};

verus! {

/// Spec-level view of an asset pair: the ADA sentinel or (policy, name).
pub open spec fn pair_view(p: AssetPair) -> Option<(Seq<u8>, Seq<u8>)> {
    match p {
        None => None,
        Some(q) => Some((q.0@, q.1@)),
    }
}

/// The pair denoted by raw policy and name bytes: both empty is the ADA
/// sentinel, anything else a native asset.
pub open spec fn pair_of(policy: Seq<u8>, name: Seq<u8>) -> Option<(Seq<u8>, Seq<u8>)> {
    if policy.len() == 0 && name.len() == 0 {
        None
    } else {
        Some((policy, name))
    }
}

/// Builds an asset pair, mapping (empty, empty) to the ADA sentinel: ADA is
/// represented by the absence of a native-asset reference, never as a row.
pub fn build_asset(policy_id: Vec<u8>, asset_name: Vec<u8>) -> (r: AssetPair)
    ensures
        pair_view(r) == pair_of(policy_id@, asset_name@),
{
    if policy_id.is_empty() && asset_name.is_empty() {
        None
    } else {
        Some((policy_id, asset_name))
    }
}

/// A fixed ADA overhead applies only to the ADA leg of a pool, never to a
/// native-asset leg.
pub open spec fn reduce_ada_spec(p: Option<(Seq<u8>, Seq<u8>)>, amount: u64) -> u64 {
    if p is None {
        amount
    } else {
        0u64
    }
}

/// Overhead to subtract from one leg: `amount` on the ADA leg, 0 otherwise.
pub fn reduce_ada_amount(pair: &AssetPair, amount: u64) -> (r: u64)
    ensures
        r == reduce_ada_spec(pair_view(*pair), amount),
{
    if pair.is_none() {
        amount
    } else {
        0
    }
}

// ---------------------------------------------------------------------------
// Selecting pool outputs

/// Output `i` pays to one of the given script hashes and carries a datum
/// that the transaction's datum list resolves.
pub open spec fn hash_match_at(
    outputs: Seq<TxOutputData>,
    hashes: Seq<Vec<u8>>,
    datums: Seq<DatumWithHash>,
    i: int,
) -> bool {
    &&& 0 <= i < outputs.len()
    &&& shelley_payment_hash(outputs[i].address@) matches Some(h) && hashes_has(hashes, h)
    &&& datum_for_output_spec(datums, outputs[i].datum_hash) is Some
}

/// Output `i`'s full address is one of the given payloads and its datum
/// resolves.
pub open spec fn addr_match_at(
    outputs: Seq<TxOutputData>,
    addresses: Seq<Vec<u8>>,
    datums: Seq<DatumWithHash>,
    i: int,
) -> bool {
    &&& 0 <= i < outputs.len()
    &&& hashes_has(addresses, outputs[i].address@)
    &&& datum_for_output_spec(datums, outputs[i].datum_hash) is Some
}

/// Selects, in order, the outputs whose payment hash is one of
/// `payment_hashes` and whose datum is known, paired with the datum.
#[verifier::loop_isolation(false)]
pub fn filter_outputs_and_datums_by_hash<'a>(
    outputs: &Vec<TxOutputData>,
    payment_hashes: &Vec<Vec<u8>>,
    plutus_data: &'a Vec<DatumWithHash>,
) -> (r: Vec<(usize, &'a PlutusDatum)>)
    ensures
        forall|k: int|
            0 <= k < r@.len() ==> {
                let e = #[trigger] r@[k];
                &&& hash_match_at(outputs@, payment_hashes@, plutus_data@, e.0 as int)
                &&& datum_for_output_spec(plutus_data@, outputs@[e.0 as int].datum_hash) == Some(
                    *e.1,
                )
            },
        forall|k1: int, k2: int| 0 <= k1 < k2 < r@.len() ==> (#[trigger] r@[k1]).0 < (
        #[trigger] r@[k2]).0,
        forall|i: int|
            hash_match_at(outputs@, payment_hashes@, plutus_data@, i) ==> exists|k: int|
                0 <= k < r@.len() && (#[trigger] r@[k]).0 == i,
{
    let mut result: Vec<(usize, &'a PlutusDatum)> = Vec::new();
    let mut i: usize = 0;
    while i < outputs.len()
        invariant
            0 <= i <= outputs@.len(),
            forall|k: int|
                0 <= k < result@.len() ==> {
                    let e = #[trigger] result@[k];
                    &&& e.0 < i
                    &&& hash_match_at(outputs@, payment_hashes@, plutus_data@, e.0 as int)
                    &&& datum_for_output_spec(plutus_data@, outputs@[e.0 as int].datum_hash)
                        == Some(*e.1)
                },
            forall|k1: int, k2: int| 0 <= k1 < k2 < result@.len() ==> (#[trigger] result@[k1]).0 < (
            #[trigger] result@[k2]).0,
            forall|i2: int|
                0 <= i2 < i && hash_match_at(outputs@, payment_hashes@, plutus_data@, i2)
                    ==> exists|k: int| 0 <= k < result@.len() && (#[trigger] result@[k]).0 == i2,
        decreases outputs@.len() - i,
    {
        let ghost r0 = result@;
        let mut pushed = false;
        match get_payment_hash(outputs[i].address.as_slice()) {
            Some(h) => {
                let mut j: usize = 0;
                let mut listed = false;
                while j < payment_hashes.len()
                    invariant
                        0 <= j <= payment_hashes@.len(),
                        listed == exists|j2: int|
                            0 <= j2 < j && (#[trigger] payment_hashes@[j2])@ == h@,
                    decreases payment_hashes@.len() - j,
                {
                    if bytes_eq(payment_hashes[j].as_slice(), h) {
                        listed = true;
                        proof {
                            assert(payment_hashes@[j as int]@ == h@);
                        }
                    }
                    j = j + 1;
                }
                if listed {
                    match get_plutus_datum_for_output(&outputs[i], plutus_data) {
                        Some(d) => {
                            result.push((i, d));
                            pushed = true;
                        },
                        None => {},
                    }
                }
            },
            None => {},
        }
        proof {
            assert forall|i2: int|
                0 <= i2 < i + 1 && hash_match_at(
                    outputs@,
                    payment_hashes@,
                    plutus_data@,
                    i2,
                ) implies exists|k: int| 0 <= k < result@.len() && (#[trigger] result@[k]).0
                == i2 by {
                if i2 < i {
                    let k = choose|k: int| 0 <= k < r0.len() && (#[trigger] r0[k]).0 == i2;
                    assert(result@[k] == r0[k]);
                } else {
                    if pushed {
                        assert(result@[result@.len() - 1].0 == i);
                    } else {
                        assert(!hash_match_at(outputs@, payment_hashes@, plutus_data@, i as int));
                    }
                }
            }
        }
        i = i + 1;
    }
    result
}

/// Selects, in order, the outputs whose full address payload is one of
/// `addresses` and whose datum is known, paired with the datum.
#[verifier::loop_isolation(false)]
pub fn filter_outputs_and_datums_by_address<'a>(
    outputs: &Vec<TxOutputData>,
    addresses: &Vec<Vec<u8>>,
    plutus_data: &'a Vec<DatumWithHash>,
) -> (r: Vec<(usize, &'a PlutusDatum)>)
    ensures
        forall|k: int|
            0 <= k < r@.len() ==> {
                let e = #[trigger] r@[k];
                &&& addr_match_at(outputs@, addresses@, plutus_data@, e.0 as int)
                &&& datum_for_output_spec(plutus_data@, outputs@[e.0 as int].datum_hash) == Some(
                    *e.1,
                )
            },
        forall|k1: int, k2: int| 0 <= k1 < k2 < r@.len() ==> (#[trigger] r@[k1]).0 < (
        #[trigger] r@[k2]).0,
        forall|i: int|
            addr_match_at(outputs@, addresses@, plutus_data@, i) ==> exists|k: int|
                0 <= k < r@.len() && (#[trigger] r@[k]).0 == i,
{
    let mut result: Vec<(usize, &'a PlutusDatum)> = Vec::new();
    let mut i: usize = 0;
    while i < outputs.len()
        invariant
            0 <= i <= outputs@.len(),
            forall|k: int|
                0 <= k < result@.len() ==> {
                    let e = #[trigger] result@[k];
                    &&& e.0 < i
                    &&& addr_match_at(outputs@, addresses@, plutus_data@, e.0 as int)
                    &&& datum_for_output_spec(plutus_data@, outputs@[e.0 as int].datum_hash)
                        == Some(*e.1)
                },
            forall|k1: int, k2: int| 0 <= k1 < k2 < result@.len() ==> (#[trigger] result@[k1]).0 < (
            #[trigger] result@[k2]).0,
            forall|i2: int|
                0 <= i2 < i && addr_match_at(outputs@, addresses@, plutus_data@, i2) ==> exists|
                    k: int,
                | 0 <= k < result@.len() && (#[trigger] result@[k]).0 == i2,
        decreases outputs@.len() - i,
    {
        let ghost r0 = result@;
        let mut pushed = false;
        let mut j: usize = 0;
        let mut listed = false;
        while j < addresses.len()
            invariant
                0 <= j <= addresses@.len(),
                0 <= i < outputs@.len(),
                listed == exists|j2: int|
                    0 <= j2 < j && (#[trigger] addresses@[j2])@ == outputs@[i as int].address@,
            decreases addresses@.len() - j,
        {
            if bytes_eq(addresses[j].as_slice(), outputs[i].address.as_slice()) {
                listed = true;
                proof {
                    assert(addresses@[j as int]@ == outputs@[i as int].address@);
                }
            }
            j = j + 1;
        }
        if listed {
            match get_plutus_datum_for_output(&outputs[i], plutus_data) {
                Some(d) => {
                    result.push((i, d));
                    pushed = true;
                },
                None => {},
            }
        }
        proof {
            assert forall|i2: int|
                0 <= i2 < i + 1 && addr_match_at(
                    outputs@,
                    addresses@,
                    plutus_data@,
                    i2,
                ) implies exists|k: int| 0 <= k < result@.len() && (#[trigger] result@[k]).0
                == i2 by {
                if i2 < i {
                    let k = choose|k: int| 0 <= k < r0.len() && (#[trigger] r0[k]).0 == i2;
                    assert(result@[k] == r0[k]);
                } else {
                    if pushed {
                        assert(result@[result@.len() - 1].0 == i);
                    } else {
                        assert(!addr_match_at(outputs@, addresses@, plutus_data@, i as int));
                    }
                }
            }
        }
        i = i + 1;
    }
    result
}

// ---------------------------------------------------------------------------
// Queued events, protocols and errors

/// A pool's observed reserve pair, queued for batch insertion.
pub struct QueuedMeanPrice {
    pub tx_id: i64,
    pub address: Vec<u8>,
    pub pool_type: PoolType,
    pub asset1: AssetPair,
    pub asset2: AssetPair,
    pub amount1: u64,
    pub amount2: u64,
}

/// One swap against a pool, queued for batch insertion.
pub struct QueuedSwap {
    pub tx_id: i64,
    pub address: Vec<u8>,
    pub pool_type: PoolType,
    pub asset1: AssetPair,
    pub asset2: AssetPair,
    pub amount1: u64,
    pub amount2: u64,
    pub direction: DexSwapDirection,
}

#[derive(Debug, PartialEq, Eq, Structural)]
pub struct WingRidersV1;

#[derive(Debug, PartialEq, Eq, Structural)]
pub struct MinSwapV1;

#[derive(Debug, PartialEq, Eq, Structural)]
pub struct SundaeSwapV1;

/// Placeholder protocol: exists only to satisfy exhaustive dispatch and must
/// never be invoked.
#[derive(Debug, PartialEq, Eq, Structural)]
pub struct Empty;

impl Empty {
    /// The placeholder recognizes nothing: it queues no event and reports
    /// every transaction as undecodable. Dispatch never reaches it.
    pub fn queue_mean_price(
        &self,
        queued_prices: &mut Vec<QueuedMeanPrice>,
        tx: &crate::ledger::TxData,
        tx_id: i64,
    ) -> (r: Result<(), DexError>)
        ensures
            r is Err,
            *final(queued_prices) == *old(queued_prices),
    {
        Err(DexError::MalformedDatum)
    }

    /// See [`Empty::queue_mean_price`].
    pub fn queue_swap(
        &self,
        queued_swaps: &mut Vec<QueuedSwap>,
        tx: &crate::ledger::TxData,
        tx_id: i64,
        multiera_used_inputs_to_outputs_map: &crate::era_common::InputToOutputMap,
    ) -> (r: Result<(), DexError>)
        ensures
            r is Err,
            *final(queued_swaps) == *old(queued_swaps),
    {
        Err(DexError::MalformedDatum)
    }
}

/// The closed set of recognized exchange-pool implementations.
#[derive(Clone, Copy, Debug, PartialEq, Eq, Structural)]
pub enum PoolType {
    WingRidersV1,
    SundaeSwapV1,
    MinSwapV1,
    MinSwapV2,
}

/// The stored tag of each protocol.
pub open spec fn pool_type_tag(p: PoolType) -> i32 {
    match p {
        PoolType::WingRidersV1 => 0i32,
        PoolType::SundaeSwapV1 => 1i32,
        PoolType::MinSwapV1 => 2i32,
        PoolType::MinSwapV2 => 3i32,
    }
}

impl core::convert::From<PoolType> for i32 {
    fn from(item: PoolType) -> (r: i32) {
        match item {
            PoolType::WingRidersV1 => 0,
            PoolType::SundaeSwapV1 => 1,
            PoolType::MinSwapV1 => 2,
            PoolType::MinSwapV2 => 3,
        }
    }
}

impl vstd::std_specs::convert::FromSpecImpl<PoolType> for i32 {
    open spec fn obeys_from_spec() -> bool {
        true
    }

    open spec fn from_spec(item: PoolType) -> i32 {
        pool_type_tag(item)
    }
}

/// A recoverable decoding failure, scoped to one transaction: the caller
/// logs it and continues, with that transaction's event simply omitted.
#[derive(Clone, Copy, Debug, PartialEq, Eq, Structural)]
pub enum DexError {
    /// A field path led nowhere, or a node had the wrong kind or tag.
    MalformedDatum,
    /// A request's target address matches no remaining output.
    MissingResultOutput,
    /// A reserve or swap amount underflowed its fixed overhead.
    AmountUnderflow,
    /// An input's spent output was absent from the resolved lookup.
    MissingSpentOutput,
}

/// One recoverable failure, recorded with the transaction it came from.
pub struct DexWarning {
    pub tx_id: i64,
    pub error: DexError,
}


/// Amount of one (spec-level) asset leg held by an output.
pub open spec fn amount_view(o: TxOutputData, p: Option<(Seq<u8>, Seq<u8>)>) -> u64 {
    match p {
        None => o.coin,
        Some(q) => crate::ledger::bundle_amount(o.assets@, q.0, q.1),
    }
}

/// The queued mean-price event records pool output `i` of the transaction:
/// its address, the two decoded asset legs, and the amounts each leg holds.
pub open spec fn mean_event_matches(
    e: QueuedMeanPrice,
    tx: crate::ledger::TxData,
    tx_id: i64,
    i: int,
    p1: Option<(Seq<u8>, Seq<u8>)>,
    p2: Option<(Seq<u8>, Seq<u8>)>,
    pt: PoolType,
) -> bool {
    &&& e.tx_id == tx_id
    &&& e.pool_type == pt
    &&& e.address@ == tx.outputs@[i].address@
    &&& pair_view(e.asset1) == p1
    &&& pair_view(e.asset2) == p2
    &&& e.amount1 == amount_view(tx.outputs@[i], p1)
    &&& e.amount2 == amount_view(tx.outputs@[i], p2)
}


/// A fresh asset pair with the same content.
pub fn copy_pair(p: &AssetPair) -> (r: AssetPair)
    ensures
        pair_view(r) == pair_view(*p),
{
    match p {
        None => None,
        Some(q) => Some((crate::lex::copy_bytes(&q.0), crate::lex::copy_bytes(&q.1))),
    }
}

/// First decoded spent output held under (`h`, `idx`), if any.
pub open spec fn spent_lookup(
    spent: Seq<(crate::ledger::OutputRef, TxOutputData)>,
    h: Seq<u8>,
    idx: int,
) -> Option<TxOutputData>
    decreases spent.len(),
{
    if spent.len() == 0 {
        None
    } else if spent[0].0.hash@ == h && spent[0].0.index == idx {
        Some(spent[0].1)
    } else {
        spent_lookup(spent.drop_first(), h, idx)
    }
}

/// Looks the decoded form of a spent output up by its reference.
#[verifier::loop_isolation(false)]
pub fn lookup_spent<'a>(
    spent: &'a Vec<(crate::ledger::OutputRef, TxOutputData)>,
    h: &[u8],
    idx: u64,
) -> (r: Option<&'a TxOutputData>)
    ensures
        match r {
            Some(o) => spent_lookup(spent@, h@, idx as int) == Some(*o),
            None => spent_lookup(spent@, h@, idx as int) is None,
        },
{
    let mut i: usize = 0;
    proof {
        assert(spent@.skip(0) =~= spent@);
    }
    while i < spent.len()
        invariant
            0 <= i <= spent@.len(),
            spent_lookup(spent@.skip(i as int), h@, idx as int) == spent_lookup(
                spent@,
                h@,
                idx as int,
            ),
        decreases spent@.len() - i,
    {
        proof {
            assert(spent@.skip(i as int)[0] == spent@[i as int]);
            assert(spent@.skip(i as int).drop_first() =~= spent@.skip(i as int + 1));
        }
        if spent[i].0.index == idx && bytes_eq(spent[i].0.hash.as_slice(), h) {
            return Some(&spent[i].1);
        }
        i = i + 1;
    }
    None
}


// ---------------------------------------------------------------------------
// Batched insertion of events


/// Output `i` of the transaction is the given protocol's pool output.
pub open spec fn pool_match_of(pool: PoolType, tx: crate::ledger::TxData, i: int) -> bool {
    match pool {
        PoolType::WingRidersV1 => crate::wingriders_v1::wr_pool_match(
            tx.outputs@,
            tx.plutus_data@,
            i,
        ),
        PoolType::SundaeSwapV1 => crate::sundaeswap_v1::sundae_pool_match(
            tx.outputs@,
            tx.plutus_data@,
            i,
        ),
        PoolType::MinSwapV1 => crate::minswap_v1::ms_pool_match(tx.outputs@, tx.plutus_data@, i),
        PoolType::MinSwapV2 => false,
    }
}

/// The transaction has no pool output for the protocol: nothing to queue.
pub open spec fn mean_no_event(pool: PoolType, tx: crate::ledger::TxData) -> bool {
    forall|i: int| !pool_match_of(pool, tx, i)
}

/// `e` is the mean-price event the protocol decodes from the transaction:
/// read off its first pool output under the protocol's field paths and
/// overhead rules.
pub open spec fn mean_event_of(
    pool: PoolType,
    tx: crate::ledger::TxData,
    tx_id: i64,
    e: QueuedMeanPrice,
) -> bool {
    exists|i: int|
        #![trigger pool_match_of(pool, tx, i)]
        {
            &&& pool_match_of(pool, tx, i)
            &&& (forall|i2: int| 0 <= i2 < i ==> !pool_match_of(pool, tx, i2))
            &&& crate::ledger::datum_for_output_spec(
                tx.plutus_data@,
                tx.outputs@[i].datum_hash,
            ) matches Some(d)
            &&& match pool {
                PoolType::WingRidersV1 => {
                    &&& crate::wingriders_v1::wr_pool_values(d) matches Some(v)
                    &&& crate::wingriders_v1::wr_reserve(tx.outputs@[i], v.0, v.2) == Some(
                        e.amount1,
                    )
                    &&& crate::wingriders_v1::wr_reserve(tx.outputs@[i], v.1, v.3) == Some(
                        e.amount2,
                    )
                    &&& e.tx_id == tx_id
                    &&& e.pool_type == PoolType::WingRidersV1
                    &&& e.address@ == tx.outputs@[i].address@
                    &&& pair_view(e.asset1) == v.0
                    &&& pair_view(e.asset2) == v.1
                },
                PoolType::SundaeSwapV1 => {
                    &&& crate::sundaeswap_v1::sundae_pool_pairs(d) matches Some(pairs)
                    &&& mean_event_matches(e, tx, tx_id, i, pairs.0, pairs.1, pool)
                },
                PoolType::MinSwapV1 => {
                    &&& crate::minswap_v1::ms_pool_pairs(d) matches Some(pairs)
                    &&& mean_event_matches(e, tx, tx_id, i, pairs.0, pairs.1, pool)
                },
                PoolType::MinSwapV2 => false,
            }
        }
}

/// The transaction has a pool output but its datum does not decode (or, for
/// the protocol with treasury adjustments, a reserve underflows): the
/// transaction is reported and skipped.
pub open spec fn mean_decode_fails(pool: PoolType, tx: crate::ledger::TxData) -> bool {
    exists|i: int|
        #![trigger pool_match_of(pool, tx, i)]
        {
            &&& pool_match_of(pool, tx, i)
            &&& (forall|i2: int| 0 <= i2 < i ==> !pool_match_of(pool, tx, i2))
            &&& crate::ledger::datum_for_output_spec(
                tx.plutus_data@,
                tx.outputs@[i].datum_hash,
            ) matches Some(d)
            &&& match pool {
                PoolType::WingRidersV1 => crate::wingriders_v1::wr_pool_values(d) is None || (
                crate::wingriders_v1::wr_pool_values(d) matches Some(v) && (
                crate::wingriders_v1::wr_reserve(tx.outputs@[i], v.0, v.2) is None
                    || crate::wingriders_v1::wr_reserve(tx.outputs@[i], v.1, v.3) is None)),
                PoolType::SundaeSwapV1 => crate::sundaeswap_v1::sundae_pool_pairs(d) is None,
                PoolType::MinSwapV1 => crate::minswap_v1::ms_pool_pairs(d) is None,
                PoolType::MinSwapV2 => false,
            }
        }
}

/// Full behaviour of one mean-price parsing step: the protocol either has
/// no pool output (success, nothing queued), decodes an event (success, that
/// one event appended), or fails to decode (error, nothing queued).
pub open spec fn mean_step_ok(
    pool: PoolType,
    tx: crate::ledger::TxData,
    tx_id: i64,
    q0: Seq<QueuedMeanPrice>,
    q1: Seq<QueuedMeanPrice>,
    r: Result<(), DexError>,
) -> bool {
    ||| (r is Ok && q1 == q0 && mean_no_event(pool, tx))
    ||| (r is Ok && q1.len() == q0.len() + 1 && (forall|k: int| 0 <= k < q0.len() ==> q1[k] == q0[k])
        && mean_event_of(pool, tx, tx_id, q1.last()))
    ||| (r is Err && q1 == q0 && mean_decode_fails(pool, tx))
}

/// One transaction produces at most one of the three outcomes: an event
/// excludes a decode failure and both exclude the no-pool case.
pub proof fn lemma_mean_outcomes_exclusive(pool: PoolType, tx: crate::ledger::TxData, tx_id: i64)
    requires
        mean_decode_fails(pool, tx),
    ensures
        forall|e: QueuedMeanPrice| !mean_event_of(pool, tx, tx_id, e),
        !mean_no_event(pool, tx),
{
    let i_f = choose|i: int|
        #![trigger pool_match_of(pool, tx, i)]
        {
            &&& pool_match_of(pool, tx, i)
            &&& (forall|i2: int| 0 <= i2 < i ==> !pool_match_of(pool, tx, i2))
            &&& crate::ledger::datum_for_output_spec(
                tx.plutus_data@,
                tx.outputs@[i].datum_hash,
            ) matches Some(d)
            &&& match pool {
                PoolType::WingRidersV1 => crate::wingriders_v1::wr_pool_values(d) is None || (
                crate::wingriders_v1::wr_pool_values(d) matches Some(v) && (
                crate::wingriders_v1::wr_reserve(tx.outputs@[i], v.0, v.2) is None
                    || crate::wingriders_v1::wr_reserve(tx.outputs@[i], v.1, v.3) is None)),
                PoolType::SundaeSwapV1 => crate::sundaeswap_v1::sundae_pool_pairs(d) is None,
                PoolType::MinSwapV1 => crate::minswap_v1::ms_pool_pairs(d) is None,
                PoolType::MinSwapV2 => false,
            }
        };
    assert(pool_match_of(pool, tx, i_f));
    assert forall|e: QueuedMeanPrice| !mean_event_of(pool, tx, tx_id, e) by {
        if mean_event_of(pool, tx, tx_id, e) {
            let i_e = choose|i: int|
                #![trigger pool_match_of(pool, tx, i)]
                {
                    &&& pool_match_of(pool, tx, i)
                    &&& (forall|i2: int| 0 <= i2 < i ==> !pool_match_of(pool, tx, i2))
                    &&& crate::ledger::datum_for_output_spec(
                        tx.plutus_data@,
                        tx.outputs@[i].datum_hash,
                    ) matches Some(d)
                    &&& match pool {
                        PoolType::WingRidersV1 => {
                            &&& crate::wingriders_v1::wr_pool_values(d) matches Some(v)
                            &&& crate::wingriders_v1::wr_reserve(tx.outputs@[i], v.0, v.2)
                                == Some(e.amount1)
                            &&& crate::wingriders_v1::wr_reserve(tx.outputs@[i], v.1, v.3)
                                == Some(e.amount2)
                            &&& e.tx_id == tx_id
                            &&& e.pool_type == PoolType::WingRidersV1
                            &&& e.address@ == tx.outputs@[i].address@
                            &&& pair_view(e.asset1) == v.0
                            &&& pair_view(e.asset2) == v.1
                        },
                        PoolType::SundaeSwapV1 => {
                            &&& crate::sundaeswap_v1::sundae_pool_pairs(d) matches Some(pairs)
                            &&& mean_event_matches(e, tx, tx_id, i, pairs.0, pairs.1, pool)
                        },
                        PoolType::MinSwapV1 => {
                            &&& crate::minswap_v1::ms_pool_pairs(d) matches Some(pairs)
                            &&& mean_event_matches(e, tx, tx_id, i, pairs.0, pairs.1, pool)
                        },
                        PoolType::MinSwapV2 => false,
                    }
                };
            // both indexes are the least pool match, so they coincide, and
            // the datum cannot both decode and fail to decode
            if i_e < i_f {
                assert(!pool_match_of(pool, tx, i_e));
            } else if i_f < i_e {
                assert(!pool_match_of(pool, tx, i_f));
            }
            assert(i_e == i_f);
            assert(false);
        }
    }
}


/// The transaction decodes some mean-price event for the protocol.
pub open spec fn tx_queues_event(pool: PoolType, tx: crate::ledger::TxData, tx_id: i64) -> bool {
    exists|e: QueuedMeanPrice| mean_event_of(pool, tx, tx_id, e)
}

/// The queued event is the decoded event of one of the block's valid
/// transactions.
pub open spec fn queued_event_entry(
    e: QueuedMeanPrice,
    pool: PoolType,
    txs: Seq<crate::ledger::TxData>,
    txrows: Seq<crate::store::TransactionRow>,
) -> bool {
    exists|k: int|
        0 <= k < txs.len() && k < txrows.len() && (#[trigger] txrows[k]).is_valid && mean_event_of(
            pool,
            txs[k],
            txrows[k].id,
            e,
        )
}

/// The queued event is the decoded event of a valid transaction among the
/// first `upto` of the block.
pub open spec fn queued_event_entry_upto(
    e: QueuedMeanPrice,
    pool: PoolType,
    txs: Seq<crate::ledger::TxData>,
    txrows: Seq<crate::store::TransactionRow>,
    upto: int,
) -> bool {
    exists|k: int|
        0 <= k < upto && k < txs.len() && k < txrows.len() && (#[trigger] txrows[k]).is_valid
            && mean_event_of(pool, txs[k], txrows[k].id, e)
}

/// The queue holds the event transaction `k` decodes.
pub open spec fn queued_has_event_for(
    queued: Seq<QueuedMeanPrice>,
    pool: PoolType,
    txs: Seq<crate::ledger::TxData>,
    txrows: Seq<crate::store::TransactionRow>,
    k: int,
) -> bool {
    exists|j: int|
        0 <= j < queued.len() && (#[trigger] queued[j]).tx_id == txrows[k].id && mean_event_of(
            pool,
            txs[k],
            txrows[k].id,
            queued[j],
        )
}

/// Some row appended at or after `from` realizes the event this transaction
/// decodes.
pub open spec fn mean_row_for_tx(
    rows: Seq<crate::store::DexMeanPriceRow>,
    from: int,
    pool: PoolType,
    tx: crate::ledger::TxData,
    tx_id: i64,
    s0: Store,
    addrs: Seq<crate::era_common::AddressInBlock>,
) -> bool {
    exists|i: int, e: QueuedMeanPrice|
        #![trigger price_row_realizes(rows[i], e, s0, addrs)]
        from <= i < rows.len() && mean_event_of(pool, tx, tx_id, e) && price_row_realizes(
            rows[i],
            e,
            s0,
            addrs,
        )
}

/// The warning list names this transaction id.
pub open spec fn warning_for(ws: Seq<DexWarning>, tx_id: i64) -> bool {
    exists|wi: int| 0 <= wi < ws.len() && (#[trigger] ws[wi]).tx_id == tx_id
}

/// The warning reports a valid transaction among the first `upto` whose
/// pool datum fails to decode.
pub open spec fn mean_warning_sound_upto(
    w: DexWarning,
    pool: PoolType,
    txs: Seq<crate::ledger::TxData>,
    txrows: Seq<crate::store::TransactionRow>,
    upto: int,
) -> bool {
    exists|k: int|
        0 <= k < upto && k < txs.len() && k < txrows.len() && (#[trigger] txrows[k]).is_valid
            && mean_decode_fails(pool, txs[k]) && w.tx_id == txrows[k].id
}

/// The warning reports a valid transaction whose pool datum fails to decode.
pub open spec fn mean_warning_sound(
    w: DexWarning,
    pool: PoolType,
    txs: Seq<crate::ledger::TxData>,
    txrows: Seq<crate::store::TransactionRow>,
) -> bool {
    exists|k: int|
        0 <= k < txs.len() && k < txrows.len() && (#[trigger] txrows[k]).is_valid
            && mean_decode_fails(pool, txs[k]) && w.tx_id == txrows[k].id
}

/// The queued mean price genuinely comes from decoding one of the
/// transaction's pool outputs under the protocol's own rules.
pub open spec fn queued_price_sound(
    pool: PoolType,
    tx: crate::ledger::TxData,
    tx_id: i64,
    e: QueuedMeanPrice,
) -> bool {
    match pool {
        PoolType::WingRidersV1 => exists|i: int|
            {
                &&& #[trigger] crate::wingriders_v1::wr_pool_match(tx.outputs@, tx.plutus_data@, i)
                &&& crate::ledger::datum_for_output_spec(
                    tx.plutus_data@,
                    tx.outputs@[i].datum_hash,
                ) matches Some(d)
                &&& crate::wingriders_v1::wr_pool_values(d) matches Some(v)
                &&& crate::wingriders_v1::wr_reserve(tx.outputs@[i], v.0, v.2) == Some(e.amount1)
                &&& crate::wingriders_v1::wr_reserve(tx.outputs@[i], v.1, v.3) == Some(e.amount2)
                &&& e.tx_id == tx_id
                &&& e.pool_type == PoolType::WingRidersV1
                &&& e.address@ == tx.outputs@[i].address@
                &&& pair_view(e.asset1) == v.0
                &&& pair_view(e.asset2) == v.1
            },
        PoolType::SundaeSwapV1 => exists|i: int|
            {
                &&& #[trigger] crate::sundaeswap_v1::sundae_pool_match(
                    tx.outputs@,
                    tx.plutus_data@,
                    i,
                )
                &&& crate::ledger::datum_for_output_spec(
                    tx.plutus_data@,
                    tx.outputs@[i].datum_hash,
                ) matches Some(d)
                &&& crate::sundaeswap_v1::sundae_pool_pairs(d) matches Some(pairs)
                &&& mean_event_matches(e, tx, tx_id, i, pairs.0, pairs.1, PoolType::SundaeSwapV1)
            },
        PoolType::MinSwapV1 => exists|i: int|
            {
                &&& #[trigger] crate::minswap_v1::ms_pool_match(tx.outputs@, tx.plutus_data@, i)
                &&& crate::ledger::datum_for_output_spec(
                    tx.plutus_data@,
                    tx.outputs@[i].datum_hash,
                ) matches Some(d)
                &&& crate::minswap_v1::ms_pool_pairs(d) matches Some(pairs)
                &&& mean_event_matches(e, tx, tx_id, i, pairs.0, pairs.1, PoolType::MinSwapV1)
            },
        PoolType::MinSwapV2 => false,
    }
}

/// The queued swap genuinely comes from decoding the transaction.
pub open spec fn queued_swap_sound(
    pool: PoolType,
    tx: crate::ledger::TxData,
    tx_id: i64,
    spent: Seq<(crate::ledger::OutputRef, TxOutputData)>,
    e: QueuedSwap,
) -> bool {
    match pool {
        PoolType::SundaeSwapV1 => exists|i: int|
            {
                &&& #[trigger] crate::sundaeswap_v1::sundae_pool_match(
                    tx.outputs@,
                    tx.plutus_data@,
                    i,
                )
                &&& crate::ledger::datum_for_output_spec(
                    tx.plutus_data@,
                    tx.outputs@[i].datum_hash,
                ) matches Some(d)
                &&& crate::sundaeswap_v1::sundae_pool_pairs(d) matches Some(pairs)
                &&& crate::sundaeswap_v1::sundae_swap_event_ok(
                    e,
                    tx,
                    tx_id,
                    spent,
                    i,
                    pairs.0,
                    pairs.1,
                )
            },
        _ => false,
    }
}

/// The stored row realizes the queued mean-price event: same amounts and
/// protocol tag, the address resolved through the block's address map, each
/// asset leg resolved to its store row (the ADA sentinel to no reference).
pub open spec fn price_row_realizes(
    row: crate::store::DexMeanPriceRow,
    e: QueuedMeanPrice,
    s0: crate::store::Store,
    addrs: Seq<crate::era_common::AddressInBlock>,
) -> bool {
    &&& row.tx_id == e.tx_id
    &&& row.dex == pool_type_tag(e.pool_type)
    &&& row.amount1 == e.amount1
    &&& row.amount2 == e.amount2
    &&& exists|k: int|
        0 <= k < addrs.len() && (#[trigger] addrs[k]).model.payload@
            == crate::era_common::trunc_spec(e.address@) && row.address_id == addrs[k].model.id
    &&& match pair_view(e.asset1) {
        None => row.asset1_id is None,
        Some(p) => row.asset1_id matches Some(ai) && 0 < ai <= s0.assets@.len()
            && s0.assets@[ai - 1].policy_id@ == p.0 && s0.assets@[ai - 1].asset_name@ == p.1,
    }
    &&& match pair_view(e.asset2) {
        None => row.asset2_id is None,
        Some(p) => row.asset2_id matches Some(ai) && 0 < ai <= s0.assets@.len()
            && s0.assets@[ai - 1].policy_id@ == p.0 && s0.assets@[ai - 1].asset_name@ == p.1,
    }
}

/// The stored row realizes the queued swap event.
pub open spec fn swap_row_realizes(
    row: crate::store::DexSwapRow,
    e: QueuedSwap,
    s0: crate::store::Store,
    addrs: Seq<crate::era_common::AddressInBlock>,
) -> bool {
    &&& row.tx_id == e.tx_id
    &&& row.dex == pool_type_tag(e.pool_type)
    &&& row.amount1 == e.amount1
    &&& row.amount2 == e.amount2
    &&& row.direction == e.direction
    &&& exists|k: int|
        0 <= k < addrs.len() && (#[trigger] addrs[k]).model.payload@
            == crate::era_common::trunc_spec(e.address@) && row.address_id == addrs[k].model.id
    &&& match pair_view(e.asset1) {
        None => row.asset1_id is None,
        Some(p) => row.asset1_id matches Some(ai) && 0 < ai <= s0.assets@.len()
            && s0.assets@[ai - 1].policy_id@ == p.0 && s0.assets@[ai - 1].asset_name@ == p.1,
    }
    &&& match pair_view(e.asset2) {
        None => row.asset2_id is None,
        Some(p) => row.asset2_id matches Some(ai) && 0 < ai <= s0.assets@.len()
            && s0.assets@[ai - 1].policy_id@ == p.0 && s0.assets@[ai - 1].asset_name@ == p.1,
    }
}

/// Resolves one asset leg against the store: the ADA sentinel maps to no
/// reference without touching the store; a native pair must already be a row.
fn resolve_leg(pair: &AssetPair, store: &Store) -> (r: Result<Option<i64>, FatalError>)
    requires
        crate::store::wf_store(*store),
    ensures
        match r {
            Ok(ai) => match pair_view(*pair) {
                None => ai is None,
                Some(p) => ai matches Some(a) && 0 < a <= store.assets@.len()
                    && store.assets@[a - 1].policy_id@ == p.0 && store.assets@[a - 1].asset_name@
                    == p.1,
            },
            Err(e) => e matches FatalError::MissingAsset { policy_id, asset_name }
                && !crate::store::has_asset(store.assets@, policy_id@, asset_name@) && pair_view(
                *pair,
            ) == Some((policy_id@, asset_name@)),
        },
{
    match pair {
        None => Ok(None),
        Some(p) => {
            let mut k: usize = 0;
            while k < store.assets.len()
                invariant
                    0 <= k <= store.assets@.len(),
                    forall|k2: int|
                        0 <= k2 < k ==> !((#[trigger] store.assets@[k2]).policy_id@ == p.0@
                            && store.assets@[k2].asset_name@ == p.1@),
                    crate::store::wf_store(*store),
                    *pair == Some(*p),
                decreases store.assets@.len() - k,
            {
                if bytes_eq(store.assets[k].policy_id.as_slice(), p.0.as_slice()) && bytes_eq(
                    store.assets[k].asset_name.as_slice(),
                    p.1.as_slice(),
                ) {
                    proof {
                        assert(store.assets@[k as int].id == k + 1);
                    }
                    return Ok(Some(store.assets[k].id));
                }
                k = k + 1;
            }
            Err(
                FatalError::MissingAsset {
                    policy_id: crate::lex::copy_bytes(&p.0),
                    asset_name: crate::lex::copy_bytes(&p.1),
                },
            )
        },
    }
}


/// Dispatches one transaction to the protocol's mean-price parser: whatever
/// the outcome, already queued events stay and every newly queued event is a
/// sound decoding of this transaction.
pub fn queue_mean_price_any(
    pool_type: PoolType,
    queued: &mut Vec<QueuedMeanPrice>,
    tx: &crate::ledger::TxData,
    tx_id: i64,
) -> (r: Result<(), DexError>)
    requires
        pool_type != PoolType::MinSwapV2,
    ensures
        old(queued)@.len() <= final(queued)@.len() <= old(queued)@.len() + 1,
        forall|j: int| 0 <= j < old(queued)@.len() ==> final(queued)@[j] == old(queued)@[j],
        forall|j: int|
            old(queued)@.len() <= j < final(queued)@.len() ==> queued_price_sound(
                pool_type,
                *tx,
                tx_id,
                #[trigger] final(queued)@[j],
            ),
        mean_step_ok(pool_type, *tx, tx_id, old(queued)@, final(queued)@, r),
{
    let ghost q0 = queued@;
    let r = match pool_type {
        PoolType::WingRidersV1 => (WingRidersV1 {}).queue_mean_price(queued, tx, tx_id),
        PoolType::SundaeSwapV1 => (SundaeSwapV1 {}).queue_mean_price(queued, tx, tx_id),
        PoolType::MinSwapV1 => (MinSwapV1 {}).queue_mean_price(queued, tx, tx_id),
        PoolType::MinSwapV2 => (Empty {}).queue_mean_price(queued, tx, tx_id),
    };
    r
}

/// Dispatches one transaction to the protocol's swap parser. Only the
/// SundaeSwap V1 parser is implemented here.
pub fn queue_swap_any(
    pool_type: PoolType,
    queued: &mut Vec<QueuedSwap>,
    tx: &crate::ledger::TxData,
    tx_id: i64,
    multiera_used_inputs_to_outputs_map: &Vec<(crate::ledger::OutputRef, TxOutputData)>,
) -> (r: Result<(), DexError>)
    requires
        pool_type == PoolType::SundaeSwapV1,
    ensures
        old(queued)@.len() <= final(queued)@.len() <= old(queued)@.len() + tx.inputs@.len(),
        forall|j: int| 0 <= j < old(queued)@.len() ==> final(queued)@[j] == old(queued)@[j],
        forall|j: int|
            old(queued)@.len() <= j < final(queued)@.len() ==> queued_swap_sound(
                pool_type,
                *tx,
                tx_id,
                multiera_used_inputs_to_outputs_map@,
                #[trigger] final(queued)@[j],
            ),
        forall|i: int|
            #![trigger crate::sundaeswap_v1::sundae_pool_match(tx.outputs@, tx.plutus_data@, i)]
            (crate::sundaeswap_v1::sundae_pool_match(tx.outputs@, tx.plutus_data@, i) && (forall|
                i2: int,
            |
                0 <= i2 < i ==> !crate::sundaeswap_v1::sundae_pool_match(
                    tx.outputs@,
                    tx.plutus_data@,
                    i2,
                ))) ==> {
                let d = crate::ledger::datum_for_output_spec(
                    tx.plutus_data@,
                    tx.outputs@[i].datum_hash,
                ).unwrap();
                match crate::sundaeswap_v1::sundae_pool_pairs(d) {
                    Some(pairs) => r is Ok ==> crate::sundaeswap_v1::sundae_swaps_settled(
                        old(queued)@.len() as int,
                        final(queued)@,
                        *tx,
                        tx_id,
                        multiera_used_inputs_to_outputs_map@,
                        i,
                        pairs.0,
                        pairs.1,
                    ),
                    None => r is Err && *final(queued) == *old(queued),
                }
            },
        r is Err ==> exists|i: int|
            #[trigger] crate::sundaeswap_v1::sundae_pool_match(tx.outputs@, tx.plutus_data@, i),
{
    (SundaeSwapV1 {}).queue_swap(queued, tx, tx_id, multiera_used_inputs_to_outputs_map)
}


/// Total number of inputs across the block's transactions.
pub open spec fn block_input_count(txs: Seq<crate::ledger::TxData>) -> int
    decreases txs.len(),
{
    if txs.len() == 0 {
        0
    } else {
        block_input_count(txs.drop_last()) + txs.last().inputs@.len()
    }
}

/// Inputs across the first `k` transactions.
pub open spec fn prefix_input_count(txs: Seq<crate::ledger::TxData>, k: int) -> int {
    block_input_count(txs.take(k))
}

pub proof fn lemma_prefix_input_step(txs: Seq<crate::ledger::TxData>, k: int)
    requires
        0 <= k < txs.len(),
    ensures
        prefix_input_count(txs, k + 1) == prefix_input_count(txs, k) + txs[k].inputs@.len(),
{
    assert(txs.take(k + 1).drop_last() =~= txs.take(k));
    assert(txs.take(k + 1).last() == txs[k]);
}

pub proof fn lemma_prefix_input_bounds(txs: Seq<crate::ledger::TxData>, k: int)
    requires
        0 <= k <= txs.len(),
    ensures
        0 <= prefix_input_count(txs, k) <= block_input_count(txs),
    decreases txs.len() - k,
{
    lemma_block_input_count_nonneg(txs.take(k));
    if k < txs.len() {
        lemma_prefix_input_step(txs, k);
        lemma_prefix_input_bounds(txs, k + 1);
    } else {
        assert(txs.take(txs.len() as int) =~= txs);
    }
}

pub proof fn lemma_block_input_count_nonneg(txs: Seq<crate::ledger::TxData>)
    ensures
        block_input_count(txs) >= 0,
    decreases txs.len(),
{
    if txs.len() > 0 {
        lemma_block_input_count_nonneg(txs.drop_last());
    }
}

/// The queued mean price decodes one of the block's valid transactions.
pub open spec fn queued_price_entry_sound(
    e: QueuedMeanPrice,
    pool: PoolType,
    txs: Seq<crate::ledger::TxData>,
    txrows: Seq<crate::store::TransactionRow>,
) -> bool {
    exists|k: int|
        0 <= k < txs.len() && k < txrows.len() && (#[trigger] txrows[k]).is_valid
            && queued_price_sound(pool, txs[k], txrows[k].id, e)
}

/// The queued swap decodes one of the block's valid transactions.
pub open spec fn queued_swap_entry_sound(
    e: QueuedSwap,
    pool: PoolType,
    txs: Seq<crate::ledger::TxData>,
    txrows: Seq<crate::store::TransactionRow>,
    spent: Seq<(crate::ledger::OutputRef, TxOutputData)>,
) -> bool {
    exists|k: int|
        0 <= k < txs.len() && k < txrows.len() && (#[trigger] txrows[k]).is_valid
            && queued_swap_sound(pool, txs[k], txrows[k].id, spent, e)
}

/// The warning reports a valid transaction that has a pool output for the
/// protocol (only such transactions can fail to decode).
pub open spec fn swap_warning_sound(
    w: DexWarning,
    txs: Seq<crate::ledger::TxData>,
    txrows: Seq<crate::store::TransactionRow>,
) -> bool {
    exists|k: int|
        0 <= k < txs.len() && k < txrows.len() && (#[trigger] txrows[k]).is_valid && w.tx_id
            == txrows[k].id && (exists|i: int|
            #[trigger] crate::sundaeswap_v1::sundae_pool_match(
                txs[k].outputs@,
                txs[k].plutus_data@,
                i,
            ))
}

/// The stored mean-price row is a sound decoding of one of the block's valid
/// transactions, realized against the resolved address and asset rows.
pub open spec fn price_row_sound(
    row: crate::store::DexMeanPriceRow,
    pool: PoolType,
    txs: Seq<crate::ledger::TxData>,
    txrows: Seq<crate::store::TransactionRow>,
    s0: Store,
    addrs: Seq<crate::era_common::AddressInBlock>,
) -> bool {
    exists|e: QueuedMeanPrice|
        #![trigger price_row_realizes(row, e, s0, addrs)]
        queued_price_entry_sound(e, pool, txs, txrows) && price_row_realizes(row, e, s0, addrs)
}

/// The stored swap row is a sound decoding of one of the block's valid
/// transactions, realized against the resolved address and asset rows.
pub open spec fn swap_row_sound(
    row: crate::store::DexSwapRow,
    pool: PoolType,
    txs: Seq<crate::ledger::TxData>,
    txrows: Seq<crate::store::TransactionRow>,
    spent: Seq<(crate::ledger::OutputRef, TxOutputData)>,
    s0: Store,
    addrs: Seq<crate::era_common::AddressInBlock>,
) -> bool {
    exists|e: QueuedSwap|
        #![trigger swap_row_realizes(row, e, s0, addrs)]
        queued_swap_entry_sound(e, pool, txs, txrows, spent) && swap_row_realizes(row, e, s0, addrs)
}

/// Runs the protocol's parser over every valid transaction of the block, in
/// block order: the returned queue holds exactly one event per valid
/// transaction that decodes one, and the returned warnings name exactly the
/// valid transactions whose pool datum fails to decode.
#[verifier::loop_isolation(false)]
#[verifier::rlimit(100)]
/// One collection step keeps every queue entry tied to the valid
/// transaction that decoded it.
#[verifier::rlimit(100)]
#[verifier::spinoff_prover]
proof fn lemma_collect_step_entries(
    pool_type: PoolType,
    txs: Seq<crate::ledger::TxData>,
    txrows: Seq<crate::store::TransactionRow>,
    k: int,
    qp: Seq<QueuedMeanPrice>,
    q1: Seq<QueuedMeanPrice>,
    res: Result<(), DexError>,
)
    requires
        pool_type != PoolType::MinSwapV2,
        0 <= k < txs.len(),
        k < txrows.len(),
        txrows[k].is_valid,
        mean_step_ok(pool_type, txs[k], txrows[k].id, qp, q1, res),
        forall|j: int|
            0 <= j < qp.len() ==> queued_price_entry_sound(#[trigger] qp[j], pool_type, txs, txrows),
        forall|j: int|
            0 <= j < qp.len() ==> queued_event_entry_upto(
                #[trigger] qp[j],
                pool_type,
                txs,
                txrows,
                k,
            ),
    ensures
        forall|j: int|
            0 <= j < q1.len() ==> queued_price_entry_sound(#[trigger] q1[j], pool_type, txs, txrows),
        forall|j: int|
            0 <= j < q1.len() ==> queued_event_entry(#[trigger] q1[j], pool_type, txs, txrows),
        forall|j: int|
            0 <= j < q1.len() ==> queued_event_entry_upto(
                #[trigger] q1[j],
                pool_type,
                txs,
                txrows,
                k + 1,
            ),
        q1.len() <= qp.len() + 1,
{
    let ktx = txs[k];
    let kid = txrows[k].id;
    assert forall|j: int|
        0 <= j < q1.len() implies queued_price_entry_sound(#[trigger] q1[j], pool_type, txs, txrows)
        && queued_event_entry(q1[j], pool_type, txs, txrows) && queued_event_entry_upto(
        q1[j],
        pool_type,
        txs,
        txrows,
        k + 1,
    ) by {
        if j < qp.len() {
            assert(q1[j] == qp[j]);
            let kj = choose|kj: int|
                0 <= kj < k && kj < txs.len() && kj < txrows.len() && (
                #[trigger] txrows[kj]).is_valid && mean_event_of(
                    pool_type,
                    txs[kj],
                    txrows[kj].id,
                    qp[j],
                );
        } else {
            assert(queued_price_sound(pool_type, ktx, kid, q1[j]));
            assert(mean_event_of(pool_type, ktx, kid, q1[j]));
        }
    }
}

/// One collection step keeps the queue complete for the processed prefix
/// and one event per transaction.
#[verifier::rlimit(100)]
#[verifier::spinoff_prover]
proof fn lemma_collect_step_order(
    pool_type: PoolType,
    txs: Seq<crate::ledger::TxData>,
    txrows: Seq<crate::store::TransactionRow>,
    k: int,
    qp: Seq<QueuedMeanPrice>,
    q1: Seq<QueuedMeanPrice>,
    res: Result<(), DexError>,
)
    requires
        pool_type != PoolType::MinSwapV2,
        forall|k1: int, k2: int|
            0 <= k1 < k2 < txrows.len() ==> (#[trigger] txrows[k1]).id != (#[trigger] txrows[k2]).id,
        0 <= k < txs.len(),
        k < txrows.len(),
        txrows[k].is_valid,
        mean_step_ok(pool_type, txs[k], txrows[k].id, qp, q1, res),
        forall|j: int|
            0 <= j < qp.len() ==> queued_event_entry_upto(
                #[trigger] qp[j],
                pool_type,
                txs,
                txrows,
                k,
            ),
        forall|k2: int|
            0 <= k2 < k && (#[trigger] txrows[k2]).is_valid && tx_queues_event(
                pool_type,
                txs[k2],
                txrows[k2].id,
            ) ==> queued_has_event_for(qp, pool_type, txs, txrows, k2),
        forall|j1: int, j2: int|
            0 <= j1 < j2 < qp.len() ==> (#[trigger] qp[j1]).tx_id != (#[trigger] qp[j2]).tx_id,
    ensures
        forall|k2: int|
            0 <= k2 < k + 1 && (#[trigger] txrows[k2]).is_valid && tx_queues_event(
                pool_type,
                txs[k2],
                txrows[k2].id,
            ) ==> queued_has_event_for(q1, pool_type, txs, txrows, k2),
        forall|j1: int, j2: int|
            0 <= j1 < j2 < q1.len() ==> (#[trigger] q1[j1]).tx_id != (#[trigger] q1[j2]).tx_id,
{
    let ktx = txs[k];
    let kid = txrows[k].id;
    if res is Err {
        lemma_mean_outcomes_exclusive(pool_type, ktx, kid);
    }
    if q1 == qp && res is Ok {
        assert(mean_no_event(pool_type, ktx));
        assert forall|e: QueuedMeanPrice| !mean_event_of(pool_type, ktx, kid, e) by {
            if mean_event_of(pool_type, ktx, kid, e) {
                let i = choose|i: int|
                    #![trigger pool_match_of(pool_type, ktx, i)]
                    pool_match_of(pool_type, ktx, i);
                assert(false);
            }
        }
    }
    assert forall|k2: int|
        0 <= k2 < k + 1 && (#[trigger] txrows[k2]).is_valid && tx_queues_event(
            pool_type,
            txs[k2],
            txrows[k2].id,
        ) implies queued_has_event_for(q1, pool_type, txs, txrows, k2) by {
        if k2 < k {
            let j = choose|j: int|
                0 <= j < qp.len() && (#[trigger] qp[j]).tx_id == txrows[k2].id && mean_event_of(
                    pool_type,
                    txs[k2],
                    txrows[k2].id,
                    qp[j],
                );
            assert(q1[j] == qp[j]);
        } else {
            assert(q1.len() == qp.len() + 1);
            assert(q1[q1.len() - 1].tx_id == kid);
        }
    }
    assert forall|j1: int, j2: int|
        0 <= j1 < j2 < q1.len() implies (#[trigger] q1[j1]).tx_id != (#[trigger] q1[j2]).tx_id by {
        if j2 >= qp.len() {
            let kj = choose|kj: int|
                0 <= kj < k && kj < txs.len() && kj < txrows.len() && (
                #[trigger] txrows[kj]).is_valid && mean_event_of(
                    pool_type,
                    txs[kj],
                    txrows[kj].id,
                    qp[j1],
                );
            assert(q1[j1] == qp[j1]);
            assert(q1[j1].tx_id == txrows[kj].id);
            assert(q1[j2].tx_id == kid);
            assert(txrows[kj].id != kid);
        }
    }
}

/// One collection step preserves the warning bookkeeping: warnings grow by
/// exactly the transaction's decode failure, if it had one.
#[verifier::rlimit(100)]
#[verifier::spinoff_prover]
proof fn lemma_collect_step_warnings(
    pool_type: PoolType,
    txs: Seq<crate::ledger::TxData>,
    txrows: Seq<crate::store::TransactionRow>,
    k: int,
    qp: Seq<QueuedMeanPrice>,
    q1: Seq<QueuedMeanPrice>,
    wp: Seq<DexWarning>,
    w1: Seq<DexWarning>,
    res: Result<(), DexError>,
)
    requires
        pool_type != PoolType::MinSwapV2,
        forall|k1: int, k2: int|
            0 <= k1 < k2 < txrows.len() ==> (#[trigger] txrows[k1]).id != (#[trigger] txrows[k2]).id,
        0 <= k < txs.len(),
        k < txrows.len(),
        txrows[k].is_valid,
        mean_step_ok(pool_type, txs[k], txrows[k].id, qp, q1, res),
        res is Ok ==> w1 == wp,
        res is Err ==> w1.len() == wp.len() + 1 && (forall|wi: int|
            0 <= wi < wp.len() ==> w1[wi] == wp[wi]) && w1.last().tx_id == txrows[k].id,
        forall|wi: int|
            0 <= wi < wp.len() ==> mean_warning_sound_upto(
                #[trigger] wp[wi],
                pool_type,
                txs,
                txrows,
                k,
            ),
        forall|k2: int|
            0 <= k2 < k && (#[trigger] txrows[k2]).is_valid && mean_decode_fails(
                pool_type,
                txs[k2],
            ) ==> warning_for(wp, txrows[k2].id),
        forall|w1i: int, w2i: int|
            0 <= w1i < w2i < wp.len() ==> (#[trigger] wp[w1i]).tx_id != (#[trigger] wp[w2i]).tx_id,
    ensures
        forall|wi: int|
            0 <= wi < w1.len() ==> mean_warning_sound_upto(
                #[trigger] w1[wi],
                pool_type,
                txs,
                txrows,
                k + 1,
            ),
        forall|wi: int|
            0 <= wi < w1.len() ==> mean_warning_sound(#[trigger] w1[wi], pool_type, txs, txrows),
        forall|k2: int|
            0 <= k2 < k + 1 && (#[trigger] txrows[k2]).is_valid && mean_decode_fails(
                pool_type,
                txs[k2],
            ) ==> warning_for(w1, txrows[k2].id),
        forall|w1i: int, w2i: int|
            0 <= w1i < w2i < w1.len() ==> (#[trigger] w1[w1i]).tx_id != (#[trigger] w1[w2i]).tx_id,
{
    let ktx = txs[k];
    let kid = txrows[k].id;
    if res is Ok {
        // whichever success case holds, this transaction's datum did not
        // fail to decode, so no warning is owed for it
        assert(!mean_decode_fails(pool_type, ktx)) by {
            if mean_decode_fails(pool_type, ktx) {
                lemma_mean_outcomes_exclusive(pool_type, ktx, kid);
                if q1 == qp {
                    let i = choose|i: int|
                        #![trigger pool_match_of(pool_type, ktx, i)]
                        pool_match_of(pool_type, ktx, i);
                    assert(mean_no_event(pool_type, ktx));
                    assert(false);
                } else {
                    assert(mean_event_of(pool_type, ktx, kid, q1.last()));
                    assert(false);
                }
            }
        }
    } else {
        assert(mean_decode_fails(pool_type, ktx));
    }
    assert forall|wi: int|
        0 <= wi < w1.len() implies mean_warning_sound_upto(
        #[trigger] w1[wi],
        pool_type,
        txs,
        txrows,
        k + 1,
    ) && mean_warning_sound(w1[wi], pool_type, txs, txrows) by {
        if wi < wp.len() {
            assert(w1[wi] == wp[wi]);
            let kj = choose|kj: int|
                0 <= kj < k && kj < txs.len() && kj < txrows.len() && (
                #[trigger] txrows[kj]).is_valid && mean_decode_fails(pool_type, txs[kj]) && wp[
                wi].tx_id == txrows[kj].id;
        } else {
            assert(w1[wi].tx_id == kid);
        }
    }
    assert forall|k2: int|
        0 <= k2 < k + 1 && (#[trigger] txrows[k2]).is_valid && mean_decode_fails(
            pool_type,
            txs[k2],
        ) implies warning_for(w1, txrows[k2].id) by {
        if k2 < k {
            let wi = choose|wi: int|
                0 <= wi < wp.len() && (#[trigger] wp[wi]).tx_id == txrows[k2].id;
            assert(w1[wi] == wp[wi]);
        } else {
            assert(res is Err);
            assert(w1[w1.len() - 1].tx_id == txrows[k2].id);
        }
    }
    assert forall|w1i: int, w2i: int|
        0 <= w1i < w2i < w1.len() implies (#[trigger] w1[w1i]).tx_id != (
    #[trigger] w1[w2i]).tx_id by {
        if w2i >= wp.len() {
            assert(w1[w1i] == wp[w1i]);
            let kj = choose|kj: int|
                0 <= kj < k && kj < txs.len() && kj < txrows.len() && (
                #[trigger] txrows[kj]).is_valid && mean_decode_fails(pool_type, txs[kj]) && wp[
                w1i].tx_id == txrows[kj].id;
            assert(w1[w1i].tx_id == txrows[kj].id);
            assert(w1[w2i].tx_id == kid);
            assert(txrows[kj].id != kid);
        }
    }
}

#[verifier::loop_isolation(false)]
#[verifier::rlimit(100)]
#[verifier::spinoff_prover]
fn collect_mean_prices(
    pool_type: PoolType,
    block: &crate::ledger::BlockData,
    multiera_txs: &Vec<crate::store::TransactionRow>,
) -> (r: (Vec<QueuedMeanPrice>, Vec<DexWarning>))
    requires
        pool_type != PoolType::MinSwapV2,
        forall|k1: int, k2: int|
            0 <= k1 < k2 < multiera_txs@.len() ==> (#[trigger] multiera_txs@[k1]).id != (
            #[trigger] multiera_txs@[k2]).id,
    ensures
        r.0@.len() <= block.txs@.len(),
        forall|j: int|
            0 <= j < r.0@.len() ==> queued_price_entry_sound(
                #[trigger] r.0@[j],
                pool_type,
                block.txs@,
                multiera_txs@,
            ),
        forall|j: int|
            0 <= j < r.0@.len() ==> queued_event_entry(
                #[trigger] r.0@[j],
                pool_type,
                block.txs@,
                multiera_txs@,
            ),
        forall|k2: int|
            0 <= k2 < block.txs@.len() && k2 < multiera_txs@.len() && (
            #[trigger] multiera_txs@[k2]).is_valid && tx_queues_event(
                pool_type,
                block.txs@[k2],
                multiera_txs@[k2].id,
            ) ==> queued_has_event_for(r.0@, pool_type, block.txs@, multiera_txs@, k2),
        forall|j1: int, j2: int|
            0 <= j1 < j2 < r.0@.len() ==> (#[trigger] r.0@[j1]).tx_id != (#[trigger] r.0@[j2]).tx_id,
        forall|wi: int|
            0 <= wi < r.1@.len() ==> mean_warning_sound(
                #[trigger] r.1@[wi],
                pool_type,
                block.txs@,
                multiera_txs@,
            ),
        forall|k2: int|
            0 <= k2 < block.txs@.len() && k2 < multiera_txs@.len() && (
            #[trigger] multiera_txs@[k2]).is_valid && mean_decode_fails(
                pool_type,
                block.txs@[k2],
            ) ==> warning_for(r.1@, multiera_txs@[k2].id),
        forall|w1: int, w2: int|
            0 <= w1 < w2 < r.1@.len() ==> (#[trigger] r.1@[w1]).tx_id != (#[trigger] r.1@[w2]).tx_id,
{
    let mut queued: Vec<QueuedMeanPrice> = Vec::new();
    let mut warnings: Vec<DexWarning> = Vec::new();
    let n = if block.txs.len() < multiera_txs.len() {
        block.txs.len()
    } else {
        multiera_txs.len()
    };
    let mut k: usize = 0;
    while k < n
        invariant
            0 <= k <= n,
            n <= block.txs@.len() && n <= multiera_txs@.len(),
            queued@.len() <= k,
            forall|j: int|
                0 <= j < queued@.len() ==> queued_price_entry_sound(
                    #[trigger] queued@[j],
                    pool_type,
                    block.txs@,
                    multiera_txs@,
                ),
            forall|j: int|
                0 <= j < queued@.len() ==> queued_event_entry(
                    #[trigger] queued@[j],
                    pool_type,
                    block.txs@,
                    multiera_txs@,
                ),
            forall|j: int|
                0 <= j < queued@.len() ==> queued_event_entry_upto(
                    #[trigger] queued@[j],
                    pool_type,
                    block.txs@,
                    multiera_txs@,
                    k as int,
                ),
            forall|k2: int|
                0 <= k2 < k && (#[trigger] multiera_txs@[k2]).is_valid && tx_queues_event(
                    pool_type,
                    block.txs@[k2],
                    multiera_txs@[k2].id,
                ) ==> queued_has_event_for(queued@, pool_type, block.txs@, multiera_txs@, k2),
            forall|j1: int, j2: int|
                0 <= j1 < j2 < queued@.len() ==> (#[trigger] queued@[j1]).tx_id != (
                #[trigger] queued@[j2]).tx_id,
            forall|wi: int|
                0 <= wi < warnings@.len() ==> mean_warning_sound(
                    #[trigger] warnings@[wi],
                    pool_type,
                    block.txs@,
                    multiera_txs@,
                ),
            forall|wi: int|
                0 <= wi < warnings@.len() ==> mean_warning_sound_upto(
                    #[trigger] warnings@[wi],
                    pool_type,
                    block.txs@,
                    multiera_txs@,
                    k as int,
                ),
            forall|k2: int|
                0 <= k2 < k && (#[trigger] multiera_txs@[k2]).is_valid && mean_decode_fails(
                    pool_type,
                    block.txs@[k2],
                ) ==> warning_for(warnings@, multiera_txs@[k2].id),
            forall|w1: int, w2: int|
                0 <= w1 < w2 < warnings@.len() ==> (#[trigger] warnings@[w1]).tx_id != (
                #[trigger] warnings@[w2]).tx_id,
        decreases n - k,
    {
        if multiera_txs[k].is_valid {
            let ghost qp = queued@;
            let ghost wp = warnings@;
            let res = queue_mean_price_any(
                pool_type,
                &mut queued,
                &block.txs[k],
                multiera_txs[k].id,
            );
            match res {
                Ok(_) => {},
                Err(e) => {
                    warnings.push(DexWarning { tx_id: multiera_txs[k].id, error: e });
                },
            }
            proof {
                lemma_collect_step_entries(
                    pool_type,
                    block.txs@,
                    multiera_txs@,
                    k as int,
                    qp,
                    queued@,
                    res,
                );
                lemma_collect_step_order(
                    pool_type,
                    block.txs@,
                    multiera_txs@,
                    k as int,
                    qp,
                    queued@,
                    res,
                );
                lemma_collect_step_warnings(
                    pool_type,
                    block.txs@,
                    multiera_txs@,
                    k as int,
                    qp,
                    queued@,
                    wp,
                    warnings@,
                    res,
                );
            }
        } else {
        }
        k = k + 1;
    }
    proof {
        assert forall|k2: int|
            0 <= k2 < block.txs@.len() && k2 < multiera_txs@.len() && (
            #[trigger] multiera_txs@[k2]).is_valid && tx_queues_event(
                pool_type,
                block.txs@[k2],
                multiera_txs@[k2].id,
            ) implies queued_has_event_for(
            queued@,
            pool_type,
            block.txs@,
            multiera_txs@,
            k2,
        ) by {
            if tx_queues_event(pool_type, block.txs@[k2], multiera_txs@[k2].id) {
                let e = choose|e: QueuedMeanPrice|
                    mean_event_of(pool_type, block.txs@[k2], multiera_txs@[k2].id, e);
                let i = choose|i: int|
                    #![trigger pool_match_of(pool_type, block.txs@[k2], i)]
                    pool_match_of(pool_type, block.txs@[k2], i);
                assert(k2 < n);
            }
        }
        assert forall|k2: int|
            0 <= k2 < block.txs@.len() && k2 < multiera_txs@.len() && (
            #[trigger] multiera_txs@[k2]).is_valid && mean_decode_fails(
                pool_type,
                block.txs@[k2],
            ) implies warning_for(warnings@, multiera_txs@[k2].id) by {
            if mean_decode_fails(pool_type, block.txs@[k2]) {
                let i = choose|i: int|
                    #![trigger pool_match_of(pool_type, block.txs@[k2], i)]
                    pool_match_of(pool_type, block.txs@[k2], i);
                assert(k2 < n);
            }
        }
    }
    (queued, warnings)
}

/// Parses mean prices out of every valid transaction of the block, resolves
/// the referenced assets and pool addresses in one pass, and inserts all
/// events in one batch. Per-transaction decode failures are returned as
/// warnings; an unresolvable asset or address is fatal and writes nothing.
/// A block producing no event performs no write.
#[verifier::loop_isolation(false)]
#[verifier::rlimit(100)]
pub fn handle_mean_price(
    store: &mut Store,
    block: &crate::ledger::BlockData,
    multiera_txs: &Vec<crate::store::TransactionRow>,
    multiera_addresses: &Vec<crate::era_common::AddressInBlock>,
    pool_type: PoolType,
) -> (r: Result<Vec<DexWarning>, FatalError>)
    requires
        wf_store(*old(store)),
        pool_type != PoolType::MinSwapV2,
        forall|k: int|
            0 <= k < multiera_txs@.len() ==> 0 < (#[trigger] multiera_txs@[k]).id <= old(
                store,
            ).transactions@.len(),
        forall|k1: int, k2: int|
            0 <= k1 < k2 < multiera_txs@.len() ==> (#[trigger] multiera_txs@[k1]).id != (
            #[trigger] multiera_txs@[k2]).id,
        forall|k: int|
            0 <= k < multiera_addresses@.len() ==> 0 < (#[trigger] multiera_addresses@[k]).model.id
                <= old(store).addresses@.len(),
        old(store).mean_prices@.len() + block.txs@.len() <= i64::MAX,
        old(store).mean_prices@.len() + block.txs@.len() < usize::MAX,
    ensures
        match r {
            Ok(_) => {
                &&& wf_store(*final(store))
                &&& final(store).blocks == old(store).blocks
                &&& final(store).transactions == old(store).transactions
                &&& final(store).outputs == old(store).outputs
                &&& final(store).inputs == old(store).inputs
                &&& final(store).addresses == old(store).addresses
                &&& final(store).assets == old(store).assets
                &&& final(store).asset_transfers == old(store).asset_transfers
                &&& final(store).swaps == old(store).swaps
                &&& final(store).mean_prices@.len() >= old(store).mean_prices@.len()
                &&& forall|i: int|
                    0 <= i < old(store).mean_prices@.len() ==> final(store).mean_prices@[i] == old(
                        store,
                    ).mean_prices@[i]
                &&& forall|i: int|
                    old(store).mean_prices@.len() <= i < final(store).mean_prices@.len()
                        ==> price_row_sound(
                        #[trigger] final(store).mean_prices@[i],
                        pool_type,
                        block.txs@,
                        multiera_txs@,
                        *old(store),
                        multiera_addresses@,
                    )
                // every valid transaction that decodes an event got its row
                &&& forall|k: int|
                    0 <= k < block.txs@.len() && k < multiera_txs@.len() && (
                    #[trigger] multiera_txs@[k]).is_valid && tx_queues_event(
                        pool_type,
                        block.txs@[k],
                        multiera_txs@[k].id,
                    ) ==> mean_row_for_tx(
                        final(store).mean_prices@,
                        old(store).mean_prices@.len() as int,
                        pool_type,
                        block.txs@[k],
                        multiera_txs@[k].id,
                        *old(store),
                        multiera_addresses@,
                    )
                // one row per transaction: appended rows cite distinct ids
                &&& forall|i1: int, i2: int|
                    old(store).mean_prices@.len() <= i1 < i2 < final(store).mean_prices@.len()
                        ==> (#[trigger] final(store).mean_prices@[i1]).tx_id != (
                        #[trigger] final(store).mean_prices@[i2]).tx_id
                // the warnings are exactly the valid transactions whose pool
                // datum fails to decode
                &&& (r matches Ok(ws) ==> {
                    &&& forall|wi: int|
                        0 <= wi < ws@.len() ==> mean_warning_sound(
                            #[trigger] ws@[wi],
                            pool_type,
                            block.txs@,
                            multiera_txs@,
                        )
                    &&& forall|k: int|
                        0 <= k < block.txs@.len() && k < multiera_txs@.len() && (
                        #[trigger] multiera_txs@[k]).is_valid && mean_decode_fails(
                            pool_type,
                            block.txs@[k],
                        ) ==> warning_for(ws@, multiera_txs@[k].id)
                    &&& forall|w1: int, w2: int|
                        0 <= w1 < w2 < ws@.len() ==> (#[trigger] ws@[w1]).tx_id != (
                        #[trigger] ws@[w2]).tx_id
                })
            },
            Err(e) => {
                &&& *final(store) == *old(store)
                &&& match e {
                    FatalError::MissingAsset { policy_id, asset_name } => {
                        &&& !has_asset(old(store).assets@, policy_id@, asset_name@)
                        &&& exists|e2: QueuedMeanPrice|
                            #![trigger queued_event_entry(e2, pool_type, block.txs@, multiera_txs@)]
                            queued_event_entry(e2, pool_type, block.txs@, multiera_txs@) && (
                            pair_view(e2.asset1) == Some((policy_id@, asset_name@)) || pair_view(
                                e2.asset2,
                            ) == Some((policy_id@, asset_name@)))
                    },
                    FatalError::MissingAddress { payload } => {
                        &&& !crate::era_common::res_has_payload(
                            multiera_addresses@,
                            crate::era_common::trunc_spec(payload@),
                        )
                        &&& exists|e2: QueuedMeanPrice|
                            #![trigger queued_event_entry(e2, pool_type, block.txs@, multiera_txs@)]
                            queued_event_entry(e2, pool_type, block.txs@, multiera_txs@)
                                && e2.address@ == payload@
                    },
                    _ => false,
                }
            },
        },
{
    let ghost s0 = *store;
    let collected = collect_mean_prices(pool_type, block, multiera_txs);
    let queued = collected.0;
    let warnings = collected.1;
    if queued.len() == 0 {
        proof {
            assert forall|k2: int|
                0 <= k2 < block.txs@.len() && k2 < multiera_txs@.len() && (
                #[trigger] multiera_txs@[k2]).is_valid implies !tx_queues_event(
                pool_type,
                block.txs@[k2],
                multiera_txs@[k2].id,
            ) by {
                if tx_queues_event(pool_type, block.txs@[k2], multiera_txs@[k2].id) {
                    assert(queued_has_event_for(
                        queued@,
                        pool_type,
                        block.txs@,
                        multiera_txs@,
                        k2,
                    ));
                    assert(false);
                }
            }
        }
        return Ok(warnings);
    }
    // resolve ids and build the batch
    let base = store.mean_prices.len();
    let mut rows: Vec<crate::store::DexMeanPriceRow> = Vec::new();
    let mut j: usize = 0;
    while j < queued.len()
        invariant
            0 <= j <= queued@.len(),
            queued@.len() <= block.txs@.len(),
            *store == s0,
            rows@.len() == j,
            forall|j2: int|
                0 <= j2 < j ==> {
                    let row = #[trigger] rows@[j2];
                    &&& row.id == base + j2 + 1
                    &&& 0 < row.tx_id <= s0.transactions@.len()
                    &&& 0 < row.address_id <= s0.addresses@.len()
                    &&& match row.asset1_id {
                        Some(a) => 0 < a <= s0.assets@.len(),
                        None => true,
                    }
                    &&& match row.asset2_id {
                        Some(a) => 0 < a <= s0.assets@.len(),
                        None => true,
                    }
                    &&& price_row_realizes(row, queued@[j2], s0, multiera_addresses@)
                },
        decreases queued@.len() - j,
    {
        let e = &queued[j];
        let entry = match crate::era_common::find_resolved_address(
            multiera_addresses,
            e.address.as_slice(),
        ) {
            Some(en) => en,
            None => {
                proof {
                    assert(queued_event_entry(
                        queued@[j as int],
                        pool_type,
                        block.txs@,
                        multiera_txs@,
                    ));
                }
                return Err(FatalError::MissingAddress { payload: crate::lex::copy_bytes(&e.address) });
            },
        };
        let a1 = match resolve_leg(&e.asset1, store) {
            Ok(a) => a,
            Err(er) => {
                proof {
                    assert(queued_event_entry(
                        queued@[j as int],
                        pool_type,
                        block.txs@,
                        multiera_txs@,
                    ));
                }
                return Err(er);
            },
        };
        let a2 = match resolve_leg(&e.asset2, store) {
            Ok(a) => a,
            Err(er) => {
                proof {
                    assert(queued_event_entry(
                        queued@[j as int],
                        pool_type,
                        block.txs@,
                        multiera_txs@,
                    ));
                }
                return Err(er);
            },
        };
        let row = crate::store::DexMeanPriceRow {
            id: (base + rows.len() + 1) as i64,
            tx_id: e.tx_id,
            address_id: entry.model.id,
            dex: i32::from(e.pool_type),
            asset1_id: a1,
            asset2_id: a2,
            amount1: e.amount1,
            amount2: e.amount2,
        };
        proof {
            // the event's transaction id is a valid row id
            assert(queued_price_entry_sound(queued@[j as int], pool_type, block.txs@, multiera_txs@));
            let kk = choose|kk: int|
                0 <= kk < block.txs@.len() && kk < multiera_txs@.len() && (
                #[trigger] multiera_txs@[kk]).is_valid && queued_price_sound(
                    pool_type,
                    block.txs@[kk],
                    multiera_txs@[kk].id,
                    queued@[j as int],
                );
            assert(price_row_realizes(row, queued@[j as int], s0, multiera_addresses@));
        }
        rows.push(row);
        j = j + 1;
    }
    // append the batch
    let ghost rows_v = rows@;
    let mut t: usize = 0;
    while t < rows.len()
        invariant
            0 <= t <= rows@.len(),
            rows@ == rows_v,
            store.blocks == s0.blocks,
            store.transactions == s0.transactions,
            store.outputs == s0.outputs,
            store.inputs == s0.inputs,
            store.addresses == s0.addresses,
            store.assets == s0.assets,
            store.asset_transfers == s0.asset_transfers,
            store.swaps == s0.swaps,
            store.mean_prices@ == s0.mean_prices@ + rows_v.take(t as int),
        decreases rows@.len() - t,
    {
        store.mean_prices.push(rows[t]);
        proof {
            assert(store.mean_prices@ =~= s0.mean_prices@ + rows_v.take(t as int + 1));
        }
        t = t + 1;
    }
    proof {
        assert(rows_v.take(rows_v.len() as int) =~= rows_v);
        assert forall|i2: int|
            0 <= i2 < store.mean_prices@.len() implies {
            let row = #[trigger] store.mean_prices@[i2];
            &&& row.id == i2 + 1
            &&& 0 < row.tx_id <= store.transactions@.len()
            &&& 0 < row.address_id <= store.addresses@.len()
            &&& match row.asset1_id {
                Some(a) => 0 < a <= store.assets@.len(),
                None => true,
            }
            &&& match row.asset2_id {
                Some(a) => 0 < a <= store.assets@.len(),
                None => true,
            }
        } by {
            if i2 < s0.mean_prices@.len() {
                assert(store.mean_prices@[i2] == s0.mean_prices@[i2]);
            } else {
                assert(store.mean_prices@[i2] == rows_v[i2 - s0.mean_prices@.len()]);
            }
        }
        assert(crate::store::wf_mean_prices(
            store.mean_prices@,
            store.transactions@.len() as int,
            store.addresses@.len() as int,
            store.assets@.len() as int,
        ));
        assert forall|i2: int|
            s0.mean_prices@.len() <= i2 < store.mean_prices@.len() implies price_row_sound(
            #[trigger] store.mean_prices@[i2],
            pool_type,
            block.txs@,
            multiera_txs@,
            s0,
            multiera_addresses@,
        ) by {
            let jj = i2 - s0.mean_prices@.len();
            assert(store.mean_prices@[i2] == rows_v[jj]);
            assert(price_row_realizes(rows_v[jj], queued@[jj], s0, multiera_addresses@));
            assert(queued_price_entry_sound(queued@[jj], pool_type, block.txs@, multiera_txs@));
        }
        // each valid decodable transaction has its row among the appended ones
        let n0 = s0.mean_prices@.len() as int;
        assert forall|k2: int|
            0 <= k2 < block.txs@.len() && k2 < multiera_txs@.len() && (
            #[trigger] multiera_txs@[k2]).is_valid && tx_queues_event(
                pool_type,
                block.txs@[k2],
                multiera_txs@[k2].id,
            ) implies mean_row_for_tx(
            store.mean_prices@,
            n0,
            pool_type,
            block.txs@[k2],
            multiera_txs@[k2].id,
            s0,
            multiera_addresses@,
        ) by {
            assert(queued_has_event_for(queued@, pool_type, block.txs@, multiera_txs@, k2));
            let jj = choose|jj: int|
                0 <= jj < queued@.len() && (#[trigger] queued@[jj]).tx_id == multiera_txs@[k2].id
                    && mean_event_of(
                    pool_type,
                    block.txs@[k2],
                    multiera_txs@[k2].id,
                    queued@[jj],
                );
            assert(store.mean_prices@[n0 + jj] == rows_v[jj]);
            assert(price_row_realizes(rows_v[jj], queued@[jj], s0, multiera_addresses@));
            assert(price_row_realizes(
                store.mean_prices@[n0 + jj],
                queued@[jj],
                s0,
                multiera_addresses@,
            ));
        }
        // appended rows cite pairwise distinct transaction ids
        assert forall|i1: int, i2: int|
            n0 <= i1 < i2 < store.mean_prices@.len() implies (
        #[trigger] store.mean_prices@[i1]).tx_id != (#[trigger] store.mean_prices@[i2]).tx_id by {
            let j1 = i1 - n0;
            let j2 = i2 - n0;
            assert(store.mean_prices@[i1] == rows_v[j1]);
            assert(store.mean_prices@[i2] == rows_v[j2]);
            assert(price_row_realizes(rows_v[j1], queued@[j1], s0, multiera_addresses@));
            assert(price_row_realizes(rows_v[j2], queued@[j2], s0, multiera_addresses@));
            assert(queued@[j1].tx_id != queued@[j2].tx_id);
        }
    }
    Ok(warnings)
}

/// Parses swaps out of every valid transaction of the block, resolving each
/// request input through the spent-output lookup, and inserts all events in
/// one batch. Per-transaction decode failures are returned as warnings; an
/// unresolvable asset or address is fatal and writes nothing.
#[verifier::loop_isolation(false)]
#[verifier::rlimit(100)]
pub fn handle_swap(
    store: &mut Store,
    block: &crate::ledger::BlockData,
    multiera_txs: &Vec<crate::store::TransactionRow>,
    multiera_addresses: &Vec<crate::era_common::AddressInBlock>,
    multiera_used_inputs_to_outputs_map: &Vec<(crate::ledger::OutputRef, TxOutputData)>,
    pool_type: PoolType,
) -> (r: Result<Vec<DexWarning>, FatalError>)
    requires
        wf_store(*old(store)),
        pool_type == PoolType::SundaeSwapV1,
        forall|k: int|
            0 <= k < multiera_txs@.len() ==> 0 < (#[trigger] multiera_txs@[k]).id <= old(
                store,
            ).transactions@.len(),
        forall|k: int|
            0 <= k < multiera_addresses@.len() ==> 0 < (#[trigger] multiera_addresses@[k]).model.id
                <= old(store).addresses@.len(),
        old(store).swaps@.len() + block_input_count(block.txs@)
            <= i64::MAX,
        old(store).swaps@.len() + block_input_count(block.txs@)
            < usize::MAX,
    ensures
        match r {
            Ok(_) => {
                &&& wf_store(*final(store))
                &&& final(store).blocks == old(store).blocks
                &&& final(store).transactions == old(store).transactions
                &&& final(store).outputs == old(store).outputs
                &&& final(store).inputs == old(store).inputs
                &&& final(store).addresses == old(store).addresses
                &&& final(store).assets == old(store).assets
                &&& final(store).asset_transfers == old(store).asset_transfers
                &&& final(store).mean_prices == old(store).mean_prices
                &&& final(store).swaps@.len() >= old(store).swaps@.len()
                &&& forall|i: int|
                    0 <= i < old(store).swaps@.len() ==> final(store).swaps@[i] == old(
                        store,
                    ).swaps@[i]
                &&& forall|i: int|
                    old(store).swaps@.len() <= i < final(store).swaps@.len() ==> swap_row_sound(
                        #[trigger] final(store).swaps@[i],
                        pool_type,
                        block.txs@,
                        multiera_txs@,
                        multiera_used_inputs_to_outputs_map@,
                        *old(store),
                        multiera_addresses@,
                    )
                &&& (r matches Ok(ws) ==> forall|wi: int|
                    0 <= wi < ws@.len() ==> swap_warning_sound(
                        #[trigger] ws@[wi],
                        block.txs@,
                        multiera_txs@,
                    ))
            },
            Err(e) => {
                &&& *final(store) == *old(store)
                &&& match e {
                    FatalError::MissingAsset { policy_id, asset_name } => {
                        &&& !has_asset(old(store).assets@, policy_id@, asset_name@)
                        &&& exists|e2: QueuedSwap|
                            #![trigger queued_swap_entry_sound(e2, pool_type, block.txs@, multiera_txs@, multiera_used_inputs_to_outputs_map@)]
                            queued_swap_entry_sound(
                                e2,
                                pool_type,
                                block.txs@,
                                multiera_txs@,
                                multiera_used_inputs_to_outputs_map@,
                            ) && (pair_view(e2.asset1) == Some((policy_id@, asset_name@))
                                || pair_view(e2.asset2) == Some((policy_id@, asset_name@)))
                    },
                    FatalError::MissingAddress { payload } => {
                        &&& !crate::era_common::res_has_payload(
                            multiera_addresses@,
                            crate::era_common::trunc_spec(payload@),
                        )
                        &&& exists|e2: QueuedSwap|
                            #![trigger queued_swap_entry_sound(e2, pool_type, block.txs@, multiera_txs@, multiera_used_inputs_to_outputs_map@)]
                            queued_swap_entry_sound(
                                e2,
                                pool_type,
                                block.txs@,
                                multiera_txs@,
                                multiera_used_inputs_to_outputs_map@,
                            ) && e2.address@ == payload@
                    },
                    _ => false,
                }
            },
        },
{
    let ghost s0 = *store;
    let spent = multiera_used_inputs_to_outputs_map;
    let mut queued: Vec<QueuedSwap> = Vec::new();
    let mut warnings: Vec<DexWarning> = Vec::new();
    let n = if block.txs.len() < multiera_txs.len() {
        block.txs.len()
    } else {
        multiera_txs.len()
    };
    let mut k: usize = 0;
    while k < n
        invariant
            0 <= k <= n,
            n <= block.txs@.len() && n <= multiera_txs@.len(),
            *store == s0,
            queued@.len() <= prefix_input_count(block.txs@, k as int),
            forall|j: int|
                0 <= j < queued@.len() ==> queued_swap_entry_sound(
                    #[trigger] queued@[j],
                    pool_type,
                    block.txs@,
                    multiera_txs@,
                    spent@,
                ),
            forall|wi: int|
                0 <= wi < warnings@.len() ==> swap_warning_sound(
                    #[trigger] warnings@[wi],
                    block.txs@,
                    multiera_txs@,
                ),
        decreases n - k,
    {
        proof {
            lemma_prefix_input_step(block.txs@, k as int);
            lemma_prefix_input_bounds(block.txs@, k as int + 1);
        }
        if multiera_txs[k].is_valid {
            let ghost qp = queued@;
            let res = queue_swap_any(
                pool_type,
                &mut queued,
                &block.txs[k],
                multiera_txs[k].id,
                spent,
            );
            proof {
                assert forall|j: int|
                    0 <= j < queued@.len() implies queued_swap_entry_sound(
                    #[trigger] queued@[j],
                    pool_type,
                    block.txs@,
                    multiera_txs@,
                    spent@,
                ) by {
                    if j < qp.len() {
                        assert(queued@[j] == qp[j]);
                    } else {
                        assert(queued_swap_sound(
                            pool_type,
                            block.txs@[k as int],
                            multiera_txs@[k as int].id,
                            spent@,
                            queued@[j],
                        ));
                        assert(multiera_txs@[k as int].is_valid);
                    }
                }
            }
            match res {
                Ok(_) => {},
                Err(e) => {
                    let ghost wprev = warnings@;
                    warnings.push(DexWarning { tx_id: multiera_txs[k].id, error: e });
                    proof {
                        assert(swap_warning_sound(
                            warnings@[warnings@.len() - 1],
                            block.txs@,
                            multiera_txs@,
                        ));
                        assert forall|wi: int|
                            0 <= wi < warnings@.len() implies swap_warning_sound(
                            #[trigger] warnings@[wi],
                            block.txs@,
                            multiera_txs@,
                        ) by {
                            if wi < wprev.len() {
                                assert(warnings@[wi] == wprev[wi]);
                            }
                        }
                    }
                },
            }
        }
        k = k + 1;
    }
    if queued.len() == 0 {
        return Ok(warnings);
    }
    let base = store.swaps.len();
    proof {
        lemma_prefix_input_bounds(block.txs@, n as int);
        assert(queued@.len() <= block_input_count(block.txs@));
    }
    let mut rows: Vec<crate::store::DexSwapRow> = Vec::new();
    let mut j: usize = 0;
    while j < queued.len()
        invariant
            0 <= j <= queued@.len(),
            queued@.len() + base <= i64::MAX,
            queued@.len() + base < usize::MAX,
            *store == s0,
            rows@.len() == j,
            forall|j2: int|
                0 <= j2 < j ==> {
                    let row = #[trigger] rows@[j2];
                    &&& row.id == base + j2 + 1
                    &&& 0 < row.tx_id <= s0.transactions@.len()
                    &&& 0 < row.address_id <= s0.addresses@.len()
                    &&& match row.asset1_id {
                        Some(a) => 0 < a <= s0.assets@.len(),
                        None => true,
                    }
                    &&& match row.asset2_id {
                        Some(a) => 0 < a <= s0.assets@.len(),
                        None => true,
                    }
                    &&& swap_row_realizes(row, queued@[j2], s0, multiera_addresses@)
                },
        decreases queued@.len() - j,
    {
        let e = &queued[j];
        let entry = match crate::era_common::find_resolved_address(
            multiera_addresses,
            e.address.as_slice(),
        ) {
            Some(en) => en,
            None => {
                proof {
                    assert(queued_swap_entry_sound(
                        queued@[j as int],
                        pool_type,
                        block.txs@,
                        multiera_txs@,
                        spent@,
                    ));
                }
                return Err(FatalError::MissingAddress { payload: crate::lex::copy_bytes(&e.address) });
            },
        };
        let a1 = match resolve_leg(&e.asset1, store) {
            Ok(a) => a,
            Err(er) => {
                proof {
                    assert(queued_swap_entry_sound(
                        queued@[j as int],
                        pool_type,
                        block.txs@,
                        multiera_txs@,
                        spent@,
                    ));
                }
                return Err(er);
            },
        };
        let a2 = match resolve_leg(&e.asset2, store) {
            Ok(a) => a,
            Err(er) => {
                proof {
                    assert(queued_swap_entry_sound(
                        queued@[j as int],
                        pool_type,
                        block.txs@,
                        multiera_txs@,
                        spent@,
                    ));
                }
                return Err(er);
            },
        };
        let row = crate::store::DexSwapRow {
            id: (base + rows.len() + 1) as i64,
            tx_id: e.tx_id,
            address_id: entry.model.id,
            dex: i32::from(e.pool_type),
            asset1_id: a1,
            asset2_id: a2,
            amount1: e.amount1,
            amount2: e.amount2,
            direction: e.direction,
        };
        proof {
            assert(queued_swap_entry_sound(
                queued@[j as int],
                pool_type,
                block.txs@,
                multiera_txs@,
                spent@,
            ));
            let kk = choose|kk: int|
                0 <= kk < block.txs@.len() && kk < multiera_txs@.len() && (
                #[trigger] multiera_txs@[kk]).is_valid && queued_swap_sound(
                    pool_type,
                    block.txs@[kk],
                    multiera_txs@[kk].id,
                    spent@,
                    queued@[j as int],
                );
            assert(swap_row_realizes(row, queued@[j as int], s0, multiera_addresses@));
        }
        rows.push(row);
        j = j + 1;
    }
    let ghost rows_v = rows@;
    let mut t: usize = 0;
    while t < rows.len()
        invariant
            0 <= t <= rows@.len(),
            rows@ == rows_v,
            store.blocks == s0.blocks,
            store.transactions == s0.transactions,
            store.outputs == s0.outputs,
            store.inputs == s0.inputs,
            store.addresses == s0.addresses,
            store.assets == s0.assets,
            store.asset_transfers == s0.asset_transfers,
            store.mean_prices == s0.mean_prices,
            store.swaps@ == s0.swaps@ + rows_v.take(t as int),
        decreases rows@.len() - t,
    {
        store.swaps.push(rows[t]);
        proof {
            assert(store.swaps@ =~= s0.swaps@ + rows_v.take(t as int + 1));
        }
        t = t + 1;
    }
    proof {
        assert(rows_v.take(rows_v.len() as int) =~= rows_v);
        assert forall|i2: int|
            0 <= i2 < store.swaps@.len() implies {
            let row = #[trigger] store.swaps@[i2];
            &&& row.id == i2 + 1
            &&& 0 < row.tx_id <= store.transactions@.len()
            &&& 0 < row.address_id <= store.addresses@.len()
            &&& match row.asset1_id {
                Some(a) => 0 < a <= store.assets@.len(),
                None => true,
            }
            &&& match row.asset2_id {
                Some(a) => 0 < a <= store.assets@.len(),
                None => true,
            }
        } by {
            if i2 < s0.swaps@.len() {
                assert(store.swaps@[i2] == s0.swaps@[i2]);
            } else {
                assert(store.swaps@[i2] == rows_v[i2 - s0.swaps@.len()]);
            }
        }
        assert(crate::store::wf_swaps(
            store.swaps@,
            store.transactions@.len() as int,
            store.addresses@.len() as int,
            store.assets@.len() as int,
        ));
        assert forall|i2: int|
            s0.swaps@.len() <= i2 < store.swaps@.len() implies swap_row_sound(
            #[trigger] store.swaps@[i2],
            pool_type,
            block.txs@,
            multiera_txs@,
            spent@,
            s0,
            multiera_addresses@,
        ) by {
            let jj = i2 - s0.swaps@.len();
            assert(store.swaps@[i2] == rows_v[jj]);
            assert(swap_row_realizes(rows_v[jj], queued@[jj], s0, multiera_addresses@));
            assert(queued_swap_entry_sound(
                queued@[jj],
                pool_type,
                block.txs@,
                multiera_txs@,
                spent@,
            ));
        }
    }
    Ok(warnings)
}

} // verus!



