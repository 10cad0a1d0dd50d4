//! WingRiders V1: positional decoding of its pool datum into mean-price
//! events, and a small example scan for the protocol's best-known pool.

use vstd::prelude::*;
use crate::ledger::{
    TxData, TxOutputData, PlutusDatum, DatumWithHash, shelley_payment_hash, datum_for_output_spec,
    datum_subfield, datum_sub_bytes, datum_sub_int, nav_field, nav_bytes, nav_int,
    get_asset_amount,
};
use crate::lex::{bytes_eq, copy_bytes};
use crate::store::TransactionRow;
use crate::dex::{
    QueuedMeanPrice, PoolType, WingRidersV1, DexError, pair_view, pair_of, reduce_ada_spec,
    amount_view, build_asset, reduce_ada_amount, hash_match_at, filter_outputs_and_datums_by_hash,
};

verus! {

/// Script hash of the WingRiders V1 pool contract.
pub open spec fn wr_pool_script_hash() -> Seq<u8> {
    seq![0xe6u8, 0xc9u8, 0x0au8, 0x59u8, 0x23u8, 0x71u8, 0x3au8, 0xf5u8, 0x78u8, 0x69u8, 0x63u8, 0xdeu8, 0xe0u8, 0xfdu8, 0xffu8, 0xd8u8, 0x30u8, 0xcau8, 0x7eu8, 0x0cu8, 0x86u8, 0xa0u8, 0x41u8, 0xd9u8, 0xe5u8, 0x83u8, 0x3eu8, 0x91u8]
}

/// Every WingRiders pool UTXO holds this fixed ADA deposit.
pub const WR_V1_POOL_FIXED_ADA: u64 = 3000000;

pub fn pool_script_hash() -> (r: Vec<u8>)
    ensures
        r@ == wr_pool_script_hash(),
{
    let mut v: Vec<u8> = Vec::new();
    v.push(0xe6);
    v.push(0xc9);
    v.push(0x0a);
    v.push(0x59);
    v.push(0x23);
    v.push(0x71);
    v.push(0x3a);
    v.push(0xf5);
    v.push(0x78);
    v.push(0x69);
    v.push(0x63);
    v.push(0xde);
    v.push(0xe0);
    v.push(0xfd);
    v.push(0xff);
    v.push(0xd8);
    v.push(0x30);
    v.push(0xca);
    v.push(0x7e);
    v.push(0x0c);
    v.push(0x86);
    v.push(0xa0);
    v.push(0x41);
    v.push(0xd9);
    v.push(0xe5);
    v.push(0x83);
    v.push(0x3e);
    v.push(0x91);
    proof {
        assert(v@ =~= wr_pool_script_hash());
    }
    v
}

/// Output `i` is the pool output.
pub open spec fn wr_pool_match(
    outputs: Seq<TxOutputData>,
    datums: Seq<DatumWithHash>,
    i: int,
) -> bool {
    &&& 0 <= i < outputs.len()
    &&& shelley_payment_hash(outputs[i].address@) == Some(wr_pool_script_hash())
    &&& datum_for_output_spec(datums, outputs[i].datum_hash) is Some
}

/// Byte item `[1][0][i][j]` of the pool datum: the two asset identifiers.
pub open spec fn wr_asset_item(d: PlutusDatum, i: int, j: int) -> Option<Seq<u8>> {
    datum_sub_bytes(
        datum_subfield(datum_subfield(datum_subfield(datum_subfield(Some(d), 1), 0), i), j),
    )
}

/// Treasury accumulator at `[1][2 + n]` of the pool datum.
pub open spec fn wr_treasury(d: PlutusDatum, n: int) -> Option<u64> {
    datum_sub_int(datum_subfield(datum_subfield(Some(d), 1), 2 + n))
}

/// Everything the mean-price event needs from the pool datum: the two asset
/// legs and the two treasury amounts.
pub open spec fn wr_pool_values(d: PlutusDatum) -> Option<
    (Option<(Seq<u8>, Seq<u8>)>, Option<(Seq<u8>, Seq<u8>)>, u64, u64),
> {
    if wr_asset_item(d, 0, 0) is Some && wr_asset_item(d, 0, 1) is Some && wr_asset_item(d, 1, 0)
        is Some && wr_asset_item(d, 1, 1) is Some && wr_treasury(d, 0) is Some && wr_treasury(d, 1)
        is Some {
        Some(
            (
                pair_of(wr_asset_item(d, 0, 0).unwrap(), wr_asset_item(d, 0, 1).unwrap()),
                pair_of(wr_asset_item(d, 1, 0).unwrap(), wr_asset_item(d, 1, 1).unwrap()),
                wr_treasury(d, 0).unwrap(),
                wr_treasury(d, 1).unwrap(),
            ),
        )
    } else {
        None
    }
}

/// Reserve of one leg: the held amount minus the leg's treasury accumulator
/// and the fixed pool deposit on the ADA leg; None on underflow.
pub open spec fn wr_reserve(
    o: TxOutputData,
    p: Option<(Seq<u8>, Seq<u8>)>,
    treasury: u64,
) -> Option<u64> {
    let full = amount_view(o, p);
    let sub = treasury + reduce_ada_spec(p, WR_V1_POOL_FIXED_ADA);
    if full >= sub {
        Some((full - sub) as u64)
    } else {
        None
    }
}

impl WingRidersV1 {
    /// Queues the pool's reserve pair for the transaction, if it has a pool
    /// output with a well-shaped datum; reserves are adjusted by the treasury
    /// accumulators and the fixed ADA deposit. A malformed datum or an
    /// underflowing reserve is reported and queues nothing.
    #[verifier::loop_isolation(false)]
    #[verifier::rlimit(60)]
    pub fn queue_mean_price(
        &self,
        queued_prices: &mut Vec<QueuedMeanPrice>,
        tx: &TxData,
        tx_id: i64,
    ) -> (r: Result<(), DexError>)
        ensures
            old(queued_prices)@.len() <= final(queued_prices)@.len() <= old(queued_prices)@.len()
                + 1,
            forall|k: int|
                0 <= k < old(queued_prices)@.len() ==> final(queued_prices)@[k] == old(
                    queued_prices,
                )@[k],
            (forall|i: int| !wr_pool_match(tx.outputs@, tx.plutus_data@, i)) ==> (r is Ok
                && *final(queued_prices) == *old(queued_prices)),
            forall|i: int|
                #![trigger wr_pool_match(tx.outputs@, tx.plutus_data@, i)]
                (wr_pool_match(tx.outputs@, tx.plutus_data@, i) && (forall|i2: int|
                    0 <= i2 < i ==> !wr_pool_match(tx.outputs@, tx.plutus_data@, i2))) ==> {
                    let d = datum_for_output_spec(
                        tx.plutus_data@,
                        tx.outputs@[i].datum_hash,
                    ).unwrap();
                    match wr_pool_values(d) {
                        Some(v) => {
                            match (wr_reserve(tx.outputs@[i], v.0, v.2), wr_reserve(
                                tx.outputs@[i],
                                v.1,
                                v.3,
                            )) {
                                (Some(r1), Some(r2)) => {
                                    &&& r is Ok
                                    &&& final(queued_prices)@.len() == old(queued_prices)@.len()
                                        + 1
                                    &&& forall|k: int|
                                        0 <= k < old(queued_prices)@.len()
                                            ==> final(queued_prices)@[k] == old(queued_prices)@[k]
                                    &&& {
                                        let e = final(queued_prices)@.last();
                                        &&& e.tx_id == tx_id
                                        &&& e.pool_type == PoolType::WingRidersV1
                                        &&& e.address@ == tx.outputs@[i].address@
                                        &&& pair_view(e.asset1) == v.0
                                        &&& pair_view(e.asset2) == v.1
                                        &&& e.amount1 == r1
                                        &&& e.amount2 == r2
                                    }
                                },
                                _ => r is Err && *final(queued_prices) == *old(queued_prices),
                            }
                        },
                        None => r is Err && *final(queued_prices) == *old(queued_prices),
                    }
                },
            forall|j: int|
                old(queued_prices)@.len() <= j < final(queued_prices)@.len()
                    ==> crate::dex::queued_price_sound(
                    PoolType::WingRidersV1,
                    *tx,
                    tx_id,
                    #[trigger] final(queued_prices)@[j],
                ),
            (r is Ok && *final(queued_prices) == *old(queued_prices) && crate::dex::mean_no_event(
                PoolType::WingRidersV1,
                *tx,
            )) || (r is Ok && final(queued_prices)@.len() == old(queued_prices)@.len() + 1 && (
            forall|k: int|
                0 <= k < old(queued_prices)@.len() ==> final(queued_prices)@[k] == old(
                    queued_prices,
                )@[k]) && crate::dex::mean_event_of(
                PoolType::WingRidersV1,
                *tx,
                tx_id,
                final(queued_prices)@.last(),
            )) || (r is Err && *final(queued_prices) == *old(queued_prices)
                && crate::dex::mean_decode_fails(PoolType::WingRidersV1, *tx)),
    {
        let ghost q0 = queued_prices@;
        let mut pool_hashes: Vec<Vec<u8>> = Vec::new();
        pool_hashes.push(pool_script_hash());
        let matches = filter_outputs_and_datums_by_hash(&tx.outputs, &pool_hashes, &tx.plutus_data);
        proof {
            assert forall|i: int|
                hash_match_at(tx.outputs@, pool_hashes@, tx.plutus_data@, i) == wr_pool_match(
                    tx.outputs@,
                    tx.plutus_data@,
                    i,
                ) by {
                if wr_pool_match(tx.outputs@, tx.plutus_data@, i) {
                    assert(pool_hashes@[0]@ == wr_pool_script_hash());
                    assert(crate::era_common::hashes_has(pool_hashes@, wr_pool_script_hash()));
                }
                if hash_match_at(tx.outputs@, pool_hashes@, tx.plutus_data@, i) {
                    let h = shelley_payment_hash(tx.outputs@[i].address@).unwrap();
                    let j = choose|j: int|
                        0 <= j < pool_hashes@.len() && (#[trigger] pool_hashes@[j])@ == h;
                    assert(h == wr_pool_script_hash());
                }
            }
        }
        if matches.len() == 0 {
            proof {
                assert forall|i: int| !wr_pool_match(tx.outputs@, tx.plutus_data@, i) by {
                    if wr_pool_match(tx.outputs@, tx.plutus_data@, i) {
                        assert(hash_match_at(tx.outputs@, pool_hashes@, tx.plutus_data@, i));
                    }
                }
            }
            proof {
                assert forall|i: int|
                    !crate::dex::pool_match_of(PoolType::WingRidersV1, *tx, i) by {}
                assert(crate::dex::mean_no_event(PoolType::WingRidersV1, *tx));
            }
            return Ok(());
        }
        let pool_i = matches[0].0;
        let datum = matches[0].1;
        proof {
            assert(wr_pool_match(tx.outputs@, tx.plutus_data@, pool_i as int));
            assert forall|i2: int|
                0 <= i2 < pool_i as int implies !wr_pool_match(
                tx.outputs@,
                tx.plutus_data@,
                i2,
            ) by {
                if wr_pool_match(tx.outputs@, tx.plutus_data@, i2) {
                    let k = choose|k: int|
                        0 <= k < matches@.len() && (#[trigger] matches@[k]).0 == i2;
                    assert(k > 0);
                    assert(matches@[0].0 < matches@[k].0);
                }
            }
        }
        let t1 = nav_int(nav_field(nav_field(Some(datum), 1), 2));
        let t2 = nav_int(nav_field(nav_field(Some(datum), 1), 3));
        let base = nav_field(nav_field(Some(datum), 1), 0);
        let f00 = nav_bytes(nav_field(nav_field(base, 0), 0));
        let f01 = nav_bytes(nav_field(nav_field(base, 0), 1));
        let f10 = nav_bytes(nav_field(nav_field(base, 1), 0));
        let f11 = nav_bytes(nav_field(nav_field(base, 1), 1));
        match (t1, t2, f00, f01, f10, f11) {
            (Some(tr1), Some(tr2), Some(b00), Some(b01), Some(b10), Some(b11)) => {
                let asset1 = build_asset(copy_bytes(b00), copy_bytes(b01));
                let asset2 = build_asset(copy_bytes(b10), copy_bytes(b11));
                proof {
                    assert(wr_pool_values(*datum) matches Some(v) && pair_view(asset1) == v.0
                        && pair_view(asset2) == v.1 && tr1 == v.2 && tr2 == v.3);
                }
                let full1 = get_asset_amount(&tx.outputs[pool_i], &asset1);
                let sub1a = reduce_ada_amount(&asset1, WR_V1_POOL_FIXED_ADA);
                let full2 = get_asset_amount(&tx.outputs[pool_i], &asset2);
                let sub2a = reduce_ada_amount(&asset2, WR_V1_POOL_FIXED_ADA);
                if full1 < tr1 || full1 - tr1 < sub1a || full2 < tr2 || full2 - tr2 < sub2a {
                    proof {
                        assert(wr_reserve(tx.outputs@[pool_i as int], pair_view(asset1), tr1)
                            is None || wr_reserve(
                            tx.outputs@[pool_i as int],
                            pair_view(asset2),
                            tr2,
                        ) is None);
                        assert(crate::dex::pool_match_of(
                            PoolType::WingRidersV1,
                            *tx,
                            pool_i as int,
                        ));
                        assert(forall|i2: int|
                            0 <= i2 < pool_i as int ==> !crate::dex::pool_match_of(
                                PoolType::WingRidersV1,
                                *tx,
                                i2,
                            ));
                        assert(crate::dex::mean_decode_fails(PoolType::WingRidersV1, *tx));
                    }
                    return Err(DexError::AmountUnderflow);
                }
                let amount1 = full1 - tr1 - sub1a;
                let amount2 = full2 - tr2 - sub2a;
                queued_prices.push(
                    QueuedMeanPrice {
                        tx_id,
                        address: copy_bytes(&tx.outputs[pool_i].address),
                        pool_type: PoolType::WingRidersV1,
                        asset1,
                        asset2,
                        amount1,
                        amount2,
                    },
                );
                proof {
                    assert(crate::dex::pool_match_of(PoolType::WingRidersV1, *tx, pool_i as int));
                    assert(forall|i2: int|
                        0 <= i2 < pool_i as int ==> !crate::dex::pool_match_of(
                            PoolType::WingRidersV1,
                            *tx,
                            i2,
                        ));
                    assert(wr_reserve(tx.outputs@[pool_i as int], pair_view(asset1), tr1)
                        == Some(amount1));
                    assert(wr_reserve(tx.outputs@[pool_i as int], pair_view(asset2), tr2)
                        == Some(amount2));
                    assert(crate::dex::mean_event_of(
                        PoolType::WingRidersV1,
                        *tx,
                        tx_id,
                        queued_prices@.last(),
                    ));
                    assert(crate::dex::queued_price_sound(
                        PoolType::WingRidersV1,
                        *tx,
                        tx_id,
                        queued_prices@.last(),
                    ));
                    assert forall|j: int|
                        q0.len() <= j < queued_prices@.len()
                            implies crate::dex::queued_price_sound(
                        PoolType::WingRidersV1,
                        *tx,
                        tx_id,
                        #[trigger] queued_prices@[j],
                    ) by {
                        assert(queued_prices@[j] == queued_prices@.last());
                    }
                }
                Ok(())
            },
            _ => {
                proof {
                    assert(wr_pool_values(*datum) is None);
                    assert(crate::dex::pool_match_of(PoolType::WingRidersV1, *tx, pool_i as int));
                    assert(forall|i2: int|
                        0 <= i2 < pool_i as int ==> !crate::dex::pool_match_of(
                            PoolType::WingRidersV1,
                            *tx,
                            i2,
                        ));
                    assert(crate::dex::mean_decode_fails(PoolType::WingRidersV1, *tx));
                }
                Err(DexError::MalformedDatum)
            },
        }
    }
}

// ---------------------------------------------------------------------------
// Example scan

/// Address of the protocol's ADA/DANA pool, watched by the example task.
pub open spec fn wr_example_pool_address() -> Seq<u8> {
    seq![0x11u8, 0xe6u8, 0xc9u8, 0x0au8, 0x59u8, 0x23u8, 0x71u8, 0x3au8, 0xf5u8, 0x78u8, 0x69u8, 0x63u8, 0xdeu8, 0xe0u8, 0xfdu8, 0xffu8, 0xd8u8, 0x30u8, 0xcau8, 0x7eu8, 0x0cu8, 0x86u8, 0xa0u8, 0x41u8, 0xd9u8, 0xe5u8, 0x83u8, 0x3eu8, 0x91u8, 0x8eu8, 0x99u8, 0xe7u8, 0x02u8, 0xb4u8, 0xa3u8, 0x9bu8, 0xfdu8, 0x5cu8, 0x4eu8, 0x25u8, 0x43u8, 0x7fu8, 0x31u8, 0x00u8, 0xe8u8, 0x9eu8, 0x40u8, 0x65u8, 0xe6u8, 0xcbu8, 0x5cu8, 0x72u8, 0xbcu8, 0xffu8, 0x8bu8, 0x4au8, 0x09u8]
}

pub fn example_pool_address() -> (r: Vec<u8>)
    ensures
        r@ == wr_example_pool_address(),
{
    let mut v: Vec<u8> = Vec::new();
    v.push(0x11);
    v.push(0xe6);
    v.push(0xc9);
    v.push(0x0a);
    v.push(0x59);
    v.push(0x23);
    v.push(0x71);
    v.push(0x3a);
    v.push(0xf5);
    v.push(0x78);
    v.push(0x69);
    v.push(0x63);
    v.push(0xde);
    v.push(0xe0);
    v.push(0xfd);
    v.push(0xff);
    v.push(0xd8);
    v.push(0x30);
    v.push(0xca);
    v.push(0x7e);
    v.push(0x0c);
    v.push(0x86);
    v.push(0xa0);
    v.push(0x41);
    v.push(0xd9);
    v.push(0xe5);
    v.push(0x83);
    v.push(0x3e);
    v.push(0x91);
    v.push(0x8e);
    v.push(0x99);
    v.push(0xe7);
    v.push(0x02);
    v.push(0xb4);
    v.push(0xa3);
    v.push(0x9b);
    v.push(0xfd);
    v.push(0x5c);
    v.push(0x4e);
    v.push(0x25);
    v.push(0x43);
    v.push(0x7f);
    v.push(0x31);
    v.push(0x00);
    v.push(0xe8);
    v.push(0x9e);
    v.push(0x40);
    v.push(0x65);
    v.push(0xe6);
    v.push(0xcb);
    v.push(0x5c);
    v.push(0x72);
    v.push(0xbc);
    v.push(0xff);
    v.push(0x8b);
    v.push(0x4a);
    v.push(0x09);
    proof {
        assert(v@ =~= wr_example_pool_address());
    }
    v
}

/// `rid` is the row id of a transaction of the block that pays the example
/// pool address.
pub open spec fn wr_example_hit(
    txs: Seq<TxData>,
    rows: Seq<TransactionRow>,
    rid: i64,
) -> bool {
    exists|t: int|
        0 <= t < txs.len() && t < rows.len() && tx_touches_example_pool(#[trigger] txs[t])
            && rid == rows[t].id
}

/// The transaction pays an output to the example pool address.
pub open spec fn tx_touches_example_pool(tx: TxData) -> bool {
    exists|o: int|
        0 <= o < tx.outputs.len() && (#[trigger] tx.outputs@[o]).address@
            == wr_example_pool_address()
}

/// Returns the row ids of the block's transactions that pay the example
/// pool address; the caller reports them.
#[verifier::loop_isolation(false)]
pub fn handle_wr(block: &crate::ledger::BlockData, multiera_txs: &Vec<TransactionRow>) -> (r: Vec<
    i64,
>)
    ensures
        forall|k: int|
            0 <= k < r@.len() ==> wr_example_hit(block.txs@, multiera_txs@, #[trigger] r@[k]),
        forall|t: int|
            0 <= t < block.txs@.len() && t < multiera_txs@.len() && tx_touches_example_pool(
                #[trigger] block.txs@[t],
            ) ==> r@.contains(multiera_txs@[t].id),
{
    let target = example_pool_address();
    let mut result: Vec<i64> = Vec::new();
    let mut t: usize = 0;
    let n = if block.txs.len() < multiera_txs.len() {
        block.txs.len()
    } else {
        multiera_txs.len()
    };
    while t < n
        invariant
            0 <= t <= n,
            n <= block.txs@.len() && n <= multiera_txs@.len(),
            forall|k: int|
                0 <= k < result@.len() ==> wr_example_hit(
                    block.txs@,
                    multiera_txs@,
                    #[trigger] result@[k],
                ),
            forall|t2: int|
                0 <= t2 < t && tx_touches_example_pool(#[trigger] block.txs@[t2])
                    ==> result@.contains(multiera_txs@[t2].id),
        decreases n - t,
    {
        let tx = &block.txs[t];
        let mut o: usize = 0;
        let mut is_wr = false;
        while o < tx.outputs.len()
            invariant
                0 <= o <= tx.outputs@.len(),
                tx == &block.txs@[t as int],
                0 <= t < block.txs@.len(),
                is_wr ==> tx_touches_example_pool(block.txs@[t as int]),
                !is_wr ==> forall|o2: int|
                    0 <= o2 < o ==> (#[trigger] tx.outputs@[o2]).address@
                        != wr_example_pool_address(),
            decreases tx.outputs@.len() - o,
        {
            if bytes_eq(tx.outputs[o].address.as_slice(), target.as_slice()) {
                is_wr = true;
            }
            o = o + 1;
        }
        let ghost r0 = result@;
        if is_wr {
            result.push(multiera_txs[t].id);
        }
        proof {
            assert forall|k: int|
                0 <= k < result@.len() implies wr_example_hit(
                block.txs@,
                multiera_txs@,
                #[trigger] result@[k],
            ) by {
                if k < r0.len() {
                    assert(result@[k] == r0[k]);
                } else {
                    assert(result@[k] == multiera_txs@[t as int].id);
                    assert(tx_touches_example_pool(block.txs@[t as int]));
                }
            }
            assert forall|t2: int|
                0 <= t2 < t + 1 && tx_touches_example_pool(
                    #[trigger] block.txs@[t2],
                ) implies result@.contains(multiera_txs@[t2].id) by {
                if t2 < t {
                    let k = choose|k: int| 0 <= k < r0.len() && r0[k] == multiera_txs@[t2].id;
                    assert(result@[k] == r0[k]);
                } else {
                    if is_wr {
                        assert(result@[result@.len() - 1] == multiera_txs@[t2].id);
                    } else {
                        assert(!tx_touches_example_pool(block.txs@[t as int]));
                    }
                }
            }
        }
        t = t + 1;
    }
    proof {
        assert forall|t2: int|
            0 <= t2 < block.txs@.len() && t2 < multiera_txs@.len() && tx_touches_example_pool(
                #[trigger] block.txs@[t2],
            ) implies result@.contains(multiera_txs@[t2].id) by {
            if t2 < n {
            } else {
                assert(false);
            }
        }
    }
    result
}

} // verus!
