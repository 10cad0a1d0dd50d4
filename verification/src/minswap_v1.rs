//! Minswap V1: positional decoding of its pool datum into mean-price events.

use vstd::prelude::*;
use crate::ledger::{
    TxData, TxOutputData, PlutusDatum, DatumWithHash, shelley_payment_hash, datum_for_output_spec,
    datum_subfield, datum_sub_bytes, nav_field, nav_bytes, get_asset_amount,
};
use crate::lex::copy_bytes;
use crate::dex::{
    QueuedMeanPrice, PoolType, MinSwapV1, DexError, pair_view, pair_of, build_asset,
    hash_match_at, filter_outputs_and_datums_by_hash, mean_event_matches,
};

verus! {

/// Script hash of the Minswap V1 pool contract.
pub open spec fn ms_pool_script_hash() -> Seq<u8> {
    seq![0xe1u8, 0x31u8, 0x7bu8, 0x15u8, 0x2fu8, 0xaau8, 0xc1u8, 0x34u8, 0x26u8, 0xe6u8, 0xa8u8, 0x3eu8, 0x06u8, 0xffu8, 0x88u8, 0xa4u8, 0xd6u8, 0x2cu8, 0xceu8, 0x3cu8, 0x16u8, 0x34u8, 0xabu8, 0x0au8, 0x5eu8, 0xc1u8, 0x33u8, 0x09u8]
}

pub fn pool_script_hash() -> (r: Vec<u8>)
    ensures
        r@ == ms_pool_script_hash(),
{
    let mut v: Vec<u8> = Vec::new();
    v.push(0xe1);
    v.push(0x31);
    v.push(0x7b);
    v.push(0x15);
    v.push(0x2f);
    v.push(0xaa);
    v.push(0xc1);
    v.push(0x34);
    v.push(0x26);
    v.push(0xe6);
    v.push(0xa8);
    v.push(0x3e);
    v.push(0x06);
    v.push(0xff);
    v.push(0x88);
    v.push(0xa4);
    v.push(0xd6);
    v.push(0x2c);
    v.push(0xce);
    v.push(0x3c);
    v.push(0x16);
    v.push(0x34);
    v.push(0xab);
    v.push(0x0a);
    v.push(0x5e);
    v.push(0xc1);
    v.push(0x33);
    v.push(0x09);
    proof {
        assert(v@ =~= ms_pool_script_hash());
    }
    v
}

/// Output `i` is the pool output.
pub open spec fn ms_pool_match(
    outputs: Seq<TxOutputData>,
    datums: Seq<DatumWithHash>,
    i: int,
) -> bool {
    &&& 0 <= i < outputs.len()
    &&& shelley_payment_hash(outputs[i].address@) == Some(ms_pool_script_hash())
    &&& datum_for_output_spec(datums, outputs[i].datum_hash) is Some
}

/// Byte item `[1][0][i][j]` of the pool datum: the two asset identifiers.
pub open spec fn ms_asset_item(d: PlutusDatum, i: int, j: int) -> Option<Seq<u8>> {
    datum_sub_bytes(
        datum_subfield(datum_subfield(datum_subfield(datum_subfield(Some(d), 1), 0), i), j),
    )
}

/// The two asset legs encoded by the pool datum, if the datum is well shaped.
pub open spec fn ms_pool_pairs(d: PlutusDatum) -> Option<
    (Option<(Seq<u8>, Seq<u8>)>, Option<(Seq<u8>, Seq<u8>)>),
> {
    if ms_asset_item(d, 0, 0) is Some && ms_asset_item(d, 0, 1) is Some && ms_asset_item(d, 1, 0)
        is Some && ms_asset_item(d, 1, 1) is Some {
        Some(
            (
                pair_of(ms_asset_item(d, 0, 0).unwrap(), ms_asset_item(d, 0, 1).unwrap()),
                pair_of(ms_asset_item(d, 1, 0).unwrap(), ms_asset_item(d, 1, 1).unwrap()),
            ),
        )
    } else {
        None
    }
}

impl MinSwapV1 {
    /// Queues the pool's reserve pair for the transaction, if it has a pool
    /// output with a well-shaped datum; a malformed datum is reported and
    /// queues nothing.
    #[verifier::loop_isolation(false)]
    #[verifier::rlimit(60)]
    pub fn queue_mean_price(
        &self,
        queued_prices: &mut Vec<QueuedMeanPrice>,
        tx: &TxData,
        tx_id: i64,
    ) -> (r: Result<(), DexError>)
        ensures
            old(queued_prices)@.len() <= final(queued_prices)@.len() <= old(queued_prices)@.len()
                + 1,
            forall|k: int|
                0 <= k < old(queued_prices)@.len() ==> final(queued_prices)@[k] == old(
                    queued_prices,
                )@[k],
            (forall|i: int| !ms_pool_match(tx.outputs@, tx.plutus_data@, i)) ==> (r is Ok
                && *final(queued_prices) == *old(queued_prices)),
            forall|i: int|
                #![trigger ms_pool_match(tx.outputs@, tx.plutus_data@, i)]
                (ms_pool_match(tx.outputs@, tx.plutus_data@, i) && (forall|i2: int|
                    0 <= i2 < i ==> !ms_pool_match(tx.outputs@, tx.plutus_data@, i2))) ==> {
                    let d = datum_for_output_spec(
                        tx.plutus_data@,
                        tx.outputs@[i].datum_hash,
                    ).unwrap();
                    match ms_pool_pairs(d) {
                        Some(pairs) => {
                            &&& r is Ok
                            &&& final(queued_prices)@.len() == old(queued_prices)@.len() + 1
                            &&& forall|k: int|
                                0 <= k < old(queued_prices)@.len() ==> final(queued_prices)@[k]
                                    == old(queued_prices)@[k]
                            &&& mean_event_matches(
                                final(queued_prices)@.last(),
                                *tx,
                                tx_id,
                                i,
                                pairs.0,
                                pairs.1,
                                PoolType::MinSwapV1,
                            )
                        },
                        None => r is Err && *final(queued_prices) == *old(queued_prices),
                    }
                },
            forall|j: int|
                old(queued_prices)@.len() <= j < final(queued_prices)@.len()
                    ==> crate::dex::queued_price_sound(
                    PoolType::MinSwapV1,
                    *tx,
                    tx_id,
                    #[trigger] final(queued_prices)@[j],
                ),
            (r is Ok && *final(queued_prices) == *old(queued_prices) && crate::dex::mean_no_event(
                PoolType::MinSwapV1,
                *tx,
            )) || (r is Ok && final(queued_prices)@.len() == old(queued_prices)@.len() + 1 && (
            forall|k: int|
                0 <= k < old(queued_prices)@.len() ==> final(queued_prices)@[k] == old(
                    queued_prices,
                )@[k]) && crate::dex::mean_event_of(
                PoolType::MinSwapV1,
                *tx,
                tx_id,
                final(queued_prices)@.last(),
            )) || (r is Err && *final(queued_prices) == *old(queued_prices)
                && crate::dex::mean_decode_fails(PoolType::MinSwapV1, *tx)),
    {
        let ghost q0 = queued_prices@;
        let mut pool_hashes: Vec<Vec<u8>> = Vec::new();
        pool_hashes.push(pool_script_hash());
        let matches = filter_outputs_and_datums_by_hash(&tx.outputs, &pool_hashes, &tx.plutus_data);
        proof {
            assert forall|i: int|
                hash_match_at(tx.outputs@, pool_hashes@, tx.plutus_data@, i) == ms_pool_match(
                    tx.outputs@,
                    tx.plutus_data@,
                    i,
                ) by {
                if ms_pool_match(tx.outputs@, tx.plutus_data@, i) {
                    assert(pool_hashes@[0]@ == ms_pool_script_hash());
                    assert(crate::era_common::hashes_has(pool_hashes@, ms_pool_script_hash()));
                }
                if hash_match_at(tx.outputs@, pool_hashes@, tx.plutus_data@, i) {
                    let h = shelley_payment_hash(tx.outputs@[i].address@).unwrap();
                    let j = choose|j: int|
                        0 <= j < pool_hashes@.len() && (#[trigger] pool_hashes@[j])@ == h;
                    assert(h == ms_pool_script_hash());
                }
            }
        }
        if matches.len() == 0 {
            proof {
                assert forall|i: int| !ms_pool_match(tx.outputs@, tx.plutus_data@, i) by {
                    if ms_pool_match(tx.outputs@, tx.plutus_data@, i) {
                        assert(hash_match_at(tx.outputs@, pool_hashes@, tx.plutus_data@, i));
                    }
                }
            }
            proof {
                assert forall|i: int| !crate::dex::pool_match_of(PoolType::MinSwapV1, *tx, i) by {}
                assert(crate::dex::mean_no_event(PoolType::MinSwapV1, *tx));
            }
            return Ok(());
        }
        let pool_i = matches[0].0;
        let datum = matches[0].1;
        proof {
            assert(ms_pool_match(tx.outputs@, tx.plutus_data@, pool_i as int));
            assert forall|i2: int|
                0 <= i2 < pool_i as int implies !ms_pool_match(
                tx.outputs@,
                tx.plutus_data@,
                i2,
            ) by {
                if ms_pool_match(tx.outputs@, tx.plutus_data@, i2) {
                    let k = choose|k: int|
                        0 <= k < matches@.len() && (#[trigger] matches@[k]).0 == i2;
                    assert(k > 0);
                    assert(matches@[0].0 < matches@[k].0);
                }
            }
        }
        let base = nav_field(nav_field(Some(datum), 1), 0);
        let f00 = nav_bytes(nav_field(nav_field(base, 0), 0));
        let f01 = nav_bytes(nav_field(nav_field(base, 0), 1));
        let f10 = nav_bytes(nav_field(nav_field(base, 1), 0));
        let f11 = nav_bytes(nav_field(nav_field(base, 1), 1));
        match (f00, f01, f10, f11) {
            (Some(b00), Some(b01), Some(b10), Some(b11)) => {
                let asset1 = build_asset(copy_bytes(b00), copy_bytes(b01));
                let asset2 = build_asset(copy_bytes(b10), copy_bytes(b11));
                let amount1 = get_asset_amount(&tx.outputs[pool_i], &asset1);
                let amount2 = get_asset_amount(&tx.outputs[pool_i], &asset2);
                proof {
                    assert(ms_pool_pairs(*datum) matches Some(pairs) && pair_view(asset1)
                        == pairs.0 && pair_view(asset2) == pairs.1);
                }
                queued_prices.push(
                    QueuedMeanPrice {
                        tx_id,
                        address: copy_bytes(&tx.outputs[pool_i].address),
                        pool_type: PoolType::MinSwapV1,
                        asset1,
                        asset2,
                        amount1,
                        amount2,
                    },
                );
                proof {
                    assert(crate::dex::pool_match_of(PoolType::MinSwapV1, *tx, pool_i as int));
                    assert(forall|i2: int|
                        0 <= i2 < pool_i as int ==> !crate::dex::pool_match_of(
                            PoolType::MinSwapV1,
                            *tx,
                            i2,
                        ));
                    assert(crate::dex::mean_event_of(
                        PoolType::MinSwapV1,
                        *tx,
                        tx_id,
                        queued_prices@.last(),
                    ));
                    assert(crate::dex::queued_price_sound(
                        PoolType::MinSwapV1,
                        *tx,
                        tx_id,
                        queued_prices@.last(),
                    ));
                    assert forall|j: int|
                        q0.len() <= j < queued_prices@.len()
                            implies crate::dex::queued_price_sound(
                        PoolType::MinSwapV1,
                        *tx,
                        tx_id,
                        #[trigger] queued_prices@[j],
                    ) by {
                        assert(queued_prices@[j] == queued_prices@.last());
                    }
                }
                Ok(())
            },
            _ => {
                proof {
                    assert(ms_pool_pairs(*datum) is None);
                    assert(crate::dex::pool_match_of(PoolType::MinSwapV1, *tx, pool_i as int));
                    assert(forall|i2: int|
                        0 <= i2 < pool_i as int ==> !crate::dex::pool_match_of(
                            PoolType::MinSwapV1,
                            *tx,
                            i2,
                        ));
                    assert(crate::dex::mean_decode_fails(PoolType::MinSwapV1, *tx));
                }
                Err(DexError::MalformedDatum)
            },
        }
    }
}

} // verus!
