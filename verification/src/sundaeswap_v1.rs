//! SundaeSwap V1: positional decoding of its pool and request datums into
//! mean-price and swap events.

use vstd::prelude::*;
use crate::ledger::{
    TxData, TxOutputData, OutputRef, PlutusDatum, DatumWithHash, DexSwapDirection,
    shelley_payment_hash, datum_for_output_spec, datum_subfield, datum_sub_bytes, datum_sub_tag,
    opt_datum_view, nav_field, nav_bytes, nav_tag, get_asset_amount, asset_amount_spec,
};
use crate::lex::{bytes_eq, copy_bytes};
use crate::dex::{
    QueuedMeanPrice, QueuedSwap, PoolType, SundaeSwapV1, DexError, pair_view, pair_of,
    reduce_ada_spec, amount_view, build_asset, reduce_ada_amount, hash_match_at,
    filter_outputs_and_datums_by_hash, mean_event_matches, copy_pair, spent_lookup, lookup_spent,
};
use crate::lex::append_bytes;

verus! {

/// Script hash of the SundaeSwap V1 pool contract.
pub open spec fn sundae_pool_script_hash() -> Seq<u8> {
    seq![0x40u8, 0x20u8, 0xe7u8, 0xfcu8, 0x2du8, 0xe7u8, 0x5au8, 0x07u8, 0x29u8, 0xc3u8, 0xccu8, 0x3au8, 0xf7u8, 0x15u8, 0xb3u8, 0x4du8, 0x98u8, 0x38u8, 0x1eu8, 0x0cu8, 0xdbu8, 0xcfu8, 0xa9u8, 0x9cu8, 0x95u8, 0x0bu8, 0xc3u8, 0xacu8]
}

/// Script hash of the SundaeSwap V1 request contract.
pub open spec fn sundae_request_script_hash() -> Seq<u8> {
    seq![0xbau8, 0x15u8, 0x87u8, 0x66u8, 0xc1u8, 0xbau8, 0xe6u8, 0x0eu8, 0x21u8, 0x17u8, 0xeeu8, 0x89u8, 0x87u8, 0x62u8, 0x14u8, 0x41u8, 0xfau8, 0xc6u8, 0x6au8, 0x5eu8, 0x0fu8, 0xb9u8, 0xc7u8, 0xacu8, 0xa5u8, 0x8cu8, 0xf2u8, 0x0au8]
}

/// Fixed overhead paid into a request (oil ADA plus the agent fee).
pub const SWAP_IN_ADA: u64 = 4500000;

/// Fixed overhead left in a result output (oil ADA).
pub const SWAP_OUT_ADA: u64 = 2000000;

pub fn pool_script_hash() -> (r: Vec<u8>)
    ensures
        r@ == sundae_pool_script_hash(),
{
    let mut v: Vec<u8> = Vec::new();
    v.push(0x40);
    v.push(0x20);
    v.push(0xe7);
    v.push(0xfc);
    v.push(0x2d);
    v.push(0xe7);
    v.push(0x5a);
    v.push(0x07);
    v.push(0x29);
    v.push(0xc3);
    v.push(0xcc);
    v.push(0x3a);
    v.push(0xf7);
    v.push(0x15);
    v.push(0xb3);
    v.push(0x4d);
    v.push(0x98);
    v.push(0x38);
    v.push(0x1e);
    v.push(0x0c);
    v.push(0xdb);
    v.push(0xcf);
    v.push(0xa9);
    v.push(0x9c);
    v.push(0x95);
    v.push(0x0b);
    v.push(0xc3);
    v.push(0xac);
    proof {
        assert(v@ =~= sundae_pool_script_hash());
    }
    v
}

pub fn request_script_hash() -> (r: Vec<u8>)
    ensures
        r@ == sundae_request_script_hash(),
{
    let mut v: Vec<u8> = Vec::new();
    v.push(0xba);
    v.push(0x15);
    v.push(0x87);
    v.push(0x66);
    v.push(0xc1);
    v.push(0xba);
    v.push(0xe6);
    v.push(0x0e);
    v.push(0x21);
    v.push(0x17);
    v.push(0xee);
    v.push(0x89);
    v.push(0x87);
    v.push(0x62);
    v.push(0x14);
    v.push(0x41);
    v.push(0xfa);
    v.push(0xc6);
    v.push(0x6a);
    v.push(0x5e);
    v.push(0x0f);
    v.push(0xb9);
    v.push(0xc7);
    v.push(0xac);
    v.push(0xa5);
    v.push(0x8c);
    v.push(0xf2);
    v.push(0x0a);
    proof {
        assert(v@ =~= sundae_request_script_hash());
    }
    v
}

/// Output `i` is the pool output: it pays to the pool contract and carries a
/// resolvable datum.
pub open spec fn sundae_pool_match(
    outputs: Seq<TxOutputData>,
    datums: Seq<DatumWithHash>,
    i: int,
) -> bool {
    &&& 0 <= i < outputs.len()
    &&& shelley_payment_hash(outputs[i].address@) == Some(sundae_pool_script_hash())
    &&& datum_for_output_spec(datums, outputs[i].datum_hash) is Some
}

/// Byte item `[0][i][j]` of the pool datum: the two asset identifiers.
pub open spec fn sundae_asset_item(d: PlutusDatum, i: int, j: int) -> Option<Seq<u8>> {
    datum_sub_bytes(datum_subfield(datum_subfield(datum_subfield(Some(d), 0), i), j))
}

/// The two asset legs encoded by the pool datum, if the datum is well shaped.
pub open spec fn sundae_pool_pairs(d: PlutusDatum) -> Option<
    (Option<(Seq<u8>, Seq<u8>)>, Option<(Seq<u8>, Seq<u8>)>),
> {
    if sundae_asset_item(d, 0, 0) is Some && sundae_asset_item(d, 0, 1) is Some
        && sundae_asset_item(d, 1, 0) is Some && sundae_asset_item(d, 1, 1) is Some {
        Some(
            (
                pair_of(sundae_asset_item(d, 0, 0).unwrap(), sundae_asset_item(d, 0, 1).unwrap()),
                pair_of(sundae_asset_item(d, 1, 0).unwrap(), sundae_asset_item(d, 1, 1).unwrap()),
            ),
        )
    } else {
        None
    }
}


/// Constructor tag at `[3]` of a request datum: 0 is the swap operation.
pub open spec fn sundae_request_op_tag(d: PlutusDatum) -> Option<u64> {
    datum_sub_tag(datum_subfield(Some(d), 3))
}

/// Constructor tag at `[3][0]`: the swap's direction flag.
pub open spec fn sundae_request_direction(d: PlutusDatum) -> Option<u64> {
    datum_sub_tag(datum_subfield(datum_subfield(Some(d), 3), 0))
}

/// Payment-credential bytes at `[1][0][0][0][0]` of a request datum.
pub open spec fn sundae_request_payment(d: PlutusDatum) -> Option<Seq<u8>> {
    datum_sub_bytes(
        datum_subfield(
            datum_subfield(datum_subfield(datum_subfield(datum_subfield(Some(d), 1), 0), 0), 0),
            0,
        ),
    )
}

/// Staking-credential bytes at `[1][0][0][1][0][0][0]` of a request datum.
pub open spec fn sundae_request_stake(d: PlutusDatum) -> Option<Seq<u8>> {
    datum_sub_bytes(
        datum_subfield(
            datum_subfield(
                datum_subfield(
                    datum_subfield(
                        datum_subfield(datum_subfield(datum_subfield(Some(d), 1), 0), 0),
                        1,
                    ),
                    0,
                ),
                0,
            ),
            0,
        ),
    )
}

/// The address the request pays its result to: a mainnet base address, one
/// header byte followed by the two credential hashes.
pub open spec fn sundae_request_target(d: PlutusDatum) -> Option<Seq<u8>> {
    if sundae_request_payment(d) is Some && sundae_request_stake(d) is Some {
        Some(seq![0x01u8] + sundae_request_payment(d).unwrap() + sundae_request_stake(d).unwrap())
    } else {
        None
    }
}

/// Swap leg amounts: the held amount minus the fixed overhead of its side,
/// which side holding which leg depending on the direction flag; None marks
/// an underflow (a malformed amount).
pub open spec fn sundae_swap_amounts(
    din: TxOutputData,
    result_out: TxOutputData,
    p1: Option<(Seq<u8>, Seq<u8>)>,
    p2: Option<(Seq<u8>, Seq<u8>)>,
    dtag: u64,
) -> Option<(u64, u64)> {
    if dtag == 0 {
        let a1 = amount_view(din, p1);
        let s1 = reduce_ada_spec(p1, SWAP_IN_ADA);
        let a2 = amount_view(result_out, p2);
        let s2 = reduce_ada_spec(p2, SWAP_OUT_ADA);
        if a1 >= s1 && a2 >= s2 {
            Some(((a1 - s1) as u64, (a2 - s2) as u64))
        } else {
            None
        }
    } else {
        let a1 = amount_view(result_out, p1);
        let s1 = reduce_ada_spec(p1, SWAP_OUT_ADA);
        let a2 = amount_view(din, p2);
        let s2 = reduce_ada_spec(p2, SWAP_IN_ADA);
        if a1 >= s1 && a2 >= s2 {
            Some(((a1 - s1) as u64, (a2 - s2) as u64))
        } else {
            None
        }
    }
}

/// The queued swap is genuinely decoded from this transaction: it cites a
/// swap-tagged request input resolved through the spent-output lookup and a
/// result output at the request's target address, with the two amounts
/// following the documented direction rule.
pub open spec fn sundae_swap_event_ok(
    e: QueuedSwap,
    tx: TxData,
    tx_id: i64,
    spent: Seq<(OutputRef, TxOutputData)>,
    pool_i: int,
    p1: Option<(Seq<u8>, Seq<u8>)>,
    p2: Option<(Seq<u8>, Seq<u8>)>,
) -> bool {
    &&& e.tx_id == tx_id
    &&& e.pool_type == PoolType::SundaeSwapV1
    &&& e.address@ == tx.outputs@[pool_i].address@
    &&& pair_view(e.asset1) == p1
    &&& pair_view(e.asset2) == p2
    &&& exists|a: int, u: int|
        #![trigger tx.inputs@[a], tx.outputs@[u]]
        {
            &&& 0 <= a < tx.inputs@.len()
            &&& 0 <= u < tx.outputs@.len()
            &&& spent_lookup(spent, tx.inputs@[a].hash@, tx.inputs@[a].index as int) matches Some(
                din,
            )
            &&& shelley_payment_hash(din.address@) == Some(sundae_request_script_hash())
            &&& datum_for_output_spec(tx.plutus_data@, din.datum_hash) matches Some(d)
            &&& sundae_request_op_tag(d) == Some(0u64)
            &&& sundae_request_direction(d) matches Some(dtag)
            &&& sundae_request_target(d) == Some(tx.outputs@[u].address@)
            &&& sundae_swap_amounts(din, tx.outputs@[u], p1, p2, dtag) == Some(
                (e.amount1, e.amount2),
            )
            &&& e.direction == (if dtag == 0 {
                DexSwapDirection::BuyAsset1
            } else {
                DexSwapDirection::SellAsset1
            })
        }
}


/// Input `a` of the transaction is a fully decodable swap request: it
/// resolves through the lookup to a request-contract output whose datum
/// carries the swap tag, a direction and a target address.
pub open spec fn sundae_request_ready(
    tx: TxData,
    spent: Seq<(OutputRef, TxOutputData)>,
    a: int,
) -> bool {
    &&& 0 <= a < tx.inputs@.len()
    &&& spent_lookup(spent, tx.inputs@[a].hash@, tx.inputs@[a].index as int) matches Some(din)
    &&& shelley_payment_hash(din.address@) == Some(sundae_request_script_hash())
    &&& datum_for_output_spec(tx.plutus_data@, din.datum_hash) matches Some(d)
    &&& sundae_request_op_tag(d) == Some(0u64)
    &&& sundae_request_direction(d) is Some
    &&& sundae_request_target(d) is Some
}

/// The queued swap settles request input `a` against result output `u`,
/// with the documented amount and direction rules.
pub open spec fn sundae_swap_event_at(
    e: QueuedSwap,
    tx: TxData,
    tx_id: i64,
    spent: Seq<(OutputRef, TxOutputData)>,
    pool_i: int,
    p1: Option<(Seq<u8>, Seq<u8>)>,
    p2: Option<(Seq<u8>, Seq<u8>)>,
    a: int,
    u: int,
) -> bool {
    &&& e.tx_id == tx_id
    &&& e.pool_type == PoolType::SundaeSwapV1
    &&& e.address@ == tx.outputs@[pool_i].address@
    &&& pair_view(e.asset1) == p1
    &&& pair_view(e.asset2) == p2
    &&& 0 <= a < tx.inputs@.len()
    &&& 0 <= u < tx.outputs@.len()
    &&& spent_lookup(spent, tx.inputs@[a].hash@, tx.inputs@[a].index as int) matches Some(din)
    &&& shelley_payment_hash(din.address@) == Some(sundae_request_script_hash())
    &&& datum_for_output_spec(tx.plutus_data@, din.datum_hash) matches Some(d)
    &&& sundae_request_op_tag(d) == Some(0u64)
    &&& sundae_request_direction(d) matches Some(dtag)
    &&& sundae_request_target(d) == Some(tx.outputs@[u].address@)
    &&& sundae_swap_amounts(din, tx.outputs@[u], p1, p2, dtag) == Some((e.amount1, e.amount2))
    &&& e.direction == (if dtag == 0 {
        DexSwapDirection::BuyAsset1
    } else {
        DexSwapDirection::SellAsset1
    })
}

/// The witness list ties each appended swap to its request input and its
/// result output: requests are distinct, result outputs are consumed at
/// most once, and every decodable request is settled.
pub open spec fn sundae_swap_witnesses(
    aus: Seq<(int, int)>,
    q0_len: int,
    q1: Seq<QueuedSwap>,
    tx: TxData,
    tx_id: i64,
    spent: Seq<(OutputRef, TxOutputData)>,
    pool_i: int,
    p1: Option<(Seq<u8>, Seq<u8>)>,
    p2: Option<(Seq<u8>, Seq<u8>)>,
) -> bool {
    &&& aus.len() == q1.len() - q0_len
    &&& forall|j: int|
        0 <= j < aus.len() ==> sundae_swap_event_at(
            q1[q0_len + j],
            tx,
            tx_id,
            spent,
            pool_i,
            p1,
            p2,
            (#[trigger] aus[j]).0,
            aus[j].1,
        )
    &&& forall|j1: int, j2: int|
        0 <= j1 < j2 < aus.len() ==> (#[trigger] aus[j1]).0 != (#[trigger] aus[j2]).0 && aus[j1].1
            != aus[j2].1
    &&& forall|a: int|
        sundae_request_ready(tx, spent, a) ==> exists|j: int|
            0 <= j < aus.len() && (#[trigger] aus[j]).0 == a
}

/// On success, such a witness list exists: each decodable request yields
/// exactly one swap, and no result output is consumed twice.
pub open spec fn sundae_swaps_settled(
    q0_len: int,
    q1: Seq<QueuedSwap>,
    tx: TxData,
    tx_id: i64,
    spent: Seq<(OutputRef, TxOutputData)>,
    pool_i: int,
    p1: Option<(Seq<u8>, Seq<u8>)>,
    p2: Option<(Seq<u8>, Seq<u8>)>,
) -> bool {
    exists|aus: Seq<(int, int)>|
        #[trigger] sundae_swap_witnesses(aus, q0_len, q1, tx, tx_id, spent, pool_i, p1, p2)
}

impl SundaeSwapV1 {
    /// Queues the pool's reserve pair for the transaction, if it has a pool
    /// output with a well-shaped datum; a malformed datum is reported and
    /// queues nothing.
    #[verifier::loop_isolation(false)]
    #[verifier::rlimit(60)]
    pub fn queue_mean_price(
        &self,
        queued_prices: &mut Vec<QueuedMeanPrice>,
        tx: &TxData,
        tx_id: i64,
    ) -> (r: Result<(), DexError>)
        ensures
            old(queued_prices)@.len() <= final(queued_prices)@.len() <= old(queued_prices)@.len()
                + 1,
            forall|k: int|
                0 <= k < old(queued_prices)@.len() ==> final(queued_prices)@[k] == old(
                    queued_prices,
                )@[k],
            (forall|i: int| !sundae_pool_match(tx.outputs@, tx.plutus_data@, i)) ==> (r is Ok
                && *final(queued_prices) == *old(queued_prices)),
            forall|i: int|
                #![trigger sundae_pool_match(tx.outputs@, tx.plutus_data@, i)]
                (sundae_pool_match(tx.outputs@, tx.plutus_data@, i) && (forall|i2: int|
                    0 <= i2 < i ==> !sundae_pool_match(tx.outputs@, tx.plutus_data@, i2))) ==> {
                    let d = datum_for_output_spec(
                        tx.plutus_data@,
                        tx.outputs@[i].datum_hash,
                    ).unwrap();
                    match sundae_pool_pairs(d) {
                        Some(pairs) => {
                            &&& r is Ok
                            &&& final(queued_prices)@.len() == old(queued_prices)@.len() + 1
                            &&& forall|k: int|
                                0 <= k < old(queued_prices)@.len() ==> final(queued_prices)@[k]
                                    == old(queued_prices)@[k]
                            &&& mean_event_matches(
                                final(queued_prices)@.last(),
                                *tx,
                                tx_id,
                                i,
                                pairs.0,
                                pairs.1,
                                PoolType::SundaeSwapV1,
                            )
                        },
                        None => r is Err && *final(queued_prices) == *old(queued_prices),
                    }
                },
            forall|j: int|
                old(queued_prices)@.len() <= j < final(queued_prices)@.len()
                    ==> crate::dex::queued_price_sound(
                    PoolType::SundaeSwapV1,
                    *tx,
                    tx_id,
                    #[trigger] final(queued_prices)@[j],
                ),
            crate::dex::mean_step_ok(
                PoolType::SundaeSwapV1,
                *tx,
                tx_id,
                old(queued_prices)@,
                final(queued_prices)@,
                r,
            ),
    {
        let ghost q0 = queued_prices@;
        let mut pool_hashes: Vec<Vec<u8>> = Vec::new();
        pool_hashes.push(pool_script_hash());
        let matches = filter_outputs_and_datums_by_hash(&tx.outputs, &pool_hashes, &tx.plutus_data);
        proof {
            assert forall|i: int|
                hash_match_at(tx.outputs@, pool_hashes@, tx.plutus_data@, i)
                    == sundae_pool_match(tx.outputs@, tx.plutus_data@, i) by {
                if sundae_pool_match(tx.outputs@, tx.plutus_data@, i) {
                    assert(pool_hashes@[0]@ == sundae_pool_script_hash());
                    assert(crate::era_common::hashes_has(
                        pool_hashes@,
                        sundae_pool_script_hash(),
                    ));
                }
                if hash_match_at(tx.outputs@, pool_hashes@, tx.plutus_data@, i) {
                    let h = shelley_payment_hash(tx.outputs@[i].address@).unwrap();
                    let j = choose|j: int|
                        0 <= j < pool_hashes@.len() && (#[trigger] pool_hashes@[j])@ == h;
                    assert(h == sundae_pool_script_hash());
                }
            }
        }
        if matches.len() == 0 {
            proof {
                assert forall|i: int|
                    !sundae_pool_match(tx.outputs@, tx.plutus_data@, i) by {
                    if sundae_pool_match(tx.outputs@, tx.plutus_data@, i) {
                        assert(hash_match_at(tx.outputs@, pool_hashes@, tx.plutus_data@, i));
                    }
                }
            }
            proof {
                assert forall|i: int|
                    !crate::dex::pool_match_of(PoolType::SundaeSwapV1, *tx, i) by {}
                assert(crate::dex::mean_no_event(PoolType::SundaeSwapV1, *tx));
            }
            return Ok(());
        }
        let pool_i = matches[0].0;
        let datum = matches[0].1;
        proof {
            assert(sundae_pool_match(tx.outputs@, tx.plutus_data@, pool_i as int));
            assert forall|i2: int|
                0 <= i2 < pool_i as int implies !sundae_pool_match(
                tx.outputs@,
                tx.plutus_data@,
                i2,
            ) by {
                if sundae_pool_match(tx.outputs@, tx.plutus_data@, i2) {
                    let k = choose|k: int|
                        0 <= k < matches@.len() && (#[trigger] matches@[k]).0 == i2;
                    assert(k > 0);
                    assert(matches@[0].0 < matches@[k].0);
                }
            }
        }
        let f00 = nav_bytes(nav_field(nav_field(nav_field(Some(datum), 0), 0), 0));
        let f01 = nav_bytes(nav_field(nav_field(nav_field(Some(datum), 0), 0), 1));
        let f10 = nav_bytes(nav_field(nav_field(nav_field(Some(datum), 0), 1), 0));
        let f11 = nav_bytes(nav_field(nav_field(nav_field(Some(datum), 0), 1), 1));
        match (f00, f01, f10, f11) {
            (Some(b00), Some(b01), Some(b10), Some(b11)) => {
                let asset1 = build_asset(copy_bytes(b00), copy_bytes(b01));
                let asset2 = build_asset(copy_bytes(b10), copy_bytes(b11));
                let amount1 = get_asset_amount(&tx.outputs[pool_i], &asset1);
                let amount2 = get_asset_amount(&tx.outputs[pool_i], &asset2);
                proof {
                    assert(sundae_pool_pairs(*datum) matches Some(pairs) && pair_view(asset1)
                        == pairs.0 && pair_view(asset2) == pairs.1);
                }
                queued_prices.push(
                    QueuedMeanPrice {
                        tx_id,
                        address: copy_bytes(&tx.outputs[pool_i].address),
                        pool_type: PoolType::SundaeSwapV1,
                        asset1,
                        asset2,
                        amount1,
                        amount2,
                    },
                );
                proof {
                    assert(crate::dex::pool_match_of(PoolType::SundaeSwapV1, *tx, pool_i as int));
                    assert(forall|i2: int|
                        0 <= i2 < pool_i as int ==> !crate::dex::pool_match_of(
                            PoolType::SundaeSwapV1,
                            *tx,
                            i2,
                        ));
                    assert(crate::dex::mean_event_of(
                        PoolType::SundaeSwapV1,
                        *tx,
                        tx_id,
                        queued_prices@.last(),
                    ));
                    assert(crate::dex::queued_price_sound(
                        PoolType::SundaeSwapV1,
                        *tx,
                        tx_id,
                        queued_prices@.last(),
                    ));
                    assert forall|j: int|
                        q0.len() <= j < queued_prices@.len()
                            implies crate::dex::queued_price_sound(
                        PoolType::SundaeSwapV1,
                        *tx,
                        tx_id,
                        #[trigger] queued_prices@[j],
                    ) by {
                        assert(queued_prices@[j] == queued_prices@.last());
                    }
                }
                Ok(())
            },
            _ => {
                proof {
                    assert(sundae_pool_pairs(*datum) is None);
                    assert(crate::dex::pool_match_of(PoolType::SundaeSwapV1, *tx, pool_i as int));
                    assert(forall|i2: int|
                        0 <= i2 < pool_i as int ==> !crate::dex::pool_match_of(
                            PoolType::SundaeSwapV1,
                            *tx,
                            i2,
                        ));
                    assert(crate::dex::mean_decode_fails(PoolType::SundaeSwapV1, *tx));
                }
                Err(DexError::MalformedDatum)
            },
        }
    }

    /// Queues every swap the transaction settles against the pool: each
    /// swap-tagged request input is matched to the result output at its
    /// target address (each output consumed at most once), and the two leg
    /// amounts are the held amounts minus the fixed overheads, by direction.
    /// Failures are reported per transaction; already queued swaps stay.
    #[verifier::loop_isolation(false)]
    #[verifier::rlimit(100)]
    pub fn queue_swap(
        &self,
        queued_swaps: &mut Vec<QueuedSwap>,
        tx: &TxData,
        tx_id: i64,
        multiera_used_inputs_to_outputs_map: &Vec<(OutputRef, TxOutputData)>,
    ) -> (r: Result<(), DexError>)
        ensures
            old(queued_swaps)@.len() <= final(queued_swaps)@.len() <= old(queued_swaps)@.len()
                + tx.inputs@.len(),
            forall|k: int|
                0 <= k < old(queued_swaps)@.len() ==> final(queued_swaps)@[k] == old(
                    queued_swaps,
                )@[k],
            (forall|i: int| !sundae_pool_match(tx.outputs@, tx.plutus_data@, i)) ==> (r is Ok
                && *final(queued_swaps) == *old(queued_swaps)),
            forall|i: int|
                #![trigger sundae_pool_match(tx.outputs@, tx.plutus_data@, i)]
                (sundae_pool_match(tx.outputs@, tx.plutus_data@, i) && (forall|i2: int|
                    0 <= i2 < i ==> !sundae_pool_match(tx.outputs@, tx.plutus_data@, i2))) ==> {
                    let d = datum_for_output_spec(
                        tx.plutus_data@,
                        tx.outputs@[i].datum_hash,
                    ).unwrap();
                    match sundae_pool_pairs(d) {
                        Some(pairs) => {
                            &&& forall|k: int|
                                old(queued_swaps)@.len() <= k < final(queued_swaps)@.len()
                                    ==> sundae_swap_event_ok(
                                    #[trigger] final(queued_swaps)@[k],
                                    *tx,
                                    tx_id,
                                    multiera_used_inputs_to_outputs_map@,
                                    i,
                                    pairs.0,
                                    pairs.1,
                                )
                            &&& (r is Ok ==> sundae_swaps_settled(
                                old(queued_swaps)@.len() as int,
                                final(queued_swaps)@,
                                *tx,
                                tx_id,
                                multiera_used_inputs_to_outputs_map@,
                                i,
                                pairs.0,
                                pairs.1,
                            ))
                        },
                        None => r is Err && *final(queued_swaps) == *old(queued_swaps),
                    }
                },
            forall|j: int|
                old(queued_swaps)@.len() <= j < final(queued_swaps)@.len()
                    ==> crate::dex::queued_swap_sound(
                    PoolType::SundaeSwapV1,
                    *tx,
                    tx_id,
                    multiera_used_inputs_to_outputs_map@,
                    #[trigger] final(queued_swaps)@[j],
                ),
            r is Err ==> exists|i: int|
                #[trigger] sundae_pool_match(tx.outputs@, tx.plutus_data@, i),
    {
        let spent = multiera_used_inputs_to_outputs_map;
        let ghost q0 = queued_swaps@;
        let mut pool_hashes: Vec<Vec<u8>> = Vec::new();
        pool_hashes.push(pool_script_hash());
        let matches = filter_outputs_and_datums_by_hash(&tx.outputs, &pool_hashes, &tx.plutus_data);
        proof {
            assert forall|i: int|
                hash_match_at(tx.outputs@, pool_hashes@, tx.plutus_data@, i)
                    == sundae_pool_match(tx.outputs@, tx.plutus_data@, i) by {
                if sundae_pool_match(tx.outputs@, tx.plutus_data@, i) {
                    assert(pool_hashes@[0]@ == sundae_pool_script_hash());
                    assert(crate::era_common::hashes_has(
                        pool_hashes@,
                        sundae_pool_script_hash(),
                    ));
                }
                if hash_match_at(tx.outputs@, pool_hashes@, tx.plutus_data@, i) {
                    let h = shelley_payment_hash(tx.outputs@[i].address@).unwrap();
                    let j = choose|j: int|
                        0 <= j < pool_hashes@.len() && (#[trigger] pool_hashes@[j])@ == h;
                    assert(h == sundae_pool_script_hash());
                }
            }
        }
        if matches.len() == 0 {
            proof {
                assert forall|i: int|
                    !sundae_pool_match(tx.outputs@, tx.plutus_data@, i) by {
                    if sundae_pool_match(tx.outputs@, tx.plutus_data@, i) {
                        assert(hash_match_at(tx.outputs@, pool_hashes@, tx.plutus_data@, i));
                    }
                }
            }
            return Ok(());
        }
        let pool_i = matches[0].0;
        let pool_datum = matches[0].1;
        proof {
            assert(sundae_pool_match(tx.outputs@, tx.plutus_data@, pool_i as int));
            assert forall|i2: int|
                0 <= i2 < pool_i as int implies !sundae_pool_match(
                tx.outputs@,
                tx.plutus_data@,
                i2,
            ) by {
                if sundae_pool_match(tx.outputs@, tx.plutus_data@, i2) {
                    let k = choose|k: int|
                        0 <= k < matches@.len() && (#[trigger] matches@[k]).0 == i2;
                    assert(k > 0);
                    assert(matches@[0].0 < matches@[k].0);
                }
            }
        }
        let f00 = nav_bytes(nav_field(nav_field(nav_field(Some(pool_datum), 0), 0), 0));
        let f01 = nav_bytes(nav_field(nav_field(nav_field(Some(pool_datum), 0), 0), 1));
        let f10 = nav_bytes(nav_field(nav_field(nav_field(Some(pool_datum), 0), 1), 0));
        let f11 = nav_bytes(nav_field(nav_field(nav_field(Some(pool_datum), 0), 1), 1));
        let (asset1, asset2) = match (f00, f01, f10, f11) {
            (Some(b00), Some(b01), Some(b10), Some(b11)) => {
                (
                    build_asset(copy_bytes(b00), copy_bytes(b01)),
                    build_asset(copy_bytes(b10), copy_bytes(b11)),
                )
            },
            _ => {
                proof {
                    assert(sundae_pool_pairs(*pool_datum) is None);
                }
                return Err(DexError::MalformedDatum);
            },
        };
        let ghost p1 = pair_view(asset1);
        let ghost p2 = pair_view(asset2);
        proof {
            assert(sundae_pool_pairs(*pool_datum) == Some((p1, p2)));
        }
        // resolve every input's decoded spent output up front
        let mut decoded: Vec<&TxOutputData> = Vec::new();
        let mut a0: usize = 0;
        while a0 < tx.inputs.len()
            invariant
                0 <= a0 <= tx.inputs@.len(),
                decoded@.len() == a0,
                forall|a2: int|
                    0 <= a2 < a0 ==> spent_lookup(
                        spent@,
                        (#[trigger] tx.inputs@[a2]).hash@,
                        tx.inputs@[a2].index as int,
                    ) == Some(*decoded@[a2]),
            decreases tx.inputs@.len() - a0,
        {
            match lookup_spent(spent, tx.inputs[a0].hash.as_slice(), tx.inputs[a0].index) {
                Some(o) => {
                    decoded.push(o);
                },
                None => {
                    return Err(DexError::MissingSpentOutput);
                },
            }
            a0 = a0 + 1;
        }
        // candidate result outputs, each consumed at most once
        let mut free: Vec<usize> = Vec::new();
        let mut fi: usize = 0;
        while fi < tx.outputs.len()
            invariant
                0 <= fi <= tx.outputs@.len(),
                free@.len() == fi,
                forall|k: int| 0 <= k < free@.len() ==> (#[trigger] free@[k]) == k,
                forall|k: int| 0 <= k < free@.len() ==> (#[trigger] free@[k]) < tx.outputs@.len(),
            decreases tx.outputs@.len() - fi,
        {
            free.push(fi);
            fi = fi + 1;
        }
        let ghost mut aus: Seq<(int, int)> = Seq::empty();
        let req_hash = request_script_hash();
        let mut a: usize = 0;
        while a < tx.inputs.len()
            invariant
                0 <= a <= tx.inputs@.len(),
                q0.len() <= queued_swaps@.len() <= q0.len() + a,
                forall|k: int| 0 <= k < q0.len() ==> queued_swaps@[k] == q0[k],
                forall|k: int|
                    q0.len() <= k < queued_swaps@.len() ==> sundae_swap_event_ok(
                        #[trigger] queued_swaps@[k],
                        *tx,
                        tx_id,
                        spent@,
                        pool_i as int,
                        p1,
                        p2,
                    ),
                forall|k: int|
                    q0.len() <= k < queued_swaps@.len() ==> crate::dex::queued_swap_sound(
                        PoolType::SundaeSwapV1,
                        *tx,
                        tx_id,
                        spent@,
                        #[trigger] queued_swaps@[k],
                    ),
                forall|k: int| 0 <= k < free@.len() ==> (#[trigger] free@[k]) < tx.outputs@.len(),
                forall|k1: int, k2: int|
                    0 <= k1 < k2 < free@.len() ==> (#[trigger] free@[k1]) != (
                    #[trigger] free@[k2]),
                aus.len() == queued_swaps@.len() - q0.len(),
                forall|j: int|
                    0 <= j < aus.len() ==> sundae_swap_event_at(
                        queued_swaps@[q0.len() + j],
                        *tx,
                        tx_id,
                        spent@,
                        pool_i as int,
                        p1,
                        p2,
                        (#[trigger] aus[j]).0,
                        aus[j].1,
                    ),
                forall|j: int| 0 <= j < aus.len() ==> 0 <= (#[trigger] aus[j]).0 < a,
                forall|j1: int, j2: int|
                    0 <= j1 < j2 < aus.len() ==> (#[trigger] aus[j1]).0 < (#[trigger] aus[j2]).0,
                forall|j1: int, j2: int|
                    0 <= j1 < j2 < aus.len() ==> (#[trigger] aus[j1]).1 != (#[trigger] aus[j2]).1,
                forall|j: int, kf: int|
                    0 <= j < aus.len() && 0 <= kf < free@.len() ==> (#[trigger] aus[j]).1 != (
                    #[trigger] free@[kf]) as int,
                forall|a2: int|
                    0 <= a2 < a && sundae_request_ready(*tx, spent@, a2) ==> exists|j: int|
                        0 <= j < aus.len() && (#[trigger] aus[j]).0 == a2,
            decreases tx.inputs@.len() - a,
        {
            let ghost aus_at_entry = aus;
            let din = decoded[a];
            proof {
                assert(spent_lookup(spent@, tx.inputs@[a as int].hash@, tx.inputs@[
                    a as int].index as int) == Some(*din));
            }
            let is_req = match crate::ledger::get_payment_hash(din.address.as_slice()) {
                Some(h) => bytes_eq(h, req_hash.as_slice()),
                None => false,
            };
            if is_req {
                match crate::ledger::get_plutus_datum_for_output(din, &tx.plutus_data) {
                    None => {
                        proof {
                            assert(!sundae_request_ready(*tx, spent@, a as int));
                        }
                    },
                    Some(d) => {
                        let op = match nav_tag(nav_field(Some(d), 3)) {
                            Some(t) => t,
                            None => {
                                return Err(DexError::MalformedDatum);
                            },
                        };
                        if op == 0 {
                            let dtag = match nav_tag(nav_field(nav_field(Some(d), 3), 0)) {
                                Some(t) => t,
                                None => {
                                    return Err(DexError::MalformedDatum);
                                },
                            };
                            let pay = match nav_bytes(
                                nav_field(
                                    nav_field(
                                        nav_field(nav_field(nav_field(Some(d), 1), 0), 0),
                                        0,
                                    ),
                                    0,
                                ),
                            ) {
                                Some(b) => b,
                                None => {
                                    return Err(DexError::MalformedDatum);
                                },
                            };
                            let stake = match nav_bytes(
                                nav_field(
                                    nav_field(
                                        nav_field(
                                            nav_field(
                                                nav_field(
                                                    nav_field(nav_field(Some(d), 1), 0),
                                                    0,
                                                ),
                                                1,
                                            ),
                                            0,
                                        ),
                                        0,
                                    ),
                                    0,
                                ),
                            ) {
                                Some(b) => b,
                                None => {
                                    return Err(DexError::MalformedDatum);
                                },
                            };
                            let mut target: Vec<u8> = Vec::new();
                            target.push(0x01);
                            append_bytes(&mut target, pay.as_slice());
                            append_bytes(&mut target, stake.as_slice());
                            proof {
                                assert(target@ =~= seq![0x01u8] + pay@ + stake@);
                                assert(sundae_request_target(*d) == Some(target@));
                            }
                            // first remaining output paying to the target
                            let mut pos: usize = 0;
                            let mut found = false;
                            while pos < free.len()
                                invariant
                                    0 <= pos <= free@.len(),
                                    forall|k: int|
                                        0 <= k < free@.len() ==> (#[trigger] free@[k])
                                            < tx.outputs@.len(),
                                    found ==> pos < free@.len() && tx.outputs@[free@[
                                        pos as int] as int].address@ == target@,
                                decreases free@.len() - pos,
                                // exits as soon as found
                            {
                                if bytes_eq(
                                    tx.outputs[free[pos]].address.as_slice(),
                                    target.as_slice(),
                                ) {
                                    found = true;
                                    break;
                                }
                                pos = pos + 1;
                            }
                            if !found {
                                return Err(DexError::MissingResultOutput);
                            }
                            let u = free[pos];
                            free.remove(pos);
                            // amounts: held amount minus the side's overhead
                            let amount1: u64;
                            let amount2: u64;
                            if dtag == 0 {
                                let a1 = get_asset_amount(din, &asset1);
                                let s1 = reduce_ada_amount(&asset1, SWAP_IN_ADA);
                                let a2 = get_asset_amount(&tx.outputs[u], &asset2);
                                let s2 = reduce_ada_amount(&asset2, SWAP_OUT_ADA);
                                if a1 < s1 || a2 < s2 {
                                    return Err(DexError::AmountUnderflow);
                                }
                                amount1 = a1 - s1;
                                amount2 = a2 - s2;
                            } else {
                                let a1 = get_asset_amount(&tx.outputs[u], &asset1);
                                let s1 = reduce_ada_amount(&asset1, SWAP_OUT_ADA);
                                let a2 = get_asset_amount(din, &asset2);
                                let s2 = reduce_ada_amount(&asset2, SWAP_IN_ADA);
                                if a1 < s1 || a2 < s2 {
                                    return Err(DexError::AmountUnderflow);
                                }
                                amount1 = a1 - s1;
                                amount2 = a2 - s2;
                            }
                            let ev = QueuedSwap {
                                tx_id,
                                address: copy_bytes(&tx.outputs[pool_i].address),
                                pool_type: PoolType::SundaeSwapV1,
                                asset1: copy_pair(&asset1),
                                asset2: copy_pair(&asset2),
                                amount1,
                                amount2,
                                direction: if dtag == 0 {
                                    DexSwapDirection::BuyAsset1
                                } else {
                                    DexSwapDirection::SellAsset1
                                },
                            };
                            proof {
                                assert(spent_lookup(
                                    spent@,
                                    tx.inputs@[a as int].hash@,
                                    tx.inputs@[a as int].index as int,
                                ) == Some(*din));
                                assert(sundae_swap_amounts(
                                    *din,
                                    tx.outputs@[u as int],
                                    p1,
                                    p2,
                                    dtag,
                                ) == Some((amount1, amount2)));
                                assert(sundae_swap_event_ok(
                                    ev,
                                    *tx,
                                    tx_id,
                                    spent@,
                                    pool_i as int,
                                    p1,
                                    p2,
                                ));
                            }
                            let ghost qprev = queued_swaps@;
                            let ghost aus_prev = aus;
                            queued_swaps.push(ev);
                            proof {
                                aus = aus.push((a as int, u as int));
                                assert(aus.last() == (a as int, u as int));
                                assert(sundae_swap_event_at(
                                    ev,
                                    *tx,
                                    tx_id,
                                    spent@,
                                    pool_i as int,
                                    p1,
                                    p2,
                                    a as int,
                                    u as int,
                                ));
                                assert(crate::dex::queued_swap_sound(
                                    PoolType::SundaeSwapV1,
                                    *tx,
                                    tx_id,
                                    spent@,
                                    ev,
                                ));
                                assert forall|k: int|
                                    q0.len() <= k < queued_swaps@.len() implies sundae_swap_event_ok(
                                    #[trigger] queued_swaps@[k],
                                    *tx,
                                    tx_id,
                                    spent@,
                                    pool_i as int,
                                    p1,
                                    p2,
                                ) && crate::dex::queued_swap_sound(
                                    PoolType::SundaeSwapV1,
                                    *tx,
                                    tx_id,
                                    spent@,
                                    queued_swaps@[k],
                                ) by {
                                    if k < qprev.len() {
                                        assert(queued_swaps@[k] == qprev[k]);
                                    } else {
                                        assert(queued_swaps@[k] == ev);
                                    }
                                }
                            }
                        } else {
                            proof {
                                assert(sundae_request_op_tag(*d) == Some(op));
                                assert(!sundae_request_ready(*tx, spent@, a as int));
                            }
                        }
                    },
                }
            } else {
                proof {
                    assert(!sundae_request_ready(*tx, spent@, a as int));
                }
            }
            proof {
                assert(aus.len() >= aus_at_entry.len());
                assert forall|a2: int|
                    0 <= a2 < a + 1 && sundae_request_ready(*tx, spent@, a2) implies exists|
                    j: int,
                |
                    0 <= j < aus.len() && (#[trigger] aus[j]).0 == a2 by {
                    if a2 < a {
                        let j = choose|j: int|
                            0 <= j < aus_at_entry.len() && (#[trigger] aus_at_entry[j]).0 == a2;
                        assert(aus[j] == aus_at_entry[j]);
                    } else {
                        assert(aus[aus.len() - 1].0 == a2);
                    }
                }
            }
            a = a + 1;
        }
        proof {
            assert forall|a2: int|
                sundae_request_ready(*tx, spent@, a2) implies exists|j: int|
                0 <= j < aus.len() && (#[trigger] aus[j]).0 == a2 by {
                assert(0 <= a2 < tx.inputs@.len());
                assert(a2 < a);
            }
            assert(sundae_swap_witnesses(
                aus,
                q0.len() as int,
                queued_swaps@,
                *tx,
                tx_id,
                spent@,
                pool_i as int,
                p1,
                p2,
            ));
            assert(sundae_swaps_settled(
                q0.len() as int,
                queued_swaps@,
                *tx,
                tx_id,
                spent@,
                pool_i as int,
                p1,
                p2,
            ));
        }
        Ok(())
    }
}

} // verus!
