use carp_core::dex::{build_asset, reduce_ada_amount, DexError, PoolType, SundaeSwapV1};
use carp_core::ledger::{
    TxData, TxOutputData, OutputRef, TransferAsset, PlutusDatum, DatumWithHash, DexSwapDirection,
    get_asset_amount,
};
use carp_core::sundaeswap_v1::SWAP_IN_ADA;
use carp_core::wingriders_v1::WR_V1_POOL_FIXED_ADA;
use carp_core::dex::{handle_mean_price, Empty};
use carp_core::era_common::insert_addresses;
use carp_core::assets::resolve_or_insert_assets;
use carp_core::store::{Store, FatalError, TransactionRow, BlockRow};

fn constr(tag: u64, fields: Vec<PlutusDatum>) -> PlutusDatum {
    PlutusDatum::Constr { tag, fields }
}

fn bytes(b: Vec<u8>) -> PlutusDatum {
    PlutusDatum::Bytes { bytes: b }
}

fn num(v: u64) -> PlutusDatum {
    PlutusDatum::Int { value: v }
}

fn shelley_address(payment: &[u8], stake: &[u8]) -> Vec<u8> {
    let mut v = vec![0x01u8];
    v.extend_from_slice(payment);
    v.extend_from_slice(stake);
    v
}

fn plain_output(address: Vec<u8>, coin: u64, assets: Vec<TransferAsset>, datum_hash: Option<Vec<u8>>) -> TxOutputData {
    TxOutputData { address, payload: vec![], coin, assets, datum_hash }
}

/// The asset pair encoding of the pool datums: `[i][j]` byte items.
fn pair_tree(p1: (&[u8], &[u8]), p2: (&[u8], &[u8])) -> PlutusDatum {
    constr(
        0,
        vec![
            constr(0, vec![bytes(p1.0.to_vec()), bytes(p1.1.to_vec())]),
            constr(0, vec![bytes(p2.0.to_vec()), bytes(p2.1.to_vec())]),
        ],
    )
}

#[test]
fn build_asset_maps_empty_to_the_sentinel() {
    assert_eq!(build_asset(vec![], vec![]), None);
    let a = build_asset(vec![1], vec![]);
    assert_eq!(a, Some((vec![1], vec![])));
    assert_eq!(reduce_ada_amount(&None, 77), 77);
    assert_eq!(reduce_ada_amount(&a, 77), 0);
}

#[test]
fn asset_amount_reads_coin_or_bundle() {
    let out = plain_output(
        vec![0u8],
        1_500,
        vec![TransferAsset { pair: Some((vec![9], vec![8])), quantity: 42 }],
        None,
    );
    assert_eq!(get_asset_amount(&out, &None), 1_500);
    assert_eq!(get_asset_amount(&out, &Some((vec![9], vec![8]))), 42);
    assert_eq!(get_asset_amount(&out, &Some((vec![9], vec![7]))), 0);
}

#[test]
fn sundae_mean_price_reads_the_pool_output() {
    let pool_hash = carp_core::sundaeswap_v1::pool_script_hash();
    let addr = shelley_address(&pool_hash, &[3u8; 28]);
    let datum = constr(0, vec![pair_tree((&[], &[]), (&[5u8; 28], b"TOK"))]);
    let tx = TxData {
        hash: vec![1u8; 32],
        payload: vec![],
        is_valid: true,
        outputs: vec![plain_output(
            addr.clone(),
            9_000_000,
            vec![TransferAsset { pair: Some((vec![5u8; 28], b"TOK".to_vec())), quantity: 4_000 }],
            Some(vec![0xd1; 32]),
        )],
        collateral_return: None,
        inputs: vec![],
        plutus_data: vec![DatumWithHash { hash: vec![0xd1; 32], datum }],
    };
    let mut queued = Vec::new();
    (SundaeSwapV1 {}).queue_mean_price(&mut queued, &tx, 7).unwrap();
    assert_eq!(queued.len(), 1);
    assert_eq!(queued[0].tx_id, 7);
    assert_eq!(queued[0].pool_type, PoolType::SundaeSwapV1);
    assert_eq!(queued[0].address, addr);
    assert_eq!(queued[0].asset1, None);
    assert_eq!(queued[0].asset2, Some((vec![5u8; 28], b"TOK".to_vec())));
    assert_eq!(queued[0].amount1, 9_000_000);
    assert_eq!(queued[0].amount2, 4_000);
}

#[test]
fn sundae_malformed_pool_datum_is_recoverable() {
    let pool_hash = carp_core::sundaeswap_v1::pool_script_hash();
    let addr = shelley_address(&pool_hash, &[3u8; 28]);
    let tx = TxData {
        hash: vec![1u8; 32],
        payload: vec![],
        is_valid: true,
        outputs: vec![plain_output(addr, 9_000_000, vec![], Some(vec![0xd1; 32]))],
        collateral_return: None,
        inputs: vec![],
        plutus_data: vec![DatumWithHash { hash: vec![0xd1; 32], datum: num(1) }],
    };
    let mut queued = Vec::new();
    assert_eq!(
        (SundaeSwapV1 {}).queue_mean_price(&mut queued, &tx, 7),
        Err(DexError::MalformedDatum)
    );
    assert_eq!(queued.len(), 0);
}

#[test]
fn swap_amounts_follow_the_direction_rule() {
    let pool_hash = carp_core::sundaeswap_v1::pool_script_hash();
    let request_hash = carp_core::sundaeswap_v1::request_script_hash();
    let pool_addr = shelley_address(&pool_hash, &[3u8; 28]);
    let pay = [0x11u8; 28];
    let stake = [0x22u8; 28];
    let result_addr = shelley_address(&pay, &stake);
    let tok = (vec![5u8; 28], b"TOK".to_vec());

    let pool_datum = constr(0, vec![pair_tree((&[], &[]), (&tok.0, &tok.1))]);
    // request datum: fields[1] carries the target address credentials,
    // fields[3] the operation (0 = swap) and the direction flag (0 = buy)
    let cred_tree = constr(
        0,
        vec![constr(
            0,
            vec![constr(
                0,
                vec![
                    constr(0, vec![bytes(pay.to_vec())]),
                    constr(0, vec![constr(0, vec![constr(0, vec![bytes(stake.to_vec())])])]),
                ],
            )],
        )],
    );
    let request_datum = constr(
        0,
        vec![num(0), cred_tree, num(0), constr(0, vec![constr(0, vec![])])],
    );

    // the spent request input holds 10 ADA; the result output holds the tokens
    let request_input = plain_output(
        shelley_address(&request_hash, &[4u8; 28]),
        10_000_000,
        vec![],
        Some(vec![0xd2; 32]),
    );
    let spent = vec![(OutputRef { hash: vec![0xabu8; 32], index: 1 }, request_input)];
    let tx = TxData {
        hash: vec![1u8; 32],
        payload: vec![],
        is_valid: true,
        outputs: vec![
            plain_output(pool_addr.clone(), 50_000_000, vec![], Some(vec![0xd1; 32])),
            plain_output(
                result_addr,
                2_000_000,
                vec![TransferAsset { pair: Some(tok.clone()), quantity: 7_000_000 }],
                None,
            ),
        ],
        collateral_return: None,
        inputs: vec![OutputRef { hash: vec![0xabu8; 32], index: 1 }],
        plutus_data: vec![
            DatumWithHash { hash: vec![0xd1; 32], datum: pool_datum },
            DatumWithHash { hash: vec![0xd2; 32], datum: request_datum },
        ],
    };
    let mut queued = Vec::new();
    (SundaeSwapV1 {}).queue_swap(&mut queued, &tx, 9, &spent).unwrap();
    assert_eq!(queued.len(), 1);
    let e = &queued[0];
    assert_eq!(e.tx_id, 9);
    assert_eq!(e.address, pool_addr);
    assert_eq!(e.direction, DexSwapDirection::BuyAsset1);
    // buying the first leg: amount1 = held by request - SWAP_IN_ADA on the
    // ADA leg, amount2 = held by result - 0 on the token leg
    assert_eq!(e.amount1, 10_000_000 - SWAP_IN_ADA);
    assert_eq!(e.amount2, 7_000_000);
}

#[test]
fn wingriders_mean_price_subtracts_treasury_and_deposit() {
    let pool_hash = carp_core::wingriders_v1::pool_script_hash();
    let addr = shelley_address(&pool_hash, &[3u8; 28]);
    let tok = (vec![6u8; 28], b"DANA".to_vec());
    // datum: fields[1] = [assets at [0], treasury1 at [2], treasury2 at [3]]
    let datum = constr(
        0,
        vec![
            num(0),
            constr(
                0,
                vec![pair_tree((&[], &[]), (&tok.0, &tok.1)), num(0), num(100), num(200)],
            ),
        ],
    );
    let tx = TxData {
        hash: vec![1u8; 32],
        payload: vec![],
        is_valid: true,
        outputs: vec![plain_output(
            addr,
            10_000_000,
            vec![TransferAsset { pair: Some(tok.clone()), quantity: 5_000_000 }],
            Some(vec![0xd1; 32]),
        )],
        collateral_return: None,
        inputs: vec![],
        plutus_data: vec![DatumWithHash { hash: vec![0xd1; 32], datum }],
    };
    let mut queued = Vec::new();
    (carp_core::dex::WingRidersV1 {}).queue_mean_price(&mut queued, &tx, 3).unwrap();
    assert_eq!(queued.len(), 1);
    assert_eq!(queued[0].amount1, 10_000_000 - 100 - WR_V1_POOL_FIXED_ADA);
    assert_eq!(queued[0].amount2, 5_000_000 - 200);
}

#[test]
fn wingriders_underflow_is_recoverable() {
    let pool_hash = carp_core::wingriders_v1::pool_script_hash();
    let addr = shelley_address(&pool_hash, &[3u8; 28]);
    let datum = constr(
        0,
        vec![
            num(0),
            constr(
                0,
                vec![pair_tree((&[], &[]), (&[6u8; 28], b"D")), num(0), num(100), num(200)],
            ),
        ],
    );
    let tx = TxData {
        hash: vec![1u8; 32],
        payload: vec![],
        is_valid: true,
        outputs: vec![plain_output(addr, 1_000, vec![], Some(vec![0xd1; 32]))],
        collateral_return: None,
        inputs: vec![],
        plutus_data: vec![DatumWithHash { hash: vec![0xd1; 32], datum }],
    };
    let mut queued = Vec::new();
    assert_eq!(
        (carp_core::dex::WingRidersV1 {}).queue_mean_price(&mut queued, &tx, 3),
        Err(DexError::AmountUnderflow)
    );
}

#[test]
fn minswap_mean_price_reads_the_pool_output() {
    let pool_hash = carp_core::minswap_v1::pool_script_hash();
    let addr = shelley_address(&pool_hash, &[3u8; 28]);
    let tok = (vec![7u8; 28], b"MIN".to_vec());
    let datum = constr(0, vec![num(0), constr(0, vec![pair_tree((&[], &[]), (&tok.0, &tok.1))])]);
    let tx = TxData {
        hash: vec![1u8; 32],
        payload: vec![],
        is_valid: true,
        outputs: vec![plain_output(
            addr,
            2_000_000,
            vec![TransferAsset { pair: Some(tok.clone()), quantity: 30 }],
            Some(vec![0xd1; 32]),
        )],
        collateral_return: None,
        inputs: vec![],
        plutus_data: vec![DatumWithHash { hash: vec![0xd1; 32], datum }],
    };
    let mut queued = Vec::new();
    (carp_core::dex::MinSwapV1 {}).queue_mean_price(&mut queued, &tx, 3).unwrap();
    assert_eq!(queued.len(), 1);
    assert_eq!(queued[0].amount1, 2_000_000);
    assert_eq!(queued[0].amount2, 30);
    assert_eq!(queued[0].pool_type, PoolType::MinSwapV1);
}

#[test]
fn pool_type_tags_are_stable() {
    assert_eq!(i32::from(PoolType::WingRidersV1), 0);
    assert_eq!(i32::from(PoolType::SundaeSwapV1), 1);
    assert_eq!(i32::from(PoolType::MinSwapV1), 2);
    assert_eq!(i32::from(PoolType::MinSwapV2), 3);
}

#[test]
fn batched_mean_prices_resolve_ids_or_abort() {
    let pool_hash = carp_core::sundaeswap_v1::pool_script_hash();
    let addr = shelley_address(&pool_hash, &[3u8; 28]);
    let tok = (vec![5u8; 28], b"TOK".to_vec());
    let datum = constr(0, vec![pair_tree((&[], &[]), (&tok.0, &tok.1))]);
    let tx = TxData {
        hash: vec![1u8; 32],
        payload: vec![],
        is_valid: true,
        outputs: vec![plain_output(
            addr.clone(),
            9_000_000,
            vec![TransferAsset { pair: Some(tok.clone()), quantity: 4_000 }],
            Some(vec![0xd1; 32]),
        )],
        collateral_return: None,
        inputs: vec![],
        plutus_data: vec![DatumWithHash {
            hash: vec![0xd1; 32],
            datum,
        }],
    };
    let block = carp_core::ledger::BlockData {
        hash: vec![0xb1; 32],
        height: 1,
        era: 1,
        txs: vec![tx],
        spent_outputs: vec![],
    };
    let mut store = Store::new();
    store.blocks.push(BlockRow { id: 1, hash: vec![0xb0; 32], height: 0, era: 1 });
    store.transactions.push(TransactionRow {
        id: 1,
        hash: vec![1u8; 32],
        block_id: 1,
        tx_index: 0,
        payload: vec![],
        is_valid: true,
    });
    let tx_rows = vec![TransactionRow {
        id: 1,
        hash: vec![1u8; 32],
        block_id: 1,
        tx_index: 0,
        payload: vec![],
        is_valid: true,
    }];
    let resolved = insert_addresses(&vec![(addr.clone(), 1)], &mut store);

    // the pool's token is not a stored asset yet: the batch must abort
    match handle_mean_price(&mut store, &block, &tx_rows, &resolved, PoolType::SundaeSwapV1) {
        Err(FatalError::MissingAsset { policy_id, .. }) => assert_eq!(policy_id, tok.0),
        other => panic!("expected a fatal missing asset, got ok={}", other.is_ok()),
    }
    assert_eq!(store.mean_prices.len(), 0);

    // once the asset exists, the batch lands with resolved ids
    resolve_or_insert_assets(&vec![tok.clone()], &mut store);
    let warnings =
        handle_mean_price(&mut store, &block, &tx_rows, &resolved, PoolType::SundaeSwapV1).unwrap();
    assert_eq!(warnings.len(), 0);
    assert_eq!(store.mean_prices.len(), 1);
    let row = store.mean_prices[0];
    assert_eq!(row.tx_id, 1);
    assert_eq!(row.dex, 1);
    assert_eq!(row.asset1_id, None);
    assert_eq!(row.asset2_id, Some(1));
    assert_eq!(row.amount1, 9_000_000);
    assert_eq!(row.amount2, 4_000);
    assert_eq!(row.address_id, resolved[0].model.id);
}

#[test]
fn undecodable_transactions_become_warnings() {
    let pool_hash = carp_core::sundaeswap_v1::pool_script_hash();
    let addr = shelley_address(&pool_hash, &[3u8; 28]);
    // pool output present, but its datum is not a constructor tree
    let tx = TxData {
        hash: vec![1u8; 32],
        payload: vec![],
        is_valid: true,
        outputs: vec![plain_output(addr.clone(), 9_000_000, vec![], Some(vec![0xd1; 32]))],
        collateral_return: None,
        inputs: vec![],
        plutus_data: vec![DatumWithHash { hash: vec![0xd1; 32], datum: num(5) }],
    };
    let block = carp_core::ledger::BlockData {
        hash: vec![0xb1; 32],
        height: 1,
        era: 1,
        txs: vec![tx],
        spent_outputs: vec![],
    };
    let mut store = Store::new();
    store.blocks.push(BlockRow { id: 1, hash: vec![0xb0; 32], height: 0, era: 1 });
    store.transactions.push(TransactionRow {
        id: 1,
        hash: vec![1u8; 32],
        block_id: 1,
        tx_index: 0,
        payload: vec![],
        is_valid: true,
    });
    let tx_rows = vec![TransactionRow {
        id: 1,
        hash: vec![1u8; 32],
        block_id: 1,
        tx_index: 0,
        payload: vec![],
        is_valid: true,
    }];
    let resolved = insert_addresses(&vec![(addr, 1)], &mut store);
    let warnings =
        handle_mean_price(&mut store, &block, &tx_rows, &resolved, PoolType::SundaeSwapV1).unwrap();
    // the malformed transaction is reported and skipped; the block goes on
    assert_eq!(warnings.len(), 1);
    assert_eq!(warnings[0].tx_id, 1);
    assert_eq!(warnings[0].error, DexError::MalformedDatum);
    assert_eq!(store.mean_prices.len(), 0);
}

#[test]
fn swap_with_unresolved_spent_output_is_recoverable() {
    let pool_hash = carp_core::sundaeswap_v1::pool_script_hash();
    let pool_addr = shelley_address(&pool_hash, &[3u8; 28]);
    let pool_datum = constr(0, vec![pair_tree((&[], &[]), (&[5u8; 28], b"TOK"))]);
    let tx = TxData {
        hash: vec![1u8; 32],
        payload: vec![],
        is_valid: true,
        outputs: vec![plain_output(pool_addr, 1_000, vec![], Some(vec![0xd1; 32]))],
        collateral_return: None,
        inputs: vec![OutputRef { hash: vec![0xabu8; 32], index: 1 }],
        plutus_data: vec![DatumWithHash { hash: vec![0xd1; 32], datum: pool_datum }],
    };
    let mut queued = Vec::new();
    // the lookup knows nothing about the referenced output
    assert_eq!(
        (SundaeSwapV1 {}).queue_swap(&mut queued, &tx, 9, &vec![]),
        Err(DexError::MissingSpentOutput)
    );
    assert_eq!(queued.len(), 0);
}

#[test]
fn swap_without_result_output_is_recoverable() {
    let pool_hash = carp_core::sundaeswap_v1::pool_script_hash();
    let request_hash = carp_core::sundaeswap_v1::request_script_hash();
    let pool_addr = shelley_address(&pool_hash, &[3u8; 28]);
    let pay = [0x11u8; 28];
    let stake = [0x22u8; 28];
    let pool_datum = constr(0, vec![pair_tree((&[], &[]), (&[5u8; 28], b"TOK"))]);
    let cred_tree = constr(
        0,
        vec![constr(
            0,
            vec![constr(
                0,
                vec![
                    constr(0, vec![bytes(pay.to_vec())]),
                    constr(0, vec![constr(0, vec![constr(0, vec![bytes(stake.to_vec())])])]),
                ],
            )],
        )],
    );
    let request_datum = constr(
        0,
        vec![num(0), cred_tree, num(0), constr(0, vec![constr(0, vec![])])],
    );
    let request_input = plain_output(
        shelley_address(&request_hash, &[4u8; 28]),
        10_000_000,
        vec![],
        Some(vec![0xd2; 32]),
    );
    let spent = vec![(OutputRef { hash: vec![0xabu8; 32], index: 1 }, request_input)];
    // no output pays to the request's target address
    let tx = TxData {
        hash: vec![1u8; 32],
        payload: vec![],
        is_valid: true,
        outputs: vec![plain_output(pool_addr, 1_000, vec![], Some(vec![0xd1; 32]))],
        collateral_return: None,
        inputs: vec![OutputRef { hash: vec![0xabu8; 32], index: 1 }],
        plutus_data: vec![
            DatumWithHash { hash: vec![0xd1; 32], datum: pool_datum },
            DatumWithHash { hash: vec![0xd2; 32], datum: request_datum },
        ],
    };
    let mut queued = Vec::new();
    assert_eq!(
        (SundaeSwapV1 {}).queue_swap(&mut queued, &tx, 9, &spent),
        Err(DexError::MissingResultOutput)
    );
}

#[test]
fn the_placeholder_protocol_decodes_nothing() {
    let tx = TxData {
        hash: vec![1u8; 32],
        payload: vec![],
        is_valid: true,
        outputs: vec![],
        collateral_return: None,
        inputs: vec![],
        plutus_data: vec![],
    };
    let mut queued = Vec::new();
    assert!((Empty {}).queue_mean_price(&mut queued, &tx, 1).is_err());
    assert_eq!(queued.len(), 0);
}

#[test]
fn missing_resolved_address_is_fatal_for_the_batch() {
    let pool_hash = carp_core::sundaeswap_v1::pool_script_hash();
    let addr = shelley_address(&pool_hash, &[3u8; 28]);
    let datum = constr(0, vec![pair_tree((&[], &[]), (&[5u8; 28], b"TOK"))]);
    let tx = TxData {
        hash: vec![1u8; 32],
        payload: vec![],
        is_valid: true,
        outputs: vec![plain_output(addr, 9_000_000, vec![], Some(vec![0xd1; 32]))],
        collateral_return: None,
        inputs: vec![],
        plutus_data: vec![DatumWithHash { hash: vec![0xd1; 32], datum }],
    };
    let block = carp_core::ledger::BlockData {
        hash: vec![0xb1; 32],
        height: 1,
        era: 1,
        txs: vec![tx],
        spent_outputs: vec![],
    };
    let mut store = Store::new();
    store.transactions.push(TransactionRow {
        id: 1,
        hash: vec![1u8; 32],
        block_id: 1,
        tx_index: 0,
        payload: vec![],
        is_valid: true,
    });
    let tx_rows = vec![TransactionRow {
        id: 1,
        hash: vec![1u8; 32],
        block_id: 1,
        tx_index: 0,
        payload: vec![],
        is_valid: true,
    }];
    // the block's address map knows nothing of the pool address
    match handle_mean_price(&mut store, &block, &tx_rows, &vec![], PoolType::SundaeSwapV1) {
        Err(FatalError::MissingAddress { .. }) => {}
        other => panic!("expected a fatal missing address, got ok={}", other.is_ok()),
    }
    assert_eq!(store.mean_prices.len(), 0);
}
