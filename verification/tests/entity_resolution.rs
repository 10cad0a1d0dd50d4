use carp_core::era_common::{
    get_truncated_address, insert_addresses, find_resolved_address, get_outputs_for_inputs,
    gen_input_to_output_map, insert_inputs, transactions_from_hashes, block_from_hash,
    output_from_pointer, input_from_pointer,
};
use carp_core::assets::{resolve_or_insert_assets, asset_from_pair, handle_assets, QueuedAssetTransfer};
use carp_core::ledger::{OutputRef, TransferAsset};
use carp_core::store::{Store, FatalError, TransactionRow, TransactionOutputRow, BlockRow};

fn store_with_one_tx() -> Store {
    let mut store = Store::new();
    store.blocks.push(BlockRow { id: 1, hash: vec![9u8; 32], height: 0, era: 1 });
    store.transactions.push(TransactionRow {
        id: 1,
        hash: vec![1u8; 32],
        block_id: 1,
        tx_index: 0,
        payload: vec![0xaa],
        is_valid: true,
    });
    store.addresses.push(carp_core::store::AddressRow { id: 1, payload: vec![7u8; 20], first_tx: 1 });
    store.outputs.push(TransactionOutputRow {
        id: 1,
        tx_id: 1,
        output_index: 0,
        address_id: 1,
        payload: vec![0xbb],
    });
    store
}

#[test]
fn truncation_keeps_short_addresses_whole() {
    let addr = vec![5u8; 42];
    assert_eq!(get_truncated_address(&addr), &addr[..]);
    let long = vec![6u8; 777];
    assert_eq!(get_truncated_address(&long).len(), 500);
    assert_eq!(get_truncated_address(&long), &long[0..500]);
}

#[test]
fn address_dedup_idempotent_across_calls() {
    let mut store = Store::new();
    let raw = vec![3u8; 40];
    let first = insert_addresses(&vec![(raw.clone(), 5)], &mut store);
    assert_eq!(first.len(), 1);
    assert!(first[0].is_new);
    let first_id = first[0].model.id;
    // a later block resolves the same raw address: same id, not new
    let second = insert_addresses(&vec![(raw.clone(), 9)], &mut store);
    assert_eq!(second.len(), 1);
    assert!(!second[0].is_new);
    assert_eq!(second[0].model.id, first_id);
    assert_eq!(store.addresses.len(), 1);
}

#[test]
fn truncation_determinism_shares_the_row() {
    let mut store = Store::new();
    let mut a = vec![1u8; 600];
    let mut b = vec![1u8; 600];
    a[550] = 42; // differ only beyond the truncation boundary
    b[550] = 43;
    let res = insert_addresses(&vec![(a.clone(), 2), (b.clone(), 7)], &mut store);
    assert_eq!(res.len(), 1);
    assert_eq!(store.addresses.len(), 1);
    let ea = find_resolved_address(&res, &a).unwrap();
    let eb = find_resolved_address(&res, &b).unwrap();
    assert_eq!(ea.model.id, eb.model.id);
}

#[test]
fn insertion_order_follows_first_seen_tx() {
    let mut store = Store::new();
    let a = vec![0xaau8; 10];
    let b = vec![0xbbu8; 10];
    let c = vec![0xccu8; 10];
    // input order deliberately A, B, C while first-seen ids say B, A, C
    let res = insert_addresses(
        &vec![(a.clone(), 5), (b.clone(), 2), (c.clone(), 9)],
        &mut store,
    );
    assert_eq!(res.len(), 3);
    assert_eq!(store.addresses.len(), 3);
    assert_eq!(store.addresses[0].payload, b);
    assert_eq!(store.addresses[0].id, 1);
    assert_eq!(store.addresses[1].payload, a);
    assert_eq!(store.addresses[1].id, 2);
    assert_eq!(store.addresses[2].payload, c);
    assert_eq!(store.addresses[2].id, 3);
    // and the same candidates in another order give the same rows
    let mut store2 = Store::new();
    insert_addresses(&vec![(c, 9), (a, 5), (b, 2)], &mut store2);
    for i in 0..3 {
        assert_eq!(store.addresses[i].payload, store2.addresses[i].payload);
        assert_eq!(store.addresses[i].id, store2.addresses[i].id);
        assert_eq!(store.addresses[i].first_tx, store2.addresses[i].first_tx);
    }
}

#[test]
fn spent_output_lookup_is_complete() {
    let mut store = store_with_one_tx();
    let inputs = vec![(vec![OutputRef { hash: vec![1u8; 32], index: 0 }], 1i64)];
    let pairs = get_outputs_for_inputs(&inputs, &store);
    assert_eq!(pairs.len(), 1);
    let map = gen_input_to_output_map(&pairs);
    assert!(map.get(&vec![1u8; 32], 0).is_some());
    let rows = insert_inputs(&inputs, &map, &mut store).unwrap();
    assert_eq!(rows.len(), 1);
    assert_eq!(rows[0].utxo_id, 1);
    assert_eq!(rows[0].tx_id, 1);
    assert_eq!(rows[0].input_index, 0);
    assert_eq!(store.inputs.len(), 1);
}

#[test]
fn fabricated_spent_output_is_fatal() {
    let mut store = store_with_one_tx();
    let ghost_ref = OutputRef { hash: vec![0xeeu8; 32], index: 3 };
    let inputs = vec![(vec![ghost_ref], 1i64)];
    let pairs = get_outputs_for_inputs(&inputs, &store);
    assert_eq!(pairs.len(), 0);
    let map = gen_input_to_output_map(&pairs);
    let before = store.inputs.len();
    match insert_inputs(&inputs, &map, &mut store) {
        Err(FatalError::MissingOutput { tx_hash, output_index }) => {
            assert_eq!(tx_hash, vec![0xeeu8; 32]);
            assert_eq!(output_index, 3);
        }
        _ => panic!("an unresolvable input must abort"),
    }
    assert_eq!(store.inputs.len(), before);
}

#[test]
fn asset_resolution_reuses_and_sorts() {
    let mut store = Store::new();
    let p1 = (vec![2u8; 28], vec![b'Z'].to_vec());
    let p2 = (vec![1u8; 28], vec![b'A'].to_vec());
    let res = resolve_or_insert_assets(&vec![p1.clone(), p2.clone(), p1.clone()], &mut store);
    assert_eq!(res.len(), 2);
    assert_eq!(store.assets.len(), 2);
    // batch order is ascending (policy id, asset name)
    assert_eq!(store.assets[0].policy_id, p2.0);
    assert_eq!(store.assets[1].policy_id, p1.0);
    let again = resolve_or_insert_assets(&vec![p1.clone()], &mut store);
    assert_eq!(again.len(), 1);
    assert_eq!(store.assets.len(), 2);
    let found = asset_from_pair(&store, &vec![p2.clone()]);
    assert_eq!(found.len(), 1);
    assert_eq!(found[0].id, 1);
}

#[test]
fn ada_transfer_touches_no_asset_row() {
    let mut store = store_with_one_tx();
    let queued = vec![QueuedAssetTransfer {
        output_pointer: (1, 0),
        asset: TransferAsset { pair: None, quantity: 1_000_000 },
    }];
    let outs = vec![TransactionOutputRow {
        id: 1,
        tx_id: 1,
        output_index: 0,
        address_id: 1,
        payload: vec![0xbb],
    }];
    let assets_before = store.assets.len();
    handle_assets(&queued, &outs, &Vec::new(), &mut store).unwrap();
    assert_eq!(store.assets.len(), assets_before);
    assert_eq!(store.asset_transfers.len(), 1);
    assert_eq!(store.asset_transfers[0].asset_id, None);
    assert_eq!(store.asset_transfers[0].amount, 1_000_000);
    assert_eq!(store.asset_transfers[0].utxo_id, 1);
}

#[test]
fn store_queries_find_their_rows() {
    let store = store_with_one_tx();
    let txs = transactions_from_hashes(&store, &vec![vec![1u8; 32]]).unwrap();
    assert_eq!(txs.len(), 1);
    assert_eq!(txs[0].id, 1);
    match transactions_from_hashes(&store, &vec![vec![2u8; 32]]) {
        Err(FatalError::MissingTransaction { hash }) => assert_eq!(hash, vec![2u8; 32]),
        _ => panic!("a missing transaction hash must be fatal"),
    }
    let b = block_from_hash(&store, &vec![9u8; 32]).unwrap();
    assert_eq!(b.id, 1);
    assert!(block_from_hash(&store, &vec![8u8; 32]).is_err());
    let outs = output_from_pointer(&store, &vec![(1, 0)]);
    assert_eq!(outs.len(), 1);
    assert_eq!(outs[0].id, 1);
    let ins = input_from_pointer(&store, &vec![(1, 0)]);
    assert_eq!(ins.len(), 0);
}

#[test]
fn transfer_with_unknown_pointer_is_fatal() {
    let mut store = store_with_one_tx();
    let queued = vec![QueuedAssetTransfer {
        output_pointer: (1, 9),
        asset: TransferAsset { pair: None, quantity: 5 },
    }];
    match handle_assets(&queued, &Vec::new(), &Vec::new(), &mut store) {
        Err(FatalError::MissingOutputPointer { tx_id, output_index }) => {
            assert_eq!(tx_id, 1);
            assert_eq!(output_index, 9);
        }
        other => panic!("expected a fatal missing pointer, got ok={}", other.is_ok()),
    }
    assert_eq!(store.asset_transfers.len(), 0);
}
