use carp_core::executor::{
    default_registry, validate_registration, execute_block, TaskDescriptor, TaskKind, ContextKey,
    RegistrationError,
};
use carp_core::byron::{process_byron_block, ByronBlockData, ByronTxData, ByronTxOut, ByronTxIn};
use carp_core::codecs::fatal_error_hex;
use carp_core::ledger::{BlockData, TxData, TxOutputData, OutputRef, TransferAsset};
use carp_core::store::{Store, FatalError, BlockRow};

fn plain_output(address: Vec<u8>, coin: u64) -> TxOutputData {
    TxOutputData { address, payload: vec![0x0f], coin, assets: vec![], datum_hash: None }
}

fn simple_block(hash: u8, txs: Vec<TxData>) -> BlockData {
    BlockData { hash: vec![hash; 32], height: 1, era: 1, txs, spent_outputs: vec![] }
}

fn simple_tx(hash: u8, outputs: Vec<TxOutputData>, inputs: Vec<OutputRef>) -> TxData {
    TxData {
        hash: vec![hash; 32],
        payload: vec![0x55],
        is_valid: true,
        outputs,
        collateral_return: None,
        inputs,
        plutus_data: vec![],
    }
}

#[test]
fn registry_validates_and_orders_tasks() {
    let tasks = default_registry();
    let order = validate_registration(&tasks).unwrap();
    assert_eq!(order.len(), tasks.len());
    // the block task must come before the transaction task
    let pos = |k: TaskKind| order.iter().position(|&i| tasks[i].kind == k).unwrap();
    assert!(pos(TaskKind::MultieraBlockTask) < pos(TaskKind::MultieraTransactionTask));
    assert!(pos(TaskKind::MultieraTransactionTask) < pos(TaskKind::MultieraAddressTask));
    assert!(pos(TaskKind::MultieraAddressTask) < pos(TaskKind::MultieraUsedOutputTask));
    assert!(pos(TaskKind::MultieraUsedOutputTask) < pos(TaskKind::MultieraAssetTransferTask));
}

#[test]
fn read_without_writer_fails_at_registration() {
    // a single task reading a key that nothing writes must be refused
    // before any block is processed
    let tasks = vec![TaskDescriptor {
        kind: TaskKind::WingRidersTask,
        dependencies: vec![],
        reads: vec![ContextKey::MultieraTxs],
        writes: vec![],
    }];
    match validate_registration(&tasks) {
        Err(RegistrationError::ReadWithoutWriter { key }) => {
            assert_eq!(key, ContextKey::MultieraTxs);
        }
        other => panic!("expected a refused registration, got {:?}", other.is_ok()),
    }
}

#[test]
fn missing_dependency_fails_at_registration() {
    let tasks = vec![TaskDescriptor {
        kind: TaskKind::WingRidersTask,
        dependencies: vec![TaskKind::MultieraBlockTask],
        reads: vec![],
        writes: vec![],
    }];
    assert!(matches!(
        validate_registration(&tasks),
        Err(RegistrationError::MissingDependency { .. })
    ));
}

#[test]
fn executed_block_lands_in_every_table() {
    let tasks = default_registry();
    let order = validate_registration(&tasks).unwrap();
    let mut store = Store::new();
    let out = plain_output(vec![0x61u8; 30], 2_000_000);
    let block = simple_block(0x10, vec![simple_tx(0x20, vec![out], vec![])]);
    let warnings = execute_block(&tasks, &order, &block, &mut store).unwrap();
    assert_eq!(warnings.len(), 0);
    assert_eq!(store.blocks.len(), 1);
    assert_eq!(store.transactions.len(), 1);
    assert_eq!(store.transactions[0].hash, vec![0x20u8; 32]);
    assert_eq!(store.outputs.len(), 1);
    assert_eq!(store.addresses.len(), 1);
    assert_eq!(store.addresses[0].payload, vec![0x61u8; 30]);
    // the ADA movement into the output was recorded against the sentinel
    assert_eq!(store.asset_transfers.len(), 1);
    assert_eq!(store.asset_transfers[0].asset_id, None);
    assert_eq!(store.asset_transfers[0].amount, 2_000_000);
}

#[test]
fn failed_block_leaves_no_partial_rows() {
    let tasks = default_registry();
    let order = validate_registration(&tasks).unwrap();
    let mut store = Store::new();
    // first, one good block
    let block1 = simple_block(0x10, vec![simple_tx(0x20, vec![plain_output(vec![0x61u8; 30], 7)], vec![])]);
    execute_block(&tasks, &order, &block1, &mut store).unwrap();
    let blocks = store.blocks.len();
    let txs = store.transactions.len();
    let outs = store.outputs.len();
    let ins = store.inputs.len();
    let addrs = store.addresses.len();
    let transfers = store.asset_transfers.len();
    // then a block spending an output the ledger never produced
    let ghost_ref = OutputRef { hash: vec![0xeeu8; 32], index: 0 };
    let block2 = simple_block(0x11, vec![simple_tx(0x21, vec![plain_output(vec![0x62u8; 30], 9)], vec![ghost_ref])]);
    match execute_block(&tasks, &order, &block2, &mut store) {
        Err(FatalError::MissingOutput { .. }) => {}
        other => panic!("expected a fatal abort, got ok={}", other.is_ok()),
    }
    assert_eq!(store.blocks.len(), blocks);
    assert_eq!(store.transactions.len(), txs);
    assert_eq!(store.outputs.len(), outs);
    assert_eq!(store.inputs.len(), ins);
    assert_eq!(store.addresses.len(), addrs);
    assert_eq!(store.asset_transfers.len(), transfers);
}

#[test]
fn chained_blocks_spend_prior_outputs() {
    let tasks = default_registry();
    let order = validate_registration(&tasks).unwrap();
    let mut store = Store::new();
    let block1 = simple_block(0x10, vec![simple_tx(0x20, vec![plain_output(vec![0x61u8; 30], 7)], vec![])]);
    execute_block(&tasks, &order, &block1, &mut store).unwrap();
    let spend = OutputRef { hash: vec![0x20u8; 32], index: 0 };
    let block2 = simple_block(0x11, vec![simple_tx(0x21, vec![plain_output(vec![0x62u8; 30], 3)], vec![spend])]);
    execute_block(&tasks, &order, &block2, &mut store).unwrap();
    assert_eq!(store.inputs.len(), 1);
    assert_eq!(store.inputs[0].utxo_id, 1);
    assert_eq!(store.inputs[0].tx_id, 2);
}

#[test]
fn byron_blocks_hash_and_store_their_transactions() {
    let mut store = Store::new();
    store.blocks.push(BlockRow { id: 1, hash: vec![0x30u8; 32], height: 0, era: 0 });
    let db_block = BlockRow { id: 1, hash: vec![0x30u8; 32], height: 0, era: 0 };
    let tx = ByronTxData {
        transaction_payload: vec![1, 2, 3],
        full_payload: vec![1, 2, 3, 4],
        outputs: vec![ByronTxOut { address: vec![0x82u8; 40], payload: vec![0x9] }],
        inputs: vec![],
    };
    let byron_block = ByronBlockData::Main { txs: vec![tx] };
    process_byron_block(&mut store, &db_block, &byron_block).unwrap();
    assert_eq!(store.transactions.len(), 1);
    assert_eq!(
        store.transactions[0].hash,
        cryptoxide::hashing::blake2b_256(&[1, 2, 3]).to_vec()
    );
    assert_eq!(store.transactions[0].payload, vec![1, 2, 3, 4]);
    assert!(store.transactions[0].is_valid);
    assert_eq!(store.outputs.len(), 1);
    assert_eq!(store.addresses.len(), 1);
    // boundary blocks write nothing
    let before = store.transactions.len();
    process_byron_block(&mut store, &db_block, &ByronBlockData::Boundary).unwrap();
    assert_eq!(store.transactions.len(), before);
}

#[test]
fn byron_reserved_inputs_are_refused() {
    let mut store = Store::new();
    let db_block = BlockRow { id: 1, hash: vec![0x30u8; 32], height: 0, era: 0 };
    let tx = ByronTxData {
        transaction_payload: vec![9],
        full_payload: vec![9, 9],
        outputs: vec![],
        inputs: vec![ByronTxIn::Other { tag: 2, payload: vec![] }],
    };
    let byron_block = ByronBlockData::Main { txs: vec![tx] };
    match process_byron_block(&mut store, &db_block, &byron_block) {
        Err(FatalError::UnsupportedInput { tag }) => assert_eq!(tag, 2),
        other => panic!("expected an unsupported-input abort, got ok={}", other.is_ok()),
    }
    assert_eq!(store.transactions.len(), 0);
}

#[test]
fn fatal_reports_render_their_hashes_in_hex() {
    let e = FatalError::MissingTransaction { hash: vec![0xde, 0xad, 0xbe, 0xef] };
    let rendered = fatal_error_hex(&e).unwrap();
    assert_eq!(rendered, "deadbeef");
    assert_eq!(rendered, hex::encode(&[0xde, 0xad, 0xbe, 0xef]));
    assert!(fatal_error_hex(&FatalError::CapacityExceeded).is_none());
}

#[test]
fn repeated_transaction_identities_are_refused() {
    let mut store = Store::new();
    store.blocks.push(BlockRow { id: 1, hash: vec![0x30u8; 32], height: 0, era: 0 });
    let db_block = BlockRow { id: 1, hash: vec![0x30u8; 32], height: 0, era: 0 };
    let tx = ByronTxData {
        transaction_payload: vec![1, 2, 3],
        full_payload: vec![1, 2, 3, 4],
        outputs: vec![],
        inputs: vec![],
    };
    let dup = ByronTxData {
        transaction_payload: vec![1, 2, 3],
        full_payload: vec![1, 2, 3, 4],
        outputs: vec![],
        inputs: vec![],
    };
    let byron_block = ByronBlockData::Main { txs: vec![tx, dup] };
    match process_byron_block(&mut store, &db_block, &byron_block) {
        Err(FatalError::DuplicateRow { .. }) => {}
        other => panic!("expected a duplicate-identity abort, got ok={}", other.is_ok()),
    }
    // the failed block committed nothing
    assert_eq!(store.transactions.len(), 0);
}
