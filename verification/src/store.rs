//! In-memory model of the persistent relational store. One `Store` value holds
//! every table the indexer writes; a block's transactional scope is a working
//! copy of the whole value, committed by assignment only after every task of
//! the block has succeeded, so a failed block leaves no partial rows.
//!
//! Row ids are store-assigned: the id of a row is its position in its table
//! plus one, so batch inserts assign consecutive ascending ids in batch order.

use vstd::prelude::*;
use crate::ledger::DexSwapDirection;

verus! {

pub struct BlockRow {
    pub id: i64,
    pub hash: Vec<u8>,
    pub height: i64,
    pub era: i32,
}

pub struct TransactionRow {
    pub id: i64,
    pub hash: Vec<u8>,
    pub block_id: i64,
    pub tx_index: i32,
    pub payload: Vec<u8>,
    pub is_valid: bool,
}

pub struct TransactionOutputRow {
    pub id: i64,
    pub tx_id: i64,
    pub output_index: i32,
    pub address_id: i64,
    pub payload: Vec<u8>,
}

#[derive(Clone, Copy, PartialEq, Eq, Structural)]
pub struct TransactionInputRow {
    pub id: i64,
    pub utxo_id: i64,
    pub address_id: i64,
    pub tx_id: i64,
    pub input_index: i32,
}

pub struct AddressRow {
    pub id: i64,
    pub payload: Vec<u8>,
    pub first_tx: i64,
}

pub struct NativeAssetRow {
    pub id: i64,
    pub policy_id: Vec<u8>,
    pub asset_name: Vec<u8>,
}

#[derive(Clone, Copy, PartialEq, Eq, Structural)]
pub struct AssetTransferRow {
    pub id: i64,
    pub utxo_id: i64,
    pub asset_id: Option<i64>,
    pub amount: u64,
}

#[derive(Clone, Copy, PartialEq, Eq, Structural)]
pub struct DexMeanPriceRow {
    pub id: i64,
    pub tx_id: i64,
    pub address_id: i64,
    pub dex: i32,
    pub asset1_id: Option<i64>,
    pub asset2_id: Option<i64>,
    pub amount1: u64,
    pub amount2: u64,
}

#[derive(Clone, Copy, PartialEq, Eq, Structural)]
pub struct DexSwapRow {
    pub id: i64,
    pub tx_id: i64,
    pub address_id: i64,
    pub dex: i32,
    pub asset1_id: Option<i64>,
    pub asset2_id: Option<i64>,
    pub amount1: u64,
    pub amount2: u64,
    pub direction: DexSwapDirection,
}

/// Every table of the store.
pub struct Store {
    pub blocks: Vec<BlockRow>,
    pub transactions: Vec<TransactionRow>,
    pub outputs: Vec<TransactionOutputRow>,
    pub inputs: Vec<TransactionInputRow>,
    pub addresses: Vec<AddressRow>,
    pub assets: Vec<NativeAssetRow>,
    pub asset_transfers: Vec<AssetTransferRow>,
    pub mean_prices: Vec<DexMeanPriceRow>,
    pub swaps: Vec<DexSwapRow>,
}

/// Structural inconsistency between the ingested chain and the store: the
/// block must be aborted with no partial writes, and ingestion halted.
#[derive(Debug)]
pub enum FatalError {
    /// A block spends an output the ledger never produced.
    MissingOutput { tx_hash: Vec<u8>, output_index: u64 },
    /// A transaction-hash lookup returned fewer rows than requested.
    MissingTransaction { hash: Vec<u8> },
    /// A block-hash lookup found nothing.
    MissingBlock { hash: Vec<u8> },
    /// An event references a native asset the store does not hold.
    MissingAsset { policy_id: Vec<u8>, asset_name: Vec<u8> },
    /// An event references an address the block did not resolve.
    MissingAddress { payload: Vec<u8> },
    /// A queued transfer points at an output position the block never produced.
    MissingOutputPointer { tx_id: i64, output_index: u64 },
    /// An input uses an encoding the core does not support.
    UnsupportedInput { tag: u64 },
    /// A block or transaction identity is already stored.
    DuplicateRow { hash: Vec<u8> },
    /// A batch would push a table past the id space of the store.
    CapacityExceeded,
    /// A context value does not match the rows the store holds.
    ContextMismatch,
}

// ---------------------------------------------------------------------------
// Row equivalence (field-by-field, byte payloads compared by content)

pub open spec fn block_row_eqv(a: BlockRow, b: BlockRow) -> bool {
    a.id == b.id && a.hash@ == b.hash@ && a.height == b.height && a.era == b.era
}

pub open spec fn tx_row_eqv(a: TransactionRow, b: TransactionRow) -> bool {
    &&& a.id == b.id
    &&& a.hash@ == b.hash@
    &&& a.block_id == b.block_id
    &&& a.tx_index == b.tx_index
    &&& a.payload@ == b.payload@
    &&& a.is_valid == b.is_valid
}

pub open spec fn output_row_eqv(a: TransactionOutputRow, b: TransactionOutputRow) -> bool {
    &&& a.id == b.id
    &&& a.tx_id == b.tx_id
    &&& a.output_index == b.output_index
    &&& a.address_id == b.address_id
    &&& a.payload@ == b.payload@
}

pub open spec fn addr_row_eqv(a: AddressRow, b: AddressRow) -> bool {
    a.id == b.id && a.payload@ == b.payload@ && a.first_tx == b.first_tx
}

pub open spec fn asset_row_eqv(a: NativeAssetRow, b: NativeAssetRow) -> bool {
    a.id == b.id && a.policy_id@ == b.policy_id@ && a.asset_name@ == b.asset_name@
}

// ---------------------------------------------------------------------------
// Well-formedness

pub open spec fn wf_blocks(rows: Seq<BlockRow>) -> bool {
    &&& forall|i: int| 0 <= i < rows.len() ==> (#[trigger] rows[i]).id == i + 1
    &&& forall|i: int, j: int|
        0 <= i < j < rows.len() ==> (#[trigger] rows[i]).hash@ != (#[trigger] rows[j]).hash@
}

pub open spec fn wf_transactions(rows: Seq<TransactionRow>) -> bool {
    &&& forall|i: int| 0 <= i < rows.len() ==> (#[trigger] rows[i]).id == i + 1
    &&& forall|i: int, j: int|
        0 <= i < j < rows.len() ==> (#[trigger] rows[i]).hash@ != (#[trigger] rows[j]).hash@
}

pub open spec fn wf_outputs(rows: Seq<TransactionOutputRow>, n_tx: int, n_addr: int) -> bool {
    &&& forall|i: int| 0 <= i < rows.len() ==> (#[trigger] rows[i]).id == i + 1
    &&& forall|i: int|
        0 <= i < rows.len() ==> 0 < (#[trigger] rows[i]).tx_id <= n_tx && 0 < rows[i].address_id
            <= n_addr && rows[i].output_index >= 0
    &&& forall|i: int, j: int|
        0 <= i < j < rows.len() ==> !((#[trigger] rows[i]).tx_id == (#[trigger] rows[j]).tx_id
            && rows[i].output_index == rows[j].output_index)
}

pub open spec fn wf_inputs(rows: Seq<TransactionInputRow>, n_out: int, n_tx: int, n_addr: int) -> bool {
    &&& forall|i: int| 0 <= i < rows.len() ==> (#[trigger] rows[i]).id == i + 1
    &&& forall|i: int|
        0 <= i < rows.len() ==> 0 < (#[trigger] rows[i]).utxo_id <= n_out && 0 < rows[i].tx_id
            <= n_tx && 0 < rows[i].address_id <= n_addr && rows[i].input_index >= 0
}

pub open spec fn wf_addresses(rows: Seq<AddressRow>) -> bool {
    &&& forall|i: int| 0 <= i < rows.len() ==> (#[trigger] rows[i]).id == i + 1
    &&& forall|i: int, j: int|
        0 <= i < j < rows.len() ==> (#[trigger] rows[i]).payload@ != (#[trigger] rows[j]).payload@
    &&& forall|i: int|
        0 <= i < rows.len() ==> (#[trigger] rows[i]).payload@.len()
            <= crate::era_common::ADDRESS_TRUNCATE
}

pub open spec fn wf_assets(rows: Seq<NativeAssetRow>) -> bool {
    &&& forall|i: int| 0 <= i < rows.len() ==> (#[trigger] rows[i]).id == i + 1
    &&& forall|i: int, j: int|
        0 <= i < j < rows.len() ==> !((#[trigger] rows[i]).policy_id@ == (#[trigger] rows[j]).policy_id@
            && rows[i].asset_name@ == rows[j].asset_name@)
    &&& forall|i: int|
        0 <= i < rows.len() ==> !((#[trigger] rows[i]).policy_id@.len() == 0
            && rows[i].asset_name@.len() == 0)
}

pub open spec fn wf_asset_transfers(rows: Seq<AssetTransferRow>, n_out: int, n_asset: int) -> bool {
    &&& forall|i: int| 0 <= i < rows.len() ==> (#[trigger] rows[i]).id == i + 1
    &&& forall|i: int|
        0 <= i < rows.len() ==> 0 < (#[trigger] rows[i]).utxo_id <= n_out && match rows[i].asset_id {
            Some(a) => 0 < a <= n_asset,
            None => true,
        }
}

pub open spec fn wf_mean_prices(rows: Seq<DexMeanPriceRow>, n_tx: int, n_addr: int, n_asset: int) -> bool {
    &&& forall|i: int| 0 <= i < rows.len() ==> (#[trigger] rows[i]).id == i + 1
    &&& forall|i: int|
        0 <= i < rows.len() ==> 0 < (#[trigger] rows[i]).tx_id <= n_tx && 0 < rows[i].address_id
            <= n_addr && match rows[i].asset1_id {
            Some(a) => 0 < a <= n_asset,
            None => true,
        } && match rows[i].asset2_id {
            Some(a) => 0 < a <= n_asset,
            None => true,
        }
}

pub open spec fn wf_swaps(rows: Seq<DexSwapRow>, n_tx: int, n_addr: int, n_asset: int) -> bool {
    &&& forall|i: int| 0 <= i < rows.len() ==> (#[trigger] rows[i]).id == i + 1
    &&& forall|i: int|
        0 <= i < rows.len() ==> 0 < (#[trigger] rows[i]).tx_id <= n_tx && 0 < rows[i].address_id
            <= n_addr && match rows[i].asset1_id {
            Some(a) => 0 < a <= n_asset,
            None => true,
        } && match rows[i].asset2_id {
            Some(a) => 0 < a <= n_asset,
            None => true,
        }
}

/// Relational integrity of the whole store.
pub open spec fn wf_store(s: Store) -> bool {
    &&& wf_blocks(s.blocks@)
    &&& wf_transactions(s.transactions@)
    &&& wf_outputs(s.outputs@, s.transactions@.len() as int, s.addresses@.len() as int)
    &&& wf_inputs(
        s.inputs@,
        s.outputs@.len() as int,
        s.transactions@.len() as int,
        s.addresses@.len() as int,
    )
    &&& wf_addresses(s.addresses@)
    &&& wf_assets(s.assets@)
    &&& wf_asset_transfers(s.asset_transfers@, s.outputs@.len() as int, s.assets@.len() as int)
    &&& wf_mean_prices(
        s.mean_prices@,
        s.transactions@.len() as int,
        s.addresses@.len() as int,
        s.assets@.len() as int,
    )
    &&& wf_swaps(
        s.swaps@,
        s.transactions@.len() as int,
        s.addresses@.len() as int,
        s.assets@.len() as int,
    )
}

// ---------------------------------------------------------------------------
// Append-only extension

pub open spec fn blocks_extend(a: Seq<BlockRow>, b: Seq<BlockRow>) -> bool {
    a.len() <= b.len() && forall|i: int| 0 <= i < a.len() ==> block_row_eqv(a[i], #[trigger] b[i])
}

pub open spec fn txs_extend(a: Seq<TransactionRow>, b: Seq<TransactionRow>) -> bool {
    a.len() <= b.len() && forall|i: int| 0 <= i < a.len() ==> tx_row_eqv(a[i], #[trigger] b[i])
}

pub open spec fn outputs_extend(a: Seq<TransactionOutputRow>, b: Seq<TransactionOutputRow>) -> bool {
    a.len() <= b.len() && forall|i: int| 0 <= i < a.len() ==> output_row_eqv(a[i], #[trigger] b[i])
}

pub open spec fn addrs_extend(a: Seq<AddressRow>, b: Seq<AddressRow>) -> bool {
    a.len() <= b.len() && forall|i: int| 0 <= i < a.len() ==> addr_row_eqv(a[i], #[trigger] b[i])
}

pub open spec fn assets_extend(a: Seq<NativeAssetRow>, b: Seq<NativeAssetRow>) -> bool {
    a.len() <= b.len() && forall|i: int| 0 <= i < a.len() ==> asset_row_eqv(a[i], #[trigger] b[i])
}

/// The store only ever grows: every row of `a` is still present, unchanged,
/// at the same position in `b`.
pub open spec fn store_extends(a: Store, b: Store) -> bool {
    &&& blocks_extend(a.blocks@, b.blocks@)
    &&& txs_extend(a.transactions@, b.transactions@)
    &&& outputs_extend(a.outputs@, b.outputs@)
    &&& a.inputs@.is_prefix_of(b.inputs@)
    &&& addrs_extend(a.addresses@, b.addresses@)
    &&& assets_extend(a.assets@, b.assets@)
    &&& a.asset_transfers@.is_prefix_of(b.asset_transfers@)
    &&& a.mean_prices@.is_prefix_of(b.mean_prices@)
    &&& a.swaps@.is_prefix_of(b.swaps@)
}

// ---------------------------------------------------------------------------
// Lookup predicates

pub open spec fn has_address(rows: Seq<AddressRow>, payload: Seq<u8>) -> bool {
    exists|i: int| 0 <= i < rows.len() && (#[trigger] rows[i]).payload@ == payload
}

pub open spec fn address_index(rows: Seq<AddressRow>, payload: Seq<u8>) -> int {
    choose|i: int| 0 <= i < rows.len() && (#[trigger] rows[i]).payload@ == payload
}

pub open spec fn has_asset(rows: Seq<NativeAssetRow>, policy: Seq<u8>, name: Seq<u8>) -> bool {
    exists|i: int|
        0 <= i < rows.len() && (#[trigger] rows[i]).policy_id@ == policy && rows[i].asset_name@
            == name
}

pub open spec fn asset_index(rows: Seq<NativeAssetRow>, policy: Seq<u8>, name: Seq<u8>) -> int {
    choose|i: int|
        0 <= i < rows.len() && (#[trigger] rows[i]).policy_id@ == policy && rows[i].asset_name@
            == name
}

pub open spec fn has_tx_hash(rows: Seq<TransactionRow>, hash: Seq<u8>) -> bool {
    exists|i: int| 0 <= i < rows.len() && (#[trigger] rows[i]).hash@ == hash
}

/// Whether the store holds an output identified by (producing tx hash, index).
pub open spec fn has_output_ref(s: Store, tx_hash: Seq<u8>, index: int) -> bool {
    exists|i: int|
        0 <= i < s.outputs@.len() && {
            let o = #[trigger] s.outputs@[i];
            &&& 0 < o.tx_id <= s.transactions@.len()
            &&& s.transactions@[o.tx_id - 1].hash@ == tx_hash
            &&& o.output_index == index
        }
}

// ---------------------------------------------------------------------------
// Construction and transactional copies

impl Store {
    /// A store with every table empty.
    pub fn new() -> (r: Store)
        ensures
            wf_store(r),
            r.blocks@.len() == 0,
            r.transactions@.len() == 0,
            r.outputs@.len() == 0,
            r.inputs@.len() == 0,
            r.addresses@.len() == 0,
            r.assets@.len() == 0,
            r.asset_transfers@.len() == 0,
            r.mean_prices@.len() == 0,
            r.swaps@.len() == 0,
    {
        Store {
            blocks: Vec::new(),
            transactions: Vec::new(),
            outputs: Vec::new(),
            inputs: Vec::new(),
            addresses: Vec::new(),
            assets: Vec::new(),
            asset_transfers: Vec::new(),
            mean_prices: Vec::new(),
            swaps: Vec::new(),
        }
    }
}


/// A fresh transaction-output row with the same content.
pub fn copy_output_row(o: &TransactionOutputRow) -> (r: TransactionOutputRow)
    ensures
        output_row_eqv(*o, r),
        r.id == o.id && r.tx_id == o.tx_id && r.output_index == o.output_index && r.address_id
            == o.address_id,
{
    TransactionOutputRow {
        id: o.id,
        tx_id: o.tx_id,
        output_index: o.output_index,
        address_id: o.address_id,
        payload: crate::lex::copy_bytes(&o.payload),
    }
}

/// A fresh transaction row with the same content.
pub fn copy_tx_row(t: &TransactionRow) -> (r: TransactionRow)
    ensures
        tx_row_eqv(*t, r),
        r.id == t.id && r.block_id == t.block_id && r.tx_index == t.tx_index && r.is_valid
            == t.is_valid,
{
    TransactionRow {
        id: t.id,
        hash: crate::lex::copy_bytes(&t.hash),
        block_id: t.block_id,
        tx_index: t.tx_index,
        payload: crate::lex::copy_bytes(&t.payload),
        is_valid: t.is_valid,
    }
}


/// The two stores hold the same rows.
pub open spec fn store_eqv(a: Store, b: Store) -> bool {
    store_extends(a, b) && store_extends(b, a)
}

pub proof fn lemma_store_extends_refl(s: Store)
    ensures
        store_extends(s, s),
{
}

pub proof fn lemma_store_extends_trans(a: Store, b: Store, c: Store)
    requires
        store_extends(a, b),
        store_extends(b, c),
    ensures
        store_extends(a, c),
{
    assert(a.inputs@.is_prefix_of(c.inputs@)) by {
        assert(forall|i: int|
            0 <= i < a.inputs@.len() ==> a.inputs@[i] == b.inputs@[i] && (#[trigger] b.inputs@[i])
                == c.inputs@[i]);
        assert(a.inputs@ =~= c.inputs@.subrange(0, a.inputs@.len() as int));
    }
    assert(a.asset_transfers@.is_prefix_of(c.asset_transfers@)) by {
        assert(forall|i: int|
            0 <= i < a.asset_transfers@.len() ==> a.asset_transfers@[i] == b.asset_transfers@[i]
                && (#[trigger] b.asset_transfers@[i]) == c.asset_transfers@[i]);
        assert(a.asset_transfers@ =~= c.asset_transfers@.subrange(
            0,
            a.asset_transfers@.len() as int,
        ));
    }
    assert(a.mean_prices@.is_prefix_of(c.mean_prices@)) by {
        assert(forall|i: int|
            0 <= i < a.mean_prices@.len() ==> a.mean_prices@[i] == b.mean_prices@[i] && (
            #[trigger] b.mean_prices@[i]) == c.mean_prices@[i]);
        assert(a.mean_prices@ =~= c.mean_prices@.subrange(0, a.mean_prices@.len() as int));
    }
    assert(a.swaps@.is_prefix_of(c.swaps@)) by {
        assert(forall|i: int|
            0 <= i < a.swaps@.len() ==> a.swaps@[i] == b.swaps@[i] && (#[trigger] b.swaps@[i])
                == c.swaps@[i]);
        assert(a.swaps@ =~= c.swaps@.subrange(0, a.swaps@.len() as int));
    }
}

/// Row-for-row equal stores satisfy the same invariant.
pub proof fn lemma_wf_store_eqv(a: Store, b: Store)
    requires
        wf_store(a),
        store_eqv(a, b),
    ensures
        wf_store(b),
{
    assert(b.blocks@.len() == a.blocks@.len());
    assert(b.transactions@.len() == a.transactions@.len());
    assert(b.outputs@.len() == a.outputs@.len());
    assert(b.inputs@.len() == a.inputs@.len());
    assert(b.addresses@.len() == a.addresses@.len());
    assert(b.assets@.len() == a.assets@.len());
    assert(b.asset_transfers@.len() == a.asset_transfers@.len());
    assert(b.mean_prices@.len() == a.mean_prices@.len());
    assert(b.swaps@.len() == a.swaps@.len());
    assert(forall|i: int|
        0 <= i < b.blocks@.len() ==> block_row_eqv(a.blocks@[i], #[trigger] b.blocks@[i]));
    assert(forall|i: int|
        0 <= i < b.transactions@.len() ==> tx_row_eqv(
            a.transactions@[i],
            #[trigger] b.transactions@[i],
        ));
    assert(forall|i: int|
        0 <= i < b.outputs@.len() ==> output_row_eqv(a.outputs@[i], #[trigger] b.outputs@[i]));
    assert(forall|i: int| 0 <= i < b.inputs@.len() ==> a.inputs@[i] == #[trigger] b.inputs@[i]);
    assert(forall|i: int|
        0 <= i < b.addresses@.len() ==> addr_row_eqv(a.addresses@[i], #[trigger] b.addresses@[i]));
    assert(forall|i: int|
        0 <= i < b.assets@.len() ==> asset_row_eqv(a.assets@[i], #[trigger] b.assets@[i]));
    assert(forall|i: int|
        0 <= i < b.asset_transfers@.len() ==> a.asset_transfers@[i] == #[trigger] b.asset_transfers@[i]);
    assert(forall|i: int|
        0 <= i < b.mean_prices@.len() ==> a.mean_prices@[i] == #[trigger] b.mean_prices@[i]);
    assert(forall|i: int| 0 <= i < b.swaps@.len() ==> a.swaps@[i] == #[trigger] b.swaps@[i]);
}

/// A fresh address row with the same content.
pub fn copy_addr_row(a: &AddressRow) -> (r: AddressRow)
    ensures
        addr_row_eqv(*a, r),
        r.id == a.id && r.first_tx == a.first_tx,
{
    AddressRow { id: a.id, payload: crate::lex::copy_bytes(&a.payload), first_tx: a.first_tx }
}

/// A fresh block row with the same content.
pub fn copy_block_row(b: &BlockRow) -> (r: BlockRow)
    ensures
        block_row_eqv(*b, r),
        r.id == b.id,
{
    BlockRow { id: b.id, hash: crate::lex::copy_bytes(&b.hash), height: b.height, era: b.era }
}

/// The transactional working copy of the whole store: row-for-row equal.
#[verifier::loop_isolation(false)]
pub fn clone_store(s: &Store) -> (r: Store)
    ensures
        store_eqv(*s, r),
{
    let mut blocks: Vec<BlockRow> = Vec::new();
    let mut i: usize = 0;
    while i < s.blocks.len()
        invariant
            0 <= i <= s.blocks@.len(),
            blocks@.len() == i,
            forall|k: int| 0 <= k < i ==> block_row_eqv(s.blocks@[k], #[trigger] blocks@[k]),
        decreases s.blocks@.len() - i,
    {
        blocks.push(copy_block_row(&s.blocks[i]));
        i = i + 1;
    }
    let mut transactions: Vec<TransactionRow> = Vec::new();
    let mut i2: usize = 0;
    while i2 < s.transactions.len()
        invariant
            0 <= i2 <= s.transactions@.len(),
            transactions@.len() == i2,
            forall|k: int|
                0 <= k < i2 ==> tx_row_eqv(s.transactions@[k], #[trigger] transactions@[k]),
        decreases s.transactions@.len() - i2,
    {
        transactions.push(copy_tx_row(&s.transactions[i2]));
        i2 = i2 + 1;
    }
    let mut outputs: Vec<TransactionOutputRow> = Vec::new();
    let mut i3: usize = 0;
    while i3 < s.outputs.len()
        invariant
            0 <= i3 <= s.outputs@.len(),
            outputs@.len() == i3,
            forall|k: int| 0 <= k < i3 ==> output_row_eqv(s.outputs@[k], #[trigger] outputs@[k]),
        decreases s.outputs@.len() - i3,
    {
        outputs.push(copy_output_row(&s.outputs[i3]));
        i3 = i3 + 1;
    }
    let mut inputs: Vec<TransactionInputRow> = Vec::new();
    let mut i4: usize = 0;
    while i4 < s.inputs.len()
        invariant
            0 <= i4 <= s.inputs@.len(),
            inputs@.len() == i4,
            forall|k: int| 0 <= k < i4 ==> s.inputs@[k] == #[trigger] inputs@[k],
        decreases s.inputs@.len() - i4,
    {
        inputs.push(s.inputs[i4]);
        i4 = i4 + 1;
    }
    let mut addresses: Vec<AddressRow> = Vec::new();
    let mut i5: usize = 0;
    while i5 < s.addresses.len()
        invariant
            0 <= i5 <= s.addresses@.len(),
            addresses@.len() == i5,
            forall|k: int| 0 <= k < i5 ==> addr_row_eqv(s.addresses@[k], #[trigger] addresses@[k]),
        decreases s.addresses@.len() - i5,
    {
        addresses.push(copy_addr_row(&s.addresses[i5]));
        i5 = i5 + 1;
    }
    let mut assets: Vec<NativeAssetRow> = Vec::new();
    let mut i6: usize = 0;
    while i6 < s.assets.len()
        invariant
            0 <= i6 <= s.assets@.len(),
            assets@.len() == i6,
            forall|k: int| 0 <= k < i6 ==> asset_row_eqv(s.assets@[k], #[trigger] assets@[k]),
        decreases s.assets@.len() - i6,
    {
        assets.push(crate::assets::copy_asset_row(&s.assets[i6]));
        i6 = i6 + 1;
    }
    let mut asset_transfers: Vec<AssetTransferRow> = Vec::new();
    let mut i7: usize = 0;
    while i7 < s.asset_transfers.len()
        invariant
            0 <= i7 <= s.asset_transfers@.len(),
            asset_transfers@.len() == i7,
            forall|k: int| 0 <= k < i7 ==> s.asset_transfers@[k] == #[trigger] asset_transfers@[k],
        decreases s.asset_transfers@.len() - i7,
    {
        asset_transfers.push(s.asset_transfers[i7]);
        i7 = i7 + 1;
    }
    let mut mean_prices: Vec<DexMeanPriceRow> = Vec::new();
    let mut i8: usize = 0;
    while i8 < s.mean_prices.len()
        invariant
            0 <= i8 <= s.mean_prices@.len(),
            mean_prices@.len() == i8,
            forall|k: int| 0 <= k < i8 ==> s.mean_prices@[k] == #[trigger] mean_prices@[k],
        decreases s.mean_prices@.len() - i8,
    {
        mean_prices.push(s.mean_prices[i8]);
        i8 = i8 + 1;
    }
    let mut swaps: Vec<DexSwapRow> = Vec::new();
    let mut i9: usize = 0;
    while i9 < s.swaps.len()
        invariant
            0 <= i9 <= s.swaps@.len(),
            swaps@.len() == i9,
            forall|k: int| 0 <= k < i9 ==> s.swaps@[k] == #[trigger] swaps@[k],
        decreases s.swaps@.len() - i9,
    {
        swaps.push(s.swaps[i9]);
        i9 = i9 + 1;
    }
    let r = Store {
        blocks,
        transactions,
        outputs,
        inputs,
        addresses,
        assets,
        asset_transfers,
        mean_prices,
        swaps,
    };
    proof {
        assert(r.inputs@ =~= s.inputs@);
        assert(r.asset_transfers@ =~= s.asset_transfers@);
        assert(r.mean_prices@ =~= s.mean_prices@);
        assert(r.swaps@ =~= s.swaps@);
    }
    r
}


pub proof fn lemma_prefix_of_extended<T>(a: Seq<T>, b: Seq<T>)
    requires
        a.len() <= b.len(),
        forall|i: int| 0 <= i < a.len() ==> a[i] == b[i],
    ensures
        a.is_prefix_of(b),
{
    assert(a =~= b.subrange(0, a.len() as int));
}

/// Row-level sufficient conditions for [`store_extends`].
pub proof fn lemma_store_extends_pointwise(a: Store, b: Store)
    requires
        a.blocks@.len() <= b.blocks@.len(),
        forall|i: int| 0 <= i < a.blocks@.len() ==> block_row_eqv(a.blocks@[i], #[trigger] b.blocks@[i]),
        a.transactions@.len() <= b.transactions@.len(),
        forall|i: int|
            0 <= i < a.transactions@.len() ==> tx_row_eqv(
                a.transactions@[i],
                #[trigger] b.transactions@[i],
            ),
        a.outputs@.len() <= b.outputs@.len(),
        forall|i: int|
            0 <= i < a.outputs@.len() ==> output_row_eqv(a.outputs@[i], #[trigger] b.outputs@[i]),
        a.inputs@.len() <= b.inputs@.len(),
        forall|i: int| 0 <= i < a.inputs@.len() ==> a.inputs@[i] == #[trigger] b.inputs@[i],
        a.addresses@.len() <= b.addresses@.len(),
        forall|i: int|
            0 <= i < a.addresses@.len() ==> addr_row_eqv(a.addresses@[i], #[trigger] b.addresses@[i]),
        a.assets@.len() <= b.assets@.len(),
        forall|i: int|
            0 <= i < a.assets@.len() ==> asset_row_eqv(a.assets@[i], #[trigger] b.assets@[i]),
        a.asset_transfers@.len() <= b.asset_transfers@.len(),
        forall|i: int|
            0 <= i < a.asset_transfers@.len() ==> a.asset_transfers@[i] == #[trigger] b.asset_transfers@[i],
        a.mean_prices@.len() <= b.mean_prices@.len(),
        forall|i: int|
            0 <= i < a.mean_prices@.len() ==> a.mean_prices@[i] == #[trigger] b.mean_prices@[i],
        a.swaps@.len() <= b.swaps@.len(),
        forall|i: int| 0 <= i < a.swaps@.len() ==> a.swaps@[i] == #[trigger] b.swaps@[i],
    ensures
        store_extends(a, b),
{
    lemma_prefix_of_extended(a.inputs@, b.inputs@);
    lemma_prefix_of_extended(a.asset_transfers@, b.asset_transfers@);
    lemma_prefix_of_extended(a.mean_prices@, b.mean_prices@);
    lemma_prefix_of_extended(a.swaps@, b.swaps@);
}

} // verus!
