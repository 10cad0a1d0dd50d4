//! Plain data handed to the core by the ledger decoder: blocks, transactions,
//! outputs, inputs, asset bundles and contract datums. The decoder itself is an
//! external collaborator; the core never parses raw block bytes.

use vstd::prelude::*;

verus! {

/// A (policy id, asset name) pair; `None` is the ADA sentinel (the ledger's
/// base currency is represented by the absence of a native-asset reference).
pub type AssetPair = Option<(Vec<u8>, Vec<u8>)>;

/// Direction of a swap against a pool holding two asset legs.
#[derive(Clone, Copy, Debug, PartialEq, Eq, Structural)]
pub enum DexSwapDirection {
    BuyAsset1,
    SellAsset1,
}

/// One asset moved into an output: the ADA sentinel or a native asset, with
/// the quantity moved.
pub struct TransferAsset {
    pub pair: AssetPair,
    pub quantity: u64,
}

/// Reference to one output of a prior transaction: the producing transaction's
/// hash and the output's index within it.
pub struct OutputRef {
    pub hash: Vec<u8>,
    pub index: u64,
}

/// A contract datum: a positionally-addressed tree of tagged constructors,
/// integers and byte strings, interpreted only through protocol-specific
/// field paths.
pub enum PlutusDatum {
    Constr { tag: u64, fields: Vec<PlutusDatum> },
    Int { value: u64 },
    Bytes { bytes: Vec<u8> },
}

/// A datum together with the hash under which the transaction carries it.
pub struct DatumWithHash {
    pub hash: Vec<u8>,
    pub datum: PlutusDatum,
}

/// One decoded transaction output.
pub struct TxOutputData {
    /// Full address payload (may be arbitrarily large for legacy encodings).
    pub address: Vec<u8>,
    /// Raw serialized output, stored verbatim.
    pub payload: Vec<u8>,
    /// ADA held by the output.
    pub coin: u64,
    /// Native assets held by the output.
    pub assets: Vec<TransferAsset>,
    /// Hash of the attached contract datum, if any.
    pub datum_hash: Option<Vec<u8>>,
}

/// One decoded transaction. For an invalid transaction the decoder hands only
/// the collateral-related inputs, and `collateral_return` stands in for the
/// regular outputs.
pub struct TxData {
    pub hash: Vec<u8>,
    pub payload: Vec<u8>,
    pub is_valid: bool,
    pub outputs: Vec<TxOutputData>,
    pub collateral_return: Option<TxOutputData>,
    pub inputs: Vec<OutputRef>,
    pub plutus_data: Vec<DatumWithHash>,
}

/// One decoded block in chain order. Alongside its own transactions it
/// carries the decoded form of every prior output they spend, keyed by
/// output reference: re-decoding stored payloads is the ledger decoder's
/// job, not the core's.
pub struct BlockData {
    pub hash: Vec<u8>,
    pub height: i64,
    pub era: i32,
    pub txs: Vec<TxData>,
    pub spent_outputs: Vec<(OutputRef, TxOutputData)>,
}

// ---------------------------------------------------------------------------
// Asset bundles

/// Quantity of `(policy, name)` in a bundle: the first matching entry, or 0.
pub open spec fn bundle_amount(assets: Seq<TransferAsset>, policy: Seq<u8>, name: Seq<u8>) -> u64
    decreases assets.len(),
{
    if assets.len() == 0 {
        0u64
    } else {
        match assets[0].pair {
            Some(p) => {
                if p.0@ == policy && p.1@ == name {
                    assets[0].quantity
                } else {
                    bundle_amount(assets.drop_first(), policy, name)
                }
            },
            None => bundle_amount(assets.drop_first(), policy, name),
        }
    }
}

/// Amount of one asset leg held by an output: the ADA sentinel reads the
/// output's coin, a native asset reads its bundle entry.
pub open spec fn asset_amount_spec(o: TxOutputData, pair: AssetPair) -> u64 {
    match pair {
        None => o.coin,
        Some(p) => bundle_amount(o.assets@, p.0@, p.1@),
    }
}

/// Amount of `pair` held by `output`.
pub fn get_asset_amount(output: &TxOutputData, pair: &AssetPair) -> (r: u64)
    ensures
        r == asset_amount_spec(*output, *pair),
{
    match pair {
        None => output.coin,
        Some(p) => {
            let mut i: usize = 0;
            proof {
                assert(output.assets@.skip(0) =~= output.assets@);
            }
            while i < output.assets.len()
                invariant
                    0 <= i <= output.assets@.len(),
                    *pair == Some(*p),
                    bundle_amount(output.assets@.skip(i as int), p.0@, p.1@) == bundle_amount(
                        output.assets@,
                        p.0@,
                        p.1@,
                    ),
                decreases output.assets@.len() - i,
            {
                proof {
                    assert(output.assets@.skip(i as int)[0] == output.assets@[i as int]);
                    assert(output.assets@.skip(i as int).drop_first() =~= output.assets@.skip(
                        i as int + 1,
                    ));
                }
                match &output.assets[i].pair {
                    Some(q) => {
                        if crate::lex::bytes_eq(q.0.as_slice(), p.0.as_slice()) && crate::lex::bytes_eq(
                            q.1.as_slice(),
                            p.1.as_slice(),
                        ) {
                            proof {
                                assert(output.assets@.skip(i as int).len() > 0);
                                assert(output.assets@.skip(i as int)[0].pair matches Some(pp)
                                    && pp.0@ == p.0@ && pp.1@ == p.1@);
                                assert(bundle_amount(output.assets@.skip(i as int), p.0@, p.1@)
                                    == output.assets@[i as int].quantity);
                                assert(*pair == Some(*p));
                                assert(asset_amount_spec(*output, *pair) == bundle_amount(
                                    output.assets@,
                                    p.0@,
                                    p.1@,
                                ));
                            }
                            return output.assets[i].quantity;
                        }
                    },
                    None => {},
                }
                i = i + 1;
            }
            0
        },
    }
}

// ---------------------------------------------------------------------------
// Addresses

/// Payment-credential hash of a Shelley-era address: the 28 bytes after the
/// header byte, present for the header types that carry a payment part.
pub open spec fn shelley_payment_hash(addr: Seq<u8>) -> Option<Seq<u8>> {
    if addr.len() >= 29 && addr[0] / 16 <= 7 {
        Some(addr.subrange(1, 29))
    } else {
        None
    }
}

/// Extracts the payment-credential hash from an address payload, if the
/// address is a Shelley-era one with a payment part.
pub fn get_payment_hash<'a>(addr: &'a [u8]) -> (r: Option<&'a [u8]>)
    ensures
        match r {
            Some(h) => shelley_payment_hash(addr@) == Some(h@),
            None => shelley_payment_hash(addr@) is None,
        },
{
    if addr.len() >= 29 && addr[0] / 16 <= 7 {
        Some(vstd::slice::slice_subrange(addr, 1, 29))
    } else {
        None
    }
}

// ---------------------------------------------------------------------------
// Datum navigation

/// Field `i` of a constructor datum.
pub open spec fn datum_field_spec(d: PlutusDatum, i: int) -> Option<PlutusDatum> {
    match d {
        PlutusDatum::Constr { tag, fields } => {
            if 0 <= i < fields@.len() {
                Some(fields@[i])
            } else {
                None
            }
        },
        _ => None,
    }
}

/// Byte-string content of a datum leaf.
pub open spec fn datum_bytes_spec(d: PlutusDatum) -> Option<Seq<u8>> {
    match d {
        PlutusDatum::Bytes { bytes } => Some(bytes@),
        _ => None,
    }
}

/// Integer content of a datum leaf.
pub open spec fn datum_int_spec(d: PlutusDatum) -> Option<u64> {
    match d {
        PlutusDatum::Int { value } => Some(value),
        _ => None,
    }
}

/// Constructor tag of a datum node.
pub open spec fn datum_tag_spec(d: PlutusDatum) -> Option<u64> {
    match d {
        PlutusDatum::Constr { tag, fields } => Some(tag),
        _ => None,
    }
}

pub fn datum_field<'a>(d: &'a PlutusDatum, i: usize) -> (r: Option<&'a PlutusDatum>)
    ensures
        match r {
            Some(f) => datum_field_spec(*d, i as int) == Some(*f),
            None => datum_field_spec(*d, i as int) is None,
        },
{
    match d {
        PlutusDatum::Constr { tag, fields } => {
            if i < fields.len() {
                Some(&fields[i])
            } else {
                None
            }
        },
        _ => None,
    }
}

pub fn datum_bytes<'a>(d: &'a PlutusDatum) -> (r: Option<&'a Vec<u8>>)
    ensures
        match r {
            Some(b) => datum_bytes_spec(*d) == Some(b@),
            None => datum_bytes_spec(*d) is None,
        },
{
    match d {
        PlutusDatum::Bytes { bytes } => Some(bytes),
        _ => None,
    }
}

pub fn datum_int(d: &PlutusDatum) -> (r: Option<u64>)
    ensures
        r == datum_int_spec(*d),
{
    match d {
        PlutusDatum::Int { value } => Some(*value),
        _ => None,
    }
}

pub fn datum_tag(d: &PlutusDatum) -> (r: Option<u64>)
    ensures
        r == datum_tag_spec(*d),
{
    match d {
        PlutusDatum::Constr { tag, fields } => Some(*tag),
        _ => None,
    }
}

/// Looks the datum attached to `output` up in a transaction's datum list:
/// the first entry whose hash equals the output's datum hash.
pub open spec fn datum_for_output_spec(
    datums: Seq<DatumWithHash>,
    datum_hash: Option<Vec<u8>>,
) -> Option<PlutusDatum>
    decreases datums.len(),
{
    match datum_hash {
        None => None,
        Some(h) => {
            if datums.len() == 0 {
                None
            } else if datums[0].hash@ == h@ {
                Some(datums[0].datum)
            } else {
                datum_for_output_spec(datums.drop_first(), Some(h))
            }
        },
    }
}

pub fn get_plutus_datum_for_output<'a>(
    output: &TxOutputData,
    plutus_data: &'a Vec<DatumWithHash>,
) -> (r: Option<&'a PlutusDatum>)
    ensures
        match r {
            Some(d) => datum_for_output_spec(plutus_data@, output.datum_hash) == Some(*d),
            None => datum_for_output_spec(plutus_data@, output.datum_hash) is None,
        },
{
    match &output.datum_hash {
        None => None,
        Some(h) => {
            let mut i: usize = 0;
            proof {
                assert(plutus_data@.skip(0) =~= plutus_data@);
            }
            while i < plutus_data.len()
                invariant
                    0 <= i <= plutus_data@.len(),
                    output.datum_hash == Some(*h),
                    datum_for_output_spec(plutus_data@.skip(i as int), output.datum_hash)
                        == datum_for_output_spec(plutus_data@, output.datum_hash),
                decreases plutus_data@.len() - i,
            {
                proof {
                    assert(plutus_data@.skip(i as int)[0] == plutus_data@[i as int]);
                    assert(plutus_data@.skip(i as int).drop_first() =~= plutus_data@.skip(
                        i as int + 1,
                    ));
                }
                if crate::lex::bytes_eq(plutus_data[i].hash.as_slice(), h.as_slice()) {
                    return Some(&plutus_data[i].datum);
                }
                i = i + 1;
            }
            None
        },
    }
}


/// View of an optional borrowed datum.
pub open spec fn opt_datum_view(d: Option<&PlutusDatum>) -> Option<PlutusDatum> {
    match d {
        Some(p) => Some(*p),
        None => None,
    }
}

/// Field `i` of an optional constructor datum (None propagates).
pub open spec fn datum_subfield(d: Option<PlutusDatum>, i: int) -> Option<PlutusDatum> {
    match d {
        Some(x) => datum_field_spec(x, i),
        None => None,
    }
}

pub open spec fn datum_sub_bytes(d: Option<PlutusDatum>) -> Option<Seq<u8>> {
    match d {
        Some(x) => datum_bytes_spec(x),
        None => None,
    }
}

pub open spec fn datum_sub_int(d: Option<PlutusDatum>) -> Option<u64> {
    match d {
        Some(x) => datum_int_spec(x),
        None => None,
    }
}

pub open spec fn datum_sub_tag(d: Option<PlutusDatum>) -> Option<u64> {
    match d {
        Some(x) => datum_tag_spec(x),
        None => None,
    }
}

/// Steps one constructor field deeper from an optional node.
pub fn nav_field<'a>(d: Option<&'a PlutusDatum>, i: usize) -> (r: Option<&'a PlutusDatum>)
    ensures
        opt_datum_view(r) == datum_subfield(opt_datum_view(d), i as int),
{
    match d {
        Some(x) => datum_field(x, i),
        None => None,
    }
}

/// Reads a byte-string leaf from an optional node.
pub fn nav_bytes<'a>(d: Option<&'a PlutusDatum>) -> (r: Option<&'a Vec<u8>>)
    ensures
        match r {
            Some(b) => datum_sub_bytes(opt_datum_view(d)) == Some(b@),
            None => datum_sub_bytes(opt_datum_view(d)) is None,
        },
{
    match d {
        Some(x) => datum_bytes(x),
        None => None,
    }
}

/// Reads an integer leaf from an optional node.
pub fn nav_int(d: Option<&PlutusDatum>) -> (r: Option<u64>)
    ensures
        r == datum_sub_int(opt_datum_view(d)),
{
    match d {
        Some(x) => datum_int(x),
        None => None,
    }
}

/// Reads a constructor tag from an optional node.
pub fn nav_tag(d: Option<&PlutusDatum>) -> (r: Option<u64>)
    ensures
        r == datum_sub_tag(opt_datum_view(d)),
{
    match d {
        Some(x) => datum_tag(x),
        None => None,
    }
}

} // verus!
