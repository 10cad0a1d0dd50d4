//! Entity resolution for native assets, and the task body that turns queued
//! per-output asset movements into asset-transfer rows. ADA is never stored
//! as an asset row: the sentinel pair (empty policy, empty name) is rejected
//! before any store access.

use vstd::prelude::*;
use crate::lex::{bytes_lt, bytes_le, bytes_eq, bytes_lt_exec, copy_bytes};
use crate::lex::lemma_bytes_lt_connected;
use crate::lex::lemma_bytes_lt_transitive;
use crate::ledger::TransferAsset;
use crate::store::{
    Store, NativeAssetRow, TransactionOutputRow, AssetTransferRow, FatalError, wf_store, wf_assets,
    wf_asset_transfers, has_asset, asset_row_eqv,
};

verus! {

/// One asset movement into one output, queued for batch insertion.
pub struct QueuedAssetTransfer {
    /// (owning transaction id, output index within it).
    pub output_pointer: (i64, usize),
    /// The moved asset (ADA sentinel or native asset) and its quantity.
    pub asset: TransferAsset,
}

// ---------------------------------------------------------------------------
// Querying assets by pair

/// `(policy, name)` occurs in the pair list.
pub open spec fn pairs_has(pairs: Seq<(Vec<u8>, Vec<u8>)>, policy: Seq<u8>, name: Seq<u8>) -> bool {
    exists|j: int|
        0 <= j < pairs.len() && (#[trigger] pairs[j]).0@ == policy && pairs[j].1@ == name
}

/// A fresh asset row with the same content.
pub fn copy_asset_row(a: &NativeAssetRow) -> (r: NativeAssetRow)
    ensures
        asset_row_eqv(*a, r),
        r.id == a.id,
{
    NativeAssetRow {
        id: a.id,
        policy_id: copy_bytes(&a.policy_id),
        asset_name: copy_bytes(&a.asset_name),
    }
}

/// Fetches, in id order, every stored asset whose (policy id, asset name)
/// pair occurs in `pairs`.
#[verifier::loop_isolation(false)]
pub fn asset_from_pair(store: &Store, pairs: &Vec<(Vec<u8>, Vec<u8>)>) -> (r: Vec<NativeAssetRow>)
    requires
        wf_store(*store),
    ensures
        forall|k: int|
            0 <= k < r@.len() ==> {
                let a = #[trigger] r@[k];
                &&& 0 < a.id <= store.assets@.len()
                &&& asset_row_eqv(store.assets@[a.id - 1], a)
                &&& pairs_has(pairs@, a.policy_id@, a.asset_name@)
            },
        forall|k1: int, k2: int|
            0 <= k1 < k2 < r@.len() ==> (#[trigger] r@[k1]).id < (#[trigger] r@[k2]).id,
        forall|i: int|
            0 <= i < store.assets@.len() && pairs_has(
                pairs@,
                (#[trigger] store.assets@[i]).policy_id@,
                store.assets@[i].asset_name@,
            ) ==> exists|k: int| 0 <= k < r@.len() && (#[trigger] r@[k]).id == i + 1,
{
    let mut rows: Vec<NativeAssetRow> = Vec::new();
    let mut i: usize = 0;
    while i < store.assets.len()
        invariant
            0 <= i <= store.assets@.len(),
            forall|k: int|
                0 <= k < rows@.len() ==> {
                    let a = #[trigger] rows@[k];
                    &&& 0 < a.id <= i
                    &&& asset_row_eqv(store.assets@[a.id - 1], a)
                    &&& pairs_has(pairs@, a.policy_id@, a.asset_name@)
                },
            forall|k1: int, k2: int|
                0 <= k1 < k2 < rows@.len() ==> (#[trigger] rows@[k1]).id < (#[trigger] rows@[k2]).id,
            forall|i2: int|
                0 <= i2 < i && pairs_has(
                    pairs@,
                    (#[trigger] store.assets@[i2]).policy_id@,
                    store.assets@[i2].asset_name@,
                ) ==> exists|k: int| 0 <= k < rows@.len() && (#[trigger] rows@[k]).id == i2 + 1,
        decreases store.assets@.len() - i,
    {
        let a = &store.assets[i];
        let mut j: usize = 0;
        let mut wanted = false;
        while j < pairs.len()
            invariant
                0 <= j <= pairs@.len(),
                wanted == exists|j2: int|
                    0 <= j2 < j && (#[trigger] pairs@[j2]).0@ == a.policy_id@ && pairs@[j2].1@
                        == a.asset_name@,
            decreases pairs@.len() - j,
        {
            if bytes_eq(pairs[j].0.as_slice(), a.policy_id.as_slice()) && bytes_eq(
                pairs[j].1.as_slice(),
                a.asset_name.as_slice(),
            ) {
                wanted = true;
                proof {
                    assert(pairs@[j as int].0@ == a.policy_id@ && pairs@[j as int].1@
                        == a.asset_name@);
                }
            }
            j = j + 1;
        }
        let ghost rows0 = rows@;
        if wanted {
            rows.push(copy_asset_row(a));
        }
        proof {
            assert forall|i2: int|
                0 <= i2 < i + 1 && pairs_has(
                    pairs@,
                    (#[trigger] store.assets@[i2]).policy_id@,
                    store.assets@[i2].asset_name@,
                ) implies exists|k: int| 0 <= k < rows@.len() && (#[trigger] rows@[k]).id == i2
                + 1 by {
                if i2 < i {
                    let k = choose|k: int| 0 <= k < rows0.len() && (#[trigger] rows0[k]).id == i2
                        + 1;
                    assert(rows@[k] == rows0[k]);
                } else {
                    if wanted {
                        assert(rows@[rows@.len() - 1].id == i + 1);
                    } else {
                        assert(false);
                    }
                }
            }
        }
        i = i + 1;
    }
    rows
}

// ---------------------------------------------------------------------------
// Lookup-or-insert for native assets

/// Order for newly created asset rows: ascending (policy id, asset name).
pub open spec fn pair_le(a: (Vec<u8>, Vec<u8>), b: (Vec<u8>, Vec<u8>)) -> bool {
    bytes_lt(a.0@, b.0@) || (a.0@ == b.0@ && bytes_le(a.1@, b.1@))
}

proof fn pair_le_connected(a: (Vec<u8>, Vec<u8>), b: (Vec<u8>, Vec<u8>))
    ensures
        pair_le(a, b) || pair_le(b, a),
{
    lemma_bytes_lt_connected(a.0@, b.0@);
    if a.0@ == b.0@ {
        lemma_bytes_lt_connected(a.1@, b.1@);
    }
}

proof fn pair_le_trans(a: (Vec<u8>, Vec<u8>), b: (Vec<u8>, Vec<u8>), c: (Vec<u8>, Vec<u8>))
    requires
        pair_le(a, b),
        pair_le(b, c),
    ensures
        pair_le(a, c),
{
    if bytes_lt(a.0@, b.0@) && bytes_lt(b.0@, c.0@) {
        lemma_bytes_lt_transitive(a.0@, b.0@, c.0@);
    }
    if a.0@ == b.0@ && b.0@ == c.0@ {
        if bytes_lt(a.1@, b.1@) && bytes_lt(b.1@, c.1@) {
            lemma_bytes_lt_transitive(a.1@, b.1@, c.1@);
        }
    }
}

fn pair_le_exec(a: &(Vec<u8>, Vec<u8>), b: &(Vec<u8>, Vec<u8>)) -> (r: bool)
    ensures
        r == pair_le(*a, *b),
{
    if bytes_lt_exec(a.0.as_slice(), b.0.as_slice()) {
        true
    } else if !bytes_eq(a.0.as_slice(), b.0.as_slice()) {
        false
    } else if bytes_lt_exec(a.1.as_slice(), b.1.as_slice()) {
        true
    } else {
        bytes_eq(a.1.as_slice(), b.1.as_slice())
    }
}

/// Some returned entry carries exactly the pair (`p`, `n`).
pub open spec fn res_has_pair(res: Seq<NativeAssetRow>, p: Seq<u8>, n: Seq<u8>) -> bool {
    exists|k: int|
        0 <= k < res.len() && (#[trigger] res[k]).policy_id@ == p && res[k].asset_name@ == n
}

/// Some entry among the first `d` deduplicated pairs equals (`p`, `n`).
spec fn dedup_prefix_has_pair(
    entries: Seq<(Vec<u8>, Vec<u8>)>,
    d: int,
    p: Seq<u8>,
    n: Seq<u8>,
) -> bool {
    exists|k: int| 0 <= k < d && (#[trigger] entries[k]).0@ == p && entries[k].1@ == n
}

/// Full behaviour of [`resolve_or_insert_assets`].
pub open spec fn asset_resolution_post(
    s0: Store,
    cands: Seq<(Vec<u8>, Vec<u8>)>,
    s1: Store,
    res: Seq<NativeAssetRow>,
) -> bool {
    let n0 = s0.assets@.len() as int;
    &&& wf_store(s1)
    &&& s1.blocks == s0.blocks
    &&& s1.transactions == s0.transactions
    &&& s1.outputs == s0.outputs
    &&& s1.inputs == s0.inputs
    &&& s1.addresses == s0.addresses
    &&& s1.asset_transfers == s0.asset_transfers
    &&& s1.mean_prices == s0.mean_prices
    &&& s1.swaps == s0.swaps
    &&& s1.assets@.len() >= n0
    &&& forall|i: int| 0 <= i < n0 ==> s1.assets@[i] == s0.assets@[i]
    // each new row is an unseen candidate pair
    &&& forall|j: int|
        n0 <= j < s1.assets@.len() ==> {
            let a = #[trigger] s1.assets@[j];
            &&& pairs_has(cands, a.policy_id@, a.asset_name@)
            &&& !has_asset(s0.assets@, a.policy_id@, a.asset_name@)
        }
    // every candidate pair resolves to a row afterwards
    &&& forall|i: int|
        0 <= i < cands.len() ==> has_asset(
            s1.assets@,
            (#[trigger] cands[i]).0@,
            cands[i].1@,
        )
    // the new batch is inserted in deterministic ascending pair order
    &&& forall|i: int, j: int|
        n0 <= i < j < s1.assets@.len() ==> pair_le(
            ((#[trigger] s1.assets@[i]).policy_id, s1.assets@[i].asset_name),
            ((#[trigger] s1.assets@[j]).policy_id, s1.assets@[j].asset_name),
        )
    // the returned entries mirror store rows, one per distinct pair
    &&& forall|k: int|
        0 <= k < res.len() ==> {
            let e = #[trigger] res[k];
            &&& pairs_has(cands, e.policy_id@, e.asset_name@)
            &&& 0 < e.id <= s1.assets@.len()
            &&& asset_row_eqv(s1.assets@[e.id - 1], e)
        }
    &&& forall|k1: int, k2: int|
        0 <= k1 < k2 < res.len() ==> !((#[trigger] res[k1]).policy_id@ == (
        #[trigger] res[k2]).policy_id@ && res[k1].asset_name@ == res[k2].asset_name@)
    &&& forall|i: int|
        0 <= i < cands.len() ==> res_has_pair(res, (#[trigger] cands[i]).0@, cands[i].1@)
}

/// Position of the first entry with the given pair, if any.
fn find_pair(entries: &Vec<(Vec<u8>, Vec<u8>)>, policy: &[u8], name: &[u8]) -> (r: Option<usize>)
    ensures
        match r {
            Some(k) => 0 <= k < entries@.len() && entries@[k as int].0@ == policy@
                && entries@[k as int].1@ == name@,
            None => !pairs_has(entries@, policy@, name@),
        },
{
    let mut k: usize = 0;
    while k < entries.len()
        invariant
            0 <= k <= entries@.len(),
            forall|k2: int|
                0 <= k2 < k ==> !((#[trigger] entries@[k2]).0@ == policy@ && entries@[k2].1@
                    == name@),
        decreases entries@.len() - k,
    {
        if bytes_eq(entries[k].0.as_slice(), policy) && bytes_eq(entries[k].1.as_slice(), name) {
            return Some(k);
        }
        k = k + 1;
    }
    None
}

/// Position of the first stored asset with the given pair, if any.
fn find_asset_row(rows: &Vec<NativeAssetRow>, policy: &[u8], name: &[u8]) -> (r: Option<usize>)
    ensures
        match r {
            Some(k) => 0 <= k < rows@.len() && rows@[k as int].policy_id@ == policy@
                && rows@[k as int].asset_name@ == name@,
            None => !has_asset(rows@, policy@, name@),
        },
{
    let mut k: usize = 0;
    while k < rows.len()
        invariant
            0 <= k <= rows@.len(),
            forall|k2: int|
                0 <= k2 < k ==> !((#[trigger] rows@[k2]).policy_id@ == policy@ && rows@[k2].asset_name@
                    == name@),
        decreases rows@.len() - k,
    {
        if bytes_eq(rows[k].policy_id.as_slice(), policy) && bytes_eq(
            rows[k].asset_name.as_slice(),
            name,
        ) {
            return Some(k);
        }
        k = k + 1;
    }
    None
}

/// Sorts deduplicated pairs into the deterministic batch order.
#[verifier::loop_isolation(false)]
fn sort_pairs(input: Vec<(Vec<u8>, Vec<u8>)>) -> (r: Vec<(Vec<u8>, Vec<u8>)>)
    requires
        forall|k1: int, k2: int|
            0 <= k1 < k2 < input@.len() ==> !((#[trigger] input@[k1]).0@ == (
            #[trigger] input@[k2]).0@ && input@[k1].1@ == input@[k2].1@),
    ensures
        r@.len() == input@.len(),
        forall|k1: int, k2: int|
            0 <= k1 < k2 < r@.len() ==> pair_le(#[trigger] r@[k1], #[trigger] r@[k2]),
        forall|k1: int, k2: int|
            0 <= k1 < k2 < r@.len() ==> !((#[trigger] r@[k1]).0@ == (#[trigger] r@[k2]).0@
                && r@[k1].1@ == r@[k2].1@),
        forall|k: int|
            0 <= k < r@.len() ==> pairs_has(input@, (#[trigger] r@[k]).0@, r@[k].1@),
        forall|i: int|
            0 <= i < input@.len() ==> pairs_has(r@, (#[trigger] input@[i]).0@, input@[i].1@),
{
    let ghost input0 = input@;
    let mut rest = input;
    let mut out: Vec<(Vec<u8>, Vec<u8>)> = Vec::new();
    while rest.len() > 0
        invariant
            out@.len() + rest@.len() == input0.len(),
            forall|k1: int, k2: int|
                0 <= k1 < k2 < out@.len() ==> pair_le(#[trigger] out@[k1], #[trigger] out@[k2]),
            forall|k1: int, k2: int|
                0 <= k1 < k2 < out@.len() ==> !((#[trigger] out@[k1]).0@ == (
                #[trigger] out@[k2]).0@ && out@[k1].1@ == out@[k2].1@),
            forall|k1: int, k2: int|
                0 <= k1 < k2 < rest@.len() ==> !((#[trigger] rest@[k1]).0@ == (
                #[trigger] rest@[k2]).0@ && rest@[k1].1@ == rest@[k2].1@),
            forall|k1: int, k2: int|
                0 <= k1 < out@.len() && 0 <= k2 < rest@.len() ==> !((#[trigger] out@[k1]).0@ == (
                #[trigger] rest@[k2]).0@ && out@[k1].1@ == rest@[k2].1@),
            forall|k1: int, k2: int|
                0 <= k1 < out@.len() && 0 <= k2 < rest@.len() ==> pair_le(
                    #[trigger] out@[k1],
                    #[trigger] rest@[k2],
                ),
            forall|k: int|
                0 <= k < out@.len() ==> pairs_has(input0, (#[trigger] out@[k]).0@, out@[k].1@),
            forall|k: int|
                0 <= k < rest@.len() ==> pairs_has(input0, (#[trigger] rest@[k]).0@, rest@[k].1@),
            forall|i: int|
                0 <= i < input0.len() ==> pairs_has(out@, (#[trigger] input0[i]).0@, input0[i].1@)
                    || pairs_has(rest@, input0[i].0@, input0[i].1@),
        decreases rest@.len(),
    {
        let mut m: usize = 0;
        let mut k: usize = 1;
        while k < rest.len()
            invariant
                0 <= m < rest@.len(),
                m < k <= rest@.len(),
                forall|j: int| 0 <= j < k ==> pair_le(rest@[m as int], #[trigger] rest@[j]),
            decreases rest@.len() - k,
        {
            if !pair_le_exec(&rest[m], &rest[k]) {
                proof {
                    pair_le_connected(rest@[m as int], rest@[k as int]);
                    assert forall|j: int| 0 <= j < k implies pair_le(
                        rest@[k as int],
                        #[trigger] rest@[j],
                    ) by {
                        pair_le_trans(rest@[k as int], rest@[m as int], rest@[j]);
                    }
                }
                m = k;
            }
            k = k + 1;
        }
        let ghost rest0 = rest@;
        let ghost out0 = out@;
        let x = rest.remove(m);
        proof {
            rest0.remove_ensures(m as int);
        }
        out.push(x);
        proof {
            assert forall|i: int|
                0 <= i < input0.len() implies pairs_has(
                out@,
                (#[trigger] input0[i]).0@,
                input0[i].1@,
            ) || pairs_has(rest@, input0[i].0@, input0[i].1@) by {
                let t = input0[i].0@;
                let v = input0[i].1@;
                if pairs_has(out0, t, v) {
                    let k2 = choose|k2: int|
                        0 <= k2 < out0.len() && (#[trigger] out0[k2]).0@ == t && out0[k2].1@ == v;
                    assert(out@[k2] == out0[k2]);
                    assert(pairs_has(out@, t, v));
                } else if pairs_has(rest0, t, v) {
                    let k2 = choose|k2: int|
                        0 <= k2 < rest0.len() && (#[trigger] rest0[k2]).0@ == t && rest0[k2].1@
                            == v;
                    if k2 == m {
                        assert(out@[out@.len() - 1] == rest0[m as int]);
                        assert(pairs_has(out@, t, v));
                    } else if k2 < m {
                        assert(rest@[k2] == rest0[k2]);
                        assert(pairs_has(rest@, t, v));
                    } else {
                        assert(rest@[k2 - 1] == rest0[k2]);
                        assert(pairs_has(rest@, t, v));
                    }
                }
            }
        }
    }
    out
}

/// Resolves a batch of (policy id, asset name) pairs against the store:
/// deduplicates them, reuses every row already present, and inserts the
/// unseen remainder in one batch sorted by pair, so row ids are assigned
/// reproducibly. The ADA sentinel pair is never a candidate: callers filter
/// it out before calling.
#[verifier::loop_isolation(false)]
#[verifier::rlimit(100)]
pub fn resolve_or_insert_assets(candidates: &Vec<(Vec<u8>, Vec<u8>)>, store: &mut Store) -> (r: Vec<
    NativeAssetRow,
>)
    requires
        wf_store(*old(store)),
        forall|i: int|
            0 <= i < candidates@.len() ==> !((#[trigger] candidates@[i]).0@.len() == 0
                && candidates@[i].1@.len() == 0),
        old(store).assets@.len() + candidates@.len() <= i64::MAX,
        old(store).assets@.len() + candidates@.len() < usize::MAX,
    ensures
        asset_resolution_post(*old(store), candidates@, *final(store), r@),
{
    let ghost s0 = *store;
    let mut result: Vec<NativeAssetRow> = Vec::new();
    if candidates.len() == 0 {
        return result;
    }
    // deduplicate by pair
    let mut dedup: Vec<(Vec<u8>, Vec<u8>)> = Vec::new();
    let mut i: usize = 0;
    while i < candidates.len()
        invariant
            0 <= i <= candidates@.len(),
            dedup@.len() <= i,
            forall|k1: int, k2: int|
                0 <= k1 < k2 < dedup@.len() ==> !((#[trigger] dedup@[k1]).0@ == (
                #[trigger] dedup@[k2]).0@ && dedup@[k1].1@ == dedup@[k2].1@),
            forall|k: int|
                0 <= k < dedup@.len() ==> pairs_has(
                    candidates@,
                    (#[trigger] dedup@[k]).0@,
                    dedup@[k].1@,
                ),
            forall|c: int|
                0 <= c < i ==> pairs_has(
                    dedup@,
                    (#[trigger] candidates@[c]).0@,
                    candidates@[c].1@,
                ),
        decreases candidates@.len() - i,
    {
        let ghost dedup0 = dedup@;
        match find_pair(&dedup, candidates[i].0.as_slice(), candidates[i].1.as_slice()) {
            Some(k) => {
                proof {
                    assert(dedup@[k as int].0@ == candidates@[i as int].0@ && dedup@[k as int].1@
                        == candidates@[i as int].1@);
                }
            },
            None => {
                dedup.push((copy_bytes(&candidates[i].0), copy_bytes(&candidates[i].1)));
                proof {
                    assert(dedup@[dedup@.len() - 1].0@ == candidates@[i as int].0@
                        && dedup@[dedup@.len() - 1].1@ == candidates@[i as int].1@);
                }
            },
        }
        proof {
            assert forall|c: int|
                0 <= c < i + 1 implies pairs_has(
                dedup@,
                (#[trigger] candidates@[c]).0@,
                candidates@[c].1@,
            ) by {
                if c < i {
                    let k = choose|k: int|
                        0 <= k < dedup0.len() && (#[trigger] dedup0[k]).0@ == candidates@[c].0@
                            && dedup0[k].1@ == candidates@[c].1@;
                    assert(dedup@[k] == dedup0[k]);
                } else {
                    assert(pairs_has(dedup@, candidates@[c].0@, candidates@[c].1@));
                }
            }
        }
        i = i + 1;
    }
    // split into found / to_add
    let mut to_add: Vec<(Vec<u8>, Vec<u8>)> = Vec::new();
    let mut d: usize = 0;
    while d < dedup.len()
        invariant
            0 <= d <= dedup@.len(),
            *store == s0,
            result@.len() + to_add@.len() == d,
            forall|k: int|
                0 <= k < result@.len() ==> {
                    let e = #[trigger] result@[k];
                    &&& pairs_has(candidates@, e.policy_id@, e.asset_name@)
                    &&& 0 < e.id <= s0.assets@.len()
                    &&& asset_row_eqv(s0.assets@[e.id - 1], e)
                    &&& has_asset(s0.assets@, e.policy_id@, e.asset_name@)
                    &&& dedup_prefix_has_pair(dedup@, d as int, e.policy_id@, e.asset_name@)
                },
            forall|k1: int, k2: int|
                0 <= k1 < k2 < result@.len() ==> !((#[trigger] result@[k1]).policy_id@ == (
                #[trigger] result@[k2]).policy_id@ && result@[k1].asset_name@ == result@[k2].asset_name@),
            forall|k: int|
                0 <= k < to_add@.len() ==> {
                    let e = #[trigger] to_add@[k];
                    &&& pairs_has(candidates@, e.0@, e.1@)
                    &&& !has_asset(s0.assets@, e.0@, e.1@)
                    &&& dedup_prefix_has_pair(dedup@, d as int, e.0@, e.1@)
                },
            forall|k1: int, k2: int|
                0 <= k1 < k2 < to_add@.len() ==> !((#[trigger] to_add@[k1]).0@ == (
                #[trigger] to_add@[k2]).0@ && to_add@[k1].1@ == to_add@[k2].1@),
            forall|k: int|
                0 <= k < d ==> (exists|k2: int|
                    0 <= k2 < result@.len() && (#[trigger] result@[k2]).policy_id@ == (
                    #[trigger] dedup@[k]).0@ && result@[k2].asset_name@ == dedup@[k].1@)
                    || pairs_has(to_add@, dedup@[k].0@, dedup@[k].1@),
        decreases dedup@.len() - d,
    {
        let ghost r0 = result@;
        let ghost a0 = to_add@;
        proof {
            assert forall|k: int|
                0 <= k < result@.len() implies !((#[trigger] result@[k]).policy_id@ == dedup@[
                d as int].0@ && result@[k].asset_name@ == dedup@[d as int].1@) by {
                assert(dedup_prefix_has_pair(dedup@, d as int, result@[k].policy_id@, result@[
                    k].asset_name@));
            }
            assert forall|k: int|
                0 <= k < to_add@.len() implies !((#[trigger] to_add@[k]).0@ == dedup@[d as int].0@
                && to_add@[k].1@ == dedup@[d as int].1@) by {
                assert(dedup_prefix_has_pair(dedup@, d as int, to_add@[k].0@, to_add@[k].1@));
            }
        }
        match find_asset_row(&store.assets, dedup[d].0.as_slice(), dedup[d].1.as_slice()) {
            Some(idx) => {
                result.push(copy_asset_row(&store.assets[idx]));
                proof {
                    assert(s0.assets@[idx as int].id == idx + 1);
                    assert forall|k: int|
                        0 <= k < d + 1 implies (exists|k2: int|
                        0 <= k2 < result@.len() && (#[trigger] result@[k2]).policy_id@ == (
                        #[trigger] dedup@[k]).0@ && result@[k2].asset_name@ == dedup@[k].1@)
                        || pairs_has(to_add@, dedup@[k].0@, dedup@[k].1@) by {
                        if k < d {
                            if exists|k2: int|
                                0 <= k2 < r0.len() && (#[trigger] r0[k2]).policy_id@ == dedup@[k].0@
                                    && r0[k2].asset_name@ == dedup@[k].1@ {
                                let k2 = choose|k2: int|
                                    0 <= k2 < r0.len() && (#[trigger] r0[k2]).policy_id@
                                        == dedup@[k].0@ && r0[k2].asset_name@ == dedup@[k].1@;
                                assert(result@[k2] == r0[k2]);
                            }
                        } else {
                            assert(result@[result@.len() - 1].policy_id@ == dedup@[k].0@);
                        }
                    }
                }
            },
            None => {
                to_add.push((copy_bytes(&dedup[d].0), copy_bytes(&dedup[d].1)));
                proof {
                    assert forall|k: int|
                        0 <= k < d + 1 implies (exists|k2: int|
                        0 <= k2 < result@.len() && (#[trigger] result@[k2]).policy_id@ == (
                        #[trigger] dedup@[k]).0@ && result@[k2].asset_name@ == dedup@[k].1@)
                        || pairs_has(to_add@, dedup@[k].0@, dedup@[k].1@) by {
                        if k < d {
                            if pairs_has(a0, dedup@[k].0@, dedup@[k].1@) {
                                let k2 = choose|k2: int|
                                    0 <= k2 < a0.len() && (#[trigger] a0[k2]).0@ == dedup@[k].0@
                                        && a0[k2].1@ == dedup@[k].1@;
                                assert(to_add@[k2] == a0[k2]);
                            }
                        } else {
                            assert(to_add@[to_add@.len() - 1].0@ == dedup@[k].0@);
                        }
                    }
                }
            },
        }
        d = d + 1;
    }
    let ghost found = result@;
    let ghost added = to_add@;
    let sorted = sort_pairs(to_add);
    let ghost n0 = s0.assets@.len() as int;
    let mut j: usize = 0;
    while j < sorted.len()
        invariant
            0 <= j <= sorted@.len(),
            store.blocks == s0.blocks,
            store.transactions == s0.transactions,
            store.outputs == s0.outputs,
            store.inputs == s0.inputs,
            store.addresses == s0.addresses,
            store.asset_transfers == s0.asset_transfers,
            store.mean_prices == s0.mean_prices,
            store.swaps == s0.swaps,
            store.assets@.len() == n0 + j,
            forall|i2: int| 0 <= i2 < n0 ==> store.assets@[i2] == s0.assets@[i2],
            forall|jj: int|
                0 <= jj < j ==> {
                    let row = #[trigger] store.assets@[n0 + jj];
                    &&& row.id == n0 + jj + 1
                    &&& row.policy_id@ == sorted@[jj].0@
                    &&& row.asset_name@ == sorted@[jj].1@
                },
            result@.len() == found.len() + j,
            forall|k: int| 0 <= k < found.len() ==> result@[k] == found[k],
            forall|k: int|
                found.len() <= k < result@.len() ==> {
                    let e = #[trigger] result@[k];
                    &&& e.id == n0 + (k - found.len()) + 1
                    &&& e.policy_id@ == sorted@[k - found.len()].0@
                    &&& e.asset_name@ == sorted@[k - found.len()].1@
                },
        decreases sorted@.len() - j,
    {
        let id_val: i64 = (store.assets.len() + 1) as i64;
        store.assets.push(
            NativeAssetRow {
                id: id_val,
                policy_id: copy_bytes(&sorted[j].0),
                asset_name: copy_bytes(&sorted[j].1),
            },
        );
        result.push(
            NativeAssetRow {
                id: id_val,
                policy_id: copy_bytes(&sorted[j].0),
                asset_name: copy_bytes(&sorted[j].1),
            },
        );
        j = j + 1;
    }
    proof {
        let s1 = *store;
        let cs = candidates@;
        let res = result@;
        let n1 = s1.assets@.len() as int;
        assert forall|i2: int| 0 <= i2 < n1 implies (#[trigger] s1.assets@[i2]).id == i2 + 1 by {
            if i2 < n0 {
                assert(s1.assets@[i2] == s0.assets@[i2]);
            } else {
                let jj = i2 - n0;
                assert(s1.assets@[n0 + jj].id == n0 + jj + 1);
            }
        }
        assert forall|i2: int|
            0 <= i2 < n1 implies !((#[trigger] s1.assets@[i2]).policy_id@.len() == 0
            && s1.assets@[i2].asset_name@.len() == 0) by {
            if i2 < n0 {
                assert(s1.assets@[i2] == s0.assets@[i2]);
            } else {
                let jj = i2 - n0;
                assert(s1.assets@[n0 + jj].policy_id@ == sorted@[jj].0@);
                assert(s1.assets@[n0 + jj].asset_name@ == sorted@[jj].1@);
                assert(pairs_has(added, sorted@[jj].0@, sorted@[jj].1@));
                let k = choose|k: int|
                    0 <= k < added.len() && (#[trigger] added[k]).0@ == sorted@[jj].0@ && added[k].1@
                        == sorted@[jj].1@;
                assert(pairs_has(cs, added[k].0@, added[k].1@));
                let c = choose|c: int|
                    0 <= c < cs.len() && (#[trigger] cs[c]).0@ == added[k].0@ && cs[c].1@
                        == added[k].1@;
            }
        }
        assert forall|i2: int, j2: int|
            0 <= i2 < j2 < n1 implies !((#[trigger] s1.assets@[i2]).policy_id@ == (
        #[trigger] s1.assets@[j2]).policy_id@ && s1.assets@[i2].asset_name@ == s1.assets@[j2].asset_name@)
            by {
            if j2 < n0 {
                assert(s1.assets@[i2] == s0.assets@[i2]);
                assert(s1.assets@[j2] == s0.assets@[j2]);
            } else if i2 < n0 {
                assert(s1.assets@[i2] == s0.assets@[i2]);
                let jj = j2 - n0;
                assert(s1.assets@[n0 + jj].policy_id@ == sorted@[jj].0@);
                assert(s1.assets@[n0 + jj].asset_name@ == sorted@[jj].1@);
                assert(pairs_has(added, sorted@[jj].0@, sorted@[jj].1@));
                let k = choose|k: int|
                    0 <= k < added.len() && (#[trigger] added[k]).0@ == sorted@[jj].0@ && added[k].1@
                        == sorted@[jj].1@;
                assert(!has_asset(s0.assets@, added[k].0@, added[k].1@));
                if s1.assets@[i2].policy_id@ == s1.assets@[j2].policy_id@ && s1.assets@[i2].asset_name@
                    == s1.assets@[j2].asset_name@ {
                    assert(has_asset(s0.assets@, s0.assets@[i2].policy_id@, s0.assets@[i2].asset_name@));
                }
            } else {
                let ii = i2 - n0;
                let jj = j2 - n0;
                assert(s1.assets@[n0 + ii].policy_id@ == sorted@[ii].0@);
                assert(s1.assets@[n0 + jj].policy_id@ == sorted@[jj].0@);
                assert(s1.assets@[n0 + ii].asset_name@ == sorted@[ii].1@);
                assert(s1.assets@[n0 + jj].asset_name@ == sorted@[jj].1@);
                assert(!((sorted@[ii]).0@ == (sorted@[jj]).0@ && sorted@[ii].1@ == sorted@[jj].1@));
            }
        }
        assert(wf_assets(s1.assets@));
        assert(wf_store(s1));
        assert forall|j2: int|
            n0 <= j2 < n1 implies {
            let a = #[trigger] s1.assets@[j2];
            &&& pairs_has(cs, a.policy_id@, a.asset_name@)
            &&& !has_asset(s0.assets@, a.policy_id@, a.asset_name@)
        } by {
            let jj = j2 - n0;
            assert(s1.assets@[n0 + jj].policy_id@ == sorted@[jj].0@);
            assert(s1.assets@[n0 + jj].asset_name@ == sorted@[jj].1@);
            assert(pairs_has(added, sorted@[jj].0@, sorted@[jj].1@));
            let k = choose|k: int|
                0 <= k < added.len() && (#[trigger] added[k]).0@ == sorted@[jj].0@ && added[k].1@
                    == sorted@[jj].1@;
        }
        assert forall|i2: int, j2: int|
            n0 <= i2 < j2 < n1 implies pair_le(
            ((#[trigger] s1.assets@[i2]).policy_id, s1.assets@[i2].asset_name),
            ((#[trigger] s1.assets@[j2]).policy_id, s1.assets@[j2].asset_name),
        ) by {
            let ii = i2 - n0;
            let jj = j2 - n0;
            assert(s1.assets@[n0 + ii].policy_id@ == sorted@[ii].0@);
            assert(s1.assets@[n0 + ii].asset_name@ == sorted@[ii].1@);
            assert(s1.assets@[n0 + jj].policy_id@ == sorted@[jj].0@);
            assert(s1.assets@[n0 + jj].asset_name@ == sorted@[jj].1@);
            assert(pair_le(sorted@[ii], sorted@[jj]));
        }
        assert forall|c: int|
            0 <= c < cs.len() implies has_asset(
            s1.assets@,
            (#[trigger] cs[c]).0@,
            cs[c].1@,
        ) && res_has_pair(res, cs[c].0@, cs[c].1@) by {
            assert(pairs_has(dedup@, cs[c].0@, cs[c].1@));
            let k = choose|k: int|
                0 <= k < dedup@.len() && (#[trigger] dedup@[k]).0@ == cs[c].0@ && dedup@[k].1@
                    == cs[c].1@;
            if exists|k2: int|
                0 <= k2 < found.len() && (#[trigger] found[k2]).policy_id@ == dedup@[k].0@
                    && found[k2].asset_name@ == dedup@[k].1@ {
                let k2 = choose|k2: int|
                    0 <= k2 < found.len() && (#[trigger] found[k2]).policy_id@ == dedup@[k].0@
                        && found[k2].asset_name@ == dedup@[k].1@;
                assert(res[k2] == found[k2]);
                let w = found[k2].id - 1;
                assert(s1.assets@[w] == s0.assets@[w]);
                assert(s1.assets@[w].policy_id@ == cs[c].0@ && s1.assets@[w].asset_name@ == cs[
                    c].1@);
            } else {
                assert(pairs_has(added, dedup@[k].0@, dedup@[k].1@));
                let k3 = choose|k3: int|
                    0 <= k3 < added.len() && (#[trigger] added[k3]).0@ == dedup@[k].0@ && added[k3].1@
                        == dedup@[k].1@;
                assert(pairs_has(sorted@, added[k3].0@, added[k3].1@));
                let jj = choose|jj: int|
                    0 <= jj < sorted@.len() && (#[trigger] sorted@[jj]).0@ == dedup@[k].0@
                        && sorted@[jj].1@ == dedup@[k].1@;
                assert(s1.assets@[n0 + jj].policy_id@ == cs[c].0@);
                assert(s1.assets@[n0 + jj].asset_name@ == cs[c].1@);
                assert(res[found.len() + jj].policy_id@ == cs[c].0@);
                assert(res[found.len() + jj].asset_name@ == cs[c].1@);
            }
        }
        assert forall|k: int|
            0 <= k < res.len() implies {
            let e = #[trigger] res[k];
            &&& pairs_has(cs, e.policy_id@, e.asset_name@)
            &&& 0 < e.id <= n1
            &&& asset_row_eqv(s1.assets@[e.id - 1], e)
        } by {
            if k < found.len() {
                assert(res[k] == found[k]);
                let w = found[k].id - 1;
                assert(s1.assets@[w] == s0.assets@[w]);
            } else {
                let jj = k - found.len();
                assert(pairs_has(added, sorted@[jj].0@, sorted@[jj].1@));
                let k3 = choose|k3: int|
                    0 <= k3 < added.len() && (#[trigger] added[k3]).0@ == sorted@[jj].0@
                        && added[k3].1@ == sorted@[jj].1@;
                assert(s1.assets@[n0 + jj].policy_id@ == sorted@[jj].0@);
                assert(s1.assets@[n0 + jj].asset_name@ == sorted@[jj].1@);
            }
        }
        assert forall|k1: int, k2: int|
            0 <= k1 < k2 < res.len() implies !((#[trigger] res[k1]).policy_id@ == (
        #[trigger] res[k2]).policy_id@ && res[k1].asset_name@ == res[k2].asset_name@) by {
            if k2 < found.len() {
                assert(res[k1] == found[k1]);
                assert(res[k2] == found[k2]);
            } else if k1 >= found.len() {
                let a = k1 - found.len();
                let b = k2 - found.len();
                assert(res[k1].policy_id@ == sorted@[a].0@ && res[k1].asset_name@ == sorted@[a].1@);
                assert(res[k2].policy_id@ == sorted@[b].0@ && res[k2].asset_name@ == sorted@[b].1@);
                assert(!((sorted@[a]).0@ == (sorted@[b]).0@ && sorted@[a].1@ == sorted@[b].1@));
            } else {
                let b = k2 - found.len();
                assert(res[k1] == found[k1]);
                assert(has_asset(s0.assets@, found[k1].policy_id@, found[k1].asset_name@));
                assert(res[k2].policy_id@ == sorted@[b].0@ && res[k2].asset_name@ == sorted@[b].1@);
                assert(pairs_has(added, sorted@[b].0@, sorted@[b].1@));
                let k3 = choose|k3: int|
                    0 <= k3 < added.len() && (#[trigger] added[k3]).0@ == sorted@[b].0@ && added[k3].1@
                        == sorted@[b].1@;
                assert(!has_asset(s0.assets@, added[k3].0@, added[k3].1@));
            }
        }
        assert(s1.blocks == s0.blocks && s1.transactions == s0.transactions && s1.outputs
            == s0.outputs && s1.inputs == s0.inputs && s1.addresses == s0.addresses
            && s1.asset_transfers == s0.asset_transfers && s1.mean_prices == s0.mean_prices
            && s1.swaps == s0.swaps);
        assert(s1.assets@.len() >= n0);
        assert(forall|i2: int| 0 <= i2 < n0 ==> s1.assets@[i2] == s0.assets@[i2]);
        assert(forall|j2: int|
            n0 <= j2 < s1.assets@.len() ==> {
                let a = #[trigger] s1.assets@[j2];
                &&& pairs_has(cs, a.policy_id@, a.asset_name@)
                &&& !has_asset(s0.assets@, a.policy_id@, a.asset_name@)
            });
        assert(forall|i2: int|
            0 <= i2 < cs.len() ==> has_asset(s1.assets@, (#[trigger] cs[i2]).0@, cs[i2].1@));
        assert(forall|i2: int, j2: int|
            n0 <= i2 < j2 < s1.assets@.len() ==> pair_le(
                ((#[trigger] s1.assets@[i2]).policy_id, s1.assets@[i2].asset_name),
                ((#[trigger] s1.assets@[j2]).policy_id, s1.assets@[j2].asset_name),
            ));
        assert(forall|k: int|
            0 <= k < res.len() ==> {
                let e = #[trigger] res[k];
                &&& pairs_has(cs, e.policy_id@, e.asset_name@)
                &&& 0 < e.id <= s1.assets@.len()
                &&& asset_row_eqv(s1.assets@[e.id - 1], e)
            });
        assert(forall|k1: int, k2: int|
            0 <= k1 < k2 < res.len() ==> !((#[trigger] res[k1]).policy_id@ == (
            #[trigger] res[k2]).policy_id@ && res[k1].asset_name@ == res[k2].asset_name@));
        assert(forall|i2: int|
            0 <= i2 < cs.len() ==> res_has_pair(res, (#[trigger] cs[i2]).0@, cs[i2].1@));
        assert(asset_resolution_post(s0, cs, s1, res));
    }
    result
}

/// The ADA sentinel pair is never present as a stored asset row: under the
/// store invariant, no row carries an empty policy id and an empty name.
pub proof fn lemma_ada_never_stored(s: Store)
    requires
        wf_store(s),
    ensures
        !has_asset(s.assets@, Seq::<u8>::empty(), Seq::<u8>::empty()),
{
    if has_asset(s.assets@, Seq::<u8>::empty(), Seq::<u8>::empty()) {
        let i = choose|i: int|
            0 <= i < s.assets@.len() && (#[trigger] s.assets@[i]).policy_id@ == Seq::<u8>::empty()
                && s.assets@[i].asset_name@ == Seq::<u8>::empty();
        assert(s.assets@[i].policy_id@.len() == 0 && s.assets@[i].asset_name@.len() == 0);
        assert(false);
    }
}


// ---------------------------------------------------------------------------
// Asset transfers

/// The output list resolves pointer (`tx_id`, `idx`) to the row id `utxo`.
pub open spec fn outs_resolve(
    outs: Seq<TransactionOutputRow>,
    tx_id: i64,
    idx: int,
    utxo: i64,
) -> bool {
    exists|k: int|
        0 <= k < outs.len() && (#[trigger] outs[k]).tx_id == tx_id && outs[k].output_index == idx
            && outs[k].id == utxo
}

/// The output list has a row at pointer (`tx_id`, `idx`).
pub open spec fn ptr_resolvable(outs: Seq<TransactionOutputRow>, tx_id: i64, idx: int) -> bool {
    exists|k: int|
        0 <= k < outs.len() && (#[trigger] outs[k]).tx_id == tx_id && outs[k].output_index == idx
}

/// Behaviour of a successful [`handle_assets`] call: one transfer row per
/// queued movement, in order, each tied to its output and its asset row
/// (or the ADA sentinel).
pub open spec fn handle_assets_ok(
    s0: Store,
    queued: Seq<QueuedAssetTransfer>,
    outs: Seq<TransactionOutputRow>,
    s1: Store,
) -> bool {
    let n0 = s0.asset_transfers@.len() as int;
    &&& s1.blocks == s0.blocks
    &&& s1.transactions == s0.transactions
    &&& s1.outputs == s0.outputs
    &&& s1.inputs == s0.inputs
    &&& s1.addresses == s0.addresses
    &&& s1.assets == s0.assets
    &&& s1.mean_prices == s0.mean_prices
    &&& s1.swaps == s0.swaps
    &&& s1.asset_transfers@.len() == n0 + queued.len()
    &&& forall|i: int| 0 <= i < n0 ==> s1.asset_transfers@[i] == s0.asset_transfers@[i]
    &&& forall|j: int|
        0 <= j < queued.len() ==> {
            let r = #[trigger] s1.asset_transfers@[n0 + j];
            &&& r.id == n0 + j + 1
            &&& r.amount == queued[j].asset.quantity
            &&& outs_resolve(
                outs,
                queued[j].output_pointer.0,
                queued[j].output_pointer.1 as int,
                r.utxo_id,
            )
            &&& match queued[j].asset.pair {
                None => r.asset_id is None,
                Some(p) => {
                    r.asset_id matches Some(ai) && 0 < ai <= s0.assets@.len()
                        && s0.assets@[ai - 1].policy_id@ == p.0@ && s0.assets@[ai - 1].asset_name@
                        == p.1@
                },
            }
        }
}

/// Builds one asset-transfer row per queued movement: the output id comes
/// from the block's used outputs, the asset id from the already-resolved
/// asset rows or the store (the ADA sentinel maps to no asset reference and
/// touches no asset row). An unresolvable pointer or asset is fatal: nothing
/// is written.
#[verifier::loop_isolation(false)]
#[verifier::rlimit(60)]
pub fn handle_assets(
    multiera_queued_asset_transfers: &Vec<QueuedAssetTransfer>,
    multiera_outputs: &Vec<TransactionOutputRow>,
    multiera_assets: &Vec<NativeAssetRow>,
    store: &mut Store,
) -> (r: Result<(), FatalError>)
    requires
        wf_store(*old(store)),
        forall|k: int|
            0 <= k < multiera_outputs@.len() ==> 0 < (#[trigger] multiera_outputs@[k]).id <= old(
                store,
            ).outputs@.len(),
        forall|k: int|
            0 <= k < multiera_assets@.len() ==> {
                let a = #[trigger] multiera_assets@[k];
                &&& 0 < a.id <= old(store).assets@.len()
                &&& asset_row_eqv(old(store).assets@[a.id - 1], a)
            },
        old(store).asset_transfers@.len() + multiera_queued_asset_transfers@.len() <= i64::MAX,
        old(store).asset_transfers@.len() + multiera_queued_asset_transfers@.len() < usize::MAX,
    ensures
        match r {
            Ok(_) => {
                &&& handle_assets_ok(
                    *old(store),
                    multiera_queued_asset_transfers@,
                    multiera_outputs@,
                    *final(store),
                )
                &&& wf_store(*final(store))
            },
            Err(e) => {
                &&& *final(store) == *old(store)
                &&& match e {
                    FatalError::MissingOutputPointer { tx_id, output_index } => {
                        &&& !ptr_resolvable(multiera_outputs@, tx_id, output_index as int)
                        &&& exists|j: int|
                            0 <= j < multiera_queued_asset_transfers@.len() && (
                            #[trigger] multiera_queued_asset_transfers@[j]).output_pointer.0
                                == tx_id && multiera_queued_asset_transfers@[j].output_pointer.1
                                as u64 == output_index
                    },
                    FatalError::MissingAsset { policy_id, asset_name } => {
                        &&& !has_asset(old(store).assets@, policy_id@, asset_name@)
                        &&& exists|j: int|
                            {
                                &&& 0 <= j < multiera_queued_asset_transfers@.len()
                                &&& (#[trigger] multiera_queued_asset_transfers@[j]).asset.pair
                                    matches Some(p)
                                &&& p.0@ == policy_id@
                                &&& p.1@ == asset_name@
                            }
                    },
                    _ => false,
                }
            },
        },
{
    let ghost s0 = *store;
    let queued = multiera_queued_asset_transfers;
    let base = store.asset_transfers.len();
    let mut rows: Vec<AssetTransferRow> = Vec::new();
    let mut j: usize = 0;
    while j < queued.len()
        invariant
            0 <= j <= queued@.len(),
            *store == s0,
            rows@.len() == j,
            forall|j2: int|
                0 <= j2 < j ==> {
                    let r = #[trigger] rows@[j2];
                    &&& r.id == base + j2 + 1
                    &&& 0 < r.utxo_id <= s0.outputs@.len()
                    &&& r.amount == queued@[j2].asset.quantity
                    &&& outs_resolve(
                        multiera_outputs@,
                        queued@[j2].output_pointer.0,
                        queued@[j2].output_pointer.1 as int,
                        r.utxo_id,
                    )
                    &&& match queued@[j2].asset.pair {
                        None => r.asset_id is None,
                        Some(p) => {
                            r.asset_id matches Some(ai) && 0 < ai <= s0.assets@.len()
                                && s0.assets@[ai - 1].policy_id@ == p.0@ && s0.assets@[ai
                                - 1].asset_name@ == p.1@
                        },
                    }
                },
        decreases queued@.len() - j,
    {
        // 1) resolve the output pointer
        let ptr_tx = queued[j].output_pointer.0;
        let ptr_idx = queued[j].output_pointer.1;
        let mut k: usize = 0;
        let mut utxo_id: i64 = 0;
        let mut found_out = false;
        while k < multiera_outputs.len()
            invariant
                0 <= k <= multiera_outputs@.len(),
                found_out ==> outs_resolve(multiera_outputs@, ptr_tx, ptr_idx as int, utxo_id),
                found_out ==> 0 < utxo_id <= s0.outputs@.len(),
                !found_out ==> forall|k2: int|
                    0 <= k2 < k ==> !((#[trigger] multiera_outputs@[k2]).tx_id == ptr_tx
                        && multiera_outputs@[k2].output_index == ptr_idx as int),
            decreases multiera_outputs@.len() - k,
        {
            let o = &multiera_outputs[k];
            if !found_out && o.tx_id == ptr_tx && o.output_index >= 0 && (o.output_index as usize)
                == ptr_idx {
                utxo_id = o.id;
                found_out = true;
                proof {
                    assert(multiera_outputs@[k as int].tx_id == ptr_tx && multiera_outputs@[
                        k as int].output_index == ptr_idx as int && multiera_outputs@[k as int].id
                        == utxo_id);
                }
            }
            k = k + 1;
        }
        if !found_out {
            return Err(
                FatalError::MissingOutputPointer { tx_id: ptr_tx, output_index: ptr_idx as u64 },
            );
        }
        // 2) resolve the asset id, the ADA sentinel touching nothing
        let asset_id: Option<i64> = match &queued[j].asset.pair {
            None => None,
            Some(p) => {
                match find_asset_row(multiera_assets, p.0.as_slice(), p.1.as_slice()) {
                    Some(k2) => {
                        proof {
                            let a = multiera_assets@[k2 as int];
                            assert(asset_row_eqv(s0.assets@[a.id - 1], a));
                        }
                        Some(multiera_assets[k2].id)
                    },
                    None => {
                        match find_asset_row(&store.assets, p.0.as_slice(), p.1.as_slice()) {
                            Some(k2) => {
                                proof {
                                    assert(s0.assets@[k2 as int].id == k2 + 1);
                                }
                                Some(store.assets[k2].id)
                            },
                            None => {
                                return Err(
                                    FatalError::MissingAsset {
                                        policy_id: copy_bytes(&p.0),
                                        asset_name: copy_bytes(&p.1),
                                    },
                                );
                            },
                        }
                    },
                }
            },
        };
        let id_val: i64 = (base + rows.len() + 1) as i64;
        rows.push(
            AssetTransferRow { id: id_val, utxo_id, asset_id, amount: queued[j].asset.quantity },
        );
        j = j + 1;
    }
    // 3) append the batch
    let ghost rows_v = rows@;
    let mut t: usize = 0;
    while t < rows.len()
        invariant
            0 <= t <= rows@.len(),
            rows@ == rows_v,
            store.blocks == s0.blocks,
            store.transactions == s0.transactions,
            store.outputs == s0.outputs,
            store.inputs == s0.inputs,
            store.addresses == s0.addresses,
            store.assets == s0.assets,
            store.mean_prices == s0.mean_prices,
            store.swaps == s0.swaps,
            store.asset_transfers@ == s0.asset_transfers@ + rows_v.take(t as int),
        decreases rows@.len() - t,
    {
        store.asset_transfers.push(rows[t]);
        proof {
            assert(store.asset_transfers@ =~= s0.asset_transfers@ + rows_v.take(t as int + 1));
        }
        t = t + 1;
    }
    proof {
        assert(rows_v.take(rows_v.len() as int) =~= rows_v);
        assert forall|i2: int|
            0 <= i2 < store.asset_transfers@.len() implies {
            let row = #[trigger] store.asset_transfers@[i2];
            &&& row.id == i2 + 1
            &&& 0 < row.utxo_id <= store.outputs@.len()
            &&& match row.asset_id {
                Some(a) => 0 < a <= store.assets@.len(),
                None => true,
            }
        } by {
            if i2 < s0.asset_transfers@.len() {
                assert(store.asset_transfers@[i2] == s0.asset_transfers@[i2]);
            } else {
                assert(store.asset_transfers@[i2] == rows_v[i2 - s0.asset_transfers@.len()]);
            }
        }
        assert(wf_asset_transfers(
            store.asset_transfers@,
            store.outputs@.len() as int,
            store.assets@.len() as int,
        ));
        assert forall|j2: int|
            0 <= j2 < queued@.len() implies {
            let r = #[trigger] store.asset_transfers@[s0.asset_transfers@.len() + j2];
            &&& r.id == s0.asset_transfers@.len() + j2 + 1
            &&& r.amount == queued@[j2].asset.quantity
            &&& outs_resolve(
                multiera_outputs@,
                queued@[j2].output_pointer.0,
                queued@[j2].output_pointer.1 as int,
                r.utxo_id,
            )
            &&& match queued@[j2].asset.pair {
                None => r.asset_id is None,
                Some(p) => {
                    r.asset_id matches Some(ai) && 0 < ai <= s0.assets@.len() && s0.assets@[ai
                        - 1].policy_id@ == p.0@ && s0.assets@[ai - 1].asset_name@ == p.1@
                },
            }
        } by {
            assert(store.asset_transfers@[s0.asset_transfers@.len() + j2] == rows_v[j2]);
        }
    }
    Ok(())
}

} // verus!
