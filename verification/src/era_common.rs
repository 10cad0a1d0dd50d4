//! Entity resolution shared across eras: deduplicating lookup-or-insert of
//! addresses, and batch resolution of spent outputs from inputs.

use vstd::prelude::*;
use crate::lex::{bytes_lt, bytes_le, bytes_eq, bytes_lt_exec, copy_bytes};
use crate::lex::lemma_bytes_lt_connected;
use crate::lex::lemma_bytes_lt_irreflexive;
use crate::lex::lemma_bytes_lt_transitive;
use crate::ledger::OutputRef;
use crate::store::{
    Store, AddressRow, TransactionRow, TransactionOutputRow, TransactionInputRow, FatalError,
    wf_store, wf_addresses, wf_inputs, has_address, addr_row_eqv, output_row_eqv, tx_row_eqv,
    copy_output_row, copy_tx_row, has_output_ref, has_tx_hash,
};

verus! {

/// Address payloads are truncated to this many bytes before storage or lookup.
/// Legacy encodings allow arbitrarily large addresses, but truncated payloads
/// stay unique enough for indexing and respect storage-engine key-size limits.
pub const ADDRESS_TRUNCATE: usize = 500;

/// The stored form of an address payload: its first 500 bytes.
pub open spec fn trunc_spec(a: Seq<u8>) -> Seq<u8> {
    if a.len() <= ADDRESS_TRUNCATE { a } else { a.take(ADDRESS_TRUNCATE as int) }
}

/// Truncates an address payload to its stored form.
pub fn get_truncated_address<'a>(addr_bytes: &'a [u8]) -> (r: &'a [u8])
    ensures
        r@ == trunc_spec(addr_bytes@),
{
    let n = addr_bytes.len();
    let m = if n < ADDRESS_TRUNCATE {
        n
    } else {
        ADDRESS_TRUNCATE
    };
    let r = vstd::slice::slice_subrange(addr_bytes, 0, m);
    proof {
        assert(r@ =~= trunc_spec(addr_bytes@));
    }
    r
}

/// An address as resolved for one block: its row, and whether this block
/// created the row.
pub struct AddressInBlock {
    pub model: AddressRow,
    pub is_new: bool,
}

// ---------------------------------------------------------------------------
// Specification of address resolution

/// Candidate lists are keyed by raw payload: no raw key occurs twice.
pub open spec fn distinct_keys(cands: Seq<(Vec<u8>, i64)>) -> bool {
    forall|i: int, j: int|
        0 <= i < j < cands.len() ==> (#[trigger] cands[i]).0@ != (#[trigger] cands[j]).0@
}

/// Some candidate truncates to `t`.
pub open spec fn has_trunc(cands: Seq<(Vec<u8>, i64)>, t: Seq<u8>) -> bool {
    exists|i: int| 0 <= i < cands.len() && trunc_spec((#[trigger] cands[i]).0@) == t
}

/// `v` is the smallest first-seen transaction id among the candidates that
/// truncate to `t` (the id under which the address batch is ordered).
pub open spec fn is_group_first_tx(cands: Seq<(Vec<u8>, i64)>, t: Seq<u8>, v: i64) -> bool {
    &&& exists|i: int|
        0 <= i < cands.len() && trunc_spec((#[trigger] cands[i]).0@) == t && cands[i].1 == v
    &&& forall|i: int|
        0 <= i < cands.len() && trunc_spec((#[trigger] cands[i]).0@) == t ==> cands[i].1 >= v
}

/// Batch order for newly created address rows: ascending first-seen
/// transaction id, ties broken by payload bytes.
pub open spec fn addr_batch_le(a: AddressRow, b: AddressRow) -> bool {
    a.first_tx < b.first_tx || (a.first_tx == b.first_tx && bytes_le(a.payload@, b.payload@))
}

pub open spec fn res_has_payload(res: Seq<AddressInBlock>, t: Seq<u8>) -> bool {
    exists|k: int| 0 <= k < res.len() && (#[trigger] res[k]).model.payload@ == t
}

/// Full behaviour of [`insert_addresses`]: relates the store before the call,
/// the candidate list, the store after the call and the returned resolution.
pub open spec fn insert_addresses_post(
    s0: Store,
    cands: Seq<(Vec<u8>, i64)>,
    s1: Store,
    res: Seq<AddressInBlock>,
) -> bool {
    let n0 = s0.addresses@.len() as int;
    &&& wf_store(s1)
    // only the address table is touched
    &&& s1.blocks == s0.blocks
    &&& s1.transactions == s0.transactions
    &&& s1.outputs == s0.outputs
    &&& s1.inputs == s0.inputs
    &&& s1.assets == s0.assets
    &&& s1.asset_transfers == s0.asset_transfers
    &&& s1.mean_prices == s0.mean_prices
    &&& s1.swaps == s0.swaps
    // existing rows are reused, never re-inserted
    &&& s1.addresses@.len() >= n0
    &&& forall|i: int| 0 <= i < n0 ==> s1.addresses@[i] == s0.addresses@[i]
    // each new row is an unseen candidate with the group's first-seen tx id
    &&& forall|j: int|
        n0 <= j < s1.addresses@.len() ==> {
            let r = #[trigger] s1.addresses@[j];
            &&& has_trunc(cands, r.payload@)
            &&& !has_address(s0.addresses@, r.payload@)
            &&& is_group_first_tx(cands, r.payload@, r.first_tx)
        }
    // every candidate resolves to a row afterwards
    &&& forall|i: int|
        0 <= i < cands.len() ==> has_address(
            s1.addresses@,
            trunc_spec((#[trigger] cands[i]).0@),
        )
    // the new batch is inserted in deterministic ascending order
    &&& forall|i: int, j: int|
        n0 <= i < j < s1.addresses@.len() ==> addr_batch_le(
            #[trigger] s1.addresses@[i],
            #[trigger] s1.addresses@[j],
        )
    // the returned entries mirror store rows, one per distinct truncation
    &&& forall|k: int|
        0 <= k < res.len() ==> {
            let e = #[trigger] res[k];
            &&& has_trunc(cands, e.model.payload@)
            &&& 0 < e.model.id <= s1.addresses@.len()
            &&& addr_row_eqv(s1.addresses@[e.model.id - 1], e.model)
            &&& e.is_new == (e.model.id > n0)
        }
    &&& forall|k1: int, k2: int|
        0 <= k1 < k2 < res.len() ==> (#[trigger] res[k1]).model.payload@ != (
        #[trigger] res[k2]).model.payload@
    &&& forall|i: int|
        0 <= i < cands.len() ==> res_has_payload(res, trunc_spec((#[trigger] cands[i]).0@))
}

// ---------------------------------------------------------------------------
// Deterministic candidate order

/// Order on deduplicated candidates: ascending first-seen tx id, ties broken
/// by payload bytes.
pub open spec fn cand_le(a: (Vec<u8>, i64), b: (Vec<u8>, i64)) -> bool {
    a.1 < b.1 || (a.1 == b.1 && bytes_le(a.0@, b.0@))
}

/// `(t, v)` occurs in the candidate list.
pub open spec fn cands_has(cands: Seq<(Vec<u8>, i64)>, t: Seq<u8>, v: i64) -> bool {
    exists|i: int| 0 <= i < cands.len() && (#[trigger] cands[i]).0@ == t && cands[i].1 == v
}

proof fn cand_le_connected(a: (Vec<u8>, i64), b: (Vec<u8>, i64))
    ensures
        cand_le(a, b) || cand_le(b, a),
{
    if a.1 == b.1 {
        lemma_bytes_lt_connected(a.0@, b.0@);
    }
}

proof fn cand_le_trans(a: (Vec<u8>, i64), b: (Vec<u8>, i64), c: (Vec<u8>, i64))
    requires
        cand_le(a, b),
        cand_le(b, c),
    ensures
        cand_le(a, c),
{
    if a.1 == b.1 && b.1 == c.1 {
        if bytes_lt(a.0@, b.0@) && bytes_lt(b.0@, c.0@) {
            lemma_bytes_lt_transitive(a.0@, b.0@, c.0@);
        }
    }
}

fn cand_le_exec(a: &(Vec<u8>, i64), b: &(Vec<u8>, i64)) -> (r: bool)
    ensures
        r == cand_le(*a, *b),
{
    if a.1 < b.1 {
        true
    } else if a.1 > b.1 {
        false
    } else if bytes_lt_exec(a.0.as_slice(), b.0.as_slice()) {
        true
    } else {
        bytes_eq(a.0.as_slice(), b.0.as_slice())
    }
}

/// First position whose payload equals `t`, if any.
fn find_key(entries: &Vec<(Vec<u8>, i64)>, t: &[u8]) -> (r: Option<usize>)
    ensures
        match r {
            Some(k) => 0 <= k < entries@.len() && entries@[k as int].0@ == t@,
            None => forall|k: int| 0 <= k < entries@.len() ==> (#[trigger] entries@[k]).0@ != t@,
        },
{
    let mut k: usize = 0;
    while k < entries.len()
        invariant
            0 <= k <= entries@.len(),
            forall|k2: int| 0 <= k2 < k ==> (#[trigger] entries@[k2]).0@ != t@,
        decreases entries@.len() - k,
    {
        if bytes_eq(entries[k].0.as_slice(), t) {
            return Some(k);
        }
        k = k + 1;
    }
    None
}

/// First address row whose payload equals `t`, if any.
fn find_address_row(rows: &Vec<AddressRow>, t: &[u8]) -> (r: Option<usize>)
    ensures
        match r {
            Some(k) => 0 <= k < rows@.len() && rows@[k as int].payload@ == t@,
            None => !has_address(rows@, t@),
        },
{
    let mut k: usize = 0;
    while k < rows.len()
        invariant
            0 <= k <= rows@.len(),
            forall|k2: int| 0 <= k2 < k ==> (#[trigger] rows@[k2]).payload@ != t@,
        decreases rows@.len() - k,
    {
        if bytes_eq(rows[k].payload.as_slice(), t) {
            return Some(k);
        }
        k = k + 1;
    }
    None
}

/// Some entry of the deduplicated list carries exactly the payload `t`.
spec fn entries_cover(entries: Seq<(Vec<u8>, i64)>, t: Seq<u8>) -> bool {
    exists|k: int| 0 <= k < entries.len() && (#[trigger] entries[k]).0@ == t
}

/// Truncates every candidate and deduplicates by truncated payload, keeping
/// the smallest first-seen transaction id of each group.
#[verifier::loop_isolation(false)]
#[verifier::rlimit(30)]
fn dedup_candidates(addresses: &Vec<(Vec<u8>, i64)>) -> (r: Vec<(Vec<u8>, i64)>)
    requires
        distinct_keys(addresses@),
    ensures
        r@.len() <= addresses@.len(),
        forall|k1: int, k2: int|
            0 <= k1 < k2 < r@.len() ==> (#[trigger] r@[k1]).0@ != (#[trigger] r@[k2]).0@,
        forall|k: int|
            0 <= k < r@.len() ==> {
                let e = #[trigger] r@[k];
                &&& e.0@.len() <= ADDRESS_TRUNCATE
                &&& has_trunc(addresses@, e.0@)
                &&& is_group_first_tx(addresses@, e.0@, e.1)
            },
        forall|i: int|
            0 <= i < addresses@.len() ==> entries_cover(
                r@,
                trunc_spec((#[trigger] addresses@[i]).0@),
            ),
{
    let mut dedup: Vec<(Vec<u8>, i64)> = Vec::new();
    let mut i: usize = 0;
    while i < addresses.len()
        invariant
            0 <= i <= addresses@.len(),
            dedup@.len() <= i,
            forall|k1: int, k2: int|
                0 <= k1 < k2 < dedup@.len() ==> (#[trigger] dedup@[k1]).0@ != (
                #[trigger] dedup@[k2]).0@,
            forall|k: int|
                0 <= k < dedup@.len() ==> {
                    let e = #[trigger] dedup@[k];
                    &&& e.0@.len() <= ADDRESS_TRUNCATE
                    &&& has_trunc(addresses@, e.0@)
                    &&& is_group_first_tx(addresses@, e.0@, e.1)
                },
            forall|c: int|
                0 <= c < i ==> entries_cover(dedup@, trunc_spec((#[trigger] addresses@[c]).0@)),
        decreases addresses@.len() - i,
    {
        let t = get_truncated_address(addresses[i].0.as_slice());
        match find_key(&dedup, t) {
            Some(k) => {
                proof {
                    assert(dedup@[k as int].0@ == trunc_spec(addresses@[i as int].0@));
                    assert(entries_cover(dedup@, trunc_spec(addresses@[i as int].0@)));
                }
            },
            None => {
                // smallest first-seen tx id over the whole truncation group
                let mut mv: i64 = addresses[i].1;
                let mut c: usize = 0;
                while c < addresses.len()
                    invariant
                        0 <= c <= addresses@.len(),
                        exists|e: int|
                            0 <= e < addresses@.len() && trunc_spec(
                                (#[trigger] addresses@[e]).0@,
                            ) == t@ && addresses@[e].1 == mv,
                        forall|e: int|
                            0 <= e < c && trunc_spec((#[trigger] addresses@[e]).0@) == t@
                                ==> addresses@[e].1 >= mv,
                    decreases addresses@.len() - c,
                {
                    let tc = get_truncated_address(addresses[c].0.as_slice());
                    if bytes_eq(tc, t) {
                        if addresses[c].1 < mv {
                            mv = addresses[c].1;
                        }
                    }
                    c = c + 1;
                }
                let ghost dedup0 = dedup@;
                dedup.push((vstd::slice::slice_to_vec(t), mv));
                proof {
                    assert(dedup@[dedup@.len() - 1].0@ == trunc_spec(addresses@[i as int].0@));
                    assert forall|c: int|
                        0 <= c < i + 1 implies entries_cover(
                        dedup@,
                        trunc_spec((#[trigger] addresses@[c]).0@),
                    ) by {
                        if c < i {
                            let k = choose|k: int|
                                0 <= k < dedup0.len() && (#[trigger] dedup0[k]).0@ == trunc_spec(
                                    addresses@[c].0@,
                                );
                            assert(dedup@[k].0@ == trunc_spec(addresses@[c].0@));
                        } else {
                            assert(dedup@[dedup@.len() - 1].0@ == trunc_spec(addresses@[c].0@));
                        }
                    }
                }
            },
        }
        i = i + 1;
    }
    dedup
}

/// Sorts deduplicated candidates into the deterministic batch order.
#[verifier::loop_isolation(false)]
fn sort_candidates(input: Vec<(Vec<u8>, i64)>) -> (r: Vec<(Vec<u8>, i64)>)
    requires
        forall|k1: int, k2: int|
            0 <= k1 < k2 < input@.len() ==> (#[trigger] input@[k1]).0@ != (
            #[trigger] input@[k2]).0@,
    ensures
        r@.len() == input@.len(),
        forall|k1: int, k2: int|
            0 <= k1 < k2 < r@.len() ==> cand_le(#[trigger] r@[k1], #[trigger] r@[k2]),
        forall|k1: int, k2: int|
            0 <= k1 < k2 < r@.len() ==> (#[trigger] r@[k1]).0@ != (#[trigger] r@[k2]).0@,
        forall|k: int|
            0 <= k < r@.len() ==> cands_has(input@, (#[trigger] r@[k]).0@, r@[k].1),
        forall|i: int|
            0 <= i < input@.len() ==> cands_has(r@, (#[trigger] input@[i]).0@, input@[i].1),
{
    let ghost input0 = input@;
    let mut rest = input;
    let mut out: Vec<(Vec<u8>, i64)> = Vec::new();
    while rest.len() > 0
        invariant
            out@.len() + rest@.len() == input0.len(),
            forall|k1: int, k2: int|
                0 <= k1 < k2 < out@.len() ==> cand_le(#[trigger] out@[k1], #[trigger] out@[k2]),
            forall|k1: int, k2: int|
                0 <= k1 < k2 < out@.len() ==> (#[trigger] out@[k1]).0@ != (#[trigger] out@[k2]).0@,
            forall|k1: int, k2: int|
                0 <= k1 < k2 < rest@.len() ==> (#[trigger] rest@[k1]).0@ != (
                #[trigger] rest@[k2]).0@,
            forall|k1: int, k2: int|
                0 <= k1 < out@.len() && 0 <= k2 < rest@.len() ==> (#[trigger] out@[k1]).0@ != (
                #[trigger] rest@[k2]).0@,
            forall|k1: int, k2: int|
                0 <= k1 < out@.len() && 0 <= k2 < rest@.len() ==> cand_le(
                    #[trigger] out@[k1],
                    #[trigger] rest@[k2],
                ),
            forall|k: int|
                0 <= k < out@.len() ==> cands_has(input0, (#[trigger] out@[k]).0@, out@[k].1),
            forall|k: int|
                0 <= k < rest@.len() ==> cands_has(input0, (#[trigger] rest@[k]).0@, rest@[k].1),
            forall|i: int|
                0 <= i < input0.len() ==> cands_has(out@, (#[trigger] input0[i]).0@, input0[i].1)
                    || cands_has(rest@, input0[i].0@, input0[i].1),
        decreases rest@.len(),
    {
        let mut m: usize = 0;
        let mut k: usize = 1;
        while k < rest.len()
            invariant
                0 <= m < rest@.len(),
                m < k <= rest@.len(),
                forall|j: int| 0 <= j < k ==> cand_le(rest@[m as int], #[trigger] rest@[j]),
            decreases rest@.len() - k,
        {
            if !cand_le_exec(&rest[m], &rest[k]) {
                proof {
                    cand_le_connected(rest@[m as int], rest@[k as int]);
                    assert forall|j: int| 0 <= j < k implies cand_le(
                        rest@[k as int],
                        #[trigger] rest@[j],
                    ) by {
                        cand_le_trans(rest@[k as int], rest@[m as int], rest@[j]);
                    }
                }
                m = k;
            }
            k = k + 1;
        }
        let ghost rest0 = rest@;
        let ghost out0 = out@;
        let x = rest.remove(m);
        proof {
            rest0.remove_ensures(m as int);
        }
        out.push(x);
        proof {
            assert forall|i: int|
                0 <= i < input0.len() implies cands_has(
                out@,
                (#[trigger] input0[i]).0@,
                input0[i].1,
            ) || cands_has(rest@, input0[i].0@, input0[i].1) by {
                let t = input0[i].0@;
                let v = input0[i].1;
                if cands_has(out0, t, v) {
                    let k2 = choose|k2: int|
                        0 <= k2 < out0.len() && (#[trigger] out0[k2]).0@ == t && out0[k2].1 == v;
                    assert(out@[k2] == out0[k2]);
                    assert(cands_has(out@, t, v));
                } else if cands_has(rest0, t, v) {
                    let k2 = choose|k2: int|
                        0 <= k2 < rest0.len() && (#[trigger] rest0[k2]).0@ == t && rest0[k2].1
                            == v;
                    if k2 == m {
                        assert(out@[out@.len() - 1] == rest0[m as int]);
                        assert(cands_has(out@, t, v));
                    } else if k2 < m {
                        assert(rest@[k2] == rest0[k2]);
                        assert(cands_has(rest@, t, v));
                    } else {
                        assert(rest@[k2 - 1] == rest0[k2]);
                        assert(cands_has(rest@, t, v));
                    }
                }
            }
        }
    }
    out
}


/// Some entry among the first `d` of the deduplicated list carries `t`.
spec fn dedup_prefix_has(entries: Seq<(Vec<u8>, i64)>, d: int, t: Seq<u8>) -> bool {
    exists|k: int| 0 <= k < d && (#[trigger] entries[k]).0@ == t
}

/// Resolves a batch of candidate addresses (raw payload, first-seen tx id)
/// against the store: truncates and deduplicates the candidates, reuses every
/// row already present, and inserts the unseen remainder in one batch sorted
/// by first-seen transaction id, so row ids are assigned reproducibly.
///
/// Returns one entry per distinct truncated payload, each carrying the
/// resolved row and whether this call created it.
#[verifier::loop_isolation(false)]
#[verifier::rlimit(100)]
pub fn insert_addresses(addresses: &Vec<(Vec<u8>, i64)>, store: &mut Store) -> (r: Vec<
    AddressInBlock,
>)
    requires
        wf_store(*old(store)),
        distinct_keys(addresses@),
        old(store).addresses@.len() + addresses@.len() <= i64::MAX,
        old(store).addresses@.len() + addresses@.len() < usize::MAX,
    ensures
        insert_addresses_post(*old(store), addresses@, *final(store), r@),
{
    let ghost s0 = *store;
    let mut result: Vec<AddressInBlock> = Vec::new();
    if addresses.len() == 0 {
        return result;
    }
    let dedup = dedup_candidates(addresses);
    let mut to_add: Vec<(Vec<u8>, i64)> = Vec::new();
    let mut d: usize = 0;
    while d < dedup.len()
        invariant
            0 <= d <= dedup@.len(),
            *store == s0,
            result@.len() + to_add@.len() == d,
            forall|k: int|
                0 <= k < result@.len() ==> {
                    let e = #[trigger] result@[k];
                    &&& has_trunc(addresses@, e.model.payload@)
                    &&& 0 < e.model.id <= s0.addresses@.len()
                    &&& addr_row_eqv(s0.addresses@[e.model.id - 1], e.model)
                    &&& e.is_new == false
                    &&& has_address(s0.addresses@, e.model.payload@)
                    &&& dedup_prefix_has(dedup@, d as int, e.model.payload@)
                },
            forall|k1: int, k2: int|
                0 <= k1 < k2 < result@.len() ==> (#[trigger] result@[k1]).model.payload@ != (
                #[trigger] result@[k2]).model.payload@,
            forall|k: int|
                0 <= k < to_add@.len() ==> {
                    let e = #[trigger] to_add@[k];
                    &&& e.0@.len() <= ADDRESS_TRUNCATE
                    &&& has_trunc(addresses@, e.0@)
                    &&& is_group_first_tx(addresses@, e.0@, e.1)
                    &&& !has_address(s0.addresses@, e.0@)
                    &&& dedup_prefix_has(dedup@, d as int, e.0@)
                },
            forall|k1: int, k2: int|
                0 <= k1 < k2 < to_add@.len() ==> (#[trigger] to_add@[k1]).0@ != (
                #[trigger] to_add@[k2]).0@,
            forall|k: int|
                0 <= k < d ==> res_has_payload(result@, (#[trigger] dedup@[k]).0@)
                    || entries_cover(to_add@, dedup@[k].0@),
        decreases dedup@.len() - d,
    {
        proof {
            assert forall|k: int|
                0 <= k < result@.len() implies (#[trigger] result@[k]).model.payload@ != dedup@[
                d as int].0@ by {
                assert(dedup_prefix_has(dedup@, d as int, result@[k].model.payload@));
            }
            assert forall|k: int|
                0 <= k < to_add@.len() implies (#[trigger] to_add@[k]).0@ != dedup@[d as int].0@ by {
                assert(dedup_prefix_has(dedup@, d as int, to_add@[k].0@));
            }
        }
        match find_address_row(&store.addresses, dedup[d].0.as_slice()) {
            Some(idx) => {
                let row = AddressRow {
                    id: store.addresses[idx].id,
                    payload: copy_bytes(&store.addresses[idx].payload),
                    first_tx: store.addresses[idx].first_tx,
                };
                proof {
                    assert(s0.addresses@[idx as int].id == idx + 1);
                }
                let ghost r0 = result@;
                result.push(AddressInBlock { model: row, is_new: false });
                proof {
                    assert(result@[r0.len() as int].model.payload@ == dedup@[d as int].0@);
                    assert forall|k: int|
                        0 <= k < d + 1 implies res_has_payload(
                        result@,
                        (#[trigger] dedup@[k]).0@,
                    ) || entries_cover(to_add@, dedup@[k].0@) by {
                        if k < d {
                            if res_has_payload(r0, dedup@[k].0@) {
                                let k2 = choose|k2: int|
                                    0 <= k2 < r0.len() && (#[trigger] r0[k2]).model.payload@
                                        == dedup@[k].0@;
                                assert(result@[k2] == r0[k2]);
                            }
                        } else {
                            assert(res_has_payload(result@, dedup@[k].0@));
                        }
                    }
                }
            },
            None => {
                let ghost a0 = to_add@;
                to_add.push((copy_bytes(&dedup[d].0), dedup[d].1));
                proof {
                    assert(to_add@[a0.len() as int].0@ == dedup@[d as int].0@);
                    assert forall|k: int|
                        0 <= k < d + 1 implies res_has_payload(
                        result@,
                        (#[trigger] dedup@[k]).0@,
                    ) || entries_cover(to_add@, dedup@[k].0@) by {
                        if k < d {
                            if entries_cover(a0, dedup@[k].0@) {
                                let k2 = choose|k2: int|
                                    0 <= k2 < a0.len() && (#[trigger] a0[k2]).0@ == dedup@[k].0@;
                                assert(to_add@[k2] == a0[k2]);
                            }
                        } else {
                            assert(entries_cover(to_add@, dedup@[k].0@));
                        }
                    }
                }
            },
        }
        d = d + 1;
    }
    let ghost found = result@;
    let ghost added = to_add@;
    let sorted = sort_candidates(to_add);
    let ghost n0 = s0.addresses@.len() as int;
    let mut j: usize = 0;
    while j < sorted.len()
        invariant
            0 <= j <= sorted@.len(),
            store.blocks == s0.blocks,
            store.transactions == s0.transactions,
            store.outputs == s0.outputs,
            store.inputs == s0.inputs,
            store.assets == s0.assets,
            store.asset_transfers == s0.asset_transfers,
            store.mean_prices == s0.mean_prices,
            store.swaps == s0.swaps,
            store.addresses@.len() == n0 + j,
            forall|i: int| 0 <= i < n0 ==> store.addresses@[i] == s0.addresses@[i],
            forall|jj: int|
                0 <= jj < j ==> {
                    let row = #[trigger] store.addresses@[n0 + jj];
                    &&& row.id == n0 + jj + 1
                    &&& row.payload@ == sorted@[jj].0@
                    &&& row.first_tx == sorted@[jj].1
                },
            result@.len() == found.len() + j,
            forall|k: int| 0 <= k < found.len() ==> result@[k] == found[k],
            forall|k: int|
                found.len() <= k < result@.len() ==> {
                    let e = #[trigger] result@[k];
                    &&& e.is_new == true
                    &&& e.model.id == n0 + (k - found.len()) + 1
                    &&& e.model.payload@ == sorted@[k - found.len()].0@
                    &&& e.model.first_tx == sorted@[k - found.len()].1
                },
        decreases sorted@.len() - j,
    {
        let id_val: i64 = (store.addresses.len() + 1) as i64;
        let payload = copy_bytes(&sorted[j].0);
        store.addresses.push(AddressRow { id: id_val, payload, first_tx: sorted[j].1 });
        result.push(
            AddressInBlock {
                model: AddressRow {
                    id: id_val,
                    payload: copy_bytes(&sorted[j].0),
                    first_tx: sorted[j].1,
                },
                is_new: true,
            },
        );
        j = j + 1;
    }
    proof {
        let s1 = *store;
        let cs = addresses@;
        let res = result@;
        let n1 = s1.addresses@.len() as int;
        // ids stay sequential and payloads stay unique and truncated
        assert forall|i: int| 0 <= i < n1 implies (#[trigger] s1.addresses@[i]).id == i + 1 by {
            if i < n0 {
                assert(s1.addresses@[i] == s0.addresses@[i]);
            } else {
                let jj = i - n0;
                assert(s1.addresses@[n0 + jj].id == n0 + jj + 1);
            }
        }
        assert forall|i: int|
            0 <= i < n1 implies (#[trigger] s1.addresses@[i]).payload@.len() <= ADDRESS_TRUNCATE by {
            if i < n0 {
                assert(s1.addresses@[i] == s0.addresses@[i]);
            } else {
                let jj = i - n0;
                assert(s1.addresses@[n0 + jj].payload@ == sorted@[jj].0@);
                assert(cands_has(added, sorted@[jj].0@, sorted@[jj].1));
                let k = choose|k: int|
                    0 <= k < added.len() && (#[trigger] added[k]).0@ == sorted@[jj].0@ && added[k].1
                        == sorted@[jj].1;
            }
        }
        assert forall|i: int, j: int|
            0 <= i < j < n1 implies (#[trigger] s1.addresses@[i]).payload@ != (
        #[trigger] s1.addresses@[j]).payload@ by {
            if j < n0 {
                assert(s1.addresses@[i] == s0.addresses@[i]);
                assert(s1.addresses@[j] == s0.addresses@[j]);
            } else if i < n0 {
                assert(s1.addresses@[i] == s0.addresses@[i]);
                let jj = j - n0;
                assert(s1.addresses@[n0 + jj].payload@ == sorted@[jj].0@);
                assert(cands_has(added, sorted@[jj].0@, sorted@[jj].1));
                let k = choose|k: int|
                    0 <= k < added.len() && (#[trigger] added[k]).0@ == sorted@[jj].0@ && added[k].1
                        == sorted@[jj].1;
                assert(!has_address(s0.addresses@, added[k].0@));
                if s1.addresses@[i].payload@ == s1.addresses@[j].payload@ {
                    assert(has_address(s0.addresses@, s0.addresses@[i].payload@));
                }
            } else {
                let ii = i - n0;
                let jj = j - n0;
                assert(s1.addresses@[n0 + ii].payload@ == sorted@[ii].0@);
                assert(s1.addresses@[n0 + jj].payload@ == sorted@[jj].0@);
                assert(sorted@[ii].0@ != sorted@[jj].0@);
            }
        }
        assert(wf_addresses(s1.addresses@));
        assert(wf_store(s1));
        // every new row is an unseen candidate with its group first-seen id
        assert forall|j: int|
            n0 <= j < n1 implies {
            let row = #[trigger] s1.addresses@[j];
            &&& has_trunc(cs, row.payload@)
            &&& !has_address(s0.addresses@, row.payload@)
            &&& is_group_first_tx(cs, row.payload@, row.first_tx)
        } by {
            let jj = j - n0;
            assert(s1.addresses@[n0 + jj].payload@ == sorted@[jj].0@);
            assert(s1.addresses@[n0 + jj].first_tx == sorted@[jj].1);
            assert(cands_has(added, sorted@[jj].0@, sorted@[jj].1));
            let k = choose|k: int|
                0 <= k < added.len() && (#[trigger] added[k]).0@ == sorted@[jj].0@ && added[k].1
                    == sorted@[jj].1;
        }
        // deterministic order of the new batch
        assert forall|i: int, j: int|
            n0 <= i < j < n1 implies addr_batch_le(
            #[trigger] s1.addresses@[i],
            #[trigger] s1.addresses@[j],
        ) by {
            let ii = i - n0;
            let jj = j - n0;
            assert(s1.addresses@[n0 + ii].payload@ == sorted@[ii].0@);
            assert(s1.addresses@[n0 + ii].first_tx == sorted@[ii].1);
            assert(s1.addresses@[n0 + jj].payload@ == sorted@[jj].0@);
            assert(s1.addresses@[n0 + jj].first_tx == sorted@[jj].1);
            assert(cand_le(sorted@[ii], sorted@[jj]));
        }
        // every candidate is resolvable, both in the store and in the result
        assert forall|i: int|
            0 <= i < cs.len() implies has_address(
            s1.addresses@,
            trunc_spec((#[trigger] cs[i]).0@),
        ) && res_has_payload(res, trunc_spec(cs[i].0@)) by {
            let t = trunc_spec(cs[i].0@);
            assert(entries_cover(dedup@, t));
            let k = choose|k: int| 0 <= k < dedup@.len() && (#[trigger] dedup@[k]).0@ == t;
            if res_has_payload(found, t) {
                let k2 = choose|k2: int|
                    0 <= k2 < found.len() && (#[trigger] found[k2]).model.payload@ == t;
                assert(res[k2] == found[k2]);
                let w = found[k2].model.id - 1;
                assert(s1.addresses@[w] == s0.addresses@[w]);
                assert(s1.addresses@[w].payload@ == t);
            } else {
                assert(entries_cover(added, t));
                let k3 = choose|k3: int| 0 <= k3 < added.len() && (#[trigger] added[k3]).0@ == t;
                assert(cands_has(sorted@, added[k3].0@, added[k3].1));
                let jj = choose|jj: int|
                    0 <= jj < sorted@.len() && (#[trigger] sorted@[jj]).0@ == t && sorted@[jj].1
                        == added[k3].1;
                assert(s1.addresses@[n0 + jj].payload@ == t);
                assert(res[found.len() + jj].model.payload@ == t);
            }
        }
        // the returned entries mirror store rows
        assert forall|k: int|
            0 <= k < res.len() implies {
            let e = #[trigger] res[k];
            &&& has_trunc(cs, e.model.payload@)
            &&& 0 < e.model.id <= n1
            &&& addr_row_eqv(s1.addresses@[e.model.id - 1], e.model)
            &&& e.is_new == (e.model.id > n0)
        } by {
            if k < found.len() {
                assert(res[k] == found[k]);
                let w = found[k].model.id - 1;
                assert(s1.addresses@[w] == s0.addresses@[w]);
            } else {
                let jj = k - found.len();
                assert(cands_has(added, sorted@[jj].0@, sorted@[jj].1));
                let k3 = choose|k3: int|
                    0 <= k3 < added.len() && (#[trigger] added[k3]).0@ == sorted@[jj].0@
                        && added[k3].1 == sorted@[jj].1;
                assert(s1.addresses@[n0 + jj].payload@ == sorted@[jj].0@);
            }
        }
        // one returned entry per truncated payload
        assert forall|k1: int, k2: int|
            0 <= k1 < k2 < res.len() implies (#[trigger] res[k1]).model.payload@ != (
        #[trigger] res[k2]).model.payload@ by {
            if k2 < found.len() {
                assert(res[k1] == found[k1]);
                assert(res[k2] == found[k2]);
            } else if k1 >= found.len() {
                let a = k1 - found.len();
                let b = k2 - found.len();
                assert(res[k1].model.payload@ == sorted@[a].0@);
                assert(res[k2].model.payload@ == sorted@[b].0@);
                assert(sorted@[a].0@ != sorted@[b].0@);
            } else if k1 < found.len() && k2 >= found.len() {
                let jj = k2 - found.len();
                assert(cands_has(added, sorted@[jj].0@, sorted@[jj].1));
                let k3 = choose|k3: int|
                    0 <= k3 < added.len() && (#[trigger] added[k3]).0@ == sorted@[jj].0@
                        && added[k3].1 == sorted@[jj].1;
                assert(res[k1] == found[k1]);
                assert(has_address(s0.addresses@, found[k1].model.payload@));
                assert(!has_address(s0.addresses@, added[k3].0@));
            }
        }
    }
    result
}


/// Looks a raw address up in the result of [`insert_addresses`], by its
/// truncated payload.
#[verifier::loop_isolation(false)]
pub fn find_resolved_address<'a>(resolved: &'a Vec<AddressInBlock>, raw: &[u8]) -> (r: Option<
    &'a AddressInBlock,
>)
    ensures
        match r {
            Some(e) => exists|k: int|
                0 <= k < resolved@.len() && #[trigger] resolved@[k] == *e && e.model.payload@
                    == trunc_spec(raw@),
            None => !res_has_payload(resolved@, trunc_spec(raw@)),
        },
{
    let t = get_truncated_address(raw);
    let mut k: usize = 0;
    while k < resolved.len()
        invariant
            0 <= k <= resolved@.len(),
            forall|k2: int|
                0 <= k2 < k ==> (#[trigger] resolved@[k2]).model.payload@ != trunc_spec(raw@),
        decreases resolved@.len() - k,
    {
        if bytes_eq(resolved[k].model.payload.as_slice(), t) {
            return Some(&resolved[k]);
        }
        k = k + 1;
    }
    None
}

/// Resolving the same raw address across two successive calls yields the same
/// row id both times, and the second call reports the row as not new: an
/// address created once is reused ever after.
pub proof fn lemma_address_dedup_idempotent(
    s0: Store,
    c1: Seq<(Vec<u8>, i64)>,
    s1: Store,
    r1: Seq<AddressInBlock>,
    c2: Seq<(Vec<u8>, i64)>,
    s2: Store,
    r2: Seq<AddressInBlock>,
    raw: Seq<u8>,
    k1: int,
    k2: int,
)
    requires
        insert_addresses_post(s0, c1, s1, r1),
        insert_addresses_post(s1, c2, s2, r2),
        0 <= k1 < r1.len(),
        r1[k1].model.payload@ == trunc_spec(raw),
        0 <= k2 < r2.len(),
        r2[k2].model.payload@ == trunc_spec(raw),
    ensures
        r2[k2].model.id == r1[k1].model.id,
        r2[k2].is_new == false,
{
    let t = trunc_spec(raw);
    let n1 = s1.addresses@.len() as int;
    let i1 = r1[k1].model.id - 1;
    let i2 = r2[k2].model.id - 1;
    assert(addr_row_eqv(s1.addresses@[i1], r1[k1].model));
    assert(addr_row_eqv(s2.addresses@[i2], r2[k2].model));
    assert(has_address(s1.addresses@, t));
    if i2 >= n1 {
        assert(!has_address(s1.addresses@, s2.addresses@[i2].payload@));
        assert(false);
    }
    assert(s2.addresses@[i2] == s1.addresses@[i2]);
    if i1 != i2 {
        assert(s1.addresses@[i1].payload@ != s1.addresses@[i2].payload@);
        assert(false);
    }
}

/// Any two raw addresses that agree on their first 500 bytes resolve to the
/// same entry of the result, hence to the same row id.
pub proof fn lemma_truncation_determinism(
    s0: Store,
    c: Seq<(Vec<u8>, i64)>,
    s1: Store,
    r: Seq<AddressInBlock>,
    raw_a: Seq<u8>,
    raw_b: Seq<u8>,
    ka: int,
    kb: int,
)
    requires
        insert_addresses_post(s0, c, s1, r),
        trunc_spec(raw_a) == trunc_spec(raw_b),
        0 <= ka < r.len(),
        r[ka].model.payload@ == trunc_spec(raw_a),
        0 <= kb < r.len(),
        r[kb].model.payload@ == trunc_spec(raw_b),
    ensures
        ka == kb,
        r[ka].model.id == r[kb].model.id,
{
    if ka < kb {
        assert(r[ka].model.payload@ != r[kb].model.payload@);
    }
    if kb < ka {
        assert(r[kb].model.payload@ != r[ka].model.payload@);
    }
}


// ---------------------------------------------------------------------------
// Spent-output resolution

/// Some input of the batch references the output identified by
/// (producing tx hash, output index).
pub open spec fn refs_include(inputs: Seq<(Vec<OutputRef>, i64)>, h: Seq<u8>, idx: int) -> bool {
    exists|a: int, b: int|
        #![trigger inputs[a].0@[b]]
        0 <= a < inputs.len() && 0 <= b < inputs[a].0@.len() && inputs[a].0@[b].hash@ == h
            && inputs[a].0@[b].index == idx
}

pub open spec fn result_has_output_id(
    r: Seq<(TransactionOutputRow, TransactionRow)>,
    id: int,
) -> bool {
    exists|k: int| 0 <= k < r.len() && (#[trigger] r[k]).0.id == id
}

/// Full behaviour of [`get_outputs_for_inputs`]: the result is the join of
/// the output and transaction tables restricted to the referenced
/// (tx hash, output index) pairs — sound and complete.
pub open spec fn outputs_for_inputs_post(
    s: Store,
    inputs: Seq<(Vec<OutputRef>, i64)>,
    r: Seq<(TransactionOutputRow, TransactionRow)>,
) -> bool {
    // strictly ascending output ids: no pair occurs twice
    &&& forall|k1: int, k2: int|
        0 <= k1 < k2 < r.len() ==> (#[trigger] r[k1]).0.id < (#[trigger] r[k2]).0.id
    &&& forall|k: int|
        0 <= k < r.len() ==> {
            let p = #[trigger] r[k];
            &&& 0 < p.0.id <= s.outputs@.len()
            &&& output_row_eqv(s.outputs@[p.0.id - 1], p.0)
            &&& p.1.id == p.0.tx_id
            &&& 0 < p.1.id <= s.transactions@.len()
            &&& tx_row_eqv(s.transactions@[p.1.id - 1], p.1)
            &&& refs_include(inputs, p.1.hash@, p.0.output_index as int)
        }
    &&& forall|i: int|
        0 <= i < s.outputs@.len() && refs_include(
            inputs,
            s.transactions@[(#[trigger] s.outputs@[i]).tx_id - 1].hash@,
            s.outputs@[i].output_index as int,
        ) ==> result_has_output_id(r, i + 1)
}

/// Whether one input list references (`h`, `idx`).
fn refs_contain(refs: &Vec<OutputRef>, h: &[u8], idx: u64) -> (r: bool)
    ensures
        r == exists|b: int|
            0 <= b < refs@.len() && (#[trigger] refs@[b]).hash@ == h@ && refs@[b].index == idx,
{
    let mut b: usize = 0;
    while b < refs.len()
        invariant
            0 <= b <= refs@.len(),
            forall|b2: int|
                0 <= b2 < b ==> !((#[trigger] refs@[b2]).hash@ == h@ && refs@[b2].index == idx),
        decreases refs@.len() - b,
    {
        if refs[b].index == idx && bytes_eq(refs[b].hash.as_slice(), h) {
            return true;
        }
        b = b + 1;
    }
    false
}

/// Whether any input of the batch references (`h`, `idx`).
#[verifier::loop_isolation(false)]
fn inputs_reference(inputs: &Vec<(Vec<OutputRef>, i64)>, h: &[u8], idx: u64) -> (r: bool)
    ensures
        r == refs_include(inputs@, h@, idx as int),
{
    let mut a: usize = 0;
    while a < inputs.len()
        invariant
            0 <= a <= inputs@.len(),
            forall|a2: int, b2: int|
                #![trigger inputs@[a2].0@[b2]]
                0 <= a2 < a && 0 <= b2 < inputs@[a2].0@.len() ==> !(inputs@[a2].0@[b2].hash@ == h@
                    && inputs@[a2].0@[b2].index == idx),
        decreases inputs@.len() - a,
    {
        if refs_contain(&inputs[a].0, h, idx) {
            return true;
        }
        a = a + 1;
    }
    false
}

/// Fetches, in one pass over the store, every (output, producing transaction)
/// join row whose (tx hash, output index) pair is referenced by an input of
/// the batch. Referenced pairs are unique ledger-wide, so the result needs no
/// deduplication.
#[verifier::loop_isolation(false)]
pub fn get_outputs_for_inputs(inputs: &Vec<(Vec<OutputRef>, i64)>, store: &Store) -> (r: Vec<
    (TransactionOutputRow, TransactionRow),
>)
    requires
        wf_store(*store),
    ensures
        outputs_for_inputs_post(*store, inputs@, r@),
{
    let mut result: Vec<(TransactionOutputRow, TransactionRow)> = Vec::new();
    let mut i: usize = 0;
    while i < store.outputs.len()
        invariant
            0 <= i <= store.outputs@.len(),
            forall|k1: int, k2: int|
                0 <= k1 < k2 < result@.len() ==> (#[trigger] result@[k1]).0.id < (
                #[trigger] result@[k2]).0.id,
            forall|k: int|
                0 <= k < result@.len() ==> {
                    let p = #[trigger] result@[k];
                    &&& 0 < p.0.id <= i
                    &&& output_row_eqv(store.outputs@[p.0.id - 1], p.0)
                    &&& p.1.id == p.0.tx_id
                    &&& 0 < p.1.id <= store.transactions@.len()
                    &&& tx_row_eqv(store.transactions@[p.1.id - 1], p.1)
                    &&& refs_include(inputs@, p.1.hash@, p.0.output_index as int)
                },
            forall|ii: int|
                0 <= ii < i && refs_include(
                    inputs@,
                    store.transactions@[(#[trigger] store.outputs@[ii]).tx_id - 1].hash@,
                    store.outputs@[ii].output_index as int,
                ) ==> result_has_output_id(result@, ii + 1),
        decreases store.outputs@.len() - i,
    {
        let o = &store.outputs[i];
        let n_tx = store.transactions.len();
        proof {
            assert(0 < o.tx_id <= n_tx as int);
        }
        let t_idx = (o.tx_id - 1) as usize;
        let tx = &store.transactions[t_idx];
        let ghost r0 = result@;
        let matched = inputs_reference(inputs, tx.hash.as_slice(), o.output_index as u64);
        if matched {
            result.push((copy_output_row(o), copy_tx_row(tx)));
        }
        proof {
            assert(0 < store.outputs@[i as int].tx_id <= store.transactions@.len());
            assert(t_idx as int == store.outputs@[i as int].tx_id - 1);
            assert(*tx == store.transactions@[t_idx as int]);
            assert(store.outputs@[i as int].output_index >= 0);
            assert(store.outputs@[i as int].output_index as u64 as int == store.outputs@[
                i as int].output_index as int);
            assert(matched == refs_include(
                inputs@,
                store.transactions@[store.outputs@[i as int].tx_id - 1].hash@,
                store.outputs@[i as int].output_index as int,
            ));
            if matched {
                assert(result@.len() == r0.len() + 1);
                assert(result@[r0.len() as int].0.id == store.outputs@[i as int].id);
                assert(result@[r0.len() as int].1.hash@ == store.transactions@[t_idx as int].hash@);
            }
            assert forall|ii: int|
                0 <= ii < i + 1 && refs_include(
                    inputs@,
                    store.transactions@[(#[trigger] store.outputs@[ii]).tx_id - 1].hash@,
                    store.outputs@[ii].output_index as int,
                ) implies result_has_output_id(result@, ii + 1) by {
                if ii < i {
                    if result_has_output_id(r0, ii + 1) {
                        let k = choose|k: int| 0 <= k < r0.len() && (#[trigger] r0[k]).0.id == ii
                            + 1;
                        assert(result@[k] == r0[k]);
                    }
                } else {
                    if matched {
                        assert(result@[r0.len() as int].0.id == i + 1);
                    } else {
                        assert(false);
                    }
                }
            }
        }
        i = i + 1;
    }
    result
}

// ---------------------------------------------------------------------------
// The two-level spent-output lookup

/// Lookup built from the join rows: producing tx hash, then output index,
/// to the output row.
pub struct InputToOutputMap {
    pub entries: Vec<(Vec<u8>, Vec<(i64, TransactionOutputRow)>)>,
}

/// The entry list holds `o` under (`h`, `idx`).
pub open spec fn entries_hold(
    entries: Seq<(Vec<u8>, Vec<(i64, TransactionOutputRow)>)>,
    h: Seq<u8>,
    idx: int,
    o: TransactionOutputRow,
) -> bool {
    exists|a: int, b: int|
        #![trigger entries[a].1@[b]]
        0 <= a < entries.len() && 0 <= b < entries[a].1@.len() && entries[a].0@ == h
            && entries[a].1@[b].0 == idx && entries[a].1@[b].1 == o
}

/// The entry list has something under (`h`, `idx`).
pub open spec fn entries_have(
    entries: Seq<(Vec<u8>, Vec<(i64, TransactionOutputRow)>)>,
    h: Seq<u8>,
    idx: int,
) -> bool {
    exists|a: int, b: int|
        #![trigger entries[a].1@[b]]
        0 <= a < entries.len() && 0 <= b < entries[a].1@.len() && entries[a].0@ == h
            && entries[a].1@[b].0 == idx
}

/// The map holds `o` under (`h`, `idx`).
pub open spec fn map_contains(
    m: InputToOutputMap,
    h: Seq<u8>,
    idx: int,
    o: TransactionOutputRow,
) -> bool {
    entries_hold(m.entries@, h, idx, o)
}

/// The map has an entry under (`h`, `idx`).
pub open spec fn map_has(m: InputToOutputMap, h: Seq<u8>, idx: int) -> bool {
    entries_have(m.entries@, h, idx)
}

pub open spec fn inner_has(inner: Seq<(i64, TransactionOutputRow)>, idx: int) -> bool {
    exists|b: int| 0 <= b < inner.len() && (#[trigger] inner[b]).0 == idx
}

/// `h` is the hash of one of the first `k` join rows.
pub open spec fn hash_in_prefix(
    pairs: Seq<(TransactionOutputRow, TransactionRow)>,
    k: int,
    h: Seq<u8>,
) -> bool {
    exists|k2: int| 0 <= k2 < k && (#[trigger] pairs[k2]).1.hash@ == h
}

/// The entry's inner list covers every join row carrying the entry's hash.
pub open spec fn entry_complete(
    entry: (Vec<u8>, Vec<(i64, TransactionOutputRow)>),
    pairs: Seq<(TransactionOutputRow, TransactionRow)>,
) -> bool {
    forall|k: int|
        0 <= k < pairs.len() && (#[trigger] pairs[k]).1.hash@ == entry.0@ ==> inner_has(
            entry.1@,
            pairs[k].0.output_index as int,
        )
}

/// Outer hashes are distinct, and indexes are distinct within each entry.
pub open spec fn map_wf(m: InputToOutputMap) -> bool {
    &&& forall|a1: int, a2: int|
        0 <= a1 < a2 < m.entries@.len() ==> (#[trigger] m.entries@[a1]).0@ != (
        #[trigger] m.entries@[a2]).0@
    &&& forall|a: int, b1: int, b2: int|
        #![trigger m.entries@[a].1@[b1], m.entries@[a].1@[b2]]
        0 <= a < m.entries@.len() && 0 <= b1 < b2 < m.entries@[a].1@.len() ==> m.entries@[a].1@[b1].0
            != m.entries@[a].1@[b2].0
}

/// Full behaviour of [`gen_input_to_output_map`]: the map holds exactly the
/// join rows, keyed by producing tx hash then output index.
pub open spec fn gen_map_post(
    pairs: Seq<(TransactionOutputRow, TransactionRow)>,
    m: InputToOutputMap,
) -> bool {
    &&& map_wf(m)
    &&& forall|k: int|
        0 <= k < pairs.len() ==> map_has(
            m,
            (#[trigger] pairs[k]).1.hash@,
            pairs[k].0.output_index as int,
        )
    &&& forall|a: int, b: int|
        #![trigger m.entries@[a].1@[b]]
        0 <= a < m.entries@.len() && 0 <= b < m.entries@[a].1@.len() ==> exists|k: int|
            0 <= k < pairs.len() && (#[trigger] pairs[k]).1.hash@ == m.entries@[a].0@
                && pairs[k].0.output_index == m.entries@[a].1@[b].0 && output_row_eqv(
                pairs[k].0,
                m.entries@[a].1@[b].1,
            )
}

impl InputToOutputMap {
    /// Looks one output reference up.
    #[verifier::loop_isolation(false)]
    pub fn get<'a>(&'a self, hash: &[u8], index: i64) -> (r: Option<&'a TransactionOutputRow>)
        requires
            map_wf(*self),
        ensures
            match r {
                Some(o) => map_contains(*self, hash@, index as int, *o),
                None => !map_has(*self, hash@, index as int),
            },
    {
        let mut a: usize = 0;
        while a < self.entries.len()
            invariant
                0 <= a <= self.entries@.len(),
                forall|a2: int, b2: int|
                    #![trigger self.entries@[a2].1@[b2]]
                    0 <= a2 < a && 0 <= b2 < self.entries@[a2].1@.len() ==> !(self.entries@[a2].0@
                        == hash@ && self.entries@[a2].1@[b2].0 == index),
            decreases self.entries@.len() - a,
        {
            if bytes_eq(self.entries[a].0.as_slice(), hash) {
                let inner = &self.entries[a].1;
                let mut b: usize = 0;
                while b < inner.len()
                    invariant
                        0 <= b <= inner@.len(),
                        inner == &self.entries@[a as int].1,
                        0 <= a < self.entries@.len(),
                        self.entries@[a as int].0@ == hash@,
                        forall|b2: int|
                            0 <= b2 < b ==> (#[trigger] self.entries@[a as int].1@[b2]).0 != index,
                    decreases inner@.len() - b,
                {
                    if inner[b].0 == index {
                        return Some(&inner[b].1);
                    }
                    b = b + 1;
                }
                proof {
                    assert forall|a2: int, b2: int|
                        #![trigger self.entries@[a2].1@[b2]]
                        0 <= a2 < self.entries@.len() && 0 <= b2
                            < self.entries@[a2].1@.len() implies !(self.entries@[a2].0@ == hash@
                        && self.entries@[a2].1@[b2].0 == index) by {
                        if a2 > a as int && self.entries@[a2].0@ == hash@ {
                            assert(self.entries@[a as int].0@ != self.entries@[a2].0@);
                        }
                    }
                }
                return None;
            }
            a = a + 1;
        }
        None
    }
}

/// Folds the join rows into the two-level lookup (hash, then output index):
/// a caller then builds each input row with one lookup.
#[verifier::loop_isolation(false)]
#[verifier::rlimit(60)]
pub fn gen_input_to_output_map(outputs_for_inputs: &Vec<(TransactionOutputRow, TransactionRow)>)
    -> (m: InputToOutputMap)
    ensures
        gen_map_post(outputs_for_inputs@, m),
{
    let pairs = outputs_for_inputs;
    let mut entries: Vec<(Vec<u8>, Vec<(i64, TransactionOutputRow)>)> = Vec::new();
    let mut k: usize = 0;
    while k < pairs.len()
        invariant
            0 <= k <= pairs@.len(),
            forall|a1: int, a2: int|
                0 <= a1 < a2 < entries@.len() ==> (#[trigger] entries@[a1]).0@ != (
                #[trigger] entries@[a2]).0@,
            forall|a: int, b1: int, b2: int|
                #![trigger entries@[a].1@[b1], entries@[a].1@[b2]]
                0 <= a < entries@.len() && 0 <= b1 < b2 < entries@[a].1@.len() ==> entries@[a].1@[b1].0
                    != entries@[a].1@[b2].0,
            forall|a: int, b: int|
                #![trigger entries@[a].1@[b]]
                0 <= a < entries@.len() && 0 <= b < entries@[a].1@.len() ==> exists|k2: int|
                    0 <= k2 < pairs@.len() && (#[trigger] pairs@[k2]).1.hash@ == entries@[a].0@
                        && pairs@[k2].0.output_index == entries@[a].1@[b].0 && output_row_eqv(
                        pairs@[k2].0,
                        entries@[a].1@[b].1,
                    ),
            forall|a: int| 0 <= a < entries@.len() ==> entry_complete(#[trigger] entries@[a], pairs@),
            forall|a: int|
                0 <= a < entries@.len() ==> hash_in_prefix(
                    pairs@,
                    k as int,
                    (#[trigger] entries@[a]).0@,
                ),
            forall|k2: int|
                0 <= k2 < k ==> entries_have(
                    entries@,
                    (#[trigger] pairs@[k2]).1.hash@,
                    pairs@[k2].0.output_index as int,
                ),
        decreases pairs@.len() - k,
    {
        let h = &pairs[k].1.hash;
        let mut seen = false;
        let mut k0: usize = 0;
        while k0 < k
            invariant
                0 <= k0 <= k <= pairs@.len(),
                seen == exists|k2: int| 0 <= k2 < k0 && (#[trigger] pairs@[k2]).1.hash@ == h@,
            decreases k - k0,
        {
            if bytes_eq(pairs[k0].1.hash.as_slice(), h.as_slice()) {
                seen = true;
                proof {
                    assert(pairs@[k0 as int].1.hash@ == h@);
                }
            }
            k0 = k0 + 1;
        }
        let ghost entries0 = entries@;
        if !seen {
            // first occurrence of this transaction hash: gather the whole group
            let mut inner: Vec<(i64, TransactionOutputRow)> = Vec::new();
            let mut k2: usize = 0;
            while k2 < pairs.len()
                invariant
                    0 <= k2 <= pairs@.len(),
                    forall|b1: int, b2: int|
                        0 <= b1 < b2 < inner@.len() ==> (#[trigger] inner@[b1]).0 != (
                        #[trigger] inner@[b2]).0,
                    forall|b: int|
                        0 <= b < inner@.len() ==> exists|k3: int|
                            0 <= k3 < pairs@.len() && (#[trigger] pairs@[k3]).1.hash@ == h@
                                && pairs@[k3].0.output_index == (#[trigger] inner@[b]).0
                                && output_row_eqv(pairs@[k3].0, inner@[b].1),
                    forall|k3: int|
                        0 <= k3 < k2 && (#[trigger] pairs@[k3]).1.hash@ == h@ ==> inner_has(
                            inner@,
                            pairs@[k3].0.output_index as int,
                        ),
                decreases pairs@.len() - k2,
            {
                let ghost inner_prev = inner@;
                let hit = bytes_eq(pairs[k2].1.hash.as_slice(), h.as_slice());
                if hit {
                    let idx: i64 = pairs[k2].0.output_index as i64;
                    let mut dup = false;
                    let mut b: usize = 0;
                    while b < inner.len()
                        invariant
                            0 <= b <= inner@.len(),
                            dup == exists|b2: int| 0 <= b2 < b && (#[trigger] inner@[b2]).0 == idx,
                        decreases inner@.len() - b,
                    {
                        if inner[b].0 == idx {
                            dup = true;
                            proof {
                                assert(inner@[b as int].0 == idx);
                            }
                        }
                        b = b + 1;
                    }
                    if !dup {
                        inner.push((idx, copy_output_row(&pairs[k2].0)));
                    }
                }
                proof {
                    assert forall|k3: int|
                        0 <= k3 < k2 + 1 && (#[trigger] pairs@[k3]).1.hash@ == h@ implies inner_has(
                        inner@,
                        pairs@[k3].0.output_index as int,
                    ) by {
                        if k3 < k2 {
                            let b2 = choose|b2: int|
                                0 <= b2 < inner_prev.len() && (#[trigger] inner_prev[b2]).0
                                    == pairs@[k3].0.output_index as int;
                            assert(inner@[b2] == inner_prev[b2]);
                        } else {
                            assert(inner@[inner@.len() - 1].0 == pairs@[k3].0.output_index as int
                                || inner_has(inner@, pairs@[k3].0.output_index as int));
                        }
                    }
                }
                k2 = k2 + 1;
            }
            let ghost inner_v = inner@;
            entries.push((copy_bytes(h), inner));
            proof {
                let n_new = entries@.len() - 1;
                assert(entries@[n_new].0@ == h@);
                assert(entries@[n_new].1@ == inner_v);
                assert forall|a: int| 0 <= a < n_new implies (#[trigger] entries@[a]) == entries0[a]
                    by {}
                assert forall|a: int, b: int|
                    #![trigger entries@[a].1@[b]]
                    0 <= a < entries@.len() && 0 <= b < entries@[a].1@.len() implies exists|
                    k2: int,
                |
                    0 <= k2 < pairs@.len() && (#[trigger] pairs@[k2]).1.hash@ == entries@[a].0@
                        && pairs@[k2].0.output_index == entries@[a].1@[b].0 && output_row_eqv(
                        pairs@[k2].0,
                        entries@[a].1@[b].1,
                    ) by {
                    if a < n_new {
                        assert(entries@[a] == entries0[a]);
                        assert(entries0[a].1@[b] == entries@[a].1@[b]);
                    } else {
                        assert(entries@[a].1@[b] == inner_v[b]);
                    }
                }
                assert forall|a: int|
                    0 <= a < entries@.len() implies entry_complete(
                    #[trigger] entries@[a],
                    pairs@,
                ) by {
                    if a < n_new {
                        assert(entries@[a] == entries0[a]);
                    }
                }
                assert forall|a: int|
                    0 <= a < entries@.len() implies hash_in_prefix(
                    pairs@,
                    k as int + 1,
                    (#[trigger] entries@[a]).0@,
                ) by {
                    if a < n_new {
                        assert(entries@[a] == entries0[a]);
                        let k2 = choose|k2: int|
                            0 <= k2 < k && (#[trigger] pairs@[k2]).1.hash@ == entries0[a].0@;
                        assert(pairs@[k2].1.hash@ == entries@[a].0@);
                    } else {
                        assert(pairs@[k as int].1.hash@ == entries@[a].0@);
                    }
                }
                assert forall|a1: int, a2: int|
                    0 <= a1 < a2 < entries@.len() implies (#[trigger] entries@[a1]).0@ != (
                #[trigger] entries@[a2]).0@ by {
                    if a2 == n_new {
                        assert(entries@[a1] == entries0[a1]);
                        if entries@[a1].0@ == h@ {
                            let k2 = choose|k2: int|
                                0 <= k2 < k && (#[trigger] pairs@[k2]).1.hash@ == entries0[a1].0@;
                            assert(false);
                        }
                    } else {
                        assert(entries@[a1] == entries0[a1]);
                        assert(entries@[a2] == entries0[a2]);
                    }
                }
            }
        }
        proof {
            assert forall|kk: int|
                0 <= kk < k + 1 implies entries_have(
                entries@,
                (#[trigger] pairs@[kk]).1.hash@,
                pairs@[kk].0.output_index as int,
            ) by {
                if kk < k {
                    let (a, b) = choose|a: int, b: int|
                        #![trigger entries0[a].1@[b]]
                        0 <= a < entries0.len() && 0 <= b < entries0[a].1@.len() && entries0[a].0@
                            == pairs@[kk].1.hash@ && entries0[a].1@[b].0 == pairs@[kk
                        ].0.output_index as int;
                    assert(entries@[a] == entries0[a]);
                } else {
                    if seen {
                        // the hash was gathered completely at its first occurrence
                        let k2 = choose|k2: int|
                            0 <= k2 < k && (#[trigger] pairs@[k2]).1.hash@ == h@;
                        let (a, b) = choose|a: int, b: int|
                            #![trigger entries0[a].1@[b]]
                            0 <= a < entries0.len() && 0 <= b < entries0[a].1@.len() && entries0[a
                            ].0@ == pairs@[k2].1.hash@ && entries0[a].1@[b].0 == pairs@[k2
                            ].0.output_index as int;
                        assert(entry_complete(entries@[a], pairs@));
                        assert(inner_has(entries@[a].1@, pairs@[kk].0.output_index as int));
                        let b2 = choose|b2: int|
                            0 <= b2 < entries@[a].1@.len() && (#[trigger] entries@[a].1@[b2]).0
                                == pairs@[kk].0.output_index as int;
                        assert(0 <= a < entries@.len() && 0 <= b2 < entries@[a].1@.len()
                            && entries@[a].0@ == pairs@[kk].1.hash@ && entries@[a].1@[b2].0
                            == pairs@[kk].0.output_index as int);
                    } else {
                        let a = entries@.len() - 1;
                        assert(entry_complete(entries@[a], pairs@));
                        assert(inner_has(entries@[a].1@, pairs@[kk].0.output_index as int));
                        let b2 = choose|b2: int|
                            0 <= b2 < entries@[a].1@.len() && (#[trigger] entries@[a].1@[b2]).0
                                == pairs@[kk].0.output_index as int;
                        assert(0 <= a < entries@.len() && 0 <= b2 < entries@[a].1@.len()
                            && entries@[a].0@ == pairs@[kk].1.hash@ && entries@[a].1@[b2].0
                            == pairs@[kk].0.output_index as int);
                    }
                }
            }
        }
        k = k + 1;
    }
    InputToOutputMap { entries }
}


// ---------------------------------------------------------------------------
// Input insertion

/// Number of output references across the whole batch.
pub open spec fn total_refs(inputs: Seq<(Vec<OutputRef>, i64)>) -> int
    decreases inputs.len(),
{
    if inputs.len() == 0 {
        0
    } else {
        total_refs(inputs.drop_last()) + inputs.last().0@.len()
    }
}

/// Flat position of the first reference of transaction `a` in the batch.
pub open spec fn flat_pos(inputs: Seq<(Vec<OutputRef>, i64)>, a: int) -> int {
    total_refs(inputs.take(a))
}

pub proof fn lemma_flat_pos_step(inputs: Seq<(Vec<OutputRef>, i64)>, a: int)
    requires
        0 <= a < inputs.len(),
    ensures
        flat_pos(inputs, a + 1) == flat_pos(inputs, a) + inputs[a].0@.len(),
{
    assert(inputs.take(a + 1).drop_last() =~= inputs.take(a));
    assert(inputs.take(a + 1).last() == inputs[a]);
}

pub proof fn lemma_flat_pos_zero(inputs: Seq<(Vec<OutputRef>, i64)>)
    ensures
        flat_pos(inputs, 0) == 0,
{
    assert(inputs.take(0) =~= Seq::<(Vec<OutputRef>, i64)>::empty());
}

pub proof fn lemma_flat_pos_total(inputs: Seq<(Vec<OutputRef>, i64)>)
    ensures
        flat_pos(inputs, inputs.len() as int) == total_refs(inputs),
{
    assert(inputs.take(inputs.len() as int) =~= inputs);
}

pub proof fn lemma_total_refs_nonneg(inputs: Seq<(Vec<OutputRef>, i64)>)
    ensures
        total_refs(inputs) >= 0,
    decreases inputs.len(),
{
    if inputs.len() > 0 {
        lemma_total_refs_nonneg(inputs.drop_last());
    }
}

pub proof fn lemma_flat_pos_bounds(inputs: Seq<(Vec<OutputRef>, i64)>, a: int)
    requires
        0 <= a <= inputs.len(),
    ensures
        0 <= flat_pos(inputs, a) <= total_refs(inputs),
    decreases inputs.len() - a,
{
    lemma_total_refs_nonneg(inputs.take(a));
    if a < inputs.len() {
        lemma_flat_pos_step(inputs, a);
        lemma_flat_pos_bounds(inputs, a + 1);
    } else {
        lemma_flat_pos_total(inputs);
    }
}

/// Every output row held by the map mirrors a store row under its own id.
pub open spec fn map_rows_from_store(m: InputToOutputMap, s: Store) -> bool {
    forall|a: int, b: int|
        #![trigger m.entries@[a].1@[b]]
        0 <= a < m.entries@.len() && 0 <= b < m.entries@[a].1@.len() ==> {
            let o = m.entries@[a].1@[b].1;
            &&& 0 < o.id <= s.outputs@.len()
            &&& output_row_eqv(s.outputs@[o.id - 1], o)
            &&& 0 <= m.entries@[a].1@[b].0 <= i32::MAX
        }
}

/// The row at the flat position of reference (`a2`, `b2`) is the input row
/// that resolves it through the lookup.
pub open spec fn row_matches(
    inputs: Seq<(Vec<OutputRef>, i64)>,
    m: InputToOutputMap,
    base: int,
    rows: Seq<TransactionInputRow>,
    a2: int,
    b2: int,
) -> bool {
    let p = flat_pos(inputs, a2) + b2;
    &&& 0 <= p < rows.len()
    &&& rows[p].id == base + p + 1
    &&& rows[p].tx_id == inputs[a2].1
    &&& rows[p].input_index == b2
    &&& exists|o: TransactionOutputRow|
        map_contains(m, inputs[a2].0@[b2].hash@, inputs[a2].0@[b2].index as int, o) && rows[p].utxo_id
            == o.id && rows[p].address_id == o.address_id
}

proof fn lemma_row_matches_push(
    inputs: Seq<(Vec<OutputRef>, i64)>,
    m: InputToOutputMap,
    base: int,
    rows: Seq<TransactionInputRow>,
    x: TransactionInputRow,
    a2: int,
    b2: int,
)
    requires
        row_matches(inputs, m, base, rows, a2, b2),
    ensures
        row_matches(inputs, m, base, rows.push(x), a2, b2),
{
    let p = flat_pos(inputs, a2) + b2;
    assert(rows.push(x)[p] == rows[p]);
    let o = choose|o: TransactionOutputRow|
        map_contains(m, inputs[a2].0@[b2].hash@, inputs[a2].0@[b2].index as int, o) && rows[p].utxo_id
            == o.id && rows[p].address_id == o.address_id;
    assert(map_contains(m, inputs[a2].0@[b2].hash@, inputs[a2].0@[b2].index as int, o)
        && rows.push(x)[p].utxo_id == o.id && rows.push(x)[p].address_id == o.address_id);
}

/// Behaviour of a successful [`insert_inputs`] call.
pub open spec fn insert_inputs_ok(
    s0: Store,
    inputs: Seq<(Vec<OutputRef>, i64)>,
    m: InputToOutputMap,
    s1: Store,
    rows: Seq<TransactionInputRow>,
) -> bool {
    &&& s1.inputs@ == s0.inputs@ + rows
    &&& s1.blocks == s0.blocks
    &&& s1.transactions == s0.transactions
    &&& s1.outputs == s0.outputs
    &&& s1.addresses == s0.addresses
    &&& s1.assets == s0.assets
    &&& s1.asset_transfers == s0.asset_transfers
    &&& s1.mean_prices == s0.mean_prices
    &&& s1.swaps == s0.swaps
    &&& rows.len() == total_refs(inputs)
    &&& forall|a2: int, b2: int|
        #![trigger row_matches(inputs, m, s0.inputs@.len() as int, rows, a2, b2)]
        #![trigger inputs[a2].0@[b2]]
        0 <= a2 < inputs.len() && 0 <= b2 < inputs[a2].0@.len() ==> row_matches(
            inputs,
            m,
            s0.inputs@.len() as int,
            rows,
            a2,
            b2,
        )
}

/// Builds one input row per referenced output, in batch order, resolving each
/// reference through the spent-output lookup. A reference that resolves to no
/// prior output is a fatal inconsistency: the whole batch is refused and the
/// store is left untouched — never a silently skipped input.
#[verifier::loop_isolation(false)]
#[verifier::rlimit(60)]
pub fn insert_inputs(
    inputs: &Vec<(Vec<OutputRef>, i64)>,
    input_to_output_map: &InputToOutputMap,
    store: &mut Store,
) -> (r: Result<Vec<TransactionInputRow>, FatalError>)
    requires
        wf_store(*old(store)),
        map_wf(*input_to_output_map),
        map_rows_from_store(*input_to_output_map, *old(store)),
        forall|a: int|
            0 <= a < inputs@.len() ==> 0 < (#[trigger] inputs@[a]).1 <= old(
                store,
            ).transactions@.len(),
        forall|a: int| 0 <= a < inputs@.len() ==> (#[trigger] inputs@[a]).0@.len() <= i32::MAX,
        old(store).inputs@.len() + total_refs(inputs@) <= i64::MAX,
        old(store).inputs@.len() + total_refs(inputs@) < usize::MAX,
    ensures
        match r {
            Ok(rows) => {
                &&& insert_inputs_ok(
                    *old(store),
                    inputs@,
                    *input_to_output_map,
                    *final(store),
                    rows@,
                )
                &&& wf_store(*final(store))
            },
            Err(e) => {
                &&& *final(store) == *old(store)
                &&& e matches FatalError::MissingOutput { tx_hash, output_index } && refs_include(
                    inputs@,
                    tx_hash@,
                    output_index as int,
                ) && !map_has(*input_to_output_map, tx_hash@, output_index as int)
            },
        },
{
    let m = input_to_output_map;
    let ghost s0 = *store;
    let base = store.inputs.len();
    let mut rows: Vec<TransactionInputRow> = Vec::new();
    let mut a: usize = 0;
    proof {
        lemma_flat_pos_zero(inputs@);
        lemma_flat_pos_bounds(inputs@, 0);
    }
    while a < inputs.len()
        invariant
            0 <= a <= inputs@.len(),
            *store == s0,
            rows@.len() == flat_pos(inputs@, a as int),
            forall|k: int|
                0 <= k < rows@.len() ==> {
                    let row = #[trigger] rows@[k];
                    &&& row.id == base + k + 1
                    &&& 0 < row.utxo_id <= s0.outputs@.len()
                    &&& 0 < row.tx_id <= s0.transactions@.len()
                    &&& 0 < row.address_id <= s0.addresses@.len()
                    &&& row.input_index >= 0
                },
            forall|a2: int, b2: int|
                #![trigger row_matches(inputs@, *m, base as int, rows@, a2, b2)]
                #![trigger inputs@[a2].0@[b2]]
                0 <= a2 < a && 0 <= b2 < inputs@[a2].0@.len() ==> row_matches(
                    inputs@,
                    *m,
                    base as int,
                    rows@,
                    a2,
                    b2,
                ),
        decreases inputs@.len() - a,
    {
        let refs = &inputs[a].0;
        let tx_id = inputs[a].1;
        let mut b: usize = 0;
        proof {
            lemma_flat_pos_step(inputs@, a as int);
            lemma_flat_pos_bounds(inputs@, a as int + 1);
            assert forall|a2: int, b2: int|
                #![trigger inputs@[a2].0@[b2]]
                0 <= a2 < a && 0 <= b2 < inputs@[a2].0@.len() implies row_matches(
                inputs@,
                *m,
                base as int,
                rows@,
                a2,
                b2,
            ) by {}
        }
        while b < refs.len()
            invariant
                0 <= b <= refs@.len(),
                refs == &inputs@[a as int].0,
                tx_id == inputs@[a as int].1,
                0 <= a < inputs@.len(),
                *store == s0,
                rows@.len() == flat_pos(inputs@, a as int) + b,
                forall|k: int|
                    0 <= k < rows@.len() ==> {
                        let row = #[trigger] rows@[k];
                        &&& row.id == base + k + 1
                        &&& 0 < row.utxo_id <= s0.outputs@.len()
                        &&& 0 < row.tx_id <= s0.transactions@.len()
                        &&& 0 < row.address_id <= s0.addresses@.len()
                        &&& row.input_index >= 0
                    },
                forall|a2: int, b2: int|
                    #![trigger row_matches(inputs@, *m, base as int, rows@, a2, b2)]
                    #![trigger inputs@[a2].0@[b2]]
                    0 <= a2 < a && 0 <= b2 < inputs@[a2].0@.len() ==> row_matches(
                        inputs@,
                        *m,
                        base as int,
                        rows@,
                        a2,
                        b2,
                    ),
                forall|b2: int|
                    0 <= b2 < b ==> row_matches(inputs@, *m, base as int, rows@, a as int, b2),
            decreases refs@.len() - b,
        {
            let oref = &refs[b];
            if oref.index > (i32::MAX as u64) {
                proof {
                    assert forall|a3: int, b3: int|
                        #![trigger m.entries@[a3].1@[b3]]
                        0 <= a3 < m.entries@.len() && 0 <= b3
                            < m.entries@[a3].1@.len() implies !(m.entries@[a3].0@ == oref.hash@
                        && m.entries@[a3].1@[b3].0 == oref.index as int) by {}
                }
                return Err(
                    FatalError::MissingOutput {
                        tx_hash: copy_bytes(&oref.hash),
                        output_index: oref.index,
                    },
                );
            }
            match m.get(oref.hash.as_slice(), oref.index as i64) {
                Some(o) => {
                    proof {
                        assert(rows@.len() < flat_pos(inputs@, a as int + 1));
                        assert(base + rows@.len() + 1 <= i64::MAX);
                    }
                    let id_val: i64 = (base + rows.len() + 1) as i64;
                    let row = TransactionInputRow {
                        id: id_val,
                        utxo_id: o.id,
                        address_id: o.address_id,
                        tx_id,
                        input_index: b as i32,
                    };
                    let ghost rows0 = rows@;
                    rows.push(row);
                    proof {
                        let p = flat_pos(inputs@, a as int) + b;
                        assert(rows@[p] == row);
                        assert(oref.index as i64 as int == oref.index as int);
                        assert(map_contains(*m, inputs@[a as int].0@[b as int].hash@, inputs@[
                            a as int].0@[b as int].index as int, *o));
                        assert(row_matches(inputs@, *m, base as int, rows@, a as int, b as int));
                        assert forall|a2: int, b2: int|
                            #![trigger row_matches(inputs@, *m, base as int, rows@, a2, b2)]
                            #![trigger inputs@[a2].0@[b2]]
                            0 <= a2 < a && 0 <= b2 < inputs@[a2].0@.len() implies row_matches(
                            inputs@,
                            *m,
                            base as int,
                            rows@,
                            a2,
                            b2,
                        ) by {
                            lemma_row_matches_push(inputs@, *m, base as int, rows0, row, a2, b2);
                        }
                        assert forall|b2: int|
                            0 <= b2 < b + 1 implies row_matches(
                            inputs@,
                            *m,
                            base as int,
                            rows@,
                            a as int,
                            b2,
                        ) by {
                            if b2 < b {
                                lemma_row_matches_push(
                                    inputs@,
                                    *m,
                                    base as int,
                                    rows0,
                                    row,
                                    a as int,
                                    b2,
                                );
                            }
                        }
                        let o_row = s0.outputs@[o.id - 1];
                        assert(0 < o_row.address_id <= s0.addresses@.len());
                    }
                },
                None => {
                    return Err(
                        FatalError::MissingOutput {
                            tx_hash: copy_bytes(&oref.hash),
                            output_index: oref.index,
                        },
                    );
                },
            }
            b = b + 1;
        }
        proof {
            assert forall|a2: int, b2: int|
                #![trigger row_matches(inputs@, *m, base as int, rows@, a2, b2)]
                #![trigger inputs@[a2].0@[b2]]
                0 <= a2 < a + 1 && 0 <= b2 < inputs@[a2].0@.len() implies row_matches(
                inputs@,
                *m,
                base as int,
                rows@,
                a2,
                b2,
            ) by {
                if a2 == a as int {
                    assert(row_matches(inputs@, *m, base as int, rows@, a as int, b2));
                }
            }
        }
        a = a + 1;
    }
    proof {
        lemma_flat_pos_total(inputs@);
    }
    let ghost rows_v = rows@;
    let mut t: usize = 0;
    while t < rows.len()
        invariant
            0 <= t <= rows@.len(),
            rows@ == rows_v,
            store.blocks == s0.blocks,
            store.transactions == s0.transactions,
            store.outputs == s0.outputs,
            store.addresses == s0.addresses,
            store.assets == s0.assets,
            store.asset_transfers == s0.asset_transfers,
            store.mean_prices == s0.mean_prices,
            store.swaps == s0.swaps,
            store.inputs@ == s0.inputs@ + rows_v.take(t as int),
        decreases rows@.len() - t,
    {
        store.inputs.push(rows[t]);
        proof {
            assert(store.inputs@ =~= s0.inputs@ + rows_v.take(t as int + 1));
        }
        t = t + 1;
    }
    proof {
        assert(rows_v.take(rows_v.len() as int) =~= rows_v);
        assert(store.inputs@ == s0.inputs@ + rows_v);
        assert forall|k: int|
            0 <= k < store.inputs@.len() implies {
            let row = #[trigger] store.inputs@[k];
            &&& row.id == k + 1
            &&& 0 < row.utxo_id <= store.outputs@.len()
            &&& 0 < row.tx_id <= store.transactions@.len()
            &&& 0 < row.address_id <= store.addresses@.len()
            &&& row.input_index >= 0
        } by {
            if k < s0.inputs@.len() {
                assert(store.inputs@[k] == s0.inputs@[k]);
            } else {
                assert(store.inputs@[k] == rows_v[k - s0.inputs@.len()]);
            }
        }
        assert(wf_inputs(
            store.inputs@,
            store.outputs@.len() as int,
            store.transactions@.len() as int,
            store.addresses@.len() as int,
        ));
    }
    Ok(rows)
}

/// For every input of a block, each (hash, index) pair that matches a real
/// prior output is present in the lookup built by [`get_outputs_for_inputs`]
/// and [`gen_input_to_output_map`].
pub proof fn lemma_spent_output_completeness(
    s: Store,
    inputs: Seq<(Vec<OutputRef>, i64)>,
    pairs: Seq<(TransactionOutputRow, TransactionRow)>,
    m: InputToOutputMap,
    h: Seq<u8>,
    idx: int,
)
    requires
        wf_store(s),
        outputs_for_inputs_post(s, inputs, pairs),
        gen_map_post(pairs, m),
        refs_include(inputs, h, idx),
        has_output_ref(s, h, idx),
    ensures
        map_has(m, h, idx),
{
    let i = choose|i: int|
        0 <= i < s.outputs@.len() && {
            let o = #[trigger] s.outputs@[i];
            &&& 0 < o.tx_id <= s.transactions@.len()
            &&& s.transactions@[o.tx_id - 1].hash@ == h
            &&& o.output_index == idx
        };
    assert(result_has_output_id(pairs, i + 1));
    let k = choose|k: int| 0 <= k < pairs.len() && (#[trigger] pairs[k]).0.id == i + 1;
    assert(output_row_eqv(s.outputs@[i], pairs[k].0));
    assert(tx_row_eqv(s.transactions@[pairs[k].1.id - 1], pairs[k].1));
    assert(pairs[k].1.hash@ == h);
    assert(map_has(m, pairs[k].1.hash@, pairs[k].0.output_index as int));
}


// ---------------------------------------------------------------------------
// Store queries

/// `h` occurs in the hash list.
pub open spec fn hashes_has(hs: Seq<Vec<u8>>, h: Seq<u8>) -> bool {
    exists|j: int| 0 <= j < hs.len() && (#[trigger] hs[j])@ == h
}

/// `h` is the hash of a stored block.
pub open spec fn has_block_hash(rows: Seq<crate::store::BlockRow>, h: Seq<u8>) -> bool {
    exists|i: int| 0 <= i < rows.len() && (#[trigger] rows[i]).hash@ == h
}

/// Behaviour of a successful [`transactions_from_hashes`] call: the rows are
/// exactly the stored transactions carrying a requested hash, in id order,
/// and every requested hash was found.
pub open spec fn transactions_from_hashes_ok(
    s: Store,
    tx_hashes: Seq<Vec<u8>>,
    rows: Seq<TransactionRow>,
) -> bool {
    &&& forall|k: int|
        0 <= k < rows.len() ==> {
            let t = #[trigger] rows[k];
            &&& 0 < t.id <= s.transactions@.len()
            &&& tx_row_eqv(s.transactions@[t.id - 1], t)
            &&& hashes_has(tx_hashes, t.hash@)
        }
    &&& forall|k1: int, k2: int|
        0 <= k1 < k2 < rows.len() ==> (#[trigger] rows[k1]).id < (#[trigger] rows[k2]).id
    &&& forall|i: int|
        0 <= i < s.transactions@.len() && hashes_has(
            tx_hashes,
            (#[trigger] s.transactions@[i]).hash@,
        ) ==> exists|k: int| 0 <= k < rows.len() && (#[trigger] rows[k]).id == i + 1
    &&& forall|j: int|
        0 <= j < tx_hashes.len() ==> has_tx_hash(s.transactions@, (#[trigger] tx_hashes[j])@)
}

/// Fetches the transactions with the given hashes, ordered by id. Requesting
/// a hash the store does not hold is a fatal inconsistency.
#[verifier::loop_isolation(false)]
#[verifier::rlimit(60)]
pub fn transactions_from_hashes(store: &Store, tx_hashes: &Vec<Vec<u8>>) -> (r: Result<
    Vec<TransactionRow>,
    FatalError,
>)
    requires
        wf_store(*store),
    ensures
        match r {
            Ok(rows) => transactions_from_hashes_ok(*store, tx_hashes@, rows@),
            Err(e) => {
                &&& e matches FatalError::MissingTransaction { hash } && hashes_has(
                    tx_hashes@,
                    hash@,
                ) && !has_tx_hash(store.transactions@, hash@)
            },
        },
{
    // 1) every requested hash must resolve
    let mut j: usize = 0;
    while j < tx_hashes.len()
        invariant
            0 <= j <= tx_hashes@.len(),
            forall|j2: int|
                0 <= j2 < j ==> has_tx_hash(store.transactions@, (#[trigger] tx_hashes@[j2])@),
        decreases tx_hashes@.len() - j,
    {
        let mut i: usize = 0;
        let mut found = false;
        while i < store.transactions.len()
            invariant
                0 <= i <= store.transactions@.len(),
                found == exists|i2: int|
                    0 <= i2 < i && (#[trigger] store.transactions@[i2]).hash@ == tx_hashes@[
                        j as int]@,
            decreases store.transactions@.len() - i,
        {
            if bytes_eq(store.transactions[i].hash.as_slice(), tx_hashes[j].as_slice()) {
                found = true;
                proof {
                    assert(store.transactions@[i as int].hash@ == tx_hashes@[j as int]@);
                }
            }
            i = i + 1;
        }
        if !found {
            return Err(FatalError::MissingTransaction { hash: copy_bytes(&tx_hashes[j]) });
        }
        j = j + 1;
    }
    // 2) collect the matching rows in id order
    let mut rows: Vec<TransactionRow> = Vec::new();
    let mut i: usize = 0;
    while i < store.transactions.len()
        invariant
            0 <= i <= store.transactions@.len(),
            forall|k: int|
                0 <= k < rows@.len() ==> {
                    let t = #[trigger] rows@[k];
                    &&& 0 < t.id <= i
                    &&& tx_row_eqv(store.transactions@[t.id - 1], t)
                    &&& hashes_has(tx_hashes@, t.hash@)
                },
            forall|k1: int, k2: int|
                0 <= k1 < k2 < rows@.len() ==> (#[trigger] rows@[k1]).id < (#[trigger] rows@[k2]).id,
            forall|i2: int|
                0 <= i2 < i && hashes_has(
                    tx_hashes@,
                    (#[trigger] store.transactions@[i2]).hash@,
                ) ==> exists|k: int| 0 <= k < rows@.len() && (#[trigger] rows@[k]).id == i2 + 1,
        decreases store.transactions@.len() - i,
    {
        let mut j2: usize = 0;
        let mut wanted = false;
        while j2 < tx_hashes.len()
            invariant
                0 <= j2 <= tx_hashes@.len(),
                wanted == exists|j3: int|
                    0 <= j3 < j2 && (#[trigger] tx_hashes@[j3])@ == store.transactions@[
                        i as int].hash@,
            decreases tx_hashes@.len() - j2,
        {
            if bytes_eq(tx_hashes[j2].as_slice(), store.transactions[i].hash.as_slice()) {
                wanted = true;
                proof {
                    assert(tx_hashes@[j2 as int]@ == store.transactions@[i as int].hash@);
                }
            }
            j2 = j2 + 1;
        }
        let ghost rows0 = rows@;
        if wanted {
            rows.push(copy_tx_row(&store.transactions[i]));
        }
        proof {
            assert forall|i2: int|
                0 <= i2 < i + 1 && hashes_has(
                    tx_hashes@,
                    (#[trigger] store.transactions@[i2]).hash@,
                ) implies exists|k: int| 0 <= k < rows@.len() && (#[trigger] rows@[k]).id == i2
                + 1 by {
                if i2 < i {
                    let k = choose|k: int| 0 <= k < rows0.len() && (#[trigger] rows0[k]).id == i2
                        + 1;
                    assert(rows@[k] == rows0[k]);
                } else {
                    if wanted {
                        assert(rows@[rows@.len() - 1].id == i + 1);
                    } else {
                        assert(false);
                    }
                }
            }
        }
        i = i + 1;
    }
    proof {
        assert(forall|k: int|
            0 <= k < rows@.len() ==> {
                let t = #[trigger] rows@[k];
                &&& 0 < t.id <= store.transactions@.len()
                &&& tx_row_eqv(store.transactions@[t.id - 1], t)
                &&& hashes_has(tx_hashes@, t.hash@)
            });
        assert(forall|i2: int|
            0 <= i2 < store.transactions@.len() && hashes_has(
                tx_hashes@,
                (#[trigger] store.transactions@[i2]).hash@,
            ) ==> exists|k: int| 0 <= k < rows@.len() && (#[trigger] rows@[k]).id == i2 + 1);
        assert(forall|j2: int|
            0 <= j2 < tx_hashes@.len() ==> has_tx_hash(
                store.transactions@,
                (#[trigger] tx_hashes@[j2])@,
            ));
        assert(transactions_from_hashes_ok(*store, tx_hashes@, rows@));
    }
    Ok(rows)
}

/// Fetches the block with the given hash; a miss is fatal.
#[verifier::loop_isolation(false)]
pub fn block_from_hash(store: &Store, hash: &[u8]) -> (r: Result<crate::store::BlockRow, FatalError>)
    requires
        wf_store(*store),
    ensures
        match r {
            Ok(b) => {
                &&& 0 < b.id <= store.blocks@.len()
                &&& crate::store::block_row_eqv(store.blocks@[b.id - 1], b)
                &&& b.hash@ == hash@
            },
            Err(e) => {
                &&& e matches FatalError::MissingBlock { hash: h } && h@ == hash@
                &&& !has_block_hash(store.blocks@, hash@)
            },
        },
{
    let mut i: usize = 0;
    while i < store.blocks.len()
        invariant
            0 <= i <= store.blocks@.len(),
            forall|i2: int| 0 <= i2 < i ==> (#[trigger] store.blocks@[i2]).hash@ != hash@,
        decreases store.blocks@.len() - i,
    {
        if bytes_eq(store.blocks[i].hash.as_slice(), hash) {
            let b = &store.blocks[i];
            return Ok(
                crate::store::BlockRow {
                    id: b.id,
                    hash: copy_bytes(&b.hash),
                    height: b.height,
                    era: b.era,
                },
            );
        }
        i = i + 1;
    }
    Err(FatalError::MissingBlock { hash: vstd::slice::slice_to_vec(hash) })
}

/// A pointer list references (tx id, output/input position).
pub open spec fn pointers_have(ptrs: Seq<(i64, usize)>, tx_id: int, pos: int) -> bool {
    exists|j: int| 0 <= j < ptrs.len() && (#[trigger] ptrs[j]).0 == tx_id && ptrs[j].1 == pos
}

/// Fetches, in id order, every output matching one of the
/// (tx id, output index) pointers.
#[verifier::loop_isolation(false)]
pub fn output_from_pointer(store: &Store, pointers: &Vec<(i64, usize)>) -> (r: Vec<
    TransactionOutputRow,
>)
    requires
        wf_store(*store),
    ensures
        forall|k: int|
            0 <= k < r@.len() ==> {
                let o = #[trigger] r@[k];
                &&& 0 < o.id <= store.outputs@.len()
                &&& output_row_eqv(store.outputs@[o.id - 1], o)
                &&& pointers_have(pointers@, o.tx_id as int, o.output_index as int)
            },
        forall|k1: int, k2: int|
            0 <= k1 < k2 < r@.len() ==> (#[trigger] r@[k1]).id < (#[trigger] r@[k2]).id,
        forall|i: int|
            0 <= i < store.outputs@.len() && pointers_have(
                pointers@,
                (#[trigger] store.outputs@[i]).tx_id as int,
                store.outputs@[i].output_index as int,
            ) ==> exists|k: int| 0 <= k < r@.len() && (#[trigger] r@[k]).id == i + 1,
{
    let mut rows: Vec<TransactionOutputRow> = Vec::new();
    let mut i: usize = 0;
    while i < store.outputs.len()
        invariant
            0 <= i <= store.outputs@.len(),
            forall|k: int|
                0 <= k < rows@.len() ==> {
                    let o = #[trigger] rows@[k];
                    &&& 0 < o.id <= i
                    &&& output_row_eqv(store.outputs@[o.id - 1], o)
                    &&& pointers_have(pointers@, o.tx_id as int, o.output_index as int)
                },
            forall|k1: int, k2: int|
                0 <= k1 < k2 < rows@.len() ==> (#[trigger] rows@[k1]).id < (#[trigger] rows@[k2]).id,
            forall|i2: int|
                0 <= i2 < i && pointers_have(
                    pointers@,
                    (#[trigger] store.outputs@[i2]).tx_id as int,
                    store.outputs@[i2].output_index as int,
                ) ==> exists|k: int| 0 <= k < rows@.len() && (#[trigger] rows@[k]).id == i2 + 1,
        decreases store.outputs@.len() - i,
    {
        let o = &store.outputs[i];
        let mut j: usize = 0;
        let mut wanted = false;
        while j < pointers.len()
            invariant
                0 <= j <= pointers@.len(),
                wanted == exists|j2: int|
                    0 <= j2 < j && (#[trigger] pointers@[j2]).0 == o.tx_id && pointers@[j2].1
                        == o.output_index as int,
            decreases pointers@.len() - j,
        {
            if pointers[j].0 == o.tx_id && o.output_index >= 0 && pointers[j].1
                == (o.output_index as usize) {
                wanted = true;
                proof {
                    assert(pointers@[j as int].0 == o.tx_id && pointers@[j as int].1
                        == o.output_index as int);
                }
            }
            j = j + 1;
        }
        let ghost rows0 = rows@;
        if wanted {
            rows.push(copy_output_row(o));
        }
        proof {
            assert forall|i2: int|
                0 <= i2 < i + 1 && pointers_have(
                    pointers@,
                    (#[trigger] store.outputs@[i2]).tx_id as int,
                    store.outputs@[i2].output_index as int,
                ) implies exists|k: int| 0 <= k < rows@.len() && (#[trigger] rows@[k]).id == i2
                + 1 by {
                if i2 < i {
                    let k = choose|k: int| 0 <= k < rows0.len() && (#[trigger] rows0[k]).id == i2
                        + 1;
                    assert(rows@[k] == rows0[k]);
                } else {
                    if wanted {
                        assert(rows@[rows@.len() - 1].id == i + 1);
                    } else {
                        assert(false);
                    }
                }
            }
        }
        i = i + 1;
    }
    rows
}

/// Fetches, in id order, every input matching one of the
/// (tx id, input index) pointers.
#[verifier::loop_isolation(false)]
pub fn input_from_pointer(store: &Store, pointers: &Vec<(i64, usize)>) -> (r: Vec<
    TransactionInputRow,
>)
    requires
        wf_store(*store),
    ensures
        forall|k: int|
            0 <= k < r@.len() ==> {
                let x = #[trigger] r@[k];
                &&& 0 < x.id <= store.inputs@.len()
                &&& store.inputs@[x.id - 1] == x
                &&& pointers_have(pointers@, x.tx_id as int, x.input_index as int)
            },
        forall|k1: int, k2: int|
            0 <= k1 < k2 < r@.len() ==> (#[trigger] r@[k1]).id < (#[trigger] r@[k2]).id,
        forall|i: int|
            0 <= i < store.inputs@.len() && pointers_have(
                pointers@,
                (#[trigger] store.inputs@[i]).tx_id as int,
                store.inputs@[i].input_index as int,
            ) ==> exists|k: int| 0 <= k < r@.len() && (#[trigger] r@[k]).id == i + 1,
{
    let mut rows: Vec<TransactionInputRow> = Vec::new();
    let mut i: usize = 0;
    while i < store.inputs.len()
        invariant
            0 <= i <= store.inputs@.len(),
            forall|k: int|
                0 <= k < rows@.len() ==> {
                    let x = #[trigger] rows@[k];
                    &&& 0 < x.id <= i
                    &&& store.inputs@[x.id - 1] == x
                    &&& pointers_have(pointers@, x.tx_id as int, x.input_index as int)
                },
            forall|k1: int, k2: int|
                0 <= k1 < k2 < rows@.len() ==> (#[trigger] rows@[k1]).id < (#[trigger] rows@[k2]).id,
            forall|i2: int|
                0 <= i2 < i && pointers_have(
                    pointers@,
                    (#[trigger] store.inputs@[i2]).tx_id as int,
                    store.inputs@[i2].input_index as int,
                ) ==> exists|k: int| 0 <= k < rows@.len() && (#[trigger] rows@[k]).id == i2 + 1,
        decreases store.inputs@.len() - i,
    {
        let x = store.inputs[i];
        let mut j: usize = 0;
        let mut wanted = false;
        while j < pointers.len()
            invariant
                0 <= j <= pointers@.len(),
                x == store.inputs@[i as int],
                0 <= i < store.inputs@.len(),
                wanted == exists|j2: int|
                    0 <= j2 < j && (#[trigger] pointers@[j2]).0 == x.tx_id && pointers@[j2].1
                        == x.input_index as int,
            decreases pointers@.len() - j,
        {
            if pointers[j].0 == x.tx_id && x.input_index >= 0 && pointers[j].1
                == (x.input_index as usize) {
                wanted = true;
                proof {
                    assert(pointers@[j as int].0 == x.tx_id && pointers@[j as int].1
                        == x.input_index as int);
                }
            }
            j = j + 1;
        }
        let ghost rows0 = rows@;
        if wanted {
            rows.push(x);
        }
        proof {
            assert forall|i2: int|
                0 <= i2 < i + 1 && pointers_have(
                    pointers@,
                    (#[trigger] store.inputs@[i2]).tx_id as int,
                    store.inputs@[i2].input_index as int,
                ) implies exists|k: int| 0 <= k < rows@.len() && (#[trigger] rows@[k]).id == i2
                + 1 by {
                if i2 < i {
                    let k = choose|k: int| 0 <= k < rows0.len() && (#[trigger] rows0[k]).id == i2
                        + 1;
                    assert(rows@[k] == rows0[k]);
                } else {
                    if wanted {
                        assert(rows@[rows@.len() - 1].id == i + 1);
                    } else {
                        assert(false);
                    }
                }
            }
        }
        i = i + 1;
    }
    rows
}


/// Keys under which new address rows are ordered.
pub open spec fn addr_key(r: AddressRow) -> (int, Seq<u8>) {
    (r.first_tx as int, r.payload@)
}

pub open spec fn addr_key_le(a: (int, Seq<u8>), b: (int, Seq<u8>)) -> bool {
    a.0 < b.0 || (a.0 == b.0 && bytes_le(a.1, b.1))
}

proof fn lemma_addr_key_le_total()
    ensures
        vstd::relations::total_ordering(|a: (int, Seq<u8>), b: (int, Seq<u8>)| addr_key_le(a, b)),
{
    let leq = |a: (int, Seq<u8>), b: (int, Seq<u8>)| addr_key_le(a, b);
    assert forall|a: (int, Seq<u8>)| #[trigger] leq(a, a) by {
        lemma_bytes_lt_connected(a.1, a.1);
    }
    assert forall|a: (int, Seq<u8>), b: (int, Seq<u8>)| #[trigger] leq(a, b) && #[trigger] leq(
        b,
        a,
    ) implies a == b by {
        if a.0 == b.0 {
            if bytes_lt(a.1, b.1) && bytes_lt(b.1, a.1) {
                lemma_bytes_lt_transitive(a.1, b.1, a.1);
                lemma_bytes_lt_irreflexive(a.1);
            }
            assert(a.1 == b.1);
        }
    }
    assert forall|a: (int, Seq<u8>), b: (int, Seq<u8>), c: (int, Seq<u8>)| #[trigger] leq(a, b)
        && #[trigger] leq(b, c) implies leq(a, c) by {
        if a.0 == b.0 && b.0 == c.0 {
            if bytes_lt(a.1, b.1) && bytes_lt(b.1, c.1) {
                lemma_bytes_lt_transitive(a.1, b.1, c.1);
            }
        }
    }
    assert forall|a: (int, Seq<u8>), b: (int, Seq<u8>)| #[trigger] leq(a, b) || #[trigger] leq(
        b,
        a,
    ) by {
        if a.0 == b.0 {
            lemma_bytes_lt_connected(a.1, b.1);
        }
    }
}

/// The batch insert is deterministic: two resolutions of candidate lists
/// that name the same truncated payloads, with the same first-seen minimum
/// per payload, extend the same store with exactly the same rows — whatever
/// order the candidates were iterated in.
#[verifier::rlimit(100)]
pub proof fn lemma_insertion_order_deterministic(
    s0: Store,
    c1: Seq<(Vec<u8>, i64)>,
    s1: Store,
    r1: Seq<AddressInBlock>,
    c2: Seq<(Vec<u8>, i64)>,
    s2: Store,
    r2: Seq<AddressInBlock>,
)
    requires
        wf_store(s0),
        insert_addresses_post(s0, c1, s1, r1),
        insert_addresses_post(s0, c2, s2, r2),
        forall|t: Seq<u8>| #[trigger] has_trunc(c1, t) == #[trigger] has_trunc(c2, t),
        forall|t: Seq<u8>, v: i64|
            #[trigger] is_group_first_tx(c1, t, v) == #[trigger] is_group_first_tx(c2, t, v),
    ensures
        s1.addresses@.len() == s2.addresses@.len(),
        forall|i: int|
            0 <= i < s1.addresses@.len() ==> addr_row_eqv(
                s1.addresses@[i],
                #[trigger] s2.addresses@[i],
            ),
{
    let n0 = s0.addresses@.len() as int;
    let new1 = s1.addresses@.skip(n0);
    let new2 = s2.addresses@.skip(n0);
    let k1 = new1.map_values(|r: AddressRow| addr_key(r));
    let k2 = new2.map_values(|r: AddressRow| addr_key(r));
    let leq = |a: (int, Seq<u8>), b: (int, Seq<u8>)| addr_key_le(a, b);
    lemma_addr_key_le_total();
    // both key sequences are sorted and duplicate-free
    assert forall|i: int, j: int| 0 <= i < j < k1.len() implies #[trigger] leq(k1[i], k1[j]) by {
        assert(addr_batch_le(s1.addresses@[n0 + i], s1.addresses@[n0 + j]));
    }
    assert forall|i: int, j: int| 0 <= i < j < k2.len() implies #[trigger] leq(k2[i], k2[j]) by {
        assert(addr_batch_le(s2.addresses@[n0 + i], s2.addresses@[n0 + j]));
    }
    assert(vstd::relations::sorted_by(k1, leq));
    assert(vstd::relations::sorted_by(k2, leq));
    assert forall|i: int, j: int| 0 <= i < j < k1.len() implies k1[i] != k1[j] by {
        assert(s1.addresses@[n0 + i].payload@ != s1.addresses@[n0 + j].payload@);
    }
    assert forall|i: int, j: int| 0 <= i < j < k2.len() implies k2[i] != k2[j] by {
        assert(s2.addresses@[n0 + i].payload@ != s2.addresses@[n0 + j].payload@);
    }
    assert(k1.no_duplicates());
    assert(k2.no_duplicates());
    // the two key sequences hold the same elements: the unseen truncations
    // with their group minimum
    assert forall|x: (int, Seq<u8>)| k1.contains(x) == k2.contains(x) by {
        if k1.contains(x) {
            let i = choose|i: int| 0 <= i < k1.len() && k1[i] == x;
            let row = s1.addresses@[n0 + i];
            assert(has_trunc(c1, row.payload@) && !has_address(s0.addresses@, row.payload@)
                && is_group_first_tx(c1, row.payload@, row.first_tx));
            assert(has_trunc(c2, row.payload@));
            assert(is_group_first_tx(c2, row.payload@, row.first_tx));
            // a row for that payload exists in the other store, beyond the prefix
            let c = choose|c: int|
                0 <= c < c2.len() && trunc_spec((#[trigger] c2[c]).0@) == row.payload@;
            assert(has_address(s2.addresses@, trunc_spec(c2[c].0@)));
            let w = choose|w: int|
                0 <= w < s2.addresses@.len() && (#[trigger] s2.addresses@[w]).payload@
                    == row.payload@;
            if w < n0 {
                assert(s2.addresses@[w] == s0.addresses@[w]);
                assert(has_address(s0.addresses@, row.payload@));
                assert(false);
            }
            assert(is_group_first_tx(c2, row.payload@, s2.addresses@[w].first_tx));
            assert(s2.addresses@[w].first_tx == row.first_tx);
            assert(k2[w - n0] == x);
            assert(k2.contains(x));
        }
        if k2.contains(x) {
            let i = choose|i: int| 0 <= i < k2.len() && k2[i] == x;
            let row = s2.addresses@[n0 + i];
            assert(has_trunc(c2, row.payload@) && !has_address(s0.addresses@, row.payload@)
                && is_group_first_tx(c2, row.payload@, row.first_tx));
            assert(has_trunc(c1, row.payload@));
            assert(is_group_first_tx(c1, row.payload@, row.first_tx));
            let c = choose|c: int|
                0 <= c < c1.len() && trunc_spec((#[trigger] c1[c]).0@) == row.payload@;
            assert(has_address(s1.addresses@, trunc_spec(c1[c].0@)));
            let w = choose|w: int|
                0 <= w < s1.addresses@.len() && (#[trigger] s1.addresses@[w]).payload@
                    == row.payload@;
            if w < n0 {
                assert(s1.addresses@[w] == s0.addresses@[w]);
                assert(false);
            }
            assert(s1.addresses@[w].first_tx == row.first_tx);
            assert(k1[w - n0] == x);
            assert(k1.contains(x));
        }
    }
    // equal contents without duplicates means equal multisets
    broadcast use vstd::seq_lib::group_to_multiset_ensures;

    k1.lemma_multiset_has_no_duplicates();
    k2.lemma_multiset_has_no_duplicates();
    assert forall|x: (int, Seq<u8>)| k1.to_multiset().count(x) == #[trigger] k2.to_multiset().count(
        x,
    ) by {
        if k1.contains(x) {
            assert(k2.contains(x));
            assert(k1.to_multiset().count(x) == 1 && k2.to_multiset().count(x) == 1);
        } else {
            assert(!k2.contains(x));
            assert(k1.to_multiset().count(x) == 0 && k2.to_multiset().count(x) == 0);
        }
    }
    assert(k1.to_multiset() =~= k2.to_multiset());
    vstd::seq_lib::lemma_sorted_unique(k1, k2, leq);
    assert(k1 =~= k2);
    // equal keys at equal positions pin equal rows
    assert(new1.len() == new2.len());
    assert(s1.addresses@.len() == s2.addresses@.len());
    assert forall|i: int|
        0 <= i < s1.addresses@.len() implies addr_row_eqv(
        s1.addresses@[i],
        #[trigger] s2.addresses@[i],
    ) by {
        if i < n0 {
            assert(s1.addresses@[i] == s0.addresses@[i]);
            assert(s2.addresses@[i] == s0.addresses@[i]);
        } else {
            assert(k1[i - n0] == k2[i - n0]);
            assert(s1.addresses@[i].id == i + 1 && s2.addresses@[i].id == i + 1);
        }
    }
}

} // verus!
