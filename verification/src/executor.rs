//! The task graph executor: tasks are registered once as an explicit data
//! structure, validated into a fixed topological order, and run per block in
//! that order against a transactional working copy of the store. If any
//! task fails, the whole block's effects are discarded: no partial writes.

use vstd::prelude::*;
use crate::ledger::{BlockData, TxData, TxOutputData, OutputRef, TransferAsset};
use crate::store::{
    Store, BlockRow, TransactionRow, TransactionOutputRow, NativeAssetRow, FatalError, wf_store,
    store_extends, store_eqv, clone_store, copy_block_row, copy_tx_row, has_asset,
    lemma_store_extends_refl, lemma_store_extends_trans, lemma_wf_store_eqv, copy_output_row,
    lemma_store_extends_pointwise, lemma_prefix_of_extended,
};
use crate::era_common::{
    AddressInBlock, insert_addresses, find_resolved_address, get_outputs_for_inputs,
    gen_input_to_output_map, insert_inputs, distinct_keys, total_refs, lemma_flat_pos_zero,
};
use crate::assets::{QueuedAssetTransfer, resolve_or_insert_assets, handle_assets};
use crate::dex::{PoolType, DexWarning, handle_mean_price, handle_swap};
use crate::lex::{bytes_eq, copy_bytes};

verus! {

/// Logical names of the per-block context fields.
#[derive(Clone, Copy, Debug, PartialEq, Eq, Structural)]
pub enum ContextKey {
    MultieraBlock,
    MultieraTxs,
    MultieraAddresses,
    MultieraOutputs,
    MultieraAssets,
    MultieraQueuedAssetTransfers,
}

/// The closed set of indexing tasks.
#[derive(Clone, Copy, Debug, PartialEq, Eq, Structural)]
pub enum TaskKind {
    MultieraBlockTask,
    MultieraTransactionTask,
    MultieraAddressTask,
    MultieraUsedOutputTask,
    MultieraUsedInputTask,
    MultieraAssetMintTask,
    MultieraAssetTransferTask,
    MultieraWingRidersV1MeanPriceTask,
    MultieraSundaeSwapV1MeanPriceTask,
    MultieraMinswapV1MeanPriceTask,
    MultieraSundaeSwapV1SwapTask,
    WingRidersTask,
}

/// One registered task: its name, its prerequisites, and the context fields
/// it reads and writes.
pub struct TaskDescriptor {
    pub kind: TaskKind,
    pub dependencies: Vec<TaskKind>,
    pub reads: Vec<ContextKey>,
    pub writes: Vec<ContextKey>,
}

/// A registration the executor refuses at startup, before any block runs.
#[derive(Clone, Copy, Debug, PartialEq, Eq, Structural)]
pub enum RegistrationError {
    /// Two tasks share a name.
    DuplicateTask { kind: TaskKind },
    /// A task reads a context field that no registered task writes.
    ReadWithoutWriter { key: ContextKey },
    /// A task names a prerequisite that is not registered.
    MissingDependency { kind: TaskKind },
    /// The dependency graph has no topological order.
    CycleDetected,
}

/// Some task of the list writes `key`.
pub open spec fn key_has_writer(tasks: Seq<TaskDescriptor>, key: ContextKey) -> bool {
    exists|t: int, w: int|
        #![trigger tasks[t].writes@[w]]
        0 <= t < tasks.len() && 0 <= w < tasks[t].writes@.len() && tasks[t].writes@[w] == key
}

/// Some task of the list has this kind.
pub open spec fn kind_registered(tasks: Seq<TaskDescriptor>, kind: TaskKind) -> bool {
    exists|t: int| 0 <= t < tasks.len() && (#[trigger] tasks[t]).kind == kind
}

/// Prerequisite `d` of the task at position `p2` runs at an earlier position.
pub open spec fn dep_before(
    tasks: Seq<TaskDescriptor>,
    order: Seq<usize>,
    p2: int,
    d: int,
) -> bool {
    exists|p1: int|
        0 <= p1 < p2 && (#[trigger] tasks[order[p1] as int]).kind
            == tasks[order[p2] as int].dependencies@[d]
}

/// Read key `rk` of the task at position `p2` is written at an earlier
/// position.
pub open spec fn write_before(
    tasks: Seq<TaskDescriptor>,
    order: Seq<usize>,
    p2: int,
    rk: int,
) -> bool {
    exists|p1: int, w: int|
        #![trigger tasks[order[p1] as int].writes@[w]]
        0 <= p1 < p2 && 0 <= w < tasks[order[p1] as int].writes@.len()
            && tasks[order[p1] as int].writes@[w] == tasks[order[p2] as int].reads@[rk]
}

/// Every named prerequisite of the task at position `p2` runs earlier.
pub open spec fn deps_ordered(tasks: Seq<TaskDescriptor>, order: Seq<usize>, p2: int) -> bool {
    forall|d: int|
        0 <= d < tasks[order[p2] as int].dependencies@.len() ==> #[trigger] dep_before(
            tasks,
            order,
            p2,
            d,
        )
}

/// Every context field the task at position `p2` reads is written by a task
/// that runs earlier.
pub open spec fn reads_ordered(tasks: Seq<TaskDescriptor>, order: Seq<usize>, p2: int) -> bool {
    forall|rk: int|
        0 <= rk < tasks[order[p2] as int].reads@.len() ==> #[trigger] write_before(
            tasks,
            order,
            p2,
            rk,
        )
}

/// Position `p2` of the order respects its task's prerequisites and reads.
pub open spec fn order_respects_at(
    tasks: Seq<TaskDescriptor>,
    order: Seq<usize>,
    p2: int,
) -> bool {
    deps_ordered(tasks, order, p2) && reads_ordered(tasks, order, p2)
}

/// The order is a permutation of the registered tasks in which every task
/// runs after its prerequisites and after the writers of everything it
/// reads.
pub open spec fn valid_order(tasks: Seq<TaskDescriptor>, order: Seq<usize>) -> bool {
    &&& order.len() == tasks.len()
    &&& forall|p: int| 0 <= p < order.len() ==> (#[trigger] order[p]) < tasks.len()
    &&& forall|p1: int, p2: int| 0 <= p1 < p2 < order.len() ==> order[p1] != order[p2]
    &&& forall|t: int| 0 <= t < tasks.len() ==> #[trigger] order.contains(t as usize)
    &&& forall|p2: int|
        0 <= p2 < order.len() ==> #[trigger] order_respects_at(tasks, order, p2)
}

/// Number of true entries.
spec fn count_true(s: Seq<bool>) -> int
    decreases s.len(),
{
    if s.len() == 0 {
        0
    } else {
        count_true(s.drop_last()) + (if s.last() {
            1int
        } else {
            0int
        })
    }
}

proof fn lemma_count_true_bound(s: Seq<bool>)
    ensures
        0 <= count_true(s) <= s.len(),
    decreases s.len(),
{
    if s.len() > 0 {
        lemma_count_true_bound(s.drop_last());
    }
}

proof fn lemma_count_true_update(s: Seq<bool>, i: int)
    requires
        0 <= i < s.len(),
        !s[i],
    ensures
        count_true(s.update(i, true)) == count_true(s) + 1,
    decreases s.len(),
{
    if i == s.len() - 1 {
        assert(s.update(i, true).drop_last() =~= s.drop_last());
    } else {
        assert(s.update(i, true).drop_last() =~= s.drop_last().update(i, true));
        lemma_count_true_update(s.drop_last(), i);
    }
}

proof fn lemma_count_all_true(s: Seq<bool>)
    requires
        forall|i: int| 0 <= i < s.len() ==> s[i],
    ensures
        count_true(s) == s.len(),
    decreases s.len(),
{
    if s.len() > 0 {
        lemma_count_all_true(s.drop_last());
    }
}

proof fn lemma_count_true_full(s: Seq<bool>)
    requires
        count_true(s) == s.len(),
    ensures
        forall|i: int| 0 <= i < s.len() ==> s[i],
    decreases s.len(),
{
    if s.len() > 0 {
        lemma_count_true_bound(s.drop_last());
        lemma_count_true_full(s.drop_last());
        assert forall|i: int| 0 <= i < s.len() implies s[i] by {
            if i < s.len() - 1 {
                assert(s.drop_last()[i]);
            }
        }
    }
}

proof fn lemma_count_all_false(s: Seq<bool>)
    requires
        forall|i: int| 0 <= i < s.len() ==> !s[i],
    ensures
        count_true(s) == 0,
    decreases s.len(),
{
    if s.len() > 0 {
        lemma_count_all_false(s.drop_last());
    }
}

/// If the tasks of the first `p` positions of a valid order are all placed
/// whenever placeable, they are all placed: each one's prerequisites sit at
/// earlier positions.
proof fn lemma_order_prefix_placed(
    tasks: Seq<TaskDescriptor>,
    placed: Seq<bool>,
    order: Seq<usize>,
    p: int,
)
    requires
        tasks.len() <= usize::MAX,
        placed.len() == tasks.len(),
        valid_order(tasks, order),
        forall|t: int|
            0 <= t < tasks.len() && !placed[t] ==> !(deps_satisfied(tasks, placed, t)
                && reads_satisfied(tasks, placed, t)),
        0 <= p <= order.len(),
    ensures
        forall|q: int| 0 <= q < p ==> placed[#[trigger] order[q] as int],
    decreases p,
{
    if p > 0 {
        lemma_order_prefix_placed(tasks, placed, order, p - 1);
        let t = order[p - 1] as int;
        assert(order_respects_at(tasks, order, p - 1));
        assert forall|d: int|
            0 <= d < tasks[t].dependencies@.len() implies #[trigger] dep_placed(
            tasks,
            placed,
            t,
            d,
        ) by {
            assert(dep_before(tasks, order, p - 1, d));
            let p1 = choose|p1: int|
                0 <= p1 < p - 1 && (#[trigger] tasks[order[p1] as int]).kind == tasks[order[p
                    - 1] as int].dependencies@[d];
            assert(placed[order[p1] as int]);
            assert(order[p1] < tasks.len());
            assert(tasks[order[p1] as int].kind == tasks[t].dependencies@[d]);
        }
        assert forall|rk: int|
            0 <= rk < tasks[t].reads@.len() implies #[trigger] read_provided(
            tasks,
            placed,
            t,
            rk,
        ) by {
            assert(write_before(tasks, order, p - 1, rk));
            let (p1, w) = choose|p1: int, w: int|
                #![trigger tasks[order[p1] as int].writes@[w]]
                0 <= p1 < p - 1 && 0 <= w < tasks[order[p1] as int].writes@.len() && tasks[order[
                    p1] as int].writes@[w] == tasks[order[p - 1] as int].reads@[rk];
            assert(placed[order[p1] as int]);
            assert(tasks[order[p1] as int].writes@[w] == tasks[t].reads@[rk]);
        }
        assert(deps_satisfied(tasks, placed, t));
        assert(reads_satisfied(tasks, placed, t));
        assert(placed[t]);
    }
}

/// When the scheduler stalls (every unplaced task waits on an unplaced
/// prerequisite) while a valid order exists, every task is already placed.
proof fn lemma_stalled_schedule_is_cyclic(
    tasks: Seq<TaskDescriptor>,
    placed: Seq<bool>,
    order: Seq<usize>,
)
    requires
        tasks.len() <= usize::MAX,
        placed.len() == tasks.len(),
        valid_order(tasks, order),
        forall|t: int|
            0 <= t < tasks.len() && !placed[t] ==> !(deps_satisfied(tasks, placed, t)
                && reads_satisfied(tasks, placed, t)),
    ensures
        forall|i: int| 0 <= i < placed.len() ==> placed[i],
{
    lemma_order_prefix_placed(tasks, placed, order, order.len() as int);
    assert forall|i: int| 0 <= i < placed.len() implies placed[i] by {
        assert(order.contains(i as usize));
        let q = order.lemma_contains_to_index(i as usize);
        assert(placed[order[q] as int]);
    }
}

/// Prerequisite `d` of task `t` is placed.
pub open spec fn dep_placed(
    tasks: Seq<TaskDescriptor>,
    placed: Seq<bool>,
    t: int,
    d: int,
) -> bool {
    exists|t2: int|
        0 <= t2 < tasks.len() && placed[t2] && (#[trigger] tasks[t2]).kind
            == tasks[t].dependencies@[d]
}

/// Read key `rk` of task `t` is written by a placed task.
pub open spec fn read_provided(
    tasks: Seq<TaskDescriptor>,
    placed: Seq<bool>,
    t: int,
    rk: int,
) -> bool {
    exists|t2: int, w: int|
        #![trigger tasks[t2].writes@[w]]
        0 <= t2 < tasks.len() && placed[t2] && 0 <= w < tasks[t2].writes@.len()
            && tasks[t2].writes@[w] == tasks[t].reads@[rk]
}

/// Every named prerequisite of task `t` is already placed.
pub open spec fn deps_satisfied(
    tasks: Seq<TaskDescriptor>,
    placed: Seq<bool>,
    t: int,
) -> bool {
    forall|d: int|
        0 <= d < tasks[t].dependencies@.len() ==> #[trigger] dep_placed(tasks, placed, t, d)
}

/// Every context field task `t` reads is written by a placed task.
pub open spec fn reads_satisfied(
    tasks: Seq<TaskDescriptor>,
    placed: Seq<bool>,
    t: int,
) -> bool {
    forall|rk: int|
        0 <= rk < tasks[t].reads@.len() ==> #[trigger] read_provided(tasks, placed, t, rk)
}

/// Whether task `t` can be scheduled once exactly the tasks marked in
/// `placed` have run.
fn task_ready(tasks: &Vec<TaskDescriptor>, placed: &Vec<bool>, t: usize) -> (r: bool)
    requires
        placed@.len() == tasks@.len(),
        t < tasks@.len(),
    ensures
        r == (deps_satisfied(tasks@, placed@, t as int) && reads_satisfied(
            tasks@,
            placed@,
            t as int,
        )),
{
    let task = &tasks[t];
    let mut d: usize = 0;
    while d < task.dependencies.len()
        invariant
            0 <= d <= task.dependencies@.len(),
            task == &tasks@[t as int],
            t < tasks@.len(),
            placed@.len() == tasks@.len(),
            forall|d2: int| 0 <= d2 < d ==> #[trigger] dep_placed(tasks@, placed@, t as int, d2),
        decreases task.dependencies@.len() - d,
    {
        let mut t2: usize = 0;
        let mut found = false;
        while t2 < tasks.len()
            invariant
                0 <= t2 <= tasks@.len(),
                task == &tasks@[t as int],
                t < tasks@.len(),
                d < task.dependencies@.len(),
                placed@.len() == tasks@.len(),
                found == exists|t3: int|
                    0 <= t3 < t2 && placed@[t3] && (#[trigger] tasks@[t3]).kind == tasks@[
                        t as int].dependencies@[d as int],
            decreases tasks@.len() - t2,
        {
            if placed[t2] && tasks[t2].kind == task.dependencies[d] {
                found = true;
                proof {
                    assert(placed@[t2 as int] && tasks@[t2 as int].kind == tasks@[
                        t as int].dependencies@[d as int]);
                }
            }
            t2 = t2 + 1;
        }
        if !found {
            proof {
                if deps_satisfied(tasks@, placed@, t as int) {
                    assert(dep_placed(tasks@, placed@, t as int, d as int));
                    assert(false);
                }
            }
            return false;
        }
        proof {
            assert(dep_placed(tasks@, placed@, t as int, d as int));
        }
        d = d + 1;
    }
    let mut rk: usize = 0;
    while rk < task.reads.len()
        invariant
            0 <= rk <= task.reads@.len(),
            task == &tasks@[t as int],
            t < tasks@.len(),
            placed@.len() == tasks@.len(),
            forall|d2: int|
                0 <= d2 < task.dependencies@.len() ==> #[trigger] dep_placed(
                    tasks@,
                    placed@,
                    t as int,
                    d2,
                ),
            forall|rk2: int|
                0 <= rk2 < rk ==> #[trigger] read_provided(tasks@, placed@, t as int, rk2),
        decreases task.reads@.len() - rk,
    {
        let mut t2: usize = 0;
        let mut found = false;
        while t2 < tasks.len()
            invariant
                0 <= t2 <= tasks@.len(),
                task == &tasks@[t as int],
                t < tasks@.len(),
                rk < task.reads@.len(),
                placed@.len() == tasks@.len(),
                found == exists|t3: int, w: int|
                    #![trigger tasks@[t3].writes@[w]]
                    0 <= t3 < t2 && placed@[t3] && 0 <= w < tasks@[t3].writes@.len()
                        && tasks@[t3].writes@[w] == tasks@[t as int].reads@[rk as int],
            decreases tasks@.len() - t2,
        {
            if placed[t2] {
                let mut w: usize = 0;
                while w < tasks[t2].writes.len()
                    invariant
                        0 <= w <= tasks@[t2 as int].writes@.len(),
                        t2 < tasks@.len(),
                        task == &tasks@[t as int],
                        t < tasks@.len(),
                        rk < task.reads@.len(),
                        placed@.len() == tasks@.len(),
                        placed@[t2 as int],
                        found == ((exists|t3: int, w2: int|
                            #![trigger tasks@[t3].writes@[w2]]
                            0 <= t3 < t2 && placed@[t3] && 0 <= w2 < tasks@[t3].writes@.len()
                                && tasks@[t3].writes@[w2] == tasks@[t as int].reads@[rk as int])
                            || (exists|w2: int|
                            0 <= w2 < w && (#[trigger] tasks@[t2 as int].writes@[w2]) == tasks@[
                                t as int].reads@[rk as int])),
                    decreases tasks@[t2 as int].writes@.len() - w,
                {
                    if tasks[t2].writes[w] == task.reads[rk] {
                        found = true;
                        proof {
                            assert(tasks@[t2 as int].writes@[w as int] == tasks@[t as int].reads@[
                                rk as int]);
                        }
                    }
                    w = w + 1;
                }
            }
            t2 = t2 + 1;
        }
        if !found {
            proof {
                if reads_satisfied(tasks@, placed@, t as int) {
                    assert(read_provided(tasks@, placed@, t as int, rk as int));
                    assert(false);
                }
            }
            return false;
        }
        proof {
            assert(read_provided(tasks@, placed@, t as int, rk as int));
        }
        rk = rk + 1;
    }
    proof {
        assert(*task == tasks@[t as int]);
        assert(rk as int == tasks@[t as int].reads@.len());
    }
    true
}

/// Validates a task registration and computes the fixed topological order:
/// refuses duplicate names, reads that nothing writes, missing prerequisites
/// and cycles — at registration time, before any block is processed.
#[verifier::loop_isolation(false)]
#[verifier::rlimit(100)]
pub fn validate_registration(tasks: &Vec<TaskDescriptor>) -> (r: Result<
    Vec<usize>,
    RegistrationError,
>)
    ensures
        match r {
            Ok(order) => valid_order(tasks@, order@),
            Err(e) => match e {
                RegistrationError::ReadWithoutWriter { key } => !key_has_writer(tasks@, key)
                    && exists|t: int, rk: int|
                    #![trigger tasks@[t].reads@[rk]]
                    0 <= t < tasks@.len() && 0 <= rk < tasks@[t].reads@.len() && tasks@[t].reads@[rk]
                        == key,
                RegistrationError::DuplicateTask { kind } => exists|t1: int, t2: int|
                    0 <= t1 < t2 < tasks@.len() && (#[trigger] tasks@[t1]).kind == (
                    #[trigger] tasks@[t2]).kind && tasks@[t1].kind == kind,
                RegistrationError::MissingDependency { kind } => !kind_registered(tasks@, kind),
                RegistrationError::CycleDetected => !(exists|o: Seq<usize>|
                    valid_order(tasks@, o)),
            },
        },
{
    // 1) unique task names
    let mut t1: usize = 0;
    while t1 < tasks.len()
        invariant
            0 <= t1 <= tasks@.len(),
            forall|a: int, b: int|
                0 <= a < b < tasks@.len() && a < t1 ==> (#[trigger] tasks@[a]).kind != (
                #[trigger] tasks@[b]).kind,
        decreases tasks@.len() - t1,
    {
        let mut t2: usize = t1 + 1;
        while t2 < tasks.len()
            invariant
                t1 < t2 <= tasks@.len(),
                t1 < tasks@.len(),
                forall|b: int|
                    t1 < b < t2 ==> (#[trigger] tasks@[b]).kind != tasks@[t1 as int].kind,
            decreases tasks@.len() - t2,
        {
            if tasks[t2].kind == tasks[t1].kind {
                return Err(RegistrationError::DuplicateTask { kind: tasks[t1].kind });
            }
            t2 = t2 + 1;
        }
        t1 = t1 + 1;
    }
    // 2) every read key has a writer, every named dependency is registered
    let mut t: usize = 0;
    while t < tasks.len()
        invariant
            0 <= t <= tasks@.len(),
        decreases tasks@.len() - t,
    {
        let mut rk: usize = 0;
        while rk < tasks[t].reads.len()
            invariant
                0 <= rk <= tasks@[t as int].reads@.len(),
                t < tasks@.len(),
            decreases tasks@[t as int].reads@.len() - rk,
        {
            let key = tasks[t].reads[rk];
            let mut t2: usize = 0;
            let mut found = false;
            while t2 < tasks.len()
                invariant
                    0 <= t2 <= tasks@.len(),
                    t < tasks@.len(),
                    rk < tasks@[t as int].reads@.len(),
                    key == tasks@[t as int].reads@[rk as int],
                    found == exists|t3: int, w: int|
                        #![trigger tasks@[t3].writes@[w]]
                        0 <= t3 < t2 && 0 <= w < tasks@[t3].writes@.len() && tasks@[t3].writes@[w]
                            == key,
                decreases tasks@.len() - t2,
            {
                let mut w: usize = 0;
                while w < tasks[t2].writes.len()
                    invariant
                        0 <= w <= tasks@[t2 as int].writes@.len(),
                        t2 < tasks@.len(),
                        t < tasks@.len(),
                        rk < tasks@[t as int].reads@.len(),
                        key == tasks@[t as int].reads@[rk as int],
                        found == ((exists|t3: int, w2: int|
                            #![trigger tasks@[t3].writes@[w2]]
                            0 <= t3 < t2 && 0 <= w2 < tasks@[t3].writes@.len()
                                && tasks@[t3].writes@[w2] == key) || (exists|w2: int|
                            0 <= w2 < w && (#[trigger] tasks@[t2 as int].writes@[w2]) == key)),
                    decreases tasks@[t2 as int].writes@.len() - w,
                {
                    if tasks[t2].writes[w] == key {
                        found = true;
                        proof {
                            assert(tasks@[t2 as int].writes@[w as int] == key);
                        }
                    }
                    w = w + 1;
                }
                t2 = t2 + 1;
            }
            if !found {
                proof {
                    assert(!key_has_writer(tasks@, key));
                    assert(tasks@[t as int].reads@[rk as int] == key);
                }
                return Err(RegistrationError::ReadWithoutWriter { key });
            }
            rk = rk + 1;
        }
        let mut d: usize = 0;
        while d < tasks[t].dependencies.len()
            invariant
                0 <= d <= tasks@[t as int].dependencies@.len(),
                t < tasks@.len(),
            decreases tasks@[t as int].dependencies@.len() - d,
        {
            let dep = tasks[t].dependencies[d];
            let mut t2: usize = 0;
            let mut found = false;
            while t2 < tasks.len()
                invariant
                    0 <= t2 <= tasks@.len(),
                    found == exists|t3: int| 0 <= t3 < t2 && (#[trigger] tasks@[t3]).kind == dep,
                decreases tasks@.len() - t2,
            {
                if tasks[t2].kind == dep {
                    found = true;
                    proof {
                        assert(tasks@[t2 as int].kind == dep);
                    }
                }
                t2 = t2 + 1;
            }
            if !found {
                return Err(RegistrationError::MissingDependency { kind: dep });
            }
            d = d + 1;
        }
        t = t + 1;
    }
    // 3) schedule: repeatedly place a task whose prerequisites are all placed
    let n = tasks.len();
    let mut order: Vec<usize> = Vec::new();
    let mut placed: Vec<bool> = Vec::new();
    let mut i: usize = 0;
    while i < n
        invariant
            0 <= i <= n,
            placed@.len() == i,
            forall|k: int| 0 <= k < i ==> !(#[trigger] placed@[k]),
        decreases n - i,
    {
        placed.push(false);
        proof {
            assert(placed@.drop_last() =~= placed@.subrange(0, placed@.len() - 1));
        }
        i = i + 1;
    }
    proof {
        lemma_count_all_false(placed@);
    }
    let mut round: usize = 0;
    while round < n
        invariant
            0 <= round <= n,
            n == tasks@.len(),
            placed@.len() == n,
            order@.len() == round,
            forall|p: int| 0 <= p < order@.len() ==> (#[trigger] order@[p]) < n,
            forall|p1: int, p2: int|
                0 <= p1 < p2 < order@.len() ==> order@[p1] != order@[p2],
            count_true(placed@) == round,
            forall|tt: int|
                0 <= tt < n ==> (placed@[tt] == exists|p: int|
                    0 <= p < order@.len() && (#[trigger] order@[p]) == tt),
            forall|p2: int|
                0 <= p2 < order@.len() ==> #[trigger] order_respects_at(tasks@, order@, p2),
        decreases n - round,
    {
        let mut cand: usize = 0;
        let mut picked = n;
        while cand < n
            invariant
                0 <= cand <= n,
                n == tasks@.len(),
                placed@.len() == n,
                picked == n || (picked < n && !placed@[picked as int] && deps_satisfied(
                    tasks@,
                    placed@,
                    picked as int,
                ) && reads_satisfied(tasks@, placed@, picked as int)),
                picked == n ==> forall|c: int|
                    0 <= c < cand && !placed@[c] ==> !(deps_satisfied(tasks@, placed@, c)
                        && reads_satisfied(tasks@, placed@, c)),
            decreases n - cand,
        {
            if picked == n && !placed[cand] && task_ready(tasks, &placed, cand) {
                picked = cand;
            }
            cand = cand + 1;
        }
        if picked == n {
            // every unplaced task still waits on an unplaced prerequisite:
            // no order could ever run them all
            proof {
                lemma_count_true_bound(placed@);
                if exists|o: Seq<usize>| valid_order(tasks@, o) {
                    let o = choose|o: Seq<usize>| valid_order(tasks@, o);
                    assert(tasks@.len() == tasks.len());
                    lemma_stalled_schedule_is_cyclic(tasks@, placed@, o);
                    lemma_count_all_true(placed@);
                    assert(false);
                }
            }
            return Err(RegistrationError::CycleDetected);
        }
        let ghost order0 = order@;
        let ghost placed0 = placed@;
        order.push(picked);
        placed[picked] = true;
        proof {
            assert(placed@ =~= placed0.update(picked as int, true));
            lemma_count_true_update(placed0, picked as int);
            assert forall|tt: int|
                0 <= tt < n implies (placed@[tt] == exists|p: int|
                0 <= p < order@.len() && (#[trigger] order@[p]) == tt) by {
                if tt == picked as int {
                    assert(order@[order@.len() - 1] == picked);
                } else {
                    if placed@[tt] {
                        let p = choose|p: int| 0 <= p < order0.len() && (#[trigger] order0[p]) == tt;
                        assert(order@[p] == tt);
                    } else {
                        if exists|p: int| 0 <= p < order@.len() && (#[trigger] order@[p]) == tt {
                            let p = choose|p: int|
                                0 <= p < order@.len() && (#[trigger] order@[p]) == tt;
                            assert(p < order0.len());
                            assert(order0[p] == tt);
                        }
                    }
                }
            }
            // the new position respects prerequisites: its witnesses are placed,
            // and every placed task sits at an earlier position
            assert forall|p2: int|
                0 <= p2 < order@.len() implies #[trigger] order_respects_at(tasks@, order@, p2) by {
                if p2 < order0.len() {
                    assert(order_respects_at(tasks@, order0, p2));
                    assert(order@[p2] == order0[p2]);
                    assert forall|d2: int|
                        0 <= d2 < tasks@[order@[p2] as int].dependencies@.len() implies #[trigger] dep_before(
                        tasks@,
                        order@,
                        p2,
                        d2,
                    ) by {
                        assert(dep_before(tasks@, order0, p2, d2));
                        let p1 = choose|p1: int|
                            0 <= p1 < p2 && (#[trigger] tasks@[order0[p1] as int]).kind == tasks@[
                                order0[p2] as int].dependencies@[d2];
                        assert(order@[p1] == order0[p1]);
                        assert(tasks@[order@[p1] as int].kind == tasks@[order@[
                            p2] as int].dependencies@[d2]);
                    }
                    assert forall|rk2: int|
                        0 <= rk2 < tasks@[order@[p2] as int].reads@.len() implies #[trigger] write_before(
                        tasks@,
                        order@,
                        p2,
                        rk2,
                    ) by {
                        assert(write_before(tasks@, order0, p2, rk2));
                        let (p1, w) = choose|p1: int, w: int|
                            #![trigger tasks@[order0[p1] as int].writes@[w]]
                            0 <= p1 < p2 && 0 <= w < tasks@[order0[p1] as int].writes@.len()
                                && tasks@[order0[p1] as int].writes@[w] == tasks@[order0[
                                p2] as int].reads@[rk2];
                        assert(order@[p1] == order0[p1]);
                        assert(tasks@[order@[p1] as int].writes@[w] == tasks@[order@[
                            p2] as int].reads@[rk2]);
                    }
                    assert(deps_ordered(tasks@, order@, p2));
                    assert(reads_ordered(tasks@, order@, p2));
                } else {
                    assert(order@[p2] == picked);
                    assert(deps_satisfied(tasks@, placed0, picked as int));
                    assert(reads_satisfied(tasks@, placed0, picked as int));
                    assert forall|d2: int|
                        0 <= d2 < tasks@[order@[p2] as int].dependencies@.len() implies #[trigger] dep_before(
                        tasks@,
                        order@,
                        p2,
                        d2,
                    ) by {
                        assert(dep_placed(tasks@, placed0, picked as int, d2));
                        let t3 = choose|t3: int|
                            0 <= t3 < tasks@.len() && placed0[t3] && (#[trigger] tasks@[t3]).kind
                                == tasks@[picked as int].dependencies@[d2];
                        let p1 = choose|p: int|
                            0 <= p < order0.len() && (#[trigger] order0[p]) == t3;
                        assert(order@[p1] == t3 as usize);
                        assert(tasks@[order@[p1] as int].kind == tasks@[order@[
                            p2] as int].dependencies@[d2]);
                    }
                    assert forall|rk2: int|
                        0 <= rk2 < tasks@[order@[p2] as int].reads@.len() implies #[trigger] write_before(
                        tasks@,
                        order@,
                        p2,
                        rk2,
                    ) by {
                        assert(read_provided(tasks@, placed0, picked as int, rk2));
                        let (t3, w) = choose|t3: int, w: int|
                            #![trigger tasks@[t3].writes@[w]]
                            0 <= t3 < tasks@.len() && placed0[t3] && 0 <= w < tasks@[
                                t3].writes@.len() && tasks@[t3].writes@[w] == tasks@[
                                picked as int].reads@[rk2];
                        let p1 = choose|p: int|
                            0 <= p < order0.len() && (#[trigger] order0[p]) == t3;
                        assert(order@[p1] == t3 as usize);
                        assert(tasks@[order@[p1] as int].writes@[w] == tasks@[order@[
                            p2] as int].reads@[rk2]);
                    }
                    assert(deps_ordered(tasks@, order@, p2));
                    assert(reads_ordered(tasks@, order@, p2));
                }
            }
        }
        round = round + 1;
    }
    proof {
        lemma_count_true_full(placed@);
        assert forall|t3: int|
            0 <= t3 < tasks@.len() implies #[trigger] order@.contains(t3 as usize) by {
            assert(placed@[t3]);
            let p = choose|p: int| 0 <= p < order@.len() && (#[trigger] order@[p]) == t3;
            assert(order@[p] == t3 as usize);
        }
    }
    Ok(order)
}


// ---------------------------------------------------------------------------
// Per-block execution

/// Outputs of completed tasks, keyed by logical name; a skipped task leaves
/// its write keys absent, and downstream tasks tolerate absence.
pub struct BlockContext {
    pub multiera_block: Option<BlockRow>,
    pub multiera_txs: Option<Vec<TransactionRow>>,
    pub multiera_addresses: Option<Vec<AddressInBlock>>,
    pub multiera_outputs: Option<Vec<TransactionOutputRow>>,
    pub multiera_assets: Option<Vec<NativeAssetRow>>,
    pub multiera_queued_asset_transfers: Option<Vec<QueuedAssetTransfer>>,
}

impl BlockContext {
    pub fn new() -> (r: BlockContext)
        ensures
            r.multiera_block is None,
            r.multiera_txs is None,
    {
        BlockContext {
            multiera_block: None,
            multiera_txs: None,
            multiera_addresses: None,
            multiera_outputs: None,
            multiera_assets: None,
            multiera_queued_asset_transfers: None,
        }
    }
}

/// Whether adding `add` rows to a table of `cur` rows stays within the
/// store's id space.
fn fits(cur: usize, add: usize) -> (r: bool)
    ensures
        r == (cur + add <= i64::MAX && cur + add < usize::MAX),
{
    let s: u128 = (cur as u128) + (add as u128);
    s <= (i64::MAX as u128) && s < (usize::MAX as u128)
}

/// The per-block predicate of each task, used to skip work cheaply.
pub open spec fn applies_spec(kind: TaskKind, b: BlockData) -> bool {
    match kind {
        TaskKind::MultieraWingRidersV1MeanPriceTask => block_has_outputs(b),
        TaskKind::MultieraSundaeSwapV1MeanPriceTask => block_has_outputs(b),
        TaskKind::MultieraMinswapV1MeanPriceTask => block_has_outputs(b),
        TaskKind::MultieraSundaeSwapV1SwapTask => block_has_outputs(b),
        TaskKind::MultieraAssetTransferTask => block_moves_assets(b),
        _ => true,
    }
}

/// Some transaction of the block has an output.
pub open spec fn block_has_outputs(b: BlockData) -> bool {
    exists|k: int| 0 <= k < b.txs@.len() && (#[trigger] b.txs@[k]).outputs@.len() > 0
}

/// Some transaction either produced outputs (if valid) or a collateral
/// return (if not).
pub open spec fn block_moves_assets(b: BlockData) -> bool {
    exists|k: int|
        0 <= k < b.txs@.len() && {
            let t = #[trigger] b.txs@[k];
            if t.is_valid {
                t.outputs@.len() > 0
            } else {
                t.collateral_return is Some
            }
        }
}

/// Evaluates a task's per-block predicate.
#[verifier::loop_isolation(false)]
pub fn task_applies(kind: TaskKind, block: &BlockData) -> (r: bool)
    ensures
        r == applies_spec(kind, *block),
{
    match kind {
        TaskKind::MultieraWingRidersV1MeanPriceTask
        | TaskKind::MultieraSundaeSwapV1MeanPriceTask
        | TaskKind::MultieraMinswapV1MeanPriceTask
        | TaskKind::MultieraSundaeSwapV1SwapTask => {
            let mut k: usize = 0;
            while k < block.txs.len()
                invariant
                    0 <= k <= block.txs@.len(),
                    forall|k2: int| 0 <= k2 < k ==> (#[trigger] block.txs@[k2]).outputs@.len() == 0,
                decreases block.txs@.len() - k,
            {
                if block.txs[k].outputs.len() > 0 {
                    return true;
                }
                k = k + 1;
            }
            false
        },
        TaskKind::MultieraAssetTransferTask => {
            let mut k: usize = 0;
            while k < block.txs.len()
                invariant
                    0 <= k <= block.txs@.len(),
                    forall|k2: int|
                        0 <= k2 < k ==> {
                            let t = #[trigger] block.txs@[k2];
                            !(if t.is_valid {
                                t.outputs@.len() > 0
                            } else {
                                t.collateral_return is Some
                            })
                        },
                decreases block.txs@.len() - k,
            {
                let t = &block.txs[k];
                let hit = if t.is_valid {
                    t.outputs.len() > 0
                } else {
                    t.collateral_return.is_some()
                };
                if hit {
                    return true;
                }
                k = k + 1;
            }
            false
        },
        _ => true,
    }
}


/// Whether one more row can be appended after `cur` pending rows on top of
/// `base` stored ones.
fn can_push(base: usize, cur: usize) -> (r: bool)
    ensures
        r == (base + cur + 1 <= i64::MAX && base + cur + 1 < usize::MAX),
{
    let st: u128 = (base as u128) + (cur as u128) + 1;
    st <= (i64::MAX as u128) && st < (usize::MAX as u128)
}

/// One task step leaves the store well formed and only ever grown.
pub open spec fn task_step_ok(s0: Store, s1: Store) -> bool {
    wf_store(s1) && store_extends(s0, s1)
}

/// Inserts the block row and publishes it to the context.
#[verifier::loop_isolation(false)]
fn run_block_task(block: &BlockData, work: &mut Store, ctx: &mut BlockContext) -> (r: Result<
    (),
    FatalError,
>)
    requires
        wf_store(*old(work)),
    ensures
        task_step_ok(*old(work), *final(work)),
{
    let ghost w0 = *work;
    if !fits(work.blocks.len(), 1) {
        return Err(FatalError::CapacityExceeded);
    }
    let mut i: usize = 0;
    while i < work.blocks.len()
        invariant
            0 <= i <= work.blocks@.len(),
            *work == w0,
            forall|i2: int| 0 <= i2 < i ==> (#[trigger] work.blocks@[i2]).hash@ != block.hash@,
        decreases work.blocks@.len() - i,
    {
        if bytes_eq(work.blocks[i].hash.as_slice(), block.hash.as_slice()) {
            return Err(FatalError::DuplicateRow { hash: copy_bytes(&block.hash) });
        }
        i = i + 1;
    }
    let row = BlockRow {
        id: (work.blocks.len() + 1) as i64,
        hash: copy_bytes(&block.hash),
        height: block.height,
        era: block.era,
    };
    ctx.multiera_block = Some(copy_block_row(&row));
    work.blocks.push(row);
    proof {
        assert forall|a: int, b: int|
            0 <= a < b < work.blocks@.len() implies (#[trigger] work.blocks@[a]).hash@ != (
        #[trigger] work.blocks@[b]).hash@ by {
            if b < w0.blocks@.len() {
                assert(work.blocks@[a] == w0.blocks@[a]);
                assert(work.blocks@[b] == w0.blocks@[b]);
            } else {
                assert(work.blocks@[a] == w0.blocks@[a]);
                assert(work.blocks@[b].hash@ == block.hash@);
            }
        }
        assert(wf_store(*work));
        lemma_store_extends_pointwise(w0, *work);
    }
    Ok(())
}

/// Inserts one transaction row per block transaction, in block order, and
/// publishes the rows to the context.
#[verifier::loop_isolation(false)]
#[verifier::rlimit(60)]
fn run_transaction_task(block: &BlockData, work: &mut Store, ctx: &mut BlockContext) -> (r: Result<
    (),
    FatalError,
>)
    requires
        wf_store(*old(work)),
    ensures
        task_step_ok(*old(work), *final(work)),
{
    let ghost w0 = *work;
    let block_id: i64 = match &ctx.multiera_block {
        Some(b) => b.id,
        None => {
            proof {
                lemma_store_extends_refl(w0);
            }
            return Ok(());
        },
    };
    if !fits(work.transactions.len(), block.txs.len()) {
        return Err(FatalError::CapacityExceeded);
    }
    if block.txs.len() > (i32::MAX as usize) {
        return Err(FatalError::CapacityExceeded);
    }
    let base = work.transactions.len();
    let mut rows: Vec<TransactionRow> = Vec::new();
    let mut j: usize = 0;
    while j < block.txs.len()
        invariant
            0 <= j <= block.txs@.len(),
            *work == w0,
            base == w0.transactions@.len(),
            base + block.txs@.len() <= i64::MAX,
            block.txs@.len() <= i32::MAX,
            rows@.len() == j,
            forall|j2: int|
                0 <= j2 < j ==> {
                    let t = #[trigger] rows@[j2];
                    &&& t.id == base + j2 + 1
                    &&& !crate::store::has_tx_hash(w0.transactions@, t.hash@)
                },
            forall|a: int, b: int|
                0 <= a < b < rows@.len() ==> (#[trigger] rows@[a]).hash@ != (
                #[trigger] rows@[b]).hash@,
        decreases block.txs@.len() - j,
    {
        let tx = &block.txs[j];
        let mut i: usize = 0;
        while i < work.transactions.len()
            invariant
                0 <= i <= work.transactions@.len(),
                *work == w0,
                forall|i2: int|
                    0 <= i2 < i ==> (#[trigger] work.transactions@[i2]).hash@ != block.txs@[
                        j as int].hash@,
                0 <= j < block.txs@.len(),
            decreases work.transactions@.len() - i,
        {
            if bytes_eq(work.transactions[i].hash.as_slice(), tx.hash.as_slice()) {
                return Err(FatalError::DuplicateRow { hash: copy_bytes(&tx.hash) });
            }
            i = i + 1;
        }
        let mut k: usize = 0;
        while k < rows.len()
            invariant
                0 <= k <= rows@.len(),
                0 <= j < block.txs@.len(),
                forall|k2: int|
                    0 <= k2 < k ==> (#[trigger] rows@[k2]).hash@ != block.txs@[j as int].hash@,
            decreases rows@.len() - k,
        {
            if bytes_eq(rows[k].hash.as_slice(), tx.hash.as_slice()) {
                return Err(FatalError::DuplicateRow { hash: copy_bytes(&tx.hash) });
            }
            k = k + 1;
        }
        rows.push(
            TransactionRow {
                id: (base + rows.len() + 1) as i64,
                hash: copy_bytes(&tx.hash),
                block_id,
                tx_index: j as i32,
                payload: copy_bytes(&tx.payload),
                is_valid: tx.is_valid,
            },
        );
        j = j + 1;
    }
    // publish copies, then append the batch
    let mut published: Vec<TransactionRow> = Vec::new();
    let mut k: usize = 0;
    while k < rows.len()
        invariant
            0 <= k <= rows@.len(),
            published@.len() == k,
            forall|k2: int|
                0 <= k2 < k ==> crate::store::tx_row_eqv(rows@[k2], #[trigger] published@[k2])
                    && published@[k2].id == rows@[k2].id && published@[k2].is_valid == rows@[
                    k2].is_valid,
        decreases rows@.len() - k,
    {
        published.push(copy_tx_row(&rows[k]));
        k = k + 1;
    }
    ctx.multiera_txs = Some(published);
    let ghost rows_v = rows@;
    let mut t: usize = 0;
    while t < rows.len()
        invariant
            0 <= t <= rows@.len(),
            rows@ == rows_v,
            work.blocks == w0.blocks,
            work.outputs == w0.outputs,
            work.inputs == w0.inputs,
            work.addresses == w0.addresses,
            work.assets == w0.assets,
            work.asset_transfers == w0.asset_transfers,
            work.mean_prices == w0.mean_prices,
            work.swaps == w0.swaps,
            work.transactions@.len() == w0.transactions@.len() + t,
            forall|i2: int|
                0 <= i2 < w0.transactions@.len() ==> work.transactions@[i2] == w0.transactions@[i2],
            forall|t2: int|
                0 <= t2 < t ==> crate::store::tx_row_eqv(
                    rows_v[t2],
                    #[trigger] work.transactions@[w0.transactions@.len() + t2],
                ) && work.transactions@[w0.transactions@.len() + t2].id == rows_v[t2].id,
        decreases rows@.len() - t,
    {
        work.transactions.push(copy_tx_row(&rows[t]));
        t = t + 1;
    }
    proof {
        let n0 = w0.transactions@.len() as int;
        assert forall|a: int|
            0 <= a < work.transactions@.len() implies (#[trigger] work.transactions@[a]).id == a
            + 1 by {
            if a < n0 {
                assert(work.transactions@[a] == w0.transactions@[a]);
            } else {
                assert(work.transactions@[n0 + (a - n0)].id == rows_v[a - n0].id);
            }
        }
        assert forall|a: int, b: int|
            0 <= a < b < work.transactions@.len() implies (#[trigger] work.transactions@[a]).hash@
            != (#[trigger] work.transactions@[b]).hash@ by {
            if b < n0 {
                assert(work.transactions@[a] == w0.transactions@[a]);
                assert(work.transactions@[b] == w0.transactions@[b]);
            } else if a < n0 {
                assert(work.transactions@[a] == w0.transactions@[a]);
                assert(crate::store::tx_row_eqv(
                    rows_v[b - n0],
                    work.transactions@[n0 + (b - n0)],
                ));
                assert(!crate::store::has_tx_hash(w0.transactions@, rows_v[b - n0].hash@));
            } else {
                assert(crate::store::tx_row_eqv(
                    rows_v[a - n0],
                    work.transactions@[n0 + (a - n0)],
                ));
                assert(crate::store::tx_row_eqv(
                    rows_v[b - n0],
                    work.transactions@[n0 + (b - n0)],
                ));
                assert(rows_v[a - n0].hash@ != rows_v[b - n0].hash@);
            }
        }
        assert(wf_store(*work));
        lemma_store_extends_pointwise(w0, *work);
    }
    Ok(())
}


/// Collects every address paid by the block's used outputs (regular outputs
/// of valid transactions, collateral returns of invalid ones), resolves the
/// batch and publishes the resolution.
#[verifier::loop_isolation(false)]
#[verifier::rlimit(60)]
fn run_address_task(block: &BlockData, work: &mut Store, ctx: &mut BlockContext) -> (r: Result<
    (),
    FatalError,
>)
    requires
        wf_store(*old(work)),
    ensures
        task_step_ok(*old(work), *final(work)),
{
    let ghost w0 = *work;
    let txs = match &ctx.multiera_txs {
        Some(t) => t,
        None => {
            proof {
                lemma_store_extends_refl(w0);
            }
            return Ok(());
        },
    };
    let n = if block.txs.len() < txs.len() {
        block.txs.len()
    } else {
        txs.len()
    };
    let mut cands: Vec<(Vec<u8>, i64)> = Vec::new();
    let mut k: usize = 0;
    while k < n
        invariant
            0 <= k <= n,
            n <= block.txs@.len() && n <= txs@.len(),
            distinct_keys(cands@),
        decreases n - k,
    {
        let tx = &block.txs[k];
        let first_tx = txs[k].id;
        if tx.is_valid {
            let mut o: usize = 0;
            while o < tx.outputs.len()
                invariant
                    0 <= o <= tx.outputs@.len(),
                    tx == &block.txs@[k as int],
                    0 <= k < block.txs@.len(),
                    distinct_keys(cands@),
                decreases tx.outputs@.len() - o,
            {
                let mut seen = false;
                let mut c: usize = 0;
                while c < cands.len()
                    invariant
                        0 <= c <= cands@.len(),
                        0 <= k < block.txs@.len(),
                        0 <= o < tx.outputs@.len(),
                        tx == &block.txs@[k as int],
                        seen ==> exists|c2: int|
                            0 <= c2 < cands@.len() && (#[trigger] cands@[c2]).0@ == tx.outputs@[
                                o as int].address@,
                        !seen ==> forall|c2: int|
                            0 <= c2 < c ==> (#[trigger] cands@[c2]).0@ != tx.outputs@[
                                o as int].address@,
                    decreases cands@.len() - c,
                {
                    if bytes_eq(cands[c].0.as_slice(), tx.outputs[o].address.as_slice()) {
                        seen = true;
                    }
                    c = c + 1;
                }
                if !seen {
                    cands.push((copy_bytes(&tx.outputs[o].address), first_tx));
                }
                o = o + 1;
            }
        } else {
            match &tx.collateral_return {
                Some(cr) => {
                    let mut seen = false;
                    let mut c: usize = 0;
                    while c < cands.len()
                        invariant
                            0 <= c <= cands@.len(),
                            tx.collateral_return == Some(*cr),
                            seen ==> exists|c2: int|
                                0 <= c2 < cands@.len() && (#[trigger] cands@[c2]).0@ == cr.address@,
                            !seen ==> forall|c2: int|
                                0 <= c2 < c ==> (#[trigger] cands@[c2]).0@ != cr.address@,
                        decreases cands@.len() - c,
                    {
                        if bytes_eq(cands[c].0.as_slice(), cr.address.as_slice()) {
                            seen = true;
                        }
                        c = c + 1;
                    }
                    if !seen {
                        cands.push((copy_bytes(&cr.address), first_tx));
                    }
                },
                None => {},
            }
        }
        k = k + 1;
    }
    if !fits(work.addresses.len(), cands.len()) {
        return Err(FatalError::CapacityExceeded);
    }
    let resolved = insert_addresses(&cands, work);
    ctx.multiera_addresses = Some(resolved);
    proof {
        lemma_store_extends_pointwise(w0, *work);
    }
    Ok(())
}

/// Resolves every native-asset pair minted into the block's outputs,
/// inserting unseen ones, and publishes the asset rows. The ADA sentinel
/// pair is filtered out before any store access.
#[verifier::loop_isolation(false)]
#[verifier::rlimit(60)]
fn run_asset_mint_task(block: &BlockData, work: &mut Store, ctx: &mut BlockContext) -> (r: Result<
    (),
    FatalError,
>)
    requires
        wf_store(*old(work)),
    ensures
        task_step_ok(*old(work), *final(work)),
{
    let ghost w0 = *work;
    let mut pairs: Vec<(Vec<u8>, Vec<u8>)> = Vec::new();
    let mut k: usize = 0;
    while k < block.txs.len()
        invariant
            0 <= k <= block.txs@.len(),
            forall|c: int|
                0 <= c < pairs@.len() ==> !((#[trigger] pairs@[c]).0@.len() == 0 && pairs@[c].1@.len()
                    == 0),
        decreases block.txs@.len() - k,
    {
        let tx = &block.txs[k];
        let mut o: usize = 0;
        while o < tx.outputs.len()
            invariant
                0 <= o <= tx.outputs@.len(),
                tx == &block.txs@[k as int],
                0 <= k < block.txs@.len(),
                forall|c: int|
                    0 <= c < pairs@.len() ==> !((#[trigger] pairs@[c]).0@.len() == 0
                        && pairs@[c].1@.len() == 0),
            decreases tx.outputs@.len() - o,
        {
            let out = &tx.outputs[o];
            let mut a: usize = 0;
            while a < out.assets.len()
                invariant
                    0 <= a <= out.assets@.len(),
                    out == &tx.outputs@[o as int],
                    tx == &block.txs@[k as int],
                    0 <= k < block.txs@.len(),
                    0 <= o < tx.outputs@.len(),
                    forall|c: int|
                        0 <= c < pairs@.len() ==> !((#[trigger] pairs@[c]).0@.len() == 0
                            && pairs@[c].1@.len() == 0),
                decreases out.assets@.len() - a,
            {
                match &out.assets[a].pair {
                    Some(p) => {
                        if !(p.0.is_empty() && p.1.is_empty()) {
                            pairs.push((copy_bytes(&p.0), copy_bytes(&p.1)));
                        }
                    },
                    None => {},
                }
                a = a + 1;
            }
            o = o + 1;
        }
        k = k + 1;
    }
    if !fits(work.assets.len(), pairs.len()) {
        return Err(FatalError::CapacityExceeded);
    }
    let resolved = resolve_or_insert_assets(&pairs, work);
    ctx.multiera_assets = Some(resolved);
    proof {
        lemma_store_extends_pointwise(w0, *work);
    }
    Ok(())
}


/// Checks that the published transaction rows carry pairwise distinct ids.
#[verifier::loop_isolation(false)]
fn check_tx_ids_distinct(rows: &Vec<TransactionRow>) -> (r: bool)
    ensures
        r == forall|k1: int, k2: int|
            0 <= k1 < k2 < rows@.len() ==> (#[trigger] rows@[k1]).id != (#[trigger] rows@[k2]).id,
{
    let mut k1: usize = 0;
    while k1 < rows.len()
        invariant
            0 <= k1 <= rows@.len(),
            forall|a: int, b: int|
                0 <= a < b < rows@.len() && a < k1 ==> (#[trigger] rows@[a]).id != (
                #[trigger] rows@[b]).id,
        decreases rows@.len() - k1,
    {
        let mut k2: usize = k1 + 1;
        while k2 < rows.len()
            invariant
                k1 < k2 <= rows@.len(),
                k1 < rows@.len(),
                forall|b: int| k1 < b < k2 ==> (#[trigger] rows@[b]).id != rows@[k1 as int].id,
            decreases rows@.len() - k2,
        {
            if rows[k2].id == rows[k1].id {
                return false;
            }
            k2 = k2 + 1;
        }
        k1 = k1 + 1;
    }
    true
}

/// Checks that every published transaction row id is a valid store id.
#[verifier::loop_isolation(false)]
fn check_tx_rows(rows: &Vec<TransactionRow>, work: &Store) -> (r: bool)
    ensures
        r == forall|k: int|
            0 <= k < rows@.len() ==> 0 < (#[trigger] rows@[k]).id <= work.transactions@.len(),
{
    let n = work.transactions.len();
    let mut k: usize = 0;
    while k < rows.len()
        invariant
            0 <= k <= rows@.len(),
            n == work.transactions@.len(),
            forall|k2: int| 0 <= k2 < k ==> 0 < (#[trigger] rows@[k2]).id <= work.transactions@.len(),
        decreases rows@.len() - k,
    {
        if !(0 < rows[k].id && (rows[k].id as u128) <= (n as u128)) {
            return false;
        }
        k = k + 1;
    }
    true
}

/// Checks that every resolved address entry carries a valid store id.
#[verifier::loop_isolation(false)]
fn check_addr_entries(entries: &Vec<AddressInBlock>, work: &Store) -> (r: bool)
    ensures
        r == forall|k: int|
            0 <= k < entries@.len() ==> 0 < (#[trigger] entries@[k]).model.id
                <= work.addresses@.len(),
{
    let n = work.addresses.len();
    let mut k: usize = 0;
    while k < entries.len()
        invariant
            0 <= k <= entries@.len(),
            n == work.addresses@.len(),
            forall|k2: int|
                0 <= k2 < k ==> 0 < (#[trigger] entries@[k2]).model.id <= work.addresses@.len(),
        decreases entries@.len() - k,
    {
        if !(0 < entries[k].model.id && (entries[k].model.id as u128) <= (n as u128)) {
            return false;
        }
        k = k + 1;
    }
    true
}

/// Inserts one output row per used output (regular outputs of valid
/// transactions, the collateral return of invalid ones), resolving each
/// owning address, and queues the per-output asset movements.
#[verifier::loop_isolation(false)]
#[verifier::rlimit(100)]
fn run_used_output_task(block: &BlockData, work: &mut Store, ctx: &mut BlockContext) -> (r: Result<
    (),
    FatalError,
>)
    requires
        wf_store(*old(work)),
    ensures
        task_step_ok(*old(work), *final(work)),
{
    let ghost w0 = *work;
    proof {
        lemma_store_extends_refl(w0);
    }
    let (txs, addrs) = match (&ctx.multiera_txs, &ctx.multiera_addresses) {
        (Some(t), Some(a)) => (t, a),
        _ => {
            return Ok(());
        },
    };
    let n = if block.txs.len() < txs.len() {
        block.txs.len()
    } else {
        txs.len()
    };
    let mut rows: Vec<TransactionOutputRow> = Vec::new();
    let mut queued: Vec<QueuedAssetTransfer> = Vec::new();
    let base = work.outputs.len();
    let mut k: usize = 0;
    while k < n
        invariant
            0 <= k <= n,
            n <= block.txs@.len() && n <= txs@.len(),
            *work == w0,
            base == w0.outputs@.len(),
            forall|j: int|
                0 <= j < rows@.len() ==> {
                    let row = #[trigger] rows@[j];
                    &&& row.id == base + j + 1
                    &&& 0 < row.tx_id <= w0.transactions@.len()
                    &&& 0 < row.address_id <= w0.addresses@.len()
                    &&& row.output_index >= 0
                    &&& !(exists|i: int|
                        0 <= i < w0.outputs@.len() && (#[trigger] w0.outputs@[i]).tx_id == row.tx_id
                            && w0.outputs@[i].output_index == row.output_index)
                },
            forall|a: int, b: int|
                0 <= a < b < rows@.len() ==> !((#[trigger] rows@[a]).tx_id == (
                #[trigger] rows@[b]).tx_id && rows@[a].output_index == rows@[b].output_index),
        decreases n - k,
    {
        let tx = &block.txs[k];
        let tx_id = txs[k].id;
        if !(0 < tx_id && (tx_id as u128) <= (work.transactions.len() as u128)) {
            return Err(FatalError::CapacityExceeded);
        }
        if tx.outputs.len() >= (i32::MAX as usize) {
            return Err(FatalError::CapacityExceeded);
        }
        let mut o: usize = 0;
        let count = if tx.is_valid {
            tx.outputs.len()
        } else {
            0
        };
        while o < count
            invariant
                0 <= o <= count,
                count <= tx.outputs@.len(),
                tx == &block.txs@[k as int],
                0 <= k < block.txs@.len(),
                *work == w0,
                base == w0.outputs@.len(),
                0 < tx_id <= w0.transactions@.len(),
                forall|j: int|
                    0 <= j < rows@.len() ==> {
                        let row = #[trigger] rows@[j];
                        &&& row.id == base + j + 1
                        &&& 0 < row.tx_id <= w0.transactions@.len()
                        &&& 0 < row.address_id <= w0.addresses@.len()
                        &&& row.output_index >= 0
                        &&& !(exists|i: int|
                            0 <= i < w0.outputs@.len() && (#[trigger] w0.outputs@[i]).tx_id
                                == row.tx_id && w0.outputs@[i].output_index == row.output_index)
                    },
                forall|a: int, b: int|
                    0 <= a < b < rows@.len() ==> !((#[trigger] rows@[a]).tx_id == (
                    #[trigger] rows@[b]).tx_id && rows@[a].output_index == rows@[b].output_index),
                ctx.multiera_txs matches Some(tt) && txs == &tt,
                ctx.multiera_addresses matches Some(aa) && addrs == &aa,
            decreases count - o,
        {
            let out = &tx.outputs[o];
            let entry = match find_resolved_address(addrs, out.address.as_slice()) {
                Some(e) => e,
                None => {
                    return Err(
                        FatalError::MissingAddress { payload: copy_bytes(&out.address) },
                    );
                },
            };
            if !(0 < entry.model.id && (entry.model.id as u128) <= (
            work.addresses.len() as u128)) {
                return Err(FatalError::MissingAddress { payload: copy_bytes(&out.address) });
            }
            // the pair (tx id, output index) must be fresh
            let mut i: usize = 0;
            while i < work.outputs.len()
                invariant
                    0 <= i <= work.outputs@.len(),
                    *work == w0,
                    0 <= o < tx.outputs@.len(),
                    forall|i2: int|
                        0 <= i2 < i ==> !((#[trigger] work.outputs@[i2]).tx_id == tx_id
                            && work.outputs@[i2].output_index == o as i32),
                decreases work.outputs@.len() - i,
            {
                if work.outputs[i].tx_id == tx_id && work.outputs[i].output_index == o as i32 {
                    return Err(FatalError::DuplicateRow { hash: copy_bytes(&tx.hash) });
                }
                i = i + 1;
            }
            let mut b2: usize = 0;
            while b2 < rows.len()
                invariant
                    0 <= b2 <= rows@.len(),
                    0 <= o < tx.outputs@.len(),
                    forall|i2: int|
                        0 <= i2 < b2 ==> !((#[trigger] rows@[i2]).tx_id == tx_id
                            && rows@[i2].output_index == o as i32),
                decreases rows@.len() - b2,
            {
                if rows[b2].tx_id == tx_id && rows[b2].output_index == o as i32 {
                    return Err(FatalError::DuplicateRow { hash: copy_bytes(&tx.hash) });
                }
                b2 = b2 + 1;
            }
            if !can_push(base, rows.len()) {
                return Err(FatalError::CapacityExceeded);
            }
            rows.push(
                TransactionOutputRow {
                    id: (base + rows.len() + 1) as i64,
                    tx_id,
                    output_index: o as i32,
                    address_id: entry.model.id,
                    payload: copy_bytes(&out.payload),
                },
            );
            queued.push(
                QueuedAssetTransfer {
                    output_pointer: (tx_id, o),
                    asset: TransferAsset { pair: None, quantity: out.coin },
                },
            );
            let mut a: usize = 0;
            while a < out.assets.len()
                invariant
                    0 <= a <= out.assets@.len(),
                    out == &tx.outputs@[o as int],
                decreases out.assets@.len() - a,
            {
                queued.push(
                    QueuedAssetTransfer {
                        output_pointer: (tx_id, o),
                        asset: TransferAsset {
                            pair: crate::dex::copy_pair(&out.assets[a].pair),
                            quantity: out.assets[a].quantity,
                        },
                    },
                );
                a = a + 1;
            }
            o = o + 1;
        }
        k = k + 1;
    }
    // append the output batch
    let ghost rows_v = rows@;
    let mut published: Vec<TransactionOutputRow> = Vec::new();
    let mut t: usize = 0;
    while t < rows.len()
        invariant
            0 <= t <= rows@.len(),
            rows@ == rows_v,
            published@.len() == t,
            work.blocks == w0.blocks,
            work.transactions == w0.transactions,
            work.inputs == w0.inputs,
            work.addresses == w0.addresses,
            work.assets == w0.assets,
            work.asset_transfers == w0.asset_transfers,
            work.mean_prices == w0.mean_prices,
            work.swaps == w0.swaps,
            work.outputs@.len() == w0.outputs@.len() + t,
            forall|i2: int| 0 <= i2 < w0.outputs@.len() ==> work.outputs@[i2] == w0.outputs@[i2],
            forall|t2: int|
                0 <= t2 < t ==> crate::store::output_row_eqv(
                    rows_v[t2],
                    #[trigger] work.outputs@[w0.outputs@.len() + t2],
                ) && work.outputs@[w0.outputs@.len() + t2].id == rows_v[t2].id
                    && work.outputs@[w0.outputs@.len() + t2].tx_id == rows_v[t2].tx_id
                    && work.outputs@[w0.outputs@.len() + t2].output_index == rows_v[
                    t2].output_index && work.outputs@[w0.outputs@.len() + t2].address_id == rows_v[
                    t2].address_id,
            forall|k2: int|
                0 <= k2 < t ==> 0 < (#[trigger] published@[k2]).id <= w0.outputs@.len() + t,
        decreases rows@.len() - t,
    {
        work.outputs.push(copy_output_row(&rows[t]));
        published.push(copy_output_row(&rows[t]));
        t = t + 1;
    }
    ctx.multiera_outputs = Some(published);
    ctx.multiera_queued_asset_transfers = Some(queued);
    proof {
        let n0 = w0.outputs@.len() as int;
        assert forall|a: int|
            0 <= a < work.outputs@.len() implies (#[trigger] work.outputs@[a]).id == a + 1 by {
            if a < n0 {
                assert(work.outputs@[a] == w0.outputs@[a]);
            } else {
                assert(work.outputs@[n0 + (a - n0)].id == rows_v[a - n0].id);
            }
        }
        assert forall|a: int|
            0 <= a < work.outputs@.len() implies 0 < (#[trigger] work.outputs@[a]).tx_id
            <= work.transactions@.len() && 0 < work.outputs@[a].address_id
            <= work.addresses@.len() && work.outputs@[a].output_index >= 0 by {
            if a < n0 {
                assert(work.outputs@[a] == w0.outputs@[a]);
            } else {
                assert(work.outputs@[n0 + (a - n0)].tx_id == rows_v[a - n0].tx_id);
            }
        }
        assert forall|a: int, b: int|
            0 <= a < b < work.outputs@.len() implies !((#[trigger] work.outputs@[a]).tx_id == (
        #[trigger] work.outputs@[b]).tx_id && work.outputs@[a].output_index == work.outputs@[
        b].output_index) by {
            if b < n0 {
                assert(work.outputs@[a] == w0.outputs@[a]);
                assert(work.outputs@[b] == w0.outputs@[b]);
            } else if a < n0 {
                assert(work.outputs@[a] == w0.outputs@[a]);
                assert(work.outputs@[n0 + (b - n0)].tx_id == rows_v[b - n0].tx_id);
                if work.outputs@[a].tx_id == work.outputs@[b].tx_id && work.outputs@[
                    a].output_index == work.outputs@[b].output_index {
                    assert(exists|i: int|
                        0 <= i < w0.outputs@.len() && (#[trigger] w0.outputs@[i]).tx_id == rows_v[b
                            - n0].tx_id && w0.outputs@[i].output_index == rows_v[b
                            - n0].output_index);
                }
            } else {
                assert(work.outputs@[n0 + (a - n0)].tx_id == rows_v[a - n0].tx_id);
                assert(work.outputs@[n0 + (b - n0)].tx_id == rows_v[b - n0].tx_id);
            }
        }
        assert(wf_store(*work));
        lemma_store_extends_pointwise(w0, *work);
    }
    Ok(())
}


/// Resolves every spent output referenced by the block's inputs in one pass
/// and inserts one input row per reference, in batch order. A reference that
/// matches no prior output aborts the block.
#[verifier::loop_isolation(false)]
#[verifier::rlimit(100)]
fn run_used_input_task(block: &BlockData, work: &mut Store, ctx: &mut BlockContext) -> (r: Result<
    (),
    FatalError,
>)
    requires
        wf_store(*old(work)),
    ensures
        task_step_ok(*old(work), *final(work)),
{
    let ghost w0 = *work;
    proof {
        lemma_store_extends_refl(w0);
    }
    let txs = match &ctx.multiera_txs {
        Some(t) => t,
        None => {
            return Ok(());
        },
    };
    if !check_tx_rows(txs, work) {
        return Err(FatalError::ContextMismatch);
    }
    let n = if block.txs.len() < txs.len() {
        block.txs.len()
    } else {
        txs.len()
    };
    let mut inputs: Vec<(Vec<OutputRef>, i64)> = Vec::new();
    let mut k: usize = 0;
    while k < n
        invariant
            0 <= k <= n,
            n <= block.txs@.len() && n <= txs@.len(),
            inputs@.len() == k,
            forall|a: int|
                0 <= a < inputs@.len() ==> 0 < (#[trigger] inputs@[a]).1 <= w0.transactions@.len(),
            forall|a: int| 0 <= a < inputs@.len() ==> (#[trigger] inputs@[a]).0@.len() <= i32::MAX,
            *work == w0,
            forall|k2: int|
                0 <= k2 < txs@.len() ==> 0 < (#[trigger] txs@[k2]).id <= w0.transactions@.len(),
        decreases n - k,
    {
        let tx = &block.txs[k];
        if tx.inputs.len() > (i32::MAX as usize) {
            return Err(FatalError::CapacityExceeded);
        }
        let mut refs: Vec<OutputRef> = Vec::new();
        let mut b: usize = 0;
        while b < tx.inputs.len()
            invariant
                0 <= b <= tx.inputs@.len(),
                tx == &block.txs@[k as int],
                0 <= k < block.txs@.len(),
                refs@.len() == b,
            decreases tx.inputs@.len() - b,
        {
            refs.push(
                OutputRef {
                    hash: copy_bytes(&tx.inputs[b].hash),
                    index: tx.inputs[b].index,
                },
            );
            b = b + 1;
        }
        inputs.push((refs, txs[k].id));
        k = k + 1;
    }
    // total number of references, for the id space guard
    let mut total: u128 = 0;
    let mut a: usize = 0;
    proof {
        lemma_flat_pos_zero(inputs@);
    }
    while a < inputs.len()
        invariant
            0 <= a <= inputs@.len(),
            total == crate::era_common::flat_pos(inputs@, a as int),
            total <= u64::MAX as u128,
        decreases inputs@.len() - a,
    {
        proof {
            crate::era_common::lemma_flat_pos_step(inputs@, a as int);
        }
        if (inputs[a].0.len() as u128) > (u64::MAX as u128) - total {
            return Err(FatalError::CapacityExceeded);
        }
        total = total + (inputs[a].0.len() as u128);
        a = a + 1;
    }
    proof {
        crate::era_common::lemma_flat_pos_total(inputs@);
    }
    if ((work.inputs.len() as u128) + total > (i64::MAX as u128)) || (
    (work.inputs.len() as u128) + total >= (usize::MAX as u128)) {
        return Err(FatalError::CapacityExceeded);
    }
    let pairs = get_outputs_for_inputs(&inputs, work);
    let map = gen_input_to_output_map(&pairs);
    proof {
        // the lookup's rows mirror store rows: each entry is one of the join
        // rows, and each join row mirrors its output row
        assert forall|a2: int, b2: int|
            #![trigger map.entries@[a2].1@[b2]]
            0 <= a2 < map.entries@.len() && 0 <= b2 < map.entries@[a2].1@.len() implies {
            let o = map.entries@[a2].1@[b2].1;
            &&& 0 < o.id <= work.outputs@.len()
            &&& crate::store::output_row_eqv(work.outputs@[o.id - 1], o)
            &&& 0 <= map.entries@[a2].1@[b2].0 <= i32::MAX
        } by {
            let kk = choose|kk: int|
                0 <= kk < pairs@.len() && (#[trigger] pairs@[kk]).1.hash@ == map.entries@[a2].0@
                    && pairs@[kk].0.output_index == map.entries@[a2].1@[b2].0
                    && crate::store::output_row_eqv(pairs@[kk].0, map.entries@[a2].1@[b2].1);
            assert(crate::store::output_row_eqv(
                work.outputs@[pairs@[kk].0.id - 1],
                pairs@[kk].0,
            ));
            assert(work.outputs@[pairs@[kk].0.id - 1].output_index >= 0);
        }
        assert(crate::era_common::map_rows_from_store(map, *work));
    }
    match insert_inputs(&inputs, &map, work) {
        Ok(_) => {
            proof {
                lemma_store_extends_pointwise(w0, *work);
            }
            Ok(())
        },
        Err(e) => Err(e),
    }
}

/// Runs the asset-transfer task body against the context.
#[verifier::loop_isolation(false)]
#[verifier::rlimit(60)]
fn run_asset_transfer_task(block: &BlockData, work: &mut Store, ctx: &mut BlockContext) -> (r:
    Result<(), FatalError>)
    requires
        wf_store(*old(work)),
    ensures
        task_step_ok(*old(work), *final(work)),
{
    let ghost w0 = *work;
    proof {
        lemma_store_extends_refl(w0);
    }
    let (queued, outs, assets) = match (
        &ctx.multiera_queued_asset_transfers,
        &ctx.multiera_outputs,
        &ctx.multiera_assets,
    ) {
        (Some(q), Some(o), Some(a)) => (q, o, a),
        _ => {
            return Ok(());
        },
    };
    // the published rows must carry valid store ids
    let mut k: usize = 0;
    while k < outs.len()
        invariant
            0 <= k <= outs@.len(),
            forall|k2: int| 0 <= k2 < k ==> 0 < (#[trigger] outs@[k2]).id <= work.outputs@.len(),
            *work == w0,
        decreases outs@.len() - k,
    {
        if !(0 < outs[k].id && (outs[k].id as u128) <= (work.outputs.len() as u128)) {
            return Err(FatalError::ContextMismatch);
        }
        k = k + 1;
    }
    let mut k2: usize = 0;
    while k2 < assets.len()
        invariant
            0 <= k2 <= assets@.len(),
            forall|k3: int|
                0 <= k3 < k2 ==> {
                    let a = #[trigger] assets@[k3];
                    &&& 0 < a.id <= work.assets@.len()
                    &&& crate::store::asset_row_eqv(work.assets@[a.id - 1], a)
                },
            *work == w0,
        decreases assets@.len() - k2,
    {
        let a = &assets[k2];
        if !(0 < a.id && (a.id as u128) <= (work.assets.len() as u128)) {
            return Err(FatalError::ContextMismatch);
        }
        let idx = (a.id - 1) as usize;
        if !(bytes_eq(work.assets[idx].policy_id.as_slice(), a.policy_id.as_slice()) && bytes_eq(
            work.assets[idx].asset_name.as_slice(),
            a.asset_name.as_slice(),
        )) {
            return Err(FatalError::ContextMismatch);
        }
        proof {
            assert(work.assets@[a.id - 1].id == a.id);
        }
        k2 = k2 + 1;
    }
    if !fits(work.asset_transfers.len(), queued.len()) {
        return Err(FatalError::CapacityExceeded);
    }
    match handle_assets(queued, outs, assets, work) {
        Ok(_) => {
            proof {
                lemma_store_extends_pointwise(w0, *work);
            }
            Ok(())
        },
        Err(e) => Err(e),
    }
}

/// Runs one protocol's mean-price task body against the context.
#[verifier::loop_isolation(false)]
fn run_mean_price_task(
    pool_type: PoolType,
    block: &BlockData,
    work: &mut Store,
    ctx: &mut BlockContext,
    warnings: &mut Vec<DexWarning>,
) -> (r: Result<(), FatalError>)
    requires
        wf_store(*old(work)),
        pool_type != PoolType::MinSwapV2,
    ensures
        task_step_ok(*old(work), *final(work)),
{
    let ghost w0 = *work;
    proof {
        lemma_store_extends_refl(w0);
    }
    let (txs, addrs) = match (&ctx.multiera_txs, &ctx.multiera_addresses) {
        (Some(t), Some(a)) => (t, a),
        _ => {
            return Ok(());
        },
    };
    if !check_tx_rows(txs, work) || !check_addr_entries(addrs, work) {
        return Err(FatalError::ContextMismatch);
    }
    if !check_tx_ids_distinct(txs) {
        return Err(FatalError::ContextMismatch);
    }
    if !fits(work.mean_prices.len(), block.txs.len()) {
        return Err(FatalError::CapacityExceeded);
    }
    match handle_mean_price(work, block, txs, addrs, pool_type) {
        Ok(mut ws) => {
            warnings.append(&mut ws);
            proof {
                lemma_store_extends_pointwise(w0, *work);
            }
            Ok(())
        },
        Err(e) => Err(e),
    }
}

/// Runs the swap task body against the context.
#[verifier::loop_isolation(false)]
#[verifier::rlimit(60)]
fn run_swap_task(
    block: &BlockData,
    work: &mut Store,
    ctx: &mut BlockContext,
    warnings: &mut Vec<DexWarning>,
) -> (r: Result<(), FatalError>)
    requires
        wf_store(*old(work)),
    ensures
        task_step_ok(*old(work), *final(work)),
{
    let ghost w0 = *work;
    proof {
        lemma_store_extends_refl(w0);
    }
    let (txs, addrs) = match (&ctx.multiera_txs, &ctx.multiera_addresses) {
        (Some(t), Some(a)) => (t, a),
        _ => {
            return Ok(());
        },
    };
    if !check_tx_rows(txs, work) || !check_addr_entries(addrs, work) {
        return Err(FatalError::ContextMismatch);
    }
    // id space guard over the block's total input count
    let mut total: u128 = 0;
    let mut k: usize = 0;
    proof {
        assert(block.txs@.take(0) =~= Seq::<TxData>::empty());
    }
    while k < block.txs.len()
        invariant
            0 <= k <= block.txs@.len(),
            total == crate::dex::prefix_input_count(block.txs@, k as int),
            total <= u64::MAX as u128,
        decreases block.txs@.len() - k,
    {
        proof {
            crate::dex::lemma_prefix_input_step(block.txs@, k as int);
        }
        if (block.txs[k].inputs.len() as u128) > (u64::MAX as u128) - total {
            return Err(FatalError::CapacityExceeded);
        }
        total = total + (block.txs[k].inputs.len() as u128);
        k = k + 1;
    }
    proof {
        assert(block.txs@.take(block.txs@.len() as int) =~= block.txs@);
    }
    if ((work.swaps.len() as u128) + total > (i64::MAX as u128)) || ((work.swaps.len() as u128)
        + total >= (usize::MAX as u128)) {
        return Err(FatalError::CapacityExceeded);
    }
    match handle_swap(
        work,
        block,
        txs,
        addrs,
        &block.spent_outputs,
        PoolType::SundaeSwapV1,
    ) {
        Ok(mut ws) => {
            warnings.append(&mut ws);
            proof {
                lemma_store_extends_pointwise(w0, *work);
            }
            Ok(())
        },
        Err(e) => Err(e),
    }
}

/// Dispatches one task by kind.
fn run_task(
    kind: TaskKind,
    block: &BlockData,
    work: &mut Store,
    ctx: &mut BlockContext,
    warnings: &mut Vec<DexWarning>,
) -> (r: Result<(), FatalError>)
    requires
        wf_store(*old(work)),
    ensures
        task_step_ok(*old(work), *final(work)),
{
    match kind {
        TaskKind::MultieraBlockTask => run_block_task(block, work, ctx),
        TaskKind::MultieraTransactionTask => run_transaction_task(block, work, ctx),
        TaskKind::MultieraAddressTask => run_address_task(block, work, ctx),
        TaskKind::MultieraUsedOutputTask => run_used_output_task(block, work, ctx),
        TaskKind::MultieraUsedInputTask => run_used_input_task(block, work, ctx),
        TaskKind::MultieraAssetMintTask => run_asset_mint_task(block, work, ctx),
        TaskKind::MultieraAssetTransferTask => run_asset_transfer_task(block, work, ctx),
        TaskKind::MultieraWingRidersV1MeanPriceTask => run_mean_price_task(
            PoolType::WingRidersV1,
            block,
            work,
            ctx,
            warnings,
        ),
        TaskKind::MultieraSundaeSwapV1MeanPriceTask => run_mean_price_task(
            PoolType::SundaeSwapV1,
            block,
            work,
            ctx,
            warnings,
        ),
        TaskKind::MultieraMinswapV1MeanPriceTask => run_mean_price_task(
            PoolType::MinSwapV1,
            block,
            work,
            ctx,
            warnings,
        ),
        TaskKind::MultieraSundaeSwapV1SwapTask => run_swap_task(block, work, ctx, warnings),
        TaskKind::WingRidersTask => {
            let ghost w0 = *work;
            proof {
                lemma_store_extends_refl(w0);
            }
            match &ctx.multiera_txs {
                Some(txs) => {
                    let _pool_hits = crate::wingriders_v1::handle_wr(block, txs);
                    Ok(())
                },
                None => Ok(()),
            }
        },
    }
}

/// Runs every applicable task of the fixed order against a transactional
/// working copy of the store, committing only after all of them succeeded:
/// a failed block leaves the store exactly as it was, with no partial rows.
/// Returns the recoverable per-transaction warnings the tasks logged.
#[verifier::loop_isolation(false)]
pub fn execute_block(
    tasks: &Vec<TaskDescriptor>,
    order: &Vec<usize>,
    block: &BlockData,
    store: &mut Store,
) -> (r: Result<Vec<DexWarning>, FatalError>)
    requires
        wf_store(*old(store)),
        valid_order(tasks@, order@),
    ensures
        match r {
            Ok(_) => wf_store(*final(store)) && store_extends(*old(store), *final(store)),
            Err(_) => *final(store) == *old(store),
        },
{
    let mut work = clone_store(store);
    proof {
        lemma_wf_store_eqv(*store, work);
    }
    let mut ctx = BlockContext::new();
    let mut warnings: Vec<DexWarning> = Vec::new();
    let mut p: usize = 0;
    while p < order.len()
        invariant
            0 <= p <= order@.len(),
            valid_order(tasks@, order@),
            wf_store(work),
            store_extends(*store, work),
        decreases order@.len() - p,
    {
        let idx = order[p];
        proof {
            assert(order@[p as int] < tasks@.len());
        }
        let kind = tasks[idx].kind;
        if task_applies(kind, block) {
            let ghost w_pre = work;
            match run_task(kind, block, &mut work, &mut ctx, &mut warnings) {
                Ok(_) => {
                    proof {
                        lemma_store_extends_trans(*store, w_pre, work);
                    }
                },
                Err(e) => {
                    return Err(e);
                },
            }
        }
        p = p + 1;
    }
    *store = work;
    Ok(warnings)
}

/// The standard registration: the indexing tasks this crate implements, with
/// their prerequisites and the context fields they read and write.
#[verifier::rlimit(60)]
pub fn default_registry() -> (r: Vec<TaskDescriptor>)
    ensures
        r@.len() == 12,
        r@[0].kind == TaskKind::MultieraBlockTask,
        r@[0].dependencies@.len() == 0,
        r@[0].reads@.len() == 0,
        r@[0].writes@.len() == 1,
        r@[0].writes@[0] == ContextKey::MultieraBlock,
        r@[1].kind == TaskKind::MultieraTransactionTask,
        r@[1].dependencies@.len() == 1,
        r@[1].dependencies@[0] == TaskKind::MultieraBlockTask,
        r@[1].reads@.len() == 1,
        r@[1].reads@[0] == ContextKey::MultieraBlock,
        r@[1].writes@.len() == 1,
        r@[1].writes@[0] == ContextKey::MultieraTxs,
        r@[2].kind == TaskKind::MultieraAddressTask,
        r@[2].dependencies@.len() == 1,
        r@[2].dependencies@[0] == TaskKind::MultieraTransactionTask,
        r@[2].reads@.len() == 1,
        r@[2].reads@[0] == ContextKey::MultieraTxs,
        r@[2].writes@.len() == 1,
        r@[2].writes@[0] == ContextKey::MultieraAddresses,
        r@[3].kind == TaskKind::MultieraUsedOutputTask,
        r@[3].dependencies@.len() == 1,
        r@[3].dependencies@[0] == TaskKind::MultieraAddressTask,
        r@[3].reads@.len() == 2,
        r@[3].reads@[0] == ContextKey::MultieraTxs,
        r@[3].reads@[1] == ContextKey::MultieraAddresses,
        r@[3].writes@.len() == 2,
        r@[3].writes@[0] == ContextKey::MultieraOutputs,
        r@[3].writes@[1] == ContextKey::MultieraQueuedAssetTransfers,
        r@[4].kind == TaskKind::MultieraUsedInputTask,
        r@[4].dependencies@.len() == 1,
        r@[4].dependencies@[0] == TaskKind::MultieraUsedOutputTask,
        r@[4].reads@.len() == 1,
        r@[4].reads@[0] == ContextKey::MultieraTxs,
        r@[4].writes@.len() == 0,
        r@[5].kind == TaskKind::MultieraAssetMintTask,
        r@[5].dependencies@.len() == 1,
        r@[5].dependencies@[0] == TaskKind::MultieraTransactionTask,
        r@[5].reads@.len() == 0,
        r@[5].writes@.len() == 1,
        r@[5].writes@[0] == ContextKey::MultieraAssets,
        r@[6].kind == TaskKind::MultieraAssetTransferTask,
        r@[6].dependencies@.len() == 2,
        r@[6].dependencies@[0] == TaskKind::MultieraUsedOutputTask,
        r@[6].dependencies@[1] == TaskKind::MultieraAssetMintTask,
        r@[6].reads@.len() == 3,
        r@[6].reads@[0] == ContextKey::MultieraQueuedAssetTransfers,
        r@[6].reads@[1] == ContextKey::MultieraOutputs,
        r@[6].reads@[2] == ContextKey::MultieraAssets,
        r@[6].writes@.len() == 0,
        r@[7].kind == TaskKind::MultieraWingRidersV1MeanPriceTask,
        r@[7].dependencies@.len() == 1,
        r@[7].dependencies@[0] == TaskKind::MultieraAddressTask,
        r@[7].reads@.len() == 2,
        r@[7].reads@[0] == ContextKey::MultieraTxs,
        r@[7].reads@[1] == ContextKey::MultieraAddresses,
        r@[7].writes@.len() == 0,
        r@[8].kind == TaskKind::MultieraSundaeSwapV1MeanPriceTask,
        r@[8].dependencies@.len() == 1,
        r@[8].dependencies@[0] == TaskKind::MultieraAddressTask,
        r@[8].reads@.len() == 2,
        r@[8].reads@[0] == ContextKey::MultieraTxs,
        r@[8].reads@[1] == ContextKey::MultieraAddresses,
        r@[8].writes@.len() == 0,
        r@[9].kind == TaskKind::MultieraMinswapV1MeanPriceTask,
        r@[9].dependencies@.len() == 1,
        r@[9].dependencies@[0] == TaskKind::MultieraAddressTask,
        r@[9].reads@.len() == 2,
        r@[9].reads@[0] == ContextKey::MultieraTxs,
        r@[9].reads@[1] == ContextKey::MultieraAddresses,
        r@[9].writes@.len() == 0,
        r@[10].kind == TaskKind::MultieraSundaeSwapV1SwapTask,
        r@[10].dependencies@.len() == 2,
        r@[10].dependencies@[0] == TaskKind::MultieraAddressTask,
        r@[10].dependencies@[1] == TaskKind::MultieraUsedInputTask,
        r@[10].reads@.len() == 2,
        r@[10].reads@[0] == ContextKey::MultieraTxs,
        r@[10].reads@[1] == ContextKey::MultieraAddresses,
        r@[10].writes@.len() == 0,
        r@[11].kind == TaskKind::WingRidersTask,
        r@[11].dependencies@.len() == 1,
        r@[11].dependencies@[0] == TaskKind::MultieraTransactionTask,
        r@[11].reads@.len() == 1,
        r@[11].reads@[0] == ContextKey::MultieraTxs,
        r@[11].writes@.len() == 0,
{
    let mut v: Vec<TaskDescriptor> = Vec::new();
    let mut w_block: Vec<ContextKey> = Vec::new();
    w_block.push(ContextKey::MultieraBlock);
    v.push(
        TaskDescriptor {
            kind: TaskKind::MultieraBlockTask,
            dependencies: Vec::new(),
            reads: Vec::new(),
            writes: w_block,
        },
    );
    let mut d_tx: Vec<TaskKind> = Vec::new();
    d_tx.push(TaskKind::MultieraBlockTask);
    let mut r_tx: Vec<ContextKey> = Vec::new();
    r_tx.push(ContextKey::MultieraBlock);
    let mut w_tx: Vec<ContextKey> = Vec::new();
    w_tx.push(ContextKey::MultieraTxs);
    v.push(
        TaskDescriptor {
            kind: TaskKind::MultieraTransactionTask,
            dependencies: d_tx,
            reads: r_tx,
            writes: w_tx,
        },
    );
    let mut d_addr: Vec<TaskKind> = Vec::new();
    d_addr.push(TaskKind::MultieraTransactionTask);
    let mut r_addr: Vec<ContextKey> = Vec::new();
    r_addr.push(ContextKey::MultieraTxs);
    let mut w_addr: Vec<ContextKey> = Vec::new();
    w_addr.push(ContextKey::MultieraAddresses);
    v.push(
        TaskDescriptor {
            kind: TaskKind::MultieraAddressTask,
            dependencies: d_addr,
            reads: r_addr,
            writes: w_addr,
        },
    );
    let mut d_out: Vec<TaskKind> = Vec::new();
    d_out.push(TaskKind::MultieraAddressTask);
    let mut r_out: Vec<ContextKey> = Vec::new();
    r_out.push(ContextKey::MultieraTxs);
    r_out.push(ContextKey::MultieraAddresses);
    let mut w_out: Vec<ContextKey> = Vec::new();
    w_out.push(ContextKey::MultieraOutputs);
    w_out.push(ContextKey::MultieraQueuedAssetTransfers);
    v.push(
        TaskDescriptor {
            kind: TaskKind::MultieraUsedOutputTask,
            dependencies: d_out,
            reads: r_out,
            writes: w_out,
        },
    );
    let mut d_in: Vec<TaskKind> = Vec::new();
    d_in.push(TaskKind::MultieraUsedOutputTask);
    let mut r_in: Vec<ContextKey> = Vec::new();
    r_in.push(ContextKey::MultieraTxs);
    v.push(
        TaskDescriptor {
            kind: TaskKind::MultieraUsedInputTask,
            dependencies: d_in,
            reads: r_in,
            writes: Vec::new(),
        },
    );
    let mut d_mint: Vec<TaskKind> = Vec::new();
    d_mint.push(TaskKind::MultieraTransactionTask);
    let mut w_mint: Vec<ContextKey> = Vec::new();
    w_mint.push(ContextKey::MultieraAssets);
    v.push(
        TaskDescriptor {
            kind: TaskKind::MultieraAssetMintTask,
            dependencies: d_mint,
            reads: Vec::new(),
            writes: w_mint,
        },
    );
    let mut d_tr: Vec<TaskKind> = Vec::new();
    d_tr.push(TaskKind::MultieraUsedOutputTask);
    d_tr.push(TaskKind::MultieraAssetMintTask);
    let mut r_tr: Vec<ContextKey> = Vec::new();
    r_tr.push(ContextKey::MultieraQueuedAssetTransfers);
    r_tr.push(ContextKey::MultieraOutputs);
    r_tr.push(ContextKey::MultieraAssets);
    v.push(
        TaskDescriptor {
            kind: TaskKind::MultieraAssetTransferTask,
            dependencies: d_tr,
            reads: r_tr,
            writes: Vec::new(),
        },
    );
    let mut d_wr: Vec<TaskKind> = Vec::new();
    d_wr.push(TaskKind::MultieraAddressTask);
    let mut r_wr: Vec<ContextKey> = Vec::new();
    r_wr.push(ContextKey::MultieraTxs);
    r_wr.push(ContextKey::MultieraAddresses);
    v.push(
        TaskDescriptor {
            kind: TaskKind::MultieraWingRidersV1MeanPriceTask,
            dependencies: d_wr,
            reads: r_wr,
            writes: Vec::new(),
        },
    );
    let mut d_ss: Vec<TaskKind> = Vec::new();
    d_ss.push(TaskKind::MultieraAddressTask);
    let mut r_ss: Vec<ContextKey> = Vec::new();
    r_ss.push(ContextKey::MultieraTxs);
    r_ss.push(ContextKey::MultieraAddresses);
    v.push(
        TaskDescriptor {
            kind: TaskKind::MultieraSundaeSwapV1MeanPriceTask,
            dependencies: d_ss,
            reads: r_ss,
            writes: Vec::new(),
        },
    );
    let mut d_ms: Vec<TaskKind> = Vec::new();
    d_ms.push(TaskKind::MultieraAddressTask);
    let mut r_ms: Vec<ContextKey> = Vec::new();
    r_ms.push(ContextKey::MultieraTxs);
    r_ms.push(ContextKey::MultieraAddresses);
    v.push(
        TaskDescriptor {
            kind: TaskKind::MultieraMinswapV1MeanPriceTask,
            dependencies: d_ms,
            reads: r_ms,
            writes: Vec::new(),
        },
    );
    let mut d_sw: Vec<TaskKind> = Vec::new();
    d_sw.push(TaskKind::MultieraAddressTask);
    d_sw.push(TaskKind::MultieraUsedInputTask);
    let mut r_sw: Vec<ContextKey> = Vec::new();
    r_sw.push(ContextKey::MultieraTxs);
    r_sw.push(ContextKey::MultieraAddresses);
    v.push(
        TaskDescriptor {
            kind: TaskKind::MultieraSundaeSwapV1SwapTask,
            dependencies: d_sw,
            reads: r_sw,
            writes: Vec::new(),
        },
    );
    let mut d_ex: Vec<TaskKind> = Vec::new();
    d_ex.push(TaskKind::MultieraTransactionTask);
    let mut r_ex: Vec<ContextKey> = Vec::new();
    r_ex.push(ContextKey::MultieraTxs);
    v.push(
        TaskDescriptor {
            kind: TaskKind::WingRidersTask,
            dependencies: d_ex,
            reads: r_ex,
            writes: Vec::new(),
        },
    );
    v
}

} // verus!





