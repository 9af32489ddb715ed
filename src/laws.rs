//! Properties that version assignment guarantees, proved over the rules in `model`.
use vstd::prelude::*;
use crate::model::{
    assign_all, assign_one, base_versions, cancellation_of, effects_assignment,
    first_missing_lineage, is_mutated, lamport_inputs, lamport_version, max_version,
    observed_assignment, recorded_version_of,
};
use crate::schedulable::{EpochStartConfig, ExecutableTransaction, Schedulable};
use crate::types::{
    AssignError, CancelConsensusCertificateReason, ConsensusObjectSequenceKey, ObjectKey,
    SequenceNumber, SharedInputObject, TransactionDigest,
};

verus! {

/// No element of a list of versions exceeds its maximum.
pub proof fn lemma_max_version_bounds(s: Seq<SequenceNumber>, i: int)
    requires
        0 <= i < s.len(),
    ensures
        s[i] <= max_version(s),
    decreases s.len(),
{
    if i < s.len() - 1 {
        lemma_max_version_bounds(s.drop_last(), i);
    }
}

proof fn lemma_all_present(
    shared: Seq<SharedInputObject>,
    table: Map<ConsensusObjectSequenceKey, SequenceNumber>,
    j: int,
)
    requires
        first_missing_lineage(shared, table) is None,
        0 <= j < shared.len(),
    ensures
        table.contains_key(shared[j].lineage()),
    decreases shared.len(),
{
    if j > 0 {
        lemma_all_present(shared.drop_first(), table, j - 1);
    }
}

/// Lamport step: when an item that was not cancelled mutates a lineage, the
/// lineage moves to one more than the largest version among all of the item's
/// inputs, which is above every one of them and so above the lineage's
/// previous version.
pub proof fn lemma_lamport_advance(
    config: EpochStartConfig,
    item: Schedulable,
    table: Map<ConsensusObjectSequenceKey, SequenceNumber>,
    cancelled: Map<TransactionDigest, CancelConsensusCertificateReason>,
    j: int,
)
    requires
        assign_one(config, item, table, cancelled) is Ok,
        cancellation_of(item, cancelled) is None,
        item.spec_shared_inputs(config) matches Some(shared) && 0 <= j < shared.len()
            && shared[j].mutable,
    ensures
        ({
            let shared = item.spec_shared_inputs(config)->Some_0;
            let inputs = lamport_inputs(item, shared, table);
            let after = assign_one(config, item, table, cancelled)->Ok_0.1;
            &&& table.contains_key(shared[j].lineage())
            &&& after.contains_key(shared[j].lineage())
            &&& after[shared[j].lineage()] == lamport_version(inputs)
            &&& forall|i: int| 0 <= i < inputs.len() ==> inputs[i] < after[shared[j].lineage()]
            &&& table[shared[j].lineage()] < after[shared[j].lineage()]
        }),
{
    let shared = item.spec_shared_inputs(config)->Some_0;
    let inputs = lamport_inputs(item, shared, table);
    let k = shared[j].lineage();
    lemma_all_present(shared, table, j);
    assert(is_mutated(shared, k));
    assert forall|i: int| 0 <= i < inputs.len() implies inputs[i] < lamport_version(inputs) by {
        lemma_max_version_bounds(inputs, i);
    }
    let b = base_versions(item).len();
    assert(inputs[b + j] == table[k]);
}

/// An item whose every access to lineage `k` is immutable leaves `k`'s version
/// as it was, so an item right after it that is not cancelled observes the
/// same version of `k`.
pub proof fn lemma_immutable_access_keeps_version(
    config: EpochStartConfig,
    item: Schedulable,
    next_item: Schedulable,
    table: Map<ConsensusObjectSequenceKey, SequenceNumber>,
    cancelled: Map<TransactionDigest, CancelConsensusCertificateReason>,
    k: ConsensusObjectSequenceKey,
)
    requires
        assign_one(config, item, table, cancelled) is Ok,
        table.contains_key(k),
        item.spec_shared_inputs(config) matches Some(shared) && forall|j: int|
            0 <= j < shared.len() && #[trigger] shared[j].lineage() == k ==> !shared[j].mutable,
    ensures
        ({
            let after = assign_one(config, item, table, cancelled)->Ok_0.1;
            &&& after.contains_key(k)
            &&& after[k] == table[k]
            &&& (assign_one(config, next_item, after, cancelled) is Ok && cancellation_of(
                next_item,
                cancelled,
            ) is None) ==> {
                let seen = assign_one(config, next_item, after, cancelled)->Ok_0.0;
                forall|i: int| 0 <= i < seen.len() && #[trigger] seen[i].0 == k ==> seen[i].1 == table[k]
            }
        }),
{
    let shared = item.spec_shared_inputs(config)->Some_0;
    let after = assign_one(config, item, table, cancelled)->Ok_0.1;
    if shared.len() > 0 && cancellation_of(item, cancelled) is None {
        assert(!is_mutated(shared, k));
    }
    if assign_one(config, next_item, after, cancelled) is Ok && cancellation_of(next_item, cancelled) is None {
        let next_shared = next_item.spec_shared_inputs(config)->Some_0;
        let seen = assign_one(config, next_item, after, cancelled)->Ok_0.0;
        if next_shared.len() > 0 {
            assert(seen == observed_assignment(next_shared, after));
        }
    }
}

/// A cancelled item leaves the table as it was, whatever objects it names.
pub proof fn lemma_cancelled_keeps_table(
    config: EpochStartConfig,
    item: Schedulable,
    table: Map<ConsensusObjectSequenceKey, SequenceNumber>,
    cancelled: Map<TransactionDigest, CancelConsensusCertificateReason>,
)
    requires
        cancellation_of(item, cancelled) is Some,
        assign_one(config, item, table, cancelled) is Ok,
    ensures
        assign_one(config, item, table, cancelled)->Ok_0.1 == table,
{
}

/// One item never lowers a lineage's version nor drops a lineage.
pub proof fn lemma_assign_one_monotone(
    config: EpochStartConfig,
    item: Schedulable,
    table: Map<ConsensusObjectSequenceKey, SequenceNumber>,
    cancelled: Map<TransactionDigest, CancelConsensusCertificateReason>,
)
    requires
        assign_one(config, item, table, cancelled) is Ok,
    ensures
        ({
            let after = assign_one(config, item, table, cancelled)->Ok_0.1;
            &&& after.dom() == table.dom()
            &&& forall|k: ConsensusObjectSequenceKey| #[trigger] table.contains_key(k) ==> table[k] <= after[k]
        }),
{
    let after = assign_one(config, item, table, cancelled)->Ok_0.1;
    let shared = item.spec_shared_inputs(config)->Some_0;
    if shared.len() > 0 && cancellation_of(item, cancelled) is None {
        assert(after.dom() =~= table.dom());
        assert forall|k: ConsensusObjectSequenceKey| #[trigger] table.contains_key(k) implies table[k] <= after[k] by {
            if is_mutated(shared, k) {
                let j = choose|j: int| 0 <= j < shared.len() && #[trigger] shared[j].mutable && shared[j].lineage() == k;
                lemma_lamport_advance(config, item, table, cancelled, j);
            }
        }
    }
}

/// Over a whole batch, in commit order, no lineage's version ever decreases and
/// no lineage leaves the table.
pub proof fn lemma_batch_monotone(
    config: EpochStartConfig,
    accumulators_enabled: bool,
    items: Seq<Schedulable>,
    table: Map<ConsensusObjectSequenceKey, SequenceNumber>,
    cancelled: Map<TransactionDigest, CancelConsensusCertificateReason>,
)
    requires
        assign_all(config, accumulators_enabled, items, table, cancelled) is Ok,
    ensures
        ({
            let after = assign_all(config, accumulators_enabled, items, table, cancelled)->Ok_0.1;
            &&& after.dom() == table.dom()
            &&& forall|k: ConsensusObjectSequenceKey| #[trigger] table.contains_key(k) ==> table[k] <= after[k]
        }),
    decreases items.len(),
{
    if items.len() > 0 {
        lemma_batch_monotone(config, accumulators_enabled, items.drop_last(), table, cancelled);
        let mid = assign_all(config, accumulators_enabled, items.drop_last(), table, cancelled)->Ok_0.1;
        lemma_assign_one_monotone(config, items.last(), mid, cancelled);
    }
}

/// Assigning the same batch twice, against the same table and the same
/// cancellations, gives the same result.
pub proof fn lemma_batch_deterministic(
    config: EpochStartConfig,
    accumulators_enabled: bool,
    items: Seq<Schedulable>,
    replayed: Seq<Schedulable>,
    table: Map<ConsensusObjectSequenceKey, SequenceNumber>,
    cancelled: Map<TransactionDigest, CancelConsensusCertificateReason>,
)
    requires
        replayed == items,
    ensures
        assign_all(config, accumulators_enabled, replayed, table, cancelled) == assign_all(
            config,
            accumulators_enabled,
            items,
            table,
            cancelled,
        ),
{
}

/// What effects record of an assignment: each object at the version it was assigned.
pub open spec fn recorded_from(av: Seq<(ConsensusObjectSequenceKey, SequenceNumber)>) -> Seq<ObjectKey> {
    av.map_values(|p: (ConsensusObjectSequenceKey, SequenceNumber)| ObjectKey(p.0.0, p.1))
}

proof fn lemma_recorded_version_first(recorded: Seq<ObjectKey>, k: int)
    requires
        0 <= k < recorded.len(),
        forall|j: int| 0 <= j < k ==> #[trigger] recorded[j].0 != recorded[k].0,
    ensures
        recorded_version_of(recorded, recorded[k].0) == Some(recorded[k].1),
    decreases k,
{
    if k > 0 {
        let rest = recorded.drop_first();
        assert(rest[k - 1] == recorded[k]);
        assert forall|j: int| 0 <= j < k - 1 implies #[trigger] rest[j].0 != rest[k - 1].0 by {
            assert(rest[j] == recorded[j + 1]);
        }
        lemma_recorded_version_first(rest, k - 1);
    }
}

/// The versions a consensus assignment gives an item name its shared inputs, in order.
pub proof fn lemma_assignment_follows_declaration(
    config: EpochStartConfig,
    item: Schedulable,
    table: Map<ConsensusObjectSequenceKey, SequenceNumber>,
    cancelled: Map<TransactionDigest, CancelConsensusCertificateReason>,
)
    requires
        assign_one(config, item, table, cancelled) is Ok,
    ensures
        ({
            let shared = item.spec_shared_inputs(config)->Some_0;
            let av = assign_one(config, item, table, cancelled)->Ok_0.0;
            &&& av.len() == shared.len()
            &&& forall|i: int| 0 <= i < av.len() ==> #[trigger] av[i].0 == shared[i].lineage()
        }),
{
}

/// Replaying effects that record what a transaction was assigned gives back
/// that assignment, provided the transaction names each object once.
pub proof fn lemma_effects_round_trip(
    shared: Seq<SharedInputObject>,
    av: Seq<(ConsensusObjectSequenceKey, SequenceNumber)>,
)
    requires
        av.len() == shared.len(),
        forall|i: int| 0 <= i < av.len() ==> #[trigger] av[i].0 == shared[i].lineage(),
        forall|i: int, j: int| 0 <= i < j < shared.len() ==> shared[i].id != shared[j].id,
    ensures
        effects_assignment(shared, recorded_from(av)) == Ok::<_, AssignError>(av),
{
    let recorded = recorded_from(av);
    assert forall|n: int| 0 <= n <= shared.len() implies effects_assignment(shared.take(n), recorded)
        == Ok::<_, AssignError>(av.take(n)) by {
        lemma_effects_round_trip_prefix(shared, av, n);
    }
    assert(shared.take(shared.len() as int) =~= shared);
    assert(av.take(av.len() as int) =~= av);
}

proof fn lemma_effects_round_trip_prefix(
    shared: Seq<SharedInputObject>,
    av: Seq<(ConsensusObjectSequenceKey, SequenceNumber)>,
    n: int,
)
    requires
        av.len() == shared.len(),
        forall|i: int| 0 <= i < av.len() ==> #[trigger] av[i].0 == shared[i].lineage(),
        forall|i: int, j: int| 0 <= i < j < shared.len() ==> shared[i].id != shared[j].id,
        0 <= n <= shared.len(),
    ensures
        effects_assignment(shared.take(n), recorded_from(av)) == Ok::<_, AssignError>(av.take(n)),
    decreases n,
{
    let recorded = recorded_from(av);
    if n == 0 {
        assert(av.take(0) =~= Seq::<(ConsensusObjectSequenceKey, SequenceNumber)>::empty());
    } else {
        lemma_effects_round_trip_prefix(shared, av, n - 1);
        assert(shared.take(n).drop_last() =~= shared.take(n - 1));
        assert(shared.take(n).last() == shared[n - 1]);
        assert(av[n - 1].0 == shared[n - 1].lineage());
        assert forall|j: int| 0 <= j < n - 1 implies #[trigger] recorded[j].0 != recorded[n - 1].0 by {
            assert(av[j].0 == shared[j].lineage());
        }
        lemma_recorded_version_first(recorded, n - 1);
        assert(av.take(n) =~= av.take(n - 1).push(av[n - 1]));
    }
}

/// A transaction that names each object once, replayed from effects that
/// record the versions consensus assigned it, observes those same versions.
pub proof fn lemma_replay_matches_consensus(
    config: EpochStartConfig,
    tx: ExecutableTransaction,
    table: Map<ConsensusObjectSequenceKey, SequenceNumber>,
    cancelled: Map<TransactionDigest, CancelConsensusCertificateReason>,
)
    requires
        assign_one(config, Schedulable::Transaction(tx), table, cancelled) is Ok,
        forall|i: int, j: int|
            0 <= i < j < tx.shared_inputs@.len() ==> tx.shared_inputs@[i].id != tx.shared_inputs@[j].id,
    ensures
        ({
            let av = assign_one(config, Schedulable::Transaction(tx), table, cancelled)->Ok_0.0;
            effects_assignment(tx.shared_inputs@, recorded_from(av)) == Ok::<_, AssignError>(av)
        }),
{
    let av = assign_one(config, Schedulable::Transaction(tx), table, cancelled)->Ok_0.0;
    lemma_assignment_follows_declaration(config, Schedulable::Transaction(tx), table, cancelled);
    lemma_effects_round_trip(tx.shared_inputs@, av);
}

} // verus!
