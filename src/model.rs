//! The assignment rules, stated over mathematical values.
use vstd::prelude::*;
use crate::schedulable::{EpochStartConfig, ExecutableTransaction, Schedulable, TransactionEffects};
use crate::types::{
    is_valid_version, AssignError, CancelConsensusCertificateReason, ConsensusObjectSequenceKey,
    ObjectID, ObjectKey, SequenceNumber, SharedInputObject, TransactionDigest, TransactionKey,
    CANCELLED_READ, CONGESTED, RANDOMNESS_UNAVAILABLE, SUI_RANDOMNESS_STATE_OBJECT_ID,
};

verus! {

/// The largest of a list of versions; zero for none.
pub open spec fn max_version(s: Seq<SequenceNumber>) -> SequenceNumber
    decreases s.len(),
{
    if s.len() == 0 {
        0
    } else {
        let m = max_version(s.drop_last());
        if s.last() > m {
            s.last()
        } else {
            m
        }
    }
}

/// The Lamport version that follows a set of input versions.
pub open spec fn lamport_version(s: Seq<SequenceNumber>) -> int {
    max_version(s) + 1
}

pub open spec fn versions_of(keys: Seq<ObjectKey>) -> Seq<SequenceNumber> {
    keys.map_values(|k: ObjectKey| k.1)
}

/// Versions of the item's inputs other than its shared ones.
pub open spec fn base_versions(item: Schedulable) -> Seq<SequenceNumber> {
    versions_of(item.spec_non_shared_inputs() + item.spec_receiving_inputs())
}

/// The table's version of each shared input.
pub open spec fn observed_versions(
    shared: Seq<SharedInputObject>,
    table: Map<ConsensusObjectSequenceKey, SequenceNumber>,
) -> Seq<SequenceNumber> {
    shared.map_values(|o: SharedInputObject| table[o.lineage()])
}

/// Every input version of a non-cancelled item.
pub open spec fn lamport_inputs(
    item: Schedulable,
    shared: Seq<SharedInputObject>,
    table: Map<ConsensusObjectSequenceKey, SequenceNumber>,
) -> Seq<SequenceNumber> {
    base_versions(item) + observed_versions(shared, table)
}

/// Why the item was cancelled, if it was.
pub open spec fn cancellation_of(
    item: Schedulable,
    cancelled: Map<TransactionDigest, CancelConsensusCertificateReason>,
) -> Option<CancelConsensusCertificateReason> {
    match item.spec_key() {
        TransactionKey::Digest(d) => if cancelled.contains_key(d) {
            Some(cancelled[d])
        } else {
            None
        },
        _ => None,
    }
}

/// The reserved version a cancelled item records for object `id`.
pub open spec fn cancelled_version(reason: CancelConsensusCertificateReason, id: ObjectID) -> SequenceNumber {
    match reason {
        CancelConsensusCertificateReason::CongestionOnObjects(ids) => if ids@.contains(id) {
            CONGESTED
        } else {
            CANCELLED_READ
        },
        CancelConsensusCertificateReason::DkgFailed => if id == SUI_RANDOMNESS_STATE_OBJECT_ID {
            RANDOMNESS_UNAVAILABLE
        } else {
            CANCELLED_READ
        },
    }
}

pub open spec fn cancelled_assignment(
    shared: Seq<SharedInputObject>,
    reason: CancelConsensusCertificateReason,
) -> Seq<(ConsensusObjectSequenceKey, SequenceNumber)> {
    shared.map_values(
        |o: SharedInputObject| (o.lineage(), cancelled_version(reason, o.id)),
    )
}

pub open spec fn observed_assignment(
    shared: Seq<SharedInputObject>,
    table: Map<ConsensusObjectSequenceKey, SequenceNumber>,
) -> Seq<(ConsensusObjectSequenceKey, SequenceNumber)> {
    shared.map_values(|o: SharedInputObject| (o.lineage(), table[o.lineage()]))
}

/// The lineage of the first shared input that the table lacks.
pub open spec fn first_missing_lineage(
    shared: Seq<SharedInputObject>,
    table: Map<ConsensusObjectSequenceKey, SequenceNumber>,
) -> Option<ConsensusObjectSequenceKey>
    decreases shared.len(),
{
    if shared.len() == 0 {
        None
    } else if !table.contains_key(shared[0].lineage()) {
        Some(shared[0].lineage())
    } else {
        first_missing_lineage(shared.drop_first(), table)
    }
}

/// Some shared input declares lineage `k` as mutable.
pub open spec fn is_mutated(shared: Seq<SharedInputObject>, k: ConsensusObjectSequenceKey) -> bool {
    exists|j: int| 0 <= j < shared.len() && #[trigger] shared[j].mutable && shared[j].lineage() == k
}

/// The table after every lineage that `shared` mutates has moved to `next`.
pub open spec fn advance(
    table: Map<ConsensusObjectSequenceKey, SequenceNumber>,
    shared: Seq<SharedInputObject>,
    next: SequenceNumber,
) -> Map<ConsensusObjectSequenceKey, SequenceNumber> {
    Map::new(
        |k: ConsensusObjectSequenceKey| table.contains_key(k),
        |k: ConsensusObjectSequenceKey|
            if is_mutated(shared, k) {
                next
            } else {
                table[k]
            },
    )
}

/// Assignment for one item: the versions it observes and the table after it.
pub open spec fn assign_one(
    config: EpochStartConfig,
    item: Schedulable,
    table: Map<ConsensusObjectSequenceKey, SequenceNumber>,
    cancelled: Map<TransactionDigest, CancelConsensusCertificateReason>,
) -> Result<
    (Seq<(ConsensusObjectSequenceKey, SequenceNumber)>, Map<ConsensusObjectSequenceKey, SequenceNumber>),
    AssignError,
> {
    match item.spec_shared_inputs(config) {
        None => Err(AssignError::MissingEpochConfig),
        Some(shared) => if shared.len() == 0 {
            Ok((Seq::empty(), table))
        } else {
            match cancellation_of(item, cancelled) {
                Some(reason) => if !is_valid_version(lamport_version(base_versions(item))) {
                    Err(AssignError::InvalidNextVersion)
                } else {
                    Ok((cancelled_assignment(shared, reason), table))
                },
                None => match first_missing_lineage(shared, table) {
                    Some(k) => Err(AssignError::MissingLineage(k.0, k.1)),
                    None => {
                        let next = lamport_version(lamport_inputs(item, shared, table));
                        if !is_valid_version(next) {
                            Err(AssignError::InvalidNextVersion)
                        } else {
                            Ok(
                                (
                                    observed_assignment(shared, table),
                                    advance(table, shared, next as SequenceNumber),
                                ),
                            )
                        }
                    },
                },
            }
        },
    }
}

/// Assignment for a batch, item by item in the given order.
pub open spec fn assign_all(
    config: EpochStartConfig,
    accumulators_enabled: bool,
    items: Seq<Schedulable>,
    table: Map<ConsensusObjectSequenceKey, SequenceNumber>,
    cancelled: Map<TransactionDigest, CancelConsensusCertificateReason>,
) -> Result<
    (
        Seq<(TransactionKey, Seq<(ConsensusObjectSequenceKey, SequenceNumber)>)>,
        Map<ConsensusObjectSequenceKey, SequenceNumber>,
    ),
    AssignError,
>
    decreases items.len(),
{
    if items.len() == 0 {
        Ok((Seq::empty(), table))
    } else {
        match assign_all(config, accumulators_enabled, items.drop_last(), table, cancelled) {
            Err(e) => Err(e),
            Ok((done, t)) => if items.last() is AccumulatorSettlement && !accumulators_enabled {
                Err(AssignError::AccumulatorsDisabled)
            } else {
                match assign_one(config, items.last(), t, cancelled) {
                    Err(e) => Err(e),
                    Ok((av, t2)) => Ok((done.push((items.last().spec_key(), av)), t2)),
                }
            },
        }
    }
}

/// The shared inputs of every item in order; `None` where one item lacks its configuration.
pub open spec fn all_shared_inputs(items: Seq<Schedulable>, config: EpochStartConfig) -> Option<
    Seq<SharedInputObject>,
>
    decreases items.len(),
{
    if items.len() == 0 {
        Some(Seq::empty())
    } else {
        match (all_shared_inputs(items.drop_last(), config), items.last().spec_shared_inputs(config)) {
            (Some(a), Some(b)) => Some(a + b),
            _ => None,
        }
    }
}

/// The shared inputs that the transactions of executed pairs declare.
pub open spec fn executed_shared_inputs(pairs: Seq<(ExecutableTransaction, TransactionEffects)>) -> Seq<
    SharedInputObject,
>
    decreases pairs.len(),
{
    if pairs.len() == 0 {
        Seq::empty()
    } else {
        executed_shared_inputs(pairs.drop_last()) + pairs.last().0.shared_inputs@
    }
}

/// The lineages of a list of shared inputs.
pub open spec fn lineage_set(shared: Seq<SharedInputObject>) -> Set<ConsensusObjectSequenceKey> {
    Set::new(|k: ConsensusObjectSequenceKey| exists|j: int| 0 <= j < shared.len() && #[trigger] shared[j].lineage() == k)
}

/// Lexicographic order of lineages.
pub open spec fn lineage_lt(a: ConsensusObjectSequenceKey, b: ConsensusObjectSequenceKey) -> bool {
    a.0 < b.0 || (a.0 == b.0 && a.1 < b.1)
}

pub open spec fn strictly_sorted(s: Seq<ConsensusObjectSequenceKey>) -> bool {
    forall|i: int, j: int| 0 <= i < j < s.len() ==> lineage_lt(s[i], s[j])
}

/// The version that a list of recorded versions gives object `id`: its first entry for `id`.
pub open spec fn recorded_version_of(recorded: Seq<ObjectKey>, id: ObjectID) -> Option<SequenceNumber>
    decreases recorded.len(),
{
    if recorded.len() == 0 {
        None
    } else if recorded[0].0 == id {
        Some(recorded[0].1)
    } else {
        recorded_version_of(recorded.drop_first(), id)
    }
}

/// The versions one transaction observed: each shared input it declares, in
/// order, at the version its effects record for that object.
pub open spec fn effects_assignment(
    shared: Seq<SharedInputObject>,
    recorded: Seq<ObjectKey>,
) -> Result<Seq<(ConsensusObjectSequenceKey, SequenceNumber)>, AssignError>
    decreases shared.len(),
{
    if shared.len() == 0 {
        Ok(Seq::empty())
    } else {
        match effects_assignment(shared.drop_last(), recorded) {
            Err(e) => Err(e),
            Ok(done) => match recorded_version_of(recorded, shared.last().id) {
                None => Err(
                    AssignError::MissingInputInEffects(
                        shared.last().id,
                        shared.last().initial_shared_version,
                    ),
                ),
                Some(v) => Ok(done.push((shared.last().lineage(), v))),
            },
        }
    }
}

/// The versions every executed transaction observed, read from its effects.
pub open spec fn assign_from_effects(pairs: Seq<(ExecutableTransaction, TransactionEffects)>) -> Result<
    Seq<(TransactionKey, Seq<(ConsensusObjectSequenceKey, SequenceNumber)>)>,
    AssignError,
>
    decreases pairs.len(),
{
    if pairs.len() == 0 {
        Ok(Seq::empty())
    } else {
        match assign_from_effects(pairs.drop_last()) {
            Err(e) => Err(e),
            Ok(done) => match effects_assignment(
                pairs.last().0.shared_inputs@,
                pairs.last().1.input_shared_objects@,
            ) {
                Err(e) => Err(e),
                Ok(av) => Ok(done.push((TransactionKey::Digest(pairs.last().0.digest), av))),
            },
        }
    }
}

} // verus!
