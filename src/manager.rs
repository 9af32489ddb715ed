//! Version assignment for one item and for a consensus-ordered batch.
use vstd::prelude::*;
use std::collections::BTreeMap;
use crate::model::{
    advance, all_shared_inputs, assign_all, assign_from_effects, assign_one, base_versions,
    cancellation_of, cancelled_assignment, cancelled_version, effects_assignment,
    executed_shared_inputs, first_missing_lineage, is_mutated, lineage_lt, lineage_set,
    max_version, observed_assignment, observed_versions, recorded_version_of, strictly_sorted,
    versions_of,
};
use crate::schedulable::{
    copy_shared_inputs, EpochStartConfig, ExecutableTransaction, Schedulable, TransactionEffects,
};
use crate::epoch_store::{initialized, unreadable, EpochVersionStore};
use crate::table::VersionTable;
use crate::types::{
    AssignError, AssignedVersions, CancelConsensusCertificateReason, ConsensusObjectSequenceKey,
    ObjectID, ObjectKey, SequenceNumber, SharedInputObject, TransactionDigest, TransactionKey,
    CANCELLED_READ, CONGESTED, MAX_SEQUENCE_NUMBER, RANDOMNESS_UNAVAILABLE,
    SUI_RANDOMNESS_STATE_OBJECT_ID,
};

verus! {

broadcast use vstd::std_specs::btree::group_btree_axioms;

/// Assigns shared-object versions to schedulable items.
pub struct SharedObjVerManager {}

/// The versions each item of a batch observed, in batch order.
#[derive(Debug)]
pub struct AssignedTxAndVersions(pub Vec<(TransactionKey, AssignedVersions)>);

pub open spec fn assigned_view(s: Seq<(TransactionKey, AssignedVersions)>) -> Seq<
    (TransactionKey, Seq<(ConsensusObjectSequenceKey, SequenceNumber)>),
> {
    s.map_values(|p: (TransactionKey, AssignedVersions)| (p.0, p.1@))
}

impl AssignedTxAndVersions {
    pub open spec fn spec_view(&self) -> Seq<
        (TransactionKey, Seq<(ConsensusObjectSequenceKey, SequenceNumber)>),
    > {
        assigned_view(self.0@)
    }

    pub fn new(assigned_versions: Vec<(TransactionKey, AssignedVersions)>) -> (r: Self)
        ensures
            r.0@ == assigned_versions@,
    {
        AssignedTxAndVersions(assigned_versions)
    }
}

/// The outcome of assigning versions to a batch: the batch's table after the
/// last item and the versions each item observed.
#[derive(Debug)]
pub struct ConsensusSharedObjVerAssignment {
    pub shared_input_next_versions: VersionTable,
    pub assigned_versions: AssignedTxAndVersions,
}

/// What a batch assignment returned, as mathematical values.
pub open spec fn consensus_result_view(r: Result<ConsensusSharedObjVerAssignment, AssignError>) -> Result<
    (
        Seq<(TransactionKey, Seq<(ConsensusObjectSequenceKey, SequenceNumber)>)>,
        Map<ConsensusObjectSequenceKey, SequenceNumber>,
    ),
    AssignError,
> {
    match r {
        Ok(a) => Ok((a.assigned_versions.spec_view(), a.shared_input_next_versions@)),
        Err(e) => Err(e),
    }
}

proof fn lemma_shared_inputs_none_extends(items: Seq<Schedulable>, n: int, config: EpochStartConfig)
    requires
        0 <= n <= items.len(),
        all_shared_inputs(items.take(n), config) is None,
    ensures
        all_shared_inputs(items, config) is None,
    decreases items.len() - n,
{
    if n < items.len() {
        assert(items.take(n + 1).drop_last() =~= items.take(n));
        lemma_shared_inputs_none_extends(items, n + 1, config);
    } else {
        assert(items.take(n) =~= items);
    }
}

proof fn lemma_assign_err_extends(
    config: EpochStartConfig,
    accumulators_enabled: bool,
    items: Seq<Schedulable>,
    n: int,
    table: Map<ConsensusObjectSequenceKey, SequenceNumber>,
    cancelled: Map<TransactionDigest, CancelConsensusCertificateReason>,
)
    requires
        0 <= n <= items.len(),
        assign_all(config, accumulators_enabled, items.take(n), table, cancelled) is Err,
    ensures
        assign_all(config, accumulators_enabled, items, table, cancelled) == assign_all(
            config,
            accumulators_enabled,
            items.take(n),
            table,
            cancelled,
        ),
    decreases items.len() - n,
{
    if n < items.len() {
        assert(items.take(n + 1).drop_last() =~= items.take(n));
        lemma_assign_err_extends(config, accumulators_enabled, items, n + 1, table, cancelled);
    } else {
        assert(items.take(n) =~= items);
    }
}

/// The largest of `v`, zero when it is empty.
fn max_of(v: &Vec<SequenceNumber>) -> (r: SequenceNumber)
    ensures
        r == max_version(v@),
{
    let mut m: SequenceNumber = 0;
    let mut i: usize = 0;
    while i < v.len()
        invariant
            i <= v@.len(),
            m == max_version(v@.take(i as int)),
        decreases v@.len() - i,
    {
        proof {
            assert(v@.take(i + 1).drop_last() =~= v@.take(i as int));
        }
        if v[i] > m {
            m = v[i];
        }
        i = i + 1;
    }
    proof {
        assert(v@.take(v@.len() as int) =~= v@);
    }
    m
}

/// Appends the version of each key.
fn push_versions(out: &mut Vec<SequenceNumber>, keys: &Vec<ObjectKey>)
    ensures
        final(out)@ == old(out)@ + versions_of(keys@),
{
    let mut i: usize = 0;
    while i < keys.len()
        invariant
            i <= keys@.len(),
            out@ == old(out)@ + versions_of(keys@.take(i as int)),
        decreases keys@.len() - i,
    {
        out.push(keys[i].1);
        i = i + 1;
        proof {
            assert(out@ =~= old(out)@ + versions_of(keys@.take(i as int)));
        }
    }
    proof {
        assert(keys@.take(keys@.len() as int) =~= keys@);
    }
}

fn id_in(ids: &Vec<ObjectID>, id: ObjectID) -> (r: bool)
    ensures
        r == ids@.contains(id),
{
    let mut i: usize = 0;
    while i < ids.len()
        invariant
            i <= ids@.len(),
            forall|j: int| 0 <= j < i ==> ids@[j] != id,
        decreases ids@.len() - i,
    {
        if ids[i] == id {
            return true;
        }
        i = i + 1;
    }
    false
}

/// The reserved version that a cancelled item records for object `id`.
fn version_for_cancelled(reason: &CancelConsensusCertificateReason, id: ObjectID) -> (r:
    SequenceNumber)
    ensures
        r == cancelled_version(*reason, id),
{
    match reason {
        CancelConsensusCertificateReason::CongestionOnObjects(ids) => {
            if id_in(ids, id) {
                CONGESTED
            } else {
                CANCELLED_READ
            }
        },
        CancelConsensusCertificateReason::DkgFailed => {
            if id == SUI_RANDOMNESS_STATE_OBJECT_ID {
                RANDOMNESS_UNAVAILABLE
            } else {
                CANCELLED_READ
            }
        },
    }
}

impl SharedObjVerManager {
    /// Assigns versions to a consensus-ordered batch.
    ///
    /// First the shared inputs of every item are gathered; then every lineage
    /// they name that the epoch has not seen is initialized from `durable`, the
    /// durable store's current versions; then the items are assigned one by one
    /// in the given order against a table of exactly those lineages.
    pub fn assign_versions_from_consensus(
        epoch_store: &mut EpochVersionStore,
        durable: &VersionTable,
        assignables: &Vec<Schedulable>,
        cancelled_txns: &BTreeMap<TransactionDigest, CancelConsensusCertificateReason>,
    ) -> (r: Result<ConsensusSharedObjVerAssignment, AssignError>)
        requires
            old(epoch_store).wf(),
            durable.wf(),
        ensures
            final(epoch_store).wf(),
            final(epoch_store).spec_config() == old(epoch_store).spec_config(),
            final(epoch_store).spec_accumulators_enabled() == old(
                epoch_store,
            ).spec_accumulators_enabled(),
            r matches Ok(a) ==> a.shared_input_next_versions.wf(),
            match all_shared_inputs(assignables@, old(epoch_store).spec_config()) {
                None => {
                    &&& r == Err::<ConsensusSharedObjVerAssignment, AssignError>(
                        AssignError::MissingEpochConfig,
                    )
                    &&& final(epoch_store).spec_next_versions() == old(
                        epoch_store,
                    ).spec_next_versions()
                },
                Some(all) => {
                    let keys = lineage_set(all);
                    if exists|k: ConsensusObjectSequenceKey|
                        unreadable(keys, old(epoch_store).spec_next_versions(), durable@, k) {
                        &&& r matches Err(AssignError::ObjectNotFound(id, v)) && unreadable(
                            keys,
                            old(epoch_store).spec_next_versions(),
                            durable@,
                            (id, v),
                        )
                        &&& final(epoch_store).spec_next_versions() == old(
                            epoch_store,
                        ).spec_next_versions()
                    } else {
                        &&& final(epoch_store).spec_next_versions() == initialized(
                            keys,
                            old(epoch_store).spec_next_versions(),
                            durable@,
                        )
                        &&& consensus_result_view(r) == assign_all(
                            old(epoch_store).spec_config(),
                            old(epoch_store).spec_accumulators_enabled(),
                            assignables@,
                            final(epoch_store).spec_next_versions().restrict(keys),
                            cancelled_txns@,
                        )
                    }
                },
            },
    {
        let config = *epoch_store.epoch_start_config();
        let mut all: Vec<SharedInputObject> = Vec::new();
        let mut i: usize = 0;
        while i < assignables.len()
            invariant
                i <= assignables@.len(),
                config == epoch_store.spec_config(),
                epoch_store.wf(),
                epoch_store.spec_config() == old(epoch_store).spec_config(),
                epoch_store.spec_accumulators_enabled() == old(epoch_store).spec_accumulators_enabled(),
                epoch_store.spec_next_versions() == old(epoch_store).spec_next_versions(),
                all_shared_inputs(assignables@.take(i as int), config) == Some(all@),
            decreases assignables@.len() - i,
        {
            proof {
                assert(assignables@.take(i + 1).drop_last() =~= assignables@.take(i as int));
            }
            match assignables[i].shared_input_objects(&config) {
                Ok(objs) => {
                    let mut objs = objs;
                    all.append(&mut objs);
                },
                Err(e) => {
                    proof {
                        lemma_shared_inputs_none_extends(assignables@, i + 1, config);
                    }
                    return Err(e);
                },
            }
            i = i + 1;
        }
        proof {
            assert(assignables@.take(assignables@.len() as int) =~= assignables@);
        }
        let keys = sorted_lineages(&all);
        let mut shared_input_next_versions = match epoch_store.get_or_init_next_object_versions(
            &keys,
            durable,
        ) {
            Ok(t) => t,
            Err(e) => return Err(e),
        };
        let ghost table0 = shared_input_next_versions@;
        let ghost store0 = *epoch_store;
        let accumulators_enabled = epoch_store.accumulators_enabled();
        let mut assigned_versions: Vec<(TransactionKey, AssignedVersions)> = Vec::new();
        let mut i: usize = 0;
        proof {
            assert(assignables@.take(0) =~= Seq::<Schedulable>::empty());
            assert(assigned_view(assigned_versions@) =~= Seq::empty());
        }
        while i < assignables.len()
            invariant
                i <= assignables@.len(),
                shared_input_next_versions.wf(),
                epoch_store.wf(),
                epoch_store.spec_config() == old(epoch_store).spec_config(),
                epoch_store.spec_accumulators_enabled() == old(epoch_store).spec_accumulators_enabled(),
                epoch_store.spec_next_versions() == store0.spec_next_versions(),
                config == old(epoch_store).spec_config(),
                accumulators_enabled == old(epoch_store).spec_accumulators_enabled(),
                all_shared_inputs(assignables@, config) == Some(all@),
                forall|k: ConsensusObjectSequenceKey|
                    !unreadable(lineage_set(all@), old(epoch_store).spec_next_versions(), durable@, k),
                epoch_store.spec_next_versions() == initialized(
                    lineage_set(all@),
                    old(epoch_store).spec_next_versions(),
                    durable@,
                ),
                table0 == epoch_store.spec_next_versions().restrict(lineage_set(all@)),
                assign_all(config, accumulators_enabled, assignables@.take(i as int), table0, cancelled_txns@)
                    == Ok::<_, AssignError>((assigned_view(assigned_versions@), shared_input_next_versions@)),
            decreases assignables@.len() - i,
        {
            let assignable = &assignables[i];
            proof {
                assert(assignables@.take(i + 1).drop_last() =~= assignables@.take(i as int));
            }
            if let Schedulable::AccumulatorSettlement(_, _) = assignable {
                if !accumulators_enabled {
                    proof {
                        lemma_assign_err_extends(config, accumulators_enabled, assignables@, i + 1, table0, cancelled_txns@);
                    }
                    return Err(AssignError::AccumulatorsDisabled);
                }
            }
            let cert_assigned_versions = match Self::assign_versions_for_certificate(
                &config,
                assignable,
                &mut shared_input_next_versions,
                cancelled_txns,
            ) {
                Ok(av) => av,
                Err(e) => {
                    proof {
                        lemma_assign_err_extends(config, accumulators_enabled, assignables@, i + 1, table0, cancelled_txns@);
                    }
                    return Err(e);
                },
            };
            let ghost prev = assigned_versions@;
            let ghost av = cert_assigned_versions@;
            assigned_versions.push((assignable.key(), cert_assigned_versions));
            proof {
                assert(assigned_view(assigned_versions@) =~= assigned_view(prev).push((assignable.spec_key(), av)));
            }
            i = i + 1;
        }
        proof {
            assert(assignables@.take(assignables@.len() as int) =~= assignables@);
        }
        Ok(
            ConsensusSharedObjVerAssignment {
                shared_input_next_versions,
                assigned_versions: AssignedTxAndVersions::new(assigned_versions),
            },
        )
    }

    /// Reads, from the effects of already executed transactions, the versions
    /// each one observed.
    ///
    /// The lineages the transactions declare are first initialized in the epoch
    /// from `durable`, as a consensus batch would; where that cannot be done the
    /// epoch table stays as it was and the replay goes on, since it relies on the
    /// effects alone.
    pub fn assign_versions_from_effects(
        certs_and_effects: &Vec<(ExecutableTransaction, TransactionEffects)>,
        epoch_store: &mut EpochVersionStore,
        durable: &VersionTable,
    ) -> (r: Result<AssignedTxAndVersions, AssignError>)
        requires
            old(epoch_store).wf(),
            durable.wf(),
        ensures
            final(epoch_store).wf(),
            final(epoch_store).spec_config() == old(epoch_store).spec_config(),
            final(epoch_store).spec_accumulators_enabled() == old(
                epoch_store,
            ).spec_accumulators_enabled(),
            ({
                let keys = lineage_set(executed_shared_inputs(certs_and_effects@));
                final(epoch_store).spec_next_versions() == if exists|k: ConsensusObjectSequenceKey|
                    unreadable(keys, old(epoch_store).spec_next_versions(), durable@, k) {
                    old(epoch_store).spec_next_versions()
                } else {
                    initialized(keys, old(epoch_store).spec_next_versions(), durable@)
                }
            }),
            assign_from_effects(certs_and_effects@) == (match r {
                Ok(a) => Ok(a.spec_view()),
                Err(e) => Err(e),
            }),
    {
        let mut all: Vec<SharedInputObject> = Vec::new();
        let mut i: usize = 0;
        while i < certs_and_effects.len()
            invariant
                i <= certs_and_effects@.len(),
                epoch_store.wf(),
                epoch_store.spec_config() == old(epoch_store).spec_config(),
                epoch_store.spec_accumulators_enabled() == old(epoch_store).spec_accumulators_enabled(),
                epoch_store.spec_next_versions() == old(epoch_store).spec_next_versions(),
                all@ == executed_shared_inputs(certs_and_effects@.take(i as int)),
            decreases certs_and_effects@.len() - i,
        {
            proof {
                assert(certs_and_effects@.take(i + 1).drop_last() =~= certs_and_effects@.take(i as int));
            }
            let mut objs = copy_shared_inputs(&certs_and_effects[i].0.shared_inputs);
            all.append(&mut objs);
            i = i + 1;
        }
        proof {
            assert(certs_and_effects@.take(certs_and_effects@.len() as int) =~= certs_and_effects@);
        }
        let keys = sorted_lineages(&all);
        let _ = epoch_store.get_or_init_next_object_versions(&keys, durable);
        let ghost store0 = epoch_store.spec_next_versions();
        let mut assigned_versions: Vec<(TransactionKey, AssignedVersions)> = Vec::new();
        let mut i: usize = 0;
        proof {
            assert(certs_and_effects@.take(0) =~= Seq::<(ExecutableTransaction, TransactionEffects)>::empty());
            assert(assigned_view(assigned_versions@) =~= Seq::empty());
        }
        while i < certs_and_effects.len()
            invariant
                i <= certs_and_effects@.len(),
                epoch_store.wf(),
                epoch_store.spec_config() == old(epoch_store).spec_config(),
                epoch_store.spec_accumulators_enabled() == old(epoch_store).spec_accumulators_enabled(),
                epoch_store.spec_next_versions() == store0,
                store0 == if exists|k: ConsensusObjectSequenceKey|
                    unreadable(lineage_set(executed_shared_inputs(certs_and_effects@)), old(epoch_store).spec_next_versions(), durable@, k) {
                    old(epoch_store).spec_next_versions()
                } else {
                    initialized(lineage_set(executed_shared_inputs(certs_and_effects@)), old(epoch_store).spec_next_versions(), durable@)
                },
                assign_from_effects(certs_and_effects@.take(i as int)) == Ok::<_, AssignError>(assigned_view(assigned_versions@)),
            decreases certs_and_effects@.len() - i,
        {
            proof {
                assert(certs_and_effects@.take(i + 1).drop_last() =~= certs_and_effects@.take(i as int));
            }
            let (cert, effects) = (&certs_and_effects[i].0, &certs_and_effects[i].1);
            let cert_assigned_versions = match assignment_from_effects(cert, effects) {
                Ok(av) => av,
                Err(e) => {
                    proof {
                        lemma_replay_err_extends(certs_and_effects@, i + 1);
                    }
                    return Err(e);
                },
            };
            let ghost prev = assigned_versions@;
            let ghost av = cert_assigned_versions@;
            assigned_versions.push((cert.key(), cert_assigned_versions));
            proof {
                assert(assigned_view(assigned_versions@) =~= assigned_view(prev).push((TransactionKey::Digest(cert.digest), av)));
            }
            i = i + 1;
        }
        proof {
            assert(certs_and_effects@.take(certs_and_effects@.len() as int) =~= certs_and_effects@);
        }
        Ok(AssignedTxAndVersions::new(assigned_versions))
    }

    /// Assigns versions to one item against the batch's table.
    ///
    /// A cancelled item records reserved versions and leaves the table alone; any
    /// other item observes the table's versions and moves every lineage it
    /// mutates to its Lamport version. On an error the table is unchanged.
    pub fn assign_versions_for_certificate(
        config: &EpochStartConfig,
        assignable: &Schedulable,
        shared_input_next_versions: &mut VersionTable,
        cancelled_txns: &BTreeMap<TransactionDigest, CancelConsensusCertificateReason>,
    ) -> (r: Result<AssignedVersions, AssignError>)
        requires
            old(shared_input_next_versions).wf(),
        ensures
            final(shared_input_next_versions).wf(),
            assign_one(*config, *assignable, old(shared_input_next_versions)@, cancelled_txns@)
                == (match r {
                Ok(av) => Ok((av@, final(shared_input_next_versions)@)),
                Err(e) => Err(e),
            }),
            r is Err ==> final(shared_input_next_versions)@ == old(
                shared_input_next_versions,
            )@,
    {
        let ghost table0 = shared_input_next_versions@;
        let shared = match assignable.shared_input_objects(config) {
            Ok(s) => s,
            Err(e) => return Err(e),
        };
        if shared.len() == 0 {
            return Ok(Vec::new());
        }
        let tx_key = assignable.key();
        let cancellation_info = match tx_key.as_digest() {
            Some(d) => cancelled_txns.get(&d),
            None => None,
        };
        proof {
            assert(cancellation_info matches Some(c) ==> cancellation_of(*assignable, cancelled_txns@) == Some(*c));
            assert(cancellation_info is None ==> cancellation_of(*assignable, cancelled_txns@) is None);
        }
        let mut input_versions: Vec<SequenceNumber> = Vec::new();
        push_versions(&mut input_versions, &assignable.non_shared_input_object_keys());
        push_versions(&mut input_versions, &assignable.receiving_object_keys());
        proof {
            assert(input_versions@ =~= base_versions(*assignable));
        }
        let mut assigned_versions: AssignedVersions = Vec::new();
        match cancellation_info {
            Some(reason) => {
                let max_input = max_of(&input_versions);
                if max_input >= MAX_SEQUENCE_NUMBER - 1 {
                    return Err(AssignError::InvalidNextVersion);
                }
                let mut i: usize = 0;
                while i < shared.len()
                    invariant
                        i <= shared@.len(),
                        assigned_versions@ == cancelled_assignment(shared@.take(i as int), *reason),
                    decreases shared@.len() - i,
                {
                    let obj = shared[i];
                    assigned_versions.push((obj.id_and_version(), version_for_cancelled(reason, obj.id)));
                    i = i + 1;
                    proof {
                        assert(assigned_versions@ =~= cancelled_assignment(shared@.take(i as int), *reason));
                    }
                }
                proof {
                    assert(shared@.take(shared@.len() as int) =~= shared@);
                }
                Ok(assigned_versions)
            },
            None => {
                proof {
                    assert(shared@.skip(0) =~= shared@);
                }
                let mut i: usize = 0;
                while i < shared.len()
                    invariant
                        i <= shared@.len(),
                        assignable.spec_shared_inputs(*config) == Some(shared@),
                        cancellation_of(*assignable, cancelled_txns@) is None,
                        table0 == old(shared_input_next_versions)@,
                        shared_input_next_versions.wf(),
                        shared_input_next_versions@ == table0,
                        first_missing_lineage(shared@, table0) == first_missing_lineage(shared@.skip(i as int), table0),
                        forall|j: int| 0 <= j < i ==> table0.contains_key(#[trigger] shared@[j].lineage()),
                        assigned_versions@ == observed_assignment(shared@.take(i as int), table0),
                        input_versions@ == base_versions(*assignable) + observed_versions(shared@.take(i as int), table0),
                    decreases shared@.len() - i,
                {
                    let obj = shared[i];
                    let key = obj.id_and_version();
                    proof {
                        assert(shared@.skip(i as int)[0] == obj);
                        assert(shared@.skip(i as int).drop_first() =~= shared@.skip(i + 1));
                    }
                    let version = match shared_input_next_versions.get(key) {
                        Some(v) => v,
                        None => {
                            proof {
                                assert(first_missing_lineage(shared@.skip(i as int), table0) == Some(key));
                            }
                            return Err(AssignError::MissingLineage(key.0, key.1));
                        },
                    };
                    assigned_versions.push((key, version));
                    input_versions.push(version);
                    i = i + 1;
                    proof {
                        assert(assigned_versions@ =~= observed_assignment(shared@.take(i as int), table0));
                        assert(input_versions@ =~= base_versions(*assignable) + observed_versions(shared@.take(i as int), table0));
                    }
                }
                proof {
                    assert(shared@.take(shared@.len() as int) =~= shared@);
                    assert(shared@.skip(shared@.len() as int).len() == 0);
                }
                let max_input = max_of(&input_versions);
                if max_input >= MAX_SEQUENCE_NUMBER - 1 {
                    return Err(AssignError::InvalidNextVersion);
                }
                let next_version = max_input + 1;
                let mut i: usize = 0;
                while i < shared.len()
                    invariant
                        i <= shared@.len(),
                        shared_input_next_versions.wf(),
                        forall|j: int| 0 <= j < shared@.len() ==> table0.contains_key(#[trigger] shared@[j].lineage()),
                        shared_input_next_versions@ == advance(table0, shared@.take(i as int), next_version),
                    decreases shared@.len() - i,
                {
                    let obj = shared[i];
                    if obj.mutable {
                        shared_input_next_versions.insert(obj.id_and_version(), next_version);
                    }
                    proof {
                        lemma_advance_step(table0, shared@, i as int, next_version);
                    }
                    i = i + 1;
                }
                proof {
                    assert(shared@.take(shared@.len() as int) =~= shared@);
                }
                Ok(assigned_versions)
            },
        }
    }
}

fn lineage_less(a: ConsensusObjectSequenceKey, b: ConsensusObjectSequenceKey) -> (r: bool)
    ensures
        r == lineage_lt(a, b),
{
    a.0 < b.0 || (a.0 == b.0 && a.1 < b.1)
}

/// Adds `k` to the strictly sorted `keys` unless it is there already.
fn insert_sorted(keys: &mut Vec<ConsensusObjectSequenceKey>, k: ConsensusObjectSequenceKey)
    requires
        strictly_sorted(old(keys)@),
    ensures
        strictly_sorted(final(keys)@),
        final(keys)@.to_set() == old(keys)@.to_set().insert(k),
{
    let mut i: usize = 0;
    while i < keys.len() && lineage_less(keys[i], k)
        invariant
            i <= keys@.len(),
            forall|j: int| 0 <= j < i ==> lineage_lt(#[trigger] keys@[j], k),
        decreases keys@.len() - i,
    {
        i = i + 1;
    }
    if i < keys.len() && keys[i].0 == k.0 && keys[i].1 == k.1 {
        proof {
            assert(keys@.contains(k)) by {
                assert(keys@[i as int] == k);
            }
            assert(keys@.to_set() =~= keys@.to_set().insert(k));
        }
        return;
    }
    let ghost before = keys@;
    proof {
        assert forall|j: int| i <= j < before.len() implies lineage_lt(k, #[trigger] before[j]) by {
            if j > i {
                assert(lineage_lt(before[i as int], before[j]));
            }
        }
    }
    keys.insert(i, k);
    proof {
        assert forall|a: int, b: int| 0 <= a < b < keys@.len() implies lineage_lt(keys@[a], keys@[b]) by {
            if b < i {
                assert(keys@[a] == before[a] && keys@[b] == before[b]);
            } else if b == i {
                assert(keys@[a] == before[a]);
            } else if a < i {
                assert(keys@[a] == before[a] && keys@[b] == before[b - 1]);
            } else if a == i {
                assert(keys@[b] == before[b - 1]);
            } else {
                assert(keys@[a] == before[a - 1] && keys@[b] == before[b - 1]);
            }
        }
        assert forall|x: ConsensusObjectSequenceKey| keys@.to_set().contains(x) <==> before.to_set().insert(k).contains(x) by {
            if keys@.contains(x) {
                let j = choose|j: int| 0 <= j < keys@.len() && keys@[j] == x;
                if j < i {
                    assert(before[j] == x);
                } else if j > i {
                    assert(before[j - 1] == x);
                }
            }
            if before.contains(x) {
                let j = choose|j: int| 0 <= j < before.len() && before[j] == x;
                if j < i {
                    assert(keys@[j] == x);
                } else {
                    assert(keys@[j + 1] == x);
                }
            }
            if x == k {
                assert(keys@[i as int] == x);
            }
        }
        assert(keys@.to_set() =~= before.to_set().insert(k));
    }
}

/// The distinct lineages of `objs`, in increasing order.
fn sorted_lineages(objs: &Vec<SharedInputObject>) -> (r: Vec<ConsensusObjectSequenceKey>)
    ensures
        strictly_sorted(r@),
        r@.to_set() == lineage_set(objs@),
{
    let mut keys: Vec<ConsensusObjectSequenceKey> = Vec::new();
    let mut i: usize = 0;
    proof {
        assert(keys@.to_set() =~= lineage_set(objs@.take(0)));
    }
    while i < objs.len()
        invariant
            i <= objs@.len(),
            strictly_sorted(keys@),
            keys@.to_set() == lineage_set(objs@.take(i as int)),
        decreases objs@.len() - i,
    {
        let obj = objs[i];
        insert_sorted(&mut keys, obj.id_and_version());
        proof {
            let a = objs@.take(i as int);
            let b = objs@.take(i + 1);
            assert forall|k: ConsensusObjectSequenceKey| lineage_set(b).contains(k) <==> lineage_set(a).insert(obj.lineage()).contains(k) by {
                if lineage_set(b).contains(k) {
                    let j = choose|j: int| 0 <= j < b.len() && #[trigger] b[j].lineage() == k;
                    if j < i {
                        assert(a[j] == b[j]);
                    }
                }
                if lineage_set(a).contains(k) {
                    let j = choose|j: int| 0 <= j < a.len() && #[trigger] a[j].lineage() == k;
                    assert(b[j] == a[j]);
                }
                if k == obj.lineage() {
                    assert(b[i as int] == obj);
                }
            }
            assert(lineage_set(b) =~= lineage_set(a).insert(obj.lineage()));
        }
        i = i + 1;
    }
    proof {
        assert(objs@.take(objs@.len() as int) =~= objs@);
    }
    keys
}

/// The version that `recorded` gives object `id`: its first entry for `id`.
fn recorded_version_in(recorded: &Vec<ObjectKey>, id: ObjectID) -> (r: Option<SequenceNumber>)
    ensures
        r == recorded_version_of(recorded@, id),
{
    let mut i: usize = 0;
    proof {
        assert(recorded@.skip(0) =~= recorded@);
    }
    while i < recorded.len()
        invariant
            i <= recorded@.len(),
            recorded_version_of(recorded@, id) == recorded_version_of(recorded@.skip(i as int), id),
        decreases recorded@.len() - i,
    {
        proof {
            assert(recorded@.skip(i as int)[0] == recorded@[i as int]);
            assert(recorded@.skip(i as int).drop_first() =~= recorded@.skip(i + 1));
        }
        if recorded[i].0 == id {
            return Some(recorded[i].1);
        }
        i = i + 1;
    }
    None
}

proof fn lemma_effects_err_extends(shared: Seq<SharedInputObject>, recorded: Seq<ObjectKey>, n: int)
    requires
        0 <= n <= shared.len(),
        effects_assignment(shared.take(n), recorded) is Err,
    ensures
        effects_assignment(shared, recorded) == effects_assignment(shared.take(n), recorded),
    decreases shared.len() - n,
{
    if n < shared.len() {
        assert(shared.take(n + 1).drop_last() =~= shared.take(n));
        lemma_effects_err_extends(shared, recorded, n + 1);
    } else {
        assert(shared.take(n) =~= shared);
    }
}

proof fn lemma_replay_err_extends(pairs: Seq<(ExecutableTransaction, TransactionEffects)>, n: int)
    requires
        0 <= n <= pairs.len(),
        assign_from_effects(pairs.take(n)) is Err,
    ensures
        assign_from_effects(pairs) == assign_from_effects(pairs.take(n)),
    decreases pairs.len() - n,
{
    if n < pairs.len() {
        assert(pairs.take(n + 1).drop_last() =~= pairs.take(n));
        lemma_replay_err_extends(pairs, n + 1);
    } else {
        assert(pairs.take(n) =~= pairs);
    }
}

/// The versions one executed transaction observed, as its effects record them.
fn assignment_from_effects(cert: &ExecutableTransaction, effects: &TransactionEffects) -> (r: Result<
    AssignedVersions,
    AssignError,
>)
    ensures
        effects_assignment(cert.shared_inputs@, effects.input_shared_objects@) == (match r {
            Ok(av) => Ok(av@),
            Err(e) => Err(e),
        }),
{
    let shared = &cert.shared_inputs;
    let mut assigned: AssignedVersions = Vec::new();
    let mut i: usize = 0;
    while i < shared.len()
        invariant
            i <= shared@.len(),
            shared@ == cert.shared_inputs@,
            effects_assignment(shared@.take(i as int), effects.input_shared_objects@) == Ok::<
                _,
                AssignError,
            >(assigned@),
        decreases shared@.len() - i,
    {
        proof {
            assert(shared@.take(i + 1).drop_last() =~= shared@.take(i as int));
            assert(shared@.take(i + 1).last() == shared@[i as int]);
        }
        let obj = shared[i];
        match recorded_version_in(&effects.input_shared_objects, obj.id) {
            Some(version) => {
                assigned.push((obj.id_and_version(), version));
            },
            None => {
                proof {
                    lemma_effects_err_extends(shared@, effects.input_shared_objects@, i + 1);
                }
                return Err(AssignError::MissingInputInEffects(obj.id, obj.initial_shared_version));
            },
        }
        i = i + 1;
    }
    proof {
        assert(shared@.take(shared@.len() as int) =~= shared@);
    }
    Ok(assigned)
}

proof fn lemma_advance_step(
    table: Map<ConsensusObjectSequenceKey, SequenceNumber>,
    shared: Seq<SharedInputObject>,
    i: int,
    next: SequenceNumber,
)
    requires
        0 <= i < shared.len(),
        table.contains_key(shared[i].lineage()),
    ensures
        advance(table, shared.take(i + 1), next) == (if shared[i].mutable {
            advance(table, shared.take(i), next).insert(shared[i].lineage(), next)
        } else {
            advance(table, shared.take(i), next)
        }),
{
    let a = shared.take(i);
    let b = shared.take(i + 1);
    assert forall|k: ConsensusObjectSequenceKey| is_mutated(b, k) <==> (is_mutated(a, k) || (
    shared[i].mutable && shared[i].lineage() == k)) by {
        if is_mutated(b, k) {
            let j = choose|j: int| 0 <= j < b.len() && #[trigger] b[j].mutable && b[j].lineage() == k;
            if j < i {
                assert(a[j] == b[j]);
            }
        }
        if is_mutated(a, k) {
            let j = choose|j: int| 0 <= j < a.len() && #[trigger] a[j].mutable && a[j].lineage() == k;
            assert(b[j] == a[j]);
        }
        if shared[i].mutable && shared[i].lineage() == k {
            assert(b[i] == shared[i]);
        }
    }
    if shared[i].mutable {
        assert(advance(table, b, next) =~= advance(table, a, next).insert(shared[i].lineage(), next));
    } else {
        assert(advance(table, b, next) =~= advance(table, a, next));
    }
}

} // verus!
