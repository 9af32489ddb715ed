use shared_object_versions::epoch_store::EpochVersionStore;
use shared_object_versions::manager::SharedObjVerManager;
use shared_object_versions::schedulable::{
    EpochStartConfig, ExecutableTransaction, Schedulable, TransactionEffects,
};
use shared_object_versions::table::VersionTable;
use shared_object_versions::types::{
    is_valid, AssignError, CancelConsensusCertificateReason, ObjectID, ObjectKey, SequenceNumber,
    SharedInputObject, TransactionDigest, TransactionKey, CANCELLED_READ, CONGESTED,
    MAX_SEQUENCE_NUMBER, RANDOMNESS_UNAVAILABLE, SUI_ACCUMULATOR_ROOT_OBJECT_ID,
    SUI_RANDOMNESS_STATE_OBJECT_ID,
};
use std::collections::BTreeMap;

fn shared(id: ObjectID, initial: SequenceNumber, mutable: bool) -> SharedInputObject {
    SharedInputObject { id, initial_shared_version: initial, mutable }
}

fn tx(
    digest: TransactionDigest,
    shared_inputs: Vec<SharedInputObject>,
    gas_version: SequenceNumber,
) -> ExecutableTransaction {
    ExecutableTransaction {
        digest,
        shared_inputs,
        non_shared_inputs: vec![ObjectKey(0x5000 + digest, gas_version)],
        receiving_objects: vec![],
    }
}

fn config(randomness: Option<SequenceNumber>, accumulator: Option<SequenceNumber>) -> EpochStartConfig {
    EpochStartConfig {
        randomness_obj_initial_shared_version: randomness,
        accumulator_root_obj_initial_shared_version: accumulator,
    }
}

fn table(entries: &[((ObjectID, SequenceNumber), SequenceNumber)]) -> VersionTable {
    let mut t = VersionTable::new();
    for (k, v) in entries {
        t.insert(*k, *v);
    }
    t
}

fn no_cancellations() -> BTreeMap<TransactionDigest, CancelConsensusCertificateReason> {
    BTreeMap::new()
}

#[test]
fn randomness_round_advances_randomness_object_by_one() {
    let rand = SUI_RANDOMNESS_STATE_OBJECT_ID;
    let mut store = EpochVersionStore::new(config(Some(7), None), false);
    let durable = table(&[((rand, 7), 40)]);
    let items = vec![
        Schedulable::RandomnessStateUpdate(3, 1),
        Schedulable::Transaction(tx(1, vec![shared(rand, 7, false)], 3)),
        Schedulable::Transaction(tx(2, vec![shared(rand, 7, false)], 5)),
    ];
    let out = SharedObjVerManager::assign_versions_from_consensus(
        &mut store,
        &durable,
        &items,
        &no_cancellations(),
    )
    .unwrap();
    assert_eq!(store.get_next_object_version(rand, 7), Some(40));
    assert_eq!(out.shared_input_next_versions.get((rand, 7)), Some(41));
    assert_eq!(
        out.assigned_versions.0,
        vec![
            (TransactionKey::RandomnessRound(3, 1), vec![((rand, 7), 40)]),
            (TransactionKey::Digest(1), vec![((rand, 7), 41)]),
            (TransactionKey::Digest(2), vec![((rand, 7), 41)]),
        ]
    );
}

#[test]
fn randomness_round_without_configuration_is_refused() {
    let mut store = EpochVersionStore::new(config(None, None), false);
    let items = vec![Schedulable::RandomnessStateUpdate(3, 1)];
    let r = SharedObjVerManager::assign_versions_from_consensus(
        &mut store,
        &VersionTable::new(),
        &items,
        &no_cancellations(),
    );
    assert_eq!(r.unwrap_err(), AssignError::MissingEpochConfig);
}

#[test]
fn settlement_refused_while_accumulators_disabled() {
    let acc = SUI_ACCUMULATOR_ROOT_OBJECT_ID;
    let mut store = EpochVersionStore::new(config(None, Some(2)), false);
    let durable = table(&[((acc, 2), 2)]);
    let items = vec![Schedulable::AccumulatorSettlement(4, 100)];
    let r = SharedObjVerManager::assign_versions_from_consensus(
        &mut store,
        &durable,
        &items,
        &no_cancellations(),
    );
    assert_eq!(r.unwrap_err(), AssignError::AccumulatorsDisabled);
}

#[test]
fn settlement_advances_accumulator_root() {
    let acc = SUI_ACCUMULATOR_ROOT_OBJECT_ID;
    let mut store = EpochVersionStore::new(config(None, Some(2)), true);
    let durable = table(&[((acc, 2), 9)]);
    let items = vec![
        Schedulable::AccumulatorSettlement(4, 100),
        Schedulable::AccumulatorSettlement(4, 101),
    ];
    let out = SharedObjVerManager::assign_versions_from_consensus(
        &mut store,
        &durable,
        &items,
        &no_cancellations(),
    )
    .unwrap();
    assert_eq!(out.shared_input_next_versions.get((acc, 2)), Some(11));
    assert_eq!(
        out.assigned_versions.0,
        vec![
            (TransactionKey::AccumulatorSettlement(4, 100), vec![((acc, 2), 9)]),
            (TransactionKey::AccumulatorSettlement(4, 101), vec![((acc, 2), 10)]),
        ]
    );
}

#[test]
fn withdraw_dependency_raises_lamport_version() {
    let id: ObjectID = 0x20;
    let item = Schedulable::Withdraw(tx(1, vec![shared(id, 1, true)], 3), 20);
    assert_eq!(
        item.non_shared_input_object_keys(),
        vec![ObjectKey(0x5001, 3), ObjectKey(SUI_ACCUMULATOR_ROOT_OBJECT_ID, 20)]
    );
    let mut t = table(&[((id, 1), 1)]);
    let av = SharedObjVerManager::assign_versions_for_certificate(
        &config(None, None),
        &item,
        &mut t,
        &no_cancellations(),
    )
    .unwrap();
    assert_eq!(av, vec![((id, 1), 1)]);
    assert_eq!(t.get((id, 1)), Some(21));
}

#[test]
fn receiving_objects_raise_lamport_version() {
    let id: ObjectID = 0x21;
    let mut t0 = tx(1, vec![shared(id, 1, true)], 3);
    t0.receiving_objects = vec![ObjectKey(0x77, 30)];
    let item = Schedulable::Transaction(t0);
    assert_eq!(item.receiving_object_keys(), vec![ObjectKey(0x77, 30)]);
    let mut t = table(&[((id, 1), 1)]);
    SharedObjVerManager::assign_versions_for_certificate(
        &config(None, None),
        &item,
        &mut t,
        &no_cancellations(),
    )
    .unwrap();
    assert_eq!(t.get((id, 1)), Some(31));
}

#[test]
fn observed_shared_version_raises_lamport_version() {
    let id: ObjectID = 0x22;
    let item = Schedulable::Transaction(tx(1, vec![shared(id, 1, true)], 3));
    let mut t = table(&[((id, 1), 50)]);
    let av = SharedObjVerManager::assign_versions_for_certificate(
        &config(None, None),
        &item,
        &mut t,
        &no_cancellations(),
    )
    .unwrap();
    assert_eq!(av, vec![((id, 1), 50)]);
    assert_eq!(t.get((id, 1)), Some(51));
}

#[test]
fn unreadable_lineage_aborts_batch_and_keeps_epoch_table() {
    let id: ObjectID = 0x30;
    let other: ObjectID = 0x31;
    let mut store = EpochVersionStore::new(config(None, None), false);
    let durable = table(&[((id, 1), 1)]);
    let items = vec![
        Schedulable::Transaction(tx(1, vec![shared(id, 1, true)], 3)),
        Schedulable::Transaction(tx(2, vec![shared(other, 5, true)], 3)),
    ];
    let r = SharedObjVerManager::assign_versions_from_consensus(
        &mut store,
        &durable,
        &items,
        &no_cancellations(),
    );
    assert_eq!(r.unwrap_err(), AssignError::ObjectNotFound(other, 5));
    assert_eq!(store.get_next_object_version(id, 1), None);
    assert_eq!(store.get_next_object_version(other, 5), None);
}

#[test]
fn initialized_lineage_is_not_read_again() {
    let id: ObjectID = 0x32;
    let mut store = EpochVersionStore::new(config(None, None), false);
    let first = table(&[((id, 1), 8)]);
    let keys = vec![(id, 1)];
    let got = store.get_or_init_next_object_versions(&keys, &first).unwrap();
    assert_eq!(got.get((id, 1)), Some(8));
    // A later read of the durable store would differ; the epoch keeps its own version.
    let later = table(&[((id, 1), 99)]);
    let got = store.get_or_init_next_object_versions(&keys, &later).unwrap();
    assert_eq!(got.get((id, 1)), Some(8));
    assert_eq!(got.len(), 1);
    // Lineages that were not asked for are not in the result.
    let empty: Vec<(ObjectID, SequenceNumber)> = vec![];
    assert_eq!(store.get_or_init_next_object_versions(&empty, &later).unwrap().len(), 0);
}

#[test]
fn lineage_missing_from_table_is_an_error() {
    let id: ObjectID = 0x33;
    let item = Schedulable::Transaction(tx(1, vec![shared(id, 1, true)], 3));
    let mut t = VersionTable::new();
    let r = SharedObjVerManager::assign_versions_for_certificate(
        &config(None, None),
        &item,
        &mut t,
        &no_cancellations(),
    );
    assert_eq!(r.unwrap_err(), AssignError::MissingLineage(id, 1));
    assert_eq!(t.len(), 0);
}

#[test]
fn version_past_the_largest_is_an_error() {
    let id: ObjectID = 0x34;
    let item = Schedulable::Transaction(tx(1, vec![shared(id, 1, true)], MAX_SEQUENCE_NUMBER - 1));
    let mut t = table(&[((id, 1), 1)]);
    let r = SharedObjVerManager::assign_versions_for_certificate(
        &config(None, None),
        &item,
        &mut t,
        &no_cancellations(),
    );
    assert_eq!(r.unwrap_err(), AssignError::InvalidNextVersion);
    assert_eq!(t.get((id, 1)), Some(1));
}

#[test]
fn largest_real_version_is_assigned() {
    let id: ObjectID = 0x35;
    let item = Schedulable::Transaction(tx(1, vec![shared(id, 1, true)], MAX_SEQUENCE_NUMBER - 2));
    let mut t = table(&[((id, 1), 1)]);
    SharedObjVerManager::assign_versions_for_certificate(
        &config(None, None),
        &item,
        &mut t,
        &no_cancellations(),
    )
    .unwrap();
    assert_eq!(t.get((id, 1)), Some(MAX_SEQUENCE_NUMBER - 1));
}

#[test]
fn item_without_shared_inputs_is_assigned_nothing() {
    let id: ObjectID = 0x36;
    let item = Schedulable::Transaction(tx(1, vec![], 3));
    let mut t = table(&[((id, 1), 1)]);
    let av = SharedObjVerManager::assign_versions_for_certificate(
        &config(None, None),
        &item,
        &mut t,
        &no_cancellations(),
    )
    .unwrap();
    assert!(av.is_empty());
    assert_eq!(t.get((id, 1)), Some(1));
    assert_eq!(t.len(), 1);
}

#[test]
fn cancelled_item_leaves_table_unchanged() {
    let id1: ObjectID = 0x40;
    let id2: ObjectID = 0x41;
    let rand = SUI_RANDOMNESS_STATE_OBJECT_ID;
    let mut t = table(&[((id1, 1), 6), ((id2, 1), 7), ((rand, 1), 3)]);
    let congested = Schedulable::Transaction(tx(
        1,
        vec![shared(id1, 1, true), shared(id2, 1, true)],
        30,
    ));
    let dkg = Schedulable::Transaction(tx(2, vec![shared(rand, 1, false), shared(id1, 1, true)], 30));
    let mut cancelled = BTreeMap::new();
    cancelled.insert(1, CancelConsensusCertificateReason::CongestionOnObjects(vec![id2]));
    cancelled.insert(2, CancelConsensusCertificateReason::DkgFailed);
    let cfg = config(Some(1), None);
    let av = SharedObjVerManager::assign_versions_for_certificate(&cfg, &congested, &mut t, &cancelled)
        .unwrap();
    assert_eq!(av, vec![((id1, 1), CANCELLED_READ), ((id2, 1), CONGESTED)]);
    let av = SharedObjVerManager::assign_versions_for_certificate(&cfg, &dkg, &mut t, &cancelled).unwrap();
    assert_eq!(av, vec![((rand, 1), RANDOMNESS_UNAVAILABLE), ((id1, 1), CANCELLED_READ)]);
    assert_eq!(t.get((id1, 1)), Some(6));
    assert_eq!(t.get((id2, 1)), Some(7));
    assert_eq!(t.get((rand, 1)), Some(3));
}

#[test]
fn immutable_access_does_not_advance() {
    let id: ObjectID = 0x42;
    let mut t = table(&[((id, 1), 5)]);
    let cfg = config(None, None);
    let reader = Schedulable::Transaction(tx(1, vec![shared(id, 1, false)], 90));
    let writer = Schedulable::Transaction(tx(2, vec![shared(id, 1, true)], 2));
    let av = SharedObjVerManager::assign_versions_for_certificate(&cfg, &reader, &mut t, &no_cancellations())
        .unwrap();
    assert_eq!(av, vec![((id, 1), 5)]);
    assert_eq!(t.get((id, 1)), Some(5));
    let av = SharedObjVerManager::assign_versions_for_certificate(&cfg, &writer, &mut t, &no_cancellations())
        .unwrap();
    assert_eq!(av, vec![((id, 1), 5)]);
    assert_eq!(t.get((id, 1)), Some(6));
}

#[test]
fn mutated_lineage_strictly_increases_through_batch() {
    let id: ObjectID = 0x43;
    let mut store = EpochVersionStore::new(config(None, None), false);
    let durable = table(&[((id, 1), 1)]);
    let gas = [1u64, 1, 2, 1, 7];
    let items: Vec<Schedulable> = gas
        .iter()
        .enumerate()
        .map(|(i, g)| Schedulable::Transaction(tx(i as u64 + 1, vec![shared(id, 1, true)], *g)))
        .collect();
    let out = SharedObjVerManager::assign_versions_from_consensus(
        &mut store,
        &durable,
        &items,
        &no_cancellations(),
    )
    .unwrap();
    let seen: Vec<SequenceNumber> = out.assigned_versions.0.iter().map(|(_, av)| av[0].1).collect();
    assert_eq!(seen, vec![1, 2, 3, 4, 5]);
    assert_eq!(out.shared_input_next_versions.get((id, 1)), Some(8));
}

#[test]
fn replaying_batch_twice_gives_same_result() {
    let id1: ObjectID = 0x44;
    let id2: ObjectID = 0x45;
    let durable = table(&[((id1, 1), 3), ((id2, 2), 9)]);
    let items = vec![
        Schedulable::Transaction(tx(1, vec![shared(id1, 1, true), shared(id2, 2, false)], 4)),
        Schedulable::Transaction(tx(2, vec![shared(id2, 2, true)], 1)),
        Schedulable::Transaction(tx(3, vec![shared(id1, 1, true), shared(id2, 2, true)], 2)),
    ];
    let mut cancelled = BTreeMap::new();
    cancelled.insert(2, CancelConsensusCertificateReason::CongestionOnObjects(vec![id2]));
    let mut first_store = EpochVersionStore::new(config(None, None), false);
    let mut second_store = EpochVersionStore::new(config(None, None), false);
    let a = SharedObjVerManager::assign_versions_from_consensus(&mut first_store, &durable, &items, &cancelled)
        .unwrap();
    let b = SharedObjVerManager::assign_versions_from_consensus(&mut second_store, &durable, &items, &cancelled)
        .unwrap();
    assert_eq!(a.assigned_versions.0, b.assigned_versions.0);
    for k in [(id1, 1), (id2, 2)] {
        assert_eq!(a.shared_input_next_versions.get(k), b.shared_input_next_versions.get(k));
    }
    assert_eq!(a.shared_input_next_versions.get((id1, 1)), Some(11));
    assert_eq!(a.shared_input_next_versions.get((id2, 2)), Some(11));
}

#[test]
fn effects_replay_reproduces_consensus_assignment() {
    let id: ObjectID = 0x46;
    let durable = table(&[((id, 1), 1)]);
    let certs = vec![
        tx(1, vec![shared(id, 1, true)], 3),
        tx(2, vec![shared(id, 1, false)], 5),
        tx(3, vec![shared(id, 1, true)], 9),
        tx(4, vec![shared(id, 1, true)], 11),
    ];
    let items: Vec<Schedulable> = certs.iter().cloned().map(Schedulable::Transaction).collect();
    let mut store = EpochVersionStore::new(config(None, None), false);
    let forward = SharedObjVerManager::assign_versions_from_consensus(
        &mut store,
        &durable,
        &items,
        &no_cancellations(),
    )
    .unwrap();
    let pairs: Vec<(ExecutableTransaction, TransactionEffects)> = certs
        .iter()
        .cloned()
        .zip(forward.assigned_versions.0.iter())
        .map(|(c, (_, av))| {
            let recorded = av.iter().map(|((oid, _), v)| ObjectKey(*oid, *v)).collect();
            (c, TransactionEffects { input_shared_objects: recorded })
        })
        .collect();
    let mut replay_store = EpochVersionStore::new(config(None, None), false);
    let replayed =
        SharedObjVerManager::assign_versions_from_effects(&pairs, &mut replay_store, &durable).unwrap();
    assert_eq!(replayed.0, forward.assigned_versions.0);
    assert_eq!(replay_store.get_next_object_version(id, 1), Some(1));
}

#[test]
fn declared_input_missing_from_effects_is_an_error() {
    let id: ObjectID = 0x47;
    let absent: ObjectID = 0x48;
    let pairs = vec![(
        tx(1, vec![shared(id, 1, true), shared(absent, 2, false)], 3),
        TransactionEffects { input_shared_objects: vec![ObjectKey(id, 4)] },
    )];
    let mut store = EpochVersionStore::new(config(None, None), false);
    let r = SharedObjVerManager::assign_versions_from_effects(&pairs, &mut store, &VersionTable::new());
    assert_eq!(r.unwrap_err(), AssignError::MissingInputInEffects(absent, 2));
    // The durable store had nothing to offer, so nothing was initialized.
    assert_eq!(store.get_next_object_version(id, 1), None);
}

#[test]
fn effects_versions_follow_declaration_order() {
    let a: ObjectID = 0x49;
    let b: ObjectID = 0x4a;
    let pairs = vec![(
        tx(1, vec![shared(a, 1, false), shared(b, 6, true)], 3),
        TransactionEffects {
            input_shared_objects: vec![ObjectKey(b, 12), ObjectKey(0x99, 3), ObjectKey(a, 5)],
        },
    )];
    let mut store = EpochVersionStore::new(config(None, None), false);
    let durable = table(&[((a, 1), 1), ((b, 6), 10)]);
    let r = SharedObjVerManager::assign_versions_from_effects(&pairs, &mut store, &durable).unwrap();
    assert_eq!(r.0, vec![(TransactionKey::Digest(1), vec![((a, 1), 5), ((b, 6), 12)])]);
    assert_eq!(store.get_next_object_version(a, 1), Some(1));
    assert_eq!(store.get_next_object_version(b, 6), Some(10));
}

#[test]
fn schedulable_shared_inputs_and_keys() {
    let cfg = config(Some(3), Some(4));
    let t = tx(9, vec![shared(0x50, 2, false)], 1);
    assert_eq!(Schedulable::Transaction(t.clone()).shared_input_objects(&cfg).unwrap(), vec![shared(0x50, 2, false)]);
    assert_eq!(
        Schedulable::RandomnessStateUpdate(1, 2).shared_input_objects(&cfg).unwrap(),
        vec![shared(SUI_RANDOMNESS_STATE_OBJECT_ID, 3, true)]
    );
    assert_eq!(
        Schedulable::AccumulatorSettlement(1, 5).shared_input_objects(&cfg).unwrap(),
        vec![shared(SUI_ACCUMULATOR_ROOT_OBJECT_ID, 4, true)]
    );
    assert_eq!(
        Schedulable::AccumulatorSettlement(1, 5).shared_input_objects(&config(Some(3), None)).unwrap_err(),
        AssignError::MissingEpochConfig
    );
    assert_eq!(Schedulable::Withdraw(t.clone(), 2).key(), TransactionKey::Digest(9));
    assert_eq!(Schedulable::RandomnessStateUpdate(1, 2).key(), TransactionKey::RandomnessRound(1, 2));
    assert_eq!(Schedulable::AccumulatorSettlement(1, 5).key(), TransactionKey::AccumulatorSettlement(1, 5));
    assert!(Schedulable::RandomnessStateUpdate(1, 2).as_tx().is_none());
    assert_eq!(Schedulable::from(t.clone()).as_tx().unwrap().digest, 9);
    assert_eq!(Schedulable::from(t.clone()).key(), TransactionKey::Digest(9));
    assert_eq!(Schedulable::Withdraw(t.clone(), 2).as_tx().unwrap().digest, 9);
    assert!(Schedulable::RandomnessStateUpdate(1, 2).non_shared_input_object_keys().is_empty());
    assert_eq!(TransactionKey::Digest(9).as_digest(), Some(9));
    assert_eq!(TransactionKey::RandomnessRound(1, 2).as_digest(), None);
}

#[test]
fn version_table_insert_get_len() {
    let mut t = VersionTable::new();
    assert_eq!(t.len(), 0);
    t.insert((1, 1), 4);
    t.insert((1, 2), 5);
    t.insert((1, 1), 6);
    assert_eq!(t.len(), 2);
    assert_eq!(t.get((1, 1)), Some(6));
    assert_eq!(t.get_next_object_version(1, 2), Some(5));
    assert!(t.contains_key((1, 2)));
    assert!(!t.contains_key((2, 1)));
    assert_eq!(t.get((2, 1)), None);
}

#[test]
fn validity_of_versions() {
    assert!(is_valid(0));
    assert!(is_valid(MAX_SEQUENCE_NUMBER - 1));
    assert!(!is_valid(MAX_SEQUENCE_NUMBER));
    assert!(!is_valid(CANCELLED_READ));
    assert!(!is_valid(CONGESTED));
    assert!(!is_valid(RANDOMNESS_UNAVAILABLE));
}
