//! The per-epoch table of next versions, initialized lazily from the durable store.
use vstd::prelude::*;
use crate::schedulable::EpochStartConfig;
use crate::table::VersionTable;
use crate::types::{AssignError, ConsensusObjectSequenceKey, ObjectID, SequenceNumber};

verus! {

/// Lineages of `keys` that neither the epoch table nor the durable store knows.
pub open spec fn unreadable(
    keys: Set<ConsensusObjectSequenceKey>,
    epoch: Map<ConsensusObjectSequenceKey, SequenceNumber>,
    durable: Map<ConsensusObjectSequenceKey, SequenceNumber>,
    k: ConsensusObjectSequenceKey,
) -> bool {
    keys.contains(k) && !epoch.contains_key(k) && !durable.contains_key(k)
}

/// The epoch table once every lineage of `keys` it lacks has been read from the durable store.
pub open spec fn initialized(
    keys: Set<ConsensusObjectSequenceKey>,
    epoch: Map<ConsensusObjectSequenceKey, SequenceNumber>,
    durable: Map<ConsensusObjectSequenceKey, SequenceNumber>,
) -> Map<ConsensusObjectSequenceKey, SequenceNumber> {
    durable.restrict(keys).union_prefer_right(epoch)
}

/// What one epoch knows of shared-object versions.
pub struct EpochVersionStore {
    config: EpochStartConfig,
    accumulators_enabled: bool,
    next_versions: VersionTable,
}

impl EpochVersionStore {
    pub closed spec fn spec_config(&self) -> EpochStartConfig {
        self.config
    }

    pub closed spec fn spec_accumulators_enabled(&self) -> bool {
        self.accumulators_enabled
    }

    /// The next version of every lineage initialized in this epoch.
    pub closed spec fn spec_next_versions(&self) -> Map<ConsensusObjectSequenceKey, SequenceNumber> {
        self.next_versions@
    }

    pub closed spec fn wf(&self) -> bool {
        self.next_versions.wf()
    }

    /// A store at the start of an epoch: no lineage initialized yet.
    pub fn new(config: EpochStartConfig, accumulators_enabled: bool) -> (r: Self)
        ensures
            r.wf(),
            r.spec_config() == config,
            r.spec_accumulators_enabled() == accumulators_enabled,
            r.spec_next_versions() == Map::<ConsensusObjectSequenceKey, SequenceNumber>::empty(),
    {
        EpochVersionStore { config, accumulators_enabled, next_versions: VersionTable::new() }
    }

    pub fn epoch_start_config(&self) -> (r: &EpochStartConfig)
        ensures
            *r == self.spec_config(),
    {
        &self.config
    }

    pub fn accumulators_enabled(&self) -> (r: bool)
        ensures
            r == self.spec_accumulators_enabled(),
    {
        self.accumulators_enabled
    }

    pub fn get_next_object_version(&self, id: ObjectID, initial_shared_version: SequenceNumber) -> (r:
        Option<SequenceNumber>)
        requires
            self.wf(),
        ensures
            r == (if self.spec_next_versions().contains_key((id, initial_shared_version)) {
                Some(self.spec_next_versions()[(id, initial_shared_version)])
            } else {
                None::<SequenceNumber>
            }),
    {
        self.next_versions.get_next_object_version(id, initial_shared_version)
    }

    /// Initializes, from `durable` (the durable store's current version of each
    /// lineage), every lineage of `keys` that this epoch has not seen, and returns
    /// the next version of each lineage of `keys`. Lineages already initialized
    /// keep their version. Where some lineage is in neither table, nothing
    /// changes and the error names one such lineage.
    pub fn get_or_init_next_object_versions(
        &mut self,
        keys: &Vec<ConsensusObjectSequenceKey>,
        durable: &VersionTable,
    ) -> (r: Result<VersionTable, AssignError>)
        requires
            old(self).wf(),
            durable.wf(),
        ensures
            final(self).wf(),
            final(self).spec_config() == old(self).spec_config(),
            final(self).spec_accumulators_enabled() == old(self).spec_accumulators_enabled(),
            r is Err <==> exists|k: ConsensusObjectSequenceKey|
                unreadable(keys@.to_set(), old(self).spec_next_versions(), durable@, k),
            match r {
                Ok(t) => {
                    &&& t.wf()
                    &&& final(self).spec_next_versions() == initialized(
                        keys@.to_set(),
                        old(self).spec_next_versions(),
                        durable@,
                    )
                    &&& t@ == final(self).spec_next_versions().restrict(keys@.to_set())
                },
                Err(e) => {
                    &&& e matches AssignError::ObjectNotFound(id, v) && unreadable(
                        keys@.to_set(),
                        old(self).spec_next_versions(),
                        durable@,
                        (id, v),
                    )
                    &&& final(self).spec_next_versions() == old(self).spec_next_versions()
                },
            },
    {
        let ghost epoch0 = self.next_versions@;
        let mut i: usize = 0;
        while i < keys.len()
            invariant
                i <= keys@.len(),
                self.next_versions.wf(),
                self.next_versions@ == epoch0,
                epoch0 == old(self).spec_next_versions(),
                self.config == old(self).config,
                self.accumulators_enabled == old(self).accumulators_enabled,
                durable.wf(),
                forall|j: int|
                    0 <= j < i ==> #[trigger] self.next_versions@.contains_key(keys@[j])
                        || durable@.contains_key(keys@[j]),
            decreases keys@.len() - i,
        {
            let k = keys[i];
            if !self.next_versions.contains_key(k) && !durable.contains_key(k) {
                proof {
                    assert(keys@.contains(k)) by {
                        assert(keys@[i as int] == k);
                    }
                    assert(unreadable(keys@.to_set(), epoch0, durable@, k));
                }
                return Err(AssignError::ObjectNotFound(k.0, k.1));
            }
            i = i + 1;
        }
        proof {
            assert forall|k: ConsensusObjectSequenceKey| !unreadable(keys@.to_set(), epoch0, durable@, k) by {
                if keys@.contains(k) {
                    let j = choose|j: int| 0 <= j < keys@.len() && keys@[j] == k;
                    assert(self.next_versions@.contains_key(keys@[j]) || durable@.contains_key(keys@[j]));
                }
            }
        }
        let mut result = VersionTable::new();
        let mut i: usize = 0;
        while i < keys.len()
            invariant
                i <= keys@.len(),
                self.next_versions.wf(),
                epoch0 == old(self).spec_next_versions(),
                self.config == old(self).config,
                self.accumulators_enabled == old(self).accumulators_enabled,
                durable.wf(),
                result.wf(),
                forall|k: ConsensusObjectSequenceKey| !unreadable(keys@.to_set(), epoch0, durable@, k),
                self.next_versions@ == initialized(keys@.take(i as int).to_set(), epoch0, durable@),
                result@ == self.next_versions@.restrict(keys@.take(i as int).to_set()),
            decreases keys@.len() - i,
        {
            let k = keys[i];
            let ghost before = keys@.take(i as int);
            let ghost after = keys@.take(i + 1);
            proof {
                assert(after =~= before.push(k));
                assert(after.to_set() =~= before.to_set().insert(k)) by {
                    assert forall|x: ConsensusObjectSequenceKey| after.to_set().contains(x) <==> before.to_set().insert(k).contains(x) by {
                        if after.contains(x) {
                            let j = choose|j: int| 0 <= j < after.len() && after[j] == x;
                            if j < before.len() {
                                assert(before[j] == x);
                            }
                        }
                        if before.contains(x) {
                            let j = choose|j: int| 0 <= j < before.len() && before[j] == x;
                            assert(after[j] == x);
                        }
                        if x == k {
                            assert(after[i as int] == x);
                        }
                    }
                }
                assert(keys@.contains(k)) by {
                    assert(keys@[i as int] == k);
                }
                assert(!unreadable(keys@.to_set(), epoch0, durable@, k));
            }
            let v = match self.next_versions.get(k) {
                Some(v) => v,
                None => {
                    let v = durable.get(k).unwrap();
                    self.next_versions.insert(k, v);
                    v
                },
            };
            result.insert(k, v);
            i = i + 1;
            proof {
                assert(self.next_versions@ =~= initialized(after.to_set(), epoch0, durable@));
                assert(result@ =~= self.next_versions@.restrict(after.to_set()));
            }
        }
        proof {
            assert(keys@.take(keys@.len() as int) =~= keys@);
        }
        Ok(result)
    }
}

} // verus!
