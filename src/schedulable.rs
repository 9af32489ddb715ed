//! The kinds of work that consume shared-object versions, and what each one
//! reads.
use vstd::prelude::*;
use crate::types::{
    AssignError, EpochId, ObjectKey, RandomnessRound, SequenceNumber, SharedInputObject,
    TransactionDigest, TransactionKey, SUI_ACCUMULATOR_ROOT_OBJECT_ID,
    SUI_RANDOMNESS_STATE_OBJECT_ID,
};

verus! {

/// The inputs of a certified transaction, as version assignment reads them.
#[derive(Clone, Debug)]
pub struct ExecutableTransaction {
    pub digest: TransactionDigest,
    /// Shared objects, in the order the transaction declares them.
    pub shared_inputs: Vec<SharedInputObject>,
    /// Owned and immutable inputs, the gas objects included, at their versions.
    pub non_shared_inputs: Vec<ObjectKey>,
    /// Objects the transaction receives, at their versions.
    pub receiving_objects: Vec<ObjectKey>,
}

impl ExecutableTransaction {
    pub fn key(&self) -> (r: TransactionKey)
        ensures
            r == TransactionKey::Digest(self.digest),
    {
        TransactionKey::Digest(self.digest)
    }
}

/// What execution recorded of a transaction, as version assignment reads it.
#[derive(Clone, Debug)]
pub struct TransactionEffects {
    /// Each shared input, by identity, with the version the transaction saw it at.
    pub input_shared_objects: Vec<ObjectKey>,
}

/// What the epoch's configuration says of the well-known system objects.
#[derive(Clone, Copy, Debug)]
pub struct EpochStartConfig {
    pub randomness_obj_initial_shared_version: Option<SequenceNumber>,
    pub accumulator_root_obj_initial_shared_version: Option<SequenceNumber>,
}

/// One item of a consensus-ordered batch.
#[derive(Clone, Debug)]
pub enum Schedulable {
    Transaction(ExecutableTransaction),
    RandomnessStateUpdate(EpochId, RandomnessRound),
    /// A transaction with withdraw reservations, and the accumulator version it depends on.
    Withdraw(ExecutableTransaction, SequenceNumber),
    /// Settlement of the accumulators at a checkpoint height.
    AccumulatorSettlement(EpochId, u64),
}

impl From<ExecutableTransaction> for Schedulable {
    fn from(tx: ExecutableTransaction) -> (r: Schedulable) {
        Schedulable::Transaction(tx)
    }
}

impl vstd::std_specs::convert::FromSpecImpl<ExecutableTransaction> for Schedulable {
    open spec fn obeys_from_spec() -> bool {
        true
    }

    open spec fn from_spec(v: ExecutableTransaction) -> Schedulable {
        Schedulable::Transaction(v)
    }
}

/// The single, mutable shared input synthesized for a system object.
pub open spec fn system_input(id: u64, initial: Option<SequenceNumber>) -> Option<
    Seq<SharedInputObject>,
> {
    match initial {
        Some(v) => Some(seq![SharedInputObject { id, initial_shared_version: v, mutable: true }]),
        None => None,
    }
}

impl Schedulable {
    /// The shared inputs of the item; `None` where the epoch configuration
    /// lacks the initial version of the system object it needs.
    pub open spec fn spec_shared_inputs(self, config: EpochStartConfig) -> Option<
        Seq<SharedInputObject>,
    > {
        match self {
            Schedulable::Transaction(tx) => Some(tx.shared_inputs@),
            Schedulable::Withdraw(tx, _) => Some(tx.shared_inputs@),
            Schedulable::RandomnessStateUpdate(_, _) => system_input(
                SUI_RANDOMNESS_STATE_OBJECT_ID,
                config.randomness_obj_initial_shared_version,
            ),
            Schedulable::AccumulatorSettlement(_, _) => system_input(
                SUI_ACCUMULATOR_ROOT_OBJECT_ID,
                config.accumulator_root_obj_initial_shared_version,
            ),
        }
    }

    /// Inputs that are not shared; a withdrawal adds the accumulator version it depends on.
    pub open spec fn spec_non_shared_inputs(self) -> Seq<ObjectKey> {
        match self {
            Schedulable::Transaction(tx) => tx.non_shared_inputs@,
            Schedulable::Withdraw(tx, v) => tx.non_shared_inputs@.push(
                ObjectKey(SUI_ACCUMULATOR_ROOT_OBJECT_ID, v),
            ),
            _ => Seq::empty(),
        }
    }

    pub open spec fn spec_receiving_inputs(self) -> Seq<ObjectKey> {
        match self {
            Schedulable::Transaction(tx) => tx.receiving_objects@,
            Schedulable::Withdraw(tx, _) => tx.receiving_objects@,
            _ => Seq::empty(),
        }
    }

    pub open spec fn spec_key(self) -> TransactionKey {
        match self {
            Schedulable::Transaction(tx) => TransactionKey::Digest(tx.digest),
            Schedulable::Withdraw(tx, _) => TransactionKey::Digest(tx.digest),
            Schedulable::RandomnessStateUpdate(e, r) => TransactionKey::RandomnessRound(e, r),
            Schedulable::AccumulatorSettlement(e, h) => TransactionKey::AccumulatorSettlement(e, h),
        }
    }

    pub fn as_tx(&self) -> (r: Option<&ExecutableTransaction>)
        ensures
            r == (match self {
                Schedulable::Transaction(tx) => Some(tx),
                Schedulable::Withdraw(tx, _) => Some(tx),
                _ => None::<&ExecutableTransaction>,
            }),
    {
        match self {
            Schedulable::Transaction(tx) => Some(tx),
            Schedulable::Withdraw(tx, _) => Some(tx),
            _ => None,
        }
    }

    pub fn shared_input_objects(&self, config: &EpochStartConfig) -> (r: Result<
        Vec<SharedInputObject>,
        AssignError,
    >)
        ensures
            match self.spec_shared_inputs(*config) {
                Some(s) => r matches Ok(v) && v@ == s,
                None => r == Err::<Vec<SharedInputObject>, AssignError>(
                    AssignError::MissingEpochConfig,
                ),
            },
    {
        match self {
            Schedulable::Transaction(tx) => Ok(copy_shared_inputs(&tx.shared_inputs)),
            Schedulable::Withdraw(tx, _) => Ok(copy_shared_inputs(&tx.shared_inputs)),
            Schedulable::RandomnessStateUpdate(_, _) => {
                match config.randomness_obj_initial_shared_version {
                    Some(v) => Ok(
                        vec![SharedInputObject { id: SUI_RANDOMNESS_STATE_OBJECT_ID, initial_shared_version: v, mutable: true }],
                    ),
                    None => Err(AssignError::MissingEpochConfig),
                }
            },
            Schedulable::AccumulatorSettlement(_, _) => {
                match config.accumulator_root_obj_initial_shared_version {
                    Some(v) => Ok(
                        vec![SharedInputObject { id: SUI_ACCUMULATOR_ROOT_OBJECT_ID, initial_shared_version: v, mutable: true }],
                    ),
                    None => Err(AssignError::MissingEpochConfig),
                }
            },
        }
    }

    pub fn non_shared_input_object_keys(&self) -> (r: Vec<ObjectKey>)
        ensures
            r@ == self.spec_non_shared_inputs(),
    {
        match self {
            Schedulable::Transaction(tx) => copy_object_keys(&tx.non_shared_inputs),
            Schedulable::Withdraw(tx, v) => {
                let mut keys = copy_object_keys(&tx.non_shared_inputs);
                keys.push(ObjectKey(SUI_ACCUMULATOR_ROOT_OBJECT_ID, *v));
                keys
            },
            _ => Vec::new(),
        }
    }

    pub fn receiving_object_keys(&self) -> (r: Vec<ObjectKey>)
        ensures
            r@ == self.spec_receiving_inputs(),
    {
        match self {
            Schedulable::Transaction(tx) => copy_object_keys(&tx.receiving_objects),
            Schedulable::Withdraw(tx, _) => copy_object_keys(&tx.receiving_objects),
            _ => Vec::new(),
        }
    }

    pub fn key(&self) -> (r: TransactionKey)
        ensures
            r == self.spec_key(),
    {
        match self {
            Schedulable::Transaction(tx) => tx.key(),
            Schedulable::Withdraw(tx, _) => tx.key(),
            Schedulable::RandomnessStateUpdate(e, r) => TransactionKey::RandomnessRound(*e, *r),
            Schedulable::AccumulatorSettlement(e, h) => TransactionKey::AccumulatorSettlement(*e, *h),
        }
    }
}

pub(crate) fn copy_shared_inputs(v: &Vec<SharedInputObject>) -> (r: Vec<SharedInputObject>)
    ensures
        r@ == v@,
{
    let mut r: Vec<SharedInputObject> = Vec::new();
    let mut i: usize = 0;
    while i < v.len()
        invariant
            i <= v@.len(),
            r@ == v@.take(i as int),
        decreases v@.len() - i,
    {
        r.push(v[i]);
        i = i + 1;
        proof {
            assert(r@ =~= v@.take(i as int));
        }
    }
    proof {
        assert(v@.take(v@.len() as int) =~= v@);
    }
    r
}

fn copy_object_keys(v: &Vec<ObjectKey>) -> (r: Vec<ObjectKey>)
    ensures
        r@ == v@,
{
    let mut r: Vec<ObjectKey> = Vec::new();
    let mut i: usize = 0;
    while i < v.len()
        invariant
            i <= v@.len(),
            r@ == v@.take(i as int),
        decreases v@.len() - i,
    {
        r.push(v[i]);
        i = i + 1;
        proof {
            assert(r@ =~= v@.take(i as int));
        }
    }
    proof {
        assert(v@.take(v@.len() as int) =~= v@);
    }
    r
}

} // verus!
