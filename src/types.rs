//! Plain-value model of the identifiers and versions that version assignment reads.
use vstd::prelude::*;

verus! {

/// Identity of an object.
pub type ObjectID = u64;

/// A version of an object; see the reserved values below.
pub type SequenceNumber = u64;

/// Identity of a transaction.
pub type TransactionDigest = u64;

pub type EpochId = u64;

pub type RandomnessRound = u64;

/// One shared object's version lineage within an epoch: its identity and the
/// version at which it became shared.
pub type ConsensusObjectSequenceKey = (ObjectID, SequenceNumber);

/// The versions that one item observed, in the order its shared inputs were declared.
pub type AssignedVersions = Vec<(ConsensusObjectSequenceKey, SequenceNumber)>;

/// The well-known object that holds the randomness state.
pub const SUI_RANDOMNESS_STATE_OBJECT_ID: ObjectID = 0x8;

/// The well-known root object of the accumulators.
pub const SUI_ACCUMULATOR_ROOT_OBJECT_ID: ObjectID = 0xacc;

/// The largest version; it and everything above it is not a real version.
pub const MAX_SEQUENCE_NUMBER: SequenceNumber = 0x7fff_ffff_ffff_ffff;

/// Recorded for a shared input of a cancelled item that it only reads.
pub const CANCELLED_READ: SequenceNumber = 0x8000_0000_0000_0000;

/// Recorded for a shared input of an item cancelled for congestion on that object.
pub const CONGESTED: SequenceNumber = 0x8000_0000_0000_0001;

/// Recorded for the randomness object of an item cancelled because randomness failed.
pub const RANDOMNESS_UNAVAILABLE: SequenceNumber = 0x8000_0000_0000_0002;

/// A real version: below the largest one.
pub open spec fn is_valid_version(v: int) -> bool {
    0 <= v < MAX_SEQUENCE_NUMBER
}

pub fn is_valid(v: SequenceNumber) -> (r: bool)
    ensures
        r == is_valid_version(v as int),
{
    v < MAX_SEQUENCE_NUMBER
}

/// An object at a given version.
#[derive(Clone, Copy, Debug, PartialEq, Eq, Structural)]
pub struct ObjectKey(pub ObjectID, pub SequenceNumber);

/// A shared object that an item declares as input.
#[derive(Clone, Copy, Debug, PartialEq, Eq, Structural)]
pub struct SharedInputObject {
    pub id: ObjectID,
    pub initial_shared_version: SequenceNumber,
    pub mutable: bool,
}

impl SharedInputObject {
    pub open spec fn lineage(self) -> ConsensusObjectSequenceKey {
        (self.id, self.initial_shared_version)
    }

    pub fn id_and_version(&self) -> (r: ConsensusObjectSequenceKey)
        ensures
            r == self.lineage(),
    {
        (self.id, self.initial_shared_version)
    }
}

/// The unique scheduling key of an item.
#[derive(Clone, Copy, Debug, PartialEq, Eq, Structural)]
pub enum TransactionKey {
    Digest(TransactionDigest),
    RandomnessRound(EpochId, RandomnessRound),
    AccumulatorSettlement(EpochId, u64),
}

impl TransactionKey {
    pub fn as_digest(&self) -> (r: Option<TransactionDigest>)
        ensures
            r == (match *self {
                TransactionKey::Digest(d) => Some(d),
                _ => None,
            }),
    {
        match self {
            TransactionKey::Digest(d) => Some(*d),
            _ => None,
        }
    }
}

/// Why consensus cancelled a transaction; decided outside this library.
#[derive(Clone, Debug)]
pub enum CancelConsensusCertificateReason {
    CongestionOnObjects(Vec<ObjectID>),
    DkgFailed,
}

/// A fatal inconsistency in the input: the batch must be abandoned.
#[derive(Clone, Copy, Debug, PartialEq, Eq, Structural)]
pub enum AssignError {
    /// A randomness or settlement item needs an initial version that the epoch
    /// configuration does not hold.
    MissingEpochConfig,
    /// A settlement item was scheduled while accumulators are disabled.
    AccumulatorsDisabled,
    /// The durable store holds no version for a lineage that must be initialized.
    ObjectNotFound(ObjectID, SequenceNumber),
    /// A shared input's lineage has no entry in the version table.
    MissingLineage(ObjectID, SequenceNumber),
    /// The version computed for an item is not a real version.
    InvalidNextVersion,
    /// The effects record no version for a shared input that the transaction declares.
    MissingInputInEffects(ObjectID, SequenceNumber),
}

} // verus!
