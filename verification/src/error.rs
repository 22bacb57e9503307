//! The typed errors of the client, and the lifecycle status it reports.

use vstd::prelude::*;

verus! {

/// Why an operation was rejected. Each verified entry point says exactly on
/// which inputs each variant comes.
#[derive(Clone, Copy, Debug, PartialEq, Eq, Structural)]
pub enum Error {
    /// Bytes failed to decode as the expected value.
    DecodeError,
    /// The proof holds no nodes.
    MissingProofData,
    /// The proof bytes failed to decode as a list of nodes.
    InvalidCommitmentProof,
    /// The commitment root bytes failed to decode as a list of chunk roots.
    InvalidCommitmentRoot,
    /// The first proof node hashes to none of the trusted chunk roots.
    InvalidRootHashOfProofData,
    /// A proof node is malformed, repeated, unused, or contradicts the walk.
    InvalidProofData,
    /// The walk ran off the end of the proof.
    InvalidProofDataLength,
    /// A non-membership proof showed the key does hold a value.
    SpecifiedKeyHasValueInState,
    /// The header's height does not exceed the trusted height.
    HeaderTooOld,
    /// The header's epoch is neither the trusted epoch nor its successor.
    InvalidEpochId,
    /// The header rotates the epoch but carries no next block producers.
    MissingNextBlockProducersInHeader,
    /// The trusted consensus state knows no producers for the header's epoch.
    MissingEpochBlockProducers,
    /// An approval signature failed Ed25519 verification.
    InvalidSignatureInHeader,
    /// The approving stake does not strictly exceed two thirds of the total.
    InsufficientApprovedStake,
    /// The stake sums do not fit the machine's arithmetic.
    StakeArithmeticOverflow,
    /// The header's height leaves no room for the approval target height.
    InvalidHeaderHeight,
    /// The announced next block producers do not hash to the committed value.
    InvalidNextBpsHash,
    /// The chunk state roots do not merklize to the header's state root.
    InvalidPrevStateRootOfChunks,
    /// The queried proof height exceeds the client's latest height.
    InvalidProofHeight,
    /// No consensus state is stored at the required height.
    ConsensusStateNotFound,
    /// A fresh client state may not start out frozen.
    FrozenHeightNotAllowed,
    /// A consensus state must carry a non-empty commitment root.
    EmptyCommitmentRoot,
    /// Client upgrades are not available on NEAR.
    UpgradeNotSupported,
}

/// The lifecycle status of a client.
#[derive(Clone, Copy, Debug, PartialEq, Eq, Structural)]
pub enum Status {
    Active,
    Frozen,
    Expired,
}

} // verus!
