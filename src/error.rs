use vstd::prelude::*;

verus! {

/// The subject of an error: which artifact, field or rule it concerns.
#[derive(Clone, Copy, Debug, PartialEq, Eq, Structural)]
pub enum Item {
    BlockHash,
    BlockHeight,
    PreviousHash,
    Round,
    Timestamp,
    Genesis,
    Header,
    Signer,
    Signature,
    TransactionsRoot,
    Transactions,
    Transaction,
    TransactionId,
    InputId,
    SerialNumber,
    Tag,
    Origin,
    OutputId,
    Commitment,
    Nonce,
    TransitionPublicKey,
    TransitionCommitment,
    ProgramId,
    GenesisCall,
    Fee,
    AnchorHeight,
    AccumulatorPoint,
    CoinbaseProof,
    CoinbaseTarget,
    ProofTarget,
    PartialSolutions,
    ChallengePoints,
    ProverSolution,
    Reward,
    Validator,
    Record,
    Executable,
}

/// The error kinds of the ledger and its helpers.
#[derive(Clone, Copy, Debug, PartialEq, Eq, Structural)]
pub enum Error {
    /// The item is already present.
    Duplicate(Item),
    /// A lookup found nothing.
    Missing(Item),
    /// A structural equality check failed.
    Mismatch(Item),
    /// A count or a target is outside its limits.
    OutOfRange(Item),
    /// Checked arithmetic overflowed.
    Overflow(Item),
    /// A proof, a signature or a rule of validity failed.
    VerificationFailed(Item),
    /// The item is reserved and not supported yet.
    Unsupported(Item),
    /// The text is not a well-formed value.
    Parse,
}

} // verus!
