use vstd::prelude::*;

verus! {

/// Errors reported by sharding, reconstruction, puzzle solving and decoding.
///
/// All cryptographic and consistency failures are fail-closed: no function
/// returns a secret it could not verify.
#[derive(Clone, Copy, Debug, PartialEq, Eq, Structural)]
pub enum ShardError {
    /// The requested share count or threshold is out of range.
    InvalidParameters,
    /// Fewer than the threshold number of shares were supplied.
    InsufficientShares,
    /// Two supplied shares carry the same index.
    DuplicateIndex,
    /// Two threshold-sized subsets imply different secrets (tampering).
    InconsistentShares,
    /// The solved puzzle value does not match the verification hash.
    PuzzleVerificationFailed,
    /// A share record is truncated, version-mismatched or out of range.
    MalformedShare,
    /// Statistical screening rejected every regenerated share set.
    BackdoorGenerationFailed,
    /// A value outside the field was supplied to field arithmetic.
    InvalidFieldElement,
}

impl ShardError {
    /// A short diagnostic name for the error.
    pub fn describe(&self) -> (r: &'static str)
        ensures r@.len() > 0,
    {
        let s = match self {
            ShardError::InvalidParameters => "invalid parameters",
            ShardError::InsufficientShares => "insufficient shares",
            ShardError::DuplicateIndex => "duplicate share index",
            ShardError::InconsistentShares => "inconsistent shares",
            ShardError::PuzzleVerificationFailed => "puzzle verification failed",
            ShardError::MalformedShare => "malformed share",
            ShardError::BackdoorGenerationFailed => "backdoor screening exhausted retries",
            ShardError::InvalidFieldElement => "invalid field element",
        };
        proof {
            reveal_strlit("invalid parameters");
            reveal_strlit("insufficient shares");
            reveal_strlit("duplicate share index");
            reveal_strlit("inconsistent shares");
            reveal_strlit("puzzle verification failed");
            reveal_strlit("malformed share");
            reveal_strlit("backdoor screening exhausted retries");
            reveal_strlit("invalid field element");
        }
        s
    }
}

} // verus!
