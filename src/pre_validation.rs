//! The decisions of a domain's transaction pre-validation: a cross-domain message
//! must check out against the consensus chain, and a fraud proof is verified on
//! a blocking task before the transaction is validated as usual.
use vstd::prelude::*;

verus! {

/// What the runtime finds in a transaction.
#[derive(Debug, Clone, Copy, PartialEq, Eq, Structural)]
pub enum PreValidationKind {
    Null,
    Bundle,
    FraudProof,
}

/// How the verification of a fraud proof ended.
#[derive(Debug, Clone, Copy, PartialEq, Eq, Structural)]
pub enum FraudProofCheck {
    Valid,
    Invalid,
    /// The verifying task went away without an answer.
    Lost,
}

/// Why a transaction is refused before validation.
#[derive(Debug, Clone, Copy, PartialEq, Eq, Structural)]
pub enum TxRejection {
    /// A cross-domain message that does not check out.
    ImmediatelyDropped,
    /// A fraud proof that does not hold.
    InvalidFraudProof,
    /// No answer about the fraud proof.
    CannotLookup,
}

/// What pre-validation does next.
#[derive(Debug, Clone, Copy, PartialEq, Eq, Structural)]
pub enum PreValidationStep {
    Reject(TxRejection),
    /// Go on with regular validation.
    Accept,
    /// Verify the fraud proof, then ask `fraud_proof_verdict`.
    VerifyFraudProof,
}

/// After the message check and the look at the transaction's content.
pub fn first_verdict(xdm_valid: bool, kind: PreValidationKind) -> (r: PreValidationStep)
    ensures
        !xdm_valid ==> r == PreValidationStep::Reject(TxRejection::ImmediatelyDropped),
        xdm_valid && kind == PreValidationKind::FraudProof ==> r == PreValidationStep::VerifyFraudProof,
        xdm_valid && kind != PreValidationKind::FraudProof ==> r == PreValidationStep::Accept,
{
    if !xdm_valid {
        return PreValidationStep::Reject(TxRejection::ImmediatelyDropped);
    }
    match kind {
        PreValidationKind::FraudProof => PreValidationStep::VerifyFraudProof,
        PreValidationKind::Null | PreValidationKind::Bundle => PreValidationStep::Accept,
    }
}

/// After the fraud proof was verified.
pub fn fraud_proof_verdict(check: FraudProofCheck) -> (r: Result<(), TxRejection>)
    ensures
        check == FraudProofCheck::Valid ==> r == Ok::<(), TxRejection>(()),
        check == FraudProofCheck::Invalid ==> r == Err::<(), TxRejection>(TxRejection::InvalidFraudProof),
        check == FraudProofCheck::Lost ==> r == Err::<(), TxRejection>(TxRejection::CannotLookup),
{
    match check {
        FraudProofCheck::Valid => Ok(()),
        FraudProofCheck::Invalid => Err(TxRejection::InvalidFraudProof),
        FraudProofCheck::Lost => Err(TxRejection::CannotLookup),
    }
}

} // verus!
