use dsn_sync::pre_validation::{
    first_verdict, fraud_proof_verdict, FraudProofCheck, PreValidationKind, PreValidationStep, TxRejection,
};

#[test]
fn bad_cross_domain_message_is_dropped() {
    assert_eq!(
        first_verdict(false, PreValidationKind::Null),
        PreValidationStep::Reject(TxRejection::ImmediatelyDropped)
    );
    assert_eq!(
        first_verdict(false, PreValidationKind::FraudProof),
        PreValidationStep::Reject(TxRejection::ImmediatelyDropped)
    );
}

#[test]
fn plain_transactions_and_bundles_go_on() {
    assert_eq!(first_verdict(true, PreValidationKind::Null), PreValidationStep::Accept);
    assert_eq!(first_verdict(true, PreValidationKind::Bundle), PreValidationStep::Accept);
}

#[test]
fn fraud_proofs_are_verified_first() {
    assert_eq!(first_verdict(true, PreValidationKind::FraudProof), PreValidationStep::VerifyFraudProof);
    assert_eq!(fraud_proof_verdict(FraudProofCheck::Valid), Ok(()));
    assert_eq!(fraud_proof_verdict(FraudProofCheck::Invalid), Err(TxRejection::InvalidFraudProof));
    assert_eq!(fraud_proof_verdict(FraudProofCheck::Lost), Err(TxRejection::CannotLookup));
}
