use reli::base::attestation::sign_payload;
use reli::base::types::{HashRef, SignatureEnvelope};
use reli::verifiers::{VerificationError, Verifier};
use reli::worker::models::{CandidateSubmission, ChallengeRecord, JobSpec, SoftEvidenceBundle, VerificationRecord};
use reli::worker::{WorkerEngine, WorkerExecutionReport};

fn hash(digest: &str) -> HashRef {
    HashRef { algorithm: "sha256".to_string(), digest_hex: digest.to_string() }
}

fn sample_submission() -> CandidateSubmission {
    let mut submission = CandidateSubmission {
        job_id: "job-001".to_string(),
        worker_id: "worker-001".to_string(),
        output_ref: hash("aa"),
        output_summary_hash: hash("bb"),
        soft_evidence_ref: hash("cc"),
        algorithm_execution_hash: hash("dd"),
        worker_signature: SignatureEnvelope {
            signer_id: "worker-001".to_string(),
            signature_hex: "dead".to_string(),
            key_id: "key-1".to_string(),
        },
    };

    let payload = format!(
        "{}|{}|{}|{}|{}|{}",
        submission.job_id,
        submission.worker_id,
        submission.output_ref.digest_hex,
        submission.output_summary_hash.digest_hex,
        submission.soft_evidence_ref.digest_hex,
        submission.algorithm_execution_hash.digest_hex
    );
    submission.worker_signature = sign_payload(payload.as_bytes(), "worker-001", "key-1");
    submission
}

fn sample_record() -> VerificationRecord {
    VerificationRecord {
        submission_id: "sub-001".to_string(),
        verifier_id: "verifier-001".to_string(),
        checks_performed: vec!["shape_check".to_string()],
        check_result: "pass".to_string(),
        dispute_proof_ref: None,
        verifier_signature: SignatureEnvelope {
            signer_id: "verifier-001".to_string(),
            signature_hex: "beef".to_string(),
            key_id: "key-2".to_string(),
        },
    }
}

fn sample_challenge(challenge_type: &str) -> ChallengeRecord {
    ChallengeRecord {
        challenge_id: "challenge-001".to_string(),
        submission_id: "sub-001".to_string(),
        challenger_id: "challenger-001".to_string(),
        challenge_type: challenge_type.to_string(),
        reason: "evidence indicates deterministic mismatch".to_string(),
        observed_residual_score_bits: Some(0.9f64.to_bits()),
        min_required_quality_bits: Some(0.4f64.to_bits()),
        dispute_proof_ref: Some(hash("proof-hash")),
        replay_of_submission_id: Some("sub-0004".to_string()),
        challenger_signature: SignatureEnvelope {
            signer_id: "challenger-001".to_string(),
            signature_hex: "feedface".to_string(),
            key_id: "key-3".to_string(),
        },
    }
}

fn below_quality_floor(residual: u64, quality: u64) -> bool {
    (1.0 - f64::from_bits(residual)) < f64::from_bits(quality)
}

fn residual_matches(a: u64, b: u64) -> bool {
    (f64::from_bits(a) - f64::from_bits(b)).abs() < 1e-9
}

fn parse_bundle(bytes: &[u8]) -> Option<SoftEvidenceBundle> {
    let value: serde_json::Value = serde_json::from_slice(bytes).ok()?;
    let text = |key: &str| value.get(key).and_then(|v| v.as_str()).map(|s| s.to_string());
    let number = |key: &str| value.get(key).and_then(|v| v.as_f64()).map(|x| x.to_bits());
    let notes = value
        .get("notes")?
        .as_array()?
        .iter()
        .map(|v| v.as_str().map(|s| s.to_string()))
        .collect::<Option<Vec<_>>>()?;
    Some(SoftEvidenceBundle {
        schema_version: text("schema_version")?,
        algorithm_id: text("algorithm_id")?,
        profile_id: text("profile_id")?,
        confidence_score_bits: number("confidence_score")?,
        residual_score_bits: number("residual_score")?,
        notes,
    })
}

fn sample_job(profile: &str) -> JobSpec {
    JobSpec {
        job_id: "job-001".to_string(),
        requester: "requester-001".to_string(),
        input_ref: hash("abcd"),
        input_schema: "sensor.packet.v1".to_string(),
        algorithm_profile: profile.to_string(),
        metric_profile: "default-v1".to_string(),
        min_worker_stake: 1,
        reward_pool: 100,
        commit_deadline_epoch_ms: 1,
        reveal_deadline_epoch_ms: 2,
        verify_deadline_epoch_ms: 3,
        finalize_deadline_epoch_ms: 4,
        privacy_mode: "public".to_string(),
    }
}

#[test]
fn verifier_accepts_valid_submission_and_record() {
    let submission = sample_submission();
    let record = sample_record();

    assert!(Verifier::validate_submission(&submission).is_ok());
    assert!(Verifier::validate_verification_record(&record).is_ok());
}

#[test]
fn verifier_rejects_invalid_record_shape() {
    let mut record = sample_record();
    record.check_result = "unknown".to_string();

    let err = Verifier::validate_verification_record(&record).expect_err("should fail");
    assert_eq!(err, VerificationError::InvalidVerificationRecord);
}

#[test]
fn verifier_rejects_invalid_submission_shape() {
    let mut submission = sample_submission();
    submission.job_id = String::new();

    let err = Verifier::validate_submission(&submission).expect_err("should fail");
    assert_eq!(err, VerificationError::InvalidSubmissionShape);
}

#[test]
fn verifier_accepts_fabricated_output_challenge_with_proof() {
    let mut challenge = sample_challenge("fabricated_output");
    challenge.observed_residual_score_bits = None;
    challenge.min_required_quality_bits = None;
    challenge.replay_of_submission_id = None;

    assert!(Verifier::validate_challenge_record(&challenge, below_quality_floor).is_ok());
}

#[test]
fn verifier_accepts_low_quality_challenge_when_threshold_is_violated() {
    let mut challenge = sample_challenge("low_quality");
    challenge.dispute_proof_ref = None;
    challenge.replay_of_submission_id = None;
    challenge.observed_residual_score_bits = Some(0.8f64.to_bits());
    challenge.min_required_quality_bits = Some(0.5f64.to_bits());

    assert!(Verifier::validate_challenge_record(&challenge, below_quality_floor).is_ok());
}

#[test]
fn verifier_rejects_low_quality_challenge_without_quality_violation() {
    let mut challenge = sample_challenge("low_quality");
    challenge.dispute_proof_ref = None;
    challenge.replay_of_submission_id = None;
    challenge.observed_residual_score_bits = Some(0.1f64.to_bits());
    challenge.min_required_quality_bits = Some(0.5f64.to_bits());

    let err = Verifier::validate_challenge_record(&challenge, below_quality_floor).expect_err("should fail");
    assert_eq!(err, VerificationError::InvalidChallengeRecord);
}

#[test]
fn verifier_accepts_replay_attack_challenge_with_prior_submission_ref() {
    let mut challenge = sample_challenge("replay_attack");
    challenge.dispute_proof_ref = None;
    challenge.observed_residual_score_bits = None;
    challenge.min_required_quality_bits = None;

    assert!(Verifier::validate_challenge_record(&challenge, below_quality_floor).is_ok());
}

#[test]
fn verifier_rejects_unknown_challenge_type() {
    let challenge = sample_challenge("not-a-real-type");
    let err = Verifier::validate_challenge_record(&challenge, below_quality_floor).expect_err("should fail");
    assert_eq!(err, VerificationError::InvalidChallengeRecord);
}

#[test]
fn verifier_validates_submission_attestation_and_detects_tamper() {
    let mut submission = sample_submission();
    assert!(Verifier::validate_submission_attestation(&submission).is_ok());

    submission.output_ref.digest_hex = "tampered".to_string();
    let err = Verifier::validate_submission_attestation(&submission).expect_err("should fail");
    assert_eq!(err, VerificationError::InvalidSubmissionAttestation);
}

#[test]
fn verifier_validates_soft_evidence_bundle() {
    let engine = WorkerEngine::new();
    let job = sample_job("turbo-basic");
    let report = engine.execute_job(&job, "worker-001", b"noisy").expect("worker should run");

    let parsed = parse_bundle(&report.soft_evidence_bytes);
    let bundle =
        Verifier::validate_soft_evidence_bundle(&report, parsed, residual_matches).expect("bundle should validate");
    assert_eq!(bundle.profile_id, "turbo-basic");
}

#[test]
fn verifier_rejects_malformed_soft_evidence_bundle() {
    let bad_report = WorkerExecutionReport {
        submission: sample_submission(),
        algorithm_id: "turbo".to_string(),
        algorithm_profile: "turbo-basic".to_string(),
        soft_evidence_bytes: b"not-json".to_vec(),
        residual_score_bits: 0.08f64.to_bits(),
        quality_score_bits: 0.92f64.to_bits(),
    };

    let parsed = parse_bundle(&bad_report.soft_evidence_bytes);
    let err = Verifier::validate_soft_evidence_bundle(&bad_report, parsed, residual_matches).expect_err("should fail");
    assert_eq!(err, VerificationError::InvalidSoftEvidenceBundle);
}

#[test]
fn worker_reports_pass_attestation() {
    let engine = WorkerEngine::new();
    let report = engine.execute_job(&sample_job("ldpc-minsum-basic"), "worker-7", b"bits").expect("run");
    assert!(Verifier::validate_submission_attestation(&report.submission).is_ok());
}

#[test]
fn challenge_with_short_reason_or_missing_signature_is_refused() {
    let mut challenge = sample_challenge("fabricated_output");
    challenge.reason = "short".to_string();
    assert_eq!(
        Verifier::validate_challenge_record(&challenge, below_quality_floor),
        Err(VerificationError::InvalidChallengeRecord)
    );
    let mut challenge = sample_challenge("fabricated_output");
    challenge.challenger_signature.key_id = String::new();
    assert!(Verifier::validate_challenge_record(&challenge, below_quality_floor).is_err());
}

#[test]
fn low_quality_scores_outside_unit_interval_are_refused() {
    let mut challenge = sample_challenge("low_quality");
    challenge.observed_residual_score_bits = Some(1.5f64.to_bits());
    challenge.min_required_quality_bits = Some(0.5f64.to_bits());
    assert!(Verifier::validate_challenge_record(&challenge, below_quality_floor).is_err());
    challenge.observed_residual_score_bits = Some(f64::NAN.to_bits());
    assert!(Verifier::validate_challenge_record(&challenge, below_quality_floor).is_err());
    challenge.observed_residual_score_bits = Some((-0.0f64).to_bits());
    challenge.min_required_quality_bits = Some(1.0f64.to_bits());
    assert!(Verifier::validate_challenge_record(&challenge, below_quality_floor).is_err());
}

#[test]
fn replay_challenge_naming_the_same_submission_is_refused() {
    let mut challenge = sample_challenge("replay_attack");
    challenge.replay_of_submission_id = Some("sub-001".to_string());
    assert!(Verifier::validate_challenge_record(&challenge, below_quality_floor).is_err());
}

#[test]
fn record_without_checks_is_refused() {
    let mut record = sample_record();
    record.checks_performed.clear();
    assert_eq!(Verifier::validate_verification_record(&record), Err(VerificationError::InvalidVerificationRecord));
    let mut record = sample_record();
    record.check_result = "inconclusive".to_string();
    assert!(Verifier::validate_verification_record(&record).is_ok());
}

#[test]
fn bundle_with_foreign_algorithm_is_refused() {
    let engine = WorkerEngine::new();
    let report = engine.execute_job(&sample_job("turbo-basic"), "worker-001", b"noisy").expect("run");
    let mut bundle = parse_bundle(&report.soft_evidence_bytes).expect("parse");
    bundle.algorithm_id = "viterbi".to_string();
    assert!(Verifier::validate_soft_evidence_bundle(&report, Some(bundle), residual_matches).is_err());
}
