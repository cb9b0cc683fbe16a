//! Protocol records exchanged between requesters, workers and verifiers.
//!
//! Score fields hold the IEEE-754 bit pattern of the score (`f64::to_bits`);
//! arithmetic on scores happens outside this library.

use vstd::prelude::*;

use crate::base::types::{HashRef, SignatureEnvelope};

verus! {

/// A job posted by a requester.
#[derive(Debug, Clone)]
pub struct JobSpec {
    pub job_id: String,
    pub requester: String,
    pub input_ref: HashRef,
    pub input_schema: String,
    pub algorithm_profile: String,
    pub metric_profile: String,
    pub min_worker_stake: u64,
    pub reward_pool: u64,
    pub commit_deadline_epoch_ms: u64,
    pub reveal_deadline_epoch_ms: u64,
    pub verify_deadline_epoch_ms: u64,
    pub finalize_deadline_epoch_ms: u64,
    pub privacy_mode: String,
}

/// A worker's candidate output for a job.
#[derive(Debug, Clone)]
pub struct CandidateSubmission {
    pub job_id: String,
    pub worker_id: String,
    pub output_ref: HashRef,
    pub output_summary_hash: HashRef,
    pub soft_evidence_ref: HashRef,
    pub algorithm_execution_hash: HashRef,
    pub worker_signature: SignatureEnvelope,
}

/// Confidence evidence that a decoder attaches to its output.
#[derive(Debug, Clone, PartialEq)]
pub struct SoftEvidenceBundle {
    pub schema_version: String,
    pub algorithm_id: String,
    pub profile_id: String,
    pub confidence_score_bits: u64,
    pub residual_score_bits: u64,
    pub notes: Vec<String>,
}

/// A verifier's record of the checks run on a submission.
#[derive(Debug, Clone)]
pub struct VerificationRecord {
    pub submission_id: String,
    pub verifier_id: String,
    pub checks_performed: Vec<String>,
    pub check_result: String,
    pub dispute_proof_ref: Option<HashRef>,
    pub verifier_signature: SignatureEnvelope,
}

/// A challenger's dispute against a submission.
#[derive(Debug, Clone)]
pub struct ChallengeRecord {
    pub challenge_id: String,
    pub submission_id: String,
    pub challenger_id: String,
    pub challenge_type: String,
    pub reason: String,
    pub observed_residual_score_bits: Option<u64>,
    pub min_required_quality_bits: Option<u64>,
    pub dispute_proof_ref: Option<HashRef>,
    pub replay_of_submission_id: Option<String>,
    pub challenger_signature: SignatureEnvelope,
}

impl CandidateSubmission {
    /// A field-for-field copy.
    pub fn copied(&self) -> (r: CandidateSubmission)
        ensures
            r == *self,
    {
        CandidateSubmission {
            job_id: self.job_id.clone(),
            worker_id: self.worker_id.clone(),
            output_ref: self.output_ref.copied(),
            output_summary_hash: self.output_summary_hash.copied(),
            soft_evidence_ref: self.soft_evidence_ref.copied(),
            algorithm_execution_hash: self.algorithm_execution_hash.copied(),
            worker_signature: self.worker_signature.copied(),
        }
    }
}

} // verus!
