//! Shape and attestation checks that verifiers run on submissions,
//! verification records, soft evidence and challenges.
//!
//! Two checks compare `f64` values arithmetically (the residual of a soft
//! evidence bundle against the report's, and `1 - residual` against a quality
//! floor); the caller supplies those comparisons, on the bit patterns, as
//! closures. Every other check is decided here.

use vstd::prelude::*;
use vstd::utf8::encode_utf8;

use crate::base::attestation::{envelope_signs, verify_payload};
use crate::keyed::str_eq;
use crate::worker::models::{CandidateSubmission, ChallengeRecord, SoftEvidenceBundle, VerificationRecord};
use crate::worker::{canonical_payload, canonical_submission_bytes, WorkerExecutionReport};

verus! {

/// Stateless verifier checks.
pub struct Verifier;

/// Why a verifier rejected an artifact.
#[derive(Debug, PartialEq, Eq, Structural)]
pub enum VerificationError {
    InvalidSubmissionShape,
    InvalidVerificationRecord,
    InvalidChallengeRecord,
    InvalidSubmissionAttestation,
    InvalidSoftEvidenceBundle,
}

/// Whether the `f64` with bit pattern `bits` lies in `[0, 1]` (`-0.0`
/// included, NaN excluded).
pub open spec fn unit_interval(bits: u64) -> bool {
    bits <= 0x3FF0_0000_0000_0000 || bits == 0x8000_0000_0000_0000
}

/// Decides `unit_interval`.
pub fn in_unit_interval(bits: u64) -> (r: bool)
    ensures
        r == unit_interval(bits),
{
    bits <= 0x3FF0_0000_0000_0000 || bits == 0x8000_0000_0000_0000
}

/// A submission names its job and its worker.
pub open spec fn submission_shape_ok(c: CandidateSubmission) -> bool {
    c.job_id@.len() > 0 && c.worker_id@.len() > 0
}

/// A verification record names its submission and its verifier.
pub open spec fn record_shape_ok(r: VerificationRecord) -> bool {
    r.submission_id@.len() > 0 && r.verifier_id@.len() > 0
}

/// A verification record is well formed: named, with a known result and at
/// least one check.
pub open spec fn record_valid(r: VerificationRecord) -> bool {
    &&& record_shape_ok(r)
    &&& (r.check_result@ == "pass"@ || r.check_result@ == "fail"@ || r.check_result@ == "inconclusive"@)
    &&& r.checks_performed@.len() > 0
}

/// The checks that every challenge must pass whatever its type: identities,
/// a reason of at least eight bytes, and a complete signature.
pub open spec fn challenge_basics_ok(c: ChallengeRecord) -> bool {
    &&& c.challenge_id@.len() > 0
    &&& c.submission_id@.len() > 0
    &&& c.challenger_id@.len() > 0
    &&& (encode_utf8(c.reason@).len() as usize) >= 8
    &&& c.challenger_signature.signer_id@.len() > 0
    &&& c.challenger_signature.signature_hex@.len() > 0
    &&& c.challenger_signature.key_id@.len() > 0
}

/// A replay challenge names a prior submission other than the challenged
/// one.
pub open spec fn replay_ok(c: ChallengeRecord) -> bool {
    c.replay_of_submission_id matches Some(prior) && prior@.len() > 0 && prior@ != c.submission_id@
}

impl Verifier {
    /// The bytes a submission's signature covers.
    fn canonical_submission_payload(submission: &CandidateSubmission) -> (r: Vec<u8>)
        ensures
            r@ == canonical_payload(*submission),
    {
        canonical_submission_bytes(submission)
    }

    /// Whether a submission names its job and worker.
    pub fn verify_submission_shape(candidate: &CandidateSubmission) -> (r: bool)
        ensures
            r == submission_shape_ok(*candidate),
    {
        !candidate.job_id.as_str().is_empty() && !candidate.worker_id.as_str().is_empty()
    }

    /// Whether a verification record names its submission and verifier.
    pub fn score_verification_result(record: &VerificationRecord) -> (r: bool)
        ensures
            r == record_shape_ok(*record),
    {
        !record.submission_id.as_str().is_empty() && !record.verifier_id.as_str().is_empty()
    }

    /// Accepts a submission with a valid shape.
    pub fn validate_submission(candidate: &CandidateSubmission) -> (r: Result<(), VerificationError>)
        ensures
            r is Ok <==> submission_shape_ok(*candidate),
            r is Err ==> r == Err::<(), VerificationError>(VerificationError::InvalidSubmissionShape),
    {
        if Self::verify_submission_shape(candidate) {
            Ok(())
        } else {
            Err(VerificationError::InvalidSubmissionShape)
        }
    }

    /// Accepts a submission whose signature covers its canonical payload.
    pub fn validate_submission_attestation(candidate: &CandidateSubmission) -> (r: Result<(), VerificationError>)
        ensures
            r is Ok <==> envelope_signs(candidate.worker_signature, canonical_payload(*candidate)),
            r is Err ==> r == Err::<(), VerificationError>(VerificationError::InvalidSubmissionAttestation),
    {
        let payload = Self::canonical_submission_payload(candidate);
        if verify_payload(&candidate.worker_signature, payload.as_slice()) {
            Ok(())
        } else {
            Err(VerificationError::InvalidSubmissionAttestation)
        }
    }

    /// Checks a soft-evidence bundle against the report it came with.
    /// `parsed` is the bundle decoded from `report.soft_evidence_bytes`, or
    /// `None` where the bytes are not a bundle; `residual_matches(a, b)`
    /// tells whether two residual scores (bit patterns) agree within `1e-9`.
    /// The bundle is accepted when it has schema `1.0.0`, the report's
    /// algorithm and profile, a matching residual and a confidence in
    /// `[0, 1]`.
    pub fn validate_soft_evidence_bundle<F: Fn(u64, u64) -> bool>(
        report: &WorkerExecutionReport,
        parsed: Option<SoftEvidenceBundle>,
        residual_matches: F,
    ) -> (r: Result<SoftEvidenceBundle, VerificationError>)
        requires
            forall|a: u64, b: u64| #[trigger] residual_matches.requires((a, b)),
        ensures
            parsed is None ==> r == Err::<SoftEvidenceBundle, VerificationError>(
                VerificationError::InvalidSoftEvidenceBundle,
            ),
            parsed matches Some(b) ==> {
                let fields_ok = b.schema_version@ == "1.0.0"@ && b.algorithm_id@ == report.algorithm_id@
                    && b.profile_id@ == report.algorithm_profile@ && unit_interval(b.confidence_score_bits);
                &&& r matches Ok(out) ==> out == b && fields_ok && call_ensures(
                    residual_matches,
                    (b.residual_score_bits, report.residual_score_bits),
                    true,
                )
                &&& r is Err ==> r == Err::<SoftEvidenceBundle, VerificationError>(
                    VerificationError::InvalidSoftEvidenceBundle,
                ) && (!fields_ok || call_ensures(
                    residual_matches,
                    (b.residual_score_bits, report.residual_score_bits),
                    false,
                ))
            },
    {
        let bundle = match parsed {
            Some(b) => b,
            None => {
                return Err(VerificationError::InvalidSoftEvidenceBundle);
            },
        };
        let schema_ok = str_eq(bundle.schema_version.as_str(), "1.0.0");
        let algorithm_ok = str_eq(bundle.algorithm_id.as_str(), report.algorithm_id.as_str());
        let profile_ok = str_eq(bundle.profile_id.as_str(), report.algorithm_profile.as_str());
        let residual_ok = residual_matches(bundle.residual_score_bits, report.residual_score_bits);
        let confidence_ok = in_unit_interval(bundle.confidence_score_bits);
        if schema_ok && algorithm_ok && profile_ok && residual_ok && confidence_ok {
            Ok(bundle)
        } else {
            Err(VerificationError::InvalidSoftEvidenceBundle)
        }
    }

    /// Accepts a well-formed verification record.
    pub fn validate_verification_record(record: &VerificationRecord) -> (r: Result<(), VerificationError>)
        ensures
            r is Ok <==> record_valid(*record),
            r is Err ==> r == Err::<(), VerificationError>(VerificationError::InvalidVerificationRecord),
    {
        let valid_shape = Self::score_verification_result(record);
        let result = record.check_result.as_str();
        let valid_result = str_eq(result, "pass") || str_eq(result, "fail") || str_eq(result, "inconclusive");
        let has_checks = record.checks_performed.len() > 0;
        if valid_shape && valid_result && has_checks {
            Ok(())
        } else {
            Err(VerificationError::InvalidVerificationRecord)
        }
    }

    /// Checks a challenge. Every challenge needs identities, a reason and a
    /// signature; then by type: `fabricated_output` needs a dispute proof,
    /// `low_quality` needs a residual and a quality floor in `[0, 1]` with
    /// `1 - residual` below the floor (decided by `below_quality_floor` on
    /// the two bit patterns), `replay_attack` needs a distinct prior
    /// submission; any other type is refused.
    pub fn validate_challenge_record<F: Fn(u64, u64) -> bool>(
        record: &ChallengeRecord,
        below_quality_floor: F,
    ) -> (r: Result<(), VerificationError>)
        requires
            forall|a: u64, b: u64| #[trigger] below_quality_floor.requires((a, b)),
        ensures
            r is Err ==> r == Err::<(), VerificationError>(VerificationError::InvalidChallengeRecord),
            !challenge_basics_ok(*record) ==> r is Err,
            challenge_basics_ok(*record) && record.challenge_type@ == "fabricated_output"@ ==> (r is Ok
                <==> record.dispute_proof_ref is Some),
            challenge_basics_ok(*record) && record.challenge_type@ == "replay_attack"@ ==> (r is Ok <==> replay_ok(
                *record,
            )),
            challenge_basics_ok(*record) && record.challenge_type@ == "low_quality"@ ==> match (
                record.observed_residual_score_bits,
                record.min_required_quality_bits,
            ) {
                (Some(res), Some(q)) => if unit_interval(res) && unit_interval(q) {
                    &&& r is Ok ==> call_ensures(below_quality_floor, (res, q), true)
                    &&& r is Err ==> call_ensures(below_quality_floor, (res, q), false)
                } else {
                    r is Err
                },
                _ => r is Err,
            },
            record.challenge_type@ != "fabricated_output"@ && record.challenge_type@ != "replay_attack"@
                && record.challenge_type@ != "low_quality"@ ==> r is Err,
    {
        let has_identity = !record.challenge_id.as_str().is_empty() && !record.submission_id.as_str().is_empty()
            && !record.challenger_id.as_str().is_empty();
        let has_reason = record.reason.as_str().len() >= 8;
        let has_signature = !record.challenger_signature.signer_id.as_str().is_empty()
            && !record.challenger_signature.signature_hex.as_str().is_empty()
            && !record.challenger_signature.key_id.as_str().is_empty();
        if !(has_identity && has_reason && has_signature) {
            return Err(VerificationError::InvalidChallengeRecord);
        }
        let kind = record.challenge_type.as_str();
        proof {
            reveal_strlit("fabricated_output");
            reveal_strlit("low_quality");
            reveal_strlit("replay_attack");
            assert("fabricated_output"@.len() == 17);
            assert("low_quality"@.len() == 11);
            assert("replay_attack"@.len() == 13);
        }
        if str_eq(kind, "fabricated_output") {
            if record.dispute_proof_ref.is_some() {
                Ok(())
            } else {
                Err(VerificationError::InvalidChallengeRecord)
            }
        } else if str_eq(kind, "low_quality") {
            match (record.observed_residual_score_bits, record.min_required_quality_bits) {
                (Some(res), Some(q)) => {
                    let residual_ok = in_unit_interval(res);
                    let quality_ok = in_unit_interval(q);
                    if residual_ok && quality_ok {
                        if below_quality_floor(res, q) {
                            Ok(())
                        } else {
                            Err(VerificationError::InvalidChallengeRecord)
                        }
                    } else {
                        Err(VerificationError::InvalidChallengeRecord)
                    }
                },
                _ => Err(VerificationError::InvalidChallengeRecord),
            }
        } else if str_eq(kind, "replay_attack") {
            match &record.replay_of_submission_id {
                Some(prior) => {
                    if !prior.as_str().is_empty() && !str_eq(prior.as_str(), record.submission_id.as_str()) {
                        Ok(())
                    } else {
                        Err(VerificationError::InvalidChallengeRecord)
                    }
                },
                None => Err(VerificationError::InvalidChallengeRecord),
            }
        } else {
            Err(VerificationError::InvalidChallengeRecord)
        }
    }
}

} // verus!
