//! Worker-side job lifecycle, execution reports and the worker engine.

pub mod models;

use vstd::prelude::*;

use vstd::utf8::encode_utf8;

use crate::algorithms::{AlgorithmError, AlgorithmRegistry, DecodeResult, default_decoders};
use crate::base::attestation::{sha256_hex, sha256_hex_string, sign_payload, signature_hex_for};
use crate::base::types::{HashRef, SignatureEnvelope};
use crate::keyed::{owned, str_eq};
use crate::text::{dec, push_bytes, push_dec, push_text};
use models::{CandidateSubmission, JobSpec};

verus! {

/// The phases of a job as a worker session sees them.
#[derive(Debug, Clone, Copy, PartialEq, Eq, Structural)]
pub enum JobLifecycleState {
    Created,
    Committed,
    Revealed,
    Verified,
    Finalized,
    Settled,
}

/// Why a session refused a step.
#[derive(Debug, Clone, PartialEq, Eq, Structural)]
pub enum LifecycleError {
    JobIdMismatch,
    InvalidTransition { current: JobLifecycleState, attempted: JobLifecycleState },
}

/// The state that directly follows `s`; `Settled` has none.
pub open spec fn successor(s: JobLifecycleState) -> Option<JobLifecycleState> {
    match s {
        JobLifecycleState::Created => Some(JobLifecycleState::Committed),
        JobLifecycleState::Committed => Some(JobLifecycleState::Revealed),
        JobLifecycleState::Revealed => Some(JobLifecycleState::Verified),
        JobLifecycleState::Verified => Some(JobLifecycleState::Finalized),
        JobLifecycleState::Finalized => Some(JobLifecycleState::Settled),
        JobLifecycleState::Settled => None,
    }
}

/// The position of a state in the lifecycle order.
pub open spec fn rank(s: JobLifecycleState) -> nat {
    match s {
        JobLifecycleState::Created => 0,
        JobLifecycleState::Committed => 1,
        JobLifecycleState::Revealed => 2,
        JobLifecycleState::Verified => 3,
        JobLifecycleState::Finalized => 4,
        JobLifecycleState::Settled => 5,
    }
}

impl JobLifecycleState {
    /// Whether `next` directly follows `self` in the lifecycle.
    pub fn can_transition_to(self, next: JobLifecycleState) -> (r: bool)
        ensures
            r == (successor(self) == Some(next)),
    {
        match (self, next) {
            (JobLifecycleState::Created, JobLifecycleState::Committed) => true,
            (JobLifecycleState::Committed, JobLifecycleState::Revealed) => true,
            (JobLifecycleState::Revealed, JobLifecycleState::Verified) => true,
            (JobLifecycleState::Verified, JobLifecycleState::Finalized) => true,
            (JobLifecycleState::Finalized, JobLifecycleState::Settled) => true,
            _ => false,
        }
    }
}

/// A transition is allowed exactly when it moves one step forward: the rank
/// grows by one, so no state is skipped or revisited, and `Settled` is final.
pub proof fn law_transitions_move_one_step_forward(from: JobLifecycleState, to: JobLifecycleState)
    ensures
        successor(from) == Some(to) <==> rank(to) == rank(from) + 1,
        successor(JobLifecycleState::Settled) is None,
{
}

/// What a worker produced for a job: the signed submission, the decoder that
/// ran, its soft evidence and its scores (as `f64` bit patterns).
#[derive(Debug, Clone)]
pub struct WorkerExecutionReport {
    pub submission: models::CandidateSubmission,
    pub algorithm_id: String,
    pub algorithm_profile: String,
    pub soft_evidence_bytes: Vec<u8>,
    pub residual_score_bits: u64,
    pub quality_score_bits: u64,
}

/// A worker's view of one job's progress.
#[derive(Debug, Clone)]
pub struct WorkerJobSession {
    pub job_id: String,
    pub state: JobLifecycleState,
}

/// The outcome of asking a session in `state` for job `job_id` to move to
/// `next` on behalf of `requested_job`.
pub open spec fn step_outcome(
    job_id: Seq<char>,
    state: JobLifecycleState,
    requested_job: Seq<char>,
    next: JobLifecycleState,
) -> Result<JobLifecycleState, LifecycleError> {
    if job_id != requested_job {
        Err(LifecycleError::JobIdMismatch)
    } else if successor(state) == Some(next) {
        Ok(next)
    } else {
        Err(LifecycleError::InvalidTransition { current: state, attempted: next })
    }
}

/// How a session changes under a step: the state moves on success and
/// nothing changes otherwise.
pub open spec fn step_post(
    before: WorkerJobSession,
    after: WorkerJobSession,
    requested_job: Seq<char>,
    next: JobLifecycleState,
    r: Result<(), LifecycleError>,
) -> bool {
    &&& after.job_id@ == before.job_id@
    &&& match step_outcome(before.job_id@, before.state, requested_job, next) {
        Ok(s) => r is Ok && after.state == s,
        Err(e) => r == Err::<(), LifecycleError>(e) && after.state == before.state,
    }
}

impl WorkerJobSession {
    pub fn new(job_id: &str) -> (r: Self)
        ensures
            r.job_id@ == job_id@,
            r.state == JobLifecycleState::Created,
    {
        WorkerJobSession { job_id: job_id.to_owned(), state: JobLifecycleState::Created }
    }

    pub fn commit(&mut self, job_id: &str) -> (r: Result<(), LifecycleError>)
        ensures
            step_post(*old(self), *final(self), job_id@, JobLifecycleState::Committed, r),
    {
        self.ensure_job_id(job_id)?;
        self.transition_to(JobLifecycleState::Committed)
    }

    pub fn reveal_output(&mut self, job_id: &str) -> (r: Result<(), LifecycleError>)
        ensures
            step_post(*old(self), *final(self), job_id@, JobLifecycleState::Revealed, r),
    {
        self.ensure_job_id(job_id)?;
        self.transition_to(JobLifecycleState::Revealed)
    }

    pub fn verify(&mut self, job_id: &str) -> (r: Result<(), LifecycleError>)
        ensures
            step_post(*old(self), *final(self), job_id@, JobLifecycleState::Verified, r),
    {
        self.ensure_job_id(job_id)?;
        self.transition_to(JobLifecycleState::Verified)
    }

    pub fn finalize(&mut self, job_id: &str) -> (r: Result<(), LifecycleError>)
        ensures
            step_post(*old(self), *final(self), job_id@, JobLifecycleState::Finalized, r),
    {
        self.ensure_job_id(job_id)?;
        self.transition_to(JobLifecycleState::Finalized)
    }

    pub fn settle(&mut self, job_id: &str) -> (r: Result<(), LifecycleError>)
        ensures
            step_post(*old(self), *final(self), job_id@, JobLifecycleState::Settled, r),
    {
        self.ensure_job_id(job_id)?;
        self.transition_to(JobLifecycleState::Settled)
    }

    fn ensure_job_id(&self, job_id: &str) -> (r: Result<(), LifecycleError>)
        ensures
            r is Ok <==> self.job_id@ == job_id@,
            r is Err ==> r == Err::<(), LifecycleError>(LifecycleError::JobIdMismatch),
    {
        if str_eq(self.job_id.as_str(), job_id) {
            Ok(())
        } else {
            Err(LifecycleError::JobIdMismatch)
        }
    }

    fn transition_to(&mut self, next: JobLifecycleState) -> (r: Result<(), LifecycleError>)
        ensures
            final(self).job_id == old(self).job_id,
            successor(old(self).state) == Some(next) ==> r is Ok && final(self).state == next,
            successor(old(self).state) != Some(next) ==> r == Err::<(), LifecycleError>(
                LifecycleError::InvalidTransition { current: old(self).state, attempted: next },
            ) && final(self).state == old(self).state,
    {
        if self.state.can_transition_to(next) {
            self.state = next;
            Ok(())
        } else {
            Err(LifecycleError::InvalidTransition { current: self.state, attempted: next })
        }
    }
}

/// Why a worker could not execute a job.
#[derive(Debug, PartialEq, Eq)]
pub enum WorkerExecutionError {
    Algorithm(AlgorithmError),
}

/// `h` is the SHA-256 reference of `data`.
pub open spec fn sha256_ref(h: HashRef, data: Seq<u8>) -> bool {
    &&& h.algorithm@ == "sha256"@
    &&& h.digest_hex@ == sha256_hex(data)
}

/// `sig` is the signature of `payload` by `signer` with key `key`.
pub open spec fn signed_by(sig: SignatureEnvelope, payload: Seq<u8>, signer: Seq<char>, key: Seq<char>) -> bool {
    &&& sig.signer_id@ == signer
    &&& sig.key_id@ == key
    &&& sig.signature_hex@ == signature_hex_for(payload, signer, key)
}

/// The bytes a worker signs for a submission: job, worker and the four
/// digests, joined by `|`.
pub open spec fn canonical_payload(s: CandidateSubmission) -> Seq<u8> {
    encode_utf8(
        s.job_id@ + "|"@ + s.worker_id@ + "|"@ + s.output_ref.digest_hex@ + "|"@ + s.output_summary_hash.digest_hex@ + "|"@
            + s.soft_evidence_ref.digest_hex@ + "|"@ + s.algorithm_execution_hash.digest_hex@,
    )
}

/// The key id under which workers sign.
pub open spec fn worker_key() -> Seq<char> {
    "worker-key-1"@
}

/// Builds the canonical submission payload.
pub fn canonical_submission_bytes(submission: &CandidateSubmission) -> (r: Vec<u8>)
    ensures
        r@ == canonical_payload(*submission),
{
    let mut text = String::new();
    push_text(&mut text, submission.job_id.as_str());
    push_text(&mut text, "|");
    push_text(&mut text, submission.worker_id.as_str());
    push_text(&mut text, "|");
    push_text(&mut text, submission.output_ref.digest_hex.as_str());
    push_text(&mut text, "|");
    push_text(&mut text, submission.output_summary_hash.digest_hex.as_str());
    push_text(&mut text, "|");
    push_text(&mut text, submission.soft_evidence_ref.digest_hex.as_str());
    push_text(&mut text, "|");
    push_text(&mut text, submission.algorithm_execution_hash.digest_hex.as_str());
    let mut out: Vec<u8> = Vec::new();
    push_bytes(&mut out, text.as_str().as_bytes());
    assert(out@ =~= canonical_payload(*submission));
    out
}

/// The report that `execute_job` builds from decoder output `d` for job
/// `job` and worker `worker`.
pub open spec fn report_for(job: JobSpec, worker: Seq<char>, d: DecodeResult, rep: WorkerExecutionReport) -> bool {
    let s = rep.submission;
    &&& s.job_id@ == job.job_id@
    &&& s.worker_id@ == worker
    &&& sha256_ref(s.output_ref, d.output_bytes@)
    &&& sha256_ref(s.output_summary_hash, encode_utf8("output_len="@ + dec(d.output_bytes@.len())))
    &&& sha256_ref(s.soft_evidence_ref, d.evidence_bytes@)
    &&& sha256_ref(s.algorithm_execution_hash, encode_utf8(d.algorithm_id@ + ":"@ + d.profile_id@))
    &&& signed_by(s.worker_signature, canonical_payload(s), worker, worker_key())
    &&& rep.algorithm_id@ == d.algorithm_id@
    &&& rep.algorithm_profile@ == d.profile_id@
    &&& rep.soft_evidence_bytes@ == d.evidence_bytes@
    &&& rep.residual_score_bits == d.residual_score_bits
    &&& rep.quality_score_bits == d.quality_score_bits
}

/// Runs decoders for jobs and packages signed submissions.
pub struct WorkerEngine {
    registry: AlgorithmRegistry,
}

impl WorkerEngine {
    /// The engine's decoder registry.
    pub closed spec fn registry_spec(&self) -> AlgorithmRegistry {
        self.registry
    }

    /// An engine with the built-in decoders.
    pub fn new() -> (r: Self)
        ensures
            r.registry_spec().decoders() == default_decoders(),
    {
        WorkerEngine { registry: AlgorithmRegistry::with_defaults() }
    }

    /// Whether the engine can decode jobs with profile `profile`.
    pub fn supports_profile(&self, profile: &str) -> (r: bool)
        ensures
            r == self.registry_spec().supports_spec(profile@),
    {
        self.registry.supports_profile(profile)
    }

    /// The SHA-256 reference of `payload`.
    pub fn commit_payload_hash(&self, payload: &[u8]) -> (r: HashRef)
        ensures
            sha256_ref(r, payload@),
    {
        HashRef { algorithm: owned("sha256"), digest_hex: sha256_hex_string(payload) }
    }

    /// The placeholder signature a worker puts on a submission before its
    /// digests are known: the signature of `stub`.
    pub fn sign_submission_stub(&self, worker_id: &str) -> (r: SignatureEnvelope)
        ensures
            signed_by(r, encode_utf8("stub"@), worker_id@, worker_key()),
    {
        sign_payload("stub".as_bytes(), worker_id, "worker-key-1")
    }

    /// A placeholder submission for `job`, with digests of fixed markers.
    pub fn build_submission_stub(&self, job: &JobSpec, worker_id: &str) -> (r: CandidateSubmission)
        ensures
            r.job_id@ == job.job_id@,
            r.worker_id@ == worker_id@,
            sha256_ref(r.output_ref, encode_utf8(job.job_id@)),
            sha256_ref(r.output_summary_hash, encode_utf8("summary"@)),
            sha256_ref(r.soft_evidence_ref, encode_utf8("soft-evidence"@)),
            sha256_ref(r.algorithm_execution_hash, encode_utf8("algorithm-execution"@)),
            signed_by(r.worker_signature, encode_utf8("stub"@), worker_id@, worker_key()),
    {
        let signature = self.sign_submission_stub(worker_id);
        CandidateSubmission {
            job_id: job.job_id.clone(),
            worker_id: owned(worker_id),
            output_ref: self.commit_payload_hash(job.job_id.as_str().as_bytes()),
            output_summary_hash: self.commit_payload_hash("summary".as_bytes()),
            soft_evidence_ref: self.commit_payload_hash("soft-evidence".as_bytes()),
            algorithm_execution_hash: self.commit_payload_hash("algorithm-execution".as_bytes()),
            worker_signature: signature,
        }
    }

    /// The signed submission for decoder output `d`.
    fn package_submission(&self, job: &JobSpec, worker_id: &str, d: &DecodeResult) -> (s: CandidateSubmission)
        ensures
            s.job_id@ == job.job_id@,
            s.worker_id@ == worker_id@,
            sha256_ref(s.output_ref, d.output_bytes@),
            sha256_ref(s.output_summary_hash, encode_utf8("output_len="@ + dec(d.output_bytes@.len()))),
            sha256_ref(s.soft_evidence_ref, d.evidence_bytes@),
            sha256_ref(s.algorithm_execution_hash, encode_utf8(d.algorithm_id@ + ":"@ + d.profile_id@)),
            signed_by(s.worker_signature, canonical_payload(s), worker_id@, worker_key()),
    {
        let mut summary = String::new();
        push_text(&mut summary, "output_len=");
        push_dec(&mut summary, d.output_bytes.len() as u64);
        let mut exec_text = String::new();
        push_text(&mut exec_text, d.algorithm_id);
        push_text(&mut exec_text, ":");
        push_text(&mut exec_text, d.profile_id.as_str());
        let mut submission = CandidateSubmission {
            job_id: job.job_id.clone(),
            worker_id: owned(worker_id),
            output_ref: self.commit_payload_hash(d.output_bytes.as_slice()),
            output_summary_hash: self.commit_payload_hash(summary.as_str().as_bytes()),
            soft_evidence_ref: self.commit_payload_hash(d.evidence_bytes.as_slice()),
            algorithm_execution_hash: self.commit_payload_hash(exec_text.as_str().as_bytes()),
            worker_signature: self.sign_submission_stub(worker_id),
        };
        let payload = canonical_submission_bytes(&submission);
        submission.worker_signature = sign_payload(payload.as_slice(), worker_id, "worker-key-1");
        submission
    }

    /// Decodes `input` for `job` and packages the signed submission.
    pub fn execute_job(&self, job: &JobSpec, worker_id: &str, input: &[u8]) -> (r: Result<WorkerExecutionReport, WorkerExecutionError>)
        ensures
            match r {
                Ok(rep) => exists|d: DecodeResult| #[trigger]
                    self.registry_spec().decode_spec(*job, input@, Ok(d)) && report_for(*job, worker_id@, d, rep),
                Err(WorkerExecutionError::Algorithm(e)) => self.registry_spec().decode_spec(
                    *job,
                    input@,
                    Err(e),
                ),
            },
            r is Ok <==> self.registry_spec().supports_spec(job.algorithm_profile@),
    {
        let decode = match self.registry.decode(job, input) {
            Ok(d) => d,
            Err(e) => {
                return Err(WorkerExecutionError::Algorithm(e));
            },
        };
        let ghost d = decode;
        assert(self.registry_spec().decode_spec(*job, input@, Ok(d)));
        let submission = self.package_submission(job, worker_id, &decode);
        let report = WorkerExecutionReport {
            submission,
            algorithm_id: owned(decode.algorithm_id),
            algorithm_profile: decode.profile_id,
            soft_evidence_bytes: decode.evidence_bytes,
            residual_score_bits: decode.residual_score_bits,
            quality_score_bits: decode.quality_score_bits,
        };
        assert(report_for(*job, worker_id@, d, report));
        Ok(report)
    }
}

impl Default for WorkerEngine {
    fn default() -> (r: Self)
        ensures
            r.registry_spec().decoders() == default_decoders(),
    {
        Self::new()
    }
}

} // verus!
