//! Client-side bindings: a requester's job book and a thin client over the
//! contract lifecycle.

use vstd::prelude::*;

use crate::algorithms::{AlgorithmError, DecodeResult};
use crate::contracts::{
    ChallengeType, ContractError, ContractEventKind, ContractJobState, ContractLifecycle, FinalizationRecord,
    LifecycleView, commit_post, event_is, finalize_post, fresh_job, job_state, log_extends, only_jobs_and_log_change, pair_counts,
    phase_step_post, reputations_in_range, resolve_post, reveal_post, settle_post, submit_post, verification_post,
};
use crate::keyed::{StrMap, owned};
use crate::text::push_text;
use crate::worker::models::{CandidateSubmission, JobSpec};
use crate::worker::{JobLifecycleState, WorkerEngine, WorkerExecutionError, WorkerExecutionReport, report_for, successor};

verus! {

/// The name of a worker-side lifecycle state.
pub open spec fn state_name(s: JobLifecycleState) -> Seq<char> {
    match s {
        JobLifecycleState::Created => "Created"@,
        JobLifecycleState::Committed => "Committed"@,
        JobLifecycleState::Revealed => "Revealed"@,
        JobLifecycleState::Verified => "Verified"@,
        JobLifecycleState::Finalized => "Finalized"@,
        JobLifecycleState::Settled => "Settled"@,
    }
}

fn push_state_name(out: &mut String, s: JobLifecycleState)
    ensures
        final(out)@ == old(out)@ + state_name(s),
{
    match s {
        JobLifecycleState::Created => push_text(out, "Created"),
        JobLifecycleState::Committed => push_text(out, "Committed"),
        JobLifecycleState::Revealed => push_text(out, "Revealed"),
        JobLifecycleState::Verified => push_text(out, "Verified"),
        JobLifecycleState::Finalized => push_text(out, "Finalized"),
        JobLifecycleState::Settled => push_text(out, "Settled"),
    }
}

/// The message of a worker execution error.
pub open spec fn execution_error_text(e: WorkerExecutionError) -> Seq<char> {
    match e {
        WorkerExecutionError::Algorithm(AlgorithmError::UnsupportedProfile(p)) => "algorithm decode failed: unsupported algorithm profile: "@
            + p@,
    }
}

impl WorkerExecutionError {
    /// The error's message.
    pub fn message(&self) -> (r: String)
        ensures
            r@ == execution_error_text(*self),
    {
        match self {
            WorkerExecutionError::Algorithm(AlgorithmError::UnsupportedProfile(p)) => {
                let mut out = owned("algorithm decode failed: unsupported algorithm profile: ");
                push_text(&mut out, p.as_str());
                out
            },
        }
    }
}

/// A requester's record of its jobs, their lifecycle states and the
/// submissions received for them.
pub struct RequesterClient {
    jobs: StrMap<JobSpec>,
    states: StrMap<JobLifecycleState>,
    submissions: StrMap<Vec<CandidateSubmission>>,
}

impl RequesterClient {
    /// The jobs by id.
    pub closed spec fn job_map(&self) -> Map<Seq<char>, JobSpec> {
        self.jobs.map()
    }

    /// The lifecycle state of each job.
    pub closed spec fn state_map(&self) -> Map<Seq<char>, JobLifecycleState> {
        self.states.map()
    }

    /// The submissions recorded per job id, in arrival order.
    pub closed spec fn submission_map(&self) -> Map<Seq<char>, Seq<CandidateSubmission>> {
        self.submissions.map().map_values(|v: Vec<CandidateSubmission>| v@)
    }

    /// The internal tables hold at most one entry per key.
    pub closed spec fn wf(&self) -> bool {
        self.jobs.wf() && self.states.wf() && self.submissions.wf()
    }

    /// A client with no jobs.
    pub fn new() -> (r: Self)
        ensures
            r.wf(),
            r.job_map() == Map::<Seq<char>, JobSpec>::empty(),
            r.state_map() == Map::<Seq<char>, JobLifecycleState>::empty(),
            r.submission_map() == Map::<Seq<char>, Seq<CandidateSubmission>>::empty(),
    {
        let r = RequesterClient { jobs: StrMap::new(), states: StrMap::new(), submissions: StrMap::new() };
        assert(r.submission_map() =~= Map::<Seq<char>, Seq<CandidateSubmission>>::empty());
        r
    }

    /// Records a job in state `Created` (replacing a job with the same id).
    pub fn create_job(&mut self, job: JobSpec) -> (r: Result<String, String>)
        requires
            old(self).wf(),
        ensures
            final(self).wf(),
            job.job_id@.len() == 0 ==> (r matches Err(m) && m@ == "job_id is required"@ && *final(self) == *old(self)),
            job.job_id@.len() > 0 ==> (r matches Ok(id) && id@ == job.job_id@
                && final(self).job_map() == old(self).job_map().insert(job.job_id@, job)
                && final(self).state_map() == old(self).state_map().insert(job.job_id@, JobLifecycleState::Created)
                && final(self).submission_map() == old(self).submission_map()),
    {
        if job.job_id.as_str().is_empty() {
            return Err(owned("job_id is required"));
        }
        let id = job.job_id.clone();
        self.states.insert(id.clone(), JobLifecycleState::Created);
        self.jobs.insert(id.clone(), job);
        Ok(id)
    }

    /// The lifecycle state of job `job_id`.
    pub fn get_job_state(&self, job_id: &str) -> (r: Option<JobLifecycleState>)
        requires
            self.wf(),
        ensures
            r == (if self.state_map().contains_key(job_id@) {
                Some(self.state_map()[job_id@])
            } else {
                None::<JobLifecycleState>
            }),
    {
        match self.states.get(job_id) {
            Some(s) => Some(*s),
            None => None,
        }
    }

    /// Moves job `job_id` to `next`, which must directly follow its current
    /// state.
    pub fn transition_job_state(&mut self, job_id: &str, next: JobLifecycleState) -> (r: Result<(), String>)
        requires
            old(self).wf(),
        ensures
            final(self).wf(),
            final(self).job_map() == old(self).job_map(),
            final(self).submission_map() == old(self).submission_map(),
            !old(self).state_map().contains_key(job_id@) ==> (r matches Err(m) && m@ == "unknown job_id"@
                && final(self).state_map() == old(self).state_map()),
            old(self).state_map().contains_key(job_id@) ==> {
                let current = old(self).state_map()[job_id@];
                if successor(current) == Some(next) {
                    r is Ok && final(self).state_map() == old(self).state_map().insert(job_id@, next)
                } else {
                    r matches Err(m) && m@ == "invalid state transition: "@ + state_name(current) + " -> "@
                        + state_name(next) && final(self).state_map() == old(self).state_map()
                }
            },
    {
        let current = match self.states.get(job_id) {
            Some(s) => *s,
            None => {
                return Err(owned("unknown job_id"));
            },
        };
        if current.can_transition_to(next) {
            self.states.insert(owned(job_id), next);
            Ok(())
        } else {
            let mut message = owned("invalid state transition: ");
            push_state_name(&mut message, current);
            push_text(&mut message, " -> ");
            push_state_name(&mut message, next);
            Err(message)
        }
    }

    /// Appends a submission to those of its job.
    pub fn record_submission(&mut self, submission: CandidateSubmission)
        requires
            old(self).wf(),
        ensures
            final(self).wf(),
            final(self).job_map() == old(self).job_map(),
            final(self).state_map() == old(self).state_map(),
            final(self).submission_map() == old(self).submission_map().insert(
                submission.job_id@,
                if old(self).submission_map().contains_key(submission.job_id@) {
                    old(self).submission_map()[submission.job_id@].push(submission)
                } else {
                    seq![submission]
                },
            ),
    {
        let ghost before = self.submissions;
        let ghost s = submission;
        let key = submission.job_id.clone();
        match self.submissions.find(key.as_str()) {
            Some(i) => {
                let list = self.submissions.value_mut(i);
                list.push(submission);
                proof {
                    StrMap::lemma_changed_at(before, self.submissions, i as int);
                }
            },
            None => {
                let mut list: Vec<CandidateSubmission> = Vec::new();
                list.push(submission);
                self.submissions.insert(key, list);
            },
        }
        proof {
            assert(self.submission_map() =~= before.map().map_values(|v: Vec<CandidateSubmission>| v@).insert(
                s.job_id@,
                if before.map().contains_key(s.job_id@) {
                    before.map()[s.job_id@]@.push(s)
                } else {
                    seq![s]
                },
            ));
        }
    }

    /// The submissions recorded for job `job_id`, in arrival order.
    pub fn list_submissions(&self, job_id: &str) -> (r: &[CandidateSubmission])
        requires
            self.wf(),
        ensures
            r@ == (if self.submission_map().contains_key(job_id@) {
                self.submission_map()[job_id@]
            } else {
                Seq::<CandidateSubmission>::empty()
            }),
    {
        match self.submissions.get(job_id) {
            Some(v) => v.as_slice(),
            None => &[],
        }
    }

    /// Runs `engine` on job `job_id` for `worker_id` and records the
    /// resulting submission.
    pub fn run_worker_and_record(&mut self, engine: &WorkerEngine, job_id: &str, worker_id: &str, input: &[u8]) -> (r:
        Result<(), String>)
        requires
            old(self).wf(),
        ensures
            final(self).wf(),
            final(self).job_map() == old(self).job_map(),
            final(self).state_map() == old(self).state_map(),
            !old(self).job_map().contains_key(job_id@) ==> (r matches Err(m) && m@ == "unknown job_id"@
                && final(self).submission_map() == old(self).submission_map()),
            old(self).job_map().contains_key(job_id@) ==> {
                let job = old(self).job_map()[job_id@];
                &&& r is Ok <==> engine.registry_spec().supports_spec(job.algorithm_profile@)
                &&& r matches Err(m) ==> m@ == "algorithm decode failed: unsupported algorithm profile: "@
                    + job.algorithm_profile@ && final(self).submission_map() == old(self).submission_map()
                &&& r is Ok ==> exists|d: DecodeResult, rep: WorkerExecutionReport|
                    #[trigger] engine.registry_spec().decode_spec(job, input@, Ok(d)) && #[trigger] report_for(
                        job,
                        worker_id@,
                        d,
                        rep,
                    ) && final(self).submission_map() == old(self).submission_map().insert(
                        rep.submission.job_id@,
                        if old(self).submission_map().contains_key(rep.submission.job_id@) {
                            old(self).submission_map()[rep.submission.job_id@].push(rep.submission)
                        } else {
                            seq![rep.submission]
                        },
                    )
            },
    {
        let report = {
            let job = match self.jobs.get(job_id) {
                Some(j) => j,
                None => {
                    return Err(owned("unknown job_id"));
                },
            };
            match engine.execute_job(job, worker_id, input) {
                Ok(rep) => rep,
                Err(e) => {
                    proof {
                        reveal(crate::algorithms::AlgorithmRegistry::decode_spec);
                    }
                    return Err(e.message());
                },
            }
        };
        let ghost rep = report;
        self.record_submission(report.submission);
        Ok(())
    }
}

impl Default for RequesterClient {
    fn default() -> (r: Self)
        ensures
            r.wf(),
            r.job_map() == Map::<Seq<char>, JobSpec>::empty(),
            r.state_map() == Map::<Seq<char>, JobLifecycleState>::empty(),
            r.submission_map() == Map::<Seq<char>, Seq<CandidateSubmission>>::empty(),
    {
        Self::new()
    }
}

/// A client that drives the contract lifecycle.
pub struct ContractLifecycleClient {
    lifecycle: ContractLifecycle,
}

impl View for ContractLifecycleClient {
    type V = LifecycleView;

    closed spec fn view(&self) -> LifecycleView {
        self.lifecycle@
    }
}

impl ContractLifecycleClient {
    /// The lifecycle's invariant holds.
    pub closed spec fn wf(&self) -> bool {
        self.lifecycle.wf()
    }

    /// The lifecycle the client drives.
    pub closed spec fn lifecycle_spec(&self) -> ContractLifecycle {
        self.lifecycle
    }

    /// A client over an empty lifecycle.
    pub fn new() -> (r: Self)
        ensures
            r.wf(),
            r@ == ContractLifecycle::new_view(),
    {
        ContractLifecycleClient { lifecycle: ContractLifecycle::new() }
    }

    /// Registers or re-registers a worker with `stake`.
    pub fn register_worker(&mut self, worker_id: &str, stake: u64)
        requires
            old(self).wf(),
        ensures
            final(self).wf(),
            final(self)@.workers == old(self)@.workers.insert(worker_id@, final(self)@.workers[worker_id@]),
            final(self)@.workers[worker_id@].worker_id@ == worker_id@,
            final(self)@.workers[worker_id@].staked_amount == stake,
            final(self)@.workers[worker_id@].reputation == 0,
            final(self)@.jobs == old(self)@.jobs,
            final(self)@.challenges == old(self)@.challenges,
            final(self)@.challenge_ids == old(self)@.challenge_ids,
            final(self)@.stats == old(self)@.stats,
            final(self)@.events == old(self)@.events,
            final(self)@.seq == old(self)@.seq,
            final(self)@.challenge_seq == old(self)@.challenge_seq,
    {
        self.lifecycle.register_worker(worker_id, stake);
    }

    /// Creates a job and opens its commit phase.
    pub fn create_job(&mut self, spec: JobSpec) -> (r: String)
        requires
            old(self).wf(),
            old(self)@.seq + 2 <= u64::MAX,
        ensures
            final(self).wf(),
            r@ == spec.job_id@,
            final(self)@.jobs == old(self)@.jobs.insert(spec.job_id@, fresh_job(spec)),
            only_jobs_and_log_change(old(self)@, final(self)@),
            final(self)@.seq == old(self)@.seq + 2,
            log_extends(old(self)@.events, final(self)@.events, 2),
            event_is(
                final(self)@.events[old(self)@.events.len() as int],
                (old(self)@.seq + 1) as u64,
                spec.job_id@,
                ContractEventKind::JobCreated,
                "requester"@,
                "job created"@,
            ),
            event_is(
                final(self)@.events.last(),
                final(self)@.seq,
                spec.job_id@,
                ContractEventKind::CommitOpened,
                "system"@,
                "commit phase open"@,
            ),
    {
        self.lifecycle.create_job(spec)
    }

    /// Commits a worker's submission hash.
    pub fn commit_submission(&mut self, job_id: &str, worker_id: &str, commitment_hash: &str) -> (r: Result<
        (),
        ContractError,
    >)
        requires
            old(self).wf(),
            old(self)@.seq < u64::MAX,
        ensures
            final(self).wf(),
            commit_post(old(self)@, final(self)@, job_id@, worker_id@, commitment_hash@, r),
    {
        self.lifecycle.commit_submission(job_id, worker_id, commitment_hash)
    }

    /// Closes commits and opens reveals.
    pub fn open_reveal_phase(&mut self, job_id: &str) -> (r: Result<(), ContractError>)
        requires
            old(self).wf(),
            old(self)@.seq < u64::MAX,
        ensures
            final(self).wf(),
            phase_step_post(
                old(self)@,
                final(self)@,
                job_id@,
                ContractJobState::CommitOpen,
                ContractJobState::RevealOpen,
                ContractEventKind::RevealOpened,
                "reveal phase open"@,
                r,
            ),
    {
        self.lifecycle.open_reveal_phase(job_id)
    }

    /// Reveals a worker's report against its commitment.
    pub fn reveal_submission(&mut self, job_id: &str, report: WorkerExecutionReport) -> (r: Result<(), ContractError>)
        requires
            old(self).wf(),
            old(self)@.seq < u64::MAX,
        ensures
            final(self).wf(),
            reveal_post(old(self)@, final(self)@, job_id@, report, r),
    {
        self.lifecycle.reveal_submission(job_id, report)
    }

    /// Closes reveals and opens verification.
    pub fn open_verify_phase(&mut self, job_id: &str) -> (r: Result<(), ContractError>)
        requires
            old(self).wf(),
            old(self)@.seq < u64::MAX,
        ensures
            final(self).wf(),
            phase_step_post(
                old(self)@,
                final(self)@,
                job_id@,
                ContractJobState::RevealOpen,
                ContractJobState::VerifyOpen,
                ContractEventKind::VerifyOpened,
                "verify phase open"@,
                r,
            ),
    {
        self.lifecycle.open_verify_phase(job_id)
    }

    /// Records a verifier's verdict on a worker's submission.
    pub fn record_verification(&mut self, job_id: &str, verifier_id: &str, target_worker_id: &str, passed: bool) -> (r:
        Result<(), ContractError>)
        requires
            old(self).wf(),
            old(self)@.seq < u64::MAX,
            old(self)@.jobs.contains_key(job_id@) ==> old(self)@.jobs[job_id@].verification_pass_count < u32::MAX,
            pair_counts(old(self)@, verifier_id@, target_worker_id@).0 < u64::MAX,
            pair_counts(old(self)@, verifier_id@, target_worker_id@).1 < u64::MAX,
        ensures
            final(self).wf(),
            verification_post(old(self)@, final(self)@, job_id@, verifier_id@, target_worker_id@, passed, r),
    {
        self.lifecycle.record_verification(job_id, verifier_id, target_worker_id, passed)
    }

    /// Opens a challenge against a worker's submission; the evidence score is
    /// given as its bit pattern and as its decimal text.
    pub fn submit_challenge(
        &mut self,
        job_id: &str,
        challenger_id: &str,
        target_worker_id: &str,
        challenge_type: ChallengeType,
        evidence_score_bits: u64,
        evidence_text: &str,
    ) -> (r: Result<String, ContractError>)
        requires
            old(self).wf(),
            old(self)@.seq < u64::MAX,
            old(self)@.challenge_seq < u64::MAX,
        ensures
            final(self).wf(),
            submit_post(
                old(self)@,
                final(self)@,
                job_id@,
                challenger_id@,
                target_worker_id@,
                challenge_type,
                evidence_score_bits,
                evidence_text@,
                r,
            ),
    {
        self.lifecycle.submit_challenge(
            job_id,
            challenger_id,
            target_worker_id,
            challenge_type,
            evidence_score_bits,
            evidence_text,
        )
    }

    /// Resolves an open challenge.
    pub fn resolve_challenge(&mut self, challenge_id: &str, accepted: bool) -> (r: Result<(), ContractError>)
        requires
            old(self).wf(),
            old(self)@.seq + 2 <= u64::MAX,
            reputations_in_range(old(self)@.workers),
        ensures
            final(self).wf(),
            resolve_post(old(self)@, final(self)@, challenge_id@, accepted, r),
    {
        self.lifecycle.resolve_challenge(challenge_id, accepted)
    }

    /// Finalizes a job, scoring each revealed report with `score_bits`.
    pub fn finalize_job<F: Fn(&WorkerExecutionReport) -> u64>(&mut self, job_id: &str, score_bits: F) -> (r: Result<
        FinalizationRecord,
        ContractError,
    >)
        requires
            old(self).wf(),
            old(self)@.seq < u64::MAX,
            forall|report: &WorkerExecutionReport| #[trigger] score_bits.requires((report,)),
        ensures
            final(self).wf(),
            finalize_post(old(self)@, final(self)@, job_id@, score_bits, r),
    {
        self.lifecycle.finalize_job(job_id, score_bits)
    }

    /// Settles a finalized job, paying each scored worker the share that
    /// `share_bits` computes.
    pub fn settle_job<G: Fn(&FinalizationRecord, usize) -> u64>(&mut self, job_id: &str, share_bits: G) -> (r: Result<
        Vec<(String, u64)>,
        ContractError,
    >)
        requires
            old(self).wf(),
            forall|f: &FinalizationRecord, j: usize| #[trigger] share_bits.requires((f, j)),
            reputations_in_range(old(self)@.workers),
            old(self)@.jobs.contains_key(job_id@) && old(self)@.jobs[job_id@].finalization is Some ==> old(self)@.seq
                + old(self)@.jobs[job_id@].finalization->0.scored_workers@.len()
                + old(self)@.jobs[job_id@].commit_order.len() + 1 <= u64::MAX,
        ensures
            final(self).wf(),
            settle_post(old(self)@, final(self)@, job_id@, share_bits, r),
    {
        self.lifecycle.settle_job(job_id, share_bits)
    }

    /// The contract state of job `job_id`.
    pub fn get_job_state(&self, job_id: &str) -> (r: Option<ContractJobState>)
        requires
            self.wf(),
        ensures
            r == job_state(self@, job_id@),
    {
        self.lifecycle.get_job_state(job_id)
    }

    /// The lifecycle the client drives.
    pub fn inner(&self) -> (r: &ContractLifecycle)
        ensures
            *r == self.lifecycle_spec(),
            r@ == self@,
    {
        &self.lifecycle
    }
}

impl Default for ContractLifecycleClient {
    fn default() -> (r: Self)
        ensures
            r.wf(),
            r@ == ContractLifecycle::new_view(),
    {
        Self::new()
    }
}

} // verus!
