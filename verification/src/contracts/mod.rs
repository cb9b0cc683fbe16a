//! Contract-facing job lifecycle: job creation, commit/reveal, verification,
//! challenges with slashing, finalization, settlement and the event log.
//!
//! Scores, evidence scores and payout shares are `f64` values held as their
//! bit patterns; the arithmetic that produces them is supplied by the caller
//! (a scoring function for finalization, a share function for settlement).

use vstd::prelude::*;

use crate::keyed::{
    copy_string, entries_sorted, is_permutation, is_rearrangement, occurs, owned, sort_entries, str_eq, StrMap,
};
use crate::text::{
    bool_text, dec, dec_padded, dec_signed, lemma_dec_padded_injective, push_bool, push_dec, push_dec_padded,
    push_dec_signed, push_text,
};
use crate::worker::models::JobSpec;
use crate::worker::WorkerExecutionReport;

verus! {

/// Contract-side phases of a job.
#[derive(Debug, Clone, Copy, PartialEq, Eq, Structural)]
pub enum ContractJobState {
    Created,
    CommitOpen,
    RevealOpen,
    VerifyOpen,
    Finalized,
    Settled,
}

/// A registered worker (or challenger) with its stake and reputation.
#[derive(Debug, Clone)]
pub struct WorkerAccount {
    pub worker_id: String,
    pub staked_amount: u64,
    pub reputation: i64,
}

/// What an event records.
#[derive(Debug, Clone, Copy, PartialEq, Eq, Structural)]
pub enum ContractEventKind {
    JobCreated,
    CommitOpened,
    SubmissionCommitted,
    RevealOpened,
    SubmissionRevealed,
    VerifyOpened,
    VerificationRecorded,
    ChallengeSubmitted,
    ChallengeResolved,
    StakeSlashed,
    JobFinalized,
    JobSettled,
    ReputationUpdated,
}

/// One entry of the event log.
#[derive(Debug, Clone)]
pub struct ContractEvent {
    pub seq: u64,
    pub job_id: String,
    pub kind: ContractEventKind,
    pub actor_id: String,
    pub details: String,
}

/// A worker's commitment for a job and the stake it locks.
#[derive(Debug, Clone)]
pub struct CommitRecord {
    pub commitment_hash: String,
    pub stake_locked: u64,
}

/// The scored workers of a finalized job, best first, and the winner.
#[derive(Debug, Clone)]
pub struct FinalizationRecord {
    pub scored_workers: Vec<(String, u64)>,
    pub winner_worker_id: String,
}

/// The kinds of dispute a challenger can raise.
#[derive(Debug, Clone, Copy, PartialEq, Eq, Structural)]
pub enum ChallengeType {
    FabricatedOutput,
    LowQuality,
    ReplayAttack,
}

/// Whether a challenge is still open or how it was resolved.
#[derive(Debug, Clone, Copy, PartialEq, Eq, Structural)]
pub enum ChallengeStatus {
    Open,
    Accepted,
    Rejected,
}

/// A dispute against a revealed submission.
#[derive(Debug, Clone)]
pub struct ChallengeRecord {
    pub challenge_id: String,
    pub job_id: String,
    pub challenger_id: String,
    pub target_worker_id: String,
    pub challenge_type: ChallengeType,
    pub evidence_score_bits: u64,
    pub status: ChallengeStatus,
    pub submitted_seq: u64,
    pub resolved_seq: Option<u64>,
}

/// Why the lifecycle refused an operation.
#[derive(Debug, Clone, Copy, PartialEq, Eq, Structural)]
pub enum ContractError {
    JobNotFound,
    WorkerNotRegistered,
    InsufficientStake,
    InvalidState,
    CommitmentMismatch,
    MissingCommit,
    NoReveals,
    MissingFinalization,
    ChallengeNotFound,
    InvalidChallengeState,
    TargetSubmissionNotFound,
}

/// The abstract content of a finalization record.
pub struct FinalizationView {
    pub scored: Seq<(Seq<char>, u64)>,
    pub winner: Seq<char>,
}

impl View for FinalizationRecord {
    type V = FinalizationView;

    open spec fn view(&self) -> FinalizationView {
        FinalizationView {
            scored: self.scored_workers@.map_values(|e: (String, u64)| (e.0@, e.1)),
            winner: self.winner_worker_id@,
        }
    }
}

impl FinalizationRecord {
    /// A copy with the same content.
    pub fn copied(&self) -> (r: FinalizationRecord)
        ensures
            r@ == self@,
    {
        let mut scored: Vec<(String, u64)> = Vec::new();
        let mut i: usize = 0;
        while i < self.scored_workers.len()
            invariant
                i <= self.scored_workers@.len(),
                scored@.len() == i,
                forall|j: int|
                    0 <= j < i ==> scored@[j].0@ == self.scored_workers@[j].0@ && scored@[j].1
                        == self.scored_workers@[j].1,
            decreases self.scored_workers@.len() - i,
        {
            let name = copy_string(&self.scored_workers[i].0);
            scored.push((name, self.scored_workers[i].1));
            i = i + 1;
        }
        let r = FinalizationRecord { scored_workers: scored, winner_worker_id: copy_string(&self.winner_worker_id) };
        assert(r@.scored =~= self@.scored);
        r
    }
}

/// The abstract content of a job.
pub struct JobView {
    pub spec: JobSpec,
    pub state: ContractJobState,
    pub commits: Map<Seq<char>, CommitRecord>,
    pub commit_order: Seq<Seq<char>>,
    pub reveals: Map<Seq<char>, WorkerExecutionReport>,
    pub reveal_order: Seq<Seq<char>>,
    pub verification_pass_count: u32,
    pub open_challenge_ids: Seq<Seq<char>>,
    pub finalization: Option<FinalizationRecord>,
    pub payouts: Option<Seq<(Seq<char>, u64)>>,
}

/// The abstract content of the lifecycle: jobs, accounts, challenges,
/// verifier/worker pass counts, the event log and the counters.
pub struct LifecycleView {
    pub jobs: Map<Seq<char>, JobView>,
    pub workers: Map<Seq<char>, WorkerAccount>,
    pub challenges: Map<Seq<char>, ChallengeRecord>,
    pub challenge_ids: Seq<Seq<char>>,
    pub stats: Map<Seq<char>, Map<Seq<char>, (u64, u64)>>,
    pub events: Seq<ContractEvent>,
    pub seq: u64,
    pub challenge_seq: u64,
}

struct ContractJob {
    spec: JobSpec,
    state: ContractJobState,
    commits: StrMap<CommitRecord>,
    reveals: StrMap<WorkerExecutionReport>,
    verification_pass_count: u32,
    open_challenge_ids: Vec<String>,
    finalization: Option<FinalizationRecord>,
    payouts: Option<Vec<(String, u64)>>,
}

impl ContractJob {
    spec fn view(&self) -> JobView {
        JobView {
            spec: self.spec,
            state: self.state,
            commits: self.commits.map(),
            commit_order: self.commits.keys(),
            reveals: self.reveals.map(),
            reveal_order: self.reveals.keys(),
            verification_pass_count: self.verification_pass_count,
            open_challenge_ids: self.open_challenge_ids@.map_values(|s: String| s@),
            finalization: self.finalization,
            payouts: match self.payouts {
                Some(p) => Some(p@.map_values(|e: (String, u64)| (e.0@, e.1))),
                None => None,
            },
        }
    }

    spec fn wf(&self) -> bool {
        &&& self.commits.wf()
        &&& self.reveals.wf()
        &&& forall|i: int|
            0 <= i < self.reveals.size() ==> #[trigger] self.reveals.key_at(i)
                == self.reveals.value_at(i).submission.worker_id@
        &&& self.finalization matches Some(f) ==> distinct_workers(f.scored_workers@)
    }
}

/// Worker `w` occurs in a `(worker, value)` list.
pub open spec fn lists_worker(s: Seq<(String, u64)>, w: Seq<char>) -> bool {
    exists|i: int| 0 <= i < s.len() && s[i].0@ == w
}

/// No worker occurs twice in a `(worker, value)` list.
pub open spec fn distinct_workers(s: Seq<(String, u64)>) -> bool {
    forall|i: int, j: int| 0 <= i < s.len() && 0 <= j < s.len() && i != j ==> s[i].0@ != s[j].0@
}

/// The job phase that an event of kind `kind` leaves behind, given the phase
/// before it.
pub open spec fn phase_after(kind: ContractEventKind, prev: Option<ContractJobState>) -> Option<ContractJobState> {
    match kind {
        ContractEventKind::JobCreated => Some(ContractJobState::Created),
        ContractEventKind::CommitOpened => Some(ContractJobState::CommitOpen),
        ContractEventKind::RevealOpened => Some(ContractJobState::RevealOpen),
        ContractEventKind::VerifyOpened => Some(ContractJobState::VerifyOpen),
        ContractEventKind::JobFinalized => Some(ContractJobState::Finalized),
        ContractEventKind::JobSettled => Some(ContractJobState::Settled),
        _ => prev,
    }
}

/// The phase of job `job` that replaying `events` in order yields.
pub open spec fn replay(events: Seq<ContractEvent>, job: Seq<char>) -> Option<ContractJobState>
    decreases events.len(),
{
    if events.len() == 0 {
        None
    } else {
        let prev = replay(events.drop_last(), job);
        if events.last().job_id@ == job {
            phase_after(events.last().kind, prev)
        } else {
            prev
        }
    }
}

/// Replaying one more event changes only the replayed phase of its own job.
pub proof fn lemma_replay_push(events: Seq<ContractEvent>, e: ContractEvent, job: Seq<char>)
    ensures
        replay(events.push(e), job) == if e.job_id@ == job {
            phase_after(e.kind, replay(events, job))
        } else {
            replay(events, job)
        },
{
    assert(events.push(e).drop_last() =~= events);
}

/// The current phase of job `job`, if it exists.
pub open spec fn job_state(v: LifecycleView, job: Seq<char>) -> Option<ContractJobState> {
    if v.jobs.contains_key(job) {
        Some(v.jobs[job].state)
    } else {
        None
    }
}

/// Event `e` carries exactly these fields.
pub open spec fn event_is(
    e: ContractEvent,
    seq: u64,
    job: Seq<char>,
    kind: ContractEventKind,
    actor: Seq<char>,
    details: Seq<char>,
) -> bool {
    &&& e.seq == seq
    &&& e.job_id@ == job
    &&& e.kind == kind
    &&& e.actor_id@ == actor
    &&& e.details@ == details
}

/// `after` is `before` followed by `n` more events.
pub open spec fn log_extends(before: Seq<ContractEvent>, after: Seq<ContractEvent>, n: nat) -> bool {
    &&& after.len() == before.len() + n
    &&& after.subrange(0, before.len() as int) == before
}

/// Nothing but the jobs and the event log differ.
pub open spec fn only_jobs_and_log_change(a: LifecycleView, b: LifecycleView) -> bool {
    &&& b.workers == a.workers
    &&& b.challenges == a.challenges
    &&& b.challenge_ids == a.challenge_ids
    &&& b.stats == a.stats
    &&& b.challenge_seq == a.challenge_seq
}

/// The lifecycle is unchanged.
pub open spec fn unchanged(a: LifecycleView, b: LifecycleView) -> bool {
    &&& b.jobs == a.jobs
    &&& b.workers == a.workers
    &&& b.challenges == a.challenges
    &&& b.challenge_ids == a.challenge_ids
    &&& b.stats == a.stats
    &&& b.events == a.events
    &&& b.seq == a.seq
    &&& b.challenge_seq == a.challenge_seq
}

/// Job `job` moves from phase `from` to `to`, with one event of kind `kind`;
/// or the call fails with the error and nothing changes.
pub open spec fn phase_step_post(
    a: LifecycleView,
    b: LifecycleView,
    job: Seq<char>,
    from: ContractJobState,
    to: ContractJobState,
    kind: ContractEventKind,
    details: Seq<char>,
    r: Result<(), ContractError>,
) -> bool {
    if !a.jobs.contains_key(job) {
        r == Err::<(), ContractError>(ContractError::JobNotFound) && unchanged(a, b)
    } else if a.jobs[job].state != from {
        r == Err::<(), ContractError>(ContractError::InvalidState) && unchanged(a, b)
    } else {
        &&& r is Ok
        &&& b.jobs == a.jobs.insert(job, JobView { state: to, ..a.jobs[job] })
        &&& only_jobs_and_log_change(a, b)
        &&& b.seq == a.seq + 1
        &&& log_extends(a.events, b.events, 1)
        &&& event_is(b.events.last(), b.seq, job, kind, "system"@, details)
    }
}

/// The job that `create_job` stores: the spec, the commit phase open and
/// nothing committed, revealed, verified, challenged, finalized or paid.
pub open spec fn fresh_job(spec: JobSpec) -> JobView {
    JobView {
        spec,
        state: ContractJobState::CommitOpen,
        commits: Map::empty(),
        commit_order: Seq::empty(),
        reveals: Map::empty(),
        reveal_order: Seq::empty(),
        verification_pass_count: 0,
        open_challenge_ids: Seq::empty(),
        finalization: None,
        payouts: None,
    }
}

/// The commitment that a reveal must match:
/// `worker_id ":" output digest ":" execution digest`.
pub open spec fn commitment_text(report: WorkerExecutionReport) -> Seq<char> {
    report.submission.worker_id@ + ":"@ + report.submission.output_ref.digest_hex@ + ":"@
        + report.submission.algorithm_execution_hash.digest_hex@
}

/// The outcome of `commit_submission`.
pub open spec fn commit_post(
    a: LifecycleView,
    b: LifecycleView,
    job: Seq<char>,
    worker: Seq<char>,
    hash: Seq<char>,
    r: Result<(), ContractError>,
) -> bool {
    if !a.workers.contains_key(worker) {
        r == Err::<(), ContractError>(ContractError::WorkerNotRegistered) && unchanged(a, b)
    } else if !a.jobs.contains_key(job) {
        r == Err::<(), ContractError>(ContractError::JobNotFound) && unchanged(a, b)
    } else if a.jobs[job].state != ContractJobState::CommitOpen {
        r == Err::<(), ContractError>(ContractError::InvalidState) && unchanged(a, b)
    } else if a.workers[worker].staked_amount < a.jobs[job].spec.min_worker_stake {
        r == Err::<(), ContractError>(ContractError::InsufficientStake) && unchanged(a, b)
    } else {
        &&& r is Ok
        &&& b.jobs == a.jobs.insert(
            job,
            JobView {
                commits: a.jobs[job].commits.insert(worker, b.jobs[job].commits[worker]),
                commit_order: if a.jobs[job].commits.contains_key(worker) {
                    a.jobs[job].commit_order
                } else {
                    a.jobs[job].commit_order.push(worker)
                },
                ..a.jobs[job]
            },
        )
        &&& b.jobs[job].commits[worker].commitment_hash@ == hash
        &&& b.jobs[job].commits[worker].stake_locked == a.jobs[job].spec.min_worker_stake
        &&& only_jobs_and_log_change(a, b)
        &&& b.seq == a.seq + 1
        &&& log_extends(a.events, b.events, 1)
        &&& event_is(
            b.events.last(),
            b.seq,
            job,
            ContractEventKind::SubmissionCommitted,
            worker,
            "commit="@ + hash,
        )
    }
}

/// The outcome of `reveal_submission`.
pub open spec fn reveal_post(
    a: LifecycleView,
    b: LifecycleView,
    job: Seq<char>,
    report: WorkerExecutionReport,
    r: Result<(), ContractError>,
) -> bool {
    let worker = report.submission.worker_id@;
    if !a.jobs.contains_key(job) {
        r == Err::<(), ContractError>(ContractError::JobNotFound) && unchanged(a, b)
    } else if a.jobs[job].state != ContractJobState::RevealOpen {
        r == Err::<(), ContractError>(ContractError::InvalidState) && unchanged(a, b)
    } else if !a.jobs[job].commits.contains_key(worker) {
        r == Err::<(), ContractError>(ContractError::MissingCommit) && unchanged(a, b)
    } else if a.jobs[job].commits[worker].commitment_hash@ != commitment_text(report) {
        r == Err::<(), ContractError>(ContractError::CommitmentMismatch) && unchanged(a, b)
    } else {
        &&& r is Ok
        &&& b.jobs == a.jobs.insert(
            job,
            JobView {
                reveals: a.jobs[job].reveals.insert(worker, report),
                reveal_order: if a.jobs[job].reveals.contains_key(worker) {
                    a.jobs[job].reveal_order
                } else {
                    a.jobs[job].reveal_order.push(worker)
                },
                ..a.jobs[job]
            },
        )
        &&& only_jobs_and_log_change(a, b)
        &&& b.seq == a.seq + 1
        &&& log_extends(a.events, b.events, 1)
        &&& event_is(
            b.events.last(),
            b.seq,
            job,
            ContractEventKind::SubmissionRevealed,
            worker,
            "reveal accepted"@,
        )
    }
}

/// The (passed, total) verification counts of a verifier/worker pair.
pub open spec fn pair_counts(v: LifecycleView, verifier: Seq<char>, worker: Seq<char>) -> (u64, u64) {
    if v.stats.contains_key(verifier) && v.stats[verifier].contains_key(worker) {
        v.stats[verifier][worker]
    } else {
        (0, 0)
    }
}

/// The pair-count map with one more verification of `worker` by `verifier`.
pub open spec fn stats_after(
    stats: Map<Seq<char>, Map<Seq<char>, (u64, u64)>>,
    verifier: Seq<char>,
    worker: Seq<char>,
    counts: (u64, u64),
) -> Map<Seq<char>, Map<Seq<char>, (u64, u64)>> {
    let inner = if stats.contains_key(verifier) {
        stats[verifier]
    } else {
        Map::empty()
    };
    stats.insert(verifier, inner.insert(worker, counts))
}

/// The outcome of `record_verification`.
pub open spec fn verification_post(
    a: LifecycleView,
    b: LifecycleView,
    job: Seq<char>,
    verifier: Seq<char>,
    worker: Seq<char>,
    passed: bool,
    r: Result<(), ContractError>,
) -> bool {
    if !a.jobs.contains_key(job) {
        r == Err::<(), ContractError>(ContractError::JobNotFound) && unchanged(a, b)
    } else if a.jobs[job].state != ContractJobState::VerifyOpen {
        r == Err::<(), ContractError>(ContractError::InvalidState) && unchanged(a, b)
    } else if !a.jobs[job].reveals.contains_key(worker) {
        r == Err::<(), ContractError>(ContractError::TargetSubmissionNotFound) && unchanged(a, b)
    } else {
        let old_counts = pair_counts(a, verifier, worker);
        &&& r is Ok
        &&& b.jobs == a.jobs.insert(
            job,
            JobView {
                verification_pass_count: if passed {
                    (a.jobs[job].verification_pass_count + 1) as u32
                } else {
                    a.jobs[job].verification_pass_count
                },
                ..a.jobs[job]
            },
        )
        &&& b.stats == stats_after(
            a.stats,
            verifier,
            worker,
            (
                if passed {
                    (old_counts.0 + 1) as u64
                } else {
                    old_counts.0
                },
                (old_counts.1 + 1) as u64,
            ),
        )
        &&& b.workers == a.workers
        &&& b.challenges == a.challenges
        &&& b.challenge_ids == a.challenge_ids
        &&& b.challenge_seq == a.challenge_seq
        &&& b.seq == a.seq + 1
        &&& log_extends(a.events, b.events, 1)
        &&& event_is(
            b.events.last(),
            b.seq,
            job,
            ContractEventKind::VerificationRecorded,
            verifier,
            "target="@ + worker + if passed {
                ";pass"@
            } else {
                ";fail"@
            },
        )
    }
}

/// The stake a challenger needs against a job: half the job's minimum
/// worker stake, at least 1.
pub open spec fn challenge_stake_floor(min_stake: u64) -> u64 {
    if min_stake / 2 > 1 {
        (min_stake / 2) as u64
    } else {
        1
    }
}

/// The id of the `n`-th challenge: `challenge-` and `n` padded to 4 digits.
pub open spec fn challenge_id_text(n: nat) -> Seq<char> {
    "challenge-"@ + dec_padded(n, 4)
}

/// `k` is the id of a challenge numbered from 1 to `seq`.
pub open spec fn issued_challenge_id(k: Seq<char>, seq: u64) -> bool {
    exists|n: nat| 1 <= n <= seq && #[trigger] challenge_id_text(n) == k
}

/// Distinct numbers give distinct challenge ids.
pub proof fn lemma_challenge_id_injective(n: nat, m: nat)
    requires
        challenge_id_text(n) == challenge_id_text(m),
    ensures
        n == m,
{
    reveal_strlit("challenge-");
    assert(challenge_id_text(n).subrange(10, challenge_id_text(n).len() as int) =~= dec_padded(n, 4));
    assert(challenge_id_text(m).subrange(10, challenge_id_text(m).len() as int) =~= dec_padded(m, 4));
    lemma_dec_padded_injective(n, m, 4);
}

/// The outcome of `submit_challenge`.
pub open spec fn submit_post(
    a: LifecycleView,
    b: LifecycleView,
    job: Seq<char>,
    challenger: Seq<char>,
    target: Seq<char>,
    challenge_type: ChallengeType,
    evidence_score_bits: u64,
    evidence_text: Seq<char>,
    r: Result<String, ContractError>,
) -> bool {
    if !a.workers.contains_key(challenger) {
        r == Err::<String, ContractError>(ContractError::WorkerNotRegistered) && unchanged(a, b)
    } else if !a.jobs.contains_key(job) {
        r == Err::<String, ContractError>(ContractError::JobNotFound) && unchanged(a, b)
    } else if a.jobs[job].state != ContractJobState::VerifyOpen && a.jobs[job].state != ContractJobState::Finalized {
        r == Err::<String, ContractError>(ContractError::InvalidState) && unchanged(a, b)
    } else if !a.jobs[job].reveals.contains_key(target) {
        r == Err::<String, ContractError>(ContractError::TargetSubmissionNotFound) && unchanged(a, b)
    } else if a.workers[challenger].staked_amount < challenge_stake_floor(a.jobs[job].spec.min_worker_stake) {
        r == Err::<String, ContractError>(ContractError::InsufficientStake) && unchanged(a, b)
    } else {
        let id = challenge_id_text((a.challenge_seq + 1) as nat);
        let rec = b.challenges[id];
        &&& r matches Ok(rid) && rid@ == id
        &&& b.challenge_seq == a.challenge_seq + 1
        &&& b.challenges == a.challenges.insert(id, rec)
        &&& rec.challenge_id@ == id
        &&& rec.job_id@ == job
        &&& rec.challenger_id@ == challenger
        &&& rec.target_worker_id@ == target
        &&& rec.challenge_type == challenge_type
        &&& rec.evidence_score_bits == evidence_score_bits
        &&& rec.status == ChallengeStatus::Open
        &&& rec.submitted_seq == a.seq + 1
        &&& rec.resolved_seq is None
        &&& !a.challenges.contains_key(id)
        &&& b.challenge_ids == a.challenge_ids.push(id)
        &&& b.jobs == a.jobs.insert(
            job,
            JobView { open_challenge_ids: a.jobs[job].open_challenge_ids.push(id), ..a.jobs[job] },
        )
        &&& b.workers == a.workers
        &&& b.stats == a.stats
        &&& b.seq == a.seq + 1
        &&& log_extends(a.events, b.events, 1)
        &&& event_is(
            b.events.last(),
            b.seq,
            job,
            ContractEventKind::ChallengeSubmitted,
            challenger,
            "target="@ + target + ";evidence="@ + evidence_text,
        )
    }
}

/// The slashing base of a job: a fifth of its minimum worker stake, at least 1.
pub open spec fn slash_base(min_stake: u64) -> u64 {
    if min_stake / 5 > 1 {
        (min_stake / 5) as u64
    } else {
        1
    }
}

/// What is slashed from a stake: the base, or the whole stake if smaller.
pub open spec fn slash_amount(base: u64, staked: u64) -> u64 {
    if base < staked {
        base
    } else {
        staked
    }
}

/// An account after a slash and a reputation loss.
pub open spec fn penalized(account: WorkerAccount, base: u64, loss: int) -> WorkerAccount {
    WorkerAccount {
        staked_amount: (account.staked_amount - slash_amount(base, account.staked_amount)) as u64,
        reputation: (account.reputation - loss) as i64,
        ..account
    }
}

/// An account after a reputation gain.
pub open spec fn rewarded(account: WorkerAccount, gain: int) -> WorkerAccount {
    WorkerAccount { reputation: (account.reputation + gain) as i64, ..account }
}

/// The accounts after resolving a challenge: an accepted challenge slashes
/// the target (reputation -2) and then rewards the challenger (+1); a
/// rejected one slashes the challenger (reputation -1). Unregistered parties
/// are skipped.
pub open spec fn workers_after_resolution(
    w: Map<Seq<char>, WorkerAccount>,
    target: Seq<char>,
    challenger: Seq<char>,
    base: u64,
    accepted: bool,
) -> Map<Seq<char>, WorkerAccount> {
    if accepted {
        let w1 = if w.contains_key(target) {
            w.insert(target, penalized(w[target], base, 2))
        } else {
            w
        };
        if w1.contains_key(challenger) {
            w1.insert(challenger, rewarded(w1[challenger], 1))
        } else {
            w1
        }
    } else if w.contains_key(challenger) {
        w.insert(challenger, penalized(w[challenger], base, 1))
    } else {
        w
    }
}

/// Every reputation is far enough from the `i64` limits for one resolution
/// or settlement step.
pub open spec fn reputations_in_range(w: Map<Seq<char>, WorkerAccount>) -> bool {
    forall|k: Seq<char>|
        #[trigger] w.contains_key(k) ==> i64::MIN + 2 <= w[k].reputation && w[k].reputation <= i64::MAX - 1
}

/// The outcome of `resolve_challenge`.
pub open spec fn resolve_post(
    a: LifecycleView,
    b: LifecycleView,
    cid: Seq<char>,
    accepted: bool,
    r: Result<(), ContractError>,
) -> bool {
    if !a.challenges.contains_key(cid) {
        r == Err::<(), ContractError>(ContractError::ChallengeNotFound) && unchanged(a, b)
    } else if a.challenges[cid].status != ChallengeStatus::Open {
        r == Err::<(), ContractError>(ContractError::InvalidChallengeState) && unchanged(a, b)
    } else if !a.jobs.contains_key(a.challenges[cid].job_id@) {
        r == Err::<(), ContractError>(ContractError::JobNotFound) && unchanged(a, b)
    } else {
        let c = a.challenges[cid];
        let job = c.job_id@;
        let target = c.target_worker_id@;
        let challenger = c.challenger_id@;
        let base = slash_base(a.jobs[job].spec.min_worker_stake);
        let slashed = if accepted {
            target
        } else {
            challenger
        };
        let slashed_any = a.workers.contains_key(slashed);
        let n: nat = if slashed_any {
            2
        } else {
            1
        };
        &&& r is Ok
        &&& b.workers == workers_after_resolution(a.workers, target, challenger, base, accepted)
        &&& b.challenges == a.challenges.insert(
            cid,
            ChallengeRecord {
                status: if accepted {
                    ChallengeStatus::Accepted
                } else {
                    ChallengeStatus::Rejected
                },
                resolved_seq: Some((a.seq + n) as u64),
                ..c
            },
        )
        &&& b.challenge_ids == a.challenge_ids
        &&& b.jobs == a.jobs.insert(
            job,
            JobView {
                open_challenge_ids: a.jobs[job].open_challenge_ids.filter(|x: Seq<char>| x != cid),
                ..a.jobs[job]
            },
        )
        &&& b.stats == a.stats
        &&& b.challenge_seq == a.challenge_seq
        &&& b.seq == a.seq + n
        &&& log_extends(a.events, b.events, n)
        &&& slashed_any ==> event_is(
            b.events[a.events.len() as int],
            (a.seq + 1) as u64,
            job,
            ContractEventKind::StakeSlashed,
            slashed,
            "side="@ + (if accepted {
                "target"@
            } else {
                "challenger"@
            }) + ";amount="@ + dec(slash_amount(base, a.workers[slashed].staked_amount) as nat),
        )
        &&& event_is(
            b.events.last(),
            b.seq,
            job,
            ContractEventKind::ChallengeResolved,
            "system"@,
            "challenge_id="@ + cid + ";accepted="@ + bool_text(accepted),
        )
    }
}

/// The outcome of `finalize_job`: the revealed workers scored by `score_bits`,
/// best first (by `f64::total_cmp` order, then worker id), and the best one
/// as the winner.
pub open spec fn finalize_post<F: Fn(&WorkerExecutionReport) -> u64>(
    a: LifecycleView,
    b: LifecycleView,
    job: Seq<char>,
    score_bits: F,
    r: Result<FinalizationRecord, ContractError>,
) -> bool {
    if !a.jobs.contains_key(job) {
        r == Err::<FinalizationRecord, ContractError>(ContractError::JobNotFound) && unchanged(a, b)
    } else if a.jobs[job].state != ContractJobState::VerifyOpen {
        r == Err::<FinalizationRecord, ContractError>(ContractError::InvalidState) && unchanged(a, b)
    } else if a.jobs[job].reveal_order.len() == 0 {
        r == Err::<FinalizationRecord, ContractError>(ContractError::NoReveals) && unchanged(a, b)
    } else {
        let order = a.jobs[job].reveal_order;
        &&& r matches Ok(fin) && {
            &&& fin.scored_workers@.len() == order.len()
            &&& forall|i: int|
                0 <= i < fin.scored_workers@.len() ==> exists|j: int|
                    0 <= j < order.len() && order[j] == (#[trigger] fin.scored_workers@[i]).0@ && call_ensures(
                        score_bits,
                        (&a.jobs[job].reveals[order[j]],),
                        fin.scored_workers@[i].1,
                    )
            &&& forall|j: int| 0 <= j < order.len() ==> lists_worker(fin.scored_workers@, #[trigger] order[j])
            &&& distinct_workers(fin.scored_workers@)
            &&& entries_sorted(fin.scored_workers@, true)
            &&& fin.winner_worker_id@ == fin.scored_workers@[0].0@
            &&& b.jobs == a.jobs.insert(
                job,
                JobView { state: ContractJobState::Finalized, finalization: b.jobs[job].finalization, ..a.jobs[job] },
            )
            &&& b.jobs[job].finalization matches Some(stored) && stored@ == fin@
            &&& only_jobs_and_log_change(a, b)
            &&& b.seq == a.seq + 1
            &&& log_extends(a.events, b.events, 1)
            &&& event_is(
                b.events.last(),
                b.seq,
                job,
                ContractEventKind::JobFinalized,
                "system"@,
                "winner="@ + fin.winner_worker_id@,
            )
        }
    }
}

/// Whether an `f64` bit pattern is a value greater than zero.
pub open spec fn share_positive(bits: u64) -> bool {
    0 < bits && bits <= 0x7FF0_0000_0000_0000
}

/// The accounts after settlement: each paid worker that is registered and
/// has a positive share gains one reputation point.
pub open spec fn workers_after_settlement(
    w: Map<Seq<char>, WorkerAccount>,
    payouts: Seq<(String, u64)>,
) -> Map<Seq<char>, WorkerAccount>
    decreases payouts.len(),
{
    if payouts.len() == 0 {
        w
    } else {
        let w0 = workers_after_settlement(w, payouts.drop_last());
        let e = payouts.last();
        if w0.contains_key(e.0@) && share_positive(e.1) {
            w0.insert(e.0@, rewarded(w0[e.0@], 1))
        } else {
            w0
        }
    }
}

/// The reputation updates that settlement reports, in payout order: each
/// registered paid worker with its reputation after settlement.
pub open spec fn reputation_updates(
    w: Map<Seq<char>, WorkerAccount>,
    payouts: Seq<(String, u64)>,
) -> Seq<(Seq<char>, i64)>
    decreases payouts.len(),
{
    if payouts.len() == 0 {
        Seq::empty()
    } else {
        let prev = reputation_updates(w, payouts.drop_last());
        let w1 = workers_after_settlement(w, payouts);
        let e = payouts.last();
        if w1.contains_key(e.0@) {
            prev.push((e.0@, w1[e.0@].reputation))
        } else {
            prev
        }
    }
}

/// The outcome of `settle_job`: the finalized workers' payout shares, as
/// `share_bits` computes them, ordered by worker id; reputation +1 for each
/// registered worker with a positive share; a stake slash, with its
/// `StakeSlashed` event, for each registered committer without a reveal;
/// the job settled.
pub open spec fn settle_post<G: Fn(&FinalizationRecord, usize) -> u64>(
    a: LifecycleView,
    b: LifecycleView,
    job: Seq<char>,
    share_bits: G,
    r: Result<Vec<(String, u64)>, ContractError>,
) -> bool {
    if !a.jobs.contains_key(job) {
        r == Err::<Vec<(String, u64)>, ContractError>(ContractError::JobNotFound) && unchanged(a, b)
    } else if a.jobs[job].state != ContractJobState::Finalized {
        r == Err::<Vec<(String, u64)>, ContractError>(ContractError::InvalidState) && unchanged(a, b)
    } else if a.jobs[job].open_challenge_ids.len() > 0 {
        r == Err::<Vec<(String, u64)>, ContractError>(ContractError::InvalidChallengeState) && unchanged(a, b)
    } else if a.jobs[job].finalization is None {
        r == Err::<Vec<(String, u64)>, ContractError>(ContractError::MissingFinalization) && unchanged(a, b)
    } else {
        let fin = a.jobs[job].finalization->0;
        let jv = a.jobs[job];
        let base = slash_base(jv.spec.min_worker_stake);
        &&& r matches Ok(payouts) && {
            let updates = reputation_updates(a.workers, payouts@);
            let paid = workers_after_settlement(a.workers, payouts@);
            let slashes = no_reveal_slashes(paid, jv.commit_order, jv.reveals, base);
            &&& payouts@.len() == fin.scored_workers@.len()
            &&& forall|i: int|
                0 <= i < payouts@.len() ==> exists|j: int|
                    0 <= j < fin.scored_workers@.len() && fin.scored_workers@[j].0@ == (#[trigger] payouts@[i]).0@
                        && call_ensures(share_bits, (&fin, j as usize), payouts@[i].1)
            &&& forall|j: int|
                0 <= j < fin.scored_workers@.len() ==> lists_worker(payouts@, (#[trigger] fin.scored_workers@[j]).0@)
            &&& distinct_workers(payouts@)
            &&& entries_sorted(payouts@, false)
            &&& b.jobs == a.jobs.insert(
                job,
                JobView {
                    state: ContractJobState::Settled,
                    payouts: Some(payouts@.map_values(|e: (String, u64)| (e.0@, e.1))),
                    ..a.jobs[job]
                },
            )
            &&& b.workers == workers_after_no_reveal(paid, jv.commit_order, jv.reveals, base)
            &&& b.challenges == a.challenges
            &&& b.challenge_ids == a.challenge_ids
            &&& b.stats == a.stats
            &&& b.challenge_seq == a.challenge_seq
            &&& b.seq == a.seq + updates.len() + slashes.len() + 1
            &&& log_extends(a.events, b.events, updates.len() + slashes.len() + 1)
            &&& forall|u: int|
                0 <= u < updates.len() ==> event_is(
                    #[trigger] b.events[a.events.len() + u],
                    (a.seq + u + 1) as u64,
                    job,
                    ContractEventKind::ReputationUpdated,
                    updates[u].0,
                    "reputation="@ + dec_signed(updates[u].1 as int),
                )
            &&& forall|s: int|
                0 <= s < slashes.len() ==> event_is(
                    #[trigger] b.events[a.events.len() + updates.len() + s],
                    (a.seq + updates.len() + s + 1) as u64,
                    job,
                    ContractEventKind::StakeSlashed,
                    slashes[s].0,
                    "reason=no_reveal;amount="@ + dec(slashes[s].1 as nat),
                )
            &&& event_is(
                b.events.last(),
                b.seq,
                job,
                ContractEventKind::JobSettled,
                "system"@,
                "payout_recipients="@ + dec(payouts@.len()),
            )
        }
    }
}

/// Settlement never adds or removes accounts.
pub proof fn lemma_settlement_domain(w: Map<Seq<char>, WorkerAccount>, payouts: Seq<(String, u64)>, k: Seq<char>)
    ensures
        workers_after_settlement(w, payouts).contains_key(k) == w.contains_key(k),
    decreases payouts.len(),
{
    if payouts.len() > 0 {
        lemma_settlement_domain(w, payouts.drop_last(), k);
    }
}

/// Settlement leaves the accounts of unpaid workers alone.
pub proof fn lemma_settlement_untouched(w: Map<Seq<char>, WorkerAccount>, payouts: Seq<(String, u64)>, k: Seq<char>)
    requires
        !lists_worker(payouts, k),
        w.contains_key(k),
    ensures
        workers_after_settlement(w, payouts)[k] == w[k],
    decreases payouts.len(),
{
    if payouts.len() > 0 {
        let prefix = payouts.drop_last();
        assert(!lists_worker(prefix, k)) by {
            if lists_worker(prefix, k) {
                let i = choose|i: int| 0 <= i < prefix.len() && prefix[i].0@ == k;
                assert(payouts[i].0@ == k);
            }
        }
        assert(payouts.last().0@ != k) by {
            if payouts.last().0@ == k {
                assert(payouts[payouts.len() - 1].0@ == k);
            }
        }
        lemma_settlement_untouched(w, prefix, k);
    }
}

/// Settlement reports at most one update per payout.
pub proof fn lemma_updates_len(w: Map<Seq<char>, WorkerAccount>, payouts: Seq<(String, u64)>)
    ensures
        reputation_updates(w, payouts).len() <= payouts.len(),
    decreases payouts.len(),
{
    if payouts.len() > 0 {
        lemma_updates_len(w, payouts.drop_last());
    }
}

/// An account after its stake is slashed by `slash_amount(base, stake)`.
pub open spec fn stake_slashed(account: WorkerAccount, base: u64) -> WorkerAccount {
    WorkerAccount {
        staked_amount: (account.staked_amount - slash_amount(base, account.staked_amount)) as u64,
        ..account
    }
}

/// The accounts after the penalty for failing to reveal after a commit:
/// each registered worker of `order` (the committers, in commit order) that
/// has no reveal is slashed.
pub open spec fn workers_after_no_reveal(
    w: Map<Seq<char>, WorkerAccount>,
    order: Seq<Seq<char>>,
    reveals: Map<Seq<char>, WorkerExecutionReport>,
    base: u64,
) -> Map<Seq<char>, WorkerAccount>
    decreases order.len(),
{
    if order.len() == 0 {
        w
    } else {
        let w0 = workers_after_no_reveal(w, order.drop_last(), reveals, base);
        let k = order.last();
        if !reveals.contains_key(k) && w0.contains_key(k) {
            w0.insert(k, stake_slashed(w0[k], base))
        } else {
            w0
        }
    }
}

/// The slashes of `workers_after_no_reveal`, in commit order: each slashed
/// worker with the amount taken from its stake.
pub open spec fn no_reveal_slashes(
    w: Map<Seq<char>, WorkerAccount>,
    order: Seq<Seq<char>>,
    reveals: Map<Seq<char>, WorkerExecutionReport>,
    base: u64,
) -> Seq<(Seq<char>, u64)>
    decreases order.len(),
{
    if order.len() == 0 {
        Seq::empty()
    } else {
        let prev = no_reveal_slashes(w, order.drop_last(), reveals, base);
        let w0 = workers_after_no_reveal(w, order.drop_last(), reveals, base);
        let k = order.last();
        if !reveals.contains_key(k) && w0.contains_key(k) {
            prev.push((k, slash_amount(base, w0[k].staked_amount)))
        } else {
            prev
        }
    }
}

/// At most one slash per committer.
pub proof fn lemma_no_reveal_slashes_len(
    w: Map<Seq<char>, WorkerAccount>,
    order: Seq<Seq<char>>,
    reveals: Map<Seq<char>, WorkerExecutionReport>,
    base: u64,
)
    ensures
        no_reveal_slashes(w, order, reveals, base).len() <= order.len(),
    decreases order.len(),
{
    if order.len() > 0 {
        lemma_no_reveal_slashes_len(w, order.drop_last(), reveals, base);
    }
}

/// An `f64` bit pattern holds a value strictly greater than zero exactly
/// when its sign bit is clear, it is not a zero (exponent and fraction not
/// both zero), and it is not a NaN (all-ones exponent with a non-zero
/// fraction); `share_positive` is that test. In particular a zero share
/// (bits 0) and a negative zero are not positive.
pub proof fn law_share_positive_means_greater_than_zero(bits: u64)
    ensures
        share_positive(bits) <==> (bits & 0x8000_0000_0000_0000u64 == 0 && bits & 0x7FFF_FFFF_FFFF_FFFFu64 != 0
            && !(bits & 0x7FF0_0000_0000_0000u64 == 0x7FF0_0000_0000_0000u64 && bits & 0x000F_FFFF_FFFF_FFFFu64
            != 0)),
        !share_positive(0),
        !share_positive(0x8000_0000_0000_0000),
{
    assert((0 < bits && bits <= 0x7FF0_0000_0000_0000u64) <==> (bits & 0x8000_0000_0000_0000u64 == 0 && bits
        & 0x7FFF_FFFF_FFFF_FFFFu64 != 0 && !(bits & 0x7FF0_0000_0000_0000u64 == 0x7FF0_0000_0000_0000u64 && bits
        & 0x000F_FFFF_FFFF_FFFFu64 != 0))) by (bit_vector);
}

/// Settlement changes a registered paid worker's account only by its
/// reputation, which rises by one exactly when its share is positive (as
/// `law_share_positive_means_greater_than_zero` characterizes) and stays put
/// otherwise, for a zero share too.
pub proof fn law_settlement_rewards_only_positive_shares(
    w: Map<Seq<char>, WorkerAccount>,
    payouts: Seq<(String, u64)>,
    i: int,
)
    requires
        distinct_workers(payouts),
        0 <= i < payouts.len(),
        w.contains_key(payouts[i].0@),
        w[payouts[i].0@].reputation < i64::MAX,
    ensures
        workers_after_settlement(w, payouts).contains_key(payouts[i].0@),
        workers_after_settlement(w, payouts)[payouts[i].0@].reputation == w[payouts[i].0@].reputation + (if share_positive(
            payouts[i].1,
        ) {
            1int
        } else {
            0int
        }),
        workers_after_settlement(w, payouts)[payouts[i].0@].staked_amount == w[payouts[i].0@].staked_amount,
        payouts[i].1 == 0 ==> workers_after_settlement(w, payouts)[payouts[i].0@] == w[payouts[i].0@],
    decreases payouts.len(),
{
    let k = payouts[i].0@;
    let prefix = payouts.drop_last();
    lemma_settlement_domain(w, payouts, k);
    lemma_settlement_domain(w, prefix, k);
    if i == payouts.len() - 1 {
        assert(!lists_worker(prefix, k)) by {
            if lists_worker(prefix, k) {
                let q = choose|q: int| 0 <= q < prefix.len() && prefix[q].0@ == k;
                assert(payouts[q].0@ == k);
            }
        }
        lemma_settlement_untouched(w, prefix, k);
        assert(payouts.last() == payouts[i]);
    } else {
        assert(distinct_workers(prefix)) by {
            assert forall|p: int, q: int|
                0 <= p < prefix.len() && 0 <= q < prefix.len() && p != q implies prefix[p].0@ != prefix[q].0@ by {
                assert(prefix[p] == payouts[p] && prefix[q] == payouts[q]);
            }
        }
        assert(prefix[i] == payouts[i]);
        law_settlement_rewards_only_positive_shares(w, prefix, i);
        assert(payouts.last().0@ != k) by {
            assert(payouts.last() == payouts[payouts.len() - 1]);
        }
    }
}

/// The stake floor for challengers, as a bound: a stake meets it exactly
/// when it is at least one and at least half the minimum worker stake
/// (rounded down), so with a minimum of 50 a stake of 25 suffices.
pub proof fn law_challenge_floor_is_half_the_minimum(min_stake: u64, stake: u64)
    ensures
        stake >= challenge_stake_floor(min_stake) <==> (stake >= 1 && 2 * stake + 1 >= min_stake),
        challenge_stake_floor(min_stake) <= min_stake || min_stake == 0,
{
}

/// The slashing base is a fifth of the minimum worker stake, rounded down,
/// and at least 1; a slash takes the base, or the whole stake when the
/// stake is smaller.
pub proof fn law_slash_is_a_fifth_of_the_minimum_stake(min_stake: u64, staked: u64)
    ensures
        slash_base(min_stake) >= 1,
        5 * slash_base(min_stake) <= min_stake || slash_base(min_stake) == 1,
        5 * (slash_base(min_stake) + 1) > min_stake,
        slash_amount(slash_base(min_stake), staked) <= staked,
        slash_amount(slash_base(min_stake), staked) <= slash_base(min_stake),
        slash_amount(slash_base(min_stake), staked) == staked || slash_amount(slash_base(min_stake), staked)
            == slash_base(min_stake),
{
}

/// Resolving a challenge against a registered target by a different
/// registered challenger: an accepted challenge slashes the target's stake
/// and takes 2 from its reputation and gives the challenger 1; a rejected
/// one slashes the challenger's stake and takes 1 from its reputation and
/// leaves the target alone.
pub proof fn law_resolution_penalizes_the_losing_side(
    w: Map<Seq<char>, WorkerAccount>,
    target: Seq<char>,
    challenger: Seq<char>,
    base: u64,
    accepted: bool,
)
    requires
        target != challenger,
        w.contains_key(target),
        w.contains_key(challenger),
        reputations_in_range(w),
    ensures
        ({
            let after = workers_after_resolution(w, target, challenger, base, accepted);
            let t = w[target];
            let c = w[challenger];
            if accepted {
                &&& after[target].reputation == t.reputation - 2
                &&& after[target].staked_amount == t.staked_amount - slash_amount(base, t.staked_amount)
                &&& after[challenger].reputation == c.reputation + 1
                &&& after[challenger].staked_amount == c.staked_amount
            } else {
                &&& after[challenger].reputation == c.reputation - 1
                &&& after[challenger].staked_amount == c.staked_amount - slash_amount(base, c.staked_amount)
                &&& after[target] == t
            }
        }),
{
}

/// Per-pair counts of (passed, total) verifications.
type PairStats = StrMap<StrMap<(u64, u64)>>;

/// The contract-side lifecycle of all jobs.
pub struct ContractLifecycle {
    jobs: StrMap<ContractJob>,
    workers: StrMap<WorkerAccount>,
    challenges: StrMap<ChallengeRecord>,
    verifier_worker_stats: PairStats,
    events: Vec<ContractEvent>,
    seq: u64,
    challenge_seq: u64,
}

impl View for ContractLifecycle {
    type V = LifecycleView;

    closed spec fn view(&self) -> LifecycleView {
        LifecycleView {
            jobs: Map::new(
                |k: Seq<char>| self.jobs.has(k),
                |k: Seq<char>| self.jobs.value_at(self.jobs.pos(k)).view(),
            ),
            workers: self.workers.map(),
            challenges: self.challenges.map(),
            challenge_ids: self.challenges.keys(),
            stats: Map::new(
                |k: Seq<char>| self.verifier_worker_stats.has(k),
                |k: Seq<char>| self.verifier_worker_stats.value_at(self.verifier_worker_stats.pos(k)).map(),
            ),
            events: self.events@,
            seq: self.seq,
            challenge_seq: self.challenge_seq,
        }
    }
}

impl ContractLifecycle {
    /// Internal consistency: tables without duplicate keys, the event
    /// sequence numbers are 1, 2, ... and the counter is the log length, and
    /// replaying the log gives each job's current phase.
    pub closed spec fn wf(&self) -> bool {
        &&& self.jobs.wf()
        &&& self.workers.wf()
        &&& self.challenges.wf()
        &&& self.verifier_worker_stats.wf()
        &&& forall|i: int|
            0 <= i < self.jobs.size() ==> (#[trigger] self.jobs.value_at(i)).wf()
        &&& forall|i: int|
            0 <= i < self.verifier_worker_stats.size() ==> (
            #[trigger] self.verifier_worker_stats.value_at(i)).wf()
        &&& self.seq == self.events@.len()
        &&& forall|i: int| 0 <= i < self.events@.len() ==> (#[trigger] self.events@[i]).seq == i + 1
        &&& forall|i: int|
            0 <= i < self.challenges.size() ==> issued_challenge_id(#[trigger] self.challenges.key_at(i), self.challenge_seq)
        &&& forall|k: Seq<char>| #[trigger] replay(self.events@, k) == job_state(self@, k)
    }

    proof fn lemma_jobs_view(&self, i: int)
        requires
            self.jobs.wf(),
            0 <= i < self.jobs.size(),
        ensures
            self@.jobs.contains_key(self.jobs.key_at(i)),
            self@.jobs[self.jobs.key_at(i)] == self.jobs.value_at(i).view(),
    {
        self.jobs.lemma_pos(i);
    }

    /// After changing the job at position `i` (and nothing else in the job
    /// table), the job map reads the new job under its key.
    proof fn lemma_job_changed(before: Self, after: Self, i: int)
        requires
            before.jobs.wf(),
            0 <= i < before.jobs.size(),
            after.jobs.size() == before.jobs.size(),
            forall|j: int| 0 <= j < after.jobs.size() ==> after.jobs.key_at(j) == before.jobs.key_at(j),
            forall|j: int|
                0 <= j < after.jobs.size() && j != i ==> after.jobs.value_at(j) == before.jobs.value_at(j),
        ensures
            after.jobs.wf(),
            after@.jobs == before@.jobs.insert(before.jobs.key_at(i), after.jobs.value_at(i).view()),
    {
        StrMap::lemma_changed_at(before.jobs, after.jobs, i);
        assert forall|k: Seq<char>| #[trigger] after.jobs.has(k) implies after.jobs.value_at(
            after.jobs.pos(k),
        ).view() == before@.jobs.insert(before.jobs.key_at(i), after.jobs.value_at(i).view())[k] by {
            let p = after.jobs.pos(k);
            assert(after.jobs.map().contains_key(k));
            assert(after.jobs.map()[k] == after.jobs.value_at(p));
            if k != before.jobs.key_at(i) {
                assert(before.jobs.map()[k] == after.jobs.map()[k]);
                assert(before.jobs.has(k));
                let q = before.jobs.pos(k);
                assert(before.jobs.map()[k] == before.jobs.value_at(q));
            }
        }
        assert forall|k: Seq<char>| #[trigger] after.jobs.has(k) == before@.jobs.insert(
            before.jobs.key_at(i),
            after.jobs.value_at(i).view(),
        ).contains_key(k) by {
            assert(after.jobs.map().contains_key(k) == before.jobs.map().insert(
                before.jobs.key_at(i),
                after.jobs.value_at(i),
            ).contains_key(k));
        }
        assert(after@.jobs =~= before@.jobs.insert(before.jobs.key_at(i), after.jobs.value_at(i).view()));
    }

    /// The job map reads each stored job's view.
    proof fn lemma_jobs_map(&self)
        requires
            self.jobs.wf(),
        ensures
            forall|k: Seq<char>| #[trigger] self@.jobs.contains_key(k) == self.jobs.map().contains_key(k),
            forall|k: Seq<char>| #[trigger] self@.jobs.contains_key(k) ==> self@.jobs[k] == self.jobs.map()[k].view(),
    {
    }

    /// After inserting a job under `k`, the job map reads its view there.
    proof fn lemma_job_inserted(before: Self, after: Self, k: Seq<char>, job: ContractJob)
        requires
            before.jobs.wf(),
            after.jobs.wf(),
            after.jobs.map() == before.jobs.map().insert(k, job),
        ensures
            after@.jobs == before@.jobs.insert(k, job.view()),
    {
        before.lemma_jobs_map();
        after.lemma_jobs_map();
        assert forall|q: Seq<char>| #[trigger] after@.jobs.contains_key(q) == before@.jobs.insert(k, job.view()).contains_key(q) by {
            assert(after.jobs.map().contains_key(q) == before.jobs.map().insert(k, job).contains_key(q));
        }
        assert forall|q: Seq<char>| after@.jobs.contains_key(q) implies #[trigger] after@.jobs[q] == before@.jobs.insert(k, job.view())[q] by {
            assert(after.jobs.map()[q] == before.jobs.map().insert(k, job)[q]);
        }
        assert(after@.jobs =~= before@.jobs.insert(k, job.view()));
    }

    /// The pair-count map reads each stored inner table's map.
    proof fn lemma_stats_map(&self)
        requires
            self.verifier_worker_stats.wf(),
        ensures
            forall|k: Seq<char>| #[trigger] self@.stats.contains_key(k) == self.verifier_worker_stats.map().contains_key(k),
            forall|k: Seq<char>| #[trigger] self@.stats.contains_key(k) ==> self@.stats[k] == self.verifier_worker_stats.map()[k].map(),
    {
    }

    /// After changing the stats table (insert or in-place), the pair-count map
    /// reads the new inner map under `k`.
    proof fn lemma_stats_updated(before: Self, after: Self, k: Seq<char>, inner: StrMap<(u64, u64)>)
        requires
            before.verifier_worker_stats.wf(),
            after.verifier_worker_stats.wf(),
            after.verifier_worker_stats.map() == before.verifier_worker_stats.map().insert(k, inner),
        ensures
            after@.stats == before@.stats.insert(k, inner.map()),
    {
        before.lemma_stats_map();
        after.lemma_stats_map();
        assert forall|q: Seq<char>| #[trigger] after@.stats.contains_key(q) == before@.stats.insert(k, inner.map()).contains_key(q) by {
            assert(after.verifier_worker_stats.map().contains_key(q) == before.verifier_worker_stats.map().insert(k, inner).contains_key(q));
        }
        assert forall|q: Seq<char>| after@.stats.contains_key(q) implies #[trigger] after@.stats[q] == before@.stats.insert(k, inner.map())[q] by {
            assert(after.verifier_worker_stats.map()[q] == before.verifier_worker_stats.map().insert(k, inner)[q]);
        }
        assert(after@.stats =~= before@.stats.insert(k, inner.map()));
    }

    /// Appending one event keeps the log consistent with the jobs, given how
    /// the event's kind moves its job's phase.
    proof fn lemma_log_step(before: Self, after: Self)
        requires
            before.seq == before.events@.len(),
            forall|i: int| 0 <= i < before.events@.len() ==> (#[trigger] before.events@[i]).seq == i + 1,
            forall|k: Seq<char>| #[trigger] replay(before.events@, k) == job_state(before@, k),
            after.seq == before.seq + 1,
            after.events@.len() == before.events@.len() + 1,
            after.events@.drop_last() == before.events@,
            after.events@.last().seq == after.seq,
            forall|k: Seq<char>|
                k != after.events@.last().job_id@ ==> #[trigger] job_state(after@, k) == job_state(before@, k),
            job_state(after@, after.events@.last().job_id@) == phase_after(
                after.events@.last().kind,
                job_state(before@, after.events@.last().job_id@),
            ),
        ensures
            after.seq == after.events@.len(),
            forall|i: int| 0 <= i < after.events@.len() ==> (#[trigger] after.events@[i]).seq == i + 1,
            forall|k: Seq<char>| #[trigger] replay(after.events@, k) == job_state(after@, k),
            log_extends(before.events@, after.events@, 1),
    {
        let e = after.events@.last();
        assert(after.events@ == before.events@.push(e)) by {
            assert(after.events@ =~= after.events@.drop_last().push(e));
        }
        assert forall|k: Seq<char>| #[trigger] replay(after.events@, k) == job_state(after@, k) by {
            lemma_replay_push(before.events@, e, k);
            assert(replay(before.events@, k) == job_state(before@, k));
        }
        assert forall|i: int| 0 <= i < after.events@.len() implies (#[trigger] after.events@[i]).seq == i + 1 by {
            if i < before.events@.len() {
                assert(after.events@[i] == before.events@[i]);
            }
        }
        assert(after.events@.subrange(0, before.events@.len() as int) =~= before.events@);
    }

    /// Appends an event with the next sequence number.
    fn push_event(&mut self, job_id: &str, kind: ContractEventKind, actor_id: &str, details: String)
        requires
            old(self).seq < u64::MAX,
            old(self).seq == old(self).events@.len(),
        ensures
            final(self).seq == old(self).seq + 1,
            final(self).events@.len() == old(self).events@.len() + 1,
            final(self).events@.drop_last() == old(self).events@,
            event_is(final(self).events@.last(), final(self).seq, job_id@, kind, actor_id@, details@),
            final(self).jobs == old(self).jobs,
            final(self).workers == old(self).workers,
            final(self).challenges == old(self).challenges,
            final(self).verifier_worker_stats == old(self).verifier_worker_stats,
            final(self).challenge_seq == old(self).challenge_seq,
    {
        self.seq = self.seq + 1;
        let e = ContractEvent {
            seq: self.seq,
            job_id: owned(job_id),
            kind,
            actor_id: owned(actor_id),
            details,
        };
        self.events.push(e);
        assert(self.events@.drop_last() =~= old(self).events@);
    }

    /// The view of a lifecycle with no jobs, workers, challenges or events.
    pub open spec fn new_view() -> LifecycleView {
        LifecycleView {
            jobs: Map::<Seq<char>, JobView>::empty(),
            workers: Map::<Seq<char>, WorkerAccount>::empty(),
            challenges: Map::<Seq<char>, ChallengeRecord>::empty(),
            challenge_ids: Seq::<Seq<char>>::empty(),
            stats: Map::<Seq<char>, Map<Seq<char>, (u64, u64)>>::empty(),
            events: Seq::<ContractEvent>::empty(),
            seq: 0,
            challenge_seq: 0,
        }
    }

    pub fn new() -> (r: Self)
        ensures
            r.wf(),
            r@ == Self::new_view(),
            r@.jobs == Map::<Seq<char>, JobView>::empty(),
            r@.workers == Map::<Seq<char>, WorkerAccount>::empty(),
            r@.challenges == Map::<Seq<char>, ChallengeRecord>::empty(),
            r@.challenge_ids == Seq::<Seq<char>>::empty(),
            r@.stats == Map::<Seq<char>, Map<Seq<char>, (u64, u64)>>::empty(),
            r@.events == Seq::<ContractEvent>::empty(),
            r@.seq == 0,
            r@.challenge_seq == 0,
    {
        let r = ContractLifecycle {
            jobs: StrMap::new(),
            workers: StrMap::new(),
            challenges: StrMap::new(),
            verifier_worker_stats: StrMap::new(),
            events: Vec::new(),
            seq: 0,
            challenge_seq: 0,
        };
        assert(r@.jobs =~= Map::<Seq<char>, JobView>::empty());
        assert(r@.challenge_ids =~= Seq::<Seq<char>>::empty());
        assert(r@.stats =~= Map::<Seq<char>, Map<Seq<char>, (u64, u64)>>::empty());
        r
    }

    /// Registers (or re-registers) a worker with `stake` and reputation 0.
    pub fn register_worker(&mut self, worker_id: &str, stake: u64)
        requires
            old(self).wf(),
        ensures
            final(self).wf(),
            final(self)@.workers == old(self)@.workers.insert(worker_id@, final(self)@.workers[worker_id@]),
            final(self)@.workers[worker_id@].worker_id@ == worker_id@,
            final(self)@.workers[worker_id@].staked_amount == stake,
            final(self)@.workers[worker_id@].reputation == 0,
            final(self)@.jobs == old(self)@.jobs,
            final(self)@.challenges == old(self)@.challenges,
            final(self)@.challenge_ids == old(self)@.challenge_ids,
            final(self)@.stats == old(self)@.stats,
            final(self)@.events == old(self)@.events,
            final(self)@.seq == old(self)@.seq,
            final(self)@.challenge_seq == old(self)@.challenge_seq,
    {
        let account = WorkerAccount { worker_id: owned(worker_id), staked_amount: stake, reputation: 0 };
        self.workers.insert(owned(worker_id), account);
        proof {
            assert(self@.jobs =~= old(self)@.jobs);
            assert(self@.stats =~= old(self)@.stats);
            assert forall|k: Seq<char>| #[trigger] replay(self.events@, k) == job_state(self@, k) by {
                assert(replay(old(self).events@, k) == job_state(old(self)@, k));
            }
        }
    }

    /// The current phase of a job.
    pub fn get_job_state(&self, job_id: &str) -> (r: Option<ContractJobState>)
        requires
            self.wf(),
        ensures
            r == job_state(self@, job_id@),
    {
        match self.jobs.find(job_id) {
            Some(i) => {
                proof {
                    self.lemma_jobs_view(i as int);
                }
                Some(self.jobs.value_ref(i).state)
            },
            None => {
                proof {
                    assert(!self@.jobs.contains_key(job_id@));
                }
                None
            },
        }
    }

    /// The event log.
    pub fn events(&self) -> (r: &[ContractEvent])
        ensures
            r@ == self@.events,
    {
        self.events.as_slice()
    }

    /// A worker's reputation, if registered.
    pub fn worker_reputation(&self, worker_id: &str) -> (r: Option<i64>)
        requires
            self.wf(),
        ensures
            r == (if self@.workers.contains_key(worker_id@) {
                Some(self@.workers[worker_id@].reputation)
            } else {
                None
            }),
    {
        match self.workers.get(worker_id) {
            Some(account) => Some(account.reputation),
            None => None,
        }
    }

    /// The stake a worker's commit locked for a job, if it committed.
    pub fn locked_stake(&self, job_id: &str, worker_id: &str) -> (r: Option<u64>)
        requires
            self.wf(),
        ensures
            r == (if self@.jobs.contains_key(job_id@) && self@.jobs[job_id@].commits.contains_key(
                worker_id@,
            ) {
                Some(self@.jobs[job_id@].commits[worker_id@].stake_locked)
            } else {
                None
            }),
    {
        match self.jobs.find(job_id) {
            Some(i) => {
                proof {
                    self.lemma_jobs_view(i as int);
                }
                let job = self.jobs.value_ref(i);
                match job.commits.get(worker_id) {
                    Some(record) => Some(record.stake_locked),
                    None => None,
                }
            },
            None => None,
        }
    }

    /// Registers a job and opens its commit phase; returns its id. A job with
    /// the same id is replaced.
    pub fn create_job(&mut self, spec: JobSpec) -> (r: String)
        requires
            old(self).wf(),
            old(self)@.seq + 2 <= u64::MAX,
        ensures
            final(self).wf(),
            r@ == spec.job_id@,
            final(self)@.jobs == old(self)@.jobs.insert(spec.job_id@, fresh_job(spec)),
            only_jobs_and_log_change(old(self)@, final(self)@),
            final(self)@.seq == old(self)@.seq + 2,
            log_extends(old(self)@.events, final(self)@.events, 2),
            event_is(
                final(self)@.events[old(self)@.events.len() as int],
                (old(self)@.seq + 1) as u64,
                spec.job_id@,
                ContractEventKind::JobCreated,
                "requester"@,
                "job created"@,
            ),
            event_is(
                final(self)@.events.last(),
                final(self)@.seq,
                spec.job_id@,
                ContractEventKind::CommitOpened,
                "system"@,
                "commit phase open"@,
            ),
    {
        let job_id = copy_string(&spec.job_id);
        let ghost spec_value = spec;
        let job = ContractJob {
            spec,
            state: ContractJobState::Created,
            commits: StrMap::new(),
            reveals: StrMap::new(),
            verification_pass_count: 0,
            open_challenge_ids: Vec::new(),
            finalization: None,
            payouts: None,
        };
        let ghost job_value = job;
        let ghost before = *self;
        self.jobs.insert(copy_string(&job_id), job);
        proof {
            Self::lemma_job_inserted(before, *self, job_id@, job_value);
            assert(self.jobs.map()[job_id@] == job_value);
            assert forall|i: int| 0 <= i < self.jobs.size() implies (#[trigger] self.jobs.value_at(i)).wf() by {
                self.jobs.lemma_pos(i);
                if self.jobs.key_at(i) != job_id@ {
                    assert(before.jobs.map().contains_key(self.jobs.key_at(i)));
                    let p = before.jobs.pos(self.jobs.key_at(i));
                    before.jobs.lemma_pos(p);
                }
            }
        }
        let ghost mid = *self;
        proof {
            reveal_strlit("requester");
            reveal_strlit("job created");
        }
        self.push_event(job_id.as_str(), ContractEventKind::JobCreated, "requester", owned("job created"));
        proof {
            Self::lemma_log_step(before, *self);
        }
        let ghost created = *self;
        let opened = self.open_commit_phase(job_id.as_str());
        proof {
            assert(created@.jobs[job_id@].state == ContractJobState::Created);
            assert(opened is Ok);
            assert(job_value.view().commits =~= Map::<Seq<char>, CommitRecord>::empty());
            assert(job_value.view().reveals =~= Map::<Seq<char>, WorkerExecutionReport>::empty());
            assert(job_value.view().reveal_order =~= Seq::<Seq<char>>::empty());
            assert(job_value.view().commit_order =~= Seq::<Seq<char>>::empty());
            assert(job_value.view().open_challenge_ids =~= Seq::<Seq<char>>::empty());
            assert(job_value.view() == JobView { state: ContractJobState::Created, ..fresh_job(spec_value) });
            assert(self@.jobs =~= before@.jobs.insert(spec_value.job_id@, fresh_job(spec_value)));
            assert(self.events@.subrange(0, before.events@.len() as int) =~= before.events@);
            assert(self.events@[before.events@.len() as int] == created.events@.last());
        }
        job_id
    }

    /// The commitment a worker publishes for a report.
    pub fn commitment_for_report(report: &WorkerExecutionReport) -> (r: String)
        ensures
            r@ == commitment_text(*report),
    {
        let mut out = copy_string(&report.submission.worker_id);
        proof { reveal_strlit(":"); }
        push_text(&mut out, ":");
        push_text(&mut out, report.submission.output_ref.digest_hex.as_str());
        push_text(&mut out, ":");
        push_text(&mut out, report.submission.algorithm_execution_hash.digest_hex.as_str());
        out
    }

    /// Records a worker's commitment during the commit phase, locking the
    /// job's minimum stake.
    pub fn commit_submission(&mut self, job_id: &str, worker_id: &str, commitment_hash: &str) -> (r: Result<(), ContractError>)
        requires
            old(self).wf(),
            old(self)@.seq < u64::MAX,
        ensures
            final(self).wf(),
            commit_post(old(self)@, final(self)@, job_id@, worker_id@, commitment_hash@, r),
    {
        let stake = match self.workers.get(worker_id) {
            Some(account) => account.staked_amount,
            None => {
                return Err(ContractError::WorkerNotRegistered);
            },
        };
        let i = match self.jobs.find(job_id) {
            Some(i) => i,
            None => {
                return Err(ContractError::JobNotFound);
            },
        };
        proof {
            self.lemma_jobs_view(i as int);
        }
        if self.jobs.value_ref(i).state != ContractJobState::CommitOpen {
            return Err(ContractError::InvalidState);
        }
        let min_stake = self.jobs.value_ref(i).spec.min_worker_stake;
        if stake < min_stake {
            return Err(ContractError::InsufficientStake);
        }
        let ghost before = *self;
        let ghost old_job = self.jobs.value_at(i as int);
        {
            let job = self.jobs.value_mut(i);
            job.commits.insert(
                owned(worker_id),
                CommitRecord { commitment_hash: owned(commitment_hash), stake_locked: min_stake },
            );
        }
        proof {
            Self::lemma_job_changed(before, *self, i as int);
            let nj = self.jobs.value_at(i as int);
            assert(nj.view().commits == old_job.view().commits.insert(worker_id@, nj.view().commits[worker_id@]));
            assert(nj.view() == JobView {
                commits: old_job.view().commits.insert(worker_id@, nj.view().commits[worker_id@]),
                commit_order: if old_job.view().commits.contains_key(worker_id@) {
                    old_job.view().commit_order
                } else {
                    old_job.view().commit_order.push(worker_id@)
                },
                ..old_job.view()
            });
            assert(nj.wf());
            assert(forall|k: Seq<char>| #[trigger] job_state(self@, k) == job_state(before@, k));
        }
        let mut details = owned("commit=");
        proof { reveal_strlit("commit="); }
        push_text(&mut details, commitment_hash);
        self.push_event(job_id, ContractEventKind::SubmissionCommitted, worker_id, details);
        proof {
            Self::lemma_log_step(before, *self);
        }
        Ok(())
    }

    /// Accepts a reveal whose commitment matches the worker's commit.
    pub fn reveal_submission(&mut self, job_id: &str, report: WorkerExecutionReport) -> (r: Result<(), ContractError>)
        requires
            old(self).wf(),
            old(self)@.seq < u64::MAX,
        ensures
            final(self).wf(),
            reveal_post(old(self)@, final(self)@, job_id@, report, r),
    {
        let worker_id = copy_string(&report.submission.worker_id);
        let i = match self.jobs.find(job_id) {
            Some(i) => i,
            None => {
                return Err(ContractError::JobNotFound);
            },
        };
        proof {
            self.lemma_jobs_view(i as int);
        }
        if self.jobs.value_ref(i).state != ContractJobState::RevealOpen {
            return Err(ContractError::InvalidState);
        }
        let expected = Self::commitment_for_report(&report);
        match self.jobs.value_ref(i).commits.get(worker_id.as_str()) {
            Some(commit) => {
                if !str_eq(commit.commitment_hash.as_str(), expected.as_str()) {
                    return Err(ContractError::CommitmentMismatch);
                }
            },
            None => {
                return Err(ContractError::MissingCommit);
            },
        }
        let ghost before = *self;
        let ghost old_job = self.jobs.value_at(i as int);
        let ghost report_value = report;
        {
            let job = self.jobs.value_mut(i);
            job.reveals.insert(copy_string(&worker_id), report);
        }
        proof {
            Self::lemma_job_changed(before, *self, i as int);
            let nj = self.jobs.value_at(i as int);
            assert(old_job.reveals.map().contains_key(worker_id@) == old_job.reveals.has(worker_id@));
            assert(nj.view() == JobView {
                reveals: old_job.view().reveals.insert(worker_id@, report_value),
                reveal_order: if old_job.view().reveals.contains_key(worker_id@) {
                    old_job.view().reveal_order
                } else {
                    old_job.view().reveal_order.push(worker_id@)
                },
                ..old_job.view()
            });
            assert forall|j: int| 0 <= j < nj.reveals.size() implies #[trigger] nj.reveals.key_at(j)
                == nj.reveals.value_at(j).submission.worker_id@ by {
                if nj.reveals.key_at(j) == worker_id@ {
                    nj.reveals.lemma_pos(j);
                } else {
                    nj.reveals.lemma_pos(j);
                    assert(old_job.reveals.map().contains_key(nj.reveals.key_at(j)));
                    let p = old_job.reveals.pos(nj.reveals.key_at(j));
                    old_job.reveals.lemma_pos(p);
                }
            }
            assert(nj.wf());
            assert(forall|k: Seq<char>| #[trigger] job_state(self@, k) == job_state(before@, k));
        }
        proof { reveal_strlit("reveal accepted"); }
        self.push_event(job_id, ContractEventKind::SubmissionRevealed, worker_id.as_str(), owned("reveal accepted"));
        proof {
            Self::lemma_log_step(before, *self);
        }
        Ok(())
    }

    /// Records a verifier's pass/fail verdict on a revealed submission during
    /// the verify phase.
    pub fn record_verification(&mut self, job_id: &str, verifier_id: &str, target_worker_id: &str, passed: bool) -> (r: Result<(), ContractError>)
        requires
            old(self).wf(),
            old(self)@.seq < u64::MAX,
            old(self)@.jobs.contains_key(job_id@) ==> old(self)@.jobs[job_id@].verification_pass_count < u32::MAX,
            pair_counts(old(self)@, verifier_id@, target_worker_id@).0 < u64::MAX,
            pair_counts(old(self)@, verifier_id@, target_worker_id@).1 < u64::MAX,
        ensures
            final(self).wf(),
            verification_post(old(self)@, final(self)@, job_id@, verifier_id@, target_worker_id@, passed, r),
    {
        let i = match self.jobs.find(job_id) {
            Some(i) => i,
            None => {
                return Err(ContractError::JobNotFound);
            },
        };
        proof {
            self.lemma_jobs_view(i as int);
        }
        if self.jobs.value_ref(i).state != ContractJobState::VerifyOpen {
            return Err(ContractError::InvalidState);
        }
        match self.jobs.value_ref(i).reveals.find(target_worker_id) {
            Some(_) => {},
            None => {
                return Err(ContractError::TargetSubmissionNotFound);
            },
        }
        let ghost before = *self;
        let ghost old_job = self.jobs.value_at(i as int);
        let old_count = self.jobs.value_ref(i).verification_pass_count;
        let new_count = if passed { old_count + 1 } else { old_count };
        {
            let job = self.jobs.value_mut(i);
            job.verification_pass_count = new_count;
        }
        proof {
            Self::lemma_job_changed(before, *self, i as int);
            let nj = self.jobs.value_at(i as int);
            assert(nj.view() == JobView { verification_pass_count: new_count, ..old_job.view() });
            assert(nj.wf());
            assert(forall|k: Seq<char>| #[trigger] job_state(self@, k) == job_state(before@, k));
        }
        let ghost after_jobs = *self;
        proof {
            before.lemma_stats_map();
        }
        match self.verifier_worker_stats.find(verifier_id) {
            Some(oi) => {
                let ghost outer_before = self.verifier_worker_stats;
                proof {
                    outer_before.lemma_pos(oi as int);
                }
                let found = self.verifier_worker_stats.value_ref(oi).find(target_worker_id);
                let counts = match found {
                    Some(ii) => *self.verifier_worker_stats.value_ref(oi).value_ref(ii),
                    None => (0u64, 0u64),
                };
                let updated = (if passed { counts.0 + 1 } else { counts.0 }, counts.1 + 1);
                {
                    let inner = self.verifier_worker_stats.value_mut(oi);
                    inner.insert(owned(target_worker_id), updated);
                }
                proof {
                    let ninner = self.verifier_worker_stats.value_at(oi as int);
                    StrMap::lemma_changed_at(outer_before, self.verifier_worker_stats, oi as int);
                    Self::lemma_stats_updated(after_jobs, *self, verifier_id@, ninner);
                    assert(ninner.map() == before@.stats[verifier_id@].insert(target_worker_id@, updated));
                    assert(self@.stats == stats_after(before@.stats, verifier_id@, target_worker_id@, updated));
                    assert forall|j: int| 0 <= j < self.verifier_worker_stats.size() implies (
                    #[trigger] self.verifier_worker_stats.value_at(j)).wf() by {
                        if j != oi {
                            assert(self.verifier_worker_stats.value_at(j) == outer_before.value_at(j));
                        }
                    }
                }
            },
            None => {
                let mut inner: StrMap<(u64, u64)> = StrMap::new();
                let updated = (if passed { 1u64 } else { 0u64 }, 1u64);
                inner.insert(owned(target_worker_id), updated);
                let ghost inner_value = inner;
                let ghost outer_before = self.verifier_worker_stats;
                self.verifier_worker_stats.insert(owned(verifier_id), inner);
                proof {
                    Self::lemma_stats_updated(after_jobs, *self, verifier_id@, inner_value);
                    assert(inner_value.map() =~= Map::<Seq<char>, (u64, u64)>::empty().insert(target_worker_id@, updated));
                    assert(self@.stats == stats_after(before@.stats, verifier_id@, target_worker_id@, updated));
                    assert forall|j: int| 0 <= j < self.verifier_worker_stats.size() implies (
                    #[trigger] self.verifier_worker_stats.value_at(j)).wf() by {
                        self.verifier_worker_stats.lemma_pos(j);
                        if self.verifier_worker_stats.key_at(j) != verifier_id@ {
                            assert(outer_before.map().contains_key(self.verifier_worker_stats.key_at(j)));
                            let p = outer_before.pos(self.verifier_worker_stats.key_at(j));
                            outer_before.lemma_pos(p);
                        }
                    }
                }
            },
        }
        let ghost mid = *self;
        let mut details = owned("target=");
        proof {
            reveal_strlit("target=");
            reveal_strlit(";pass");
            reveal_strlit(";fail");
        }
        push_text(&mut details, target_worker_id);
        if passed {
            push_text(&mut details, ";pass");
        } else {
            push_text(&mut details, ";fail");
        }
        self.push_event(job_id, ContractEventKind::VerificationRecorded, verifier_id, details);
        proof {
            assert(self@.jobs == mid@.jobs);
            assert(forall|k: Seq<char>| #[trigger] job_state(mid@, k) == job_state(before@, k));
            Self::lemma_log_step(before, *self);
        }
        Ok(())
    }

    /// Opens a challenge against a revealed submission during verification
    /// or after finalization; returns the new challenge id.
    pub fn submit_challenge(
        &mut self,
        job_id: &str,
        challenger_id: &str,
        target_worker_id: &str,
        challenge_type: ChallengeType,
        evidence_score_bits: u64,
        evidence_text: &str,
    ) -> (r: Result<String, ContractError>)
        requires
            old(self).wf(),
            old(self)@.seq < u64::MAX,
            old(self)@.challenge_seq < u64::MAX,
        ensures
            final(self).wf(),
            submit_post(
                old(self)@,
                final(self)@,
                job_id@,
                challenger_id@,
                target_worker_id@,
                challenge_type,
                evidence_score_bits,
                evidence_text@,
                r,
            ),
    {
        let stake = match self.workers.get(challenger_id) {
            Some(account) => account.staked_amount,
            None => {
                return Err(ContractError::WorkerNotRegistered);
            },
        };
        let i = match self.jobs.find(job_id) {
            Some(i) => i,
            None => {
                return Err(ContractError::JobNotFound);
            },
        };
        proof {
            self.lemma_jobs_view(i as int);
        }
        let state = self.jobs.value_ref(i).state;
        if state != ContractJobState::VerifyOpen && state != ContractJobState::Finalized {
            return Err(ContractError::InvalidState);
        }
        match self.jobs.value_ref(i).reveals.find(target_worker_id) {
            Some(_) => {},
            None => {
                return Err(ContractError::TargetSubmissionNotFound);
            },
        }
        let min_stake = self.jobs.value_ref(i).spec.min_worker_stake;
        let floor = if min_stake / 2 > 1 { min_stake / 2 } else { 1 };
        if stake < floor {
            return Err(ContractError::InsufficientStake);
        }
        let ghost before = *self;
        let ghost old_job = self.jobs.value_at(i as int);
        self.challenge_seq = self.challenge_seq + 1;
        let mut challenge_id = owned("challenge-");
        proof { reveal_strlit("challenge-"); }
        push_dec_padded(&mut challenge_id, self.challenge_seq, 4);
        let record = ChallengeRecord {
            challenge_id: copy_string(&challenge_id),
            job_id: owned(job_id),
            challenger_id: owned(challenger_id),
            target_worker_id: owned(target_worker_id),
            challenge_type,
            evidence_score_bits,
            status: ChallengeStatus::Open,
            submitted_seq: self.seq + 1,
            resolved_seq: None,
        };
        {
            let job = self.jobs.value_mut(i);
            job.open_challenge_ids.push(copy_string(&challenge_id));
        }
        proof {
            Self::lemma_job_changed(before, *self, i as int);
            let nj = self.jobs.value_at(i as int);
            assert(nj.view().open_challenge_ids =~= old_job.view().open_challenge_ids.push(challenge_id@));
            assert(nj.view() == JobView {
                open_challenge_ids: old_job.view().open_challenge_ids.push(challenge_id@),
                ..old_job.view()
            });
            assert(nj.wf());
        }
        let ghost record_value = record;
        proof {
            assert(!self.challenges.has(challenge_id@)) by {
                if self.challenges.has(challenge_id@) {
                    let c = choose|c: int| 0 <= c < self.challenges.size() && self.challenges.key_at(c) == challenge_id@;
                    let n = choose|n: nat| 1 <= n <= before.challenge_seq && #[trigger] challenge_id_text(n) == self.challenges.key_at(c);
                    lemma_challenge_id_injective(n, self.challenge_seq as nat);
                }
            }
        }
        let ghost challenges_before = self.challenges;
        self.challenges.insert(copy_string(&challenge_id), record);
        proof {
            assert forall|c: int| 0 <= c < self.challenges.size() implies issued_challenge_id(
                #[trigger] self.challenges.key_at(c),
                self.challenge_seq,
            ) by {
                assert(self.challenges.keys() == challenges_before.keys().push(challenge_id@));
                assert(self.challenges.keys().len() == self.challenges.size());
                assert(challenges_before.keys().len() == challenges_before.size());
                assert(self.challenges.keys()[c] == self.challenges.key_at(c));
                if c < challenges_before.size() {
                    assert(challenges_before.keys()[c] == challenges_before.key_at(c));
                    let n = choose|n: nat| 1 <= n <= before.challenge_seq && #[trigger] challenge_id_text(n) == challenges_before.key_at(c);
                    assert(challenge_id_text(n) == self.challenges.key_at(c));
                } else {
                    assert(challenge_id_text(self.challenge_seq as nat) == self.challenges.key_at(c));
                }
            }
        }
        let ghost mid = *self;
        let mut details = owned("target=");
        proof {
            reveal_strlit("target=");
            reveal_strlit(";evidence=");
        }
        push_text(&mut details, target_worker_id);
        push_text(&mut details, ";evidence=");
        push_text(&mut details, evidence_text);
        self.push_event(job_id, ContractEventKind::ChallengeSubmitted, challenger_id, details);
        proof {
            assert(forall|k: Seq<char>| #[trigger] job_state(mid@, k) == job_state(before@, k));
            assert(self@.jobs == mid@.jobs);
            Self::lemma_log_step(before, *self);
            assert(self@.challenges[challenge_id@] == record_value);
        }
        Ok(challenge_id)
    }

    /// Resolves an open challenge: an accepted one slashes the target and
    /// rewards the challenger, a rejected one slashes the challenger. Either
    /// way the challenge stops blocking its job's settlement.
    pub fn resolve_challenge(&mut self, challenge_id: &str, accepted: bool) -> (r: Result<(), ContractError>)
        requires
            old(self).wf(),
            old(self)@.seq + 2 <= u64::MAX,
            reputations_in_range(old(self)@.workers),
        ensures
            final(self).wf(),
            resolve_post(old(self)@, final(self)@, challenge_id@, accepted, r),
    {
        let ci = match self.challenges.find(challenge_id) {
            Some(ci) => ci,
            None => {
                return Err(ContractError::ChallengeNotFound);
            },
        };
        if self.challenges.value_ref(ci).status != ChallengeStatus::Open {
            return Err(ContractError::InvalidChallengeState);
        }
        let job_id = copy_string(&self.challenges.value_ref(ci).job_id);
        let target = copy_string(&self.challenges.value_ref(ci).target_worker_id);
        let challenger = copy_string(&self.challenges.value_ref(ci).challenger_id);
        let ji = match self.jobs.find(job_id.as_str()) {
            Some(ji) => ji,
            None => {
                return Err(ContractError::JobNotFound);
            },
        };
        proof {
            self.lemma_jobs_view(ji as int);
        }
        let ghost before = *self;
        let min_stake = self.jobs.value_ref(ji).spec.min_worker_stake;
        let base = if min_stake / 5 > 1 { min_stake / 5 } else { 1 };
        let mut slashed: Option<(String, u64)> = None;
        if accepted {
            match self.workers.find(target.as_str()) {
                Some(ti) => {
                    let ghost w0 = self.workers;
                    let staked = self.workers.value_ref(ti).staked_amount;
                    let amount = if base < staked { base } else { staked };
                    proof {
                        w0.lemma_pos(ti as int);
                    }
                    {
                        let account = self.workers.value_mut(ti);
                        account.staked_amount = staked - amount;
                        account.reputation = account.reputation - 2;
                    }
                    proof {
                        StrMap::lemma_changed_at(w0, self.workers, ti as int);
                        assert(self.workers.value_at(ti as int) == penalized(w0.value_at(ti as int), base, 2));
                    }
                    slashed = Some((copy_string(&target), amount));
                },
                None => {},
            }
            let ghost w_mid = self.workers.map();
            match self.workers.find(challenger.as_str()) {
                Some(ki) => {
                    let ghost w1 = self.workers;
                    proof {
                        w1.lemma_pos(ki as int);
                        if challenger@ == target@ {
                            assert(before.workers.map()[target@].reputation >= i64::MIN + 2);
                        } else {
                            assert(before.workers.map().contains_key(challenger@));
                        }
                    }
                    {
                        let account = self.workers.value_mut(ki);
                        account.reputation = account.reputation + 1;
                    }
                    proof {
                        StrMap::lemma_changed_at(w1, self.workers, ki as int);
                        assert(self.workers.value_at(ki as int) == rewarded(w1.value_at(ki as int), 1));
                    }
                },
                None => {},
            }
        } else {
            match self.workers.find(challenger.as_str()) {
                Some(ki) => {
                    let ghost w0 = self.workers;
                    let staked = self.workers.value_ref(ki).staked_amount;
                    let amount = if base < staked { base } else { staked };
                    proof {
                        w0.lemma_pos(ki as int);
                    }
                    {
                        let account = self.workers.value_mut(ki);
                        account.staked_amount = staked - amount;
                        account.reputation = account.reputation - 1;
                    }
                    proof {
                        StrMap::lemma_changed_at(w0, self.workers, ki as int);
                        assert(self.workers.value_at(ki as int) == penalized(w0.value_at(ki as int), base, 1));
                    }
                    slashed = Some((copy_string(&challenger), amount));
                },
                None => {},
            }
        }
        proof {
            assert(self.workers.map() == workers_after_resolution(before@.workers, target@, challenger@, base, accepted));
            assert(forall|k: Seq<char>| #[trigger] job_state(self@, k) == job_state(before@, k));
            assert(self@.jobs == before@.jobs);
        }
        let ghost after_workers = *self;
        let ghost slash_count: nat = if slashed is Some { 1 } else { 0 };
        match slashed {
            Some(pair) => {
                let mut details = owned("side=");
                proof {
                    reveal_strlit("side=");
                    reveal_strlit("target");
                    reveal_strlit("challenger");
                    reveal_strlit(";amount=");
                }
                if accepted {
                    push_text(&mut details, "target");
                } else {
                    push_text(&mut details, "challenger");
                }
                push_text(&mut details, ";amount=");
                push_dec(&mut details, pair.1);
                self.push_event(job_id.as_str(), ContractEventKind::StakeSlashed, pair.0.as_str(), details);
                proof {
                    Self::lemma_log_step(after_workers, *self);
                }
            },
            None => {},
        }
        let ghost after_slash = *self;
        let resolved_seq = self.seq + 1;
        {
            let ghost c0 = self.challenges;
            let rec = self.challenges.value_mut(ci);
            rec.status = if accepted { ChallengeStatus::Accepted } else { ChallengeStatus::Rejected };
            rec.resolved_seq = Some(resolved_seq);
            proof {
                StrMap::lemma_changed_at(c0, self.challenges, ci as int);
                c0.lemma_pos(ci as int);
            }
        }
        let ghost before_job = *self;
        let ghost old_job = self.jobs.value_at(ji as int);
        let mut kept: Vec<String> = Vec::new();
        let mut k: usize = 0;
        let ghost pred = |x: Seq<char>| x != challenge_id@;
        while k < self.jobs.value_ref(ji).open_challenge_ids.len()
            invariant
                *self == before_job,
                ji < self.jobs.size(),
                old_job == self.jobs.value_at(ji as int),
                k <= old_job.open_challenge_ids@.len(),
                pred == (|x: Seq<char>| x != challenge_id@),
                kept@.map_values(|s: String| s@) == old_job.open_challenge_ids@.map_values(|s: String| s@).subrange(0, k as int).filter(pred),
            decreases old_job.open_challenge_ids@.len() - k,
        {
            let id = self.jobs.value_ref(ji).open_challenge_ids[k].as_str();
            let ghost ids = old_job.open_challenge_ids@.map_values(|s: String| s@);
            let ghost kept_before = kept@;
            let drop = str_eq(id, challenge_id);
            if !drop {
                kept.push(owned(id));
            }
            proof {
                let pre = ids.subrange(0, k as int + 1);
                assert(pre.drop_last() =~= ids.subrange(0, k as int));
                reveal_with_fuel(Seq::filter, 1);
                assert(pre.last() == id@);
                if !drop {
                    assert(kept@.map_values(|s: String| s@) =~= kept_before.map_values(|s: String| s@).push(id@));
                }
            }
            k = k + 1;
        }
        proof {
            let ids = old_job.open_challenge_ids@.map_values(|s: String| s@);
            assert(ids.subrange(0, ids.len() as int) =~= ids);
        }
        let ghost kept_view = kept@.map_values(|s: String| s@);
        {
            let job = self.jobs.value_mut(ji);
            job.open_challenge_ids = kept;
        }
        proof {
            Self::lemma_job_changed(before_job, *self, ji as int);
            let nj = self.jobs.value_at(ji as int);
            assert(nj.view() == JobView { open_challenge_ids: kept_view, ..old_job.view() });
            assert(nj.wf());
            assert(forall|q: Seq<char>| #[trigger] job_state(self@, q) == job_state(before@, q));
        }
        let ghost mid = *self;
        let mut details = owned("challenge_id=");
        proof {
            reveal_strlit("challenge_id=");
            reveal_strlit(";accepted=");
            reveal_strlit("system");
        }
        push_text(&mut details, challenge_id);
        push_text(&mut details, ";accepted=");
        push_bool(&mut details, accepted);
        self.push_event(job_id.as_str(), ContractEventKind::ChallengeResolved, "system", details);
        proof {
            Self::lemma_log_step(after_slash, *self);
            assert(self.events@.subrange(0, before.events@.len() as int) =~= before.events@);
            if slashed is Some {
                assert(self.events@[before.events@.len() as int] == after_slash.events@.last());
            }
        }
        Ok(())
    }

    /// How many challenges were rejected and how many were resolved at all.
    pub fn challenge_resolution_counts(&self) -> (r: (u64, u64))
        requires
            self.wf(),
        ensures
            r.0 == self@.challenge_ids.filter(|k: Seq<char>| self@.challenges[k].status == ChallengeStatus::Rejected).len(),
            r.1 == self@.challenge_ids.filter(|k: Seq<char>| self@.challenges[k].status != ChallengeStatus::Open).len(),
    {
        let ghost ids = self@.challenge_ids;
        let ghost rej = |k: Seq<char>| self@.challenges[k].status == ChallengeStatus::Rejected;
        let ghost res = |k: Seq<char>| self@.challenges[k].status != ChallengeStatus::Open;
        let mut rejected: u64 = 0;
        let mut resolved: u64 = 0;
        let mut i: usize = 0;
        while i < self.challenges.len()
            invariant
                self.wf(),
                ids == self@.challenge_ids,
                rej == (|k: Seq<char>| self@.challenges[k].status == ChallengeStatus::Rejected),
                res == (|k: Seq<char>| self@.challenges[k].status != ChallengeStatus::Open),
                i <= ids.len(),
                ids.len() == self.challenges.size(),
                rejected == ids.subrange(0, i as int).filter(rej).len(),
                resolved == ids.subrange(0, i as int).filter(res).len(),
                rejected <= i,
                resolved <= i,
            decreases ids.len() - i,
        {
            let status = self.challenges.value_ref(i).status;
            proof {
                self.challenges.lemma_pos(i as int);
                let pre = ids.subrange(0, i as int + 1);
                assert(pre.drop_last() =~= ids.subrange(0, i as int));
                reveal_with_fuel(Seq::filter, 1);
                assert(pre.last() == self.challenges.key_at(i as int));
            }
            match status {
                ChallengeStatus::Rejected => {
                    rejected = rejected + 1;
                    resolved = resolved + 1;
                },
                ChallengeStatus::Accepted => {
                    resolved = resolved + 1;
                },
                ChallengeStatus::Open => {},
            }
            i = i + 1;
        }
        assert(ids.subrange(0, ids.len() as int) =~= ids);
        (rejected, resolved)
    }

    /// Whether every challenge was resolved within `max_event_delta` events
    /// of its submission.
    pub fn challenge_slo_ok(&self, max_event_delta: u64) -> (r: bool)
        requires
            self.wf(),
        ensures
            r == forall|k: Seq<char>|
                #[trigger] self@.challenges.contains_key(k) ==> match self@.challenges[k].resolved_seq {
                    Some(done) => (if done >= self@.challenges[k].submitted_seq {
                        done - self@.challenges[k].submitted_seq
                    } else {
                        0
                    }) <= max_event_delta,
                    None => false,
                },
    {
        let ghost ok = |c: ChallengeRecord| match c.resolved_seq {
            Some(done) => (if done >= c.submitted_seq {
                done - c.submitted_seq
            } else {
                0
            }) <= max_event_delta,
            None => false,
        };
        let mut i: usize = 0;
        while i < self.challenges.len()
            invariant
                self.wf(),
                i <= self.challenges.size(),
                ok == (|c: ChallengeRecord| match c.resolved_seq {
                    Some(done) => (if done >= c.submitted_seq {
                        done - c.submitted_seq
                    } else {
                        0
                    }) <= max_event_delta,
                    None => false,
                }),
                forall|j: int| 0 <= j < i ==> #[trigger] ok(self.challenges.value_at(j)),
            decreases self.challenges.size() - i,
        {
            let c = self.challenges.value_ref(i);
            let fine = match c.resolved_seq {
                Some(done) => done.saturating_sub(c.submitted_seq) <= max_event_delta,
                None => false,
            };
            if !fine {
                proof {
                    self.challenges.lemma_pos(i as int);
                    assert(!ok(self@.challenges[self.challenges.key_at(i as int)]));
                }
                return false;
            }
            i = i + 1;
        }
        proof {
            assert forall|k: Seq<char>| #[trigger] self@.challenges.contains_key(k) implies ok(self@.challenges[k]) by {
                let p = self.challenges.pos(k);
                self.challenges.lemma_pos(p);
                assert(ok(self.challenges.value_at(p)));
            }
        }
        true
    }

    /// The verifier/worker pairs with at least `min_interactions`
    /// verifications, with their (passed, total) counts.
    pub fn verifier_worker_pairs(&self, min_interactions: u64) -> (r: Vec<(String, String, u64, u64)>)
        requires
            self.wf(),
        ensures
            forall|i: int| 0 <= i < r@.len() ==> {
                let e = #[trigger] r@[i];
                &&& self@.stats.contains_key(e.0@)
                &&& self@.stats[e.0@].contains_key(e.1@)
                &&& self@.stats[e.0@][e.1@] == (e.2, e.3)
                &&& e.3 >= min_interactions
            },
            forall|v: Seq<char>, w: Seq<char>|
                self@.stats.contains_key(v) && #[trigger] self@.stats[v].contains_key(w) && self@.stats[v][w].1 >= min_interactions
                    ==> exists|i: int| 0 <= i < r@.len() && #[trigger] r@[i].0@ == v && r@[i].1@ == w,
            forall|p: int, q: int|
                0 <= p < q < r@.len() ==> (#[trigger] r@[p].0@, r@[p].1@) != (#[trigger] r@[q].0@, r@[q].1@),
    {
        let mut out: Vec<(String, String, u64, u64)> = Vec::new();
        let ghost mut src: Seq<(int, int)> = Seq::empty();
        let mut i: usize = 0;
        proof {
            self.lemma_stats_map();
        }
        while i < self.verifier_worker_stats.len()
            invariant
                self.wf(),
                i <= self.verifier_worker_stats.size(),
                forall|q: int| 0 <= q < out@.len() ==> {
                    let e = #[trigger] out@[q];
                    &&& self@.stats.contains_key(e.0@)
                    &&& self@.stats[e.0@].contains_key(e.1@)
                    &&& self@.stats[e.0@][e.1@] == (e.2, e.3)
                    &&& e.3 >= min_interactions
                },
                forall|a: int, w: Seq<char>|
                    0 <= a < i && #[trigger] self.verifier_worker_stats.value_at(a).map().contains_key(w)
                        && self.verifier_worker_stats.value_at(a).map()[w].1 >= min_interactions ==> exists|q: int|
                        0 <= q < out@.len() && #[trigger] out@[q].0@ == self.verifier_worker_stats.key_at(a)
                            && out@[q].1@ == w,
                src.len() == out@.len(),
                forall|q: int| 0 <= q < out@.len() ==> 0 <= (#[trigger] src[q]).0 < i && 0 <= src[q].1 < self.verifier_worker_stats.value_at(src[q].0).size()
                    && out@[q].0@ == self.verifier_worker_stats.key_at(src[q].0)
                    && out@[q].1@ == self.verifier_worker_stats.value_at(src[q].0).key_at(src[q].1),
                forall|p: int, q: int| 0 <= p < q < out@.len() ==> (#[trigger] src[p]).0 < (#[trigger] src[q]).0 || (src[p].0 == src[q].0 && src[p].1 < src[q].1),
            decreases self.verifier_worker_stats.size() - i,
        {
            let inner = self.verifier_worker_stats.value_ref(i);
            proof {
                self.verifier_worker_stats.lemma_pos(i as int);
                self.lemma_stats_map();
            }
            let ghost out_start = out@;
            let mut j: usize = 0;
            while j < inner.len()
                invariant
                    self.wf(),
                    i < self.verifier_worker_stats.size(),
                    *inner == self.verifier_worker_stats.value_at(i as int),
                    inner.wf(),
                    j <= inner.size(),
                    self@.stats.contains_key(self.verifier_worker_stats.key_at(i as int)),
                    self@.stats[self.verifier_worker_stats.key_at(i as int)] == inner.map(),
                    out@.subrange(0, out_start.len() as int) == out_start,
                    out@.len() >= out_start.len(),
                    forall|q: int| 0 <= q < out@.len() ==> {
                        let e = #[trigger] out@[q];
                        &&& self@.stats.contains_key(e.0@)
                        &&& self@.stats[e.0@].contains_key(e.1@)
                        &&& self@.stats[e.0@][e.1@] == (e.2, e.3)
                        &&& e.3 >= min_interactions
                    },
                    forall|b: int|
                        0 <= b < j && (#[trigger] inner.value_at(b)).1 >= min_interactions ==> exists|q: int|
                            0 <= q < out@.len() && #[trigger] out@[q].0@ == self.verifier_worker_stats.key_at(i as int)
                                && out@[q].1@ == inner.key_at(b),
                    src.len() == out@.len(),
                    forall|q: int| 0 <= q < out@.len() ==> 0 <= (#[trigger] src[q]).0 <= i && 0 <= src[q].1 < self.verifier_worker_stats.value_at(src[q].0).size()
                        && (src[q].0 == i ==> src[q].1 < j)
                        && out@[q].0@ == self.verifier_worker_stats.key_at(src[q].0)
                        && out@[q].1@ == self.verifier_worker_stats.value_at(src[q].0).key_at(src[q].1),
                    forall|p: int, q: int| 0 <= p < q < out@.len() ==> (#[trigger] src[p]).0 < (#[trigger] src[q]).0 || (src[p].0 == src[q].0 && src[p].1 < src[q].1),
                decreases inner.size() - j,
            {
                let counts = *inner.value_ref(j);
                proof {
                    inner.lemma_pos(j as int);
                }
                if counts.1 >= min_interactions {
                    let ghost before_push = out@;
                    out.push((copy_string(self.verifier_worker_stats.key_ref(i)), copy_string(inner.key_ref(j)), counts.0, counts.1));
                    proof {
                        let before_src = src;
                        src = src.push((i as int, j as int));
                        assert forall|q: int| 0 <= q < out@.len() implies 0 <= (#[trigger] src[q]).0 <= i && 0 <= src[q].1 < self.verifier_worker_stats.value_at(src[q].0).size()
                            && (src[q].0 == i ==> src[q].1 < j + 1)
                            && out@[q].0@ == self.verifier_worker_stats.key_at(src[q].0)
                            && out@[q].1@ == self.verifier_worker_stats.value_at(src[q].0).key_at(src[q].1) by {
                            if q < before_push.len() {
                                assert(src[q] == before_src[q]);
                                assert(out@[q] == before_push[q]);
                            }
                        }
                        assert forall|p: int, q: int| 0 <= p < q < out@.len() implies (#[trigger] src[p]).0 < (#[trigger] src[q]).0 || (src[p].0 == src[q].0 && src[p].1 < src[q].1) by {
                            assert(src[p] == before_src[p]);
                            if q < before_src.len() {
                                assert(src[q] == before_src[q]);
                            }
                        }
                        assert forall|b: int|
                            0 <= b < j + 1 && (#[trigger] inner.value_at(b)).1 >= min_interactions implies exists|q: int|
                                0 <= q < out@.len() && #[trigger] out@[q].0@ == self.verifier_worker_stats.key_at(i as int)
                                    && out@[q].1@ == inner.key_at(b) by {
                            if b == j {
                                assert(out@[out@.len() - 1].0@ == self.verifier_worker_stats.key_at(i as int));
                            } else {
                                let q = choose|q: int|
                                    0 <= q < before_push.len() && #[trigger] before_push[q].0@
                                        == self.verifier_worker_stats.key_at(i as int) && before_push[q].1@ == inner.key_at(b);
                                assert(out@[q] == before_push[q]);
                            }
                        }
                        assert(out@.subrange(0, out_start.len() as int) =~= before_push.subrange(0, out_start.len() as int));
                    }
                }
                j = j + 1;
            }
            proof {
                assert forall|a: int, w: Seq<char>|
                    0 <= a < i + 1 && #[trigger] self.verifier_worker_stats.value_at(a).map().contains_key(w)
                        && self.verifier_worker_stats.value_at(a).map()[w].1 >= min_interactions implies exists|q: int|
                        0 <= q < out@.len() && #[trigger] out@[q].0@ == self.verifier_worker_stats.key_at(a)
                            && out@[q].1@ == w by {
                    if a == i {
                        let b = inner.pos(w);
                        inner.lemma_pos(b);
                        assert(inner.value_at(b).1 >= min_interactions);
                    } else {
                        let q = choose|q: int|
                            0 <= q < out_start.len() && #[trigger] out_start[q].0@ == self.verifier_worker_stats.key_at(a)
                                && out_start[q].1@ == w;
                        assert(out@[q] == out_start[q]);
                    }
                }
            }
            i = i + 1;
        }
        proof {
            assert forall|v: Seq<char>, w: Seq<char>|
                self@.stats.contains_key(v) && #[trigger] self@.stats[v].contains_key(w) && self@.stats[v][w].1 >= min_interactions
                    implies exists|q: int| 0 <= q < out@.len() && #[trigger] out@[q].0@ == v && out@[q].1@ == w by {
                let a = self.verifier_worker_stats.pos(v);
                self.verifier_worker_stats.lemma_pos(a);
                assert(self.verifier_worker_stats.value_at(a).map().contains_key(w));
            }
            assert forall|p: int, q: int| 0 <= p < q < out@.len() implies (#[trigger] out@[p].0@, out@[p].1@) != (
                #[trigger] out@[q].0@,
                out@[q].1@,
            ) by {
                let ap = src[p].0;
                let bp = src[p].1;
                let aq = src[q].0;
                let bq = src[q].1;
                if ap != aq {
                    assert(self.verifier_worker_stats.key_at(ap) != self.verifier_worker_stats.key_at(aq));
                } else {
                    let inner = self.verifier_worker_stats.value_at(ap);
                    assert(inner.wf());
                    assert(inner.key_at(bp) != inner.key_at(bq));
                }
            }
        }
        out
    }

    /// Scores every revealed submission with `score_bits` (an `f64` score as
    /// its bit pattern), ranks them best first and finalizes the job.
    pub fn finalize_job<F: Fn(&WorkerExecutionReport) -> u64>(&mut self, job_id: &str, score_bits: F) -> (r: Result<FinalizationRecord, ContractError>)
        requires
            old(self).wf(),
            old(self)@.seq < u64::MAX,
            forall|report: &WorkerExecutionReport| #[trigger] score_bits.requires((report,)),
        ensures
            final(self).wf(),
            finalize_post(old(self)@, final(self)@, job_id@, score_bits, r),
    {
        let i = match self.jobs.find(job_id) {
            Some(i) => i,
            None => {
                return Err(ContractError::JobNotFound);
            },
        };
        proof {
            self.lemma_jobs_view(i as int);
        }
        if self.jobs.value_ref(i).state != ContractJobState::VerifyOpen {
            return Err(ContractError::InvalidState);
        }
        let n = self.jobs.value_ref(i).reveals.len();
        if n == 0 {
            proof {
                assert(self@.jobs[job_id@].reveal_order.len() == 0);
            }
            return Err(ContractError::NoReveals);
        }
        let ghost before = *self;
        let ghost old_job = self.jobs.value_at(i as int);
        let ghost order = old_job.reveals.keys();
        let mut scored: Vec<(String, u64)> = Vec::new();
        let mut k: usize = 0;
        while k < n
            invariant
                *self == before,
                i < self.jobs.size(),
                old_job == self.jobs.value_at(i as int),
                old_job.wf(),
                n == old_job.reveals.size(),
                order == old_job.reveals.keys(),
                k <= n,
                scored@.len() == k,
                forall|report: &WorkerExecutionReport| #[trigger] score_bits.requires((report,)),
                forall|q: int|
                    0 <= q < k ==> (#[trigger] scored@[q]).0@ == order[q] && call_ensures(
                        score_bits,
                        (&old_job.reveals.value_at(q),),
                        scored@[q].1,
                    ),
            decreases n - k,
        {
            let report = self.jobs.value_ref(i).reveals.value_ref(k);
            let bits = score_bits(report);
            scored.push((copy_string(&report.submission.worker_id), bits));
            k = k + 1;
        }
        let ghost pre = scored@;
        proof {
            assert forall|p: int, q: int| 0 <= p < pre.len() && 0 <= q < pre.len() && p != q implies pre[p].0@ != pre[q].0@ by {
                assert(old_job.reveals.key_at(p) != old_job.reveals.key_at(q));
            }
        }
        let sorted = sort_entries(scored, true);
        let ghost perm = choose|perm: Seq<int>|
            is_permutation(perm, pre.len()) && forall|q: int| 0 <= q < sorted@.len() ==> #[trigger] sorted@[q] == pre[perm[q]];
        proof {
            assert(is_permutation(perm, pre.len()));
        }
        let winner = copy_string(&sorted[0].0);
        let fin = FinalizationRecord { scored_workers: sorted, winner_worker_id: winner };
        let stored = fin.copied();
        proof {
            assert forall|p: int, q: int|
                0 <= p < fin.scored_workers@.len() && 0 <= q < fin.scored_workers@.len() && p != q implies fin.scored_workers@[p].0@
                != fin.scored_workers@[q].0@ by {
                assert(fin.scored_workers@[p] == pre[perm[p]]);
                assert(fin.scored_workers@[q] == pre[perm[q]]);
            }
            assert forall|p: int, q: int|
                0 <= p < stored.scored_workers@.len() && 0 <= q < stored.scored_workers@.len() && p != q implies stored.scored_workers@[p].0@
                != stored.scored_workers@[q].0@ by {
                assert(stored@.scored.len() == fin@.scored.len());
                assert(stored@.scored[p] == fin@.scored[p]);
                assert(stored@.scored[q] == fin@.scored[q]);
                assert(fin.scored_workers@[p] == pre[perm[p]]);
                assert(fin.scored_workers@[q] == pre[perm[q]]);
            }
        }
        {
            let job = self.jobs.value_mut(i);
            job.state = ContractJobState::Finalized;
            job.finalization = Some(stored);
        }
        proof {
            Self::lemma_job_changed(before, *self, i as int);
            let nj = self.jobs.value_at(i as int);
            assert(nj.view() == JobView { state: ContractJobState::Finalized, finalization: nj.finalization, ..old_job.view() });
            assert(nj.wf());
        }
        let mut details = owned("winner=");
        proof {
            reveal_strlit("winner=");
            reveal_strlit("system");
        }
        push_text(&mut details, fin.winner_worker_id.as_str());
        self.push_event(job_id, ContractEventKind::JobFinalized, "system", details);
        proof {
            Self::lemma_log_step(before, *self);
            assert forall|q: int| 0 <= q < fin.scored_workers@.len() implies exists|j: int|
                0 <= j < order.len() && order[j] == (#[trigger] fin.scored_workers@[q]).0@ && call_ensures(
                    score_bits,
                    (&before@.jobs[job_id@].reveals[order[j]],),
                    fin.scored_workers@[q].1,
                ) by {
                let j = perm[q];
                assert(fin.scored_workers@[q] == pre[j]);
                old_job.reveals.lemma_pos(j);
                assert(before@.jobs[job_id@].reveals[order[j]] == old_job.reveals.value_at(j));
            }
            assert forall|j: int| 0 <= j < order.len() implies lists_worker(fin.scored_workers@, #[trigger] order[j]) by {
                assert(occurs(perm, j));
                let q = choose|q: int| 0 <= q < perm.len() && perm[q] == j;
                assert(fin.scored_workers@[q] == pre[j]);
            }
        }
        Ok(fin)
    }

    /// Slashes each registered worker that committed to the job at position
    /// `i` and did not reveal, recording a `StakeSlashed` event for each.
    fn slash_missing_reveals(&mut self, i: usize, job_id: &str)
        requires
            old(self).wf(),
            i < old(self).jobs.size(),
            old(self).jobs.key_at(i as int) == job_id@,
            old(self)@.seq + old(self)@.jobs[job_id@].commit_order.len() <= u64::MAX,
        ensures
            final(self).wf(),
            final(self).jobs == old(self).jobs,
            final(self)@.jobs == old(self)@.jobs,
            final(self)@.challenges == old(self)@.challenges,
            final(self)@.challenge_ids == old(self)@.challenge_ids,
            final(self)@.stats == old(self)@.stats,
            final(self)@.challenge_seq == old(self)@.challenge_seq,
            ({
                let j = old(self)@.jobs[job_id@];
                let base = slash_base(j.spec.min_worker_stake);
                let sl = no_reveal_slashes(old(self)@.workers, j.commit_order, j.reveals, base);
                &&& final(self)@.workers == workers_after_no_reveal(old(self)@.workers, j.commit_order, j.reveals, base)
                &&& final(self)@.seq == old(self)@.seq + sl.len()
                &&& log_extends(old(self)@.events, final(self)@.events, sl.len())
                &&& forall|s: int|
                    0 <= s < sl.len() ==> event_is(
                        #[trigger] final(self)@.events[old(self)@.events.len() + s],
                        (old(self)@.seq + s + 1) as u64,
                        job_id@,
                        ContractEventKind::StakeSlashed,
                        sl[s].0,
                        "reason=no_reveal;amount="@ + dec(sl[s].1 as nat),
                    )
            }),
    {
        proof {
            self.lemma_jobs_view(i as int);
        }
        let ghost before = *self;
        let ghost j = before@.jobs[job_id@];
        let ghost w0 = before@.workers;
        let min_stake = self.jobs.value_ref(i).spec.min_worker_stake;
        let base = if min_stake / 5 > 1 { min_stake / 5 } else { 1 };
        let n = self.jobs.value_ref(i).commits.len();
        proof {
            assert(self@.events.subrange(0, self@.events.len() as int) =~= self@.events);
            assert(j.commit_order.subrange(0, 0) =~= Seq::<Seq<char>>::empty());
        }
        let mut c: usize = 0;
        while c < n
            invariant
                self.wf(),
                self.jobs == before.jobs,
                self.challenges == before.challenges,
                self.verifier_worker_stats == before.verifier_worker_stats,
                self.challenge_seq == before.challenge_seq,
                i < self.jobs.size(),
                self.jobs.key_at(i as int) == job_id@,
                j == self.jobs.value_at(i as int).view(),
                j == before@.jobs[job_id@],
                n == j.commit_order.len(),
                c <= n,
                base == slash_base(j.spec.min_worker_stake),
                w0 == before@.workers,
                before@.seq + n <= u64::MAX,
                self@.workers == workers_after_no_reveal(w0, j.commit_order.subrange(0, c as int), j.reveals, base),
                self@.seq == before@.seq + no_reveal_slashes(w0, j.commit_order.subrange(0, c as int), j.reveals, base).len(),
                log_extends(
                    before@.events,
                    self@.events,
                    no_reveal_slashes(w0, j.commit_order.subrange(0, c as int), j.reveals, base).len(),
                ),
                forall|s: int|
                    0 <= s < no_reveal_slashes(w0, j.commit_order.subrange(0, c as int), j.reveals, base).len()
                        ==> event_is(
                        #[trigger] self@.events[before@.events.len() + s],
                        (before@.seq + s + 1) as u64,
                        job_id@,
                        ContractEventKind::StakeSlashed,
                        no_reveal_slashes(w0, j.commit_order.subrange(0, c as int), j.reveals, base)[s].0,
                        "reason=no_reveal;amount="@ + dec(
                            no_reveal_slashes(w0, j.commit_order.subrange(0, c as int), j.reveals, base)[s].1 as nat,
                        ),
                    ),
            decreases n - c,
        {
            let ghost pre = j.commit_order.subrange(0, c as int);
            let ghost next = j.commit_order.subrange(0, c as int + 1);
            let ghost at_step = *self;
            let key = copy_string(self.jobs.value_ref(i).commits.key_ref(c));
            proof {
                assert(next.drop_last() =~= pre);
                assert(next.last() == key@);
                lemma_no_reveal_slashes_len(w0, pre, j.reveals, base);
            }
            let revealed = self.jobs.value_ref(i).reveals.find(key.as_str());
            if revealed.is_none() {
                match self.workers.find(key.as_str()) {
                    Some(wi) => {
                        let ghost wt = self.workers;
                        let staked = self.workers.value_ref(wi).staked_amount;
                        let amount = if base < staked { base } else { staked };
                        proof {
                            wt.lemma_pos(wi as int);
                        }
                        {
                            let account = self.workers.value_mut(wi);
                            account.staked_amount = staked - amount;
                        }
                        proof {
                            StrMap::lemma_changed_at(wt, self.workers, wi as int);
                            assert(self.workers.value_at(wi as int) == stake_slashed(wt.value_at(wi as int), base));
                            assert(self@.workers == workers_after_no_reveal(w0, next, j.reveals, base));
                            assert(no_reveal_slashes(w0, next, j.reveals, base) == no_reveal_slashes(
                                w0,
                                pre,
                                j.reveals,
                                base,
                            ).push((key@, amount)));
                            assert(self@.jobs == before@.jobs);
                            assert(forall|q: Seq<char>| #[trigger] job_state(self@, q) == job_state(at_step@, q));
                        }
                        let mut details = owned("reason=no_reveal;amount=");
                        proof {
                            reveal_strlit("reason=no_reveal;amount=");
                        }
                        push_dec(&mut details, amount);
                        let ghost mid = *self;
                        self.push_event(job_id, ContractEventKind::StakeSlashed, key.as_str(), details);
                        proof {
                            assert(forall|q: Seq<char>| #[trigger] job_state(mid@, q) == job_state(at_step@, q));
                            Self::lemma_log_step(at_step, *self);
                            let sl = no_reveal_slashes(w0, next, j.reveals, base);
                            assert forall|s: int| 0 <= s < sl.len() implies event_is(
                                #[trigger] self@.events[before@.events.len() + s],
                                (before@.seq + s + 1) as u64,
                                job_id@,
                                ContractEventKind::StakeSlashed,
                                sl[s].0,
                                "reason=no_reveal;amount="@ + dec(sl[s].1 as nat),
                            ) by {
                                if s < sl.len() - 1 {
                                    assert(self@.events[before@.events.len() + s] == at_step@.events[before@.events.len()
                                        + s]);
                                }
                            }
                            assert(self@.events.subrange(0, before@.events.len() as int) =~= before@.events);
                        }
                    },
                    None => {
                        proof {
                            assert(workers_after_no_reveal(w0, next, j.reveals, base) == workers_after_no_reveal(
                                w0,
                                pre,
                                j.reveals,
                                base,
                            ));
                        }
                    },
                }
            } else {
                proof {
                    assert(j.reveals.contains_key(key@));
                }
            }
            c = c + 1;
        }
        proof {
            assert(j.commit_order.subrange(0, n as int) =~= j.commit_order);
        }
    }

    /// Settles a finalized job without open challenges: computes each scored
    /// worker's payout share with `share_bits` (an `f64` share as its bit
    /// pattern), raises the reputation of registered workers with a positive
    /// share, slashes each registered worker that committed and never
    /// revealed, and returns the shares ordered by worker id.
    pub fn settle_job<G: Fn(&FinalizationRecord, usize) -> u64>(&mut self, job_id: &str, share_bits: G) -> (r: Result<Vec<(String, u64)>, ContractError>)
        requires
            old(self).wf(),
            forall|f: &FinalizationRecord, j: usize| #[trigger] share_bits.requires((f, j)),
            reputations_in_range(old(self)@.workers),
            old(self)@.jobs.contains_key(job_id@) && old(self)@.jobs[job_id@].finalization is Some ==> old(self)@.seq
                + old(self)@.jobs[job_id@].finalization->0.scored_workers@.len()
                + old(self)@.jobs[job_id@].commit_order.len() + 1 <= u64::MAX,
        ensures
            final(self).wf(),
            settle_post(old(self)@, final(self)@, job_id@, share_bits, r),
    {
        let i = match self.jobs.find(job_id) {
            Some(i) => i,
            None => {
                return Err(ContractError::JobNotFound);
            },
        };
        proof {
            self.lemma_jobs_view(i as int);
        }
        if self.jobs.value_ref(i).state != ContractJobState::Finalized {
            return Err(ContractError::InvalidState);
        }
        if self.jobs.value_ref(i).open_challenge_ids.len() > 0 {
            return Err(ContractError::InvalidChallengeState);
        }
        let ghost before = *self;
        let ghost old_job = self.jobs.value_at(i as int);
        let fin_ref: &FinalizationRecord = match &self.jobs.value_ref(i).finalization {
            Some(f) => f,
            None => {
                return Err(ContractError::MissingFinalization);
            },
        };
        let ghost fin = *fin_ref;
        let n = fin_ref.scored_workers.len();
        let mut pre: Vec<(String, u64)> = Vec::new();
        let mut k: usize = 0;
        while k < n
            invariant
                n == fin.scored_workers@.len(),
                *fin_ref == fin,
                k <= n,
                pre@.len() == k,
                forall|f: &FinalizationRecord, j: usize| #[trigger] share_bits.requires((f, j)),
                forall|q: int|
                    0 <= q < k ==> (#[trigger] pre@[q]).0@ == fin.scored_workers@[q].0@ && call_ensures(
                        share_bits,
                        (&fin, q as usize),
                        pre@[q].1,
                    ),
            decreases n - k,
        {
            let bits = share_bits(fin_ref, k);
            pre.push((copy_string(&fin_ref.scored_workers[k].0), bits));
            k = k + 1;
        }
        let ghost pre_v = pre@;
        let payouts = sort_entries(pre, false);
        let ghost perm = choose|perm: Seq<int>|
            is_permutation(perm, pre_v.len()) && forall|q: int| 0 <= q < payouts@.len() ==> #[trigger] payouts@[q] == pre_v[perm[q]];
        proof {
            assert(is_permutation(perm, pre_v.len()));
            assert(distinct_workers(fin.scored_workers@));
            assert forall|p: int, q: int| 0 <= p < payouts@.len() && 0 <= q < payouts@.len() && p != q implies payouts@[p].0@
                != payouts@[q].0@ by {
                assert(payouts@[p] == pre_v[perm[p]]);
                assert(payouts@[q] == pre_v[perm[q]]);
            }
        }
        let ghost w0 = before@.workers;
        proof {
            assert(payouts@.subrange(0, 0) =~= Seq::<(String, u64)>::empty());
            assert(self@.events.subrange(0, self@.events.len() as int) =~= self@.events);
        }
        let mut k: usize = 0;
        while k < payouts.len()
            invariant
                self.wf(),
                self.jobs == before.jobs,
                i < self.jobs.size(),
                distinct_workers(payouts@),
                reputations_in_range(w0),
                w0 == before@.workers,
                k <= payouts@.len(),
                payouts@.len() == fin.scored_workers@.len(),
                before@.seq + payouts@.len() + before@.jobs[job_id@].commit_order.len() + 1 <= u64::MAX,
                self.jobs.key_at(i as int) == job_id@,
                self@.jobs == before@.jobs,
                self@.challenges == before@.challenges,
                self@.challenge_ids == before@.challenge_ids,
                self@.stats == before@.stats,
                self@.challenge_seq == before@.challenge_seq,
                self@.workers == workers_after_settlement(w0, payouts@.subrange(0, k as int)),
                self@.seq == before@.seq + reputation_updates(w0, payouts@.subrange(0, k as int)).len(),
                log_extends(before@.events, self@.events, reputation_updates(w0, payouts@.subrange(0, k as int)).len()),
                forall|u: int|
                    0 <= u < reputation_updates(w0, payouts@.subrange(0, k as int)).len() ==> event_is(
                        #[trigger] self@.events[before@.events.len() + u],
                        (before@.seq + u + 1) as u64,
                        job_id@,
                        ContractEventKind::ReputationUpdated,
                        reputation_updates(w0, payouts@.subrange(0, k as int))[u].0,
                        "reputation="@ + dec_signed(reputation_updates(w0, payouts@.subrange(0, k as int))[u].1 as int),
                    ),
            decreases payouts@.len() - k,
        {
            let ghost s_k = payouts@.subrange(0, k as int);
            let ghost s_next = payouts@.subrange(0, k as int + 1);
            let ghost e = payouts@[k as int];
            let ghost at_step = *self;
            proof {
                assert(s_next.drop_last() =~= s_k);
                assert(s_next.last() == e);
                lemma_updates_len(w0, s_k);
                assert(!lists_worker(s_k, e.0@)) by {
                    if lists_worker(s_k, e.0@) {
                        let q = choose|q: int| 0 <= q < s_k.len() && s_k[q].0@ == e.0@;
                        assert(payouts@[q].0@ == e.0@);
                    }
                }
                lemma_settlement_domain(w0, s_k, e.0@);
                lemma_settlement_domain(w0, s_next, e.0@);
                if w0.contains_key(e.0@) {
                    lemma_settlement_untouched(w0, s_k, e.0@);
                }
            }
            let bits = payouts[k].1;
            match self.workers.find(payouts[k].0.as_str()) {
                Some(wi) => {
                    let ghost wt = self.workers;
                    proof {
                        wt.lemma_pos(wi as int);
                    }
                    if 0 < bits && bits <= 0x7FF0_0000_0000_0000 {
                        {
                            let account = self.workers.value_mut(wi);
                            account.reputation = account.reputation + 1;
                        }
                        proof {
                            StrMap::lemma_changed_at(wt, self.workers, wi as int);
                        }
                    }
                    let rep_now = self.workers.value_ref(wi).reputation;
                    proof {
                        self.workers.lemma_pos(wi as int);
                        assert(self@.workers == workers_after_settlement(w0, s_next));
                        assert(reputation_updates(w0, s_next) == reputation_updates(w0, s_k).push((e.0@, rep_now)));
                        assert(self@.jobs == before@.jobs);
                        assert(forall|q: Seq<char>| #[trigger] job_state(self@, q) == job_state(at_step@, q));
                    }
                    let mut details = owned("reputation=");
                    proof {
                        reveal_strlit("reputation=");
                    }
                    push_dec_signed(&mut details, rep_now);
                    let ghost mid = *self;
                    self.push_event(job_id, ContractEventKind::ReputationUpdated, payouts[k].0.as_str(), details);
                    proof {
                        assert(forall|q: Seq<char>| #[trigger] job_state(mid@, q) == job_state(at_step@, q));
                        Self::lemma_log_step(at_step, *self);
                        let ups = reputation_updates(w0, s_next);
                        assert forall|u: int| 0 <= u < ups.len() implies event_is(
                            #[trigger] self@.events[before@.events.len() + u],
                            (before@.seq + u + 1) as u64,
                            job_id@,
                            ContractEventKind::ReputationUpdated,
                            ups[u].0,
                            "reputation="@ + dec_signed(ups[u].1 as int),
                        ) by {
                            if u < ups.len() - 1 {
                                assert(self@.events[before@.events.len() + u] == at_step@.events[before@.events.len() + u]);
                            }
                        }
                        assert(self@.events.subrange(0, before@.events.len() as int) =~= before@.events);
                    }
                },
                None => {
                    proof {
                        assert(!self@.workers.contains_key(e.0@));
                        assert(workers_after_settlement(w0, s_next) == workers_after_settlement(w0, s_k));
                        assert(reputation_updates(w0, s_next) == reputation_updates(w0, s_k));
                    }
                },
            }
            k = k + 1;
        }
        proof {
            assert(payouts@.subrange(0, payouts@.len() as int) =~= payouts@);
            lemma_updates_len(w0, payouts@);
        }
        let ghost after_rep = *self;
        self.slash_missing_reveals(i, job_id);
        proof {
            let ups = reputation_updates(w0, payouts@);
            let jv = before@.jobs[job_id@];
            let sl = no_reveal_slashes(
                workers_after_settlement(w0, payouts@),
                jv.commit_order,
                jv.reveals,
                slash_base(jv.spec.min_worker_stake),
            );
            lemma_no_reveal_slashes_len(
                workers_after_settlement(w0, payouts@),
                jv.commit_order,
                jv.reveals,
                slash_base(jv.spec.min_worker_stake),
            );
            assert forall|u: int| 0 <= u < ups.len() implies event_is(
                #[trigger] self@.events[before@.events.len() + u],
                (before@.seq + u + 1) as u64,
                job_id@,
                ContractEventKind::ReputationUpdated,
                ups[u].0,
                "reputation="@ + dec_signed(ups[u].1 as int),
            ) by {
                assert(self@.events.subrange(0, after_rep@.events.len() as int)[before@.events.len() + u]
                    == self@.events[before@.events.len() + u]);
                assert(after_rep@.events[before@.events.len() + u] == self@.events[before@.events.len() + u]);
            }
            assert forall|k: int| 0 <= k < before@.events.len() implies self@.events[k] == before@.events[k] by {
                assert(self@.events.subrange(0, after_rep@.events.len() as int)[k] == self@.events[k]);
                assert(after_rep@.events.subrange(0, before@.events.len() as int)[k] == after_rep@.events[k]);
            }
            assert(self@.events.subrange(0, before@.events.len() as int) =~= before@.events);
        }
        let ghost after_updates = *self;
        let mut stored: Vec<(String, u64)> = Vec::new();
        let mut q: usize = 0;
        while q < payouts.len()
            invariant
                q <= payouts@.len(),
                stored@.len() == q,
                forall|p: int| 0 <= p < q ==> (#[trigger] stored@[p]).0@ == payouts@[p].0@ && stored@[p].1 == payouts@[p].1,
            decreases payouts@.len() - q,
        {
            stored.push((copy_string(&payouts[q].0), payouts[q].1));
            q = q + 1;
        }
        proof {
            assert(stored@.map_values(|e: (String, u64)| (e.0@, e.1)) =~= payouts@.map_values(|e: (String, u64)| (e.0@, e.1)));
            self.lemma_jobs_view(i as int);
        }
        {
            let job = self.jobs.value_mut(i);
            job.payouts = Some(stored);
            job.state = ContractJobState::Settled;
        }
        proof {
            Self::lemma_job_changed(after_updates, *self, i as int);
            let nj = self.jobs.value_at(i as int);
            assert(nj.view() == JobView {
                state: ContractJobState::Settled,
                payouts: Some(payouts@.map_values(|e: (String, u64)| (e.0@, e.1))),
                ..old_job.view()
            });
            assert(nj.wf());
        }
        let mut details = owned("payout_recipients=");
        proof {
            reveal_strlit("payout_recipients=");
            reveal_strlit("system");
        }
        push_dec(&mut details, payouts.len() as u64);
        let ghost mid = *self;
        self.push_event(job_id, ContractEventKind::JobSettled, "system", details);
        proof {
            Self::lemma_log_step(after_updates, *self);
            let ups = reputation_updates(w0, payouts@);
            assert forall|u: int| 0 <= u < ups.len() implies event_is(
                #[trigger] self@.events[before@.events.len() + u],
                (before@.seq + u + 1) as u64,
                job_id@,
                ContractEventKind::ReputationUpdated,
                ups[u].0,
                "reputation="@ + dec_signed(ups[u].1 as int),
            ) by {
                assert(self@.events[before@.events.len() + u] == after_updates@.events[before@.events.len() + u]);
            }
            let jv = before@.jobs[job_id@];
            let sl = no_reveal_slashes(
                workers_after_settlement(w0, payouts@),
                jv.commit_order,
                jv.reveals,
                slash_base(jv.spec.min_worker_stake),
            );
            assert forall|t: int| 0 <= t < sl.len() implies event_is(
                #[trigger] self@.events[before@.events.len() + ups.len() + t],
                (before@.seq + ups.len() + t + 1) as u64,
                job_id@,
                ContractEventKind::StakeSlashed,
                sl[t].0,
                "reason=no_reveal;amount="@ + dec(sl[t].1 as nat),
            ) by {
                assert(self@.events[after_rep@.events.len() + t] == after_updates@.events[after_rep@.events.len() + t]);
            }
            assert(self@.events.subrange(0, before@.events.len() as int) =~= before@.events);
            assert forall|p: int| 0 <= p < payouts@.len() implies exists|j: int|
                0 <= j < fin.scored_workers@.len() && fin.scored_workers@[j].0@ == (#[trigger] payouts@[p]).0@
                    && call_ensures(share_bits, (&fin, j as usize), payouts@[p].1) by {
                assert(payouts@[p] == pre_v[perm[p]]);
            }
            assert forall|j: int| 0 <= j < fin.scored_workers@.len() implies lists_worker(payouts@, (#[trigger] fin.scored_workers@[j]).0@) by {
                assert(occurs(perm, j));
                let p = choose|p: int| 0 <= p < perm.len() && perm[p] == j;
                assert(payouts@[p] == pre_v[j]);
            }
        }
        Ok(payouts)
    }

    /// Moves job `job_id` from `from` to `to` and records an event.
    fn open_phase(
        &mut self,
        job_id: &str,
        from: ContractJobState,
        to: ContractJobState,
        kind: ContractEventKind,
        details: &str,
    ) -> (r: Result<(), ContractError>)
        requires
            old(self).wf(),
            old(self)@.seq < u64::MAX,
            phase_after(kind, None) == Some(to),
            forall|p: Option<ContractJobState>| #[trigger] phase_after(kind, p) == Some(to),
        ensures
            final(self).wf(),
            phase_step_post(old(self)@, final(self)@, job_id@, from, to, kind, details@, r),
    {
        let i = match self.jobs.find(job_id) {
            Some(i) => i,
            None => {
                return Err(ContractError::JobNotFound);
            },
        };
        proof {
            self.lemma_jobs_view(i as int);
        }
        if self.jobs.value_ref(i).state != from {
            return Err(ContractError::InvalidState);
        }
        let ghost before = *self;
        {
            let job = self.jobs.value_mut(i);
            job.state = to;
        }
        proof {
            Self::lemma_job_changed(before, *self, i as int);
            assert(self.jobs.value_at(i as int).view() == JobView {
                state: to,
                ..before@.jobs[job_id@]
            });
            assert(self.jobs.value_at(i as int).wf());
        }
        let ghost mid = *self;
        self.push_event(job_id, kind, "system", owned(details));
        proof {
            reveal_strlit("system");
            assert(self@.jobs == mid@.jobs);
            assert(self@.stats == mid@.stats);
            assert forall|k: Seq<char>| #[trigger] replay(self.events@, k) == job_state(self@, k) by {
                lemma_replay_push(mid.events@, self.events@.last(), k);
                assert(self.events@ == mid.events@.push(self.events@.last()));
                assert(replay(before.events@, k) == job_state(before@, k));
            }
            assert(self.events@.subrange(0, before.events@.len() as int) =~= before.events@);
            assert(self.jobs.wf());
            assert(forall|j: int| 0 <= j < self.jobs.size() ==> (#[trigger] self.jobs.value_at(j)).wf());
            assert forall|j: int| 0 <= j < self.events@.len() implies (#[trigger] self.events@[j]).seq == j + 1 by {
                if j < before.events@.len() {
                    assert(self.events@[j] == self.events@.drop_last()[j]);
                }
            }
        }
        Ok(())
    }

    /// Opens the commit phase of a created job.
    pub fn open_commit_phase(&mut self, job_id: &str) -> (r: Result<(), ContractError>)
        requires
            old(self).wf(),
            old(self)@.seq < u64::MAX,
        ensures
            final(self).wf(),
            phase_step_post(
                old(self)@,
                final(self)@,
                job_id@,
                ContractJobState::Created,
                ContractJobState::CommitOpen,
                ContractEventKind::CommitOpened,
                "commit phase open"@,
                r,
            ),
    {
        self.open_phase(
            job_id,
            ContractJobState::Created,
            ContractJobState::CommitOpen,
            ContractEventKind::CommitOpened,
            "commit phase open",
        )
    }

    /// Closes commits and opens reveals.
    pub fn open_reveal_phase(&mut self, job_id: &str) -> (r: Result<(), ContractError>)
        requires
            old(self).wf(),
            old(self)@.seq < u64::MAX,
        ensures
            final(self).wf(),
            phase_step_post(
                old(self)@,
                final(self)@,
                job_id@,
                ContractJobState::CommitOpen,
                ContractJobState::RevealOpen,
                ContractEventKind::RevealOpened,
                "reveal phase open"@,
                r,
            ),
    {
        self.open_phase(
            job_id,
            ContractJobState::CommitOpen,
            ContractJobState::RevealOpen,
            ContractEventKind::RevealOpened,
            "reveal phase open",
        )
    }

    /// Closes reveals and opens verification.
    pub fn open_verify_phase(&mut self, job_id: &str) -> (r: Result<(), ContractError>)
        requires
            old(self).wf(),
            old(self)@.seq < u64::MAX,
        ensures
            final(self).wf(),
            phase_step_post(
                old(self)@,
                final(self)@,
                job_id@,
                ContractJobState::RevealOpen,
                ContractJobState::VerifyOpen,
                ContractEventKind::VerifyOpened,
                "verify phase open"@,
                r,
            ),
    {
        self.open_phase(
            job_id,
            ContractJobState::RevealOpen,
            ContractJobState::VerifyOpen,
            ContractEventKind::VerifyOpened,
            "verify phase open",
        )
    }
}

impl Default for ContractLifecycle {
    fn default() -> (r: Self)
        ensures
            r.wf(),
            r@ == Self::new_view(),
    {
        Self::new()
    }
}

/// The events of job `job`, in log order.
pub open spec fn job_timeline(events: Seq<ContractEvent>, job: Seq<char>) -> Seq<ContractEvent>
    decreases events.len(),
{
    if events.len() == 0 {
        Seq::empty()
    } else {
        let prev = job_timeline(events.drop_last(), job);
        if events.last().job_id@ == job {
            prev.push(events.last())
        } else {
            prev
        }
    }
}

/// Replays event logs.
pub struct EventIndexer;

impl EventIndexer {
    /// The events of one job, in log order.
    pub fn timeline_for_job(events: &[ContractEvent], job_id: &str) -> (r: Vec<ContractEvent>)
        ensures
            r@ == job_timeline(events@, job_id@),
    {
        let mut out: Vec<ContractEvent> = Vec::new();
        let mut i: usize = 0;
        while i < events.len()
            invariant
                i <= events@.len(),
                out@ == job_timeline(events@.subrange(0, i as int), job_id@),
            decreases events@.len() - i,
        {
            let e = &events[i];
            proof {
                let pre = events@.subrange(0, i as int + 1);
                assert(pre.drop_last() =~= events@.subrange(0, i as int));
                assert(pre.last() == *e);
            }
            if str_eq(e.job_id.as_str(), job_id) {
                let copy = ContractEvent {
                    seq: e.seq,
                    job_id: copy_string(&e.job_id),
                    kind: e.kind,
                    actor_id: copy_string(&e.actor_id),
                    details: copy_string(&e.details),
                };
                assert(copy == *e);
                out.push(copy);
            }
            i = i + 1;
        }
        assert(events@.subrange(0, events@.len() as int) =~= events@);
        out
    }

    /// The phase of job `job_id` that replaying `events` yields: the phase
    /// set by its last phase-changing event, or `None`.
    pub fn rebuild_state(events: &[ContractEvent], job_id: &str) -> (r: Option<ContractJobState>)
        ensures
            r == replay(events@, job_id@),
    {
        let mut state: Option<ContractJobState> = None;
        let mut i: usize = 0;
        while i < events.len()
            invariant
                i <= events@.len(),
                state == replay(events@.subrange(0, i as int), job_id@),
            decreases events@.len() - i,
        {
            let e = &events[i];
            proof {
                let pre = events@.subrange(0, i as int + 1);
                assert(pre.drop_last() =~= events@.subrange(0, i as int));
            }
            if str_eq(e.job_id.as_str(), job_id) {
                state = match e.kind {
                    ContractEventKind::JobCreated => Some(ContractJobState::Created),
                    ContractEventKind::CommitOpened => Some(ContractJobState::CommitOpen),
                    ContractEventKind::RevealOpened => Some(ContractJobState::RevealOpen),
                    ContractEventKind::VerifyOpened => Some(ContractJobState::VerifyOpen),
                    ContractEventKind::JobFinalized => Some(ContractJobState::Finalized),
                    ContractEventKind::JobSettled => Some(ContractJobState::Settled),
                    _ => state,
                };
            }
            i = i + 1;
        }
        assert(events@.subrange(0, events@.len() as int) =~= events@);
        state
    }
}

/// Replaying a job's own timeline gives the same phase as replaying the whole
/// log: events of other jobs never change a job's replayed phase. So
/// `rebuild_state` of `timeline_for_job(events, job)` equals `rebuild_state`
/// of `events`, for the same job.
pub proof fn law_timeline_replay_matches_log(events: Seq<ContractEvent>, job: Seq<char>)
    ensures
        replay(job_timeline(events, job), job) == replay(events, job),
    decreases events.len(),
{
    if events.len() > 0 {
        law_timeline_replay_matches_log(events.drop_last(), job);
        let e = events.last();
        if e.job_id@ == job {
            lemma_replay_push(job_timeline(events.drop_last(), job), e, job);
        }
    }
}

/// Every job's phase is the phase that replaying the event log yields, and a
/// job id that was never created replays to `None`.
pub proof fn law_log_replay_matches_state(lifecycle: &ContractLifecycle, job: Seq<char>)
    requires
        lifecycle.wf(),
    ensures
        replay(lifecycle@.events, job) == job_state(lifecycle@, job),
{
    assert(replay(lifecycle.events@, job) == job_state(lifecycle@, job));
}

/// The event log is numbered 1, 2, ... in order, and the counter is the
/// number of events.
pub proof fn law_events_numbered_in_order(lifecycle: &ContractLifecycle)
    requires
        lifecycle.wf(),
    ensures
        lifecycle@.seq == lifecycle@.events.len(),
        forall|i: int| 0 <= i < lifecycle@.events.len() ==> (#[trigger] lifecycle@.events[i]).seq == i + 1,
{
}

} // verus!
